//! Owned RDATA payloads and EDNS state.

use vstd::prelude::*;
use crate::types::RecordType;
use crate::rdata::basic::{A, AAAA, CAA, CNAME, DOA, IpAddr, MX, NAPTR, NS, OPT, PTR, RESINFO, SOA, SRV, TXT};
use crate::rdata::dnssec::{CDNSKEY, CDS, CERT, CSYNC, DHCID, DLV, DNSKEY, DS, HIP, KEY, NINFO, NSEC, NSEC3, NSEC3PARAM, NXT, OPENPGPKEY, RKEY, RRSIG, SIG, SMIMEA, SSHFP, TA, TALINK, TKEY, TLSA, TSIG, ZONEMD};
use crate::rdata::legacy::{A6, AFSDB, ANAME, ANY, APL, ATMA, AVC, AXFR, DNAME, EID, GID, GPOS, HINFO, ISDN, IXFR, LOC, MAILA, MAILB, MB, MD, MF, MG, MINFO, MR, NIMLOC, NSAP, NSAPPTR, NULL, PX, RP, RT, SINK, SPF, UID, UINFO, UNSPEC, WKS, X25};
use crate::rdata::service::{AMTRELAY, EUI48, EUI64, HTTPS, IPSECKEY, KX, L32, L64, LP, NID, SVCB, URI};

pub mod basic;
pub mod bitmap;
pub mod bitmap_law;
pub mod dnssec;
pub mod legacy;
pub mod service;
pub mod subnet_text;
pub mod txt_text;

verus! {

/// Supported owned RDATA payloads, one variant per modeled record type.
#[derive(Debug, Clone, PartialEq, Eq)]
pub enum RData {
    A(A),
    AAAA(AAAA),
    CNAME(CNAME),
    NS(NS),
    MD(MD),
    MF(MF),
    PTR(PTR),
    MB(MB),
    MG(MG),
    MR(MR),
    NULL(NULL),
    HINFO(HINFO),
    MINFO(MINFO),
    MX(MX),
    RP(RP),
    AFSDB(AFSDB),
    X25(X25),
    WKS(WKS),
    NSAP(NSAP),
    ISDN(ISDN),
    RT(RT),
    EID(EID),
    NIMLOC(NIMLOC),
    NSAPPTR(NSAPPTR),
    SIG(SIG),
    KEY(KEY),
    PX(PX),
    GPOS(GPOS),
    LOC(LOC),
    NXT(NXT),
    SRV(SRV),
    NAPTR(NAPTR),
    KX(KX),
    CERT(CERT),
    ATMA(ATMA),
    A6(A6),
    SINK(SINK),
    DNAME(DNAME),
    APL(APL),
    DS(DS),
    SSHFP(SSHFP),
    IPSECKEY(IPSECKEY),
    RRSIG(RRSIG),
    NSEC(NSEC),
    DNSKEY(DNSKEY),
    DHCID(DHCID),
    NSEC3(NSEC3),
    NSEC3PARAM(NSEC3PARAM),
    TLSA(TLSA),
    SMIMEA(SMIMEA),
    HIP(HIP),
    NINFO(NINFO),
    RKEY(RKEY),
    TALINK(TALINK),
    CDS(CDS),
    CDNSKEY(CDNSKEY),
    OPENPGPKEY(OPENPGPKEY),
    CSYNC(CSYNC),
    ZONEMD(ZONEMD),
    SVCB(SVCB),
    HTTPS(HTTPS),
    SPF(SPF),
    UINFO(UINFO),
    UID(UID),
    GID(GID),
    UNSPEC(UNSPEC),
    NID(NID),
    L32(L32),
    L64(L64),
    LP(LP),
    EUI48(EUI48),
    EUI64(EUI64),
    ANAME(ANAME),
    URI(URI),
    CAA(CAA),
    AVC(AVC),
    DOA(DOA),
    AMTRELAY(AMTRELAY),
    RESINFO(RESINFO),
    TKEY(TKEY),
    TSIG(TSIG),
    IXFR(IXFR),
    AXFR(AXFR),
    MAILB(MAILB),
    MAILA(MAILA),
    ANY(ANY),
    TA(TA),
    DLV(DLV),
    TXT(TXT),
    SOA(SOA),
    OPT(OPT),
    /// Opaque payload for unsupported record types.
    Unknown { rr_type: u16, data: Vec<u8> },
}

/// The record type a payload belongs to.
pub open spec fn spec_rdata_rr_type(d: RData) -> RecordType {
    match d {
        RData::A(_) => RecordType::A,
        RData::AAAA(_) => RecordType::AAAA,
        RData::CNAME(_) => RecordType::CNAME,
        RData::NS(_) => RecordType::NS,
        RData::MD(_) => RecordType::MD,
        RData::MF(_) => RecordType::MF,
        RData::PTR(_) => RecordType::PTR,
        RData::MB(_) => RecordType::MB,
        RData::MG(_) => RecordType::MG,
        RData::MR(_) => RecordType::MR,
        RData::NULL(_) => RecordType::NULL,
        RData::HINFO(_) => RecordType::HINFO,
        RData::MINFO(_) => RecordType::MINFO,
        RData::MX(_) => RecordType::MX,
        RData::RP(_) => RecordType::RP,
        RData::AFSDB(_) => RecordType::AFSDB,
        RData::X25(_) => RecordType::X25,
        RData::WKS(_) => RecordType::WKS,
        RData::NSAP(_) => RecordType::NSAP,
        RData::ISDN(_) => RecordType::ISDN,
        RData::RT(_) => RecordType::RT,
        RData::EID(_) => RecordType::EID,
        RData::NIMLOC(_) => RecordType::NIMLOC,
        RData::NSAPPTR(_) => RecordType::NSAPPTR,
        RData::SIG(_) => RecordType::SIG,
        RData::KEY(_) => RecordType::KEY,
        RData::PX(_) => RecordType::PX,
        RData::GPOS(_) => RecordType::GPOS,
        RData::LOC(_) => RecordType::LOC,
        RData::NXT(_) => RecordType::NXT,
        RData::SRV(_) => RecordType::SRV,
        RData::NAPTR(_) => RecordType::NAPTR,
        RData::KX(_) => RecordType::KX,
        RData::CERT(_) => RecordType::CERT,
        RData::ATMA(_) => RecordType::ATMA,
        RData::A6(_) => RecordType::A6,
        RData::SINK(_) => RecordType::SINK,
        RData::DNAME(_) => RecordType::DNAME,
        RData::APL(_) => RecordType::APL,
        RData::DS(_) => RecordType::DS,
        RData::SSHFP(_) => RecordType::SSHFP,
        RData::IPSECKEY(_) => RecordType::IPSECKEY,
        RData::RRSIG(_) => RecordType::RRSIG,
        RData::NSEC(_) => RecordType::NSEC,
        RData::DNSKEY(_) => RecordType::DNSKEY,
        RData::DHCID(_) => RecordType::DHCID,
        RData::NSEC3(_) => RecordType::NSEC3,
        RData::NSEC3PARAM(_) => RecordType::NSEC3PARAM,
        RData::TLSA(_) => RecordType::TLSA,
        RData::SMIMEA(_) => RecordType::SMIMEA,
        RData::HIP(_) => RecordType::HIP,
        RData::NINFO(_) => RecordType::NINFO,
        RData::RKEY(_) => RecordType::RKEY,
        RData::TALINK(_) => RecordType::TALINK,
        RData::CDS(_) => RecordType::CDS,
        RData::CDNSKEY(_) => RecordType::CDNSKEY,
        RData::OPENPGPKEY(_) => RecordType::OPENPGPKEY,
        RData::CSYNC(_) => RecordType::CSYNC,
        RData::ZONEMD(_) => RecordType::ZONEMD,
        RData::SVCB(_) => RecordType::SVCB,
        RData::HTTPS(_) => RecordType::HTTPS,
        RData::SPF(_) => RecordType::SPF,
        RData::UINFO(_) => RecordType::UINFO,
        RData::UID(_) => RecordType::UID,
        RData::GID(_) => RecordType::GID,
        RData::UNSPEC(_) => RecordType::UNSPEC,
        RData::NID(_) => RecordType::NID,
        RData::L32(_) => RecordType::L32,
        RData::L64(_) => RecordType::L64,
        RData::LP(_) => RecordType::LP,
        RData::EUI48(_) => RecordType::EUI48,
        RData::EUI64(_) => RecordType::EUI64,
        RData::ANAME(_) => RecordType::ANAME,
        RData::URI(_) => RecordType::URI,
        RData::CAA(_) => RecordType::CAA,
        RData::AVC(_) => RecordType::AVC,
        RData::DOA(_) => RecordType::DOA,
        RData::AMTRELAY(_) => RecordType::AMTRELAY,
        RData::RESINFO(_) => RecordType::RESINFO,
        RData::TKEY(_) => RecordType::TKEY,
        RData::TSIG(_) => RecordType::TSIG,
        RData::IXFR(_) => RecordType::IXFR,
        RData::AXFR(_) => RecordType::AXFR,
        RData::MAILB(_) => RecordType::MAILB,
        RData::MAILA(_) => RecordType::MAILA,
        RData::ANY(_) => RecordType::ANY,
        RData::TA(_) => RecordType::TA,
        RData::DLV(_) => RecordType::DLV,
        RData::TXT(_) => RecordType::TXT,
        RData::SOA(_) => RecordType::SOA,
        RData::OPT(_) => RecordType::OPT,
        RData::Unknown { rr_type, .. } => RecordType::Unknown(rr_type),
    }
}

impl RData {
    /// The record type of this payload.
    pub fn rr_type(&self) -> (t: RecordType)
        ensures
            t == spec_rdata_rr_type(*self),
    {
        match self {
            RData::A(_) => RecordType::A,
            RData::AAAA(_) => RecordType::AAAA,
            RData::CNAME(_) => RecordType::CNAME,
            RData::NS(_) => RecordType::NS,
            RData::MD(_) => RecordType::MD,
            RData::MF(_) => RecordType::MF,
            RData::PTR(_) => RecordType::PTR,
            RData::MB(_) => RecordType::MB,
            RData::MG(_) => RecordType::MG,
            RData::MR(_) => RecordType::MR,
            RData::NULL(_) => RecordType::NULL,
            RData::HINFO(_) => RecordType::HINFO,
            RData::MINFO(_) => RecordType::MINFO,
            RData::MX(_) => RecordType::MX,
            RData::RP(_) => RecordType::RP,
            RData::AFSDB(_) => RecordType::AFSDB,
            RData::X25(_) => RecordType::X25,
            RData::WKS(_) => RecordType::WKS,
            RData::NSAP(_) => RecordType::NSAP,
            RData::ISDN(_) => RecordType::ISDN,
            RData::RT(_) => RecordType::RT,
            RData::EID(_) => RecordType::EID,
            RData::NIMLOC(_) => RecordType::NIMLOC,
            RData::NSAPPTR(_) => RecordType::NSAPPTR,
            RData::SIG(_) => RecordType::SIG,
            RData::KEY(_) => RecordType::KEY,
            RData::PX(_) => RecordType::PX,
            RData::GPOS(_) => RecordType::GPOS,
            RData::LOC(_) => RecordType::LOC,
            RData::NXT(_) => RecordType::NXT,
            RData::SRV(_) => RecordType::SRV,
            RData::NAPTR(_) => RecordType::NAPTR,
            RData::KX(_) => RecordType::KX,
            RData::CERT(_) => RecordType::CERT,
            RData::ATMA(_) => RecordType::ATMA,
            RData::A6(_) => RecordType::A6,
            RData::SINK(_) => RecordType::SINK,
            RData::DNAME(_) => RecordType::DNAME,
            RData::APL(_) => RecordType::APL,
            RData::DS(_) => RecordType::DS,
            RData::SSHFP(_) => RecordType::SSHFP,
            RData::IPSECKEY(_) => RecordType::IPSECKEY,
            RData::RRSIG(_) => RecordType::RRSIG,
            RData::NSEC(_) => RecordType::NSEC,
            RData::DNSKEY(_) => RecordType::DNSKEY,
            RData::DHCID(_) => RecordType::DHCID,
            RData::NSEC3(_) => RecordType::NSEC3,
            RData::NSEC3PARAM(_) => RecordType::NSEC3PARAM,
            RData::TLSA(_) => RecordType::TLSA,
            RData::SMIMEA(_) => RecordType::SMIMEA,
            RData::HIP(_) => RecordType::HIP,
            RData::NINFO(_) => RecordType::NINFO,
            RData::RKEY(_) => RecordType::RKEY,
            RData::TALINK(_) => RecordType::TALINK,
            RData::CDS(_) => RecordType::CDS,
            RData::CDNSKEY(_) => RecordType::CDNSKEY,
            RData::OPENPGPKEY(_) => RecordType::OPENPGPKEY,
            RData::CSYNC(_) => RecordType::CSYNC,
            RData::ZONEMD(_) => RecordType::ZONEMD,
            RData::SVCB(_) => RecordType::SVCB,
            RData::HTTPS(_) => RecordType::HTTPS,
            RData::SPF(_) => RecordType::SPF,
            RData::UINFO(_) => RecordType::UINFO,
            RData::UID(_) => RecordType::UID,
            RData::GID(_) => RecordType::GID,
            RData::UNSPEC(_) => RecordType::UNSPEC,
            RData::NID(_) => RecordType::NID,
            RData::L32(_) => RecordType::L32,
            RData::L64(_) => RecordType::L64,
            RData::LP(_) => RecordType::LP,
            RData::EUI48(_) => RecordType::EUI48,
            RData::EUI64(_) => RecordType::EUI64,
            RData::ANAME(_) => RecordType::ANAME,
            RData::URI(_) => RecordType::URI,
            RData::CAA(_) => RecordType::CAA,
            RData::AVC(_) => RecordType::AVC,
            RData::DOA(_) => RecordType::DOA,
            RData::AMTRELAY(_) => RecordType::AMTRELAY,
            RData::RESINFO(_) => RecordType::RESINFO,
            RData::TKEY(_) => RecordType::TKEY,
            RData::TSIG(_) => RecordType::TSIG,
            RData::IXFR(_) => RecordType::IXFR,
            RData::AXFR(_) => RecordType::AXFR,
            RData::MAILB(_) => RecordType::MAILB,
            RData::MAILA(_) => RecordType::MAILA,
            RData::ANY(_) => RecordType::ANY,
            RData::TA(_) => RecordType::TA,
            RData::DLV(_) => RecordType::DLV,
            RData::TXT(_) => RecordType::TXT,
            RData::SOA(_) => RecordType::SOA,
            RData::OPT(_) => RecordType::OPT,
            RData::Unknown { rr_type, .. } => RecordType::Unknown(*rr_type),
        }
    }

    /// The address carried by an `A` or `AAAA` payload.
    pub fn ip_addr(&self) -> (r: Option<IpAddr>)
        ensures
            match *self {
                RData::A(a) => r == Some(IpAddr::V4(a.0)),
                RData::AAAA(a) => r == Some(IpAddr::V6(a.0)),
                _ => r is None,
            },
    {
        match self {
            RData::A(value) => Some(IpAddr::V4(value.0)),
            RData::AAAA(value) => Some(IpAddr::V6(value.0)),
            _ => None,
        }
    }
}

} // verus!
