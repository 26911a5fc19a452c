//! Registry enums of the DNS protocol: record types, classes, opcodes,
//! response codes and the query/response bit.

use vstd::prelude::*;

verus! {

/// DNS resource record type (RFC 1035 section 3.2.2 and the IANA registry).
#[derive(Debug, Clone, Copy, PartialEq, Eq, Structural, Hash)]
pub enum RecordType {
    /// Type code 0, reserved.
    ZERO,
    /// Type code 1.
    A,
    /// Type code 2.
    NS,
    /// Type code 3.
    MD,
    /// Type code 4.
    MF,
    /// Type code 5.
    CNAME,
    /// Type code 6.
    SOA,
    /// Type code 7.
    MB,
    /// Type code 8.
    MG,
    /// Type code 9.
    MR,
    /// Type code 10.
    NULL,
    /// Type code 11.
    WKS,
    /// Type code 12.
    PTR,
    /// Type code 13.
    HINFO,
    /// Type code 14.
    MINFO,
    /// Type code 15.
    MX,
    /// Type code 16.
    TXT,
    /// Type code 17.
    RP,
    /// Type code 18.
    AFSDB,
    /// Type code 19.
    X25,
    /// Type code 20.
    ISDN,
    /// Type code 21.
    RT,
    /// Type code 22.
    NSAP,
    /// Type code 23.
    NSAPPTR,
    /// Type code 24.
    SIG,
    /// Type code 25.
    KEY,
    /// Type code 26.
    PX,
    /// Type code 27.
    GPOS,
    /// Type code 28.
    AAAA,
    /// Type code 29.
    LOC,
    /// Type code 30.
    NXT,
    /// Type code 31.
    EID,
    /// Type code 32.
    NIMLOC,
    /// Type code 33.
    SRV,
    /// Type code 34.
    ATMA,
    /// Type code 35.
    NAPTR,
    /// Type code 36.
    KX,
    /// Type code 37.
    CERT,
    /// Type code 38.
    A6,
    /// Type code 39.
    DNAME,
    /// Type code 40.
    SINK,
    /// Type code 41.
    OPT,
    /// Type code 42.
    APL,
    /// Type code 43.
    DS,
    /// Type code 44.
    SSHFP,
    /// Type code 45.
    IPSECKEY,
    /// Type code 46.
    RRSIG,
    /// Type code 47.
    NSEC,
    /// Type code 48.
    DNSKEY,
    /// Type code 49.
    DHCID,
    /// Type code 50.
    NSEC3,
    /// Type code 51.
    NSEC3PARAM,
    /// Type code 52.
    TLSA,
    /// Type code 53.
    SMIMEA,
    /// Type code 55.
    HIP,
    /// Type code 56.
    NINFO,
    /// Type code 57.
    RKEY,
    /// Type code 58.
    TALINK,
    /// Type code 59.
    CDS,
    /// Type code 60.
    CDNSKEY,
    /// Type code 61.
    OPENPGPKEY,
    /// Type code 62.
    CSYNC,
    /// Type code 63.
    ZONEMD,
    /// Type code 64.
    SVCB,
    /// Type code 65.
    HTTPS,
    /// Type code 99.
    SPF,
    /// Type code 100.
    UINFO,
    /// Type code 101.
    UID,
    /// Type code 102.
    GID,
    /// Type code 103.
    UNSPEC,
    /// Type code 104.
    NID,
    /// Type code 105.
    L32,
    /// Type code 106.
    L64,
    /// Type code 107.
    LP,
    /// Type code 108.
    EUI48,
    /// Type code 109.
    EUI64,
    /// Type code 249.
    TKEY,
    /// Type code 250.
    TSIG,
    /// Type code 251.
    IXFR,
    /// Type code 252.
    AXFR,
    /// Type code 253.
    MAILB,
    /// Type code 254.
    MAILA,
    /// Type code 255.
    ANY,
    /// Type code 256.
    URI,
    /// Type code 257.
    CAA,
    /// Type code 258.
    AVC,
    /// Type code 259.
    DOA,
    /// Type code 260.
    AMTRELAY,
    /// Type code 261.
    RESINFO,
    /// Type code 32768.
    TA,
    /// Type code 32769.
    DLV,
    /// Type code 65305.
    ANAME,
    /// Any code without a named variant.
    Unknown(u16),
}

/// The record type that a wire code denotes.
pub open spec fn spec_record_type_from_u16(v: u16) -> RecordType {
    match v {
        0 => RecordType::ZERO,
        1 => RecordType::A,
        2 => RecordType::NS,
        3 => RecordType::MD,
        4 => RecordType::MF,
        5 => RecordType::CNAME,
        6 => RecordType::SOA,
        7 => RecordType::MB,
        8 => RecordType::MG,
        9 => RecordType::MR,
        10 => RecordType::NULL,
        11 => RecordType::WKS,
        12 => RecordType::PTR,
        13 => RecordType::HINFO,
        14 => RecordType::MINFO,
        15 => RecordType::MX,
        16 => RecordType::TXT,
        17 => RecordType::RP,
        18 => RecordType::AFSDB,
        19 => RecordType::X25,
        20 => RecordType::ISDN,
        21 => RecordType::RT,
        22 => RecordType::NSAP,
        23 => RecordType::NSAPPTR,
        24 => RecordType::SIG,
        25 => RecordType::KEY,
        26 => RecordType::PX,
        27 => RecordType::GPOS,
        28 => RecordType::AAAA,
        29 => RecordType::LOC,
        30 => RecordType::NXT,
        31 => RecordType::EID,
        32 => RecordType::NIMLOC,
        33 => RecordType::SRV,
        34 => RecordType::ATMA,
        35 => RecordType::NAPTR,
        36 => RecordType::KX,
        37 => RecordType::CERT,
        38 => RecordType::A6,
        39 => RecordType::DNAME,
        40 => RecordType::SINK,
        41 => RecordType::OPT,
        42 => RecordType::APL,
        43 => RecordType::DS,
        44 => RecordType::SSHFP,
        45 => RecordType::IPSECKEY,
        46 => RecordType::RRSIG,
        47 => RecordType::NSEC,
        48 => RecordType::DNSKEY,
        49 => RecordType::DHCID,
        50 => RecordType::NSEC3,
        51 => RecordType::NSEC3PARAM,
        52 => RecordType::TLSA,
        53 => RecordType::SMIMEA,
        55 => RecordType::HIP,
        56 => RecordType::NINFO,
        57 => RecordType::RKEY,
        58 => RecordType::TALINK,
        59 => RecordType::CDS,
        60 => RecordType::CDNSKEY,
        61 => RecordType::OPENPGPKEY,
        62 => RecordType::CSYNC,
        63 => RecordType::ZONEMD,
        64 => RecordType::SVCB,
        65 => RecordType::HTTPS,
        99 => RecordType::SPF,
        100 => RecordType::UINFO,
        101 => RecordType::UID,
        102 => RecordType::GID,
        103 => RecordType::UNSPEC,
        104 => RecordType::NID,
        105 => RecordType::L32,
        106 => RecordType::L64,
        107 => RecordType::LP,
        108 => RecordType::EUI48,
        109 => RecordType::EUI64,
        249 => RecordType::TKEY,
        250 => RecordType::TSIG,
        251 => RecordType::IXFR,
        252 => RecordType::AXFR,
        253 => RecordType::MAILB,
        254 => RecordType::MAILA,
        255 => RecordType::ANY,
        256 => RecordType::URI,
        257 => RecordType::CAA,
        258 => RecordType::AVC,
        259 => RecordType::DOA,
        260 => RecordType::AMTRELAY,
        261 => RecordType::RESINFO,
        32768 => RecordType::TA,
        32769 => RecordType::DLV,
        65305 => RecordType::ANAME,
        _ => RecordType::Unknown(v),
    }
}

/// The wire code of a record type.
pub open spec fn spec_record_type_code(t: RecordType) -> u16 {
    match t {
        RecordType::ZERO => 0,
        RecordType::A => 1,
        RecordType::NS => 2,
        RecordType::MD => 3,
        RecordType::MF => 4,
        RecordType::CNAME => 5,
        RecordType::SOA => 6,
        RecordType::MB => 7,
        RecordType::MG => 8,
        RecordType::MR => 9,
        RecordType::NULL => 10,
        RecordType::WKS => 11,
        RecordType::PTR => 12,
        RecordType::HINFO => 13,
        RecordType::MINFO => 14,
        RecordType::MX => 15,
        RecordType::TXT => 16,
        RecordType::RP => 17,
        RecordType::AFSDB => 18,
        RecordType::X25 => 19,
        RecordType::ISDN => 20,
        RecordType::RT => 21,
        RecordType::NSAP => 22,
        RecordType::NSAPPTR => 23,
        RecordType::SIG => 24,
        RecordType::KEY => 25,
        RecordType::PX => 26,
        RecordType::GPOS => 27,
        RecordType::AAAA => 28,
        RecordType::LOC => 29,
        RecordType::NXT => 30,
        RecordType::EID => 31,
        RecordType::NIMLOC => 32,
        RecordType::SRV => 33,
        RecordType::ATMA => 34,
        RecordType::NAPTR => 35,
        RecordType::KX => 36,
        RecordType::CERT => 37,
        RecordType::A6 => 38,
        RecordType::DNAME => 39,
        RecordType::SINK => 40,
        RecordType::OPT => 41,
        RecordType::APL => 42,
        RecordType::DS => 43,
        RecordType::SSHFP => 44,
        RecordType::IPSECKEY => 45,
        RecordType::RRSIG => 46,
        RecordType::NSEC => 47,
        RecordType::DNSKEY => 48,
        RecordType::DHCID => 49,
        RecordType::NSEC3 => 50,
        RecordType::NSEC3PARAM => 51,
        RecordType::TLSA => 52,
        RecordType::SMIMEA => 53,
        RecordType::HIP => 55,
        RecordType::NINFO => 56,
        RecordType::RKEY => 57,
        RecordType::TALINK => 58,
        RecordType::CDS => 59,
        RecordType::CDNSKEY => 60,
        RecordType::OPENPGPKEY => 61,
        RecordType::CSYNC => 62,
        RecordType::ZONEMD => 63,
        RecordType::SVCB => 64,
        RecordType::HTTPS => 65,
        RecordType::SPF => 99,
        RecordType::UINFO => 100,
        RecordType::UID => 101,
        RecordType::GID => 102,
        RecordType::UNSPEC => 103,
        RecordType::NID => 104,
        RecordType::L32 => 105,
        RecordType::L64 => 106,
        RecordType::LP => 107,
        RecordType::EUI48 => 108,
        RecordType::EUI64 => 109,
        RecordType::TKEY => 249,
        RecordType::TSIG => 250,
        RecordType::IXFR => 251,
        RecordType::AXFR => 252,
        RecordType::MAILB => 253,
        RecordType::MAILA => 254,
        RecordType::ANY => 255,
        RecordType::URI => 256,
        RecordType::CAA => 257,
        RecordType::AVC => 258,
        RecordType::DOA => 259,
        RecordType::AMTRELAY => 260,
        RecordType::RESINFO => 261,
        RecordType::TA => 32768,
        RecordType::DLV => 32769,
        RecordType::ANAME => 65305,
        RecordType::Unknown(v) => v,
    }
}

/// A record type value in canonical form: `Unknown` never carries a code
/// that has a named variant.
pub open spec fn record_type_canonical(t: RecordType) -> bool {
    spec_record_type_from_u16(spec_record_type_code(t)) == t
}

/// The presentation mnemonic of a named record type.
pub open spec fn spec_record_type_mnemonic(t: RecordType) -> Seq<char> {
    match t {
        RecordType::ZERO => "ZERO"@,
        RecordType::A => "A"@,
        RecordType::NS => "NS"@,
        RecordType::MD => "MD"@,
        RecordType::MF => "MF"@,
        RecordType::CNAME => "CNAME"@,
        RecordType::SOA => "SOA"@,
        RecordType::MB => "MB"@,
        RecordType::MG => "MG"@,
        RecordType::MR => "MR"@,
        RecordType::NULL => "NULL"@,
        RecordType::WKS => "WKS"@,
        RecordType::PTR => "PTR"@,
        RecordType::HINFO => "HINFO"@,
        RecordType::MINFO => "MINFO"@,
        RecordType::MX => "MX"@,
        RecordType::TXT => "TXT"@,
        RecordType::RP => "RP"@,
        RecordType::AFSDB => "AFSDB"@,
        RecordType::X25 => "X25"@,
        RecordType::ISDN => "ISDN"@,
        RecordType::RT => "RT"@,
        RecordType::NSAP => "NSAP"@,
        RecordType::NSAPPTR => "NSAPPTR"@,
        RecordType::SIG => "SIG"@,
        RecordType::KEY => "KEY"@,
        RecordType::PX => "PX"@,
        RecordType::GPOS => "GPOS"@,
        RecordType::AAAA => "AAAA"@,
        RecordType::LOC => "LOC"@,
        RecordType::NXT => "NXT"@,
        RecordType::EID => "EID"@,
        RecordType::NIMLOC => "NIMLOC"@,
        RecordType::SRV => "SRV"@,
        RecordType::ATMA => "ATMA"@,
        RecordType::NAPTR => "NAPTR"@,
        RecordType::KX => "KX"@,
        RecordType::CERT => "CERT"@,
        RecordType::A6 => "A6"@,
        RecordType::DNAME => "DNAME"@,
        RecordType::SINK => "SINK"@,
        RecordType::OPT => "OPT"@,
        RecordType::APL => "APL"@,
        RecordType::DS => "DS"@,
        RecordType::SSHFP => "SSHFP"@,
        RecordType::IPSECKEY => "IPSECKEY"@,
        RecordType::RRSIG => "RRSIG"@,
        RecordType::NSEC => "NSEC"@,
        RecordType::DNSKEY => "DNSKEY"@,
        RecordType::DHCID => "DHCID"@,
        RecordType::NSEC3 => "NSEC3"@,
        RecordType::NSEC3PARAM => "NSEC3PARAM"@,
        RecordType::TLSA => "TLSA"@,
        RecordType::SMIMEA => "SMIMEA"@,
        RecordType::HIP => "HIP"@,
        RecordType::NINFO => "NINFO"@,
        RecordType::RKEY => "RKEY"@,
        RecordType::TALINK => "TALINK"@,
        RecordType::CDS => "CDS"@,
        RecordType::CDNSKEY => "CDNSKEY"@,
        RecordType::OPENPGPKEY => "OPENPGPKEY"@,
        RecordType::CSYNC => "CSYNC"@,
        RecordType::ZONEMD => "ZONEMD"@,
        RecordType::SVCB => "SVCB"@,
        RecordType::HTTPS => "HTTPS"@,
        RecordType::SPF => "SPF"@,
        RecordType::UINFO => "UINFO"@,
        RecordType::UID => "UID"@,
        RecordType::GID => "GID"@,
        RecordType::UNSPEC => "UNSPEC"@,
        RecordType::NID => "NID"@,
        RecordType::L32 => "L32"@,
        RecordType::L64 => "L64"@,
        RecordType::LP => "LP"@,
        RecordType::EUI48 => "EUI48"@,
        RecordType::EUI64 => "EUI64"@,
        RecordType::TKEY => "TKEY"@,
        RecordType::TSIG => "TSIG"@,
        RecordType::IXFR => "IXFR"@,
        RecordType::AXFR => "AXFR"@,
        RecordType::MAILB => "MAILB"@,
        RecordType::MAILA => "MAILA"@,
        RecordType::ANY => "ANY"@,
        RecordType::URI => "URI"@,
        RecordType::CAA => "CAA"@,
        RecordType::AVC => "AVC"@,
        RecordType::DOA => "DOA"@,
        RecordType::AMTRELAY => "AMTRELAY"@,
        RecordType::RESINFO => "RESINFO"@,
        RecordType::TA => "TA"@,
        RecordType::DLV => "DLV"@,
        RecordType::ANAME => "ANAME"@,
        RecordType::Unknown(_) => "Unknown"@,
    }
}

impl RecordType {
    /// Decode a wire code.
    pub fn from_u16(v: u16) -> (t: RecordType)
        ensures
            t == spec_record_type_from_u16(v),
    {
        match v {
            0 => RecordType::ZERO,
            1 => RecordType::A,
            2 => RecordType::NS,
            3 => RecordType::MD,
            4 => RecordType::MF,
            5 => RecordType::CNAME,
            6 => RecordType::SOA,
            7 => RecordType::MB,
            8 => RecordType::MG,
            9 => RecordType::MR,
            10 => RecordType::NULL,
            11 => RecordType::WKS,
            12 => RecordType::PTR,
            13 => RecordType::HINFO,
            14 => RecordType::MINFO,
            15 => RecordType::MX,
            16 => RecordType::TXT,
            17 => RecordType::RP,
            18 => RecordType::AFSDB,
            19 => RecordType::X25,
            20 => RecordType::ISDN,
            21 => RecordType::RT,
            22 => RecordType::NSAP,
            23 => RecordType::NSAPPTR,
            24 => RecordType::SIG,
            25 => RecordType::KEY,
            26 => RecordType::PX,
            27 => RecordType::GPOS,
            28 => RecordType::AAAA,
            29 => RecordType::LOC,
            30 => RecordType::NXT,
            31 => RecordType::EID,
            32 => RecordType::NIMLOC,
            33 => RecordType::SRV,
            34 => RecordType::ATMA,
            35 => RecordType::NAPTR,
            36 => RecordType::KX,
            37 => RecordType::CERT,
            38 => RecordType::A6,
            39 => RecordType::DNAME,
            40 => RecordType::SINK,
            41 => RecordType::OPT,
            42 => RecordType::APL,
            43 => RecordType::DS,
            44 => RecordType::SSHFP,
            45 => RecordType::IPSECKEY,
            46 => RecordType::RRSIG,
            47 => RecordType::NSEC,
            48 => RecordType::DNSKEY,
            49 => RecordType::DHCID,
            50 => RecordType::NSEC3,
            51 => RecordType::NSEC3PARAM,
            52 => RecordType::TLSA,
            53 => RecordType::SMIMEA,
            55 => RecordType::HIP,
            56 => RecordType::NINFO,
            57 => RecordType::RKEY,
            58 => RecordType::TALINK,
            59 => RecordType::CDS,
            60 => RecordType::CDNSKEY,
            61 => RecordType::OPENPGPKEY,
            62 => RecordType::CSYNC,
            63 => RecordType::ZONEMD,
            64 => RecordType::SVCB,
            65 => RecordType::HTTPS,
            99 => RecordType::SPF,
            100 => RecordType::UINFO,
            101 => RecordType::UID,
            102 => RecordType::GID,
            103 => RecordType::UNSPEC,
            104 => RecordType::NID,
            105 => RecordType::L32,
            106 => RecordType::L64,
            107 => RecordType::LP,
            108 => RecordType::EUI48,
            109 => RecordType::EUI64,
            249 => RecordType::TKEY,
            250 => RecordType::TSIG,
            251 => RecordType::IXFR,
            252 => RecordType::AXFR,
            253 => RecordType::MAILB,
            254 => RecordType::MAILA,
            255 => RecordType::ANY,
            256 => RecordType::URI,
            257 => RecordType::CAA,
            258 => RecordType::AVC,
            259 => RecordType::DOA,
            260 => RecordType::AMTRELAY,
            261 => RecordType::RESINFO,
            32768 => RecordType::TA,
            32769 => RecordType::DLV,
            65305 => RecordType::ANAME,
            _ => RecordType::Unknown(v),
        }
    }

    /// Encode as a wire code.
    pub fn to_u16(self) -> (v: u16)
        ensures
            v == spec_record_type_code(self),
    {
        match self {
            RecordType::ZERO => 0,
            RecordType::A => 1,
            RecordType::NS => 2,
            RecordType::MD => 3,
            RecordType::MF => 4,
            RecordType::CNAME => 5,
            RecordType::SOA => 6,
            RecordType::MB => 7,
            RecordType::MG => 8,
            RecordType::MR => 9,
            RecordType::NULL => 10,
            RecordType::WKS => 11,
            RecordType::PTR => 12,
            RecordType::HINFO => 13,
            RecordType::MINFO => 14,
            RecordType::MX => 15,
            RecordType::TXT => 16,
            RecordType::RP => 17,
            RecordType::AFSDB => 18,
            RecordType::X25 => 19,
            RecordType::ISDN => 20,
            RecordType::RT => 21,
            RecordType::NSAP => 22,
            RecordType::NSAPPTR => 23,
            RecordType::SIG => 24,
            RecordType::KEY => 25,
            RecordType::PX => 26,
            RecordType::GPOS => 27,
            RecordType::AAAA => 28,
            RecordType::LOC => 29,
            RecordType::NXT => 30,
            RecordType::EID => 31,
            RecordType::NIMLOC => 32,
            RecordType::SRV => 33,
            RecordType::ATMA => 34,
            RecordType::NAPTR => 35,
            RecordType::KX => 36,
            RecordType::CERT => 37,
            RecordType::A6 => 38,
            RecordType::DNAME => 39,
            RecordType::SINK => 40,
            RecordType::OPT => 41,
            RecordType::APL => 42,
            RecordType::DS => 43,
            RecordType::SSHFP => 44,
            RecordType::IPSECKEY => 45,
            RecordType::RRSIG => 46,
            RecordType::NSEC => 47,
            RecordType::DNSKEY => 48,
            RecordType::DHCID => 49,
            RecordType::NSEC3 => 50,
            RecordType::NSEC3PARAM => 51,
            RecordType::TLSA => 52,
            RecordType::SMIMEA => 53,
            RecordType::HIP => 55,
            RecordType::NINFO => 56,
            RecordType::RKEY => 57,
            RecordType::TALINK => 58,
            RecordType::CDS => 59,
            RecordType::CDNSKEY => 60,
            RecordType::OPENPGPKEY => 61,
            RecordType::CSYNC => 62,
            RecordType::ZONEMD => 63,
            RecordType::SVCB => 64,
            RecordType::HTTPS => 65,
            RecordType::SPF => 99,
            RecordType::UINFO => 100,
            RecordType::UID => 101,
            RecordType::GID => 102,
            RecordType::UNSPEC => 103,
            RecordType::NID => 104,
            RecordType::L32 => 105,
            RecordType::L64 => 106,
            RecordType::LP => 107,
            RecordType::EUI48 => 108,
            RecordType::EUI64 => 109,
            RecordType::TKEY => 249,
            RecordType::TSIG => 250,
            RecordType::IXFR => 251,
            RecordType::AXFR => 252,
            RecordType::MAILB => 253,
            RecordType::MAILA => 254,
            RecordType::ANY => 255,
            RecordType::URI => 256,
            RecordType::CAA => 257,
            RecordType::AVC => 258,
            RecordType::DOA => 259,
            RecordType::AMTRELAY => 260,
            RecordType::RESINFO => 261,
            RecordType::TA => 32768,
            RecordType::DLV => 32769,
            RecordType::ANAME => 65305,
            RecordType::Unknown(v) => v,
        }
    }

    /// The presentation mnemonic (`"Unknown"` for codes without a name).
    pub fn mnemonic(self) -> (s: &'static str)
        ensures
            s@ == spec_record_type_mnemonic(self),
    {
        proof {
            reveal_strlit("ZERO");
            reveal_strlit("A");
            reveal_strlit("NS");
            reveal_strlit("MD");
            reveal_strlit("MF");
            reveal_strlit("CNAME");
            reveal_strlit("SOA");
            reveal_strlit("MB");
            reveal_strlit("MG");
            reveal_strlit("MR");
            reveal_strlit("NULL");
            reveal_strlit("WKS");
            reveal_strlit("PTR");
            reveal_strlit("HINFO");
            reveal_strlit("MINFO");
            reveal_strlit("MX");
            reveal_strlit("TXT");
            reveal_strlit("RP");
            reveal_strlit("AFSDB");
            reveal_strlit("X25");
            reveal_strlit("ISDN");
            reveal_strlit("RT");
            reveal_strlit("NSAP");
            reveal_strlit("NSAPPTR");
            reveal_strlit("SIG");
            reveal_strlit("KEY");
            reveal_strlit("PX");
            reveal_strlit("GPOS");
            reveal_strlit("AAAA");
            reveal_strlit("LOC");
            reveal_strlit("NXT");
            reveal_strlit("EID");
            reveal_strlit("NIMLOC");
            reveal_strlit("SRV");
            reveal_strlit("ATMA");
            reveal_strlit("NAPTR");
            reveal_strlit("KX");
            reveal_strlit("CERT");
            reveal_strlit("A6");
            reveal_strlit("DNAME");
            reveal_strlit("SINK");
            reveal_strlit("OPT");
            reveal_strlit("APL");
            reveal_strlit("DS");
            reveal_strlit("SSHFP");
            reveal_strlit("IPSECKEY");
            reveal_strlit("RRSIG");
            reveal_strlit("NSEC");
            reveal_strlit("DNSKEY");
            reveal_strlit("DHCID");
            reveal_strlit("NSEC3");
            reveal_strlit("NSEC3PARAM");
            reveal_strlit("TLSA");
            reveal_strlit("SMIMEA");
            reveal_strlit("HIP");
            reveal_strlit("NINFO");
            reveal_strlit("RKEY");
            reveal_strlit("TALINK");
            reveal_strlit("CDS");
            reveal_strlit("CDNSKEY");
            reveal_strlit("OPENPGPKEY");
            reveal_strlit("CSYNC");
            reveal_strlit("ZONEMD");
            reveal_strlit("SVCB");
            reveal_strlit("HTTPS");
            reveal_strlit("SPF");
            reveal_strlit("UINFO");
            reveal_strlit("UID");
            reveal_strlit("GID");
            reveal_strlit("UNSPEC");
            reveal_strlit("NID");
            reveal_strlit("L32");
            reveal_strlit("L64");
            reveal_strlit("LP");
            reveal_strlit("EUI48");
            reveal_strlit("EUI64");
            reveal_strlit("TKEY");
            reveal_strlit("TSIG");
            reveal_strlit("IXFR");
            reveal_strlit("AXFR");
            reveal_strlit("MAILB");
            reveal_strlit("MAILA");
            reveal_strlit("ANY");
            reveal_strlit("URI");
            reveal_strlit("CAA");
            reveal_strlit("AVC");
            reveal_strlit("DOA");
            reveal_strlit("AMTRELAY");
            reveal_strlit("RESINFO");
            reveal_strlit("TA");
            reveal_strlit("DLV");
            reveal_strlit("ANAME");
            reveal_strlit("Unknown");
        }
        match self {
            RecordType::ZERO => "ZERO",
            RecordType::A => "A",
            RecordType::NS => "NS",
            RecordType::MD => "MD",
            RecordType::MF => "MF",
            RecordType::CNAME => "CNAME",
            RecordType::SOA => "SOA",
            RecordType::MB => "MB",
            RecordType::MG => "MG",
            RecordType::MR => "MR",
            RecordType::NULL => "NULL",
            RecordType::WKS => "WKS",
            RecordType::PTR => "PTR",
            RecordType::HINFO => "HINFO",
            RecordType::MINFO => "MINFO",
            RecordType::MX => "MX",
            RecordType::TXT => "TXT",
            RecordType::RP => "RP",
            RecordType::AFSDB => "AFSDB",
            RecordType::X25 => "X25",
            RecordType::ISDN => "ISDN",
            RecordType::RT => "RT",
            RecordType::NSAP => "NSAP",
            RecordType::NSAPPTR => "NSAPPTR",
            RecordType::SIG => "SIG",
            RecordType::KEY => "KEY",
            RecordType::PX => "PX",
            RecordType::GPOS => "GPOS",
            RecordType::AAAA => "AAAA",
            RecordType::LOC => "LOC",
            RecordType::NXT => "NXT",
            RecordType::EID => "EID",
            RecordType::NIMLOC => "NIMLOC",
            RecordType::SRV => "SRV",
            RecordType::ATMA => "ATMA",
            RecordType::NAPTR => "NAPTR",
            RecordType::KX => "KX",
            RecordType::CERT => "CERT",
            RecordType::A6 => "A6",
            RecordType::DNAME => "DNAME",
            RecordType::SINK => "SINK",
            RecordType::OPT => "OPT",
            RecordType::APL => "APL",
            RecordType::DS => "DS",
            RecordType::SSHFP => "SSHFP",
            RecordType::IPSECKEY => "IPSECKEY",
            RecordType::RRSIG => "RRSIG",
            RecordType::NSEC => "NSEC",
            RecordType::DNSKEY => "DNSKEY",
            RecordType::DHCID => "DHCID",
            RecordType::NSEC3 => "NSEC3",
            RecordType::NSEC3PARAM => "NSEC3PARAM",
            RecordType::TLSA => "TLSA",
            RecordType::SMIMEA => "SMIMEA",
            RecordType::HIP => "HIP",
            RecordType::NINFO => "NINFO",
            RecordType::RKEY => "RKEY",
            RecordType::TALINK => "TALINK",
            RecordType::CDS => "CDS",
            RecordType::CDNSKEY => "CDNSKEY",
            RecordType::OPENPGPKEY => "OPENPGPKEY",
            RecordType::CSYNC => "CSYNC",
            RecordType::ZONEMD => "ZONEMD",
            RecordType::SVCB => "SVCB",
            RecordType::HTTPS => "HTTPS",
            RecordType::SPF => "SPF",
            RecordType::UINFO => "UINFO",
            RecordType::UID => "UID",
            RecordType::GID => "GID",
            RecordType::UNSPEC => "UNSPEC",
            RecordType::NID => "NID",
            RecordType::L32 => "L32",
            RecordType::L64 => "L64",
            RecordType::LP => "LP",
            RecordType::EUI48 => "EUI48",
            RecordType::EUI64 => "EUI64",
            RecordType::TKEY => "TKEY",
            RecordType::TSIG => "TSIG",
            RecordType::IXFR => "IXFR",
            RecordType::AXFR => "AXFR",
            RecordType::MAILB => "MAILB",
            RecordType::MAILA => "MAILA",
            RecordType::ANY => "ANY",
            RecordType::URI => "URI",
            RecordType::CAA => "CAA",
            RecordType::AVC => "AVC",
            RecordType::DOA => "DOA",
            RecordType::AMTRELAY => "AMTRELAY",
            RecordType::RESINFO => "RESINFO",
            RecordType::TA => "TA",
            RecordType::DLV => "DLV",
            RecordType::ANAME => "ANAME",
            RecordType::Unknown(_) => "Unknown",
        }
    }
}

impl From<u16> for RecordType {
    fn from(v: u16) -> (t: RecordType) {
        RecordType::from_u16(v)
    }
}

impl vstd::std_specs::convert::FromSpecImpl<u16> for RecordType {
    open spec fn obeys_from_spec() -> bool {
        true
    }

    open spec fn from_spec(v: u16) -> RecordType {
        spec_record_type_from_u16(v)
    }
}

impl From<RecordType> for u16 {
    fn from(t: RecordType) -> (v: u16) {
        t.to_u16()
    }
}

impl vstd::std_specs::convert::FromSpecImpl<RecordType> for u16 {
    open spec fn obeys_from_spec() -> bool {
        true
    }

    open spec fn from_spec(t: RecordType) -> u16 {
        spec_record_type_code(t)
    }
}

/// Every wire code survives decoding and re-encoding.
pub proof fn lemma_record_type_code_roundtrip(v: u16)
    ensures
        spec_record_type_code(spec_record_type_from_u16(v)) == v,
        record_type_canonical(spec_record_type_from_u16(v)),
{
}
/// DNS class (RFC 1035 section 3.2.4).
#[derive(Debug, Clone, Copy, PartialEq, Eq, Structural, Hash)]
pub enum DNSClass {
    /// Internet, code 1.
    IN,
    /// Chaos, code 3.
    CH,
    /// Hesiod, code 4.
    HS,
    /// QCLASS NONE, code 254.
    NONE,
    /// QCLASS ANY, code 255.
    ANY,
    /// The CLASS field of an OPT pseudo-record: the sender's UDP payload size.
    OPT(u16),
    /// Any other code.
    Unknown(u16),
}

/// The class that a wire code denotes (outside OPT records).
pub open spec fn spec_dns_class_from_u16(v: u16) -> DNSClass {
    match v {
        1 => DNSClass::IN,
        3 => DNSClass::CH,
        4 => DNSClass::HS,
        254 => DNSClass::NONE,
        255 => DNSClass::ANY,
        _ => DNSClass::Unknown(v),
    }
}

/// The wire code of a class.
pub open spec fn spec_dns_class_code(c: DNSClass) -> u16 {
    match c {
        DNSClass::IN => 1,
        DNSClass::CH => 3,
        DNSClass::HS => 4,
        DNSClass::NONE => 254,
        DNSClass::ANY => 255,
        DNSClass::OPT(v) => v,
        DNSClass::Unknown(v) => v,
    }
}

/// The presentation mnemonic of a class.
pub open spec fn spec_dns_class_mnemonic(c: DNSClass) -> Seq<char> {
    match c {
        DNSClass::IN => "IN"@,
        DNSClass::CH => "CH"@,
        DNSClass::HS => "HS"@,
        DNSClass::NONE => "NONE"@,
        DNSClass::ANY => "ANY"@,
        DNSClass::OPT(_) => "OPT"@,
        DNSClass::Unknown(_) => "Unknown"@,
    }
}

impl DNSClass {
    /// Decode a wire code.
    pub fn from_u16(v: u16) -> (c: DNSClass)
        ensures
            c == spec_dns_class_from_u16(v),
    {
        match v {
            1 => DNSClass::IN,
            3 => DNSClass::CH,
            4 => DNSClass::HS,
            254 => DNSClass::NONE,
            255 => DNSClass::ANY,
            _ => DNSClass::Unknown(v),
        }
    }

    /// Encode as a wire code.
    pub fn to_u16(self) -> (v: u16)
        ensures
            v == spec_dns_class_code(self),
    {
        match self {
            DNSClass::IN => 1,
            DNSClass::CH => 3,
            DNSClass::HS => 4,
            DNSClass::NONE => 254,
            DNSClass::ANY => 255,
            DNSClass::OPT(v) => v,
            DNSClass::Unknown(v) => v,
        }
    }

    /// The presentation mnemonic.
    pub fn mnemonic(self) -> (s: &'static str)
        ensures
            s@ == spec_dns_class_mnemonic(self),
    {
        proof {
            reveal_strlit("IN");
            reveal_strlit("CH");
            reveal_strlit("HS");
            reveal_strlit("NONE");
            reveal_strlit("ANY");
            reveal_strlit("OPT");
            reveal_strlit("Unknown");
        }
        match self {
            DNSClass::IN => "IN",
            DNSClass::CH => "CH",
            DNSClass::HS => "HS",
            DNSClass::NONE => "NONE",
            DNSClass::ANY => "ANY",
            DNSClass::OPT(_) => "OPT",
            DNSClass::Unknown(_) => "Unknown",
        }
    }
}

impl From<u16> for DNSClass {
    fn from(v: u16) -> (c: DNSClass) {
        DNSClass::from_u16(v)
    }
}

impl vstd::std_specs::convert::FromSpecImpl<u16> for DNSClass {
    open spec fn obeys_from_spec() -> bool {
        true
    }

    open spec fn from_spec(v: u16) -> DNSClass {
        spec_dns_class_from_u16(v)
    }
}

impl From<DNSClass> for u16 {
    fn from(c: DNSClass) -> (v: u16) {
        c.to_u16()
    }
}

impl vstd::std_specs::convert::FromSpecImpl<DNSClass> for u16 {
    open spec fn obeys_from_spec() -> bool {
        true
    }

    open spec fn from_spec(c: DNSClass) -> u16 {
        spec_dns_class_code(c)
    }
}

/// Query/response bit of the header.
#[derive(Debug, Clone, Copy, PartialEq, Eq, Structural, Hash)]
pub enum MessageType {
    /// QR = 0.
    Query,
    /// QR = 1.
    Response,
}

/// Header OPCODE (RFC 1035, RFC 1996, RFC 2136).
#[derive(Debug, Clone, Copy, PartialEq, Eq, Structural, Hash)]
pub enum Opcode {
    /// Standard query, 0.
    Query,
    /// Server status request, 2.
    Status,
    /// Zone change notification, 4.
    Notify,
    /// Dynamic update, 5.
    Update,
    /// Any other four-bit value.
    Unknown(u8),
}

/// The opcode that a header value denotes.
pub open spec fn spec_opcode_from_u8(v: u8) -> Opcode {
    match v {
        0 => Opcode::Query,
        2 => Opcode::Status,
        4 => Opcode::Notify,
        5 => Opcode::Update,
        _ => Opcode::Unknown(v),
    }
}

/// The header value of an opcode.
pub open spec fn spec_opcode_code(o: Opcode) -> u8 {
    match o {
        Opcode::Query => 0,
        Opcode::Status => 2,
        Opcode::Notify => 4,
        Opcode::Update => 5,
        Opcode::Unknown(v) => v,
    }
}

impl Opcode {
    /// Decode a header opcode value.
    pub fn from_u8(v: u8) -> (o: Opcode)
        ensures
            o == spec_opcode_from_u8(v),
    {
        match v {
            0 => Opcode::Query,
            2 => Opcode::Status,
            4 => Opcode::Notify,
            5 => Opcode::Update,
            _ => Opcode::Unknown(v),
        }
    }

    /// Encode as a header opcode value.
    pub fn to_u8(self) -> (v: u8)
        ensures
            v == spec_opcode_code(self),
    {
        match self {
            Opcode::Query => 0,
            Opcode::Status => 2,
            Opcode::Notify => 4,
            Opcode::Update => 5,
            Opcode::Unknown(v) => v,
        }
    }
}

impl From<u8> for Opcode {
    fn from(v: u8) -> (o: Opcode) {
        Opcode::from_u8(v)
    }
}

impl vstd::std_specs::convert::FromSpecImpl<u8> for Opcode {
    open spec fn obeys_from_spec() -> bool {
        true
    }

    open spec fn from_spec(v: u8) -> Opcode {
        spec_opcode_from_u8(v)
    }
}

/// Response code (RFC 1035 section 4.1.1, RFC 6891 for BADVERS).
#[derive(Debug, Clone, Copy, PartialEq, Eq, Structural, Hash)]
pub enum Rcode {
    /// 0
    NoError,
    /// 1
    FormErr,
    /// 2
    ServFail,
    /// 3
    NXDomain,
    /// 4
    NotImp,
    /// 5
    Refused,
    /// 6
    YXDomain,
    /// 7
    YXRRSet,
    /// 8
    NXRRSet,
    /// 9
    NotAuth,
    /// 10
    NotZone,
    /// 16
    BADVERS,
    /// Any other value.
    Unknown(u16),
}

/// The response code that a value denotes.
pub open spec fn spec_rcode_from_u16(v: u16) -> Rcode {
    match v {
        0 => Rcode::NoError,
        1 => Rcode::FormErr,
        2 => Rcode::ServFail,
        3 => Rcode::NXDomain,
        4 => Rcode::NotImp,
        5 => Rcode::Refused,
        6 => Rcode::YXDomain,
        7 => Rcode::YXRRSet,
        8 => Rcode::NXRRSet,
        9 => Rcode::NotAuth,
        10 => Rcode::NotZone,
        16 => Rcode::BADVERS,
        _ => Rcode::Unknown(v),
    }
}

/// The value of a response code.
pub open spec fn spec_rcode_code(r: Rcode) -> u16 {
    match r {
        Rcode::NoError => 0,
        Rcode::FormErr => 1,
        Rcode::ServFail => 2,
        Rcode::NXDomain => 3,
        Rcode::NotImp => 4,
        Rcode::Refused => 5,
        Rcode::YXDomain => 6,
        Rcode::YXRRSet => 7,
        Rcode::NXRRSet => 8,
        Rcode::NotAuth => 9,
        Rcode::NotZone => 10,
        Rcode::BADVERS => 16,
        Rcode::Unknown(v) => v,
    }
}

impl Rcode {
    /// Decode a response code value.
    pub fn from_u16(v: u16) -> (r: Rcode)
        ensures
            r == spec_rcode_from_u16(v),
    {
        match v {
            0 => Rcode::NoError,
            1 => Rcode::FormErr,
            2 => Rcode::ServFail,
            3 => Rcode::NXDomain,
            4 => Rcode::NotImp,
            5 => Rcode::Refused,
            6 => Rcode::YXDomain,
            7 => Rcode::YXRRSet,
            8 => Rcode::NXRRSet,
            9 => Rcode::NotAuth,
            10 => Rcode::NotZone,
            16 => Rcode::BADVERS,
            _ => Rcode::Unknown(v),
        }
    }

    /// Encode as a value.
    pub fn to_u16(self) -> (v: u16)
        ensures
            v == spec_rcode_code(self),
    {
        match self {
            Rcode::NoError => 0,
            Rcode::FormErr => 1,
            Rcode::ServFail => 2,
            Rcode::NXDomain => 3,
            Rcode::NotImp => 4,
            Rcode::Refused => 5,
            Rcode::YXDomain => 6,
            Rcode::YXRRSet => 7,
            Rcode::NXRRSet => 8,
            Rcode::NotAuth => 9,
            Rcode::NotZone => 10,
            Rcode::BADVERS => 16,
            Rcode::Unknown(v) => v,
        }
    }
}

} // verus!
