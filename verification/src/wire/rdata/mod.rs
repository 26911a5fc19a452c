//! RDATA wire encoding and decoding, shared field helpers and the per-type
//! dispatch.

use vstd::prelude::*;
use crate::error::ProtoError;
use crate::name::{Name, spec_parse_name, name_wire_ok, lemma_parse_plain_name};
use crate::wire::{spec_u16_at, read_u16_be, copy_range, push_bytes};

pub mod basic;
pub mod dnssec;
pub mod legacy;
pub mod service;
pub mod opt_law;

verus! {

use crate::wire::rdata::basic::{encode_a, encode_aaaa, encode_avc, encode_caa, encode_cname, encode_doa, encode_mx, encode_naptr, encode_ns, encode_opt, encode_ptr, encode_resinfo, encode_soa, encode_spf, encode_srv, encode_txt, lemma_a_roundtrip, lemma_aaaa_roundtrip, lemma_caa_roundtrip, lemma_cname_roundtrip, lemma_doa_roundtrip, lemma_mx_roundtrip, lemma_naptr_roundtrip, lemma_ns_roundtrip, lemma_ptr_roundtrip, lemma_soa_roundtrip, lemma_srv_roundtrip, lemma_txt_roundtrip, parse_a, parse_aaaa, parse_avc, parse_caa, parse_cname, parse_doa, parse_mx, parse_naptr, parse_ns, parse_opt, parse_ptr, parse_resinfo, parse_soa, parse_spf, parse_srv, parse_txt, spec_encode_a, spec_encode_aaaa, spec_encode_caa, spec_encode_cname, spec_encode_doa, spec_encode_mx, spec_encode_naptr, spec_encode_ns, spec_encode_options, spec_naptr_written, spec_options_written, spec_encode_ptr, spec_encode_soa, spec_encode_srv, spec_parse_a, spec_parse_aaaa, spec_parse_caa, spec_parse_cname, spec_parse_doa, spec_parse_mx, spec_parse_naptr, spec_parse_ns, spec_parse_opt, spec_parse_ptr, spec_parse_soa, spec_parse_srv, spec_parse_txt, spec_txt_valid, spec_valid_a, spec_valid_aaaa, spec_valid_caa, spec_valid_cname, spec_valid_doa, spec_valid_mx, spec_valid_naptr, spec_valid_ns, spec_valid_ptr, spec_valid_soa, spec_valid_srv};
use crate::wire::rdata::dnssec::{encode_cdnskey, encode_cds, encode_cert, encode_csync, encode_dhcid, encode_dlv, encode_dnskey, encode_ds, encode_hip, encode_key, encode_ninfo, encode_nsec, encode_nsec3, encode_nsec3param, encode_openpgpkey, encode_rkey, encode_rrsig, encode_sig, encode_smimea, encode_sshfp, encode_ta, encode_talink, encode_tkey, encode_tlsa, encode_tsig, encode_zonemd, lemma_cdnskey_roundtrip, lemma_cds_roundtrip, lemma_cert_roundtrip, lemma_csync_roundtrip, lemma_dhcid_roundtrip, lemma_dlv_roundtrip, lemma_dnskey_roundtrip, lemma_ds_roundtrip, lemma_hip_roundtrip, lemma_key_roundtrip, lemma_ninfo_roundtrip, lemma_nsec3_roundtrip, lemma_nsec3param_roundtrip, lemma_nsec_roundtrip, lemma_openpgpkey_roundtrip, lemma_rkey_roundtrip, lemma_rrsig_roundtrip, lemma_sig_roundtrip, lemma_smimea_roundtrip, lemma_sshfp_roundtrip, lemma_ta_roundtrip, lemma_talink_roundtrip, lemma_tkey_roundtrip, lemma_tlsa_roundtrip, lemma_tsig_roundtrip, lemma_zonemd_roundtrip, parse_cdnskey, parse_cds, parse_cert, parse_csync, parse_dhcid, parse_dlv, parse_dnskey, parse_ds, parse_hip, parse_key, parse_ninfo, parse_nsec, parse_nsec3, parse_nsec3param, parse_openpgpkey, parse_rkey, parse_rrsig, parse_sig, parse_smimea, parse_sshfp, parse_ta, parse_talink, parse_tkey, parse_tlsa, parse_tsig, parse_zonemd, spec_encode_cdnskey, spec_encode_cds, spec_encode_cert, spec_encode_csync, spec_encode_dhcid, spec_encode_dlv, spec_encode_dnskey, spec_encode_ds, spec_encode_hip, spec_encode_key, spec_encode_ninfo, spec_encode_nsec, spec_encode_nsec3, spec_encode_nsec3param, spec_encode_openpgpkey, spec_encode_rkey, spec_encode_rrsig, spec_encode_sig, spec_encode_smimea, spec_encode_sshfp, spec_encode_ta, spec_encode_talink, spec_encode_tkey, spec_encode_tlsa, spec_encode_tsig, spec_encode_zonemd, spec_parse_cdnskey, spec_parse_cds, spec_parse_cert, spec_parse_csync, spec_parse_dhcid, spec_parse_dlv, spec_parse_dnskey, spec_parse_ds, spec_parse_hip, spec_parse_key, spec_parse_ninfo, spec_parse_nsec, spec_parse_nsec3, spec_parse_nsec3param, spec_parse_openpgpkey, spec_parse_rkey, spec_parse_rrsig, spec_parse_sig, spec_parse_smimea, spec_parse_sshfp, spec_parse_ta, spec_parse_talink, spec_parse_tkey, spec_parse_tlsa, spec_parse_tsig, spec_parse_zonemd, spec_valid_cdnskey, spec_valid_cds, spec_valid_cert, spec_valid_csync, spec_valid_dhcid, spec_valid_dlv, spec_valid_dnskey, spec_valid_ds, spec_valid_hip, spec_valid_key, spec_valid_ninfo, spec_valid_nsec, spec_valid_nsec3, spec_valid_nsec3param, spec_valid_openpgpkey, spec_valid_rkey, spec_valid_rrsig, spec_valid_sig, spec_valid_smimea, spec_valid_sshfp, spec_valid_ta, spec_valid_talink, spec_valid_tkey, spec_valid_tlsa, spec_valid_tsig, spec_valid_zonemd};
use crate::wire::rdata::legacy::{encode_a6, encode_afsdb, encode_aname, encode_any, encode_apl, encode_atma, encode_axfr, encode_dname, encode_eid, encode_gid, encode_gpos, encode_hinfo, encode_isdn, encode_ixfr, encode_loc, encode_maila, encode_mailb, encode_mb, encode_md, encode_mf, encode_mg, encode_minfo, encode_mr, encode_nimloc, encode_nsap, encode_nsapptr, encode_null, encode_nxt, encode_px, encode_rp, encode_rt, encode_sink, encode_uid, encode_uinfo, encode_unspec, encode_wks, encode_x25, lemma_a6_roundtrip, lemma_afsdb_roundtrip, lemma_aname_roundtrip, lemma_any_roundtrip, lemma_apl_roundtrip, lemma_atma_roundtrip, lemma_axfr_roundtrip, lemma_dname_roundtrip, lemma_eid_roundtrip, lemma_gid_roundtrip, lemma_gpos_roundtrip, lemma_hinfo_roundtrip, lemma_isdn_roundtrip, lemma_ixfr_roundtrip, lemma_loc_roundtrip, lemma_maila_roundtrip, lemma_mailb_roundtrip, lemma_mb_roundtrip, lemma_md_roundtrip, lemma_mf_roundtrip, lemma_mg_roundtrip, lemma_minfo_roundtrip, lemma_mr_roundtrip, lemma_nimloc_roundtrip, lemma_nsap_roundtrip, lemma_nsapptr_roundtrip, lemma_null_roundtrip, lemma_nxt_roundtrip, lemma_px_roundtrip, lemma_rp_roundtrip, lemma_rt_roundtrip, lemma_sink_roundtrip, lemma_uid_roundtrip, lemma_uinfo_roundtrip, lemma_unspec_roundtrip, lemma_wks_roundtrip, lemma_x25_roundtrip, spec_apl_written, spec_gpos_written, spec_hinfo_written, spec_isdn_written, parse_a6, parse_afsdb, parse_aname, parse_any, parse_apl, parse_atma, parse_axfr, parse_dname, parse_eid, parse_gid, parse_gpos, parse_hinfo, parse_isdn, parse_ixfr, parse_loc, parse_maila, parse_mailb, parse_mb, parse_md, parse_mf, parse_mg, parse_minfo, parse_mr, parse_nimloc, parse_nsap, parse_nsapptr, parse_null, parse_nxt, parse_px, parse_rp, parse_rt, parse_sink, parse_uid, parse_uinfo, parse_unspec, parse_wks, parse_x25, spec_encode_a6, spec_encode_afsdb, spec_encode_aname, spec_encode_any, spec_encode_apl, spec_encode_atma, spec_encode_axfr, spec_encode_dname, spec_encode_eid, spec_encode_gid, spec_encode_gpos, spec_encode_hinfo, spec_encode_isdn, spec_encode_ixfr, spec_encode_loc, spec_encode_maila, spec_encode_mailb, spec_encode_mb, spec_encode_md, spec_encode_mf, spec_encode_mg, spec_encode_minfo, spec_encode_mr, spec_encode_nimloc, spec_encode_nsap, spec_encode_nsapptr, spec_encode_null, spec_encode_nxt, spec_encode_px, spec_encode_rp, spec_encode_rt, spec_encode_sink, spec_encode_uid, spec_encode_uinfo, spec_encode_unspec, spec_encode_wks, spec_encode_x25, spec_parse_a6, spec_parse_afsdb, spec_parse_aname, spec_parse_any, spec_parse_apl, spec_parse_atma, spec_parse_axfr, spec_parse_dname, spec_parse_eid, spec_parse_gid, spec_parse_gpos, spec_parse_hinfo, spec_parse_isdn, spec_parse_ixfr, spec_parse_loc, spec_parse_maila, spec_parse_mailb, spec_parse_mb, spec_parse_md, spec_parse_mf, spec_parse_mg, spec_parse_minfo, spec_parse_mr, spec_parse_nimloc, spec_parse_nsap, spec_parse_nsapptr, spec_parse_null, spec_parse_nxt, spec_parse_px, spec_parse_rp, spec_parse_rt, spec_parse_sink, spec_parse_uid, spec_parse_uinfo, spec_parse_unspec, spec_parse_wks, spec_parse_x25, spec_valid_a6, spec_valid_afsdb, spec_valid_aname, spec_valid_any, spec_valid_atma, spec_valid_axfr, spec_valid_dname, spec_valid_eid, spec_valid_gid, spec_valid_gpos, spec_valid_hinfo, spec_valid_ixfr, spec_valid_loc, spec_valid_maila, spec_valid_mailb, spec_valid_mb, spec_valid_md, spec_valid_mf, spec_valid_mg, spec_valid_minfo, spec_valid_mr, spec_valid_nimloc, spec_valid_nsap, spec_valid_nsapptr, spec_valid_null, spec_valid_nxt, spec_valid_px, spec_valid_rp, spec_valid_rt, spec_valid_sink, spec_valid_uid, spec_valid_uinfo, spec_valid_unspec, spec_valid_wks, spec_valid_x25};
use crate::wire::rdata::service::{encode_amtrelay, encode_eui48, encode_eui64, encode_https, encode_ipseckey, encode_kx, encode_l32, encode_l64, encode_lp, encode_nid, encode_svcb, encode_uri, lemma_amtrelay_roundtrip, lemma_eui48_roundtrip, lemma_eui64_roundtrip, lemma_ipseckey_roundtrip, lemma_kx_roundtrip, lemma_l32_roundtrip, lemma_l64_roundtrip, lemma_lp_roundtrip, lemma_nid_roundtrip, lemma_svcb_roundtrip, lemma_uri_roundtrip, parse_amtrelay, parse_eui48, parse_eui64, parse_https, parse_ipseckey, parse_kx, parse_l32, parse_l64, parse_lp, parse_nid, parse_svcb, parse_uri, spec_encode_amtrelay, spec_encode_eui48, spec_encode_eui64, spec_encode_ipseckey, spec_encode_kx, spec_encode_l32, spec_encode_l64, spec_encode_lp, spec_encode_nid, spec_encode_svcb, spec_encode_uri, spec_gateway_ok, spec_parse_amtrelay, spec_parse_eui48, spec_parse_eui64, spec_parse_ipseckey, spec_parse_kx, spec_parse_l32, spec_parse_l64, spec_parse_lp, spec_parse_nid, spec_parse_svcb, spec_parse_uri, spec_svc_canonical, spec_svc_encodable, spec_svcb_failed_write, spec_valid_eui48, spec_valid_eui64, spec_valid_kx, spec_valid_l32, spec_valid_l64, spec_valid_lp, spec_valid_nid, spec_valid_uri};
use crate::rdata::{RData, spec_rdata_rr_type};
use crate::types::RecordType;
use crate::rdata::basic::{A, AAAA, CAA, CNAME, DOA, MX, NAPTR, NS, OPT, PTR, RESINFO, SOA, SRV, TXT};
use crate::rdata::dnssec::{CDNSKEY, CDS, CERT, CSYNC, DHCID, DLV, DNSKEY, DS, HIP, KEY, NINFO, NSEC, NSEC3, NSEC3PARAM, NXT, OPENPGPKEY, RKEY, RRSIG, SIG, SMIMEA, SSHFP, TA, TALINK, TKEY, TLSA, TSIG, ZONEMD};
use crate::rdata::legacy::{A6, AFSDB, ANAME, ANY, APL, ATMA, AVC, AXFR, DNAME, EID, GID, GPOS, HINFO, ISDN, IXFR, LOC, MAILA, MAILB, MB, MD, MF, MG, MINFO, MR, NIMLOC, NSAP, NSAPPTR, NULL, PX, RP, RT, SINK, SPF, UID, UINFO, UNSPEC, WKS, X25};
use crate::rdata::service::{AMTRELAY, EUI48, EUI64, HTTPS, IPSECKEY, KX, L32, L64, LP, NID, SVCB, URI};


/// The character-string (RFC 1035 section 3.3) at `s`, inside `p[..e]`, and
/// the position just past it.
pub open spec fn spec_cstr(p: Seq<u8>, s: int, e: int) -> Option<(Seq<u8>, int)> {
    if s >= e {
        None
    } else if s + 1 + p[s] > e {
        None
    } else {
        Some((p.subrange(s + 1, s + 1 + p[s]), s + 1 + p[s]))
    }
}

/// RDATA made of one domain name that ends exactly at `e`.
pub open spec fn spec_name_rdata(p: Seq<u8>, s: int, e: int) -> Option<Seq<u8>> {
    match spec_parse_name(p, s) {
        None => None,
        Some((n, c)) => if c != e {
            None
        } else {
            Some(n)
        },
    }
}

/// RDATA made of one character-string that ends exactly at `e`.
pub open spec fn spec_single_string_rdata(p: Seq<u8>, s: int, e: int) -> Option<Seq<u8>> {
    match spec_cstr(p, s, e) {
        None => None,
        Some((t, c)) => if c != e {
            None
        } else {
            Some(t)
        },
    }
}

/// RDATA made of two character-strings that end exactly at `e`.
pub open spec fn spec_two_strings_rdata(p: Seq<u8>, s: int, e: int) -> Option<(Seq<u8>, Seq<u8>)> {
    match spec_cstr(p, s, e) {
        None => None,
        Some((a, c)) => match spec_cstr(p, c, e) {
            None => None,
            Some((b, c2)) => if c2 != e {
                None
            } else {
                Some((a, b))
            },
        },
    }
}

/// RDATA made of two domain names that end exactly at `e`.
pub open spec fn spec_two_names_rdata(p: Seq<u8>, s: int, e: int) -> Option<(Seq<u8>, Seq<u8>)> {
    match spec_parse_name(p, s) {
        None => None,
        Some((a, c)) => match spec_parse_name(p, c) {
            None => None,
            Some((b, c2)) => if c2 != e {
                None
            } else {
                Some((a, b))
            },
        },
    }
}

/// RDATA made of a 16-bit integer and a domain name that ends exactly at `e`.
pub open spec fn spec_u16_name_rdata(p: Seq<u8>, s: int, e: int) -> Option<(u16, Seq<u8>)> {
    if s + 2 > e {
        None
    } else {
        match spec_parse_name(p, s + 2) {
            None => None,
            Some((n, c)) => if c != e {
                None
            } else {
                Some((spec_u16_at(p, s), n))
            },
        }
    }
}

/// Parse a single domain name and require the RDATA to end exactly at that
/// name (RFC 1035 section 4.1.4 compression is followed).
pub fn parse_name(packet: &[u8], start: usize, end: usize, kind: &str) -> (r: Result<Name, ProtoError>)
    requires
        end <= packet@.len(),
    ensures
        match spec_name_rdata(packet@, start as int, end as int) {
            Some(n) => r matches Ok(x) && x@ == n,
            None => r is Err,
        },
{
    let (name, next) = match Name::parse(packet, start) {
        Ok(x) => x,
        Err(e) => return Err(e),
    };
    if next != end {
        return Err(ProtoError::described("invalid ", kind, " rdata length"));
    }
    Ok(name)
}

/// Parse one DNS character-string (RFC 1035 section 3.3); the returned
/// offset points just past it.
pub fn parse_character_string(packet: &[u8], start: usize, end: usize) -> (r: Result<(Vec<u8>, usize), ProtoError>)
    requires
        end <= packet@.len(),
    ensures
        match spec_cstr(packet@, start as int, end as int) {
            Some((t, c)) => r matches Ok((x, k)) && x@ == t && k == c,
            None => r is Err,
        },
{
    if start >= end {
        return Err(ProtoError::protocol("invalid character-string rdata length"));
    }
    let len = packet[start] as usize;
    let data_start = start + 1;
    if len > end - data_start {
        return Err(ProtoError::protocol("invalid character-string rdata length"));
    }
    let data_end = data_start + len;
    Ok((copy_range(packet, data_start, data_end), data_end))
}

/// Parse a single character-string and require the RDATA to end right after
/// it.
pub fn parse_single_character_string(packet: &[u8], start: usize, end: usize, kind: &str) -> (r: Result<
    Vec<u8>,
    ProtoError,
>)
    requires
        end <= packet@.len(),
    ensures
        match spec_single_string_rdata(packet@, start as int, end as int) {
            Some(t) => r matches Ok(x) && x@ == t,
            None => r is Err,
        },
{
    let (value, next) = match parse_character_string(packet, start, end) {
        Ok(x) => x,
        Err(e) => return Err(e),
    };
    if next != end {
        return Err(ProtoError::described("invalid ", kind, " rdata length"));
    }
    Ok(value)
}

/// Parse exactly two back-to-back character-strings.
pub fn parse_two_character_strings(packet: &[u8], start: usize, end: usize, kind: &str) -> (r: Result<
    (Vec<u8>, Vec<u8>),
    ProtoError,
>)
    requires
        end <= packet@.len(),
    ensures
        match spec_two_strings_rdata(packet@, start as int, end as int) {
            Some((a, b)) => r matches Ok((x, y)) && x@ == a && y@ == b,
            None => r is Err,
        },
{
    let (first, cursor) = match parse_character_string(packet, start, end) {
        Ok(x) => x,
        Err(e) => return Err(e),
    };
    let (second, next) = match parse_character_string(packet, cursor, end) {
        Ok(x) => x,
        Err(e) => return Err(e),
    };
    if next != end {
        return Err(ProtoError::described("invalid ", kind, " rdata length"));
    }
    Ok((first, second))
}

/// Parse exactly two back-to-back (possibly compressed) domain names.
pub fn parse_two_names(packet: &[u8], start: usize, end: usize, kind: &str) -> (r: Result<(Name, Name), ProtoError>)
    requires
        end <= packet@.len(),
    ensures
        match spec_two_names_rdata(packet@, start as int, end as int) {
            Some((a, b)) => r matches Ok((x, y)) && x@ == a && y@ == b,
            None => r is Err,
        },
{
    let (a, cursor) = match Name::parse(packet, start) {
        Ok(x) => x,
        Err(e) => return Err(e),
    };
    let (b, next) = match Name::parse(packet, cursor) {
        Ok(x) => x,
        Err(e) => return Err(e),
    };
    if next != end {
        return Err(ProtoError::described("invalid ", kind, " rdata length"));
    }
    Ok((a, b))
}

/// Parse a leading 16-bit integer followed by one domain name.
pub fn parse_u16_name(packet: &[u8], start: usize, end: usize, kind: &str) -> (r: Result<(u16, Name), ProtoError>)
    requires
        end <= packet@.len(),
    ensures
        match spec_u16_name_rdata(packet@, start as int, end as int) {
            Some((v, n)) => r matches Ok((x, y)) && x == v && y@ == n,
            None => r is Err,
        },
{
    if start > end || end - start < 2 {
        return Err(ProtoError::described("invalid ", kind, " rdata length"));
    }
    let value = read_u16_be(packet, start);
    let (name, next) = match Name::parse(packet, start + 2) {
        Ok(x) => x,
        Err(e) => return Err(e),
    };
    if next != end {
        return Err(ProtoError::described("invalid ", kind, " rdata length"));
    }
    Ok((value, name))
}

/// Append a character-string with its one-octet length prefix (RFC 1035
/// section 3.3); data longer than 255 bytes is refused and nothing is
/// written.
pub fn encode_character_string(out: &mut Vec<u8>, data: &[u8], kind: &str) -> (r: Result<(), ProtoError>)
    ensures
        data@.len() <= 255 ==> r is Ok && final(out)@ == old(out)@ + seq![data@.len() as u8] + data@,
        data@.len() > 255 ==> r is Err && final(out)@ == old(out)@,
{
    if data.len() > 255 {
        return Err(ProtoError::described("", kind, " exceeds 255 bytes"));
    }
    out.push(data.len() as u8);
    push_bytes(out, data);
    Ok(())
}

/// What decoding RDATA of type `rr` held in `p[s..e]` gives: the typed
/// payload its layout describes, or an error when the bytes do not follow
/// it.  OPT also takes the owner name, CLASS and TTL of its record;
/// unmodeled types keep their bytes.
pub open spec fn spec_rdata_parsed(
    p: Seq<u8>,
    owner: Seq<u8>,
    rr: RecordType,
    class: u16,
    ttl: u32,
    s: int,
    e: int,
    r: Result<RData, ProtoError>,
) -> bool {
    match rr {
        RecordType::A => match spec_parse_a(p, s, e) {
            Some(v) => r matches Ok(RData::A(x)) && x@ == v,
            None => r is Err,
        },
        RecordType::AAAA => match spec_parse_aaaa(p, s, e) {
            Some(v) => r matches Ok(RData::AAAA(x)) && x@ == v,
            None => r is Err,
        },
        RecordType::CNAME => match spec_parse_cname(p, s, e) {
            Some(v) => r matches Ok(RData::CNAME(x)) && x@ == v,
            None => r is Err,
        },
        RecordType::NS => match spec_parse_ns(p, s, e) {
            Some(v) => r matches Ok(RData::NS(x)) && x@ == v,
            None => r is Err,
        },
        RecordType::MD => match spec_parse_md(p, s, e) {
            Some(v) => r matches Ok(RData::MD(x)) && x@ == v,
            None => r is Err,
        },
        RecordType::MF => match spec_parse_mf(p, s, e) {
            Some(v) => r matches Ok(RData::MF(x)) && x@ == v,
            None => r is Err,
        },
        RecordType::PTR => match spec_parse_ptr(p, s, e) {
            Some(v) => r matches Ok(RData::PTR(x)) && x@ == v,
            None => r is Err,
        },
        RecordType::MB => match spec_parse_mb(p, s, e) {
            Some(v) => r matches Ok(RData::MB(x)) && x@ == v,
            None => r is Err,
        },
        RecordType::MG => match spec_parse_mg(p, s, e) {
            Some(v) => r matches Ok(RData::MG(x)) && x@ == v,
            None => r is Err,
        },
        RecordType::MR => match spec_parse_mr(p, s, e) {
            Some(v) => r matches Ok(RData::MR(x)) && x@ == v,
            None => r is Err,
        },
        RecordType::NULL => match spec_parse_null(p, s, e) {
            Some(v) => r matches Ok(RData::NULL(x)) && x@ == v,
            None => r is Err,
        },
        RecordType::HINFO => match spec_parse_hinfo(p, s, e) {
            Some(v) => r matches Ok(RData::HINFO(x)) && x@ == v,
            None => r is Err,
        },
        RecordType::MINFO => match spec_parse_minfo(p, s, e) {
            Some(v) => r matches Ok(RData::MINFO(x)) && x@ == v,
            None => r is Err,
        },
        RecordType::MX => match spec_parse_mx(p, s, e) {
            Some(v) => r matches Ok(RData::MX(x)) && x@ == v,
            None => r is Err,
        },
        RecordType::RP => match spec_parse_rp(p, s, e) {
            Some(v) => r matches Ok(RData::RP(x)) && x@ == v,
            None => r is Err,
        },
        RecordType::AFSDB => match spec_parse_afsdb(p, s, e) {
            Some(v) => r matches Ok(RData::AFSDB(x)) && x@ == v,
            None => r is Err,
        },
        RecordType::X25 => match spec_parse_x25(p, s, e) {
            Some(v) => r matches Ok(RData::X25(x)) && x@ == v,
            None => r is Err,
        },
        RecordType::WKS => match spec_parse_wks(p, s, e) {
            Some(v) => r matches Ok(RData::WKS(x)) && x@ == v,
            None => r is Err,
        },
        RecordType::NSAP => match spec_parse_nsap(p, s, e) {
            Some(v) => r matches Ok(RData::NSAP(x)) && x@ == v,
            None => r is Err,
        },
        RecordType::ISDN => match spec_parse_isdn(p, s, e) {
            Some(v) => r matches Ok(RData::ISDN(x)) && x@ == v,
            None => r is Err,
        },
        RecordType::RT => match spec_parse_rt(p, s, e) {
            Some(v) => r matches Ok(RData::RT(x)) && x@ == v,
            None => r is Err,
        },
        RecordType::EID => match spec_parse_eid(p, s, e) {
            Some(v) => r matches Ok(RData::EID(x)) && x@ == v,
            None => r is Err,
        },
        RecordType::NIMLOC => match spec_parse_nimloc(p, s, e) {
            Some(v) => r matches Ok(RData::NIMLOC(x)) && x@ == v,
            None => r is Err,
        },
        RecordType::NSAPPTR => match spec_parse_nsapptr(p, s, e) {
            Some(v) => r matches Ok(RData::NSAPPTR(x)) && x@ == v,
            None => r is Err,
        },
        RecordType::SIG => match spec_parse_sig(p, s, e) {
            Some(v) => r matches Ok(RData::SIG(x)) && x@ == v,
            None => r is Err,
        },
        RecordType::KEY => match spec_parse_key(p, s, e) {
            Some(v) => r matches Ok(RData::KEY(x)) && x@ == v,
            None => r is Err,
        },
        RecordType::PX => match spec_parse_px(p, s, e) {
            Some(v) => r matches Ok(RData::PX(x)) && x@ == v,
            None => r is Err,
        },
        RecordType::GPOS => match spec_parse_gpos(p, s, e) {
            Some(v) => r matches Ok(RData::GPOS(x)) && x@ == v,
            None => r is Err,
        },
        RecordType::LOC => match spec_parse_loc(p, s, e) {
            Some(v) => r matches Ok(RData::LOC(x)) && x@ == v,
            None => r is Err,
        },
        RecordType::NXT => match spec_parse_nxt(p, s, e) {
            Some(v) => r matches Ok(RData::NXT(x)) && x@ == v,
            None => r is Err,
        },
        RecordType::SRV => match spec_parse_srv(p, s, e) {
            Some(v) => r matches Ok(RData::SRV(x)) && x@ == v,
            None => r is Err,
        },
        RecordType::NAPTR => match spec_parse_naptr(p, s, e) {
            Some(v) => r matches Ok(RData::NAPTR(x)) && x@ == v,
            None => r is Err,
        },
        RecordType::KX => match spec_parse_kx(p, s, e) {
            Some(v) => r matches Ok(RData::KX(x)) && x@ == v,
            None => r is Err,
        },
        RecordType::CERT => match spec_parse_cert(p, s, e) {
            Some(v) => r matches Ok(RData::CERT(x)) && x@ == v,
            None => r is Err,
        },
        RecordType::ATMA => match spec_parse_atma(p, s, e) {
            Some(v) => r matches Ok(RData::ATMA(x)) && x@ == v,
            None => r is Err,
        },
        RecordType::A6 => match spec_parse_a6(p, s, e) {
            Some(v) => r matches Ok(RData::A6(x)) && x@ == v,
            None => r is Err,
        },
        RecordType::SINK => match spec_parse_sink(p, s, e) {
            Some(v) => r matches Ok(RData::SINK(x)) && x@ == v,
            None => r is Err,
        },
        RecordType::DNAME => match spec_parse_dname(p, s, e) {
            Some(v) => r matches Ok(RData::DNAME(x)) && x@ == v,
            None => r is Err,
        },
        RecordType::APL => match spec_parse_apl(p, s, e) {
            Some(v) => r matches Ok(RData::APL(x)) && x@ == v,
            None => r is Err,
        },
        RecordType::DS => match spec_parse_ds(p, s, e) {
            Some(v) => r matches Ok(RData::DS(x)) && x@ == v,
            None => r is Err,
        },
        RecordType::SSHFP => match spec_parse_sshfp(p, s, e) {
            Some(v) => r matches Ok(RData::SSHFP(x)) && x@ == v,
            None => r is Err,
        },
        RecordType::IPSECKEY => match spec_parse_ipseckey(p, s, e) {
            Some(v) => r matches Ok(RData::IPSECKEY(x)) && x@ == v,
            None => r is Err,
        },
        RecordType::RRSIG => match spec_parse_rrsig(p, s, e) {
            Some(v) => r matches Ok(RData::RRSIG(x)) && x@ == v,
            None => r is Err,
        },
        RecordType::NSEC => match spec_parse_nsec(p, s, e) {
            Some(v) => r matches Ok(RData::NSEC(x)) && x@ == v,
            None => r is Err,
        },
        RecordType::DNSKEY => match spec_parse_dnskey(p, s, e) {
            Some(v) => r matches Ok(RData::DNSKEY(x)) && x@ == v,
            None => r is Err,
        },
        RecordType::DHCID => match spec_parse_dhcid(p, s, e) {
            Some(v) => r matches Ok(RData::DHCID(x)) && x@ == v,
            None => r is Err,
        },
        RecordType::NSEC3 => match spec_parse_nsec3(p, s, e) {
            Some(v) => r matches Ok(RData::NSEC3(x)) && x@ == v,
            None => r is Err,
        },
        RecordType::NSEC3PARAM => match spec_parse_nsec3param(p, s, e) {
            Some(v) => r matches Ok(RData::NSEC3PARAM(x)) && x@ == v,
            None => r is Err,
        },
        RecordType::TLSA => match spec_parse_tlsa(p, s, e) {
            Some(v) => r matches Ok(RData::TLSA(x)) && x@ == v,
            None => r is Err,
        },
        RecordType::SMIMEA => match spec_parse_smimea(p, s, e) {
            Some(v) => r matches Ok(RData::SMIMEA(x)) && x@ == v,
            None => r is Err,
        },
        RecordType::HIP => match spec_parse_hip(p, s, e) {
            Some(v) => r matches Ok(RData::HIP(x)) && x@ == v,
            None => r is Err,
        },
        RecordType::NINFO => match spec_parse_ninfo(p, s, e) {
            Some(v) => r matches Ok(RData::NINFO(x)) && x@ == v,
            None => r is Err,
        },
        RecordType::RKEY => match spec_parse_rkey(p, s, e) {
            Some(v) => r matches Ok(RData::RKEY(x)) && x@ == v,
            None => r is Err,
        },
        RecordType::TALINK => match spec_parse_talink(p, s, e) {
            Some(v) => r matches Ok(RData::TALINK(x)) && x@ == v,
            None => r is Err,
        },
        RecordType::CDS => match spec_parse_cds(p, s, e) {
            Some(v) => r matches Ok(RData::CDS(x)) && x@ == v,
            None => r is Err,
        },
        RecordType::CDNSKEY => match spec_parse_cdnskey(p, s, e) {
            Some(v) => r matches Ok(RData::CDNSKEY(x)) && x@ == v,
            None => r is Err,
        },
        RecordType::OPENPGPKEY => match spec_parse_openpgpkey(p, s, e) {
            Some(v) => r matches Ok(RData::OPENPGPKEY(x)) && x@ == v,
            None => r is Err,
        },
        RecordType::CSYNC => match spec_parse_csync(p, s, e) {
            Some(v) => r matches Ok(RData::CSYNC(x)) && x@ == v,
            None => r is Err,
        },
        RecordType::ZONEMD => match spec_parse_zonemd(p, s, e) {
            Some(v) => r matches Ok(RData::ZONEMD(x)) && x@ == v,
            None => r is Err,
        },
        RecordType::SVCB => match spec_parse_svcb(p, s, e) {
            Some(v) => r matches Ok(RData::SVCB(x)) && x@ == v,
            None => r is Err,
        },
        RecordType::HTTPS => match spec_parse_svcb(p, s, e) {
            Some(v) => r matches Ok(RData::HTTPS(x)) && x@ == v,
            None => r is Err,
        },
        RecordType::SPF => match spec_parse_txt(p, s, e) {
            Some(v) => r matches Ok(RData::SPF(x)) && x@ == v,
            None => r is Err,
        },
        RecordType::UINFO => match spec_parse_uinfo(p, s, e) {
            Some(v) => r matches Ok(RData::UINFO(x)) && x@ == v,
            None => r is Err,
        },
        RecordType::UID => match spec_parse_uid(p, s, e) {
            Some(v) => r matches Ok(RData::UID(x)) && x@ == v,
            None => r is Err,
        },
        RecordType::GID => match spec_parse_gid(p, s, e) {
            Some(v) => r matches Ok(RData::GID(x)) && x@ == v,
            None => r is Err,
        },
        RecordType::UNSPEC => match spec_parse_unspec(p, s, e) {
            Some(v) => r matches Ok(RData::UNSPEC(x)) && x@ == v,
            None => r is Err,
        },
        RecordType::NID => match spec_parse_nid(p, s, e) {
            Some(v) => r matches Ok(RData::NID(x)) && x@ == v,
            None => r is Err,
        },
        RecordType::L32 => match spec_parse_l32(p, s, e) {
            Some(v) => r matches Ok(RData::L32(x)) && x@ == v,
            None => r is Err,
        },
        RecordType::L64 => match spec_parse_l64(p, s, e) {
            Some(v) => r matches Ok(RData::L64(x)) && x@ == v,
            None => r is Err,
        },
        RecordType::LP => match spec_parse_lp(p, s, e) {
            Some(v) => r matches Ok(RData::LP(x)) && x@ == v,
            None => r is Err,
        },
        RecordType::EUI48 => match spec_parse_eui48(p, s, e) {
            Some(v) => r matches Ok(RData::EUI48(x)) && x@ == v,
            None => r is Err,
        },
        RecordType::EUI64 => match spec_parse_eui64(p, s, e) {
            Some(v) => r matches Ok(RData::EUI64(x)) && x@ == v,
            None => r is Err,
        },
        RecordType::ANAME => match spec_parse_aname(p, s, e) {
            Some(v) => r matches Ok(RData::ANAME(x)) && x@ == v,
            None => r is Err,
        },
        RecordType::URI => match spec_parse_uri(p, s, e) {
            Some(v) => r matches Ok(RData::URI(x)) && x@ == v,
            None => r is Err,
        },
        RecordType::CAA => match spec_parse_caa(p, s, e) {
            Some(v) => r matches Ok(RData::CAA(x)) && x@ == v,
            None => r is Err,
        },
        RecordType::AVC => match spec_parse_txt(p, s, e) {
            Some(v) => r matches Ok(RData::AVC(x)) && x@ == v,
            None => r is Err,
        },
        RecordType::DOA => match spec_parse_doa(p, s, e) {
            Some(v) => r matches Ok(RData::DOA(x)) && x@ == v,
            None => r is Err,
        },
        RecordType::AMTRELAY => match spec_parse_amtrelay(p, s, e) {
            Some(v) => r matches Ok(RData::AMTRELAY(x)) && x@ == v,
            None => r is Err,
        },
        RecordType::RESINFO => match spec_parse_txt(p, s, e) {
            Some(v) => r matches Ok(RData::RESINFO(x)) && x@ == v,
            None => r is Err,
        },
        RecordType::TKEY => match spec_parse_tkey(p, s, e) {
            Some(v) => r matches Ok(RData::TKEY(x)) && x@ == v,
            None => r is Err,
        },
        RecordType::TSIG => match spec_parse_tsig(p, s, e) {
            Some(v) => r matches Ok(RData::TSIG(x)) && x@ == v,
            None => r is Err,
        },
        RecordType::IXFR => match spec_parse_ixfr(p, s, e) {
            Some(v) => r matches Ok(RData::IXFR(x)) && x@ == v,
            None => r is Err,
        },
        RecordType::AXFR => match spec_parse_axfr(p, s, e) {
            Some(v) => r matches Ok(RData::AXFR(x)) && x@ == v,
            None => r is Err,
        },
        RecordType::MAILB => match spec_parse_mailb(p, s, e) {
            Some(v) => r matches Ok(RData::MAILB(x)) && x@ == v,
            None => r is Err,
        },
        RecordType::MAILA => match spec_parse_maila(p, s, e) {
            Some(v) => r matches Ok(RData::MAILA(x)) && x@ == v,
            None => r is Err,
        },
        RecordType::ANY => match spec_parse_any(p, s, e) {
            Some(v) => r matches Ok(RData::ANY(x)) && x@ == v,
            None => r is Err,
        },
        RecordType::TA => match spec_parse_ta(p, s, e) {
            Some(v) => r matches Ok(RData::TA(x)) && x@ == v,
            None => r is Err,
        },
        RecordType::DLV => match spec_parse_dlv(p, s, e) {
            Some(v) => r matches Ok(RData::DLV(x)) && x@ == v,
            None => r is Err,
        },
        RecordType::TXT => match spec_parse_txt(p, s, e) {
            Some(v) => r matches Ok(RData::TXT(x)) && x@ == v,
            None => r is Err,
        },
        RecordType::SOA => match spec_parse_soa(p, s, e) {
            Some(v) => r matches Ok(RData::SOA(x)) && x@ == v,
            None => r is Err,
        },
        RecordType::OPT => match spec_parse_opt(p, owner, class, ttl, s, e) {
            Some(v) => r matches Ok(RData::OPT(x)) && x@ == v,
            None => r is Err,
        },
        RecordType::Unknown(code) => r matches Ok(RData::Unknown { rr_type, data }) && rr_type == code && data@
            == p.subrange(s, e),
        RecordType::ZERO => r matches Ok(RData::Unknown { rr_type, data }) && rr_type == 0 && data@ == p.subrange(s, e),
    }
}

/// Decode typed RDATA according to the RR-specific wire format of its type.
pub fn parse_rdata(
    packet: &[u8],
    owner_name: &Name,
    rr_type: RecordType,
    class: u16,
    ttl: u32,
    start: usize,
    end: usize,
) -> (r: Result<RData, ProtoError>)
    requires
        start <= end <= packet@.len(),
    ensures
        spec_rdata_parsed(packet@, owner_name@, rr_type, class, ttl, start as int, end as int, r),
{
    match rr_type {
        RecordType::A => parse_a(packet, start, end),
        RecordType::AAAA => parse_aaaa(packet, start, end),
        RecordType::CNAME => parse_cname(packet, start, end),
        RecordType::NS => parse_ns(packet, start, end),
        RecordType::MD => parse_md(packet, start, end),
        RecordType::MF => parse_mf(packet, start, end),
        RecordType::PTR => parse_ptr(packet, start, end),
        RecordType::MB => parse_mb(packet, start, end),
        RecordType::MG => parse_mg(packet, start, end),
        RecordType::MR => parse_mr(packet, start, end),
        RecordType::NULL => parse_null(packet, start, end),
        RecordType::HINFO => parse_hinfo(packet, start, end),
        RecordType::MINFO => parse_minfo(packet, start, end),
        RecordType::MX => parse_mx(packet, start, end),
        RecordType::RP => parse_rp(packet, start, end),
        RecordType::AFSDB => parse_afsdb(packet, start, end),
        RecordType::X25 => parse_x25(packet, start, end),
        RecordType::WKS => parse_wks(packet, start, end),
        RecordType::NSAP => parse_nsap(packet, start, end),
        RecordType::ISDN => parse_isdn(packet, start, end),
        RecordType::RT => parse_rt(packet, start, end),
        RecordType::EID => parse_eid(packet, start, end),
        RecordType::NIMLOC => parse_nimloc(packet, start, end),
        RecordType::NSAPPTR => parse_nsapptr(packet, start, end),
        RecordType::SIG => parse_sig(packet, start, end),
        RecordType::KEY => parse_key(packet, start, end),
        RecordType::PX => parse_px(packet, start, end),
        RecordType::GPOS => parse_gpos(packet, start, end),
        RecordType::LOC => parse_loc(packet, start, end),
        RecordType::NXT => parse_nxt(packet, start, end),
        RecordType::SRV => parse_srv(packet, start, end),
        RecordType::NAPTR => parse_naptr(packet, start, end),
        RecordType::KX => parse_kx(packet, start, end),
        RecordType::CERT => parse_cert(packet, start, end),
        RecordType::ATMA => parse_atma(packet, start, end),
        RecordType::A6 => parse_a6(packet, start, end),
        RecordType::SINK => parse_sink(packet, start, end),
        RecordType::DNAME => parse_dname(packet, start, end),
        RecordType::APL => parse_apl(packet, start, end),
        RecordType::DS => parse_ds(packet, start, end),
        RecordType::SSHFP => parse_sshfp(packet, start, end),
        RecordType::IPSECKEY => parse_ipseckey(packet, start, end),
        RecordType::RRSIG => parse_rrsig(packet, start, end),
        RecordType::NSEC => parse_nsec(packet, start, end),
        RecordType::DNSKEY => parse_dnskey(packet, start, end),
        RecordType::DHCID => parse_dhcid(packet, start, end),
        RecordType::NSEC3 => parse_nsec3(packet, start, end),
        RecordType::NSEC3PARAM => parse_nsec3param(packet, start, end),
        RecordType::TLSA => parse_tlsa(packet, start, end),
        RecordType::SMIMEA => parse_smimea(packet, start, end),
        RecordType::HIP => parse_hip(packet, start, end),
        RecordType::NINFO => parse_ninfo(packet, start, end),
        RecordType::RKEY => parse_rkey(packet, start, end),
        RecordType::TALINK => parse_talink(packet, start, end),
        RecordType::CDS => parse_cds(packet, start, end),
        RecordType::CDNSKEY => parse_cdnskey(packet, start, end),
        RecordType::OPENPGPKEY => parse_openpgpkey(packet, start, end),
        RecordType::CSYNC => parse_csync(packet, start, end),
        RecordType::ZONEMD => parse_zonemd(packet, start, end),
        RecordType::SVCB => parse_svcb(packet, start, end),
        RecordType::HTTPS => parse_https(packet, start, end),
        RecordType::SPF => parse_spf(packet, start, end),
        RecordType::UINFO => parse_uinfo(packet, start, end),
        RecordType::UID => parse_uid(packet, start, end),
        RecordType::GID => parse_gid(packet, start, end),
        RecordType::UNSPEC => parse_unspec(packet, start, end),
        RecordType::NID => parse_nid(packet, start, end),
        RecordType::L32 => parse_l32(packet, start, end),
        RecordType::L64 => parse_l64(packet, start, end),
        RecordType::LP => parse_lp(packet, start, end),
        RecordType::EUI48 => parse_eui48(packet, start, end),
        RecordType::EUI64 => parse_eui64(packet, start, end),
        RecordType::ANAME => parse_aname(packet, start, end),
        RecordType::URI => parse_uri(packet, start, end),
        RecordType::CAA => parse_caa(packet, start, end),
        RecordType::AVC => parse_avc(packet, start, end),
        RecordType::DOA => parse_doa(packet, start, end),
        RecordType::AMTRELAY => parse_amtrelay(packet, start, end),
        RecordType::RESINFO => parse_resinfo(packet, start, end),
        RecordType::TKEY => parse_tkey(packet, start, end),
        RecordType::TSIG => parse_tsig(packet, start, end),
        RecordType::IXFR => parse_ixfr(packet, start, end),
        RecordType::AXFR => parse_axfr(packet, start, end),
        RecordType::MAILB => parse_mailb(packet, start, end),
        RecordType::MAILA => parse_maila(packet, start, end),
        RecordType::ANY => parse_any(packet, start, end),
        RecordType::TA => parse_ta(packet, start, end),
        RecordType::DLV => parse_dlv(packet, start, end),
        RecordType::TXT => parse_txt(packet, start, end),
        RecordType::SOA => parse_soa(packet, start, end),
        RecordType::OPT => parse_opt(packet, owner_name, class, ttl, start, end),
        RecordType::Unknown(code) => Ok(RData::Unknown { rr_type: code, data: copy_range(packet, start, end) }),
        RecordType::ZERO => Ok(RData::Unknown { rr_type: 0, data: copy_range(packet, start, end) }),
    }
}

/// Wire form of a payload, names uncompressed; `None` when a field does not
/// fit its length prefix or a constraint of its type is broken.
pub open spec fn spec_encode_rdata(d: RData) -> Option<Seq<u8>> {
    match d {
        RData::A(x) => Some(spec_encode_a(x@)),
        RData::AAAA(x) => Some(spec_encode_aaaa(x@)),
        RData::CNAME(x) => Some(spec_encode_cname(x@)),
        RData::NS(x) => Some(spec_encode_ns(x@)),
        RData::MD(x) => Some(spec_encode_md(x@)),
        RData::MF(x) => Some(spec_encode_mf(x@)),
        RData::PTR(x) => Some(spec_encode_ptr(x@)),
        RData::MB(x) => Some(spec_encode_mb(x@)),
        RData::MG(x) => Some(spec_encode_mg(x@)),
        RData::MR(x) => Some(spec_encode_mr(x@)),
        RData::NULL(x) => Some(spec_encode_null(x@)),
        RData::HINFO(x) => spec_encode_hinfo(x@),
        RData::MINFO(x) => Some(spec_encode_minfo(x@)),
        RData::MX(x) => Some(spec_encode_mx(x@)),
        RData::RP(x) => Some(spec_encode_rp(x@)),
        RData::AFSDB(x) => Some(spec_encode_afsdb(x@)),
        RData::X25(x) => spec_encode_x25(x@),
        RData::WKS(x) => Some(spec_encode_wks(x@)),
        RData::NSAP(x) => Some(spec_encode_nsap(x@)),
        RData::ISDN(x) => spec_encode_isdn(x@),
        RData::RT(x) => Some(spec_encode_rt(x@)),
        RData::EID(x) => Some(spec_encode_eid(x@)),
        RData::NIMLOC(x) => Some(spec_encode_nimloc(x@)),
        RData::NSAPPTR(x) => Some(spec_encode_nsapptr(x@)),
        RData::SIG(x) => Some(spec_encode_sig(x@)),
        RData::KEY(x) => Some(spec_encode_key(x@)),
        RData::PX(x) => Some(spec_encode_px(x@)),
        RData::GPOS(x) => spec_encode_gpos(x@),
        RData::LOC(x) => Some(spec_encode_loc(x@)),
        RData::NXT(x) => Some(spec_encode_nxt(x@)),
        RData::SRV(x) => Some(spec_encode_srv(x@)),
        RData::NAPTR(x) => spec_encode_naptr(x@),
        RData::KX(x) => Some(spec_encode_kx(x@)),
        RData::CERT(x) => Some(spec_encode_cert(x@)),
        RData::ATMA(x) => Some(spec_encode_atma(x@)),
        RData::A6(x) => Some(spec_encode_a6(x@)),
        RData::SINK(x) => Some(spec_encode_sink(x@)),
        RData::DNAME(x) => Some(spec_encode_dname(x@)),
        RData::APL(x) => spec_encode_apl(x@),
        RData::DS(x) => Some(spec_encode_ds(x@)),
        RData::SSHFP(x) => Some(spec_encode_sshfp(x@)),
        RData::IPSECKEY(x) => Some(spec_encode_ipseckey(x@)),
        RData::RRSIG(x) => Some(spec_encode_rrsig(x@)),
        RData::NSEC(x) => Some(spec_encode_nsec(x@)),
        RData::DNSKEY(x) => Some(spec_encode_dnskey(x@)),
        RData::DHCID(x) => Some(spec_encode_dhcid(x@)),
        RData::NSEC3(x) => Some(spec_encode_nsec3(x@)),
        RData::NSEC3PARAM(x) => Some(spec_encode_nsec3param(x@)),
        RData::TLSA(x) => Some(spec_encode_tlsa(x@)),
        RData::SMIMEA(x) => Some(spec_encode_smimea(x@)),
        RData::HIP(x) => Some(spec_encode_hip(x@)),
        RData::NINFO(x) => Some(spec_encode_ninfo(x@)),
        RData::RKEY(x) => Some(spec_encode_rkey(x@)),
        RData::TALINK(x) => Some(spec_encode_talink(x@)),
        RData::CDS(x) => Some(spec_encode_cds(x@)),
        RData::CDNSKEY(x) => Some(spec_encode_cdnskey(x@)),
        RData::OPENPGPKEY(x) => Some(spec_encode_openpgpkey(x@)),
        RData::CSYNC(x) => Some(spec_encode_csync(x@)),
        RData::ZONEMD(x) => Some(spec_encode_zonemd(x@)),
        RData::SVCB(x) => spec_encode_svcb(x@),
        RData::HTTPS(x) => spec_encode_svcb(x@),
        RData::SPF(x) => Some(x@),
        RData::UINFO(x) => Some(spec_encode_uinfo(x@)),
        RData::UID(x) => Some(spec_encode_uid(x@)),
        RData::GID(x) => Some(spec_encode_gid(x@)),
        RData::UNSPEC(x) => Some(spec_encode_unspec(x@)),
        RData::NID(x) => Some(spec_encode_nid(x@)),
        RData::L32(x) => Some(spec_encode_l32(x@)),
        RData::L64(x) => Some(spec_encode_l64(x@)),
        RData::LP(x) => Some(spec_encode_lp(x@)),
        RData::EUI48(x) => Some(spec_encode_eui48(x@)),
        RData::EUI64(x) => Some(spec_encode_eui64(x@)),
        RData::ANAME(x) => Some(spec_encode_aname(x@)),
        RData::URI(x) => Some(spec_encode_uri(x@)),
        RData::CAA(x) => spec_encode_caa(x@),
        RData::AVC(x) => Some(x@),
        RData::DOA(x) => Some(spec_encode_doa(x@)),
        RData::AMTRELAY(x) => Some(spec_encode_amtrelay(x@)),
        RData::RESINFO(x) => Some(x@),
        RData::TKEY(x) => Some(spec_encode_tkey(x@)),
        RData::TSIG(x) => Some(spec_encode_tsig(x@)),
        RData::IXFR(x) => Some(spec_encode_ixfr(x@)),
        RData::AXFR(x) => Some(spec_encode_axfr(x@)),
        RData::MAILB(x) => Some(spec_encode_mailb(x@)),
        RData::MAILA(x) => Some(spec_encode_maila(x@)),
        RData::ANY(x) => Some(spec_encode_any(x@)),
        RData::TA(x) => Some(spec_encode_ta(x@)),
        RData::DLV(x) => Some(spec_encode_dlv(x@)),
        RData::TXT(x) => Some(x@),
        RData::SOA(x) => Some(spec_encode_soa(x@)),
        RData::OPT(x) => spec_encode_options(x@.4),
        RData::Unknown { data, .. } => Some(data@),
    }
}

/// What a failed encoding of `d` leaves after `before`: each encoder stops
/// where it found the field it cannot write, keeping what it wrote up to
/// there.
pub open spec fn spec_rdata_failed_write(d: RData, before: Seq<u8>, after: Seq<u8>) -> bool {
    match d {
        RData::NAPTR(x) => after == before + spec_naptr_written(x@),
        RData::HINFO(x) => after == before + spec_hinfo_written(x@),
        RData::GPOS(x) => after == before + spec_gpos_written(x@),
        RData::ISDN(x) => after == before + spec_isdn_written(x@),
        RData::APL(x) => after == before + spec_apl_written(x@),
        RData::OPT(x) => after == before + spec_options_written(x@.4),
        RData::SVCB(x) => spec_svcb_failed_write(x@, before, after),
        RData::HTTPS(x) => spec_svcb_failed_write(x@, before, after),
        _ => after == before,
    }
}

/// Append the wire form of `rdata`, writing names uncompressed.  On failure
/// what was written before the offending field stays.
pub fn encode_rdata(rdata: &RData, out: &mut Vec<u8>) -> (r: Result<(), ProtoError>)
    ensures
        match spec_encode_rdata(*rdata) {
            Some(b) => r is Ok && final(out)@ == old(out)@ + b,
            None => r is Err && spec_rdata_failed_write(*rdata, old(out)@, final(out)@),
        },
{
    match rdata {
        RData::A(value) => {
            encode_a(value, out);
            Ok(())
        },
        RData::AAAA(value) => {
            encode_aaaa(value, out);
            Ok(())
        },
        RData::CNAME(value) => encode_cname(value, out),
        RData::NS(value) => encode_ns(value, out),
        RData::MD(value) => encode_md(value, out),
        RData::MF(value) => encode_mf(value, out),
        RData::PTR(value) => encode_ptr(value, out),
        RData::MB(value) => encode_mb(value, out),
        RData::MG(value) => encode_mg(value, out),
        RData::MR(value) => encode_mr(value, out),
        RData::NULL(value) => {
            encode_null(value, out);
            Ok(())
        },
        RData::HINFO(value) => encode_hinfo(value, out),
        RData::MINFO(value) => encode_minfo(value, out),
        RData::MX(value) => encode_mx(value, out),
        RData::RP(value) => encode_rp(value, out),
        RData::AFSDB(value) => encode_afsdb(value, out),
        RData::X25(value) => encode_x25(value, out),
        RData::WKS(value) => {
            encode_wks(value, out);
            Ok(())
        },
        RData::NSAP(value) => {
            encode_nsap(value, out);
            Ok(())
        },
        RData::ISDN(value) => encode_isdn(value, out),
        RData::RT(value) => encode_rt(value, out),
        RData::EID(value) => {
            encode_eid(value, out);
            Ok(())
        },
        RData::NIMLOC(value) => {
            encode_nimloc(value, out);
            Ok(())
        },
        RData::NSAPPTR(value) => encode_nsapptr(value, out),
        RData::SIG(value) => encode_sig(value, out),
        RData::KEY(value) => {
            encode_key(value, out);
            Ok(())
        },
        RData::PX(value) => encode_px(value, out),
        RData::GPOS(value) => encode_gpos(value, out),
        RData::LOC(value) => {
            encode_loc(value, out);
            Ok(())
        },
        RData::NXT(value) => encode_nxt(value, out),
        RData::SRV(value) => encode_srv(value, out),
        RData::NAPTR(value) => encode_naptr(value, out),
        RData::KX(value) => encode_kx(value, out),
        RData::CERT(value) => {
            encode_cert(value, out);
            Ok(())
        },
        RData::ATMA(value) => {
            encode_atma(value, out);
            Ok(())
        },
        RData::A6(value) => encode_a6(value, out),
        RData::SINK(value) => {
            encode_sink(value, out);
            Ok(())
        },
        RData::DNAME(value) => encode_dname(value, out),
        RData::APL(value) => encode_apl(value, out),
        RData::DS(value) => {
            encode_ds(value, out);
            Ok(())
        },
        RData::SSHFP(value) => {
            encode_sshfp(value, out);
            Ok(())
        },
        RData::IPSECKEY(value) => {
            encode_ipseckey(value, out);
            Ok(())
        },
        RData::RRSIG(value) => encode_rrsig(value, out),
        RData::NSEC(value) => encode_nsec(value, out),
        RData::DNSKEY(value) => {
            encode_dnskey(value, out);
            Ok(())
        },
        RData::DHCID(value) => {
            encode_dhcid(value, out);
            Ok(())
        },
        RData::NSEC3(value) => {
            encode_nsec3(value, out);
            Ok(())
        },
        RData::NSEC3PARAM(value) => {
            encode_nsec3param(value, out);
            Ok(())
        },
        RData::TLSA(value) => {
            encode_tlsa(value, out);
            Ok(())
        },
        RData::SMIMEA(value) => {
            encode_smimea(value, out);
            Ok(())
        },
        RData::HIP(value) => encode_hip(value, out),
        RData::NINFO(value) => {
            encode_ninfo(value, out);
            Ok(())
        },
        RData::RKEY(value) => {
            encode_rkey(value, out);
            Ok(())
        },
        RData::TALINK(value) => encode_talink(value, out),
        RData::CDS(value) => {
            encode_cds(value, out);
            Ok(())
        },
        RData::CDNSKEY(value) => {
            encode_cdnskey(value, out);
            Ok(())
        },
        RData::OPENPGPKEY(value) => {
            encode_openpgpkey(value, out);
            Ok(())
        },
        RData::CSYNC(value) => {
            encode_csync(value, out);
            Ok(())
        },
        RData::ZONEMD(value) => {
            encode_zonemd(value, out);
            Ok(())
        },
        RData::SVCB(value) => encode_svcb(value, out),
        RData::HTTPS(value) => encode_https(value, out),
        RData::SPF(value) => {
            encode_spf(value, out);
            Ok(())
        },
        RData::UINFO(value) => {
            encode_uinfo(value, out);
            Ok(())
        },
        RData::UID(value) => {
            encode_uid(value, out);
            Ok(())
        },
        RData::GID(value) => {
            encode_gid(value, out);
            Ok(())
        },
        RData::UNSPEC(value) => {
            encode_unspec(value, out);
            Ok(())
        },
        RData::NID(value) => {
            encode_nid(value, out);
            Ok(())
        },
        RData::L32(value) => {
            encode_l32(value, out);
            Ok(())
        },
        RData::L64(value) => {
            encode_l64(value, out);
            Ok(())
        },
        RData::LP(value) => encode_lp(value, out),
        RData::EUI48(value) => {
            encode_eui48(value, out);
            Ok(())
        },
        RData::EUI64(value) => {
            encode_eui64(value, out);
            Ok(())
        },
        RData::ANAME(value) => encode_aname(value, out),
        RData::URI(value) => {
            encode_uri(value, out);
            Ok(())
        },
        RData::CAA(value) => encode_caa(value, out),
        RData::AVC(value) => {
            encode_avc(value, out);
            Ok(())
        },
        RData::DOA(value) => {
            encode_doa(value, out);
            Ok(())
        },
        RData::AMTRELAY(value) => {
            encode_amtrelay(value, out);
            Ok(())
        },
        RData::RESINFO(value) => {
            encode_resinfo(value, out);
            Ok(())
        },
        RData::TKEY(value) => encode_tkey(value, out),
        RData::TSIG(value) => encode_tsig(value, out),
        RData::IXFR(value) => {
            encode_ixfr(value, out);
            Ok(())
        },
        RData::AXFR(value) => {
            encode_axfr(value, out);
            Ok(())
        },
        RData::MAILB(value) => {
            encode_mailb(value, out);
            Ok(())
        },
        RData::MAILA(value) => {
            encode_maila(value, out);
            Ok(())
        },
        RData::ANY(value) => {
            encode_any(value, out);
            Ok(())
        },
        RData::TA(value) => {
            encode_ta(value, out);
            Ok(())
        },
        RData::DLV(value) => {
            encode_dlv(value, out);
            Ok(())
        },
        RData::TXT(value) => {
            encode_txt(value, out);
            Ok(())
        },
        RData::SOA(value) => encode_soa(value, out),
        RData::OPT(value) => encode_opt(value, out),
        RData::Unknown { data, .. } => {
            push_bytes(out, data.as_slice());
            Ok(())
        },
    }
}

/// Payloads whose encoding decodes back to them: every field fits its
/// length prefix, names are well formed and layout constraints hold.
/// SVCB/HTTPS parameters are read back in canonical order and form, so only
/// payloads already in that form qualify.  OPT is left out: it takes its
/// header fields from the record around it.
pub open spec fn spec_rdata_roundtrips(d: RData) -> bool {
    match d {
        RData::A(x) => spec_valid_a(x@),
        RData::AAAA(x) => spec_valid_aaaa(x@),
        RData::CNAME(x) => spec_valid_cname(x@),
        RData::NS(x) => spec_valid_ns(x@),
        RData::MD(x) => spec_valid_md(x@),
        RData::MF(x) => spec_valid_mf(x@),
        RData::PTR(x) => spec_valid_ptr(x@),
        RData::MB(x) => spec_valid_mb(x@),
        RData::MG(x) => spec_valid_mg(x@),
        RData::MR(x) => spec_valid_mr(x@),
        RData::NULL(x) => spec_valid_null(x@),
        RData::HINFO(x) => spec_valid_hinfo(x@),
        RData::MINFO(x) => spec_valid_minfo(x@),
        RData::MX(x) => spec_valid_mx(x@),
        RData::RP(x) => spec_valid_rp(x@),
        RData::AFSDB(x) => spec_valid_afsdb(x@),
        RData::X25(x) => spec_valid_x25(x@),
        RData::WKS(x) => spec_valid_wks(x@),
        RData::NSAP(x) => spec_valid_nsap(x@),
        RData::ISDN(x) => spec_encode_isdn(x@) is Some,
        RData::RT(x) => spec_valid_rt(x@),
        RData::EID(x) => spec_valid_eid(x@),
        RData::NIMLOC(x) => spec_valid_nimloc(x@),
        RData::NSAPPTR(x) => spec_valid_nsapptr(x@),
        RData::SIG(x) => spec_valid_sig(x@),
        RData::KEY(x) => spec_valid_key(x@),
        RData::PX(x) => spec_valid_px(x@),
        RData::GPOS(x) => spec_valid_gpos(x@),
        RData::LOC(x) => spec_valid_loc(x@),
        RData::NXT(x) => spec_valid_nxt(x@),
        RData::SRV(x) => spec_valid_srv(x@),
        RData::NAPTR(x) => spec_valid_naptr(x@),
        RData::KX(x) => spec_valid_kx(x@),
        RData::CERT(x) => spec_valid_cert(x@),
        RData::ATMA(x) => spec_valid_atma(x@),
        RData::A6(x) => spec_valid_a6(x@),
        RData::SINK(x) => spec_valid_sink(x@),
        RData::DNAME(x) => spec_valid_dname(x@),
        RData::APL(x) => spec_encode_apl(x@) is Some,
        RData::DS(x) => spec_valid_ds(x@),
        RData::SSHFP(x) => spec_valid_sshfp(x@),
        RData::IPSECKEY(x) => spec_gateway_ok(x.gateway_type, x.gateway@),
        RData::RRSIG(x) => spec_valid_rrsig(x@),
        RData::NSEC(x) => spec_valid_nsec(x@),
        RData::DNSKEY(x) => spec_valid_dnskey(x@),
        RData::DHCID(x) => spec_valid_dhcid(x@),
        RData::NSEC3(x) => spec_valid_nsec3(x@),
        RData::NSEC3PARAM(x) => spec_valid_nsec3param(x@),
        RData::TLSA(x) => spec_valid_tlsa(x@),
        RData::SMIMEA(x) => spec_valid_smimea(x@),
        RData::HIP(x) => spec_valid_hip(x@),
        RData::NINFO(x) => spec_valid_ninfo(x@),
        RData::RKEY(x) => spec_valid_rkey(x@),
        RData::TALINK(x) => spec_valid_talink(x@),
        RData::CDS(x) => spec_valid_cds(x@),
        RData::CDNSKEY(x) => spec_valid_cdnskey(x@),
        RData::OPENPGPKEY(x) => spec_valid_openpgpkey(x@),
        RData::CSYNC(x) => spec_valid_csync(x@),
        RData::ZONEMD(x) => spec_valid_zonemd(x@),
        RData::SVCB(x) => name_wire_ok(x@.1) && spec_svc_encodable(x@.2) && spec_svc_canonical(x@.2) == x@.2,
        RData::HTTPS(x) => name_wire_ok(x@.1) && spec_svc_encodable(x@.2) && spec_svc_canonical(x@.2) == x@.2,
        RData::SPF(x) => spec_txt_valid(x@),
        RData::UINFO(x) => spec_valid_uinfo(x@),
        RData::UID(x) => spec_valid_uid(x@),
        RData::GID(x) => spec_valid_gid(x@),
        RData::UNSPEC(x) => spec_valid_unspec(x@),
        RData::NID(x) => spec_valid_nid(x@),
        RData::L32(x) => spec_valid_l32(x@),
        RData::L64(x) => spec_valid_l64(x@),
        RData::LP(x) => spec_valid_lp(x@),
        RData::EUI48(x) => spec_valid_eui48(x@),
        RData::EUI64(x) => spec_valid_eui64(x@),
        RData::ANAME(x) => spec_valid_aname(x@),
        RData::URI(x) => spec_valid_uri(x@),
        RData::CAA(x) => spec_valid_caa(x@),
        RData::AVC(x) => spec_txt_valid(x@),
        RData::DOA(x) => spec_valid_doa(x@),
        RData::AMTRELAY(x) => spec_gateway_ok(x.gateway_type, x.gateway@),
        RData::RESINFO(x) => spec_txt_valid(x@),
        RData::TKEY(x) => spec_valid_tkey(x@),
        RData::TSIG(x) => spec_valid_tsig(x@),
        RData::IXFR(x) => spec_valid_ixfr(x@),
        RData::AXFR(x) => spec_valid_axfr(x@),
        RData::MAILB(x) => spec_valid_mailb(x@),
        RData::MAILA(x) => spec_valid_maila(x@),
        RData::ANY(x) => spec_valid_any(x@),
        RData::TA(x) => spec_valid_ta(x@),
        RData::DLV(x) => spec_valid_dlv(x@),
        RData::TXT(x) => spec_txt_valid(x@),
        RData::SOA(x) => spec_valid_soa(x@),
        RData::OPT(x) => false,
        RData::Unknown { .. } => true,
    }
}

/// Encoding a payload and decoding the bytes as RDATA of the payload's own
/// type, with a root owner, gives the payload back.
pub proof fn lemma_rdata_roundtrip(d: RData, class: u16, ttl: u32)
    requires
        spec_rdata_roundtrips(d),
    ensures
        spec_encode_rdata(d) is Some,
        spec_rdata_parsed(
            spec_encode_rdata(d).unwrap(),
            seq![0u8],
            spec_rdata_rr_type(d),
            class,
            ttl,
            0,
            spec_encode_rdata(d).unwrap().len() as int,
            Ok(d),
        ),
{
    match d {
        RData::A(x) => lemma_rdata_roundtrip_a(x, class, ttl),
        RData::AAAA(x) => lemma_rdata_roundtrip_aaaa(x, class, ttl),
        RData::CNAME(x) => lemma_rdata_roundtrip_cname(x, class, ttl),
        RData::NS(x) => lemma_rdata_roundtrip_ns(x, class, ttl),
        RData::MD(x) => lemma_rdata_roundtrip_md(x, class, ttl),
        RData::MF(x) => lemma_rdata_roundtrip_mf(x, class, ttl),
        RData::PTR(x) => lemma_rdata_roundtrip_ptr(x, class, ttl),
        RData::MB(x) => lemma_rdata_roundtrip_mb(x, class, ttl),
        RData::MG(x) => lemma_rdata_roundtrip_mg(x, class, ttl),
        RData::MR(x) => lemma_rdata_roundtrip_mr(x, class, ttl),
        RData::NULL(x) => lemma_rdata_roundtrip_null(x, class, ttl),
        RData::HINFO(x) => lemma_rdata_roundtrip_hinfo(x, class, ttl),
        RData::MINFO(x) => lemma_rdata_roundtrip_minfo(x, class, ttl),
        RData::MX(x) => lemma_rdata_roundtrip_mx(x, class, ttl),
        RData::RP(x) => lemma_rdata_roundtrip_rp(x, class, ttl),
        RData::AFSDB(x) => lemma_rdata_roundtrip_afsdb(x, class, ttl),
        RData::X25(x) => lemma_rdata_roundtrip_x25(x, class, ttl),
        RData::WKS(x) => lemma_rdata_roundtrip_wks(x, class, ttl),
        RData::NSAP(x) => lemma_rdata_roundtrip_nsap(x, class, ttl),
        RData::ISDN(x) => lemma_rdata_roundtrip_isdn(x, class, ttl),
        RData::RT(x) => lemma_rdata_roundtrip_rt(x, class, ttl),
        RData::EID(x) => lemma_rdata_roundtrip_eid(x, class, ttl),
        RData::NIMLOC(x) => lemma_rdata_roundtrip_nimloc(x, class, ttl),
        RData::NSAPPTR(x) => lemma_rdata_roundtrip_nsapptr(x, class, ttl),
        RData::SIG(x) => lemma_rdata_roundtrip_sig(x, class, ttl),
        RData::KEY(x) => lemma_rdata_roundtrip_key(x, class, ttl),
        RData::PX(x) => lemma_rdata_roundtrip_px(x, class, ttl),
        RData::GPOS(x) => lemma_rdata_roundtrip_gpos(x, class, ttl),
        RData::LOC(x) => lemma_rdata_roundtrip_loc(x, class, ttl),
        RData::NXT(x) => lemma_rdata_roundtrip_nxt(x, class, ttl),
        RData::SRV(x) => lemma_rdata_roundtrip_srv(x, class, ttl),
        RData::NAPTR(x) => lemma_rdata_roundtrip_naptr(x, class, ttl),
        RData::KX(x) => lemma_rdata_roundtrip_kx(x, class, ttl),
        RData::CERT(x) => lemma_rdata_roundtrip_cert(x, class, ttl),
        RData::ATMA(x) => lemma_rdata_roundtrip_atma(x, class, ttl),
        RData::A6(x) => lemma_rdata_roundtrip_a6(x, class, ttl),
        RData::SINK(x) => lemma_rdata_roundtrip_sink(x, class, ttl),
        RData::DNAME(x) => lemma_rdata_roundtrip_dname(x, class, ttl),
        RData::APL(x) => lemma_rdata_roundtrip_apl(x, class, ttl),
        RData::DS(x) => lemma_rdata_roundtrip_ds(x, class, ttl),
        RData::SSHFP(x) => lemma_rdata_roundtrip_sshfp(x, class, ttl),
        RData::IPSECKEY(x) => lemma_rdata_roundtrip_ipseckey(x, class, ttl),
        RData::RRSIG(x) => lemma_rdata_roundtrip_rrsig(x, class, ttl),
        RData::NSEC(x) => lemma_rdata_roundtrip_nsec(x, class, ttl),
        RData::DNSKEY(x) => lemma_rdata_roundtrip_dnskey(x, class, ttl),
        RData::DHCID(x) => lemma_rdata_roundtrip_dhcid(x, class, ttl),
        RData::NSEC3(x) => lemma_rdata_roundtrip_nsec3(x, class, ttl),
        RData::NSEC3PARAM(x) => lemma_rdata_roundtrip_nsec3param(x, class, ttl),
        RData::TLSA(x) => lemma_rdata_roundtrip_tlsa(x, class, ttl),
        RData::SMIMEA(x) => lemma_rdata_roundtrip_smimea(x, class, ttl),
        RData::HIP(x) => lemma_rdata_roundtrip_hip(x, class, ttl),
        RData::NINFO(x) => lemma_rdata_roundtrip_ninfo(x, class, ttl),
        RData::RKEY(x) => lemma_rdata_roundtrip_rkey(x, class, ttl),
        RData::TALINK(x) => lemma_rdata_roundtrip_talink(x, class, ttl),
        RData::CDS(x) => lemma_rdata_roundtrip_cds(x, class, ttl),
        RData::CDNSKEY(x) => lemma_rdata_roundtrip_cdnskey(x, class, ttl),
        RData::OPENPGPKEY(x) => lemma_rdata_roundtrip_openpgpkey(x, class, ttl),
        RData::CSYNC(x) => lemma_rdata_roundtrip_csync(x, class, ttl),
        RData::ZONEMD(x) => lemma_rdata_roundtrip_zonemd(x, class, ttl),
        RData::SVCB(x) => lemma_svcb_roundtrip(x@),
        RData::HTTPS(x) => lemma_svcb_roundtrip(x@),
        RData::SPF(x) => lemma_rdata_roundtrip_spf(x, class, ttl),
        RData::UINFO(x) => lemma_rdata_roundtrip_uinfo(x, class, ttl),
        RData::UID(x) => lemma_rdata_roundtrip_uid(x, class, ttl),
        RData::GID(x) => lemma_rdata_roundtrip_gid(x, class, ttl),
        RData::UNSPEC(x) => lemma_rdata_roundtrip_unspec(x, class, ttl),
        RData::NID(x) => lemma_rdata_roundtrip_nid(x, class, ttl),
        RData::L32(x) => lemma_rdata_roundtrip_l32(x, class, ttl),
        RData::L64(x) => lemma_rdata_roundtrip_l64(x, class, ttl),
        RData::LP(x) => lemma_rdata_roundtrip_lp(x, class, ttl),
        RData::EUI48(x) => lemma_rdata_roundtrip_eui48(x, class, ttl),
        RData::EUI64(x) => lemma_rdata_roundtrip_eui64(x, class, ttl),
        RData::ANAME(x) => lemma_rdata_roundtrip_aname(x, class, ttl),
        RData::URI(x) => lemma_rdata_roundtrip_uri(x, class, ttl),
        RData::CAA(x) => lemma_rdata_roundtrip_caa(x, class, ttl),
        RData::AVC(x) => lemma_rdata_roundtrip_avc(x, class, ttl),
        RData::DOA(x) => lemma_rdata_roundtrip_doa(x, class, ttl),
        RData::AMTRELAY(x) => lemma_rdata_roundtrip_amtrelay(x, class, ttl),
        RData::RESINFO(x) => lemma_rdata_roundtrip_resinfo(x, class, ttl),
        RData::TKEY(x) => lemma_rdata_roundtrip_tkey(x, class, ttl),
        RData::TSIG(x) => lemma_rdata_roundtrip_tsig(x, class, ttl),
        RData::IXFR(x) => lemma_rdata_roundtrip_ixfr(x, class, ttl),
        RData::AXFR(x) => lemma_rdata_roundtrip_axfr(x, class, ttl),
        RData::MAILB(x) => lemma_rdata_roundtrip_mailb(x, class, ttl),
        RData::MAILA(x) => lemma_rdata_roundtrip_maila(x, class, ttl),
        RData::ANY(x) => lemma_rdata_roundtrip_any(x, class, ttl),
        RData::TA(x) => lemma_rdata_roundtrip_ta(x, class, ttl),
        RData::DLV(x) => lemma_rdata_roundtrip_dlv(x, class, ttl),
        RData::TXT(x) => lemma_rdata_roundtrip_txt(x, class, ttl),
        RData::SOA(x) => lemma_rdata_roundtrip_soa(x, class, ttl),
        RData::OPT(x) => {},
        RData::Unknown { data, .. } => {
            assert(data@.subrange(0, data@.len() as int) =~= data@);
        },
    }
}

proof fn lemma_rdata_roundtrip_a(x: A, class: u16, ttl: u32)
    requires
        spec_rdata_roundtrips(RData::A(x)),
    ensures
        spec_encode_rdata(RData::A(x)) is Some,
        spec_rdata_parsed(
            spec_encode_rdata(RData::A(x)).unwrap(),
            seq![0u8],
            spec_rdata_rr_type(RData::A(x)),
            class,
            ttl,
            0,
            spec_encode_rdata(RData::A(x)).unwrap().len() as int,
            Ok(RData::A(x)),
        ),
{
    lemma_a_roundtrip(x@);
}

proof fn lemma_rdata_roundtrip_aaaa(x: AAAA, class: u16, ttl: u32)
    requires
        spec_rdata_roundtrips(RData::AAAA(x)),
    ensures
        spec_encode_rdata(RData::AAAA(x)) is Some,
        spec_rdata_parsed(
            spec_encode_rdata(RData::AAAA(x)).unwrap(),
            seq![0u8],
            spec_rdata_rr_type(RData::AAAA(x)),
            class,
            ttl,
            0,
            spec_encode_rdata(RData::AAAA(x)).unwrap().len() as int,
            Ok(RData::AAAA(x)),
        ),
{
    lemma_aaaa_roundtrip(x@);
}

proof fn lemma_rdata_roundtrip_cname(x: CNAME, class: u16, ttl: u32)
    requires
        spec_rdata_roundtrips(RData::CNAME(x)),
    ensures
        spec_encode_rdata(RData::CNAME(x)) is Some,
        spec_rdata_parsed(
            spec_encode_rdata(RData::CNAME(x)).unwrap(),
            seq![0u8],
            spec_rdata_rr_type(RData::CNAME(x)),
            class,
            ttl,
            0,
            spec_encode_rdata(RData::CNAME(x)).unwrap().len() as int,
            Ok(RData::CNAME(x)),
        ),
{
    lemma_cname_roundtrip(x@);
}

proof fn lemma_rdata_roundtrip_ns(x: NS, class: u16, ttl: u32)
    requires
        spec_rdata_roundtrips(RData::NS(x)),
    ensures
        spec_encode_rdata(RData::NS(x)) is Some,
        spec_rdata_parsed(
            spec_encode_rdata(RData::NS(x)).unwrap(),
            seq![0u8],
            spec_rdata_rr_type(RData::NS(x)),
            class,
            ttl,
            0,
            spec_encode_rdata(RData::NS(x)).unwrap().len() as int,
            Ok(RData::NS(x)),
        ),
{
    lemma_ns_roundtrip(x@);
}

proof fn lemma_rdata_roundtrip_md(x: MD, class: u16, ttl: u32)
    requires
        spec_rdata_roundtrips(RData::MD(x)),
    ensures
        spec_encode_rdata(RData::MD(x)) is Some,
        spec_rdata_parsed(
            spec_encode_rdata(RData::MD(x)).unwrap(),
            seq![0u8],
            spec_rdata_rr_type(RData::MD(x)),
            class,
            ttl,
            0,
            spec_encode_rdata(RData::MD(x)).unwrap().len() as int,
            Ok(RData::MD(x)),
        ),
{
    lemma_md_roundtrip(x@);
}

proof fn lemma_rdata_roundtrip_mf(x: MF, class: u16, ttl: u32)
    requires
        spec_rdata_roundtrips(RData::MF(x)),
    ensures
        spec_encode_rdata(RData::MF(x)) is Some,
        spec_rdata_parsed(
            spec_encode_rdata(RData::MF(x)).unwrap(),
            seq![0u8],
            spec_rdata_rr_type(RData::MF(x)),
            class,
            ttl,
            0,
            spec_encode_rdata(RData::MF(x)).unwrap().len() as int,
            Ok(RData::MF(x)),
        ),
{
    lemma_mf_roundtrip(x@);
}

proof fn lemma_rdata_roundtrip_ptr(x: PTR, class: u16, ttl: u32)
    requires
        spec_rdata_roundtrips(RData::PTR(x)),
    ensures
        spec_encode_rdata(RData::PTR(x)) is Some,
        spec_rdata_parsed(
            spec_encode_rdata(RData::PTR(x)).unwrap(),
            seq![0u8],
            spec_rdata_rr_type(RData::PTR(x)),
            class,
            ttl,
            0,
            spec_encode_rdata(RData::PTR(x)).unwrap().len() as int,
            Ok(RData::PTR(x)),
        ),
{
    lemma_ptr_roundtrip(x@);
}

proof fn lemma_rdata_roundtrip_mb(x: MB, class: u16, ttl: u32)
    requires
        spec_rdata_roundtrips(RData::MB(x)),
    ensures
        spec_encode_rdata(RData::MB(x)) is Some,
        spec_rdata_parsed(
            spec_encode_rdata(RData::MB(x)).unwrap(),
            seq![0u8],
            spec_rdata_rr_type(RData::MB(x)),
            class,
            ttl,
            0,
            spec_encode_rdata(RData::MB(x)).unwrap().len() as int,
            Ok(RData::MB(x)),
        ),
{
    lemma_mb_roundtrip(x@);
}

proof fn lemma_rdata_roundtrip_mg(x: MG, class: u16, ttl: u32)
    requires
        spec_rdata_roundtrips(RData::MG(x)),
    ensures
        spec_encode_rdata(RData::MG(x)) is Some,
        spec_rdata_parsed(
            spec_encode_rdata(RData::MG(x)).unwrap(),
            seq![0u8],
            spec_rdata_rr_type(RData::MG(x)),
            class,
            ttl,
            0,
            spec_encode_rdata(RData::MG(x)).unwrap().len() as int,
            Ok(RData::MG(x)),
        ),
{
    lemma_mg_roundtrip(x@);
}

proof fn lemma_rdata_roundtrip_mr(x: MR, class: u16, ttl: u32)
    requires
        spec_rdata_roundtrips(RData::MR(x)),
    ensures
        spec_encode_rdata(RData::MR(x)) is Some,
        spec_rdata_parsed(
            spec_encode_rdata(RData::MR(x)).unwrap(),
            seq![0u8],
            spec_rdata_rr_type(RData::MR(x)),
            class,
            ttl,
            0,
            spec_encode_rdata(RData::MR(x)).unwrap().len() as int,
            Ok(RData::MR(x)),
        ),
{
    lemma_mr_roundtrip(x@);
}

proof fn lemma_rdata_roundtrip_null(x: NULL, class: u16, ttl: u32)
    requires
        spec_rdata_roundtrips(RData::NULL(x)),
    ensures
        spec_encode_rdata(RData::NULL(x)) is Some,
        spec_rdata_parsed(
            spec_encode_rdata(RData::NULL(x)).unwrap(),
            seq![0u8],
            spec_rdata_rr_type(RData::NULL(x)),
            class,
            ttl,
            0,
            spec_encode_rdata(RData::NULL(x)).unwrap().len() as int,
            Ok(RData::NULL(x)),
        ),
{
    lemma_null_roundtrip(x@);
}

proof fn lemma_rdata_roundtrip_hinfo(x: HINFO, class: u16, ttl: u32)
    requires
        spec_rdata_roundtrips(RData::HINFO(x)),
    ensures
        spec_encode_rdata(RData::HINFO(x)) is Some,
        spec_rdata_parsed(
            spec_encode_rdata(RData::HINFO(x)).unwrap(),
            seq![0u8],
            spec_rdata_rr_type(RData::HINFO(x)),
            class,
            ttl,
            0,
            spec_encode_rdata(RData::HINFO(x)).unwrap().len() as int,
            Ok(RData::HINFO(x)),
        ),
{
    lemma_hinfo_roundtrip(x@);
}

proof fn lemma_rdata_roundtrip_minfo(x: MINFO, class: u16, ttl: u32)
    requires
        spec_rdata_roundtrips(RData::MINFO(x)),
    ensures
        spec_encode_rdata(RData::MINFO(x)) is Some,
        spec_rdata_parsed(
            spec_encode_rdata(RData::MINFO(x)).unwrap(),
            seq![0u8],
            spec_rdata_rr_type(RData::MINFO(x)),
            class,
            ttl,
            0,
            spec_encode_rdata(RData::MINFO(x)).unwrap().len() as int,
            Ok(RData::MINFO(x)),
        ),
{
    lemma_minfo_roundtrip(x@);
}

proof fn lemma_rdata_roundtrip_mx(x: MX, class: u16, ttl: u32)
    requires
        spec_rdata_roundtrips(RData::MX(x)),
    ensures
        spec_encode_rdata(RData::MX(x)) is Some,
        spec_rdata_parsed(
            spec_encode_rdata(RData::MX(x)).unwrap(),
            seq![0u8],
            spec_rdata_rr_type(RData::MX(x)),
            class,
            ttl,
            0,
            spec_encode_rdata(RData::MX(x)).unwrap().len() as int,
            Ok(RData::MX(x)),
        ),
{
    lemma_mx_roundtrip(x@);
}

proof fn lemma_rdata_roundtrip_rp(x: RP, class: u16, ttl: u32)
    requires
        spec_rdata_roundtrips(RData::RP(x)),
    ensures
        spec_encode_rdata(RData::RP(x)) is Some,
        spec_rdata_parsed(
            spec_encode_rdata(RData::RP(x)).unwrap(),
            seq![0u8],
            spec_rdata_rr_type(RData::RP(x)),
            class,
            ttl,
            0,
            spec_encode_rdata(RData::RP(x)).unwrap().len() as int,
            Ok(RData::RP(x)),
        ),
{
    lemma_rp_roundtrip(x@);
}

proof fn lemma_rdata_roundtrip_afsdb(x: AFSDB, class: u16, ttl: u32)
    requires
        spec_rdata_roundtrips(RData::AFSDB(x)),
    ensures
        spec_encode_rdata(RData::AFSDB(x)) is Some,
        spec_rdata_parsed(
            spec_encode_rdata(RData::AFSDB(x)).unwrap(),
            seq![0u8],
            spec_rdata_rr_type(RData::AFSDB(x)),
            class,
            ttl,
            0,
            spec_encode_rdata(RData::AFSDB(x)).unwrap().len() as int,
            Ok(RData::AFSDB(x)),
        ),
{
    lemma_afsdb_roundtrip(x@);
}

proof fn lemma_rdata_roundtrip_x25(x: X25, class: u16, ttl: u32)
    requires
        spec_rdata_roundtrips(RData::X25(x)),
    ensures
        spec_encode_rdata(RData::X25(x)) is Some,
        spec_rdata_parsed(
            spec_encode_rdata(RData::X25(x)).unwrap(),
            seq![0u8],
            spec_rdata_rr_type(RData::X25(x)),
            class,
            ttl,
            0,
            spec_encode_rdata(RData::X25(x)).unwrap().len() as int,
            Ok(RData::X25(x)),
        ),
{
    lemma_x25_roundtrip(x@);
}

proof fn lemma_rdata_roundtrip_wks(x: WKS, class: u16, ttl: u32)
    requires
        spec_rdata_roundtrips(RData::WKS(x)),
    ensures
        spec_encode_rdata(RData::WKS(x)) is Some,
        spec_rdata_parsed(
            spec_encode_rdata(RData::WKS(x)).unwrap(),
            seq![0u8],
            spec_rdata_rr_type(RData::WKS(x)),
            class,
            ttl,
            0,
            spec_encode_rdata(RData::WKS(x)).unwrap().len() as int,
            Ok(RData::WKS(x)),
        ),
{
    lemma_wks_roundtrip(x@);
}

proof fn lemma_rdata_roundtrip_nsap(x: NSAP, class: u16, ttl: u32)
    requires
        spec_rdata_roundtrips(RData::NSAP(x)),
    ensures
        spec_encode_rdata(RData::NSAP(x)) is Some,
        spec_rdata_parsed(
            spec_encode_rdata(RData::NSAP(x)).unwrap(),
            seq![0u8],
            spec_rdata_rr_type(RData::NSAP(x)),
            class,
            ttl,
            0,
            spec_encode_rdata(RData::NSAP(x)).unwrap().len() as int,
            Ok(RData::NSAP(x)),
        ),
{
    lemma_nsap_roundtrip(x@);
}

proof fn lemma_rdata_roundtrip_isdn(x: ISDN, class: u16, ttl: u32)
    requires
        spec_rdata_roundtrips(RData::ISDN(x)),
    ensures
        spec_encode_rdata(RData::ISDN(x)) is Some,
        spec_rdata_parsed(
            spec_encode_rdata(RData::ISDN(x)).unwrap(),
            seq![0u8],
            spec_rdata_rr_type(RData::ISDN(x)),
            class,
            ttl,
            0,
            spec_encode_rdata(RData::ISDN(x)).unwrap().len() as int,
            Ok(RData::ISDN(x)),
        ),
{
    lemma_isdn_roundtrip(x@);
}

proof fn lemma_rdata_roundtrip_rt(x: RT, class: u16, ttl: u32)
    requires
        spec_rdata_roundtrips(RData::RT(x)),
    ensures
        spec_encode_rdata(RData::RT(x)) is Some,
        spec_rdata_parsed(
            spec_encode_rdata(RData::RT(x)).unwrap(),
            seq![0u8],
            spec_rdata_rr_type(RData::RT(x)),
            class,
            ttl,
            0,
            spec_encode_rdata(RData::RT(x)).unwrap().len() as int,
            Ok(RData::RT(x)),
        ),
{
    lemma_rt_roundtrip(x@);
}

proof fn lemma_rdata_roundtrip_eid(x: EID, class: u16, ttl: u32)
    requires
        spec_rdata_roundtrips(RData::EID(x)),
    ensures
        spec_encode_rdata(RData::EID(x)) is Some,
        spec_rdata_parsed(
            spec_encode_rdata(RData::EID(x)).unwrap(),
            seq![0u8],
            spec_rdata_rr_type(RData::EID(x)),
            class,
            ttl,
            0,
            spec_encode_rdata(RData::EID(x)).unwrap().len() as int,
            Ok(RData::EID(x)),
        ),
{
    lemma_eid_roundtrip(x@);
}

proof fn lemma_rdata_roundtrip_nimloc(x: NIMLOC, class: u16, ttl: u32)
    requires
        spec_rdata_roundtrips(RData::NIMLOC(x)),
    ensures
        spec_encode_rdata(RData::NIMLOC(x)) is Some,
        spec_rdata_parsed(
            spec_encode_rdata(RData::NIMLOC(x)).unwrap(),
            seq![0u8],
            spec_rdata_rr_type(RData::NIMLOC(x)),
            class,
            ttl,
            0,
            spec_encode_rdata(RData::NIMLOC(x)).unwrap().len() as int,
            Ok(RData::NIMLOC(x)),
        ),
{
    lemma_nimloc_roundtrip(x@);
}

proof fn lemma_rdata_roundtrip_nsapptr(x: NSAPPTR, class: u16, ttl: u32)
    requires
        spec_rdata_roundtrips(RData::NSAPPTR(x)),
    ensures
        spec_encode_rdata(RData::NSAPPTR(x)) is Some,
        spec_rdata_parsed(
            spec_encode_rdata(RData::NSAPPTR(x)).unwrap(),
            seq![0u8],
            spec_rdata_rr_type(RData::NSAPPTR(x)),
            class,
            ttl,
            0,
            spec_encode_rdata(RData::NSAPPTR(x)).unwrap().len() as int,
            Ok(RData::NSAPPTR(x)),
        ),
{
    lemma_nsapptr_roundtrip(x@);
}

proof fn lemma_rdata_roundtrip_sig(x: SIG, class: u16, ttl: u32)
    requires
        spec_rdata_roundtrips(RData::SIG(x)),
    ensures
        spec_encode_rdata(RData::SIG(x)) is Some,
        spec_rdata_parsed(
            spec_encode_rdata(RData::SIG(x)).unwrap(),
            seq![0u8],
            spec_rdata_rr_type(RData::SIG(x)),
            class,
            ttl,
            0,
            spec_encode_rdata(RData::SIG(x)).unwrap().len() as int,
            Ok(RData::SIG(x)),
        ),
{
    lemma_sig_roundtrip(x@);
}

proof fn lemma_rdata_roundtrip_key(x: KEY, class: u16, ttl: u32)
    requires
        spec_rdata_roundtrips(RData::KEY(x)),
    ensures
        spec_encode_rdata(RData::KEY(x)) is Some,
        spec_rdata_parsed(
            spec_encode_rdata(RData::KEY(x)).unwrap(),
            seq![0u8],
            spec_rdata_rr_type(RData::KEY(x)),
            class,
            ttl,
            0,
            spec_encode_rdata(RData::KEY(x)).unwrap().len() as int,
            Ok(RData::KEY(x)),
        ),
{
    lemma_key_roundtrip(x@);
}

proof fn lemma_rdata_roundtrip_px(x: PX, class: u16, ttl: u32)
    requires
        spec_rdata_roundtrips(RData::PX(x)),
    ensures
        spec_encode_rdata(RData::PX(x)) is Some,
        spec_rdata_parsed(
            spec_encode_rdata(RData::PX(x)).unwrap(),
            seq![0u8],
            spec_rdata_rr_type(RData::PX(x)),
            class,
            ttl,
            0,
            spec_encode_rdata(RData::PX(x)).unwrap().len() as int,
            Ok(RData::PX(x)),
        ),
{
    lemma_px_roundtrip(x@);
}

proof fn lemma_rdata_roundtrip_gpos(x: GPOS, class: u16, ttl: u32)
    requires
        spec_rdata_roundtrips(RData::GPOS(x)),
    ensures
        spec_encode_rdata(RData::GPOS(x)) is Some,
        spec_rdata_parsed(
            spec_encode_rdata(RData::GPOS(x)).unwrap(),
            seq![0u8],
            spec_rdata_rr_type(RData::GPOS(x)),
            class,
            ttl,
            0,
            spec_encode_rdata(RData::GPOS(x)).unwrap().len() as int,
            Ok(RData::GPOS(x)),
        ),
{
    lemma_gpos_roundtrip(x@);
}

proof fn lemma_rdata_roundtrip_loc(x: LOC, class: u16, ttl: u32)
    requires
        spec_rdata_roundtrips(RData::LOC(x)),
    ensures
        spec_encode_rdata(RData::LOC(x)) is Some,
        spec_rdata_parsed(
            spec_encode_rdata(RData::LOC(x)).unwrap(),
            seq![0u8],
            spec_rdata_rr_type(RData::LOC(x)),
            class,
            ttl,
            0,
            spec_encode_rdata(RData::LOC(x)).unwrap().len() as int,
            Ok(RData::LOC(x)),
        ),
{
    lemma_loc_roundtrip(x@);
}

proof fn lemma_rdata_roundtrip_nxt(x: NXT, class: u16, ttl: u32)
    requires
        spec_rdata_roundtrips(RData::NXT(x)),
    ensures
        spec_encode_rdata(RData::NXT(x)) is Some,
        spec_rdata_parsed(
            spec_encode_rdata(RData::NXT(x)).unwrap(),
            seq![0u8],
            spec_rdata_rr_type(RData::NXT(x)),
            class,
            ttl,
            0,
            spec_encode_rdata(RData::NXT(x)).unwrap().len() as int,
            Ok(RData::NXT(x)),
        ),
{
    lemma_nxt_roundtrip(x@);
}

proof fn lemma_rdata_roundtrip_srv(x: SRV, class: u16, ttl: u32)
    requires
        spec_rdata_roundtrips(RData::SRV(x)),
    ensures
        spec_encode_rdata(RData::SRV(x)) is Some,
        spec_rdata_parsed(
            spec_encode_rdata(RData::SRV(x)).unwrap(),
            seq![0u8],
            spec_rdata_rr_type(RData::SRV(x)),
            class,
            ttl,
            0,
            spec_encode_rdata(RData::SRV(x)).unwrap().len() as int,
            Ok(RData::SRV(x)),
        ),
{
    lemma_srv_roundtrip(x@);
}

proof fn lemma_rdata_roundtrip_naptr(x: NAPTR, class: u16, ttl: u32)
    requires
        spec_rdata_roundtrips(RData::NAPTR(x)),
    ensures
        spec_encode_rdata(RData::NAPTR(x)) is Some,
        spec_rdata_parsed(
            spec_encode_rdata(RData::NAPTR(x)).unwrap(),
            seq![0u8],
            spec_rdata_rr_type(RData::NAPTR(x)),
            class,
            ttl,
            0,
            spec_encode_rdata(RData::NAPTR(x)).unwrap().len() as int,
            Ok(RData::NAPTR(x)),
        ),
{
    lemma_naptr_roundtrip(x@);
}

proof fn lemma_rdata_roundtrip_kx(x: KX, class: u16, ttl: u32)
    requires
        spec_rdata_roundtrips(RData::KX(x)),
    ensures
        spec_encode_rdata(RData::KX(x)) is Some,
        spec_rdata_parsed(
            spec_encode_rdata(RData::KX(x)).unwrap(),
            seq![0u8],
            spec_rdata_rr_type(RData::KX(x)),
            class,
            ttl,
            0,
            spec_encode_rdata(RData::KX(x)).unwrap().len() as int,
            Ok(RData::KX(x)),
        ),
{
    lemma_kx_roundtrip(x@);
}

proof fn lemma_rdata_roundtrip_cert(x: CERT, class: u16, ttl: u32)
    requires
        spec_rdata_roundtrips(RData::CERT(x)),
    ensures
        spec_encode_rdata(RData::CERT(x)) is Some,
        spec_rdata_parsed(
            spec_encode_rdata(RData::CERT(x)).unwrap(),
            seq![0u8],
            spec_rdata_rr_type(RData::CERT(x)),
            class,
            ttl,
            0,
            spec_encode_rdata(RData::CERT(x)).unwrap().len() as int,
            Ok(RData::CERT(x)),
        ),
{
    lemma_cert_roundtrip(x@);
}

proof fn lemma_rdata_roundtrip_atma(x: ATMA, class: u16, ttl: u32)
    requires
        spec_rdata_roundtrips(RData::ATMA(x)),
    ensures
        spec_encode_rdata(RData::ATMA(x)) is Some,
        spec_rdata_parsed(
            spec_encode_rdata(RData::ATMA(x)).unwrap(),
            seq![0u8],
            spec_rdata_rr_type(RData::ATMA(x)),
            class,
            ttl,
            0,
            spec_encode_rdata(RData::ATMA(x)).unwrap().len() as int,
            Ok(RData::ATMA(x)),
        ),
{
    lemma_atma_roundtrip(x@);
}

proof fn lemma_rdata_roundtrip_a6(x: A6, class: u16, ttl: u32)
    requires
        spec_rdata_roundtrips(RData::A6(x)),
    ensures
        spec_encode_rdata(RData::A6(x)) is Some,
        spec_rdata_parsed(
            spec_encode_rdata(RData::A6(x)).unwrap(),
            seq![0u8],
            spec_rdata_rr_type(RData::A6(x)),
            class,
            ttl,
            0,
            spec_encode_rdata(RData::A6(x)).unwrap().len() as int,
            Ok(RData::A6(x)),
        ),
{
    lemma_a6_roundtrip(x@);
}

proof fn lemma_rdata_roundtrip_sink(x: SINK, class: u16, ttl: u32)
    requires
        spec_rdata_roundtrips(RData::SINK(x)),
    ensures
        spec_encode_rdata(RData::SINK(x)) is Some,
        spec_rdata_parsed(
            spec_encode_rdata(RData::SINK(x)).unwrap(),
            seq![0u8],
            spec_rdata_rr_type(RData::SINK(x)),
            class,
            ttl,
            0,
            spec_encode_rdata(RData::SINK(x)).unwrap().len() as int,
            Ok(RData::SINK(x)),
        ),
{
    lemma_sink_roundtrip(x@);
}

proof fn lemma_rdata_roundtrip_dname(x: DNAME, class: u16, ttl: u32)
    requires
        spec_rdata_roundtrips(RData::DNAME(x)),
    ensures
        spec_encode_rdata(RData::DNAME(x)) is Some,
        spec_rdata_parsed(
            spec_encode_rdata(RData::DNAME(x)).unwrap(),
            seq![0u8],
            spec_rdata_rr_type(RData::DNAME(x)),
            class,
            ttl,
            0,
            spec_encode_rdata(RData::DNAME(x)).unwrap().len() as int,
            Ok(RData::DNAME(x)),
        ),
{
    lemma_dname_roundtrip(x@);
}

proof fn lemma_rdata_roundtrip_apl(x: APL, class: u16, ttl: u32)
    requires
        spec_rdata_roundtrips(RData::APL(x)),
    ensures
        spec_encode_rdata(RData::APL(x)) is Some,
        spec_rdata_parsed(
            spec_encode_rdata(RData::APL(x)).unwrap(),
            seq![0u8],
            spec_rdata_rr_type(RData::APL(x)),
            class,
            ttl,
            0,
            spec_encode_rdata(RData::APL(x)).unwrap().len() as int,
            Ok(RData::APL(x)),
        ),
{
    lemma_apl_roundtrip(x@);
}

proof fn lemma_rdata_roundtrip_ds(x: DS, class: u16, ttl: u32)
    requires
        spec_rdata_roundtrips(RData::DS(x)),
    ensures
        spec_encode_rdata(RData::DS(x)) is Some,
        spec_rdata_parsed(
            spec_encode_rdata(RData::DS(x)).unwrap(),
            seq![0u8],
            spec_rdata_rr_type(RData::DS(x)),
            class,
            ttl,
            0,
            spec_encode_rdata(RData::DS(x)).unwrap().len() as int,
            Ok(RData::DS(x)),
        ),
{
    lemma_ds_roundtrip(x@);
}

proof fn lemma_rdata_roundtrip_sshfp(x: SSHFP, class: u16, ttl: u32)
    requires
        spec_rdata_roundtrips(RData::SSHFP(x)),
    ensures
        spec_encode_rdata(RData::SSHFP(x)) is Some,
        spec_rdata_parsed(
            spec_encode_rdata(RData::SSHFP(x)).unwrap(),
            seq![0u8],
            spec_rdata_rr_type(RData::SSHFP(x)),
            class,
            ttl,
            0,
            spec_encode_rdata(RData::SSHFP(x)).unwrap().len() as int,
            Ok(RData::SSHFP(x)),
        ),
{
    lemma_sshfp_roundtrip(x@);
}

proof fn lemma_rdata_roundtrip_ipseckey(x: IPSECKEY, class: u16, ttl: u32)
    requires
        spec_rdata_roundtrips(RData::IPSECKEY(x)),
    ensures
        spec_encode_rdata(RData::IPSECKEY(x)) is Some,
        spec_rdata_parsed(
            spec_encode_rdata(RData::IPSECKEY(x)).unwrap(),
            seq![0u8],
            spec_rdata_rr_type(RData::IPSECKEY(x)),
            class,
            ttl,
            0,
            spec_encode_rdata(RData::IPSECKEY(x)).unwrap().len() as int,
            Ok(RData::IPSECKEY(x)),
        ),
{
    lemma_ipseckey_roundtrip(x@);
}

proof fn lemma_rdata_roundtrip_rrsig(x: RRSIG, class: u16, ttl: u32)
    requires
        spec_rdata_roundtrips(RData::RRSIG(x)),
    ensures
        spec_encode_rdata(RData::RRSIG(x)) is Some,
        spec_rdata_parsed(
            spec_encode_rdata(RData::RRSIG(x)).unwrap(),
            seq![0u8],
            spec_rdata_rr_type(RData::RRSIG(x)),
            class,
            ttl,
            0,
            spec_encode_rdata(RData::RRSIG(x)).unwrap().len() as int,
            Ok(RData::RRSIG(x)),
        ),
{
    lemma_rrsig_roundtrip(x@);
}

proof fn lemma_rdata_roundtrip_nsec(x: NSEC, class: u16, ttl: u32)
    requires
        spec_rdata_roundtrips(RData::NSEC(x)),
    ensures
        spec_encode_rdata(RData::NSEC(x)) is Some,
        spec_rdata_parsed(
            spec_encode_rdata(RData::NSEC(x)).unwrap(),
            seq![0u8],
            spec_rdata_rr_type(RData::NSEC(x)),
            class,
            ttl,
            0,
            spec_encode_rdata(RData::NSEC(x)).unwrap().len() as int,
            Ok(RData::NSEC(x)),
        ),
{
    lemma_nsec_roundtrip(x@);
}

proof fn lemma_rdata_roundtrip_dnskey(x: DNSKEY, class: u16, ttl: u32)
    requires
        spec_rdata_roundtrips(RData::DNSKEY(x)),
    ensures
        spec_encode_rdata(RData::DNSKEY(x)) is Some,
        spec_rdata_parsed(
            spec_encode_rdata(RData::DNSKEY(x)).unwrap(),
            seq![0u8],
            spec_rdata_rr_type(RData::DNSKEY(x)),
            class,
            ttl,
            0,
            spec_encode_rdata(RData::DNSKEY(x)).unwrap().len() as int,
            Ok(RData::DNSKEY(x)),
        ),
{
    lemma_dnskey_roundtrip(x@);
}

proof fn lemma_rdata_roundtrip_dhcid(x: DHCID, class: u16, ttl: u32)
    requires
        spec_rdata_roundtrips(RData::DHCID(x)),
    ensures
        spec_encode_rdata(RData::DHCID(x)) is Some,
        spec_rdata_parsed(
            spec_encode_rdata(RData::DHCID(x)).unwrap(),
            seq![0u8],
            spec_rdata_rr_type(RData::DHCID(x)),
            class,
            ttl,
            0,
            spec_encode_rdata(RData::DHCID(x)).unwrap().len() as int,
            Ok(RData::DHCID(x)),
        ),
{
    lemma_dhcid_roundtrip(x@);
}

proof fn lemma_rdata_roundtrip_nsec3(x: NSEC3, class: u16, ttl: u32)
    requires
        spec_rdata_roundtrips(RData::NSEC3(x)),
    ensures
        spec_encode_rdata(RData::NSEC3(x)) is Some,
        spec_rdata_parsed(
            spec_encode_rdata(RData::NSEC3(x)).unwrap(),
            seq![0u8],
            spec_rdata_rr_type(RData::NSEC3(x)),
            class,
            ttl,
            0,
            spec_encode_rdata(RData::NSEC3(x)).unwrap().len() as int,
            Ok(RData::NSEC3(x)),
        ),
{
    lemma_nsec3_roundtrip(x@);
}

proof fn lemma_rdata_roundtrip_nsec3param(x: NSEC3PARAM, class: u16, ttl: u32)
    requires
        spec_rdata_roundtrips(RData::NSEC3PARAM(x)),
    ensures
        spec_encode_rdata(RData::NSEC3PARAM(x)) is Some,
        spec_rdata_parsed(
            spec_encode_rdata(RData::NSEC3PARAM(x)).unwrap(),
            seq![0u8],
            spec_rdata_rr_type(RData::NSEC3PARAM(x)),
            class,
            ttl,
            0,
            spec_encode_rdata(RData::NSEC3PARAM(x)).unwrap().len() as int,
            Ok(RData::NSEC3PARAM(x)),
        ),
{
    lemma_nsec3param_roundtrip(x@);
}

proof fn lemma_rdata_roundtrip_tlsa(x: TLSA, class: u16, ttl: u32)
    requires
        spec_rdata_roundtrips(RData::TLSA(x)),
    ensures
        spec_encode_rdata(RData::TLSA(x)) is Some,
        spec_rdata_parsed(
            spec_encode_rdata(RData::TLSA(x)).unwrap(),
            seq![0u8],
            spec_rdata_rr_type(RData::TLSA(x)),
            class,
            ttl,
            0,
            spec_encode_rdata(RData::TLSA(x)).unwrap().len() as int,
            Ok(RData::TLSA(x)),
        ),
{
    lemma_tlsa_roundtrip(x@);
}

proof fn lemma_rdata_roundtrip_smimea(x: SMIMEA, class: u16, ttl: u32)
    requires
        spec_rdata_roundtrips(RData::SMIMEA(x)),
    ensures
        spec_encode_rdata(RData::SMIMEA(x)) is Some,
        spec_rdata_parsed(
            spec_encode_rdata(RData::SMIMEA(x)).unwrap(),
            seq![0u8],
            spec_rdata_rr_type(RData::SMIMEA(x)),
            class,
            ttl,
            0,
            spec_encode_rdata(RData::SMIMEA(x)).unwrap().len() as int,
            Ok(RData::SMIMEA(x)),
        ),
{
    lemma_smimea_roundtrip(x@);
}

proof fn lemma_rdata_roundtrip_hip(x: HIP, class: u16, ttl: u32)
    requires
        spec_rdata_roundtrips(RData::HIP(x)),
    ensures
        spec_encode_rdata(RData::HIP(x)) is Some,
        spec_rdata_parsed(
            spec_encode_rdata(RData::HIP(x)).unwrap(),
            seq![0u8],
            spec_rdata_rr_type(RData::HIP(x)),
            class,
            ttl,
            0,
            spec_encode_rdata(RData::HIP(x)).unwrap().len() as int,
            Ok(RData::HIP(x)),
        ),
{
    lemma_hip_roundtrip(x@);
}

proof fn lemma_rdata_roundtrip_ninfo(x: NINFO, class: u16, ttl: u32)
    requires
        spec_rdata_roundtrips(RData::NINFO(x)),
    ensures
        spec_encode_rdata(RData::NINFO(x)) is Some,
        spec_rdata_parsed(
            spec_encode_rdata(RData::NINFO(x)).unwrap(),
            seq![0u8],
            spec_rdata_rr_type(RData::NINFO(x)),
            class,
            ttl,
            0,
            spec_encode_rdata(RData::NINFO(x)).unwrap().len() as int,
            Ok(RData::NINFO(x)),
        ),
{
    lemma_ninfo_roundtrip(x@);
}

proof fn lemma_rdata_roundtrip_rkey(x: RKEY, class: u16, ttl: u32)
    requires
        spec_rdata_roundtrips(RData::RKEY(x)),
    ensures
        spec_encode_rdata(RData::RKEY(x)) is Some,
        spec_rdata_parsed(
            spec_encode_rdata(RData::RKEY(x)).unwrap(),
            seq![0u8],
            spec_rdata_rr_type(RData::RKEY(x)),
            class,
            ttl,
            0,
            spec_encode_rdata(RData::RKEY(x)).unwrap().len() as int,
            Ok(RData::RKEY(x)),
        ),
{
    lemma_rkey_roundtrip(x@);
}

proof fn lemma_rdata_roundtrip_talink(x: TALINK, class: u16, ttl: u32)
    requires
        spec_rdata_roundtrips(RData::TALINK(x)),
    ensures
        spec_encode_rdata(RData::TALINK(x)) is Some,
        spec_rdata_parsed(
            spec_encode_rdata(RData::TALINK(x)).unwrap(),
            seq![0u8],
            spec_rdata_rr_type(RData::TALINK(x)),
            class,
            ttl,
            0,
            spec_encode_rdata(RData::TALINK(x)).unwrap().len() as int,
            Ok(RData::TALINK(x)),
        ),
{
    lemma_talink_roundtrip(x@);
}

proof fn lemma_rdata_roundtrip_cds(x: CDS, class: u16, ttl: u32)
    requires
        spec_rdata_roundtrips(RData::CDS(x)),
    ensures
        spec_encode_rdata(RData::CDS(x)) is Some,
        spec_rdata_parsed(
            spec_encode_rdata(RData::CDS(x)).unwrap(),
            seq![0u8],
            spec_rdata_rr_type(RData::CDS(x)),
            class,
            ttl,
            0,
            spec_encode_rdata(RData::CDS(x)).unwrap().len() as int,
            Ok(RData::CDS(x)),
        ),
{
    lemma_cds_roundtrip(x@);
}

proof fn lemma_rdata_roundtrip_cdnskey(x: CDNSKEY, class: u16, ttl: u32)
    requires
        spec_rdata_roundtrips(RData::CDNSKEY(x)),
    ensures
        spec_encode_rdata(RData::CDNSKEY(x)) is Some,
        spec_rdata_parsed(
            spec_encode_rdata(RData::CDNSKEY(x)).unwrap(),
            seq![0u8],
            spec_rdata_rr_type(RData::CDNSKEY(x)),
            class,
            ttl,
            0,
            spec_encode_rdata(RData::CDNSKEY(x)).unwrap().len() as int,
            Ok(RData::CDNSKEY(x)),
        ),
{
    lemma_cdnskey_roundtrip(x@);
}

proof fn lemma_rdata_roundtrip_openpgpkey(x: OPENPGPKEY, class: u16, ttl: u32)
    requires
        spec_rdata_roundtrips(RData::OPENPGPKEY(x)),
    ensures
        spec_encode_rdata(RData::OPENPGPKEY(x)) is Some,
        spec_rdata_parsed(
            spec_encode_rdata(RData::OPENPGPKEY(x)).unwrap(),
            seq![0u8],
            spec_rdata_rr_type(RData::OPENPGPKEY(x)),
            class,
            ttl,
            0,
            spec_encode_rdata(RData::OPENPGPKEY(x)).unwrap().len() as int,
            Ok(RData::OPENPGPKEY(x)),
        ),
{
    lemma_openpgpkey_roundtrip(x@);
}

proof fn lemma_rdata_roundtrip_csync(x: CSYNC, class: u16, ttl: u32)
    requires
        spec_rdata_roundtrips(RData::CSYNC(x)),
    ensures
        spec_encode_rdata(RData::CSYNC(x)) is Some,
        spec_rdata_parsed(
            spec_encode_rdata(RData::CSYNC(x)).unwrap(),
            seq![0u8],
            spec_rdata_rr_type(RData::CSYNC(x)),
            class,
            ttl,
            0,
            spec_encode_rdata(RData::CSYNC(x)).unwrap().len() as int,
            Ok(RData::CSYNC(x)),
        ),
{
    lemma_csync_roundtrip(x@);
}

proof fn lemma_rdata_roundtrip_zonemd(x: ZONEMD, class: u16, ttl: u32)
    requires
        spec_rdata_roundtrips(RData::ZONEMD(x)),
    ensures
        spec_encode_rdata(RData::ZONEMD(x)) is Some,
        spec_rdata_parsed(
            spec_encode_rdata(RData::ZONEMD(x)).unwrap(),
            seq![0u8],
            spec_rdata_rr_type(RData::ZONEMD(x)),
            class,
            ttl,
            0,
            spec_encode_rdata(RData::ZONEMD(x)).unwrap().len() as int,
            Ok(RData::ZONEMD(x)),
        ),
{
    lemma_zonemd_roundtrip(x@);
}

proof fn lemma_rdata_roundtrip_spf(x: SPF, class: u16, ttl: u32)
    requires
        spec_rdata_roundtrips(RData::SPF(x)),
    ensures
        spec_encode_rdata(RData::SPF(x)) is Some,
        spec_rdata_parsed(
            spec_encode_rdata(RData::SPF(x)).unwrap(),
            seq![0u8],
            spec_rdata_rr_type(RData::SPF(x)),
            class,
            ttl,
            0,
            spec_encode_rdata(RData::SPF(x)).unwrap().len() as int,
            Ok(RData::SPF(x)),
        ),
{
    lemma_txt_roundtrip(x@);
}

proof fn lemma_rdata_roundtrip_uinfo(x: UINFO, class: u16, ttl: u32)
    requires
        spec_rdata_roundtrips(RData::UINFO(x)),
    ensures
        spec_encode_rdata(RData::UINFO(x)) is Some,
        spec_rdata_parsed(
            spec_encode_rdata(RData::UINFO(x)).unwrap(),
            seq![0u8],
            spec_rdata_rr_type(RData::UINFO(x)),
            class,
            ttl,
            0,
            spec_encode_rdata(RData::UINFO(x)).unwrap().len() as int,
            Ok(RData::UINFO(x)),
        ),
{
    lemma_uinfo_roundtrip(x@);
}

proof fn lemma_rdata_roundtrip_uid(x: UID, class: u16, ttl: u32)
    requires
        spec_rdata_roundtrips(RData::UID(x)),
    ensures
        spec_encode_rdata(RData::UID(x)) is Some,
        spec_rdata_parsed(
            spec_encode_rdata(RData::UID(x)).unwrap(),
            seq![0u8],
            spec_rdata_rr_type(RData::UID(x)),
            class,
            ttl,
            0,
            spec_encode_rdata(RData::UID(x)).unwrap().len() as int,
            Ok(RData::UID(x)),
        ),
{
    lemma_uid_roundtrip(x@);
}

proof fn lemma_rdata_roundtrip_gid(x: GID, class: u16, ttl: u32)
    requires
        spec_rdata_roundtrips(RData::GID(x)),
    ensures
        spec_encode_rdata(RData::GID(x)) is Some,
        spec_rdata_parsed(
            spec_encode_rdata(RData::GID(x)).unwrap(),
            seq![0u8],
            spec_rdata_rr_type(RData::GID(x)),
            class,
            ttl,
            0,
            spec_encode_rdata(RData::GID(x)).unwrap().len() as int,
            Ok(RData::GID(x)),
        ),
{
    lemma_gid_roundtrip(x@);
}

proof fn lemma_rdata_roundtrip_unspec(x: UNSPEC, class: u16, ttl: u32)
    requires
        spec_rdata_roundtrips(RData::UNSPEC(x)),
    ensures
        spec_encode_rdata(RData::UNSPEC(x)) is Some,
        spec_rdata_parsed(
            spec_encode_rdata(RData::UNSPEC(x)).unwrap(),
            seq![0u8],
            spec_rdata_rr_type(RData::UNSPEC(x)),
            class,
            ttl,
            0,
            spec_encode_rdata(RData::UNSPEC(x)).unwrap().len() as int,
            Ok(RData::UNSPEC(x)),
        ),
{
    lemma_unspec_roundtrip(x@);
}

proof fn lemma_rdata_roundtrip_nid(x: NID, class: u16, ttl: u32)
    requires
        spec_rdata_roundtrips(RData::NID(x)),
    ensures
        spec_encode_rdata(RData::NID(x)) is Some,
        spec_rdata_parsed(
            spec_encode_rdata(RData::NID(x)).unwrap(),
            seq![0u8],
            spec_rdata_rr_type(RData::NID(x)),
            class,
            ttl,
            0,
            spec_encode_rdata(RData::NID(x)).unwrap().len() as int,
            Ok(RData::NID(x)),
        ),
{
    lemma_nid_roundtrip(x@);
}

proof fn lemma_rdata_roundtrip_l32(x: L32, class: u16, ttl: u32)
    requires
        spec_rdata_roundtrips(RData::L32(x)),
    ensures
        spec_encode_rdata(RData::L32(x)) is Some,
        spec_rdata_parsed(
            spec_encode_rdata(RData::L32(x)).unwrap(),
            seq![0u8],
            spec_rdata_rr_type(RData::L32(x)),
            class,
            ttl,
            0,
            spec_encode_rdata(RData::L32(x)).unwrap().len() as int,
            Ok(RData::L32(x)),
        ),
{
    lemma_l32_roundtrip(x@);
}

proof fn lemma_rdata_roundtrip_l64(x: L64, class: u16, ttl: u32)
    requires
        spec_rdata_roundtrips(RData::L64(x)),
    ensures
        spec_encode_rdata(RData::L64(x)) is Some,
        spec_rdata_parsed(
            spec_encode_rdata(RData::L64(x)).unwrap(),
            seq![0u8],
            spec_rdata_rr_type(RData::L64(x)),
            class,
            ttl,
            0,
            spec_encode_rdata(RData::L64(x)).unwrap().len() as int,
            Ok(RData::L64(x)),
        ),
{
    lemma_l64_roundtrip(x@);
}

proof fn lemma_rdata_roundtrip_lp(x: LP, class: u16, ttl: u32)
    requires
        spec_rdata_roundtrips(RData::LP(x)),
    ensures
        spec_encode_rdata(RData::LP(x)) is Some,
        spec_rdata_parsed(
            spec_encode_rdata(RData::LP(x)).unwrap(),
            seq![0u8],
            spec_rdata_rr_type(RData::LP(x)),
            class,
            ttl,
            0,
            spec_encode_rdata(RData::LP(x)).unwrap().len() as int,
            Ok(RData::LP(x)),
        ),
{
    lemma_lp_roundtrip(x@);
}

proof fn lemma_rdata_roundtrip_eui48(x: EUI48, class: u16, ttl: u32)
    requires
        spec_rdata_roundtrips(RData::EUI48(x)),
    ensures
        spec_encode_rdata(RData::EUI48(x)) is Some,
        spec_rdata_parsed(
            spec_encode_rdata(RData::EUI48(x)).unwrap(),
            seq![0u8],
            spec_rdata_rr_type(RData::EUI48(x)),
            class,
            ttl,
            0,
            spec_encode_rdata(RData::EUI48(x)).unwrap().len() as int,
            Ok(RData::EUI48(x)),
        ),
{
    lemma_eui48_roundtrip(x@);
}

proof fn lemma_rdata_roundtrip_eui64(x: EUI64, class: u16, ttl: u32)
    requires
        spec_rdata_roundtrips(RData::EUI64(x)),
    ensures
        spec_encode_rdata(RData::EUI64(x)) is Some,
        spec_rdata_parsed(
            spec_encode_rdata(RData::EUI64(x)).unwrap(),
            seq![0u8],
            spec_rdata_rr_type(RData::EUI64(x)),
            class,
            ttl,
            0,
            spec_encode_rdata(RData::EUI64(x)).unwrap().len() as int,
            Ok(RData::EUI64(x)),
        ),
{
    lemma_eui64_roundtrip(x@);
}

proof fn lemma_rdata_roundtrip_aname(x: ANAME, class: u16, ttl: u32)
    requires
        spec_rdata_roundtrips(RData::ANAME(x)),
    ensures
        spec_encode_rdata(RData::ANAME(x)) is Some,
        spec_rdata_parsed(
            spec_encode_rdata(RData::ANAME(x)).unwrap(),
            seq![0u8],
            spec_rdata_rr_type(RData::ANAME(x)),
            class,
            ttl,
            0,
            spec_encode_rdata(RData::ANAME(x)).unwrap().len() as int,
            Ok(RData::ANAME(x)),
        ),
{
    lemma_aname_roundtrip(x@);
}

proof fn lemma_rdata_roundtrip_uri(x: URI, class: u16, ttl: u32)
    requires
        spec_rdata_roundtrips(RData::URI(x)),
    ensures
        spec_encode_rdata(RData::URI(x)) is Some,
        spec_rdata_parsed(
            spec_encode_rdata(RData::URI(x)).unwrap(),
            seq![0u8],
            spec_rdata_rr_type(RData::URI(x)),
            class,
            ttl,
            0,
            spec_encode_rdata(RData::URI(x)).unwrap().len() as int,
            Ok(RData::URI(x)),
        ),
{
    lemma_uri_roundtrip(x@);
}

proof fn lemma_rdata_roundtrip_caa(x: CAA, class: u16, ttl: u32)
    requires
        spec_rdata_roundtrips(RData::CAA(x)),
    ensures
        spec_encode_rdata(RData::CAA(x)) is Some,
        spec_rdata_parsed(
            spec_encode_rdata(RData::CAA(x)).unwrap(),
            seq![0u8],
            spec_rdata_rr_type(RData::CAA(x)),
            class,
            ttl,
            0,
            spec_encode_rdata(RData::CAA(x)).unwrap().len() as int,
            Ok(RData::CAA(x)),
        ),
{
    lemma_caa_roundtrip(x@);
}

proof fn lemma_rdata_roundtrip_avc(x: AVC, class: u16, ttl: u32)
    requires
        spec_rdata_roundtrips(RData::AVC(x)),
    ensures
        spec_encode_rdata(RData::AVC(x)) is Some,
        spec_rdata_parsed(
            spec_encode_rdata(RData::AVC(x)).unwrap(),
            seq![0u8],
            spec_rdata_rr_type(RData::AVC(x)),
            class,
            ttl,
            0,
            spec_encode_rdata(RData::AVC(x)).unwrap().len() as int,
            Ok(RData::AVC(x)),
        ),
{
    lemma_txt_roundtrip(x@);
}

proof fn lemma_rdata_roundtrip_doa(x: DOA, class: u16, ttl: u32)
    requires
        spec_rdata_roundtrips(RData::DOA(x)),
    ensures
        spec_encode_rdata(RData::DOA(x)) is Some,
        spec_rdata_parsed(
            spec_encode_rdata(RData::DOA(x)).unwrap(),
            seq![0u8],
            spec_rdata_rr_type(RData::DOA(x)),
            class,
            ttl,
            0,
            spec_encode_rdata(RData::DOA(x)).unwrap().len() as int,
            Ok(RData::DOA(x)),
        ),
{
    lemma_doa_roundtrip(x@);
}

proof fn lemma_rdata_roundtrip_amtrelay(x: AMTRELAY, class: u16, ttl: u32)
    requires
        spec_rdata_roundtrips(RData::AMTRELAY(x)),
    ensures
        spec_encode_rdata(RData::AMTRELAY(x)) is Some,
        spec_rdata_parsed(
            spec_encode_rdata(RData::AMTRELAY(x)).unwrap(),
            seq![0u8],
            spec_rdata_rr_type(RData::AMTRELAY(x)),
            class,
            ttl,
            0,
            spec_encode_rdata(RData::AMTRELAY(x)).unwrap().len() as int,
            Ok(RData::AMTRELAY(x)),
        ),
{
    lemma_amtrelay_roundtrip(x@);
}

proof fn lemma_rdata_roundtrip_resinfo(x: RESINFO, class: u16, ttl: u32)
    requires
        spec_rdata_roundtrips(RData::RESINFO(x)),
    ensures
        spec_encode_rdata(RData::RESINFO(x)) is Some,
        spec_rdata_parsed(
            spec_encode_rdata(RData::RESINFO(x)).unwrap(),
            seq![0u8],
            spec_rdata_rr_type(RData::RESINFO(x)),
            class,
            ttl,
            0,
            spec_encode_rdata(RData::RESINFO(x)).unwrap().len() as int,
            Ok(RData::RESINFO(x)),
        ),
{
    lemma_txt_roundtrip(x@);
}

proof fn lemma_rdata_roundtrip_tkey(x: TKEY, class: u16, ttl: u32)
    requires
        spec_rdata_roundtrips(RData::TKEY(x)),
    ensures
        spec_encode_rdata(RData::TKEY(x)) is Some,
        spec_rdata_parsed(
            spec_encode_rdata(RData::TKEY(x)).unwrap(),
            seq![0u8],
            spec_rdata_rr_type(RData::TKEY(x)),
            class,
            ttl,
            0,
            spec_encode_rdata(RData::TKEY(x)).unwrap().len() as int,
            Ok(RData::TKEY(x)),
        ),
{
    lemma_tkey_roundtrip(x@);
}

proof fn lemma_rdata_roundtrip_tsig(x: TSIG, class: u16, ttl: u32)
    requires
        spec_rdata_roundtrips(RData::TSIG(x)),
    ensures
        spec_encode_rdata(RData::TSIG(x)) is Some,
        spec_rdata_parsed(
            spec_encode_rdata(RData::TSIG(x)).unwrap(),
            seq![0u8],
            spec_rdata_rr_type(RData::TSIG(x)),
            class,
            ttl,
            0,
            spec_encode_rdata(RData::TSIG(x)).unwrap().len() as int,
            Ok(RData::TSIG(x)),
        ),
{
    lemma_tsig_roundtrip(x@);
}

proof fn lemma_rdata_roundtrip_ixfr(x: IXFR, class: u16, ttl: u32)
    requires
        spec_rdata_roundtrips(RData::IXFR(x)),
    ensures
        spec_encode_rdata(RData::IXFR(x)) is Some,
        spec_rdata_parsed(
            spec_encode_rdata(RData::IXFR(x)).unwrap(),
            seq![0u8],
            spec_rdata_rr_type(RData::IXFR(x)),
            class,
            ttl,
            0,
            spec_encode_rdata(RData::IXFR(x)).unwrap().len() as int,
            Ok(RData::IXFR(x)),
        ),
{
    lemma_ixfr_roundtrip(x@);
}

proof fn lemma_rdata_roundtrip_axfr(x: AXFR, class: u16, ttl: u32)
    requires
        spec_rdata_roundtrips(RData::AXFR(x)),
    ensures
        spec_encode_rdata(RData::AXFR(x)) is Some,
        spec_rdata_parsed(
            spec_encode_rdata(RData::AXFR(x)).unwrap(),
            seq![0u8],
            spec_rdata_rr_type(RData::AXFR(x)),
            class,
            ttl,
            0,
            spec_encode_rdata(RData::AXFR(x)).unwrap().len() as int,
            Ok(RData::AXFR(x)),
        ),
{
    lemma_axfr_roundtrip(x@);
}

proof fn lemma_rdata_roundtrip_mailb(x: MAILB, class: u16, ttl: u32)
    requires
        spec_rdata_roundtrips(RData::MAILB(x)),
    ensures
        spec_encode_rdata(RData::MAILB(x)) is Some,
        spec_rdata_parsed(
            spec_encode_rdata(RData::MAILB(x)).unwrap(),
            seq![0u8],
            spec_rdata_rr_type(RData::MAILB(x)),
            class,
            ttl,
            0,
            spec_encode_rdata(RData::MAILB(x)).unwrap().len() as int,
            Ok(RData::MAILB(x)),
        ),
{
    lemma_mailb_roundtrip(x@);
}

proof fn lemma_rdata_roundtrip_maila(x: MAILA, class: u16, ttl: u32)
    requires
        spec_rdata_roundtrips(RData::MAILA(x)),
    ensures
        spec_encode_rdata(RData::MAILA(x)) is Some,
        spec_rdata_parsed(
            spec_encode_rdata(RData::MAILA(x)).unwrap(),
            seq![0u8],
            spec_rdata_rr_type(RData::MAILA(x)),
            class,
            ttl,
            0,
            spec_encode_rdata(RData::MAILA(x)).unwrap().len() as int,
            Ok(RData::MAILA(x)),
        ),
{
    lemma_maila_roundtrip(x@);
}

proof fn lemma_rdata_roundtrip_any(x: ANY, class: u16, ttl: u32)
    requires
        spec_rdata_roundtrips(RData::ANY(x)),
    ensures
        spec_encode_rdata(RData::ANY(x)) is Some,
        spec_rdata_parsed(
            spec_encode_rdata(RData::ANY(x)).unwrap(),
            seq![0u8],
            spec_rdata_rr_type(RData::ANY(x)),
            class,
            ttl,
            0,
            spec_encode_rdata(RData::ANY(x)).unwrap().len() as int,
            Ok(RData::ANY(x)),
        ),
{
    lemma_any_roundtrip(x@);
}

proof fn lemma_rdata_roundtrip_ta(x: TA, class: u16, ttl: u32)
    requires
        spec_rdata_roundtrips(RData::TA(x)),
    ensures
        spec_encode_rdata(RData::TA(x)) is Some,
        spec_rdata_parsed(
            spec_encode_rdata(RData::TA(x)).unwrap(),
            seq![0u8],
            spec_rdata_rr_type(RData::TA(x)),
            class,
            ttl,
            0,
            spec_encode_rdata(RData::TA(x)).unwrap().len() as int,
            Ok(RData::TA(x)),
        ),
{
    lemma_ta_roundtrip(x@);
}

proof fn lemma_rdata_roundtrip_dlv(x: DLV, class: u16, ttl: u32)
    requires
        spec_rdata_roundtrips(RData::DLV(x)),
    ensures
        spec_encode_rdata(RData::DLV(x)) is Some,
        spec_rdata_parsed(
            spec_encode_rdata(RData::DLV(x)).unwrap(),
            seq![0u8],
            spec_rdata_rr_type(RData::DLV(x)),
            class,
            ttl,
            0,
            spec_encode_rdata(RData::DLV(x)).unwrap().len() as int,
            Ok(RData::DLV(x)),
        ),
{
    lemma_dlv_roundtrip(x@);
}

proof fn lemma_rdata_roundtrip_txt(x: TXT, class: u16, ttl: u32)
    requires
        spec_rdata_roundtrips(RData::TXT(x)),
    ensures
        spec_encode_rdata(RData::TXT(x)) is Some,
        spec_rdata_parsed(
            spec_encode_rdata(RData::TXT(x)).unwrap(),
            seq![0u8],
            spec_rdata_rr_type(RData::TXT(x)),
            class,
            ttl,
            0,
            spec_encode_rdata(RData::TXT(x)).unwrap().len() as int,
            Ok(RData::TXT(x)),
        ),
{
    lemma_txt_roundtrip(x@);
}

proof fn lemma_rdata_roundtrip_soa(x: SOA, class: u16, ttl: u32)
    requires
        spec_rdata_roundtrips(RData::SOA(x)),
    ensures
        spec_encode_rdata(RData::SOA(x)) is Some,
        spec_rdata_parsed(
            spec_encode_rdata(RData::SOA(x)).unwrap(),
            seq![0u8],
            spec_rdata_rr_type(RData::SOA(x)),
            class,
            ttl,
            0,
            spec_encode_rdata(RData::SOA(x)).unwrap().len() as int,
            Ok(RData::SOA(x)),
        ),
{
    lemma_soa_roundtrip(x@);
}
} // verus!
