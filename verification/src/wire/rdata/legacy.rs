//! Wire form of the historic RDATA types.

use vstd::prelude::*;
use crate::error::ProtoError;
use crate::name::{Name, spec_parse_name, name_wire_ok, lemma_parse_plain_name};
use crate::rdata::RData;
use crate::rdata::dnssec::{NSEC, NXT};
use crate::rdata::legacy::{A6, AFSDB, ANAME, ANY, APL, ATMA, AVC, AXFR, AplPrefix, DNAME, EID, GID, GPOS, HINFO, ISDN, IXFR, LOC, MAILA, MAILB, MB, MD, MF, MG, MINFO, MR, NIMLOC, NSAP, NSAPPTR, NULL, PX, RP, RT, SINK, SPF, UID, UINFO, UNSPEC, WKS, X25};
use crate::rdata::bitmap::{TypeBitMaps, spec_decode_bitmaps};
use crate::types::RecordType;
use crate::wire::{be16, be32, be48, be64, spec_u16_at, spec_u32_at, spec_u48_at, spec_u64_at, lemma_read_be16, lemma_read_be32, lemma_read_be48, lemma_read_be64, lemma_i32_through_u32, push_u16, push_u32, push_u48, push_u64, push_bytes, copy_range, read_u16_be, read_u32_be, read_u48_be, read_u64_be};
use crate::wire::rdata::{spec_cstr, spec_name_rdata, spec_single_string_rdata, spec_two_strings_rdata, spec_two_names_rdata, spec_u16_name_rdata, parse_name, parse_character_string, parse_single_character_string, parse_two_character_strings, parse_two_names, parse_u16_name, encode_character_string};

verus! {


impl View for NXT {
    type V = (Seq<u8>, (Seq<u8>, Seq<RecordType>));

    open spec fn view(&self) -> (Seq<u8>, (Seq<u8>, Seq<RecordType>)) {
        self.0@
    }
}

/// Decoded form of `NXT` RDATA: the `NSEC` layout.
pub open spec fn spec_parse_nxt(p: Seq<u8>, s: int, e: int) -> Option<(Seq<u8>, (Seq<u8>, Seq<RecordType>))> {
    crate::wire::rdata::dnssec::spec_parse_nsec(p, s, e)
}

/// Wire form of a `NXT` view.
pub open spec fn spec_encode_nxt(v: (Seq<u8>, (Seq<u8>, Seq<RecordType>))) -> Seq<u8> {
    crate::wire::rdata::dnssec::spec_encode_nsec(v)
}

/// Views that survive an encode and decode unchanged.
pub open spec fn spec_valid_nxt(v: (Seq<u8>, (Seq<u8>, Seq<RecordType>))) -> bool {
    crate::wire::rdata::dnssec::spec_valid_nsec(v)
}

/// Decode `NXT` RDATA from `packet[start..end]`.
pub fn parse_nxt_rdata(packet: &[u8], start: usize, end: usize) -> (r: Result<NXT, ProtoError>)
    requires
        start <= end <= packet@.len(),
    ensures
        match spec_parse_nxt(packet@, start as int, end as int) {
            Some(v) => r matches Ok(x) && x@ == v,
            None => r is Err,
        },
{
        match crate::wire::rdata::dnssec::parse_nsec_rdata(packet, start, end) {
            Ok(x) => Ok(NXT(x)),
            Err(e) => Err(e),
        }
}

/// Decode `NXT` RDATA from `packet[start..end]` as an [`RData`] value.
pub fn parse_nxt(packet: &[u8], start: usize, end: usize) -> (r: Result<RData, ProtoError>)
    requires
        start <= end <= packet@.len(),
    ensures
        match spec_parse_nxt(packet@, start as int, end as int) {
            Some(v) => r matches Ok(RData::NXT(x)) && x@ == v,
            None => r is Err,
        },
{
    match parse_nxt_rdata(packet, start, end) {
        Ok(x) => Ok(RData::NXT(x)),
        Err(e) => Err(e),
    }
}

/// Append the `NXT` wire form (the `NSEC` layout).
pub fn encode_nxt(value: &NXT, out: &mut Vec<u8>) -> (r: Result<(), ProtoError>)
    ensures
        r is Ok,
        final(out)@ == old(out)@ + spec_encode_nxt(value@),
{
    crate::wire::rdata::dnssec::encode_nsec(&value.0, out)
}

/// Decoding the encoding of a valid `NXT` view gives the view back.
pub proof fn lemma_nxt_roundtrip(v: (Seq<u8>, (Seq<u8>, Seq<RecordType>)))
    requires
        spec_valid_nxt(v),
    ensures
        spec_parse_nxt(spec_encode_nxt(v), 0, spec_encode_nxt(v).len() as int) == Some(v),
{
    crate::wire::rdata::dnssec::lemma_nsec_roundtrip(v);
}

impl View for MD {
    type V = Seq<u8>;

    open spec fn view(&self) -> Seq<u8> {
        self.0@
    }
}

/// Decoded form of `MD` RDATA held in `p[s..e]`.
pub open spec fn spec_parse_md(p: Seq<u8>, s: int, e: int) -> Option<Seq<u8>> {
    spec_name_rdata(p, s, e)
}

/// Wire form of a `MD` view, names written uncompressed.
pub open spec fn spec_encode_md(v: Seq<u8>) -> Seq<u8> {
    v
}

/// Views that survive an encode and decode unchanged.
pub open spec fn spec_valid_md(v: Seq<u8>) -> bool {
    name_wire_ok(v)
}

/// Decode `MD` RDATA from `packet[start..end]`.
pub fn parse_md_rdata(packet: &[u8], start: usize, end: usize) -> (r: Result<MD, ProtoError>)
    requires
        start <= end <= packet@.len(),
    ensures
        match spec_parse_md(packet@, start as int, end as int) {
            Some(v) => r matches Ok(x) && x@ == v,
            None => r is Err,
        },
{
    let f0 = match parse_name(packet, start, end, "MD") { Ok(x) => x, Err(e) => return Err(e) };
    Ok(MD(f0))
}

/// Decode `MD` RDATA from `packet[start..end]` as an [`RData`] value.
pub fn parse_md(packet: &[u8], start: usize, end: usize) -> (r: Result<RData, ProtoError>)
    requires
        start <= end <= packet@.len(),
    ensures
        match spec_parse_md(packet@, start as int, end as int) {
            Some(v) => r matches Ok(RData::MD(x)) && x@ == v,
            None => r is Err,
        },
{
    match parse_md_rdata(packet, start, end) {
        Ok(x) => Ok(RData::MD(x)),
        Err(e) => Err(e),
    }
}

/// Append the `MD` wire form, names uncompressed.
pub fn encode_md(value: &MD, out: &mut Vec<u8>) -> (r: Result<(), ProtoError>)
    ensures
        r is Ok,
        final(out)@ == old(out)@ + spec_encode_md(value@),
{
    let ghost o = old(out)@;
    push_bytes(out, value.0.wire());
    proof {
        assert(out@ =~= o + spec_encode_md(value@));
    }
    Ok(())
}

/// Decoding the encoding of a valid `MD` view gives the view back.
pub proof fn lemma_md_roundtrip(v: Seq<u8>)
    requires
        spec_valid_md(v),
    ensures
        spec_parse_md(spec_encode_md(v), 0, spec_encode_md(v).len() as int) == Some(v),
{
    let b = spec_encode_md(v);
    let o0: int = 0;
    let o1: int = o0 + v.len();
    assert(b.subrange(o0, o1) =~= v);
    lemma_parse_plain_name(b, o0, v);
    assert(b.len() == o1);
}

impl View for MF {
    type V = Seq<u8>;

    open spec fn view(&self) -> Seq<u8> {
        self.0@
    }
}

/// Decoded form of `MF` RDATA held in `p[s..e]`.
pub open spec fn spec_parse_mf(p: Seq<u8>, s: int, e: int) -> Option<Seq<u8>> {
    spec_name_rdata(p, s, e)
}

/// Wire form of a `MF` view, names written uncompressed.
pub open spec fn spec_encode_mf(v: Seq<u8>) -> Seq<u8> {
    v
}

/// Views that survive an encode and decode unchanged.
pub open spec fn spec_valid_mf(v: Seq<u8>) -> bool {
    name_wire_ok(v)
}

/// Decode `MF` RDATA from `packet[start..end]`.
pub fn parse_mf_rdata(packet: &[u8], start: usize, end: usize) -> (r: Result<MF, ProtoError>)
    requires
        start <= end <= packet@.len(),
    ensures
        match spec_parse_mf(packet@, start as int, end as int) {
            Some(v) => r matches Ok(x) && x@ == v,
            None => r is Err,
        },
{
    let f0 = match parse_name(packet, start, end, "MF") { Ok(x) => x, Err(e) => return Err(e) };
    Ok(MF(f0))
}

/// Decode `MF` RDATA from `packet[start..end]` as an [`RData`] value.
pub fn parse_mf(packet: &[u8], start: usize, end: usize) -> (r: Result<RData, ProtoError>)
    requires
        start <= end <= packet@.len(),
    ensures
        match spec_parse_mf(packet@, start as int, end as int) {
            Some(v) => r matches Ok(RData::MF(x)) && x@ == v,
            None => r is Err,
        },
{
    match parse_mf_rdata(packet, start, end) {
        Ok(x) => Ok(RData::MF(x)),
        Err(e) => Err(e),
    }
}

/// Append the `MF` wire form, names uncompressed.
pub fn encode_mf(value: &MF, out: &mut Vec<u8>) -> (r: Result<(), ProtoError>)
    ensures
        r is Ok,
        final(out)@ == old(out)@ + spec_encode_mf(value@),
{
    let ghost o = old(out)@;
    push_bytes(out, value.0.wire());
    proof {
        assert(out@ =~= o + spec_encode_mf(value@));
    }
    Ok(())
}

/// Decoding the encoding of a valid `MF` view gives the view back.
pub proof fn lemma_mf_roundtrip(v: Seq<u8>)
    requires
        spec_valid_mf(v),
    ensures
        spec_parse_mf(spec_encode_mf(v), 0, spec_encode_mf(v).len() as int) == Some(v),
{
    let b = spec_encode_mf(v);
    let o0: int = 0;
    let o1: int = o0 + v.len();
    assert(b.subrange(o0, o1) =~= v);
    lemma_parse_plain_name(b, o0, v);
    assert(b.len() == o1);
}

impl View for MB {
    type V = Seq<u8>;

    open spec fn view(&self) -> Seq<u8> {
        self.0@
    }
}

/// Decoded form of `MB` RDATA held in `p[s..e]`.
pub open spec fn spec_parse_mb(p: Seq<u8>, s: int, e: int) -> Option<Seq<u8>> {
    spec_name_rdata(p, s, e)
}

/// Wire form of a `MB` view, names written uncompressed.
pub open spec fn spec_encode_mb(v: Seq<u8>) -> Seq<u8> {
    v
}

/// Views that survive an encode and decode unchanged.
pub open spec fn spec_valid_mb(v: Seq<u8>) -> bool {
    name_wire_ok(v)
}

/// Decode `MB` RDATA from `packet[start..end]`.
pub fn parse_mb_rdata(packet: &[u8], start: usize, end: usize) -> (r: Result<MB, ProtoError>)
    requires
        start <= end <= packet@.len(),
    ensures
        match spec_parse_mb(packet@, start as int, end as int) {
            Some(v) => r matches Ok(x) && x@ == v,
            None => r is Err,
        },
{
    let f0 = match parse_name(packet, start, end, "MB") { Ok(x) => x, Err(e) => return Err(e) };
    Ok(MB(f0))
}

/// Decode `MB` RDATA from `packet[start..end]` as an [`RData`] value.
pub fn parse_mb(packet: &[u8], start: usize, end: usize) -> (r: Result<RData, ProtoError>)
    requires
        start <= end <= packet@.len(),
    ensures
        match spec_parse_mb(packet@, start as int, end as int) {
            Some(v) => r matches Ok(RData::MB(x)) && x@ == v,
            None => r is Err,
        },
{
    match parse_mb_rdata(packet, start, end) {
        Ok(x) => Ok(RData::MB(x)),
        Err(e) => Err(e),
    }
}

/// Append the `MB` wire form, names uncompressed.
pub fn encode_mb(value: &MB, out: &mut Vec<u8>) -> (r: Result<(), ProtoError>)
    ensures
        r is Ok,
        final(out)@ == old(out)@ + spec_encode_mb(value@),
{
    let ghost o = old(out)@;
    push_bytes(out, value.0.wire());
    proof {
        assert(out@ =~= o + spec_encode_mb(value@));
    }
    Ok(())
}

/// Decoding the encoding of a valid `MB` view gives the view back.
pub proof fn lemma_mb_roundtrip(v: Seq<u8>)
    requires
        spec_valid_mb(v),
    ensures
        spec_parse_mb(spec_encode_mb(v), 0, spec_encode_mb(v).len() as int) == Some(v),
{
    let b = spec_encode_mb(v);
    let o0: int = 0;
    let o1: int = o0 + v.len();
    assert(b.subrange(o0, o1) =~= v);
    lemma_parse_plain_name(b, o0, v);
    assert(b.len() == o1);
}

impl View for MG {
    type V = Seq<u8>;

    open spec fn view(&self) -> Seq<u8> {
        self.0@
    }
}

/// Decoded form of `MG` RDATA held in `p[s..e]`.
pub open spec fn spec_parse_mg(p: Seq<u8>, s: int, e: int) -> Option<Seq<u8>> {
    spec_name_rdata(p, s, e)
}

/// Wire form of a `MG` view, names written uncompressed.
pub open spec fn spec_encode_mg(v: Seq<u8>) -> Seq<u8> {
    v
}

/// Views that survive an encode and decode unchanged.
pub open spec fn spec_valid_mg(v: Seq<u8>) -> bool {
    name_wire_ok(v)
}

/// Decode `MG` RDATA from `packet[start..end]`.
pub fn parse_mg_rdata(packet: &[u8], start: usize, end: usize) -> (r: Result<MG, ProtoError>)
    requires
        start <= end <= packet@.len(),
    ensures
        match spec_parse_mg(packet@, start as int, end as int) {
            Some(v) => r matches Ok(x) && x@ == v,
            None => r is Err,
        },
{
    let f0 = match parse_name(packet, start, end, "MG") { Ok(x) => x, Err(e) => return Err(e) };
    Ok(MG(f0))
}

/// Decode `MG` RDATA from `packet[start..end]` as an [`RData`] value.
pub fn parse_mg(packet: &[u8], start: usize, end: usize) -> (r: Result<RData, ProtoError>)
    requires
        start <= end <= packet@.len(),
    ensures
        match spec_parse_mg(packet@, start as int, end as int) {
            Some(v) => r matches Ok(RData::MG(x)) && x@ == v,
            None => r is Err,
        },
{
    match parse_mg_rdata(packet, start, end) {
        Ok(x) => Ok(RData::MG(x)),
        Err(e) => Err(e),
    }
}

/// Append the `MG` wire form, names uncompressed.
pub fn encode_mg(value: &MG, out: &mut Vec<u8>) -> (r: Result<(), ProtoError>)
    ensures
        r is Ok,
        final(out)@ == old(out)@ + spec_encode_mg(value@),
{
    let ghost o = old(out)@;
    push_bytes(out, value.0.wire());
    proof {
        assert(out@ =~= o + spec_encode_mg(value@));
    }
    Ok(())
}

/// Decoding the encoding of a valid `MG` view gives the view back.
pub proof fn lemma_mg_roundtrip(v: Seq<u8>)
    requires
        spec_valid_mg(v),
    ensures
        spec_parse_mg(spec_encode_mg(v), 0, spec_encode_mg(v).len() as int) == Some(v),
{
    let b = spec_encode_mg(v);
    let o0: int = 0;
    let o1: int = o0 + v.len();
    assert(b.subrange(o0, o1) =~= v);
    lemma_parse_plain_name(b, o0, v);
    assert(b.len() == o1);
}

impl View for MR {
    type V = Seq<u8>;

    open spec fn view(&self) -> Seq<u8> {
        self.0@
    }
}

/// Decoded form of `MR` RDATA held in `p[s..e]`.
pub open spec fn spec_parse_mr(p: Seq<u8>, s: int, e: int) -> Option<Seq<u8>> {
    spec_name_rdata(p, s, e)
}

/// Wire form of a `MR` view, names written uncompressed.
pub open spec fn spec_encode_mr(v: Seq<u8>) -> Seq<u8> {
    v
}

/// Views that survive an encode and decode unchanged.
pub open spec fn spec_valid_mr(v: Seq<u8>) -> bool {
    name_wire_ok(v)
}

/// Decode `MR` RDATA from `packet[start..end]`.
pub fn parse_mr_rdata(packet: &[u8], start: usize, end: usize) -> (r: Result<MR, ProtoError>)
    requires
        start <= end <= packet@.len(),
    ensures
        match spec_parse_mr(packet@, start as int, end as int) {
            Some(v) => r matches Ok(x) && x@ == v,
            None => r is Err,
        },
{
    let f0 = match parse_name(packet, start, end, "MR") { Ok(x) => x, Err(e) => return Err(e) };
    Ok(MR(f0))
}

/// Decode `MR` RDATA from `packet[start..end]` as an [`RData`] value.
pub fn parse_mr(packet: &[u8], start: usize, end: usize) -> (r: Result<RData, ProtoError>)
    requires
        start <= end <= packet@.len(),
    ensures
        match spec_parse_mr(packet@, start as int, end as int) {
            Some(v) => r matches Ok(RData::MR(x)) && x@ == v,
            None => r is Err,
        },
{
    match parse_mr_rdata(packet, start, end) {
        Ok(x) => Ok(RData::MR(x)),
        Err(e) => Err(e),
    }
}

/// Append the `MR` wire form, names uncompressed.
pub fn encode_mr(value: &MR, out: &mut Vec<u8>) -> (r: Result<(), ProtoError>)
    ensures
        r is Ok,
        final(out)@ == old(out)@ + spec_encode_mr(value@),
{
    let ghost o = old(out)@;
    push_bytes(out, value.0.wire());
    proof {
        assert(out@ =~= o + spec_encode_mr(value@));
    }
    Ok(())
}

/// Decoding the encoding of a valid `MR` view gives the view back.
pub proof fn lemma_mr_roundtrip(v: Seq<u8>)
    requires
        spec_valid_mr(v),
    ensures
        spec_parse_mr(spec_encode_mr(v), 0, spec_encode_mr(v).len() as int) == Some(v),
{
    let b = spec_encode_mr(v);
    let o0: int = 0;
    let o1: int = o0 + v.len();
    assert(b.subrange(o0, o1) =~= v);
    lemma_parse_plain_name(b, o0, v);
    assert(b.len() == o1);
}

impl View for DNAME {
    type V = Seq<u8>;

    open spec fn view(&self) -> Seq<u8> {
        self.0@
    }
}

/// Decoded form of `DNAME` RDATA held in `p[s..e]`.
pub open spec fn spec_parse_dname(p: Seq<u8>, s: int, e: int) -> Option<Seq<u8>> {
    spec_name_rdata(p, s, e)
}

/// Wire form of a `DNAME` view, names written uncompressed.
pub open spec fn spec_encode_dname(v: Seq<u8>) -> Seq<u8> {
    v
}

/// Views that survive an encode and decode unchanged.
pub open spec fn spec_valid_dname(v: Seq<u8>) -> bool {
    name_wire_ok(v)
}

/// Decode `DNAME` RDATA from `packet[start..end]`.
pub fn parse_dname_rdata(packet: &[u8], start: usize, end: usize) -> (r: Result<DNAME, ProtoError>)
    requires
        start <= end <= packet@.len(),
    ensures
        match spec_parse_dname(packet@, start as int, end as int) {
            Some(v) => r matches Ok(x) && x@ == v,
            None => r is Err,
        },
{
    let f0 = match parse_name(packet, start, end, "DNAME") { Ok(x) => x, Err(e) => return Err(e) };
    Ok(DNAME(f0))
}

/// Decode `DNAME` RDATA from `packet[start..end]` as an [`RData`] value.
pub fn parse_dname(packet: &[u8], start: usize, end: usize) -> (r: Result<RData, ProtoError>)
    requires
        start <= end <= packet@.len(),
    ensures
        match spec_parse_dname(packet@, start as int, end as int) {
            Some(v) => r matches Ok(RData::DNAME(x)) && x@ == v,
            None => r is Err,
        },
{
    match parse_dname_rdata(packet, start, end) {
        Ok(x) => Ok(RData::DNAME(x)),
        Err(e) => Err(e),
    }
}

/// Append the `DNAME` wire form, names uncompressed.
pub fn encode_dname(value: &DNAME, out: &mut Vec<u8>) -> (r: Result<(), ProtoError>)
    ensures
        r is Ok,
        final(out)@ == old(out)@ + spec_encode_dname(value@),
{
    let ghost o = old(out)@;
    push_bytes(out, value.0.wire());
    proof {
        assert(out@ =~= o + spec_encode_dname(value@));
    }
    Ok(())
}

/// Decoding the encoding of a valid `DNAME` view gives the view back.
pub proof fn lemma_dname_roundtrip(v: Seq<u8>)
    requires
        spec_valid_dname(v),
    ensures
        spec_parse_dname(spec_encode_dname(v), 0, spec_encode_dname(v).len() as int) == Some(v),
{
    let b = spec_encode_dname(v);
    let o0: int = 0;
    let o1: int = o0 + v.len();
    assert(b.subrange(o0, o1) =~= v);
    lemma_parse_plain_name(b, o0, v);
    assert(b.len() == o1);
}

impl View for ANAME {
    type V = Seq<u8>;

    open spec fn view(&self) -> Seq<u8> {
        self.0@
    }
}

/// Decoded form of `ANAME` RDATA held in `p[s..e]`.
pub open spec fn spec_parse_aname(p: Seq<u8>, s: int, e: int) -> Option<Seq<u8>> {
    spec_name_rdata(p, s, e)
}

/// Wire form of a `ANAME` view, names written uncompressed.
pub open spec fn spec_encode_aname(v: Seq<u8>) -> Seq<u8> {
    v
}

/// Views that survive an encode and decode unchanged.
pub open spec fn spec_valid_aname(v: Seq<u8>) -> bool {
    name_wire_ok(v)
}

/// Decode `ANAME` RDATA from `packet[start..end]`.
pub fn parse_aname_rdata(packet: &[u8], start: usize, end: usize) -> (r: Result<ANAME, ProtoError>)
    requires
        start <= end <= packet@.len(),
    ensures
        match spec_parse_aname(packet@, start as int, end as int) {
            Some(v) => r matches Ok(x) && x@ == v,
            None => r is Err,
        },
{
    let f0 = match parse_name(packet, start, end, "ANAME") { Ok(x) => x, Err(e) => return Err(e) };
    Ok(ANAME(f0))
}

/// Decode `ANAME` RDATA from `packet[start..end]` as an [`RData`] value.
pub fn parse_aname(packet: &[u8], start: usize, end: usize) -> (r: Result<RData, ProtoError>)
    requires
        start <= end <= packet@.len(),
    ensures
        match spec_parse_aname(packet@, start as int, end as int) {
            Some(v) => r matches Ok(RData::ANAME(x)) && x@ == v,
            None => r is Err,
        },
{
    match parse_aname_rdata(packet, start, end) {
        Ok(x) => Ok(RData::ANAME(x)),
        Err(e) => Err(e),
    }
}

/// Append the `ANAME` wire form, names uncompressed.
pub fn encode_aname(value: &ANAME, out: &mut Vec<u8>) -> (r: Result<(), ProtoError>)
    ensures
        r is Ok,
        final(out)@ == old(out)@ + spec_encode_aname(value@),
{
    let ghost o = old(out)@;
    push_bytes(out, value.0.wire());
    proof {
        assert(out@ =~= o + spec_encode_aname(value@));
    }
    Ok(())
}

/// Decoding the encoding of a valid `ANAME` view gives the view back.
pub proof fn lemma_aname_roundtrip(v: Seq<u8>)
    requires
        spec_valid_aname(v),
    ensures
        spec_parse_aname(spec_encode_aname(v), 0, spec_encode_aname(v).len() as int) == Some(v),
{
    let b = spec_encode_aname(v);
    let o0: int = 0;
    let o1: int = o0 + v.len();
    assert(b.subrange(o0, o1) =~= v);
    lemma_parse_plain_name(b, o0, v);
    assert(b.len() == o1);
}

impl View for NSAPPTR {
    type V = Seq<u8>;

    open spec fn view(&self) -> Seq<u8> {
        self.0@
    }
}

/// Decoded form of `NSAPPTR` RDATA held in `p[s..e]`.
pub open spec fn spec_parse_nsapptr(p: Seq<u8>, s: int, e: int) -> Option<Seq<u8>> {
    spec_name_rdata(p, s, e)
}

/// Wire form of a `NSAPPTR` view, names written uncompressed.
pub open spec fn spec_encode_nsapptr(v: Seq<u8>) -> Seq<u8> {
    v
}

/// Views that survive an encode and decode unchanged.
pub open spec fn spec_valid_nsapptr(v: Seq<u8>) -> bool {
    name_wire_ok(v)
}

/// Decode `NSAPPTR` RDATA from `packet[start..end]`.
pub fn parse_nsapptr_rdata(packet: &[u8], start: usize, end: usize) -> (r: Result<NSAPPTR, ProtoError>)
    requires
        start <= end <= packet@.len(),
    ensures
        match spec_parse_nsapptr(packet@, start as int, end as int) {
            Some(v) => r matches Ok(x) && x@ == v,
            None => r is Err,
        },
{
    let f0 = match parse_name(packet, start, end, "NSAPPTR") { Ok(x) => x, Err(e) => return Err(e) };
    Ok(NSAPPTR(f0))
}

/// Decode `NSAPPTR` RDATA from `packet[start..end]` as an [`RData`] value.
pub fn parse_nsapptr(packet: &[u8], start: usize, end: usize) -> (r: Result<RData, ProtoError>)
    requires
        start <= end <= packet@.len(),
    ensures
        match spec_parse_nsapptr(packet@, start as int, end as int) {
            Some(v) => r matches Ok(RData::NSAPPTR(x)) && x@ == v,
            None => r is Err,
        },
{
    match parse_nsapptr_rdata(packet, start, end) {
        Ok(x) => Ok(RData::NSAPPTR(x)),
        Err(e) => Err(e),
    }
}

/// Append the `NSAPPTR` wire form, names uncompressed.
pub fn encode_nsapptr(value: &NSAPPTR, out: &mut Vec<u8>) -> (r: Result<(), ProtoError>)
    ensures
        r is Ok,
        final(out)@ == old(out)@ + spec_encode_nsapptr(value@),
{
    let ghost o = old(out)@;
    push_bytes(out, value.0.wire());
    proof {
        assert(out@ =~= o + spec_encode_nsapptr(value@));
    }
    Ok(())
}

/// Decoding the encoding of a valid `NSAPPTR` view gives the view back.
pub proof fn lemma_nsapptr_roundtrip(v: Seq<u8>)
    requires
        spec_valid_nsapptr(v),
    ensures
        spec_parse_nsapptr(spec_encode_nsapptr(v), 0, spec_encode_nsapptr(v).len() as int) == Some(v),
{
    let b = spec_encode_nsapptr(v);
    let o0: int = 0;
    let o1: int = o0 + v.len();
    assert(b.subrange(o0, o1) =~= v);
    lemma_parse_plain_name(b, o0, v);
    assert(b.len() == o1);
}

impl View for NULL {
    type V = Seq<u8>;

    open spec fn view(&self) -> Seq<u8> {
        self.data@
    }
}

/// Decoded form of `NULL` RDATA held in `p[s..e]`.
pub open spec fn spec_parse_null(p: Seq<u8>, s: int, e: int) -> Option<Seq<u8>> {
    if s > e {
        None
    } else {
        let f0 = p.subrange(s, e);
        Some(f0)
    }
}

/// Wire form of a `NULL` view, names written uncompressed.
pub open spec fn spec_encode_null(v: Seq<u8>) -> Seq<u8> {
    v
}

/// Views that survive an encode and decode unchanged.
pub open spec fn spec_valid_null(v: Seq<u8>) -> bool {
    true
}

/// Decode `NULL` RDATA from `packet[start..end]`.
pub fn parse_null_rdata(packet: &[u8], start: usize, end: usize) -> (r: Result<NULL, ProtoError>)
    requires
        start <= end <= packet@.len(),
    ensures
        match spec_parse_null(packet@, start as int, end as int) {
            Some(v) => r matches Ok(x) && x@ == v,
            None => r is Err,
        },
{
    if start > end { return Err(ProtoError::protocol("invalid NULL rdata length")); }
    let f0 = copy_range(packet, start, end);
    Ok(NULL { data: f0 })
}

/// Decode `NULL` RDATA from `packet[start..end]` as an [`RData`] value.
pub fn parse_null(packet: &[u8], start: usize, end: usize) -> (r: Result<RData, ProtoError>)
    requires
        start <= end <= packet@.len(),
    ensures
        match spec_parse_null(packet@, start as int, end as int) {
            Some(v) => r matches Ok(RData::NULL(x)) && x@ == v,
            None => r is Err,
        },
{
    match parse_null_rdata(packet, start, end) {
        Ok(x) => Ok(RData::NULL(x)),
        Err(e) => Err(e),
    }
}

/// Append the `NULL` wire form.
pub fn encode_null(value: &NULL, out: &mut Vec<u8>)
    ensures
        final(out)@ == old(out)@ + spec_encode_null(value@),
{
    let ghost o = old(out)@;
    push_bytes(out, value.data.as_slice());
    proof {
        assert(out@ =~= o + spec_encode_null(value@));
    }
}

/// Decoding the encoding of a valid `NULL` view gives the view back.
pub proof fn lemma_null_roundtrip(v: Seq<u8>)
    requires
        spec_valid_null(v),
    ensures
        spec_parse_null(spec_encode_null(v), 0, spec_encode_null(v).len() as int) == Some(v),
{
    let b = spec_encode_null(v);
    let o0: int = 0;
    let o1: int = o0 + v.len();
    assert(b.subrange(o0, o1) =~= v);
    assert(b.len() == o1);
}

impl View for WKS {
    type V = (Seq<u8>, u8, Seq<u8>);

    open spec fn view(&self) -> (Seq<u8>, u8, Seq<u8>) {
        (self.address@, self.protocol, self.bitmap@)
    }
}

/// Decoded form of `WKS` RDATA held in `p[s..e]`.
pub open spec fn spec_parse_wks(p: Seq<u8>, s: int, e: int) -> Option<(Seq<u8>, u8, Seq<u8>)> {
    if s + 4 > e {
        None
    } else {
        let f0 = p.subrange(s, s + 4);
        let c1 = s + 4;
        if c1 + 1 > e {
            None
        } else {
            let f1 = p[c1];
            let c2 = c1 + 1;
            if c2 > e {
                None
            } else {
                let f2 = p.subrange(c2, e);
                Some((f0, f1, f2))
            }
        }
    }
}

/// Wire form of a `WKS` view, names written uncompressed.
pub open spec fn spec_encode_wks(v: (Seq<u8>, u8, Seq<u8>)) -> Seq<u8> {
    v.0 + seq![v.1] + v.2
}

/// Views that survive an encode and decode unchanged.
pub open spec fn spec_valid_wks(v: (Seq<u8>, u8, Seq<u8>)) -> bool {
    v.0.len() == 4
}

/// Decode `WKS` RDATA from `packet[start..end]`.
pub fn parse_wks_rdata(packet: &[u8], start: usize, end: usize) -> (r: Result<WKS, ProtoError>)
    requires
        start <= end <= packet@.len(),
    ensures
        match spec_parse_wks(packet@, start as int, end as int) {
            Some(v) => r matches Ok(x) && x@ == v,
            None => r is Err,
        },
{
    if start > end || end - start < 4 { return Err(ProtoError::protocol("invalid WKS rdata length")); }
    let f0: [u8; 4] = [packet[start], packet[start + 1], packet[start + 2], packet[start + 3]];
    proof { assert(f0@ =~= packet@.subrange(start as int, start + 4)); }
    let c1 = start + 4;
    if c1 > end || end - c1 < 1 { return Err(ProtoError::protocol("invalid WKS rdata length")); }
    let f1 = packet[c1];
    let c2 = c1 + 1;
    if c2 > end { return Err(ProtoError::protocol("invalid WKS rdata length")); }
    let f2 = copy_range(packet, c2, end);
    Ok(WKS { address: f0, protocol: f1, bitmap: f2 })
}

/// Decode `WKS` RDATA from `packet[start..end]` as an [`RData`] value.
pub fn parse_wks(packet: &[u8], start: usize, end: usize) -> (r: Result<RData, ProtoError>)
    requires
        start <= end <= packet@.len(),
    ensures
        match spec_parse_wks(packet@, start as int, end as int) {
            Some(v) => r matches Ok(RData::WKS(x)) && x@ == v,
            None => r is Err,
        },
{
    match parse_wks_rdata(packet, start, end) {
        Ok(x) => Ok(RData::WKS(x)),
        Err(e) => Err(e),
    }
}

/// Append the `WKS` wire form.
pub fn encode_wks(value: &WKS, out: &mut Vec<u8>)
    ensures
        final(out)@ == old(out)@ + spec_encode_wks(value@),
{
    let ghost o = old(out)@;
    push_bytes(out, value.address.as_slice());
    out.push(value.protocol);
    push_bytes(out, value.bitmap.as_slice());
    proof {
        assert(out@ =~= o + spec_encode_wks(value@));
    }
}

/// Decoding the encoding of a valid `WKS` view gives the view back.
pub proof fn lemma_wks_roundtrip(v: (Seq<u8>, u8, Seq<u8>))
    requires
        spec_valid_wks(v),
    ensures
        spec_parse_wks(spec_encode_wks(v), 0, spec_encode_wks(v).len() as int) == Some(v),
{
    let b = spec_encode_wks(v);
    let o0: int = 0;
    let o1: int = o0 + 4;
    assert(b.subrange(o0, o1) =~= v.0);
    let o2: int = o1 + 1;
    assert(b.subrange(o1, o2) =~= seq![v.1]);
    assert(b[o1] == v.1);
    let o3: int = o2 + v.2.len();
    assert(b.subrange(o2, o3) =~= v.2);
    assert(b.len() == o3);
}

impl View for HINFO {
    type V = (Seq<u8>, Seq<u8>);

    open spec fn view(&self) -> (Seq<u8>, Seq<u8>) {
        (self.cpu@, self.os@)
    }
}

/// Decoded form of `HINFO` RDATA held in `p[s..e]`.
pub open spec fn spec_parse_hinfo(p: Seq<u8>, s: int, e: int) -> Option<(Seq<u8>, Seq<u8>)> {
    spec_two_strings_rdata(p, s, e)
}

/// Wire form of a `HINFO` view, names written uncompressed.
pub open spec fn spec_encode_hinfo(v: (Seq<u8>, Seq<u8>)) -> Option<Seq<u8>> {
    if v.0.len() > 255 || v.1.len() > 255 { None } else { Some(seq![v.0.len() as u8] + v.0 + seq![v.1.len() as u8] + v.1) }
}

/// Views that survive an encode and decode unchanged.
pub open spec fn spec_valid_hinfo(v: (Seq<u8>, Seq<u8>)) -> bool {
    v.0.len() <= 255 && v.1.len() <= 255
}

/// Decode `HINFO` RDATA from `packet[start..end]`.
pub fn parse_hinfo_rdata(packet: &[u8], start: usize, end: usize) -> (r: Result<HINFO, ProtoError>)
    requires
        start <= end <= packet@.len(),
    ensures
        match spec_parse_hinfo(packet@, start as int, end as int) {
            Some(v) => r matches Ok(x) && x@ == v,
            None => r is Err,
        },
{
    let (f0, f1) = match parse_two_character_strings(packet, start, end, "HINFO") { Ok(x) => x, Err(e) => return Err(e) };
    Ok(HINFO { cpu: f0, os: f1 })
}

/// Decode `HINFO` RDATA from `packet[start..end]` as an [`RData`] value.
pub fn parse_hinfo(packet: &[u8], start: usize, end: usize) -> (r: Result<RData, ProtoError>)
    requires
        start <= end <= packet@.len(),
    ensures
        match spec_parse_hinfo(packet@, start as int, end as int) {
            Some(v) => r matches Ok(RData::HINFO(x)) && x@ == v,
            None => r is Err,
        },
{
    match parse_hinfo_rdata(packet, start, end) {
        Ok(x) => Ok(RData::HINFO(x)),
        Err(e) => Err(e),
    }
}

/// What a failed `HINFO` write leaves: the CPU string when only the OS
/// string is too long.
pub open spec fn spec_hinfo_written(v: (Seq<u8>, Seq<u8>)) -> Seq<u8> {
    if v.0.len() > 255 {
        Seq::<u8>::empty()
    } else {
        seq![v.0.len() as u8] + v.0
    }
}

/// Append the `HINFO` wire form, names uncompressed.
pub fn encode_hinfo(value: &HINFO, out: &mut Vec<u8>) -> (r: Result<(), ProtoError>)
    ensures
        match spec_encode_hinfo(value@) {
            Some(b) => r is Ok && final(out)@ == old(out)@ + b,
            None => r is Err && final(out)@ == old(out)@ + spec_hinfo_written(value@),
        },
{
    let ghost o = old(out)@;
    if value.cpu.len() > 255 {
        return Err(ProtoError::protocol("HINFO cpu exceeds 255 bytes"));
    }
    out.push(value.cpu.len() as u8);
    push_bytes(out, value.cpu.as_slice());
    if value.os.len() > 255 {
        proof {
            assert(out@ =~= o + seq![value.cpu@.len() as u8] + value.cpu@);
        }
        return Err(ProtoError::protocol("HINFO os exceeds 255 bytes"));
    }
    out.push(value.os.len() as u8);
    push_bytes(out, value.os.as_slice());
    proof {
        assert(out@ =~= o + spec_encode_hinfo(value@).unwrap());
    }
    Ok(())
}

/// Decoding the encoding of a valid `HINFO` view gives the view back.
pub proof fn lemma_hinfo_roundtrip(v: (Seq<u8>, Seq<u8>))
    requires
        spec_valid_hinfo(v),
    ensures
        spec_encode_hinfo(v) is Some,
        spec_parse_hinfo(spec_encode_hinfo(v).unwrap(), 0, spec_encode_hinfo(v).unwrap().len() as int) == Some(v),
{
    let b = spec_encode_hinfo(v).unwrap();
    let o0: int = 0;
    let o1: int = o0 + (1 + v.0.len());
    assert(b.subrange(o0, o1) =~= seq![v.0.len() as u8] + v.0);
    assert(b[o0] == v.0.len());
    assert(b.subrange(o0 + 1, o1) =~= v.0);
    let o2: int = o1 + (1 + v.1.len());
    assert(b.subrange(o1, o2) =~= seq![v.1.len() as u8] + v.1);
    assert(b[o1] == v.1.len());
    assert(b.subrange(o1 + 1, o2) =~= v.1);
    assert(b.len() == o2);
}

impl View for MINFO {
    type V = (Seq<u8>, Seq<u8>);

    open spec fn view(&self) -> (Seq<u8>, Seq<u8>) {
        (self.rmail@, self.email@)
    }
}

/// Decoded form of `MINFO` RDATA held in `p[s..e]`.
pub open spec fn spec_parse_minfo(p: Seq<u8>, s: int, e: int) -> Option<(Seq<u8>, Seq<u8>)> {
    spec_two_names_rdata(p, s, e)
}

/// Wire form of a `MINFO` view, names written uncompressed.
pub open spec fn spec_encode_minfo(v: (Seq<u8>, Seq<u8>)) -> Seq<u8> {
    v.0 + v.1
}

/// Views that survive an encode and decode unchanged.
pub open spec fn spec_valid_minfo(v: (Seq<u8>, Seq<u8>)) -> bool {
    name_wire_ok(v.0) && name_wire_ok(v.1)
}

/// Decode `MINFO` RDATA from `packet[start..end]`.
pub fn parse_minfo_rdata(packet: &[u8], start: usize, end: usize) -> (r: Result<MINFO, ProtoError>)
    requires
        start <= end <= packet@.len(),
    ensures
        match spec_parse_minfo(packet@, start as int, end as int) {
            Some(v) => r matches Ok(x) && x@ == v,
            None => r is Err,
        },
{
    let (f0, f1) = match parse_two_names(packet, start, end, "MINFO") { Ok(x) => x, Err(e) => return Err(e) };
    Ok(MINFO { rmail: f0, email: f1 })
}

/// Decode `MINFO` RDATA from `packet[start..end]` as an [`RData`] value.
pub fn parse_minfo(packet: &[u8], start: usize, end: usize) -> (r: Result<RData, ProtoError>)
    requires
        start <= end <= packet@.len(),
    ensures
        match spec_parse_minfo(packet@, start as int, end as int) {
            Some(v) => r matches Ok(RData::MINFO(x)) && x@ == v,
            None => r is Err,
        },
{
    match parse_minfo_rdata(packet, start, end) {
        Ok(x) => Ok(RData::MINFO(x)),
        Err(e) => Err(e),
    }
}

/// Append the `MINFO` wire form, names uncompressed.
pub fn encode_minfo(value: &MINFO, out: &mut Vec<u8>) -> (r: Result<(), ProtoError>)
    ensures
        r is Ok,
        final(out)@ == old(out)@ + spec_encode_minfo(value@),
{
    let ghost o = old(out)@;
    push_bytes(out, value.rmail.wire());
    push_bytes(out, value.email.wire());
    proof {
        assert(out@ =~= o + spec_encode_minfo(value@));
    }
    Ok(())
}

/// Decoding the encoding of a valid `MINFO` view gives the view back.
pub proof fn lemma_minfo_roundtrip(v: (Seq<u8>, Seq<u8>))
    requires
        spec_valid_minfo(v),
    ensures
        spec_parse_minfo(spec_encode_minfo(v), 0, spec_encode_minfo(v).len() as int) == Some(v),
{
    let b = spec_encode_minfo(v);
    let o0: int = 0;
    let o1: int = o0 + v.0.len();
    assert(b.subrange(o0, o1) =~= v.0);
    lemma_parse_plain_name(b, o0, v.0);
    let o2: int = o1 + v.1.len();
    assert(b.subrange(o1, o2) =~= v.1);
    lemma_parse_plain_name(b, o1, v.1);
    assert(b.len() == o2);
}

impl View for RP {
    type V = (Seq<u8>, Seq<u8>);

    open spec fn view(&self) -> (Seq<u8>, Seq<u8>) {
        (self.mbox@, self.txt@)
    }
}

/// Decoded form of `RP` RDATA held in `p[s..e]`.
pub open spec fn spec_parse_rp(p: Seq<u8>, s: int, e: int) -> Option<(Seq<u8>, Seq<u8>)> {
    spec_two_names_rdata(p, s, e)
}

/// Wire form of a `RP` view, names written uncompressed.
pub open spec fn spec_encode_rp(v: (Seq<u8>, Seq<u8>)) -> Seq<u8> {
    v.0 + v.1
}

/// Views that survive an encode and decode unchanged.
pub open spec fn spec_valid_rp(v: (Seq<u8>, Seq<u8>)) -> bool {
    name_wire_ok(v.0) && name_wire_ok(v.1)
}

/// Decode `RP` RDATA from `packet[start..end]`.
pub fn parse_rp_rdata(packet: &[u8], start: usize, end: usize) -> (r: Result<RP, ProtoError>)
    requires
        start <= end <= packet@.len(),
    ensures
        match spec_parse_rp(packet@, start as int, end as int) {
            Some(v) => r matches Ok(x) && x@ == v,
            None => r is Err,
        },
{
    let (f0, f1) = match parse_two_names(packet, start, end, "RP") { Ok(x) => x, Err(e) => return Err(e) };
    Ok(RP { mbox: f0, txt: f1 })
}

/// Decode `RP` RDATA from `packet[start..end]` as an [`RData`] value.
pub fn parse_rp(packet: &[u8], start: usize, end: usize) -> (r: Result<RData, ProtoError>)
    requires
        start <= end <= packet@.len(),
    ensures
        match spec_parse_rp(packet@, start as int, end as int) {
            Some(v) => r matches Ok(RData::RP(x)) && x@ == v,
            None => r is Err,
        },
{
    match parse_rp_rdata(packet, start, end) {
        Ok(x) => Ok(RData::RP(x)),
        Err(e) => Err(e),
    }
}

/// Append the `RP` wire form, names uncompressed.
pub fn encode_rp(value: &RP, out: &mut Vec<u8>) -> (r: Result<(), ProtoError>)
    ensures
        r is Ok,
        final(out)@ == old(out)@ + spec_encode_rp(value@),
{
    let ghost o = old(out)@;
    push_bytes(out, value.mbox.wire());
    push_bytes(out, value.txt.wire());
    proof {
        assert(out@ =~= o + spec_encode_rp(value@));
    }
    Ok(())
}

/// Decoding the encoding of a valid `RP` view gives the view back.
pub proof fn lemma_rp_roundtrip(v: (Seq<u8>, Seq<u8>))
    requires
        spec_valid_rp(v),
    ensures
        spec_parse_rp(spec_encode_rp(v), 0, spec_encode_rp(v).len() as int) == Some(v),
{
    let b = spec_encode_rp(v);
    let o0: int = 0;
    let o1: int = o0 + v.0.len();
    assert(b.subrange(o0, o1) =~= v.0);
    lemma_parse_plain_name(b, o0, v.0);
    let o2: int = o1 + v.1.len();
    assert(b.subrange(o1, o2) =~= v.1);
    lemma_parse_plain_name(b, o1, v.1);
    assert(b.len() == o2);
}

impl View for AFSDB {
    type V = (u16, Seq<u8>);

    open spec fn view(&self) -> (u16, Seq<u8>) {
        (self.subtype, self.hostname@)
    }
}

/// Decoded form of `AFSDB` RDATA held in `p[s..e]`.
pub open spec fn spec_parse_afsdb(p: Seq<u8>, s: int, e: int) -> Option<(u16, Seq<u8>)> {
    spec_u16_name_rdata(p, s, e)
}

/// Wire form of a `AFSDB` view, names written uncompressed.
pub open spec fn spec_encode_afsdb(v: (u16, Seq<u8>)) -> Seq<u8> {
    be16(v.0) + v.1
}

/// Views that survive an encode and decode unchanged.
pub open spec fn spec_valid_afsdb(v: (u16, Seq<u8>)) -> bool {
    name_wire_ok(v.1)
}

/// Decode `AFSDB` RDATA from `packet[start..end]`.
pub fn parse_afsdb_rdata(packet: &[u8], start: usize, end: usize) -> (r: Result<AFSDB, ProtoError>)
    requires
        start <= end <= packet@.len(),
    ensures
        match spec_parse_afsdb(packet@, start as int, end as int) {
            Some(v) => r matches Ok(x) && x@ == v,
            None => r is Err,
        },
{
    let (f0, f1) = match parse_u16_name(packet, start, end, "AFSDB") { Ok(x) => x, Err(e) => return Err(e) };
    Ok(AFSDB { subtype: f0, hostname: f1 })
}

/// Decode `AFSDB` RDATA from `packet[start..end]` as an [`RData`] value.
pub fn parse_afsdb(packet: &[u8], start: usize, end: usize) -> (r: Result<RData, ProtoError>)
    requires
        start <= end <= packet@.len(),
    ensures
        match spec_parse_afsdb(packet@, start as int, end as int) {
            Some(v) => r matches Ok(RData::AFSDB(x)) && x@ == v,
            None => r is Err,
        },
{
    match parse_afsdb_rdata(packet, start, end) {
        Ok(x) => Ok(RData::AFSDB(x)),
        Err(e) => Err(e),
    }
}

/// Append the `AFSDB` wire form, names uncompressed.
pub fn encode_afsdb(value: &AFSDB, out: &mut Vec<u8>) -> (r: Result<(), ProtoError>)
    ensures
        r is Ok,
        final(out)@ == old(out)@ + spec_encode_afsdb(value@),
{
    let ghost o = old(out)@;
    push_u16(out, value.subtype);
    push_bytes(out, value.hostname.wire());
    proof {
        assert(out@ =~= o + spec_encode_afsdb(value@));
    }
    Ok(())
}

/// Decoding the encoding of a valid `AFSDB` view gives the view back.
pub proof fn lemma_afsdb_roundtrip(v: (u16, Seq<u8>))
    requires
        spec_valid_afsdb(v),
    ensures
        spec_parse_afsdb(spec_encode_afsdb(v), 0, spec_encode_afsdb(v).len() as int) == Some(v),
{
    let b = spec_encode_afsdb(v);
    let o0: int = 0;
    let o1: int = o0 + 2;
    assert(b.subrange(o0, o1) =~= be16(v.0));
    lemma_read_be16(b, o0, v.0);
    let o2: int = o1 + v.1.len();
    assert(b.subrange(o1, o2) =~= v.1);
    lemma_parse_plain_name(b, o1, v.1);
    assert(b.len() == o2);
}

impl View for X25 {
    type V = Seq<u8>;

    open spec fn view(&self) -> Seq<u8> {
        self.psdn_address@
    }
}

/// Decoded form of `X25` RDATA held in `p[s..e]`.
pub open spec fn spec_parse_x25(p: Seq<u8>, s: int, e: int) -> Option<Seq<u8>> {
    spec_single_string_rdata(p, s, e)
}

/// Wire form of a `X25` view, names written uncompressed.
pub open spec fn spec_encode_x25(v: Seq<u8>) -> Option<Seq<u8>> {
    if v.len() > 255 { None } else { Some(seq![v.len() as u8] + v) }
}

/// Views that survive an encode and decode unchanged.
pub open spec fn spec_valid_x25(v: Seq<u8>) -> bool {
    v.len() <= 255
}

/// Decode `X25` RDATA from `packet[start..end]`.
pub fn parse_x25_rdata(packet: &[u8], start: usize, end: usize) -> (r: Result<X25, ProtoError>)
    requires
        start <= end <= packet@.len(),
    ensures
        match spec_parse_x25(packet@, start as int, end as int) {
            Some(v) => r matches Ok(x) && x@ == v,
            None => r is Err,
        },
{
    let f0 = match parse_single_character_string(packet, start, end, "X25") { Ok(x) => x, Err(e) => return Err(e) };
    Ok(X25 { psdn_address: f0 })
}

/// Decode `X25` RDATA from `packet[start..end]` as an [`RData`] value.
pub fn parse_x25(packet: &[u8], start: usize, end: usize) -> (r: Result<RData, ProtoError>)
    requires
        start <= end <= packet@.len(),
    ensures
        match spec_parse_x25(packet@, start as int, end as int) {
            Some(v) => r matches Ok(RData::X25(x)) && x@ == v,
            None => r is Err,
        },
{
    match parse_x25_rdata(packet, start, end) {
        Ok(x) => Ok(RData::X25(x)),
        Err(e) => Err(e),
    }
}

/// Append the `X25` wire form, names uncompressed.
pub fn encode_x25(value: &X25, out: &mut Vec<u8>) -> (r: Result<(), ProtoError>)
    ensures
        match spec_encode_x25(value@) {
            Some(b) => r is Ok && final(out)@ == old(out)@ + b,
            None => r is Err && final(out)@ == old(out)@,
        },
{
    if value.psdn_address.len() > 255 {
        return Err(ProtoError::protocol("X25 psdn_address exceeds 255 bytes"));
    }
    let ghost o = old(out)@;
    out.push(value.psdn_address.len() as u8);
    push_bytes(out, value.psdn_address.as_slice());
    proof {
        assert(out@ =~= o + spec_encode_x25(value@).unwrap());
    }
    Ok(())
}

/// Decoding the encoding of a valid `X25` view gives the view back.
pub proof fn lemma_x25_roundtrip(v: Seq<u8>)
    requires
        spec_valid_x25(v),
    ensures
        spec_encode_x25(v) is Some,
        spec_parse_x25(spec_encode_x25(v).unwrap(), 0, spec_encode_x25(v).unwrap().len() as int) == Some(v),
{
    let b = spec_encode_x25(v).unwrap();
    let o0: int = 0;
    let o1: int = o0 + (1 + v.len());
    assert(b.subrange(o0, o1) =~= seq![v.len() as u8] + v);
    assert(b[o0] == v.len());
    assert(b.subrange(o0 + 1, o1) =~= v);
    assert(b.len() == o1);
}

impl View for NSAP {
    type V = Seq<u8>;

    open spec fn view(&self) -> Seq<u8> {
        self.0@
    }
}

/// Decoded form of `NSAP` RDATA held in `p[s..e]`.
pub open spec fn spec_parse_nsap(p: Seq<u8>, s: int, e: int) -> Option<Seq<u8>> {
    if s > e {
        None
    } else {
        let f0 = p.subrange(s, e);
        Some(f0)
    }
}

/// Wire form of a `NSAP` view, names written uncompressed.
pub open spec fn spec_encode_nsap(v: Seq<u8>) -> Seq<u8> {
    v
}

/// Views that survive an encode and decode unchanged.
pub open spec fn spec_valid_nsap(v: Seq<u8>) -> bool {
    true
}

/// Decode `NSAP` RDATA from `packet[start..end]`.
pub fn parse_nsap_rdata(packet: &[u8], start: usize, end: usize) -> (r: Result<NSAP, ProtoError>)
    requires
        start <= end <= packet@.len(),
    ensures
        match spec_parse_nsap(packet@, start as int, end as int) {
            Some(v) => r matches Ok(x) && x@ == v,
            None => r is Err,
        },
{
    if start > end { return Err(ProtoError::protocol("invalid NSAP rdata length")); }
    let f0 = copy_range(packet, start, end);
    Ok(NSAP(f0))
}

/// Decode `NSAP` RDATA from `packet[start..end]` as an [`RData`] value.
pub fn parse_nsap(packet: &[u8], start: usize, end: usize) -> (r: Result<RData, ProtoError>)
    requires
        start <= end <= packet@.len(),
    ensures
        match spec_parse_nsap(packet@, start as int, end as int) {
            Some(v) => r matches Ok(RData::NSAP(x)) && x@ == v,
            None => r is Err,
        },
{
    match parse_nsap_rdata(packet, start, end) {
        Ok(x) => Ok(RData::NSAP(x)),
        Err(e) => Err(e),
    }
}

/// Append the `NSAP` wire form.
pub fn encode_nsap(value: &NSAP, out: &mut Vec<u8>)
    ensures
        final(out)@ == old(out)@ + spec_encode_nsap(value@),
{
    let ghost o = old(out)@;
    push_bytes(out, value.0.as_slice());
    proof {
        assert(out@ =~= o + spec_encode_nsap(value@));
    }
}

/// Decoding the encoding of a valid `NSAP` view gives the view back.
pub proof fn lemma_nsap_roundtrip(v: Seq<u8>)
    requires
        spec_valid_nsap(v),
    ensures
        spec_parse_nsap(spec_encode_nsap(v), 0, spec_encode_nsap(v).len() as int) == Some(v),
{
    let b = spec_encode_nsap(v);
    let o0: int = 0;
    let o1: int = o0 + v.len();
    assert(b.subrange(o0, o1) =~= v);
    assert(b.len() == o1);
}

impl View for EID {
    type V = Seq<u8>;

    open spec fn view(&self) -> Seq<u8> {
        self.0@
    }
}

/// Decoded form of `EID` RDATA held in `p[s..e]`.
pub open spec fn spec_parse_eid(p: Seq<u8>, s: int, e: int) -> Option<Seq<u8>> {
    if s > e {
        None
    } else {
        let f0 = p.subrange(s, e);
        Some(f0)
    }
}

/// Wire form of a `EID` view, names written uncompressed.
pub open spec fn spec_encode_eid(v: Seq<u8>) -> Seq<u8> {
    v
}

/// Views that survive an encode and decode unchanged.
pub open spec fn spec_valid_eid(v: Seq<u8>) -> bool {
    true
}

/// Decode `EID` RDATA from `packet[start..end]`.
pub fn parse_eid_rdata(packet: &[u8], start: usize, end: usize) -> (r: Result<EID, ProtoError>)
    requires
        start <= end <= packet@.len(),
    ensures
        match spec_parse_eid(packet@, start as int, end as int) {
            Some(v) => r matches Ok(x) && x@ == v,
            None => r is Err,
        },
{
    if start > end { return Err(ProtoError::protocol("invalid EID rdata length")); }
    let f0 = copy_range(packet, start, end);
    Ok(EID(f0))
}

/// Decode `EID` RDATA from `packet[start..end]` as an [`RData`] value.
pub fn parse_eid(packet: &[u8], start: usize, end: usize) -> (r: Result<RData, ProtoError>)
    requires
        start <= end <= packet@.len(),
    ensures
        match spec_parse_eid(packet@, start as int, end as int) {
            Some(v) => r matches Ok(RData::EID(x)) && x@ == v,
            None => r is Err,
        },
{
    match parse_eid_rdata(packet, start, end) {
        Ok(x) => Ok(RData::EID(x)),
        Err(e) => Err(e),
    }
}

/// Append the `EID` wire form.
pub fn encode_eid(value: &EID, out: &mut Vec<u8>)
    ensures
        final(out)@ == old(out)@ + spec_encode_eid(value@),
{
    let ghost o = old(out)@;
    push_bytes(out, value.0.as_slice());
    proof {
        assert(out@ =~= o + spec_encode_eid(value@));
    }
}

/// Decoding the encoding of a valid `EID` view gives the view back.
pub proof fn lemma_eid_roundtrip(v: Seq<u8>)
    requires
        spec_valid_eid(v),
    ensures
        spec_parse_eid(spec_encode_eid(v), 0, spec_encode_eid(v).len() as int) == Some(v),
{
    let b = spec_encode_eid(v);
    let o0: int = 0;
    let o1: int = o0 + v.len();
    assert(b.subrange(o0, o1) =~= v);
    assert(b.len() == o1);
}

impl View for NIMLOC {
    type V = Seq<u8>;

    open spec fn view(&self) -> Seq<u8> {
        self.0@
    }
}

/// Decoded form of `NIMLOC` RDATA held in `p[s..e]`.
pub open spec fn spec_parse_nimloc(p: Seq<u8>, s: int, e: int) -> Option<Seq<u8>> {
    if s > e {
        None
    } else {
        let f0 = p.subrange(s, e);
        Some(f0)
    }
}

/// Wire form of a `NIMLOC` view, names written uncompressed.
pub open spec fn spec_encode_nimloc(v: Seq<u8>) -> Seq<u8> {
    v
}

/// Views that survive an encode and decode unchanged.
pub open spec fn spec_valid_nimloc(v: Seq<u8>) -> bool {
    true
}

/// Decode `NIMLOC` RDATA from `packet[start..end]`.
pub fn parse_nimloc_rdata(packet: &[u8], start: usize, end: usize) -> (r: Result<NIMLOC, ProtoError>)
    requires
        start <= end <= packet@.len(),
    ensures
        match spec_parse_nimloc(packet@, start as int, end as int) {
            Some(v) => r matches Ok(x) && x@ == v,
            None => r is Err,
        },
{
    if start > end { return Err(ProtoError::protocol("invalid NIMLOC rdata length")); }
    let f0 = copy_range(packet, start, end);
    Ok(NIMLOC(f0))
}

/// Decode `NIMLOC` RDATA from `packet[start..end]` as an [`RData`] value.
pub fn parse_nimloc(packet: &[u8], start: usize, end: usize) -> (r: Result<RData, ProtoError>)
    requires
        start <= end <= packet@.len(),
    ensures
        match spec_parse_nimloc(packet@, start as int, end as int) {
            Some(v) => r matches Ok(RData::NIMLOC(x)) && x@ == v,
            None => r is Err,
        },
{
    match parse_nimloc_rdata(packet, start, end) {
        Ok(x) => Ok(RData::NIMLOC(x)),
        Err(e) => Err(e),
    }
}

/// Append the `NIMLOC` wire form.
pub fn encode_nimloc(value: &NIMLOC, out: &mut Vec<u8>)
    ensures
        final(out)@ == old(out)@ + spec_encode_nimloc(value@),
{
    let ghost o = old(out)@;
    push_bytes(out, value.0.as_slice());
    proof {
        assert(out@ =~= o + spec_encode_nimloc(value@));
    }
}

/// Decoding the encoding of a valid `NIMLOC` view gives the view back.
pub proof fn lemma_nimloc_roundtrip(v: Seq<u8>)
    requires
        spec_valid_nimloc(v),
    ensures
        spec_parse_nimloc(spec_encode_nimloc(v), 0, spec_encode_nimloc(v).len() as int) == Some(v),
{
    let b = spec_encode_nimloc(v);
    let o0: int = 0;
    let o1: int = o0 + v.len();
    assert(b.subrange(o0, o1) =~= v);
    assert(b.len() == o1);
}

impl View for ATMA {
    type V = Seq<u8>;

    open spec fn view(&self) -> Seq<u8> {
        self.0@
    }
}

/// Decoded form of `ATMA` RDATA held in `p[s..e]`.
pub open spec fn spec_parse_atma(p: Seq<u8>, s: int, e: int) -> Option<Seq<u8>> {
    if s > e {
        None
    } else {
        let f0 = p.subrange(s, e);
        Some(f0)
    }
}

/// Wire form of a `ATMA` view, names written uncompressed.
pub open spec fn spec_encode_atma(v: Seq<u8>) -> Seq<u8> {
    v
}

/// Views that survive an encode and decode unchanged.
pub open spec fn spec_valid_atma(v: Seq<u8>) -> bool {
    true
}

/// Decode `ATMA` RDATA from `packet[start..end]`.
pub fn parse_atma_rdata(packet: &[u8], start: usize, end: usize) -> (r: Result<ATMA, ProtoError>)
    requires
        start <= end <= packet@.len(),
    ensures
        match spec_parse_atma(packet@, start as int, end as int) {
            Some(v) => r matches Ok(x) && x@ == v,
            None => r is Err,
        },
{
    if start > end { return Err(ProtoError::protocol("invalid ATMA rdata length")); }
    let f0 = copy_range(packet, start, end);
    Ok(ATMA(f0))
}

/// Decode `ATMA` RDATA from `packet[start..end]` as an [`RData`] value.
pub fn parse_atma(packet: &[u8], start: usize, end: usize) -> (r: Result<RData, ProtoError>)
    requires
        start <= end <= packet@.len(),
    ensures
        match spec_parse_atma(packet@, start as int, end as int) {
            Some(v) => r matches Ok(RData::ATMA(x)) && x@ == v,
            None => r is Err,
        },
{
    match parse_atma_rdata(packet, start, end) {
        Ok(x) => Ok(RData::ATMA(x)),
        Err(e) => Err(e),
    }
}

/// Append the `ATMA` wire form.
pub fn encode_atma(value: &ATMA, out: &mut Vec<u8>)
    ensures
        final(out)@ == old(out)@ + spec_encode_atma(value@),
{
    let ghost o = old(out)@;
    push_bytes(out, value.0.as_slice());
    proof {
        assert(out@ =~= o + spec_encode_atma(value@));
    }
}

/// Decoding the encoding of a valid `ATMA` view gives the view back.
pub proof fn lemma_atma_roundtrip(v: Seq<u8>)
    requires
        spec_valid_atma(v),
    ensures
        spec_parse_atma(spec_encode_atma(v), 0, spec_encode_atma(v).len() as int) == Some(v),
{
    let b = spec_encode_atma(v);
    let o0: int = 0;
    let o1: int = o0 + v.len();
    assert(b.subrange(o0, o1) =~= v);
    assert(b.len() == o1);
}

impl View for UINFO {
    type V = Seq<u8>;

    open spec fn view(&self) -> Seq<u8> {
        self.0@
    }
}

/// Decoded form of `UINFO` RDATA held in `p[s..e]`.
pub open spec fn spec_parse_uinfo(p: Seq<u8>, s: int, e: int) -> Option<Seq<u8>> {
    if s > e {
        None
    } else {
        let f0 = p.subrange(s, e);
        Some(f0)
    }
}

/// Wire form of a `UINFO` view, names written uncompressed.
pub open spec fn spec_encode_uinfo(v: Seq<u8>) -> Seq<u8> {
    v
}

/// Views that survive an encode and decode unchanged.
pub open spec fn spec_valid_uinfo(v: Seq<u8>) -> bool {
    true
}

/// Decode `UINFO` RDATA from `packet[start..end]`.
pub fn parse_uinfo_rdata(packet: &[u8], start: usize, end: usize) -> (r: Result<UINFO, ProtoError>)
    requires
        start <= end <= packet@.len(),
    ensures
        match spec_parse_uinfo(packet@, start as int, end as int) {
            Some(v) => r matches Ok(x) && x@ == v,
            None => r is Err,
        },
{
    if start > end { return Err(ProtoError::protocol("invalid UINFO rdata length")); }
    let f0 = copy_range(packet, start, end);
    Ok(UINFO(f0))
}

/// Decode `UINFO` RDATA from `packet[start..end]` as an [`RData`] value.
pub fn parse_uinfo(packet: &[u8], start: usize, end: usize) -> (r: Result<RData, ProtoError>)
    requires
        start <= end <= packet@.len(),
    ensures
        match spec_parse_uinfo(packet@, start as int, end as int) {
            Some(v) => r matches Ok(RData::UINFO(x)) && x@ == v,
            None => r is Err,
        },
{
    match parse_uinfo_rdata(packet, start, end) {
        Ok(x) => Ok(RData::UINFO(x)),
        Err(e) => Err(e),
    }
}

/// Append the `UINFO` wire form.
pub fn encode_uinfo(value: &UINFO, out: &mut Vec<u8>)
    ensures
        final(out)@ == old(out)@ + spec_encode_uinfo(value@),
{
    let ghost o = old(out)@;
    push_bytes(out, value.0.as_slice());
    proof {
        assert(out@ =~= o + spec_encode_uinfo(value@));
    }
}

/// Decoding the encoding of a valid `UINFO` view gives the view back.
pub proof fn lemma_uinfo_roundtrip(v: Seq<u8>)
    requires
        spec_valid_uinfo(v),
    ensures
        spec_parse_uinfo(spec_encode_uinfo(v), 0, spec_encode_uinfo(v).len() as int) == Some(v),
{
    let b = spec_encode_uinfo(v);
    let o0: int = 0;
    let o1: int = o0 + v.len();
    assert(b.subrange(o0, o1) =~= v);
    assert(b.len() == o1);
}

impl View for UNSPEC {
    type V = Seq<u8>;

    open spec fn view(&self) -> Seq<u8> {
        self.0@
    }
}

/// Decoded form of `UNSPEC` RDATA held in `p[s..e]`.
pub open spec fn spec_parse_unspec(p: Seq<u8>, s: int, e: int) -> Option<Seq<u8>> {
    if s > e {
        None
    } else {
        let f0 = p.subrange(s, e);
        Some(f0)
    }
}

/// Wire form of a `UNSPEC` view, names written uncompressed.
pub open spec fn spec_encode_unspec(v: Seq<u8>) -> Seq<u8> {
    v
}

/// Views that survive an encode and decode unchanged.
pub open spec fn spec_valid_unspec(v: Seq<u8>) -> bool {
    true
}

/// Decode `UNSPEC` RDATA from `packet[start..end]`.
pub fn parse_unspec_rdata(packet: &[u8], start: usize, end: usize) -> (r: Result<UNSPEC, ProtoError>)
    requires
        start <= end <= packet@.len(),
    ensures
        match spec_parse_unspec(packet@, start as int, end as int) {
            Some(v) => r matches Ok(x) && x@ == v,
            None => r is Err,
        },
{
    if start > end { return Err(ProtoError::protocol("invalid UNSPEC rdata length")); }
    let f0 = copy_range(packet, start, end);
    Ok(UNSPEC(f0))
}

/// Decode `UNSPEC` RDATA from `packet[start..end]` as an [`RData`] value.
pub fn parse_unspec(packet: &[u8], start: usize, end: usize) -> (r: Result<RData, ProtoError>)
    requires
        start <= end <= packet@.len(),
    ensures
        match spec_parse_unspec(packet@, start as int, end as int) {
            Some(v) => r matches Ok(RData::UNSPEC(x)) && x@ == v,
            None => r is Err,
        },
{
    match parse_unspec_rdata(packet, start, end) {
        Ok(x) => Ok(RData::UNSPEC(x)),
        Err(e) => Err(e),
    }
}

/// Append the `UNSPEC` wire form.
pub fn encode_unspec(value: &UNSPEC, out: &mut Vec<u8>)
    ensures
        final(out)@ == old(out)@ + spec_encode_unspec(value@),
{
    let ghost o = old(out)@;
    push_bytes(out, value.0.as_slice());
    proof {
        assert(out@ =~= o + spec_encode_unspec(value@));
    }
}

/// Decoding the encoding of a valid `UNSPEC` view gives the view back.
pub proof fn lemma_unspec_roundtrip(v: Seq<u8>)
    requires
        spec_valid_unspec(v),
    ensures
        spec_parse_unspec(spec_encode_unspec(v), 0, spec_encode_unspec(v).len() as int) == Some(v),
{
    let b = spec_encode_unspec(v);
    let o0: int = 0;
    let o1: int = o0 + v.len();
    assert(b.subrange(o0, o1) =~= v);
    assert(b.len() == o1);
}

impl View for RT {
    type V = (u16, Seq<u8>);

    open spec fn view(&self) -> (u16, Seq<u8>) {
        (self.preference, self.host@)
    }
}

/// Decoded form of `RT` RDATA held in `p[s..e]`.
pub open spec fn spec_parse_rt(p: Seq<u8>, s: int, e: int) -> Option<(u16, Seq<u8>)> {
    spec_u16_name_rdata(p, s, e)
}

/// Wire form of a `RT` view, names written uncompressed.
pub open spec fn spec_encode_rt(v: (u16, Seq<u8>)) -> Seq<u8> {
    be16(v.0) + v.1
}

/// Views that survive an encode and decode unchanged.
pub open spec fn spec_valid_rt(v: (u16, Seq<u8>)) -> bool {
    name_wire_ok(v.1)
}

/// Decode `RT` RDATA from `packet[start..end]`.
pub fn parse_rt_rdata(packet: &[u8], start: usize, end: usize) -> (r: Result<RT, ProtoError>)
    requires
        start <= end <= packet@.len(),
    ensures
        match spec_parse_rt(packet@, start as int, end as int) {
            Some(v) => r matches Ok(x) && x@ == v,
            None => r is Err,
        },
{
    let (f0, f1) = match parse_u16_name(packet, start, end, "RT") { Ok(x) => x, Err(e) => return Err(e) };
    Ok(RT { preference: f0, host: f1 })
}

/// Decode `RT` RDATA from `packet[start..end]` as an [`RData`] value.
pub fn parse_rt(packet: &[u8], start: usize, end: usize) -> (r: Result<RData, ProtoError>)
    requires
        start <= end <= packet@.len(),
    ensures
        match spec_parse_rt(packet@, start as int, end as int) {
            Some(v) => r matches Ok(RData::RT(x)) && x@ == v,
            None => r is Err,
        },
{
    match parse_rt_rdata(packet, start, end) {
        Ok(x) => Ok(RData::RT(x)),
        Err(e) => Err(e),
    }
}

/// Append the `RT` wire form, names uncompressed.
pub fn encode_rt(value: &RT, out: &mut Vec<u8>) -> (r: Result<(), ProtoError>)
    ensures
        r is Ok,
        final(out)@ == old(out)@ + spec_encode_rt(value@),
{
    let ghost o = old(out)@;
    push_u16(out, value.preference);
    push_bytes(out, value.host.wire());
    proof {
        assert(out@ =~= o + spec_encode_rt(value@));
    }
    Ok(())
}

/// Decoding the encoding of a valid `RT` view gives the view back.
pub proof fn lemma_rt_roundtrip(v: (u16, Seq<u8>))
    requires
        spec_valid_rt(v),
    ensures
        spec_parse_rt(spec_encode_rt(v), 0, spec_encode_rt(v).len() as int) == Some(v),
{
    let b = spec_encode_rt(v);
    let o0: int = 0;
    let o1: int = o0 + 2;
    assert(b.subrange(o0, o1) =~= be16(v.0));
    lemma_read_be16(b, o0, v.0);
    let o2: int = o1 + v.1.len();
    assert(b.subrange(o1, o2) =~= v.1);
    lemma_parse_plain_name(b, o1, v.1);
    assert(b.len() == o2);
}

impl View for PX {
    type V = (u16, Seq<u8>, Seq<u8>);

    open spec fn view(&self) -> (u16, Seq<u8>, Seq<u8>) {
        (self.preference, self.map822@, self.mapx400@)
    }
}

/// Decoded form of `PX` RDATA held in `p[s..e]`.
pub open spec fn spec_parse_px(p: Seq<u8>, s: int, e: int) -> Option<(u16, Seq<u8>, Seq<u8>)> {
    if s + 2 > e {
        None
    } else {
        let f0 = spec_u16_at(p, s);
        let c1 = s + 2;
        match spec_parse_name(p, c1) {
            None => None,
            Some((f1, c2)) => {
                match spec_parse_name(p, c2) {
                    None => None,
                    Some((f2, c3)) => {
                        if c3 != e {
                            None
                        } else {
                            Some((f0, f1, f2))
                        }
                    },
                }
            },
        }
    }
}

/// Wire form of a `PX` view, names written uncompressed.
pub open spec fn spec_encode_px(v: (u16, Seq<u8>, Seq<u8>)) -> Seq<u8> {
    be16(v.0) + v.1 + v.2
}

/// Views that survive an encode and decode unchanged.
pub open spec fn spec_valid_px(v: (u16, Seq<u8>, Seq<u8>)) -> bool {
    name_wire_ok(v.1) && name_wire_ok(v.2)
}

/// Decode `PX` RDATA from `packet[start..end]`.
pub fn parse_px_rdata(packet: &[u8], start: usize, end: usize) -> (r: Result<PX, ProtoError>)
    requires
        start <= end <= packet@.len(),
    ensures
        match spec_parse_px(packet@, start as int, end as int) {
            Some(v) => r matches Ok(x) && x@ == v,
            None => r is Err,
        },
{
    if start > end || end - start < 2 { return Err(ProtoError::protocol("invalid PX rdata length")); }
    let f0 = read_u16_be(packet, start);
    let c1 = start + 2;
    let (f1, c2) = match Name::parse(packet, c1) { Ok(x) => x, Err(e) => return Err(e) };
    let (f2, c3) = match Name::parse(packet, c2) { Ok(x) => x, Err(e) => return Err(e) };
    if c3 != end { return Err(ProtoError::protocol("invalid PX rdata length")); }
    Ok(PX { preference: f0, map822: f1, mapx400: f2 })
}

/// Decode `PX` RDATA from `packet[start..end]` as an [`RData`] value.
pub fn parse_px(packet: &[u8], start: usize, end: usize) -> (r: Result<RData, ProtoError>)
    requires
        start <= end <= packet@.len(),
    ensures
        match spec_parse_px(packet@, start as int, end as int) {
            Some(v) => r matches Ok(RData::PX(x)) && x@ == v,
            None => r is Err,
        },
{
    match parse_px_rdata(packet, start, end) {
        Ok(x) => Ok(RData::PX(x)),
        Err(e) => Err(e),
    }
}

/// Append the `PX` wire form, names uncompressed.
pub fn encode_px(value: &PX, out: &mut Vec<u8>) -> (r: Result<(), ProtoError>)
    ensures
        r is Ok,
        final(out)@ == old(out)@ + spec_encode_px(value@),
{
    let ghost o = old(out)@;
    push_u16(out, value.preference);
    push_bytes(out, value.map822.wire());
    push_bytes(out, value.mapx400.wire());
    proof {
        assert(out@ =~= o + spec_encode_px(value@));
    }
    Ok(())
}

/// Decoding the encoding of a valid `PX` view gives the view back.
pub proof fn lemma_px_roundtrip(v: (u16, Seq<u8>, Seq<u8>))
    requires
        spec_valid_px(v),
    ensures
        spec_parse_px(spec_encode_px(v), 0, spec_encode_px(v).len() as int) == Some(v),
{
    let b = spec_encode_px(v);
    let o0: int = 0;
    let o1: int = o0 + 2;
    assert(b.subrange(o0, o1) =~= be16(v.0));
    lemma_read_be16(b, o0, v.0);
    let o2: int = o1 + v.1.len();
    assert(b.subrange(o1, o2) =~= v.1);
    lemma_parse_plain_name(b, o1, v.1);
    let o3: int = o2 + v.2.len();
    assert(b.subrange(o2, o3) =~= v.2);
    lemma_parse_plain_name(b, o2, v.2);
    assert(b.len() == o3);
}

impl View for GPOS {
    type V = (Seq<u8>, Seq<u8>, Seq<u8>);

    open spec fn view(&self) -> (Seq<u8>, Seq<u8>, Seq<u8>) {
        (self.longitude@, self.latitude@, self.altitude@)
    }
}

/// Decoded form of `GPOS` RDATA held in `p[s..e]`.
pub open spec fn spec_parse_gpos(p: Seq<u8>, s: int, e: int) -> Option<(Seq<u8>, Seq<u8>, Seq<u8>)> {
    match spec_cstr(p, s, e) {
        None => None,
        Some((f0, c1)) => {
            match spec_cstr(p, c1, e) {
                None => None,
                Some((f1, c2)) => {
                    match spec_cstr(p, c2, e) {
                        None => None,
                        Some((f2, c3)) => {
                            if c3 != e {
                                None
                            } else {
                                Some((f0, f1, f2))
                            }
                        },
                    }
                },
            }
        },
    }
}

/// Wire form of a `GPOS` view, names written uncompressed.
pub open spec fn spec_encode_gpos(v: (Seq<u8>, Seq<u8>, Seq<u8>)) -> Option<Seq<u8>> {
    if v.0.len() > 255 || v.1.len() > 255 || v.2.len() > 255 { None } else { Some(seq![v.0.len() as u8] + v.0 + seq![v.1.len() as u8] + v.1 + seq![v.2.len() as u8] + v.2) }
}

/// Views that survive an encode and decode unchanged.
pub open spec fn spec_valid_gpos(v: (Seq<u8>, Seq<u8>, Seq<u8>)) -> bool {
    v.0.len() <= 255 && v.1.len() <= 255 && v.2.len() <= 255
}

/// Decode `GPOS` RDATA from `packet[start..end]`.
pub fn parse_gpos_rdata(packet: &[u8], start: usize, end: usize) -> (r: Result<GPOS, ProtoError>)
    requires
        start <= end <= packet@.len(),
    ensures
        match spec_parse_gpos(packet@, start as int, end as int) {
            Some(v) => r matches Ok(x) && x@ == v,
            None => r is Err,
        },
{
    let (f0, c1) = match parse_character_string(packet, start, end) { Ok(x) => x, Err(e) => return Err(e) };
    let (f1, c2) = match parse_character_string(packet, c1, end) { Ok(x) => x, Err(e) => return Err(e) };
    let (f2, c3) = match parse_character_string(packet, c2, end) { Ok(x) => x, Err(e) => return Err(e) };
    if c3 != end { return Err(ProtoError::protocol("invalid GPOS rdata length")); }
    Ok(GPOS { longitude: f0, latitude: f1, altitude: f2 })
}

/// Decode `GPOS` RDATA from `packet[start..end]` as an [`RData`] value.
pub fn parse_gpos(packet: &[u8], start: usize, end: usize) -> (r: Result<RData, ProtoError>)
    requires
        start <= end <= packet@.len(),
    ensures
        match spec_parse_gpos(packet@, start as int, end as int) {
            Some(v) => r matches Ok(RData::GPOS(x)) && x@ == v,
            None => r is Err,
        },
{
    match parse_gpos_rdata(packet, start, end) {
        Ok(x) => Ok(RData::GPOS(x)),
        Err(e) => Err(e),
    }
}

/// What a failed `GPOS` write leaves: the strings before the first one
/// longer than 255 octets.
pub open spec fn spec_gpos_written(v: (Seq<u8>, Seq<u8>, Seq<u8>)) -> Seq<u8> {
    if v.0.len() > 255 {
        Seq::<u8>::empty()
    } else if v.1.len() > 255 {
        seq![v.0.len() as u8] + v.0
    } else {
        seq![v.0.len() as u8] + v.0 + seq![v.1.len() as u8] + v.1
    }
}

/// Append the `GPOS` wire form, names uncompressed.
pub fn encode_gpos(value: &GPOS, out: &mut Vec<u8>) -> (r: Result<(), ProtoError>)
    ensures
        match spec_encode_gpos(value@) {
            Some(b) => r is Ok && final(out)@ == old(out)@ + b,
            None => r is Err && final(out)@ == old(out)@ + spec_gpos_written(value@),
        },
{
    let ghost o = old(out)@;
    if value.longitude.len() > 255 {
        return Err(ProtoError::protocol("GPOS longitude exceeds 255 bytes"));
    }
    out.push(value.longitude.len() as u8);
    push_bytes(out, value.longitude.as_slice());
    if value.latitude.len() > 255 {
        proof {
            assert(out@ =~= o + seq![value.longitude@.len() as u8] + value.longitude@);
        }
        return Err(ProtoError::protocol("GPOS latitude exceeds 255 bytes"));
    }
    out.push(value.latitude.len() as u8);
    push_bytes(out, value.latitude.as_slice());
    if value.altitude.len() > 255 {
        proof {
            assert(out@ =~= o + seq![value.longitude@.len() as u8] + value.longitude@ + seq![value.latitude@.len() as u8]
                + value.latitude@);
        }
        return Err(ProtoError::protocol("GPOS altitude exceeds 255 bytes"));
    }
    out.push(value.altitude.len() as u8);
    push_bytes(out, value.altitude.as_slice());
    proof {
        assert(out@ =~= o + spec_encode_gpos(value@).unwrap());
    }
    Ok(())
}

/// Decoding the encoding of a valid `GPOS` view gives the view back.
pub proof fn lemma_gpos_roundtrip(v: (Seq<u8>, Seq<u8>, Seq<u8>))
    requires
        spec_valid_gpos(v),
    ensures
        spec_encode_gpos(v) is Some,
        spec_parse_gpos(spec_encode_gpos(v).unwrap(), 0, spec_encode_gpos(v).unwrap().len() as int) == Some(v),
{
    let b = spec_encode_gpos(v).unwrap();
    let o0: int = 0;
    let o1: int = o0 + (1 + v.0.len());
    assert(b.subrange(o0, o1) =~= seq![v.0.len() as u8] + v.0);
    assert(b[o0] == v.0.len());
    assert(b.subrange(o0 + 1, o1) =~= v.0);
    let o2: int = o1 + (1 + v.1.len());
    assert(b.subrange(o1, o2) =~= seq![v.1.len() as u8] + v.1);
    assert(b[o1] == v.1.len());
    assert(b.subrange(o1 + 1, o2) =~= v.1);
    let o3: int = o2 + (1 + v.2.len());
    assert(b.subrange(o2, o3) =~= seq![v.2.len() as u8] + v.2);
    assert(b[o2] == v.2.len());
    assert(b.subrange(o2 + 1, o3) =~= v.2);
    assert(b.len() == o3);
}

impl View for LOC {
    type V = (u8, u8, u8, u8, u32, u32, u32);

    open spec fn view(&self) -> (u8, u8, u8, u8, u32, u32, u32) {
        (self.version, self.size, self.horiz_pre, self.vert_pre, self.latitude, self.longitude, self.altitude)
    }
}

/// Decoded form of `LOC` RDATA held in `p[s..e]`.
pub open spec fn spec_parse_loc(p: Seq<u8>, s: int, e: int) -> Option<(u8, u8, u8, u8, u32, u32, u32)> {
    if s + 1 > e {
        None
    } else {
        let f0 = p[s];
        let c1 = s + 1;
        if c1 + 1 > e {
            None
        } else {
            let f1 = p[c1];
            let c2 = c1 + 1;
            if c2 + 1 > e {
                None
            } else {
                let f2 = p[c2];
                let c3 = c2 + 1;
                if c3 + 1 > e {
                    None
                } else {
                    let f3 = p[c3];
                    let c4 = c3 + 1;
                    if c4 + 4 > e {
                        None
                    } else {
                        let f4 = spec_u32_at(p, c4);
                        let c5 = c4 + 4;
                        if c5 + 4 > e {
                            None
                        } else {
                            let f5 = spec_u32_at(p, c5);
                            let c6 = c5 + 4;
                            if c6 + 4 > e {
                                None
                            } else {
                                let f6 = spec_u32_at(p, c6);
                                let c7 = c6 + 4;
                                if c7 != e {
                                    None
                                } else {
                                    Some((f0, f1, f2, f3, f4, f5, f6))
                                }
                            }
                        }
                    }
                }
            }
        }
    }
}

/// Wire form of a `LOC` view, names written uncompressed.
pub open spec fn spec_encode_loc(v: (u8, u8, u8, u8, u32, u32, u32)) -> Seq<u8> {
    seq![v.0] + seq![v.1] + seq![v.2] + seq![v.3] + be32(v.4) + be32(v.5) + be32(v.6)
}

/// Views that survive an encode and decode unchanged.
pub open spec fn spec_valid_loc(v: (u8, u8, u8, u8, u32, u32, u32)) -> bool {
    true
}

/// Decode `LOC` RDATA from `packet[start..end]`.
pub fn parse_loc_rdata(packet: &[u8], start: usize, end: usize) -> (r: Result<LOC, ProtoError>)
    requires
        start <= end <= packet@.len(),
    ensures
        match spec_parse_loc(packet@, start as int, end as int) {
            Some(v) => r matches Ok(x) && x@ == v,
            None => r is Err,
        },
{
    if start > end || end - start < 1 { return Err(ProtoError::protocol("invalid LOC rdata length")); }
    let f0 = packet[start];
    let c1 = start + 1;
    if c1 > end || end - c1 < 1 { return Err(ProtoError::protocol("invalid LOC rdata length")); }
    let f1 = packet[c1];
    let c2 = c1 + 1;
    if c2 > end || end - c2 < 1 { return Err(ProtoError::protocol("invalid LOC rdata length")); }
    let f2 = packet[c2];
    let c3 = c2 + 1;
    if c3 > end || end - c3 < 1 { return Err(ProtoError::protocol("invalid LOC rdata length")); }
    let f3 = packet[c3];
    let c4 = c3 + 1;
    if c4 > end || end - c4 < 4 { return Err(ProtoError::protocol("invalid LOC rdata length")); }
    let f4 = read_u32_be(packet, c4);
    let c5 = c4 + 4;
    if c5 > end || end - c5 < 4 { return Err(ProtoError::protocol("invalid LOC rdata length")); }
    let f5 = read_u32_be(packet, c5);
    let c6 = c5 + 4;
    if c6 > end || end - c6 < 4 { return Err(ProtoError::protocol("invalid LOC rdata length")); }
    let f6 = read_u32_be(packet, c6);
    let c7 = c6 + 4;
    if c7 != end { return Err(ProtoError::protocol("invalid LOC rdata length")); }
    Ok(LOC { version: f0, size: f1, horiz_pre: f2, vert_pre: f3, latitude: f4, longitude: f5, altitude: f6 })
}

/// Decode `LOC` RDATA from `packet[start..end]` as an [`RData`] value.
pub fn parse_loc(packet: &[u8], start: usize, end: usize) -> (r: Result<RData, ProtoError>)
    requires
        start <= end <= packet@.len(),
    ensures
        match spec_parse_loc(packet@, start as int, end as int) {
            Some(v) => r matches Ok(RData::LOC(x)) && x@ == v,
            None => r is Err,
        },
{
    match parse_loc_rdata(packet, start, end) {
        Ok(x) => Ok(RData::LOC(x)),
        Err(e) => Err(e),
    }
}

/// Append the `LOC` wire form.
pub fn encode_loc(value: &LOC, out: &mut Vec<u8>)
    ensures
        final(out)@ == old(out)@ + spec_encode_loc(value@),
{
    let ghost o = old(out)@;
    out.push(value.version);
    out.push(value.size);
    out.push(value.horiz_pre);
    out.push(value.vert_pre);
    push_u32(out, value.latitude);
    push_u32(out, value.longitude);
    push_u32(out, value.altitude);
    proof {
        assert(out@ =~= o + spec_encode_loc(value@));
    }
}

/// Decoding the encoding of a valid `LOC` view gives the view back.
#[verifier::spinoff_prover]
#[verifier::rlimit(50)]
pub proof fn lemma_loc_roundtrip(v: (u8, u8, u8, u8, u32, u32, u32))
    requires
        spec_valid_loc(v),
    ensures
        spec_parse_loc(spec_encode_loc(v), 0, spec_encode_loc(v).len() as int) == Some(v),
{
    let b = spec_encode_loc(v);
    let o0: int = 0;
    let o1: int = o0 + 1;
    assert(b.subrange(o0, o1) =~= seq![v.0]);
    assert(b[o0] == v.0);
    let o2: int = o1 + 1;
    assert(b.subrange(o1, o2) =~= seq![v.1]);
    assert(b[o1] == v.1);
    let o3: int = o2 + 1;
    assert(b.subrange(o2, o3) =~= seq![v.2]);
    assert(b[o2] == v.2);
    let o4: int = o3 + 1;
    assert(b.subrange(o3, o4) =~= seq![v.3]);
    assert(b[o3] == v.3);
    let o5: int = o4 + 4;
    assert(b.subrange(o4, o5) =~= be32(v.4));
    lemma_read_be32(b, o4, v.4);
    let o6: int = o5 + 4;
    assert(b.subrange(o5, o6) =~= be32(v.5));
    lemma_read_be32(b, o5, v.5);
    let o7: int = o6 + 4;
    assert(b.subrange(o6, o7) =~= be32(v.6));
    lemma_read_be32(b, o6, v.6);
    assert(b.len() == o7);
}

impl View for SINK {
    type V = (u8, u8, Seq<u8>);

    open spec fn view(&self) -> (u8, u8, Seq<u8>) {
        (self.coding, self.subcoding, self.data@)
    }
}

/// Decoded form of `SINK` RDATA held in `p[s..e]`.
pub open spec fn spec_parse_sink(p: Seq<u8>, s: int, e: int) -> Option<(u8, u8, Seq<u8>)> {
    if s + 1 > e {
        None
    } else {
        let f0 = p[s];
        let c1 = s + 1;
        if c1 + 1 > e {
            None
        } else {
            let f1 = p[c1];
            let c2 = c1 + 1;
            if c2 > e {
                None
            } else {
                let f2 = p.subrange(c2, e);
                Some((f0, f1, f2))
            }
        }
    }
}

/// Wire form of a `SINK` view, names written uncompressed.
pub open spec fn spec_encode_sink(v: (u8, u8, Seq<u8>)) -> Seq<u8> {
    seq![v.0] + seq![v.1] + v.2
}

/// Views that survive an encode and decode unchanged.
pub open spec fn spec_valid_sink(v: (u8, u8, Seq<u8>)) -> bool {
    true
}

/// Decode `SINK` RDATA from `packet[start..end]`.
pub fn parse_sink_rdata(packet: &[u8], start: usize, end: usize) -> (r: Result<SINK, ProtoError>)
    requires
        start <= end <= packet@.len(),
    ensures
        match spec_parse_sink(packet@, start as int, end as int) {
            Some(v) => r matches Ok(x) && x@ == v,
            None => r is Err,
        },
{
    if start > end || end - start < 1 { return Err(ProtoError::protocol("invalid SINK rdata length")); }
    let f0 = packet[start];
    let c1 = start + 1;
    if c1 > end || end - c1 < 1 { return Err(ProtoError::protocol("invalid SINK rdata length")); }
    let f1 = packet[c1];
    let c2 = c1 + 1;
    if c2 > end { return Err(ProtoError::protocol("invalid SINK rdata length")); }
    let f2 = copy_range(packet, c2, end);
    Ok(SINK { coding: f0, subcoding: f1, data: f2 })
}

/// Decode `SINK` RDATA from `packet[start..end]` as an [`RData`] value.
pub fn parse_sink(packet: &[u8], start: usize, end: usize) -> (r: Result<RData, ProtoError>)
    requires
        start <= end <= packet@.len(),
    ensures
        match spec_parse_sink(packet@, start as int, end as int) {
            Some(v) => r matches Ok(RData::SINK(x)) && x@ == v,
            None => r is Err,
        },
{
    match parse_sink_rdata(packet, start, end) {
        Ok(x) => Ok(RData::SINK(x)),
        Err(e) => Err(e),
    }
}

/// Append the `SINK` wire form.
pub fn encode_sink(value: &SINK, out: &mut Vec<u8>)
    ensures
        final(out)@ == old(out)@ + spec_encode_sink(value@),
{
    let ghost o = old(out)@;
    out.push(value.coding);
    out.push(value.subcoding);
    push_bytes(out, value.data.as_slice());
    proof {
        assert(out@ =~= o + spec_encode_sink(value@));
    }
}

/// Decoding the encoding of a valid `SINK` view gives the view back.
pub proof fn lemma_sink_roundtrip(v: (u8, u8, Seq<u8>))
    requires
        spec_valid_sink(v),
    ensures
        spec_parse_sink(spec_encode_sink(v), 0, spec_encode_sink(v).len() as int) == Some(v),
{
    let b = spec_encode_sink(v);
    let o0: int = 0;
    let o1: int = o0 + 1;
    assert(b.subrange(o0, o1) =~= seq![v.0]);
    assert(b[o0] == v.0);
    let o2: int = o1 + 1;
    assert(b.subrange(o1, o2) =~= seq![v.1]);
    assert(b[o1] == v.1);
    let o3: int = o2 + v.2.len();
    assert(b.subrange(o2, o3) =~= v.2);
    assert(b.len() == o3);
}

impl View for UID {
    type V = u32;

    open spec fn view(&self) -> u32 {
        self.0
    }
}

/// Decoded form of `UID` RDATA held in `p[s..e]`.
pub open spec fn spec_parse_uid(p: Seq<u8>, s: int, e: int) -> Option<u32> {
    if s + 4 > e {
        None
    } else {
        let f0 = spec_u32_at(p, s);
        let c1 = s + 4;
        if c1 != e {
            None
        } else {
            Some(f0)
        }
    }
}

/// Wire form of a `UID` view, names written uncompressed.
pub open spec fn spec_encode_uid(v: u32) -> Seq<u8> {
    be32(v)
}

/// Views that survive an encode and decode unchanged.
pub open spec fn spec_valid_uid(v: u32) -> bool {
    true
}

/// Decode `UID` RDATA from `packet[start..end]`.
pub fn parse_uid_rdata(packet: &[u8], start: usize, end: usize) -> (r: Result<UID, ProtoError>)
    requires
        start <= end <= packet@.len(),
    ensures
        match spec_parse_uid(packet@, start as int, end as int) {
            Some(v) => r matches Ok(x) && x@ == v,
            None => r is Err,
        },
{
    if start > end || end - start < 4 { return Err(ProtoError::protocol("invalid UID rdata length")); }
    let f0 = read_u32_be(packet, start);
    let c1 = start + 4;
    if c1 != end { return Err(ProtoError::protocol("invalid UID rdata length")); }
    Ok(UID(f0))
}

/// Decode `UID` RDATA from `packet[start..end]` as an [`RData`] value.
pub fn parse_uid(packet: &[u8], start: usize, end: usize) -> (r: Result<RData, ProtoError>)
    requires
        start <= end <= packet@.len(),
    ensures
        match spec_parse_uid(packet@, start as int, end as int) {
            Some(v) => r matches Ok(RData::UID(x)) && x@ == v,
            None => r is Err,
        },
{
    match parse_uid_rdata(packet, start, end) {
        Ok(x) => Ok(RData::UID(x)),
        Err(e) => Err(e),
    }
}

/// Append the `UID` wire form.
pub fn encode_uid(value: &UID, out: &mut Vec<u8>)
    ensures
        final(out)@ == old(out)@ + spec_encode_uid(value@),
{
    let ghost o = old(out)@;
    push_u32(out, value.0);
    proof {
        assert(out@ =~= o + spec_encode_uid(value@));
    }
}

/// Decoding the encoding of a valid `UID` view gives the view back.
pub proof fn lemma_uid_roundtrip(v: u32)
    requires
        spec_valid_uid(v),
    ensures
        spec_parse_uid(spec_encode_uid(v), 0, spec_encode_uid(v).len() as int) == Some(v),
{
    let b = spec_encode_uid(v);
    let o0: int = 0;
    let o1: int = o0 + 4;
    assert(b.subrange(o0, o1) =~= be32(v));
    lemma_read_be32(b, o0, v);
    assert(b.len() == o1);
}

impl View for GID {
    type V = u32;

    open spec fn view(&self) -> u32 {
        self.0
    }
}

/// Decoded form of `GID` RDATA held in `p[s..e]`.
pub open spec fn spec_parse_gid(p: Seq<u8>, s: int, e: int) -> Option<u32> {
    if s + 4 > e {
        None
    } else {
        let f0 = spec_u32_at(p, s);
        let c1 = s + 4;
        if c1 != e {
            None
        } else {
            Some(f0)
        }
    }
}

/// Wire form of a `GID` view, names written uncompressed.
pub open spec fn spec_encode_gid(v: u32) -> Seq<u8> {
    be32(v)
}

/// Views that survive an encode and decode unchanged.
pub open spec fn spec_valid_gid(v: u32) -> bool {
    true
}

/// Decode `GID` RDATA from `packet[start..end]`.
pub fn parse_gid_rdata(packet: &[u8], start: usize, end: usize) -> (r: Result<GID, ProtoError>)
    requires
        start <= end <= packet@.len(),
    ensures
        match spec_parse_gid(packet@, start as int, end as int) {
            Some(v) => r matches Ok(x) && x@ == v,
            None => r is Err,
        },
{
    if start > end || end - start < 4 { return Err(ProtoError::protocol("invalid GID rdata length")); }
    let f0 = read_u32_be(packet, start);
    let c1 = start + 4;
    if c1 != end { return Err(ProtoError::protocol("invalid GID rdata length")); }
    Ok(GID(f0))
}

/// Decode `GID` RDATA from `packet[start..end]` as an [`RData`] value.
pub fn parse_gid(packet: &[u8], start: usize, end: usize) -> (r: Result<RData, ProtoError>)
    requires
        start <= end <= packet@.len(),
    ensures
        match spec_parse_gid(packet@, start as int, end as int) {
            Some(v) => r matches Ok(RData::GID(x)) && x@ == v,
            None => r is Err,
        },
{
    match parse_gid_rdata(packet, start, end) {
        Ok(x) => Ok(RData::GID(x)),
        Err(e) => Err(e),
    }
}

/// Append the `GID` wire form.
pub fn encode_gid(value: &GID, out: &mut Vec<u8>)
    ensures
        final(out)@ == old(out)@ + spec_encode_gid(value@),
{
    let ghost o = old(out)@;
    push_u32(out, value.0);
    proof {
        assert(out@ =~= o + spec_encode_gid(value@));
    }
}

/// Decoding the encoding of a valid `GID` view gives the view back.
pub proof fn lemma_gid_roundtrip(v: u32)
    requires
        spec_valid_gid(v),
    ensures
        spec_parse_gid(spec_encode_gid(v), 0, spec_encode_gid(v).len() as int) == Some(v),
{
    let b = spec_encode_gid(v);
    let o0: int = 0;
    let o1: int = o0 + 4;
    assert(b.subrange(o0, o1) =~= be32(v));
    lemma_read_be32(b, o0, v);
    assert(b.len() == o1);
}

impl View for IXFR {
    type V = ();

    open spec fn view(&self) -> () {
        ()
    }
}

/// Decoded form of `IXFR` RDATA held in `p[s..e]`.
pub open spec fn spec_parse_ixfr(p: Seq<u8>, s: int, e: int) -> Option<()> {
    if s != e {
        None
    } else {
        Some(())
    }
}

/// Wire form of a `IXFR` view, names written uncompressed.
pub open spec fn spec_encode_ixfr(v: ()) -> Seq<u8> {
    Seq::<u8>::empty()
}

/// Views that survive an encode and decode unchanged.
pub open spec fn spec_valid_ixfr(v: ()) -> bool {
    true
}

/// Decode `IXFR` RDATA from `packet[start..end]`.
pub fn parse_ixfr_rdata(packet: &[u8], start: usize, end: usize) -> (r: Result<IXFR, ProtoError>)
    requires
        start <= end <= packet@.len(),
    ensures
        match spec_parse_ixfr(packet@, start as int, end as int) {
            Some(v) => r matches Ok(x) && x@ == v,
            None => r is Err,
        },
{
    if start != end { return Err(ProtoError::protocol("invalid IXFR rdata length")); }
    Ok(IXFR)
}

/// Decode `IXFR` RDATA from `packet[start..end]` as an [`RData`] value.
pub fn parse_ixfr(packet: &[u8], start: usize, end: usize) -> (r: Result<RData, ProtoError>)
    requires
        start <= end <= packet@.len(),
    ensures
        match spec_parse_ixfr(packet@, start as int, end as int) {
            Some(v) => r matches Ok(RData::IXFR(x)) && x@ == v,
            None => r is Err,
        },
{
    match parse_ixfr_rdata(packet, start, end) {
        Ok(x) => Ok(RData::IXFR(x)),
        Err(e) => Err(e),
    }
}

/// Append the `IXFR` wire form.
pub fn encode_ixfr(value: &IXFR, out: &mut Vec<u8>)
    ensures
        final(out)@ == old(out)@ + spec_encode_ixfr(value@),
{
    let ghost o = old(out)@;
    proof {
        assert(out@ =~= o + spec_encode_ixfr(value@));
    }
}

/// Decoding the encoding of a valid `IXFR` view gives the view back.
pub proof fn lemma_ixfr_roundtrip(v: ())
    requires
        spec_valid_ixfr(v),
    ensures
        spec_parse_ixfr(spec_encode_ixfr(v), 0, spec_encode_ixfr(v).len() as int) == Some(v),
{
    let b = spec_encode_ixfr(v);
    let o0: int = 0;
    assert(b.len() == o0);
}

impl View for AXFR {
    type V = ();

    open spec fn view(&self) -> () {
        ()
    }
}

/// Decoded form of `AXFR` RDATA held in `p[s..e]`.
pub open spec fn spec_parse_axfr(p: Seq<u8>, s: int, e: int) -> Option<()> {
    if s != e {
        None
    } else {
        Some(())
    }
}

/// Wire form of a `AXFR` view, names written uncompressed.
pub open spec fn spec_encode_axfr(v: ()) -> Seq<u8> {
    Seq::<u8>::empty()
}

/// Views that survive an encode and decode unchanged.
pub open spec fn spec_valid_axfr(v: ()) -> bool {
    true
}

/// Decode `AXFR` RDATA from `packet[start..end]`.
pub fn parse_axfr_rdata(packet: &[u8], start: usize, end: usize) -> (r: Result<AXFR, ProtoError>)
    requires
        start <= end <= packet@.len(),
    ensures
        match spec_parse_axfr(packet@, start as int, end as int) {
            Some(v) => r matches Ok(x) && x@ == v,
            None => r is Err,
        },
{
    if start != end { return Err(ProtoError::protocol("invalid AXFR rdata length")); }
    Ok(AXFR)
}

/// Decode `AXFR` RDATA from `packet[start..end]` as an [`RData`] value.
pub fn parse_axfr(packet: &[u8], start: usize, end: usize) -> (r: Result<RData, ProtoError>)
    requires
        start <= end <= packet@.len(),
    ensures
        match spec_parse_axfr(packet@, start as int, end as int) {
            Some(v) => r matches Ok(RData::AXFR(x)) && x@ == v,
            None => r is Err,
        },
{
    match parse_axfr_rdata(packet, start, end) {
        Ok(x) => Ok(RData::AXFR(x)),
        Err(e) => Err(e),
    }
}

/// Append the `AXFR` wire form.
pub fn encode_axfr(value: &AXFR, out: &mut Vec<u8>)
    ensures
        final(out)@ == old(out)@ + spec_encode_axfr(value@),
{
    let ghost o = old(out)@;
    proof {
        assert(out@ =~= o + spec_encode_axfr(value@));
    }
}

/// Decoding the encoding of a valid `AXFR` view gives the view back.
pub proof fn lemma_axfr_roundtrip(v: ())
    requires
        spec_valid_axfr(v),
    ensures
        spec_parse_axfr(spec_encode_axfr(v), 0, spec_encode_axfr(v).len() as int) == Some(v),
{
    let b = spec_encode_axfr(v);
    let o0: int = 0;
    assert(b.len() == o0);
}

impl View for MAILB {
    type V = ();

    open spec fn view(&self) -> () {
        ()
    }
}

/// Decoded form of `MAILB` RDATA held in `p[s..e]`.
pub open spec fn spec_parse_mailb(p: Seq<u8>, s: int, e: int) -> Option<()> {
    if s != e {
        None
    } else {
        Some(())
    }
}

/// Wire form of a `MAILB` view, names written uncompressed.
pub open spec fn spec_encode_mailb(v: ()) -> Seq<u8> {
    Seq::<u8>::empty()
}

/// Views that survive an encode and decode unchanged.
pub open spec fn spec_valid_mailb(v: ()) -> bool {
    true
}

/// Decode `MAILB` RDATA from `packet[start..end]`.
pub fn parse_mailb_rdata(packet: &[u8], start: usize, end: usize) -> (r: Result<MAILB, ProtoError>)
    requires
        start <= end <= packet@.len(),
    ensures
        match spec_parse_mailb(packet@, start as int, end as int) {
            Some(v) => r matches Ok(x) && x@ == v,
            None => r is Err,
        },
{
    if start != end { return Err(ProtoError::protocol("invalid MAILB rdata length")); }
    Ok(MAILB)
}

/// Decode `MAILB` RDATA from `packet[start..end]` as an [`RData`] value.
pub fn parse_mailb(packet: &[u8], start: usize, end: usize) -> (r: Result<RData, ProtoError>)
    requires
        start <= end <= packet@.len(),
    ensures
        match spec_parse_mailb(packet@, start as int, end as int) {
            Some(v) => r matches Ok(RData::MAILB(x)) && x@ == v,
            None => r is Err,
        },
{
    match parse_mailb_rdata(packet, start, end) {
        Ok(x) => Ok(RData::MAILB(x)),
        Err(e) => Err(e),
    }
}

/// Append the `MAILB` wire form.
pub fn encode_mailb(value: &MAILB, out: &mut Vec<u8>)
    ensures
        final(out)@ == old(out)@ + spec_encode_mailb(value@),
{
    let ghost o = old(out)@;
    proof {
        assert(out@ =~= o + spec_encode_mailb(value@));
    }
}

/// Decoding the encoding of a valid `MAILB` view gives the view back.
pub proof fn lemma_mailb_roundtrip(v: ())
    requires
        spec_valid_mailb(v),
    ensures
        spec_parse_mailb(spec_encode_mailb(v), 0, spec_encode_mailb(v).len() as int) == Some(v),
{
    let b = spec_encode_mailb(v);
    let o0: int = 0;
    assert(b.len() == o0);
}

impl View for MAILA {
    type V = ();

    open spec fn view(&self) -> () {
        ()
    }
}

/// Decoded form of `MAILA` RDATA held in `p[s..e]`.
pub open spec fn spec_parse_maila(p: Seq<u8>, s: int, e: int) -> Option<()> {
    if s != e {
        None
    } else {
        Some(())
    }
}

/// Wire form of a `MAILA` view, names written uncompressed.
pub open spec fn spec_encode_maila(v: ()) -> Seq<u8> {
    Seq::<u8>::empty()
}

/// Views that survive an encode and decode unchanged.
pub open spec fn spec_valid_maila(v: ()) -> bool {
    true
}

/// Decode `MAILA` RDATA from `packet[start..end]`.
pub fn parse_maila_rdata(packet: &[u8], start: usize, end: usize) -> (r: Result<MAILA, ProtoError>)
    requires
        start <= end <= packet@.len(),
    ensures
        match spec_parse_maila(packet@, start as int, end as int) {
            Some(v) => r matches Ok(x) && x@ == v,
            None => r is Err,
        },
{
    if start != end { return Err(ProtoError::protocol("invalid MAILA rdata length")); }
    Ok(MAILA)
}

/// Decode `MAILA` RDATA from `packet[start..end]` as an [`RData`] value.
pub fn parse_maila(packet: &[u8], start: usize, end: usize) -> (r: Result<RData, ProtoError>)
    requires
        start <= end <= packet@.len(),
    ensures
        match spec_parse_maila(packet@, start as int, end as int) {
            Some(v) => r matches Ok(RData::MAILA(x)) && x@ == v,
            None => r is Err,
        },
{
    match parse_maila_rdata(packet, start, end) {
        Ok(x) => Ok(RData::MAILA(x)),
        Err(e) => Err(e),
    }
}

/// Append the `MAILA` wire form.
pub fn encode_maila(value: &MAILA, out: &mut Vec<u8>)
    ensures
        final(out)@ == old(out)@ + spec_encode_maila(value@),
{
    let ghost o = old(out)@;
    proof {
        assert(out@ =~= o + spec_encode_maila(value@));
    }
}

/// Decoding the encoding of a valid `MAILA` view gives the view back.
pub proof fn lemma_maila_roundtrip(v: ())
    requires
        spec_valid_maila(v),
    ensures
        spec_parse_maila(spec_encode_maila(v), 0, spec_encode_maila(v).len() as int) == Some(v),
{
    let b = spec_encode_maila(v);
    let o0: int = 0;
    assert(b.len() == o0);
}

impl View for ANY {
    type V = ();

    open spec fn view(&self) -> () {
        ()
    }
}

/// Decoded form of `ANY` RDATA held in `p[s..e]`.
pub open spec fn spec_parse_any(p: Seq<u8>, s: int, e: int) -> Option<()> {
    if s != e {
        None
    } else {
        Some(())
    }
}

/// Wire form of a `ANY` view, names written uncompressed.
pub open spec fn spec_encode_any(v: ()) -> Seq<u8> {
    Seq::<u8>::empty()
}

/// Views that survive an encode and decode unchanged.
pub open spec fn spec_valid_any(v: ()) -> bool {
    true
}

/// Decode `ANY` RDATA from `packet[start..end]`.
pub fn parse_any_rdata(packet: &[u8], start: usize, end: usize) -> (r: Result<ANY, ProtoError>)
    requires
        start <= end <= packet@.len(),
    ensures
        match spec_parse_any(packet@, start as int, end as int) {
            Some(v) => r matches Ok(x) && x@ == v,
            None => r is Err,
        },
{
    if start != end { return Err(ProtoError::protocol("invalid ANY rdata length")); }
    Ok(ANY)
}

/// Decode `ANY` RDATA from `packet[start..end]` as an [`RData`] value.
pub fn parse_any(packet: &[u8], start: usize, end: usize) -> (r: Result<RData, ProtoError>)
    requires
        start <= end <= packet@.len(),
    ensures
        match spec_parse_any(packet@, start as int, end as int) {
            Some(v) => r matches Ok(RData::ANY(x)) && x@ == v,
            None => r is Err,
        },
{
    match parse_any_rdata(packet, start, end) {
        Ok(x) => Ok(RData::ANY(x)),
        Err(e) => Err(e),
    }
}

/// Append the `ANY` wire form.
pub fn encode_any(value: &ANY, out: &mut Vec<u8>)
    ensures
        final(out)@ == old(out)@ + spec_encode_any(value@),
{
    let ghost o = old(out)@;
    proof {
        assert(out@ =~= o + spec_encode_any(value@));
    }
}

/// Decoding the encoding of a valid `ANY` view gives the view back.
pub proof fn lemma_any_roundtrip(v: ())
    requires
        spec_valid_any(v),
    ensures
        spec_parse_any(spec_encode_any(v), 0, spec_encode_any(v).len() as int) == Some(v),
{
    let b = spec_encode_any(v);
    let o0: int = 0;
    assert(b.len() == o0);
}

impl View for ISDN {
    type V = (Seq<u8>, Option<Seq<u8>>);

    open spec fn view(&self) -> (Seq<u8>, Option<Seq<u8>>) {
        (
            self.address@,
            match self.sub_address {
                Some(s) => Some(s@),
                None => None,
            },
        )
    }
}

/// ISDN RDATA (RFC 1183 section 3.2): an address character-string and an
/// optional subaddress character-string, ending exactly at `e`.
pub open spec fn spec_parse_isdn(p: Seq<u8>, s: int, e: int) -> Option<(Seq<u8>, Option<Seq<u8>>)> {
    match spec_cstr(p, s, e) {
        None => None,
        Some((a, c)) => if c == e {
            Some((a, None))
        } else {
            match spec_cstr(p, c, e) {
                None => None,
                Some((b, c2)) => if c2 != e {
                    None
                } else {
                    Some((a, Some(b)))
                },
            }
        },
    }
}

/// Wire form of an ISDN view; `None` when a string exceeds 255 bytes.
pub open spec fn spec_encode_isdn(v: (Seq<u8>, Option<Seq<u8>>)) -> Option<Seq<u8>> {
    if v.0.len() > 255 {
        None
    } else {
        match v.1 {
            None => Some(seq![v.0.len() as u8] + v.0),
            Some(b) => if b.len() > 255 {
                None
            } else {
                Some(seq![v.0.len() as u8] + v.0 + seq![b.len() as u8] + b)
            },
        }
    }
}

/// Decode ISDN RDATA.
pub fn parse_isdn_rdata(packet: &[u8], start: usize, end: usize) -> (r: Result<ISDN, ProtoError>)
    requires
        start <= end <= packet@.len(),
    ensures
        match spec_parse_isdn(packet@, start as int, end as int) {
            Some(v) => r matches Ok(x) && x@ == v,
            None => r is Err,
        },
{
    let (address, cursor) = match parse_character_string(packet, start, end) {
        Ok(x) => x,
        Err(e) => return Err(e),
    };
    if cursor == end {
        return Ok(ISDN::new(address, None));
    }
    let (sub_address, next) = match parse_character_string(packet, cursor, end) {
        Ok(x) => x,
        Err(e) => return Err(e),
    };
    if next != end {
        return Err(ProtoError::protocol("invalid ISDN rdata length"));
    }
    Ok(ISDN::new(address, Some(sub_address)))
}

/// Decode ISDN RDATA as an [`RData`] value.
pub fn parse_isdn(packet: &[u8], start: usize, end: usize) -> (r: Result<RData, ProtoError>)
    requires
        start <= end <= packet@.len(),
    ensures
        match spec_parse_isdn(packet@, start as int, end as int) {
            Some(v) => r matches Ok(RData::ISDN(x)) && x@ == v,
            None => r is Err,
        },
{
    match parse_isdn_rdata(packet, start, end) {
        Ok(x) => Ok(RData::ISDN(x)),
        Err(e) => Err(e),
    }
}

/// What a failed `ISDN` write leaves: the address string when only the
/// subaddress is too long.
pub open spec fn spec_isdn_written(v: (Seq<u8>, Option<Seq<u8>>)) -> Seq<u8> {
    if v.0.len() > 255 {
        Seq::<u8>::empty()
    } else {
        seq![v.0.len() as u8] + v.0
    }
}

/// Append the ISDN address and optional subaddress character-strings; a
/// subaddress too long for its length octet fails after the address is
/// written.
pub fn encode_isdn(value: &ISDN, out: &mut Vec<u8>) -> (r: Result<(), ProtoError>)
    ensures
        match spec_encode_isdn(value@) {
            Some(b) => r is Ok && final(out)@ == old(out)@ + b,
            None => r is Err && final(out)@ == old(out)@ + spec_isdn_written(value@),
        },
{
    let ghost o = old(out)@;
    match encode_character_string(out, value.address.as_slice(), "ISDN address") {
        Ok(()) => {},
        Err(e) => return Err(e),
    }
    if let Some(sub) = &value.sub_address {
        match encode_character_string(out, sub.as_slice(), "ISDN sub-address") {
            Ok(()) => {},
            Err(e) => return Err(e),
        }
    }
    proof {
        assert(out@ =~= o + spec_encode_isdn(value@).unwrap());
    }
    Ok(())
}

/// Decoding the encoding of an ISDN view gives it back.
pub proof fn lemma_isdn_roundtrip(v: (Seq<u8>, Option<Seq<u8>>))
    requires
        spec_encode_isdn(v) is Some,
    ensures
        spec_parse_isdn(spec_encode_isdn(v).unwrap(), 0, spec_encode_isdn(v).unwrap().len() as int) == Some(v),
{
    let b = spec_encode_isdn(v).unwrap();
    let n: int = 1int + v.0.len();
    assert(b[0] == v.0.len());
    assert(b.subrange(1, n) =~= v.0);
    match v.1 {
        None => {},
        Some(t) => {
            assert(b[n] == t.len());
            assert(b.subrange(n + 1, n + 1 + t.len()) =~= t);
        },
    }
}

impl View for A6 {
    type V = (u8, Seq<u8>, Option<Seq<u8>>);

    open spec fn view(&self) -> (u8, Seq<u8>, Option<Seq<u8>>) {
        (
            self.prefix_len,
            self.suffix@,
            match self.prefix_name {
                Some(n) => Some(n@),
                None => None,
            },
        )
    }
}

/// Number of suffix octets that follow a prefix of `prefix_len` bits.
pub open spec fn spec_a6_suffix_len(prefix_len: u8) -> int {
    (128 - prefix_len + 7) / 8
}

/// A6 RDATA (RFC 2874 section 3): prefix length (at most 128), the address
/// suffix, and a prefix name exactly when the prefix length is not zero.
pub open spec fn spec_parse_a6(p: Seq<u8>, s: int, e: int) -> Option<(u8, Seq<u8>, Option<Seq<u8>>)> {
    if s >= e {
        None
    } else {
        let pl = p[s];
        if pl > 128 {
            None
        } else {
            let se = s + 1 + spec_a6_suffix_len(pl);
            if se > e {
                None
            } else if pl > 0 {
                match spec_parse_name(p, se) {
                    None => None,
                    Some((n, k)) => if k != e {
                        None
                    } else {
                        Some((pl, p.subrange(s + 1, se), Some(n)))
                    },
                }
            } else if se != e {
                None
            } else {
                Some((pl, p.subrange(s + 1, se), None))
            }
        }
    }
}

/// Wire form of an A6 view, the prefix name uncompressed.
pub open spec fn spec_encode_a6(v: (u8, Seq<u8>, Option<Seq<u8>>)) -> Seq<u8> {
    seq![v.0] + v.1 + match v.2 {
        Some(n) => n,
        None => Seq::empty(),
    }
}

/// A6 views that decode back: a consistent suffix length and a prefix name
/// exactly when the prefix length is not zero.
pub open spec fn spec_valid_a6(v: (u8, Seq<u8>, Option<Seq<u8>>)) -> bool {
    &&& v.0 <= 128
    &&& v.1.len() == spec_a6_suffix_len(v.0)
    &&& match v.2 {
        Some(n) => v.0 > 0 && name_wire_ok(n),
        None => v.0 == 0,
    }
}

/// Decode A6 RDATA.
pub fn parse_a6_rdata(packet: &[u8], start: usize, end: usize) -> (r: Result<A6, ProtoError>)
    requires
        start <= end <= packet@.len(),
    ensures
        match spec_parse_a6(packet@, start as int, end as int) {
            Some(v) => r matches Ok(x) && x@ == v,
            None => r is Err,
        },
{
    if start >= end {
        return Err(ProtoError::protocol("invalid A6 rdata length"));
    }
    let prefix_len = packet[start];
    if prefix_len > 128 {
        return Err(ProtoError::protocol("invalid A6 prefix length"));
    }
    let suffix_len = (128 - prefix_len as usize + 7) / 8;
    let suffix_start = start + 1;
    if suffix_len > end - suffix_start {
        return Err(ProtoError::protocol("invalid A6 rdata length"));
    }
    let suffix_end = suffix_start + suffix_len;
    let prefix_name = if prefix_len > 0 {
        let (name, next) = match Name::parse(packet, suffix_end) {
            Ok(x) => x,
            Err(e) => return Err(e),
        };
        if next != end {
            return Err(ProtoError::protocol("invalid A6 rdata length"));
        }
        Some(name)
    } else {
        if suffix_end != end {
            return Err(ProtoError::protocol("invalid A6 rdata length"));
        }
        None
    };
    Ok(A6::new(prefix_len, copy_range(packet, suffix_start, suffix_end), prefix_name))
}

/// Decode A6 RDATA as an [`RData`] value.
pub fn parse_a6(packet: &[u8], start: usize, end: usize) -> (r: Result<RData, ProtoError>)
    requires
        start <= end <= packet@.len(),
    ensures
        match spec_parse_a6(packet@, start as int, end as int) {
            Some(v) => r matches Ok(RData::A6(x)) && x@ == v,
            None => r is Err,
        },
{
    match parse_a6_rdata(packet, start, end) {
        Ok(x) => Ok(RData::A6(x)),
        Err(e) => Err(e),
    }
}

/// Append the A6 prefix length, suffix and optional prefix name.
pub fn encode_a6(value: &A6, out: &mut Vec<u8>) -> (r: Result<(), ProtoError>)
    ensures
        r is Ok,
        final(out)@ == old(out)@ + spec_encode_a6(value@),
{
    let ghost o = old(out)@;
    out.push(value.prefix_len);
    push_bytes(out, value.suffix.as_slice());
    if let Some(prefix_name) = &value.prefix_name {
        push_bytes(out, prefix_name.wire());
    }
    proof {
        assert(out@ =~= o + spec_encode_a6(value@));
    }
    Ok(())
}

/// Decoding the encoding of a valid A6 view gives it back.
pub proof fn lemma_a6_roundtrip(v: (u8, Seq<u8>, Option<Seq<u8>>))
    requires
        spec_valid_a6(v),
    ensures
        spec_parse_a6(spec_encode_a6(v), 0, spec_encode_a6(v).len() as int) == Some(v),
{
    let b = spec_encode_a6(v);
    let se: int = 1int + v.1.len();
    assert(b[0] == v.0);
    assert(b.subrange(1, se) =~= v.1);
    match v.2 {
        Some(n) => {
            assert(b.subrange(se, se + n.len()) =~= n);
            lemma_parse_plain_name(b, se, n);
        },
        None => {},
    }
}

impl View for AplPrefix {
    type V = (u16, u8, bool, Seq<u8>);

    open spec fn view(&self) -> (u16, u8, bool, Seq<u8>) {
        (self.family, self.prefix, self.negation, self.afd_part@)
    }
}

impl View for APL {
    type V = Seq<(u16, u8, bool, Seq<u8>)>;

    open spec fn view(&self) -> Seq<(u16, u8, bool, Seq<u8>)> {
        self.prefixes@.map_values(|x: AplPrefix| x@)
    }
}

/// APL items (RFC 3123 section 4) from `c` up to `e`: family, prefix
/// length, negation flag and address part.
pub open spec fn spec_apl_items(p: Seq<u8>, c: int, e: int) -> Option<Seq<(u16, u8, bool, Seq<u8>)>>
    decreases e - c,
{
    if c >= e {
        Some(Seq::empty())
    } else if c + 4 > e {
        None
    } else {
        let b = p[c + 3];
        let ae = c + 4 + b % 128;
        if ae > e {
            None
        } else {
            match spec_apl_items(p, ae, e) {
                None => None,
                Some(rest) => Some(
                    seq![(spec_u16_at(p, c), p[c + 2], b >= 128, p.subrange(c + 4, ae))] + rest,
                ),
            }
        }
    }
}

/// Decoded APL RDATA.
pub open spec fn spec_parse_apl(p: Seq<u8>, s: int, e: int) -> Option<Seq<(u16, u8, bool, Seq<u8>)>> {
    spec_apl_items(p, s, e)
}

/// Wire form of one APL item; `None` when the address part exceeds 127
/// bytes.
pub open spec fn spec_encode_apl_item(x: (u16, u8, bool, Seq<u8>)) -> Option<Seq<u8>> {
    if x.3.len() > 127 {
        None
    } else {
        Some(be16(x.0) + seq![x.1, (x.3.len() + if x.2 { 128int } else { 0 }) as u8] + x.3)
    }
}

/// Wire form of APL items, one after the other.
pub open spec fn spec_encode_apl(v: Seq<(u16, u8, bool, Seq<u8>)>) -> Option<Seq<u8>>
    decreases v.len(),
{
    if v.len() == 0 {
        Some(Seq::empty())
    } else {
        match spec_encode_apl(v.drop_last()) {
            None => None,
            Some(a) => match spec_encode_apl_item(v.last()) {
                None => None,
                Some(b) => Some(a + b),
            },
        }
    }
}

/// Decode APL RDATA.
pub fn parse_apl_rdata(packet: &[u8], start: usize, end: usize) -> (r: Result<APL, ProtoError>)
    requires
        start <= end <= packet@.len(),
    ensures
        match spec_parse_apl(packet@, start as int, end as int) {
            Some(v) => r matches Ok(x) && x@ == v,
            None => r is Err,
        },
{
    let mut cursor = start;
    let mut prefixes: Vec<AplPrefix> = Vec::new();
    while cursor < end
        invariant
            start <= cursor <= end <= packet@.len(),
            spec_apl_items(packet@, start as int, end as int) == match spec_apl_items(
                packet@,
                cursor as int,
                end as int,
            ) {
                Some(rest) => Some(prefixes@.map_values(|x: AplPrefix| x@) + rest),
                None => None,
            },
        decreases end - cursor,
    {
        if end - cursor < 4 {
            return Err(ProtoError::protocol("invalid APL rdata length"));
        }
        let family = read_u16_be(packet, cursor);
        let prefix = packet[cursor + 2];
        let afd_len = packet[cursor + 3] % 128;
        let negation = packet[cursor + 3] >= 128;
        let afd_start = cursor + 4;
        if afd_len as usize > end - afd_start {
            return Err(ProtoError::protocol("invalid APL rdata length"));
        }
        let afd_end = afd_start + afd_len as usize;
        let ghost before = prefixes@;
        prefixes.push(AplPrefix::new(family, prefix, negation, copy_range(packet, afd_start, afd_end)));
        proof {
            let item = (family, prefix, negation, packet@.subrange(afd_start as int, afd_end as int));
            assert(prefixes@.map_values(|x: AplPrefix| x@) =~= before.map_values(|x: AplPrefix| x@).push(item));
            match spec_apl_items(packet@, afd_end as int, end as int) {
                Some(rest) => {
                    assert(before.map_values(|x: AplPrefix| x@) + (seq![item] + rest) =~= before.map_values(
                        |x: AplPrefix| x@,
                    ).push(item) + rest);
                },
                None => {},
            }
        }
        cursor = afd_end;
    }
    proof {
        assert(prefixes@.map_values(|x: AplPrefix| x@) + Seq::empty() =~= prefixes@.map_values(
            |x: AplPrefix| x@,
        ));
    }
    Ok(APL::new(prefixes))
}

/// Decode APL RDATA as an [`RData`] value.
pub fn parse_apl(packet: &[u8], start: usize, end: usize) -> (r: Result<RData, ProtoError>)
    requires
        start <= end <= packet@.len(),
    ensures
        match spec_parse_apl(packet@, start as int, end as int) {
            Some(v) => r matches Ok(RData::APL(x)) && x@ == v,
            None => r is Err,
        },
{
    match parse_apl_rdata(packet, start, end) {
        Ok(x) => Ok(RData::APL(x)),
        Err(e) => Err(e),
    }
}

/// What writing APL items leaves behind: every item in turn, and for the
/// first one whose address part is too long, its family and prefix octets.
pub open spec fn spec_apl_written(v: Seq<(u16, u8, bool, Seq<u8>)>) -> Seq<u8>
    decreases v.len(),
{
    if v.len() == 0 {
        Seq::empty()
    } else if spec_encode_apl(v.drop_last()) is None {
        spec_apl_written(v.drop_last())
    } else {
        spec_encode_apl(v.drop_last()).unwrap() + match spec_encode_apl_item(v.last()) {
            Some(b) => b,
            None => be16(v.last().0) + seq![v.last().1],
        }
    }
}

/// Items past the first failing one leave nothing more behind.
proof fn lemma_apl_written_stays(v: Seq<(u16, u8, bool, Seq<u8>)>, i: int, k: int)
    requires
        0 <= i < k <= v.len(),
        spec_encode_apl(v.take(i)) is Some,
        spec_encode_apl_item(v[i]) is None,
    ensures
        spec_apl_written(v.take(k)) == spec_encode_apl(v.take(i)).unwrap() + be16(v[i].0) + seq![v[i].1],
        spec_encode_apl(v.take(k)) is None,
    decreases k - i,
{
    assert(v.take(k).drop_last() =~= v.take(k - 1));
    if k == i + 1 {
        assert(v.take(k).last() == v[i]);
    } else {
        lemma_apl_written_stays(v, i, k - 1);
    }
}

/// Append APL items one after the other.  An address part longer than 127
/// bytes fails after that item's family and prefix octets are written.
pub fn encode_apl(value: &APL, out: &mut Vec<u8>) -> (r: Result<(), ProtoError>)
    ensures
        match spec_encode_apl(value@) {
            Some(b) => r is Ok && final(out)@ == old(out)@ + b,
            None => r is Err && final(out)@ == old(out)@ + spec_apl_written(value@),
        },
{
    let ghost o = old(out)@;
    let mut i: usize = 0;
    let ghost vs = value@;
    while i < value.prefixes.len()
        invariant
            i <= value.prefixes@.len(),
            vs == value@,
            vs.len() == value.prefixes@.len(),
            o == old(out)@,
            spec_encode_apl(vs.take(i as int)) is Some,
            out@ == o + spec_encode_apl(vs.take(i as int)).unwrap(),
        decreases value.prefixes.len() - i,
    {
        let prefix = &value.prefixes[i];
        proof {
            assert(vs.take(i + 1).drop_last() =~= vs.take(i as int));
            assert(vs.take(i + 1).last() == prefix@);
            assert(vs[i as int] == prefix@);
        }
        let ghost b0 = out@;
        push_u16(out, prefix.family);
        out.push(prefix.prefix);
        let afd_len = prefix.afd_part.len();
        if afd_len > 127 {
            proof {
                lemma_apl_written_stays(vs, i as int, vs.len() as int);
                assert(vs.take(vs.len() as int) =~= vs);
                assert(out@ =~= o + spec_encode_apl(vs.take(i as int)).unwrap() + be16(prefix.family) + seq![prefix.prefix]);
            }
            return Err(ProtoError::protocol("APL afd part exceeds 127 bytes"));
        }
        let len: u8 = if prefix.negation {
            afd_len as u8 + 128
        } else {
            afd_len as u8
        };
        out.push(len);
        push_bytes(out, prefix.afd_part.as_slice());
        proof {
            assert(out@ =~= b0 + spec_encode_apl_item(prefix@).unwrap());
        }
        i = i + 1;
    }
    proof {
        assert(vs.take(vs.len() as int) =~= vs);
    }
    Ok(())
}

/// Decoding the encoding of APL items gives them back.
pub proof fn lemma_apl_roundtrip(v: Seq<(u16, u8, bool, Seq<u8>)>)
    requires
        spec_encode_apl(v) is Some,
    ensures
        spec_parse_apl(spec_encode_apl(v).unwrap(), 0, spec_encode_apl(v).unwrap().len() as int) == Some(v),
{
    lemma_apl_items_suffix(v, Seq::empty());
    assert(Seq::<u8>::empty() + spec_encode_apl(v).unwrap() =~= spec_encode_apl(v).unwrap());
}

/// Items written after `pre` are read back from where `pre` ends.
proof fn lemma_apl_items_suffix(v: Seq<(u16, u8, bool, Seq<u8>)>, pre: Seq<u8>)
    requires
        spec_encode_apl(v) is Some,
    ensures
        spec_apl_items(pre + spec_encode_apl(v).unwrap(), pre.len() as int, (pre.len() + spec_encode_apl(v).unwrap().len()) as int) == Some(v),
    decreases v.len(),
{
    let ev = spec_encode_apl(v).unwrap();
    let b = pre + ev;
    let e: int = pre.len() as int + ev.len();
    if v.len() == 0 {
        assert(ev =~= Seq::<u8>::empty());
    } else {
        let y = v[0];
        let rest = v.drop_first();
        lemma_encode_apl_first(v);
        let ey = spec_encode_apl_item(y).unwrap();
        let er = spec_encode_apl(rest).unwrap();
        lemma_apl_items_suffix(rest, pre + ey);
        assert(pre + ey + er =~= b);
        let c = pre.len() as int;
        assert(b.subrange(c, c + 2) =~= be16(y.0));
        lemma_read_be16(b, c, y.0);
        assert(b[c + 2] == y.1);
        assert(b[c + 3] == (y.3.len() + if y.2 { 128int } else { 0 }) as u8);
        assert(b.subrange(c + 4, c + 4 + y.3.len()) =~= y.3);
        assert(seq![y] + rest =~= v);
    }
}

/// The encoding of a non-empty item list starts with its first item.
proof fn lemma_encode_apl_first(v: Seq<(u16, u8, bool, Seq<u8>)>)
    requires
        v.len() > 0,
        spec_encode_apl(v) is Some,
    ensures
        spec_encode_apl_item(v[0]) is Some,
        spec_encode_apl(v.drop_first()) is Some,
        spec_encode_apl(v).unwrap() == spec_encode_apl_item(v[0]).unwrap() + spec_encode_apl(v.drop_first()).unwrap(),
    decreases v.len(),
{
    if v.len() == 1 {
        assert(v.drop_last() =~= Seq::<(u16, u8, bool, Seq<u8>)>::empty());
        assert(v.drop_first() =~= Seq::<(u16, u8, bool, Seq<u8>)>::empty());
        assert(spec_encode_apl(v).unwrap() =~= spec_encode_apl_item(v[0]).unwrap() + Seq::<u8>::empty());
    } else {
        lemma_encode_apl_first(v.drop_last());
        assert(v.drop_last().drop_first() =~= v.drop_first().drop_last());
        assert(v.drop_first().last() == v.last());
        assert(v.drop_last()[0] == v[0]);
        assert(spec_encode_apl(v).unwrap() =~= spec_encode_apl_item(v[0]).unwrap() + spec_encode_apl(
            v.drop_first(),
        ).unwrap());
    }
}


} // verus!
