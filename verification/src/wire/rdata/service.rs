//! Wire form of the service and locator RDATA types.

use vstd::prelude::*;
use crate::error::ProtoError;
use crate::name::{Name, spec_parse_name, name_wire_ok, lemma_parse_plain_name};
use crate::rdata::RData;
use crate::rdata::service::{AMTRELAY, EUI48, EUI64, HTTPS, IPSECKEY, KX, L32, L64, LP, NID, SVCB, SvcParam, URI};
use crate::rdata::bitmap::{TypeBitMaps, spec_decode_bitmaps};
use crate::types::RecordType;
use crate::wire::{be16, be32, be48, be64, spec_u16_at, spec_u32_at, spec_u48_at, spec_u64_at, lemma_read_be16, lemma_read_be32, lemma_read_be48, lemma_read_be64, lemma_i32_through_u32, push_u16, push_u32, push_u48, push_u64, push_bytes, copy_range, read_u16_be, read_u32_be, read_u48_be, read_u64_be};
use crate::wire::rdata::{spec_cstr, spec_name_rdata, spec_single_string_rdata, spec_two_strings_rdata, spec_two_names_rdata, spec_u16_name_rdata, parse_name, parse_character_string, parse_single_character_string, parse_two_character_strings, parse_two_names, parse_u16_name, encode_character_string};
use crate::rdata::service::spec_u16_list;
use vstd::relations::{total_ordering, sorted_by};

verus! {


impl View for KX {
    type V = (u16, Seq<u8>);

    open spec fn view(&self) -> (u16, Seq<u8>) {
        (self.preference, self.exchanger@)
    }
}

/// Decoded form of `KX` RDATA held in `p[s..e]`.
pub open spec fn spec_parse_kx(p: Seq<u8>, s: int, e: int) -> Option<(u16, Seq<u8>)> {
    spec_u16_name_rdata(p, s, e)
}

/// Wire form of a `KX` view, names written uncompressed.
pub open spec fn spec_encode_kx(v: (u16, Seq<u8>)) -> Seq<u8> {
    be16(v.0) + v.1
}

/// Views that survive an encode and decode unchanged.
pub open spec fn spec_valid_kx(v: (u16, Seq<u8>)) -> bool {
    name_wire_ok(v.1)
}

/// Decode `KX` RDATA from `packet[start..end]`.
pub fn parse_kx_rdata(packet: &[u8], start: usize, end: usize) -> (r: Result<KX, ProtoError>)
    requires
        start <= end <= packet@.len(),
    ensures
        match spec_parse_kx(packet@, start as int, end as int) {
            Some(v) => r matches Ok(x) && x@ == v,
            None => r is Err,
        },
{
    let (f0, f1) = match parse_u16_name(packet, start, end, "KX") { Ok(x) => x, Err(e) => return Err(e) };
    Ok(KX { preference: f0, exchanger: f1 })
}

/// Decode `KX` RDATA from `packet[start..end]` as an [`RData`] value.
pub fn parse_kx(packet: &[u8], start: usize, end: usize) -> (r: Result<RData, ProtoError>)
    requires
        start <= end <= packet@.len(),
    ensures
        match spec_parse_kx(packet@, start as int, end as int) {
            Some(v) => r matches Ok(RData::KX(x)) && x@ == v,
            None => r is Err,
        },
{
    match parse_kx_rdata(packet, start, end) {
        Ok(x) => Ok(RData::KX(x)),
        Err(e) => Err(e),
    }
}

/// Append the `KX` wire form, names uncompressed.
pub fn encode_kx(value: &KX, out: &mut Vec<u8>) -> (r: Result<(), ProtoError>)
    ensures
        r is Ok,
        final(out)@ == old(out)@ + spec_encode_kx(value@),
{
    let ghost o = old(out)@;
    push_u16(out, value.preference);
    push_bytes(out, value.exchanger.wire());
    proof {
        assert(out@ =~= o + spec_encode_kx(value@));
    }
    Ok(())
}

/// Decoding the encoding of a valid `KX` view gives the view back.
pub proof fn lemma_kx_roundtrip(v: (u16, Seq<u8>))
    requires
        spec_valid_kx(v),
    ensures
        spec_parse_kx(spec_encode_kx(v), 0, spec_encode_kx(v).len() as int) == Some(v),
{
    let b = spec_encode_kx(v);
    let o0: int = 0;
    let o1: int = o0 + 2;
    assert(b.subrange(o0, o1) =~= be16(v.0));
    lemma_read_be16(b, o0, v.0);
    let o2: int = o1 + v.1.len();
    assert(b.subrange(o1, o2) =~= v.1);
    lemma_parse_plain_name(b, o1, v.1);
    assert(b.len() == o2);
}

impl View for URI {
    type V = (u16, u16, Seq<u8>);

    open spec fn view(&self) -> (u16, u16, Seq<u8>) {
        (self.priority, self.weight, self.target@)
    }
}

/// Decoded form of `URI` RDATA held in `p[s..e]`.
pub open spec fn spec_parse_uri(p: Seq<u8>, s: int, e: int) -> Option<(u16, u16, Seq<u8>)> {
    if s + 2 > e {
        None
    } else {
        let f0 = spec_u16_at(p, s);
        let c1 = s + 2;
        if c1 + 2 > e {
            None
        } else {
            let f1 = spec_u16_at(p, c1);
            let c2 = c1 + 2;
            if c2 > e {
                None
            } else {
                let f2 = p.subrange(c2, e);
                Some((f0, f1, f2))
            }
        }
    }
}

/// Wire form of a `URI` view, names written uncompressed.
pub open spec fn spec_encode_uri(v: (u16, u16, Seq<u8>)) -> Seq<u8> {
    be16(v.0) + be16(v.1) + v.2
}

/// Views that survive an encode and decode unchanged.
pub open spec fn spec_valid_uri(v: (u16, u16, Seq<u8>)) -> bool {
    true
}

/// Decode `URI` RDATA from `packet[start..end]`.
pub fn parse_uri_rdata(packet: &[u8], start: usize, end: usize) -> (r: Result<URI, ProtoError>)
    requires
        start <= end <= packet@.len(),
    ensures
        match spec_parse_uri(packet@, start as int, end as int) {
            Some(v) => r matches Ok(x) && x@ == v,
            None => r is Err,
        },
{
    if start > end || end - start < 2 { return Err(ProtoError::protocol("invalid URI rdata length")); }
    let f0 = read_u16_be(packet, start);
    let c1 = start + 2;
    if c1 > end || end - c1 < 2 { return Err(ProtoError::protocol("invalid URI rdata length")); }
    let f1 = read_u16_be(packet, c1);
    let c2 = c1 + 2;
    if c2 > end { return Err(ProtoError::protocol("invalid URI rdata length")); }
    let f2 = copy_range(packet, c2, end);
    Ok(URI { priority: f0, weight: f1, target: f2 })
}

/// Decode `URI` RDATA from `packet[start..end]` as an [`RData`] value.
pub fn parse_uri(packet: &[u8], start: usize, end: usize) -> (r: Result<RData, ProtoError>)
    requires
        start <= end <= packet@.len(),
    ensures
        match spec_parse_uri(packet@, start as int, end as int) {
            Some(v) => r matches Ok(RData::URI(x)) && x@ == v,
            None => r is Err,
        },
{
    match parse_uri_rdata(packet, start, end) {
        Ok(x) => Ok(RData::URI(x)),
        Err(e) => Err(e),
    }
}

/// Append the `URI` wire form.
pub fn encode_uri(value: &URI, out: &mut Vec<u8>)
    ensures
        final(out)@ == old(out)@ + spec_encode_uri(value@),
{
    let ghost o = old(out)@;
    push_u16(out, value.priority);
    push_u16(out, value.weight);
    push_bytes(out, value.target.as_slice());
    proof {
        assert(out@ =~= o + spec_encode_uri(value@));
    }
}

/// Decoding the encoding of a valid `URI` view gives the view back.
pub proof fn lemma_uri_roundtrip(v: (u16, u16, Seq<u8>))
    requires
        spec_valid_uri(v),
    ensures
        spec_parse_uri(spec_encode_uri(v), 0, spec_encode_uri(v).len() as int) == Some(v),
{
    let b = spec_encode_uri(v);
    let o0: int = 0;
    let o1: int = o0 + 2;
    assert(b.subrange(o0, o1) =~= be16(v.0));
    lemma_read_be16(b, o0, v.0);
    let o2: int = o1 + 2;
    assert(b.subrange(o1, o2) =~= be16(v.1));
    lemma_read_be16(b, o1, v.1);
    let o3: int = o2 + v.2.len();
    assert(b.subrange(o2, o3) =~= v.2);
    assert(b.len() == o3);
}

impl View for NID {
    type V = (u16, u64);

    open spec fn view(&self) -> (u16, u64) {
        (self.preference, self.node_id)
    }
}

/// Decoded form of `NID` RDATA held in `p[s..e]`.
pub open spec fn spec_parse_nid(p: Seq<u8>, s: int, e: int) -> Option<(u16, u64)> {
    if s + 2 > e {
        None
    } else {
        let f0 = spec_u16_at(p, s);
        let c1 = s + 2;
        if c1 + 8 > e {
            None
        } else {
            let f1 = spec_u64_at(p, c1);
            let c2 = c1 + 8;
            if c2 != e {
                None
            } else {
                Some((f0, f1))
            }
        }
    }
}

/// Wire form of a `NID` view, names written uncompressed.
pub open spec fn spec_encode_nid(v: (u16, u64)) -> Seq<u8> {
    be16(v.0) + be64(v.1)
}

/// Views that survive an encode and decode unchanged.
pub open spec fn spec_valid_nid(v: (u16, u64)) -> bool {
    true
}

/// Decode `NID` RDATA from `packet[start..end]`.
pub fn parse_nid_rdata(packet: &[u8], start: usize, end: usize) -> (r: Result<NID, ProtoError>)
    requires
        start <= end <= packet@.len(),
    ensures
        match spec_parse_nid(packet@, start as int, end as int) {
            Some(v) => r matches Ok(x) && x@ == v,
            None => r is Err,
        },
{
    if start > end || end - start < 2 { return Err(ProtoError::protocol("invalid NID rdata length")); }
    let f0 = read_u16_be(packet, start);
    let c1 = start + 2;
    if c1 > end || end - c1 < 8 { return Err(ProtoError::protocol("invalid NID rdata length")); }
    let f1 = read_u64_be(packet, c1);
    let c2 = c1 + 8;
    if c2 != end { return Err(ProtoError::protocol("invalid NID rdata length")); }
    Ok(NID { preference: f0, node_id: f1 })
}

/// Decode `NID` RDATA from `packet[start..end]` as an [`RData`] value.
pub fn parse_nid(packet: &[u8], start: usize, end: usize) -> (r: Result<RData, ProtoError>)
    requires
        start <= end <= packet@.len(),
    ensures
        match spec_parse_nid(packet@, start as int, end as int) {
            Some(v) => r matches Ok(RData::NID(x)) && x@ == v,
            None => r is Err,
        },
{
    match parse_nid_rdata(packet, start, end) {
        Ok(x) => Ok(RData::NID(x)),
        Err(e) => Err(e),
    }
}

/// Append the `NID` wire form.
pub fn encode_nid(value: &NID, out: &mut Vec<u8>)
    ensures
        final(out)@ == old(out)@ + spec_encode_nid(value@),
{
    let ghost o = old(out)@;
    push_u16(out, value.preference);
    push_u64(out, value.node_id);
    proof {
        assert(out@ =~= o + spec_encode_nid(value@));
    }
}

/// Decoding the encoding of a valid `NID` view gives the view back.
pub proof fn lemma_nid_roundtrip(v: (u16, u64))
    requires
        spec_valid_nid(v),
    ensures
        spec_parse_nid(spec_encode_nid(v), 0, spec_encode_nid(v).len() as int) == Some(v),
{
    let b = spec_encode_nid(v);
    let o0: int = 0;
    let o1: int = o0 + 2;
    assert(b.subrange(o0, o1) =~= be16(v.0));
    lemma_read_be16(b, o0, v.0);
    let o2: int = o1 + 8;
    assert(b.subrange(o1, o2) =~= be64(v.1));
    lemma_read_be64(b, o1, v.1);
    assert(b.len() == o2);
}

impl View for L32 {
    type V = (u16, Seq<u8>);

    open spec fn view(&self) -> (u16, Seq<u8>) {
        (self.preference, self.locator@)
    }
}

/// Decoded form of `L32` RDATA held in `p[s..e]`.
pub open spec fn spec_parse_l32(p: Seq<u8>, s: int, e: int) -> Option<(u16, Seq<u8>)> {
    if s + 2 > e {
        None
    } else {
        let f0 = spec_u16_at(p, s);
        let c1 = s + 2;
        if c1 + 4 > e {
            None
        } else {
            let f1 = p.subrange(c1, c1 + 4);
            let c2 = c1 + 4;
            if c2 != e {
                None
            } else {
                Some((f0, f1))
            }
        }
    }
}

/// Wire form of a `L32` view, names written uncompressed.
pub open spec fn spec_encode_l32(v: (u16, Seq<u8>)) -> Seq<u8> {
    be16(v.0) + v.1
}

/// Views that survive an encode and decode unchanged.
pub open spec fn spec_valid_l32(v: (u16, Seq<u8>)) -> bool {
    v.1.len() == 4
}

/// Decode `L32` RDATA from `packet[start..end]`.
pub fn parse_l32_rdata(packet: &[u8], start: usize, end: usize) -> (r: Result<L32, ProtoError>)
    requires
        start <= end <= packet@.len(),
    ensures
        match spec_parse_l32(packet@, start as int, end as int) {
            Some(v) => r matches Ok(x) && x@ == v,
            None => r is Err,
        },
{
    if start > end || end - start < 2 { return Err(ProtoError::protocol("invalid L32 rdata length")); }
    let f0 = read_u16_be(packet, start);
    let c1 = start + 2;
    if c1 > end || end - c1 < 4 { return Err(ProtoError::protocol("invalid L32 rdata length")); }
    let f1: [u8; 4] = [packet[c1], packet[c1 + 1], packet[c1 + 2], packet[c1 + 3]];
    proof { assert(f1@ =~= packet@.subrange(c1 as int, c1 + 4)); }
    let c2 = c1 + 4;
    if c2 != end { return Err(ProtoError::protocol("invalid L32 rdata length")); }
    Ok(L32 { preference: f0, locator: f1 })
}

/// Decode `L32` RDATA from `packet[start..end]` as an [`RData`] value.
pub fn parse_l32(packet: &[u8], start: usize, end: usize) -> (r: Result<RData, ProtoError>)
    requires
        start <= end <= packet@.len(),
    ensures
        match spec_parse_l32(packet@, start as int, end as int) {
            Some(v) => r matches Ok(RData::L32(x)) && x@ == v,
            None => r is Err,
        },
{
    match parse_l32_rdata(packet, start, end) {
        Ok(x) => Ok(RData::L32(x)),
        Err(e) => Err(e),
    }
}

/// Append the `L32` wire form.
pub fn encode_l32(value: &L32, out: &mut Vec<u8>)
    ensures
        final(out)@ == old(out)@ + spec_encode_l32(value@),
{
    let ghost o = old(out)@;
    push_u16(out, value.preference);
    push_bytes(out, value.locator.as_slice());
    proof {
        assert(out@ =~= o + spec_encode_l32(value@));
    }
}

/// Decoding the encoding of a valid `L32` view gives the view back.
pub proof fn lemma_l32_roundtrip(v: (u16, Seq<u8>))
    requires
        spec_valid_l32(v),
    ensures
        spec_parse_l32(spec_encode_l32(v), 0, spec_encode_l32(v).len() as int) == Some(v),
{
    let b = spec_encode_l32(v);
    let o0: int = 0;
    let o1: int = o0 + 2;
    assert(b.subrange(o0, o1) =~= be16(v.0));
    lemma_read_be16(b, o0, v.0);
    let o2: int = o1 + 4;
    assert(b.subrange(o1, o2) =~= v.1);
    assert(b.len() == o2);
}

impl View for L64 {
    type V = (u16, u64);

    open spec fn view(&self) -> (u16, u64) {
        (self.preference, self.locator)
    }
}

/// Decoded form of `L64` RDATA held in `p[s..e]`.
pub open spec fn spec_parse_l64(p: Seq<u8>, s: int, e: int) -> Option<(u16, u64)> {
    if s + 2 > e {
        None
    } else {
        let f0 = spec_u16_at(p, s);
        let c1 = s + 2;
        if c1 + 8 > e {
            None
        } else {
            let f1 = spec_u64_at(p, c1);
            let c2 = c1 + 8;
            if c2 != e {
                None
            } else {
                Some((f0, f1))
            }
        }
    }
}

/// Wire form of a `L64` view, names written uncompressed.
pub open spec fn spec_encode_l64(v: (u16, u64)) -> Seq<u8> {
    be16(v.0) + be64(v.1)
}

/// Views that survive an encode and decode unchanged.
pub open spec fn spec_valid_l64(v: (u16, u64)) -> bool {
    true
}

/// Decode `L64` RDATA from `packet[start..end]`.
pub fn parse_l64_rdata(packet: &[u8], start: usize, end: usize) -> (r: Result<L64, ProtoError>)
    requires
        start <= end <= packet@.len(),
    ensures
        match spec_parse_l64(packet@, start as int, end as int) {
            Some(v) => r matches Ok(x) && x@ == v,
            None => r is Err,
        },
{
    if start > end || end - start < 2 { return Err(ProtoError::protocol("invalid L64 rdata length")); }
    let f0 = read_u16_be(packet, start);
    let c1 = start + 2;
    if c1 > end || end - c1 < 8 { return Err(ProtoError::protocol("invalid L64 rdata length")); }
    let f1 = read_u64_be(packet, c1);
    let c2 = c1 + 8;
    if c2 != end { return Err(ProtoError::protocol("invalid L64 rdata length")); }
    Ok(L64 { preference: f0, locator: f1 })
}

/// Decode `L64` RDATA from `packet[start..end]` as an [`RData`] value.
pub fn parse_l64(packet: &[u8], start: usize, end: usize) -> (r: Result<RData, ProtoError>)
    requires
        start <= end <= packet@.len(),
    ensures
        match spec_parse_l64(packet@, start as int, end as int) {
            Some(v) => r matches Ok(RData::L64(x)) && x@ == v,
            None => r is Err,
        },
{
    match parse_l64_rdata(packet, start, end) {
        Ok(x) => Ok(RData::L64(x)),
        Err(e) => Err(e),
    }
}

/// Append the `L64` wire form.
pub fn encode_l64(value: &L64, out: &mut Vec<u8>)
    ensures
        final(out)@ == old(out)@ + spec_encode_l64(value@),
{
    let ghost o = old(out)@;
    push_u16(out, value.preference);
    push_u64(out, value.locator);
    proof {
        assert(out@ =~= o + spec_encode_l64(value@));
    }
}

/// Decoding the encoding of a valid `L64` view gives the view back.
pub proof fn lemma_l64_roundtrip(v: (u16, u64))
    requires
        spec_valid_l64(v),
    ensures
        spec_parse_l64(spec_encode_l64(v), 0, spec_encode_l64(v).len() as int) == Some(v),
{
    let b = spec_encode_l64(v);
    let o0: int = 0;
    let o1: int = o0 + 2;
    assert(b.subrange(o0, o1) =~= be16(v.0));
    lemma_read_be16(b, o0, v.0);
    let o2: int = o1 + 8;
    assert(b.subrange(o1, o2) =~= be64(v.1));
    lemma_read_be64(b, o1, v.1);
    assert(b.len() == o2);
}

impl View for LP {
    type V = (u16, Seq<u8>);

    open spec fn view(&self) -> (u16, Seq<u8>) {
        (self.preference, self.fqdn@)
    }
}

/// Decoded form of `LP` RDATA held in `p[s..e]`.
pub open spec fn spec_parse_lp(p: Seq<u8>, s: int, e: int) -> Option<(u16, Seq<u8>)> {
    spec_u16_name_rdata(p, s, e)
}

/// Wire form of a `LP` view, names written uncompressed.
pub open spec fn spec_encode_lp(v: (u16, Seq<u8>)) -> Seq<u8> {
    be16(v.0) + v.1
}

/// Views that survive an encode and decode unchanged.
pub open spec fn spec_valid_lp(v: (u16, Seq<u8>)) -> bool {
    name_wire_ok(v.1)
}

/// Decode `LP` RDATA from `packet[start..end]`.
pub fn parse_lp_rdata(packet: &[u8], start: usize, end: usize) -> (r: Result<LP, ProtoError>)
    requires
        start <= end <= packet@.len(),
    ensures
        match spec_parse_lp(packet@, start as int, end as int) {
            Some(v) => r matches Ok(x) && x@ == v,
            None => r is Err,
        },
{
    let (f0, f1) = match parse_u16_name(packet, start, end, "LP") { Ok(x) => x, Err(e) => return Err(e) };
    Ok(LP { preference: f0, fqdn: f1 })
}

/// Decode `LP` RDATA from `packet[start..end]` as an [`RData`] value.
pub fn parse_lp(packet: &[u8], start: usize, end: usize) -> (r: Result<RData, ProtoError>)
    requires
        start <= end <= packet@.len(),
    ensures
        match spec_parse_lp(packet@, start as int, end as int) {
            Some(v) => r matches Ok(RData::LP(x)) && x@ == v,
            None => r is Err,
        },
{
    match parse_lp_rdata(packet, start, end) {
        Ok(x) => Ok(RData::LP(x)),
        Err(e) => Err(e),
    }
}

/// Append the `LP` wire form, names uncompressed.
pub fn encode_lp(value: &LP, out: &mut Vec<u8>) -> (r: Result<(), ProtoError>)
    ensures
        r is Ok,
        final(out)@ == old(out)@ + spec_encode_lp(value@),
{
    let ghost o = old(out)@;
    push_u16(out, value.preference);
    push_bytes(out, value.fqdn.wire());
    proof {
        assert(out@ =~= o + spec_encode_lp(value@));
    }
    Ok(())
}

/// Decoding the encoding of a valid `LP` view gives the view back.
pub proof fn lemma_lp_roundtrip(v: (u16, Seq<u8>))
    requires
        spec_valid_lp(v),
    ensures
        spec_parse_lp(spec_encode_lp(v), 0, spec_encode_lp(v).len() as int) == Some(v),
{
    let b = spec_encode_lp(v);
    let o0: int = 0;
    let o1: int = o0 + 2;
    assert(b.subrange(o0, o1) =~= be16(v.0));
    lemma_read_be16(b, o0, v.0);
    let o2: int = o1 + v.1.len();
    assert(b.subrange(o1, o2) =~= v.1);
    lemma_parse_plain_name(b, o1, v.1);
    assert(b.len() == o2);
}

impl View for EUI48 {
    type V = u64;

    open spec fn view(&self) -> u64 {
        self.0
    }
}

/// Decoded form of `EUI48` RDATA held in `p[s..e]`.
pub open spec fn spec_parse_eui48(p: Seq<u8>, s: int, e: int) -> Option<u64> {
    if s + 6 > e {
        None
    } else {
        let f0 = spec_u48_at(p, s);
        let c1 = s + 6;
        if c1 != e {
            None
        } else {
            Some(f0)
        }
    }
}

/// Wire form of a `EUI48` view, names written uncompressed.
pub open spec fn spec_encode_eui48(v: u64) -> Seq<u8> {
    be48(v)
}

/// Views that survive an encode and decode unchanged.
pub open spec fn spec_valid_eui48(v: u64) -> bool {
    v < 0x1_0000_0000_0000
}

/// Decode `EUI48` RDATA from `packet[start..end]`.
pub fn parse_eui48_rdata(packet: &[u8], start: usize, end: usize) -> (r: Result<EUI48, ProtoError>)
    requires
        start <= end <= packet@.len(),
    ensures
        match spec_parse_eui48(packet@, start as int, end as int) {
            Some(v) => r matches Ok(x) && x@ == v,
            None => r is Err,
        },
{
    if start > end || end - start < 6 { return Err(ProtoError::protocol("invalid EUI48 rdata length")); }
    let f0 = read_u48_be(packet, start);
    let c1 = start + 6;
    if c1 != end { return Err(ProtoError::protocol("invalid EUI48 rdata length")); }
    Ok(EUI48(f0))
}

/// Decode `EUI48` RDATA from `packet[start..end]` as an [`RData`] value.
pub fn parse_eui48(packet: &[u8], start: usize, end: usize) -> (r: Result<RData, ProtoError>)
    requires
        start <= end <= packet@.len(),
    ensures
        match spec_parse_eui48(packet@, start as int, end as int) {
            Some(v) => r matches Ok(RData::EUI48(x)) && x@ == v,
            None => r is Err,
        },
{
    match parse_eui48_rdata(packet, start, end) {
        Ok(x) => Ok(RData::EUI48(x)),
        Err(e) => Err(e),
    }
}

/// Append the `EUI48` wire form.
pub fn encode_eui48(value: &EUI48, out: &mut Vec<u8>)
    ensures
        final(out)@ == old(out)@ + spec_encode_eui48(value@),
{
    let ghost o = old(out)@;
    push_u48(out, value.0);
    proof {
        assert(out@ =~= o + spec_encode_eui48(value@));
    }
}

/// Decoding the encoding of a valid `EUI48` view gives the view back.
pub proof fn lemma_eui48_roundtrip(v: u64)
    requires
        spec_valid_eui48(v),
    ensures
        spec_parse_eui48(spec_encode_eui48(v), 0, spec_encode_eui48(v).len() as int) == Some(v),
{
    let b = spec_encode_eui48(v);
    let o0: int = 0;
    let o1: int = o0 + 6;
    assert(b.subrange(o0, o1) =~= be48(v));
    lemma_read_be48(b, o0, v);
    assert(b.len() == o1);
}

impl View for EUI64 {
    type V = u64;

    open spec fn view(&self) -> u64 {
        self.0
    }
}

/// Decoded form of `EUI64` RDATA held in `p[s..e]`.
pub open spec fn spec_parse_eui64(p: Seq<u8>, s: int, e: int) -> Option<u64> {
    if s + 8 > e {
        None
    } else {
        let f0 = spec_u64_at(p, s);
        let c1 = s + 8;
        if c1 != e {
            None
        } else {
            Some(f0)
        }
    }
}

/// Wire form of a `EUI64` view, names written uncompressed.
pub open spec fn spec_encode_eui64(v: u64) -> Seq<u8> {
    be64(v)
}

/// Views that survive an encode and decode unchanged.
pub open spec fn spec_valid_eui64(v: u64) -> bool {
    true
}

/// Decode `EUI64` RDATA from `packet[start..end]`.
pub fn parse_eui64_rdata(packet: &[u8], start: usize, end: usize) -> (r: Result<EUI64, ProtoError>)
    requires
        start <= end <= packet@.len(),
    ensures
        match spec_parse_eui64(packet@, start as int, end as int) {
            Some(v) => r matches Ok(x) && x@ == v,
            None => r is Err,
        },
{
    if start > end || end - start < 8 { return Err(ProtoError::protocol("invalid EUI64 rdata length")); }
    let f0 = read_u64_be(packet, start);
    let c1 = start + 8;
    if c1 != end { return Err(ProtoError::protocol("invalid EUI64 rdata length")); }
    Ok(EUI64(f0))
}

/// Decode `EUI64` RDATA from `packet[start..end]` as an [`RData`] value.
pub fn parse_eui64(packet: &[u8], start: usize, end: usize) -> (r: Result<RData, ProtoError>)
    requires
        start <= end <= packet@.len(),
    ensures
        match spec_parse_eui64(packet@, start as int, end as int) {
            Some(v) => r matches Ok(RData::EUI64(x)) && x@ == v,
            None => r is Err,
        },
{
    match parse_eui64_rdata(packet, start, end) {
        Ok(x) => Ok(RData::EUI64(x)),
        Err(e) => Err(e),
    }
}

/// Append the `EUI64` wire form.
pub fn encode_eui64(value: &EUI64, out: &mut Vec<u8>)
    ensures
        final(out)@ == old(out)@ + spec_encode_eui64(value@),
{
    let ghost o = old(out)@;
    push_u64(out, value.0);
    proof {
        assert(out@ =~= o + spec_encode_eui64(value@));
    }
}

/// Decoding the encoding of a valid `EUI64` view gives the view back.
pub proof fn lemma_eui64_roundtrip(v: u64)
    requires
        spec_valid_eui64(v),
    ensures
        spec_parse_eui64(spec_encode_eui64(v), 0, spec_encode_eui64(v).len() as int) == Some(v),
{
    let b = spec_encode_eui64(v);
    let o0: int = 0;
    let o1: int = o0 + 8;
    assert(b.subrange(o0, o1) =~= be64(v));
    lemma_read_be64(b, o0, v);
    assert(b.len() == o1);
}

/// Length of the gateway field selected by `gateway_type` (RFC 4025 section
/// 2.3, RFC 8777 section 4.2.3) starting at `c`: none, an IPv4 or IPv6
/// address, or a domain name measured as it stands in the packet.
pub open spec fn spec_gateway_len(p: Seq<u8>, c: int, gateway_type: u8) -> Option<int> {
    let t = gateway_type % 128;
    if t == 0 {
        Some(0)
    } else if t == 1 {
        Some(4)
    } else if t == 2 {
        Some(16)
    } else if t == 3 {
        match spec_parse_name(p, c) {
            Some((_, k)) => Some(k - c),
            None => None,
        }
    } else {
        None
    }
}

fn gateway_len(packet: &[u8], cursor: usize, gateway_type: u8, kind: &str) -> (r: Result<usize, ProtoError>)
    requires
        cursor <= packet@.len(),
    ensures
        match spec_gateway_len(packet@, cursor as int, gateway_type) {
            Some(g) => r matches Ok(x) && x == g,
            None => r is Err,
        },
{
    let t = gateway_type % 128;
    if t == 0 {
        Ok(0)
    } else if t == 1 {
        Ok(4)
    } else if t == 2 {
        Ok(16)
    } else if t == 3 {
        let (_, next) = match Name::parse(packet, cursor) {
            Ok(x) => x,
            Err(e) => return Err(e),
        };
        Ok(next - cursor)
    } else {
        Err(ProtoError::described("invalid ", kind, " gateway type"))
    }
}

impl View for IPSECKEY {
    type V = (u8, u8, u8, Seq<u8>, Seq<u8>);

    open spec fn view(&self) -> (u8, u8, u8, Seq<u8>, Seq<u8>) {
        (self.precedence, self.gateway_type, self.algorithm, self.gateway@, self.public_key@)
    }
}

/// IPSECKEY RDATA (RFC 4025 section 2.1): precedence, gateway type,
/// algorithm, the gateway its type selects, and the public key.
pub open spec fn spec_parse_ipseckey(p: Seq<u8>, s: int, e: int) -> Option<(u8, u8, u8, Seq<u8>, Seq<u8>)> {
    if s + 3 > e {
        None
    } else {
        match spec_gateway_len(p, s + 3, p[s + 1]) {
            None => None,
            Some(g) => if s + 3 + g > e {
                None
            } else {
                Some((p[s], p[s + 1], p[s + 2], p.subrange(s + 3, s + 3 + g), p.subrange(s + 3 + g, e)))
            },
        }
    }
}

/// Wire form of an IPSECKEY view.
pub open spec fn spec_encode_ipseckey(v: (u8, u8, u8, Seq<u8>, Seq<u8>)) -> Seq<u8> {
    seq![v.0, v.1, v.2] + v.3 + v.4
}

/// Decode IPSECKEY RDATA.
pub fn parse_ipseckey_rdata(packet: &[u8], start: usize, end: usize) -> (r: Result<IPSECKEY, ProtoError>)
    requires
        start <= end <= packet@.len(),
    ensures
        match spec_parse_ipseckey(packet@, start as int, end as int) {
            Some(v) => r matches Ok(x) && x@ == v,
            None => r is Err,
        },
{
    if end - start < 3 {
        return Err(ProtoError::protocol("invalid IPSECKEY rdata length"));
    }
    let precedence = packet[start];
    let gateway_type = packet[start + 1];
    let algorithm = packet[start + 2];
    let cursor = start + 3;
    let glen = match gateway_len(packet, cursor, gateway_type, "IPSECKEY") {
        Ok(g) => g,
        Err(e) => return Err(e),
    };
    if glen > end - cursor {
        return Err(ProtoError::protocol("invalid IPSECKEY rdata length"));
    }
    let gateway_end = cursor + glen;
    Ok(IPSECKEY::new(
        precedence,
        gateway_type,
        algorithm,
        copy_range(packet, cursor, gateway_end),
        copy_range(packet, gateway_end, end),
    ))
}

/// Decode IPSECKEY RDATA as an [`RData`] value.
pub fn parse_ipseckey(packet: &[u8], start: usize, end: usize) -> (r: Result<RData, ProtoError>)
    requires
        start <= end <= packet@.len(),
    ensures
        match spec_parse_ipseckey(packet@, start as int, end as int) {
            Some(v) => r matches Ok(RData::IPSECKEY(x)) && x@ == v,
            None => r is Err,
        },
{
    match parse_ipseckey_rdata(packet, start, end) {
        Ok(x) => Ok(RData::IPSECKEY(x)),
        Err(e) => Err(e),
    }
}

/// Append IPSECKEY precedence, gateway type, algorithm, gateway and key.
pub fn encode_ipseckey(value: &IPSECKEY, out: &mut Vec<u8>)
    ensures
        final(out)@ == old(out)@ + spec_encode_ipseckey(value@),
{
    let ghost o = old(out)@;
    out.push(value.precedence);
    out.push(value.gateway_type);
    out.push(value.algorithm);
    push_bytes(out, value.gateway.as_slice());
    push_bytes(out, value.public_key.as_slice());
    proof {
        assert(out@ =~= o + spec_encode_ipseckey(value@));
    }
}

/// A gateway that matches its type: empty, four or sixteen octets, or a
/// well-formed uncompressed name.
pub open spec fn spec_gateway_ok(gateway_type: u8, g: Seq<u8>) -> bool {
    let t = gateway_type % 128;
    ||| t == 0 && g.len() == 0
    ||| t == 1 && g.len() == 4
    ||| t == 2 && g.len() == 16
    ||| t == 3 && name_wire_ok(g)
}

proof fn lemma_gateway_len(b: Seq<u8>, c: int, gateway_type: u8, g: Seq<u8>)
    requires
        spec_gateway_ok(gateway_type, g),
        0 <= c,
        c + g.len() <= b.len(),
        b.subrange(c, c + g.len()) == g,
    ensures
        spec_gateway_len(b, c, gateway_type) == Some(g.len() as int),
{
    if gateway_type % 128 == 3 {
        lemma_parse_plain_name(b, c, g);
    }
}

/// Decoding the encoding of an IPSECKEY view whose gateway matches its
/// type gives it back.
pub proof fn lemma_ipseckey_roundtrip(v: (u8, u8, u8, Seq<u8>, Seq<u8>))
    requires
        spec_gateway_ok(v.1, v.3),
    ensures
        spec_parse_ipseckey(spec_encode_ipseckey(v), 0, spec_encode_ipseckey(v).len() as int) == Some(v),
{
    let b = spec_encode_ipseckey(v);
    let ge: int = 3int + v.3.len();
    assert(b.subrange(3, ge) =~= v.3);
    assert(b.subrange(ge, b.len() as int) =~= v.4);
    lemma_gateway_len(b, 3, v.1, v.3);
}

impl View for AMTRELAY {
    type V = (u8, u8, Seq<u8>);

    open spec fn view(&self) -> (u8, u8, Seq<u8>) {
        (self.precedence, self.gateway_type, self.gateway@)
    }
}

/// AMTRELAY RDATA (RFC 8777 section 4.2): precedence, type, and a relay
/// that fills the rest exactly as its type requires.
pub open spec fn spec_parse_amtrelay(p: Seq<u8>, s: int, e: int) -> Option<(u8, u8, Seq<u8>)> {
    if s + 2 > e {
        None
    } else {
        match spec_gateway_len(p, s + 2, p[s + 1]) {
            None => None,
            Some(g) => if s + 2 + g != e {
                None
            } else {
                Some((p[s], p[s + 1], p.subrange(s + 2, e)))
            },
        }
    }
}

/// Wire form of an AMTRELAY view.
pub open spec fn spec_encode_amtrelay(v: (u8, u8, Seq<u8>)) -> Seq<u8> {
    seq![v.0, v.1] + v.2
}

/// Decode AMTRELAY RDATA.
pub fn parse_amtrelay_rdata(packet: &[u8], start: usize, end: usize) -> (r: Result<AMTRELAY, ProtoError>)
    requires
        start <= end <= packet@.len(),
    ensures
        match spec_parse_amtrelay(packet@, start as int, end as int) {
            Some(v) => r matches Ok(x) && x@ == v,
            None => r is Err,
        },
{
    if end - start < 2 {
        return Err(ProtoError::protocol("invalid AMTRELAY rdata length"));
    }
    let precedence = packet[start];
    let gateway_type = packet[start + 1];
    let cursor = start + 2;
    let glen = match gateway_len(packet, cursor, gateway_type, "AMTRELAY") {
        Ok(g) => g,
        Err(e) => return Err(e),
    };
    if glen != end - cursor {
        return Err(ProtoError::protocol("invalid AMTRELAY rdata length"));
    }
    Ok(AMTRELAY::new(precedence, gateway_type, copy_range(packet, cursor, end)))
}

/// Decode AMTRELAY RDATA as an [`RData`] value.
pub fn parse_amtrelay(packet: &[u8], start: usize, end: usize) -> (r: Result<RData, ProtoError>)
    requires
        start <= end <= packet@.len(),
    ensures
        match spec_parse_amtrelay(packet@, start as int, end as int) {
            Some(v) => r matches Ok(RData::AMTRELAY(x)) && x@ == v,
            None => r is Err,
        },
{
    match parse_amtrelay_rdata(packet, start, end) {
        Ok(x) => Ok(RData::AMTRELAY(x)),
        Err(e) => Err(e),
    }
}

/// Append AMTRELAY precedence, type and relay.
pub fn encode_amtrelay(value: &AMTRELAY, out: &mut Vec<u8>)
    ensures
        final(out)@ == old(out)@ + spec_encode_amtrelay(value@),
{
    let ghost o = old(out)@;
    out.push(value.precedence);
    out.push(value.gateway_type);
    push_bytes(out, value.gateway.as_slice());
    proof {
        assert(out@ =~= o + spec_encode_amtrelay(value@));
    }
}

/// Decoding the encoding of an AMTRELAY view whose relay matches its type
/// gives it back.
pub proof fn lemma_amtrelay_roundtrip(v: (u8, u8, Seq<u8>))
    requires
        spec_gateway_ok(v.1, v.2),
    ensures
        spec_parse_amtrelay(spec_encode_amtrelay(v), 0, spec_encode_amtrelay(v).len() as int) == Some(v),
{
    let b = spec_encode_amtrelay(v);
    assert(b.subrange(2, b.len() as int) =~= v.2);
    lemma_gateway_len(b, 2, v.1, v.2);
}


impl View for SvcParam {
    type V = (u16, Seq<u8>);

    open spec fn view(&self) -> (u16, Seq<u8>) {
        (self.key, self.value@)
    }
}

impl View for SVCB {
    type V = (u16, Seq<u8>, Seq<(u16, Seq<u8>)>);

    open spec fn view(&self) -> (u16, Seq<u8>, Seq<(u16, Seq<u8>)>) {
        (self.priority, self.target@, self.params@.map_values(|x: SvcParam| x@))
    }
}

impl View for HTTPS {
    type V = (u16, Seq<u8>, Seq<(u16, Seq<u8>)>);

    open spec fn view(&self) -> (u16, Seq<u8>, Seq<(u16, Seq<u8>)>) {
        self.0@
    }
}

/// SvcParams (RFC 9460 section 2.2) from `c` up to `e`: keys strictly
/// increasing, 65535 reserved; `last` is the previous key (`-1` for none).
pub open spec fn spec_svc_params(p: Seq<u8>, c: int, e: int, last: int) -> Option<Seq<(u16, Seq<u8>)>>
    decreases e - c,
{
    if c >= e {
        Some(Seq::empty())
    } else if c + 4 > e {
        None
    } else {
        let key = spec_u16_at(p, c);
        let ve = c + 4 + spec_u16_at(p, c + 2);
        if key == 65535 || (last >= 0 && key <= last) || ve > e {
            None
        } else {
            match spec_svc_params(p, ve, e, key as int) {
                None => None,
                Some(rest) => Some(seq![(key, p.subrange(c + 4, ve))] + rest),
            }
        }
    }
}

/// SVCB/HTTPS RDATA (RFC 9460 section 2.2): priority, target name, then the
/// parameters up to the end.
pub open spec fn spec_parse_svcb(p: Seq<u8>, s: int, e: int) -> Option<(u16, Seq<u8>, Seq<(u16, Seq<u8>)>)> {
    if s + 2 > e {
        None
    } else {
        match spec_parse_name(p, s + 2) {
            None => None,
            Some((t, c)) => match spec_svc_params(p, c, e, -1) {
                None => None,
                Some(ps) => Some((spec_u16_at(p, s), t, ps)),
            },
        }
    }
}

/// Decode SVCB RDATA.
pub fn parse_svcb_rdata(packet: &[u8], start: usize, end: usize) -> (r: Result<SVCB, ProtoError>)
    requires
        start <= end <= packet@.len(),
    ensures
        match spec_parse_svcb(packet@, start as int, end as int) {
            Some(v) => r matches Ok(x) && x@ == v,
            None => r is Err,
        },
{
    if end - start < 2 {
        return Err(ProtoError::protocol("invalid SVCB rdata length"));
    }
    let priority = read_u16_be(packet, start);
    let (target, first) = match Name::parse(packet, start + 2) {
        Ok(x) => x,
        Err(e) => return Err(e),
    };
    let mut cursor = first;
    let mut params: Vec<SvcParam> = Vec::new();
    let mut last: Option<u16> = None;
    while cursor < end
        invariant
            cursor <= packet@.len(),
            end <= packet@.len(),
            spec_parse_svcb(packet@, start as int, end as int) == match spec_svc_params(
                packet@,
                first as int,
                end as int,
                -1,
            ) {
                None => None,
                Some(ps) => Some((priority, target@, ps)),
            },
            spec_svc_params(packet@, first as int, end as int, -1) == match spec_svc_params(
                packet@,
                cursor as int,
                end as int,
                match last {
                    Some(k) => k as int,
                    None => -1,
                },
            ) {
                Some(rest) => Some(params@.map_values(|x: SvcParam| x@) + rest),
                None => None,
            },
        decreases end - cursor,
    {
        if end - cursor < 4 {
            return Err(ProtoError::protocol("invalid SVCB rdata length"));
        }
        let key = read_u16_be(packet, cursor);
        if key == 65535 {
            return Err(ProtoError::protocol("svcparamkey 65535 is reserved"));
        }
        if let Some(prev) = last {
            if key <= prev {
                return Err(ProtoError::protocol("SVCB parameter keys must be strictly increasing"));
            }
        }
        let len = read_u16_be(packet, cursor + 2) as usize;
        let value_start = cursor + 4;
        if len > end - value_start {
            return Err(ProtoError::protocol("invalid SVCB rdata length"));
        }
        let value_end = value_start + len;
        let ghost before = params@;
        params.push(SvcParam::new(key, copy_range(packet, value_start, value_end)));
        proof {
            let item = (key, packet@.subrange(value_start as int, value_end as int));
            assert(params@.map_values(|x: SvcParam| x@) =~= before.map_values(|x: SvcParam| x@).push(item));
            match spec_svc_params(packet@, value_end as int, end as int, key as int) {
                Some(rest) => {
                    assert(before.map_values(|x: SvcParam| x@) + (seq![item] + rest) =~= before.map_values(
                        |x: SvcParam| x@,
                    ).push(item) + rest);
                },
                None => {},
            }
        }
        cursor = value_end;
        last = Some(key);
    }
    proof {
        assert(params@.map_values(|x: SvcParam| x@) + Seq::empty() =~= params@.map_values(|x: SvcParam| x@));
    }
    Ok(SVCB::new(priority, target, params))
}

/// Decode SVCB RDATA as an [`RData`] value.
pub fn parse_svcb(packet: &[u8], start: usize, end: usize) -> (r: Result<RData, ProtoError>)
    requires
        start <= end <= packet@.len(),
    ensures
        match spec_parse_svcb(packet@, start as int, end as int) {
            Some(v) => r matches Ok(RData::SVCB(x)) && x@ == v,
            None => r is Err,
        },
{
    match parse_svcb_rdata(packet, start, end) {
        Ok(x) => Ok(RData::SVCB(x)),
        Err(e) => Err(e),
    }
}

/// Decode HTTPS RDATA, which has the SVCB layout (RFC 9460 section 9).
pub fn parse_https(packet: &[u8], start: usize, end: usize) -> (r: Result<RData, ProtoError>)
    requires
        start <= end <= packet@.len(),
    ensures
        match spec_parse_svcb(packet@, start as int, end as int) {
            Some(v) => r matches Ok(RData::HTTPS(x)) && x@ == v,
            None => r is Err,
        },
{
    match parse_svcb_rdata(packet, start, end) {
        Ok(x) => Ok(RData::HTTPS(HTTPS(x))),
        Err(e) => Err(e),
    }
}

/// Ascending order on keys.
pub open spec fn spec_key_leq() -> spec_fn(u16, u16) -> bool {
    |a: u16, b: u16| a <= b
}

/// Two-byte big-endian encodings of `ks`, one after the other.
pub open spec fn spec_be16_list(ks: Seq<u16>) -> Seq<u8>
    decreases ks.len(),
{
    if ks.len() == 0 {
        Seq::empty()
    } else {
        spec_be16_list(ks.drop_last()) + be16(ks.last())
    }
}

/// Canonical wire value of a parameter: a well-formed mandatory key list is
/// written with its keys in ascending order; every other value as it is.
pub open spec fn spec_svc_canonical_value(key: u16, v: Seq<u8>) -> Seq<u8> {
    if key == 0 && v.len() > 0 && v.len() % 2 == 0 {
        spec_be16_list(spec_u16_list(v).sort_by(spec_key_leq()))
    } else {
        v
    }
}

/// Wire form of one parameter: key, value length, canonical value.
pub open spec fn spec_svc_param_wire(x: (u16, Seq<u8>)) -> Seq<u8> {
    let cv = spec_svc_canonical_value(x.0, x.1);
    be16(x.0) + be16(cv.len() as u16) + cv
}

/// Parameters written one after the other.
pub open spec fn spec_svc_params_wire(ps: Seq<(u16, Seq<u8>)>) -> Seq<u8>
    decreases ps.len(),
{
    if ps.len() == 0 {
        Seq::empty()
    } else {
        spec_svc_params_wire(ps.drop_last()) + spec_svc_param_wire(ps.last())
    }
}

/// Keys of a parameter list.
pub open spec fn spec_svc_keys(ps: Seq<(u16, Seq<u8>)>) -> Seq<u16> {
    ps.map_values(|x: (u16, Seq<u8>)| x.0)
}

/// Value of the first parameter with key `k`.
pub open spec fn spec_svc_lookup(ps: Seq<(u16, Seq<u8>)>, k: u16) -> Seq<u8>
    decreases ps.len(),
{
    if ps.len() == 0 {
        Seq::empty()
    } else if ps[0].0 == k {
        ps[0].1
    } else {
        spec_svc_lookup(ps.drop_first(), k)
    }
}

/// The parameters in ascending key order.
pub open spec fn spec_svc_sorted(ps: Seq<(u16, Seq<u8>)>) -> Seq<(u16, Seq<u8>)> {
    let ks = spec_svc_keys(ps).sort_by(spec_key_leq());
    Seq::new(ks.len(), |i: int| (ks[i], spec_svc_lookup(ps, ks[i])))
}

/// Parameters that can be written: distinct keys, none reserved, every
/// canonical value fits a 16-bit length.
pub open spec fn spec_svc_encodable(ps: Seq<(u16, Seq<u8>)>) -> bool {
    &&& spec_svc_keys(ps).no_duplicates()
    &&& forall|i: int| 0 <= i < ps.len() ==> (#[trigger] ps[i]).0 != 65535
    &&& forall|i: int| 0 <= i < ps.len() ==> spec_svc_canonical_value((#[trigger] ps[i]).0, ps[i].1).len() <= 65535
}

/// Wire form of an SVCB view: priority, uncompressed target, then the
/// parameters in ascending key order with canonical values.
pub open spec fn spec_encode_svcb(v: (u16, Seq<u8>, Seq<(u16, Seq<u8>)>)) -> Option<Seq<u8>> {
    if spec_svc_encodable(v.2) {
        Some(be16(v.0) + v.1 + spec_svc_params_wire(spec_svc_sorted(v.2)))
    } else {
        None
    }
}

proof fn lemma_key_leq_total()
    ensures
        total_ordering(spec_key_leq()),
{
}

/// Keys sorted in ascending order (insertion sort).
fn sort_keys(keys: Vec<u16>) -> (r: Vec<u16>)
    ensures
        r@ == keys@.sort_by(spec_key_leq()),
{
    let mut r: Vec<u16> = Vec::new();
    let mut i: usize = 0;
    proof {
        assert(keys@.take(0) =~= r@);
    }
    while i < keys.len()
        invariant
            i <= keys@.len(),
            r@.to_multiset() == keys@.take(i as int).to_multiset(),
            sorted_by(r@, spec_key_leq()),
        decreases keys.len() - i,
    {
        let k = keys[i];
        let mut j: usize = 0;
        while j < r.len() && r[j] <= k
            invariant
                j <= r@.len(),
                forall|m: int| 0 <= m < j ==> r@[m] <= k,
            decreases r.len() - j,
        {
            j = j + 1;
        }
        let ghost before = r@;
        r.insert(j, k);
        proof {
            broadcast use vstd::seq_lib::to_multiset_insert;
            broadcast use vstd::seq_lib::to_multiset_build;
            assert(keys@.take(i + 1) =~= keys@.take(i as int).push(k));
            assert(r@ == before.insert(j as int, k));
            assert forall|a: int, b: int| 0 <= a < b < r@.len() implies #[trigger] spec_key_leq()(
                r@[a],
                r@[b],
            ) by {
                if b < j {
                    assert(spec_key_leq()(before[a], before[b]));
                } else if b == j {
                    assert(before[a] <= k);
                } else if a < j {
                    assert(spec_key_leq()(before[j as int], before[b - 1]));
                    assert(before[a] <= k);
                } else if a == j {
                    assert(spec_key_leq()(before[j as int], before[b - 1]));
                } else {
                    assert(spec_key_leq()(before[a - 1], before[b - 1]));
                }
            }
        }
        i = i + 1;
    }
    proof {
        assert(keys@.take(keys@.len() as int) =~= keys@);
        lemma_key_leq_total();
        keys@.lemma_sort_by_ensures(spec_key_leq());
        vstd::seq_lib::lemma_sorted_unique(r@, keys@.sort_by(spec_key_leq()), spec_key_leq());
    }
    r
}


/// Canonical wire value of one parameter (mandatory keys in ascending
/// order, any other value as it is).
pub fn encode_svc_param_wire(param: &SvcParam) -> (v: Vec<u8>)
    ensures
        v@ == spec_svc_canonical_value(param.key, param.value@),
{
    let n = param.value.len();
    if param.key == 0 && n > 0 && n % 2 == 0 {
        let v = &param.value;
        let mut keys: Vec<u16> = Vec::new();
        let mut i: usize = 0;
        while i < n / 2
            invariant
                n == v@.len(),
                n % 2 == 0,
                i <= n / 2,
                keys@ == spec_u16_list(v@).take(i as int),
            decreases n / 2 - i,
        {
            keys.push((v[2 * i] as u16) * 256 + v[2 * i + 1] as u16);
            proof {
                assert(spec_u16_list(v@).take(i + 1) =~= spec_u16_list(v@).take(i as int).push(
                    spec_u16_list(v@)[i as int],
                ));
            }
            i = i + 1;
        }
        proof {
            assert(spec_u16_list(v@).take((n / 2) as int) =~= spec_u16_list(v@));
        }
        let sorted = sort_keys(keys);
        let mut out: Vec<u8> = Vec::new();
        let mut k: usize = 0;
        proof {
            assert(sorted@.take(0) =~= Seq::<u16>::empty());
        }
        while k < sorted.len()
            invariant
                k <= sorted@.len(),
                out@ == spec_be16_list(sorted@.take(k as int)),
            decreases sorted.len() - k,
        {
            push_u16(&mut out, sorted[k]);
            proof {
                assert(sorted@.take(k + 1).drop_last() =~= sorted@.take(k as int));
            }
            k = k + 1;
        }
        proof {
            assert(sorted@.take(sorted@.len() as int) =~= sorted@);
        }
        out
    } else {
        copy_range(param.value.as_slice(), 0, n)
    }
}

/// Views of a list of parameters.
pub open spec fn spec_param_views(ps: Seq<SvcParam>) -> Seq<(u16, Seq<u8>)> {
    ps.map_values(|x: SvcParam| x@)
}

/// The parameters arranged by ascending key, equal keys kept in their
/// original order (insertion sort over copies).
fn sort_params(params: &[SvcParam]) -> (r: Vec<SvcParam>)
    ensures
        spec_param_views(r@).to_multiset() == spec_param_views(params@).to_multiset(),
        spec_svc_keys(spec_param_views(r@)).to_multiset() == spec_svc_keys(spec_param_views(params@)).to_multiset(),
        sorted_by(spec_svc_keys(spec_param_views(r@)), spec_key_leq()),
{
    let mut r: Vec<SvcParam> = Vec::new();
    let mut i: usize = 0;
    let ghost pv = spec_param_views(params@);
    proof {
        assert(pv.take(0) =~= spec_param_views(r@));
        assert(spec_svc_keys(pv.take(0)) =~= spec_svc_keys(spec_param_views(r@)));
    }
    while i < params.len()
        invariant
            i <= params@.len(),
            pv == spec_param_views(params@),
            spec_param_views(r@).to_multiset() == pv.take(i as int).to_multiset(),
            spec_svc_keys(spec_param_views(r@)).to_multiset() == spec_svc_keys(pv.take(i as int)).to_multiset(),
            sorted_by(spec_svc_keys(spec_param_views(r@)), spec_key_leq()),
        decreases params.len() - i,
    {
        let p = &params[i];
        let key = p.key;
        let mut j: usize = 0;
        while j < r.len() && r[j].key <= key
            invariant
                j <= r@.len(),
                forall|m: int| 0 <= m < j ==> r@[m].key <= key,
            decreases r.len() - j,
        {
            j = j + 1;
        }
        let ghost before = r@;
        let ghost bk = spec_svc_keys(spec_param_views(before));
        let item = SvcParam::new(key, copy_range(p.value.as_slice(), 0, p.value.len()));
        r.insert(j, item);
        proof {
            broadcast use vstd::seq_lib::to_multiset_insert;
            broadcast use vstd::seq_lib::to_multiset_build;
            assert(pv.take(i + 1) =~= pv.take(i as int).push(p@));
            assert(spec_svc_keys(pv.take(i + 1)) =~= spec_svc_keys(pv.take(i as int)).push(key));
            assert(item@ == p@);
            assert(spec_param_views(r@) =~= spec_param_views(before).insert(j as int, p@));
            let rk = spec_svc_keys(spec_param_views(r@));
            assert(rk =~= bk.insert(j as int, key));
            assert forall|a: int, b: int| 0 <= a < b < rk.len() implies #[trigger] spec_key_leq()(
                rk[a],
                rk[b],
            ) by {
                if b < j {
                    assert(spec_key_leq()(bk[a], bk[b]));
                } else if b == j {
                    assert(before[a].key <= key);
                } else if a < j {
                    assert(spec_key_leq()(bk[j as int], bk[b - 1]));
                    assert(before[a].key <= key);
                } else if a == j {
                    assert(spec_key_leq()(bk[j as int], bk[b - 1]));
                } else {
                    assert(spec_key_leq()(bk[a - 1], bk[b - 1]));
                }
            }
        }
        i = i + 1;
    }
    proof {
        assert(pv.take(pv.len() as int) =~= pv);
    }
    r
}

/// With distinct keys, a member of the list is what its key looks up.
/// With distinct keys, looking up a parameter's key finds its value.
pub proof fn lemma_svc_lookup(ps: Seq<(u16, Seq<u8>)>, x: (u16, Seq<u8>))
    requires
        ps.contains(x),
        spec_svc_keys(ps).no_duplicates(),
    ensures
        spec_svc_lookup(ps, x.0) == x.1,
    decreases ps.len(),
{
    if ps[0] == x {
    } else {
        let i = choose|i: int| 0 <= i < ps.len() && ps[i] == x;
        assert(i > 0);
        if ps[0].0 == x.0 {
            assert(spec_svc_keys(ps)[0] == spec_svc_keys(ps)[i]);
        }
        let rest = ps.drop_first();
        assert(rest[i - 1] == x);
        assert(spec_svc_keys(rest) =~= spec_svc_keys(ps).drop_first());
        lemma_svc_lookup(rest, x);
    }
}

/// Writing the parameters arranged as `sv` (the parameters of `ps` in
/// ascending key order) stops at position `k`: the parameters before it are
/// written, and `sv[k]` has the reserved key, repeats the previous key, or
/// has a canonical value too long for its length field.
pub open spec fn spec_svc_fails_at(ps: Seq<(u16, Seq<u8>)>, sv: Seq<(u16, Seq<u8>)>, k: int) -> bool {
    &&& sv.to_multiset() == ps.to_multiset()
    &&& sorted_by(spec_svc_keys(sv), spec_key_leq())
    &&& 0 <= k < sv.len()
    &&& forall|a: int, b: int| 0 <= a < b < k ==> sv[a].0 < sv[b].0
    &&& forall|a: int| 0 <= a < k ==> sv[a].0 != 65535
    &&& forall|a: int| 0 <= a < k ==> spec_svc_canonical_value(sv[a].0, sv[a].1).len() <= 65535
    &&& (sv[k].0 == 65535 || (k > 0 && sv[k].0 <= sv[k - 1].0)
        || spec_svc_canonical_value(sv[k].0, sv[k].1).len() > 65535)
}

/// What a write that stops at `sv[k]` leaves after the target: the
/// parameters before it, then the key of `sv[k]` when only its value was too
/// long.
pub open spec fn spec_svc_failed_tail(sv: Seq<(u16, Seq<u8>)>, k: int) -> Seq<u8> {
    spec_svc_params_wire(sv.take(k)) + if sv[k].0 != 65535 && !(k > 0 && sv[k].0 <= sv[k - 1].0) {
        be16(sv[k].0)
    } else {
        Seq::<u8>::empty()
    }
}

/// What a failed SVCB/HTTPS write of `v` can leave after `before`: the
/// priority, the target and the parameters of some ascending arrangement up
/// to where writing stopped.
pub open spec fn spec_svcb_failed_write(v: (u16, Seq<u8>, Seq<(u16, Seq<u8>)>), before: Seq<u8>, after: Seq<u8>) -> bool {
    exists|sv: Seq<(u16, Seq<u8>)>, k: int|
        #![trigger spec_svc_fails_at(v.2, sv, k)]
        spec_svc_fails_at(v.2, sv, k) && after == before + be16(v.0) + v.1 + spec_svc_failed_tail(sv, k)
}

/// Append the SVCB/HTTPS body: priority, uncompressed target, then the
/// parameters in ascending key order with canonical values.  A duplicate or
/// reserved key, or a value too long for its length field, fails; what was
/// written before it stays (and, for a value too long, its key).
pub fn encode_svcb_like(priority: u16, target: &Name, params: &[SvcParam], out: &mut Vec<u8>) -> (r: Result<
    (),
    ProtoError,
>)
    ensures
        match spec_encode_svcb((priority, target@, spec_param_views(params@))) {
            Some(b) => r is Ok && final(out)@ == old(out)@ + b,
            None => r is Err && spec_svcb_failed_write(
                (priority, target@, spec_param_views(params@)),
                old(out)@,
                final(out)@,
            ),
        },
{
    let ghost ps = spec_param_views(params@);
    let ghost o = old(out)@;
    let sorted = sort_params(params);
    let ghost sv = spec_param_views(sorted@);
    push_u16(out, priority);
    push_bytes(out, target.wire());
    let ghost head = out@;
    let mut last: Option<u16> = None;
    let mut k: usize = 0;
    proof {
        assert(sv.take(0) =~= Seq::<(u16, Seq<u8>)>::empty());
        assert(head =~= o + be16(priority) + target@);
    }
    while k < sorted.len()
        invariant
            k <= sorted@.len(),
            ps == spec_param_views(params@),
            o == old(out)@,
            head == o + be16(priority) + target@,
            sv == spec_param_views(sorted@),
            sv.len() == sorted@.len(),
            sv.to_multiset() == ps.to_multiset(),
            spec_svc_keys(sv).to_multiset() == spec_svc_keys(ps).to_multiset(),
            sorted_by(spec_svc_keys(sv), spec_key_leq()),
            out@ == head + spec_svc_params_wire(sv.take(k as int)),
            k == 0 ==> last is None,
            k > 0 ==> last == Some(sv[k - 1].0),
            forall|a: int, b: int| 0 <= a < b < k ==> sv[a].0 < sv[b].0,
            forall|a: int| 0 <= a < k ==> sv[a].0 != 65535,
            forall|a: int| 0 <= a < k ==> spec_svc_canonical_value(sv[a].0, sv[a].1).len() <= 65535,
        decreases sorted.len() - k,
    {
        let param = &sorted[k];
        proof {
            assert(sv[k as int] == param@);
        }
        if param.key == 65535 {
            proof {
                broadcast use vstd::seq_lib::to_multiset_contains;
                assert(sv[k as int] == param@);
                assert(sv.contains(param@));
                assert(sv.to_multiset().count(param@) > 0);
                assert(ps.to_multiset().count(param@) > 0);
                assert(ps.contains(param@));
                let i = choose|i: int| 0 <= i < ps.len() && ps[i] == param@;
                assert(ps[i].0 == 65535);
                assert(spec_svc_fails_at(ps, sv, k as int));
                assert(out@ =~= o + be16(priority) + target@ + spec_svc_failed_tail(sv, k as int));
                assert(spec_svcb_failed_write((priority, target@, ps), o, out@));
            }
            return Err(ProtoError::protocol("svcparamkey 65535 is reserved"));
        }
        if let Some(prev) = last {
            if param.key <= prev {
                proof {
                    let sk = spec_svc_keys(sv);
                    assert(spec_key_leq()(sk[k - 1], sk[k as int]));
                    assert(sk[k - 1] == sk[k as int]);
                    lemma_dup_keys_survive(sk, spec_svc_keys(ps), k - 1, k as int);
                    assert(spec_svc_fails_at(ps, sv, k as int));
                    assert(out@ =~= o + be16(priority) + target@ + spec_svc_failed_tail(sv, k as int));
                    assert(spec_svcb_failed_write((priority, target@, ps), o, out@));
                assert(spec_svcb_failed_write((priority, target@, ps), o, out@));
                }
                return Err(ProtoError::protocol("SVCB parameter keys must be strictly increasing"));
            }
        }
        let value = encode_svc_param_wire(param);
        let ghost b0 = out@;
        push_u16(out, param.key);
        if value.len() > 65535 {
            proof {
                broadcast use vstd::seq_lib::to_multiset_contains;
                assert(sv[k as int] == param@);
                assert(sv.contains(param@));
                assert(sv.to_multiset().count(param@) > 0);
                assert(ps.to_multiset().count(param@) > 0);
                assert(ps.contains(param@));
                let i = choose|i: int| 0 <= i < ps.len() && ps[i] == param@;
                assert(spec_svc_canonical_value(ps[i].0, ps[i].1).len() > 65535);
                assert(!(k > 0 && sv[k as int].0 <= sv[k - 1].0));
                assert(spec_svc_fails_at(ps, sv, k as int));
                assert(out@ =~= o + be16(priority) + target@ + spec_svc_failed_tail(sv, k as int));
                assert(spec_svcb_failed_write((priority, target@, ps), o, out@));
            }
            return Err(ProtoError::protocol("SVCB parameter exceeds u16 length"));
        }
        push_u16(out, value.len() as u16);
        push_bytes(out, value.as_slice());
        proof {
            assert(sv.take(k + 1).drop_last() =~= sv.take(k as int));
            assert(sv.take(k + 1).last() == param@);
            assert(out@ =~= b0 + spec_svc_param_wire(param@));
        }
        last = Some(param.key);
        k = k + 1;
    }
    proof {
        assert(sv.take(sv.len() as int) =~= sv);
        lemma_sorted_params_match(ps, sv);
        assert(out@ =~= o + spec_encode_svcb((priority, target@, ps)).unwrap());
    }
    Ok(())
}

/// Two equal keys in a permutation of `ys` mean `ys` repeats a key too.
proof fn lemma_dup_keys_survive(xs: Seq<u16>, ys: Seq<u16>, a: int, b: int)
    requires
        xs.to_multiset() == ys.to_multiset(),
        0 <= a < b < xs.len(),
        xs[a] == xs[b],
    ensures
        !ys.no_duplicates(),
{
    broadcast use vstd::seq_lib::to_multiset_contains;
    if ys.no_duplicates() {
        ys.lemma_multiset_has_no_duplicates();
        assert(!xs.no_duplicates());
        if forall|x: u16| xs.to_multiset().contains(x) ==> xs.to_multiset().count(x) == 1 {
            xs.lemma_multiset_has_no_duplicates_conv();
        }
    }
}

/// Strictly ascending parameters with the same members as `ps` are the
/// ascending arrangement of `ps`, and make `ps` encodable.
proof fn lemma_sorted_params_match(ps: Seq<(u16, Seq<u8>)>, sv: Seq<(u16, Seq<u8>)>)
    requires
        sv.to_multiset() == ps.to_multiset(),
        spec_svc_keys(sv).to_multiset() == spec_svc_keys(ps).to_multiset(),
        sorted_by(spec_svc_keys(sv), spec_key_leq()),
        forall|a: int, b: int| 0 <= a < b < sv.len() ==> sv[a].0 < sv[b].0,
        forall|a: int| 0 <= a < sv.len() ==> sv[a].0 != 65535,
        forall|a: int| 0 <= a < sv.len() ==> spec_svc_canonical_value(sv[a].0, sv[a].1).len() <= 65535,
    ensures
        spec_svc_encodable(ps),
        sv == spec_svc_sorted(ps),
{
    broadcast use vstd::seq_lib::to_multiset_contains;
    let sk = spec_svc_keys(sv);
    let pk = spec_svc_keys(ps);
    assert(sk.no_duplicates()) by {
        assert forall|i: int, j: int| 0 <= i < sk.len() && 0 <= j < sk.len() && i != j implies sk[i] != sk[j] by {
            if i < j {
                assert(sv[i].0 < sv[j].0);
            } else {
                assert(sv[j].0 < sv[i].0);
            }
        }
    }
    sk.lemma_multiset_has_no_duplicates();
    pk.lemma_multiset_has_no_duplicates_conv();
    assert forall|i: int| 0 <= i < ps.len() implies (#[trigger] ps[i]).0 != 65535
        && spec_svc_canonical_value(ps[i].0, ps[i].1).len() <= 65535 by {
        assert(ps[i] == ps[i]);
        assert(ps.contains(ps[i]));
        assert(ps.to_multiset().count(ps[i]) > 0);
        assert(sv.to_multiset().count(ps[i]) > 0);
        assert(sv.contains(ps[i]));
        let j = choose|j: int| 0 <= j < sv.len() && sv[j] == ps[i];
    }
    lemma_key_leq_total();
    pk.lemma_sort_by_ensures(spec_key_leq());
    vstd::seq_lib::lemma_sorted_unique(sk, pk.sort_by(spec_key_leq()), spec_key_leq());
    let target = spec_svc_sorted(ps);
    assert forall|i: int| 0 <= i < sv.len() implies sv[i] == target[i] by {
        assert(sk[i] == sv[i].0);
        assert(sv.contains(sv[i]));
        assert(sv.to_multiset().count(sv[i]) > 0);
        assert(ps.to_multiset().count(sv[i]) > 0);
        assert(ps.contains(sv[i]));
        lemma_svc_lookup(ps, sv[i]);
    }
    assert(sv =~= target);
}

/// Append SVCB RDATA; see [`encode_svcb_like`].
pub fn encode_svcb(value: &SVCB, out: &mut Vec<u8>) -> (r: Result<(), ProtoError>)
    ensures
        match spec_encode_svcb(value@) {
            Some(b) => r is Ok && final(out)@ == old(out)@ + b,
            None => r is Err && spec_svcb_failed_write(value@, old(out)@, final(out)@),
        },
{
    encode_svcb_like(value.priority, &value.target, value.params.as_slice(), out)
}

/// Append HTTPS RDATA; see [`encode_svcb_like`].
pub fn encode_https(value: &HTTPS, out: &mut Vec<u8>) -> (r: Result<(), ProtoError>)
    ensures
        match spec_encode_svcb(value@) {
            Some(b) => r is Ok && final(out)@ == old(out)@ + b,
            None => r is Err && spec_svcb_failed_write(value@, old(out)@, final(out)@),
        },
{
    encode_svcb(&value.0, out)
}


/// The parameters as a decoder reads them back: in ascending key order, a
/// mandatory key list with its keys ascending.
pub open spec fn spec_svc_canonical(ps: Seq<(u16, Seq<u8>)>) -> Seq<(u16, Seq<u8>)> {
    spec_svc_sorted(ps).map_values(|x: (u16, Seq<u8>)| (x.0, spec_svc_canonical_value(x.0, x.1)))
}

/// Writing a non-empty list puts its first parameter first.
proof fn lemma_params_wire_first(ps: Seq<(u16, Seq<u8>)>)
    requires
        ps.len() > 0,
    ensures
        spec_svc_params_wire(ps) == spec_svc_param_wire(ps[0]) + spec_svc_params_wire(ps.drop_first()),
    decreases ps.len(),
{
    if ps.len() == 1 {
        assert(ps.drop_last() =~= Seq::<(u16, Seq<u8>)>::empty());
        assert(ps.drop_first() =~= Seq::<(u16, Seq<u8>)>::empty());
        assert(spec_svc_params_wire(ps.drop_last()) =~= Seq::<u8>::empty());
        assert(spec_svc_params_wire(ps.drop_first()) =~= Seq::<u8>::empty());
        assert(Seq::<u8>::empty() + spec_svc_param_wire(ps[0]) =~= spec_svc_param_wire(ps[0]));
        assert(spec_svc_param_wire(ps[0]) + Seq::<u8>::empty() =~= spec_svc_param_wire(ps[0]));
    } else {
        let init = ps.drop_last();
        lemma_params_wire_first(init);
        assert(init.drop_first() =~= ps.drop_first().drop_last());
        assert(ps.drop_first().last() == ps.last());
        assert(init[0] == ps[0]);
    }
}

/// Parameters with strictly ascending keys above `last`, none reserved and
/// every canonical value fitting its length field, read back from their
/// wire form as their canonical values.
proof fn lemma_svc_params_read_back(p: Seq<u8>, c: int, qs: Seq<(u16, Seq<u8>)>, last: int)
    requires
        0 <= c,
        c + spec_svc_params_wire(qs).len() <= p.len(),
        p.subrange(c, c + spec_svc_params_wire(qs).len()) == spec_svc_params_wire(qs),
        -1 <= last,
        forall|a: int, b: int| 0 <= a < b < qs.len() ==> qs[a].0 < qs[b].0,
        forall|a: int| 0 <= a < qs.len() ==> (#[trigger] qs[a]).0 != 65535 && last < qs[a].0,
        forall|a: int| 0 <= a < qs.len() ==> spec_svc_canonical_value((#[trigger] qs[a]).0, qs[a].1).len() <= 65535,
    ensures
        spec_svc_params(p, c, c + spec_svc_params_wire(qs).len(), last)
            == Some(qs.map_values(|x: (u16, Seq<u8>)| (x.0, spec_svc_canonical_value(x.0, x.1)))),
    decreases qs.len(),
{
    let e = c + spec_svc_params_wire(qs).len();
    let f = |x: (u16, Seq<u8>)| (x.0, spec_svc_canonical_value(x.0, x.1));
    if qs.len() == 0 {
        assert(spec_svc_params_wire(qs).len() == 0);
        assert(qs.map_values(f) =~= Seq::<(u16, Seq<u8>)>::empty());
    } else {
        lemma_params_wire_first(qs);
        let x = qs[0];
        let cv = spec_svc_canonical_value(x.0, x.1);
        let w = spec_svc_param_wire(x);
        let rest = qs.drop_first();
        let rw = spec_svc_params_wire(rest);
        assert(w.len() == 4 + cv.len());
        let sub = p.subrange(c, e);
        assert(sub.subrange(0, 2) =~= be16(x.0));
        assert(p.subrange(c, c + 2) =~= sub.subrange(0, 2));
        lemma_read_be16(p, c, x.0);
        assert(sub.subrange(2, 4) =~= be16(cv.len() as u16));
        assert(p.subrange(c + 2, c + 4) =~= sub.subrange(2, 4));
        lemma_read_be16(p, c + 2, cv.len() as u16);
        let ve: int = c + 4 + cv.len();
        assert(p.subrange(c + 4, ve) =~= cv) by {
            assert(p.subrange(c + 4, ve) =~= sub.subrange(4, 4 + cv.len() as int));
            assert(sub.subrange(0, w.len() as int) =~= w);
        }
        assert(p.subrange(ve, ve + rw.len()) =~= rw) by {
            assert(p.subrange(ve, ve + rw.len()) =~= sub.subrange(w.len() as int, sub.len() as int));
        }
        assert forall|a: int, b: int| 0 <= a < b < rest.len() implies rest[a].0 < rest[b].0 by {
            assert(rest[a] == qs[a + 1]);
            assert(rest[b] == qs[b + 1]);
        }
        assert forall|a: int| 0 <= a < rest.len() implies (#[trigger] rest[a]).0 != 65535 && x.0 < rest[a].0 by {
            assert(rest[a] == qs[a + 1]);
        }
        assert forall|a: int| 0 <= a < rest.len() implies spec_svc_canonical_value((#[trigger] rest[a]).0, rest[a].1).len() <= 65535 by {
            assert(rest[a] == qs[a + 1]);
        }
        lemma_svc_params_read_back(p, ve, rest, x.0 as int);
        assert(ve + rw.len() == e);
        assert(qs.map_values(f) =~= seq![(x.0, p.subrange(c + 4, ve))] + rest.map_values(f));
    }
}

/// The ascending arrangement of encodable parameters has strictly ascending
/// keys and holds only members of the list.
proof fn lemma_svc_sorted_members(ps: Seq<(u16, Seq<u8>)>)
    requires
        spec_svc_encodable(ps),
    ensures
        forall|a: int, b: int| 0 <= a < b < spec_svc_sorted(ps).len() ==> spec_svc_sorted(ps)[a].0 < spec_svc_sorted(ps)[b].0,
        forall|a: int| 0 <= a < spec_svc_sorted(ps).len() ==> ps.contains(#[trigger] spec_svc_sorted(ps)[a]),
{
    broadcast use vstd::seq_lib::to_multiset_contains;
    let pk = spec_svc_keys(ps);
    let ks = pk.sort_by(spec_key_leq());
    let sv = spec_svc_sorted(ps);
    lemma_key_leq_total();
    pk.lemma_sort_by_ensures(spec_key_leq());
    pk.lemma_multiset_has_no_duplicates();
    assert(ks.no_duplicates()) by {
        if !ks.no_duplicates() {
            let (i, j) = choose|i: int, j: int| 0 <= i < ks.len() && 0 <= j < ks.len() && i != j && ks[i] == ks[j];
            if i < j {
                lemma_dup_keys_survive(ks, pk, i, j);
            } else {
                lemma_dup_keys_survive(ks, pk, j, i);
            }
        }
    }
    assert forall|a: int, b: int| 0 <= a < b < sv.len() implies sv[a].0 < sv[b].0 by {
        assert(spec_key_leq()(ks[a], ks[b]));
        assert(ks[a] != ks[b]);
    }
    assert forall|a: int| 0 <= a < sv.len() implies ps.contains(#[trigger] sv[a]) by {
        assert(ks.contains(ks[a]));
        assert(ks.to_multiset().count(ks[a]) > 0);
        assert(pk.contains(ks[a]));
        let j = choose|j: int| 0 <= j < pk.len() && pk[j] == ks[a];
        assert(ps.contains(ps[j]));
        lemma_svc_lookup(ps, ps[j]);
    }
}

/// Encoding an SVCB/HTTPS view with a well-formed target and encodable
/// parameters, then decoding the bytes, gives back the priority, the target
/// and the parameters in canonical form (ascending keys, mandatory key list
/// ascending).
pub proof fn lemma_svcb_roundtrip(v: (u16, Seq<u8>, Seq<(u16, Seq<u8>)>))
    requires
        name_wire_ok(v.1),
        spec_svc_encodable(v.2),
    ensures
        spec_encode_svcb(v) is Some,
        spec_parse_svcb(spec_encode_svcb(v).unwrap(), 0, spec_encode_svcb(v).unwrap().len() as int)
            == Some((v.0, v.1, spec_svc_canonical(v.2))),
{
    let b = spec_encode_svcb(v).unwrap();
    let qs = spec_svc_sorted(v.2);
    let pw = spec_svc_params_wire(qs);
    assert(b =~= be16(v.0) + v.1 + pw);
    assert(b.subrange(0, 2) =~= be16(v.0));
    lemma_read_be16(b, 0, v.0);
    let c: int = 2 + v.1.len() as int;
    assert(b.subrange(2, c) =~= v.1);
    lemma_parse_plain_name(b, 2, v.1);
    lemma_svc_sorted_members(v.2);
    assert forall|a: int| 0 <= a < qs.len() implies (#[trigger] qs[a]).0 != 65535 && -1 < qs[a].0 by {
        assert(v.2.contains(qs[a]));
    }
    assert forall|a: int| 0 <= a < qs.len() implies spec_svc_canonical_value((#[trigger] qs[a]).0, qs[a].1).len() <= 65535 by {
        assert(v.2.contains(qs[a]));
    }
    assert(b.subrange(c, c + pw.len() as int) =~= pw);
    lemma_svc_params_read_back(b, c, qs, -1);
}

} // verus!
