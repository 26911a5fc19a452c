//! Wire form of the common RDATA types.

use vstd::prelude::*;
use crate::error::ProtoError;
use crate::name::{Name, spec_parse_name, name_wire_ok, lemma_parse_plain_name, lemma_parse_name_valid};
use crate::rdata::RData;
use crate::rdata::basic::{A, AAAA, CAA, CNAME, DOA, MX, NAPTR, NS, PTR, RESINFO, SOA, SRV, TXT};
use crate::rdata::legacy::{AVC, SPF};
use crate::rdata::bitmap::{TypeBitMaps, spec_decode_bitmaps};
use crate::types::RecordType;
use crate::wire::{be16, be32, be48, be64, spec_u16_at, spec_u32_at, spec_u48_at, spec_u64_at, lemma_read_be16, lemma_read_be32, spec_network_u32, lemma_u32_at_network_order, lemma_u32_through_i32, lemma_read_be48, lemma_read_be64, lemma_i32_through_u32, push_u16, push_u32, push_u48, push_u64, push_bytes, copy_range, read_u16_be, read_u32_be, read_u48_be, read_u64_be};
use crate::wire::rdata::{spec_cstr, spec_name_rdata, spec_single_string_rdata, spec_two_strings_rdata, spec_two_names_rdata, spec_u16_name_rdata, parse_name, parse_character_string, parse_single_character_string, parse_two_character_strings, parse_two_names, parse_u16_name, encode_character_string};
use crate::rdata::basic::{EdnsOption, Edns, OPT, EdnsCode, EdnsFlags, IpAddr, ClientSubnet, EdnsLlq,
    EdnsUpdateLease, EdnsNsid, EdnsEsu, EdnsAlgorithmList, EdnsExpire, EdnsCookie, EdnsTcpKeepalive, EdnsPadding,
    EdnsExtendedDnsError, EdnsReportChannel, EdnsZoneVersion, EdnsLocal, spec_edns_code_from_u16,
    spec_edns_flags_from_u16, spec_edns_flags_to_u16, spec_edns_code_value, spec_option_code, spec_without_code};
use vstd::slice::{slice_subrange, slice_to_vec};

verus! {


impl View for A {
    type V = Seq<u8>;

    open spec fn view(&self) -> Seq<u8> {
        self.0@
    }
}

/// Decoded form of `A` RDATA held in `p[s..e]`.
pub open spec fn spec_parse_a(p: Seq<u8>, s: int, e: int) -> Option<Seq<u8>> {
    if s + 4 > e {
        None
    } else {
        let f0 = p.subrange(s, s + 4);
        let c1 = s + 4;
        if c1 != e {
            None
        } else {
            Some(f0)
        }
    }
}

/// Wire form of a `A` view, names written uncompressed.
pub open spec fn spec_encode_a(v: Seq<u8>) -> Seq<u8> {
    v
}

/// Views that survive an encode and decode unchanged.
pub open spec fn spec_valid_a(v: Seq<u8>) -> bool {
    v.len() == 4
}

/// Decode `A` RDATA from `packet[start..end]`.
pub fn parse_a_rdata(packet: &[u8], start: usize, end: usize) -> (r: Result<A, ProtoError>)
    requires
        start <= end <= packet@.len(),
    ensures
        match spec_parse_a(packet@, start as int, end as int) {
            Some(v) => r matches Ok(x) && x@ == v,
            None => r is Err,
        },
{
    if start > end || end - start < 4 { return Err(ProtoError::protocol("invalid A rdata length")); }
    let f0: [u8; 4] = [packet[start], packet[start + 1], packet[start + 2], packet[start + 3]];
    proof { assert(f0@ =~= packet@.subrange(start as int, start + 4)); }
    let c1 = start + 4;
    if c1 != end { return Err(ProtoError::protocol("invalid A rdata length")); }
    Ok(A(f0))
}

/// Decode `A` RDATA from `packet[start..end]` as an [`RData`] value.
pub fn parse_a(packet: &[u8], start: usize, end: usize) -> (r: Result<RData, ProtoError>)
    requires
        start <= end <= packet@.len(),
    ensures
        match spec_parse_a(packet@, start as int, end as int) {
            Some(v) => r matches Ok(RData::A(x)) && x@ == v,
            None => r is Err,
        },
{
    match parse_a_rdata(packet, start, end) {
        Ok(x) => Ok(RData::A(x)),
        Err(e) => Err(e),
    }
}

/// Append the `A` wire form.
pub fn encode_a(value: &A, out: &mut Vec<u8>)
    ensures
        final(out)@ == old(out)@ + spec_encode_a(value@),
{
    let ghost o = old(out)@;
    push_bytes(out, value.0.as_slice());
    proof {
        assert(out@ =~= o + spec_encode_a(value@));
    }
}

/// Decoding the encoding of a valid `A` view gives the view back.
pub proof fn lemma_a_roundtrip(v: Seq<u8>)
    requires
        spec_valid_a(v),
    ensures
        spec_parse_a(spec_encode_a(v), 0, spec_encode_a(v).len() as int) == Some(v),
{
    let b = spec_encode_a(v);
    let o0: int = 0;
    let o1: int = o0 + 4;
    assert(b.subrange(o0, o1) =~= v);
    assert(b.len() == o1);
}

impl View for AAAA {
    type V = Seq<u8>;

    open spec fn view(&self) -> Seq<u8> {
        self.0@
    }
}

/// Decoded form of `AAAA` RDATA held in `p[s..e]`.
pub open spec fn spec_parse_aaaa(p: Seq<u8>, s: int, e: int) -> Option<Seq<u8>> {
    if s + 16 > e {
        None
    } else {
        let f0 = p.subrange(s, s + 16);
        let c1 = s + 16;
        if c1 != e {
            None
        } else {
            Some(f0)
        }
    }
}

/// Wire form of a `AAAA` view, names written uncompressed.
pub open spec fn spec_encode_aaaa(v: Seq<u8>) -> Seq<u8> {
    v
}

/// Views that survive an encode and decode unchanged.
pub open spec fn spec_valid_aaaa(v: Seq<u8>) -> bool {
    v.len() == 16
}

/// Decode `AAAA` RDATA from `packet[start..end]`.
pub fn parse_aaaa_rdata(packet: &[u8], start: usize, end: usize) -> (r: Result<AAAA, ProtoError>)
    requires
        start <= end <= packet@.len(),
    ensures
        match spec_parse_aaaa(packet@, start as int, end as int) {
            Some(v) => r matches Ok(x) && x@ == v,
            None => r is Err,
        },
{
    if start > end || end - start < 16 { return Err(ProtoError::protocol("invalid AAAA rdata length")); }
    let f0: [u8; 16] = [packet[start], packet[start + 1], packet[start + 2], packet[start + 3], packet[start + 4], packet[start + 5], packet[start + 6], packet[start + 7], packet[start + 8], packet[start + 9], packet[start + 10], packet[start + 11], packet[start + 12], packet[start + 13], packet[start + 14], packet[start + 15]];
    proof { assert(f0@ =~= packet@.subrange(start as int, start + 16)); }
    let c1 = start + 16;
    if c1 != end { return Err(ProtoError::protocol("invalid AAAA rdata length")); }
    Ok(AAAA(f0))
}

/// Decode `AAAA` RDATA from `packet[start..end]` as an [`RData`] value.
pub fn parse_aaaa(packet: &[u8], start: usize, end: usize) -> (r: Result<RData, ProtoError>)
    requires
        start <= end <= packet@.len(),
    ensures
        match spec_parse_aaaa(packet@, start as int, end as int) {
            Some(v) => r matches Ok(RData::AAAA(x)) && x@ == v,
            None => r is Err,
        },
{
    match parse_aaaa_rdata(packet, start, end) {
        Ok(x) => Ok(RData::AAAA(x)),
        Err(e) => Err(e),
    }
}

/// Append the `AAAA` wire form.
pub fn encode_aaaa(value: &AAAA, out: &mut Vec<u8>)
    ensures
        final(out)@ == old(out)@ + spec_encode_aaaa(value@),
{
    let ghost o = old(out)@;
    push_bytes(out, value.0.as_slice());
    proof {
        assert(out@ =~= o + spec_encode_aaaa(value@));
    }
}

/// Decoding the encoding of a valid `AAAA` view gives the view back.
pub proof fn lemma_aaaa_roundtrip(v: Seq<u8>)
    requires
        spec_valid_aaaa(v),
    ensures
        spec_parse_aaaa(spec_encode_aaaa(v), 0, spec_encode_aaaa(v).len() as int) == Some(v),
{
    let b = spec_encode_aaaa(v);
    let o0: int = 0;
    let o1: int = o0 + 16;
    assert(b.subrange(o0, o1) =~= v);
    assert(b.len() == o1);
}

impl View for CNAME {
    type V = Seq<u8>;

    open spec fn view(&self) -> Seq<u8> {
        self.0@
    }
}

/// Decoded form of `CNAME` RDATA held in `p[s..e]`.
pub open spec fn spec_parse_cname(p: Seq<u8>, s: int, e: int) -> Option<Seq<u8>> {
    spec_name_rdata(p, s, e)
}

/// Wire form of a `CNAME` view, names written uncompressed.
pub open spec fn spec_encode_cname(v: Seq<u8>) -> Seq<u8> {
    v
}

/// Views that survive an encode and decode unchanged.
pub open spec fn spec_valid_cname(v: Seq<u8>) -> bool {
    name_wire_ok(v)
}

/// Decode `CNAME` RDATA from `packet[start..end]`.
pub fn parse_cname_rdata(packet: &[u8], start: usize, end: usize) -> (r: Result<CNAME, ProtoError>)
    requires
        start <= end <= packet@.len(),
    ensures
        match spec_parse_cname(packet@, start as int, end as int) {
            Some(v) => r matches Ok(x) && x@ == v,
            None => r is Err,
        },
{
    let f0 = match parse_name(packet, start, end, "CNAME") { Ok(x) => x, Err(e) => return Err(e) };
    Ok(CNAME(f0))
}

/// Decode `CNAME` RDATA from `packet[start..end]` as an [`RData`] value.
pub fn parse_cname(packet: &[u8], start: usize, end: usize) -> (r: Result<RData, ProtoError>)
    requires
        start <= end <= packet@.len(),
    ensures
        match spec_parse_cname(packet@, start as int, end as int) {
            Some(v) => r matches Ok(RData::CNAME(x)) && x@ == v,
            None => r is Err,
        },
{
    match parse_cname_rdata(packet, start, end) {
        Ok(x) => Ok(RData::CNAME(x)),
        Err(e) => Err(e),
    }
}

/// Append the `CNAME` wire form, names uncompressed.
pub fn encode_cname(value: &CNAME, out: &mut Vec<u8>) -> (r: Result<(), ProtoError>)
    ensures
        r is Ok,
        final(out)@ == old(out)@ + spec_encode_cname(value@),
{
    let ghost o = old(out)@;
    push_bytes(out, value.0.wire());
    proof {
        assert(out@ =~= o + spec_encode_cname(value@));
    }
    Ok(())
}

/// Decoding the encoding of a valid `CNAME` view gives the view back.
pub proof fn lemma_cname_roundtrip(v: Seq<u8>)
    requires
        spec_valid_cname(v),
    ensures
        spec_parse_cname(spec_encode_cname(v), 0, spec_encode_cname(v).len() as int) == Some(v),
{
    let b = spec_encode_cname(v);
    let o0: int = 0;
    let o1: int = o0 + v.len();
    assert(b.subrange(o0, o1) =~= v);
    lemma_parse_plain_name(b, o0, v);
    assert(b.len() == o1);
}

impl View for NS {
    type V = Seq<u8>;

    open spec fn view(&self) -> Seq<u8> {
        self.0@
    }
}

/// Decoded form of `NS` RDATA held in `p[s..e]`.
pub open spec fn spec_parse_ns(p: Seq<u8>, s: int, e: int) -> Option<Seq<u8>> {
    spec_name_rdata(p, s, e)
}

/// Wire form of a `NS` view, names written uncompressed.
pub open spec fn spec_encode_ns(v: Seq<u8>) -> Seq<u8> {
    v
}

/// Views that survive an encode and decode unchanged.
pub open spec fn spec_valid_ns(v: Seq<u8>) -> bool {
    name_wire_ok(v)
}

/// Decode `NS` RDATA from `packet[start..end]`.
pub fn parse_ns_rdata(packet: &[u8], start: usize, end: usize) -> (r: Result<NS, ProtoError>)
    requires
        start <= end <= packet@.len(),
    ensures
        match spec_parse_ns(packet@, start as int, end as int) {
            Some(v) => r matches Ok(x) && x@ == v,
            None => r is Err,
        },
{
    let f0 = match parse_name(packet, start, end, "NS") { Ok(x) => x, Err(e) => return Err(e) };
    Ok(NS(f0))
}

/// Decode `NS` RDATA from `packet[start..end]` as an [`RData`] value.
pub fn parse_ns(packet: &[u8], start: usize, end: usize) -> (r: Result<RData, ProtoError>)
    requires
        start <= end <= packet@.len(),
    ensures
        match spec_parse_ns(packet@, start as int, end as int) {
            Some(v) => r matches Ok(RData::NS(x)) && x@ == v,
            None => r is Err,
        },
{
    match parse_ns_rdata(packet, start, end) {
        Ok(x) => Ok(RData::NS(x)),
        Err(e) => Err(e),
    }
}

/// Append the `NS` wire form, names uncompressed.
pub fn encode_ns(value: &NS, out: &mut Vec<u8>) -> (r: Result<(), ProtoError>)
    ensures
        r is Ok,
        final(out)@ == old(out)@ + spec_encode_ns(value@),
{
    let ghost o = old(out)@;
    push_bytes(out, value.0.wire());
    proof {
        assert(out@ =~= o + spec_encode_ns(value@));
    }
    Ok(())
}

/// Decoding the encoding of a valid `NS` view gives the view back.
pub proof fn lemma_ns_roundtrip(v: Seq<u8>)
    requires
        spec_valid_ns(v),
    ensures
        spec_parse_ns(spec_encode_ns(v), 0, spec_encode_ns(v).len() as int) == Some(v),
{
    let b = spec_encode_ns(v);
    let o0: int = 0;
    let o1: int = o0 + v.len();
    assert(b.subrange(o0, o1) =~= v);
    lemma_parse_plain_name(b, o0, v);
    assert(b.len() == o1);
}

impl View for PTR {
    type V = Seq<u8>;

    open spec fn view(&self) -> Seq<u8> {
        self.0@
    }
}

/// Decoded form of `PTR` RDATA held in `p[s..e]`.
pub open spec fn spec_parse_ptr(p: Seq<u8>, s: int, e: int) -> Option<Seq<u8>> {
    spec_name_rdata(p, s, e)
}

/// Wire form of a `PTR` view, names written uncompressed.
pub open spec fn spec_encode_ptr(v: Seq<u8>) -> Seq<u8> {
    v
}

/// Views that survive an encode and decode unchanged.
pub open spec fn spec_valid_ptr(v: Seq<u8>) -> bool {
    name_wire_ok(v)
}

/// Decode `PTR` RDATA from `packet[start..end]`.
pub fn parse_ptr_rdata(packet: &[u8], start: usize, end: usize) -> (r: Result<PTR, ProtoError>)
    requires
        start <= end <= packet@.len(),
    ensures
        match spec_parse_ptr(packet@, start as int, end as int) {
            Some(v) => r matches Ok(x) && x@ == v,
            None => r is Err,
        },
{
    let f0 = match parse_name(packet, start, end, "PTR") { Ok(x) => x, Err(e) => return Err(e) };
    Ok(PTR(f0))
}

/// Decode `PTR` RDATA from `packet[start..end]` as an [`RData`] value.
pub fn parse_ptr(packet: &[u8], start: usize, end: usize) -> (r: Result<RData, ProtoError>)
    requires
        start <= end <= packet@.len(),
    ensures
        match spec_parse_ptr(packet@, start as int, end as int) {
            Some(v) => r matches Ok(RData::PTR(x)) && x@ == v,
            None => r is Err,
        },
{
    match parse_ptr_rdata(packet, start, end) {
        Ok(x) => Ok(RData::PTR(x)),
        Err(e) => Err(e),
    }
}

/// Append the `PTR` wire form, names uncompressed.
pub fn encode_ptr(value: &PTR, out: &mut Vec<u8>) -> (r: Result<(), ProtoError>)
    ensures
        r is Ok,
        final(out)@ == old(out)@ + spec_encode_ptr(value@),
{
    let ghost o = old(out)@;
    push_bytes(out, value.0.wire());
    proof {
        assert(out@ =~= o + spec_encode_ptr(value@));
    }
    Ok(())
}

/// Decoding the encoding of a valid `PTR` view gives the view back.
pub proof fn lemma_ptr_roundtrip(v: Seq<u8>)
    requires
        spec_valid_ptr(v),
    ensures
        spec_parse_ptr(spec_encode_ptr(v), 0, spec_encode_ptr(v).len() as int) == Some(v),
{
    let b = spec_encode_ptr(v);
    let o0: int = 0;
    let o1: int = o0 + v.len();
    assert(b.subrange(o0, o1) =~= v);
    lemma_parse_plain_name(b, o0, v);
    assert(b.len() == o1);
}

impl View for MX {
    type V = (u16, Seq<u8>);

    open spec fn view(&self) -> (u16, Seq<u8>) {
        (self.preference, self.exchange@)
    }
}

/// Decoded form of `MX` RDATA held in `p[s..e]`.
pub open spec fn spec_parse_mx(p: Seq<u8>, s: int, e: int) -> Option<(u16, Seq<u8>)> {
    spec_u16_name_rdata(p, s, e)
}

/// Wire form of a `MX` view, names written uncompressed.
pub open spec fn spec_encode_mx(v: (u16, Seq<u8>)) -> Seq<u8> {
    be16(v.0) + v.1
}

/// Views that survive an encode and decode unchanged.
pub open spec fn spec_valid_mx(v: (u16, Seq<u8>)) -> bool {
    name_wire_ok(v.1)
}

/// Decode `MX` RDATA from `packet[start..end]`.
pub fn parse_mx_rdata(packet: &[u8], start: usize, end: usize) -> (r: Result<MX, ProtoError>)
    requires
        start <= end <= packet@.len(),
    ensures
        match spec_parse_mx(packet@, start as int, end as int) {
            Some(v) => r matches Ok(x) && x@ == v,
            None => r is Err,
        },
{
    let (f0, f1) = match parse_u16_name(packet, start, end, "MX") { Ok(x) => x, Err(e) => return Err(e) };
    Ok(MX { preference: f0, exchange: f1 })
}

/// Decode `MX` RDATA from `packet[start..end]` as an [`RData`] value.
pub fn parse_mx(packet: &[u8], start: usize, end: usize) -> (r: Result<RData, ProtoError>)
    requires
        start <= end <= packet@.len(),
    ensures
        match spec_parse_mx(packet@, start as int, end as int) {
            Some(v) => r matches Ok(RData::MX(x)) && x@ == v,
            None => r is Err,
        },
{
    match parse_mx_rdata(packet, start, end) {
        Ok(x) => Ok(RData::MX(x)),
        Err(e) => Err(e),
    }
}

/// Append the `MX` wire form, names uncompressed.
pub fn encode_mx(value: &MX, out: &mut Vec<u8>) -> (r: Result<(), ProtoError>)
    ensures
        r is Ok,
        final(out)@ == old(out)@ + spec_encode_mx(value@),
{
    let ghost o = old(out)@;
    push_u16(out, value.preference);
    push_bytes(out, value.exchange.wire());
    proof {
        assert(out@ =~= o + spec_encode_mx(value@));
    }
    Ok(())
}

/// Decoding the encoding of a valid `MX` view gives the view back.
pub proof fn lemma_mx_roundtrip(v: (u16, Seq<u8>))
    requires
        spec_valid_mx(v),
    ensures
        spec_parse_mx(spec_encode_mx(v), 0, spec_encode_mx(v).len() as int) == Some(v),
{
    let b = spec_encode_mx(v);
    let o0: int = 0;
    let o1: int = o0 + 2;
    assert(b.subrange(o0, o1) =~= be16(v.0));
    lemma_read_be16(b, o0, v.0);
    let o2: int = o1 + v.1.len();
    assert(b.subrange(o1, o2) =~= v.1);
    lemma_parse_plain_name(b, o1, v.1);
    assert(b.len() == o2);
}

impl View for SRV {
    type V = (u16, u16, u16, Seq<u8>);

    open spec fn view(&self) -> (u16, u16, u16, Seq<u8>) {
        (self.priority, self.weight, self.port, self.target@)
    }
}

/// Decoded form of `SRV` RDATA held in `p[s..e]`.
pub open spec fn spec_parse_srv(p: Seq<u8>, s: int, e: int) -> Option<(u16, u16, u16, Seq<u8>)> {
    if s + 2 > e {
        None
    } else {
        let f0 = spec_u16_at(p, s);
        let c1 = s + 2;
        if c1 + 2 > e {
            None
        } else {
            let f1 = spec_u16_at(p, c1);
            let c2 = c1 + 2;
            if c2 + 2 > e {
                None
            } else {
                let f2 = spec_u16_at(p, c2);
                let c3 = c2 + 2;
                match spec_parse_name(p, c3) {
                    None => None,
                    Some((f3, c4)) => {
                        if c4 != e {
                            None
                        } else {
                            Some((f0, f1, f2, f3))
                        }
                    },
                }
            }
        }
    }
}

/// Wire form of a `SRV` view, names written uncompressed.
pub open spec fn spec_encode_srv(v: (u16, u16, u16, Seq<u8>)) -> Seq<u8> {
    be16(v.0) + be16(v.1) + be16(v.2) + v.3
}

/// Views that survive an encode and decode unchanged.
pub open spec fn spec_valid_srv(v: (u16, u16, u16, Seq<u8>)) -> bool {
    name_wire_ok(v.3)
}

/// Decode `SRV` RDATA from `packet[start..end]`.
pub fn parse_srv_rdata(packet: &[u8], start: usize, end: usize) -> (r: Result<SRV, ProtoError>)
    requires
        start <= end <= packet@.len(),
    ensures
        match spec_parse_srv(packet@, start as int, end as int) {
            Some(v) => r matches Ok(x) && x@ == v,
            None => r is Err,
        },
{
    if start > end || end - start < 2 { return Err(ProtoError::protocol("invalid SRV rdata length")); }
    let f0 = read_u16_be(packet, start);
    let c1 = start + 2;
    if c1 > end || end - c1 < 2 { return Err(ProtoError::protocol("invalid SRV rdata length")); }
    let f1 = read_u16_be(packet, c1);
    let c2 = c1 + 2;
    if c2 > end || end - c2 < 2 { return Err(ProtoError::protocol("invalid SRV rdata length")); }
    let f2 = read_u16_be(packet, c2);
    let c3 = c2 + 2;
    let (f3, c4) = match Name::parse(packet, c3) { Ok(x) => x, Err(e) => return Err(e) };
    if c4 != end { return Err(ProtoError::protocol("invalid SRV rdata length")); }
    Ok(SRV { priority: f0, weight: f1, port: f2, target: f3 })
}

/// Decode `SRV` RDATA from `packet[start..end]` as an [`RData`] value.
pub fn parse_srv(packet: &[u8], start: usize, end: usize) -> (r: Result<RData, ProtoError>)
    requires
        start <= end <= packet@.len(),
    ensures
        match spec_parse_srv(packet@, start as int, end as int) {
            Some(v) => r matches Ok(RData::SRV(x)) && x@ == v,
            None => r is Err,
        },
{
    match parse_srv_rdata(packet, start, end) {
        Ok(x) => Ok(RData::SRV(x)),
        Err(e) => Err(e),
    }
}

/// Append the `SRV` wire form, names uncompressed.
pub fn encode_srv(value: &SRV, out: &mut Vec<u8>) -> (r: Result<(), ProtoError>)
    ensures
        r is Ok,
        final(out)@ == old(out)@ + spec_encode_srv(value@),
{
    let ghost o = old(out)@;
    push_u16(out, value.priority);
    push_u16(out, value.weight);
    push_u16(out, value.port);
    push_bytes(out, value.target.wire());
    proof {
        assert(out@ =~= o + spec_encode_srv(value@));
    }
    Ok(())
}

/// Decoding the encoding of a valid `SRV` view gives the view back.
pub proof fn lemma_srv_roundtrip(v: (u16, u16, u16, Seq<u8>))
    requires
        spec_valid_srv(v),
    ensures
        spec_parse_srv(spec_encode_srv(v), 0, spec_encode_srv(v).len() as int) == Some(v),
{
    let b = spec_encode_srv(v);
    let o0: int = 0;
    let o1: int = o0 + 2;
    assert(b.subrange(o0, o1) =~= be16(v.0));
    lemma_read_be16(b, o0, v.0);
    let o2: int = o1 + 2;
    assert(b.subrange(o1, o2) =~= be16(v.1));
    lemma_read_be16(b, o1, v.1);
    let o3: int = o2 + 2;
    assert(b.subrange(o2, o3) =~= be16(v.2));
    lemma_read_be16(b, o2, v.2);
    let o4: int = o3 + v.3.len();
    assert(b.subrange(o3, o4) =~= v.3);
    lemma_parse_plain_name(b, o3, v.3);
    assert(b.len() == o4);
}

impl View for NAPTR {
    type V = (u16, u16, Seq<u8>, Seq<u8>, Seq<u8>, Seq<u8>);

    open spec fn view(&self) -> (u16, u16, Seq<u8>, Seq<u8>, Seq<u8>, Seq<u8>) {
        (self.order, self.preference, self.flags@, self.services@, self.regexp@, self.replacement@)
    }
}

/// Decoded form of `NAPTR` RDATA held in `p[s..e]`.
pub open spec fn spec_parse_naptr(p: Seq<u8>, s: int, e: int) -> Option<(u16, u16, Seq<u8>, Seq<u8>, Seq<u8>, Seq<u8>)> {
    if s + 2 > e {
        None
    } else {
        let f0 = spec_u16_at(p, s);
        let c1 = s + 2;
        if c1 + 2 > e {
            None
        } else {
            let f1 = spec_u16_at(p, c1);
            let c2 = c1 + 2;
            match spec_cstr(p, c2, e) {
                None => None,
                Some((f2, c3)) => {
                    match spec_cstr(p, c3, e) {
                        None => None,
                        Some((f3, c4)) => {
                            match spec_cstr(p, c4, e) {
                                None => None,
                                Some((f4, c5)) => {
                                    match spec_parse_name(p, c5) {
                                        None => None,
                                        Some((f5, c6)) => {
                                            if c6 != e {
                                                None
                                            } else {
                                                Some((f0, f1, f2, f3, f4, f5))
                                            }
                                        },
                                    }
                                },
                            }
                        },
                    }
                },
            }
        }
    }
}

/// Wire form of a `NAPTR` view, names written uncompressed.
pub open spec fn spec_encode_naptr(v: (u16, u16, Seq<u8>, Seq<u8>, Seq<u8>, Seq<u8>)) -> Option<Seq<u8>> {
    if v.2.len() > 255 || v.3.len() > 255 || v.4.len() > 255 { None } else { Some(be16(v.0) + be16(v.1) + seq![v.2.len() as u8] + v.2 + seq![v.3.len() as u8] + v.3 + seq![v.4.len() as u8] + v.4 + v.5) }
}

/// Views that survive an encode and decode unchanged.
pub open spec fn spec_valid_naptr(v: (u16, u16, Seq<u8>, Seq<u8>, Seq<u8>, Seq<u8>)) -> bool {
    v.2.len() <= 255 && v.3.len() <= 255 && v.4.len() <= 255 && name_wire_ok(v.5)
}

/// Decode `NAPTR` RDATA from `packet[start..end]`.
pub fn parse_naptr_rdata(packet: &[u8], start: usize, end: usize) -> (r: Result<NAPTR, ProtoError>)
    requires
        start <= end <= packet@.len(),
    ensures
        match spec_parse_naptr(packet@, start as int, end as int) {
            Some(v) => r matches Ok(x) && x@ == v,
            None => r is Err,
        },
{
    if start > end || end - start < 2 { return Err(ProtoError::protocol("invalid NAPTR rdata length")); }
    let f0 = read_u16_be(packet, start);
    let c1 = start + 2;
    if c1 > end || end - c1 < 2 { return Err(ProtoError::protocol("invalid NAPTR rdata length")); }
    let f1 = read_u16_be(packet, c1);
    let c2 = c1 + 2;
    let (f2, c3) = match parse_character_string(packet, c2, end) { Ok(x) => x, Err(e) => return Err(e) };
    let (f3, c4) = match parse_character_string(packet, c3, end) { Ok(x) => x, Err(e) => return Err(e) };
    let (f4, c5) = match parse_character_string(packet, c4, end) { Ok(x) => x, Err(e) => return Err(e) };
    let (f5, c6) = match Name::parse(packet, c5) { Ok(x) => x, Err(e) => return Err(e) };
    if c6 != end { return Err(ProtoError::protocol("invalid NAPTR rdata length")); }
    Ok(NAPTR { order: f0, preference: f1, flags: f2, services: f3, regexp: f4, replacement: f5 })
}

/// Decode `NAPTR` RDATA from `packet[start..end]` as an [`RData`] value.
pub fn parse_naptr(packet: &[u8], start: usize, end: usize) -> (r: Result<RData, ProtoError>)
    requires
        start <= end <= packet@.len(),
    ensures
        match spec_parse_naptr(packet@, start as int, end as int) {
            Some(v) => r matches Ok(RData::NAPTR(x)) && x@ == v,
            None => r is Err,
        },
{
    match parse_naptr_rdata(packet, start, end) {
        Ok(x) => Ok(RData::NAPTR(x)),
        Err(e) => Err(e),
    }
}

/// What a failed `NAPTR` write leaves: ORDER and PREFERENCE, then the
/// character-strings before the first one longer than 255 octets.
pub open spec fn spec_naptr_written(v: (u16, u16, Seq<u8>, Seq<u8>, Seq<u8>, Seq<u8>)) -> Seq<u8> {
    be16(v.0) + be16(v.1) + if v.2.len() > 255 {
        Seq::<u8>::empty()
    } else if v.3.len() > 255 {
        seq![v.2.len() as u8] + v.2
    } else {
        seq![v.2.len() as u8] + v.2 + seq![v.3.len() as u8] + v.3
    }
}

/// Append the `NAPTR` wire form, names uncompressed.
pub fn encode_naptr(value: &NAPTR, out: &mut Vec<u8>) -> (r: Result<(), ProtoError>)
    ensures
        match spec_encode_naptr(value@) {
            Some(b) => r is Ok && final(out)@ == old(out)@ + b,
            None => r is Err && final(out)@ == old(out)@ + spec_naptr_written(value@),
        },
{
    let ghost o = old(out)@;
    push_u16(out, value.order);
    push_u16(out, value.preference);
    let ghost h = out@;
    if value.flags.len() > 255 {
        proof {
            assert(out@ =~= o + be16(value.order) + be16(value.preference) + Seq::<u8>::empty());
        }
        return Err(ProtoError::protocol("NAPTR flags exceeds 255 bytes"));
    }
    out.push(value.flags.len() as u8);
    push_bytes(out, value.flags.as_slice());
    if value.services.len() > 255 {
        proof {
            assert(out@ =~= o + be16(value.order) + be16(value.preference) + (seq![value.flags@.len() as u8] + value.flags@));
        }
        return Err(ProtoError::protocol("NAPTR services exceeds 255 bytes"));
    }
    out.push(value.services.len() as u8);
    push_bytes(out, value.services.as_slice());
    if value.regexp.len() > 255 {
        proof {
            assert(out@ =~= o + be16(value.order) + be16(value.preference) + (seq![value.flags@.len() as u8]
                + value.flags@ + seq![value.services@.len() as u8] + value.services@));
        }
        return Err(ProtoError::protocol("NAPTR regexp exceeds 255 bytes"));
    }
    out.push(value.regexp.len() as u8);
    push_bytes(out, value.regexp.as_slice());
    push_bytes(out, value.replacement.wire());
    proof {
        assert(out@ =~= o + spec_encode_naptr(value@).unwrap());
    }
    Ok(())
}

/// Decoding the encoding of a valid `NAPTR` view gives the view back.
#[verifier::spinoff_prover]
#[verifier::rlimit(50)]
pub proof fn lemma_naptr_roundtrip(v: (u16, u16, Seq<u8>, Seq<u8>, Seq<u8>, Seq<u8>))
    requires
        spec_valid_naptr(v),
    ensures
        spec_encode_naptr(v) is Some,
        spec_parse_naptr(spec_encode_naptr(v).unwrap(), 0, spec_encode_naptr(v).unwrap().len() as int) == Some(v),
{
    let b = spec_encode_naptr(v).unwrap();
    let o0: int = 0;
    let o1: int = o0 + 2;
    assert(b.subrange(o0, o1) =~= be16(v.0));
    lemma_read_be16(b, o0, v.0);
    let o2: int = o1 + 2;
    assert(b.subrange(o1, o2) =~= be16(v.1));
    lemma_read_be16(b, o1, v.1);
    let o3: int = o2 + (1 + v.2.len());
    assert(b.subrange(o2, o3) =~= seq![v.2.len() as u8] + v.2);
    assert(b[o2] == v.2.len());
    assert(b.subrange(o2 + 1, o3) =~= v.2);
    let o4: int = o3 + (1 + v.3.len());
    assert(b.subrange(o3, o4) =~= seq![v.3.len() as u8] + v.3);
    assert(b[o3] == v.3.len());
    assert(b.subrange(o3 + 1, o4) =~= v.3);
    let o5: int = o4 + (1 + v.4.len());
    assert(b.subrange(o4, o5) =~= seq![v.4.len() as u8] + v.4);
    assert(b[o4] == v.4.len());
    assert(b.subrange(o4 + 1, o5) =~= v.4);
    let o6: int = o5 + v.5.len();
    assert(b.subrange(o5, o6) =~= v.5);
    lemma_parse_plain_name(b, o5, v.5);
    assert(b.len() == o6);
}

impl View for CAA {
    type V = (u8, Seq<u8>, Seq<u8>);

    open spec fn view(&self) -> (u8, Seq<u8>, Seq<u8>) {
        (self.flag, self.tag@, self.value@)
    }
}

/// Decoded form of `CAA` RDATA held in `p[s..e]`.
pub open spec fn spec_parse_caa(p: Seq<u8>, s: int, e: int) -> Option<(u8, Seq<u8>, Seq<u8>)> {
    if s + 1 > e {
        None
    } else {
        let f0 = p[s];
        let c1 = s + 1;
        if c1 + 1 > e || c1 + 1 + p[c1] > e || p[c1] == 0 {
            None
        } else {
            let f1 = p.subrange(c1 + 1, c1 + 1 + p[c1]);
            let c2 = c1 + 1 + p[c1];
            if c2 > e {
                None
            } else {
                let f2 = p.subrange(c2, e);
                Some((f0, f1, f2))
            }
        }
    }
}

/// Wire form of a `CAA` view, names written uncompressed.
pub open spec fn spec_encode_caa(v: (u8, Seq<u8>, Seq<u8>)) -> Option<Seq<u8>> {
    if v.1.len() == 0 || v.1.len() > 255 { None } else { Some(seq![v.0] + seq![v.1.len() as u8] + v.1 + v.2) }
}

/// Views that survive an encode and decode unchanged.
pub open spec fn spec_valid_caa(v: (u8, Seq<u8>, Seq<u8>)) -> bool {
    1 <= v.1.len() <= 255
}

/// Decode `CAA` RDATA from `packet[start..end]`.
pub fn parse_caa_rdata(packet: &[u8], start: usize, end: usize) -> (r: Result<CAA, ProtoError>)
    requires
        start <= end <= packet@.len(),
    ensures
        match spec_parse_caa(packet@, start as int, end as int) {
            Some(v) => r matches Ok(x) && x@ == v,
            None => r is Err,
        },
{
    if start > end || end - start < 1 { return Err(ProtoError::protocol("invalid CAA rdata length")); }
    let f0 = packet[start];
    let c1 = start + 1;
    if c1 > end || end - c1 < 1 { return Err(ProtoError::protocol("invalid CAA rdata length")); }
    let n1 = packet[c1] as usize;
    if n1 > end - c1 - 1 || n1 == 0 { return Err(ProtoError::protocol("invalid CAA rdata length")); }
    let f1 = copy_range(packet, c1 + 1, c1 + 1 + n1);
    let c2 = c1 + 1 + n1;
    if c2 > end { return Err(ProtoError::protocol("invalid CAA rdata length")); }
    let f2 = copy_range(packet, c2, end);
    Ok(CAA { flag: f0, tag: f1, value: f2 })
}

/// Decode `CAA` RDATA from `packet[start..end]` as an [`RData`] value.
pub fn parse_caa(packet: &[u8], start: usize, end: usize) -> (r: Result<RData, ProtoError>)
    requires
        start <= end <= packet@.len(),
    ensures
        match spec_parse_caa(packet@, start as int, end as int) {
            Some(v) => r matches Ok(RData::CAA(x)) && x@ == v,
            None => r is Err,
        },
{
    match parse_caa_rdata(packet, start, end) {
        Ok(x) => Ok(RData::CAA(x)),
        Err(e) => Err(e),
    }
}

/// Append the `CAA` wire form, names uncompressed.
pub fn encode_caa(value: &CAA, out: &mut Vec<u8>) -> (r: Result<(), ProtoError>)
    ensures
        match spec_encode_caa(value@) {
            Some(b) => r is Ok && final(out)@ == old(out)@ + b,
            None => r is Err && final(out)@ == old(out)@,
        },
{
    if value.tag.len() == 0 || value.tag.len() > 255 {
        return Err(ProtoError::protocol("invalid CAA tag length"));
    }
    let ghost o = old(out)@;
    out.push(value.flag);
    out.push(value.tag.len() as u8);
    push_bytes(out, value.tag.as_slice());
    push_bytes(out, value.value.as_slice());
    proof {
        assert(out@ =~= o + spec_encode_caa(value@).unwrap());
    }
    Ok(())
}

/// Decoding the encoding of a valid `CAA` view gives the view back.
pub proof fn lemma_caa_roundtrip(v: (u8, Seq<u8>, Seq<u8>))
    requires
        spec_valid_caa(v),
    ensures
        spec_encode_caa(v) is Some,
        spec_parse_caa(spec_encode_caa(v).unwrap(), 0, spec_encode_caa(v).unwrap().len() as int) == Some(v),
{
    let b = spec_encode_caa(v).unwrap();
    let o0: int = 0;
    let o1: int = o0 + 1;
    assert(b.subrange(o0, o1) =~= seq![v.0]);
    assert(b[o0] == v.0);
    let o2: int = o1 + (1 + v.1.len());
    assert(b.subrange(o1, o2) =~= seq![v.1.len() as u8] + v.1);
    assert(b[o1] == v.1.len());
    assert(b.subrange(o1 + 1, o2) =~= v.1);
    let o3: int = o2 + v.2.len();
    assert(b.subrange(o2, o3) =~= v.2);
    assert(b.len() == o3);
}

impl View for DOA {
    type V = Seq<u8>;

    open spec fn view(&self) -> Seq<u8> {
        self.0@
    }
}

/// Decoded form of `DOA` RDATA held in `p[s..e]`.
pub open spec fn spec_parse_doa(p: Seq<u8>, s: int, e: int) -> Option<Seq<u8>> {
    if s > e {
        None
    } else {
        let f0 = p.subrange(s, e);
        Some(f0)
    }
}

/// Wire form of a `DOA` view, names written uncompressed.
pub open spec fn spec_encode_doa(v: Seq<u8>) -> Seq<u8> {
    v
}

/// Views that survive an encode and decode unchanged.
pub open spec fn spec_valid_doa(v: Seq<u8>) -> bool {
    true
}

/// Decode `DOA` RDATA from `packet[start..end]`.
pub fn parse_doa_rdata(packet: &[u8], start: usize, end: usize) -> (r: Result<DOA, ProtoError>)
    requires
        start <= end <= packet@.len(),
    ensures
        match spec_parse_doa(packet@, start as int, end as int) {
            Some(v) => r matches Ok(x) && x@ == v,
            None => r is Err,
        },
{
    if start > end { return Err(ProtoError::protocol("invalid DOA rdata length")); }
    let f0 = copy_range(packet, start, end);
    Ok(DOA(f0))
}

/// Decode `DOA` RDATA from `packet[start..end]` as an [`RData`] value.
pub fn parse_doa(packet: &[u8], start: usize, end: usize) -> (r: Result<RData, ProtoError>)
    requires
        start <= end <= packet@.len(),
    ensures
        match spec_parse_doa(packet@, start as int, end as int) {
            Some(v) => r matches Ok(RData::DOA(x)) && x@ == v,
            None => r is Err,
        },
{
    match parse_doa_rdata(packet, start, end) {
        Ok(x) => Ok(RData::DOA(x)),
        Err(e) => Err(e),
    }
}

/// Append the `DOA` wire form.
pub fn encode_doa(value: &DOA, out: &mut Vec<u8>)
    ensures
        final(out)@ == old(out)@ + spec_encode_doa(value@),
{
    let ghost o = old(out)@;
    push_bytes(out, value.0.as_slice());
    proof {
        assert(out@ =~= o + spec_encode_doa(value@));
    }
}

/// Decoding the encoding of a valid `DOA` view gives the view back.
pub proof fn lemma_doa_roundtrip(v: Seq<u8>)
    requires
        spec_valid_doa(v),
    ensures
        spec_parse_doa(spec_encode_doa(v), 0, spec_encode_doa(v).len() as int) == Some(v),
{
    let b = spec_encode_doa(v);
    let o0: int = 0;
    let o1: int = o0 + v.len();
    assert(b.subrange(o0, o1) =~= v);
    assert(b.len() == o1);
}

impl View for SOA {
    type V = (Seq<u8>, Seq<u8>, u32, i32, i32, i32, u32);

    open spec fn view(&self) -> (Seq<u8>, Seq<u8>, u32, i32, i32, i32, u32) {
        (self.mname@, self.rname@, self.serial, self.refresh, self.retry, self.expire, self.minimum)
    }
}

/// Decoded form of `SOA` RDATA held in `p[s..e]`.
pub open spec fn spec_parse_soa(p: Seq<u8>, s: int, e: int) -> Option<(Seq<u8>, Seq<u8>, u32, i32, i32, i32, u32)> {
    match spec_parse_name(p, s) {
        None => None,
        Some((f0, c1)) => {
            match spec_parse_name(p, c1) {
                None => None,
                Some((f1, c2)) => {
                    if c2 + 4 > e {
                        None
                    } else {
                        let f2 = spec_u32_at(p, c2);
                        let c3 = c2 + 4;
                        if c3 + 4 > e {
                            None
                        } else {
                            let f3 = spec_u32_at(p, c3) as i32;
                            let c4 = c3 + 4;
                            if c4 + 4 > e {
                                None
                            } else {
                                let f4 = spec_u32_at(p, c4) as i32;
                                let c5 = c4 + 4;
                                if c5 + 4 > e {
                                    None
                                } else {
                                    let f5 = spec_u32_at(p, c5) as i32;
                                    let c6 = c5 + 4;
                                    if c6 + 4 > e {
                                        None
                                    } else {
                                        let f6 = spec_u32_at(p, c6);
                                        let c7 = c6 + 4;
                                        if c7 != e {
                                            None
                                        } else {
                                            Some((f0, f1, f2, f3, f4, f5, f6))
                                        }
                                    }
                                }
                            }
                        }
                    }
                },
            }
        },
    }
}

/// Wire form of a `SOA` view, names written uncompressed.
pub open spec fn spec_encode_soa(v: (Seq<u8>, Seq<u8>, u32, i32, i32, i32, u32)) -> Seq<u8> {
    v.0 + v.1 + be32(v.2) + be32(v.3 as u32) + be32(v.4 as u32) + be32(v.5 as u32) + be32(v.6)
}

/// Views that survive an encode and decode unchanged.
pub open spec fn spec_valid_soa(v: (Seq<u8>, Seq<u8>, u32, i32, i32, i32, u32)) -> bool {
    name_wire_ok(v.0) && name_wire_ok(v.1)
}

/// Decode `SOA` RDATA from `packet[start..end]`.
pub fn parse_soa_rdata(packet: &[u8], start: usize, end: usize) -> (r: Result<SOA, ProtoError>)
    requires
        start <= end <= packet@.len(),
    ensures
        match spec_parse_soa(packet@, start as int, end as int) {
            Some(v) => r matches Ok(x) && x@ == v,
            None => r is Err,
        },
{
    let (f0, c1) = match Name::parse(packet, start) { Ok(x) => x, Err(e) => return Err(e) };
    let (f1, c2) = match Name::parse(packet, c1) { Ok(x) => x, Err(e) => return Err(e) };
    if c2 > end || end - c2 < 4 { return Err(ProtoError::protocol("invalid SOA rdata length")); }
    let f2 = read_u32_be(packet, c2);
    let c3 = c2 + 4;
    if c3 > end || end - c3 < 4 { return Err(ProtoError::protocol("invalid SOA rdata length")); }
    let f3 = read_u32_be(packet, c3) as i32;
    let c4 = c3 + 4;
    if c4 > end || end - c4 < 4 { return Err(ProtoError::protocol("invalid SOA rdata length")); }
    let f4 = read_u32_be(packet, c4) as i32;
    let c5 = c4 + 4;
    if c5 > end || end - c5 < 4 { return Err(ProtoError::protocol("invalid SOA rdata length")); }
    let f5 = read_u32_be(packet, c5) as i32;
    let c6 = c5 + 4;
    if c6 > end || end - c6 < 4 { return Err(ProtoError::protocol("invalid SOA rdata length")); }
    let f6 = read_u32_be(packet, c6);
    let c7 = c6 + 4;
    if c7 != end { return Err(ProtoError::protocol("invalid SOA rdata length")); }
    Ok(SOA { mname: f0, rname: f1, serial: f2, refresh: f3, retry: f4, expire: f5, minimum: f6 })
}

/// Decode `SOA` RDATA from `packet[start..end]` as an [`RData`] value.
pub fn parse_soa(packet: &[u8], start: usize, end: usize) -> (r: Result<RData, ProtoError>)
    requires
        start <= end <= packet@.len(),
    ensures
        match spec_parse_soa(packet@, start as int, end as int) {
            Some(v) => r matches Ok(RData::SOA(x)) && x@ == v,
            None => r is Err,
        },
{
    match parse_soa_rdata(packet, start, end) {
        Ok(x) => Ok(RData::SOA(x)),
        Err(e) => Err(e),
    }
}

/// Append the `SOA` wire form, names uncompressed.
pub fn encode_soa(value: &SOA, out: &mut Vec<u8>) -> (r: Result<(), ProtoError>)
    ensures
        r is Ok,
        final(out)@ == old(out)@ + spec_encode_soa(value@),
{
    let ghost o = old(out)@;
    push_bytes(out, value.mname.wire());
    push_bytes(out, value.rname.wire());
    push_u32(out, value.serial);
    push_u32(out, value.refresh as u32);
    push_u32(out, value.retry as u32);
    push_u32(out, value.expire as u32);
    push_u32(out, value.minimum);
    proof {
        assert(out@ =~= o + spec_encode_soa(value@));
    }
    Ok(())
}

/// SOA RDATA is laid out as RFC 1035 section 3.3.13 gives it: MNAME, then
/// RNAME, then the five 32-bit counters SERIAL, REFRESH, RETRY, EXPIRE and
/// MINIMUM in network byte order, which fill the RDATA to its end.  So a
/// decoded serial is the number in the four octets just after the two
/// names, and the minimum the number in the last four.
pub proof fn lemma_soa_decode_field_positions(p: Seq<u8>, s: int, e: int)
    requires
        0 <= s <= e <= p.len(),
    ensures
        spec_parse_soa(p, s, e) matches Some(v) ==> {
            &&& spec_parse_name(p, s) is Some
            &&& spec_parse_name(p, s).unwrap().0 == v.0
            &&& spec_parse_name(p, spec_parse_name(p, s).unwrap().1) == Some((v.1, e - 20))
            &&& v.2 as int == spec_network_u32(p, e - 20)
            &&& v.3 as u32 as int == spec_network_u32(p, e - 16)
            &&& v.4 as u32 as int == spec_network_u32(p, e - 12)
            &&& v.5 as u32 as int == spec_network_u32(p, e - 8)
            &&& v.6 as int == spec_network_u32(p, e - 4)
        },
{
    if let Some(v) = spec_parse_soa(p, s, e) {
        let (n0, c1) = spec_parse_name(p, s).unwrap();
        let (n1, c2) = spec_parse_name(p, c1).unwrap();
        assert(c2 + 20 == e);
        lemma_parse_name_valid(p, s);
        lemma_parse_name_valid(p, c1);
        lemma_u32_at_network_order(p, c2);
        lemma_u32_at_network_order(p, c2 + 4);
        lemma_u32_at_network_order(p, c2 + 8);
        lemma_u32_at_network_order(p, c2 + 12);
        lemma_u32_at_network_order(p, c2 + 16);
        lemma_u32_through_i32(spec_u32_at(p, c2 + 4));
        lemma_u32_through_i32(spec_u32_at(p, c2 + 8));
        lemma_u32_through_i32(spec_u32_at(p, c2 + 12));
    }
}

/// The SOA wire form is the two names followed by SERIAL, REFRESH, RETRY,
/// EXPIRE and MINIMUM, each in four octets in network byte order (RFC 1035
/// section 3.3.13).
pub proof fn lemma_soa_encode_field_positions(v: (Seq<u8>, Seq<u8>, u32, i32, i32, i32, u32))
    ensures
        spec_encode_soa(v).len() == v.0.len() + v.1.len() + 20,
        spec_encode_soa(v).subrange(0, (v.0.len() + v.1.len()) as int) == v.0 + v.1,
        spec_network_u32(spec_encode_soa(v), (v.0.len() + v.1.len()) as int) == v.2 as int,
        spec_network_u32(spec_encode_soa(v), (v.0.len() + v.1.len()) as int + 4) == v.3 as u32 as int,
        spec_network_u32(spec_encode_soa(v), (v.0.len() + v.1.len()) as int + 8) == v.4 as u32 as int,
        spec_network_u32(spec_encode_soa(v), (v.0.len() + v.1.len()) as int + 12) == v.5 as u32 as int,
        spec_network_u32(spec_encode_soa(v), (v.0.len() + v.1.len()) as int + 16) == v.6 as int,
{
    let b = spec_encode_soa(v);
    let k: int = (v.0.len() + v.1.len()) as int;
    assert(b.subrange(0, k) =~= v.0 + v.1);
    assert(b.subrange(k, k + 4) =~= be32(v.2));
    lemma_read_be32(b, k, v.2);
    lemma_u32_at_network_order(b, k);
    assert(b.subrange(k + 4, k + 8) =~= be32(v.3 as u32));
    lemma_read_be32(b, k + 4, v.3 as u32);
    lemma_u32_at_network_order(b, k + 4);
    assert(b.subrange(k + 8, k + 12) =~= be32(v.4 as u32));
    lemma_read_be32(b, k + 8, v.4 as u32);
    lemma_u32_at_network_order(b, k + 8);
    assert(b.subrange(k + 12, k + 16) =~= be32(v.5 as u32));
    lemma_read_be32(b, k + 12, v.5 as u32);
    lemma_u32_at_network_order(b, k + 12);
    assert(b.subrange(k + 16, k + 20) =~= be32(v.6));
    lemma_read_be32(b, k + 16, v.6);
    lemma_u32_at_network_order(b, k + 16);
}

/// Decoding the encoding of a valid `SOA` view gives the view back.
#[verifier::spinoff_prover]
#[verifier::rlimit(50)]
pub proof fn lemma_soa_roundtrip(v: (Seq<u8>, Seq<u8>, u32, i32, i32, i32, u32))
    requires
        spec_valid_soa(v),
    ensures
        spec_parse_soa(spec_encode_soa(v), 0, spec_encode_soa(v).len() as int) == Some(v),
{
    let b = spec_encode_soa(v);
    let o0: int = 0;
    let o1: int = o0 + v.0.len();
    assert(b.subrange(o0, o1) =~= v.0);
    lemma_parse_plain_name(b, o0, v.0);
    let o2: int = o1 + v.1.len();
    assert(b.subrange(o1, o2) =~= v.1);
    lemma_parse_plain_name(b, o1, v.1);
    let o3: int = o2 + 4;
    assert(b.subrange(o2, o3) =~= be32(v.2));
    lemma_read_be32(b, o2, v.2);
    let o4: int = o3 + 4;
    assert(b.subrange(o3, o4) =~= be32(v.3 as u32));
    lemma_read_be32(b, o3, v.3 as u32);
    lemma_i32_through_u32(v.3);
    let o5: int = o4 + 4;
    assert(b.subrange(o4, o5) =~= be32(v.4 as u32));
    lemma_read_be32(b, o4, v.4 as u32);
    lemma_i32_through_u32(v.4);
    let o6: int = o5 + 4;
    assert(b.subrange(o5, o6) =~= be32(v.5 as u32));
    lemma_read_be32(b, o5, v.5 as u32);
    lemma_i32_through_u32(v.5);
    let o7: int = o6 + 4;
    assert(b.subrange(o6, o7) =~= be32(v.6));
    lemma_read_be32(b, o6, v.6);
    assert(b.len() == o7);
}

/// `w` is a run of complete character-strings (RFC 1035 section 3.3.14).
pub open spec fn spec_txt_valid(w: Seq<u8>) -> bool
    decreases w.len(),
{
    if w.len() == 0 {
        true
    } else {
        1 + w[0] <= w.len() && spec_txt_valid(w.subrange(1 + w[0] as int, w.len() as int))
    }
}

/// Decoded form of TXT-style RDATA: the raw wire, once every
/// character-string in it is complete.
pub open spec fn spec_parse_txt(p: Seq<u8>, s: int, e: int) -> Option<Seq<u8>> {
    if spec_txt_valid(p.subrange(s, e)) {
        Some(p.subrange(s, e))
    } else {
        None
    }
}

impl View for TXT {
    type V = Seq<u8>;

    open spec fn view(&self) -> Seq<u8> {
        self.wire@
    }
}

impl View for RESINFO {
    type V = Seq<u8>;

    open spec fn view(&self) -> Seq<u8> {
        self.0@
    }
}

impl View for SPF {
    type V = Seq<u8>;

    open spec fn view(&self) -> Seq<u8> {
        self.0@
    }
}

impl View for AVC {
    type V = Seq<u8>;

    open spec fn view(&self) -> Seq<u8> {
        self.0@
    }
}

/// Check that `packet[start..end]` is a run of complete character-strings
/// and keep it as TXT wire.
pub fn parse_txt_wire(packet: &[u8], start: usize, end: usize) -> (r: Result<TXT, ProtoError>)
    requires
        start <= end <= packet@.len(),
    ensures
        match spec_parse_txt(packet@, start as int, end as int) {
            Some(v) => r matches Ok(x) && x@ == v,
            None => r is Err,
        },
{
    let ghost whole = packet@.subrange(start as int, end as int);
    let mut cursor = start;
    while cursor < end
        invariant
            start <= cursor <= end <= packet@.len(),
            whole == packet@.subrange(start as int, end as int),
            spec_txt_valid(whole) == spec_txt_valid(packet@.subrange(cursor as int, end as int)),
        decreases end - cursor,
    {
        let len = packet[cursor] as usize;
        let ghost rest = packet@.subrange(cursor as int, end as int);
        cursor = cursor + 1;
        if len > end - cursor {
            return Err(ProtoError::protocol("invalid TXT rdata length"));
        }
        proof {
            assert(rest.subrange(1 + rest[0] as int, rest.len() as int) == packet@.subrange(
                cursor + len,
                end as int,
            ));
        }
        cursor = cursor + len;
    }
    proof {
        assert(packet@.subrange(cursor as int, end as int).len() == 0);
    }
    Ok(TXT::new(copy_range(packet, start, end)))
}

/// Decode TXT RDATA (RFC 1035 section 3.3.14).
pub fn parse_txt(packet: &[u8], start: usize, end: usize) -> (r: Result<RData, ProtoError>)
    requires
        start <= end <= packet@.len(),
    ensures
        match spec_parse_txt(packet@, start as int, end as int) {
            Some(v) => r matches Ok(RData::TXT(x)) && x@ == v,
            None => r is Err,
        },
{
    match parse_txt_wire(packet, start, end) {
        Ok(x) => Ok(RData::TXT(x)),
        Err(e) => Err(e),
    }
}

/// Decode SPF RDATA, which has the TXT layout (RFC 7208 section 3.3).
pub fn parse_spf(packet: &[u8], start: usize, end: usize) -> (r: Result<RData, ProtoError>)
    requires
        start <= end <= packet@.len(),
    ensures
        match spec_parse_txt(packet@, start as int, end as int) {
            Some(v) => r matches Ok(RData::SPF(x)) && x@ == v,
            None => r is Err,
        },
{
    match parse_txt_wire(packet, start, end) {
        Ok(x) => Ok(RData::SPF(SPF(x))),
        Err(e) => Err(e),
    }
}

/// Decode AVC RDATA, which has the TXT layout.
pub fn parse_avc(packet: &[u8], start: usize, end: usize) -> (r: Result<RData, ProtoError>)
    requires
        start <= end <= packet@.len(),
    ensures
        match spec_parse_txt(packet@, start as int, end as int) {
            Some(v) => r matches Ok(RData::AVC(x)) && x@ == v,
            None => r is Err,
        },
{
    match parse_txt_wire(packet, start, end) {
        Ok(x) => Ok(RData::AVC(AVC(x))),
        Err(e) => Err(e),
    }
}

/// Decode RESINFO RDATA, which has the TXT layout (RFC 9606 section 4.1).
pub fn parse_resinfo(packet: &[u8], start: usize, end: usize) -> (r: Result<RData, ProtoError>)
    requires
        start <= end <= packet@.len(),
    ensures
        match spec_parse_txt(packet@, start as int, end as int) {
            Some(v) => r matches Ok(RData::RESINFO(x)) && x@ == v,
            None => r is Err,
        },
{
    match parse_txt_wire(packet, start, end) {
        Ok(x) => Ok(RData::RESINFO(RESINFO(x))),
        Err(e) => Err(e),
    }
}

/// Append TXT wire data as stored.
pub fn encode_txt(value: &TXT, out: &mut Vec<u8>)
    ensures
        final(out)@ == old(out)@ + value@,
{
    push_bytes(out, value.wire_data());
}

/// Append SPF wire data as stored.
pub fn encode_spf(value: &SPF, out: &mut Vec<u8>)
    ensures
        final(out)@ == old(out)@ + value@,
{
    encode_txt(&value.0, out);
}

/// Append AVC wire data as stored.
pub fn encode_avc(value: &AVC, out: &mut Vec<u8>)
    ensures
        final(out)@ == old(out)@ + value@,
{
    encode_txt(&value.0, out);
}

/// Append RESINFO wire data as stored.
pub fn encode_resinfo(value: &RESINFO, out: &mut Vec<u8>)
    ensures
        final(out)@ == old(out)@ + value@,
{
    encode_txt(&value.0, out);
}

/// Well-formed TXT wire decodes to itself.
pub proof fn lemma_txt_roundtrip(v: Seq<u8>)
    requires
        spec_txt_valid(v),
    ensures
        spec_parse_txt(v, 0, v.len() as int) == Some(v),
{
    assert(v.subrange(0, v.len() as int) == v);
}


/// Plain-value form of an IP address: whether it is IPv6, and its octets.
pub open spec fn spec_ip_view(a: IpAddr) -> (bool, Seq<u8>) {
    match a {
        IpAddr::V4(o) => (false, o@),
        IpAddr::V6(o) => (true, o@),
    }
}

/// Plain-value form of an EDNS option.
pub enum OptionView {
    Llq(u16, u16, u16, u64, u32),
    UpdateLease(u32, Option<u32>),
    Nsid(Seq<u8>),
    Esu(Seq<u8>),
    Dau(Seq<u8>),
    Dhu(Seq<u8>),
    N3u(Seq<u8>),
    Subnet((bool, Seq<u8>), u8, u8),
    Expire(u32, bool),
    Cookie(Seq<u8>),
    TcpKeepalive(Option<u16>),
    Padding(Seq<u8>),
    ExtendedDnsError(u16, Seq<u8>),
    ReportChannel(Seq<u8>),
    ZoneVersion(u8, u8, Seq<u8>),
    Local(u16, Seq<u8>),
}

impl View for EdnsOption {
    type V = OptionView;

    open spec fn view(&self) -> OptionView {
        match self {
            EdnsOption::Llq(x) => OptionView::Llq(x.version, x.opcode, x.error, x.id, x.lease_life),
            EdnsOption::UpdateLease(x) => OptionView::UpdateLease(x.lease, x.key_lease),
            EdnsOption::Nsid(x) => OptionView::Nsid(x.nsid@),
            EdnsOption::Esu(x) => OptionView::Esu(x.uri@),
            EdnsOption::Dau(x) => OptionView::Dau(x.algorithms@),
            EdnsOption::Dhu(x) => OptionView::Dhu(x.algorithms@),
            EdnsOption::N3u(x) => OptionView::N3u(x.algorithms@),
            EdnsOption::Subnet(x) => OptionView::Subnet(
                spec_ip_view(x.addr),
                x.source_prefix,
                x.scope_prefix,
            ),
            EdnsOption::Expire(x) => OptionView::Expire(x.expire, x.empty),
            EdnsOption::Cookie(x) => OptionView::Cookie(x.cookie@),
            EdnsOption::TcpKeepalive(x) => OptionView::TcpKeepalive(x.timeout),
            EdnsOption::Padding(x) => OptionView::Padding(x.padding@),
            EdnsOption::ExtendedDnsError(x) => OptionView::ExtendedDnsError(x.info_code, x.extra_text@),
            EdnsOption::ReportChannel(x) => OptionView::ReportChannel(x.agent_domain@),
            EdnsOption::ZoneVersion(x) => OptionView::ZoneVersion(x.label_count, x.version_type, x.version@),
            EdnsOption::Local(x) => OptionView::Local(x.code, x.data@),
        }
    }
}

/// The code an option view is filed under.
pub open spec fn spec_view_code(o: OptionView) -> EdnsCode {
    match o {
        OptionView::Llq(..) => EdnsCode::Llq,
        OptionView::UpdateLease(..) => EdnsCode::UpdateLease,
        OptionView::Nsid(..) => EdnsCode::Nsid,
        OptionView::Esu(..) => EdnsCode::Esu,
        OptionView::Dau(..) => EdnsCode::Dau,
        OptionView::Dhu(..) => EdnsCode::Dhu,
        OptionView::N3u(..) => EdnsCode::N3u,
        OptionView::Subnet(..) => EdnsCode::Subnet,
        OptionView::Expire(..) => EdnsCode::Expire,
        OptionView::Cookie(..) => EdnsCode::Cookie,
        OptionView::TcpKeepalive(..) => EdnsCode::TcpKeepalive,
        OptionView::Padding(..) => EdnsCode::Padding,
        OptionView::ExtendedDnsError(..) => EdnsCode::ExtendedDnsError,
        OptionView::ReportChannel(..) => EdnsCode::ReportChannel,
        OptionView::ZoneVersion(..) => EdnsCode::ZoneVersion,
        OptionView::Local(c, _) => spec_edns_code_from_u16(c),
    }
}

/// Option views without those filed under `code`.
pub open spec fn spec_views_without_code(opts: Seq<OptionView>, code: EdnsCode) -> Seq<OptionView> {
    opts.filter(|o: OptionView| spec_view_code(o) != code)
}

/// Views of a list of options.
pub open spec fn spec_option_views(opts: Seq<EdnsOption>) -> Seq<OptionView> {
    opts.map_values(|o: EdnsOption| o@)
}

/// Plain-value form of EDNS state: payload size, extended rcode, version,
/// flags and options in order.
impl View for Edns {
    type V = (u16, u8, u8, EdnsFlags, Seq<OptionView>);

    open spec fn view(&self) -> (u16, u8, u8, EdnsFlags, Seq<OptionView>) {
        (self.udp_payload_size, self.ext_rcode, self.version, self.flags, spec_option_views(self.options@))
    }
}

impl View for OPT {
    type V = (u16, u8, u8, EdnsFlags, Seq<OptionView>);

    open spec fn view(&self) -> (u16, u8, u8, EdnsFlags, Seq<OptionView>) {
        self.0@
    }
}

/// An option and its view carry the same code.
pub proof fn lemma_view_code(o: EdnsOption)
    ensures
        spec_view_code(o@) == spec_option_code(o),
{
}

/// Dropping the options of one code commutes with taking views.
pub proof fn lemma_views_without_code(opts: Seq<EdnsOption>, code: EdnsCode)
    ensures
        spec_option_views(spec_without_code(opts, code)) == spec_views_without_code(
            spec_option_views(opts),
            code,
        ),
    decreases opts.len(),
{
    let p = |o: EdnsOption| spec_option_code(o) != code;
    let vp = |o: OptionView| spec_view_code(o) != code;
    if opts.len() == 0 {
        assert(opts.filter(p) =~= Seq::<EdnsOption>::empty());
        assert(spec_option_views(opts) =~= Seq::<OptionView>::empty());
        assert(spec_option_views(opts).filter(vp) =~= Seq::<OptionView>::empty());
    } else {
        let init = opts.drop_last();
        let x = opts.last();
        lemma_views_without_code(init, code);
        assert(opts == init.push(x));
        init.lemma_filter_push(x, p);
        assert(spec_option_views(init.push(x)) =~= spec_option_views(init).push(x@));
        spec_option_views(init).lemma_filter_push(x@, vp);
        lemma_view_code(x);
        if p(x) {
            assert(spec_option_views(init.filter(p).push(x)) =~= spec_option_views(init.filter(p)).push(
                x@,
            ));
        }
    }
}

/// Octets of a client-subnet address padded with zeros to `width`.
pub open spec fn spec_padded(a: Seq<u8>, width: nat) -> Seq<u8> {
    a + Seq::new((width - a.len()) as nat, |i: int| 0u8)
}

/// Client subnet payload (RFC 7871 section 6): family, source and scope
/// prefix, and exactly `ceil(source / 8)` address octets.
pub open spec fn spec_client_subnet(d: Seq<u8>) -> Option<((bool, Seq<u8>), u8, u8)> {
    if d.len() < 4 {
        None
    } else {
        let family = spec_u16_at(d, 0);
        let sp = d[2];
        let sc = d[3];
        if family != 1 && family != 2 {
            None
        } else {
            let maxp: u8 = if family == 1 { 32 } else { 128 };
            if sp > maxp || sc > maxp {
                None
            } else if d.len() - 4 != (sp + 7) / 8 {
                None
            } else {
                let width: nat = if family == 1 { 4 } else { 16 };
                Some(((family == 2, spec_padded(d.subrange(4, d.len() as int), width)), sp, sc))
            }
        }
    }
}

/// Structured form of one EDNS option payload; payloads that do not fit
/// the structured form of their code are kept as a local option.
pub open spec fn spec_decode_option(code: u16, d: Seq<u8>) -> OptionView {
    let local = OptionView::Local(code, d);
    match spec_edns_code_from_u16(code) {
        EdnsCode::Llq => if d.len() < 18 {
            local
        } else {
            OptionView::Llq(
                spec_u16_at(d, 0),
                spec_u16_at(d, 2),
                spec_u16_at(d, 4),
                spec_u64_at(d, 6),
                spec_u32_at(d, 14),
            )
        },
        EdnsCode::UpdateLease => if d.len() == 4 {
            OptionView::UpdateLease(spec_u32_at(d, 0), None)
        } else if d.len() == 8 {
            OptionView::UpdateLease(spec_u32_at(d, 0), Some(spec_u32_at(d, 4)))
        } else {
            local
        },
        EdnsCode::Nsid => OptionView::Nsid(d),
        EdnsCode::Esu => OptionView::Esu(d),
        EdnsCode::Dau => OptionView::Dau(d),
        EdnsCode::Dhu => OptionView::Dhu(d),
        EdnsCode::N3u => OptionView::N3u(d),
        EdnsCode::Subnet => match spec_client_subnet(d) {
            Some((a, sp, sc)) => OptionView::Subnet(a, sp, sc),
            None => local,
        },
        EdnsCode::Expire => if d.len() == 0 {
            OptionView::Expire(0, true)
        } else if d.len() == 4 {
            OptionView::Expire(spec_u32_at(d, 0), false)
        } else {
            local
        },
        EdnsCode::Cookie => OptionView::Cookie(d),
        EdnsCode::TcpKeepalive => if d.len() == 0 {
            OptionView::TcpKeepalive(None)
        } else if d.len() == 2 {
            OptionView::TcpKeepalive(Some(spec_u16_at(d, 0)))
        } else {
            local
        },
        EdnsCode::Padding => OptionView::Padding(d),
        EdnsCode::ExtendedDnsError => if d.len() < 2 {
            local
        } else {
            OptionView::ExtendedDnsError(spec_u16_at(d, 0), d.subrange(2, d.len() as int))
        },
        EdnsCode::ReportChannel => match spec_parse_name(d, 0) {
            Some((n, k)) => if k == d.len() {
                OptionView::ReportChannel(n)
            } else {
                local
            },
            None => local,
        },
        EdnsCode::ZoneVersion => if d.len() < 2 {
            local
        } else {
            OptionView::ZoneVersion(d[0], d[1], d.subrange(2, d.len() as int))
        },
        _ => local,
    }
}

/// Options of OPT RDATA from `c` up to `e`, each inserted into `acc` so that
/// a later option replaces an earlier one with the same code.
pub open spec fn spec_parse_options(p: Seq<u8>, c: int, e: int, acc: Seq<OptionView>) -> Option<
    Seq<OptionView>,
>
    decreases e - c,
{
    if c >= e {
        Some(acc)
    } else if c + 4 > e {
        None
    } else {
        let code = spec_u16_at(p, c);
        let de = c + 4 + spec_u16_at(p, c + 2);
        if de > e {
            None
        } else {
            let o = spec_decode_option(code, p.subrange(c + 4, de));
            spec_parse_options(p, de, e, spec_views_without_code(acc, spec_view_code(o)).push(o))
        }
    }
}

/// EDNS state of an OPT record: CLASS is the payload size and TTL carries
/// the extended rcode, version and flags (RFC 6891 section 6.1.3).
pub open spec fn spec_parse_opt_rdata(p: Seq<u8>, class: u16, ttl: u32, s: int, e: int) -> Option<
    (u16, u8, u8, EdnsFlags, Seq<OptionView>),
> {
    match spec_parse_options(p, s, e, Seq::empty()) {
        Some(opts) => Some(
            (
                class,
                (ttl / 0x100_0000) as u8,
                ((ttl / 0x1_0000) % 256) as u8,
                spec_edns_flags_from_u16((ttl % 0x1_0000) as u16),
                opts,
            ),
        ),
        None => None,
    }
}

/// Decoded OPT RDATA; the owner must be the root name.
pub open spec fn spec_parse_opt(p: Seq<u8>, owner: Seq<u8>, class: u16, ttl: u32, s: int, e: int) -> Option<
    (u16, u8, u8, EdnsFlags, Seq<OptionView>),
> {
    if owner != seq![0u8] {
        None
    } else {
        spec_parse_opt_rdata(p, class, ttl, s, e)
    }
}

fn parse_llq(data: &[u8]) -> (r: Option<EdnsLlq>)
    ensures
        data@.len() < 18 ==> r is None,
        data@.len() >= 18 ==> (r matches Some(x) && EdnsOption::Llq(x)@ == spec_decode_option(1, data@)),
{
    if data.len() < 18 {
        return None;
    }
    Some(EdnsLlq::new(
        read_u16_be(data, 0),
        read_u16_be(data, 2),
        read_u16_be(data, 4),
        read_u64_be(data, 6),
        read_u32_be(data, 14),
    ))
}

fn parse_update_lease(data: &[u8]) -> (r: Option<EdnsUpdateLease>)
    ensures
        match r {
            Some(x) => EdnsOption::UpdateLease(x)@ == spec_decode_option(2, data@),
            None => spec_decode_option(2, data@) == OptionView::Local(2, data@),
        },
{
    if data.len() == 4 {
        Some(EdnsUpdateLease::new(read_u32_be(data, 0), None))
    } else if data.len() == 8 {
        Some(EdnsUpdateLease::new(read_u32_be(data, 0), Some(read_u32_be(data, 4))))
    } else {
        None
    }
}

fn parse_subnet_addr(family: u16, address: &[u8]) -> (r: Option<IpAddr>)
    ensures
        family == 1 && address@.len() <= 4 ==> (r matches Some(a) && spec_ip_view(a) == (false, spec_padded(address@, 4))),
        family == 2 && address@.len() <= 16 ==> (r matches Some(a) && spec_ip_view(a) == (true, spec_padded(address@, 16))),
        !(family == 1 && address@.len() <= 4) && !(family == 2 && address@.len() <= 16) ==> r is None,
{
    let n = address.len();
    if family == 1 {
        if n > 4 {
            return None;
        }
        let o: [u8; 4] = [
            if n > 0 { address[0] } else { 0 },
            if n > 1 { address[1] } else { 0 },
            if n > 2 { address[2] } else { 0 },
            if n > 3 { address[3] } else { 0 },
        ];
        proof {
            assert(o@ =~= spec_padded(address@, 4));
        }
        Some(IpAddr::V4(o))
    } else if family == 2 {
        if n > 16 {
            return None;
        }
        let mut o: [u8; 16] = [0u8; 16];
        let mut i: usize = 0;
        while i < n
            invariant
                n == address@.len() <= 16,
                i <= n,
                forall|k: int| 0 <= k < i ==> o@[k] == address@[k],
                forall|k: int| i <= k < 16 ==> o@[k] == 0,
            decreases n - i,
        {
            o.set(i, address[i]);
            i = i + 1;
        }
        proof {
            assert(o@ =~= spec_padded(address@, 16));
        }
        Some(IpAddr::V6(o))
    } else {
        None
    }
}

fn parse_client_subnet(data: &[u8]) -> (r: Option<ClientSubnet>)
    ensures
        match spec_client_subnet(data@) {
            Some((a, sp, sc)) => r matches Some(x) && spec_ip_view(x.addr) == a && x.source_prefix == sp
                && x.scope_prefix == sc,
            None => r is None,
        },
{
    if data.len() < 4 {
        return None;
    }
    let family = read_u16_be(data, 0);
    let source_prefix = data[2];
    let scope_prefix = data[3];
    let max_prefix: u8 = if family == 1 {
        32
    } else if family == 2 {
        128
    } else {
        return None;
    };
    if source_prefix > max_prefix || scope_prefix > max_prefix {
        return None;
    }
    let required_len = ((source_prefix as usize) + 7) / 8;
    if data.len() - 4 != required_len {
        return None;
    }
    let address = slice_subrange(data, 4, data.len());
    let addr = match parse_subnet_addr(family, address) {
        Some(a) => a,
        None => return None,
    };
    Some(ClientSubnet::new(addr, source_prefix, scope_prefix))
}

fn parse_expire(data: &[u8]) -> (r: Option<EdnsExpire>)
    ensures
        match r {
            Some(x) => EdnsOption::Expire(x)@ == spec_decode_option(9, data@),
            None => spec_decode_option(9, data@) == OptionView::Local(9, data@),
        },
{
    if data.len() == 0 {
        Some(EdnsExpire::empty())
    } else if data.len() == 4 {
        Some(EdnsExpire::new(read_u32_be(data, 0)))
    } else {
        None
    }
}

fn parse_tcp_keepalive(data: &[u8]) -> (r: Option<EdnsTcpKeepalive>)
    ensures
        match r {
            Some(x) => EdnsOption::TcpKeepalive(x)@ == spec_decode_option(11, data@),
            None => spec_decode_option(11, data@) == OptionView::Local(11, data@),
        },
{
    if data.len() == 0 {
        Some(EdnsTcpKeepalive::new(None))
    } else if data.len() == 2 {
        Some(EdnsTcpKeepalive::new(Some(read_u16_be(data, 0))))
    } else {
        None
    }
}

fn parse_extended_dns_error(data: &[u8]) -> (r: Option<EdnsExtendedDnsError>)
    ensures
        match r {
            Some(x) => EdnsOption::ExtendedDnsError(x)@ == spec_decode_option(15, data@),
            None => spec_decode_option(15, data@) == OptionView::Local(15, data@),
        },
{
    if data.len() < 2 {
        return None;
    }
    Some(EdnsExtendedDnsError::new(read_u16_be(data, 0), copy_range(data, 2, data.len())))
}

fn parse_report_channel(data: &[u8]) -> (r: Option<EdnsReportChannel>)
    ensures
        match r {
            Some(x) => EdnsOption::ReportChannel(x)@ == spec_decode_option(18, data@),
            None => spec_decode_option(18, data@) == OptionView::Local(18, data@),
        },
{
    let (agent_domain, next) = match Name::parse(data, 0) {
        Ok(x) => x,
        Err(_) => return None,
    };
    if next != data.len() {
        return None;
    }
    Some(EdnsReportChannel::new(agent_domain))
}

fn parse_zone_version(data: &[u8]) -> (r: Option<EdnsZoneVersion>)
    ensures
        match r {
            Some(x) => EdnsOption::ZoneVersion(x)@ == spec_decode_option(19, data@),
            None => spec_decode_option(19, data@) == OptionView::Local(19, data@),
        },
{
    if data.len() < 2 {
        return None;
    }
    Some(EdnsZoneVersion::new(data[0], data[1], copy_range(data, 2, data.len())))
}

fn local_option(code: u16, data: &[u8]) -> (o: EdnsOption)
    ensures
        o@ == OptionView::Local(code, data@),
{
    EdnsOption::Local(EdnsLocal::new(code, slice_to_vec(data)))
}

/// Decode one EDNS option payload into its structured form.
pub fn parse_edns_option(code: u16, data: &[u8]) -> (o: EdnsOption)
    ensures
        o@ == spec_decode_option(code, data@),
{
    match EdnsCode::from_u16(code) {
        EdnsCode::Llq => match parse_llq(data) {
            Some(x) => EdnsOption::Llq(x),
            None => local_option(code, data),
        },
        EdnsCode::UpdateLease => match parse_update_lease(data) {
            Some(x) => EdnsOption::UpdateLease(x),
            None => local_option(code, data),
        },
        EdnsCode::Nsid => EdnsOption::Nsid(EdnsNsid::new(slice_to_vec(data))),
        EdnsCode::Esu => EdnsOption::Esu(EdnsEsu::new(slice_to_vec(data))),
        EdnsCode::Dau => EdnsOption::Dau(EdnsAlgorithmList::new(slice_to_vec(data))),
        EdnsCode::Dhu => EdnsOption::Dhu(EdnsAlgorithmList::new(slice_to_vec(data))),
        EdnsCode::N3u => EdnsOption::N3u(EdnsAlgorithmList::new(slice_to_vec(data))),
        EdnsCode::Subnet => match parse_client_subnet(data) {
            Some(x) => EdnsOption::Subnet(x),
            None => local_option(code, data),
        },
        EdnsCode::Expire => match parse_expire(data) {
            Some(x) => EdnsOption::Expire(x),
            None => local_option(code, data),
        },
        EdnsCode::Cookie => EdnsOption::Cookie(EdnsCookie::new(slice_to_vec(data))),
        EdnsCode::TcpKeepalive => match parse_tcp_keepalive(data) {
            Some(x) => EdnsOption::TcpKeepalive(x),
            None => local_option(code, data),
        },
        EdnsCode::Padding => EdnsOption::Padding(EdnsPadding::new(slice_to_vec(data))),
        EdnsCode::ExtendedDnsError => match parse_extended_dns_error(data) {
            Some(x) => EdnsOption::ExtendedDnsError(x),
            None => local_option(code, data),
        },
        EdnsCode::ReportChannel => match parse_report_channel(data) {
            Some(x) => EdnsOption::ReportChannel(x),
            None => local_option(code, data),
        },
        EdnsCode::ZoneVersion => match parse_zone_version(data) {
            Some(x) => EdnsOption::ZoneVersion(x),
            None => local_option(code, data),
        },
        _ => local_option(code, data),
    }
}

/// Decode OPT RDATA into EDNS state (RFC 6891 section 6.1.2).
pub fn parse_opt_rdata(packet: &[u8], class: u16, ttl: u32, start: usize, end: usize) -> (r: Result<
    Edns,
    ProtoError,
>)
    requires
        start <= end <= packet@.len(),
    ensures
        match spec_parse_opt_rdata(packet@, class, ttl, start as int, end as int) {
            Some(v) => r matches Ok(x) && x@ == v,
            None => r is Err,
        },
{
    let mut edns = Edns::new();
    edns.set_udp_payload_size(class);
    edns.set_ext_rcode((ttl / 0x100_0000) as u8);
    edns.set_version(((ttl / 0x1_0000) % 256) as u8);
    *edns.flags_mut() = EdnsFlags::from_u16((ttl % 0x1_0000) as u16);
    let mut cursor = start;
    proof {
        assert(spec_option_views(edns.options@) =~= Seq::<OptionView>::empty());
    }
    while cursor < end
        invariant
            start <= cursor <= end <= packet@.len(),
            edns.udp_payload_size == class,
            edns.ext_rcode == (ttl / 0x100_0000) as u8,
            edns.version == ((ttl / 0x1_0000) % 256) as u8,
            edns.flags == spec_edns_flags_from_u16((ttl % 0x1_0000) as u16),
            spec_parse_options(packet@, cursor as int, end as int, spec_option_views(edns.options@))
                == spec_parse_options(packet@, start as int, end as int, Seq::empty()),
        decreases end - cursor,
    {
        if end - cursor < 4 {
            return Err(ProtoError::protocol("invalid OPT rdata length"));
        }
        let code = read_u16_be(packet, cursor);
        let len = read_u16_be(packet, cursor + 2) as usize;
        let data_start = cursor + 4;
        if len > end - data_start {
            return Err(ProtoError::protocol("invalid OPT rdata length"));
        }
        let data_end = data_start + len;
        let option = parse_edns_option(code, slice_subrange(packet, data_start, data_end));
        proof {
            lemma_views_without_code(edns.options@, spec_option_code(option));
            lemma_view_code(option);
        }
        let ghost before = edns.options@;
        edns.insert(option);
        proof {
            assert(spec_option_views(edns.options@) =~= spec_option_views(
                spec_without_code(before, spec_option_code(option)),
            ).push(option@));
        }
        cursor = data_end;
    }
    Ok(edns)
}

/// Decode OPT RDATA; the owner name of an OPT record must be the root.
pub fn parse_opt(packet: &[u8], owner_name: &Name, class: u16, ttl: u32, start: usize, end: usize) -> (r:
    Result<RData, ProtoError>)
    requires
        start <= end <= packet@.len(),
    ensures
        match spec_parse_opt(packet@, owner_name@, class, ttl, start as int, end as int) {
            Some(v) => r matches Ok(RData::OPT(x)) && x@ == v,
            None => r is Err,
        },
{
    if !owner_name.is_root() {
        return Err(ProtoError::protocol("invalid OPT owner name"));
    }
    match parse_opt_rdata(packet, class, ttl, start, end) {
        Ok(e) => Ok(RData::OPT(OPT(e))),
        Err(e) => Err(e),
    }
}


/// The first `rl` octets of `oct` with the bits past `sp` cleared in the last
/// one (RFC 7871 section 6: ADDRESS is truncated to SOURCE PREFIX-LENGTH).
pub open spec fn spec_masked_prefix(oct: Seq<u8>, rl: int, sp: u8) -> Seq<u8> {
    if rl <= 0 {
        Seq::empty()
    } else {
        let last = oct[rl - 1];
        let tail = sp % 8;
        let m = if tail != 0 {
            last & (0xFFu8 << ((8 - tail) as u8))
        } else {
            last
        };
        oct.subrange(0, rl - 1).push(m)
    }
}

/// `[code][length][bytes]` for an option whose payload is raw bytes.
pub open spec fn spec_bytes_option(code: u16, d: Seq<u8>) -> Option<Seq<u8>> {
    if d.len() > 65535 {
        None
    } else {
        Some(be16(code) + be16(d.len() as u16) + d)
    }
}

/// Code written in front of an option.
pub open spec fn spec_option_wire_code(o: OptionView) -> u16 {
    match o {
        OptionView::Llq(..) => 1,
        OptionView::UpdateLease(..) => 2,
        OptionView::Nsid(..) => 3,
        OptionView::Esu(..) => 4,
        OptionView::Dau(..) => 5,
        OptionView::Dhu(..) => 6,
        OptionView::N3u(..) => 7,
        OptionView::Subnet(..) => 8,
        OptionView::Expire(..) => 9,
        OptionView::Cookie(..) => 10,
        OptionView::TcpKeepalive(..) => 11,
        OptionView::Padding(..) => 12,
        OptionView::ExtendedDnsError(..) => 15,
        OptionView::ReportChannel(..) => 18,
        OptionView::ZoneVersion(..) => 19,
        OptionView::Local(c, _) => c,
    }
}

/// Wire form `[code][length][payload]` of one option (RFC 6891 section
/// 6.1.2); `None` when the payload does not fit a 16-bit length.
pub open spec fn spec_encode_option(o: OptionView) -> Option<Seq<u8>> {
    match o {
        OptionView::Llq(v, op, er, id, ll) => Some(
            be16(1) + be16(18) + be16(v) + be16(op) + be16(er) + be64(id) + be32(ll),
        ),
        OptionView::UpdateLease(l, k) => Some(
            be16(2) + match k {
                Some(kl) => be16(8) + be32(l) + be32(kl),
                None => be16(4) + be32(l),
            },
        ),
        OptionView::Nsid(d) => spec_bytes_option(3, d),
        OptionView::Esu(d) => spec_bytes_option(4, d),
        OptionView::Dau(d) => spec_bytes_option(5, d),
        OptionView::Dhu(d) => spec_bytes_option(6, d),
        OptionView::N3u(d) => spec_bytes_option(7, d),
        OptionView::Subnet(a, sp, sc) => {
            let maxp: u8 = if a.0 { 128 } else { 32 };
            let s2: u8 = if sp <= maxp { sp } else { maxp };
            let c2: u8 = if sc <= maxp { sc } else { maxp };
            let rl = (s2 + 7) / 8;
            Some(
                be16(8) + be16((4 + rl) as u16) + be16(if a.0 { 2 } else { 1 }) + seq![s2, c2]
                    + spec_masked_prefix(a.1, rl, s2),
            )
        },
        OptionView::Expire(x, empty) => Some(
            be16(9) + if empty {
                be16(0)
            } else {
                be16(4) + be32(x)
            },
        ),
        OptionView::Cookie(d) => spec_bytes_option(10, d),
        OptionView::TcpKeepalive(t) => Some(
            be16(11) + match t {
                Some(x) => be16(2) + be16(x),
                None => be16(0),
            },
        ),
        OptionView::Padding(d) => spec_bytes_option(12, d),
        OptionView::ExtendedDnsError(i, t) => if 2 + t.len() > 65535 {
            None
        } else {
            Some(be16(15) + be16((2 + t.len()) as u16) + be16(i) + t)
        },
        OptionView::ReportChannel(n) => spec_bytes_option(18, n),
        OptionView::ZoneVersion(lc, vt, v) => if 2 + v.len() > 65535 {
            None
        } else {
            Some(be16(19) + be16((2 + v.len()) as u16) + seq![lc, vt] + v)
        },
        OptionView::Local(c, d) => spec_bytes_option(c, d),
    }
}

/// Wire form of a list of options, one after the other.
pub open spec fn spec_encode_options(os: Seq<OptionView>) -> Option<Seq<u8>>
    decreases os.len(),
{
    if os.len() == 0 {
        Some(Seq::empty())
    } else {
        match spec_encode_options(os.drop_last()) {
            Some(a) => match spec_encode_option(os.last()) {
                Some(b) => Some(a + b),
                None => None,
            },
            None => None,
        }
    }
}

/// The OPT TTL word `[extended rcode][version][flags]`.
pub open spec fn spec_opt_ttl(ext_rcode: u8, version: u8, flags: EdnsFlags) -> u32 {
    (ext_rcode as int * 0x100_0000 + version as int * 0x1_0000 + spec_edns_flags_to_u16(flags) as int) as u32
}

/// Wire form of the whole OPT pseudo-record: root owner, TYPE 41, CLASS as
/// payload size, TTL, RDLENGTH and the options.
pub open spec fn spec_encode_edns_record(e: (u16, u8, u8, EdnsFlags, Seq<OptionView>), ext_rcode: u8) -> Option<Seq<u8>> {
    match spec_encode_options(e.4) {
        Some(d) => if d.len() > 65535 {
            None
        } else {
            Some(
                seq![0u8] + be16(41) + be16(e.0) + be32(spec_opt_ttl(ext_rcode, e.2, e.3)) + be16(
                    d.len() as u16,
                ) + d,
            )
        },
        None => None,
    }
}

/// Append the first `required_len` octets of an address, with the bits past
/// `source_prefix` cleared in the last one.
pub fn write_masked_addr_prefix(out: &mut Vec<u8>, octets: &[u8], required_len: usize, source_prefix: u8)
    requires
        required_len <= octets@.len(),
    ensures
        final(out)@ == old(out)@ + spec_masked_prefix(octets@, required_len as int, source_prefix),
{
    if required_len == 0 {
        proof {
            assert(old(out)@ + Seq::<u8>::empty() == old(out)@);
        }
        return;
    }
    let ghost o = old(out)@;
    push_bytes(out, slice_subrange(octets, 0, required_len - 1));
    let mut last = octets[required_len - 1];
    let tail_bits = source_prefix % 8;
    if tail_bits != 0 {
        let mask = 0xFFu8 << (8 - tail_bits);
        last = last & mask;
    }
    out.push(last);
    proof {
        assert(out@ =~= o + spec_masked_prefix(octets@, required_len as int, source_prefix));
    }
}

fn push_bytes_option(out: &mut Vec<u8>, code: u16, data: &[u8]) -> (r: Result<(), ProtoError>)
    ensures
        match spec_bytes_option(code, data@) {
            Some(b) => r is Ok && final(out)@ == old(out)@ + b,
            None => r is Err && final(out)@ == old(out)@ + be16(code),
        },
{
    let ghost o = old(out)@;
    push_u16(out, code);
    if data.len() > 65535 {
        return Err(ProtoError::protocol("edns option payload too long"));
    }
    push_u16(out, data.len() as u16);
    push_bytes(out, data);
    proof {
        assert(out@ =~= o + spec_bytes_option(code, data@).unwrap());
    }
    Ok(())
}

/// Append an algorithm-list option (DAU, DHU or N3U).
pub fn encode_edns_algorithm_option(out: &mut Vec<u8>, code: EdnsCode, value: &EdnsAlgorithmList) -> (r: Result<
    (),
    ProtoError,
>)
    ensures
        match spec_bytes_option(spec_edns_code_value(code), value.algorithms@) {
            Some(b) => r is Ok && final(out)@ == old(out)@ + b,
            None => r is Err && final(out)@ == old(out)@ + be16(spec_edns_code_value(code)),
        },
{
    push_bytes_option(out, code.to_u16(), value.algorithms.as_slice())
}

fn encode_llq_option(out: &mut Vec<u8>, value: &EdnsLlq)
    ensures
        spec_encode_option(EdnsOption::Llq(*value)@) is Some,
        final(out)@ == old(out)@ + spec_encode_option(EdnsOption::Llq(*value)@).unwrap(),
{
    let ghost o = old(out)@;
    push_u16(out, 1);
    push_u16(out, 18);
    push_u16(out, value.version);
    push_u16(out, value.opcode);
    push_u16(out, value.error);
    push_u64(out, value.id);
    push_u32(out, value.lease_life);
    proof {
        assert(out@ =~= o + spec_encode_option(EdnsOption::Llq(*value)@).unwrap());
    }
}

fn encode_update_lease_option(out: &mut Vec<u8>, value: &EdnsUpdateLease)
    ensures
        spec_encode_option(EdnsOption::UpdateLease(*value)@) is Some,
        final(out)@ == old(out)@ + spec_encode_option(EdnsOption::UpdateLease(*value)@).unwrap(),
{
    let ghost o = old(out)@;
    push_u16(out, 2);
    match value.key_lease {
        Some(key_lease) => {
            push_u16(out, 8);
            push_u32(out, value.lease);
            push_u32(out, key_lease);
        },
        None => {
            push_u16(out, 4);
            push_u32(out, value.lease);
        },
    }
    proof {
        assert(out@ =~= o + spec_encode_option(EdnsOption::UpdateLease(*value)@).unwrap());
    }
}

#[verifier::spinoff_prover]
#[verifier::rlimit(40)]
fn encode_subnet_option(out: &mut Vec<u8>, value: &ClientSubnet)
    ensures
        spec_encode_option(EdnsOption::Subnet(*value)@) is Some,
        final(out)@ == old(out)@ + spec_encode_option(EdnsOption::Subnet(*value)@).unwrap(),
{
    let ghost o = old(out)@;
    let (family, max_prefix): (u16, u8) = match value.addr {
        IpAddr::V4(_) => (1, 32),
        IpAddr::V6(_) => (2, 128),
    };
    let source_prefix = if value.source_prefix <= max_prefix {
        value.source_prefix
    } else {
        max_prefix
    };
    let scope_prefix = if value.scope_prefix <= max_prefix {
        value.scope_prefix
    } else {
        max_prefix
    };
    let required_len = ((source_prefix as usize) + 7) / 8;
    push_u16(out, 8);
    push_u16(out, (4 + required_len) as u16);
    push_u16(out, family);
    out.push(source_prefix);
    out.push(scope_prefix);
    match &value.addr {
        IpAddr::V4(addr) => write_masked_addr_prefix(out, addr.as_slice(), required_len, source_prefix),
        IpAddr::V6(addr) => write_masked_addr_prefix(out, addr.as_slice(), required_len, source_prefix),
    }
    proof {
        assert(out@ =~= o + spec_encode_option(EdnsOption::Subnet(*value)@).unwrap());
    }
}

fn encode_expire_option(out: &mut Vec<u8>, value: &EdnsExpire)
    ensures
        spec_encode_option(EdnsOption::Expire(*value)@) is Some,
        final(out)@ == old(out)@ + spec_encode_option(EdnsOption::Expire(*value)@).unwrap(),
{
    let ghost o = old(out)@;
    push_u16(out, 9);
    if value.empty {
        push_u16(out, 0);
    } else {
        push_u16(out, 4);
        push_u32(out, value.expire);
    }
    proof {
        assert(out@ =~= o + spec_encode_option(EdnsOption::Expire(*value)@).unwrap());
    }
}

fn encode_tcp_keepalive_option(out: &mut Vec<u8>, value: &EdnsTcpKeepalive)
    ensures
        spec_encode_option(EdnsOption::TcpKeepalive(*value)@) is Some,
        final(out)@ == old(out)@ + spec_encode_option(EdnsOption::TcpKeepalive(*value)@).unwrap(),
{
    let ghost o = old(out)@;
    push_u16(out, 11);
    match value.timeout {
        Some(timeout) => {
            push_u16(out, 2);
            push_u16(out, timeout);
        },
        None => {
            push_u16(out, 0);
        },
    }
    proof {
        assert(out@ =~= o + spec_encode_option(EdnsOption::TcpKeepalive(*value)@).unwrap());
    }
}

fn encode_extended_dns_error_option(out: &mut Vec<u8>, value: &EdnsExtendedDnsError) -> (r: Result<(), ProtoError>)
    ensures
        match spec_encode_option(EdnsOption::ExtendedDnsError(*value)@) {
            Some(b) => r is Ok && final(out)@ == old(out)@ + b,
            None => r is Err && final(out)@ == old(out)@ + be16(15),
        },
{
    let ghost o = old(out)@;
    push_u16(out, 15);
    if value.extra_text.len() > 65533 {
        return Err(ProtoError::protocol("edns option payload too long"));
    }
    push_u16(out, (2 + value.extra_text.len()) as u16);
    push_u16(out, value.info_code);
    push_bytes(out, value.extra_text.as_slice());
    proof {
        assert(out@ =~= o + spec_encode_option(EdnsOption::ExtendedDnsError(*value)@).unwrap());
    }
    Ok(())
}

fn encode_zone_version_option(out: &mut Vec<u8>, value: &EdnsZoneVersion) -> (r: Result<(), ProtoError>)
    ensures
        match spec_encode_option(EdnsOption::ZoneVersion(*value)@) {
            Some(b) => r is Ok && final(out)@ == old(out)@ + b,
            None => r is Err && final(out)@ == old(out)@ + be16(19),
        },
{
    let ghost o = old(out)@;
    push_u16(out, 19);
    if value.version.len() > 65533 {
        return Err(ProtoError::protocol("edns option payload too long"));
    }
    push_u16(out, (2 + value.version.len()) as u16);
    out.push(value.label_count);
    out.push(value.version_type);
    push_bytes(out, value.version.as_slice());
    proof {
        assert(out@ =~= o + spec_encode_option(EdnsOption::ZoneVersion(*value)@).unwrap());
    }
    Ok(())
}

/// Append one EDNS option as `[code][length][payload]` (RFC 6891 section
/// 6.1.2).  A client subnet is written with its prefixes clamped to the
/// family width and its address truncated to the source prefix.
pub fn encode_edns_option(out: &mut Vec<u8>, option: &EdnsOption) -> (r: Result<(), ProtoError>)
    ensures
        match spec_encode_option(option@) {
            Some(b) => r is Ok && final(out)@ == old(out)@ + b,
            None => r is Err && final(out)@ == old(out)@ + be16(spec_option_wire_code(option@)),
        },
{
    match option {
        EdnsOption::Llq(value) => {
            encode_llq_option(out, value);
            Ok(())
        },
        EdnsOption::UpdateLease(value) => {
            encode_update_lease_option(out, value);
            Ok(())
        },
        EdnsOption::Nsid(value) => push_bytes_option(out, 3, value.nsid.as_slice()),
        EdnsOption::Esu(value) => push_bytes_option(out, 4, value.uri.as_slice()),
        EdnsOption::Dau(value) => encode_edns_algorithm_option(out, EdnsCode::Dau, value),
        EdnsOption::Dhu(value) => encode_edns_algorithm_option(out, EdnsCode::Dhu, value),
        EdnsOption::N3u(value) => encode_edns_algorithm_option(out, EdnsCode::N3u, value),
        EdnsOption::Subnet(value) => {
            encode_subnet_option(out, value);
            Ok(())
        },
        EdnsOption::Expire(value) => {
            encode_expire_option(out, value);
            Ok(())
        },
        EdnsOption::Cookie(value) => push_bytes_option(out, 10, value.cookie.as_slice()),
        EdnsOption::TcpKeepalive(value) => {
            encode_tcp_keepalive_option(out, value);
            Ok(())
        },
        EdnsOption::Padding(value) => push_bytes_option(out, 12, value.padding.as_slice()),
        EdnsOption::ExtendedDnsError(value) => encode_extended_dns_error_option(out, value),
        EdnsOption::ReportChannel(value) => push_bytes_option(out, 18, value.agent_domain.wire()),
        EdnsOption::ZoneVersion(value) => encode_zone_version_option(out, value),
        EdnsOption::Local(local) => push_bytes_option(out, local.code, local.data.as_slice()),
    }
}

/// Writing a list of options that each can be written puts the first one
/// first.
pub proof fn lemma_encode_options_first(os: Seq<OptionView>)
    requires
        forall|i: int| 0 <= i < os.len() ==> spec_encode_option(#[trigger] os[i]) is Some,
    ensures
        spec_encode_options(os) is Some,
        os.len() > 0 ==> spec_encode_options(os).unwrap() == spec_encode_option(os[0]).unwrap()
            + spec_encode_options(os.drop_first()).unwrap(),
    decreases os.len(),
{
    if os.len() > 0 {
        let init = os.drop_last();
        assert forall|i: int| 0 <= i < init.len() implies spec_encode_option(#[trigger] init[i]) is Some by {
            assert(init[i] == os[i]);
        }
        lemma_encode_options_first(init);
        assert(spec_encode_option(os.last()) is Some);
        if os.len() == 1 {
            assert(init =~= Seq::<OptionView>::empty());
            assert(os.drop_first() =~= Seq::<OptionView>::empty());
            assert(spec_encode_options(init).unwrap() =~= Seq::<u8>::empty());
            assert(spec_encode_options(os).unwrap() =~= spec_encode_option(os[0]).unwrap());
            assert(spec_encode_options(os.drop_first()).unwrap() =~= Seq::<u8>::empty());
            assert(spec_encode_option(os[0]).unwrap() + Seq::<u8>::empty() =~= spec_encode_option(os[0]).unwrap());
        } else {
            let tail = os.drop_first();
            assert forall|i: int| 0 <= i < tail.len() implies spec_encode_option(#[trigger] tail[i]) is Some by {
                assert(tail[i] == os[i + 1]);
            }
            lemma_encode_options_first(tail);
            assert(init.drop_first() =~= tail.drop_last());
            assert(tail.last() == os.last());
            assert(init[0] == os[0]);
            assert(spec_encode_options(tail).unwrap() =~= spec_encode_options(tail.drop_last()).unwrap()
                + spec_encode_option(tail.last()).unwrap());
        }
    }
}

/// What writing a list of options leaves behind: every option in turn, and
/// on the first one that cannot be written, its code alone.
pub open spec fn spec_options_written(os: Seq<OptionView>) -> Seq<u8>
    decreases os.len(),
{
    if os.len() == 0 {
        Seq::empty()
    } else {
        match spec_encode_option(os[0]) {
            Some(b) => b + spec_options_written(os.drop_first()),
            None => be16(spec_option_wire_code(os[0])),
        }
    }
}

/// Past a prefix of options that can all be written, what is left behind is
/// that prefix's wire form followed by what the rest leaves.
proof fn lemma_options_written_split(os: Seq<OptionView>, i: int)
    requires
        0 <= i <= os.len(),
        forall|j: int| 0 <= j < i ==> spec_encode_option(#[trigger] os[j]) is Some,
    ensures
        spec_encode_options(os.take(i)) is Some,
        spec_options_written(os) == spec_encode_options(os.take(i)).unwrap() + spec_options_written(os.skip(i)),
    decreases i,
{
    let t = os.take(i);
    assert forall|j: int| 0 <= j < t.len() implies spec_encode_option(#[trigger] t[j]) is Some by {
        assert(t[j] == os[j]);
    }
    lemma_encode_options_first(t);
    if i == 0 {
        assert(os.skip(0) =~= os);
        assert(spec_encode_options(t).unwrap() =~= Seq::<u8>::empty());
        assert(Seq::<u8>::empty() + spec_options_written(os) =~= spec_options_written(os));
    } else {
        let rest = os.drop_first();
        assert forall|j: int| 0 <= j < i - 1 implies spec_encode_option(#[trigger] rest[j]) is Some by {
            assert(rest[j] == os[j + 1]);
        }
        lemma_options_written_split(rest, i - 1);
        assert(t[0] == os[0]);
        assert(t.drop_first() =~= rest.take(i - 1));
        assert(rest.skip(i - 1) =~= os.skip(i));
        assert(spec_encode_option(os[0]) is Some);
        let b0 = spec_encode_option(os[0]).unwrap();
        assert(spec_options_written(os) == b0 + spec_options_written(rest));
        assert(spec_options_written(os) =~= spec_encode_options(t).unwrap() + spec_options_written(os.skip(i)));
    }
}

/// Append the options one after the other, as far as they can be written.
fn encode_options_into(out: &mut Vec<u8>, options: &[EdnsOption]) -> (r: Result<(), ProtoError>)
    ensures
        match spec_encode_options(spec_option_views(options@)) {
            Some(b) => r is Ok && final(out)@ == old(out)@ + b,
            None => r is Err && final(out)@ == old(out)@ + spec_options_written(spec_option_views(options@)),
        },
{
    let ghost vs = spec_option_views(options@);
    let ghost o = old(out)@;
    let mut i: usize = 0;
    while i < options.len()
        invariant
            i <= options@.len(),
            vs == spec_option_views(options@),
            o == old(out)@,
            vs.len() == options@.len(),
            forall|j: int| 0 <= j < i ==> spec_encode_option(#[trigger] vs[j]) is Some,
            spec_encode_options(vs.take(i as int)) is Some,
            out@ == o + spec_encode_options(vs.take(i as int)).unwrap(),
        decreases options.len() - i,
    {
        let ghost before = out@;
        let r = encode_edns_option(out, &options[i]);
        proof {
            assert(vs[i as int] == options@[i as int]@);
            assert(vs.take(i + 1).drop_last() =~= vs.take(i as int));
            assert(vs.take(i + 1).last() == vs[i as int]);
        }
        if r.is_err() {
            proof {
                assert(spec_encode_option(vs[i as int]) is None);
                assert(out@ == before + be16(spec_option_wire_code(vs[i as int])));
                assert(spec_encode_options(vs.take(i + 1)) is None);
                lemma_options_written_split(vs, i as int);
                let rest = vs.skip(i as int);
                assert(rest[0] == vs[i as int]);
                assert(spec_options_written(rest) == be16(spec_option_wire_code(vs[i as int])));
                lemma_encode_options_prefix_fails(vs, i + 1);
                assert(out@ =~= o + spec_options_written(vs));
            }
            return Err(ProtoError::protocol("edns option payload too long"));
        }
        i = i + 1;
    }
    proof {
        assert(vs.take(vs.len() as int) =~= vs);
    }
    Ok(())
}

/// Once a prefix of the options cannot be written, neither can the whole
/// list.
proof fn lemma_encode_options_prefix_fails(os: Seq<OptionView>, k: int)
    requires
        0 <= k <= os.len(),
        spec_encode_options(os.take(k)) is None,
    ensures
        spec_encode_options(os) is None,
    decreases os.len() - k,
{
    if k < os.len() {
        assert(os.take(k + 1).drop_last() =~= os.take(k));
        lemma_encode_options_prefix_fails(os, k + 1);
    } else {
        assert(os.take(k) =~= os);
    }
}

/// Append the options of an OPT record, as far as they can be written.
pub fn encode_opt(value: &OPT, out: &mut Vec<u8>) -> (r: Result<(), ProtoError>)
    ensures
        match spec_encode_options(value@.4) {
            Some(b) => r is Ok && final(out)@ == old(out)@ + b,
            None => r is Err && final(out)@ == old(out)@ + spec_options_written(value@.4),
        },
{
    encode_options_into(out, value.0.options())
}

/// The OPT pseudo-record up to RDLENGTH, with RDLENGTH still zero.
pub open spec fn spec_edns_record_head(e: (u16, u8, u8, EdnsFlags, Seq<OptionView>), ext_rcode: u8) -> Seq<u8> {
    seq![0u8] + be16(41) + be16(e.0) + be32(spec_opt_ttl(ext_rcode, e.2, e.3)) + be16(0)
}

/// Append the OPT pseudo-record for `edns` with `ext_rcode` as the high bits
/// of the response code.  The header is written with a zero RDLENGTH, the
/// options follow, and RDLENGTH is filled in last; when an option cannot be
/// written or the options exceed 65535 octets, what was written stays.
pub fn encode_edns_record(out: &mut Vec<u8>, edns: &Edns, ext_rcode: u8) -> (r: Result<(), ProtoError>)
    ensures
        match spec_encode_edns_record(edns@, ext_rcode) {
            Some(b) => r is Ok && final(out)@ == old(out)@ + b,
            None => r is Err && final(out)@ == old(out)@ + spec_edns_record_head(edns@, ext_rcode) + match spec_encode_options(edns@.4) {
                Some(d) => d,
                None => spec_options_written(edns@.4),
            },
        },
{
    let ghost o = old(out)@;
    out.push(0);
    push_u16(out, 41);
    push_u16(out, edns.udp_payload_size);
    let ttl: u32 = (ext_rcode as u32) * 0x100_0000 + (edns.version as u32) * 0x1_0000 + (edns.flags.to_u16() as u32);
    push_u32(out, ttl);
    let rdlen_pos = out.len();
    push_u16(out, 0);
    let rdata_start = out.len();
    proof {
        assert(out@ =~= o + spec_edns_record_head(edns@, ext_rcode));
    }
    let ghost h = out@;
    match encode_options_into(out, edns.options()) {
        Ok(()) => {},
        Err(e) => return Err(e),
    }
    let ghost d = spec_encode_options(edns@.4).unwrap();
    assert(out@ == h + d);
    let rdlen = out.len() - rdata_start;
    if rdlen > 65535 {
        return Err(ProtoError::protocol("dns rdata exceeds u16 length"));
    }
    let hi = (rdlen / 256) as u8;
    let lo = (rdlen % 256) as u8;
    out.set(rdlen_pos, hi);
    out.set(rdlen_pos + 1, lo);
    proof {
        assert(be16(rdlen as u16) =~= seq![hi, lo]);
        assert(out@ =~= o + spec_encode_edns_record(edns@, ext_rcode).unwrap());
    }
    Ok(())
}

} // verus!
