//! Wire-level helpers for DNS encoding and decoding.

use vstd::prelude::*;
use vstd::slice::{slice_subrange, slice_to_vec};
use crate::error::ProtoError;
use crate::name::Name;
use crate::rdata::RData;
use crate::types::{DNSClass, RecordType};
use crate::wire::rdata::{parse_rdata, spec_rdata_parsed};

pub mod compression;
pub mod length;
pub mod rdata_len;
pub mod rdata;
pub mod rdata_compress;

verus! {

/// Big-endian two-byte encoding of `v`.
pub open spec fn be16(v: u16) -> Seq<u8> {
    seq![(v / 256) as u8, (v % 256) as u8]
}

/// Big-endian four-byte encoding of `v`.
pub open spec fn be32(v: u32) -> Seq<u8> {
    be16((v / 65536) as u16) + be16((v % 65536) as u16)
}

/// Big-endian six-byte encoding of the low 48 bits of `v`.
pub open spec fn be48(v: u64) -> Seq<u8> {
    be16(((v / 0x1_0000_0000) % 65536) as u16) + be32((v % 0x1_0000_0000) as u32)
}

/// Big-endian eight-byte encoding of `v`.
pub open spec fn be64(v: u64) -> Seq<u8> {
    be32((v / 0x1_0000_0000) as u32) + be32((v % 0x1_0000_0000) as u32)
}

/// Value of the big-endian 16-bit integer stored at `i`.
pub open spec fn spec_u16_at(s: Seq<u8>, i: int) -> u16 {
    (s[i] as int * 256 + s[i + 1] as int) as u16
}

/// Value of the big-endian 32-bit integer stored at `i`.
pub open spec fn spec_u32_at(s: Seq<u8>, i: int) -> u32 {
    (spec_u16_at(s, i) as int * 65536 + spec_u16_at(s, i + 2) as int) as u32
}

/// Value of the big-endian 48-bit integer stored at `i`.
pub open spec fn spec_u48_at(s: Seq<u8>, i: int) -> u64 {
    (spec_u16_at(s, i) as int * 0x1_0000_0000 + spec_u32_at(s, i + 2) as int) as u64
}

/// Value of the big-endian 64-bit integer stored at `i`.
pub open spec fn spec_u64_at(s: Seq<u8>, i: int) -> u64 {
    (spec_u32_at(s, i) as int * 0x1_0000_0000 + spec_u32_at(s, i + 4) as int) as u64
}

/// The number that the four octets at `i` spell in network byte order (most
/// significant octet first).
pub open spec fn spec_network_u32(s: Seq<u8>, i: int) -> int {
    s[i] as int * 16777216 + s[i + 1] as int * 65536 + s[i + 2] as int * 256 + s[i + 3] as int
}

/// The 32-bit reader takes the four octets at `i` in network byte order.
pub proof fn lemma_u32_at_network_order(s: Seq<u8>, i: int)
    requires
        0 <= i,
        i + 4 <= s.len(),
    ensures
        spec_u32_at(s, i) as int == spec_network_u32(s, i),
{
    assert(spec_u16_at(s, i) as int == s[i] as int * 256 + s[i + 1] as int);
    assert(spec_u16_at(s, i + 2) as int == s[i + 2] as int * 256 + s[i + 3] as int);
}

/// Reading back two bytes written by [`be16`] gives the value.
pub proof fn lemma_read_be16(p: Seq<u8>, i: int, v: u16)
    requires
        0 <= i,
        i + 2 <= p.len(),
        p.subrange(i, i + 2) == be16(v),
    ensures
        spec_u16_at(p, i) == v,
{
    assert(p[i] == p.subrange(i, i + 2)[0]);
    assert(p[i + 1] == p.subrange(i, i + 2)[1]);
}

/// Reading back four bytes written by [`be32`] gives the value.
pub proof fn lemma_read_be32(p: Seq<u8>, i: int, v: u32)
    requires
        0 <= i,
        i + 4 <= p.len(),
        p.subrange(i, i + 4) == be32(v),
    ensures
        spec_u32_at(p, i) == v,
{
    assert(p.subrange(i, i + 2) =~= be32(v).subrange(0, 2));
    assert(p.subrange(i + 2, i + 4) =~= be32(v).subrange(2, 4));
    assert(be32(v).subrange(0, 2) =~= be16((v / 65536) as u16));
    assert(be32(v).subrange(2, 4) =~= be16((v % 65536) as u16));
    lemma_read_be16(p, i, (v / 65536) as u16);
    lemma_read_be16(p, i + 2, (v % 65536) as u16);
}

/// Reading back six bytes written by [`be48`] gives the value.
pub proof fn lemma_read_be48(p: Seq<u8>, i: int, v: u64)
    requires
        0 <= i,
        i + 6 <= p.len(),
        p.subrange(i, i + 6) == be48(v),
        v < 0x1_0000_0000_0000,
    ensures
        spec_u48_at(p, i) == v,
{
    assert(p.subrange(i, i + 2) =~= be48(v).subrange(0, 2));
    assert(p.subrange(i + 2, i + 6) =~= be48(v).subrange(2, 6));
    assert(be48(v).subrange(0, 2) =~= be16(((v / 0x1_0000_0000) % 65536) as u16));
    assert(be48(v).subrange(2, 6) =~= be32((v % 0x1_0000_0000) as u32));
    lemma_read_be16(p, i, ((v / 0x1_0000_0000) % 65536) as u16);
    lemma_read_be32(p, i + 2, (v % 0x1_0000_0000) as u32);
}

/// Reading back eight bytes written by [`be64`] gives the value.
pub proof fn lemma_read_be64(p: Seq<u8>, i: int, v: u64)
    requires
        0 <= i,
        i + 8 <= p.len(),
        p.subrange(i, i + 8) == be64(v),
    ensures
        spec_u64_at(p, i) == v,
{
    assert(p.subrange(i, i + 4) =~= be64(v).subrange(0, 4));
    assert(p.subrange(i + 4, i + 8) =~= be64(v).subrange(4, 8));
    assert(be64(v).subrange(0, 4) =~= be32((v / 0x1_0000_0000) as u32));
    assert(be64(v).subrange(4, 8) =~= be32((v % 0x1_0000_0000) as u32));
    lemma_read_be32(p, i, (v / 0x1_0000_0000) as u32);
    lemma_read_be32(p, i + 4, (v % 0x1_0000_0000) as u32);
}

/// A signed 32-bit value survives a round trip through its unsigned bit
/// pattern.
pub proof fn lemma_i32_through_u32(x: i32)
    ensures
        (x as u32) as i32 == x,
{
    assert((x as u32) as i32 == x) by (bit_vector);
}

/// A 32-bit word read as a signed number and taken back unsigned is the
/// same word.
pub proof fn lemma_u32_through_i32(x: u32)
    ensures
        (x as i32) as u32 == x,
{
    assert((x as i32) as u32 == x) by (bit_vector);
}

/// Append `v` in network byte order.
pub fn push_u16(out: &mut Vec<u8>, v: u16)
    ensures
        final(out)@ == old(out)@ + be16(v),
{
    out.push((v / 256) as u8);
    out.push((v % 256) as u8);
}

/// Append `v` in network byte order.
pub fn push_u32(out: &mut Vec<u8>, v: u32)
    ensures
        final(out)@ == old(out)@ + be32(v),
{
    let ghost o = out@;
    push_u16(out, (v / 65536) as u16);
    push_u16(out, (v % 65536) as u16);
    proof {
        assert(out@ == o + be32(v));
    }
}

/// Append the low 48 bits of `v` in network byte order.
pub fn push_u48(out: &mut Vec<u8>, v: u64)
    ensures
        final(out)@ == old(out)@ + be48(v),
{
    let ghost o = out@;
    push_u16(out, ((v / 0x1_0000_0000) % 65536) as u16);
    push_u32(out, (v % 0x1_0000_0000) as u32);
    proof {
        assert(out@ == o + be48(v));
    }
}

/// Append `v` in network byte order.
pub fn push_u64(out: &mut Vec<u8>, v: u64)
    ensures
        final(out)@ == old(out)@ + be64(v),
{
    let ghost o = out@;
    push_u32(out, (v / 0x1_0000_0000) as u32);
    push_u32(out, (v % 0x1_0000_0000) as u32);
    proof {
        assert(out@ == o + be64(v));
    }
}

/// Append raw bytes.
pub fn push_bytes(out: &mut Vec<u8>, data: &[u8])
    ensures
        final(out)@ == old(out)@ + data@,
{
    let mut tail = slice_to_vec(data);
    out.append(&mut tail);
}

/// Copy of `data[start..end]`.
pub fn copy_range(data: &[u8], start: usize, end: usize) -> (v: Vec<u8>)
    requires
        start <= end <= data@.len(),
    ensures
        v@ == data@.subrange(start as int, end as int),
{
    slice_to_vec(slice_subrange(data, start, end))
}

/// Read a big-endian u16 at `i`.
pub fn read_u16_be(data: &[u8], i: usize) -> (v: u16)
    requires
        i + 2 <= data@.len(),
    ensures
        v == spec_u16_at(data@, i as int),
{
    (data[i] as u16) * 256 + (data[i + 1] as u16)
}

/// Read a big-endian u32 at `i`.
pub fn read_u32_be(data: &[u8], i: usize) -> (v: u32)
    requires
        i + 4 <= data@.len(),
    ensures
        v == spec_u32_at(data@, i as int),
{
    let _n = data.len();
    (read_u16_be(data, i) as u32) * 65536 + (read_u16_be(data, i + 2) as u32)
}

/// Read a big-endian 48-bit integer at `i`.
pub fn read_u48_be(data: &[u8], i: usize) -> (v: u64)
    requires
        i + 6 <= data@.len(),
    ensures
        v == spec_u48_at(data@, i as int),
{
    let _n = data.len();
    (read_u16_be(data, i) as u64) * 0x1_0000_0000 + (read_u32_be(data, i + 2) as u64)
}

/// Read a big-endian u64 at `i`.
pub fn read_u64_be(data: &[u8], i: usize) -> (v: u64)
    requires
        i + 8 <= data@.len(),
    ensures
        v == spec_u64_at(data@, i as int),
{
    let _n = data.len();
    (read_u32_be(data, i) as u64) * 0x1_0000_0000 + (read_u32_be(data, i + 4) as u64)
}

/// Overwrite the two bytes at `pos` with `v` in network byte order.
pub fn set_u16(out: &mut Vec<u8>, pos: usize, v: u16)
    requires
        pos + 2 <= old(out)@.len(),
    ensures
        final(out)@ == old(out)@.update(pos as int, be16(v)[0]).update(pos + 1, be16(v)[1]),
{
    let _n = out.len();
    out.set(pos, (v / 256) as u8);
    out.set(pos + 1, (v % 256) as u8);
}

/// Decode RDATA of type `rr_type` from a standalone byte string, as if it
/// sat in an IN-class record with a root owner and TTL zero.
pub fn decode_rdata_from_wire(rr_type: RecordType, data: &[u8]) -> (r: Result<RData, ProtoError>)
    ensures
        spec_rdata_parsed(data@, seq![0u8], rr_type, 1, 0, 0, data@.len() as int, r),
{
    parse_rdata(data, &Name::root(), rr_type, DNSClass::IN.to_u16(), 0, 0, data.len())
}

} // verus!
