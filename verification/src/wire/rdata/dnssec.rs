//! Wire form of the DNSSEC and key RDATA types.

use vstd::prelude::*;
use crate::error::ProtoError;
use crate::name::{Name, spec_parse_name, name_wire_ok, lemma_parse_plain_name};
use crate::rdata::RData;
use crate::rdata::dnssec::{CDNSKEY, CDS, CERT, CSYNC, DHCID, DLV, DNSKEY, DS, HIP, KEY, NINFO, NSEC, NSEC3, NSEC3PARAM, OPENPGPKEY, RKEY, RRSIG, SIG, SMIMEA, SSHFP, TA, TALINK, TKEY, TLSA, TSIG, ZONEMD};
use crate::rdata::bitmap::{TypeBitMaps, spec_decode_bitmaps};
use crate::types::RecordType;
use crate::wire::{be16, be32, be48, be64, spec_u16_at, spec_u32_at, spec_u48_at, spec_u64_at, lemma_read_be16, lemma_read_be32, lemma_read_be48, lemma_read_be64, lemma_i32_through_u32, push_u16, push_u32, push_u48, push_u64, push_bytes, copy_range, read_u16_be, read_u32_be, read_u48_be, read_u64_be};
use crate::wire::rdata::{spec_cstr, spec_name_rdata, spec_single_string_rdata, spec_two_strings_rdata, spec_two_names_rdata, spec_u16_name_rdata, parse_name, parse_character_string, parse_single_character_string, parse_two_character_strings, parse_two_names, parse_u16_name, encode_character_string};

verus! {


impl View for DS {
    type V = (u16, u8, u8, Seq<u8>);

    open spec fn view(&self) -> (u16, u8, u8, Seq<u8>) {
        (self.key_tag, self.algorithm, self.digest_type, self.digest@)
    }
}

/// Decoded form of `DS` RDATA held in `p[s..e]`.
pub open spec fn spec_parse_ds(p: Seq<u8>, s: int, e: int) -> Option<(u16, u8, u8, Seq<u8>)> {
    if s + 2 > e {
        None
    } else {
        let f0 = spec_u16_at(p, s);
        let c1 = s + 2;
        if c1 + 1 > e {
            None
        } else {
            let f1 = p[c1];
            let c2 = c1 + 1;
            if c2 + 1 > e {
                None
            } else {
                let f2 = p[c2];
                let c3 = c2 + 1;
                if c3 > e {
                    None
                } else {
                    let f3 = p.subrange(c3, e);
                    Some((f0, f1, f2, f3))
                }
            }
        }
    }
}

/// Wire form of a `DS` view, names written uncompressed.
pub open spec fn spec_encode_ds(v: (u16, u8, u8, Seq<u8>)) -> Seq<u8> {
    be16(v.0) + seq![v.1] + seq![v.2] + v.3
}

/// Views that survive an encode and decode unchanged.
pub open spec fn spec_valid_ds(v: (u16, u8, u8, Seq<u8>)) -> bool {
    true
}

/// Decode `DS` RDATA from `packet[start..end]`.
pub fn parse_ds_rdata(packet: &[u8], start: usize, end: usize) -> (r: Result<DS, ProtoError>)
    requires
        start <= end <= packet@.len(),
    ensures
        match spec_parse_ds(packet@, start as int, end as int) {
            Some(v) => r matches Ok(x) && x@ == v,
            None => r is Err,
        },
{
    if start > end || end - start < 2 { return Err(ProtoError::protocol("invalid DS rdata length")); }
    let f0 = read_u16_be(packet, start);
    let c1 = start + 2;
    if c1 > end || end - c1 < 1 { return Err(ProtoError::protocol("invalid DS rdata length")); }
    let f1 = packet[c1];
    let c2 = c1 + 1;
    if c2 > end || end - c2 < 1 { return Err(ProtoError::protocol("invalid DS rdata length")); }
    let f2 = packet[c2];
    let c3 = c2 + 1;
    if c3 > end { return Err(ProtoError::protocol("invalid DS rdata length")); }
    let f3 = copy_range(packet, c3, end);
    Ok(DS { key_tag: f0, algorithm: f1, digest_type: f2, digest: f3 })
}

/// Decode `DS` RDATA from `packet[start..end]` as an [`RData`] value.
pub fn parse_ds(packet: &[u8], start: usize, end: usize) -> (r: Result<RData, ProtoError>)
    requires
        start <= end <= packet@.len(),
    ensures
        match spec_parse_ds(packet@, start as int, end as int) {
            Some(v) => r matches Ok(RData::DS(x)) && x@ == v,
            None => r is Err,
        },
{
    match parse_ds_rdata(packet, start, end) {
        Ok(x) => Ok(RData::DS(x)),
        Err(e) => Err(e),
    }
}

/// Append the `DS` wire form.
pub fn encode_ds(value: &DS, out: &mut Vec<u8>)
    ensures
        final(out)@ == old(out)@ + spec_encode_ds(value@),
{
    let ghost o = old(out)@;
    push_u16(out, value.key_tag);
    out.push(value.algorithm);
    out.push(value.digest_type);
    push_bytes(out, value.digest.as_slice());
    proof {
        assert(out@ =~= o + spec_encode_ds(value@));
    }
}

/// Decoding the encoding of a valid `DS` view gives the view back.
pub proof fn lemma_ds_roundtrip(v: (u16, u8, u8, Seq<u8>))
    requires
        spec_valid_ds(v),
    ensures
        spec_parse_ds(spec_encode_ds(v), 0, spec_encode_ds(v).len() as int) == Some(v),
{
    let b = spec_encode_ds(v);
    let o0: int = 0;
    let o1: int = o0 + 2;
    assert(b.subrange(o0, o1) =~= be16(v.0));
    lemma_read_be16(b, o0, v.0);
    let o2: int = o1 + 1;
    assert(b.subrange(o1, o2) =~= seq![v.1]);
    assert(b[o1] == v.1);
    let o3: int = o2 + 1;
    assert(b.subrange(o2, o3) =~= seq![v.2]);
    assert(b[o2] == v.2);
    let o4: int = o3 + v.3.len();
    assert(b.subrange(o3, o4) =~= v.3);
    assert(b.len() == o4);
}

impl View for CDS {
    type V = (u16, u8, u8, Seq<u8>);

    open spec fn view(&self) -> (u16, u8, u8, Seq<u8>) {
        self.0@
    }
}

/// Decoded form of `CDS` RDATA: the `DS` layout.
pub open spec fn spec_parse_cds(p: Seq<u8>, s: int, e: int) -> Option<(u16, u8, u8, Seq<u8>)> {
    spec_parse_ds(p, s, e)
}

/// Wire form of a `CDS` view.
pub open spec fn spec_encode_cds(v: (u16, u8, u8, Seq<u8>)) -> Seq<u8> {
    spec_encode_ds(v)
}

/// Views that survive an encode and decode unchanged.
pub open spec fn spec_valid_cds(v: (u16, u8, u8, Seq<u8>)) -> bool {
    spec_valid_ds(v)
}

/// Decode `CDS` RDATA from `packet[start..end]`.
pub fn parse_cds_rdata(packet: &[u8], start: usize, end: usize) -> (r: Result<CDS, ProtoError>)
    requires
        start <= end <= packet@.len(),
    ensures
        match spec_parse_cds(packet@, start as int, end as int) {
            Some(v) => r matches Ok(x) && x@ == v,
            None => r is Err,
        },
{
        match parse_ds_rdata(packet, start, end) {
            Ok(x) => Ok(CDS(x)),
            Err(e) => Err(e),
        }
}

/// Decode `CDS` RDATA from `packet[start..end]` as an [`RData`] value.
pub fn parse_cds(packet: &[u8], start: usize, end: usize) -> (r: Result<RData, ProtoError>)
    requires
        start <= end <= packet@.len(),
    ensures
        match spec_parse_cds(packet@, start as int, end as int) {
            Some(v) => r matches Ok(RData::CDS(x)) && x@ == v,
            None => r is Err,
        },
{
    match parse_cds_rdata(packet, start, end) {
        Ok(x) => Ok(RData::CDS(x)),
        Err(e) => Err(e),
    }
}

/// Append the `CDS` wire form (the `DS` layout).
pub fn encode_cds(value: &CDS, out: &mut Vec<u8>)
    ensures
        final(out)@ == old(out)@ + spec_encode_cds(value@),
{
    encode_ds(&value.0, out)
}

/// Decoding the encoding of a valid `CDS` view gives the view back.
pub proof fn lemma_cds_roundtrip(v: (u16, u8, u8, Seq<u8>))
    requires
        spec_valid_cds(v),
    ensures
        spec_parse_cds(spec_encode_cds(v), 0, spec_encode_cds(v).len() as int) == Some(v),
{
    lemma_ds_roundtrip(v);
}

impl View for DLV {
    type V = (u16, u8, u8, Seq<u8>);

    open spec fn view(&self) -> (u16, u8, u8, Seq<u8>) {
        self.0@
    }
}

/// Decoded form of `DLV` RDATA: the `DS` layout.
pub open spec fn spec_parse_dlv(p: Seq<u8>, s: int, e: int) -> Option<(u16, u8, u8, Seq<u8>)> {
    spec_parse_ds(p, s, e)
}

/// Wire form of a `DLV` view.
pub open spec fn spec_encode_dlv(v: (u16, u8, u8, Seq<u8>)) -> Seq<u8> {
    spec_encode_ds(v)
}

/// Views that survive an encode and decode unchanged.
pub open spec fn spec_valid_dlv(v: (u16, u8, u8, Seq<u8>)) -> bool {
    spec_valid_ds(v)
}

/// Decode `DLV` RDATA from `packet[start..end]`.
pub fn parse_dlv_rdata(packet: &[u8], start: usize, end: usize) -> (r: Result<DLV, ProtoError>)
    requires
        start <= end <= packet@.len(),
    ensures
        match spec_parse_dlv(packet@, start as int, end as int) {
            Some(v) => r matches Ok(x) && x@ == v,
            None => r is Err,
        },
{
        match parse_ds_rdata(packet, start, end) {
            Ok(x) => Ok(DLV(x)),
            Err(e) => Err(e),
        }
}

/// Decode `DLV` RDATA from `packet[start..end]` as an [`RData`] value.
pub fn parse_dlv(packet: &[u8], start: usize, end: usize) -> (r: Result<RData, ProtoError>)
    requires
        start <= end <= packet@.len(),
    ensures
        match spec_parse_dlv(packet@, start as int, end as int) {
            Some(v) => r matches Ok(RData::DLV(x)) && x@ == v,
            None => r is Err,
        },
{
    match parse_dlv_rdata(packet, start, end) {
        Ok(x) => Ok(RData::DLV(x)),
        Err(e) => Err(e),
    }
}

/// Append the `DLV` wire form (the `DS` layout).
pub fn encode_dlv(value: &DLV, out: &mut Vec<u8>)
    ensures
        final(out)@ == old(out)@ + spec_encode_dlv(value@),
{
    encode_ds(&value.0, out)
}

/// Decoding the encoding of a valid `DLV` view gives the view back.
pub proof fn lemma_dlv_roundtrip(v: (u16, u8, u8, Seq<u8>))
    requires
        spec_valid_dlv(v),
    ensures
        spec_parse_dlv(spec_encode_dlv(v), 0, spec_encode_dlv(v).len() as int) == Some(v),
{
    lemma_ds_roundtrip(v);
}

impl View for TA {
    type V = (u16, u8, u8, Seq<u8>);

    open spec fn view(&self) -> (u16, u8, u8, Seq<u8>) {
        self.0@
    }
}

/// Decoded form of `TA` RDATA: the `DS` layout.
pub open spec fn spec_parse_ta(p: Seq<u8>, s: int, e: int) -> Option<(u16, u8, u8, Seq<u8>)> {
    spec_parse_ds(p, s, e)
}

/// Wire form of a `TA` view.
pub open spec fn spec_encode_ta(v: (u16, u8, u8, Seq<u8>)) -> Seq<u8> {
    spec_encode_ds(v)
}

/// Views that survive an encode and decode unchanged.
pub open spec fn spec_valid_ta(v: (u16, u8, u8, Seq<u8>)) -> bool {
    spec_valid_ds(v)
}

/// Decode `TA` RDATA from `packet[start..end]`.
pub fn parse_ta_rdata(packet: &[u8], start: usize, end: usize) -> (r: Result<TA, ProtoError>)
    requires
        start <= end <= packet@.len(),
    ensures
        match spec_parse_ta(packet@, start as int, end as int) {
            Some(v) => r matches Ok(x) && x@ == v,
            None => r is Err,
        },
{
        match parse_ds_rdata(packet, start, end) {
            Ok(x) => Ok(TA(x)),
            Err(e) => Err(e),
        }
}

/// Decode `TA` RDATA from `packet[start..end]` as an [`RData`] value.
pub fn parse_ta(packet: &[u8], start: usize, end: usize) -> (r: Result<RData, ProtoError>)
    requires
        start <= end <= packet@.len(),
    ensures
        match spec_parse_ta(packet@, start as int, end as int) {
            Some(v) => r matches Ok(RData::TA(x)) && x@ == v,
            None => r is Err,
        },
{
    match parse_ta_rdata(packet, start, end) {
        Ok(x) => Ok(RData::TA(x)),
        Err(e) => Err(e),
    }
}

/// Append the `TA` wire form (the `DS` layout).
pub fn encode_ta(value: &TA, out: &mut Vec<u8>)
    ensures
        final(out)@ == old(out)@ + spec_encode_ta(value@),
{
    encode_ds(&value.0, out)
}

/// Decoding the encoding of a valid `TA` view gives the view back.
pub proof fn lemma_ta_roundtrip(v: (u16, u8, u8, Seq<u8>))
    requires
        spec_valid_ta(v),
    ensures
        spec_parse_ta(spec_encode_ta(v), 0, spec_encode_ta(v).len() as int) == Some(v),
{
    lemma_ds_roundtrip(v);
}

impl View for SSHFP {
    type V = (u8, u8, Seq<u8>);

    open spec fn view(&self) -> (u8, u8, Seq<u8>) {
        (self.algorithm, self.fp_type, self.fingerprint@)
    }
}

/// Decoded form of `SSHFP` RDATA held in `p[s..e]`.
pub open spec fn spec_parse_sshfp(p: Seq<u8>, s: int, e: int) -> Option<(u8, u8, Seq<u8>)> {
    if s + 1 > e {
        None
    } else {
        let f0 = p[s];
        let c1 = s + 1;
        if c1 + 1 > e {
            None
        } else {
            let f1 = p[c1];
            let c2 = c1 + 1;
            if c2 > e {
                None
            } else {
                let f2 = p.subrange(c2, e);
                Some((f0, f1, f2))
            }
        }
    }
}

/// Wire form of a `SSHFP` view, names written uncompressed.
pub open spec fn spec_encode_sshfp(v: (u8, u8, Seq<u8>)) -> Seq<u8> {
    seq![v.0] + seq![v.1] + v.2
}

/// Views that survive an encode and decode unchanged.
pub open spec fn spec_valid_sshfp(v: (u8, u8, Seq<u8>)) -> bool {
    true
}

/// Decode `SSHFP` RDATA from `packet[start..end]`.
pub fn parse_sshfp_rdata(packet: &[u8], start: usize, end: usize) -> (r: Result<SSHFP, ProtoError>)
    requires
        start <= end <= packet@.len(),
    ensures
        match spec_parse_sshfp(packet@, start as int, end as int) {
            Some(v) => r matches Ok(x) && x@ == v,
            None => r is Err,
        },
{
    if start > end || end - start < 1 { return Err(ProtoError::protocol("invalid SSHFP rdata length")); }
    let f0 = packet[start];
    let c1 = start + 1;
    if c1 > end || end - c1 < 1 { return Err(ProtoError::protocol("invalid SSHFP rdata length")); }
    let f1 = packet[c1];
    let c2 = c1 + 1;
    if c2 > end { return Err(ProtoError::protocol("invalid SSHFP rdata length")); }
    let f2 = copy_range(packet, c2, end);
    Ok(SSHFP { algorithm: f0, fp_type: f1, fingerprint: f2 })
}

/// Decode `SSHFP` RDATA from `packet[start..end]` as an [`RData`] value.
pub fn parse_sshfp(packet: &[u8], start: usize, end: usize) -> (r: Result<RData, ProtoError>)
    requires
        start <= end <= packet@.len(),
    ensures
        match spec_parse_sshfp(packet@, start as int, end as int) {
            Some(v) => r matches Ok(RData::SSHFP(x)) && x@ == v,
            None => r is Err,
        },
{
    match parse_sshfp_rdata(packet, start, end) {
        Ok(x) => Ok(RData::SSHFP(x)),
        Err(e) => Err(e),
    }
}

/// Append the `SSHFP` wire form.
pub fn encode_sshfp(value: &SSHFP, out: &mut Vec<u8>)
    ensures
        final(out)@ == old(out)@ + spec_encode_sshfp(value@),
{
    let ghost o = old(out)@;
    out.push(value.algorithm);
    out.push(value.fp_type);
    push_bytes(out, value.fingerprint.as_slice());
    proof {
        assert(out@ =~= o + spec_encode_sshfp(value@));
    }
}

/// Decoding the encoding of a valid `SSHFP` view gives the view back.
pub proof fn lemma_sshfp_roundtrip(v: (u8, u8, Seq<u8>))
    requires
        spec_valid_sshfp(v),
    ensures
        spec_parse_sshfp(spec_encode_sshfp(v), 0, spec_encode_sshfp(v).len() as int) == Some(v),
{
    let b = spec_encode_sshfp(v);
    let o0: int = 0;
    let o1: int = o0 + 1;
    assert(b.subrange(o0, o1) =~= seq![v.0]);
    assert(b[o0] == v.0);
    let o2: int = o1 + 1;
    assert(b.subrange(o1, o2) =~= seq![v.1]);
    assert(b[o1] == v.1);
    let o3: int = o2 + v.2.len();
    assert(b.subrange(o2, o3) =~= v.2);
    assert(b.len() == o3);
}

impl View for DNSKEY {
    type V = (u16, u8, u8, Seq<u8>);

    open spec fn view(&self) -> (u16, u8, u8, Seq<u8>) {
        (self.flags, self.protocol, self.algorithm, self.public_key@)
    }
}

/// Decoded form of `DNSKEY` RDATA held in `p[s..e]`.
pub open spec fn spec_parse_dnskey(p: Seq<u8>, s: int, e: int) -> Option<(u16, u8, u8, Seq<u8>)> {
    if s + 2 > e {
        None
    } else {
        let f0 = spec_u16_at(p, s);
        let c1 = s + 2;
        if c1 + 1 > e {
            None
        } else {
            let f1 = p[c1];
            let c2 = c1 + 1;
            if c2 + 1 > e {
                None
            } else {
                let f2 = p[c2];
                let c3 = c2 + 1;
                if c3 > e {
                    None
                } else {
                    let f3 = p.subrange(c3, e);
                    Some((f0, f1, f2, f3))
                }
            }
        }
    }
}

/// Wire form of a `DNSKEY` view, names written uncompressed.
pub open spec fn spec_encode_dnskey(v: (u16, u8, u8, Seq<u8>)) -> Seq<u8> {
    be16(v.0) + seq![v.1] + seq![v.2] + v.3
}

/// Views that survive an encode and decode unchanged.
pub open spec fn spec_valid_dnskey(v: (u16, u8, u8, Seq<u8>)) -> bool {
    true
}

/// Decode `DNSKEY` RDATA from `packet[start..end]`.
pub fn parse_dnskey_rdata(packet: &[u8], start: usize, end: usize) -> (r: Result<DNSKEY, ProtoError>)
    requires
        start <= end <= packet@.len(),
    ensures
        match spec_parse_dnskey(packet@, start as int, end as int) {
            Some(v) => r matches Ok(x) && x@ == v,
            None => r is Err,
        },
{
    if start > end || end - start < 2 { return Err(ProtoError::protocol("invalid DNSKEY rdata length")); }
    let f0 = read_u16_be(packet, start);
    let c1 = start + 2;
    if c1 > end || end - c1 < 1 { return Err(ProtoError::protocol("invalid DNSKEY rdata length")); }
    let f1 = packet[c1];
    let c2 = c1 + 1;
    if c2 > end || end - c2 < 1 { return Err(ProtoError::protocol("invalid DNSKEY rdata length")); }
    let f2 = packet[c2];
    let c3 = c2 + 1;
    if c3 > end { return Err(ProtoError::protocol("invalid DNSKEY rdata length")); }
    let f3 = copy_range(packet, c3, end);
    Ok(DNSKEY { flags: f0, protocol: f1, algorithm: f2, public_key: f3 })
}

/// Decode `DNSKEY` RDATA from `packet[start..end]` as an [`RData`] value.
pub fn parse_dnskey(packet: &[u8], start: usize, end: usize) -> (r: Result<RData, ProtoError>)
    requires
        start <= end <= packet@.len(),
    ensures
        match spec_parse_dnskey(packet@, start as int, end as int) {
            Some(v) => r matches Ok(RData::DNSKEY(x)) && x@ == v,
            None => r is Err,
        },
{
    match parse_dnskey_rdata(packet, start, end) {
        Ok(x) => Ok(RData::DNSKEY(x)),
        Err(e) => Err(e),
    }
}

/// Append the `DNSKEY` wire form.
pub fn encode_dnskey(value: &DNSKEY, out: &mut Vec<u8>)
    ensures
        final(out)@ == old(out)@ + spec_encode_dnskey(value@),
{
    let ghost o = old(out)@;
    push_u16(out, value.flags);
    out.push(value.protocol);
    out.push(value.algorithm);
    push_bytes(out, value.public_key.as_slice());
    proof {
        assert(out@ =~= o + spec_encode_dnskey(value@));
    }
}

/// Decoding the encoding of a valid `DNSKEY` view gives the view back.
pub proof fn lemma_dnskey_roundtrip(v: (u16, u8, u8, Seq<u8>))
    requires
        spec_valid_dnskey(v),
    ensures
        spec_parse_dnskey(spec_encode_dnskey(v), 0, spec_encode_dnskey(v).len() as int) == Some(v),
{
    let b = spec_encode_dnskey(v);
    let o0: int = 0;
    let o1: int = o0 + 2;
    assert(b.subrange(o0, o1) =~= be16(v.0));
    lemma_read_be16(b, o0, v.0);
    let o2: int = o1 + 1;
    assert(b.subrange(o1, o2) =~= seq![v.1]);
    assert(b[o1] == v.1);
    let o3: int = o2 + 1;
    assert(b.subrange(o2, o3) =~= seq![v.2]);
    assert(b[o2] == v.2);
    let o4: int = o3 + v.3.len();
    assert(b.subrange(o3, o4) =~= v.3);
    assert(b.len() == o4);
}

impl View for CDNSKEY {
    type V = (u16, u8, u8, Seq<u8>);

    open spec fn view(&self) -> (u16, u8, u8, Seq<u8>) {
        self.0@
    }
}

/// Decoded form of `CDNSKEY` RDATA: the `DNSKEY` layout.
pub open spec fn spec_parse_cdnskey(p: Seq<u8>, s: int, e: int) -> Option<(u16, u8, u8, Seq<u8>)> {
    spec_parse_dnskey(p, s, e)
}

/// Wire form of a `CDNSKEY` view.
pub open spec fn spec_encode_cdnskey(v: (u16, u8, u8, Seq<u8>)) -> Seq<u8> {
    spec_encode_dnskey(v)
}

/// Views that survive an encode and decode unchanged.
pub open spec fn spec_valid_cdnskey(v: (u16, u8, u8, Seq<u8>)) -> bool {
    spec_valid_dnskey(v)
}

/// Decode `CDNSKEY` RDATA from `packet[start..end]`.
pub fn parse_cdnskey_rdata(packet: &[u8], start: usize, end: usize) -> (r: Result<CDNSKEY, ProtoError>)
    requires
        start <= end <= packet@.len(),
    ensures
        match spec_parse_cdnskey(packet@, start as int, end as int) {
            Some(v) => r matches Ok(x) && x@ == v,
            None => r is Err,
        },
{
        match parse_dnskey_rdata(packet, start, end) {
            Ok(x) => Ok(CDNSKEY(x)),
            Err(e) => Err(e),
        }
}

/// Decode `CDNSKEY` RDATA from `packet[start..end]` as an [`RData`] value.
pub fn parse_cdnskey(packet: &[u8], start: usize, end: usize) -> (r: Result<RData, ProtoError>)
    requires
        start <= end <= packet@.len(),
    ensures
        match spec_parse_cdnskey(packet@, start as int, end as int) {
            Some(v) => r matches Ok(RData::CDNSKEY(x)) && x@ == v,
            None => r is Err,
        },
{
    match parse_cdnskey_rdata(packet, start, end) {
        Ok(x) => Ok(RData::CDNSKEY(x)),
        Err(e) => Err(e),
    }
}

/// Append the `CDNSKEY` wire form (the `DNSKEY` layout).
pub fn encode_cdnskey(value: &CDNSKEY, out: &mut Vec<u8>)
    ensures
        final(out)@ == old(out)@ + spec_encode_cdnskey(value@),
{
    encode_dnskey(&value.0, out)
}

/// Decoding the encoding of a valid `CDNSKEY` view gives the view back.
pub proof fn lemma_cdnskey_roundtrip(v: (u16, u8, u8, Seq<u8>))
    requires
        spec_valid_cdnskey(v),
    ensures
        spec_parse_cdnskey(spec_encode_cdnskey(v), 0, spec_encode_cdnskey(v).len() as int) == Some(v),
{
    lemma_dnskey_roundtrip(v);
}

impl View for KEY {
    type V = (u16, u8, u8, Seq<u8>);

    open spec fn view(&self) -> (u16, u8, u8, Seq<u8>) {
        self.0@
    }
}

/// Decoded form of `KEY` RDATA: the `DNSKEY` layout.
pub open spec fn spec_parse_key(p: Seq<u8>, s: int, e: int) -> Option<(u16, u8, u8, Seq<u8>)> {
    spec_parse_dnskey(p, s, e)
}

/// Wire form of a `KEY` view.
pub open spec fn spec_encode_key(v: (u16, u8, u8, Seq<u8>)) -> Seq<u8> {
    spec_encode_dnskey(v)
}

/// Views that survive an encode and decode unchanged.
pub open spec fn spec_valid_key(v: (u16, u8, u8, Seq<u8>)) -> bool {
    spec_valid_dnskey(v)
}

/// Decode `KEY` RDATA from `packet[start..end]`.
pub fn parse_key_rdata(packet: &[u8], start: usize, end: usize) -> (r: Result<KEY, ProtoError>)
    requires
        start <= end <= packet@.len(),
    ensures
        match spec_parse_key(packet@, start as int, end as int) {
            Some(v) => r matches Ok(x) && x@ == v,
            None => r is Err,
        },
{
        match parse_dnskey_rdata(packet, start, end) {
            Ok(x) => Ok(KEY(x)),
            Err(e) => Err(e),
        }
}

/// Decode `KEY` RDATA from `packet[start..end]` as an [`RData`] value.
pub fn parse_key(packet: &[u8], start: usize, end: usize) -> (r: Result<RData, ProtoError>)
    requires
        start <= end <= packet@.len(),
    ensures
        match spec_parse_key(packet@, start as int, end as int) {
            Some(v) => r matches Ok(RData::KEY(x)) && x@ == v,
            None => r is Err,
        },
{
    match parse_key_rdata(packet, start, end) {
        Ok(x) => Ok(RData::KEY(x)),
        Err(e) => Err(e),
    }
}

/// Append the `KEY` wire form (the `DNSKEY` layout).
pub fn encode_key(value: &KEY, out: &mut Vec<u8>)
    ensures
        final(out)@ == old(out)@ + spec_encode_key(value@),
{
    encode_dnskey(&value.0, out)
}

/// Decoding the encoding of a valid `KEY` view gives the view back.
pub proof fn lemma_key_roundtrip(v: (u16, u8, u8, Seq<u8>))
    requires
        spec_valid_key(v),
    ensures
        spec_parse_key(spec_encode_key(v), 0, spec_encode_key(v).len() as int) == Some(v),
{
    lemma_dnskey_roundtrip(v);
}

impl View for DHCID {
    type V = Seq<u8>;

    open spec fn view(&self) -> Seq<u8> {
        self.0@
    }
}

/// Decoded form of `DHCID` RDATA held in `p[s..e]`.
pub open spec fn spec_parse_dhcid(p: Seq<u8>, s: int, e: int) -> Option<Seq<u8>> {
    if s > e {
        None
    } else {
        let f0 = p.subrange(s, e);
        Some(f0)
    }
}

/// Wire form of a `DHCID` view, names written uncompressed.
pub open spec fn spec_encode_dhcid(v: Seq<u8>) -> Seq<u8> {
    v
}

/// Views that survive an encode and decode unchanged.
pub open spec fn spec_valid_dhcid(v: Seq<u8>) -> bool {
    true
}

/// Decode `DHCID` RDATA from `packet[start..end]`.
pub fn parse_dhcid_rdata(packet: &[u8], start: usize, end: usize) -> (r: Result<DHCID, ProtoError>)
    requires
        start <= end <= packet@.len(),
    ensures
        match spec_parse_dhcid(packet@, start as int, end as int) {
            Some(v) => r matches Ok(x) && x@ == v,
            None => r is Err,
        },
{
    if start > end { return Err(ProtoError::protocol("invalid DHCID rdata length")); }
    let f0 = copy_range(packet, start, end);
    Ok(DHCID(f0))
}

/// Decode `DHCID` RDATA from `packet[start..end]` as an [`RData`] value.
pub fn parse_dhcid(packet: &[u8], start: usize, end: usize) -> (r: Result<RData, ProtoError>)
    requires
        start <= end <= packet@.len(),
    ensures
        match spec_parse_dhcid(packet@, start as int, end as int) {
            Some(v) => r matches Ok(RData::DHCID(x)) && x@ == v,
            None => r is Err,
        },
{
    match parse_dhcid_rdata(packet, start, end) {
        Ok(x) => Ok(RData::DHCID(x)),
        Err(e) => Err(e),
    }
}

/// Append the `DHCID` wire form.
pub fn encode_dhcid(value: &DHCID, out: &mut Vec<u8>)
    ensures
        final(out)@ == old(out)@ + spec_encode_dhcid(value@),
{
    let ghost o = old(out)@;
    push_bytes(out, value.0.as_slice());
    proof {
        assert(out@ =~= o + spec_encode_dhcid(value@));
    }
}

/// Decoding the encoding of a valid `DHCID` view gives the view back.
pub proof fn lemma_dhcid_roundtrip(v: Seq<u8>)
    requires
        spec_valid_dhcid(v),
    ensures
        spec_parse_dhcid(spec_encode_dhcid(v), 0, spec_encode_dhcid(v).len() as int) == Some(v),
{
    let b = spec_encode_dhcid(v);
    let o0: int = 0;
    let o1: int = o0 + v.len();
    assert(b.subrange(o0, o1) =~= v);
    assert(b.len() == o1);
}

impl View for OPENPGPKEY {
    type V = Seq<u8>;

    open spec fn view(&self) -> Seq<u8> {
        self.0@
    }
}

/// Decoded form of `OPENPGPKEY` RDATA held in `p[s..e]`.
pub open spec fn spec_parse_openpgpkey(p: Seq<u8>, s: int, e: int) -> Option<Seq<u8>> {
    if s > e {
        None
    } else {
        let f0 = p.subrange(s, e);
        Some(f0)
    }
}

/// Wire form of a `OPENPGPKEY` view, names written uncompressed.
pub open spec fn spec_encode_openpgpkey(v: Seq<u8>) -> Seq<u8> {
    v
}

/// Views that survive an encode and decode unchanged.
pub open spec fn spec_valid_openpgpkey(v: Seq<u8>) -> bool {
    true
}

/// Decode `OPENPGPKEY` RDATA from `packet[start..end]`.
pub fn parse_openpgpkey_rdata(packet: &[u8], start: usize, end: usize) -> (r: Result<OPENPGPKEY, ProtoError>)
    requires
        start <= end <= packet@.len(),
    ensures
        match spec_parse_openpgpkey(packet@, start as int, end as int) {
            Some(v) => r matches Ok(x) && x@ == v,
            None => r is Err,
        },
{
    if start > end { return Err(ProtoError::protocol("invalid OPENPGPKEY rdata length")); }
    let f0 = copy_range(packet, start, end);
    Ok(OPENPGPKEY(f0))
}

/// Decode `OPENPGPKEY` RDATA from `packet[start..end]` as an [`RData`] value.
pub fn parse_openpgpkey(packet: &[u8], start: usize, end: usize) -> (r: Result<RData, ProtoError>)
    requires
        start <= end <= packet@.len(),
    ensures
        match spec_parse_openpgpkey(packet@, start as int, end as int) {
            Some(v) => r matches Ok(RData::OPENPGPKEY(x)) && x@ == v,
            None => r is Err,
        },
{
    match parse_openpgpkey_rdata(packet, start, end) {
        Ok(x) => Ok(RData::OPENPGPKEY(x)),
        Err(e) => Err(e),
    }
}

/// Append the `OPENPGPKEY` wire form.
pub fn encode_openpgpkey(value: &OPENPGPKEY, out: &mut Vec<u8>)
    ensures
        final(out)@ == old(out)@ + spec_encode_openpgpkey(value@),
{
    let ghost o = old(out)@;
    push_bytes(out, value.0.as_slice());
    proof {
        assert(out@ =~= o + spec_encode_openpgpkey(value@));
    }
}

/// Decoding the encoding of a valid `OPENPGPKEY` view gives the view back.
pub proof fn lemma_openpgpkey_roundtrip(v: Seq<u8>)
    requires
        spec_valid_openpgpkey(v),
    ensures
        spec_parse_openpgpkey(spec_encode_openpgpkey(v), 0, spec_encode_openpgpkey(v).len() as int) == Some(v),
{
    let b = spec_encode_openpgpkey(v);
    let o0: int = 0;
    let o1: int = o0 + v.len();
    assert(b.subrange(o0, o1) =~= v);
    assert(b.len() == o1);
}

impl View for NINFO {
    type V = Seq<u8>;

    open spec fn view(&self) -> Seq<u8> {
        self.0@
    }
}

/// Decoded form of `NINFO` RDATA held in `p[s..e]`.
pub open spec fn spec_parse_ninfo(p: Seq<u8>, s: int, e: int) -> Option<Seq<u8>> {
    if s > e {
        None
    } else {
        let f0 = p.subrange(s, e);
        Some(f0)
    }
}

/// Wire form of a `NINFO` view, names written uncompressed.
pub open spec fn spec_encode_ninfo(v: Seq<u8>) -> Seq<u8> {
    v
}

/// Views that survive an encode and decode unchanged.
pub open spec fn spec_valid_ninfo(v: Seq<u8>) -> bool {
    true
}

/// Decode `NINFO` RDATA from `packet[start..end]`.
pub fn parse_ninfo_rdata(packet: &[u8], start: usize, end: usize) -> (r: Result<NINFO, ProtoError>)
    requires
        start <= end <= packet@.len(),
    ensures
        match spec_parse_ninfo(packet@, start as int, end as int) {
            Some(v) => r matches Ok(x) && x@ == v,
            None => r is Err,
        },
{
    if start > end { return Err(ProtoError::protocol("invalid NINFO rdata length")); }
    let f0 = copy_range(packet, start, end);
    Ok(NINFO(f0))
}

/// Decode `NINFO` RDATA from `packet[start..end]` as an [`RData`] value.
pub fn parse_ninfo(packet: &[u8], start: usize, end: usize) -> (r: Result<RData, ProtoError>)
    requires
        start <= end <= packet@.len(),
    ensures
        match spec_parse_ninfo(packet@, start as int, end as int) {
            Some(v) => r matches Ok(RData::NINFO(x)) && x@ == v,
            None => r is Err,
        },
{
    match parse_ninfo_rdata(packet, start, end) {
        Ok(x) => Ok(RData::NINFO(x)),
        Err(e) => Err(e),
    }
}

/// Append the `NINFO` wire form.
pub fn encode_ninfo(value: &NINFO, out: &mut Vec<u8>)
    ensures
        final(out)@ == old(out)@ + spec_encode_ninfo(value@),
{
    let ghost o = old(out)@;
    push_bytes(out, value.0.as_slice());
    proof {
        assert(out@ =~= o + spec_encode_ninfo(value@));
    }
}

/// Decoding the encoding of a valid `NINFO` view gives the view back.
pub proof fn lemma_ninfo_roundtrip(v: Seq<u8>)
    requires
        spec_valid_ninfo(v),
    ensures
        spec_parse_ninfo(spec_encode_ninfo(v), 0, spec_encode_ninfo(v).len() as int) == Some(v),
{
    let b = spec_encode_ninfo(v);
    let o0: int = 0;
    let o1: int = o0 + v.len();
    assert(b.subrange(o0, o1) =~= v);
    assert(b.len() == o1);
}

impl View for RKEY {
    type V = Seq<u8>;

    open spec fn view(&self) -> Seq<u8> {
        self.0@
    }
}

/// Decoded form of `RKEY` RDATA held in `p[s..e]`.
pub open spec fn spec_parse_rkey(p: Seq<u8>, s: int, e: int) -> Option<Seq<u8>> {
    if s > e {
        None
    } else {
        let f0 = p.subrange(s, e);
        Some(f0)
    }
}

/// Wire form of a `RKEY` view, names written uncompressed.
pub open spec fn spec_encode_rkey(v: Seq<u8>) -> Seq<u8> {
    v
}

/// Views that survive an encode and decode unchanged.
pub open spec fn spec_valid_rkey(v: Seq<u8>) -> bool {
    true
}

/// Decode `RKEY` RDATA from `packet[start..end]`.
pub fn parse_rkey_rdata(packet: &[u8], start: usize, end: usize) -> (r: Result<RKEY, ProtoError>)
    requires
        start <= end <= packet@.len(),
    ensures
        match spec_parse_rkey(packet@, start as int, end as int) {
            Some(v) => r matches Ok(x) && x@ == v,
            None => r is Err,
        },
{
    if start > end { return Err(ProtoError::protocol("invalid RKEY rdata length")); }
    let f0 = copy_range(packet, start, end);
    Ok(RKEY(f0))
}

/// Decode `RKEY` RDATA from `packet[start..end]` as an [`RData`] value.
pub fn parse_rkey(packet: &[u8], start: usize, end: usize) -> (r: Result<RData, ProtoError>)
    requires
        start <= end <= packet@.len(),
    ensures
        match spec_parse_rkey(packet@, start as int, end as int) {
            Some(v) => r matches Ok(RData::RKEY(x)) && x@ == v,
            None => r is Err,
        },
{
    match parse_rkey_rdata(packet, start, end) {
        Ok(x) => Ok(RData::RKEY(x)),
        Err(e) => Err(e),
    }
}

/// Append the `RKEY` wire form.
pub fn encode_rkey(value: &RKEY, out: &mut Vec<u8>)
    ensures
        final(out)@ == old(out)@ + spec_encode_rkey(value@),
{
    let ghost o = old(out)@;
    push_bytes(out, value.0.as_slice());
    proof {
        assert(out@ =~= o + spec_encode_rkey(value@));
    }
}

/// Decoding the encoding of a valid `RKEY` view gives the view back.
pub proof fn lemma_rkey_roundtrip(v: Seq<u8>)
    requires
        spec_valid_rkey(v),
    ensures
        spec_parse_rkey(spec_encode_rkey(v), 0, spec_encode_rkey(v).len() as int) == Some(v),
{
    let b = spec_encode_rkey(v);
    let o0: int = 0;
    let o1: int = o0 + v.len();
    assert(b.subrange(o0, o1) =~= v);
    assert(b.len() == o1);
}

impl View for TLSA {
    type V = (u8, u8, u8, Seq<u8>);

    open spec fn view(&self) -> (u8, u8, u8, Seq<u8>) {
        (self.usage, self.selector, self.matching_type, self.certificate@)
    }
}

/// Decoded form of `TLSA` RDATA held in `p[s..e]`.
pub open spec fn spec_parse_tlsa(p: Seq<u8>, s: int, e: int) -> Option<(u8, u8, u8, Seq<u8>)> {
    if s + 1 > e {
        None
    } else {
        let f0 = p[s];
        let c1 = s + 1;
        if c1 + 1 > e {
            None
        } else {
            let f1 = p[c1];
            let c2 = c1 + 1;
            if c2 + 1 > e {
                None
            } else {
                let f2 = p[c2];
                let c3 = c2 + 1;
                if c3 > e {
                    None
                } else {
                    let f3 = p.subrange(c3, e);
                    Some((f0, f1, f2, f3))
                }
            }
        }
    }
}

/// Wire form of a `TLSA` view, names written uncompressed.
pub open spec fn spec_encode_tlsa(v: (u8, u8, u8, Seq<u8>)) -> Seq<u8> {
    seq![v.0] + seq![v.1] + seq![v.2] + v.3
}

/// Views that survive an encode and decode unchanged.
pub open spec fn spec_valid_tlsa(v: (u8, u8, u8, Seq<u8>)) -> bool {
    true
}

/// Decode `TLSA` RDATA from `packet[start..end]`.
pub fn parse_tlsa_rdata(packet: &[u8], start: usize, end: usize) -> (r: Result<TLSA, ProtoError>)
    requires
        start <= end <= packet@.len(),
    ensures
        match spec_parse_tlsa(packet@, start as int, end as int) {
            Some(v) => r matches Ok(x) && x@ == v,
            None => r is Err,
        },
{
    if start > end || end - start < 1 { return Err(ProtoError::protocol("invalid TLSA rdata length")); }
    let f0 = packet[start];
    let c1 = start + 1;
    if c1 > end || end - c1 < 1 { return Err(ProtoError::protocol("invalid TLSA rdata length")); }
    let f1 = packet[c1];
    let c2 = c1 + 1;
    if c2 > end || end - c2 < 1 { return Err(ProtoError::protocol("invalid TLSA rdata length")); }
    let f2 = packet[c2];
    let c3 = c2 + 1;
    if c3 > end { return Err(ProtoError::protocol("invalid TLSA rdata length")); }
    let f3 = copy_range(packet, c3, end);
    Ok(TLSA { usage: f0, selector: f1, matching_type: f2, certificate: f3 })
}

/// Decode `TLSA` RDATA from `packet[start..end]` as an [`RData`] value.
pub fn parse_tlsa(packet: &[u8], start: usize, end: usize) -> (r: Result<RData, ProtoError>)
    requires
        start <= end <= packet@.len(),
    ensures
        match spec_parse_tlsa(packet@, start as int, end as int) {
            Some(v) => r matches Ok(RData::TLSA(x)) && x@ == v,
            None => r is Err,
        },
{
    match parse_tlsa_rdata(packet, start, end) {
        Ok(x) => Ok(RData::TLSA(x)),
        Err(e) => Err(e),
    }
}

/// Append the `TLSA` wire form.
pub fn encode_tlsa(value: &TLSA, out: &mut Vec<u8>)
    ensures
        final(out)@ == old(out)@ + spec_encode_tlsa(value@),
{
    let ghost o = old(out)@;
    out.push(value.usage);
    out.push(value.selector);
    out.push(value.matching_type);
    push_bytes(out, value.certificate.as_slice());
    proof {
        assert(out@ =~= o + spec_encode_tlsa(value@));
    }
}

/// Decoding the encoding of a valid `TLSA` view gives the view back.
pub proof fn lemma_tlsa_roundtrip(v: (u8, u8, u8, Seq<u8>))
    requires
        spec_valid_tlsa(v),
    ensures
        spec_parse_tlsa(spec_encode_tlsa(v), 0, spec_encode_tlsa(v).len() as int) == Some(v),
{
    let b = spec_encode_tlsa(v);
    let o0: int = 0;
    let o1: int = o0 + 1;
    assert(b.subrange(o0, o1) =~= seq![v.0]);
    assert(b[o0] == v.0);
    let o2: int = o1 + 1;
    assert(b.subrange(o1, o2) =~= seq![v.1]);
    assert(b[o1] == v.1);
    let o3: int = o2 + 1;
    assert(b.subrange(o2, o3) =~= seq![v.2]);
    assert(b[o2] == v.2);
    let o4: int = o3 + v.3.len();
    assert(b.subrange(o3, o4) =~= v.3);
    assert(b.len() == o4);
}

impl View for SMIMEA {
    type V = (u8, u8, u8, Seq<u8>);

    open spec fn view(&self) -> (u8, u8, u8, Seq<u8>) {
        self.0@
    }
}

/// Decoded form of `SMIMEA` RDATA: the `TLSA` layout.
pub open spec fn spec_parse_smimea(p: Seq<u8>, s: int, e: int) -> Option<(u8, u8, u8, Seq<u8>)> {
    spec_parse_tlsa(p, s, e)
}

/// Wire form of a `SMIMEA` view.
pub open spec fn spec_encode_smimea(v: (u8, u8, u8, Seq<u8>)) -> Seq<u8> {
    spec_encode_tlsa(v)
}

/// Views that survive an encode and decode unchanged.
pub open spec fn spec_valid_smimea(v: (u8, u8, u8, Seq<u8>)) -> bool {
    spec_valid_tlsa(v)
}

/// Decode `SMIMEA` RDATA from `packet[start..end]`.
pub fn parse_smimea_rdata(packet: &[u8], start: usize, end: usize) -> (r: Result<SMIMEA, ProtoError>)
    requires
        start <= end <= packet@.len(),
    ensures
        match spec_parse_smimea(packet@, start as int, end as int) {
            Some(v) => r matches Ok(x) && x@ == v,
            None => r is Err,
        },
{
        match parse_tlsa_rdata(packet, start, end) {
            Ok(x) => Ok(SMIMEA(x)),
            Err(e) => Err(e),
        }
}

/// Decode `SMIMEA` RDATA from `packet[start..end]` as an [`RData`] value.
pub fn parse_smimea(packet: &[u8], start: usize, end: usize) -> (r: Result<RData, ProtoError>)
    requires
        start <= end <= packet@.len(),
    ensures
        match spec_parse_smimea(packet@, start as int, end as int) {
            Some(v) => r matches Ok(RData::SMIMEA(x)) && x@ == v,
            None => r is Err,
        },
{
    match parse_smimea_rdata(packet, start, end) {
        Ok(x) => Ok(RData::SMIMEA(x)),
        Err(e) => Err(e),
    }
}

/// Append the `SMIMEA` wire form (the `TLSA` layout).
pub fn encode_smimea(value: &SMIMEA, out: &mut Vec<u8>)
    ensures
        final(out)@ == old(out)@ + spec_encode_smimea(value@),
{
    encode_tlsa(&value.0, out)
}

/// Decoding the encoding of a valid `SMIMEA` view gives the view back.
pub proof fn lemma_smimea_roundtrip(v: (u8, u8, u8, Seq<u8>))
    requires
        spec_valid_smimea(v),
    ensures
        spec_parse_smimea(spec_encode_smimea(v), 0, spec_encode_smimea(v).len() as int) == Some(v),
{
    lemma_tlsa_roundtrip(v);
}

impl View for CSYNC {
    type V = (u32, u16, (Seq<u8>, Seq<RecordType>));

    open spec fn view(&self) -> (u32, u16, (Seq<u8>, Seq<RecordType>)) {
        (self.serial, self.flags, (self.type_bitmap.wire@, self.type_bitmap.types@))
    }
}

/// Decoded form of `CSYNC` RDATA held in `p[s..e]`.
pub open spec fn spec_parse_csync(p: Seq<u8>, s: int, e: int) -> Option<(u32, u16, (Seq<u8>, Seq<RecordType>))> {
    if s + 4 > e {
        None
    } else {
        let f0 = spec_u32_at(p, s);
        let c1 = s + 4;
        if c1 + 2 > e {
            None
        } else {
            let f1 = spec_u16_at(p, c1);
            let c2 = c1 + 2;
            if c2 > e {
                None
            } else {
                match spec_decode_bitmaps(p.subrange(c2, e), -1) {
                    None => None,
                    Some(t) => {
                        let f2 = (p.subrange(c2, e), t);
                        Some((f0, f1, f2))
                    },
                }
            }
        }
    }
}

/// Wire form of a `CSYNC` view, names written uncompressed.
pub open spec fn spec_encode_csync(v: (u32, u16, (Seq<u8>, Seq<RecordType>))) -> Seq<u8> {
    be32(v.0) + be16(v.1) + v.2.0
}

/// Views that survive an encode and decode unchanged.
pub open spec fn spec_valid_csync(v: (u32, u16, (Seq<u8>, Seq<RecordType>))) -> bool {
    spec_decode_bitmaps(v.2.0, -1) == Some(v.2.1)
}

/// Decode `CSYNC` RDATA from `packet[start..end]`.
pub fn parse_csync_rdata(packet: &[u8], start: usize, end: usize) -> (r: Result<CSYNC, ProtoError>)
    requires
        start <= end <= packet@.len(),
    ensures
        match spec_parse_csync(packet@, start as int, end as int) {
            Some(v) => r matches Ok(x) && x@ == v,
            None => r is Err,
        },
{
    if start > end || end - start < 4 { return Err(ProtoError::protocol("invalid CSYNC rdata length")); }
    let f0 = read_u32_be(packet, start);
    let c1 = start + 4;
    if c1 > end || end - c1 < 2 { return Err(ProtoError::protocol("invalid CSYNC rdata length")); }
    let f1 = read_u16_be(packet, c1);
    let c2 = c1 + 2;
    if c2 > end { return Err(ProtoError::protocol("invalid CSYNC rdata length")); }
    let f2 = match TypeBitMaps::try_from_wire(copy_range(packet, c2, end)) { Ok(b) => b, Err(e) => return Err(e) };
    Ok(CSYNC { serial: f0, flags: f1, type_bitmap: f2 })
}

/// Decode `CSYNC` RDATA from `packet[start..end]` as an [`RData`] value.
pub fn parse_csync(packet: &[u8], start: usize, end: usize) -> (r: Result<RData, ProtoError>)
    requires
        start <= end <= packet@.len(),
    ensures
        match spec_parse_csync(packet@, start as int, end as int) {
            Some(v) => r matches Ok(RData::CSYNC(x)) && x@ == v,
            None => r is Err,
        },
{
    match parse_csync_rdata(packet, start, end) {
        Ok(x) => Ok(RData::CSYNC(x)),
        Err(e) => Err(e),
    }
}

/// Append the `CSYNC` wire form.
pub fn encode_csync(value: &CSYNC, out: &mut Vec<u8>)
    ensures
        final(out)@ == old(out)@ + spec_encode_csync(value@),
{
    let ghost o = old(out)@;
    push_u32(out, value.serial);
    push_u16(out, value.flags);
    push_bytes(out, value.type_bitmap.wire_data());
    proof {
        assert(out@ =~= o + spec_encode_csync(value@));
    }
}

/// Decoding the encoding of a valid `CSYNC` view gives the view back.
pub proof fn lemma_csync_roundtrip(v: (u32, u16, (Seq<u8>, Seq<RecordType>)))
    requires
        spec_valid_csync(v),
    ensures
        spec_parse_csync(spec_encode_csync(v), 0, spec_encode_csync(v).len() as int) == Some(v),
{
    let b = spec_encode_csync(v);
    let o0: int = 0;
    let o1: int = o0 + 4;
    assert(b.subrange(o0, o1) =~= be32(v.0));
    lemma_read_be32(b, o0, v.0);
    let o2: int = o1 + 2;
    assert(b.subrange(o1, o2) =~= be16(v.1));
    lemma_read_be16(b, o1, v.1);
    let o3: int = o2 + v.2.0.len();
    assert(b.subrange(o2, o3) =~= v.2.0);
    assert(b.len() == o3);
}

impl View for ZONEMD {
    type V = (u32, u8, u8, Seq<u8>);

    open spec fn view(&self) -> (u32, u8, u8, Seq<u8>) {
        (self.serial, self.scheme, self.hash, self.digest@)
    }
}

/// Decoded form of `ZONEMD` RDATA held in `p[s..e]`.
pub open spec fn spec_parse_zonemd(p: Seq<u8>, s: int, e: int) -> Option<(u32, u8, u8, Seq<u8>)> {
    if s + 4 > e {
        None
    } else {
        let f0 = spec_u32_at(p, s);
        let c1 = s + 4;
        if c1 + 1 > e {
            None
        } else {
            let f1 = p[c1];
            let c2 = c1 + 1;
            if c2 + 1 > e {
                None
            } else {
                let f2 = p[c2];
                let c3 = c2 + 1;
                if c3 > e {
                    None
                } else {
                    let f3 = p.subrange(c3, e);
                    Some((f0, f1, f2, f3))
                }
            }
        }
    }
}

/// Wire form of a `ZONEMD` view, names written uncompressed.
pub open spec fn spec_encode_zonemd(v: (u32, u8, u8, Seq<u8>)) -> Seq<u8> {
    be32(v.0) + seq![v.1] + seq![v.2] + v.3
}

/// Views that survive an encode and decode unchanged.
pub open spec fn spec_valid_zonemd(v: (u32, u8, u8, Seq<u8>)) -> bool {
    true
}

/// Decode `ZONEMD` RDATA from `packet[start..end]`.
pub fn parse_zonemd_rdata(packet: &[u8], start: usize, end: usize) -> (r: Result<ZONEMD, ProtoError>)
    requires
        start <= end <= packet@.len(),
    ensures
        match spec_parse_zonemd(packet@, start as int, end as int) {
            Some(v) => r matches Ok(x) && x@ == v,
            None => r is Err,
        },
{
    if start > end || end - start < 4 { return Err(ProtoError::protocol("invalid ZONEMD rdata length")); }
    let f0 = read_u32_be(packet, start);
    let c1 = start + 4;
    if c1 > end || end - c1 < 1 { return Err(ProtoError::protocol("invalid ZONEMD rdata length")); }
    let f1 = packet[c1];
    let c2 = c1 + 1;
    if c2 > end || end - c2 < 1 { return Err(ProtoError::protocol("invalid ZONEMD rdata length")); }
    let f2 = packet[c2];
    let c3 = c2 + 1;
    if c3 > end { return Err(ProtoError::protocol("invalid ZONEMD rdata length")); }
    let f3 = copy_range(packet, c3, end);
    Ok(ZONEMD { serial: f0, scheme: f1, hash: f2, digest: f3 })
}

/// Decode `ZONEMD` RDATA from `packet[start..end]` as an [`RData`] value.
pub fn parse_zonemd(packet: &[u8], start: usize, end: usize) -> (r: Result<RData, ProtoError>)
    requires
        start <= end <= packet@.len(),
    ensures
        match spec_parse_zonemd(packet@, start as int, end as int) {
            Some(v) => r matches Ok(RData::ZONEMD(x)) && x@ == v,
            None => r is Err,
        },
{
    match parse_zonemd_rdata(packet, start, end) {
        Ok(x) => Ok(RData::ZONEMD(x)),
        Err(e) => Err(e),
    }
}

/// Append the `ZONEMD` wire form.
pub fn encode_zonemd(value: &ZONEMD, out: &mut Vec<u8>)
    ensures
        final(out)@ == old(out)@ + spec_encode_zonemd(value@),
{
    let ghost o = old(out)@;
    push_u32(out, value.serial);
    out.push(value.scheme);
    out.push(value.hash);
    push_bytes(out, value.digest.as_slice());
    proof {
        assert(out@ =~= o + spec_encode_zonemd(value@));
    }
}

/// Decoding the encoding of a valid `ZONEMD` view gives the view back.
pub proof fn lemma_zonemd_roundtrip(v: (u32, u8, u8, Seq<u8>))
    requires
        spec_valid_zonemd(v),
    ensures
        spec_parse_zonemd(spec_encode_zonemd(v), 0, spec_encode_zonemd(v).len() as int) == Some(v),
{
    let b = spec_encode_zonemd(v);
    let o0: int = 0;
    let o1: int = o0 + 4;
    assert(b.subrange(o0, o1) =~= be32(v.0));
    lemma_read_be32(b, o0, v.0);
    let o2: int = o1 + 1;
    assert(b.subrange(o1, o2) =~= seq![v.1]);
    assert(b[o1] == v.1);
    let o3: int = o2 + 1;
    assert(b.subrange(o2, o3) =~= seq![v.2]);
    assert(b[o2] == v.2);
    let o4: int = o3 + v.3.len();
    assert(b.subrange(o3, o4) =~= v.3);
    assert(b.len() == o4);
}

impl View for CERT {
    type V = (u16, u16, u8, Seq<u8>);

    open spec fn view(&self) -> (u16, u16, u8, Seq<u8>) {
        (self.cert_type, self.key_tag, self.algorithm, self.certificate@)
    }
}

/// Decoded form of `CERT` RDATA held in `p[s..e]`.
pub open spec fn spec_parse_cert(p: Seq<u8>, s: int, e: int) -> Option<(u16, u16, u8, Seq<u8>)> {
    if s + 2 > e {
        None
    } else {
        let f0 = spec_u16_at(p, s);
        let c1 = s + 2;
        if c1 + 2 > e {
            None
        } else {
            let f1 = spec_u16_at(p, c1);
            let c2 = c1 + 2;
            if c2 + 1 > e {
                None
            } else {
                let f2 = p[c2];
                let c3 = c2 + 1;
                if c3 > e {
                    None
                } else {
                    let f3 = p.subrange(c3, e);
                    Some((f0, f1, f2, f3))
                }
            }
        }
    }
}

/// Wire form of a `CERT` view, names written uncompressed.
pub open spec fn spec_encode_cert(v: (u16, u16, u8, Seq<u8>)) -> Seq<u8> {
    be16(v.0) + be16(v.1) + seq![v.2] + v.3
}

/// Views that survive an encode and decode unchanged.
pub open spec fn spec_valid_cert(v: (u16, u16, u8, Seq<u8>)) -> bool {
    true
}

/// Decode `CERT` RDATA from `packet[start..end]`.
pub fn parse_cert_rdata(packet: &[u8], start: usize, end: usize) -> (r: Result<CERT, ProtoError>)
    requires
        start <= end <= packet@.len(),
    ensures
        match spec_parse_cert(packet@, start as int, end as int) {
            Some(v) => r matches Ok(x) && x@ == v,
            None => r is Err,
        },
{
    if start > end || end - start < 2 { return Err(ProtoError::protocol("invalid CERT rdata length")); }
    let f0 = read_u16_be(packet, start);
    let c1 = start + 2;
    if c1 > end || end - c1 < 2 { return Err(ProtoError::protocol("invalid CERT rdata length")); }
    let f1 = read_u16_be(packet, c1);
    let c2 = c1 + 2;
    if c2 > end || end - c2 < 1 { return Err(ProtoError::protocol("invalid CERT rdata length")); }
    let f2 = packet[c2];
    let c3 = c2 + 1;
    if c3 > end { return Err(ProtoError::protocol("invalid CERT rdata length")); }
    let f3 = copy_range(packet, c3, end);
    Ok(CERT { cert_type: f0, key_tag: f1, algorithm: f2, certificate: f3 })
}

/// Decode `CERT` RDATA from `packet[start..end]` as an [`RData`] value.
pub fn parse_cert(packet: &[u8], start: usize, end: usize) -> (r: Result<RData, ProtoError>)
    requires
        start <= end <= packet@.len(),
    ensures
        match spec_parse_cert(packet@, start as int, end as int) {
            Some(v) => r matches Ok(RData::CERT(x)) && x@ == v,
            None => r is Err,
        },
{
    match parse_cert_rdata(packet, start, end) {
        Ok(x) => Ok(RData::CERT(x)),
        Err(e) => Err(e),
    }
}

/// Append the `CERT` wire form.
pub fn encode_cert(value: &CERT, out: &mut Vec<u8>)
    ensures
        final(out)@ == old(out)@ + spec_encode_cert(value@),
{
    let ghost o = old(out)@;
    push_u16(out, value.cert_type);
    push_u16(out, value.key_tag);
    out.push(value.algorithm);
    push_bytes(out, value.certificate.as_slice());
    proof {
        assert(out@ =~= o + spec_encode_cert(value@));
    }
}

/// Decoding the encoding of a valid `CERT` view gives the view back.
pub proof fn lemma_cert_roundtrip(v: (u16, u16, u8, Seq<u8>))
    requires
        spec_valid_cert(v),
    ensures
        spec_parse_cert(spec_encode_cert(v), 0, spec_encode_cert(v).len() as int) == Some(v),
{
    let b = spec_encode_cert(v);
    let o0: int = 0;
    let o1: int = o0 + 2;
    assert(b.subrange(o0, o1) =~= be16(v.0));
    lemma_read_be16(b, o0, v.0);
    let o2: int = o1 + 2;
    assert(b.subrange(o1, o2) =~= be16(v.1));
    lemma_read_be16(b, o1, v.1);
    let o3: int = o2 + 1;
    assert(b.subrange(o2, o3) =~= seq![v.2]);
    assert(b[o2] == v.2);
    let o4: int = o3 + v.3.len();
    assert(b.subrange(o3, o4) =~= v.3);
    assert(b.len() == o4);
}

impl View for RRSIG {
    type V = (u16, u8, u8, u32, u32, u32, u16, Seq<u8>, Seq<u8>);

    open spec fn view(&self) -> (u16, u8, u8, u32, u32, u32, u16, Seq<u8>, Seq<u8>) {
        (self.type_covered, self.algorithm, self.labels, self.orig_ttl, self.expiration, self.inception, self.key_tag, self.signer_name@, self.signature@)
    }
}

/// Decoded form of `RRSIG` RDATA held in `p[s..e]`.
pub open spec fn spec_parse_rrsig(p: Seq<u8>, s: int, e: int) -> Option<(u16, u8, u8, u32, u32, u32, u16, Seq<u8>, Seq<u8>)> {
    if s + 2 > e {
        None
    } else {
        let f0 = spec_u16_at(p, s);
        let c1 = s + 2;
        if c1 + 1 > e {
            None
        } else {
            let f1 = p[c1];
            let c2 = c1 + 1;
            if c2 + 1 > e {
                None
            } else {
                let f2 = p[c2];
                let c3 = c2 + 1;
                if c3 + 4 > e {
                    None
                } else {
                    let f3 = spec_u32_at(p, c3);
                    let c4 = c3 + 4;
                    if c4 + 4 > e {
                        None
                    } else {
                        let f4 = spec_u32_at(p, c4);
                        let c5 = c4 + 4;
                        if c5 + 4 > e {
                            None
                        } else {
                            let f5 = spec_u32_at(p, c5);
                            let c6 = c5 + 4;
                            if c6 + 2 > e {
                                None
                            } else {
                                let f6 = spec_u16_at(p, c6);
                                let c7 = c6 + 2;
                                match spec_parse_name(p, c7) {
                                    None => None,
                                    Some((f7, c8)) => {
                                        if c8 > e {
                                            None
                                        } else {
                                            let f8 = p.subrange(c8, e);
                                            Some((f0, f1, f2, f3, f4, f5, f6, f7, f8))
                                        }
                                    },
                                }
                            }
                        }
                    }
                }
            }
        }
    }
}

/// Wire form of a `RRSIG` view, names written uncompressed.
pub open spec fn spec_encode_rrsig(v: (u16, u8, u8, u32, u32, u32, u16, Seq<u8>, Seq<u8>)) -> Seq<u8> {
    be16(v.0) + seq![v.1] + seq![v.2] + be32(v.3) + be32(v.4) + be32(v.5) + be16(v.6) + v.7 + v.8
}

/// Views that survive an encode and decode unchanged.
pub open spec fn spec_valid_rrsig(v: (u16, u8, u8, u32, u32, u32, u16, Seq<u8>, Seq<u8>)) -> bool {
    name_wire_ok(v.7)
}

/// Decode `RRSIG` RDATA from `packet[start..end]`.
pub fn parse_rrsig_rdata(packet: &[u8], start: usize, end: usize) -> (r: Result<RRSIG, ProtoError>)
    requires
        start <= end <= packet@.len(),
    ensures
        match spec_parse_rrsig(packet@, start as int, end as int) {
            Some(v) => r matches Ok(x) && x@ == v,
            None => r is Err,
        },
{
    if start > end || end - start < 2 { return Err(ProtoError::protocol("invalid RRSIG rdata length")); }
    let f0 = read_u16_be(packet, start);
    let c1 = start + 2;
    if c1 > end || end - c1 < 1 { return Err(ProtoError::protocol("invalid RRSIG rdata length")); }
    let f1 = packet[c1];
    let c2 = c1 + 1;
    if c2 > end || end - c2 < 1 { return Err(ProtoError::protocol("invalid RRSIG rdata length")); }
    let f2 = packet[c2];
    let c3 = c2 + 1;
    if c3 > end || end - c3 < 4 { return Err(ProtoError::protocol("invalid RRSIG rdata length")); }
    let f3 = read_u32_be(packet, c3);
    let c4 = c3 + 4;
    if c4 > end || end - c4 < 4 { return Err(ProtoError::protocol("invalid RRSIG rdata length")); }
    let f4 = read_u32_be(packet, c4);
    let c5 = c4 + 4;
    if c5 > end || end - c5 < 4 { return Err(ProtoError::protocol("invalid RRSIG rdata length")); }
    let f5 = read_u32_be(packet, c5);
    let c6 = c5 + 4;
    if c6 > end || end - c6 < 2 { return Err(ProtoError::protocol("invalid RRSIG rdata length")); }
    let f6 = read_u16_be(packet, c6);
    let c7 = c6 + 2;
    let (f7, c8) = match Name::parse(packet, c7) { Ok(x) => x, Err(e) => return Err(e) };
    if c8 > end { return Err(ProtoError::protocol("invalid RRSIG rdata length")); }
    let f8 = copy_range(packet, c8, end);
    Ok(RRSIG { type_covered: f0, algorithm: f1, labels: f2, orig_ttl: f3, expiration: f4, inception: f5, key_tag: f6, signer_name: f7, signature: f8 })
}

/// Decode `RRSIG` RDATA from `packet[start..end]` as an [`RData`] value.
pub fn parse_rrsig(packet: &[u8], start: usize, end: usize) -> (r: Result<RData, ProtoError>)
    requires
        start <= end <= packet@.len(),
    ensures
        match spec_parse_rrsig(packet@, start as int, end as int) {
            Some(v) => r matches Ok(RData::RRSIG(x)) && x@ == v,
            None => r is Err,
        },
{
    match parse_rrsig_rdata(packet, start, end) {
        Ok(x) => Ok(RData::RRSIG(x)),
        Err(e) => Err(e),
    }
}

/// Append the `RRSIG` wire form, names uncompressed.
pub fn encode_rrsig(value: &RRSIG, out: &mut Vec<u8>) -> (r: Result<(), ProtoError>)
    ensures
        r is Ok,
        final(out)@ == old(out)@ + spec_encode_rrsig(value@),
{
    let ghost o = old(out)@;
    push_u16(out, value.type_covered);
    out.push(value.algorithm);
    out.push(value.labels);
    push_u32(out, value.orig_ttl);
    push_u32(out, value.expiration);
    push_u32(out, value.inception);
    push_u16(out, value.key_tag);
    push_bytes(out, value.signer_name.wire());
    push_bytes(out, value.signature.as_slice());
    proof {
        assert(out@ =~= o + spec_encode_rrsig(value@));
    }
    Ok(())
}

/// Decoding the encoding of a valid `RRSIG` view gives the view back.
#[verifier::spinoff_prover]
#[verifier::rlimit(50)]
pub proof fn lemma_rrsig_roundtrip(v: (u16, u8, u8, u32, u32, u32, u16, Seq<u8>, Seq<u8>))
    requires
        spec_valid_rrsig(v),
    ensures
        spec_parse_rrsig(spec_encode_rrsig(v), 0, spec_encode_rrsig(v).len() as int) == Some(v),
{
    let b = spec_encode_rrsig(v);
    let o0: int = 0;
    let o1: int = o0 + 2;
    assert(b.subrange(o0, o1) =~= be16(v.0));
    lemma_read_be16(b, o0, v.0);
    let o2: int = o1 + 1;
    assert(b.subrange(o1, o2) =~= seq![v.1]);
    assert(b[o1] == v.1);
    let o3: int = o2 + 1;
    assert(b.subrange(o2, o3) =~= seq![v.2]);
    assert(b[o2] == v.2);
    let o4: int = o3 + 4;
    assert(b.subrange(o3, o4) =~= be32(v.3));
    lemma_read_be32(b, o3, v.3);
    let o5: int = o4 + 4;
    assert(b.subrange(o4, o5) =~= be32(v.4));
    lemma_read_be32(b, o4, v.4);
    let o6: int = o5 + 4;
    assert(b.subrange(o5, o6) =~= be32(v.5));
    lemma_read_be32(b, o5, v.5);
    let o7: int = o6 + 2;
    assert(b.subrange(o6, o7) =~= be16(v.6));
    lemma_read_be16(b, o6, v.6);
    let o8: int = o7 + v.7.len();
    assert(b.subrange(o7, o8) =~= v.7);
    lemma_parse_plain_name(b, o7, v.7);
    let o9: int = o8 + v.8.len();
    assert(b.subrange(o8, o9) =~= v.8);
    assert(b.len() == o9);
}

impl View for SIG {
    type V = (u16, u8, u8, u32, u32, u32, u16, Seq<u8>, Seq<u8>);

    open spec fn view(&self) -> (u16, u8, u8, u32, u32, u32, u16, Seq<u8>, Seq<u8>) {
        self.0@
    }
}

/// Decoded form of `SIG` RDATA: the `RRSIG` layout.
pub open spec fn spec_parse_sig(p: Seq<u8>, s: int, e: int) -> Option<(u16, u8, u8, u32, u32, u32, u16, Seq<u8>, Seq<u8>)> {
    spec_parse_rrsig(p, s, e)
}

/// Wire form of a `SIG` view.
pub open spec fn spec_encode_sig(v: (u16, u8, u8, u32, u32, u32, u16, Seq<u8>, Seq<u8>)) -> Seq<u8> {
    spec_encode_rrsig(v)
}

/// Views that survive an encode and decode unchanged.
pub open spec fn spec_valid_sig(v: (u16, u8, u8, u32, u32, u32, u16, Seq<u8>, Seq<u8>)) -> bool {
    spec_valid_rrsig(v)
}

/// Decode `SIG` RDATA from `packet[start..end]`.
pub fn parse_sig_rdata(packet: &[u8], start: usize, end: usize) -> (r: Result<SIG, ProtoError>)
    requires
        start <= end <= packet@.len(),
    ensures
        match spec_parse_sig(packet@, start as int, end as int) {
            Some(v) => r matches Ok(x) && x@ == v,
            None => r is Err,
        },
{
        match parse_rrsig_rdata(packet, start, end) {
            Ok(x) => Ok(SIG(x)),
            Err(e) => Err(e),
        }
}

/// Decode `SIG` RDATA from `packet[start..end]` as an [`RData`] value.
pub fn parse_sig(packet: &[u8], start: usize, end: usize) -> (r: Result<RData, ProtoError>)
    requires
        start <= end <= packet@.len(),
    ensures
        match spec_parse_sig(packet@, start as int, end as int) {
            Some(v) => r matches Ok(RData::SIG(x)) && x@ == v,
            None => r is Err,
        },
{
    match parse_sig_rdata(packet, start, end) {
        Ok(x) => Ok(RData::SIG(x)),
        Err(e) => Err(e),
    }
}

/// Append the `SIG` wire form (the `RRSIG` layout).
pub fn encode_sig(value: &SIG, out: &mut Vec<u8>) -> (r: Result<(), ProtoError>)
    ensures
        r is Ok,
        final(out)@ == old(out)@ + spec_encode_sig(value@),
{
    encode_rrsig(&value.0, out)
}

/// Decoding the encoding of a valid `SIG` view gives the view back.
pub proof fn lemma_sig_roundtrip(v: (u16, u8, u8, u32, u32, u32, u16, Seq<u8>, Seq<u8>))
    requires
        spec_valid_sig(v),
    ensures
        spec_parse_sig(spec_encode_sig(v), 0, spec_encode_sig(v).len() as int) == Some(v),
{
    lemma_rrsig_roundtrip(v);
}

impl View for NSEC {
    type V = (Seq<u8>, (Seq<u8>, Seq<RecordType>));

    open spec fn view(&self) -> (Seq<u8>, (Seq<u8>, Seq<RecordType>)) {
        (self.next_domain@, (self.type_bitmap.wire@, self.type_bitmap.types@))
    }
}

/// Decoded form of `NSEC` RDATA held in `p[s..e]`.
pub open spec fn spec_parse_nsec(p: Seq<u8>, s: int, e: int) -> Option<(Seq<u8>, (Seq<u8>, Seq<RecordType>))> {
    match spec_parse_name(p, s) {
        None => None,
        Some((f0, c1)) => {
            if c1 > e {
                None
            } else {
                match spec_decode_bitmaps(p.subrange(c1, e), -1) {
                    None => None,
                    Some(t) => {
                        let f1 = (p.subrange(c1, e), t);
                        Some((f0, f1))
                    },
                }
            }
        },
    }
}

/// Wire form of a `NSEC` view, names written uncompressed.
pub open spec fn spec_encode_nsec(v: (Seq<u8>, (Seq<u8>, Seq<RecordType>))) -> Seq<u8> {
    v.0 + v.1.0
}

/// Views that survive an encode and decode unchanged.
pub open spec fn spec_valid_nsec(v: (Seq<u8>, (Seq<u8>, Seq<RecordType>))) -> bool {
    name_wire_ok(v.0) && spec_decode_bitmaps(v.1.0, -1) == Some(v.1.1)
}

/// Decode `NSEC` RDATA from `packet[start..end]`.
pub fn parse_nsec_rdata(packet: &[u8], start: usize, end: usize) -> (r: Result<NSEC, ProtoError>)
    requires
        start <= end <= packet@.len(),
    ensures
        match spec_parse_nsec(packet@, start as int, end as int) {
            Some(v) => r matches Ok(x) && x@ == v,
            None => r is Err,
        },
{
    let (f0, c1) = match Name::parse(packet, start) { Ok(x) => x, Err(e) => return Err(e) };
    if c1 > end { return Err(ProtoError::protocol("invalid NSEC rdata length")); }
    let f1 = match TypeBitMaps::try_from_wire(copy_range(packet, c1, end)) { Ok(b) => b, Err(e) => return Err(e) };
    Ok(NSEC { next_domain: f0, type_bitmap: f1 })
}

/// Decode `NSEC` RDATA from `packet[start..end]` as an [`RData`] value.
pub fn parse_nsec(packet: &[u8], start: usize, end: usize) -> (r: Result<RData, ProtoError>)
    requires
        start <= end <= packet@.len(),
    ensures
        match spec_parse_nsec(packet@, start as int, end as int) {
            Some(v) => r matches Ok(RData::NSEC(x)) && x@ == v,
            None => r is Err,
        },
{
    match parse_nsec_rdata(packet, start, end) {
        Ok(x) => Ok(RData::NSEC(x)),
        Err(e) => Err(e),
    }
}

/// Append the `NSEC` wire form, names uncompressed.
pub fn encode_nsec(value: &NSEC, out: &mut Vec<u8>) -> (r: Result<(), ProtoError>)
    ensures
        r is Ok,
        final(out)@ == old(out)@ + spec_encode_nsec(value@),
{
    let ghost o = old(out)@;
    push_bytes(out, value.next_domain.wire());
    push_bytes(out, value.type_bitmap.wire_data());
    proof {
        assert(out@ =~= o + spec_encode_nsec(value@));
    }
    Ok(())
}

/// Decoding the encoding of a valid `NSEC` view gives the view back.
pub proof fn lemma_nsec_roundtrip(v: (Seq<u8>, (Seq<u8>, Seq<RecordType>)))
    requires
        spec_valid_nsec(v),
    ensures
        spec_parse_nsec(spec_encode_nsec(v), 0, spec_encode_nsec(v).len() as int) == Some(v),
{
    let b = spec_encode_nsec(v);
    let o0: int = 0;
    let o1: int = o0 + v.0.len();
    assert(b.subrange(o0, o1) =~= v.0);
    lemma_parse_plain_name(b, o0, v.0);
    let o2: int = o1 + v.1.0.len();
    assert(b.subrange(o1, o2) =~= v.1.0);
    assert(b.len() == o2);
}

impl View for NSEC3 {
    type V = (u8, u8, u16, Seq<u8>, Seq<u8>, (Seq<u8>, Seq<RecordType>));

    open spec fn view(&self) -> (u8, u8, u16, Seq<u8>, Seq<u8>, (Seq<u8>, Seq<RecordType>)) {
        (self.hash, self.flags, self.iterations, self.salt@, self.next_domain@, (self.type_bitmap.wire@, self.type_bitmap.types@))
    }
}

/// Decoded form of `NSEC3` RDATA held in `p[s..e]`.
pub open spec fn spec_parse_nsec3(p: Seq<u8>, s: int, e: int) -> Option<(u8, u8, u16, Seq<u8>, Seq<u8>, (Seq<u8>, Seq<RecordType>))> {
    if s + 1 > e {
        None
    } else {
        let f0 = p[s];
        let c1 = s + 1;
        if c1 + 1 > e {
            None
        } else {
            let f1 = p[c1];
            let c2 = c1 + 1;
            if c2 + 2 > e {
                None
            } else {
                let f2 = spec_u16_at(p, c2);
                let c3 = c2 + 2;
                if c3 + 1 > e || c3 + 1 + p[c3] > e {
                    None
                } else {
                    let f3 = p.subrange(c3 + 1, c3 + 1 + p[c3]);
                    let c4 = c3 + 1 + p[c3];
                    if c4 + 1 > e || c4 + 1 + p[c4] > e {
                        None
                    } else {
                        let f4 = p.subrange(c4 + 1, c4 + 1 + p[c4]);
                        let c5 = c4 + 1 + p[c4];
                        if c5 > e {
                            None
                        } else {
                            match spec_decode_bitmaps(p.subrange(c5, e), -1) {
                                None => None,
                                Some(t) => {
                                    let f5 = (p.subrange(c5, e), t);
                                    Some((f0, f1, f2, f3, f4, f5))
                                },
                            }
                        }
                    }
                }
            }
        }
    }
}

/// Wire form of a `NSEC3` view, names written uncompressed.
pub open spec fn spec_encode_nsec3(v: (u8, u8, u16, Seq<u8>, Seq<u8>, (Seq<u8>, Seq<RecordType>))) -> Seq<u8> {
    seq![v.0] + seq![v.1] + be16(v.2) + seq![(v.3.len() % 256) as u8] + v.3 + seq![(v.4.len() % 256) as u8] + v.4 + v.5.0
}

/// Views that survive an encode and decode unchanged.
pub open spec fn spec_valid_nsec3(v: (u8, u8, u16, Seq<u8>, Seq<u8>, (Seq<u8>, Seq<RecordType>))) -> bool {
    v.3.len() <= 255 && v.4.len() <= 255 && spec_decode_bitmaps(v.5.0, -1) == Some(v.5.1)
}

/// Decode `NSEC3` RDATA from `packet[start..end]`.
pub fn parse_nsec3_rdata(packet: &[u8], start: usize, end: usize) -> (r: Result<NSEC3, ProtoError>)
    requires
        start <= end <= packet@.len(),
    ensures
        match spec_parse_nsec3(packet@, start as int, end as int) {
            Some(v) => r matches Ok(x) && x@ == v,
            None => r is Err,
        },
{
    if start > end || end - start < 1 { return Err(ProtoError::protocol("invalid NSEC3 rdata length")); }
    let f0 = packet[start];
    let c1 = start + 1;
    if c1 > end || end - c1 < 1 { return Err(ProtoError::protocol("invalid NSEC3 rdata length")); }
    let f1 = packet[c1];
    let c2 = c1 + 1;
    if c2 > end || end - c2 < 2 { return Err(ProtoError::protocol("invalid NSEC3 rdata length")); }
    let f2 = read_u16_be(packet, c2);
    let c3 = c2 + 2;
    if c3 > end || end - c3 < 1 { return Err(ProtoError::protocol("invalid NSEC3 rdata length")); }
    let n3 = packet[c3] as usize;
    if n3 > end - c3 - 1 { return Err(ProtoError::protocol("invalid NSEC3 rdata length")); }
    let f3 = copy_range(packet, c3 + 1, c3 + 1 + n3);
    let c4 = c3 + 1 + n3;
    if c4 > end || end - c4 < 1 { return Err(ProtoError::protocol("invalid NSEC3 rdata length")); }
    let n4 = packet[c4] as usize;
    if n4 > end - c4 - 1 { return Err(ProtoError::protocol("invalid NSEC3 rdata length")); }
    let f4 = copy_range(packet, c4 + 1, c4 + 1 + n4);
    let c5 = c4 + 1 + n4;
    if c5 > end { return Err(ProtoError::protocol("invalid NSEC3 rdata length")); }
    let f5 = match TypeBitMaps::try_from_wire(copy_range(packet, c5, end)) { Ok(b) => b, Err(e) => return Err(e) };
    Ok(NSEC3 { hash: f0, flags: f1, iterations: f2, salt: f3, next_domain: f4, type_bitmap: f5 })
}

/// Decode `NSEC3` RDATA from `packet[start..end]` as an [`RData`] value.
pub fn parse_nsec3(packet: &[u8], start: usize, end: usize) -> (r: Result<RData, ProtoError>)
    requires
        start <= end <= packet@.len(),
    ensures
        match spec_parse_nsec3(packet@, start as int, end as int) {
            Some(v) => r matches Ok(RData::NSEC3(x)) && x@ == v,
            None => r is Err,
        },
{
    match parse_nsec3_rdata(packet, start, end) {
        Ok(x) => Ok(RData::NSEC3(x)),
        Err(e) => Err(e),
    }
}

/// Append the `NSEC3` wire form.
pub fn encode_nsec3(value: &NSEC3, out: &mut Vec<u8>)
    ensures
        final(out)@ == old(out)@ + spec_encode_nsec3(value@),
{
    let ghost o = old(out)@;
    out.push(value.hash);
    out.push(value.flags);
    push_u16(out, value.iterations);
    out.push((value.salt.len() % 256) as u8);
    push_bytes(out, value.salt.as_slice());
    out.push((value.next_domain.len() % 256) as u8);
    push_bytes(out, value.next_domain.as_slice());
    push_bytes(out, value.type_bitmap.wire_data());
    proof {
        assert(out@ =~= o + spec_encode_nsec3(value@));
    }
}

/// Decoding the encoding of a valid `NSEC3` view gives the view back.
#[verifier::spinoff_prover]
#[verifier::rlimit(50)]
pub proof fn lemma_nsec3_roundtrip(v: (u8, u8, u16, Seq<u8>, Seq<u8>, (Seq<u8>, Seq<RecordType>)))
    requires
        spec_valid_nsec3(v),
    ensures
        spec_parse_nsec3(spec_encode_nsec3(v), 0, spec_encode_nsec3(v).len() as int) == Some(v),
{
    let b = spec_encode_nsec3(v);
    let o0: int = 0;
    let o1: int = o0 + 1;
    assert(b.subrange(o0, o1) =~= seq![v.0]);
    assert(b[o0] == v.0);
    let o2: int = o1 + 1;
    assert(b.subrange(o1, o2) =~= seq![v.1]);
    assert(b[o1] == v.1);
    let o3: int = o2 + 2;
    assert(b.subrange(o2, o3) =~= be16(v.2));
    lemma_read_be16(b, o2, v.2);
    let o4: int = o3 + (1 + v.3.len());
    assert(b.subrange(o3, o4) =~= seq![(v.3.len() % 256) as u8] + v.3);
    assert(b[o3] == v.3.len());
    assert(b.subrange(o3 + 1, o4) =~= v.3);
    let o5: int = o4 + (1 + v.4.len());
    assert(b.subrange(o4, o5) =~= seq![(v.4.len() % 256) as u8] + v.4);
    assert(b[o4] == v.4.len());
    assert(b.subrange(o4 + 1, o5) =~= v.4);
    let o6: int = o5 + v.5.0.len();
    assert(b.subrange(o5, o6) =~= v.5.0);
    assert(b.len() == o6);
}

impl View for NSEC3PARAM {
    type V = (u8, u8, u16, Seq<u8>);

    open spec fn view(&self) -> (u8, u8, u16, Seq<u8>) {
        (self.hash, self.flags, self.iterations, self.salt@)
    }
}

/// Decoded form of `NSEC3PARAM` RDATA held in `p[s..e]`.
pub open spec fn spec_parse_nsec3param(p: Seq<u8>, s: int, e: int) -> Option<(u8, u8, u16, Seq<u8>)> {
    if s + 1 > e {
        None
    } else {
        let f0 = p[s];
        let c1 = s + 1;
        if c1 + 1 > e {
            None
        } else {
            let f1 = p[c1];
            let c2 = c1 + 1;
            if c2 + 2 > e {
                None
            } else {
                let f2 = spec_u16_at(p, c2);
                let c3 = c2 + 2;
                if c3 + 1 > e || c3 + 1 + p[c3] > e {
                    None
                } else {
                    let f3 = p.subrange(c3 + 1, c3 + 1 + p[c3]);
                    let c4 = c3 + 1 + p[c3];
                    if c4 != e {
                        None
                    } else {
                        Some((f0, f1, f2, f3))
                    }
                }
            }
        }
    }
}

/// Wire form of a `NSEC3PARAM` view, names written uncompressed.
pub open spec fn spec_encode_nsec3param(v: (u8, u8, u16, Seq<u8>)) -> Seq<u8> {
    seq![v.0] + seq![v.1] + be16(v.2) + seq![(v.3.len() % 256) as u8] + v.3
}

/// Views that survive an encode and decode unchanged.
pub open spec fn spec_valid_nsec3param(v: (u8, u8, u16, Seq<u8>)) -> bool {
    v.3.len() <= 255
}

/// Decode `NSEC3PARAM` RDATA from `packet[start..end]`.
pub fn parse_nsec3param_rdata(packet: &[u8], start: usize, end: usize) -> (r: Result<NSEC3PARAM, ProtoError>)
    requires
        start <= end <= packet@.len(),
    ensures
        match spec_parse_nsec3param(packet@, start as int, end as int) {
            Some(v) => r matches Ok(x) && x@ == v,
            None => r is Err,
        },
{
    if start > end || end - start < 1 { return Err(ProtoError::protocol("invalid NSEC3PARAM rdata length")); }
    let f0 = packet[start];
    let c1 = start + 1;
    if c1 > end || end - c1 < 1 { return Err(ProtoError::protocol("invalid NSEC3PARAM rdata length")); }
    let f1 = packet[c1];
    let c2 = c1 + 1;
    if c2 > end || end - c2 < 2 { return Err(ProtoError::protocol("invalid NSEC3PARAM rdata length")); }
    let f2 = read_u16_be(packet, c2);
    let c3 = c2 + 2;
    if c3 > end || end - c3 < 1 { return Err(ProtoError::protocol("invalid NSEC3PARAM rdata length")); }
    let n3 = packet[c3] as usize;
    if n3 > end - c3 - 1 { return Err(ProtoError::protocol("invalid NSEC3PARAM rdata length")); }
    let f3 = copy_range(packet, c3 + 1, c3 + 1 + n3);
    let c4 = c3 + 1 + n3;
    if c4 != end { return Err(ProtoError::protocol("invalid NSEC3PARAM rdata length")); }
    Ok(NSEC3PARAM { hash: f0, flags: f1, iterations: f2, salt: f3 })
}

/// Decode `NSEC3PARAM` RDATA from `packet[start..end]` as an [`RData`] value.
pub fn parse_nsec3param(packet: &[u8], start: usize, end: usize) -> (r: Result<RData, ProtoError>)
    requires
        start <= end <= packet@.len(),
    ensures
        match spec_parse_nsec3param(packet@, start as int, end as int) {
            Some(v) => r matches Ok(RData::NSEC3PARAM(x)) && x@ == v,
            None => r is Err,
        },
{
    match parse_nsec3param_rdata(packet, start, end) {
        Ok(x) => Ok(RData::NSEC3PARAM(x)),
        Err(e) => Err(e),
    }
}

/// Append the `NSEC3PARAM` wire form.
pub fn encode_nsec3param(value: &NSEC3PARAM, out: &mut Vec<u8>)
    ensures
        final(out)@ == old(out)@ + spec_encode_nsec3param(value@),
{
    let ghost o = old(out)@;
    out.push(value.hash);
    out.push(value.flags);
    push_u16(out, value.iterations);
    out.push((value.salt.len() % 256) as u8);
    push_bytes(out, value.salt.as_slice());
    proof {
        assert(out@ =~= o + spec_encode_nsec3param(value@));
    }
}

/// Decoding the encoding of a valid `NSEC3PARAM` view gives the view back.
pub proof fn lemma_nsec3param_roundtrip(v: (u8, u8, u16, Seq<u8>))
    requires
        spec_valid_nsec3param(v),
    ensures
        spec_parse_nsec3param(spec_encode_nsec3param(v), 0, spec_encode_nsec3param(v).len() as int) == Some(v),
{
    let b = spec_encode_nsec3param(v);
    let o0: int = 0;
    let o1: int = o0 + 1;
    assert(b.subrange(o0, o1) =~= seq![v.0]);
    assert(b[o0] == v.0);
    let o2: int = o1 + 1;
    assert(b.subrange(o1, o2) =~= seq![v.1]);
    assert(b[o1] == v.1);
    let o3: int = o2 + 2;
    assert(b.subrange(o2, o3) =~= be16(v.2));
    lemma_read_be16(b, o2, v.2);
    let o4: int = o3 + (1 + v.3.len());
    assert(b.subrange(o3, o4) =~= seq![(v.3.len() % 256) as u8] + v.3);
    assert(b[o3] == v.3.len());
    assert(b.subrange(o3 + 1, o4) =~= v.3);
    assert(b.len() == o4);
}

impl View for TALINK {
    type V = (Seq<u8>, Seq<u8>);

    open spec fn view(&self) -> (Seq<u8>, Seq<u8>) {
        (self.previous_name@, self.next_name@)
    }
}

/// Decoded form of `TALINK` RDATA held in `p[s..e]`.
pub open spec fn spec_parse_talink(p: Seq<u8>, s: int, e: int) -> Option<(Seq<u8>, Seq<u8>)> {
    spec_two_names_rdata(p, s, e)
}

/// Wire form of a `TALINK` view, names written uncompressed.
pub open spec fn spec_encode_talink(v: (Seq<u8>, Seq<u8>)) -> Seq<u8> {
    v.0 + v.1
}

/// Views that survive an encode and decode unchanged.
pub open spec fn spec_valid_talink(v: (Seq<u8>, Seq<u8>)) -> bool {
    name_wire_ok(v.0) && name_wire_ok(v.1)
}

/// Decode `TALINK` RDATA from `packet[start..end]`.
pub fn parse_talink_rdata(packet: &[u8], start: usize, end: usize) -> (r: Result<TALINK, ProtoError>)
    requires
        start <= end <= packet@.len(),
    ensures
        match spec_parse_talink(packet@, start as int, end as int) {
            Some(v) => r matches Ok(x) && x@ == v,
            None => r is Err,
        },
{
    let (f0, f1) = match parse_two_names(packet, start, end, "TALINK") { Ok(x) => x, Err(e) => return Err(e) };
    Ok(TALINK { previous_name: f0, next_name: f1 })
}

/// Decode `TALINK` RDATA from `packet[start..end]` as an [`RData`] value.
pub fn parse_talink(packet: &[u8], start: usize, end: usize) -> (r: Result<RData, ProtoError>)
    requires
        start <= end <= packet@.len(),
    ensures
        match spec_parse_talink(packet@, start as int, end as int) {
            Some(v) => r matches Ok(RData::TALINK(x)) && x@ == v,
            None => r is Err,
        },
{
    match parse_talink_rdata(packet, start, end) {
        Ok(x) => Ok(RData::TALINK(x)),
        Err(e) => Err(e),
    }
}

/// Append the `TALINK` wire form, names uncompressed.
pub fn encode_talink(value: &TALINK, out: &mut Vec<u8>) -> (r: Result<(), ProtoError>)
    ensures
        r is Ok,
        final(out)@ == old(out)@ + spec_encode_talink(value@),
{
    let ghost o = old(out)@;
    push_bytes(out, value.previous_name.wire());
    push_bytes(out, value.next_name.wire());
    proof {
        assert(out@ =~= o + spec_encode_talink(value@));
    }
    Ok(())
}

/// Decoding the encoding of a valid `TALINK` view gives the view back.
pub proof fn lemma_talink_roundtrip(v: (Seq<u8>, Seq<u8>))
    requires
        spec_valid_talink(v),
    ensures
        spec_parse_talink(spec_encode_talink(v), 0, spec_encode_talink(v).len() as int) == Some(v),
{
    let b = spec_encode_talink(v);
    let o0: int = 0;
    let o1: int = o0 + v.0.len();
    assert(b.subrange(o0, o1) =~= v.0);
    lemma_parse_plain_name(b, o0, v.0);
    let o2: int = o1 + v.1.len();
    assert(b.subrange(o1, o2) =~= v.1);
    lemma_parse_plain_name(b, o1, v.1);
    assert(b.len() == o2);
}

impl View for TKEY {
    type V = (Seq<u8>, u32, u32, u16, u16, Seq<u8>, Seq<u8>);

    open spec fn view(&self) -> (Seq<u8>, u32, u32, u16, u16, Seq<u8>, Seq<u8>) {
        (self.algorithm@, self.inception, self.expiration, self.mode, self.error, self.key@, self.other_data@)
    }
}

/// Decoded form of `TKEY` RDATA held in `p[s..e]`.
pub open spec fn spec_parse_tkey(p: Seq<u8>, s: int, e: int) -> Option<(Seq<u8>, u32, u32, u16, u16, Seq<u8>, Seq<u8>)> {
    match spec_parse_name(p, s) {
        None => None,
        Some((f0, c1)) => {
            if c1 + 4 > e {
                None
            } else {
                let f1 = spec_u32_at(p, c1);
                let c2 = c1 + 4;
                if c2 + 4 > e {
                    None
                } else {
                    let f2 = spec_u32_at(p, c2);
                    let c3 = c2 + 4;
                    if c3 + 2 > e {
                        None
                    } else {
                        let f3 = spec_u16_at(p, c3);
                        let c4 = c3 + 2;
                        if c4 + 2 > e {
                            None
                        } else {
                            let f4 = spec_u16_at(p, c4);
                            let c5 = c4 + 2;
                            if c5 + 2 > e || c5 + 2 + spec_u16_at(p, c5) > e {
                                None
                            } else {
                                let f5 = p.subrange(c5 + 2, c5 + 2 + spec_u16_at(p, c5));
                                let c6 = c5 + 2 + spec_u16_at(p, c5);
                                if c6 + 2 > e || c6 + 2 + spec_u16_at(p, c6) > e {
                                    None
                                } else {
                                    let f6 = p.subrange(c6 + 2, c6 + 2 + spec_u16_at(p, c6));
                                    let c7 = c6 + 2 + spec_u16_at(p, c6);
                                    if c7 != e {
                                        None
                                    } else {
                                        Some((f0, f1, f2, f3, f4, f5, f6))
                                    }
                                }
                            }
                        }
                    }
                }
            }
        },
    }
}

/// Wire form of a `TKEY` view, names written uncompressed.
pub open spec fn spec_encode_tkey(v: (Seq<u8>, u32, u32, u16, u16, Seq<u8>, Seq<u8>)) -> Seq<u8> {
    v.0 + be32(v.1) + be32(v.2) + be16(v.3) + be16(v.4) + be16((v.5.len() % 65536) as u16) + v.5 + be16((v.6.len() % 65536) as u16) + v.6
}

/// Views that survive an encode and decode unchanged.
pub open spec fn spec_valid_tkey(v: (Seq<u8>, u32, u32, u16, u16, Seq<u8>, Seq<u8>)) -> bool {
    name_wire_ok(v.0) && v.5.len() <= 65535 && v.6.len() <= 65535
}

/// Decode `TKEY` RDATA from `packet[start..end]`.
pub fn parse_tkey_rdata(packet: &[u8], start: usize, end: usize) -> (r: Result<TKEY, ProtoError>)
    requires
        start <= end <= packet@.len(),
    ensures
        match spec_parse_tkey(packet@, start as int, end as int) {
            Some(v) => r matches Ok(x) && x@ == v,
            None => r is Err,
        },
{
    let (f0, c1) = match Name::parse(packet, start) { Ok(x) => x, Err(e) => return Err(e) };
    if c1 > end || end - c1 < 4 { return Err(ProtoError::protocol("invalid TKEY rdata length")); }
    let f1 = read_u32_be(packet, c1);
    let c2 = c1 + 4;
    if c2 > end || end - c2 < 4 { return Err(ProtoError::protocol("invalid TKEY rdata length")); }
    let f2 = read_u32_be(packet, c2);
    let c3 = c2 + 4;
    if c3 > end || end - c3 < 2 { return Err(ProtoError::protocol("invalid TKEY rdata length")); }
    let f3 = read_u16_be(packet, c3);
    let c4 = c3 + 2;
    if c4 > end || end - c4 < 2 { return Err(ProtoError::protocol("invalid TKEY rdata length")); }
    let f4 = read_u16_be(packet, c4);
    let c5 = c4 + 2;
    if c5 > end || end - c5 < 2 { return Err(ProtoError::protocol("invalid TKEY rdata length")); }
    let n5 = read_u16_be(packet, c5) as usize;
    if n5 > end - c5 - 2 { return Err(ProtoError::protocol("invalid TKEY rdata length")); }
    let f5 = copy_range(packet, c5 + 2, c5 + 2 + n5);
    let c6 = c5 + 2 + n5;
    if c6 > end || end - c6 < 2 { return Err(ProtoError::protocol("invalid TKEY rdata length")); }
    let n6 = read_u16_be(packet, c6) as usize;
    if n6 > end - c6 - 2 { return Err(ProtoError::protocol("invalid TKEY rdata length")); }
    let f6 = copy_range(packet, c6 + 2, c6 + 2 + n6);
    let c7 = c6 + 2 + n6;
    if c7 != end { return Err(ProtoError::protocol("invalid TKEY rdata length")); }
    Ok(TKEY { algorithm: f0, inception: f1, expiration: f2, mode: f3, error: f4, key: f5, other_data: f6 })
}

/// Decode `TKEY` RDATA from `packet[start..end]` as an [`RData`] value.
pub fn parse_tkey(packet: &[u8], start: usize, end: usize) -> (r: Result<RData, ProtoError>)
    requires
        start <= end <= packet@.len(),
    ensures
        match spec_parse_tkey(packet@, start as int, end as int) {
            Some(v) => r matches Ok(RData::TKEY(x)) && x@ == v,
            None => r is Err,
        },
{
    match parse_tkey_rdata(packet, start, end) {
        Ok(x) => Ok(RData::TKEY(x)),
        Err(e) => Err(e),
    }
}

/// Append the `TKEY` wire form, names uncompressed.
pub fn encode_tkey(value: &TKEY, out: &mut Vec<u8>) -> (r: Result<(), ProtoError>)
    ensures
        r is Ok,
        final(out)@ == old(out)@ + spec_encode_tkey(value@),
{
    let ghost o = old(out)@;
    push_bytes(out, value.algorithm.wire());
    push_u32(out, value.inception);
    push_u32(out, value.expiration);
    push_u16(out, value.mode);
    push_u16(out, value.error);
    push_u16(out, (value.key.len() % 65536) as u16);
    push_bytes(out, value.key.as_slice());
    push_u16(out, (value.other_data.len() % 65536) as u16);
    push_bytes(out, value.other_data.as_slice());
    proof {
        assert(out@ =~= o + spec_encode_tkey(value@));
    }
    Ok(())
}

/// Decoding the encoding of a valid `TKEY` view gives the view back.
#[verifier::spinoff_prover]
#[verifier::rlimit(50)]
pub proof fn lemma_tkey_roundtrip(v: (Seq<u8>, u32, u32, u16, u16, Seq<u8>, Seq<u8>))
    requires
        spec_valid_tkey(v),
    ensures
        spec_parse_tkey(spec_encode_tkey(v), 0, spec_encode_tkey(v).len() as int) == Some(v),
{
    let b = spec_encode_tkey(v);
    let o0: int = 0;
    let o1: int = o0 + v.0.len();
    assert(b.subrange(o0, o1) =~= v.0);
    lemma_parse_plain_name(b, o0, v.0);
    let o2: int = o1 + 4;
    assert(b.subrange(o1, o2) =~= be32(v.1));
    lemma_read_be32(b, o1, v.1);
    let o3: int = o2 + 4;
    assert(b.subrange(o2, o3) =~= be32(v.2));
    lemma_read_be32(b, o2, v.2);
    let o4: int = o3 + 2;
    assert(b.subrange(o3, o4) =~= be16(v.3));
    lemma_read_be16(b, o3, v.3);
    let o5: int = o4 + 2;
    assert(b.subrange(o4, o5) =~= be16(v.4));
    lemma_read_be16(b, o4, v.4);
    let o6: int = o5 + (2 + v.5.len());
    assert(b.subrange(o5, o6) =~= be16((v.5.len() % 65536) as u16) + v.5);
    assert(b.subrange(o5, o5 + 2) =~= be16((v.5.len() % 65536) as u16));
    lemma_read_be16(b, o5, (v.5.len() % 65536) as u16);
    assert(b.subrange(o5 + 2, o6) =~= v.5);
    let o7: int = o6 + (2 + v.6.len());
    assert(b.subrange(o6, o7) =~= be16((v.6.len() % 65536) as u16) + v.6);
    assert(b.subrange(o6, o6 + 2) =~= be16((v.6.len() % 65536) as u16));
    lemma_read_be16(b, o6, (v.6.len() % 65536) as u16);
    assert(b.subrange(o6 + 2, o7) =~= v.6);
    assert(b.len() == o7);
}

impl View for TSIG {
    type V = (Seq<u8>, u64, u16, Seq<u8>, u16, u16, Seq<u8>);

    open spec fn view(&self) -> (Seq<u8>, u64, u16, Seq<u8>, u16, u16, Seq<u8>) {
        (self.algorithm@, self.time_signed, self.fudge, self.mac@, self.orig_id, self.error, self.other_data@)
    }
}

/// Decoded form of `TSIG` RDATA held in `p[s..e]`.
pub open spec fn spec_parse_tsig(p: Seq<u8>, s: int, e: int) -> Option<(Seq<u8>, u64, u16, Seq<u8>, u16, u16, Seq<u8>)> {
    match spec_parse_name(p, s) {
        None => None,
        Some((f0, c1)) => {
            if c1 + 6 > e {
                None
            } else {
                let f1 = spec_u48_at(p, c1);
                let c2 = c1 + 6;
                if c2 + 2 > e {
                    None
                } else {
                    let f2 = spec_u16_at(p, c2);
                    let c3 = c2 + 2;
                    if c3 + 2 > e || c3 + 2 + spec_u16_at(p, c3) > e {
                        None
                    } else {
                        let f3 = p.subrange(c3 + 2, c3 + 2 + spec_u16_at(p, c3));
                        let c4 = c3 + 2 + spec_u16_at(p, c3);
                        if c4 + 2 > e {
                            None
                        } else {
                            let f4 = spec_u16_at(p, c4);
                            let c5 = c4 + 2;
                            if c5 + 2 > e {
                                None
                            } else {
                                let f5 = spec_u16_at(p, c5);
                                let c6 = c5 + 2;
                                if c6 + 2 > e || c6 + 2 + spec_u16_at(p, c6) > e {
                                    None
                                } else {
                                    let f6 = p.subrange(c6 + 2, c6 + 2 + spec_u16_at(p, c6));
                                    let c7 = c6 + 2 + spec_u16_at(p, c6);
                                    if c7 != e {
                                        None
                                    } else {
                                        Some((f0, f1, f2, f3, f4, f5, f6))
                                    }
                                }
                            }
                        }
                    }
                }
            }
        },
    }
}

/// Wire form of a `TSIG` view, names written uncompressed.
pub open spec fn spec_encode_tsig(v: (Seq<u8>, u64, u16, Seq<u8>, u16, u16, Seq<u8>)) -> Seq<u8> {
    v.0 + be48(v.1) + be16(v.2) + be16((v.3.len() % 65536) as u16) + v.3 + be16(v.4) + be16(v.5) + be16((v.6.len() % 65536) as u16) + v.6
}

/// Views that survive an encode and decode unchanged.
pub open spec fn spec_valid_tsig(v: (Seq<u8>, u64, u16, Seq<u8>, u16, u16, Seq<u8>)) -> bool {
    name_wire_ok(v.0) && v.1 < 0x1_0000_0000_0000 && v.3.len() <= 65535 && v.6.len() <= 65535
}

/// Decode `TSIG` RDATA from `packet[start..end]`.
pub fn parse_tsig_rdata(packet: &[u8], start: usize, end: usize) -> (r: Result<TSIG, ProtoError>)
    requires
        start <= end <= packet@.len(),
    ensures
        match spec_parse_tsig(packet@, start as int, end as int) {
            Some(v) => r matches Ok(x) && x@ == v,
            None => r is Err,
        },
{
    let (f0, c1) = match Name::parse(packet, start) { Ok(x) => x, Err(e) => return Err(e) };
    if c1 > end || end - c1 < 6 { return Err(ProtoError::protocol("invalid TSIG rdata length")); }
    let f1 = read_u48_be(packet, c1);
    let c2 = c1 + 6;
    if c2 > end || end - c2 < 2 { return Err(ProtoError::protocol("invalid TSIG rdata length")); }
    let f2 = read_u16_be(packet, c2);
    let c3 = c2 + 2;
    if c3 > end || end - c3 < 2 { return Err(ProtoError::protocol("invalid TSIG rdata length")); }
    let n3 = read_u16_be(packet, c3) as usize;
    if n3 > end - c3 - 2 { return Err(ProtoError::protocol("invalid TSIG rdata length")); }
    let f3 = copy_range(packet, c3 + 2, c3 + 2 + n3);
    let c4 = c3 + 2 + n3;
    if c4 > end || end - c4 < 2 { return Err(ProtoError::protocol("invalid TSIG rdata length")); }
    let f4 = read_u16_be(packet, c4);
    let c5 = c4 + 2;
    if c5 > end || end - c5 < 2 { return Err(ProtoError::protocol("invalid TSIG rdata length")); }
    let f5 = read_u16_be(packet, c5);
    let c6 = c5 + 2;
    if c6 > end || end - c6 < 2 { return Err(ProtoError::protocol("invalid TSIG rdata length")); }
    let n6 = read_u16_be(packet, c6) as usize;
    if n6 > end - c6 - 2 { return Err(ProtoError::protocol("invalid TSIG rdata length")); }
    let f6 = copy_range(packet, c6 + 2, c6 + 2 + n6);
    let c7 = c6 + 2 + n6;
    if c7 != end { return Err(ProtoError::protocol("invalid TSIG rdata length")); }
    Ok(TSIG { algorithm: f0, time_signed: f1, fudge: f2, mac: f3, orig_id: f4, error: f5, other_data: f6 })
}

/// Decode `TSIG` RDATA from `packet[start..end]` as an [`RData`] value.
pub fn parse_tsig(packet: &[u8], start: usize, end: usize) -> (r: Result<RData, ProtoError>)
    requires
        start <= end <= packet@.len(),
    ensures
        match spec_parse_tsig(packet@, start as int, end as int) {
            Some(v) => r matches Ok(RData::TSIG(x)) && x@ == v,
            None => r is Err,
        },
{
    match parse_tsig_rdata(packet, start, end) {
        Ok(x) => Ok(RData::TSIG(x)),
        Err(e) => Err(e),
    }
}

/// Append the `TSIG` wire form, names uncompressed.
pub fn encode_tsig(value: &TSIG, out: &mut Vec<u8>) -> (r: Result<(), ProtoError>)
    ensures
        r is Ok,
        final(out)@ == old(out)@ + spec_encode_tsig(value@),
{
    let ghost o = old(out)@;
    push_bytes(out, value.algorithm.wire());
    push_u48(out, value.time_signed);
    push_u16(out, value.fudge);
    push_u16(out, (value.mac.len() % 65536) as u16);
    push_bytes(out, value.mac.as_slice());
    push_u16(out, value.orig_id);
    push_u16(out, value.error);
    push_u16(out, (value.other_data.len() % 65536) as u16);
    push_bytes(out, value.other_data.as_slice());
    proof {
        assert(out@ =~= o + spec_encode_tsig(value@));
    }
    Ok(())
}

/// Decoding the encoding of a valid `TSIG` view gives the view back.
#[verifier::spinoff_prover]
#[verifier::rlimit(50)]
pub proof fn lemma_tsig_roundtrip(v: (Seq<u8>, u64, u16, Seq<u8>, u16, u16, Seq<u8>))
    requires
        spec_valid_tsig(v),
    ensures
        spec_parse_tsig(spec_encode_tsig(v), 0, spec_encode_tsig(v).len() as int) == Some(v),
{
    let b = spec_encode_tsig(v);
    let o0: int = 0;
    let o1: int = o0 + v.0.len();
    assert(b.subrange(o0, o1) =~= v.0);
    lemma_parse_plain_name(b, o0, v.0);
    let o2: int = o1 + 6;
    assert(b.subrange(o1, o2) =~= be48(v.1));
    lemma_read_be48(b, o1, v.1);
    let o3: int = o2 + 2;
    assert(b.subrange(o2, o3) =~= be16(v.2));
    lemma_read_be16(b, o2, v.2);
    let o4: int = o3 + (2 + v.3.len());
    assert(b.subrange(o3, o4) =~= be16((v.3.len() % 65536) as u16) + v.3);
    assert(b.subrange(o3, o3 + 2) =~= be16((v.3.len() % 65536) as u16));
    lemma_read_be16(b, o3, (v.3.len() % 65536) as u16);
    assert(b.subrange(o3 + 2, o4) =~= v.3);
    let o5: int = o4 + 2;
    assert(b.subrange(o4, o5) =~= be16(v.4));
    lemma_read_be16(b, o4, v.4);
    let o6: int = o5 + 2;
    assert(b.subrange(o5, o6) =~= be16(v.5));
    lemma_read_be16(b, o5, v.5);
    let o7: int = o6 + (2 + v.6.len());
    assert(b.subrange(o6, o7) =~= be16((v.6.len() % 65536) as u16) + v.6);
    assert(b.subrange(o6, o6 + 2) =~= be16((v.6.len() % 65536) as u16));
    lemma_read_be16(b, o6, (v.6.len() % 65536) as u16);
    assert(b.subrange(o6 + 2, o7) =~= v.6);
    assert(b.len() == o7);
}

impl View for HIP {
    type V = (Seq<u8>, u8, Seq<u8>, Seq<Seq<u8>>);

    open spec fn view(&self) -> (Seq<u8>, u8, Seq<u8>, Seq<Seq<u8>>) {
        (self.hit@, self.public_key_algorithm, self.public_key@, self.rendezvous_servers@.map_values(|n: Name| n@))
    }
}

/// Domain names packed from `c` up to exactly `e`.
pub open spec fn spec_names_until(p: Seq<u8>, c: int, e: int) -> Option<Seq<Seq<u8>>>
    decreases e - c,
{
    if c >= e {
        Some(Seq::empty())
    } else {
        match spec_parse_name(p, c) {
            None => None,
            Some((n, k)) => if k <= c || k > e {
                None
            } else {
                match spec_names_until(p, k, e) {
                    None => None,
                    Some(rest) => Some(seq![n] + rest),
                }
            },
        }
    }
}

/// HIP RDATA (RFC 8005 section 4.1): HIT length, algorithm, key length,
/// HIT, public key and the rendezvous server names up to the end.
pub open spec fn spec_parse_hip(p: Seq<u8>, s: int, e: int) -> Option<(Seq<u8>, u8, Seq<u8>, Seq<Seq<u8>>)> {
    if s + 4 > e {
        None
    } else {
        let he = s + 4 + p[s];
        let pe = he + spec_u16_at(p, s + 2);
        if pe > e {
            None
        } else {
            match spec_names_until(p, pe, e) {
                None => None,
                Some(ns) => Some((p.subrange(s + 4, he), p[s + 1], p.subrange(he, pe), ns)),
            }
        }
    }
}

/// Names one after the other, uncompressed.
pub open spec fn spec_concat_names(ns: Seq<Seq<u8>>) -> Seq<u8>
    decreases ns.len(),
{
    if ns.len() == 0 {
        Seq::empty()
    } else {
        spec_concat_names(ns.drop_last()) + ns.last()
    }
}

/// Wire form of a HIP view; the two lengths are written in one and two
/// octets, truncated as the field widths require.
pub open spec fn spec_encode_hip(v: (Seq<u8>, u8, Seq<u8>, Seq<Seq<u8>>)) -> Seq<u8> {
    seq![(v.0.len() % 256) as u8, v.1] + be16((v.2.len() % 65536) as u16) + v.0 + v.2 + spec_concat_names(v.3)
}

/// Decode HIP RDATA.
pub fn parse_hip_rdata(packet: &[u8], start: usize, end: usize) -> (r: Result<HIP, ProtoError>)
    requires
        start <= end <= packet@.len(),
    ensures
        match spec_parse_hip(packet@, start as int, end as int) {
            Some(v) => r matches Ok(x) && x@ == v,
            None => r is Err,
        },
{
    if end - start < 4 {
        return Err(ProtoError::protocol("invalid HIP rdata length"));
    }
    let hit_len = packet[start] as usize;
    let algorithm = packet[start + 1];
    let pk_len = read_u16_be(packet, start + 2) as usize;
    let hit_start = start + 4;
    if hit_len > end - hit_start || pk_len > end - hit_start - hit_len {
        return Err(ProtoError::protocol("invalid HIP rdata length"));
    }
    let hit_end = hit_start + hit_len;
    let pk_end = hit_end + pk_len;
    let mut cursor = pk_end;
    let mut servers: Vec<Name> = Vec::new();
    while cursor < end
        invariant
            pk_end <= cursor <= end <= packet@.len(),
            start + 4 <= end,
            hit_end == start + 4 + packet@[start as int],
            pk_end == hit_end + spec_u16_at(packet@, start + 2),
            spec_names_until(packet@, pk_end as int, end as int) == match spec_names_until(
                packet@,
                cursor as int,
                end as int,
            ) {
                Some(rest) => Some(servers@.map_values(|n: Name| n@) + rest),
                None => None,
            },
        decreases end - cursor,
    {
        let (name, next) = match Name::parse(packet, cursor) {
            Ok(x) => x,
            Err(e) => return Err(e),
        };
        if next <= cursor || next > end {
            return Err(ProtoError::protocol("invalid HIP rdata length"));
        }
        let ghost before = servers@;
        servers.push(name);
        proof {
            assert(servers@.map_values(|n: Name| n@) =~= before.map_values(|n: Name| n@).push(name@));
            match spec_names_until(packet@, next as int, end as int) {
                Some(rest) => {
                    assert(before.map_values(|n: Name| n@) + (seq![name@] + rest) =~= before.map_values(
                        |n: Name| n@,
                    ).push(name@) + rest);
                },
                None => {},
            }
        }
        cursor = next;
    }
    proof {
        assert(servers@.map_values(|n: Name| n@) + Seq::empty() =~= servers@.map_values(|n: Name| n@));
    }
    Ok(HIP::new(
        copy_range(packet, hit_start, hit_end),
        algorithm,
        copy_range(packet, hit_end, pk_end),
        servers,
    ))
}

/// Decode HIP RDATA as an [`RData`] value.
pub fn parse_hip(packet: &[u8], start: usize, end: usize) -> (r: Result<RData, ProtoError>)
    requires
        start <= end <= packet@.len(),
    ensures
        match spec_parse_hip(packet@, start as int, end as int) {
            Some(v) => r matches Ok(RData::HIP(x)) && x@ == v,
            None => r is Err,
        },
{
    match parse_hip_rdata(packet, start, end) {
        Ok(x) => Ok(RData::HIP(x)),
        Err(e) => Err(e),
    }
}

/// Append HIP fixed fields, HIT, public key and the rendezvous server names.
pub fn encode_hip(value: &HIP, out: &mut Vec<u8>) -> (r: Result<(), ProtoError>)
    ensures
        r is Ok,
        final(out)@ == old(out)@ + spec_encode_hip(value@),
{
    let ghost o = old(out)@;
    out.push((value.hit.len() % 256) as u8);
    out.push(value.public_key_algorithm);
    push_u16(out, (value.public_key.len() % 65536) as u16);
    push_bytes(out, value.hit.as_slice());
    push_bytes(out, value.public_key.as_slice());
    let ghost head = out@;
    let mut i: usize = 0;
    let ghost ns = value.rendezvous_servers@.map_values(|n: Name| n@);
    while i < value.rendezvous_servers.len()
        invariant
            i <= value.rendezvous_servers@.len(),
            ns == value.rendezvous_servers@.map_values(|n: Name| n@),
            out@ == head + spec_concat_names(ns.take(i as int)),
        decreases value.rendezvous_servers.len() - i,
    {
        push_bytes(out, value.rendezvous_servers[i].wire());
        proof {
            assert(ns.take(i + 1).drop_last() =~= ns.take(i as int));
            assert(ns.take(i + 1).last() == value.rendezvous_servers@[i as int]@);
        }
        i = i + 1;
    }
    proof {
        assert(ns.take(ns.len() as int) =~= ns);
        assert(out@ =~= o + spec_encode_hip(value@));
    }
    Ok(())
}

/// HIP views that decode back: lengths that fit their fields and
/// well-formed names.
pub open spec fn spec_valid_hip(v: (Seq<u8>, u8, Seq<u8>, Seq<Seq<u8>>)) -> bool {
    &&& v.0.len() <= 255
    &&& v.2.len() <= 65535
    &&& forall|i: int| 0 <= i < v.3.len() ==> name_wire_ok(#[trigger] v.3[i])
}

/// The encoding of a non-empty name list starts with its first name.
proof fn lemma_concat_names_first(ns: Seq<Seq<u8>>)
    requires
        ns.len() > 0,
    ensures
        spec_concat_names(ns) == ns[0] + spec_concat_names(ns.drop_first()),
    decreases ns.len(),
{
    if ns.len() == 1 {
        assert(ns.drop_last() =~= Seq::<Seq<u8>>::empty());
        assert(ns.drop_first() =~= Seq::<Seq<u8>>::empty());
        assert(spec_concat_names(ns.drop_last()) =~= Seq::<u8>::empty());
        assert(spec_concat_names(ns.drop_first()) =~= Seq::<u8>::empty());
        assert(ns.last() == ns[0]);
        assert(spec_concat_names(ns) =~= ns[0] + Seq::<u8>::empty());
    } else {
        lemma_concat_names_first(ns.drop_last());
        assert(ns.drop_last().drop_first() =~= ns.drop_first().drop_last());
        assert(ns.drop_first().last() == ns.last());
        assert(spec_concat_names(ns) =~= ns[0] + spec_concat_names(ns.drop_first()));
    }
}

/// Well-formed names written one after another after `pre` read back.
proof fn lemma_names_until(ns: Seq<Seq<u8>>, pre: Seq<u8>)
    requires
        forall|i: int| 0 <= i < ns.len() ==> name_wire_ok(#[trigger] ns[i]),
    ensures
        spec_names_until(pre + spec_concat_names(ns), pre.len() as int, (pre.len() + spec_concat_names(ns).len()) as int)
            == Some(ns),
    decreases ns.len(),
{
    let b = pre + spec_concat_names(ns);
    if ns.len() == 0 {
        assert(ns =~= Seq::<Seq<u8>>::empty());
    } else {
        lemma_concat_names_first(ns);
        let n = ns[0];
        let rest = ns.drop_first();
        assert(name_wire_ok(n));
        assert(n.len() >= 1);
        assert forall|i: int| 0 <= i < rest.len() implies name_wire_ok(#[trigger] rest[i]) by {
            assert(rest[i] == ns[i + 1]);
        }
        lemma_names_until(rest, pre + n);
        assert(pre + n + spec_concat_names(rest) =~= b);
        let c = pre.len() as int;
        assert(b.subrange(c, c + n.len()) =~= n);
        lemma_parse_plain_name(b, c, n);
        assert(seq![n] + rest =~= ns);
    }
}

/// Decoding the encoding of a valid HIP view gives it back.
pub proof fn lemma_hip_roundtrip(v: (Seq<u8>, u8, Seq<u8>, Seq<Seq<u8>>))
    requires
        spec_valid_hip(v),
    ensures
        spec_parse_hip(spec_encode_hip(v), 0, spec_encode_hip(v).len() as int) == Some(v),
{
    let b = spec_encode_hip(v);
    let head = seq![(v.0.len() % 256) as u8, v.1] + be16((v.2.len() % 65536) as u16) + v.0 + v.2;
    assert(b =~= head + spec_concat_names(v.3));
    assert(b.subrange(2, 4) =~= be16((v.2.len() % 65536) as u16));
    lemma_read_be16(b, 2, (v.2.len() % 65536) as u16);
    assert(b[0] == v.0.len());
    let he: int = 4int + v.0.len();
    let pe: int = he + v.2.len();
    assert(b.subrange(4, he) =~= v.0);
    assert(b.subrange(he, pe) =~= v.2);
    lemma_names_until(v.3, head);
}


} // verus!
