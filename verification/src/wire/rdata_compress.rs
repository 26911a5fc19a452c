//! RDATA written into a message with name compression.

use vstd::prelude::*;
use crate::error::ProtoError;
use crate::name::name_wire_ok;
use crate::rdata::RData;
use crate::rdata::basic::{CNAME, MX, NAPTR, NS, PTR, SOA, SRV};
use crate::rdata::dnssec::{HIP, NSEC, NXT, RRSIG, SIG, TALINK, TKEY, TSIG};
use crate::rdata::legacy::{A6, AFSDB, ANAME, DNAME, MB, MD, MF, MG, MINFO, MR, NSAPPTR, PX, RP, RT};
use crate::rdata::service::{HTTPS, KX, LP, SVCB};
use crate::wire::{be16, be32, push_u16, push_u32, push_bytes};
use crate::wire::compression::{
    CompressionState, spec_write_name, lemma_write_name_len, lemma_write_name_plain, lemma_write_name_shorter,
};
use crate::wire::rdata::{encode_rdata, spec_encode_rdata, spec_rdata_failed_write};
use crate::wire::rdata::basic::{encode_naptr, encode_srv, spec_encode_naptr, spec_encode_soa, spec_encode_srv, spec_naptr_written};
use crate::wire::rdata::dnssec::{
    encode_hip, encode_nsec, encode_rrsig, encode_sig, encode_tkey, encode_tsig, spec_concat_names, spec_encode_hip,
    spec_encode_nsec, spec_encode_rrsig, spec_encode_sig, spec_encode_tkey, spec_encode_tsig,
};
use crate::wire::rdata::legacy::{
    encode_afsdb, encode_nsapptr, encode_nxt, encode_px, encode_rp, encode_rt, spec_encode_afsdb, spec_encode_nsapptr,
    spec_encode_nxt, spec_encode_px, spec_encode_rp, spec_encode_rt,
};
use crate::wire::rdata::service::{
    encode_https, encode_kx, encode_lp, encode_svcb, spec_encode_kx, spec_encode_lp, spec_encode_svcb,
    spec_svcb_failed_write,
};
use crate::wire::rdata_len::{spec_rdata_bytes_len, spec_names_len, lemma_concat_names_first, lemma_bytes_len_matches_encoding};

verus! {

/// The compression state after names written in full one after the other
/// from message position `pos` are recorded.
pub open spec fn spec_record_names(ns: Seq<Seq<u8>>, st: (bool, Map<Seq<u8>, u16>), pos: int) -> (
    bool,
    Map<Seq<u8>, u16>,
)
    decreases ns.len(),
{
    if ns.len() == 0 {
        st
    } else {
        spec_record_names(ns.drop_first(), spec_write_name(ns[0], st, false, pos).1, pos + ns[0].len())
    }
}

/// The compression state after the names of `d`, written in full from
/// message position `pos`, are recorded: for the types whose names are not
/// compressed.
pub open spec fn spec_rdata_recorded(d: RData, st: (bool, Map<Seq<u8>, u16>), pos: int) -> (bool, Map<Seq<u8>, u16>) {
    match d {
        RData::NSAPPTR(x) => spec_write_name(x.0@, st, false, pos).1,
        RData::RP(x) => spec_write_name(x.txt@, spec_write_name(x.mbox@, st, false, pos).1, false, pos + x.mbox@.len()).1,
        RData::AFSDB(x) => spec_write_name(x.hostname@, st, false, pos + 2).1,
        RData::RT(x) => spec_write_name(x.host@, st, false, pos + 2).1,
        RData::KX(x) => spec_write_name(x.exchanger@, st, false, pos + 2).1,
        RData::LP(x) => spec_write_name(x.fqdn@, st, false, pos + 2).1,
        RData::PX(x) => spec_write_name(x.mapx400@, spec_write_name(x.map822@, st, false, pos + 2).1, false, pos + 2 + x.map822@.len()).1,
        RData::SRV(x) => spec_write_name(x.target@, st, false, pos + 6).1,
        RData::RRSIG(x) => spec_write_name(x.signer_name@, st, false, pos + 18).1,
        RData::SIG(x) => spec_write_name(x.0.signer_name@, st, false, pos + 18).1,
        RData::NSEC(x) => spec_write_name(x.next_domain@, st, false, pos).1,
        RData::NXT(x) => spec_write_name(x.0.next_domain@, st, false, pos).1,
        RData::TKEY(x) => spec_write_name(x.algorithm@, st, false, pos).1,
        RData::TSIG(x) => spec_write_name(x.algorithm@, st, false, pos).1,
        RData::NAPTR(x) => spec_write_name(x.replacement@, st, false, pos + 7 + x.flags@.len() + x.services@.len() + x.regexp@.len()).1,
        RData::SVCB(x) => spec_write_name(x.target@, st, false, pos + 2).1,
        RData::HTTPS(x) => spec_write_name(x.0.target@, st, false, pos + 2).1,
        RData::HIP(x) => spec_record_names(x@.3, st, pos + 4 + x.hit@.len() + x.public_key@.len()),
        _ => st,
    }
}

/// The names of `d` are well-formed.
pub open spec fn spec_rdata_names_ok(d: RData) -> bool {
    match d {
        RData::NSAPPTR(x) => name_wire_ok(x.0@),
        RData::RP(x) => name_wire_ok(x.mbox@) && name_wire_ok(x.txt@),
        RData::AFSDB(x) => name_wire_ok(x.hostname@),
        RData::RT(x) => name_wire_ok(x.host@),
        RData::KX(x) => name_wire_ok(x.exchanger@),
        RData::LP(x) => name_wire_ok(x.fqdn@),
        RData::PX(x) => name_wire_ok(x.map822@) && name_wire_ok(x.mapx400@),
        RData::SRV(x) => name_wire_ok(x.target@),
        RData::RRSIG(x) => name_wire_ok(x.signer_name@),
        RData::SIG(x) => name_wire_ok(x.0.signer_name@),
        RData::NSEC(x) => name_wire_ok(x.next_domain@),
        RData::NXT(x) => name_wire_ok(x.0.next_domain@),
        RData::TKEY(x) => name_wire_ok(x.algorithm@),
        RData::TSIG(x) => name_wire_ok(x.algorithm@),
        RData::NAPTR(x) => name_wire_ok(x.replacement@),
        RData::CNAME(x) => name_wire_ok(x.0@),
        RData::NS(x) => name_wire_ok(x.0@),
        RData::MD(x) => name_wire_ok(x.0@),
        RData::MF(x) => name_wire_ok(x.0@),
        RData::PTR(x) => name_wire_ok(x.0@),
        RData::MB(x) => name_wire_ok(x.0@),
        RData::MG(x) => name_wire_ok(x.0@),
        RData::MR(x) => name_wire_ok(x.0@),
        RData::DNAME(x) => name_wire_ok(x.0@),
        RData::ANAME(x) => name_wire_ok(x.0@),
        RData::MINFO(x) => name_wire_ok(x.rmail@) && name_wire_ok(x.email@),
        RData::TALINK(x) => name_wire_ok(x.previous_name@) && name_wire_ok(x.next_name@),
        RData::MX(x) => name_wire_ok(x.exchange@),
        RData::SOA(x) => name_wire_ok(x.mname@) && name_wire_ok(x.rname@),
        RData::A6(x) => match x.prefix_name {
            Some(n) => name_wire_ok(n@),
            None => true,
        },
        RData::SVCB(x) => name_wire_ok(x.target@),
        RData::HTTPS(x) => name_wire_ok(x.0.target@),
        RData::HIP(x) => forall|i: int| 0 <= i < x@.3.len() ==> name_wire_ok(#[trigger] x@.3[i]),
        _ => true,
    }
}

/// Bytes written for `d` at message position `pos` with compression state
/// `st`, and the state afterwards; `None` when `d` cannot be written.  The
/// names of the types RFC 3597 allows to compress go through
/// [`spec_write_name`] with compression; every other type is written as
/// [`spec_encode_rdata`] gives it, its names recorded.
pub open spec fn spec_rdata_compressed(d: RData, st: (bool, Map<Seq<u8>, u16>), pos: int) -> Option<(
    Seq<u8>,
    (bool, Map<Seq<u8>, u16>),
)> {
    match d {
        RData::CNAME(x) => Some(spec_write_name(x.0@, st, true, pos)),
        RData::NS(x) => Some(spec_write_name(x.0@, st, true, pos)),
        RData::MD(x) => Some(spec_write_name(x.0@, st, true, pos)),
        RData::MF(x) => Some(spec_write_name(x.0@, st, true, pos)),
        RData::PTR(x) => Some(spec_write_name(x.0@, st, true, pos)),
        RData::MB(x) => Some(spec_write_name(x.0@, st, true, pos)),
        RData::MG(x) => Some(spec_write_name(x.0@, st, true, pos)),
        RData::MR(x) => Some(spec_write_name(x.0@, st, true, pos)),
        RData::DNAME(x) => Some(spec_write_name(x.0@, st, true, pos)),
        RData::ANAME(x) => Some(spec_write_name(x.0@, st, true, pos)),
        RData::MINFO(x) => {
            let a = spec_write_name(x.rmail@, st, true, pos);
            let b = spec_write_name(x.email@, a.1, true, pos + a.0.len());
            Some((a.0 + b.0, b.1))
        },
        RData::TALINK(x) => {
            let a = spec_write_name(x.previous_name@, st, true, pos);
            let b = spec_write_name(x.next_name@, a.1, true, pos + a.0.len());
            Some((a.0 + b.0, b.1))
        },
        RData::MX(x) => {
            let a = spec_write_name(x.exchange@, st, true, pos + 2);
            Some((be16(x.preference) + a.0, a.1))
        },
        RData::SOA(x) => {
            let a = spec_write_name(x.mname@, st, true, pos);
            let b = spec_write_name(x.rname@, a.1, true, pos + a.0.len());
            Some((a.0 + b.0 + spec_soa_counters(x@), b.1))
        },
        RData::A6(x) => match x.prefix_name {
            Some(n) => {
                let a = spec_write_name(n@, st, true, pos + 1 + x.suffix@.len());
                Some((seq![x.prefix_len] + x.suffix@ + a.0, a.1))
            },
            None => Some((seq![x.prefix_len] + x.suffix@, st)),
        },
        _ => match spec_encode_rdata(d) {
            Some(b) => Some((b, spec_rdata_recorded(d, st, pos))),
            None => None,
        },
    }
}

/// The five SOA counters after the two names.
pub open spec fn spec_soa_counters(v: (Seq<u8>, Seq<u8>, u32, i32, i32, i32, u32)) -> Seq<u8> {
    be32(v.2) + be32(v.3 as u32) + be32(v.4 as u32) + be32(v.5 as u32) + be32(v.6)
}

/// The compression state after a failed write of `d`: an SVCB or HTTPS
/// target is written before the parameters that fail, and is recorded.
pub open spec fn spec_rdata_failed_state(d: RData, st: (bool, Map<Seq<u8>, u16>), pos: int) -> (
    bool,
    Map<Seq<u8>, u16>,
) {
    match d {
        RData::SVCB(x) => spec_write_name(x.target@, st, false, pos + 2).1,
        RData::HTTPS(x) => spec_write_name(x.0.target@, st, false, pos + 2).1,
        _ => st,
    }
}

/// What sizing with recording on and writing with compression agree on.
pub open spec fn spec_compressed_len_law(d: RData, st: (bool, Map<Seq<u8>, u16>), pos: int) -> bool {
    &&& spec_rdata_compressed(d, st, pos) is Some
    &&& spec_rdata_compressed(d, st, pos).unwrap().0.len() == spec_rdata_bytes_len(d, (st.0, st.1.dom())).0
    &&& spec_rdata_compressed(d, st, pos).unwrap().1.0 == st.0
    &&& spec_rdata_compressed(d, st, pos).unwrap().1.1.dom() == spec_rdata_bytes_len(d, (st.0, st.1.dom())).1.1
    &&& spec_rdata_bytes_len(d, (st.0, st.1.dom())).1.0 == st.0
}

fn compressed_nsapptr(value: &NSAPPTR, state: &mut CompressionState, out: &mut Vec<u8>)
    ensures
        final(out)@ == old(out)@ + spec_encode_nsapptr(value@),
        final(state)@ == spec_write_name(value.0@, old(state)@, false, old(out)@.len() as int).1,
{
    let start = out.len();
    let _ = encode_nsapptr(value, out);
    let end = out.len();
    proof {
        assert(end == out@.len());
    }
    state.record_suffixes(&value.0, start);
}

fn compressed_rp(value: &RP, state: &mut CompressionState, out: &mut Vec<u8>)
    ensures
        final(out)@ == old(out)@ + spec_encode_rp(value@),
        final(state)@ == spec_write_name(value.txt@, spec_write_name(value.mbox@, old(state)@, false, old(out)@.len() as int).1, false, old(out)@.len() as int + value.mbox@.len()).1,
{
    let start = out.len();
    let _ = encode_rp(value, out);
    let end = out.len();
    proof {
        assert(end == out@.len());
    }
    state.record_suffixes(&value.mbox, start);
    state.record_suffixes(&value.txt, start + value.mbox.bytes_len());
}

fn compressed_afsdb(value: &AFSDB, state: &mut CompressionState, out: &mut Vec<u8>)
    ensures
        final(out)@ == old(out)@ + spec_encode_afsdb(value@),
        final(state)@ == spec_write_name(value.hostname@, old(state)@, false, old(out)@.len() as int + 2).1,
{
    let start = out.len();
    let _ = encode_afsdb(value, out);
    let end = out.len();
    proof {
        assert(end == out@.len());
    }
    state.record_suffixes(&value.hostname, start + 2);
}

fn compressed_rt(value: &RT, state: &mut CompressionState, out: &mut Vec<u8>)
    ensures
        final(out)@ == old(out)@ + spec_encode_rt(value@),
        final(state)@ == spec_write_name(value.host@, old(state)@, false, old(out)@.len() as int + 2).1,
{
    let start = out.len();
    let _ = encode_rt(value, out);
    let end = out.len();
    proof {
        assert(end == out@.len());
    }
    state.record_suffixes(&value.host, start + 2);
}

fn compressed_kx(value: &KX, state: &mut CompressionState, out: &mut Vec<u8>)
    ensures
        final(out)@ == old(out)@ + spec_encode_kx(value@),
        final(state)@ == spec_write_name(value.exchanger@, old(state)@, false, old(out)@.len() as int + 2).1,
{
    let start = out.len();
    let _ = encode_kx(value, out);
    let end = out.len();
    proof {
        assert(end == out@.len());
    }
    state.record_suffixes(&value.exchanger, start + 2);
}

fn compressed_lp(value: &LP, state: &mut CompressionState, out: &mut Vec<u8>)
    ensures
        final(out)@ == old(out)@ + spec_encode_lp(value@),
        final(state)@ == spec_write_name(value.fqdn@, old(state)@, false, old(out)@.len() as int + 2).1,
{
    let start = out.len();
    let _ = encode_lp(value, out);
    let end = out.len();
    proof {
        assert(end == out@.len());
    }
    state.record_suffixes(&value.fqdn, start + 2);
}

fn compressed_px(value: &PX, state: &mut CompressionState, out: &mut Vec<u8>)
    ensures
        final(out)@ == old(out)@ + spec_encode_px(value@),
        final(state)@ == spec_write_name(value.mapx400@, spec_write_name(value.map822@, old(state)@, false, old(out)@.len() as int + 2).1, false, old(out)@.len() as int + 2 + value.map822@.len()).1,
{
    let start = out.len();
    let _ = encode_px(value, out);
    let end = out.len();
    proof {
        assert(end == out@.len());
    }
    state.record_suffixes(&value.map822, start + 2);
    state.record_suffixes(&value.mapx400, start + 2 + value.map822.bytes_len());
}

fn compressed_srv(value: &SRV, state: &mut CompressionState, out: &mut Vec<u8>)
    ensures
        final(out)@ == old(out)@ + spec_encode_srv(value@),
        final(state)@ == spec_write_name(value.target@, old(state)@, false, old(out)@.len() as int + 6).1,
{
    let start = out.len();
    let _ = encode_srv(value, out);
    let end = out.len();
    proof {
        assert(end == out@.len());
    }
    state.record_suffixes(&value.target, start + 6);
}

fn compressed_rrsig(value: &RRSIG, state: &mut CompressionState, out: &mut Vec<u8>)
    ensures
        final(out)@ == old(out)@ + spec_encode_rrsig(value@),
        final(state)@ == spec_write_name(value.signer_name@, old(state)@, false, old(out)@.len() as int + 18).1,
{
    let start = out.len();
    let _ = encode_rrsig(value, out);
    let end = out.len();
    proof {
        assert(end == out@.len());
    }
    state.record_suffixes(&value.signer_name, start + 18);
}

fn compressed_sig(value: &SIG, state: &mut CompressionState, out: &mut Vec<u8>)
    ensures
        final(out)@ == old(out)@ + spec_encode_sig(value@),
        final(state)@ == spec_write_name(value.0.signer_name@, old(state)@, false, old(out)@.len() as int + 18).1,
{
    let start = out.len();
    let _ = encode_sig(value, out);
    let end = out.len();
    proof {
        assert(end == out@.len());
    }
    state.record_suffixes(&value.0.signer_name, start + 18);
}

fn compressed_nsec(value: &NSEC, state: &mut CompressionState, out: &mut Vec<u8>)
    ensures
        final(out)@ == old(out)@ + spec_encode_nsec(value@),
        final(state)@ == spec_write_name(value.next_domain@, old(state)@, false, old(out)@.len() as int).1,
{
    let start = out.len();
    let _ = encode_nsec(value, out);
    let end = out.len();
    proof {
        assert(end == out@.len());
    }
    state.record_suffixes(&value.next_domain, start);
}

fn compressed_nxt(value: &NXT, state: &mut CompressionState, out: &mut Vec<u8>)
    ensures
        final(out)@ == old(out)@ + spec_encode_nxt(value@),
        final(state)@ == spec_write_name(value.0.next_domain@, old(state)@, false, old(out)@.len() as int).1,
{
    let start = out.len();
    let _ = encode_nxt(value, out);
    let end = out.len();
    proof {
        assert(end == out@.len());
    }
    state.record_suffixes(&value.0.next_domain, start);
}

fn compressed_tkey(value: &TKEY, state: &mut CompressionState, out: &mut Vec<u8>)
    ensures
        final(out)@ == old(out)@ + spec_encode_tkey(value@),
        final(state)@ == spec_write_name(value.algorithm@, old(state)@, false, old(out)@.len() as int).1,
{
    let start = out.len();
    let _ = encode_tkey(value, out);
    let end = out.len();
    proof {
        assert(end == out@.len());
    }
    state.record_suffixes(&value.algorithm, start);
}

fn compressed_tsig(value: &TSIG, state: &mut CompressionState, out: &mut Vec<u8>)
    ensures
        final(out)@ == old(out)@ + spec_encode_tsig(value@),
        final(state)@ == spec_write_name(value.algorithm@, old(state)@, false, old(out)@.len() as int).1,
{
    let start = out.len();
    let _ = encode_tsig(value, out);
    let end = out.len();
    proof {
        assert(end == out@.len());
    }
    state.record_suffixes(&value.algorithm, start);
}

fn compressed_naptr(value: &NAPTR, state: &mut CompressionState, out: &mut Vec<u8>) -> (r: Result<(), ProtoError>)
    ensures
        match spec_encode_naptr(value@) {
            Some(b) => r is Ok && final(out)@ == old(out)@ + b && final(state)@ == spec_write_name(value.replacement@, old(state)@, false, old(out)@.len() as int + 7 + value.flags@.len() + value.services@.len() + value.regexp@.len()).1,
            None => r is Err && final(out)@ == old(out)@ + spec_naptr_written(value@) && final(state)@ == old(state)@,
        },
{
    let start = out.len();
    let r = encode_naptr(value, out);
    if r.is_err() {
        return r;
    }
    let end = out.len();
    proof {
        assert(end == out@.len());
    }
    state.record_suffixes(&value.replacement, start + 7 + value.flags.len() + value.services.len() + value.regexp.len());
    r
}

fn compressed_cname(value: &CNAME, state: &mut CompressionState, out: &mut Vec<u8>)
    ensures
        final(out)@ == old(out)@ + spec_write_name(value.0@, old(state)@, true, old(out)@.len() as int).0,
        final(state)@ == spec_write_name(value.0@, old(state)@, true, old(out)@.len() as int).1,
{
    state.write_name(&value.0, true, out);
}

fn compressed_ns(value: &NS, state: &mut CompressionState, out: &mut Vec<u8>)
    ensures
        final(out)@ == old(out)@ + spec_write_name(value.0@, old(state)@, true, old(out)@.len() as int).0,
        final(state)@ == spec_write_name(value.0@, old(state)@, true, old(out)@.len() as int).1,
{
    state.write_name(&value.0, true, out);
}

fn compressed_md(value: &MD, state: &mut CompressionState, out: &mut Vec<u8>)
    ensures
        final(out)@ == old(out)@ + spec_write_name(value.0@, old(state)@, true, old(out)@.len() as int).0,
        final(state)@ == spec_write_name(value.0@, old(state)@, true, old(out)@.len() as int).1,
{
    state.write_name(&value.0, true, out);
}

fn compressed_mf(value: &MF, state: &mut CompressionState, out: &mut Vec<u8>)
    ensures
        final(out)@ == old(out)@ + spec_write_name(value.0@, old(state)@, true, old(out)@.len() as int).0,
        final(state)@ == spec_write_name(value.0@, old(state)@, true, old(out)@.len() as int).1,
{
    state.write_name(&value.0, true, out);
}

fn compressed_ptr(value: &PTR, state: &mut CompressionState, out: &mut Vec<u8>)
    ensures
        final(out)@ == old(out)@ + spec_write_name(value.0@, old(state)@, true, old(out)@.len() as int).0,
        final(state)@ == spec_write_name(value.0@, old(state)@, true, old(out)@.len() as int).1,
{
    state.write_name(&value.0, true, out);
}

fn compressed_mb(value: &MB, state: &mut CompressionState, out: &mut Vec<u8>)
    ensures
        final(out)@ == old(out)@ + spec_write_name(value.0@, old(state)@, true, old(out)@.len() as int).0,
        final(state)@ == spec_write_name(value.0@, old(state)@, true, old(out)@.len() as int).1,
{
    state.write_name(&value.0, true, out);
}

fn compressed_mg(value: &MG, state: &mut CompressionState, out: &mut Vec<u8>)
    ensures
        final(out)@ == old(out)@ + spec_write_name(value.0@, old(state)@, true, old(out)@.len() as int).0,
        final(state)@ == spec_write_name(value.0@, old(state)@, true, old(out)@.len() as int).1,
{
    state.write_name(&value.0, true, out);
}

fn compressed_mr(value: &MR, state: &mut CompressionState, out: &mut Vec<u8>)
    ensures
        final(out)@ == old(out)@ + spec_write_name(value.0@, old(state)@, true, old(out)@.len() as int).0,
        final(state)@ == spec_write_name(value.0@, old(state)@, true, old(out)@.len() as int).1,
{
    state.write_name(&value.0, true, out);
}

fn compressed_dname(value: &DNAME, state: &mut CompressionState, out: &mut Vec<u8>)
    ensures
        final(out)@ == old(out)@ + spec_write_name(value.0@, old(state)@, true, old(out)@.len() as int).0,
        final(state)@ == spec_write_name(value.0@, old(state)@, true, old(out)@.len() as int).1,
{
    state.write_name(&value.0, true, out);
}

fn compressed_aname(value: &ANAME, state: &mut CompressionState, out: &mut Vec<u8>)
    ensures
        final(out)@ == old(out)@ + spec_write_name(value.0@, old(state)@, true, old(out)@.len() as int).0,
        final(state)@ == spec_write_name(value.0@, old(state)@, true, old(out)@.len() as int).1,
{
    state.write_name(&value.0, true, out);
}

fn compressed_minfo(value: &MINFO, state: &mut CompressionState, out: &mut Vec<u8>)
    ensures
        ({
            let a = spec_write_name(value.rmail@, old(state)@, true, old(out)@.len() as int);
            let b = spec_write_name(value.email@, a.1, true, old(out)@.len() as int + a.0.len());
            final(out)@ == old(out)@ + a.0 + b.0 && final(state)@ == b.1
        }),
{
    state.write_name(&value.rmail, true, out);
    state.write_name(&value.email, true, out);
}

fn compressed_talink(value: &TALINK, state: &mut CompressionState, out: &mut Vec<u8>)
    ensures
        ({
            let a = spec_write_name(value.previous_name@, old(state)@, true, old(out)@.len() as int);
            let b = spec_write_name(value.next_name@, a.1, true, old(out)@.len() as int + a.0.len());
            final(out)@ == old(out)@ + a.0 + b.0 && final(state)@ == b.1
        }),
{
    state.write_name(&value.previous_name, true, out);
    state.write_name(&value.next_name, true, out);
}

fn compressed_mx(value: &MX, state: &mut CompressionState, out: &mut Vec<u8>)
    ensures
        ({
            let a = spec_write_name(value.exchange@, old(state)@, true, old(out)@.len() as int + 2);
            final(out)@ == old(out)@ + be16(value.preference) + a.0 && final(state)@ == a.1
        }),
{
    push_u16(out, value.preference);
    state.write_name(&value.exchange, true, out);
}

fn compressed_soa(value: &SOA, state: &mut CompressionState, out: &mut Vec<u8>)
    ensures
        ({
            let a = spec_write_name(value.mname@, old(state)@, true, old(out)@.len() as int);
            let b = spec_write_name(value.rname@, a.1, true, old(out)@.len() as int + a.0.len());
            final(out)@ == old(out)@ + a.0 + b.0 + spec_soa_counters(value@) && final(state)@ == b.1
        }),
{
    let ghost o = old(out)@;
    state.write_name(&value.mname, true, out);
    state.write_name(&value.rname, true, out);
    let ghost mid = out@;
    push_u32(out, value.serial);
    push_u32(out, value.refresh as u32);
    push_u32(out, value.retry as u32);
    push_u32(out, value.expire as u32);
    push_u32(out, value.minimum);
    proof {
        assert(out@ =~= mid + spec_soa_counters(value@));
    }
}

fn compressed_a6(value: &A6, state: &mut CompressionState, out: &mut Vec<u8>)
    ensures
        match value.prefix_name {
            Some(n) => {
                let a = spec_write_name(n@, old(state)@, true, old(out)@.len() as int + 1 + value.suffix@.len());
                final(out)@ == old(out)@ + seq![value.prefix_len] + value.suffix@ + a.0 && final(state)@ == a.1
            },
            None => final(out)@ == old(out)@ + seq![value.prefix_len] + value.suffix@ && final(state)@ == old(state)@,
        },
{
    let ghost o = old(out)@;
    out.push(value.prefix_len);
    push_bytes(out, value.suffix.as_slice());
    proof {
        assert(out@ =~= o + seq![value.prefix_len] + value.suffix@);
    }
    if let Some(n) = &value.prefix_name {
        state.write_name(n, true, out);
    }
}

fn compressed_svcb(value: &SVCB, state: &mut CompressionState, out: &mut Vec<u8>) -> (r: Result<(), ProtoError>)
    ensures
        final(state)@ == spec_write_name(value.target@, old(state)@, false, old(out)@.len() as int + 2).1,
        match spec_encode_svcb(value@) {
            Some(b) => r is Ok && final(out)@ == old(out)@ + b,
            None => r is Err && spec_svcb_failed_write(value@, old(out)@, final(out)@),
        },
{
    let start = out.len();
    let ghost o = old(out)@;
    let r = encode_svcb(value, out);
    let end = out.len();
    proof {
        match spec_encode_svcb(value@) {
            Some(b) => {},
            None => lemma_svcb_failed_len(value@, o, out@),
        }
    }
    state.record_suffixes(&value.target, start + 2);
    r
}

fn compressed_https(value: &HTTPS, state: &mut CompressionState, out: &mut Vec<u8>) -> (r: Result<(), ProtoError>)
    ensures
        final(state)@ == spec_write_name(value.0.target@, old(state)@, false, old(out)@.len() as int + 2).1,
        match spec_encode_svcb(value@) {
            Some(b) => r is Ok && final(out)@ == old(out)@ + b,
            None => r is Err && spec_svcb_failed_write(value@, old(out)@, final(out)@),
        },
{
    compressed_svcb(&value.0, state, out)
}

fn compressed_hip(value: &HIP, state: &mut CompressionState, out: &mut Vec<u8>)
    ensures
        final(out)@ == old(out)@ + spec_encode_hip(value@),
        final(state)@ == spec_record_names(
            value@.3,
            old(state)@,
            old(out)@.len() as int + 4 + value.hit@.len() + value.public_key@.len(),
        ),
{
    let start = out.len();
    let _ = encode_hip(value, out);
    let end = out.len();
    proof {
        assert(end == out@.len());
    }
    let ghost ns = value@.3;
    let ghost st0 = old(state)@;
    let ghost base = start + 4 + value.hit@.len() + value.public_key@.len();
    let mut p = start + 4 + value.hit.len() + value.public_key.len();
    let mut i: usize = 0;
    proof {
        assert(ns.skip(0) =~= ns);
    }
    while i < value.rendezvous_servers.len()
        invariant
            ns == value@.3,
            ns.len() == value.rendezvous_servers@.len(),
            i <= ns.len(),
            p + spec_concat_names(ns.skip(i as int)).len() == out@.len(),
            end == out@.len(),
            spec_record_names(ns, st0, base) == spec_record_names(ns.skip(i as int), state@, p as int),
        decreases value.rendezvous_servers.len() - i,
    {
        let n = &value.rendezvous_servers[i];
        proof {
            lemma_concat_names_first(ns.skip(i as int));
            assert(ns.skip(i as int).drop_first() =~= ns.skip(i + 1));
            assert(ns.skip(i as int)[0] == ns[i as int]);
            assert(n@ == ns[i as int]);
        }
        state.record_suffixes(n, p);
        p = p + n.bytes_len();
        i = i + 1;
    }
    proof {
        assert(ns.skip(ns.len() as int) =~= Seq::<Seq<u8>>::empty());
    }
}

proof fn lemma_svcb_failed_len(v: (u16, Seq<u8>, Seq<(u16, Seq<u8>)>), before: Seq<u8>, after: Seq<u8>)
    requires
        spec_svcb_failed_write(v, before, after),
    ensures
        after.len() >= before.len() + 2 + v.1.len(),
{
}

/// Append `rdata` to the message `out` at its current end, compressing the
/// names of the types RFC 3597 allows to compress against the suffixes
/// recorded in `state`, and recording the suffixes of every name written.
/// On failure what was written before the offending field stays.
#[verifier::rlimit(100)]
pub fn encode_rdata_compressed(rdata: &RData, state: &mut CompressionState, out: &mut Vec<u8>) -> (r: Result<
    (),
    ProtoError,
>)
    ensures
        match spec_rdata_compressed(*rdata, old(state)@, old(out)@.len() as int) {
            Some((b, st)) => r is Ok && final(out)@ == old(out)@ + b && final(state)@ == st,
            None => r is Err && spec_rdata_failed_write(*rdata, old(out)@, final(out)@) && final(state)@
                == spec_rdata_failed_state(*rdata, old(state)@, old(out)@.len() as int),
        },
{
    match rdata {
        RData::NSAPPTR(value) => {
            compressed_nsapptr(value, state, out);
            Ok(())
        },
        RData::RP(value) => {
            compressed_rp(value, state, out);
            Ok(())
        },
        RData::AFSDB(value) => {
            compressed_afsdb(value, state, out);
            Ok(())
        },
        RData::RT(value) => {
            compressed_rt(value, state, out);
            Ok(())
        },
        RData::KX(value) => {
            compressed_kx(value, state, out);
            Ok(())
        },
        RData::LP(value) => {
            compressed_lp(value, state, out);
            Ok(())
        },
        RData::PX(value) => {
            compressed_px(value, state, out);
            Ok(())
        },
        RData::SRV(value) => {
            compressed_srv(value, state, out);
            Ok(())
        },
        RData::RRSIG(value) => {
            compressed_rrsig(value, state, out);
            Ok(())
        },
        RData::SIG(value) => {
            compressed_sig(value, state, out);
            Ok(())
        },
        RData::NSEC(value) => {
            compressed_nsec(value, state, out);
            Ok(())
        },
        RData::NXT(value) => {
            compressed_nxt(value, state, out);
            Ok(())
        },
        RData::TKEY(value) => {
            compressed_tkey(value, state, out);
            Ok(())
        },
        RData::TSIG(value) => {
            compressed_tsig(value, state, out);
            Ok(())
        },
        RData::NAPTR(value) => compressed_naptr(value, state, out),
        RData::CNAME(value) => {
            compressed_cname(value, state, out);
            Ok(())
        },
        RData::NS(value) => {
            compressed_ns(value, state, out);
            Ok(())
        },
        RData::MD(value) => {
            compressed_md(value, state, out);
            Ok(())
        },
        RData::MF(value) => {
            compressed_mf(value, state, out);
            Ok(())
        },
        RData::PTR(value) => {
            compressed_ptr(value, state, out);
            Ok(())
        },
        RData::MB(value) => {
            compressed_mb(value, state, out);
            Ok(())
        },
        RData::MG(value) => {
            compressed_mg(value, state, out);
            Ok(())
        },
        RData::MR(value) => {
            compressed_mr(value, state, out);
            Ok(())
        },
        RData::DNAME(value) => {
            compressed_dname(value, state, out);
            Ok(())
        },
        RData::ANAME(value) => {
            compressed_aname(value, state, out);
            Ok(())
        },
        RData::MINFO(value) => {
            compressed_minfo(value, state, out);
            Ok(())
        },
        RData::TALINK(value) => {
            compressed_talink(value, state, out);
            Ok(())
        },
        RData::MX(value) => {
            compressed_mx(value, state, out);
            Ok(())
        },
        RData::SOA(value) => {
            compressed_soa(value, state, out);
            Ok(())
        },
        RData::A6(value) => {
            compressed_a6(value, state, out);
            Ok(())
        },
        RData::SVCB(value) => compressed_svcb(value, state, out),
        RData::HTTPS(value) => compressed_https(value, state, out),
        RData::HIP(value) => {
            compressed_hip(value, state, out);
            Ok(())
        },
        _ => encode_rdata(rdata, out),
    }
}

proof fn lemma_record_names_len(ns: Seq<Seq<u8>>, st: (bool, Map<Seq<u8>, u16>), pos: int)
    requires
        forall|i: int| 0 <= i < ns.len() ==> name_wire_ok(#[trigger] ns[i]),
        0 <= pos,
        pos + spec_concat_names(ns).len() <= 0x4000,
    ensures
        spec_names_len(ns, (st.0, st.1.dom()), false).0 == spec_concat_names(ns).len(),
        spec_names_len(ns, (st.0, st.1.dom()), false).1 == (st.0, spec_record_names(ns, st, pos).1.dom()),
        spec_record_names(ns, st, pos).0 == st.0,
    decreases ns.len(),
{
    if ns.len() > 0 {
        lemma_concat_names_first(ns);
        assert(name_wire_ok(ns[0]));
        lemma_write_name_len(ns[0], st, false, pos);
        lemma_write_name_plain(ns[0], st, pos);
        let st1 = spec_write_name(ns[0], st, false, pos).1;
        let t = ns.drop_first();
        assert forall|i: int| 0 <= i < t.len() implies name_wire_ok(#[trigger] t[i]) by {
            assert(t[i] == ns[i + 1]);
        }
        lemma_record_names_len(t, st1, pos + ns[0].len());
    }
}

proof fn lemma_compressed_len_nsapptr(x: NSAPPTR, st: (bool, Map<Seq<u8>, u16>), pos: int)
    requires
        spec_encode_rdata(RData::NSAPPTR(x)) is Some,
        spec_rdata_names_ok(RData::NSAPPTR(x)),
        0 <= pos,
        pos + spec_encode_rdata(RData::NSAPPTR(x)).unwrap().len() <= 0x4000,
    ensures
        spec_compressed_len_law(RData::NSAPPTR(x), st, pos),
{
    lemma_bytes_len_matches_encoding(RData::NSAPPTR(x), st.1.dom());
    lemma_write_name_len(x.0@, st, false, pos);
    lemma_write_name_plain(x.0@, st, pos);
}

proof fn lemma_compressed_len_rp(x: RP, st: (bool, Map<Seq<u8>, u16>), pos: int)
    requires
        spec_encode_rdata(RData::RP(x)) is Some,
        spec_rdata_names_ok(RData::RP(x)),
        0 <= pos,
        pos + spec_encode_rdata(RData::RP(x)).unwrap().len() <= 0x4000,
    ensures
        spec_compressed_len_law(RData::RP(x), st, pos),
{
    lemma_bytes_len_matches_encoding(RData::RP(x), st.1.dom());
    lemma_write_name_len(x.mbox@, st, false, pos);
    lemma_write_name_plain(x.mbox@, st, pos);
    lemma_write_name_len(x.txt@, spec_write_name(x.mbox@, st, false, pos).1, false, pos + x.mbox@.len());
    lemma_write_name_plain(x.txt@, spec_write_name(x.mbox@, st, false, pos).1, pos + x.mbox@.len());
}

proof fn lemma_compressed_len_afsdb(x: AFSDB, st: (bool, Map<Seq<u8>, u16>), pos: int)
    requires
        spec_encode_rdata(RData::AFSDB(x)) is Some,
        spec_rdata_names_ok(RData::AFSDB(x)),
        0 <= pos,
        pos + spec_encode_rdata(RData::AFSDB(x)).unwrap().len() <= 0x4000,
    ensures
        spec_compressed_len_law(RData::AFSDB(x), st, pos),
{
    lemma_bytes_len_matches_encoding(RData::AFSDB(x), st.1.dom());
    lemma_write_name_len(x.hostname@, st, false, pos + 2);
    lemma_write_name_plain(x.hostname@, st, pos + 2);
}

proof fn lemma_compressed_len_rt(x: RT, st: (bool, Map<Seq<u8>, u16>), pos: int)
    requires
        spec_encode_rdata(RData::RT(x)) is Some,
        spec_rdata_names_ok(RData::RT(x)),
        0 <= pos,
        pos + spec_encode_rdata(RData::RT(x)).unwrap().len() <= 0x4000,
    ensures
        spec_compressed_len_law(RData::RT(x), st, pos),
{
    lemma_bytes_len_matches_encoding(RData::RT(x), st.1.dom());
    lemma_write_name_len(x.host@, st, false, pos + 2);
    lemma_write_name_plain(x.host@, st, pos + 2);
}

proof fn lemma_compressed_len_kx(x: KX, st: (bool, Map<Seq<u8>, u16>), pos: int)
    requires
        spec_encode_rdata(RData::KX(x)) is Some,
        spec_rdata_names_ok(RData::KX(x)),
        0 <= pos,
        pos + spec_encode_rdata(RData::KX(x)).unwrap().len() <= 0x4000,
    ensures
        spec_compressed_len_law(RData::KX(x), st, pos),
{
    lemma_bytes_len_matches_encoding(RData::KX(x), st.1.dom());
    lemma_write_name_len(x.exchanger@, st, false, pos + 2);
    lemma_write_name_plain(x.exchanger@, st, pos + 2);
}

proof fn lemma_compressed_len_lp(x: LP, st: (bool, Map<Seq<u8>, u16>), pos: int)
    requires
        spec_encode_rdata(RData::LP(x)) is Some,
        spec_rdata_names_ok(RData::LP(x)),
        0 <= pos,
        pos + spec_encode_rdata(RData::LP(x)).unwrap().len() <= 0x4000,
    ensures
        spec_compressed_len_law(RData::LP(x), st, pos),
{
    lemma_bytes_len_matches_encoding(RData::LP(x), st.1.dom());
    lemma_write_name_len(x.fqdn@, st, false, pos + 2);
    lemma_write_name_plain(x.fqdn@, st, pos + 2);
}

proof fn lemma_compressed_len_px(x: PX, st: (bool, Map<Seq<u8>, u16>), pos: int)
    requires
        spec_encode_rdata(RData::PX(x)) is Some,
        spec_rdata_names_ok(RData::PX(x)),
        0 <= pos,
        pos + spec_encode_rdata(RData::PX(x)).unwrap().len() <= 0x4000,
    ensures
        spec_compressed_len_law(RData::PX(x), st, pos),
{
    lemma_bytes_len_matches_encoding(RData::PX(x), st.1.dom());
    lemma_write_name_len(x.map822@, st, false, pos + 2);
    lemma_write_name_plain(x.map822@, st, pos + 2);
    lemma_write_name_len(x.mapx400@, spec_write_name(x.map822@, st, false, pos + 2).1, false, pos + 2 + x.map822@.len());
    lemma_write_name_plain(x.mapx400@, spec_write_name(x.map822@, st, false, pos + 2).1, pos + 2 + x.map822@.len());
}

proof fn lemma_compressed_len_srv(x: SRV, st: (bool, Map<Seq<u8>, u16>), pos: int)
    requires
        spec_encode_rdata(RData::SRV(x)) is Some,
        spec_rdata_names_ok(RData::SRV(x)),
        0 <= pos,
        pos + spec_encode_rdata(RData::SRV(x)).unwrap().len() <= 0x4000,
    ensures
        spec_compressed_len_law(RData::SRV(x), st, pos),
{
    lemma_bytes_len_matches_encoding(RData::SRV(x), st.1.dom());
    lemma_write_name_len(x.target@, st, false, pos + 6);
    lemma_write_name_plain(x.target@, st, pos + 6);
}

proof fn lemma_compressed_len_rrsig(x: RRSIG, st: (bool, Map<Seq<u8>, u16>), pos: int)
    requires
        spec_encode_rdata(RData::RRSIG(x)) is Some,
        spec_rdata_names_ok(RData::RRSIG(x)),
        0 <= pos,
        pos + spec_encode_rdata(RData::RRSIG(x)).unwrap().len() <= 0x4000,
    ensures
        spec_compressed_len_law(RData::RRSIG(x), st, pos),
{
    lemma_bytes_len_matches_encoding(RData::RRSIG(x), st.1.dom());
    lemma_write_name_len(x.signer_name@, st, false, pos + 18);
    lemma_write_name_plain(x.signer_name@, st, pos + 18);
}

proof fn lemma_compressed_len_sig(x: SIG, st: (bool, Map<Seq<u8>, u16>), pos: int)
    requires
        spec_encode_rdata(RData::SIG(x)) is Some,
        spec_rdata_names_ok(RData::SIG(x)),
        0 <= pos,
        pos + spec_encode_rdata(RData::SIG(x)).unwrap().len() <= 0x4000,
    ensures
        spec_compressed_len_law(RData::SIG(x), st, pos),
{
    lemma_bytes_len_matches_encoding(RData::SIG(x), st.1.dom());
    lemma_write_name_len(x.0.signer_name@, st, false, pos + 18);
    lemma_write_name_plain(x.0.signer_name@, st, pos + 18);
}

proof fn lemma_compressed_len_nsec(x: NSEC, st: (bool, Map<Seq<u8>, u16>), pos: int)
    requires
        spec_encode_rdata(RData::NSEC(x)) is Some,
        spec_rdata_names_ok(RData::NSEC(x)),
        0 <= pos,
        pos + spec_encode_rdata(RData::NSEC(x)).unwrap().len() <= 0x4000,
    ensures
        spec_compressed_len_law(RData::NSEC(x), st, pos),
{
    lemma_bytes_len_matches_encoding(RData::NSEC(x), st.1.dom());
    lemma_write_name_len(x.next_domain@, st, false, pos);
    lemma_write_name_plain(x.next_domain@, st, pos);
}

proof fn lemma_compressed_len_nxt(x: NXT, st: (bool, Map<Seq<u8>, u16>), pos: int)
    requires
        spec_encode_rdata(RData::NXT(x)) is Some,
        spec_rdata_names_ok(RData::NXT(x)),
        0 <= pos,
        pos + spec_encode_rdata(RData::NXT(x)).unwrap().len() <= 0x4000,
    ensures
        spec_compressed_len_law(RData::NXT(x), st, pos),
{
    lemma_bytes_len_matches_encoding(RData::NXT(x), st.1.dom());
    lemma_write_name_len(x.0.next_domain@, st, false, pos);
    lemma_write_name_plain(x.0.next_domain@, st, pos);
}

proof fn lemma_compressed_len_tkey(x: TKEY, st: (bool, Map<Seq<u8>, u16>), pos: int)
    requires
        spec_encode_rdata(RData::TKEY(x)) is Some,
        spec_rdata_names_ok(RData::TKEY(x)),
        0 <= pos,
        pos + spec_encode_rdata(RData::TKEY(x)).unwrap().len() <= 0x4000,
    ensures
        spec_compressed_len_law(RData::TKEY(x), st, pos),
{
    lemma_bytes_len_matches_encoding(RData::TKEY(x), st.1.dom());
    lemma_write_name_len(x.algorithm@, st, false, pos);
    lemma_write_name_plain(x.algorithm@, st, pos);
}

proof fn lemma_compressed_len_tsig(x: TSIG, st: (bool, Map<Seq<u8>, u16>), pos: int)
    requires
        spec_encode_rdata(RData::TSIG(x)) is Some,
        spec_rdata_names_ok(RData::TSIG(x)),
        0 <= pos,
        pos + spec_encode_rdata(RData::TSIG(x)).unwrap().len() <= 0x4000,
    ensures
        spec_compressed_len_law(RData::TSIG(x), st, pos),
{
    lemma_bytes_len_matches_encoding(RData::TSIG(x), st.1.dom());
    lemma_write_name_len(x.algorithm@, st, false, pos);
    lemma_write_name_plain(x.algorithm@, st, pos);
}

proof fn lemma_compressed_len_naptr(x: NAPTR, st: (bool, Map<Seq<u8>, u16>), pos: int)
    requires
        spec_encode_rdata(RData::NAPTR(x)) is Some,
        spec_rdata_names_ok(RData::NAPTR(x)),
        0 <= pos,
        pos + spec_encode_rdata(RData::NAPTR(x)).unwrap().len() <= 0x4000,
    ensures
        spec_compressed_len_law(RData::NAPTR(x), st, pos),
{
    lemma_bytes_len_matches_encoding(RData::NAPTR(x), st.1.dom());
    lemma_write_name_len(x.replacement@, st, false, pos + 7 + x.flags@.len() + x.services@.len() + x.regexp@.len());
    lemma_write_name_plain(x.replacement@, st, pos + 7 + x.flags@.len() + x.services@.len() + x.regexp@.len());
}

proof fn lemma_compressed_len_cname(x: CNAME, st: (bool, Map<Seq<u8>, u16>), pos: int)
    requires
        spec_encode_rdata(RData::CNAME(x)) is Some,
        spec_rdata_names_ok(RData::CNAME(x)),
        0 <= pos,
        pos + spec_encode_rdata(RData::CNAME(x)).unwrap().len() <= 0x4000,
    ensures
        spec_compressed_len_law(RData::CNAME(x), st, pos),
{
    lemma_bytes_len_matches_encoding(RData::CNAME(x), st.1.dom());
    lemma_write_name_len(x.0@, st, true, pos);
}

proof fn lemma_compressed_len_ns(x: NS, st: (bool, Map<Seq<u8>, u16>), pos: int)
    requires
        spec_encode_rdata(RData::NS(x)) is Some,
        spec_rdata_names_ok(RData::NS(x)),
        0 <= pos,
        pos + spec_encode_rdata(RData::NS(x)).unwrap().len() <= 0x4000,
    ensures
        spec_compressed_len_law(RData::NS(x), st, pos),
{
    lemma_bytes_len_matches_encoding(RData::NS(x), st.1.dom());
    lemma_write_name_len(x.0@, st, true, pos);
}

proof fn lemma_compressed_len_md(x: MD, st: (bool, Map<Seq<u8>, u16>), pos: int)
    requires
        spec_encode_rdata(RData::MD(x)) is Some,
        spec_rdata_names_ok(RData::MD(x)),
        0 <= pos,
        pos + spec_encode_rdata(RData::MD(x)).unwrap().len() <= 0x4000,
    ensures
        spec_compressed_len_law(RData::MD(x), st, pos),
{
    lemma_bytes_len_matches_encoding(RData::MD(x), st.1.dom());
    lemma_write_name_len(x.0@, st, true, pos);
}

proof fn lemma_compressed_len_mf(x: MF, st: (bool, Map<Seq<u8>, u16>), pos: int)
    requires
        spec_encode_rdata(RData::MF(x)) is Some,
        spec_rdata_names_ok(RData::MF(x)),
        0 <= pos,
        pos + spec_encode_rdata(RData::MF(x)).unwrap().len() <= 0x4000,
    ensures
        spec_compressed_len_law(RData::MF(x), st, pos),
{
    lemma_bytes_len_matches_encoding(RData::MF(x), st.1.dom());
    lemma_write_name_len(x.0@, st, true, pos);
}

proof fn lemma_compressed_len_ptr(x: PTR, st: (bool, Map<Seq<u8>, u16>), pos: int)
    requires
        spec_encode_rdata(RData::PTR(x)) is Some,
        spec_rdata_names_ok(RData::PTR(x)),
        0 <= pos,
        pos + spec_encode_rdata(RData::PTR(x)).unwrap().len() <= 0x4000,
    ensures
        spec_compressed_len_law(RData::PTR(x), st, pos),
{
    lemma_bytes_len_matches_encoding(RData::PTR(x), st.1.dom());
    lemma_write_name_len(x.0@, st, true, pos);
}

proof fn lemma_compressed_len_mb(x: MB, st: (bool, Map<Seq<u8>, u16>), pos: int)
    requires
        spec_encode_rdata(RData::MB(x)) is Some,
        spec_rdata_names_ok(RData::MB(x)),
        0 <= pos,
        pos + spec_encode_rdata(RData::MB(x)).unwrap().len() <= 0x4000,
    ensures
        spec_compressed_len_law(RData::MB(x), st, pos),
{
    lemma_bytes_len_matches_encoding(RData::MB(x), st.1.dom());
    lemma_write_name_len(x.0@, st, true, pos);
}

proof fn lemma_compressed_len_mg(x: MG, st: (bool, Map<Seq<u8>, u16>), pos: int)
    requires
        spec_encode_rdata(RData::MG(x)) is Some,
        spec_rdata_names_ok(RData::MG(x)),
        0 <= pos,
        pos + spec_encode_rdata(RData::MG(x)).unwrap().len() <= 0x4000,
    ensures
        spec_compressed_len_law(RData::MG(x), st, pos),
{
    lemma_bytes_len_matches_encoding(RData::MG(x), st.1.dom());
    lemma_write_name_len(x.0@, st, true, pos);
}

proof fn lemma_compressed_len_mr(x: MR, st: (bool, Map<Seq<u8>, u16>), pos: int)
    requires
        spec_encode_rdata(RData::MR(x)) is Some,
        spec_rdata_names_ok(RData::MR(x)),
        0 <= pos,
        pos + spec_encode_rdata(RData::MR(x)).unwrap().len() <= 0x4000,
    ensures
        spec_compressed_len_law(RData::MR(x), st, pos),
{
    lemma_bytes_len_matches_encoding(RData::MR(x), st.1.dom());
    lemma_write_name_len(x.0@, st, true, pos);
}

proof fn lemma_compressed_len_dname(x: DNAME, st: (bool, Map<Seq<u8>, u16>), pos: int)
    requires
        spec_encode_rdata(RData::DNAME(x)) is Some,
        spec_rdata_names_ok(RData::DNAME(x)),
        0 <= pos,
        pos + spec_encode_rdata(RData::DNAME(x)).unwrap().len() <= 0x4000,
    ensures
        spec_compressed_len_law(RData::DNAME(x), st, pos),
{
    lemma_bytes_len_matches_encoding(RData::DNAME(x), st.1.dom());
    lemma_write_name_len(x.0@, st, true, pos);
}

proof fn lemma_compressed_len_aname(x: ANAME, st: (bool, Map<Seq<u8>, u16>), pos: int)
    requires
        spec_encode_rdata(RData::ANAME(x)) is Some,
        spec_rdata_names_ok(RData::ANAME(x)),
        0 <= pos,
        pos + spec_encode_rdata(RData::ANAME(x)).unwrap().len() <= 0x4000,
    ensures
        spec_compressed_len_law(RData::ANAME(x), st, pos),
{
    lemma_bytes_len_matches_encoding(RData::ANAME(x), st.1.dom());
    lemma_write_name_len(x.0@, st, true, pos);
}

proof fn lemma_compressed_len_minfo(x: MINFO, st: (bool, Map<Seq<u8>, u16>), pos: int)
    requires
        spec_encode_rdata(RData::MINFO(x)) is Some,
        spec_rdata_names_ok(RData::MINFO(x)),
        0 <= pos,
        pos + spec_encode_rdata(RData::MINFO(x)).unwrap().len() <= 0x4000,
    ensures
        spec_compressed_len_law(RData::MINFO(x), st, pos),
{
    lemma_bytes_len_matches_encoding(RData::MINFO(x), st.1.dom());
    lemma_write_name_len(x.rmail@, st, true, pos);
    lemma_write_name_shorter(x.rmail@, st, true, pos);
    let a = spec_write_name(x.rmail@, st, true, pos);
    lemma_write_name_len(x.email@, a.1, true, pos + a.0.len());
}

proof fn lemma_compressed_len_talink(x: TALINK, st: (bool, Map<Seq<u8>, u16>), pos: int)
    requires
        spec_encode_rdata(RData::TALINK(x)) is Some,
        spec_rdata_names_ok(RData::TALINK(x)),
        0 <= pos,
        pos + spec_encode_rdata(RData::TALINK(x)).unwrap().len() <= 0x4000,
    ensures
        spec_compressed_len_law(RData::TALINK(x), st, pos),
{
    lemma_bytes_len_matches_encoding(RData::TALINK(x), st.1.dom());
    lemma_write_name_len(x.previous_name@, st, true, pos);
    lemma_write_name_shorter(x.previous_name@, st, true, pos);
    let a = spec_write_name(x.previous_name@, st, true, pos);
    lemma_write_name_len(x.next_name@, a.1, true, pos + a.0.len());
}

proof fn lemma_compressed_len_mx(x: MX, st: (bool, Map<Seq<u8>, u16>), pos: int)
    requires
        spec_encode_rdata(RData::MX(x)) is Some,
        spec_rdata_names_ok(RData::MX(x)),
        0 <= pos,
        pos + spec_encode_rdata(RData::MX(x)).unwrap().len() <= 0x4000,
    ensures
        spec_compressed_len_law(RData::MX(x), st, pos),
{
    lemma_bytes_len_matches_encoding(RData::MX(x), st.1.dom());
    lemma_write_name_len(x.exchange@, st, true, pos + 2);
}

proof fn lemma_compressed_len_soa(x: SOA, st: (bool, Map<Seq<u8>, u16>), pos: int)
    requires
        spec_encode_rdata(RData::SOA(x)) is Some,
        spec_rdata_names_ok(RData::SOA(x)),
        0 <= pos,
        pos + spec_encode_rdata(RData::SOA(x)).unwrap().len() <= 0x4000,
    ensures
        spec_compressed_len_law(RData::SOA(x), st, pos),
{
    lemma_bytes_len_matches_encoding(RData::SOA(x), st.1.dom());
    lemma_write_name_len(x.mname@, st, true, pos);
    lemma_write_name_shorter(x.mname@, st, true, pos);
    let a = spec_write_name(x.mname@, st, true, pos);
    lemma_write_name_len(x.rname@, a.1, true, pos + a.0.len());
}

proof fn lemma_compressed_len_a6(x: A6, st: (bool, Map<Seq<u8>, u16>), pos: int)
    requires
        spec_encode_rdata(RData::A6(x)) is Some,
        spec_rdata_names_ok(RData::A6(x)),
        0 <= pos,
        pos + spec_encode_rdata(RData::A6(x)).unwrap().len() <= 0x4000,
    ensures
        spec_compressed_len_law(RData::A6(x), st, pos),
{
    lemma_bytes_len_matches_encoding(RData::A6(x), st.1.dom());
    match x.prefix_name {
        Some(n) => lemma_write_name_len(n@, st, true, pos + 1 + x.suffix@.len()),
        None => {},
    }
}

proof fn lemma_compressed_len_svcb(x: SVCB, st: (bool, Map<Seq<u8>, u16>), pos: int)
    requires
        spec_encode_rdata(RData::SVCB(x)) is Some,
        spec_rdata_names_ok(RData::SVCB(x)),
        0 <= pos,
        pos + spec_encode_rdata(RData::SVCB(x)).unwrap().len() <= 0x4000,
    ensures
        spec_compressed_len_law(RData::SVCB(x), st, pos),
{
    lemma_bytes_len_matches_encoding(RData::SVCB(x), st.1.dom());
    lemma_write_name_len(x.target@, st, false, pos + 2);
    lemma_write_name_plain(x.target@, st, pos + 2);
}

proof fn lemma_compressed_len_https(x: HTTPS, st: (bool, Map<Seq<u8>, u16>), pos: int)
    requires
        spec_encode_rdata(RData::HTTPS(x)) is Some,
        spec_rdata_names_ok(RData::HTTPS(x)),
        0 <= pos,
        pos + spec_encode_rdata(RData::HTTPS(x)).unwrap().len() <= 0x4000,
    ensures
        spec_compressed_len_law(RData::HTTPS(x), st, pos),
{
    lemma_bytes_len_matches_encoding(RData::HTTPS(x), st.1.dom());
    lemma_write_name_len(x.0.target@, st, false, pos + 2);
    lemma_write_name_plain(x.0.target@, st, pos + 2);
}

proof fn lemma_compressed_len_hip(x: HIP, st: (bool, Map<Seq<u8>, u16>), pos: int)
    requires
        spec_encode_rdata(RData::HIP(x)) is Some,
        spec_rdata_names_ok(RData::HIP(x)),
        0 <= pos,
        pos + spec_encode_rdata(RData::HIP(x)).unwrap().len() <= 0x4000,
    ensures
        spec_compressed_len_law(RData::HIP(x), st, pos),
{
    lemma_bytes_len_matches_encoding(RData::HIP(x), st.1.dom());
    lemma_record_names_len(x@.3, st, pos + 4 + x.hit@.len() + x.public_key@.len());
}

proof fn lemma_compressed_len_plain(d: RData, st: (bool, Map<Seq<u8>, u16>), pos: int)
    requires
        spec_encode_rdata(d) is Some,
        spec_rdata_recorded(d, st, pos) == st,
        spec_rdata_bytes_len(d, (st.0, st.1.dom())).0 == spec_rdata_bytes_len(d, (false, st.1.dom())).0,
        spec_rdata_bytes_len(d, (st.0, st.1.dom())).1 == (st.0, st.1.dom()),
        spec_rdata_compressed(d, st, pos) == Some((spec_encode_rdata(d).unwrap(), spec_rdata_recorded(d, st, pos))),
    ensures
        spec_compressed_len_law(d, st, pos),
{
    lemma_bytes_len_matches_encoding(d, st.1.dom());
}

/// Writing RDATA with compression takes as many bytes as its size says
/// when sized with recording on, and both record the same suffixes: when the
/// payload can be written, its names are well formed, the suffixes written
/// match the suffixes sized, and the payload ends within pointer reach.
pub proof fn lemma_compressed_len_matches_bytes_len(d: RData, st: (bool, Map<Seq<u8>, u16>), pos: int)
    requires
        spec_encode_rdata(d) is Some,
        spec_rdata_names_ok(d),
        0 <= pos,
        pos + spec_encode_rdata(d).unwrap().len() <= 0x4000,
    ensures
        spec_compressed_len_law(d, st, pos),
{
    match d {
        RData::NSAPPTR(x) => lemma_compressed_len_nsapptr(x, st, pos),
        RData::RP(x) => lemma_compressed_len_rp(x, st, pos),
        RData::AFSDB(x) => lemma_compressed_len_afsdb(x, st, pos),
        RData::RT(x) => lemma_compressed_len_rt(x, st, pos),
        RData::KX(x) => lemma_compressed_len_kx(x, st, pos),
        RData::LP(x) => lemma_compressed_len_lp(x, st, pos),
        RData::PX(x) => lemma_compressed_len_px(x, st, pos),
        RData::SRV(x) => lemma_compressed_len_srv(x, st, pos),
        RData::RRSIG(x) => lemma_compressed_len_rrsig(x, st, pos),
        RData::SIG(x) => lemma_compressed_len_sig(x, st, pos),
        RData::NSEC(x) => lemma_compressed_len_nsec(x, st, pos),
        RData::NXT(x) => lemma_compressed_len_nxt(x, st, pos),
        RData::TKEY(x) => lemma_compressed_len_tkey(x, st, pos),
        RData::TSIG(x) => lemma_compressed_len_tsig(x, st, pos),
        RData::NAPTR(x) => lemma_compressed_len_naptr(x, st, pos),
        RData::CNAME(x) => lemma_compressed_len_cname(x, st, pos),
        RData::NS(x) => lemma_compressed_len_ns(x, st, pos),
        RData::MD(x) => lemma_compressed_len_md(x, st, pos),
        RData::MF(x) => lemma_compressed_len_mf(x, st, pos),
        RData::PTR(x) => lemma_compressed_len_ptr(x, st, pos),
        RData::MB(x) => lemma_compressed_len_mb(x, st, pos),
        RData::MG(x) => lemma_compressed_len_mg(x, st, pos),
        RData::MR(x) => lemma_compressed_len_mr(x, st, pos),
        RData::DNAME(x) => lemma_compressed_len_dname(x, st, pos),
        RData::ANAME(x) => lemma_compressed_len_aname(x, st, pos),
        RData::MINFO(x) => lemma_compressed_len_minfo(x, st, pos),
        RData::TALINK(x) => lemma_compressed_len_talink(x, st, pos),
        RData::MX(x) => lemma_compressed_len_mx(x, st, pos),
        RData::SOA(x) => lemma_compressed_len_soa(x, st, pos),
        RData::A6(x) => lemma_compressed_len_a6(x, st, pos),
        RData::SVCB(x) => lemma_compressed_len_svcb(x, st, pos),
        RData::HTTPS(x) => lemma_compressed_len_https(x, st, pos),
        RData::HIP(x) => lemma_compressed_len_hip(x, st, pos),
        _ => lemma_compressed_len_plain(d, st, pos),
    }
}

/// Recording names written in full with compression off changes nothing.
proof fn lemma_record_names_off(ns: Seq<Seq<u8>>, st: (bool, Map<Seq<u8>, u16>), pos: int)
    requires
        !st.0,
    ensures
        spec_record_names(ns, st, pos) == st,
    decreases ns.len(),
{
    if ns.len() > 0 {
        lemma_record_names_off(ns.drop_first(), spec_write_name(ns[0], st, false, pos).1, pos + ns[0].len());
    }
}

/// With compression switched off, writing RDATA into a message appends
/// exactly the bytes of the plain RDATA encoding, for every type, and leaves
/// the compression state as it was; a payload that cannot be encoded cannot
/// be written either.  In particular the SOA counters follow the two names in
/// the order of the plain encoding.
pub proof fn lemma_compression_off_writes_plain(d: RData, st: (bool, Map<Seq<u8>, u16>), pos: int)
    requires
        !st.0,
    ensures
        spec_rdata_compressed(d, st, pos) == match spec_encode_rdata(d) {
            Some(b) => Some((b, st)),
            None => None::<(Seq<u8>, (bool, Map<Seq<u8>, u16>))>,
        },
{
    match d {
        RData::HIP(x) => {
            lemma_record_names_off(x@.3, st, pos + 4 + x.hit@.len() + x.public_key@.len());
        },
        RData::SOA(x) => {
            assert(spec_encode_rdata(d) == Some(spec_encode_soa(x@)));
            assert(x.mname@ + x.rname@ + spec_soa_counters(x@) =~= spec_encode_soa(x@));
        },
        _ => {},
    }
}

} // verus!
