//! Reading back encoded EDNS options and OPT RDATA.

use vstd::prelude::*;
use crate::name::{name_wire_ok, lemma_parse_plain_name};
use crate::rdata::basic::{EdnsFlags, EdnsCode, spec_edns_flags_from_u16, spec_edns_flags_to_u16};
use crate::wire::{be16, be32, be64, spec_u16_at, lemma_read_be16, lemma_read_be32, lemma_read_be64};
use crate::wire::rdata::basic::{
    OptionView, spec_bytes_option, spec_client_subnet, spec_decode_option, spec_encode_option,
    spec_encode_options, spec_masked_prefix, spec_opt_ttl, spec_padded, spec_parse_opt,
    spec_parse_options, spec_view_code, spec_views_without_code, spec_option_wire_code, lemma_encode_options_first,
};

verus! {

/// Options that decode back to themselves once written: the payload fits
/// its length field; a client subnet has a full-width address whose bits
/// past the source prefix are clear and prefixes within the family's width;
/// an empty EXPIRE carries zero; a report channel holds a well-formed name;
/// a local option's payload does not read as the structured form of its
/// code.
pub open spec fn spec_option_roundtrips(o: OptionView) -> bool {
    &&& spec_encode_option(o) is Some
    &&& match o {
        OptionView::Subnet(a, sp, sc) => {
            let width: nat = if a.0 { 16 } else { 4 };
            let maxp: u8 = if a.0 { 128 } else { 32 };
            &&& a.1.len() == width
            &&& sp <= maxp
            &&& sc <= maxp
            &&& spec_padded(spec_masked_prefix(a.1, (sp + 7) / 8, sp), width) == a.1
        },
        OptionView::Expire(x, empty) => empty ==> x == 0,
        OptionView::ReportChannel(n) => name_wire_ok(n),
        OptionView::Local(c, d) => spec_decode_option(c, d) == o,
        _ => true,
    }
}

/// No two options are filed under the same code.
pub open spec fn spec_option_codes_distinct(os: Seq<OptionView>) -> bool {
    forall|i: int, j: int| 0 <= i < j < os.len() ==> spec_view_code(os[i]) != spec_view_code(os[j])
}

/// A written option is its code, its payload length and a payload that
/// decodes back to the option.
pub open spec fn spec_option_shape(o: OptionView) -> bool {
    let w = spec_encode_option(o).unwrap();
    &&& spec_encode_option(o) is Some
    &&& w.len() >= 4
    &&& w.subrange(0, 2) == be16(spec_option_wire_code(o))
    &&& w.len() - 4 <= 65535
    &&& w.subrange(2, 4) == be16((w.len() - 4) as u16)
    &&& spec_decode_option(spec_option_wire_code(o), w.subrange(4, w.len() as int)) == o
}

proof fn lemma_shape_head(o: OptionView, d: Seq<u8>)
    requires
        spec_encode_option(o) == Some(be16(spec_option_wire_code(o)) + be16(d.len() as u16) + d),
        d.len() <= 65535,
        spec_decode_option(spec_option_wire_code(o), d) == o,
    ensures
        spec_option_shape(o),
{
    let w = spec_encode_option(o).unwrap();
    assert(w.subrange(0, 2) =~= be16(spec_option_wire_code(o)));
    assert(w.subrange(2, 4) =~= be16(d.len() as u16));
    assert(w.subrange(4, w.len() as int) =~= d);
}

proof fn lemma_shape_llq(v: u16, op: u16, er: u16, id: u64, ll: u32)
    ensures
        spec_option_shape(OptionView::Llq(v, op, er, id, ll)),
{
    let o = OptionView::Llq(v, op, er, id, ll);
    let d = be16(v) + be16(op) + be16(er) + be64(id) + be32(ll);
    assert(d.subrange(0, 2) =~= be16(v));
    assert(d.subrange(2, 4) =~= be16(op));
    assert(d.subrange(4, 6) =~= be16(er));
    assert(d.subrange(6, 14) =~= be64(id));
    assert(d.subrange(14, 18) =~= be32(ll));
    lemma_read_be16(d, 0, v);
    lemma_read_be16(d, 2, op);
    lemma_read_be16(d, 4, er);
    lemma_read_be64(d, 6, id);
    lemma_read_be32(d, 14, ll);
    assert(spec_encode_option(o).unwrap() =~= be16(1) + be16(d.len() as u16) + d);
    lemma_shape_head(o, d);
}

proof fn lemma_shape_update_lease(l: u32, k: Option<u32>)
    ensures
        spec_option_shape(OptionView::UpdateLease(l, k)),
{
    let o = OptionView::UpdateLease(l, k);
    match k {
        Some(kl) => {
            let d = be32(l) + be32(kl);
            assert(d.subrange(0, 4) =~= be32(l));
            assert(d.subrange(4, 8) =~= be32(kl));
            lemma_read_be32(d, 0, l);
            lemma_read_be32(d, 4, kl);
            assert(spec_encode_option(o).unwrap() =~= be16(2) + be16(d.len() as u16) + d);
            lemma_shape_head(o, d);
        },
        None => {
            let d = be32(l);
            assert(d.subrange(0, 4) =~= be32(l));
            lemma_read_be32(d, 0, l);
            assert(spec_encode_option(o).unwrap() =~= be16(2) + be16(d.len() as u16) + d);
            lemma_shape_head(o, d);
        },
    }
}

proof fn lemma_shape_subnet(a: (bool, Seq<u8>), sp: u8, sc: u8)
    requires
        spec_option_roundtrips(OptionView::Subnet(a, sp, sc)),
    ensures
        spec_option_shape(OptionView::Subnet(a, sp, sc)),
{
    let o = OptionView::Subnet(a, sp, sc);
    let fam: u16 = if a.0 { 2 } else { 1 };
    let rl = (sp + 7) / 8;
    let m = spec_masked_prefix(a.1, rl, sp);
    assert(m.len() == rl);
    let d = be16(fam) + seq![sp, sc] + m;
    assert(d.subrange(0, 2) =~= be16(fam));
    lemma_read_be16(d, 0, fam);
    assert(d[2] == sp);
    assert(d[3] == sc);
    assert(d.subrange(4, d.len() as int) =~= m);
    assert(spec_client_subnet(d) == Some(((a.0, a.1), sp, sc)));
    assert(spec_encode_option(o).unwrap() =~= be16(8) + be16(d.len() as u16) + d);
    lemma_shape_head(o, d);
}

proof fn lemma_shape_expire(x: u32, empty: bool)
    requires
        empty ==> x == 0,
    ensures
        spec_option_shape(OptionView::Expire(x, empty)),
{
    let o = OptionView::Expire(x, empty);
    if empty {
        let d = Seq::<u8>::empty();
        assert(spec_encode_option(o).unwrap() =~= be16(9) + be16(d.len() as u16) + d);
        lemma_shape_head(o, d);
    } else {
        let d = be32(x);
        assert(d.subrange(0, 4) =~= be32(x));
        lemma_read_be32(d, 0, x);
        assert(spec_encode_option(o).unwrap() =~= be16(9) + be16(d.len() as u16) + d);
        lemma_shape_head(o, d);
    }
}

proof fn lemma_shape_keepalive(t: Option<u16>)
    ensures
        spec_option_shape(OptionView::TcpKeepalive(t)),
{
    let o = OptionView::TcpKeepalive(t);
    match t {
        Some(x) => {
            let d = be16(x);
            assert(d.subrange(0, 2) =~= be16(x));
            lemma_read_be16(d, 0, x);
            assert(spec_encode_option(o).unwrap() =~= be16(11) + be16(d.len() as u16) + d);
            lemma_shape_head(o, d);
        },
        None => {
            let d = Seq::<u8>::empty();
            assert(spec_encode_option(o).unwrap() =~= be16(11) + be16(d.len() as u16) + d);
            lemma_shape_head(o, d);
        },
    }
}

proof fn lemma_shape_ede(i: u16, t: Seq<u8>)
    requires
        2 + t.len() <= 65535,
    ensures
        spec_option_shape(OptionView::ExtendedDnsError(i, t)),
{
    let o = OptionView::ExtendedDnsError(i, t);
    let d = be16(i) + t;
    assert(d.subrange(0, 2) =~= be16(i));
    lemma_read_be16(d, 0, i);
    assert(d.subrange(2, d.len() as int) =~= t);
    assert(spec_encode_option(o).unwrap() =~= be16(15) + be16(d.len() as u16) + d);
    lemma_shape_head(o, d);
}

proof fn lemma_shape_zone_version(lc: u8, vt: u8, v: Seq<u8>)
    requires
        2 + v.len() <= 65535,
    ensures
        spec_option_shape(OptionView::ZoneVersion(lc, vt, v)),
{
    let o = OptionView::ZoneVersion(lc, vt, v);
    let d = seq![lc, vt] + v;
    assert(d.subrange(2, d.len() as int) =~= v);
    assert(spec_encode_option(o).unwrap() =~= be16(19) + be16(d.len() as u16) + d);
    lemma_shape_head(o, d);
}

proof fn lemma_shape_report_channel(n: Seq<u8>)
    requires
        name_wire_ok(n),
        n.len() <= 65535,
    ensures
        spec_option_shape(OptionView::ReportChannel(n)),
{
    assert(n.subrange(0, n.len() as int) =~= n);
    lemma_parse_plain_name(n, 0, n);
    lemma_shape_head(OptionView::ReportChannel(n), n);
}

/// Every option that reads back as itself has the written shape above.
proof fn lemma_option_shape(o: OptionView)
    requires
        spec_option_roundtrips(o),
    ensures
        spec_option_shape(o),
{
    match o {
        OptionView::Llq(v, op, er, id, ll) => lemma_shape_llq(v, op, er, id, ll),
        OptionView::UpdateLease(l, k) => lemma_shape_update_lease(l, k),
        OptionView::Subnet(a, sp, sc) => lemma_shape_subnet(a, sp, sc),
        OptionView::Expire(x, empty) => lemma_shape_expire(x, empty),
        OptionView::TcpKeepalive(t) => lemma_shape_keepalive(t),
        OptionView::ExtendedDnsError(i, t) => lemma_shape_ede(i, t),
        OptionView::ZoneVersion(lc, vt, v) => lemma_shape_zone_version(lc, vt, v),
        OptionView::ReportChannel(n) => lemma_shape_report_channel(n),
        OptionView::Nsid(x) => lemma_shape_head(o, x),
        OptionView::Esu(x) => lemma_shape_head(o, x),
        OptionView::Dau(x) => lemma_shape_head(o, x),
        OptionView::Dhu(x) => lemma_shape_head(o, x),
        OptionView::N3u(x) => lemma_shape_head(o, x),
        OptionView::Cookie(x) => lemma_shape_head(o, x),
        OptionView::Padding(x) => lemma_shape_head(o, x),
        OptionView::Local(c, x) => lemma_shape_head(o, x),
    }
}

/// Filtering out a code that nothing in the list carries keeps the list.
proof fn lemma_without_absent_code(acc: Seq<OptionView>, code: EdnsCode)
    requires
        forall|i: int| 0 <= i < acc.len() ==> spec_view_code(#[trigger] acc[i]) != code,
    ensures
        spec_views_without_code(acc, code) == acc,
    decreases acc.len(),
{
    reveal(Seq::filter);
    if acc.len() > 0 {
        let init = acc.drop_last();
        assert forall|i: int| 0 <= i < init.len() implies spec_view_code(#[trigger] init[i]) != code by {
            assert(init[i] == acc[i]);
        }
        lemma_without_absent_code(init, code);
        assert(spec_view_code(acc.last()) != code);
        assert(init.push(acc.last()) =~= acc);
    }
}

/// One written option, read at `c`: its code, the end of its payload, and
/// the payload decoded back to the option.
proof fn lemma_read_one_option(p: Seq<u8>, c: int, o: OptionView)
    requires
        0 <= c,
        spec_option_roundtrips(o),
        c + spec_encode_option(o).unwrap().len() <= p.len(),
        p.subrange(c, c + spec_encode_option(o).unwrap().len()) == spec_encode_option(o).unwrap(),
    ensures
        spec_encode_option(o).unwrap().len() >= 4,
        spec_u16_at(p, c) == spec_option_wire_code(o),
        c + 4 + spec_u16_at(p, c + 2) == c + spec_encode_option(o).unwrap().len(),
        spec_decode_option(spec_u16_at(p, c), p.subrange(c + 4, c + spec_encode_option(o).unwrap().len())) == o,
{
    lemma_option_shape(o);
    let w0 = spec_encode_option(o).unwrap();
    assert(p.subrange(c, c + 2) =~= w0.subrange(0, 2));
    lemma_read_be16(p, c, spec_option_wire_code(o));
    assert(p.subrange(c + 2, c + 4) =~= w0.subrange(2, 4));
    lemma_read_be16(p, c + 2, (w0.len() - 4) as u16);
    assert(p.subrange(c + 4, c + w0.len()) =~= w0.subrange(4, w0.len() as int));
}

/// Options that read back as themselves, under distinct codes none of which
/// `acc` already holds, are parsed from their wire form onto the end of
/// `acc`.
#[verifier::spinoff_prover]
#[verifier::rlimit(40)]
proof fn lemma_options_read_back(p: Seq<u8>, c: int, os: Seq<OptionView>, acc: Seq<OptionView>)
    requires
        0 <= c,
        forall|i: int| 0 <= i < os.len() ==> spec_option_roundtrips(#[trigger] os[i]),
        spec_option_codes_distinct(os),
        forall|i: int, j: int| 0 <= i < acc.len() && 0 <= j < os.len() ==> spec_view_code(#[trigger] acc[i]) != spec_view_code(#[trigger] os[j]),
        spec_encode_options(os) is Some,
        c + spec_encode_options(os).unwrap().len() <= p.len(),
        p.subrange(c, c + spec_encode_options(os).unwrap().len()) == spec_encode_options(os).unwrap(),
    ensures
        spec_parse_options(p, c, c + spec_encode_options(os).unwrap().len(), acc) == Some(acc + os),
    decreases os.len(),
{
    let w = spec_encode_options(os).unwrap();
    let e = c + w.len();
    assert forall|i: int| 0 <= i < os.len() implies spec_encode_option(#[trigger] os[i]) is Some by {
        assert(spec_option_roundtrips(os[i]));
    }
    lemma_encode_options_first(os);
    if os.len() == 0 {
        assert(acc + os =~= acc);
    } else {
        let o = os[0];
        let w0 = spec_encode_option(o).unwrap();
        let rest = os.drop_first();
        let rw = spec_encode_options(rest).unwrap();
        assert(w =~= w0 + rw);
        assert(p.subrange(c, c + w0.len()) =~= w0) by {
            assert(p.subrange(c, c + w0.len()) =~= p.subrange(c, e).subrange(0, w0.len() as int));
        }
        lemma_read_one_option(p, c, o);
        let de = c + w0.len();
        assert forall|i: int| 0 <= i < acc.len() implies spec_view_code(#[trigger] acc[i]) != spec_view_code(o) by {
            assert(spec_view_code(acc[i]) != spec_view_code(os[0]));
        }
        lemma_without_absent_code(acc, spec_view_code(o));
        let acc2 = acc.push(o);
        assert forall|i: int| 0 <= i < rest.len() implies spec_option_roundtrips(#[trigger] rest[i]) by {
            assert(rest[i] == os[i + 1]);
        }
        assert forall|i: int, j: int| 0 <= i < j < rest.len() implies spec_view_code(rest[i]) != spec_view_code(rest[j]) by {
            assert(rest[i] == os[i + 1]);
            assert(rest[j] == os[j + 1]);
        }
        assert forall|i: int, j: int| 0 <= i < acc2.len() && 0 <= j < rest.len() implies spec_view_code(#[trigger] acc2[i]) != spec_view_code(#[trigger] rest[j]) by {
            assert(rest[j] == os[j + 1]);
            if i < acc.len() {
                assert(acc2[i] == acc[i]);
                assert(spec_view_code(acc[i]) != spec_view_code(os[j + 1]));
            } else {
                assert(acc2[i] == os[0]);
            }
        }
        assert forall|i: int| 0 <= i < rest.len() implies spec_encode_option(#[trigger] rest[i]) is Some by {
            assert(rest[i] == os[i + 1]);
        }
        lemma_encode_options_first(rest);
        assert(p.subrange(de, de + rw.len()) =~= rw) by {
            assert(p.subrange(de, de + rw.len()) =~= p.subrange(c, e).subrange(w0.len() as int, w.len() as int));
        }
        lemma_options_read_back(p, de, rest, acc2);
        assert(de + rw.len() == e);
        assert(acc2 + rest =~= acc + os);
    }
}

/// The TTL word of an OPT record splits back into the extended rcode, the
/// version and the flags.
proof fn lemma_opt_ttl_fields(ext: u8, version: u8, flags: EdnsFlags)
    requires
        flags.z <= 0x7FFF,
    ensures
        (spec_opt_ttl(ext, version, flags) / 0x100_0000) as u8 == ext,
        ((spec_opt_ttl(ext, version, flags) / 0x1_0000) % 256) as u8 == version,
        spec_edns_flags_from_u16((spec_opt_ttl(ext, version, flags) % 0x1_0000) as u16) == flags,
{
    let f = spec_edns_flags_to_u16(flags);
    let t = ext as int * 0x100_0000 + version as int * 0x1_0000 + f as int;
    assert(0 <= t < 0x1_0000_0000) by (nonlinear_arith)
        requires
            t == ext as int * 0x100_0000 + version as int * 0x1_0000 + f as int,
            0 <= ext < 256,
            0 <= version < 256,
            0 <= f < 0x1_0000,
    ;
    assert(t / 0x100_0000 == ext && (t / 0x1_0000) % 256 == version && t % 0x1_0000 == f) by (nonlinear_arith)
        requires
            t == ext as int * 0x100_0000 + version as int * 0x1_0000 + f as int,
            0 <= ext < 256,
            0 <= version < 256,
            0 <= f < 0x1_0000,
    ;
    let d = flags.dnssec_ok;
    let z = flags.z;
    assert((if d { 0x8000u16 | z } else { 0x7FFFu16 & z }) & 0x8000 == 0x8000 <==> d) by (bit_vector)
        requires
            z <= 0x7FFF,
    ;
    assert((if d { 0x8000u16 | z } else { 0x7FFFu16 & z }) & 0x7FFF == z) by (bit_vector)
        requires
            z <= 0x7FFF,
    ;
}

/// Encoding the options of OPT RDATA and decoding them, with the root owner,
/// the payload size as CLASS and the TTL word built from the extended rcode,
/// version and flags, gives the EDNS state back: when each option reads back
/// as itself, no two share a code and the flags' reserved bits fit their
/// fifteen-bit field.
pub proof fn lemma_opt_roundtrip(x: (u16, u8, u8, EdnsFlags, Seq<OptionView>))
    requires
        x.3.z <= 0x7FFF,
        forall|i: int| 0 <= i < x.4.len() ==> spec_option_roundtrips(#[trigger] x.4[i]),
        spec_option_codes_distinct(x.4),
    ensures
        spec_encode_options(x.4) is Some,
        spec_parse_opt(
            spec_encode_options(x.4).unwrap(),
            seq![0u8],
            x.0,
            spec_opt_ttl(x.1, x.2, x.3),
            0,
            spec_encode_options(x.4).unwrap().len() as int,
        ) == Some(x),
{
    assert forall|i: int| 0 <= i < x.4.len() implies spec_encode_option(#[trigger] x.4[i]) is Some by {
        assert(spec_option_roundtrips(x.4[i]));
    }
    lemma_encode_options_first(x.4);
    let w = spec_encode_options(x.4).unwrap();
    assert(w.subrange(0, w.len() as int) =~= w);
    lemma_options_read_back(w, 0, x.4, Seq::empty());
    assert(Seq::<OptionView>::empty() + x.4 =~= x.4);
    lemma_opt_ttl_fields(x.1, x.2, x.3);
}

} // verus!
