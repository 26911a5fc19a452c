//! Encoded RDATA sizes, with name compression taken into account.

use vstd::prelude::*;
use crate::name::Name;
use crate::rdata::RData;
use crate::rdata::basic::{A, AAAA, CAA, CNAME, DOA, MX, NAPTR, NS, OPT, PTR, RESINFO, SOA, SRV, TXT};
use crate::rdata::dnssec::{CDNSKEY, CDS, CERT, CSYNC, DHCID, DLV, DNSKEY, DS, HIP, KEY, NINFO, NSEC, NSEC3, NSEC3PARAM, NXT, OPENPGPKEY, RKEY, RRSIG, SIG, SMIMEA, SSHFP, TA, TALINK, TKEY, TLSA, TSIG, ZONEMD};
use crate::rdata::legacy::{A6, AFSDB, ANAME, ANY, APL, ATMA, AVC, AXFR, DNAME, EID, GID, GPOS, HINFO, ISDN, IXFR, LOC, MAILA, MAILB, MB, MD, MF, MG, MINFO, MR, NIMLOC, NSAP, NSAPPTR, NULL, PX, RP, RT, SINK, SPF, UID, UINFO, UNSPEC, WKS, X25};
use crate::rdata::service::{AMTRELAY, EUI48, EUI64, HTTPS, IPSECKEY, KX, L32, L64, LP, NID, SVCB, URI};
use crate::rdata::legacy::AplPrefix;
use crate::rdata::service::SvcParam;
use crate::wire::compression::{LenCompressionMap, spec_name_len, lemma_name_len_nonneg};
use crate::wire::length::{options_len, spec_options_len, lemma_options_encoding_len};
use crate::wire::rdata::spec_encode_rdata;
use crate::wire::rdata::dnssec::spec_concat_names;
use crate::wire::rdata::legacy::spec_encode_apl;
use crate::wire::rdata::service::{spec_be16_list, spec_key_leq, spec_svc_canonical_value, spec_svc_encodable, spec_svc_keys, spec_svc_lookup, spec_svc_params_wire, spec_svc_sorted, lemma_svc_lookup};
use crate::rdata::service::spec_u16_list;
use vstd::relations::total_ordering;

verus! {

/// Wire forms of a list of names.
pub open spec fn spec_name_views(ns: Seq<Name>) -> Seq<Seq<u8>> {
    ns.map_values(|n: Name| n@)
}

/// Encoded size of names written one after the other, and the recording
/// state afterwards.
pub open spec fn spec_names_len(ns: Seq<Seq<u8>>, m: (bool, Set<Seq<u8>>), compress: bool) -> (int, (
    bool,
    Set<Seq<u8>>,
))
    decreases ns.len(),
{
    if ns.len() == 0 {
        (0, m)
    } else {
        let a = spec_name_len(ns[0], m, compress);
        let b = spec_names_len(ns.drop_first(), a.1, compress);
        (a.0 + b.0, b.1)
    }
}

proof fn lemma_names_len_nonneg(ns: Seq<Seq<u8>>, m: (bool, Set<Seq<u8>>), compress: bool)
    ensures
        spec_names_len(ns, m, compress).0 >= 0,
    decreases ns.len(),
{
    if ns.len() > 0 {
        lemma_name_len_nonneg(ns[0], m, compress);
        lemma_names_len_nonneg(ns.drop_first(), spec_name_len(ns[0], m, compress).1, compress);
    }
}

/// Encoded size of `names` written one after the other.
fn names_len(names: &Vec<Name>, compression: &mut LenCompressionMap, compress: bool) -> (n: usize)
    requires
        spec_names_len(spec_name_views(names@), old(compression)@, compress).0 <= usize::MAX,
    ensures
        (n as int, final(compression)@) == spec_names_len(spec_name_views(names@), old(compression)@, compress),
{
    let ghost views = spec_name_views(names@);
    let ghost total = spec_names_len(views, old(compression)@, compress);
    let mut acc: usize = 0;
    let mut i: usize = 0;
    proof {
        assert(views.skip(0) =~= views);
    }
    while i < names.len()
        invariant
            i <= names@.len(),
            views == spec_name_views(names@),
            total.0 <= usize::MAX,
            total == (acc + spec_names_len(views.skip(i as int), compression@, compress).0, spec_names_len(
                views.skip(i as int),
                compression@,
                compress,
            ).1),
        decreases names.len() - i,
    {
        let ghost before = compression@;
        let a = names[i].bytes_len_at(compress, compression);
        proof {
            let rest = views.skip(i as int);
            assert(rest[0] == names@[i as int]@);
            assert(rest.drop_first() =~= views.skip(i + 1));
            lemma_names_len_nonneg(views.skip(i + 1), compression@, compress);
        }
        acc = acc + a;
        i = i + 1;
    }
    proof {
        assert(views.skip(i as int) =~= Seq::<Seq<u8>>::empty());
    }
    acc
}

/// Encoded size of APL items: four header bytes and the address part each.
pub open spec fn spec_apl_len(ps: Seq<AplPrefix>) -> int
    decreases ps.len(),
{
    if ps.len() == 0 {
        0
    } else {
        spec_apl_len(ps.drop_last()) + 4 + ps.last().afd_part@.len()
    }
}

proof fn lemma_apl_len_nonneg(ps: Seq<AplPrefix>)
    ensures
        spec_apl_len(ps) >= 0,
    decreases ps.len(),
{
    if ps.len() > 0 {
        lemma_apl_len_nonneg(ps.drop_last());
    }
}

proof fn lemma_apl_len_prefix(ps: Seq<AplPrefix>, k: int)
    requires
        0 <= k <= ps.len(),
    ensures
        0 <= spec_apl_len(ps.take(k)) <= spec_apl_len(ps),
    decreases ps.len() - k,
{
    lemma_apl_len_nonneg(ps.take(k));
    if k < ps.len() {
        lemma_apl_len_prefix(ps, k + 1);
        assert(ps.take(k + 1).drop_last() =~= ps.take(k));
    } else {
        assert(ps.take(k) =~= ps);
    }
}

/// Encoded size of APL items.
fn apl_len(ps: &Vec<AplPrefix>) -> (n: usize)
    requires
        spec_apl_len(ps@) <= usize::MAX,
    ensures
        n == spec_apl_len(ps@),
{
    let mut total: usize = 0;
    let mut i: usize = 0;
    while i < ps.len()
        invariant
            i <= ps@.len(),
            spec_apl_len(ps@) <= usize::MAX,
            total == spec_apl_len(ps@.take(i as int)),
        decreases ps.len() - i,
    {
        proof {
            assert(ps@.take(i + 1).drop_last() =~= ps@.take(i as int));
            lemma_apl_len_prefix(ps@, i + 1);
        }
        total = total + 4 + ps[i].afd_part.len();
        i = i + 1;
    }
    proof {
        assert(ps@.take(ps@.len() as int) =~= ps@);
    }
    total
}

/// Encoded size of service parameters: four header bytes and the value
/// each.
pub open spec fn spec_svc_params_len(ps: Seq<SvcParam>) -> int
    decreases ps.len(),
{
    if ps.len() == 0 {
        0
    } else {
        spec_svc_params_len(ps.drop_last()) + 4 + ps.last().value@.len()
    }
}

proof fn lemma_svc_params_len_nonneg(ps: Seq<SvcParam>)
    ensures
        spec_svc_params_len(ps) >= 0,
    decreases ps.len(),
{
    if ps.len() > 0 {
        lemma_svc_params_len_nonneg(ps.drop_last());
    }
}

proof fn lemma_svc_params_len_prefix(ps: Seq<SvcParam>, k: int)
    requires
        0 <= k <= ps.len(),
    ensures
        0 <= spec_svc_params_len(ps.take(k)) <= spec_svc_params_len(ps),
    decreases ps.len() - k,
{
    lemma_svc_params_len_nonneg(ps.take(k));
    if k < ps.len() {
        lemma_svc_params_len_prefix(ps, k + 1);
        assert(ps.take(k + 1).drop_last() =~= ps.take(k));
    } else {
        assert(ps.take(k) =~= ps);
    }
}

/// Encoded size of service parameters.
fn svc_params_len(ps: &Vec<SvcParam>) -> (n: usize)
    requires
        spec_svc_params_len(ps@) <= usize::MAX,
    ensures
        n == spec_svc_params_len(ps@),
{
    let mut total: usize = 0;
    let mut i: usize = 0;
    while i < ps.len()
        invariant
            i <= ps@.len(),
            spec_svc_params_len(ps@) <= usize::MAX,
            total == spec_svc_params_len(ps@.take(i as int)),
        decreases ps.len() - i,
    {
        proof {
            assert(ps@.take(i + 1).drop_last() =~= ps@.take(i as int));
            lemma_svc_params_len_prefix(ps@, i + 1);
        }
        total = total + 4 + ps[i].value.len();
        i = i + 1;
    }
    proof {
        assert(ps@.take(ps@.len() as int) =~= ps@);
    }
    total
}

/// With recording off a name takes its full wire length and nothing is
/// recorded.
proof fn lemma_name_len_off(w: Seq<u8>, seen: Set<Seq<u8>>, compress: bool)
    ensures
        spec_name_len(w, (false, seen), compress) == (w.len() as int, (false, seen)),
{
}

/// Names written one after the other start with the first name.
pub proof fn lemma_concat_names_first(ns: Seq<Seq<u8>>)
    requires
        ns.len() > 0,
    ensures
        spec_concat_names(ns) == ns[0] + spec_concat_names(ns.drop_first()),
    decreases ns.len(),
{
    if ns.len() > 1 {
        lemma_concat_names_first(ns.drop_last());
        assert(ns.drop_last().drop_first() =~= ns.drop_first().drop_last());
        assert(ns.drop_first().last() == ns.last());
        assert(ns.drop_last()[0] == ns[0]);
        let t = ns.drop_first();
        assert(spec_concat_names(t) == spec_concat_names(t.drop_last()) + t.last());
        assert(spec_concat_names(ns) =~= ns[0] + spec_concat_names(ns.drop_first()));
    } else {
        assert(ns.drop_first().len() == 0);
        assert(ns.drop_last().len() == 0);
        assert(spec_concat_names(ns.drop_last()) =~= Seq::<u8>::empty());
        assert(spec_concat_names(ns) =~= ns[0] + spec_concat_names(ns.drop_first()));
    }
}

proof fn lemma_names_len_off(ns: Seq<Seq<u8>>, seen: Set<Seq<u8>>, compress: bool)
    ensures
        spec_names_len(ns, (false, seen), compress) == (spec_concat_names(ns).len() as int, (false, seen)),
    decreases ns.len(),
{
    if ns.len() > 0 {
        lemma_names_len_off(ns.drop_first(), seen, compress);
        lemma_concat_names_first(ns);
    }
}

proof fn lemma_apl_len_encoding(ps: Seq<AplPrefix>)
    ensures
        spec_encode_apl(ps.map_values(|x: AplPrefix| x@)) matches Some(b) ==> b.len() == spec_apl_len(ps),
    decreases ps.len(),
{
    if ps.len() > 0 {
        lemma_apl_len_encoding(ps.drop_last());
        assert(ps.map_values(|x: AplPrefix| x@).drop_last() =~= ps.drop_last().map_values(|x: AplPrefix| x@));
    }
}

/// Sum of `f` over `s`.
pub open spec fn spec_sum_keys(s: Seq<u16>, f: spec_fn(u16) -> int) -> int
    decreases s.len(),
{
    if s.len() == 0 {
        0
    } else {
        spec_sum_keys(s.drop_last(), f) + f(s.last())
    }
}

proof fn lemma_sum_keys_remove(s: Seq<u16>, j: int, f: spec_fn(u16) -> int)
    requires
        0 <= j < s.len(),
    ensures
        spec_sum_keys(s, f) == spec_sum_keys(s.remove(j), f) + f(s[j]),
    decreases s.len(),
{
    if j < s.len() - 1 {
        lemma_sum_keys_remove(s.drop_last(), j, f);
        assert(s.remove(j).drop_last() =~= s.drop_last().remove(j));
        assert(s.remove(j).last() == s.last());
    } else {
        assert(s.remove(j) =~= s.drop_last());
    }
}

proof fn lemma_sum_keys_permutation(a: Seq<u16>, b: Seq<u16>, f: spec_fn(u16) -> int)
    requires
        a.to_multiset() == b.to_multiset(),
    ensures
        spec_sum_keys(a, f) == spec_sum_keys(b, f),
    decreases a.len(),
{
    broadcast use vstd::seq_lib::to_multiset_contains, vstd::seq_lib::to_multiset_build, vstd::seq_lib::to_multiset_remove, vstd::seq_lib::to_multiset_len;
    broadcast use vstd::multiset::group_multiset_axioms;

    if a.len() == 0 {
        assert(b.to_multiset().len() == 0);
        assert(b.len() == 0);
    } else {
        let x = a.last();
        assert(a =~= a.drop_last().push(x));
        assert(a.to_multiset().contains(x));
        assert(b.contains(x));
        let j = choose|j: int| 0 <= j < b.len() && b[j] == x;
        assert(b.remove(j).to_multiset() =~= b.to_multiset().remove(x));
        assert(a.drop_last().to_multiset() =~= a.to_multiset().remove(x));
        lemma_sum_keys_permutation(a.drop_last(), b.remove(j), f);
        lemma_sum_keys_remove(b, j, f);
    }
}

proof fn lemma_be16_list_len(ks: Seq<u16>)
    ensures
        spec_be16_list(ks).len() == 2 * ks.len(),
    decreases ks.len(),
{
    if ks.len() > 0 {
        lemma_be16_list_len(ks.drop_last());
    }
}

proof fn lemma_canonical_value_len(key: u16, v: Seq<u8>)
    ensures
        spec_svc_canonical_value(key, v).len() == v.len(),
{
    broadcast use vstd::seq_lib::to_multiset_len;

    if key == 0 && v.len() > 0 && v.len() % 2 == 0 {
        let ks = spec_u16_list(v);
        assert(total_ordering(spec_key_leq()));
        ks.lemma_sort_by_ensures(spec_key_leq());
        assert(ks.sort_by(spec_key_leq()).to_multiset().len() == ks.to_multiset().len());
        lemma_be16_list_len(ks.sort_by(spec_key_leq()));
    }
}

/// Encoded size of parameters given as key/value pairs.
pub open spec fn spec_svc_views_len(ps: Seq<(u16, Seq<u8>)>) -> int
    decreases ps.len(),
{
    if ps.len() == 0 {
        0
    } else {
        spec_svc_views_len(ps.drop_last()) + 4 + ps.last().1.len()
    }
}

proof fn lemma_params_wire_len(ps: Seq<(u16, Seq<u8>)>)
    ensures
        spec_svc_params_wire(ps).len() == spec_svc_views_len(ps),
    decreases ps.len(),
{
    if ps.len() > 0 {
        lemma_params_wire_len(ps.drop_last());
        lemma_canonical_value_len(ps.last().0, ps.last().1);
    }
}

/// Size of a parameter with key `k` in `all`: header and value.
pub open spec fn spec_key_cost(all: Seq<(u16, Seq<u8>)>) -> spec_fn(u16) -> int {
    |k: u16| 4 + spec_svc_lookup(all, k).len() as int
}

proof fn lemma_views_len_as_key_sum(ps: Seq<(u16, Seq<u8>)>, all: Seq<(u16, Seq<u8>)>)
    requires
        spec_svc_keys(all).no_duplicates(),
        forall|i: int| 0 <= i < ps.len() ==> all.contains(#[trigger] ps[i]),
    ensures
        spec_svc_views_len(ps) == spec_sum_keys(spec_svc_keys(ps), spec_key_cost(all)),
    decreases ps.len(),
{
    if ps.len() > 0 {
        assert forall|i: int| 0 <= i < ps.drop_last().len() implies all.contains(#[trigger] ps.drop_last()[i]) by {
            assert(ps.drop_last()[i] == ps[i]);
        }
        lemma_views_len_as_key_sum(ps.drop_last(), all);
        assert(spec_svc_keys(ps).drop_last() =~= spec_svc_keys(ps.drop_last()));
        assert(all.contains(ps[ps.len() - 1]));
        lemma_svc_lookup(all, ps.last());
    }
}

proof fn lemma_params_len_views(ps: Seq<SvcParam>)
    ensures
        spec_svc_params_len(ps) == spec_svc_views_len(ps.map_values(|x: SvcParam| x@)),
    decreases ps.len(),
{
    if ps.len() > 0 {
        lemma_params_len_views(ps.drop_last());
        assert(ps.map_values(|x: SvcParam| x@).drop_last() =~= ps.drop_last().map_values(|x: SvcParam| x@));
    }
}

/// Writing the parameters in canonical order and form takes as many bytes
/// as the parameters report.
proof fn lemma_sorted_params_len(params: Seq<SvcParam>)
    requires
        spec_svc_encodable(params.map_values(|x: SvcParam| x@)),
    ensures
        spec_svc_params_wire(spec_svc_sorted(params.map_values(|x: SvcParam| x@))).len() == spec_svc_params_len(params),
{
    let ps = params.map_values(|x: SvcParam| x@);
    let keys = spec_svc_keys(ps);
    assert(total_ordering(spec_key_leq()));
    keys.lemma_sort_by_ensures(spec_key_leq());
    let ks = keys.sort_by(spec_key_leq());
    let sorted = spec_svc_sorted(ps);
    assert forall|i: int| 0 <= i < sorted.len() implies ps.contains(#[trigger] sorted[i]) by {
        assert(ks.contains(ks[i]));
        assert(keys.contains(ks[i]));
        let j = choose|j: int| 0 <= j < keys.len() && keys[j] == ks[i];
        assert(ps.contains(ps[j]));
        lemma_svc_lookup(ps, ps[j]);
        assert(sorted[i] == ps[j]);
    }
    assert forall|i: int| 0 <= i < ps.len() implies ps.contains(#[trigger] ps[i]) by {}
    lemma_views_len_as_key_sum(sorted, ps);
    lemma_views_len_as_key_sum(ps, ps);
    assert(spec_svc_keys(sorted) =~= ks);
    lemma_sum_keys_permutation(ks, keys, spec_key_cost(ps));
    lemma_params_wire_len(sorted);
    lemma_params_len_views(params);
}

/// Encoded size of a payload at this point of a message, and the name
/// recording state afterwards.  Names go through [`spec_name_len`]; those
/// of the types RFC 3597 allows to compress are sized with compression.
pub open spec fn spec_rdata_bytes_len(d: RData, m: (bool, Set<Seq<u8>>)) -> (int, (bool, Set<Seq<u8>>)) {
    match d {
        RData::A(x) => ((4) as int, m),
        RData::AAAA(x) => ((16) as int, m),
        RData::CNAME(x) => {
            let a0 = spec_name_len(x.0@, m, true);
            (a0.0, a0.1)
        },
        RData::NS(x) => {
            let a0 = spec_name_len(x.0@, m, true);
            (a0.0, a0.1)
        },
        RData::MD(x) => {
            let a0 = spec_name_len(x.0@, m, true);
            (a0.0, a0.1)
        },
        RData::MF(x) => {
            let a0 = spec_name_len(x.0@, m, true);
            (a0.0, a0.1)
        },
        RData::PTR(x) => {
            let a0 = spec_name_len(x.0@, m, true);
            (a0.0, a0.1)
        },
        RData::MB(x) => {
            let a0 = spec_name_len(x.0@, m, true);
            (a0.0, a0.1)
        },
        RData::MG(x) => {
            let a0 = spec_name_len(x.0@, m, true);
            (a0.0, a0.1)
        },
        RData::MR(x) => {
            let a0 = spec_name_len(x.0@, m, true);
            (a0.0, a0.1)
        },
        RData::NULL(x) => ((x.data@.len()) as int, m),
        RData::HINFO(x) => ((2 + x.cpu@.len() + x.os@.len()) as int, m),
        RData::MINFO(x) => {
            let a0 = spec_name_len(x.rmail@, m, true);
            let a1 = spec_name_len(x.email@, a0.1, true);
            (a0.0 + a1.0, a1.1)
        },
        RData::MX(x) => {
            let a0 = spec_name_len(x.exchange@, m, true);
            (2 + a0.0, a0.1)
        },
        RData::RP(x) => {
            let a0 = spec_name_len(x.mbox@, m, false);
            let a1 = spec_name_len(x.txt@, a0.1, false);
            (a0.0 + a1.0, a1.1)
        },
        RData::AFSDB(x) => {
            let a0 = spec_name_len(x.hostname@, m, false);
            (2 + a0.0, a0.1)
        },
        RData::X25(x) => ((1 + x.psdn_address@.len()) as int, m),
        RData::WKS(x) => ((5 + x.bitmap@.len()) as int, m),
        RData::NSAP(x) => ((x.0@.len()) as int, m),
        RData::ISDN(x) => ((1 + x.address@.len() + match x.sub_address {
            Some(s) => 1 + s@.len(),
            None => 0,
        }) as int, m),
        RData::RT(x) => {
            let a0 = spec_name_len(x.host@, m, false);
            (2 + a0.0, a0.1)
        },
        RData::EID(x) => ((x.0@.len()) as int, m),
        RData::NIMLOC(x) => ((x.0@.len()) as int, m),
        RData::NSAPPTR(x) => {
            let a0 = spec_name_len(x.0@, m, false);
            (a0.0, a0.1)
        },
        RData::SIG(x) => {
            let a0 = spec_name_len(x.0.signer_name@, m, false);
            (18 + a0.0 + x.0.signature@.len(), a0.1)
        },
        RData::KEY(x) => ((4 + x.0.public_key@.len()) as int, m),
        RData::PX(x) => {
            let a0 = spec_name_len(x.map822@, m, false);
            let a1 = spec_name_len(x.mapx400@, a0.1, false);
            (2 + a0.0 + a1.0, a1.1)
        },
        RData::GPOS(x) => ((3 + x.longitude@.len() + x.latitude@.len() + x.altitude@.len()) as int, m),
        RData::LOC(x) => ((16) as int, m),
        RData::NXT(x) => {
            let a0 = spec_name_len(x.0.next_domain@, m, false);
            (a0.0 + x.0.type_bitmap.wire@.len(), a0.1)
        },
        RData::SRV(x) => {
            let a0 = spec_name_len(x.target@, m, false);
            (6 + a0.0, a0.1)
        },
        RData::NAPTR(x) => {
            let a0 = spec_name_len(x.replacement@, m, false);
            (7 + x.flags@.len() + x.services@.len() + x.regexp@.len() + a0.0, a0.1)
        },
        RData::KX(x) => {
            let a0 = spec_name_len(x.exchanger@, m, false);
            (2 + a0.0, a0.1)
        },
        RData::CERT(x) => ((5 + x.certificate@.len()) as int, m),
        RData::ATMA(x) => ((x.0@.len()) as int, m),
        RData::A6(x) => match x.prefix_name {
            Some(n) => {
                let a0 = spec_name_len(n@, m, true);
                (1 + x.suffix@.len() + a0.0, a0.1)
            },
            None => ((1 + x.suffix@.len()) as int, m),
        },
        RData::SINK(x) => ((2 + x.data@.len()) as int, m),
        RData::DNAME(x) => {
            let a0 = spec_name_len(x.0@, m, true);
            (a0.0, a0.1)
        },
        RData::APL(x) => (spec_apl_len(x.prefixes@), m),
        RData::DS(x) => ((4 + x.digest@.len()) as int, m),
        RData::SSHFP(x) => ((2 + x.fingerprint@.len()) as int, m),
        RData::IPSECKEY(x) => ((3 + x.gateway@.len() + x.public_key@.len()) as int, m),
        RData::RRSIG(x) => {
            let a0 = spec_name_len(x.signer_name@, m, false);
            (18 + a0.0 + x.signature@.len(), a0.1)
        },
        RData::NSEC(x) => {
            let a0 = spec_name_len(x.next_domain@, m, false);
            (a0.0 + x.type_bitmap.wire@.len(), a0.1)
        },
        RData::DNSKEY(x) => ((4 + x.public_key@.len()) as int, m),
        RData::DHCID(x) => ((x.0@.len()) as int, m),
        RData::NSEC3(x) => ((6 + x.salt@.len() + x.next_domain@.len() + x.type_bitmap.wire@.len()) as int, m),
        RData::NSEC3PARAM(x) => ((5 + x.salt@.len()) as int, m),
        RData::TLSA(x) => ((3 + x.certificate@.len()) as int, m),
        RData::SMIMEA(x) => ((3 + x.0.certificate@.len()) as int, m),
        RData::HIP(x) => {
            let a0 = spec_names_len(x@.3, m, false);
            (4 + x.hit@.len() + x.public_key@.len() + a0.0, a0.1)
        },
        RData::NINFO(x) => ((x.0@.len()) as int, m),
        RData::RKEY(x) => ((x.0@.len()) as int, m),
        RData::TALINK(x) => {
            let a0 = spec_name_len(x.previous_name@, m, true);
            let a1 = spec_name_len(x.next_name@, a0.1, true);
            (a0.0 + a1.0, a1.1)
        },
        RData::CDS(x) => ((4 + x.0.digest@.len()) as int, m),
        RData::CDNSKEY(x) => ((4 + x.0.public_key@.len()) as int, m),
        RData::OPENPGPKEY(x) => ((x.0@.len()) as int, m),
        RData::CSYNC(x) => ((6 + x.type_bitmap.wire@.len()) as int, m),
        RData::ZONEMD(x) => ((6 + x.digest@.len()) as int, m),
        RData::SVCB(x) => {
            let a0 = spec_name_len(x.target@, m, false);
            (2 + a0.0 + spec_svc_params_len(x.params@), a0.1)
        },
        RData::HTTPS(x) => {
            let a0 = spec_name_len(x.0.target@, m, false);
            (2 + a0.0 + spec_svc_params_len(x.0.params@), a0.1)
        },
        RData::SPF(x) => (x.0.wire@.len() as int, m),
        RData::UINFO(x) => ((x.0@.len()) as int, m),
        RData::UID(x) => ((4) as int, m),
        RData::GID(x) => ((4) as int, m),
        RData::UNSPEC(x) => ((x.0@.len()) as int, m),
        RData::NID(x) => ((10) as int, m),
        RData::L32(x) => ((6) as int, m),
        RData::L64(x) => ((10) as int, m),
        RData::LP(x) => {
            let a0 = spec_name_len(x.fqdn@, m, false);
            (2 + a0.0, a0.1)
        },
        RData::EUI48(x) => ((6) as int, m),
        RData::EUI64(x) => ((8) as int, m),
        RData::ANAME(x) => {
            let a0 = spec_name_len(x.0@, m, true);
            (a0.0, a0.1)
        },
        RData::URI(x) => ((4 + x.target@.len()) as int, m),
        RData::CAA(x) => ((2 + x.tag@.len() + x.value@.len()) as int, m),
        RData::AVC(x) => (x.0.wire@.len() as int, m),
        RData::DOA(x) => ((x.0@.len()) as int, m),
        RData::AMTRELAY(x) => ((2 + x.gateway@.len()) as int, m),
        RData::RESINFO(x) => (x.0.wire@.len() as int, m),
        RData::TKEY(x) => {
            let a0 = spec_name_len(x.algorithm@, m, false);
            (16 + a0.0 + x.key@.len() + x.other_data@.len(), a0.1)
        },
        RData::TSIG(x) => {
            let a0 = spec_name_len(x.algorithm@, m, false);
            (16 + a0.0 + x.mac@.len() + x.other_data@.len(), a0.1)
        },
        RData::IXFR(x) => ((0) as int, m),
        RData::AXFR(x) => ((0) as int, m),
        RData::MAILB(x) => ((0) as int, m),
        RData::MAILA(x) => ((0) as int, m),
        RData::ANY(x) => ((0) as int, m),
        RData::TA(x) => ((4 + x.0.digest@.len()) as int, m),
        RData::DLV(x) => ((4 + x.0.digest@.len()) as int, m),
        RData::TXT(x) => (x.wire@.len() as int, m),
        RData::SOA(x) => {
            let a0 = spec_name_len(x.mname@, m, true);
            let a1 = spec_name_len(x.rname@, a0.1, true);
            (20 + a0.0 + a1.0, a1.1)
        },
        RData::OPT(x) => (spec_options_len(x.0.options@), m),
        RData::Unknown { data, .. } => (data@.len() as int, m),
    }
}

impl RData {
    /// Encoded RDATA size at this point of a message, recording the
    /// suffixes of its names in `compression`.
    pub fn bytes_len(&self, compression: &mut LenCompressionMap) -> (n: usize)
        requires
            spec_rdata_bytes_len(*self, old(compression)@).0 <= usize::MAX,
        ensures
            (n as int, final(compression)@) == spec_rdata_bytes_len(*self, old(compression)@),
    {
        match self {
            RData::A(value) => 4,
            RData::AAAA(value) => 16,
            RData::CNAME(value) => {
                let a0 = value.0.bytes_len_at(true, compression);
                a0
            },
            RData::NS(value) => {
                let a0 = value.0.bytes_len_at(true, compression);
                a0
            },
            RData::MD(value) => {
                let a0 = value.0.bytes_len_at(true, compression);
                a0
            },
            RData::MF(value) => {
                let a0 = value.0.bytes_len_at(true, compression);
                a0
            },
            RData::PTR(value) => {
                let a0 = value.0.bytes_len_at(true, compression);
                a0
            },
            RData::MB(value) => {
                let a0 = value.0.bytes_len_at(true, compression);
                a0
            },
            RData::MG(value) => {
                let a0 = value.0.bytes_len_at(true, compression);
                a0
            },
            RData::MR(value) => {
                let a0 = value.0.bytes_len_at(true, compression);
                a0
            },
            RData::NULL(value) => value.data.len(),
            RData::HINFO(value) => 2 + value.cpu.len() + value.os.len(),
            RData::MINFO(value) => {
                let a0 = value.rmail.bytes_len_at(true, compression);
                let a1 = value.email.bytes_len_at(true, compression);
                a0 + a1
            },
            RData::MX(value) => {
                let a0 = value.exchange.bytes_len_at(true, compression);
                2 + a0
            },
            RData::RP(value) => {
                let a0 = value.mbox.bytes_len_at(false, compression);
                let a1 = value.txt.bytes_len_at(false, compression);
                a0 + a1
            },
            RData::AFSDB(value) => {
                let a0 = value.hostname.bytes_len_at(false, compression);
                2 + a0
            },
            RData::X25(value) => 1 + value.psdn_address.len(),
            RData::WKS(value) => 5 + value.bitmap.len(),
            RData::NSAP(value) => value.0.len(),
            RData::ISDN(value) => {
                let sub = match &value.sub_address {
                    Some(s) => 1 + s.len(),
                    None => 0,
                };
                1 + value.address.len() + sub
            },
            RData::RT(value) => {
                let a0 = value.host.bytes_len_at(false, compression);
                2 + a0
            },
            RData::EID(value) => value.0.len(),
            RData::NIMLOC(value) => value.0.len(),
            RData::NSAPPTR(value) => {
                let a0 = value.0.bytes_len_at(false, compression);
                a0
            },
            RData::SIG(value) => {
                let a0 = value.0.signer_name.bytes_len_at(false, compression);
                18 + a0 + value.0.signature.len()
            },
            RData::KEY(value) => 4 + value.0.public_key.len(),
            RData::PX(value) => {
                let a0 = value.map822.bytes_len_at(false, compression);
                let a1 = value.mapx400.bytes_len_at(false, compression);
                2 + a0 + a1
            },
            RData::GPOS(value) => 3 + value.longitude.len() + value.latitude.len() + value.altitude.len(),
            RData::LOC(value) => 16,
            RData::NXT(value) => {
                let a0 = value.0.next_domain.bytes_len_at(false, compression);
                a0 + value.0.type_bitmap.wire.len()
            },
            RData::SRV(value) => {
                let a0 = value.target.bytes_len_at(false, compression);
                6 + a0
            },
            RData::NAPTR(value) => {
                let a0 = value.replacement.bytes_len_at(false, compression);
                7 + value.flags.len() + value.services.len() + value.regexp.len() + a0
            },
            RData::KX(value) => {
                let a0 = value.exchanger.bytes_len_at(false, compression);
                2 + a0
            },
            RData::CERT(value) => 5 + value.certificate.len(),
            RData::ATMA(value) => value.0.len(),
            RData::A6(value) => {
                let suffix_len = value.suffix.len();
                let prefix_len = match &value.prefix_name {
                    Some(name) => name.bytes_len_at(true, compression),
                    None => 0,
                };
                1 + suffix_len + prefix_len
            },
            RData::SINK(value) => 2 + value.data.len(),
            RData::DNAME(value) => {
                let a0 = value.0.bytes_len_at(true, compression);
                a0
            },
            RData::APL(value) => apl_len(&value.prefixes),
            RData::DS(value) => 4 + value.digest.len(),
            RData::SSHFP(value) => 2 + value.fingerprint.len(),
            RData::IPSECKEY(value) => 3 + value.gateway.len() + value.public_key.len(),
            RData::RRSIG(value) => {
                let a0 = value.signer_name.bytes_len_at(false, compression);
                18 + a0 + value.signature.len()
            },
            RData::NSEC(value) => {
                let a0 = value.next_domain.bytes_len_at(false, compression);
                a0 + value.type_bitmap.wire.len()
            },
            RData::DNSKEY(value) => 4 + value.public_key.len(),
            RData::DHCID(value) => value.0.len(),
            RData::NSEC3(value) => 6 + value.salt.len() + value.next_domain.len() + value.type_bitmap.wire.len(),
            RData::NSEC3PARAM(value) => 5 + value.salt.len(),
            RData::TLSA(value) => 3 + value.certificate.len(),
            RData::SMIMEA(value) => 3 + value.0.certificate.len(),
            RData::HIP(value) => {
                proof {
                    assert(spec_name_views(value.rendezvous_servers@) =~= value@.3);
                }
                let a0 = names_len(&value.rendezvous_servers, compression, false);
                4 + value.hit.len() + value.public_key.len() + a0
            },
            RData::NINFO(value) => value.0.len(),
            RData::RKEY(value) => value.0.len(),
            RData::TALINK(value) => {
                let a0 = value.previous_name.bytes_len_at(true, compression);
                let a1 = value.next_name.bytes_len_at(true, compression);
                a0 + a1
            },
            RData::CDS(value) => 4 + value.0.digest.len(),
            RData::CDNSKEY(value) => 4 + value.0.public_key.len(),
            RData::OPENPGPKEY(value) => value.0.len(),
            RData::CSYNC(value) => 6 + value.type_bitmap.wire.len(),
            RData::ZONEMD(value) => 6 + value.digest.len(),
            RData::SVCB(value) => {
                let a0 = value.target.bytes_len_at(false, compression);
                let params = svc_params_len(&value.params);
                2 + a0 + params
            },
            RData::HTTPS(value) => {
                let a0 = value.0.target.bytes_len_at(false, compression);
                let params = svc_params_len(&value.0.params);
                2 + a0 + params
            },
            RData::SPF(value) => value.0.wire.len(),
            RData::UINFO(value) => value.0.len(),
            RData::UID(value) => 4,
            RData::GID(value) => 4,
            RData::UNSPEC(value) => value.0.len(),
            RData::NID(value) => 10,
            RData::L32(value) => 6,
            RData::L64(value) => 10,
            RData::LP(value) => {
                let a0 = value.fqdn.bytes_len_at(false, compression);
                2 + a0
            },
            RData::EUI48(value) => 6,
            RData::EUI64(value) => 8,
            RData::ANAME(value) => {
                let a0 = value.0.bytes_len_at(true, compression);
                a0
            },
            RData::URI(value) => 4 + value.target.len(),
            RData::CAA(value) => 2 + value.tag.len() + value.value.len(),
            RData::AVC(value) => value.0.wire.len(),
            RData::DOA(value) => value.0.len(),
            RData::AMTRELAY(value) => 2 + value.gateway.len(),
            RData::RESINFO(value) => value.0.wire.len(),
            RData::TKEY(value) => {
                let a0 = value.algorithm.bytes_len_at(false, compression);
                16 + a0 + value.key.len() + value.other_data.len()
            },
            RData::TSIG(value) => {
                let a0 = value.algorithm.bytes_len_at(false, compression);
                16 + a0 + value.mac.len() + value.other_data.len()
            },
            RData::IXFR(value) => 0,
            RData::AXFR(value) => 0,
            RData::MAILB(value) => 0,
            RData::MAILA(value) => 0,
            RData::ANY(value) => 0,
            RData::TA(value) => 4 + value.0.digest.len(),
            RData::DLV(value) => 4 + value.0.digest.len(),
            RData::TXT(value) => value.wire.len(),
            RData::SOA(value) => {
                let a0 = value.mname.bytes_len_at(true, compression);
                let a1 = value.rname.bytes_len_at(true, compression);
                20 + a0 + a1
            },
            RData::OPT(value) => options_len(&value.0.options),
            RData::Unknown { data, .. } => data.len(),
        }
    }
}

/// With name recording off, a payload is sized exactly as `encode_rdata`
/// writes it, and the recording state stays as it was.
pub proof fn lemma_bytes_len_matches_encoding(d: RData, seen: Set<Seq<u8>>)
    requires
        spec_encode_rdata(d) is Some,
    ensures
        spec_rdata_bytes_len(d, (false, seen)) == (spec_encode_rdata(d).unwrap().len() as int, (false, seen)),
{
    match d {
        RData::A(x) => lemma_len_a(x, seen),
        RData::AAAA(x) => lemma_len_aaaa(x, seen),
        RData::CNAME(x) => lemma_len_cname(x, seen),
        RData::NS(x) => lemma_len_ns(x, seen),
        RData::MD(x) => lemma_len_md(x, seen),
        RData::MF(x) => lemma_len_mf(x, seen),
        RData::PTR(x) => lemma_len_ptr(x, seen),
        RData::MB(x) => lemma_len_mb(x, seen),
        RData::MG(x) => lemma_len_mg(x, seen),
        RData::MR(x) => lemma_len_mr(x, seen),
        RData::NULL(x) => lemma_len_null(x, seen),
        RData::HINFO(x) => lemma_len_hinfo(x, seen),
        RData::MINFO(x) => lemma_len_minfo(x, seen),
        RData::MX(x) => lemma_len_mx(x, seen),
        RData::RP(x) => lemma_len_rp(x, seen),
        RData::AFSDB(x) => lemma_len_afsdb(x, seen),
        RData::X25(x) => lemma_len_x25(x, seen),
        RData::WKS(x) => lemma_len_wks(x, seen),
        RData::NSAP(x) => lemma_len_nsap(x, seen),
        RData::ISDN(x) => lemma_len_isdn(x, seen),
        RData::RT(x) => lemma_len_rt(x, seen),
        RData::EID(x) => lemma_len_eid(x, seen),
        RData::NIMLOC(x) => lemma_len_nimloc(x, seen),
        RData::NSAPPTR(x) => lemma_len_nsapptr(x, seen),
        RData::SIG(x) => lemma_len_sig(x, seen),
        RData::KEY(x) => lemma_len_key(x, seen),
        RData::PX(x) => lemma_len_px(x, seen),
        RData::GPOS(x) => lemma_len_gpos(x, seen),
        RData::LOC(x) => lemma_len_loc(x, seen),
        RData::NXT(x) => lemma_len_nxt(x, seen),
        RData::SRV(x) => lemma_len_srv(x, seen),
        RData::NAPTR(x) => lemma_len_naptr(x, seen),
        RData::KX(x) => lemma_len_kx(x, seen),
        RData::CERT(x) => lemma_len_cert(x, seen),
        RData::ATMA(x) => lemma_len_atma(x, seen),
        RData::A6(x) => lemma_len_a6(x, seen),
        RData::SINK(x) => lemma_len_sink(x, seen),
        RData::DNAME(x) => lemma_len_dname(x, seen),
        RData::APL(x) => lemma_len_apl(x, seen),
        RData::DS(x) => lemma_len_ds(x, seen),
        RData::SSHFP(x) => lemma_len_sshfp(x, seen),
        RData::IPSECKEY(x) => lemma_len_ipseckey(x, seen),
        RData::RRSIG(x) => lemma_len_rrsig(x, seen),
        RData::NSEC(x) => lemma_len_nsec(x, seen),
        RData::DNSKEY(x) => lemma_len_dnskey(x, seen),
        RData::DHCID(x) => lemma_len_dhcid(x, seen),
        RData::NSEC3(x) => lemma_len_nsec3(x, seen),
        RData::NSEC3PARAM(x) => lemma_len_nsec3param(x, seen),
        RData::TLSA(x) => lemma_len_tlsa(x, seen),
        RData::SMIMEA(x) => lemma_len_smimea(x, seen),
        RData::HIP(x) => lemma_len_hip(x, seen),
        RData::NINFO(x) => lemma_len_ninfo(x, seen),
        RData::RKEY(x) => lemma_len_rkey(x, seen),
        RData::TALINK(x) => lemma_len_talink(x, seen),
        RData::CDS(x) => lemma_len_cds(x, seen),
        RData::CDNSKEY(x) => lemma_len_cdnskey(x, seen),
        RData::OPENPGPKEY(x) => lemma_len_openpgpkey(x, seen),
        RData::CSYNC(x) => lemma_len_csync(x, seen),
        RData::ZONEMD(x) => lemma_len_zonemd(x, seen),
        RData::SVCB(x) => lemma_len_svcb(x, seen),
        RData::HTTPS(x) => lemma_len_https(x, seen),
        RData::SPF(x) => lemma_len_spf(x, seen),
        RData::UINFO(x) => lemma_len_uinfo(x, seen),
        RData::UID(x) => lemma_len_uid(x, seen),
        RData::GID(x) => lemma_len_gid(x, seen),
        RData::UNSPEC(x) => lemma_len_unspec(x, seen),
        RData::NID(x) => lemma_len_nid(x, seen),
        RData::L32(x) => lemma_len_l32(x, seen),
        RData::L64(x) => lemma_len_l64(x, seen),
        RData::LP(x) => lemma_len_lp(x, seen),
        RData::EUI48(x) => lemma_len_eui48(x, seen),
        RData::EUI64(x) => lemma_len_eui64(x, seen),
        RData::ANAME(x) => lemma_len_aname(x, seen),
        RData::URI(x) => lemma_len_uri(x, seen),
        RData::CAA(x) => lemma_len_caa(x, seen),
        RData::AVC(x) => lemma_len_avc(x, seen),
        RData::DOA(x) => lemma_len_doa(x, seen),
        RData::AMTRELAY(x) => lemma_len_amtrelay(x, seen),
        RData::RESINFO(x) => lemma_len_resinfo(x, seen),
        RData::TKEY(x) => lemma_len_tkey(x, seen),
        RData::TSIG(x) => lemma_len_tsig(x, seen),
        RData::IXFR(x) => lemma_len_ixfr(x, seen),
        RData::AXFR(x) => lemma_len_axfr(x, seen),
        RData::MAILB(x) => lemma_len_mailb(x, seen),
        RData::MAILA(x) => lemma_len_maila(x, seen),
        RData::ANY(x) => lemma_len_any(x, seen),
        RData::TA(x) => lemma_len_ta(x, seen),
        RData::DLV(x) => lemma_len_dlv(x, seen),
        RData::TXT(x) => lemma_len_txt(x, seen),
        RData::SOA(x) => lemma_len_soa(x, seen),
        RData::OPT(x) => lemma_len_opt(x, seen),
        RData::Unknown { .. } => {},
    }
}

proof fn lemma_len_a(x: A, seen: Set<Seq<u8>>)
    requires
        spec_encode_rdata(RData::A(x)) is Some,
    ensures
        spec_rdata_bytes_len(RData::A(x), (false, seen)) == (spec_encode_rdata(RData::A(x)).unwrap().len() as int, (
            false,
            seen,
        )),
{

}

proof fn lemma_len_aaaa(x: AAAA, seen: Set<Seq<u8>>)
    requires
        spec_encode_rdata(RData::AAAA(x)) is Some,
    ensures
        spec_rdata_bytes_len(RData::AAAA(x), (false, seen)) == (spec_encode_rdata(RData::AAAA(x)).unwrap().len() as int, (
            false,
            seen,
        )),
{

}

proof fn lemma_len_cname(x: CNAME, seen: Set<Seq<u8>>)
    requires
        spec_encode_rdata(RData::CNAME(x)) is Some,
    ensures
        spec_rdata_bytes_len(RData::CNAME(x), (false, seen)) == (spec_encode_rdata(RData::CNAME(x)).unwrap().len() as int, (
            false,
            seen,
        )),
{
    lemma_name_len_off(x.0@, seen, true);
}

proof fn lemma_len_ns(x: NS, seen: Set<Seq<u8>>)
    requires
        spec_encode_rdata(RData::NS(x)) is Some,
    ensures
        spec_rdata_bytes_len(RData::NS(x), (false, seen)) == (spec_encode_rdata(RData::NS(x)).unwrap().len() as int, (
            false,
            seen,
        )),
{
    lemma_name_len_off(x.0@, seen, true);
}

proof fn lemma_len_md(x: MD, seen: Set<Seq<u8>>)
    requires
        spec_encode_rdata(RData::MD(x)) is Some,
    ensures
        spec_rdata_bytes_len(RData::MD(x), (false, seen)) == (spec_encode_rdata(RData::MD(x)).unwrap().len() as int, (
            false,
            seen,
        )),
{
    lemma_name_len_off(x.0@, seen, true);
}

proof fn lemma_len_mf(x: MF, seen: Set<Seq<u8>>)
    requires
        spec_encode_rdata(RData::MF(x)) is Some,
    ensures
        spec_rdata_bytes_len(RData::MF(x), (false, seen)) == (spec_encode_rdata(RData::MF(x)).unwrap().len() as int, (
            false,
            seen,
        )),
{
    lemma_name_len_off(x.0@, seen, true);
}

proof fn lemma_len_ptr(x: PTR, seen: Set<Seq<u8>>)
    requires
        spec_encode_rdata(RData::PTR(x)) is Some,
    ensures
        spec_rdata_bytes_len(RData::PTR(x), (false, seen)) == (spec_encode_rdata(RData::PTR(x)).unwrap().len() as int, (
            false,
            seen,
        )),
{
    lemma_name_len_off(x.0@, seen, true);
}

proof fn lemma_len_mb(x: MB, seen: Set<Seq<u8>>)
    requires
        spec_encode_rdata(RData::MB(x)) is Some,
    ensures
        spec_rdata_bytes_len(RData::MB(x), (false, seen)) == (spec_encode_rdata(RData::MB(x)).unwrap().len() as int, (
            false,
            seen,
        )),
{
    lemma_name_len_off(x.0@, seen, true);
}

proof fn lemma_len_mg(x: MG, seen: Set<Seq<u8>>)
    requires
        spec_encode_rdata(RData::MG(x)) is Some,
    ensures
        spec_rdata_bytes_len(RData::MG(x), (false, seen)) == (spec_encode_rdata(RData::MG(x)).unwrap().len() as int, (
            false,
            seen,
        )),
{
    lemma_name_len_off(x.0@, seen, true);
}

proof fn lemma_len_mr(x: MR, seen: Set<Seq<u8>>)
    requires
        spec_encode_rdata(RData::MR(x)) is Some,
    ensures
        spec_rdata_bytes_len(RData::MR(x), (false, seen)) == (spec_encode_rdata(RData::MR(x)).unwrap().len() as int, (
            false,
            seen,
        )),
{
    lemma_name_len_off(x.0@, seen, true);
}

proof fn lemma_len_null(x: NULL, seen: Set<Seq<u8>>)
    requires
        spec_encode_rdata(RData::NULL(x)) is Some,
    ensures
        spec_rdata_bytes_len(RData::NULL(x), (false, seen)) == (spec_encode_rdata(RData::NULL(x)).unwrap().len() as int, (
            false,
            seen,
        )),
{

}

proof fn lemma_len_hinfo(x: HINFO, seen: Set<Seq<u8>>)
    requires
        spec_encode_rdata(RData::HINFO(x)) is Some,
    ensures
        spec_rdata_bytes_len(RData::HINFO(x), (false, seen)) == (spec_encode_rdata(RData::HINFO(x)).unwrap().len() as int, (
            false,
            seen,
        )),
{

}

proof fn lemma_len_minfo(x: MINFO, seen: Set<Seq<u8>>)
    requires
        spec_encode_rdata(RData::MINFO(x)) is Some,
    ensures
        spec_rdata_bytes_len(RData::MINFO(x), (false, seen)) == (spec_encode_rdata(RData::MINFO(x)).unwrap().len() as int, (
            false,
            seen,
        )),
{
    lemma_name_len_off(x.rmail@, seen, true);
    lemma_name_len_off(x.email@, seen, true);
}

proof fn lemma_len_mx(x: MX, seen: Set<Seq<u8>>)
    requires
        spec_encode_rdata(RData::MX(x)) is Some,
    ensures
        spec_rdata_bytes_len(RData::MX(x), (false, seen)) == (spec_encode_rdata(RData::MX(x)).unwrap().len() as int, (
            false,
            seen,
        )),
{
    lemma_name_len_off(x.exchange@, seen, true);
}

proof fn lemma_len_rp(x: RP, seen: Set<Seq<u8>>)
    requires
        spec_encode_rdata(RData::RP(x)) is Some,
    ensures
        spec_rdata_bytes_len(RData::RP(x), (false, seen)) == (spec_encode_rdata(RData::RP(x)).unwrap().len() as int, (
            false,
            seen,
        )),
{
    lemma_name_len_off(x.mbox@, seen, false);
    lemma_name_len_off(x.txt@, seen, false);
}

proof fn lemma_len_afsdb(x: AFSDB, seen: Set<Seq<u8>>)
    requires
        spec_encode_rdata(RData::AFSDB(x)) is Some,
    ensures
        spec_rdata_bytes_len(RData::AFSDB(x), (false, seen)) == (spec_encode_rdata(RData::AFSDB(x)).unwrap().len() as int, (
            false,
            seen,
        )),
{
    lemma_name_len_off(x.hostname@, seen, false);
}

proof fn lemma_len_x25(x: X25, seen: Set<Seq<u8>>)
    requires
        spec_encode_rdata(RData::X25(x)) is Some,
    ensures
        spec_rdata_bytes_len(RData::X25(x), (false, seen)) == (spec_encode_rdata(RData::X25(x)).unwrap().len() as int, (
            false,
            seen,
        )),
{

}

proof fn lemma_len_wks(x: WKS, seen: Set<Seq<u8>>)
    requires
        spec_encode_rdata(RData::WKS(x)) is Some,
    ensures
        spec_rdata_bytes_len(RData::WKS(x), (false, seen)) == (spec_encode_rdata(RData::WKS(x)).unwrap().len() as int, (
            false,
            seen,
        )),
{

}

proof fn lemma_len_nsap(x: NSAP, seen: Set<Seq<u8>>)
    requires
        spec_encode_rdata(RData::NSAP(x)) is Some,
    ensures
        spec_rdata_bytes_len(RData::NSAP(x), (false, seen)) == (spec_encode_rdata(RData::NSAP(x)).unwrap().len() as int, (
            false,
            seen,
        )),
{

}

proof fn lemma_len_isdn(x: ISDN, seen: Set<Seq<u8>>)
    requires
        spec_encode_rdata(RData::ISDN(x)) is Some,
    ensures
        spec_rdata_bytes_len(RData::ISDN(x), (false, seen)) == (spec_encode_rdata(RData::ISDN(x)).unwrap().len() as int, (
            false,
            seen,
        )),
{

}

proof fn lemma_len_rt(x: RT, seen: Set<Seq<u8>>)
    requires
        spec_encode_rdata(RData::RT(x)) is Some,
    ensures
        spec_rdata_bytes_len(RData::RT(x), (false, seen)) == (spec_encode_rdata(RData::RT(x)).unwrap().len() as int, (
            false,
            seen,
        )),
{
    lemma_name_len_off(x.host@, seen, false);
}

proof fn lemma_len_eid(x: EID, seen: Set<Seq<u8>>)
    requires
        spec_encode_rdata(RData::EID(x)) is Some,
    ensures
        spec_rdata_bytes_len(RData::EID(x), (false, seen)) == (spec_encode_rdata(RData::EID(x)).unwrap().len() as int, (
            false,
            seen,
        )),
{

}

proof fn lemma_len_nimloc(x: NIMLOC, seen: Set<Seq<u8>>)
    requires
        spec_encode_rdata(RData::NIMLOC(x)) is Some,
    ensures
        spec_rdata_bytes_len(RData::NIMLOC(x), (false, seen)) == (spec_encode_rdata(RData::NIMLOC(x)).unwrap().len() as int, (
            false,
            seen,
        )),
{

}

proof fn lemma_len_nsapptr(x: NSAPPTR, seen: Set<Seq<u8>>)
    requires
        spec_encode_rdata(RData::NSAPPTR(x)) is Some,
    ensures
        spec_rdata_bytes_len(RData::NSAPPTR(x), (false, seen)) == (spec_encode_rdata(RData::NSAPPTR(x)).unwrap().len() as int, (
            false,
            seen,
        )),
{
    lemma_name_len_off(x.0@, seen, false);
}

proof fn lemma_len_sig(x: SIG, seen: Set<Seq<u8>>)
    requires
        spec_encode_rdata(RData::SIG(x)) is Some,
    ensures
        spec_rdata_bytes_len(RData::SIG(x), (false, seen)) == (spec_encode_rdata(RData::SIG(x)).unwrap().len() as int, (
            false,
            seen,
        )),
{
    lemma_name_len_off(x.0.signer_name@, seen, false);
}

proof fn lemma_len_key(x: KEY, seen: Set<Seq<u8>>)
    requires
        spec_encode_rdata(RData::KEY(x)) is Some,
    ensures
        spec_rdata_bytes_len(RData::KEY(x), (false, seen)) == (spec_encode_rdata(RData::KEY(x)).unwrap().len() as int, (
            false,
            seen,
        )),
{

}

proof fn lemma_len_px(x: PX, seen: Set<Seq<u8>>)
    requires
        spec_encode_rdata(RData::PX(x)) is Some,
    ensures
        spec_rdata_bytes_len(RData::PX(x), (false, seen)) == (spec_encode_rdata(RData::PX(x)).unwrap().len() as int, (
            false,
            seen,
        )),
{
    lemma_name_len_off(x.map822@, seen, false);
    lemma_name_len_off(x.mapx400@, seen, false);
}

proof fn lemma_len_gpos(x: GPOS, seen: Set<Seq<u8>>)
    requires
        spec_encode_rdata(RData::GPOS(x)) is Some,
    ensures
        spec_rdata_bytes_len(RData::GPOS(x), (false, seen)) == (spec_encode_rdata(RData::GPOS(x)).unwrap().len() as int, (
            false,
            seen,
        )),
{

}

proof fn lemma_len_loc(x: LOC, seen: Set<Seq<u8>>)
    requires
        spec_encode_rdata(RData::LOC(x)) is Some,
    ensures
        spec_rdata_bytes_len(RData::LOC(x), (false, seen)) == (spec_encode_rdata(RData::LOC(x)).unwrap().len() as int, (
            false,
            seen,
        )),
{

}

proof fn lemma_len_nxt(x: NXT, seen: Set<Seq<u8>>)
    requires
        spec_encode_rdata(RData::NXT(x)) is Some,
    ensures
        spec_rdata_bytes_len(RData::NXT(x), (false, seen)) == (spec_encode_rdata(RData::NXT(x)).unwrap().len() as int, (
            false,
            seen,
        )),
{
    lemma_name_len_off(x.0.next_domain@, seen, false);
}

proof fn lemma_len_srv(x: SRV, seen: Set<Seq<u8>>)
    requires
        spec_encode_rdata(RData::SRV(x)) is Some,
    ensures
        spec_rdata_bytes_len(RData::SRV(x), (false, seen)) == (spec_encode_rdata(RData::SRV(x)).unwrap().len() as int, (
            false,
            seen,
        )),
{
    lemma_name_len_off(x.target@, seen, false);
}

proof fn lemma_len_naptr(x: NAPTR, seen: Set<Seq<u8>>)
    requires
        spec_encode_rdata(RData::NAPTR(x)) is Some,
    ensures
        spec_rdata_bytes_len(RData::NAPTR(x), (false, seen)) == (spec_encode_rdata(RData::NAPTR(x)).unwrap().len() as int, (
            false,
            seen,
        )),
{
    lemma_name_len_off(x.replacement@, seen, false);
}

proof fn lemma_len_kx(x: KX, seen: Set<Seq<u8>>)
    requires
        spec_encode_rdata(RData::KX(x)) is Some,
    ensures
        spec_rdata_bytes_len(RData::KX(x), (false, seen)) == (spec_encode_rdata(RData::KX(x)).unwrap().len() as int, (
            false,
            seen,
        )),
{
    lemma_name_len_off(x.exchanger@, seen, false);
}

proof fn lemma_len_cert(x: CERT, seen: Set<Seq<u8>>)
    requires
        spec_encode_rdata(RData::CERT(x)) is Some,
    ensures
        spec_rdata_bytes_len(RData::CERT(x), (false, seen)) == (spec_encode_rdata(RData::CERT(x)).unwrap().len() as int, (
            false,
            seen,
        )),
{

}

proof fn lemma_len_atma(x: ATMA, seen: Set<Seq<u8>>)
    requires
        spec_encode_rdata(RData::ATMA(x)) is Some,
    ensures
        spec_rdata_bytes_len(RData::ATMA(x), (false, seen)) == (spec_encode_rdata(RData::ATMA(x)).unwrap().len() as int, (
            false,
            seen,
        )),
{

}

proof fn lemma_len_a6(x: A6, seen: Set<Seq<u8>>)
    requires
        spec_encode_rdata(RData::A6(x)) is Some,
    ensures
        spec_rdata_bytes_len(RData::A6(x), (false, seen)) == (spec_encode_rdata(RData::A6(x)).unwrap().len() as int, (
            false,
            seen,
        )),
{
    match x.prefix_name {
        Some(n) => lemma_name_len_off(n@, seen, true),
        None => {},
    }
}

proof fn lemma_len_sink(x: SINK, seen: Set<Seq<u8>>)
    requires
        spec_encode_rdata(RData::SINK(x)) is Some,
    ensures
        spec_rdata_bytes_len(RData::SINK(x), (false, seen)) == (spec_encode_rdata(RData::SINK(x)).unwrap().len() as int, (
            false,
            seen,
        )),
{

}

proof fn lemma_len_dname(x: DNAME, seen: Set<Seq<u8>>)
    requires
        spec_encode_rdata(RData::DNAME(x)) is Some,
    ensures
        spec_rdata_bytes_len(RData::DNAME(x), (false, seen)) == (spec_encode_rdata(RData::DNAME(x)).unwrap().len() as int, (
            false,
            seen,
        )),
{
    lemma_name_len_off(x.0@, seen, true);
}

proof fn lemma_len_apl(x: APL, seen: Set<Seq<u8>>)
    requires
        spec_encode_rdata(RData::APL(x)) is Some,
    ensures
        spec_rdata_bytes_len(RData::APL(x), (false, seen)) == (spec_encode_rdata(RData::APL(x)).unwrap().len() as int, (
            false,
            seen,
        )),
{
    lemma_apl_len_encoding(x.prefixes@);
}

proof fn lemma_len_ds(x: DS, seen: Set<Seq<u8>>)
    requires
        spec_encode_rdata(RData::DS(x)) is Some,
    ensures
        spec_rdata_bytes_len(RData::DS(x), (false, seen)) == (spec_encode_rdata(RData::DS(x)).unwrap().len() as int, (
            false,
            seen,
        )),
{

}

proof fn lemma_len_sshfp(x: SSHFP, seen: Set<Seq<u8>>)
    requires
        spec_encode_rdata(RData::SSHFP(x)) is Some,
    ensures
        spec_rdata_bytes_len(RData::SSHFP(x), (false, seen)) == (spec_encode_rdata(RData::SSHFP(x)).unwrap().len() as int, (
            false,
            seen,
        )),
{

}

proof fn lemma_len_ipseckey(x: IPSECKEY, seen: Set<Seq<u8>>)
    requires
        spec_encode_rdata(RData::IPSECKEY(x)) is Some,
    ensures
        spec_rdata_bytes_len(RData::IPSECKEY(x), (false, seen)) == (spec_encode_rdata(RData::IPSECKEY(x)).unwrap().len() as int, (
            false,
            seen,
        )),
{

}

proof fn lemma_len_rrsig(x: RRSIG, seen: Set<Seq<u8>>)
    requires
        spec_encode_rdata(RData::RRSIG(x)) is Some,
    ensures
        spec_rdata_bytes_len(RData::RRSIG(x), (false, seen)) == (spec_encode_rdata(RData::RRSIG(x)).unwrap().len() as int, (
            false,
            seen,
        )),
{
    lemma_name_len_off(x.signer_name@, seen, false);
}

proof fn lemma_len_nsec(x: NSEC, seen: Set<Seq<u8>>)
    requires
        spec_encode_rdata(RData::NSEC(x)) is Some,
    ensures
        spec_rdata_bytes_len(RData::NSEC(x), (false, seen)) == (spec_encode_rdata(RData::NSEC(x)).unwrap().len() as int, (
            false,
            seen,
        )),
{
    lemma_name_len_off(x.next_domain@, seen, false);
}

proof fn lemma_len_dnskey(x: DNSKEY, seen: Set<Seq<u8>>)
    requires
        spec_encode_rdata(RData::DNSKEY(x)) is Some,
    ensures
        spec_rdata_bytes_len(RData::DNSKEY(x), (false, seen)) == (spec_encode_rdata(RData::DNSKEY(x)).unwrap().len() as int, (
            false,
            seen,
        )),
{

}

proof fn lemma_len_dhcid(x: DHCID, seen: Set<Seq<u8>>)
    requires
        spec_encode_rdata(RData::DHCID(x)) is Some,
    ensures
        spec_rdata_bytes_len(RData::DHCID(x), (false, seen)) == (spec_encode_rdata(RData::DHCID(x)).unwrap().len() as int, (
            false,
            seen,
        )),
{

}

proof fn lemma_len_nsec3(x: NSEC3, seen: Set<Seq<u8>>)
    requires
        spec_encode_rdata(RData::NSEC3(x)) is Some,
    ensures
        spec_rdata_bytes_len(RData::NSEC3(x), (false, seen)) == (spec_encode_rdata(RData::NSEC3(x)).unwrap().len() as int, (
            false,
            seen,
        )),
{

}

proof fn lemma_len_nsec3param(x: NSEC3PARAM, seen: Set<Seq<u8>>)
    requires
        spec_encode_rdata(RData::NSEC3PARAM(x)) is Some,
    ensures
        spec_rdata_bytes_len(RData::NSEC3PARAM(x), (false, seen)) == (spec_encode_rdata(RData::NSEC3PARAM(x)).unwrap().len() as int, (
            false,
            seen,
        )),
{

}

proof fn lemma_len_tlsa(x: TLSA, seen: Set<Seq<u8>>)
    requires
        spec_encode_rdata(RData::TLSA(x)) is Some,
    ensures
        spec_rdata_bytes_len(RData::TLSA(x), (false, seen)) == (spec_encode_rdata(RData::TLSA(x)).unwrap().len() as int, (
            false,
            seen,
        )),
{

}

proof fn lemma_len_smimea(x: SMIMEA, seen: Set<Seq<u8>>)
    requires
        spec_encode_rdata(RData::SMIMEA(x)) is Some,
    ensures
        spec_rdata_bytes_len(RData::SMIMEA(x), (false, seen)) == (spec_encode_rdata(RData::SMIMEA(x)).unwrap().len() as int, (
            false,
            seen,
        )),
{

}

proof fn lemma_len_hip(x: HIP, seen: Set<Seq<u8>>)
    requires
        spec_encode_rdata(RData::HIP(x)) is Some,
    ensures
        spec_rdata_bytes_len(RData::HIP(x), (false, seen)) == (spec_encode_rdata(RData::HIP(x)).unwrap().len() as int, (
            false,
            seen,
        )),
{
    lemma_names_len_off(x@.3, seen, false);
}

proof fn lemma_len_ninfo(x: NINFO, seen: Set<Seq<u8>>)
    requires
        spec_encode_rdata(RData::NINFO(x)) is Some,
    ensures
        spec_rdata_bytes_len(RData::NINFO(x), (false, seen)) == (spec_encode_rdata(RData::NINFO(x)).unwrap().len() as int, (
            false,
            seen,
        )),
{

}

proof fn lemma_len_rkey(x: RKEY, seen: Set<Seq<u8>>)
    requires
        spec_encode_rdata(RData::RKEY(x)) is Some,
    ensures
        spec_rdata_bytes_len(RData::RKEY(x), (false, seen)) == (spec_encode_rdata(RData::RKEY(x)).unwrap().len() as int, (
            false,
            seen,
        )),
{

}

proof fn lemma_len_talink(x: TALINK, seen: Set<Seq<u8>>)
    requires
        spec_encode_rdata(RData::TALINK(x)) is Some,
    ensures
        spec_rdata_bytes_len(RData::TALINK(x), (false, seen)) == (spec_encode_rdata(RData::TALINK(x)).unwrap().len() as int, (
            false,
            seen,
        )),
{
    lemma_name_len_off(x.previous_name@, seen, true);
    lemma_name_len_off(x.next_name@, seen, true);
}

proof fn lemma_len_cds(x: CDS, seen: Set<Seq<u8>>)
    requires
        spec_encode_rdata(RData::CDS(x)) is Some,
    ensures
        spec_rdata_bytes_len(RData::CDS(x), (false, seen)) == (spec_encode_rdata(RData::CDS(x)).unwrap().len() as int, (
            false,
            seen,
        )),
{

}

proof fn lemma_len_cdnskey(x: CDNSKEY, seen: Set<Seq<u8>>)
    requires
        spec_encode_rdata(RData::CDNSKEY(x)) is Some,
    ensures
        spec_rdata_bytes_len(RData::CDNSKEY(x), (false, seen)) == (spec_encode_rdata(RData::CDNSKEY(x)).unwrap().len() as int, (
            false,
            seen,
        )),
{

}

proof fn lemma_len_openpgpkey(x: OPENPGPKEY, seen: Set<Seq<u8>>)
    requires
        spec_encode_rdata(RData::OPENPGPKEY(x)) is Some,
    ensures
        spec_rdata_bytes_len(RData::OPENPGPKEY(x), (false, seen)) == (spec_encode_rdata(RData::OPENPGPKEY(x)).unwrap().len() as int, (
            false,
            seen,
        )),
{

}

proof fn lemma_len_csync(x: CSYNC, seen: Set<Seq<u8>>)
    requires
        spec_encode_rdata(RData::CSYNC(x)) is Some,
    ensures
        spec_rdata_bytes_len(RData::CSYNC(x), (false, seen)) == (spec_encode_rdata(RData::CSYNC(x)).unwrap().len() as int, (
            false,
            seen,
        )),
{

}

proof fn lemma_len_zonemd(x: ZONEMD, seen: Set<Seq<u8>>)
    requires
        spec_encode_rdata(RData::ZONEMD(x)) is Some,
    ensures
        spec_rdata_bytes_len(RData::ZONEMD(x), (false, seen)) == (spec_encode_rdata(RData::ZONEMD(x)).unwrap().len() as int, (
            false,
            seen,
        )),
{

}

proof fn lemma_len_svcb(x: SVCB, seen: Set<Seq<u8>>)
    requires
        spec_encode_rdata(RData::SVCB(x)) is Some,
    ensures
        spec_rdata_bytes_len(RData::SVCB(x), (false, seen)) == (spec_encode_rdata(RData::SVCB(x)).unwrap().len() as int, (
            false,
            seen,
        )),
{
    lemma_name_len_off(x.target@, seen, false);
    lemma_sorted_params_len(x.params@);
}

proof fn lemma_len_https(x: HTTPS, seen: Set<Seq<u8>>)
    requires
        spec_encode_rdata(RData::HTTPS(x)) is Some,
    ensures
        spec_rdata_bytes_len(RData::HTTPS(x), (false, seen)) == (spec_encode_rdata(RData::HTTPS(x)).unwrap().len() as int, (
            false,
            seen,
        )),
{
    lemma_name_len_off(x.0.target@, seen, false);
    lemma_sorted_params_len(x.0.params@);
}

proof fn lemma_len_spf(x: SPF, seen: Set<Seq<u8>>)
    requires
        spec_encode_rdata(RData::SPF(x)) is Some,
    ensures
        spec_rdata_bytes_len(RData::SPF(x), (false, seen)) == (spec_encode_rdata(RData::SPF(x)).unwrap().len() as int, (
            false,
            seen,
        )),
{

}

proof fn lemma_len_uinfo(x: UINFO, seen: Set<Seq<u8>>)
    requires
        spec_encode_rdata(RData::UINFO(x)) is Some,
    ensures
        spec_rdata_bytes_len(RData::UINFO(x), (false, seen)) == (spec_encode_rdata(RData::UINFO(x)).unwrap().len() as int, (
            false,
            seen,
        )),
{

}

proof fn lemma_len_uid(x: UID, seen: Set<Seq<u8>>)
    requires
        spec_encode_rdata(RData::UID(x)) is Some,
    ensures
        spec_rdata_bytes_len(RData::UID(x), (false, seen)) == (spec_encode_rdata(RData::UID(x)).unwrap().len() as int, (
            false,
            seen,
        )),
{

}

proof fn lemma_len_gid(x: GID, seen: Set<Seq<u8>>)
    requires
        spec_encode_rdata(RData::GID(x)) is Some,
    ensures
        spec_rdata_bytes_len(RData::GID(x), (false, seen)) == (spec_encode_rdata(RData::GID(x)).unwrap().len() as int, (
            false,
            seen,
        )),
{

}

proof fn lemma_len_unspec(x: UNSPEC, seen: Set<Seq<u8>>)
    requires
        spec_encode_rdata(RData::UNSPEC(x)) is Some,
    ensures
        spec_rdata_bytes_len(RData::UNSPEC(x), (false, seen)) == (spec_encode_rdata(RData::UNSPEC(x)).unwrap().len() as int, (
            false,
            seen,
        )),
{

}

proof fn lemma_len_nid(x: NID, seen: Set<Seq<u8>>)
    requires
        spec_encode_rdata(RData::NID(x)) is Some,
    ensures
        spec_rdata_bytes_len(RData::NID(x), (false, seen)) == (spec_encode_rdata(RData::NID(x)).unwrap().len() as int, (
            false,
            seen,
        )),
{

}

proof fn lemma_len_l32(x: L32, seen: Set<Seq<u8>>)
    requires
        spec_encode_rdata(RData::L32(x)) is Some,
    ensures
        spec_rdata_bytes_len(RData::L32(x), (false, seen)) == (spec_encode_rdata(RData::L32(x)).unwrap().len() as int, (
            false,
            seen,
        )),
{

}

proof fn lemma_len_l64(x: L64, seen: Set<Seq<u8>>)
    requires
        spec_encode_rdata(RData::L64(x)) is Some,
    ensures
        spec_rdata_bytes_len(RData::L64(x), (false, seen)) == (spec_encode_rdata(RData::L64(x)).unwrap().len() as int, (
            false,
            seen,
        )),
{

}

proof fn lemma_len_lp(x: LP, seen: Set<Seq<u8>>)
    requires
        spec_encode_rdata(RData::LP(x)) is Some,
    ensures
        spec_rdata_bytes_len(RData::LP(x), (false, seen)) == (spec_encode_rdata(RData::LP(x)).unwrap().len() as int, (
            false,
            seen,
        )),
{
    lemma_name_len_off(x.fqdn@, seen, false);
}

proof fn lemma_len_eui48(x: EUI48, seen: Set<Seq<u8>>)
    requires
        spec_encode_rdata(RData::EUI48(x)) is Some,
    ensures
        spec_rdata_bytes_len(RData::EUI48(x), (false, seen)) == (spec_encode_rdata(RData::EUI48(x)).unwrap().len() as int, (
            false,
            seen,
        )),
{

}

proof fn lemma_len_eui64(x: EUI64, seen: Set<Seq<u8>>)
    requires
        spec_encode_rdata(RData::EUI64(x)) is Some,
    ensures
        spec_rdata_bytes_len(RData::EUI64(x), (false, seen)) == (spec_encode_rdata(RData::EUI64(x)).unwrap().len() as int, (
            false,
            seen,
        )),
{

}

proof fn lemma_len_aname(x: ANAME, seen: Set<Seq<u8>>)
    requires
        spec_encode_rdata(RData::ANAME(x)) is Some,
    ensures
        spec_rdata_bytes_len(RData::ANAME(x), (false, seen)) == (spec_encode_rdata(RData::ANAME(x)).unwrap().len() as int, (
            false,
            seen,
        )),
{
    lemma_name_len_off(x.0@, seen, true);
}

proof fn lemma_len_uri(x: URI, seen: Set<Seq<u8>>)
    requires
        spec_encode_rdata(RData::URI(x)) is Some,
    ensures
        spec_rdata_bytes_len(RData::URI(x), (false, seen)) == (spec_encode_rdata(RData::URI(x)).unwrap().len() as int, (
            false,
            seen,
        )),
{

}

proof fn lemma_len_caa(x: CAA, seen: Set<Seq<u8>>)
    requires
        spec_encode_rdata(RData::CAA(x)) is Some,
    ensures
        spec_rdata_bytes_len(RData::CAA(x), (false, seen)) == (spec_encode_rdata(RData::CAA(x)).unwrap().len() as int, (
            false,
            seen,
        )),
{

}

proof fn lemma_len_avc(x: AVC, seen: Set<Seq<u8>>)
    requires
        spec_encode_rdata(RData::AVC(x)) is Some,
    ensures
        spec_rdata_bytes_len(RData::AVC(x), (false, seen)) == (spec_encode_rdata(RData::AVC(x)).unwrap().len() as int, (
            false,
            seen,
        )),
{

}

proof fn lemma_len_doa(x: DOA, seen: Set<Seq<u8>>)
    requires
        spec_encode_rdata(RData::DOA(x)) is Some,
    ensures
        spec_rdata_bytes_len(RData::DOA(x), (false, seen)) == (spec_encode_rdata(RData::DOA(x)).unwrap().len() as int, (
            false,
            seen,
        )),
{

}

proof fn lemma_len_amtrelay(x: AMTRELAY, seen: Set<Seq<u8>>)
    requires
        spec_encode_rdata(RData::AMTRELAY(x)) is Some,
    ensures
        spec_rdata_bytes_len(RData::AMTRELAY(x), (false, seen)) == (spec_encode_rdata(RData::AMTRELAY(x)).unwrap().len() as int, (
            false,
            seen,
        )),
{

}

proof fn lemma_len_resinfo(x: RESINFO, seen: Set<Seq<u8>>)
    requires
        spec_encode_rdata(RData::RESINFO(x)) is Some,
    ensures
        spec_rdata_bytes_len(RData::RESINFO(x), (false, seen)) == (spec_encode_rdata(RData::RESINFO(x)).unwrap().len() as int, (
            false,
            seen,
        )),
{

}

proof fn lemma_len_tkey(x: TKEY, seen: Set<Seq<u8>>)
    requires
        spec_encode_rdata(RData::TKEY(x)) is Some,
    ensures
        spec_rdata_bytes_len(RData::TKEY(x), (false, seen)) == (spec_encode_rdata(RData::TKEY(x)).unwrap().len() as int, (
            false,
            seen,
        )),
{
    lemma_name_len_off(x.algorithm@, seen, false);
}

proof fn lemma_len_tsig(x: TSIG, seen: Set<Seq<u8>>)
    requires
        spec_encode_rdata(RData::TSIG(x)) is Some,
    ensures
        spec_rdata_bytes_len(RData::TSIG(x), (false, seen)) == (spec_encode_rdata(RData::TSIG(x)).unwrap().len() as int, (
            false,
            seen,
        )),
{
    lemma_name_len_off(x.algorithm@, seen, false);
}

proof fn lemma_len_ixfr(x: IXFR, seen: Set<Seq<u8>>)
    requires
        spec_encode_rdata(RData::IXFR(x)) is Some,
    ensures
        spec_rdata_bytes_len(RData::IXFR(x), (false, seen)) == (spec_encode_rdata(RData::IXFR(x)).unwrap().len() as int, (
            false,
            seen,
        )),
{

}

proof fn lemma_len_axfr(x: AXFR, seen: Set<Seq<u8>>)
    requires
        spec_encode_rdata(RData::AXFR(x)) is Some,
    ensures
        spec_rdata_bytes_len(RData::AXFR(x), (false, seen)) == (spec_encode_rdata(RData::AXFR(x)).unwrap().len() as int, (
            false,
            seen,
        )),
{

}

proof fn lemma_len_mailb(x: MAILB, seen: Set<Seq<u8>>)
    requires
        spec_encode_rdata(RData::MAILB(x)) is Some,
    ensures
        spec_rdata_bytes_len(RData::MAILB(x), (false, seen)) == (spec_encode_rdata(RData::MAILB(x)).unwrap().len() as int, (
            false,
            seen,
        )),
{

}

proof fn lemma_len_maila(x: MAILA, seen: Set<Seq<u8>>)
    requires
        spec_encode_rdata(RData::MAILA(x)) is Some,
    ensures
        spec_rdata_bytes_len(RData::MAILA(x), (false, seen)) == (spec_encode_rdata(RData::MAILA(x)).unwrap().len() as int, (
            false,
            seen,
        )),
{

}

proof fn lemma_len_any(x: ANY, seen: Set<Seq<u8>>)
    requires
        spec_encode_rdata(RData::ANY(x)) is Some,
    ensures
        spec_rdata_bytes_len(RData::ANY(x), (false, seen)) == (spec_encode_rdata(RData::ANY(x)).unwrap().len() as int, (
            false,
            seen,
        )),
{

}

proof fn lemma_len_ta(x: TA, seen: Set<Seq<u8>>)
    requires
        spec_encode_rdata(RData::TA(x)) is Some,
    ensures
        spec_rdata_bytes_len(RData::TA(x), (false, seen)) == (spec_encode_rdata(RData::TA(x)).unwrap().len() as int, (
            false,
            seen,
        )),
{

}

proof fn lemma_len_dlv(x: DLV, seen: Set<Seq<u8>>)
    requires
        spec_encode_rdata(RData::DLV(x)) is Some,
    ensures
        spec_rdata_bytes_len(RData::DLV(x), (false, seen)) == (spec_encode_rdata(RData::DLV(x)).unwrap().len() as int, (
            false,
            seen,
        )),
{

}

proof fn lemma_len_txt(x: TXT, seen: Set<Seq<u8>>)
    requires
        spec_encode_rdata(RData::TXT(x)) is Some,
    ensures
        spec_rdata_bytes_len(RData::TXT(x), (false, seen)) == (spec_encode_rdata(RData::TXT(x)).unwrap().len() as int, (
            false,
            seen,
        )),
{

}

proof fn lemma_len_soa(x: SOA, seen: Set<Seq<u8>>)
    requires
        spec_encode_rdata(RData::SOA(x)) is Some,
    ensures
        spec_rdata_bytes_len(RData::SOA(x), (false, seen)) == (spec_encode_rdata(RData::SOA(x)).unwrap().len() as int, (
            false,
            seen,
        )),
{
    lemma_name_len_off(x.mname@, seen, true);
    lemma_name_len_off(x.rname@, seen, true);
}

proof fn lemma_len_opt(x: OPT, seen: Set<Seq<u8>>)
    requires
        spec_encode_rdata(RData::OPT(x)) is Some,
    ensures
        spec_rdata_bytes_len(RData::OPT(x), (false, seen)) == (spec_encode_rdata(RData::OPT(x)).unwrap().len() as int, (
            false,
            seen,
        )),
{
    lemma_options_encoding_len(x.0.options@);
}

} // verus!
