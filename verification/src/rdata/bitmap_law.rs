//! Laws of type bit maps: the window blocks of a strictly increasing code
//! list decode back to the list and are laid out canonically, and a type
//! list has one canonical code list.

use vstd::prelude::*;
use crate::rdata::bitmap::{
    spec_block_types, spec_decode_bitmaps, spec_encode_codes, spec_group_len, spec_group_octet, spec_octet_types,
    strictly_sorted, nonzero_codes, spec_canonical_codes, spec_encode_types,
};
use crate::types::{RecordType, spec_record_type_from_u16, spec_record_type_code};

verus! {

/// Bit `b` (0 is the most significant) of `o` is set.
pub open spec fn spec_octet_bit(o: u8, b: int) -> bool {
    o & (1u8 << ((7 - b) as u8)) != 0
}

/// Bit `p` of a block, counting from the first octet's most significant
/// bit, is set.
pub open spec fn spec_block_bit(octets: Seq<u8>, p: int) -> bool {
    spec_octet_bit(octets[p / 8], p % 8)
}

/// Codes of the set bits of one octet from bit `bit` on.
pub open spec fn spec_octet_codes(window: u8, idx: int, octet: u8, bit: int) -> Seq<u16>
    decreases 8 - bit,
{
    if bit >= 8 || bit < 0 {
        Seq::empty()
    } else {
        let rest = spec_octet_codes(window, idx, octet, bit + 1);
        if octet & (1u8 << ((7 - bit) as u8)) != 0 {
            seq![(((window as u16) << 8u16) | ((idx * 8 + bit) as u16)) as u16] + rest
        } else {
            rest
        }
    }
}

/// Codes of the set bits of a block from octet `idx` on.
pub open spec fn spec_block_codes(window: u8, octets: Seq<u8>, idx: int) -> Seq<u16>
    decreases octets.len() - idx,
{
    if idx >= octets.len() || idx < 0 {
        Seq::empty()
    } else {
        spec_octet_codes(window, idx, octets[idx], 0) + spec_block_codes(window, octets, idx + 1)
    }
}

/// The record types of a list of codes.
pub open spec fn spec_types_of(cs: Seq<u16>) -> Seq<RecordType> {
    cs.map_values(|c: u16| spec_record_type_from_u16(c))
}

proof fn lemma_octet_types_codes(window: u8, idx: int, octet: u8, bit: int)
    ensures
        spec_octet_types(window, idx, octet, bit) == spec_types_of(spec_octet_codes(window, idx, octet, bit)),
    decreases 8 - bit,
{
    if 0 <= bit < 8 {
        lemma_octet_types_codes(window, idx, octet, bit + 1);
        let rest = spec_octet_codes(window, idx, octet, bit + 1);
        let c = (((window as u16) << 8u16) | ((idx * 8 + bit) as u16)) as u16;
        assert(spec_types_of(seq![c] + rest) =~= seq![spec_record_type_from_u16(c)] + spec_types_of(rest));
    } else {
        assert(spec_types_of(Seq::<u16>::empty()) =~= Seq::<RecordType>::empty());
    }
}

proof fn lemma_block_types_codes(window: u8, octets: Seq<u8>, idx: int)
    ensures
        spec_block_types(window, octets, idx) == spec_types_of(spec_block_codes(window, octets, idx)),
    decreases octets.len() - idx,
{
    if 0 <= idx < octets.len() {
        lemma_block_types_codes(window, octets, idx + 1);
        lemma_octet_types_codes(window, idx, octets[idx], 0);
        let a = spec_octet_codes(window, idx, octets[idx], 0);
        let b = spec_block_codes(window, octets, idx + 1);
        assert(spec_types_of(a + b) =~= spec_types_of(a) + spec_types_of(b));
    } else {
        assert(spec_types_of(Seq::<u16>::empty()) =~= Seq::<RecordType>::empty());
    }
}

proof fn lemma_code_value(window: u8, v: u16)
    requires
        v < 256,
    ensures
        (((window as u16) << 8u16) | v) as int == window as int * 256 + v as int,
{
    assert((((window as u16) << 8u16) | v) == (window as u16) * 256 + v) by (bit_vector)
        requires
            v < 256,
    ;
}

proof fn lemma_code_split(c: u16)
    ensures
        c as int == (c >> 8u16) as int * 256 + (c & 0xFFu16) as int,
        (c >> 8u16) < 256,
        (c & 0xFFu16) < 256,
{
    assert(c == (c >> 8u16) * 256 + (c & 0xFFu16)) by (bit_vector);
    assert((c >> 8u16) < 256) by (bit_vector);
    assert((c & 0xFFu16) < 256) by (bit_vector);
}

proof fn lemma_shift_monotone(a: u16, b: u16)
    requires
        a <= b,
    ensures
        (a >> 8u16) <= (b >> 8u16),
{
    assert(a <= b ==> (a >> 8u16) <= (b >> 8u16)) by (bit_vector);
}

proof fn lemma_or_bit(x: u8, s: u8, t: u8)
    requires
        s < 8,
        t < 8,
    ensures
        ((x | (1u8 << s)) & (1u8 << t) != 0) == ((x & (1u8 << t) != 0) || s == t),
        (0u8 & (1u8 << t)) == 0,
{
    assert(((x | (1u8 << s)) & (1u8 << t) != 0) == ((x & (1u8 << t) != 0) || s == t)) by (bit_vector)
        requires
            s < 8,
            t < 8,
    ;
    assert((0u8 & (1u8 << t)) == 0) by (bit_vector);
}

/// The codes of one octet from `bit` on: each names a set bit at or after
/// `bit`, every such bit is named, and they increase.
proof fn lemma_octet_codes(window: u8, idx: int, octet: u8, bit: int)
    requires
        0 <= idx < 32,
        0 <= bit <= 8,
    ensures
        ({
            let s = spec_octet_codes(window, idx, octet, bit);
            let base = window as int * 256 + idx * 8;
            &&& forall|k: int| 0 <= k < s.len() ==> bit <= #[trigger] s[k] - base < 8 && spec_octet_bit(
                octet,
                s[k] - base,
            )
            &&& forall|b: int| bit <= b < 8 && spec_octet_bit(octet, b) ==> s.contains((base + b) as u16)
            &&& forall|i: int, j: int| 0 <= i < j < s.len() ==> s[i] < s[j]
        }),
    decreases 8 - bit,
{
    if bit < 8 {
        lemma_octet_codes(window, idx, octet, bit + 1);
        let rest = spec_octet_codes(window, idx, octet, bit + 1);
        let s = spec_octet_codes(window, idx, octet, bit);
        let base = window as int * 256 + idx * 8;
        lemma_code_value(window, (idx * 8 + bit) as u16);
        let c = (((window as u16) << 8u16) | ((idx * 8 + bit) as u16)) as u16;
        if spec_octet_bit(octet, bit) {
            assert(s == seq![c] + rest);
            assert(c as int == base + bit);
            assert forall|k: int| 0 <= k < s.len() implies bit <= #[trigger] s[k] - base < 8 && spec_octet_bit(
                octet,
                s[k] - base,
            ) by {
                if k > 0 {
                    assert(s[k] == rest[k - 1]);
                }
            }
            assert forall|b: int| bit <= b < 8 && spec_octet_bit(octet, b) implies s.contains((base + b) as u16) by {
                if b == bit {
                    assert(s[0] == c);
                } else {
                    let k = choose|k: int| 0 <= k < rest.len() && rest[k] == (base + b) as u16;
                    assert(s[k + 1] == rest[k]);
                }
            }
            assert forall|i: int, j: int| 0 <= i < j < s.len() implies s[i] < s[j] by {
                if i == 0 {
                    assert(s[j] == rest[j - 1]);
                    assert(rest[j - 1] - base >= bit + 1);
                } else {
                    assert(s[i] == rest[i - 1] && s[j] == rest[j - 1]);
                }
            }
        } else {
            assert(s == rest);
            assert forall|b: int| bit <= b < 8 && spec_octet_bit(octet, b) implies s.contains((base + b) as u16) by {
                assert(b != bit);
            }
        }
    }
}

/// The codes of a block from octet `idx` on: each names a set bit of the
/// block at or after octet `idx`, every such bit is named, and they
/// increase.
proof fn lemma_block_codes(window: u8, octets: Seq<u8>, idx: int)
    requires
        octets.len() <= 32,
        0 <= idx <= octets.len(),
    ensures
        ({
            let s = spec_block_codes(window, octets, idx);
            let base = window as int * 256;
            &&& forall|k: int| 0 <= k < s.len() ==> idx * 8 <= #[trigger] s[k] - base < octets.len() * 8
                && spec_block_bit(octets, s[k] - base)
            &&& forall|p: int| idx * 8 <= p < octets.len() * 8 && #[trigger] spec_block_bit(octets, p) ==> s.contains(
                (base + p) as u16,
            )
            &&& forall|i: int, j: int| 0 <= i < j < s.len() ==> s[i] < s[j]
        }),
    decreases octets.len() - idx,
{
    if idx < octets.len() {
        lemma_block_codes(window, octets, idx + 1);
        lemma_octet_codes(window, idx, octets[idx], 0);
        let a = spec_octet_codes(window, idx, octets[idx], 0);
        let b = spec_block_codes(window, octets, idx + 1);
        let s = spec_block_codes(window, octets, idx);
        let base = window as int * 256;
        assert(s == a + b);
        assert forall|k: int| 0 <= k < s.len() implies idx * 8 <= #[trigger] s[k] - base < octets.len() * 8
            && spec_block_bit(octets, s[k] - base) by {
            if k < a.len() {
                assert(s[k] == a[k]);
                assert(0 <= a[k] - base - idx * 8 < 8);
                assert((s[k] - base) / 8 == idx);
                assert((s[k] - base) % 8 == a[k] - (base + idx * 8));
            } else {
                assert(s[k] == b[k - a.len()]);
            }
        }
        assert forall|p: int| idx * 8 <= p < octets.len() * 8 && #[trigger] spec_block_bit(octets, p) implies s.contains(
            (base + p) as u16,
        ) by {
            if p < idx * 8 + 8 {
                assert(p / 8 == idx);
                assert(p % 8 == p - idx * 8);
                assert(a.contains((base + idx * 8 + (p - idx * 8)) as u16));
                let k = choose|k: int| 0 <= k < a.len() && a[k] == (base + idx * 8 + (p - idx * 8)) as u16;
                assert(s[k] == a[k]);
            } else {
                let k = choose|k: int| 0 <= k < b.len() && b[k] == (base + p) as u16;
                assert(s[a.len() + k] == b[k]);
            }
        }
        assert forall|i: int, j: int| 0 <= i < j < s.len() implies s[i] < s[j] by {
            if j < a.len() {
                assert(s[i] == a[i] && s[j] == a[j]);
            } else if i >= a.len() {
                assert(s[i] == b[i - a.len()] && s[j] == b[j - a.len()]);
            } else {
                assert(s[i] == a[i] && s[j] == b[j - a.len()]);
            }
        }
    } else {
        assert(spec_block_codes(window, octets, idx) =~= Seq::<u16>::empty());
    }
}

/// A set bit of a group's octet comes from a code of the group, and every
/// code sets its bit.
proof fn lemma_group_octet_bits(grp: Seq<u16>, j: int, b: int)
    requires
        0 <= b < 8,
    ensures
        spec_octet_bit(spec_group_octet(grp, j), b) <==> exists|k: int| 0 <= k < grp.len() && (#[trigger] grp[k] & 0xFFu16) as int == 8
            * j + b,
    decreases grp.len(),
{
    if grp.len() == 0 {
        lemma_or_bit(0, 0, (7 - b) as u8);
    } else {
        lemma_group_octet_bits(grp.drop_last(), j, b);
        let c = grp.last();
        let low = (c & 0xFFu16) as int;
        lemma_code_split(c);
        let prev = spec_group_octet(grp.drop_last(), j);
        if low / 8 == j {
            lemma_or_bit(prev, (7 - low % 8) as u8, (7 - b) as u8);
        }
        if exists|k: int| 0 <= k < grp.len() && (#[trigger] grp[k] & 0xFFu16) as int == 8 * j + b {
            let k = choose|k: int| 0 <= k < grp.len() && (#[trigger] grp[k] & 0xFFu16) as int == 8 * j + b;
            if k < grp.len() - 1 {
                assert(grp.drop_last()[k] == grp[k]);
            }
        }
        if exists|k: int| 0 <= k < grp.drop_last().len() && (#[trigger] grp.drop_last()[k] & 0xFFu16) as int == 8 * j + b {
            let k = choose|k: int| 0 <= k < grp.drop_last().len() && (#[trigger] grp.drop_last()[k] & 0xFFu16) as int == 8 * j
                + b;
            assert(grp[k] == grp.drop_last()[k]);
        }
    }
}

/// Two increasing code lists with the same members are equal.
pub(crate) proof fn lemma_sorted_same_members(s: Seq<u16>, t: Seq<u16>)
    requires
        forall|i: int, j: int| 0 <= i < j < s.len() ==> s[i] < s[j],
        forall|i: int, j: int| 0 <= i < j < t.len() ==> t[i] < t[j],
        forall|x: u16| s.contains(x) <==> t.contains(x),
    ensures
        s == t,
    decreases s.len(),
{
    if s.len() == 0 {
        if t.len() > 0 {
            assert(t.contains(t[0]));
        }
        assert(s =~= t);
    } else {
        assert(s.contains(s[0]));
        assert(t.len() > 0);
        assert(t.contains(t[0]));
        let i = choose|i: int| 0 <= i < t.len() && t[i] == s[0];
        let k = choose|k: int| 0 <= k < s.len() && s[k] == t[0];
        if i > 0 {
            assert(t[0] < t[i]);
        }
        if k > 0 {
            assert(s[0] < s[k]);
        }
        assert(s[0] == t[0]);
        assert forall|x: u16| s.drop_first().contains(x) <==> t.drop_first().contains(x) by {
            if s.drop_first().contains(x) {
                let a = choose|a: int| 0 <= a < s.drop_first().len() && s.drop_first()[a] == x;
                assert(s[a + 1] == x);
                assert(s.contains(x));
                let b = choose|b: int| 0 <= b < t.len() && t[b] == x;
                assert(b != 0);
                assert(t.drop_first()[b - 1] == x);
            }
            if t.drop_first().contains(x) {
                let a = choose|a: int| 0 <= a < t.drop_first().len() && t.drop_first()[a] == x;
                assert(t[a + 1] == x);
                assert(t.contains(x));
                let b = choose|b: int| 0 <= b < s.len() && s[b] == x;
                assert(b != 0);
                assert(s.drop_first()[b - 1] == x);
            }
        }
        lemma_sorted_same_members(s.drop_first(), t.drop_first());
        assert(s =~= seq![s[0]] + s.drop_first());
        assert(t =~= seq![t[0]] + t.drop_first());
    }
}

proof fn lemma_group_prefix(cs: Seq<u16>, win: u16)
    ensures
        0 <= spec_group_len(cs, win) <= cs.len(),
        forall|k: int| 0 <= k < spec_group_len(cs, win) ==> (#[trigger] cs[k] >> 8u16) == win,
        spec_group_len(cs, win) < cs.len() ==> (cs[spec_group_len(cs, win)] >> 8u16) != win,
    decreases cs.len(),
{
    if cs.len() > 0 && (cs[0] >> 8u16) == win {
        lemma_group_prefix(cs.drop_first(), win);
        assert forall|k: int| 0 <= k < spec_group_len(cs, win) implies (#[trigger] cs[k] >> 8u16) == win by {
            if k > 0 {
                assert(cs[k] == cs.drop_first()[k - 1]);
            }
        }
    }
}

/// The window blocks of a strictly increasing code list decode back to the
/// list, when the windows start after `last`.
proof fn lemma_decode_encoded(cs: Seq<u16>, last: int)
    requires
        strictly_sorted(cs),
        -1 <= last,
        cs.len() > 0 ==> last < (cs[0] >> 8u16) as int,
    ensures
        spec_decode_bitmaps(spec_encode_codes(cs), last) == Some(spec_types_of(cs)),
    decreases cs.len(),
{
    if cs.len() == 0 {
        assert(spec_types_of(cs) =~= Seq::<RecordType>::empty());
    } else {
        let win = cs[0] >> 8u16;
        lemma_code_split(cs[0]);
        lemma_group_prefix(cs, win);
        let g = spec_group_len(cs, win);
        assert(g >= 1);
        let grp = cs.take(g);
        let lowlast = (grp.last() & 0xFFu16) as int;
        lemma_code_split(grp.last());
        let n = lowlast / 8 + 1;
        let octets = Seq::new(n as nat, |j: int| spec_group_octet(grp, j));
        let rest = cs.skip(g);
        let w = spec_encode_codes(cs);
        assert(w == seq![win as u8, n as u8] + octets + spec_encode_codes(rest));
        assert(w[0] == win as u8);
        assert(w[1] == n as u8);
        assert(w.subrange(2, 2 + n) =~= octets);
        assert(w.skip(2 + n) =~= spec_encode_codes(rest));
        // the block lists the group
        lemma_block_codes(win as u8, octets, 0);
        let bc = spec_block_codes(win as u8, octets, 0);
        let base = win as int * 256;
        assert forall|k: int| 0 <= k < grp.len() implies (#[trigger] grp[k]) as int == base + (grp[k] & 0xFFu16) as int
            && (grp[k] & 0xFFu16) as int <= lowlast by {
            lemma_code_split(grp[k]);
            assert(grp[k] == cs[k]);
            if k < grp.len() - 1 {
                assert(cs[k] < cs[g - 1]);
                lemma_code_split(cs[g - 1]);
            }
        }
        assert forall|x: u16| bc.contains(x) <==> grp.contains(x) by {
            if bc.contains(x) {
                let k = choose|k: int| 0 <= k < bc.len() && bc[k] == x;
                let p = x - base;
                lemma_group_octet_bits(grp, p / 8, p % 8);
                let q = choose|q: int| 0 <= q < grp.len() && (#[trigger] grp[q] & 0xFFu16) as int == 8 * (p / 8) + p % 8;
                assert(grp[q] as int == base + p);
            }
            if grp.contains(x) {
                let q = choose|q: int| 0 <= q < grp.len() && grp[q] == x;
                let p = (grp[q] & 0xFFu16) as int;
                lemma_group_octet_bits(grp, p / 8, p % 8);
                assert(spec_block_bit(octets, p));
            }
        }
        assert forall|i: int, j: int| 0 <= i < j < grp.len() implies grp[i] < grp[j] by {
            assert(grp[i] == cs[i] && grp[j] == cs[j]);
        }
        lemma_sorted_same_members(bc, grp);
        lemma_block_types_codes(win as u8, octets, 0);
        // the rest starts in a later window
        if rest.len() > 0 {
            assert(rest[0] == cs[g]);
            assert(cs[g - 1] < cs[g]);
            lemma_shift_monotone(cs[g - 1], cs[g]);
            assert((cs[g - 1] >> 8u16) == win);
        }
        assert forall|i: int, j: int| 0 <= i < j < rest.len() implies rest[i] < rest[j] by {
            assert(rest[i] == cs[g + i] && rest[j] == cs[g + j]);
        }
        lemma_decode_encoded(rest, win as int);
        assert(spec_types_of(cs) =~= spec_types_of(grp) + spec_types_of(rest));
    }
}

/// Decoding the type bit map that a strictly increasing code list encodes
/// gives the types of those codes, in order.
pub proof fn lemma_bitmap_roundtrip(cs: Seq<u16>)
    requires
        strictly_sorted(cs),
    ensures
        spec_decode_bitmaps(spec_encode_codes(cs), -1) == Some(spec_types_of(cs)),
{
    if cs.len() > 0 {
        lemma_code_split(cs[0]);
    }
    lemma_decode_encoded(cs, -1);
}

/// Window blocks laid out canonically after window `last`: windows
/// strictly increase, each block holds 1 to 32 octets, and its last octet is
/// nonzero.
pub open spec fn spec_blocks_canonical(w: Seq<u8>, last: int) -> bool
    decreases w.len(),
{
    if w.len() == 0 {
        true
    } else if w.len() < 2 || w[0] <= last || w[1] < 1 || w[1] > 32 || w.len() < 2 + w[1] {
        false
    } else {
        w[1 + w[1]] != 0 && spec_blocks_canonical(w.skip(2 + w[1]), w[0] as int)
    }
}

proof fn lemma_encoded_blocks(cs: Seq<u16>, last: int)
    requires
        strictly_sorted(cs),
        -1 <= last,
        cs.len() > 0 ==> last < (cs[0] >> 8u16) as int,
    ensures
        spec_blocks_canonical(spec_encode_codes(cs), last),
    decreases cs.len(),
{
    if cs.len() > 0 {
        let win = cs[0] >> 8u16;
        lemma_code_split(cs[0]);
        lemma_group_prefix(cs, win);
        let g = spec_group_len(cs, win);
        let grp = cs.take(g);
        let lowlast = (grp.last() & 0xFFu16) as int;
        lemma_code_split(grp.last());
        let n = lowlast / 8 + 1;
        let octets = Seq::new(n as nat, |j: int| spec_group_octet(grp, j));
        let rest = cs.skip(g);
        let w = spec_encode_codes(cs);
        assert(w == seq![win as u8, n as u8] + octets + spec_encode_codes(rest));
        assert(w[0] == win as u8);
        assert(w[1] == n as u8);
        assert(w[1 + n] == octets[n - 1]);
        assert(w.skip(2 + n) =~= spec_encode_codes(rest));
        lemma_group_octet_bits(grp, n - 1, lowlast % 8);
        assert(grp[g - 1] == grp.last());
        let o = octets[n - 1];
        let m = 1u8 << ((7 - lowlast % 8) as u8);
        assert(o & m != 0);
        assert(o & m != 0 ==> o != 0) by (bit_vector);
        if rest.len() > 0 {
            assert(rest[0] == cs[g]);
            assert(cs[g - 1] < cs[g]);
            lemma_shift_monotone(cs[g - 1], cs[g]);
            assert((cs[g - 1] >> 8u16) == win);
        }
        assert forall|i: int, j: int| 0 <= i < j < rest.len() implies rest[i] < rest[j] by {
            assert(rest[i] == cs[g + i] && rest[j] == cs[g + j]);
        }
        lemma_encoded_blocks(rest, win as int);
    }
}

/// The window blocks of a strictly increasing code list are laid out
/// canonically: windows increase, each block holds 1 to 32 octets and ends
/// on a nonzero octet.
pub proof fn lemma_bitmap_blocks_canonical(cs: Seq<u16>)
    requires
        strictly_sorted(cs),
    ensures
        spec_blocks_canonical(spec_encode_codes(cs), -1),
{
    if cs.len() > 0 {
        lemma_code_split(cs[0]);
    }
    lemma_encoded_blocks(cs, -1);
}

/// Two strictly increasing code lists with the same members are the same
/// list, so a type list has one canonical code list.
pub proof fn lemma_canonical_codes_unique(a: Seq<u16>, b: Seq<u16>)
    requires
        strictly_sorted(a),
        strictly_sorted(b),
        a.to_set() == b.to_set(),
    ensures
        a == b,
{
    assert forall|x: u16| a.contains(x) <==> b.contains(x) by {
        assert(a.to_set().contains(x) == a.contains(x));
        assert(b.to_set().contains(x) == b.contains(x));
    }
    lemma_sorted_same_members(a, b);
}

/// `cs` with `c` put in its place, unless it is already there.
pub open spec fn spec_insert_code(cs: Seq<u16>, c: u16) -> Seq<u16>
    decreases cs.len(),
{
    if cs.len() == 0 {
        seq![c]
    } else if c < cs[0] {
        seq![c] + cs
    } else if c == cs[0] {
        cs
    } else {
        seq![cs[0]] + spec_insert_code(cs.drop_first(), c)
    }
}

proof fn lemma_insert_code(cs: Seq<u16>, c: u16)
    requires
        strictly_sorted(cs),
    ensures
        strictly_sorted(spec_insert_code(cs, c)),
        spec_insert_code(cs, c).to_set() == cs.to_set().insert(c),
        spec_insert_code(cs, c).len() > 0,
        spec_insert_code(cs, c)[0] == (if cs.len() > 0 && cs[0] < c { cs[0] } else { c }),
    decreases cs.len(),
{
    let r = spec_insert_code(cs, c);
    if cs.len() == 0 {
        assert(r.to_set() =~= cs.to_set().insert(c)) by {
            assert forall|x: u16| r.to_set().contains(x) <==> cs.to_set().insert(c).contains(x) by {
                if r.contains(x) {
                    assert(r[0] == x);
                }
                if x == c {
                    assert(r[0] == c);
                }
            }
        }
    } else if c < cs[0] {
        assert forall|i: int, j: int| 0 <= i < j < r.len() implies r[i] < r[j] by {
            if i > 0 {
                assert(r[i] == cs[i - 1] && r[j] == cs[j - 1]);
            } else {
                assert(r[j] == cs[j - 1]);
                if j > 1 {
                    assert(cs[0] < cs[j - 1]);
                }
            }
        }
        assert(r.to_set() =~= cs.to_set().insert(c)) by {
            assert forall|x: u16| r.to_set().contains(x) <==> cs.to_set().insert(c).contains(x) by {
                if r.contains(x) {
                    let k = choose|k: int| 0 <= k < r.len() && r[k] == x;
                    if k > 0 {
                        assert(cs[k - 1] == x);
                    }
                }
                if cs.contains(x) {
                    let k = choose|k: int| 0 <= k < cs.len() && cs[k] == x;
                    assert(r[k + 1] == x);
                }
                if x == c {
                    assert(r[0] == c);
                }
            }
        }
    } else if c == cs[0] {
        assert(r.to_set() =~= cs.to_set().insert(c)) by {
            assert(cs.contains(c));
        }
    } else {
        let t = cs.drop_first();
        assert forall|i: int, j: int| 0 <= i < j < t.len() implies t[i] < t[j] by {
            assert(t[i] == cs[i + 1] && t[j] == cs[j + 1]);
        }
        lemma_insert_code(t, c);
        let rt = spec_insert_code(t, c);
        assert forall|i: int, j: int| 0 <= i < j < r.len() implies r[i] < r[j] by {
            if i > 0 {
                assert(r[i] == rt[i - 1] && r[j] == rt[j - 1]);
            } else {
                assert(r[j] == rt[j - 1]);
                assert(rt.to_set().contains(rt[j - 1]));
                assert(t.to_set().insert(c).contains(rt[j - 1]));
                if rt[j - 1] != c {
                    let k = choose|k: int| 0 <= k < t.len() && t[k] == rt[j - 1];
                    assert(cs[0] < cs[k + 1]);
                }
            }
        }
        assert(r.to_set() =~= cs.to_set().insert(c)) by {
            assert forall|x: u16| r.to_set().contains(x) <==> cs.to_set().insert(c).contains(x) by {
                if r.contains(x) {
                    let k = choose|k: int| 0 <= k < r.len() && r[k] == x;
                    if k > 0 {
                        assert(rt[k - 1] == x);
                        assert(rt.to_set().contains(x));
                        if x != c {
                            let q = choose|q: int| 0 <= q < t.len() && t[q] == x;
                            assert(cs[q + 1] == x);
                        }
                    }
                }
                if cs.contains(x) {
                    let k = choose|k: int| 0 <= k < cs.len() && cs[k] == x;
                    if k > 0 {
                        assert(t[k - 1] == x);
                        assert(t.to_set().insert(c).contains(x));
                        assert(rt.contains(x));
                        let q = choose|q: int| 0 <= q < rt.len() && rt[q] == x;
                        assert(r[q + 1] == x);
                    }
                }
                if x == c {
                    assert(t.to_set().insert(c).contains(c));
                    assert(rt.contains(c));
                    let q = choose|q: int| 0 <= q < rt.len() && rt[q] == c;
                    assert(r[q + 1] == c);
                }
            }
        }
    }
}

/// Every type list has a canonical code list: its distinct nonzero codes in
/// increasing order.
proof fn lemma_canonical_codes_exist(types: Seq<RecordType>)
    ensures
        exists|cs: Seq<u16>| strictly_sorted(cs) && cs.to_set() == nonzero_codes(types),
    decreases types.len(),
{
    if types.len() == 0 {
        let e = Seq::<u16>::empty();
        assert(e.to_set() =~= nonzero_codes(types));
        assert(strictly_sorted(e));
    } else {
        let init = types.drop_last();
        lemma_canonical_codes_exist(init);
        let cs = choose|cs: Seq<u16>| strictly_sorted(cs) && cs.to_set() == nonzero_codes(init);
        let c = spec_record_type_code(types.last());
        if c == 0 {
            assert(cs.to_set() =~= nonzero_codes(types)) by {
                assert forall|x: u16| nonzero_codes(types).contains(x) implies nonzero_codes(init).contains(x) by {
                    let i = choose|i: int| 0 <= i < types.len() && spec_record_type_code(types[i]) == x;
                    assert(i < init.len());
                    assert(init[i] == types[i]);
                }
                assert forall|x: u16| nonzero_codes(init).contains(x) implies nonzero_codes(types).contains(x) by {
                    let i = choose|i: int| 0 <= i < init.len() && spec_record_type_code(init[i]) == x;
                    assert(types[i] == init[i]);
                }
            }
        } else {
            lemma_insert_code(cs, c);
            let r = spec_insert_code(cs, c);
            assert(r.to_set() =~= nonzero_codes(types)) by {
                assert forall|x: u16| nonzero_codes(types).contains(x) implies nonzero_codes(init).insert(c).contains(x) by {
                    let i = choose|i: int| 0 <= i < types.len() && spec_record_type_code(types[i]) == x;
                    if i < init.len() {
                        assert(init[i] == types[i]);
                    }
                }
                assert forall|x: u16| nonzero_codes(init).insert(c).contains(x) implies nonzero_codes(types).contains(x) by {
                    if x == c {
                        assert(types[types.len() - 1] == types.last());
                    } else {
                        let i = choose|i: int| 0 <= i < init.len() && spec_record_type_code(init[i]) == x;
                        assert(types[i] == init[i]);
                    }
                }
            }
        }
    }
}

/// The type bit map of a type list: its canonical code list holds the
/// distinct nonzero codes in increasing order, its window blocks are laid out
/// canonically, and they decode to the types of those codes.
pub proof fn lemma_type_bit_maps_laws(types: Seq<RecordType>)
    ensures
        strictly_sorted(spec_canonical_codes(types)),
        spec_canonical_codes(types).to_set() == nonzero_codes(types),
        spec_blocks_canonical(spec_encode_types(types), -1),
        spec_decode_bitmaps(spec_encode_types(types), -1) == Some(spec_types_of(spec_canonical_codes(types))),
{
    lemma_canonical_codes_exist(types);
    let cs = spec_canonical_codes(types);
    lemma_bitmap_blocks_canonical(cs);
    lemma_bitmap_roundtrip(cs);
}

} // verus!
