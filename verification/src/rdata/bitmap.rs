//! NSEC/NSEC3/CSYNC type bit maps (RFC 4034 section 4.1.2, RFC 5155
//! section 3.2.1).

use vstd::prelude::*;
use crate::error::ProtoError;
use crate::types::{RecordType, spec_record_type_from_u16, spec_record_type_code};
use crate::rdata::bitmap_law::lemma_canonical_codes_unique;

verus! {

/// The types whose bits are set in one octet of a window block, starting at
/// bit `bit` (bit 0 is the most significant one).
pub open spec fn spec_octet_types(window: u8, idx: int, octet: u8, bit: int) -> Seq<RecordType>
    decreases 8 - bit,
{
    if bit >= 8 || bit < 0 {
        Seq::empty()
    } else {
        let rest = spec_octet_types(window, idx, octet, bit + 1);
        if octet & (1u8 << ((7 - bit) as u8)) != 0 {
            seq![spec_record_type_from_u16((((window as u16) << 8u16) | ((idx * 8 + bit) as u16)) as u16)]
                + rest
        } else {
            rest
        }
    }
}

/// The types listed by the octets of one window block, from octet `idx` on.
pub open spec fn spec_block_types(window: u8, octets: Seq<u8>, idx: int) -> Seq<RecordType>
    decreases octets.len() - idx,
{
    if idx >= octets.len() || idx < 0 {
        Seq::empty()
    } else {
        spec_octet_types(window, idx, octets[idx], 0) + spec_block_types(window, octets, idx + 1)
    }
}

/// Decode window blocks.  Windows must strictly increase (`last` is the
/// previous window, `-1` at the start); a block holds 1 to 32 octets and
/// must fit in the input, which must be used up exactly.
pub open spec fn spec_decode_bitmaps(w: Seq<u8>, last: int) -> Option<Seq<RecordType>>
    decreases w.len(),
{
    if w.len() == 0 {
        Some(Seq::empty())
    } else if w.len() < 2 {
        None
    } else {
        let window = w[0];
        let len = w[1] as int;
        if last >= 0 && window <= last {
            None
        } else if len == 0 || len > 32 || 2 + len > w.len() {
            None
        } else {
            match spec_decode_bitmaps(w.skip(2 + len), window as int) {
                Some(r) => Some(spec_block_types(window, w.subrange(2, 2 + len), 0) + r),
                None => None,
            }
        }
    }
}

/// Codes strictly increase.
pub open spec fn strictly_sorted(cs: Seq<u16>) -> bool {
    forall|i: int, j: int| 0 <= i < j < cs.len() ==> cs[i] < cs[j]
}

/// The nonzero codes of a type list.
pub open spec fn nonzero_codes(types: Seq<RecordType>) -> Set<u16> {
    Set::new(|c: u16| c != 0 && exists|i: int| 0 <= i < types.len() && spec_record_type_code(types[i]) == c)
}

/// Bitmap octet `j` of a window group: the OR of the bits of the codes that
/// fall in that octet.
pub open spec fn spec_group_octet(grp: Seq<u16>, j: int) -> u8
    decreases grp.len(),
{
    if grp.len() == 0 {
        0
    } else {
        let c = grp.last();
        let low = (c & 0xFF) as int;
        let prev = spec_group_octet(grp.drop_last(), j);
        if low / 8 == j {
            prev | (1u8 << ((7 - low % 8) as u8))
        } else {
            prev
        }
    }
}

/// Length of the leading run of codes that share window `win`.
pub open spec fn spec_group_len(cs: Seq<u16>, win: u16) -> int
    decreases cs.len(),
{
    if cs.len() == 0 || (cs[0] >> 8u16) != win {
        0
    } else {
        1 + spec_group_len(cs.drop_first(), win)
    }
}

/// Window blocks for a strictly increasing list of nonzero codes.
pub open spec fn spec_encode_codes(cs: Seq<u16>) -> Seq<u8>
    decreases cs.len(),
{
    if cs.len() == 0 {
        Seq::empty()
    } else {
        let win = cs[0] >> 8u16;
        let g = spec_group_len(cs, win);
        if g <= 0 || g > cs.len() {
            Seq::empty()
        } else {
            let grp = cs.take(g);
            let n = ((grp.last() & 0xFF) as int) / 8 + 1;
            seq![win as u8, n as u8] + Seq::new(n as nat, |j: int| spec_group_octet(grp, j))
                + spec_encode_codes(cs.skip(g))
        }
    }
}

/// The distinct nonzero codes of a type list in increasing order (there is
/// one such list: see `lemma_canonical_codes_unique`).
pub open spec fn spec_canonical_codes(types: Seq<RecordType>) -> Seq<u16> {
    choose|cs: Seq<u16>| strictly_sorted(cs) && cs.to_set() == nonzero_codes(types)
}

/// Wire form of the type bit map of a type list: the window blocks of its
/// canonical code list.
pub open spec fn spec_encode_types(types: Seq<RecordType>) -> Seq<u8> {
    spec_encode_codes(spec_canonical_codes(types))
}

/// Type bit map kept both in wire form and as the list of types it holds.
#[derive(Debug, Clone, PartialEq, Eq)]
pub struct TypeBitMaps {
    pub wire: Vec<u8>,
    pub types: Vec<RecordType>,
}

/// Decode a type bit map.
pub fn decode_type_bit_maps(wire: &[u8]) -> (r: Result<Vec<RecordType>, ProtoError>)
    ensures
        match spec_decode_bitmaps(wire@, -1) {
            Some(t) => r matches Ok(v) && v@ == t,
            None => r is Err,
        },
{
    let mut out: Vec<RecordType> = Vec::new();
    let mut cursor: usize = 0;
    let mut last: i32 = -1;
    proof {
        assert(wire@.skip(0) == wire@);
        assert(out@ + Seq::<RecordType>::empty() == out@);
    }
    loop
        invariant
            cursor <= wire@.len(),
            -1 <= last <= 255,
            match spec_decode_bitmaps(wire@.skip(cursor as int), last as int) {
                Some(t) => spec_decode_bitmaps(wire@, -1) == Some(out@ + t),
                None => spec_decode_bitmaps(wire@, -1) is None,
            },
        decreases wire@.len() - cursor,
    {
        let ghost rest = wire@.skip(cursor as int);
        if cursor == wire.len() {
            proof {
                assert(rest.len() == 0);
                assert(out@ + Seq::<RecordType>::empty() == out@);
            }
            return Ok(out);
        }
        if wire.len() - cursor < 2 {
            return Err(ProtoError::protocol("overflow unpacking NSEC(3)"));
        }
        let window = wire[cursor];
        let len = wire[cursor + 1] as usize;
        proof {
            assert(rest[0] == window && rest[1] == len);
        }
        if last >= 0 && (window as i32) <= last {
            return Err(ProtoError::protocol("out of order NSEC(3) block in type bitmap"));
        }
        if len == 0 {
            return Err(ProtoError::protocol("empty NSEC(3) block in type bitmap"));
        }
        if len > 32 {
            return Err(ProtoError::protocol("NSEC(3) block too long in type bitmap"));
        }
        if len > wire.len() - cursor - 2 {
            return Err(ProtoError::protocol("overflowing NSEC(3) block in type bitmap"));
        }
        let start = cursor + 2;
        let ghost octets = wire@.subrange(start as int, (start + len) as int);
        let ghost out0 = out@;
        let mut idx: usize = 0;
        proof {
            assert(out@ + spec_block_types(window, octets, 0) == out0 + spec_block_types(window, octets, 0));
        }
        while idx < len
            invariant
                start + len <= wire@.len(),
                start + len <= wire.len(),
                len <= 32,
                idx <= len,
                octets == wire@.subrange(start as int, (start + len) as int),
                out@ + spec_block_types(window, octets, idx as int) == out0 + spec_block_types(
                    window,
                    octets,
                    0,
                ),
            decreases len - idx,
        {
            let octet = wire[start + idx];
            let ghost out1 = out@;
            proof {
                assert(octets[idx as int] == octet);
            }
            let mut bit: u8 = 0;
            while bit < 8
                invariant
                    bit <= 8,
                    idx < len <= 32,
                    out@ + spec_octet_types(window, idx as int, octet, bit as int) == out1
                        + spec_octet_types(window, idx as int, octet, 0),
                decreases 8 - bit,
            {
                if (octet & (1u8 << (7 - bit))) != 0 {
                    let low: u16 = (idx as u16) * 8 + bit as u16;
                    let rr = RecordType::from_u16(((window as u16) << 8u16) | low);
                    out.push(rr);
                    proof {
                        assert(out@ + spec_octet_types(window, idx as int, octet, bit + 1) =~= out1
                            + spec_octet_types(window, idx as int, octet, 0));
                    }
                }
                bit = bit + 1;
            }
            proof {
                assert(out@ + spec_octet_types(window, idx as int, octet, 8) =~= out@);
                assert(out@ + spec_block_types(window, octets, idx + 1) =~= out1 + spec_block_types(
                    window,
                    octets,
                    idx as int,
                ));
            }
            idx = idx + 1;
        }
        proof {
            assert(spec_block_types(window, octets, len as int) =~= Seq::<RecordType>::empty());
            assert(out@ =~= out0 + spec_block_types(window, octets, 0));
            assert(rest.subrange(2, 2 + len as int) == octets);
            assert(rest.skip(2 + len as int) == wire@.skip(start + len));
            match spec_decode_bitmaps(wire@.skip(start + len), window as int) {
                Some(t) => {
                    assert(out0 + (spec_block_types(window, octets, 0) + t) == out@ + t);
                },
                None => {},
            }
        }
        cursor = start + len;
        last = window as i32;
    }
}


proof fn lemma_group_len_exact(cs: Seq<u16>, win: u16, g: int)
    requires
        0 <= g <= cs.len(),
        forall|k: int| 0 <= k < g ==> (cs[k] >> 8u16) == win,
        g == cs.len() || (cs[g] >> 8u16) != win,
    ensures
        spec_group_len(cs, win) == g,
    decreases g,
{
    if g > 0 {
        assert forall|k: int| 0 <= k < g - 1 implies (cs.drop_first()[k] >> 8u16) == win by {
            assert(cs.drop_first()[k] == cs[k + 1]);
        }
        if g < cs.len() {
            assert(cs.drop_first()[g - 1] == cs[g]);
        }
        lemma_group_len_exact(cs.drop_first(), win, g - 1);
    }
}

/// Insert `c` into a strictly increasing list unless it is already there.
fn insert_sorted_unique(v: &mut Vec<u16>, c: u16)
    requires
        strictly_sorted(old(v)@),
    ensures
        strictly_sorted(final(v)@),
        final(v)@.to_set() == old(v)@.to_set().insert(c),
{
    let mut i: usize = 0;
    while i < v.len() && v[i] < c
        invariant
            i <= v@.len(),
            forall|k: int| 0 <= k < i ==> v@[k] < c,
        decreases v.len() - i,
    {
        i = i + 1;
    }
    if i < v.len() && v[i] == c {
        proof {
            assert(old(v)@.to_set().insert(c) =~= old(v)@.to_set()) by {
                assert(old(v)@.to_set().contains(c)) by {
                    assert(old(v)@[i as int] == c);
                }
            }
        }
        return;
    }
    let ghost before = v@;
    v.insert(i, c);
    proof {
        assert(v@ == before.insert(i as int, c));
        assert forall|a: int, b: int| 0 <= a < b < v@.len() implies v@[a] < v@[b] by {
            if b < i {
            } else if b == i {
            } else if a < i {
                assert(v@[b] == before[b - 1]);
            } else if a == i {
                assert(v@[b] == before[b - 1]);
                assert(before[i as int] >= c);
                if b - 1 > i {
                    assert(before[i as int] < before[b - 1]);
                }
            } else {
                assert(v@[a] == before[a - 1]);
                assert(v@[b] == before[b - 1]);
            }
        }
        assert(v@.to_set() =~= before.to_set().insert(c)) by {
            assert forall|x: u16| v@.to_set().contains(x) <==> before.to_set().insert(c).contains(x) by {
                if v@.to_set().contains(x) {
                    let k = choose|k: int| 0 <= k < v@.len() && v@[k] == x;
                    if k < i {
                        assert(before[k] == x);
                    } else if k > i {
                        assert(before[k - 1] == x);
                    }
                }
                if before.to_set().contains(x) {
                    let k = choose|k: int| 0 <= k < before.len() && before[k] == x;
                    if k < i {
                        assert(v@[k] == x);
                    } else {
                        assert(v@[k + 1] == x);
                    }
                }
                if x == c {
                    assert(v@[i as int] == c);
                }
            }
        }
    }
}

/// Encode a type list as window blocks: the distinct nonzero codes in
/// increasing order, grouped by their high octet.
pub fn encode_type_bit_maps(types: &[RecordType]) -> (w: Vec<u8>)
    ensures
        exists|cs: Seq<u16>|
            strictly_sorted(cs) && cs.to_set() == nonzero_codes(types@) && #[trigger] spec_encode_codes(cs) == w@,
        w@ == spec_encode_types(types@),
{
    let mut codes: Vec<u16> = Vec::new();
    let mut t: usize = 0;
    while t < types.len()
        invariant
            t <= types@.len(),
            strictly_sorted(codes@),
            codes@.to_set() == Set::new(|c: u16| c != 0 && exists|i: int| 0 <= i < t && spec_record_type_code(types@[i]) == c),
        decreases types.len() - t,
    {
        let code = types[t].to_u16();
        let ghost before = codes@.to_set();
        if code != 0 {
            insert_sorted_unique(&mut codes, code);
        }
        proof {
            assert(codes@.to_set() =~= Set::new(|c: u16| c != 0 && exists|i: int| 0 <= i < t + 1 && spec_record_type_code(types@[i]) == c)) by {
                assert forall|c: u16| codes@.to_set().contains(c) <==> (c != 0 && exists|i: int| 0 <= i < t + 1 && spec_record_type_code(types@[i]) == c) by {
                    if c != 0 && exists|i: int| 0 <= i < t + 1 && spec_record_type_code(types@[i]) == c {
                        let i = choose|i: int| 0 <= i < t + 1 && spec_record_type_code(types@[i]) == c;
                        if i < t {
                            assert(before.contains(c));
                        }
                    }
                    if before.contains(c) {
                        let i = choose|i: int| 0 <= i < t && spec_record_type_code(types@[i]) == c;
                        assert(0 <= i < t + 1);
                    }
                }
            }
        }
        t = t + 1;
    }
    proof {
        assert(codes@.to_set() =~= nonzero_codes(types@));
    }
    let ghost cs = codes@;
    let mut out: Vec<u8> = Vec::new();
    let mut i: usize = 0;
    let n = codes.len();
    proof {
        assert(cs.skip(0) == cs);
        assert(out@ + spec_encode_codes(cs) == spec_encode_codes(cs));
    }
    while i < n
        invariant
            n == codes@.len(),
            cs == codes@,
            strictly_sorted(cs),
            i <= n,
            out@ + spec_encode_codes(cs.skip(i as int)) == spec_encode_codes(cs),
        decreases n - i,
    {
        let window = codes[i] >> 8u16;
        let start = i;
        while i < n && (codes[i] >> 8u16) == window
            invariant
                start <= i <= n,
                n == codes@.len(),
                start < n,
                window == codes@[start as int] >> 8u16,
                forall|k: int| start <= k < i ==> (codes@[k] >> 8u16) == window,
            decreases n - i,
        {
            i = i + 1;
        }
        let ghost rest = cs.skip(start as int);
        let ghost g = (i - start) as int;
        proof {
            assert forall|k: int| 0 <= k < g implies (rest[k] >> 8u16) == window by {
                assert(rest[k] == cs[start + k]);
            }
            if i < n {
                assert(rest[g] == cs[i as int]);
            }
            lemma_group_len_exact(rest, window, g);
            assert(rest[0] == cs[start as int]);
        }
        let ghost grp = rest.take(g);
        let last = codes[i - 1];
        proof {
            assert(grp.last() == last);
        }
        assert(last & 0xFF <= 255) by (bit_vector);
        let max_index: usize = ((last & 0xFF) / 8) as usize;
        let mut bitmap: Vec<u8> = vec![0u8; 32];
        let mut k = start;
        proof {
            assert forall|j: int| 0 <= j < 32 implies bitmap@[j] == spec_group_octet(grp.take(0), j) by {
            }
        }
        while k < i
            invariant
                start <= k <= i <= n,
                n == codes@.len(),
                cs == codes@,
                rest == cs.skip(start as int),
                g == i - start,
                grp == rest.take(g),
                bitmap@.len() == 32,
                max_index < 32,
                forall|j: int| 0 <= j < 32 ==> #[trigger] bitmap@[j] == spec_group_octet(grp.take(k - start), j),
            decreases i - k,
        {
            let code = codes[k];
            assert(code & 0xFF <= 255) by (bit_vector);
            let low = (code & 0xFF) as usize;
            let byte_index = low / 8;
            let bit_index = low % 8;
            let old_byte = bitmap[byte_index];
            bitmap.set(byte_index, old_byte | (1u8 << ((7 - bit_index) as u8)));
            proof {
                let g2 = grp.take(k + 1 - start);
                assert(g2.drop_last() == grp.take(k - start));
                assert(g2.last() == code) by {
                    assert(grp[k - start] == rest[k - start]);
                    assert(rest[k - start] == cs[k as int]);
                }
                assert forall|j: int| 0 <= j < 32 implies #[trigger] bitmap@[j] == spec_group_octet(g2, j) by {
                    assert(spec_group_octet(g2, j) == (if (code & 0xFF) as int / 8 == j {
                        spec_group_octet(grp.take(k - start), j) | (1u8 << ((7 - (code & 0xFF) as int % 8) as u8))
                    } else {
                        spec_group_octet(grp.take(k - start), j)
                    }));
                }
            }
            k = k + 1;
        }
        proof {
            assert(grp.take(g) == grp);
        }
        let ghost out0 = out@;
        out.push(window as u8);
        out.push((max_index + 1) as u8);
        let mut j: usize = 0;
        while j <= max_index
            invariant
                max_index < 32,
                j <= max_index + 1,
                bitmap@.len() == 32,
                forall|q: int| 0 <= q < 32 ==> #[trigger] bitmap@[q] == spec_group_octet(grp, q),
                out@ == out0 + seq![window as u8, (max_index + 1) as u8] + Seq::new(j as nat, |q: int| spec_group_octet(grp, q)),
            decreases max_index + 1 - j,
        {
            out.push(bitmap[j]);
            proof {
                assert(Seq::new((j + 1) as nat, |q: int| spec_group_octet(grp, q)) == Seq::new(j as nat, |q: int| spec_group_octet(grp, q)).push(spec_group_octet(grp, j as int)));
            }
            j = j + 1;
        }
        proof {
            assert(rest.skip(g) == cs.skip(i as int));
            assert(spec_encode_codes(rest) == seq![window as u8, (max_index + 1) as u8] + Seq::new((max_index + 1) as nat, |q: int| spec_group_octet(grp, q)) + spec_encode_codes(cs.skip(i as int)));
            assert(out@ + spec_encode_codes(cs.skip(i as int)) == out0 + spec_encode_codes(rest));
        }
    }
    proof {
        assert(cs.skip(n as int).len() == 0);
        assert(out@ + Seq::<u8>::empty() == out@);
        let c2 = spec_canonical_codes(types@);
        assert(strictly_sorted(cs) && cs.to_set() == nonzero_codes(types@));
        lemma_canonical_codes_unique(c2, cs);
    }
    out
}

impl TypeBitMaps {
    /// Decode a type bit map, rejecting malformed blocks.
    pub fn try_from_wire(wire: Vec<u8>) -> (r: Result<Self, ProtoError>)
        ensures
            match spec_decode_bitmaps(wire@, -1) {
                Some(t) => r matches Ok(b) && b.wire@ == wire@ && b.types@ == t,
                None => r is Err,
            },
    {
        let types = decode_type_bit_maps(wire.as_slice())?;
        Ok(TypeBitMaps { wire, types })
    }

    /// Decode a type bit map from trusted wire; a malformed map keeps its
    /// wire form and lists no types.
    pub fn from_wire(wire: Vec<u8>) -> (b: Self)
        ensures
            b.wire@ == wire@,
            match spec_decode_bitmaps(wire@, -1) {
                Some(t) => b.types@ == t,
                None => b.types@.len() == 0,
            },
    {
        let types = match decode_type_bit_maps(wire.as_slice()) {
            Ok(t) => t,
            Err(_) => Vec::new(),
        };
        TypeBitMaps { wire, types }
    }

    /// Build the wire form of a type list; the list is kept as given.
    pub fn from_types(types: Vec<RecordType>) -> (b: Self)
        ensures
            b.types@ == types@,
            exists|cs: Seq<u16>|
                strictly_sorted(cs) && cs.to_set() == nonzero_codes(types@) && #[trigger] spec_encode_codes(cs) == b.wire@,
            b.wire@ == spec_encode_types(types@),
    {
        let wire = encode_type_bit_maps(types.as_slice());
        TypeBitMaps { wire, types }
    }

    pub fn wire_data(&self) -> (v: &[u8])
        ensures
            v@ == self.wire@,
    {
        self.wire.as_slice()
    }

    pub fn types(&self) -> (v: &[RecordType])
        ensures
            v@ == self.types@,
    {
        self.types.as_slice()
    }
}

} // verus!
