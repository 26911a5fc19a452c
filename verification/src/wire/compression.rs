//! Name-compression bookkeeping: the suffixes already written in a message,
//! used both to predict encoded sizes and to find pointer targets
//! (RFC 1035 section 4.1.4).

use vstd::prelude::*;
use crate::name::{Name, spec_label_count, spec_suffix, lemma_suffix_labels, labels_ok, name_wire_ok};
use crate::wire::{be16, push_u16, push_bytes};

verus! {

/// Compression pointers hold 14-bit offsets.
pub const MAX_COMPRESSION_POINTER_OFFSET: usize = 0x4000;

/// `ahash::RandomState`, the hasher state of the sets and maps below; opaque.
#[verifier::external_type_specification]
#[verifier::external_body]
pub struct ExRandomState(ahash::RandomState);

/// `ahash::AHashSet`, opaque; what a set of suffixes holds is named by
/// [`suffix_set_contents`].
#[verifier::external_type_specification]
#[verifier::external_body]
#[verifier::reject_recursive_types(T)]
#[verifier::reject_recursive_types(S)]
pub struct ExAHashSet<T, S>(ahash::AHashSet<T, S>);

/// `ahash::AHashMap`, opaque; what a suffix map holds is named by
/// [`suffix_map_contents`].
#[verifier::external_type_specification]
#[verifier::external_body]
#[verifier::reject_recursive_types(K)]
#[verifier::reject_recursive_types(V)]
#[verifier::reject_recursive_types(S)]
pub struct ExAHashMap<K, V, S>(ahash::AHashMap<K, V, S>);

/// The byte strings a suffix set holds.
pub uninterp spec fn suffix_set_contents(s: ahash::AHashSet<Vec<u8>>) -> Set<Seq<u8>>;

/// The suffix-to-offset entries a suffix map holds.
pub uninterp spec fn suffix_map_contents(m: ahash::AHashMap<Vec<u8>, u16>) -> Map<Seq<u8>, u16>;

/// `AHashSet::with_capacity`: a new set, which holds nothing.
#[verifier::external_body]
fn suffix_set_with_capacity(capacity: usize) -> (s: ahash::AHashSet<Vec<u8>>)
    ensures
        suffix_set_contents(s) == Set::<Seq<u8>>::empty(),
{
    ahash::AHashSet::with_capacity(capacity)
}

/// `AHashSet::default`: a new set, which holds nothing.
#[verifier::external_body]
fn suffix_set_default() -> (s: ahash::AHashSet<Vec<u8>>)
    ensures
        suffix_set_contents(s) == Set::<Seq<u8>>::empty(),
{
    ahash::AHashSet::default()
}

/// `HashSet::contains` (through the set's `Deref`): whether an equal byte
/// string is held.
#[verifier::external_body]
fn suffix_set_contains(s: &ahash::AHashSet<Vec<u8>>, key: &[u8]) -> (b: bool)
    ensures
        b == suffix_set_contents(*s).contains(key@),
{
    s.contains(key)
}

/// `HashSet::insert` (through the set's `DerefMut`) of a copy of `key`: the
/// set then holds `key` besides what it held.
#[verifier::external_body]
fn suffix_set_insert(s: &mut ahash::AHashSet<Vec<u8>>, key: &[u8])
    ensures
        suffix_set_contents(*final(s)) == suffix_set_contents(*old(s)).insert(key@),
{
    s.insert(key.to_vec());
}

/// `AHashMap::with_capacity`: a new map, which holds nothing.
#[verifier::external_body]
fn suffix_map_with_capacity(capacity: usize) -> (m: ahash::AHashMap<Vec<u8>, u16>)
    ensures
        suffix_map_contents(m).dom().is_empty(),
{
    ahash::AHashMap::with_capacity(capacity)
}

/// `AHashMap::get`: the value held for an equal key, if any.
#[verifier::external_body]
fn suffix_map_get(m: &ahash::AHashMap<Vec<u8>, u16>, key: &[u8]) -> (r: Option<u16>)
    ensures
        r == (if suffix_map_contents(*m).contains_key(key@) {
            Some(suffix_map_contents(*m)[key@])
        } else {
            None
        }),
{
    m.get(key).copied()
}

/// `AHashMap::insert` of a copy of `key`: the map then maps `key` to
/// `value` and keeps its other entries.
#[verifier::external_body]
fn suffix_map_insert(m: &mut ahash::AHashMap<Vec<u8>, u16>, key: &[u8], value: u16)
    ensures
        suffix_map_contents(*final(m)) == suffix_map_contents(*old(m)).insert(key@, value),
{
    m.insert(key.to_vec(), value);
}

/// Suffixes seen while sizing a message, so that later names can be sized
/// as compression pointers.  Its view is whether recording is on and the
/// suffixes recorded.
pub struct LenCompressionMap {
    enabled: bool,
    set: ahash::AHashSet<Vec<u8>>,
}

impl View for LenCompressionMap {
    type V = (bool, Set<Seq<u8>>);

    closed spec fn view(&self) -> (bool, Set<Seq<u8>>) {
        (self.enabled, suffix_set_contents(self.set))
    }
}

impl LenCompressionMap {
    /// An empty map, recording when `enabled`.
    pub fn new(enabled: bool) -> (m: Self)
        ensures
            m@ == (enabled, Set::<Seq<u8>>::empty()),
    {
        let set = if enabled {
            suffix_set_with_capacity(32)
        } else {
            suffix_set_default()
        };
        LenCompressionMap { enabled, set }
    }

    /// Stop recording: later names are sized uncompressed.
    pub fn disable(&mut self)
        ensures
            final(self)@ == (false, old(self)@.1),
    {
        self.enabled = false;
    }
}

/// Size of labels `i..count` of `w`, `prefix` bytes having been counted:
/// the first suffix already in `seen` (when compressing) ends the name with
/// a two-byte pointer, every other suffix is recorded.  Gives the size and
/// the suffixes seen afterwards.
pub open spec fn spec_labels_len(
    w: Seq<u8>,
    seen: Set<Seq<u8>>,
    compress: bool,
    i: nat,
    count: nat,
    prefix: int,
) -> (int, Set<Seq<u8>>)
    decreases count - i,
{
    if i >= count {
        (prefix + 1, seen)
    } else {
        let suffix = spec_suffix(w, i);
        if compress && seen.contains(suffix) {
            (prefix + 2, seen)
        } else {
            spec_labels_len(w, seen.insert(suffix), compress, i + 1, count, prefix + 1 + suffix[0])
        }
    }
}

/// Encoded size of the name with wire form `w` at this point of a message,
/// and the recording state afterwards: the root takes one byte; a name over
/// 255 bytes, or any name while recording is off, its full wire length;
/// otherwise its labels up to the first suffix already seen, then a pointer.
pub open spec fn spec_name_len(w: Seq<u8>, m: (bool, Set<Seq<u8>>), compress: bool) -> (int, (
    bool,
    Set<Seq<u8>>,
)) {
    if w == seq![0u8] {
        (1, m)
    } else if w.len() > 255 || !m.0 {
        (w.len() as int, m)
    } else {
        let r = spec_labels_len(w, m.1, compress, 0, spec_label_count(w), 0);
        (r.0, (m.0, r.1))
    }
}

proof fn lemma_labels_len_nonneg(
    w: Seq<u8>,
    seen: Set<Seq<u8>>,
    compress: bool,
    i: nat,
    count: nat,
    prefix: int,
)
    requires
        prefix >= 0,
    ensures
        spec_labels_len(w, seen, compress, i, count, prefix).0 >= 1,
    decreases count - i,
{
    if i < count {
        let s = spec_suffix(w, i);
        lemma_labels_len_nonneg(w, seen.insert(s), compress, i + 1, count, prefix + 1 + s[0]);
    }
}

/// A name never takes a negative size.
pub proof fn lemma_name_len_nonneg(w: Seq<u8>, m: (bool, Set<Seq<u8>>), compress: bool)
    ensures
        spec_name_len(w, m, compress).0 >= 0,
{
    if !(w == seq![0u8]) && !(w.len() > 255 || !m.0) {
        lemma_labels_len_nonneg(w, m.1, compress, 0, spec_label_count(w), 0);
    }
}

proof fn lemma_labels_len_keeps_seen(
    w: Seq<u8>,
    seen: Set<Seq<u8>>,
    compress: bool,
    i: nat,
    count: nat,
    prefix: int,
)
    ensures
        seen.subset_of(spec_labels_len(w, seen, compress, i, count, prefix).1),
    decreases count - i,
{
    if i < count {
        let s = spec_suffix(w, i);
        if !(compress && seen.contains(s)) {
            lemma_labels_len_keeps_seen(w, seen.insert(s), compress, i + 1, count, prefix + 1 + s[0]);
        }
    }
}

/// With recording on, a name with at least one label that was sized once
/// is sized as a two-byte pointer the next time it is compressed.
pub proof fn lemma_repeated_name_is_pointer(w: Seq<u8>, m: (bool, Set<Seq<u8>>), compress: bool)
    requires
        m.0,
        w != seq![0u8],
        w.len() <= 255,
        spec_label_count(w) > 0,
    ensures
        spec_name_len(w, spec_name_len(w, m, compress).1, true).0 == 2,
{
    let count = spec_label_count(w);
    let first = spec_labels_len(w, m.1, compress, 0, count, 0);
    if !(compress && m.1.contains(w)) {
        lemma_labels_len_keeps_seen(w, m.1.insert(w), compress, 1, count, 1 + w[0]);
        assert(m.1.insert(w).contains(w));
    }
    assert(first.1.contains(spec_suffix(w, 0)));
}

/// Encoded size of `name` at this point of a message, recording its
/// suffixes in `compression`; with `compress`, a suffix seen before is
/// sized as a pointer.
pub fn domain_name_len(name: &Name, compression: &mut LenCompressionMap, compress: bool) -> (n: usize)
    ensures
        (n as int, final(compression)@) == spec_name_len(name@, old(compression)@, compress),
{
    if name.is_root() {
        return 1;
    }
    let wire_len = name.bytes_len();
    if wire_len > 255 || !compression.enabled {
        return wire_len;
    }
    let label_count = name.label_count();
    let mut prefix_len: usize = 0;
    let mut index: usize = 0;
    let ghost w = name@;
    let ghost start = old(compression)@.1;
    proof {
        lemma_suffix_labels(w, 0);
    }
    while index < label_count
        invariant
            w == name@,
            wire_len == w.len() <= 255,
            w != seq![0u8],
            old(compression)@ == (true, start),
            label_count == spec_label_count(w),
            index <= label_count,
            compression.enabled,
            prefix_len == w.len() - spec_suffix(w, index as nat).len(),
            spec_labels_len(w, start, compress, 0, label_count as nat, 0) == spec_labels_len(
                w,
                compression@.1,
                compress,
                index as nat,
                label_count as nat,
                prefix_len as int,
            ),
        decreases label_count - index,
    {
        let (label_len, suffix) = name.wire_label_len_and_suffix_at(index);
        proof {
            lemma_suffix_labels(w, index as nat);
            lemma_suffix_labels(w, (index + 1) as nat);
        }
        if compress && suffix_set_contains(&compression.set, suffix) {
            return prefix_len + 2;
        }
        suffix_set_insert(&mut compression.set, suffix);
        prefix_len = prefix_len + 1 + label_len as usize;
        index = index + 1;
    }
    prefix_len + 1
}

impl Name {
    /// Encoded size of this name at this point of a message; see
    /// [`domain_name_len`].
    pub fn bytes_len_at(&self, compress: bool, compression: &mut LenCompressionMap) -> (n: usize)
        ensures
            (n as int, final(compression)@) == spec_name_len(self@, old(compression)@, compress),
    {
        domain_name_len(self, compression, compress)
    }
}

/// Offsets of the suffixes already written to a message, for compression
/// pointers.  Its view is whether compression is on and the suffix map
/// (empty until the first suffix is recorded).
pub struct CompressionState {
    enabled: bool,
    suffix_map: Option<ahash::AHashMap<Vec<u8>, u16>>,
}

impl View for CompressionState {
    type V = (bool, Map<Seq<u8>, u16>);

    closed spec fn view(&self) -> (bool, Map<Seq<u8>, u16>) {
        (
            self.enabled,
            match self.suffix_map {
                Some(m) => suffix_map_contents(m),
                None => Map::empty(),
            },
        )
    }
}

/// The first label `i..count` of `w` whose suffix `m` holds, with the
/// offset recorded for that suffix.
pub open spec fn spec_first_pointer(w: Seq<u8>, m: Map<Seq<u8>, u16>, i: nat, count: nat) -> Option<
    (nat, u16),
>
    decreases count - i,
{
    if i >= count {
        None
    } else if m.contains_key(spec_suffix(w, i)) {
        Some((i, m[spec_suffix(w, i)]))
    } else {
        spec_first_pointer(w, m, i + 1, count)
    }
}

proof fn lemma_no_pointer_in_empty(w: Seq<u8>, i: nat, count: nat)
    ensures
        spec_first_pointer(w, Map::empty(), i, count) is None,
    decreases count - i,
{
    if i < count {
        lemma_no_pointer_in_empty(w, i + 1, count);
    }
}

proof fn lemma_suffixes_shrink(w: Seq<u8>, j: nat, i: nat)
    requires
        j < i <= spec_label_count(w),
    ensures
        spec_suffix(w, j).len() > spec_suffix(w, i).len(),
    decreases i - j,
{
    lemma_suffix_labels(w, j);
    lemma_suffix_labels(w, (j + 1) as nat);
    if j + 1 < i {
        lemma_suffixes_shrink(w, (j + 1) as nat, i);
    }
}

proof fn lemma_first_pointer_at(w: Seq<u8>, m: Map<Seq<u8>, u16>, k: nat, i: nat, pos: u16)
    requires
        k <= i < spec_label_count(w),
        forall|j: nat| k <= j < i ==> !m.contains_key(#[trigger] spec_suffix(w, j)),
    ensures
        spec_first_pointer(w, m.insert(spec_suffix(w, i), pos), k, spec_label_count(w)) == Some((i, pos)),
    decreases i - k,
{
    if k < i {
        lemma_suffixes_shrink(w, k, i);
        assert(!m.contains_key(spec_suffix(w, k)));
        assert(spec_suffix(w, k) != spec_suffix(w, i));
        lemma_first_pointer_at(w, m, k + 1, i, pos);
    }
}

/// A suffix recorded at an offset is what a later name ending in it points
/// to, when none of the name's longer suffixes was recorded.
pub proof fn lemma_recorded_suffix_is_found(w: Seq<u8>, m: Map<Seq<u8>, u16>, i: nat, pos: u16)
    requires
        i < spec_label_count(w),
        forall|j: nat| j < i ==> !m.contains_key(#[trigger] spec_suffix(w, j)),
    ensures
        spec_first_pointer(w, m.insert(spec_suffix(w, i), pos), 0, spec_label_count(w)) == Some((i, pos)),
{
    lemma_first_pointer_at(w, m, 0, i, pos);
}

impl CompressionState {
    /// A state with no suffixes, compressing when `enabled`.
    pub fn new(enabled: bool) -> (s: Self)
        ensures
            s@ == (enabled, Map::<Seq<u8>, u16>::empty()),
    {
        CompressionState { enabled, suffix_map: None }
    }

    /// The first label of `name` whose suffix was written before, and the
    /// offset it was written at; `None` when compression is off or no
    /// suffix matches.
    pub fn pointer_for(&self, name: &Name) -> (r: Option<(usize, u16)>)
        ensures
            match (if self@.0 {
                spec_first_pointer(name@, self@.1, 0, spec_label_count(name@))
            } else {
                None
            }) {
                Some((i, off)) => r == Some((i as usize, off)),
                None => r is None,
            },
    {
        if !self.enabled {
            return None;
        }
        let map = match &self.suffix_map {
            Some(m) => m,
            None => {
                proof {
                    lemma_no_pointer_in_empty(name@, 0, spec_label_count(name@));
                }
                return None;
            },
        };
        let label_count = name.label_count();
        let mut index: usize = 0;
        while index < label_count
            invariant
                label_count == spec_label_count(name@),
                index <= label_count,
                self.suffix_map == Some(*map),
                self.enabled,
                spec_first_pointer(name@, self@.1, 0, label_count as nat) == spec_first_pointer(
                    name@,
                    self@.1,
                    index as nat,
                    label_count as nat,
                ),
            decreases label_count - index,
        {
            let (_, suffix) = name.wire_label_len_and_suffix_at(index);
            match suffix_map_get(map, suffix) {
                Some(offset) => return Some((index, offset)),
                None => {},
            }
            index = index + 1;
        }
        None
    }

    /// Record that `suffix` was written at `position`, unless compression
    /// is off, the position is beyond pointer reach, or the suffix was
    /// recorded before (the first position is kept).
    pub fn insert_suffix(&mut self, suffix: &[u8], position: u16)
        ensures
            final(self)@ == (if !old(self)@.0 || position as usize >= MAX_COMPRESSION_POINTER_OFFSET
                || old(self)@.1.contains_key(suffix@) {
                old(self)@
            } else {
                (old(self)@.0, old(self)@.1.insert(suffix@, position))
            }),
    {
        if !self.enabled {
            return;
        }
        if position as usize >= MAX_COMPRESSION_POINTER_OFFSET {
            return;
        }
        let mut map = match self.suffix_map.take() {
            Some(m) => m,
            None => suffix_map_with_capacity(32),
        };
        if suffix_map_get(&map, suffix).is_none() {
            suffix_map_insert(&mut map, suffix, position);
        }
        self.suffix_map = Some(map);
    }

    /// Stop compressing: later names are written in full.
    pub fn disable(&mut self)
        ensures
            final(self)@ == (false, old(self)@.1),
    {
        self.enabled = false;
    }
}

/// Writing labels `i..count` of `w` at message position `pos`: the first
/// label whose suffix was written before (when compressing) ends the name
/// with a pointer to it; every suffix passed is recorded at its position,
/// when it is within pointer reach and new.  Gives the bytes of the whole
/// name and the suffix map afterwards.
pub open spec fn spec_labels_write(
    w: Seq<u8>,
    m: Map<Seq<u8>, u16>,
    enabled: bool,
    compress: bool,
    i: nat,
    count: nat,
    pos: int,
) -> (Seq<u8>, Map<Seq<u8>, u16>)
    decreases count - i,
{
    if i >= count {
        (w, m)
    } else {
        let s = spec_suffix(w, i);
        let at = pos + w.len() - s.len();
        if enabled && compress && m.contains_key(s) {
            (w.subrange(0, w.len() - s.len()) + be16(0xC000u16 | m[s]), m)
        } else {
            let m2 = if enabled && at < 0x4000 && !m.contains_key(s) {
                m.insert(s, at as u16)
            } else {
                m
            };
            spec_labels_write(w, m2, enabled, compress, i + 1, count, pos)
        }
    }
}

/// The bytes written for the name with wire form `w` at message position
/// `pos`, and the compression state afterwards: the root, a name over 255
/// bytes, or any name while compression is off, is written in full;
/// otherwise as in [`spec_labels_write`].
pub open spec fn spec_write_name(w: Seq<u8>, st: (bool, Map<Seq<u8>, u16>), compress: bool, pos: int) -> (Seq<u8>, (
    bool,
    Map<Seq<u8>, u16>,
)) {
    if w == seq![0u8] || w.len() > 255 || !st.0 {
        (w, st)
    } else {
        let r = spec_labels_write(w, st.1, st.0, compress, 0, spec_label_count(w), pos);
        (r.0, (st.0, r.1))
    }
}

impl CompressionState {
    /// Append `name` to the message `out` at its current end: with
    /// `compress`, its labels up to the first suffix written before and a
    /// pointer to that suffix; otherwise in full.  The suffixes of the
    /// labels written are recorded at their positions.
    pub fn write_name(&mut self, name: &Name, compress: bool, out: &mut Vec<u8>)
        ensures
            final(out)@ == old(out)@ + spec_write_name(name@, old(self)@, compress, old(out)@.len() as int).0,
            final(self)@ == spec_write_name(name@, old(self)@, compress, old(out)@.len() as int).1,
    {
        let w = name.wire();
        if name.is_root() || w.len() > 255 || !self.enabled {
            push_bytes(out, w);
            return;
        }
        let ghost wv = name@;
        let ghost m0 = old(self)@.1;
        let ghost pos = old(out)@.len() as int;
        let start = out.len();
        let count = name.label_count();
        let ptr = if compress {
            self.pointer_for(name)
        } else {
            None
        };
        let stop = match ptr {
            Some((i, _)) => i,
            None => count,
        };
        proof {
            lemma_first_pointer_facts(wv, m0, 0, count as nat);
        }
        let mut j: usize = 0;
        while j < stop
            invariant
                wv == name@,
                w@ == wv,
                wv.len() <= 255,
                wv != seq![0u8],
                count == spec_label_count(wv),
                stop <= count,
                j <= stop,
                start == pos,
                out@ == old(out)@,
                self@.0,
                old(self)@ == (true, m0),
                ptr matches Some((i, off)) ==> (compress && stop == i && m0.contains_key(spec_suffix(wv, i as nat))
                    && m0[spec_suffix(wv, i as nat)] == off),
                ptr is None ==> stop == count && (compress ==> forall|k: nat| k < count ==> !m0.contains_key(
                    #[trigger] spec_suffix(wv, k),
                )),
                ptr matches Some((i, off)) ==> forall|k: nat| k < i ==> !m0.contains_key(#[trigger] spec_suffix(wv, k)),
                forall|k: nat| j <= k < count ==> (#[trigger] self@.1.contains_key(spec_suffix(wv, k)) == m0.contains_key(
                    spec_suffix(wv, k),
                ) && (m0.contains_key(spec_suffix(wv, k)) ==> self@.1[spec_suffix(wv, k)] == m0[spec_suffix(wv, k)])),
                spec_labels_write(wv, m0, true, compress, 0, count as nat, pos) == spec_labels_write(
                    wv,
                    self@.1,
                    true,
                    compress,
                    j as nat,
                    count as nat,
                    pos,
                ),
            decreases stop - j,
        {
            let (_, suffix) = name.wire_label_len_and_suffix_at(j);
            let ghost before = self@.1;
            proof {
                lemma_suffix_labels(wv, j as nat);
                assert(!(compress && before.contains_key(suffix@)));
            }
            if start < 0x4000 {
                let at = start + (w.len() - suffix.len());
                if at < 0x4000 {
                    self.insert_suffix(suffix, at as u16);
                }
            }
            proof {
                assert forall|k: nat| j + 1 <= k < count implies (#[trigger] self@.1.contains_key(spec_suffix(wv, k))
                    == m0.contains_key(spec_suffix(wv, k)) && (m0.contains_key(spec_suffix(wv, k))
                    ==> self@.1[spec_suffix(wv, k)] == m0[spec_suffix(wv, k)])) by {
                    lemma_suffixes_shrink(wv, j as nat, k);
                }
            }
            j = j + 1;
        }
        match ptr {
            Some((i, off)) => {
                let (_, suffix) = name.wire_label_len_and_suffix_at(i);
                proof {
                    lemma_suffix_labels(wv, i as nat);
                }
                let cut = w.len() - suffix.len();
                push_bytes(out, vstd::slice::slice_subrange(w, 0, cut));
                push_u16(out, 0xC000u16 | off);
            },
            None => {
                push_bytes(out, w);
            },
        }
    }
}

impl CompressionState {
    /// Record the suffixes of `name` as written in full at message position
    /// `pos`, as [`CompressionState::write_name`] does without compression.
    pub fn record_suffixes(&mut self, name: &Name, pos: usize)
        ensures
            final(self)@ == spec_write_name(name@, old(self)@, false, pos as int).1,
    {
        let w = name.wire();
        if name.is_root() || w.len() > 255 || !self.enabled {
            return;
        }
        let ghost wv = name@;
        let ghost m0 = old(self)@.1;
        let count = name.label_count();
        let mut j: usize = 0;
        while j < count
            invariant
                wv == name@,
                w@ == wv,
                wv.len() <= 255,
                count == spec_label_count(wv),
                j <= count,
                self@.0,
                old(self)@ == (true, m0),
                spec_labels_write(wv, m0, true, false, 0, count as nat, pos as int).1 == spec_labels_write(
                    wv,
                    self@.1,
                    true,
                    false,
                    j as nat,
                    count as nat,
                    pos as int,
                ).1,
            decreases count - j,
        {
            let (_, suffix) = name.wire_label_len_and_suffix_at(j);
            proof {
                lemma_suffix_labels(wv, j as nat);
            }
            if pos < 0x4000 {
                let at = pos + (w.len() - suffix.len());
                if at < 0x4000 {
                    self.insert_suffix(suffix, at as u16);
                }
            }
            j = j + 1;
        }
    }
}

/// Facts about the first pointer: it lies within the labels, its suffix is
/// recorded, and no earlier suffix is.
proof fn lemma_first_pointer_facts(w: Seq<u8>, m: Map<Seq<u8>, u16>, i: nat, count: nat)
    ensures
        match spec_first_pointer(w, m, i, count) {
            Some((k, off)) => i <= k < count && m.contains_key(spec_suffix(w, k)) && m[spec_suffix(w, k)] == off
                && forall|j: nat| i <= j < k ==> !m.contains_key(#[trigger] spec_suffix(w, j)),
            None => forall|j: nat| i <= j < count ==> !m.contains_key(#[trigger] spec_suffix(w, j)),
        },
    decreases count - i,
{
    if i < count {
        lemma_first_pointer_facts(w, m, i + 1, count);
    }
}

/// Every suffix of a well-formed name up to its label count is itself a
/// well-formed label run.
proof fn lemma_suffix_labels_ok(w: Seq<u8>, i: nat)
    requires
        labels_ok(w),
        i <= spec_label_count(w),
    ensures
        labels_ok(spec_suffix(w, i)),
    decreases i,
{
    if i > 0 {
        lemma_suffix_labels_ok(w, (i - 1) as nat);
        lemma_suffix_labels(w, (i - 1) as nat);
    }
}

/// The last suffix of a well-formed name is the root octet alone.
proof fn lemma_last_suffix_is_root(w: Seq<u8>)
    requires
        labels_ok(w),
    ensures
        spec_suffix(w, spec_label_count(w)).len() == 1,
{
    lemma_suffix_labels_ok(w, spec_label_count(w));
    lemma_suffix_labels(w, spec_label_count(w));
}

proof fn lemma_labels_write_len(
    w: Seq<u8>,
    m: Map<Seq<u8>, u16>,
    compress: bool,
    i: nat,
    count: nat,
    pos: int,
)
    requires
        labels_ok(w),
        count == spec_label_count(w),
        i <= count,
        0 <= pos,
        pos + w.len() <= 0x4000,
    ensures
        spec_labels_write(w, m, true, compress, i, count, pos).0.len() == spec_labels_len(
            w,
            m.dom(),
            compress,
            i,
            count,
            w.len() - spec_suffix(w, i).len(),
        ).0,
        spec_labels_write(w, m, true, compress, i, count, pos).1.dom() == spec_labels_len(
            w,
            m.dom(),
            compress,
            i,
            count,
            w.len() - spec_suffix(w, i).len(),
        ).1,
    decreases count - i,
{
    lemma_suffix_labels(w, i);
    if i >= count {
        lemma_last_suffix_is_root(w);
    } else {
        let s = spec_suffix(w, i);
        lemma_suffix_labels(w, i + 1);
        assert(spec_suffix(w, i + 1) == s.subrange(1 + s[0] as int, s.len() as int));
        if !(compress && m.contains_key(s)) {
            let at = pos + w.len() - s.len();
            let m2 = if at < 0x4000 && !m.contains_key(s) {
                m.insert(s, at as u16)
            } else {
                m
            };
            assert(m2.dom() =~= m.dom().insert(s));
            lemma_labels_write_len(w, m2, compress, i + 1, count, pos);
        }
    }
}

/// With compression on and the suffixes written matching the suffixes
/// sized, a well-formed name that ends within pointer reach takes as many
/// bytes as its size says, and both record the same suffixes.
pub proof fn lemma_write_name_len(w: Seq<u8>, st: (bool, Map<Seq<u8>, u16>), compress: bool, pos: int)
    requires
        name_wire_ok(w),
        0 <= pos,
        pos + w.len() <= 0x4000,
    ensures
        spec_write_name(w, st, compress, pos).0.len() == spec_name_len(w, (st.0, st.1.dom()), compress).0,
        spec_write_name(w, st, compress, pos).1.0 == st.0,
        spec_write_name(w, st, compress, pos).1.1.dom() == spec_name_len(w, (st.0, st.1.dom()), compress).1.1,
        spec_name_len(w, (st.0, st.1.dom()), compress).1.0 == st.0,
{
    if !(w == seq![0u8] || w.len() > 255 || !st.0) {
        lemma_labels_write_len(w, st.1, compress, 0, spec_label_count(w), pos);
    }
}

/// A name written without compression is written in full.
pub proof fn lemma_write_name_plain(w: Seq<u8>, st: (bool, Map<Seq<u8>, u16>), pos: int)
    ensures
        spec_write_name(w, st, false, pos).0 == w,
        spec_write_name(w, st, false, pos).1.0 == st.0,
{
    if !(w == seq![0u8] || w.len() > 255 || !st.0) {
        lemma_labels_write_plain(w, st.1, 0, spec_label_count(w), pos);
    }
}

proof fn lemma_labels_write_plain(w: Seq<u8>, m: Map<Seq<u8>, u16>, i: nat, count: nat, pos: int)
    ensures
        spec_labels_write(w, m, true, false, i, count, pos).0 == w,
    decreases count - i,
{
    if i < count {
        let s = spec_suffix(w, i);
        let at = pos + w.len() - s.len();
        let m2 = if at < 0x4000 && !m.contains_key(s) {
            m.insert(s, at as u16)
        } else {
            m
        };
        lemma_labels_write_plain(w, m2, i + 1, count, pos);
    }
}

proof fn lemma_labels_write_shorter(
    w: Seq<u8>,
    m: Map<Seq<u8>, u16>,
    compress: bool,
    i: nat,
    count: nat,
    pos: int,
)
    requires
        count == spec_label_count(w),
        i <= count,
    ensures
        spec_labels_write(w, m, true, compress, i, count, pos).0.len() <= w.len(),
    decreases count - i,
{
    if i < count {
        let s = spec_suffix(w, i);
        lemma_suffix_labels(w, i);
        if !(compress && m.contains_key(s)) {
            let at = pos + w.len() - s.len();
            let m2 = if at < 0x4000 && !m.contains_key(s) {
                m.insert(s, at as u16)
            } else {
                m
            };
            lemma_labels_write_shorter(w, m2, compress, i + 1, count, pos);
        }
    }
}

/// A written name never takes more bytes than its wire form.
pub proof fn lemma_write_name_shorter(w: Seq<u8>, st: (bool, Map<Seq<u8>, u16>), compress: bool, pos: int)
    ensures
        spec_write_name(w, st, compress, pos).0.len() <= w.len(),
{
    if !(w == seq![0u8] || w.len() > 255 || !st.0) {
        lemma_labels_write_shorter(w, st.1, compress, 0, spec_label_count(w), pos);
    }
}

} // verus!
