//! Owned DNS domain names held in uncompressed wire form.

use vstd::prelude::*;
use crate::error::ProtoError;
use crate::text::{spec_ascii_lowercase, string_from_chars, chars_of};

verus! {

/// Longest wire form of a domain name (RFC 1035 section 2.3.4).
pub const MAX_NAME_WIRE_LEN: usize = 255;

/// `s` is a run of labels ending with the zero-length root label.
pub open spec fn labels_ok(s: Seq<u8>) -> bool
    decreases s.len(),
{
    if s.len() == 0 {
        false
    } else if s[0] == 0 {
        s.len() == 1
    } else {
        s[0] <= 63 && 1 + s[0] < s.len() && labels_ok(s.subrange(1 + s[0] as int, s.len() as int))
    }
}

/// `s` is the wire form of a domain name.
pub open spec fn name_wire_ok(s: Seq<u8>) -> bool {
    s.len() <= 255 && labels_ok(s)
}

/// Number of non-root labels in a label run.
pub open spec fn spec_label_count(s: Seq<u8>) -> nat
    decreases s.len(),
{
    if s.len() == 0 || s[0] == 0 || 1 + s[0] >= s.len() {
        0
    } else {
        1 + spec_label_count(s.subrange(1 + s[0] as int, s.len() as int))
    }
}

/// The wire form from label `index` on: the name itself for `index == 0`,
/// then each following label's suffix.
pub open spec fn spec_suffix(w: Seq<u8>, index: nat) -> Seq<u8>
    decreases index,
{
    if index == 0 {
        w
    } else {
        let s = spec_suffix(w, (index - 1) as nat);
        if s.len() == 0 {
            s
        } else {
            s.subrange(1 + s[0] as int, s.len() as int)
        }
    }
}

/// Each label before the count is a full label, and the labels after it
/// are as many as the count says.
pub proof fn lemma_suffix_labels(w: Seq<u8>, index: nat)
    requires
        index <= spec_label_count(w),
    ensures
        spec_label_count(spec_suffix(w, index)) == spec_label_count(w) - index,
        spec_suffix(w, index).len() <= w.len(),
        index < spec_label_count(w) ==> {
            let s = spec_suffix(w, index);
            &&& s[0] != 0
            &&& 1 + s[0] < s.len()
        },
    decreases index,
{
    if index > 0 {
        lemma_suffix_labels(w, (index - 1) as nat);
    }
    let s = spec_suffix(w, index);
    if index < spec_label_count(w) {
        assert(spec_label_count(s) > 0);
    }
}

/// Follow labels and compression pointers (RFC 1035 section 4.1.4).
///
/// `cur` is the read position and every byte read lies below `limit`.  A
/// pointer must refer to an earlier position; after a jump the pointer's own
/// position becomes the new `limit`, so the walk always ends.  `acc` holds the
/// labels collected so far and `fe` is the position just past the first
/// pointer met (`-1` while none was met).  The result is the uncompressed
/// wire form and the position where the name ends in the packet.
pub open spec fn name_walk(p: Seq<u8>, cur: int, limit: int, acc: Seq<u8>, fe: int) -> Option<
    (Seq<u8>, int),
>
    decreases limit, limit - cur,
{
    if !(0 <= cur && cur < limit && limit <= p.len()) {
        None
    } else {
        let b = p[cur];
        if b == 0 {
            if acc.len() + 1 > 255 {
                None
            } else {
                Some((acc.push(0u8), if fe >= 0 { fe } else { cur + 1 }))
            }
        } else if b >= 0xC0 {
            if cur + 1 >= limit {
                None
            } else {
                let t = (b - 0xC0) * 256 + p[cur + 1];
                if t >= cur {
                    None
                } else {
                    name_walk(p, t, cur, acc, if fe >= 0 { fe } else { cur + 2 })
                }
            }
        } else if b > 63 {
            None
        } else {
            let e = cur + 1 + b;
            if e > limit || acc.len() + 1 + b + 1 > 255 {
                None
            } else {
                name_walk(p, e, limit, acc + p.subrange(cur, e), fe)
            }
        }
    }
}

/// Decode the (possibly compressed) name that starts at `off` in `p`.
pub open spec fn spec_parse_name(p: Seq<u8>, off: int) -> Option<(Seq<u8>, int)> {
    name_walk(p, off, p.len() as int, Seq::empty(), -1)
}

/// `s` is a run of complete non-root labels.
pub open spec fn label_run(s: Seq<u8>) -> bool
    decreases s.len(),
{
    if s.len() == 0 {
        true
    } else {
        1 <= s[0] <= 63 && 1 + s[0] <= s.len() && label_run(s.subrange(1 + s[0] as int, s.len() as int))
    }
}

proof fn lemma_label_run_append(a: Seq<u8>, b: Seq<u8>)
    requires
        label_run(a),
        label_run(b),
    ensures
        label_run(a + b),
    decreases a.len(),
{
    if a.len() == 0 {
        assert(a + b == b);
    } else {
        let n = 1 + a[0] as int;
        lemma_label_run_append(a.subrange(n, a.len() as int), b);
        assert((a + b).subrange(n, (a + b).len() as int) == a.subrange(n, a.len() as int) + b);
    }
}

proof fn lemma_label_run_terminated(a: Seq<u8>)
    requires
        label_run(a),
    ensures
        labels_ok(a.push(0u8)),
    decreases a.len(),
{
    if a.len() == 0 {
        assert(a.push(0u8) == seq![0u8]);
    } else {
        let n = 1 + a[0] as int;
        lemma_label_run_terminated(a.subrange(n, a.len() as int));
        assert(a.push(0u8).subrange(n, a.len() + 1int) == a.subrange(n, a.len() as int).push(0u8));
    }
}

proof fn lemma_name_walk_valid(p: Seq<u8>, off: int, cur: int, limit: int, acc: Seq<u8>, fe: int)
    requires
        label_run(acc),
        limit <= p.len(),
        fe == -1 ==> cur >= off,
        fe != -1 ==> off < fe <= p.len(),
        name_walk(p, cur, limit, acc, fe) is Some,
    ensures
        name_wire_ok(name_walk(p, cur, limit, acc, fe).unwrap().0),
        off < name_walk(p, cur, limit, acc, fe).unwrap().1 <= p.len(),
    decreases limit, limit - cur,
{
    let b = p[cur];
    if b == 0 {
        lemma_label_run_terminated(acc);
    } else if b >= 0xC0 {
        let t = (b - 0xC0) * 256 + p[cur + 1];
        lemma_name_walk_valid(p, off, t, cur, acc, if fe >= 0 { fe } else { cur + 2 });
    } else {
        let e = cur + 1 + b;
        let seg = p.subrange(cur, e);
        assert(b <= 63);
        assert(seg.len() == 1 + b && seg[0] == b);
        assert(seg.subrange(1 + seg[0] as int, seg.len() as int) == Seq::<u8>::empty());
        reveal_with_fuel(label_run, 2);
        lemma_label_run_append(acc, seg);
        lemma_name_walk_valid(p, off, e, limit, acc + seg, fe);
    }
}

/// A decoded name is well formed and ends after its start, inside the packet.
pub proof fn lemma_parse_name_valid(p: Seq<u8>, off: int)
    requires
        spec_parse_name(p, off) is Some,
    ensures
        name_wire_ok(spec_parse_name(p, off).unwrap().0),
        off < spec_parse_name(p, off).unwrap().1 <= p.len(),
{
    lemma_name_walk_valid(p, off, off, p.len() as int, Seq::empty(), -1);
}

proof fn lemma_name_walk_plain(p: Seq<u8>, cur: int, acc: Seq<u8>, r: Seq<u8>)
    requires
        labels_ok(r),
        0 <= cur,
        cur + r.len() <= p.len(),
        p.subrange(cur, cur + r.len()) == r,
        acc.len() + r.len() <= 255,
    ensures
        name_walk(p, cur, p.len() as int, acc, -1) == Some((acc + r, cur + r.len())),
    decreases r.len(),
{
    let b = r[0];
    assert(p[cur] == r[0]);
    if b == 0 {
        assert(r == seq![0u8]);
        assert(acc + r == acc.push(0u8));
    } else {
        let e = cur + 1 + b;
        let r2 = r.subrange(1 + b as int, r.len() as int);
        assert(p.subrange(e, e + r2.len()) == r2);
        assert(p.subrange(cur, e) == r.subrange(0, 1 + b as int));
        lemma_name_walk_plain(p, e, acc + p.subrange(cur, e), r2);
        assert(acc + p.subrange(cur, e) + r2 == acc + r);
    }
}

/// An uncompressed well-formed name stored at `off` decodes to itself and
/// ends right after its last byte.
pub proof fn lemma_parse_plain_name(p: Seq<u8>, off: int, w: Seq<u8>)
    requires
        name_wire_ok(w),
        0 <= off,
        off + w.len() <= p.len(),
        p.subrange(off, off + w.len()) == w,
    ensures
        spec_parse_name(p, off) == Some((w, off + w.len())),
{
    lemma_name_walk_plain(p, off, Seq::empty(), w);
    assert(Seq::<u8>::empty() + w == w);
}

/// Owned DNS name.  Its view is the uncompressed wire form.
#[derive(Debug, Clone, PartialEq, Eq)]
pub struct Name {
    wire: Vec<u8>,
}

impl View for Name {
    type V = Seq<u8>;

    closed spec fn view(&self) -> Seq<u8> {
        self.wire@
    }
}

/// Position of the first `'.'` in `t` (its length when there is none).
pub open spec fn first_dot(t: Seq<char>) -> int
    decreases t.len(),
{
    if t.len() == 0 {
        0
    } else if t[0] == '.' {
        0
    } else {
        1 + first_dot(t.drop_first())
    }
}

/// Bytes of a run of ASCII characters.
pub open spec fn ascii_bytes(t: Seq<char>) -> Seq<u8> {
    Seq::new(t.len(), |k: int| t[k] as u8)
}

/// Every character is ASCII.
pub open spec fn all_ascii(t: Seq<char>) -> bool {
    forall|k: int| 0 <= k < t.len() ==> (t[k] as u32) < 128
}

/// Wire labels of a dot-separated label list without the final dot.
pub open spec fn labels_from_text(t: Seq<char>) -> Option<Seq<u8>>
    decreases t.len(),
{
    let i = first_dot(t);
    if i <= 0 || i > 63 || i > t.len() || !all_ascii(t.take(i)) {
        None
    } else if i == t.len() {
        Some(seq![i as u8] + ascii_bytes(t.take(i)) + seq![0u8])
    } else {
        match labels_from_text(t.skip(i + 1)) {
            Some(r) => Some(seq![i as u8] + ascii_bytes(t.take(i)) + r),
            None => None,
        }
    }
}

/// Wire form of a name given in presentation form: ASCII labels separated by
/// dots, an optional final dot, `"."` for the root.
pub open spec fn spec_name_from_text(t: Seq<char>) -> Option<Seq<u8>> {
    if t == seq!['.'] {
        Some(seq![0u8])
    } else {
        let body = if t.len() > 0 && t.last() == '.' { t.drop_last() } else { t };
        match labels_from_text(body) {
            Some(w) => if w.len() <= 255 { Some(w) } else { None },
            None => None,
        }
    }
}

/// Labels of a label run rendered as text, each followed by a dot.
pub open spec fn spec_labels_text(s: Seq<u8>) -> Seq<char>
    decreases s.len(),
{
    if s.len() == 0 || s[0] == 0 || 1 + s[0] >= s.len() {
        Seq::empty()
    } else {
        let n = s[0] as int;
        s.subrange(1, 1 + n).map_values(|b: u8| b as char) + seq!['.'] + spec_labels_text(
            s.subrange(1 + n, s.len() as int),
        )
    }
}

/// Fully qualified presentation form: every label followed by a dot, `"."`
/// for the root.
pub open spec fn spec_fqdn(s: Seq<u8>) -> Seq<char> {
    let t = spec_labels_text(s);
    if t.len() == 0 {
        seq!['.']
    } else {
        t
    }
}

/// Presentation form without the final dot (`"."` for the root).
pub open spec fn spec_display(s: Seq<u8>) -> Seq<char> {
    let t = spec_labels_text(s);
    if t.len() == 0 {
        seq!['.']
    } else {
        t.drop_last()
    }
}

/// ASCII-lowercased wire form.
pub open spec fn spec_lower_wire(s: Seq<u8>) -> Seq<u8> {
    s.map_values(|b: u8| if 65 <= b && b <= 90 { (b + 32) as u8 } else { b })
}

proof fn lemma_first_dot(t: Seq<char>, i: int)
    requires
        0 <= i <= t.len(),
        forall|k: int| 0 <= k < i ==> t[k] != '.',
        i == t.len() || t[i] == '.',
    ensures
        first_dot(t) == i,
    decreases i,
{
    if i > 0 {
        lemma_first_dot(t.drop_first(), i - 1);
    }
}

impl Name {
    /// The root name.
    pub fn root() -> (n: Name)
        ensures
            n@ == seq![0u8],
    {
        let mut wire: Vec<u8> = Vec::new();
        wire.push(0);
        Name { wire }
    }

    /// True for the root name.
    pub fn is_root(&self) -> (b: bool)
        ensures
            b == (self@ == seq![0u8]),
    {
        let r = self.wire.len() == 1 && self.wire[0] == 0;
        proof {
            if self@.len() == 1 && self@[0] == 0 {
                assert(self@ == seq![0u8]);
            }
        }
        r
    }

    /// Uncompressed wire form.
    pub fn wire(&self) -> (w: &[u8])
        ensures
            w@ == self@,
    {
        self.wire.as_slice()
    }

    /// Length of the uncompressed wire form.
    pub fn bytes_len(&self) -> (n: usize)
        ensures
            n == self@.len(),
    {
        self.wire.len()
    }

    /// Build a name from a wire form that is already known to be valid.
    pub fn from_wire(wire: Vec<u8>) -> (r: Result<Name, ProtoError>)
        ensures
            r is Ok <==> name_wire_ok(wire@),
            r matches Ok(n) ==> n@ == wire@,
    {
        let mut i: usize = 0;
        if wire.len() > 255 {
            return Err(ProtoError::protocol("domain name exceeds 255 bytes"));
        }
        proof {
            assert(wire@.subrange(0, wire@.len() as int) == wire@);
        }
        while i < wire.len()
            invariant
                i <= wire@.len() <= 255,
                labels_ok(wire@) == labels_ok(wire@.subrange(i as int, wire@.len() as int)),
            decreases wire.len() - i,
        {
            let b = wire[i];
            if b == 0 {
                if i + 1 == wire.len() {
                    return Ok(Name { wire });
                }
                return Err(ProtoError::protocol("trailing bytes after root label"));
            }
            if b > 63 || i + 1 + (b as usize) >= wire.len() {
                return Err(ProtoError::protocol("invalid label in domain name"));
            }
            proof {
                let s = wire@.subrange(i as int, wire@.len() as int);
                assert(s.subrange(1 + s[0] as int, s.len() as int) == wire@.subrange(
                    i + 1 + b as int,
                    wire@.len() as int,
                ));
            }
            i = i + 1 + b as usize;
        }
        Err(ProtoError::protocol("domain name lacks the root label"))
    }

    /// Number of non-root labels.
    pub fn label_count(&self) -> (n: usize)
        ensures
            n == spec_label_count(self@),
    {
        let mut i: usize = 0;
        let mut n: usize = 0;
        proof {
            assert(self.wire@.subrange(0, self.wire@.len() as int) == self.wire@);
        }
        while i < self.wire.len() && self.wire[i] != 0 && (self.wire[i] as usize) < self.wire.len()
            - i - 1
            invariant
                i <= self.wire@.len(),
                n <= i,
                n + spec_label_count(self.wire@.subrange(i as int, self.wire@.len() as int))
                    == spec_label_count(self.wire@),
            decreases self.wire.len() - i,
        {
            proof {
                let s = self.wire@.subrange(i as int, self.wire@.len() as int);
                assert(s.subrange(1 + s[0] as int, s.len() as int) == self.wire@.subrange(
                    i + 1 + self.wire@[i as int] as int,
                    self.wire@.len() as int,
                ));
            }
            i = i + 1 + self.wire[i] as usize;
            n = n + 1;
        }
        n
    }

    /// Length of label `index` and the wire form from that label on.
    pub fn wire_label_len_and_suffix_at(&self, index: usize) -> (r: (u8, &[u8]))
        requires
            index < spec_label_count(self@),
        ensures
            r.1@ == spec_suffix(self@, index as nat),
            r.0 == spec_suffix(self@, index as nat)[0],
    {
        let mut pos: usize = 0;
        let mut k: usize = 0;
        let wl = self.wire.len();
        proof {
            assert(self.wire@.subrange(0, self.wire@.len() as int) == self.wire@);
            lemma_suffix_labels(self@, index as nat);
        }
        while k < index
            invariant
                k <= index < spec_label_count(self@),
                wl == self.wire@.len(),
                pos <= self.wire@.len(),
                self.wire@.subrange(pos as int, self.wire@.len() as int) == spec_suffix(self@, k as nat),
            decreases index - k,
        {
            proof {
                lemma_suffix_labels(self@, k as nat);
                let s = spec_suffix(self@, k as nat);
                assert(s.len() == self.wire@.len() - pos);
                assert(s[0] == self.wire@[pos as int]);
                assert(s.subrange(1 + s[0] as int, s.len() as int) == self.wire@.subrange(
                    pos + 1 + s[0] as int,
                    self.wire@.len() as int,
                ));
            }
            pos = pos + 1 + self.wire[pos] as usize;
            k = k + 1;
        }
        proof {
            lemma_suffix_labels(self@, index as nat);
        }
        let len = self.wire[pos];
        let suffix = vstd::slice::slice_subrange(self.wire.as_slice(), pos, self.wire.len());
        (len, suffix)
    }

    /// Decode the name that starts at `offset` in `packet`, following
    /// compression pointers.  Returns the name and the offset just past the
    /// name's encoding in place (after the first pointer when there is one).
    pub fn parse(packet: &[u8], offset: usize) -> (r: Result<(Name, usize), ProtoError>)
        ensures
            match spec_parse_name(packet@, offset as int) {
                Some((w, next)) => r matches Ok((n, k)) && n@ == w && k == next,
                None => r is Err,
            },
            r matches Ok((n, k)) ==> name_wire_ok(n@) && offset < k <= packet@.len(),
    {

        let p = Ghost(packet@);
        let mut cur: usize = offset;
        let mut limit: usize = packet.len();
        let mut acc: Vec<u8> = Vec::new();
        let mut fe: Option<usize> = None;
        loop
            invariant
                p@ == packet@,
                limit <= packet@.len(),
                acc@.len() <= 254,
                fe matches Some(x) ==> x <= packet@.len(),
                name_walk(p@, cur as int, limit as int, acc@, match fe { Some(x) => x as int, None => -1 })
                    == spec_parse_name(p@, offset as int),
            decreases limit, limit - cur,
        {
            let ghost fei: int = match fe { Some(x) => x as int, None => -1 };
            if cur >= limit {
                return Err(ProtoError::protocol("truncated domain name"));
            }
            let b = packet[cur];
            if b == 0 {
                proof {
                    lemma_parse_name_valid(p@, offset as int);
                }
                acc.push(0);
                let next = match fe {
                    Some(x) => x,
                    None => cur + 1,
                };
                return Ok((Name { wire: acc }, next));
            } else if b >= 0xC0 {
                if cur + 1 >= limit {
                    return Err(ProtoError::protocol("truncated compression pointer"));
                }
                let t: usize = ((b - 0xC0) as usize) * 256 + packet[cur + 1] as usize;
                if t >= cur {
                    return Err(ProtoError::protocol("forward compression pointer"));
                }
                if fe.is_none() {
                    fe = Some(cur + 2);
                }
                limit = cur;
                cur = t;
            } else if b > 63 {
                return Err(ProtoError::protocol("reserved label type"));
            } else {
                if (b as usize) >= limit - cur || acc.len() + 1 + (b as usize) + 1 > 255 {
                    return Err(ProtoError::protocol("invalid label in domain name"));
                }
                let e: usize = cur + 1 + b as usize;
                let mut k = cur;
                let ghost acc0 = acc@;
                while k < e
                    invariant
                        cur <= k <= e <= limit <= packet@.len(),
                        acc@ == acc0 + packet@.subrange(cur as int, k as int),
                    decreases e - k,
                {
                    acc.push(packet[k]);
                    proof {
                        assert(packet@.subrange(cur as int, k + 1) == packet@.subrange(
                            cur as int,
                            k as int,
                        ).push(packet@[k as int]));
                    }
                    k = k + 1;
                }
                cur = e;
            }
        }
    }

    /// Parse a name from presentation text: ASCII labels of 1 to 63
    /// characters separated by dots, an optional final dot, `"."` for the
    /// root, at most 255 bytes in wire form.
    pub fn from_ascii(text: &str) -> (r: Result<Name, ProtoError>)
        ensures
            match spec_name_from_text(text@) {
                Some(w) => r matches Ok(n) && n@ == w,
                None => r is Err,
            },
    {
        let t = chars_of(text);
        if t.len() == 1 && t[0] == '.' {
            proof {
                assert(t@ == seq!['.']);
            }
            return Ok(Name::root());
        }
        let ghost tt = t@;
        let body_len: usize = if t.len() > 0 && t[t.len() - 1] == '.' { t.len() - 1 } else { t.len() };
        let ghost body = tt.take(body_len as int);
        proof {
            if t.len() > 0 && t@.last() == '.' {
                assert(body == tt.drop_last());
            } else {
                assert(body == tt);
            }
            assert(tt != seq!['.']) by {
                if tt == seq!['.'] {
                    assert(t@.len() == 1 && t@[0] == '.');
                }
            }
        }
        let mut out: Vec<u8> = Vec::new();
        let mut pos: usize = 0;
        proof {
            assert(body.skip(0) == body);
            assert(out@ + Seq::<u8>::empty() == out@);
        }
        loop
            invariant
                tt == t@,
                tt == text@,
                body_len <= t@.len(),
                body == tt.take(body_len as int),
                pos <= body_len,
                out@.len() <= 1024,
                spec_name_from_text(tt) == (match labels_from_text(body) {
                    Some(w) => if w.len() <= 255 { Some(w) } else { None },
                    None => None,
                }),
                match labels_from_text(body.skip(pos as int)) {
                    Some(r) => labels_from_text(body) == Some(out@ + r),
                    None => labels_from_text(body) is None,
                },
            decreases body_len - pos,
        {
            let ghost rest = body.skip(pos as int);
            let mut j = pos;
            while j < body_len && t[j] != '.'
                invariant
                    pos <= j <= body_len <= t@.len(),
                    body == tt.take(body_len as int),
                    tt == t@,
                    rest == body.skip(pos as int),
                    forall|k: int| pos <= k < j ==> t@[k] != '.',
                decreases body_len - j,
            {
                j = j + 1;
            }
            let n = j - pos;
            proof {
                lemma_first_dot(rest, n as int);
            }
            if n == 0 || n > 63 {
                return Err(ProtoError::protocol("invalid label length in domain name"));
            }
            let mut k = pos;
            let mut ok = true;
            while k < j
                invariant
                    pos <= k <= j <= body_len <= t@.len(),
                    tt == t@,
                    body == tt.take(body_len as int),
                    rest == body.skip(pos as int),
                    ok == all_ascii(rest.take((k - pos) as int)),
                decreases j - k,
            {
                proof {
                    assert(rest[(k - pos) as int] == t@[k as int]);
                    assert(rest.take((k + 1 - pos) as int) == rest.take((k - pos) as int).push(
                        t@[k as int],
                    ));
                }
                proof {
                    let a = rest.take((k - pos) as int);
                    let a2 = rest.take((k + 1 - pos) as int);
                    if all_ascii(a) && (t@[k as int] as u32) < 128 {
                        assert forall|q: int| 0 <= q < a2.len() implies (a2[q] as u32) < 128 by {
                            if q < a.len() {
                                assert(a2[q] == a[q]);
                            }
                        }
                    } else if !all_ascii(a) {
                        let q = choose|q: int| 0 <= q < a.len() && !((a[q] as u32) < 128);
                        assert(a2[q] == a[q]);
                    } else {
                        assert(a2[a2.len() - 1] == t@[k as int]);
                    }
                }
                if (t[k] as u32) >= 128 {
                    ok = false;
                }
                k = k + 1;
            }
            if !ok {
                return Err(ProtoError::protocol("non-ascii domain name label"));
            }
            let ghost out0 = out@;
            out.push(n as u8);
            let mut k = pos;
            while k < j
                invariant
                    pos <= k <= j <= body_len <= t@.len(),
                    n == j - pos,
                    n <= 63,
                    tt == t@,
                    body == tt.take(body_len as int),
                    rest == body.skip(pos as int),
                    all_ascii(rest.take(n as int)),
                    out@ == out0.push(n as u8) + ascii_bytes(rest.take((k - pos) as int)),
                decreases j - k,
            {
                out.push(t[k] as u8);
                proof {
                    assert(rest[(k - pos) as int] == t@[k as int]);
                    assert(ascii_bytes(rest.take((k + 1 - pos) as int)) == ascii_bytes(
                        rest.take((k - pos) as int),
                    ).push(t@[k as int] as u8));
                }
                k = k + 1;
            }
            proof {
                assert(out@ == out0 + (seq![n as u8] + ascii_bytes(rest.take(n as int))));
            }
            if j == body_len {
                out.push(0);
                proof {
                    assert(out@ == out0 + (seq![n as u8] + ascii_bytes(rest.take(n as int)) + seq![0u8]));
                }
                if out.len() > 255 {
                    return Err(ProtoError::protocol("domain name exceeds 255 bytes"));
                }
                return Ok(Name { wire: out });
            }
            if out.len() > 300 {
                return Err(ProtoError::protocol("domain name exceeds 255 bytes"));
            }
            proof {
                assert(rest.skip(n + 1) == body.skip(j + 1));
            }
            pos = j + 1;
        }
    }
    /// Labels rendered as text, each followed by a dot.
    fn labels_text(&self) -> (v: Vec<char>)
        ensures
            v@ == spec_labels_text(self@),
    {
        let w = &self.wire;
        let mut v: Vec<char> = Vec::new();
        let mut i: usize = 0;
        proof {
            assert(w@.subrange(0, w@.len() as int) == w@);
        }
        while i < w.len() && w[i] != 0 && (w[i] as usize) < w.len() - i - 1
            invariant
                i <= w@.len(),
                w@ == self@,
                spec_labels_text(self@) == v@ + spec_labels_text(w@.subrange(i as int, w@.len() as int)),
            decreases w.len() - i,
        {
            let n = w[i] as usize;
            let ghost s = w@.subrange(i as int, w@.len() as int);
            let ghost v0 = v@;
            let mut k: usize = i + 1;
            let end: usize = i + 1 + n;
            while k < end
                invariant
                    end == i + 1 + n,
                    i + 1 <= k <= i + 1 + n < w@.len(),
                    n == w@[i as int],
                    v@ == v0 + w@.subrange(i + 1, k as int).map_values(|b: u8| b as char),
                decreases end - k,
            {
                v.push(w[k] as char);
                proof {
                    assert(w@.subrange(i + 1, k + 1).map_values(|b: u8| b as char) == w@.subrange(
                        i + 1,
                        k as int,
                    ).map_values(|b: u8| b as char).push(w@[k as int] as char));
                }
                k = k + 1;
            }
            v.push('.');
            proof {
                assert(s.subrange(1, 1 + n as int) == w@.subrange(i + 1, i + 1 + n as int));
                assert(s.subrange(1 + n as int, s.len() as int) == w@.subrange(
                    i + 1 + n as int,
                    w@.len() as int,
                ));
                assert(v@ + spec_labels_text(w@.subrange(i + 1 + n as int, w@.len() as int)) == v0
                    + spec_labels_text(s));
            }
            i = i + 1 + n;
        }
        proof {
            let s = w@.subrange(i as int, w@.len() as int);
            assert(spec_labels_text(s) == Seq::<char>::empty());
            assert(v@ + Seq::<char>::empty() == v@);
        }
        v
    }

    /// Fully qualified presentation form (`"www.example.com."`, `"."` for
    /// the root).
    pub fn to_fqdn(&self) -> (s: String)
        ensures
            s@ == spec_fqdn(self@),
    {
        let mut v = self.labels_text();
        if v.len() == 0 {
            v.push('.');
        }
        string_from_chars(v.as_slice())
    }

    /// Presentation form without the final dot (`"."` for the root).
    pub fn to_display_string(&self) -> (s: String)
        ensures
            s@ == spec_display(self@),
    {
        let mut v = self.labels_text();
        if v.len() == 0 {
            v.push('.');
        } else {
            v.pop();
        }
        string_from_chars(v.as_slice())
    }

    /// The same name with ASCII letters lowercased.
    pub fn normalized(&self) -> (n: Name)
        ensures
            n@ == spec_lower_wire(self@),
    {
        let mut out: Vec<u8> = Vec::new();
        let mut k: usize = 0;
        while k < self.wire.len()
            invariant
                k <= self.wire@.len(),
                out@ == spec_lower_wire(self.wire@.take(k as int)),
            decreases self.wire.len() - k,
        {
            let b = self.wire[k];
            out.push(if 65 <= b && b <= 90 { b + 32 } else { b });
            proof {
                assert(self.wire@.take(k + 1) == self.wire@.take(k as int).push(b));
            }
            k = k + 1;
        }
        proof {
            assert(self.wire@.take(self.wire@.len() as int) == self.wire@);
        }
        Name { wire: out }
    }

    /// A copy of this name.
    pub fn duplicate(&self) -> (n: Name)
        ensures
            n@ == self@,
    {
        let mut out: Vec<u8> = Vec::new();
        let mut k: usize = 0;
        while k < self.wire.len()
            invariant
                k <= self.wire@.len(),
                out@ == self.wire@.take(k as int),
            decreases self.wire.len() - k,
        {
            out.push(self.wire[k]);
            proof {
                assert(self.wire@.take(k + 1) == self.wire@.take(k as int).push(self.wire@[k as int]));
            }
            k = k + 1;
        }
        proof {
            assert(self.wire@.take(self.wire@.len() as int) == self.wire@);
        }
        Name { wire: out }
    }
}

} // verus!
