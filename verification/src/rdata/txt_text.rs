//! TXT character-strings read as UTF-8 text.

use vstd::prelude::*;
use crate::rdata::basic::{TXT, spec_txt_chunks};
use crate::wire::rdata::basic::spec_txt_valid;
use crate::api_auth::spec_utf8_bytes;

verus! {

/// The text that `bytes` encode in UTF-8, or `None` when they are not valid
/// UTF-8.
pub uninterp spec fn utf8_text(bytes: Seq<u8>) -> Option<Seq<char>>;

/// `std::str::from_utf8`, the result copied into a `String`: the decoded
/// text, which depends on the bytes alone and whose UTF-8 encoding is
/// exactly those bytes; it fails exactly when no text encodes to them.
#[verifier::external_body]
pub(crate) fn utf8_decode(bytes: &[u8]) -> (r: Option<String>)
    ensures
        match utf8_text(bytes@) {
            Some(t) => r matches Some(s) && s@ == t,
            None => r is None,
        },
        r matches Some(s) ==> spec_utf8_bytes(s@) == bytes@,
        r is None ==> forall|t: Seq<char>| #[trigger] spec_utf8_bytes(t) != bytes@,
{
    std::str::from_utf8(bytes).ok().map(|s| s.to_string())
}

/// Each chunk decoded as UTF-8, when it is.
pub open spec fn spec_chunks_text(chunks: Seq<Seq<u8>>, r: Seq<Option<String>>) -> bool {
    &&& r.len() == chunks.len()
    &&& forall|i: int| 0 <= i < r.len() ==> match utf8_text(chunks[i]) {
        Some(t) => #[trigger] r[i] matches Some(s) && s@ == t,
        None => r[i] is None,
    }
}

impl TXT {
    /// The character-strings of the payload as UTF-8 text, `None` for one
    /// that is not valid UTF-8.
    pub fn txt_data_utf8(&self) -> (r: Vec<Option<String>>)
        ensures
            spec_chunks_text(spec_txt_chunks(self.wire@), r@),
    {
        let chunks = self.txt_data();
        let mut out: Vec<Option<String>> = Vec::new();
        let mut i: usize = 0;
        while i < chunks.len()
            invariant
                i <= chunks@.len(),
                chunks@.len() == spec_txt_chunks(self.wire@).len(),
                forall|k: int| 0 <= k < chunks@.len() ==> #[trigger] chunks@[k]@ == spec_txt_chunks(self.wire@)[k],
                out@.len() == i,
                forall|k: int| 0 <= k < i ==> match utf8_text(spec_txt_chunks(self.wire@)[k]) {
                    Some(t) => #[trigger] out@[k] matches Some(s) && s@ == t,
                    None => out@[k] is None,
                },
            decreases chunks.len() - i,
        {
            let text = utf8_decode(chunks[i].as_slice());
            out.push(text);
            i = i + 1;
        }
        out
    }
}

/// Character-strings written one after the other, each preceded by its
/// length octet.
pub open spec fn spec_txt_wire(cs: Seq<Seq<u8>>) -> Seq<u8>
    decreases cs.len(),
{
    if cs.len() == 0 {
        Seq::empty()
    } else {
        seq![cs[0].len() as u8] + cs[0] + spec_txt_wire(cs.drop_first())
    }
}

/// Putting its length octet back before each character-string read from a
/// TXT payload (by `TxtIter` or `TXT::txt_data`) rebuilds a well-formed
/// payload: the payload up to its first truncated string.  That is the whole
/// payload exactly when every string in it is complete; otherwise the next
/// length octet runs past the end.
pub proof fn lemma_txt_chunks_rebuild(w: Seq<u8>)
    ensures
        spec_txt_valid(spec_txt_wire(spec_txt_chunks(w))),
        spec_txt_wire(spec_txt_chunks(w)).len() <= w.len(),
        w.subrange(0, spec_txt_wire(spec_txt_chunks(w)).len() as int) == spec_txt_wire(spec_txt_chunks(w)),
        spec_txt_valid(w) <==> spec_txt_wire(spec_txt_chunks(w)) == w,
        spec_txt_wire(spec_txt_chunks(w)).len() < w.len() ==> spec_txt_wire(spec_txt_chunks(w)).len() + 1
            + w[spec_txt_wire(spec_txt_chunks(w)).len() as int] > w.len(),
    decreases w.len(),
{
    let cs = spec_txt_chunks(w);
    let r = spec_txt_wire(cs);
    if w.len() == 0 {
        assert(r =~= w);
    } else {
        let n = w[0] as int;
        if 1 + n > w.len() {
            assert(cs.len() == 0);
            assert(r.len() == 0);
            assert(w.subrange(0, 0) =~= r);
        } else {
            let c = w.subrange(1, 1 + n);
            let rest = w.subrange(1 + n, w.len() as int);
            lemma_txt_chunks_rebuild(rest);
            let r2 = spec_txt_wire(spec_txt_chunks(rest));
            assert(cs =~= seq![c] + spec_txt_chunks(rest));
            assert(cs[0] == c);
            assert(cs.drop_first() =~= spec_txt_chunks(rest));
            assert((c.len() as u8) == w[0]);
            assert(r =~= seq![w[0]] + c + r2);
            assert(w =~= seq![w[0]] + c + rest);
            assert(w.subrange(0, r.len() as int) =~= seq![w[0]] + c + rest.subrange(0, r2.len() as int));
            assert(r.subrange(1 + n, r.len() as int) =~= r2);
            if r2.len() < rest.len() {
                assert(w[r.len() as int] == rest[r2.len() as int]);
            }
            if r == w {
                assert(r2 =~= rest) by {
                    assert(r2 =~= r.subrange(1 + n, r.len() as int));
                    assert(rest =~= w.subrange(1 + n, w.len() as int));
                }
            }
        }
    }
}

/// Complete character-strings of at most 255 octets, written one after the
/// other, read back as the same strings.
pub proof fn lemma_txt_wire_chunks(cs: Seq<Seq<u8>>)
    requires
        forall|i: int| 0 <= i < cs.len() ==> (#[trigger] cs[i]).len() <= 255,
    ensures
        spec_txt_chunks(spec_txt_wire(cs)) == cs,
        spec_txt_valid(spec_txt_wire(cs)),
    decreases cs.len(),
{
    if cs.len() > 0 {
        let tail = cs.drop_first();
        assert forall|i: int| 0 <= i < tail.len() implies (#[trigger] tail[i]).len() <= 255 by {
            assert(tail[i] == cs[i + 1]);
        }
        lemma_txt_wire_chunks(tail);
        let w = spec_txt_wire(cs);
        let c = cs[0];
        let tw = spec_txt_wire(tail);
        assert(cs[0].len() <= 255);
        assert(w[0] as int == c.len());
        assert(w.subrange(1, 1 + c.len() as int) =~= c);
        assert(w.subrange(1 + c.len() as int, w.len() as int) =~= tw);
        assert(cs =~= seq![c] + tail);
    }
}

} // verus!
