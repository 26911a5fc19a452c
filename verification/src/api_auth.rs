//! HTTP basic authentication for the management API (RFC 7617): the
//! `Authorization` value must be `Basic ` and the standard base64 form of
//! `username:password`.

use vstd::prelude::*;
use base64::Engine;
use crate::text::chars_of;

verus! {

/// Configured API authentication.
#[derive(Debug, Clone, PartialEq, Eq)]
pub enum ApiAuthConfig {
    /// HTTP basic authentication with one account.
    Basic { username: String, password: String },
}

/// UTF-8 encoding of one character.
pub open spec fn spec_utf8_char(c: char) -> Seq<u8> {
    let v = c as u32;
    if v < 0x80 {
        seq![v as u8]
    } else if v < 0x800 {
        seq![(0xC0 + v / 64) as u8, (0x80 + v % 64) as u8]
    } else if v < 0x1_0000 {
        seq![(0xE0 + v / 4096) as u8, (0x80 + (v / 64) % 64) as u8, (0x80 + v % 64) as u8]
    } else {
        seq![
            (0xF0 + v / 262144) as u8,
            (0x80 + (v / 4096) % 64) as u8,
            (0x80 + (v / 64) % 64) as u8,
            (0x80 + v % 64) as u8,
        ]
    }
}

/// UTF-8 encoding of a character sequence.
pub open spec fn spec_utf8_bytes(s: Seq<char>) -> Seq<u8>
    decreases s.len(),
{
    if s.len() == 0 {
        Seq::empty()
    } else {
        spec_utf8_bytes(s.drop_last()) + spec_utf8_char(s.last())
    }
}

/// The scalar value that a standard UTF-8 sequence of one to four octets
/// encodes (RFC 3629 section 3): the lead octet's payload bits followed by
/// six bits from each continuation octet.
pub open spec fn spec_utf8_sequence_value(b: Seq<u8>) -> int {
    if b.len() == 1 {
        b[0] as int
    } else if b.len() == 2 {
        (b[0] as int - 0xC0) * 64 + (b[1] as int - 0x80)
    } else if b.len() == 3 {
        (b[0] as int - 0xE0) * 4096 + (b[1] as int - 0x80) * 64 + (b[2] as int - 0x80)
    } else {
        (b[0] as int - 0xF0) * 262144 + (b[1] as int - 0x80) * 4096 + (b[2] as int - 0x80) * 64 + (b[3] as int
            - 0x80)
    }
}

/// The encoding of a character is standard UTF-8 (RFC 3629): the shortest
/// form, one octet below U+0080, two below U+0800, three below U+10000 and
/// four above; a lead octet of its length's class, continuation octets in
/// `0x80..0xC0`; and a standard decoder reads the character back.  For
/// U+5BC6 that is `E5 AF 86`.
pub proof fn lemma_utf8_char_is_standard(c: char)
    ensures
        spec_utf8_char(c).len() == (if (c as u32) < 0x80 {
            1int
        } else if (c as u32) < 0x800 {
            2int
        } else if (c as u32) < 0x1_0000 {
            3int
        } else {
            4int
        }),
        spec_utf8_char(c).len() == 1 ==> spec_utf8_char(c)[0] < 0x80,
        spec_utf8_char(c).len() == 2 ==> 0xC0 <= spec_utf8_char(c)[0] < 0xE0,
        spec_utf8_char(c).len() == 3 ==> 0xE0 <= spec_utf8_char(c)[0] < 0xF0,
        spec_utf8_char(c).len() == 4 ==> 0xF0 <= spec_utf8_char(c)[0] < 0xF8,
        forall|i: int| 1 <= i < spec_utf8_char(c).len() ==> 0x80 <= #[trigger] spec_utf8_char(c)[i] < 0xC0,
        spec_utf8_sequence_value(spec_utf8_char(c)) == c as u32 as int,
{
    let v = c as u32;
    assert(v <= 0x10FFFF);
    let b = spec_utf8_char(c);
    if v < 0x80 {
    } else if v < 0x800 {
        assert(v == (v / 64) * 64 + v % 64);
    } else if v < 0x1_0000 {
        assert((v / 64) == (v / 4096) * 64 + (v / 64) % 64);
        assert(v == (v / 64) * 64 + v % 64);
    } else {
        assert((v / 4096) == (v / 262144) * 64 + (v / 4096) % 64);
        assert((v / 64) == (v / 4096) * 64 + (v / 64) % 64);
        assert(v == (v / 64) * 64 + v % 64);
    }
}

/// Append the UTF-8 encoding of `c`.
fn push_utf8(out: &mut Vec<u8>, c: char)
    ensures
        final(out)@ == old(out)@ + spec_utf8_char(c),
{
    let v = c as u32;
    proof {
        assert(v <= 0x10FFFF);
    }
    if v < 0x80 {
        out.push(v as u8);
    } else if v < 0x800 {
        out.push((0xC0 + v / 64) as u8);
        out.push((0x80 + v % 64) as u8);
    } else if v < 0x1_0000 {
        out.push((0xE0 + v / 4096) as u8);
        out.push((0x80 + (v / 64) % 64) as u8);
        out.push((0x80 + v % 64) as u8);
    } else {
        out.push((0xF0 + v / 262144) as u8);
        out.push((0x80 + (v / 4096) % 64) as u8);
        out.push((0x80 + (v / 64) % 64) as u8);
        out.push((0x80 + v % 64) as u8);
    }
    proof {
        assert(final(out)@ =~= old(out)@ + spec_utf8_char(c));
    }
}

/// Append the UTF-8 encoding of `s`.
fn push_utf8_chars(out: &mut Vec<u8>, s: &[char])
    ensures
        final(out)@ == old(out)@ + spec_utf8_bytes(s@),
{
    let ghost start = out@;
    let mut i: usize = 0;
    proof {
        assert(s@.take(0) =~= Seq::<char>::empty());
        assert(start + Seq::<u8>::empty() =~= start);
    }
    while i < s.len()
        invariant
            i <= s@.len(),
            out@ == start + spec_utf8_bytes(s@.take(i as int)),
        decreases s.len() - i,
    {
        push_utf8(out, s[i]);
        proof {
            assert(s@.take(i + 1).drop_last() =~= s@.take(i as int));
            assert(out@ =~= start + spec_utf8_bytes(s@.take(i + 1)));
        }
        i = i + 1;
    }
    proof {
        assert(s@.take(s@.len() as int) =~= s@);
    }
}

/// What the standard base64 engine (standard alphabet, padded) decodes
/// `input` to, or `None` when `input` is not such an encoding.
pub uninterp spec fn base64_standard_decoded(input: Seq<u8>) -> Option<Seq<u8>>;

/// `base64::engine::general_purpose::STANDARD.decode`: the decoded bytes,
/// which depend on the input alone; nothing more is claimed of them.
#[verifier::external_body]
fn base64_standard_decode(input: &[u8]) -> (r: Option<Vec<u8>>)
    ensures
        match base64_standard_decoded(input@) {
            Some(d) => r matches Some(v) && v@ == d,
            None => r is None,
        },
{
    base64::engine::general_purpose::STANDARD.decode(input).ok()
}

/// Whether a request carrying the `Authorization` value `authorization`
/// passes `auth`: always without configured authentication; otherwise only
/// a `Basic ` value whose base64 payload is `username:password`.
pub open spec fn spec_is_authorized(authorization: Option<Seq<char>>, auth: Option<ApiAuthConfig>) -> bool {
    match auth {
        None => true,
        Some(ApiAuthConfig::Basic { username, password }) => match authorization {
            None => false,
            Some(value) => {
                let prefix = "Basic "@;
                value.len() >= prefix.len() && value.take(prefix.len() as int) == prefix
                    && base64_standard_decoded(spec_utf8_bytes(value.skip(prefix.len() as int))) == Some(
                    spec_utf8_bytes(username@ + ":"@ + password@),
                )
            },
        },
    }
}

/// Check a management API request's `Authorization` header value (`None`
/// when the header is absent or not visible ASCII) against the configured
/// authentication.
#[verifier::loop_isolation(false)]
pub fn is_authorized(authorization: Option<&str>, auth: Option<&ApiAuthConfig>) -> (r: bool)
    ensures
        r == spec_is_authorized(
            match authorization {
                Some(v) => Some(v@),
                None => None,
            },
            match auth {
                Some(a) => Some(*a),
                None => None,
            },
        ),
{
    let auth = match auth {
        None => return true,
        Some(a) => a,
    };
    match auth {
        ApiAuthConfig::Basic { username, password } => {
            let value = match authorization {
                None => return false,
                Some(v) => chars_of(v),
            };
            let prefix = chars_of("Basic ");
            proof {
                reveal_strlit("Basic ");
            }
            if value.len() < prefix.len() {
                return false;
            }
            let mut k: usize = 0;
            while k < prefix.len()
                invariant
                    k <= prefix@.len() <= value@.len(),
                    forall|j: int| 0 <= j < k ==> value@[j] == prefix@[j],
                decreases prefix.len() - k,
            {
                if value[k] != prefix[k] {
                    proof {
                        assert(value@.take(prefix@.len() as int)[k as int] != prefix@[k as int]);
                    }
                    return false;
                }
                k = k + 1;
            }
            proof {
                assert(value@.take(prefix@.len() as int) =~= prefix@);
            }
            let encoded = vstd::slice::slice_subrange(value.as_slice(), prefix.len(), value.len());
            let mut encoded_bytes: Vec<u8> = Vec::new();
            push_utf8_chars(&mut encoded_bytes, encoded);
            proof {
                assert(encoded@ =~= value@.skip(prefix@.len() as int));
            }
            let decoded = match base64_standard_decode(encoded_bytes.as_slice()) {
                None => return false,
                Some(d) => d,
            };
            let mut account: Vec<char> = chars_of(username.as_str());
            let mut colon = chars_of(":");
            let mut pass = chars_of(password.as_str());
            account.append(&mut colon);
            account.append(&mut pass);
            let mut expected: Vec<u8> = Vec::new();
            push_utf8_chars(&mut expected, account.as_slice());
            proof {
                assert(expected@ =~= spec_utf8_bytes(username@ + ":"@ + password@));
            }
            bytes_eq(decoded.as_slice(), expected.as_slice())
        },
    }
}

/// Byte-wise equality.
fn bytes_eq(a: &[u8], b: &[u8]) -> (r: bool)
    ensures
        r == (a@ == b@),
{
    if a.len() != b.len() {
        return false;
    }
    let mut i: usize = 0;
    while i < a.len()
        invariant
            i <= a@.len() == b@.len(),
            forall|j: int| 0 <= j < i ==> a@[j] == b@[j],
        decreases a.len() - i,
    {
        if a[i] != b[i] {
            return false;
        }
        i = i + 1;
    }
    proof {
        assert(a@ =~= b@);
    }
    true
}

} // verus!
