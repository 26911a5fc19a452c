//! Text form of an EDNS client subnet, `address/prefix`.  The address part
//! is read by the caller (the standard library's address parser); the split
//! at the slash, the prefix number and the width check are here.

use vstd::prelude::*;
use crate::error::ProtoError;
use crate::rdata::basic::{ClientSubnet, IpAddr, spec_max_prefix};
use crate::text::{chars_of, string_from_chars};

verus! {

/// `c` is an ASCII decimal digit.
pub open spec fn spec_is_digit(c: char) -> bool {
    '0' <= c && c <= '9'
}

/// Value of a run of decimal digits.
pub open spec fn spec_digits_value(s: Seq<char>) -> nat
    decreases s.len(),
{
    if s.len() == 0 {
        0
    } else {
        10 * spec_digits_value(s.drop_last()) + ((s.last() as u32) - ('0' as u32)) as nat
    }
}

/// `s` without a leading `+`.
pub open spec fn spec_sign_stripped(s: Seq<char>) -> Seq<char> {
    if s.len() > 0 && s[0] == '+' {
        s.drop_first()
    } else {
        s
    }
}

/// Every character of `s` is a decimal digit.
pub open spec fn spec_all_digits(s: Seq<char>) -> bool {
    forall|i: int| 0 <= i < s.len() ==> spec_is_digit(#[trigger] s[i])
}

/// What `u8::from_str` gives for `s`: an optional `+`, then one or more
/// decimal digits whose value fits in a byte.
pub open spec fn spec_parse_u8_text(s: Seq<char>) -> Option<u8> {
    let digits = spec_sign_stripped(s);
    if digits.len() == 0 || !spec_all_digits(digits) {
        None
    } else if spec_digits_value(digits) > 255 {
        None
    } else {
        Some(spec_digits_value(digits) as u8)
    }
}

proof fn lemma_digits_value_grows(s: Seq<char>, k: int)
    requires
        0 <= k <= s.len(),
        forall|i: int| 0 <= i < s.len() ==> spec_is_digit(#[trigger] s[i]),
    ensures
        spec_digits_value(s.take(k)) <= spec_digits_value(s),
    decreases s.len() - k,
{
    if k < s.len() {
        lemma_digits_value_grows(s, k + 1);
        assert(s.take(k + 1).drop_last() =~= s.take(k));
    } else {
        assert(s.take(k) =~= s);
    }
}

/// Parse a byte-sized decimal number as `u8::from_str` does.
pub fn parse_u8_text(s: &[char]) -> (r: Option<u8>)
    ensures
        r == spec_parse_u8_text(s@),
{
    let start: usize = if s.len() > 0 && s[0] == '+' { 1 } else { 0 };
    let ghost digits = spec_sign_stripped(s@);
    proof {
        assert(digits =~= s@.skip(start as int));
    }
    if start == s.len() {
        return None;
    }
    let mut i: usize = start;
    let mut value: u32 = 0;
    proof {
        assert(digits.take(0) =~= Seq::<char>::empty());
    }
    while i < s.len()
        invariant
            start <= i <= s@.len(),
            digits =~= s@.skip(start as int),
            digits == spec_sign_stripped(s@),
            digits.len() > 0,
            forall|j: int| 0 <= j < i - start ==> spec_is_digit(#[trigger] digits[j]),
            value == spec_digits_value(digits.take(i - start)),
            value <= 255,
        decreases s.len() - i,
    {
        let c = s[i];
        if !('0' <= c && c <= '9') {
            proof {
                assert(!spec_is_digit(digits[i - start]));
                assert(!spec_all_digits(digits));
            }
            return None;
        }
        proof {
            assert(digits.take(i - start + 1).drop_last() =~= digits.take(i - start));
            assert(digits.take(i - start + 1).last() == c);
        }
        value = value * 10 + ((c as u32) - ('0' as u32));
        i = i + 1;
        if value > 255 {
            proof {
                if spec_all_digits(digits) {
                    lemma_digits_value_grows(digits, i - start);
                }
            }
            return None;
        }
    }
    proof {
        assert(digits.take(i - start) =~= digits);
    }
    Some(value as u8)
}

/// Position of the first `/` in `s`, if any.
pub open spec fn spec_slash_at(s: Seq<char>) -> Option<int> {
    if exists|i: int| 0 <= i < s.len() && s[i] == '/' {
        Some(choose|i: int| 0 <= i < s.len() && s[i] == '/' && forall|j: int| 0 <= j < i ==> s[j] != '/')
    } else {
        None
    }
}

impl ClientSubnet {
    /// Split the text form at its first `/` into the address and the
    /// prefix parts; without a slash the text is not a subnet.
    pub fn split_text(s: &str) -> (r: Result<(String, String), ProtoError>)
        ensures
            match r {
                Ok((a, p)) => exists|i: int|
                    0 <= i < s@.len() && s@[i] == '/' && (forall|j: int| 0 <= j < i ==> s@[j] != '/') && a@
                        == s@.take(i) && p@ == s@.skip(i + 1),
                Err(e) => {
                    &&& forall|i: int| 0 <= i < s@.len() ==> s@[i] != '/'
                    &&& e matches ProtoError::Protocol(m) && m@ == "invalid client subnet string"@
                },
            },
    {
        let t = chars_of(s);
        let mut i: usize = 0;
        while i < t.len()
            invariant
                i <= t@.len(),
                t@ == s@,
                forall|j: int| 0 <= j < i ==> t@[j] != '/',
            decreases t.len() - i,
        {
            if t[i] == '/' {
                let a = vstd::slice::slice_subrange(t.as_slice(), 0, i);
                let p = vstd::slice::slice_subrange(t.as_slice(), i + 1, t.len());
                proof {
                    assert(a@ =~= s@.take(i as int));
                    assert(p@ =~= s@.skip(i + 1));
                }
                return Ok((string_from_chars(a), string_from_chars(p)));
            }
            i = i + 1;
        }
        Err(ProtoError::protocol("invalid client subnet string"))
    }

    /// Build a subnet from the parts of its text form: the address as the
    /// caller read it (`None` when it did not read as one) and the prefix
    /// text.  The scope prefix is zero.
    pub fn from_text_parts(addr: Option<IpAddr>, prefix_part: &str) -> (r: Result<ClientSubnet, ProtoError>)
        ensures
            match addr {
                None => r matches Err(ProtoError::Protocol(m)) && m@ == "invalid client subnet address"@,
                Some(a) => match spec_parse_u8_text(prefix_part@) {
                    None => r matches Err(ProtoError::Protocol(m)) && m@ == "invalid client subnet prefix"@,
                    Some(p) => if p > spec_max_prefix(a) {
                        r matches Err(ProtoError::Protocol(m)) && m@ == "client subnet prefix exceeds address width"@
                    } else {
                        r == Ok::<ClientSubnet, ProtoError>(ClientSubnet { addr: a, source_prefix: p, scope_prefix: 0 })
                    },
                },
            },
    {
        let addr = match addr {
            Some(a) => a,
            None => return Err(ProtoError::protocol("invalid client subnet address")),
        };
        let pt = chars_of(prefix_part);
        let source_prefix = match parse_u8_text(pt.as_slice()) {
            Some(p) => p,
            None => return Err(ProtoError::protocol("invalid client subnet prefix")),
        };
        let max_prefix: u8 = match addr {
            IpAddr::V4(_) => 32,
            IpAddr::V6(_) => 128,
        };
        if source_prefix > max_prefix {
            return Err(ProtoError::protocol("client subnet prefix exceeds address width"));
        }
        Ok(ClientSubnet { addr, source_prefix, scope_prefix: 0 })
    }
}

} // verus!
