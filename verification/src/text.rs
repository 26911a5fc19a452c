//! Character-level helpers on text held as `Seq<char>` / `Vec<char>`.

use vstd::prelude::*;

verus! {

/// Collect the characters of `s`.
pub fn chars_of(s: &str) -> (v: Vec<char>)
    ensures
        v@ == s@,
{
    let mut v: Vec<char> = Vec::new();
    for c in it: s.chars()
        invariant
            v@ == it.seq().take(it.index() as int),
            it.seq() == s@,
    {
        v.push(c);
    }
    v
}

/// Build a `String` holding exactly the characters of `v` (std
/// `FromIterator<&char> for String`).
#[verifier::external_body]
pub(crate) fn string_from_chars(v: &[char]) -> (s: String)
    ensures
        s@ == v@,
{
    v.iter().collect()
}

/// ASCII lowercase mapping of one character.
pub open spec fn spec_ascii_lower(c: char) -> char {
    if 'A' <= c && c <= 'Z' {
        ((c as u32) + 32) as char
    } else {
        c
    }
}

/// ASCII lowercase mapping of a character sequence.
pub open spec fn spec_ascii_lowercase(s: Seq<char>) -> Seq<char> {
    s.map_values(|c: char| spec_ascii_lower(c))
}

/// Lowercase one ASCII letter; any other character is unchanged.
pub fn ascii_lower(c: char) -> (r: char)
    ensures
        r == spec_ascii_lower(c),
{
    if 'A' <= c && c <= 'Z' {
        (((c as u32) + 32) as u8) as char
    } else {
        c
    }
}

/// Unicode `White_Space`, the set `char::is_whitespace` tests.
pub open spec fn spec_is_whitespace(c: char) -> bool {
    let v = c as u32;
    (0x09 <= v && v <= 0x0D) || v == 0x20 || v == 0x85 || v == 0xA0 || v == 0x1680 || (0x2000
        <= v && v <= 0x200A) || v == 0x2028 || v == 0x2029 || v == 0x202F || v == 0x205F || v
        == 0x3000
}

/// Test for Unicode `White_Space`.
pub fn is_whitespace(c: char) -> (b: bool)
    ensures
        b == spec_is_whitespace(c),
{
    let v = c as u32;
    (0x09 <= v && v <= 0x0D) || v == 0x20 || v == 0x85 || v == 0xA0 || v == 0x1680 || (0x2000
        <= v && v <= 0x200A) || v == 0x2028 || v == 0x2029 || v == 0x202F || v == 0x205F || v
        == 0x3000
}

/// Index of the first non-whitespace character at or after `i`.
pub open spec fn spec_trim_start(s: Seq<char>, i: int) -> int
    decreases s.len() - i,
{
    if i >= s.len() {
        s.len() as int
    } else if spec_is_whitespace(s[i]) {
        spec_trim_start(s, i + 1)
    } else {
        i
    }
}

/// One past the last non-whitespace character at or before `j - 1`,
/// never below `lo`.
pub open spec fn spec_trim_end(s: Seq<char>, lo: int, j: int) -> int
    decreases j - lo,
{
    if j <= lo {
        lo
    } else if spec_is_whitespace(s[j - 1]) {
        spec_trim_end(s, lo, j - 1)
    } else {
        j
    }
}

/// `s` with leading and trailing Unicode whitespace removed (`str::trim`).
pub open spec fn spec_trim(s: Seq<char>) -> Seq<char> {
    let a = spec_trim_start(s, 0);
    s.subrange(a, spec_trim_end(s, a, s.len() as int))
}

proof fn lemma_trim_start_bounds(s: Seq<char>, i: int)
    requires
        0 <= i <= s.len(),
    ensures
        i <= spec_trim_start(s, i) <= s.len(),
    decreases s.len() - i,
{
    if i < s.len() && spec_is_whitespace(s[i]) {
        lemma_trim_start_bounds(s, i + 1);
    }
}

/// Remove leading and trailing whitespace.
pub fn trim_chars(s: &[char]) -> (r: Vec<char>)
    ensures
        r@ == spec_trim(s@),
{
    let mut a: usize = 0;
    while a < s.len() && is_whitespace(s[a])
        invariant
            a <= s@.len(),
            spec_trim_start(s@, a as int) == spec_trim_start(s@, 0),
        decreases s.len() - a,
    {
        a = a + 1;
    }
    let mut b: usize = s.len();
    proof {
        lemma_trim_start_bounds(s@, 0);
    }
    while b > a && is_whitespace(s[b - 1])
        invariant
            a <= b <= s@.len(),
            a == spec_trim_start(s@, 0),
            spec_trim_end(s@, a as int, b as int) == spec_trim_end(s@, a as int, s@.len() as int),
        decreases b,
    {
        b = b - 1;
    }
    let mut r: Vec<char> = Vec::new();
    let mut k = a;
    while k < b
        invariant
            a <= k <= b <= s@.len(),
            r@ == s@.subrange(a as int, k as int),
        decreases b - k,
    {
        r.push(s[k]);
        k = k + 1;
    }
    r
}

/// Lowercase every ASCII letter.
pub fn ascii_lowercase(s: &[char]) -> (r: Vec<char>)
    ensures
        r@ == spec_ascii_lowercase(s@),
{
    let mut r: Vec<char> = Vec::new();
    let mut k: usize = 0;
    while k < s.len()
        invariant
            k <= s@.len(),
            r@ == spec_ascii_lowercase(s@.take(k as int)),
        decreases s.len() - k,
    {
        r.push(ascii_lower(s[k]));
        proof {
            assert(s@.take(k + 1) == s@.take(k as int).push(s@[k as int]));
        }
        k = k + 1;
    }
    proof {
        assert(s@.take(s@.len() as int) == s@);
    }
    r
}

/// Decimal digit character of `d` (`0..=9`).
pub open spec fn spec_digit(d: nat) -> char {
    ((48 + d) as u32) as char
}

/// Decimal representation of `n` without leading zeros.
pub open spec fn spec_decimal(n: nat) -> Seq<char>
    decreases n,
{
    if n < 10 {
        seq![spec_digit(n)]
    } else {
        spec_decimal(n / 10).push(spec_digit(n % 10))
    }
}

/// Decimal representation of a signed value: a `-` before the magnitude of
/// a negative one.
pub open spec fn spec_signed_decimal(v: int) -> Seq<char> {
    if v < 0 {
        seq!['-'] + spec_decimal((-v) as nat)
    } else {
        spec_decimal(v as nat)
    }
}

/// Append the decimal digits of `n`.
pub fn push_decimal(out: &mut Vec<char>, n: u64)
    ensures
        final(out)@ == old(out)@ + spec_decimal(n as nat),
    decreases n,
{
    let ghost o = old(out)@;
    if n >= 10 {
        push_decimal(out, n / 10);
    }
    let d = (n % 10) as u8;
    out.push((48u8 + d) as char);
    proof {
        assert(out@ =~= o + spec_decimal(n as nat));
    }
}

/// Append the decimal form of a signed value.
pub fn push_signed_decimal(out: &mut Vec<char>, v: i64)
    ensures
        final(out)@ == old(out)@ + spec_signed_decimal(v as int),
{
    let ghost o = old(out)@;
    if v < 0 {
        out.push('-');
        let magnitude: u64 = (-(v + 1)) as u64 + 1;
        push_decimal(out, magnitude);
        proof {
            assert(out@ =~= o + spec_signed_decimal(v as int));
        }
    } else {
        push_decimal(out, v as u64);
    }
}

/// Characters of a string literal or slice appended to `out`.
pub fn push_str_chars(out: &mut Vec<char>, s: &str)
    ensures
        final(out)@ == old(out)@ + s@,
{
    let mut cs = chars_of(s);
    out.append(&mut cs);
}

} // verus!
