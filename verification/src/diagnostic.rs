//! Approximate location of config errors within YAML source text: a token
//! is taken from the error message and searched for in the source, giving a
//! 1-based line and byte columns.

use vstd::prelude::*;
use crate::text::{chars_of, is_whitespace, spec_is_whitespace};

verus! {

/// A located diagnostic for a config validation error.
#[derive(Debug)]
pub struct ConfigLocation {
    pub line: usize,
    pub column: usize,
    pub end_column: usize,
}

/// Bytes a character takes in UTF-8.
pub open spec fn spec_utf8_len(c: char) -> nat {
    if (c as u32) < 0x80 {
        1
    } else if (c as u32) < 0x800 {
        2
    } else if (c as u32) < 0x1_0000 {
        3
    } else {
        4
    }
}

/// Bytes a character sequence takes in UTF-8.
pub open spec fn spec_byte_len(s: Seq<char>) -> nat
    decreases s.len(),
{
    if s.len() == 0 {
        0
    } else {
        spec_byte_len(s.drop_last()) + spec_utf8_len(s.last())
    }
}

/// First position at or after `i` where `n` occurs in `h`.
pub open spec fn spec_find_from(h: Seq<char>, n: Seq<char>, i: int) -> Option<int>
    decreases h.len() + 1 - i,
{
    if i < 0 || i + n.len() > h.len() {
        None
    } else if h.subrange(i, i + n.len()) == n {
        Some(i)
    } else {
        spec_find_from(h, n, i + 1)
    }
}

/// First position where `n` occurs in `h`.
pub open spec fn spec_find(h: Seq<char>, n: Seq<char>) -> Option<int> {
    spec_find_from(h, n, 0)
}

/// Position of the first line feed in `t`, or its length.
pub open spec fn spec_line_end(t: Seq<char>) -> int
    decreases t.len(),
{
    if t.len() == 0 {
        0
    } else if t[0] == '\n' {
        0
    } else {
        1 + spec_line_end(t.drop_first())
    }
}

/// Lines of `t` as `str::lines` gives them: split after each line feed,
/// the feed and a carriage return before it removed; no empty line after a
/// final feed.
pub open spec fn spec_lines(t: Seq<char>) -> Seq<Seq<char>>
    decreases t.len(),
{
    if t.len() == 0 {
        Seq::empty()
    } else {
        let i = spec_line_end(t);
        if i >= t.len() {
            seq![t]
        } else {
            let raw = t.take(i);
            let line = if raw.len() > 0 && raw.last() == '\r' {
                raw.drop_last()
            } else {
                raw
            };
            if 0 <= i < t.len() {
                seq![line] + spec_lines(t.skip(i + 1))
            } else {
                seq![line]
            }
        }
    }
}

/// The text after the first occurrence of `prefix`, up to the next quote.
pub open spec fn spec_quoted_after(message: Seq<char>, prefix: Seq<char>) -> Option<Seq<char>> {
    match spec_find(message, prefix) {
        None => None,
        Some(i) => {
            let rest = message.skip(i + prefix.len());
            match spec_find(rest, seq!['\'']) {
                None => None,
                Some(e) => Some(rest.take(e)),
            }
        },
    }
}

/// Index of the first character at or after `i` that is (`ws`) or is not
/// (`!ws`) whitespace, or the length.
pub open spec fn spec_skip(s: Seq<char>, i: int, ws: bool) -> int
    decreases s.len() - i,
{
    if i < 0 || i >= s.len() {
        if i < 0 {
            0
        } else {
            s.len() as int
        }
    } else if spec_is_whitespace(s[i]) == ws {
        spec_skip(s, i + 1, ws)
    } else {
        i
    }
}

/// The first whitespace-separated word of `s`, if any.
pub open spec fn spec_first_word(s: Seq<char>) -> Option<Seq<char>> {
    let a = spec_skip(s, 0, true);
    if a >= s.len() {
        None
    } else {
        Some(s.subrange(a, spec_skip(s, a, false)))
    }
}

/// Characters trimmed from a token: quotes, commas and periods.
pub open spec fn spec_token_punct(c: char) -> bool {
    c == '\'' || c == '"' || c == ',' || c == '.'
}

/// Index of the first character at or after `i` that is not punctuation.
pub open spec fn spec_punct_start(s: Seq<char>, i: int) -> int
    decreases s.len() - i,
{
    if i < 0 || i >= s.len() {
        if i < 0 {
            0
        } else {
            s.len() as int
        }
    } else if spec_token_punct(s[i]) {
        spec_punct_start(s, i + 1)
    } else {
        i
    }
}

/// One past the last non-punctuation character before `j`, not below `lo`.
pub open spec fn spec_punct_end(s: Seq<char>, lo: int, j: int) -> int
    decreases j - lo,
{
    if j <= lo {
        lo
    } else if spec_token_punct(s[j - 1]) {
        spec_punct_end(s, lo, j - 1)
    } else {
        j
    }
}

/// `s` with quotes, commas and periods trimmed from both ends.
pub open spec fn spec_trim_punct(s: Seq<char>) -> Seq<char> {
    let a = spec_punct_start(s, 0);
    s.subrange(a, spec_punct_end(s, a, s.len() as int))
}

/// The first word after the first occurrence of `prefix`, trimmed of
/// quotes, commas and periods, when that leaves something.
pub open spec fn spec_token_after(message: Seq<char>, prefix: Seq<char>) -> Option<Seq<char>> {
    match spec_find(message, prefix) {
        None => None,
        Some(i) => match spec_first_word(message.skip(i + prefix.len())) {
            None => None,
            Some(w) => {
                let t = spec_trim_punct(w);
                if t.len() == 0 {
                    None
                } else {
                    Some(t)
                }
            },
        },
    }
}

/// The token a message names, tried against the known message shapes in
/// order.
pub open spec fn spec_message_token(message: Seq<char>) -> Option<Seq<char>> {
    match spec_token_after(message, "Unknown plugin type: "@) {
        Some(t) => Some(t),
        None => match spec_quoted_after(message, "Unknown plugin type '"@) {
            Some(t) => Some(t),
            None => match spec_quoted_after(message, "Duplicate plugin tag '"@) {
                Some(t) => Some(t),
                None => match spec_quoted_after(message, "references missing plugin '"@) {
                    Some(t) => Some(t),
                    None => match spec_quoted_after(message, "but '"@) {
                        Some(t) => Some(t),
                        None => spec_quoted_after(message, "plugin type '"@),
                    },
                },
            },
        },
    }
}

/// Where `token` (preferably as the reference `$token`) first occurs in the
/// lines from `k` on: 1-based line, byte column and end column.
pub open spec fn spec_locate_from(lines: Seq<Seq<char>>, token: Seq<char>, k: int) -> Option<(int, int, int)>
    decreases lines.len() - k,
{
    if k < 0 || k >= lines.len() {
        None
    } else {
        let reference = seq!['$'] + token;
        match spec_find(lines[k], reference) {
            Some(i) => Some(
                (
                    k + 1,
                    spec_byte_len(lines[k].take(i)) + 1int,
                    spec_byte_len(lines[k].take(i)) + 1int + spec_byte_len(reference),
                ),
            ),
            None => match spec_find(lines[k], token) {
                Some(i) => Some(
                    (
                        k + 1,
                        spec_byte_len(lines[k].take(i)) + 1int,
                        spec_byte_len(lines[k].take(i)) + 1int + spec_byte_len(token),
                    ),
                ),
                None => spec_locate_from(lines, token, k + 1),
            },
        }
    }
}

/// Where `token` first occurs in `config_text`.
pub open spec fn spec_locate_token(config_text: Seq<char>, token: Seq<char>) -> Option<(int, int, int)> {
    spec_locate_from(spec_lines(config_text), token, 0)
}

/// Where the token that `message` names occurs in `config_text`.
pub open spec fn spec_locate_in_config(config_text: Seq<char>, message: Seq<char>) -> Option<(int, int, int)> {
    match spec_message_token(message) {
        None => None,
        Some(t) => spec_locate_token(config_text, t),
    }
}

fn find_from(h: &[char], n: &[char], from: usize) -> (r: Option<usize>)
    requires
        from <= h@.len(),
    ensures
        match spec_find_from(h@, n@, from as int) {
            Some(i) => r == Some(i as usize) && 0 <= i && i + n@.len() <= h@.len(),
            None => r is None,
        },
{
    let hl = h.len();
    let mut i = from;
    while i <= h.len() && n.len() <= h.len() - i
        invariant
            from <= i,
            i <= h@.len() + 1,
            hl == h@.len(),
            spec_find_from(h@, n@, from as int) == spec_find_from(h@, n@, i as int),
        decreases h@.len() + 1 - i,
    {
        let mut k: usize = 0;
        let mut same = true;
        while k < n.len()
            invariant
                i + n@.len() <= h@.len(),
                hl == h@.len(),
                k <= n@.len(),
                same == (forall|m: int| 0 <= m < k ==> h@[i + m] == n@[m]),
            decreases n.len() - k,
        {
            if h[i + k] != n[k] {
                same = false;
            }
            k = k + 1;
        }
        if same {
            proof {
                assert(h@.subrange(i as int, i + n@.len()) =~= n@);
            }
            return Some(i);
        }
        proof {
            assert(h@.subrange(i as int, i + n@.len()) != n@) by {
                let m = choose|m: int| 0 <= m < k && h@[i + m] != n@[m];
                assert(h@.subrange(i as int, i + n@.len())[m] == h@[i + m]);
            }
        }
        i = i + 1;
    }
    None
}

fn find(h: &[char], n: &[char]) -> (r: Option<usize>)
    ensures
        match spec_find(h@, n@) {
            Some(i) => r == Some(i as usize) && 0 <= i && i + n@.len() <= h@.len(),
            None => r is None,
        },
{
    find_from(h, n, 0)
}

fn quoted_after(message: &[char], prefix: &str) -> (r: Option<Vec<char>>)
    ensures
        match spec_quoted_after(message@, prefix@) {
            Some(t) => r matches Some(v) && v@ == t,
            None => r is None,
        },
{
    let p = chars_of(prefix);
    let i = match find(message, p.as_slice()) {
        Some(i) => i,
        None => return None,
    };
    let ml = message.len();
    let rest = vstd::slice::slice_subrange(message, i + p.len(), ml);
    proof {
        assert(rest@ =~= message@.skip(i + p@.len()));
    }
    let quote = ['\''];
    proof {
        assert(quote@ =~= seq!['\'']);
    }
    let e = match find(rest, quote.as_slice()) {
        Some(e) => e,
        None => return None,
    };
    let t = vstd::slice::slice_subrange(rest, 0, e);
    proof {
        assert(t@ =~= rest@.take(e as int));
    }
    Some(vstd::slice::slice_to_vec(t))
}

fn skip(s: &[char], from: usize, ws: bool) -> (r: usize)
    requires
        from <= s@.len(),
    ensures
        r == spec_skip(s@, from as int, ws),
        from <= r <= s@.len(),
{
    let mut i = from;
    while i < s.len() && is_whitespace(s[i]) == ws
        invariant
            from <= i <= s@.len(),
            spec_skip(s@, from as int, ws) == spec_skip(s@, i as int, ws),
        decreases s.len() - i,
    {
        i = i + 1;
    }
    i
}

fn is_token_punct(c: char) -> (b: bool)
    ensures
        b == spec_token_punct(c),
{
    c == '\'' || c == '"' || c == ',' || c == '.'
}

fn trim_punct(s: &[char]) -> (r: Vec<char>)
    ensures
        r@ == spec_trim_punct(s@),
{
    let mut a: usize = 0;
    while a < s.len() && is_token_punct(s[a])
        invariant
            a <= s@.len(),
            spec_punct_start(s@, 0) == spec_punct_start(s@, a as int),
        decreases s.len() - a,
    {
        a = a + 1;
    }
    let mut b: usize = s.len();
    while b > a && is_token_punct(s[b - 1])
        invariant
            a <= b <= s@.len(),
            a == spec_punct_start(s@, 0),
            spec_punct_end(s@, a as int, b as int) == spec_punct_end(s@, a as int, s@.len() as int),
        decreases b,
    {
        b = b - 1;
    }
    vstd::slice::slice_to_vec(vstd::slice::slice_subrange(s, a, b))
}

fn token_after(message: &[char], prefix: &str) -> (r: Option<Vec<char>>)
    ensures
        match spec_token_after(message@, prefix@) {
            Some(t) => r matches Some(v) && v@ == t,
            None => r is None,
        },
{
    let p = chars_of(prefix);
    let i = match find(message, p.as_slice()) {
        Some(i) => i,
        None => return None,
    };
    let ml = message.len();
    let rest = vstd::slice::slice_subrange(message, i + p.len(), ml);
    proof {
        assert(rest@ =~= message@.skip(i + p@.len()));
    }
    let a = skip(rest, 0, true);
    if a >= rest.len() {
        return None;
    }
    let b = skip(rest, a, false);
    let word = vstd::slice::slice_subrange(rest, a, b);
    let t = trim_punct(word);
    if t.len() == 0 {
        return None;
    }
    Some(t)
}

/// Every line of `t` is at most as long as `t`.
proof fn lemma_lines_short(t: Seq<char>)
    ensures
        forall|k: int| 0 <= k < spec_lines(t).len() ==> (#[trigger] spec_lines(t)[k]).len() <= t.len(),
    decreases t.len(),
{
    if t.len() > 0 {
        let i = spec_line_end(t);
        lemma_line_end_bounds(t);
        if i < t.len() {
            let rest = t.skip(i + 1);
            lemma_lines_short(rest);
            let ls = spec_lines(t);
            assert forall|k: int| 0 <= k < ls.len() implies (#[trigger] ls[k]).len() <= t.len() by {
                if k > 0 {
                    assert(ls[k] == spec_lines(rest)[k - 1]);
                }
            }
        }
    }
}

proof fn lemma_line_end_bounds(t: Seq<char>)
    ensures
        0 <= spec_line_end(t) <= t.len(),
        spec_line_end(t) < t.len() ==> t[spec_line_end(t)] == '\n',
        forall|m: int| 0 <= m < spec_line_end(t) ==> t[m] != '\n',
    decreases t.len(),
{
    if t.len() > 0 && t[0] != '\n' {
        lemma_line_end_bounds(t.drop_first());
        assert forall|m: int| 0 <= m < spec_line_end(t) implies t[m] != '\n' by {
            if m > 0 {
                assert(t[m] == t.drop_first()[m - 1]);
            }
        }
    }
}

proof fn lemma_line_end_at(t: Seq<char>, e: int)
    requires
        0 <= e <= t.len(),
        e < t.len() ==> t[e] == '\n',
        forall|m: int| 0 <= m < e ==> t[m] != '\n',
    ensures
        spec_line_end(t) == e,
    decreases e,
{
    if e > 0 {
        lemma_line_end_at(t.drop_first(), e - 1);
    }
}

/// Lines of the text as `str::lines` gives them.
fn lines_of(t: &[char]) -> (r: Vec<Vec<char>>)
    ensures
        r@.map_values(|l: Vec<char>| l@) == spec_lines(t@),
{
    let mut out: Vec<Vec<char>> = Vec::new();
    let mut pos: usize = 0;
    proof {
        assert(t@.skip(0) =~= t@);
        assert(out@.map_values(|l: Vec<char>| l@) + spec_lines(t@) =~= spec_lines(t@));
    }
    while pos < t.len()
        invariant
            pos <= t@.len(),
            out@.map_values(|l: Vec<char>| l@) + spec_lines(t@.skip(pos as int)) == spec_lines(t@),
        decreases t.len() - pos,
    {
        let mut e = pos;
        while e < t.len() && t[e] != '\n'
            invariant
                pos <= e <= t@.len(),
                forall|m: int| pos <= m < e ==> t@[m] != '\n',
            decreases t.len() - e,
        {
            e = e + 1;
        }
        let ghost rest = t@.skip(pos as int);
        proof {
            lemma_line_end_at(rest, e - pos);
            assert(rest.take(e - pos) =~= t@.subrange(pos as int, e as int));
        }
        let raw = vstd::slice::slice_subrange(t, pos, e);
        let line = if e < t.len() && raw.len() > 0 && raw[raw.len() - 1] == '\r' {
            vstd::slice::slice_to_vec(vstd::slice::slice_subrange(raw, 0, raw.len() - 1))
        } else {
            vstd::slice::slice_to_vec(raw)
        };
        let ghost before = out@.map_values(|l: Vec<char>| l@);
        out.push(line);
        proof {
            assert(out@.map_values(|l: Vec<char>| l@) =~= before.push(line@));
            if e < t.len() {
                assert(rest.skip(e - pos + 1) =~= t@.skip(e + 1));
                assert(line@ =~= (if raw@.len() > 0 && raw@.last() == '\r' { raw@.drop_last() } else { raw@ }));
                assert(before.push(line@) + spec_lines(t@.skip(e + 1)) =~= before + (seq![line@] + spec_lines(
                    t@.skip(e + 1),
                )));
            } else {
                assert(t@.skip(t@.len() as int) =~= Seq::<char>::empty());
                assert(line@ =~= rest);
                assert(before.push(line@) + Seq::<Seq<char>>::empty() =~= before + seq![rest]);
            }
        }
        pos = if e < t.len() {
            e + 1
        } else {
            t.len()
        };
    }
    proof {
        assert(t@.skip(pos as int) =~= Seq::<char>::empty());
        assert(out@.map_values(|l: Vec<char>| l@) + Seq::<Seq<char>>::empty() =~= out@.map_values(
            |l: Vec<char>| l@,
        ));
    }
    out
}

/// Bytes a character takes in UTF-8.
fn utf8_len(c: char) -> (n: usize)
    ensures
        n == spec_utf8_len(c),
{
    let v = c as u32;
    if v < 0x80 {
        1
    } else if v < 0x800 {
        2
    } else if v < 0x1_0000 {
        3
    } else {
        4
    }
}

proof fn lemma_byte_len_bound(s: Seq<char>)
    ensures
        spec_byte_len(s) <= 4 * s.len(),
    decreases s.len(),
{
    if s.len() > 0 {
        lemma_byte_len_bound(s.drop_last());
    }
}

/// UTF-8 size of `s[..k]`.
fn byte_len_prefix(s: &[char], k: usize) -> (n: usize)
    requires
        k <= s@.len(),
        4 * s@.len() <= usize::MAX,
    ensures
        n == spec_byte_len(s@.take(k as int)),
{
    let mut n: usize = 0;
    let mut i: usize = 0;
    proof {
        assert(s@.take(0) =~= Seq::<char>::empty());
    }
    while i < k
        invariant
            i <= k <= s@.len(),
            4 * s@.len() <= usize::MAX,
            n == spec_byte_len(s@.take(i as int)),
        decreases k - i,
    {
        proof {
            assert(s@.take(i + 1).drop_last() =~= s@.take(i as int));
            lemma_byte_len_bound(s@.take(i as int));
        }
        n = n + utf8_len(s[i]);
        i = i + 1;
    }
    n
}

/// Where `token` (preferably as `$token`) first occurs in `config_text`:
/// 1-based line, byte column and end column.
fn locate_token(config_text: &[char], token: &[char]) -> (r: Option<(usize, usize, usize)>)
    requires
        16 * config_text@.len() <= usize::MAX,
    ensures
        match spec_locate_token(config_text@, token@) {
            Some((l, c, e)) => r matches Some((x, y, z)) && x == l && y == c && z == e,
            None => r is None,
        },
{
    let lines = lines_of(config_text);
    let ghost ls = spec_lines(config_text@);
    proof {
        lemma_lines_short(config_text@);
    }
    let mut reference: Vec<char> = Vec::new();
    reference.push('$');
    let mut tk = vstd::slice::slice_to_vec(token);
    reference.append(&mut tk);
    let mut k: usize = 0;
    while k < lines.len()
        invariant
            k <= lines@.len(),
            16 * config_text@.len() <= usize::MAX,
            ls == spec_lines(config_text@),
            lines@.map_values(|l: Vec<char>| l@) == ls,
            forall|q: int| 0 <= q < ls.len() ==> (#[trigger] ls[q]).len() <= config_text@.len(),
            reference@ == seq!['$'] + token@,
            spec_locate_token(config_text@, token@) == spec_locate_from(ls, token@, k as int),
        decreases lines.len() - k,
    {
        let line = &lines[k];
        proof {
            assert(ls[k as int] == line@);
            assert(line@.len() <= config_text@.len());
        }
        match find(line.as_slice(), reference.as_slice()) {
            Some(i) => {
                proof {
                    lemma_byte_len_bound(line@.take(i as int));
                    lemma_byte_len_bound(reference@);
                    assert(reference@.take(reference@.len() as int) =~= reference@);
                }
                let column = byte_len_prefix(line.as_slice(), i) + 1;
                let width = byte_len_prefix(reference.as_slice(), reference.len());
                return Some((k + 1, column, column + width));
            },
            None => {},
        }
        match find(line.as_slice(), token) {
            Some(i) => {
                proof {
                    lemma_byte_len_bound(line@.take(i as int));
                    lemma_byte_len_bound(token@);
                    assert(token@.take(token@.len() as int) =~= token@);
                }
                let column = byte_len_prefix(line.as_slice(), i) + 1;
                let tl = byte_len_prefix(token, token.len());
                return Some((k + 1, column, column + tl));
            },
            None => {},
        }
        k = k + 1;
    }
    None
}

/// Try to locate the token that `message` names within `config_text`;
/// `None` when no known message shape matches or the token is not in the
/// source.
pub fn locate_in_config(config_text: &str, message: &str) -> (r: Option<ConfigLocation>)
    requires
        16 * config_text@.len() <= usize::MAX,
    ensures
        match spec_locate_in_config(config_text@, message@) {
            Some((l, c, e)) => r matches Some(loc) && loc.line == l && loc.column == c && loc.end_column == e,
            None => r is None,
        },
{
    let m = chars_of(message);
    let token = match token_after(m.as_slice(), "Unknown plugin type: ") {
        Some(t) => t,
        None => match quoted_after(m.as_slice(), "Unknown plugin type '") {
            Some(t) => t,
            None => match quoted_after(m.as_slice(), "Duplicate plugin tag '") {
                Some(t) => t,
                None => match quoted_after(m.as_slice(), "references missing plugin '") {
                    Some(t) => t,
                    None => match quoted_after(m.as_slice(), "but '") {
                        Some(t) => t,
                        None => match quoted_after(m.as_slice(), "plugin type '") {
                            Some(t) => t,
                            None => return None,
                        },
                    },
                },
            },
        },
    };
    assert(spec_message_token(message@) == Some(token@));
    let text = chars_of(config_text);
    let (line, column, end_column) = match locate_token(text.as_slice(), token.as_slice()) {
        Some(x) => x,
        None => return None,
    };
    Some(ConfigLocation { line, column, end_column })
}

} // verus!
