//! Models of v2ray-rules-dat files (geosite and geoip lists) and the rules
//! for selecting their entries and rendering them as rule expressions.

use vstd::prelude::*;
use crate::text::{
    ascii_lowercase, chars_of, push_decimal, push_signed_decimal, push_str_chars, spec_ascii_lowercase,
    spec_decimal, spec_signed_decimal, spec_trim, string_from_chars, trim_chars,
};

verus! {

/// One CIDR block of a geoip entry.
#[derive(Debug, Clone, PartialEq, Eq)]
pub struct Cidr {
    pub ip: Vec<u8>,
    pub prefix: u32,
}

/// A geoip entry: a code and its CIDR blocks.
#[derive(Debug, Clone, PartialEq, Eq)]
pub struct GeoIp {
    pub country_code: String,
    pub cidr: Vec<Cidr>,
    pub inverse_match: bool,
    pub resource_hash: Vec<u8>,
    pub code: String,
    pub file_path: String,
}

/// A decoded geoip file.
#[derive(Debug, Clone, PartialEq, Eq)]
pub struct GeoIpList {
    pub entry: Vec<GeoIp>,
}

/// A geosite entry: a code and its domains.
#[derive(Debug, Clone, PartialEq, Eq)]
pub struct GeoSite {
    pub country_code: String,
    pub domain: Vec<Domain>,
    pub resource_hash: Vec<u8>,
    pub code: String,
    pub file_path: String,
}

/// A decoded geosite file.
#[derive(Debug, Clone, PartialEq, Eq)]
pub struct GeoSiteList {
    pub entry: Vec<GeoSite>,
}

/// One domain of a geosite entry; `domain_type` holds the wire value of
/// [`DomainType`].
#[derive(Debug, Clone, PartialEq, Eq)]
pub struct Domain {
    pub domain_type: i32,
    pub value: String,
    pub attribute: Vec<Attribute>,
}

/// How a geosite domain value matches.
#[derive(Debug, Clone, Copy, PartialEq, Eq)]
pub enum DomainType {
    Plain,
    Regex,
    RootDomain,
    Full,
}

/// The domain type numbered `v` (0 to 3).
pub open spec fn spec_domain_type(v: i32) -> Option<DomainType> {
    if v == 0 {
        Some(DomainType::Plain)
    } else if v == 1 {
        Some(DomainType::Regex)
    } else if v == 2 {
        Some(DomainType::RootDomain)
    } else if v == 3 {
        Some(DomainType::Full)
    } else {
        None
    }
}

impl DomainType {
    /// The domain type numbered `v`, if any.
    pub fn from_i32(v: i32) -> (r: Option<DomainType>)
        ensures
            r == spec_domain_type(v),
    {
        if v == 0 {
            Some(DomainType::Plain)
        } else if v == 1 {
            Some(DomainType::Regex)
        } else if v == 2 {
            Some(DomainType::RootDomain)
        } else if v == 3 {
            Some(DomainType::Full)
        } else {
            None
        }
    }
}

/// Value of a domain attribute.
#[derive(Debug, Clone, Copy, PartialEq, Eq)]
pub enum TypedValue {
    BoolValue(bool),
    IntValue(i64),
}

/// A domain attribute: a key and an optional value.
#[derive(Debug, Clone, PartialEq, Eq)]
pub struct Attribute {
    pub key: String,
    pub typed_value: Option<TypedValue>,
}

/// A parsed `code` or `code@attr` selector, both lowercased.
#[derive(Debug, Clone, PartialEq, Eq)]
pub struct GeoSiteSelector {
    pub code: String,
    pub attr: Option<String>,
}

/// A dat file decoded as one of the two kinds.
#[derive(Debug, Clone, PartialEq, Eq)]
pub enum ParsedDat {
    GeoSite(GeoSiteList),
    GeoIp(GeoIpList),
}

/// Character views of a list of strings.
pub open spec fn spec_strs(v: Seq<String>) -> Seq<Seq<char>> {
    v.map_values(|s: String| s@)
}

/// Selectors trimmed, the empty ones dropped, the rest lowercased.
pub open spec fn spec_normalized_selectors(ss: Seq<Seq<char>>) -> Seq<Seq<char>>
    decreases ss.len(),
{
    if ss.len() == 0 {
        Seq::empty()
    } else {
        let prev = spec_normalized_selectors(ss.drop_last());
        let t = spec_trim(ss.last());
        if t.len() == 0 {
            prev
        } else {
            prev.push(spec_ascii_lowercase(t))
        }
    }
}

proof fn lemma_take_push<A>(s: Seq<A>, i: int)
    requires
        0 <= i < s.len(),
    ensures
        s.take(i + 1).drop_last() == s.take(i),
        s.take(i + 1).last() == s[i],
{
    assert(s.take(i + 1).drop_last() =~= s.take(i));
}

/// Trim each selector, drop the empty ones and lowercase the rest.
pub fn normalized_selectors(selectors: &[String]) -> (r: Vec<String>)
    ensures
        spec_strs(r@) == spec_normalized_selectors(spec_strs(selectors@)),
{
    let ghost ss = spec_strs(selectors@);
    let mut out: Vec<String> = Vec::new();
    let mut i: usize = 0;
    proof {
        assert(ss.take(0) =~= Seq::<Seq<char>>::empty());
        assert(spec_strs(out@) =~= Seq::<Seq<char>>::empty());
    }
    while i < selectors.len()
        invariant
            i <= selectors@.len(),
            ss == spec_strs(selectors@),
            spec_strs(out@) == spec_normalized_selectors(ss.take(i as int)),
        decreases selectors.len() - i,
    {
        proof {
            lemma_take_push(ss, i as int);
        }
        let cs = chars_of(selectors[i].as_str());
        let t = trim_chars(cs.as_slice());
        if t.len() > 0 {
            let l = ascii_lowercase(t.as_slice());
            let ghost before = out@;
            out.push(string_from_chars(l.as_slice()));
            proof {
                assert(spec_strs(out@) =~= spec_strs(before).push(spec_ascii_lowercase(spec_trim(ss[i as int]))));
            }
        }
        i = i + 1;
    }
    proof {
        assert(ss.take(ss.len() as int) =~= ss);
    }
    out
}

/// Whether some selector in `kept` has the same lowercase form as `t`.
pub open spec fn spec_seen(kept: Seq<Seq<char>>, t: Seq<char>) -> bool {
    exists|k: int| 0 <= k < kept.len() && spec_ascii_lowercase(#[trigger] kept[k]) == spec_ascii_lowercase(t)
}

/// Trimmed, non-empty selectors, keeping the first spelling of each
/// selector when several differ only in ASCII case.
pub open spec fn spec_unique_selectors(ss: Seq<Seq<char>>) -> Seq<Seq<char>>
    decreases ss.len(),
{
    if ss.len() == 0 {
        Seq::empty()
    } else {
        let prev = spec_unique_selectors(ss.drop_last());
        let t = spec_trim(ss.last());
        if t.len() == 0 || spec_seen(prev, t) {
            prev
        } else {
            prev.push(t)
        }
    }
}

/// `a` and `b` hold the same characters.
pub fn chars_eq(a: &[char], b: &[char]) -> (r: bool)
    ensures
        r == (a@ == b@),
{
    if a.len() != b.len() {
        return false;
    }
    let mut i: usize = 0;
    while i < a.len()
        invariant
            a@.len() == b@.len(),
            i <= a@.len(),
            forall|k: int| 0 <= k < i ==> a@[k] == b@[k],
        decreases a.len() - i,
    {
        if a[i] != b[i] {
            return false;
        }
        i = i + 1;
    }
    proof {
        assert(a@ =~= b@);
    }
    true
}

/// Trimmed, non-empty selectors without case-insensitive repeats; the
/// first spelling wins.
pub fn unique_nonempty_selectors(selectors: &[String]) -> (r: Vec<String>)
    ensures
        spec_strs(r@) == spec_unique_selectors(spec_strs(selectors@)),
{
    let ghost ss = spec_strs(selectors@);
    let mut seen: Vec<Vec<char>> = Vec::new();
    let mut out: Vec<String> = Vec::new();
    let mut i: usize = 0;
    proof {
        assert(ss.take(0) =~= Seq::<Seq<char>>::empty());
        assert(spec_strs(out@) =~= Seq::<Seq<char>>::empty());
    }
    while i < selectors.len()
        invariant
            i <= selectors@.len(),
            ss == spec_strs(selectors@),
            spec_strs(out@) == spec_unique_selectors(ss.take(i as int)),
            seen@.len() == out@.len(),
            forall|k: int| 0 <= k < seen@.len() ==> #[trigger] seen@[k]@ == spec_ascii_lowercase(out@[k]@),
        decreases selectors.len() - i,
    {
        proof {
            lemma_take_push(ss, i as int);
        }
        let cs = chars_of(selectors[i].as_str());
        let t = trim_chars(cs.as_slice());
        if t.len() > 0 {
            let l = ascii_lowercase(t.as_slice());
            let mut found = false;
            let mut k: usize = 0;
            while k < seen.len()
                invariant
                    k <= seen@.len(),
                    seen@.len() == out@.len(),
                    forall|m: int| 0 <= m < seen@.len() ==> #[trigger] seen@[m]@ == spec_ascii_lowercase(out@[m]@),
                    found == exists|m: int| 0 <= m < k && #[trigger] seen@[m]@ == l@,
                decreases seen.len() - k,
            {
                if chars_eq(seen[k].as_slice(), l.as_slice()) {
                    found = true;
                }
                k = k + 1;
            }
            let ghost prev = spec_strs(out@);
            proof {
                assert(spec_seen(prev, t@) == found) by {
                    if found {
                        let m = choose|m: int| 0 <= m < seen@.len() && #[trigger] seen@[m]@ == l@;
                        assert(prev[m] == out@[m]@);
                    }
                    if spec_seen(prev, t@) {
                        let m = choose|m: int| 0 <= m < prev.len() && spec_ascii_lowercase(#[trigger] prev[m])
                            == spec_ascii_lowercase(t@);
                        assert(seen@[m]@ == l@);
                    }
                }
            }
            if !found {
                let ghost before = out@;
                out.push(string_from_chars(t.as_slice()));
                seen.push(l);
                proof {
                    assert(spec_strs(out@) =~= spec_strs(before).push(t@));
                }
            }
        }
        i = i + 1;
    }
    proof {
        assert(ss.take(ss.len() as int) =~= ss);
    }
    out
}

/// The code of an entry: `code`, or the country code when `code` is empty.
pub open spec fn spec_entry_code(code: Seq<char>, country_code: Seq<char>) -> Seq<char> {
    if code.len() == 0 {
        country_code
    } else {
        code
    }
}

/// The code a geoip entry is filed under.
pub fn geoip_code(entry: &GeoIp) -> (s: &str)
    ensures
        s@ == spec_entry_code(entry.code@, entry.country_code@),
{
    if entry.code.as_str().is_empty() {
        entry.country_code.as_str()
    } else {
        entry.code.as_str()
    }
}

/// The code a geosite entry is filed under.
pub fn geosite_code(entry: &GeoSite) -> (s: &str)
    ensures
        s@ == spec_entry_code(entry.code@, entry.country_code@),
{
    if entry.code.as_str().is_empty() {
        entry.country_code.as_str()
    } else {
        entry.code.as_str()
    }
}

/// Index of the first `'@'` in `t`, if any.
pub open spec fn spec_find_at(t: Seq<char>) -> Option<int>
    decreases t.len(),
{
    if t.len() == 0 {
        None
    } else if t[0] == '@' {
        Some(0)
    } else {
        match spec_find_at(t.drop_first()) {
            Some(i) => Some(i + 1),
            None => None,
        }
    }
}

/// The code and optional attribute of one non-empty trimmed selector token.
pub open spec fn spec_split_selector(token: Seq<char>) -> (Seq<char>, Option<Seq<char>>) {
    match spec_find_at(token) {
        Some(i) => (spec_trim(token.take(i)), Some(spec_trim(token.skip(i + 1)))),
        None => (token, None),
    }
}

/// Message for a selector whose code is empty.
pub open spec fn spec_empty_code_message(token: Seq<char>) -> Seq<char> {
    "invalid empty geosite code selector '"@ + token + "'"@
}

/// Message for a selector whose attribute is empty.
pub open spec fn spec_empty_attr_message(token: Seq<char>) -> Seq<char> {
    "invalid geosite selector '"@ + token + "' with empty attribute name"@
}

/// Selectors parsed in order; the first invalid one gives the error.
pub open spec fn spec_parse_selectors(ss: Seq<Seq<char>>) -> Result<Seq<(Seq<char>, Option<Seq<char>>)>, Seq<char>>
    decreases ss.len(),
{
    if ss.len() == 0 {
        Ok(Seq::empty())
    } else {
        match spec_parse_selectors(ss.drop_last()) {
            Err(m) => Err(m),
            Ok(prev) => {
                let token = spec_trim(ss.last());
                if token.len() == 0 {
                    Ok(prev)
                } else {
                    let (code, attr) = spec_split_selector(token);
                    if code.len() == 0 {
                        Err(spec_empty_code_message(token))
                    } else if attr matches Some(a) && a.len() == 0 {
                        Err(spec_empty_attr_message(token))
                    } else {
                        Ok(
                            prev.push(
                                (
                                    spec_ascii_lowercase(code),
                                    match attr {
                                        Some(a) => Some(spec_ascii_lowercase(a)),
                                        None => None,
                                    },
                                ),
                            ),
                        )
                    }
                }
            },
        }
    }
}

/// View of a selector: its code and attribute as characters.
pub open spec fn spec_selector_view(s: GeoSiteSelector) -> (Seq<char>, Option<Seq<char>>) {
    (
        s.code@,
        match s.attr {
            Some(a) => Some(a@),
            None => None,
        },
    )
}

fn find_at(t: &[char]) -> (r: Option<usize>)
    ensures
        match r {
            Some(k) => spec_find_at(t@) == Some(k as int),
            None => spec_find_at(t@) is None,
        },
        r matches Some(i) ==> i < t@.len(),
{
    let mut i: usize = 0;
    proof {
        assert(t@.skip(0) =~= t@);
    }
    while i < t.len()
        invariant
            i <= t@.len(),
            forall|k: int| 0 <= k < i ==> t@[k] != '@',
            spec_find_at(t@) == match spec_find_at(t@.skip(i as int)) {
                Some(j) => Some(j + i),
                None => None,
            },
        decreases t.len() - i,
    {
        proof {
            assert(t@.skip(i as int).drop_first() =~= t@.skip(i + 1));
        }
        if t[i] == '@' {
            return Some(i);
        }
        i = i + 1;
    }
    proof {
        assert(t@.skip(i as int) =~= Seq::<char>::empty());
    }
    None
}

/// Parse `code` / `code@attr` selectors: tokens are trimmed, empty ones
/// skipped, code and attribute trimmed and lowercased.  An empty code or an
/// empty attribute after `@` is an error naming the token.
pub fn parse_geosite_selectors(raw_selectors: &[String]) -> (r: Result<Vec<GeoSiteSelector>, String>)
    ensures
        match spec_parse_selectors(spec_strs(raw_selectors@)) {
            Ok(v) => r matches Ok(x) && x@.map_values(|s: GeoSiteSelector| spec_selector_view(s)) == v,
            Err(m) => r matches Err(e) && e@ == m,
        },
{
    let ghost ss = spec_strs(raw_selectors@);
    let mut selectors: Vec<GeoSiteSelector> = Vec::new();
    let mut i: usize = 0;
    proof {
        assert(ss.take(0) =~= Seq::<Seq<char>>::empty());
        assert(selectors@.map_values(|s: GeoSiteSelector| spec_selector_view(s)) =~= Seq::<
            (Seq<char>, Option<Seq<char>>),
        >::empty());
    }
    while i < raw_selectors.len()
        invariant
            i <= raw_selectors@.len(),
            ss == spec_strs(raw_selectors@),
            spec_parse_selectors(ss.take(i as int)) == Ok::<Seq<(Seq<char>, Option<Seq<char>>)>, Seq<char>>(
                selectors@.map_values(|s: GeoSiteSelector| spec_selector_view(s)),
            ),
        decreases raw_selectors.len() - i,
    {
        proof {
            lemma_take_push(ss, i as int);
        }
        let cs = chars_of(raw_selectors[i].as_str());
        let token = trim_chars(cs.as_slice());
        if token.len() > 0 {
            let found = find_at(token.as_slice());
            let code: Vec<char>;
            let attr: Option<Vec<char>>;
            if let Some(at) = found {
                let before = vstd::slice::slice_subrange(token.as_slice(), 0, at);
                let after = vstd::slice::slice_subrange(token.as_slice(), at + 1, token.len());
                proof {
                    assert(before@ =~= token@.take(at as int));
                    assert(after@ =~= token@.skip(at + 1));
                }
                code = trim_chars(before);
                attr = Some(trim_chars(after));
                proof {
                    assert(spec_find_at(token@) == Some(at as int));
                    assert(code@ == spec_split_selector(token@).0);
                    assert(attr.unwrap()@ == spec_split_selector(token@).1.unwrap());
                }
            } else {
                code = vstd::slice::slice_to_vec(token.as_slice());
                attr = None;
                proof {
                    assert(spec_find_at(token@) is None);
                    assert(code@ == spec_split_selector(token@).0);
                    assert(spec_split_selector(token@).1 is None);
                }
            }
            if code.len() == 0 {
                let mut m: Vec<char> = Vec::new();
                push_str_chars(&mut m, "invalid empty geosite code selector '");
                let mut tk = vstd::slice::slice_to_vec(token.as_slice());
                m.append(&mut tk);
                push_str_chars(&mut m, "'");
                proof {
                    assert(m@ =~= spec_empty_code_message(token@));
                    lemma_parse_selectors_err(ss, i as int);
                }
                return Err(string_from_chars(m.as_slice()));
            }
            if let Some(a) = &attr {
                if a.len() == 0 {
                    let mut m: Vec<char> = Vec::new();
                    push_str_chars(&mut m, "invalid geosite selector '");
                    let mut tk = vstd::slice::slice_to_vec(token.as_slice());
                    m.append(&mut tk);
                    push_str_chars(&mut m, "' with empty attribute name");
                    proof {
                        assert(m@ =~= spec_empty_attr_message(token@));
                        lemma_parse_selectors_err(ss, i as int);
                    }
                    return Err(string_from_chars(m.as_slice()));
                }
            }
            let lc = ascii_lowercase(code.as_slice());
            let la = match &attr {
                Some(a) => Some(string_from_chars(ascii_lowercase(a.as_slice()).as_slice())),
                None => None,
            };
            let ghost before = selectors@;
            selectors.push(GeoSiteSelector { code: string_from_chars(lc.as_slice()), attr: la });
            proof {
                assert(selectors@.map_values(|s: GeoSiteSelector| spec_selector_view(s)) =~= before.map_values(
                    |s: GeoSiteSelector| spec_selector_view(s),
                ).push(spec_selector_view(selectors@.last())));
            }
        }
        i = i + 1;
    }
    proof {
        assert(ss.take(ss.len() as int) =~= ss);
    }
    Ok(selectors)
}

/// Once a prefix of the selectors fails, the whole list fails the same way.
proof fn lemma_parse_selectors_err(ss: Seq<Seq<char>>, i: int)
    requires
        0 <= i < ss.len(),
        spec_parse_selectors(ss.take(i + 1)) is Err,
    ensures
        spec_parse_selectors(ss) == spec_parse_selectors(ss.take(i + 1)),
    decreases ss.len() - i,
{
    if i + 1 < ss.len() {
        lemma_take_push(ss, i + 1);
        lemma_parse_selectors_err(ss, i + 1);
    } else {
        assert(ss.take(i + 1) =~= ss);
    }
}

/// Whether an attribute value counts as set: no value, `true`, or a
/// non-zero integer.
pub open spec fn spec_attr_value_set(v: Option<TypedValue>) -> bool {
    match v {
        None => true,
        Some(TypedValue::BoolValue(b)) => b,
        Some(TypedValue::IntValue(i)) => i != 0,
    }
}

/// Whether `domain` carries attribute `attr` (key compared ignoring ASCII
/// case) with a value that counts as set.
pub open spec fn spec_domain_has_attribute(domain: Domain, attr: Seq<char>) -> bool {
    exists|i: int|
        0 <= i < domain.attribute@.len() && spec_ascii_lowercase(#[trigger] domain.attribute@[i].key@)
            == spec_ascii_lowercase(attr) && spec_attr_value_set(domain.attribute@[i].typed_value)
}

/// Whether the domain has the attribute `attr` set.
pub fn domain_has_attribute(domain: &Domain, attr: &str) -> (r: bool)
    ensures
        r == spec_domain_has_attribute(*domain, attr@),
{
    let la = ascii_lowercase(chars_of(attr).as_slice());
    let mut i: usize = 0;
    while i < domain.attribute.len()
        invariant
            i <= domain.attribute@.len(),
            la@ == spec_ascii_lowercase(attr@),
            forall|k: int| 0 <= k < i ==> !(spec_ascii_lowercase(#[trigger] domain.attribute@[k].key@)
                == spec_ascii_lowercase(attr@) && spec_attr_value_set(domain.attribute@[k].typed_value)),
        decreases domain.attribute.len() - i,
    {
        let attribute = &domain.attribute[i];
        let lk = ascii_lowercase(chars_of(attribute.key.as_str()).as_slice());
        if chars_eq(lk.as_slice(), la.as_slice()) {
            let set = match attribute.typed_value {
                None => true,
                Some(TypedValue::BoolValue(b)) => b,
                Some(TypedValue::IntValue(v)) => v != 0,
            };
            if set {
                return true;
            }
        }
        i = i + 1;
    }
    false
}

/// Selectors filed under `code`.
pub open spec fn spec_selectors_for(selectors: Seq<GeoSiteSelector>, code: Seq<char>) -> Seq<GeoSiteSelector>
    decreases selectors.len(),
{
    if selectors.len() == 0 {
        Seq::empty()
    } else {
        let prev = spec_selectors_for(selectors.drop_last(), code);
        if selectors.last().code@ == code {
            prev.push(selectors.last())
        } else {
            prev
        }
    }
}

/// The selectors, in order, whose code is the entry's code lowercased;
/// none when there are no selectors.
pub fn matched_geosite_selectors<'a>(entry: &GeoSite, selectors: &'a [GeoSiteSelector]) -> (r: Vec<
    &'a GeoSiteSelector,
>)
    ensures
        r@.map_values(|x: &GeoSiteSelector| *x) == spec_selectors_for(
            selectors@,
            spec_ascii_lowercase(spec_entry_code(entry.code@, entry.country_code@)),
        ),
{
    let mut out: Vec<&'a GeoSiteSelector> = Vec::new();
    let ghost code = spec_ascii_lowercase(spec_entry_code(entry.code@, entry.country_code@));
    if selectors.len() == 0 {
        proof {
            assert(selectors@ =~= Seq::<GeoSiteSelector>::empty());
            assert(spec_selectors_for(selectors@, code) =~= Seq::<GeoSiteSelector>::empty());
            assert(out@.map_values(|x: &GeoSiteSelector| *x) =~= Seq::<GeoSiteSelector>::empty());
        }
        return out;
    }
    let lc = ascii_lowercase(chars_of(geosite_code(entry)).as_slice());
    let mut i: usize = 0;
    proof {
        assert(selectors@.take(0) =~= Seq::<GeoSiteSelector>::empty());
        assert(spec_selectors_for(selectors@.take(0), code) =~= Seq::<GeoSiteSelector>::empty());
        assert(out@.map_values(|x: &GeoSiteSelector| *x) =~= Seq::<GeoSiteSelector>::empty());
    }
    while i < selectors.len()
        invariant
            i <= selectors@.len(),
            lc@ == code,
            out@.map_values(|x: &GeoSiteSelector| *x) == spec_selectors_for(selectors@.take(i as int), code),
        decreases selectors.len() - i,
    {
        proof {
            lemma_take_push(selectors@, i as int);
        }
        let ghost before = out@;
        let sc = chars_of(selectors[i].code.as_str());
        let ghost x = selectors@[i as int];
        if chars_eq(sc.as_slice(), lc.as_slice()) {
            out.push(&selectors[i]);
            proof {
                assert(x.code@ == code);
                assert(spec_selectors_for(selectors@.take(i + 1), code) == spec_selectors_for(
                    selectors@.take(i as int),
                    code,
                ).push(x));
                assert(out@.map_values(|x: &GeoSiteSelector| *x) =~= before.map_values(|x: &GeoSiteSelector| *x).push(
                    selectors@[i as int],
                ));
            }
        } else {
            proof {
                assert(x.code@ != code);
                assert(spec_selectors_for(selectors@.take(i + 1), code) == spec_selectors_for(
                    selectors@.take(i as int),
                    code,
                ));
            }
        }
        i = i + 1;
    }
    proof {
        assert(selectors@.take(selectors@.len() as int) =~= selectors@);
    }
    out
}

/// Whether a domain passes the selectors matched for its entry: always when
/// none matched, else when one has no attribute or its attribute is set on
/// the domain.
pub open spec fn spec_domain_matches(domain: Domain, selectors: Seq<&GeoSiteSelector>) -> bool {
    selectors.len() == 0 || exists|i: int|
        0 <= i < selectors.len() && match (#[trigger] selectors[i]).attr {
            None => true,
            Some(a) => spec_domain_has_attribute(domain, a@),
        }
}

/// Whether a domain passes the selectors matched for its entry.
pub fn geosite_domain_matches_selectors(domain: &Domain, selectors: &[&GeoSiteSelector]) -> (r: bool)
    ensures
        r == spec_domain_matches(*domain, selectors@),
{
    if selectors.len() == 0 {
        return true;
    }
    let mut i: usize = 0;
    while i < selectors.len()
        invariant
            i <= selectors@.len(),
            forall|k: int| 0 <= k < i ==> !match (#[trigger] selectors@[k]).attr {
                None => true,
                Some(a) => spec_domain_has_attribute(*domain, a@),
            },
        decreases selectors.len() - i,
    {
        let hit = match &selectors[i].attr {
            None => true,
            Some(attr) => domain_has_attribute(domain, attr.as_str()),
        };
        if hit {
            return true;
        }
        i = i + 1;
    }
    false
}

/// Rule prefix of a domain type.
pub open spec fn spec_expression_prefix(t: DomainType) -> Seq<char> {
    match t {
        DomainType::Plain => "keyword:"@,
        DomainType::Regex => "regexp:"@,
        DomainType::RootDomain => "domain:"@,
        DomainType::Full => "full:"@,
    }
}

/// Prefix of a domain type in the dat file's own vocabulary.
pub open spec fn spec_original_prefix(t: DomainType) -> Seq<char> {
    match t {
        DomainType::Plain => "plain:"@,
        DomainType::Regex => "regex:"@,
        DomainType::RootDomain => "root_domain:"@,
        DomainType::Full => "full:"@,
    }
}

/// Message for a domain whose type number is not known.
pub open spec fn spec_unsupported_type_message(domain: Domain) -> Seq<char> {
    "unsupported domain type '"@ + spec_signed_decimal(domain.domain_type as int) + "' for '"@
        + domain.value@ + "'"@
}

fn unsupported_type_message(domain: &Domain) -> (s: String)
    ensures
        s@ == spec_unsupported_type_message(*domain),
{
    let mut m: Vec<char> = Vec::new();
    push_str_chars(&mut m, "unsupported domain type '");
    push_signed_decimal(&mut m, domain.domain_type as i64);
    push_str_chars(&mut m, "' for '");
    push_str_chars(&mut m, domain.value.as_str());
    push_str_chars(&mut m, "'");
    proof {
        assert(m@ =~= spec_unsupported_type_message(*domain));
    }
    string_from_chars(m.as_slice())
}

/// The domain as a rule expression: `keyword:`, `regexp:`, `domain:` or
/// `full:` followed by its value.
pub fn geosite_domain_expression(domain: &Domain) -> (r: Result<String, String>)
    ensures
        match spec_domain_type(domain.domain_type) {
            Some(t) => r matches Ok(s) && s@ == spec_expression_prefix(t) + domain.value@,
            None => r matches Err(m) && m@ == spec_unsupported_type_message(*domain),
        },
{
    let t = match DomainType::from_i32(domain.domain_type) {
        Some(t) => t,
        None => return Err(unsupported_type_message(domain)),
    };
    let prefix = match t {
        DomainType::Plain => "keyword:",
        DomainType::Regex => "regexp:",
        DomainType::RootDomain => "domain:",
        DomainType::Full => "full:",
    };
    let mut m: Vec<char> = Vec::new();
    push_str_chars(&mut m, prefix);
    push_str_chars(&mut m, domain.value.as_str());
    Ok(string_from_chars(m.as_slice()))
}

/// The domain as a line in the dat file's vocabulary: `plain:`, `regex:`,
/// `root_domain:` or `full:` followed by its value.
pub fn geosite_domain_expression_original(domain: &Domain) -> (r: Result<String, String>)
    ensures
        match spec_domain_type(domain.domain_type) {
            Some(t) => r matches Ok(s) && s@ == spec_original_prefix(t) + domain.value@,
            None => r matches Err(m) && m@ == spec_unsupported_type_message(*domain),
        },
{
    let t = match DomainType::from_i32(domain.domain_type) {
        Some(t) => t,
        None => return Err(unsupported_type_message(domain)),
    };
    let prefix = match t {
        DomainType::Plain => "plain:",
        DomainType::Regex => "regex:",
        DomainType::RootDomain => "root_domain:",
        DomainType::Full => "full:",
    };
    let mut m: Vec<char> = Vec::new();
    push_str_chars(&mut m, prefix);
    push_str_chars(&mut m, domain.value.as_str());
    Ok(string_from_chars(m.as_slice()))
}

/// Text of one attribute: ` @key`, then `=false` for a false flag or
/// `=<n>` for an integer.
pub open spec fn spec_attribute_text(a: Attribute) -> Seq<char> {
    " @"@ + a.key@ + match a.typed_value {
        None => Seq::empty(),
        Some(TypedValue::BoolValue(true)) => Seq::empty(),
        Some(TypedValue::BoolValue(false)) => "=false"@,
        Some(TypedValue::IntValue(v)) => "="@ + spec_signed_decimal(v as int),
    }
}

/// Texts of attributes one after the other.
pub open spec fn spec_attributes_text(attrs: Seq<Attribute>) -> Seq<char>
    decreases attrs.len(),
{
    if attrs.len() == 0 {
        Seq::empty()
    } else {
        spec_attributes_text(attrs.drop_last()) + spec_attribute_text(attrs.last())
    }
}

/// The original-vocabulary line of the domain followed by its attributes.
pub fn geosite_domain_expression_original_with_attrs(domain: &Domain) -> (r: Result<String, String>)
    ensures
        match spec_domain_type(domain.domain_type) {
            Some(t) => r matches Ok(s) && s@ == spec_original_prefix(t) + domain.value@
                + spec_attributes_text(domain.attribute@),
            None => r matches Err(m) && m@ == spec_unsupported_type_message(*domain),
        },
{
    let head = match geosite_domain_expression_original(domain) {
        Ok(s) => s,
        Err(e) => return Err(e),
    };
    let mut line = chars_of(head.as_str());
    let ghost h = line@;
    let mut i: usize = 0;
    proof {
        assert(domain.attribute@.take(0) =~= Seq::<Attribute>::empty());
        assert(line@ =~= h + spec_attributes_text(domain.attribute@.take(0)));
    }
    while i < domain.attribute.len()
        invariant
            i <= domain.attribute@.len(),
            line@ == h + spec_attributes_text(domain.attribute@.take(i as int)),
        decreases domain.attribute.len() - i,
    {
        let attribute = &domain.attribute[i];
        let ghost l0 = line@;
        push_str_chars(&mut line, " @");
        push_str_chars(&mut line, attribute.key.as_str());
        match attribute.typed_value {
            None => {},
            Some(TypedValue::BoolValue(true)) => {},
            Some(TypedValue::BoolValue(false)) => push_str_chars(&mut line, "=false"),
            Some(TypedValue::IntValue(value)) => {
                push_str_chars(&mut line, "=");
                push_signed_decimal(&mut line, value);
            },
        }
        proof {
            lemma_take_push(domain.attribute@, i as int);
            assert(line@ =~= l0 + spec_attribute_text(*attribute));
        }
        i = i + 1;
    }
    proof {
        assert(domain.attribute@.take(domain.attribute@.len() as int) =~= domain.attribute@);
    }
    Ok(string_from_chars(line.as_slice()))
}

/// A geosite list is usable: it has entries, and each has a non-blank code
/// and domains with non-blank values.
pub open spec fn spec_valid_geosite_list(list: GeoSiteList) -> bool {
    &&& list.entry@.len() > 0
    &&& forall|i: int| 0 <= i < list.entry@.len() ==> spec_valid_geosite_entry(#[trigger] list.entry@[i])
}

/// A geosite entry has a non-blank code and domains with non-blank values.
pub open spec fn spec_valid_geosite_entry(e: GeoSite) -> bool {
    &&& spec_trim(spec_entry_code(e.code@, e.country_code@)).len() > 0
    &&& e.domain@.len() > 0
    &&& forall|j: int| 0 <= j < e.domain@.len() ==> spec_trim((#[trigger] e.domain@[j]).value@).len() > 0
}

/// A geoip list is usable: it has entries, and each has a non-blank code
/// and CIDR blocks of IPv4 or IPv6 size.
pub open spec fn spec_valid_geoip_list(list: GeoIpList) -> bool {
    &&& list.entry@.len() > 0
    &&& forall|i: int| 0 <= i < list.entry@.len() ==> spec_valid_geoip_entry(#[trigger] list.entry@[i])
}

/// A geoip entry has a non-blank code and CIDR blocks of IPv4 or IPv6 size.
pub open spec fn spec_valid_geoip_entry(e: GeoIp) -> bool {
    &&& spec_trim(spec_entry_code(e.code@, e.country_code@)).len() > 0
    &&& e.cidr@.len() > 0
    &&& forall|j: int| 0 <= j < e.cidr@.len() ==> (#[trigger] e.cidr@[j]).ip@.len() == 4 || e.cidr@[j].ip@.len() == 16
}

fn blank(s: &str) -> (r: bool)
    ensures
        r == (spec_trim(s@).len() == 0),
{
    trim_chars(chars_of(s).as_slice()).len() == 0
}

/// Structural check of a decoded geosite list.
pub fn is_valid_geosite_list(list: &GeoSiteList) -> (r: bool)
    ensures
        r == spec_valid_geosite_list(*list),
{
    if list.entry.len() == 0 {
        return false;
    }
    let mut i: usize = 0;
    while i < list.entry.len()
        invariant
            i <= list.entry@.len(),
            forall|k: int| 0 <= k < i ==> spec_valid_geosite_entry(#[trigger] list.entry@[k]),
        decreases list.entry.len() - i,
    {
        let e = &list.entry[i];
        proof {
            assert(list.entry@[i as int] == *e);
        }
        if blank(geosite_code(e)) || e.domain.len() == 0 {
            return false;
        }
        let mut j: usize = 0;
        while j < e.domain.len()
            invariant
                j <= e.domain@.len(),
                i < list.entry@.len(),
                list.entry@[i as int] == *e,
                forall|m: int| 0 <= m < j ==> spec_trim((#[trigger] e.domain@[m]).value@).len() > 0,
            decreases e.domain.len() - j,
        {
            if blank(e.domain[j].value.as_str()) {
                proof {
                    assert(e.domain@[j as int] == e.domain[j as int]);
                }
                return false;
            }
            j = j + 1;
        }
        i = i + 1;
    }
    true
}

/// Structural check of a decoded geoip list.
pub fn is_valid_geoip_list(list: &GeoIpList) -> (r: bool)
    ensures
        r == spec_valid_geoip_list(*list),
{
    if list.entry.len() == 0 {
        return false;
    }
    let mut i: usize = 0;
    while i < list.entry.len()
        invariant
            i <= list.entry@.len(),
            forall|k: int| 0 <= k < i ==> spec_valid_geoip_entry(#[trigger] list.entry@[k]),
        decreases list.entry.len() - i,
    {
        let e = &list.entry[i];
        proof {
            assert(list.entry@[i as int] == *e);
        }
        if blank(geoip_code(e)) || e.cidr.len() == 0 {
            return false;
        }
        let mut j: usize = 0;
        while j < e.cidr.len()
            invariant
                j <= e.cidr@.len(),
                i < list.entry@.len(),
                list.entry@[i as int] == *e,
                forall|m: int| 0 <= m < j ==> (#[trigger] e.cidr@[m]).ip@.len() == 4 || e.cidr@[m].ip@.len() == 16,
            decreases e.cidr.len() - j,
        {
            let n = e.cidr[j].ip.len();
            if n != 4 && n != 16 {
                return false;
            }
            j = j + 1;
        }
        i = i + 1;
    }
    true
}

/// Accept a decoded geosite list that passes the structural check; a
/// decoding error is passed on.
pub fn check_geosite_dat(decoded: Result<GeoSiteList, String>) -> (r: Result<GeoSiteList, String>)
    ensures
        match decoded {
            Ok(list) => if spec_valid_geosite_list(list) {
                r == Ok::<GeoSiteList, String>(list)
            } else {
                r matches Err(m) && m@ == "decoded geosite payload failed structural validation"@
            },
            Err(e) => r == Err::<GeoSiteList, String>(e),
        },
{
    match decoded {
        Ok(list) => {
            if is_valid_geosite_list(&list) {
                Ok(list)
            } else {
                Err(string_from_chars(chars_of("decoded geosite payload failed structural validation").as_slice()))
            }
        },
        Err(e) => Err(e),
    }
}

/// Accept a decoded geoip list that passes the structural check; a decoding
/// error is passed on.
pub fn check_geoip_dat(decoded: Result<GeoIpList, String>) -> (r: Result<GeoIpList, String>)
    ensures
        match decoded {
            Ok(list) => if spec_valid_geoip_list(list) {
                r == Ok::<GeoIpList, String>(list)
            } else {
                r matches Err(m) && m@ == "decoded geoip payload failed structural validation"@
            },
            Err(e) => r == Err::<GeoIpList, String>(e),
        },
{
    match decoded {
        Ok(list) => {
            if is_valid_geoip_list(&list) {
                Ok(list)
            } else {
                Err(string_from_chars(chars_of("decoded geoip payload failed structural validation").as_slice()))
            }
        },
        Err(e) => Err(e),
    }
}

/// Decide the kind of a dat file from its two decodings: exactly one must
/// be a usable list.
pub fn detect_dat_kind(geosite: Result<GeoSiteList, String>, geoip: Result<GeoIpList, String>) -> (r: Result<
    ParsedDat,
    String,
>)
    ensures
        ({
            let site_ok = geosite matches Ok(l) && spec_valid_geosite_list(l);
            let ip_ok = geoip matches Ok(l) && spec_valid_geoip_list(l);
            &&& site_ok && ip_ok ==> (r matches Err(m) && m@
                == "dat kind is ambiguous; please pass --kind geosite or --kind geoip"@)
            &&& site_ok && !ip_ok ==> r == Ok::<ParsedDat, String>(ParsedDat::GeoSite(geosite->Ok_0))
            &&& !site_ok && ip_ok ==> r == Ok::<ParsedDat, String>(ParsedDat::GeoIp(geoip->Ok_0))
            &&& !site_ok && !ip_ok ==> (r matches Err(m) && m@ == "failed to identify dat kind from file contents"@)
        }),
{
    let site = match check_geosite_dat(geosite) {
        Ok(l) => Some(ParsedDat::GeoSite(l)),
        Err(_) => None,
    };
    let ip = match check_geoip_dat(geoip) {
        Ok(l) => Some(ParsedDat::GeoIp(l)),
        Err(_) => None,
    };
    match (site, ip) {
        (Some(_), Some(_)) => Err(
            string_from_chars(chars_of("dat kind is ambiguous; please pass --kind geosite or --kind geoip").as_slice()),
        ),
        (Some(parsed), None) => Ok(parsed),
        (None, Some(parsed)) => Ok(parsed),
        (None, None) => Err(string_from_chars(chars_of("failed to identify dat kind from file contents").as_slice())),
    }
}

/// Lowercase hexadecimal digit of `d` (`0..=15`).
pub open spec fn spec_hex_digit(d: nat) -> char {
    if d < 10 {
        ((48 + d) as u32) as char
    } else {
        ((87 + d) as u32) as char
    }
}

/// Lowercase hexadecimal form of `v` without leading zeros.
pub open spec fn spec_hex(v: nat) -> Seq<char>
    decreases v,
{
    if v < 16 {
        seq![spec_hex_digit(v)]
    } else {
        spec_hex(v / 16).push(spec_hex_digit(v % 16))
    }
}

fn push_hex(out: &mut Vec<char>, v: u16)
    ensures
        final(out)@ == old(out)@ + spec_hex(v as nat),
    decreases v,
{
    let ghost o = old(out)@;
    if v >= 16 {
        push_hex(out, v / 16);
    }
    let d = (v % 16) as u8;
    if d < 10 {
        out.push((48u8 + d) as char);
    } else {
        out.push((87u8 + d) as char);
    }
    proof {
        assert(out@ =~= o + spec_hex(v as nat));
    }
}

/// The eight 16-bit groups of an IPv6 address.
pub open spec fn spec_segments(oct: Seq<u8>) -> Seq<u16> {
    Seq::new(8, |i: int| (oct[2 * i] as int * 256 + oct[2 * i + 1] as int) as u16)
}

/// Groups in hexadecimal separated by colons.
pub open spec fn spec_join_hex(ss: Seq<u16>) -> Seq<char>
    decreases ss.len(),
{
    if ss.len() == 0 {
        Seq::empty()
    } else if ss.len() == 1 {
        spec_hex(ss[0] as nat)
    } else {
        spec_join_hex(ss.drop_last()) + seq![':'] + spec_hex(ss.last() as nat)
    }
}

/// Scan of the first `k` groups for runs of zero groups: the current run
/// (start, length) and the first longest run seen (start, length).
pub open spec fn spec_zero_runs(ss: Seq<u16>, k: int) -> (int, int, int, int)
    decreases k,
{
    if k <= 0 {
        (0, 0, 0, 0)
    } else {
        let (cs, cl, bs, bl) = spec_zero_runs(ss, k - 1);
        if ss[k - 1] == 0 {
            let cs2 = if cl == 0 { k - 1 } else { cs };
            if cl + 1 > bl {
                (cs2, cl + 1, cs2, cl + 1)
            } else {
                (cs2, cl + 1, bs, bl)
            }
        } else {
            (0, 0, bs, bl)
        }
    }
}

/// Groups `a` up to `b` are all zero.
pub open spec fn zero_groups(ss: Seq<u16>, a: int, b: int) -> bool {
    forall|i: int| a <= i < b ==> ss[i] == 0
}

/// Groups `bs .. bs + bl` are the first longest run of zero groups among the
/// first `k`: they are zero, no run of zero groups among the first `k` is
/// longer, and none of the same length starts earlier (RFC 5952 section
/// 4.2.3).
pub open spec fn first_longest_zero_run(ss: Seq<u16>, k: int, bs: int, bl: int) -> bool {
    &&& 0 <= bs
    &&& 0 <= bl
    &&& bs + bl <= k
    &&& zero_groups(ss, bs, bs + bl)
    &&& forall|j: int| 0 <= j && j + bl + 1 <= k ==> !#[trigger] zero_groups(ss, j, j + bl + 1)
    &&& forall|j: int| 0 <= j < bs ==> !#[trigger] zero_groups(ss, j, j + bl)
}

proof fn lemma_zero_groups_shorter(ss: Seq<u16>, j: int, l: int, m: int)
    requires
        zero_groups(ss, j, j + l),
        0 <= m <= l,
    ensures
        zero_groups(ss, j, j + m),
{
}

/// The scan keeps the first longest run of zero groups seen so far, and the
/// run of zero groups that ends at the scan position.
proof fn lemma_zero_runs_scan(ss: Seq<u16>, k: int)
    requires
        0 <= k <= ss.len(),
    ensures
        ({
            let (cs, cl, bs, bl) = spec_zero_runs(ss, k);
            &&& first_longest_zero_run(ss, k, bs, bl)
            &&& 0 <= cl <= k
            &&& cl <= bl
            &&& zero_groups(ss, k - cl, k)
            &&& (k - cl == 0 || ss[k - cl - 1] != 0)
            &&& (cl > 0 ==> cs == k - cl)
        }),
    decreases k,
{
    if k > 0 {
        lemma_zero_runs_scan(ss, k - 1);
        let (cs, cl, bs, bl) = spec_zero_runs(ss, k - 1);
        let (cs2, cl2, bs2, bl2) = spec_zero_runs(ss, k);
        if ss[k - 1] == 0 {
            assert(zero_groups(ss, k - cl2, k));
            if bl < cl + 1 {
                assert(bl2 == cl + 1 && bs2 == k - 1 - cl);
                assert forall|j: int| 0 <= j && j + bl2 + 1 <= k implies !#[trigger] zero_groups(ss, j, j + bl2 + 1) by {
                    if zero_groups(ss, j, j + bl2 + 1) {
                        if j + bl2 + 1 <= k - 1 {
                            lemma_zero_groups_shorter(ss, j, bl2 + 1, bl + 1);
                            assert(!zero_groups(ss, j, j + bl + 1));
                        } else {
                            assert(j == k - cl - 2);
                            assert(ss[j] == 0);
                            assert(k - 1 - cl != 0);
                        }
                    }
                }
                assert forall|j: int| 0 <= j < bs2 implies !#[trigger] zero_groups(ss, j, j + bl2) by {
                    if zero_groups(ss, j, j + bl2) {
                        lemma_zero_groups_shorter(ss, j, bl2, bl + 1);
                        assert(j + bl + 1 <= k - 1);
                        assert(!zero_groups(ss, j, j + bl + 1));
                    }
                }
            } else {
                assert forall|j: int| 0 <= j && j + bl2 + 1 <= k implies !#[trigger] zero_groups(ss, j, j + bl2 + 1) by {
                    if zero_groups(ss, j, j + bl2 + 1) && j + bl2 + 1 == k {
                        assert(ss[k - cl - 2] == 0);
                    }
                }
            }
        } else {
            assert forall|j: int| 0 <= j && j + bl2 + 1 <= k implies !#[trigger] zero_groups(ss, j, j + bl2 + 1) by {
                if zero_groups(ss, j, j + bl2 + 1) && j + bl2 + 1 == k {
                    assert(ss[k - 1] == 0);
                }
            }
        }
    }
}

/// There is only one first longest run of zero groups.
proof fn lemma_first_longest_zero_run_unique(ss: Seq<u16>, k: int, bs: int, bl: int, bs2: int, bl2: int)
    requires
        first_longest_zero_run(ss, k, bs, bl),
        first_longest_zero_run(ss, k, bs2, bl2),
    ensures
        bs == bs2 && bl == bl2,
{
    if bl < bl2 {
        lemma_zero_groups_shorter(ss, bs2, bl2, bl + 1);
        assert(!zero_groups(ss, bs2, bs2 + bl + 1));
    }
    if bl2 < bl {
        lemma_zero_groups_shorter(ss, bs, bl, bl2 + 1);
        assert(!zero_groups(ss, bs, bs + bl2 + 1));
    }
    if bs < bs2 {
        assert(!zero_groups(ss, bs, bs + bl2));
    }
    if bs2 < bs {
        assert(!zero_groups(ss, bs2, bs2 + bl));
    }
}

/// The text of an IPv6 address that is not IPv4-mapped writes its groups in
/// hexadecimal and, where two or more groups in a row are zero, replaces the
/// first longest such run by `::` (RFC 5952 section 4.2, as std's `Ipv6Addr`
/// display does): `2001:db8:0:0:1:0:0:1` is written `2001:db8::1:0:0:1`.
pub proof fn lemma_ipv6_text_compresses_first_longest_zero_run(oct: Seq<u8>)
    requires
        oct.len() == 16,
        !(spec_segments(oct)[0] == 0 && spec_segments(oct)[1] == 0 && spec_segments(oct)[2] == 0
            && spec_segments(oct)[3] == 0 && spec_segments(oct)[4] == 0 && spec_segments(oct)[5] == 0xffff),
    ensures
        exists|bs: int, bl: int| #[trigger] first_longest_zero_run(spec_segments(oct), 8, bs, bl),
        forall|bs: int, bl: int| #[trigger] first_longest_zero_run(spec_segments(oct), 8, bs, bl) ==> spec_ipv6_text(oct) == if bl > 1 {
            spec_join_hex(spec_segments(oct).subrange(0, bs)) + "::"@ + spec_join_hex(spec_segments(oct).subrange(bs + bl, 8))
        } else {
            spec_join_hex(spec_segments(oct))
        },
{
    let ss = spec_segments(oct);
    lemma_zero_runs_scan(ss, 8);
    let (cs, cl, bs0, bl0) = spec_zero_runs(ss, 8);
    assert(first_longest_zero_run(ss, 8, bs0, bl0));
    assert forall|bs: int, bl: int| #[trigger] first_longest_zero_run(ss, 8, bs, bl) implies spec_ipv6_text(oct) == if bl > 1 {
        spec_join_hex(ss.subrange(0, bs)) + "::"@ + spec_join_hex(ss.subrange(bs + bl, 8))
    } else {
        spec_join_hex(ss)
    } by {
        lemma_first_longest_zero_run_unique(ss, 8, bs, bl, bs0, bl0);
    }
}

/// Dotted-quad form of four octets.
pub open spec fn spec_dotted(o: Seq<u8>) -> Seq<char> {
    spec_decimal(o[0] as nat) + seq!['.'] + spec_decimal(o[1] as nat) + seq!['.'] + spec_decimal(o[2] as nat)
        + seq!['.'] + spec_decimal(o[3] as nat)
}

/// Text form of an IPv6 address (RFC 5952): an IPv4-mapped address as
/// `::ffff:` and a dotted quad; otherwise the groups in lowercase hex with
/// the first longest run of two or more zero groups written as `::`.
pub open spec fn spec_ipv6_text(oct: Seq<u8>) -> Seq<char> {
    let ss = spec_segments(oct);
    if ss[0] == 0 && ss[1] == 0 && ss[2] == 0 && ss[3] == 0 && ss[4] == 0 && ss[5] == 0xffff {
        "::ffff:"@ + spec_dotted(oct.subrange(12, 16))
    } else {
        let (_, _, bs, bl) = spec_zero_runs(ss, 8);
        if bl > 1 {
            spec_join_hex(ss.subrange(0, bs)) + "::"@ + spec_join_hex(ss.subrange(bs + bl, 8))
        } else {
            spec_join_hex(ss)
        }
    }
}

/// Append `a.b.c.d` for the first four octets.
pub(crate) fn push_dotted(out: &mut Vec<char>, o: &[u8])
    requires
        o@.len() >= 4,
    ensures
        final(out)@ == old(out)@ + spec_dotted(o@),
{
    let ghost b = old(out)@;
    push_decimal(out, o[0] as u64);
    out.push('.');
    push_decimal(out, o[1] as u64);
    out.push('.');
    push_decimal(out, o[2] as u64);
    out.push('.');
    push_decimal(out, o[3] as u64);
    proof {
        assert(out@ =~= b + spec_dotted(o@));
    }
}

fn push_join_hex(out: &mut Vec<char>, ss: &[u16], from: usize, to: usize)
    requires
        from <= to <= ss@.len(),
    ensures
        final(out)@ == old(out)@ + spec_join_hex(ss@.subrange(from as int, to as int)),
{
    let ghost b = old(out)@;
    let mut i = from;
    proof {
        assert(ss@.subrange(from as int, from as int) =~= Seq::<u16>::empty());
    }
    while i < to
        invariant
            from <= i <= to <= ss@.len(),
            out@ == b + spec_join_hex(ss@.subrange(from as int, i as int)),
        decreases to - i,
    {
        let ghost o = out@;
        if i > from {
            out.push(':');
        }
        push_hex(out, ss[i]);
        proof {
            let sub = ss@.subrange(from as int, i + 1);
            assert(sub.drop_last() =~= ss@.subrange(from as int, i as int));
            if i == from {
                assert(out@ =~= b + spec_join_hex(sub));
            } else {
                assert(out@ =~= b + spec_join_hex(sub));
            }
        }
        i = i + 1;
    }
}

/// Append the RFC 5952 text form of a sixteen-octet IPv6 address.
pub fn push_ipv6_text(out: &mut Vec<char>, oct: &[u8])
    requires
        oct@.len() == 16,
    ensures
        final(out)@ == old(out)@ + spec_ipv6_text(oct@),
{
    let ghost b = old(out)@;
    let mut segs: Vec<u16> = Vec::new();
    let mut i: usize = 0;
    while i < 8
        invariant
            oct@.len() == 16,
            i <= 8,
            segs@ == spec_segments(oct@).take(i as int),
        decreases 8 - i,
    {
        segs.push((oct[2 * i] as u16) * 256 + oct[2 * i + 1] as u16);
        proof {
            assert(segs@ =~= spec_segments(oct@).take(i + 1));
        }
        i = i + 1;
    }
    proof {
        assert(segs@ =~= spec_segments(oct@));
    }
    if segs[0] == 0 && segs[1] == 0 && segs[2] == 0 && segs[3] == 0 && segs[4] == 0 && segs[5] == 0xffff {
        push_str_chars(out, "::ffff:");
        push_dotted(out, vstd::slice::slice_subrange(oct, 12, 16));
        return;
    }
    let mut cs: usize = 0;
    let mut cl: usize = 0;
    let mut bs: usize = 0;
    let mut bl: usize = 0;
    let mut k: usize = 0;
    while k < 8
        invariant
            k <= 8,
            segs@ == spec_segments(oct@),
            spec_zero_runs(segs@, k as int) == (cs as int, cl as int, bs as int, bl as int),
            cl <= k,
            bl <= k,
            bs + bl <= k,
            cs + cl == k || cl == 0,
        decreases 8 - k,
    {
        if segs[k] == 0 {
            if cl == 0 {
                cs = k;
            }
            cl = cl + 1;
            if cl > bl {
                bs = cs;
                bl = cl;
            }
        } else {
            cs = 0;
            cl = 0;
        }
        k = k + 1;
    }
    if bl > 1 {
        push_join_hex(out, segs.as_slice(), 0, bs);
        push_str_chars(out, "::");
        push_join_hex(out, segs.as_slice(), bs + bl, 8);
    } else {
        push_join_hex(out, segs.as_slice(), 0, 8);
        proof {
            assert(segs@.subrange(0, 8) =~= segs@);
        }
    }
}

/// A CIDR block as rule text: `a.b.c.d/p` for IPv4, the RFC 5952 form and
/// `/p` for IPv6; `None` for any other address length.
pub fn cidr_to_rule(cidr: &Cidr) -> (r: Option<String>)
    ensures
        cidr.ip@.len() == 4 ==> (r matches Some(s) && s@ == spec_dotted(cidr.ip@) + seq!['/'] + spec_decimal(
            cidr.prefix as nat,
        )),
        cidr.ip@.len() == 16 ==> (r matches Some(s) && s@ == spec_ipv6_text(cidr.ip@) + seq!['/']
            + spec_decimal(cidr.prefix as nat)),
        cidr.ip@.len() != 4 && cidr.ip@.len() != 16 ==> r is None,
{
    let n = cidr.ip.len();
    if n != 4 && n != 16 {
        return None;
    }
    let mut out: Vec<char> = Vec::new();
    if n == 4 {
        push_dotted(&mut out, cidr.ip.as_slice());
    } else {
        push_ipv6_text(&mut out, cidr.ip.as_slice());
    }
    out.push('/');
    push_decimal(&mut out, cidr.prefix as u64);
    Some(string_from_chars(out.as_slice()))
}

} // verus!
