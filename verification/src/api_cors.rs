//! CORS decisions for the management API: which origin a response allows,
//! and the configuration inferred from the listen address when none is
//! given.  Only the control-plane API uses them, never the DNS path.

use vstd::prelude::*;
use crate::init_plan::{spec_str_lt, spec_tags, str_lt};
use crate::text::{ascii_lowercase, chars_of, spec_ascii_lowercase, string_from_chars};

verus! {

/// CORS settings of the management API.
#[derive(Debug, Clone)]
pub struct ApiCorsConfig {
    pub allowed_origins: Vec<String>,
    pub allow_any_origin: bool,
    pub allowed_origin_hosts: Vec<String>,
}

/// `c` is a byte that a header value may hold as `HeaderValue::from_str`
/// checks it: tab, or at least a space and not DEL; characters beyond
/// ASCII are written as bytes of 128 and above, which pass.
pub open spec fn spec_header_char_ok(c: char) -> bool {
    c == '\t' || (' ' <= c && c != '\x7f')
}

/// `http::HeaderValue::from_str` succeeds on `s`.
#[verifier::external_body]
fn header_value_ok(s: &str) -> (b: bool)
    ensures
        b == (forall|i: int| 0 <= i < s@.len() ==> spec_header_char_ok(#[trigger] s@[i])),
{
    http::HeaderValue::from_str(s).is_ok()
}

/// The host of `origin` read as a URI, or `None` when it does not parse or
/// names no host.
pub uninterp spec fn uri_host_of(origin: Seq<char>) -> Option<Seq<char>>;

/// `origin.parse::<http::Uri>()` followed by `Uri::host`: the host, which
/// depends on `origin` alone; nothing more is claimed of it.
#[verifier::external_body]
fn uri_host(origin: &str) -> (r: Option<String>)
    ensures
        match uri_host_of(origin@) {
            Some(h) => r matches Some(s) && s@ == h,
            None => r is None,
        },
{
    match origin.parse::<http::Uri>() {
        Ok(uri) => uri.host().map(|h| h.to_string()),
        Err(_) => None,
    }
}

/// `s` without leading and trailing brackets.
pub open spec fn spec_trim_brackets(s: Seq<char>) -> Seq<char>
    decreases s.len(),
{
    if s.len() > 0 && (s[0] == '[' || s[0] == ']') {
        spec_trim_brackets(s.drop_first())
    } else if s.len() > 0 && (s.last() == '[' || s.last() == ']') {
        spec_trim_brackets(s.drop_last())
    } else {
        s
    }
}

/// An origin host as compared against the configured hosts: brackets of an
/// IPv6 literal removed, ASCII lowercased.
pub open spec fn spec_normalize_origin_host(host: Seq<char>) -> Seq<char> {
    spec_ascii_lowercase(spec_trim_brackets(host))
}

/// Normalize an origin host for comparison.
pub fn normalize_origin_host(host: &str) -> (r: String)
    ensures
        r@ == spec_normalize_origin_host(host@),
{
    let t = chars_of(host);
    let mut a: usize = 0;
    let mut b: usize = t.len();
    proof {
        assert(t@.subrange(0, t@.len() as int) =~= t@);
    }
    while a < b && (t[a] == '[' || t[a] == ']')
        invariant
            a <= b <= t@.len(),
            b == t@.len(),
            spec_trim_brackets(host@) == spec_trim_brackets(t@.subrange(a as int, b as int)),
            t@ == host@,
        decreases b - a,
    {
        proof {
            assert(t@.subrange(a as int, b as int).drop_first() =~= t@.subrange(a + 1, b as int));
        }
        a = a + 1;
    }
    while a < b && (t[b - 1] == '[' || t[b - 1] == ']')
        invariant
            a <= b <= t@.len(),
            spec_trim_brackets(host@) == spec_trim_brackets(t@.subrange(a as int, b as int)),
            a < b ==> t@[a as int] != '[' && t@[a as int] != ']',
        decreases b - a,
    {
        proof {
            let s = t@.subrange(a as int, b as int);
            assert(s.drop_last() =~= t@.subrange(a as int, b - 1));
            assert(s[0] == t@[a as int]);
        }
        b = b - 1;
    }
    proof {
        let s = t@.subrange(a as int, b as int);
        if a < b {
            assert(s[0] == t@[a as int]);
            assert(s.last() == t@[b - 1]);
        }
    }
    let inner = vstd::slice::slice_subrange(t.as_slice(), a, b);
    let lower = ascii_lowercase(inner);
    string_from_chars(lower.as_slice())
}

/// `v` holds the string `s`.
fn contains_string(v: &Vec<String>, s: &str) -> (r: bool)
    ensures
        r == spec_tags(v@).contains(s@),
{
    let mut i: usize = 0;
    let target = chars_of(s);
    while i < v.len()
        invariant
            i <= v@.len(),
            target@ == s@,
            forall|j: int| 0 <= j < i ==> v@[j]@ != s@,
        decreases v.len() - i,
    {
        let c = chars_of(v[i].as_str());
        if crate::v2ray_dat::chars_eq(c.as_slice(), target.as_slice()) {
            proof {
                assert(spec_tags(v@)[i as int] == s@);
            }
            return true;
        }
        i = i + 1;
    }
    proof {
        if spec_tags(v@).contains(s@) {
            let k = choose|k: int| 0 <= k < spec_tags(v@).len() && spec_tags(v@)[k] == s@;
            assert(v@[k]@ == s@);
        }
    }
    false
}

/// The origin's host, normalized, is one of the allowed hosts.
pub open spec fn spec_origin_host_allowed(origin: Seq<char>, hosts: Seq<Seq<char>>) -> bool {
    hosts.len() > 0 && match uri_host_of(origin) {
        None => false,
        Some(h) => hosts.contains(spec_normalize_origin_host(h)),
    }
}

fn origin_host_allowed(origin: &str, allowed_hosts: &Vec<String>) -> (r: bool)
    ensures
        r == spec_origin_host_allowed(origin@, spec_tags(allowed_hosts@)),
{
    if allowed_hosts.len() == 0 {
        return false;
    }
    let host = match uri_host(origin) {
        Some(h) => h,
        None => return false,
    };
    let normalized = normalize_origin_host(host.as_str());
    contains_string(allowed_hosts, normalized.as_str())
}

/// The Allow-Origin value for `o`: `o` itself when it can be a header
/// value, `*` otherwise.
pub open spec fn spec_origin_value(o: Seq<char>) -> Seq<char> {
    if forall|i: int| 0 <= i < o.len() ==> spec_header_char_ok(#[trigger] o[i]) {
        o
    } else {
        "*"@
    }
}

/// The CORS answer to a request with `origin` (the Origin header when it
/// is present and visible ASCII): `None` when no CORS headers are added;
/// otherwise the Allow-Origin value and whether credentials are allowed.
/// Any origin is allowed with `*` and without credentials; otherwise the
/// request's origin when it is listed or its host is, or, without an
/// origin, the first listed one.
pub open spec fn spec_cors_allow(origin: Option<Seq<char>>, cors: ApiCorsConfig) -> Option<(Seq<char>, bool)> {
    let origins = spec_tags(cors.allowed_origins@);
    if cors.allow_any_origin || origins.contains("*"@) {
        Some(("*"@, false))
    } else {
        match origin {
            Some(o) => if origins.contains(o) || spec_origin_host_allowed(o, spec_tags(cors.allowed_origin_hosts@)) {
                Some((spec_origin_value(o), true))
            } else {
                None
            },
            None => if origins.len() > 0 {
                Some((spec_origin_value(origins[0]), true))
            } else {
                None
            },
        }
    }
}

/// Decide the CORS headers of a management API response.
pub fn cors_allow(origin: Option<&str>, cors: &ApiCorsConfig) -> (r: Option<(String, bool)>)
    ensures
        match spec_cors_allow(
            match origin {
                Some(o) => Some(o@),
                None => None,
            },
            *cors,
        ) {
            Some((v, c)) => r matches Some((s, b)) && s@ == v && b == c,
            None => r is None,
        },
{
    proof {
        reveal_strlit("*");
    }
    let wildcard = cors.allow_any_origin || contains_string(&cors.allowed_origins, "*");
    if wildcard {
        return Some((string_from_chars(chars_of("*").as_slice()), false));
    }
    let chosen: &str = match origin {
        Some(o) => {
            if contains_string(&cors.allowed_origins, o) || origin_host_allowed(o, &cors.allowed_origin_hosts) {
                o
            } else {
                return None;
            }
        },
        None => {
            if cors.allowed_origins.len() == 0 {
                return None;
            }
            proof {
                assert(spec_tags(cors.allowed_origins@)[0] == cors.allowed_origins@[0]@);
            }
            cors.allowed_origins[0].as_str()
        },
    };
    let value = if header_value_ok(chosen) {
        chosen
    } else {
        "*"
    };
    Some((string_from_chars(chars_of(value).as_slice()), true))
}

/// Allowed hosts inferred for a listen address: its normalized text, and
/// `localhost` for a loopback address, sorted without repeats.
pub open spec fn spec_inferred_hosts(ip_text: Seq<char>, loopback: bool) -> Seq<Seq<char>> {
    let n = spec_normalize_origin_host(ip_text);
    if !loopback || n == "localhost"@ {
        seq![n]
    } else if spec_str_lt(n, "localhost"@) {
        seq![n, "localhost"@]
    } else {
        seq!["localhost"@, n]
    }
}

/// CORS settings inferred from the listen address, given by its text and
/// whether it is unspecified or loopback: any origin on an unspecified
/// address, otherwise the hosts of [`spec_inferred_hosts`].
pub fn infer_cors_config(ip_text: &str, unspecified: bool, loopback: bool) -> (c: ApiCorsConfig)
    ensures
        c.allowed_origins@.len() == 0,
        c.allow_any_origin == unspecified,
        unspecified ==> c.allowed_origin_hosts@.len() == 0,
        !unspecified ==> spec_tags(c.allowed_origin_hosts@) == spec_inferred_hosts(ip_text@, loopback),
{
    if unspecified {
        return ApiCorsConfig { allowed_origins: Vec::new(), allow_any_origin: true, allowed_origin_hosts: Vec::new() };
    }
    proof {
        reveal_strlit("localhost");
    }
    let n = normalize_origin_host(ip_text);
    let local = string_from_chars(chars_of("localhost").as_slice());
    let mut hosts: Vec<String> = Vec::new();
    if !loopback || n == local {
        hosts.push(n);
    } else if str_lt(&n, &local) {
        hosts.push(n);
        hosts.push(local);
    } else {
        hosts.push(local);
        hosts.push(n);
    }
    proof {
        assert(spec_tags(hosts@) =~= spec_inferred_hosts(ip_text@, loopback));
    }
    ApiCorsConfig { allowed_origins: Vec::new(), allow_any_origin: false, allowed_origin_hosts: hosts }
}

/// The configured settings when they allow anything, else the settings
/// inferred from the listen address.
pub fn resolve_cors_config(configured: Option<ApiCorsConfig>, ip_text: &str, unspecified: bool, loopback: bool) -> (c:
    ApiCorsConfig)
    ensures
        match configured {
            Some(cfg) if cfg.allow_any_origin || cfg.allowed_origins@.len() > 0 || cfg.allowed_origin_hosts@.len() > 0 => c
                == cfg,
            _ => {
                &&& c.allowed_origins@.len() == 0
                &&& c.allow_any_origin == unspecified
                &&& unspecified ==> c.allowed_origin_hosts@.len() == 0
                &&& !unspecified ==> spec_tags(c.allowed_origin_hosts@) == spec_inferred_hosts(ip_text@, loopback)
            },
        },
{
    match configured {
        Some(cors) => {
            if cors.allow_any_origin || cors.allowed_origins.len() > 0 || cors.allowed_origin_hosts.len() > 0 {
                cors
            } else {
                infer_cors_config(ip_text, unspecified, loopback)
            }
        },
        None => infer_cors_config(ip_text, unspecified, loopback),
    }
}

} // verus!
