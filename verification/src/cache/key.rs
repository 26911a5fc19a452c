//! Cache key composition: the normalized query name, type, class, the DO and
//! CD bits, and optionally the client subnet scope.

use vstd::prelude::*;
use crate::name::{spec_display, spec_lower_wire};
use crate::question::Question;
use crate::rdata::basic::{ClientSubnet, Edns, EdnsCode, EdnsOption, IpAddr, spec_find_option};
use crate::text::{
    ascii_lowercase, chars_of, spec_ascii_lowercase, spec_trim, string_from_chars, trim_chars,
};
use crate::types::{DNSClass, RecordType};
use crate::wire::rdata::basic::{spec_ip_view, spec_masked_prefix};

verus! {

/// Client subnet part of a cache key: the family, clamped prefixes and the
/// network truncated to the source prefix.
#[derive(Debug, Clone, PartialEq, Eq, Hash)]
pub struct EcsScopeDigest {
    pub family: u16,
    pub source_prefix: u8,
    pub scope_prefix: u8,
    pub network_len: u8,
    pub network: [u8; 16],
}

/// Key under which a response is cached.
#[derive(Debug, Clone, PartialEq, Eq, Hash)]
pub struct CacheKey {
    pub domain: String,
    pub record_type: RecordType,
    pub dns_class: DNSClass,
    pub do_bit: bool,
    pub cd_bit: bool,
    pub ecs_scope: Option<EcsScopeDigest>,
}

/// `raw` trimmed, ASCII-lowercased and without one final dot.
pub open spec fn spec_normalize_domain_key(raw: Seq<char>) -> Seq<char> {
    let t = spec_ascii_lowercase(spec_trim(raw));
    if t.len() > 0 && t.last() == '.' {
        t.drop_last()
    } else {
        t
    }
}

/// Normalize a domain for use in a cache key.
pub fn normalize_domain_key(raw: &str) -> (s: String)
    ensures
        s@ == spec_normalize_domain_key(raw@),
{
    let cs = chars_of(raw);
    let t = trim_chars(cs.as_slice());
    let mut l = ascii_lowercase(t.as_slice());
    if l.len() > 0 && l[l.len() - 1] == '.' {
        l.pop();
    }
    string_from_chars(l.as_slice())
}

/// The prefix actually kept: `prefix` capped at the bit width of an
/// `n`-octet source, that width being counted in eight bits.
pub open spec fn spec_kept_prefix(n: nat, prefix: u8) -> u8 {
    let max_bits = ((n * 8) % 256) as u8;
    if prefix <= max_bits {
        prefix
    } else {
        max_bits
    }
}

/// Copy the first `prefix` bits of `src` into `out`, clearing the rest of
/// the last octet written; returns the number of octets written.
pub fn write_truncated_prefix(src: &[u8], prefix: u8, out: &mut [u8; 16]) -> (n: u8)
    requires
        spec_kept_prefix(src@.len(), prefix) <= 128,
    ensures
        n == (spec_kept_prefix(src@.len(), prefix) + 7) / 8,
        final(out)@ == spec_masked_prefix(src@, n as int, spec_kept_prefix(src@.len(), prefix))
            + old(out)@.subrange(n as int, 16),
{
    let ghost o = old(out)@;
    let max_bits = ((src.len() % 32) * 8) as u8;
    proof {
        assert(((src@.len() * 8) % 256) == (src@.len() % 32) * 8) by (nonlinear_arith);
    }
    let prefix = if prefix <= max_bits {
        prefix
    } else {
        max_bits
    };
    if prefix == 0 {
        proof {
            assert(out@ =~= spec_masked_prefix(src@, 0, prefix) + o.subrange(0, 16));
        }
        return 0;
    }
    let full_bytes = (prefix / 8) as usize;
    let remaining_bits = prefix % 8;
    let mut i: usize = 0;
    while i < full_bytes
        invariant
            full_bytes <= 16,
            full_bytes <= src@.len(),
            i <= full_bytes,
            forall|k: int| 0 <= k < i ==> out@[k] == src@[k],
            forall|k: int| i <= k < 16 ==> out@[k] == o[k],
        decreases full_bytes - i,
    {
        out.set(i, src[i]);
        i = i + 1;
    }
    if remaining_bits == 0 {
        proof {
            assert(out@ =~= spec_masked_prefix(src@, full_bytes as int, prefix) + o.subrange(
                full_bytes as int,
                16,
            ));
        }
        full_bytes as u8
    } else {
        let mask = 0xFFu8 << (8 - remaining_bits);
        out.set(full_bytes, src[full_bytes] & mask);
        proof {
            assert(out@ =~= spec_masked_prefix(src@, full_bytes + 1, prefix) + o.subrange(
                full_bytes + 1,
                16,
            ));
        }
        (full_bytes as u8) + 1
    }
}

/// Smaller of two prefixes.
pub open spec fn spec_min_prefix(a: u8, b: u8) -> u8 {
    if a <= b {
        a
    } else {
        b
    }
}

/// `d` describes `subnet`: family 1 or 2, both prefixes clamped to the
/// family width, and the address truncated to the clamped source prefix
/// followed by zeros.
pub open spec fn spec_digest_of(d: EcsScopeDigest, subnet: ClientSubnet) -> bool {
    let (v6, oct) = spec_ip_view(subnet.addr);
    let maxp: u8 = if v6 { 128 } else { 32 };
    let sp = spec_min_prefix(subnet.source_prefix, maxp);
    let rl = (sp + 7) / 8;
    &&& d.family == if v6 { 2u16 } else { 1u16 }
    &&& d.source_prefix == sp
    &&& d.scope_prefix == spec_min_prefix(subnet.scope_prefix, maxp)
    &&& d.network_len == rl
    &&& d.network@ == spec_masked_prefix(oct, rl as int, sp) + Seq::new((16 - rl) as nat, |i: int| 0u8)
}

/// Cache-key digest of a client subnet option.
pub fn build_ecs_scope_digest(subnet: &ClientSubnet) -> (d: EcsScopeDigest)
    ensures
        spec_digest_of(d, *subnet),
{
    let mut network = [0u8; 16];
    let ghost zeros = network@;
    proof {
        assert(zeros =~= Seq::new(16, |i: int| 0u8));
    }
    let (family, max_prefix, network_len): (u16, u8, u8) = match &subnet.addr {
        IpAddr::V4(v4) => {
            let p = if subnet.source_prefix <= 32 {
                subnet.source_prefix
            } else {
                32
            };
            let len = write_truncated_prefix(v4.as_slice(), p, &mut network);
            (1, 32, len)
        },
        IpAddr::V6(v6) => {
            let p = if subnet.source_prefix <= 128 {
                subnet.source_prefix
            } else {
                128
            };
            let len = write_truncated_prefix(v6.as_slice(), p, &mut network);
            (2, 128, len)
        },
    };
    let source_prefix = if subnet.source_prefix <= max_prefix {
        subnet.source_prefix
    } else {
        max_prefix
    };
    let scope_prefix = if subnet.scope_prefix <= max_prefix {
        subnet.scope_prefix
    } else {
        max_prefix
    };
    let d = EcsScopeDigest { family, source_prefix, scope_prefix, network_len, network };
    proof {
        let rl = network_len as int;
        assert(zeros.subrange(rl, 16) =~= Seq::new((16 - rl) as nat, |i: int| 0u8));
    }
    d
}

/// Digest of the first option filed under the client-subnet code, when it
/// is a structured client subnet.
pub fn extract_any_ecs_scope(edns: Option<&Edns>) -> (r: Option<EcsScopeDigest>)
    ensures
        match edns {
            None => r is None,
            Some(e) => match spec_find_option(e.options@, EdnsCode::Subnet) {
                Some(i) => match e.options@[i] {
                    EdnsOption::Subnet(s) => r matches Some(d) && spec_digest_of(d, s),
                    _ => r is None,
                },
                None => r is None,
            },
        },
{
    match edns {
        None => None,
        Some(e) => match e.option(EdnsCode::Subnet) {
            Some(EdnsOption::Subnet(subnet)) => Some(build_ecs_scope_digest(subnet)),
            _ => None,
        },
    }
}

/// Compose the cache key of a request: `None` when it has no question.
/// The domain is the question name lowercased, without its final dot.
pub fn build_cache_key(question: Option<&Question>, edns: Option<&Edns>, checking_disabled: bool, ecs_in_key: bool) -> (r:
    Option<CacheKey>)
    ensures
        match question {
            None => r is None,
            Some(q) => r matches Some(k) && k.domain@ == spec_display(spec_lower_wire(q@.0))
                && k.record_type == q@.1 && k.dns_class == q@.2 && k.do_bit == (match edns {
                Some(e) => e.flags.dnssec_ok,
                None => false,
            }) && k.cd_bit == checking_disabled && (!ecs_in_key ==> k.ecs_scope is None) && (ecs_in_key
                ==> match edns {
                None => k.ecs_scope is None,
                Some(e) => match spec_find_option(e.options@, EdnsCode::Subnet) {
                    Some(i) => match e.options@[i] {
                        EdnsOption::Subnet(s) => k.ecs_scope matches Some(d) && spec_digest_of(d, s),
                        _ => k.ecs_scope is None,
                    },
                    None => k.ecs_scope is None,
                },
            }),
        },
{
    let q = match question {
        Some(q) => q,
        None => return None,
    };
    let domain = q.name().normalized().to_display_string();
    let do_bit = match edns {
        Some(e) => e.flags.dnssec_ok,
        None => false,
    };
    let ecs_scope = if ecs_in_key {
        extract_any_ecs_scope(edns)
    } else {
        None
    };
    Some(
        CacheKey {
            domain,
            record_type: q.qtype(),
            dns_class: q.qclass(),
            do_bit,
            cd_bit: checking_disabled,
            ecs_scope,
        },
    )
}

} // verus!
