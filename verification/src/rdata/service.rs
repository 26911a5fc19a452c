//! Service-binding and locator RDATA payload types.

use vstd::prelude::*;
use crate::name::Name;
use crate::rdata::basic::spec_txt_chunks;

verus! {

/// Key exchanger payload (RFC 2230).
#[derive(Debug, Clone, PartialEq, Eq)]
pub struct KX {
    pub preference: u16,
    pub exchanger: Name,
}

impl KX {
    /// Construct a `KX` payload.
    pub fn new(preference: u16, exchanger: Name) -> (v: Self)
        ensures
            v.preference == preference,
            v.exchanger == exchanger,
    {
        KX { preference, exchanger }
    }

    pub fn preference(&self) -> (v: u16)
        ensures
            v == self.preference,
    {
        self.preference
    }

    pub fn exchanger(&self) -> (v: &Name)
        ensures
            *v == self.exchanger,
    {
        &self.exchanger
    }


}

/// IPsec keying payload (RFC 4025).  The gateway is kept in wire form.
#[derive(Debug, Clone, PartialEq, Eq)]
pub struct IPSECKEY {
    pub precedence: u8,
    pub gateway_type: u8,
    pub algorithm: u8,
    pub gateway: Vec<u8>,
    pub public_key: Vec<u8>,
}

impl IPSECKEY {
    /// Construct a `IPSECKEY` payload.
    pub fn new(precedence: u8, gateway_type: u8, algorithm: u8, gateway: Vec<u8>, public_key: Vec<u8>) -> (v: Self)
        ensures
            v.precedence == precedence,
            v.gateway_type == gateway_type,
            v.algorithm == algorithm,
            v.gateway == gateway,
            v.public_key == public_key,
    {
        IPSECKEY { precedence, gateway_type, algorithm, gateway, public_key }
    }

    pub fn precedence(&self) -> (v: u8)
        ensures
            v == self.precedence,
    {
        self.precedence
    }

    pub fn gateway_type(&self) -> (v: u8)
        ensures
            v == self.gateway_type,
    {
        self.gateway_type
    }

    pub fn algorithm(&self) -> (v: u8)
        ensures
            v == self.algorithm,
    {
        self.algorithm
    }

    pub fn gateway(&self) -> (v: &[u8])
        ensures
            v@ == self.gateway@,
    {
        self.gateway.as_slice()
    }

    pub fn public_key(&self) -> (v: &[u8])
        ensures
            v@ == self.public_key@,
    {
        self.public_key.as_slice()
    }


}

/// AMT relay payload (RFC 8777).  The gateway is kept in wire form.
#[derive(Debug, Clone, PartialEq, Eq)]
pub struct AMTRELAY {
    pub precedence: u8,
    pub gateway_type: u8,
    pub gateway: Vec<u8>,
}

impl AMTRELAY {
    /// Construct a `AMTRELAY` payload.
    pub fn new(precedence: u8, gateway_type: u8, gateway: Vec<u8>) -> (v: Self)
        ensures
            v.precedence == precedence,
            v.gateway_type == gateway_type,
            v.gateway == gateway,
    {
        AMTRELAY { precedence, gateway_type, gateway }
    }

    pub fn precedence(&self) -> (v: u8)
        ensures
            v == self.precedence,
    {
        self.precedence
    }

    pub fn gateway_type(&self) -> (v: u8)
        ensures
            v == self.gateway_type,
    {
        self.gateway_type
    }

    pub fn gateway(&self) -> (v: &[u8])
        ensures
            v@ == self.gateway@,
    {
        self.gateway.as_slice()
    }


}

/// URI payload (RFC 7553).
#[derive(Debug, Clone, PartialEq, Eq)]
pub struct URI {
    pub priority: u16,
    pub weight: u16,
    pub target: Vec<u8>,
}

impl URI {
    /// Construct a `URI` payload.
    pub fn new(priority: u16, weight: u16, target: Vec<u8>) -> (v: Self)
        ensures
            v.priority == priority,
            v.weight == weight,
            v.target == target,
    {
        URI { priority, weight, target }
    }

    pub fn priority(&self) -> (v: u16)
        ensures
            v == self.priority,
    {
        self.priority
    }

    pub fn weight(&self) -> (v: u16)
        ensures
            v == self.weight,
    {
        self.weight
    }

    pub fn target(&self) -> (v: &[u8])
        ensures
            v@ == self.target@,
    {
        self.target.as_slice()
    }


}

/// Node identifier payload (RFC 6742).
#[derive(Debug, Clone, PartialEq, Eq)]
pub struct NID {
    pub preference: u16,
    pub node_id: u64,
}

impl NID {
    /// Construct a `NID` payload.
    pub fn new(preference: u16, node_id: u64) -> (v: Self)
        ensures
            v.preference == preference,
            v.node_id == node_id,
    {
        NID { preference, node_id }
    }

    pub fn preference(&self) -> (v: u16)
        ensures
            v == self.preference,
    {
        self.preference
    }

    pub fn node_id(&self) -> (v: u64)
        ensures
            v == self.node_id,
    {
        self.node_id
    }


}

/// 32-bit locator payload (RFC 6742).
#[derive(Debug, Clone, PartialEq, Eq)]
pub struct L32 {
    pub preference: u16,
    pub locator: [u8; 4],
}

impl L32 {
    /// Construct a `L32` payload.
    pub fn new(preference: u16, locator: [u8; 4]) -> (v: Self)
        ensures
            v.preference == preference,
            v.locator == locator,
    {
        L32 { preference, locator }
    }

    pub fn preference(&self) -> (v: u16)
        ensures
            v == self.preference,
    {
        self.preference
    }

    pub fn locator(&self) -> (v: [u8; 4])
        ensures
            v == self.locator,
    {
        self.locator
    }


}

/// 64-bit locator payload (RFC 6742).
#[derive(Debug, Clone, PartialEq, Eq)]
pub struct L64 {
    pub preference: u16,
    pub locator: u64,
}

impl L64 {
    /// Construct a `L64` payload.
    pub fn new(preference: u16, locator: u64) -> (v: Self)
        ensures
            v.preference == preference,
            v.locator == locator,
    {
        L64 { preference, locator }
    }

    pub fn preference(&self) -> (v: u16)
        ensures
            v == self.preference,
    {
        self.preference
    }

    pub fn locator(&self) -> (v: u64)
        ensures
            v == self.locator,
    {
        self.locator
    }


}

/// Locator pointer payload (RFC 6742).
#[derive(Debug, Clone, PartialEq, Eq)]
pub struct LP {
    pub preference: u16,
    pub fqdn: Name,
}

impl LP {
    /// Construct a `LP` payload.
    pub fn new(preference: u16, fqdn: Name) -> (v: Self)
        ensures
            v.preference == preference,
            v.fqdn == fqdn,
    {
        LP { preference, fqdn }
    }

    pub fn preference(&self) -> (v: u16)
        ensures
            v == self.preference,
    {
        self.preference
    }

    pub fn fqdn(&self) -> (v: &Name)
        ensures
            *v == self.fqdn,
    {
        &self.fqdn
    }


}

/// EUI-48 identifier payload, held in the low 48 bits.
#[derive(Debug, Clone, PartialEq, Eq)]
pub struct EUI48(pub u64);

/// EUI-64 identifier payload.
#[derive(Debug, Clone, PartialEq, Eq)]
pub struct EUI64(pub u64);

/// Typed reading of a SvcParam value (RFC 9460 section 7).
#[derive(Debug, Clone, PartialEq, Eq)]
pub enum SvcParamValue {
    /// Key 0: the keys that clients must understand.
    Mandatory(Vec<u16>),
    /// Key 1: ALPN protocol ids.
    Alpn(Vec<Vec<u8>>),
    /// Key 2: no-default-alpn (empty value).
    NoDefaultAlpn,
    /// Key 3: alternative port.
    Port(u16),
    /// Key 4: IPv4 address hints.
    Ipv4Hint(Vec<[u8; 4]>),
    /// Key 5: encrypted client hello configuration.
    Ech(Vec<u8>),
    /// Key 6: IPv6 address hints.
    Ipv6Hint(Vec<[u8; 16]>),
    /// Key 7: DoH URI template path.
    DohPath(Vec<u8>),
    /// Key 8: oblivious HTTP support (empty value).
    Ohttp,
    /// Any other key, or a value that does not follow its key's format.
    Unknown,
}

/// One SvcParam: key and value in wire form.
#[derive(Debug, Clone, PartialEq, Eq)]
pub struct SvcParam {
    pub key: u16,
    pub value: Vec<u8>,
}

/// The keys of a mandatory value: big-endian pairs.
pub open spec fn spec_u16_list(v: Seq<u8>) -> Seq<u16> {
    Seq::new(v.len() / 2, |i: int| (v[2 * i] as int * 256 + v[2 * i + 1] as int) as u16)
}

/// The value kind that a well-formed key/value pair reads as; `None` when
/// the value does not follow its key's format.
pub open spec fn spec_svc_value_kind(key: u16, v: Seq<u8>) -> Option<u16> {
    if key == 0 && v.len() > 0 && v.len() % 2 == 0 {
        Some(0)
    } else if key == 2 && v.len() == 0 {
        Some(2)
    } else if key == 3 && v.len() == 2 {
        Some(3)
    } else if key == 4 && v.len() > 0 && v.len() % 4 == 0 {
        Some(4)
    } else if key == 5 {
        Some(5)
    } else if key == 6 && v.len() > 0 && v.len() % 16 == 0 {
        Some(6)
    } else if key == 7 {
        Some(7)
    } else if key == 8 && v.len() == 0 {
        Some(8)
    } else {
        None
    }
}

/// A run of non-empty character-strings, each complete: the form of an
/// ALPN value.
pub open spec fn spec_alpn_run(w: Seq<u8>) -> bool
    decreases w.len(),
{
    if w.len() == 0 {
        true
    } else {
        w[0] > 0 && 1 + w[0] <= w.len() && spec_alpn_run(w.subrange(1 + w[0] as int, w.len() as int))
    }
}

/// The ALPN ids of a well-formed ALPN value.
pub open spec fn spec_alpn_ok(w: Seq<u8>) -> bool {
    w.len() > 0 && spec_alpn_run(w)
}

/// The `i`-th address of a run of `k`-octet addresses.
pub open spec fn spec_hint(v: Seq<u8>, k: int, i: int) -> Seq<u8> {
    v.subrange(k * i, k * i + k)
}

impl SvcParam {
    /// Construct a parameter from its key and wire value.
    pub fn new(key: u16, value: Vec<u8>) -> (v: Self)
        ensures
            v.key == key,
            v.value == value,
    {
        SvcParam { key, value }
    }

    pub fn key(&self) -> (v: u16)
        ensures
            v == self.key,
    {
        self.key
    }

    pub fn value(&self) -> (v: &[u8])
        ensures
            v@ == self.value@,
    {
        self.value.as_slice()
    }

    /// Typed reading of the value.  ALPN values are read as a run of
    /// non-empty character-strings; any malformed value reads as `Unknown`.
    pub fn parsed(&self) -> (r: SvcParamValue)
        ensures
            self.key == 0 && spec_svc_value_kind(0, self.value@) is Some ==> (r matches SvcParamValue::Mandatory(k) && k@ == spec_u16_list(self.value@)),
            self.key == 2 && self.value@.len() == 0 ==> r is NoDefaultAlpn,
            self.key == 3 && self.value@.len() == 2 ==> (r matches SvcParamValue::Port(p) && p == (self.value@[0] as int * 256 + self.value@[1] as int) as u16),
            self.key == 5 ==> (r matches SvcParamValue::Ech(e) && e@ == self.value@),
            self.key == 7 ==> (r matches SvcParamValue::DohPath(e) && e@ == self.value@),
            self.key == 8 && self.value@.len() == 0 ==> r is Ohttp,
            spec_svc_value_kind(self.key, self.value@) is None && self.key != 1 ==> r is Unknown,
            self.key == 1 && spec_alpn_ok(self.value@) ==> (r matches SvcParamValue::Alpn(ids)
                && ids@.len() == spec_txt_chunks(self.value@).len()
                && forall|i: int| 0 <= i < ids@.len() ==> #[trigger] ids@[i]@ == spec_txt_chunks(self.value@)[i]),
            self.key == 1 && !spec_alpn_ok(self.value@) ==> r is Unknown,
            self.key == 4 && spec_svc_value_kind(4, self.value@) is Some ==> (r matches SvcParamValue::Ipv4Hint(h)
                && h@.len() == self.value@.len() / 4
                && forall|i: int| 0 <= i < h@.len() ==> #[trigger] h@[i]@ == spec_hint(self.value@, 4, i)),
            self.key == 6 && spec_svc_value_kind(6, self.value@) is Some ==> (r matches SvcParamValue::Ipv6Hint(h)
                && h@.len() == self.value@.len() / 16
                && forall|i: int| 0 <= i < h@.len() ==> #[trigger] h@[i]@ == spec_hint(self.value@, 16, i)),
    {
        let v = &self.value;
        let n = v.len();
        if self.key == 0 && n > 0 && n % 2 == 0 {
            let mut keys: Vec<u16> = Vec::new();
            let mut i: usize = 0;
            while i < n / 2
                invariant
                    n == v@.len(),
                    n % 2 == 0,
                    i <= n / 2,
                    keys@ == spec_u16_list(v@).take(i as int),
                decreases n / 2 - i,
            {
                keys.push((v[2 * i] as u16) * 256 + v[2 * i + 1] as u16);
                proof {
                    assert(spec_u16_list(v@).take(i + 1) == spec_u16_list(v@).take(i as int).push(spec_u16_list(v@)[i as int]));
                }
                i = i + 1;
            }
            proof {
                assert(spec_u16_list(v@).take((n / 2) as int) == spec_u16_list(v@));
            }
            SvcParamValue::Mandatory(keys)
        } else if self.key == 1 {
            let mut ids: Vec<Vec<u8>> = Vec::new();
            let ghost mut read: Seq<Seq<u8>> = Seq::empty();
            let mut cur: usize = 0;
            proof {
                assert(v@.subrange(0, n as int) =~= v@);
            }
            while cur < n
                invariant
                    self.key == 1,
                    v == &self.value,
                    n == v@.len(),
                    cur <= n,
                    read.len() == ids@.len(),
                    forall|i: int| 0 <= i < ids@.len() ==> #[trigger] ids@[i]@ == read[i],
                    spec_txt_chunks(v@) == read + spec_txt_chunks(v@.subrange(cur as int, n as int)),
                    spec_alpn_run(v@) == spec_alpn_run(v@.subrange(cur as int, n as int)),
                decreases n - cur,
            {
                let ghost s = v@.subrange(cur as int, n as int);
                let len = v[cur] as usize;
                proof {
                    assert(s[0] == v@[cur as int]);
                }
                if len == 0 || len >= n - cur {
                    return SvcParamValue::Unknown;
                }
                let mut id: Vec<u8> = Vec::new();
                let mut k = cur + 1;
                while k < cur + 1 + len
                    invariant
                        cur + 1 <= k <= cur + 1 + len <= n,
                        n == v@.len(),
                        id@ == v@.subrange(cur + 1, k as int),
                    decreases cur + 1 + len - k,
                {
                    id.push(v[k]);
                    proof {
                        assert(v@.subrange(cur + 1, k + 1) =~= v@.subrange(cur + 1, k as int).push(v@[k as int]));
                    }
                    k = k + 1;
                }
                let ghost next = (cur + 1 + len) as int;
                proof {
                    assert(s.subrange(1, 1 + len as int) =~= id@);
                    assert(s.subrange(1 + len as int, s.len() as int) =~= v@.subrange(next, n as int));
                    assert(spec_txt_chunks(s) =~= seq![id@] + spec_txt_chunks(v@.subrange(next, n as int)));
                    assert(read + spec_txt_chunks(s) =~= read.push(id@) + spec_txt_chunks(v@.subrange(next, n as int)));
                    read = read.push(id@);
                }
                ids.push(id);
                cur = cur + 1 + len;
            }
            proof {
                assert(v@.subrange(n as int, n as int).len() == 0);
                assert(read + spec_txt_chunks(v@.subrange(n as int, n as int)) =~= read);
            }
            if n == 0 {
                return SvcParamValue::Unknown;
            }
            SvcParamValue::Alpn(ids)
        } else if self.key == 2 && n == 0 {
            SvcParamValue::NoDefaultAlpn
        } else if self.key == 3 && n == 2 {
            SvcParamValue::Port((v[0] as u16) * 256 + v[1] as u16)
        } else if self.key == 4 && n > 0 && n % 4 == 0 {
            let mut hints: Vec<[u8; 4]> = Vec::new();
            let mut i: usize = 0;
            while i < n / 4
                invariant
                    n == v@.len(),
                    i <= n / 4,
                    hints@.len() == i,
                    forall|k: int| 0 <= k < i ==> #[trigger] hints@[k]@ == spec_hint(v@, 4, k),
                decreases n / 4 - i,
            {
                let a = [v[4 * i], v[4 * i + 1], v[4 * i + 2], v[4 * i + 3]];
                proof {
                    assert(a@ =~= spec_hint(v@, 4, i as int));
                }
                hints.push(a);
                i = i + 1;
            }
            SvcParamValue::Ipv4Hint(hints)
        } else if self.key == 5 {
            SvcParamValue::Ech(v.clone())
        } else if self.key == 6 && n > 0 && n % 16 == 0 {
            let mut hints: Vec<[u8; 16]> = Vec::new();
            let mut i: usize = 0;
            while i < n / 16
                invariant
                    n == v@.len(),
                    i <= n / 16,
                    hints@.len() == i,
                    forall|k: int| 0 <= k < i ==> #[trigger] hints@[k]@ == spec_hint(v@, 16, k),
                decreases n / 16 - i,
            {
                let b = 16 * i;
                let a = [
                    v[b], v[b + 1], v[b + 2], v[b + 3], v[b + 4], v[b + 5], v[b + 6], v[b + 7],
                    v[b + 8], v[b + 9], v[b + 10], v[b + 11], v[b + 12], v[b + 13], v[b + 14],
                    v[b + 15],
                ];
                proof {
                    assert(a@ =~= spec_hint(v@, 16, i as int));
                }
                hints.push(a);
                i = i + 1;
            }
            SvcParamValue::Ipv6Hint(hints)
        } else if self.key == 7 {
            SvcParamValue::DohPath(v.clone())
        } else if self.key == 8 && n == 0 {
            SvcParamValue::Ohttp
        } else {
            SvcParamValue::Unknown
        }
    }
}

/// Service binding payload (RFC 9460).
#[derive(Debug, Clone, PartialEq, Eq)]
pub struct SVCB {
    pub priority: u16,
    pub target: Name,
    pub params: Vec<SvcParam>,
}

impl SVCB {
    /// Construct an `SVCB` payload.
    pub fn new(priority: u16, target: Name, params: Vec<SvcParam>) -> (v: Self)
        ensures
            v.priority == priority,
            v.target == target,
            v.params == params,
    {
        SVCB { priority, target, params }
    }

    pub fn priority(&self) -> (v: u16)
        ensures
            v == self.priority,
    {
        self.priority
    }

    pub fn target(&self) -> (v: &Name)
        ensures
            *v == self.target,
    {
        &self.target
    }

    pub fn params(&self) -> (v: &[SvcParam])
        ensures
            v@ == self.params@,
    {
        self.params.as_slice()
    }
}

/// HTTPS service binding payload in SVCB layout.
#[derive(Debug, Clone, PartialEq, Eq)]
pub struct HTTPS(pub SVCB);

} // verus!
