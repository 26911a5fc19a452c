//! DNSSEC and key-related RDATA payload types.

use vstd::prelude::*;
use crate::name::Name;
use crate::rdata::bitmap::TypeBitMaps;

verus! {

/// Delegation signer payload (RFC 4034 section 5).
#[derive(Debug, Clone, PartialEq, Eq)]
pub struct DS {
    pub key_tag: u16,
    pub algorithm: u8,
    pub digest_type: u8,
    pub digest: Vec<u8>,
}

impl DS {
    /// Construct a `DS` payload.
    pub fn new(key_tag: u16, algorithm: u8, digest_type: u8, digest: Vec<u8>) -> (v: Self)
        ensures
            v.key_tag == key_tag,
            v.algorithm == algorithm,
            v.digest_type == digest_type,
            v.digest == digest,
    {
        DS { key_tag, algorithm, digest_type, digest }
    }

    pub fn key_tag(&self) -> (v: u16)
        ensures
            v == self.key_tag,
    {
        self.key_tag
    }

    pub fn algorithm(&self) -> (v: u8)
        ensures
            v == self.algorithm,
    {
        self.algorithm
    }

    pub fn digest_type(&self) -> (v: u8)
        ensures
            v == self.digest_type,
    {
        self.digest_type
    }

    pub fn digest(&self) -> (v: &[u8])
        ensures
            v@ == self.digest@,
    {
        self.digest.as_slice()
    }


}

/// Child DS payload.
#[derive(Debug, Clone, PartialEq, Eq)]
pub struct CDS(pub DS);

/// DNSSEC lookaside validation payload.
#[derive(Debug, Clone, PartialEq, Eq)]
pub struct DLV(pub DS);

/// Trust anchor payload.
#[derive(Debug, Clone, PartialEq, Eq)]
pub struct TA(pub DS);

/// SSH fingerprint payload (RFC 4255).
#[derive(Debug, Clone, PartialEq, Eq)]
pub struct SSHFP {
    pub algorithm: u8,
    pub fp_type: u8,
    pub fingerprint: Vec<u8>,
}

impl SSHFP {
    /// Construct a `SSHFP` payload.
    pub fn new(algorithm: u8, fp_type: u8, fingerprint: Vec<u8>) -> (v: Self)
        ensures
            v.algorithm == algorithm,
            v.fp_type == fp_type,
            v.fingerprint == fingerprint,
    {
        SSHFP { algorithm, fp_type, fingerprint }
    }

    pub fn algorithm(&self) -> (v: u8)
        ensures
            v == self.algorithm,
    {
        self.algorithm
    }

    pub fn fp_type(&self) -> (v: u8)
        ensures
            v == self.fp_type,
    {
        self.fp_type
    }

    pub fn fingerprint(&self) -> (v: &[u8])
        ensures
            v@ == self.fingerprint@,
    {
        self.fingerprint.as_slice()
    }


}

/// DNS public key payload (RFC 4034 section 2).
#[derive(Debug, Clone, PartialEq, Eq)]
pub struct DNSKEY {
    pub flags: u16,
    pub protocol: u8,
    pub algorithm: u8,
    pub public_key: Vec<u8>,
}

impl DNSKEY {
    /// Construct a `DNSKEY` payload.
    pub fn new(flags: u16, protocol: u8, algorithm: u8, public_key: Vec<u8>) -> (v: Self)
        ensures
            v.flags == flags,
            v.protocol == protocol,
            v.algorithm == algorithm,
            v.public_key == public_key,
    {
        DNSKEY { flags, protocol, algorithm, public_key }
    }

    pub fn flags(&self) -> (v: u16)
        ensures
            v == self.flags,
    {
        self.flags
    }

    pub fn protocol(&self) -> (v: u8)
        ensures
            v == self.protocol,
    {
        self.protocol
    }

    pub fn algorithm(&self) -> (v: u8)
        ensures
            v == self.algorithm,
    {
        self.algorithm
    }

    pub fn public_key(&self) -> (v: &[u8])
        ensures
            v@ == self.public_key@,
    {
        self.public_key.as_slice()
    }


}

/// Child DNSKEY payload.
#[derive(Debug, Clone, PartialEq, Eq)]
pub struct CDNSKEY(pub DNSKEY);

/// DHCP identifier payload (opaque).
#[derive(Debug, Clone, PartialEq, Eq)]
pub struct DHCID(pub Vec<u8>);

/// OpenPGP public key payload (opaque).
#[derive(Debug, Clone, PartialEq, Eq)]
pub struct OPENPGPKEY(pub Vec<u8>);

/// TLS association payload (RFC 6698).
#[derive(Debug, Clone, PartialEq, Eq)]
pub struct TLSA {
    pub usage: u8,
    pub selector: u8,
    pub matching_type: u8,
    pub certificate: Vec<u8>,
}

impl TLSA {
    /// Construct a `TLSA` payload.
    pub fn new(usage: u8, selector: u8, matching_type: u8, certificate: Vec<u8>) -> (v: Self)
        ensures
            v.usage == usage,
            v.selector == selector,
            v.matching_type == matching_type,
            v.certificate == certificate,
    {
        TLSA { usage, selector, matching_type, certificate }
    }

    pub fn usage(&self) -> (v: u8)
        ensures
            v == self.usage,
    {
        self.usage
    }

    pub fn selector(&self) -> (v: u8)
        ensures
            v == self.selector,
    {
        self.selector
    }

    pub fn matching_type(&self) -> (v: u8)
        ensures
            v == self.matching_type,
    {
        self.matching_type
    }

    pub fn certificate(&self) -> (v: &[u8])
        ensures
            v@ == self.certificate@,
    {
        self.certificate.as_slice()
    }


}

/// S/MIME association payload in TLSA layout.
#[derive(Debug, Clone, PartialEq, Eq)]
pub struct SMIMEA(pub TLSA);

/// Child-to-parent synchronization payload (RFC 7477).
#[derive(Debug, Clone, PartialEq, Eq)]
pub struct CSYNC {
    pub serial: u32,
    pub flags: u16,
    pub type_bitmap: TypeBitMaps,
}

impl CSYNC {
    /// Construct a `CSYNC` payload.
    pub fn new(serial: u32, flags: u16, type_bitmap: TypeBitMaps) -> (v: Self)
        ensures
            v.serial == serial,
            v.flags == flags,
            v.type_bitmap == type_bitmap,
    {
        CSYNC { serial, flags, type_bitmap }
    }

    pub fn serial(&self) -> (v: u32)
        ensures
            v == self.serial,
    {
        self.serial
    }

    pub fn flags(&self) -> (v: u16)
        ensures
            v == self.flags,
    {
        self.flags
    }

    pub fn type_bitmap(&self) -> (v: &[u8])
        ensures
            v@ == self.type_bitmap.wire@,
    {
        self.type_bitmap.wire_data()
    }

    pub fn type_bitmap_types(&self) -> (v: &[crate::types::RecordType])
        ensures
            v@ == self.type_bitmap.types@,
    {
        self.type_bitmap.types()
    }

}

/// Zone message digest payload (RFC 8976).
#[derive(Debug, Clone, PartialEq, Eq)]
pub struct ZONEMD {
    pub serial: u32,
    pub scheme: u8,
    pub hash: u8,
    pub digest: Vec<u8>,
}

impl ZONEMD {
    /// Construct a `ZONEMD` payload.
    pub fn new(serial: u32, scheme: u8, hash: u8, digest: Vec<u8>) -> (v: Self)
        ensures
            v.serial == serial,
            v.scheme == scheme,
            v.hash == hash,
            v.digest == digest,
    {
        ZONEMD { serial, scheme, hash, digest }
    }

    pub fn serial(&self) -> (v: u32)
        ensures
            v == self.serial,
    {
        self.serial
    }

    pub fn scheme(&self) -> (v: u8)
        ensures
            v == self.scheme,
    {
        self.scheme
    }

    pub fn hash(&self) -> (v: u8)
        ensures
            v == self.hash,
    {
        self.hash
    }

    pub fn digest(&self) -> (v: &[u8])
        ensures
            v@ == self.digest@,
    {
        self.digest.as_slice()
    }


}

/// Certificate payload (RFC 4398).
#[derive(Debug, Clone, PartialEq, Eq)]
pub struct CERT {
    pub cert_type: u16,
    pub key_tag: u16,
    pub algorithm: u8,
    pub certificate: Vec<u8>,
}

impl CERT {
    /// Construct a `CERT` payload.
    pub fn new(cert_type: u16, key_tag: u16, algorithm: u8, certificate: Vec<u8>) -> (v: Self)
        ensures
            v.cert_type == cert_type,
            v.key_tag == key_tag,
            v.algorithm == algorithm,
            v.certificate == certificate,
    {
        CERT { cert_type, key_tag, algorithm, certificate }
    }

    pub fn cert_type(&self) -> (v: u16)
        ensures
            v == self.cert_type,
    {
        self.cert_type
    }

    pub fn key_tag(&self) -> (v: u16)
        ensures
            v == self.key_tag,
    {
        self.key_tag
    }

    pub fn algorithm(&self) -> (v: u8)
        ensures
            v == self.algorithm,
    {
        self.algorithm
    }

    pub fn certificate(&self) -> (v: &[u8])
        ensures
            v@ == self.certificate@,
    {
        self.certificate.as_slice()
    }


}

/// Resource record signature payload (RFC 4034 section 3).
#[derive(Debug, Clone, PartialEq, Eq)]
pub struct RRSIG {
    pub type_covered: u16,
    pub algorithm: u8,
    pub labels: u8,
    pub orig_ttl: u32,
    pub expiration: u32,
    pub inception: u32,
    pub key_tag: u16,
    pub signer_name: Name,
    pub signature: Vec<u8>,
}

impl RRSIG {
    pub fn type_covered(&self) -> (v: u16)
        ensures
            v == self.type_covered,
    {
        self.type_covered
    }

    pub fn algorithm(&self) -> (v: u8)
        ensures
            v == self.algorithm,
    {
        self.algorithm
    }

    pub fn labels(&self) -> (v: u8)
        ensures
            v == self.labels,
    {
        self.labels
    }

    pub fn orig_ttl(&self) -> (v: u32)
        ensures
            v == self.orig_ttl,
    {
        self.orig_ttl
    }

    pub fn expiration(&self) -> (v: u32)
        ensures
            v == self.expiration,
    {
        self.expiration
    }

    pub fn inception(&self) -> (v: u32)
        ensures
            v == self.inception,
    {
        self.inception
    }

    pub fn key_tag(&self) -> (v: u16)
        ensures
            v == self.key_tag,
    {
        self.key_tag
    }

    pub fn signer_name(&self) -> (v: &Name)
        ensures
            *v == self.signer_name,
    {
        &self.signer_name
    }

    pub fn signature(&self) -> (v: &[u8])
        ensures
            v@ == self.signature@,
    {
        self.signature.as_slice()
    }


}

/// Next secure payload (RFC 4034 section 4).
#[derive(Debug, Clone, PartialEq, Eq)]
pub struct NSEC {
    pub next_domain: Name,
    pub type_bitmap: TypeBitMaps,
}

impl NSEC {
    /// Construct a `NSEC` payload.
    pub fn new(next_domain: Name, type_bitmap: TypeBitMaps) -> (v: Self)
        ensures
            v.next_domain == next_domain,
            v.type_bitmap == type_bitmap,
    {
        NSEC { next_domain, type_bitmap }
    }

    pub fn next_domain(&self) -> (v: &Name)
        ensures
            *v == self.next_domain,
    {
        &self.next_domain
    }

    pub fn type_bitmap(&self) -> (v: &[u8])
        ensures
            v@ == self.type_bitmap.wire@,
    {
        self.type_bitmap.wire_data()
    }

    pub fn type_bitmap_types(&self) -> (v: &[crate::types::RecordType])
        ensures
            v@ == self.type_bitmap.types@,
    {
        self.type_bitmap.types()
    }

}

/// Hashed next secure payload (RFC 5155 section 3).
#[derive(Debug, Clone, PartialEq, Eq)]
pub struct NSEC3 {
    pub hash: u8,
    pub flags: u8,
    pub iterations: u16,
    pub salt: Vec<u8>,
    pub next_domain: Vec<u8>,
    pub type_bitmap: TypeBitMaps,
}

impl NSEC3 {
    /// Construct a `NSEC3` payload.
    pub fn new(hash: u8, flags: u8, iterations: u16, salt: Vec<u8>, next_domain: Vec<u8>, type_bitmap: TypeBitMaps) -> (v: Self)
        ensures
            v.hash == hash,
            v.flags == flags,
            v.iterations == iterations,
            v.salt == salt,
            v.next_domain == next_domain,
            v.type_bitmap == type_bitmap,
    {
        NSEC3 { hash, flags, iterations, salt, next_domain, type_bitmap }
    }

    pub fn hash(&self) -> (v: u8)
        ensures
            v == self.hash,
    {
        self.hash
    }

    pub fn flags(&self) -> (v: u8)
        ensures
            v == self.flags,
    {
        self.flags
    }

    pub fn iterations(&self) -> (v: u16)
        ensures
            v == self.iterations,
    {
        self.iterations
    }

    pub fn salt(&self) -> (v: &[u8])
        ensures
            v@ == self.salt@,
    {
        self.salt.as_slice()
    }

    pub fn next_domain(&self) -> (v: &[u8])
        ensures
            v@ == self.next_domain@,
    {
        self.next_domain.as_slice()
    }

    pub fn type_bitmap(&self) -> (v: &[u8])
        ensures
            v@ == self.type_bitmap.wire@,
    {
        self.type_bitmap.wire_data()
    }

    pub fn type_bitmap_types(&self) -> (v: &[crate::types::RecordType])
        ensures
            v@ == self.type_bitmap.types@,
    {
        self.type_bitmap.types()
    }

}

/// NSEC3 parameters payload (RFC 5155 section 4).
#[derive(Debug, Clone, PartialEq, Eq)]
pub struct NSEC3PARAM {
    pub hash: u8,
    pub flags: u8,
    pub iterations: u16,
    pub salt: Vec<u8>,
}

impl NSEC3PARAM {
    /// Construct a `NSEC3PARAM` payload.
    pub fn new(hash: u8, flags: u8, iterations: u16, salt: Vec<u8>) -> (v: Self)
        ensures
            v.hash == hash,
            v.flags == flags,
            v.iterations == iterations,
            v.salt == salt,
    {
        NSEC3PARAM { hash, flags, iterations, salt }
    }

    pub fn hash(&self) -> (v: u8)
        ensures
            v == self.hash,
    {
        self.hash
    }

    pub fn flags(&self) -> (v: u8)
        ensures
            v == self.flags,
    {
        self.flags
    }

    pub fn iterations(&self) -> (v: u16)
        ensures
            v == self.iterations,
    {
        self.iterations
    }

    pub fn salt(&self) -> (v: &[u8])
        ensures
            v@ == self.salt@,
    {
        self.salt.as_slice()
    }


}

/// Host identity protocol payload (RFC 8005).
#[derive(Debug, Clone, PartialEq, Eq)]
pub struct HIP {
    pub hit: Vec<u8>,
    pub public_key_algorithm: u8,
    pub public_key: Vec<u8>,
    pub rendezvous_servers: Vec<Name>,
}

impl HIP {
    /// Construct a `HIP` payload.
    pub fn new(hit: Vec<u8>, public_key_algorithm: u8, public_key: Vec<u8>, rendezvous_servers: Vec<Name>) -> (v: Self)
        ensures
            v.hit == hit,
            v.public_key_algorithm == public_key_algorithm,
            v.public_key == public_key,
            v.rendezvous_servers == rendezvous_servers,
    {
        HIP { hit, public_key_algorithm, public_key, rendezvous_servers }
    }

    pub fn hit(&self) -> (v: &[u8])
        ensures
            v@ == self.hit@,
    {
        self.hit.as_slice()
    }

    pub fn public_key_algorithm(&self) -> (v: u8)
        ensures
            v == self.public_key_algorithm,
    {
        self.public_key_algorithm
    }

    pub fn public_key(&self) -> (v: &[u8])
        ensures
            v@ == self.public_key@,
    {
        self.public_key.as_slice()
    }

    pub fn rendezvous_servers(&self) -> (v: &[Name])
        ensures
            v@ == self.rendezvous_servers@,
    {
        self.rendezvous_servers.as_slice()
    }


}

/// Zone status information payload (opaque).
#[derive(Debug, Clone, PartialEq, Eq)]
pub struct NINFO(pub Vec<u8>);

/// Resource key payload (opaque).
#[derive(Debug, Clone, PartialEq, Eq)]
pub struct RKEY(pub Vec<u8>);

/// Trust anchor link payload.
#[derive(Debug, Clone, PartialEq, Eq)]
pub struct TALINK {
    pub previous_name: Name,
    pub next_name: Name,
}

impl TALINK {
    /// Construct a `TALINK` payload.
    pub fn new(previous_name: Name, next_name: Name) -> (v: Self)
        ensures
            v.previous_name == previous_name,
            v.next_name == next_name,
    {
        TALINK { previous_name, next_name }
    }

    pub fn previous_name(&self) -> (v: &Name)
        ensures
            *v == self.previous_name,
    {
        &self.previous_name
    }

    pub fn next_name(&self) -> (v: &Name)
        ensures
            *v == self.next_name,
    {
        &self.next_name
    }


}

/// Transaction signature payload in RRSIG layout.
#[derive(Debug, Clone, PartialEq, Eq)]
pub struct SIG(pub RRSIG);

/// Historic key payload in DNSKEY layout.
#[derive(Debug, Clone, PartialEq, Eq)]
pub struct KEY(pub DNSKEY);

/// Historic next-domain payload in NSEC layout.
#[derive(Debug, Clone, PartialEq, Eq)]
pub struct NXT(pub NSEC);

/// Transaction key payload (RFC 2930).
#[derive(Debug, Clone, PartialEq, Eq)]
pub struct TKEY {
    pub algorithm: Name,
    pub inception: u32,
    pub expiration: u32,
    pub mode: u16,
    pub error: u16,
    pub key: Vec<u8>,
    pub other_data: Vec<u8>,
}

impl TKEY {
    /// Construct a `TKEY` payload.
    pub fn new(algorithm: Name, inception: u32, expiration: u32, mode: u16, error: u16, key: Vec<u8>, other_data: Vec<u8>) -> (v: Self)
        ensures
            v.algorithm == algorithm,
            v.inception == inception,
            v.expiration == expiration,
            v.mode == mode,
            v.error == error,
            v.key == key,
            v.other_data == other_data,
    {
        TKEY { algorithm, inception, expiration, mode, error, key, other_data }
    }

    pub fn algorithm(&self) -> (v: &Name)
        ensures
            *v == self.algorithm,
    {
        &self.algorithm
    }

    pub fn inception(&self) -> (v: u32)
        ensures
            v == self.inception,
    {
        self.inception
    }

    pub fn expiration(&self) -> (v: u32)
        ensures
            v == self.expiration,
    {
        self.expiration
    }

    pub fn mode(&self) -> (v: u16)
        ensures
            v == self.mode,
    {
        self.mode
    }

    pub fn error(&self) -> (v: u16)
        ensures
            v == self.error,
    {
        self.error
    }

    pub fn key(&self) -> (v: &[u8])
        ensures
            v@ == self.key@,
    {
        self.key.as_slice()
    }

    pub fn other_data(&self) -> (v: &[u8])
        ensures
            v@ == self.other_data@,
    {
        self.other_data.as_slice()
    }


}

/// Transaction signature payload (RFC 8945).  `time_signed` holds a 48-bit value.
#[derive(Debug, Clone, PartialEq, Eq)]
pub struct TSIG {
    pub algorithm: Name,
    pub time_signed: u64,
    pub fudge: u16,
    pub mac: Vec<u8>,
    pub orig_id: u16,
    pub error: u16,
    pub other_data: Vec<u8>,
}

impl TSIG {
    /// Construct a `TSIG` payload.
    pub fn new(algorithm: Name, time_signed: u64, fudge: u16, mac: Vec<u8>, orig_id: u16, error: u16, other_data: Vec<u8>) -> (v: Self)
        ensures
            v.algorithm == algorithm,
            v.time_signed == time_signed,
            v.fudge == fudge,
            v.mac == mac,
            v.orig_id == orig_id,
            v.error == error,
            v.other_data == other_data,
    {
        TSIG { algorithm, time_signed, fudge, mac, orig_id, error, other_data }
    }

    pub fn algorithm(&self) -> (v: &Name)
        ensures
            *v == self.algorithm,
    {
        &self.algorithm
    }

    pub fn time_signed(&self) -> (v: u64)
        ensures
            v == self.time_signed,
    {
        self.time_signed
    }

    pub fn fudge(&self) -> (v: u16)
        ensures
            v == self.fudge,
    {
        self.fudge
    }

    pub fn mac(&self) -> (v: &[u8])
        ensures
            v@ == self.mac@,
    {
        self.mac.as_slice()
    }

    pub fn orig_id(&self) -> (v: u16)
        ensures
            v == self.orig_id,
    {
        self.orig_id
    }

    pub fn error(&self) -> (v: u16)
        ensures
            v == self.error,
    {
        self.error
    }

    pub fn other_data(&self) -> (v: &[u8])
        ensures
            v@ == self.other_data@,
    {
        self.other_data.as_slice()
    }


}

} // verus!
