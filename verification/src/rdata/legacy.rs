//! Historic and rarely used RDATA payload types.

use vstd::prelude::*;
use crate::name::Name;
use crate::rdata::basic::TXT;

verus! {

/// Mail destination payload.
#[derive(Debug, Clone, PartialEq, Eq)]
pub struct MD(pub Name);

/// Mail forwarder payload.
#[derive(Debug, Clone, PartialEq, Eq)]
pub struct MF(pub Name);

/// Mailbox domain name payload.
#[derive(Debug, Clone, PartialEq, Eq)]
pub struct MB(pub Name);

/// Mail group member payload.
#[derive(Debug, Clone, PartialEq, Eq)]
pub struct MG(pub Name);

/// Mail rename payload.
#[derive(Debug, Clone, PartialEq, Eq)]
pub struct MR(pub Name);

/// Delegation name payload.
#[derive(Debug, Clone, PartialEq, Eq)]
pub struct DNAME(pub Name);

/// Address alias payload.
#[derive(Debug, Clone, PartialEq, Eq)]
pub struct ANAME(pub Name);

/// Null payload (opaque).
#[derive(Debug, Clone, PartialEq, Eq)]
pub struct NULL {
    pub data: Vec<u8>,
}

impl NULL {
    /// Construct a `NULL` payload.
    pub fn new(data: Vec<u8>) -> (v: Self)
        ensures
            v.data == data,
    {
        NULL { data }
    }

    pub fn data(&self) -> (v: &[u8])
        ensures
            v@ == self.data@,
    {
        self.data.as_slice()
    }


}

/// Host information payload.
#[derive(Debug, Clone, PartialEq, Eq)]
pub struct HINFO {
    pub cpu: Vec<u8>,
    pub os: Vec<u8>,
}

impl HINFO {
    /// Construct a `HINFO` payload.
    pub fn new(cpu: Vec<u8>, os: Vec<u8>) -> (v: Self)
        ensures
            v.cpu == cpu,
            v.os == os,
    {
        HINFO { cpu, os }
    }

    pub fn cpu(&self) -> (v: &[u8])
        ensures
            v@ == self.cpu@,
    {
        self.cpu.as_slice()
    }

    pub fn os(&self) -> (v: &[u8])
        ensures
            v@ == self.os@,
    {
        self.os.as_slice()
    }


}

/// Mailbox information payload.
#[derive(Debug, Clone, PartialEq, Eq)]
pub struct MINFO {
    pub rmail: Name,
    pub email: Name,
}

impl MINFO {
    /// Construct a `MINFO` payload.
    pub fn new(rmail: Name, email: Name) -> (v: Self)
        ensures
            v.rmail == rmail,
            v.email == email,
    {
        MINFO { rmail, email }
    }

    pub fn rmail(&self) -> (v: &Name)
        ensures
            *v == self.rmail,
    {
        &self.rmail
    }

    pub fn email(&self) -> (v: &Name)
        ensures
            *v == self.email,
    {
        &self.email
    }


}

/// Responsible person payload.
#[derive(Debug, Clone, PartialEq, Eq)]
pub struct RP {
    pub mbox: Name,
    pub txt: Name,
}

impl RP {
    /// Construct a `RP` payload.
    pub fn new(mbox: Name, txt: Name) -> (v: Self)
        ensures
            v.mbox == mbox,
            v.txt == txt,
    {
        RP { mbox, txt }
    }

    pub fn mbox(&self) -> (v: &Name)
        ensures
            *v == self.mbox,
    {
        &self.mbox
    }

    pub fn txt(&self) -> (v: &Name)
        ensures
            *v == self.txt,
    {
        &self.txt
    }


}

/// AFS database payload.
#[derive(Debug, Clone, PartialEq, Eq)]
pub struct AFSDB {
    pub subtype: u16,
    pub hostname: Name,
}

impl AFSDB {
    /// Construct a `AFSDB` payload.
    pub fn new(subtype: u16, hostname: Name) -> (v: Self)
        ensures
            v.subtype == subtype,
            v.hostname == hostname,
    {
        AFSDB { subtype, hostname }
    }

    pub fn subtype(&self) -> (v: u16)
        ensures
            v == self.subtype,
    {
        self.subtype
    }

    pub fn hostname(&self) -> (v: &Name)
        ensures
            *v == self.hostname,
    {
        &self.hostname
    }


}

/// X.25 address payload.
#[derive(Debug, Clone, PartialEq, Eq)]
pub struct X25 {
    pub psdn_address: Vec<u8>,
}

impl X25 {
    /// Construct a `X25` payload.
    pub fn new(psdn_address: Vec<u8>) -> (v: Self)
        ensures
            v.psdn_address == psdn_address,
    {
        X25 { psdn_address }
    }

    pub fn psdn_address(&self) -> (v: &[u8])
        ensures
            v@ == self.psdn_address@,
    {
        self.psdn_address.as_slice()
    }


}

/// Well-known services payload.
#[derive(Debug, Clone, PartialEq, Eq)]
pub struct WKS {
    pub address: [u8; 4],
    pub protocol: u8,
    pub bitmap: Vec<u8>,
}

impl WKS {
    /// Construct a `WKS` payload.
    pub fn new(address: [u8; 4], protocol: u8, bitmap: Vec<u8>) -> (v: Self)
        ensures
            v.address == address,
            v.protocol == protocol,
            v.bitmap == bitmap,
    {
        WKS { address, protocol, bitmap }
    }

    pub fn address(&self) -> (v: [u8; 4])
        ensures
            v == self.address,
    {
        self.address
    }

    pub fn protocol(&self) -> (v: u8)
        ensures
            v == self.protocol,
    {
        self.protocol
    }

    pub fn bitmap(&self) -> (v: &[u8])
        ensures
            v@ == self.bitmap@,
    {
        self.bitmap.as_slice()
    }


}

/// NSAP payload (opaque).
#[derive(Debug, Clone, PartialEq, Eq)]
pub struct NSAP(pub Vec<u8>);

/// Endpoint identifier payload (opaque).
#[derive(Debug, Clone, PartialEq, Eq)]
pub struct EID(pub Vec<u8>);

/// Nimrod locator payload (opaque).
#[derive(Debug, Clone, PartialEq, Eq)]
pub struct NIMLOC(pub Vec<u8>);

/// ISDN address payload.
#[derive(Debug, Clone, PartialEq, Eq)]
pub struct ISDN {
    pub address: Vec<u8>,
    pub sub_address: Option<Vec<u8>>,
}

impl ISDN {
    /// Construct a `ISDN` payload.
    pub fn new(address: Vec<u8>, sub_address: Option<Vec<u8>>) -> (v: Self)
        ensures
            v.address == address,
            v.sub_address == sub_address,
    {
        ISDN { address, sub_address }
    }

    pub fn address(&self) -> (v: &[u8])
        ensures
            v@ == self.address@,
    {
        self.address.as_slice()
    }

    pub fn sub_address(&self) -> (v: Option<&[u8]>)
        ensures
            match self.sub_address {
                Some(b) => v matches Some(s) && s@ == b@,
                None => v is None,
            },
    {
        match &self.sub_address {
            Some(b) => Some(b.as_slice()),
            None => None,
        }
    }


}

/// Route-through payload.
#[derive(Debug, Clone, PartialEq, Eq)]
pub struct RT {
    pub preference: u16,
    pub host: Name,
}

impl RT {
    /// Construct a `RT` payload.
    pub fn new(preference: u16, host: Name) -> (v: Self)
        ensures
            v.preference == preference,
            v.host == host,
    {
        RT { preference, host }
    }

    pub fn preference(&self) -> (v: u16)
        ensures
            v == self.preference,
    {
        self.preference
    }

    pub fn host(&self) -> (v: &Name)
        ensures
            *v == self.host,
    {
        &self.host
    }


}

/// X.400 mapping payload.
#[derive(Debug, Clone, PartialEq, Eq)]
pub struct PX {
    pub preference: u16,
    pub map822: Name,
    pub mapx400: Name,
}

impl PX {
    /// Construct a `PX` payload.
    pub fn new(preference: u16, map822: Name, mapx400: Name) -> (v: Self)
        ensures
            v.preference == preference,
            v.map822 == map822,
            v.mapx400 == mapx400,
    {
        PX { preference, map822, mapx400 }
    }

    pub fn preference(&self) -> (v: u16)
        ensures
            v == self.preference,
    {
        self.preference
    }

    pub fn map822(&self) -> (v: &Name)
        ensures
            *v == self.map822,
    {
        &self.map822
    }

    pub fn mapx400(&self) -> (v: &Name)
        ensures
            *v == self.mapx400,
    {
        &self.mapx400
    }


}

/// NSAP pointer payload.
#[derive(Debug, Clone, PartialEq, Eq)]
pub struct NSAPPTR(pub Name);

/// Geographical position payload.
#[derive(Debug, Clone, PartialEq, Eq)]
pub struct GPOS {
    pub longitude: Vec<u8>,
    pub latitude: Vec<u8>,
    pub altitude: Vec<u8>,
}

impl GPOS {
    /// Construct a `GPOS` payload.
    pub fn new(longitude: Vec<u8>, latitude: Vec<u8>, altitude: Vec<u8>) -> (v: Self)
        ensures
            v.longitude == longitude,
            v.latitude == latitude,
            v.altitude == altitude,
    {
        GPOS { longitude, latitude, altitude }
    }

    pub fn longitude(&self) -> (v: &[u8])
        ensures
            v@ == self.longitude@,
    {
        self.longitude.as_slice()
    }

    pub fn latitude(&self) -> (v: &[u8])
        ensures
            v@ == self.latitude@,
    {
        self.latitude.as_slice()
    }

    pub fn altitude(&self) -> (v: &[u8])
        ensures
            v@ == self.altitude@,
    {
        self.altitude.as_slice()
    }


}

/// Location payload (RFC 1876).
#[derive(Debug, Clone, PartialEq, Eq)]
pub struct LOC {
    pub version: u8,
    pub size: u8,
    pub horiz_pre: u8,
    pub vert_pre: u8,
    pub latitude: u32,
    pub longitude: u32,
    pub altitude: u32,
}

impl LOC {
    /// Construct a `LOC` payload.
    pub fn new(version: u8, size: u8, horiz_pre: u8, vert_pre: u8, latitude: u32, longitude: u32, altitude: u32) -> (v: Self)
        ensures
            v.version == version,
            v.size == size,
            v.horiz_pre == horiz_pre,
            v.vert_pre == vert_pre,
            v.latitude == latitude,
            v.longitude == longitude,
            v.altitude == altitude,
    {
        LOC { version, size, horiz_pre, vert_pre, latitude, longitude, altitude }
    }

    pub fn version(&self) -> (v: u8)
        ensures
            v == self.version,
    {
        self.version
    }

    pub fn size(&self) -> (v: u8)
        ensures
            v == self.size,
    {
        self.size
    }

    pub fn horiz_pre(&self) -> (v: u8)
        ensures
            v == self.horiz_pre,
    {
        self.horiz_pre
    }

    pub fn vert_pre(&self) -> (v: u8)
        ensures
            v == self.vert_pre,
    {
        self.vert_pre
    }

    pub fn latitude(&self) -> (v: u32)
        ensures
            v == self.latitude,
    {
        self.latitude
    }

    pub fn longitude(&self) -> (v: u32)
        ensures
            v == self.longitude,
    {
        self.longitude
    }

    pub fn altitude(&self) -> (v: u32)
        ensures
            v == self.altitude,
    {
        self.altitude
    }


}

/// One address prefix item of an APL payload.
#[derive(Debug, Clone, PartialEq, Eq)]
pub struct AplPrefix {
    pub family: u16,
    pub prefix: u8,
    pub negation: bool,
    pub afd_part: Vec<u8>,
}

impl AplPrefix {
    /// Construct a `AplPrefix` payload.
    pub fn new(family: u16, prefix: u8, negation: bool, afd_part: Vec<u8>) -> (v: Self)
        ensures
            v.family == family,
            v.prefix == prefix,
            v.negation == negation,
            v.afd_part == afd_part,
    {
        AplPrefix { family, prefix, negation, afd_part }
    }

    pub fn family(&self) -> (v: u16)
        ensures
            v == self.family,
    {
        self.family
    }

    pub fn prefix(&self) -> (v: u8)
        ensures
            v == self.prefix,
    {
        self.prefix
    }

    pub fn negation(&self) -> (v: bool)
        ensures
            v == self.negation,
    {
        self.negation
    }

    pub fn afd_part(&self) -> (v: &[u8])
        ensures
            v@ == self.afd_part@,
    {
        self.afd_part.as_slice()
    }


}

/// Address prefix list payload (RFC 3123).
#[derive(Debug, Clone, PartialEq, Eq)]
pub struct APL {
    pub prefixes: Vec<AplPrefix>,
}

impl APL {
    /// Construct a `APL` payload.
    pub fn new(prefixes: Vec<AplPrefix>) -> (v: Self)
        ensures
            v.prefixes == prefixes,
    {
        APL { prefixes }
    }

    pub fn prefixes(&self) -> (v: &[AplPrefix])
        ensures
            v@ == self.prefixes@,
    {
        self.prefixes.as_slice()
    }


}

/// ATM address payload (opaque).
#[derive(Debug, Clone, PartialEq, Eq)]
pub struct ATMA(pub Vec<u8>);

/// A6 payload (RFC 2874).
#[derive(Debug, Clone, PartialEq, Eq)]
pub struct A6 {
    pub prefix_len: u8,
    pub suffix: Vec<u8>,
    pub prefix_name: Option<Name>,
}

impl A6 {
    /// Construct a `A6` payload.
    pub fn new(prefix_len: u8, suffix: Vec<u8>, prefix_name: Option<Name>) -> (v: Self)
        ensures
            v.prefix_len == prefix_len,
            v.suffix == suffix,
            v.prefix_name == prefix_name,
    {
        A6 { prefix_len, suffix, prefix_name }
    }

    pub fn prefix_len(&self) -> (v: u8)
        ensures
            v == self.prefix_len,
    {
        self.prefix_len
    }

    pub fn suffix(&self) -> (v: &[u8])
        ensures
            v@ == self.suffix@,
    {
        self.suffix.as_slice()
    }

    pub fn prefix_name(&self) -> (v: Option<&Name>)
        ensures
            match self.prefix_name {
                Some(n) => v matches Some(r) && *r == n,
                None => v is None,
            },
    {
        match &self.prefix_name {
            Some(n) => Some(n),
            None => None,
        }
    }


}

/// Kitchen sink payload.
#[derive(Debug, Clone, PartialEq, Eq)]
pub struct SINK {
    pub coding: u8,
    pub subcoding: u8,
    pub data: Vec<u8>,
}

impl SINK {
    /// Construct a `SINK` payload.
    pub fn new(coding: u8, subcoding: u8, data: Vec<u8>) -> (v: Self)
        ensures
            v.coding == coding,
            v.subcoding == subcoding,
            v.data == data,
    {
        SINK { coding, subcoding, data }
    }

    pub fn coding(&self) -> (v: u8)
        ensures
            v == self.coding,
    {
        self.coding
    }

    pub fn subcoding(&self) -> (v: u8)
        ensures
            v == self.subcoding,
    {
        self.subcoding
    }

    pub fn data(&self) -> (v: &[u8])
        ensures
            v@ == self.data@,
    {
        self.data.as_slice()
    }


}

/// Sender policy framework payload in TXT form.
#[derive(Debug, Clone, PartialEq, Eq)]
pub struct SPF(pub TXT);

/// Application visibility and control payload in TXT form.
#[derive(Debug, Clone, PartialEq, Eq)]
pub struct AVC(pub TXT);

/// User information payload (opaque).
#[derive(Debug, Clone, PartialEq, Eq)]
pub struct UINFO(pub Vec<u8>);

/// User id payload.
#[derive(Debug, Clone, PartialEq, Eq)]
pub struct UID(pub u32);

/// Group id payload.
#[derive(Debug, Clone, PartialEq, Eq)]
pub struct GID(pub u32);

/// Unspecified payload (opaque).
#[derive(Debug, Clone, PartialEq, Eq)]
pub struct UNSPEC(pub Vec<u8>);

/// Incremental transfer query type; it carries no data.
#[derive(Debug, Clone, PartialEq, Eq, Default)]
pub struct IXFR;

/// Zone transfer query type; it carries no data.
#[derive(Debug, Clone, PartialEq, Eq, Default)]
pub struct AXFR;

/// Mailbox-related query type; it carries no data.
#[derive(Debug, Clone, PartialEq, Eq, Default)]
pub struct MAILB;

/// Mail agent query type; it carries no data.
#[derive(Debug, Clone, PartialEq, Eq, Default)]
pub struct MAILA;

/// Any-type query type; it carries no data.
#[derive(Debug, Clone, PartialEq, Eq, Default)]
pub struct ANY;

} // verus!
