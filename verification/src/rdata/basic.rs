//! Common high-frequency RDATA payload types and the EDNS model.

use vstd::prelude::*;
use crate::name::Name;

verus! {

/// Owned IPv4 address payload (four octets in network order).
#[derive(Debug, Clone, Copy, PartialEq, Eq)]
pub struct A(pub [u8; 4]);

impl A {
    /// Construct an `A` payload from octets.
    pub fn new(a: u8, b: u8, c: u8, d: u8) -> (v: Self)
        ensures
            v.0@ == seq![a, b, c, d],
    {
        let v = A([a, b, c, d]);
        proof {
            assert(v.0@ =~= seq![a, b, c, d]);
        }
        v
    }
}

/// Owned IPv6 address payload (sixteen octets in network order).
#[derive(Debug, Clone, Copy, PartialEq, Eq)]
pub struct AAAA(pub [u8; 16]);

impl AAAA {
    /// Construct an `AAAA` payload from an address.
    pub fn new(addr: [u8; 16]) -> (v: Self)
        ensures
            v.0 == addr,
    {
        AAAA(addr)
    }
}

/// An IPv4 or IPv6 address.
#[derive(Debug, Clone, Copy, PartialEq, Eq)]
pub enum IpAddr {
    V4([u8; 4]),
    V6([u8; 16]),
}

/// Canonical name target payload.
#[derive(Debug, Clone, PartialEq, Eq)]
pub struct CNAME(pub Name);

/// Authoritative name server target payload.
#[derive(Debug, Clone, PartialEq, Eq)]
pub struct NS(pub Name);

/// Reverse lookup target payload.
#[derive(Debug, Clone, PartialEq, Eq)]
pub struct PTR(pub Name);

/// Named EDNS option codes carried inside an OPT pseudo-record.
#[derive(Debug, Clone, Copy, PartialEq, Eq, Structural, Hash)]
pub enum EdnsCode {
    /// Option code 0.
    Reserved,
    /// Option code 1.
    Llq,
    /// Option code 2.
    UpdateLease,
    /// Option code 3.
    Nsid,
    /// Option code 4.
    Esu,
    /// Option code 5.
    Dau,
    /// Option code 6.
    Dhu,
    /// Option code 7.
    N3u,
    /// Option code 8.
    Subnet,
    /// Option code 9.
    Expire,
    /// Option code 10.
    Cookie,
    /// Option code 11.
    TcpKeepalive,
    /// Option code 12.
    Padding,
    /// Option code 13.
    Chain,
    /// Option code 14.
    KeyTag,
    /// Option code 15.
    ExtendedDnsError,
    /// Option code 16.
    ClientTag,
    /// Option code 17.
    ServerTag,
    /// Option code 18.
    ReportChannel,
    /// Option code 19.
    ZoneVersion,
    /// Any other option code.
    Unknown(u16),
}

/// The option code that a wire value denotes.
pub open spec fn spec_edns_code_from_u16(v: u16) -> EdnsCode {
    match v {
        0 => EdnsCode::Reserved,
        1 => EdnsCode::Llq,
        2 => EdnsCode::UpdateLease,
        3 => EdnsCode::Nsid,
        4 => EdnsCode::Esu,
        5 => EdnsCode::Dau,
        6 => EdnsCode::Dhu,
        7 => EdnsCode::N3u,
        8 => EdnsCode::Subnet,
        9 => EdnsCode::Expire,
        10 => EdnsCode::Cookie,
        11 => EdnsCode::TcpKeepalive,
        12 => EdnsCode::Padding,
        13 => EdnsCode::Chain,
        14 => EdnsCode::KeyTag,
        15 => EdnsCode::ExtendedDnsError,
        16 => EdnsCode::ClientTag,
        17 => EdnsCode::ServerTag,
        18 => EdnsCode::ReportChannel,
        19 => EdnsCode::ZoneVersion,
        _ => EdnsCode::Unknown(v),
    }
}

/// The wire value of an option code.
pub open spec fn spec_edns_code_value(c: EdnsCode) -> u16 {
    match c {
        EdnsCode::Reserved => 0,
        EdnsCode::Llq => 1,
        EdnsCode::UpdateLease => 2,
        EdnsCode::Nsid => 3,
        EdnsCode::Esu => 4,
        EdnsCode::Dau => 5,
        EdnsCode::Dhu => 6,
        EdnsCode::N3u => 7,
        EdnsCode::Subnet => 8,
        EdnsCode::Expire => 9,
        EdnsCode::Cookie => 10,
        EdnsCode::TcpKeepalive => 11,
        EdnsCode::Padding => 12,
        EdnsCode::Chain => 13,
        EdnsCode::KeyTag => 14,
        EdnsCode::ExtendedDnsError => 15,
        EdnsCode::ClientTag => 16,
        EdnsCode::ServerTag => 17,
        EdnsCode::ReportChannel => 18,
        EdnsCode::ZoneVersion => 19,
        EdnsCode::Unknown(v) => v,
    }
}

impl EdnsCode {
    /// Decode a wire option code.
    pub fn from_u16(v: u16) -> (c: EdnsCode)
        ensures
            c == spec_edns_code_from_u16(v),
    {
        match v {
            0 => EdnsCode::Reserved,
            1 => EdnsCode::Llq,
            2 => EdnsCode::UpdateLease,
            3 => EdnsCode::Nsid,
            4 => EdnsCode::Esu,
            5 => EdnsCode::Dau,
            6 => EdnsCode::Dhu,
            7 => EdnsCode::N3u,
            8 => EdnsCode::Subnet,
            9 => EdnsCode::Expire,
            10 => EdnsCode::Cookie,
            11 => EdnsCode::TcpKeepalive,
            12 => EdnsCode::Padding,
            13 => EdnsCode::Chain,
            14 => EdnsCode::KeyTag,
            15 => EdnsCode::ExtendedDnsError,
            16 => EdnsCode::ClientTag,
            17 => EdnsCode::ServerTag,
            18 => EdnsCode::ReportChannel,
            19 => EdnsCode::ZoneVersion,
            _ => EdnsCode::Unknown(v),
        }
    }

    /// Encode as a wire option code.
    pub fn to_u16(self) -> (v: u16)
        ensures
            v == spec_edns_code_value(self),
    {
        match self {
            EdnsCode::Reserved => 0,
            EdnsCode::Llq => 1,
            EdnsCode::UpdateLease => 2,
            EdnsCode::Nsid => 3,
            EdnsCode::Esu => 4,
            EdnsCode::Dau => 5,
            EdnsCode::Dhu => 6,
            EdnsCode::N3u => 7,
            EdnsCode::Subnet => 8,
            EdnsCode::Expire => 9,
            EdnsCode::Cookie => 10,
            EdnsCode::TcpKeepalive => 11,
            EdnsCode::Padding => 12,
            EdnsCode::Chain => 13,
            EdnsCode::KeyTag => 14,
            EdnsCode::ExtendedDnsError => 15,
            EdnsCode::ClientTag => 16,
            EdnsCode::ServerTag => 17,
            EdnsCode::ReportChannel => 18,
            EdnsCode::ZoneVersion => 19,
            EdnsCode::Unknown(v) => v,
        }
    }
}

impl From<u16> for EdnsCode {
    fn from(v: u16) -> (c: EdnsCode) {
        EdnsCode::from_u16(v)
    }
}

impl vstd::std_specs::convert::FromSpecImpl<u16> for EdnsCode {
    open spec fn obeys_from_spec() -> bool {
        true
    }

    open spec fn from_spec(v: u16) -> EdnsCode {
        spec_edns_code_from_u16(v)
    }
}

impl From<EdnsCode> for u16 {
    fn from(c: EdnsCode) -> (v: u16) {
        c.to_u16()
    }
}

impl vstd::std_specs::convert::FromSpecImpl<EdnsCode> for u16 {
    open spec fn obeys_from_spec() -> bool {
        true
    }

    open spec fn from_spec(c: EdnsCode) -> u16 {
        spec_edns_code_value(c)
    }
}

/// Every option code value survives decoding and re-encoding.
pub proof fn lemma_edns_code_roundtrip(v: u16)
    ensures
        spec_edns_code_value(spec_edns_code_from_u16(v)) == v,
{
}

/// EDNS Client Subnet payload (RFC 7871 section 6).  The address is kept unmasked; wire encoding masks it to the source prefix.
#[derive(Debug, Clone, PartialEq, Eq)]
pub struct ClientSubnet {
    pub addr: IpAddr,
    pub source_prefix: u8,
    pub scope_prefix: u8,
}

impl ClientSubnet {
    /// Construct a `ClientSubnet` payload.
    pub fn new(addr: IpAddr, source_prefix: u8, scope_prefix: u8) -> (v: Self)
        ensures
            v.addr == addr,
            v.source_prefix == source_prefix,
            v.scope_prefix == scope_prefix,
    {
        ClientSubnet { addr, source_prefix, scope_prefix }
    }

    pub fn addr(&self) -> (v: IpAddr)
        ensures
            v == self.addr,
    {
        self.addr
    }

    pub fn source_prefix(&self) -> (v: u8)
        ensures
            v == self.source_prefix,
    {
        self.source_prefix
    }

    pub fn scope_prefix(&self) -> (v: u8)
        ensures
            v == self.scope_prefix,
    {
        self.scope_prefix
    }


}

/// Name Server Identifier payload.
#[derive(Debug, Clone, PartialEq, Eq)]
pub struct EdnsNsid {
    pub nsid: Vec<u8>,
}

impl EdnsNsid {
    /// Construct a `EdnsNsid` payload.
    pub fn new(nsid: Vec<u8>) -> (v: Self)
        ensures
            v.nsid == nsid,
    {
        EdnsNsid { nsid }
    }

    pub fn nsid(&self) -> (v: &[u8])
        ensures
            v@ == self.nsid@,
    {
        self.nsid.as_slice()
    }


}

/// DNS COOKIE payload.
#[derive(Debug, Clone, PartialEq, Eq)]
pub struct EdnsCookie {
    pub cookie: Vec<u8>,
}

impl EdnsCookie {
    /// Construct a `EdnsCookie` payload.
    pub fn new(cookie: Vec<u8>) -> (v: Self)
        ensures
            v.cookie == cookie,
    {
        EdnsCookie { cookie }
    }

    pub fn cookie(&self) -> (v: &[u8])
        ensures
            v@ == self.cookie@,
    {
        self.cookie.as_slice()
    }


}

/// Update Lease payload.
#[derive(Debug, Clone, PartialEq, Eq)]
pub struct EdnsUpdateLease {
    pub lease: u32,
    pub key_lease: Option<u32>,
}

impl EdnsUpdateLease {
    /// Construct a `EdnsUpdateLease` payload.
    pub fn new(lease: u32, key_lease: Option<u32>) -> (v: Self)
        ensures
            v.lease == lease,
            v.key_lease == key_lease,
    {
        EdnsUpdateLease { lease, key_lease }
    }

    pub fn lease(&self) -> (v: u32)
        ensures
            v == self.lease,
    {
        self.lease
    }

    pub fn key_lease(&self) -> (v: Option<u32>)
        ensures
            v == self.key_lease,
    {
        self.key_lease
    }


}

/// Long-Lived Queries payload.
#[derive(Debug, Clone, PartialEq, Eq)]
pub struct EdnsLlq {
    pub version: u16,
    pub opcode: u16,
    pub error: u16,
    pub id: u64,
    pub lease_life: u32,
}

impl EdnsLlq {
    /// Construct a `EdnsLlq` payload.
    pub fn new(version: u16, opcode: u16, error: u16, id: u64, lease_life: u32) -> (v: Self)
        ensures
            v.version == version,
            v.opcode == opcode,
            v.error == error,
            v.id == id,
            v.lease_life == lease_life,
    {
        EdnsLlq { version, opcode, error, id, lease_life }
    }

    pub fn version(&self) -> (v: u16)
        ensures
            v == self.version,
    {
        self.version
    }

    pub fn opcode(&self) -> (v: u16)
        ensures
            v == self.opcode,
    {
        self.opcode
    }

    pub fn error(&self) -> (v: u16)
        ensures
            v == self.error,
    {
        self.error
    }

    pub fn id(&self) -> (v: u64)
        ensures
            v == self.id,
    {
        self.id
    }

    pub fn lease_life(&self) -> (v: u32)
        ensures
            v == self.lease_life,
    {
        self.lease_life
    }


}

/// Algorithm list shared by DAU, DHU and N3U.
#[derive(Debug, Clone, PartialEq, Eq)]
pub struct EdnsAlgorithmList {
    pub algorithms: Vec<u8>,
}

impl EdnsAlgorithmList {
    /// Construct a `EdnsAlgorithmList` payload.
    pub fn new(algorithms: Vec<u8>) -> (v: Self)
        ensures
            v.algorithms == algorithms,
    {
        EdnsAlgorithmList { algorithms }
    }

    pub fn algorithms(&self) -> (v: &[u8])
        ensures
            v@ == self.algorithms@,
    {
        self.algorithms.as_slice()
    }


}

/// EXPIRE payload; `empty` marks the zero-length query form.
#[derive(Debug, Clone, PartialEq, Eq)]
pub struct EdnsExpire {
    pub expire: u32,
    pub empty: bool,
}

impl EdnsExpire {
    pub fn expire(&self) -> (v: u32)
        ensures
            v == self.expire,
    {
        self.expire
    }

    pub fn is_empty(&self) -> (v: bool)
        ensures
            v == self.empty,
    {
        self.empty
    }

    /// An EXPIRE value carried in four octets.
    pub fn new(expire: u32) -> (v: Self)
        ensures
            v.expire == expire,
            !v.empty,
    {
        EdnsExpire { expire, empty: false }
    }

    /// The empty EXPIRE option of a query.
    pub fn empty() -> (v: Self)
        ensures
            v.expire == 0,
            v.empty,
    {
        EdnsExpire { expire: 0, empty: true }
    }

}

/// edns-tcp-keepalive payload.
#[derive(Debug, Clone, PartialEq, Eq)]
pub struct EdnsTcpKeepalive {
    pub timeout: Option<u16>,
}

impl EdnsTcpKeepalive {
    /// Construct a `EdnsTcpKeepalive` payload.
    pub fn new(timeout: Option<u16>) -> (v: Self)
        ensures
            v.timeout == timeout,
    {
        EdnsTcpKeepalive { timeout }
    }

    pub fn timeout(&self) -> (v: Option<u16>)
        ensures
            v == self.timeout,
    {
        self.timeout
    }


}

/// Padding payload.
#[derive(Debug, Clone, PartialEq, Eq)]
pub struct EdnsPadding {
    pub padding: Vec<u8>,
}

impl EdnsPadding {
    /// Construct a `EdnsPadding` payload.
    pub fn new(padding: Vec<u8>) -> (v: Self)
        ensures
            v.padding == padding,
    {
        EdnsPadding { padding }
    }

    pub fn padding(&self) -> (v: &[u8])
        ensures
            v@ == self.padding@,
    {
        self.padding.as_slice()
    }


}

/// Extended DNS Error payload.
#[derive(Debug, Clone, PartialEq, Eq)]
pub struct EdnsExtendedDnsError {
    pub info_code: u16,
    pub extra_text: Vec<u8>,
}

impl EdnsExtendedDnsError {
    /// Construct a `EdnsExtendedDnsError` payload.
    pub fn new(info_code: u16, extra_text: Vec<u8>) -> (v: Self)
        ensures
            v.info_code == info_code,
            v.extra_text == extra_text,
    {
        EdnsExtendedDnsError { info_code, extra_text }
    }

    pub fn info_code(&self) -> (v: u16)
        ensures
            v == self.info_code,
    {
        self.info_code
    }

    pub fn extra_text(&self) -> (v: &[u8])
        ensures
            v@ == self.extra_text@,
    {
        self.extra_text.as_slice()
    }


}

/// ENUM Source-URI payload.
#[derive(Debug, Clone, PartialEq, Eq)]
pub struct EdnsEsu {
    pub uri: Vec<u8>,
}

impl EdnsEsu {
    /// Construct a `EdnsEsu` payload.
    pub fn new(uri: Vec<u8>) -> (v: Self)
        ensures
            v.uri == uri,
    {
        EdnsEsu { uri }
    }

    pub fn uri(&self) -> (v: &[u8])
        ensures
            v@ == self.uri@,
    {
        self.uri.as_slice()
    }


}

/// Report Channel payload.
#[derive(Debug, Clone, PartialEq, Eq)]
pub struct EdnsReportChannel {
    pub agent_domain: Name,
}

impl EdnsReportChannel {
    /// Construct a `EdnsReportChannel` payload.
    pub fn new(agent_domain: Name) -> (v: Self)
        ensures
            v.agent_domain == agent_domain,
    {
        EdnsReportChannel { agent_domain }
    }

    pub fn agent_domain(&self) -> (v: &Name)
        ensures
            *v == self.agent_domain,
    {
        &self.agent_domain
    }


}

/// Zone Version payload.
#[derive(Debug, Clone, PartialEq, Eq)]
pub struct EdnsZoneVersion {
    pub label_count: u8,
    pub version_type: u8,
    pub version: Vec<u8>,
}

impl EdnsZoneVersion {
    /// Construct a `EdnsZoneVersion` payload.
    pub fn new(label_count: u8, version_type: u8, version: Vec<u8>) -> (v: Self)
        ensures
            v.label_count == label_count,
            v.version_type == version_type,
            v.version == version,
    {
        EdnsZoneVersion { label_count, version_type, version }
    }

    pub fn label_count(&self) -> (v: u8)
        ensures
            v == self.label_count,
    {
        self.label_count
    }

    pub fn version_type(&self) -> (v: u8)
        ensures
            v == self.version_type,
    {
        self.version_type
    }

    pub fn version(&self) -> (v: &[u8])
        ensures
            v@ == self.version@,
    {
        self.version.as_slice()
    }


}

/// Local, experimental or otherwise unmodeled option payload.
#[derive(Debug, Clone, PartialEq, Eq)]
pub struct EdnsLocal {
    pub code: u16,
    pub data: Vec<u8>,
}

impl EdnsLocal {
    /// Construct a `EdnsLocal` payload.
    pub fn new(code: u16, data: Vec<u8>) -> (v: Self)
        ensures
            v.code == code,
            v.data == data,
    {
        EdnsLocal { code, data }
    }

    pub fn code(&self) -> (v: u16)
        ensures
            v == self.code,
    {
        self.code
    }

    pub fn data(&self) -> (v: &[u8])
        ensures
            v@ == self.data@,
    {
        self.data.as_slice()
    }


}

/// Structured EDNS options, one variant per modeled option code.
#[derive(Debug, Clone, PartialEq, Eq)]
pub enum EdnsOption {
    /// Long-Lived Queries option (code 1).
    Llq(EdnsLlq),
    /// Update Lease option (code 2).
    UpdateLease(EdnsUpdateLease),
    /// Name Server Identifier option (code 3).
    Nsid(EdnsNsid),
    /// ENUM Source-URI option (code 4).
    Esu(EdnsEsu),
    /// DNSSEC Algorithm Understood option (code 5).
    Dau(EdnsAlgorithmList),
    /// DS Hash Understood option (code 6).
    Dhu(EdnsAlgorithmList),
    /// NSEC3 Hash Understood option (code 7).
    N3u(EdnsAlgorithmList),
    /// EDNS Client Subnet option (code 8, RFC 7871).
    Subnet(ClientSubnet),
    /// EDNS EXPIRE option (code 9).
    Expire(EdnsExpire),
    /// DNS COOKIE option (code 10).
    Cookie(EdnsCookie),
    /// edns-tcp-keepalive option (code 11).
    TcpKeepalive(EdnsTcpKeepalive),
    /// Padding option (code 12).
    Padding(EdnsPadding),
    /// Extended DNS Error option (code 15).
    ExtendedDnsError(EdnsExtendedDnsError),
    /// Report Channel option (code 18).
    ReportChannel(EdnsReportChannel),
    /// Zone Version option (code 19).
    ZoneVersion(EdnsZoneVersion),
    /// Local/experimental or otherwise unmodeled option payload.
    Local(EdnsLocal),
}

/// The option code an option is filed under.
pub open spec fn spec_option_code(o: EdnsOption) -> EdnsCode {
    match o {
        EdnsOption::Llq(_) => EdnsCode::Llq,
        EdnsOption::UpdateLease(_) => EdnsCode::UpdateLease,
        EdnsOption::Nsid(_) => EdnsCode::Nsid,
        EdnsOption::Esu(_) => EdnsCode::Esu,
        EdnsOption::Dau(_) => EdnsCode::Dau,
        EdnsOption::Dhu(_) => EdnsCode::Dhu,
        EdnsOption::N3u(_) => EdnsCode::N3u,
        EdnsOption::Subnet(_) => EdnsCode::Subnet,
        EdnsOption::Expire(_) => EdnsCode::Expire,
        EdnsOption::Cookie(_) => EdnsCode::Cookie,
        EdnsOption::TcpKeepalive(_) => EdnsCode::TcpKeepalive,
        EdnsOption::Padding(_) => EdnsCode::Padding,
        EdnsOption::ExtendedDnsError(_) => EdnsCode::ExtendedDnsError,
        EdnsOption::ReportChannel(_) => EdnsCode::ReportChannel,
        EdnsOption::ZoneVersion(_) => EdnsCode::ZoneVersion,
        EdnsOption::Local(l) => spec_edns_code_from_u16(l.code),
    }
}

/// Number of address octets a source prefix keeps: `ceil(prefix / 8)`.
pub open spec fn spec_prefix_octets(prefix: u8) -> nat {
    ((prefix as nat) + 7) / 8
}

/// Widest prefix of an address family.
pub open spec fn spec_max_prefix(a: IpAddr) -> u8 {
    match a {
        IpAddr::V4(_) => 32,
        IpAddr::V6(_) => 128,
    }
}

/// Smaller of two octets.
pub open spec fn spec_min_u8(a: u8, b: u8) -> u8 {
    if a <= b {
        a
    } else {
        b
    }
}

/// Encoded payload length of an option, without the four-byte code and
/// length header.
pub open spec fn spec_payload_len(o: EdnsOption) -> int {
    match o {
        EdnsOption::Llq(_) => 18,
        EdnsOption::UpdateLease(v) => if v.key_lease is Some {
            8
        } else {
            4
        },
        EdnsOption::Nsid(v) => v.nsid@.len() as int,
        EdnsOption::Esu(v) => v.uri@.len() as int,
        EdnsOption::Dau(v) => v.algorithms@.len() as int,
        EdnsOption::Dhu(v) => v.algorithms@.len() as int,
        EdnsOption::N3u(v) => v.algorithms@.len() as int,
        EdnsOption::Subnet(v) => 4 + spec_prefix_octets(
            spec_min_u8(v.source_prefix, spec_max_prefix(v.addr)),
        ) as int,
        EdnsOption::Expire(v) => if v.empty {
            0
        } else {
            4
        },
        EdnsOption::Cookie(v) => v.cookie@.len() as int,
        EdnsOption::TcpKeepalive(v) => if v.timeout is Some {
            2
        } else {
            0
        },
        EdnsOption::Padding(v) => v.padding@.len() as int,
        EdnsOption::ExtendedDnsError(v) => 2 + v.extra_text@.len() as int,
        EdnsOption::ReportChannel(v) => v.agent_domain@.len() as int,
        EdnsOption::ZoneVersion(v) => 2 + v.version@.len() as int,
        EdnsOption::Local(v) => v.data@.len() as int,
    }
}

/// Raw payload bytes of the byte-oriented options (empty for the others).
pub open spec fn spec_option_data(o: EdnsOption) -> Seq<u8> {
    match o {
        EdnsOption::Nsid(v) => v.nsid@,
        EdnsOption::Esu(v) => v.uri@,
        EdnsOption::Dau(v) => v.algorithms@,
        EdnsOption::Dhu(v) => v.algorithms@,
        EdnsOption::N3u(v) => v.algorithms@,
        EdnsOption::Cookie(v) => v.cookie@,
        EdnsOption::Padding(v) => v.padding@,
        EdnsOption::ExtendedDnsError(v) => v.extra_text@,
        EdnsOption::ZoneVersion(v) => v.version@,
        EdnsOption::Local(v) => v.data@,
        _ => Seq::empty(),
    }
}

impl EdnsOption {
    /// The option code this option is filed under.
    pub fn code(&self) -> (c: EdnsCode)
        ensures
            c == spec_option_code(*self),
    {
        match self {
            EdnsOption::Llq(_) => EdnsCode::Llq,
            EdnsOption::UpdateLease(_) => EdnsCode::UpdateLease,
            EdnsOption::Nsid(_) => EdnsCode::Nsid,
            EdnsOption::Esu(_) => EdnsCode::Esu,
            EdnsOption::Dau(_) => EdnsCode::Dau,
            EdnsOption::Dhu(_) => EdnsCode::Dhu,
            EdnsOption::N3u(_) => EdnsCode::N3u,
            EdnsOption::Subnet(_) => EdnsCode::Subnet,
            EdnsOption::Expire(_) => EdnsCode::Expire,
            EdnsOption::Cookie(_) => EdnsCode::Cookie,
            EdnsOption::TcpKeepalive(_) => EdnsCode::TcpKeepalive,
            EdnsOption::Padding(_) => EdnsCode::Padding,
            EdnsOption::ExtendedDnsError(_) => EdnsCode::ExtendedDnsError,
            EdnsOption::ReportChannel(_) => EdnsCode::ReportChannel,
            EdnsOption::ZoneVersion(_) => EdnsCode::ZoneVersion,
            EdnsOption::Local(local) => EdnsCode::from_u16(local.code),
        }
    }

    /// Encoded payload length, excluding the four-byte code and length
    /// header.
    pub fn payload_len(&self) -> (n: usize)
        requires
            spec_payload_len(*self) <= usize::MAX,
        ensures
            n == spec_payload_len(*self),
    {
        match self {
            EdnsOption::Llq(_) => 18,
            EdnsOption::UpdateLease(value) => {
                if value.key_lease.is_some() {
                    8
                } else {
                    4
                }
            },
            EdnsOption::Nsid(value) => value.nsid.len(),
            EdnsOption::Esu(value) => value.uri.len(),
            EdnsOption::Dau(value) => value.algorithms.len(),
            EdnsOption::Dhu(value) => value.algorithms.len(),
            EdnsOption::N3u(value) => value.algorithms.len(),
            EdnsOption::Subnet(value) => {
                let max_prefix: u8 = match value.addr {
                    IpAddr::V4(_) => 32,
                    IpAddr::V6(_) => 128,
                };
                let p: u8 = if value.source_prefix <= max_prefix {
                    value.source_prefix
                } else {
                    max_prefix
                };
                4 + ((p as usize) + 7) / 8
            },
            EdnsOption::Expire(value) => {
                if value.empty {
                    0
                } else {
                    4
                }
            },
            EdnsOption::Cookie(value) => value.cookie.len(),
            EdnsOption::TcpKeepalive(value) => {
                if value.timeout.is_some() {
                    2
                } else {
                    0
                }
            },
            EdnsOption::Padding(value) => value.padding.len(),
            EdnsOption::ExtendedDnsError(value) => 2 + value.extra_text.len(),
            EdnsOption::ReportChannel(value) => value.agent_domain.bytes_len(),
            EdnsOption::ZoneVersion(value) => 2 + value.version.len(),
            EdnsOption::Local(local) => local.data.len(),
        }
    }

    /// Raw payload bytes for the byte-oriented options, empty for the
    /// structured ones.
    pub fn data(&self) -> (d: &[u8])
        ensures
            d@ == spec_option_data(*self),
    {
        match self {
            EdnsOption::Nsid(value) => value.nsid.as_slice(),
            EdnsOption::Esu(value) => value.uri.as_slice(),
            EdnsOption::Dau(value) => value.algorithms.as_slice(),
            EdnsOption::Dhu(value) => value.algorithms.as_slice(),
            EdnsOption::N3u(value) => value.algorithms.as_slice(),
            EdnsOption::Cookie(value) => value.cookie.as_slice(),
            EdnsOption::Padding(value) => value.padding.as_slice(),
            EdnsOption::ExtendedDnsError(value) => value.extra_text.as_slice(),
            EdnsOption::ZoneVersion(value) => value.version.as_slice(),
            EdnsOption::Local(local) => local.data.as_slice(),
            _ => {
                let e: &[u8] = &[];
                proof {
                    assert(e@ =~= Seq::<u8>::empty());
                }
                e
            },
        }
    }
}

/// Decoded EDNS flag bits carried in the OPT TTL field.
#[derive(Debug, Clone, Copy, PartialEq, Eq, Structural, Default)]
pub struct EdnsFlags {
    pub dnssec_ok: bool,
    pub z: u16,
}

/// Flags decoded from the low sixteen bits of the OPT TTL.
pub open spec fn spec_edns_flags_from_u16(flags: u16) -> EdnsFlags {
    EdnsFlags { dnssec_ok: flags & 0x8000 == 0x8000, z: flags & 0x7FFF }
}

/// Sixteen-bit flag word of decoded flags.
pub open spec fn spec_edns_flags_to_u16(flags: EdnsFlags) -> u16 {
    if flags.dnssec_ok {
        0x8000u16 | flags.z
    } else {
        0x7FFFu16 & flags.z
    }
}

impl EdnsFlags {
    /// Decode the flag word.
    pub fn from_u16(flags: u16) -> (f: EdnsFlags)
        ensures
            f == spec_edns_flags_from_u16(flags),
    {
        EdnsFlags { dnssec_ok: flags & 0x8000 == 0x8000, z: flags & 0x7FFF }
    }

    /// Encode as the flag word.
    pub fn to_u16(self) -> (v: u16)
        ensures
            v == spec_edns_flags_to_u16(self),
    {
        if self.dnssec_ok {
            0x8000u16 | self.z
        } else {
            0x7FFFu16 & self.z
        }
    }
}

impl From<u16> for EdnsFlags {
    fn from(flags: u16) -> (f: EdnsFlags) {
        EdnsFlags::from_u16(flags)
    }
}

impl vstd::std_specs::convert::FromSpecImpl<u16> for EdnsFlags {
    open spec fn obeys_from_spec() -> bool {
        true
    }

    open spec fn from_spec(flags: u16) -> EdnsFlags {
        spec_edns_flags_from_u16(flags)
    }
}

impl From<EdnsFlags> for u16 {
    fn from(flags: EdnsFlags) -> (v: u16) {
        flags.to_u16()
    }
}

impl vstd::std_specs::convert::FromSpecImpl<EdnsFlags> for u16 {
    open spec fn obeys_from_spec() -> bool {
        true
    }

    open spec fn from_spec(flags: EdnsFlags) -> u16 {
        spec_edns_flags_to_u16(flags)
    }
}

/// Decoding a flag word and encoding it again gives the word back.
pub proof fn lemma_edns_flags_roundtrip(flags: u16)
    ensures
        spec_edns_flags_to_u16(spec_edns_flags_from_u16(flags)) == flags,
{
    assert((if flags & 0x8000 == 0x8000 { 0x8000u16 | (flags & 0x7FFF) } else { 0x7FFFu16 & (
    flags & 0x7FFF) }) == flags) by (bit_vector);
}

/// Index of the first option filed under `code`, if any.
pub open spec fn spec_find_option(opts: Seq<EdnsOption>, code: EdnsCode) -> Option<int>
    decreases opts.len(),
{
    if opts.len() == 0 {
        None
    } else if spec_option_code(opts[0]) == code {
        Some(0)
    } else {
        match spec_find_option(opts.drop_first(), code) {
            Some(i) => Some(i + 1),
            None => None,
        }
    }
}

/// `opts` without the options filed under `code`.
pub open spec fn spec_without_code(opts: Seq<EdnsOption>, code: EdnsCode) -> Seq<EdnsOption> {
    opts.filter(|o: EdnsOption| spec_option_code(o) != code)
}

/// No two options share a code.
pub open spec fn options_unique(opts: Seq<EdnsOption>) -> bool {
    forall|i: int, j: int|
        0 <= i < j < opts.len() ==> spec_option_code(#[trigger] opts[i]) != spec_option_code(
            #[trigger] opts[j],
        )
}

/// Owned EDNS state attached to an OPT pseudo-record.
#[derive(Debug, Clone, PartialEq, Eq)]
pub struct Edns {
    pub udp_payload_size: u16,
    pub ext_rcode: u8,
    pub version: u8,
    pub flags: EdnsFlags,
    pub options: Vec<EdnsOption>,
}

/// The OPT TTL word: `[extended rcode:8][version:8][flags:16]`.
pub open spec fn spec_raw_ttl(ext_rcode: u8, version: u8, flags: EdnsFlags) -> u32 {
    ((ext_rcode as u32) << 24u32) | ((version as u32) << 16u32) | (spec_edns_flags_to_u16(
        flags,
    ) as u32)
}

impl Default for Edns {
    fn default() -> (e: Self)
        ensures
            e.udp_payload_size == 1232,
            e.ext_rcode == 0,
            e.version == 0,
            e.flags == (EdnsFlags { dnssec_ok: false, z: 0 }),
            e.options@.len() == 0,
    {
        Self::new()
    }
}

impl Edns {
    /// Default EDNS state: 1232-byte UDP payload, version 0, no flags, no
    /// options.
    pub fn new() -> (e: Self)
        ensures
            e.udp_payload_size == 1232,
            e.ext_rcode == 0,
            e.version == 0,
            e.flags == (EdnsFlags { dnssec_ok: false, z: 0 }),
            e.options@.len() == 0,
    {
        Edns {
            udp_payload_size: 1232,
            ext_rcode: 0,
            version: 0,
            flags: EdnsFlags { dnssec_ok: false, z: 0 },
            options: Vec::new(),
        }
    }

    /// EDNS state from explicit fields.
    pub fn new_with_param(
        udp_payload_size: u16,
        ext_rcode: u8,
        version: u8,
        flags: EdnsFlags,
        options: Vec<EdnsOption>,
    ) -> (e: Self)
        ensures
            e.udp_payload_size == udp_payload_size,
            e.ext_rcode == ext_rcode,
            e.version == version,
            e.flags == flags,
            e.options == options,
    {
        Edns { udp_payload_size, ext_rcode, version, flags, options }
    }

    pub fn udp_payload_size(&self) -> (v: u16)
        ensures
            v == self.udp_payload_size,
    {
        self.udp_payload_size
    }

    /// Set the CLASS field value used by the OPT pseudo-RR on the wire.
    pub fn set_udp_payload_size(&mut self, value: u16)
        ensures
            *final(self) == (Edns { udp_payload_size: value, ..*old(self) }),
    {
        self.udp_payload_size = value;
    }

    pub fn ext_rcode(&self) -> (v: u8)
        ensures
            v == self.ext_rcode,
    {
        self.ext_rcode
    }

    /// Set the high 8 bits of the extended response code.
    pub fn set_ext_rcode(&mut self, value: u8)
        ensures
            *final(self) == (Edns { ext_rcode: value, ..*old(self) }),
    {
        self.ext_rcode = value;
    }

    pub fn version(&self) -> (v: u8)
        ensures
            v == self.version,
    {
        self.version
    }

    /// Set the EDNS version.
    pub fn set_version(&mut self, value: u8)
        ensures
            *final(self) == (Edns { version: value, ..*old(self) }),
    {
        self.version = value;
    }

    /// Borrow the decoded flag bitfield.
    pub fn flags(&self) -> (f: &EdnsFlags)
        ensures
            *f == self.flags,
    {
        &self.flags
    }

    /// Mutably borrow the decoded flag bitfield.
    pub fn flags_mut(&mut self) -> (f: &mut EdnsFlags)
        ensures
            *f == old(self).flags,
            *final(self) == (Edns { flags: *final(f), ..*old(self) }),
    {
        &mut self.flags
    }

    /// Set or clear the DNSSEC OK bit.
    pub fn set_dnssec_ok(&mut self, enabled: bool)
        ensures
            *final(self) == (Edns {
                flags: EdnsFlags { dnssec_ok: enabled, ..old(self).flags },
                ..*old(self)
            }),
    {
        self.flags.dnssec_ok = enabled;
    }

    /// The first option filed under `code`.
    pub fn option(&self, code: EdnsCode) -> (r: Option<&EdnsOption>)
        ensures
            match spec_find_option(self.options@, code) {
                Some(i) => r matches Some(o) && *o == self.options@[i],
                None => r is None,
            },
    {
        let mut i: usize = 0;
        proof {
            assert(self.options@.skip(0) == self.options@);
        }
        while i < self.options.len()
            invariant
                i <= self.options@.len(),
                match spec_find_option(self.options@.skip(i as int), code) {
                    Some(k) => spec_find_option(self.options@, code) == Some(k + i),
                    None => spec_find_option(self.options@, code) is None,
                },
            decreases self.options.len() - i,
        {
            proof {
                let s = self.options@.skip(i as int);
                assert(s.drop_first() == self.options@.skip(i + 1));
                assert(s[0] == self.options@[i as int]);
            }
            if self.options[i].code() == code {
                return Some(&self.options[i]);
            }
            i = i + 1;
        }
        proof {
            assert(self.options@.skip(i as int).len() == 0);
        }
        None
    }

    /// All options in insertion order.
    pub fn options(&self) -> (s: &[EdnsOption])
        ensures
            s@ == self.options@,
    {
        self.options.as_slice()
    }

    /// Insert `option`, replacing every option filed under the same code.
    pub fn insert(&mut self, option: EdnsOption)
        ensures
            final(self).options@ == spec_without_code(old(self).options@, spec_option_code(option)).push(
                option,
            ),
            final(self).udp_payload_size == old(self).udp_payload_size,
            final(self).ext_rcode == old(self).ext_rcode,
            final(self).version == old(self).version,
            final(self).flags == old(self).flags,
    {
        let code = option.code();
        self.remove(code);
        self.options.push(option);
    }

    /// Remove every option filed under `code`.
    pub fn remove(&mut self, code: EdnsCode)
        ensures
            final(self).options@ == spec_without_code(old(self).options@, code),
            final(self).udp_payload_size == old(self).udp_payload_size,
            final(self).ext_rcode == old(self).ext_rcode,
            final(self).version == old(self).version,
            final(self).flags == old(self).flags,
    {
        let ghost old_opts = self.options@;
        let mut kept: Vec<EdnsOption> = Vec::new();
        let mut taken: Vec<EdnsOption> = Vec::new();
        std::mem::swap(&mut taken, &mut self.options);
        proof {
            broadcast use vstd::std_specs::vec::axiom_spec_into_iter;
        }
        for o in it: taken
            invariant
                it.seq() == old_opts,
                kept@ == spec_without_code(old_opts.take(it.index() as int), code),
        {
            proof {
                let i = it.index() as int;
                assert(old_opts.take(i + 1) == old_opts.take(i).push(old_opts[i]));
                old_opts.take(i).lemma_filter_push(
                    old_opts[i],
                    |o: EdnsOption| spec_option_code(o) != code,
                );
            }
            if o.code() != code {
                kept.push(o);
            }
        }
        proof {
            assert(old_opts.take(old_opts.len() as int) == old_opts);
        }
        self.options = kept;
    }

    /// The OPT TTL word rebuilt from the structured fields.
    pub fn raw_ttl(&self) -> (t: u32)
        ensures
            t == spec_raw_ttl(self.ext_rcode, self.version, self.flags),
    {
        ((self.ext_rcode as u32) << 24u32) | ((self.version as u32) << 16u32) | (self.flags.to_u16() as u32)
    }
}

/// Wrapper type used when an RR stores owned EDNS state.
#[derive(Debug, Clone, PartialEq, Eq, Default)]
pub struct OPT(pub Edns);

impl OPT {
    /// Insert `option`, replacing every option with the same code.
    pub fn insert(&mut self, option: EdnsOption)
        ensures
            final(self).0.options@ == spec_without_code(old(self).0.options@, spec_option_code(option)).push(
                option,
            ),
            final(self).0.udp_payload_size == old(self).0.udp_payload_size,
            final(self).0.ext_rcode == old(self).0.ext_rcode,
            final(self).0.version == old(self).0.version,
            final(self).0.flags == old(self).0.flags,
    {
        self.0.insert(option);
    }

    /// Remove every option filed under `code`.
    pub fn remove(&mut self, code: EdnsCode)
        ensures
            final(self).0.options@ == spec_without_code(old(self).0.options@, code),
            final(self).0.udp_payload_size == old(self).0.udp_payload_size,
            final(self).0.ext_rcode == old(self).0.ext_rcode,
            final(self).0.version == old(self).0.version,
            final(self).0.flags == old(self).0.flags,
    {
        self.0.remove(code);
    }

    /// The first option filed under `code`.
    pub fn get(&self, code: EdnsCode) -> (r: Option<&EdnsOption>)
        ensures
            match spec_find_option(self.0.options@, code) {
                Some(i) => r matches Some(o) && *o == self.0.options@[i],
                None => r is None,
            },
    {
        self.0.option(code)
    }

    /// All options in insertion order.
    pub fn options(&self) -> (s: &[EdnsOption])
        ensures
            s@ == self.0.options@,
    {
        self.0.options()
    }
}
/// Mail exchanger payload.
#[derive(Debug, Clone, PartialEq, Eq)]
pub struct MX {
    pub preference: u16,
    pub exchange: Name,
}

impl MX {
    /// Construct a `MX` payload.
    pub fn new(preference: u16, exchange: Name) -> (v: Self)
        ensures
            v.preference == preference,
            v.exchange == exchange,
    {
        MX { preference, exchange }
    }

    pub fn preference(&self) -> (v: u16)
        ensures
            v == self.preference,
    {
        self.preference
    }

    pub fn exchange(&self) -> (v: &Name)
        ensures
            *v == self.exchange,
    {
        &self.exchange
    }


}

/// Service locator payload.
#[derive(Debug, Clone, PartialEq, Eq)]
pub struct SRV {
    pub priority: u16,
    pub weight: u16,
    pub port: u16,
    pub target: Name,
}

impl SRV {
    /// Construct a `SRV` payload.
    pub fn new(priority: u16, weight: u16, port: u16, target: Name) -> (v: Self)
        ensures
            v.priority == priority,
            v.weight == weight,
            v.port == port,
            v.target == target,
    {
        SRV { priority, weight, port, target }
    }

    pub fn priority(&self) -> (v: u16)
        ensures
            v == self.priority,
    {
        self.priority
    }

    pub fn weight(&self) -> (v: u16)
        ensures
            v == self.weight,
    {
        self.weight
    }

    pub fn port(&self) -> (v: u16)
        ensures
            v == self.port,
    {
        self.port
    }

    pub fn target(&self) -> (v: &Name)
        ensures
            *v == self.target,
    {
        &self.target
    }


}

/// Naming authority pointer payload.
#[derive(Debug, Clone, PartialEq, Eq)]
pub struct NAPTR {
    pub order: u16,
    pub preference: u16,
    pub flags: Vec<u8>,
    pub services: Vec<u8>,
    pub regexp: Vec<u8>,
    pub replacement: Name,
}

impl NAPTR {
    /// Construct a `NAPTR` payload.
    pub fn new(order: u16, preference: u16, flags: Vec<u8>, services: Vec<u8>, regexp: Vec<u8>, replacement: Name) -> (v: Self)
        ensures
            v.order == order,
            v.preference == preference,
            v.flags == flags,
            v.services == services,
            v.regexp == regexp,
            v.replacement == replacement,
    {
        NAPTR { order, preference, flags, services, regexp, replacement }
    }

    pub fn order(&self) -> (v: u16)
        ensures
            v == self.order,
    {
        self.order
    }

    pub fn preference(&self) -> (v: u16)
        ensures
            v == self.preference,
    {
        self.preference
    }

    pub fn flags(&self) -> (v: &[u8])
        ensures
            v@ == self.flags@,
    {
        self.flags.as_slice()
    }

    pub fn services(&self) -> (v: &[u8])
        ensures
            v@ == self.services@,
    {
        self.services.as_slice()
    }

    pub fn regexp(&self) -> (v: &[u8])
        ensures
            v@ == self.regexp@,
    {
        self.regexp.as_slice()
    }

    pub fn replacement(&self) -> (v: &Name)
        ensures
            *v == self.replacement,
    {
        &self.replacement
    }


}

/// Certification authority authorization payload.
#[derive(Debug, Clone, PartialEq, Eq)]
pub struct CAA {
    pub flag: u8,
    pub tag: Vec<u8>,
    pub value: Vec<u8>,
}

impl CAA {
    /// Construct a `CAA` payload.
    pub fn new(flag: u8, tag: Vec<u8>, value: Vec<u8>) -> (v: Self)
        ensures
            v.flag == flag,
            v.tag == tag,
            v.value == value,
    {
        CAA { flag, tag, value }
    }

    pub fn flag(&self) -> (v: u8)
        ensures
            v == self.flag,
    {
        self.flag
    }

    pub fn tag(&self) -> (v: &[u8])
        ensures
            v@ == self.tag@,
    {
        self.tag.as_slice()
    }

    pub fn value(&self) -> (v: &[u8])
        ensures
            v@ == self.value@,
    {
        self.value.as_slice()
    }


}

/// Digital object architecture payload (opaque).
#[derive(Debug, Clone, PartialEq, Eq)]
pub struct DOA(pub Vec<u8>);

/// Resolver information payload in TXT form.
#[derive(Debug, Clone, PartialEq, Eq)]
pub struct RESINFO(pub TXT);

/// Character-strings of a TXT wire payload: each chunk is a length octet and
/// that many bytes; reading stops at the end or at a chunk that overruns it.
pub open spec fn spec_txt_chunks(w: Seq<u8>) -> Seq<Seq<u8>>
    decreases w.len(),
{
    if w.len() == 0 {
        Seq::empty()
    } else {
        let n = w[0] as int;
        if 1 + n > w.len() {
            Seq::empty()
        } else {
            seq![w.subrange(1, 1 + n)] + spec_txt_chunks(w.subrange(1 + n, w.len() as int))
        }
    }
}

/// TXT payload stored as raw RDATA wire: `[len][bytes][len][bytes]...`.
#[derive(Debug, Clone, PartialEq, Eq)]
pub struct TXT {
    pub wire: Vec<u8>,
}

impl TXT {
    /// Wrap raw TXT RDATA wire.
    pub fn new(wire: Vec<u8>) -> (v: Self)
        ensures
            v.wire == wire,
    {
        TXT { wire }
    }

    /// Borrow the raw TXT RDATA wire.
    pub fn wire_data(&self) -> (v: &[u8])
        ensures
            v@ == self.wire@,
    {
        self.wire.as_slice()
    }

    /// The character-strings of the payload, in order.  Writing each back
    /// after its length octet rebuilds a well-formed payload, the whole
    /// payload when every string in it is complete
    /// (`crate::rdata::txt_text::lemma_txt_chunks_rebuild`).
    pub fn txt_data(&self) -> (r: Vec<Vec<u8>>)
        ensures
            r@.len() == spec_txt_chunks(self.wire@).len(),
            forall|i: int| 0 <= i < r@.len() ==> #[trigger] r@[i]@ == spec_txt_chunks(self.wire@)[i],
    {
        let mut it = TxtIter::new(self.wire.as_slice());
        let mut r: Vec<Vec<u8>> = Vec::new();
        let ghost all = spec_txt_chunks(self.wire@);
        loop
            invariant
                all == spec_txt_chunks(self.wire@),
                r@.len() + it.remaining().len() == all.len(),
                forall|i: int| 0 <= i < r@.len() ==> #[trigger] r@[i]@ == all[i],
                forall|i: int| 0 <= i < it.remaining().len() ==> #[trigger] it.remaining()[i] == all[r@.len() + i],
            decreases it.remaining().len(),
        {
            let ghost before = it.remaining();
            match it.next() {
                None => {
                    return r;
                },
                Some(chunk) => {
                    let ghost k = r@.len() as int;
                    r.push(vstd::slice::slice_to_vec(chunk));
                    proof {
                        assert(before[0] == all[k]);
                        assert forall|i: int| 0 <= i < it.remaining().len() implies #[trigger] it.remaining()[i] == all[r@.len() + i] by {
                            assert(it.remaining()[i] == before[i + 1]);
                        }
                    }
                },
            }
        }
    }
}

/// Cursor over the character-strings of a TXT wire payload.  What it yields
/// from `new(wire)` until `None` is `spec_txt_chunks(wire)`, from which
/// `crate::rdata::txt_text::lemma_txt_chunks_rebuild` rebuilds the payload.
pub struct TxtIter<'a> {
    wire: &'a [u8],
    cursor: usize,
}

impl<'a> TxtIter<'a> {
    #[verifier::type_invariant]
    spec fn cursor_in_bounds(&self) -> bool {
        self.cursor <= self.wire@.len()
    }

    /// The character-strings not read yet.
    pub closed spec fn remaining(&self) -> Seq<Seq<u8>> {
        spec_txt_chunks(self.wire@.subrange(self.cursor as int, self.wire@.len() as int))
    }

    /// A cursor at the first octet of `wire`.
    pub fn new(wire: &'a [u8]) -> (it: Self)
        ensures
            it.remaining() == spec_txt_chunks(wire@),
    {
        proof {
            assert(wire@.subrange(0, wire@.len() as int) == wire@);
        }
        TxtIter { wire, cursor: 0 }
    }

    /// The next character-string; `None` once the payload is read, or when
    /// the next length octet runs past its end (the cursor then stays at the
    /// end).
    pub fn next(&mut self) -> (r: Option<&'a [u8]>)
        ensures
            match r {
                None => old(self).remaining().len() == 0 && final(self).remaining().len() == 0,
                Some(c) => old(self).remaining().len() > 0
                    && c@ == old(self).remaining()[0]
                    && final(self).remaining() == old(self).remaining().drop_first(),
            },
    {
        proof {
            use_type_invariant(&*self);
        }
        let w = self.wire;
        let cursor = self.cursor;
        if cursor >= w.len() {
            return None;
        }
        let ghost s = w@.subrange(cursor as int, w@.len() as int);
        let len = w[cursor] as usize;
        if len >= w.len() - cursor {
            proof {
                assert(s[0] == w@[cursor as int]);
                assert(w@.subrange(w@.len() as int, w@.len() as int).len() == 0);
            }
            self.cursor = w.len();
            return None;
        }
        let start = cursor + 1;
        let end = start + len;
        proof {
            assert(s[0] == w@[cursor as int]);
            assert(s.subrange(1, 1 + len as int) == w@.subrange(start as int, end as int));
            assert(s.subrange(1 + len as int, s.len() as int) == w@.subrange(end as int, w@.len() as int));
        }
        self.cursor = end;
        Some(vstd::slice::slice_subrange(w, start, end))
    }
}

/// Start-of-authority payload.
#[derive(Debug, Clone, PartialEq, Eq)]
pub struct SOA {
    pub mname: Name,
    pub rname: Name,
    pub serial: u32,
    pub refresh: i32,
    pub retry: i32,
    pub expire: i32,
    pub minimum: u32,
}

impl SOA {
    /// Construct a `SOA` payload.
    pub fn new(mname: Name, rname: Name, serial: u32, refresh: i32, retry: i32, expire: i32, minimum: u32) -> (v: Self)
        ensures
            v.mname == mname,
            v.rname == rname,
            v.serial == serial,
            v.refresh == refresh,
            v.retry == retry,
            v.expire == expire,
            v.minimum == minimum,
    {
        SOA { mname, rname, serial, refresh, retry, expire, minimum }
    }

    pub fn mname(&self) -> (v: &Name)
        ensures
            *v == self.mname,
    {
        &self.mname
    }

    pub fn rname(&self) -> (v: &Name)
        ensures
            *v == self.rname,
    {
        &self.rname
    }

    pub fn serial(&self) -> (v: u32)
        ensures
            v == self.serial,
    {
        self.serial
    }

    pub fn refresh(&self) -> (v: i32)
        ensures
            v == self.refresh,
    {
        self.refresh
    }

    pub fn retry(&self) -> (v: i32)
        ensures
            v == self.retry,
    {
        self.retry
    }

    pub fn expire(&self) -> (v: i32)
        ensures
            v == self.expire,
    {
        self.expire
    }

    pub fn minimum(&self) -> (v: u32)
        ensures
            v == self.minimum,
    {
        self.minimum
    }


}

} // verus!
