//! Recorded form of an EDNS option: its code, the code's name, a payload
//! kind and the payload's fields as plain values.

use vstd::prelude::*;
use crate::name::spec_fqdn;
use crate::names::{edns_code_name, spec_edns_code_name};
use crate::payload_text::{base64_encode, base64_standard_encoded, text};
use crate::rdata::basic::{EdnsOption, IpAddr, spec_edns_code_value, spec_option_code};
use crate::rdata::txt_text::{utf8_decode, utf8_text};
use crate::text::string_from_chars;
use crate::v2ray_dat::{push_dotted, push_ipv6_text, spec_dotted, spec_ipv6_text};

verus! {

/// A value in a recorded payload.
#[derive(Debug, PartialEq, Eq)]
pub enum FieldValue {
    Null,
    Bool(bool),
    Number(u64),
    Text(String),
    Numbers(Vec<u8>),
    Signed(i64),
    List(Vec<FieldValue>),
    Object(Vec<(String, FieldValue)>),
}

/// Recorded form of an EDNS option.
#[derive(Debug, PartialEq, Eq)]
pub struct EdnsOptionSummary {
    pub code: u16,
    pub name: String,
    pub payload_kind: String,
    pub payload: Vec<(String, FieldValue)>,
}

/// Field `name` holds the number `n`.
pub open spec fn field_number(f: (String, FieldValue), name: Seq<char>, n: u64) -> bool {
    f.0@ == name && f.1 == FieldValue::Number(n)
}

/// Field `name` holds `true` or `false`.
pub open spec fn field_bool(f: (String, FieldValue), name: Seq<char>, b: bool) -> bool {
    f.0@ == name && f.1 == FieldValue::Bool(b)
}

/// Field `name` is null.
pub open spec fn field_null(f: (String, FieldValue), name: Seq<char>) -> bool {
    f.0@ == name && f.1 == FieldValue::Null
}

/// Field `name` holds the text `t`.
pub open spec fn field_text(f: (String, FieldValue), name: Seq<char>, t: Seq<char>) -> bool {
    &&& f.0@ == name
    &&& f.1 matches FieldValue::Text(s) && s@ == t
}

/// Field `name` holds the list of numbers `b`.
pub open spec fn field_numbers(f: (String, FieldValue), name: Seq<char>, b: Seq<u8>) -> bool {
    &&& f.0@ == name
    &&& f.1 matches FieldValue::Numbers(v) && v@ == b
}

/// Field `name` holds a number when `o` has one, and is null otherwise.
pub open spec fn field_opt_number(f: (String, FieldValue), name: Seq<char>, o: Option<u64>) -> bool {
    match o {
        Some(n) => field_number(f, name, n),
        None => field_null(f, name),
    }
}

/// Text form of an address.
pub open spec fn spec_addr_text(a: IpAddr) -> Seq<char> {
    match a {
        IpAddr::V4(o) => spec_dotted(o@),
        IpAddr::V6(o) => spec_ipv6_text(o@),
    }
}

/// Kind of an option's payload: the option's variant name.
pub open spec fn spec_payload_kind(o: EdnsOption) -> Seq<char> {
    match o {
        EdnsOption::Llq(_) => "Llq"@,
        EdnsOption::UpdateLease(_) => "UpdateLease"@,
        EdnsOption::Nsid(_) => "Nsid"@,
        EdnsOption::Esu(_) => "Esu"@,
        EdnsOption::Dau(_) => "Dau"@,
        EdnsOption::Dhu(_) => "Dhu"@,
        EdnsOption::N3u(_) => "N3u"@,
        EdnsOption::Subnet(_) => "Subnet"@,
        EdnsOption::Expire(_) => "Expire"@,
        EdnsOption::Cookie(_) => "Cookie"@,
        EdnsOption::TcpKeepalive(_) => "TcpKeepalive"@,
        EdnsOption::Padding(_) => "Padding"@,
        EdnsOption::ExtendedDnsError(_) => "ExtendedDnsError"@,
        EdnsOption::ReportChannel(_) => "ReportChannel"@,
        EdnsOption::ZoneVersion(_) => "ZoneVersion"@,
        EdnsOption::Local(_) => "Local"@,
    }
}

/// The payload fields recorded for an option: numbers as numbers, absent
/// values as null, byte strings in base64 (as text instead where a field is
/// read as UTF-8 and is valid), names in fully qualified form.
pub open spec fn spec_payload_fields(o: EdnsOption, fs: Seq<(String, FieldValue)>) -> bool {
    match o {
        EdnsOption::Llq(x) => fs.len() == 5 && field_number(fs[0], "version"@, x.version as u64) && field_number(
            fs[1],
            "opcode"@,
            x.opcode as u64,
        ) && field_number(fs[2], "error"@, x.error as u64) && field_number(fs[3], "id"@, x.id) && field_number(
            fs[4],
            "lease_life"@,
            x.lease_life as u64,
        ),
        EdnsOption::UpdateLease(x) => fs.len() == 2 && field_number(fs[0], "lease"@, x.lease as u64) && field_opt_number(
            fs[1],
            "key_lease"@,
            match x.key_lease {
                Some(k) => Some(k as u64),
                None => None,
            },
        ),
        EdnsOption::Nsid(x) => fs.len() == 1 && field_text(fs[0], "nsid_base64"@, base64_standard_encoded(x.nsid@)),
        EdnsOption::Esu(x) => fs.len() == 1 && match utf8_text(x.uri@) {
            Some(t) => field_text(fs[0], "uri"@, t),
            None => field_text(fs[0], "uri_base64"@, base64_standard_encoded(x.uri@)),
        },
        EdnsOption::Dau(x) => fs.len() == 1 && field_numbers(fs[0], "algorithms"@, x.algorithms@),
        EdnsOption::Dhu(x) => fs.len() == 1 && field_numbers(fs[0], "algorithms"@, x.algorithms@),
        EdnsOption::N3u(x) => fs.len() == 1 && field_numbers(fs[0], "algorithms"@, x.algorithms@),
        EdnsOption::Subnet(x) => fs.len() == 3 && field_text(fs[0], "addr"@, spec_addr_text(x.addr)) && field_number(
            fs[1],
            "source_prefix"@,
            x.source_prefix as u64,
        ) && field_number(fs[2], "scope_prefix"@, x.scope_prefix as u64),
        EdnsOption::Expire(x) => fs.len() == 2 && field_bool(fs[0], "empty"@, x.empty) && field_opt_number(
            fs[1],
            "expire"@,
            if x.empty {
                None
            } else {
                Some(x.expire as u64)
            },
        ),
        EdnsOption::Cookie(x) => fs.len() == 1 && field_text(fs[0], "cookie_base64"@, base64_standard_encoded(x.cookie@)),
        EdnsOption::TcpKeepalive(x) => fs.len() == 1 && field_opt_number(
            fs[0],
            "timeout"@,
            match x.timeout {
                Some(t) => Some(t as u64),
                None => None,
            },
        ),
        EdnsOption::Padding(x) => fs.len() == 1 && field_text(fs[0], "padding_base64"@, base64_standard_encoded(x.padding@)),
        EdnsOption::ExtendedDnsError(x) => fs.len() == 3 && field_number(fs[0], "info_code"@, x.info_code as u64) && match utf8_text(
            x.extra_text@,
        ) {
            Some(t) => field_text(fs[1], "extra_text"@, t) && field_null(fs[2], "extra_text_base64"@),
            None => field_null(fs[1], "extra_text"@) && field_text(
                fs[2],
                "extra_text_base64"@,
                base64_standard_encoded(x.extra_text@),
            ),
        },
        EdnsOption::ReportChannel(x) => fs.len() == 1 && field_text(fs[0], "agent_domain"@, spec_fqdn(x.agent_domain@)),
        EdnsOption::ZoneVersion(x) => fs.len() == 3 && field_number(fs[0], "label_count"@, x.label_count as u64)
            && field_number(fs[1], "version_type"@, x.version_type as u64) && field_text(
            fs[2],
            "version_base64"@,
            base64_standard_encoded(x.version@),
        ),
        EdnsOption::Local(x) => fs.len() == 2 && field_number(fs[0], "code"@, x.code as u64) && field_text(
            fs[1],
            "data_base64"@,
            base64_standard_encoded(x.data@),
        ),
    }
}

pub(crate) fn num(name: &str, n: u64) -> (f: (String, FieldValue))
    ensures
        field_number(f, name@, n),
{
    (text(name), FieldValue::Number(n))
}

fn opt_num(name: &str, o: Option<u64>) -> (f: (String, FieldValue))
    ensures
        field_opt_number(f, name@, o),
{
    match o {
        Some(n) => (text(name), FieldValue::Number(n)),
        None => (text(name), FieldValue::Null),
    }
}

pub(crate) fn b64(name: &str, bytes: &[u8]) -> (f: (String, FieldValue))
    ensures
        field_text(f, name@, base64_standard_encoded(bytes@)),
{
    (text(name), FieldValue::Text(base64_encode(bytes)))
}

pub(crate) fn one(f: (String, FieldValue)) -> (v: Vec<(String, FieldValue)>)
    ensures
        v@ == seq![f],
{
    let mut v = Vec::new();
    v.push(f);
    v
}

fn payload_fields(option: &EdnsOption) -> (fs: Vec<(String, FieldValue)>)
    ensures
        spec_payload_fields(*option, fs@),
{
    match option {
        EdnsOption::Llq(x) => {
            let mut v = Vec::new();
            v.push(num("version", x.version as u64));
            v.push(num("opcode", x.opcode as u64));
            v.push(num("error", x.error as u64));
            v.push(num("id", x.id));
            v.push(num("lease_life", x.lease_life as u64));
            v
        },
        EdnsOption::UpdateLease(x) => {
            let mut v = Vec::new();
            v.push(num("lease", x.lease as u64));
            let k = match x.key_lease {
                Some(k) => Some(k as u64),
                None => None,
            };
            v.push(opt_num("key_lease", k));
            v
        },
        EdnsOption::Nsid(x) => one(b64("nsid_base64", x.nsid.as_slice())),
        EdnsOption::Esu(x) => match utf8_decode(x.uri.as_slice()) {
            Some(t) => one((text("uri"), FieldValue::Text(t))),
            None => one(b64("uri_base64", x.uri.as_slice())),
        },
        EdnsOption::Dau(x) => one((text("algorithms"), FieldValue::Numbers(x.algorithms.clone()))),
        EdnsOption::Dhu(x) => one((text("algorithms"), FieldValue::Numbers(x.algorithms.clone()))),
        EdnsOption::N3u(x) => one((text("algorithms"), FieldValue::Numbers(x.algorithms.clone()))),
        EdnsOption::Subnet(x) => {
            let mut a: Vec<char> = Vec::new();
            match &x.addr {
                IpAddr::V4(o) => push_dotted(&mut a, o.as_slice()),
                IpAddr::V6(o) => push_ipv6_text(&mut a, o.as_slice()),
            }
            let mut v = Vec::new();
            v.push((text("addr"), FieldValue::Text(string_from_chars(a.as_slice()))));
            v.push(num("source_prefix", x.source_prefix as u64));
            v.push(num("scope_prefix", x.scope_prefix as u64));
            v
        },
        EdnsOption::Expire(x) => {
            let mut v = Vec::new();
            v.push((text("empty"), FieldValue::Bool(x.empty)));
            let e = if x.empty {
                None
            } else {
                Some(x.expire as u64)
            };
            v.push(opt_num("expire", e));
            v
        },
        EdnsOption::Cookie(x) => one(b64("cookie_base64", x.cookie.as_slice())),
        EdnsOption::TcpKeepalive(x) => {
            let t = match x.timeout {
                Some(t) => Some(t as u64),
                None => None,
            };
            one(opt_num("timeout", t))
        },
        EdnsOption::Padding(x) => one(b64("padding_base64", x.padding.as_slice())),
        EdnsOption::ExtendedDnsError(x) => {
            let mut v = Vec::new();
            v.push(num("info_code", x.info_code as u64));
            match utf8_decode(x.extra_text.as_slice()) {
                Some(t) => {
                    v.push((text("extra_text"), FieldValue::Text(t)));
                    v.push((text("extra_text_base64"), FieldValue::Null));
                },
                None => {
                    v.push((text("extra_text"), FieldValue::Null));
                    v.push(b64("extra_text_base64", x.extra_text.as_slice()));
                },
            }
            v
        },
        EdnsOption::ReportChannel(x) => one((text("agent_domain"), FieldValue::Text(x.agent_domain.to_fqdn()))),
        EdnsOption::ZoneVersion(x) => {
            let mut v = Vec::new();
            v.push(num("label_count", x.label_count as u64));
            v.push(num("version_type", x.version_type as u64));
            v.push(b64("version_base64", x.version.as_slice()));
            v
        },
        EdnsOption::Local(x) => {
            let mut v = Vec::new();
            v.push(num("code", x.code as u64));
            v.push(b64("data_base64", x.data.as_slice()));
            v
        },
    }
}

fn payload_kind(option: &EdnsOption) -> (s: String)
    ensures
        s@ == spec_payload_kind(*option),
{
    match option {
        EdnsOption::Llq(_) => text("Llq"),
        EdnsOption::UpdateLease(_) => text("UpdateLease"),
        EdnsOption::Nsid(_) => text("Nsid"),
        EdnsOption::Esu(_) => text("Esu"),
        EdnsOption::Dau(_) => text("Dau"),
        EdnsOption::Dhu(_) => text("Dhu"),
        EdnsOption::N3u(_) => text("N3u"),
        EdnsOption::Subnet(_) => text("Subnet"),
        EdnsOption::Expire(_) => text("Expire"),
        EdnsOption::Cookie(_) => text("Cookie"),
        EdnsOption::TcpKeepalive(_) => text("TcpKeepalive"),
        EdnsOption::Padding(_) => text("Padding"),
        EdnsOption::ExtendedDnsError(_) => text("ExtendedDnsError"),
        EdnsOption::ReportChannel(_) => text("ReportChannel"),
        EdnsOption::ZoneVersion(_) => text("ZoneVersion"),
        EdnsOption::Local(_) => text("Local"),
    }
}

/// The recorded form of `option`: its wire code, the code's name, the
/// payload kind and the payload fields of [`spec_payload_fields`].
pub fn edns_option_summary(option: &EdnsOption) -> (r: EdnsOptionSummary)
    ensures
        r.code == spec_edns_code_value(spec_option_code(*option)),
        r.name@ == spec_edns_code_name(spec_option_code(*option)),
        r.payload_kind@ == spec_payload_kind(*option),
        spec_payload_fields(*option, r.payload@),
{
    let code = option.code();
    EdnsOptionSummary {
        code: code.to_u16(),
        name: edns_code_name(code),
        payload_kind: payload_kind(option),
        payload: payload_fields(option),
    }
}

} // verus!
