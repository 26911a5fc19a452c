//! Display names used when DNS traffic is recorded for inspection: record
//! types, classes, EDNS option codes and SVCB parameter keys, with numeric
//! fallbacks for values that have no name.

use vstd::prelude::*;
use crate::rdata::basic::EdnsCode;
use crate::text::{chars_of, push_decimal, push_str_chars, spec_decimal, string_from_chars};
use crate::types::{DNSClass, RecordType, spec_dns_class_mnemonic, spec_record_type_from_u16, spec_record_type_mnemonic};

verus! {

/// Name of a record type: its mnemonic, or `TYPE` and the code for an
/// unknown type (RFC 3597 section 5).
pub open spec fn spec_record_type_name(t: RecordType) -> Seq<char> {
    match t {
        RecordType::Unknown(v) => "TYPE"@ + spec_decimal(v as nat),
        _ => spec_record_type_mnemonic(t),
    }
}

/// Name of a record type.
pub fn record_type_name(record_type: RecordType) -> (s: String)
    ensures
        s@ == spec_record_type_name(record_type),
{
    match record_type {
        RecordType::Unknown(value) => {
            let mut out: Vec<char> = Vec::new();
            push_str_chars(&mut out, "TYPE");
            push_decimal(&mut out, value as u64);
            string_from_chars(out.as_slice())
        },
        _ => {
            let out = chars_of(record_type.mnemonic());
            string_from_chars(out.as_slice())
        },
    }
}

/// Name of the record type with wire code `value`.
pub fn format_record_type_from_u16(value: u16) -> (s: String)
    ensures
        s@ == spec_record_type_name(spec_record_type_from_u16(value)),
{
    record_type_name(RecordType::from_u16(value))
}

/// Name of a class: its mnemonic, `OPT(size)` for the payload size an OPT
/// record carries, `CLASS` and the code for an unknown class.
pub open spec fn spec_dns_class_name(c: DNSClass) -> Seq<char> {
    match c {
        DNSClass::Unknown(v) => "CLASS"@ + spec_decimal(v as nat),
        DNSClass::OPT(v) => "OPT("@ + spec_decimal(v as nat) + ")"@,
        _ => spec_dns_class_mnemonic(c),
    }
}

/// Name of a class.
pub fn dns_class_name(class: DNSClass) -> (s: String)
    ensures
        s@ == spec_dns_class_name(class),
{
    let mut out: Vec<char> = Vec::new();
    match class {
        DNSClass::Unknown(value) => {
            push_str_chars(&mut out, "CLASS");
            push_decimal(&mut out, value as u64);
        },
        DNSClass::OPT(value) => {
            push_str_chars(&mut out, "OPT(");
            push_decimal(&mut out, value as u64);
            push_str_chars(&mut out, ")");
        },
        _ => {
            push_str_chars(&mut out, class.mnemonic());
        },
    }
    string_from_chars(out.as_slice())
}

/// Name of an EDNS option code: the variant's name, or `Unknown(code)`.
pub open spec fn spec_edns_code_name(code: EdnsCode) -> Seq<char> {
    match code {
        EdnsCode::Reserved => "Reserved"@,
        EdnsCode::Llq => "Llq"@,
        EdnsCode::UpdateLease => "UpdateLease"@,
        EdnsCode::Nsid => "Nsid"@,
        EdnsCode::Esu => "Esu"@,
        EdnsCode::Dau => "Dau"@,
        EdnsCode::Dhu => "Dhu"@,
        EdnsCode::N3u => "N3u"@,
        EdnsCode::Subnet => "Subnet"@,
        EdnsCode::Expire => "Expire"@,
        EdnsCode::Cookie => "Cookie"@,
        EdnsCode::TcpKeepalive => "TcpKeepalive"@,
        EdnsCode::Padding => "Padding"@,
        EdnsCode::Chain => "Chain"@,
        EdnsCode::KeyTag => "KeyTag"@,
        EdnsCode::ExtendedDnsError => "ExtendedDnsError"@,
        EdnsCode::ClientTag => "ClientTag"@,
        EdnsCode::ServerTag => "ServerTag"@,
        EdnsCode::ReportChannel => "ReportChannel"@,
        EdnsCode::ZoneVersion => "ZoneVersion"@,
        EdnsCode::Unknown(v) => "Unknown("@ + spec_decimal(v as nat) + ")"@,
    }
}

/// Name of an EDNS option code.
pub fn edns_code_name(code: EdnsCode) -> (s: String)
    ensures
        s@ == spec_edns_code_name(code),
{
    let mut out: Vec<char> = Vec::new();
    match code {
        EdnsCode::Reserved => push_str_chars(&mut out, "Reserved"),
        EdnsCode::Llq => push_str_chars(&mut out, "Llq"),
        EdnsCode::UpdateLease => push_str_chars(&mut out, "UpdateLease"),
        EdnsCode::Nsid => push_str_chars(&mut out, "Nsid"),
        EdnsCode::Esu => push_str_chars(&mut out, "Esu"),
        EdnsCode::Dau => push_str_chars(&mut out, "Dau"),
        EdnsCode::Dhu => push_str_chars(&mut out, "Dhu"),
        EdnsCode::N3u => push_str_chars(&mut out, "N3u"),
        EdnsCode::Subnet => push_str_chars(&mut out, "Subnet"),
        EdnsCode::Expire => push_str_chars(&mut out, "Expire"),
        EdnsCode::Cookie => push_str_chars(&mut out, "Cookie"),
        EdnsCode::TcpKeepalive => push_str_chars(&mut out, "TcpKeepalive"),
        EdnsCode::Padding => push_str_chars(&mut out, "Padding"),
        EdnsCode::Chain => push_str_chars(&mut out, "Chain"),
        EdnsCode::KeyTag => push_str_chars(&mut out, "KeyTag"),
        EdnsCode::ExtendedDnsError => push_str_chars(&mut out, "ExtendedDnsError"),
        EdnsCode::ClientTag => push_str_chars(&mut out, "ClientTag"),
        EdnsCode::ServerTag => push_str_chars(&mut out, "ServerTag"),
        EdnsCode::ReportChannel => push_str_chars(&mut out, "ReportChannel"),
        EdnsCode::ZoneVersion => push_str_chars(&mut out, "ZoneVersion"),
        EdnsCode::Unknown(value) => {
            push_str_chars(&mut out, "Unknown(");
            push_decimal(&mut out, value as u64);
            push_str_chars(&mut out, ")");
        },
    }
    string_from_chars(out.as_slice())
}

/// Presentation name of an SVCB parameter key (RFC 9460 section 14.3.2).
pub open spec fn spec_svcb_param_name(key: u16) -> Seq<char> {
    match key {
        0 => "mandatory"@,
        1 => "alpn"@,
        2 => "no-default-alpn"@,
        3 => "port"@,
        4 => "ipv4hint"@,
        5 => "ech"@,
        6 => "ipv6hint"@,
        7 => "dohpath"@,
        8 => "ohttp"@,
        _ => "unknown"@,
    }
}

/// Presentation name of an SVCB parameter key.
pub fn svcb_param_name(key: u16) -> (s: &'static str)
    ensures
        s@ == spec_svcb_param_name(key),
{
    proof {
        reveal_strlit("mandatory");
        reveal_strlit("alpn");
        reveal_strlit("no-default-alpn");
        reveal_strlit("port");
        reveal_strlit("ipv4hint");
        reveal_strlit("ech");
        reveal_strlit("ipv6hint");
        reveal_strlit("dohpath");
        reveal_strlit("ohttp");
        reveal_strlit("unknown");
    }
    match key {
        0 => "mandatory",
        1 => "alpn",
        2 => "no-default-alpn",
        3 => "port",
        4 => "ipv4hint",
        5 => "ech",
        6 => "ipv6hint",
        7 => "dohpath",
        8 => "ohttp",
        _ => "unknown",
    }
}

} // verus!
