//! Structured payload of a record's data, as the query recorder stores it:
//! each field by name, as a plain value.

use vstd::prelude::*;
use crate::edns_summary::{
    FieldValue, b64, field_bool, field_number, field_text, num, one,
};
use crate::name::{Name, spec_fqdn};
use crate::names::{record_type_name, spec_record_type_name, spec_svcb_param_name, svcb_param_name};
use crate::payload_text::{
    base64_standard_encoded, bytes_to_text_or_base64, debug_form, rdata_debug_text, spec_text_or_base64, text,
};
use crate::rdata::RData;
use crate::rdata::basic::{TXT, spec_txt_chunks};
use crate::rdata::service::{
    SvcParam, SvcParamValue, SVCB, spec_alpn_ok, spec_hint, spec_svc_value_kind, spec_u16_list,
};
use crate::rdata::txt_text::{utf8_decode, utf8_text};
use crate::types::{RecordType, spec_record_type_from_u16};
use crate::v2ray_dat::{push_dotted, push_ipv6_text, spec_dotted, spec_ipv6_text};
use crate::text::string_from_chars;

verus! {

/// Field `name` holds the signed number `n`.
pub open spec fn field_signed(f: (String, FieldValue), name: Seq<char>, n: i64) -> bool {
    f.0@ == name && f.1 == FieldValue::Signed(n)
}

/// Field `name` holds the text `t` when `o` has one, and is null otherwise.
pub open spec fn field_opt_text(f: (String, FieldValue), name: Seq<char>, o: Option<Seq<char>>) -> bool {
    match o {
        Some(t) => field_text(f, name, t),
        None => f.0@ == name && f.1 == FieldValue::Null,
    }
}

/// `v` is the text `t`.
pub open spec fn is_text(v: FieldValue, t: Seq<char>) -> bool {
    v matches FieldValue::Text(s) && s@ == t
}

/// Field `name` holds the list of texts `ts`, in order.
pub open spec fn field_texts(f: (String, FieldValue), name: Seq<char>, ts: Seq<Seq<char>>) -> bool {
    &&& f.0@ == name
    &&& f.1 matches FieldValue::List(v) && v@.len() == ts.len() && forall|i: int|
        0 <= i < ts.len() ==> is_text(#[trigger] v@[i], ts[i])
}

/// Names of record types, in order.
pub open spec fn spec_type_names(ts: Seq<RecordType>) -> Seq<Seq<char>> {
    ts.map_values(|t: RecordType| spec_record_type_name(t))
}

/// Every chunk is UTF-8.
pub open spec fn spec_all_utf8(cs: Seq<Seq<u8>>) -> bool {
    forall|i: int| 0 <= i < cs.len() ==> (#[trigger] utf8_text(cs[i])) is Some
}

/// `v` is the UTF-8 text of `c`.
pub open spec fn is_utf8_text_of(v: FieldValue, c: Seq<u8>) -> bool {
    match utf8_text(c) {
        Some(t) => is_text(v, t),
        None => false,
    }
}

/// One part of a TXT payload: `{"text": ..}` when it is UTF-8, else
/// `{"data_base64": ..}`.
pub open spec fn is_txt_part(v: FieldValue, c: Seq<u8>) -> bool {
    &&& v matches FieldValue::Object(o) && o@.len() == 1 && match utf8_text(c) {
        Some(t) => field_text(o@[0], "text"@, t),
        None => field_text(o@[0], "data_base64"@, base64_standard_encoded(c)),
    }
}

/// The one field of a TXT-form payload: `strings` with every chunk's text
/// when all chunks are UTF-8, `parts` with each chunk as a part otherwise.
pub open spec fn field_txt(f: (String, FieldValue), cs: Seq<Seq<u8>>) -> bool {
    if spec_all_utf8(cs) {
        &&& f.0@ == "strings"@
        &&& f.1 matches FieldValue::List(v) && v@.len() == cs.len() && forall|i: int|
            0 <= i < cs.len() ==> is_utf8_text_of(#[trigger] v@[i], cs[i])
    } else {
        &&& f.0@ == "parts"@
        &&& f.1 matches FieldValue::List(v) && v@.len() == cs.len() && forall|i: int|
            0 <= i < cs.len() ==> is_txt_part(#[trigger] v@[i], cs[i])
    }
}

/// Bytes as two fields, `name` and `name_base64`: the text in the first and
/// null in the second when they are UTF-8, the other way round with their
/// base64 otherwise.
pub open spec fn fields_text_or_base64(
    f: (String, FieldValue),
    g: (String, FieldValue),
    name: Seq<char>,
    bytes: Seq<u8>,
) -> bool {
    match utf8_text(bytes) {
        Some(t) => field_text(f, name, t) && field_opt_text(g, name + "_base64"@, None),
        None => field_opt_text(f, name, None) && field_text(
            g,
            name + "_base64"@,
            base64_standard_encoded(bytes),
        ),
    }
}

/// One SVCB parameter: its key, the key's name, its value in base64 and
/// the typed reading of the value.
pub open spec fn is_svc_param(v: FieldValue, p: SvcParam) -> bool {
    &&& v matches FieldValue::Object(o) && o@.len() == 4 && field_number(o@[0], "key"@, p.key as u64)
        && field_text(o@[1], "name"@, spec_svcb_param_name(p.key)) && field_text(
        o@[2],
        "value_base64"@,
        base64_standard_encoded(p.value@),
    ) && o@[3].0@ == "parsed"@ && is_parsed_object(o@[3].1, p)
}

/// An object of one field: the typed reading of the parameter's value.
pub open spec fn is_parsed_object(v: FieldValue, p: SvcParam) -> bool {
    v matches FieldValue::Object(q) && q@.len() == 1 && spec_parsed_field(p.key, p.value@, q@[0])
}

/// Field `name` holds the list of numbers `ns`, in order.
pub open spec fn field_number_list(f: (String, FieldValue), name: Seq<char>, ns: Seq<u16>) -> bool {
    &&& f.0@ == name
    &&& f.1 matches FieldValue::List(v) && v@.len() == ns.len() && forall|i: int|
        0 <= i < ns.len() ==> #[trigger] v@[i] == FieldValue::Number(ns[i] as u64)
}

/// The typed reading of an SVCB parameter's value as one field: the
/// mandatory keys, ALPN ids (as text, or base64 where not UTF-8), flags,
/// the port, address hints as text, the ECH configuration in base64, the
/// DoH path as text (or base64); `unknown` for a value that does not follow
/// its key's format or a key with no reading.
pub open spec fn spec_parsed_field(key: u16, v: Seq<u8>, f: (String, FieldValue)) -> bool {
    if key == 1 {
        if spec_alpn_ok(v) {
            field_texts(f, "alpn"@, spec_txt_chunks(v).map_values(|c: Seq<u8>| spec_text_or_base64(c)))
        } else {
            field_bool(f, "unknown"@, true)
        }
    } else {
        match spec_svc_value_kind(key, v) {
            Some(0) => field_number_list(f, "mandatory"@, spec_u16_list(v)),
            Some(2) => field_bool(f, "no_default_alpn"@, true),
            Some(3) => field_number(f, "port"@, ((v[0] as int * 256 + v[1] as int) as u16) as u64),
            Some(4) => field_texts(f, "ipv4_hint"@, Seq::new(v.len() / 4, |i: int| spec_dotted(spec_hint(v, 4, i)))),
            Some(5) => field_text(f, "ech_base64"@, base64_standard_encoded(v)),
            Some(6) => field_texts(
                f,
                "ipv6_hint"@,
                Seq::new(v.len() / 16, |i: int| spec_ipv6_text(spec_hint(v, 16, i))),
            ),
            Some(7) => match utf8_text(v) {
                Some(t) => field_text(f, "doh_path"@, t),
                None => field_text(f, "doh_path_base64"@, base64_standard_encoded(v)),
            },
            Some(8) => field_bool(f, "ohttp"@, true),
            _ => field_bool(f, "unknown"@, true),
        }
    }
}

/// Fields of an SVCB-form payload.
pub open spec fn spec_svcb_fields(x: SVCB, fs: Seq<(String, FieldValue)>) -> bool {
    &&& fs.len() == 3
    &&& field_number(fs[0], "priority"@, x.priority as u64)
    &&& field_text(fs[1], "target"@, spec_fqdn(x.target@))
    &&& fs[2].0@ == "params"@
    &&& fs[2].1 matches FieldValue::List(v) && v@.len() == x.params@.len() && forall|i: int|
        0 <= i < x.params@.len() ==> is_svc_param(#[trigger] v@[i], x.params@[i])
}

/// Fields of an RRSIG-form payload.
pub open spec fn spec_rrsig_fields(x: crate::rdata::dnssec::RRSIG, fs: Seq<(String, FieldValue)>) -> bool {
    &&& fs.len() == 9
    &&& field_text(fs[0], "type_covered"@, spec_record_type_name(spec_record_type_from_u16(x.type_covered)))
    &&& field_number(fs[1], "algorithm"@, x.algorithm as u64)
    &&& field_number(fs[2], "labels"@, x.labels as u64)
    &&& field_number(fs[3], "orig_ttl"@, x.orig_ttl as u64)
    &&& field_number(fs[4], "expiration"@, x.expiration as u64)
    &&& field_number(fs[5], "inception"@, x.inception as u64)
    &&& field_number(fs[6], "key_tag"@, x.key_tag as u64)
    &&& field_text(fs[7], "signer_name"@, spec_fqdn(x.signer_name@))
    &&& field_text(fs[8], "signature_base64"@, base64_standard_encoded(x.signature@))
}

/// Fields of a DNSKEY-form payload.
pub open spec fn spec_dnskey_fields(x: crate::rdata::dnssec::DNSKEY, fs: Seq<(String, FieldValue)>) -> bool {
    &&& fs.len() == 4
    &&& field_number(fs[0], "flags"@, x.flags as u64)
    &&& field_number(fs[1], "protocol"@, x.protocol as u64)
    &&& field_number(fs[2], "algorithm"@, x.algorithm as u64)
    &&& field_text(fs[3], "public_key_base64"@, base64_standard_encoded(x.public_key@))
}

/// Fields of a DS-form payload.
pub open spec fn spec_ds_fields(x: crate::rdata::dnssec::DS, fs: Seq<(String, FieldValue)>) -> bool {
    &&& fs.len() == 4
    &&& field_number(fs[0], "key_tag"@, x.key_tag as u64)
    &&& field_number(fs[1], "algorithm"@, x.algorithm as u64)
    &&& field_number(fs[2], "digest_type"@, x.digest_type as u64)
    &&& field_text(fs[3], "digest_base64"@, base64_standard_encoded(x.digest@))
}

/// Fields of a TLSA-form payload.
pub open spec fn spec_tlsa_fields(x: crate::rdata::dnssec::TLSA, fs: Seq<(String, FieldValue)>) -> bool {
    &&& fs.len() == 4
    &&& field_number(fs[0], "usage"@, x.usage as u64)
    &&& field_number(fs[1], "selector"@, x.selector as u64)
    &&& field_number(fs[2], "matching_type"@, x.matching_type as u64)
    &&& field_text(fs[3], "certificate_base64"@, base64_standard_encoded(x.certificate@))
}

/// A payload of one field, the name `name` holding the domain name `n` in
/// fully qualified form.
pub open spec fn spec_name_field(fs: Seq<(String, FieldValue)>, name: Seq<char>, n: Name) -> bool {
    fs.len() == 1 && field_text(fs[0], name, spec_fqdn(n@))
}

/// The fields recorded for a record's data: numbers as numbers, names in
/// fully qualified form, byte strings in base64 (or as text where they are
/// read as UTF-8), type bit maps as lists of type names; a type with no
/// field form is recorded as its debug form under `display`.
pub open spec fn spec_rdata_payload_fields(d: RData, fs: Seq<(String, FieldValue)>) -> bool {
    match d {
        RData::A(x) => fs.len() == 1 && field_text(fs[0], "ip"@, spec_dotted(x.0@)),
        RData::AAAA(x) => fs.len() == 1 && field_text(fs[0], "ip"@, spec_ipv6_text(x.0@)),
        RData::CNAME(x) => spec_name_field(fs, "target"@, x.0),
        RData::NS(x) => spec_name_field(fs, "target"@, x.0),
        RData::PTR(x) => spec_name_field(fs, "target"@, x.0),
        RData::DNAME(x) => spec_name_field(fs, "target"@, x.0),
        RData::MD(x) => spec_name_field(fs, "target"@, x.0),
        RData::MF(x) => spec_name_field(fs, "target"@, x.0),
        RData::MB(x) => spec_name_field(fs, "target"@, x.0),
        RData::MG(x) => spec_name_field(fs, "target"@, x.0),
        RData::MR(x) => spec_name_field(fs, "target"@, x.0),
        RData::ANAME(x) => spec_name_field(fs, "target"@, x.0),
        RData::NSAPPTR(x) => spec_name_field(fs, "target"@, x.0),
        RData::MX(x) => fs.len() == 2 && field_number(fs[0], "preference"@, x.preference as u64)
            && field_text(fs[1], "exchange"@, spec_fqdn(x.exchange@)),
        RData::KX(x) => fs.len() == 2 && field_number(fs[0], "preference"@, x.preference as u64)
            && field_text(fs[1], "exchange"@, spec_fqdn(x.exchanger@)),
        RData::SRV(x) => fs.len() == 4 && field_number(fs[0], "priority"@, x.priority as u64)
            && field_number(fs[1], "weight"@, x.weight as u64) && field_number(fs[2], "port"@, x.port as u64)
            && field_text(fs[3], "target"@, spec_fqdn(x.target@)),
        RData::SOA(x) => {
            &&& fs.len() == 7
            &&& field_text(fs[0], "mname"@, spec_fqdn(x.mname@))
            &&& field_text(fs[1], "rname"@, spec_fqdn(x.rname@))
            &&& field_number(fs[2], "serial"@, x.serial as u64)
            &&& field_signed(fs[3], "refresh"@, x.refresh as i64)
            &&& field_signed(fs[4], "retry"@, x.retry as i64)
            &&& field_signed(fs[5], "expire"@, x.expire as i64)
            &&& field_number(fs[6], "minimum"@, x.minimum as u64)
        },
        RData::TXT(x) => fs.len() == 1 && field_txt(fs[0], spec_txt_chunks(x.wire@)),
        RData::SPF(x) => fs.len() == 1 && field_txt(fs[0], spec_txt_chunks(x.0.wire@)),
        RData::CAA(x) => {
            &&& fs.len() == 5
            &&& field_number(fs[0], "flag"@, x.flag as u64)
            &&& fields_text_or_base64(fs[1], fs[2], "tag"@, x.tag@)
            &&& fields_text_or_base64(fs[3], fs[4], "value"@, x.value@)
        },
        RData::URI(x) => {
            &&& fs.len() == 4
            &&& field_number(fs[0], "priority"@, x.priority as u64)
            &&& field_number(fs[1], "weight"@, x.weight as u64)
            &&& fields_text_or_base64(fs[2], fs[3], "target"@, x.target@)
        },
        RData::SVCB(x) => spec_svcb_fields(x, fs),
        RData::HTTPS(x) => spec_svcb_fields(x.0, fs),
        RData::RRSIG(x) => spec_rrsig_fields(x, fs),
        RData::SIG(x) => spec_rrsig_fields(x.0, fs),
        RData::NSEC(x) => {
            &&& fs.len() == 3
            &&& field_text(fs[0], "next_domain"@, spec_fqdn(x.next_domain@))
            &&& field_texts(fs[1], "type_bitmap"@, spec_type_names(x.type_bitmap.types@))
            &&& field_text(fs[2], "type_bitmap_base64"@, base64_standard_encoded(x.type_bitmap.wire@))
        },
        RData::NSEC3(x) => {
            &&& fs.len() == 7
            &&& field_number(fs[0], "hash"@, x.hash as u64)
            &&& field_number(fs[1], "flags"@, x.flags as u64)
            &&& field_number(fs[2], "iterations"@, x.iterations as u64)
            &&& field_text(fs[3], "salt_base64"@, base64_standard_encoded(x.salt@))
            &&& field_text(fs[4], "next_domain_base64"@, base64_standard_encoded(x.next_domain@))
            &&& field_texts(fs[5], "type_bitmap"@, spec_type_names(x.type_bitmap.types@))
            &&& field_text(fs[6], "type_bitmap_base64"@, base64_standard_encoded(x.type_bitmap.wire@))
        },
        RData::NSEC3PARAM(x) => {
            &&& fs.len() == 4
            &&& field_number(fs[0], "hash"@, x.hash as u64)
            &&& field_number(fs[1], "flags"@, x.flags as u64)
            &&& field_number(fs[2], "iterations"@, x.iterations as u64)
            &&& field_text(fs[3], "salt_base64"@, base64_standard_encoded(x.salt@))
        },
        RData::DNSKEY(x) => spec_dnskey_fields(x, fs),
        RData::CDNSKEY(x) => spec_dnskey_fields(x.0, fs),
        RData::DS(x) => spec_ds_fields(x, fs),
        RData::CDS(x) => spec_ds_fields(x.0, fs),
        RData::DLV(x) => spec_ds_fields(x.0, fs),
        RData::TA(x) => spec_ds_fields(x.0, fs),
        RData::TLSA(x) => spec_tlsa_fields(x, fs),
        RData::SMIMEA(x) => spec_tlsa_fields(x.0, fs),
        RData::SSHFP(x) => {
            &&& fs.len() == 3
            &&& field_number(fs[0], "algorithm"@, x.algorithm as u64)
            &&& field_number(fs[1], "fp_type"@, x.fp_type as u64)
            &&& field_text(fs[2], "fingerprint_base64"@, base64_standard_encoded(x.fingerprint@))
        },
        RData::OPENPGPKEY(x) => fs.len() == 1 && field_text(fs[0], "public_key_base64"@, base64_standard_encoded(x.0@)),
        RData::NULL(x) => fs.len() == 1 && field_text(fs[0], "data_base64"@, base64_standard_encoded(x.data@)),
        RData::OPT(_) => fs.len() == 0,
        RData::Unknown { rr_type, data } => fs.len() == 2 && field_number(fs[0], "unknown_rr_type"@, rr_type as u64)
            && field_text(fs[1], "data_base64"@, base64_standard_encoded(data@)),
        _ => fs.len() == 1 && field_text(fs[0], "display"@, rdata_debug_text(d)),
    }
}

fn signed(name: &str, n: i64) -> (f: (String, FieldValue))
    ensures
        field_signed(f, name@, n),
{
    (text(name), FieldValue::Signed(n))
}

fn fqdn(name: &str, n: &Name) -> (f: (String, FieldValue))
    ensures
        field_text(f, name@, spec_fqdn(n@)),
{
    (text(name), FieldValue::Text(n.to_fqdn()))
}

fn text_field(name: &str, s: String) -> (f: (String, FieldValue))
    ensures
        field_text(f, name@, s@),
{
    (text(name), FieldValue::Text(s))
}

fn chars_field(name: &str, v: Vec<char>) -> (f: (String, FieldValue))
    ensures
        field_text(f, name@, v@),
{
    (text(name), FieldValue::Text(string_from_chars(v.as_slice())))
}

/// `name` and `name_base64` for bytes that are text or not.
fn text_or_base64_fields(out: &mut Vec<(String, FieldValue)>, name: &str, base64_name: &str, bytes: &[u8])
    requires
        base64_name@ == name@ + "_base64"@,
    ensures
        final(out)@.len() == old(out)@.len() + 2,
        forall|i: int| 0 <= i < old(out)@.len() ==> final(out)@[i] == old(out)@[i],
        fields_text_or_base64(final(out)@[old(out)@.len() as int], final(out)@[old(out)@.len() + 1int], name@, bytes@),
{
    match utf8_decode(bytes) {
        Some(t) => {
            out.push(text_field(name, t));
            out.push((text(base64_name), FieldValue::Null));
        },
        None => {
            out.push((text(name), FieldValue::Null));
            out.push(b64(base64_name, bytes));
        },
    }
}

/// Type names of a bit map, in order.
fn type_names_field(name: &str, types: &[RecordType]) -> (f: (String, FieldValue))
    ensures
        field_texts(f, name@, spec_type_names(types@)),
{
    let mut v: Vec<FieldValue> = Vec::new();
    let mut i: usize = 0;
    while i < types.len()
        invariant
            i <= types@.len(),
            v@.len() == i,
            forall|k: int| 0 <= k < i ==> is_text(#[trigger] v@[k], spec_record_type_name(types@[k])),
        decreases types.len() - i,
    {
        v.push(FieldValue::Text(record_type_name(types[i])));
        i = i + 1;
    }
    (text(name), FieldValue::List(v))
}

/// The one field of a TXT-form payload.
fn txt_field(value: &TXT) -> (f: (String, FieldValue))
    ensures
        field_txt(f, spec_txt_chunks(value.wire@)),
{
    let chunks = value.txt_data();
    let ghost cs = spec_txt_chunks(value.wire@);
    let mut strings: Vec<FieldValue> = Vec::new();
    let mut parts: Vec<FieldValue> = Vec::new();
    let mut all_utf8 = true;
    let mut i: usize = 0;
    while i < chunks.len()
        invariant
            i <= chunks@.len(),
            chunks@.len() == cs.len(),
            forall|k: int| 0 <= k < chunks@.len() ==> #[trigger] chunks@[k]@ == cs[k],
            parts@.len() == i,
            forall|k: int| 0 <= k < i ==> is_txt_part(#[trigger] parts@[k], cs[k]),
            all_utf8 <==> forall|k: int| 0 <= k < i ==> (#[trigger] utf8_text(cs[k])) is Some,
            all_utf8 ==> strings@.len() == i,
            all_utf8 ==> forall|k: int| 0 <= k < i ==> is_utf8_text_of(#[trigger] strings@[k], cs[k]),
        decreases chunks.len() - i,
    {
        let c = chunks[i].as_slice();
        proof {
            assert(c@ == cs[i as int]);
        }
        match utf8_decode(c) {
            Some(t) => {
                let copy = text(t.as_str());
                let part = one(text_field("text", copy));
                strings.push(FieldValue::Text(t));
                parts.push(FieldValue::Object(part));
            },
            None => {
                all_utf8 = false;
                let part = one(b64("data_base64", c));
                parts.push(FieldValue::Object(part));
            },
        }
        i = i + 1;
    }
    if all_utf8 {
        (text("strings"), FieldValue::List(strings))
    } else {
        (text("parts"), FieldValue::List(parts))
    }
}

/// One SVCB parameter as an object.
fn svc_param_field(p: &SvcParam) -> (v: FieldValue)
    ensures
        is_svc_param(v, *p),
{
    let mut o: Vec<(String, FieldValue)> = Vec::new();
    o.push(num("key", p.key as u64));
    o.push((text("name"), FieldValue::Text(text(svcb_param_name(p.key)))));
    o.push(b64("value_base64", p.value.as_slice()));
    o.push((text("parsed"), FieldValue::Object(one(parsed_field(p)))));
    FieldValue::Object(o)
}

/// The typed reading of a parameter's value, as one field.
fn parsed_field(p: &SvcParam) -> (f: (String, FieldValue))
    ensures
        spec_parsed_field(p.key, p.value@, f),
{
    let pv = p.parsed();
    match pv {
        SvcParamValue::Mandatory(keys) => {
            let mut l: Vec<FieldValue> = Vec::new();
            let mut i: usize = 0;
            while i < keys.len()
                invariant
                    i <= keys@.len(),
                    l@.len() == i,
                    forall|k: int| 0 <= k < i ==> #[trigger] l@[k] == FieldValue::Number(keys@[k] as u64),
                decreases keys.len() - i,
            {
                l.push(FieldValue::Number(keys[i] as u64));
                i = i + 1;
            }
            (text("mandatory"), FieldValue::List(l))
        },
        SvcParamValue::Alpn(ids) => {
            let mut l: Vec<FieldValue> = Vec::new();
            let mut i: usize = 0;
            while i < ids.len()
                invariant
                    i <= ids@.len(),
                    l@.len() == i,
                    forall|k: int| 0 <= k < i ==> is_text(#[trigger] l@[k], spec_text_or_base64(ids@[k]@)),
                decreases ids.len() - i,
            {
                let t = bytes_to_text_or_base64(ids[i].as_slice());
                l.push(FieldValue::Text(t.text));
                i = i + 1;
            }
            (text("alpn"), FieldValue::List(l))
        },
        SvcParamValue::NoDefaultAlpn => (text("no_default_alpn"), FieldValue::Bool(true)),
        SvcParamValue::Port(port) => num("port", port as u64),
        SvcParamValue::Ipv4Hint(hs) => {
            let mut l: Vec<FieldValue> = Vec::new();
            let mut i: usize = 0;
            while i < hs.len()
                invariant
                    i <= hs@.len(),
                    l@.len() == i,
                    forall|k: int| 0 <= k < i ==> is_text(#[trigger] l@[k], spec_dotted(hs@[k]@)),
                decreases hs.len() - i,
            {
                let mut c: Vec<char> = Vec::new();
                push_dotted(&mut c, &hs[i]);
                l.push(FieldValue::Text(string_from_chars(c.as_slice())));
                i = i + 1;
            }
            (text("ipv4_hint"), FieldValue::List(l))
        },
        SvcParamValue::Ech(e) => b64("ech_base64", e.as_slice()),
        SvcParamValue::Ipv6Hint(hs) => {
            let mut l: Vec<FieldValue> = Vec::new();
            let mut i: usize = 0;
            while i < hs.len()
                invariant
                    i <= hs@.len(),
                    l@.len() == i,
                    forall|k: int| 0 <= k < i ==> is_text(#[trigger] l@[k], spec_ipv6_text(hs@[k]@)),
                decreases hs.len() - i,
            {
                let mut c: Vec<char> = Vec::new();
                push_ipv6_text(&mut c, &hs[i]);
                l.push(FieldValue::Text(string_from_chars(c.as_slice())));
                i = i + 1;
            }
            (text("ipv6_hint"), FieldValue::List(l))
        },
        SvcParamValue::DohPath(e) => match utf8_decode(e.as_slice()) {
            Some(t) => text_field("doh_path", t),
            None => b64("doh_path_base64", e.as_slice()),
        },
        SvcParamValue::Ohttp => (text("ohttp"), FieldValue::Bool(true)),
        SvcParamValue::Unknown => (text("unknown"), FieldValue::Bool(true)),
    }
}

fn svcb_fields(x: &SVCB) -> (fs: Vec<(String, FieldValue)>)
    ensures
        spec_svcb_fields(*x, fs@),
{
    let mut params: Vec<FieldValue> = Vec::new();
    let mut i: usize = 0;
    while i < x.params.len()
        invariant
            i <= x.params@.len(),
            params@.len() == i,
            forall|k: int| 0 <= k < i ==> is_svc_param(#[trigger] params@[k], x.params@[k]),
        decreases x.params.len() - i,
    {
        params.push(svc_param_field(&x.params[i]));
        i = i + 1;
    }
    let mut fs: Vec<(String, FieldValue)> = Vec::new();
    fs.push(num("priority", x.priority as u64));
    fs.push(fqdn("target", &x.target));
    fs.push((text("params"), FieldValue::List(params)));
    fs
}

fn rrsig_fields(x: &crate::rdata::dnssec::RRSIG) -> (fs: Vec<(String, FieldValue)>)
    ensures
        spec_rrsig_fields(*x, fs@),
{
    let mut fs: Vec<(String, FieldValue)> = Vec::new();
    fs.push(text_field("type_covered", record_type_name(RecordType::from_u16(x.type_covered))));
    fs.push(num("algorithm", x.algorithm as u64));
    fs.push(num("labels", x.labels as u64));
    fs.push(num("orig_ttl", x.orig_ttl as u64));
    fs.push(num("expiration", x.expiration as u64));
    fs.push(num("inception", x.inception as u64));
    fs.push(num("key_tag", x.key_tag as u64));
    fs.push(fqdn("signer_name", &x.signer_name));
    fs.push(b64("signature_base64", x.signature.as_slice()));
    fs
}

fn dnskey_fields(x: &crate::rdata::dnssec::DNSKEY) -> (fs: Vec<(String, FieldValue)>)
    ensures
        spec_dnskey_fields(*x, fs@),
{
    let mut fs: Vec<(String, FieldValue)> = Vec::new();
    fs.push(num("flags", x.flags as u64));
    fs.push(num("protocol", x.protocol as u64));
    fs.push(num("algorithm", x.algorithm as u64));
    fs.push(b64("public_key_base64", x.public_key.as_slice()));
    fs
}

fn ds_fields(x: &crate::rdata::dnssec::DS) -> (fs: Vec<(String, FieldValue)>)
    ensures
        spec_ds_fields(*x, fs@),
{
    let mut fs: Vec<(String, FieldValue)> = Vec::new();
    fs.push(num("key_tag", x.key_tag as u64));
    fs.push(num("algorithm", x.algorithm as u64));
    fs.push(num("digest_type", x.digest_type as u64));
    fs.push(b64("digest_base64", x.digest.as_slice()));
    fs
}

fn tlsa_fields(x: &crate::rdata::dnssec::TLSA) -> (fs: Vec<(String, FieldValue)>)
    ensures
        spec_tlsa_fields(*x, fs@),
{
    let mut fs: Vec<(String, FieldValue)> = Vec::new();
    fs.push(num("usage", x.usage as u64));
    fs.push(num("selector", x.selector as u64));
    fs.push(num("matching_type", x.matching_type as u64));
    fs.push(b64("certificate_base64", x.certificate.as_slice()));
    fs
}

/// The fields that the query recorder stores as a record's payload.
pub fn rdata_payload_fields(rdata: &RData) -> (fs: Vec<(String, FieldValue)>)
    ensures
        spec_rdata_payload_fields(*rdata, fs@),
{
    match rdata {
        RData::A(x) => {
            let mut v: Vec<char> = Vec::new();
            push_dotted(&mut v, &x.0);
            one(chars_field("ip", v))
        },
        RData::AAAA(x) => {
            let mut v: Vec<char> = Vec::new();
            push_ipv6_text(&mut v, &x.0);
            one(chars_field("ip", v))
        },
        RData::CNAME(x) => one(fqdn("target", &x.0)),
        RData::NS(x) => one(fqdn("target", &x.0)),
        RData::PTR(x) => one(fqdn("target", &x.0)),
        RData::DNAME(x) => one(fqdn("target", &x.0)),
        RData::MD(x) => one(fqdn("target", &x.0)),
        RData::MF(x) => one(fqdn("target", &x.0)),
        RData::MB(x) => one(fqdn("target", &x.0)),
        RData::MG(x) => one(fqdn("target", &x.0)),
        RData::MR(x) => one(fqdn("target", &x.0)),
        RData::ANAME(x) => one(fqdn("target", &x.0)),
        RData::NSAPPTR(x) => one(fqdn("target", &x.0)),
        RData::MX(x) => {
            let mut fs: Vec<(String, FieldValue)> = Vec::new();
            fs.push(num("preference", x.preference as u64));
            fs.push(fqdn("exchange", &x.exchange));
            fs
        },
        RData::KX(x) => {
            let mut fs: Vec<(String, FieldValue)> = Vec::new();
            fs.push(num("preference", x.preference as u64));
            fs.push(fqdn("exchange", &x.exchanger));
            fs
        },
        RData::SRV(x) => {
            let mut fs: Vec<(String, FieldValue)> = Vec::new();
            fs.push(num("priority", x.priority as u64));
            fs.push(num("weight", x.weight as u64));
            fs.push(num("port", x.port as u64));
            fs.push(fqdn("target", &x.target));
            fs
        },
        RData::SOA(x) => {
            let mut fs: Vec<(String, FieldValue)> = Vec::new();
            fs.push(fqdn("mname", &x.mname));
            fs.push(fqdn("rname", &x.rname));
            fs.push(num("serial", x.serial as u64));
            fs.push(signed("refresh", x.refresh as i64));
            fs.push(signed("retry", x.retry as i64));
            fs.push(signed("expire", x.expire as i64));
            fs.push(num("minimum", x.minimum as u64));
            fs
        },
        RData::TXT(x) => one(txt_field(x)),
        RData::SPF(x) => one(txt_field(&x.0)),
        RData::CAA(x) => {
            let mut fs: Vec<(String, FieldValue)> = Vec::new();
            fs.push(num("flag", x.flag as u64));
            proof {
                reveal_strlit("tag");
                reveal_strlit("tag_base64");
                reveal_strlit("value");
                reveal_strlit("value_base64");
                reveal_strlit("_base64");
                assert("tag_base64"@ =~= "tag"@ + "_base64"@);
                assert("value_base64"@ =~= "value"@ + "_base64"@);
            }
            text_or_base64_fields(&mut fs, "tag", "tag_base64", x.tag.as_slice());
            text_or_base64_fields(&mut fs, "value", "value_base64", x.value.as_slice());
            fs
        },
        RData::URI(x) => {
            let mut fs: Vec<(String, FieldValue)> = Vec::new();
            fs.push(num("priority", x.priority as u64));
            fs.push(num("weight", x.weight as u64));
            proof {
                reveal_strlit("target");
                reveal_strlit("target_base64");
                reveal_strlit("_base64");
                assert("target_base64"@ =~= "target"@ + "_base64"@);
            }
            text_or_base64_fields(&mut fs, "target", "target_base64", x.target.as_slice());
            fs
        },
        RData::SVCB(x) => svcb_fields(x),
        RData::HTTPS(x) => svcb_fields(&x.0),
        RData::RRSIG(x) => rrsig_fields(x),
        RData::SIG(x) => rrsig_fields(&x.0),
        RData::NSEC(x) => {
            let mut fs: Vec<(String, FieldValue)> = Vec::new();
            fs.push(fqdn("next_domain", &x.next_domain));
            fs.push(type_names_field("type_bitmap", x.type_bitmap.types.as_slice()));
            fs.push(b64("type_bitmap_base64", x.type_bitmap.wire.as_slice()));
            fs
        },
        RData::NSEC3(x) => {
            let mut fs: Vec<(String, FieldValue)> = Vec::new();
            fs.push(num("hash", x.hash as u64));
            fs.push(num("flags", x.flags as u64));
            fs.push(num("iterations", x.iterations as u64));
            fs.push(b64("salt_base64", x.salt.as_slice()));
            fs.push(b64("next_domain_base64", x.next_domain.as_slice()));
            fs.push(type_names_field("type_bitmap", x.type_bitmap.types.as_slice()));
            fs.push(b64("type_bitmap_base64", x.type_bitmap.wire.as_slice()));
            fs
        },
        RData::NSEC3PARAM(x) => {
            let mut fs: Vec<(String, FieldValue)> = Vec::new();
            fs.push(num("hash", x.hash as u64));
            fs.push(num("flags", x.flags as u64));
            fs.push(num("iterations", x.iterations as u64));
            fs.push(b64("salt_base64", x.salt.as_slice()));
            fs
        },
        RData::DNSKEY(x) => dnskey_fields(x),
        RData::CDNSKEY(x) => dnskey_fields(&x.0),
        RData::DS(x) => ds_fields(x),
        RData::CDS(x) => ds_fields(&x.0),
        RData::DLV(x) => ds_fields(&x.0),
        RData::TA(x) => ds_fields(&x.0),
        RData::TLSA(x) => tlsa_fields(x),
        RData::SMIMEA(x) => tlsa_fields(&x.0),
        RData::SSHFP(x) => {
            let mut fs: Vec<(String, FieldValue)> = Vec::new();
            fs.push(num("algorithm", x.algorithm as u64));
            fs.push(num("fp_type", x.fp_type as u64));
            fs.push(b64("fingerprint_base64", x.fingerprint.as_slice()));
            fs
        },
        RData::OPENPGPKEY(x) => one(b64("public_key_base64", x.0.as_slice())),
        RData::NULL(x) => one(b64("data_base64", x.data.as_slice())),
        RData::OPT(_) => Vec::new(),
        RData::Unknown { rr_type, data } => {
            let mut fs: Vec<(String, FieldValue)> = Vec::new();
            fs.push(num("unknown_rr_type", *rr_type as u64));
            fs.push(b64("data_base64", data.as_slice()));
            fs
        },
        _ => one(text_field("display", debug_form(rdata))),
    }
}

} // verus!
