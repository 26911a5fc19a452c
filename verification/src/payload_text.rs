//! One-line summaries of record payloads, as the query recorder stores them
//! beside the structured form: a payload kind and a short text.

use vstd::prelude::*;
use base64::Engine;
use crate::name::spec_fqdn;
use crate::rdata::{RData, spec_rdata_rr_type};
use crate::names::{record_type_name, spec_record_type_name};
use crate::rdata::basic::{TXT, spec_txt_chunks};
use crate::rdata::txt_text::{utf8_decode, utf8_text};
use crate::text::{chars_of, push_decimal, push_str_chars, spec_decimal, string_from_chars};
use crate::v2ray_dat::{push_dotted, push_ipv6_text, spec_dotted, spec_ipv6_text};

verus! {

/// What the standard base64 engine (standard alphabet, padded) writes for
/// `bytes`.
pub uninterp spec fn base64_standard_encoded(bytes: Seq<u8>) -> Seq<char>;

/// `base64::engine::general_purpose::STANDARD.encode`: the encoding, which
/// depends on the bytes alone; nothing more is claimed of it.
#[verifier::external_body]
pub(crate) fn base64_encode(bytes: &[u8]) -> (s: String)
    ensures
        s@ == base64_standard_encoded(bytes@),
{
    base64::engine::general_purpose::STANDARD.encode(bytes)
}

/// Bytes shown as text when they are UTF-8, otherwise as base64; the text
/// form, and which of the two it is.
pub struct TextOrBase64 {
    pub text: String,
    pub text_value: Option<String>,
    pub base64_value: Option<String>,
}

/// The text form of `bytes`: their UTF-8 text, or their base64 encoding.
pub open spec fn spec_text_or_base64(bytes: Seq<u8>) -> Seq<char> {
    match utf8_text(bytes) {
        Some(t) => t,
        None => base64_standard_encoded(bytes),
    }
}

/// Show bytes as UTF-8 text, or as base64 when they are not UTF-8.
pub fn bytes_to_text_or_base64(bytes: &[u8]) -> (r: TextOrBase64)
    ensures
        r.text@ == spec_text_or_base64(bytes@),
        match utf8_text(bytes@) {
            Some(t) => r.text_value matches Some(v) && v@ == t && r.base64_value is None,
            None => {
                &&& r.text_value is None
                &&& r.base64_value matches Some(v) && v@ == base64_standard_encoded(bytes@)
            },
        },
{
    match utf8_decode(bytes) {
        Some(text) => {
            let copy = string_from_chars(chars_of(text.as_str()).as_slice());
            TextOrBase64 { text, text_value: Some(copy), base64_value: None }
        },
        None => {
            let encoded = base64_encode(bytes);
            let copy = string_from_chars(chars_of(encoded.as_str()).as_slice());
            TextOrBase64 { text: encoded, text_value: None, base64_value: Some(copy) }
        },
    }
}

/// The UTF-8 chunks of a TXT payload, in order; chunks that are not UTF-8
/// are left out.
pub open spec fn spec_utf8_chunks(chunks: Seq<Seq<u8>>) -> Seq<Seq<char>>
    decreases chunks.len(),
{
    if chunks.len() == 0 {
        Seq::empty()
    } else {
        match utf8_text(chunks.last()) {
            Some(t) => spec_utf8_chunks(chunks.drop_last()).push(t),
            None => spec_utf8_chunks(chunks.drop_last()),
        }
    }
}

/// Texts joined with single spaces.
pub open spec fn spec_join_spaces(ts: Seq<Seq<char>>) -> Seq<char>
    decreases ts.len(),
{
    if ts.len() == 0 {
        Seq::empty()
    } else if ts.len() == 1 {
        ts[0]
    } else {
        spec_join_spaces(ts.drop_last()) + seq![' '] + ts.last()
    }
}

/// Summary of a TXT-form payload: its UTF-8 strings joined by spaces, or
/// the kind when there are none.
pub open spec fn spec_txt_summary(kind: Seq<char>, wire: Seq<u8>) -> Seq<char> {
    let ts = spec_utf8_chunks(spec_txt_chunks(wire));
    if ts.len() == 0 {
        kind
    } else {
        spec_join_spaces(ts)
    }
}

fn txt_summary(kind: &str, value: &TXT) -> (s: String)
    ensures
        s@ == spec_txt_summary(kind@, value.wire@),
{
    let chunks = value.txt_data();
    let ghost cs = spec_txt_chunks(value.wire@);
    let mut out: Vec<char> = Vec::new();
    let mut count: usize = 0;
    let mut i: usize = 0;
    proof {
        assert(cs.take(0) =~= Seq::<Seq<u8>>::empty());
    }
    while i < chunks.len()
        invariant
            i <= chunks@.len(),
            chunks@.len() == cs.len(),
            cs == spec_txt_chunks(value.wire@),
            forall|k: int| 0 <= k < chunks@.len() ==> #[trigger] chunks@[k]@ == cs[k],
            count == spec_utf8_chunks(cs.take(i as int)).len(),
            count <= i,
            out@ == spec_join_spaces(spec_utf8_chunks(cs.take(i as int))),
        decreases chunks.len() - i,
    {
        proof {
            assert(cs.take(i + 1).drop_last() =~= cs.take(i as int));
            assert(cs.take(i + 1).last() == chunks@[i as int]@);
        }
        match utf8_decode(chunks[i].as_slice()) {
            Some(text) => {
                if count > 0 {
                    out.push(' ');
                }
                let ghost before = out@;
                push_str_chars(&mut out, text.as_str());
                proof {
                    let ts = spec_utf8_chunks(cs.take(i + 1));
                    assert(ts == spec_utf8_chunks(cs.take(i as int)).push(text@));
                    if count == 0 {
                        assert(before =~= Seq::<char>::empty());
                        assert(ts.len() == 1);
                        assert(out@ =~= ts[0]);
                    } else {
                        assert(ts.drop_last() == spec_utf8_chunks(cs.take(i as int)));
                        assert(out@ =~= spec_join_spaces(ts.drop_last()) + seq![' '] + ts.last());
                    }
                }
                count = count + 1;
            },
            None => {},
        }
        i = i + 1;
    }
    proof {
        assert(cs.take(cs.len() as int) =~= cs);
    }
    if count == 0 {
        string_from_chars(chars_of(kind).as_slice())
    } else {
        string_from_chars(out.as_slice())
    }
}

/// Payload kind and summary text of a record's data for the types summarized
/// field by field; `None` for the types whose summary is their debug form.
pub open spec fn spec_payload_summary(d: RData) -> Option<(Seq<char>, Seq<char>)> {
    match d {
        RData::A(x) => Some(("A"@, spec_dotted(x.0@))),
        RData::AAAA(x) => Some(("AAAA"@, spec_ipv6_text(x.0@))),
        RData::CNAME(x) => Some(("CNAME"@, spec_fqdn(x.0@))),
        RData::NS(x) => Some(("NS"@, spec_fqdn(x.0@))),
        RData::PTR(x) => Some(("PTR"@, spec_fqdn(x.0@))),
        RData::DNAME(x) => Some(("DNAME"@, spec_fqdn(x.0@))),
        RData::MD(x) => Some(("MD"@, spec_fqdn(x.0@))),
        RData::MF(x) => Some(("MF"@, spec_fqdn(x.0@))),
        RData::MB(x) => Some(("MB"@, spec_fqdn(x.0@))),
        RData::MG(x) => Some(("MG"@, spec_fqdn(x.0@))),
        RData::MR(x) => Some(("MR"@, spec_fqdn(x.0@))),
        RData::ANAME(x) => Some(("ANAME"@, spec_fqdn(x.0@))),
        RData::NSAPPTR(x) => Some(("NSAPPTR"@, spec_fqdn(x.0@))),
        RData::MX(x) => Some(("MX"@, spec_decimal(x.preference as nat) + seq![' '] + spec_fqdn(x.exchange@))),
        RData::KX(x) => Some(("KX"@, spec_decimal(x.preference as nat) + seq![' '] + spec_fqdn(x.exchanger@))),
        RData::SRV(x) => Some(
            (
                "SRV"@,
                spec_decimal(x.priority as nat) + seq![' '] + spec_decimal(x.weight as nat) + seq![' ']
                    + spec_decimal(x.port as nat) + seq![' '] + spec_fqdn(x.target@),
            ),
        ),
        RData::SOA(x) => Some(("SOA"@, spec_fqdn(x.mname@) + seq![' '] + spec_fqdn(x.rname@))),
        RData::TXT(x) => Some(("TXT"@, spec_txt_summary("TXT"@, x.wire@))),
        RData::SPF(x) => Some(("SPF"@, spec_txt_summary("SPF"@, x.0.wire@))),
        RData::CAA(x) => Some(("CAA"@, spec_text_or_base64(x.tag@) + seq![' '] + spec_text_or_base64(x.value@))),
        RData::URI(x) => Some(("URI"@, spec_text_or_base64(x.target@))),
        RData::SVCB(x) => Some(("SVCB"@, spec_fqdn(x.target@))),
        RData::HTTPS(x) => Some(("HTTPS"@, spec_fqdn(x.0.target@))),
        RData::RRSIG(x) => Some(("RRSIG"@, spec_fqdn(x.signer_name@))),
        RData::SIG(x) => Some(("SIG"@, spec_fqdn(x.0.signer_name@))),
        RData::NSEC(x) => Some(("NSEC"@, spec_fqdn(x.next_domain@))),
        RData::NSEC3(_) => Some(("NSEC3"@, "NSEC3"@)),
        RData::NSEC3PARAM(_) => Some(("NSEC3PARAM"@, "NSEC3PARAM"@)),
        RData::DNSKEY(_) => Some(("DNSKEY"@, "DNSKEY"@)),
        RData::CDNSKEY(_) => Some(("CDNSKEY"@, "CDNSKEY"@)),
        RData::DS(_) => Some(("DS"@, "DS"@)),
        RData::CDS(_) => Some(("CDS"@, "CDS"@)),
        RData::DLV(_) => Some(("DLV"@, "DLV"@)),
        RData::TA(_) => Some(("TA"@, "TA"@)),
        RData::TLSA(_) => Some(("TLSA"@, "TLSA"@)),
        RData::SMIMEA(_) => Some(("SMIMEA"@, "SMIMEA"@)),
        RData::SSHFP(_) => Some(("SSHFP"@, "SSHFP"@)),
        RData::OPENPGPKEY(_) => Some(("OPENPGPKEY"@, "OPENPGPKEY"@)),
        RData::NULL(_) => Some(("NULL"@, "NULL"@)),
        RData::OPT(_) => Some(("OPT"@, "OPT"@)),
        RData::Unknown { rr_type, .. } => Some(("TYPE"@ + spec_decimal(rr_type as nat), "TYPE"@ + spec_decimal(rr_type as nat))),
        _ => None,
    }
}

pub(crate) fn text(s: &str) -> (r: String)
    ensures
        r@ == s@,
{
    string_from_chars(chars_of(s).as_slice())
}

fn fqdn_chars(n: &crate::name::Name) -> (v: Vec<char>)
    ensures
        v@ == spec_fqdn(n@),
{
    let s = n.to_fqdn();
    chars_of(s.as_str())
}

fn pair(kind: &str, summary: Vec<char>) -> (r: Option<(String, String)>)
    ensures
        r matches Some((k, s)) && k@ == kind@ && s@ == summary@,
{
    Some((text(kind), string_from_chars(summary.as_slice())))
}

/// Payload kind and summary text for the types summarized field by field;
/// `None` for the others.
fn summary_text(rdata: &RData) -> (r: Option<(String, String)>)
    ensures
        match spec_payload_summary(*rdata) {
            Some((k, t)) => r matches Some((a, b)) && a@ == k && b@ == t,
            None => r is None,
        },
{
    match rdata {
        RData::A(value) => {
            let mut v: Vec<char> = Vec::new();
            push_dotted(&mut v, &value.0);
            pair("A", v)
        },
        RData::AAAA(value) => {
            let mut v: Vec<char> = Vec::new();
            push_ipv6_text(&mut v, &value.0);
            pair("AAAA", v)
        },
        RData::CNAME(value) => pair("CNAME", fqdn_chars(&value.0)),
        RData::NS(value) => pair("NS", fqdn_chars(&value.0)),
        RData::PTR(value) => pair("PTR", fqdn_chars(&value.0)),
        RData::DNAME(value) => pair("DNAME", fqdn_chars(&value.0)),
        RData::MD(value) => pair("MD", fqdn_chars(&value.0)),
        RData::MF(value) => pair("MF", fqdn_chars(&value.0)),
        RData::MB(value) => pair("MB", fqdn_chars(&value.0)),
        RData::MG(value) => pair("MG", fqdn_chars(&value.0)),
        RData::MR(value) => pair("MR", fqdn_chars(&value.0)),
        RData::ANAME(value) => pair("ANAME", fqdn_chars(&value.0)),
        RData::NSAPPTR(value) => pair("NSAPPTR", fqdn_chars(&value.0)),
        RData::MX(value) => {
            let mut v: Vec<char> = Vec::new();
            push_decimal(&mut v, value.preference as u64);
            v.push(' ');
            let mut n = fqdn_chars(&value.exchange);
            v.append(&mut n);
            pair("MX", v)
        },
        RData::KX(value) => {
            let mut v: Vec<char> = Vec::new();
            push_decimal(&mut v, value.preference as u64);
            v.push(' ');
            let mut n = fqdn_chars(&value.exchanger);
            v.append(&mut n);
            pair("KX", v)
        },
        RData::SRV(value) => {
            let mut v: Vec<char> = Vec::new();
            push_decimal(&mut v, value.priority as u64);
            v.push(' ');
            push_decimal(&mut v, value.weight as u64);
            v.push(' ');
            push_decimal(&mut v, value.port as u64);
            v.push(' ');
            let mut n = fqdn_chars(&value.target);
            v.append(&mut n);
            pair("SRV", v)
        },
        RData::SOA(value) => {
            let mut v = fqdn_chars(&value.mname);
            v.push(' ');
            let mut n = fqdn_chars(&value.rname);
            v.append(&mut n);
            pair("SOA", v)
        },
        RData::TXT(value) => Some((text("TXT"), txt_summary("TXT", value))),
        RData::SPF(value) => Some((text("SPF"), txt_summary("SPF", &value.0))),
        RData::CAA(value) => {
            let tag = bytes_to_text_or_base64(value.tag.as_slice());
            let val = bytes_to_text_or_base64(value.value.as_slice());
            let mut v = chars_of(tag.text.as_str());
            v.push(' ');
            let mut w = chars_of(val.text.as_str());
            v.append(&mut w);
            pair("CAA", v)
        },
        RData::URI(value) => {
            let target = bytes_to_text_or_base64(value.target.as_slice());
            Some((text("URI"), target.text))
        },
        RData::SVCB(value) => pair("SVCB", fqdn_chars(&value.target)),
        RData::HTTPS(value) => pair("HTTPS", fqdn_chars(&value.0.target)),
        RData::RRSIG(value) => pair("RRSIG", fqdn_chars(&value.signer_name)),
        RData::SIG(value) => pair("SIG", fqdn_chars(&value.0.signer_name)),
        RData::NSEC(value) => pair("NSEC", fqdn_chars(&value.next_domain)),
        RData::NSEC3(_) => Some((text("NSEC3"), text("NSEC3"))),
        RData::NSEC3PARAM(_) => Some((text("NSEC3PARAM"), text("NSEC3PARAM"))),
        RData::DNSKEY(_) => Some((text("DNSKEY"), text("DNSKEY"))),
        RData::CDNSKEY(_) => Some((text("CDNSKEY"), text("CDNSKEY"))),
        RData::DS(_) => Some((text("DS"), text("DS"))),
        RData::CDS(_) => Some((text("CDS"), text("CDS"))),
        RData::DLV(_) => Some((text("DLV"), text("DLV"))),
        RData::TA(_) => Some((text("TA"), text("TA"))),
        RData::TLSA(_) => Some((text("TLSA"), text("TLSA"))),
        RData::SMIMEA(_) => Some((text("SMIMEA"), text("SMIMEA"))),
        RData::SSHFP(_) => Some((text("SSHFP"), text("SSHFP"))),
        RData::OPENPGPKEY(_) => Some((text("OPENPGPKEY"), text("OPENPGPKEY"))),
        RData::NULL(_) => Some((text("NULL"), text("NULL"))),
        RData::OPT(_) => Some((text("OPT"), text("OPT"))),
        RData::Unknown { rr_type, .. } => {
            let mut v: Vec<char> = Vec::new();
            push_str_chars(&mut v, "TYPE");
            push_decimal(&mut v, *rr_type as u64);
            let k = string_from_chars(v.as_slice());
            let t = string_from_chars(v.as_slice());
            Some((k, t))
        },
        _ => None,
    }
}

/// The text that the derived `Debug` writes for a record's data.
pub uninterp spec fn rdata_debug_text(d: RData) -> Seq<char>;

/// `format!("{:?}", d)`: the debug form that `#[derive(Debug)]` writes for
/// a payload.  The derived impl reads nothing but the value's fields, so the
/// text is a function of the record alone; its layout is not stated.
#[verifier::external_body]
pub(crate) fn debug_form(d: &RData) -> (s: String)
    ensures
        s@ == rdata_debug_text(*d),
{
    format!("{:?}", d)
}

/// Payload kind and summary text of a record's data: the field-by-field
/// summary of [`spec_payload_summary`], and for the other types their type
/// name with their debug form ([`rdata_debug_text`]) as the text.
pub fn rdata_payload_text(rdata: &RData) -> (r: (String, String))
    ensures
        match spec_payload_summary(*rdata) {
            Some((k, t)) => r.0@ == k && r.1@ == t,
            None => r.0@ == spec_record_type_name(spec_rdata_rr_type(*rdata))
                && r.1@ == rdata_debug_text(*rdata),
        },
{
    match summary_text(rdata) {
        Some(p) => p,
        None => (record_type_name(rdata.rr_type()), debug_form(rdata)),
    }
}

} // verus!
