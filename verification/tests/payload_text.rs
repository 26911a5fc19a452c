use oxidns::name::Name;
use oxidns::payload_text::{bytes_to_text_or_base64, rdata_payload_text};
use oxidns::rdata::basic::{A, AAAA, CAA, MX, SOA, TXT};
use oxidns::rdata::legacy::HINFO;
use oxidns::rdata::service::URI;
use oxidns::rdata::RData;

fn summary(r: &RData) -> (String, String) {
    rdata_payload_text(r)
}

fn pair(k: &str, t: &str) -> (String, String) {
    (k.to_string(), t.to_string())
}

#[test]
fn address_and_name_payloads_summarize_as_text() {
    assert_eq!(summary(&RData::A(A::new(192, 0, 2, 1))), pair("A", "192.0.2.1"));
    let mut v6 = [0u8; 16];
    v6[0] = 0x20;
    v6[1] = 0x01;
    v6[2] = 0x0d;
    v6[3] = 0xb8;
    v6[15] = 1;
    assert_eq!(summary(&RData::AAAA(AAAA::new(v6))), pair("AAAA", "2001:db8::1"));
    let mx = RData::MX(MX::new(10, Name::from_ascii("mail.example.com").unwrap()));
    assert_eq!(summary(&mx), pair("MX", "10 mail.example.com."));
    let soa = RData::SOA(SOA::new(Name::from_ascii("ns.example.").unwrap(), Name::from_ascii("host.example.").unwrap(), 1, 2, 3, 4, 5));
    assert_eq!(summary(&soa), pair("SOA", "ns.example. host.example."));
}

#[test]
fn txt_summary_joins_utf8_strings() {
    let txt = RData::TXT(TXT::new(vec![5, b'h', b'e', b'l', b'l', b'o', 1, 0xff, 5, b'w', b'o', b'r', b'l', b'd']));
    assert_eq!(summary(&txt), pair("TXT", "hello world"));
    let binary = RData::TXT(TXT::new(vec![1, 0xff]));
    assert_eq!(summary(&binary), pair("TXT", "TXT"));
}

#[test]
fn caa_and_uri_fall_back_to_base64() {
    let caa = RData::CAA(CAA::new(0, b"issue".to_vec(), vec![0xff, 0x00]));
    assert_eq!(summary(&caa), pair("CAA", "issue /wA="));
    let uri = RData::URI(URI::new(1, 2, b"https://x".to_vec()));
    assert_eq!(summary(&uri), pair("URI", "https://x"));
    let t = bytes_to_text_or_base64(&[0xfe]);
    assert_eq!(t.text, "/g==");
    assert_eq!(t.text_value, None);
    assert_eq!(t.base64_value, Some("/g==".to_string()));
    let u = bytes_to_text_or_base64(b"ok");
    assert_eq!(u.text_value, Some("ok".to_string()));
    assert_eq!(u.base64_value, None);
}

#[test]
fn unknown_and_debug_form_payloads() {
    let unknown = RData::Unknown { rr_type: 65280, data: vec![1] };
    assert_eq!(summary(&unknown), pair("TYPE65280", "TYPE65280"));
    let hinfo = RData::HINFO(HINFO::new(b"cpu".to_vec(), b"os".to_vec()));
    assert_eq!(summary(&hinfo), pair("HINFO", &format!("{:?}", hinfo)));
}
