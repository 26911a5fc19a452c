use oxidns::edns_summary::FieldValue;
use oxidns::name::Name;
use oxidns::payload_fields::rdata_payload_fields;
use oxidns::rdata::basic::{A, CAA, MX, SOA, TXT};
use oxidns::rdata::bitmap::TypeBitMaps;
use oxidns::rdata::dnssec::{NSEC, RRSIG};
use oxidns::rdata::legacy::HINFO;
use oxidns::rdata::service::{SvcParam, SVCB};
use oxidns::rdata::RData;
use oxidns::types::RecordType;

fn f(k: &str, v: FieldValue) -> (String, FieldValue) {
    (k.to_string(), v)
}

fn t(s: &str) -> FieldValue {
    FieldValue::Text(s.to_string())
}

#[test]
fn address_and_exchange_fields() {
    assert_eq!(rdata_payload_fields(&RData::A(A::new(192, 0, 2, 1))), vec![f("ip", t("192.0.2.1"))]);
    let mx = RData::MX(MX::new(10, Name::from_ascii("mail.example.com").unwrap()));
    assert_eq!(
        rdata_payload_fields(&mx),
        vec![f("preference", FieldValue::Number(10)), f("exchange", t("mail.example.com."))]
    );
}

#[test]
fn soa_fields_keep_signed_timers() {
    let soa = RData::SOA(SOA::new(
        Name::from_ascii("ns.example.").unwrap(),
        Name::from_ascii("host.example.").unwrap(),
        7,
        -1,
        3600,
        86400,
        300,
    ));
    assert_eq!(
        rdata_payload_fields(&soa),
        vec![
            f("mname", t("ns.example.")),
            f("rname", t("host.example.")),
            f("serial", FieldValue::Number(7)),
            f("refresh", FieldValue::Signed(-1)),
            f("retry", FieldValue::Signed(3600)),
            f("expire", FieldValue::Signed(86400)),
            f("minimum", FieldValue::Number(300)),
        ]
    );
}

#[test]
fn txt_fields_are_strings_or_parts() {
    let text = RData::TXT(TXT::new(vec![2, b'h', b'i', 2, b'y', b'o']));
    assert_eq!(
        rdata_payload_fields(&text),
        vec![f("strings", FieldValue::List(vec![t("hi"), t("yo")]))]
    );
    let mixed = RData::TXT(TXT::new(vec![2, b'h', b'i', 1, 0xff]));
    assert_eq!(
        rdata_payload_fields(&mixed),
        vec![f(
            "parts",
            FieldValue::List(vec![
                FieldValue::Object(vec![f("text", t("hi"))]),
                FieldValue::Object(vec![f("data_base64", t("/w=="))]),
            ])
        )]
    );
}

#[test]
fn caa_fields_split_text_and_base64() {
    let caa = RData::CAA(CAA::new(0, b"issue".to_vec(), vec![0xff, 0x00]));
    assert_eq!(
        rdata_payload_fields(&caa),
        vec![
            f("flag", FieldValue::Number(0)),
            f("tag", t("issue")),
            f("tag_base64", FieldValue::Null),
            f("value", FieldValue::Null),
            f("value_base64", t("/wA=")),
        ]
    );
}

#[test]
fn nsec_fields_name_the_bitmap_types() {
    let bitmap = TypeBitMaps::from_types(vec![RecordType::A, RecordType::MX]);
    let nsec = RData::NSEC(NSEC::new(Name::from_ascii("b.example.").unwrap(), bitmap));
    assert_eq!(
        rdata_payload_fields(&nsec),
        vec![
            f("next_domain", t("b.example.")),
            f("type_bitmap", FieldValue::List(vec![t("A"), t("MX")])),
            f("type_bitmap_base64", t("AAJAAQ==")),
        ]
    );
}

#[test]
fn rrsig_fields_name_the_covered_type() {
    let sig = RRSIG {
        type_covered: 1,
        algorithm: 8,
        labels: 2,
        orig_ttl: 300,
        expiration: 20,
        inception: 10,
        key_tag: 4242,
        signer_name: Name::from_ascii("example.").unwrap(),
        signature: b"sig".to_vec(),
    };
    let fs = rdata_payload_fields(&RData::RRSIG(sig));
    assert_eq!(fs.len(), 9);
    assert_eq!(fs[0], f("type_covered", t("A")));
    assert_eq!(fs[7], f("signer_name", t("example.")));
    assert_eq!(fs[8], f("signature_base64", t("c2ln")));
}

fn param(key: u16, value: Vec<u8>) -> SvcParam {
    SvcParam::new(key, value)
}

fn param_fields(key: u64, name: &str, b64: &str, parsed: (String, FieldValue)) -> FieldValue {
    FieldValue::Object(vec![
        f("key", FieldValue::Number(key)),
        f("name", t(name)),
        f("value_base64", t(b64)),
        f("parsed", FieldValue::Object(vec![parsed])),
    ])
}

#[test]
fn svcb_fields_read_each_parameter() {
    let params = vec![
        param(0, vec![0, 1, 0, 3]),
        param(1, vec![2, b'h', b'2', 2, b'h', b'3']),
        param(3, vec![1, 187]),
        param(4, vec![192, 0, 2, 1]),
        param(5, vec![1, 2]),
        param(7, vec![0xff]),
        param(2, vec![1]),
    ];
    let svcb = RData::SVCB(SVCB::new(1, Name::from_ascii("svc.example.").unwrap(), params));
    assert_eq!(
        rdata_payload_fields(&svcb),
        vec![
            f("priority", FieldValue::Number(1)),
            f("target", t("svc.example.")),
            f(
                "params",
                FieldValue::List(vec![
                    param_fields(
                        0,
                        "mandatory",
                        "AAEAAw==",
                        f("mandatory", FieldValue::List(vec![FieldValue::Number(1), FieldValue::Number(3)])),
                    ),
                    param_fields(1, "alpn", "AmgyAmgz", f("alpn", FieldValue::List(vec![t("h2"), t("h3")]))),
                    param_fields(3, "port", "Abs=", f("port", FieldValue::Number(443))),
                    param_fields(4, "ipv4hint", "wAACAQ==", f("ipv4_hint", FieldValue::List(vec![t("192.0.2.1")]))),
                    param_fields(5, "ech", "AQI=", f("ech_base64", t("AQI="))),
                    param_fields(7, "dohpath", "/w==", f("doh_path_base64", t("/w=="))),
                    param_fields(2, "no-default-alpn", "AQ==", f("unknown", FieldValue::Bool(true))),
                ])
            ),
        ]
    );
}

#[test]
fn svcb_alpn_with_an_empty_id_reads_as_unknown() {
    let svcb = RData::SVCB(SVCB::new(1, Name::from_ascii("svc.example.").unwrap(), vec![param(1, vec![0])]));
    let fs = rdata_payload_fields(&svcb);
    assert_eq!(
        fs[2],
        f("params", FieldValue::List(vec![param_fields(1, "alpn", "AA==", f("unknown", FieldValue::Bool(true)))]))
    );
}

#[test]
fn opt_unknown_and_display_fields() {
    assert_eq!(rdata_payload_fields(&RData::Unknown { rr_type: 65280, data: vec![1] }), vec![
        f("unknown_rr_type", FieldValue::Number(65280)),
        f("data_base64", t("AQ==")),
    ]);
    let hinfo = HINFO::new(b"cpu".to_vec(), b"os".to_vec());
    let shown = format!("{:?}", RData::HINFO(HINFO::new(b"cpu".to_vec(), b"os".to_vec())));
    assert_eq!(rdata_payload_fields(&RData::HINFO(hinfo)), vec![f("display", t(&shown))]);
}
