use oxidns::edns_summary::{edns_option_summary, FieldValue};
use oxidns::rdata::basic::{ClientSubnet, EdnsExtendedDnsError, EdnsLlq, EdnsLocal, EdnsOption, EdnsTcpKeepalive, IpAddr};

fn f(k: &str, v: FieldValue) -> (String, FieldValue) {
    (k.to_string(), v)
}

#[test]
fn llq_summary_lists_its_numbers() {
    let s = edns_option_summary(&EdnsOption::Llq(EdnsLlq::new(1, 2, 3, 4, 5)));
    assert_eq!(s.code, 1);
    assert_eq!(s.name, "Llq");
    assert_eq!(s.payload_kind, "Llq");
    assert_eq!(
        s.payload,
        vec![
            f("version", FieldValue::Number(1)),
            f("opcode", FieldValue::Number(2)),
            f("error", FieldValue::Number(3)),
            f("id", FieldValue::Number(4)),
            f("lease_life", FieldValue::Number(5)),
        ]
    );
}

#[test]
fn subnet_and_keepalive_summaries() {
    let s = edns_option_summary(&EdnsOption::Subnet(ClientSubnet::new(IpAddr::V4([192, 0, 2, 0]), 24, 0)));
    assert_eq!(s.payload_kind, "Subnet");
    assert_eq!(
        s.payload,
        vec![
            f("addr", FieldValue::Text("192.0.2.0".to_string())),
            f("source_prefix", FieldValue::Number(24)),
            f("scope_prefix", FieldValue::Number(0)),
        ]
    );
    let k = edns_option_summary(&EdnsOption::TcpKeepalive(EdnsTcpKeepalive::new(None)));
    assert_eq!(k.payload, vec![f("timeout", FieldValue::Null)]);
}

#[test]
fn byte_payloads_are_text_or_base64() {
    let e = edns_option_summary(&EdnsOption::ExtendedDnsError(EdnsExtendedDnsError::new(18, b"stale".to_vec())));
    assert_eq!(
        e.payload,
        vec![
            f("info_code", FieldValue::Number(18)),
            f("extra_text", FieldValue::Text("stale".to_string())),
            f("extra_text_base64", FieldValue::Null),
        ]
    );
    let bad = edns_option_summary(&EdnsOption::ExtendedDnsError(EdnsExtendedDnsError::new(0, vec![0xff])));
    assert_eq!(bad.payload[1], f("extra_text", FieldValue::Null));
    assert_eq!(bad.payload[2], f("extra_text_base64", FieldValue::Text("/w==".to_string())));
    let l = edns_option_summary(&EdnsOption::Local(EdnsLocal::new(65001, vec![1, 2, 3])));
    assert_eq!(l.code, 65001);
    assert_eq!(l.payload, vec![f("code", FieldValue::Number(65001)), f("data_base64", FieldValue::Text("AQID".to_string()))]);
}
