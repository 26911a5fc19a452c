use oxidns::error::ProtoError;
use oxidns::rdata::basic::{ClientSubnet, IpAddr};
use oxidns::rdata::subnet_text::parse_u8_text;

fn message(e: ProtoError) -> String {
    match e {
        ProtoError::Protocol(m) => m,
        other => panic!("unexpected error {other:?}"),
    }
}

#[test]
fn split_text_cuts_at_first_slash() {
    let (a, p) = ClientSubnet::split_text("192.0.2.0/24").unwrap();
    assert_eq!(a, "192.0.2.0");
    assert_eq!(p, "24");
    let (a, p) = ClientSubnet::split_text("a/b/c").unwrap();
    assert_eq!(a, "a");
    assert_eq!(p, "b/c");
    assert_eq!(message(ClientSubnet::split_text("192.0.2.0").unwrap_err()), "invalid client subnet string");
}

#[test]
fn from_text_parts_checks_address_prefix_and_width() {
    let v4 = IpAddr::V4([192, 0, 2, 0]);
    let ok = ClientSubnet::from_text_parts(Some(v4), "24").unwrap();
    assert_eq!(ok, ClientSubnet::new(v4, 24, 0));
    assert_eq!(ClientSubnet::from_text_parts(Some(v4), "+32").unwrap().source_prefix, 32);
    assert_eq!(message(ClientSubnet::from_text_parts(None, "24").unwrap_err()), "invalid client subnet address");
    assert_eq!(message(ClientSubnet::from_text_parts(Some(v4), "x").unwrap_err()), "invalid client subnet prefix");
    assert_eq!(
        message(ClientSubnet::from_text_parts(Some(v4), "33").unwrap_err()),
        "client subnet prefix exceeds address width"
    );
    let v6 = IpAddr::V6([0; 16]);
    assert_eq!(ClientSubnet::from_text_parts(Some(v6), "128").unwrap().source_prefix, 128);
    assert_eq!(
        message(ClientSubnet::from_text_parts(Some(v6), "129").unwrap_err()),
        "client subnet prefix exceeds address width"
    );
}

#[test]
fn byte_numbers_parse_like_u8_from_str() {
    let cases = ["0", "7", "007", "+12", "255", "256", "", "+", "-1", "1a", " 1", "99999"];
    for case in cases {
        let chars: Vec<char> = case.chars().collect();
        assert_eq!(parse_u8_text(&chars), case.parse::<u8>().ok(), "{case}");
    }
}
