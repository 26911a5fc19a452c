use oxidns::wire::rdata::basic::{encode_edns_record};
use oxidns::wire::rdata::{encode_character_string, encode_rdata, parse_character_string, parse_name, parse_rdata, parse_single_character_string, parse_two_character_strings, parse_two_names, parse_u16_name};
use oxidns::error::ProtoError;
use oxidns::name::Name;
use oxidns::rdata::RData;
use oxidns::rdata::basic::{Edns, EdnsLocal, EdnsOption};
use oxidns::types::{DNSClass, RecordType};
#[test]
fn parse_encode_rdata_dispatch_roundtrip() {
    let packet = [1, 2, 3, 4];
    let parsed = parse_rdata(
        &packet,
        &Name::from_ascii("owner.example.com.").unwrap(),
        RecordType::A,
        u16::from(DNSClass::IN),
        300,
        0,
        packet.len(),
    )
    .unwrap();

    let mut encoded = Vec::new();
    encode_rdata(&parsed, &mut encoded).unwrap();
    assert_eq!(encoded, packet);
}

#[test]
fn encode_edns_record_helpers_match() {
    let mut edns = Edns::new();
    edns.set_udp_payload_size(1400);
    edns.set_dnssec_ok(true);
    edns.insert(EdnsOption::Local(EdnsLocal::new(65001, vec![1, 2, 3])));

    let direct = {
        let mut out = Vec::new();
        encode_edns_record(&mut out, &edns, 1).unwrap();
        out
    };
    let mut via_vec = Vec::with_capacity(32);
    encode_edns_record(&mut via_vec, &edns, 1).unwrap();
    assert_eq!(direct, via_vec);
}

#[test]
fn shared_parse_helpers_roundtrip() {
    let packet = [
        3, b'w', b'w', b'w', 7, b'e', b'x', b'a', b'm', b'p', b'l', b'e', 0,
    ];
    let name = parse_name(&packet, 0, packet.len(), "shared").unwrap();
    assert_eq!(name.wire(), &packet);

    let text = [5, b'h', b'e', b'l', b'l', b'o'];
    let (string, next) = parse_character_string(&text, 0, text.len()).unwrap();
    assert_eq!(&*string, b"hello");
    assert_eq!(next, text.len());

    let pair = [1, b'a', 1, b'b'];
    let (left, right) = parse_two_character_strings(&pair, 0, pair.len(), "pair").unwrap();
    assert_eq!(&*left, b"a");
    assert_eq!(&*right, b"b");

    let names = [1, b'a', 0, 1, b'b', 0];
    let (left_name, right_name) = parse_two_names(&names, 0, names.len(), "pair").unwrap();
    assert_eq!(left_name.to_fqdn(), "a.");
    assert_eq!(right_name.to_fqdn(), "b.");

    let u16_name = [0, 10, 1, b'm', 0];
    let (value, name) = parse_u16_name(&u16_name, 0, u16_name.len(), "u16-name").unwrap();
    assert_eq!(value, 10);
    assert_eq!(name.to_fqdn(), "m.");
}

#[test]
fn shared_parse_helpers_reject_invalid_wire() {
    assert!(parse_name(&[1, b'a'], 0, 2, "bad").is_err());
    assert!(parse_character_string(&[3, b'a'], 0, 2).is_err());
    assert!(parse_single_character_string(&[1, b'a', 1, b'b'], 0, 4, "bad").is_err());
    assert!(parse_two_character_strings(&[1, b'a', 1], 0, 3, "bad").is_err());
    assert!(parse_two_names(&[1, b'a', 0, 1], 0, 4, "bad").is_err());
    assert!(parse_u16_name(&[0, 1], 0, 2, "bad").is_err());
    assert!(encode_character_string(&mut Vec::new(), &[0; 256], "too-long").is_err());
}
