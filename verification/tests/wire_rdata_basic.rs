use oxidns::wire::rdata::basic::{encode_a, encode_aaaa, encode_avc, encode_caa, encode_cname, encode_doa, encode_edns_option, encode_mx, encode_naptr, encode_ns, encode_opt, encode_ptr, encode_resinfo, encode_soa, encode_spf, encode_srv, encode_txt, parse_a, parse_aaaa, parse_avc, parse_caa, parse_cname, parse_doa, parse_edns_option, parse_mx, parse_naptr, parse_ns, parse_opt, parse_ptr, parse_resinfo, parse_soa, parse_spf, parse_srv, parse_txt};
use oxidns::error::ProtoError;
use oxidns::wire::push_u16;
use oxidns::name::Name;
use oxidns::rdata::RData;
#[test]
fn basic_rdata_parse_encode_roundtrip() {
    let cases: Vec<(&[u8], fn(&[u8], usize, usize) -> Result<RData, ProtoError>)> = vec![
        (&[1, 2, 3, 4], parse_a),
        (
            &[0, 0, 0, 0, 0, 0, 0, 0, 0, 0, 0, 0, 0, 0, 0, 1],
            parse_aaaa,
        ),
        (&[5, b'a', b'l', b'i', b'a', b's', 0], parse_cname),
        (&[2, b'n', b's', 0], parse_ns),
        (&[3, b'p', b't', b'r', 0], parse_ptr),
        (&[0, 10, 2, b'm', b'x', 0], parse_mx),
        (&[0, 1, 0, 2, 1, 187, 3, b's', b'r', b'v', 0], parse_srv),
        (
            &[
                0, 10, 0, 20, 1, b'U', 7, b'E', b'2', b'U', b'+', b's', b'i', b'p', 4, b'r',
                b'e', b'g', b'e', 4, b'n', b'a', b'p', b't', 0,
            ],
            parse_naptr,
        ),
        (&[0, 5, b'i', b's', b's', b'u', b'e', b'v'], parse_caa),
        (&[5, b'h', b'e', b'l', b'l', b'o'], parse_txt),
        (
            &[
                11, b'v', b'=', b's', b'p', b'f', b'1', b' ', b'-', b'a', b'l', b'l',
            ],
            parse_spf,
        ),
        (&[3, b'a', b'v', b'c'], parse_avc),
        (
            &[7, b'r', b'e', b's', b'i', b'n', b'f', b'o'],
            parse_resinfo,
        ),
        (&[0xDE, 0xAD], parse_doa),
        (
            &[
                2, b'n', b's', 0, 10, b'h', b'o', b's', b't', b'm', b'a', b's', b't', b'e',
                b'r', 0, 0, 0, 0, 1, 0, 0, 0, 2, 0, 0, 0, 3, 0, 0, 0, 4, 0, 0, 0, 5,
            ],
            parse_soa,
        ),
    ];

    for (packet, parse) in cases {
        let parsed = parse(packet, 0, packet.len()).unwrap();
        let mut encoded = Vec::new();
        match &parsed {
            RData::A(value) => encode_a(value, &mut encoded),
            RData::AAAA(value) => encode_aaaa(value, &mut encoded),
            RData::CNAME(value) => encode_cname(value, &mut encoded).unwrap(),
            RData::NS(value) => encode_ns(value, &mut encoded).unwrap(),
            RData::PTR(value) => encode_ptr(value, &mut encoded).unwrap(),
            RData::MX(value) => encode_mx(value, &mut encoded).unwrap(),
            RData::SRV(value) => encode_srv(value, &mut encoded).unwrap(),
            RData::NAPTR(value) => {
                encode_naptr(value, &mut encoded).unwrap()
            }
            RData::CAA(value) => encode_caa(value, &mut encoded).unwrap(),
            RData::TXT(value) => encode_txt(value, &mut encoded),
            RData::SPF(value) => encode_spf(value, &mut encoded),
            RData::AVC(value) => encode_avc(value, &mut encoded),
            RData::RESINFO(value) => encode_resinfo(value, &mut encoded),
            RData::DOA(value) => encode_doa(value, &mut encoded),
            RData::SOA(value) => encode_soa(value, &mut encoded).unwrap(),
            other => panic!("unexpected basic rdata variant: {other:?}"),
        }
        assert_eq!(encoded, packet);
    }
}

#[test]
fn opt_rdata_parse_encode_roundtrip() {
    let packet = [
        0x00, 0x08, 0x00, 0x07, 0x00, 0x01, 24, 0, 192, 0, 2, // ECS
        0xFD, 0xE9, 0x00, 0x03, 1, 2, 3, // unknown
    ];
    let parsed = parse_opt(&packet, &Name::root(), 1400, 0x8000, 0, packet.len()).unwrap();
    let mut encoded = Vec::new();
    match &parsed {
        RData::OPT(value) => encode_opt(value, &mut encoded).unwrap(),
        other => panic!("unexpected opt variant: {other:?}"),
    }
    assert_eq!(encoded, packet);
}

#[test]
fn edns_option_parse_encode_roundtrip() {
    let cases: &[(u16, &[u8])] = &[
        (0x0008, &[0x00, 0x01, 24, 0, 192, 0, 2]),
        (0xFDE9, &[1, 2, 3, 4]),
    ];

    for (code, data) in cases {
        let parsed = parse_edns_option(*code, data);
        let mut encoded = Vec::new();
        encode_edns_option(&mut encoded, &parsed).unwrap();

        let mut expected = Vec::new();
        push_u16(&mut expected, *code);
        push_u16(&mut expected, data.len() as u16);
        expected.extend_from_slice(data);

        assert_eq!(encoded, expected);
    }
}

#[test]
fn parse_opt_preserves_ttl_fields() {
    let parsed = parse_opt(&[], &Name::root(), 1232, 0xABCD_8000, 0, 0).unwrap();
    let RData::OPT(value) = parsed else {
        panic!("expected OPT");
    };

    assert_eq!(value.0.udp_payload_size(), 1232);
    assert_eq!(value.0.ext_rcode(), 0xAB);
    assert_eq!(value.0.version(), 0xCD);
    assert!(value.0.flags().dnssec_ok);
}

#[test]
fn basic_rdata_rejects_invalid_wire_matrix() {
    let root = Name::root();
    let non_root = Name::from_ascii("example.com.").unwrap();
    let cases: Vec<(&str, Result<RData, ProtoError>)> = vec![
        ("a short", parse_a(&[1, 2, 3], 0, 3)),
        ("aaaa short", parse_aaaa(&[0; 15], 0, 15)),
        ("mx truncated", parse_mx(&[0, 10], 0, 2)),
        (
            "mx trailing bytes",
            parse_mx(&[0, 10, 2, b'm', b'x', 0, 1], 0, 7),
        ),
        (
            "srv truncated fixed header",
            parse_srv(&[0, 1, 0, 2, 0], 0, 5),
        ),
        (
            "srv truncated target",
            parse_srv(&[0, 1, 0, 2, 0, 80, 3, b's'], 0, 8),
        ),
        (
            "naptr truncated",
            parse_naptr(&[0, 1, 0, 2, 1, b'U', 1], 0, 7),
        ),
        ("caa empty tag", parse_caa(&[0, 0], 0, 2)),
        ("txt bad string len", parse_txt(&[5, b'h', b'e'], 0, 3)),
        (
            "soa truncated",
            parse_soa(&[2, b'n', b's', 0, 0, 0, 0], 0, 7),
        ),
        (
            "opt non-root owner",
            parse_opt(&[], &non_root, 1232, 0, 0, 0),
        ),
        (
            "opt option overrun",
            parse_opt(&[0, 8, 0, 10, 1, 2], &root, 1232, 0, 0, 6),
        ),
    ];

    for (name, result) in cases {
        assert!(result.is_err(), "{name} should fail");
    }
}

#[test]
fn opt_encode_then_parse_gives_the_same_edns_state() {
    let packet = [
        0x00, 0x0A, 0x00, 0x08, 1, 2, 3, 4, 5, 6, 7, 8, // cookie
        0x00, 0x0B, 0x00, 0x02, 0x01, 0x2C, // tcp keepalive
        0xFD, 0xE9, 0x00, 0x01, 9, // local
    ];
    let first = parse_opt(&packet, &Name::root(), 1232, 0x0100_8000, 0, packet.len()).unwrap();
    let mut encoded = Vec::new();
    match &first {
        RData::OPT(value) => encode_opt(value, &mut encoded).unwrap(),
        other => panic!("unexpected opt variant: {other:?}"),
    }
    let second = parse_opt(&encoded, &Name::root(), 1232, 0x0100_8000, 0, encoded.len()).unwrap();
    assert_eq!(first, second);
}
