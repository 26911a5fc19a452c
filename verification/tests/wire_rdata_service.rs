use oxidns::wire::rdata::service::{encode_amtrelay, encode_eui48, encode_eui64, encode_https, encode_ipseckey, encode_kx, encode_l32, encode_l64, encode_lp, encode_nid, encode_svcb, encode_uri, parse_amtrelay, parse_eui48, parse_eui64, parse_https, parse_ipseckey, parse_kx, parse_l32, parse_l64, parse_lp, parse_nid, parse_svcb, parse_uri};
use oxidns::error::ProtoError;
use oxidns::name::Name;
use oxidns::rdata::RData;
use oxidns::rdata::service::{SvcParam, SVCB};
#[test]
fn service_rdata_parse_encode_roundtrip() {
    let cases: Vec<(&[u8], fn(&[u8], usize, usize) -> Result<RData, ProtoError>)> = vec![
        (&[0, 10, 2, b'k', b'x', 0], parse_kx),
        (&[10, 1, 2, 1, 2, 3, 4, 9, 9], parse_ipseckey),
        (
            &[
                0, 1, 3, b's', b'v', b'c', 0, 0, 1, 0, 2, b'h', b'2', 0, 3, 0, 2, 1, 187,
            ],
            parse_svcb,
        ),
        (
            &[
                0, 1, 5, b'h', b't', b't', b'p', b's', 0, 0, 3, 0, 2, 0x20, 0xFB,
            ],
            parse_https,
        ),
        (&[1, 1, 10, 0, 0, 1], parse_amtrelay),
        (&[0, 1, 0, 2, b'h', b'i'], parse_uri),
        (&[0, 1, 1, 2, 3, 4, 5, 6, 7, 8], parse_nid),
        (&[0, 1, 1, 2, 3, 4], parse_l32),
        (&[0, 1, 1, 2, 3, 4, 5, 6, 7, 8], parse_l64),
        (&[0, 1, 2, b'l', b'p', 0], parse_lp),
        (&[0, 1, 2, 3, 4, 5], parse_eui48),
        (&[0, 1, 2, 3, 4, 5, 6, 7], parse_eui64),
    ];

    for (packet, parse) in cases {
        let parsed = parse(packet, 0, packet.len()).unwrap();
        let mut encoded = Vec::new();
        match &parsed {
            RData::KX(value) => encode_kx(value, &mut encoded).unwrap(),
            RData::IPSECKEY(value) => encode_ipseckey(value, &mut encoded),
            RData::SVCB(value) => {
                encode_svcb(value, &mut encoded).unwrap()
            }
            RData::HTTPS(value) => {
                encode_https(value, &mut encoded).unwrap()
            }
            RData::AMTRELAY(value) => encode_amtrelay(value, &mut encoded),
            RData::URI(value) => encode_uri(value, &mut encoded),
            RData::NID(value) => encode_nid(value, &mut encoded),
            RData::L32(value) => encode_l32(value, &mut encoded),
            RData::L64(value) => encode_l64(value, &mut encoded),
            RData::LP(value) => encode_lp(value, &mut encoded).unwrap(),
            RData::EUI48(value) => encode_eui48(value, &mut encoded),
            RData::EUI64(value) => encode_eui64(value, &mut encoded),
            other => panic!("unexpected service rdata variant: {other:?}"),
        }
        assert_eq!(encoded, packet);
    }
}

#[test]
fn service_rdata_rejects_invalid_wire_matrix() {
    let cases: Vec<(&str, Result<RData, ProtoError>)> = vec![
        ("kx truncated", parse_kx(&[0, 10], 0, 2)),
        ("ipseckey short header", parse_ipseckey(&[10, 1], 0, 2)),
        ("svcb missing target", parse_svcb(&[0, 1], 0, 2)),
        (
            "svcb unsorted keys",
            parse_svcb(
                &[
                    0, 1, 3, b's', b'v', b'c', 0, 0, 3, 0, 2, 1, 187, 0, 1, 0, 2, b'h', b'2',
                ],
                0,
                19,
            ),
        ),
        (
            "svcb reserved key",
            parse_svcb(&[0, 1, 3, b's', b'v', b'c', 0, 0xFF, 0xFF, 0, 0], 0, 11),
        ),
        ("amtrelay bad gateway type", parse_amtrelay(&[1, 99], 0, 2)),
        ("uri truncated", parse_uri(&[0, 1, 0], 0, 3)),
        ("nid short", parse_nid(&[0, 1, 1, 2], 0, 4)),
        ("l32 short", parse_l32(&[0, 1, 1, 2, 3], 0, 5)),
        ("l64 short", parse_l64(&[0, 1, 1, 2, 3, 4], 0, 6)),
        ("lp truncated", parse_lp(&[0, 1], 0, 2)),
        ("eui48 short", parse_eui48(&[0, 1, 2, 3, 4], 0, 5)),
        ("eui64 short", parse_eui64(&[0, 1, 2, 3, 4, 5, 6], 0, 7)),
    ];

    for (name, result) in cases {
        assert!(result.is_err(), "{name} should fail");
    }
}

#[test]
fn svcb_encode_then_parse_gives_canonical_parameters() {
    let target = Name::from_ascii("svc.example.").unwrap();
    let value = SVCB::new(
        1,
        target.clone(),
        vec![
            SvcParam::new(3, vec![1, 187]),
            SvcParam::new(0, vec![0, 3, 0, 1]),
            SvcParam::new(1, vec![2, b'h', b'2']),
        ],
    );
    let mut encoded = Vec::new();
    encode_svcb(&value, &mut encoded).unwrap();
    let parsed = parse_svcb(&encoded, 0, encoded.len()).unwrap();
    let expected = SVCB::new(
        1,
        target,
        vec![
            SvcParam::new(0, vec![0, 1, 0, 3]),
            SvcParam::new(1, vec![2, b'h', b'2']),
            SvcParam::new(3, vec![1, 187]),
        ],
    );
    assert_eq!(parsed, RData::SVCB(expected));
}
