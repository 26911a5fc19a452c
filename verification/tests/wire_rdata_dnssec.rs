use oxidns::wire::rdata::dnssec::{encode_cdnskey, encode_cds, encode_cert, encode_csync, encode_dhcid, encode_dlv, encode_dnskey, encode_ds, encode_hip, encode_key, encode_ninfo, encode_nsec, encode_nsec3, encode_nsec3param, encode_openpgpkey, encode_rkey, encode_rrsig, encode_sig, encode_smimea, encode_sshfp, encode_ta, encode_talink, encode_tkey, encode_tlsa, encode_tsig, encode_zonemd, parse_cdnskey, parse_cds, parse_cert, parse_csync, parse_dhcid, parse_dlv, parse_dnskey, parse_ds, parse_hip, parse_key, parse_ninfo, parse_nsec, parse_nsec3, parse_nsec3param, parse_openpgpkey, parse_rkey, parse_rrsig, parse_sig, parse_smimea, parse_sshfp, parse_ta, parse_talink, parse_tkey, parse_tlsa, parse_tsig, parse_zonemd};
use oxidns::error::ProtoError;
use oxidns::name::Name;
use oxidns::rdata::RData;
#[test]
fn dnssec_rdata_parse_encode_roundtrip() {
    let cases: Vec<(&[u8], fn(&[u8], usize, usize) -> Result<RData, ProtoError>)> = vec![
        (
            &[
                0, 1, 8, 2, 0, 0, 1, 44, 0, 0, 1, 144, 0, 0, 0, 200, 0, 1, 3, b's', b'i', b'g',
                0, 1, 2,
            ],
            parse_sig,
        ),
        (&[1, 0, 3, 8, 1, 2, 3], parse_key),
        (&[0, 1, 8, 2, 1, 2, 3], parse_ds),
        (&[1, 1, 2, 3], parse_sshfp),
        (&[0, 1, 0, 2, 8, 1, 2, 3], parse_cert),
        (
            &[
                0, 28, 8, 2, 0, 0, 1, 44, 0, 0, 1, 144, 0, 0, 0, 200, 0, 1, 5, b'r', b'r',
                b's', b'i', b'g', 0, 9, 8, 7,
            ],
            parse_rrsig,
        ),
        (&[4, b'n', b'e', b'x', b't', 0, 0, 1, 0x40], parse_nsec),
        (&[1, 1, 2, 3], parse_dnskey),
        (&[1, 2, 3], parse_dhcid),
        (&[1, 0, 0, 10, 1, 0xAA, 1, 0xBB, 0, 1, 0x20], parse_nsec3),
        (&[1, 0, 0, 10, 1, 0xAA], parse_nsec3param),
        (&[3, 1, 1, 1, 2, 3], parse_tlsa),
        (&[3, 1, 1, 4, 5, 6], parse_smimea),
        (
            &[4, 1, 0, 3, 1, 2, 3, 4, 5, 6, 7, 2, b'r', b'v', 0],
            parse_hip,
        ),
        (&[1, 2], parse_ninfo),
        (&[3, 4], parse_rkey),
        (
            &[4, b'p', b'r', b'e', b'v', 0, 4, b'n', b'e', b'x', b't', 0],
            parse_talink,
        ),
        (&[0, 1, 8, 2, 1, 2], parse_cds),
        (&[1, 1, 3, 8, 8, 9], parse_cdnskey),
        (&[0xAA, 0xBB], parse_openpgpkey),
        (&[0, 0, 0, 9, 0, 1, 0, 1, 0x40], parse_csync),
        (&[0, 0, 0, 1, 1, 1, 1, 2, 3], parse_zonemd),
        (
            &[
                8, b'g', b's', b's', b'-', b't', b's', b'i', b'g', 0, 0, 0, 0, 1, 0, 0, 0, 2,
                0, 3, 0, 4, 0, 2, 5, 6, 0, 2, 7, 8,
            ],
            parse_tkey,
        ),
        (
            &[
                11, b'h', b'm', b'a', b'c', b'-', b's', b'h', b'a', b'2', b'5', b'6', 0, 1, 2,
                3, 4, 5, 6, 1, 44, 0, 3, 1, 2, 3, 0, 1, 0, 0, 0, 2, 4, 5,
            ],
            parse_tsig,
        ),
        (&[0, 11, 8, 2, 6, 7], parse_ta),
        (&[0, 12, 8, 2, 8, 9], parse_dlv),
    ];

    for (packet, parse) in cases {
        let parsed = parse(packet, 0, packet.len()).unwrap();
        let mut encoded = Vec::new();
        match &parsed {
            RData::SIG(value) => encode_sig(value, &mut encoded).unwrap(),
            RData::KEY(value) => encode_key(value, &mut encoded),
            RData::DS(value) => encode_ds(value, &mut encoded),
            RData::SSHFP(value) => encode_sshfp(value, &mut encoded),
            RData::CERT(value) => encode_cert(value, &mut encoded),
            RData::RRSIG(value) => {
                encode_rrsig(value, &mut encoded).unwrap()
            }
            RData::NSEC(value) => {
                encode_nsec(value, &mut encoded).unwrap()
            }
            RData::DNSKEY(value) => encode_dnskey(value, &mut encoded),
            RData::DHCID(value) => encode_dhcid(value, &mut encoded),
            RData::NSEC3(value) => encode_nsec3(value, &mut encoded),
            RData::NSEC3PARAM(value) => encode_nsec3param(value, &mut encoded),
            RData::TLSA(value) => encode_tlsa(value, &mut encoded),
            RData::SMIMEA(value) => encode_smimea(value, &mut encoded),
            RData::HIP(value) => encode_hip(value, &mut encoded).unwrap(),
            RData::NINFO(value) => encode_ninfo(value, &mut encoded),
            RData::RKEY(value) => encode_rkey(value, &mut encoded),
            RData::TALINK(value) => {
                encode_talink(value, &mut encoded).unwrap()
            }
            RData::CDS(value) => encode_cds(value, &mut encoded),
            RData::CDNSKEY(value) => encode_cdnskey(value, &mut encoded),
            RData::OPENPGPKEY(value) => encode_openpgpkey(value, &mut encoded),
            RData::CSYNC(value) => encode_csync(value, &mut encoded),
            RData::ZONEMD(value) => encode_zonemd(value, &mut encoded),
            RData::TKEY(value) => {
                encode_tkey(value, &mut encoded).unwrap()
            }
            RData::TSIG(value) => {
                encode_tsig(value, &mut encoded).unwrap()
            }
            RData::TA(value) => encode_ta(value, &mut encoded),
            RData::DLV(value) => encode_dlv(value, &mut encoded),
            other => panic!("unexpected dnssec rdata variant: {other:?}"),
        }
        assert_eq!(encoded, packet);
    }
}

#[test]
fn dnssec_rdata_rejects_invalid_wire_matrix() {
    let cases: Vec<(&str, Result<RData, ProtoError>)> = vec![
        ("ds too short", parse_ds(&[0, 1, 8], 0, 3)),
        ("sshfp too short", parse_sshfp(&[1], 0, 1)),
        ("cert too short", parse_cert(&[0, 1, 0, 2], 0, 4)),
        ("rrsig too short", parse_rrsig(&[0, 1, 8, 2, 0], 0, 5)),
        (
            "nsec truncated bitmap",
            parse_nsec(&[4, b'n', b'e', b'x', b't', 0, 0], 0, 7),
        ),
        ("dnskey too short", parse_dnskey(&[1, 1, 3], 0, 3)),
        (
            "nsec3 zero bitmap len",
            parse_nsec3(&[1, 0, 0, 1, 1, 0xAA, 1, 0xBB, 0, 0], 0, 10),
        ),
        (
            "nsec3param truncated salt",
            parse_nsec3param(&[1, 0, 0, 1, 2, 0xAA], 0, 6),
        ),
        ("tlsa too short", parse_tlsa(&[3, 1], 0, 2)),
        (
            "hip truncated rendezvous",
            parse_hip(&[4, 1, 0, 3, 1, 2, 3, 4, 5, 6, 7, 2], 0, 12),
        ),
        (
            "talink truncated",
            parse_talink(&[4, b'p', b'r', b'e', b'v', 0, 4], 0, 7),
        ),
        (
            "csync invalid bitmap",
            parse_csync(&[0, 0, 0, 9, 0, 1, 0, 0], 0, 8),
        ),
        ("zonemd too short", parse_zonemd(&[0, 0, 0, 1, 1], 0, 5)),
        (
            "tkey truncated",
            parse_tkey(&[1, b'a', 0, 0, 0, 0, 1], 0, 7),
        ),
        ("tsig truncated", parse_tsig(&[1, b'a', 0, 1, 2, 3], 0, 6)),
    ];

    for (name, result) in cases {
        assert!(result.is_err(), "{name} should fail");
    }
}
