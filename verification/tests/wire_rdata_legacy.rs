use oxidns::wire::rdata::legacy::{encode_a6, encode_afsdb, encode_aname, encode_apl, encode_atma, encode_dname, encode_eid, encode_gid, encode_gpos, encode_hinfo, encode_isdn, encode_loc, encode_mb, encode_md, encode_mf, encode_mg, encode_minfo, encode_mr, encode_nimloc, encode_nsap, encode_nsapptr, encode_null, encode_nxt, encode_px, encode_rp, encode_rt, encode_sink, encode_uid, encode_uinfo, encode_unspec, encode_wks, encode_x25, parse_a6, parse_afsdb, parse_aname, parse_any, parse_apl, parse_atma, parse_axfr, parse_dname, parse_eid, parse_gid, parse_gpos, parse_hinfo, parse_isdn, parse_ixfr, parse_loc, parse_maila, parse_mailb, parse_mb, parse_md, parse_mf, parse_mg, parse_minfo, parse_mr, parse_nimloc, parse_nsap, parse_nsapptr, parse_null, parse_nxt, parse_px, parse_rp, parse_rt, parse_sink, parse_uid, parse_uinfo, parse_unspec, parse_wks, parse_x25};
use oxidns::error::ProtoError;
use oxidns::name::Name;
use oxidns::rdata::RData;
#[test]
fn legacy_rdata_parse_encode_roundtrip() {
    let cases: Vec<(&[u8], fn(&[u8], usize, usize) -> Result<RData, ProtoError>)> = vec![
        (&[2, b'm', b'd', 0], parse_md),
        (&[2, b'm', b'f', 0], parse_mf),
        (&[2, b'm', b'b', 0], parse_mb),
        (&[2, b'm', b'g', 0], parse_mg),
        (&[2, b'm', b'r', 0], parse_mr),
        (&[1, 2, 3], parse_null),
        (&[1, 2, 3, 4, 6, 0x10], parse_wks),
        (&[3, b'c', b'p', b'u', 2, b'o', b's'], parse_hinfo),
        (
            &[
                5, b'r', b'm', b'a', b'i', b'l', 0, 5, b'e', b'm', b'a', b'i', b'l', 0,
            ],
            parse_minfo,
        ),
        (
            &[4, b'm', b'b', b'o', b'x', 0, 3, b't', b'x', b't', 0],
            parse_rp,
        ),
        (&[0, 1, 5, b'h', b'o', b's', b't', b'1', 0], parse_afsdb),
        (
            &[
                12, b'3', b'1', b'1', b'0', b'6', b'1', b'7', b'0', b'0', b'9', b'5', b'6',
            ],
            parse_x25,
        ),
        (&[0x47, 0x00], parse_nsap),
        (
            &[
                15, b'1', b'5', b'0', b'8', b'6', b'2', b'0', b'2', b'8', b'0', b'0', b'3',
                b'2', b'1', b'7', 3, b'0', b'0', b'4',
            ],
            parse_isdn,
        ),
        (&[0, 1, 2, b'r', b't', 0], parse_rt),
        (&[1, 2], parse_eid),
        (&[3, 4], parse_nimloc),
        (&[6, b'n', b's', b'a', b'p', b't', b'r', 0], parse_nsapptr),
        (
            &[
                0, 1, 6, b'm', b'a', b'p', b'8', b'2', b'2', 0, 7, b'm', b'a', b'p', b'x',
                b'4', b'0', b'0', 0,
            ],
            parse_px,
        ),
        (
            &[
                6, b'-', b'0', b'.', b'0', b'0', b'1', 7, b'5', b'1', b'.', b'4', b'7', b'7',
                b'8', 4, b'4', b'5', b'.', b'0',
            ],
            parse_gpos,
        ),
        (
            &[
                0, 0x12, 0x13, 0x14, 0x81, 0x23, 0x45, 0x67, 0x84, 0x56, 0x78, 0x90, 0x00,
                0x98, 0x97, 0x3B,
            ],
            parse_loc,
        ),
        (&[3, b'n', b'x', b't', 0, 0, 1, 0x40], parse_nxt),
        (&[0x47, 0x00, 0x10], parse_atma),
        (
            &[
                64, 0, 1, 2, 3, 4, 5, 6, 7, 6, b'p', b'r', b'e', b'f', b'i', b'x', 0,
            ],
            parse_a6,
        ),
        (&[1, 2, 3, 4, 5], parse_sink),
        (&[6, b't', b'a', b'r', b'g', b'e', b't', 0], parse_dname),
        (&[0, 1, 24, 3, 192, 0, 2], parse_apl),
        (
            &[9, b'u', b's', b'e', b'r', b' ', b'i', b'n', b'f', b'o'],
            parse_uinfo,
        ),
        (&[0, 0, 3, 232], parse_uid),
        (&[0, 0, 3, 232], parse_gid),
        (&[0xAA, 0xBB], parse_unspec),
        (&[5, b'a', b'n', b'a', b'm', b'e', 0], parse_aname),
        (&[], parse_ixfr),
        (&[], parse_axfr),
        (&[], parse_mailb),
        (&[], parse_maila),
        (&[], parse_any),
    ];

    for (packet, parse) in cases {
        let parsed = parse(packet, 0, packet.len()).unwrap();
        let mut encoded = Vec::new();
        match &parsed {
            RData::MD(value) => encode_md(value, &mut encoded).unwrap(),
            RData::MF(value) => encode_mf(value, &mut encoded).unwrap(),
            RData::MB(value) => encode_mb(value, &mut encoded).unwrap(),
            RData::MG(value) => encode_mg(value, &mut encoded).unwrap(),
            RData::MR(value) => encode_mr(value, &mut encoded).unwrap(),
            RData::NULL(value) => encode_null(value, &mut encoded),
            RData::WKS(value) => encode_wks(value, &mut encoded),
            RData::HINFO(value) => encode_hinfo(value, &mut encoded).unwrap(),
            RData::MINFO(value) => {
                encode_minfo(value, &mut encoded).unwrap()
            }
            RData::RP(value) => encode_rp(value, &mut encoded).unwrap(),
            RData::AFSDB(value) => {
                encode_afsdb(value, &mut encoded).unwrap()
            }
            RData::X25(value) => encode_x25(value, &mut encoded).unwrap(),
            RData::NSAP(value) => encode_nsap(value, &mut encoded),
            RData::ISDN(value) => encode_isdn(value, &mut encoded).unwrap(),
            RData::RT(value) => encode_rt(value, &mut encoded).unwrap(),
            RData::EID(value) => encode_eid(value, &mut encoded),
            RData::NIMLOC(value) => encode_nimloc(value, &mut encoded),
            RData::NSAPPTR(value) => encode_nsapptr(value, &mut encoded).unwrap(),
            RData::PX(value) => encode_px(value, &mut encoded).unwrap(),
            RData::GPOS(value) => encode_gpos(value, &mut encoded).unwrap(),
            RData::LOC(value) => encode_loc(value, &mut encoded),
            RData::NXT(value) => encode_nxt(value, &mut encoded).unwrap(),
            RData::ATMA(value) => encode_atma(value, &mut encoded),
            RData::A6(value) => encode_a6(value, &mut encoded).unwrap(),
            RData::SINK(value) => encode_sink(value, &mut encoded),
            RData::DNAME(value) => encode_dname(value, &mut encoded).unwrap(),
            RData::APL(value) => encode_apl(value, &mut encoded).unwrap(),
            RData::UINFO(value) => encode_uinfo(value, &mut encoded),
            RData::UID(value) => encode_uid(value, &mut encoded),
            RData::GID(value) => encode_gid(value, &mut encoded),
            RData::UNSPEC(value) => encode_unspec(value, &mut encoded),
            RData::ANAME(value) => encode_aname(value, &mut encoded).unwrap(),
            RData::IXFR(_)
            | RData::AXFR(_)
            | RData::MAILB(_)
            | RData::MAILA(_)
            | RData::ANY(_) => {}
            other => panic!("unexpected legacy rdata variant: {other:?}"),
        }
        assert_eq!(encoded, packet);
    }
}

#[test]
fn legacy_rdata_rejects_invalid_wire_matrix() {
    let cases: Vec<(&str, Result<RData, ProtoError>)> = vec![
        ("wks too short", parse_wks(&[1, 2, 3, 4], 0, 4)),
        ("hinfo truncated", parse_hinfo(&[3, b'c', b'p'], 0, 3)),
        ("minfo truncated", parse_minfo(&[2, b'r', b'm', 0], 0, 4)),
        ("rp truncated", parse_rp(&[2, b'm', b'b', 0], 0, 4)),
        ("afsdb truncated", parse_afsdb(&[0, 1], 0, 2)),
        ("x25 empty", parse_x25(&[], 0, 0)),
        ("isdn truncated", parse_isdn(&[3, b'1', b'2'], 0, 3)),
        ("rt truncated", parse_rt(&[0, 1], 0, 2)),
        ("px truncated", parse_px(&[0, 1, 2, b'm'], 0, 4)),
        ("gpos truncated", parse_gpos(&[3, b'1', b'.', b'0'], 0, 4)),
        ("loc wrong length", parse_loc(&[0; 15], 0, 15)),
        (
            "nxt invalid bitmap",
            parse_nxt(&[3, b'n', b'e', b'x', 0, 0, 0], 0, 7),
        ),
        ("a6 prefix too long", parse_a6(&[129], 0, 1)),
        ("sink truncated", parse_sink(&[0], 0, 1)),
        ("apl header truncated", parse_apl(&[0, 1, 24], 0, 3)),
        ("uid short", parse_uid(&[0, 1, 2], 0, 3)),
        ("gid short", parse_gid(&[0, 1, 2], 0, 3)),
        ("ixfr non-empty", parse_ixfr(&[0], 0, 1)),
        ("axfr non-empty", parse_axfr(&[0], 0, 1)),
        ("mailb non-empty", parse_mailb(&[0], 0, 1)),
        ("maila non-empty", parse_maila(&[0], 0, 1)),
        ("any non-empty", parse_any(&[0], 0, 1)),
    ];

    for (name, result) in cases {
        assert!(result.is_err(), "{name} should fail");
    }
}
