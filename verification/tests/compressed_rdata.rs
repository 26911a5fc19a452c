use oxidns::name::Name;
use oxidns::rdata::basic::{CNAME, MX, SRV};
use oxidns::rdata::RData;
use oxidns::wire::compression::{CompressionState, LenCompressionMap};
use oxidns::wire::rdata::encode_rdata;
use oxidns::wire::rdata_compress::encode_rdata_compressed;

fn name(s: &str) -> Name {
    Name::from_ascii(s).unwrap()
}

#[test]
fn repeated_suffix_becomes_a_pointer() {
    let mut state = CompressionState::new(true);
    let mut out = vec![0u8; 12];
    let cname = RData::CNAME(CNAME(name("www.example.com.")));
    encode_rdata_compressed(&cname, &mut state, &mut out).unwrap();
    assert_eq!(out.len(), 12 + 17);
    let mx = RData::MX(MX::new(10, name("mail.example.com.")));
    encode_rdata_compressed(&mx, &mut state, &mut out).unwrap();
    // preference, then "mail" and a pointer to "example.com." written at offset 16
    assert_eq!(&out[29..], &[0, 10, 4, b'm', b'a', b'i', b'l', 0xC0, 16]);
}

#[test]
fn uncompressible_names_are_written_in_full_but_recorded() {
    let mut state = CompressionState::new(true);
    let mut out = Vec::new();
    let srv = RData::SRV(SRV::new(1, 2, 3, name("host.example.")));
    encode_rdata_compressed(&srv, &mut state, &mut out).unwrap();
    let mut plain = Vec::new();
    encode_rdata(&srv, &mut plain).unwrap();
    assert_eq!(out, plain);
    let cname = RData::CNAME(CNAME(name("host.example.")));
    encode_rdata_compressed(&cname, &mut state, &mut out).unwrap();
    assert_eq!(&out[plain.len()..], &[0xC0, 6]);
}

#[test]
fn compressed_length_matches_recorded_sizing() {
    let records = vec![
        RData::CNAME(CNAME(name("www.example.com."))),
        RData::MX(MX::new(10, name("mail.example.com."))),
        RData::SRV(SRV::new(1, 2, 3, name("sip.example.com."))),
        RData::CNAME(CNAME(name("sip.example.com."))),
    ];
    let mut state = CompressionState::new(true);
    let mut sizes = LenCompressionMap::new(true);
    let mut out = Vec::new();
    for r in &records {
        let before = out.len();
        encode_rdata_compressed(r, &mut state, &mut out).unwrap();
        assert_eq!(out.len() - before, r.bytes_len(&mut sizes));
    }
}
