use oxidns::name::Name;
use oxidns::rdata::basic::{MX, SOA, TXT};
use oxidns::rdata::dnssec::HIP;
use oxidns::rdata::legacy::{A6, APL, AplPrefix};
use oxidns::rdata::RData;
use oxidns::wire::compression::{domain_name_len, CompressionState, LenCompressionMap};
use oxidns::wire::rdata::encode_rdata;

fn name(text: &str) -> Name {
    Name::from_ascii(text).unwrap()
}

#[test]
fn label_suffixes_walk_the_name() {
    let n = name("www.example.com.");
    let (len, suffix) = n.wire_label_len_and_suffix_at(1);
    assert_eq!(len, 7);
    assert_eq!(suffix, b"\x07example\x03com\x00");
    let (len, suffix) = n.wire_label_len_and_suffix_at(0);
    assert_eq!(len, 3);
    assert_eq!(suffix, n.wire());
}

#[test]
fn names_after_a_shared_suffix_are_sized_as_pointers() {
    let mut map = LenCompressionMap::new(true);
    assert_eq!(domain_name_len(&name("www.example.com."), &mut map, true), 17);
    assert_eq!(domain_name_len(&name("mail.example.com."), &mut map, true), 5 + 2);
    assert_eq!(domain_name_len(&name("mail.example.com."), &mut map, true), 2);
    assert_eq!(domain_name_len(&name("mail.example.com."), &mut map, false), 18);
    assert_eq!(domain_name_len(&Name::root(), &mut map, true), 1);
}

#[test]
fn disabled_map_sizes_names_in_full() {
    let mut map = LenCompressionMap::new(false);
    assert_eq!(domain_name_len(&name("www.example.com."), &mut map, true), 17);
    assert_eq!(domain_name_len(&name("www.example.com."), &mut map, true), 17);
    let mut on = LenCompressionMap::new(true);
    assert_eq!(domain_name_len(&name("a.example."), &mut on, true), 11);
    on.disable();
    assert_eq!(domain_name_len(&name("a.example."), &mut on, true), 11);
}

#[test]
fn rdata_size_uses_compression_for_mx() {
    let mut map = LenCompressionMap::new(true);
    let mx = RData::MX(MX::new(10, name("mail.example.com.")));
    assert_eq!(mx.bytes_len(&mut map), 2 + 18);
    assert_eq!(mx.bytes_len(&mut map), 2 + 2);
}

#[test]
fn rdata_size_matches_encoding_when_not_compressing() {
    let cases = vec![
        RData::MX(MX::new(10, name("mail.example.com."))),
        RData::SOA(SOA::new(name("ns.example."), name("host.example."), 1, 2, 3, 4, 5)),
        RData::TXT(TXT::new(vec![5, b'h', b'e', b'l', b'l', b'o'])),
        RData::HIP(HIP::new(vec![1, 2, 3, 4], 2, vec![5, 6, 7], vec![name("rv.example."), name("rv2.example.")])),
        RData::A6(A6::new(64, vec![0, 1, 2, 3, 4, 5, 6, 7], Some(name("prefix.")))),
        RData::APL(APL::new(vec![AplPrefix::new(1, 24, false, vec![192, 0, 2])])),
    ];
    for rdata in cases {
        let mut map = LenCompressionMap::new(false);
        let mut out = Vec::new();
        encode_rdata(&rdata, &mut out).unwrap();
        assert_eq!(rdata.bytes_len(&mut map), out.len(), "{rdata:?}");
    }
}

#[test]
fn compression_state_keeps_first_offset_and_finds_pointers() {
    let mut state = CompressionState::new(true);
    let n = name("www.example.com.");
    assert_eq!(state.pointer_for(&n), None);
    state.insert_suffix(b"\x07example\x03com\x00", 12);
    state.insert_suffix(b"\x07example\x03com\x00", 40);
    state.insert_suffix(b"\x03com\x00", 0x4000);
    assert_eq!(state.pointer_for(&n), Some((1, 12)));
    assert_eq!(state.pointer_for(&name("example.org.")), None);
    state.disable();
    assert_eq!(state.pointer_for(&n), None);
}

#[test]
fn disabled_compression_state_records_nothing() {
    let mut state = CompressionState::new(false);
    state.insert_suffix(b"\x03com\x00", 12);
    assert_eq!(state.pointer_for(&name("example.com.")), None);
}
