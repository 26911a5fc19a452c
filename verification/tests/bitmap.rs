use oxidns::rdata::bitmap::{decode_type_bit_maps, encode_type_bit_maps, TypeBitMaps};
use oxidns::types::RecordType;

#[test]
fn built_bitmaps_decode_to_sorted_distinct_types() {
    let built = TypeBitMaps::from_types(vec![RecordType::CAA, RecordType::A, RecordType::MX, RecordType::AAAA, RecordType::A]);
    let decoded = TypeBitMaps::from_wire(built.wire_data().to_vec());
    assert_eq!(decoded.types(), &[RecordType::A, RecordType::MX, RecordType::AAAA, RecordType::CAA]);
    assert_eq!(built.wire_data(), &[0, 4, 0x40, 0x01, 0x00, 0x08, 1, 1, 0x40]);
}

#[test]
fn encoding_drops_code_zero_and_malformed_maps_are_rejected() {
    assert_eq!(encode_type_bit_maps(&[RecordType::ZERO]), Vec::<u8>::new());
    assert!(decode_type_bit_maps(&[0, 0]).is_err());
    assert!(decode_type_bit_maps(&[0, 33]).is_err());
    assert!(decode_type_bit_maps(&[1, 1, 0x40, 0, 1, 0x40]).is_err());
    assert!(decode_type_bit_maps(&[0, 2, 0x40]).is_err());
    assert!(TypeBitMaps::try_from_wire(vec![0]).is_err());
}

#[test]
fn encoded_blocks_are_canonical_and_match_the_built_map() {
    assert_eq!(encode_type_bit_maps(&[RecordType::A]), vec![0, 1, 0x40]);
    let w = encode_type_bit_maps(&[RecordType::AAAA, RecordType::A, RecordType::A]);
    assert_eq!(w, vec![0, 4, 0x40, 0, 0, 0x08]);
    assert_ne!(*w.last().unwrap(), 0);
    let types = vec![RecordType::AAAA, RecordType::A];
    let built = TypeBitMaps::from_types(types.clone());
    assert_eq!(built.wire_data(), encode_type_bit_maps(&types).as_slice());
    assert_eq!(built.types(), &[RecordType::AAAA, RecordType::A]);
    let reread = TypeBitMaps::try_from_wire(built.wire_data().to_vec()).unwrap();
    assert_eq!(reread.types(), &[RecordType::A, RecordType::AAAA]);
}
