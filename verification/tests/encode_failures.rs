use oxidns::rdata::basic::{EdnsLocal, EdnsOption};
use oxidns::rdata::legacy::{APL, AplPrefix, HINFO};
use oxidns::rdata::RData;
use oxidns::wire::rdata::basic::encode_edns_option;
use oxidns::wire::rdata::encode_rdata;

#[test]
fn oversized_option_leaves_its_code_behind() {
    let mut out = vec![7];
    let option = EdnsOption::Local(EdnsLocal::new(65001, vec![0; 70000]));
    assert!(encode_edns_option(&mut out, &option).is_err());
    assert_eq!(out, vec![7, 0xFD, 0xE9]);
}

#[test]
fn hinfo_with_long_os_leaves_the_cpu_string() {
    let mut out = Vec::new();
    let hinfo = RData::HINFO(HINFO::new(b"x86".to_vec(), vec![b'a'; 300]));
    assert!(encode_rdata(&hinfo, &mut out).is_err());
    assert_eq!(out, vec![3, b'x', b'8', b'6']);
}

#[test]
fn apl_with_long_address_part_leaves_family_and_prefix() {
    let mut out = Vec::new();
    let apl = RData::APL(APL::new(vec![
        AplPrefix::new(1, 24, false, vec![192, 0, 2]),
        AplPrefix::new(2, 64, false, vec![0; 200]),
    ]));
    assert!(encode_rdata(&apl, &mut out).is_err());
    assert_eq!(out, vec![0, 1, 24, 3, 192, 0, 2, 0, 2, 64]);
}
