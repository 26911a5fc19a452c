use oxidns::rdata::basic::{ClientSubnet, Edns, EdnsCode, EdnsLocal, EdnsOption, IpAddr};
use oxidns::wire::length::{edns_option_len, edns_record_len};
use oxidns::wire::rdata::basic::encode_edns_record;

#[test]
fn edns_code_roundtrip_covers_named_registry_values() {
    let cases = [
        (0u16, EdnsCode::Reserved),
        (1, EdnsCode::Llq),
        (2, EdnsCode::UpdateLease),
        (3, EdnsCode::Nsid),
        (4, EdnsCode::Esu),
        (5, EdnsCode::Dau),
        (6, EdnsCode::Dhu),
        (7, EdnsCode::N3u),
        (8, EdnsCode::Subnet),
        (9, EdnsCode::Expire),
        (10, EdnsCode::Cookie),
        (11, EdnsCode::TcpKeepalive),
        (12, EdnsCode::Padding),
        (13, EdnsCode::Chain),
        (14, EdnsCode::KeyTag),
        (15, EdnsCode::ExtendedDnsError),
        (16, EdnsCode::ClientTag),
        (17, EdnsCode::ServerTag),
        (18, EdnsCode::ReportChannel),
        (19, EdnsCode::ZoneVersion),
    ];

    for (wire, named) in cases {
        assert_eq!(EdnsCode::from(wire), named);
        assert_eq!(u16::from(named), wire);
    }

    assert_eq!(EdnsCode::from(65001), EdnsCode::Unknown(65001));
    assert_eq!(u16::from(EdnsCode::Unknown(65001)), 65001);
}

#[test]
fn edns_clone_then_mutate_does_not_change_original() {
    let mut original = Edns::new();
    original.set_udp_payload_size(1232);
    original.set_dnssec_ok(true);
    original.insert(EdnsOption::Local(EdnsLocal::new(65001, vec![1, 2, 3])));

    let mut cloned = original.clone();
    cloned.set_udp_payload_size(4096);
    cloned.set_ext_rcode(2);
    cloned.flags_mut().z = 7;
    cloned.insert(EdnsOption::Local(EdnsLocal::new(65001, vec![9, 9, 9])));

    assert_eq!(original.udp_payload_size(), 1232);
    assert_eq!(original.ext_rcode(), 0);
    assert_eq!(original.flags().z, 0);
    let Some(EdnsOption::Local(local)) = original.option(EdnsCode::Unknown(65001)) else {
        panic!("expected original local edns option");
    };
    assert_eq!(local.data(), &[1, 2, 3]);

    assert_eq!(cloned.udp_payload_size(), 4096);
    assert_eq!(cloned.ext_rcode(), 2);
    assert_eq!(cloned.flags().z, 7);
    let Some(EdnsOption::Local(local)) = cloned.option(EdnsCode::Unknown(65001)) else {
        panic!("expected cloned local edns option");
    };
    assert_eq!(local.data(), &[9, 9, 9]);
}

#[test]
fn edns_option_len_matches_wire_layout() {
    let subnet = EdnsOption::Subnet(ClientSubnet::new(IpAddr::V4([192, 0, 2, 123]), 24, 0));
    assert_eq!(edns_option_len(&subnet), 11);

    let local = EdnsOption::Local(EdnsLocal::new(65001, vec![1, 2, 3]));
    assert_eq!(edns_option_len(&local), 7);
}

#[test]
fn edns_record_len_matches_encoded_opt_rr_size() {
    let mut edns = Edns::new();
    edns.set_udp_payload_size(1400);
    edns.insert(EdnsOption::Local(EdnsLocal::new(65001, vec![1, 2, 3])));

    assert_eq!(edns_record_len(&edns), 11 + 7);
}

#[test]
fn edns_record_len_equals_encoded_size() {
    let mut edns = Edns::new();
    edns.set_udp_payload_size(1400);
    edns.insert(EdnsOption::Subnet(ClientSubnet::new(IpAddr::V6([0x20, 0x01, 0x0d, 0xb8, 0, 0, 0, 0, 0, 0, 0, 0, 0, 0, 0, 1]), 56, 0)));
    edns.insert(EdnsOption::Local(EdnsLocal::new(65001, vec![1, 2, 3])));
    let mut out = Vec::new();
    encode_edns_record(&mut out, &edns, 0).unwrap();
    assert_eq!(edns_record_len(&edns), out.len());
    assert_eq!(out.len(), 11 + (4 + 4 + 7) + 7);
}

#[test]
fn edns_insert_replaces_same_code_and_remove_drops_it() {
    let mut edns = Edns::new();
    edns.insert(EdnsOption::Local(EdnsLocal::new(65001, vec![1])));
    edns.insert(EdnsOption::Local(EdnsLocal::new(65002, vec![2])));
    edns.insert(EdnsOption::Local(EdnsLocal::new(65001, vec![3])));
    assert_eq!(edns.options().len(), 2);
    let Some(EdnsOption::Local(local)) = edns.option(EdnsCode::Unknown(65001)) else {
        panic!("expected local option");
    };
    assert_eq!(local.data(), &[3]);
    edns.remove(EdnsCode::Unknown(65001));
    assert!(edns.option(EdnsCode::Unknown(65001)).is_none());
    assert_eq!(edns.options().len(), 1);
}
