use oxidns::cache::key::{build_cache_key, build_ecs_scope_digest, normalize_domain_key, write_truncated_prefix};
use oxidns::name::Name;
use oxidns::question::Question;
use oxidns::rdata::basic::{ClientSubnet, Edns, EdnsOption, IpAddr};
use oxidns::types::{DNSClass, RecordType};

fn make_question(name: &str) -> Question {
    Question::new(Name::from_ascii(name).expect("query name should be valid"), RecordType::A, DNSClass::IN)
}

#[test]
fn test_normalize_domain_key_trims_lowercases_and_strips_dot() {
    let normalized = normalize_domain_key("  WWW.Example.COM.  ");

    assert_eq!(normalized, "www.example.com");
}

#[test]
fn test_write_truncated_prefix_masks_partial_byte() {
    let mut out = [0u8; 16];

    let network_len = write_truncated_prefix(&[0b1111_0000, 0b1010_1010], 12, &mut out);

    assert_eq!(network_len, 2);
    assert_eq!(out[0], 0b1111_0000);
    assert_eq!(out[1], 0b1010_0000);
}

#[test]
fn test_build_ecs_scope_digest_clamps_prefix_and_truncates_network() {
    let subnet = ClientSubnet::new(IpAddr::V4([192, 0, 2, 129]), 40, 48);

    let digest = build_ecs_scope_digest(&subnet);

    assert_eq!(digest.family, 1);
    assert_eq!(digest.source_prefix, 32);
    assert_eq!(digest.scope_prefix, 32);
    assert_eq!(digest.network_len, 4);
    assert_eq!(&digest.network[..4], &[192, 0, 2, 129]);
}

#[test]
fn test_build_cache_key_uses_normalized_query_and_flags() {
    let question = make_question("WWW.Example.COM.");
    let mut edns = Edns::new();
    edns.set_dnssec_ok(true);

    let cache_key = build_cache_key(Some(&question), Some(&edns), true, false).expect("cache key should exist");

    assert_eq!(cache_key.domain, "www.example.com");
    assert_eq!(cache_key.record_type, RecordType::A);
    assert!(cache_key.do_bit);
    assert!(cache_key.cd_bit);
    assert_eq!(cache_key.ecs_scope, None);
}

#[test]
fn test_build_cache_key_includes_ecs_when_enabled() {
    let question = make_question("example.com.");
    let mut edns = Edns::new();
    edns.insert(EdnsOption::Subnet(ClientSubnet::new(IpAddr::V4([203, 0, 113, 199]), 20, 24)));

    let cache_key = build_cache_key(Some(&question), Some(&edns), false, true).expect("cache key should exist");

    let ecs = cache_key.ecs_scope.expect("ecs should be present");
    assert_eq!(ecs.family, 1);
    assert_eq!(ecs.source_prefix, 20);
    assert_eq!(ecs.scope_prefix, 24);
    assert_eq!(ecs.network_len, 3);
    assert_eq!(&ecs.network[..3], &[203, 0, 112]);
}

#[test]
fn test_build_cache_key_returns_none_without_query() {
    let cache_key = build_cache_key(None, None, false, true);

    assert_eq!(cache_key, None);
}

#[test]
fn cache_key_leaves_out_subnet_when_disabled() {
    let question = make_question("example.com.");
    let mut edns = Edns::new();
    edns.insert(EdnsOption::Subnet(ClientSubnet::new(IpAddr::V4([203, 0, 113, 199]), 20, 24)));
    let cache_key = build_cache_key(Some(&question), Some(&edns), false, false).unwrap();
    assert_eq!(cache_key.ecs_scope, None);
    assert!(!cache_key.do_bit);
    assert!(!cache_key.cd_bit);
    assert_eq!(cache_key.dns_class, DNSClass::IN);
}

#[test]
fn ecs_digest_of_v6_subnet_keeps_whole_bytes_and_masks_the_rest() {
    let addr = [0x20, 0x01, 0x0d, 0xb8, 0xab, 0xcd, 0xff, 0xff, 1, 2, 3, 4, 5, 6, 7, 8];
    let digest = build_ecs_scope_digest(&ClientSubnet::new(IpAddr::V6(addr), 44, 200));
    assert_eq!(digest.family, 2);
    assert_eq!(digest.source_prefix, 44);
    assert_eq!(digest.scope_prefix, 128);
    assert_eq!(digest.network_len, 6);
    assert_eq!(&digest.network[..6], &[0x20, 0x01, 0x0d, 0xb8, 0xab, 0xc0]);
    assert_eq!(&digest.network[6..], &[0u8; 10]);
}

#[test]
fn write_truncated_prefix_zero_prefix_writes_nothing() {
    let mut out = [9u8; 16];
    assert_eq!(write_truncated_prefix(&[1, 2, 3, 4], 0, &mut out), 0);
    assert_eq!(out, [9u8; 16]);
}

#[test]
fn normalize_domain_key_removes_only_one_dot() {
    assert_eq!(normalize_domain_key("a.."), "a.");
    assert_eq!(normalize_domain_key("   "), "");
}
