use oxidns::names::{dns_class_name, edns_code_name, format_record_type_from_u16, record_type_name, svcb_param_name};
use oxidns::rdata::basic::EdnsCode;
use oxidns::types::{DNSClass, RecordType};

#[test]
fn record_type_names_use_mnemonics_and_numeric_fallback() {
    assert_eq!(record_type_name(RecordType::A), "A");
    assert_eq!(record_type_name(RecordType::AAAA), "AAAA");
    assert_eq!(record_type_name(RecordType::Unknown(65280)), "TYPE65280");
    assert_eq!(format_record_type_from_u16(28), "AAAA");
    assert_eq!(format_record_type_from_u16(15), "MX");
}

#[test]
fn class_names_cover_opt_and_unknown() {
    assert_eq!(dns_class_name(DNSClass::IN), "IN");
    assert_eq!(dns_class_name(DNSClass::CH), "CH");
    assert_eq!(dns_class_name(DNSClass::OPT(1232)), "OPT(1232)");
    assert_eq!(dns_class_name(DNSClass::Unknown(7)), "CLASS7");
}

#[test]
fn edns_code_names_follow_variants() {
    assert_eq!(edns_code_name(EdnsCode::Subnet), "Subnet");
    assert_eq!(edns_code_name(EdnsCode::ExtendedDnsError), "ExtendedDnsError");
    assert_eq!(edns_code_name(EdnsCode::Unknown(65001)), "Unknown(65001)");
    assert_eq!(edns_code_name(EdnsCode::from(10)), "Cookie");
}

#[test]
fn svcb_param_names_follow_registry() {
    assert_eq!(svcb_param_name(0), "mandatory");
    assert_eq!(svcb_param_name(2), "no-default-alpn");
    assert_eq!(svcb_param_name(8), "ohttp");
    assert_eq!(svcb_param_name(9), "unknown");
}
