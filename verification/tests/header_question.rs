use oxidns::header::Header;
use oxidns::name::Name;
use oxidns::question::Question;
use oxidns::types::{DNSClass, MessageType, Opcode, RecordType};

#[test]
fn from_wire_decodes_dns_header_flags() {
    let header = Header::from_wire(0x1234, 0xA5B3);

    assert_eq!(header.id(), 0x1234);
    assert_eq!(header.message_type(), MessageType::Response);
    assert_eq!(header.opcode(), Opcode::Notify);
    assert!(header.authoritative());
    assert!(header.recursion_desired());
    assert!(header.recursion_available());
    assert!(header.authentic_data());
    assert!(header.checking_disabled());
}

#[test]
fn clone_then_mutate_does_not_change_original() {
    let original = Question::new(
        Name::from_ascii("example.com.").unwrap(),
        RecordType::A,
        DNSClass::IN,
    );
    let mut cloned = original.clone();
    cloned.set_name(Name::from_ascii("other.example.").unwrap());
    cloned.set_qtype(RecordType::AAAA);
    cloned.set_qclass(DNSClass::CH);

    assert_eq!(original.name().to_fqdn(), "example.com.");
    assert_eq!(original.qtype(), RecordType::A);
    assert_eq!(original.qclass(), DNSClass::IN);
    assert_eq!(cloned.name().to_fqdn(), "other.example.");
    assert_eq!(cloned.qtype(), RecordType::AAAA);
    assert_eq!(cloned.qclass(), DNSClass::CH);
}

#[test]
fn display_formats_question_in_dns_style() {
    let question = Question::new(
        Name::from_ascii("example.com.").unwrap(),
        RecordType::AAAA,
        DNSClass::IN,
    );

    assert_eq!(question.to_string(), "example.com IN AAAA");
}

#[test]
fn header_new_is_a_query_with_no_flags() {
    let header = Header::new();
    assert_eq!(header.id(), 0);
    assert_eq!(header.message_type(), MessageType::Query);
    assert_eq!(header.opcode(), Opcode::Query);
    assert!(!header.authoritative());
    assert!(!header.truncated());
    assert!(!header.recursion_desired());
    assert!(!header.checking_disabled());
}

#[test]
fn header_from_wire_reads_query_bits_and_truncation() {
    let header = Header::from_wire(7, 0x0300);
    assert_eq!(header.message_type(), MessageType::Query);
    assert!(header.truncated());
    assert!(header.recursion_desired());
    assert!(!header.recursion_available());
}

#[test]
fn question_size_is_name_plus_type_and_class() {
    let question = Question::new(Name::from_ascii("example.com.").unwrap(), RecordType::A, DNSClass::IN);
    let mut compression = oxidns::wire::compression::LenCompressionMap::new(true);
    assert_eq!(question.bytes_len(&mut compression), 13 + 4);
    assert_eq!(question.bytes_len(&mut compression), 2 + 4);
}
