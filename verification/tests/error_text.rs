use oxidns::error::ProtoError;

#[test]
fn protocol_error_text_has_the_protocol_prefix() {
    let e = ProtoError::protocol("bad rdata");
    assert!(matches!(&e, ProtoError::Protocol(m) if m == "bad rdata"));
    assert_eq!(e.to_string(), "DNS protocol error: bad rdata");
    let n = ProtoError::new("bad rdata");
    assert_eq!(n.to_string(), e.to_string());
}

#[test]
fn unknown_mnemonic_errors_have_their_own_prefixes() {
    let c = ProtoError::UnknownDnsClassStr("XX".to_string());
    assert_eq!(c.to_string(), "dns class string unknown: XX");
    let t = ProtoError::UnknownRecordTypeStr("ZZ".to_string());
    assert_eq!(t.to_string(), "record type string unknown: ZZ");
}
