//! Protocol error type shared by the codec.

use vstd::prelude::*;
use vstd::string::StringExecFns;
use crate::text::{chars_of, string_from_chars};

verus! {

/// Errors raised while building, parsing or encoding DNS data.
#[derive(Debug)]
pub enum ProtoError {
    /// A malformed or unsupported wire structure.
    Protocol(String),
    /// A DNS class mnemonic that is not known.
    UnknownDnsClassStr(String),
    /// A record type mnemonic that is not known.
    UnknownRecordTypeStr(String),
}

impl ProtoError {
    /// Build a protocol error carrying `msg`.
    pub fn protocol(msg: &str) -> (e: Self)
        ensures
            e matches ProtoError::Protocol(m) && m@ == msg@,
            e.spec_text() == "DNS protocol error: "@ + msg@,
    {
        ProtoError::Protocol(String::from_str(msg))
    }

    /// Build a protocol error carrying `msg`.
    pub fn new(msg: &str) -> (e: Self)
        ensures
            e matches ProtoError::Protocol(m) && m@ == msg@,
            e.spec_text() == "DNS protocol error: "@ + msg@,
    {
        ProtoError::Protocol(String::from_str(msg))
    }

    /// Build a protocol error whose message is `prefix`, `subject` and
    /// `suffix` run together.
    pub fn described(prefix: &str, subject: &str, suffix: &str) -> (e: Self)
        ensures
            e matches ProtoError::Protocol(m) && m@ == prefix@ + subject@ + suffix@,
    {
        let mut v = chars_of(prefix);
        let mut b = chars_of(subject);
        let mut c = chars_of(suffix);
        v.append(&mut b);
        v.append(&mut c);
        ProtoError::Protocol(string_from_chars(v.as_slice()))
    }

    /// Rendered text of the error: a fixed prefix for each kind, then the
    /// message.
    pub open spec fn spec_text(&self) -> Seq<char> {
        match self {
            ProtoError::Protocol(m) => "DNS protocol error: "@ + m@,
            ProtoError::UnknownDnsClassStr(m) => "dns class string unknown: "@ + m@,
            ProtoError::UnknownRecordTypeStr(m) => "record type string unknown: "@ + m@,
        }
    }

    /// The error as text.
    pub fn to_string(&self) -> (s: String)
        ensures
            s@ == self.spec_text(),
    {
        let (prefix, m) = match self {
            ProtoError::Protocol(m) => ("DNS protocol error: ", m),
            ProtoError::UnknownDnsClassStr(m) => ("dns class string unknown: ", m),
            ProtoError::UnknownRecordTypeStr(m) => ("record type string unknown: ", m),
        };
        let mut v = chars_of(prefix);
        let mut b = chars_of(m.as_str());
        v.append(&mut b);
        string_from_chars(v.as_slice())
    }

    /// True for the protocol variant.
    pub open spec fn is_protocol(&self) -> bool {
        self is Protocol
    }
}

} // verus!
