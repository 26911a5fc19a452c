//! Owned DNS question model.

use vstd::prelude::*;
use vstd::string::StringExecFns;
use crate::name::{Name, spec_display};
use crate::types::{RecordType, DNSClass, spec_dns_class_mnemonic, spec_record_type_mnemonic};
use crate::wire::compression::{LenCompressionMap, spec_name_len};

verus! {

/// Owned DNS question used by the message representation.
#[derive(Debug, Clone, PartialEq, Eq)]
pub struct Question {
    name: Name,
    qtype: RecordType,
    qclass: DNSClass,
}

impl View for Question {
    type V = (Seq<u8>, RecordType, DNSClass);

    closed spec fn view(&self) -> (Seq<u8>, RecordType, DNSClass) {
        (self.name@, self.qtype, self.qclass)
    }
}

/// `"<name> <class> <type>"`, the name without its final dot.
pub open spec fn spec_question_text(q: (Seq<u8>, RecordType, DNSClass)) -> Seq<char> {
    spec_display(q.0) + seq![' '] + spec_dns_class_mnemonic(q.2) + seq![' ']
        + spec_record_type_mnemonic(q.1)
}

impl Question {
    /// Build a question.
    pub fn new(name: Name, qtype: RecordType, qclass: DNSClass) -> (q: Self)
        ensures
            q@ == (name@, qtype, qclass),
    {
        Self { name, qtype, qclass }
    }

    /// Borrow the question name.
    pub fn name(&self) -> (n: &Name)
        ensures
            n@ == self@.0,
    {
        &self.name
    }

    /// Replace the question name.
    pub fn set_name(&mut self, name: Name)
        ensures
            final(self)@ == (name@, old(self)@.1, old(self)@.2),
    {
        self.name = name;
    }

    /// The requested RR type.
    pub fn qtype(&self) -> (t: RecordType)
        ensures
            t == self@.1,
    {
        self.qtype
    }

    /// Replace the requested RR type.
    pub fn set_qtype(&mut self, qtype: RecordType)
        ensures
            final(self)@ == (old(self)@.0, qtype, old(self)@.2),
    {
        self.qtype = qtype;
    }

    /// The requested RR class.
    pub fn qclass(&self) -> (c: DNSClass)
        ensures
            c == self@.2,
    {
        self.qclass
    }

    /// Replace the requested RR class.
    pub fn set_qclass(&mut self, qclass: DNSClass)
        ensures
            final(self)@ == (old(self)@.0, old(self)@.1, qclass),
    {
        self.qclass = qclass;
    }

    /// Encoded length of the question at this point of a message: the name
    /// (compressed against the suffixes in `compression`) plus QTYPE and
    /// QCLASS.
    pub fn bytes_len(&self, compression: &mut LenCompressionMap) -> (n: usize)
        requires
            spec_name_len(self@.0, old(compression)@, true).0 + 4 <= usize::MAX,
        ensures
            n == spec_name_len(self@.0, old(compression)@, true).0 + 4,
            final(compression)@ == spec_name_len(self@.0, old(compression)@, true).1,
    {
        let n = self.name.bytes_len_at(true, compression);
        n + 4
    }

    /// Presentation text, e.g. `"example.com IN AAAA"`.
    pub fn to_string(&self) -> (s: String)
        ensures
            s@ == spec_question_text(self@),
    {
        let mut s = self.name.to_display_string();
        s.append(" ");
        s.append(self.qclass.mnemonic());
        s.append(" ");
        s.append(self.qtype.mnemonic());
        proof {
            reveal_strlit(" ");
        }
        s
    }
}

} // verus!
