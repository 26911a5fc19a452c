//! DNS message header flags and identity fields.

use vstd::prelude::*;
use crate::types::{MessageType, Opcode, Rcode, spec_opcode_from_u8};

verus! {

/// Message header carried by the owned DNS message model.
#[derive(Clone, Copy, Debug, PartialEq, Eq, Structural, Hash)]
pub struct Header {
    pub id: u16,
    pub message_type: MessageType,
    pub opcode: Opcode,
    pub authoritative: bool,
    pub truncated: bool,
    pub recursion_desired: bool,
    pub recursion_available: bool,
    pub authentic_data: bool,
    pub checking_disabled: bool,
    pub rcode: Rcode,
}

/// The header that an id and a wire flag word describe (RFC 1035 section
/// 4.1.1, RFC 4035 section 3.2 for AD and CD).  The RCODE bits are not read:
/// the full response code also needs the EDNS extension.
pub open spec fn spec_header_from_wire(id: u16, flags: u16) -> Header {
    Header {
        id,
        message_type: if (flags & 0x8000) != 0 {
            MessageType::Response
        } else {
            MessageType::Query
        },
        opcode: spec_opcode_from_u8(((flags >> 11u16) & 0x0F) as u8),
        authoritative: (flags & 0x0400) != 0,
        truncated: (flags & 0x0200) != 0,
        recursion_desired: (flags & 0x0100) != 0,
        recursion_available: (flags & 0x0080) != 0,
        authentic_data: (flags & 0x0020) != 0,
        checking_disabled: (flags & 0x0010) != 0,
        rcode: Rcode::NoError,
    }
}

/// The header of a fresh query: id 0, all flags clear, opcode QUERY, NOERROR.
pub open spec fn spec_header_new() -> Header {
    Header {
        id: 0,
        message_type: MessageType::Query,
        opcode: Opcode::Query,
        authoritative: false,
        truncated: false,
        recursion_desired: false,
        recursion_available: false,
        authentic_data: false,
        checking_disabled: false,
        rcode: Rcode::NoError,
    }
}

impl Default for Header {
    fn default() -> (h: Self)
        ensures
            h == spec_header_new(),
    {
        Self::new()
    }
}

impl Header {
    /// A fresh query header.
    pub fn new() -> (h: Self)
        ensures
            h == spec_header_new(),
    {
        Header {
            id: 0,
            message_type: MessageType::Query,
            opcode: Opcode::Query,
            authoritative: false,
            truncated: false,
            recursion_desired: false,
            recursion_available: false,
            authentic_data: false,
            checking_disabled: false,
            rcode: Rcode::NoError,
        }
    }

    pub fn id(&self) -> (v: u16)
        ensures
            v == self.id,
    {
        self.id
    }

    pub fn set_id(&mut self, id: u16)
        ensures
            *final(self) == (Header { id, ..*old(self) }),
    {
        self.id = id;
    }

    pub fn message_type(&self) -> (v: MessageType)
        ensures
            v == self.message_type,
    {
        self.message_type
    }

    pub fn set_message_type(&mut self, kind: MessageType)
        ensures
            *final(self) == (Header { message_type: kind, ..*old(self) }),
    {
        self.message_type = kind;
    }

    pub fn opcode(&self) -> (v: Opcode)
        ensures
            v == self.opcode,
    {
        self.opcode
    }

    pub fn set_opcode(&mut self, opcode: Opcode)
        ensures
            *final(self) == (Header { opcode, ..*old(self) }),
    {
        self.opcode = opcode;
    }

    pub fn authoritative(&self) -> (v: bool)
        ensures
            v == self.authoritative,
    {
        self.authoritative
    }

    pub fn set_authoritative(&mut self, value: bool)
        ensures
            *final(self) == (Header { authoritative: value, ..*old(self) }),
    {
        self.authoritative = value;
    }

    pub fn truncated(&self) -> (v: bool)
        ensures
            v == self.truncated,
    {
        self.truncated
    }

    pub fn set_truncated(&mut self, value: bool)
        ensures
            *final(self) == (Header { truncated: value, ..*old(self) }),
    {
        self.truncated = value;
    }

    pub fn recursion_desired(&self) -> (v: bool)
        ensures
            v == self.recursion_desired,
    {
        self.recursion_desired
    }

    pub fn set_recursion_desired(&mut self, value: bool)
        ensures
            *final(self) == (Header { recursion_desired: value, ..*old(self) }),
    {
        self.recursion_desired = value;
    }

    pub fn recursion_available(&self) -> (v: bool)
        ensures
            v == self.recursion_available,
    {
        self.recursion_available
    }

    pub fn set_recursion_available(&mut self, value: bool)
        ensures
            *final(self) == (Header { recursion_available: value, ..*old(self) }),
    {
        self.recursion_available = value;
    }

    pub fn authentic_data(&self) -> (v: bool)
        ensures
            v == self.authentic_data,
    {
        self.authentic_data
    }

    pub fn set_authentic_data(&mut self, value: bool)
        ensures
            *final(self) == (Header { authentic_data: value, ..*old(self) }),
    {
        self.authentic_data = value;
    }

    pub fn checking_disabled(&self) -> (v: bool)
        ensures
            v == self.checking_disabled,
    {
        self.checking_disabled
    }

    pub fn set_checking_disabled(&mut self, value: bool)
        ensures
            *final(self) == (Header { checking_disabled: value, ..*old(self) }),
    {
        self.checking_disabled = value;
    }

    pub fn rcode(&self) -> (v: Rcode)
        ensures
            v == self.rcode,
    {
        self.rcode
    }

    pub fn set_rcode(&mut self, rcode: Rcode)
        ensures
            *final(self) == (Header { rcode, ..*old(self) }),
    {
        self.rcode = rcode;
    }

    /// Decode the header from its id and flag word.
    pub fn from_wire(id: u16, flags: u16) -> (h: Self)
        ensures
            h == spec_header_from_wire(id, flags),
    {
        Header {
            id,
            message_type: if (flags & 0x8000) != 0 {
                MessageType::Response
            } else {
                MessageType::Query
            },
            opcode: Opcode::from_u8(((flags >> 11u16) & 0x0F) as u8),
            authoritative: (flags & 0x0400) != 0,
            truncated: (flags & 0x0200) != 0,
            recursion_desired: (flags & 0x0100) != 0,
            recursion_available: (flags & 0x0080) != 0,
            authentic_data: (flags & 0x0020) != 0,
            checking_disabled: (flags & 0x0010) != 0,
            rcode: Rcode::NoError,
        }
    }
}

/// Bit `k` of a 16-bit word (bit 0 the least significant), read by
/// arithmetic on the word's value.
pub open spec fn spec_bit(w: u16, k: nat) -> bool {
    (w as int / vstd::arithmetic::power2::pow2(k) as int) % 2 == 1
}

/// Each flag of a decoded header is its own bit of the flag word (RFC 1035
/// section 4.1.1): QR bit 15, OPCODE bits 11 to 14, AA bit 10, TC bit 9,
/// RD bit 8, RA bit 7, AD bit 5, CD bit 4; the id is kept and the response
/// code is left at NOERROR.  So a flag depends on its bit alone: an
/// ordinary recursive response (`0x8180`) is not authoritative.
pub proof fn lemma_header_flags_are_bits(id: u16, flags: u16)
    ensures
        spec_header_from_wire(id, flags).id == id,
        (spec_header_from_wire(id, flags).message_type == MessageType::Response) == spec_bit(flags, 15),
        spec_header_from_wire(id, flags).message_type == MessageType::Response
            || spec_header_from_wire(id, flags).message_type == MessageType::Query,
        spec_header_from_wire(id, flags).opcode == spec_opcode_from_u8(((flags as int / 2048) % 16) as u8),
        spec_header_from_wire(id, flags).authoritative == spec_bit(flags, 10),
        spec_header_from_wire(id, flags).truncated == spec_bit(flags, 9),
        spec_header_from_wire(id, flags).recursion_desired == spec_bit(flags, 8),
        spec_header_from_wire(id, flags).recursion_available == spec_bit(flags, 7),
        spec_header_from_wire(id, flags).authentic_data == spec_bit(flags, 5),
        spec_header_from_wire(id, flags).checking_disabled == spec_bit(flags, 4),
        spec_header_from_wire(id, flags).rcode == Rcode::NoError,
{
    vstd::arithmetic::power2::lemma2_to64();
    assert(((flags & 0x8000) != 0) == ((flags / 32768) % 2 == 1)) by (bit_vector);
    assert(((flags >> 11u16) & 0x0F) == (flags / 2048) % 16) by (bit_vector);
    assert(((flags & 0x0400) != 0) == ((flags / 1024) % 2 == 1)) by (bit_vector);
    assert(((flags & 0x0200) != 0) == ((flags / 512) % 2 == 1)) by (bit_vector);
    assert(((flags & 0x0100) != 0) == ((flags / 256) % 2 == 1)) by (bit_vector);
    assert(((flags & 0x0080) != 0) == ((flags / 128) % 2 == 1)) by (bit_vector);
    assert(((flags & 0x0020) != 0) == ((flags / 32) % 2 == 1)) by (bit_vector);
    assert(((flags & 0x0010) != 0) == ((flags / 16) % 2 == 1)) by (bit_vector);
}

} // verus!
