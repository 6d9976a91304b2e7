//! The fixed twelve-byte header of a DNS message.

use crate::error::DnsError;
use crate::wire::{be16, be16_at, push_u16, read_u16};
use vstd::prelude::*;

verus! {

/// The length of a header on the wire.
pub const HEADER_LEN: usize = 12;

/// The header of a message.
#[derive(Clone, Copy, Debug, PartialEq, Eq, Structural)]
pub struct Header {
    /// The transaction id.
    pub id: u16,
    /// Whether the message is a response.
    pub qr: bool,
    /// The operation code, four bits.
    pub opcode: u8,
    /// Authoritative answer.
    pub aa: bool,
    /// Truncation.
    pub tc: bool,
    /// Recursion desired.
    pub rd: bool,
    /// Recursion available.
    pub ra: bool,
    /// The reserved bits, three of them.
    pub z: u8,
    /// The response code, four bits.
    pub rcode: u8,
    /// The number of questions.
    pub qdcount: u16,
    /// The number of answers.
    pub ancount: u16,
    /// The number of authority records.
    pub nscount: u16,
    /// The number of additional records.
    pub arcount: u16,
}

/// A flag as the weight of its bit.
pub open spec fn flag(set: bool, weight: int) -> int {
    if set {
        weight
    } else {
        0
    }
}

impl Header {
    /// The operation code, the reserved bits and the response code fit the
    /// bits that the header has for them.
    pub open spec fn wf(self) -> bool {
        self.opcode < 16 && self.z < 8 && self.rcode < 16
    }

    /// The first flag byte, from its most significant bit down: `qr`, the
    /// four bits of `opcode`, `aa`, `tc`, `rd`.
    pub open spec fn flags_high(self) -> u8 {
        (flag(self.qr, 128) + self.opcode * 8 + flag(self.aa, 4) + flag(self.tc, 2) + flag(
            self.rd,
            1,
        )) as u8
    }

    /// The second flag byte, from its most significant bit down: `ra`, the
    /// three bits of `z`, the four bits of `rcode`.
    pub open spec fn flags_low(self) -> u8 {
        (flag(self.ra, 128) + self.z * 16 + self.rcode) as u8
    }

    /// The header on the wire: the id, the two flag bytes and the four
    /// counts, twelve bytes in all.
    pub open spec fn wire(self) -> Seq<u8> {
        be16(self.id) + seq![self.flags_high(), self.flags_low()] + be16(self.qdcount) + be16(
            self.ancount,
        ) + be16(self.nscount) + be16(self.arcount)
    }

    /// The header that the first twelve bytes of `bytes` hold.
    pub open spec fn parse(bytes: Seq<u8>) -> Header
        recommends
            bytes.len() >= HEADER_LEN,
    {
        Header {
            id: be16_at(bytes, 0),
            qr: bytes[2] >= 128,
            opcode: (bytes[2] / 8 % 16) as u8,
            aa: bytes[2] / 4 % 2 == 1,
            tc: bytes[2] / 2 % 2 == 1,
            rd: bytes[2] % 2 == 1,
            ra: bytes[3] >= 128,
            z: (bytes[3] / 16 % 8) as u8,
            rcode: (bytes[3] % 16) as u8,
            qdcount: be16_at(bytes, 4),
            ancount: be16_at(bytes, 6),
            nscount: be16_at(bytes, 8),
            arcount: be16_at(bytes, 10),
        }
    }

    /// Whether the fields fit their bits.
    pub fn is_well_formed(&self) -> (r: bool)
        ensures
            r == self.wf(),
    {
        self.opcode < 16 && self.z < 8 && self.rcode < 16
    }

    /// Writes the header.
    pub fn to_bytes(&self) -> (bytes: Vec<u8>)
        requires
            self.wf(),
        ensures
            bytes@ == self.wire(),
            bytes@.len() == HEADER_LEN,
    {
        let high: u8 = (if self.qr {
            128u8
        } else {
            0u8
        }) + self.opcode * 8 + (if self.aa {
            4u8
        } else {
            0u8
        }) + (if self.tc {
            2u8
        } else {
            0u8
        }) + (if self.rd {
            1u8
        } else {
            0u8
        });
        let low: u8 = (if self.ra {
            128u8
        } else {
            0u8
        }) + self.z * 16 + self.rcode;
        let mut bytes: Vec<u8> = Vec::new();
        push_u16(&mut bytes, self.id);
        bytes.push(high);
        bytes.push(low);
        push_u16(&mut bytes, self.qdcount);
        push_u16(&mut bytes, self.ancount);
        push_u16(&mut bytes, self.nscount);
        push_u16(&mut bytes, self.arcount);
        assert(bytes@ =~= self.wire());
        bytes
    }

    /// Reads a header from the first twelve bytes of `bytes`. Fewer than
    /// twelve bytes are no header.
    pub fn from_bytes(bytes: &[u8]) -> (r: Result<Header, DnsError>)
        ensures
            match r {
                Ok(header) => bytes@.len() >= HEADER_LEN && header == Header::parse(bytes@)
                    && header.wf(),
                Err(e) => e == DnsError::MalformedPacket && bytes@.len() < HEADER_LEN,
            },
    {
        if bytes.len() < HEADER_LEN {
            return Err(DnsError::MalformedPacket);
        }
        let high: u8 = bytes[2];
        let low: u8 = bytes[3];
        Ok(
            Header {
                id: read_u16(bytes, 0),
                qr: high >= 128,
                opcode: high / 8 % 16,
                aa: high / 4 % 2 == 1,
                tc: high / 2 % 2 == 1,
                rd: high % 2 == 1,
                ra: low >= 128,
                z: low / 16 % 8,
                rcode: low % 16,
                qdcount: read_u16(bytes, 4),
                ancount: read_u16(bytes, 6),
                nscount: read_u16(bytes, 8),
                arcount: read_u16(bytes, 10),
            },
        )
    }

    /// A header whose fields fit their bits is read back from its bytes as
    /// it was written, the reserved bits included.
    pub proof fn lemma_round_trip(self)
        requires
            self.wf(),
        ensures
            self.wire().len() == HEADER_LEN,
            Header::parse(self.wire()) == self,
    {
        let bytes = self.wire();
        assert(bytes[2] == self.flags_high());
        assert(bytes[3] == self.flags_low());
    }
}

} // verus!
