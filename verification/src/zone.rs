//! What the zone-data backend holds: record sets, and the codes of their
//! types and classes.

use crate::error::DnsError;
use crate::text::text_bytes;
use vstd::prelude::*;

verus! {

/// The record types that a question may ask for.
#[derive(Clone, Copy, Debug, PartialEq, Eq, Structural)]
pub enum RecordType {
    A,
    AAAA,
    CNAME,
    MX,
    NS,
    PTR,
    SOA,
    SRV,
    TXT,
}

impl RecordType {
    /// The code that stands for this type on the wire.
    pub open spec fn code_of(self) -> u16 {
        match self {
            RecordType::A => 1,
            RecordType::AAAA => 28,
            RecordType::CNAME => 5,
            RecordType::MX => 15,
            RecordType::NS => 2,
            RecordType::PTR => 12,
            RecordType::SOA => 6,
            RecordType::SRV => 33,
            RecordType::TXT => 16,
        }
    }

    /// The type that a code stands for, if it stands for one.
    pub open spec fn of_code(code: int) -> Option<RecordType> {
        if code == 1 {
            Some(RecordType::A)
        } else if code == 28 {
            Some(RecordType::AAAA)
        } else if code == 5 {
            Some(RecordType::CNAME)
        } else if code == 15 {
            Some(RecordType::MX)
        } else if code == 2 {
            Some(RecordType::NS)
        } else if code == 12 {
            Some(RecordType::PTR)
        } else if code == 6 {
            Some(RecordType::SOA)
        } else if code == 33 {
            Some(RecordType::SRV)
        } else if code == 16 {
            Some(RecordType::TXT)
        } else {
            None
        }
    }

    /// The type that a code stands for, or `UnknownRecordType`.
    pub open spec fn typed(code: int) -> Result<RecordType, DnsError> {
        match RecordType::of_code(code) {
            Some(record_type) => Ok(record_type),
            None => Err(DnsError::UnknownRecordType),
        }
    }

    pub fn code(self) -> (c: u16)
        ensures
            c == self.code_of(),
    {
        match self {
            RecordType::A => 1,
            RecordType::AAAA => 28,
            RecordType::CNAME => 5,
            RecordType::MX => 15,
            RecordType::NS => 2,
            RecordType::PTR => 12,
            RecordType::SOA => 6,
            RecordType::SRV => 33,
            RecordType::TXT => 16,
        }
    }
}

impl From<RecordType> for u16 {
    fn from(record_type: RecordType) -> (code: u16) {
        record_type.code()
    }
}

impl vstd::std_specs::convert::FromSpecImpl<RecordType> for u16 {
    open spec fn obeys_from_spec() -> bool {
        true
    }

    open spec fn from_spec(record_type: RecordType) -> u16 {
        record_type.code_of()
    }
}

/// The type that a backend code stands for.
impl TryFrom<i32> for RecordType {
    type Error = DnsError;

    fn try_from(code: i32) -> (r: Result<RecordType, DnsError>) {
        match code {
            1 => Ok(RecordType::A),
            28 => Ok(RecordType::AAAA),
            5 => Ok(RecordType::CNAME),
            15 => Ok(RecordType::MX),
            2 => Ok(RecordType::NS),
            12 => Ok(RecordType::PTR),
            6 => Ok(RecordType::SOA),
            33 => Ok(RecordType::SRV),
            16 => Ok(RecordType::TXT),
            _ => Err(DnsError::UnknownRecordType),
        }
    }
}

impl vstd::std_specs::convert::TryFromSpecImpl<i32> for RecordType {
    open spec fn obeys_try_from_spec() -> bool {
        true
    }

    open spec fn try_from_spec(code: i32) -> Result<RecordType, DnsError> {
        RecordType::typed(code as int)
    }
}

/// The type that a question's type code stands for.
impl TryFrom<u16> for RecordType {
    type Error = DnsError;

    fn try_from(code: u16) -> (r: Result<RecordType, DnsError>) {
        RecordType::try_from(code as i32)
    }
}

impl vstd::std_specs::convert::TryFromSpecImpl<u16> for RecordType {
    open spec fn obeys_try_from_spec() -> bool {
        true
    }

    open spec fn try_from_spec(code: u16) -> Result<RecordType, DnsError> {
        RecordType::typed(code as int)
    }
}

/// The record classes.
#[derive(Clone, Copy, Debug, PartialEq, Eq, Structural)]
pub enum RecordClass {
    IN,
    CH,
    HS,
}

impl RecordClass {
    /// The code that stands for this class on the wire.
    pub open spec fn code_of(self) -> u16 {
        match self {
            RecordClass::IN => 1,
            RecordClass::CH => 3,
            RecordClass::HS => 4,
        }
    }

    /// The class that a code stands for, if it stands for one.
    pub open spec fn of_code(code: int) -> Option<RecordClass> {
        if code == 1 {
            Some(RecordClass::IN)
        } else if code == 3 {
            Some(RecordClass::CH)
        } else if code == 4 {
            Some(RecordClass::HS)
        } else {
            None
        }
    }

    pub fn code(self) -> (c: u16)
        ensures
            c == self.code_of(),
    {
        match self {
            RecordClass::IN => 1,
            RecordClass::CH => 3,
            RecordClass::HS => 4,
        }
    }

    /// The class that a backend code stands for, or `None`.
    pub fn from_i32(code: i32) -> (r: Option<RecordClass>)
        ensures
            r == RecordClass::of_code(code as int),
    {
        match code {
            1 => Some(RecordClass::IN),
            3 => Some(RecordClass::CH),
            4 => Some(RecordClass::HS),
            _ => None,
        }
    }
}

impl From<RecordClass> for u16 {
    fn from(record_class: RecordClass) -> (code: u16) {
        record_class.code()
    }
}

impl vstd::std_specs::convert::FromSpecImpl<RecordClass> for u16 {
    open spec fn obeys_from_spec() -> bool {
        true
    }

    open spec fn from_spec(record_class: RecordClass) -> u16 {
        record_class.code_of()
    }
}

/// The response codes that a reply can carry.
#[derive(Clone, Copy, Debug, PartialEq, Eq, Structural)]
pub enum RCode {
    NoError,
    FormErr,
    ServFail,
    NXDomain,
    NotImp,
    Refused,
}

impl RCode {
    /// The four-bit value that stands for this code in a header.
    pub open spec fn code_of(self) -> u8 {
        match self {
            RCode::NoError => 0,
            RCode::FormErr => 1,
            RCode::ServFail => 2,
            RCode::NXDomain => 3,
            RCode::NotImp => 4,
            RCode::Refused => 5,
        }
    }

    pub fn code(self) -> (c: u8)
        ensures
            c == self.code_of(),
            c < 16,
    {
        match self {
            RCode::NoError => 0,
            RCode::FormErr => 1,
            RCode::ServFail => 2,
            RCode::NXDomain => 3,
            RCode::NotImp => 4,
            RCode::Refused => 5,
        }
    }
}

impl From<RCode> for u8 {
    fn from(rcode: RCode) -> (code: u8) {
        rcode.code()
    }
}

impl vstd::std_specs::convert::FromSpecImpl<RCode> for u8 {
    open spec fn obeys_from_spec() -> bool {
        true
    }

    open spec fn from_spec(rcode: RCode) -> u8 {
        rcode.code_of()
    }
}

/// One record of a set: its content as text, and whether it is disabled.
#[derive(Debug)]
pub struct Record {
    pub content: String,
    pub is_disabled: bool,
}

/// A record as the contracts see it: its content as UTF-8 bytes.
pub struct RecordView {
    pub content: Seq<u8>,
    pub is_disabled: bool,
}

impl View for Record {
    type V = RecordView;

    open spec fn view(&self) -> RecordView {
        RecordView { content: text_bytes(self.content@), is_disabled: self.is_disabled }
    }
}

/// The records of one name, type and class, which share a time to live.
#[derive(Debug)]
pub struct RecordSet {
    pub name: String,
    pub record_type: RecordType,
    pub record_class: RecordClass,
    pub ttl: u32,
    pub records: Vec<Record>,
}

/// A record set as the contracts see it.
pub struct RecordSetView {
    pub name: Seq<u8>,
    pub record_type: RecordType,
    pub record_class: RecordClass,
    pub ttl: u32,
    pub records: Seq<RecordView>,
}

/// The views of a list of records.
pub open spec fn records_view(records: Seq<Record>) -> Seq<RecordView> {
    Seq::new(records.len(), |i: int| records[i]@)
}

impl View for RecordSet {
    type V = RecordSetView;

    open spec fn view(&self) -> RecordSetView {
        RecordSetView {
            name: text_bytes(self.name@),
            record_type: self.record_type,
            record_class: self.record_class,
            ttl: self.ttl,
            records: records_view(self.records@),
        }
    }
}

} // verus!
