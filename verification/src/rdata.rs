//! The resource data of a record: what its textual content becomes on the
//! wire, by record type.

use crate::name::{label_to_bytes, name_fits, name_wire};
use crate::text::{
    append_bytes, number, parse_decimal, parse_hexadecimal, pieces_view, split, split_bytes, COLON,
    DOT, SPACE,
};
use crate::wire::{be16, push_u16};
use crate::zone::RecordType;
use vstd::prelude::*;

verus! {

/// The longest resource data whose length a record can announce.
pub const MAX_RDATA: usize = 0xffff;

/// An IPv4 address: four decimal octets with dots between them, each at
/// most 255. The data is the four octets.
pub open spec fn address_v4(content: Seq<u8>) -> Option<Seq<u8>> {
    let octets = split(content, DOT);
    if octets.len() == 4 && (forall|i: int|
        0 <= i < 4 ==> number(#[trigger] octets[i], 10, 255) is Some) {
        Some(Seq::new(4, |i: int| number(octets[i], 10, 255).unwrap() as u8))
    } else {
        None
    }
}

/// An IPv6 address: eight hexadecimal groups with colons between them, each
/// at most `ffff` and none left out. The data is the eight groups, two bytes
/// each, most significant byte first.
pub open spec fn address_v6(content: Seq<u8>) -> Option<Seq<u8>> {
    let groups = split(content, COLON);
    if groups.len() == 8 && (forall|i: int|
        0 <= i < 8 ==> number(#[trigger] groups[i], 16, 0xffff) is Some) {
        Some(Seq::new(16, |i: int| be16(number(groups[i / 2], 16, 0xffff).unwrap() as u16)[i % 2]))
    } else {
        None
    }
}

/// A canonical name: the target name as a row of labels.
pub open spec fn canonical_name(content: Seq<u8>) -> Option<Seq<u8>> {
    if name_fits(content) {
        Some(name_wire(content))
    } else {
        None
    }
}

/// A mail exchange: a decimal preference, a space and the exchange's name;
/// whatever follows a second space is not read. The data is the preference
/// in two bytes and then the name as a row of labels.
pub open spec fn mail_exchange(content: Seq<u8>) -> Option<Seq<u8>> {
    let fields = split(content, SPACE);
    if fields.len() >= 2 && number(fields[0], 10, 0xffff) is Some && name_fits(fields[1]) {
        Some(be16(number(fields[0], 10, 0xffff).unwrap() as u16) + name_wire(fields[1]))
    } else {
        None
    }
}

/// The wire form of a record's content by its type, whatever its length.
/// The types without a form of their own have empty data.
pub open spec fn content_wire(record_type: RecordType, content: Seq<u8>) -> Option<Seq<u8>> {
    match record_type {
        RecordType::A => address_v4(content),
        RecordType::AAAA => address_v6(content),
        RecordType::CNAME => canonical_name(content),
        RecordType::MX => mail_exchange(content),
        _ => Some(Seq::<u8>::empty()),
    }
}

/// The resource data of a record, or `None` where the content is not
/// valid for the type or its data would be longer than a record can hold.
pub open spec fn record_data(record_type: RecordType, content: Seq<u8>) -> Option<Seq<u8>> {
    match content_wire(record_type, content) {
        Some(data) => if data.len() <= MAX_RDATA {
            Some(data)
        } else {
            None
        },
        None => None,
    }
}

fn encode_address_v4(content: &[u8]) -> (r: Option<Vec<u8>>)
    ensures
        match r {
            Some(data) => address_v4(content@) == Some(data@),
            None => address_v4(content@) is None,
        },
{
    let pieces = split_bytes(content, DOT);
    let ghost octets = split(content@, DOT);
    if pieces.len() != 4 {
        return None;
    }
    let mut data: Vec<u8> = Vec::new();
    let mut i: usize = 0;
    while i < 4
        invariant
            i <= 4,
            pieces.len() == 4,
            octets == split(content@, DOT),
            octets == pieces_view(pieces@),
            data@.len() == i,
            forall|j: int| 0 <= j < i ==> number(#[trigger] octets[j], 10, 255) == Some(data@[j] as nat),
        decreases 4 - i,
    {
        assert(octets[i as int] == pieces[i as int]@);
        match parse_decimal(pieces[i].as_slice(), 255) {
            None => {
                return None;
            },
            Some(v) => {
                data.push(v as u8);
            },
        }
        i = i + 1;
    }
    assert(data@ =~= Seq::new(4, |i: int| number(octets[i], 10, 255).unwrap() as u8));
    Some(data)
}

fn encode_address_v6(content: &[u8]) -> (r: Option<Vec<u8>>)
    ensures
        match r {
            Some(data) => address_v6(content@) == Some(data@),
            None => address_v6(content@) is None,
        },
{
    let pieces = split_bytes(content, COLON);
    let ghost groups = split(content@, COLON);
    if pieces.len() != 8 {
        return None;
    }
    let mut data: Vec<u8> = Vec::new();
    let mut i: usize = 0;
    while i < 8
        invariant
            i <= 8,
            pieces.len() == 8,
            groups == split(content@, COLON),
            groups == pieces_view(pieces@),
            data@.len() == 2 * i,
            forall|j: int| 0 <= j < i ==> number(#[trigger] groups[j], 16, 0xffff) is Some,
            forall|k: int|
                0 <= k < 2 * i ==> #[trigger] data@[k] == be16(
                    number(groups[k / 2], 16, 0xffff).unwrap() as u16,
                )[k % 2],
        decreases 8 - i,
    {
        assert(groups[i as int] == pieces[i as int]@);
        match parse_hexadecimal(pieces[i].as_slice(), 0xffff) {
            None => {
                return None;
            },
            Some(v) => {
                push_u16(&mut data, v as u16);
            },
        }
        i = i + 1;
    }
    assert(data@ =~= Seq::new(
        16,
        |i: int| be16(number(groups[i / 2], 16, 0xffff).unwrap() as u16)[i % 2],
    ));
    Some(data)
}

fn encode_mail_exchange(content: &[u8]) -> (r: Option<Vec<u8>>)
    ensures
        match r {
            Some(data) => mail_exchange(content@) == Some(data@),
            None => mail_exchange(content@) is None,
        },
{
    let fields = split_bytes(content, SPACE);
    if fields.len() < 2 {
        return None;
    }
    assert(split(content@, SPACE)[0] == fields[0]@);
    assert(split(content@, SPACE)[1] == fields[1]@);
    let preference = match parse_decimal(fields[0].as_slice(), 0xffff) {
        Some(v) => v as u16,
        None => {
            return None;
        },
    };
    let exchange = match label_to_bytes(fields[1].as_slice()) {
        Some(wire) => wire,
        None => {
            return None;
        },
    };
    let mut data: Vec<u8> = Vec::new();
    push_u16(&mut data, preference);
    append_bytes(&mut data, exchange.as_slice());
    Some(data)
}

/// Writes the resource data of a record of the given type, or `None` where
/// the content is not valid for the type or the data would be too long.
pub fn encode_record_data(record_type: RecordType, content: &[u8]) -> (r: Option<Vec<u8>>)
    ensures
        match r {
            Some(data) => record_data(record_type, content@) == Some(data@),
            None => record_data(record_type, content@) is None,
        },
{
    let wire = match record_type {
        RecordType::A => encode_address_v4(content),
        RecordType::AAAA => encode_address_v6(content),
        RecordType::CNAME => label_to_bytes(content),
        RecordType::MX => encode_mail_exchange(content),
        _ => Some(Vec::new()),
    };
    match wire {
        Some(data) => if data.len() <= MAX_RDATA {
            Some(data)
        } else {
            None
        },
        None => None,
    }
}

} // verus!
