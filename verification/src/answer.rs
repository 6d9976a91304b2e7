//! Resource records, as they stand in the answer, authority and additional
//! sections of a message.

use crate::error::DnsError;
use crate::rdata::{encode_record_data, record_data};
use crate::text::append_bytes;
use crate::wire::{be16, be32, push_u16, push_u32};
use crate::zone::{RecordSet, RecordSetView};
use vstd::prelude::*;

verus! {

/// A resource record. Its name is a compression pointer to a name that
/// stands earlier in the same message.
#[derive(Debug)]
pub struct Answer {
    /// The compression pointer to the record's name.
    pub name_ptr: u16,
    pub atype: u16,
    pub aclass: u16,
    /// The time to live, in seconds.
    pub ttl: u32,
    /// The length of the resource data.
    pub rdlength: u16,
    /// The resource data.
    pub rdata: Vec<u8>,
}

/// A resource record as the contracts see it.
pub struct AnswerView {
    pub name_ptr: u16,
    pub atype: u16,
    pub aclass: u16,
    pub ttl: u32,
    pub rdlength: u16,
    pub rdata: Seq<u8>,
}

impl View for Answer {
    type V = AnswerView;

    open spec fn view(&self) -> AnswerView {
        AnswerView {
            name_ptr: self.name_ptr,
            atype: self.atype,
            aclass: self.aclass,
            ttl: self.ttl,
            rdlength: self.rdlength,
            rdata: self.rdata@,
        }
    }
}

impl Clone for Answer {
    fn clone(&self) -> (copy: Self)
        ensures
            copy@ == self@,
    {
        Answer {
            name_ptr: self.name_ptr,
            atype: self.atype,
            aclass: self.aclass,
            ttl: self.ttl,
            rdlength: self.rdlength,
            rdata: self.rdata.clone(),
        }
    }
}

impl AnswerView {
    /// The announced length is the length of the data.
    pub open spec fn wf(self) -> bool {
        self.rdlength == self.rdata.len()
    }

    /// The record on the wire: name pointer, type, class, time to live,
    /// data length and data.
    pub open spec fn wire(self) -> Seq<u8> {
        be16(self.name_ptr) + be16(self.atype) + be16(self.aclass) + be32(self.ttl) + be16(
            self.rdlength,
        ) + self.rdata
    }
}

/// The views of a list of resource records.
pub open spec fn answers_view(answers: Seq<Answer>) -> Seq<AnswerView> {
    Seq::new(answers.len(), |i: int| answers[i]@)
}

/// The resource record for the record at `index` of a set, wherever that
/// record's content is valid.
pub open spec fn answer_of(name_ptr: u16, set: RecordSetView, index: int) -> AnswerView {
    let data = record_data(set.record_type, set.records[index].content).unwrap();
    AnswerView {
        name_ptr,
        atype: set.record_type.code_of(),
        aclass: set.record_class.code_of(),
        ttl: set.ttl,
        rdlength: data.len() as u16,
        rdata: data,
    }
}

/// Every record of the set has content that is valid for the set's type.
pub open spec fn contents_valid(set: RecordSetView) -> bool {
    forall|i: int|
        0 <= i < set.records.len() ==> record_data(
            set.record_type,
            (#[trigger] set.records[i]).content,
        ) is Some
}

/// The resource records of a set: one for each of its records, in their
/// order, with the set's type, class and time to live and with the given
/// name pointer. There are none if the content of any record is not valid.
pub open spec fn answers_of(name_ptr: u16, set: RecordSetView) -> Option<Seq<AnswerView>> {
    if contents_valid(set) {
        Some(Seq::new(set.records.len(), |i: int| answer_of(name_ptr, set, i)))
    } else {
        None
    }
}

impl Answer {
    /// The resource records of a record set, each with `name_offset` as its
    /// name pointer. Disabled records are encoded like the others.
    pub fn from_record_set(name_offset: u16, record_set: RecordSet) -> (r: Result<
        Vec<Answer>,
        DnsError,
    >)
        ensures
            match r {
                Ok(answers) => answers_of(name_offset, record_set@) == Some(
                    answers_view(answers@),
                ),
                Err(e) => e == DnsError::InvalidRecordContent && answers_of(
                    name_offset,
                    record_set@,
                ) is None,
            },
    {
        let ghost set = record_set@;
        let atype = record_set.record_type.code();
        let aclass = record_set.record_class.code();
        let mut answers: Vec<Answer> = Vec::new();
        let mut i: usize = 0;
        while i < record_set.records.len()
            invariant
                i <= record_set.records.len(),
                set == record_set@,
                atype == set.record_type.code_of(),
                aclass == set.record_class.code_of(),
                answers@.len() == i,
                forall|j: int|
                    0 <= j < i ==> record_data(
                        set.record_type,
                        (#[trigger] set.records[j]).content,
                    ) is Some,
                forall|j: int|
                    0 <= j < i ==> (#[trigger] answers@[j])@ == answer_of(name_offset, set, j),
            decreases record_set.records.len() - i,
        {
            let record = &record_set.records[i];
            assert(set.records[i as int] == record@);
            let rdata = match encode_record_data(
                record_set.record_type,
                record.content.as_str().as_bytes(),
            ) {
                Some(data) => data,
                None => {
                    return Err(DnsError::InvalidRecordContent);
                },
            };
            let answer = Answer {
                name_ptr: name_offset,
                atype,
                aclass,
                ttl: record_set.ttl,
                rdlength: rdata.len() as u16,
                rdata,
            };
            answers.push(answer);
            i = i + 1;
        }
        assert(answers_view(answers@) =~= Seq::new(
            set.records.len(),
            |i: int| answer_of(name_offset, set, i),
        ));
        Ok(answers)
    }

    /// Whether the record announces the length that its data has.
    pub fn is_well_formed(&self) -> (r: bool)
        ensures
            r == self@.wf(),
    {
        self.rdlength as usize == self.rdata.len()
    }

    /// The record on the wire.
    pub fn to_bytes(&self) -> (bytes: Vec<u8>)
        ensures
            bytes@ == self@.wire(),
    {
        let mut bytes: Vec<u8> = Vec::new();
        push_u16(&mut bytes, self.name_ptr);
        push_u16(&mut bytes, self.atype);
        push_u16(&mut bytes, self.aclass);
        push_u32(&mut bytes, self.ttl);
        push_u16(&mut bytes, self.rdlength);
        append_bytes(&mut bytes, self.rdata.as_slice());
        assert(bytes@ =~= self@.wire());
        bytes
    }
}

} // verus!
