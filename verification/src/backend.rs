//! What is asked of the zone-data backend and what it answers. The
//! library makes no call to the backend: it says what to ask, and takes
//! what came back.

use crate::error::DnsError;
use crate::question::{Question, QuestionView};
use crate::text::{lemma_dot_is_text, text_bytes, text_of, DOT};
use crate::zone::{
    records_view, RCode, Record, RecordClass, RecordSet, RecordSetView, RecordType, RecordView,
};
use vstd::prelude::*;
use vstd::slice::slice_to_vec;
use vstd::utf8::*;

verus! {

/// A name as the backend wants it: ending in a dot.
pub open spec fn qualified(name: Seq<u8>) -> Seq<u8> {
    if name.len() > 0 && name.last() == DOT {
        name
    } else {
        name.push(DOT)
    }
}

/// One lookup: the record set of a name and a type.
#[derive(Debug)]
pub struct LookupRequest {
    /// The name of the record set, ending in a dot.
    pub record_set_name: String,
    pub record_type: RecordType,
}

/// A lookup as the contracts see it.
pub struct LookupRequestView {
    pub record_set_name: Seq<u8>,
    pub record_type: RecordType,
}

impl View for LookupRequest {
    type V = LookupRequestView;

    open spec fn view(&self) -> LookupRequestView {
        LookupRequestView {
            record_set_name: text_bytes(self.record_set_name@),
            record_type: self.record_type,
        }
    }
}

/// The lookup that answers a question, if the question asks for a type
/// that there is: the question's name with a dot at its end, and the type.
pub open spec fn request_for(question: QuestionView) -> Option<LookupRequestView> {
    match RecordType::of_code(question.qtype as int) {
        Some(record_type) => Some(
            LookupRequestView { record_set_name: qualified(question.name), record_type },
        ),
        None => None,
    }
}

/// The lookup that answers `question`.
pub fn lookup_request(question: &Question) -> (r: Result<LookupRequest, DnsError>)
    ensures
        match r {
            Ok(request) => request_for(question@) == Some(request@),
            Err(e) => e == DnsError::UnknownRecordType && request_for(question@) is None,
        },
{
    let record_type = match RecordType::try_from(question.qtype) {
        Ok(record_type) => record_type,
        Err(e) => {
            return Err(e);
        },
    };
    let name = question.qname.as_str().as_bytes();
    let record_set_name = if name.len() > 0 && name[name.len() - 1] == DOT {
        question.qname.clone()
    } else {
        let mut bytes = slice_to_vec(name);
        bytes.push(DOT);
        proof {
            encode_utf8_valid_utf8(question.qname@);
            lemma_dot_is_text();
            valid_utf8_concat(name@, seq![DOT]);
            assert(bytes@ =~= name@ + seq![DOT]);
        }
        match text_of(bytes.as_slice()) {
            Some(text) => text,
            None => question.qname.clone(),
        }
    };
    Ok(LookupRequest { record_set_name, record_type })
}

/// A record set as the backend sends it: its type and class are codes
/// that may stand for nothing.
#[derive(Debug)]
pub struct BackendRecordSet {
    pub name: String,
    pub record_type: i32,
    pub record_class: i32,
    pub ttl: u32,
    pub records: Vec<Record>,
}

/// A backend record set as the contracts see it.
pub struct BackendRecordSetView {
    pub name: Seq<u8>,
    pub record_type: i32,
    pub record_class: i32,
    pub ttl: u32,
    pub records: Seq<RecordView>,
}

impl View for BackendRecordSet {
    type V = BackendRecordSetView;

    open spec fn view(&self) -> BackendRecordSetView {
        BackendRecordSetView {
            name: text_bytes(self.name@),
            record_type: self.record_type,
            record_class: self.record_class,
            ttl: self.ttl,
            records: records_view(self.records@),
        }
    }
}

/// What the backend answered to one lookup.
#[derive(Debug)]
pub struct BackendReply {
    /// The status, if the reply has one: 0 for a record set that was
    /// found, 1 for a malformed request, 2 for a name that does not exist.
    pub status: Option<i32>,
    pub record_set: Option<BackendRecordSet>,
}

/// A backend reply as the contracts see it.
pub struct BackendReplyView {
    pub status: Option<i32>,
    pub record_set: Option<BackendRecordSetView>,
}

impl View for BackendReply {
    type V = BackendReplyView;

    open spec fn view(&self) -> BackendReplyView {
        BackendReplyView {
            status: self.status,
            record_set: match self.record_set {
                Some(set) => Some(set@),
                None => None,
            },
        }
    }
}

/// How one lookup ended.
#[derive(Debug)]
pub enum LookupOutcome {
    /// The backend could not be reached, or the call failed on its way.
    Unavailable,
    /// The backend answered.
    Replied(BackendReply),
}

/// The end of a lookup as the contracts see it.
pub enum OutcomeView {
    Unavailable,
    Replied(BackendReplyView),
}

impl View for LookupOutcome {
    type V = OutcomeView;

    open spec fn view(&self) -> OutcomeView {
        match self {
            LookupOutcome::Unavailable => OutcomeView::Unavailable,
            LookupOutcome::Replied(reply) => OutcomeView::Replied(reply@),
        }
    }
}

/// The views of a list of outcomes.
pub open spec fn outcomes_view(outcomes: Seq<LookupOutcome>) -> Seq<OutcomeView> {
    Seq::new(outcomes.len(), |i: int| outcomes[i]@)
}

/// The record set that a backend record set stands for, if its codes
/// stand for a type and a class.
pub open spec fn typed(set: BackendRecordSetView) -> Option<RecordSetView> {
    match (RecordType::of_code(set.record_type as int), RecordClass::of_code(
        set.record_class as int,
    )) {
        (Some(record_type), Some(record_class)) => Some(
            RecordSetView {
                name: set.name,
                record_type,
                record_class,
                ttl: set.ttl,
                records: set.records,
            },
        ),
        _ => None,
    }
}

/// What a reply says: the response code that it stands for, and with
/// `NoError` the record set that was found. Status 0 is `NoError` where
/// the reply holds a record set of a type and a class that there are, 1 is
/// `FormErr` and 2 is `NXDomain`. Everything else is `ServFail`: another
/// status, no status at all, and status 0 without such a record set.
pub open spec fn verdict(reply: BackendReplyView) -> (RCode, Option<RecordSetView>) {
    match reply.status {
        Some(status) => if status == 0 {
            match reply.record_set {
                Some(set) => match typed(set) {
                    Some(found) => (RCode::NoError, Some(found)),
                    None => (RCode::ServFail, None),
                },
                None => (RCode::ServFail, None),
            }
        } else if status == 1 {
            (RCode::FormErr, None)
        } else if status == 2 {
            (RCode::NXDomain, None)
        } else {
            (RCode::ServFail, None)
        },
        None => (RCode::ServFail, None),
    }
}

impl BackendRecordSet {
    /// The record set with its type and its class, where the codes stand
    /// for them.
    pub fn into_record_set(self) -> (r: Option<RecordSet>)
        ensures
            match r {
                Some(set) => typed(self@) == Some(set@),
                None => typed(self@) is None,
            },
    {
        let record_type = match RecordType::try_from(self.record_type) {
            Ok(record_type) => record_type,
            Err(_) => {
                return None;
            },
        };
        let record_class = match RecordClass::from_i32(self.record_class) {
            Some(record_class) => record_class,
            None => {
                return None;
            },
        };
        Some(
            RecordSet {
                name: self.name,
                record_type,
                record_class,
                ttl: self.ttl,
                records: self.records,
            },
        )
    }
}

} // verus!
