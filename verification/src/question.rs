//! The questions of a message.

use crate::error::DnsError;
use crate::header::HEADER_LEN;
use crate::name::{
    join, label_to_bytes, labels_fit, lemma_join_fits, lemma_name_wire_len, name_fits,
    name_pointer, name_wire, MAX_LABEL,
};
use crate::text::{append_bytes, lemma_dot_is_text, text_bytes, text_of, utf8_text, DOT};
use crate::wire::{be16, be16_at, push_u16, read_u16};
use vstd::prelude::*;
use vstd::slice::slice_subrange;
use vstd::utf8::*;

verus! {

/// A question: a dotted name, and the codes of the type and the class
/// asked for.
#[derive(Debug)]
pub struct Question {
    pub qname: String,
    pub qtype: u16,
    pub qclass: u16,
}

/// A question as the contracts see it: its name as UTF-8 bytes.
pub struct QuestionView {
    pub name: Seq<u8>,
    pub qtype: u16,
    pub qclass: u16,
}

impl View for Question {
    type V = QuestionView;

    open spec fn view(&self) -> QuestionView {
        QuestionView { name: text_bytes(self.qname@), qtype: self.qtype, qclass: self.qclass }
    }
}

impl Clone for Question {
    fn clone(&self) -> (copy: Self)
        ensures
            copy@ == self@,
    {
        Question { qname: self.qname.clone(), qtype: self.qtype, qclass: self.qclass }
    }
}

impl QuestionView {
    /// Every label of the name fits its length byte.
    pub open spec fn wf(self) -> bool {
        name_fits(self.name)
    }

    /// The question on the wire: the labels of the name, a zero byte, the
    /// type and the class. The name is written out, never as a pointer.
    pub open spec fn wire(self) -> Seq<u8> {
        name_wire(self.name) + seq![0u8] + be16(self.qtype) + be16(self.qclass)
    }
}

/// The views of a list of questions.
pub open spec fn questions_view(questions: Seq<Question>) -> Seq<QuestionView> {
    Seq::new(questions.len(), |i: int| questions[i]@)
}

/// The labels that stand on the wire from `at` on, up to their zero byte,
/// and the position behind that byte. There are none if a length byte or
/// the label it announces lies beyond the end of the bytes, or if a label
/// is not valid UTF-8.
pub open spec fn wire_labels(bytes: Seq<u8>, at: int) -> Option<(Seq<Seq<u8>>, int)>
    decreases bytes.len() - at,
{
    if at < 0 || at >= bytes.len() {
        None
    } else if bytes[at] == 0 {
        Some((Seq::<Seq<u8>>::empty(), at + 1))
    } else {
        let end = at + 1 + bytes[at];
        if end > bytes.len() || !valid_utf8(bytes.subrange(at + 1, end)) {
            None
        } else {
            with_label(bytes.subrange(at + 1, end), wire_labels(bytes, end))
        }
    }
}

/// The labels `rest` with `label` before them.
pub open spec fn with_label(label: Seq<u8>, rest: Option<(Seq<Seq<u8>>, int)>) -> Option<
    (Seq<Seq<u8>>, int),
> {
    match rest {
        Some((labels, next)) => Some((seq![label] + labels, next)),
        None => None,
    }
}

/// The labels `rest` with the labels `done` before them.
pub open spec fn with_labels(done: Seq<Seq<u8>>, rest: Option<(Seq<Seq<u8>>, int)>) -> Option<
    (Seq<Seq<u8>>, int),
> {
    match rest {
        Some((labels, next)) => Some((done + labels, next)),
        None => None,
    }
}

/// The question that stands on the wire at `at`, and the position behind
/// it: the labels of its name joined by dots, then two bytes of type and
/// two of class.
pub open spec fn question_at(bytes: Seq<u8>, at: int) -> Option<(QuestionView, int)> {
    match wire_labels(bytes, at) {
        Some((labels, next)) => if next + 4 <= bytes.len() {
            Some(
                (
                    QuestionView {
                        name: join(labels),
                        qtype: be16_at(bytes, next),
                        qclass: be16_at(bytes, next + 2),
                    },
                    next + 4,
                ),
            )
        } else {
            None
        },
        None => None,
    }
}

impl Question {
    /// Reads the question that stands at `at`, and says where the bytes
    /// behind it begin.
    pub fn read(bytes: &[u8], at: usize) -> (r: Result<(Question, usize), DnsError>)
        ensures
            match r {
                Ok((question, next)) => question_at(bytes@, at as int) == Some(
                    (question@, next as int),
                ) && question@.wf() && at < next <= bytes@.len(),
                Err(e) => e == DnsError::MalformedPacket && question_at(bytes@, at as int)
                    is None,
            },
    {
        if at >= bytes.len() {
            return Err(DnsError::MalformedPacket);
        }
        let mut pos: usize = at;
        let mut name: Vec<u8> = Vec::new();
        let mut first: bool = true;
        let ghost mut done: Seq<Seq<u8>> = Seq::empty();
        proof {
            assert(with_labels(done, wire_labels(bytes@, pos as int)) =~= wire_labels(
                bytes@,
                at as int,
            )) by {
                match wire_labels(bytes@, at as int) {
                    Some((labels, next)) => {
                        assert(done + labels =~= labels);
                    },
                    None => {},
                }
            }
        }
        loop
            invariant
                at <= pos < bytes.len(),
                wire_labels(bytes@, at as int) == with_labels(
                    done,
                    wire_labels(bytes@, pos as int),
                ),
                name@ == join(done),
                valid_utf8(name@),
                labels_fit(done),
                first == (done.len() == 0),
            ensures
                at <= pos < bytes.len(),
                bytes@[pos as int] == 0,
                wire_labels(bytes@, at as int) == Some((done, pos + 1)),
                name@ == join(done),
                valid_utf8(name@),
                labels_fit(done),
            decreases bytes.len() - pos,
        {
            let n: usize = bytes[pos] as usize;
            if n == 0 {
                assert(done + Seq::<Seq<u8>>::empty() =~= done);
                break ;
            }
            if n > bytes.len() - pos - 1 {
                return Err(DnsError::MalformedPacket);
            }
            let end: usize = pos + 1 + n;
            let label = slice_subrange(bytes, pos + 1, end);
            if utf8_text(label).is_none() {
                return Err(DnsError::MalformedPacket);
            }
            if end >= bytes.len() {
                return Err(DnsError::MalformedPacket);
            }
            proof {
                let rest = wire_labels(bytes@, end as int);
                assert(wire_labels(bytes@, pos as int) == with_label(label@, rest));
                match rest {
                    Some((labels, next)) => {
                        assert(done + (seq![label@] + labels) =~= done.push(label@) + labels);
                    },
                    None => {},
                }
                lemma_dot_is_text();
                if !first {
                    valid_utf8_concat(name@, seq![DOT]);
                    valid_utf8_concat(name@ + seq![DOT], label@);
                } else {
                    assert(name@ + label@ =~= label@);
                }
                assert(done.push(label@).drop_last() =~= done);
                assert forall|i: int| 0 <= i < done.push(label@).len() implies (
                #[trigger] done.push(label@)[i]).len() <= MAX_LABEL by {
                    if i < done.len() {
                        assert(done.push(label@)[i] == done[i]);
                    }
                }
            }
            let ghost before = name@;
            if !first {
                name.push(DOT);
            }
            append_bytes(&mut name, label);
            proof {
                if first {
                    assert(name@ =~= label@);
                } else {
                    assert(name@ =~= before + seq![DOT] + label@);
                }
                done = done.push(label@);
            }
            first = false;
            pos = end;
        }
        if bytes.len() - pos - 1 < 4 {
            return Err(DnsError::MalformedPacket);
        }
        let qtype = read_u16(bytes, pos + 1);
        let qclass = read_u16(bytes, pos + 3);
        proof {
            lemma_join_fits(done);
        }
        match text_of(name.as_slice()) {
            Some(qname) => Ok((Question { qname, qtype, qclass }, pos + 5)),
            None => Err(DnsError::MalformedPacket),
        }
    }

    /// Reads the question with which `bytes` begin.
    pub fn from_bytes(bytes: &[u8]) -> (r: Result<Question, DnsError>)
        ensures
            match r {
                Ok(question) => question_at(bytes@, 0) matches Some(found) && found.0
                    == question@ && question@.wf(),
                Err(e) => e == DnsError::MalformedPacket && question_at(bytes@, 0) is None,
            },
    {
        match Question::read(bytes, 0) {
            Ok((question, _)) => Ok(question),
            Err(e) => Err(e),
        }
    }

    /// Whether every label of the name fits its length byte.
    pub fn is_well_formed(&self) -> (r: bool)
        ensures
            r == self@.wf(),
    {
        label_to_bytes(self.qname.as_str().as_bytes()).is_some()
    }

    /// Writes the question.
    pub fn to_bytes(&self) -> (bytes: Vec<u8>)
        requires
            self@.wf(),
        ensures
            bytes@ == self@.wire(),
            bytes@.len() == self@.name.len() + 6,
    {
        let mut bytes: Vec<u8> = match label_to_bytes(self.qname.as_str().as_bytes()) {
            Some(labels) => labels,
            None => Vec::new(),
        };
        bytes.push(0);
        push_u16(&mut bytes, self.qtype);
        push_u16(&mut bytes, self.qclass);
        proof {
            lemma_name_wire_len(self@.name);
        }
        bytes
    }

    /// The compression pointer to this question's name where the question
    /// is the first of its message: its name then stands right behind the
    /// header.
    pub fn get_name_offset(&self) -> (pointer: u16)
        ensures
            name_pointer(HEADER_LEN as int) == Some(pointer),
            pointer == 0xc00c,
    {
        POINTER_TO_FIRST
    }
}

/// The compression pointer to a name that stands right behind the header.
pub const POINTER_TO_FIRST: u16 = 0xc00c;

} // verus!
