//! Whole messages: a header, the questions and the three sections of
//! resource records.

use crate::answer::{answers_view, Answer, AnswerView};
use crate::error::DnsError;
use crate::header::{Header, HEADER_LEN};
use crate::question::{question_at, questions_view, Question, QuestionView};
use crate::text::append_bytes;
use vstd::prelude::*;

verus! {

/// A message.
#[derive(Debug)]
pub struct DnsPacket {
    pub header: Header,
    pub questions: Vec<Question>,
    pub answers: Vec<Answer>,
    pub authorities: Vec<Answer>,
    pub additionals: Vec<Answer>,
}

/// A message as the contracts see it.
pub struct PacketView {
    pub header: Header,
    pub questions: Seq<QuestionView>,
    pub answers: Seq<AnswerView>,
    pub authorities: Seq<AnswerView>,
    pub additionals: Seq<AnswerView>,
}

impl View for DnsPacket {
    type V = PacketView;

    open spec fn view(&self) -> PacketView {
        PacketView {
            header: self.header,
            questions: questions_view(self.questions@),
            answers: answers_view(self.answers@),
            authorities: answers_view(self.authorities@),
            additionals: answers_view(self.additionals@),
        }
    }
}

/// Questions on the wire, one behind the other.
pub open spec fn questions_wire(questions: Seq<QuestionView>) -> Seq<u8>
    decreases questions.len(),
{
    if questions.len() == 0 {
        Seq::<u8>::empty()
    } else {
        questions_wire(questions.drop_last()) + questions.last().wire()
    }
}

/// Resource records on the wire, one behind the other.
pub open spec fn answers_wire(answers: Seq<AnswerView>) -> Seq<u8>
    decreases answers.len(),
{
    if answers.len() == 0 {
        Seq::<u8>::empty()
    } else {
        answers_wire(answers.drop_last()) + answers.last().wire()
    }
}

/// Every question has labels that fit their length bytes.
pub open spec fn questions_wf(questions: Seq<QuestionView>) -> bool {
    forall|i: int| 0 <= i < questions.len() ==> (#[trigger] questions[i]).wf()
}

/// Every record announces the length that its data has.
pub open spec fn answers_wf(answers: Seq<AnswerView>) -> bool {
    forall|i: int| 0 <= i < answers.len() ==> (#[trigger] answers[i]).wf()
}

/// The offset in its message of the name of the question at `index`: the
/// length of the header and of the questions before it.
pub open spec fn name_offset(questions: Seq<QuestionView>, index: int) -> int {
    HEADER_LEN + questions_wire(questions.take(index)).len()
}

impl PacketView {
    /// The message is fully populated: the fields of the header fit their
    /// bits, each count is the number of entries in its section, the
    /// labels of the questions fit their length bytes and each record
    /// announces the length of its data.
    pub open spec fn wf(self) -> bool {
        &&& self.header.wf()
        &&& self.header.qdcount == self.questions.len()
        &&& self.header.ancount == self.answers.len()
        &&& self.header.nscount == self.authorities.len()
        &&& self.header.arcount == self.additionals.len()
        &&& questions_wf(self.questions)
        &&& answers_wf(self.answers)
        &&& answers_wf(self.authorities)
        &&& answers_wf(self.additionals)
    }

    /// The message on the wire: the header, the questions, the answers,
    /// the authority records and the additional records.
    pub open spec fn wire(self) -> Seq<u8> {
        self.header.wire() + questions_wire(self.questions) + answers_wire(self.answers)
            + answers_wire(self.authorities) + answers_wire(self.additionals)
    }
}

/// The `count` questions that stand on the wire from `at` on, each where
/// the one before it ends.
pub open spec fn questions_at(bytes: Seq<u8>, at: int, count: nat) -> Option<Seq<QuestionView>>
    decreases count,
{
    if count == 0 {
        Some(Seq::<QuestionView>::empty())
    } else {
        match question_at(bytes, at) {
            Some((question, next)) => with_questions(
                seq![question],
                questions_at(bytes, next, (count - 1) as nat),
            ),
            None => None,
        }
    }
}

/// The questions `rest` with the questions `done` before them.
pub open spec fn with_questions(
    done: Seq<QuestionView>,
    rest: Option<Seq<QuestionView>>,
) -> Option<Seq<QuestionView>> {
    match rest {
        Some(questions) => Some(done + questions),
        None => None,
    }
}

/// The message that `bytes` hold: the header in the first twelve bytes
/// and behind it as many questions as the header counts. Whatever follows
/// the questions is not read, so the three record sections are empty
/// whatever the header counts for them. There is no message if there are
/// fewer than twelve bytes or if a question is cut short or holds a label
/// that is not valid UTF-8.
pub open spec fn parse_packet(bytes: Seq<u8>) -> Option<PacketView> {
    if bytes.len() < HEADER_LEN {
        None
    } else {
        let header = Header::parse(bytes);
        match questions_at(bytes, HEADER_LEN as int, header.qdcount as nat) {
            Some(questions) => Some(
                PacketView {
                    header,
                    questions,
                    answers: Seq::<AnswerView>::empty(),
                    authorities: Seq::<AnswerView>::empty(),
                    additionals: Seq::<AnswerView>::empty(),
                },
            ),
            None => None,
        }
    }
}

/// Questions in a row are on the wire what each part of the row is.
pub proof fn lemma_questions_wire_concat(a: Seq<QuestionView>, b: Seq<QuestionView>)
    ensures
        questions_wire(a + b) == questions_wire(a) + questions_wire(b),
    decreases b.len(),
{
    if b.len() == 0 {
        assert(a + b =~= a);
        assert(questions_wire(a) + questions_wire(b) =~= questions_wire(a));
    } else {
        assert((a + b).drop_last() =~= a + b.drop_last());
        assert((a + b).last() == b.last());
        lemma_questions_wire_concat(a, b.drop_last());
        assert(questions_wire(a + b) =~= questions_wire(a) + questions_wire(b));
    }
}

/// The question at `index` stands on the wire at its name's offset,
/// beginning with the labels of its name.
pub proof fn lemma_question_stands_at_offset(packet: PacketView, index: int)
    requires
        0 <= index < packet.questions.len(),
    ensures
        name_offset(packet.questions, index) + packet.questions[index].wire().len()
            <= packet.wire().len(),
        packet.wire().subrange(
            name_offset(packet.questions, index),
            name_offset(packet.questions, index) + packet.questions[index].wire().len(),
        ) == packet.questions[index].wire(),
{
    let questions = packet.questions;
    let before = questions.take(index);
    let after = questions.skip(index + 1);
    let this = questions[index];
    assert(questions =~= before + seq![this] + after);
    lemma_questions_wire_concat(before + seq![this], after);
    lemma_questions_wire_concat(before, seq![this]);
    assert(seq![this].drop_last() =~= Seq::<QuestionView>::empty());
    assert(seq![this].last() == this);
    assert(questions_wire(seq![this].drop_last()) =~= Seq::<u8>::empty());
    assert(questions_wire(seq![this]) =~= this.wire());
    assert(packet.header.wire().len() == HEADER_LEN);
    let offset = name_offset(questions, index);
    assert(packet.wire().subrange(offset, offset + this.wire().len()) =~= this.wire());
}

fn append_answers(out: &mut Vec<u8>, answers: &Vec<Answer>)
    ensures
        final(out)@ == old(out)@ + answers_wire(answers_view(answers@)),
{
    let ghost views = answers_view(answers@);
    let mut i: usize = 0;
    assert(views.take(0) =~= Seq::<AnswerView>::empty());
    assert(out@ =~= old(out)@ + answers_wire(views.take(0)));
    while i < answers.len()
        invariant
            i <= answers.len(),
            views == answers_view(answers@),
            out@ == old(out)@ + answers_wire(views.take(i as int)),
        decreases answers.len() - i,
    {
        let bytes = answers[i].to_bytes();
        append_bytes(out, bytes.as_slice());
        assert(views.take(i + 1).drop_last() =~= views.take(i as int));
        assert(views.take(i + 1).last() == answers[i as int]@);
        assert(out@ =~= old(out)@ + answers_wire(views.take(i + 1)));
        i = i + 1;
    }
    assert(views.take(i as int) =~= views);
}

fn answers_well_formed(answers: &Vec<Answer>) -> (r: bool)
    ensures
        r == answers_wf(answers_view(answers@)),
{
    let mut i: usize = 0;
    while i < answers.len()
        invariant
            i <= answers.len(),
            forall|j: int| 0 <= j < i ==> (#[trigger] answers_view(answers@)[j]).wf(),
        decreases answers.len() - i,
    {
        if !answers[i].is_well_formed() {
            assert(!answers_view(answers@)[i as int].wf());
            return false;
        }
        i = i + 1;
    }
    true
}

impl DnsPacket {
    /// Whether the message is fully populated, so that it can be written.
    pub fn is_well_formed(&self) -> (r: bool)
        ensures
            r == self@.wf(),
    {
        if !self.header.is_well_formed() {
            return false;
        }
        if self.header.qdcount as usize != self.questions.len() || self.header.ancount as usize
            != self.answers.len() || self.header.nscount as usize != self.authorities.len()
            || self.header.arcount as usize != self.additionals.len() {
            return false;
        }
        let mut i: usize = 0;
        while i < self.questions.len()
            invariant
                i <= self.questions.len(),
                forall|j: int| 0 <= j < i ==> (#[trigger] questions_view(self.questions@)[j]).wf(),
            decreases self.questions.len() - i,
        {
            if !self.questions[i].is_well_formed() {
                assert(!questions_view(self.questions@)[i as int].wf());
                return false;
            }
            i = i + 1;
        }
        answers_well_formed(&self.answers) && answers_well_formed(&self.authorities)
            && answers_well_formed(&self.additionals)
    }

    /// Reads a message: its header and its questions.
    pub fn from_bytes(bytes: &[u8]) -> (r: Result<DnsPacket, DnsError>)
        ensures
            match r {
                Ok(packet) => parse_packet(bytes@) == Some(packet@) && questions_wf(
                    packet@.questions,
                ) && packet@.header.wf() && packet@.questions.len() == packet@.header.qdcount,
                Err(e) => e == DnsError::MalformedPacket && parse_packet(bytes@) is None,
            },
            bytes@.len() < HEADER_LEN ==> r == Err::<DnsPacket, DnsError>(
                DnsError::MalformedPacket,
            ),
    {
        let header = match Header::from_bytes(bytes) {
            Ok(header) => header,
            Err(e) => {
                return Err(e);
            },
        };
        let mut questions: Vec<Question> = Vec::new();
        let mut pos: usize = HEADER_LEN;
        let mut i: u16 = 0;
        let ghost whole = questions_at(bytes@, HEADER_LEN as int, header.qdcount as nat);
        proof {
            match whole {
                Some(found) => {
                    assert(questions_view(questions@) + found =~= found);
                },
                None => {},
            }
        }
        while i < header.qdcount
            invariant
                i <= header.qdcount,
                bytes@.len() >= HEADER_LEN,
                header == Header::parse(bytes@),
                whole == questions_at(bytes@, HEADER_LEN as int, header.qdcount as nat),
                whole == with_questions(
                    questions_view(questions@),
                    questions_at(bytes@, pos as int, (header.qdcount - i) as nat),
                ),
                questions_wf(questions_view(questions@)),
                questions@.len() == i,
            decreases header.qdcount - i,
        {
            let ghost done = questions_view(questions@);
            match Question::read(bytes, pos) {
                Ok((question, next)) => {
                    proof {
                        let rest = questions_at(
                            bytes@,
                            next as int,
                            (header.qdcount - i - 1) as nat,
                        );
                        match rest {
                            Some(found) => {
                                assert(done + (seq![question@] + found) =~= done.push(question@)
                                    + found);
                            },
                            None => {},
                        }
                    }
                    questions.push(question);
                    assert(questions_view(questions@) =~= done.push(question@));
                    pos = next;
                },
                Err(e) => {
                    return Err(e);
                },
            }
            i = i + 1;
        }
        assert(questions_view(questions@) + Seq::<QuestionView>::empty() =~= questions_view(
            questions@,
        ));
        let packet = DnsPacket {
            header,
            questions,
            answers: Vec::new(),
            authorities: Vec::new(),
            additionals: Vec::new(),
        };
        assert(packet@.answers =~= Seq::<AnswerView>::empty());
        assert(packet@.authorities =~= Seq::<AnswerView>::empty());
        assert(packet@.additionals =~= Seq::<AnswerView>::empty());
        Ok(packet)
    }

    /// Writes a fully populated message.
    pub fn to_bytes(&self) -> (bytes: Vec<u8>)
        requires
            self@.wf(),
        ensures
            bytes@ == self@.wire(),
    {
        let mut bytes = self.header.to_bytes();
        let ghost views = questions_view(self.questions@);
        let mut i: usize = 0;
        assert(views.take(0) =~= Seq::<QuestionView>::empty());
        assert(bytes@ =~= self.header.wire() + questions_wire(views.take(0)));
        while i < self.questions.len()
            invariant
                i <= self.questions.len(),
                views == questions_view(self.questions@),
                questions_wf(views),
                bytes@ == self.header.wire() + questions_wire(views.take(i as int)),
            decreases self.questions.len() - i,
        {
            assert(views[i as int] == self.questions[i as int]@);
            let question = self.questions[i].to_bytes();
            append_bytes(&mut bytes, question.as_slice());
            assert(views.take(i + 1).drop_last() =~= views.take(i as int));
            assert(views.take(i + 1).last() == self.questions[i as int]@);
            assert(bytes@ =~= self.header.wire() + questions_wire(views.take(i + 1)));
            i = i + 1;
        }
        assert(views.take(i as int) =~= views);
        append_answers(&mut bytes, &self.answers);
        append_answers(&mut bytes, &self.authorities);
        append_answers(&mut bytes, &self.additionals);
        bytes
    }
}

} // verus!
