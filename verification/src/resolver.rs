//! The resolution engine: question by question, what the backend answered
//! becomes the answers and the response code of the reply.
//!
//! The engine makes no lookup itself. It says which lookup is pending, is
//! told how that lookup ended, and hands out the reply when no question is
//! left.

use crate::answer::{answer_of, answers_of, answers_view, Answer, AnswerView};
use crate::backend::{
    lookup_request, outcomes_view, request_for, verdict, BackendReply, LookupOutcome,
    LookupRequest, OutcomeView,
};
use crate::error::DnsError;
use crate::header::{Header, HEADER_LEN};
use crate::name::{lemma_name_wire_len, lemma_pointer_bits, name_pointer, pointer_to, POINTER_LIMIT};
use crate::packet::{
    answers_wf, lemma_question_stands_at_offset, name_offset, questions_wf, DnsPacket, PacketView,
};
use crate::question::{questions_view, Question, QuestionView};
use crate::zone::{RCode, RecordSet, RecordSetView};
use vstd::prelude::*;

verus! {

/// The most entries that a section of a message can count.
pub const MAX_COUNT: usize = 0xffff;

/// What the questions handled so far have come to.
pub struct Progress {
    /// The answers gathered, in the order of their questions.
    pub answers: Seq<AnswerView>,
    /// The response code that the last lookup left.
    pub rcode: RCode,
}

/// Where a resolution starts: without answers, and refused.
pub open spec fn start() -> Progress {
    Progress { answers: Seq::<AnswerView>::empty(), rcode: RCode::Refused }
}

/// The answers that a record set brings to a reply that holds `held`
/// answers already, for a question whose name has the compression pointer
/// `pointer`. It brings none if the name lies too far into the message for
/// a pointer, if the content of a record is not valid, or if the answers
/// would be more than a message can count.
pub open spec fn gained(held: nat, pointer: Option<u16>, set: RecordSetView) -> Option<
    Seq<AnswerView>,
> {
    match pointer {
        Some(name_ptr) => match answers_of(name_ptr, set) {
            Some(answers) => if held + answers.len() <= MAX_COUNT {
                Some(answers)
            } else {
                None
            },
            None => None,
        },
        None => None,
    }
}

/// What one lookup does to the progress. A lookup that did not reach the
/// backend changes nothing. A record set that was found adds its answers
/// and leaves `NoError`, or leaves `ServFail` where it brings no answers.
/// Any other reply leaves the code that it stands for.
pub open spec fn step(before: Progress, pointer: Option<u16>, outcome: OutcomeView) -> Progress {
    match outcome {
        OutcomeView::Unavailable => before,
        OutcomeView::Replied(reply) => match verdict(reply).1 {
            Some(set) => match gained(before.answers.len(), pointer, set) {
                Some(answers) => Progress {
                    answers: before.answers + answers,
                    rcode: RCode::NoError,
                },
                None => Progress { answers: before.answers, rcode: RCode::ServFail },
            },
            None => Progress { answers: before.answers, rcode: verdict(reply).0 },
        },
    }
}

/// What went wrong with one lookup, if anything did: the backend was not
/// reached, it answered with something other than a record set that was
/// found, or the record set that was found brings no answers.
pub open spec fn fault(before: Progress, pointer: Option<u16>, outcome: OutcomeView) -> Option<
    DnsError,
> {
    match outcome {
        OutcomeView::Unavailable => Some(DnsError::BackendUnavailable),
        OutcomeView::Replied(reply) => match verdict(reply).1 {
            Some(set) => match gained(before.answers.len(), pointer, set) {
                Some(_) => None,
                None => Some(DnsError::InvalidRecordContent),
            },
            None => Some(DnsError::BackendStatusError),
        },
    }
}

/// The progress after the first `count` questions, the lookup for the
/// question at `i` having ended as `outcomes[i]`.
pub open spec fn run(questions: Seq<QuestionView>, outcomes: Seq<OutcomeView>, count: nat) -> Progress
    decreases count,
{
    if count == 0 {
        start()
    } else {
        step(
            run(questions, outcomes, (count - 1) as nat),
            name_pointer(name_offset(questions, count - 1)),
            outcomes[count - 1],
        )
    }
}

/// The reply to a query with the given id, question count and questions,
/// once the resolution has come to `progress`: a response with the query's
/// id and question count, the response code and the number of answers
/// that were reached, and every other flag and count zero; the questions
/// as they were asked; the answers; no other records.
pub open spec fn response(
    id: u16,
    qdcount: u16,
    questions: Seq<QuestionView>,
    progress: Progress,
) -> PacketView {
    PacketView {
        header: Header {
            id,
            qr: true,
            opcode: 0,
            aa: false,
            tc: false,
            rd: false,
            ra: false,
            z: 0,
            rcode: progress.rcode.code_of(),
            qdcount,
            ancount: progress.answers.len() as u16,
            nscount: 0,
            arcount: 0,
        },
        questions,
        answers: progress.answers,
        authorities: Seq::<AnswerView>::empty(),
        additionals: Seq::<AnswerView>::empty(),
    }
}

/// Every question asks for a type that there is.
pub open spec fn types_known(questions: Seq<QuestionView>) -> bool {
    forall|i: int| 0 <= i < questions.len() ==> request_for(#[trigger] questions[i]) is Some
}

/// The reply to `query`, the lookup for its question at `i` having ended
/// as `outcomes[i]`. There is no reply, but `UnknownRecordType`, if a
/// question asks for a type that there is not.
pub open spec fn reply_to(query: PacketView, outcomes: Seq<OutcomeView>) -> Result<
    PacketView,
    DnsError,
> {
    if types_known(query.questions) {
        Ok(
            response(
                query.header.id,
                query.header.qdcount,
                query.questions,
                run(query.questions, outcomes, query.questions.len()),
            ),
        )
    } else {
        Err(DnsError::UnknownRecordType)
    }
}

/// The question whose lookup brought the answer at `index`, among the
/// answers after the first `count` questions.
pub open spec fn origin(
    questions: Seq<QuestionView>,
    outcomes: Seq<OutcomeView>,
    count: nat,
    index: int,
) -> int
    decreases count,
{
    if count == 0 {
        0
    } else if index < run(questions, outcomes, (count - 1) as nat).answers.len() {
        origin(questions, outcomes, (count - 1) as nat, index)
    } else {
        count - 1
    }
}

/// A resolution never holds more answers than a message can count, and
/// each of them announces the length of its data.
pub proof fn lemma_run_wf(questions: Seq<QuestionView>, outcomes: Seq<OutcomeView>, count: nat)
    ensures
        run(questions, outcomes, count).answers.len() <= MAX_COUNT,
        answers_wf(run(questions, outcomes, count).answers),
    decreases count,
{
    if count > 0 {
        lemma_run_wf(questions, outcomes, (count - 1) as nat);
        let before = run(questions, outcomes, (count - 1) as nat);
        let pointer = name_pointer(name_offset(questions, count - 1));
        lemma_step_wf(before, pointer, outcomes[count - 1]);
    }
}

proof fn lemma_step_wf(before: Progress, pointer: Option<u16>, outcome: OutcomeView)
    requires
        before.answers.len() <= MAX_COUNT,
        answers_wf(before.answers),
    ensures
        step(before, pointer, outcome).answers.len() <= MAX_COUNT,
        answers_wf(step(before, pointer, outcome).answers),
{
    let after = step(before, pointer, outcome);
    if after.answers != before.answers {
        let reply = outcome->Replied_0;
        let set = verdict(reply).1->Some_0;
        let added = gained(before.answers.len(), pointer, set)->Some_0;
        assert(after.answers == before.answers + added);
        assert forall|i: int| 0 <= i < after.answers.len() implies (
        #[trigger] after.answers[i]).wf() by {
            if i < before.answers.len() {
                assert(after.answers[i] == before.answers[i]);
            } else {
                let j = i - before.answers.len();
                assert(after.answers[i] == added[j]);
                assert(added[j] == answer_of(pointer->Some_0, set, j));
                assert(set.records[j] == set.records[j]);
            }
        }
    }
}

/// The reply to a query that counts its questions right, and whose
/// questions have labels that fit, is fully populated: its answer count
/// is the number of its answers.
pub proof fn lemma_reply_wf(query: PacketView, outcomes: Seq<OutcomeView>)
    requires
        reply_to(query, outcomes) is Ok,
        query.header.qdcount == query.questions.len(),
        questions_wf(query.questions),
    ensures
        reply_to(query, outcomes)->Ok_0.wf(),
        reply_to(query, outcomes)->Ok_0.header.ancount == reply_to(
            query,
            outcomes,
        )->Ok_0.answers.len(),
{
    lemma_run_wf(query.questions, outcomes, query.questions.len());
}

/// Every answer carries the compression pointer to the name of the
/// question whose lookup brought it.
pub proof fn lemma_origin(
    questions: Seq<QuestionView>,
    outcomes: Seq<OutcomeView>,
    count: nat,
    index: int,
)
    requires
        0 <= index < run(questions, outcomes, count).answers.len(),
    ensures
        0 <= origin(questions, outcomes, count, index) < count,
        name_pointer(name_offset(questions, origin(questions, outcomes, count, index))) == Some(
            run(questions, outcomes, count).answers[index].name_ptr,
        ),
    decreases count,
{
    if count > 0 {
        let before = run(questions, outcomes, (count - 1) as nat);
        let pointer = name_pointer(name_offset(questions, count - 1));
        let outcome = outcomes[count - 1];
        let after = step(before, pointer, outcome);
        if index < before.answers.len() {
            assert(after.answers[index] == before.answers[index]);
            lemma_origin(questions, outcomes, (count - 1) as nat, index);
        } else {
            let reply = outcome->Replied_0;
            let set = verdict(reply).1->Some_0;
            let added = gained(before.answers.len(), pointer, set)->Some_0;
            assert(after.answers == before.answers + added);
            let j = index - before.answers.len();
            assert(after.answers[index] == added[j]);
            assert(added[j] == answer_of(pointer->Some_0, set, j));
        }
    }
}

/// In the encoded reply, the name pointer of every answer has its two
/// highest bits set and holds in its other fourteen bits the offset of a
/// question, and that question is the one whose lookup brought the answer.
pub proof fn lemma_answer_points_to_question(
    query: PacketView,
    outcomes: Seq<OutcomeView>,
    index: int,
)
    requires
        reply_to(query, outcomes) is Ok,
        0 <= index < reply_to(query, outcomes)->Ok_0.answers.len(),
    ensures
        ({
            let reply = reply_to(query, outcomes)->Ok_0;
            let asked = origin(query.questions, outcomes, query.questions.len(), index);
            let pointer = reply.answers[index].name_ptr;
            let offset = (pointer & 0x3fff) as int;
            &&& 0 <= asked < reply.questions.len()
            &&& pointer & 0xc000 == 0xc000
            &&& offset == name_offset(reply.questions, asked)
            &&& offset + reply.questions[asked].wire().len() <= reply.wire().len()
            &&& reply.wire().subrange(offset, offset + reply.questions[asked].wire().len())
                == reply.questions[asked].wire()
        }),
{
    let reply = reply_to(query, outcomes)->Ok_0;
    let asked = origin(query.questions, outcomes, query.questions.len(), index);
    lemma_origin(query.questions, outcomes, query.questions.len(), index);
    lemma_pointer_bits(name_offset(query.questions, asked));
    lemma_question_stands_at_offset(reply, asked);
}

/// Two queries that ask the same questions get the same reply from the
/// same lookups, but for the id, which is each query's own.
pub proof fn lemma_same_questions_same_reply(
    first: PacketView,
    second: PacketView,
    outcomes: Seq<OutcomeView>,
)
    requires
        first.questions == second.questions,
        first.header.qdcount == second.header.qdcount,
    ensures
        match (reply_to(first, outcomes), reply_to(second, outcomes)) {
            (Ok(a), Ok(b)) => a.header.id == first.header.id && b.header.id == second.header.id
                && a == (PacketView { header: Header { id: a.header.id, ..b.header }, ..b }),
            (Err(a), Err(b)) => a == b,
            _ => false,
        },
{
}

/// The state of one resolution: the query's questions, how many of them
/// have been handled, and what they have come to.
#[derive(Debug)]
pub struct Resolver {
    id: u16,
    qdcount: u16,
    questions: Vec<Question>,
    place: Place,
    answers: Vec<Answer>,
    rcode: RCode,
}

/// How far a resolution has come: the number of questions handled, and
/// the offset of the name of the question that comes next. An offset that
/// is too large for a compression pointer is held as `POINTER_LIMIT`.
#[derive(Clone, Copy, Debug)]
struct Place {
    position: usize,
    offset: usize,
}

impl Resolver {
    /// The id of the query.
    pub closed spec fn id(&self) -> u16 {
        self.id
    }

    /// The number of questions that the query's header counts.
    pub closed spec fn qdcount(&self) -> u16 {
        self.qdcount
    }

    /// The questions of the query.
    pub closed spec fn questions(&self) -> Seq<QuestionView> {
        questions_view(self.questions@)
    }

    /// The number of questions handled.
    pub closed spec fn position(&self) -> nat {
        self.place.position as nat
    }

    /// What the questions handled have come to.
    pub closed spec fn progress(&self) -> Progress {
        Progress { answers: answers_view(self.answers@), rcode: self.rcode }
    }

    #[verifier::type_invariant]
    spec fn inv(&self) -> bool {
        &&& self.place.position <= self.questions@.len()
        &&& self.answers@.len() <= MAX_COUNT
        &&& answers_wf(answers_view(self.answers@))
        &&& self.place.offset <= POINTER_LIMIT
        &&& self.place.offset < POINTER_LIMIT ==> self.place.offset == name_offset(
            questions_view(self.questions@),
            self.place.position as int,
        )
        &&& self.place.offset == POINTER_LIMIT ==> name_offset(
            questions_view(self.questions@),
            self.place.position as int,
        ) >= POINTER_LIMIT
    }

    /// Begins the resolution of `query`.
    pub fn new(query: &DnsPacket) -> (resolver: Resolver)
        ensures
            resolver.id() == query@.header.id,
            resolver.qdcount() == query@.header.qdcount,
            resolver.questions() == query@.questions,
            resolver.position() == 0,
            resolver.progress() == start(),
    {
        let mut questions: Vec<Question> = Vec::new();
        let mut i: usize = 0;
        while i < query.questions.len()
            invariant
                i <= query.questions.len(),
                questions@.len() == i,
                forall|j: int| 0 <= j < i ==> (#[trigger] questions@[j])@ == query.questions@[j]@,
            decreases query.questions.len() - i,
        {
            questions.push(query.questions[i].clone());
            i = i + 1;
        }
        assert(questions_view(questions@) =~= query@.questions);
        assert(questions_view(questions@).take(0) =~= Seq::<QuestionView>::empty());
        let resolver = Resolver {
            id: query.header.id,
            qdcount: query.header.qdcount,
            questions,
            place: Place { position: 0, offset: HEADER_LEN },
            answers: Vec::new(),
            rcode: RCode::Refused,
        };
        assert(resolver.progress().answers =~= Seq::<AnswerView>::empty());
        resolver
    }

    /// The lookup to make next: that for the first question not yet
    /// handled. `None` when every question has been handled.
    pub fn pending(&self) -> (r: Result<Option<LookupRequest>, DnsError>)
        ensures
            match r {
                Ok(None) => self.position() == self.questions().len(),
                Ok(Some(request)) => self.position() < self.questions().len() && request_for(
                    self.questions()[self.position() as int],
                ) == Some(request@),
                Err(e) => self.position() < self.questions().len() && e
                    == DnsError::UnknownRecordType && request_for(
                    self.questions()[self.position() as int],
                ) is None,
            },
    {
        proof {
            use_type_invariant(self);
        }
        if self.place.position >= self.questions.len() {
            return Ok(None);
        }
        match lookup_request(&self.questions[self.place.position]) {
            Ok(request) => Ok(Some(request)),
            Err(e) => Err(e),
        }
    }

    /// What a reply of the backend says: the response code that it stands
    /// for, and the record set where one was found.
    pub fn resolve_record_set(reply: BackendReply) -> (r: (Option<RecordSet>, RCode))
        ensures
            r.1 == verdict(reply@).0,
            match r.0 {
                Some(set) => verdict(reply@).1 == Some(set@),
                None => verdict(reply@).1 is None,
            },
    {
        match reply.status {
            Some(0) => match reply.record_set {
                Some(set) => match set.into_record_set() {
                    Some(found) => (Some(found), RCode::NoError),
                    None => (None, RCode::ServFail),
                },
                None => (None, RCode::ServFail),
            },
            Some(1) => (None, RCode::FormErr),
            Some(2) => (None, RCode::NXDomain),
            _ => (None, RCode::ServFail),
        }
    }

    /// Takes in how the pending lookup ended, and goes on to the next
    /// question. The result says what went wrong with the lookup, if
    /// anything did; the resolution goes on all the same.
    pub fn supply(&mut self, outcome: LookupOutcome) -> (r: Result<(), DnsError>)
        requires
            old(self).position() < old(self).questions().len(),
        ensures
            final(self).id() == old(self).id(),
            final(self).qdcount() == old(self).qdcount(),
            final(self).questions() == old(self).questions(),
            final(self).position() == old(self).position() + 1,
            final(self).progress() == step(
                old(self).progress(),
                name_pointer(name_offset(old(self).questions(), old(self).position() as int)),
                outcome@,
            ),
            match fault(
                old(self).progress(),
                name_pointer(name_offset(old(self).questions(), old(self).position() as int)),
                outcome@,
            ) {
                Some(e) => r == Err::<(), DnsError>(e),
                None => r == Ok::<(), DnsError>(()),
            },
    {
        proof {
            use_type_invariant(&*self);
        }
        let ghost before = self.progress();
        let ghost asked = self.questions();
        let place = self.place;
        assert(place.position < self.questions.len());
        let pointer = pointer_to(place.offset);
        assert(pointer == name_pointer(name_offset(asked, place.position as int)));
        let result = match outcome {
            LookupOutcome::Unavailable => Err(DnsError::BackendUnavailable),
            LookupOutcome::Replied(reply) => {
                let (found, code) = Resolver::resolve_record_set(reply);
                match found {
                    Some(set) => {
                        let produced = match pointer {
                            Some(name_ptr) => match Answer::from_record_set(name_ptr, set) {
                                Ok(answers) => Some(answers),
                                Err(_) => None,
                            },
                            None => None,
                        };
                        match produced {
                            Some(mut answers) => {
                                if answers.len() <= MAX_COUNT - self.answers.len() {
                                    let ghost added = answers_view(answers@);
                                    let mut all: Vec<Answer> = Vec::new();
                                    core::mem::swap(&mut self.answers, &mut all);
                                    all.append(&mut answers);
                                    proof {
                                        assert(answers_view(all@) =~= before.answers + added);
                                        lemma_step_wf(before, pointer, outcome@);
                                    }
                                    self.answers = all;
                                    self.rcode = RCode::NoError;
                                    Ok(())
                                } else {
                                    self.rcode = RCode::ServFail;
                                    Err(DnsError::InvalidRecordContent)
                                }
                            },
                            None => {
                                self.rcode = RCode::ServFail;
                                Err(DnsError::InvalidRecordContent)
                            },
                        }
                    },
                    None => {
                        self.rcode = code;
                        Err(DnsError::BackendStatusError)
                    },
                }
            },
        };
        let length: usize = self.questions[place.position].qname.as_str().as_bytes().len();
        proof {
            let this = asked[place.position as int];
            assert(this == self.questions@[place.position as int]@);
            lemma_name_wire_len(this.name);
            assert(asked.take(place.position + 1).drop_last() =~= asked.take(
                place.position as int,
            ));
            assert(asked.take(place.position + 1).last() == this);
            assert(name_offset(asked, place.position + 1) == name_offset(
                asked,
                place.position as int,
            ) + length + 6);
        }
        let offset: usize = if place.offset < POINTER_LIMIT && length < POINTER_LIMIT
            && place.offset + length + 6 < POINTER_LIMIT {
            place.offset + length + 6
        } else {
            POINTER_LIMIT
        };
        self.place = Place { position: place.position + 1, offset };
        result
    }

    /// The reply, made of what the questions handled have come to.
    pub fn finish(self) -> (reply: DnsPacket)
        ensures
            reply@ == response(self.id(), self.qdcount(), self.questions(), self.progress()),
            self.qdcount() == self.questions().len() && questions_wf(self.questions())
                ==> reply@.wf(),
    {
        proof {
            use_type_invariant(&self);
        }
        let ancount: u16 = self.answers.len() as u16;
        let reply = DnsPacket {
            header: Header {
                id: self.id,
                qr: true,
                opcode: 0,
                aa: false,
                tc: false,
                rd: false,
                ra: false,
                z: 0,
                rcode: self.rcode.code(),
                qdcount: self.qdcount,
                ancount,
                nscount: 0,
                arcount: 0,
            },
            questions: self.questions,
            answers: self.answers,
            authorities: Vec::new(),
            additionals: Vec::new(),
        };
        assert(reply@.authorities =~= Seq::<AnswerView>::empty());
        assert(reply@.additionals =~= Seq::<AnswerView>::empty());
        reply
    }

    /// Resolves `query` in one go from the outcomes of its lookups, that
    /// of the question at `i` being `outcomes[i]`.
    pub fn resolve_answers(query: &DnsPacket, outcomes: Vec<LookupOutcome>) -> (r: Result<
        DnsPacket,
        DnsError,
    >)
        requires
            outcomes@.len() == query@.questions.len(),
        ensures
            match r {
                Ok(reply) => reply_to(query@, outcomes_view(outcomes@)) == Ok::<
                    PacketView,
                    DnsError,
                >(reply@) && (query@.header.qdcount == query@.questions.len() && questions_wf(
                    query@.questions,
                ) ==> reply@.wf()),
                Err(e) => reply_to(query@, outcomes_view(outcomes@)) == Err::<
                    PacketView,
                    DnsError,
                >(e),
            },
    {
        let mut resolver = Resolver::new(query);
        let ghost asked = query@.questions;
        let ghost ends = outcomes_view(outcomes@);
        let ghost all = outcomes@;
        for outcome in it: outcomes
            invariant
                asked == query@.questions,
                all == outcomes@,
                all.len() == asked.len(),
                ends == outcomes_view(all),
                it.seq() == all,
                resolver.id() == query@.header.id,
                resolver.qdcount() == query@.header.qdcount,
                resolver.questions() == asked,
                resolver.position() == it.index(),
                resolver.progress() == run(asked, ends, it.index() as nat),
                forall|j: int| 0 <= j < it.index() ==> request_for(#[trigger] asked[j]) is Some,
        {
            match resolver.pending() {
                Ok(_) => {},
                Err(e) => {
                    return Err(e);
                },
            }
            assert(ends[it.index() as int] == outcome@);
            let _ = resolver.supply(outcome);
        }
        Ok(resolver.finish())
    }
}

} // verus!
