//! The request loop, one decision at a time: what is to be done when a
//! datagram has come in, and what when a lookup has ended. Receiving,
//! asking the backend and sending are the caller's part.

use crate::backend::{request_for, LookupOutcome, LookupRequest};
use crate::error::DnsError;
use crate::name::name_pointer;
use crate::packet::{name_offset, parse_packet, questions_wf, DnsPacket};
use crate::question::QuestionView;
use crate::resolver::{fault, response, start, step, Progress, Resolver};
use vstd::prelude::*;

verus! {

/// A query that is being answered, and that waits for a lookup.
#[derive(Debug)]
pub struct Exchange {
    resolver: Resolver,
}

/// What the caller is to do next.
#[derive(Debug)]
pub enum Action {
    /// Make this lookup, and come back with its outcome and the exchange.
    Lookup(LookupRequest, Exchange),
    /// Send these bytes to where the datagram came from. The exchange is
    /// over.
    Send(Vec<u8>),
    /// Send nothing. The exchange is over.
    Drop(DnsError),
}

impl Exchange {
    /// The id of the query.
    pub closed spec fn id(&self) -> u16 {
        self.resolver.id()
    }

    /// The questions of the query.
    pub closed spec fn questions(&self) -> Seq<QuestionView> {
        self.resolver.questions()
    }

    /// The number of questions handled.
    pub closed spec fn position(&self) -> nat {
        self.resolver.position()
    }

    /// What the questions handled have come to.
    pub closed spec fn progress(&self) -> Progress {
        self.resolver.progress()
    }

    #[verifier::type_invariant]
    spec fn inv(&self) -> bool {
        &&& self.resolver.qdcount() == self.resolver.questions().len()
        &&& questions_wf(self.resolver.questions())
        &&& self.resolver.position() < self.resolver.questions().len()
    }
}

/// `action` is what is due for a query with the given id and questions of
/// which `position` have been handled and have come to `progress`. While
/// a question is left, its lookup is due, or the exchange is dropped with
/// `UnknownRecordType` if the question asks for a type that there is not.
/// When none is left, the encoded reply is sent.
pub open spec fn due(
    action: Action,
    id: u16,
    questions: Seq<QuestionView>,
    position: nat,
    progress: Progress,
) -> bool {
    match action {
        Action::Lookup(request, exchange) => {
            &&& position < questions.len()
            &&& request_for(questions[position as int]) == Some(request@)
            &&& exchange.id() == id
            &&& exchange.questions() == questions
            &&& exchange.position() == position
            &&& exchange.progress() == progress
        },
        Action::Send(bytes) => {
            &&& position >= questions.len()
            &&& bytes@ == response(id, questions.len() as u16, questions, progress).wire()
        },
        Action::Drop(e) => {
            &&& position < questions.len()
            &&& request_for(questions[position as int]) is None
            &&& e == DnsError::UnknownRecordType
        },
    }
}

fn act(resolver: Resolver) -> (action: Action)
    requires
        resolver.qdcount() == resolver.questions().len(),
        questions_wf(resolver.questions()),
    ensures
        due(action, resolver.id(), resolver.questions(), resolver.position(), resolver.progress()),
{
    match resolver.pending() {
        Ok(Some(request)) => Action::Lookup(request, Exchange { resolver }),
        Ok(None) => {
            let reply = resolver.finish();
            Action::Send(reply.to_bytes())
        },
        Err(e) => Action::Drop(e),
    }
}

/// What is due when `datagram` has come in. Bytes that are no message are
/// dropped with `MalformedPacket`, and nothing is sent for them.
pub fn receive(datagram: &[u8]) -> (action: Action)
    ensures
        match parse_packet(datagram@) {
            Some(query) => due(action, query.header.id, query.questions, 0, start()),
            None => action matches Action::Drop(e) && e == DnsError::MalformedPacket,
        },
{
    match DnsPacket::from_bytes(datagram) {
        Ok(query) => {
            act(Resolver::new(&query))
        },
        Err(e) => Action::Drop(e),
    }
}

/// What is due when the lookup that `exchange` was waiting for has ended
/// as `outcome`, and what went wrong with that lookup, if anything did.
pub fn resume(exchange: Exchange, outcome: LookupOutcome) -> (r: (Result<(), DnsError>, Action))
    ensures
        due(
            r.1,
            exchange.id(),
            exchange.questions(),
            exchange.position() + 1,
            step(
                exchange.progress(),
                name_pointer(name_offset(exchange.questions(), exchange.position() as int)),
                outcome@,
            ),
        ),
        match fault(
            exchange.progress(),
            name_pointer(name_offset(exchange.questions(), exchange.position() as int)),
            outcome@,
        ) {
            Some(e) => r.0 == Err::<(), DnsError>(e),
            None => r.0 == Ok::<(), DnsError>(()),
        },
{
    proof {
        use_type_invariant(&exchange);
    }
    let mut resolver = exchange.resolver;
    let lookup = resolver.supply(outcome);
    (lookup, act(resolver))
}

} // verus!
