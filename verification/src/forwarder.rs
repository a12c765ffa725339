//! The decisions of a forwarding resolver.
//!
//! An inbound message is answered by asking an upstream resolver about each
//! of its questions in turn, one question to a query, and merging what comes
//! back. Sending and receiving is the caller's part: the caller asks
//! [`Forwarding::step`] what to do, does it, and hands each reply to
//! [`Forwarding::reply`].
use crate::domain_name::DomainName;
use crate::header::{DnsHeader, ResultCode};
use crate::packet::{questions_view, records_view, DnsPacket};
use crate::question::{DnsQuestion, QuestionView};
use crate::record::{DnsRecord, RecordClass, RecordType, RecordView, ADDRESS_LENGTH};
use vstd::prelude::*;

verus! {

/// Seconds a made-up answer may be cached.
pub const SYNTHETIC_TTL: u32 = 60;

/// Why forwarding was given up.
#[derive(Debug, Clone, Copy, PartialEq, Eq, Structural)]
pub enum ForwardError {
    /// A reply carried another id than the query it was awaited for.
    IdMismatch { expected: u16, got: u16 },
}

/// What the caller is to do next.
#[derive(Debug)]
pub enum Step {
    /// Send this query upstream and hand the reply to `reply`.
    Send(DnsPacket),
    /// Send this response to the client: the exchange is over.
    Respond(DnsPacket),
}

/// `rand::random` at type `u16`: a number from the thread's generator.
/// Nothing is claimed of it.
#[verifier::external_body]
fn random_id() -> u16 {
    rand::random()
}

/// The address every made-up answer points at.
pub open spec fn synthetic_address() -> Seq<u8> {
    seq![8u8, 8u8, 8u8, 8u8]
}

/// The header of the query that forwards one question under `id`: the
/// opcode and the wish for recursion of the inbound header, one question,
/// all else zero.
pub open spec fn query_header(inbound: DnsHeader, id: u16) -> DnsHeader {
    DnsHeader {
        id,
        opcode: inbound.opcode,
        recursion_desired: inbound.recursion_desired,
        question_entries: 1,
        ..DnsHeader::spec_new()
    }
}

/// The low sixteen bits of a length: the count a header can hold.
pub open spec fn entry_count(len: nat) -> u16 {
    (len % 65536) as u16
}

/// The header of the response to `inbound` with the given numbers of
/// questions and answers: the id, opcode and wish for recursion of the
/// inbound header, the response flag, and `NOTIMP` for any opcode but 0.
pub open spec fn response_header(inbound: DnsHeader, questions: nat, answers: nat) -> DnsHeader {
    DnsHeader {
        id: inbound.id,
        response: true,
        opcode: inbound.opcode,
        recursion_desired: inbound.recursion_desired,
        rescode: if inbound.opcode == 0 {
            ResultCode::NOERROR
        } else {
            ResultCode::NOTIMP
        },
        question_entries: entry_count(questions),
        answer_entries: entry_count(answers),
        ..DnsHeader::spec_new()
    }
}

/// The made-up answer to a question: a host address for the name asked
/// about.
pub open spec fn synthetic_answer(question: QuestionView) -> RecordView {
    RecordView {
        name: question.name,
        record_type: RecordType::A,
        class: RecordClass::IN,
        ttl: SYNTHETIC_TTL,
        length: ADDRESS_LENGTH,
        data: synthetic_address(),
    }
}

/// The answers of a response: what upstream gave, or, where there is no
/// upstream, a made-up answer to each question.
pub open spec fn response_answers(
    questions: Seq<QuestionView>,
    resolved: Option<Seq<RecordView>>,
) -> Seq<RecordView> {
    match resolved {
        Some(answers) => answers,
        None => Seq::new(questions.len(), |i: int| synthetic_answer(questions[i])),
    }
}

fn low_16(len: usize) -> (r: u16)
    ensures
        r == entry_count(len as nat),
{
    (len % 65536) as u16
}

/// The query that forwards `question` upstream under `id`.
pub fn forwarded_query(inbound: &DnsHeader, question: DnsQuestion, id: u16) -> (r: DnsPacket)
    ensures
        r.header == query_header(*inbound, id),
        r@.questions == seq![question@],
        r@.answers == Seq::<RecordView>::empty(),
{
    let mut forwarded = DnsPacket::new();
    forwarded.header.opcode = inbound.opcode;
    forwarded.header.recursion_desired = inbound.recursion_desired;
    forwarded.header.question_entries = 1;
    forwarded.header.id = id;
    forwarded.questions.push(question);
    forwarded
}

/// Takes the answers of a reply to the query sent under `sent_id` onto the
/// end of `answers`. A reply under another id is an error and leaves
/// `answers` as it is.
pub fn accept_reply(sent_id: u16, reply: DnsPacket, answers: &mut Vec<DnsRecord>) -> (r: Result<
    (),
    ForwardError,
>)
    ensures
        r.is_ok() == (reply.header.id == sent_id),
        r.is_ok() ==> records_view(final(answers)@) == records_view(old(answers)@)
            + reply@.answers,
        r.is_err() ==> r.unwrap_err() == (ForwardError::IdMismatch {
            expected: sent_id,
            got: reply.header.id,
        }) && final(answers)@ == old(answers)@,
{
    if reply.header.id != sent_id {
        return Err(ForwardError::IdMismatch { expected: sent_id, got: reply.header.id });
    }
    let mut received = reply.answers;
    answers.append(&mut received);
    Ok(())
}

/// A made-up answer to each of `questions`.
pub fn synthetic_answers(questions: &Vec<DnsQuestion>) -> (r: Vec<DnsRecord>)
    ensures
        records_view(r@) == response_answers(questions_view(questions@), None),
{
    let mut answers: Vec<DnsRecord> = Vec::new();
    let mut i: usize = 0;
    while i < questions.len()
        invariant
            i <= questions@.len(),
            answers@.len() == i,
            forall|j: int| 0 <= j < i ==> answers@[j]@ == synthetic_answer(questions@[j]@),
        decreases questions@.len() - i,
    {
        let domain_name: DomainName = questions[i].domain_name.clone();
        let data: [u8; 4] = [8, 8, 8, 8];
        answers.push(
            DnsRecord::new(domain_name, RecordType::A, RecordClass::IN, SYNTHETIC_TTL, data),
        );
        i = i + 1;
    }
    answers
}

/// The response to `inbound`: its questions, and as answers what upstream
/// gave or, where there is no upstream (`None`), a made-up answer to each
/// question. The header counts both lists.
pub fn response(inbound: DnsPacket, resolved: Option<Vec<DnsRecord>>) -> (r: DnsPacket)
    ensures
        r@.questions == inbound@.questions,
        r@.answers == response_answers(
            inbound@.questions,
            match resolved {
                Some(answers) => Some(records_view(answers@)),
                None => None,
            },
        ),
        r.header == response_header(inbound.header, r@.questions.len(), r@.answers.len()),
{
    let mut response = DnsPacket::new();
    response.header.id = inbound.header.id;
    response.header.response = true;
    response.header.opcode = inbound.header.opcode;
    response.header.recursion_desired = inbound.header.recursion_desired;
    response.header.rescode = match inbound.header.opcode {
        0 => ResultCode::NOERROR,
        _ => ResultCode::NOTIMP,
    };
    response.questions = inbound.questions;
    response.header.question_entries = low_16(response.questions.len());
    response.answers = match resolved {
        Some(answers) => answers,
        None => synthetic_answers(&response.questions),
    };
    response.header.answer_entries = low_16(response.answers.len());
    response
}

/// The state of one exchange: the inbound message, the number of its
/// questions that upstream has answered, the id of the query that is out,
/// and the answers so far.
pub struct Forwarding {
    pub inbound: DnsPacket,
    pub answered: usize,
    pub sent_id: u16,
    pub answers: Vec<DnsRecord>,
}

impl Forwarding {
    /// The state before anything was sent.
    pub fn start(inbound: DnsPacket) -> (r: Self)
        ensures
            r.inbound == inbound,
            r.answered == 0,
            r.sent_id == 0,
            r.answers@.len() == 0,
    {
        Forwarding { inbound, answered: 0, sent_id: 0, answers: Vec::new() }
    }

    /// What to do next, `id` being a fresh id for a query. While a question
    /// is unanswered, its query is to be sent under `id`, which the state
    /// remembers. After the last, the response with the merged answers is
    /// to be sent.
    pub fn step(&mut self, id: u16) -> (r: Step)
        ensures
            final(self).inbound == old(self).inbound,
            final(self).answered == old(self).answered,
            final(self).answers == old(self).answers,
            old(self).answered < old(self).inbound.questions@.len() ==> final(self).sent_id == id
                && match r {
                Step::Send(query) => query.header == query_header(old(self).inbound.header, id)
                    && query@.questions == seq![
                    old(self).inbound.questions@[old(self).answered as int]@,
                ] && query@.answers == Seq::<RecordView>::empty(),
                Step::Respond(_) => false,
            },
            old(self).answered >= old(self).inbound.questions@.len() ==> final(self).sent_id
                == old(self).sent_id && match r {
                Step::Send(_) => false,
                Step::Respond(response) => response@.questions == old(self).inbound@.questions
                    && response@.answers == records_view(old(self).answers@) && response.header
                    == response_header(
                    old(self).inbound.header,
                    response@.questions.len(),
                    response@.answers.len(),
                ),
            },
    {
        if self.answered < self.inbound.questions.len() {
            let question: DnsQuestion = self.inbound.questions[self.answered].clone();
            self.sent_id = id;
            Step::Send(forwarded_query(&self.inbound.header, question, id))
        } else {
            let answers = crate::packet::clone_records(&self.answers);
            Step::Respond(response(self.inbound.clone(), Some(answers)))
        }
    }

    /// What to do next, as `step` says it, a query going out under a fresh
    /// random id, which the state then tells.
    pub fn step_fresh(&mut self) -> (r: Step)
        ensures
            final(self).inbound == old(self).inbound,
            final(self).answered == old(self).answered,
            final(self).answers == old(self).answers,
            old(self).answered < old(self).inbound.questions@.len() ==> match r {
                Step::Send(query) => query.header == query_header(
                    old(self).inbound.header,
                    final(self).sent_id,
                ) && query@.questions == seq![
                    old(self).inbound.questions@[old(self).answered as int]@,
                ] && query@.answers == Seq::<RecordView>::empty(),
                Step::Respond(_) => false,
            },
            old(self).answered >= old(self).inbound.questions@.len() ==> final(self).sent_id
                == old(self).sent_id && match r {
                Step::Send(_) => false,
                Step::Respond(response) => response@.questions == old(self).inbound@.questions
                    && response@.answers == records_view(old(self).answers@) && response.header
                    == response_header(
                    old(self).inbound.header,
                    response@.questions.len(),
                    response@.answers.len(),
                ),
            },
    {
        let id: u16 = if self.answered < self.inbound.questions.len() {
            random_id()
        } else {
            self.sent_id
        };
        self.step(id)
    }

    /// Takes in the reply to the query that is out. Its answers go onto the
    /// end of the answers so far, and the next question is up. A reply
    /// under another id than the one sent is an error and changes nothing.
    pub fn reply(&mut self, reply: DnsPacket) -> (r: Result<(), ForwardError>)
        requires
            old(self).answered < old(self).inbound.questions@.len(),
        ensures
            final(self).inbound == old(self).inbound,
            final(self).sent_id == old(self).sent_id,
            r.is_ok() == (reply.header.id == old(self).sent_id),
            r.is_ok() ==> final(self).answered == old(self).answered + 1 && records_view(
                final(self).answers@,
            ) == records_view(old(self).answers@) + reply@.answers,
            r.is_err() ==> r.unwrap_err() == (ForwardError::IdMismatch {
                expected: old(self).sent_id,
                got: reply.header.id,
            }) && final(self).answered == old(self).answered && final(self).answers@ == old(
                self,
            ).answers@,
    {
        let r = accept_reply(self.sent_id, reply, &mut self.answers);
        if r.is_ok() {
            assert(self.inbound.questions@.len() == self.inbound.questions.len());
            self.answered = self.answered + 1;
        }
        r
    }
}

} // verus!
