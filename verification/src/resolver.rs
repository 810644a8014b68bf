//! The forwarding resolver: what to do with a query, one decision at a time.
//!
//! The resolver itself sends nothing. [`start`] and [`Resolver::step`] say
//! what comes next: bytes to send to the upstream server, the finished reply,
//! or the failure of the whole request. The caller sends and receives, and
//! hands back what happened.

use crate::error::DnsError;
use crate::parser::{lemma_message_counts, spec_parse_message, DnsParser};
use crate::types::{
    lemma_header_roundtrip, spec_answers, spec_answers_bytes, spec_name, spec_questions,
    spec_questions_bytes, Additional, Answer, AnswerView, Authority, Header, Message, MessageView,
    OpCode, Question, QuestionView, RCode,
};
use vstd::prelude::*;

verus! {

/// The time to live of a synthesized answer, in seconds.
pub const SYNTHESIZED_TTL: u32 = 60;

/// The data of a synthesized answer: a fixed placeholder address.
pub open spec fn spec_placeholder_rdata() -> Seq<u8> {
    seq![8u8, 8u8, 8u8, 8u8]
}

/// The answer that is made up for a question where no upstream is
/// configured: the question's name, type and class, the fixed time to live
/// and the placeholder address.
pub open spec fn spec_synthesized_answer(q: QuestionView) -> AnswerView {
    AnswerView {
        name: q.name,
        record_type: q.record_type,
        record_class: q.record_class,
        ttl: SYNTHESIZED_TTL,
        rdata: spec_placeholder_rdata(),
    }
}

/// One synthesized answer for each question, in order.
pub open spec fn spec_synthesized_answers(questions: Seq<QuestionView>) -> Seq<AnswerView> {
    questions.map_values(|q: QuestionView| spec_synthesized_answer(q))
}

/// The response code of a reply: only standard queries are implemented.
pub open spec fn spec_reply_rcode(opcode: OpCode) -> RCode {
    if opcode == OpCode::Query {
        RCode::NoError
    } else {
        RCode::NotImplemented
    }
}

/// The header of a reply: QR is set, the id, the opcode and RD are the
/// query's, the response code is the given one, every other flag is clear, and
/// the counts are those of the questions and answers that the reply holds.
pub open spec fn spec_reply_header(query: Header, questions: nat, answers: nat, rcode: RCode)
    -> Header {
    Header {
        id: query.id,
        flags: [0x80u8 | (query.flags[0] & 0x79u8), rcode.spec_code()],
        qdcount: questions as u16,
        ancount: answers as u16,
        nscount: 0,
        arcount: 0,
    }
}

/// The reply to a query: its questions, the given answers, and the header
/// that goes with them.
pub open spec fn spec_reply(query: MessageView, answers: Seq<AnswerView>, rcode: RCode)
    -> MessageView {
    MessageView {
        header: spec_reply_header(query.header, query.questions.len(), answers.len(), rcode),
        questions: query.questions,
        answers,
    }
}

/// The message that asks the upstream one question of the query: the query's
/// header with the counts of that single question, and the question alone.
pub open spec fn spec_forward_query(query: MessageView, index: int) -> MessageView {
    MessageView {
        header: Header {
            id: query.header.id,
            flags: query.header.flags,
            qdcount: 1,
            ancount: 0,
            nscount: 0,
            arcount: 0,
        },
        questions: seq![query.questions[index]],
        answers: Seq::empty(),
    }
}

/// What the transport hands back after it was asked to forward.
pub enum Event {
    /// The upstream replied with these bytes.
    UpstreamReply(Vec<u8>),
    /// Sending to the upstream, or receiving from it, failed.
    UpstreamFailed,
}

/// A query under way: some of its questions are answered, the next one is
/// with the upstream.
pub struct Resolver {
    query: Message,
    answers: Vec<Answer>,
}

/// What comes next for a query.
pub enum Step {
    /// Send the bytes to the upstream and hand its reply to
    /// [`Resolver::step`].
    Forward(Resolver, Vec<u8>),
    /// The reply is complete.
    Reply(Message),
    /// The request has failed as a whole; there is no reply.
    Fail(DnsError),
}

/// A step as plain values.
pub enum StepView {
    Forward { query: MessageView, collected: Seq<AnswerView>, send: Seq<u8> },
    Reply(MessageView),
    Fail(DnsError),
}

impl View for Step {
    type V = StepView;

    open spec fn view(&self) -> StepView {
        match self {
            Step::Forward(resolver, bytes) => StepView::Forward {
                query: resolver.spec_query(),
                collected: resolver.spec_collected(),
                send: bytes@,
            },
            Step::Reply(reply) => StepView::Reply(reply@),
            Step::Fail(e) => StepView::Fail(*e),
        }
    }
}

/// What comes next once `collected` answers are in: the next question goes
/// to the upstream, or, when every question has its answer, the reply.
pub open spec fn spec_continue(query: MessageView, collected: Seq<AnswerView>) -> StepView {
    if collected.len() >= query.questions.len() {
        StepView::Reply(spec_reply(query, collected, RCode::NoError))
    } else {
        StepView::Forward {
            query,
            collected,
            send: spec_forward_query(query, collected.len() as int).spec_bytes(),
        }
    }
}

/// What comes first for a decoded query. A query that is no standard query
/// is told so at once. Without an upstream every question gets a synthesized
/// answer. With one, the questions are forwarded in order.
pub open spec fn spec_respond(query: MessageView, has_upstream: bool) -> StepView {
    if query.header.spec_opcode() != OpCode::Query {
        StepView::Reply(spec_reply(query, Seq::empty(), RCode::NotImplemented))
    } else if !has_upstream {
        StepView::Reply(
            spec_reply(query, spec_synthesized_answers(query.questions), RCode::NoError),
        )
    } else {
        spec_continue(query, Seq::empty())
    }
}

/// What comes first for an inbound packet: a packet that does not decode
/// fails the request with the decoding error.
pub open spec fn spec_start(packet: Seq<u8>, has_upstream: bool) -> StepView {
    match spec_parse_message(packet) {
        Err(e) => StepView::Fail(e),
        Ok((query, _)) => spec_respond(query, has_upstream),
    }
}

/// What comes next after the upstream was asked. Any failure fails the whole
/// request: that of sending or receiving, a reply that does not decode, and a
/// reply without an answer. Otherwise the first answer of the reply is kept.
pub open spec fn spec_step(query: MessageView, collected: Seq<AnswerView>, event: Event)
    -> StepView {
    match event {
        Event::UpstreamFailed => StepView::Fail(DnsError::UpstreamIoError),
        Event::UpstreamReply(bytes) => match spec_parse_message(bytes@) {
            Err(e) => StepView::Fail(e),
            Ok((reply, _)) => {
                if reply.answers.len() == 0 {
                    StepView::Fail(DnsError::UpstreamNoAnswer)
                } else {
                    spec_continue(query, collected.push(reply.answers[0]))
                }
            },
        },
    }
}

/// The fields of a reply header, one by one: it is a response, it repeats the
/// query's id, opcode and RD, it carries the response code, and AA, TC, RA and
/// Z are clear.
pub proof fn lemma_reply_header_fields(query: Header, questions: nat, answers: nat, rcode: RCode)
    ensures
        ({
            let h = spec_reply_header(query, questions, answers, rcode);
            &&& h.id == query.id
            &&& h.spec_qr()
            &&& h.spec_opcode_bits() == query.spec_opcode_bits()
            &&& h.spec_opcode() == query.spec_opcode()
            &&& h.spec_rd() == query.spec_rd()
            &&& !h.spec_aa()
            &&& !h.spec_tc()
            &&& !h.spec_ra()
            &&& h.spec_z() == 0
            &&& h.spec_rcode_bits() == rcode.spec_code()
            &&& h.nscount == 0
            &&& h.arcount == 0
            &&& questions <= u16::MAX ==> h.qdcount == questions
            &&& answers <= u16::MAX ==> h.ancount == answers
        }),
{
    let asked: u8 = query.flags[0];
    let first: u8 = 0x80u8 | (asked & 0x79u8);
    let code: u8 = rcode.spec_code();
    assert({
        &&& first & 0x80u8 != 0
        &&& (first & 0x78u8) >> 3 == (asked & 0x78u8) >> 3
        &&& first & 0x04u8 == 0
        &&& first & 0x02u8 == 0
        &&& (first & 0x01u8 != 0) == (asked & 0x01u8 != 0)
    }) by (bit_vector)
        requires
            first == 0x80u8 | (asked & 0x79u8),
    ;
    assert(code & 0x0fu8 == code && code & 0x80u8 == 0 && (code & 0x70u8) >> 4 == 0)
        by (bit_vector)
        requires
            code <= 5,
    ;
}

/// Without an upstream, a standard query is answered at once: the reply
/// repeats the questions and holds one answer for each, which has the
/// question's name, type and class, a time to live of 60 seconds and the
/// placeholder address as its data. The header counts them.
pub proof fn lemma_reply_without_upstream(packet: Seq<u8>)
    requires
        spec_parse_message(packet) matches Ok((query, _)) && query.header.spec_opcode()
            == OpCode::Query,
    ensures
        spec_start(packet, false) matches StepView::Reply(reply) && ({
            let query = spec_parse_message(packet)->Ok_0.0;
            &&& reply.questions == query.questions
            &&& reply.answers.len() == query.questions.len()
            &&& reply.header.qdcount == query.questions.len()
            &&& reply.header.ancount == query.questions.len()
            &&& reply.header.spec_rcode_bits() == RCode::NoError.spec_code()
            &&& forall|i: int|
                0 <= i < query.questions.len() ==> {
                    let a = #[trigger] reply.answers[i];
                    &&& a.name == query.questions[i].name
                    &&& a.record_type == query.questions[i].record_type
                    &&& a.record_class == query.questions[i].record_class
                    &&& a.ttl == 60
                    &&& a.rdata == seq![8u8, 8u8, 8u8, 8u8]
                }
        }),
{
    let query = spec_parse_message(packet)->Ok_0.0;
    lemma_message_counts(packet);
    lemma_reply_header_fields(
        query.header,
        query.questions.len(),
        query.questions.len(),
        RCode::NoError,
    );
}

/// A failing upstream fails the whole request: whatever was collected
/// before, the step after a failure to send or to receive is the failure, and
/// no reply.
pub proof fn lemma_upstream_failure_fails_request(
    query: MessageView,
    collected: Seq<AnswerView>,
)
    ensures
        spec_step(query, collected, Event::UpstreamFailed) == StepView::Fail(
            DnsError::UpstreamIoError,
        ),
{
}

/// A reply without an answer, or one that does not decode, fails the whole
/// request as well.
pub proof fn lemma_bad_upstream_reply_fails_request(
    query: MessageView,
    collected: Seq<AnswerView>,
    bytes: Vec<u8>,
)
    ensures
        spec_parse_message(bytes@) matches Err(e) ==> spec_step(
            query,
            collected,
            Event::UpstreamReply(bytes),
        ) == StepView::Fail(e),
        spec_parse_message(bytes@) matches Ok((reply, _)) && reply.answers.len() == 0
            ==> spec_step(query, collected, Event::UpstreamReply(bytes)) == StepView::Fail(
            DnsError::UpstreamNoAnswer,
        ),
{
}

/// The id of the query that a packet holds: its first two bytes.
pub open spec fn spec_inbound_id(packet: Seq<u8>) -> u16 {
    Header::spec_from_bytes(packet).id
}

/// The first step keeps the inbound id: a reply carries it, and so do the
/// query that is kept for later steps and the bytes that go to the upstream.
pub proof fn lemma_start_keeps_id(packet: Seq<u8>, has_upstream: bool)
    ensures
        match spec_start(packet, has_upstream) {
            StepView::Reply(reply) => reply.header.id == spec_inbound_id(packet),
            StepView::Forward { query, collected, send } => query.header.id == spec_inbound_id(
                packet,
            ) && Header::spec_from_bytes(send).id == spec_inbound_id(packet),
            StepView::Fail(_) => true,
        },
{
    lemma_message_counts(packet);
    if let Ok((query, _)) = spec_parse_message(packet) {
        lemma_forward_keeps_id(query, 0);
    }
}

/// Every later step keeps the id: a reply carries the id of the query, a
/// further forward keeps the query as it is and sends its id to the upstream.
pub proof fn lemma_step_keeps_id(query: MessageView, collected: Seq<AnswerView>, event: Event)
    ensures
        match spec_step(query, collected, event) {
            StepView::Reply(reply) => reply.header.id == query.header.id,
            StepView::Forward { query: kept, collected: more, send } => kept == query
                && Header::spec_from_bytes(send).id == query.header.id,
            StepView::Fail(_) => true,
        },
{
    if let StepView::Forward { query: kept, collected: more, send } = spec_step(
        query,
        collected,
        event,
    ) {
        lemma_forward_keeps_id(query, more.len() as int);
    }
}

/// The message that goes to the upstream carries the id of the query.
pub proof fn lemma_forward_keeps_id(query: MessageView, index: int)
    ensures
        Header::spec_from_bytes(spec_forward_query(query, index).spec_bytes()).id
            == query.header.id,
{
    let forward = spec_forward_query(query, index);
    lemma_header_roundtrip(
        forward.header,
        spec_questions_bytes(forward.questions) + spec_answers_bytes(forward.answers),
    );
    assert(forward.spec_bytes() =~= forward.header.spec_bytes() + (spec_questions_bytes(
        forward.questions,
    ) + spec_answers_bytes(forward.answers)));
}

/// The response code for a reply to a query with this opcode.
pub fn reply_rcode(opcode: OpCode) -> (rcode: RCode)
    ensures
        rcode == spec_reply_rcode(opcode),
{
    if opcode == OpCode::Query {
        RCode::NoError
    } else {
        RCode::NotImplemented
    }
}

/// The answer that is made up for a question.
pub fn synthesize_answer(question: &Question) -> (answer: Answer)
    ensures
        answer@ == spec_synthesized_answer(question@),
{
    let mut rdata: Vec<u8> = Vec::new();
    rdata.push(8);
    rdata.push(8);
    rdata.push(8);
    rdata.push(8);
    let answer = Answer {
        name: question.name.clone(),
        record_type: question.record_type,
        record_class: question.record_class,
        ttl: SYNTHESIZED_TTL,
        rdata,
    };
    assert(spec_name(answer.name@) =~= spec_name(question.name@));
    assert(answer.rdata@ =~= spec_placeholder_rdata());
    answer
}

/// One synthesized answer for each question, in order.
pub fn synthesize_answers(questions: &Vec<Question>) -> (answers: Vec<Answer>)
    ensures
        spec_answers(answers@) == spec_synthesized_answers(spec_questions(questions@)),
{
    let mut answers: Vec<Answer> = Vec::new();
    let mut i: usize = 0;
    while i < questions.len()
        invariant
            i <= questions.len(),
            answers.len() == i,
            forall|k: int| 0 <= k < i ==> (#[trigger] answers[k])@ == spec_synthesized_answer(
                questions[k]@,
            ),
        decreases questions.len() - i,
    {
        answers.push(synthesize_answer(&questions[i]));
        i += 1;
    }
    assert(spec_answers(answers@) =~= spec_synthesized_answers(spec_questions(questions@)));
    answers
}

/// The first answer of an upstream reply, or the failure that it holds none.
pub fn first_answer(reply: &Message) -> (r: Result<Answer, DnsError>)
    ensures
        reply.answers.len() == 0 ==> r == Err::<Answer, DnsError>(DnsError::UpstreamNoAnswer),
        reply.answers.len() > 0 ==> r is Ok && r->Ok_0@ == reply@.answers[0],
{
    if reply.answers.len() == 0 {
        Err(DnsError::UpstreamNoAnswer)
    } else {
        Ok(reply.answers[0].clone())
    }
}

/// The message that asks the upstream the question at `index`.
pub fn forward_query(query: &Message, index: usize) -> (forward: Message)
    requires
        index < query.questions.len(),
    ensures
        forward@ == spec_forward_query(query@, index as int),
{
    let mut questions: Vec<Question> = Vec::new();
    questions.push(query.questions[index].clone());
    let forward = Message {
        header: Header {
            id: query.header.id,
            flags: query.header.flags,
            qdcount: 1,
            ancount: 0,
            nscount: 0,
            arcount: 0,
        },
        questions,
        answers: Vec::new(),
        authority: Authority {  },
        additional: Additional {  },
    };
    assert(forward@.questions =~= seq![query@.questions[index as int]]);
    assert(forward@.answers =~= Seq::<AnswerView>::empty());
    forward
}

/// The reply to a query with the given answers and response code.
pub fn reply_to(query: &Message, answers: Vec<Answer>, rcode: RCode) -> (reply: Message)
    requires
        query.questions.len() <= u16::MAX,
        answers.len() <= u16::MAX,
    ensures
        reply@ == spec_reply(query@, spec_answers(answers@), rcode),
        reply.header.id == query.header.id,
{
    let opcode = match query.header.get_opcode() {
        Ok(opcode) => opcode,
        Err(_) => OpCode::Query,
    };
    let mut header = Header::new_reply(query.header.id);
    header.qdcount = query.questions.len() as u16;
    header.set_opcode(opcode);
    header.set_rd(query.header.get_rd());
    header.ancount = answers.len() as u16;
    header.set_rcode(rcode);
    proof {
        let asked: u8 = query.header.flags[0];
        let first: u8 = header.flags[0];
        let second: u8 = header.flags[1];
        let code: u8 = rcode.spec_code();
        assert(first == 0x80u8 | (asked & 0x79u8)) by (bit_vector)
            requires
                first & 0x80u8 != 0,
                (first & 0x78u8) >> 3 == (asked & 0x78u8) >> 3,
                first & 0x04u8 == 0,
                first & 0x02u8 == 0,
                (first & 0x01u8 != 0) == (asked & 0x01u8 != 0),
        ;
        assert(second == code) by (bit_vector)
            requires
                second & 0x0fu8 == code,
                second & 0x80u8 == 0,
                (second & 0x70u8) >> 4 == 0,
        ;
        let expected = spec_reply_header(
            query.header,
            query.questions@.len(),
            answers@.len(),
            rcode,
        );
        assert(header.flags =~= expected.flags);
    }
    let reply = Message {
        header,
        questions: query.questions.clone(),
        answers,
        authority: Authority {  },
        additional: Additional {  },
    };
    assert(reply@.questions =~= query@.questions);
    reply
}

impl Resolver {
    #[verifier::type_invariant]
    spec fn spec_inv(&self) -> bool {
        &&& self.answers.len() < self.query.questions.len()
        &&& self.query.questions.len() <= u16::MAX
    }

    /// The query that is being resolved.
    pub closed spec fn spec_query(&self) -> MessageView {
        self.query@
    }

    /// The answers collected so far, one for each question already forwarded.
    pub closed spec fn spec_collected(&self) -> Seq<AnswerView> {
        spec_answers(self.answers@)
    }

    /// Takes what happened to the forwarded question and says what comes
    /// next.
    pub fn step(self, event: Event) -> (next: Step)
        ensures
            next@ == spec_step(self.spec_query(), self.spec_collected(), event),
            event is UpstreamFailed ==> next@ == StepView::Fail(DnsError::UpstreamIoError),
    {
        proof {
            use_type_invariant(&self);
        }
        let Resolver { query, answers } = self;
        let mut answers = answers;
        match event {
            Event::UpstreamFailed => Step::Fail(DnsError::UpstreamIoError),
            Event::UpstreamReply(bytes) => {
                let mut parser = DnsParser { packet: bytes, pos: 0 };
                match parser.parse() {
                    Err(e) => Step::Fail(e),
                    Ok(reply) => match first_answer(&reply) {
                        Err(e) => Step::Fail(e),
                        Ok(answer) => {
                            proof {
                                assert(spec_answers(answers@.push(answer)) =~= spec_answers(
                                    answers@,
                                ).push(answer@));
                            }
                            answers.push(answer);
                            proceed(query, answers)
                        },
                    },
                }
            },
        }
    }
}

/// Forwards the next question, or replies when every question has its
/// answer.
fn proceed(query: Message, answers: Vec<Answer>) -> (next: Step)
    requires
        answers.len() <= query.questions.len() <= u16::MAX,
    ensures
        next@ == spec_continue(query@, spec_answers(answers@)),
{
    if answers.len() >= query.questions.len() {
        Step::Reply(reply_to(&query, answers, RCode::NoError))
    } else {
        let bytes = forward_query(&query, answers.len()).to_bytes();
        Step::Forward(Resolver { query, answers }, bytes)
    }
}

/// Takes an inbound packet and says what comes first. `has_upstream` tells
/// whether an upstream server is configured.
pub fn start(packet: Vec<u8>, has_upstream: bool) -> (first: Step)
    ensures
        first@ == spec_start(packet@, has_upstream),
{
    let mut parser = DnsParser { packet, pos: 0 };
    let query = match parser.parse() {
        Ok(query) => query,
        Err(e) => {
            return Step::Fail(e);
        },
    };
    let opcode = match query.header.get_opcode() {
        Ok(opcode) => opcode,
        Err(e) => {
            return Step::Fail(e);
        },
    };
    if opcode != OpCode::Query {
        let reply = reply_to(&query, Vec::new(), reply_rcode(opcode));
        assert(reply@.answers =~= Seq::<AnswerView>::empty());
        return Step::Reply(reply);
    }
    if !has_upstream {
        let answers = synthesize_answers(&query.questions);
        return Step::Reply(reply_to(&query, answers, reply_rcode(opcode)));
    }
    let answers: Vec<Answer> = Vec::new();
    assert(spec_answers(answers@) =~= Seq::<AnswerView>::empty());
    proceed(query, answers)
}

} // verus!
