use dns_core::error::DnsError;
use dns_core::resolver::{
    first_answer, forward_query, reply_rcode, reply_to, start, synthesize_answer,
    synthesize_answers, Event, Step, SYNTHESIZED_TTL,
};
use dns_core::types::{
    Additional, Answer, Authority, Header, Label, Message, OpCode, Question, RCode, RecordClass,
    RecordType,
};

fn name(parts: &[&str]) -> Vec<Label> {
    parts.iter().map(|p| Label(p.to_string())).collect()
}

fn question(parts: &[&str], record_type: RecordType) -> Question {
    Question { name: name(parts), record_type, record_class: RecordClass::IN }
}

fn answer(parts: &[&str], record_type: RecordType, ttl: u32, rdata: &[u8]) -> Answer {
    Answer {
        name: name(parts),
        record_type,
        record_class: RecordClass::IN,
        ttl,
        rdata: rdata.to_vec(),
    }
}

fn query(id: u16, first_flags: u8, questions: Vec<Question>) -> Message {
    Message {
        header: Header {
            id,
            flags: [first_flags, 0],
            qdcount: questions.len() as u16,
            ancount: 0,
            nscount: 0,
            arcount: 0,
        },
        questions,
        answers: vec![],
        authority: Authority {},
        additional: Additional {},
    }
}

fn upstream_reply(id: u16, answers: Vec<Answer>) -> Vec<u8> {
    let mut header = Header::new_reply(id);
    header.ancount = answers.len() as u16;
    Message {
        header,
        questions: vec![],
        answers,
        authority: Authority {},
        additional: Additional {},
    }
    .to_bytes()
}

fn expect_reply(step: Step) -> Message {
    match step {
        Step::Reply(m) => m,
        Step::Forward(_, bytes) => panic!("forward of {:?} where a reply was expected", bytes),
        Step::Fail(e) => panic!("failure {:?} where a reply was expected", e),
    }
}

fn expect_failure(step: Step) -> DnsError {
    match step {
        Step::Fail(e) => e,
        Step::Reply(m) => panic!("reply {:?} where a failure was expected", m),
        Step::Forward(_, bytes) => panic!("forward of {:?} where a failure was expected", bytes),
    }
}

#[test]
fn two_questions_without_upstream_get_two_synthesized_answers() {
    let q = query(
        0x04d2,
        0x01,
        vec![question(&["abc", "com"], RecordType::A), question(&["def", "org"], RecordType::MX)],
    );
    let mut packet = q.to_bytes();
    packet.resize(512, 0);
    let reply = expect_reply(start(packet, false));
    assert_eq!(reply.header.id, 0x04d2);
    assert_eq!(reply.header.flags, [0x81, 0x00]);
    assert_eq!(reply.header.qdcount, 2);
    assert_eq!(reply.header.ancount, 2);
    assert_eq!(reply.header.nscount, 0);
    assert_eq!(reply.header.arcount, 0);
    assert_eq!(reply.questions, q.questions);
    assert_eq!(reply.answers.len(), 2);
    for i in 0..2 {
        assert_eq!(reply.answers[i].name, q.questions[i].name);
        assert_eq!(reply.answers[i].record_type, q.questions[i].record_type);
        assert_eq!(reply.answers[i].record_class, q.questions[i].record_class);
        assert_eq!(reply.answers[i].ttl, 60);
        assert_eq!(reply.answers[i].rdata, vec![8, 8, 8, 8]);
    }
}

#[test]
fn reply_repeats_the_id_of_the_query() {
    for id in [0u16, 1, 0x00ff, 0x0100, 0x1234, 0x7fff, 0x8000, 0xffff] {
        let packet = query(id, 0, vec![question(&["a"], RecordType::A)]).to_bytes();
        assert_eq!(expect_reply(start(packet.clone(), false)).header.id, id);
        match start(packet, true) {
            Step::Forward(resolver, bytes) => {
                assert_eq!(&bytes[..2], &id.to_be_bytes());
                let answers = vec![answer(&["a"], RecordType::A, 1, &[1, 1, 1, 1])];
                let done = resolver.step(Event::UpstreamReply(upstream_reply(9, answers)));
                assert_eq!(expect_reply(done).header.id, id);
            }
            _ => panic!("a forward was expected"),
        }
        let status = query(id, 0b0001_0000, vec![question(&["a"], RecordType::A)]).to_bytes();
        assert_eq!(expect_reply(start(status, true)).header.id, id);
    }
}

#[test]
fn other_opcodes_are_not_implemented() {
    let q = query(77, 0b0000_1001, vec![question(&["a"], RecordType::A)]);
    for has_upstream in [false, true] {
        let reply = expect_reply(start(q.to_bytes(), has_upstream));
        assert_eq!(reply.header.id, 77);
        assert_eq!(reply.header.flags, [0b1000_1001, 0x04]);
        assert_eq!(reply.header.get_opcode(), Ok(OpCode::IQuery));
        assert_eq!(reply.header.qdcount, 1);
        assert_eq!(reply.header.ancount, 0);
        assert_eq!(reply.questions, q.questions);
        assert_eq!(reply.answers, vec![]);
    }
    let reserved = query(1, 0b0101_0000, vec![]);
    let reply = expect_reply(start(reserved.to_bytes(), false));
    assert_eq!(reply.header.flags, [0b1101_0000, 0x04]);
}

#[test]
fn reply_copies_only_opcode_and_rd() {
    let mut q = query(5, 0b0111_1111, vec![question(&["a"], RecordType::A)]);
    q.header.flags[1] = 0xff;
    q.header.nscount = 3;
    q.header.arcount = 4;
    let reply = expect_reply(start(q.to_bytes(), false));
    assert_eq!(reply.header.flags, [0b1111_1001, 0x04]);
    assert_eq!(reply.header.nscount, 0);
    assert_eq!(reply.header.arcount, 0);
    let mut plain = query(5, 0b0000_0110, vec![question(&["a"], RecordType::A)]);
    plain.header.flags[1] = 0xff;
    let reply = expect_reply(start(plain.to_bytes(), false));
    assert_eq!(reply.header.flags, [0b1000_0000, 0x00]);
    assert_eq!(reply.header.ancount, 1);
}

#[test]
fn packet_that_does_not_decode_fails() {
    assert_eq!(expect_failure(start(vec![1, 2, 3], false)), DnsError::TruncatedInput);
    assert_eq!(expect_failure(start(vec![], true)), DnsError::TruncatedInput);
    let mut packet = query(1, 0, vec![question(&["a"], RecordType::A)]).to_bytes();
    packet[15] = 9;
    assert_eq!(expect_failure(start(packet, false)), DnsError::UnknownRecordType);
}

#[test]
fn query_without_questions_is_answered_at_once() {
    for has_upstream in [false, true] {
        let reply = expect_reply(start(query(3, 1, vec![]).to_bytes(), has_upstream));
        assert_eq!(reply.header.flags, [0x81, 0]);
        assert_eq!(reply.header.qdcount, 0);
        assert_eq!(reply.header.ancount, 0);
        assert_eq!(reply.answers, vec![]);
    }
}

#[test]
fn questions_are_forwarded_one_by_one() {
    let q = query(
        0x0a0b,
        0x01,
        vec![question(&["abc", "com"], RecordType::A), question(&["x"], RecordType::NS)],
    );
    let (resolver, first) = match start(q.to_bytes(), true) {
        Step::Forward(resolver, bytes) => (resolver, bytes),
        _ => panic!("a forward was expected"),
    };
    assert_eq!(
        first,
        vec![0x0a, 0x0b, 1, 0, 0, 1, 0, 0, 0, 0, 0, 0, 3, 97, 98, 99, 3, 99, 111, 109, 0, 0, 1, 0, 1]
    );
    let one = answer(&["abc", "com"], RecordType::A, 300, &[1, 2, 3, 4]);
    let ignored = answer(&["zzz"], RecordType::MX, 1, &[9]);
    let reply = upstream_reply(0x0a0b, vec![one.clone(), ignored]);
    let (resolver, second) = match resolver.step(Event::UpstreamReply(reply)) {
        Step::Forward(resolver, bytes) => (resolver, bytes),
        _ => panic!("a forward was expected"),
    };
    assert_eq!(second, vec![0x0a, 0x0b, 1, 0, 0, 1, 0, 0, 0, 0, 0, 0, 1, 120, 0, 0, 2, 0, 1]);
    let two = answer(&["other"], RecordType::NS, 7, &[]);
    let mut padded = upstream_reply(1, vec![two.clone()]);
    padded.resize(512, 0);
    let reply = expect_reply(resolver.step(Event::UpstreamReply(padded)));
    assert_eq!(reply.header.id, 0x0a0b);
    assert_eq!(reply.header.flags, [0x81, 0]);
    assert_eq!(reply.header.qdcount, 2);
    assert_eq!(reply.header.ancount, 2);
    assert_eq!(reply.questions, q.questions);
    assert_eq!(reply.answers, vec![one, two]);
}

#[test]
fn failing_upstream_fails_the_request() {
    let q = query(
        1,
        0,
        vec![question(&["a"], RecordType::A), question(&["b"], RecordType::A)],
    );
    let resolver = match start(q.to_bytes(), true) {
        Step::Forward(resolver, _) => resolver,
        _ => panic!("a forward was expected"),
    };
    assert_eq!(expect_failure(resolver.step(Event::UpstreamFailed)), DnsError::UpstreamIoError);

    let resolver = match start(q.to_bytes(), true) {
        Step::Forward(resolver, _) => resolver,
        _ => panic!("a forward was expected"),
    };
    let good = upstream_reply(1, vec![answer(&["a"], RecordType::A, 1, &[1, 1, 1, 1])]);
    let resolver = match resolver.step(Event::UpstreamReply(good)) {
        Step::Forward(resolver, _) => resolver,
        _ => panic!("a forward was expected"),
    };
    assert_eq!(expect_failure(resolver.step(Event::UpstreamFailed)), DnsError::UpstreamIoError);
}

#[test]
fn upstream_reply_without_an_answer_fails_the_request() {
    let q = query(1, 0, vec![question(&["a"], RecordType::A)]);
    let resolver = match start(q.to_bytes(), true) {
        Step::Forward(resolver, _) => resolver,
        _ => panic!("a forward was expected"),
    };
    let empty = upstream_reply(1, vec![]);
    assert_eq!(
        expect_failure(resolver.step(Event::UpstreamReply(empty))),
        DnsError::UpstreamNoAnswer
    );
}

#[test]
fn upstream_reply_that_does_not_decode_fails_the_request() {
    let q = query(1, 0, vec![question(&["a"], RecordType::A)]);
    let resolver = match start(q.to_bytes(), true) {
        Step::Forward(resolver, _) => resolver,
        _ => panic!("a forward was expected"),
    };
    assert_eq!(
        expect_failure(resolver.step(Event::UpstreamReply(vec![0; 5]))),
        DnsError::TruncatedInput
    );
    let resolver = match start(q.to_bytes(), true) {
        Step::Forward(resolver, _) => resolver,
        _ => panic!("a forward was expected"),
    };
    let looping = vec![0, 1, 0x80, 0, 0, 0, 0, 1, 0, 0, 0, 0, 192, 12];
    assert_eq!(
        expect_failure(resolver.step(Event::UpstreamReply(looping))),
        DnsError::CompressionPointerLoop
    );
}

#[test]
fn synthesized_answer_repeats_the_question() {
    let q = question(&["abc", "com"], RecordType::Cname);
    let a = synthesize_answer(&q);
    assert_eq!(a, answer(&["abc", "com"], RecordType::Cname, 60, &[8, 8, 8, 8]));
    assert_eq!(SYNTHESIZED_TTL, 60);
    assert_eq!(synthesize_answers(&vec![]), vec![]);
    let many = vec![question(&["a"], RecordType::A), question(&[], RecordType::NS)];
    assert_eq!(
        synthesize_answers(&many),
        vec![
            answer(&["a"], RecordType::A, 60, &[8, 8, 8, 8]),
            answer(&[], RecordType::NS, 60, &[8, 8, 8, 8])
        ]
    );
}

#[test]
fn response_code_follows_the_opcode() {
    assert_eq!(reply_rcode(OpCode::Query), RCode::NoError);
    assert_eq!(reply_rcode(OpCode::IQuery), RCode::NotImplemented);
    assert_eq!(reply_rcode(OpCode::Status), RCode::NotImplemented);
    assert_eq!(reply_rcode(OpCode::Reserved(7)), RCode::NotImplemented);
}

#[test]
fn first_answer_of_a_reply() {
    let mut m = query(1, 0, vec![]);
    assert_eq!(first_answer(&m), Err(DnsError::UpstreamNoAnswer));
    m.answers.push(answer(&["a"], RecordType::A, 1, &[1]));
    m.answers.push(answer(&["b"], RecordType::A, 2, &[2]));
    assert_eq!(first_answer(&m), Ok(answer(&["a"], RecordType::A, 1, &[1])));
}

#[test]
fn forwarded_query_holds_one_question() {
    let mut q = query(
        0x1111,
        0x01,
        vec![question(&["a"], RecordType::A), question(&["b"], RecordType::MX)],
    );
    q.header.ancount = 4;
    q.header.nscount = 5;
    q.header.arcount = 6;
    q.answers.push(answer(&["a"], RecordType::A, 1, &[1]));
    let f = forward_query(&q, 1);
    assert_eq!(f.header, Header { id: 0x1111, flags: [1, 0], qdcount: 1, ancount: 0, nscount: 0, arcount: 0 });
    assert_eq!(f.questions, vec![question(&["b"], RecordType::MX)]);
    assert_eq!(f.answers, vec![]);
}

#[test]
fn reply_is_built_from_query_and_answers() {
    let q = query(9, 0b0001_0001, vec![question(&["a"], RecordType::A)]);
    let answers = vec![answer(&["a"], RecordType::A, 1, &[1]), answer(&["a"], RecordType::A, 2, &[2])];
    let reply = reply_to(&q, answers.clone(), RCode::Refused);
    assert_eq!(reply.header, Header { id: 9, flags: [0b1001_0001, 5], qdcount: 1, ancount: 2, nscount: 0, arcount: 0 });
    assert_eq!(reply.questions, q.questions);
    assert_eq!(reply.answers, answers);
}
