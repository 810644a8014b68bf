use dns_core::error::DnsError;
use dns_core::parser::DnsParser;
use dns_core::types::{
    Additional, Answer, Authority, Header, Label, Message, Question, RecordClass, RecordType,
};

fn name(parts: &[&str]) -> Vec<Label> {
    parts.iter().map(|p| Label(p.to_string())).collect()
}

fn question(parts: &[&str], record_type: RecordType) -> Question {
    Question { name: name(parts), record_type, record_class: RecordClass::IN }
}

fn answer(parts: &[&str], record_type: RecordType, ttl: u32, rdata: &[u8]) -> Answer {
    Answer {
        name: name(parts),
        record_type,
        record_class: RecordClass::IN,
        ttl,
        rdata: rdata.to_vec(),
    }
}

fn message(header: Header, questions: Vec<Question>, answers: Vec<Answer>) -> Message {
    Message { header, questions, answers, authority: Authority {}, additional: Additional {} }
}

fn decode(bytes: &[u8]) -> Result<Message, DnsError> {
    DnsParser { packet: bytes.to_vec(), pos: 0 }.parse()
}

#[test]
fn label_is_length_then_text() {
    assert_eq!(Label("abc".to_string()).to_bytes(), vec![3, 97, 98, 99]);
    assert_eq!(Label(String::new()).to_bytes(), vec![0]);
    let through_trait: Vec<u8> = Label("com".to_string()).into();
    assert_eq!(through_trait, vec![3, 99, 111, 109]);
}

#[test]
fn label_length_counts_bytes_not_characters() {
    assert_eq!(Label("é".to_string()).to_bytes(), vec![2, 0xc3, 0xa9]);
}

#[test]
fn label_length_is_cut_to_one_byte() {
    let long = "a".repeat(300);
    let bytes = Label(long).to_bytes();
    assert_eq!(bytes.len(), 301);
    assert_eq!(bytes[0], 44);
}

#[test]
fn default_label_is_empty() {
    assert_eq!(Label::default(), Label(String::new()));
}

#[test]
fn question_is_name_type_class() {
    let q = question(&["abc", "com"], RecordType::Cname);
    let expected = vec![3, 97, 98, 99, 3, 99, 111, 109, 0, 0, 5, 0, 1];
    assert_eq!(q.to_bytes(), expected);
    let through_trait: Vec<u8> = q.into();
    assert_eq!(through_trait, expected);
}

#[test]
fn question_with_the_root_name() {
    let q = question(&[], RecordType::MX);
    assert_eq!(q.to_bytes(), vec![0, 0, 15, 0, 1]);
}

#[test]
fn answer_is_name_type_class_ttl_length_data() {
    let a = answer(&["a", "bc"], RecordType::A, 0x0102_0304, &[8, 8, 4, 4]);
    let expected = vec![1, 97, 2, 98, 99, 0, 0, 1, 0, 1, 1, 2, 3, 4, 0, 4, 8, 8, 4, 4];
    assert_eq!(a.to_bytes(), expected);
    let through_trait: Vec<u8> = a.into();
    assert_eq!(through_trait, expected);
}

#[test]
fn answer_length_follows_the_data() {
    let mut a = answer(&["x"], RecordType::NS, 60, &[1, 2, 3, 4]);
    a.rdata.push(5);
    a.rdata.push(6);
    let bytes = a.to_bytes();
    assert_eq!(bytes, vec![1, 120, 0, 0, 2, 0, 1, 0, 0, 0, 60, 0, 6, 1, 2, 3, 4, 5, 6]);
    a.rdata.clear();
    assert_eq!(a.to_bytes(), vec![1, 120, 0, 0, 2, 0, 1, 0, 0, 0, 60, 0, 0]);
}

#[test]
fn answer_with_the_longest_data() {
    let data = vec![7u8; 65535];
    let a = answer(&["x"], RecordType::A, 1, &data);
    let bytes = a.to_bytes();
    assert_eq!(&bytes[..13], &[1, 120, 0, 0, 1, 0, 1, 0, 0, 0, 1, 0xff, 0xff]);
    assert_eq!(bytes.len(), 13 + 65535);
    let mut header = Header::default();
    header.ancount = 1;
    let m = message(header, vec![], vec![a]);
    assert_eq!(decode(&m.to_bytes()), Ok(m));
}

#[test]
fn message_is_header_questions_answers() {
    let mut header = Header::new_reply(0x0a0b);
    header.qdcount = 2;
    header.ancount = 1;
    let m = message(
        header,
        vec![question(&["a"], RecordType::A), question(&["b"], RecordType::NS)],
        vec![answer(&["a"], RecordType::A, 60, &[8, 8, 8, 8])],
    );
    let expected = vec![
        0x0a, 0x0b, 0x80, 0, 0, 2, 0, 1, 0, 0, 0, 0, // header
        1, 97, 0, 0, 1, 0, 1, // a A IN
        1, 98, 0, 0, 2, 0, 1, // b NS IN
        1, 97, 0, 0, 1, 0, 1, 0, 0, 0, 60, 0, 4, 8, 8, 8, 8, // a A IN 60 8.8.8.8
    ];
    assert_eq!(m.to_bytes(), expected);
    let through_trait: Result<Vec<u8>, DnsError> = m.try_into();
    assert_eq!(through_trait, Ok(expected));
}

#[test]
fn message_counts_are_not_corrected() {
    let mut header = Header::default();
    header.qdcount = 9;
    let m = message(header, vec![question(&["a"], RecordType::A)], vec![]);
    let bytes = m.to_bytes();
    assert_eq!(&bytes[4..6], &[0, 9]);
    assert_eq!(bytes.len(), 12 + 7);
    assert_eq!(decode(&bytes), Err(DnsError::TruncatedInput));
}

#[test]
fn empty_message_is_its_header() {
    let m = Message::default();
    assert_eq!(m.to_bytes(), vec![0; 12]);
    assert_eq!(m.questions.len(), 0);
    assert_eq!(m.answers.len(), 0);
}

#[test]
fn round_trip_of_a_message() {
    let mut header = Header::new_reply(0xbeef);
    header.flags = [0b1010_1001, 0b0000_0100];
    header.qdcount = 3;
    header.ancount = 2;
    header.nscount = 7;
    header.arcount = 9;
    let long = "x".repeat(63);
    let m = message(
        header,
        vec![
            question(&["abc", "longassdomainname", "com"], RecordType::A),
            question(&[], RecordType::MX),
            question(&[long.as_str(), "é", "org"], RecordType::Cname),
        ],
        vec![
            answer(&["abc", "com"], RecordType::A, 60, &[8, 8, 8, 8]),
            answer(&["ns"], RecordType::NS, 0xffff_ffff, &[]),
        ],
    );
    let bytes = m.to_bytes();
    let mut parser = DnsParser { packet: bytes.clone(), pos: 0 };
    assert_eq!(parser.parse(), Ok(m.clone()));
    assert_eq!(parser.pos, bytes.len());
    let mut padded = bytes.clone();
    padded.resize(512, 0);
    assert_eq!(decode(&padded), Ok(m));
}

#[test]
fn round_trip_of_written_bytes() {
    let bytes = vec![
        0, 1, 1, 0, 0, 1, 0, 1, 0, 0, 0, 0, // header
        3, 102, 111, 111, 0, 0, 15, 0, 1, // foo MX IN
        3, 102, 111, 111, 0, 0, 15, 0, 1, 0, 0, 1, 0, 0, 2, 0, 10, // foo MX IN 256 [0, 10]
    ];
    let m = decode(&bytes).unwrap();
    assert_eq!(m.to_bytes(), bytes);
}

#[test]
fn clones_are_equal() {
    let q = question(&["a", "b"], RecordType::NS);
    assert_eq!(q.clone(), q);
    let a = answer(&["a"], RecordType::A, 5, &[1]);
    assert_eq!(a.clone(), a);
    let m = message(Header::new_reply(3), vec![q], vec![a]);
    assert_eq!(m.clone(), m);
    assert_eq!(Question::default(), question(&[], RecordType::A));
    assert_eq!(Answer::default(), answer(&[], RecordType::A, 0, &[]));
}
