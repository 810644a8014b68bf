//! Decoding a packet into a message.
//!
//! What a packet decodes to is defined by the spec functions of this file,
//! over the bytes alone. `DnsParser` computes exactly that.

use crate::error::DnsError;
use crate::trusted::string_from_utf8;
use crate::types::{
    spec_answers, spec_name, spec_questions, Additional, Answer, AnswerView, Authority, Header,
    Label, Message, MessageView, Question, QuestionView, RecordClass, RecordType,
};
use crate::wire::{read_u16, read_u32, spec_read_u16, spec_read_u32};
use vstd::prelude::*;
use vstd::slice::{slice_subrange, slice_to_vec};
use vstd::utf8::{decode_utf8, valid_utf8};

verus! {

/// A name read from a packet: the texts of its labels, and the position just
/// behind the name where reading goes on.
pub type NameResult = Result<(Seq<Seq<char>>, int), DnsError>;

/// Whether a length byte starts a compression pointer: its two high bits are
/// set.
pub open spec fn spec_is_pointer(first: u8) -> bool {
    first & 0xc0 == 0xc0
}

/// Where a compression pointer points: the low six bits of its first byte and
/// its second byte, as an offset from the start of the packet.
pub open spec fn spec_pointer_target(first: u8, second: u8) -> int {
    ((first & 0x3f) as int) * 256 + second as int
}

/// The labels that stand at `pos`, read until the zero byte or a compression
/// pointer ends them.
///
/// A pointer ends the name: the labels found at its target follow, and
/// reading goes on just behind the two bytes of the pointer. A pointer must
/// point strictly before its own position, and strictly before `limit`, the
/// position that the last pointer followed led to. So the targets of a chain of
/// pointers fall strictly, and every name is read in finitely many steps.
pub open spec fn spec_parse_labels(bytes: Seq<u8>, pos: int, limit: int) -> NameResult
    decreases limit, bytes.len() - pos,
{
    if pos < 0 || pos >= bytes.len() {
        Err(DnsError::TruncatedInput)
    } else if bytes[pos] == 0 {
        Ok((Seq::empty(), pos + 1))
    } else if spec_is_pointer(bytes[pos]) {
        if pos + 1 >= bytes.len() {
            Err(DnsError::TruncatedInput)
        } else {
            let target = spec_pointer_target(bytes[pos], bytes[pos + 1]);
            if target >= pos || target >= limit {
                Err(DnsError::CompressionPointerLoop)
            } else {
                match spec_parse_labels(bytes, target, target) {
                    Ok((labels, _)) => Ok((labels, pos + 2)),
                    Err(e) => Err(e),
                }
            }
        }
    } else {
        let length = bytes[pos] as int;
        if pos + 1 + length > bytes.len() {
            Err(DnsError::TruncatedInput)
        } else {
            let text = bytes.subrange(pos + 1, pos + 1 + length);
            if !valid_utf8(text) {
                Err(DnsError::InvalidLabelText)
            } else {
                match spec_parse_labels(bytes, pos + 1 + length, limit) {
                    Ok((labels, end)) => Ok((seq![decode_utf8(text)] + labels, end)),
                    Err(e) => Err(e),
                }
            }
        }
    }
}

/// The name that stands at `pos`.
pub open spec fn spec_parse_name(bytes: Seq<u8>, pos: int) -> NameResult {
    spec_parse_labels(bytes, pos, bytes.len() as int)
}

/// The name that is `prefix` followed by what `rest` read. Reading goes on at
/// `resume` where a pointer has been followed, behind `rest` where none has.
pub open spec fn spec_name_after(prefix: Seq<Seq<char>>, resume: Option<int>, rest: NameResult)
    -> NameResult {
    match rest {
        Ok((labels, end)) => Ok(
            (
                prefix + labels,
                match resume {
                    Some(p) => p,
                    None => end,
                },
            ),
        ),
        Err(e) => Err(e),
    }
}

/// The header of a packet: its first twelve bytes.
pub open spec fn spec_parse_header(bytes: Seq<u8>) -> Result<Header, DnsError> {
    if bytes.len() < 12 {
        Err(DnsError::TruncatedInput)
    } else {
        Ok(Header::spec_from_bytes(bytes))
    }
}

/// The question that stands at `pos`, and the position behind it.
pub open spec fn spec_parse_question(bytes: Seq<u8>, pos: int) -> Result<
    (QuestionView, int),
    DnsError,
> {
    match spec_parse_name(bytes, pos) {
        Err(e) => Err(e),
        Ok((name, p)) => {
            if p + 2 > bytes.len() {
                Err(DnsError::TruncatedInput)
            } else {
                match RecordType::spec_try_from_code(spec_read_u16(bytes, p)) {
                    Err(e) => Err(e),
                    Ok(record_type) => {
                        if p + 4 > bytes.len() {
                            Err(DnsError::TruncatedInput)
                        } else {
                            match RecordClass::spec_try_from_code(spec_read_u16(bytes, p + 2)) {
                                Err(e) => Err(e),
                                Ok(record_class) => Ok(
                                    (QuestionView { name, record_type, record_class }, p + 4),
                                ),
                            }
                        }
                    },
                }
            }
        },
    }
}

/// The answer that stands at `pos`, and the position behind it.
pub open spec fn spec_parse_answer(bytes: Seq<u8>, pos: int) -> Result<
    (AnswerView, int),
    DnsError,
> {
    match spec_parse_question(bytes, pos) {
        Err(e) => Err(e),
        Ok((q, p)) => {
            if p + 6 > bytes.len() {
                Err(DnsError::TruncatedInput)
            } else {
                let ttl = spec_read_u32(bytes, p);
                let rdlength = spec_read_u16(bytes, p + 4) as int;
                if p + 6 + rdlength > bytes.len() {
                    Err(DnsError::TruncatedInput)
                } else {
                    Ok(
                        (
                            AnswerView {
                                name: q.name,
                                record_type: q.record_type,
                                record_class: q.record_class,
                                ttl,
                                rdata: bytes.subrange(p + 6, p + 6 + rdlength),
                            },
                            p + 6 + rdlength,
                        ),
                    )
                }
            }
        },
    }
}

/// The `count` questions that stand one after the other from `pos` on.
pub open spec fn spec_parse_questions(bytes: Seq<u8>, pos: int, count: nat) -> Result<
    (Seq<QuestionView>, int),
    DnsError,
>
    decreases count,
{
    if count == 0 {
        Ok((Seq::empty(), pos))
    } else {
        match spec_parse_question(bytes, pos) {
            Err(e) => Err(e),
            Ok((q, p)) => match spec_parse_questions(bytes, p, (count - 1) as nat) {
                Err(e) => Err(e),
                Ok((rest, end)) => Ok((seq![q] + rest, end)),
            },
        }
    }
}

/// The `count` answers that stand one after the other from `pos` on.
pub open spec fn spec_parse_answers(bytes: Seq<u8>, pos: int, count: nat) -> Result<
    (Seq<AnswerView>, int),
    DnsError,
>
    decreases count,
{
    if count == 0 {
        Ok((Seq::empty(), pos))
    } else {
        match spec_parse_answer(bytes, pos) {
            Err(e) => Err(e),
            Ok((a, p)) => match spec_parse_answers(bytes, p, (count - 1) as nat) {
                Err(e) => Err(e),
                Ok((rest, end)) => Ok((seq![a] + rest, end)),
            },
        }
    }
}

/// The questions that are `prefix` followed by what `rest` read.
pub open spec fn spec_questions_after(
    prefix: Seq<QuestionView>,
    rest: Result<(Seq<QuestionView>, int), DnsError>,
) -> Result<(Seq<QuestionView>, int), DnsError> {
    match rest {
        Ok((more, end)) => Ok((prefix + more, end)),
        Err(e) => Err(e),
    }
}

/// The answers that are `prefix` followed by what `rest` read.
pub open spec fn spec_answers_after(
    prefix: Seq<AnswerView>,
    rest: Result<(Seq<AnswerView>, int), DnsError>,
) -> Result<(Seq<AnswerView>, int), DnsError> {
    match rest {
        Ok((more, end)) => Ok((prefix + more, end)),
        Err(e) => Err(e),
    }
}

/// The message that a packet holds, and the position behind its last record:
/// the header, then as many questions and as many answers as the header
/// counts. The first failure is the result; bytes behind the last record are
/// not looked at.
pub open spec fn spec_parse_message(bytes: Seq<u8>) -> Result<(MessageView, int), DnsError> {
    match spec_parse_header(bytes) {
        Err(e) => Err(e),
        Ok(header) => match spec_parse_questions(bytes, 12, header.qdcount as nat) {
            Err(e) => Err(e),
            Ok((questions, p)) => match spec_parse_answers(bytes, p, header.ancount as nat) {
                Err(e) => Err(e),
                Ok((answers, end)) => Ok((MessageView { header, questions, answers }, end)),
            },
        },
    }
}

/// Whether reading the name at `pos` comes to read a length byte at `at`:
/// over labels whose text is valid, and over pointers that are followed.
pub open spec fn spec_reading_meets(bytes: Seq<u8>, pos: int, limit: int, at: int) -> bool
    decreases limit, bytes.len() - pos,
{
    if pos < 0 || pos >= bytes.len() {
        false
    } else if pos == at {
        true
    } else if bytes[pos] == 0 {
        false
    } else if spec_is_pointer(bytes[pos]) {
        let target = spec_pointer_target(bytes[pos], bytes[pos + 1]);
        &&& pos + 1 < bytes.len()
        &&& target < pos
        &&& target < limit
        &&& spec_reading_meets(bytes, target, target, at)
    } else {
        let length = bytes[pos] as int;
        &&& pos + 1 + length <= bytes.len()
        &&& valid_utf8(bytes.subrange(pos + 1, pos + 1 + length))
        &&& spec_reading_meets(bytes, pos + 1 + length, limit, at)
    }
}

/// A compression pointer is never the zero byte that ends a name.
pub proof fn lemma_pointer_is_not_zero(first: u8)
    requires
        spec_is_pointer(first),
    ensures
        first != 0,
        first >= 192,
{
    assert(first & 0xc0 == 0xc0 ==> first >= 192) by (bit_vector);
}

/// A pointer points at most 16383 bytes into the packet.
pub proof fn lemma_pointer_target_range(first: u8, second: u8)
    ensures
        0 <= spec_pointer_target(first, second) <= 0x3fff,
{
    assert(first & 0x3f <= 63) by (bit_vector);
}

/// Pointer safety: a name is refused with `CompressionPointerLoop` whenever
/// reading it meets a compression pointer that points at itself or forward.
/// However many labels and pointers lead there, none of what lies behind that
/// pointer is read.
pub proof fn lemma_forward_pointer_is_refused(bytes: Seq<u8>, pos: int, limit: int, at: int)
    requires
        spec_reading_meets(bytes, pos, limit, at),
        at + 1 < bytes.len(),
        spec_is_pointer(bytes[at]),
        spec_pointer_target(bytes[at], bytes[at + 1]) >= at,
    ensures
        spec_parse_labels(bytes, pos, limit) == Err::<(Seq<Seq<char>>, int), DnsError>(
            DnsError::CompressionPointerLoop,
        ),
    decreases limit, bytes.len() - pos,
{
    lemma_pointer_is_not_zero(bytes[at]);
    if pos == at {
    } else if spec_is_pointer(bytes[pos]) {
        let target = spec_pointer_target(bytes[pos], bytes[pos + 1]);
        lemma_pointer_target_range(bytes[pos], bytes[pos + 1]);
        lemma_forward_pointer_is_refused(bytes, target, target, at);
    } else {
        let length = bytes[pos] as int;
        lemma_forward_pointer_is_refused(bytes, pos + 1 + length, limit, at);
    }
}

/// Reading a name never leaves the packet: where a name is read, reading
/// goes on behind at least one of its bytes and at most at the packet's end.
pub proof fn lemma_name_end_in_bounds(bytes: Seq<u8>, pos: int, limit: int)
    ensures
        spec_parse_labels(bytes, pos, limit) matches Ok((_, end)) ==> 0 <= pos < end
            <= bytes.len(),
    decreases limit, bytes.len() - pos,
{
    if pos < 0 || pos >= bytes.len() {
    } else if bytes[pos] == 0 {
    } else if spec_is_pointer(bytes[pos]) {
    } else {
        let length = bytes[pos] as int;
        if pos + 1 + length <= bytes.len() {
            lemma_name_end_in_bounds(bytes, pos + 1 + length, limit);
        }
    }
}

/// As many questions are read as were asked for.
pub proof fn lemma_questions_count(bytes: Seq<u8>, pos: int, count: nat)
    ensures
        spec_parse_questions(bytes, pos, count) matches Ok((questions, _)) ==> questions.len()
            == count,
    decreases count,
{
    if count > 0 {
        if let Ok((_, p)) = spec_parse_question(bytes, pos) {
            lemma_questions_count(bytes, p, (count - 1) as nat);
        }
    }
}

/// As many answers are read as were asked for.
pub proof fn lemma_answers_count(bytes: Seq<u8>, pos: int, count: nat)
    ensures
        spec_parse_answers(bytes, pos, count) matches Ok((answers, _)) ==> answers.len() == count,
    decreases count,
{
    if count > 0 {
        if let Ok((_, p)) = spec_parse_answer(bytes, pos) {
            lemma_answers_count(bytes, p, (count - 1) as nat);
        }
    }
}

/// A message that was read holds as many questions and answers as its
/// header counts.
pub proof fn lemma_message_counts(bytes: Seq<u8>)
    ensures
        spec_parse_message(bytes) matches Ok((m, _)) ==> m.questions.len() == m.header.qdcount
            && m.answers.len() == m.header.ancount && spec_parse_header(bytes) == Ok::<
            Header,
            DnsError,
        >(m.header),
{
    if let Ok(header) = spec_parse_header(bytes) {
        lemma_questions_count(bytes, 12, header.qdcount as nat);
        if let Ok((_, p)) = spec_parse_questions(bytes, 12, header.qdcount as nat) {
            lemma_answers_count(bytes, p, header.ancount as nat);
        }
    }
}

/// A packet and the position in it where reading goes on.
pub struct DnsParser {
    pub packet: Vec<u8>,
    pub pos: usize,
}

impl DnsParser {
    /// Reads the header and moves to the byte behind it.
    pub fn parse_header(&mut self) -> (r: Result<Header, DnsError>)
        ensures
            final(self).packet == old(self).packet,
            r == spec_parse_header(old(self).packet@),
            r is Ok ==> final(self).pos == 12,
            r is Err ==> final(self).pos == old(self).pos,
    {
        if self.packet.len() < 12 {
            return Err(DnsError::TruncatedInput);
        }
        let header_bytes: [u8; 12] = [
            self.packet[0],
            self.packet[1],
            self.packet[2],
            self.packet[3],
            self.packet[4],
            self.packet[5],
            self.packet[6],
            self.packet[7],
            self.packet[8],
            self.packet[9],
            self.packet[10],
            self.packet[11],
        ];
        self.pos = 12;
        let r = Header::try_from(header_bytes);
        proof {
            let read = Header::spec_from_bytes(header_bytes@);
            let whole = Header::spec_from_bytes(self.packet@);
            assert(read.flags =~= whole.flags);
        }
        r
    }

    /// Reads the name at the current position and moves behind it.
    pub fn parse_labels(&mut self) -> (r: Result<Vec<Label>, DnsError>)
        ensures
            final(self).packet == old(self).packet,
            match spec_parse_name(old(self).packet@, old(self).pos as int) {
                Ok((name, end)) => r is Ok && spec_name(r->Ok_0@) == name && final(self).pos
                    == end,
                Err(e) => r == Err::<Vec<Label>, DnsError>(e) && final(self).pos == old(
                    self,
                ).pos,
            },
            r is Ok ==> old(self).pos < final(self).pos <= old(self).packet.len(),
    {
        let len = self.packet.len();
        let ghost bytes = self.packet@;
        let ghost start = self.pos as int;
        let mut labels: Vec<Label> = Vec::new();
        let mut pos: usize = self.pos;
        let mut limit: usize = len;
        let mut resume: Option<usize> = None;
        assert(spec_name(labels@) =~= Seq::<Seq<char>>::empty());
        assert(Seq::<Seq<char>>::empty() + Seq::<Seq<char>>::empty() =~= Seq::<
            Seq<char>,
        >::empty());
        loop
            invariant
                *self == *old(self),
                bytes == self.packet@,
                len == bytes.len(),
                start == self.pos,
                limit <= len,
                start <= pos || resume is Some,
                resume matches Some(p) ==> start < p <= len,
                spec_parse_name(bytes, start) == spec_name_after(
                    spec_name(labels@),
                    match resume {
                        Some(p) => Some(p as int),
                        None => None,
                    },
                    spec_parse_labels(bytes, pos as int, limit as int),
                ),
            decreases limit, len - pos,
        {
            if pos >= len {
                return Err(DnsError::TruncatedInput);
            }
            let first: u8 = self.packet[pos];
            if first == 0 {
                assert(spec_name(labels@) + Seq::<Seq<char>>::empty() =~= spec_name(labels@));
                self.pos = match resume {
                    Some(p) => p,
                    None => pos + 1,
                };
                return Ok(labels);
            }
            if first & 0xc0 == 0xc0 {
                if pos + 1 >= len {
                    return Err(DnsError::TruncatedInput);
                }
                let second: u8 = self.packet[pos + 1];
                assert(first & 0x3f <= 63) by (bit_vector);
                let target: usize = ((first & 0x3f) as usize) * 256 + second as usize;
                if target >= pos || target >= limit {
                    return Err(DnsError::CompressionPointerLoop);
                }
                if resume.is_none() {
                    resume = Some(pos + 2);
                }
                pos = target;
                limit = target;
            } else {
                let length: usize = first as usize;
                if length > len - pos - 1 {
                    return Err(DnsError::TruncatedInput);
                }
                let raw = slice_to_vec(
                    slice_subrange(self.packet.as_slice(), pos + 1, pos + 1 + length),
                );
                match string_from_utf8(raw) {
                    Err(_) => {
                        return Err(DnsError::InvalidLabelText);
                    },
                    Ok(text) => {
                        proof {
                            let rest = spec_parse_labels(
                                bytes,
                                pos + 1 + length,
                                limit as int,
                            );
                            let before = spec_name(labels@);
                            assert(spec_name(labels@.push(Label(text))) =~= before.push(text@));
                            if let Ok((more, end)) = rest {
                                assert(before + (seq![text@] + more) =~= before.push(text@)
                                    + more);
                            }
                        }
                        labels.push(Label(text));
                    },
                }
                pos = pos + 1 + length;
            }
        }
    }

    /// Reads the question at the current position and moves behind it.
    pub fn parse_question(&mut self) -> (r: Result<Question, DnsError>)
        ensures
            final(self).packet == old(self).packet,
            match spec_parse_question(old(self).packet@, old(self).pos as int) {
                Ok((q, end)) => r is Ok && r->Ok_0@ == q && final(self).pos == end,
                Err(e) => r == Err::<Question, DnsError>(e) && final(self).pos == old(self).pos,
            },
            r is Ok ==> old(self).pos < final(self).pos <= old(self).packet.len(),
    {
        let start = self.pos;
        let len = self.packet.len();
        let name = match self.parse_labels() {
            Ok(name) => name,
            Err(e) => {
                return Err(e);
            },
        };
        let p = self.pos;
        if len - p < 2 {
            self.pos = start;
            return Err(DnsError::TruncatedInput);
        }
        let record_type = match RecordType::try_from(read_u16(self.packet.as_slice(), p)) {
            Ok(record_type) => record_type,
            Err(e) => {
                self.pos = start;
                return Err(e);
            },
        };
        if len - p < 4 {
            self.pos = start;
            return Err(DnsError::TruncatedInput);
        }
        let record_class = match RecordClass::try_from(read_u16(self.packet.as_slice(), p + 2)) {
            Ok(record_class) => record_class,
            Err(e) => {
                self.pos = start;
                return Err(e);
            },
        };
        self.pos = p + 4;
        Ok(Question { name, record_type, record_class })
    }

    /// Reads the answer at the current position and moves behind it.
    pub fn parse_answer(&mut self) -> (r: Result<Answer, DnsError>)
        ensures
            final(self).packet == old(self).packet,
            match spec_parse_answer(old(self).packet@, old(self).pos as int) {
                Ok((a, end)) => r is Ok && r->Ok_0@ == a && final(self).pos == end,
                Err(e) => r == Err::<Answer, DnsError>(e) && final(self).pos == old(self).pos,
            },
            r is Ok ==> old(self).pos < final(self).pos <= old(self).packet.len(),
    {
        let start = self.pos;
        let len = self.packet.len();
        let q = match self.parse_question() {
            Ok(q) => q,
            Err(e) => {
                return Err(e);
            },
        };
        let p = self.pos;
        if len - p < 6 {
            self.pos = start;
            return Err(DnsError::TruncatedInput);
        }
        let ttl = read_u32(self.packet.as_slice(), p);
        let rdlength = read_u16(self.packet.as_slice(), p + 4) as usize;
        if len - p - 6 < rdlength {
            self.pos = start;
            return Err(DnsError::TruncatedInput);
        }
        let rdata = slice_to_vec(slice_subrange(self.packet.as_slice(), p + 6, p + 6 + rdlength));
        self.pos = p + 6 + rdlength;
        Ok(Answer { name: q.name, record_type: q.record_type, record_class: q.record_class, ttl, rdata })
    }

    /// Reads the whole message: the header, then the questions and the
    /// answers that it counts. On a failure the position stays where it was.
    pub fn parse(&mut self) -> (r: Result<Message, DnsError>)
        ensures
            final(self).packet == old(self).packet,
            match spec_parse_message(old(self).packet@) {
                Ok((m, end)) => r is Ok && r->Ok_0@ == m && final(self).pos == end,
                Err(e) => r == Err::<Message, DnsError>(e) && final(self).pos == old(self).pos,
            },
            r matches Ok(m) ==> m.questions.len() == m.header.qdcount && m.answers.len()
                == m.header.ancount,
    {
        proof {
            lemma_message_counts(self.packet@);
        }
        let start = self.pos;
        let ghost bytes = self.packet@;
        let header = match self.parse_header() {
            Ok(header) => header,
            Err(e) => {
                return Err(e);
            },
        };
        let mut questions: Vec<Question> = Vec::new();
        let mut i: u16 = 0;
        assert(spec_questions(questions@) =~= Seq::<QuestionView>::empty());
        while i < header.qdcount
            invariant
                i <= header.qdcount,
                bytes == self.packet@,
                self.packet == old(self).packet,
                start == old(self).pos,
                bytes == old(self).packet@,
                spec_parse_header(bytes) == Ok::<Header, DnsError>(header),
                spec_parse_questions(bytes, 12, header.qdcount as nat) == spec_questions_after(
                    spec_questions(questions@),
                    spec_parse_questions(bytes, self.pos as int, (header.qdcount - i) as nat),
                ),
            decreases header.qdcount - i,
        {
            match self.parse_question() {
                Ok(q) => {
                    proof {
                        let before = spec_questions(questions@);
                        assert(spec_questions(questions@.push(q)) =~= before.push(q@));
                        let rest = spec_parse_questions(
                            bytes,
                            self.pos as int,
                            (header.qdcount - i - 1) as nat,
                        );
                        if let Ok((more, end)) = rest {
                            assert(before + (seq![q@] + more) =~= before.push(q@) + more);
                        }
                    }
                    questions.push(q);
                },
                Err(e) => {
                    self.pos = start;
                    return Err(e);
                },
            }
            i += 1;
        }
        assert(spec_questions(questions@) + Seq::<QuestionView>::empty() =~= spec_questions(
            questions@,
        ));
        let ghost answers_at = self.pos as int;
        let ghost asked = spec_questions(questions@);
        let mut answers: Vec<Answer> = Vec::new();
        let mut j: u16 = 0;
        assert(spec_answers(answers@) =~= Seq::<AnswerView>::empty());
        while j < header.ancount
            invariant
                j <= header.ancount,
                bytes == self.packet@,
                self.packet == old(self).packet,
                start == old(self).pos,
                bytes == old(self).packet@,
                asked == spec_questions(questions@),
                spec_parse_header(bytes) == Ok::<Header, DnsError>(header),
                spec_parse_questions(bytes, 12, header.qdcount as nat) == Ok::<
                    (Seq<QuestionView>, int),
                    DnsError,
                >((asked, answers_at)),
                spec_parse_answers(bytes, answers_at, header.ancount as nat) == spec_answers_after(
                    spec_answers(answers@),
                    spec_parse_answers(bytes, self.pos as int, (header.ancount - j) as nat),
                ),
            decreases header.ancount - j,
        {
            match self.parse_answer() {
                Ok(a) => {
                    proof {
                        let before = spec_answers(answers@);
                        assert(spec_answers(answers@.push(a)) =~= before.push(a@));
                        let rest = spec_parse_answers(
                            bytes,
                            self.pos as int,
                            (header.ancount - j - 1) as nat,
                        );
                        if let Ok((more, end)) = rest {
                            assert(before + (seq![a@] + more) =~= before.push(a@) + more);
                        }
                    }
                    answers.push(a);
                },
                Err(e) => {
                    self.pos = start;
                    return Err(e);
                },
            }
            j += 1;
        }
        assert(spec_answers(answers@) + Seq::<AnswerView>::empty() =~= spec_answers(answers@));
        Ok(Message { header, questions, answers, authority: Authority {  }, additional: Additional {  } })
    }
}

} // verus!
