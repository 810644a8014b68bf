//! Decoding undoes encoding: a message that is written and then read is the
//! message that was written.

use crate::error::DnsError;
use crate::parser::{
    lemma_pointer_is_not_zero, spec_is_pointer, spec_pointer_target, spec_parse_answer,
    spec_parse_answers, spec_parse_labels, spec_parse_message, spec_parse_question,
    spec_parse_questions,
};
use crate::types::{
    lemma_header_roundtrip, spec_answers_bytes, spec_label_bytes, spec_label_wf, spec_labels_bytes,
    spec_name_bytes, spec_name_wf, spec_questions_bytes, AnswerView, MessageView, QuestionView,
};
use crate::wire::{lemma_read_u16_of_be, lemma_read_u32_of_be, spec_u16_be, spec_u32_be};
use vstd::prelude::*;
use vstd::utf8::{encode_utf8, encode_utf8_decode_utf8, encode_utf8_valid_utf8};

verus! {

/// `part` stands in `bytes` at `pos`.
pub open spec fn spec_stands_at(bytes: Seq<u8>, pos: int, part: Seq<u8>) -> bool {
    &&& 0 <= pos
    &&& pos + part.len() <= bytes.len()
    &&& bytes.subrange(pos, pos + part.len()) == part
}

/// Where a sequence stands at a position, its beginning stands there too and
/// its remainder stands behind that.
pub proof fn lemma_stands_at_split(bytes: Seq<u8>, pos: int, first: Seq<u8>, second: Seq<u8>)
    requires
        spec_stands_at(bytes, pos, first + second),
    ensures
        spec_stands_at(bytes, pos, first),
        spec_stands_at(bytes, pos + first.len(), second),
{
    let whole = bytes.subrange(pos, pos + (first + second).len());
    assert(bytes.subrange(pos, pos + first.len()) =~= whole.subrange(0, first.len() as int));
    assert(whole.subrange(0, first.len() as int) =~= first);
    assert(bytes.subrange(pos + first.len(), pos + first.len() + second.len())
        =~= whole.subrange(first.len() as int, whole.len() as int));
    assert(whole.subrange(first.len() as int, whole.len() as int) =~= second);
}

/// The length byte of a label of at most 63 bytes is no compression pointer.
pub proof fn lemma_short_length_is_no_pointer(length: u8)
    requires
        length <= 63,
    ensures
        !spec_is_pointer(length),
{
    assert(length <= 63 ==> length & 0xc0 != 0xc0) by (bit_vector);
}

/// A written name with labels of 1 to 63 bytes is read back as it was,
/// wherever it stands and whatever the limit for pointers is: it holds none.
pub proof fn lemma_name_roundtrip(bytes: Seq<u8>, pos: int, limit: int, name: Seq<Seq<char>>)
    requires
        spec_name_wf(name),
        spec_stands_at(bytes, pos, spec_name_bytes(name)),
    ensures
        spec_parse_labels(bytes, pos, limit) == Ok::<(Seq<Seq<char>>, int), DnsError>(
            (name, pos + spec_name_bytes(name).len()),
        ),
    decreases name.len(),
{
    let written = spec_name_bytes(name);
    let here = bytes.subrange(pos, pos + written.len());
    if name.len() == 0 {
        assert(written =~= seq![0u8]);
        assert(here[0] == bytes[pos]);
        assert(name =~= Seq::<Seq<char>>::empty());
    } else {
        let text = name[0];
        let rest = name.drop_first();
        let encoded = encode_utf8(text);
        let length = encoded.len() as int;
        assert(spec_label_wf(text));
        assert(written =~= seq![length as u8] + (encoded + spec_name_bytes(rest)));
        lemma_stands_at_split(bytes, pos, seq![length as u8], encoded + spec_name_bytes(rest));
        lemma_stands_at_split(bytes, pos + 1, encoded, spec_name_bytes(rest));
        assert(bytes.subrange(pos, pos + 1)[0] == bytes[pos]);
        assert(bytes[pos] == length);
        lemma_short_length_is_no_pointer(bytes[pos]);
        encode_utf8_valid_utf8(text);
        encode_utf8_decode_utf8(text);
        assert(bytes.subrange(pos + 1, pos + 1 + length) == encoded);
        assert forall|i: int| 0 <= i < rest.len() implies spec_label_wf(#[trigger] rest[i]) by {
            assert(rest[i] == name[i + 1]);
        }
        lemma_name_roundtrip(bytes, pos + 1 + length, limit, rest);
        assert(seq![text] + rest =~= name);
    }
}

/// A compressed name is read as if it had been written out in full.
///
/// Where labels of 1 to 63 bytes are followed by a compression pointer that
/// points strictly backward, the name read is those labels followed by the
/// labels of the name at the pointer's target, and reading goes on two bytes
/// behind the pointer, not at its target.
pub proof fn lemma_compressed_name(
    bytes: Seq<u8>,
    pos: int,
    limit: int,
    prefix: Seq<Seq<char>>,
    suffix: Seq<Seq<char>>,
)
    requires
        spec_name_wf(prefix),
        spec_stands_at(bytes, pos, spec_labels_bytes(prefix)),
        ({
            let at = pos + spec_labels_bytes(prefix).len();
            let target = spec_pointer_target(bytes[at], bytes[at + 1]);
            &&& at + 1 < bytes.len()
            &&& spec_is_pointer(bytes[at])
            &&& target < at
            &&& target < limit
            &&& spec_parse_labels(bytes, target, target) matches Ok((labels, _)) && labels
                == suffix
        }),
    ensures
        spec_parse_labels(bytes, pos, limit) == Ok::<(Seq<Seq<char>>, int), DnsError>(
            (prefix + suffix, pos + spec_labels_bytes(prefix).len() + 2),
        ),
    decreases prefix.len(),
{
    if prefix.len() == 0 {
        lemma_pointer_is_not_zero(bytes[pos]);
        assert(prefix + suffix =~= suffix);
    } else {
        let text = prefix[0];
        let rest = prefix.drop_first();
        let encoded = encode_utf8(text);
        let length = encoded.len() as int;
        assert(spec_label_wf(text));
        assert(spec_labels_bytes(prefix) =~= seq![length as u8] + (encoded + spec_labels_bytes(
            rest,
        )));
        lemma_stands_at_split(bytes, pos, seq![length as u8], encoded + spec_labels_bytes(rest));
        lemma_stands_at_split(bytes, pos + 1, encoded, spec_labels_bytes(rest));
        assert(bytes.subrange(pos, pos + 1)[0] == bytes[pos]);
        assert(bytes[pos] == length);
        lemma_short_length_is_no_pointer(bytes[pos]);
        encode_utf8_valid_utf8(text);
        encode_utf8_decode_utf8(text);
        assert(bytes.subrange(pos + 1, pos + 1 + length) == encoded);
        assert forall|i: int| 0 <= i < rest.len() implies spec_label_wf(#[trigger] rest[i]) by {
            assert(rest[i] == prefix[i + 1]);
        }
        lemma_compressed_name(bytes, pos + 1 + length, limit, rest, suffix);
        assert(seq![text] + (rest + suffix) =~= prefix + suffix);
    }
}

/// A written question is read back as it was, wherever it stands.
pub proof fn lemma_question_roundtrip(bytes: Seq<u8>, pos: int, q: QuestionView)
    requires
        q.spec_wf(),
        spec_stands_at(bytes, pos, q.spec_bytes()),
    ensures
        spec_parse_question(bytes, pos) == Ok::<(QuestionView, int), DnsError>(
            (q, pos + q.spec_bytes().len()),
        ),
{
    let name = spec_name_bytes(q.name);
    let record_type = spec_u16_be(q.record_type.spec_code());
    let record_class = spec_u16_be(q.record_class.spec_code());
    assert(q.spec_bytes() =~= name + (record_type + record_class));
    lemma_stands_at_split(bytes, pos, name, record_type + record_class);
    lemma_stands_at_split(bytes, pos + name.len(), record_type, record_class);
    lemma_name_roundtrip(bytes, pos, bytes.len() as int, q.name);
    let p = pos + name.len();
    lemma_read_u16_of_be(bytes, p, q.record_type.spec_code());
    lemma_read_u16_of_be(bytes, p + 2, q.record_class.spec_code());
}

/// A written answer whose data fits its 16-bit length is read back as it
/// was, wherever it stands.
pub proof fn lemma_answer_roundtrip(bytes: Seq<u8>, pos: int, a: AnswerView)
    requires
        a.spec_wf(),
        spec_stands_at(bytes, pos, a.spec_bytes()),
    ensures
        spec_parse_answer(bytes, pos) == Ok::<(AnswerView, int), DnsError>(
            (a, pos + a.spec_bytes().len()),
        ),
{
    let q = QuestionView { name: a.name, record_type: a.record_type, record_class: a.record_class };
    let ttl = spec_u32_be(a.ttl);
    let rdlength = spec_u16_be(a.rdata.len() as u16);
    assert(a.spec_bytes() =~= q.spec_bytes() + (ttl + (rdlength + a.rdata)));
    lemma_stands_at_split(bytes, pos, q.spec_bytes(), ttl + (rdlength + a.rdata));
    let p = pos + q.spec_bytes().len();
    lemma_stands_at_split(bytes, p, ttl, rdlength + a.rdata);
    lemma_stands_at_split(bytes, p + 4, rdlength, a.rdata);
    lemma_question_roundtrip(bytes, pos, q);
    lemma_read_u32_of_be(bytes, p, a.ttl);
    lemma_read_u16_of_be(bytes, p + 4, a.rdata.len() as u16);
}

/// Written questions are read back as they were, wherever they stand.
pub proof fn lemma_questions_roundtrip(bytes: Seq<u8>, pos: int, questions: Seq<QuestionView>)
    requires
        forall|i: int| 0 <= i < questions.len() ==> (#[trigger] questions[i]).spec_wf(),
        spec_stands_at(bytes, pos, spec_questions_bytes(questions)),
    ensures
        spec_parse_questions(bytes, pos, questions.len()) == Ok::<
            (Seq<QuestionView>, int),
            DnsError,
        >((questions, pos + spec_questions_bytes(questions).len())),
    decreases questions.len(),
{
    if questions.len() == 0 {
        assert(questions =~= Seq::<QuestionView>::empty());
    } else {
        let q = questions[0];
        let rest = questions.drop_first();
        lemma_stands_at_split(bytes, pos, q.spec_bytes(), spec_questions_bytes(rest));
        lemma_question_roundtrip(bytes, pos, q);
        assert forall|i: int| 0 <= i < rest.len() implies (#[trigger] rest[i]).spec_wf() by {
            assert(rest[i] == questions[i + 1]);
        }
        lemma_questions_roundtrip(bytes, pos + q.spec_bytes().len(), rest);
        assert(seq![q] + rest =~= questions);
    }
}

/// Written answers are read back as they were, wherever they stand.
pub proof fn lemma_answers_roundtrip(bytes: Seq<u8>, pos: int, answers: Seq<AnswerView>)
    requires
        forall|i: int| 0 <= i < answers.len() ==> (#[trigger] answers[i]).spec_wf(),
        spec_stands_at(bytes, pos, spec_answers_bytes(answers)),
    ensures
        spec_parse_answers(bytes, pos, answers.len()) == Ok::<(Seq<AnswerView>, int), DnsError>(
            (answers, pos + spec_answers_bytes(answers).len()),
        ),
    decreases answers.len(),
{
    if answers.len() == 0 {
        assert(answers =~= Seq::<AnswerView>::empty());
    } else {
        let a = answers[0];
        let rest = answers.drop_first();
        lemma_stands_at_split(bytes, pos, a.spec_bytes(), spec_answers_bytes(rest));
        lemma_answer_roundtrip(bytes, pos, a);
        assert forall|i: int| 0 <= i < rest.len() implies (#[trigger] rest[i]).spec_wf() by {
            assert(rest[i] == answers[i + 1]);
        }
        lemma_answers_roundtrip(bytes, pos + a.spec_bytes().len(), rest);
        assert(seq![a] + rest =~= answers);
    }
}

/// Decoding undoes encoding.
///
/// Take any message whose header counts its questions and its answers, whose
/// labels take 1 to 63 bytes each, and whose answers hold at most 65535 bytes
/// of data. Its encoding, followed by any bytes at all, decodes to that
/// message, and decoding stops just behind the encoding.
pub proof fn lemma_decode_encode_roundtrip(m: MessageView, rest: Seq<u8>)
    requires
        m.spec_wf(),
    ensures
        spec_parse_message(m.spec_bytes() + rest) == Ok::<(MessageView, int), DnsError>(
            (m, m.spec_bytes().len() as int),
        ),
{
    let bytes = m.spec_bytes() + rest;
    let header = m.header.spec_bytes();
    let questions = spec_questions_bytes(m.questions);
    let answers = spec_answers_bytes(m.answers);
    lemma_header_roundtrip(m.header, questions + answers + rest);
    assert(bytes =~= header + (questions + answers + rest));
    assert(bytes.subrange(0, m.spec_bytes().len() as int) =~= m.spec_bytes());
    assert(m.spec_bytes() =~= header + (questions + answers));
    lemma_stands_at_split(bytes, 0, header, questions + answers);
    lemma_stands_at_split(bytes, 12, questions, answers);
    lemma_questions_roundtrip(bytes, 12, m.questions);
    lemma_answers_roundtrip(bytes, 12 + questions.len() as int, m.answers);
}

} // verus!
