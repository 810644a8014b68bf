//! The parts of a DNS message, their views, and their wire encoding.

use crate::error::DnsError;
use crate::trusted::{
    buf_bytes, buf_extend_from_slice, buf_into_vec, buf_new, buf_put_u16, buf_put_u32,
    buf_put_u8, buf_with_capacity,
};
use crate::wire::{lemma_read_u16_of_be, read_u16, spec_read_u16, spec_u16_be, spec_u32_be};
use bytes::BytesMut;
use vstd::prelude::*;
use vstd::std_specs::convert::FromSpecImpl;
use vstd::std_specs::convert::TryFromSpecImpl;
use vstd::std_specs::convert::TryIntoSpecImpl;
use vstd::utf8::encode_utf8;

verus! {

/// The kind of query that a header announces.
#[derive(Clone, Copy, Debug, PartialEq, Eq, Structural)]
pub enum OpCode {
    Query,
    IQuery,
    Status,
    /// A number of the reserved range, kept as it came.
    Reserved(u8),
}

impl OpCode {
    /// The number that stands for the opcode.
    pub open spec fn spec_code(self) -> u8 {
        match self {
            OpCode::Query => 0,
            OpCode::IQuery => 1,
            OpCode::Status => 2,
            OpCode::Reserved(n) => n,
        }
    }

    /// The opcode that a number stands for: three named kinds, and the
    /// reserved range that is kept as it is.
    pub open spec fn spec_from_code(code: u8) -> OpCode {
        if code == 0 {
            OpCode::Query
        } else if code == 1 {
            OpCode::IQuery
        } else if code == 2 {
            OpCode::Status
        } else {
            OpCode::Reserved(code)
        }
    }

    /// A reserved opcode holds a number of the reserved range, 3 to 15.
    pub open spec fn spec_wf(self) -> bool {
        self matches OpCode::Reserved(n) ==> 3 <= n <= 15
    }

    /// What reading a number as an opcode gives: the opcode for a number that
    /// fits the four bits of the header field, a failure for any other.
    pub open spec fn spec_try_from_code(code: u8) -> Result<OpCode, DnsError> {
        if code <= 15 {
            Ok(OpCode::spec_from_code(code))
        } else {
            Err(DnsError::UnknownOpcode)
        }
    }
}

impl From<OpCode> for u8 {
    fn from(value: OpCode) -> (code: u8)
        ensures
            code == value.spec_code(),
    {
        match value {
            OpCode::Query => 0,
            OpCode::IQuery => 1,
            OpCode::Status => 2,
            OpCode::Reserved(n) => n,
        }
    }
}

impl FromSpecImpl<OpCode> for u8 {
    open spec fn obeys_from_spec() -> bool {
        true
    }

    open spec fn from_spec(value: OpCode) -> u8 {
        value.spec_code()
    }
}

impl TryFrom<u8> for OpCode {
    type Error = DnsError;

    /// Numbers up to 15 fit the header field; a larger one is refused.
    fn try_from(value: u8) -> (r: Result<OpCode, DnsError>)
        ensures
            r == OpCode::spec_try_from_code(value),
            r matches Ok(opcode) ==> opcode.spec_wf() && opcode.spec_code() == value,
    {
        if value == 0 {
            Ok(OpCode::Query)
        } else if value == 1 {
            Ok(OpCode::IQuery)
        } else if value == 2 {
            Ok(OpCode::Status)
        } else if value <= 15 {
            Ok(OpCode::Reserved(value))
        } else {
            Err(DnsError::UnknownOpcode)
        }
    }
}

impl TryFromSpecImpl<u8> for OpCode {
    open spec fn obeys_try_from_spec() -> bool {
        true
    }

    open spec fn try_from_spec(value: u8) -> Result<OpCode, DnsError> {
        OpCode::spec_try_from_code(value)
    }
}

/// The outcome that a response reports.
#[derive(Clone, Copy, Debug, PartialEq, Eq, Structural)]
pub enum RCode {
    NoError,
    FormatError,
    ServerFailure,
    NameError,
    NotImplemented,
    Refused,
}

impl RCode {
    /// The number that stands for the response code.
    pub open spec fn spec_code(self) -> u8 {
        match self {
            RCode::NoError => 0,
            RCode::FormatError => 1,
            RCode::ServerFailure => 2,
            RCode::NameError => 3,
            RCode::NotImplemented => 4,
            RCode::Refused => 5,
        }
    }
}

impl From<RCode> for u8 {
    fn from(value: RCode) -> (code: u8)
        ensures
            code == value.spec_code(),
    {
        match value {
            RCode::NoError => 0,
            RCode::FormatError => 1,
            RCode::ServerFailure => 2,
            RCode::NameError => 3,
            RCode::NotImplemented => 4,
            RCode::Refused => 5,
        }
    }
}

impl FromSpecImpl<RCode> for u8 {
    open spec fn obeys_from_spec() -> bool {
        true
    }

    open spec fn from_spec(value: RCode) -> u8 {
        value.spec_code()
    }
}

/// The type of a resource record.
#[derive(Clone, Copy, Debug, PartialEq, Eq, Structural)]
pub enum RecordType {
    A,
    NS,
    Cname,
    MX,
}

impl RecordType {
    /// The number that stands for the record type.
    pub open spec fn spec_code(self) -> u16 {
        match self {
            RecordType::A => 1,
            RecordType::NS => 2,
            RecordType::Cname => 5,
            RecordType::MX => 15,
        }
    }

    /// What reading a number as a record type gives.
    pub open spec fn spec_try_from_code(code: u16) -> Result<RecordType, DnsError> {
        if code == 1 {
            Ok(RecordType::A)
        } else if code == 2 {
            Ok(RecordType::NS)
        } else if code == 5 {
            Ok(RecordType::Cname)
        } else if code == 15 {
            Ok(RecordType::MX)
        } else {
            Err(DnsError::UnknownRecordType)
        }
    }
}

impl Default for RecordType {
    fn default() -> (r: RecordType)
        ensures
            r == RecordType::A,
    {
        RecordType::A
    }
}

impl TryFrom<u16> for RecordType {
    type Error = DnsError;

    fn try_from(value: u16) -> (r: Result<RecordType, DnsError>)
        ensures
            r == RecordType::spec_try_from_code(value),
    {
        if value == 1 {
            Ok(RecordType::A)
        } else if value == 2 {
            Ok(RecordType::NS)
        } else if value == 5 {
            Ok(RecordType::Cname)
        } else if value == 15 {
            Ok(RecordType::MX)
        } else {
            Err(DnsError::UnknownRecordType)
        }
    }
}

impl TryFromSpecImpl<u16> for RecordType {
    open spec fn obeys_try_from_spec() -> bool {
        true
    }

    open spec fn try_from_spec(value: u16) -> Result<RecordType, DnsError> {
        RecordType::spec_try_from_code(value)
    }
}

impl From<RecordType> for u16 {
    fn from(val: RecordType) -> (code: u16)
        ensures
            code == val.spec_code(),
    {
        match val {
            RecordType::A => 1,
            RecordType::NS => 2,
            RecordType::Cname => 5,
            RecordType::MX => 15,
        }
    }
}

impl FromSpecImpl<RecordType> for u16 {
    open spec fn obeys_from_spec() -> bool {
        true
    }

    open spec fn from_spec(val: RecordType) -> u16 {
        val.spec_code()
    }
}

/// The class of a resource record. Only the Internet class exists here.
#[derive(Clone, Copy, Debug, PartialEq, Eq, Structural)]
pub enum RecordClass {
    IN,
}

impl RecordClass {
    /// The number that stands for the record class.
    pub open spec fn spec_code(self) -> u16 {
        match self {
            RecordClass::IN => 1,
        }
    }

    /// What reading a number as a record class gives.
    pub open spec fn spec_try_from_code(code: u16) -> Result<RecordClass, DnsError> {
        if code == 1 {
            Ok(RecordClass::IN)
        } else {
            Err(DnsError::UnknownRecordClass)
        }
    }
}

impl Default for RecordClass {
    fn default() -> (r: RecordClass)
        ensures
            r == RecordClass::IN,
    {
        RecordClass::IN
    }
}

impl TryFrom<u16> for RecordClass {
    type Error = DnsError;

    fn try_from(value: u16) -> (r: Result<RecordClass, DnsError>)
        ensures
            r == RecordClass::spec_try_from_code(value),
    {
        if value == 1 {
            Ok(RecordClass::IN)
        } else {
            Err(DnsError::UnknownRecordClass)
        }
    }
}

impl TryFromSpecImpl<u16> for RecordClass {
    open spec fn obeys_try_from_spec() -> bool {
        true
    }

    open spec fn try_from_spec(value: u16) -> Result<RecordClass, DnsError> {
        RecordClass::spec_try_from_code(value)
    }
}

impl From<RecordClass> for u16 {
    fn from(val: RecordClass) -> (code: u16)
        ensures
            code == val.spec_code(),
    {
        match val {
            RecordClass::IN => 1,
        }
    }
}

impl FromSpecImpl<RecordClass> for u16 {
    open spec fn obeys_from_spec() -> bool {
        true
    }

    open spec fn from_spec(val: RecordClass) -> u16 {
        val.spec_code()
    }
}

/// The fixed twelve bytes at the start of every message.
///
/// The two flag bytes pack eight fields, most significant bit first: QR (1
/// bit), OPCODE (4), AA (1), TC (1) and RD (1) in the first byte; RA (1),
/// Z (3) and RCODE (4) in the second.
#[derive(Debug, PartialEq, Eq)]
pub struct Header {
    pub id: u16,
    pub flags: [u8; 2],
    pub qdcount: u16,
    pub ancount: u16,
    pub nscount: u16,
    pub arcount: u16,
}

impl Clone for Header {
    fn clone(&self) -> (r: Header)
        ensures
            r == *self,
    {
        Header {
            id: self.id,
            flags: self.flags,
            qdcount: self.qdcount,
            ancount: self.ancount,
            nscount: self.nscount,
            arcount: self.arcount,
        }
    }
}

impl Default for Header {
    fn default() -> (h: Header)
        ensures
            h.id == 0,
            h.flags[0] == 0,
            h.flags[1] == 0,
            h.qdcount == 0,
            h.ancount == 0,
            h.nscount == 0,
            h.arcount == 0,
    {
        Header { id: 0, flags: [0, 0], qdcount: 0, ancount: 0, nscount: 0, arcount: 0 }
    }
}

impl Header {
    /// QR: whether the message is a response.
    pub open spec fn spec_qr(&self) -> bool {
        self.flags[0] & 0x80 != 0
    }

    /// OPCODE as the number in its four bits.
    pub open spec fn spec_opcode_bits(&self) -> u8 {
        (self.flags[0] & 0x78) >> 3
    }

    /// OPCODE as an opcode.
    pub open spec fn spec_opcode(&self) -> OpCode {
        OpCode::spec_from_code(self.spec_opcode_bits())
    }

    /// AA: whether the answer is authoritative.
    pub open spec fn spec_aa(&self) -> bool {
        self.flags[0] & 0x04 != 0
    }

    /// TC: whether the message was truncated.
    pub open spec fn spec_tc(&self) -> bool {
        self.flags[0] & 0x02 != 0
    }

    /// RD: whether recursion is desired.
    pub open spec fn spec_rd(&self) -> bool {
        self.flags[0] & 0x01 != 0
    }

    /// RA: whether recursion is available.
    pub open spec fn spec_ra(&self) -> bool {
        self.flags[1] & 0x80 != 0
    }

    /// Z: the three reserved bits.
    pub open spec fn spec_z(&self) -> u8 {
        (self.flags[1] & 0x70) >> 4
    }

    /// RCODE as the number in its four bits.
    pub open spec fn spec_rcode_bits(&self) -> u8 {
        self.flags[1] & 0x0f
    }

    /// The header with other flag bytes and everything else as it is.
    pub open spec fn spec_with_flags(&self, first: u8, second: u8) -> Header {
        Header {
            id: self.id,
            flags: [first, second],
            qdcount: self.qdcount,
            ancount: self.ancount,
            nscount: self.nscount,
            arcount: self.arcount,
        }
    }

    /// The twelve bytes of the header on the wire.
    pub open spec fn spec_bytes(&self) -> Seq<u8> {
        spec_u16_be(self.id) + seq![self.flags[0], self.flags[1]] + spec_u16_be(self.qdcount)
            + spec_u16_be(self.ancount) + spec_u16_be(self.nscount) + spec_u16_be(self.arcount)
    }

    /// The twelve bytes of the header as an array.
    pub open spec fn spec_array(&self) -> [u8; 12] {
        let b = self.spec_bytes();
        [b[0], b[1], b[2], b[3], b[4], b[5], b[6], b[7], b[8], b[9], b[10], b[11]]
    }

    /// The header that the first twelve bytes of `bytes` stand for.
    pub open spec fn spec_from_bytes(bytes: Seq<u8>) -> Header
        recommends
            bytes.len() >= 12,
    {
        Header {
            id: spec_read_u16(bytes, 0),
            flags: [bytes[2], bytes[3]],
            qdcount: spec_read_u16(bytes, 4),
            ancount: spec_read_u16(bytes, 6),
            nscount: spec_read_u16(bytes, 8),
            arcount: spec_read_u16(bytes, 10),
        }
    }

    /// The header of a reply to the query with this id: QR is set, the id is
    /// the query's, and every other field is zero.
    pub fn new_reply(id: u16) -> (h: Header)
        ensures
            h.id == id,
            h.flags[0] == 0x80,
            h.flags[1] == 0,
            h.qdcount == 0,
            h.ancount == 0,
            h.nscount == 0,
            h.arcount == 0,
            h.spec_qr(),
            h.spec_opcode() == OpCode::Query,
            !h.spec_aa(),
            !h.spec_tc(),
            !h.spec_rd(),
            !h.spec_ra(),
            h.spec_z() == 0,
            h.spec_rcode_bits() == 0,
    {
        let mut h = Header::default();
        h.id = id;
        h.flags = [h.flags[0] | 0x80, h.flags[1]];
        assert(0u8 | 0x80u8 == 0x80u8) by (bit_vector);
        assert(0x80u8 & 0x80u8 != 0 && (0x80u8 & 0x78u8) >> 3 == 0 && 0x80u8 & 0x04u8 == 0
            && 0x80u8 & 0x02u8 == 0 && 0x80u8 & 0x01u8 == 0) by (bit_vector);
        assert(0u8 & 0x80u8 == 0 && (0u8 & 0x70u8) >> 4 == 0 && 0u8 & 0x0fu8 == 0)
            by (bit_vector);
        h
    }

    /// The opcode in the header. Four bits always hold a number that stands
    /// for an opcode, so this never fails.
    pub fn get_opcode(&self) -> (r: Result<OpCode, DnsError>)
        ensures
            r == Ok::<OpCode, DnsError>(self.spec_opcode()),
            self.spec_opcode().spec_wf(),
    {
        let first: u8 = self.flags[0];
        let bits: u8 = (first & 0x78) >> 3;
        assert((first & 0x78u8) >> 3 <= 15) by (bit_vector);
        OpCode::try_from(bits)
    }

    /// Writes the opcode into its four bits and leaves every other field as
    /// it is. Of a number that does not fit, the low four bits are written.
    pub fn set_opcode(&mut self, opcode: OpCode)
        ensures
            final(self).spec_opcode_bits() == opcode.spec_code() % 16,
            opcode.spec_wf() ==> final(self).spec_opcode() == opcode,
            final(self).spec_qr() == old(self).spec_qr(),
            final(self).spec_aa() == old(self).spec_aa(),
            final(self).spec_tc() == old(self).spec_tc(),
            final(self).spec_rd() == old(self).spec_rd(),
            final(self).spec_ra() == old(self).spec_ra(),
            final(self).spec_z() == old(self).spec_z(),
            final(self).spec_rcode_bits() == old(self).spec_rcode_bits(),
            *final(self) == old(self).spec_with_flags(final(self).flags[0], old(self).flags[1]),
    {
        let value: u8 = opcode.into();
        let first: u8 = self.flags[0];
        let written: u8 = (first & 0x87) | ((value << 3) & 0x78);
        assert({
            &&& (written & 0x78u8) >> 3 == value % 16
            &&& written & 0x80u8 == first & 0x80u8
            &&& written & 0x04u8 == first & 0x04u8
            &&& written & 0x02u8 == first & 0x02u8
            &&& written & 0x01u8 == first & 0x01u8
        }) by (bit_vector)
            requires
                written == (first & 0x87u8) | ((value << 3) & 0x78u8),
        ;
        self.flags = [written, self.flags[1]];
    }

    /// Whether recursion is desired.
    pub fn get_rd(&self) -> (rd: bool)
        ensures
            rd == self.spec_rd(),
    {
        self.flags[0] & 0x01 != 0
    }

    /// Writes the RD bit and leaves every other field as it is.
    pub fn set_rd(&mut self, rd: bool)
        ensures
            final(self).spec_rd() == rd,
            final(self).spec_qr() == old(self).spec_qr(),
            final(self).spec_opcode_bits() == old(self).spec_opcode_bits(),
            final(self).spec_aa() == old(self).spec_aa(),
            final(self).spec_tc() == old(self).spec_tc(),
            final(self).spec_ra() == old(self).spec_ra(),
            final(self).spec_z() == old(self).spec_z(),
            final(self).spec_rcode_bits() == old(self).spec_rcode_bits(),
            *final(self) == old(self).spec_with_flags(final(self).flags[0], old(self).flags[1]),
    {
        let first: u8 = self.flags[0];
        let bit: u8 = if rd {
            0x01
        } else {
            0x00
        };
        let written: u8 = (first & 0xfe) | bit;
        assert({
            &&& (written & 0x01u8 != 0) == (bit == 1)
            &&& written & 0x80u8 == first & 0x80u8
            &&& (written & 0x78u8) >> 3 == (first & 0x78u8) >> 3
            &&& written & 0x04u8 == first & 0x04u8
            &&& written & 0x02u8 == first & 0x02u8
        }) by (bit_vector)
            requires
                written == (first & 0xfeu8) | bit,
                bit == 0 || bit == 1,
        ;
        self.flags = [written, self.flags[1]];
    }

    /// Writes the response code into its four bits and leaves every other
    /// field as it is.
    pub fn set_rcode(&mut self, rcode: RCode)
        ensures
            final(self).spec_rcode_bits() == rcode.spec_code(),
            final(self).spec_ra() == old(self).spec_ra(),
            final(self).spec_z() == old(self).spec_z(),
            final(self).spec_qr() == old(self).spec_qr(),
            final(self).spec_opcode_bits() == old(self).spec_opcode_bits(),
            final(self).spec_aa() == old(self).spec_aa(),
            final(self).spec_tc() == old(self).spec_tc(),
            final(self).spec_rd() == old(self).spec_rd(),
            *final(self) == old(self).spec_with_flags(old(self).flags[0], final(self).flags[1]),
    {
        let value: u8 = rcode.into();
        let second: u8 = self.flags[1];
        let written: u8 = (second & 0xf0) | (value & 0x0f);
        assert({
            &&& written & 0x0fu8 == value
            &&& written & 0x80u8 == second & 0x80u8
            &&& (written & 0x70u8) >> 4 == (second & 0x70u8) >> 4
        }) by (bit_vector)
            requires
                written == (second & 0xf0u8) | (value & 0x0fu8),
                value <= 5,
        ;
        self.flags = [self.flags[0], written];
    }
}

impl TryFrom<[u8; 12]> for Header {
    type Error = DnsError;

    /// Reads a header from its twelve bytes. Every combination of bytes is a
    /// header: the four bits of the opcode always name an opcode, reserved
    /// ones included, so this never fails.
    fn try_from(bytes: [u8; 12]) -> (r: Result<Header, DnsError>)
        ensures
            r == Ok::<Header, DnsError>(Header::spec_from_bytes(bytes@)),
    {
        let all = bytes.as_slice();
        Ok(
            Header {
                id: read_u16(all, 0),
                flags: [bytes[2], bytes[3]],
                qdcount: read_u16(all, 4),
                ancount: read_u16(all, 6),
                nscount: read_u16(all, 8),
                arcount: read_u16(all, 10),
            },
        )
    }
}

impl TryFromSpecImpl<[u8; 12]> for Header {
    open spec fn obeys_try_from_spec() -> bool {
        true
    }

    open spec fn try_from_spec(bytes: [u8; 12]) -> Result<Header, DnsError> {
        Ok(Header::spec_from_bytes(bytes@))
    }
}

impl Header {
    /// The twelve bytes of the header on the wire.
    pub fn to_bytes(&self) -> (bytes: [u8; 12])
        ensures
            bytes@ == self.spec_bytes(),
            bytes == self.spec_array(),
    {
        let mut r = buf_with_capacity(12);
        buf_put_u16(&mut r, self.id);
        buf_extend_from_slice(&mut r, self.flags.as_slice());
        buf_put_u16(&mut r, self.qdcount);
        buf_put_u16(&mut r, self.ancount);
        buf_put_u16(&mut r, self.nscount);
        buf_put_u16(&mut r, self.arcount);
        assert(buf_bytes(r) =~= self.spec_bytes());
        let v = buf_into_vec(r);
        let bytes: [u8; 12] = [
            v[0],
            v[1],
            v[2],
            v[3],
            v[4],
            v[5],
            v[6],
            v[7],
            v[8],
            v[9],
            v[10],
            v[11],
        ];
        assert(bytes@ =~= self.spec_bytes());
        assert(bytes =~= self.spec_array());
        bytes
    }
}

impl TryInto<[u8; 12]> for Header {
    type Error = DnsError;

    /// Writes the header as its twelve bytes. This never fails: the result
    /// is `try_into_spec`, which is always `Ok`.
    fn try_into(self) -> (r: Result<[u8; 12], DnsError>) {
        Ok(self.to_bytes())
    }
}

impl TryIntoSpecImpl<[u8; 12]> for Header {
    open spec fn obeys_try_into_spec() -> bool {
        true
    }

    open spec fn try_into_spec(self) -> Result<[u8; 12], DnsError> {
        Ok(self.spec_array())
    }
}

/// A header is read back from its own twelve bytes, whatever follows them.
pub proof fn lemma_header_roundtrip(h: Header, rest: Seq<u8>)
    ensures
        h.spec_bytes().len() == 12,
        h.spec_array()@ == h.spec_bytes(),
        Header::spec_from_bytes(h.spec_bytes() + rest) == h,
{
    let bytes = h.spec_bytes() + rest;
    let back = Header::spec_from_bytes(bytes);
    assert(bytes.subrange(0, 2) =~= spec_u16_be(h.id));
    assert(bytes.subrange(4, 6) =~= spec_u16_be(h.qdcount));
    assert(bytes.subrange(6, 8) =~= spec_u16_be(h.ancount));
    assert(bytes.subrange(8, 10) =~= spec_u16_be(h.nscount));
    assert(bytes.subrange(10, 12) =~= spec_u16_be(h.arcount));
    lemma_read_u16_of_be(bytes, 0, h.id);
    lemma_read_u16_of_be(bytes, 4, h.qdcount);
    lemma_read_u16_of_be(bytes, 6, h.ancount);
    lemma_read_u16_of_be(bytes, 8, h.nscount);
    lemma_read_u16_of_be(bytes, 10, h.arcount);
    assert(back.flags =~= h.flags);
    assert(h.spec_array()@ =~= h.spec_bytes());
}

/// One component of a domain name: a piece of text.
#[derive(Debug, PartialEq, Eq)]
pub struct Label(pub String);

impl View for Label {
    type V = Seq<char>;

    open spec fn view(&self) -> Seq<char> {
        self.0@
    }
}

impl Clone for Label {
    fn clone(&self) -> (r: Label)
        ensures
            r@ == self@,
    {
        Label(self.0.clone())
    }
}

impl Default for Label {
    fn default() -> (r: Label)
        ensures
            r@ == Seq::<char>::empty(),
    {
        Label(String::new())
    }
}

/// A name as the texts of its labels.
pub open spec fn spec_name(labels: Seq<Label>) -> Seq<Seq<char>> {
    labels.map_values(|l: Label| l@)
}

/// A label on the wire: the number of bytes of its text, cut to one byte,
/// then the text in UTF-8.
pub open spec fn spec_label_bytes(text: Seq<char>) -> Seq<u8> {
    seq![encode_utf8(text).len() as u8] + encode_utf8(text)
}

/// The labels of a name on the wire, one after the other.
pub open spec fn spec_labels_bytes(name: Seq<Seq<char>>) -> Seq<u8>
    decreases name.len(),
{
    if name.len() == 0 {
        Seq::empty()
    } else {
        spec_label_bytes(name[0]) + spec_labels_bytes(name.drop_first())
    }
}

/// A name on the wire: its labels, then the zero byte that ends it. No
/// compression pointer is ever written.
pub open spec fn spec_name_bytes(name: Seq<Seq<char>>) -> Seq<u8> {
    spec_labels_bytes(name) + seq![0u8]
}

/// A label that can be read back: its text takes 1 to 63 bytes.
pub open spec fn spec_label_wf(text: Seq<char>) -> bool {
    1 <= encode_utf8(text).len() <= 63
}

/// A name whose labels can all be read back.
pub open spec fn spec_name_wf(name: Seq<Seq<char>>) -> bool {
    forall|i: int| 0 <= i < name.len() ==> spec_label_wf(#[trigger] name[i])
}

/// Appending a label to a name appends the label's bytes.
pub proof fn lemma_labels_bytes_push(name: Seq<Seq<char>>, text: Seq<char>)
    ensures
        spec_labels_bytes(name.push(text)) == spec_labels_bytes(name) + spec_label_bytes(text),
    decreases name.len(),
{
    let longer = name.push(text);
    if name.len() == 0 {
        assert(longer.drop_first() =~= Seq::<Seq<char>>::empty());
        assert(spec_labels_bytes(longer.drop_first()) =~= Seq::<u8>::empty());
        assert(spec_labels_bytes(longer) =~= spec_label_bytes(text));
    } else {
        assert(longer.drop_first() =~= name.drop_first().push(text));
        lemma_labels_bytes_push(name.drop_first(), text);
        assert(spec_labels_bytes(longer) =~= spec_labels_bytes(name) + spec_label_bytes(text));
    }
}

impl Label {
    /// The label on the wire.
    pub fn to_bytes(&self) -> (bytes: Vec<u8>)
        ensures
            bytes@ == spec_label_bytes(self@),
    {
        let mut buf = buf_new();
        let text = self.0.as_str().as_bytes();
        buf_put_u8(&mut buf, text.len() as u8);
        buf_extend_from_slice(&mut buf, text);
        assert(buf_bytes(buf) =~= spec_label_bytes(self@));
        buf_into_vec(buf)
    }
}

impl From<Label> for Vec<u8> {
    fn from(val: Label) -> (bytes: Vec<u8>)
        ensures
            bytes@ == spec_label_bytes(val@),
    {
        val.to_bytes()
    }
}

impl FromSpecImpl<Label> for Vec<u8> {
    /// A vector is described by its view: see the `ensures` of `from`.
    open spec fn obeys_from_spec() -> bool {
        false
    }

    open spec fn from_spec(val: Label) -> Vec<u8> {
        arbitrary()
    }
}

/// Appends a name to the buffer: each label, then the zero byte.
fn put_name(buf: &mut BytesMut, name: &Vec<Label>)
    ensures
        buf_bytes(*final(buf)) == buf_bytes(*old(buf)) + spec_name_bytes(spec_name(name@)),
{
    let ghost before = buf_bytes(*buf);
    let ghost texts = spec_name(name@);
    let mut i: usize = 0;
    while i < name.len()
        invariant
            i <= name.len(),
            texts == spec_name(name@),
            buf_bytes(*buf) == before + spec_labels_bytes(texts.take(i as int)),
        decreases name.len() - i,
    {
        let label_bytes = name[i].to_bytes();
        buf_extend_from_slice(buf, label_bytes.as_slice());
        proof {
            assert(texts.take(i + 1) =~= texts.take(i as int).push(texts[i as int]));
            lemma_labels_bytes_push(texts.take(i as int), texts[i as int]);
            assert(buf_bytes(*buf) =~= before + spec_labels_bytes(texts.take(i + 1)));
        }
        i += 1;
    }
    assert(texts.take(i as int) =~= texts);
    buf_put_u8(buf, 0);
    assert(buf_bytes(*buf) =~= before + spec_name_bytes(texts));
}

/// What is asked: a name, a record type and a record class.
#[derive(Debug, PartialEq, Eq)]
pub struct Question {
    pub name: Vec<Label>,
    pub record_type: RecordType,
    pub record_class: RecordClass,
}

/// A question as plain values.
pub struct QuestionView {
    pub name: Seq<Seq<char>>,
    pub record_type: RecordType,
    pub record_class: RecordClass,
}

impl QuestionView {
    /// The question on the wire: the name, then type and class as 16-bit
    /// integers.
    pub open spec fn spec_bytes(self) -> Seq<u8> {
        spec_name_bytes(self.name) + spec_u16_be(self.record_type.spec_code()) + spec_u16_be(
            self.record_class.spec_code(),
        )
    }

    /// A question that can be read back.
    pub open spec fn spec_wf(self) -> bool {
        spec_name_wf(self.name)
    }
}

impl View for Question {
    type V = QuestionView;

    open spec fn view(&self) -> QuestionView {
        QuestionView {
            name: spec_name(self.name@),
            record_type: self.record_type,
            record_class: self.record_class,
        }
    }
}

impl Clone for Question {
    fn clone(&self) -> (r: Question)
        ensures
            r@ == self@,
    {
        let r = Question {
            name: self.name.clone(),
            record_type: self.record_type,
            record_class: self.record_class,
        };
        assert(spec_name(r.name@) =~= spec_name(self.name@));
        r
    }
}

impl Default for Question {
    fn default() -> (r: Question)
        ensures
            r@.name == Seq::<Seq<char>>::empty(),
            r.record_type == RecordType::A,
            r.record_class == RecordClass::IN,
    {
        let r = Question {
            name: Vec::new(),
            record_type: RecordType::A,
            record_class: RecordClass::IN,
        };
        assert(spec_name(r.name@) =~= Seq::<Seq<char>>::empty());
        r
    }
}

impl Question {
    /// The question on the wire.
    pub fn to_bytes(&self) -> (bytes: Vec<u8>)
        ensures
            bytes@ == self@.spec_bytes(),
    {
        let mut buf = buf_new();
        put_name(&mut buf, &self.name);
        buf_put_u16(&mut buf, self.record_type.into());
        buf_put_u16(&mut buf, self.record_class.into());
        assert(buf_bytes(buf) =~= self@.spec_bytes());
        buf_into_vec(buf)
    }
}

impl From<Question> for Vec<u8> {
    fn from(val: Question) -> (bytes: Vec<u8>)
        ensures
            bytes@ == val@.spec_bytes(),
    {
        val.to_bytes()
    }
}

impl FromSpecImpl<Question> for Vec<u8> {
    /// A vector is described by its view: see the `ensures` of `from`.
    open spec fn obeys_from_spec() -> bool {
        false
    }

    open spec fn from_spec(val: Question) -> Vec<u8> {
        arbitrary()
    }
}

/// A resource record that answers a question.
#[derive(Debug, PartialEq, Eq)]
pub struct Answer {
    pub name: Vec<Label>,
    pub record_type: RecordType,
    pub record_class: RecordClass,
    /// How many seconds the record may be kept.
    pub ttl: u32,
    /// The record's data, not interpreted here.
    pub rdata: Vec<u8>,
}

/// An answer as plain values.
pub struct AnswerView {
    pub name: Seq<Seq<char>>,
    pub record_type: RecordType,
    pub record_class: RecordClass,
    pub ttl: u32,
    pub rdata: Seq<u8>,
}

impl AnswerView {
    /// The answer on the wire: name, type, class, the time to live as a
    /// 32-bit integer, the length of the data as a 16-bit integer, and the data.
    /// The length is that of the data itself, cut to 16 bits.
    pub open spec fn spec_bytes(self) -> Seq<u8> {
        spec_name_bytes(self.name) + spec_u16_be(self.record_type.spec_code()) + spec_u16_be(
            self.record_class.spec_code(),
        ) + spec_u32_be(self.ttl) + spec_u16_be(self.rdata.len() as u16) + self.rdata
    }

    /// An answer that can be read back.
    pub open spec fn spec_wf(self) -> bool {
        &&& spec_name_wf(self.name)
        &&& self.rdata.len() <= 65535
    }
}

impl View for Answer {
    type V = AnswerView;

    open spec fn view(&self) -> AnswerView {
        AnswerView {
            name: spec_name(self.name@),
            record_type: self.record_type,
            record_class: self.record_class,
            ttl: self.ttl,
            rdata: self.rdata@,
        }
    }
}

impl Clone for Answer {
    fn clone(&self) -> (r: Answer)
        ensures
            r@ == self@,
    {
        let r = Answer {
            name: self.name.clone(),
            record_type: self.record_type,
            record_class: self.record_class,
            ttl: self.ttl,
            rdata: self.rdata.clone(),
        };
        assert(spec_name(r.name@) =~= spec_name(self.name@));
        assert(r.rdata@ =~= self.rdata@);
        r
    }
}

impl Default for Answer {
    fn default() -> (r: Answer)
        ensures
            r@.name == Seq::<Seq<char>>::empty(),
            r.record_type == RecordType::A,
            r.record_class == RecordClass::IN,
            r.ttl == 0,
            r.rdata@ == Seq::<u8>::empty(),
    {
        let r = Answer {
            name: Vec::new(),
            record_type: RecordType::A,
            record_class: RecordClass::IN,
            ttl: 0,
            rdata: Vec::new(),
        };
        assert(spec_name(r.name@) =~= Seq::<Seq<char>>::empty());
        r
    }
}

impl Answer {
    /// The answer on the wire.
    pub fn to_bytes(&self) -> (bytes: Vec<u8>)
        ensures
            bytes@ == self@.spec_bytes(),
    {
        let mut buf = buf_with_capacity(512);
        put_name(&mut buf, &self.name);
        buf_put_u16(&mut buf, self.record_type.into());
        buf_put_u16(&mut buf, self.record_class.into());
        buf_put_u32(&mut buf, self.ttl);
        buf_put_u16(&mut buf, self.rdata.len() as u16);
        buf_extend_from_slice(&mut buf, self.rdata.as_slice());
        assert(buf_bytes(buf) =~= self@.spec_bytes());
        buf_into_vec(buf)
    }
}

impl From<Answer> for Vec<u8> {
    fn from(val: Answer) -> (bytes: Vec<u8>)
        ensures
            bytes@ == val@.spec_bytes(),
    {
        val.to_bytes()
    }
}

impl FromSpecImpl<Answer> for Vec<u8> {
    /// A vector is described by its view: see the `ensures` of `from`.
    open spec fn obeys_from_spec() -> bool {
        false
    }

    open spec fn from_spec(val: Answer) -> Vec<u8> {
        arbitrary()
    }
}

/// The authority section: always absent.
#[derive(Clone, Copy, Debug, Default, PartialEq, Eq)]
pub struct Authority {}

/// The additional section: always absent.
#[derive(Clone, Copy, Debug, Default, PartialEq, Eq)]
pub struct Additional {}

/// A whole message: the header, the questions and the answers.
///
/// The counts in the header are the caller's to keep: nothing here corrects
/// a count that differs from the number of records.
#[derive(Debug, PartialEq, Eq)]
pub struct Message {
    pub header: Header,
    pub questions: Vec<Question>,
    pub answers: Vec<Answer>,
    pub authority: Authority,
    pub additional: Additional,
}

/// The questions as plain values.
pub open spec fn spec_questions(questions: Seq<Question>) -> Seq<QuestionView> {
    questions.map_values(|q: Question| q@)
}

/// The answers as plain values.
pub open spec fn spec_answers(answers: Seq<Answer>) -> Seq<AnswerView> {
    answers.map_values(|a: Answer| a@)
}

/// Questions on the wire, one after the other.
pub open spec fn spec_questions_bytes(questions: Seq<QuestionView>) -> Seq<u8>
    decreases questions.len(),
{
    if questions.len() == 0 {
        Seq::empty()
    } else {
        questions[0].spec_bytes() + spec_questions_bytes(questions.drop_first())
    }
}

/// Answers on the wire, one after the other.
pub open spec fn spec_answers_bytes(answers: Seq<AnswerView>) -> Seq<u8>
    decreases answers.len(),
{
    if answers.len() == 0 {
        Seq::empty()
    } else {
        answers[0].spec_bytes() + spec_answers_bytes(answers.drop_first())
    }
}

/// Appending a question appends its bytes.
pub proof fn lemma_questions_bytes_push(questions: Seq<QuestionView>, q: QuestionView)
    ensures
        spec_questions_bytes(questions.push(q)) == spec_questions_bytes(questions)
            + q.spec_bytes(),
    decreases questions.len(),
{
    let longer = questions.push(q);
    if questions.len() == 0 {
        assert(longer.drop_first() =~= Seq::<QuestionView>::empty());
        assert(spec_questions_bytes(longer.drop_first()) =~= Seq::<u8>::empty());
        assert(spec_questions_bytes(longer) =~= q.spec_bytes());
    } else {
        assert(longer.drop_first() =~= questions.drop_first().push(q));
        lemma_questions_bytes_push(questions.drop_first(), q);
        assert(spec_questions_bytes(longer) =~= spec_questions_bytes(questions)
            + q.spec_bytes());
    }
}

/// Appending an answer appends its bytes.
pub proof fn lemma_answers_bytes_push(answers: Seq<AnswerView>, a: AnswerView)
    ensures
        spec_answers_bytes(answers.push(a)) == spec_answers_bytes(answers) + a.spec_bytes(),
    decreases answers.len(),
{
    let longer = answers.push(a);
    if answers.len() == 0 {
        assert(longer.drop_first() =~= Seq::<AnswerView>::empty());
        assert(spec_answers_bytes(longer.drop_first()) =~= Seq::<u8>::empty());
        assert(spec_answers_bytes(longer) =~= a.spec_bytes());
    } else {
        assert(longer.drop_first() =~= answers.drop_first().push(a));
        lemma_answers_bytes_push(answers.drop_first(), a);
        assert(spec_answers_bytes(longer) =~= spec_answers_bytes(answers) + a.spec_bytes());
    }
}

/// A message as plain values.
pub struct MessageView {
    pub header: Header,
    pub questions: Seq<QuestionView>,
    pub answers: Seq<AnswerView>,
}

impl MessageView {
    /// The message on the wire: the header, the questions in order, the
    /// answers in order.
    pub open spec fn spec_bytes(self) -> Seq<u8> {
        self.header.spec_bytes() + spec_questions_bytes(self.questions) + spec_answers_bytes(
            self.answers,
        )
    }

    /// A message that can be read back: the header counts its questions and
    /// answers, and each of them can be read back.
    pub open spec fn spec_wf(self) -> bool {
        &&& self.header.qdcount == self.questions.len()
        &&& self.header.ancount == self.answers.len()
        &&& forall|i: int| 0 <= i < self.questions.len() ==> (#[trigger] self.questions[i]).spec_wf()
        &&& forall|i: int| 0 <= i < self.answers.len() ==> (#[trigger] self.answers[i]).spec_wf()
    }
}

impl View for Message {
    type V = MessageView;

    open spec fn view(&self) -> MessageView {
        MessageView {
            header: self.header,
            questions: spec_questions(self.questions@),
            answers: spec_answers(self.answers@),
        }
    }
}

impl Clone for Message {
    fn clone(&self) -> (r: Message)
        ensures
            r@ == self@,
    {
        let r = Message {
            header: self.header.clone(),
            questions: self.questions.clone(),
            answers: self.answers.clone(),
            authority: Authority {  },
            additional: Additional {  },
        };
        assert(spec_questions(r.questions@) =~= spec_questions(self.questions@));
        assert(spec_answers(r.answers@) =~= spec_answers(self.answers@));
        r
    }
}

impl Default for Message {
    fn default() -> (r: Message)
        ensures
            r.header == Header::spec_from_bytes(Seq::new(12, |i: int| 0u8)),
            r@.questions == Seq::<QuestionView>::empty(),
            r@.answers == Seq::<AnswerView>::empty(),
    {
        let r = Message {
            header: Header::default(),
            questions: Vec::new(),
            answers: Vec::new(),
            authority: Authority {  },
            additional: Additional {  },
        };
        assert(r.header.flags =~= Header::spec_from_bytes(Seq::new(12, |i: int| 0u8)).flags);
        assert(spec_questions(r.questions@) =~= Seq::<QuestionView>::empty());
        assert(spec_answers(r.answers@) =~= Seq::<AnswerView>::empty());
        r
    }
}

impl Message {
    /// The message on the wire.
    pub fn to_bytes(&self) -> (bytes: Vec<u8>)
        ensures
            bytes@ == self@.spec_bytes(),
    {
        let mut r = buf_with_capacity(512);
        let header_bytes = self.header.to_bytes();
        buf_extend_from_slice(&mut r, header_bytes.as_slice());
        let ghost questions = spec_questions(self.questions@);
        let ghost answers = spec_answers(self.answers@);
        let mut i: usize = 0;
        while i < self.questions.len()
            invariant
                i <= self.questions.len(),
                questions == spec_questions(self.questions@),
                buf_bytes(r) == self.header.spec_bytes() + spec_questions_bytes(
                    questions.take(i as int),
                ),
            decreases self.questions.len() - i,
        {
            let q_bytes = self.questions[i].to_bytes();
            buf_extend_from_slice(&mut r, q_bytes.as_slice());
            proof {
                assert(questions.take(i + 1) =~= questions.take(i as int).push(
                    questions[i as int],
                ));
                lemma_questions_bytes_push(questions.take(i as int), questions[i as int]);
                assert(buf_bytes(r) =~= self.header.spec_bytes() + spec_questions_bytes(
                    questions.take(i + 1),
                ));
            }
            i += 1;
        }
        assert(questions.take(i as int) =~= questions);
        let mut j: usize = 0;
        while j < self.answers.len()
            invariant
                j <= self.answers.len(),
                answers == spec_answers(self.answers@),
                buf_bytes(r) == self.header.spec_bytes() + spec_questions_bytes(questions)
                    + spec_answers_bytes(answers.take(j as int)),
            decreases self.answers.len() - j,
        {
            let a_bytes = self.answers[j].to_bytes();
            buf_extend_from_slice(&mut r, a_bytes.as_slice());
            proof {
                assert(answers.take(j + 1) =~= answers.take(j as int).push(answers[j as int]));
                lemma_answers_bytes_push(answers.take(j as int), answers[j as int]);
                assert(buf_bytes(r) =~= self.header.spec_bytes() + spec_questions_bytes(
                    questions,
                ) + spec_answers_bytes(answers.take(j + 1)));
            }
            j += 1;
        }
        assert(answers.take(j as int) =~= answers);
        buf_into_vec(r)
    }
}

impl TryFrom<Message> for Vec<u8> {
    type Error = DnsError;

    /// Writes the message as bytes. This never fails.
    fn try_from(message: Message) -> (r: Result<Vec<u8>, DnsError>)
        ensures
            r matches Ok(bytes) && bytes@ == message@.spec_bytes(),
    {
        Ok(message.to_bytes())
    }
}

impl TryFromSpecImpl<Message> for Vec<u8> {
    /// A vector is described by its view: see the `ensures` of `try_from`.
    open spec fn obeys_try_from_spec() -> bool {
        false
    }

    open spec fn try_from_spec(message: Message) -> Result<Vec<u8>, DnsError> {
        arbitrary()
    }
}

/// Each code that stands for a record type is read back as that type.
pub proof fn lemma_record_type_code_roundtrip(t: RecordType)
    ensures
        RecordType::spec_try_from_code(t.spec_code()) == Ok::<RecordType, DnsError>(t),
{
}

/// The code of the one record class is read back as that class.
pub proof fn lemma_record_class_code_roundtrip(c: RecordClass)
    ensures
        RecordClass::spec_try_from_code(c.spec_code()) == Ok::<RecordClass, DnsError>(c),
{
}

/// A well-formed opcode is read back from its own code.
pub proof fn lemma_opcode_code_roundtrip(opcode: OpCode)
    requires
        opcode.spec_wf(),
    ensures
        OpCode::spec_try_from_code(opcode.spec_code()) == Ok::<OpCode, DnsError>(opcode),
{
}

} // verus!
