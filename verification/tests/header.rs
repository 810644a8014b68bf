use dns_core::error::DnsError;
use dns_core::types::{Header, OpCode, RCode, RecordClass, RecordType};

#[test]
fn new_reply_sets_only_qr_and_id() {
    let h = Header::new_reply(0x1234);
    assert_eq!(h.id, 0x1234);
    assert_eq!(h.flags, [0x80, 0x00]);
    assert_eq!(h.qdcount, 0);
    assert_eq!(h.ancount, 0);
    assert_eq!(h.nscount, 0);
    assert_eq!(h.arcount, 0);
    assert_eq!(h.get_opcode(), Ok(OpCode::Query));
    assert!(!h.get_rd());
}

#[test]
fn default_header_is_all_zero() {
    let h = Header::default();
    assert_eq!(h.id, 0);
    assert_eq!(h.flags, [0, 0]);
    assert_eq!((h.qdcount, h.ancount, h.nscount, h.arcount), (0, 0, 0, 0));
}

#[test]
fn opcode_is_read_from_bits_three_to_six() {
    let mut h = Header::default();
    h.flags = [0b0000_1000, 0];
    assert_eq!(h.get_opcode(), Ok(OpCode::IQuery));
    h.flags = [0b0001_0000, 0];
    assert_eq!(h.get_opcode(), Ok(OpCode::Status));
    h.flags = [0b0111_1000, 0xff];
    assert_eq!(h.get_opcode(), Ok(OpCode::Reserved(15)));
    h.flags = [0b1000_0111, 0xff];
    assert_eq!(h.get_opcode(), Ok(OpCode::Query));
}

#[test]
fn set_opcode_writes_the_field_and_nothing_else() {
    let mut h = Header::default();
    h.id = 7;
    h.flags = [0b1010_1101, 0b1011_0101];
    h.qdcount = 3;
    h.set_opcode(OpCode::Status);
    assert_eq!(h.flags, [0b1001_0101, 0b1011_0101]);
    assert_eq!(h.get_opcode(), Ok(OpCode::Status));
    assert_eq!(h.id, 7);
    assert_eq!(h.qdcount, 3);
    h.set_opcode(OpCode::Query);
    assert_eq!(h.flags, [0b1000_0101, 0b1011_0101]);
    h.set_opcode(OpCode::Reserved(9));
    assert_eq!(h.flags, [0b1100_1101, 0b1011_0101]);
    assert_eq!(h.get_opcode(), Ok(OpCode::Reserved(9)));
}

#[test]
fn set_opcode_on_every_first_byte_keeps_the_other_bits() {
    for b in 0..=255u8 {
        for code in 0..16u8 {
            let opcode = OpCode::try_from(code).unwrap();
            let mut h = Header::default();
            h.flags = [b, !b];
            h.set_opcode(opcode);
            assert_eq!(h.flags[0] & 0x87, b & 0x87);
            assert_eq!((h.flags[0] & 0x78) >> 3, code);
            assert_eq!(h.flags[1], !b);
            assert_eq!(h.get_opcode(), Ok(opcode));
        }
    }
}

#[test]
fn set_opcode_keeps_the_low_four_bits_of_a_wide_number() {
    let mut h = Header::default();
    h.set_opcode(OpCode::Reserved(200));
    assert_eq!(h.flags, [0b0100_0000, 0]);
    assert_eq!(h.get_opcode(), Ok(OpCode::Reserved(8)));
}

#[test]
fn set_rd_writes_one_bit() {
    let mut h = Header::default();
    h.flags = [0b1111_1110, 0xaa];
    h.set_rd(true);
    assert_eq!(h.flags, [0xff, 0xaa]);
    assert!(h.get_rd());
    h.set_rd(false);
    assert_eq!(h.flags, [0xfe, 0xaa]);
    assert!(!h.get_rd());
    h.set_rd(false);
    assert_eq!(h.flags, [0xfe, 0xaa]);
}

#[test]
fn set_rcode_writes_the_low_four_bits_of_the_second_byte() {
    let mut h = Header::default();
    h.flags = [0x55, 0b1111_1111];
    h.set_rcode(RCode::NotImplemented);
    assert_eq!(h.flags, [0x55, 0b1111_0100]);
    h.set_rcode(RCode::NoError);
    assert_eq!(h.flags, [0x55, 0b1111_0000]);
    h.set_rcode(RCode::Refused);
    assert_eq!(h.flags, [0x55, 0b1111_0101]);
}

#[test]
fn setters_do_not_disturb_each_other() {
    let mut h = Header::new_reply(1);
    h.set_opcode(OpCode::IQuery);
    h.set_rd(true);
    h.set_rcode(RCode::ServerFailure);
    assert_eq!(h.flags, [0b1000_1001, 0b0000_0010]);
    assert_eq!(h.get_opcode(), Ok(OpCode::IQuery));
    assert!(h.get_rd());
    h.set_rd(false);
    assert_eq!(h.get_opcode(), Ok(OpCode::IQuery));
    assert_eq!(h.flags, [0b1000_1000, 0b0000_0010]);
}

#[test]
fn opcode_codes() {
    assert_eq!(u8::from(OpCode::Query), 0);
    assert_eq!(u8::from(OpCode::IQuery), 1);
    assert_eq!(u8::from(OpCode::Status), 2);
    assert_eq!(u8::from(OpCode::Reserved(11)), 11);
    assert_eq!(OpCode::try_from(0), Ok(OpCode::Query));
    assert_eq!(OpCode::try_from(1), Ok(OpCode::IQuery));
    assert_eq!(OpCode::try_from(2), Ok(OpCode::Status));
    assert_eq!(OpCode::try_from(3), Ok(OpCode::Reserved(3)));
    assert_eq!(OpCode::try_from(15), Ok(OpCode::Reserved(15)));
    assert_eq!(OpCode::try_from(16), Err(DnsError::UnknownOpcode));
    assert_eq!(OpCode::try_from(255), Err(DnsError::UnknownOpcode));
}

#[test]
fn rcode_codes() {
    assert_eq!(u8::from(RCode::NoError), 0);
    assert_eq!(u8::from(RCode::FormatError), 1);
    assert_eq!(u8::from(RCode::ServerFailure), 2);
    assert_eq!(u8::from(RCode::NameError), 3);
    assert_eq!(u8::from(RCode::NotImplemented), 4);
    assert_eq!(u8::from(RCode::Refused), 5);
}

#[test]
fn record_type_and_class_codes() {
    assert_eq!(u16::from(RecordType::A), 1);
    assert_eq!(u16::from(RecordType::NS), 2);
    assert_eq!(u16::from(RecordType::Cname), 5);
    assert_eq!(u16::from(RecordType::MX), 15);
    assert_eq!(RecordType::try_from(1), Ok(RecordType::A));
    assert_eq!(RecordType::try_from(2), Ok(RecordType::NS));
    assert_eq!(RecordType::try_from(5), Ok(RecordType::Cname));
    assert_eq!(RecordType::try_from(15), Ok(RecordType::MX));
    assert_eq!(RecordType::try_from(0), Err(DnsError::UnknownRecordType));
    assert_eq!(RecordType::try_from(16), Err(DnsError::UnknownRecordType));
    assert_eq!(RecordType::try_from(28), Err(DnsError::UnknownRecordType));
    assert_eq!(u16::from(RecordClass::IN), 1);
    assert_eq!(RecordClass::try_from(1), Ok(RecordClass::IN));
    assert_eq!(RecordClass::try_from(0), Err(DnsError::UnknownRecordClass));
    assert_eq!(RecordClass::try_from(3), Err(DnsError::UnknownRecordClass));
    assert_eq!(RecordType::default(), RecordType::A);
    assert_eq!(RecordClass::default(), RecordClass::IN);
}

#[test]
fn header_is_written_big_endian() {
    let h = Header {
        id: 0x1234,
        flags: [0x81, 0x04],
        qdcount: 0x0102,
        ancount: 0x0304,
        nscount: 0x0506,
        arcount: 0xfffe,
    };
    let expected: [u8; 12] = [0x12, 0x34, 0x81, 0x04, 1, 2, 3, 4, 5, 6, 0xff, 0xfe];
    assert_eq!(h.to_bytes(), expected);
    let through_trait: Result<[u8; 12], DnsError> = h.try_into();
    assert_eq!(through_trait, Ok(expected));
}

#[test]
fn header_is_read_big_endian() {
    let bytes: [u8; 12] = [144, 155, 1, 0, 0, 2, 0, 0, 0, 0, 0, 0];
    let h = Header::try_from(bytes).unwrap();
    assert_eq!(h.id, 144 * 256 + 155);
    assert_eq!(h.flags, [1, 0]);
    assert_eq!(h.qdcount, 2);
    assert_eq!(h.ancount, 0);
    assert!(h.get_rd());
    assert_eq!(h.to_bytes(), bytes);
}

#[test]
fn header_with_a_reserved_opcode_passes_through() {
    let bytes: [u8; 12] = [0, 1, 0b0110_1000, 0, 0, 0, 0, 0, 0, 0, 0, 0];
    let h = Header::try_from(bytes).unwrap();
    assert_eq!(h.get_opcode(), Ok(OpCode::Reserved(13)));
    assert_eq!(h.to_bytes(), bytes);
}

#[test]
fn header_round_trip_on_many_values() {
    for id in [0u16, 1, 255, 256, 0x7fff, 0x8000, 0xffff] {
        for f in [0u8, 1, 0x78, 0x80, 0xff] {
            let h = Header { id, flags: [f, !f], qdcount: id ^ 0x55, ancount: 9, nscount: id, arcount: 1 };
            let back = Header::try_from(h.to_bytes()).unwrap();
            assert_eq!(back, h);
        }
    }
}

#[test]
fn header_clone_is_equal() {
    let h = Header { id: 5, flags: [1, 2], qdcount: 3, ancount: 4, nscount: 5, arcount: 6 };
    assert_eq!(h.clone(), h);
}
