use dns_codec::bits::BitReader;
use dns_codec::error::DnsError;
use dns_codec::message::Message;
use dns_codec::name::read_name;
use dns_codec::opcode::Opcode;
use dns_codec::question::{QClass, QType};
use dns_codec::rcode::RCode;
use dns_codec::record::{Class, Type};

#[test]
fn to_bytes_works() {}

/// A 12-byte header with the given section counts and everything else zero.
fn header_bytes(qd: u16, an: u16) -> Vec<u8> {
    let mut b = vec![0u8; 12];
    b[4] = (qd / 256) as u8;
    b[5] = (qd % 256) as u8;
    b[6] = (an / 256) as u8;
    b[7] = (an % 256) as u8;
    b
}

#[test]
fn name_decompression_matches_direct_decode() {
    // "example.com" as labels, then a second name that is only a pointer
    // back to the first.
    let mut data: Vec<u8> = vec![7];
    data.extend(b"example");
    data.push(3);
    data.extend(b"com");
    data.push(0);
    // Pointer: tag 11, six high bits 0, two skipped bits, six low bits 0.
    data.push(0xC0);
    data.push(0x00);

    let mut r = BitReader::from_bytes(&data);
    let first = read_name(&mut r).unwrap();
    assert_eq!(first, "example.com.");
    assert_eq!(r.get_pointer(), 13 * 8);

    let second = read_name(&mut r).unwrap();
    assert_eq!(second, "example.com.");
    assert_eq!(second, first);
    assert_eq!(r.get_pointer(), 15 * 8);
}

#[test]
fn self_pointing_name_terminates() {
    // A pointer to its own position runs the pass budget out and ends with
    // what was accumulated: nothing.
    let data = vec![0xC0, 0x00];
    let mut r = BitReader::from_bytes(&data);
    assert_eq!(read_name(&mut r).unwrap(), "");
}

#[test]
fn qtype_zero_fails_with_invalid_field() {
    let mut data = header_bytes(1, 0);
    data.push(0); // root name
    data.extend([0, 0]); // qtype 0: unmapped
    data.extend([0, 1]); // qclass IN
    assert!(matches!(Message::from_bytes(&data), Err(DnsError::InvalidField)));
}

#[test]
fn unknown_qclass_fails_with_invalid_field() {
    let mut data = header_bytes(1, 0);
    data.push(0);
    data.extend([0, 1]); // qtype A
    data.extend([0, 99]); // qclass 99: unmapped
    assert!(matches!(Message::from_bytes(&data), Err(DnsError::InvalidField)));
}

#[test]
fn short_buffer_fails_with_end_of_buffer() {
    let data = vec![0u8; 5];
    assert!(matches!(Message::from_bytes(&data), Err(DnsError::EndOfBuffer)));
}

#[test]
fn question_decodes() {
    let mut data = header_bytes(1, 0);
    data.push(3);
    data.extend(b"www");
    data.push(7);
    data.extend(b"example");
    data.push(3);
    data.extend(b"com");
    data.push(0);
    data.extend([0, 28]); // qtype AAAA
    data.extend([0, 255]); // qclass ANY
    let m = Message::from_bytes(&data).unwrap();
    assert_eq!(m.header.question_count, 1);
    assert_eq!(m.questions.len(), 1);
    assert_eq!(m.questions[0].qname, "www.example.com.");
    assert_eq!(m.questions[0].qtype, QType::AAAA);
    assert_eq!(m.questions[0].qclass, QClass::Any);
    assert!(m.answers.is_empty());
    assert!(m.authority.is_empty());
    assert!(m.additional.is_empty());
}

/// One answer record with the given type code and payload, under the root
/// name, class IN, TTL 60.
fn answer_bytes(type_code: u16, rdata: &[u8]) -> Vec<u8> {
    let mut data = header_bytes(0, 1);
    data.push(0); // root name
    data.extend([(type_code / 256) as u8, (type_code % 256) as u8]);
    data.extend([0, 1]); // class IN
    data.extend([0, 0, 0, 60]); // ttl
    data.extend([(rdata.len() / 256) as u8, (rdata.len() % 256) as u8]);
    data.extend(rdata);
    data
}

#[test]
fn a_record_renders_dotted_decimal() {
    let m = Message::from_bytes(&answer_bytes(1, &[1, 2, 3, 4])).unwrap();
    assert_eq!(m.answers.len(), 1);
    let rec = &m.answers[0];
    assert_eq!(rec.name, "");
    assert_eq!(rec.rtype, Type::A);
    assert_eq!(rec.class, Class::IN);
    assert_eq!(rec.ttl, 60);
    assert_eq!(rec.rdata, "1.2.3.4");
}

#[test]
fn a_record_renders_large_octets() {
    let m = Message::from_bytes(&answer_bytes(1, &[255, 0, 10, 200])).unwrap();
    assert_eq!(m.answers[0].rdata, "255.0.10.200");
}

#[test]
fn aaaa_record_renders_hex_groups() {
    let rdata = [
        0x20, 0x01, 0x0d, 0xb8, 0, 0, 0, 0, 0, 0, 0, 0, 0, 0, 0x00, 0x01,
    ];
    let m = Message::from_bytes(&answer_bytes(28, &rdata)).unwrap();
    assert_eq!(m.answers[0].rtype, Type::AAAA);
    assert_eq!(m.answers[0].rdata, "2001:db8:0:0:0:0:0:1");
}

#[test]
fn cname_record_holds_a_name() {
    let mut rdata: Vec<u8> = vec![3];
    rdata.extend(b"www");
    rdata.push(0);
    let m = Message::from_bytes(&answer_bytes(5, &rdata)).unwrap();
    assert_eq!(m.answers[0].rtype, Type::CNAME);
    assert_eq!(m.answers[0].rdata, "www.");
}

#[test]
fn unsupported_record_type_yields_empty_rdata() {
    // Type 16 is TXT: decoded, with an empty payload by design.
    let m = Message::from_bytes(&answer_bytes(16, &[])).unwrap();
    assert_eq!(m.answers[0].rtype, Type::TXT);
    assert_eq!(m.answers[0].rdata, "");
}

#[test]
fn unknown_record_type_fails_with_invalid_field() {
    assert!(matches!(
        Message::from_bytes(&answer_bytes(99, &[])),
        Err(DnsError::InvalidField)
    ));
}

#[test]
fn unknown_record_class_fails_with_invalid_field() {
    let mut data = header_bytes(0, 1);
    data.push(0);
    data.extend([0, 1]); // type A
    data.extend([0, 99]); // class 99: unmapped
    data.extend([0, 0, 0, 60]);
    data.extend([0, 4, 1, 2, 3, 4]);
    assert!(matches!(Message::from_bytes(&data), Err(DnsError::InvalidField)));
}

#[test]
fn truncated_record_fails_with_end_of_buffer() {
    // An A record whose payload is cut off.
    let mut data = header_bytes(0, 1);
    data.push(0);
    data.extend([0, 1]); // type A
    data.extend([0, 1]); // class IN
    data.extend([0, 0, 0, 60]);
    data.extend([0, 4, 1, 2]); // rdlength 4 but only 2 payload bytes
    assert!(matches!(Message::from_bytes(&data), Err(DnsError::EndOfBuffer)));
}

#[test]
fn query_builds_a_single_question_message() {
    let m = Message::query(String::from("example.com"), 0x1234);
    assert_eq!(m.header.id, 0x1234);
    assert!(m.header.response);
    assert_eq!(m.header.opcode, Opcode::Query);
    assert_eq!(m.header.rcode, RCode::NoError);
    assert_eq!(m.header.question_count, 1);
    assert_eq!(m.header.answer_count, 0);
    assert_eq!(m.header.authority_count, 0);
    assert_eq!(m.header.additional_resource_count, 0);
    assert_eq!(m.questions.len(), 1);
    assert_eq!(m.questions[0].qname, "example.com");
    assert_eq!(m.questions[0].qtype, QType::A);
    assert_eq!(m.questions[0].qclass, QClass::Any);
    assert!(m.answers.is_empty());
}

#[test]
fn message_as_bytes_is_the_header_encoding() {
    let m = Message::query(String::from("example.com"), 7);
    let bytes = m.as_bytes();
    assert_eq!(bytes, m.header.as_bytes());
    assert_eq!(bytes.len(), 12);
    // id 7, response bit set, one question.
    assert_eq!(bytes, vec![0, 7, 0b10000000, 0, 0, 1, 0, 0, 0, 0, 0, 0]);
}

#[test]
fn encode_name_splits_on_dots() {
    let bytes = dns_codec::name::encode_name("example.com");
    let mut expected: Vec<u8> = vec![7];
    expected.extend(b"example");
    expected.push(3);
    expected.extend(b"com");
    expected.push(0);
    assert_eq!(bytes, expected);
}

#[test]
fn encode_name_of_empty_name_is_one_zero_byte() {
    assert_eq!(dns_codec::name::encode_name(""), vec![0]);
}

#[test]
fn encoded_name_decodes_back_with_trailing_dot() {
    let bytes = dns_codec::name::encode_name("www.example.com");
    let mut r = BitReader::from_bytes(&bytes);
    assert_eq!(read_name(&mut r).unwrap(), "www.example.com.");
}
