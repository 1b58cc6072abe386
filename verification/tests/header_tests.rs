use dns_codec::bits::BitError;
use dns_codec::error::DnsError;
use dns_codec::header::Header;
use dns_codec::opcode::Opcode;
use dns_codec::rcode::RCode;

fn plain_header() -> Header {
    Header {
        id: 0,
        response: false,
        opcode: Opcode::Query,
        authoritive_answer: false,
        truncated: false,
        recursion_desired: false,
        recursion_available: false,
        authenticated_data: false,
        checking_disabled: false,
        rcode: RCode::NoError,
        question_count: 0,
        answer_count: 0,
        authority_count: 0,
        additional_resource_count: 0,
    }
}

#[test]
fn as_bytes_works() {
    let header = Header {
        id: 0,
        response: true,
        opcode: Opcode::Query,
        authenticated_data: false,
        checking_disabled: false,
        rcode: RCode::NoError,
        authoritive_answer: false,
        truncated: false,
        recursion_desired: false,
        recursion_available: false,
        question_count: 1,
        answer_count: 0,
        authority_count: 0,
        additional_resource_count: 0,
    };

    let bytes = header.as_bytes();

    for byte in bytes.iter() {
        println!("{byte:#b}");
    }

    assert_eq!(bytes, vec![0, 0, 0b10000000, 0, 0, 1, 0, 0, 0, 0, 0, 0]);
}

#[test]
fn header_round_trips() {
    let mut h = plain_header();
    h.id = 0xBEEF;
    h.response = true;
    h.opcode = Opcode::Status;
    h.truncated = true;
    h.recursion_desired = true;
    h.authenticated_data = true;
    h.rcode = RCode::Refused;
    h.question_count = 3;
    h.answer_count = 700;
    h.authority_count = 65535;
    h.additional_resource_count = 1;

    let bytes = h.as_bytes();
    let back = Header::from_bytes(&bytes).unwrap();
    assert_eq!(back, h);
}

#[test]
fn every_flag_round_trips_alone() {
    for which in 0..7 {
        let mut h = plain_header();
        match which {
            0 => h.response = true,
            1 => h.authoritive_answer = true,
            2 => h.truncated = true,
            3 => h.recursion_desired = true,
            4 => h.recursion_available = true,
            5 => h.authenticated_data = true,
            _ => h.checking_disabled = true,
        }
        let back = Header::from_bytes(&h.as_bytes()).unwrap();
        assert_eq!(back, h);
    }
}

#[test]
fn unknown_opcode_fails_with_invalid_field() {
    // Opcode bits 0b1111 in the high flags byte.
    let bytes = vec![0, 0, 0b01111000, 0, 0, 0, 0, 0, 0, 0, 0, 0];
    assert_eq!(Header::from_bytes(&bytes), Err(DnsError::InvalidField));
}

#[test]
fn unknown_rcode_fails_with_invalid_field() {
    // Rcode bits 0b1111 in the low flags byte.
    let bytes = vec![0, 0, 0, 0b00001111, 0, 0, 0, 0, 0, 0, 0, 0];
    assert_eq!(Header::from_bytes(&bytes), Err(DnsError::InvalidField));
}

#[test]
fn truncated_header_fails_with_end_of_buffer() {
    let bytes = vec![0u8; 11];
    assert_eq!(Header::from_bytes(&bytes), Err(DnsError::EndOfBuffer));
    let empty: Vec<u8> = vec![];
    assert_eq!(Header::from_bytes(&empty), Err(DnsError::EndOfBuffer));
}

#[test]
fn exactly_twelve_bytes_decode() {
    let bytes = vec![0u8; 12];
    let h = Header::from_bytes(&bytes).unwrap();
    assert_eq!(h, plain_header());
}

#[test]
fn error_kinds_describe_themselves() {
    assert_eq!(DnsError::EndOfBuffer.describe(), "unexpected end of bytes");
    assert_eq!(
        DnsError::InvalidFieldWidth.describe(),
        "bit count is too big for the data type"
    );
    assert_eq!(DnsError::InvalidField.describe(), "a field value maps to no known code");
}

#[test]
fn bit_errors_map_to_codec_errors() {
    assert_eq!(DnsError::from(BitError::EndOfBytes), DnsError::EndOfBuffer);
    assert_eq!(DnsError::from(BitError::InvalidCountSize), DnsError::InvalidFieldWidth);
}
