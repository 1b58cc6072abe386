//! The fixed 12-byte DNS message header: a 16-bit id, two bytes of
//! bit-packed flags, and the four section counts, each 16 bits big-endian.
//!
//! Wire layout (RFC 1035 §4.1.1):
//!
//! ```text
//!  0  1  2  3  4  5  6  7  8  9  0  1  2  3  4  5
//! +--+--+--+--+--+--+--+--+--+--+--+--+--+--+--+--+
//! |                      ID                       |
//! +--+--+--+--+--+--+--+--+--+--+--+--+--+--+--+--+
//! |QR|   Opcode  |AA|TC|RD|RA| Z|AD|CD|   RCODE   |
//! +--+--+--+--+--+--+--+--+--+--+--+--+--+--+--+--+
//! |                    QDCOUNT                    |
//! +--+--+--+--+--+--+--+--+--+--+--+--+--+--+--+--+
//! |                    ANCOUNT                    |
//! +--+--+--+--+--+--+--+--+--+--+--+--+--+--+--+--+
//! |                    NSCOUNT                    |
//! +--+--+--+--+--+--+--+--+--+--+--+--+--+--+--+--+
//! |                    ARCOUNT                    |
//! +--+--+--+--+--+--+--+--+--+--+--+--+--+--+--+--+
//! ```

use vstd::prelude::*;
use crate::bits::{
    BitReader, bit_at, bits_value, lemma_bit_at_byte, lemma_bit_below_two,
    lemma_bits_value_below_256, lemma_bits_value_two_bytes,
};
use crate::error::DnsError;
use crate::opcode::{Opcode, opcode_from_code};
use crate::rcode::{RCode, rcode_from_code};

verus! {

/// A DNS message header.
#[derive(Debug, Clone, Copy, PartialEq, Eq, Structural)]
pub struct Header {
    pub id: u16,
    /// False for a query, true for a response.
    pub response: bool,
    pub opcode: Opcode,
    pub authoritive_answer: bool,
    pub truncated: bool,
    pub recursion_desired: bool,
    pub recursion_available: bool,
    pub authenticated_data: bool,
    pub checking_disabled: bool,
    pub rcode: RCode,
    pub question_count: u16,
    pub answer_count: u16,
    pub authority_count: u16,
    pub additional_resource_count: u16,
}

/// A flag as its wire bit.
pub open spec fn flag(b: bool) -> u8 {
    if b {
        1
    } else {
        0
    }
}

/// The byte holding QR, the opcode and the AA, TC and RD flags.
pub open spec fn flags_high(h: Header) -> u8 {
    (128 * flag(h.response) + 8 * h.opcode.spec_as_u8() + 4 * flag(h.authoritive_answer) + 2 * flag(
        h.truncated,
    ) + flag(h.recursion_desired)) as u8
}

/// The byte holding RA, the zero reserved bit, AD, CD and the rcode.
pub open spec fn flags_low(h: Header) -> u8 {
    (128 * flag(h.recursion_available) + 32 * flag(h.authenticated_data) + 16 * flag(
        h.checking_disabled,
    ) + h.rcode.spec_as_u8()) as u8
}

pub open spec fn high_byte(x: u16) -> u8 {
    (x / 256) as u8
}

pub open spec fn low_byte(x: u16) -> u8 {
    (x % 256) as u8
}

/// The 12-byte wire form of a header.
pub open spec fn header_bytes(h: Header) -> Seq<u8> {
    seq![
        high_byte(h.id),
        low_byte(h.id),
        flags_high(h),
        flags_low(h),
        high_byte(h.question_count),
        low_byte(h.question_count),
        high_byte(h.answer_count),
        low_byte(h.answer_count),
        high_byte(h.authority_count),
        low_byte(h.authority_count),
        high_byte(h.additional_resource_count),
        low_byte(h.additional_resource_count),
    ]
}

/// The header whose fields stand in the first 12 bytes of `b`; meaningful
/// when `parse_header(b)` succeeds.
pub open spec fn header_from_bits(b: Seq<u8>) -> Header {
    Header {
        id: bits_value(b, 0, 16) as u16,
        response: bit_at(b, 16),
        opcode: opcode_from_code(bits_value(b, 17, 4) as u8).unwrap(),
        authoritive_answer: bit_at(b, 21),
        truncated: bit_at(b, 22),
        recursion_desired: bit_at(b, 23),
        recursion_available: bit_at(b, 24),
        authenticated_data: bit_at(b, 26),
        checking_disabled: bit_at(b, 27),
        rcode: rcode_from_code(bits_value(b, 28, 4) as u8).unwrap(),
        question_count: bits_value(b, 32, 16) as u16,
        answer_count: bits_value(b, 48, 16) as u16,
        authority_count: bits_value(b, 64, 16) as u16,
        additional_resource_count: bits_value(b, 80, 16) as u16,
    }
}

/// What decoding a header from `b` returns: the fields are read in wire
/// order, so a buffer too short for the flag bytes fails before the opcode
/// or rcode can be judged, and an unmapped opcode or rcode fails before the
/// counts are reached.
pub open spec fn parse_header(b: Seq<u8>) -> Result<Header, DnsError> {
    if b.len() < 3 {
        Err(DnsError::EndOfBuffer)
    } else if opcode_from_code(bits_value(b, 17, 4) as u8) is None {
        Err(DnsError::InvalidField)
    } else if b.len() < 4 {
        Err(DnsError::EndOfBuffer)
    } else if rcode_from_code(bits_value(b, 28, 4) as u8) is None {
        Err(DnsError::InvalidField)
    } else if b.len() < 12 {
        Err(DnsError::EndOfBuffer)
    } else {
        Ok(header_from_bits(b))
    }
}

proof fn lemma_flags_high_unpack(x: u8, q: u8, o: u8, a: u8, t: u8, r: u8)
    by (bit_vector)
    requires
        q < 2,
        a < 2,
        t < 2,
        r < 2,
        o < 8,
        x == 128 * q + 8 * o + 4 * a + 2 * t + r,
    ensures
        (x >> 7u8) & 1 == q,
        8 * ((x >> 6u8) & 1) + 4 * ((x >> 5u8) & 1) + 2 * ((x >> 4u8) & 1) + ((x >> 3u8) & 1) == o,
        (x >> 2u8) & 1 == a,
        (x >> 1u8) & 1 == t,
        (x >> 0u8) & 1 == r,
{
}

proof fn lemma_flags_low_unpack(x: u8, ra: u8, ad: u8, cd: u8, rc: u8)
    by (bit_vector)
    requires
        ra < 2,
        ad < 2,
        cd < 2,
        rc < 16,
        x == 128 * ra + 32 * ad + 16 * cd + rc,
    ensures
        (x >> 7u8) & 1 == ra,
        (x >> 5u8) & 1 == ad,
        (x >> 4u8) & 1 == cd,
        8 * ((x >> 3u8) & 1) + 4 * ((x >> 2u8) & 1) + 2 * ((x >> 1u8) & 1) + ((x >> 0u8) & 1) == rc,
{
}

/// A big-endian pair of bytes carries its 16-bit value back.
proof fn lemma_u16_bytes_round_trip(b: Seq<u8>, k: int, x: u16)
    requires
        b[k] == high_byte(x),
        b[k + 1] == low_byte(x),
    ensures
        bits_value(b, 8 * k, 16) == x,
{
    lemma_bits_value_two_bytes(b, k);
    vstd::arithmetic::div_mod::lemma_fundamental_div_mod(x as int, 256);
}

/// The four bits of a sub-byte field carry its value back: bits `j` to
/// `j + 3` of byte `k` hold `o` when the byte was packed so that
/// `o` sits at those positions.
proof fn lemma_nibble_value(b: Seq<u8>, k: int, j: int)
    requires
        1 <= j,
        j + 4 <= 8,
    ensures
        bits_value(b, 8 * k + j, 4) == 8 * ((b[k] >> ((7 - j) as u8)) & 1) + 4 * ((b[k] >> ((6
            - j) as u8)) & 1) + 2 * ((b[k] >> ((5 - j) as u8)) & 1) + ((b[k] >> ((4 - j) as u8))
            & 1),
{
    reveal_with_fuel(bits_value, 5);
    lemma_bit_at_byte(b, k, j);
    lemma_bit_at_byte(b, k, j + 1);
    lemma_bit_at_byte(b, k, j + 2);
    lemma_bit_at_byte(b, k, j + 3);
    lemma_bit_below_two(b[k], (7 - j) as u8);
    lemma_bit_below_two(b[k], (6 - j) as u8);
    lemma_bit_below_two(b[k], (5 - j) as u8);
    lemma_bit_below_two(b[k], (4 - j) as u8);
}

/// Round trip: decoding the 12 bytes of an encoded header gives the header
/// back, for every header — every opcode and rcode a `Header` can hold lies
/// in the closed sets the decoder accepts.
pub proof fn lemma_header_round_trip(h: Header)
    ensures
        parse_header(header_bytes(h)) == Ok::<Header, DnsError>(h),
{
    let b = header_bytes(h);
    assert(b.len() == 12);

    lemma_u16_bytes_round_trip(b, 0, h.id);
    lemma_u16_bytes_round_trip(b, 4, h.question_count);
    lemma_u16_bytes_round_trip(b, 6, h.answer_count);
    lemma_u16_bytes_round_trip(b, 8, h.authority_count);
    lemma_u16_bytes_round_trip(b, 10, h.additional_resource_count);

    let hi = b[2];
    assert(h.opcode.spec_as_u8() < 8);
    lemma_flags_high_unpack(
        hi,
        flag(h.response),
        h.opcode.spec_as_u8(),
        flag(h.authoritive_answer),
        flag(h.truncated),
        flag(h.recursion_desired),
    );
    lemma_bit_at_byte(b, 2, 0);
    lemma_bit_at_byte(b, 2, 5);
    lemma_bit_at_byte(b, 2, 6);
    lemma_bit_at_byte(b, 2, 7);
    lemma_nibble_value(b, 2, 1);
    assert(bits_value(b, 17, 4) == h.opcode.spec_as_u8());
    assert(opcode_from_code(bits_value(b, 17, 4) as u8) == Some(h.opcode));

    let lo = b[3];
    assert(h.rcode.spec_as_u8() < 16);
    lemma_flags_low_unpack(
        lo,
        flag(h.recursion_available),
        flag(h.authenticated_data),
        flag(h.checking_disabled),
        h.rcode.spec_as_u8(),
    );
    lemma_bit_at_byte(b, 3, 0);
    lemma_bit_at_byte(b, 3, 2);
    lemma_bit_at_byte(b, 3, 3);
    lemma_nibble_value(b, 3, 4);
    assert(bits_value(b, 28, 4) == h.rcode.spec_as_u8());
    assert(rcode_from_code(bits_value(b, 28, 4) as u8) == Some(h.rcode));

    assert(header_from_bits(b) == h);
}

impl Header {
    /// The 12 bytes of this header in big-endian wire order.
    #[verifier::rlimit(60)]
    pub fn as_bytes(&self) -> (r: Vec<u8>)
        ensures
            r@ == header_bytes(*self),
    {
        proof {
            assert(self.opcode.spec_as_u8() <= 2);
            assert(self.rcode.spec_as_u8() <= 5);
        }
        let mut bytes: Vec<u8> = Vec::new();
        bytes.push((self.id / 256) as u8);
        bytes.push((self.id % 256) as u8);
        let mut byte: u8 = 0;
        if self.response {
            byte = 128;
        }
        byte = byte + self.opcode.as_u8() * 8;
        if self.authoritive_answer {
            byte = byte + 4;
        }
        if self.truncated {
            byte = byte + 2;
        }
        if self.recursion_desired {
            byte = byte + 1;
        }
        bytes.push(byte);
        byte = 0;
        if self.recursion_available {
            byte = 128;
        }
        if self.authenticated_data {
            byte = byte + 32;
        }
        if self.checking_disabled {
            byte = byte + 16;
        }
        byte = byte + self.rcode.as_u8();
        bytes.push(byte);
        bytes.push((self.question_count / 256) as u8);
        bytes.push((self.question_count % 256) as u8);
        bytes.push((self.answer_count / 256) as u8);
        bytes.push((self.answer_count % 256) as u8);
        bytes.push((self.authority_count / 256) as u8);
        bytes.push((self.authority_count % 256) as u8);
        bytes.push((self.additional_resource_count / 256) as u8);
        bytes.push((self.additional_resource_count % 256) as u8);
        proof {
            assert(bytes@ =~= header_bytes(*self));
        }
        bytes
    }

    /// Decodes a header from the first 12 bytes of `bytes`, reading the
    /// fields in wire order.
    pub fn from_bytes(bytes: &[u8]) -> (r: Result<Header, DnsError>)
        requires
            bytes@.len() < usize::MAX as nat / 8,
        ensures
            r == parse_header(bytes@),
    {
        let mut bit_reader = BitReader::from_bytes(bytes);

        let id = match bit_reader.next_u16(16) {
            Ok(v) => v,
            Err(e) => { return Err(DnsError::from(e)) },
        };
        let response = match bit_reader.next_bit() {
            Ok(v) => v,
            Err(e) => { return Err(DnsError::from(e)) },
        };

        let opcode_value = match bit_reader.next_u8(4) {
            Ok(v) => v,
            Err(e) => { return Err(DnsError::from(e)) },
        };
        proof {
            lemma_bits_value_below_256(bytes@, 17, 4);
        }
        let opcode = match Opcode::try_from(opcode_value) {
            Ok(o) => o,
            Err(_) => { return Err(DnsError::InvalidField) },
        };

        let authoritive_answer = match bit_reader.next_bit() {
            Ok(v) => v,
            Err(e) => { return Err(DnsError::from(e)) },
        };
        let truncated = match bit_reader.next_bit() {
            Ok(v) => v,
            Err(e) => { return Err(DnsError::from(e)) },
        };
        let recursion_desired = match bit_reader.next_bit() {
            Ok(v) => v,
            Err(e) => { return Err(DnsError::from(e)) },
        };
        let recursion_available = match bit_reader.next_bit() {
            Ok(v) => v,
            Err(e) => { return Err(DnsError::from(e)) },
        };

        bit_reader.skip(1);

        let authenticated_data = match bit_reader.next_bit() {
            Ok(v) => v,
            Err(e) => { return Err(DnsError::from(e)) },
        };
        let checking_disabled = match bit_reader.next_bit() {
            Ok(v) => v,
            Err(e) => { return Err(DnsError::from(e)) },
        };

        let rcode_value = match bit_reader.next_u8(4) {
            Ok(v) => v,
            Err(e) => { return Err(DnsError::from(e)) },
        };
        proof {
            lemma_bits_value_below_256(bytes@, 28, 4);
        }
        let rcode = match RCode::from_u8(rcode_value) {
            Some(c) => c,
            None => { return Err(DnsError::InvalidField) },
        };

        let question_count = match bit_reader.next_u16(16) {
            Ok(v) => v,
            Err(e) => { return Err(DnsError::from(e)) },
        };
        let answer_count = match bit_reader.next_u16(16) {
            Ok(v) => v,
            Err(e) => { return Err(DnsError::from(e)) },
        };
        let authority_count = match bit_reader.next_u16(16) {
            Ok(v) => v,
            Err(e) => { return Err(DnsError::from(e)) },
        };
        let additional_resource_count = match bit_reader.next_u16(16) {
            Ok(v) => v,
            Err(e) => { return Err(DnsError::from(e)) },
        };

        Ok(
            Header {
                id,
                response,
                opcode,
                authoritive_answer,
                truncated,
                recursion_desired,
                recursion_available,
                authenticated_data,
                checking_disabled,
                rcode,
                question_count,
                answer_count,
                authority_count,
                additional_resource_count,
            },
        )
    }
}

} // verus!
