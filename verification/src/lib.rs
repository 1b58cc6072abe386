//! A binary wire-format codec for DNS messages (RFC 1035): a bit-precise
//! cursor over a byte buffer, field enumerations with their RFC-assigned
//! codes, header encode/decode, name decompression, and the question /
//! resource-record / message decoders built on top of them.

pub mod bits;
pub mod error;
pub mod header;
pub mod message;
pub mod name;
pub mod opcode;
pub mod question;
pub mod rand;
pub mod rcode;
pub mod record;
pub mod render;
