//! The codec's error taxonomy. Every decode step propagates the first error
//! it meets: no partial message is ever returned.

use vstd::prelude::*;
use crate::bits::BitError;

verus! {

/// Why a decode failed.
#[derive(Debug, Clone, Copy, PartialEq, Eq, Structural)]
pub enum DnsError {
    /// The cursor would have read past the available bytes.
    EndOfBuffer,
    /// A single read asked for more than the 16-bit ceiling.
    InvalidFieldWidth,
    /// A wire value maps to no member of its closed enumeration.
    InvalidField,
}

impl DnsError {
    /// A short description of the error.
    pub fn describe(&self) -> (r: &'static str)
        ensures
            self is EndOfBuffer ==> r@ == "unexpected end of bytes"@,
            self is InvalidFieldWidth ==> r@ == "bit count is too big for the data type"@,
            self is InvalidField ==> r@ == "a field value maps to no known code"@,
    {
        match self {
            DnsError::EndOfBuffer => "unexpected end of bytes",
            DnsError::InvalidFieldWidth => "bit count is too big for the data type",
            DnsError::InvalidField => "a field value maps to no known code",
        }
    }
}

impl From<BitError> for DnsError {
    fn from(e: BitError) -> (r: DnsError) {
        match e {
            BitError::EndOfBytes => DnsError::EndOfBuffer,
            BitError::InvalidCountSize => DnsError::InvalidFieldWidth,
        }
    }
}

impl vstd::std_specs::convert::FromSpecImpl<BitError> for DnsError {
    open spec fn obeys_from_spec() -> bool {
        true
    }

    open spec fn from_spec(e: BitError) -> DnsError {
        match e {
            BitError::EndOfBytes => DnsError::EndOfBuffer,
            BitError::InvalidCountSize => DnsError::InvalidFieldWidth,
        }
    }
}

} // verus!
