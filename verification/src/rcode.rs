//! The header's response status, carried as a 4-bit field.

use vstd::prelude::*;

verus! {

/// A DNS response status with its RFC-assigned wire code.
#[derive(Debug, Clone, Copy, PartialEq, Eq, Structural)]
pub enum RCode {
    /// No error, wire code 0.
    NoError,
    /// The server could not interpret the query, wire code 1.
    FormatError,
    /// The server failed internally, wire code 2.
    ServerFailure,
    /// The queried name does not exist, wire code 3.
    NameError,
    /// The query kind is not supported, wire code 4.
    NotImplemented,
    /// The server refused the query, wire code 5.
    Refused,
}

/// The response code for a wire code, if the code is one of the closed set.
pub open spec fn rcode_from_code(value: u8) -> Option<RCode> {
    match value {
        0u8 => Some(RCode::NoError),
        1u8 => Some(RCode::FormatError),
        2u8 => Some(RCode::ServerFailure),
        3u8 => Some(RCode::NameError),
        4u8 => Some(RCode::NotImplemented),
        5u8 => Some(RCode::Refused),
        _ => None,
    }
}

impl RCode {
    /// The RFC-assigned wire code of this response code.
    pub open spec fn spec_as_u8(self) -> u8 {
        match self {
            RCode::NoError => 0,
            RCode::FormatError => 1,
            RCode::ServerFailure => 2,
            RCode::NameError => 3,
            RCode::NotImplemented => 4,
            RCode::Refused => 5,
        }
    }

    #[verifier::when_used_as_spec(spec_as_u8)]
    pub fn as_u8(self) -> (r: u8)
        ensures
            r == self.spec_as_u8(),
    {
        match self {
            RCode::NoError => 0,
            RCode::FormatError => 1,
            RCode::ServerFailure => 2,
            RCode::NameError => 3,
            RCode::NotImplemented => 4,
            RCode::Refused => 5,
        }
    }

    /// Maps a 4-bit wire value through the closed set {0..5}; `None` for any
    /// other value.
    pub fn from_u8(value: u8) -> (r: Option<RCode>)
        ensures
            r == rcode_from_code(value),
    {
        match value {
            0u8 => Some(RCode::NoError),
            1u8 => Some(RCode::FormatError),
            2u8 => Some(RCode::ServerFailure),
            3u8 => Some(RCode::NameError),
            4u8 => Some(RCode::NotImplemented),
            5u8 => Some(RCode::Refused),
            _ => None,
        }
    }
}

} // verus!
