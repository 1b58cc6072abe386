//! The header's operation kind, carried as a 4-bit field.

use vstd::prelude::*;

verus! {

/// A DNS operation kind with its RFC-assigned wire code.
#[derive(Debug, Clone, Copy, PartialEq, Eq, Structural)]
pub enum Opcode {
    /// A standard query, wire code 0.
    Query,
    /// An inverse query, wire code 1.
    IQuery,
    /// A server status request, wire code 2.
    Status,
}

/// The opcode for a wire code, if the code is one of the closed set.
pub open spec fn opcode_from_code(value: u8) -> Option<Opcode> {
    match value {
        0u8 => Some(Opcode::Query),
        1u8 => Some(Opcode::IQuery),
        2u8 => Some(Opcode::Status),
        _ => None,
    }
}

impl Opcode {
    /// The RFC-assigned wire code of this opcode.
    pub open spec fn spec_as_u8(self) -> u8 {
        match self {
            Opcode::Query => 0,
            Opcode::IQuery => 1,
            Opcode::Status => 2,
        }
    }

    #[verifier::when_used_as_spec(spec_as_u8)]
    pub fn as_u8(self) -> (r: u8)
        ensures
            r == self.spec_as_u8(),
    {
        match self {
            Opcode::Query => 0,
            Opcode::IQuery => 1,
            Opcode::Status => 2,
        }
    }
}

impl TryFrom<u8> for Opcode {
    type Error = &'static str;

    /// Maps a 4-bit wire value through the closed set {0, 1, 2}; any other
    /// value is rejected.
    fn try_from(value: u8) -> (r: Result<Opcode, &'static str>) {
        match value {
            0u8 => Ok(Opcode::Query),
            1u8 => Ok(Opcode::IQuery),
            2u8 => Ok(Opcode::Status),
            _ => Err("unknown value for opcode"),
        }
    }
}

impl vstd::std_specs::convert::TryFromSpecImpl<u8> for Opcode {
    open spec fn obeys_try_from_spec() -> bool {
        true
    }

    open spec fn try_from_spec(value: u8) -> Result<Opcode, &'static str> {
        match opcode_from_code(value) {
            Some(o) => Ok(o),
            None => Err("unknown value for opcode"),
        }
    }
}

} // verus!
