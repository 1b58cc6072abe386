//! Resource records: a name, a record type and class, a time to live, and a
//! type-dependent rendered payload.

use vstd::prelude::*;

verus! {

/// A record class with its RFC-assigned wire code.
#[derive(Debug, Clone, Copy, PartialEq, Eq, Structural)]
pub enum Class {
    /// The Internet, wire code 1.
    IN,
    /// CSNET (obsolete), wire code 2.
    CS,
    /// Chaos, wire code 3.
    CH,
    /// Hesiod, wire code 4.
    HS,
}

/// The record class for a wire code, if the code is one of the closed set.
pub open spec fn class_from_code(value: u16) -> Option<Class> {
    match value {
        1u16 => Some(Class::IN),
        2u16 => Some(Class::CS),
        3u16 => Some(Class::CH),
        4u16 => Some(Class::HS),
        _ => None,
    }
}

impl Class {
    /// Maps a 16-bit wire value through the closed set {1..4}; `None` for
    /// any other value.
    pub fn from_u16(value: u16) -> (r: Option<Class>)
        ensures
            r == class_from_code(value),
    {
        match value {
            1u16 => Some(Class::IN),
            2u16 => Some(Class::CS),
            3u16 => Some(Class::CH),
            4u16 => Some(Class::HS),
            _ => None,
        }
    }
}

/// A record type with its RFC-assigned wire code.
#[derive(Debug, Clone, Copy, PartialEq, Eq, Structural)]
pub enum Type {
    A,
    AAAA,
    NS,
    MD,
    MF,
    CNAME,
    SOA,
    MB,
    MG,
    MR,
    NULL,
    WKS,
    PTR,
    HINFO,
    MINFO,
    MX,
    TXT,
}

/// The record type for a wire code, if the code is one of the closed set.
pub open spec fn type_from_code(value: u16) -> Option<Type> {
    match value {
        1u16 => Some(Type::A),
        2u16 => Some(Type::NS),
        3u16 => Some(Type::MD),
        4u16 => Some(Type::MF),
        5u16 => Some(Type::CNAME),
        6u16 => Some(Type::SOA),
        7u16 => Some(Type::MB),
        8u16 => Some(Type::MG),
        9u16 => Some(Type::MR),
        10u16 => Some(Type::NULL),
        11u16 => Some(Type::WKS),
        12u16 => Some(Type::PTR),
        13u16 => Some(Type::HINFO),
        14u16 => Some(Type::MINFO),
        15u16 => Some(Type::MX),
        16u16 => Some(Type::TXT),
        28u16 => Some(Type::AAAA),
        _ => None,
    }
}

impl Type {
    /// Maps a 16-bit wire value through the closed set of record-type codes;
    /// `None` for any other value.
    pub fn from_u16(value: u16) -> (r: Option<Type>)
        ensures
            r == type_from_code(value),
    {
        match value {
            1u16 => Some(Type::A),
            2u16 => Some(Type::NS),
            3u16 => Some(Type::MD),
            4u16 => Some(Type::MF),
            5u16 => Some(Type::CNAME),
            6u16 => Some(Type::SOA),
            7u16 => Some(Type::MB),
            8u16 => Some(Type::MG),
            9u16 => Some(Type::MR),
            10u16 => Some(Type::NULL),
            11u16 => Some(Type::WKS),
            12u16 => Some(Type::PTR),
            13u16 => Some(Type::HINFO),
            14u16 => Some(Type::MINFO),
            15u16 => Some(Type::MX),
            16u16 => Some(Type::TXT),
            28u16 => Some(Type::AAAA),
            _ => None,
        }
    }
}

/// One resource record: a decompressed dotted-label name, its type, class
/// and time to live, and the rendered payload — an address string for A and
/// AAAA, a decompressed name for CNAME, empty for unsupported types.
#[derive(Debug, Clone)]
pub struct Record {
    pub name: String,
    pub rtype: Type,
    pub class: Class,
    pub ttl: u32,
    pub rdata: String,
}

} // verus!
