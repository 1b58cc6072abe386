//! The question section: a name, a query type and a query class.

use vstd::prelude::*;

verus! {

/// A query class with its RFC-assigned wire code.
#[derive(Debug, Clone, Copy, PartialEq, Eq, Structural)]
pub enum QClass {
    /// The Internet, wire code 1.
    IN,
    /// CSNET (obsolete), wire code 2.
    CS,
    /// Chaos, wire code 3.
    CH,
    /// Hesiod, wire code 4.
    HS,
    /// No class, wire code 254.
    NoneClass,
    /// Any class, wire code 255.
    Any,
}

/// The query class for a wire code, if the code is one of the closed set.
pub open spec fn qclass_from_code(value: u16) -> Option<QClass> {
    match value {
        1u16 => Some(QClass::IN),
        2u16 => Some(QClass::CS),
        3u16 => Some(QClass::CH),
        4u16 => Some(QClass::HS),
        254u16 => Some(QClass::NoneClass),
        255u16 => Some(QClass::Any),
        _ => Option::None,
    }
}

impl TryFrom<u16> for QClass {
    type Error = &'static str;

    /// Maps a 16-bit wire value through the closed set {1..4, 254, 255}; any
    /// other value is rejected.
    fn try_from(value: u16) -> (r: Result<QClass, &'static str>) {
        match value {
            1u16 => Ok(QClass::IN),
            2u16 => Ok(QClass::CS),
            3u16 => Ok(QClass::CH),
            4u16 => Ok(QClass::HS),
            254u16 => Ok(QClass::NoneClass),
            255u16 => Ok(QClass::Any),
            _ => Err("unknown value for qclass"),
        }
    }
}

impl vstd::std_specs::convert::TryFromSpecImpl<u16> for QClass {
    open spec fn obeys_try_from_spec() -> bool {
        true
    }

    open spec fn try_from_spec(value: u16) -> Result<QClass, &'static str> {
        match qclass_from_code(value) {
            Some(c) => Ok(c),
            Option::None => Err("unknown value for qclass"),
        }
    }
}

/// A query type with its RFC-assigned wire code; the query-only codes 252 to
/// 255 come after the record types.
#[derive(Debug, Clone, Copy, PartialEq, Eq, Structural)]
pub enum QType {
    A,
    AAAA,
    NS,
    MD,
    MF,
    CNAME,
    SOA,
    MB,
    MG,
    MR,
    NULL,
    WKS,
    PTR,
    HINFO,
    MINFO,
    MX,
    TXT,
    AXFR,
    MAILB,
    MAILA,
    ALL,
}

/// The query type for a wire code, if the code is one of the closed set.
pub open spec fn qtype_from_code(value: u16) -> Option<QType> {
    match value {
        1u16 => Some(QType::A),
        2u16 => Some(QType::NS),
        3u16 => Some(QType::MD),
        4u16 => Some(QType::MF),
        5u16 => Some(QType::CNAME),
        6u16 => Some(QType::SOA),
        7u16 => Some(QType::MB),
        8u16 => Some(QType::MG),
        9u16 => Some(QType::MR),
        10u16 => Some(QType::NULL),
        11u16 => Some(QType::WKS),
        12u16 => Some(QType::PTR),
        13u16 => Some(QType::HINFO),
        14u16 => Some(QType::MINFO),
        15u16 => Some(QType::MX),
        16u16 => Some(QType::TXT),
        28u16 => Some(QType::AAAA),
        252u16 => Some(QType::AXFR),
        253u16 => Some(QType::MAILB),
        254u16 => Some(QType::MAILA),
        255u16 => Some(QType::ALL),
        _ => None,
    }
}

impl QType {
    /// Maps a 16-bit wire value through the closed set of query-type codes;
    /// `None` for any other value.
    pub fn from_u16(value: u16) -> (r: Option<QType>)
        ensures
            r == qtype_from_code(value),
    {
        match value {
            1u16 => Some(QType::A),
            2u16 => Some(QType::NS),
            3u16 => Some(QType::MD),
            4u16 => Some(QType::MF),
            5u16 => Some(QType::CNAME),
            6u16 => Some(QType::SOA),
            7u16 => Some(QType::MB),
            8u16 => Some(QType::MG),
            9u16 => Some(QType::MR),
            10u16 => Some(QType::NULL),
            11u16 => Some(QType::WKS),
            12u16 => Some(QType::PTR),
            13u16 => Some(QType::HINFO),
            14u16 => Some(QType::MINFO),
            15u16 => Some(QType::MX),
            16u16 => Some(QType::TXT),
            28u16 => Some(QType::AAAA),
            252u16 => Some(QType::AXFR),
            253u16 => Some(QType::MAILB),
            254u16 => Some(QType::MAILA),
            255u16 => Some(QType::ALL),
            _ => None,
        }
    }
}

/// One entry of the question section: a decompressed dotted-label name, a
/// query type and a query class.
#[derive(Debug, Clone)]
pub struct Question {
    pub qname: String,
    pub qtype: QType,
    pub qclass: QClass,
}

} // verus!
