//! The top-level message aggregate: a header, then the question, answer,
//! authority and additional sections, decoded from one buffer through a
//! shared cursor positioned after the header.

use vstd::prelude::*;
use crate::bits::{BitReader, bits_value, lemma_bits_value_split, pow2n, lemma_bits_value_bound};
use crate::error::DnsError;
use crate::header::{Header, parse_header};
use crate::name::{NAME_PASS_CEILING, read_name, spec_read_name};
use crate::opcode::Opcode;
use crate::question::{QClass, QType, Question, qclass_from_code, qtype_from_code};
use crate::rcode::RCode;
use crate::record::{Class, Record, Type, class_from_code, type_from_code};
use crate::render::{ipv4_chars, ipv6_chars, render_ipv4, push_hex};

verus! {

/// The mathematical content of a decoded question.
pub ghost struct SpecQuestion {
    pub qname: Seq<char>,
    pub qtype: QType,
    pub qclass: QClass,
}

/// The mathematical content of a decoded resource record.
pub ghost struct SpecRecord {
    pub name: Seq<char>,
    pub rtype: Type,
    pub class: Class,
    pub ttl: u32,
    pub rdata: Seq<char>,
}

/// A decoded question carries exactly the content of its model.
pub open spec fn question_matches(q: Question, s: SpecQuestion) -> bool {
    &&& q.qname@ == s.qname
    &&& q.qtype == s.qtype
    &&& q.qclass == s.qclass
}

/// A decoded record carries exactly the content of its model.
pub open spec fn record_matches(r: Record, s: SpecRecord) -> bool {
    &&& r.name@ == s.name
    &&& r.rtype == s.rtype
    &&& r.class == s.class
    &&& r.ttl == s.ttl
    &&& r.rdata@ == s.rdata
}

pub open spec fn questions_match(v: Seq<Question>, s: Seq<SpecQuestion>) -> bool {
    &&& v.len() == s.len()
    &&& forall|i: int| 0 <= i < v.len() ==> #[trigger] question_matches(v[i], s[i])
}

pub open spec fn records_match(v: Seq<Record>, s: Seq<SpecRecord>) -> bool {
    &&& v.len() == s.len()
    &&& forall|i: int| 0 <= i < v.len() ==> #[trigger] record_matches(v[i], s[i])
}

/// What decoding a question at bit `pos` returns: a name, then a 16-bit
/// query type and a 16-bit query class, each mapped through its closed set.
pub open spec fn spec_read_question(b: Seq<u8>, pos: int) -> Result<(SpecQuestion, int), DnsError> {
    match spec_read_name(b, pos, NAME_PASS_CEILING as nat) {
        Err(e) => Err(e),
        Ok(np) => {
            if np.1 + 16 > 8 * b.len() {
                Err(DnsError::EndOfBuffer)
            } else {
                match qtype_from_code(bits_value(b, np.1, 16) as u16) {
                    None => Err(DnsError::InvalidField),
                    Some(t) => {
                        if np.1 + 32 > 8 * b.len() {
                            Err(DnsError::EndOfBuffer)
                        } else {
                            match qclass_from_code(bits_value(b, np.1 + 16, 16) as u16) {
                                None => Err(DnsError::InvalidField),
                                Some(c) => Ok(
                                    (SpecQuestion { qname: np.0, qtype: t, qclass: c }, np.1 + 32),
                                ),
                            }
                        }
                    },
                }
            }
        },
    }
}

/// The eight 16-bit groups of an IPv6 payload starting at bit `pos`.
pub open spec fn ipv6_groups(b: Seq<u8>, pos: int) -> Seq<u16> {
    Seq::new(8, |i: int| bits_value(b, pos + 16 * i, 16) as u16)
}

/// What decoding a resource record at bit `pos` returns: a name; a 16-bit
/// type and class, each mapped through its closed set; a 32-bit time to
/// live; a 16-bit payload length (read, not otherwise used); then the
/// payload itself — an IPv6 address string for AAAA, an IPv4 address string
/// for A, a nested name for CNAME, the empty string for any other type.
pub open spec fn spec_read_record(b: Seq<u8>, pos: int) -> Result<(SpecRecord, int), DnsError> {
    match spec_read_name(b, pos, NAME_PASS_CEILING as nat) {
        Err(e) => Err(e),
        Ok(np) => {
            let p = np.1;
            if p + 16 > 8 * b.len() {
                Err(DnsError::EndOfBuffer)
            } else {
                match type_from_code(bits_value(b, p, 16) as u16) {
                    None => Err(DnsError::InvalidField),
                    Some(t) => {
                        if p + 32 > 8 * b.len() {
                            Err(DnsError::EndOfBuffer)
                        } else {
                            match class_from_code(bits_value(b, p + 16, 16) as u16) {
                                None => Err(DnsError::InvalidField),
                                Some(c) => {
                                    if p + 64 > 8 * b.len() {
                                        Err(DnsError::EndOfBuffer)
                                    } else if p + 80 > 8 * b.len() {
                                        Err(DnsError::EndOfBuffer)
                                    } else {
                                        let ttl = bits_value(b, p + 32, 32) as u32;
                                        spec_read_rdata(b, p + 80, np.0, t, c, ttl)
                                    }
                                },
                            }
                        }
                    },
                }
            }
        },
    }
}

/// The payload of a record of type `t` at bit `pos`, appended to the fields
/// already read.
pub open spec fn spec_read_rdata(
    b: Seq<u8>,
    pos: int,
    name: Seq<char>,
    t: Type,
    c: Class,
    ttl: u32,
) -> Result<(SpecRecord, int), DnsError> {
    match t {
        Type::AAAA => {
            if pos + 128 > 8 * b.len() {
                Err(DnsError::EndOfBuffer)
            } else {
                Ok(
                    (
                        SpecRecord {
                            name,
                            rtype: t,
                            class: c,
                            ttl,
                            rdata: ipv6_chars(ipv6_groups(b, pos)),
                        },
                        pos + 128,
                    ),
                )
            }
        },
        Type::A => {
            if pos + 32 > 8 * b.len() {
                Err(DnsError::EndOfBuffer)
            } else {
                Ok(
                    (
                        SpecRecord {
                            name,
                            rtype: t,
                            class: c,
                            ttl,
                            rdata: ipv4_chars(bits_value(b, pos, 32) as u32),
                        },
                        pos + 32,
                    ),
                )
            }
        },
        Type::CNAME => match spec_read_name(b, pos, NAME_PASS_CEILING as nat) {
            Err(e) => Err(e),
            Ok(np2) => Ok(
                (SpecRecord { name, rtype: t, class: c, ttl, rdata: np2.0 }, np2.1),
            ),
        },
        _ => Ok((SpecRecord { name, rtype: t, class: c, ttl, rdata: Seq::empty() }, pos)),
    }
}

/// A 32-bit field read as two 16-bit halves, high half first.
proof fn lemma_bits_value_u32(b: Seq<u8>, pos: int)
    ensures
        bits_value(b, pos, 32) == bits_value(b, pos, 16) * 0x10000 + bits_value(b, pos + 16, 16),
{
    lemma_bits_value_split(b, pos, 16, 16);
    assert(pow2n(16) == 0x10000) by {
        reveal_with_fuel(pow2n, 17);
    }
}

/// Reads a 32-bit value at the cursor as two 16-bit reads, high half first.
fn read_u32(r: &mut BitReader<'_>) -> (res: Result<u32, DnsError>)
    requires
        old(r).wf(),
    ensures
        final(r).wf(),
        final(r).spec_bytes() == old(r).spec_bytes(),
        old(r).can_read(32) ==> {
            &&& res matches Ok(v) && v as nat == bits_value(
                old(r).spec_bytes(),
                old(r).spec_pointer() as int,
                32,
            )
            &&& final(r).spec_pointer() == old(r).spec_pointer() + 32
        },
        !old(r).can_read(32) ==> res == Err::<u32, DnsError>(DnsError::EndOfBuffer),
{
    let hi = match r.next_u16(16) {
        Ok(v) => v,
        Err(e) => { return Err(DnsError::from(e)) },
    };
    let lo = match r.next_u16(16) {
        Ok(v) => v,
        Err(e) => { return Err(DnsError::from(e)) },
    };
    proof {
        lemma_bits_value_u32(old(r).spec_bytes(), old(r).spec_pointer() as int);
        lemma_bits_value_bound(old(r).spec_bytes(), old(r).spec_pointer() as int, 16);
    }
    Ok((hi as u32) * 0x10000 + (lo as u32))
}

/// Decodes one resource record at the cursor (RFC 1035 §4.1.3). The payload
/// length field is read but the payload is decoded by type, as the record
/// types this codec renders are fixed-width or name-shaped.
pub fn read_record(r: &mut BitReader<'_>) -> (res: Result<Record, DnsError>)
    requires
        old(r).wf(),
    ensures
        final(r).wf(),
        final(r).spec_bytes() == old(r).spec_bytes(),
        match spec_read_record(old(r).spec_bytes(), old(r).spec_pointer() as int) {
            Ok(rp) => res matches Ok(rec) && record_matches(rec, rp.0)
                && final(r).spec_pointer() as int == rp.1,
            Err(e) => res == Err::<Record, DnsError>(e),
        },
{
    let ghost b = old(r).spec_bytes();

    let name = match read_name(r) {
        Ok(v) => v,
        Err(e) => { return Err(e) },
    };
    let type_value = match r.next_u16(16) {
        Ok(v) => v,
        Err(e) => { return Err(DnsError::from(e)) },
    };
    let rtype = match Type::from_u16(type_value) {
        Some(t) => t,
        None => { return Err(DnsError::InvalidField) },
    };
    let class_value = match r.next_u16(16) {
        Ok(v) => v,
        Err(e) => { return Err(DnsError::from(e)) },
    };
    let class = match Class::from_u16(class_value) {
        Some(c) => c,
        None => { return Err(DnsError::InvalidField) },
    };
    let ttl = match read_u32(r) {
        Ok(v) => v,
        Err(e) => { return Err(e) },
    };
    let _rdlength = match r.next_u16(16) {
        Ok(v) => v,
        Err(e) => { return Err(DnsError::from(e)) },
    };

    let rdata = match rtype {
        Type::AAAA => {
            match read_ipv6_rdata(r) {
                Ok(v) => v,
                Err(e) => { return Err(e) },
            }
        },
        Type::A => {
            let c = match read_u32(r) {
                Ok(v) => v,
                Err(e) => { return Err(e) },
            };
            render_ipv4(c)
        },
        Type::CNAME => {
            match read_name(r) {
                Ok(v) => v,
                Err(e) => { return Err(e) },
            }
        },
        _ => String::new(),
    };

    Ok(Record { name, rtype, class, ttl, rdata })
}

/// Reads the 128-bit payload of an AAAA record as eight 16-bit groups and
/// renders them as an IPv6 address string.
#[verifier::rlimit(100)]
fn read_ipv6_rdata(r: &mut BitReader<'_>) -> (res: Result<String, DnsError>)
    requires
        old(r).wf(),
    ensures
        final(r).wf(),
        final(r).spec_bytes() == old(r).spec_bytes(),
        old(r).can_read(128) ==> {
            &&& res matches Ok(v) && v@ == ipv6_chars(
                ipv6_groups(old(r).spec_bytes(), old(r).spec_pointer() as int),
            )
            &&& final(r).spec_pointer() == old(r).spec_pointer() + 128
        },
        !old(r).can_read(128) ==> res == Err::<String, DnsError>(DnsError::EndOfBuffer),
{
    let ghost b = old(r).spec_bytes();
    let ghost pos = old(r).spec_pointer() as int;
    let g0 = match r.next_u16(16) {
        Ok(v) => v,
        Err(e) => { return Err(DnsError::from(e)) },
    };
    let g1 = match r.next_u16(16) {
        Ok(v) => v,
        Err(e) => { return Err(DnsError::from(e)) },
    };
    let g2 = match r.next_u16(16) {
        Ok(v) => v,
        Err(e) => { return Err(DnsError::from(e)) },
    };
    let g3 = match r.next_u16(16) {
        Ok(v) => v,
        Err(e) => { return Err(DnsError::from(e)) },
    };
    let g4 = match r.next_u16(16) {
        Ok(v) => v,
        Err(e) => { return Err(DnsError::from(e)) },
    };
    let g5 = match r.next_u16(16) {
        Ok(v) => v,
        Err(e) => { return Err(DnsError::from(e)) },
    };
    let g6 = match r.next_u16(16) {
        Ok(v) => v,
        Err(e) => { return Err(DnsError::from(e)) },
    };
    let g7 = match r.next_u16(16) {
        Ok(v) => v,
        Err(e) => { return Err(DnsError::from(e)) },
    };
    let mut s = String::new();
    push_hex(&mut s, g0);
    s.push(':');
    push_hex(&mut s, g1);
    s.push(':');
    push_hex(&mut s, g2);
    s.push(':');
    push_hex(&mut s, g3);
    s.push(':');
    push_hex(&mut s, g4);
    s.push(':');
    push_hex(&mut s, g5);
    s.push(':');
    push_hex(&mut s, g6);
    s.push(':');
    push_hex(&mut s, g7);
    proof {
        assert(ipv6_groups(b, pos) =~= seq![g0, g1, g2, g3, g4, g5, g6, g7]);
        assert(s@ =~= ipv6_chars(seq![g0, g1, g2, g3, g4, g5, g6, g7]));
    }
    Ok(s)
}

/// What decoding `n` questions in a row from bit `pos` returns.
pub open spec fn spec_read_questions(b: Seq<u8>, pos: int, n: nat) -> Result<
    (Seq<SpecQuestion>, int),
    DnsError,
>
    decreases n,
{
    if n == 0 {
        Ok((Seq::empty(), pos))
    } else {
        match spec_read_question(b, pos) {
            Err(e) => Err(e),
            Ok(qp) => match spec_read_questions(b, qp.1, (n - 1) as nat) {
                Err(e) => Err(e),
                Ok(qsp) => Ok((seq![qp.0] + qsp.0, qsp.1)),
            },
        }
    }
}

/// What decoding `n` resource records in a row from bit `pos` returns.
pub open spec fn spec_read_records(b: Seq<u8>, pos: int, n: nat) -> Result<
    (Seq<SpecRecord>, int),
    DnsError,
>
    decreases n,
{
    if n == 0 {
        Ok((Seq::empty(), pos))
    } else {
        match spec_read_record(b, pos) {
            Err(e) => Err(e),
            Ok(rp) => match spec_read_records(b, rp.1, (n - 1) as nat) {
                Err(e) => Err(e),
                Ok(rsp) => Ok((seq![rp.0] + rsp.0, rsp.1)),
            },
        }
    }
}

/// Reading `m + n` questions is reading `m`, then `n` more from where the
/// first `m` ended.
proof fn lemma_read_questions_split(b: Seq<u8>, pos: int, m: nat, n: nat)
    ensures
        spec_read_questions(b, pos, m + n) == (match spec_read_questions(b, pos, m) {
            Err(e) => Err::<(Seq<SpecQuestion>, int), DnsError>(e),
            Ok(qsp) => match spec_read_questions(b, qsp.1, n) {
                Err(e2) => Err::<(Seq<SpecQuestion>, int), DnsError>(e2),
                Ok(qsp2) => Ok::<(Seq<SpecQuestion>, int), DnsError>((qsp.0 + qsp2.0, qsp2.1)),
            },
        }),
    decreases m,
{
    if m == 0 {
        match spec_read_questions(b, pos, n) {
            Ok(qsp2) => {
                assert(Seq::<SpecQuestion>::empty() + qsp2.0 =~= qsp2.0);
            },
            Err(_) => {},
        }
    } else {
        match spec_read_question(b, pos) {
            Err(_) => {},
            Ok(qp) => {
                lemma_read_questions_split(b, qp.1, (m - 1) as nat, n);
                assert((m - 1) as nat + n == (m + n - 1) as nat);
                match spec_read_questions(b, qp.1, (m - 1) as nat) {
                    Err(_) => {},
                    Ok(qsp1) => {
                        match spec_read_questions(b, qsp1.1, n) {
                            Err(_) => {},
                            Ok(qsp2) => {
                                assert(seq![qp.0] + (qsp1.0 + qsp2.0) =~= (seq![qp.0] + qsp1.0)
                                    + qsp2.0);
                            },
                        }
                    },
                }
            },
        }
    }
}

/// Reading `m + n` records is reading `m`, then `n` more from where the
/// first `m` ended.
proof fn lemma_read_records_split(b: Seq<u8>, pos: int, m: nat, n: nat)
    ensures
        spec_read_records(b, pos, m + n) == (match spec_read_records(b, pos, m) {
            Err(e) => Err::<(Seq<SpecRecord>, int), DnsError>(e),
            Ok(rsp) => match spec_read_records(b, rsp.1, n) {
                Err(e2) => Err::<(Seq<SpecRecord>, int), DnsError>(e2),
                Ok(rsp2) => Ok::<(Seq<SpecRecord>, int), DnsError>((rsp.0 + rsp2.0, rsp2.1)),
            },
        }),
    decreases m,
{
    if m == 0 {
        match spec_read_records(b, pos, n) {
            Ok(rsp2) => {
                assert(Seq::<SpecRecord>::empty() + rsp2.0 =~= rsp2.0);
            },
            Err(_) => {},
        }
    } else {
        match spec_read_record(b, pos) {
            Err(_) => {},
            Ok(rp) => {
                lemma_read_records_split(b, rp.1, (m - 1) as nat, n);
                assert((m - 1) as nat + n == (m + n - 1) as nat);
                match spec_read_records(b, rp.1, (m - 1) as nat) {
                    Err(_) => {},
                    Ok(rsp1) => {
                        match spec_read_records(b, rsp1.1, n) {
                            Err(_) => {},
                            Ok(rsp2) => {
                                assert(seq![rp.0] + (rsp1.0 + rsp2.0) =~= (seq![rp.0] + rsp1.0)
                                    + rsp2.0);
                            },
                        }
                    },
                }
            },
        }
    }
}

/// Decodes one question at the cursor.
pub fn read_question(r: &mut BitReader<'_>) -> (res: Result<Question, DnsError>)
    requires
        old(r).wf(),
    ensures
        final(r).wf(),
        final(r).spec_bytes() == old(r).spec_bytes(),
        match spec_read_question(old(r).spec_bytes(), old(r).spec_pointer() as int) {
            Ok(qp) => res matches Ok(q) && question_matches(q, qp.0)
                && final(r).spec_pointer() as int == qp.1,
            Err(e) => res == Err::<Question, DnsError>(e),
        },
{
    let qname = match read_name(r) {
        Ok(v) => v,
        Err(e) => { return Err(e) },
    };
    let qtype_value = match r.next_u16(16) {
        Ok(v) => v,
        Err(e) => { return Err(DnsError::from(e)) },
    };
    let qtype = match QType::from_u16(qtype_value) {
        Some(t) => t,
        None => { return Err(DnsError::InvalidField) },
    };
    let qclass_value = match r.next_u16(16) {
        Ok(v) => v,
        Err(e) => { return Err(DnsError::from(e)) },
    };
    let qclass = match QClass::try_from(qclass_value) {
        Ok(c) => c,
        Err(_) => { return Err(DnsError::InvalidField) },
    };
    Ok(Question { qname, qtype, qclass })
}

/// Decodes `count` questions in a row at the cursor.
fn read_questions(r: &mut BitReader<'_>, count: u16) -> (res: Result<Vec<Question>, DnsError>)
    requires
        old(r).wf(),
    ensures
        final(r).wf(),
        final(r).spec_bytes() == old(r).spec_bytes(),
        match spec_read_questions(old(r).spec_bytes(), old(r).spec_pointer() as int, count as nat) {
            Ok(qsp) => res matches Ok(v) && questions_match(v@, qsp.0)
                && final(r).spec_pointer() as int == qsp.1,
            Err(e) => res == Err::<Vec<Question>, DnsError>(e),
        },
{
    let ghost b = old(r).spec_bytes();
    let ghost pos0 = old(r).spec_pointer() as int;
    let mut questions: Vec<Question> = Vec::new();
    let mut i: u16 = 0;
    while i < count
        invariant
            i <= count,
            r.wf(),
            r.spec_bytes() == b,
            b == old(r).spec_bytes(),
            pos0 == old(r).spec_pointer() as int,
            spec_read_questions(b, pos0, i as nat) matches Ok(done) && questions_match(
                questions@,
                done.0,
            ) && done.1 == r.spec_pointer() as int,
        decreases count - i,
    {
        let ghost cur = r.spec_pointer() as int;
        let q = match read_question(r) {
            Ok(v) => v,
            Err(e) => {
                proof {
                    lemma_read_questions_split(b, pos0, i as nat, (count - i) as nat);
                    assert(spec_read_questions(b, cur, (count - i) as nat) == Err::<
                        (Seq<SpecQuestion>, int),
                        DnsError,
                    >(e));
                    assert(spec_read_questions(b, pos0, count as nat) == Err::<
                        (Seq<SpecQuestion>, int),
                        DnsError,
                    >(e));
                }
                return Err(e)
            },
        };
        proof {
            lemma_read_questions_split(b, pos0, i as nat, 1);
            match spec_read_question(b, cur) {
                Ok(qp) => {
                    assert(spec_read_questions(b, qp.1, 0) == Ok::<(Seq<SpecQuestion>, int),
                        DnsError>((Seq::empty(), qp.1)));
                    assert(seq![qp.0] + Seq::<SpecQuestion>::empty() =~= seq![qp.0]);
                    assert(spec_read_questions(b, cur, 1) == Ok::<(Seq<SpecQuestion>, int),
                        DnsError>((seq![qp.0], qp.1)));
                    let done = spec_read_questions(b, pos0, i as nat)->Ok_0;
                    assert(spec_read_questions(b, pos0, (i + 1) as nat) == Ok::<
                        (Seq<SpecQuestion>, int),
                        DnsError,
                    >((done.0 + seq![qp.0], qp.1)));
                    assert forall|j: int| 0 <= j < questions@.push(q).len() implies #[trigger] question_matches(
                        questions@.push(q)[j],
                        (done.0 + seq![qp.0])[j],
                    ) by {
                        if j < questions@.len() {
                            assert(question_matches(questions@[j], done.0[j]));
                        }
                    }
                },
                Err(_) => {
                    assert(false);
                },
            }
        }
        questions.push(q);
        i = i + 1;
    }
    Ok(questions)
}

/// Decodes `count` resource records in a row at the cursor.
fn read_records(r: &mut BitReader<'_>, count: u16) -> (res: Result<Vec<Record>, DnsError>)
    requires
        old(r).wf(),
    ensures
        final(r).wf(),
        final(r).spec_bytes() == old(r).spec_bytes(),
        match spec_read_records(old(r).spec_bytes(), old(r).spec_pointer() as int, count as nat) {
            Ok(rsp) => res matches Ok(v) && records_match(v@, rsp.0)
                && final(r).spec_pointer() as int == rsp.1,
            Err(e) => res == Err::<Vec<Record>, DnsError>(e),
        },
{
    let ghost b = old(r).spec_bytes();
    let ghost pos0 = old(r).spec_pointer() as int;
    let mut records: Vec<Record> = Vec::new();
    let mut i: u16 = 0;
    while i < count
        invariant
            i <= count,
            r.wf(),
            r.spec_bytes() == b,
            b == old(r).spec_bytes(),
            pos0 == old(r).spec_pointer() as int,
            spec_read_records(b, pos0, i as nat) matches Ok(done) && records_match(
                records@,
                done.0,
            ) && done.1 == r.spec_pointer() as int,
        decreases count - i,
    {
        let ghost cur = r.spec_pointer() as int;
        let rec = match read_record(r) {
            Ok(v) => v,
            Err(e) => {
                proof {
                    lemma_read_records_split(b, pos0, i as nat, (count - i) as nat);
                    assert(spec_read_records(b, cur, (count - i) as nat) == Err::<
                        (Seq<SpecRecord>, int),
                        DnsError,
                    >(e));
                    assert(spec_read_records(b, pos0, count as nat) == Err::<
                        (Seq<SpecRecord>, int),
                        DnsError,
                    >(e));
                }
                return Err(e)
            },
        };
        proof {
            lemma_read_records_split(b, pos0, i as nat, 1);
            match spec_read_record(b, cur) {
                Ok(rp) => {
                    assert(spec_read_records(b, rp.1, 0) == Ok::<(Seq<SpecRecord>, int), DnsError>(
                        (Seq::empty(), rp.1),
                    ));
                    assert(seq![rp.0] + Seq::<SpecRecord>::empty() =~= seq![rp.0]);
                    assert(spec_read_records(b, cur, 1) == Ok::<(Seq<SpecRecord>, int), DnsError>(
                        (seq![rp.0], rp.1),
                    ));
                    let done = spec_read_records(b, pos0, i as nat)->Ok_0;
                    assert(spec_read_records(b, pos0, (i + 1) as nat) == Ok::<
                        (Seq<SpecRecord>, int),
                        DnsError,
                    >((done.0 + seq![rp.0], rp.1)));
                    assert forall|j: int| 0 <= j < records@.push(rec).len() implies #[trigger] record_matches(
                        records@.push(rec)[j],
                        (done.0 + seq![rp.0])[j],
                    ) by {
                        if j < records@.len() {
                            assert(record_matches(records@[j], done.0[j]));
                        }
                    }
                },
                Err(_) => {
                    assert(false);
                },
            }
        }
        records.push(rec);
        i = i + 1;
    }
    Ok(records)
}

/// The mathematical content of a decoded message.
pub ghost struct SpecMessage {
    pub header: Header,
    pub questions: Seq<SpecQuestion>,
    pub answers: Seq<SpecRecord>,
    pub authority: Seq<SpecRecord>,
    pub additional: Seq<SpecRecord>,
}

/// What decoding a whole message returns: the header from the first 12
/// bytes, then — through one cursor positioned right after the header —
/// exactly as many questions, answer records, authority records and
/// additional records as the header counts say, in that order. One failure
/// anywhere fails the whole decode.
pub open spec fn spec_parse_message(b: Seq<u8>) -> Result<SpecMessage, DnsError> {
    match parse_header(b) {
        Err(e) => Err(e),
        Ok(h) => match spec_read_questions(b, 96, h.question_count as nat) {
            Err(e) => Err(e),
            Ok(qs) => match spec_read_records(b, qs.1, h.answer_count as nat) {
                Err(e) => Err(e),
                Ok(ans) => match spec_read_records(b, ans.1, h.authority_count as nat) {
                    Err(e) => Err(e),
                    Ok(auth) => match spec_read_records(
                        b,
                        auth.1,
                        h.additional_resource_count as nat,
                    ) {
                        Err(e) => Err(e),
                        Ok(add) => Ok(
                            SpecMessage {
                                header: h,
                                questions: qs.0,
                                answers: ans.0,
                                authority: auth.0,
                                additional: add.0,
                            },
                        ),
                    },
                },
            },
        },
    }
}

/// A whole DNS message: its header and the four record sections, owned
/// together. `from_bytes` builds one atomically — any field error fails the
/// whole decode — and `query` builds a well-formed single-question query.
#[derive(Debug)]
pub struct Message {
    pub header: Header,
    pub questions: Vec<Question>,
    pub answers: Vec<Record>,
    pub authority: Vec<Record>,
    pub additional: Vec<Record>,
}

impl Message {
    /// Builds a query for `qname`: the given 16-bit id, opcode Query, one
    /// question of type A and class Any, no records, and every flag clear
    /// except the response bit, which this codec sets on outgoing queries.
    pub fn query(qname: String, id: u16) -> (r: Message)
        ensures
            r.header == (Header {
                id,
                response: true,
                opcode: Opcode::Query,
                authoritive_answer: false,
                truncated: false,
                recursion_desired: false,
                recursion_available: false,
                authenticated_data: false,
                checking_disabled: false,
                rcode: RCode::NoError,
                question_count: 1,
                answer_count: 0,
                authority_count: 0,
                additional_resource_count: 0,
            }),
            r.questions@.len() == 1,
            r.questions@[0].qname@ == qname@,
            r.questions@[0].qtype == QType::A,
            r.questions@[0].qclass == QClass::Any,
            r.answers@.len() == 0,
            r.authority@.len() == 0,
            r.additional@.len() == 0,
    {
        let questions = vec![Question { qname, qtype: QType::A, qclass: QClass::Any }];

        let header = Header {
            id,
            response: true,
            opcode: Opcode::Query,
            authenticated_data: false,
            checking_disabled: false,
            rcode: RCode::NoError,
            authoritive_answer: false,
            truncated: false,
            recursion_desired: false,
            recursion_available: false,
            question_count: 1,
            answer_count: 0,
            authority_count: 0,
            additional_resource_count: 0,
        };

        Message { header, questions, answers: vec![], authority: vec![], additional: vec![] }
    }

    /// The wire bytes of this message in big-endian order; only the header
    /// is serialized — question and record serialization is outside this
    /// codec's scope.
    pub fn as_bytes(&self) -> (r: Vec<u8>)
        ensures
            r@ == crate::header::header_bytes(self.header),
    {
        let bytes = self.header.as_bytes();
        bytes
    }

    /// Decodes a message (RFC 1035 §4): the header from the first 12 bytes,
    /// then each section in order through one cursor positioned after the
    /// header, reading exactly as many entries as the header counts say.
    pub fn from_bytes(bytes: &[u8]) -> (res: Result<Message, DnsError>)
        requires
            bytes@.len() < usize::MAX as nat / 8,
        ensures
            match spec_parse_message(bytes@) {
                Ok(sm) => res matches Ok(m) && m.header == sm.header && questions_match(
                    m.questions@,
                    sm.questions,
                ) && records_match(m.answers@, sm.answers) && records_match(
                    m.authority@,
                    sm.authority,
                ) && records_match(m.additional@, sm.additional),
                Err(e) => res == Err::<Message, DnsError>(e),
            },
    {
        let header = match Header::from_bytes(bytes) {
            Ok(h) => h,
            Err(e) => { return Err(e) },
        };
        let mut bit_reader = BitReader::from_bytes(bytes);
        bit_reader.set_pointer(96);

        let questions = match read_questions(&mut bit_reader, header.question_count) {
            Ok(v) => v,
            Err(e) => { return Err(e) },
        };
        let answers = match read_records(&mut bit_reader, header.answer_count) {
            Ok(v) => v,
            Err(e) => { return Err(e) },
        };
        let authority = match read_records(&mut bit_reader, header.authority_count) {
            Ok(v) => v,
            Err(e) => { return Err(e) },
        };
        let additional = match read_records(&mut bit_reader, header.additional_resource_count) {
            Ok(v) => v,
            Err(e) => { return Err(e) },
        };

        Ok(Message { header, questions, answers, authority, additional })
    }
}

} // verus!
