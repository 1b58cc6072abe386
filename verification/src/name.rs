//! Decoding of domain names (RFC 1035 §3.1 and §4.1.4): a sequence of
//! length-prefixed labels, each followed by a dot in the decoded string,
//! ended by a zero-length label or by a compression pointer that continues
//! the name at an earlier place in the buffer.
//!
//! A hard ceiling of 255 passes bounds the work one name decode may do; the
//! ceiling is shared with the names a pointer jumps to, so a pointer chain —
//! even one that points at itself — runs out of passes instead of running
//! forever. Reaching the ceiling ends the name as decoded so far, as a
//! defensive cap rather than an error.

use vstd::prelude::*;
use vstd::string::StringExecFns;
use crate::bits::{BitReader, bits_value, lemma_bits_value_below_256};
use crate::error::DnsError;

verus! {

/// The number of passes one name decode may make over labels and pointers.
pub const NAME_PASS_CEILING: u16 = 255;

/// Relies on `alloc::string::String::push`: appends the given character to
/// the end of the string.
pub assume_specification[ String::push ](s: &mut String, ch: char)
    ensures
        final(s)@ == old(s)@.push(ch),
;

/// The characters of one label: `count` bytes starting at bit `pos`, each
/// taken as one character.
pub open spec fn label_chars(b: Seq<u8>, pos: int, count: nat) -> Seq<char>
    decreases count,
{
    if count == 0 {
        Seq::empty()
    } else {
        label_chars(b, pos, (count - 1) as nat).push(
            (bits_value(b, pos + 8 * (count - 1), 8) as u8) as char,
        )
    }
}

/// What decoding a name at bit `pos` returns, with `passes` passes left: the
/// accumulated characters and the bit position after the name. A pass is
/// spent on each label and each pointer; at zero passes the name ends as
/// accumulated. A pointer (tag bits `11`) reads two 6-bit halves, jumps to
/// their sum as a byte offset, and the name read there ends this one; the
/// position after the name is the position after the pointer itself.
#[verifier::opaque]
pub open spec fn spec_read_name(b: Seq<u8>, pos: int, passes: nat) -> Result<
    (Seq<char>, int),
    DnsError,
>
    decreases passes,
{
    if passes == 0 {
        Ok((Seq::empty(), pos))
    } else if pos + 8 > 8 * b.len() {
        Err(DnsError::EndOfBuffer)
    } else if bits_value(b, pos, 2) == 3 {
        if pos + 16 > 8 * b.len() {
            Err(DnsError::EndOfBuffer)
        } else {
            let target = 8 * ((bits_value(b, pos + 2, 6) + bits_value(b, pos + 10, 6)) as int);
            match spec_read_name(b, target, (passes - 1) as nat) {
                Ok((s, _)) => Ok((s, pos + 16)),
                Err(e) => Err(e),
            }
        }
    } else {
        let count = bits_value(b, pos + 2, 6);
        if count == 0 {
            Ok((Seq::empty(), pos + 8))
        } else if pos + 8 + 8 * count > 8 * b.len() {
            Err(DnsError::EndOfBuffer)
        } else {
            match spec_read_name(b, pos + 8 + 8 * count, (passes - 1) as nat) {
                Ok((s, p)) => Ok((label_chars(b, pos + 8, count) + seq!['.'] + s, p)),
                Err(e) => Err(e),
            }
        }
    }
}


/// With no passes left, a name decode ends at once with what it has.
proof fn lemma_spec_name_exhausted(b: Seq<u8>, pos: int)
    ensures
        spec_read_name(b, pos, 0) == Ok::<(Seq<char>, int), DnsError>((Seq::<char>::empty(), pos)),
{
    reveal(spec_read_name);
}

/// A name whose first length byte lies past the buffer fails.
proof fn lemma_spec_name_short_head(b: Seq<u8>, pos: int, passes: nat)
    requires
        passes > 0,
        pos + 8 > 8 * b.len(),
    ensures
        spec_read_name(b, pos, passes) == Err::<(Seq<char>, int), DnsError>(DnsError::EndOfBuffer),
{
    reveal(spec_read_name);
}

/// A pointer whose second byte lies past the buffer fails.
proof fn lemma_spec_name_short_pointer(b: Seq<u8>, pos: int, passes: nat)
    requires
        passes > 0,
        pos + 8 <= 8 * b.len(),
        bits_value(b, pos, 2) == 3,
        pos + 16 > 8 * b.len(),
    ensures
        spec_read_name(b, pos, passes) == Err::<(Seq<char>, int), DnsError>(DnsError::EndOfBuffer),
{
    reveal(spec_read_name);
}

/// A whole pointer in bounds: the name is the one at the jumped-to offset,
/// and the position after it is the position after the pointer.
proof fn lemma_spec_name_pointer(b: Seq<u8>, pos: int, passes: nat)
    requires
        passes > 0,
        pos + 16 <= 8 * b.len(),
        bits_value(b, pos, 2) == 3,
    ensures
        spec_read_name(b, pos, passes) == (match spec_read_name(
            b,
            8 * ((bits_value(b, pos + 2, 6) + bits_value(b, pos + 10, 6)) as int),
            (passes - 1) as nat,
        ) {
            Ok(sp) => Ok::<(Seq<char>, int), DnsError>((sp.0, pos + 16)),
            Err(e) => Err::<(Seq<char>, int), DnsError>(e),
        }),
{
    reveal(spec_read_name);
}

/// A zero label length ends the name.
proof fn lemma_spec_name_end(b: Seq<u8>, pos: int, passes: nat)
    requires
        passes > 0,
        pos + 8 <= 8 * b.len(),
        bits_value(b, pos, 2) != 3,
        bits_value(b, pos + 2, 6) == 0,
    ensures
        spec_read_name(b, pos, passes) == Ok::<(Seq<char>, int), DnsError>(
            (Seq::<char>::empty(), pos + 8),
        ),
{
    reveal(spec_read_name);
}

/// A label whose characters run past the buffer fails.
proof fn lemma_spec_name_short_label(b: Seq<u8>, pos: int, passes: nat)
    requires
        passes > 0,
        pos + 8 <= 8 * b.len(),
        bits_value(b, pos, 2) != 3,
        bits_value(b, pos + 2, 6) > 0,
        pos + 8 + 8 * bits_value(b, pos + 2, 6) > 8 * b.len(),
    ensures
        spec_read_name(b, pos, passes) == Err::<(Seq<char>, int), DnsError>(DnsError::EndOfBuffer),
{
    reveal(spec_read_name);
}

/// A whole label in bounds: its characters and a dot, then the rest of the
/// name after it.
proof fn lemma_spec_name_label(b: Seq<u8>, pos: int, passes: nat)
    requires
        passes > 0,
        pos + 8 <= 8 * b.len(),
        bits_value(b, pos, 2) != 3,
        bits_value(b, pos + 2, 6) > 0,
        pos + 8 + 8 * bits_value(b, pos + 2, 6) <= 8 * b.len(),
    ensures
        spec_read_name(b, pos, passes) == (match spec_read_name(
            b,
            pos + 8 + 8 * bits_value(b, pos + 2, 6),
            (passes - 1) as nat,
        ) {
            Ok(sp) => Ok::<(Seq<char>, int), DnsError>(
                (label_chars(b, pos + 8, bits_value(b, pos + 2, 6)) + seq!['.'] + sp.0, sp.1),
            ),
            Err(e) => Err::<(Seq<char>, int), DnsError>(e),
        }),
{
    reveal(spec_read_name);
}

/// Reads `count` label bytes at the cursor and appends them to `name` as
/// characters; a short buffer fails without touching the bytes read so far.
fn read_label(r: &mut BitReader<'_>, count: u8, name: &mut String) -> (res: Result<(), DnsError>)
    requires
        old(r).wf(),
    ensures
        final(r).wf(),
        final(r).spec_bytes() == old(r).spec_bytes(),
        count == 0 || old(r).can_read(8 * count as nat) ==> {
            &&& res == Ok::<(), DnsError>(())
            &&& final(name)@ == old(name)@ + label_chars(
                old(r).spec_bytes(),
                old(r).spec_pointer() as int,
                count as nat,
            )
            &&& final(r).spec_pointer() == old(r).spec_pointer() + 8 * count
        },
        count > 0 && !old(r).can_read(8 * count as nat) ==> res == Err::<(), DnsError>(
            DnsError::EndOfBuffer,
        ),
{
    let ghost b = old(r).spec_bytes();
    let ghost start = old(r).spec_pointer() as int;
    let ghost name0 = old(name)@;
    let mut k: u8 = 0;
    while k < count
        invariant
            k <= count,
            r.wf(),
            r.spec_bytes() == b,
            b == old(r).spec_bytes(),
            start == old(r).spec_pointer() as int,
            name0 == old(name)@,
            r.spec_pointer() as int == start + 8 * k,
            start + 8 * k <= 8 * b.len() || k == 0,
            name@ == name0 + label_chars(b, start, k as nat),
        decreases count - k,
    {
        let n = match r.next_u8(8) {
            Ok(v) => v,
            Err(_) => { return Err(DnsError::EndOfBuffer) },
        };
        proof {
            lemma_bits_value_below_256(b, start + 8 * k, 8);
            assert(name@.push((bits_value(b, start + 8 * k, 8) as u8) as char) =~= name0
                + label_chars(b, start, (k + 1) as nat));
        }
        name.push(n as char);
        k = k + 1;
    }
    proof {
        if count == 0 {
            assert(name0 + label_chars(b, start, 0) =~= name0);
        }
    }
    Ok(())
}

/// Decodes a name at the cursor with a budget of `passes`: one pass per
/// label or pointer. A compression pointer continues the decode at the
/// jumped-to offset with the remaining budget, and the cursor comes back to
/// just after the pointer.
#[verifier::rlimit(100)]
pub fn read_name_limited(r: &mut BitReader<'_>, passes: u16) -> (res: Result<String, DnsError>)
    requires
        old(r).wf(),
    ensures
        final(r).wf(),
        final(r).spec_bytes() == old(r).spec_bytes(),
        match spec_read_name(old(r).spec_bytes(), old(r).spec_pointer() as int, passes as nat) {
            Ok(sp) => res matches Ok(v) && v@ == sp.0 && final(r).spec_pointer() as int == sp.1,
            Err(e) => res == Err::<String, DnsError>(e),
        },
    decreases passes,
{
    let ghost b = old(r).spec_bytes();
    let ghost pos = old(r).spec_pointer() as int;

    if passes == 0 {
        proof {
            lemma_spec_name_exhausted(b, pos);
        }
        return Ok(String::new());
    }

    let tag = match r.next_u8(2) {
        Ok(v) => v,
        Err(e) => {
            proof {
                lemma_spec_name_short_head(b, pos, passes as nat);
            }
            return Err(DnsError::from(e))
        },
    };
    proof {
        lemma_bits_value_below_256(b, pos, 2);
    }

    if tag == 3 {
        let start = match r.next_u8(6) {
            Ok(v) => v,
            Err(e) => {
                proof {
                    lemma_spec_name_short_head(b, pos, passes as nat);
                }
                return Err(DnsError::from(e))
            },
        };
        r.skip(2);
        let offset = match r.next_u8(6) {
            Ok(v) => v,
            Err(e) => {
                proof {
                    lemma_spec_name_short_pointer(b, pos, passes as nat);
                }
                return Err(DnsError::from(e))
            },
        };
        proof {
            lemma_bits_value_below_256(b, pos + 2, 6);
            lemma_bits_value_below_256(b, pos + 10, 6);
        }
        let current = r.get_pointer();
        r.set_pointer((start as usize + offset as usize) * 8);

        proof {
            lemma_spec_name_pointer(b, pos, passes as nat);
        }
        let rest = match read_name_limited(r, passes - 1) {
            Ok(v) => v,
            Err(e) => { return Err(e) },
        };
        r.set_pointer(current);
        return Ok(rest);
    }

    let char_count = match r.next_u8(6) {
        Ok(v) => v,
        Err(e) => {
            proof {
                lemma_spec_name_short_head(b, pos, passes as nat);
            }
            return Err(DnsError::from(e))
        },
    };
    proof {
        lemma_bits_value_below_256(b, pos + 2, 6);
    }

    if char_count == 0 {
        proof {
            lemma_spec_name_end(b, pos, passes as nat);
        }
        return Ok(String::new());
    }

    let ghost label_start = pos + 8;
    let mut name = String::new();
    match read_label(r, char_count, &mut name) {
        Ok(_) => (),
        Err(e) => {
            proof {
                lemma_spec_name_short_label(b, pos, passes as nat);
            }
            return Err(e)
        },
    }
    name.push('.');

    proof {
        lemma_spec_name_label(b, pos, passes as nat);
    }
    let rest = match read_name_limited(r, passes - 1) {
        Ok(v) => v,
        Err(e) => { return Err(e) },
    };
    name.append(rest.as_str());
    proof {
        let lc = label_chars(b, label_start, char_count as nat);
        match spec_read_name(b, pos + 8 + 8 * (char_count as int), (passes - 1) as nat) {
            Ok(sp2) => {
                assert(name@ =~= lc + seq!['.'] + sp2.0);
            },
            Err(_) => {},
        }
    }
    Ok(name)
}

/// The length of the first label of a dotted name: the index of the first
/// dot, or the whole length when no dot remains.
pub open spec fn first_dot(s: Seq<char>) -> nat
    decreases s.len(),
{
    if s.len() == 0 {
        0
    } else if s[0] == '.' {
        0
    } else {
        1 + first_dot(s.subrange(1, s.len() as int))
    }
}

/// The uncompressed wire form of a dotted name: each label as a length byte
/// followed by its characters as bytes, ended by a zero length byte.
pub open spec fn spec_encode_name(s: Seq<char>) -> Seq<u8>
    decreases s.len(),
{
    if s.len() == 0 {
        seq![0u8]
    } else {
        let k = first_dot(s) as int;
        let rest = if k < s.len() {
            s.subrange(k + 1, s.len() as int)
        } else {
            Seq::empty()
        };
        seq![k as u8] + s.subrange(0, k).map_values(|c: char| c as u8) + spec_encode_name(rest)
    }
}

/// A position with no dot before it and a dot (or the end) at it is the
/// first dot.
proof fn lemma_first_dot_at(s: Seq<char>, k: int)
    requires
        0 <= k <= s.len(),
        forall|m: int| 0 <= m < k ==> s[m] != '.',
        k == s.len() || s[k] == '.',
    ensures
        first_dot(s) == k,
    decreases k,
{
    if k == 0 {
    } else {
        lemma_first_dot_at(s.subrange(1, s.len() as int), k - 1);
    }
}

/// Appends the wire form of the name's part from character `i` on, which
/// must be the start of a label.
fn encode_from(name: &str, i: usize, out: &mut Vec<u8>)
    requires
        name.is_ascii(),
        i <= name@.len(),
    ensures
        final(out)@ == old(out)@ + spec_encode_name(name@.subrange(i as int, name@.len() as int)),
    decreases name@.len() - i,
{
    let ghost s = name@;
    let ghost sub = s.subrange(i as int, s.len() as int);
    let n = name.unicode_len();
    if i == n {
        out.push(0);
        proof {
            assert(old(out)@.push(0u8) =~= old(out)@ + spec_encode_name(sub));
        }
        return ;
    }
    let mut j = i;
    while j < n && name.get_ascii(j) != 46
        invariant
            name.is_ascii(),
            i <= j <= n,
            n == s.len(),
            s == name@,
            forall|m: int| i <= m < j ==> s[m] != '.',
        decreases n - j,
    {
        j = j + 1;
    }
    proof {
        assert(forall|m: int| 0 <= m < j - i ==> sub[m] != '.');
        assert(j < n ==> sub[j - i] == '.');
        lemma_first_dot_at(sub, j - i);
    }
    let ghost k = j - i;
    out.push((j - i) as u8);
    let mut m = i;
    while m < j
        invariant
            name.is_ascii(),
            i <= m <= j <= n,
            n == s.len(),
            s == name@,
            k == j - i,
            sub == s.subrange(i as int, s.len() as int),
            out@ == old(out)@ + seq![(k as u8)] + s.subrange(i as int, m as int).map_values(
                (|c: char| c as u8),
            ),
        decreases j - m,
    {
        let c = name.get_ascii(m);
        proof {
            assert(s.subrange(i as int, m + 1).map_values((|c: char| c as u8)) =~= s.subrange(
                i as int,
                m as int,
            ).map_values((|c: char| c as u8)).push(s[m as int] as u8));
        }
        out.push(c);
        m = m + 1;
    }
    let ghost out_before_rest = out@;
    if j < n {
        encode_from(name, j + 1, out);
    } else {
        encode_from(name, n, out);
    }
    proof {
        let rest = if k < sub.len() {
            sub.subrange(k + 1, sub.len() as int)
        } else {
            Seq::<char>::empty()
        };
        if j < n {
            assert(rest =~= s.subrange(j + 1, s.len() as int));
        } else {
            assert(rest =~= s.subrange(n as int, s.len() as int));
        }
        assert(sub.subrange(0, k) =~= s.subrange(i as int, j as int));
        assert(out@ =~= old(out)@ + (seq![(k as u8)] + sub.subrange(0, k).map_values(
            (|c: char| c as u8),
        ) + spec_encode_name(rest)));
    }
}

/// Encodes a dotted name for an outgoing query, without compression: splits
/// on dots, writes each label as a length byte followed by its characters,
/// and ends with a zero length byte.
pub fn encode_name(name: &str) -> (r: Vec<u8>)
    requires
        name.is_ascii(),
    ensures
        r@ == spec_encode_name(name@),
{
    let mut out: Vec<u8> = Vec::new();
    encode_from(name, 0, &mut out);
    proof {
        assert(name@.subrange(0, name@.len() as int) =~= name@);
        assert(Seq::<u8>::empty() + spec_encode_name(name@) =~= spec_encode_name(name@));
    }
    out
}

/// Decodes a domain name at the cursor: labels become characters separated
/// by a dot after each label, a zero length ends the name, and a
/// compression pointer continues it elsewhere in the buffer, with the full
/// pass ceiling as budget.
pub fn read_name(r: &mut BitReader<'_>) -> (res: Result<String, DnsError>)
    requires
        old(r).wf(),
    ensures
        final(r).wf(),
        final(r).spec_bytes() == old(r).spec_bytes(),
        match spec_read_name(
            old(r).spec_bytes(),
            old(r).spec_pointer() as int,
            NAME_PASS_CEILING as nat,
        ) {
            Ok(sp) => res matches Ok(v) && v@ == sp.0 && final(r).spec_pointer() as int == sp.1,
            Err(e) => res == Err::<String, DnsError>(e),
        },
{
    read_name_limited(r, NAME_PASS_CEILING)
}

} // verus!
