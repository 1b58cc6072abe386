//! Textual rendering of record payloads: dotted decimal for IPv4 addresses,
//! colon-separated hexadecimal groups for IPv6 addresses (without zero
//! compression).

use vstd::prelude::*;

verus! {

/// The character of one decimal digit.
pub open spec fn dec_digit(d: nat) -> char {
    ((48 + d % 10) as u8) as char
}

/// The decimal characters of `n`, without leading zeros.
pub open spec fn dec_chars(n: nat) -> Seq<char>
    decreases n,
{
    if n < 10 {
        seq![dec_digit(n)]
    } else {
        dec_chars(n / 10) + seq![dec_digit(n % 10)]
    }
}

/// The character of one hexadecimal digit, lower case.
pub open spec fn hex_digit(d: nat) -> char {
    if d % 16 < 10 {
        ((48 + d % 16) as u8) as char
    } else {
        ((87 + d % 16) as u8) as char
    }
}

/// The hexadecimal characters of `n`, lower case, without leading zeros.
pub open spec fn hex_chars(n: nat) -> Seq<char>
    decreases n,
{
    if n < 16 {
        seq![hex_digit(n)]
    } else {
        hex_chars(n / 16) + seq![hex_digit(n % 16)]
    }
}

/// The dotted-decimal form of a 32-bit IPv4 address.
pub open spec fn ipv4_chars(x: u32) -> Seq<char> {
    dec_chars((x as nat) / 0x1000000) + seq!['.'] + dec_chars((x as nat) / 0x10000 % 0x100)
        + seq!['.'] + dec_chars((x as nat) / 0x100 % 0x100) + seq!['.'] + dec_chars(
        (x as nat) % 0x100,
    )
}

/// The textual form of an IPv6 address: its eight 16-bit groups in order,
/// each in lower-case hexadecimal without leading zeros, separated by
/// colons, with no zero compression.
pub open spec fn ipv6_chars(g: Seq<u16>) -> Seq<char>
    recommends
        g.len() == 8,
{
    hex_chars(g[0] as nat) + seq![':'] + hex_chars(g[1] as nat) + seq![':'] + hex_chars(
        g[2] as nat,
    ) + seq![':'] + hex_chars(g[3] as nat) + seq![':'] + hex_chars(g[4] as nat) + seq![':']
        + hex_chars(g[5] as nat) + seq![':'] + hex_chars(g[6] as nat) + seq![':'] + hex_chars(
        g[7] as nat,
    )
}

/// Appends the decimal form of `n` to `s`.
pub fn push_dec(s: &mut String, n: u8)
    ensures
        final(s)@ == old(s)@ + dec_chars(n as nat),
    decreases n,
{
    if n < 10 {
        s.push((48 + n) as char);
        proof {
            assert(old(s)@.push(dec_digit(n as nat)) =~= old(s)@ + dec_chars(n as nat));
        }
    } else {
        push_dec(s, n / 10);
        s.push((48 + n % 10) as char);
        proof {
            assert((old(s)@ + dec_chars((n / 10) as nat)).push(dec_digit(n as nat)) =~= old(s)@
                + dec_chars(n as nat));
        }
    }
}

/// Appends the lower-case hexadecimal form of `n` to `s`.
pub fn push_hex(s: &mut String, n: u16)
    ensures
        final(s)@ == old(s)@ + hex_chars(n as nat),
    decreases n,
{
    if n < 16 {
        let d: u8 = if n < 10 {
            48 + n as u8
        } else {
            87 + n as u8
        };
        s.push(d as char);
        proof {
            assert(old(s)@.push(hex_digit(n as nat)) =~= old(s)@ + hex_chars(n as nat));
        }
    } else {
        push_hex(s, n / 16);
        let r: u16 = n % 16;
        let d: u8 = if r < 10 {
            48 + r as u8
        } else {
            87 + r as u8
        };
        s.push(d as char);
        proof {
            assert((old(s)@ + hex_chars((n / 16) as nat)).push(hex_digit(n as nat)) =~= old(s)@
                + hex_chars(n as nat));
        }
    }
}

/// The dotted-decimal form of a 32-bit IPv4 address, as a string.
pub fn render_ipv4(x: u32) -> (r: String)
    ensures
        r@ == ipv4_chars(x),
{
    let mut s = String::new();
    push_dec(&mut s, (x / 0x1000000) as u8);
    s.push('.');
    push_dec(&mut s, (x / 0x10000 % 0x100) as u8);
    s.push('.');
    push_dec(&mut s, (x / 0x100 % 0x100) as u8);
    s.push('.');
    push_dec(&mut s, (x % 0x100) as u8);
    proof {
        assert(s@ =~= ipv4_chars(x));
    }
    s
}

} // verus!
