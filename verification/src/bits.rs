//! A cursor that addresses an immutable byte buffer bit by bit.
//!
//! DNS packs flags and small codes below byte granularity (a 4-bit opcode,
//! single-bit flags, 6-bit label lengths), so the decoder works through this
//! reader, which extracts 1- to 16-bit unsigned fields most-significant-bit
//! first, across byte boundaries.

use vstd::prelude::*;

verus! {

/// Error of a single cursor read.
#[derive(Debug, Clone, Copy, PartialEq, Eq, Structural)]
pub enum BitError {
    /// A read needed a byte beyond the end of the buffer.
    EndOfBytes,
    /// A read asked for more than 16 bits at once.
    InvalidCountSize,
}

/// The value of bit `i` of the buffer, most-significant-bit-first within
/// each byte: bit 0 is the top bit of byte 0.
pub open spec fn bit_at(bytes: Seq<u8>, i: int) -> bool {
    (bytes[i / 8] >> ((7 - i % 8) as u8)) & 1 == 1
}

/// The unsigned value of `count` bits starting at bit `start`, read
/// most-significant-bit-first: the first bit read is the highest bit of the
/// result.
pub open spec fn bits_value(bytes: Seq<u8>, start: int, count: nat) -> nat
    decreases count,
{
    if count == 0 {
        0
    } else {
        2 * bits_value(bytes, start, (count - 1) as nat) + (if bit_at(
            bytes,
            start + count - 1,
        ) {
            1nat
        } else {
            0nat
        })
    }
}

/// Two raised to the power `c`.
pub open spec fn pow2n(c: nat) -> nat
    decreases c,
{
    if c == 0 {
        1
    } else {
        2 * pow2n((c - 1) as nat)
    }
}

/// A field of `count` bits is smaller than two to the `count`.
pub proof fn lemma_bits_value_bound(bytes: Seq<u8>, start: int, count: nat)
    ensures
        bits_value(bytes, start, count) < pow2n(count),
    decreases count,
{
    if count > 0 {
        lemma_bits_value_bound(bytes, start, (count - 1) as nat);
    }
}

pub proof fn lemma_pow2n_mono(a: nat, b: nat)
    requires
        a <= b,
    ensures
        pow2n(a) <= pow2n(b),
    decreases b,
{
    if a < b {
        lemma_pow2n_mono(a, (b - 1) as nat);
    }
}

pub proof fn lemma_pow2n_pos(c: nat)
    ensures
        pow2n(c) >= 1,
    decreases c,
{
    if c > 0 {
        lemma_pow2n_pos((c - 1) as nat);
    }
}

/// A field splits at any point: the first `m` bits carry the high part of
/// the value, the following `n` bits the low part.
pub proof fn lemma_bits_value_split(bytes: Seq<u8>, start: int, m: nat, n: nat)
    ensures
        bits_value(bytes, start, m + n) == bits_value(bytes, start, m) * pow2n(n) + bits_value(
            bytes,
            start + m,
            n,
        ),
    decreases n,
{
    if n == 0 {
        assert(pow2n(n) == 1);
    } else {
        lemma_bits_value_split(bytes, start, m, (n - 1) as nat);
        let a = bits_value(bytes, start, m);
        let p = pow2n((n - 1) as nat);
        let bit = if bit_at(bytes, start + m + n - 1) {
            1nat
        } else {
            0nat
        };
        assert(bits_value(bytes, start, m + n) == 2 * bits_value(bytes, start, (m + n - 1) as nat)
            + bit);
        assert(bits_value(bytes, start + m, n) == 2 * bits_value(bytes, start + m, (n - 1) as nat)
            + bit);
        assert(2 * (a * p) == a * (2 * p)) by (nonlinear_arith);
        assert(pow2n(n) == 2 * p);
    }
}

/// Bit-cursor determinism: reading `n` one-bit fields in sequence gives the
/// same bits as one `n`-bit read taken apart afterwards — bit `j` of the
/// buffer (counted from the start of the field) equals bit `n - 1 - j` of
/// the assembled value.
pub proof fn lemma_bit_unpacking(bytes: Seq<u8>, start: int, n: nat, j: nat)
    requires
        j < n,
    ensures
        bit_at(bytes, start + j) <==> (bits_value(bytes, start, n) / pow2n((n - j - 1) as nat)) % 2
            == 1,
{
    let low = (n - j - 1) as nat;
    let p = pow2n(low);
    let hi = bits_value(bytes, start, (j + 1) as nat);
    let lo = bits_value(bytes, start + j + 1, low);
    lemma_pow2n_pos(low);
    lemma_bits_value_bound(bytes, start + j + 1, low);
    lemma_bits_value_split(bytes, start, (j + 1) as nat, low);
    vstd::arithmetic::div_mod::lemma_fundamental_div_mod_converse(
        bits_value(bytes, start, n) as int,
        p as int,
        hi as int,
        lo as int,
    );
    assert(bits_value(bytes, start, n) / p == hi);
    assert(hi == 2 * bits_value(bytes, start, j as nat) + (if bit_at(bytes, start + j) {
        1nat
    } else {
        0nat
    }));
}

/// Bit `j` of byte `k` of the buffer, counted from the most significant bit.
pub proof fn lemma_bit_at_byte(bytes: Seq<u8>, k: int, j: int)
    requires
        0 <= j < 8,
    ensures
        bit_at(bytes, 8 * k + j) == ((bytes[k] >> ((7 - j) as u8)) & 1 == 1),
{
    vstd::arithmetic::div_mod::lemma_fundamental_div_mod_converse(8 * k + j, 8, k, j);
}

/// A byte-aligned 8-bit field is the byte itself.
pub proof fn lemma_bits_value_byte(bytes: Seq<u8>, k: int)
    ensures
        bits_value(bytes, 8 * k, 8) == bytes[k],
{
    reveal_with_fuel(bits_value, 9);
    let x = bytes[k];
    lemma_bit_at_byte(bytes, k, 0);
    lemma_bit_at_byte(bytes, k, 1);
    lemma_bit_at_byte(bytes, k, 2);
    lemma_bit_at_byte(bytes, k, 3);
    lemma_bit_at_byte(bytes, k, 4);
    lemma_bit_at_byte(bytes, k, 5);
    lemma_bit_at_byte(bytes, k, 6);
    lemma_bit_at_byte(bytes, k, 7);
    lemma_bit_below_two(x, 0);
    lemma_bit_below_two(x, 1);
    lemma_bit_below_two(x, 2);
    lemma_bit_below_two(x, 3);
    lemma_bit_below_two(x, 4);
    lemma_bit_below_two(x, 5);
    lemma_bit_below_two(x, 6);
    lemma_bit_below_two(x, 7);
    assert(128 * ((x >> 7u8) & 1) + 64 * ((x >> 6u8) & 1) + 32 * ((x >> 5u8) & 1) + 16 * ((x
        >> 4u8) & 1) + 8 * ((x >> 3u8) & 1) + 4 * ((x >> 2u8) & 1) + 2 * ((x >> 1u8) & 1) + ((x
        >> 0u8) & 1) == x) by (bit_vector);
}

/// A byte-aligned 16-bit field is its two bytes big-endian.
pub proof fn lemma_bits_value_two_bytes(bytes: Seq<u8>, k: int)
    ensures
        bits_value(bytes, 8 * k, 16) == 256 * bytes[k] + bytes[k + 1],
{
    lemma_bits_value_split(bytes, 8 * k, 8, 8);
    lemma_bits_value_byte(bytes, k);
    lemma_bits_value_byte(bytes, k + 1);
    reveal_with_fuel(pow2n, 9);
    assert(pow2n(8) == 256);
    assert(8 * k + 8 == 8 * (k + 1));
    assert(bits_value(bytes, 8 * k + 8, 8) == bytes[k + 1]);
    assert(bits_value(bytes, 8 * k, 16) == bytes[k] * 256 + bytes[k + 1]);
}

/// A field of at most 8 bits fits a byte.
pub proof fn lemma_bits_value_below_256(bytes: Seq<u8>, start: int, count: nat)
    requires
        count <= 8,
    ensures
        bits_value(bytes, start, count) < 0x100,
{
    lemma_bits_value_bound(bytes, start, count);
    lemma_pow2n_mono(count, 8);
    reveal_with_fuel(pow2n, 9);
    assert(pow2n(8) == 256);
}

/// A field of at most 15 bits fits below `0x8000`, so shifting it left by
/// one loses nothing in a 16-bit accumulator.
proof fn lemma_bits_value_below_0x8000(bytes: Seq<u8>, start: int, count: nat)
    requires
        count <= 15,
    ensures
        bits_value(bytes, start, count) < 0x8000,
{
    lemma_bits_value_bound(bytes, start, count);
    lemma_pow2n_mono(count, 15);
    reveal_with_fuel(pow2n, 16);
}

/// An extracted bit is zero or one.
pub proof fn lemma_bit_below_two(byte: u8, shift: u8)
    by (bit_vector)
    ensures
        (byte >> shift) & 1 < 2,
{
}

proof fn lemma_accumulate_u8(v: u8, b: u8, x: u32)
    by (bit_vector)
    requires
        b < 2,
        x < 0x10000,
        v == (x % 0x100) as u8,
    ensures
        (v << 1u8) | b == ((2 * x + b) % 0x100) as u8,
{
}

proof fn lemma_accumulate_u16(v: u16, b: u16)
    by (bit_vector)
    requires
        b < 2,
        v < 0x8000,
    ensures
        (v << 1u16) | b == 2 * v + b,
{
}

proof fn lemma_accumulate_u32(v: u32, b: u32)
    by (bit_vector)
    requires
        b < 2,
        v < 0x8000,
    ensures
        (v << 1u32) | b == 2 * v + b,
{
}

proof fn lemma_accumulate_u64(v: u64, b: u64)
    by (bit_vector)
    requires
        b < 2,
        v < 0x8000,
    ensures
        (v << 1u64) | b == 2 * v + b,
{
}

proof fn lemma_accumulate_u128(v: u128, b: u128)
    by (bit_vector)
    requires
        b < 2,
        v < 0x8000,
    ensures
        (v << 1u128) | b == 2 * v + b,
{
}

/// A cursor over a borrowed byte buffer, addressed in bits.
pub struct BitReader<'n> {
    pointer: usize,
    bytes: &'n [u8],
}

impl<'n> BitReader<'n> {
    /// The bit length of the buffer fits a `usize` with room for the small
    /// constant advances the codec makes, so pointer arithmetic cannot
    /// overflow.
    pub open spec fn wf(self) -> bool {
        self.spec_bytes().len() < usize::MAX as nat / 8
    }

    pub closed spec fn spec_bytes(self) -> Seq<u8> {
        self.bytes@
    }

    pub closed spec fn spec_pointer(self) -> nat {
        self.pointer as nat
    }

    /// All bits of a read of `count` bits at the current position lie inside
    /// the buffer.
    pub open spec fn can_read(self, count: nat) -> bool {
        self.spec_pointer() + count <= 8 * self.spec_bytes().len()
    }

    pub fn from_bytes(bytes: &[u8]) -> (r: BitReader<'_>)
        requires
            bytes@.len() < usize::MAX as nat / 8,
        ensures
            r.wf(),
            r.spec_bytes() == bytes@,
            r.spec_pointer() == 0,
    {
        BitReader { bytes, pointer: 0 }
    }

    /// Advances the position by `count` bits unconditionally; bounds are
    /// checked only by the next read.
    pub fn skip(&mut self, count: usize)
        requires
            old(self).spec_pointer() + count <= usize::MAX,
        ensures
            final(self).spec_bytes() == old(self).spec_bytes(),
            final(self).spec_pointer() == old(self).spec_pointer() + count,
            final(self).wf() == old(self).wf(),
    {
        self.pointer = self.pointer + count;
    }

    pub fn set_pointer(&mut self, offset: usize)
        ensures
            final(self).spec_bytes() == old(self).spec_bytes(),
            final(self).spec_pointer() == offset as nat,
            final(self).wf() == old(self).wf(),
    {
        self.pointer = offset;
    }

    pub fn get_pointer(&self) -> (r: usize)
        ensures
            r as nat == self.spec_pointer(),
    {
        self.pointer
    }

    /// Reads the bit at the current position and advances by one; fails
    /// without moving when that bit lies past the end of the buffer.
    pub fn next_bit(&mut self) -> (r: Result<bool, BitError>)
        requires
            old(self).wf(),
        ensures
            final(self).wf(),
            final(self).spec_bytes() == old(self).spec_bytes(),
            old(self).can_read(1) ==> {
                &&& r == Ok::<bool, BitError>(bit_at(old(self).spec_bytes(), old(self).spec_pointer() as int))
                &&& final(self).spec_pointer() == old(self).spec_pointer() + 1
            },
            !old(self).can_read(1) ==> {
                &&& r == Err::<bool, BitError>(BitError::EndOfBytes)
                &&& final(self).spec_pointer() == old(self).spec_pointer()
            },
    {
        let byte = match self.bytes.get(self.pointer / 8) {
            Some(x) => *x,
            None => { return Err(BitError::EndOfBytes) },
        };
        let shift: u8 = 7 - (self.pointer % 8) as u8;
        let bit = (byte >> shift) & 1 == 1;
        self.pointer = self.pointer + 1;
        Ok(bit)
    }


    /// Reads `bit_count` bits (at most 16) most-significant-bit-first; the
    /// result keeps the low 8 bits of the assembled value. A failed read
    /// leaves the position where it was.
    pub fn next_u8(&mut self, bit_count: usize) -> (r: Result<u8, BitError>)
        requires
            old(self).wf(),
        ensures
            final(self).wf(),
            final(self).spec_bytes() == old(self).spec_bytes(),
            bit_count > 16 ==> {
                &&& r == Err::<u8, BitError>(BitError::InvalidCountSize)
                &&& final(self).spec_pointer() == old(self).spec_pointer()
            },
            bit_count <= 16 && !old(self).can_read(bit_count as nat) ==> {
                &&& r == Err::<u8, BitError>(BitError::EndOfBytes)
                &&& final(self).spec_pointer() == old(self).spec_pointer()
            },
            bit_count <= 16 && old(self).can_read(bit_count as nat) ==> {
                &&& r matches Ok(v) && v as nat == bits_value(
                    old(self).spec_bytes(),
                    old(self).spec_pointer() as int,
                    bit_count as nat,
                ) % 0x100
                &&& final(self).spec_pointer() == old(self).spec_pointer() + bit_count
            },
    {
        if bit_count > 16 {
            return Err(BitError::InvalidCountSize);
        }
        let total_bits: usize = 8 * self.bytes.len();
        if bit_count > total_bits || self.pointer > total_bits - bit_count {
            return Err(BitError::EndOfBytes);
        }
        let mut value: u8 = 0;
        for i in 0..bit_count
            invariant
                self.wf(),
                bit_count <= 16,
                i <= bit_count,
                self.spec_pointer() + bit_count <= 8 * self.spec_bytes().len(),
                self.spec_bytes() == old(self).spec_bytes(),
                self.spec_pointer() == old(self).spec_pointer(),
                value as nat == bits_value(self.spec_bytes(), self.spec_pointer() as int, i as nat)
                    % 0x100,
        {
            let idx = self.pointer + i;
            let byte = self.bytes[idx / 8];
            let shift: u8 = (7 - idx % 8) as u8;
            let bitv: u8 = (byte >> shift) & 1;
            proof {
                lemma_bit_below_two(byte, shift);
                lemma_bits_value_below_0x8000(self.spec_bytes(), self.spec_pointer() as int, i as nat);
                let x: u32 = bits_value(self.spec_bytes(), self.spec_pointer() as int, i as nat) as u32;
                lemma_accumulate_u8(value, bitv, x);
                assert(bit_at(self.spec_bytes(), idx as int) == (bitv == 1));
            }
            value = (value << 1) | bitv;
        }
        self.pointer = self.pointer + bit_count;
        Ok(value)
    }

    /// Reads `bit_count` bits (at most 16) most-significant-bit-first into a
    /// `u32`. A failed read leaves the position where it was.
    pub fn next_u32(&mut self, bit_count: usize) -> (r: Result<u32, BitError>)
        requires
            old(self).wf(),
        ensures
            final(self).wf(),
            final(self).spec_bytes() == old(self).spec_bytes(),
            bit_count > 16 ==> {
                &&& r == Err::<u32, BitError>(BitError::InvalidCountSize)
                &&& final(self).spec_pointer() == old(self).spec_pointer()
            },
            bit_count <= 16 && !old(self).can_read(bit_count as nat) ==> {
                &&& r == Err::<u32, BitError>(BitError::EndOfBytes)
                &&& final(self).spec_pointer() == old(self).spec_pointer()
            },
            bit_count <= 16 && old(self).can_read(bit_count as nat) ==> {
                &&& r matches Ok(v) && v as nat == bits_value(
                    old(self).spec_bytes(),
                    old(self).spec_pointer() as int,
                    bit_count as nat,
                )
                &&& final(self).spec_pointer() == old(self).spec_pointer() + bit_count
            },
    {
        if bit_count > 16 {
            return Err(BitError::InvalidCountSize);
        }
        let total_bits: usize = 8 * self.bytes.len();
        if bit_count > total_bits || self.pointer > total_bits - bit_count {
            return Err(BitError::EndOfBytes);
        }
        let mut value: u32 = 0;
        for i in 0..bit_count
            invariant
                self.wf(),
                bit_count <= 16,
                i <= bit_count,
                self.spec_pointer() + bit_count <= 8 * self.spec_bytes().len(),
                self.spec_bytes() == old(self).spec_bytes(),
                self.spec_pointer() == old(self).spec_pointer(),
                value as nat == bits_value(self.spec_bytes(), self.spec_pointer() as int, i as nat),
        {
            let idx = self.pointer + i;
            let byte = self.bytes[idx / 8];
            let shift: u8 = (7 - idx % 8) as u8;
            let bitv: u8 = (byte >> shift) & 1;
            proof {
                lemma_bit_below_two(byte, shift);
                lemma_bits_value_below_0x8000(self.spec_bytes(), self.spec_pointer() as int, i as nat);
                lemma_accumulate_u32(value, bitv as u32);
                assert(bit_at(self.spec_bytes(), idx as int) == (bitv == 1));
            }
            value = (value << 1) | (bitv as u32);
        }
        self.pointer = self.pointer + bit_count;
        Ok(value)
    }

    /// Reads `bit_count` bits (at most 16) most-significant-bit-first into a
    /// `u64`. A failed read leaves the position where it was.
    pub fn _next_u64(&mut self, bit_count: usize) -> (r: Result<u64, BitError>)
        requires
            old(self).wf(),
        ensures
            final(self).wf(),
            final(self).spec_bytes() == old(self).spec_bytes(),
            bit_count > 16 ==> {
                &&& r == Err::<u64, BitError>(BitError::InvalidCountSize)
                &&& final(self).spec_pointer() == old(self).spec_pointer()
            },
            bit_count <= 16 && !old(self).can_read(bit_count as nat) ==> {
                &&& r == Err::<u64, BitError>(BitError::EndOfBytes)
                &&& final(self).spec_pointer() == old(self).spec_pointer()
            },
            bit_count <= 16 && old(self).can_read(bit_count as nat) ==> {
                &&& r matches Ok(v) && v as nat == bits_value(
                    old(self).spec_bytes(),
                    old(self).spec_pointer() as int,
                    bit_count as nat,
                )
                &&& final(self).spec_pointer() == old(self).spec_pointer() + bit_count
            },
    {
        if bit_count > 16 {
            return Err(BitError::InvalidCountSize);
        }
        let total_bits: usize = 8 * self.bytes.len();
        if bit_count > total_bits || self.pointer > total_bits - bit_count {
            return Err(BitError::EndOfBytes);
        }
        let mut value: u64 = 0;
        for i in 0..bit_count
            invariant
                self.wf(),
                bit_count <= 16,
                i <= bit_count,
                self.spec_pointer() + bit_count <= 8 * self.spec_bytes().len(),
                self.spec_bytes() == old(self).spec_bytes(),
                self.spec_pointer() == old(self).spec_pointer(),
                value as nat == bits_value(self.spec_bytes(), self.spec_pointer() as int, i as nat),
        {
            let idx = self.pointer + i;
            let byte = self.bytes[idx / 8];
            let shift: u8 = (7 - idx % 8) as u8;
            let bitv: u8 = (byte >> shift) & 1;
            proof {
                lemma_bit_below_two(byte, shift);
                lemma_bits_value_below_0x8000(self.spec_bytes(), self.spec_pointer() as int, i as nat);
                lemma_accumulate_u64(value, bitv as u64);
                assert(bit_at(self.spec_bytes(), idx as int) == (bitv == 1));
            }
            value = (value << 1) | (bitv as u64);
        }
        self.pointer = self.pointer + bit_count;
        Ok(value)
    }

    /// Reads `bit_count` bits (at most 16) most-significant-bit-first into a
    /// `u128`. A failed read leaves the position where it was.
    pub fn next_u128(&mut self, bit_count: usize) -> (r: Result<u128, BitError>)
        requires
            old(self).wf(),
        ensures
            final(self).wf(),
            final(self).spec_bytes() == old(self).spec_bytes(),
            bit_count > 16 ==> {
                &&& r == Err::<u128, BitError>(BitError::InvalidCountSize)
                &&& final(self).spec_pointer() == old(self).spec_pointer()
            },
            bit_count <= 16 && !old(self).can_read(bit_count as nat) ==> {
                &&& r == Err::<u128, BitError>(BitError::EndOfBytes)
                &&& final(self).spec_pointer() == old(self).spec_pointer()
            },
            bit_count <= 16 && old(self).can_read(bit_count as nat) ==> {
                &&& r matches Ok(v) && v as nat == bits_value(
                    old(self).spec_bytes(),
                    old(self).spec_pointer() as int,
                    bit_count as nat,
                )
                &&& final(self).spec_pointer() == old(self).spec_pointer() + bit_count
            },
    {
        if bit_count > 16 {
            return Err(BitError::InvalidCountSize);
        }
        let total_bits: usize = 8 * self.bytes.len();
        if bit_count > total_bits || self.pointer > total_bits - bit_count {
            return Err(BitError::EndOfBytes);
        }
        let mut value: u128 = 0;
        for i in 0..bit_count
            invariant
                self.wf(),
                bit_count <= 16,
                i <= bit_count,
                self.spec_pointer() + bit_count <= 8 * self.spec_bytes().len(),
                self.spec_bytes() == old(self).spec_bytes(),
                self.spec_pointer() == old(self).spec_pointer(),
                value as nat == bits_value(self.spec_bytes(), self.spec_pointer() as int, i as nat),
        {
            let idx = self.pointer + i;
            let byte = self.bytes[idx / 8];
            let shift: u8 = (7 - idx % 8) as u8;
            let bitv: u8 = (byte >> shift) & 1;
            proof {
                lemma_bit_below_two(byte, shift);
                lemma_bits_value_below_0x8000(self.spec_bytes(), self.spec_pointer() as int, i as nat);
                lemma_accumulate_u128(value, bitv as u128);
                assert(bit_at(self.spec_bytes(), idx as int) == (bitv == 1));
            }
            value = (value << 1) | (bitv as u128);
        }
        self.pointer = self.pointer + bit_count;
        Ok(value)
    }
    /// Reads `bit_count` bits (at most 16) most-significant-bit-first into a
    /// `u16`. A failed read leaves the position where it was, so the cursor
    /// can be retried at another offset.
    pub fn next_u16(&mut self, bit_count: usize) -> (r: Result<u16, BitError>)
        requires
            old(self).wf(),
        ensures
            final(self).wf(),
            final(self).spec_bytes() == old(self).spec_bytes(),
            bit_count > 16 ==> {
                &&& r == Err::<u16, BitError>(BitError::InvalidCountSize)
                &&& final(self).spec_pointer() == old(self).spec_pointer()
            },
            bit_count <= 16 && !old(self).can_read(bit_count as nat) ==> {
                &&& r == Err::<u16, BitError>(BitError::EndOfBytes)
                &&& final(self).spec_pointer() == old(self).spec_pointer()
            },
            bit_count <= 16 && old(self).can_read(bit_count as nat) ==> {
                &&& r matches Ok(v) && v as nat == bits_value(
                    old(self).spec_bytes(),
                    old(self).spec_pointer() as int,
                    bit_count as nat,
                )
                &&& final(self).spec_pointer() == old(self).spec_pointer() + bit_count
            },
    {
        if bit_count > 16 {
            return Err(BitError::InvalidCountSize);
        }
        let total_bits: usize = 8 * self.bytes.len();
        if bit_count > total_bits || self.pointer > total_bits - bit_count {
            return Err(BitError::EndOfBytes);
        }
        let mut value: u16 = 0;
        for i in 0..bit_count
            invariant
                self.wf(),
                bit_count <= 16,
                i <= bit_count,
                self.spec_pointer() + bit_count <= 8 * self.spec_bytes().len(),
                self.spec_bytes() == old(self).spec_bytes(),
                self.spec_pointer() == old(self).spec_pointer(),
                value as nat == bits_value(self.spec_bytes(), self.spec_pointer() as int, i as nat),
        {
            let idx = self.pointer + i;
            let byte = self.bytes[idx / 8];
            let shift: u8 = (7 - idx % 8) as u8;
            let bitv: u8 = (byte >> shift) & 1;
            proof {
                lemma_bit_below_two(byte, shift);
                lemma_bits_value_below_0x8000(self.spec_bytes(), self.spec_pointer() as int, i as nat);
                lemma_accumulate_u16(value, bitv as u16);
                assert(bit_at(self.spec_bytes(), idx as int) == (bitv == 1));
            }
            value = (value << 1) | (bitv as u16);
        }
        self.pointer = self.pointer + bit_count;
        Ok(value)
    }
}

} // verus!
