//! A cursor over a byte buffer that hands out unsigned integers of 1 to 32
//! bits, most significant bit first.

use crate::bits::{bit_at, bits_value, can_read, lemma_bit_at_range, lemma_bits_value_bound};
use vstd::arithmetic::power2::{lemma2_to64, lemma_pow2_strictly_increases, pow2};
use vstd::prelude::*;

verus! {

/// Bit cursor over a borrowed byte buffer.
///
/// The cursor is kept as a byte index and a bit offset inside that byte, so
/// that no buffer is too long to be addressed.
pub struct BitReader<'a> {
    data: &'a [u8],
    byte: usize,
    bit: u8,
}

impl<'a> BitReader<'a> {
    /// The cursor lies inside the buffer or exactly at its end.
    #[verifier::type_invariant]
    pub closed spec fn inv(self) -> bool {
        &&& self.bit < 8
        &&& self.byte <= self.data@.len()
        &&& self.byte == self.data@.len() ==> self.bit == 0
    }

    /// The bytes under the cursor.
    pub closed spec fn data(self) -> Seq<u8> {
        self.data@
    }

    /// The cursor, in bits from the start of the buffer.
    pub closed spec fn pos(self) -> int {
        self.byte * 8 + self.bit
    }

    /// Length of the buffer in bits.
    pub open spec fn total_bits(self) -> int {
        (self.data().len() * 8) as int
    }

    /// Number of bits between the cursor and the end of the buffer.
    pub open spec fn remaining(self) -> int {
        self.total_bits() - self.pos()
    }

    /// A reader that satisfies its invariant has its cursor inside the buffer.
    pub proof fn lemma_cursor_in_bounds(self)
        requires
            self.inv(),
        ensures
            0 <= self.pos() <= self.total_bits(),
    {
    }

    /// With fewer bits left than a read asks for, the read cannot succeed,
    /// wherever the cursor stands. A failed read leaves the reader as it
    /// was, so every repetition fails in the same way.
    pub proof fn lemma_short_read_fails(self, n: nat)
        requires
            self.inv(),
            self.remaining() < n,
        ensures
            !can_read(self.data(), self.pos(), n),
    {
    }

    /// A reader positioned at the first bit of `data`.
    pub fn new(data: &'a [u8]) -> (r: Self)
        ensures
            r.data() == data@,
            r.pos() == 0,
            r.inv(),
    {
        BitReader { data, byte: 0, bit: 0 }
    }

    /// The byte index of the cursor.
    pub fn byte_position(&self) -> (p: usize)
        ensures
            p == self.pos() / 8,
    {
        proof {
            use_type_invariant(self);
        }
        self.byte
    }

    /// The offset of the cursor inside its byte, 0 for the most significant
    /// bit.
    pub fn bit_offset(&self) -> (b: u8)
        ensures
            b == self.pos() % 8,
    {
        proof {
            use_type_invariant(self);
        }
        self.bit
    }

    /// Whether at least `n` more bits can be read. Consumes nothing.
    pub fn has_bits(&self, n: usize) -> (b: bool)
        ensures
            b == (n <= self.remaining()),
    {
        proof {
            use_type_invariant(self);
        }
        let bytes_left: usize = self.data.len() - self.byte;
        if self.bit == 0 {
            // n <= bytes_left * 8
            n / 8 < bytes_left || (n / 8 == bytes_left && n % 8 == 0)
        } else {
            // n + bit <= bytes_left * 8, with bytes_left >= 1
            let head: usize = 8 - self.bit as usize;
            if n <= head {
                true
            } else {
                let rest: usize = n - head;
                let tail: usize = bytes_left - 1;
                rest / 8 < tail || (rest / 8 == tail && rest % 8 == 0)
            }
        }
    }

    /// Reads the next `n` bits as an unsigned integer, first bit most
    /// significant, and advances the cursor by `n`.
    ///
    /// Fails, leaving the reader exactly as it was, when fewer than `n` bits
    /// remain or when `n` exceeds 32. Reading zero bits yields 0.
    pub fn read_bits(&mut self, n: u8) -> (r: Option<u32>)
        ensures
            final(self).data() == old(self).data(),
            r is Some <==> can_read(old(self).data(), old(self).pos(), n as nat),
            r is Some ==> r->0 == bits_value(old(self).data(), old(self).pos(), n as nat)
                && final(self).pos() == old(self).pos() + n,
            r is None ==> *final(self) == *old(self),
    {
        proof {
            use_type_invariant(&*self);
        }
        if n > 32 || !self.has_bits(n as usize) {
            return None;
        }
        let ghost start = self.pos();
        let ghost bytes = self.data@;
        let data = self.data;
        let mut byte: usize = self.byte;
        let mut bit: u8 = self.bit;
        let mut value: u64 = 0;
        let mut i: u8 = 0;
        proof {
            lemma2_to64();
        }
        while i < n
            invariant
                i <= n <= 32,
                data@ == bytes,
                bit < 8,
                byte <= bytes.len(),
                byte == bytes.len() ==> bit == 0,
                byte * 8 + bit == start + i,
                start + n <= bytes.len() * 8,
                value == bits_value(bytes, start, i as nat),
                value < pow2(i as nat),
                pow2(32) == 0x1_0000_0000,
            decreases n - i,
        {
            let shift: u8 = 7 - bit;
            let b: u8 = (data[byte] >> shift) & 1;
            proof {
                let p = start + i;
                assert(p / 8 == byte as int && p % 8 == bit as int);
                assert(b as nat == bit_at(bytes, p));
                lemma_bit_at_range(bytes, p);
                if (i as nat) < 32 {
                    lemma_pow2_strictly_increases(i as nat, 32);
                }
                lemma_bits_value_bound(bytes, start, (i + 1) as nat);
            }
            value = value * 2 + b as u64;
            if bit == 7 {
                bit = 0;
                byte = byte + 1;
            } else {
                bit = bit + 1;
            }
            i = i + 1;
        }
        proof {
            if (n as nat) < 32 {
                lemma_pow2_strictly_increases(n as nat, 32);
            }
        }
        *self = BitReader { data, byte, bit };
        Some(value as u32)
    }
}

} // verus!
