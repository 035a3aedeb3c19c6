//! Bit-level vocabulary: how many bits an index needs, and what value a run
//! of bits denotes when read most-significant-bit first.

use vstd::arithmetic::power2::{lemma2_to64, lemma_pow2_strictly_increases, lemma_pow2_unfold, pow2};
use vstd::prelude::*;

verus! {

/// Number of binary digits of `n`; zero has none.
pub open spec fn bit_len(n: nat) -> nat
    decreases n,
{
    if n == 0 {
        0
    } else {
        1 + bit_len(n / 2)
    }
}

/// Width in bits of an index into a table of `count` strings: one bit for
/// tables of fewer than two strings, otherwise the number of binary digits
/// of the largest index, which is `ceil(log2(count))`.
pub open spec fn bit_width_spec(count: nat) -> nat {
    if count < 2 {
        1
    } else {
        bit_len((count - 1) as nat)
    }
}

/// `bit_len(n)` is the least number of bits that can hold `n`.
pub proof fn lemma_bit_len_bounds(n: nat)
    ensures
        n < pow2(bit_len(n)),
        n > 0 ==> pow2((bit_len(n) - 1) as nat) <= n,
    decreases n,
{
    lemma2_to64();
    if n > 0 {
        lemma_bit_len_bounds(n / 2);
        lemma_pow2_unfold(bit_len(n));
        if n / 2 > 0 {
            lemma_pow2_unfold((bit_len(n) - 1) as nat);
        }
    }
}

/// A value below `2^k` has at most `k` binary digits.
pub proof fn lemma_bit_len_le(n: nat, k: nat)
    requires
        n < pow2(k),
    ensures
        bit_len(n) <= k,
{
    lemma_bit_len_bounds(n);
    if n > 0 && bit_len(n) > k {
        if (bit_len(n) - 1) as nat > k {
            lemma_pow2_strictly_increases(k, (bit_len(n) - 1) as nat);
        }
    }
}

/// The index width is the least `w >= 1` such that every index below
/// `count` fits in `w` bits.
pub proof fn lemma_bit_width_is_least(count: nat)
    ensures
        bit_width_spec(count) >= 1,
        count <= pow2(bit_width_spec(count)),
        bit_width_spec(count) > 1 ==> pow2((bit_width_spec(count) - 1) as nat) < count,
{
    lemma2_to64();
    if count >= 2 {
        lemma_bit_len_bounds((count - 1) as nat);
    }
}

/// Number of bits needed to index a table of `count` strings.
pub fn bit_width(count: usize) -> (w: u8)
    ensures
        w as nat == bit_width_spec(count as nat),
        1 <= w <= 64,
{
    if count < 2 {
        return 1;
    }
    let mut n: usize = count - 1;
    let mut w: u8 = 0;
    proof {
        lemma2_to64();
        lemma_bit_len_le(n as nat, 64);
    }
    while n > 0
        invariant
            bit_len((count - 1) as nat) == w + bit_len(n as nat),
            bit_len((count - 1) as nat) <= 64,
        decreases n,
    {
        n = n / 2;
        w = w + 1;
    }
    w
}

/// The bit at absolute position `pos` of `data`. Position 0 is the most
/// significant bit of the first byte.
pub open spec fn bit_at(data: Seq<u8>, pos: int) -> nat {
    ((data[pos / 8] >> ((7 - pos % 8) as u8)) & 1) as nat
}

/// The unsigned value of the `n` bits that start at `pos`, the first bit
/// being the most significant.
pub open spec fn bits_value(data: Seq<u8>, pos: int, n: nat) -> nat
    decreases n,
{
    if n == 0 {
        0
    } else {
        2 * bits_value(data, pos, (n - 1) as nat) + bit_at(data, pos + n - 1)
    }
}

/// Whether `n` bits can be read at `pos`: a single read delivers at most 32
/// bits and never reaches past the end of the data.
pub open spec fn can_read(data: Seq<u8>, pos: int, n: nat) -> bool {
    n <= 32 && 0 <= pos && pos + n <= data.len() * 8
}

/// A single bit is 0 or 1.
pub proof fn lemma_bit_at_range(data: Seq<u8>, pos: int)
    ensures
        bit_at(data, pos) <= 1,
{
    let b = data[pos / 8];
    let s = (7 - pos % 8) as u8;
    assert((b >> s) & 1 <= 1) by (bit_vector);
}

/// A run of `n` bits denotes a value below `2^n`.
pub proof fn lemma_bits_value_bound(data: Seq<u8>, pos: int, n: nat)
    ensures
        bits_value(data, pos, n) < pow2(n),
    decreases n,
{
    lemma2_to64();
    if n > 0 {
        lemma_bits_value_bound(data, pos, (n - 1) as nat);
        lemma_bit_at_range(data, pos + n - 1);
        lemma_pow2_unfold(n);
    }
}

/// Reading `a + b` bits is reading `a` bits and then `b` more: the first run
/// supplies the high part of the value.
pub proof fn lemma_bits_value_split(data: Seq<u8>, pos: int, a: nat, b: nat)
    ensures
        bits_value(data, pos, a + b) == bits_value(data, pos, a) * pow2(b) + bits_value(
            data,
            pos + a,
            b,
        ),
    decreases b,
{
    lemma2_to64();
    let hi = bits_value(data, pos, a);
    if b == 0 {
        assert(hi * 1 == hi);
    } else {
        let b1 = (b - 1) as nat;
        lemma_bits_value_split(data, pos, a, b1);
        lemma_pow2_unfold(b);
        let p = pow2(b1);
        let lo1 = bits_value(data, pos + a, b1);
        let last = bit_at(data, pos + a + b - 1);
        assert((a + b - 1) as nat == a + b1);
        assert(bits_value(data, pos, a + b) == 2 * bits_value(data, pos, a + b1) + last);
        assert(bits_value(data, pos + a, b) == 2 * lo1 + last);
        assert(2 * (hi * p + lo1) == hi * (2 * p) + 2 * lo1) by (nonlinear_arith);
    }
}

/// The `n` bits that start at `pos`, in reading order.
pub open spec fn bit_run(data: Seq<u8>, pos: int, n: nat) -> Seq<nat> {
    Seq::new(n, |i: int| bit_at(data, pos + i))
}

/// The value that a sequence of bits denotes, first bit most significant.
pub open spec fn run_value(run: Seq<nat>) -> nat
    decreases run.len(),
{
    if run.len() == 0 {
        0
    } else {
        2 * run_value(run.drop_last()) + run.last()
    }
}

/// The value read from the buffer depends on nothing but the bits
/// themselves.
pub proof fn lemma_bits_value_is_run_value(data: Seq<u8>, pos: int, n: nat)
    ensures
        bits_value(data, pos, n) == run_value(bit_run(data, pos, n)),
    decreases n,
{
    if n > 0 {
        lemma_bits_value_is_run_value(data, pos, (n - 1) as nat);
        assert(bit_run(data, pos, n).drop_last() =~= bit_run(data, pos, (n - 1) as nat));
    }
}

} // verus!
