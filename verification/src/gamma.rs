//! The Elias-gamma code as bits, and the proof that decoding inverts it.

use crate::bits::{
    bit_at,
    bit_len,
    bit_run,
    can_read,
    lemma_bit_len_bounds,
    lemma_bit_len_le,
    lemma_bits_value_is_run_value,
    run_value,
};
use crate::decode::{spec_elias_gamma, spec_gamma_prefix};
use vstd::arithmetic::power2::{lemma2_to64, lemma_pow2_unfold, pow2};
use vstd::prelude::*;

verus! {

/// The `n` low binary digits of `r`, most significant first.
pub open spec fn binary_digits(r: nat, n: nat) -> Seq<nat>
    decreases n,
{
    if n == 0 {
        Seq::empty()
    } else {
        binary_digits(r / 2, (n - 1) as nat).push(r % 2)
    }
}

/// Number of leading zero bits in the code of `v`: one less than the number
/// of binary digits of `v`.
pub open spec fn gamma_zeros(v: nat) -> nat {
    (bit_len(v) - 1) as nat
}

/// The Elias-gamma code of `v >= 1`: `z` zero bits, a one bit, and the `z`
/// low binary digits of `v`, where `2^z` is the highest power of two that
/// does not exceed `v`.
pub open spec fn gamma_code(v: nat) -> Seq<nat> {
    let z = gamma_zeros(v);
    Seq::new(z, |i: int| 0nat).push(1) + binary_digits((v - pow2(z)) as nat, z)
}

/// `n` binary digits of a number below `2^n` denote that number.
pub proof fn lemma_binary_digits_value(r: nat, n: nat)
    requires
        r < pow2(n),
    ensures
        binary_digits(r, n).len() == n,
        run_value(binary_digits(r, n)) == r,
    decreases n,
{
    lemma2_to64();
    if n > 0 {
        lemma_pow2_unfold(n);
        lemma_binary_digits_value(r / 2, (n - 1) as nat);
        let s = binary_digits(r, n);
        assert(s.drop_last() =~= binary_digits(r / 2, (n - 1) as nat));
    }
}

/// A run of `z - k` zero bits at `pos` followed by a one bit completes a
/// prefix of which `k` zeros have been counted.
proof fn lemma_prefix_of_zeros(data: Seq<u8>, pos: int, k: nat, z: nat)
    requires
        k <= z < 32,
        0 <= pos,
        pos + (z - k) + 1 <= data.len() * 8,
        forall|i: int| 0 <= i < z - k ==> #[trigger] bit_at(data, pos + i) == 0,
        bit_at(data, pos + (z - k)) == 1,
    ensures
        spec_gamma_prefix(data, pos, k) == (Some(z), pos + (z - k) + 1),
    decreases z - k,
{
    if k < z {
        assert(bit_at(data, pos + 0) == 0);
        assert forall|i: int| 0 <= i < z - (k + 1) implies #[trigger] bit_at(data, pos + 1 + i)
            == 0 by {
            assert(bit_at(data, pos + (i + 1)) == 0);
        }
        lemma_prefix_of_zeros(data, pos + 1, k + 1, z);
    }
}

/// Decoding inverts encoding: wherever the bits of the code of `v` stand in
/// a buffer, the decoder yields `v` and stops right after them.
pub proof fn lemma_gamma_round_trip(data: Seq<u8>, pos: int, v: u32)
    requires
        v >= 1,
        0 <= pos,
        pos + gamma_code(v as nat).len() <= data.len() * 8,
        bit_run(data, pos, gamma_code(v as nat).len()) == gamma_code(v as nat),
    ensures
        spec_elias_gamma(data, pos) == (Some(v), pos + gamma_code(v as nat).len()),
        gamma_code(v as nat).len() == 2 * gamma_zeros(v as nat) + 1,
{
    let n = v as nat;
    let z = gamma_zeros(n);
    let r = (n - pow2(z)) as nat;
    let code = gamma_code(n);
    lemma2_to64();
    lemma_bit_len_bounds(n);
    lemma_bit_len_le(n, 32);
    lemma_pow2_unfold(bit_len(n));
    lemma_binary_digits_value(r, z);
    assert(code.len() == 2 * z + 1);
    let run = bit_run(data, pos, code.len());
    assert forall|i: int| 0 <= i < z implies #[trigger] bit_at(data, pos + i) == 0 by {
        assert(run[i] == code[i]);
    }
    assert(bit_at(data, pos + z) == 1) by {
        assert(run[z as int] == code[z as int]);
    }
    lemma_prefix_of_zeros(data, pos, 0, z);
    if z > 0 {
        let tail = bit_run(data, pos + z + 1, z);
        assert(tail =~= binary_digits(r, z)) by {
            assert forall|i: int| 0 <= i < z implies tail[i] == binary_digits(r, z)[i] by {
                assert(run[z + 1 + i] == code[z + 1 + i]);
            }
        }
        lemma_bits_value_is_run_value(data, pos + z + 1, z);
        assert(can_read(data, pos + z + 1, z));
    }
}

} // verus!
