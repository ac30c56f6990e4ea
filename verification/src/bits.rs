//! Bits of a byte string, counted from the least significant bit of the
//! first byte, and the numbers packed into them.

use vstd::arithmetic::power2::{lemma2_to64, lemma2_to64_rest, lemma_pow2_unfold, pow2};
use vstd::prelude::*;

verus! {

/// Two to the power `k`, for a bit position within a byte.
pub open spec fn bit_weight(k: nat) -> nat {
    if k == 0 {
        1
    } else if k == 1 {
        2
    } else if k == 2 {
        4
    } else if k == 3 {
        8
    } else if k == 4 {
        16
    } else if k == 5 {
        32
    } else if k == 6 {
        64
    } else {
        128
    }
}

/// Bit `n` of `data`, or `false` past its end.
pub open spec fn bit_at(data: Seq<u8>, n: nat) -> bool {
    n / 8 < data.len() && (data[(n / 8) as int] as nat / bit_weight(n % 8)) % 2 == 1
}

/// The number of `true` among the first `n` of `bits`.
pub open spec fn count_set(bits: Seq<bool>, n: nat) -> nat
    decreases n,
{
    if n == 0 || n > bits.len() {
        0
    } else {
        count_set(bits, (n - 1) as nat) + if bits[n - 1] {
            1nat
        } else {
            0nat
        }
    }
}

/// The number held in the `width` bits from bit `start` on, the first of
/// them being its least significant.
pub open spec fn packed_value(data: Seq<u8>, start: nat, width: nat) -> nat
    decreases width,
{
    if width == 0 {
        0
    } else {
        (if bit_at(data, start) {
            1nat
        } else {
            0nat
        }) + 2 * packed_value(data, start + 1, (width - 1) as nat)
    }
}

/// A number of `width` bits is below two to the power `width`.
pub proof fn lemma_packed_value_bound(data: Seq<u8>, start: nat, width: nat)
    ensures
        packed_value(data, start, width) < pow2(width),
    decreases width,
{
    if width == 0 {
        lemma2_to64();
    } else {
        lemma_packed_value_bound(data, start + 1, (width - 1) as nat);
        lemma_pow2_unfold(width);
    }
}

/// Reads bit `n` of `data`.
pub fn get_bit(data: &[u8], n: usize) -> (bit: bool)
    requires
        n / 8 < data@.len(),
    ensures
        bit == bit_at(data@, n as nat),
{
    let byte: u8 = data[n / 8];
    let k: usize = n % 8;
    let weight: u8 = if k == 0 {
        1
    } else if k == 1 {
        2
    } else if k == 2 {
        4
    } else if k == 3 {
        8
    } else if k == 4 {
        16
    } else if k == 5 {
        32
    } else if k == 6 {
        64
    } else {
        128
    };
    (byte / weight) % 2 == 1
}

/// Reads the number held in the `width` bits from bit `start` on.
pub fn read_packed(data: &[u8], start: usize, width: u8) -> (value: u64)
    requires
        width <= 64,
        start + width <= 8 * data@.len(),
        start + width <= usize::MAX,
    ensures
        value == packed_value(data@, start as nat, width as nat),
{
    let mut value: u64 = 0;
    let mut k: u8 = width;
    while k > 0
        invariant
            k <= width <= 64,
            start + width <= 8 * data@.len(),
            start + width <= usize::MAX,
            value == packed_value(data@, (start + k) as nat, (width - k) as nat),
        decreases k,
    {
        k = k - 1;
        let bit = get_bit(data, start + k as usize);
        proof {
            lemma_packed_value_bound(data@, (start + k + 1) as nat, (width - k - 1) as nat);
            lemma2_to64();
            lemma2_to64_rest();
            lemma_pow2_bounded((width - k - 1) as nat);
        }
        value = 2 * value + if bit {
            1
        } else {
            0
        };
    }
    value
}

/// Powers of two up to the 63rd are below two to the 63rd or equal to it.
pub proof fn lemma_pow2_bounded(n: nat)
    requires
        n <= 63,
    ensures
        pow2(n) <= 0x8000_0000_0000_0000,
    decreases 63 - n,
{
    if n == 63 {
        lemma2_to64_rest();
    } else {
        lemma_pow2_bounded(n + 1);
        lemma_pow2_unfold(n + 1);
    }
}

} // verus!
