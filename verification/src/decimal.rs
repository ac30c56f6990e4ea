//! Decimals as doubles: an integer and a power of ten that divides it, as
//! the bit pattern of the nearest 64-bit floating-point number.

use vstd::arithmetic::div_mod::lemma_fundamental_div_mod;
use vstd::arithmetic::power2::{
    lemma2_to64, lemma2_to64_rest, lemma_pow2_adds, lemma_pow2_strictly_increases,
    lemma_pow2_unfold, pow2,
};
use vstd::prelude::*;

verus! {

/// Ten to the power `n`.
pub open spec fn pow10(n: nat) -> nat
    decreases n,
{
    if n == 0 {
        1
    } else {
        10 * pow10((n - 1) as nat)
    }
}

/// The largest scale for which ten to its power is a double.
pub const MAX_DECIMAL_SCALE: usize = 22;

/// Two to the power 52.
pub open spec fn two_52() -> nat {
    0x10_0000_0000_0000
}

/// Two to the power 53.
pub open spec fn two_53() -> nat {
    0x20_0000_0000_0000
}

/// `num` doubled until it is `den` or more, and the number of doublings.
pub open spec fn doubled_up(num: nat, den: nat) -> (nat, nat)
    decreases (if num < den {
        den - num
    } else {
        0
    }),
{
    if num == 0 || num >= den {
        (num, 0nat)
    } else {
        let (n, k) = doubled_up(2 * num, den);
        (n, k + 1)
    }
}

/// `den` doubled for as long as the double is `num` or less, and the number
/// of doublings.
pub open spec fn doubled_down(num: nat, den: nat) -> (nat, nat)
    decreases (if den < num {
        num - den
    } else {
        0
    }),
{
    if den == 0 || 2 * den > num {
        (den, 0nat)
    } else {
        let (d, k) = doubled_down(num, 2 * den);
        (d, k + 1)
    }
}

/// A number of 53 significant bits, `mantissa`, times two to the power
/// `exponent - 52`.
pub struct Rounded {
    pub mantissa: nat,
    pub exponent: int,
}

/// The quotient of `num` by `den`, which lies between one and two, to 52
/// binary places: rounded to the nearest, and to the even one of two that
/// are equally near.
pub open spec fn rounded_mantissa(num: nat, den: nat) -> nat {
    let scaled = num * two_52();
    let mantissa = scaled / den;
    let rest = scaled % den;
    if 2 * rest > den || (2 * rest == den && mantissa % 2 == 1) {
        mantissa + 1
    } else {
        mantissa
    }
}

/// The number of 53 significant bits that is nearest to the quotient of the
/// positive `a` by the positive `b`.
pub open spec fn round_ratio(a: nat, b: nat) -> Rounded {
    let (num, den, exponent) = if a >= b {
        let (d, k) = doubled_down(a, b);
        (a, d, k as int)
    } else {
        let (n, k) = doubled_up(a, b);
        (n, b, -(k as int))
    };
    let mantissa = rounded_mantissa(num, den);
    if mantissa == two_53() {
        Rounded { mantissa: two_52(), exponent: exponent + 1 }
    } else {
        Rounded { mantissa, exponent }
    }
}

/// The bit pattern of a double: the sign, the exponent above its bias of
/// 1023, and the mantissa without its leading bit.
pub open spec fn double_bits(negative: bool, rounded: Rounded) -> u64 {
    ((if negative {
        0x8000_0000_0000_0000int
    } else {
        0int
    }) + (rounded.exponent + 1023) * two_52() + (rounded.mantissa - two_52())) as u64
}

/// The bit pattern of the double that is nearest to `value` divided by ten
/// to the power `scale`. Zero gives the positive zero.
pub open spec fn decimal_double_bits(value: int, scale: nat) -> u64 {
    if value == 0 {
        0
    } else {
        double_bits(
            value < 0,
            round_ratio(
                (if value < 0 {
                    -value
                } else {
                    value
                }) as nat,
                pow10(scale),
            ),
        )
    }
}

/// The powers of ten up to the 22nd lie between one and ten to the 22nd.
pub proof fn lemma_pow10_bound(n: nat)
    requires
        n <= 22,
    ensures
        1 <= pow10(n) <= 10_000_000_000_000_000_000_000,
    decreases n,
{
    reveal_with_fuel(pow10, 23);
}

/// Ten to the power `scale`.
fn power_of_ten(scale: usize) -> (p: u128)
    requires
        scale <= 22,
    ensures
        p == pow10(scale as nat),
        1 <= p <= 10_000_000_000_000_000_000_000,
{
    let mut p: u128 = 1;
    let mut i: usize = 0;
    while i < scale
        invariant
            i <= scale <= 22,
            p == pow10(i as nat),
        decreases scale - i,
    {
        proof {
            lemma_pow10_bound(i as nat);
            lemma_pow10_bound((i + 1) as nat);
        }
        p = p * 10;
        i = i + 1;
    }
    proof {
        lemma_pow10_bound(scale as nat);
    }
    p
}

/// The mantissa of the quotient of `num` by `den`, rounded.
fn round_mantissa(num: u128, den: u128) -> (mantissa: u64)
    requires
        1 <= den <= num < 2 * den,
        num < 0x800_0000_0000_0000_0000,
    ensures
        mantissa == rounded_mantissa(num as nat, den as nat),
        two_52() <= mantissa <= two_53(),
{
    let scaled: u128 = num * 0x10_0000_0000_0000;
    let quotient: u128 = scaled / den;
    let rest: u128 = scaled % den;
    proof {
        let n = num as int;
        let d = den as int;
        let s = scaled as int;
        assert(0x10_0000_0000_0000 <= s / d < 0x20_0000_0000_0000) by (nonlinear_arith)
            requires
                1 <= d <= n < 2 * d,
                s == n * 0x10_0000_0000_0000,
        ;
    }
    if 2 * rest > den || (2 * rest == den && quotient % 2 == 1) {
        (quotient + 1) as u64
    } else {
        quotient as u64
    }
}

/// The bit pattern of the double that is nearest to `value` divided by ten
/// to the power `scale`.
pub fn decimal_to_double(value: i32, scale: usize) -> (bits: u64)
    requires
        scale <= 22,
    ensures
        bits == decimal_double_bits(value as int, scale as nat),
{
    if value == 0 {
        return 0;
    }
    let negative: bool = value < 0;
    let a: u128 = if negative {
        (-(value as i64)) as u128
    } else {
        value as u128
    };
    let b: u128 = power_of_ten(scale);
    let mut num: u128 = a;
    let mut den: u128 = b;
    let mut exponent: i32 = 0;
    proof {
        lemma2_to64();
    }
    if a >= b {
        while 2 * den <= num
            invariant
                num == a,
                1 <= den <= num <= 0x8000_0000,
                0 <= exponent <= 31,
                den >= pow2(exponent as nat),
                doubled_down(a as nat, b as nat) == (
                    doubled_down(num as nat, den as nat).0,
                    doubled_down(num as nat, den as nat).1 + exponent as nat,
                ),
            decreases num - den,
        {
            proof {
                lemma_pow2_unfold((exponent + 1) as nat);
                lemma2_to64();
                if exponent + 1 > 31 {
                    lemma_pow2_strictly_increases(31, (exponent + 1) as nat);
                }
            }
            den = 2 * den;
            exponent = exponent + 1;
        }
    } else {
        while num < den
            invariant
                den == b,
                1 <= num < 2 * den,
                den <= 10_000_000_000_000_000_000_000,
                -75 <= exponent <= 0,
                num >= pow2((-exponent) as nat),
                doubled_up(a as nat, b as nat) == (
                    doubled_up(num as nat, den as nat).0,
                    doubled_up(num as nat, den as nat).1 + (-exponent) as nat,
                ),
            decreases (if num < den {
                    den - num
                } else {
                    0
                }),
        {
            proof {
                lemma_pow2_unfold((-exponent + 1) as nat);
                lemma2_to64();
                lemma2_to64_rest();
                if -exponent + 1 > 75 {
                    lemma_pow2_strictly_increases(75, (-exponent + 1) as nat);
                }
                lemma_pow2_75();
            }
            num = 2 * num;
            exponent = exponent - 1;
        }
    }
    let mut mantissa: u64 = round_mantissa(num, den);
    if mantissa == 0x20_0000_0000_0000 {
        mantissa = 0x10_0000_0000_0000;
        exponent = exponent + 1;
    }
    let sign: u64 = if negative {
        0x8000_0000_0000_0000
    } else {
        0
    };
    sign + ((exponent + 1023) as u64) * 0x10_0000_0000_0000 + (mantissa - 0x10_0000_0000_0000)
}

proof fn lemma_pow2_75()
    ensures
        pow2(75) == 0x800_0000_0000_0000_0000,
{
    lemma2_to64_rest();
    lemma_pow2_adds(64, 11);
    lemma2_to64();
}

/// Doubling the divisor brings the quotient between one and two: where
/// `den` is at most `num`, the doubled divisor is `den` times a power of two,
/// is at most `num`, and twice it is more than `num`.
pub proof fn lemma_doubled_down(num: nat, den: nat)
    requires
        1 <= den <= num,
    ensures
        doubled_down(num, den).0 == den * pow2(doubled_down(num, den).1),
        doubled_down(num, den).0 <= num < 2 * doubled_down(num, den).0,
    decreases num - den,
{
    lemma2_to64();
    if 2 * den <= num {
        lemma_doubled_down(num, 2 * den);
        let k = doubled_down(num, 2 * den).1;
        lemma_pow2_unfold(k + 1);
        assert((2 * den) * pow2(k) == den * (2 * pow2(k))) by (nonlinear_arith);
    } else {
        assert(den * 1 == den) by (nonlinear_arith);
    }
}

/// Doubling the dividend brings the quotient between one and two: where
/// `num` is below `den`, the doubled dividend is `num` times a power of two,
/// is at least `den`, and is less than twice `den`.
pub proof fn lemma_doubled_up(num: nat, den: nat)
    requires
        1 <= num < den,
    ensures
        doubled_up(num, den).0 == num * pow2(doubled_up(num, den).1),
        den <= doubled_up(num, den).0 < 2 * den,
    decreases den - num,
{
    lemma2_to64();
    if 2 * num < den {
        lemma_doubled_up(2 * num, den);
        let k = doubled_up(2 * num, den).1;
        lemma_pow2_unfold(k + 1);
        assert((2 * num) * pow2(k) == num * (2 * pow2(k))) by (nonlinear_arith);
    } else {
        let k = doubled_up(2 * num, den).1;
        assert(doubled_up(2 * num, den) == (2 * num, 0nat));
        lemma_pow2_unfold(1);
        assert(num * 2 == 2 * num);
    }
}

/// The distance between two numbers.
pub open spec fn distance(a: nat, b: nat) -> nat {
    if a >= b {
        (a - b) as nat
    } else {
        (b - a) as nat
    }
}

/// The rounded mantissa is the nearest. For a quotient between one and two,
/// the mantissa has 53 bits, or is two to the 53rd; no number is nearer to
/// the quotient with 52 binary places than the mantissa; and where two are
/// equally near, the mantissa is the even one.
pub proof fn lemma_rounded_mantissa_is_nearest(num: nat, den: nat)
    requires
        1 <= den <= num < 2 * den,
    ensures
        two_52() <= rounded_mantissa(num, den) <= two_53(),
        2 * distance(num * two_52(), rounded_mantissa(num, den) * den) <= den,
        2 * distance(num * two_52(), rounded_mantissa(num, den) * den) == den
            ==> rounded_mantissa(num, den) % 2 == 0,
{
    let scaled = (num * two_52()) as int;
    let d = den as int;
    let mantissa = scaled / d;
    let rest = scaled % d;
    lemma_fundamental_div_mod(scaled, d);
    assert(0 <= rest < d);
    assert(two_52() <= mantissa < two_53()) by (nonlinear_arith)
        requires
            1 <= d <= num < 2 * d,
            scaled == num * 0x10_0000_0000_0000,
            mantissa == scaled / d,
    ;
    assert(scaled == d * mantissa + rest);
    assert(d * mantissa == mantissa * d) by (nonlinear_arith);
    assert((mantissa + 1) * d == mantissa * d + d) by (nonlinear_arith);
}

} // verus!
