//! Integers as little-endian bytes, stated by arithmetic alone.

use vstd::arithmetic::div_mod::{lemma_breakdown, lemma_div_denominator, lemma_small_mod};
use vstd::prelude::*;
use vstd::slice::slice_subrange;

verus! {

/// The number that `bytes` spell, least significant byte first.
pub open spec fn le_value(bytes: Seq<u8>) -> nat
    decreases bytes.len(),
{
    if bytes.len() == 0 {
        0
    } else {
        bytes[0] as nat + 256 * le_value(bytes.skip(1))
    }
}

/// The `n` bytes that spell `value`, least significant byte first. Where
/// `value` needs more than `n` bytes, its higher bytes are left out.
pub open spec fn le_bytes(value: nat, n: nat) -> Seq<u8>
    decreases n,
{
    if n == 0 {
        Seq::empty()
    } else {
        seq![(value % 256) as u8] + le_bytes(value / 256, (n - 1) as nat)
    }
}

/// 256 to the power `n`.
pub open spec fn pow256(n: nat) -> nat
    decreases n,
{
    if n == 0 {
        1
    } else {
        256 * pow256((n - 1) as nat)
    }
}

/// The signed number that the `n`-byte two's complement pattern `value` stands for.
pub open spec fn as_signed(value: nat, n: nat) -> int {
    if 2 * value >= pow256(n) {
        value - pow256(n)
    } else {
        value as int
    }
}

/// The `n`-byte two's complement pattern of `value`.
pub open spec fn as_unsigned(value: int, n: nat) -> nat {
    (value % (pow256(n) as int)) as nat
}

/// The powers of 256 up to the eighth.
pub proof fn lemma_pow256_values()
    ensures
        pow256(0) == 1,
        pow256(1) == 0x100,
        pow256(2) == 0x1_0000,
        pow256(3) == 0x100_0000,
        pow256(4) == 0x1_0000_0000,
        pow256(5) == 0x100_0000_0000,
        pow256(6) == 0x1_0000_0000_0000,
        pow256(7) == 0x100_0000_0000_0000,
        pow256(8) == 0x1_0000_0000_0000_0000,
{
    reveal_with_fuel(pow256, 10);
}

/// Spelling a number in `n` bytes gives `n` bytes.
pub proof fn lemma_le_bytes_len(value: nat, n: nat)
    ensures
        le_bytes(value, n).len() == n,
    decreases n,
{
    if n > 0 {
        lemma_le_bytes_len(value / 256, (n - 1) as nat);
    }
}

/// Spelling a number and reading it back gives the number, where it fits.
pub proof fn lemma_le_value_of_le_bytes(value: nat, n: nat)
    requires
        value < pow256(n),
    ensures
        le_value(le_bytes(value, n)) == value,
    decreases n,
{
    if n > 0 {
        let rest = le_bytes(value / 256, (n - 1) as nat);
        let all = le_bytes(value, n);
        assert(all.skip(1) =~= rest);
        assert(value / 256 < pow256((n - 1) as nat)) by (nonlinear_arith)
            requires
                value < 256 * pow256((n - 1) as nat),
        ;
        lemma_le_value_of_le_bytes(value / 256, (n - 1) as nat);
    }
}

/// What bytes spell is below 256 to the power of their number.
pub proof fn lemma_le_value_bound(bytes: Seq<u8>)
    ensures
        le_value(bytes) < pow256(bytes.len()),
    decreases bytes.len(),
{
    if bytes.len() > 0 {
        lemma_le_value_bound(bytes.skip(1));
    }
}

/// Reading bytes and spelling the number again gives the bytes.
pub proof fn lemma_le_bytes_of_le_value(bytes: Seq<u8>)
    ensures
        le_bytes(le_value(bytes), bytes.len()) == bytes,
    decreases bytes.len(),
{
    if bytes.len() > 0 {
        let rest = bytes.skip(1);
        lemma_le_bytes_of_le_value(rest);
        let v = le_value(bytes);
        assert(v % 256 == bytes[0] as nat && v / 256 == le_value(rest)) by (nonlinear_arith)
            requires
                v == bytes[0] as nat + 256 * le_value(rest),
                bytes[0] < 256,
        ;
        assert(le_bytes(v, bytes.len()) =~= bytes);
    } else {
        assert(le_bytes(le_value(bytes), 0) =~= bytes);
    }
}

/// What four bytes spell, written out.
pub proof fn lemma_le_value_4(b: Seq<u8>)
    requires
        b.len() == 4,
    ensures
        le_value(b) == b[0] + 0x100 * b[1] + 0x1_0000 * b[2] + 0x100_0000 * b[3],
{
    reveal_with_fuel(le_value, 5);
    assert(b.skip(1).skip(1) =~= b.skip(2));
    assert(b.skip(2).skip(1) =~= b.skip(3));
    assert(b.skip(3).skip(1) =~= b.skip(4));
}

/// What eight bytes spell, by their halves.
pub proof fn lemma_le_value_8(b: Seq<u8>)
    requires
        b.len() == 8,
    ensures
        le_value(b) == le_value(b.subrange(0, 4)) + 0x1_0000_0000 * le_value(b.subrange(4, 8)),
{
    lemma_le_value_concat(b.subrange(0, 4), b.subrange(4, 8));
    assert(b.subrange(0, 4) + b.subrange(4, 8) =~= b);
    lemma_pow256_values();
}

/// The value of two byte strings written one after the other.
pub proof fn lemma_le_value_concat(low: Seq<u8>, high: Seq<u8>)
    ensures
        le_value(low + high) == le_value(low) + pow256(low.len()) * le_value(high),
    decreases low.len(),
{
    if low.len() == 0 {
        assert(low + high =~= high);
        assert(pow256(0) == 1);
        assert(le_value(low) == 0);
    } else {
        assert((low + high).skip(1) =~= low.skip(1) + high);
        assert((low + high)[0] == low[0]);
        lemma_le_value_concat(low.skip(1), high);
        let p = pow256((low.len() - 1) as nat);
        let h = le_value(high);
        let l = le_value(low.skip(1));
        assert(256 * (l + p * h) == 256 * l + (256 * p) * h) by (nonlinear_arith);
        assert(le_value(low + high) == low[0] as nat + 256 * (l + p * h));
        assert(le_value(low) == low[0] as nat + 256 * l);
        assert(pow256(low.len()) == 256 * p);
    }
}

/// The four bytes of a number, written out.
pub proof fn lemma_le_bytes_4(x: nat)
    ensures
        le_bytes(x, 4) == seq![
            (x % 256) as u8,
            (x / 0x100 % 256) as u8,
            (x / 0x1_0000 % 256) as u8,
            (x / 0x100_0000 % 256) as u8,
        ],
{
    reveal_with_fuel(le_bytes, 5);
    assert(x / 256 / 256 == x / 0x1_0000 && x / 256 / 256 / 256 == x / 0x100_0000)
        by (nonlinear_arith);
    assert(le_bytes(x, 4) =~= seq![
        (x % 256) as u8,
        (x / 0x100 % 256) as u8,
        (x / 0x1_0000 % 256) as u8,
        (x / 0x100_0000 % 256) as u8,
    ]);
}

/// The bytes of a number are its low bytes, then those of what is left.
pub proof fn lemma_le_bytes_split(x: nat, n: nat, m: nat)
    ensures
        le_bytes(x, n + m) == le_bytes(x, n) + le_bytes(x / pow256(n), m),
    decreases n,
{
    if n == 0 {
        assert(le_bytes(x, 0) + le_bytes(x / 1, m) =~= le_bytes(x, m));
    } else {
        lemma_le_bytes_split(x / 256, (n - 1) as nat, m);
        let p = pow256((n - 1) as nat);
        lemma_pow256_positive((n - 1) as nat);
        lemma_div_denominator(x as int, 256, p as int);
        assert(le_bytes(x, n + m) =~= le_bytes(x, n) + le_bytes(x / pow256(n), m));
    }
}

/// A power of 256 is not zero.
pub proof fn lemma_pow256_positive(n: nat)
    ensures
        pow256(n) > 0,
    decreases n,
{
    if n > 0 {
        lemma_pow256_positive((n - 1) as nat);
    }
}

/// Reads the four bytes at `pos` as an unsigned number.
pub fn read_u32_le(data: &[u8], pos: usize) -> (x: u32)
    requires
        pos + 4 <= data@.len(),
    ensures
        x == le_value(data@.subrange(pos as int, pos + 4)),
{
    proof {
        lemma_le_value_4(data@.subrange(pos as int, pos + 4));
    }
    let b0: u32 = data[pos] as u32;
    let b1: u32 = data[pos + 1] as u32;
    let b2: u32 = data[pos + 2] as u32;
    let b3: u32 = data[pos + 3] as u32;
    b0 + 0x100 * b1 + 0x1_0000 * b2 + 0x100_0000 * b3
}

/// Reads the eight bytes at `pos` as an unsigned number.
pub fn read_u64_le(data: &[u8], pos: usize) -> (x: u64)
    requires
        pos + 8 <= data@.len(),
    ensures
        x == le_value(data@.subrange(pos as int, pos + 8)),
{
    let len: usize = data.len();
    let low: u32 = read_u32_le(data, pos);
    let high: u32 = read_u32_le(data, pos + 4);
    proof {
        let b = data@.subrange(pos as int, pos + 8);
        lemma_le_value_8(b);
        assert(b.subrange(0, 4) =~= data@.subrange(pos as int, pos + 4));
        assert(b.subrange(4, 8) =~= data@.subrange(pos + 4, pos + 8));
    }
    low as u64 + 0x1_0000_0000 * (high as u64)
}

/// The signed reading of a 32-bit pattern.
pub fn u32_as_signed(x: u32) -> (y: i32)
    ensures
        y == as_signed(x as nat, 4),
{
    proof {
        lemma_pow256_values();
    }
    if x >= 0x8000_0000 {
        ((x - 0x8000_0000) as i32) + i32::MIN
    } else {
        x as i32
    }
}

/// The signed reading of a 64-bit pattern.
pub fn u64_as_signed(x: u64) -> (y: i64)
    ensures
        y == as_signed(x as nat, 8),
{
    proof {
        lemma_pow256_values();
    }
    if x >= 0x8000_0000_0000_0000 {
        ((x - 0x8000_0000_0000_0000) as i64) + i64::MIN
    } else {
        x as i64
    }
}

/// The 32-bit pattern of a signed number.
pub fn i32_as_unsigned(x: i32) -> (y: u32)
    ensures
        y == as_unsigned(x as int, 4),
        as_signed(y as nat, 4) == x,
{
    proof {
        lemma_pow256_values();
    }
    if x < 0 {
        ((x - i32::MIN) as u32) + 0x8000_0000
    } else {
        x as u32
    }
}

/// The 64-bit pattern of a signed number.
pub fn i64_as_unsigned(x: i64) -> (y: u64)
    ensures
        y == as_unsigned(x as int, 8),
        as_signed(y as nat, 8) == x,
{
    proof {
        lemma_pow256_values();
    }
    if x < 0 {
        ((x - i64::MIN) as u64) + 0x8000_0000_0000_0000
    } else {
        x as u64
    }
}

/// Appends the four bytes of `x` to `out`.
pub fn push_u32_le(out: &mut Vec<u8>, x: u32)
    ensures
        final(out)@ == old(out)@ + le_bytes(x as nat, 4),
{
    proof {
        lemma_le_bytes_4(x as nat);
    }
    out.push((x % 256) as u8);
    out.push((x / 0x100 % 256) as u8);
    out.push((x / 0x1_0000 % 256) as u8);
    out.push((x / 0x100_0000 % 256) as u8);
    assert(out@ =~= old(out)@ + le_bytes(x as nat, 4));
}

/// Appends the eight bytes of `x` to `out`.
pub fn push_u64_le(out: &mut Vec<u8>, x: u64)
    ensures
        final(out)@ == old(out)@ + le_bytes(x as nat, 8),
{
    let low: u32 = (x % 0x1_0000_0000) as u32;
    let high: u32 = (x / 0x1_0000_0000) as u32;
    push_u32_le(out, low);
    push_u32_le(out, high);
    proof {
        lemma_le_bytes_split(x as nat, 4, 4);
        lemma_pow256_values();
        lemma_le_bytes_low(x as nat, 4);
        assert(out@ =~= old(out)@ + le_bytes(x as nat, 8));
    }
}

/// The low `n` bytes of a number depend only on its remainder by 256 to the `n`.
pub proof fn lemma_le_bytes_low(x: nat, n: nat)
    ensures
        le_bytes(x, n) == le_bytes(x % pow256(n), n),
    decreases n,
{
    if n > 0 {
        let p = pow256((n - 1) as nat);
        lemma_pow256_positive((n - 1) as nat);
        lemma_le_bytes_low(x / 256, (n - 1) as nat);
        let r = x % (256 * p);
        let q = (x / 256) % p;
        lemma_breakdown(x as int, 256, p as int);
        assert(r == 256 * q + x % 256);
        assert(r % 256 == x % 256 && r / 256 == q) by (nonlinear_arith)
            requires
                r == 256 * q + x % 256,
                0 <= x % 256 < 256,
        ;
        lemma_small_mod(q, p);
        lemma_le_bytes_low(r / 256, (n - 1) as nat);
    }
}

/// Copies `data` to the end of `out`.
pub fn push_all(out: &mut Vec<u8>, data: &[u8])
    ensures
        final(out)@ == old(out)@ + data@,
{
    out.extend_from_slice(data);
    assert(out@ =~= old(out)@ + data@);
}

/// Copies `data[from..to]` to the end of `out`.
pub fn push_range(out: &mut Vec<u8>, data: &[u8], from: usize, to: usize)
    requires
        from <= to <= data@.len(),
    ensures
        final(out)@ == old(out)@ + data@.subrange(from as int, to as int),
{
    let piece = slice_subrange(data, from, to);
    out.extend_from_slice(piece);
}

/// Appends the low `n` bytes of `x` to `out`.
pub fn push_le(out: &mut Vec<u8>, x: u64, n: usize)
    requires
        n <= 8,
    ensures
        final(out)@ == old(out)@ + le_bytes(x as nat, n as nat),
{
    let mut rest: u64 = x;
    let mut i: usize = 0;
    proof {
        assert(out@ =~= old(out)@ + le_bytes(x as nat, 0));
        assert(pow256(0) == 1);
    }
    while i < n
        invariant
            i <= n <= 8,
            rest == x as nat / pow256(i as nat),
            out@ == old(out)@ + le_bytes(x as nat, i as nat),
        decreases n - i,
    {
        out.push((rest % 256) as u8);
        proof {
            lemma_le_bytes_split(x as nat, i as nat, 1);
            lemma_pow256_positive(i as nat);
            lemma_div_denominator(x as int, pow256(i as nat) as int, 256);
            assert(pow256(i as nat) * 256 == pow256((i + 1) as nat)) by (nonlinear_arith)
                requires
                    pow256((i + 1) as nat) == 256 * pow256(i as nat),
            ;
            reveal_with_fuel(le_bytes, 2);
            assert(le_bytes(rest as nat, 1) =~= seq![(rest % 256) as u8]);
            assert(out@ =~= old(out)@ + le_bytes(x as nat, (i + 1) as nat));
        }
        rest = rest / 256;
        i = i + 1;
    }
}

} // verus!
