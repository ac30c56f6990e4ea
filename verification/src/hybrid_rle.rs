//! The hybrid of run-length and bit-packed runs in which levels and
//! dictionary indices are stored.
//!
//! A stream is a sequence of runs. Each run starts with a variable-length
//! header. An odd header announces groups of eight bit-packed values, half
//! the header being the number of groups. An even header announces one value,
//! stored in as many whole bytes as its width needs, and half the header is
//! the number of times that the value is repeated.

use crate::bits::{lemma_packed_value_bound, packed_value, read_packed};
use crate::bytes::{le_value, lemma_le_value_bound, lemma_pow256_values, pow256};
use crate::varint::{read_uleb64, uleb64};
use vstd::arithmetic::power2::{lemma2_to64, lemma_pow2_strictly_increases};
use vstd::prelude::*;
use vstd::slice::slice_subrange;

verus! {

/// The smaller of two numbers.
pub open spec fn min_nat(a: nat, b: nat) -> nat {
    if a <= b {
        a
    } else {
        b
    }
}

/// The number of whole bytes that hold a value of `width` bits.
pub open spec fn value_bytes(width: nat) -> nat {
    (width + 7) / 8
}

/// The number of bytes of the payload of a bit-packed run of `groups`
/// groups, of which `rest` bytes are there.
pub open spec fn packed_bytes(groups: nat, width: nat, rest: nat) -> nat {
    min_nat(groups * width, rest)
}

/// The values of `width` bits each that the stream `data` holds, up to
/// `limit` of them. The list ends at the first run that is not well formed.
pub open spec fn rle_values(data: Seq<u8>, width: nat, limit: nat) -> Seq<u32>
    decreases data.len(),
{
    if limit == 0 || data.len() == 0 || width == 0 {
        Seq::empty()
    } else {
        match uleb64(data) {
            None => Seq::empty(),
            Some((indicator, header)) => {
                if header < 1 || header > data.len() {
                    Seq::empty()
                } else {
                    let rest = data.skip(header as int);
                    if indicator % 2 == 1 {
                        let bytes = packed_bytes((indicator / 2) as nat, width, rest.len());
                        let taken = min_nat((8 * bytes) / width, limit);
                        Seq::new(taken, |i: int| packed_value(rest, (i * width) as nat, width) as u32)
                            + rle_values(rest.skip(bytes as int), width, (limit - taken) as nat)
                    } else if rest.len() < value_bytes(width) {
                        Seq::empty()
                    } else {
                        let taken = min_nat((indicator / 2) as nat, limit);
                        let value = le_value(rest.subrange(0, value_bytes(width) as int)) as u32;
                        Seq::new(taken, |i: int| value) + rle_values(
                            rest.skip(value_bytes(width) as int),
                            width,
                            (limit - taken) as nat,
                        )
                    }
                }
            },
        }
    }
}

/// Whether `data` is a stream of runs of one-bit values in which every
/// header is complete and announces fewer than two to the 31st values or
/// groups. A header at the very end, with no payload after it, is accepted.
pub open spec fn level_runs_ok(data: Seq<u8>) -> bool
    decreases data.len(),
{
    if data.len() == 0 {
        true
    } else {
        match uleb64(data) {
            None => false,
            Some((indicator, header)) => {
                if header < 1 || header > data.len() || indicator > u32::MAX {
                    false
                } else {
                    let rest = data.skip(header as int);
                    if rest.len() == 0 {
                        true
                    } else if indicator % 2 == 1 {
                        level_runs_ok(
                            rest.skip(packed_bytes((indicator / 2) as nat, 1, rest.len()) as int),
                        )
                    } else {
                        level_runs_ok(rest.skip(1))
                    }
                }
            },
        }
    }
}

/// Whether `data` is a well-formed stream of runs of one-bit values.
pub fn check_level_runs(data: &[u8]) -> (ok: bool)
    ensures
        ok == level_runs_ok(data@),
{
    let len: usize = data.len();
    let mut pos: usize = 0;
    proof {
        assert(data@.skip(0) =~= data@);
    }
    while pos < len
        invariant
            pos <= len == data@.len(),
            level_runs_ok(data@) == level_runs_ok(data@.skip(pos as int)),
        decreases len - pos,
    {
        let ghost here = data@.skip(pos as int);
        match read_uleb64(data, pos) {
            None => {
                return false;
            },
            Some((indicator, header)) => {
                if indicator > u32::MAX as u64 {
                    return false;
                }
                let start: usize = pos + header;
                let rest_len: usize = len - start;
                proof {
                    assert(here.skip(header as int) =~= data@.skip(start as int));
                }
                if rest_len == 0 {
                    return true;
                }
                if indicator % 2 == 1 {
                    let groups: u64 = indicator / 2;
                    let bytes: usize = if groups > rest_len as u64 {
                        rest_len
                    } else {
                        groups as usize
                    };
                    proof {
                        assert(bytes == packed_bytes(groups as nat, 1, rest_len as nat));
                        assert(data@.skip(start as int).skip(bytes as int) =~= data@.skip(
                            start + bytes,
                        ));
                    }
                    pos = start + bytes;
                } else {
                    proof {
                        assert(data@.skip(start as int).skip(1) =~= data@.skip(start + 1));
                    }
                    pos = start + 1;
                }
            },
        }
    }
    proof {
        assert(data@.skip(pos as int).len() == 0);
    }
    true
}

/// Reads the `count` bytes at `pos` as one number.
fn read_le_small(data: &[u8], pos: usize, count: usize) -> (x: u32)
    requires
        1 <= count <= 4,
        pos + count <= data@.len(),
    ensures
        x == le_value(data@.subrange(pos as int, pos + count)),
{
    let len: usize = data.len();
    let mut x: u32 = 0;
    let mut k: usize = count;
    proof {
        assert(data@.subrange(pos + count, pos + count).len() == 0);
    }
    while k > 0
        invariant
            k <= count <= 4,
            pos + count <= data@.len() == len,
            x == le_value(data@.subrange(pos + k, pos + count)),
        decreases k,
    {
        k = k - 1;
        proof {
            let whole = data@.subrange(pos + k, pos + count);
            assert(whole.skip(1) =~= data@.subrange(pos + k + 1, pos + count));
            lemma_le_value_bound(whole.skip(1));
            lemma_pow256_values();
            assert(whole.skip(1).len() <= 3);
            assert(pow256(whole.skip(1).len()) <= 0x100_0000) by {
                lemma_pow256_values();
                if whole.skip(1).len() == 0 {
                } else if whole.skip(1).len() == 1 {
                } else if whole.skip(1).len() == 2 {
                } else {
                }
            }
        }
        x = data[pos + k] as u32 + 256 * x;
    }
    x
}

/// Appends the first `taken` values of `width` bits each that `packed` holds.
fn push_packed(out: &mut Vec<u32>, packed: &[u8], width: u8, taken: usize)
    requires
        1 <= width <= 32,
        taken * width <= 8 * packed@.len(),
        8 * packed@.len() <= usize::MAX,
    ensures
        final(out)@ == old(out)@ + Seq::new(
            taken as nat,
            |k: int| packed_value(packed@, (k * width) as nat, width as nat) as u32,
        ),
{
    let mut i: usize = 0;
    proof {
        assert(out@ =~= old(out)@ + Seq::new(
            0nat,
            |k: int| packed_value(packed@, (k * width) as nat, width as nat) as u32,
        ));
    }
    while i < taken
        invariant
            1 <= width <= 32,
            i <= taken,
            taken * width <= 8 * packed@.len(),
            8 * packed@.len() <= usize::MAX,
            out@ == old(out)@ + Seq::new(
                i as nat,
                |k: int| packed_value(packed@, (k * width) as nat, width as nat) as u32,
            ),
        decreases taken - i,
    {
        proof {
            let w = width as int;
            let t = taken as int;
            let ii = i as int;
            assert(ii * w + w <= t * w && 0 <= ii * w) by (nonlinear_arith)
                requires
                    w > 0,
                    0 <= ii < t,
            ;
            lemma_packed_value_bound(packed@, (i * width) as nat, width as nat);
            lemma2_to64();
            if width < 32 {
                lemma_pow2_strictly_increases(width as nat, 32);
            }
        }
        let value: u64 = read_packed(packed, i * (width as usize), width);
        out.push(value as u32);
        i = i + 1;
        proof {
            assert(out@ =~= old(out)@ + Seq::new(
                i as nat,
                |k: int| packed_value(packed@, (k * width) as nat, width as nat) as u32,
            ));
        }
    }
}

/// Appends `value` `taken` times.
fn push_repeated(out: &mut Vec<u32>, value: u32, taken: usize)
    ensures
        final(out)@ == old(out)@ + Seq::new(taken as nat, |k: int| value),
{
    let mut i: usize = 0;
    proof {
        assert(out@ =~= old(out)@ + Seq::new(0nat, |k: int| value));
    }
    while i < taken
        invariant
            i <= taken,
            out@ == old(out)@ + Seq::new(i as nat, |k: int| value),
        decreases taken - i,
    {
        out.push(value);
        i = i + 1;
        proof {
            assert(out@ =~= old(out)@ + Seq::new(i as nat, |k: int| value));
        }
    }
}

/// The number of payload bytes of a bit-packed run.
fn packed_run_bytes(groups: u64, width: u8, rest_len: usize) -> (bytes: usize)
    requires
        1 <= width <= 32,
    ensures
        bytes == packed_bytes(groups as nat, width as nat, rest_len as nat),
        bytes <= rest_len,
{
    let per: usize = rest_len / (width as usize);
    if groups > per as u64 {
        proof {
            let g = groups as nat;
            let w = width as nat;
            let r = rest_len as nat;
            assert(g * w >= r) by (nonlinear_arith)
                requires
                    w > 0,
                    g > r / w,
            ;
        }
        rest_len
    } else {
        proof {
            let g = groups as nat;
            let w = width as nat;
            let r = rest_len as nat;
            assert(g * w <= r) by (nonlinear_arith)
                requires
                    w > 0,
                    g <= r / w,
            ;
        }
        groups as usize * (width as usize)
    }
}

/// The number of values that `bytes` bytes hold at `width` bits each.
fn held_values(bytes: usize, width: u8) -> (held: usize)
    requires
        1 <= width <= 32,
        8 * bytes <= usize::MAX,
    ensures
        held == (8 * bytes as nat) / (width as nat),
        held * width <= 8 * bytes,
{
    let held: usize = 8 * bytes / (width as usize);
    proof {
        let b = 8 * bytes as int;
        let w = width as int;
        assert((b / w) * w <= b) by (nonlinear_arith)
            requires
                w > 0,
                b >= 0,
        ;
    }
    held
}

/// Decodes the values of `width` bits each that the stream `data` holds, up
/// to `limit` of them.
pub fn decode_rle(data: &[u8], width: u8, limit: usize) -> (out: Vec<u32>)
    requires
        1 <= width <= 32,
        8 * data@.len() <= usize::MAX,
    ensures
        out@ == rle_values(data@, width as nat, limit as nat),
{
    let len: usize = data.len();
    let value_len: usize = (width as usize + 7) / 8;
    let mut out: Vec<u32> = Vec::new();
    let mut pos: usize = 0;
    let mut done: bool = false;
    proof {
        assert(data@.skip(0) =~= data@);
        assert(out@ + rle_values(data@, width as nat, limit as nat) =~= rle_values(
            data@,
            width as nat,
            limit as nat,
        ));
    }
    while !done
        invariant
            1 <= width <= 32,
            value_len == value_bytes(width as nat),
            8 * data@.len() <= usize::MAX,
            pos <= len == data@.len(),
            out@.len() <= limit,
            !done ==> rle_values(data@, width as nat, limit as nat) == out@ + rle_values(
                data@.skip(pos as int),
                width as nat,
                (limit - out@.len()) as nat,
            ),
            done ==> rle_values(data@, width as nat, limit as nat) == out@,
        decreases len - pos + if done { 0int } else { 1int },
    {
        let ghost here = data@.skip(pos as int);
        let ghost before = out@;
        let ghost left = (limit - out@.len()) as nat;
        if out.len() >= limit || pos >= len {
            proof {
                assert(rle_values(here, width as nat, left) =~= Seq::<u32>::empty());
                assert(out@ + Seq::<u32>::empty() =~= out@);
            }
            done = true;
        } else {
            match read_uleb64(data, pos) {
                None => {
                    proof {
                        assert(rle_values(here, width as nat, left) =~= Seq::<u32>::empty());
                        assert(out@ + Seq::<u32>::empty() =~= out@);
                    }
                    done = true;
                },
                Some((indicator, header)) => {
                    let start: usize = pos + header;
                    let rest = slice_subrange(data, start, len);
                    proof {
                        assert(here.skip(header as int) =~= data@.skip(start as int));
                        assert(rest@ =~= data@.skip(start as int));
                    }
                    if indicator % 2 == 1 {
                        let bytes: usize = packed_run_bytes(indicator / 2, width, rest.len());
                        let held: usize = held_values(bytes, width);
                        let taken: usize = if held <= limit - out.len() {
                            held
                        } else {
                            limit - out.len()
                        };
                        proof {
                            assert(taken * width <= held * width) by (nonlinear_arith)
                                requires
                                    taken <= held,
                                    width > 0,
                            ;
                        }
                        push_packed(&mut out, rest, width, taken);
                        proof {
                            assert(rest@.skip(bytes as int) =~= data@.skip(start + bytes));
                            let first = Seq::new(
                                taken as nat,
                                |k: int|
                                    packed_value(rest@, (k * width) as nat, width as nat) as u32,
                            );
                            let tail = rle_values(
                                data@.skip(start + bytes),
                                width as nat,
                                (left - taken) as nat,
                            );
                            assert(rle_values(here, width as nat, left) == first + tail);
                            assert(before + (first + tail) =~= (before + first) + tail);
                        }
                        pos = start + bytes;
                    } else if rest.len() < value_len {
                        proof {
                            assert(rle_values(here, width as nat, left) =~= Seq::<u32>::empty());
                            assert(out@ + Seq::<u32>::empty() =~= out@);
                        }
                        done = true;
                    } else {
                        let run: u64 = indicator / 2;
                        let value: u32 = read_le_small(rest, 0, value_len);
                        let taken: usize = if run <= (limit - out.len()) as u64 {
                            run as usize
                        } else {
                            limit - out.len()
                        };
                        push_repeated(&mut out, value, taken);
                        proof {
                            assert(rest@.skip(value_len as int) =~= data@.skip(start + value_len));
                            let first = Seq::new(taken as nat, |k: int| value);
                            let tail = rle_values(
                                data@.skip(start + value_len),
                                width as nat,
                                (left - taken) as nat,
                            );
                            assert(rle_values(here, width as nat, left) == first + tail);
                            assert(before + (first + tail) =~= (before + first) + tail);
                        }
                        pos = start + value_len;
                    }
                },
            }
        }
    }
    out
}

} // verus!
