//! Delta encoding of integers: a first value, then blocks of differences.
//!
//! The header holds four variable-length numbers: the number of values of a
//! block, the number of miniblocks of a block, the number of values of the
//! stream and, in zigzag form, the first value. Each block starts with the
//! smallest difference, in zigzag form, and one byte for each miniblock that
//! gives the width of its values. The miniblocks follow: each holds the
//! differences of as many values as a miniblock has, less the smallest
//! difference, in as many bits each as its width says. Miniblocks that no
//! value needs are not stored.
//!
//! All sums are taken modulo two to the 64th, and a value is held as its
//! 64-bit pattern.

use crate::bits::{packed_value, read_packed};
use crate::hybrid_rle::min_nat;
use crate::varint::{read_uleb64, uleb64};
use vstd::prelude::*;
use vstd::slice::slice_subrange;

verus! {

/// The sum of two 64-bit patterns, modulo two to the 64th.
pub open spec fn wrap_add(a: u64, b: u64) -> u64 {
    if a + b > u64::MAX {
        (a + b - 0x1_0000_0000_0000_0000) as u64
    } else {
        (a + b) as u64
    }
}

/// The 64-bit pattern of the signed number that the zigzag pattern `u` stands for.
pub open spec fn zigzag_pattern(u: u64) -> u64 {
    if u % 2 == 0 {
        u / 2
    } else {
        (u64::MAX - u / 2) as u64
    }
}

/// The sum of two 64-bit patterns, modulo two to the 64th.
pub fn wrapping_sum(a: u64, b: u64) -> (sum: u64)
    ensures
        sum == wrap_add(a, b),
{
    if a > u64::MAX - b {
        a - (u64::MAX - b) - 1
    } else {
        a + b
    }
}

/// The 64-bit pattern of the signed number that a zigzag pattern stands for.
pub fn zigzag_to_pattern(u: u64) -> (pattern: u64)
    ensures
        pattern == zigzag_pattern(u),
{
    if u % 2 == 0 {
        u / 2
    } else {
        u64::MAX - u / 2
    }
}

/// What the header of a delta-encoded stream declares.
pub struct DeltaHeader {
    /// The number of values of a miniblock.
    pub per_mini: u64,
    /// The number of miniblocks of a block.
    pub mini_blocks: u64,
    /// The number of values of the stream.
    pub total: u64,
    /// The pattern of the first value.
    pub first: u64,
    /// The number of bytes of the header.
    pub length: usize,
}

/// Whether a block of `block_size` values in `mini_blocks` miniblocks is one
/// that the format allows: a multiple of 128 values, in miniblocks of equal
/// size that is a multiple of eight.
pub open spec fn block_shape_ok(block_size: u64, mini_blocks: u64) -> bool {
    &&& block_size > 0
    &&& mini_blocks > 0
    &&& block_size % 128 == 0
    &&& block_size % mini_blocks == 0
    &&& (block_size / mini_blocks) % 8 == 0
}

/// The header at the front of `data`, where there is a complete and allowed one.
pub open spec fn delta_header(data: Seq<u8>) -> Option<DeltaHeader> {
    match uleb64(data) {
        None => None,
        Some((block_size, n1)) => match uleb64(data.skip(n1 as int)) {
            None => None,
            Some((mini_blocks, n2)) => match uleb64(data.skip((n1 + n2) as int)) {
                None => None,
                Some((total, n3)) => match uleb64(data.skip((n1 + n2 + n3) as int)) {
                    None => None,
                    Some((first, n4)) => if block_shape_ok(block_size, mini_blocks) {
                        Some(
                            DeltaHeader {
                                per_mini: block_size / mini_blocks,
                                mini_blocks,
                                total,
                                first: zigzag_pattern(first),
                                length: (n1 + n2 + n3 + n4) as usize,
                            },
                        )
                    } else {
                        None
                    },
                },
            },
        },
    }
}

/// A part of a stream: the patterns that it yields, the number of bytes that
/// they take, and whether it was well formed as far as it was read.
pub struct DeltaPart {
    pub values: Seq<u64>,
    pub consumed: nat,
    pub complete: bool,
}

/// The number of bytes of a miniblock of `per_mini` values of `width` bits.
pub open spec fn miniblock_bytes(per_mini: u64, width: u8) -> nat {
    ((per_mini / 8) * width) as nat
}

/// The differences held in the miniblocks whose widths are `widths`, up to
/// `limit` of them.
pub open spec fn delta_miniblocks(
    data: Seq<u8>,
    widths: Seq<u8>,
    per_mini: u64,
    min_delta: u64,
    limit: nat,
) -> DeltaPart
    decreases widths.len(),
{
    if limit == 0 || widths.len() == 0 {
        DeltaPart { values: Seq::empty(), consumed: 0, complete: true }
    } else {
        let width = widths[0];
        let bytes = miniblock_bytes(per_mini, width);
        if width > 64 || bytes > data.len() {
            DeltaPart { values: Seq::empty(), consumed: 0, complete: false }
        } else {
            let taken = min_nat(per_mini as nat, limit);
            let first = Seq::new(
                taken,
                |i: int| wrap_add(min_delta, packed_value(data, (i * width) as nat, width as nat) as u64),
            );
            let rest = delta_miniblocks(
                data.skip(bytes as int),
                widths.skip(1),
                per_mini,
                min_delta,
                (limit - taken) as nat,
            );
            DeltaPart {
                values: first + rest.values,
                consumed: bytes + rest.consumed,
                complete: rest.complete,
            }
        }
    }
}

/// The differences held in the blocks of `data`, up to `limit` of them.
pub open spec fn delta_blocks(data: Seq<u8>, per_mini: u64, mini_blocks: u64, limit: nat) -> DeltaPart
    decreases limit,
{
    if limit == 0 {
        DeltaPart { values: Seq::empty(), consumed: 0, complete: true }
    } else {
        match uleb64(data) {
            None => DeltaPart { values: Seq::empty(), consumed: 0, complete: false },
            Some((min_delta, n)) => {
                if n > data.len() || data.len() - n < mini_blocks {
                    DeltaPart { values: Seq::empty(), consumed: 0, complete: false }
                } else {
                    let widths = data.subrange(n as int, n + mini_blocks);
                    let body = data.skip(n + mini_blocks);
                    let block = delta_miniblocks(
                        body,
                        widths,
                        per_mini,
                        zigzag_pattern(min_delta),
                        limit,
                    );
                    if !block.complete || block.values.len() == 0 || block.values.len() > limit {
                        DeltaPart {
                            values: block.values,
                            consumed: (n + mini_blocks + block.consumed) as nat,
                            complete: false,
                        }
                    } else {
                        let rest = delta_blocks(
                            body.skip(block.consumed as int),
                            per_mini,
                            mini_blocks,
                            (limit - block.values.len()) as nat,
                        );
                        DeltaPart {
                            values: block.values + rest.values,
                            consumed: (n + mini_blocks + block.consumed + rest.consumed) as nat,
                            complete: rest.complete,
                        }
                    }
                }
            },
        }
    }
}

/// The values that start at `first` and go on by `deltas`.
pub open spec fn running_sums(first: u64, deltas: Seq<u64>) -> Seq<u64>
    decreases deltas.len(),
{
    if deltas.len() == 0 {
        seq![first]
    } else {
        seq![first] + running_sums(wrap_add(first, deltas[0]), deltas.skip(1))
    }
}

/// The values of a delta-encoded stream, up to `limit` of them; the number
/// of bytes that they take; and whether all the values that the header
/// declares, or `limit` of them, could be read. `None` where the header is
/// malformed.
pub open spec fn delta_values(data: Seq<u8>, limit: nat) -> Option<DeltaPart> {
    match delta_header(data) {
        None => None,
        Some(header) => {
            let wanted = min_nat(header.total as nat, limit);
            if wanted == 0 {
                Some(
                    DeltaPart {
                        values: Seq::empty(),
                        consumed: header.length as nat,
                        complete: true,
                    },
                )
            } else {
                let blocks = delta_blocks(
                    data.skip(header.length as int),
                    header.per_mini,
                    header.mini_blocks,
                    (wanted - 1) as nat,
                );
                Some(
                    DeltaPart {
                        values: running_sums(header.first, blocks.values),
                        consumed: (header.length + blocks.consumed) as nat,
                        complete: blocks.complete,
                    },
                )
            }
        },
    }
}

/// Reads the header at the front of `data`.
pub fn read_delta_header(data: &[u8]) -> (res: Option<DeltaHeader>)
    ensures
        res == delta_header(data@),
        res matches Some(header) ==> header.length <= data@.len() && header.per_mini > 0
            && header.mini_blocks > 0 && header.per_mini % 8 == 0,
{
    proof {
        assert(data@.skip(0) =~= data@);
    }
    let (block_size, n1) = match read_uleb64(data, 0) {
        None => {
            return None;
        },
        Some(pair) => pair,
    };
    let (mini_blocks, n2) = match read_uleb64(data, n1) {
        None => {
            return None;
        },
        Some(pair) => pair,
    };
    let (total, n3) = match read_uleb64(data, n1 + n2) {
        None => {
            return None;
        },
        Some(pair) => pair,
    };
    let (first, n4) = match read_uleb64(data, n1 + n2 + n3) {
        None => {
            return None;
        },
        Some(pair) => pair,
    };
    if block_size == 0 || mini_blocks == 0 || block_size % 128 != 0 || block_size % mini_blocks
        != 0 || (block_size / mini_blocks) % 8 != 0 {
        return None;
    }
    let per_mini: u64 = block_size / mini_blocks;
    proof {
        assert(per_mini > 0) by (nonlinear_arith)
            requires
                block_size > 0,
                mini_blocks > 0,
                block_size % mini_blocks == 0,
                per_mini == block_size / mini_blocks,
        ;
    }
    Some(
        DeltaHeader {
            per_mini,
            mini_blocks,
            total,
            first: zigzag_to_pattern(first),
            length: n1 + n2 + n3 + n4,
        },
    )
}

/// Appends the first `taken` differences of a miniblock.
fn push_deltas(out: &mut Vec<u64>, packed: &[u8], width: u8, taken: usize, min_delta: u64)
    requires
        width <= 64,
        taken * width <= 8 * packed@.len(),
        8 * packed@.len() <= usize::MAX,
    ensures
        final(out)@ == old(out)@ + Seq::new(
            taken as nat,
            |k: int|
                wrap_add(min_delta, packed_value(packed@, (k * width) as nat, width as nat) as u64),
        ),
{
    let mut i: usize = 0;
    proof {
        assert(out@ =~= old(out)@ + Seq::new(
            0nat,
            |k: int|
                wrap_add(min_delta, packed_value(packed@, (k * width) as nat, width as nat) as u64),
        ));
    }
    while i < taken
        invariant
            width <= 64,
            i <= taken,
            taken * width <= 8 * packed@.len(),
            8 * packed@.len() <= usize::MAX,
            out@ == old(out)@ + Seq::new(
                i as nat,
                |k: int|
                    wrap_add(
                        min_delta,
                        packed_value(packed@, (k * width) as nat, width as nat) as u64,
                    ),
            ),
        decreases taken - i,
    {
        proof {
            let w = width as int;
            let t = taken as int;
            let ii = i as int;
            assert(ii * w + w <= t * w && 0 <= ii * w) by (nonlinear_arith)
                requires
                    w >= 0,
                    0 <= ii < t,
            ;
        }
        let value: u64 = read_packed(packed, i * (width as usize), width);
        out.push(wrapping_sum(min_delta, value));
        i = i + 1;
        proof {
            assert(out@ =~= old(out)@ + Seq::new(
                i as nat,
                |k: int|
                    wrap_add(
                        min_delta,
                        packed_value(packed@, (k * width) as nat, width as nat) as u64,
                    ),
            ));
        }
    }
}

/// The number of bytes of a miniblock, where `rest_len` bytes hold it.
fn miniblock_len(per_mini: u64, width: u8, rest_len: usize) -> (res: Option<usize>)
    requires
        width <= 64,
        per_mini % 8 == 0,
    ensures
        match res {
            Some(bytes) => bytes == miniblock_bytes(per_mini, width) && bytes <= rest_len && 8
                * bytes == per_mini * width,
            None => miniblock_bytes(per_mini, width) > rest_len,
        },
{
    let groups: u64 = per_mini / 8;
    if width == 0 {
        proof {
            assert(groups * 0 == 0 && per_mini * 0 == 0) by (nonlinear_arith);
        }
        return Some(0);
    }
    let per: usize = rest_len / (width as usize);
    proof {
        let g = groups as int;
        let w = width as int;
        let r = rest_len as int;
        let p = per_mini as int;
        assert(g > r / w ==> g * w > r) by (nonlinear_arith)
            requires
                w > 0,
                r >= 0,
        ;
        assert(g <= r / w ==> g * w <= r) by (nonlinear_arith)
            requires
                w > 0,
                r >= 0,
                g >= 0,
        ;
        assert(8 * (g * w) == p * w) by (nonlinear_arith)
            requires
                p == 8 * g,
        ;
    }
    if groups > per as u64 {
        None
    } else {
        Some(groups as usize * (width as usize))
    }
}

/// Decodes the differences of the miniblocks whose widths are `widths`, up
/// to `limit` of them, and appends them to `out`: the number of bytes read,
/// and whether the miniblocks were well formed.
fn decode_miniblocks(
    out: &mut Vec<u64>,
    data: &[u8],
    widths: &[u8],
    per_mini: u64,
    min_delta: u64,
    limit: usize,
) -> (res: (usize, bool))
    requires
        per_mini > 0,
        per_mini % 8 == 0,
        8 * data@.len() <= usize::MAX,
    ensures
        ({
            let part = delta_miniblocks(data@, widths@, per_mini, min_delta, limit as nat);
            &&& final(out)@ == old(out)@ + part.values
            &&& res.0 == part.consumed
            &&& res.1 == part.complete
            &&& part.values.len() <= limit
            &&& part.consumed <= data@.len()
            &&& limit > 0 && widths@.len() > 0 && part.complete ==> part.values.len() > 0
        }),
{
    let len: usize = data.len();
    let count: usize = widths.len();
    let mut pos: usize = 0;
    let mut j: usize = 0;
    let mut produced: usize = 0;
    let mut complete: bool = true;
    let mut done: bool = false;
    let ghost whole = delta_miniblocks(data@, widths@, per_mini, min_delta, limit as nat);
    proof {
        assert(data@.skip(0) =~= data@);
        assert(widths@.skip(0) =~= widths@);
        assert(out@ + Seq::<u64>::empty() =~= out@);
    }
    while !done
        invariant
            per_mini > 0,
            per_mini % 8 == 0,
            8 * data@.len() <= usize::MAX,
            len == data@.len(),
            count == widths@.len(),
            pos <= len,
            j <= count,
            produced <= limit,
            whole == delta_miniblocks(data@, widths@, per_mini, min_delta, limit as nat),
            out@.len() == old(out)@.len() + produced,
            out@.subrange(0, old(out)@.len() as int) == old(out)@,
            j == 0 ==> produced == 0,
            limit > 0 && count > 0 && complete && j == 0 ==> !done,
            limit > 0 && count > 0 && complete && j > 0 ==> produced > 0,
            !done ==> complete,
            !done ==> ({
                let rest = delta_miniblocks(
                    data@.skip(pos as int),
                    widths@.skip(j as int),
                    per_mini,
                    min_delta,
                    (limit - produced) as nat,
                );
                &&& whole.values == out@.skip(old(out)@.len() as int) + rest.values
                &&& whole.consumed == pos + rest.consumed
                &&& whole.complete == rest.complete
            }),
            done ==> ({
                &&& whole.values == out@.skip(old(out)@.len() as int)
                &&& whole.consumed == pos
                &&& whole.complete == complete
            }),
        decreases count - j + if done { 0int } else { 1int },
    {
        let ghost before = out@;
        let ghost made = out@.skip(old(out)@.len() as int);
        if produced >= limit || j >= count {
            proof {
                assert(made + Seq::<u64>::empty() =~= made);
            }
            done = true;
        } else {
            let width: u8 = widths[j];
            proof {
                assert(widths@.skip(j as int)[0] == width);
            }
            let rest = slice_subrange(data, pos, len);
            proof {
                assert(rest@ =~= data@.skip(pos as int));
            }
            let fits = if width > 64 {
                None
            } else {
                miniblock_len(per_mini, width, rest.len())
            };
            match fits {
                None => {
                    proof {
                        assert(made + Seq::<u64>::empty() =~= made);
                    }
                    complete = false;
                    done = true;
                },
                Some(bytes) => {
                    let left: usize = limit - produced;
                    let taken: usize = if per_mini > left as u64 {
                        left
                    } else {
                        per_mini as usize
                    };
                    proof {
                        let t = taken as int;
                        let p = per_mini as int;
                        let w = width as int;
                        assert(t * w <= p * w) by (nonlinear_arith)
                            requires
                                0 <= t <= p,
                                w >= 0,
                        ;
                    }
                    push_deltas(out, rest, width, taken, min_delta);
                    proof {
                        let first = Seq::new(
                            taken as nat,
                            |k: int|
                                wrap_add(
                                    min_delta,
                                    packed_value(rest@, (k * width) as nat, width as nat) as u64,
                                ),
                        );
                        assert(out@ == before + first);
                        assert(rest@.skip(bytes as int) =~= data@.skip(pos + bytes));
                        assert(widths@.skip(j as int).skip(1) =~= widths@.skip(j + 1));
                        let tail = delta_miniblocks(
                            data@.skip(pos + bytes),
                            widths@.skip(j + 1),
                            per_mini,
                            min_delta,
                            (left - taken) as nat,
                        );
                        assert(taken == min_nat(per_mini as nat, left as nat));
                        assert(out@.skip(old(out)@.len() as int) =~= made + first);
                        assert(made + (first + tail.values) =~= (made + first) + tail.values);
                        assert(out@.subrange(0, old(out)@.len() as int) =~= before.subrange(
                            0,
                            old(out)@.len() as int,
                        ));
                    }
                    pos = pos + bytes;
                    j = j + 1;
                    produced = produced + taken;
                },
            }
        }
    }
    proof {
        assert(out@ =~= out@.subrange(0, old(out)@.len() as int) + out@.skip(
            old(out)@.len() as int,
        ));
    }
    (pos, complete)
}

/// Decodes the differences of the blocks of `data`, up to `limit` of them:
/// the differences, the number of bytes read, and whether the blocks were well
/// formed.
fn decode_blocks(data: &[u8], per_mini: u64, mini_blocks: u64, limit: usize) -> (res: (
    Vec<u64>,
    usize,
    bool,
))
    requires
        per_mini > 0,
        per_mini % 8 == 0,
        mini_blocks > 0,
        8 * data@.len() <= usize::MAX,
    ensures
        ({
            let part = delta_blocks(data@, per_mini, mini_blocks, limit as nat);
            &&& res.0@ == part.values
            &&& res.1 == part.consumed
            &&& res.2 == part.complete
            &&& part.values.len() <= limit
            &&& part.consumed <= data@.len()
        }),
{
    let len: usize = data.len();
    let mut out: Vec<u64> = Vec::new();
    let mut pos: usize = 0;
    let mut complete: bool = true;
    let mut done: bool = false;
    let ghost whole = delta_blocks(data@, per_mini, mini_blocks, limit as nat);
    proof {
        assert(data@.skip(0) =~= data@);
        assert(out@ + whole.values =~= whole.values);
    }
    while !done
        invariant
            per_mini > 0,
            per_mini % 8 == 0,
            mini_blocks > 0,
            8 * data@.len() <= usize::MAX,
            len == data@.len(),
            pos <= len,
            out@.len() <= limit,
            whole == delta_blocks(data@, per_mini, mini_blocks, limit as nat),
            !done ==> complete,
            !done ==> ({
                let rest = delta_blocks(
                    data@.skip(pos as int),
                    per_mini,
                    mini_blocks,
                    (limit - out@.len()) as nat,
                );
                &&& whole.values == out@ + rest.values
                &&& whole.consumed == pos + rest.consumed
                &&& whole.complete == rest.complete
            }),
            done ==> ({
                &&& whole.values == out@
                &&& whole.consumed == pos
                &&& whole.complete == complete
            }),
        decreases limit - out@.len() + if done { 0int } else { 1int },
    {
        let ghost before = out@;
        let ghost here = data@.skip(pos as int);
        let left: usize = limit - out.len();
        if left == 0 {
            proof {
                assert(out@ + Seq::<u64>::empty() =~= out@);
            }
            done = true;
        } else {
            match read_uleb64(data, pos) {
                None => {
                    proof {
                        assert(out@ + Seq::<u64>::empty() =~= out@);
                    }
                    complete = false;
                    done = true;
                },
                Some((min_delta, n)) => {
                    let start: usize = pos + n;
                    if mini_blocks > (len - start) as u64 {
                        proof {
                            assert(out@ + Seq::<u64>::empty() =~= out@);
                        }
                        complete = false;
                        done = true;
                    } else {
                        let widths_end: usize = start + mini_blocks as usize;
                        let widths = slice_subrange(data, start, widths_end);
                        let body = slice_subrange(data, widths_end, len);
                        proof {
                            assert(widths@ =~= here.subrange(n as int, n + mini_blocks));
                            assert(body@ =~= here.skip(n + mini_blocks));
                        }
                        let (used, ok) = decode_miniblocks(
                            &mut out,
                            body,
                            widths,
                            per_mini,
                            zigzag_to_pattern(min_delta),
                            left,
                        );
                        let ghost block = delta_miniblocks(
                            body@,
                            widths@,
                            per_mini,
                            zigzag_pattern(min_delta),
                            left as nat,
                        );
                        proof {
                            assert(out@ == before + block.values);
                            assert(body@.skip(used as int) =~= data@.skip(widths_end + used));
                            let tail = delta_blocks(
                                data@.skip(widths_end + used),
                                per_mini,
                                mini_blocks,
                                (left - block.values.len()) as nat,
                            );
                            assert(before + (block.values + tail.values) =~= (before
                                + block.values) + tail.values);
                        }
                        proof {
                            let r = delta_blocks(here, per_mini, mini_blocks, left as nat);
                            assert(uleb64(here) == Some((min_delta, n as nat)));
                            if !ok {
                                assert(!block.complete);
                                assert(r.values == block.values);
                                assert(r.consumed == n + mini_blocks + block.consumed);
                                assert(!r.complete);
                            }
                        }
                        pos = widths_end + used;
                        if !ok {
                            complete = false;
                            done = true;
                        }
                    }
                },
            }
        }
    }
    (out, pos, complete)
}

/// A decoded stream: the patterns of its values, the number of bytes that
/// they take, and whether all the values that were asked for could be read.
pub struct DeltaDecoded {
    pub values: Vec<u64>,
    pub consumed: usize,
    pub complete: bool,
}

/// The running sums of `deltas` from `first` on.
fn sum_deltas(first: u64, deltas: &Vec<u64>) -> (out: Vec<u64>)
    ensures
        out@ == running_sums(first, deltas@),
{
    let mut out: Vec<u64> = Vec::new();
    out.push(first);
    let mut i: usize = 0;
    proof {
        assert(deltas@.skip(0) =~= deltas@);
        assert(out@.subrange(0, 0) + running_sums(first, deltas@) =~= running_sums(
            first,
            deltas@,
        ));
    }
    while i < deltas.len()
        invariant
            i <= deltas@.len(),
            out@.len() == i + 1,
            running_sums(first, deltas@) == out@.subrange(0, i as int) + running_sums(
                out@[i as int],
                deltas@.skip(i as int),
            ),
        decreases deltas@.len() - i,
    {
        let ghost before = out@;
        let next: u64 = wrapping_sum(out[i], deltas[i]);
        out.push(next);
        proof {
            let tail = deltas@.skip(i as int);
            assert(tail[0] == deltas@[i as int]);
            assert(tail.skip(1) =~= deltas@.skip(i + 1));
            assert(out@.subrange(0, i + 1) =~= before.subrange(0, i as int) + seq![before[i as int]]);
            let rest = running_sums(next, deltas@.skip(i + 1));
            assert(before.subrange(0, i as int) + (seq![before[i as int]] + rest) =~= (
            before.subrange(0, i as int) + seq![before[i as int]]) + rest);
        }
        i = i + 1;
    }
    proof {
        assert(deltas@.skip(i as int).len() == 0);
        assert(out@.subrange(0, i as int) + seq![out@[i as int]] =~= out@);
    }
    out
}

/// Decodes a delta-encoded stream, up to `limit` values. `None` where the
/// header is malformed.
pub fn decode_delta(data: &[u8], limit: usize) -> (res: Option<DeltaDecoded>)
    requires
        8 * data@.len() <= usize::MAX,
    ensures
        match res {
            Some(decoded) => delta_values(data@, limit as nat) == Some(
                DeltaPart {
                    values: decoded.values@,
                    consumed: decoded.consumed as nat,
                    complete: decoded.complete,
                },
            ) && decoded.values@.len() <= limit && decoded.consumed <= data@.len(),
            None => delta_values(data@, limit as nat) is None,
        },
{
    let header = match read_delta_header(data) {
        None => {
            return None;
        },
        Some(header) => header,
    };
    let wanted: usize = if header.total > limit as u64 {
        limit
    } else {
        header.total as usize
    };
    if wanted == 0 {
        return Some(DeltaDecoded { values: Vec::new(), consumed: header.length, complete: true });
    }
    let body = slice_subrange(data, header.length, data.len());
    proof {
        assert(body@ =~= data@.skip(header.length as int));
    }
    let (deltas, used, complete) = decode_blocks(
        body,
        header.per_mini,
        header.mini_blocks,
        wanted - 1,
    );
    let values = sum_deltas(header.first, &deltas);
    proof {
        lemma_running_sums_len(header.first, deltas@);
    }
    Some(DeltaDecoded { values, consumed: header.length + used, complete })
}

/// There is one value more than there are differences.
pub proof fn lemma_running_sums_len(first: u64, deltas: Seq<u64>)
    ensures
        running_sums(first, deltas).len() == deltas.len() + 1,
    decreases deltas.len(),
{
    if deltas.len() > 0 {
        lemma_running_sums_len(wrap_add(first, deltas[0]), deltas.skip(1));
    }
}

} // verus!
