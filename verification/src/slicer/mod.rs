//! Slicers: each reads the values of a data page, one after the other, from
//! the bytes of one encoding.
//!
//! A slicer only moves forward. Where a value depends on the ones before
//! it, as in the delta encodings and in runs of dictionary indices, the
//! values are decoded in their order, none left out: either all at once
//! when the slicer is made, or one by one as the cursor passes over them.
//! Values that are passed over are decoded like the others.

pub mod boolean;
pub mod convert;
pub mod delta;
pub mod dict;
pub mod fixed;
pub mod plain_var;

use crate::error::{LayoutReason, ParquetError, ParquetResult};
use vstd::prelude::*;

verus! {

/// A cursor over the values of a page. It can only move forward: by reading
/// the value under it, or by passing over values.
pub trait DataPageSlicer {
    /// What holds of every slicer between two calls.
    spec fn inv(&self) -> bool;

    /// The values that the page holds, in order, each as its bytes.
    spec fn values(&self) -> Seq<Seq<u8>>;

    /// The number of values read or passed over so far. `None` after an
    /// attempt to move past the last value.
    spec fn cursor(&self) -> Option<nat>;

    /// The error that is reported for an attempt to move past the last value.
    spec fn end_reason(&self) -> LayoutReason;

    /// The number of rows that the page declares.
    spec fn declared_rows(&self) -> usize;

    /// The number of bytes that the values of the page are taken to need:
    /// what a sink sets aside before it takes the first value.
    spec fn size_estimate(&self) -> usize;

    /// Appends the value under the cursor to `dest` and moves on by one.
    /// Where there is no value left, `dest` stays as it is.
    fn next_into(&mut self, dest: &mut Vec<u8>) -> (ok: bool)
        requires
            old(self).inv(),
        ensures
            final(self).inv(),
            final(self).values() == old(self).values(),
            final(self).end_reason() == old(self).end_reason(),
            final(self).declared_rows() == old(self).declared_rows(),
            final(self).size_estimate() == old(self).size_estimate(),
            final(self).cursor() == advance(old(self).cursor(), 1, old(self).values().len()),
            ok == final(self).cursor() is Some,
            ok ==> final(dest)@ == old(dest)@ + old(self).values()[old(self).cursor().unwrap() as int],
            !ok ==> final(dest)@ == old(dest)@,
    ;

    /// Passes over `count` values.
    fn skip(&mut self, count: usize)
        requires
            old(self).inv(),
        ensures
            final(self).inv(),
            final(self).values() == old(self).values(),
            final(self).end_reason() == old(self).end_reason(),
            final(self).declared_rows() == old(self).declared_rows(),
            final(self).size_estimate() == old(self).size_estimate(),
            final(self).cursor() == advance(
                old(self).cursor(),
                count as nat,
                old(self).values().len(),
            ),
    ;

    /// The number of rows that the page declares.
    fn count(&self) -> (rows: usize)
        requires
            self.inv(),
        ensures
            rows == self.declared_rows(),
    ;

    /// An estimate of the number of bytes that the values take.
    fn data_size(&self) -> (size: usize)
        requires
            self.inv(),
        ensures
            size == self.size_estimate(),
    ;

    /// Whether every move so far stayed within the values of the page.
    fn result(&self) -> (res: ParquetResult<()>)
        requires
            self.inv(),
        ensures
            res == slicer_result(self.cursor(), self.end_reason()),
    ;
}

/// The product of two numbers, or the largest number that a size can be
/// where the product is larger.
pub open spec fn saturating_product(a: nat, b: nat) -> usize {
    if a * b > usize::MAX {
        usize::MAX
    } else {
        (a * b) as usize
    }
}

/// Multiplies two sizes and stops at the largest size.
pub fn saturating_times(a: usize, b: usize) -> (product: usize)
    ensures
        product == saturating_product(a as nat, b as nat),
{
    if b != 0 && a > usize::MAX / b {
        proof {
            let x = a as int;
            let y = b as int;
            let m = usize::MAX as int;
            assert(x * y > m) by (nonlinear_arith)
                requires
                    y > 0,
                    x > m / y,
            ;
        }
        usize::MAX
    } else {
        proof {
            let x = a as int;
            let y = b as int;
            let m = usize::MAX as int;
            assert(0 <= x * y <= m) by (nonlinear_arith)
                requires
                    0 <= x,
                    0 <= y,
                    y == 0 || x <= m / y,
                    m >= 0,
            ;
        }
        a * b
    }
}

/// The cursor after a move by `count` over `len` values.
pub open spec fn advance(cursor: Option<nat>, count: nat, len: nat) -> Option<nat> {
    match cursor {
        Some(at) if at + count <= len => Some(at + count),
        _ => None,
    }
}

/// What a slicer reports at the end of a page.
pub open spec fn slicer_result(cursor: Option<nat>, end_reason: LayoutReason) -> ParquetResult<
    (),
> {
    match cursor {
        Some(_) => Ok(()),
        None => Err(ParquetError::Layout(end_reason)),
    }
}

} // verus!
