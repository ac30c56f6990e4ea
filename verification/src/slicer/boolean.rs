//! Bit-packed booleans: one bit for each value, read out as one byte each.

use crate::bits::{bit_at, get_bit};
use crate::error::{LayoutReason, ParquetError, ParquetResult};
use crate::slicer::DataPageSlicer;
use vstd::prelude::*;

verus! {

/// The number of bits that are read from `len` bytes for `count` rows.
pub open spec fn boolean_count(len: nat, count: nat) -> nat {
    if count <= 8 * len {
        count
    } else {
        8 * len
    }
}

/// The first `count` bits of `data`, as far as it holds them, each as one
/// byte that is 1 or 0.
pub open spec fn boolean_values(data: Seq<u8>, count: nat) -> Seq<Seq<u8>> {
    Seq::new(
        boolean_count(data.len(), count),
        |i: int|
            seq![if bit_at(data, i as nat) {
                1u8
            } else {
                0u8
            }],
    )
}

/// A slicer over bit-packed booleans.
pub struct BooleanBitmapSlicer<'a> {
    data: &'a [u8],
    available: usize,
    index: usize,
    overrun: bool,
    sliced_row_count: usize,
}

impl<'a> BooleanBitmapSlicer<'a> {
    /// A slicer at the first of the `row_count` bits of `data`.
    pub fn new(data: &'a [u8], row_count: usize) -> (slicer: Self)
        ensures
            slicer.inv(),
            slicer.values() == boolean_values(data@, row_count as nat),
            slicer.cursor() == Some(0nat),
            slicer.declared_rows() == row_count,
            slicer.size_estimate() == boolean_count(data@.len(), row_count as nat),
            slicer.end_reason() == LayoutReason::ValuesExhausted,
    {
        let available: usize = if data.len() > usize::MAX / 8 || row_count <= 8 * data.len() {
            row_count
        } else {
            8 * data.len()
        };
        BooleanBitmapSlicer {
            data,
            available,
            index: 0,
            overrun: false,
            sliced_row_count: row_count,
        }
    }
}

impl<'a> DataPageSlicer for BooleanBitmapSlicer<'a> {
    closed spec fn inv(&self) -> bool {
        &&& self.available == boolean_count(self.data@.len(), self.sliced_row_count as nat)
        &&& self.index <= self.available
    }

    closed spec fn values(&self) -> Seq<Seq<u8>> {
        boolean_values(self.data@, self.sliced_row_count as nat)
    }

    closed spec fn cursor(&self) -> Option<nat> {
        if self.overrun {
            None
        } else {
            Some(self.index as nat)
        }
    }

    closed spec fn end_reason(&self) -> LayoutReason {
        LayoutReason::ValuesExhausted
    }

    closed spec fn declared_rows(&self) -> usize {
        self.sliced_row_count
    }

    closed spec fn size_estimate(&self) -> usize {
        self.available
    }

    fn next_into(&mut self, dest: &mut Vec<u8>) -> (ok: bool) {
        if self.overrun || self.index >= self.available {
            self.overrun = true;
            return false;
        }
        let bit = get_bit(self.data, self.index);
        dest.push(if bit {
            1
        } else {
            0
        });
        proof {
            assert(dest@ =~= old(dest)@ + self.values()[self.index as int]);
        }
        self.index = self.index + 1;
        true
    }

    fn skip(&mut self, count: usize) {
        if self.overrun || count > self.available - self.index {
            self.overrun = true;
        } else {
            self.index = self.index + count;
        }
    }

    fn count(&self) -> (rows: usize) {
        self.sliced_row_count
    }

    fn data_size(&self) -> (size: usize) {
        self.available
    }

    fn result(&self) -> (res: ParquetResult<()>) {
        if self.overrun {
            Err(ParquetError::Layout(LayoutReason::ValuesExhausted))
        } else {
            Ok(())
        }
    }
}

} // verus!
