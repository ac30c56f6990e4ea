//! Plain encoding of fixed-width values: one value after the other.

use crate::bytes::push_range;
use crate::error::{LayoutReason, ParquetError, ParquetResult};
use crate::slicer::DataPageSlicer;
use vstd::prelude::*;

verus! {

/// The values of `width` bytes each that `data` holds one after the other.
/// Bytes at the end that do not make up a value are left out.
pub open spec fn fixed_values(data: Seq<u8>, width: nat) -> Seq<Seq<u8>> {
    Seq::new(
        if width == 0 {
            0
        } else {
            data.len() / width
        },
        |i: int| data.subrange(i * width, (i + 1) * width),
    )
}

/// A slicer over plain fixed-width values.
pub struct DataPageFixedSlicer<'a> {
    data: &'a [u8],
    width: usize,
    /// The number of whole values in `data`.
    available: usize,
    index: usize,
    overrun: bool,
    sliced_row_count: usize,
}

/// A value that is counted lies within the bytes.
pub proof fn lemma_fixed_value_range(len: nat, width: nat, i: nat)
    requires
        width > 0,
        i < len / width,
    ensures
        (i + 1) * width <= len,
        i * width + width == (i + 1) * width,
        0 <= i * width,
{
    assert((i + 1) * width <= len && i * width + width == (i + 1) * width && 0 <= i * width)
        by (nonlinear_arith)
        requires
            width > 0,
            i < len / width,
    ;
}

impl<'a> DataPageFixedSlicer<'a> {
    /// A slicer at the first of the values of `width` bytes in `data`.
    pub fn new(data: &'a [u8], width: usize, row_count: usize) -> (slicer: Self)
        requires
            width > 0,
        ensures
            slicer.inv(),
            slicer.values() == fixed_values(data@, width as nat),
            slicer.cursor() == Some(0nat),
            slicer.declared_rows() == row_count,
            slicer.size_estimate() == data@.len(),
            slicer.end_reason() == LayoutReason::ValuesExhausted,
    {
        DataPageFixedSlicer {
            data,
            width,
            available: data.len() / width,
            index: 0,
            overrun: false,
            sliced_row_count: row_count,
        }
    }
}

impl<'a> DataPageSlicer for DataPageFixedSlicer<'a> {
    closed spec fn inv(&self) -> bool {
        &&& self.width > 0
        &&& self.available == self.data@.len() / (self.width as nat)
        &&& self.index <= self.available
    }

    closed spec fn values(&self) -> Seq<Seq<u8>> {
        fixed_values(self.data@, self.width as nat)
    }

    closed spec fn cursor(&self) -> Option<nat> {
        if self.overrun {
            None
        } else {
            Some(self.index as nat)
        }
    }

    closed spec fn end_reason(&self) -> LayoutReason {
        LayoutReason::ValuesExhausted
    }

    closed spec fn declared_rows(&self) -> usize {
        self.sliced_row_count
    }

    closed spec fn size_estimate(&self) -> usize {
        self.data.len()
    }

    fn next_into(&mut self, dest: &mut Vec<u8>) -> (ok: bool) {
        if self.overrun || self.index >= self.available {
            self.overrun = true;
            return false;
        }
        proof {
            lemma_fixed_value_range(self.data@.len(), self.width as nat, self.index as nat);
        }
        let len: usize = self.data.len();
        let from: usize = self.index * self.width;
        push_range(dest, self.data, from, from + self.width);
        self.index = self.index + 1;
        true
    }

    fn skip(&mut self, count: usize) {
        if self.overrun || count > self.available - self.index {
            self.overrun = true;
        } else {
            self.index = self.index + count;
        }
    }

    fn count(&self) -> (rows: usize) {
        self.sliced_row_count
    }

    fn data_size(&self) -> (size: usize) {
        self.data.len()
    }

    fn result(&self) -> (res: ParquetResult<()>) {
        if self.overrun {
            Err(ParquetError::Layout(LayoutReason::ValuesExhausted))
        } else {
            Ok(())
        }
    }
}

} // verus!
