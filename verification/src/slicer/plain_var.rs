//! Plain encoding of variable-length values: each value after its length in
//! four bytes.

use crate::bytes::{le_value, push_range, read_u32_le};
use crate::error::{LayoutReason, ParquetError, ParquetResult};
use crate::slicer::{advance, DataPageSlicer};
use vstd::prelude::*;

verus! {

/// The values that `data` holds, each after its length. The list ends where
/// the bytes that are left do not hold a length and as many bytes as it says.
pub open spec fn plain_var_values(data: Seq<u8>) -> Seq<Seq<u8>>
    decreases data.len(),
{
    if data.len() < 4 {
        Seq::empty()
    } else {
        let length = le_value(data.subrange(0, 4)) as int;
        if 4 + length > data.len() {
            Seq::empty()
        } else {
            seq![data.subrange(4, 4 + length)] + plain_var_values(data.skip(4 + length))
        }
    }
}

/// Every value takes at least its four bytes of length.
pub proof fn lemma_plain_var_count(data: Seq<u8>)
    ensures
        4 * plain_var_values(data).len() <= data.len(),
    decreases data.len(),
{
    if data.len() >= 4 {
        let length = le_value(data.subrange(0, 4)) as int;
        if 4 + length <= data.len() {
            lemma_plain_var_count(data.skip(4 + length));
        }
    }
}

/// A slicer over plain variable-length values.
pub struct PlainVarSlicer<'a> {
    data: &'a [u8],
    pos: usize,
    index: usize,
    overrun: bool,
    sliced_row_count: usize,
}

impl<'a> PlainVarSlicer<'a> {
    /// A slicer at the first of the values in `data`.
    pub fn new(data: &'a [u8], row_count: usize) -> (slicer: Self)
        ensures
            slicer.inv(),
            slicer.values() == plain_var_values(data@),
            slicer.cursor() == Some(0nat),
            slicer.declared_rows() == row_count,
            slicer.size_estimate() == data@.len(),
            slicer.end_reason() == LayoutReason::ValuesExhausted,
    {
        proof {
            assert(data@.skip(0) =~= data@);
            assert(plain_var_values(data@).skip(0) =~= plain_var_values(data@));
        }
        PlainVarSlicer { data, pos: 0, index: 0, overrun: false, sliced_row_count: row_count }
    }

    /// The length of the value at the cursor, where there is one.
    fn peek(&self) -> (res: Option<usize>)
        requires
            self.inv(),
        ensures
            match res {
                Some(length) => {
                    &&& self.pos + 4 + length <= self.data@.len()
                    &&& self.index < self.values().len()
                    &&& self.values()[self.index as int] == self.data@.subrange(
                        self.pos + 4,
                        self.pos + 4 + length,
                    )
                    &&& plain_var_values(self.data@.skip(self.pos + 4 + length))
                        == self.values().skip(self.index + 1)
                },
                None => self.index == self.values().len(),
            },
    {
        let len: usize = self.data.len();
        let ghost rest = self.data@.skip(self.pos as int);
        let ghost tail = self.values().skip(self.index as int);
        assert(tail == plain_var_values(rest));
        if len - self.pos < 4 {
            assert(tail.len() == 0);
            return None;
        }
        let length: usize = read_u32_le(self.data, self.pos) as usize;
        proof {
            assert(rest.subrange(0, 4) =~= self.data@.subrange(self.pos as int, self.pos + 4));
        }
        if length > len - self.pos - 4 {
            assert(tail.len() == 0);
            return None;
        }
        proof {
            assert(rest.subrange(4, 4 + length) =~= self.data@.subrange(
                self.pos + 4,
                self.pos + 4 + length,
            ));
            assert(rest.skip(4 + length) =~= self.data@.skip(self.pos + 4 + length));
            assert(tail == seq![rest.subrange(4, 4 + length)] + plain_var_values(
                rest.skip(4 + length),
            ));
            assert(tail.len() >= 1);
            assert(tail[0] == self.values()[self.index as int]);
            assert(tail.skip(1) =~= self.values().skip(self.index + 1));
            assert(tail.skip(1) =~= plain_var_values(rest.skip(4 + length)));
        }
        Some(length)
    }
}

impl<'a> DataPageSlicer for PlainVarSlicer<'a> {
    closed spec fn inv(&self) -> bool {
        &&& self.pos <= self.data@.len()
        &&& self.index <= plain_var_values(self.data@).len()
        &&& plain_var_values(self.data@.skip(self.pos as int)) == plain_var_values(
            self.data@,
        ).skip(self.index as int)
    }

    closed spec fn values(&self) -> Seq<Seq<u8>> {
        plain_var_values(self.data@)
    }

    closed spec fn cursor(&self) -> Option<nat> {
        if self.overrun {
            None
        } else {
            Some(self.index as nat)
        }
    }

    closed spec fn end_reason(&self) -> LayoutReason {
        LayoutReason::ValuesExhausted
    }

    closed spec fn declared_rows(&self) -> usize {
        self.sliced_row_count
    }

    closed spec fn size_estimate(&self) -> usize {
        self.data.len()
    }

    fn next_into(&mut self, dest: &mut Vec<u8>) -> (ok: bool) {
        if self.overrun {
            return false;
        }
        match self.peek() {
            None => {
                self.overrun = true;
                false
            },
            Some(length) => {
                proof {
                    lemma_plain_var_count(self.data@);
                }
                let len: usize = self.data.len();
                push_range(dest, self.data, self.pos + 4, self.pos + 4 + length);
                self.pos = self.pos + 4 + length;
                self.index = self.index + 1;
                true
            },
        }
    }

    fn skip(&mut self, count: usize) {
        let mut left: usize = if self.overrun {
            0
        } else {
            count
        };
        while left > 0
            invariant
                self.inv(),
                self.values() == old(self).values(),
                self.end_reason() == old(self).end_reason(),
                self.declared_rows() == old(self).declared_rows(),
                self.size_estimate() == old(self).size_estimate(),
                left <= count,
                left > 0 ==> !self.overrun,
                self.cursor() == advance(
                    old(self).cursor(),
                    (count - left) as nat,
                    old(self).values().len(),
                ) || (left == 0 && self.cursor() == advance(
                    old(self).cursor(),
                    count as nat,
                    old(self).values().len(),
                )),
            decreases left,
        {
            match self.peek() {
                None => {
                    self.overrun = true;
                    left = 0;
                },
                Some(length) => {
                    proof {
                        lemma_plain_var_count(self.data@);
                    }
                    let len: usize = self.data.len();
                    self.pos = self.pos + 4 + length;
                    self.index = self.index + 1;
                    left = left - 1;
                },
            }
        }
    }

    fn count(&self) -> (rows: usize) {
        self.sliced_row_count
    }

    fn data_size(&self) -> (size: usize) {
        self.data.len()
    }

    fn result(&self) -> (res: ParquetResult<()>) {
        if self.overrun {
            Err(ParquetError::Layout(LayoutReason::ValuesExhausted))
        } else {
            Ok(())
        }
    }
}

} // verus!
