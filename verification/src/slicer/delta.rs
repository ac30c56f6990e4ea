//! Slicers over the delta encodings: of integers, of byte strings given by
//! their lengths, and of byte strings given by what each shares with the one
//! before it.

use crate::bytes::{le_bytes, push_all, push_le, push_range};
use crate::delta::{decode_delta, delta_header, delta_values, read_delta_header};
use crate::error::{LayoutReason, ParquetError, ParquetResult};
use crate::slicer::{advance, saturating_product, saturating_times, DataPageSlicer};
use vstd::prelude::*;
use vstd::slice::slice_subrange;

verus! {

/// The values of a delta-encoded page of integers, each as its low `width`
/// bytes, or `None` where the header of the page is malformed.
pub open spec fn delta_int_values(data: Seq<u8>, width: nat, row_count: nat) -> Option<
    Seq<Seq<u8>>,
> {
    match delta_values(data, row_count) {
        None => None,
        Some(part) => Some(
            Seq::new(part.values.len(), |i: int| le_bytes(part.values[i] as nat, width)),
        ),
    }
}

/// The error that a read past the last value of a delta-encoded page gives:
/// the page is exhausted, or a block of it could not be read.
pub open spec fn delta_end_reason(complete: bool) -> LayoutReason {
    if complete {
        LayoutReason::ValuesExhausted
    } else {
        LayoutReason::DeltaBlocks
    }
}

/// A slicer over delta-encoded integers that hands out the low bytes of each.
pub struct DeltaBinaryPackedSlicer {
    values: Vec<u64>,
    complete: bool,
    width: usize,
    index: usize,
    overrun: bool,
    sliced_row_count: usize,
}

impl DeltaBinaryPackedSlicer {
    /// A slicer at the first value of the page, or the error that the header
    /// of the page is malformed.
    pub fn try_new(data: &[u8], width: usize, row_count: usize) -> (res: ParquetResult<Self>)
        requires
            1 <= width <= 8,
        ensures
            match res {
                Ok(slicer) => {
                    &&& slicer.inv()
                    &&& 8 * data@.len() <= usize::MAX
                    &&& delta_int_values(data@, width as nat, row_count as nat) == Some(
                        slicer.values(),
                    )
                    &&& slicer.cursor() == Some(0nat)
                    &&& slicer.declared_rows() == row_count
                    &&& slicer.size_estimate() == saturating_product(
                        slicer.values().len(),
                        width as nat,
                    )
                    &&& slicer.end_reason() == delta_end_reason(
                        delta_values(data@, row_count as nat).unwrap().complete,
                    )
                },
                Err(e) => if 8 * data@.len() > usize::MAX {
                    e == ParquetError::Layout(LayoutReason::SizeOverflow)
                } else {
                    delta_values(data@, row_count as nat) is None && e == ParquetError::Layout(
                        LayoutReason::DeltaHeader,
                    )
                },
            },
    {
        if data.len() > usize::MAX / 8 {
            return Err(ParquetError::Layout(LayoutReason::SizeOverflow));
        }
        match decode_delta(data, row_count) {
            None => Err(ParquetError::Layout(LayoutReason::DeltaHeader)),
            Some(decoded) => {
                let slicer = DeltaBinaryPackedSlicer {
                    values: decoded.values,
                    complete: decoded.complete,
                    width,
                    index: 0,
                    overrun: false,
                    sliced_row_count: row_count,
                };
                proof {
                    assert(slicer.values() =~= delta_int_values(
                        data@,
                        width as nat,
                        row_count as nat,
                    ).unwrap());
                }
                Ok(slicer)
            },
        }
    }
}

impl DataPageSlicer for DeltaBinaryPackedSlicer {
    closed spec fn inv(&self) -> bool {
        &&& 1 <= self.width <= 8
        &&& self.index <= self.values@.len()
    }

    closed spec fn values(&self) -> Seq<Seq<u8>> {
        Seq::new(self.values@.len(), |i: int| le_bytes(self.values@[i] as nat, self.width as nat))
    }

    closed spec fn cursor(&self) -> Option<nat> {
        if self.overrun {
            None
        } else {
            Some(self.index as nat)
        }
    }

    closed spec fn end_reason(&self) -> LayoutReason {
        delta_end_reason(self.complete)
    }

    closed spec fn declared_rows(&self) -> usize {
        self.sliced_row_count
    }

    closed spec fn size_estimate(&self) -> usize {
        saturating_product(self.values@.len(), self.width as nat)
    }

    fn next_into(&mut self, dest: &mut Vec<u8>) -> (ok: bool) {
        if self.overrun || self.index >= self.values.len() {
            self.overrun = true;
            return false;
        }
        push_le(dest, self.values[self.index], self.width);
        self.index = self.index + 1;
        true
    }

    fn skip(&mut self, count: usize) {
        if self.overrun || count > self.values.len() - self.index {
            self.overrun = true;
        } else {
            self.index = self.index + count;
        }
    }

    fn count(&self) -> (rows: usize) {
        self.sliced_row_count
    }

    fn data_size(&self) -> (size: usize) {
        saturating_times(self.values.len(), self.width)
    }

    fn result(&self) -> (res: ParquetResult<()>) {
        if self.overrun {
            if self.complete {
                Err(ParquetError::Layout(LayoutReason::ValuesExhausted))
            } else {
                Err(ParquetError::Layout(LayoutReason::DeltaBlocks))
            }
        } else {
            Ok(())
        }
    }
}

/// The byte strings that `payload` holds one after the other, their lengths
/// being `lengths`. The list ends at the first length that is negative as a
/// 32-bit number or that `payload` cannot meet.
pub open spec fn sliced_by_lengths(payload: Seq<u8>, lengths: Seq<u64>) -> Seq<Seq<u8>>
    decreases lengths.len(),
{
    if lengths.len() == 0 {
        Seq::empty()
    } else {
        let length = lengths[0];
        if length > i32::MAX || length > payload.len() {
            Seq::empty()
        } else {
            seq![payload.subrange(0, length as int)] + sliced_by_lengths(
                payload.skip(length as int),
                lengths.skip(1),
            )
        }
    }
}

/// There are no more values than lengths.
pub proof fn lemma_sliced_by_lengths_len(payload: Seq<u8>, lengths: Seq<u64>)
    ensures
        sliced_by_lengths(payload, lengths).len() <= lengths.len(),
    decreases lengths.len(),
{
    if lengths.len() > 0 {
        let length = lengths[0];
        if length <= i32::MAX && length <= payload.len() {
            lemma_sliced_by_lengths_len(payload.skip(length as int), lengths.skip(1));
        }
    }
}

/// What stands in the way of reading all the numbers of a delta-encoded
/// stream that a page of `row_count` rows can hold, if anything does.
pub open spec fn delta_stream_fault(data: Seq<u8>, row_count: nat) -> Option<LayoutReason> {
    match delta_header(data) {
        None => Some(LayoutReason::DeltaHeader),
        Some(header) => if header.total > row_count {
            Some(LayoutReason::DeltaHeader)
        } else if !delta_values(data, row_count).unwrap().complete {
            Some(LayoutReason::DeltaBlocks)
        } else {
            None
        },
    }
}

/// The bytes of a page of byte strings that follow the delta-encoded
/// lengths: the byte strings themselves, one after the other.
pub open spec fn delta_length_payload(data: Seq<u8>, row_count: nat) -> Seq<u8> {
    data.skip(delta_values(data, row_count).unwrap().consumed as int)
}

/// The values of a page of byte strings whose lengths are delta-encoded in
/// front of them.
pub open spec fn delta_length_values(data: Seq<u8>, row_count: nat) -> Seq<Seq<u8>> {
    sliced_by_lengths(
        delta_length_payload(data, row_count),
        delta_values(data, row_count).unwrap().values,
    )
}

/// Decodes all the numbers of a delta-encoded stream, of which there may be
/// `row_count` at most.
fn decode_whole_stream(data: &[u8], row_count: usize) -> (res: Result<(Vec<u64>, usize), LayoutReason>)
    requires
        8 * data@.len() <= usize::MAX,
    ensures
        match res {
            Ok((values, consumed)) => {
                &&& delta_stream_fault(data@, row_count as nat) is None
                &&& values@ == delta_values(data@, row_count as nat).unwrap().values
                &&& consumed == delta_values(data@, row_count as nat).unwrap().consumed
                &&& consumed <= data@.len()
            },
            Err(reason) => delta_stream_fault(data@, row_count as nat) == Some(reason),
        },
{
    let header = match read_delta_header(data) {
        None => {
            return Err(LayoutReason::DeltaHeader);
        },
        Some(header) => header,
    };
    if header.total > row_count as u64 {
        return Err(LayoutReason::DeltaHeader);
    }
    match decode_delta(data, row_count) {
        None => Err(LayoutReason::DeltaHeader),
        Some(decoded) => {
            if !decoded.complete {
                Err(LayoutReason::DeltaBlocks)
            } else {
                Ok((decoded.values, decoded.consumed))
            }
        },
    }
}

/// A slicer over byte strings whose lengths are delta-encoded in front of them.
pub struct DeltaLengthArraySlicer<'a> {
    payload: &'a [u8],
    lengths: Vec<u64>,
    pos: usize,
    index: usize,
    overrun: bool,
    sliced_row_count: usize,
}

impl<'a> DeltaLengthArraySlicer<'a> {
    /// A slicer at the first value of the page, or the error that the
    /// lengths cannot be read.
    pub fn try_new(data: &'a [u8], row_count: usize) -> (res: ParquetResult<Self>)
        ensures
            match res {
                Ok(slicer) => {
                    &&& slicer.inv()
                    &&& 8 * data@.len() <= usize::MAX
                    &&& delta_stream_fault(data@, row_count as nat) is None
                    &&& slicer.values() == delta_length_values(data@, row_count as nat)
                    &&& slicer.cursor() == Some(0nat)
                    &&& slicer.declared_rows() == row_count
                    &&& slicer.size_estimate() == delta_length_payload(
                        data@,
                        row_count as nat,
                    ).len()
                    &&& slicer.end_reason() == LayoutReason::ValuesExhausted
                },
                Err(e) => if 8 * data@.len() > usize::MAX {
                    e == ParquetError::Layout(LayoutReason::SizeOverflow)
                } else {
                    delta_stream_fault(data@, row_count as nat) matches Some(reason) && e
                        == ParquetError::Layout(reason)
                },
            },
    {
        if data.len() > usize::MAX / 8 {
            return Err(ParquetError::Layout(LayoutReason::SizeOverflow));
        }
        match decode_whole_stream(data, row_count) {
            Err(reason) => Err(ParquetError::Layout(reason)),
            Ok((lengths, consumed)) => {
                let payload = slice_subrange(data, consumed, data.len());
                proof {
                    assert(payload@ =~= data@.skip(consumed as int));
                    assert(payload@.skip(0) =~= payload@);
                    assert(lengths@.skip(0) =~= lengths@);
                    assert(sliced_by_lengths(payload@, lengths@).skip(0) =~= sliced_by_lengths(
                        payload@,
                        lengths@,
                    ));
                }
                Ok(
                    DeltaLengthArraySlicer {
                        payload,
                        lengths,
                        pos: 0,
                        index: 0,
                        overrun: false,
                        sliced_row_count: row_count,
                    },
                )
            },
        }
    }

    /// The length of the value at the cursor, where there is one.
    fn peek(&self) -> (res: Option<usize>)
        requires
            self.inv(),
        ensures
            match res {
                Some(length) => {
                    &&& self.pos + length <= self.payload@.len()
                    &&& self.index < self.values().len()
                    &&& self.index < self.lengths@.len()
                    &&& self.values()[self.index as int] == self.payload@.subrange(
                        self.pos as int,
                        self.pos + length,
                    )
                    &&& sliced_by_lengths(
                        self.payload@.skip(self.pos + length),
                        self.lengths@.skip(self.index + 1),
                    ) == self.values().skip(self.index + 1)
                },
                None => self.index == self.values().len(),
            },
    {
        let len: usize = self.payload.len();
        let ghost rest = self.payload@.skip(self.pos as int);
        let ghost lengths = self.lengths@.skip(self.index as int);
        let ghost tail = self.values().skip(self.index as int);
        assert(tail == sliced_by_lengths(rest, lengths));
        if self.index >= self.lengths.len() {
            assert(tail.len() == 0);
            return None;
        }
        let length: u64 = self.lengths[self.index];
        proof {
            assert(lengths[0] == length);
        }
        if length > i32::MAX as u64 || length > (len - self.pos) as u64 {
            assert(tail.len() == 0);
            return None;
        }
        proof {
            assert(rest.subrange(0, length as int) =~= self.payload@.subrange(
                self.pos as int,
                self.pos + length,
            ));
            assert(rest.skip(length as int) =~= self.payload@.skip(self.pos + length));
            assert(lengths.skip(1) =~= self.lengths@.skip(self.index + 1));
            assert(tail == seq![rest.subrange(0, length as int)] + sliced_by_lengths(
                rest.skip(length as int),
                lengths.skip(1),
            ));
            assert(tail.len() >= 1);
            assert(tail[0] == self.values()[self.index as int]);
            assert(tail.skip(1) =~= self.values().skip(self.index + 1));
            assert(tail.skip(1) =~= sliced_by_lengths(rest.skip(length as int), lengths.skip(1)));
        }
        Some(length as usize)
    }
}

impl<'a> DataPageSlicer for DeltaLengthArraySlicer<'a> {
    closed spec fn inv(&self) -> bool {
        &&& self.pos <= self.payload@.len()
        &&& self.index <= sliced_by_lengths(self.payload@, self.lengths@).len()
        &&& self.index <= self.lengths@.len()
        &&& sliced_by_lengths(
            self.payload@.skip(self.pos as int),
            self.lengths@.skip(self.index as int),
        ) == sliced_by_lengths(self.payload@, self.lengths@).skip(self.index as int)
    }

    closed spec fn values(&self) -> Seq<Seq<u8>> {
        sliced_by_lengths(self.payload@, self.lengths@)
    }

    closed spec fn cursor(&self) -> Option<nat> {
        if self.overrun {
            None
        } else {
            Some(self.index as nat)
        }
    }

    closed spec fn end_reason(&self) -> LayoutReason {
        LayoutReason::ValuesExhausted
    }

    closed spec fn declared_rows(&self) -> usize {
        self.sliced_row_count
    }

    closed spec fn size_estimate(&self) -> usize {
        self.payload.len()
    }

    fn next_into(&mut self, dest: &mut Vec<u8>) -> (ok: bool) {
        if self.overrun {
            return false;
        }
        match self.peek() {
            None => {
                self.overrun = true;
                false
            },
            Some(length) => {
                let len: usize = self.payload.len();
                let total: usize = self.lengths.len();
                push_range(dest, self.payload, self.pos, self.pos + length);
                self.pos = self.pos + length;
                self.index = self.index + 1;
                true
            },
        }
    }

    fn skip(&mut self, count: usize) {
        let mut left: usize = if self.overrun {
            0
        } else {
            count
        };
        while left > 0
            invariant
                self.inv(),
                self.values() == old(self).values(),
                self.end_reason() == old(self).end_reason(),
                self.declared_rows() == old(self).declared_rows(),
                self.size_estimate() == old(self).size_estimate(),
                left <= count,
                left > 0 ==> !self.overrun,
                self.cursor() == advance(
                    old(self).cursor(),
                    (count - left) as nat,
                    old(self).values().len(),
                ) || (left == 0 && self.cursor() == advance(
                    old(self).cursor(),
                    count as nat,
                    old(self).values().len(),
                )),
            decreases left,
        {
            match self.peek() {
                None => {
                    self.overrun = true;
                    left = 0;
                },
                Some(length) => {
                    let len: usize = self.payload.len();
                    let total: usize = self.lengths.len();
                    self.pos = self.pos + length;
                    self.index = self.index + 1;
                    left = left - 1;
                },
            }
        }
    }

    fn count(&self) -> (rows: usize) {
        self.sliced_row_count
    }

    fn data_size(&self) -> (size: usize) {
        self.payload.len()
    }

    fn result(&self) -> (res: ParquetResult<()>) {
        if self.overrun {
            Err(ParquetError::Layout(LayoutReason::ValuesExhausted))
        } else {
            Ok(())
        }
    }
}

/// The byte strings of which each takes its first bytes from the one before
/// it, as many as `prefixes` says, and the rest from `payload`, as many as
/// `suffixes` says. The list ends at the first entry that asks for more than
/// the string before it, or `payload`, holds.
pub open spec fn rebuilt(
    prefixes: Seq<u64>,
    suffixes: Seq<u64>,
    payload: Seq<u8>,
    previous: Seq<u8>,
) -> Seq<Seq<u8>>
    decreases prefixes.len(),
{
    if prefixes.len() == 0 || suffixes.len() == 0 {
        Seq::empty()
    } else {
        let shared = prefixes[0];
        let length = suffixes[0];
        if shared > previous.len() || length > i32::MAX || length > payload.len() {
            Seq::empty()
        } else {
            let value = previous.subrange(0, shared as int) + payload.subrange(0, length as int);
            seq![value] + rebuilt(
                prefixes.skip(1),
                suffixes.skip(1),
                payload.skip(length as int),
                value,
            )
        }
    }
}

/// What stands in the way of reading the two streams of lengths of a page
/// of byte strings with shared prefixes, if anything does.
pub open spec fn delta_byte_array_fault(data: Seq<u8>, row_count: nat) -> Option<LayoutReason> {
    match delta_stream_fault(data, row_count) {
        Some(reason) => Some(reason),
        None => delta_stream_fault(
            data.skip(delta_values(data, row_count).unwrap().consumed as int),
            row_count,
        ),
    }
}

/// The bytes of a page of byte strings with shared prefixes that follow the
/// two streams of lengths: the rests of the byte strings, one after the
/// other.
pub open spec fn delta_byte_array_payload(data: Seq<u8>, row_count: nat) -> Seq<u8> {
    let rest = data.skip(delta_values(data, row_count).unwrap().consumed as int);
    rest.skip(delta_values(rest, row_count).unwrap().consumed as int)
}

/// The values of a page of byte strings with shared prefixes: the lengths
/// of the prefixes, the lengths of the rests, then the rests.
pub open spec fn delta_byte_array_values(data: Seq<u8>, row_count: nat) -> Seq<Seq<u8>> {
    let prefixes = delta_values(data, row_count).unwrap();
    let rest = data.skip(prefixes.consumed as int);
    let suffixes = delta_values(rest, row_count).unwrap();
    rebuilt(
        prefixes.values,
        suffixes.values,
        delta_byte_array_payload(data, row_count),
        Seq::empty(),
    )
}

/// A slicer over byte strings with shared prefixes. It holds the value
/// before the cursor, from which the next one is made.
pub struct DeltaBytesArraySlicer<'a> {
    payload: &'a [u8],
    prefixes: Vec<u64>,
    suffixes: Vec<u64>,
    last: Vec<u8>,
    pos: usize,
    index: usize,
    overrun: bool,
    sliced_row_count: usize,
}

impl<'a> DeltaBytesArraySlicer<'a> {
    /// A slicer at the first value of the page, or the error that the
    /// lengths cannot be read.
    pub fn try_new(data: &'a [u8], row_count: usize) -> (res: ParquetResult<Self>)
        ensures
            match res {
                Ok(slicer) => {
                    &&& slicer.inv()
                    &&& 8 * data@.len() <= usize::MAX
                    &&& delta_byte_array_fault(data@, row_count as nat) is None
                    &&& slicer.values() == delta_byte_array_values(data@, row_count as nat)
                    &&& slicer.cursor() == Some(0nat)
                    &&& slicer.declared_rows() == row_count
                    &&& slicer.size_estimate() == delta_byte_array_payload(
                        data@,
                        row_count as nat,
                    ).len()
                    &&& slicer.end_reason() == LayoutReason::ValuesExhausted
                },
                Err(e) => if 8 * data@.len() > usize::MAX {
                    e == ParquetError::Layout(LayoutReason::SizeOverflow)
                } else {
                    delta_byte_array_fault(data@, row_count as nat) matches Some(reason) && e
                        == ParquetError::Layout(reason)
                },
            },
    {
        if data.len() > usize::MAX / 8 {
            return Err(ParquetError::Layout(LayoutReason::SizeOverflow));
        }
        let (prefixes, used) = match decode_whole_stream(data, row_count) {
            Err(reason) => {
                return Err(ParquetError::Layout(reason));
            },
            Ok(pair) => pair,
        };
        let rest = slice_subrange(data, used, data.len());
        proof {
            assert(rest@ =~= data@.skip(used as int));
        }
        let (suffixes, used_too) = match decode_whole_stream(rest, row_count) {
            Err(reason) => {
                return Err(ParquetError::Layout(reason));
            },
            Ok(pair) => pair,
        };
        let payload = slice_subrange(rest, used_too, rest.len());
        let last: Vec<u8> = Vec::new();
        proof {
            assert(payload@ =~= rest@.skip(used_too as int));
            assert(payload@.skip(0) =~= payload@);
            assert(prefixes@.skip(0) =~= prefixes@);
            assert(suffixes@.skip(0) =~= suffixes@);
            let all = rebuilt(prefixes@, suffixes@, payload@, Seq::empty());
            assert(all.skip(0) =~= all);
            assert(last@ =~= Seq::<u8>::empty());
        }
        Ok(
            DeltaBytesArraySlicer {
                payload,
                prefixes,
                suffixes,
                last,
                pos: 0,
                index: 0,
                overrun: false,
                sliced_row_count: row_count,
            },
        )
    }

    /// Makes the value under the cursor and moves on by one. `false` where
    /// there is no value left.
    fn step(&mut self) -> (ok: bool)
        requires
            old(self).inv(),
            !old(self).overrun,
        ensures
            final(self).inv(),
            final(self).values() == old(self).values(),
            final(self).declared_rows() == old(self).declared_rows(),
            final(self).size_estimate() == old(self).size_estimate(),
            final(self).overrun == !ok,
            ok == (old(self).index < old(self).values().len()),
            ok ==> final(self).index == old(self).index + 1 && final(self).last@ == old(
                self,
            ).values()[old(self).index as int],
            !ok ==> final(self).index == old(self).index,
    {
        let len: usize = self.payload.len();
        let ghost rest = self.payload@.skip(self.pos as int);
        let ghost prefixes = self.prefixes@.skip(self.index as int);
        let ghost suffixes = self.suffixes@.skip(self.index as int);
        let ghost tail = self.values().skip(self.index as int);
        let ghost previous = self.last@;
        assert(tail == rebuilt(prefixes, suffixes, rest, previous));
        if self.index >= self.prefixes.len() || self.index >= self.suffixes.len() {
            assert(tail.len() == 0);
            self.overrun = true;
            return false;
        }
        let shared: u64 = self.prefixes[self.index];
        let length: u64 = self.suffixes[self.index];
        proof {
            assert(prefixes[0] == shared);
            assert(suffixes[0] == length);
        }
        if shared > self.last.len() as u64 || length > i32::MAX as u64 || length > (len
            - self.pos) as u64 {
            assert(tail.len() == 0);
            self.overrun = true;
            return false;
        }
        self.last.truncate(shared as usize);
        push_range(&mut self.last, self.payload, self.pos, self.pos + length as usize);
        proof {
            let value = previous.subrange(0, shared as int) + rest.subrange(0, length as int);
            assert(rest.subrange(0, length as int) =~= self.payload@.subrange(
                self.pos as int,
                self.pos + length,
            ));
            assert(self.last@ =~= value);
            assert(rest.skip(length as int) =~= self.payload@.skip(self.pos + length));
            assert(prefixes.skip(1) =~= self.prefixes@.skip(self.index + 1));
            assert(suffixes.skip(1) =~= self.suffixes@.skip(self.index + 1));
            let more = rebuilt(prefixes.skip(1), suffixes.skip(1), rest.skip(length as int), value);
            assert(tail == seq![value] + more);
            assert(tail.len() >= 1);
            assert(tail[0] == self.values()[self.index as int]);
            assert(tail.skip(1) =~= self.values().skip(self.index + 1));
            assert(tail.skip(1) =~= more);
        }
        self.pos = self.pos + length as usize;
        self.index = self.index + 1;
        true
    }
}

impl<'a> DataPageSlicer for DeltaBytesArraySlicer<'a> {
    closed spec fn inv(&self) -> bool {
        &&& self.pos <= self.payload@.len()
        &&& self.index <= rebuilt(
            self.prefixes@,
            self.suffixes@,
            self.payload@,
            Seq::empty(),
        ).len()
        &&& self.index <= self.prefixes@.len()
        &&& self.index <= self.suffixes@.len()
        &&& rebuilt(
            self.prefixes@.skip(self.index as int),
            self.suffixes@.skip(self.index as int),
            self.payload@.skip(self.pos as int),
            self.last@,
        ) == rebuilt(self.prefixes@, self.suffixes@, self.payload@, Seq::empty()).skip(
            self.index as int,
        )
    }

    closed spec fn values(&self) -> Seq<Seq<u8>> {
        rebuilt(self.prefixes@, self.suffixes@, self.payload@, Seq::empty())
    }

    closed spec fn cursor(&self) -> Option<nat> {
        if self.overrun {
            None
        } else {
            Some(self.index as nat)
        }
    }

    closed spec fn end_reason(&self) -> LayoutReason {
        LayoutReason::ValuesExhausted
    }

    closed spec fn declared_rows(&self) -> usize {
        self.sliced_row_count
    }

    closed spec fn size_estimate(&self) -> usize {
        self.payload.len()
    }

    fn next_into(&mut self, dest: &mut Vec<u8>) -> (ok: bool) {
        if self.overrun {
            return false;
        }
        if self.step() {
            push_all(dest, self.last.as_slice());
            true
        } else {
            false
        }
    }

    fn skip(&mut self, count: usize) {
        let mut left: usize = if self.overrun {
            0
        } else {
            count
        };
        while left > 0
            invariant
                self.inv(),
                self.values() == old(self).values(),
                self.end_reason() == old(self).end_reason(),
                self.declared_rows() == old(self).declared_rows(),
                self.size_estimate() == old(self).size_estimate(),
                left <= count,
                left > 0 ==> !self.overrun,
                self.cursor() == advance(
                    old(self).cursor(),
                    (count - left) as nat,
                    old(self).values().len(),
                ) || (left == 0 && self.cursor() == advance(
                    old(self).cursor(),
                    count as nat,
                    old(self).values().len(),
                )),
            decreases left,
        {
            if self.step() {
                left = left - 1;
            } else {
                left = 0;
            }
        }
    }

    fn count(&self) -> (rows: usize) {
        self.sliced_row_count
    }

    fn data_size(&self) -> (size: usize) {
        self.payload.len()
    }

    fn result(&self) -> (res: ParquetResult<()>) {
        if self.overrun {
            Err(ParquetError::Layout(LayoutReason::ValuesExhausted))
        } else {
            Ok(())
        }
    }
}

} // verus!
