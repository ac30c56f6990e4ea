//! Dictionary encoding: a page of entries, and data pages that hold indices
//! into it in runs.

use crate::bytes::{le_bytes, push_le, push_range, read_u32_le};
use crate::error::{LayoutReason, ParquetError, ParquetResult};
use crate::hybrid_rle::{decode_rle, rle_values};
use crate::page::DictPage;
use crate::slicer::fixed::lemma_fixed_value_range;
use crate::slicer::plain_var::plain_var_values;
use crate::slicer::{saturating_product, saturating_times, DataPageSlicer};
use vstd::prelude::*;
use vstd::slice::slice_subrange;

verus! {

/// The table of values that a dictionary page holds.
pub trait DictDecoder {
    spec fn inv(&self) -> bool;

    /// The entries of the dictionary, in order.
    spec fn entries(&self) -> Seq<Seq<u8>>;

    /// The number of entries.
    fn len(&self) -> (n: usize)
        requires
            self.inv(),
        ensures
            n == self.entries().len(),
    ;

    /// Appends the entry at `index` to `dest`.
    fn append_entry(&self, index: usize, dest: &mut Vec<u8>)
        requires
            self.inv(),
            index < self.entries().len(),
        ensures
            final(dest)@ == old(dest)@ + self.entries()[index as int],
    ;

    /// The number of bytes that an entry is taken to have.
    spec fn key_len_estimate(&self) -> usize;

    /// An estimate of the number of bytes of one entry.
    fn avg_key_len(&self) -> (len: usize)
        requires
            self.inv(),
        ensures
            len == self.key_len_estimate(),
    ;
}

/// The first `count` entries of `width` bytes each in `buffer`.
pub open spec fn fixed_dict_entries(buffer: Seq<u8>, width: nat, count: nat) -> Seq<Seq<u8>> {
    Seq::new(count, |i: int| buffer.subrange(i * width, (i + 1) * width))
}

/// A dictionary of entries of one width.
pub struct FixedDictDecoder<'a> {
    data: &'a [u8],
    width: usize,
    count: usize,
}

impl<'a> FixedDictDecoder<'a> {
    /// The dictionary that `dict_page` holds, or the error that the page is
    /// shorter than the entries that it declares.
    pub fn try_new(dict_page: &'a DictPage, width: usize) -> (res: ParquetResult<Self>)
        requires
            width > 0,
        ensures
            match res {
                Ok(dict) => {
                    &&& dict.inv()
                    &&& dict_page.num_values <= dict_page.buffer@.len() / (width as nat)
                    &&& dict.entries() == fixed_dict_entries(
                        dict_page.buffer@,
                        width as nat,
                        dict_page.num_values as nat,
                    )
                    &&& dict.key_len_estimate() == width
                },
                Err(e) => dict_page.num_values > dict_page.buffer@.len() / (width as nat) && e
                    == ParquetError::Layout(LayoutReason::DictionaryTruncated),
            },
    {
        let data: &[u8] = dict_page.buffer.as_slice();
        if dict_page.num_values > data.len() / width {
            return Err(ParquetError::Layout(LayoutReason::DictionaryTruncated));
        }
        Ok(FixedDictDecoder { data, width, count: dict_page.num_values })
    }
}

impl<'a> DictDecoder for FixedDictDecoder<'a> {
    closed spec fn inv(&self) -> bool {
        self.width > 0 && self.count <= self.data@.len() / (self.width as nat)
    }

    closed spec fn entries(&self) -> Seq<Seq<u8>> {
        fixed_dict_entries(self.data@, self.width as nat, self.count as nat)
    }

    closed spec fn key_len_estimate(&self) -> usize {
        self.width
    }

    fn len(&self) -> (n: usize) {
        self.count
    }

    fn append_entry(&self, index: usize, dest: &mut Vec<u8>) {
        proof {
            lemma_fixed_value_range(self.data@.len(), self.width as nat, index as nat);
        }
        let len: usize = self.data.len();
        let from: usize = index * self.width;
        push_range(dest, self.data, from, from + self.width);
    }

    fn avg_key_len(&self) -> (len: usize) {
        self.width
    }
}

/// Whether `buffer` holds `count` entries, each after its length.
pub open spec fn var_dict_complete(buffer: Seq<u8>, count: nat) -> bool {
    count <= plain_var_values(buffer).len()
}

/// The first `count` entries that `buffer` holds, each after its length.
pub open spec fn var_dict_entries(buffer: Seq<u8>, count: nat) -> Seq<Seq<u8>> {
    plain_var_values(buffer).take(count as int)
}

/// The number of bytes of an entry of a dictionary of `count` entries in
/// `len` bytes, on the average and with the four bytes of its length: the
/// whole part of the quotient, and zero for a dictionary without entries.
pub open spec fn var_dict_key_len(len: nat, count: nat) -> usize {
    if count == 0 {
        0
    } else {
        (len / count) as usize
    }
}

/// A dictionary of entries of varying length, with the place of each.
pub struct VarDictDecoder<'a> {
    data: &'a [u8],
    /// Where each entry starts, and its length.
    places: Vec<(usize, usize)>,
}

impl<'a> VarDictDecoder<'a> {
    /// The dictionary that `dict_page` holds, or the error that the page is
    /// shorter than the entries that it declares.
    pub fn try_new(dict_page: &'a DictPage) -> (res: ParquetResult<Self>)
        ensures
            match res {
                Ok(dict) => {
                    &&& dict.inv()
                    &&& var_dict_complete(dict_page.buffer@, dict_page.num_values as nat)
                    &&& dict.entries() == var_dict_entries(
                        dict_page.buffer@,
                        dict_page.num_values as nat,
                    )
                    &&& dict.key_len_estimate() == var_dict_key_len(
                        dict_page.buffer@.len(),
                        dict_page.num_values as nat,
                    )
                },
                Err(e) => !var_dict_complete(dict_page.buffer@, dict_page.num_values as nat) && e
                    == ParquetError::Layout(LayoutReason::DictionaryTruncated),
            },
    {
        let data: &[u8] = dict_page.buffer.as_slice();
        let len: usize = data.len();
        let count: usize = dict_page.num_values;
        let mut places: Vec<(usize, usize)> = Vec::new();
        let mut pos: usize = 0;
        let ghost all = plain_var_values(data@);
        proof {
            assert(data@.skip(0) =~= data@);
            assert(all.skip(0) =~= all);
        }
        while places.len() < count
            invariant
                len == data@.len(),
                data@ == dict_page.buffer@,
                count == dict_page.num_values,
                pos <= len,
                all == plain_var_values(data@),
                places@.len() <= count,
                places@.len() <= all.len(),
                plain_var_values(data@.skip(pos as int)) == all.skip(places@.len() as int),
                forall|i: int|
                    0 <= i < places@.len() ==> {
                        &&& (#[trigger] places@[i]).0 + places@[i].1 <= len
                        &&& all[i] == data@.subrange(
                            places@[i].0 as int,
                            places@[i].0 + places@[i].1,
                        )
                    },
            decreases count - places@.len(),
        {
            let ghost rest = data@.skip(pos as int);
            let ghost tail = all.skip(places@.len() as int);
            if len - pos < 4 {
                assert(tail.len() == 0);
                assert(all.len() == places@.len());
                assert(data@ == dict_page.buffer@);
                return Err(ParquetError::Layout(LayoutReason::DictionaryTruncated));
            }
            let length: usize = read_u32_le(data, pos) as usize;
            proof {
                assert(rest.subrange(0, 4) =~= data@.subrange(pos as int, pos + 4));
            }
            if length > len - pos - 4 {
                assert(tail.len() == 0);
                assert(all.len() == places@.len());
                assert(data@ == dict_page.buffer@);
                return Err(ParquetError::Layout(LayoutReason::DictionaryTruncated));
            }
            proof {
                assert(rest.subrange(4, 4 + length) =~= data@.subrange(pos + 4, pos + 4 + length));
                assert(rest.skip(4 + length) =~= data@.skip(pos + 4 + length));
                assert(tail == seq![rest.subrange(4, 4 + length)] + plain_var_values(
                    rest.skip(4 + length),
                ));
                assert(tail.len() >= 1);
                assert(tail[0] == all[places@.len() as int]);
                assert(tail.skip(1) =~= all.skip(places@.len() as int + 1));
                assert(tail.skip(1) =~= plain_var_values(rest.skip(4 + length)));
            }
            places.push((pos + 4, length));
            pos = pos + 4 + length;
        }
        let dict = VarDictDecoder { data, places };
        proof {
            assert(dict.entries() =~= var_dict_entries(data@, count as nat));
        }
        Ok(dict)
    }
}

impl<'a> DictDecoder for VarDictDecoder<'a> {
    closed spec fn inv(&self) -> bool {
        forall|i: int|
            0 <= i < self.places@.len() ==> (#[trigger] self.places@[i]).0 + self.places@[i].1
                <= self.data@.len()
    }

    closed spec fn entries(&self) -> Seq<Seq<u8>> {
        Seq::new(
            self.places@.len(),
            |i: int|
                self.data@.subrange(
                    self.places@[i].0 as int,
                    self.places@[i].0 + self.places@[i].1,
                ),
        )
    }

    closed spec fn key_len_estimate(&self) -> usize {
        var_dict_key_len(self.data@.len(), self.places@.len())
    }

    fn len(&self) -> (n: usize) {
        self.places.len()
    }

    fn append_entry(&self, index: usize, dest: &mut Vec<u8>) {
        let len: usize = self.data.len();
        let (start, length) = self.places[index];
        push_range(dest, self.data, start, start + length);
    }

    fn avg_key_len(&self) -> (len: usize) {
        let count: usize = self.places.len();
        if count == 0 {
            0
        } else {
            self.data.len() / count
        }
    }
}

/// The indices that a dictionary-encoded data page holds for `row_count`
/// rows: the width of an index in the first byte, then the indices in runs.
/// At a width of zero every index is zero. `None` where the page is empty or
/// the width is above 32.
pub open spec fn dictionary_indices(buffer: Seq<u8>, row_count: nat) -> Option<Seq<u32>> {
    if buffer.len() == 0 || buffer[0] > 32 {
        None
    } else if buffer[0] == 0 {
        Some(Seq::new(row_count, |i: int| 0u32))
    } else {
        Some(rle_values(buffer.skip(1), buffer[0] as nat, row_count))
    }
}

/// Decodes the indices of a dictionary-encoded data page.
pub fn decode_indices(buffer: &[u8], row_count: usize) -> (res: ParquetResult<Vec<u32>>)
    ensures
        match res {
            Ok(indices) => 8 * buffer@.len() <= usize::MAX && dictionary_indices(
                buffer@,
                row_count as nat,
            ) == Some(indices@),
            Err(e) => if 8 * buffer@.len() > usize::MAX {
                e == ParquetError::Layout(LayoutReason::SizeOverflow)
            } else {
                dictionary_indices(buffer@, row_count as nat) is None && e == ParquetError::Layout(
                    LayoutReason::DictionaryRuns,
                )
            },
        },
{
    if buffer.len() > usize::MAX / 8 {
        return Err(ParquetError::Layout(LayoutReason::SizeOverflow));
    }
    if buffer.len() == 0 {
        return Err(ParquetError::Layout(LayoutReason::DictionaryRuns));
    }
    let width: u8 = buffer[0];
    if width > 32 {
        return Err(ParquetError::Layout(LayoutReason::DictionaryRuns));
    }
    if width == 0 {
        let mut zeros: Vec<u32> = Vec::new();
        while zeros.len() < row_count
            invariant
                zeros@.len() <= row_count,
                forall|i: int| 0 <= i < zeros@.len() ==> zeros@[i] == 0,
            decreases row_count - zeros@.len(),
        {
            zeros.push(0);
        }
        proof {
            assert(zeros@ =~= Seq::new(row_count as nat, |i: int| 0u32));
        }
        return Ok(zeros);
    }
    let runs = slice_subrange(buffer, 1, buffer.len());
    proof {
        assert(runs@ =~= buffer@.skip(1));
    }
    Ok(decode_rle(runs, width, row_count))
}

/// The number of indices at the front of `indices` that are below `bound`.
pub open spec fn leading_valid(indices: Seq<u32>, bound: nat) -> nat
    decreases indices.len(),
{
    if indices.len() == 0 || indices[0] >= bound {
        0
    } else {
        1 + leading_valid(indices.skip(1), bound)
    }
}

/// The indices that are counted lie within the bound, and the one after them, if there is one, does not.
pub proof fn lemma_leading_valid(indices: Seq<u32>, bound: nat)
    ensures
        leading_valid(indices, bound) <= indices.len(),
        forall|i: int| 0 <= i < leading_valid(indices, bound) ==> indices[i] < bound,
        leading_valid(indices, bound) < indices.len() ==> indices[leading_valid(
            indices,
            bound,
        ) as int] >= bound,
    decreases indices.len(),
{
    if indices.len() > 0 && indices[0] < bound {
        let rest = indices.skip(1);
        lemma_leading_valid(rest, bound);
        assert forall|i: int| 0 <= i < leading_valid(indices, bound) implies indices[i]
            < bound by {
            if i > 0 {
                assert(rest[i - 1] == indices[i]);
            }
        }
        if leading_valid(indices, bound) < indices.len() {
            assert(rest[leading_valid(rest, bound) as int] == indices[leading_valid(
                indices,
                bound,
            ) as int]);
        }
    }
}

/// The values that the indices stand for: the entries of the indices at the
/// front that lie within the dictionary.
pub open spec fn resolved(indices: Seq<u32>, entries: Seq<Seq<u8>>) -> Seq<Seq<u8>> {
    Seq::new(leading_valid(indices, entries.len()), |i: int| entries[indices[i] as int])
}

/// The error that a read past the last resolved value gives: the indices
/// are exhausted, or the next one lies outside the dictionary.
pub open spec fn dictionary_end_reason(indices: Seq<u32>, entries: nat) -> LayoutReason {
    if leading_valid(indices, entries) < indices.len() {
        LayoutReason::DictionaryIndex
    } else {
        LayoutReason::ValuesExhausted
    }
}

/// Counts the indices at the front of `indices` that are below `bound`.
fn count_leading_valid(indices: &Vec<u32>, bound: usize) -> (n: usize)
    ensures
        n == leading_valid(indices@, bound as nat),
{
    let mut n: usize = 0;
    proof {
        assert(indices@.skip(0) =~= indices@);
    }
    while n < indices.len() && (indices[n] as usize) < bound
        invariant
            n <= indices@.len(),
            leading_valid(indices@, bound as nat) == n + leading_valid(
                indices@.skip(n as int),
                bound as nat,
            ),
        decreases indices@.len() - n,
    {
        proof {
            let tail = indices@.skip(n as int);
            assert(tail[0] == indices@[n as int]);
            assert(tail.skip(1) =~= indices@.skip(n + 1));
        }
        n = n + 1;
    }
    proof {
        let tail = indices@.skip(n as int);
        if n < indices@.len() {
            assert(tail[0] == indices@[n as int]);
        }
    }
    n
}

/// A slicer over a dictionary-encoded page: it resolves each index against
/// the dictionary.
pub struct RleDictionarySlicer<D: DictDecoder> {
    dict: D,
    indices: Vec<u32>,
    available: usize,
    index: usize,
    overrun: bool,
    sliced_row_count: usize,
}

impl<D: DictDecoder> RleDictionarySlicer<D> {
    /// A slicer at the first value of the page, or the error that the page
    /// does not start with the width of its indices.
    pub fn try_new(buffer: &[u8], dict: D, row_count: usize) -> (res: ParquetResult<Self>)
        requires
            dict.inv(),
        ensures
            match res {
                Ok(slicer) => {
                    &&& slicer.inv()
                    &&& 8 * buffer@.len() <= usize::MAX
                    &&& dictionary_indices(buffer@, row_count as nat) matches Some(indices)
                    &&& slicer.values() == resolved(indices, dict.entries())
                    &&& slicer.cursor() == Some(0nat)
                    &&& slicer.declared_rows() == row_count
                    &&& slicer.size_estimate() == saturating_product(
                        slicer.values().len(),
                        dict.key_len_estimate() as nat,
                    )
                    &&& slicer.end_reason() == dictionary_end_reason(indices, dict.entries().len())
                },
                Err(e) => if 8 * buffer@.len() > usize::MAX {
                    e == ParquetError::Layout(LayoutReason::SizeOverflow)
                } else {
                    dictionary_indices(buffer@, row_count as nat) is None && e
                        == ParquetError::Layout(LayoutReason::DictionaryRuns)
                },
            },
    {
        let indices = match decode_indices(buffer, row_count) {
            Err(e) => {
                return Err(e);
            },
            Ok(indices) => indices,
        };
        let available: usize = count_leading_valid(&indices, dict.len());
        proof {
            lemma_leading_valid(indices@, dict.entries().len());
        }
        Ok(
            RleDictionarySlicer {
                dict,
                indices,
                available,
                index: 0,
                overrun: false,
                sliced_row_count: row_count,
            },
        )
    }
}

impl<D: DictDecoder> DataPageSlicer for RleDictionarySlicer<D> {
    closed spec fn inv(&self) -> bool {
        &&& self.dict.inv()
        &&& self.available == leading_valid(self.indices@, self.dict.entries().len())
        &&& self.index <= self.available
    }

    closed spec fn values(&self) -> Seq<Seq<u8>> {
        resolved(self.indices@, self.dict.entries())
    }

    closed spec fn cursor(&self) -> Option<nat> {
        if self.overrun {
            None
        } else {
            Some(self.index as nat)
        }
    }

    closed spec fn end_reason(&self) -> LayoutReason {
        dictionary_end_reason(self.indices@, self.dict.entries().len())
    }

    closed spec fn declared_rows(&self) -> usize {
        self.sliced_row_count
    }

    closed spec fn size_estimate(&self) -> usize {
        saturating_product(self.available as nat, self.dict.key_len_estimate() as nat)
    }

    fn next_into(&mut self, dest: &mut Vec<u8>) -> (ok: bool) {
        if self.overrun || self.index >= self.available {
            self.overrun = true;
            return false;
        }
        proof {
            lemma_leading_valid(self.indices@, self.dict.entries().len());
        }
        let entry: usize = self.indices[self.index] as usize;
        self.dict.append_entry(entry, dest);
        self.index = self.index + 1;
        true
    }

    fn skip(&mut self, count: usize) {
        if self.overrun || count > self.available - self.index {
            self.overrun = true;
        } else {
            self.index = self.index + count;
        }
    }

    fn count(&self) -> (rows: usize) {
        self.sliced_row_count
    }

    fn data_size(&self) -> (size: usize) {
        saturating_times(self.available, self.dict.avg_key_len())
    }

    fn result(&self) -> (res: ParquetResult<()>) {
        if self.overrun {
            proof {
                lemma_leading_valid(self.indices@, self.dict.entries().len());
            }
            if self.available < self.indices.len() {
                Err(ParquetError::Layout(LayoutReason::DictionaryIndex))
            } else {
                Err(ParquetError::Layout(LayoutReason::ValuesExhausted))
            }
        } else {
            Ok(())
        }
    }
}

/// The keys of a symbol column whose dictionary keys are the ids that the
/// database knows the symbols by: each index as four bytes.
pub open spec fn symbol_key_values(indices: Seq<u32>) -> Seq<Seq<u8>> {
    Seq::new(indices.len(), |i: int| le_bytes(indices[i] as nat, 4))
}

/// A slicer over the keys of a symbol column, which hands out each key as it
/// stands, without a look into the dictionary.
pub struct RleLocalIsGlobalSymbolDecoder {
    indices: Vec<u32>,
    index: usize,
    overrun: bool,
    sliced_row_count: usize,
}

impl RleLocalIsGlobalSymbolDecoder {
    /// A slicer at the first key of the page, or the error that the page
    /// does not start with the width of its keys.
    pub fn try_new(buffer: &[u8], row_count: usize) -> (res: ParquetResult<Self>)
        ensures
            match res {
                Ok(slicer) => {
                    &&& slicer.inv()
                    &&& 8 * buffer@.len() <= usize::MAX
                    &&& dictionary_indices(buffer@, row_count as nat) matches Some(indices)
                    &&& slicer.values() == symbol_key_values(indices)
                    &&& slicer.cursor() == Some(0nat)
                    &&& slicer.declared_rows() == row_count
                    &&& slicer.size_estimate() == saturating_product(slicer.values().len(), 4)
                    &&& slicer.end_reason() == LayoutReason::ValuesExhausted
                },
                Err(e) => if 8 * buffer@.len() > usize::MAX {
                    e == ParquetError::Layout(LayoutReason::SizeOverflow)
                } else {
                    dictionary_indices(buffer@, row_count as nat) is None && e
                        == ParquetError::Layout(LayoutReason::DictionaryRuns)
                },
            },
    {
        match decode_indices(buffer, row_count) {
            Err(e) => Err(e),
            Ok(indices) => Ok(
                RleLocalIsGlobalSymbolDecoder {
                    indices,
                    index: 0,
                    overrun: false,
                    sliced_row_count: row_count,
                },
            ),
        }
    }
}

impl DataPageSlicer for RleLocalIsGlobalSymbolDecoder {
    closed spec fn inv(&self) -> bool {
        self.index <= self.indices@.len()
    }

    closed spec fn values(&self) -> Seq<Seq<u8>> {
        symbol_key_values(self.indices@)
    }

    closed spec fn cursor(&self) -> Option<nat> {
        if self.overrun {
            None
        } else {
            Some(self.index as nat)
        }
    }

    closed spec fn end_reason(&self) -> LayoutReason {
        LayoutReason::ValuesExhausted
    }

    closed spec fn declared_rows(&self) -> usize {
        self.sliced_row_count
    }

    closed spec fn size_estimate(&self) -> usize {
        saturating_product(self.indices@.len(), 4)
    }

    fn next_into(&mut self, dest: &mut Vec<u8>) -> (ok: bool) {
        if self.overrun || self.index >= self.indices.len() {
            self.overrun = true;
            return false;
        }
        push_le(dest, self.indices[self.index] as u64, 4);
        self.index = self.index + 1;
        true
    }

    fn skip(&mut self, count: usize) {
        if self.overrun || count > self.indices.len() - self.index {
            self.overrun = true;
        } else {
            self.index = self.index + count;
        }
    }

    fn count(&self) -> (rows: usize) {
        self.sliced_row_count
    }

    fn data_size(&self) -> (size: usize) {
        saturating_times(self.indices.len(), 4)
    }

    fn result(&self) -> (res: ParquetResult<()>) {
        if self.overrun {
            Err(ParquetError::Layout(LayoutReason::ValuesExhausted))
        } else {
            Ok(())
        }
    }
}

} // verus!
