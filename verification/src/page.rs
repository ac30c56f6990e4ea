//! Pages as the decoder takes them: uncompressed, with what their headers and
//! the schema say about them held as plain values.

use crate::bytes::{le_value, read_u32_le};
use crate::error::{LayoutReason, ParquetError, ParquetResult};
use crate::schema::{Descriptor, Encoding};
use vstd::prelude::*;

verus! {

/// A run of consecutive rows of a page.
#[derive(Debug, Clone, Copy, PartialEq, Eq, Structural)]
pub struct Interval {
    pub start: usize,
    pub length: usize,
}

impl Interval {
    /// The interval of `length` rows from row `start` on.
    pub fn new(start: usize, length: usize) -> (interval: Interval)
        ensures
            interval.start == start,
            interval.length == length,
    {
        Interval { start, length }
    }
}

/// The version of the format that a file was written in.
#[derive(Debug, Clone, Copy, PartialEq, Eq, Structural)]
pub enum Version {
    V1,
    V2,
}

/// What the header of a data page declares.
#[derive(Debug, Clone, Copy, PartialEq, Eq, Structural)]
pub enum DataPageHeader {
    /// The levels are stored in front of the values, each with its length in
    /// four bytes before it.
    V1 { num_values: usize, encoding: Encoding },
    /// The lengths of the levels are stored in the header.
    V2 {
        num_values: usize,
        encoding: Encoding,
        definition_levels_byte_length: i32,
        repetition_levels_byte_length: i32,
    },
}

impl DataPageHeader {
    /// The number of rows that the page declares.
    pub open spec fn spec_num_values(&self) -> usize {
        match self {
            DataPageHeader::V1 { num_values, .. } => *num_values,
            DataPageHeader::V2 { num_values, .. } => *num_values,
        }
    }

    /// The encoding of the page's values.
    pub open spec fn spec_encoding(&self) -> Encoding {
        match self {
            DataPageHeader::V1 { encoding, .. } => *encoding,
            DataPageHeader::V2 { encoding, .. } => *encoding,
        }
    }

    /// The number of rows that the page declares.
    #[verifier::when_used_as_spec(spec_num_values)]
    pub fn num_values(&self) -> (n: usize)
        ensures
            n == self.spec_num_values(),
    {
        match self {
            DataPageHeader::V1 { num_values, .. } => *num_values,
            DataPageHeader::V2 { num_values, .. } => *num_values,
        }
    }

    /// The encoding of the page's values.
    #[verifier::when_used_as_spec(spec_encoding)]
    pub fn encoding(&self) -> (e: Encoding)
        ensures
            e == self.spec_encoding(),
    {
        match self {
            DataPageHeader::V1 { encoding, .. } => *encoding,
            DataPageHeader::V2 { encoding, .. } => *encoding,
        }
    }
}

/// An uncompressed data page.
#[derive(Debug, Clone, PartialEq, Eq)]
pub struct DataPage {
    pub header: DataPageHeader,
    pub buffer: Vec<u8>,
    pub descriptor: Descriptor,
    /// The rows to decode; `None` stands for all of them.
    pub selected_rows: Option<Vec<Interval>>,
}

impl DataPage {
    /// A data page of the given header, bytes and column.
    pub fn new(
        header: DataPageHeader,
        buffer: Vec<u8>,
        descriptor: Descriptor,
        selected_rows: Option<Vec<Interval>>,
    ) -> (page: DataPage)
        ensures
            page.header == header,
            page.buffer == buffer,
            page.descriptor == descriptor,
            page.selected_rows == selected_rows,
    {
        DataPage { header, buffer, descriptor, selected_rows }
    }

    /// The number of rows that the page declares.
    pub open spec fn spec_num_values(&self) -> usize {
        self.header.spec_num_values()
    }

    /// The encoding of the page's values.
    pub open spec fn spec_encoding(&self) -> Encoding {
        self.header.spec_encoding()
    }

    /// The number of rows that the page declares.
    #[verifier::when_used_as_spec(spec_num_values)]
    pub fn num_values(&self) -> (n: usize)
        ensures
            n == self.spec_num_values(),
    {
        self.header.num_values()
    }

    /// The encoding of the page's values.
    #[verifier::when_used_as_spec(spec_encoding)]
    pub fn encoding(&self) -> (e: Encoding)
        ensures
            e == self.spec_encoding(),
    {
        self.header.encoding()
    }
}

/// An uncompressed dictionary page: `num_values` entries in plain encoding.
#[derive(Debug, Clone, PartialEq, Eq)]
pub struct DictPage {
    pub buffer: Vec<u8>,
    pub num_values: usize,
    pub is_sorted: bool,
}

impl DictPage {
    /// A dictionary page of `num_values` entries.
    pub fn new(buffer: Vec<u8>, num_values: usize, is_sorted: bool) -> (page: DictPage)
        ensures
            page.buffer == buffer,
            page.num_values == num_values,
            page.is_sorted == is_sorted,
    {
        DictPage { buffer, num_values, is_sorted }
    }
}

/// A page of a column chunk.
#[derive(Debug, Clone, PartialEq, Eq)]
pub enum Page {
    Data(DataPage),
    Dict(DictPage),
}

/// The three regions of a page's buffer: repetition levels, definition
/// levels and values.
pub struct PageRegions {
    pub rep_levels: Seq<u8>,
    pub def_levels: Seq<u8>,
    pub values: Seq<u8>,
}

/// Takes a length-prefixed level region off the front of `buffer`, where the
/// column has such levels: the region and what follows it.
pub open spec fn take_levels(buffer: Seq<u8>, present: bool) -> Option<(Seq<u8>, Seq<u8>)> {
    if !present {
        Some((Seq::empty(), buffer))
    } else if buffer.len() < 4 {
        None
    } else {
        let length = le_value(buffer.subrange(0, 4)) as int;
        if 4 + length > buffer.len() {
            None
        } else {
            Some((buffer.subrange(4, 4 + length), buffer.subrange(4 + length, buffer.len() as int)))
        }
    }
}

/// The regions of a page of the first version.
pub open spec fn split_v1(buffer: Seq<u8>, has_rep: bool, has_def: bool) -> Option<PageRegions> {
    match take_levels(buffer, has_rep) {
        None => None,
        Some((rep_levels, rest)) => match take_levels(rest, has_def) {
            None => None,
            Some((def_levels, values)) => Some(PageRegions { rep_levels, def_levels, values }),
        },
    }
}

/// The regions of a page of the second version, whose header gives the
/// lengths of the levels.
pub open spec fn split_v2(buffer: Seq<u8>, rep_length: int, def_length: int) -> Option<
    PageRegions,
> {
    if rep_length < 0 || def_length < 0 || rep_length + def_length > buffer.len() {
        None
    } else {
        Some(
            PageRegions {
                rep_levels: buffer.subrange(0, rep_length),
                def_levels: buffer.subrange(rep_length, rep_length + def_length),
                values: buffer.subrange(rep_length + def_length, buffer.len() as int),
            },
        )
    }
}

/// The regions of a page, or `None` where the page is shorter than the
/// levels that it declares.
pub open spec fn page_regions(page: &DataPage) -> Option<PageRegions> {
    match page.header {
        DataPageHeader::V1 { .. } => split_v1(
            page.buffer@,
            page.descriptor.max_rep_level > 0,
            page.descriptor.max_def_level > 0,
        ),
        DataPageHeader::V2 {
            definition_levels_byte_length,
            repetition_levels_byte_length,
            ..
        } => split_v2(
            page.buffer@,
            repetition_levels_byte_length as int,
            definition_levels_byte_length as int,
        ),
    }
}

/// Whether the length that a level region would start with, where the
/// column has such levels, leaves room for the four bytes that hold it
/// within the sizes that the machine can count.
pub open spec fn prefix_fits(buffer: Seq<u8>, present: bool) -> bool {
    present && buffer.len() >= 4 ==> 4 + le_value(buffer.subrange(0, 4)) <= usize::MAX
}

/// Whether the length at the front of `buffer` fits: see `prefix_fits`.
fn check_prefix(buffer: &[u8], present: bool) -> (ok: bool)
    ensures
        ok == prefix_fits(buffer@, present),
        !ok ==> take_levels(buffer@, present) is None,
{
    if !present || buffer.len() < 4 {
        return true;
    }
    let length: u32 = read_u32_le(buffer, 0);
    length as u64 <= usize::MAX as u64 - 4
}

/// Calls `parquet2::page::split_buffer_v1`, for a column with at most one
/// kind of levels. It reads the four bytes at the front as the length of
/// the levels, little end first, and cuts the buffer after them and after
/// that length; it fails where the buffer is shorter than either. A kind
/// of levels that the column does not have gives an empty region. The
/// length must fit with its four bytes in a size, which the outside
/// function adds up unchecked.
#[verifier::external_body]
fn split_levels_v1(buffer: &[u8], has_rep: bool, has_def: bool) -> (res: Result<
    (&[u8], &[u8], &[u8]),
    parquet2::error::Error,
>)
    requires
        !(has_rep && has_def),
        prefix_fits(buffer@, has_rep || has_def),
    ensures
        match res {
            Ok((rep, def, values)) => split_v1(buffer@, has_rep, has_def) == Some(
                PageRegions { rep_levels: rep@, def_levels: def@, values: values@ },
            ),
            Err(_) => split_v1(buffer@, has_rep, has_def) is None,
        },
{
    parquet2::page::split_buffer_v1(buffer, has_rep, has_def)
}

/// Calls `parquet2::page::split_buffer_v2`, which cuts the buffer after
/// `rep_length` bytes and after `def_length` more. The two lengths must
/// lie within the buffer: the outside function indexes without a check.
#[verifier::external_body]
fn split_levels_v2(buffer: &[u8], rep_length: usize, def_length: usize) -> (res: Result<
    (&[u8], &[u8], &[u8]),
    parquet2::error::Error,
>)
    requires
        rep_length + def_length <= buffer@.len(),
    ensures
        match res {
            Ok((rep, def, values)) => split_v2(buffer@, rep_length as int, def_length as int)
                == Some(PageRegions { rep_levels: rep@, def_levels: def@, values: values@ }),
            Err(_) => false,
        },
{
    parquet2::page::split_buffer_v2(buffer, rep_length, def_length)
}

/// Splits the buffer of a page into its repetition levels, its definition
/// levels and its values.
pub fn split_buffer(page: &DataPage) -> (res: ParquetResult<(&[u8], &[u8], &[u8])>)
    ensures
        match res {
            Ok((rep, def, values)) => page_regions(page) == Some(
                PageRegions { rep_levels: rep@, def_levels: def@, values: values@ },
            ),
            Err(e) => page_regions(page) is None && e == ParquetError::Layout(
                LayoutReason::LevelsTruncated,
            ),
        },
{
    let buffer: &[u8] = page.buffer.as_slice();
    match page.header {
        DataPageHeader::V1 { .. } => {
            let has_rep = page.descriptor.max_rep_level > 0;
            let has_def = page.descriptor.max_def_level > 0;
            if !check_prefix(buffer, has_rep) {
                return Err(ParquetError::Layout(LayoutReason::LevelsTruncated));
            }
            let (rep, rest) = match split_levels_v1(buffer, has_rep, false) {
                Err(_) => {
                    return Err(ParquetError::Layout(LayoutReason::LevelsTruncated));
                },
                Ok((rep, _none, rest)) => (rep, rest),
            };
            if !check_prefix(rest, has_def) {
                return Err(ParquetError::Layout(LayoutReason::LevelsTruncated));
            }
            match split_levels_v1(rest, false, has_def) {
                Err(_) => Err(ParquetError::Layout(LayoutReason::LevelsTruncated)),
                Ok((_none, def, values)) => Ok((rep, def, values)),
            }
        },
        DataPageHeader::V2 {
            definition_levels_byte_length,
            repetition_levels_byte_length,
            ..
        } => {
            if definition_levels_byte_length < 0 || repetition_levels_byte_length < 0 {
                return Err(ParquetError::Layout(LayoutReason::LevelsTruncated));
            }
            let rep_length: usize = repetition_levels_byte_length as usize;
            let def_length: usize = definition_levels_byte_length as usize;
            if rep_length > buffer.len() || def_length > buffer.len() - rep_length {
                return Err(ParquetError::Layout(LayoutReason::LevelsTruncated));
            }
            match split_levels_v2(buffer, rep_length, def_length) {
                Err(_) => Err(ParquetError::Layout(LayoutReason::LevelsTruncated)),
                Ok(regions) => Ok(regions),
            }
        },
    }
}

} // verus!
