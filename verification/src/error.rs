//! The errors of the decoder. Each one carries the values that caused it, so
//! that a caller can report the failure without repeating the call.

use crate::col_type::ColumnType;
use crate::schema::{Encoding, PhysicalType, PrimitiveConvertedType, PrimitiveLogicalType};
use vstd::prelude::*;

verus! {

/// A request or a piece of metadata that cannot be honoured.
#[derive(Debug, Clone, Copy, PartialEq, Eq)]
pub enum InvalidReason {
    /// The row group index is not below the number of row groups.
    RowGroupOutOfRange { index: u32, count: u32 },
    /// The column index is negative or not below the number of columns.
    ColumnOutOfRange { column: i32, columns: u32 },
    /// The entry of the statistics that was asked for lies beyond the entries
    /// that the statistics hold.
    TooManyColumns { wanted: usize, capacity: u32 },
    /// The requested destination type differs from the type stored in the file.
    ColumnTypeMismatch { requested: ColumnType, stored: ColumnType, column_index: usize },
    /// The pages of the requested columns do not hold the same number of rows.
    ChunkSizeMismatch { size: usize, previous: usize },
    /// The number of page lists handed in differs from the number of columns requested.
    ChunkCountMismatch { chunks: usize, columns: usize },
    /// The code does not name a column type.
    UnknownColumnTypeCode { code: i32 },
    /// The selected row intervals are not ascending, overlap, or run past the page.
    SelectedRows,
}

/// A page that is well formed but that this decoder has no conversion for.
#[derive(Debug, Clone, Copy, PartialEq, Eq)]
pub enum UnsupportedReason {
    /// No conversion exists for the page's storage type, encoding and
    /// annotations into the destination column type.
    Encoding {
        physical_type: PhysicalType,
        encoding: Encoding,
        logical_type: Option<PrimitiveLogicalType>,
        converted_type: Option<PrimitiveConvertedType>,
        column_type: ColumnType,
    },
    /// A dictionary-encoded symbol column whose keys are not global ids.
    SymbolFormat,
    /// The file declares a format version other than 1 or 2.
    Version { version: i32 },
}

/// Bytes that do not have the shape that their headers declare.
#[derive(Debug, Clone, Copy, PartialEq, Eq)]
pub enum LayoutReason {
    /// The page ends before the repetition or definition levels that it declares.
    LevelsTruncated,
    /// The definition levels are not a sequence of well-formed runs.
    DefinitionLevels,
    /// The definition levels describe another number of rows than the
    /// `expected` ones that were selected.
    RowCountMismatch { expected: usize },
    /// A value was asked for after the last one that the page holds.
    ValuesExhausted,
    /// The header of a delta-encoded page is malformed, or declares more
    /// values than the page has rows.
    DeltaHeader,
    /// A block of a delta-encoded page is malformed or missing.
    DeltaBlocks,
    /// The dictionary page is shorter than its declared entries.
    DictionaryTruncated,
    /// A dictionary index is not below the number of entries.
    DictionaryIndex,
    /// The index stream of a dictionary-encoded page is malformed.
    DictionaryRuns,
    /// A value is shorter than the values of its column are.
    ValueWidth,
    /// A decimal has more places behind the point than a double can tell apart.
    DecimalScale,
    /// A text value is not valid UTF-8.
    Utf8,
    /// A value or a buffer is too large for the destination format.
    SizeOverflow,
    /// A timestamp does not fit into 64 bits of microseconds.
    TimestampRange,
}

/// The ways in which a call can fail.
#[derive(Debug, Clone, Copy, PartialEq, Eq)]
pub enum ParquetError {
    Invalid(InvalidReason),
    Unsupported(UnsupportedReason),
    Layout(LayoutReason),
}

/// What a call gives: its result, or the error that ended it.
pub type ParquetResult<T> = Result<T, ParquetError>;

} // verus!
