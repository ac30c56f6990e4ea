//! The description of a column as the file's schema gives it: how its values
//! are stored, how they are meant, and how a page encodes them.

use vstd::prelude::*;

verus! {

/// The storage type of a column's values.
#[derive(Debug, Clone, Copy, PartialEq, Eq, Structural)]
pub enum PhysicalType {
    Boolean,
    Int32,
    Int64,
    Int96,
    Float,
    Double,
    ByteArray,
    FixedLenByteArray(usize),
}

/// The encoding of the values of a data page.
#[derive(Debug, Clone, Copy, PartialEq, Eq, Structural)]
pub enum Encoding {
    Plain,
    PlainDictionary,
    Rle,
    BitPacked,
    DeltaBinaryPacked,
    DeltaLengthByteArray,
    DeltaByteArray,
    RleDictionary,
    ByteStreamSplit,
}

/// The unit of a time or a timestamp.
#[derive(Debug, Clone, Copy, PartialEq, Eq, Structural)]
pub enum TimeUnit {
    Milliseconds,
    Microseconds,
    Nanoseconds,
}

/// The width and signedness that an integer annotation gives.
#[derive(Debug, Clone, Copy, PartialEq, Eq, Structural)]
pub enum IntegerType {
    Int8,
    Int16,
    Int32,
    Int64,
    UInt8,
    UInt16,
    UInt32,
    UInt64,
}

/// The logical annotation of a primitive column.
#[derive(Debug, Clone, Copy, PartialEq, Eq, Structural)]
pub enum PrimitiveLogicalType {
    String,
    Enum,
    /// Precision and scale.
    Decimal(usize, usize),
    Date,
    Time { unit: TimeUnit, is_adjusted_to_utc: bool },
    Timestamp { unit: TimeUnit, is_adjusted_to_utc: bool },
    Integer(IntegerType),
    Unknown,
    Json,
    Bson,
    Uuid,
}

/// The legacy annotation of a primitive column.
#[derive(Debug, Clone, Copy, PartialEq, Eq, Structural)]
pub enum PrimitiveConvertedType {
    Utf8,
    Enum,
    /// Precision and scale.
    Decimal(usize, usize),
    Date,
    TimeMillis,
    TimeMicros,
    TimestampMillis,
    TimestampMicros,
    Uint8,
    Uint16,
    Uint32,
    Uint64,
    Int8,
    Int16,
    Int32,
    Int64,
    Json,
    Bson,
    Interval,
}

/// What the schema says of one leaf column.
#[derive(Debug, Clone, PartialEq, Eq)]
pub struct Descriptor {
    pub name: String,
    /// The field id, where the writer recorded one.
    pub id: Option<i32>,
    pub physical_type: PhysicalType,
    pub logical_type: Option<PrimitiveLogicalType>,
    pub converted_type: Option<PrimitiveConvertedType>,
    pub max_def_level: i16,
    pub max_rep_level: i16,
}

} // verus!
