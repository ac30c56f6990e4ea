//! The table of conversions: for the storage type, the annotations and the
//! encoding of a page and the type of the destination column, the slicer
//! that reads the page and the sink that writes the column.

use crate::col_type::ColumnTypeTag;
use crate::decimal::MAX_DECIMAL_SCALE;
use crate::qdb_metadata::QdbMetaColFormat;
use crate::schema::{Encoding, PhysicalType, PrimitiveConvertedType, PrimitiveLogicalType, TimeUnit};
use crate::slicer::convert::ValueConversion;
use vstd::prelude::*;

verus! {

/// The null value of a column of fixed width.
#[derive(Debug, Clone, Copy, PartialEq, Eq, Structural)]
pub enum NullValue {
    /// One zero byte: bytes and booleans.
    Byte,
    /// Two zero bytes: shorts and chars.
    Short,
    /// The smallest 32-bit number: ints and symbol keys.
    Int,
    /// The smallest 64-bit number: longs, dates and timestamps.
    Long,
    /// A 32-bit quiet NaN.
    Float,
    /// A 64-bit quiet NaN.
    Double,
    /// The smallest 64-bit number, twice.
    Uuid,
    /// The smallest 64-bit number, four times.
    Long256,
}

/// The bytes of the smallest 64-bit number.
pub open spec fn long_null() -> Seq<u8> {
    seq![0u8, 0u8, 0u8, 0u8, 0u8, 0u8, 0u8, 0x80u8]
}

/// The bytes that stand for a null.
pub open spec fn null_pattern(null: NullValue) -> Seq<u8> {
    match null {
        NullValue::Byte => seq![0u8],
        NullValue::Short => seq![0u8, 0u8],
        NullValue::Int => seq![0u8, 0u8, 0u8, 0x80u8],
        NullValue::Long => long_null(),
        NullValue::Float => seq![0u8, 0u8, 0xC0u8, 0x7Fu8],
        NullValue::Double => seq![0u8, 0u8, 0u8, 0u8, 0u8, 0u8, 0xF8u8, 0x7Fu8],
        NullValue::Uuid => long_null() + long_null(),
        NullValue::Long256 => long_null() + long_null() + long_null() + long_null(),
    }
}

fn push_long_null(out: &mut Vec<u8>)
    ensures
        final(out)@ == old(out)@ + long_null(),
{
    out.push(0);
    out.push(0);
    out.push(0);
    out.push(0);
    out.push(0);
    out.push(0);
    out.push(0);
    out.push(0x80);
    assert(out@ =~= old(out)@ + long_null());
}

/// The bytes that stand for a null.
pub fn null_bytes(null: NullValue) -> (bytes: Vec<u8>)
    ensures
        bytes@ == null_pattern(null),
{
    let mut bytes: Vec<u8> = Vec::new();
    match null {
        NullValue::Byte => {
            bytes.push(0);
        },
        NullValue::Short => {
            bytes.push(0);
            bytes.push(0);
        },
        NullValue::Int => {
            bytes.push(0);
            bytes.push(0);
            bytes.push(0);
            bytes.push(0x80);
        },
        NullValue::Long => {
            push_long_null(&mut bytes);
        },
        NullValue::Float => {
            bytes.push(0);
            bytes.push(0);
            bytes.push(0xC0);
            bytes.push(0x7F);
        },
        NullValue::Double => {
            bytes.push(0);
            bytes.push(0);
            bytes.push(0);
            bytes.push(0);
            bytes.push(0);
            bytes.push(0);
            bytes.push(0xF8);
            bytes.push(0x7F);
        },
        NullValue::Uuid => {
            push_long_null(&mut bytes);
            push_long_null(&mut bytes);
        },
        NullValue::Long256 => {
            push_long_null(&mut bytes);
            push_long_null(&mut bytes);
            push_long_null(&mut bytes);
            push_long_null(&mut bytes);
        },
    }
    assert(bytes@ =~= null_pattern(null));
    bytes
}

/// How the values of a page are read.
#[derive(Debug, Clone, Copy, PartialEq, Eq, Structural)]
pub enum SlicerPlan {
    /// Plain values of `width` bytes.
    PlainFixed { width: usize },
    /// Plain values of `width` bytes, each changed on its way out.
    PlainFixedConverted { width: usize, conversion: ValueConversion },
    /// Plain values, each after its length.
    PlainVar,
    /// Delta-encoded integers, of each the low `width` bytes.
    DeltaBinaryPacked { width: usize },
    /// Byte strings after their delta-encoded lengths.
    DeltaLengthByteArray,
    /// Byte strings that share their first bytes with the one before.
    DeltaByteArray,
    /// Indices into a dictionary of entries of `width` bytes.
    DictionaryFixed { width: usize },
    /// Indices into a dictionary of entries of varying length.
    DictionaryVar,
    /// The keys of a symbol column, taken as they are.
    SymbolKeys,
    /// One bit for each value.
    BooleanBits,
}

/// How the values of a column are written.
#[derive(Debug, Clone, Copy, PartialEq, Eq, Structural)]
pub enum SinkPlan {
    Fixed { width: usize, null: NullValue },
    ReverseFixed { width: usize, null: NullValue },
    NanoTimestamp,
    IntDecimal { scale: usize },
    Text,
    Varchar,
    Binary,
}

/// A cell of the table: the slicer, the sink, and whether the auxiliary
/// buffer is emptied before the page is decoded.
#[derive(Debug, Clone, Copy, PartialEq, Eq, Structural)]
pub struct DecodePlan {
    pub slicer: SlicerPlan,
    pub sink: SinkPlan,
    pub clears_aux: bool,
}

/// Why the table has no plan.
#[derive(Debug, Clone, Copy, PartialEq, Eq, Structural)]
pub enum PlanError {
    /// No cell for the page and the column.
    NoCell,
    /// A symbol column whose dictionary keys are not the database's ids.
    SymbolFormat,
}

/// What selects a cell of the table.
#[derive(Debug, Clone, Copy, PartialEq, Eq, Structural)]
pub struct Discriminators {
    pub physical_type: PhysicalType,
    pub logical_type: Option<PrimitiveLogicalType>,
    pub converted_type: Option<PrimitiveConvertedType>,
    pub encoding: Encoding,
    pub has_dict: bool,
    pub tag: ColumnTypeTag,
    pub format: Option<QdbMetaColFormat>,
}

/// Whether the values are indices into a dictionary.
pub open spec fn is_dictionary_encoding(encoding: Encoding) -> bool {
    encoding == Encoding::RleDictionary || encoding == Encoding::PlainDictionary
}

/// Whether the column holds 16-bit values.
pub open spec fn is_short_like(tag: ColumnTypeTag) -> bool {
    tag == ColumnTypeTag::Short || tag == ColumnTypeTag::Char || tag == ColumnTypeTag::GeoShort
}

/// Whether the column holds 8-bit values.
pub open spec fn is_byte_like(tag: ColumnTypeTag) -> bool {
    tag == ColumnTypeTag::Byte || tag == ColumnTypeTag::GeoByte
}

/// Whether the column holds 32-bit integers.
pub open spec fn is_int_like(tag: ColumnTypeTag) -> bool {
    tag == ColumnTypeTag::Int || tag == ColumnTypeTag::GeoInt || tag == ColumnTypeTag::IPv4
}

/// Whether the column holds 64-bit integers.
pub open spec fn is_long_like(tag: ColumnTypeTag) -> bool {
    tag == ColumnTypeTag::Long || tag == ColumnTypeTag::Date || tag == ColumnTypeTag::GeoLong
        || tag == ColumnTypeTag::Timestamp
}

/// The number of places behind the point that the annotations of a column
/// give: the logical one where it is a decimal, else the legacy one where it
/// is a decimal, else none.
pub open spec fn decimal_scale(
    logical_type: Option<PrimitiveLogicalType>,
    converted_type: Option<PrimitiveConvertedType>,
) -> usize {
    match logical_type {
        Some(PrimitiveLogicalType::Decimal(_, scale)) => scale,
        _ => match converted_type {
            Some(PrimitiveConvertedType::Decimal(_, scale)) => scale,
            _ => 0,
        },
    }
}

/// The cell of a slicer and a sink that copies `width` bytes of each value.
pub open spec fn fixed(slicer: SlicerPlan, width: usize, null: NullValue) -> Result<
    DecodePlan,
    PlanError,
> {
    Ok(DecodePlan { slicer, sink: SinkPlan::Fixed { width, null }, clears_aux: false })
}

/// The cell of a slicer and a sink.
pub open spec fn with_sink(slicer: SlicerPlan, sink: SinkPlan) -> Result<DecodePlan, PlanError> {
    Ok(DecodePlan { slicer, sink, clears_aux: false })
}

/// The cells of columns stored as 32-bit integers.
pub open spec fn int32_plan(d: Discriminators) -> Result<DecodePlan, PlanError> {
    let dictionary = is_dictionary_encoding(d.encoding) && d.has_dict;
    if d.encoding == Encoding::Plain && is_short_like(d.tag) {
        fixed(SlicerPlan::PlainFixed { width: 4 }, 2, NullValue::Short)
    } else if d.encoding == Encoding::DeltaBinaryPacked && is_short_like(d.tag) {
        fixed(SlicerPlan::DeltaBinaryPacked { width: 2 }, 2, NullValue::Short)
    } else if d.encoding == Encoding::Plain && is_byte_like(d.tag) {
        fixed(SlicerPlan::PlainFixed { width: 4 }, 1, NullValue::Byte)
    } else if d.encoding == Encoding::DeltaBinaryPacked && is_byte_like(d.tag) {
        fixed(SlicerPlan::DeltaBinaryPacked { width: 1 }, 1, NullValue::Byte)
    } else if d.encoding == Encoding::Plain && is_int_like(d.tag) {
        fixed(SlicerPlan::PlainFixed { width: 4 }, 4, NullValue::Int)
    } else if d.encoding == Encoding::Plain && d.tag == ColumnTypeTag::Date {
        fixed(
            SlicerPlan::PlainFixedConverted {
                width: 4,
                conversion: ValueConversion::DateDaysToMillis,
            },
            8,
            NullValue::Long,
        )
    } else if d.encoding == Encoding::DeltaBinaryPacked && is_int_like(d.tag) {
        fixed(SlicerPlan::DeltaBinaryPacked { width: 4 }, 4, NullValue::Int)
    } else if dictionary && is_int_like(d.tag) {
        fixed(SlicerPlan::DictionaryFixed { width: 4 }, 4, NullValue::Int)
    } else if d.tag == ColumnTypeTag::Double {
        let scale = decimal_scale(d.logical_type, d.converted_type);
        if scale > MAX_DECIMAL_SCALE {
            Err(PlanError::NoCell)
        } else if dictionary {
            with_sink(SlicerPlan::DictionaryFixed { width: 4 }, SinkPlan::IntDecimal { scale })
        } else if d.encoding == Encoding::Plain {
            with_sink(SlicerPlan::PlainFixed { width: 4 }, SinkPlan::IntDecimal { scale })
        } else {
            Err(PlanError::NoCell)
        }
    } else if dictionary && is_short_like(d.tag) {
        fixed(SlicerPlan::DictionaryFixed { width: 4 }, 2, NullValue::Short)
    } else {
        Err(PlanError::NoCell)
    }
}

/// The change of unit that a plain 64-bit timestamp column needs, if any.
pub open spec fn timestamp_conversion(logical_type: Option<PrimitiveLogicalType>) -> Option<
    ValueConversion,
> {
    match logical_type {
        Some(PrimitiveLogicalType::Timestamp { unit: TimeUnit::Nanoseconds, .. }) => Some(
            ValueConversion::TimestampNanosToMicros,
        ),
        Some(PrimitiveLogicalType::Timestamp { unit: TimeUnit::Milliseconds, .. }) => Some(
            ValueConversion::TimestampMillisToMicros,
        ),
        _ => None,
    }
}

/// The cells of columns stored as 64-bit integers.
pub open spec fn int64_plan(d: Discriminators) -> Result<DecodePlan, PlanError> {
    if d.encoding == Encoding::Plain && d.tag == ColumnTypeTag::Timestamp && timestamp_conversion(
        d.logical_type,
    ) is Some {
        fixed(
            SlicerPlan::PlainFixedConverted {
                width: 8,
                conversion: timestamp_conversion(d.logical_type).unwrap(),
            },
            8,
            NullValue::Long,
        )
    } else if d.encoding == Encoding::Plain && is_long_like(d.tag) {
        fixed(SlicerPlan::PlainFixed { width: 8 }, 8, NullValue::Long)
    } else if d.encoding == Encoding::DeltaBinaryPacked && is_long_like(d.tag) {
        fixed(SlicerPlan::DeltaBinaryPacked { width: 8 }, 8, NullValue::Long)
    } else if is_dictionary_encoding(d.encoding) && d.has_dict && is_long_like(d.tag) {
        fixed(SlicerPlan::DictionaryFixed { width: 8 }, 8, NullValue::Long)
    } else {
        Err(PlanError::NoCell)
    }
}

/// The cells of columns stored as text.
pub open spec fn text_plan(d: Discriminators) -> Result<DecodePlan, PlanError> {
    if d.encoding == Encoding::DeltaLengthByteArray && !d.has_dict && d.tag
        == ColumnTypeTag::String {
        with_sink(SlicerPlan::DeltaLengthByteArray, SinkPlan::Text)
    } else if d.encoding == Encoding::DeltaLengthByteArray && !d.has_dict && d.tag
        == ColumnTypeTag::Varchar {
        with_sink(SlicerPlan::DeltaLengthByteArray, SinkPlan::Varchar)
    } else if is_dictionary_encoding(d.encoding) && d.has_dict && d.tag == ColumnTypeTag::Varchar {
        with_sink(SlicerPlan::DictionaryVar, SinkPlan::Varchar)
    } else if d.encoding == Encoding::Plain && !d.has_dict && d.tag == ColumnTypeTag::String {
        with_sink(SlicerPlan::PlainVar, SinkPlan::Text)
    } else if d.encoding == Encoding::Plain && d.tag == ColumnTypeTag::Varchar {
        with_sink(SlicerPlan::PlainVar, SinkPlan::Varchar)
    } else if d.encoding == Encoding::DeltaByteArray && d.tag == ColumnTypeTag::Varchar {
        with_sink(SlicerPlan::DeltaByteArray, SinkPlan::Varchar)
    } else if d.encoding == Encoding::RleDictionary && d.has_dict && d.tag
        == ColumnTypeTag::Symbol {
        if d.format == Some(QdbMetaColFormat::LocalKeyIsGlobal) {
            fixed(SlicerPlan::SymbolKeys, 4, NullValue::Int)
        } else {
            Err(PlanError::SymbolFormat)
        }
    } else {
        Err(PlanError::NoCell)
    }
}

/// The cells of columns stored as bytes without an annotation.
pub open spec fn binary_plan(d: Discriminators) -> Result<DecodePlan, PlanError> {
    if d.tag != ColumnTypeTag::Binary {
        Err(PlanError::NoCell)
    } else if d.encoding == Encoding::Plain && !d.has_dict {
        with_sink(SlicerPlan::PlainVar, SinkPlan::Binary)
    } else if d.encoding == Encoding::DeltaLengthByteArray && !d.has_dict {
        with_sink(SlicerPlan::DeltaLengthByteArray, SinkPlan::Binary)
    } else if is_dictionary_encoding(d.encoding) && d.has_dict {
        with_sink(SlicerPlan::DictionaryVar, SinkPlan::Binary)
    } else {
        Err(PlanError::NoCell)
    }
}

/// The cells of columns stored as 96-bit timestamps.
pub open spec fn int96_plan(d: Discriminators) -> Result<DecodePlan, PlanError> {
    if d.tag != ColumnTypeTag::Timestamp {
        Err(PlanError::NoCell)
    } else if d.encoding == Encoding::Plain {
        with_sink(SlicerPlan::PlainFixed { width: 12 }, SinkPlan::NanoTimestamp)
    } else if is_dictionary_encoding(d.encoding) && d.has_dict {
        with_sink(SlicerPlan::DictionaryFixed { width: 12 }, SinkPlan::NanoTimestamp)
    } else {
        Err(PlanError::NoCell)
    }
}

/// The cell of a slicer and a copying sink that empties the auxiliary buffer first.
pub open spec fn clearing(slicer: SlicerPlan, width: usize, null: NullValue) -> Result<
    DecodePlan,
    PlanError,
> {
    Ok(DecodePlan { slicer, sink: SinkPlan::Fixed { width, null }, clears_aux: true })
}

/// The cells of columns of doubles, floats and booleans, which carry no
/// annotation. Their auxiliary buffer is emptied.
pub open spec fn primitive_plan(d: Discriminators) -> Result<DecodePlan, PlanError> {
    let plain = d.encoding == Encoding::Plain && !d.has_dict;
    let dictionary = is_dictionary_encoding(d.encoding) && d.has_dict;
    if d.physical_type == PhysicalType::Double && d.tag == ColumnTypeTag::Double {
        if plain {
            clearing(SlicerPlan::PlainFixed { width: 8 }, 8, NullValue::Double)
        } else if dictionary {
            clearing(SlicerPlan::DictionaryFixed { width: 8 }, 8, NullValue::Double)
        } else {
            Err(PlanError::NoCell)
        }
    } else if d.physical_type == PhysicalType::Float && d.tag == ColumnTypeTag::Float {
        if plain {
            clearing(SlicerPlan::PlainFixed { width: 4 }, 4, NullValue::Float)
        } else if dictionary {
            clearing(SlicerPlan::DictionaryFixed { width: 4 }, 4, NullValue::Float)
        } else {
            Err(PlanError::NoCell)
        }
    } else if d.physical_type == PhysicalType::Boolean && d.tag == ColumnTypeTag::Boolean
        && !d.has_dict && (d.encoding == Encoding::Plain || d.encoding == Encoding::Rle) {
        clearing(SlicerPlan::BooleanBits, 1, NullValue::Byte)
    } else {
        Err(PlanError::NoCell)
    }
}

/// The table of conversions.
pub open spec fn decode_plan(d: Discriminators) -> Result<DecodePlan, PlanError> {
    match d.physical_type {
        PhysicalType::Int32 => int32_plan(d),
        PhysicalType::Int64 => int64_plan(d),
        PhysicalType::FixedLenByteArray(length) => if length == 16 && d.logical_type == Some(
            PrimitiveLogicalType::Uuid,
        ) {
            if d.encoding == Encoding::Plain && d.tag == ColumnTypeTag::Uuid {
                with_sink(
                    SlicerPlan::PlainFixed { width: 16 },
                    SinkPlan::ReverseFixed { width: 16, null: NullValue::Uuid },
                )
            } else {
                Err(PlanError::NoCell)
            }
        } else if length == 32 {
            if d.encoding == Encoding::Plain && d.tag == ColumnTypeTag::Long256 {
                fixed(SlicerPlan::PlainFixed { width: 32 }, 32, NullValue::Long256)
            } else {
                Err(PlanError::NoCell)
            }
        } else {
            Err(PlanError::NoCell)
        },
        PhysicalType::ByteArray => if d.logical_type == Some(PrimitiveLogicalType::String)
            || d.converted_type == Some(PrimitiveConvertedType::Utf8) {
            text_plan(d)
        } else if d.logical_type is None {
            binary_plan(d)
        } else {
            Err(PlanError::NoCell)
        },
        PhysicalType::Int96 => int96_plan(d),
        _ => if d.logical_type is None {
            primitive_plan(d)
        } else {
            Err(PlanError::NoCell)
        },
    }
}

fn dictionary_encoding(encoding: Encoding) -> (yes: bool)
    ensures
        yes == is_dictionary_encoding(encoding),
{
    encoding == Encoding::RleDictionary || encoding == Encoding::PlainDictionary
}

fn short_like(tag: ColumnTypeTag) -> (yes: bool)
    ensures
        yes == is_short_like(tag),
{
    tag == ColumnTypeTag::Short || tag == ColumnTypeTag::Char || tag == ColumnTypeTag::GeoShort
}

fn byte_like(tag: ColumnTypeTag) -> (yes: bool)
    ensures
        yes == is_byte_like(tag),
{
    tag == ColumnTypeTag::Byte || tag == ColumnTypeTag::GeoByte
}

fn int_like(tag: ColumnTypeTag) -> (yes: bool)
    ensures
        yes == is_int_like(tag),
{
    tag == ColumnTypeTag::Int || tag == ColumnTypeTag::GeoInt || tag == ColumnTypeTag::IPv4
}

fn long_like(tag: ColumnTypeTag) -> (yes: bool)
    ensures
        yes == is_long_like(tag),
{
    tag == ColumnTypeTag::Long || tag == ColumnTypeTag::Date || tag == ColumnTypeTag::GeoLong
        || tag == ColumnTypeTag::Timestamp
}

fn scale_of(
    logical_type: Option<PrimitiveLogicalType>,
    converted_type: Option<PrimitiveConvertedType>,
) -> (scale: usize)
    ensures
        scale == decimal_scale(logical_type, converted_type),
{
    match logical_type {
        Some(PrimitiveLogicalType::Decimal(_, scale)) => scale,
        _ => match converted_type {
            Some(PrimitiveConvertedType::Decimal(_, scale)) => scale,
            _ => 0,
        },
    }
}

fn make_fixed(slicer: SlicerPlan, width: usize, null: NullValue) -> (res: Result<
    DecodePlan,
    PlanError,
>)
    ensures
        res == fixed(slicer, width, null),
{
    Ok(DecodePlan { slicer, sink: SinkPlan::Fixed { width, null }, clears_aux: false })
}

fn make_with_sink(slicer: SlicerPlan, sink: SinkPlan) -> (res: Result<DecodePlan, PlanError>)
    ensures
        res == with_sink(slicer, sink),
{
    Ok(DecodePlan { slicer, sink, clears_aux: false })
}

fn make_clearing(slicer: SlicerPlan, width: usize, null: NullValue) -> (res: Result<
    DecodePlan,
    PlanError,
>)
    ensures
        res == clearing(slicer, width, null),
{
    Ok(DecodePlan { slicer, sink: SinkPlan::Fixed { width, null }, clears_aux: true })
}

fn select_int32(d: Discriminators) -> (res: Result<DecodePlan, PlanError>)
    ensures
        res == int32_plan(d),
{
    let dictionary = dictionary_encoding(d.encoding) && d.has_dict;
    if d.encoding == Encoding::Plain && short_like(d.tag) {
        make_fixed(SlicerPlan::PlainFixed { width: 4 }, 2, NullValue::Short)
    } else if d.encoding == Encoding::DeltaBinaryPacked && short_like(d.tag) {
        make_fixed(SlicerPlan::DeltaBinaryPacked { width: 2 }, 2, NullValue::Short)
    } else if d.encoding == Encoding::Plain && byte_like(d.tag) {
        make_fixed(SlicerPlan::PlainFixed { width: 4 }, 1, NullValue::Byte)
    } else if d.encoding == Encoding::DeltaBinaryPacked && byte_like(d.tag) {
        make_fixed(SlicerPlan::DeltaBinaryPacked { width: 1 }, 1, NullValue::Byte)
    } else if d.encoding == Encoding::Plain && int_like(d.tag) {
        make_fixed(SlicerPlan::PlainFixed { width: 4 }, 4, NullValue::Int)
    } else if d.encoding == Encoding::Plain && d.tag == ColumnTypeTag::Date {
        make_fixed(
            SlicerPlan::PlainFixedConverted {
                width: 4,
                conversion: ValueConversion::DateDaysToMillis,
            },
            8,
            NullValue::Long,
        )
    } else if d.encoding == Encoding::DeltaBinaryPacked && int_like(d.tag) {
        make_fixed(SlicerPlan::DeltaBinaryPacked { width: 4 }, 4, NullValue::Int)
    } else if dictionary && int_like(d.tag) {
        make_fixed(SlicerPlan::DictionaryFixed { width: 4 }, 4, NullValue::Int)
    } else if d.tag == ColumnTypeTag::Double {
        let scale = scale_of(d.logical_type, d.converted_type);
        if scale > MAX_DECIMAL_SCALE {
            Err(PlanError::NoCell)
        } else if dictionary {
            make_with_sink(SlicerPlan::DictionaryFixed { width: 4 }, SinkPlan::IntDecimal { scale })
        } else if d.encoding == Encoding::Plain {
            make_with_sink(SlicerPlan::PlainFixed { width: 4 }, SinkPlan::IntDecimal { scale })
        } else {
            Err(PlanError::NoCell)
        }
    } else if dictionary && short_like(d.tag) {
        make_fixed(SlicerPlan::DictionaryFixed { width: 4 }, 2, NullValue::Short)
    } else {
        Err(PlanError::NoCell)
    }
}

fn conversion_of(logical_type: Option<PrimitiveLogicalType>) -> (res: Option<ValueConversion>)
    ensures
        res == timestamp_conversion(logical_type),
{
    match logical_type {
        Some(PrimitiveLogicalType::Timestamp { unit: TimeUnit::Nanoseconds, .. }) => Some(
            ValueConversion::TimestampNanosToMicros,
        ),
        Some(PrimitiveLogicalType::Timestamp { unit: TimeUnit::Milliseconds, .. }) => Some(
            ValueConversion::TimestampMillisToMicros,
        ),
        _ => None,
    }
}

fn select_int64(d: Discriminators) -> (res: Result<DecodePlan, PlanError>)
    ensures
        res == int64_plan(d),
{
    let conversion = conversion_of(d.logical_type);
    if d.encoding == Encoding::Plain && d.tag == ColumnTypeTag::Timestamp && conversion.is_some() {
        make_fixed(
            SlicerPlan::PlainFixedConverted { width: 8, conversion: conversion.unwrap() },
            8,
            NullValue::Long,
        )
    } else if d.encoding == Encoding::Plain && long_like(d.tag) {
        make_fixed(SlicerPlan::PlainFixed { width: 8 }, 8, NullValue::Long)
    } else if d.encoding == Encoding::DeltaBinaryPacked && long_like(d.tag) {
        make_fixed(SlicerPlan::DeltaBinaryPacked { width: 8 }, 8, NullValue::Long)
    } else if dictionary_encoding(d.encoding) && d.has_dict && long_like(d.tag) {
        make_fixed(SlicerPlan::DictionaryFixed { width: 8 }, 8, NullValue::Long)
    } else {
        Err(PlanError::NoCell)
    }
}

fn select_text(d: Discriminators) -> (res: Result<DecodePlan, PlanError>)
    ensures
        res == text_plan(d),
{
    if d.encoding == Encoding::DeltaLengthByteArray && !d.has_dict && d.tag
        == ColumnTypeTag::String {
        make_with_sink(SlicerPlan::DeltaLengthByteArray, SinkPlan::Text)
    } else if d.encoding == Encoding::DeltaLengthByteArray && !d.has_dict && d.tag
        == ColumnTypeTag::Varchar {
        make_with_sink(SlicerPlan::DeltaLengthByteArray, SinkPlan::Varchar)
    } else if dictionary_encoding(d.encoding) && d.has_dict && d.tag == ColumnTypeTag::Varchar {
        make_with_sink(SlicerPlan::DictionaryVar, SinkPlan::Varchar)
    } else if d.encoding == Encoding::Plain && !d.has_dict && d.tag == ColumnTypeTag::String {
        make_with_sink(SlicerPlan::PlainVar, SinkPlan::Text)
    } else if d.encoding == Encoding::Plain && d.tag == ColumnTypeTag::Varchar {
        make_with_sink(SlicerPlan::PlainVar, SinkPlan::Varchar)
    } else if d.encoding == Encoding::DeltaByteArray && d.tag == ColumnTypeTag::Varchar {
        make_with_sink(SlicerPlan::DeltaByteArray, SinkPlan::Varchar)
    } else if d.encoding == Encoding::RleDictionary && d.has_dict && d.tag
        == ColumnTypeTag::Symbol {
        let global = match d.format {
            Some(format) => format == QdbMetaColFormat::LocalKeyIsGlobal,
            None => false,
        };
        if global {
            make_fixed(SlicerPlan::SymbolKeys, 4, NullValue::Int)
        } else {
            Err(PlanError::SymbolFormat)
        }
    } else {
        Err(PlanError::NoCell)
    }
}

fn select_binary(d: Discriminators) -> (res: Result<DecodePlan, PlanError>)
    ensures
        res == binary_plan(d),
{
    if d.tag != ColumnTypeTag::Binary {
        Err(PlanError::NoCell)
    } else if d.encoding == Encoding::Plain && !d.has_dict {
        make_with_sink(SlicerPlan::PlainVar, SinkPlan::Binary)
    } else if d.encoding == Encoding::DeltaLengthByteArray && !d.has_dict {
        make_with_sink(SlicerPlan::DeltaLengthByteArray, SinkPlan::Binary)
    } else if dictionary_encoding(d.encoding) && d.has_dict {
        make_with_sink(SlicerPlan::DictionaryVar, SinkPlan::Binary)
    } else {
        Err(PlanError::NoCell)
    }
}

fn select_int96(d: Discriminators) -> (res: Result<DecodePlan, PlanError>)
    ensures
        res == int96_plan(d),
{
    if d.tag != ColumnTypeTag::Timestamp {
        Err(PlanError::NoCell)
    } else if d.encoding == Encoding::Plain {
        make_with_sink(SlicerPlan::PlainFixed { width: 12 }, SinkPlan::NanoTimestamp)
    } else if dictionary_encoding(d.encoding) && d.has_dict {
        make_with_sink(SlicerPlan::DictionaryFixed { width: 12 }, SinkPlan::NanoTimestamp)
    } else {
        Err(PlanError::NoCell)
    }
}

fn select_primitive(d: Discriminators) -> (res: Result<DecodePlan, PlanError>)
    ensures
        res == primitive_plan(d),
{
    let plain = d.encoding == Encoding::Plain && !d.has_dict;
    let dictionary = dictionary_encoding(d.encoding) && d.has_dict;
    if d.physical_type == PhysicalType::Double && d.tag == ColumnTypeTag::Double {
        if plain {
            make_clearing(SlicerPlan::PlainFixed { width: 8 }, 8, NullValue::Double)
        } else if dictionary {
            make_clearing(SlicerPlan::DictionaryFixed { width: 8 }, 8, NullValue::Double)
        } else {
            Err(PlanError::NoCell)
        }
    } else if d.physical_type == PhysicalType::Float && d.tag == ColumnTypeTag::Float {
        if plain {
            make_clearing(SlicerPlan::PlainFixed { width: 4 }, 4, NullValue::Float)
        } else if dictionary {
            make_clearing(SlicerPlan::DictionaryFixed { width: 4 }, 4, NullValue::Float)
        } else {
            Err(PlanError::NoCell)
        }
    } else if d.physical_type == PhysicalType::Boolean && d.tag == ColumnTypeTag::Boolean
        && !d.has_dict && (d.encoding == Encoding::Plain || d.encoding == Encoding::Rle) {
        make_clearing(SlicerPlan::BooleanBits, 1, NullValue::Byte)
    } else {
        Err(PlanError::NoCell)
    }
}

/// Looks up the cell of the table that the discriminators select.
pub fn select_plan(d: Discriminators) -> (res: Result<DecodePlan, PlanError>)
    ensures
        res == decode_plan(d),
{
    match d.physical_type {
        PhysicalType::Int32 => select_int32(d),
        PhysicalType::Int64 => select_int64(d),
        PhysicalType::FixedLenByteArray(length) => {
            let uuid = match d.logical_type {
                Some(PrimitiveLogicalType::Uuid) => true,
                _ => false,
            };
            if length == 16 && uuid {
                if d.encoding == Encoding::Plain && d.tag == ColumnTypeTag::Uuid {
                    make_with_sink(
                        SlicerPlan::PlainFixed { width: 16 },
                        SinkPlan::ReverseFixed { width: 16, null: NullValue::Uuid },
                    )
                } else {
                    Err(PlanError::NoCell)
                }
            } else if length == 32 {
                if d.encoding == Encoding::Plain && d.tag == ColumnTypeTag::Long256 {
                    make_fixed(SlicerPlan::PlainFixed { width: 32 }, 32, NullValue::Long256)
                } else {
                    Err(PlanError::NoCell)
                }
            } else {
                Err(PlanError::NoCell)
            }
        },
        PhysicalType::ByteArray => {
            let text = match (d.logical_type, d.converted_type) {
                (Some(PrimitiveLogicalType::String), _) => true,
                (_, Some(PrimitiveConvertedType::Utf8)) => true,
                _ => false,
            };
            if text {
                select_text(d)
            } else if d.logical_type.is_none() {
                select_binary(d)
            } else {
                Err(PlanError::NoCell)
            }
        },
        PhysicalType::Int96 => select_int96(d),
        _ => if d.logical_type.is_none() {
            select_primitive(d)
        } else {
            Err(PlanError::NoCell)
        },
    }
}

} // verus!
