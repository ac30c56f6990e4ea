//! The small parts: column types, bytes, bits, numbers of variable length,
//! runs, delta blocks, buffers and the table.

use parquet2::encoding::hybrid_rle::encode_u32;
use parquet2::encoding::{delta_bitpacked, zigzag_leb128};
use qdbr::bits::{get_bit, read_packed};
use qdbr::buffers::{ColumnChunkBuffers, ColumnChunkStats, RowGroupBuffers};
use qdbr::bytes::{
    i32_as_unsigned, i64_as_unsigned, push_all, push_le, push_range, push_u32_le, push_u64_le,
    read_u32_le, read_u64_le, u32_as_signed, u64_as_signed,
};
use qdbr::col_type::ColumnTypeTag::{
    Binary, Boolean, Byte, Char, Date, Double, Float, GeoByte, GeoInt, GeoLong, GeoShort, IPv4, Int,
    Long, Long128, Long256, Short, String, Symbol, Timestamp, Uuid, Varchar,
};
use qdbr::col_type::{ColumnType, ColumnTypeTag};
use qdbr::decode::{check_runs, consume_runs, count_selected};
use qdbr::delta::{decode_delta, read_delta_header, wrapping_sum, zigzag_to_pattern};
use qdbr::error::{LayoutReason, ParquetError};
use qdbr::hybrid_rle::{check_level_runs, decode_rle};
use qdbr::page::{split_buffer, DataPage, DataPageHeader, Interval, Version};
use qdbr::plan::{
    select_plan, DecodePlan, Discriminators, NullValue, PlanError, SinkPlan, SlicerPlan,
};
use qdbr::qdb_metadata::QdbMetaColFormat;
use qdbr::runs::{
    check_intervals, check_within, decode_null_bitmap, get_selected_rows, ValidityRun,
};
use qdbr::schema::Encoding::{
    DeltaBinaryPacked, DeltaByteArray, DeltaLengthByteArray, Plain, PlainDictionary, Rle,
    RleDictionary,
};
use qdbr::schema::{
    Descriptor, Encoding, PhysicalType, PrimitiveConvertedType, PrimitiveLogicalType,
};
use qdbr::sink::fixed::FixedWriter;
use qdbr::sink::{ColumnSink, Pushable};
use qdbr::slicer::boolean::BooleanBitmapSlicer;
use qdbr::slicer::convert::{ValueConversion, ValueConvertSlicer};
use qdbr::slicer::delta::{DeltaBinaryPackedSlicer, DeltaBytesArraySlicer, DeltaLengthArraySlicer};
use qdbr::slicer::dict::{
    decode_indices, DictDecoder, FixedDictDecoder, RleDictionarySlicer,
    RleLocalIsGlobalSymbolDecoder, VarDictDecoder,
};
use qdbr::slicer::fixed::DataPageFixedSlicer;
use qdbr::slicer::plain_var::PlainVarSlicer;
use qdbr::slicer::{saturating_times, DataPageSlicer};
use qdbr::varint::{read_uleb64, zigzag_decode};

const TAGS: [(ColumnTypeTag, u8, Option<usize>); 22] = [
    (ColumnTypeTag::Boolean, 1, Some(1)),
    (ColumnTypeTag::Byte, 2, Some(1)),
    (ColumnTypeTag::Short, 3, Some(2)),
    (ColumnTypeTag::Char, 4, Some(2)),
    (ColumnTypeTag::Int, 5, Some(4)),
    (ColumnTypeTag::Long, 6, Some(8)),
    (ColumnTypeTag::Date, 7, Some(8)),
    (ColumnTypeTag::Timestamp, 8, Some(8)),
    (ColumnTypeTag::Float, 9, Some(4)),
    (ColumnTypeTag::Double, 10, Some(8)),
    (ColumnTypeTag::String, 11, None),
    (ColumnTypeTag::Symbol, 12, Some(4)),
    (ColumnTypeTag::Long256, 13, Some(32)),
    (ColumnTypeTag::GeoByte, 14, Some(1)),
    (ColumnTypeTag::GeoShort, 15, Some(2)),
    (ColumnTypeTag::GeoInt, 16, Some(4)),
    (ColumnTypeTag::GeoLong, 17, Some(8)),
    (ColumnTypeTag::Binary, 18, None),
    (ColumnTypeTag::Uuid, 19, Some(16)),
    (ColumnTypeTag::Long128, 24, Some(16)),
    (ColumnTypeTag::IPv4, 25, Some(4)),
    (ColumnTypeTag::Varchar, 26, None),
];

#[test]
fn column_types_and_their_codes() {
    for (tag, code, size) in TAGS {
        assert_eq!(tag.code(), code);
        assert_eq!(ColumnTypeTag::from_code(code), Some(tag));
        assert_eq!(tag.fixed_size(), size);
        assert_eq!(tag.into_type().tag(), tag);
        assert_eq!(tag.into_type().code(), code as i32);
        let with_extra = ColumnType::new(tag, 513);
        assert_eq!(with_extra.code(), code as i32 + 513 * 256);
        assert_eq!(with_extra.tag(), tag);
        assert_eq!(ColumnType::try_from(with_extra.code()), Ok(with_extra));
        assert_ne!(with_extra, tag.into_type());
    }
    for code in 0..=255u8 {
        let known = TAGS.iter().any(|(_, c, _)| *c == code);
        assert_eq!(ColumnTypeTag::from_code(code).is_some(), known);
        assert_eq!(ColumnType::try_from(code as i32).is_ok(), known);
    }
    assert_eq!(ColumnType::new(ColumnTypeTag::Varchar, u16::MAX).code(), 26 + 65_535 * 256);
}

#[test]
fn bytes_of_numbers() {
    let data = [0x78u8, 0x56, 0x34, 0x12, 0xEF, 0xCD, 0xAB, 0x90, 0xFF];
    assert_eq!(read_u32_le(&data, 0), 0x1234_5678);
    assert_eq!(read_u32_le(&data, 5), 0xFF90_ABCD);
    assert_eq!(read_u64_le(&data, 0), 0x90AB_CDEF_1234_5678);
    assert_eq!(read_u64_le(&data, 1), 0xFF90_ABCD_EF12_3456);
    for value in [0i32, 1, -1, i32::MIN, i32::MAX, 123_456] {
        assert_eq!(i32_as_unsigned(value), value as u32);
        assert_eq!(u32_as_signed(value as u32), value);
    }
    for value in [0i64, 1, -1, i64::MIN, i64::MAX, -123_456_789_012] {
        assert_eq!(i64_as_unsigned(value), value as u64);
        assert_eq!(u64_as_signed(value as u64), value);
    }
    let mut out = vec![9u8];
    push_u32_le(&mut out, 0x0102_0304);
    push_u64_le(&mut out, 0x1112_1314_1516_1718);
    push_le(&mut out, 0x2122_2324_2526_2728, 3);
    push_le(&mut out, 7, 0);
    push_all(&mut out, &[0xA0, 0xA1]);
    push_range(&mut out, &data, 2, 4);
    assert_eq!(
        out,
        [9, 4, 3, 2, 1, 0x18, 0x17, 0x16, 0x15, 0x14, 0x13, 0x12, 0x11, 0x28, 0x27, 0x26, 0xA0, 0xA1, 0x34, 0x12]
    );
}

#[test]
fn bits_and_packed_numbers() {
    let data = [0b1010_0101u8, 0b0000_1111, 0xFF];
    let bits: Vec<bool> = (0..16).map(|i| get_bit(&data, i)).collect();
    let expected: Vec<bool> =
        [1, 0, 1, 0, 0, 1, 0, 1, 1, 1, 1, 1, 0, 0, 0, 0].iter().map(|b| *b == 1).collect();
    assert_eq!(bits, expected);
    assert_eq!(read_packed(&data, 0, 8), 0xA5);
    assert_eq!(read_packed(&data, 4, 8), 0xFA);
    assert_eq!(read_packed(&data, 0, 0), 0);
    assert_eq!(read_packed(&data, 5, 3), 0b101);
    assert_eq!(read_packed(&data, 0, 24), 0xFF_0FA5);
    let wide = [0xFFu8; 9];
    assert_eq!(read_packed(&wide, 3, 64), u64::MAX);
}

#[test]
fn numbers_of_variable_length() {
    assert_eq!(read_uleb64(&[0], 0), Some((0, 1)));
    assert_eq!(read_uleb64(&[0x7F, 0x80], 0), Some((127, 1)));
    assert_eq!(read_uleb64(&[0xE5, 0x8E, 0x26], 0), Some((624_485, 3)));
    assert_eq!(read_uleb64(&[9, 0x80, 0x01], 1), Some((128, 2)));
    assert_eq!(read_uleb64(&[], 0), None);
    assert_eq!(read_uleb64(&[0x80, 0x80], 0), None);
    let mut max = vec![0xFFu8; 9];
    max.push(0x01);
    assert_eq!(read_uleb64(&max, 0), Some((u64::MAX, 10)));
    let mut over = vec![0xFFu8; 9];
    over.push(0x02);
    assert_eq!(read_uleb64(&over, 0), None);
    assert_eq!(read_uleb64(&[0x80; 11], 0), None);
    for value in [0i64, 1, -1, 2, -2, 63, -64, i64::MAX, i64::MIN, 1_234_567] {
        let (bytes, used) = zigzag_leb128::encode(value);
        let (pattern, length) = read_uleb64(&bytes[..used], 0).unwrap();
        assert_eq!(length, used);
        assert_eq!(zigzag_decode(pattern), value);
        assert_eq!(zigzag_to_pattern(pattern), value as u64);
    }
    assert_eq!(wrapping_sum(u64::MAX, 2), 1);
    assert_eq!(wrapping_sum(5, 6), 11);
}

#[test]
fn runs_of_indices() {
    for bits in 1..=32u32 {
        let values: Vec<u32> = (0..77u64)
            .map(|i| ((i * 2_654_435_761) & ((1u64 << bits) - 1)) as u32)
            .collect();
        let mut encoded = Vec::new();
        encode_u32(&mut encoded, values.iter().copied(), bits).unwrap();
        assert_eq!(decode_rle(&encoded, bits as u8, 77), values, "{} bits", bits);
        assert_eq!(decode_rle(&encoded, bits as u8, 10), values[..10]);
    }
    // A repeated value of nine bits, then two groups of eight bit-packed values.
    let mut stream = vec![5 << 1, 0x34, 0x01, (2 << 1) | 1];
    stream.extend_from_slice(&[0x01, 0x02, 0x03, 0x04, 0x05, 0x06, 0x07, 0x08, 0x09, 0x0a, 0x0b, 0x0c, 0x0d, 0x0e, 0x0f, 0x10, 0x11, 0x12]);
    let decoded = decode_rle(&stream, 9, 100);
    assert_eq!(decoded.len(), 21);
    assert_eq!(decoded[..5], [0x134; 5]);
    assert_eq!(decoded[5], 0x001);
    assert_eq!(decoded[6], 1 + (3 << 7));
    assert_eq!(decode_rle(&stream, 9, 3), [0x134; 3]);
    // Where a run is cut short, the values before it stay.
    assert_eq!(decode_rle(&[5 << 1, 0x34], 9, 100), []);
    assert_eq!(decode_rle(&[2 << 1, 0x34, 0x01, 0x80], 9, 100), [0x134, 0x134]);
}

#[test]
fn indices_of_a_dictionary_page() {
    assert_eq!(decode_indices(&[0], 3), Ok(vec![0, 0, 0]));
    assert_eq!(decode_indices(&[0, 1, 2, 3], 2), Ok(vec![0, 0]));
    assert_eq!(decode_indices(&[2, (1 << 1) | 1, 0b1110_0100, 0b0001_1011], 6), Ok(vec![0, 1, 2, 3, 3, 2]));
    assert_eq!(decode_indices(&[], 1), Err(ParquetError::Layout(LayoutReason::DictionaryRuns)));
    assert_eq!(decode_indices(&[40], 1), Err(ParquetError::Layout(LayoutReason::DictionaryRuns)));
}

#[test]
fn level_streams() {
    assert!(check_level_runs(&[]));
    assert!(check_level_runs(&[(1 << 1) | 1, 0xFF]));
    assert!(check_level_runs(&[8 << 1, 1, 3 << 1, 0]));
    assert!(check_level_runs(&[(2 << 1) | 1, 0xFF]));
    assert!(check_level_runs(&[3]));
    assert!(check_level_runs(&[0xFF, 0xFF, 0xFF, 0xFF, 0x0F, 1]));
    assert!(!check_level_runs(&[0x80]));
    assert!(!check_level_runs(&[2, 1, 0x80]));
    assert!(!check_level_runs(&[0xFF, 0xFF, 0xFF, 0xFF, 0x1F, 1]));
}

#[test]
fn delta_streams() {
    for count in [0usize, 1, 2, 127, 128, 129, 256, 1000] {
        let numbers: Vec<i64> =
            (0..count as i64).map(|i| (i * 7_777_777) % 1_000_003 - 500_000 + (i % 3) * (1 << 40)).collect();
        let mut encoded = Vec::new();
        delta_bitpacked::encode(numbers.iter().copied(), &mut encoded);
        encoded.extend_from_slice(b"what follows");
        let decoded = decode_delta(&encoded, usize::MAX).unwrap();
        let patterns: Vec<u64> = numbers.iter().map(|v| *v as u64).collect();
        assert_eq!(decoded.values, patterns, "{} values", count);
        assert!(decoded.complete);
        assert_eq!(&encoded[decoded.consumed..], b"what follows");
        let header = read_delta_header(&encoded).unwrap();
        assert_eq!((header.per_mini, header.mini_blocks, header.total), (128, 1, count as u64));
        let few = decode_delta(&encoded, 5).unwrap();
        assert_eq!(few.values, patterns[..count.min(5)]);
    }
    // Sums wrap around.
    let mut encoded = Vec::new();
    delta_bitpacked::encode([i64::MAX - 1, i64::MAX].into_iter(), &mut encoded);
    let place = encoded.len() - 2;
    assert_eq!(encoded[place], 2);
    encoded[place] = 6;
    assert_eq!(decode_delta(&encoded, 9).unwrap().values, [(i64::MAX - 1) as u64, (i64::MIN + 1) as u64]);
    assert!(decode_delta(&[], 1).is_none());
    // Four miniblocks of 32 values, of which two are needed and stored.
    let mut stream = vec![128, 1, 4, 34, 2, 0, 1, 0, 9, 9, 0xFF, 0xFF, 0xFF, 0xFF];
    stream.extend_from_slice(b"rest");
    let decoded = decode_delta(&stream, 100).unwrap();
    assert!(decoded.complete);
    assert_eq!(decoded.values.len(), 34);
    assert_eq!(decoded.values[..4], [1, 2, 3, 4]);
    assert_eq!(decoded.values[32..], [33, 33]);
    assert_eq!(&stream[decoded.consumed..], b"rest");
}

fn all_values<T: DataPageSlicer>(slicer: &mut T) -> Vec<Vec<u8>> {
    let mut values = Vec::new();
    loop {
        let mut value = Vec::new();
        if !slicer.next_into(&mut value) {
            return values;
        }
        values.push(value);
    }
}

#[test]
fn slicers_read_forward_and_fail_past_the_end() {
    let data: Vec<u8> = (0..10).collect();
    let mut slicer = DataPageFixedSlicer::new(&data, 4, 9);
    assert_eq!(slicer.count(), 9);
    assert_eq!(slicer.data_size(), 10);
    slicer.skip(1);
    let mut out = vec![0xEE];
    assert!(slicer.next_into(&mut out));
    assert_eq!(out, [0xEE, 4, 5, 6, 7]);
    assert_eq!(slicer.result(), Ok(()));
    assert!(!slicer.next_into(&mut out));
    assert_eq!(out.len(), 5);
    assert_eq!(slicer.result(), Err(ParquetError::Layout(LayoutReason::ValuesExhausted)));
    slicer.skip(0);
    assert!(slicer.result().is_err());

    let mut slicer = DataPageFixedSlicer::new(&data, 3, 3);
    slicer.skip(3);
    assert_eq!(slicer.result(), Ok(()));
    let mut slicer = DataPageFixedSlicer::new(&data, 3, 3);
    slicer.skip(4);
    assert!(slicer.result().is_err());

    let mut slicer = BooleanBitmapSlicer::new(&[0b0000_0110, 0xFF], 11);
    let bits: Vec<u8> = all_values(&mut slicer).concat();
    assert_eq!(bits, [0, 1, 1, 0, 0, 0, 0, 0, 1, 1, 1]);
    let mut slicer = BooleanBitmapSlicer::new(&[0xFF], 11);
    assert_eq!(all_values(&mut slicer).len(), 8);

    let var = [2u8, 0, 0, 0, b'h', b'i', 0, 0, 0, 0, 3, 0, 0, 0, b'y', b'o', b'u', 9, 0, 0, 0, b'x'];
    let mut slicer = PlainVarSlicer::new(&var, 5);
    assert_eq!(all_values(&mut slicer), [b"hi".to_vec(), vec![], b"you".to_vec()]);
    let mut slicer = PlainVarSlicer::new(&var, 5);
    slicer.skip(2);
    let mut out = Vec::new();
    assert!(slicer.next_into(&mut out));
    assert_eq!(out, b"you");
    let mut slicer = PlainVarSlicer::new(&var, 5);
    slicer.skip(4);
    assert!(slicer.result().is_err());
}

#[test]
fn converting_slicer() {
    let days: Vec<u8> = [1i32, -2].iter().flat_map(|v| v.to_le_bytes()).collect();
    let inner = DataPageFixedSlicer::new(&days, 4, 2);
    let mut slicer = ValueConvertSlicer::new(inner, ValueConversion::DateDaysToMillis);
    assert_eq!(slicer.count(), 2);
    let values: Vec<u8> = all_values(&mut slicer).concat();
    let expected: Vec<u8> = [86_400_000i64, -172_800_000].iter().flat_map(|v| v.to_le_bytes()).collect();
    assert_eq!(values, expected);
    assert!(slicer.result().is_err());

    let stamps: Vec<u8> = [i64::MIN, -1, 999, i64::MAX].iter().flat_map(|v| v.to_le_bytes()).collect();
    let inner = DataPageFixedSlicer::new(&stamps, 8, 4);
    let mut slicer = ValueConvertSlicer::new(inner, ValueConversion::TimestampNanosToMicros);
    let values: Vec<u8> = all_values(&mut slicer).concat();
    let expected: Vec<u8> =
        [i64::MIN / 1000, 0, 0, i64::MAX / 1000].iter().flat_map(|v| v.to_le_bytes()).collect();
    assert_eq!(values, expected);

    let inner = DataPageFixedSlicer::new(&stamps, 8, 4);
    let mut slicer = ValueConvertSlicer::new(inner, ValueConversion::TimestampMillisToMicros);
    slicer.skip(1);
    let values: Vec<u8> = all_values(&mut slicer).concat();
    let expected: Vec<u8> = [-1000i64, 999_000, i64::MAX.wrapping_mul(1000)]
        .iter()
        .flat_map(|v| v.to_le_bytes())
        .collect();
    assert_eq!(values, expected);

    // A value that is too short becomes zero.
    let inner = DataPageFixedSlicer::new(&days, 2, 1);
    let mut slicer = ValueConvertSlicer::new(inner, ValueConversion::DateDaysToMillis);
    let mut out = Vec::new();
    assert!(slicer.next_into(&mut out));
    assert_eq!(out, [0; 8]);
}

#[test]
fn delta_slicers() {
    let numbers = [300i64, -1, 70_000, 5];
    let mut encoded = Vec::new();
    delta_bitpacked::encode(numbers.iter().copied(), &mut encoded);
    for width in [1usize, 2, 4, 8] {
        let mut slicer = DeltaBinaryPackedSlicer::try_new(&encoded, width, 4).unwrap();
        let expected: Vec<Vec<u8>> = numbers.iter().map(|v| v.to_le_bytes()[..width].to_vec()).collect();
        assert_eq!(all_values(&mut slicer), expected);
        assert_eq!(slicer.result(), Err(ParquetError::Layout(LayoutReason::ValuesExhausted)));
    }
    let mut slicer = DeltaBinaryPackedSlicer::try_new(&encoded, 8, 2).unwrap();
    assert_eq!(all_values(&mut slicer).len(), 2);

    let values: [&[u8]; 4] = [b"one", b"", b"three", b"4"];
    let mut encoded = Vec::new();
    parquet2::encoding::delta_length_byte_array::encode(values.iter(), &mut encoded);
    let mut slicer = DeltaLengthArraySlicer::try_new(&encoded, 4).unwrap();
    assert_eq!(all_values(&mut slicer), values);
    let mut slicer = DeltaLengthArraySlicer::try_new(&encoded, 9).unwrap();
    slicer.skip(2);
    assert_eq!(all_values(&mut slicer), values[2..]);
    assert!(DeltaLengthArraySlicer::try_new(&encoded, 3).is_err());
    // The lengths are there, the last value is not.
    let mut slicer = DeltaLengthArraySlicer::try_new(&encoded[..encoded.len() - 1], 4).unwrap();
    assert_eq!(all_values(&mut slicer), values[..3]);

    let values: [&[u8]; 5] = [b"apple", b"applesauce", b"apply", b"apply", b"banana"];
    let mut encoded = Vec::new();
    parquet2::encoding::delta_byte_array::encode(values.iter().copied(), &mut encoded);
    let mut slicer = DeltaBytesArraySlicer::try_new(&encoded, 5).unwrap();
    assert_eq!(all_values(&mut slicer), values);
    // Values that are passed over still shape the ones that follow.
    let mut slicer = DeltaBytesArraySlicer::try_new(&encoded, 5).unwrap();
    slicer.skip(2);
    let mut out = Vec::new();
    assert!(slicer.next_into(&mut out));
    assert_eq!(out, b"apply");
    slicer.skip(2);
    assert_eq!(slicer.result(), Ok(()));
    slicer.skip(1);
    assert!(slicer.result().is_err());
}

#[test]
fn dictionaries() {
    let page = qdbr::page::DictPage::new((0..12).collect(), 2, false);
    let dict = FixedDictDecoder::try_new(&page, 4).unwrap();
    assert_eq!(dict.len(), 2);
    assert_eq!(dict.avg_key_len(), 4);
    let mut out = Vec::new();
    dict.append_entry(1, &mut out);
    assert_eq!(out, [4, 5, 6, 7]);
    assert!(FixedDictDecoder::try_new(&page, 7).is_err());

    let mut slicer = RleDictionarySlicer::try_new(&[1, (1 << 1) | 1, 0b0000_1101], dict, 6).unwrap();
    assert_eq!(slicer.count(), 6);
    assert_eq!(all_values(&mut slicer), [[4u8, 5, 6, 7], [0, 1, 2, 3], [4, 5, 6, 7], [4, 5, 6, 7], [0, 1, 2, 3], [0, 1, 2, 3]]);

    let page = qdbr::page::DictPage::new(vec![1, 0, 0, 0, b'a', 0, 0, 0, 0, 2, 0, 0, 0, b'b', b'c'], 3, true);
    let dict = VarDictDecoder::try_new(&page).unwrap();
    assert_eq!(dict.len(), 3);
    let mut out = Vec::new();
    dict.append_entry(2, &mut out);
    dict.append_entry(1, &mut out);
    dict.append_entry(0, &mut out);
    assert_eq!(out, b"bca");
    let mut slicer = RleDictionarySlicer::try_new(&[2, (1 << 1) | 1, 0b0011_1001, 0], dict, 8).unwrap();
    assert_eq!(all_values(&mut slicer), [vec![], b"bc".to_vec()]);
    assert_eq!(slicer.result(), Err(ParquetError::Layout(LayoutReason::DictionaryIndex)));

    let mut slicer = RleLocalIsGlobalSymbolDecoder::try_new(&[9, 3 << 1, 0x2A, 0x01], 2).unwrap();
    assert_eq!(all_values(&mut slicer), [[0x2Au8, 1, 0, 0], [0x2A, 1, 0, 0]]);
    assert_eq!(slicer.result(), Err(ParquetError::Layout(LayoutReason::ValuesExhausted)));
}

#[test]
fn estimates_of_the_bytes_of_a_page() {
    assert_eq!(saturating_times(6, 7), 42);
    assert_eq!(saturating_times(0, usize::MAX), 0);
    assert_eq!(saturating_times(usize::MAX, 1), usize::MAX);
    assert_eq!(saturating_times(usize::MAX / 2 + 1, 2), usize::MAX);
    assert_eq!(saturating_times(usize::MAX / 3, 3), usize::MAX / 3 * 3);

    let data: Vec<u8> = (0..10).collect();
    assert_eq!(DataPageFixedSlicer::new(&data, 4, 9).data_size(), 10);
    assert_eq!(PlainVarSlicer::new(&data, 9).data_size(), 10);
    assert_eq!(BooleanBitmapSlicer::new(&data, 9).data_size(), 9);
    assert_eq!(BooleanBitmapSlicer::new(&data, 99).data_size(), 80);
    let inner = DataPageFixedSlicer::new(&data, 4, 9);
    assert_eq!(ValueConvertSlicer::new(inner, ValueConversion::DateDaysToMillis).data_size(), 10);

    let mut encoded = Vec::new();
    delta_bitpacked::encode([5i64, 6, 7].into_iter(), &mut encoded);
    assert_eq!(DeltaBinaryPackedSlicer::try_new(&encoded, 2, 3).unwrap().data_size(), 6);
    assert_eq!(DeltaBinaryPackedSlicer::try_new(&encoded, 8, 2).unwrap().data_size(), 16);

    let values: [&[u8]; 3] = [b"one", b"", b"three"];
    let mut encoded = Vec::new();
    parquet2::encoding::delta_length_byte_array::encode(values.iter(), &mut encoded);
    let mut slicer = DeltaLengthArraySlicer::try_new(&encoded, 3).unwrap();
    assert_eq!(slicer.data_size(), 8);
    slicer.skip(2);
    assert_eq!(slicer.data_size(), 8);

    let values: [&[u8]; 3] = [b"apple", b"applesauce", b"apply"];
    let mut encoded = Vec::new();
    parquet2::encoding::delta_byte_array::encode(values.iter().copied(), &mut encoded);
    let mut slicer = DeltaBytesArraySlicer::try_new(&encoded, 3).unwrap();
    assert_eq!(slicer.data_size(), 5 + 5 + 1);
    let mut out = Vec::new();
    assert!(slicer.next_into(&mut out));
    assert_eq!(slicer.data_size(), 11);

    let page = qdbr::page::DictPage::new((0..12).collect(), 3, false);
    let dict = FixedDictDecoder::try_new(&page, 4).unwrap();
    assert_eq!(dict.avg_key_len(), 4);
    // Two indices lie within the dictionary, the third does not.
    let slicer = RleDictionarySlicer::try_new(&[2, (1 << 1) | 1, 0b0011_1001, 0], dict, 8).unwrap();
    assert_eq!(slicer.data_size(), 8);

    let page = qdbr::page::DictPage::new(vec![1, 0, 0, 0, b'a', 0, 0, 0, 0, 2, 0, 0, 0, b'b', b'c'], 3, true);
    assert_eq!(VarDictDecoder::try_new(&page).unwrap().avg_key_len(), 5);
    let dict = VarDictDecoder::try_new(&page).unwrap();
    let slicer = RleDictionarySlicer::try_new(&[2, (1 << 1) | 1, 0b0000_1001, 0], dict, 8).unwrap();
    assert_eq!(slicer.data_size(), 40);
    let empty = qdbr::page::DictPage::new(vec![9, 9], 0, false);
    assert_eq!(VarDictDecoder::try_new(&empty).unwrap().avg_key_len(), 0);

    let slicer = RleLocalIsGlobalSymbolDecoder::try_new(&[9, 3 << 1, 0x2A, 0x01], 2).unwrap();
    assert_eq!(slicer.data_size(), 8);
}

#[test]
fn buffers_grow_and_stay_in_step() {
    let mut bufs = ColumnChunkBuffers::new();
    assert_eq!((bufs.data_size, bufs.aux_size), (0, 0));
    bufs.data_vec.extend_from_slice(&[1, 2, 3]);
    bufs.aux_vec.push(4);
    bufs.refresh_ptrs();
    assert_eq!((bufs.data_size, bufs.aux_size), (3, 1));
    assert_eq!(bufs.data(), [1, 2, 3]);
    assert_eq!(bufs.aux(), [4]);
    assert_eq!(ColumnChunkStats::new().min_value_size, 0);

    let mut group = RowGroupBuffers::new();
    assert!(group.column_bufs.is_empty() && group.column_chunk_stats.is_empty());
    group.ensure_n_columns(2);
    assert_eq!((group.column_bufs.len(), group.column_chunk_stats.len()), (2, 2));
    group.column_bufs[1] = bufs.clone();
    group.column_chunk_stats[0].min_value.push(7);
    group.ensure_n_columns(1);
    assert_eq!(group.column_bufs.len(), 2);
    group.ensure_n_columns(4);
    assert_eq!((group.column_bufs.len(), group.column_chunk_stats.len()), (4, 4));
    assert_eq!(group.column_bufs[1], bufs);
    assert_eq!(group.column_bufs[3], ColumnChunkBuffers::new());
    assert_eq!(group.column_chunk_stats[0].min_value, [7]);

    // The two lists grow together, and only where the column buffers are
    // too few: else nothing changes, whatever the statistics hold.
    let mut group = RowGroupBuffers::new();
    group.column_bufs = vec![bufs.clone(), ColumnChunkBuffers::new()];
    group.ensure_n_columns(1);
    group.ensure_n_columns(2);
    assert_eq!((group.column_bufs.len(), group.column_chunk_stats.len()), (2, 0));
    assert_eq!(group.column_bufs[0], bufs);
    group.ensure_n_columns(3);
    assert_eq!((group.column_bufs.len(), group.column_chunk_stats.len()), (3, 3));
    assert_eq!(group.column_bufs[0], bufs);
    let mut group = RowGroupBuffers::new();
    group.column_chunk_stats = vec![ColumnChunkStats::new(); 5];
    group.column_chunk_stats[1].min_value.push(3);
    group.ensure_n_columns(2);
    assert_eq!((group.column_bufs.len(), group.column_chunk_stats.len()), (2, 2));
    assert_eq!(group.column_chunk_stats[1].min_value, [3]);
}

fn descriptor(max_def_level: i16, max_rep_level: i16) -> Descriptor {
    Descriptor {
        name: std::string::String::from("c"),
        id: None,
        physical_type: PhysicalType::Int32,
        logical_type: None,
        converted_type: None,
        max_def_level,
        max_rep_level,
    }
}

fn v1(buffer: Vec<u8>, max_def_level: i16, max_rep_level: i16) -> DataPage {
    DataPage::new(
        DataPageHeader::V1 { num_values: 8, encoding: Encoding::Plain },
        buffer,
        descriptor(max_def_level, max_rep_level),
        None,
    )
}

#[test]
fn the_regions_of_a_page() {
    let buffer = vec![1u8, 0, 0, 0, 0xAA, 2, 0, 0, 0, 0xBB, 0xCC, 0xDD];
    let page = v1(buffer.clone(), 1, 1);
    assert_eq!(split_buffer(&page), Ok((&[0xAAu8][..], &[0xBBu8, 0xCC][..], &[0xDDu8][..])));
    let page = v1(buffer.clone(), 1, 0);
    assert_eq!(split_buffer(&page), Ok((&[][..], &[0xAAu8][..], &buffer[5..])));
    let page = v1(buffer.clone(), 0, 0);
    assert_eq!(split_buffer(&page), Ok((&[][..], &[][..], &buffer[..])));
    let page = v1(vec![0, 0, 0, 0], 1, 0);
    assert_eq!(split_buffer(&page), Ok((&[][..], &[][..], &[][..])));
    let page = DataPage::new(
        DataPageHeader::V2 {
            num_values: 8,
            encoding: Encoding::Plain,
            definition_levels_byte_length: 3,
            repetition_levels_byte_length: 2,
        },
        buffer.clone(),
        descriptor(1, 1),
        None,
    );
    assert_eq!(split_buffer(&page), Ok((&buffer[..2], &buffer[2..5], &buffer[5..])));
    assert_eq!(page.num_values(), 8);
    assert_eq!(page.encoding(), Encoding::Plain);
}

#[test]
fn selected_rows() {
    let mut page = v1(vec![], 1, 0);
    assert_eq!(get_selected_rows(&page), [Interval::new(0, 8)]);
    page.selected_rows = Some(vec![Interval::new(1, 2), Interval::new(5, 1)]);
    assert_eq!(get_selected_rows(&page), [Interval::new(1, 2), Interval::new(5, 1)]);
    assert!(check_intervals(&vec![]));
    assert!(check_intervals(&vec![Interval::new(0, 0), Interval::new(0, 3), Interval::new(3, 1)]));
    assert!(check_intervals(&vec![Interval::new(usize::MAX, 0)]));
    assert!(!check_intervals(&vec![Interval::new(usize::MAX, 1)]));
    assert!(!check_intervals(&vec![Interval::new(2, 2), Interval::new(3, 1)]));
    assert!(check_within(&vec![], 0));
    assert!(check_within(&vec![Interval::new(2, 2), Interval::new(0, 4), Interval::new(4, 0)], 4));
    assert!(!check_within(&vec![Interval::new(2, 2), Interval::new(3, 2)], 4));
    assert!(!check_within(&vec![Interval::new(5, 0)], 4));
    assert!(!check_within(&vec![Interval::new(usize::MAX, usize::MAX)], usize::MAX));
    assert_eq!(count_selected(&vec![Interval::new(1, 2), Interval::new(5, 1), Interval::new(9, 0)]), 3);
    assert_eq!(count_selected(&vec![]), 0);
}

#[test]
fn runs_of_a_page() {
    // Eight rows in a repeated run, then eight rows bit by bit.
    let levels = [8 << 1, 1, (1 << 1) | 1, 0b0101_0101];
    let mut buffer = (levels.len() as u32).to_le_bytes().to_vec();
    buffer.extend_from_slice(&levels);
    let mut page = v1(buffer, 1, 0);
    page.header = DataPageHeader::V1 { num_values: 16, encoding: Encoding::Plain };
    let runs = decode_null_bitmap(Version::V1, &page, 16).unwrap().unwrap();
    assert_eq!(
        runs,
        [
            ValidityRun::Repeated { is_set: true, length: 8 },
            ValidityRun::Bitmap { values: vec![0b0101_0101], offset: 0, length: 8 },
        ]
    );
    assert_eq!(check_runs(&runs, 16), None);
    assert_eq!(check_runs(&runs, 15), Some(LayoutReason::RowCountMismatch { expected: 15 }));

    page.selected_rows = Some(vec![Interval::new(2, 3), Interval::new(10, 4)]);
    let runs = decode_null_bitmap(Version::V1, &page, 16).unwrap().unwrap();
    assert_eq!(
        runs,
        [
            ValidityRun::Skipped(2),
            ValidityRun::Repeated { is_set: true, length: 3 },
            ValidityRun::Skipped(3),
            ValidityRun::Skipped(1),
            ValidityRun::Bitmap { values: vec![0b0101_0101], offset: 2, length: 4 },
        ]
    );
    assert_eq!(check_runs(&runs, 7), None);

    // The values of the rows: 0..8 for the first eight, then one for every other row.
    let values: Vec<u8> = (0..12u8).collect();
    let slicer = DataPageFixedSlicer::new(&values, 1, 16);
    let mut sink = ColumnSink::new(slicer, FixedWriter { width: 1, null_value: vec![0xFF] });
    let mut bufs = ColumnChunkBuffers::new();
    consume_runs(&mut sink, &mut bufs, &runs);
    assert_eq!(sink.result(), Ok(()));
    assert_eq!(bufs.data_vec, [2, 3, 4, 9, 0xFF, 10, 0xFF]);

    let page = v1(vec![], 0, 0);
    assert_eq!(decode_null_bitmap(Version::V2, &page, 8), Ok(None));
    let bad = vec![ValidityRun::Bitmap { values: vec![0], offset: 4, length: 5 }];
    assert_eq!(check_runs(&bad, 5), Some(LayoutReason::DefinitionLevels));
    let huge = vec![ValidityRun::Repeated { is_set: false, length: usize::MAX }; 2];
    assert_eq!(check_runs(&huge, 1), Some(LayoutReason::RowCountMismatch { expected: 1 }));
}

fn pick(
    physical_type: PhysicalType,
    logical_type: Option<PrimitiveLogicalType>,
    converted_type: Option<PrimitiveConvertedType>,
    encoding: Encoding,
    has_dict: bool,
    tag: ColumnTypeTag,
) -> Result<DecodePlan, PlanError> {
    select_plan(Discriminators {
        physical_type,
        logical_type,
        converted_type,
        encoding,
        has_dict,
        tag,
        format: None,
    })
}

fn fixed(slicer: SlicerPlan, width: usize, null: NullValue, clears_aux: bool) -> Result<DecodePlan, PlanError> {
    Ok(DecodePlan { slicer, sink: SinkPlan::Fixed { width, null }, clears_aux })
}

#[test]
fn cells_of_the_table() {
    let i32t = PhysicalType::Int32;
    let i64t = PhysicalType::Int64;
    assert_eq!(pick(i32t, None, None, Plain, false, Short), fixed(SlicerPlan::PlainFixed { width: 4 }, 2, NullValue::Short, false));
    assert_eq!(pick(i32t, None, None, Plain, true, Char), fixed(SlicerPlan::PlainFixed { width: 4 }, 2, NullValue::Short, false));
    assert_eq!(pick(i32t, None, None, DeltaBinaryPacked, false, GeoShort), fixed(SlicerPlan::DeltaBinaryPacked { width: 2 }, 2, NullValue::Short, false));
    assert_eq!(pick(i32t, None, None, Plain, false, GeoByte), fixed(SlicerPlan::PlainFixed { width: 4 }, 1, NullValue::Byte, false));
    assert_eq!(pick(i32t, None, None, DeltaBinaryPacked, false, Byte), fixed(SlicerPlan::DeltaBinaryPacked { width: 1 }, 1, NullValue::Byte, false));
    assert_eq!(pick(i32t, None, None, DeltaBinaryPacked, false, IPv4), fixed(SlicerPlan::DeltaBinaryPacked { width: 4 }, 4, NullValue::Int, false));
    assert_eq!(pick(i32t, None, None, PlainDictionary, true, GeoInt), fixed(SlicerPlan::DictionaryFixed { width: 4 }, 4, NullValue::Int, false));
    assert_eq!(pick(i32t, None, None, RleDictionary, true, Short), fixed(SlicerPlan::DictionaryFixed { width: 4 }, 2, NullValue::Short, false));
    assert_eq!(pick(i32t, None, None, RleDictionary, true, Byte), Err(PlanError::NoCell));
    assert_eq!(pick(i32t, None, None, DeltaBinaryPacked, false, Date), Err(PlanError::NoCell));
    assert_eq!(pick(i32t, None, None, DeltaBinaryPacked, false, Double), Err(PlanError::NoCell));
    assert_eq!(
        pick(i32t, Some(PrimitiveLogicalType::Decimal(9, 4)), Some(PrimitiveConvertedType::Decimal(9, 2)), Plain, false, Double),
        Ok(DecodePlan { slicer: SlicerPlan::PlainFixed { width: 4 }, sink: SinkPlan::IntDecimal { scale: 4 }, clears_aux: false })
    );
    assert_eq!(
        pick(i32t, None, None, RleDictionary, true, Double),
        Ok(DecodePlan { slicer: SlicerPlan::DictionaryFixed { width: 4 }, sink: SinkPlan::IntDecimal { scale: 0 }, clears_aux: false })
    );
    for tag in [Long, Date, GeoLong, Timestamp] {
        assert_eq!(pick(i64t, None, None, Plain, false, tag), fixed(SlicerPlan::PlainFixed { width: 8 }, 8, NullValue::Long, false));
        assert_eq!(pick(i64t, None, None, DeltaBinaryPacked, false, tag), fixed(SlicerPlan::DeltaBinaryPacked { width: 8 }, 8, NullValue::Long, false));
        assert_eq!(pick(i64t, None, None, RleDictionary, true, tag), fixed(SlicerPlan::DictionaryFixed { width: 8 }, 8, NullValue::Long, false));
        assert_eq!(pick(i64t, None, None, RleDictionary, false, tag), Err(PlanError::NoCell));
    }
    assert_eq!(pick(i64t, None, None, Plain, false, Int), Err(PlanError::NoCell));
    assert_eq!(
        pick(PhysicalType::FixedLenByteArray(16), Some(PrimitiveLogicalType::Uuid), None, Plain, false, Uuid),
        Ok(DecodePlan {
            slicer: SlicerPlan::PlainFixed { width: 16 },
            sink: SinkPlan::ReverseFixed { width: 16, null: NullValue::Uuid },
            clears_aux: false
        })
    );
    assert_eq!(pick(PhysicalType::FixedLenByteArray(16), None, None, Plain, false, Long128), Err(PlanError::NoCell));
    assert_eq!(pick(PhysicalType::FixedLenByteArray(16), None, None, Plain, false, Uuid), Err(PlanError::NoCell));
    assert_eq!(
        pick(PhysicalType::FixedLenByteArray(32), Some(PrimitiveLogicalType::Unknown), None, Plain, false, Long256),
        fixed(SlicerPlan::PlainFixed { width: 32 }, 32, NullValue::Long256, false)
    );
    let text = Some(PrimitiveLogicalType::String);
    let utf8 = Some(PrimitiveConvertedType::Utf8);
    let var = |slicer, sink| Ok(DecodePlan { slicer, sink, clears_aux: false });
    let bytes = PhysicalType::ByteArray;
    assert_eq!(pick(bytes, text, None, DeltaLengthByteArray, false, String), var(SlicerPlan::DeltaLengthByteArray, SinkPlan::Text));
    assert_eq!(pick(bytes, None, utf8, DeltaLengthByteArray, false, Varchar), var(SlicerPlan::DeltaLengthByteArray, SinkPlan::Varchar));
    assert_eq!(pick(bytes, text, None, DeltaLengthByteArray, true, Varchar), Err(PlanError::NoCell));
    assert_eq!(pick(bytes, Some(PrimitiveLogicalType::Json), utf8, PlainDictionary, true, Varchar), var(SlicerPlan::DictionaryVar, SinkPlan::Varchar));
    assert_eq!(pick(bytes, text, None, Plain, false, String), var(SlicerPlan::PlainVar, SinkPlan::Text));
    assert_eq!(pick(bytes, text, None, Plain, true, String), Err(PlanError::NoCell));
    assert_eq!(pick(bytes, text, None, Plain, true, Varchar), var(SlicerPlan::PlainVar, SinkPlan::Varchar));
    assert_eq!(pick(bytes, text, None, DeltaByteArray, false, Varchar), var(SlicerPlan::DeltaByteArray, SinkPlan::Varchar));
    assert_eq!(pick(bytes, text, None, DeltaByteArray, false, String), Err(PlanError::NoCell));
    assert_eq!(pick(bytes, text, None, RleDictionary, true, Symbol), Err(PlanError::SymbolFormat));
    assert_eq!(pick(bytes, text, None, PlainDictionary, true, Symbol), Err(PlanError::NoCell));
    assert_eq!(
        select_plan(Discriminators {
            physical_type: bytes,
            logical_type: text,
            converted_type: None,
            encoding: RleDictionary,
            has_dict: true,
            tag: Symbol,
            format: Some(QdbMetaColFormat::LocalKeyIsGlobal),
        }),
        fixed(SlicerPlan::SymbolKeys, 4, NullValue::Int, false)
    );
    assert_eq!(pick(bytes, None, None, Plain, false, Binary), var(SlicerPlan::PlainVar, SinkPlan::Binary));
    assert_eq!(pick(bytes, None, None, DeltaLengthByteArray, false, Binary), var(SlicerPlan::DeltaLengthByteArray, SinkPlan::Binary));
    assert_eq!(pick(bytes, None, None, RleDictionary, true, Binary), var(SlicerPlan::DictionaryVar, SinkPlan::Binary));
    assert_eq!(pick(bytes, None, None, Plain, false, Varchar), Err(PlanError::NoCell));
    assert_eq!(pick(bytes, Some(PrimitiveLogicalType::Json), None, Plain, false, Binary), Err(PlanError::NoCell));
    assert_eq!(
        pick(PhysicalType::Int96, None, None, Plain, false, Timestamp),
        var(SlicerPlan::PlainFixed { width: 12 }, SinkPlan::NanoTimestamp)
    );
    assert_eq!(
        pick(PhysicalType::Int96, text, None, RleDictionary, true, Timestamp),
        var(SlicerPlan::DictionaryFixed { width: 12 }, SinkPlan::NanoTimestamp)
    );
    assert_eq!(pick(PhysicalType::Int96, None, None, Plain, false, Long), Err(PlanError::NoCell));
    assert_eq!(pick(PhysicalType::Double, None, None, Plain, false, Double), fixed(SlicerPlan::PlainFixed { width: 8 }, 8, NullValue::Double, true));
    assert_eq!(pick(PhysicalType::Double, None, None, RleDictionary, true, Double), fixed(SlicerPlan::DictionaryFixed { width: 8 }, 8, NullValue::Double, true));
    assert_eq!(pick(PhysicalType::Double, None, None, Plain, true, Double), Err(PlanError::NoCell));
    assert_eq!(pick(PhysicalType::Double, text, None, Plain, false, Double), Err(PlanError::NoCell));
    assert_eq!(pick(PhysicalType::Float, None, None, Plain, false, Float), fixed(SlicerPlan::PlainFixed { width: 4 }, 4, NullValue::Float, true));
    assert_eq!(pick(PhysicalType::Float, None, None, PlainDictionary, true, Float), fixed(SlicerPlan::DictionaryFixed { width: 4 }, 4, NullValue::Float, true));
    assert_eq!(pick(PhysicalType::Float, None, None, Plain, false, Double), Err(PlanError::NoCell));
    assert_eq!(pick(PhysicalType::Boolean, None, None, Plain, false, Boolean), fixed(SlicerPlan::BooleanBits, 1, NullValue::Byte, true));
    assert_eq!(pick(PhysicalType::Boolean, None, None, Rle, false, Boolean), fixed(SlicerPlan::BooleanBits, 1, NullValue::Byte, true));
    assert_eq!(pick(PhysicalType::Boolean, None, None, RleDictionary, true, Boolean), Err(PlanError::NoCell));
}
