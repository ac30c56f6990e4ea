//! Whole pages and requests, decoded: what comes out for what goes in.

use parquet2::encoding::hybrid_rle::{bitpacked_encode, encode_bool, encode_u32};
use parquet2::encoding::{delta_bitpacked, delta_byte_array, delta_length_byte_array};
use qdbr::buffers::{ColumnChunkBuffers, RowGroupBuffers};
use qdbr::col_type::{ColumnType, ColumnTypeTag};
use qdbr::dispatch::decoder_page;
use qdbr::error::{InvalidReason, ParquetError};
use qdbr::meta::{ColumnChunkMetaData, FileMetaData, ParquetDecoder, RowGroupMetaData};
use qdbr::page::{DataPage, DataPageHeader, DictPage, Interval, Page, Version};
use qdbr::qdb_metadata::{QdbMeta, QdbMetaCol, QdbMetaColFormat, QdbMetaColumn};
use qdbr::schema::{
    Descriptor, Encoding, PhysicalType, PrimitiveConvertedType, PrimitiveLogicalType, TimeUnit,
};

fn descriptor(
    physical_type: PhysicalType,
    logical_type: Option<PrimitiveLogicalType>,
    converted_type: Option<PrimitiveConvertedType>,
    optional: bool,
) -> Descriptor {
    Descriptor {
        name: String::from("col"),
        id: Some(0),
        physical_type,
        logical_type,
        converted_type,
        max_def_level: if optional { 1 } else { 0 },
        max_rep_level: 0,
    }
}

/// A page of the first version: the definition levels with their length
/// before them where the column is optional, then the values.
fn page_v1(validity: &[bool], values: &[u8], encoding: Encoding, descriptor: Descriptor) -> DataPage {
    let mut buffer = Vec::new();
    if descriptor.max_def_level > 0 {
        let mut levels = Vec::new();
        encode_bool(&mut levels, validity.iter().copied()).unwrap();
        buffer.extend_from_slice(&(levels.len() as u32).to_le_bytes());
        buffer.extend_from_slice(&levels);
    }
    buffer.extend_from_slice(values);
    DataPage::new(
        DataPageHeader::V1 { num_values: validity.len(), encoding },
        buffer,
        descriptor,
        None,
    )
}

fn column(tag: ColumnTypeTag) -> QdbMetaCol {
    QdbMetaCol { column_type: tag.into_type(), format: None }
}

fn decode(page: &DataPage, dict: Option<&DictPage>, col_info: QdbMetaCol) -> ColumnChunkBuffers {
    let mut bufs = ColumnChunkBuffers::new();
    let rows = decoder_page(Version::V1, page, dict, &mut bufs, col_info).unwrap();
    assert_eq!(rows, page.num_values());
    bufs
}

fn alternating(rows: usize) -> Vec<bool> {
    (0..rows).map(|i| i % 2 == 0).collect()
}

fn plain_i32(values: &[i32]) -> Vec<u8> {
    values.iter().flat_map(|v| v.to_le_bytes()).collect()
}

fn plain_i64(values: &[i64]) -> Vec<u8> {
    values.iter().flat_map(|v| v.to_le_bytes()).collect()
}

fn plain_var(values: &[&[u8]]) -> Vec<u8> {
    let mut out = Vec::new();
    for value in values {
        out.extend_from_slice(&(value.len() as u32).to_le_bytes());
        out.extend_from_slice(value);
    }
    out
}

fn int32() -> Descriptor {
    descriptor(PhysicalType::Int32, None, None, true)
}

fn int64() -> Descriptor {
    descriptor(PhysicalType::Int64, None, None, true)
}

#[test]
fn plain_int_column_with_alternating_nulls() {
    let page = page_v1(&alternating(10), &plain_i32(&[0, 1, 2, 3, 4]), Encoding::Plain, int32());
    let bufs = decode(&page, None, column(ColumnTypeTag::Int));
    assert_eq!(bufs.data_vec.len(), 40);
    for i in 0..5usize {
        assert_eq!(bufs.data_vec[8 * i..8 * i + 4], (i as i32).to_le_bytes());
        assert_eq!(bufs.data_vec[8 * i + 4..8 * i + 8], 0x8000_0000u32.to_le_bytes());
    }
    assert!(bufs.aux_vec.is_empty());
}

fn dictionary_indices(indices: &[u32], bits: u32) -> Vec<u8> {
    let mut out = vec![bits as u8];
    encode_u32(&mut out, indices.iter().copied(), bits).unwrap();
    out
}

#[test]
fn dictionary_encoded_decimal_column_as_doubles() {
    let dict = DictPage::new(plain_i32(&[100, 200]), 2, false);
    let page = page_v1(
        &[true, true],
        &dictionary_indices(&[0, 1], 1),
        Encoding::RleDictionary,
        descriptor(PhysicalType::Int32, Some(PrimitiveLogicalType::Decimal(9, 2)), None, true),
    );
    let bufs = decode(&page, Some(&dict), column(ColumnTypeTag::Double));
    let mut expected = Vec::new();
    expected.extend_from_slice(&1.00f64.to_le_bytes());
    expected.extend_from_slice(&2.00f64.to_le_bytes());
    assert_eq!(bufs.data_vec, expected);
}

#[test]
fn decimal_scale_comes_from_the_legacy_annotation_too() {
    let page = page_v1(
        &[true, false, true],
        &plain_i32(&[-12345, 5]),
        Encoding::Plain,
        descriptor(PhysicalType::Int32, None, Some(PrimitiveConvertedType::Decimal(9, 3)), true),
    );
    let bufs = decode(&page, None, column(ColumnTypeTag::Double));
    let mut expected = Vec::new();
    expected.extend_from_slice(&(-12.345f64).to_le_bytes());
    expected.extend_from_slice(&[0, 0, 0, 0, 0, 0, 0xF8, 0x7F]);
    expected.extend_from_slice(&0.005f64.to_le_bytes());
    assert_eq!(bufs.data_vec, expected);
}

/// A file of one row group and the given columns, each with the type that
/// the database's description gives it.
fn decoder_of(columns: &[(Descriptor, ColumnTypeTag)], rows: usize) -> ParquetDecoder {
    let metadata = FileMetaData {
        version: 1,
        num_rows: rows,
        row_groups: vec![RowGroupMetaData {
            num_rows: rows,
            columns: columns
                .iter()
                .map(|_| ColumnChunkMetaData { compressed_size: 100, min_value: None })
                .collect(),
        }],
        schema_descr: columns
            .iter()
            .enumerate()
            .map(|(i, (descriptor, _))| Descriptor { id: Some(i as i32), ..descriptor.clone() })
            .collect(),
        key_value_metadata: None,
    };
    let entries = columns
        .iter()
        .enumerate()
        .map(|(i, (_, tag))| QdbMetaColumn {
            id: i as i32,
            qdb_type_code: tag.into_type().code(),
            format: None,
        })
        .collect();
    let description = QdbMeta::new(1, entries).unwrap();
    ParquetDecoder::read(metadata, Some(description)).unwrap()
}

#[test]
fn long_requested_for_a_column_stored_as_int_is_refused() {
    let decoder = decoder_of(&[(int32(), ColumnTypeTag::Int)], 2);
    let page = page_v1(&[true, true], &plain_i32(&[1, 2]), Encoding::Plain, int32());
    let chunks = vec![vec![Page::Data(page)]];
    let mut bufs = RowGroupBuffers::new();
    let requested = ColumnTypeTag::Long.into_type();
    let res = decoder.decode_row_group(&mut bufs, &[(0, requested)], 0, &chunks);
    assert_eq!(
        res,
        Err(ParquetError::Invalid(InvalidReason::ColumnTypeMismatch {
            requested,
            stored: ColumnTypeTag::Int.into_type(),
            column_index: 0,
        }))
    );
}

#[test]
fn varchar_requested_for_a_symbol_column_is_accepted() {
    let text = descriptor(
        PhysicalType::ByteArray,
        Some(PrimitiveLogicalType::String),
        Some(PrimitiveConvertedType::Utf8),
        true,
    );
    let decoder = decoder_of(&[(text.clone(), ColumnTypeTag::Symbol)], 3);
    assert_eq!(decoder.columns[0].column_type.tag(), ColumnTypeTag::Symbol);
    let dict = DictPage::new(plain_var(&[b"ab", b"a long symbol"]), 2, false);
    let page = page_v1(
        &[true, false, true],
        &dictionary_indices(&[1, 0], 1),
        Encoding::RleDictionary,
        text,
    );
    let chunks = vec![vec![Page::Dict(dict), Page::Data(page)]];
    let mut bufs = RowGroupBuffers::new();
    let rows = decoder
        .decode_row_group(&mut bufs, &[(0, ColumnTypeTag::Varchar.into_type())], 0, &chunks)
        .unwrap();
    assert_eq!(rows, 3);
    assert_eq!(bufs.column_bufs[0].data_vec, b"a long symbol");
    assert_eq!(bufs.column_bufs[0].aux_vec.len(), 48);
    assert_eq!(bufs.column_bufs[0].aux_size, 48);
    // A symbol column asked for as a symbol column is stored as it is.
    let stored = decoder.decode_row_group(
        &mut bufs,
        &[(0, ColumnTypeTag::Symbol.into_type())],
        0,
        &vec![vec![]],
    );
    assert_eq!(stored, Ok(0));
}

#[test]
fn empty_definition_levels_decode_every_row_as_a_value() {
    let required = descriptor(PhysicalType::Int32, None, None, false);
    let page = page_v1(&[true; 4], &plain_i32(&[7, 8, 9, 10]), Encoding::Plain, required);
    let bufs = decode(&page, None, column(ColumnTypeTag::Int));
    assert_eq!(bufs.data_vec, plain_i32(&[7, 8, 9, 10]));

    // The same holds of an optional column whose page carries no levels.
    let page = DataPage::new(
        DataPageHeader::V2 {
            num_values: 3,
            encoding: Encoding::Plain,
            definition_levels_byte_length: 0,
            repetition_levels_byte_length: 0,
        },
        plain_i64(&[-1, 0, 1]),
        int64(),
        None,
    );
    let bufs = decode(&page, None, column(ColumnTypeTag::Long));
    assert_eq!(bufs.data_vec, plain_i64(&[-1, 0, 1]));
}

#[test]
fn selected_rows_of_a_page_without_levels_are_the_rows_at_their_places() {
    let numbers: Vec<i64> = (0..40).map(|i| 1000 - 37 * i).collect();
    let mut encoded = Vec::new();
    delta_bitpacked::encode(numbers.iter().copied(), &mut encoded);
    let required = descriptor(PhysicalType::Int64, None, None, false);
    let whole = page_v1(&[true; 40], &encoded, Encoding::DeltaBinaryPacked, required);
    let unfiltered = decode(&whole, None, column(ColumnTypeTag::Long));
    assert_eq!(unfiltered.data_vec, plain_i64(&numbers));

    let selections: Vec<Vec<Interval>> = vec![
        vec![],
        vec![Interval::new(0, 40)],
        vec![Interval::new(3, 5)],
        vec![Interval::new(0, 1), Interval::new(7, 9), Interval::new(30, 10)],
        vec![Interval::new(39, 1)],
        vec![Interval::new(5, 0), Interval::new(12, 4), Interval::new(16, 2)],
    ];
    for selected in selections {
        let mut page = whole.clone();
        page.selected_rows = Some(selected.clone());
        let filtered = decode(&page, None, column(ColumnTypeTag::Long));
        let mut expected = Vec::new();
        for interval in &selected {
            expected.extend_from_slice(&numbers[interval.start..interval.start + interval.length]);
        }
        assert_eq!(filtered.data_vec, plain_i64(&expected), "{:?}", selected);
    }

    // Plain values of an optional column whose page carries no levels.
    let mut page = DataPage::new(
        DataPageHeader::V2 {
            num_values: 5,
            encoding: Encoding::Plain,
            definition_levels_byte_length: 0,
            repetition_levels_byte_length: 0,
        },
        plain_i32(&[10, 11, 12, 13, 14]),
        int32(),
        Some(vec![Interval::new(1, 2), Interval::new(4, 1)]),
    );
    let bufs = decode(&page, None, column(ColumnTypeTag::Int));
    assert_eq!(bufs.data_vec, plain_i32(&[11, 12, 14]));

    // Rows out of order, rows that overlap and rows beyond the page are refused.
    let refused = [
        vec![Interval::new(3, 1), Interval::new(1, 1)],
        vec![Interval::new(0, 3), Interval::new(2, 1)],
        vec![Interval::new(4, 2)],
        vec![Interval::new(6, 0)],
        vec![Interval::new(usize::MAX, 1)],
    ];
    for selected in refused {
        page.selected_rows = Some(selected.clone());
        let mut bufs = ColumnChunkBuffers::new();
        assert_eq!(
            decoder_page(Version::V2, &page, None, &mut bufs, column(ColumnTypeTag::Int)),
            Err(ParquetError::Invalid(InvalidReason::SelectedRows)),
            "{:?}",
            selected
        );
    }
}

/// What a column of fixed width is expected to hold: each value where the
/// row is valid, the null value where it is not.
fn expected_fixed(validity: &[bool], values: &[Vec<u8>], null: &[u8]) -> Vec<u8> {
    let mut out = Vec::new();
    let mut next = 0;
    for valid in validity {
        if *valid {
            out.extend_from_slice(&values[next]);
            next += 1;
        } else {
            out.extend_from_slice(null);
        }
    }
    out
}

#[test]
fn delta_encoded_integers_come_back_with_nulls_in_their_place() {
    let validity: Vec<bool> = (0..700).map(|i| i % 3 != 1).collect();
    let numbers: Vec<i64> = (0..validity.iter().filter(|v| **v).count() as i64)
        .map(|i| (i * i * 7919) % 100_003 - 50_000)
        .collect();
    let mut encoded = Vec::new();
    delta_bitpacked::encode(numbers.iter().copied(), &mut encoded);

    let page = page_v1(&validity, &encoded, Encoding::DeltaBinaryPacked, int64());
    let bufs = decode(&page, None, column(ColumnTypeTag::Long));
    let values: Vec<Vec<u8>> = numbers.iter().map(|v| v.to_le_bytes().to_vec()).collect();
    assert_eq!(bufs.data_vec, expected_fixed(&validity, &values, &i64::MIN.to_le_bytes()));

    let page = page_v1(&validity, &encoded, Encoding::DeltaBinaryPacked, int32());
    let bufs = decode(&page, None, column(ColumnTypeTag::Int));
    let values: Vec<Vec<u8>> = numbers.iter().map(|v| (*v as i32).to_le_bytes().to_vec()).collect();
    assert_eq!(bufs.data_vec, expected_fixed(&validity, &values, &i32::MIN.to_le_bytes()));

    let bufs = decode(&page, None, column(ColumnTypeTag::Short));
    let values: Vec<Vec<u8>> = numbers.iter().map(|v| (*v as i16).to_le_bytes().to_vec()).collect();
    assert_eq!(bufs.data_vec, expected_fixed(&validity, &values, &[0, 0]));

    let bufs = decode(&page, None, column(ColumnTypeTag::Byte));
    let values: Vec<Vec<u8>> = numbers.iter().map(|v| vec![*v as u8]).collect();
    assert_eq!(bufs.data_vec, expected_fixed(&validity, &values, &[0]));
}

fn binary_column(validity: &[bool], values: &[Vec<u8>]) -> (Vec<u8>, Vec<u8>) {
    let mut data = Vec::new();
    let mut aux = vec![0u8; 8];
    let mut next = 0;
    for valid in validity {
        if *valid {
            data.extend_from_slice(&(values[next].len() as i64).to_le_bytes());
            data.extend_from_slice(&values[next]);
            next += 1;
        } else {
            data.extend_from_slice(&(-1i64).to_le_bytes());
        }
        aux.extend_from_slice(&(data.len() as u64).to_le_bytes());
    }
    (data, aux)
}

#[test]
fn byte_strings_come_back_from_every_encoding() {
    let validity: Vec<bool> = (0..200).map(|i| i % 4 != 3).collect();
    let values: Vec<Vec<u8>> = (0..150u32)
        .map(|i| format!("value-{}-{}", i / 7, "x".repeat((i % 13) as usize)).into_bytes())
        .collect();
    let (data, aux) = binary_column(&validity, &values);
    let binary = descriptor(PhysicalType::ByteArray, None, None, true);

    let refs: Vec<&[u8]> = values.iter().map(|v| v.as_slice()).collect();
    let page = page_v1(&validity, &plain_var(&refs), Encoding::Plain, binary.clone());
    let bufs = decode(&page, None, column(ColumnTypeTag::Binary));
    assert_eq!((bufs.data_vec, bufs.aux_vec), (data.clone(), aux.clone()));

    let mut encoded = Vec::new();
    delta_length_byte_array::encode(values.iter(), &mut encoded);
    let page = page_v1(&validity, &encoded, Encoding::DeltaLengthByteArray, binary.clone());
    let bufs = decode(&page, None, column(ColumnTypeTag::Binary));
    assert_eq!((bufs.data_vec, bufs.aux_vec), (data.clone(), aux.clone()));

    let entries: Vec<Vec<u8>> = (0..22u32).map(|i| format!("entry {}", i).into_bytes()).collect();
    let entry_refs: Vec<&[u8]> = entries.iter().map(|v| v.as_slice()).collect();
    let dict = DictPage::new(plain_var(&entry_refs), entries.len(), false);
    let keys: Vec<u32> = (0..150u32).map(|i| (i * 5) % 22).collect();
    let page = page_v1(&validity, &dictionary_indices(&keys, 5), Encoding::RleDictionary, binary);
    let bufs = decode(&page, Some(&dict), column(ColumnTypeTag::Binary));
    let looked_up: Vec<Vec<u8>> = keys.iter().map(|k| entries[*k as usize].clone()).collect();
    let (data, aux) = binary_column(&validity, &looked_up);
    assert_eq!((bufs.data_vec, bufs.aux_vec), (data, aux));
}

#[test]
fn text_with_shared_prefixes_comes_back() {
    let validity = [true, true, false, true, true];
    let values: [&[u8]; 4] = [b"Hello", b"Helicopter", b"Helicopters fly", b"Sky"];
    let mut encoded = Vec::new();
    delta_byte_array::encode(values.iter().copied(), &mut encoded);
    let text = descriptor(PhysicalType::ByteArray, Some(PrimitiveLogicalType::String), None, true);
    let page = page_v1(&validity, &encoded, Encoding::DeltaByteArray, text);
    let bufs = decode(&page, None, column(ColumnTypeTag::Varchar));
    // Two values are longer than nine bytes and lie in the primary buffer.
    assert_eq!(bufs.data_vec, b"HelicopterHelicopters fly");
    assert_eq!(bufs.aux_vec.len(), 5 * 16);
    assert_eq!(bufs.aux_vec[0], (5 << 4) | 1 | 2);
    assert_eq!(&bufs.aux_vec[1..6], b"Hello");
    assert_eq!(&bufs.aux_vec[16..20], &((10u32 << 4) | 2).to_le_bytes());
    assert_eq!(&bufs.aux_vec[20..26], b"Helico");
    assert_eq!(&bufs.aux_vec[26..32], &[0, 0, 0, 0, 0, 0]);
    assert_eq!(&bufs.aux_vec[32..42], &[4, 0, 0, 0, 0, 0, 0, 0, 0, 0]);
    assert_eq!(&bufs.aux_vec[42..48], &[10, 0, 0, 0, 0, 0]);
    assert_eq!(&bufs.aux_vec[58..64], &[10, 0, 0, 0, 0, 0]);
    assert_eq!(bufs.aux_vec[64], (3 << 4) | 1 | 2);
    assert_eq!(&bufs.aux_vec[74..80], &[25, 0, 0, 0, 0, 0]);
}

#[test]
fn booleans_come_back_one_byte_each() {
    let values: Vec<bool> = (0..37).map(|i| i % 3 == 0).collect();
    let mut packed = Vec::new();
    bitpacked_encode(&mut packed, values.iter().copied()).unwrap();
    let required = descriptor(PhysicalType::Boolean, None, None, false);
    let page = page_v1(&vec![true; 37], &packed, Encoding::Plain, required);
    let bufs = decode(&page, None, column(ColumnTypeTag::Boolean));
    let expected: Vec<u8> = values.iter().map(|v| *v as u8).collect();
    assert_eq!(bufs.data_vec, expected);
}

#[test]
fn every_null_of_a_fixed_column_is_the_null_value_of_its_type() {
    let validity = [false, true, false, false, true, false];
    let cases: Vec<(Descriptor, ColumnTypeTag, Vec<u8>, Vec<u8>)> = vec![
        (int32(), ColumnTypeTag::Byte, plain_i32(&[1, 2]), vec![0]),
        (int32(), ColumnTypeTag::GeoByte, plain_i32(&[1, 2]), vec![0]),
        (int32(), ColumnTypeTag::Short, plain_i32(&[1, 2]), vec![0, 0]),
        (int32(), ColumnTypeTag::Char, plain_i32(&[1, 2]), vec![0, 0]),
        (int32(), ColumnTypeTag::GeoShort, plain_i32(&[1, 2]), vec![0, 0]),
        (int32(), ColumnTypeTag::Int, plain_i32(&[1, 2]), i32::MIN.to_le_bytes().to_vec()),
        (int32(), ColumnTypeTag::GeoInt, plain_i32(&[1, 2]), i32::MIN.to_le_bytes().to_vec()),
        (int32(), ColumnTypeTag::IPv4, plain_i32(&[1, 2]), i32::MIN.to_le_bytes().to_vec()),
        (int32(), ColumnTypeTag::Date, plain_i32(&[1, 2]), i64::MIN.to_le_bytes().to_vec()),
        (int32(), ColumnTypeTag::Double, plain_i32(&[1, 2]), f64::NAN.to_le_bytes().to_vec()),
        (int64(), ColumnTypeTag::Long, plain_i64(&[1, 2]), i64::MIN.to_le_bytes().to_vec()),
        (int64(), ColumnTypeTag::GeoLong, plain_i64(&[1, 2]), i64::MIN.to_le_bytes().to_vec()),
        (int64(), ColumnTypeTag::Date, plain_i64(&[1, 2]), i64::MIN.to_le_bytes().to_vec()),
        (int64(), ColumnTypeTag::Timestamp, plain_i64(&[1, 2]), i64::MIN.to_le_bytes().to_vec()),
        (
            descriptor(PhysicalType::Double, None, None, true),
            ColumnTypeTag::Double,
            plain_i64(&[1, 2]),
            f64::NAN.to_le_bytes().to_vec(),
        ),
        (
            descriptor(PhysicalType::Float, None, None, true),
            ColumnTypeTag::Float,
            plain_i32(&[1, 2]),
            f32::NAN.to_le_bytes().to_vec(),
        ),
        (
            descriptor(PhysicalType::Int96, None, None, true),
            ColumnTypeTag::Timestamp,
            vec![0, 0, 0, 0, 0, 0, 0, 0, 0x8C, 0x3D, 0x25, 0, 1, 0, 0, 0, 0, 0, 0, 0, 0x8D, 0x3D, 0x25, 0],
            i64::MIN.to_le_bytes().to_vec(),
        ),
        (
            descriptor(PhysicalType::FixedLenByteArray(16), Some(PrimitiveLogicalType::Uuid), None, true),
            ColumnTypeTag::Uuid,
            vec![7; 32],
            [i64::MIN.to_le_bytes(), i64::MIN.to_le_bytes()].concat(),
        ),
        (
            descriptor(PhysicalType::FixedLenByteArray(32), None, None, true),
            ColumnTypeTag::Long256,
            vec![9; 64],
            [i64::MIN.to_le_bytes(); 4].concat(),
        ),
    ];
    for (descriptor, tag, values, null) in cases {
        let page = page_v1(&validity, &values, Encoding::Plain, descriptor);
        let bufs = decode(&page, None, column(tag));
        let width = null.len();
        assert_eq!(bufs.data_vec.len(), validity.len() * width, "{:?}", tag);
        for (row, valid) in validity.iter().enumerate() {
            let slot = &bufs.data_vec[row * width..(row + 1) * width];
            assert_eq!(slot == null.as_slice(), !valid, "{:?} row {}", tag, row);
        }
    }
}

#[test]
fn decoding_a_page_again_gives_the_same_bytes() {
    let validity = alternating(9);
    let text = descriptor(PhysicalType::ByteArray, Some(PrimitiveLogicalType::String), None, true);
    let page = page_v1(
        &validity,
        &plain_var(&[b"a", b"bc", "d\u{e9}f".as_bytes(), b"0123456789abcdef", b""]),
        Encoding::Plain,
        text,
    );
    for tag in [ColumnTypeTag::String, ColumnTypeTag::Varchar] {
        let first = decode(&page, None, column(tag));
        let second = decode(&page, None, column(tag));
        assert_eq!(first, second);
        assert!(!first.aux_vec.is_empty());
    }
}

#[test]
fn a_chunk_decoded_again_into_used_buffers_gives_the_same() {
    let decoder = decoder_of(&[(int32(), ColumnTypeTag::Int)], 6);
    let pages = vec![
        Page::Data(page_v1(&alternating(4), &plain_i32(&[1, 2]), Encoding::Plain, int32())),
        Page::Data(page_v1(&[true, true], &plain_i32(&[3, 4]), Encoding::Plain, int32())),
    ];
    let mut fresh = ColumnChunkBuffers::new();
    let rows = decoder.decode_column_chunk(&mut fresh, 0, 0, column(ColumnTypeTag::Int), &pages);
    assert_eq!(rows, Ok(6));
    let mut used = ColumnChunkBuffers::new();
    used.data_vec.extend_from_slice(&[1, 2, 3]);
    used.aux_vec.extend_from_slice(&[4, 5]);
    let again = decoder.decode_column_chunk(&mut used, 0, 0, column(ColumnTypeTag::Int), &pages);
    assert_eq!(again, Ok(6));
    assert_eq!(fresh, used);
    assert_eq!(fresh.data_size, 24);
    assert_eq!(fresh.aux_size, 0);
}

#[test]
fn selected_rows_are_the_rows_of_the_unfiltered_decode() {
    let validity: Vec<bool> = (0..40).map(|i| i % 5 != 2).collect();
    let numbers: Vec<i64> = (0..32).map(|i| 1000 - 37 * i).collect();
    let mut encoded = Vec::new();
    delta_bitpacked::encode(numbers.iter().copied(), &mut encoded);
    let whole = page_v1(&validity, &encoded, Encoding::DeltaBinaryPacked, int64());
    let unfiltered = decode(&whole, None, column(ColumnTypeTag::Long));
    assert_eq!(unfiltered.data_vec.len(), 40 * 8);

    let selections: Vec<Vec<Interval>> = vec![
        vec![Interval::new(0, 40)],
        vec![Interval::new(3, 5)],
        vec![Interval::new(0, 1), Interval::new(7, 9), Interval::new(30, 10)],
        vec![Interval::new(39, 1)],
        vec![Interval::new(5, 0), Interval::new(12, 4)],
    ];
    for selected in selections {
        let mut page = whole.clone();
        page.selected_rows = Some(selected.clone());
        let filtered = decode(&page, None, column(ColumnTypeTag::Long));
        let total: usize = selected.iter().map(|interval| interval.length).sum();
        assert_eq!(filtered.data_vec.len(), total * 8);
        let mut expected = Vec::new();
        for interval in &selected {
            let from = interval.start * 8;
            expected.extend_from_slice(&unfiltered.data_vec[from..from + interval.length * 8]);
        }
        assert_eq!(filtered.data_vec, expected, "{:?}", selected);
    }
}

#[test]
fn buffers_grow_with_the_request_and_keep_what_lies_beyond_it() {
    let decoder = decoder_of(&[(int32(), ColumnTypeTag::Int)], 3);
    let required = descriptor(PhysicalType::Int32, None, None, true);
    let page = page_v1(&[true, false, true], &plain_i32(&[4, 5]), Encoding::Plain, required);
    let chunk = vec![Page::Data(page)];
    let int = ColumnTypeTag::Int.into_type();
    let mut expected = plain_i32(&[4]);
    expected.extend_from_slice(&i32::MIN.to_le_bytes());
    expected.extend_from_slice(&plain_i32(&[5]));

    // More columns are asked for than the file has: one buffer for each.
    let mut bufs = RowGroupBuffers::new();
    let chunks = vec![chunk.clone(), chunk.clone(), chunk.clone()];
    assert_eq!(decoder.decode_row_group(&mut bufs, &[(0, int), (0, int), (0, int)], 0, &chunks), Ok(3));
    assert_eq!(bufs.column_bufs.len(), 3);
    for column in &bufs.column_bufs {
        assert_eq!(column.data_vec, expected);
    }

    // Fewer columns are asked for than there are buffers: the others are not touched.
    bufs.column_bufs[1].data_vec = vec![9, 9];
    bufs.column_bufs[1].refresh_ptrs();
    bufs.column_bufs[2].aux_vec = vec![1];
    bufs.column_bufs[2].refresh_ptrs();
    let held = bufs.column_bufs.clone();
    assert_eq!(decoder.decode_row_group(&mut bufs, &[(0, int)], 0, &vec![chunk.clone()]), Ok(3));
    assert_eq!(bufs.column_bufs.len(), 3);
    assert_eq!(bufs.column_bufs[0].data_vec, expected);
    assert_eq!(bufs.column_bufs[1..], held[1..]);
    assert_eq!(decoder.decode_row_group(&mut bufs, &[], 0, &vec![]), Ok(0));
    assert_eq!(bufs.column_bufs[1..], held[1..]);

    // A request that is refused at once leaves the buffers as they are.
    let mut bufs = RowGroupBuffers::new();
    assert!(decoder.decode_row_group(&mut bufs, &[(0, int)], 1, &vec![chunk.clone()]).is_err());
    assert!(decoder.decode_row_group(&mut bufs, &[(0, int)], 0, &vec![]).is_err());
    assert!(bufs.column_bufs.is_empty());

    // A file of two columns, one asked for: a buffer for each column of the file.
    let decoder = decoder_of(&[(int32(), ColumnTypeTag::Int), (int64(), ColumnTypeTag::Long)], 3);
    let mut bufs = RowGroupBuffers::new();
    assert_eq!(decoder.decode_row_group(&mut bufs, &[(0, int)], 0, &vec![chunk]), Ok(3));
    assert_eq!((bufs.column_bufs.len(), bufs.column_chunk_stats.len()), (2, 2));
    assert_eq!(bufs.column_bufs[0].data_vec, expected);
    assert_eq!(bufs.column_bufs[1], ColumnChunkBuffers::new());
}

#[test]
fn columns_of_different_row_counts_fail_the_request() {
    let decoder = decoder_of(&[(int32(), ColumnTypeTag::Int), (int64(), ColumnTypeTag::Long)], 3);
    let ints = page_v1(&[true, true, true], &plain_i32(&[1, 2, 3]), Encoding::Plain, int32());
    let longs = page_v1(&[true, true], &plain_i64(&[1, 2]), Encoding::Plain, int64());
    let chunks = vec![vec![Page::Data(ints.clone())], vec![Page::Data(longs)]];
    let columns: Vec<(i32, ColumnType)> =
        vec![(0, ColumnTypeTag::Int.into_type()), (1, ColumnTypeTag::Long.into_type())];
    let mut bufs = RowGroupBuffers::new();
    assert_eq!(
        decoder.decode_row_group(&mut bufs, &columns, 0, &chunks),
        Err(ParquetError::Invalid(InvalidReason::ChunkSizeMismatch { size: 2, previous: 3 }))
    );

    // A first column without rows does not excuse the second.
    let chunks = vec![vec![], vec![Page::Data(ints.clone())]];
    let columns: Vec<(i32, ColumnType)> =
        vec![(1, ColumnTypeTag::Long.into_type()), (0, ColumnTypeTag::Int.into_type())];
    assert_eq!(
        decoder.decode_row_group(&mut bufs, &columns, 0, &chunks),
        Err(ParquetError::Invalid(InvalidReason::ChunkSizeMismatch { size: 3, previous: 0 }))
    );

    // Columns that agree give their number of rows.
    let longs = page_v1(&[true, false, true], &plain_i64(&[1, 2]), Encoding::Plain, int64());
    let chunks = vec![vec![Page::Data(ints)], vec![Page::Data(longs)]];
    let columns: Vec<(i32, ColumnType)> =
        vec![(0, ColumnTypeTag::Int.into_type()), (1, ColumnTypeTag::Long.into_type())];
    assert_eq!(decoder.decode_row_group(&mut bufs, &columns, 0, &chunks), Ok(3));
    assert_eq!(bufs.column_bufs[0].data_vec, plain_i32(&[1, 2, 3]));
    assert_eq!(bufs.column_bufs[1].data_vec, plain_i64(&[1, i64::MIN, 2]));
}

#[test]
fn symbol_keys_are_taken_as_they_are() {
    let text = descriptor(PhysicalType::ByteArray, None, Some(PrimitiveConvertedType::Utf8), true);
    let dict = DictPage::new(plain_var(&[b"never", b"looked", b"at"]), 3, false);
    let page = page_v1(
        &[true, false, true, true],
        &dictionary_indices(&[2, 0, 1], 2),
        Encoding::RleDictionary,
        text,
    );
    let col_info = QdbMetaCol {
        column_type: ColumnTypeTag::Symbol.into_type(),
        format: Some(QdbMetaColFormat::LocalKeyIsGlobal),
    };
    let bufs = decode(&page, Some(&dict), col_info);
    assert_eq!(bufs.data_vec, plain_i32(&[2, i32::MIN, 0, 1]));
}

#[test]
fn timestamps_of_other_units_become_microseconds() {
    let nanos = descriptor(
        PhysicalType::Int64,
        Some(PrimitiveLogicalType::Timestamp { unit: TimeUnit::Nanoseconds, is_adjusted_to_utc: true }),
        None,
        true,
    );
    let page = page_v1(&[true; 4], &plain_i64(&[1_999, -1_999, 0, 5_000_000]), Encoding::Plain, nanos);
    let bufs = decode(&page, None, column(ColumnTypeTag::Timestamp));
    assert_eq!(bufs.data_vec, plain_i64(&[1, -1, 0, 5_000]));

    let millis = descriptor(
        PhysicalType::Int64,
        Some(PrimitiveLogicalType::Timestamp { unit: TimeUnit::Milliseconds, is_adjusted_to_utc: false }),
        None,
        true,
    );
    let page = page_v1(&[true, false, true], &plain_i64(&[3, -7]), Encoding::Plain, millis);
    let bufs = decode(&page, None, column(ColumnTypeTag::Timestamp));
    assert_eq!(bufs.data_vec, plain_i64(&[3_000, i64::MIN, -7_000]));

    let micros = descriptor(
        PhysicalType::Int64,
        Some(PrimitiveLogicalType::Timestamp { unit: TimeUnit::Microseconds, is_adjusted_to_utc: true }),
        None,
        true,
    );
    let page = page_v1(&[true, true], &plain_i64(&[3, -7]), Encoding::Plain, micros);
    let bufs = decode(&page, None, column(ColumnTypeTag::Timestamp));
    assert_eq!(bufs.data_vec, plain_i64(&[3, -7]));
}

#[test]
fn days_become_milliseconds() {
    let page = page_v1(&[true, true, false, true], &plain_i32(&[1, -1, 19_000]), Encoding::Plain, int32());
    let bufs = decode(&page, None, column(ColumnTypeTag::Date));
    assert_eq!(bufs.data_vec, plain_i64(&[86_400_000, -86_400_000, i64::MIN, 19_000 * 86_400_000]));
}
