//! Each error, and an input that gives it.

use parquet2::encoding::hybrid_rle::{encode_bool, encode_u32};
use parquet2::encoding::delta_bitpacked;
use qdbr::buffers::{ColumnChunkBuffers, RowGroupBuffers};
use qdbr::col_type::{ColumnType, ColumnTypeTag};
use qdbr::dispatch::decoder_page;
use qdbr::error::{InvalidReason, LayoutReason, ParquetError, UnsupportedReason};
use qdbr::meta::{ColumnChunkMetaData, FileMetaData, ParquetDecoder, RowGroupMetaData};
use qdbr::page::{DataPage, DataPageHeader, DictPage, Interval, Page, Version};
use qdbr::qdb_metadata::QdbMetaCol;
use qdbr::row_group::validate_jni_column_types;
use qdbr::schema::{Descriptor, Encoding, PhysicalType, PrimitiveLogicalType};
use qdbr::sink::fixed::{FixedWriter, IntDecimalWriter};
use qdbr::sink::{ColumnSink, Pushable};
use qdbr::slicer::fixed::DataPageFixedSlicer;

fn descriptor(physical_type: PhysicalType, logical_type: Option<PrimitiveLogicalType>) -> Descriptor {
    Descriptor {
        name: String::from("col"),
        id: None,
        physical_type,
        logical_type,
        converted_type: None,
        max_def_level: 1,
        max_rep_level: 0,
    }
}

fn levels(validity: &[bool]) -> Vec<u8> {
    let mut levels = Vec::new();
    encode_bool(&mut levels, validity.iter().copied()).unwrap();
    levels
}

/// A page of the first version with the given definition levels and values.
fn make_page(rows: usize, levels: &[u8], values: &[u8], encoding: Encoding, descriptor: Descriptor) -> DataPage {
    let mut buffer = Vec::new();
    buffer.extend_from_slice(&(levels.len() as u32).to_le_bytes());
    buffer.extend_from_slice(levels);
    buffer.extend_from_slice(values);
    DataPage::new(DataPageHeader::V1 { num_values: rows, encoding }, buffer, descriptor, None)
}

fn int_page(validity: &[bool], values: &[i32]) -> DataPage {
    let bytes: Vec<u8> = values.iter().flat_map(|v| v.to_le_bytes()).collect();
    make_page(validity.len(), &levels(validity), &bytes, Encoding::Plain, descriptor(PhysicalType::Int32, None))
}

fn column(tag: ColumnTypeTag) -> QdbMetaCol {
    QdbMetaCol { column_type: tag.into_type(), format: None }
}

fn decode(page: &DataPage, dict: Option<&DictPage>, tag: ColumnTypeTag) -> Result<usize, ParquetError> {
    let mut bufs = ColumnChunkBuffers::new();
    decoder_page(Version::V1, page, dict, &mut bufs, column(tag))
}

fn layout(reason: LayoutReason) -> Result<usize, ParquetError> {
    Err(ParquetError::Layout(reason))
}

fn invalid(reason: InvalidReason) -> Result<usize, ParquetError> {
    Err(ParquetError::Invalid(reason))
}

fn one_int_column(version: i32, compressed_size: i64) -> ParquetDecoder {
    ParquetDecoder::read(
        FileMetaData {
            version,
            num_rows: 2,
            row_groups: vec![RowGroupMetaData {
                num_rows: 2,
                columns: vec![ColumnChunkMetaData { compressed_size, min_value: None }],
            }],
            schema_descr: vec![descriptor(PhysicalType::Int32, None)],
            key_value_metadata: None,
        },
        None,
    )
    .unwrap()
}

fn int_type() -> ColumnType {
    ColumnTypeTag::Int.into_type()
}

#[test]
fn row_group_out_of_range() {
    let decoder = one_int_column(1, 10);
    let mut bufs = RowGroupBuffers::new();
    assert_eq!(
        decoder.decode_row_group(&mut bufs, &[(0, int_type())], 1, &vec![vec![]]),
        invalid(InvalidReason::RowGroupOutOfRange { index: 1, count: 1 })
    );
    let mut chunk = ColumnChunkBuffers::new();
    assert_eq!(
        decoder.decode_column_chunk(&mut chunk, 4, 0, column(ColumnTypeTag::Int), &vec![]),
        invalid(InvalidReason::RowGroupOutOfRange { index: 4, count: 1 })
    );
}

#[test]
fn column_out_of_range() {
    let decoder = one_int_column(1, 10);
    let mut bufs = RowGroupBuffers::new();
    for column in [-1, 1, i32::MAX] {
        assert_eq!(
            decoder.decode_row_group(&mut bufs, &[(column, int_type())], 0, &vec![vec![]]),
            invalid(InvalidReason::ColumnOutOfRange { column, columns: 1 })
        );
    }
    let mut chunk = ColumnChunkBuffers::new();
    assert_eq!(
        decoder.decode_column_chunk(&mut chunk, 0, 1, column(ColumnTypeTag::Int), &vec![]),
        invalid(InvalidReason::ColumnOutOfRange { column: 1, columns: 1 })
    );
}

#[test]
fn too_many_columns() {
    let decoder = one_int_column(1, 10);
    let mut bufs = RowGroupBuffers::new();
    assert_eq!(
        decoder.update_column_chunk_stats(&mut bufs, 0, 0, 1),
        Err(ParquetError::Invalid(InvalidReason::TooManyColumns { wanted: 1, capacity: 1 }))
    );
    assert_eq!((bufs.column_bufs.len(), bufs.column_chunk_stats.len()), (1, 1));
    assert_eq!(decoder.update_column_chunk_stats(&mut bufs, 0, 0, 0), Ok(()));
}

#[test]
fn column_type_mismatch() {
    let decoder = one_int_column(1, 10);
    let mut bufs = RowGroupBuffers::new();
    let requested = ColumnTypeTag::Varchar.into_type();
    assert_eq!(
        decoder.decode_row_group(&mut bufs, &[(0, requested)], 0, &vec![vec![]]),
        invalid(InvalidReason::ColumnTypeMismatch { requested, stored: int_type(), column_index: 0 })
    );
}

#[test]
fn chunk_count_mismatch() {
    let decoder = one_int_column(1, 10);
    let mut bufs = RowGroupBuffers::new();
    assert_eq!(
        decoder.decode_row_group(&mut bufs, &[(0, int_type())], 0, &vec![]),
        invalid(InvalidReason::ChunkCountMismatch { chunks: 0, columns: 1 })
    );
}

#[test]
fn chunk_size_mismatch() {
    let decoder = one_int_column(1, 10);
    let mut bufs = RowGroupBuffers::new();
    let chunks = vec![
        vec![Page::Data(int_page(&[true, true], &[1, 2]))],
        vec![Page::Data(int_page(&[true], &[1]))],
    ];
    assert_eq!(
        decoder.decode_row_group(&mut bufs, &[(0, int_type()), (0, int_type())], 0, &chunks),
        invalid(InvalidReason::ChunkSizeMismatch { size: 1, previous: 2 })
    );
}

#[test]
fn unknown_column_type_code() {
    for code in [0, -5, 20, 23, 27, 255, 256, i32::MIN] {
        assert_eq!(
            ColumnType::try_from(code),
            Err(ParquetError::Invalid(InvalidReason::UnknownColumnTypeCode { code }))
        );
    }
    assert_eq!(
        validate_jni_column_types(&[(0, 5), (1, 99), (2, 0)]),
        Err(ParquetError::Invalid(InvalidReason::UnknownColumnTypeCode { code: 99 }))
    );
}

#[test]
fn selected_rows_out_of_order() {
    let mut page = int_page(&[true; 8], &[1, 2, 3, 4, 5, 6, 7, 8]);
    for selected in [
        vec![Interval::new(4, 2), Interval::new(0, 2)],
        vec![Interval::new(0, 3), Interval::new(2, 2)],
        vec![Interval::new(usize::MAX, 1)],
    ] {
        page.selected_rows = Some(selected);
        assert_eq!(decode(&page, None, ColumnTypeTag::Int), invalid(InvalidReason::SelectedRows));
    }
}

#[test]
fn unsupported_encoding_names_what_was_asked() {
    let page = int_page(&[true], &[1]);
    assert_eq!(
        decode(&page, None, ColumnTypeTag::Varchar),
        Err(ParquetError::Unsupported(UnsupportedReason::Encoding {
            physical_type: PhysicalType::Int32,
            encoding: Encoding::Plain,
            logical_type: None,
            converted_type: None,
            column_type: ColumnTypeTag::Varchar.into_type(),
        }))
    );
    // Indices into a dictionary, and no dictionary page before them.
    let mut indices = vec![1u8];
    encode_u32(&mut indices, [0u32, 1].into_iter(), 1).unwrap();
    let page = make_page(2, &levels(&[true, true]), &indices, Encoding::RleDictionary, descriptor(PhysicalType::Int32, None));
    assert_eq!(
        decode(&page, None, ColumnTypeTag::Int),
        Err(ParquetError::Unsupported(UnsupportedReason::Encoding {
            physical_type: PhysicalType::Int32,
            encoding: Encoding::RleDictionary,
            logical_type: None,
            converted_type: None,
            column_type: ColumnTypeTag::Int.into_type(),
        }))
    );
    // A decimal with more places than a double tells apart.
    let decimal = descriptor(PhysicalType::Int32, Some(PrimitiveLogicalType::Decimal(9, 23)));
    let page = make_page(1, &levels(&[true]), &[1, 0, 0, 0], Encoding::Plain, decimal);
    assert!(matches!(
        decode(&page, None, ColumnTypeTag::Double),
        Err(ParquetError::Unsupported(UnsupportedReason::Encoding { .. }))
    ));
}

#[test]
fn symbol_column_without_global_keys() {
    let text = descriptor(PhysicalType::ByteArray, Some(PrimitiveLogicalType::String));
    let dict = DictPage::new(vec![1, 0, 0, 0, b'a'], 1, false);
    let mut indices = vec![1u8];
    encode_u32(&mut indices, [0u32].into_iter(), 1).unwrap();
    let page = make_page(1, &levels(&[true]), &indices, Encoding::RleDictionary, text);
    assert_eq!(
        decode(&page, Some(&dict), ColumnTypeTag::Symbol),
        Err(ParquetError::Unsupported(UnsupportedReason::SymbolFormat))
    );
}

#[test]
fn unsupported_version() {
    let decoder = one_int_column(3, 10);
    let mut chunk = ColumnChunkBuffers::new();
    assert_eq!(
        decoder.decode_column_chunk(&mut chunk, 0, 0, column(ColumnTypeTag::Int), &vec![]),
        Err(ParquetError::Unsupported(UnsupportedReason::Version { version: 3 }))
    );
}

#[test]
fn levels_truncated() {
    let int = descriptor(PhysicalType::Int32, None);
    let short = DataPage::new(
        DataPageHeader::V1 { num_values: 1, encoding: Encoding::Plain },
        vec![9, 0, 0, 0, 1, 2],
        int.clone(),
        None,
    );
    assert_eq!(decode(&short, None, ColumnTypeTag::Int), layout(LayoutReason::LevelsTruncated));
    let headless = DataPage::new(
        DataPageHeader::V1 { num_values: 1, encoding: Encoding::Plain },
        vec![1, 0],
        int.clone(),
        None,
    );
    assert_eq!(decode(&headless, None, ColumnTypeTag::Int), layout(LayoutReason::LevelsTruncated));
    for (definition, repetition) in [(-1, 0), (0, -1), (3, 0), (1, 2)] {
        let page = DataPage::new(
            DataPageHeader::V2 {
                num_values: 1,
                encoding: Encoding::Plain,
                definition_levels_byte_length: definition,
                repetition_levels_byte_length: repetition,
            },
            vec![1, 2],
            int.clone(),
            None,
        );
        assert_eq!(decode(&page, None, ColumnTypeTag::Int), layout(LayoutReason::LevelsTruncated));
    }
}

#[test]
fn definition_levels_malformed() {
    let int = descriptor(PhysicalType::Int32, None);
    // A header that does not end, and one of more than 32 bits.
    for bad in [vec![0x80u8], vec![0x83, 0x80], vec![0xFF, 0xFF, 0xFF, 0xFF, 0x7F, 0xFF]] {
        let page = make_page(1, &bad, &[1, 0, 0, 0], Encoding::Plain, int.clone());
        assert_eq!(decode(&page, None, ColumnTypeTag::Int), layout(LayoutReason::DefinitionLevels));
    }
}

#[test]
fn row_count_mismatch() {
    // Levels for eight rows at most, in a page that declares ten.
    let page = make_page(
        10,
        &levels(&[true; 8]),
        &[0u8; 40],
        Encoding::Plain,
        descriptor(PhysicalType::Int32, None),
    );
    assert_eq!(
        decode(&page, None, ColumnTypeTag::Int),
        layout(LayoutReason::RowCountMismatch { expected: 10 })
    );
    // Rows selected past the end of the page.
    let mut page = int_page(&[true; 4], &[1, 2, 3, 4]);
    page.selected_rows = Some(vec![Interval::new(2, 5)]);
    assert_eq!(
        decode(&page, None, ColumnTypeTag::Int),
        layout(LayoutReason::RowCountMismatch { expected: 5 })
    );
}

#[test]
fn values_exhausted() {
    let page = int_page(&[true, true, true], &[1, 2]);
    assert_eq!(decode(&page, None, ColumnTypeTag::Int), layout(LayoutReason::ValuesExhausted));
    let page = int_page(&[true], &[]);
    assert_eq!(decode(&page, None, ColumnTypeTag::Int), layout(LayoutReason::ValuesExhausted));
    let text = descriptor(PhysicalType::ByteArray, Some(PrimitiveLogicalType::String));
    let page = make_page(1, &levels(&[true]), &[5, 0, 0, 0, b'a', b'b'], Encoding::Plain, text);
    assert_eq!(decode(&page, None, ColumnTypeTag::Varchar), layout(LayoutReason::ValuesExhausted));
}

fn delta_page(rows: usize, values: &[u8]) -> DataPage {
    make_page(rows, &levels(&vec![true; rows]), values, Encoding::DeltaBinaryPacked, descriptor(PhysicalType::Int64, None))
}

#[test]
fn delta_header_malformed() {
    // No header; a block of 100 values; no miniblocks; miniblocks of 4 values.
    for bad in [vec![], vec![100, 1, 1, 0], vec![128, 1, 0, 1, 0], vec![128, 1, 32, 1, 0]] {
        assert_eq!(
            decode(&delta_page(1, &bad), None, ColumnTypeTag::Long),
            layout(LayoutReason::DeltaHeader)
        );
    }
    // More lengths than the page has rows.
    let mut encoded = Vec::new();
    parquet2::encoding::delta_length_byte_array::encode([b"a", b"b", b"c"].iter(), &mut encoded);
    let text = descriptor(PhysicalType::ByteArray, Some(PrimitiveLogicalType::String));
    let page = make_page(2, &levels(&[true, true]), &encoded, Encoding::DeltaLengthByteArray, text);
    assert_eq!(decode(&page, None, ColumnTypeTag::Varchar), layout(LayoutReason::DeltaHeader));
}

#[test]
fn delta_blocks_malformed() {
    let mut encoded = Vec::new();
    delta_bitpacked::encode((0..300i64).map(|i| i * i), &mut encoded);
    let cut = encoded.len() - 50;
    assert_eq!(
        decode(&delta_page(300, &encoded[..cut]), None, ColumnTypeTag::Long),
        layout(LayoutReason::DeltaBlocks)
    );
    // The rows before the damage are still there to be read.
    let mut bufs = ColumnChunkBuffers::new();
    let mut few = delta_page(300, &encoded[..cut]);
    few.selected_rows = Some(vec![Interval::new(0, 100)]);
    assert_eq!(decoder_page(Version::V1, &few, None, &mut bufs, column(ColumnTypeTag::Long)), Ok(300));
    assert_eq!(bufs.data_vec.len(), 800);
    // A miniblock of values wider than 64 bits.
    let wide = vec![128, 1, 1, 2, 0, 0, 65];
    assert_eq!(
        decode(&delta_page(2, &wide), None, ColumnTypeTag::Long),
        layout(LayoutReason::DeltaBlocks)
    );
}

fn dictionary_page(rows: usize, indices: &[u8]) -> DataPage {
    make_page(rows, &levels(&vec![true; rows]), indices, Encoding::RleDictionary, descriptor(PhysicalType::Int32, None))
}

#[test]
fn dictionary_truncated() {
    let dict = DictPage::new(vec![1, 0, 0, 0, 2, 0], 2, false);
    assert_eq!(
        decode(&dictionary_page(1, &[1, 3, 0]), Some(&dict), ColumnTypeTag::Int),
        layout(LayoutReason::DictionaryTruncated)
    );
    let text = descriptor(PhysicalType::ByteArray, Some(PrimitiveLogicalType::String));
    let dict = DictPage::new(vec![1, 0, 0, 0, b'a', 2, 0, 0, 0, b'b'], 2, false);
    let page = make_page(1, &levels(&[true]), &[1, 3, 0], Encoding::RleDictionary, text);
    assert_eq!(
        decode(&page, Some(&dict), ColumnTypeTag::Varchar),
        layout(LayoutReason::DictionaryTruncated)
    );
}

#[test]
fn dictionary_index_out_of_range() {
    let dict = DictPage::new(vec![1, 0, 0, 0, 2, 0, 0, 0], 2, false);
    let mut indices = vec![2u8];
    encode_u32(&mut indices, [0u32, 1, 2].into_iter(), 2).unwrap();
    assert_eq!(
        decode(&dictionary_page(3, &indices), Some(&dict), ColumnTypeTag::Int),
        layout(LayoutReason::DictionaryIndex)
    );
    // The entries before the bad index are still there to be read.
    let mut page = dictionary_page(3, &indices);
    page.selected_rows = Some(vec![Interval::new(0, 2)]);
    assert_eq!(decode(&page, Some(&dict), ColumnTypeTag::Int), Ok(3));
}

#[test]
fn dictionary_runs_malformed() {
    let dict = DictPage::new(vec![1, 0, 0, 0], 1, false);
    for bad in [vec![], vec![33u8, 3, 0]] {
        assert_eq!(
            decode(&dictionary_page(1, &bad), Some(&dict), ColumnTypeTag::Int),
            layout(LayoutReason::DictionaryRuns)
        );
    }
}

#[test]
fn value_narrower_than_its_column() {
    let data = [1u8, 2, 3, 4];
    let slicer = DataPageFixedSlicer::new(&data, 2, 2);
    let mut sink = ColumnSink::new(slicer, FixedWriter { width: 4, null_value: vec![0; 4] });
    let mut bufs = ColumnChunkBuffers::new();
    sink.push(&mut bufs);
    assert_eq!(sink.result(), Err(ParquetError::Layout(LayoutReason::ValueWidth)));
    // The failure stays.
    sink.push_null(&mut bufs);
    sink.push(&mut bufs);
    assert_eq!(sink.result(), Err(ParquetError::Layout(LayoutReason::ValueWidth)));
    assert!(bufs.data_vec.is_empty());
}

#[test]
fn decimal_scale_too_large() {
    let data = [1u8, 0, 0, 0];
    let slicer = DataPageFixedSlicer::new(&data, 4, 1);
    let mut sink = ColumnSink::new(slicer, IntDecimalWriter { scale: 23, null_value: vec![0; 8] });
    let mut bufs = ColumnChunkBuffers::new();
    sink.push(&mut bufs);
    assert_eq!(sink.result(), Err(ParquetError::Layout(LayoutReason::DecimalScale)));
}

#[test]
fn text_that_is_not_utf8() {
    let text = descriptor(PhysicalType::ByteArray, Some(PrimitiveLogicalType::String));
    for bad in [
        vec![0x80u8],
        vec![0xC0, 0x80],
        vec![0xE0, 0x80, 0x80],
        vec![0xED, 0xA0, 0x80],
        vec![0xF4, 0x90, 0x80, 0x80],
        vec![0xF0, 0x9F, 0x98],
        vec![b'a', 0xFF],
    ] {
        let mut values = (bad.len() as u32).to_le_bytes().to_vec();
        values.extend_from_slice(&bad);
        let page = make_page(1, &levels(&[true]), &values, Encoding::Plain, text.clone());
        assert_eq!(decode(&page, None, ColumnTypeTag::String), layout(LayoutReason::Utf8));
    }
}

#[test]
fn sizes_that_do_not_fit() {
    let decoder = one_int_column(1, -1);
    let mut chunk = ColumnChunkBuffers::new();
    assert_eq!(
        decoder.decode_column_chunk(&mut chunk, 0, 0, column(ColumnTypeTag::Int), &vec![]),
        layout(LayoutReason::SizeOverflow)
    );
    assert_eq!(decoder.column_chunk_size(0, 0), layout(LayoutReason::SizeOverflow));
    let metadata = FileMetaData {
        version: 1,
        num_rows: 0,
        row_groups: vec![RowGroupMetaData { num_rows: i32::MAX as usize + 1, columns: vec![] }],
        schema_descr: vec![],
        key_value_metadata: None,
    };
    assert_eq!(
        ParquetDecoder::read(metadata, None),
        Err(ParquetError::Layout(LayoutReason::SizeOverflow))
    );
}

#[test]
fn timestamp_out_of_range() {
    let int96 = descriptor(PhysicalType::Int96, None);
    let mut value = vec![0u8; 8];
    value.extend_from_slice(&u32::MAX.to_le_bytes());
    let page = make_page(1, &levels(&[true]), &value, Encoding::Plain, int96);
    assert_eq!(decode(&page, None, ColumnTypeTag::Timestamp), layout(LayoutReason::TimestampRange));
}
