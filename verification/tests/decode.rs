//! Column chunks decoded from pages that are written the way the database
//! writes them, against the native column data that the pages were made of.

use parquet2::encoding::hybrid_rle::{bitpacked_encode, encode_bool, encode_u32};
use parquet2::encoding::{delta_bitpacked, delta_length_byte_array};
use qdbr::buffers::ColumnChunkBuffers;
use qdbr::col_type::{ColumnType, ColumnTypeTag};
use qdbr::meta::{ColumnChunkMetaData, FileMetaData, ParquetDecoder, RowGroupMetaData};
use qdbr::page::{DataPage, DataPageHeader, DictPage, Page, Version};
use qdbr::qdb_metadata::{QdbMetaCol, QdbMetaColFormat};
use qdbr::schema::{
    Descriptor, Encoding, IntegerType, PhysicalType, PrimitiveConvertedType, PrimitiveLogicalType,
};

const INT_NULL: [u8; 4] = i32::MIN.to_le_bytes();
const LONG_NULL: [u8; 8] = i64::MIN.to_le_bytes();

fn uuid_null() -> [u8; 16] {
    let mut null = [0u8; 16];
    null[..8].copy_from_slice(&i64::MIN.to_le_bytes());
    null[8..].copy_from_slice(&i64::MIN.to_le_bytes());
    null
}

/// The native data of a column, and what a decode of it is expected to give
/// where that differs.
struct ColumnBuffers {
    data_vec: Vec<u8>,
    aux_vec: Option<Vec<u8>>,
    expected_data_buff: Option<Vec<u8>>,
    expected_aux_buff: Option<Vec<u8>>,
}

/// A column as the writer sees it: its values row by row, `None` for a null,
/// each value as the bytes that the file stores.
struct Column {
    name: &'static str,
    descriptor: Descriptor,
    encoding: Encoding,
    rows: Vec<Option<Vec<u8>>>,
    /// For a dictionary-encoded column: the entries, and the key of each row.
    dictionary: Option<(Vec<Vec<u8>>, Vec<Option<u32>>)>,
}

fn descriptor(
    name: &str,
    id: i32,
    physical_type: PhysicalType,
    logical_type: Option<PrimitiveLogicalType>,
    converted_type: Option<PrimitiveConvertedType>,
    optional: bool,
) -> Descriptor {
    Descriptor {
        name: String::from(name),
        id: Some(id),
        physical_type,
        logical_type,
        converted_type,
        max_def_level: if optional { 1 } else { 0 },
        max_rep_level: 0,
    }
}

fn create_col_data_buff(
    row_count: usize,
    value_size: usize,
    null_value: &[u8],
    to_le_bytes: &dyn Fn(i16) -> Vec<u8>,
) -> ColumnBuffers {
    let mut buff = vec![0u8; row_count * value_size];
    for i in 0..((row_count + 1) / 2) {
        let offset = 2 * i * value_size;
        buff[offset..offset + value_size].copy_from_slice(&to_le_bytes(i as i16));
        if offset + 2 * value_size <= buff.len() {
            buff[offset + value_size..offset + 2 * value_size].copy_from_slice(null_value);
        }
    }
    ColumnBuffers { data_vec: buff, aux_vec: None, expected_data_buff: None, expected_aux_buff: None }
}

fn create_col_data_buff_bool(row_count: usize) -> ColumnBuffers {
    let mut buff = vec![0u8; row_count];
    for i in 0..row_count {
        buff[i] = if i % 3 == 0 { 1 } else { 0 };
    }
    ColumnBuffers { data_vec: buff, aux_vec: None, expected_data_buff: None, expected_aux_buff: None }
}

/// A source of numbers that is the same on every run.
struct Numbers(u64);

impl Numbers {
    fn next(&mut self, below: u32) -> u32 {
        self.0 = self.0.wrapping_mul(6364136223846793005).wrapping_add(1442695040888963407);
        ((self.0 >> 33) as u32) % below
    }
}

fn generate_unicode_string(numbers: &mut Numbers, len: usize) -> String {
    let len = 1 + numbers.next((len - 1) as u32) as usize;
    let wide = numbers.next(2) == 0;
    (0..len)
        .map(|_| {
            let c = if wide { 0x00A0 + numbers.next(0xD7FF - 0x00A0) } else { 33 + numbers.next(126 - 33) };
            char::from_u32(c).unwrap_or('\u{FFFD}')
        })
        .collect()
}

fn append_offset(aux_mem: &mut Vec<u8>, offset: usize) {
    aux_mem.extend_from_slice(&(offset as u16).to_le_bytes());
    aux_mem.extend_from_slice(&((offset >> 16) as u32).to_le_bytes());
}

fn append_varchar(aux_mem: &mut Vec<u8>, data_mem: &mut Vec<u8>, value: &[u8]) {
    let ascii_flag: u8 = if value.is_ascii() { 2 } else { 0 };
    let offset = data_mem.len();
    if value.len() <= 9 {
        aux_mem.push(((value.len() as u8) << 4) | 1 | ascii_flag);
        aux_mem.extend_from_slice(value);
        aux_mem.resize(aux_mem.len() + 9 - value.len(), 0);
    } else {
        let header: u32 = ((value.len() as u32) << 4) | ascii_flag as u32;
        aux_mem.extend_from_slice(&header.to_le_bytes());
        aux_mem.extend_from_slice(&value[..6]);
        data_mem.extend_from_slice(value);
    }
    append_offset(aux_mem, offset);
}

fn append_varchar_null(aux_mem: &mut Vec<u8>, data_mem: &[u8]) {
    aux_mem.extend_from_slice(&[4, 0, 0, 0, 0, 0, 0, 0, 0, 0]);
    append_offset(aux_mem, data_mem.len());
}

/// A string column in its native form, with every other row null, and the
/// rows as the file stores them.
fn create_col_data_buff_string(
    numbers: &mut Numbers,
    row_count: usize,
    distinct_values: usize,
) -> (ColumnBuffers, Vec<Option<Vec<u8>>>) {
    let mut aux_buff = vec![0u8; 8];
    let mut data_buff = Vec::new();
    let mut rows = Vec::new();
    let str_values: Vec<String> =
        (0..distinct_values).map(|_| generate_unicode_string(numbers, 10)).collect();
    let mut i = 0;
    while i < row_count {
        let str_value = &str_values[i % distinct_values];
        let units: Vec<u16> = str_value.encode_utf16().collect();
        data_buff.extend_from_slice(&(units.len() as i32).to_le_bytes());
        for unit in &units {
            data_buff.extend_from_slice(&unit.to_le_bytes());
        }
        aux_buff.extend_from_slice(&(data_buff.len() as u64).to_le_bytes());
        rows.push(Some(str_value.as_bytes().to_vec()));
        i += 1;
        if i < row_count {
            data_buff.extend_from_slice(&(-1i32).to_le_bytes());
            aux_buff.extend_from_slice(&(data_buff.len() as u64).to_le_bytes());
            rows.push(None);
            i += 1;
        }
    }
    (
        ColumnBuffers {
            data_vec: data_buff,
            aux_vec: Some(aux_buff),
            expected_data_buff: None,
            expected_aux_buff: None,
        },
        rows,
    )
}

fn create_col_data_buff_varchar(
    numbers: &mut Numbers,
    row_count: usize,
    distinct_values: usize,
) -> (ColumnBuffers, Vec<Option<Vec<u8>>>) {
    let mut aux_buff = Vec::new();
    let mut data_buff = Vec::new();
    let mut rows = Vec::new();
    let str_values: Vec<String> =
        (0..distinct_values).map(|_| generate_unicode_string(numbers, 10)).collect();
    let mut i = 0;
    while i < row_count {
        let str_value = &str_values[i % distinct_values];
        append_varchar(&mut aux_buff, &mut data_buff, str_value.as_bytes());
        rows.push(Some(str_value.as_bytes().to_vec()));
        i += 1;
        if i < row_count {
            append_varchar_null(&mut aux_buff, &data_buff);
            rows.push(None);
            i += 1;
        }
    }
    (
        ColumnBuffers {
            data_vec: data_buff,
            aux_vec: Some(aux_buff),
            expected_data_buff: None,
            expected_aux_buff: None,
        },
        rows,
    )
}

/// A symbol column: its keys in native form, what reading it as text is
/// expected to give, the symbols, and the key of each row.
fn create_col_data_buff_symbol(
    numbers: &mut Numbers,
    row_count: usize,
    distinct_values: usize,
) -> (ColumnBuffers, Vec<Vec<u8>>, Vec<Option<u32>>) {
    let mut symbol_data_buff = Vec::new();
    let mut expected_aux_buff = Vec::new();
    let mut expected_data_buff = Vec::new();
    let mut keys = Vec::new();
    let str_values: Vec<String> =
        (0..distinct_values).map(|_| generate_unicode_string(numbers, 10)).collect();
    let mut i = 0;
    while i < row_count {
        let symbol_value = i % distinct_values;
        symbol_data_buff.extend_from_slice(&(symbol_value as i32).to_le_bytes());
        append_varchar(
            &mut expected_aux_buff,
            &mut expected_data_buff,
            str_values[symbol_value].as_bytes(),
        );
        keys.push(Some(symbol_value as u32));
        i += 1;
        if i < row_count {
            symbol_data_buff.extend_from_slice(&i32::MIN.to_le_bytes());
            append_varchar_null(&mut expected_aux_buff, &expected_data_buff);
            keys.push(None);
            i += 1;
        }
    }
    (
        ColumnBuffers {
            data_vec: symbol_data_buff,
            aux_vec: None,
            expected_data_buff: Some(expected_data_buff),
            expected_aux_buff: Some(expected_aux_buff),
        },
        str_values.iter().map(|s| s.as_bytes().to_vec()).collect(),
        keys,
    )
}

/// The rows of a column of fixed width, read from its native data: a row
/// that holds the null value is a null, where the column has one.
fn fixed_rows(
    data: &[u8],
    value_size: usize,
    null_value: Option<&[u8]>,
    store: &dyn Fn(&[u8]) -> Vec<u8>,
) -> Vec<Option<Vec<u8>>> {
    data.chunks(value_size)
        .map(|value| if Some(value) == null_value { None } else { Some(store(value)) })
        .collect()
}

fn create_fix_column(
    id: i32,
    name: &'static str,
    primary_data: &[u8],
    col_type: ColumnType,
) -> Column {
    let widen = |size: usize| {
        move |value: &[u8]| {
            let mut stored = vec![0u8; size];
            stored[..value.len()].copy_from_slice(value);
            stored
        }
    };
    match col_type.tag() {
        ColumnTypeTag::Int => Column {
            name,
            descriptor: descriptor(
                name,
                id,
                PhysicalType::Int32,
                Some(PrimitiveLogicalType::Integer(IntegerType::Int32)),
                None,
                true,
            ),
            encoding: Encoding::Plain,
            rows: fixed_rows(primary_data, 4, Some(&INT_NULL), &widen(4)),
            dictionary: None,
        },
        ColumnTypeTag::Long => Column {
            name,
            descriptor: descriptor(
                name,
                id,
                PhysicalType::Int64,
                Some(PrimitiveLogicalType::Integer(IntegerType::Int64)),
                None,
                true,
            ),
            encoding: Encoding::Plain,
            rows: fixed_rows(primary_data, 8, Some(&LONG_NULL), &widen(8)),
            dictionary: None,
        },
        ColumnTypeTag::Short | ColumnTypeTag::Char => Column {
            name,
            descriptor: descriptor(
                name,
                id,
                PhysicalType::Int32,
                Some(PrimitiveLogicalType::Integer(IntegerType::Int16)),
                None,
                false,
            ),
            encoding: Encoding::Plain,
            rows: fixed_rows(primary_data, 2, None, &|value: &[u8]| {
                (i16::from_le_bytes([value[0], value[1]]) as i32).to_le_bytes().to_vec()
            }),
            dictionary: None,
        },
        ColumnTypeTag::Boolean => Column {
            name,
            descriptor: descriptor(name, id, PhysicalType::Boolean, None, None, false),
            encoding: Encoding::Plain,
            rows: fixed_rows(primary_data, 1, None, &widen(1)),
            dictionary: None,
        },
        ColumnTypeTag::Uuid => Column {
            name,
            descriptor: descriptor(
                name,
                id,
                PhysicalType::FixedLenByteArray(16),
                Some(PrimitiveLogicalType::Uuid),
                None,
                true,
            ),
            encoding: Encoding::Plain,
            rows: fixed_rows(primary_data, 16, Some(&uuid_null()), &|value: &[u8]| {
                value.iter().rev().copied().collect()
            }),
            dictionary: None,
        },
        _ => panic!("no fixed column of this type"),
    }
}

fn create_var_column(
    id: i32,
    name: &'static str,
    rows: Vec<Option<Vec<u8>>>,
    encoding: Encoding,
) -> Column {
    Column {
        name,
        descriptor: descriptor(
            name,
            id,
            PhysicalType::ByteArray,
            Some(PrimitiveLogicalType::String),
            Some(PrimitiveConvertedType::Utf8),
            true,
        ),
        encoding,
        rows,
        dictionary: None,
    }
}

fn create_symbol_column(
    id: i32,
    name: &'static str,
    symbols: Vec<Vec<u8>>,
    keys: Vec<Option<u32>>,
) -> Column {
    Column {
        name,
        descriptor: descriptor(
            name,
            id,
            PhysicalType::ByteArray,
            Some(PrimitiveLogicalType::String),
            Some(PrimitiveConvertedType::Utf8),
            true,
        ),
        encoding: Encoding::RleDictionary,
        rows: keys.iter().map(|key| key.map(|_| Vec::new())).collect(),
        dictionary: Some((symbols, keys)),
    }
}

fn bits_for(count: usize) -> u32 {
    let mut bits = 0;
    while (1usize << bits) < count {
        bits += 1;
    }
    bits
}

/// The bytes of the values of a page in the encoding of the column.
fn encode_values(column: &Column, from: usize, to: usize) -> Vec<u8> {
    let present: Vec<&Vec<u8>> = column.rows[from..to].iter().flatten().collect();
    let mut out = Vec::new();
    match (column.encoding, column.descriptor.physical_type) {
        (Encoding::Plain, PhysicalType::Boolean) => {
            bitpacked_encode(&mut out, present.iter().map(|value| value[0] != 0)).unwrap();
        }
        (Encoding::Plain, PhysicalType::ByteArray) => {
            for value in present {
                out.extend_from_slice(&(value.len() as u32).to_le_bytes());
                out.extend_from_slice(value);
            }
        }
        (Encoding::Plain, _) => {
            for value in present {
                out.extend_from_slice(value);
            }
        }
        (Encoding::DeltaLengthByteArray, _) => {
            delta_length_byte_array::encode(present.iter(), &mut out);
        }
        (Encoding::DeltaBinaryPacked, _) => {
            let numbers: Vec<i64> = present
                .iter()
                .map(|value| {
                    let mut wide = [0u8; 8];
                    wide[..value.len()].copy_from_slice(value);
                    if value.len() == 4 {
                        i32::from_le_bytes([value[0], value[1], value[2], value[3]]) as i64
                    } else {
                        i64::from_le_bytes(wide)
                    }
                })
                .collect();
            delta_bitpacked::encode(numbers.into_iter(), &mut out);
        }
        (Encoding::RleDictionary, _) => {
            let (symbols, keys) = column.dictionary.as_ref().unwrap();
            let bits = bits_for(symbols.len());
            let keys: Vec<u32> = keys[from..to].iter().flatten().copied().collect();
            out.push(bits as u8);
            encode_u32(&mut out, keys.into_iter(), bits).unwrap();
        }
        _ => panic!("no encoder for this column"),
    }
    out
}

/// The data page of the rows `from..to` of a column.
fn data_page(column: &Column, from: usize, to: usize, version: Version) -> DataPage {
    let values = encode_values(column, from, to);
    let mut levels = Vec::new();
    if column.descriptor.max_def_level > 0 {
        encode_bool(&mut levels, column.rows[from..to].iter().map(|row| row.is_some())).unwrap();
    }
    let mut buffer = Vec::new();
    let header = match version {
        Version::V1 => {
            if column.descriptor.max_def_level > 0 {
                buffer.extend_from_slice(&(levels.len() as u32).to_le_bytes());
            }
            DataPageHeader::V1 { num_values: to - from, encoding: column.encoding }
        }
        Version::V2 => DataPageHeader::V2 {
            num_values: to - from,
            encoding: column.encoding,
            definition_levels_byte_length: levels.len() as i32,
            repetition_levels_byte_length: 0,
        },
    };
    buffer.extend_from_slice(&levels);
    buffer.extend_from_slice(&values);
    DataPage::new(header, buffer, column.descriptor.clone(), None)
}

/// The pages of the chunk of a column in a row group: the dictionary page
/// where the column has one, then data pages of `page_rows` rows at most.
fn chunk_pages(column: &Column, from: usize, to: usize, page_rows: usize, version: Version) -> Vec<Page> {
    let mut pages = Vec::new();
    if let Some((symbols, _)) = &column.dictionary {
        let mut buffer = Vec::new();
        for symbol in symbols {
            buffer.extend_from_slice(&(symbol.len() as u32).to_le_bytes());
            buffer.extend_from_slice(symbol);
        }
        pages.push(Page::Dict(DictPage::new(buffer, symbols.len(), false)));
    }
    let mut start = from;
    while start < to {
        let end = (start + page_rows).min(to);
        pages.push(Page::Data(data_page(column, start, end, version)));
        start = end;
    }
    pages
}

/// A file of the columns: its decoder, and the pages of each column chunk,
/// by row group and column.
fn write_cols_to_parquet_file(
    row_count: usize,
    row_group_size: usize,
    page_rows: usize,
    version: Version,
    columns: &[Column],
) -> (ParquetDecoder, Vec<Vec<Vec<Page>>>) {
    let mut row_groups = Vec::new();
    let mut pages = Vec::new();
    let mut from = 0;
    while from < row_count {
        let to = (from + row_group_size).min(row_count);
        let chunks: Vec<Vec<Page>> =
            columns.iter().map(|column| chunk_pages(column, from, to, page_rows, version)).collect();
        row_groups.push(RowGroupMetaData {
            num_rows: to - from,
            columns: chunks
                .iter()
                .map(|chunk| ColumnChunkMetaData {
                    compressed_size: chunk
                        .iter()
                        .map(|page| match page {
                            Page::Data(page) => page.buffer.len() as i64,
                            Page::Dict(page) => page.buffer.len() as i64,
                        })
                        .sum(),
                    min_value: None,
                })
                .collect(),
        });
        pages.push(chunks);
        from = to;
    }
    let metadata = FileMetaData {
        version: match version {
            Version::V1 => 1,
            Version::V2 => 2,
        },
        num_rows: row_count,
        row_groups,
        schema_descr: columns.iter().map(|column| column.descriptor.clone()).collect(),
        key_value_metadata: None,
    };
    (ParquetDecoder::read(metadata, None).unwrap(), pages)
}

fn assert_columns(
    row_count: usize,
    row_group_size: usize,
    page_rows: usize,
    version: Version,
    columns: Vec<Column>,
    expected_buffs: &[(ColumnBuffers, ColumnType)],
) {
    let column_count = columns.len();
    let (decoder, pages) =
        write_cols_to_parquet_file(row_count, row_group_size, page_rows, version, &columns);
    assert_eq!(decoder.columns.len(), column_count);
    assert_eq!(decoder.row_count, row_count);
    for (column, meta) in columns.iter().zip(decoder.columns.iter()) {
        assert_eq!(meta.name, column.name);
    }
    let row_group_count = decoder.row_group_count as usize;
    let bufs = &mut ColumnChunkBuffers::new();

    for (column_index, (column_buffs, column_type)) in expected_buffs.iter().enumerate() {
        let column_type = *column_type;
        let format = if column_type.tag() == ColumnTypeTag::Symbol {
            Some(QdbMetaColFormat::LocalKeyIsGlobal)
        } else {
            None
        };
        let mut data_offset = 0usize;
        let mut col_row_count = 0usize;
        let expected = column_buffs.expected_data_buff.as_ref().unwrap_or(&column_buffs.data_vec);
        let expected_aux = column_buffs.expected_aux_buff.as_ref().or(column_buffs.aux_vec.as_ref());

        for row_group_index in 0..row_group_count {
            let row_count = decoder
                .decode_column_chunk(
                    bufs,
                    row_group_index,
                    column_index,
                    QdbMetaCol { column_type, format },
                    &pages[row_group_index][column_index],
                )
                .unwrap();

            assert_eq!(bufs.data_vec.len(), bufs.data_size);
            assert!(data_offset + bufs.data_size <= expected.len());
            assert_eq!(expected[data_offset..data_offset + bufs.data_size], bufs.data_vec);

            if let Some(expected_aux_data) = expected_aux {
                if col_row_count == 0 {
                    assert_eq!(&expected_aux_data[0..bufs.aux_size], bufs.aux_vec);
                } else if column_type.tag() == ColumnTypeTag::String {
                    let mut expected_aux_data_slice = vec![];
                    expected_aux_data_slice.extend_from_slice(&0u64.to_le_bytes());
                    for i in 0..row_count {
                        let at = 8 * (col_row_count + 1 + i);
                        let mut offset = [0u8; 8];
                        offset.copy_from_slice(&expected_aux_data[at..at + 8]);
                        let row_data_offset = i64::from_le_bytes(offset);
                        expected_aux_data_slice
                            .extend_from_slice(&(row_data_offset - data_offset as i64).to_le_bytes());
                    }
                    assert_eq!(expected_aux_data_slice, bufs.aux_vec);
                }
            } else {
                assert_eq!(bufs.aux_size, 0);
            }
            col_row_count += row_count;
            data_offset += bufs.data_vec.len();
        }

        assert_eq!(expected.len(), data_offset);
        assert_eq!(row_count, col_row_count);
    }
}

#[test]
fn test_decode_int_column_v2_nulls() {
    let row_count = 10;
    let row_group_size = 50;
    let data_page_size = 50;
    let version = Version::V2;
    let expected_buff =
        create_col_data_buff(row_count, 4, &INT_NULL, &|int| (int as i32).to_le_bytes().to_vec());
    let column_count = 1;
    let columns = vec![create_fix_column(
        0,
        "int_col",
        &expected_buff.data_vec,
        ColumnTypeTag::Int.into_type(),
    )];
    let (decoder, pages) =
        write_cols_to_parquet_file(row_count, row_group_size, data_page_size, version, &columns);

    assert_eq!(decoder.columns.len(), column_count);
    assert_eq!(decoder.row_count, row_count);
    let row_group_count = decoder.row_group_count as usize;
    let bufs = &mut ColumnChunkBuffers::new();

    for column_index in 0..column_count {
        let column_type = decoder.columns[column_index].column_type;
        let col_info = QdbMetaCol { column_type, format: None };
        for row_group_index in 0..row_group_count {
            decoder
                .decode_column_chunk(
                    bufs,
                    row_group_index,
                    column_index,
                    col_info,
                    &pages[row_group_index][column_index],
                )
                .unwrap();

            assert_eq!(bufs.data_size, expected_buff.data_vec.len());
            assert_eq!(bufs.aux_size, 0);
            assert_eq!(bufs.data_vec, expected_buff.data_vec);
        }
    }
}

#[test]
fn test_decode_int_long_column_v2_nulls_multi_groups() {
    let row_count = 10000;
    let row_group_size = 1000;
    let data_page_size = 1000;
    let version = Version::V1;
    let mut numbers = Numbers(10);
    let mut columns = Vec::new();

    let mut expected_buffs: Vec<(ColumnBuffers, ColumnType)> = Vec::new();
    let expected_int_buff =
        create_col_data_buff(row_count, 4, &INT_NULL, &|int| (int as i32).to_le_bytes().to_vec());
    columns.push(create_fix_column(
        columns.len() as i32,
        "int_col",
        &expected_int_buff.data_vec,
        ColumnTypeTag::Int.into_type(),
    ));
    expected_buffs.push((expected_int_buff, ColumnTypeTag::Int.into_type()));

    let expected_long_buff =
        create_col_data_buff(row_count, 8, &LONG_NULL, &|int| (int as i64).to_le_bytes().to_vec());
    columns.push(create_fix_column(
        columns.len() as i32,
        "long_col",
        &expected_long_buff.data_vec,
        ColumnTypeTag::Long.into_type(),
    ));
    expected_buffs.push((expected_long_buff, ColumnTypeTag::Long.into_type()));

    let (string_buffers, rows) = create_col_data_buff_string(&mut numbers, row_count, 3);
    columns.push(create_var_column(
        columns.len() as i32,
        "string_col",
        rows,
        Encoding::DeltaLengthByteArray,
    ));
    expected_buffs.push((string_buffers, ColumnTypeTag::String.into_type()));

    let (string_buffers, rows) = create_col_data_buff_varchar(&mut numbers, row_count, 3);
    columns.push(create_var_column(columns.len() as i32, "varchar_col", rows, Encoding::Plain));
    expected_buffs.push((string_buffers, ColumnTypeTag::Varchar.into_type()));

    let (symbol_buffs, symbols, keys) = create_col_data_buff_symbol(&mut numbers, row_count, 10);
    columns.push(create_symbol_column(columns.len() as i32, "string_col", symbols, keys));
    expected_buffs.push((symbol_buffs, ColumnTypeTag::Varchar.into_type()));

    assert_columns(row_count, row_group_size, data_page_size, version, columns, &expected_buffs);
}

#[test]
fn test_decode_column_type2() {
    let row_count = 10000;
    let row_group_size = 1000;
    let data_page_size = 1000;
    let version = Version::V2;
    let mut columns = Vec::new();
    let mut expected_buffs: Vec<(ColumnBuffers, ColumnType)> = Vec::new();

    let expected_bool_buff = create_col_data_buff_bool(row_count);
    columns.push(create_fix_column(
        columns.len() as i32,
        "bool_col",
        &expected_bool_buff.data_vec,
        ColumnTypeTag::Boolean.into_type(),
    ));
    expected_buffs.push((expected_bool_buff, ColumnTypeTag::Boolean.into_type()));

    let expected_col_buff = create_col_data_buff(row_count, 2, &i16::MIN.to_le_bytes(), &|short| {
        short.to_le_bytes().to_vec()
    });
    columns.push(create_fix_column(
        columns.len() as i32,
        "bool_short",
        &expected_col_buff.data_vec,
        ColumnTypeTag::Short.into_type(),
    ));
    expected_buffs.push((expected_col_buff, ColumnTypeTag::Short.into_type()));

    let expected_bool_buff = create_col_data_buff(row_count, 2, &i16::MIN.to_le_bytes(), &|short| {
        short.to_le_bytes().to_vec()
    });
    columns.push(create_fix_column(
        columns.len() as i32,
        "bool_char",
        &expected_bool_buff.data_vec,
        ColumnTypeTag::Char.into_type(),
    ));
    expected_buffs.push((expected_bool_buff, ColumnTypeTag::Char.into_type()));

    let expected_uuid_buff = create_col_data_buff(row_count, 16, &uuid_null(), &|uuid| {
        (uuid as i128).to_le_bytes().to_vec()
    });
    columns.push(create_fix_column(
        columns.len() as i32,
        "bool_char",
        &expected_uuid_buff.data_vec,
        ColumnTypeTag::Uuid.into_type(),
    ));
    expected_buffs.push((expected_uuid_buff, ColumnTypeTag::Uuid.into_type()));

    assert_columns(row_count, row_group_size, data_page_size, version, columns, &expected_buffs);
}
