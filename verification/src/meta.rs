//! The decoder's view of a file: what its metadata says of its row groups
//! and columns, and the column type that each column is read as.

use crate::col_type::{ColumnType, ColumnTypeTag};
use crate::error::{LayoutReason, ParquetError, ParquetResult};
use crate::qdb_metadata::{qdb_meta_key, QdbMeta, QdbMetaColumn};
use crate::schema::{
    Descriptor, IntegerType, PhysicalType, PrimitiveConvertedType, PrimitiveLogicalType, TimeUnit,
};
use vstd::prelude::*;
use vstd::string::StringExecFns;

verus! {

/// An entry of the key-value section of a file's metadata.
#[derive(Debug, Clone, PartialEq, Eq)]
pub struct KeyValue {
    pub key: String,
    pub value: Option<String>,
}

/// What the metadata says of one column chunk.
#[derive(Debug, Clone, PartialEq, Eq)]
pub struct ColumnChunkMetaData {
    /// The size of the chunk in the file, as the writer recorded it.
    pub compressed_size: i64,
    /// The smallest value of the chunk, where the writer recorded one.
    pub min_value: Option<Vec<u8>>,
}

/// What the metadata says of one row group.
#[derive(Debug, Clone, PartialEq, Eq)]
pub struct RowGroupMetaData {
    pub num_rows: usize,
    pub columns: Vec<ColumnChunkMetaData>,
}

/// The metadata of a file.
#[derive(Debug, Clone, PartialEq, Eq)]
pub struct FileMetaData {
    pub version: i32,
    pub num_rows: usize,
    pub row_groups: Vec<RowGroupMetaData>,
    /// The leaf columns of the schema, in order.
    pub schema_descr: Vec<Descriptor>,
    pub key_value_metadata: Option<Vec<KeyValue>>,
}

/// A column that the decoder can read.
#[derive(Debug, Clone, PartialEq, Eq)]
pub struct ColumnMeta {
    pub column_type: ColumnType,
    /// The place of the column in the schema.
    pub id: i32,
    pub name: String,
}

/// The decoder of one file.
#[derive(Debug, PartialEq, Eq)]
pub struct ParquetDecoder {
    pub col_count: u32,
    pub row_count: usize,
    pub row_group_count: u32,
    pub row_group_sizes: Vec<i32>,
    pub columns: Vec<ColumnMeta>,
    pub qdb_meta: Option<QdbMeta>,
    pub metadata: FileMetaData,
}

/// The kind of column that a column of the file is read as, by its storage
/// type and its annotations alone; `None` for a column that cannot be read.
pub open spec fn described_tag(
    physical_type: PhysicalType,
    logical_type: Option<PrimitiveLogicalType>,
    converted_type: Option<PrimitiveConvertedType>,
) -> Option<ColumnTypeTag> {
    match (physical_type, logical_type, converted_type) {
        (
            PhysicalType::Int64,
            Some(PrimitiveLogicalType::Timestamp { unit: TimeUnit::Microseconds, .. }),
            _,
        ) => Some(ColumnTypeTag::Timestamp),
        (
            PhysicalType::Int64,
            Some(PrimitiveLogicalType::Timestamp { unit: TimeUnit::Nanoseconds, .. }),
            _,
        ) => Some(ColumnTypeTag::Timestamp),
        (
            PhysicalType::Int64,
            Some(PrimitiveLogicalType::Timestamp { unit: TimeUnit::Milliseconds, .. }),
            _,
        ) => Some(ColumnTypeTag::Date),
        (PhysicalType::Int64, None, _) => Some(ColumnTypeTag::Long),
        (PhysicalType::Int64, Some(PrimitiveLogicalType::Integer(IntegerType::Int64)), _) => Some(
            ColumnTypeTag::Long,
        ),
        (PhysicalType::Int32, Some(PrimitiveLogicalType::Integer(IntegerType::Int32)), _) => Some(
            ColumnTypeTag::Int,
        ),
        (PhysicalType::Int32, Some(PrimitiveLogicalType::Decimal(_, _)), _) => Some(
            ColumnTypeTag::Double,
        ),
        (PhysicalType::Int32, _, Some(PrimitiveConvertedType::Decimal(_, _))) => Some(
            ColumnTypeTag::Double,
        ),
        (PhysicalType::Int32, Some(PrimitiveLogicalType::Integer(IntegerType::Int16)), _) => Some(
            ColumnTypeTag::Short,
        ),
        (PhysicalType::Int32, Some(PrimitiveLogicalType::Integer(IntegerType::UInt16)), _) => Some(
            ColumnTypeTag::Int,
        ),
        (PhysicalType::Int32, _, Some(PrimitiveConvertedType::Int16)) => Some(
            ColumnTypeTag::Short,
        ),
        (PhysicalType::Int32, Some(PrimitiveLogicalType::Integer(IntegerType::Int8)), _) => Some(
            ColumnTypeTag::Byte,
        ),
        (PhysicalType::Int32, _, Some(PrimitiveConvertedType::Int8)) => Some(ColumnTypeTag::Byte),
        (PhysicalType::Int32, Some(PrimitiveLogicalType::Date), _) => Some(ColumnTypeTag::Date),
        (PhysicalType::Int32, _, Some(PrimitiveConvertedType::Date)) => Some(ColumnTypeTag::Date),
        (PhysicalType::Int32, None, _) => Some(ColumnTypeTag::Int),
        (PhysicalType::Int32, _, Some(PrimitiveConvertedType::Int32)) => Some(ColumnTypeTag::Int),
        (PhysicalType::Boolean, None, _) => Some(ColumnTypeTag::Boolean),
        (PhysicalType::Double, None, _) => Some(ColumnTypeTag::Double),
        (PhysicalType::Float, None, _) => Some(ColumnTypeTag::Float),
        (PhysicalType::FixedLenByteArray(16), Some(PrimitiveLogicalType::Uuid), _) => Some(
            ColumnTypeTag::Uuid,
        ),
        (PhysicalType::FixedLenByteArray(16), None, None) => Some(ColumnTypeTag::Long128),
        (PhysicalType::ByteArray, Some(PrimitiveLogicalType::String), _) => Some(
            ColumnTypeTag::Varchar,
        ),
        (PhysicalType::FixedLenByteArray(32), None, _) => Some(ColumnTypeTag::Long256),
        (PhysicalType::ByteArray, None, Some(PrimitiveConvertedType::Utf8)) => Some(
            ColumnTypeTag::Varchar,
        ),
        (PhysicalType::ByteArray, None, _) => Some(ColumnTypeTag::Binary),
        (PhysicalType::Int96, None, None) => Some(ColumnTypeTag::Timestamp),
        _ => None,
    }
}

/// The kind of column that a column of the file is read as, by its storage
/// type and its annotations alone.
pub fn describe_tag(
    physical_type: PhysicalType,
    logical_type: Option<PrimitiveLogicalType>,
    converted_type: Option<PrimitiveConvertedType>,
) -> (tag: Option<ColumnTypeTag>)
    ensures
        tag == described_tag(physical_type, logical_type, converted_type),
{
    match (physical_type, logical_type, converted_type) {
        (
            PhysicalType::Int64,
            Some(PrimitiveLogicalType::Timestamp { unit: TimeUnit::Microseconds, .. }),
            _,
        ) => Some(ColumnTypeTag::Timestamp),
        (
            PhysicalType::Int64,
            Some(PrimitiveLogicalType::Timestamp { unit: TimeUnit::Nanoseconds, .. }),
            _,
        ) => Some(ColumnTypeTag::Timestamp),
        (
            PhysicalType::Int64,
            Some(PrimitiveLogicalType::Timestamp { unit: TimeUnit::Milliseconds, .. }),
            _,
        ) => Some(ColumnTypeTag::Date),
        (PhysicalType::Int64, None, _) => Some(ColumnTypeTag::Long),
        (PhysicalType::Int64, Some(PrimitiveLogicalType::Integer(IntegerType::Int64)), _) => Some(
            ColumnTypeTag::Long,
        ),
        (PhysicalType::Int32, Some(PrimitiveLogicalType::Integer(IntegerType::Int32)), _) => Some(
            ColumnTypeTag::Int,
        ),
        (PhysicalType::Int32, Some(PrimitiveLogicalType::Decimal(_, _)), _) => Some(
            ColumnTypeTag::Double,
        ),
        (PhysicalType::Int32, _, Some(PrimitiveConvertedType::Decimal(_, _))) => Some(
            ColumnTypeTag::Double,
        ),
        (PhysicalType::Int32, Some(PrimitiveLogicalType::Integer(IntegerType::Int16)), _) => Some(
            ColumnTypeTag::Short,
        ),
        (PhysicalType::Int32, Some(PrimitiveLogicalType::Integer(IntegerType::UInt16)), _) => Some(
            ColumnTypeTag::Int,
        ),
        (PhysicalType::Int32, _, Some(PrimitiveConvertedType::Int16)) => Some(
            ColumnTypeTag::Short,
        ),
        (PhysicalType::Int32, Some(PrimitiveLogicalType::Integer(IntegerType::Int8)), _) => Some(
            ColumnTypeTag::Byte,
        ),
        (PhysicalType::Int32, _, Some(PrimitiveConvertedType::Int8)) => Some(ColumnTypeTag::Byte),
        (PhysicalType::Int32, Some(PrimitiveLogicalType::Date), _) => Some(ColumnTypeTag::Date),
        (PhysicalType::Int32, _, Some(PrimitiveConvertedType::Date)) => Some(ColumnTypeTag::Date),
        (PhysicalType::Int32, None, _) => Some(ColumnTypeTag::Int),
        (PhysicalType::Int32, _, Some(PrimitiveConvertedType::Int32)) => Some(ColumnTypeTag::Int),
        (PhysicalType::Boolean, None, _) => Some(ColumnTypeTag::Boolean),
        (PhysicalType::Double, None, _) => Some(ColumnTypeTag::Double),
        (PhysicalType::Float, None, _) => Some(ColumnTypeTag::Float),
        (PhysicalType::FixedLenByteArray(16), Some(PrimitiveLogicalType::Uuid), _) => Some(
            ColumnTypeTag::Uuid,
        ),
        (PhysicalType::FixedLenByteArray(16), None, None) => Some(ColumnTypeTag::Long128),
        (PhysicalType::ByteArray, Some(PrimitiveLogicalType::String), _) => Some(
            ColumnTypeTag::Varchar,
        ),
        (PhysicalType::FixedLenByteArray(32), None, _) => Some(ColumnTypeTag::Long256),
        (PhysicalType::ByteArray, None, Some(PrimitiveConvertedType::Utf8)) => Some(
            ColumnTypeTag::Varchar,
        ),
        (PhysicalType::ByteArray, None, _) => Some(ColumnTypeTag::Binary),
        (PhysicalType::Int96, None, None) => Some(ColumnTypeTag::Timestamp),
        _ => None,
    }
}

/// The place of the first entry of `schema` from `from` on that describes
/// the column with the id `col_id`, if there is one.
pub open spec fn meta_entry_at(schema: Seq<QdbMetaColumn>, col_id: i32, from: int) -> Option<int>
    decreases schema.len() - from,
{
    if from < 0 || from >= schema.len() {
        None
    } else if schema[from].id == col_id {
        Some(from)
    } else {
        meta_entry_at(schema, col_id, from + 1)
    }
}

/// The description that a reference stands for, if it stands for one.
pub open spec fn meta_of(qdb_meta: Option<&QdbMeta>) -> Option<QdbMeta> {
    match qdb_meta {
        Some(meta) => Some(*meta),
        None => None,
    }
}

/// The code that the database's description gives the column with the id
/// `col_id`, where the description has the column and the code names a
/// column type.
pub open spec fn qdb_meta_code(qdb_meta: Option<QdbMeta>, col_id: i32) -> Option<i32> {
    match qdb_meta {
        None => None,
        Some(meta) => match meta_entry_at(meta.entries(), col_id, 0) {
            None => None,
            Some(at) => if ColumnType::spec_try_from(meta.entries()[at].qdb_type_code) is Some {
                Some(meta.entries()[at].qdb_type_code)
            } else {
                None
            },
        },
    }
}

/// The code of the column type that a column of the file is read as: the
/// one that the database's description gives it, where the column has a
/// field id and the description knows it; else the one that follows from
/// the storage type and the annotations. `None` for a column that cannot be
/// read.
pub open spec fn described_code(des: &Descriptor, qdb_meta: Option<QdbMeta>) -> Option<i32> {
    let from_meta = match des.id {
        Some(col_id) => qdb_meta_code(qdb_meta, col_id),
        None => None,
    };
    match from_meta {
        Some(code) => Some(code),
        None => match described_tag(des.physical_type, des.logical_type, des.converted_type) {
            Some(tag) => Some(tag.spec_code() as i32),
            None => None,
        },
    }
}

impl ParquetDecoder {
    /// The column type that the database's description of the file gives
    /// the column with the id `col_id`, with its code.
    pub fn extract_column_type_from_qdb_meta(qdb_meta: Option<&QdbMeta>, col_id: i32) -> (res:
        Option<(ColumnType, i32)>)
        ensures
            match res {
                Some((column_type, code)) => qdb_meta_code(meta_of(qdb_meta), col_id) == Some(
                    code,
                ) && column_type.code() == code,
                None => qdb_meta_code(meta_of(qdb_meta), col_id) is None,
            },
    {
        let meta = match qdb_meta {
            None => {
                return None;
            },
            Some(meta) => meta,
        };
        let mut i: usize = 0;
        while i < meta.schema().len()
            invariant
                qdb_meta == Some(meta),
                i <= meta.entries().len(),
                meta_entry_at(meta.entries(), col_id, 0) == meta_entry_at(
                    meta.entries(),
                    col_id,
                    i as int,
                ),
            decreases meta.entries().len() - i,
        {
            let entry = meta.schema()[i];
            if entry.id == col_id {
                return match ColumnType::try_from(entry.qdb_type_code) {
                    Ok(column_type) => Some((column_type, entry.qdb_type_code)),
                    Err(_) => None,
                };
            }
            i = i + 1;
        }
        None
    }

    /// The column type that a column of the file is read as, with its code.
    pub fn descriptor_to_column_type(des: &Descriptor, qdb_meta: Option<&QdbMeta>) -> (res: Option<
        (ColumnType, i32),
    >)
        ensures
            match res {
                Some((column_type, code)) => described_code(des, meta_of(qdb_meta)) == Some(code)
                    && column_type.code() == code,
                None => described_code(des, meta_of(qdb_meta)) is None,
            },
    {
        if let Some(col_id) = des.id {
            if let Some(pair) = Self::extract_column_type_from_qdb_meta(qdb_meta, col_id) {
                return Some(pair);
            }
        }
        match describe_tag(des.physical_type, des.logical_type, des.converted_type) {
            Some(tag) => {
                let column_type = tag.into_type();
                Some((column_type, column_type.code()))
            },
            None => None,
        }
    }
}

/// A column that the decoder can read: the code of its column type and its
/// place in the schema.
pub struct ReadableColumn {
    pub code: i32,
    pub id: i32,
}

/// The columns of the schema from place `from` on that the decoder can
/// read, in order. Columns that it cannot read are left out.
pub open spec fn readable_columns(schema: Seq<Descriptor>, qdb_meta: Option<QdbMeta>, from: int)
    -> Seq<ReadableColumn>
    decreases schema.len() - from,
{
    if from < 0 || from >= schema.len() {
        Seq::empty()
    } else {
        match described_code(&schema[from], qdb_meta) {
            Some(code) => seq![ReadableColumn { code, id: from as i32 }] + readable_columns(
                schema,
                qdb_meta,
                from + 1,
            ),
            None => readable_columns(schema, qdb_meta, from + 1),
        }
    }
}

/// Whether the metadata holds a count that the decoder cannot publish: more
/// columns or row groups, or a row group of more rows, than 32 bits count.
pub open spec fn counts_overflow(metadata: &FileMetaData) -> bool {
    ||| metadata.schema_descr@.len() > i32::MAX
    ||| metadata.row_groups@.len() > i32::MAX
    ||| exists|i: int|
        0 <= i < metadata.row_groups@.len() && (#[trigger] metadata.row_groups@[i]).num_rows
            > i32::MAX
}

/// The value under the database's key in the key-value section.
pub open spec fn qdb_meta_text(entries: Seq<KeyValue>, from: int) -> Option<Seq<char>>
    decreases entries.len() - from,
{
    if from < 0 || from >= entries.len() {
        None
    } else if entries[from].key@ == "questdb"@ {
        match entries[from].value {
            Some(text) => Some(text@),
            None => None,
        }
    } else {
        qdb_meta_text(entries, from + 1)
    }
}

/// The text in which a file written by the database describes its columns:
/// the value of the first entry of the key-value section that has the
/// database's key. `None` where there is no such section, entry or value.
pub fn extract_qdb_meta_text(file_metadata: &FileMetaData) -> (res: Option<&String>)
    ensures
        match file_metadata.key_value_metadata {
            None => res is None,
            Some(entries) => match res {
                Some(text) => qdb_meta_text(entries@, 0) == Some(text@),
                None => qdb_meta_text(entries@, 0) is None,
            },
        },
{
    let entries = match &file_metadata.key_value_metadata {
        None => {
            return None;
        },
        Some(entries) => entries,
    };
    let key: String = String::from_str(qdb_meta_key());
    let mut i: usize = 0;
    while i < entries.len()
        invariant
            i <= entries@.len(),
            file_metadata.key_value_metadata == Some(*entries),
            key@ == "questdb"@,
            qdb_meta_text(entries@, 0) == qdb_meta_text(entries@, i as int),
        decreases entries@.len() - i,
    {
        if entries[i].key == key {
            return match &entries[i].value {
                Some(text) => Some(text),
                None => None,
            };
        }
        i = i + 1;
    }
    None
}

impl ParquetDecoder {
    /// The decoder of the file whose metadata is `metadata` and whose
    /// description by the database, where it has one, is `qdb_meta`.
    pub fn read(metadata: FileMetaData, qdb_meta: Option<QdbMeta>) -> (res: ParquetResult<Self>)
        ensures
            match res {
                Err(e) => counts_overflow(&metadata) && e == ParquetError::Layout(
                    LayoutReason::SizeOverflow,
                ),
                Ok(decoder) => {
                    let readable = readable_columns(
                        metadata.schema_descr@,
                        qdb_meta,
                        0,
                    );
                    &&& !counts_overflow(&metadata)
                    &&& decoder.metadata == metadata
                    &&& decoder.qdb_meta == qdb_meta
                    &&& decoder.row_count == metadata.num_rows
                    &&& decoder.row_group_count == metadata.row_groups@.len()
                    &&& decoder.row_group_sizes@.len() == metadata.row_groups@.len()
                    &&& forall|i: int|
                        0 <= i < metadata.row_groups@.len() ==> decoder.row_group_sizes@[i]
                            == (#[trigger] metadata.row_groups@[i]).num_rows
                    &&& decoder.col_count == decoder.columns@.len()
                    &&& decoder.columns@.len() == readable.len()
                    &&& forall|i: int|
                        0 <= i < readable.len() ==> {
                            &&& (#[trigger] decoder.columns@[i]).column_type.code()
                                == readable[i].code
                            &&& decoder.columns@[i].id == readable[i].id
                            &&& 0 <= readable[i].id < metadata.schema_descr@.len()
                            &&& decoder.columns@[i].name@
                                == metadata.schema_descr@[readable[i].id as int].name@
                        }
                },
            },
    {
        if metadata.schema_descr.len() > i32::MAX as usize || metadata.row_groups.len()
            > i32::MAX as usize {
            return Err(ParquetError::Layout(LayoutReason::SizeOverflow));
        }
        let mut row_group_sizes: Vec<i32> = Vec::new();
        let mut g: usize = 0;
        while g < metadata.row_groups.len()
            invariant
                g <= metadata.row_groups@.len(),
                row_group_sizes@.len() == g,
                forall|i: int|
                    0 <= i < g ==> row_group_sizes@[i] == (#[trigger] metadata.row_groups@[i]).num_rows,
                forall|i: int|
                    0 <= i < g ==> (#[trigger] metadata.row_groups@[i]).num_rows <= i32::MAX,
            decreases metadata.row_groups@.len() - g,
        {
            let rows: usize = metadata.row_groups[g].num_rows;
            if rows > i32::MAX as usize {
                return Err(ParquetError::Layout(LayoutReason::SizeOverflow));
            }
            row_group_sizes.push(rows as i32);
            g = g + 1;
        }
        let mut columns: Vec<ColumnMeta> = Vec::new();
        let ghost readable = readable_columns(metadata.schema_descr@, qdb_meta, 0);
        let mut c: usize = 0;
        proof {
            assert(Seq::<ReadableColumn>::empty() + readable =~= readable);
        }
        while c < metadata.schema_descr.len()
            invariant
                c <= metadata.schema_descr@.len() <= i32::MAX,
                columns@.len() <= c,
                readable == readable_columns(metadata.schema_descr@, qdb_meta, 0),
                readable.len() == columns@.len() + readable_columns(
                    metadata.schema_descr@,
                    qdb_meta,
                    c as int,
                ).len(),
                readable.skip(columns@.len() as int) == readable_columns(
                    metadata.schema_descr@,
                    qdb_meta,
                    c as int,
                ),
                forall|i: int|
                    0 <= i < columns@.len() ==> {
                        &&& (#[trigger] columns@[i]).column_type.code() == readable[i].code
                        &&& columns@[i].id == readable[i].id
                        &&& 0 <= readable[i].id < metadata.schema_descr@.len()
                        &&& columns@[i].name@
                            == metadata.schema_descr@[readable[i].id as int].name@
                    },
            decreases metadata.schema_descr@.len() - c,
        {
            let des = &metadata.schema_descr[c];
            let ghost rest = readable_columns(metadata.schema_descr@, qdb_meta, c as int);
            let ghost done = columns@.len();
            match Self::descriptor_to_column_type(des, qdb_meta.as_ref()) {
                Some((column_type, _code)) => {
                    proof {
                        assert(rest.len() >= 1);
                        assert(rest[0] == readable[done as int]);
                        assert(rest.skip(1) =~= readable.skip(done as int + 1));
                        assert(rest.skip(1) =~= readable_columns(
                            metadata.schema_descr@,
                            qdb_meta,
                            c + 1,
                        ));
                    }
                    columns.push(ColumnMeta { column_type, id: c as i32, name: des.name.clone() });
                },
                None => {},
            }
            c = c + 1;
        }
        let col_count: u32 = columns.len() as u32;
        let row_group_count: u32 = metadata.row_groups.len() as u32;
        let row_count: usize = metadata.num_rows;
        Ok(
            ParquetDecoder {
                col_count,
                row_count,
                row_group_count,
                row_group_sizes,
                columns,
                qdb_meta,
                metadata,
            },
        )
    }
}

} // verus!
