//! Decoding of column chunks and row groups: the pages of a chunk are
//! decoded in file order into the buffers of one column, and the columns of
//! a request must agree on the number of rows.

use crate::buffers::{BufferState, ColumnChunkBuffers, RowGroupBuffers};
use crate::bytes::push_all;
use crate::col_type::{ColumnType, ColumnTypeTag};
use crate::dispatch::{decoder_page, decoder_page_outcome, dict_of};
use crate::error::{InvalidReason, LayoutReason, ParquetError, ParquetResult, UnsupportedReason};
use crate::meta::ParquetDecoder;
use crate::page::{DictPage, Page, Version};
use crate::qdb_metadata::{QdbMetaCol, QdbMetaColFormat};
use vstd::prelude::*;

verus! {

/// The place of a column in the file's schema.
pub type ParquetColumnIndex = i32;

/// What a decode of a chunk has come to: the buffers, and the rows so far.
pub struct ChunkState {
    pub buffers: BufferState,
    pub rows: usize,
}

/// What decoding the pages `pages` gives, in file order, for a decode that
/// has come to `state` and has last seen the dictionary page `dict`. A data
/// page is decoded against the dictionary page that last came before it.
pub open spec fn pages_outcome(
    pages: Seq<Page>,
    dict: Option<DictPage>,
    state: ChunkState,
    col_info: QdbMetaCol,
) -> ParquetResult<ChunkState>
    decreases pages.len(),
{
    if pages.len() == 0 {
        Ok(state)
    } else {
        match pages[0] {
            Page::Dict(page) => pages_outcome(pages.skip(1), Some(page), state, col_info),
            Page::Data(page) => match decoder_page_outcome(&page, dict, state.buffers, col_info) {
                Err(e) => Err(e),
                Ok(buffers) => if state.rows + page.spec_num_values() > usize::MAX {
                    Err(ParquetError::Layout(LayoutReason::SizeOverflow))
                } else {
                    pages_outcome(
                        pages.skip(1),
                        dict,
                        ChunkState {
                            buffers,
                            rows: (state.rows + page.spec_num_values()) as usize,
                        },
                        col_info,
                    )
                },
            },
        }
    }
}

/// The version that a file declares, where the decoder reads it.
pub open spec fn file_version(version: i32) -> Option<Version> {
    if version == 1 {
        Some(Version::V1)
    } else if version == 2 {
        Some(Version::V2)
    } else {
        None
    }
}

impl ParquetDecoder {
    /// Whether the file has the column chunk.
    pub open spec fn has_chunk(&self, row_group_index: usize, column_index: usize) -> bool {
        row_group_index < self.metadata.row_groups@.len()
            && column_index < self.metadata.row_groups@[row_group_index as int].columns@.len()
    }

    /// What stands in the way of decoding a column chunk before the first
    /// page is looked at, if anything does: the chunk is not in the file,
    /// its size does not fit, or the file is of a version that is not read.
    pub open spec fn chunk_fault(&self, row_group_index: usize, column_index: usize) -> Option<
        ParquetError,
    > {
        if row_group_index >= self.metadata.row_groups@.len() {
            Some(
                ParquetError::Invalid(
                    InvalidReason::RowGroupOutOfRange {
                        index: row_group_index as u32,
                        count: self.row_group_count,
                    },
                ),
            )
        } else if column_index >= self.metadata.row_groups@[row_group_index as int].columns@.len() {
            Some(
                ParquetError::Invalid(
                    InvalidReason::ColumnOutOfRange {
                        column: column_index as i32,
                        columns: self.col_count,
                    },
                ),
            )
        } else if self.metadata.row_groups@[row_group_index as int].columns@[column_index as int].compressed_size
            < 0 || self.metadata.row_groups@[row_group_index as int].columns@[column_index as int].compressed_size
            > usize::MAX {
            Some(ParquetError::Layout(LayoutReason::SizeOverflow))
        } else if file_version(self.metadata.version) is None {
            Some(
                ParquetError::Unsupported(
                    UnsupportedReason::Version { version: self.metadata.version },
                ),
            )
        } else {
            None
        }
    }

    /// What decoding a column chunk from its pages gives: the buffers, which
    /// hold the rows of the chunk and nothing else, and the number of rows.
    pub open spec fn chunk_outcome(
        &self,
        row_group_index: usize,
        column_index: usize,
        col_info: QdbMetaCol,
        pages: Seq<Page>,
    ) -> ParquetResult<ChunkState> {
        match self.chunk_fault(row_group_index, column_index) {
            Some(e) => Err(e),
            None => pages_outcome(
                pages,
                None,
                ChunkState {
                    buffers: BufferState { data: Seq::empty(), aux: Seq::empty() },
                    rows: 0,
                },
                col_info,
            ),
        }
    }

    /// The size of a column chunk in the file, which bounds the size of its
    /// pages.
    pub fn column_chunk_size(&self, row_group_index: usize, column_index: usize) -> (res:
        ParquetResult<usize>)
        ensures
            match res {
                Ok(size) => self.has_chunk(row_group_index, column_index)
                    && self.metadata.row_groups@[row_group_index as int].columns@[column_index as int].compressed_size
                    == size,
                Err(e) => self.chunk_fault(row_group_index, column_index) == Some(e) && (e
                    is Invalid || e is Layout),
            },
    {
        if row_group_index >= self.metadata.row_groups.len() {
            return Err(
                ParquetError::Invalid(
                    InvalidReason::RowGroupOutOfRange {
                        index: row_group_index as u32,
                        count: self.row_group_count,
                    },
                ),
            );
        }
        let columns = &self.metadata.row_groups[row_group_index].columns;
        if column_index >= columns.len() {
            return Err(
                ParquetError::Invalid(
                    InvalidReason::ColumnOutOfRange {
                        column: column_index as i32,
                        columns: self.col_count,
                    },
                ),
            );
        }
        let size: i64 = columns[column_index].compressed_size;
        if size < 0 || size as u64 > usize::MAX as u64 {
            return Err(ParquetError::Layout(LayoutReason::SizeOverflow));
        }
        Ok(size as usize)
    }

    /// Decodes a column chunk from its pages, which are given uncompressed
    /// and in file order, into `column_chunk_bufs`. The buffers are emptied
    /// first.
    pub fn decode_column_chunk(
        &self,
        column_chunk_bufs: &mut ColumnChunkBuffers,
        row_group_index: usize,
        column_index: usize,
        col_info: QdbMetaCol,
        pages: &Vec<Page>,
    ) -> (res: ParquetResult<usize>)
        ensures
            match self.chunk_outcome(row_group_index, column_index, col_info, pages@) {
                Ok(state) => res == Ok::<usize, ParquetError>(state.rows)
                    && final(column_chunk_bufs)@ == state.buffers
                    && final(column_chunk_bufs).in_sync(),
                Err(e) => res == Err::<usize, ParquetError>(e),
            },
    {
        match self.column_chunk_size(row_group_index, column_index) {
            Err(e) => {
                return Err(e);
            },
            Ok(_) => {},
        }
        let version = if self.metadata.version == 1 {
            Version::V1
        } else if self.metadata.version == 2 {
            Version::V2
        } else {
            return Err(
                ParquetError::Unsupported(
                    UnsupportedReason::Version { version: self.metadata.version },
                ),
            );
        };
        let mut dict: Option<&DictPage> = None;
        let mut row_count: usize = 0;
        column_chunk_bufs.aux_vec.clear();
        column_chunk_bufs.data_vec.clear();
        let ghost mut seen: Option<DictPage> = None;
        let ghost whole = self.chunk_outcome(row_group_index, column_index, col_info, pages@);
        let mut i: usize = 0;
        proof {
            assert(pages@.skip(0) =~= pages@);
            assert(column_chunk_bufs@ == (BufferState { data: Seq::empty(), aux: Seq::empty() }));
        }
        while i < pages.len()
            invariant
                i <= pages@.len(),
                dict_of(dict) == seen,
                whole == self.chunk_outcome(row_group_index, column_index, col_info, pages@),
                whole == pages_outcome(
                    pages@.skip(i as int),
                    seen,
                    ChunkState { buffers: column_chunk_bufs@, rows: row_count },
                    col_info,
                ),
            decreases pages@.len() - i,
        {
            proof {
                let tail = pages@.skip(i as int);
                assert(tail[0] == pages@[i as int]);
                assert(tail.skip(1) =~= pages@.skip(i + 1));
            }
            match &pages[i] {
                Page::Dict(page) => {
                    dict = Some(page);
                    proof {
                        seen = Some(*page);
                    }
                },
                Page::Data(page) => {
                    let rows = match decoder_page(version, page, dict, column_chunk_bufs, col_info) {
                        Err(e) => {
                            return Err(e);
                        },
                        Ok(rows) => rows,
                    };
                    if rows > usize::MAX - row_count {
                        return Err(ParquetError::Layout(LayoutReason::SizeOverflow));
                    }
                    row_count = row_count + rows;
                },
            }
            i = i + 1;
        }
        column_chunk_bufs.refresh_ptrs();
        Ok(row_count)
    }
}

/// The column type that a stored column is taken for in a request: a
/// symbol column is taken for text where text is asked for.
pub open spec fn coerced(stored: ColumnType, requested: ColumnType) -> ColumnType {
    if stored.tag() == ColumnTypeTag::Symbol && requested.tag() == ColumnTypeTag::Varchar {
        requested
    } else {
        stored
    }
}

impl ParquetDecoder {
    /// The special way in which a column is stored, where the database's
    /// description of the file names one.
    pub open spec fn column_format(&self, column_index: usize) -> Option<QdbMetaColFormat> {
        match self.qdb_meta {
            Some(meta) => if column_index < meta.entries().len() {
                meta.entries()[column_index as int].format
            } else {
                None
            },
            None => None,
        }
    }

    /// What stands in the way of a request before a column is looked at,
    /// if anything does.
    pub open spec fn request_fault(
        &self,
        columns: Seq<(ParquetColumnIndex, ColumnType)>,
        row_group_index: u32,
        chunks: Seq<Vec<Page>>,
    ) -> Option<ParquetError> {
        if row_group_index >= self.row_group_count {
            Some(
                ParquetError::Invalid(
                    InvalidReason::RowGroupOutOfRange {
                        index: row_group_index,
                        count: self.row_group_count,
                    },
                ),
            )
        } else if chunks.len() != columns.len() {
            Some(
                ParquetError::Invalid(
                    InvalidReason::ChunkCountMismatch {
                        chunks: chunks.len() as usize,
                        columns: columns.len() as usize,
                    },
                ),
            )
        } else {
            None
        }
    }

    /// What decoding one column of a request gives: an error where the
    /// column is not in the file or is stored as another type than the one
    /// asked for, else what decoding its chunk gives.
    pub open spec fn column_outcome(
        &self,
        row_group_index: u32,
        column: (ParquetColumnIndex, ColumnType),
        pages: Seq<Page>,
    ) -> ParquetResult<ChunkState> {
        let (column_idx, to_column_type) = column;
        if column_idx < 0 || column_idx >= self.columns@.len() {
            Err(
                ParquetError::Invalid(
                    InvalidReason::ColumnOutOfRange { column: column_idx, columns: self.col_count },
                ),
            )
        } else {
            let column_type = coerced(self.columns@[column_idx as int].column_type, to_column_type);
            if column_type != to_column_type {
                Err(
                    ParquetError::Invalid(
                        InvalidReason::ColumnTypeMismatch {
                            requested: to_column_type,
                            stored: column_type,
                            column_index: column_idx as usize,
                        },
                    ),
                )
            } else {
                self.chunk_outcome(
                    row_group_index as usize,
                    column_idx as usize,
                    QdbMetaCol { column_type, format: self.column_format(column_idx as usize) },
                    pages,
                )
            }
        }
    }

    /// What decoding the columns of a request gives from column `from` on,
    /// where the columns before it have given `size` rows each: the number
    /// of rows that all the columns give, the first error of a column, or the
    /// error that a column gives another number of rows than those before it.
    pub open spec fn columns_outcome(
        &self,
        row_group_index: u32,
        columns: Seq<(ParquetColumnIndex, ColumnType)>,
        chunks: Seq<Vec<Page>>,
        from: int,
        size: usize,
    ) -> ParquetResult<usize>
        decreases columns.len() - from,
    {
        if from < 0 || from >= columns.len() || from >= chunks.len() {
            Ok(size)
        } else {
            match self.column_outcome(row_group_index, columns[from], chunks[from]@) {
                Err(e) => Err(e),
                Ok(state) => if from > 0 && state.rows != size {
                    Err(
                        ParquetError::Invalid(
                            InvalidReason::ChunkSizeMismatch { size: state.rows, previous: size },
                        ),
                    )
                } else {
                    self.columns_outcome(row_group_index, columns, chunks, from + 1, state.rows)
                },
            }
        }
    }

    /// The number of buffers that a request for `requested` columns needs:
    /// one for each column of the file, and one for each column asked for
    /// where those are more.
    pub open spec fn buffers_needed(&self, requested: nat) -> nat {
        if requested < self.col_count {
            self.col_count as nat
        } else {
            requested
        }
    }

    /// The number of entries that a list of `before` buffers has after it was
    /// grown to hold `needed`.
    pub open spec fn capacity_after(before: nat, needed: nat) -> nat {
        if before < needed {
            needed
        } else {
            before
        }
    }

    /// The number of statistics entries after the buffers were grown to hold
    /// `needed`: the two lists grow together, and only where the column
    /// buffers are too few.
    pub open spec fn stats_after(buffers_before: nat, stats_before: nat, needed: nat) -> nat {
        if buffers_before < needed {
            needed
        } else {
            stats_before
        }
    }

    /// What a request gives: the number of rows of the row group, which is
    /// that of each of its columns, or the error that ended it.
    pub open spec fn row_group_outcome(
        &self,
        columns: Seq<(ParquetColumnIndex, ColumnType)>,
        row_group_index: u32,
        chunks: Seq<Vec<Page>>,
    ) -> ParquetResult<usize> {
        match self.request_fault(columns, row_group_index, chunks) {
            Some(e) => Err(e),
            None => self.columns_outcome(row_group_index, columns, chunks, 0, 0),
        }
    }

    /// Decodes the columns `columns` of a row group, each from the pages of
    /// its chunk in `chunks`, into the buffers at its place in the request.
    /// Each column is named by its place in the file and the type that the
    /// caller takes it for. The buffers are grown on demand, to one for each
    /// column of the file and of the request; buffers beyond the request
    /// keep what they hold.
    pub fn decode_row_group(
        &self,
        row_group_bufs: &mut RowGroupBuffers,
        columns: &[(ParquetColumnIndex, ColumnType)],
        row_group_index: u32,
        chunks: &Vec<Vec<Page>>,
    ) -> (res: ParquetResult<usize>)
        ensures
            res == self.row_group_outcome(columns@, row_group_index, chunks@),
            res matches Ok(size) ==> forall|i: int|
                0 <= i < columns@.len() ==> {
                    &&& i < final(row_group_bufs).column_bufs@.len()
                    &&& (#[trigger] self.column_outcome(
                        row_group_index,
                        columns@[i],
                        chunks@[i]@,
                    )) matches Ok(state)
                    &&& state.rows == size
                    &&& final(row_group_bufs).column_bufs@[i]@ == state.buffers
                    &&& final(row_group_bufs).column_bufs@[i].in_sync()
                },
            final(row_group_bufs).column_bufs@.len() == if self.request_fault(
                columns@,
                row_group_index,
                chunks@,
            ) is Some {
                old(row_group_bufs).column_bufs@.len()
            } else {
                Self::capacity_after(
                    old(row_group_bufs).column_bufs@.len(),
                    self.buffers_needed(columns@.len()),
                )
            },
            forall|i: int|
                columns@.len() <= i < old(row_group_bufs).column_bufs@.len()
                    ==> #[trigger] final(row_group_bufs).column_bufs@[i]
                    == old(row_group_bufs).column_bufs@[i],
            forall|i: int|
                old(row_group_bufs).column_bufs@.len() <= i
                    < final(row_group_bufs).column_bufs@.len() && columns@.len() <= i ==> {
                    &&& (#[trigger] final(row_group_bufs).column_bufs@[i]).data_vec@.len() == 0
                    &&& final(row_group_bufs).column_bufs@[i].aux_vec@.len() == 0
                },
            final(row_group_bufs).column_chunk_stats@.len() == if self.request_fault(
                columns@,
                row_group_index,
                chunks@,
            ) is Some {
                old(row_group_bufs).column_chunk_stats@.len()
            } else {
                Self::stats_after(
                    old(row_group_bufs).column_bufs@.len(),
                    old(row_group_bufs).column_chunk_stats@.len(),
                    self.buffers_needed(columns@.len()),
                )
            },
            forall|i: int|
                0 <= i < old(row_group_bufs).column_chunk_stats@.len()
                    && i < final(row_group_bufs).column_chunk_stats@.len()
                    ==> #[trigger] final(row_group_bufs).column_chunk_stats@[i]
                    == old(row_group_bufs).column_chunk_stats@[i],
    {
        if row_group_index >= self.row_group_count {
            return Err(
                ParquetError::Invalid(
                    InvalidReason::RowGroupOutOfRange {
                        index: row_group_index,
                        count: self.row_group_count,
                    },
                ),
            );
        }
        if chunks.len() != columns.len() {
            return Err(
                ParquetError::Invalid(
                    InvalidReason::ChunkCountMismatch {
                        chunks: chunks.len(),
                        columns: columns.len(),
                    },
                ),
            );
        }
        let needed: usize = if columns.len() < self.col_count as usize {
            self.col_count as usize
        } else {
            columns.len()
        };
        row_group_bufs.ensure_n_columns(needed);
        let ghost grown = row_group_bufs.column_bufs@;
        let ghost grown_stats = row_group_bufs.column_chunk_stats@;
        let ghost whole = self.columns_outcome(row_group_index, columns@, chunks@, 0, 0);
        let mut row_group_size: usize = 0;
        let mut dest_col_idx: usize = 0;
        while dest_col_idx < columns.len()
            invariant
                dest_col_idx <= columns@.len() == chunks@.len(),
                columns@.len() <= row_group_bufs.column_bufs@.len(),
                row_group_bufs.column_bufs@.len() == grown.len(),
                row_group_bufs.column_chunk_stats@ == grown_stats,
                grown_stats.len() == Self::stats_after(
                    old(row_group_bufs).column_bufs@.len(),
                    old(row_group_bufs).column_chunk_stats@.len(),
                    self.buffers_needed(columns@.len()),
                ),
                forall|i: int|
                    0 <= i < old(row_group_bufs).column_chunk_stats@.len() && i < grown_stats.len()
                        ==> #[trigger] grown_stats[i] == old(row_group_bufs).column_chunk_stats@[i],
                forall|i: int|
                    dest_col_idx <= i < grown.len() ==> #[trigger] row_group_bufs.column_bufs@[i]
                        == grown[i],
                self.request_fault(columns@, row_group_index, chunks@) is None,
                grown.len() == Self::capacity_after(
                    old(row_group_bufs).column_bufs@.len(),
                    self.buffers_needed(columns@.len()),
                ),
                forall|i: int|
                    0 <= i < old(row_group_bufs).column_bufs@.len() ==> #[trigger] grown[i] == old(row_group_bufs).column_bufs@[i],
                forall|i: int|
                    old(row_group_bufs).column_bufs@.len() <= i < grown.len() ==> {
                        &&& (#[trigger] grown[i]).data_vec@.len() == 0
                        &&& grown[i].aux_vec@.len() == 0
                    },
                whole == self.row_group_outcome(columns@, row_group_index, chunks@),
                whole == self.columns_outcome(
                    row_group_index,
                    columns@,
                    chunks@,
                    dest_col_idx as int,
                    row_group_size,
                ),
                forall|i: int|
                    0 <= i < dest_col_idx ==> {
                        &&& (#[trigger] self.column_outcome(
                            row_group_index,
                            columns@[i],
                            chunks@[i]@,
                        )) matches Ok(state)
                        &&& state.rows == row_group_size
                        &&& row_group_bufs.column_bufs@[i]@ == state.buffers
                        &&& row_group_bufs.column_bufs@[i].in_sync()
                    },
            decreases columns@.len() - dest_col_idx,
        {
            let (column_idx, to_column_type) = columns[dest_col_idx];
            if column_idx < 0 || column_idx as usize >= self.columns.len() {
                return Err(
                    ParquetError::Invalid(
                        InvalidReason::ColumnOutOfRange {
                            column: column_idx,
                            columns: self.col_count,
                        },
                    ),
                );
            }
            let column_idx: usize = column_idx as usize;
            let mut column_type = self.columns[column_idx].column_type;
            if column_type.tag() == ColumnTypeTag::Symbol && to_column_type.tag()
                == ColumnTypeTag::Varchar {
                column_type = to_column_type;
            }
            if column_type != to_column_type {
                return Err(
                    ParquetError::Invalid(
                        InvalidReason::ColumnTypeMismatch {
                            requested: to_column_type,
                            stored: column_type,
                            column_index: column_idx,
                        },
                    ),
                );
            }
            let format = match &self.qdb_meta {
                Some(meta) => if column_idx < meta.schema().len() {
                    meta.schema()[column_idx].format
                } else {
                    None
                },
                None => None,
            };
            let col_info = QdbMetaCol { column_type, format };
            let ghost before = row_group_bufs.column_bufs@;
            let column_chunk_bufs = &mut row_group_bufs.column_bufs[dest_col_idx];
            let column_chunk_size = match self.decode_column_chunk(
                column_chunk_bufs,
                row_group_index as usize,
                column_idx,
                col_info,
                &chunks[dest_col_idx],
            ) {
                Err(e) => {
                    return Err(e);
                },
                Ok(size) => size,
            };
            if dest_col_idx > 0 && row_group_size != column_chunk_size {
                return Err(
                    ParquetError::Invalid(
                        InvalidReason::ChunkSizeMismatch {
                            size: column_chunk_size,
                            previous: row_group_size,
                        },
                    ),
                );
            }
            proof {
                assert forall|i: int|
                    0 <= i < before.len() && i != dest_col_idx implies row_group_bufs.column_bufs@[i]
                    == before[i] by {}
            }
            row_group_size = column_chunk_size;
            dest_col_idx = dest_col_idx + 1;
        }
        Ok(row_group_size)
    }
}

impl ParquetDecoder {
    /// What stands in the way of reading the statistics of a column chunk
    /// into the entry `column` of `capacity` entries, if anything does.
    pub open spec fn stats_fault(
        &self,
        capacity: nat,
        row_group: usize,
        file_column_index: usize,
        column: usize,
    ) -> Option<ParquetError> {
        if row_group >= self.metadata.row_groups@.len() {
            Some(
                ParquetError::Invalid(
                    InvalidReason::RowGroupOutOfRange {
                        index: row_group as u32,
                        count: self.row_group_count,
                    },
                ),
            )
        } else if file_column_index >= self.metadata.row_groups@[row_group as int].columns@.len() {
            Some(
                ParquetError::Invalid(
                    InvalidReason::ColumnOutOfRange {
                        column: file_column_index as i32,
                        columns: self.col_count,
                    },
                ),
            )
        } else if column >= capacity {
            Some(
                ParquetError::Invalid(
                    InvalidReason::TooManyColumns { wanted: column, capacity: self.col_count },
                ),
            )
        } else {
            None
        }
    }

    /// The smallest value of a column chunk as the writer recorded it, or
    /// nothing where it recorded none.
    pub open spec fn recorded_min(&self, row_group: usize, file_column_index: usize) -> Seq<u8> {
        match self.metadata.row_groups@[row_group as int].columns@[file_column_index as int].min_value {
            Some(min) => min@,
            None => Seq::empty(),
        }
    }

    /// Reads the smallest value of a column chunk from the metadata of the
    /// file into the entry `column` of the statistics. No page is decoded,
    /// and no column buffer that was there before changes.
    pub fn update_column_chunk_stats(
        &self,
        row_group_buffers: &mut RowGroupBuffers,
        row_group: usize,
        file_column_index: usize,
        column: usize,
    ) -> (res: ParquetResult<()>)
        ensures
            match self.stats_fault(
                Self::stats_after(
                    old(row_group_buffers).column_bufs@.len(),
                    old(row_group_buffers).column_chunk_stats@.len(),
                    self.col_count as nat,
                ),
                row_group,
                file_column_index,
                column,
            ) {
                Some(e) => res == Err::<(), ParquetError>(e),
                None => {
                    &&& res is Ok
                    &&& column < final(row_group_buffers).column_chunk_stats@.len()
                    &&& final(row_group_buffers).column_chunk_stats@[column as int].min_value@
                        == self.recorded_min(row_group, file_column_index)
                    &&& final(row_group_buffers).column_chunk_stats@[column as int].in_sync()
                },
            },
            final(row_group_buffers).column_bufs@.len() == Self::capacity_after(
                old(row_group_buffers).column_bufs@.len(),
                self.col_count as nat,
            ),
            final(row_group_buffers).column_chunk_stats@.len() == Self::stats_after(
                old(row_group_buffers).column_bufs@.len(),
                old(row_group_buffers).column_chunk_stats@.len(),
                self.col_count as nat,
            ),
            forall|i: int|
                0 <= i < old(row_group_buffers).column_bufs@.len()
                    ==> final(row_group_buffers).column_bufs@[i]
                    == old(row_group_buffers).column_bufs@[i],
            forall|i: int|
                0 <= i < old(row_group_buffers).column_chunk_stats@.len()
                    && i < final(row_group_buffers).column_chunk_stats@.len()
                    && !(res is Ok && i == column)
                    ==> final(row_group_buffers).column_chunk_stats@[i]
                    == old(row_group_buffers).column_chunk_stats@[i],
    {
        row_group_buffers.ensure_n_columns(self.col_count as usize);
        if row_group >= self.metadata.row_groups.len() {
            return Err(
                ParquetError::Invalid(
                    InvalidReason::RowGroupOutOfRange {
                        index: row_group as u32,
                        count: self.row_group_count,
                    },
                ),
            );
        }
        let columns = &self.metadata.row_groups[row_group].columns;
        if file_column_index >= columns.len() {
            return Err(
                ParquetError::Invalid(
                    InvalidReason::ColumnOutOfRange {
                        column: file_column_index as i32,
                        columns: self.col_count,
                    },
                ),
            );
        }
        if column >= row_group_buffers.column_chunk_stats.len() {
            return Err(
                ParquetError::Invalid(
                    InvalidReason::TooManyColumns { wanted: column, capacity: self.col_count },
                ),
            );
        }
        let stats = &mut row_group_buffers.column_chunk_stats[column];
        stats.min_value.clear();
        match &columns[file_column_index].min_value {
            Some(min) => {
                push_all(&mut stats.min_value, min.as_slice());
                proof {
                    assert(stats.min_value@ =~= min@);
                }
            },
            None => {},
        }
        stats.min_value_size = stats.min_value.len();
        Ok(())
    }
}

/// The first code among `columns` that names no column type, if there is one.
pub open spec fn first_unknown_code(columns: Seq<(ParquetColumnIndex, i32)>, from: int) -> Option<
    i32,
>
    decreases columns.len() - from,
{
    if from < 0 || from >= columns.len() {
        None
    } else if ColumnType::spec_try_from(columns[from].1) is None {
        Some(columns[from].1)
    } else {
        first_unknown_code(columns, from + 1)
    }
}

/// Checks the column types of a request that comes from the host as bare
/// codes, and gives the request with each code as the column type that it
/// names.
pub fn validate_jni_column_types(columns: &[(ParquetColumnIndex, i32)]) -> (res: ParquetResult<
    Vec<(ParquetColumnIndex, ColumnType)>,
>)
    ensures
        match res {
            Ok(typed) => {
                &&& first_unknown_code(columns@, 0) is None
                &&& typed@.len() == columns@.len()
                &&& forall|i: int|
                    0 <= i < typed@.len() ==> (#[trigger] typed@[i]).0 == columns@[i].0
                        && typed@[i].1.code() == columns@[i].1
            },
            Err(e) => first_unknown_code(columns@, 0) matches Some(code) && e
                == ParquetError::Invalid(InvalidReason::UnknownColumnTypeCode { code }),
        },
{
    let mut typed: Vec<(ParquetColumnIndex, ColumnType)> = Vec::new();
    let mut i: usize = 0;
    while i < columns.len()
        invariant
            i <= columns@.len(),
            typed@.len() == i,
            first_unknown_code(columns@, 0) == first_unknown_code(columns@, i as int),
            forall|k: int|
                0 <= k < i ==> (#[trigger] typed@[k]).0 == columns@[k].0 && typed@[k].1.code()
                    == columns@[k].1,
        decreases columns@.len() - i,
    {
        let (index, code) = columns[i];
        match ColumnType::try_from(code) {
            Err(e) => {
                return Err(e);
            },
            Ok(column_type) => {
                typed.push((index, column_type));
            },
        }
        i = i + 1;
    }
    Ok(typed)
}

} // verus!
