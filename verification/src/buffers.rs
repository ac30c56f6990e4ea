//! The destination buffers of a decode: owned, growable, cleared and used
//! again from one row group to the next.

use vstd::prelude::*;

verus! {

/// The buffers of one destination column: the primary buffer, which holds
/// fixed-width values or variable-length payload, and the auxiliary buffer,
/// which holds the offsets or headers of variable-length values. The two
/// sizes are what a host reads beside the buffers.
#[derive(Debug, Clone, PartialEq, Eq)]
pub struct ColumnChunkBuffers {
    pub data_vec: Vec<u8>,
    pub data_size: usize,
    pub aux_vec: Vec<u8>,
    pub aux_size: usize,
}

/// What a column's buffers hold.
pub struct BufferState {
    pub data: Seq<u8>,
    pub aux: Seq<u8>,
}

impl View for ColumnChunkBuffers {
    type V = BufferState;

    open spec fn view(&self) -> BufferState {
        BufferState { data: self.data_vec@, aux: self.aux_vec@ }
    }
}

impl ColumnChunkBuffers {
    /// The published sizes are those of the buffers.
    pub open spec fn in_sync(&self) -> bool {
        self.data_size == self.data_vec@.len() && self.aux_size == self.aux_vec@.len()
    }

    /// Buffers that hold nothing.
    pub fn new() -> (bufs: ColumnChunkBuffers)
        ensures
            bufs.data_vec@ == Seq::<u8>::empty(),
            bufs.aux_vec@ == Seq::<u8>::empty(),
            bufs.in_sync(),
    {
        ColumnChunkBuffers { data_vec: Vec::new(), data_size: 0, aux_vec: Vec::new(), aux_size: 0 }
    }

    /// Publishes the sizes of the buffers as they are now.
    pub fn refresh_ptrs(&mut self)
        ensures
            final(self).data_vec == old(self).data_vec,
            final(self).aux_vec == old(self).aux_vec,
            final(self).in_sync(),
    {
        self.data_size = self.data_vec.len();
        self.aux_size = self.aux_vec.len();
    }

    /// The primary buffer, for as long as the buffers are not changed.
    pub fn data(&self) -> (view: &[u8])
        ensures
            view@ == self.data_vec@,
    {
        self.data_vec.as_slice()
    }

    /// The auxiliary buffer, for as long as the buffers are not changed.
    pub fn aux(&self) -> (view: &[u8])
        ensures
            view@ == self.aux_vec@,
    {
        self.aux_vec.as_slice()
    }
}

/// The smallest value of a column chunk, as the writer recorded it; empty
/// where it recorded none.
#[derive(Debug, Clone, PartialEq, Eq)]
pub struct ColumnChunkStats {
    pub min_value: Vec<u8>,
    pub min_value_size: usize,
}

impl ColumnChunkStats {
    /// The published size is that of the value.
    pub open spec fn in_sync(&self) -> bool {
        self.min_value_size == self.min_value@.len()
    }

    /// Statistics that hold no value.
    pub fn new() -> (stats: ColumnChunkStats)
        ensures
            stats.min_value@ == Seq::<u8>::empty(),
            stats.in_sync(),
    {
        ColumnChunkStats { min_value: Vec::new(), min_value_size: 0 }
    }
}

/// The buffers and statistics of the columns of one request, one entry for
/// each destination column.
#[derive(Debug, Clone, PartialEq, Eq)]
pub struct RowGroupBuffers {
    pub column_bufs: Vec<ColumnChunkBuffers>,
    pub column_chunk_stats: Vec<ColumnChunkStats>,
}

impl RowGroupBuffers {
    /// Buffers for no column.
    pub fn new() -> (bufs: RowGroupBuffers)
        ensures
            bufs.column_bufs@.len() == 0,
            bufs.column_chunk_stats@.len() == 0,
    {
        RowGroupBuffers { column_bufs: Vec::new(), column_chunk_stats: Vec::new() }
    }

    /// Makes room for `required_cols` columns. Where the list of buffers is
    /// that long already, nothing changes. Where it is shorter, both lists
    /// get `required_cols` entries: entries that exist stay as they are, new
    /// ones are empty, and statistics beyond `required_cols` are let go.
    pub fn ensure_n_columns(&mut self, required_cols: usize)
        ensures
            old(self).column_bufs@.len() >= required_cols ==> *final(self) == *old(self),
            old(self).column_bufs@.len() < required_cols ==> {
                &&& final(self).column_bufs@.len() == required_cols
                &&& final(self).column_chunk_stats@.len() == required_cols
                &&& forall|i: int|
                    0 <= i < old(self).column_bufs@.len() ==> final(self).column_bufs@[i] == old(
                        self,
                    ).column_bufs@[i]
                &&& forall|i: int|
                    old(self).column_bufs@.len() <= i < required_cols ==> {
                        &&& #[trigger] final(self).column_bufs@[i].data_vec@.len() == 0
                        &&& final(self).column_bufs@[i].aux_vec@.len() == 0
                        &&& final(self).column_bufs@[i].in_sync()
                    }
                &&& forall|i: int|
                    0 <= i < old(self).column_chunk_stats@.len() && i < required_cols
                        ==> final(self).column_chunk_stats@[i] == old(self).column_chunk_stats@[i]
                &&& forall|i: int|
                    old(self).column_chunk_stats@.len() <= i < required_cols ==> {
                        &&& #[trigger] final(self).column_chunk_stats@[i].min_value@.len() == 0
                        &&& final(self).column_chunk_stats@[i].in_sync()
                    }
            },
    {
        if self.column_bufs.len() < required_cols {
            grow_buffers(&mut self.column_bufs, required_cols);
            resize_stats(&mut self.column_chunk_stats, required_cols);
        }
    }
}

/// Appends empty buffers until there are `count` of them.
fn grow_buffers(bufs: &mut Vec<ColumnChunkBuffers>, count: usize)
    requires
        old(bufs)@.len() <= count,
    ensures
        final(bufs)@.len() == count,
        forall|i: int| 0 <= i < old(bufs)@.len() ==> final(bufs)@[i] == old(bufs)@[i],
        forall|i: int|
            old(bufs)@.len() <= i < count ==> {
                &&& #[trigger] final(bufs)@[i].data_vec@.len() == 0
                &&& final(bufs)@[i].aux_vec@.len() == 0
                &&& final(bufs)@[i].in_sync()
            },
{
    while bufs.len() < count
        invariant
            old(bufs)@.len() <= bufs@.len() <= count,
            forall|i: int| 0 <= i < old(bufs)@.len() ==> bufs@[i] == old(bufs)@[i],
            forall|i: int|
                old(bufs)@.len() <= i < bufs@.len() ==> {
                    &&& #[trigger] bufs@[i].data_vec@.len() == 0
                    &&& bufs@[i].aux_vec@.len() == 0
                    &&& bufs@[i].in_sync()
                },
        decreases count - bufs@.len(),
    {
        bufs.push(ColumnChunkBuffers::new());
    }
}

/// Brings the statistics to `count` entries: those beyond are let go, and
/// empty ones are appended where there are fewer.
fn resize_stats(stats: &mut Vec<ColumnChunkStats>, count: usize)
    ensures
        final(stats)@.len() == count,
        forall|i: int|
            0 <= i < old(stats)@.len() && i < count ==> final(stats)@[i] == old(stats)@[i],
        forall|i: int|
            old(stats)@.len() <= i < count ==> {
                &&& #[trigger] final(stats)@[i].min_value@.len() == 0
                &&& final(stats)@[i].in_sync()
            },
{
    stats.truncate(count);
    let ghost kept = stats@.len();
    while stats.len() < count
        invariant
            kept <= stats@.len() <= count,
            kept <= old(stats)@.len(),
            kept == old(stats)@.len() || kept == count,
            forall|i: int| 0 <= i < kept ==> stats@[i] == old(stats)@[i],
            forall|i: int|
                kept <= i < stats@.len() ==> {
                    &&& #[trigger] stats@[i].min_value@.len() == 0
                    &&& stats@[i].in_sync()
                },
        decreases count - stats@.len(),
    {
        stats.push(ColumnChunkStats::new());
    }
}

} // verus!
