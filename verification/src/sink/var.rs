//! Writers for columns of variable length: text as UTF-16, text as UTF-8,
//! and bytes.

use crate::buffers::ColumnChunkBuffers;
use crate::bytes::{
    le_bytes, lemma_le_bytes_len, push_all, push_le, push_range, push_u32_le, push_u64_le,
};
use crate::error::LayoutReason;
use crate::sink::{
    start_page, varchar_entry, varchar_null_entry, zeros, ColumnSink, SinkModel, ValueWriter,
};
use crate::text::{check_ascii, transcode_utf16};
use vstd::prelude::*;

verus! {

/// Writes the offset zero where the auxiliary buffer is empty.
fn start_offsets(bufs: &mut ColumnChunkBuffers)
    ensures
        final(bufs)@ == start_page(SinkModel::Binary, old(bufs)@),
        final(bufs)@ == start_page(SinkModel::Text, old(bufs)@),
{
    if bufs.aux_vec.len() == 0 {
        push_u64_le(&mut bufs.aux_vec, 0);
        assert(bufs.aux_vec@ =~= le_bytes(0, 8));
    }
}

/// Writes to the auxiliary buffer the length that the primary buffer has now.
fn push_end_offset(bufs: &mut ColumnChunkBuffers)
    ensures
        final(bufs).data_vec == old(bufs).data_vec,
        final(bufs).aux_vec@ == old(bufs).aux_vec@ + le_bytes(old(bufs).data_vec@.len(), 8),
{
    let end: usize = bufs.data_vec.len();
    push_u64_le(&mut bufs.aux_vec, end as u64);
}

/// Writes UTF-8 text as UTF-16.
pub struct StringWriter {}

impl ValueWriter for StringWriter {
    open spec fn model(&self) -> SinkModel {
        SinkModel::Text
    }

    fn start(&self, bufs: &mut ColumnChunkBuffers, rows: usize, bytes: usize) {
        start_offsets(bufs);
    }

    fn write(&self, raw: &[u8], bufs: &mut ColumnChunkBuffers) -> (res: Result<(), LayoutReason>) {
        let units = match transcode_utf16(raw) {
            None => {
                return Err(LayoutReason::Utf8);
            },
            Some(units) => units,
        };
        let count: usize = units.len() / 2;
        if count > i32::MAX as usize {
            return Err(LayoutReason::SizeOverflow);
        }
        push_u32_le(&mut bufs.data_vec, count as u32);
        push_all(&mut bufs.data_vec, units.as_slice());
        push_end_offset(bufs);
        proof {
            let entry = le_bytes(count as nat, 4) + units@;
            lemma_le_bytes_len(count as nat, 4);
            assert(bufs.data_vec@ =~= old(bufs).data_vec@ + entry);
        }
        Ok(())
    }

    fn write_null(&self, bufs: &mut ColumnChunkBuffers) -> (res: Result<(), LayoutReason>) {
        push_u32_le(&mut bufs.data_vec, 0xFFFF_FFFF);
        push_end_offset(bufs);
        proof {
            lemma_le_bytes_len(0xFFFF_FFFF, 4);
        }
        Ok(())
    }
}

/// Writes bytes after their length.
pub struct BinaryWriter {}

impl ValueWriter for BinaryWriter {
    open spec fn model(&self) -> SinkModel {
        SinkModel::Binary
    }

    fn start(&self, bufs: &mut ColumnChunkBuffers, rows: usize, bytes: usize) {
        start_offsets(bufs);
    }

    fn write(&self, raw: &[u8], bufs: &mut ColumnChunkBuffers) -> (res: Result<(), LayoutReason>) {
        push_u64_le(&mut bufs.data_vec, raw.len() as u64);
        push_all(&mut bufs.data_vec, raw);
        push_end_offset(bufs);
        proof {
            let entry = le_bytes(raw@.len(), 8) + raw@;
            lemma_le_bytes_len(raw@.len(), 8);
            assert(bufs.data_vec@ =~= old(bufs).data_vec@ + entry);
        }
        Ok(())
    }

    fn write_null(&self, bufs: &mut ColumnChunkBuffers) -> (res: Result<(), LayoutReason>) {
        push_u64_le(&mut bufs.data_vec, 0xFFFF_FFFF_FFFF_FFFF);
        push_end_offset(bufs);
        proof {
            lemma_le_bytes_len(0xFFFF_FFFF_FFFF_FFFF, 8);
        }
        Ok(())
    }
}

/// Appends `count` zeros.
fn push_zeros(out: &mut Vec<u8>, count: usize)
    ensures
        final(out)@ == old(out)@ + zeros(count as nat),
{
    let mut i: usize = 0;
    proof {
        assert(out@ =~= old(out)@ + zeros(0));
    }
    while i < count
        invariant
            i <= count,
            out@ == old(out)@ + zeros(i as nat),
        decreases count - i,
    {
        out.push(0);
        i = i + 1;
        proof {
            assert(out@ =~= old(out)@ + zeros(i as nat));
        }
    }
}

/// Writes UTF-8 text as it is, each value with an entry of sixteen bytes.
pub struct VarcharWriter {}

impl ValueWriter for VarcharWriter {
    open spec fn model(&self) -> SinkModel {
        SinkModel::Varchar
    }

    fn start(&self, bufs: &mut ColumnChunkBuffers, rows: usize, bytes: usize) {
        bufs.data_vec.reserve(bytes);
        if rows <= usize::MAX / 16 {
            bufs.aux_vec.reserve(rows * 16);
        }
    }

    fn write(&self, raw: &[u8], bufs: &mut ColumnChunkBuffers) -> (res: Result<(), LayoutReason>) {
        let offset: usize = bufs.data_vec.len();
        let size: usize = raw.len();
        if offset as u64 >= 0x1_0000_0000_0000 || size as u64 >= 0x1000_0000 {
            return Err(LayoutReason::SizeOverflow);
        }
        let flag: u32 = if check_ascii(raw) {
            2
        } else {
            0
        };
        let ghost aux_before = bufs.aux_vec@;
        if size <= 9 {
            bufs.aux_vec.push((size as u32 * 16 + 1 + flag) as u8);
            push_all(&mut bufs.aux_vec, raw);
            push_zeros(&mut bufs.aux_vec, 9 - size);
            push_le(&mut bufs.aux_vec, offset as u64, 6);
            proof {
                assert(bufs.aux_vec@ =~= aux_before + varchar_entry(raw@, offset as nat));
            }
        } else {
            push_u32_le(&mut bufs.aux_vec, size as u32 * 16 + flag);
            push_range(&mut bufs.aux_vec, raw, 0, 6);
            push_le(&mut bufs.aux_vec, offset as u64, 6);
            push_all(&mut bufs.data_vec, raw);
            proof {
                assert(bufs.aux_vec@ =~= aux_before + varchar_entry(raw@, offset as nat));
            }
        }
        Ok(())
    }

    fn write_null(&self, bufs: &mut ColumnChunkBuffers) -> (res: Result<(), LayoutReason>) {
        let offset: usize = bufs.data_vec.len();
        if offset as u64 >= 0x1_0000_0000_0000 {
            return Err(LayoutReason::SizeOverflow);
        }
        let ghost aux_before = bufs.aux_vec@;
        bufs.aux_vec.push(4);
        push_zeros(&mut bufs.aux_vec, 9);
        push_le(&mut bufs.aux_vec, offset as u64, 6);
        proof {
            assert(bufs.aux_vec@ =~= aux_before + varchar_null_entry(offset as nat));
        }
        Ok(())
    }
}

/// A sink that writes text as UTF-16.
pub type StringColumnSink<T> = ColumnSink<T, StringWriter>;

/// A sink that writes text as UTF-8.
pub type VarcharColumnSink<T> = ColumnSink<T, VarcharWriter>;

/// A sink that writes bytes after their length.
pub type BinaryColumnSink<T> = ColumnSink<T, BinaryWriter>;

} // verus!
