//! Writers for columns of fixed width.

use crate::buffers::ColumnChunkBuffers;
use crate::bytes::{
    i64_as_unsigned, push_all, push_range, push_u64_le, read_u32_le, read_u64_le, u32_as_signed,
};
use crate::decimal::{decimal_to_double, MAX_DECIMAL_SCALE};
use crate::error::LayoutReason;
use crate::sink::{ColumnSink, SinkModel, ValueWriter};
use vstd::prelude::*;

verus! {

/// Copies the first bytes of each value: all of them where source and
/// destination have one width, the low ones where the destination is
/// narrower.
pub struct FixedWriter {
    pub width: usize,
    pub null_value: Vec<u8>,
}

impl ValueWriter for FixedWriter {
    open spec fn model(&self) -> SinkModel {
        SinkModel::Fixed { width: self.width as nat, null: self.null_value@ }
    }

    fn start(&self, bufs: &mut ColumnChunkBuffers, rows: usize, bytes: usize) {
        if rows <= usize::MAX / 32 && self.width <= 32 {
            proof {
                assert(rows * self.width <= rows * 32) by (nonlinear_arith)
                    requires
                        self.width <= 32,
                ;
            }
            bufs.data_vec.reserve(rows * self.width);
        }
    }

    fn write(&self, raw: &[u8], bufs: &mut ColumnChunkBuffers) -> (res: Result<(), LayoutReason>) {
        if raw.len() < self.width {
            return Err(LayoutReason::ValueWidth);
        }
        push_range(&mut bufs.data_vec, raw, 0, self.width);
        Ok(())
    }

    fn write_null(&self, bufs: &mut ColumnChunkBuffers) -> (res: Result<(), LayoutReason>) {
        push_all(&mut bufs.data_vec, self.null_value.as_slice());
        Ok(())
    }
}

/// Writes each value with its bytes in reverse order.
pub struct ReverseFixedWriter {
    pub width: usize,
    pub null_value: Vec<u8>,
}

impl ValueWriter for ReverseFixedWriter {
    open spec fn model(&self) -> SinkModel {
        SinkModel::ReverseFixed { width: self.width as nat, null: self.null_value@ }
    }

    fn start(&self, bufs: &mut ColumnChunkBuffers, rows: usize, bytes: usize) {
        bufs.data_vec.reserve(bytes);
    }

    fn write(&self, raw: &[u8], bufs: &mut ColumnChunkBuffers) -> (res: Result<(), LayoutReason>) {
        if raw.len() < self.width {
            return Err(LayoutReason::ValueWidth);
        }
        let ghost value = raw@.subrange(0, self.width as int);
        let mut k: usize = self.width;
        while k > 0
            invariant
                k <= self.width <= raw@.len(),
                value == raw@.subrange(0, self.width as int),
                bufs.aux_vec == old(bufs).aux_vec,
                bufs.data_vec@ == old(bufs).data_vec@ + value.reverse().subrange(
                    0,
                    self.width - k,
                ),
            decreases k,
        {
            k = k - 1;
            bufs.data_vec.push(raw[k]);
            proof {
                let turned = value.reverse();
                assert(turned[self.width - 1 - k] == raw@[k as int]);
                assert(bufs.data_vec@ =~= old(bufs).data_vec@ + turned.subrange(0, self.width - k));
            }
        }
        proof {
            assert(value.reverse().subrange(0, self.width as int) =~= value.reverse());
        }
        Ok(())
    }

    fn write_null(&self, bufs: &mut ColumnChunkBuffers) -> (res: Result<(), LayoutReason>) {
        push_all(&mut bufs.data_vec, self.null_value.as_slice());
        Ok(())
    }
}

/// The Julian day of the first of January 1970.
pub const JULIAN_EPOCH_DAY: i64 = 2440588;

/// The microseconds of a day.
pub const MICROS_PER_DAY: i64 = 86_400_000_000;

/// Writes each 96-bit timestamp as microseconds since the epoch.
pub struct NanoTimestampWriter {
    pub null_value: Vec<u8>,
}

impl ValueWriter for NanoTimestampWriter {
    open spec fn model(&self) -> SinkModel {
        SinkModel::NanoTimestamp { null: self.null_value@ }
    }

    fn start(&self, bufs: &mut ColumnChunkBuffers, rows: usize, bytes: usize) {
        if rows <= usize::MAX / 8 {
            bufs.data_vec.reserve(rows * 8);
        }
    }

    fn write(&self, raw: &[u8], bufs: &mut ColumnChunkBuffers) -> (res: Result<(), LayoutReason>) {
        if raw.len() < 12 {
            return Err(LayoutReason::ValueWidth);
        }
        let nanos: u64 = read_u64_le(raw, 0);
        let day: u32 = read_u32_le(raw, 8);
        let micros: i128 = (day as i128 - JULIAN_EPOCH_DAY as i128) * (MICROS_PER_DAY as i128) + (
        nanos / 1000) as i128;
        if micros > i64::MAX as i128 {
            return Err(LayoutReason::TimestampRange);
        }
        let pattern: u64 = i64_as_unsigned(micros as i64);
        push_u64_le(&mut bufs.data_vec, pattern);
        Ok(())
    }

    fn write_null(&self, bufs: &mut ColumnChunkBuffers) -> (res: Result<(), LayoutReason>) {
        push_all(&mut bufs.data_vec, self.null_value.as_slice());
        Ok(())
    }
}

/// Writes each 32-bit decimal as the nearest double.
pub struct IntDecimalWriter {
    pub scale: usize,
    pub null_value: Vec<u8>,
}

impl ValueWriter for IntDecimalWriter {
    open spec fn model(&self) -> SinkModel {
        SinkModel::IntDecimal { scale: self.scale as nat, null: self.null_value@ }
    }

    fn start(&self, bufs: &mut ColumnChunkBuffers, rows: usize, bytes: usize) {
        if rows <= usize::MAX / 8 {
            bufs.data_vec.reserve(rows * 8);
        }
    }

    fn write(&self, raw: &[u8], bufs: &mut ColumnChunkBuffers) -> (res: Result<(), LayoutReason>) {
        if self.scale > MAX_DECIMAL_SCALE {
            return Err(LayoutReason::DecimalScale);
        }
        if raw.len() < 4 {
            return Err(LayoutReason::ValueWidth);
        }
        let value: i32 = u32_as_signed(read_u32_le(raw, 0));
        push_u64_le(&mut bufs.data_vec, decimal_to_double(value, self.scale));
        Ok(())
    }

    fn write_null(&self, bufs: &mut ColumnChunkBuffers) -> (res: Result<(), LayoutReason>) {
        push_all(&mut bufs.data_vec, self.null_value.as_slice());
        Ok(())
    }
}

/// A sink that copies the first bytes of each value.
pub type FixedColumnSink<T> = ColumnSink<T, FixedWriter>;

/// A sink that writes 32-bit decimals as doubles.
pub type IntDecimalColumnSink<T> = ColumnSink<T, IntDecimalWriter>;

/// A sink that writes each value with its bytes in reverse order.
pub type ReverseFixedColumnSink<T> = ColumnSink<T, ReverseFixedWriter>;

/// A sink that writes 96-bit timestamps as microseconds.
pub type NanoTimestampColumnSink<T> = ColumnSink<T, NanoTimestampWriter>;

} // verus!
