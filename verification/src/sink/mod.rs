//! Sinks: each takes the values of a page from a slicer, one after the
//! other or in runs, converts them and appends them to the buffers of a
//! column, with the column's null value in the place of each missing one.

pub mod fixed;
pub mod var;

use crate::buffers::{BufferState, ColumnChunkBuffers};
use crate::bytes::{as_signed, as_unsigned, le_bytes, le_value};
use crate::decimal::decimal_double_bits;
use crate::error::{LayoutReason, ParquetError, ParquetResult};
use crate::slicer::DataPageSlicer;
use crate::text::{is_ascii, utf8_to_utf16};
use vstd::prelude::*;

verus! {

/// How a sink writes, as far as that is fixed when the sink is made.
pub enum SinkModel {
    /// The first `width` bytes of each value are copied.
    Fixed { width: nat, null: Seq<u8> },
    /// Each value of `width` bytes is written with its bytes in reverse order.
    ReverseFixed { width: nat, null: Seq<u8> },
    /// Each value is a time of day in nanoseconds and a Julian day, and is
    /// written as microseconds since the epoch.
    NanoTimestamp { null: Seq<u8> },
    /// Each value is a 32-bit integer that stands for a decimal with `scale`
    /// places behind the point, and is written as the nearest double.
    IntDecimal { scale: nat, null: Seq<u8> },
    /// Each value is UTF-8 text and is written as UTF-16: to the primary
    /// buffer the number of units in four bytes and the units, to the
    /// auxiliary buffer the offset at which the next entry starts.
    Text,
    /// Each value is UTF-8 text and is kept as such: short values wholly
    /// within their entry of sixteen bytes in the auxiliary buffer, longer
    /// ones in the primary buffer with their first bytes in the entry.
    Varchar,
    /// Each value is written after its length in eight bytes; the auxiliary
    /// buffer takes the offset at which the next entry starts.
    Binary,
}

/// A sink's task: how it writes, the values that its slicer holds, and the
/// error that a read past the last of them gives.
pub struct SinkTask {
    pub model: SinkModel,
    pub values: Seq<Seq<u8>>,
    pub end_reason: LayoutReason,
}

/// How far a decode has come: the number of values taken from the slicer,
/// and what the buffers hold.
pub struct Progress {
    pub cursor: nat,
    pub buffers: BufferState,
}

/// The state of a decode: how far it has come, or the failure that ended it.
pub type DecodeState = Result<Progress, LayoutReason>;

/// The number of days from the start of the Julian calendar to the epoch.
pub open spec fn julian_epoch_day() -> int {
    2440588
}

/// The microseconds since the epoch of the time that the twelve bytes of
/// `raw` give: eight bytes of nanoseconds of the day, then four bytes of
/// the Julian day.
pub open spec fn nano_timestamp_micros(raw: Seq<u8>) -> int {
    let nanos = le_value(raw.subrange(0, 8)) as int;
    let day = le_value(raw.subrange(8, 12)) as int;
    (day - julian_epoch_day()) * 86_400_000_000 + nanos / 1000
}

/// `count` bytes that are zero.
pub open spec fn zeros(count: nat) -> Seq<u8> {
    Seq::new(count, |i: int| 0u8)
}

/// The buffers after an entry of a column with offsets was written: `entry`
/// at the end of the primary buffer, and the new length of that buffer, in
/// eight bytes, at the end of the auxiliary one.
pub open spec fn with_offset_entry(buffers: BufferState, entry: Seq<u8>) -> BufferState {
    BufferState {
        data: buffers.data + entry,
        aux: buffers.aux + le_bytes(buffers.data.len() + entry.len(), 8),
    }
}

/// The two flag bits of a varchar entry that say whether the text is ASCII.
pub open spec fn ascii_flag(raw: Seq<u8>) -> nat {
    if is_ascii(raw) {
        2
    } else {
        0
    }
}

/// The largest number of bytes of a text that is held wholly within its entry.
pub open spec fn varchar_inlined_max() -> nat {
    9
}

/// The entry of sixteen bytes of the text `raw`, at a time when the primary
/// buffer holds `offset` bytes. A text of up to nine bytes: one byte that
/// holds its length above four bits of flags, the text, zeros up to the
/// tenth byte. A longer text: four bytes that hold its length above four
/// bits of flags, then its first six bytes. In both cases `offset` follows
/// in six bytes.
pub open spec fn varchar_entry(raw: Seq<u8>, offset: nat) -> Seq<u8> {
    if raw.len() <= varchar_inlined_max() {
        seq![(raw.len() * 16 + 1 + ascii_flag(raw)) as u8] + raw + zeros(
            (varchar_inlined_max() - raw.len()) as nat,
        ) + le_bytes(offset, 6)
    } else {
        le_bytes(raw.len() * 16 + ascii_flag(raw), 4) + raw.subrange(0, 6)
            + le_bytes(offset, 6)
    }
}

/// The entry of a null text: the null flag, nine zeros, and the offset.
pub open spec fn varchar_null_entry(offset: nat) -> Seq<u8> {
    seq![4u8] + zeros(9) + le_bytes(offset, 6)
}

/// The buffers after the value `raw` was written to them, or the failure
/// that stands in the way.
pub open spec fn put_value(model: SinkModel, buffers: BufferState, raw: Seq<u8>) -> Result<
    BufferState,
    LayoutReason,
> {
    match model {
        SinkModel::Fixed { width, null } => if raw.len() < width {
            Err(LayoutReason::ValueWidth)
        } else {
            Ok(BufferState { data: buffers.data + raw.subrange(0, width as int), aux: buffers.aux })
        },
        SinkModel::ReverseFixed { width, null } => if raw.len() < width {
            Err(LayoutReason::ValueWidth)
        } else {
            Ok(
                BufferState {
                    data: buffers.data + raw.subrange(0, width as int).reverse(),
                    aux: buffers.aux,
                },
            )
        },
        SinkModel::NanoTimestamp { null } => if raw.len() < 12 {
            Err(LayoutReason::ValueWidth)
        } else {
            let micros = nano_timestamp_micros(raw);
            if micros > i64::MAX {
                Err(LayoutReason::TimestampRange)
            } else {
                Ok(
                    BufferState {
                        data: buffers.data + le_bytes(
                            as_unsigned(micros, 8),
                            8,
                        ),
                        aux: buffers.aux,
                    },
                )
            }
        },
        SinkModel::IntDecimal { scale, null } => if scale > 22 {
            Err(LayoutReason::DecimalScale)
        } else if raw.len() < 4 {
            Err(LayoutReason::ValueWidth)
        } else {
            let value = as_signed(le_value(raw.subrange(0, 4)), 4);
            Ok(
                BufferState {
                    data: buffers.data + le_bytes(
                        decimal_double_bits(value, scale) as nat,
                        8,
                    ),
                    aux: buffers.aux,
                },
            )
        },
        SinkModel::Text => match utf8_to_utf16(raw) {
            None => Err(LayoutReason::Utf8),
            Some(units) => if units.len() / 2 > i32::MAX {
                Err(LayoutReason::SizeOverflow)
            } else {
                Ok(
                    with_offset_entry(
                        buffers,
                        le_bytes(units.len() / 2, 4) + units,
                    ),
                )
            },
        },
        SinkModel::Varchar => if buffers.data.len() >= 0x1_0000_0000_0000 || raw.len()
            >= 0x1000_0000 {
            Err(LayoutReason::SizeOverflow)
        } else {
            Ok(
                BufferState {
                    data: if raw.len() <= varchar_inlined_max() {
                        buffers.data
                    } else {
                        buffers.data + raw
                    },
                    aux: buffers.aux + varchar_entry(raw, buffers.data.len()),
                },
            )
        },
        SinkModel::Binary => Ok(
            with_offset_entry(buffers, le_bytes(raw.len(), 8) + raw),
        ),
    }
}

/// The buffers after a null was written to them.
pub open spec fn put_null(model: SinkModel, buffers: BufferState) -> Result<
    BufferState,
    LayoutReason,
> {
    match model {
        SinkModel::Fixed { width, null } => Ok(
            BufferState { data: buffers.data + null, aux: buffers.aux },
        ),
        SinkModel::ReverseFixed { width, null } => Ok(
            BufferState { data: buffers.data + null, aux: buffers.aux },
        ),
        SinkModel::NanoTimestamp { null } => Ok(
            BufferState { data: buffers.data + null, aux: buffers.aux },
        ),
        SinkModel::IntDecimal { scale, null } => Ok(
            BufferState { data: buffers.data + null, aux: buffers.aux },
        ),
        SinkModel::Text => Ok(with_offset_entry(buffers, le_bytes(0xFFFF_FFFF, 4))),
        SinkModel::Varchar => if buffers.data.len() >= 0x1_0000_0000_0000 {
            Err(LayoutReason::SizeOverflow)
        } else {
            Ok(
                BufferState {
                    data: buffers.data,
                    aux: buffers.aux + varchar_null_entry(buffers.data.len()),
                },
            )
        },
        SinkModel::Binary => Ok(
            with_offset_entry(buffers, le_bytes(0xFFFF_FFFF_FFFF_FFFF, 8)),
        ),
    }
}

/// The buffers as a sink prepares them before the first row of a page. A
/// column with offsets starts with the offset zero, which is written where
/// the auxiliary buffer is empty.
pub open spec fn start_page(model: SinkModel, buffers: BufferState) -> BufferState {
    match model {
        SinkModel::Text | SinkModel::Binary => if buffers.aux.len() == 0 {
            BufferState { data: buffers.data, aux: le_bytes(0, 8) }
        } else {
            buffers
        },
        _ => buffers,
    }
}

/// The state after one value was taken from the slicer and written.
pub open spec fn push_step(task: SinkTask, state: DecodeState) -> DecodeState {
    match state {
        Err(reason) => Err(reason),
        Ok(progress) => if progress.cursor >= task.values.len() {
            Err(task.end_reason)
        } else {
            match put_value(task.model, progress.buffers, task.values[progress.cursor as int]) {
                Err(reason) => Err(reason),
                Ok(buffers) => Ok(Progress { cursor: progress.cursor + 1, buffers }),
            }
        },
    }
}

/// The state after one null was written.
pub open spec fn null_step(task: SinkTask, state: DecodeState) -> DecodeState {
    match state {
        Err(reason) => Err(reason),
        Ok(progress) => match put_null(task.model, progress.buffers) {
            Err(reason) => Err(reason),
            Ok(buffers) => Ok(Progress { cursor: progress.cursor, buffers }),
        },
    }
}

/// The state after `count` values were passed over.
pub open spec fn skip_step(task: SinkTask, state: DecodeState, count: nat) -> DecodeState {
    match state {
        Err(reason) => Err(reason),
        Ok(progress) => if progress.cursor + count > task.values.len() {
            Err(task.end_reason)
        } else {
            Ok(Progress { cursor: progress.cursor + count, buffers: progress.buffers })
        },
    }
}

/// The state after `count` values were taken and written.
pub open spec fn push_many(task: SinkTask, state: DecodeState, count: nat) -> DecodeState
    decreases count,
{
    if count == 0 {
        state
    } else {
        push_many(task, push_step(task, state), (count - 1) as nat)
    }
}

/// The state after `count` nulls were written.
pub open spec fn null_many(task: SinkTask, state: DecodeState, count: nat) -> DecodeState
    decreases count,
{
    if count == 0 {
        state
    } else {
        null_many(task, null_step(task, state), (count - 1) as nat)
    }
}

/// The state of a decode whose slicer stands at `cursor` and whose buffers
/// hold `buffers`, or that has failed with `failure`.
pub open spec fn state_of(failure: Option<LayoutReason>, cursor: nat, buffers: BufferState)
    -> DecodeState {
    match failure {
        Some(reason) => Err(reason),
        None => Ok(Progress { cursor, buffers }),
    }
}

/// What a sink reports at the end of a page.
pub open spec fn sink_result(failure: Option<LayoutReason>) -> ParquetResult<()> {
    match failure {
        Some(reason) => Err(ParquetError::Layout(reason)),
        None => Ok(()),
    }
}

/// The consumer of the rows of a page. A failure stays: after one, the
/// calls that follow change nothing, and `result` reports it.
pub trait Pushable {
    spec fn inv(&self) -> bool;

    /// The task of the sink, which stays the same for as long as it lives.
    spec fn task(&self) -> SinkTask;

    /// The failure that ended the decode, if one did.
    spec fn failure(&self) -> Option<LayoutReason>;

    /// The number of values taken from the slicer so far.
    spec fn cursor(&self) -> nat;

    /// Prepares the buffers for the rows of a page.
    fn reserve(&mut self, bufs: &mut ColumnChunkBuffers)
        requires
            old(self).inv(),
        ensures
            final(self).inv(),
            final(self).task() == old(self).task(),
            final(self).failure() == old(self).failure(),
            final(self).cursor() == old(self).cursor(),
            final(bufs)@ == start_page(old(self).task().model, old(bufs)@),
    ;

    /// Takes one value from the slicer and writes it.
    fn push(&mut self, bufs: &mut ColumnChunkBuffers)
        requires
            old(self).inv(),
        ensures
            final(self).inv(),
            final(self).task() == old(self).task(),
            state_of(final(self).failure(), final(self).cursor(), final(bufs)@) == push_step(
                old(self).task(),
                state_of(old(self).failure(), old(self).cursor(), old(bufs)@),
            ),
    ;

    /// Writes one null.
    fn push_null(&mut self, bufs: &mut ColumnChunkBuffers)
        requires
            old(self).inv(),
        ensures
            final(self).inv(),
            final(self).task() == old(self).task(),
            state_of(final(self).failure(), final(self).cursor(), final(bufs)@) == null_step(
                old(self).task(),
                state_of(old(self).failure(), old(self).cursor(), old(bufs)@),
            ),
    ;

    /// Passes over `count` values of the slicer without writing.
    fn skip(&mut self, count: usize)
        requires
            old(self).inv(),
        ensures
            final(self).inv(),
            final(self).task() == old(self).task(),
            forall|buffers: BufferState|
                state_of(final(self).failure(), final(self).cursor(), buffers) == skip_step(
                    old(self).task(),
                    #[trigger] state_of(old(self).failure(), old(self).cursor(), buffers),
                    count as nat,
                ),
    ;

    /// The failure that ended the decode, if one did.
    fn result(&self) -> (res: ParquetResult<()>)
        requires
            self.inv(),
        ensures
            res == sink_result(self.failure()),
    ;
}

/// The part of a sink that knows the destination format: it writes one
/// value, or one null, to the buffers.
pub trait ValueWriter {
    /// How the writer writes.
    spec fn model(&self) -> SinkModel;

    /// Prepares the buffers for a page of `rows` rows whose values take about
    /// `bytes` bytes.
    fn start(&self, bufs: &mut ColumnChunkBuffers, rows: usize, bytes: usize)
        ensures
            final(bufs)@ == start_page(self.model(), old(bufs)@),
    ;

    /// Writes the value `raw`, or says what stands in the way.
    fn write(&self, raw: &[u8], bufs: &mut ColumnChunkBuffers) -> (res: Result<(), LayoutReason>)
        ensures
            match put_value(self.model(), old(bufs)@, raw@) {
                Ok(buffers) => res is Ok && final(bufs)@ == buffers,
                Err(reason) => res == Err::<(), LayoutReason>(reason),
            },
    ;

    /// Writes a null, or says what stands in the way.
    fn write_null(&self, bufs: &mut ColumnChunkBuffers) -> (res: Result<(), LayoutReason>)
        ensures
            match put_null(self.model(), old(bufs)@) {
                Ok(buffers) => res is Ok && final(bufs)@ == buffers,
                Err(reason) => res == Err::<(), LayoutReason>(reason),
            },
    ;
}

/// The failure of a sink that has failed with `own`, or whose slicer stands
/// at `cursor`.
pub open spec fn failure_of(
    own: Option<LayoutReason>,
    cursor: Option<nat>,
    end_reason: LayoutReason,
) -> Option<LayoutReason> {
    match own {
        Some(reason) => Some(reason),
        None => match cursor {
            Some(_) => None,
            None => Some(end_reason),
        },
    }
}

/// The place of a slicer as a number, zero after a read past its end.
pub open spec fn place_of(cursor: Option<nat>) -> nat {
    match cursor {
        Some(at) => at,
        None => 0,
    }
}

/// A sink made of a slicer, which reads the values of one encoding, and a
/// writer, which writes them in one destination format.
pub struct ColumnSink<T: DataPageSlicer, W: ValueWriter> {
    slicer: T,
    writer: W,
    scratch: Vec<u8>,
    failure: Option<LayoutReason>,
}

impl<T: DataPageSlicer, W: ValueWriter> ColumnSink<T, W> {
    /// A sink that takes its values from `slicer` and writes them with `writer`.
    pub fn new(slicer: T, writer: W) -> (sink: Self)
        requires
            slicer.inv(),
            slicer.cursor() is Some,
        ensures
            sink.inv(),
            sink.task() == (SinkTask {
                model: writer.model(),
                values: slicer.values(),
                end_reason: slicer.end_reason(),
            }),
            sink.failure() is None,
            sink.cursor() == slicer.cursor().unwrap(),
    {
        ColumnSink { slicer, writer, scratch: Vec::new(), failure: None }
    }
}

impl<T: DataPageSlicer, W: ValueWriter> Pushable for ColumnSink<T, W> {
    closed spec fn inv(&self) -> bool {
        self.slicer.inv()
    }

    closed spec fn task(&self) -> SinkTask {
        SinkTask {
            model: self.writer.model(),
            values: self.slicer.values(),
            end_reason: self.slicer.end_reason(),
        }
    }

    closed spec fn failure(&self) -> Option<LayoutReason> {
        failure_of(self.failure, self.slicer.cursor(), self.slicer.end_reason())
    }

    closed spec fn cursor(&self) -> nat {
        place_of(self.slicer.cursor())
    }

    fn reserve(&mut self, bufs: &mut ColumnChunkBuffers) {
        let rows: usize = self.slicer.count();
        let bytes: usize = self.slicer.data_size();
        self.writer.start(bufs, rows, bytes);
    }

    fn push(&mut self, bufs: &mut ColumnChunkBuffers) {
        if self.failure.is_some() {
            return ;
        }
        self.scratch.clear();
        if !self.slicer.next_into(&mut self.scratch) {
            return ;
        }
        match self.writer.write(self.scratch.as_slice(), bufs) {
            Ok(()) => {},
            Err(reason) => {
                self.failure = Some(reason);
            },
        }
    }

    fn push_null(&mut self, bufs: &mut ColumnChunkBuffers) {
        if self.failure.is_some() || self.slicer.result().is_err() {
            return ;
        }
        match self.writer.write_null(bufs) {
            Ok(()) => {},
            Err(reason) => {
                self.failure = Some(reason);
            },
        }
        proof {
            assert(self.slicer.cursor() is Some);
        }
    }

    fn skip(&mut self, count: usize) {
        if self.failure.is_some() {
            return ;
        }
        self.slicer.skip(count);
    }

    fn result(&self) -> (res: ParquetResult<()>) {
        match self.failure {
            Some(reason) => Err(ParquetError::Layout(reason)),
            None => self.slicer.result(),
        }
    }
}

/// The state of the decode that a sink and its buffers are in.
pub open spec fn sink_state<T: Pushable>(sink: &T, bufs: &ColumnChunkBuffers) -> DecodeState {
    state_of(sink.failure(), sink.cursor(), bufs@)
}

/// Takes `count` values from the slicer and writes them.
pub fn push_slice<T: Pushable>(sink: &mut T, bufs: &mut ColumnChunkBuffers, count: usize)
    requires
        old(sink).inv(),
    ensures
        final(sink).inv(),
        final(sink).task() == old(sink).task(),
        sink_state(final(sink), final(bufs)) == push_many(
            old(sink).task(),
            sink_state(old(sink), old(bufs)),
            count as nat,
        ),
{
    let mut done: usize = 0;
    while done < count
        invariant
            done <= count,
            sink.inv(),
            sink.task() == old(sink).task(),
            push_many(old(sink).task(), sink_state(old(sink), old(bufs)), count as nat)
                == push_many(sink.task(), sink_state(sink, bufs), (count - done) as nat),
        decreases count - done,
    {
        sink.push(bufs);
        done = done + 1;
    }
}

/// Writes `count` nulls.
pub fn push_nulls<T: Pushable>(sink: &mut T, bufs: &mut ColumnChunkBuffers, count: usize)
    requires
        old(sink).inv(),
    ensures
        final(sink).inv(),
        final(sink).task() == old(sink).task(),
        sink_state(final(sink), final(bufs)) == null_many(
            old(sink).task(),
            sink_state(old(sink), old(bufs)),
            count as nat,
        ),
{
    let mut done: usize = 0;
    while done < count
        invariant
            done <= count,
            sink.inv(),
            sink.task() == old(sink).task(),
            null_many(old(sink).task(), sink_state(old(sink), old(bufs)), count as nat)
                == null_many(sink.task(), sink_state(sink, bufs), (count - done) as nat),
        decreases count - done,
    {
        sink.push_null(bufs);
        done = done + 1;
    }
}

} // verus!
