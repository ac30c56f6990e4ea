//! What holds of every decode: the layout of the rows that a page writes
//! to a column of fixed width, the place of the nulls in it, the number of
//! rows, and the agreement of the columns of a request.

use crate::bits::bit_at;
use crate::buffers::{BufferState, ColumnChunkBuffers};
use crate::bytes::{
    as_signed, as_unsigned, le_bytes, le_value, lemma_le_bytes_len, lemma_le_value_of_le_bytes,
    lemma_pow256_values,
};
use crate::col_type::{ColumnType, ColumnTypeTag};
use crate::decimal::decimal_double_bits;
use crate::decode::{
    apply_bitmap, apply_intervals, apply_run, apply_runs, bit_step, page_outcome, run_rows,
    runs_fault, started, total_rows,
};
use crate::dispatch::{
    cleared, decoder_page_outcome, discriminators_of, plan_values, sink_model,
};
use crate::error::{LayoutReason, ParquetError, ParquetResult};
use crate::meta::{meta_entry_at, ParquetDecoder};
use crate::page::{page_regions, DataPage, DictPage, Interval, Page};
use crate::plan::decode_plan;
use crate::qdb_metadata::{ids_distinct, QdbMetaCol, QdbMetaColumn};
use crate::row_group::{coerced, ParquetColumnIndex};
use crate::runs::{intervals_ok, null_bitmap_of, selected_rows_of, selected_total, RunModel};
use crate::sink::{
    ascii_flag, nano_timestamp_micros, null_many, null_step, push_many, push_step, put_null,
    put_value, skip_step, start_page, DecodeState, Progress, SinkModel, SinkTask,
};
use crate::slicer::fixed::fixed_values;
use crate::slicer::plain_var::plain_var_values;
use crate::text::utf8_to_utf16;
use vstd::prelude::*;

verus! {

/// The number of bytes of a row of a column of fixed width, or `None` for
/// a column of variable length.
pub open spec fn row_width(model: SinkModel) -> Option<nat> {
    match model {
        SinkModel::Fixed { width, .. } => Some(width),
        SinkModel::ReverseFixed { width, .. } => Some(width),
        SinkModel::NanoTimestamp { .. } => Some(8nat),
        SinkModel::IntDecimal { .. } => Some(8nat),
        _ => None,
    }
}

/// The null value of a column of fixed width.
pub open spec fn null_of(model: SinkModel) -> Seq<u8> {
    match model {
        SinkModel::Fixed { null, .. } => null,
        SinkModel::ReverseFixed { null, .. } => null,
        SinkModel::NanoTimestamp { null } => null,
        SinkModel::IntDecimal { null, .. } => null,
        _ => Seq::empty(),
    }
}

/// A row of a page: the index of the value that it holds, or `None` for a null.
pub type Row = Option<nat>;

/// The rows of a run of bits, for a slicer that stands at `cursor`.
pub open spec fn bitmap_rows(values: Seq<u8>, from: nat, count: nat, cursor: nat) -> Seq<Row>
    decreases count,
{
    if count == 0 {
        Seq::empty()
    } else if bit_at(values, from) {
        seq![Some(cursor)] + bitmap_rows(values, from + 1, (count - 1) as nat, cursor + 1)
    } else {
        seq![None] + bitmap_rows(values, from + 1, (count - 1) as nat, cursor)
    }
}

/// The place of the slicer after a run of bits.
pub open spec fn bitmap_cursor(values: Seq<u8>, from: nat, count: nat, cursor: nat) -> nat
    decreases count,
{
    if count == 0 {
        cursor
    } else if bit_at(values, from) {
        bitmap_cursor(values, from + 1, (count - 1) as nat, cursor + 1)
    } else {
        bitmap_cursor(values, from + 1, (count - 1) as nat, cursor)
    }
}

/// The rows that a run writes, for a slicer that stands at `cursor`. Rows
/// that were not selected are not written.
pub open spec fn rows_of_run(run: RunModel, cursor: nat) -> Seq<Row> {
    match run {
        RunModel::Bitmap { values, offset, length } => bitmap_rows(values, offset, length, cursor),
        RunModel::Repeated { is_set, length } => if is_set {
            Seq::new(length, |i: int| Some((cursor + i) as nat))
        } else {
            Seq::new(length, |i: int| None)
        },
        RunModel::Skipped(_) => Seq::empty(),
    }
}

/// The place of the slicer after a run. The values of rows that were not
/// selected are passed over.
pub open spec fn cursor_after_run(run: RunModel, cursor: nat) -> nat {
    match run {
        RunModel::Bitmap { values, offset, length } => bitmap_cursor(
            values,
            offset,
            length,
            cursor,
        ),
        RunModel::Repeated { is_set, length } => if is_set {
            cursor + length
        } else {
            cursor
        },
        RunModel::Skipped(valids) => cursor + valids,
    }
}

/// The rows that the runs of a page write, for a slicer that stands at `cursor`.
pub open spec fn rows_of(runs: Seq<RunModel>, cursor: nat) -> Seq<Row>
    decreases runs.len(),
{
    if runs.len() == 0 {
        Seq::empty()
    } else {
        rows_of_run(runs[0], cursor) + rows_of(runs.skip(1), cursor_after_run(runs[0], cursor))
    }
}

/// The place of the slicer after the runs of a page.
pub open spec fn cursor_after(runs: Seq<RunModel>, cursor: nat) -> nat
    decreases runs.len(),
{
    if runs.len() == 0 {
        cursor
    } else {
        cursor_after(runs.skip(1), cursor_after_run(runs[0], cursor))
    }
}

/// The bytes of a row of a column of fixed width: the value as the sink
/// writes it, or the null value.
pub open spec fn row_bytes(task: SinkTask, row: Row) -> Seq<u8> {
    match row {
        None => null_of(task.model),
        Some(index) => match put_value(
            task.model,
            BufferState { data: Seq::empty(), aux: Seq::empty() },
            task.values[index as int],
        ) {
            Ok(buffers) => buffers.data,
            Err(_) => Seq::empty(),
        },
    }
}

/// The bytes of rows of a column of fixed width, one after the other.
pub open spec fn rows_bytes(task: SinkTask, rows: Seq<Row>) -> Seq<u8>
    decreases rows.len(),
{
    if rows.len() == 0 {
        Seq::empty()
    } else {
        row_bytes(task, rows[0]) + rows_bytes(task, rows.skip(1))
    }
}

/// The bytes of rows written one after the other are the bytes of the
/// first rows, then those of the rest.
pub proof fn lemma_rows_bytes_concat(task: SinkTask, first: Seq<Row>, second: Seq<Row>)
    ensures
        rows_bytes(task, first + second) == rows_bytes(task, first) + rows_bytes(task, second),
    decreases first.len(),
{
    if first.len() == 0 {
        assert(first + second =~= second);
        assert(rows_bytes(task, first) + rows_bytes(task, second) =~= rows_bytes(task, second));
    } else {
        assert((first + second)[0] == first[0]);
        assert((first + second).skip(1) =~= first.skip(1) + second);
        lemma_rows_bytes_concat(task, first.skip(1), second);
        assert(row_bytes(task, first[0]) + (rows_bytes(task, first.skip(1)) + rows_bytes(
            task,
            second,
        )) =~= (row_bytes(task, first[0]) + rows_bytes(task, first.skip(1))) + rows_bytes(
            task,
            second,
        ));
    }
}

/// A failure stays: no row can follow it.
pub proof fn lemma_failure_stays(task: SinkTask, reason: LayoutReason, runs: Seq<RunModel>)
    ensures
        apply_runs(task, Err(reason), runs) == Err::<Progress, LayoutReason>(reason),
    decreases runs.len(),
{
    if runs.len() > 0 {
        lemma_run_failure_stays(task, reason, runs[0]);
        lemma_failure_stays(task, reason, runs.skip(1));
    }
}

/// A failure stays through a run.
pub proof fn lemma_run_failure_stays(task: SinkTask, reason: LayoutReason, run: RunModel)
    ensures
        apply_run(task, Err(reason), run) == Err::<Progress, LayoutReason>(reason),
{
    match run {
        RunModel::Bitmap { values, offset, length } => {
            lemma_bitmap_failure_stays(task, reason, values, offset, length);
        },
        RunModel::Repeated { is_set, length } => {
            lemma_many_failure_stays(task, reason, length);
        },
        RunModel::Skipped(_) => {},
    }
}

/// A failure stays through a run of bits.
pub proof fn lemma_bitmap_failure_stays(
    task: SinkTask,
    reason: LayoutReason,
    values: Seq<u8>,
    from: nat,
    count: nat,
)
    ensures
        apply_bitmap(task, Err(reason), values, from, count) == Err::<Progress, LayoutReason>(
            reason,
        ),
    decreases count,
{
    if count > 0 {
        lemma_bitmap_failure_stays(task, reason, values, from + 1, (count - 1) as nat);
    }
}

/// A failure stays through a run of values and a run of nulls.
pub proof fn lemma_many_failure_stays(task: SinkTask, reason: LayoutReason, count: nat)
    ensures
        push_many(task, Err(reason), count) == Err::<Progress, LayoutReason>(reason),
        null_many(task, Err(reason), count) == Err::<Progress, LayoutReason>(reason),
    decreases count,
{
    if count > 0 {
        lemma_many_failure_stays(task, reason, (count - 1) as nat);
    }
}

/// Whether a row is one that the sink can write: a null, or a value that is
/// there and that the sink can convert.
pub open spec fn row_written(task: SinkTask, row: Row) -> bool {
    match row {
        None => true,
        Some(index) => index < task.values.len() && put_value(
            task.model,
            BufferState { data: Seq::empty(), aux: Seq::empty() },
            task.values[index as int],
        ) is Ok,
    }
}

/// What a decode into a column of fixed width has written when it has come
/// from `before` to `after`: `rows`, after what the primary buffer held,
/// and nothing to the auxiliary buffer; and its slicer stands at `cursor`.
pub open spec fn wrote_rows(
    task: SinkTask,
    before: Progress,
    after: Progress,
    rows: Seq<Row>,
    cursor: nat,
) -> bool {
    &&& after.cursor == cursor
    &&& after.buffers.aux == before.buffers.aux
    &&& after.buffers.data == before.buffers.data + rows_bytes(task, rows)
    &&& forall|i: int| 0 <= i < rows.len() ==> row_written(task, #[trigger] rows[i])
}

/// One value, written to a column of fixed width, is the bytes of its row.
pub proof fn lemma_push_step_writes_row(task: SinkTask, before: Progress)
    requires
        row_width(task.model) is Some,
        push_step(task, Ok(before)) is Ok,
    ensures
        wrote_rows(
            task,
            before,
            push_step(task, Ok(before)).unwrap(),
            seq![Some(before.cursor)],
            before.cursor + 1,
        ),
{
    let rows: Seq<Row> = seq![Some(before.cursor)];
    assert(rows.skip(1) =~= Seq::<Row>::empty());
    let raw = task.values[before.cursor as int];
    let empty = BufferState { data: Seq::empty(), aux: Seq::empty() };
    assert(put_value(task.model, before.buffers, raw) is Ok);
    assert(put_value(task.model, empty, raw) is Ok);
    let written = put_value(task.model, empty, raw).unwrap().data;
    assert(put_value(task.model, before.buffers, raw).unwrap().data =~= before.buffers.data
        + written) by {
        assert(Seq::<u8>::empty() + written =~= written);
        match task.model {
            SinkModel::Fixed { width, null } => {
                assert(Seq::<u8>::empty() + raw.subrange(0, width as int) =~= raw.subrange(
                    0,
                    width as int,
                ));
            },
            SinkModel::ReverseFixed { width, null } => {
                assert(Seq::<u8>::empty() + raw.subrange(0, width as int).reverse()
                    =~= raw.subrange(0, width as int).reverse());
            },
            SinkModel::NanoTimestamp { null } => {
                let bytes = le_bytes(
                    as_unsigned(nano_timestamp_micros(raw), 8),
                    8,
                );
                assert(Seq::<u8>::empty() + bytes =~= bytes);
            },
            SinkModel::IntDecimal { scale, null } => {
                let value = as_signed(
                    le_value(raw.subrange(0, 4)),
                    4,
                );
                let bytes = le_bytes(
                    decimal_double_bits(value, scale) as nat,
                    8,
                );
                assert(Seq::<u8>::empty() + bytes =~= bytes);
            },
            _ => {},
        }
    }
    assert(rows_bytes(task, rows) =~= written) by {
        assert(rows_bytes(task, rows.skip(1)) =~= Seq::<u8>::empty());
        assert(written + Seq::<u8>::empty() =~= written);
    }
}

/// One null, written to a column of fixed width, is the null value.
pub proof fn lemma_null_step_writes_row(task: SinkTask, before: Progress)
    requires
        row_width(task.model) is Some,
    ensures
        null_step(task, Ok(before)) is Ok,
        wrote_rows(task, before, null_step(task, Ok(before)).unwrap(), seq![None], before.cursor),
{
    let rows: Seq<Row> = seq![None];
    assert(rows.skip(1) =~= Seq::<Row>::empty());
    assert(rows_bytes(task, rows) =~= null_of(task.model)) by {
        assert(rows_bytes(task, rows.skip(1)) =~= Seq::<u8>::empty());
        assert(null_of(task.model) + Seq::<u8>::empty() =~= null_of(task.model));
    }
}

/// Rows written after rows are the rows written in one.
pub proof fn lemma_wrote_rows_then(
    task: SinkTask,
    before: Progress,
    between: Progress,
    after: Progress,
    first: Seq<Row>,
    second: Seq<Row>,
    cursor: nat,
)
    requires
        wrote_rows(task, before, between, first, between.cursor),
        wrote_rows(task, between, after, second, cursor),
    ensures
        wrote_rows(task, before, after, first + second, cursor),
{
    lemma_rows_bytes_concat(task, first, second);
    assert(before.buffers.data + (rows_bytes(task, first) + rows_bytes(task, second)) =~= (
    before.buffers.data + rows_bytes(task, first)) + rows_bytes(task, second));
}

/// A run of values writes their rows.
pub proof fn lemma_push_many_writes_rows(task: SinkTask, before: Progress, count: nat)
    requires
        row_width(task.model) is Some,
        push_many(task, Ok(before), count) is Ok,
    ensures
        wrote_rows(
            task,
            before,
            push_many(task, Ok(before), count).unwrap(),
            Seq::new(count, |i: int| Some((before.cursor + i) as nat)),
            before.cursor + count,
        ),
    decreases count,
{
    let rows: Seq<Row> = Seq::new(count, |i: int| Some((before.cursor + i) as nat));
    if count == 0 {
        assert(rows =~= Seq::<Row>::empty());
        assert(before.buffers.data + rows_bytes(task, rows) =~= before.buffers.data);
    } else {
        let next = push_step(task, Ok(before));
        if next is Err {
            lemma_many_failure_stays(task, next->Err_0, (count - 1) as nat);
        }
        let between = next.unwrap();
        lemma_push_step_writes_row(task, before);
        lemma_push_many_writes_rows(task, between, (count - 1) as nat);
        let rest: Seq<Row> = Seq::new(
            (count - 1) as nat,
            |i: int| Some((between.cursor + i) as nat),
        );
        let first: Seq<Row> = seq![Some(before.cursor)];
        assert(first + rest =~= rows);
        lemma_wrote_rows_then(
            task,
            before,
            between,
            push_many(task, Ok(before), count).unwrap(),
            first,
            rest,
            before.cursor + count,
        );
    }
}

/// A run of nulls writes their rows.
pub proof fn lemma_null_many_writes_rows(task: SinkTask, before: Progress, count: nat)
    requires
        row_width(task.model) is Some,
    ensures
        null_many(task, Ok(before), count) is Ok,
        wrote_rows(
            task,
            before,
            null_many(task, Ok(before), count).unwrap(),
            Seq::new(count, |i: int| None),
            before.cursor,
        ),
    decreases count,
{
    let rows: Seq<Row> = Seq::new(count, |i: int| None);
    if count == 0 {
        assert(rows =~= Seq::<Row>::empty());
        assert(before.buffers.data + rows_bytes(task, rows) =~= before.buffers.data);
    } else {
        lemma_null_step_writes_row(task, before);
        let between = null_step(task, Ok(before)).unwrap();
        lemma_null_many_writes_rows(task, between, (count - 1) as nat);
        let rest: Seq<Row> = Seq::new((count - 1) as nat, |i: int| None);
        let first: Seq<Row> = seq![None];
        assert(first + rest =~= rows);
        lemma_wrote_rows_then(
            task,
            before,
            between,
            null_many(task, Ok(before), count).unwrap(),
            first,
            rest,
            before.cursor,
        );
    }
}

/// A run of bits writes its rows.
pub proof fn lemma_bitmap_writes_rows(
    task: SinkTask,
    before: Progress,
    values: Seq<u8>,
    from: nat,
    count: nat,
)
    requires
        row_width(task.model) is Some,
        apply_bitmap(task, Ok(before), values, from, count) is Ok,
    ensures
        wrote_rows(
            task,
            before,
            apply_bitmap(task, Ok(before), values, from, count).unwrap(),
            bitmap_rows(values, from, count, before.cursor),
            bitmap_cursor(values, from, count, before.cursor),
        ),
    decreases count,
{
    if count == 0 {
        assert(before.buffers.data + rows_bytes(task, Seq::<Row>::empty())
            =~= before.buffers.data);
    } else {
        let next = bit_step(task, Ok(before), values, from);
        if next is Err {
            lemma_bitmap_failure_stays(task, next->Err_0, values, from + 1, (count - 1) as nat);
        }
        let between = next.unwrap();
        let first: Seq<Row> = if bit_at(values, from) {
            seq![Some(before.cursor)]
        } else {
            seq![None]
        };
        if bit_at(values, from) {
            lemma_push_step_writes_row(task, before);
        } else {
            lemma_null_step_writes_row(task, before);
        }
        lemma_bitmap_writes_rows(task, between, values, from + 1, (count - 1) as nat);
        lemma_wrote_rows_then(
            task,
            before,
            between,
            apply_bitmap(task, Ok(before), values, from, count).unwrap(),
            first,
            bitmap_rows(values, from + 1, (count - 1) as nat, between.cursor),
            bitmap_cursor(values, from, count, before.cursor),
        );
    }
}

/// The rows of a page in a column of fixed width. Where a decode of the
/// runs of a page succeeds, the primary buffer holds, after what it held
/// before, the bytes of each selected row in order: the value of the
/// row, converted, or the null value where the row is null. The value of a
/// row is the one at the index that counts the values of all the rows
/// before it, those that were not selected too. The auxiliary buffer is as
/// it was.
pub proof fn lemma_page_writes_rows(task: SinkTask, before: Progress, runs: Seq<RunModel>)
    requires
        row_width(task.model) is Some,
        apply_runs(task, Ok(before), runs) is Ok,
    ensures
        wrote_rows(
            task,
            before,
            apply_runs(task, Ok(before), runs).unwrap(),
            rows_of(runs, before.cursor),
            cursor_after(runs, before.cursor),
        ),
    decreases runs.len(),
{
    if runs.len() == 0 {
        assert(before.buffers.data + rows_bytes(task, Seq::<Row>::empty())
            =~= before.buffers.data);
    } else {
        let next = apply_run(task, Ok(before), runs[0]);
        if next is Err {
            lemma_failure_stays(task, next->Err_0, runs.skip(1));
        }
        let between = next.unwrap();
        match runs[0] {
            RunModel::Bitmap { values, offset, length } => {
                lemma_bitmap_writes_rows(task, before, values, offset, length);
            },
            RunModel::Repeated { is_set, length } => {
                if is_set {
                    lemma_push_many_writes_rows(task, before, length);
                } else {
                    lemma_null_many_writes_rows(task, before, length);
                }
            },
            RunModel::Skipped(valids) => {
                assert(before.buffers.data + rows_bytes(task, Seq::<Row>::empty())
                    =~= before.buffers.data);
            },
        }
        lemma_page_writes_rows(task, between, runs.skip(1));
        lemma_wrote_rows_then(
            task,
            before,
            between,
            apply_runs(task, Ok(before), runs).unwrap(),
            rows_of_run(runs[0], before.cursor),
            rows_of(runs.skip(1), between.cursor),
            cursor_after(runs, before.cursor),
        );
    }
}

/// A row of a column of fixed width that was written has the width of
/// the column, where the null value has it.
pub proof fn lemma_row_has_width(task: SinkTask, row: Row)
    requires
        row_width(task.model) is Some,
        null_of(task.model).len() == row_width(task.model).unwrap(),
        row_written(task, row),
    ensures
        row_bytes(task, row).len() == row_width(task.model).unwrap(),
{
    if let Some(index) = row {
        let raw = task.values[index as int];
        match task.model {
            SinkModel::NanoTimestamp { null } => {
                lemma_le_bytes_len(
                    as_unsigned(nano_timestamp_micros(raw), 8),
                    8,
                );
            },
            SinkModel::IntDecimal { scale, null } => {
                let value = as_signed(
                    le_value(raw.subrange(0, 4)),
                    4,
                );
                lemma_le_bytes_len(
                    decimal_double_bits(value, scale) as nat,
                    8,
                );
            },
            _ => {},
        }
    }
}

/// Among rows of one width, each row lies at its index times the width.
pub proof fn lemma_row_slot(task: SinkTask, rows: Seq<Row>, width: nat, at: int)
    requires
        forall|i: int| 0 <= i < rows.len() ==> row_bytes(task, #[trigger] rows[i]).len() == width,
        0 <= at < rows.len(),
    ensures
        rows_bytes(task, rows).len() == width * rows.len(),
        (at + 1) * width <= rows_bytes(task, rows).len(),
        rows_bytes(task, rows).subrange(at * width, (at + 1) * width) == row_bytes(
            task,
            rows[at],
        ),
    decreases rows.len(),
{
    let rest = rows.skip(1);
    assert forall|i: int| 0 <= i < rest.len() implies row_bytes(task, #[trigger] rest[i]).len()
        == width by {
        assert(rest[i] == rows[i + 1]);
    }
    let all = rows_bytes(task, rows);
    let first = row_bytes(task, rows[0]);
    lemma_rows_bytes_len(task, rest, width);
    assert(all.len() == width * rows.len()) by (nonlinear_arith)
        requires
            all.len() == width + width * (rows.len() - 1),
    ;
    assert((at + 1) * width <= width * rows.len()) by (nonlinear_arith)
        requires
            0 <= at < rows.len(),
    ;
    if at == 0 {
        assert(at * width == 0 && (at + 1) * width == width) by (nonlinear_arith)
            requires
                at == 0,
        ;
        assert(all.subrange(0, width as int) =~= first);
    } else {
        lemma_row_slot(task, rest, width, at - 1);
        assert(at * width == (at - 1) * width + width && (at + 1) * width == at * width + width)
            by (nonlinear_arith);
        assert(all.subrange(at * width, (at + 1) * width) =~= rows_bytes(task, rest).subrange(
            (at - 1) * width,
            at * width,
        ));
        assert(rest[at - 1] == rows[at]);
    }
}

/// Rows of one width take as many bytes as their number times the width.
pub proof fn lemma_rows_bytes_len(task: SinkTask, rows: Seq<Row>, width: nat)
    requires
        forall|i: int| 0 <= i < rows.len() ==> row_bytes(task, #[trigger] rows[i]).len() == width,
    ensures
        rows_bytes(task, rows).len() == width * rows.len(),
    decreases rows.len(),
{
    if rows.len() > 0 {
        let rest = rows.skip(1);
        assert forall|i: int| 0 <= i < rest.len() implies row_bytes(
            task,
            #[trigger] rest[i],
        ).len() == width by {
            assert(rest[i] == rows[i + 1]);
        }
        lemma_rows_bytes_len(task, rest, width);
        assert(width + width * (rows.len() - 1) == width * rows.len()) by (nonlinear_arith);
    }
}

/// The rows of a decode that succeeded all have the width of the column.
pub proof fn lemma_written_rows_have_width(task: SinkTask, rows: Seq<Row>)
    requires
        row_width(task.model) is Some,
        null_of(task.model).len() == row_width(task.model).unwrap(),
        forall|i: int| 0 <= i < rows.len() ==> row_written(task, #[trigger] rows[i]),
    ensures
        forall|i: int|
            0 <= i < rows.len() ==> row_bytes(task, #[trigger] rows[i]).len() == row_width(
                task.model,
            ).unwrap(),
{
    assert forall|i: int| 0 <= i < rows.len() implies row_bytes(task, #[trigger] rows[i]).len()
        == row_width(task.model).unwrap() by {
        lemma_row_has_width(task, rows[i]);
    }
}

/// The bytes from `start + at * width` on, `width` of them, of `prefix`
/// followed by `rest`, are those of `rest` from `at * width` on.
pub proof fn lemma_slot_after_prefix(prefix: Seq<u8>, rest: Seq<u8>, width: nat, at: int)
    requires
        0 <= at,
        (at + 1) * width <= rest.len(),
    ensures
        0 <= at * width <= (at + 1) * width,
        (prefix + rest).subrange(prefix.len() + at * width, prefix.len() + (at + 1) * width)
            == rest.subrange(at * width, (at + 1) * width),
{
    assert(0 <= at * width <= (at + 1) * width) by (nonlinear_arith)
        requires
            0 <= at,
    ;
    assert((prefix + rest).subrange(
        prefix.len() + at * width,
        prefix.len() + (at + 1) * width,
    ) =~= rest.subrange(at * width, (at + 1) * width));
}

/// Every row of a page has its place. Where a decode of the runs of a page
/// into a column of fixed width succeeds, the bytes of the row `at` lie in
/// the primary buffer at `at` times the width of the column, counted from
/// where the page began: the null value where the row is null, and the
/// converted value of its index where it holds one.
pub proof fn lemma_rows_lie_at_their_places(
    task: SinkTask,
    before: Progress,
    runs: Seq<RunModel>,
    at: int,
)
    requires
        row_width(task.model) is Some,
        null_of(task.model).len() == row_width(task.model).unwrap(),
        apply_runs(task, Ok(before), runs) is Ok,
        0 <= at < rows_of(runs, before.cursor).len(),
    ensures
        ({
            let width = row_width(task.model).unwrap();
            let start = before.buffers.data.len();
            let data = apply_runs(task, Ok(before), runs).unwrap().buffers.data;
            let row = rows_of(runs, before.cursor)[at];
            &&& start + (at + 1) * width <= data.len()
            &&& data.len() == start + width * rows_of(runs, before.cursor).len()
            &&& data.subrange(start + at * width, start + (at + 1) * width) == row_bytes(
                task,
                row,
            )
            &&& row is None ==> data.subrange(start + at * width, start + (at + 1) * width)
                == null_of(task.model)
        }),
{
    let width = row_width(task.model).unwrap();
    let rows = rows_of(runs, before.cursor);
    let after = apply_runs(task, Ok(before), runs).unwrap();
    let written = rows_bytes(task, rows);
    lemma_page_writes_rows(task, before, runs);
    assert(after.buffers.data == before.buffers.data + written);
    lemma_written_rows_have_width(task, rows);
    lemma_row_slot(task, rows, width, at);
    lemma_slot_after_prefix(before.buffers.data, written, width, at);
}

/// The runs of a page write as many rows as they have rows that were selected.
pub proof fn lemma_rows_count(runs: Seq<RunModel>, cursor: nat)
    ensures
        rows_of(runs, cursor).len() == total_rows(runs),
    decreases runs.len(),
{
    if runs.len() > 0 {
        match runs[0] {
            RunModel::Bitmap { values, offset, length } => {
                lemma_bitmap_rows_count(values, offset, length, cursor);
            },
            _ => {},
        }
        lemma_rows_count(runs.skip(1), cursor_after_run(runs[0], cursor));
    }
}

/// A run of bits writes one row for each bit.
pub proof fn lemma_bitmap_rows_count(values: Seq<u8>, from: nat, count: nat, cursor: nat)
    ensures
        bitmap_rows(values, from, count, cursor).len() == count,
    decreases count,
{
    if count > 0 {
        if bit_at(values, from) {
            lemma_bitmap_rows_count(values, from + 1, (count - 1) as nat, cursor + 1);
        } else {
            lemma_bitmap_rows_count(values, from + 1, (count - 1) as nat, cursor);
        }
    }
}

/// Intervals in ascending order that do not overlap select no more rows
/// than there are indices.
pub proof fn lemma_selected_total_bound(rows: Seq<Interval>)
    requires
        intervals_ok(rows),
    ensures
        selected_total(rows) <= usize::MAX,
        rows.len() > 0 ==> rows[0].start + selected_total(rows) <= rows.last().start
            + rows.last().length,
    decreases rows.len(),
{
    if rows.len() > 0 {
        let rest = rows.skip(1);
        assert forall|i: int| 0 <= i < rest.len() implies (#[trigger] rest[i]).start
            + rest[i].length <= usize::MAX by {
            assert(rest[i] == rows[i + 1]);
        }
        assert forall|i: int| 0 <= i < rest.len() - 1 implies (#[trigger] rest[i]).start
            + rest[i].length <= rest[i + 1].start by {
            assert(rest[i] == rows[i + 1]);
            assert(rest[i + 1] == rows[i + 2]);
        }
        lemma_selected_total_bound(rest);
        if rest.len() > 0 {
            assert(rest[0] == rows[1]);
            assert(rest.last() == rows.last());
            assert(rows[0].start + rows[0].length <= rows[1].start);
        } else {
            assert(selected_total(rest) == 0);
        }
        assert(rows.last().start + rows.last().length <= usize::MAX);
    }
}

/// The rows that a page writes are as many as were selected. Where the
/// decode of a page with definition levels succeeds, the number of rows
/// that it writes is the sum of the lengths of the selected intervals.
pub proof fn lemma_written_rows_are_the_selected(
    task: SinkTask,
    page: &DataPage,
    row_count: usize,
    state: DecodeState,
    cursor: nat,
)
    requires
        page_outcome(task, page, row_count, state) is Ok,
        null_bitmap_of(page, row_count) matches Ok(Some(runs)),
    ensures
        rows_of(null_bitmap_of(page, row_count)->Ok_0->Some_0, cursor).len() == selected_total(
            selected_rows_of(page),
        ),
{
    let runs = null_bitmap_of(page, row_count)->Ok_0->Some_0;
    lemma_rows_count(runs, cursor);
    lemma_selected_total_bound(selected_rows_of(page));
    assert(runs_fault(runs, selected_total(selected_rows_of(page)) as usize) is None);
}

/// Rows that were not selected write nothing, and the values that they
/// hold are passed over: the rows that follow take the values that follow.
pub proof fn lemma_skipped_rows_write_nothing(task: SinkTask, before: Progress, valids: nat)
    requires
        apply_run(task, Ok(before), RunModel::Skipped(valids)) is Ok,
    ensures
        apply_run(task, Ok(before), RunModel::Skipped(valids)) == Ok::<Progress, LayoutReason>(
            Progress { cursor: before.cursor + valids, buffers: before.buffers },
        ),
        rows_of_run(RunModel::Skipped(valids), before.cursor).len() == 0,
{
}

/// The intervals after the first are in ascending order and do not
/// overlap where all of them are.
pub proof fn lemma_intervals_ok_rest(rows: Seq<Interval>)
    requires
        intervals_ok(rows),
        rows.len() > 0,
    ensures
        intervals_ok(rows.skip(1)),
        rows.len() > 1 ==> rows[0].start + rows[0].length <= rows.skip(1)[0].start,
{
    let rest = rows.skip(1);
    assert forall|i: int| 0 <= i < rest.len() implies (#[trigger] rest[i]).start + rest[i].length
        <= usize::MAX by {
        assert(rest[i] == rows[i + 1]);
    }
    assert forall|i: int| 0 <= i < rest.len() - 1 implies (#[trigger] rest[i]).start
        + rest[i].length <= rest[i + 1].start by {
        assert(rest[i] == rows[i + 1]);
        assert(rest[i + 1] == rows[i + 2]);
    }
    if rows.len() > 1 {
        assert(rest[0] == rows[1]);
    }
}

/// The rows that the selected intervals write of a page whose rows all
/// hold a value, for a slicer that stood at `base` at the first row of the
/// page: row `r` of the page holds the value at `base + r`.
pub open spec fn interval_rows(rows: Seq<Interval>, base: nat) -> Seq<Row>
    decreases rows.len(),
{
    if rows.len() == 0 {
        Seq::empty()
    } else {
        Seq::new(rows[0].length as nat, |i: int| Some((base + rows[0].start + i) as nat))
            + interval_rows(rows.skip(1), base)
    }
}

/// The row after the last that the intervals select, or `from` where there
/// are none.
pub open spec fn intervals_end(rows: Seq<Interval>, from: nat) -> nat {
    if rows.len() == 0 {
        from
    } else {
        (rows.last().start + rows.last().length) as nat
    }
}

/// The row of the page that is the selected row number `k`, counted from 0.
pub open spec fn selected_row(rows: Seq<Interval>, k: nat) -> nat
    decreases rows.len(),
{
    if rows.len() == 0 {
        0
    } else if k < rows[0].length {
        (rows[0].start + k) as nat
    } else {
        selected_row(rows.skip(1), (k - rows[0].length) as nat)
    }
}

/// A failure stays through the selected rows of a page.
pub proof fn lemma_intervals_failure_stays(
    task: SinkTask,
    reason: LayoutReason,
    rows: Seq<Interval>,
    from: nat,
)
    ensures
        apply_intervals(task, Err(reason), rows, from) == Err::<Progress, LayoutReason>(reason),
    decreases rows.len(),
{
    if rows.len() > 0 {
        lemma_many_failure_stays(task, reason, rows[0].length as nat);
        lemma_intervals_failure_stays(
            task,
            reason,
            rows.skip(1),
            (rows[0].start + rows[0].length) as nat,
        );
    }
}

/// One interval of selected rows, written to a column of fixed width: the
/// `gap` values before it are passed over and write nothing, and each of
/// its `length` rows holds the value at its place.
pub proof fn lemma_interval_writes_rows(task: SinkTask, before: Progress, gap: nat, length: nat)
    requires
        row_width(task.model) is Some,
        push_many(task, skip_step(task, Ok(before), gap), length) is Ok,
    ensures
        wrote_rows(
            task,
            before,
            push_many(task, skip_step(task, Ok(before), gap), length).unwrap(),
            Seq::new(length, |i: int| Some((before.cursor + gap + i) as nat)),
            before.cursor + gap + length,
        ),
{
    let skipped = skip_step(task, Ok(before), gap);
    if skipped is Err {
        lemma_many_failure_stays(task, skipped->Err_0, length);
    }
    let standing = skipped.unwrap();
    assert(standing.buffers == before.buffers);
    assert(standing.cursor == before.cursor + gap);
    lemma_push_many_writes_rows(task, standing, length);
    assert(Seq::new(length, |i: int| Some((standing.cursor + i) as nat)) =~= Seq::new(
        length,
        |i: int| Some((before.cursor + gap + i) as nat),
    ));
}

/// The selected rows of a page without definition levels, written to a
/// column of fixed width. Where the decode succeeds, the primary buffer
/// holds, after what it held before, the value of each selected row in
/// order, converted: row `r` of the page holds the value at the index at
/// which the slicer stood at the first row of the page, and `r`. So each
/// selected row holds what the decode of the whole page gives that row, and
/// the rows between the intervals are passed over. The slicer then stands
/// after the last selected row.
pub proof fn lemma_intervals_write_rows(
    task: SinkTask,
    before: Progress,
    rows: Seq<Interval>,
    from: nat,
)
    requires
        row_width(task.model) is Some,
        intervals_ok(rows),
        rows.len() > 0 ==> from <= rows[0].start,
        from <= before.cursor,
        apply_intervals(task, Ok(before), rows, from) is Ok,
    ensures
        wrote_rows(
            task,
            before,
            apply_intervals(task, Ok(before), rows, from).unwrap(),
            interval_rows(rows, (before.cursor - from) as nat),
            (before.cursor - from + intervals_end(rows, from)) as nat,
        ),
    decreases rows.len(),
{
    let base = (before.cursor - from) as nat;
    if rows.len() == 0 {
        assert(before.buffers.data + rows_bytes(task, Seq::<Row>::empty())
            =~= before.buffers.data);
    } else {
        let first = rows[0];
        let rest = rows.skip(1);
        let next = (first.start + first.length) as nat;
        let gap = (first.start - from) as nat;
        let pushed = push_many(task, skip_step(task, Ok(before), gap), first.length as nat);
        let whole = apply_intervals(task, Ok(before), rows, from);
        assert(whole == apply_intervals(task, pushed, rest, next));
        if pushed is Err {
            lemma_intervals_failure_stays(task, pushed->Err_0, rest, next);
        }
        let between = pushed.unwrap();
        lemma_interval_writes_rows(task, before, gap, first.length as nat);
        let head: Seq<Row> = Seq::new(
            first.length as nat,
            |i: int| Some((base + first.start + i) as nat),
        );
        assert(head =~= Seq::new(
            first.length as nat,
            |i: int| Some((before.cursor + gap + i) as nat),
        ));
        assert(between.cursor == base + next);
        lemma_intervals_ok_rest(rows);
        lemma_intervals_write_rows(task, between, rest, next);
        assert(intervals_end(rest, next) == intervals_end(rows, from)) by {
            if rest.len() > 0 {
                assert(rest.last() == rows.last());
            }
        }
        assert(interval_rows(rows, base) == head + interval_rows(rest, base));
        lemma_wrote_rows_then(
            task,
            before,
            between,
            whole.unwrap(),
            head,
            interval_rows(rest, base),
            (base + intervals_end(rows, from)) as nat,
        );
    }
}

/// The selected rows are as many as the intervals are long, and the
/// selected row number `k` is row `selected_row(rows, k)` of the page: it
/// holds the value that the decode of the whole page gives that row.
pub proof fn lemma_selected_rows_hold_their_values(rows: Seq<Interval>, base: nat, k: int)
    requires
        0 <= k < selected_total(rows),
    ensures
        interval_rows(rows, base).len() == selected_total(rows),
        interval_rows(rows, base)[k] == Some((base + selected_row(rows, k as nat)) as nat),
        exists|i: int|
            0 <= i < rows.len() && (#[trigger] rows[i]).start <= selected_row(rows, k as nat)
                < rows[i].start + rows[i].length,
    decreases rows.len(),
{
    lemma_interval_rows_count(rows, base);
    let rest = rows.skip(1);
    if k >= rows[0].length {
        lemma_selected_rows_hold_their_values(rest, base, k - rows[0].length);
        let i = choose|i: int|
            0 <= i < rest.len() && (#[trigger] rest[i]).start <= selected_row(
                rest,
                (k - rows[0].length) as nat,
            ) < rest[i].start + rest[i].length;
        assert(rows[i + 1] == rest[i]);
    } else {
        assert(rows[0].start <= selected_row(rows, k as nat) < rows[0].start + rows[0].length);
    }
}

/// The intervals write as many rows as they select.
pub proof fn lemma_interval_rows_count(rows: Seq<Interval>, base: nat)
    ensures
        interval_rows(rows, base).len() == selected_total(rows),
    decreases rows.len(),
{
    if rows.len() > 0 {
        lemma_interval_rows_count(rows.skip(1), base);
    }
}

/// The decode of a page without definition levels writes the rows that the
/// page selects. Where the decode into a column of fixed width succeeds,
/// the rows that it has written are the selected rows, each with the
/// value at its place in the page, and they are as many as the intervals
/// are long.
pub proof fn lemma_page_without_levels_writes_the_selected(
    task: SinkTask,
    page: &DataPage,
    row_count: usize,
    before: Progress,
)
    requires
        row_width(task.model) is Some,
        null_bitmap_of(page, row_count) == Ok::<Option<Seq<RunModel>>, ParquetError>(None),
        page.selected_rows is Some,
        page_outcome(task, page, row_count, Ok(before)) is Ok,
    ensures
        ({
            let rows = page.selected_rows->Some_0@;
            let begun = Progress {
                cursor: before.cursor,
                buffers: start_page(task.model, before.buffers),
            };
            &&& wrote_rows(
                task,
                begun,
                page_outcome(task, page, row_count, Ok(before)).unwrap(),
                interval_rows(rows, before.cursor),
                before.cursor + intervals_end(rows, 0),
            )
            &&& interval_rows(rows, before.cursor).len() == selected_total(rows)
        }),
{
    let rows = page.selected_rows->Some_0@;
    let begun = Progress { cursor: before.cursor, buffers: start_page(task.model, before.buffers) };
    assert(started(task, Ok(before)) == Ok::<Progress, LayoutReason>(begun));
    lemma_intervals_write_rows(task, begun, rows, 0);
    lemma_interval_rows_count(rows, before.cursor);
}

/// The rows that a page of `row_count` rows writes, each with the index of
/// the value that it holds or as a null: as the runs of its definition
/// levels say where it holds levels; else every row with a value, and of
/// those the rows that the page selects.
pub open spec fn page_rows(page: &DataPage, row_count: usize) -> Seq<Row> {
    match null_bitmap_of(page, row_count) {
        Ok(Some(runs)) => rows_of(runs, 0),
        Ok(None) => match page.selected_rows {
            Some(rows) => interval_rows(rows@, 0),
            None => Seq::new(row_count as nat, |i: int| Some(i as nat)),
        },
        Err(_) => Seq::empty(),
    }
}

/// What a page gives in every cell of fixed width. Where the decode of a
/// page succeeds, the page has its regions, its cell has a plan, and the
/// slicer of the plan has read the values of the page. Where the column
/// is of fixed width, the primary buffer then holds, after what it held,
/// one entry for each row that the page writes, in order: the value of the
/// row as the sink of the cell converts it, or the null value of the
/// column where the row is null. The auxiliary buffer is as it was.
pub proof fn lemma_page_of_a_cell_writes_its_rows(
    page: &DataPage,
    dict: Option<DictPage>,
    buffers: BufferState,
    col_info: QdbMetaCol,
)
    requires
        decoder_page_outcome(page, dict, buffers, col_info) is Ok,
    ensures
        page_regions(page) is Some,
        decode_plan(discriminators_of(page, dict is Some, col_info)) is Ok,
        ({
            let rows = page.spec_num_values();
            let plan = decode_plan(discriminators_of(page, dict is Some, col_info))->Ok_0;
            let values = plan_values(
                plan.slicer,
                page_regions(page)->Some_0.values,
                dict,
                rows as nat,
            );
            let task = SinkTask {
                model: sink_model(plan.sink),
                values: values->Ok_0.values,
                end_reason: values->Ok_0.end_reason,
            };
            let held = cleared(buffers, plan.clears_aux);
            let after = decoder_page_outcome(page, dict, buffers, col_info)->Ok_0;
            &&& values is Ok
            &&& row_width(task.model) is Some ==> {
                &&& after.aux == held.aux
                &&& after.data == held.data + rows_bytes(task, page_rows(page, rows))
                &&& forall|i: int|
                    0 <= i < page_rows(page, rows).len() ==> row_written(
                        task,
                        #[trigger] page_rows(page, rows)[i],
                    )
            }
        }),
{
    reveal(decoder_page_outcome);
    let rows = page.spec_num_values();
    let plan = decode_plan(discriminators_of(page, dict is Some, col_info))->Ok_0;
    let values = plan_values(plan.slicer, page_regions(page)->Some_0.values, dict, rows as nat);
    let task = SinkTask {
        model: sink_model(plan.sink),
        values: values->Ok_0.values,
        end_reason: values->Ok_0.end_reason,
    };
    let held = cleared(buffers, plan.clears_aux);
    if row_width(task.model) is Some {
        let begun = Progress { cursor: 0, buffers: held };
        assert(start_page(task.model, held) == held);
        assert(started(task, Ok(begun)) == Ok::<Progress, LayoutReason>(begun));
        assert(page_outcome(task, page, rows, Ok(begun)) is Ok);
        match null_bitmap_of(page, rows) {
            Ok(Some(runs)) => {
                lemma_page_writes_rows(task, begun, runs);
            },
            Ok(None) => match page.selected_rows {
                Some(selected) => {
                    lemma_intervals_write_rows(task, begun, selected@, 0);
                },
                None => {
                    lemma_push_many_writes_rows(task, begun, rows as nat);
                    assert(Seq::new(rows as nat, |i: int| Some((begun.cursor + i) as nat))
                        =~= page_rows(page, rows));
                },
            },
            Err(_) => {},
        }
    }
}

/// A null row of a column of variable length is written as the null entry
/// of the column, whatever the values of the page are.
pub proof fn lemma_null_row_is_the_null_entry(task: SinkTask, before: Progress)
    ensures
        match put_null(task.model, before.buffers) {
            Ok(buffers) => null_step(task, Ok(before)) == Ok::<Progress, LayoutReason>(
                Progress { cursor: before.cursor, buffers },
            ),
            Err(reason) => null_step(task, Ok(before)) == Err::<Progress, LayoutReason>(reason),
        },
{
}

/// The number of bytes that a row adds to the auxiliary buffer: sixteen
/// for text kept as UTF-8, eight for the other columns of variable length,
/// none for a column of fixed width.
pub open spec fn aux_entry_width(model: SinkModel) -> nat {
    match model {
        SinkModel::Varchar => 16,
        SinkModel::Text | SinkModel::Binary => 8,
        _ => 0,
    }
}

/// Whether the auxiliary buffer has grown by one entry for each of `rows` rows.
pub open spec fn aux_grew(task: SinkTask, before: Progress, after: Progress, rows: nat) -> bool {
    after.buffers.aux.len() == before.buffers.aux.len() + aux_entry_width(task.model) * rows
}

/// A value adds one entry to the auxiliary buffer.
pub proof fn lemma_push_step_adds_entry(task: SinkTask, before: Progress)
    requires
        push_step(task, Ok(before)) is Ok,
    ensures
        aux_grew(task, before, push_step(task, Ok(before)).unwrap(), 1),
{
    let raw = task.values[before.cursor as int];
    let offset = before.buffers.data.len();
    match task.model {
        SinkModel::Varchar => {
            lemma_le_bytes_len(offset, 6);
            lemma_le_bytes_len(raw.len() * 16 + ascii_flag(raw), 4);
        },
        SinkModel::Text => {
            let units = utf8_to_utf16(raw).unwrap();
            let entry = le_bytes(units.len() / 2, 4) + units;
            lemma_le_bytes_len(offset + entry.len(), 8);
        },
        SinkModel::Binary => {
            let entry = le_bytes(raw.len(), 8) + raw;
            lemma_le_bytes_len(offset + entry.len(), 8);
        },
        _ => {},
    }
}

/// A null adds one entry to the auxiliary buffer.
pub proof fn lemma_null_step_adds_entry(task: SinkTask, before: Progress)
    requires
        null_step(task, Ok(before)) is Ok,
    ensures
        aux_grew(task, before, null_step(task, Ok(before)).unwrap(), 1),
{
    let offset = before.buffers.data.len();
    match task.model {
        SinkModel::Varchar => {
            lemma_le_bytes_len(offset, 6);
        },
        SinkModel::Text => {
            let entry = le_bytes(0xFFFF_FFFF, 4);
            lemma_le_bytes_len(offset + entry.len(), 8);
        },
        SinkModel::Binary => {
            let entry = le_bytes(0xFFFF_FFFF_FFFF_FFFF, 8);
            lemma_le_bytes_len(offset + entry.len(), 8);
        },
        _ => {},
    }
}

/// Entries added after entries are the entries added in one.
pub proof fn lemma_aux_grew_then(
    task: SinkTask,
    before: Progress,
    between: Progress,
    after: Progress,
    first: nat,
    second: nat,
)
    requires
        aux_grew(task, before, between, first),
        aux_grew(task, between, after, second),
    ensures
        aux_grew(task, before, after, first + second),
{
    let width = aux_entry_width(task.model);
    assert(width * (first + second) == width * first + width * second) by (nonlinear_arith);
}

/// A run of values adds one entry for each.
pub proof fn lemma_push_many_adds_entries(task: SinkTask, before: Progress, count: nat)
    requires
        push_many(task, Ok(before), count) is Ok,
    ensures
        aux_grew(task, before, push_many(task, Ok(before), count).unwrap(), count),
    decreases count,
{
    if count == 0 {
        assert(aux_entry_width(task.model) * 0 == 0);
    } else {
        let next = push_step(task, Ok(before));
        if next is Err {
            lemma_many_failure_stays(task, next->Err_0, (count - 1) as nat);
        }
        lemma_push_step_adds_entry(task, before);
        lemma_push_many_adds_entries(task, next.unwrap(), (count - 1) as nat);
        lemma_aux_grew_then(
            task,
            before,
            next.unwrap(),
            push_many(task, Ok(before), count).unwrap(),
            1,
            (count - 1) as nat,
        );
    }
}

/// A run of nulls adds one entry for each.
pub proof fn lemma_null_many_adds_entries(task: SinkTask, before: Progress, count: nat)
    requires
        null_many(task, Ok(before), count) is Ok,
    ensures
        aux_grew(task, before, null_many(task, Ok(before), count).unwrap(), count),
    decreases count,
{
    if count == 0 {
        assert(aux_entry_width(task.model) * 0 == 0);
    } else {
        let next = null_step(task, Ok(before));
        if next is Err {
            lemma_many_failure_stays(task, next->Err_0, (count - 1) as nat);
        }
        lemma_null_step_adds_entry(task, before);
        lemma_null_many_adds_entries(task, next.unwrap(), (count - 1) as nat);
        lemma_aux_grew_then(
            task,
            before,
            next.unwrap(),
            null_many(task, Ok(before), count).unwrap(),
            1,
            (count - 1) as nat,
        );
    }
}

/// A run of bits adds one entry for each bit.
pub proof fn lemma_bitmap_adds_entries(
    task: SinkTask,
    before: Progress,
    values: Seq<u8>,
    from: nat,
    count: nat,
)
    requires
        apply_bitmap(task, Ok(before), values, from, count) is Ok,
    ensures
        aux_grew(task, before, apply_bitmap(task, Ok(before), values, from, count).unwrap(), count),
    decreases count,
{
    if count == 0 {
        assert(aux_entry_width(task.model) * 0 == 0);
    } else {
        let next = bit_step(task, Ok(before), values, from);
        if next is Err {
            lemma_bitmap_failure_stays(task, next->Err_0, values, from + 1, (count - 1) as nat);
        }
        if bit_at(values, from) {
            lemma_push_step_adds_entry(task, before);
        } else {
            lemma_null_step_adds_entry(task, before);
        }
        lemma_bitmap_adds_entries(task, next.unwrap(), values, from + 1, (count - 1) as nat);
        lemma_aux_grew_then(
            task,
            before,
            next.unwrap(),
            apply_bitmap(task, Ok(before), values, from, count).unwrap(),
            1,
            (count - 1) as nat,
        );
    }
}

/// The entries of the auxiliary buffer match the rows. Where a decode of
/// the runs of a page succeeds, the auxiliary buffer has grown by one entry
/// for each row that was written: no row is without its entry, and no entry
/// without its row.
pub proof fn lemma_aux_entries_match_rows(task: SinkTask, before: Progress, runs: Seq<RunModel>)
    requires
        apply_runs(task, Ok(before), runs) is Ok,
    ensures
        aux_grew(task, before, apply_runs(task, Ok(before), runs).unwrap(), total_rows(runs)),
    decreases runs.len(),
{
    if runs.len() == 0 {
        assert(aux_entry_width(task.model) * 0 == 0);
    } else {
        let next = apply_run(task, Ok(before), runs[0]);
        if next is Err {
            lemma_failure_stays(task, next->Err_0, runs.skip(1));
        }
        match runs[0] {
            RunModel::Bitmap { values, offset, length } => {
                lemma_bitmap_adds_entries(task, before, values, offset, length);
            },
            RunModel::Repeated { is_set, length } => {
                if is_set {
                    lemma_push_many_adds_entries(task, before, length);
                } else {
                    lemma_null_many_adds_entries(task, before, length);
                }
            },
            RunModel::Skipped(valids) => {
                assert(aux_entry_width(task.model) * 0 == 0);
            },
        }
        lemma_aux_entries_match_rows(task, next.unwrap(), runs.skip(1));
        lemma_aux_grew_then(
            task,
            before,
            next.unwrap(),
            apply_runs(task, Ok(before), runs).unwrap(),
            run_rows(runs[0]),
            total_rows(runs.skip(1)),
        );
    }
}

/// The values of `width` bytes each, written one after the other.
pub open spec fn plain_fixed_encoded(values: Seq<Seq<u8>>) -> Seq<u8>
    decreases values.len(),
{
    if values.len() == 0 {
        Seq::empty()
    } else {
        values[0] + plain_fixed_encoded(values.skip(1))
    }
}

/// Values of one width take as many bytes as their number times the width.
pub proof fn lemma_plain_fixed_encoded_len(values: Seq<Seq<u8>>, width: nat)
    requires
        forall|i: int| 0 <= i < values.len() ==> (#[trigger] values[i]).len() == width,
    ensures
        plain_fixed_encoded(values).len() == width * values.len(),
    decreases values.len(),
{
    if values.len() > 0 {
        let rest = values.skip(1);
        assert forall|i: int| 0 <= i < rest.len() implies (#[trigger] rest[i]).len() == width by {
            assert(rest[i] == values[i + 1]);
        }
        lemma_plain_fixed_encoded_len(rest, width);
        assert(width + width * (values.len() - 1) == width * values.len()) by (nonlinear_arith);
    }
}

/// Among values of one width, each lies at its index times the width.
pub proof fn lemma_plain_fixed_slot(values: Seq<Seq<u8>>, width: nat, at: int)
    requires
        forall|i: int| 0 <= i < values.len() ==> (#[trigger] values[i]).len() == width,
        0 <= at < values.len(),
    ensures
        0 <= at * width <= (at + 1) * width <= plain_fixed_encoded(values).len(),
        plain_fixed_encoded(values).subrange(at * width, (at + 1) * width) == values[at],
    decreases values.len(),
{
    let rest = values.skip(1);
    assert forall|i: int| 0 <= i < rest.len() implies (#[trigger] rest[i]).len() == width by {
        assert(rest[i] == values[i + 1]);
    }
    let all = plain_fixed_encoded(values);
    lemma_plain_fixed_encoded_len(rest, width);
    lemma_plain_fixed_encoded_len(values, width);
    assert(0 <= at * width <= (at + 1) * width <= width * values.len()) by (nonlinear_arith)
        requires
            0 <= at < values.len(),
    ;
    if at == 0 {
        assert(at * width == 0 && (at + 1) * width == width) by (nonlinear_arith)
            requires
                at == 0,
        ;
        assert(all.subrange(0, width as int) =~= values[0]);
    } else {
        lemma_plain_fixed_slot(rest, width, at - 1);
        assert(at * width == (at - 1) * width + width && (at + 1) * width == at * width + width)
            by (nonlinear_arith);
        assert((at + 1) * width <= width + width * rest.len()) by (nonlinear_arith)
            requires
                0 < at <= rest.len(),
        ;
        assert(all.subrange(at * width, (at + 1) * width) =~= plain_fixed_encoded(rest).subrange(
            (at - 1) * width,
            at * width,
        ));
        assert(rest[at - 1] == values[at]);
    }
}

/// Plain values of one width come back as they were written: reading the
/// values of `width` bytes from what holds them one after the other gives
/// the values.
pub proof fn lemma_plain_fixed_roundtrip(values: Seq<Seq<u8>>, width: nat)
    requires
        width > 0,
        forall|i: int| 0 <= i < values.len() ==> (#[trigger] values[i]).len() == width,
    ensures
        fixed_values(plain_fixed_encoded(values), width) == values,
{
    let encoded = plain_fixed_encoded(values);
    lemma_plain_fixed_encoded_len(values, width);
    assert(encoded.len() / width == values.len()) by (nonlinear_arith)
        requires
            encoded.len() == width * values.len(),
            width > 0,
    ;
    let read = fixed_values(encoded, width);
    assert forall|i: int| 0 <= i < values.len() implies read[i] == values[i] by {
        lemma_plain_fixed_slot(values, width, i);
    }
    assert(read =~= values);
}

/// The values, each after its length in four bytes.
pub open spec fn plain_var_encoded(values: Seq<Seq<u8>>) -> Seq<u8>
    decreases values.len(),
{
    if values.len() == 0 {
        Seq::empty()
    } else {
        le_bytes(values[0].len(), 4) + values[0] + plain_var_encoded(values.skip(1))
    }
}

/// Plain values of varying length come back as they were written, where
/// the length of each fits four bytes.
pub proof fn lemma_plain_var_roundtrip(values: Seq<Seq<u8>>)
    requires
        forall|i: int| 0 <= i < values.len() ==> (#[trigger] values[i]).len() <= u32::MAX,
    ensures
        plain_var_values(plain_var_encoded(values)) == values,
    decreases values.len(),
{
    if values.len() == 0 {
        assert(plain_var_values(Seq::<u8>::empty()) =~= values);
    } else {
        let rest = values.skip(1);
        assert forall|i: int| 0 <= i < rest.len() implies (#[trigger] rest[i]).len()
            <= u32::MAX by {
            assert(rest[i] == values[i + 1]);
        }
        lemma_plain_var_roundtrip(rest);
        let head = le_bytes(values[0].len(), 4);
        let encoded = plain_var_encoded(values);
        lemma_le_bytes_len(values[0].len(), 4);
        lemma_pow256_values();
        lemma_le_value_of_le_bytes(values[0].len(), 4);
        assert(encoded.subrange(0, 4) =~= head);
        let length = values[0].len() as int;
        assert(encoded.subrange(4, 4 + length) =~= values[0]);
        assert(encoded.skip(4 + length) =~= plain_var_encoded(rest));
        assert(seq![values[0]] + rest =~= values);
    }
}

/// In a description whose entries describe different ids, the entry of an
/// id is found wherever it stands: the search from place `from` gives the
/// place `at` of the entry, for every `from` up to `at`.
pub proof fn lemma_entry_found_from(schema: Seq<QdbMetaColumn>, from: int, at: int)
    requires
        ids_distinct(schema),
        0 <= from <= at < schema.len(),
    ensures
        meta_entry_at(schema, schema[at].id, from) == Some(at),
    decreases at - from,
{
    if from < at {
        assert(schema[from].id != schema[at].id);
        lemma_entry_found_from(schema, from + 1, at);
    }
}

/// A description gives each id one entry: the search for the id of the
/// entry at place `at` finds that entry, whatever stands before it.
pub proof fn lemma_entry_found(schema: Seq<QdbMetaColumn>, at: int)
    requires
        ids_distinct(schema),
        0 <= at < schema.len(),
    ensures
        meta_entry_at(schema, schema[at].id, 0) == Some(at),
{
    lemma_entry_found_from(schema, 0, at);
}

impl ParquetDecoder {
    /// The columns of a request agree. Where a request succeeds, every one
    /// of its columns was decoded and holds the number of rows that the
    /// request gives. So a request whose columns would hold different
    /// numbers of rows fails, and gives no number of rows.
    pub proof fn lemma_columns_agree(
        &self,
        columns: Seq<(ParquetColumnIndex, ColumnType)>,
        row_group_index: u32,
        chunks: Seq<Vec<Page>>,
        at: int,
    )
        requires
            self.row_group_outcome(columns, row_group_index, chunks) is Ok,
            0 <= at < columns.len(),
        ensures
            at < chunks.len(),
            self.column_outcome(row_group_index, columns[at], chunks[at]@) matches Ok(state)
                && state.rows == self.row_group_outcome(columns, row_group_index, chunks)->Ok_0,
    {
        self.lemma_columns_agree_from(row_group_index, columns, chunks, 0, 0, at);
    }

    /// A symbol column is read as text where text is asked for. A
    /// request for one column that the file stores as a symbol column, asked
    /// for as text, passes the check of its type: it gives what the decode
    /// of the chunk as text gives, the number of its rows or its error.
    pub proof fn lemma_symbol_is_read_as_text(
        &self,
        column: ParquetColumnIndex,
        requested: ColumnType,
        row_group_index: u32,
        pages: Vec<Page>,
    )
        requires
            0 <= column < self.columns@.len(),
            self.columns@[column as int].column_type.tag() == ColumnTypeTag::Symbol,
            requested.tag() == ColumnTypeTag::Varchar,
            row_group_index < self.row_group_count,
        ensures
            self.row_group_outcome(seq![(column, requested)], row_group_index, seq![pages])
                == match self.chunk_outcome(
                row_group_index as usize,
                column as usize,
                QdbMetaCol {
                    column_type: requested,
                    format: self.column_format(column as usize),
                },
                pages@,
            ) {
                Ok(state) => Ok::<usize, ParquetError>(state.rows),
                Err(e) => Err::<usize, ParquetError>(e),
            },
    {
        let columns = seq![(column, requested)];
        let chunks = seq![pages];
        assert(self.request_fault(columns, row_group_index, chunks) is None);
        assert(coerced(self.columns@[column as int].column_type, requested) == requested);
        let here = self.column_outcome(row_group_index, columns[0], chunks[0]@);
        match here {
            Ok(state) => {
                assert(self.columns_outcome(row_group_index, columns, chunks, 1, state.rows)
                    == Ok::<usize, ParquetError>(state.rows));
            },
            Err(_) => {},
        }
    }

    /// The columns of a request agree from column `from` on.
    pub proof fn lemma_columns_agree_from(
        &self,
        row_group_index: u32,
        columns: Seq<(ParquetColumnIndex, ColumnType)>,
        chunks: Seq<Vec<Page>>,
        from: int,
        size: usize,
        at: int,
    )
        requires
            columns.len() == chunks.len(),
            0 <= from <= at < columns.len(),
            self.columns_outcome(row_group_index, columns, chunks, from, size) is Ok,
        ensures
            self.column_outcome(row_group_index, columns[at], chunks[at]@) matches Ok(state)
                && state.rows == self.columns_outcome(
                row_group_index,
                columns,
                chunks,
                from,
                size,
            )->Ok_0,
            from > 0 ==> self.columns_outcome(row_group_index, columns, chunks, from, size)->Ok_0
                == size,
        decreases columns.len() - from,
    {
        let here = self.column_outcome(row_group_index, columns[from], chunks[from]@);
        assert(here is Ok);
        let rows = here->Ok_0.rows;
        let rest = self.columns_outcome(row_group_index, columns, chunks, from + 1, rows);
        assert(self.columns_outcome(row_group_index, columns, chunks, from, size) == rest);
        if from + 1 < columns.len() {
            if at > from {
                self.lemma_columns_agree_from(row_group_index, columns, chunks, from + 1, rows, at);
            } else {
                self.lemma_columns_agree_from(
                    row_group_index,
                    columns,
                    chunks,
                    from + 1,
                    rows,
                    from + 1,
                );
            }
        } else {
            assert(rest == Ok::<usize, ParquetError>(rows));
        }
    }

    /// Whether `after` and `res` are what a decode of a column chunk leaves
    /// and gives.
    pub open spec fn chunk_decoded(
        &self,
        after: ColumnChunkBuffers,
        res: ParquetResult<usize>,
        row_group_index: usize,
        column_index: usize,
        col_info: QdbMetaCol,
        pages: Seq<Page>,
    ) -> bool {
        match self.chunk_outcome(row_group_index, column_index, col_info, pages) {
            Ok(state) => res == Ok::<usize, ParquetError>(state.rows) && after@ == state.buffers
                && after.in_sync(),
            Err(e) => res == Err::<usize, ParquetError>(e),
        }
    }

    /// Decoding again gives the same. Two decodes of the same pages of a
    /// column chunk, into whatever buffers, give the same result, and where
    /// they succeed they leave the same bytes in their buffers.
    pub proof fn lemma_decoding_again_gives_the_same(
        &self,
        first: ColumnChunkBuffers,
        first_res: ParquetResult<usize>,
        second: ColumnChunkBuffers,
        second_res: ParquetResult<usize>,
        row_group_index: usize,
        column_index: usize,
        col_info: QdbMetaCol,
        pages: Seq<Page>,
    )
        requires
            self.chunk_decoded(first, first_res, row_group_index, column_index, col_info, pages),
            self.chunk_decoded(second, second_res, row_group_index, column_index, col_info, pages),
        ensures
            first_res == second_res,
            first_res is Ok ==> first@ == second@,
    {
    }
}

} // verus!
