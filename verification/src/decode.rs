//! Decoding of a data page: the rows of the page are walked in runs, and
//! each row is handed to the sink as a value or as a null.

use crate::bits::{bit_at, get_bit};
use crate::buffers::ColumnChunkBuffers;
use crate::error::{InvalidReason, LayoutReason, ParquetError, ParquetResult};
use crate::page::{DataPage, Interval, Version};
use crate::runs::{
    check_intervals, check_within, decode_null_bitmap, get_selected_rows, intervals_ok,
    intervals_within, null_bitmap_of, run_models, selected_rows_of, selected_total, RunModel,
    ValidityRun,
};
use crate::sink::{
    null_many, null_step, push_many, push_nulls, push_slice, push_step, sink_state, skip_step,
    start_page, DecodeState, Progress, Pushable, SinkTask,
};
use vstd::prelude::*;

verus! {

/// The state after the row whose validity is bit `at` of `values`.
pub open spec fn bit_step(task: SinkTask, state: DecodeState, values: Seq<u8>, at: nat)
    -> DecodeState {
    if bit_at(values, at) {
        push_step(task, state)
    } else {
        null_step(task, state)
    }
}

/// The state after the `count` rows whose validity are the bits of `values`
/// from bit `from` on.
pub open spec fn apply_bitmap(
    task: SinkTask,
    state: DecodeState,
    values: Seq<u8>,
    from: nat,
    count: nat,
) -> DecodeState
    decreases count,
{
    if count == 0 {
        state
    } else {
        apply_bitmap(task, bit_step(task, state, values, from), values, from + 1, (count - 1) as nat)
    }
}

/// The state after a run of rows. Rows that were not selected write
/// nothing, and the values that they hold are passed over.
pub open spec fn apply_run(task: SinkTask, state: DecodeState, run: RunModel) -> DecodeState {
    match run {
        RunModel::Bitmap { values, offset, length } => apply_bitmap(
            task,
            state,
            values,
            offset,
            length,
        ),
        RunModel::Repeated { is_set, length } => if is_set {
            push_many(task, state, length)
        } else {
            null_many(task, state, length)
        },
        RunModel::Skipped(valids) => skip_step(task, state, valids),
    }
}

/// The state after the runs of a page, in order.
pub open spec fn apply_runs(task: SinkTask, state: DecodeState, runs: Seq<RunModel>)
    -> DecodeState
    decreases runs.len(),
{
    if runs.len() == 0 {
        state
    } else {
        apply_runs(task, apply_run(task, state, runs[0]), runs.skip(1))
    }
}

/// The number of rows that a run writes.
pub open spec fn run_rows(run: RunModel) -> nat {
    match run {
        RunModel::Bitmap { length, .. } => length,
        RunModel::Repeated { length, .. } => length,
        RunModel::Skipped(_) => 0,
    }
}

/// The number of rows that the runs write.
pub open spec fn total_rows(runs: Seq<RunModel>) -> nat
    decreases runs.len(),
{
    if runs.len() == 0 {
        0
    } else {
        run_rows(runs[0]) + total_rows(runs.skip(1))
    }
}

/// Whether a run of bits lies within the bytes that it comes with, and its
/// last bit has an index.
pub open spec fn run_well_formed(run: RunModel) -> bool {
    match run {
        RunModel::Bitmap { values, offset, length } => offset + length <= 8 * values.len()
            && offset + length <= usize::MAX,
        _ => true,
    }
}

/// What is wrong with the runs of a page of which `expected` rows were
/// selected, if anything is: a run of bits that does not lie within its
/// bytes, or a number of rows other than `expected`.
pub open spec fn runs_fault(runs: Seq<RunModel>, expected: usize) -> Option<LayoutReason> {
    if exists|i: int| 0 <= i < runs.len() && !run_well_formed(#[trigger] runs[i]) {
        Some(LayoutReason::DefinitionLevels)
    } else if total_rows(runs) != expected {
        Some(LayoutReason::RowCountMismatch { expected })
    } else {
        None
    }
}

/// Adds up the rows that the intervals select.
pub fn count_selected(rows: &Vec<Interval>) -> (total: usize)
    requires
        intervals_ok(rows@),
    ensures
        total == selected_total(rows@),
{
    let mut total: usize = 0;
    let mut i: usize = 0;
    proof {
        assert(rows@.skip(0) =~= rows@);
    }
    while i < rows.len()
        invariant
            i <= rows@.len(),
            intervals_ok(rows@),
            selected_total(rows@) == total + selected_total(rows@.skip(i as int)),
            i == 0 ==> total == 0,
            i > 0 ==> total <= rows@[i - 1].start + rows@[i - 1].length,
        decreases rows@.len() - i,
    {
        proof {
            let tail = rows@.skip(i as int);
            assert(tail[0] == rows@[i as int]);
            assert(tail.skip(1) =~= rows@.skip(i + 1));
            if i > 0 {
                assert(rows@[i - 1].start + rows@[i - 1].length <= rows@[i as int].start);
            }
            assert(rows@[i as int].start + rows@[i as int].length <= usize::MAX);
        }
        total = total + rows[i].length;
        i = i + 1;
    }
    total
}

/// Checks the runs of a page of which `expected` rows were selected.
pub fn check_runs(runs: &Vec<ValidityRun>, expected: usize) -> (fault: Option<LayoutReason>)
    ensures
        fault == runs_fault(run_models(runs@), expected),
{
    let ghost models = run_models(runs@);
    let mut rows: usize = 0;
    let mut over: bool = false;
    let mut i: usize = 0;
    proof {
        assert(models.skip(0) =~= models);
    }
    while i < runs.len()
        invariant
            i <= runs@.len(),
            models == run_models(runs@),
            forall|k: int| 0 <= k < i ==> run_well_formed(#[trigger] models[k]),
            !over ==> total_rows(models) == rows + total_rows(models.skip(i as int)),
            over ==> total_rows(models) > usize::MAX,
        decreases runs@.len() - i,
    {
        proof {
            let tail = models.skip(i as int);
            assert(tail[0] == models[i as int]);
            assert(tail.skip(1) =~= models.skip(i + 1));
            assert(models[i as int] == runs@[i as int]@);
        }
        let length: usize = match &runs[i] {
            ValidityRun::Bitmap { values, offset, length } => {
                if *length > usize::MAX - *offset || (*offset + *length) as u128 > 8 * (
                values.len() as u128) {
                    return Some(LayoutReason::DefinitionLevels);
                }
                *length
            },
            ValidityRun::Repeated { length, .. } => *length,
            ValidityRun::Skipped(_) => 0,
        };
        if !over {
            if length > usize::MAX - rows {
                over = true;
            } else {
                rows = rows + length;
            }
        }
        i = i + 1;
    }
    proof {
        assert(models.skip(i as int).len() == 0);
    }
    if over || rows != expected {
        Some(LayoutReason::RowCountMismatch { expected })
    } else {
        None
    }
}

/// Hands the rows of a run of bits to the sink.
fn consume_bitmap<T: Pushable>(
    sink: &mut T,
    bufs: &mut ColumnChunkBuffers,
    values: &Vec<u8>,
    offset: usize,
    length: usize,
)
    requires
        old(sink).inv(),
        offset + length <= 8 * values@.len(),
        offset + length <= usize::MAX,
    ensures
        final(sink).inv(),
        final(sink).task() == old(sink).task(),
        sink_state(final(sink), final(bufs)) == apply_bitmap(
            old(sink).task(),
            sink_state(old(sink), old(bufs)),
            values@,
            offset as nat,
            length as nat,
        ),
{
    let mut done: usize = 0;
    while done < length
        invariant
            done <= length,
            offset + length <= 8 * values@.len(),
            offset + length <= usize::MAX,
            sink.inv(),
            sink.task() == old(sink).task(),
            apply_bitmap(
                old(sink).task(),
                sink_state(old(sink), old(bufs)),
                values@,
                offset as nat,
                length as nat,
            ) == apply_bitmap(
                sink.task(),
                sink_state(sink, bufs),
                values@,
                (offset + done) as nat,
                (length - done) as nat,
            ),
        decreases length - done,
    {
        if get_bit(values.as_slice(), offset + done) {
            sink.push(bufs);
        } else {
            sink.push_null(bufs);
        }
        done = done + 1;
    }
}

/// Hands the rows of the runs to the sink, in order.
pub fn consume_runs<T: Pushable>(
    sink: &mut T,
    bufs: &mut ColumnChunkBuffers,
    runs: &Vec<ValidityRun>,
)
    requires
        old(sink).inv(),
        forall|i: int| 0 <= i < runs@.len() ==> run_well_formed(#[trigger] runs@[i]@),
    ensures
        final(sink).inv(),
        final(sink).task() == old(sink).task(),
        sink_state(final(sink), final(bufs)) == apply_runs(
            old(sink).task(),
            sink_state(old(sink), old(bufs)),
            run_models(runs@),
        ),
{
    let ghost models = run_models(runs@);
    let mut i: usize = 0;
    proof {
        assert(models.skip(0) =~= models);
    }
    while i < runs.len()
        invariant
            i <= runs@.len(),
            models == run_models(runs@),
            forall|k: int| 0 <= k < runs@.len() ==> run_well_formed(#[trigger] runs@[k]@),
            sink.inv(),
            sink.task() == old(sink).task(),
            apply_runs(old(sink).task(), sink_state(old(sink), old(bufs)), models) == apply_runs(
                sink.task(),
                sink_state(sink, bufs),
                models.skip(i as int),
            ),
        decreases runs@.len() - i,
    {
        proof {
            let tail = models.skip(i as int);
            assert(tail[0] == runs@[i as int]@);
            assert(tail.skip(1) =~= models.skip(i + 1));
            assert(run_well_formed(runs@[i as int]@));
        }
        let ghost before = sink_state(sink, bufs);
        match &runs[i] {
            ValidityRun::Bitmap { values, offset, length } => {
                consume_bitmap(sink, bufs, values, *offset, *length);
            },
            ValidityRun::Repeated { is_set, length } => {
                if *is_set {
                    push_slice(sink, bufs, *length);
                } else {
                    push_nulls(sink, bufs, *length);
                }
            },
            ValidityRun::Skipped(valids) => {
                sink.skip(*valids);
            },
        }
        proof {
            assert(sink_state(sink, bufs) == apply_run(sink.task(), before, runs@[i as int]@));
        }
        i = i + 1;
    }
}

/// The state with the buffers prepared for a page.
pub open spec fn started(task: SinkTask, state: DecodeState) -> DecodeState {
    match state {
        Err(reason) => Err(reason),
        Ok(progress) => Ok(
            Progress {
                cursor: progress.cursor,
                buffers: start_page(task.model, progress.buffers),
            },
        ),
    }
}

/// The end of a decode: how far it came, or the error that it gives.
pub open spec fn finished(state: DecodeState) -> Result<Progress, ParquetError> {
    match state {
        Ok(progress) => Ok(progress),
        Err(reason) => Err(ParquetError::Layout(reason)),
    }
}

/// The state after the rows that `rows` select were written from a page
/// without definition levels, whose rows all hold a value: for each interval
/// in order, the values of the rows between `from` and its start are passed
/// over, then one value is written for each of its rows.
pub open spec fn apply_intervals(task: SinkTask, state: DecodeState, rows: Seq<Interval>, from: nat)
    -> DecodeState
    decreases rows.len(),
{
    if rows.len() == 0 {
        state
    } else {
        let gap: nat = if rows[0].start >= from {
            (rows[0].start - from) as nat
        } else {
            0
        };
        apply_intervals(
            task,
            push_many(task, skip_step(task, state, gap), rows[0].length as nat),
            rows.skip(1),
            (rows[0].start + rows[0].length) as nat,
        )
    }
}

/// Writes the rows that `rows` select of a page whose rows all hold a value.
pub fn push_intervals<T: Pushable>(
    sink: &mut T,
    bufs: &mut ColumnChunkBuffers,
    rows: &Vec<Interval>,
)
    requires
        old(sink).inv(),
        intervals_ok(rows@),
    ensures
        final(sink).inv(),
        final(sink).task() == old(sink).task(),
        sink_state(final(sink), final(bufs)) == apply_intervals(
            old(sink).task(),
            sink_state(old(sink), old(bufs)),
            rows@,
            0,
        ),
{
    let mut from: usize = 0;
    let mut i: usize = 0;
    proof {
        assert(rows@.skip(0) =~= rows@);
    }
    while i < rows.len()
        invariant
            i <= rows@.len(),
            intervals_ok(rows@),
            sink.inv(),
            sink.task() == old(sink).task(),
            i == 0 ==> from == 0,
            i > 0 ==> from == rows@[i - 1].start + rows@[i - 1].length,
            apply_intervals(old(sink).task(), sink_state(old(sink), old(bufs)), rows@, 0)
                == apply_intervals(
                sink.task(),
                sink_state(sink, bufs),
                rows@.skip(i as int),
                from as nat,
            ),
        decreases rows@.len() - i,
    {
        let interval = rows[i];
        proof {
            let tail = rows@.skip(i as int);
            assert(tail[0] == rows@[i as int]);
            assert(tail.skip(1) =~= rows@.skip(i + 1));
            if i > 0 {
                assert(rows@[i - 1].start + rows@[i - 1].length <= rows@[i as int].start);
            }
            assert(rows@[i as int].start + rows@[i as int].length <= usize::MAX);
        }
        let ghost before = sink_state(sink, bufs);
        sink.skip(interval.start - from);
        proof {
            assert(sink_state(sink, bufs) == skip_step(
                sink.task(),
                before,
                (interval.start - from) as nat,
            ));
        }
        push_slice(sink, bufs, interval.length);
        from = interval.start + interval.length;
        i = i + 1;
    }
}

/// What decoding the rows of `page` does to a decode in `state`. Where the
/// page holds definition levels, its rows are written as the runs of the
/// levels say. Where it holds none, every row holds a value: the rows that
/// the page selects are written, each from the value at its place, and all
/// `row_count` rows where it selects none. Selected rows that are out of
/// order, overlap or lie beyond the rows of the page are refused.
pub open spec fn page_outcome(task: SinkTask, page: &DataPage, row_count: usize, state: DecodeState)
    -> Result<Progress, ParquetError> {
    match null_bitmap_of(page, row_count) {
        Err(e) => Err(e),
        Ok(None) => match page.selected_rows {
            None => finished(push_many(task, started(task, state), row_count as nat)),
            Some(rows) => if !intervals_ok(rows@) || !intervals_within(rows@, row_count as nat) {
                Err(ParquetError::Invalid(InvalidReason::SelectedRows))
            } else {
                finished(apply_intervals(task, started(task, state), rows@, 0))
            },
        },
        Ok(Some(runs)) => match runs_fault(
            runs,
            selected_total(selected_rows_of(page)) as usize,
        ) {
            Some(reason) => Err(ParquetError::Layout(reason)),
            None => finished(apply_runs(task, started(task, state), runs)),
        },
    }
}

/// Decodes the rows of a page into the buffers: the values come from the
/// sink's slicer, the nulls from the definition levels of the page.
pub fn decode_page<T: Pushable>(
    version: Version,
    page: &DataPage,
    row_count: usize,
    sink: &mut T,
    bufs: &mut ColumnChunkBuffers,
) -> (res: ParquetResult<()>)
    requires
        old(sink).inv(),
    ensures
        final(sink).inv(),
        final(sink).task() == old(sink).task(),
        match page_outcome(old(sink).task(), page, row_count, sink_state(old(sink), old(bufs))) {
            Ok(progress) => res is Ok && sink_state(final(sink), final(bufs)) == Ok::<
                Progress,
                LayoutReason,
            >(progress),
            Err(e) => res == Err::<(), ParquetError>(e),
        },
{
    sink.reserve(bufs);
    match decode_null_bitmap(version, page, row_count) {
        Err(e) => {
            return Err(e);
        },
        Ok(None) => match &page.selected_rows {
            None => {
                push_slice(sink, bufs, row_count);
            },
            Some(rows) => {
                if !check_intervals(rows) || !check_within(rows, row_count) {
                    return Err(ParquetError::Invalid(InvalidReason::SelectedRows));
                }
                push_intervals(sink, bufs, rows);
            },
        },
        Ok(Some(runs)) => {
            let rows = get_selected_rows(page);
            let expected: usize = count_selected(&rows);
            match check_runs(&runs, expected) {
                Some(reason) => {
                    return Err(ParquetError::Layout(reason));
                },
                None => {},
            }
            proof {
                let models = run_models(runs@);
                assert forall|i: int| 0 <= i < runs@.len() implies run_well_formed(
                    #[trigger] runs@[i]@,
                ) by {
                    assert(models[i] == runs@[i]@);
                }
            }
            consume_runs(sink, bufs, &runs);
        },
    }
    sink.result()
}

} // verus!
