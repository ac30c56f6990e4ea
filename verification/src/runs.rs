//! The runs in which the validity of the rows of a page is handed on: which
//! of the selected rows hold a value and which are null, and how many values
//! lie in the rows that were not selected.

use crate::error::{InvalidReason, LayoutReason, ParquetError, ParquetResult};
use crate::hybrid_rle::{check_level_runs, level_runs_ok};
use crate::page::{page_regions, split_buffer, DataPage, Interval, Version};
use parquet2::deserialize::{
    FilteredHybridEncoded, FilteredHybridRleDecoderIter, HybridDecoderBitmapIter,
};
use parquet2::encoding::hybrid_rle::Decoder;
use vstd::prelude::*;

verus! {

/// A run of rows of a page.
#[derive(Debug, Clone, PartialEq, Eq)]
pub enum ValidityRun {
    /// Selected rows with one bit each, set where the row holds a value: the
    /// `length` bits of `values` from bit `offset` on.
    Bitmap { values: Vec<u8>, offset: usize, length: usize },
    /// Selected rows that all hold a value, or are all null.
    Repeated { is_set: bool, length: usize },
    /// Rows that were not selected, and the number of values that they hold.
    Skipped(usize),
}

/// A run of rows, as a value of specifications.
pub enum RunModel {
    Bitmap { values: Seq<u8>, offset: nat, length: nat },
    Repeated { is_set: bool, length: nat },
    Skipped(nat),
}

impl View for ValidityRun {
    type V = RunModel;

    open spec fn view(&self) -> RunModel {
        match self {
            ValidityRun::Bitmap { values, offset, length } => RunModel::Bitmap {
                values: values@,
                offset: *offset as nat,
                length: *length as nat,
            },
            ValidityRun::Repeated { is_set, length } => RunModel::Repeated {
                is_set: *is_set,
                length: *length as nat,
            },
            ValidityRun::Skipped(valids) => RunModel::Skipped(*valids as nat),
        }
    }
}

/// The runs of a list, each as a value of specifications.
pub open spec fn run_models(runs: Seq<ValidityRun>) -> Seq<RunModel> {
    Seq::new(runs.len(), |i: int| runs[i]@)
}

/// Whether the intervals are in ascending order and do not overlap, and
/// none ends past the largest index.
pub open spec fn intervals_ok(rows: Seq<Interval>) -> bool {
    &&& forall|i: int| 0 <= i < rows.len() ==> (#[trigger] rows[i]).start + rows[i].length
        <= usize::MAX
    &&& forall|i: int|
        0 <= i < rows.len() - 1 ==> (#[trigger] rows[i]).start + rows[i].length <= rows[i
            + 1].start
}

/// Whether every interval ends at or before row `limit`.
pub open spec fn intervals_within(rows: Seq<Interval>, limit: nat) -> bool {
    forall|i: int| 0 <= i < rows.len() ==> (#[trigger] rows[i]).start + rows[i].length <= limit
}

/// Whether every interval ends at or before row `limit`.
pub fn check_within(rows: &Vec<Interval>, limit: usize) -> (ok: bool)
    ensures
        ok == intervals_within(rows@, limit as nat),
{
    let mut i: usize = 0;
    while i < rows.len()
        invariant
            i <= rows@.len(),
            forall|k: int| 0 <= k < i ==> (#[trigger] rows@[k]).start + rows@[k].length <= limit,
        decreases rows@.len() - i,
    {
        let interval = rows[i];
        if interval.start > limit || interval.length > limit - interval.start {
            return false;
        }
        i = i + 1;
    }
    true
}

/// The number of rows that the intervals select.
pub open spec fn selected_total(rows: Seq<Interval>) -> nat
    decreases rows.len(),
{
    if rows.len() == 0 {
        0
    } else {
        rows[0].length as nat + selected_total(rows.skip(1))
    }
}

/// Whether the intervals are in ascending order and do not overlap.
pub fn check_intervals(rows: &Vec<Interval>) -> (ok: bool)
    ensures
        ok == intervals_ok(rows@),
{
    let mut i: usize = 0;
    while i < rows.len()
        invariant
            i <= rows@.len(),
            forall|k: int| 0 <= k < i ==> (#[trigger] rows@[k]).start + rows@[k].length
                <= usize::MAX,
            forall|k: int|
                0 <= k < i && k < rows@.len() - 1 ==> (#[trigger] rows@[k]).start
                    + rows@[k].length <= rows@[k + 1].start,
        decreases rows@.len() - i,
    {
        let interval = rows[i];
        if interval.length > usize::MAX - interval.start {
            return false;
        }
        if i + 1 < rows.len() && interval.start + interval.length > rows[i + 1].start {
            return false;
        }
        i = i + 1;
    }
    true
}

/// The error type of the file reader, which is handed on and never looked into.
#[verifier::external_type_specification]
#[verifier::external_body]
pub struct ExParquet2Error(parquet2::error::Error);

/// The runs that the definition levels `def_levels` of a page of `count`
/// rows give for the selected rows `rows`; `None` where reading them fails.
pub uninterp spec fn filtered_validity_runs(
    def_levels: Seq<u8>,
    count: usize,
    rows: Seq<Interval>,
) -> Option<Seq<RunModel>>;

/// Reads the definition levels of a page through
/// `parquet2::deserialize::FilteredHybridRleDecoderIter`, over a
/// `HybridDecoderBitmapIter` of `count` rows, over a run decoder of one-bit
/// values, and collects the runs that it yields, or its first error.
///
/// The contract only names what comes back: the same levels, count and rows
/// give the same runs. What the runs hold is not assumed; the code that
/// takes them checks each one.
///
/// The inputs that are left out are those on which the iterators would
/// stop the program. The run decoder stops it at a header of ten bytes that
/// does not fit 64 bits, and would cut a header above 32 bits short where
/// indices have 32 bits: `level_runs_ok` admits neither. The bitmap iterator
/// multiplies the length of a run's bytes by eight. The filter subtracts the
/// rows that it has passed from the start of the interval at hand and adds
/// up the lengths of the intervals: with ascending intervals that do not
/// overlap, the first cannot go below zero and the second cannot overflow.
#[verifier::external_body]
fn collect_validity_runs(def_levels: &[u8], count: usize, rows: &Vec<Interval>) -> (out: Result<
    Vec<ValidityRun>,
    parquet2::error::Error,
>)
    requires
        level_runs_ok(def_levels@),
        8 * def_levels@.len() <= usize::MAX,
        intervals_ok(rows@),
    ensures
        match out {
            Ok(runs) => filtered_validity_runs(def_levels@, count, rows@) == Some(
                run_models(runs@),
            ),
            Err(_) => filtered_validity_runs(def_levels@, count, rows@) is None,
        },
{
    let runs = HybridDecoderBitmapIter::new(Decoder::new(def_levels, 1), count);
    let rows = rows.iter().map(|r| parquet2::indexes::Interval::new(r.start, r.length)).collect();
    let convert = |run| match run {
        FilteredHybridEncoded::Bitmap { values, offset, length } => {
            ValidityRun::Bitmap { values: values.to_vec(), offset, length }
        },
        FilteredHybridEncoded::Repeated { is_set, length } => ValidityRun::Repeated { is_set, length },
        FilteredHybridEncoded::Skipped(valids) => ValidityRun::Skipped(valids),
    };
    FilteredHybridRleDecoderIter::new(runs, rows).map(|run| run.map(convert)).collect()
}

/// The rows of a page that are to be decoded: those that the page names, or
/// all of them where it names none.
pub open spec fn selected_rows_of(page: &DataPage) -> Seq<Interval> {
    match page.selected_rows {
        Some(rows) => rows@,
        None => seq![Interval { start: 0, length: page.spec_num_values() }],
    }
}

/// The rows of a page that are to be decoded.
pub fn get_selected_rows(page: &DataPage) -> (rows: Vec<Interval>)
    ensures
        rows@ == selected_rows_of(page),
{
    let mut rows: Vec<Interval> = Vec::new();
    match &page.selected_rows {
        Some(selected) => {
            let mut i: usize = 0;
            while i < selected.len()
                invariant
                    i <= selected@.len(),
                    rows@ == selected@.subrange(0, i as int),
                decreases selected@.len() - i,
            {
                rows.push(selected[i]);
                i = i + 1;
                proof {
                    assert(rows@ =~= selected@.subrange(0, i as int));
                }
            }
            proof {
                assert(selected@.subrange(0, i as int) =~= selected@);
            }
        },
        None => {
            rows.push(Interval::new(0, page.num_values()));
            proof {
                assert(rows@ =~= seq![Interval { start: 0, length: page.spec_num_values() }]);
            }
        },
    }
    rows
}

/// What the definition levels of a page say of its rows: `None` where the
/// page holds no levels, so that every row holds a value; the runs of the
/// selected rows otherwise; or the error that stands in the way.
pub open spec fn null_bitmap_of(page: &DataPage, count: usize) -> ParquetResult<
    Option<Seq<RunModel>>,
> {
    match page_regions(page) {
        None => Err(ParquetError::Layout(LayoutReason::LevelsTruncated)),
        Some(regions) => if regions.def_levels.len() == 0 {
            Ok(None)
        } else if !intervals_ok(selected_rows_of(page)) {
            Err(ParquetError::Invalid(InvalidReason::SelectedRows))
        } else if 8 * regions.def_levels.len() > usize::MAX {
            Err(ParquetError::Layout(LayoutReason::SizeOverflow))
        } else if !level_runs_ok(regions.def_levels) {
            Err(ParquetError::Layout(LayoutReason::DefinitionLevels))
        } else {
            match filtered_validity_runs(regions.def_levels, count, selected_rows_of(page)) {
                None => Err(ParquetError::Layout(LayoutReason::DefinitionLevels)),
                Some(runs) => Ok(Some(runs)),
            }
        },
    }
}

/// Reads the definition levels of a page into runs of rows.
pub fn decode_null_bitmap(_version: Version, page: &DataPage, count: usize) -> (res: ParquetResult<
    Option<Vec<ValidityRun>>,
>)
    ensures
        match res {
            Ok(None) => null_bitmap_of(page, count) == Ok::<Option<Seq<RunModel>>, ParquetError>(
                None,
            ),
            Ok(Some(runs)) => null_bitmap_of(page, count) == Ok::<
                Option<Seq<RunModel>>,
                ParquetError,
            >(Some(run_models(runs@))),
            Err(e) => null_bitmap_of(page, count) == Err::<Option<Seq<RunModel>>, ParquetError>(e),
        },
{
    let def_levels: &[u8] = match split_buffer(page) {
        Err(e) => {
            return Err(e);
        },
        Ok((_rep, def, _values)) => def,
    };
    if def_levels.len() == 0 {
        return Ok(None);
    }
    let rows = get_selected_rows(page);
    if !check_intervals(&rows) {
        return Err(ParquetError::Invalid(InvalidReason::SelectedRows));
    }
    if def_levels.len() > usize::MAX / 8 {
        return Err(ParquetError::Layout(LayoutReason::SizeOverflow));
    }
    if !check_level_runs(def_levels) {
        return Err(ParquetError::Layout(LayoutReason::DefinitionLevels));
    }
    match collect_validity_runs(def_levels, count, &rows) {
        Err(_) => Err(ParquetError::Layout(LayoutReason::DefinitionLevels)),
        Ok(runs) => Ok(Some(runs)),
    }
}

} // verus!
