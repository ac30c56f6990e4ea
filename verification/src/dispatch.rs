//! The dispatcher: for one data page it looks up the conversion in the
//! table, makes the slicer and the sink that the cell names, and decodes the
//! rows of the page with them.

use crate::buffers::{BufferState, ColumnChunkBuffers};
use crate::decode::{decode_page, page_outcome};
use crate::delta::delta_values;
use crate::error::{LayoutReason, ParquetError, ParquetResult, UnsupportedReason};
use crate::page::{page_regions, split_buffer, DataPage, DictPage, Version};
use crate::plan::{
    decode_plan, null_bytes, null_pattern, select_plan, DecodePlan, Discriminators, NullValue,
    PlanError, SinkPlan, SlicerPlan,
};
use crate::qdb_metadata::QdbMetaCol;
use crate::sink::{ColumnSink, Progress, SinkModel, SinkTask};
use crate::sink::fixed::{FixedWriter, IntDecimalWriter, NanoTimestampWriter, ReverseFixedWriter};
use crate::sink::var::{BinaryWriter, StringWriter, VarcharWriter};
use crate::slicer::boolean::{boolean_values, BooleanBitmapSlicer};
use crate::slicer::convert::{converted_values, ValueConvertSlicer};
use crate::slicer::DataPageSlicer;
use crate::slicer::delta::{
    delta_byte_array_fault, delta_byte_array_values, delta_end_reason, delta_int_values,
    delta_length_values, delta_stream_fault, DeltaBinaryPackedSlicer, DeltaBytesArraySlicer,
    DeltaLengthArraySlicer,
};
use crate::slicer::dict::{
    dictionary_end_reason, dictionary_indices, fixed_dict_entries, resolved, symbol_key_values,
    var_dict_complete, var_dict_entries, DictDecoder, FixedDictDecoder, RleDictionarySlicer,
    RleLocalIsGlobalSymbolDecoder, VarDictDecoder,
};
use crate::slicer::fixed::{fixed_values, DataPageFixedSlicer};
use crate::slicer::plain_var::{plain_var_values, PlainVarSlicer};
use vstd::prelude::*;

verus! {

/// How the sink of a cell writes.
pub open spec fn sink_model(plan: SinkPlan) -> SinkModel {
    match plan {
        SinkPlan::Fixed { width, null } => SinkModel::Fixed {
            width: width as nat,
            null: null_pattern(null),
        },
        SinkPlan::ReverseFixed { width, null } => SinkModel::ReverseFixed {
            width: width as nat,
            null: null_pattern(null),
        },
        SinkPlan::NanoTimestamp => SinkModel::NanoTimestamp {
            null: null_pattern(NullValue::Long),
        },
        SinkPlan::IntDecimal { scale } => SinkModel::IntDecimal {
            scale: scale as nat,
            null: null_pattern(NullValue::Double),
        },
        SinkPlan::Text => SinkModel::Text,
        SinkPlan::Varchar => SinkModel::Varchar,
        SinkPlan::Binary => SinkModel::Binary,
    }
}

/// The values of a page, and the error that a read past the last of them gives.
pub struct PageValues {
    pub values: Seq<Seq<u8>>,
    pub end_reason: LayoutReason,
}

/// Values after which a read finds the page exhausted.
pub open spec fn exhaustible(values: Seq<Seq<u8>>) -> ParquetResult<PageValues> {
    Ok(PageValues { values, end_reason: LayoutReason::ValuesExhausted })
}

/// The error of bytes that do not have the shape that they should.
pub open spec fn layout_error<T>(reason: LayoutReason) -> ParquetResult<T> {
    Err(ParquetError::Layout(reason))
}

/// The values that indices into the dictionary `entries` stand for.
pub open spec fn dictionary_values(buffer: Seq<u8>, entries: Seq<Seq<u8>>, row_count: nat)
    -> ParquetResult<PageValues> {
    if 8 * buffer.len() > usize::MAX {
        layout_error(LayoutReason::SizeOverflow)
    } else {
        match dictionary_indices(buffer, row_count) {
            None => layout_error(LayoutReason::DictionaryRuns),
            Some(indices) => Ok(
                PageValues {
                    values: resolved(indices, entries),
                    end_reason: dictionary_end_reason(indices, entries.len()),
                },
            ),
        }
    }
}

/// The values that the slicer of a cell reads from the values region
/// `buffer` of a page of `row_count` rows, or the error that the region, or
/// the dictionary, is not what the encoding requires.
pub open spec fn plan_values(
    plan: SlicerPlan,
    buffer: Seq<u8>,
    dict: Option<DictPage>,
    row_count: nat,
) -> ParquetResult<PageValues> {
    match plan {
        SlicerPlan::PlainFixed { width } => exhaustible(fixed_values(buffer, width as nat)),
        SlicerPlan::PlainFixedConverted { width, conversion } => exhaustible(
            converted_values(conversion, fixed_values(buffer, width as nat)),
        ),
        SlicerPlan::PlainVar => exhaustible(plain_var_values(buffer)),
        SlicerPlan::BooleanBits => exhaustible(boolean_values(buffer, row_count)),
        SlicerPlan::DeltaBinaryPacked { width } => if 8 * buffer.len() > usize::MAX {
            layout_error(LayoutReason::SizeOverflow)
        } else {
            match delta_values(buffer, row_count) {
                None => layout_error(LayoutReason::DeltaHeader),
                Some(part) => Ok(
                    PageValues {
                        values: delta_int_values(buffer, width as nat, row_count).unwrap(),
                        end_reason: delta_end_reason(part.complete),
                    },
                ),
            }
        },
        SlicerPlan::DeltaLengthByteArray => if 8 * buffer.len() > usize::MAX {
            layout_error(LayoutReason::SizeOverflow)
        } else {
            match delta_stream_fault(buffer, row_count) {
                Some(reason) => layout_error(reason),
                None => exhaustible(delta_length_values(buffer, row_count)),
            }
        },
        SlicerPlan::DeltaByteArray => if 8 * buffer.len() > usize::MAX {
            layout_error(LayoutReason::SizeOverflow)
        } else {
            match delta_byte_array_fault(buffer, row_count) {
                Some(reason) => layout_error(reason),
                None => exhaustible(delta_byte_array_values(buffer, row_count)),
            }
        },
        SlicerPlan::DictionaryFixed { width } => match dict {
            None => layout_error(LayoutReason::DictionaryTruncated),
            Some(page) => if width == 0 || page.num_values > page.buffer@.len() / (width as nat) {
                layout_error(LayoutReason::DictionaryTruncated)
            } else {
                dictionary_values(
                    buffer,
                    fixed_dict_entries(page.buffer@, width as nat, page.num_values as nat),
                    row_count,
                )
            },
        },
        SlicerPlan::DictionaryVar => match dict {
            None => layout_error(LayoutReason::DictionaryTruncated),
            Some(page) => if !var_dict_complete(page.buffer@, page.num_values as nat) {
                layout_error(LayoutReason::DictionaryTruncated)
            } else {
                dictionary_values(
                    buffer,
                    var_dict_entries(page.buffer@, page.num_values as nat),
                    row_count,
                )
            },
        },
        SlicerPlan::SymbolKeys => if 8 * buffer.len() > usize::MAX {
            layout_error(LayoutReason::SizeOverflow)
        } else {
            match dictionary_indices(buffer, row_count) {
                None => layout_error(LayoutReason::DictionaryRuns),
                Some(indices) => exhaustible(symbol_key_values(indices)),
            }
        },
    }
}

/// The buffers after the rows of `page` were decoded with the values
/// `values` and the sink of a cell, or the error that ended the decode.
pub open spec fn sink_outcome(
    plan: SinkPlan,
    values: PageValues,
    page: &DataPage,
    row_count: usize,
    buffers: BufferState,
) -> ParquetResult<BufferState> {
    match page_outcome(
        SinkTask { model: sink_model(plan), values: values.values, end_reason: values.end_reason },
        page,
        row_count,
        Ok(Progress { cursor: 0, buffers }),
    ) {
        Ok(progress) => Ok(progress.buffers),
        Err(e) => Err(e),
    }
}

/// Decodes the rows of `page` with `slicer` and the sink of a cell.
fn run_sink<T: DataPageSlicer>(
    version: Version,
    page: &DataPage,
    row_count: usize,
    slicer: T,
    plan: SinkPlan,
    bufs: &mut ColumnChunkBuffers,
) -> (res: ParquetResult<()>)
    requires
        slicer.inv(),
        slicer.cursor() == Some(0nat),
    ensures
        match sink_outcome(
            plan,
            PageValues { values: slicer.values(), end_reason: slicer.end_reason() },
            page,
            row_count,
            old(bufs)@,
        ) {
            Ok(buffers) => res is Ok && final(bufs)@ == buffers,
            Err(e) => res == Err::<(), ParquetError>(e),
        },
{
    match plan {
        SinkPlan::Fixed { width, null } => {
            let mut sink = ColumnSink::new(
                slicer,
                FixedWriter { width, null_value: null_bytes(null) },
            );
            decode_page(version, page, row_count, &mut sink, bufs)
        },
        SinkPlan::ReverseFixed { width, null } => {
            let mut sink = ColumnSink::new(
                slicer,
                ReverseFixedWriter { width, null_value: null_bytes(null) },
            );
            decode_page(version, page, row_count, &mut sink, bufs)
        },
        SinkPlan::NanoTimestamp => {
            let mut sink = ColumnSink::new(
                slicer,
                NanoTimestampWriter { null_value: null_bytes(NullValue::Long) },
            );
            decode_page(version, page, row_count, &mut sink, bufs)
        },
        SinkPlan::IntDecimal { scale } => {
            let mut sink = ColumnSink::new(
                slicer,
                IntDecimalWriter { scale, null_value: null_bytes(NullValue::Double) },
            );
            decode_page(version, page, row_count, &mut sink, bufs)
        },
        SinkPlan::Text => {
            let mut sink = ColumnSink::new(slicer, StringWriter {  });
            decode_page(version, page, row_count, &mut sink, bufs)
        },
        SinkPlan::Varchar => {
            let mut sink = ColumnSink::new(slicer, VarcharWriter {  });
            decode_page(version, page, row_count, &mut sink, bufs)
        },
        SinkPlan::Binary => {
            let mut sink = ColumnSink::new(slicer, BinaryWriter {  });
            decode_page(version, page, row_count, &mut sink, bufs)
        },
    }
}

/// The dictionary page that a reference stands for, if it stands for one.
pub open spec fn dict_of(dict: Option<&DictPage>) -> Option<DictPage> {
    match dict {
        Some(page) => Some(*page),
        None => None,
    }
}

/// Whether the widths that a cell names are ones that its slicer can read.
pub open spec fn plan_well_formed(plan: DecodePlan) -> bool {
    match plan.slicer {
        SlicerPlan::PlainFixed { width } => width > 0,
        SlicerPlan::PlainFixedConverted { width, .. } => width > 0,
        SlicerPlan::DictionaryFixed { width } => width > 0,
        SlicerPlan::DeltaBinaryPacked { width } => 1 <= width <= 8,
        _ => true,
    }
}

/// Every cell of the table names widths that its slicer can read.
pub proof fn lemma_plans_well_formed(d: Discriminators)
    ensures
        decode_plan(d) matches Ok(plan) ==> plan_well_formed(plan),
{
}

/// What selects the cell of the table for a page and a destination column.
pub open spec fn discriminators_of(page: &DataPage, has_dict: bool, col_info: QdbMetaCol)
    -> Discriminators {
    Discriminators {
        physical_type: page.descriptor.physical_type,
        logical_type: page.descriptor.logical_type,
        converted_type: page.descriptor.converted_type,
        encoding: page.spec_encoding(),
        has_dict,
        tag: col_info.column_type.tag(),
        format: col_info.format,
    }
}

/// The error for a page that the table has no plan for. It names the
/// storage type, the encoding, the two annotations and the destination type.
pub open spec fn unsupported_of(page: &DataPage, col_info: QdbMetaCol, error: PlanError)
    -> ParquetError {
    match error {
        PlanError::SymbolFormat => ParquetError::Unsupported(UnsupportedReason::SymbolFormat),
        PlanError::NoCell => ParquetError::Unsupported(
            UnsupportedReason::Encoding {
                physical_type: page.descriptor.physical_type,
                encoding: page.spec_encoding(),
                logical_type: page.descriptor.logical_type,
                converted_type: page.descriptor.converted_type,
                column_type: col_info.column_type,
            },
        ),
    }
}

/// The buffers as the decode of a page finds them: with the auxiliary
/// buffer emptied where the cell says so.
pub open spec fn cleared(buffers: BufferState, clears_aux: bool) -> BufferState {
    if clears_aux {
        BufferState { data: buffers.data, aux: Seq::empty() }
    } else {
        buffers
    }
}

/// What decoding `page` into buffers that hold `buffers` gives: the buffers
/// with the rows of the page appended, or the error that ended the decode.
#[verifier::opaque]
pub open spec fn decoder_page_outcome(
    page: &DataPage,
    dict: Option<DictPage>,
    buffers: BufferState,
    col_info: QdbMetaCol,
) -> ParquetResult<BufferState> {
    match page_regions(page) {
        None => layout_error(LayoutReason::LevelsTruncated),
        Some(regions) => match decode_plan(discriminators_of(page, dict is Some, col_info)) {
            Err(error) => Err(unsupported_of(page, col_info, error)),
            Ok(plan) => match plan_values(
                plan.slicer,
                regions.values,
                dict,
                page.spec_num_values() as nat,
            ) {
                Err(e) => Err(e),
                Ok(values) => sink_outcome(
                    plan.sink,
                    values,
                    page,
                    page.spec_num_values(),
                    cleared(buffers, plan.clears_aux),
                ),
            },
        },
    }
}

/// Decodes the rows of `page` with the slicer and the sink of a cell.
fn run_plan(
    version: Version,
    page: &DataPage,
    dict: Option<&DictPage>,
    values: &[u8],
    plan: DecodePlan,
    bufs: &mut ColumnChunkBuffers,
) -> (res: ParquetResult<()>)
    requires
        plan_well_formed(plan),
    ensures
        match plan_values(plan.slicer, values@, dict_of(dict), page.spec_num_values() as nat) {
            Err(e) => res == Err::<(), ParquetError>(e),
            Ok(page_values) => match sink_outcome(
                plan.sink,
                page_values,
                page,
                page.spec_num_values(),
                old(bufs)@,
            ) {
                Ok(buffers) => res is Ok && final(bufs)@ == buffers,
                Err(e) => res == Err::<(), ParquetError>(e),
            },
        },
{
    let row_count: usize = page.num_values();
    match plan.slicer {
        SlicerPlan::PlainFixed { width } => {
            let slicer = DataPageFixedSlicer::new(values, width, row_count);
            run_sink(version, page, row_count, slicer, plan.sink, bufs)
        },
        SlicerPlan::PlainFixedConverted { width, conversion } => {
            let slicer = ValueConvertSlicer::new(
                DataPageFixedSlicer::new(values, width, row_count),
                conversion,
            );
            run_sink(version, page, row_count, slicer, plan.sink, bufs)
        },
        SlicerPlan::PlainVar => {
            let slicer = PlainVarSlicer::new(values, row_count);
            run_sink(version, page, row_count, slicer, plan.sink, bufs)
        },
        SlicerPlan::BooleanBits => {
            let slicer = BooleanBitmapSlicer::new(values, row_count);
            run_sink(version, page, row_count, slicer, plan.sink, bufs)
        },
        SlicerPlan::DeltaBinaryPacked { width } => {
            match DeltaBinaryPackedSlicer::try_new(values, width, row_count) {
                Err(e) => Err(e),
                Ok(slicer) => run_sink(version, page, row_count, slicer, plan.sink, bufs),
            }
        },
        SlicerPlan::DeltaLengthByteArray => {
            match DeltaLengthArraySlicer::try_new(values, row_count) {
                Err(e) => Err(e),
                Ok(slicer) => run_sink(version, page, row_count, slicer, plan.sink, bufs),
            }
        },
        SlicerPlan::DeltaByteArray => {
            match DeltaBytesArraySlicer::try_new(values, row_count) {
                Err(e) => Err(e),
                Ok(slicer) => run_sink(version, page, row_count, slicer, plan.sink, bufs),
            }
        },
        SlicerPlan::DictionaryFixed { width } => {
            let dict_page = match dict {
                None => {
                    return Err(ParquetError::Layout(LayoutReason::DictionaryTruncated));
                },
                Some(dict_page) => dict_page,
            };
            let decoder = match FixedDictDecoder::try_new(dict_page, width) {
                Err(e) => {
                    return Err(e);
                },
                Ok(decoder) => decoder,
            };
            match RleDictionarySlicer::try_new(values, decoder, row_count) {
                Err(e) => Err(e),
                Ok(slicer) => run_sink(version, page, row_count, slicer, plan.sink, bufs),
            }
        },
        SlicerPlan::DictionaryVar => {
            let dict_page = match dict {
                None => {
                    return Err(ParquetError::Layout(LayoutReason::DictionaryTruncated));
                },
                Some(dict_page) => dict_page,
            };
            let decoder = match VarDictDecoder::try_new(dict_page) {
                Err(e) => {
                    return Err(e);
                },
                Ok(decoder) => decoder,
            };
            match RleDictionarySlicer::try_new(values, decoder, row_count) {
                Err(e) => Err(e),
                Ok(slicer) => run_sink(version, page, row_count, slicer, plan.sink, bufs),
            }
        },
        SlicerPlan::SymbolKeys => {
            match RleLocalIsGlobalSymbolDecoder::try_new(values, row_count) {
                Err(e) => Err(e),
                Ok(slicer) => run_sink(version, page, row_count, slicer, plan.sink, bufs),
            }
        },
    }
}

/// Decodes one data page into the buffers of a column and gives the number
/// of rows that the page declares. The rows are appended to what the buffers
/// hold. After an error the buffers hold no particular value.
pub fn decoder_page(
    version: Version,
    page: &DataPage,
    dict: Option<&DictPage>,
    bufs: &mut ColumnChunkBuffers,
    col_info: QdbMetaCol,
) -> (res: ParquetResult<usize>)
    ensures
        match decoder_page_outcome(page, dict_of(dict), old(bufs)@, col_info) {
            Ok(buffers) => res == Ok::<usize, ParquetError>(page.spec_num_values())
                && final(bufs)@ == buffers,
            Err(e) => res == Err::<usize, ParquetError>(e),
        },
{
    proof {
        reveal(decoder_page_outcome);
    }
    let values: &[u8] = match split_buffer(page) {
        Err(e) => {
            return Err(e);
        },
        Ok((_rep, _def, values)) => values,
    };
    let row_count: usize = page.num_values();
    let d = Discriminators {
        physical_type: page.descriptor.physical_type,
        logical_type: page.descriptor.logical_type,
        converted_type: page.descriptor.converted_type,
        encoding: page.encoding(),
        has_dict: dict.is_some(),
        tag: col_info.column_type.tag(),
        format: col_info.format,
    };
    let plan = match select_plan(d) {
        Err(PlanError::SymbolFormat) => {
            return Err(ParquetError::Unsupported(UnsupportedReason::SymbolFormat));
        },
        Err(PlanError::NoCell) => {
            return Err(
                ParquetError::Unsupported(
                    UnsupportedReason::Encoding {
                        physical_type: page.descriptor.physical_type,
                        encoding: page.encoding(),
                        logical_type: page.descriptor.logical_type,
                        converted_type: page.descriptor.converted_type,
                        column_type: col_info.column_type,
                    },
                ),
            );
        },
        Ok(plan) => plan,
    };
    proof {
        lemma_plans_well_formed(d);
    }
    if plan.clears_aux {
        bufs.aux_vec.clear();
    }
    match run_plan(version, page, dict, values, plan, bufs) {
        Err(e) => Err(e),
        Ok(()) => Ok(row_count),
    }
}

} // verus!
