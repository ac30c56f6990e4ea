//! Decoding of Parquet column pages into QuestDB's native in-memory column
//! layout, with every function's behaviour stated in its contract.
//!
//! A data page is decoded by a pair: a slicer, which reads the values of the
//! page from the bytes of one encoding, and a sink, which writes them in the
//! format of one column type, with the column's null value in the place of
//! each missing one. The table in [`plan`] names the pair for the storage
//! type, the annotations and the encoding of a page and the type of the
//! destination column; [`dispatch`] makes the pair and [`decode`] drives it
//! through the runs of rows that the definition levels of the page give.
//! [`row_group`] decodes the pages of a column chunk in file order and the
//! columns of a request, which must agree on their number of rows.
//!
//! The library takes pages and metadata as plain values and does no reading
//! of its own. What holds of every decode is stated and proved in [`laws`].

pub mod bits;
pub mod buffers;
pub mod bytes;
pub mod col_type;
pub mod decimal;
pub mod decode;
pub mod delta;
pub mod dispatch;
pub mod error;
pub mod hybrid_rle;
pub mod laws;
pub mod meta;
pub mod page;
pub mod plan;
pub mod qdb_metadata;
pub mod row_group;
pub mod runs;
pub mod schema;
pub mod sink;
pub mod slicer;
pub mod text;
pub mod varint;
