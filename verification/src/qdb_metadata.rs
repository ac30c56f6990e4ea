//! What a file written by the database says of its columns beside the
//! schema: the database's own type code of each, and how special columns are
//! stored.

use crate::col_type::ColumnType;
use vstd::prelude::*;

verus! {

/// The key under which the file's metadata holds the database's description.
pub fn qdb_meta_key() -> (key: &'static str)
    ensures
        key@ == "questdb"@,
{
    "questdb"
}

/// A way of storing a column that differs from the usual one.
#[derive(Debug, Clone, Copy, PartialEq, Eq, Structural)]
pub enum QdbMetaColFormat {
    /// The keys of the dictionary of a symbol column are the ids by which
    /// the database knows the symbols.
    LocalKeyIsGlobal,
}

/// What decoding a column needs to know of it.
#[derive(Debug, Clone, Copy, PartialEq, Eq)]
pub struct QdbMetaCol {
    pub column_type: ColumnType,
    pub format: Option<QdbMetaColFormat>,
}

/// The entry of a column in the database's description of a file. The type
/// code is as it was read: it has yet to be checked.
#[derive(Debug, Clone, Copy, PartialEq, Eq)]
pub struct QdbMetaColumn {
    pub id: i32,
    pub qdb_type_code: i32,
    pub format: Option<QdbMetaColFormat>,
}

/// Whether no two entries of `schema` describe the same column id.
pub open spec fn ids_distinct(schema: Seq<QdbMetaColumn>) -> bool {
    forall|i: int, j: int|
        0 <= i < j < schema.len() ==> (#[trigger] schema[i]).id != (#[trigger] schema[j]).id
}

/// Whether an entry of `schema` before place `end` describes column `id`.
fn id_among(schema: &Vec<QdbMetaColumn>, end: usize, id: i32) -> (found: bool)
    requires
        end <= schema@.len(),
    ensures
        found == exists|i: int| 0 <= i < end && (#[trigger] schema@[i]).id == id,
{
    let mut i: usize = 0;
    while i < end
        invariant
            i <= end <= schema@.len(),
            forall|k: int| 0 <= k < i ==> (#[trigger] schema@[k]).id != id,
        decreases end - i,
    {
        if schema[i].id == id {
            return true;
        }
        i = i + 1;
    }
    false
}

/// Whether no two entries of `schema` describe the same column id.
pub fn check_ids_distinct(schema: &Vec<QdbMetaColumn>) -> (ok: bool)
    ensures
        ok == ids_distinct(schema@),
{
    let mut j: usize = 0;
    while j < schema.len()
        invariant
            j <= schema@.len(),
            forall|a: int, b: int|
                0 <= a < b < j ==> (#[trigger] schema@[a]).id != (#[trigger] schema@[b]).id,
        decreases schema@.len() - j,
    {
        if id_among(schema, j, schema[j].id) {
            return false;
        }
        j = j + 1;
    }
    true
}

/// The database's description of a file: its version, and for each column
/// that it describes one entry, found by the column's id. No two entries
/// describe the same id.
#[derive(Debug, PartialEq, Eq)]
pub struct QdbMeta {
    version: u32,
    schema: Vec<QdbMetaColumn>,
}

impl QdbMeta {
    #[verifier::type_invariant]
    spec fn well_formed(self) -> bool {
        ids_distinct(self.schema@)
    }

    /// The entries of the description, in the order in which they stand.
    pub closed spec fn entries(&self) -> Seq<QdbMetaColumn> {
        self.schema@
    }

    /// The version of the description.
    pub closed spec fn spec_version(&self) -> u32 {
        self.version
    }

    /// The description of version `version` with the entries `schema`, or
    /// `None` where two of the entries describe the same id.
    pub fn new(version: u32, schema: Vec<QdbMetaColumn>) -> (res: Option<QdbMeta>)
        ensures
            res is Some <==> ids_distinct(schema@),
            res matches Some(meta) ==> meta.spec_version() == version && meta.entries()
                == schema@,
    {
        if check_ids_distinct(&schema) {
            Some(QdbMeta { version, schema })
        } else {
            None
        }
    }

    /// The version of the description.
    #[verifier::when_used_as_spec(spec_version)]
    pub fn version(&self) -> (version: u32)
        ensures
            version == self.spec_version(),
    {
        self.version
    }

    /// The entries of the description, in the order in which they stand.
    pub fn schema(&self) -> (schema: &Vec<QdbMetaColumn>)
        ensures
            schema@ == self.entries(),
            ids_distinct(schema@),
    {
        proof {
            use_type_invariant(self);
        }
        &self.schema
    }
}

} // verus!
