//! The table descriptor and row data model, with mathematical views.

use vstd::prelude::*;

verus! {

/// A column value. The evaluator that produces values from expressions is
/// outside this adapter; rows arrive as tuples of plain values.
#[derive(Clone, Copy, PartialEq, Eq, Structural, Debug)]
pub enum Value {
    I64(i64),
    Bool(bool),
    Null,
}

/// A row: an ordered tuple of column values.
pub type Row = Vec<Value>;

#[derive(Clone, Copy, PartialEq, Eq, Structural, Debug)]
pub enum DataType {
    Int,
    Bool,
}

/// Order capability of a secondary index.
#[derive(Clone, Copy, PartialEq, Eq, Structural, Debug)]
pub enum SchemaIndexOrd {
    Asc,
    Desc,
    Both,
}

pub struct ColumnDef {
    pub name: Vec<u8>,
    pub data_type: DataType,
}

/// A declared secondary index: a name and the column whose value it indexes.
pub struct SchemaIndex {
    pub name: Vec<u8>,
    pub column: u64,
    pub order: SchemaIndexOrd,
}

/// A table descriptor.
pub struct Schema {
    pub table_name: Vec<u8>,
    pub column_defs: Vec<ColumnDef>,
    pub indexes: Vec<SchemaIndex>,
}

pub struct ColumnDefV {
    pub name: Seq<u8>,
    pub data_type: DataType,
}

pub struct SchemaIndexV {
    pub name: Seq<u8>,
    pub column: u64,
    pub order: SchemaIndexOrd,
}

pub struct SchemaV {
    pub table_name: Seq<u8>,
    pub column_defs: Seq<ColumnDefV>,
    pub indexes: Seq<SchemaIndexV>,
}

impl View for ColumnDef {
    type V = ColumnDefV;

    open spec fn view(&self) -> ColumnDefV {
        ColumnDefV { name: self.name@, data_type: self.data_type }
    }
}

impl View for SchemaIndex {
    type V = SchemaIndexV;

    open spec fn view(&self) -> SchemaIndexV {
        SchemaIndexV { name: self.name@, column: self.column, order: self.order }
    }
}

impl View for Schema {
    type V = SchemaV;

    open spec fn view(&self) -> SchemaV {
        SchemaV {
            table_name: self.table_name@,
            column_defs: self.column_defs@.map(|i: int, c: ColumnDef| c@),
            indexes: self.indexes@.map(|i: int, x: SchemaIndex| x@),
        }
    }
}

/// The value index `ix` extracts from `row`: the indexed column's value.
pub open spec fn spec_eval(ix: SchemaIndexV, row: Seq<Value>) -> Option<Value> {
    if ix.column < row.len() {
        Some(row[ix.column as int])
    } else {
        None
    }
}

/// Evaluates the index expression of `ix` against `row`.
pub fn eval(ix: &SchemaIndex, row: &Row) -> (r: Option<Value>)
    ensures
        r == spec_eval(ix@, row@),
{
    if ix.column < row.len() as u64 {
        Some(row[ix.column as usize])
    } else {
        None
    }
}

pub fn copy_column_def(c: &ColumnDef) -> (r: ColumnDef)
    ensures
        r@ == c@,
{
    ColumnDef { name: crate::bytes::copy_bytes(&c.name), data_type: c.data_type }
}

pub fn copy_schema_index(x: &SchemaIndex) -> (r: SchemaIndex)
    ensures
        r@ == x@,
{
    SchemaIndex { name: crate::bytes::copy_bytes(&x.name), column: x.column, order: x.order }
}

pub fn copy_schema(s: &Schema) -> (r: Schema)
    ensures
        r@ == s@,
{
    let mut column_defs: Vec<ColumnDef> = Vec::new();
    let mut i: usize = 0;
    while i < s.column_defs.len()
        invariant
            i <= s.column_defs.len(),
            column_defs@.len() == i,
            forall|j: int| 0 <= j < i ==> column_defs@[j]@ == s.column_defs@[j]@,
        decreases s.column_defs.len() - i,
    {
        column_defs.push(copy_column_def(&s.column_defs[i]));
        i = i + 1;
    }
    let mut indexes: Vec<SchemaIndex> = Vec::new();
    let mut j: usize = 0;
    while j < s.indexes.len()
        invariant
            j <= s.indexes.len(),
            indexes@.len() == j,
            forall|k: int| 0 <= k < j ==> indexes@[k]@ == s.indexes@[k]@,
        decreases s.indexes.len() - j,
    {
        indexes.push(copy_schema_index(&s.indexes[j]));
        j = j + 1;
    }
    let r = Schema {
        table_name: crate::bytes::copy_bytes(&s.table_name),
        column_defs,
        indexes,
    };
    assert(r@.column_defs =~= s@.column_defs);
    assert(r@.indexes =~= s@.indexes);
    assert(r@ =~= s@);
    r
}

} // verus!
