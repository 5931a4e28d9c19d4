//! Identities of tables and columns, and the materialized data of one table.
use vstd::prelude::*;
use crate::fold::column_wf;
use crate::scalar::Scalar;

verus! {

/// A name, interned as a number by the caller.
#[derive(Clone, Copy, PartialEq, Eq, Structural, Debug, Hash, PartialOrd, Ord)]
pub struct Identifier {
    pub id: u64,
}

impl Identifier {
    pub fn new(id: u64) -> (r: Identifier)
        ensures
            r.id == id,
    {
        Identifier { id }
    }
}

/// The identity of a table.
#[derive(Clone, Copy, PartialEq, Eq, Structural, Debug, Hash)]
pub struct TableRef {
    pub id: u64,
}

impl TableRef {
    pub fn new(id: u64) -> (r: TableRef)
        ensures
            r.id == id,
    {
        TableRef { id }
    }
}

/// The type of a column's values.
#[derive(Clone, Copy, PartialEq, Eq, Structural, Debug, Hash)]
pub enum ColumnType {
    Boolean,
    BigInt,
    Int128,
    VarChar,
    Scalar,
}

/// The identity of a column: its table, its name and its type.
#[derive(Clone, Copy, PartialEq, Eq, Structural, Debug, Hash)]
pub struct ColumnRef {
    pub table_ref: TableRef,
    pub column_id: Identifier,
    pub column_type: ColumnType,
}

impl ColumnRef {
    pub fn new(table_ref: TableRef, column_id: Identifier, column_type: ColumnType) -> (r: ColumnRef)
        ensures
            r == (ColumnRef { table_ref, column_id, column_type }),
    {
        ColumnRef { table_ref, column_id, column_type }
    }

    pub fn column_id(&self) -> (r: Identifier)
        ensures
            r == self.column_id,
    {
        self.column_id
    }

    pub fn column_type(&self) -> (r: ColumnType)
        ensures
            r == self.column_type,
    {
        self.column_type
    }
}

/// A named, typed column of a result.
#[derive(Clone, Copy, PartialEq, Eq, Structural, Debug, Hash)]
pub struct ColumnField {
    pub name: Identifier,
    pub data_type: ColumnType,
}

impl ColumnField {
    pub fn new(name: Identifier, data_type: ColumnType) -> (r: ColumnField)
        ensures
            r == (ColumnField { name, data_type }),
    {
        ColumnField { name, data_type }
    }
}

/// The values of one column: flags, or field elements.
pub enum Column {
    Boolean(Vec<bool>),
    Scalar(Vec<Scalar>),
}

/// The first column stored under `c`.
pub open spec fn lookup(cols: Seq<(ColumnRef, Column)>, c: ColumnRef) -> Option<Column>
    decreases cols.len(),
{
    if cols.len() == 0 {
        None
    } else if cols[0].0 == c {
        Some(cols[0].1)
    } else {
        lookup(cols.drop_first(), c)
    }
}

/// The materialized columns of one table, with its length and offset.
pub struct TableData {
    pub table_ref: TableRef,
    pub length: usize,
    pub offset: usize,
    pub columns: Vec<(ColumnRef, Column)>,
}

impl TableData {
    /// `c` holds `length` reduced field elements.
    pub open spec fn has_scalar_column(&self, c: ColumnRef) -> bool {
        match lookup(self.columns@, c) {
            Some(Column::Scalar(v)) => v@.len() == self.length && column_wf(v@),
            _ => false,
        }
    }

    /// `c` holds `length` flags.
    pub open spec fn has_boolean_column(&self, c: ColumnRef) -> bool {
        match lookup(self.columns@, c) {
            Some(Column::Boolean(v)) => v@.len() == self.length,
            _ => false,
        }
    }

    pub open spec fn scalar_column(&self, c: ColumnRef) -> Seq<Scalar> {
        match lookup(self.columns@, c) {
            Some(Column::Scalar(v)) => v@,
            _ => Seq::empty(),
        }
    }

    pub open spec fn boolean_column(&self, c: ColumnRef) -> Seq<bool> {
        match lookup(self.columns@, c) {
            Some(Column::Boolean(v)) => v@,
            _ => Seq::empty(),
        }
    }

    pub fn new(table_ref: TableRef, length: usize, offset: usize) -> (r: TableData)
        ensures
            r.table_ref == table_ref,
            r.length == length,
            r.offset == offset,
            r.columns@.len() == 0,
    {
        TableData { table_ref, length, offset, columns: Vec::new() }
    }

    /// Adds a column; a column already stored under the same reference keeps precedence.
    pub fn add_column(&mut self, c: ColumnRef, values: Column)
        ensures
            final(self).columns@ == old(self).columns@.push((c, values)),
            final(self).table_ref == old(self).table_ref,
            final(self).length == old(self).length,
            final(self).offset == old(self).offset,
    {
        self.columns.push((c, values));
    }

    /// The column stored under `c`.
    pub fn get_column(&self, c: &ColumnRef) -> (r: Option<&Column>)
        ensures
            match (r, lookup(self.columns@, *c)) {
                (Some(a), Some(b)) => *a == b,
                (None, None) => true,
                _ => false,
            },
    {
        let mut i: usize = 0;
        assert(self.columns@.subrange(0, self.columns@.len() as int) =~= self.columns@);
        while i < self.columns.len()
            invariant
                i <= self.columns@.len(),
                lookup(self.columns@, *c) == lookup(self.columns@.subrange(i as int, self.columns@.len() as int), *c),
            decreases self.columns@.len() - i,
        {
            let ghost rest = self.columns@.subrange(i as int, self.columns@.len() as int);
            if self.columns[i].0 == *c {
                return Some(&self.columns[i].1);
            }
            i = i + 1;
            assert(rest.drop_first() =~= self.columns@.subrange(i as int, self.columns@.len() as int));
        }
        None
    }

    /// A copy of the field-element column under `c`.
    pub fn get_scalar_column(&self, c: &ColumnRef) -> (r: Vec<Scalar>)
        requires
            self.has_scalar_column(*c),
        ensures
            r@ == self.scalar_column(*c),
    {
        match self.get_column(c) {
            Some(Column::Scalar(v)) => v.clone(),
            _ => Vec::new(),
        }
    }

    /// A copy of the flag column under `c`.
    pub fn get_boolean_column(&self, c: &ColumnRef) -> (r: Vec<bool>)
        requires
            self.has_boolean_column(*c),
        ensures
            r@ == self.boolean_column(*c),
    {
        match self.get_column(c) {
            Some(Column::Boolean(v)) => v.clone(),
            _ => Vec::new(),
        }
    }
}

} // verus!
