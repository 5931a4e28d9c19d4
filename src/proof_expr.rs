//! The capabilities that every provable query node offers.
use vstd::prelude::*;
use crate::database::{ColumnField, ColumnRef, TableData, TableRef};

verus! {

/// A provable node: its metadata and the schema it reads and produces.
pub trait ProofExpr {
    /// The fields of the node's result.
    spec fn result_fields_spec(&self) -> Seq<ColumnField>;

    /// The columns the node reads.
    spec fn column_references_spec(&self) -> Set<ColumnRef>;

    /// The table the node reads.
    spec fn table_spec(&self) -> TableRef;

    /// The length of the input table; the accessor holds the node's table.
    fn get_length(&self, accessor: &TableData) -> (r: usize)
        requires
            accessor.table_ref == self.table_spec(),
        ensures
            r == accessor.length,
    ;

    /// How many rows of the input table are skipped before reading.
    fn get_offset(&self, accessor: &TableData) -> (r: usize)
        requires
            accessor.table_ref == self.table_spec(),
        ensures
            r == accessor.offset,
    ;

    /// The input table is empty.
    fn is_empty(&self, accessor: &TableData) -> (r: bool)
        requires
            accessor.table_ref == self.table_spec(),
        ensures
            r == (accessor.length == 0),
    {
        self.get_length(accessor) == 0
    }

    /// The fields of the result, in order.
    fn get_column_result_fields(&self) -> (r: Vec<ColumnField>)
        ensures
            r@ == self.result_fields_spec(),
    ;

    /// The columns the node reads, each once.
    fn get_column_references(&self) -> (r: Vec<ColumnRef>)
        ensures
            forall|c: ColumnRef| r@.contains(c) <==> self.column_references_spec().contains(c),
            r@.no_duplicates(),
    ;
}

/// Marks whether a prover implementation is honest, so that tests can build dishonest ones.
pub trait ProverHonestyMarker {}

/// The marker of the canonical, honest prover.
#[derive(Debug, PartialEq, Eq, Structural)]
pub struct HonestProver;

impl ProverHonestyMarker for HonestProver {}

} // verus!
