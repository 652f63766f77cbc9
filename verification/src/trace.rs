//! What the memory table holds, column by column, for a given log.

use crate::flags::{first_change_flags, range_check_value};
use crate::goldilocks_field::GoldilocksField;
use crate::lookup::{all_in_table, ascending, canonical_values, lookup_holds};
use crate::registers::{
    CONTEXT_FIRST_CHANGE, COUNTER, COUNTER_PERMUTED, NUM_REGISTERS, RANGE_CHECK,
    RANGE_CHECK_PERMUTED, SEGMENT_FIRST_CHANGE, SORTED_ADDR_CONTEXT, SORTED_ADDR_SEGMENT,
    SORTED_ADDR_VIRTUAL, SORTED_TIMESTAMP, TIMESTAMP, VIRTUAL_FIRST_CHANGE,
};
use crate::sorting::{is_stable_sort_of, lemma_stable_sort_unique, MemoryOp};
use vstd::prelude::*;

verus! {

/// Why no table can be built for a log.
#[derive(Clone, Copy, PartialEq, Eq, Structural, Debug)]
pub enum ConstructionError {
    /// The log holds no operation.
    EmptyLog,
    /// The first operation on some address, in the order of the timestamps, is
    /// a read.
    ReadWithoutWrite,
}

/// The columns of a table, each as the sequence of its cells.
pub open spec fn columns_view(cols: Seq<Vec<GoldilocksField>>) -> Seq<Seq<GoldilocksField>> {
    Seq::new(cols.len(), |c: int| cols[c]@)
}

/// The columns of a table given by its rows.
pub open spec fn columns_of_rows(rows: Seq<[GoldilocksField; NUM_REGISTERS]>) -> Seq<
    Seq<GoldilocksField>,
> {
    Seq::new(NUM_REGISTERS as nat, |c: int| Seq::new(rows.len(), |r: int| rows[r][c]))
}

/// Row `i` of the thirteen columns from `first` on holds the operation `op`.
pub open spec fn row_holds(
    cols: Seq<Seq<GoldilocksField>>,
    first: int,
    i: int,
    op: MemoryOp,
) -> bool {
    &&& cols[first][i] == op.0
    &&& cols[first + 1][i] == op.1
    &&& cols[first + 2][i] == op.2
    &&& cols[first + 3][i] == op.3
    &&& cols[first + 4][i] == op.4
    &&& forall|j: int| 0 <= j < 8 ==> cols[first + 5 + j][i] == #[trigger] op.5[j]
}

/// The thirteen columns from `first` on hold the operations `ops`, row by row.
pub open spec fn block_holds(cols: Seq<Seq<GoldilocksField>>, first: int, ops: Seq<MemoryOp>) -> bool {
    forall|i: int| 0 <= i < ops.len() ==> row_holds(cols, first, i, #[trigger] ops[i])
}

/// The log in address-then-time order.
pub open spec fn sorted_log(ops: Seq<MemoryOp>) -> Seq<MemoryOp> {
    choose|sorted: Seq<MemoryOp>| is_stable_sort_of(sorted, ops)
}

/// The sorted log of a log is a stable sort of it.
pub proof fn lemma_sorted_log_is_sorted(ops: Seq<MemoryOp>)
    ensures
        is_stable_sort_of(sorted_log(ops), ops),
{
    let sorted = crate::sorting::lemma_stable_sort_exists(ops);
    assert(is_stable_sort_of(sorted, ops));
}

/// A stable sort of a log is its sorted log.
pub proof fn lemma_sorted_log(ops: Seq<MemoryOp>, sorted: Seq<MemoryOp>)
    requires
        is_stable_sort_of(sorted, ops),
    ensures
        sorted == sorted_log(ops),
{
    lemma_stable_sort_unique(ops, sorted, sorted_log(ops));
}

/// The address of an operation: the canonical context, segment and virtual address.
pub open spec fn address_of(op: MemoryOp) -> (int, int, int) {
    (op.2@, op.3@, op.4@)
}

/// Operation `i` of an ordered log is a write or not the first on its address.
pub open spec fn write_or_later_access(sorted: Seq<MemoryOp>, i: int) -> bool {
    (i == 0 || address_of(sorted[i - 1]) != address_of(sorted[i])) ==> sorted[i].1@ == 0
}

/// In an ordered log, each operation that is the first on its address is a write.
pub open spec fn first_accesses_are_writes(sorted: Seq<MemoryOp>) -> bool {
    forall|i: int| 0 <= i < sorted.len() ==> #[trigger] write_or_later_access(sorted, i)
}

/// The flag columns hold the first-change flags of the ordered columns, and
/// three zeros in the last of the `n` rows.
pub open spec fn flags_hold(cols: Seq<Seq<GoldilocksField>>, n: int) -> bool {
    &&& forall|i: int|
        0 <= i < n - 1 ==> (
            (#[trigger] cols[CONTEXT_FIRST_CHANGE as int][i])@,
            cols[SEGMENT_FIRST_CHANGE as int][i]@,
            cols[VIRTUAL_FIRST_CHANGE as int][i]@,
        ) == first_change_flags(
            cols[SORTED_ADDR_CONTEXT as int][i]@,
            cols[SORTED_ADDR_SEGMENT as int][i]@,
            cols[SORTED_ADDR_VIRTUAL as int][i]@,
            cols[SORTED_ADDR_CONTEXT as int][i + 1]@,
            cols[SORTED_ADDR_SEGMENT as int][i + 1]@,
            cols[SORTED_ADDR_VIRTUAL as int][i + 1]@,
        )
    &&& cols[CONTEXT_FIRST_CHANGE as int][n - 1].0 == 0
    &&& cols[SEGMENT_FIRST_CHANGE as int][n - 1].0 == 0
    &&& cols[VIRTUAL_FIRST_CHANGE as int][n - 1].0 == 0
}

/// The range-check column holds the range-check values of the ordered
/// columns and the flags, and zero in the last of the `n` rows.
pub open spec fn range_check_holds(cols: Seq<Seq<GoldilocksField>>, n: int) -> bool {
    &&& forall|i: int|
        0 <= i < n - 1 ==> (#[trigger] cols[RANGE_CHECK as int][i])@ == range_check_value(
            cols[SORTED_ADDR_CONTEXT as int][i]@,
            cols[SORTED_ADDR_SEGMENT as int][i]@,
            cols[SORTED_ADDR_VIRTUAL as int][i]@,
            cols[SORTED_TIMESTAMP as int][i]@,
            cols[SORTED_ADDR_CONTEXT as int][i + 1]@,
            cols[SORTED_ADDR_SEGMENT as int][i + 1]@,
            cols[SORTED_ADDR_VIRTUAL as int][i + 1]@,
            cols[SORTED_TIMESTAMP as int][i + 1]@,
            cols[CONTEXT_FIRST_CHANGE as int][i]@,
            cols[SEGMENT_FIRST_CHANGE as int][i]@,
            cols[VIRTUAL_FIRST_CHANGE as int][i]@,
        )
    &&& cols[RANGE_CHECK as int][n - 1].0 == 0
}

/// The counter column counts the rows from zero.
pub open spec fn counter_holds(cols: Seq<Seq<GoldilocksField>>, n: int) -> bool {
    forall|i: int| 0 <= i < n ==> (#[trigger] cols[COUNTER as int][i]).0 == i
}

/// The two permuted columns hold the range-check values in ascending order
/// and the counter values in some order, arranged so that the lookup holds
/// where every range-check value is a counter value.
pub open spec fn lookup_columns_hold(cols: Seq<Seq<GoldilocksField>>) -> bool {
    let inputs = canonical_values(cols[RANGE_CHECK as int]);
    let table = canonical_values(cols[COUNTER as int]);
    let permuted_inputs = canonical_values(cols[RANGE_CHECK_PERMUTED as int]);
    let permuted_table = canonical_values(cols[COUNTER_PERMUTED as int]);
    &&& ascending(permuted_inputs)
    &&& permuted_inputs.to_multiset() == inputs.to_multiset()
    &&& permuted_table.to_multiset() == table.to_multiset()
    &&& all_in_table(inputs, table) ==> lookup_holds(permuted_inputs, permuted_table)
}

/// The columns derived from the ordered columns are as the argument defines them.
pub open spec fn derived_columns_hold(cols: Seq<Seq<GoldilocksField>>, n: int) -> bool {
    &&& flags_hold(cols, n)
    &&& range_check_holds(cols, n)
    &&& counter_holds(cols, n)
    &&& lookup_columns_hold(cols)
}

/// `cols` is the memory table of the log `ops`: the log as it was given, the
/// log in address-then-time order, and the columns derived from that order.
pub open spec fn is_memory_trace(cols: Seq<Seq<GoldilocksField>>, ops: Seq<MemoryOp>) -> bool {
    &&& ops.len() >= 1
    &&& cols.len() == NUM_REGISTERS
    &&& forall|c: int| 0 <= c < NUM_REGISTERS ==> (#[trigger] cols[c]).len() == ops.len()
    &&& block_holds(cols, TIMESTAMP as int, ops)
    &&& is_stable_sort_of(sorted_log(ops), ops)
    &&& block_holds(cols, SORTED_TIMESTAMP as int, sorted_log(ops))
    &&& derived_columns_hold(cols, ops.len() as int)
}

} // verus!
