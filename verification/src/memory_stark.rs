//! The memory table: how it is filled from a log of operations, and the
//! constraints that tie each of its rows to the next.

use crate::circuit::{CircuitBuilder, ExtensionTarget};
use crate::completeness::lemma_valid_log_starts_with_writes;
use crate::constraint_consumer::{ConstraintConsumer, ConstraintKind, RecursiveConstraintConsumer};
use crate::constraints::{
    constraint_at, constraint_degree_at, memory_constraints, row_values, NUM_CONSTRAINTS,
};
use crate::flags::{generate_first_change_flags, generate_range_check_value};
use crate::goldilocks_field::GoldilocksField;
use crate::log::{is_canonical_log, is_valid_log};
use crate::lookup::permuted_cols;
use crate::sorting::{is_stable_sort_of, sort_memory_ops, zip_columns, MemoryOp};
use crate::trace::{
    block_holds, columns_of_rows, columns_view, derived_columns_hold,
    first_accesses_are_writes, is_memory_trace, lemma_sorted_log, sorted_log, ConstructionError,
};
use crate::memory_circuit::{
    built, constraint_gate, constraint_kind_at, lemma_built, lemma_four_gates_added,
    lemma_memory_circuit_degrees, lemma_memory_circuit_values, lemma_no_gate_added,
    lemma_three_gates_added, memory_gate, rows_linear, rows_within, wire_values, NUM_GATES,
};
use crate::registers::{
    sorted_value_limb, value_limb, ADDR_CONTEXT, ADDR_SEGMENT, ADDR_VIRTUAL, CONTEXT_FIRST_CHANGE,
    COUNTER, COUNTER_PERMUTED, IS_READ, NUM_REGISTERS, RANGE_CHECK, RANGE_CHECK_PERMUTED,
    SEGMENT_FIRST_CHANGE, SORTED_ADDR_CONTEXT, SORTED_ADDR_SEGMENT, SORTED_ADDR_VIRTUAL,
    SORTED_IS_READ, SORTED_TIMESTAMP, SORTED_VALUE_START, TIMESTAMP, VALUE_START,
    VIRTUAL_FIRST_CHANGE,
};
use vstd::prelude::*;

verus! {

/// The memory of one transaction: one virtual memory space per contract call.
pub struct TransactionMemory {
    pub calls: Vec<ContractMemory>,
}

impl Default for TransactionMemory {
    fn default() -> (memory: Self)
        ensures
            memory.calls@.len() == 0,
    {
        TransactionMemory { calls: Vec::new() }
    }
}

/// A virtual memory space specific to the current contract call.
pub struct ContractMemory {
    pub code: MemorySegment,
    pub main: MemorySegment,
    pub calldata: MemorySegment,
    pub returndata: MemorySegment,
}

/// One segment of a contract's memory, byte by byte.
pub struct MemorySegment {
    pub content: Vec<u8>,
}

/// The values of a polynomial on the rows of the table: one column.
pub struct PolynomialValues {
    pub values: Vec<GoldilocksField>,
}

/// The columns of a table given as polynomials.
pub open spec fn columns_of_polys(polys: Seq<PolynomialValues>) -> Seq<Seq<GoldilocksField>> {
    Seq::new(polys.len(), |c: int| polys[c].values@)
}

/// The columns of a table given by its rows, each as the values of a polynomial.
pub fn trace_rows_to_poly_values(trace_rows: Vec<[GoldilocksField; NUM_REGISTERS]>) -> (polys: Vec<
    PolynomialValues,
>)
    ensures
        polys.len() == NUM_REGISTERS,
        columns_of_polys(polys@) == columns_of_rows(trace_rows@),
{
    let mut polys: Vec<PolynomialValues> = Vec::with_capacity(NUM_REGISTERS);
    for c in 0..NUM_REGISTERS
        invariant
            polys.len() == c,
            forall|k: int|
                0 <= k < c ==> (#[trigger] polys@[k]).values@ == columns_of_rows(trace_rows@)[k],
    {
        let mut values: Vec<GoldilocksField> = Vec::with_capacity(trace_rows.len());
        for r in 0..trace_rows.len()
            invariant
                c < NUM_REGISTERS,
                values.len() == r,
                forall|k: int| 0 <= k < r ==> #[trigger] values@[k] == trace_rows@[k][c as int],
        {
            values.push(trace_rows[r][c]);
        }
        assert(values@ =~= columns_of_rows(trace_rows@)[c as int]);
        polys.push(PolynomialValues { values });
    }
    assert(columns_of_polys(polys@) =~= columns_of_rows(trace_rows@));
    polys
}

/// The argument reads no public inputs.
pub const NUM_PUBLIC_INPUTS: usize = 0;

/// The memory argument.
#[derive(Copy, Clone)]
pub struct MemoryStark {}

/// Two adjacent rows of the table, as field elements.
pub struct StarkEvaluationVars<'a> {
    pub local_values: &'a [GoldilocksField; NUM_REGISTERS],
    pub next_values: &'a [GoldilocksField; NUM_REGISTERS],
    pub public_inputs: &'a [GoldilocksField; NUM_PUBLIC_INPUTS],
}

/// Two adjacent rows of the table, as wires of a circuit.
pub struct StarkEvaluationTargets<'a> {
    pub local_values: &'a [ExtensionTarget; NUM_REGISTERS],
    pub next_values: &'a [ExtensionTarget; NUM_REGISTERS],
    pub public_inputs: &'a [ExtensionTarget; NUM_PUBLIC_INPUTS],
}

/// The wires of a row, by their numbers.
pub open spec fn target_indices(row: [ExtensionTarget; NUM_REGISTERS]) -> Seq<usize> {
    Seq::new(NUM_REGISTERS as nat, |i: int| row[i].0)
}

/// The values that the wires of a row carry under `witness`.
pub open spec fn target_values(
    builder: &CircuitBuilder,
    witness: Seq<int>,
    row: [ExtensionTarget; NUM_REGISTERS],
) -> Seq<int> {
    Seq::new(NUM_REGISTERS as nat, |i: int| builder.value(witness, row[i]))
}

/// Every wire of both rows is a wire of the circuit.
pub open spec fn rows_in_circuit(
    builder: &CircuitBuilder,
    local: [ExtensionTarget; NUM_REGISTERS],
    next: [ExtensionTarget; NUM_REGISTERS],
) -> bool {
    &&& forall|i: int| 0 <= i < NUM_REGISTERS ==> builder.has(#[trigger] local[i])
    &&& forall|i: int| 0 <= i < NUM_REGISTERS ==> builder.has(#[trigger] next[i])
}

/// Every wire of both rows has degree one.
pub open spec fn rows_of_degree_one(
    builder: &CircuitBuilder,
    local: [ExtensionTarget; NUM_REGISTERS],
    next: [ExtensionTarget; NUM_REGISTERS],
) -> bool {
    &&& forall|i: int| 0 <= i < NUM_REGISTERS ==> builder.degree(#[trigger] local[i]) == 1
    &&& forall|i: int| 0 <= i < NUM_REGISTERS ==> builder.degree(#[trigger] next[i]) == 1
}

/// The wires in `emitted` are the constraints of the memory argument on the
/// rows that the wires `local` and `next` carry: under every witness each has
/// the kind and the value that the direct evaluation gives on those rows, and
/// where the rows are inputs, the degree of its constraint.
pub open spec fn circuit_computes(
    builder: &CircuitBuilder,
    emitted: Seq<(ConstraintKind, ExtensionTarget)>,
    local: [ExtensionTarget; NUM_REGISTERS],
    next: [ExtensionTarget; NUM_REGISTERS],
) -> bool {
    &&& emitted.len() == NUM_CONSTRAINTS
    &&& forall|k: int| 0 <= k < NUM_CONSTRAINTS ==> builder.has((#[trigger] emitted[k]).1)
    &&& forall|witness: Seq<int>, k: int|
        0 <= k < NUM_CONSTRAINTS ==> (emitted[k].0, #[trigger] builder.value(witness, emitted[k].1))
            == constraint_at(
            target_values(builder, witness, local),
            target_values(builder, witness, next),
            k,
        )
    &&& rows_of_degree_one(builder, local, next) ==> forall|k: int|
        0 <= k < NUM_CONSTRAINTS ==> #[trigger] builder.degree(emitted[k].1)
            == constraint_degree_at(k)
}

/// Constraint `k` as the circuit evaluation emits it into a circuit that had
/// `base` gates.
pub open spec fn emitted_constraint(base: int, k: int) -> (ConstraintKind, ExtensionTarget) {
    (constraint_kind_at(k), ExtensionTarget((base + constraint_gate(k)) as usize))
}

/// The values of the log that the value columns hold, one array of limbs per row.
fn collect_values(trace_cols: &[Vec<GoldilocksField>], num_trace_rows: usize) -> (values: Vec<
    [GoldilocksField; 8],
>)
    requires
        trace_cols@.len() == NUM_REGISTERS,
        forall|c: int| 0 <= c < NUM_REGISTERS ==> (#[trigger] trace_cols@[c]).len() == num_trace_rows,
    ensures
        values.len() == num_trace_rows,
        forall|i: int, j: int|
            0 <= i < num_trace_rows && 0 <= j < 8 ==> (#[trigger] values@[i])[j]
                == #[trigger] trace_cols@[VALUE_START + j]@[i],
{
    let mut values: Vec<[GoldilocksField; 8]> = Vec::with_capacity(num_trace_rows);
    for i in 0..num_trace_rows
        invariant
            trace_cols@.len() == NUM_REGISTERS,
            forall|c: int|
                0 <= c < NUM_REGISTERS ==> (#[trigger] trace_cols@[c]).len() == num_trace_rows,
            values.len() == i,
            forall|r: int, j: int|
                0 <= r < i && 0 <= j < 8 ==> (#[trigger] values@[r])[j]
                    == #[trigger] trace_cols@[VALUE_START + j]@[r],
    {
        let mut arr = [GoldilocksField::zero();8];
        for j in 0..8usize
            invariant
                i < num_trace_rows,
                trace_cols@.len() == NUM_REGISTERS,
                forall|c: int|
                    0 <= c < NUM_REGISTERS ==> (#[trigger] trace_cols@[c]).len() == num_trace_rows,
                forall|k: int| 0 <= k < j ==> arr[k] == #[trigger] trace_cols@[VALUE_START + k]@[i as int],
        {
            let col = value_limb(j);
            assert(trace_cols@[col as int].len() == num_trace_rows);
            arr[j] = trace_cols[col][i];
        }
        values.push(arr);
    }
    values
}

/// Limb `limb` of each value, as a column.
fn limb_column(values: &Vec<[GoldilocksField; 8]>, limb: usize) -> (column: Vec<GoldilocksField>)
    requires
        limb < 8,
    ensures
        column.len() == values.len(),
        forall|i: int| 0 <= i < values.len() ==> #[trigger] column@[i] == values@[i][limb as int],
{
    let mut column: Vec<GoldilocksField> = Vec::with_capacity(values.len());
    for i in 0..values.len()
        invariant
            limb < 8,
            column.len() == i,
            forall|r: int| 0 <= r < i ==> #[trigger] column@[r] == values@[r][limb as int],
    {
        column.push(values[i][limb]);
    }
    column
}

/// The column that counts `num_rows` rows from zero.
fn counter_column(num_rows: usize) -> (column: Vec<GoldilocksField>)
    ensures
        column.len() == num_rows,
        forall|i: int| 0 <= i < num_rows ==> (#[trigger] column@[i]).0 == i,
{
    let mut column: Vec<GoldilocksField> = Vec::with_capacity(num_rows);
    for i in 0..num_rows
        invariant
            column.len() == i,
            forall|r: int| 0 <= r < i ==> (#[trigger] column@[r]).0 == r,
    {
        column.push(GoldilocksField::from_noncanonical_u64(i as u64));
    }
    column
}

/// Whether each operation that is the first on its address, in the ordered
/// columns of a table, is a write.
fn first_accesses_write(trace_cols: &Vec<Vec<GoldilocksField>>, Ghost(sorted): Ghost<Seq<MemoryOp>>) -> (ok:
    bool)
    requires
        trace_cols.len() == NUM_REGISTERS,
        forall|k: int| 0 <= k < NUM_REGISTERS ==> (#[trigger] trace_cols@[k]).len() == sorted.len(),
        block_holds(columns_view(trace_cols@), SORTED_TIMESTAMP as int, sorted),
    ensures
        ok == first_accesses_are_writes(sorted),
{
    let num_rows = trace_cols[0].len();
    let ghost cols = columns_view(trace_cols@);
    for i in 0..num_rows
        invariant
            num_rows == sorted.len(),
            trace_cols.len() == NUM_REGISTERS,
            forall|k: int|
                0 <= k < NUM_REGISTERS ==> (#[trigger] trace_cols@[k]).len() == sorted.len(),
            cols == columns_view(trace_cols@),
            block_holds(cols, SORTED_TIMESTAMP as int, sorted),
            forall|r: int|
                0 <= r < i ==> #[trigger] crate::trace::write_or_later_access(sorted, r),
    {
        assert(crate::trace::row_holds(cols, SORTED_TIMESTAMP as int, i as int, sorted[i as int]));
        let first = if i == 0 {
            true
        } else {
            assert(crate::trace::row_holds(
                cols,
                SORTED_TIMESTAMP as int,
                i - 1,
                sorted[i - 1],
            ));
            trace_cols[SORTED_ADDR_CONTEXT][i - 1] != trace_cols[SORTED_ADDR_CONTEXT][i]
                || trace_cols[SORTED_ADDR_SEGMENT][i - 1] != trace_cols[SORTED_ADDR_SEGMENT][i]
                || trace_cols[SORTED_ADDR_VIRTUAL][i - 1] != trace_cols[SORTED_ADDR_VIRTUAL][i]
        };
        if first && !trace_cols[SORTED_IS_READ][i].is_zero() {
            assert(!crate::trace::write_or_later_access(sorted, i as int));
            return false;
        }
    }
    true
}

impl MemoryStark {
    /// The number of columns of the table.
    pub const COLUMNS: usize = NUM_REGISTERS;

    /// The number of public inputs: none.
    pub const PUBLIC_INPUTS: usize = NUM_PUBLIC_INPUTS;

    /// The argument; it has no parameters.
    pub fn new() -> Self {
        MemoryStark {  }
    }

    /// The rows of the memory table of a log.
    ///
    /// No table is built for an empty log, nor for one in which the first
    /// operation on some address, in the order of the timestamps, is a read.
    /// A valid log that is not empty always has a table.
    pub fn generate_trace_rows(&self, memory_ops: Vec<MemoryOp>) -> (rows: Result<
        Vec<[GoldilocksField; NUM_REGISTERS]>,
        ConstructionError,
    >)
        ensures
            rows matches Err(ConstructionError::EmptyLog) <==> memory_ops.len() == 0,
            rows matches Err(ConstructionError::ReadWithoutWrite) <==> memory_ops.len() > 0
                && !first_accesses_are_writes(sorted_log(memory_ops@)),
            rows matches Ok(table) ==> table.len() == memory_ops.len() && is_memory_trace(
                columns_of_rows(table@),
                memory_ops@,
            ),
            memory_ops.len() > 0 && is_valid_log(memory_ops@) && is_canonical_log(memory_ops@)
                ==> rows is Ok,
    {
        let num_ops = memory_ops.len();
        if num_ops == 0 {
            return Err(ConstructionError::EmptyLog);
        }
        proof {
            if is_valid_log(memory_ops@) && is_canonical_log(memory_ops@) {
                lemma_valid_log_starts_with_writes(memory_ops@);
            }
        }
        let mut trace_cols: Vec<Vec<GoldilocksField>> = Vec::with_capacity(NUM_REGISTERS);
        for c in 0..NUM_REGISTERS
            invariant
                trace_cols.len() == c,
                forall|k: int| 0 <= k < c ==> (#[trigger] trace_cols@[k]).len() == num_ops,
        {
            trace_cols.push(vec![GoldilocksField::zero(); num_ops]);
        }
        for i in 0..num_ops
            invariant
                num_ops == memory_ops.len(),
                trace_cols.len() == NUM_REGISTERS,
                forall|k: int|
                    0 <= k < NUM_REGISTERS ==> (#[trigger] trace_cols@[k]).len() == num_ops,
                forall|r: int|
                    0 <= r < i ==> crate::trace::row_holds(
                        columns_view(trace_cols@),
                        TIMESTAMP as int,
                        r,
                        #[trigger] memory_ops@[r],
                    ),
        {
            let (timestamp, is_read, context, segment, virt, values) = memory_ops[i];
            let ghost before = trace_cols@;
            trace_cols[TIMESTAMP][i] = timestamp;
            trace_cols[IS_READ][i] = is_read;
            trace_cols[ADDR_CONTEXT][i] = context;
            trace_cols[ADDR_SEGMENT][i] = segment;
            trace_cols[ADDR_VIRTUAL][i] = virt;
            let ghost middle = trace_cols@;
            for j in 0..8usize
                invariant
                    i < num_ops,
                    trace_cols.len() == NUM_REGISTERS,
                    forall|k: int|
                        0 <= k < NUM_REGISTERS ==> (#[trigger] trace_cols@[k]).len() == num_ops,
                    forall|k: int|
                        0 <= k < VALUE_START || VALUE_START + 8 <= k < NUM_REGISTERS
                            ==> #[trigger] trace_cols@[k] == middle[k],
                    forall|k: int, r: int|
                        VALUE_START <= k < VALUE_START + 8 && 0 <= r < num_ops && r != i
                            ==> #[trigger] trace_cols@[k]@[r] == middle[k]@[r],
                    forall|k: int|
                        0 <= k < j ==> (#[trigger] trace_cols@[VALUE_START + k])@[i as int]
                            == values[k],
            {
                trace_cols[value_limb(j)][i] = values[j];
            }
            proof {
                let cols = columns_view(trace_cols@);
                assert forall|r: int| 0 <= r < i + 1 implies crate::trace::row_holds(
                    cols,
                    TIMESTAMP as int,
                    r,
                    #[trigger] memory_ops@[r],
                ) by {
                    if r < i {
                        assert(crate::trace::row_holds(
                            columns_view(before),
                            TIMESTAMP as int,
                            r,
                            memory_ops@[r],
                        ));
                        assert forall|k: int| 0 <= k < 8 implies cols[TIMESTAMP + 5 + k][r]
                            == #[trigger] memory_ops@[r].5[k] by {
                            assert(trace_cols@[VALUE_START + k]@[r] == middle[VALUE_START + k]@[r]);
                        }
                    } else {
                        assert forall|k: int| 0 <= k < 8 implies cols[TIMESTAMP + 5 + k][r]
                            == #[trigger] memory_ops@[r].5[k] by {
                            assert(trace_cols@[VALUE_START + k]@[i as int] == values[k]);
                        }
                    }
                }
            }
        }
        let ghost given = trace_cols@;
        assert(block_holds(columns_view(given), TIMESTAMP as int, memory_ops@));

        self.generate_memory(trace_cols.as_mut_slice());
        assert(is_memory_trace(columns_view(trace_cols@), memory_ops@));
        assert forall|k: int| 0 <= k < NUM_REGISTERS implies (#[trigger] trace_cols@[k]).len()
            == num_ops by {
            assert(columns_view(trace_cols@)[k].len() == num_ops);
        }

        if !first_accesses_write(&trace_cols, Ghost(sorted_log(memory_ops@))) {
            return Err(ConstructionError::ReadWithoutWrite);
        }
        let mut trace_rows: Vec<[GoldilocksField; NUM_REGISTERS]> = Vec::with_capacity(num_ops);
        for r in 0..num_ops
            invariant
                trace_cols.len() == NUM_REGISTERS,
                forall|k: int|
                    0 <= k < NUM_REGISTERS ==> (#[trigger] trace_cols@[k]).len() == num_ops,
                trace_rows.len() == r,
                forall|q: int, c: int|
                    0 <= q < r && 0 <= c < NUM_REGISTERS ==> (#[trigger] trace_rows@[q])[c]
                        == (#[trigger] trace_cols@[c])@[q],
        {
            let mut row = [GoldilocksField::zero();NUM_REGISTERS];
            for c in 0..NUM_REGISTERS
                invariant
                    r < num_ops,
                    trace_cols.len() == NUM_REGISTERS,
                    forall|k: int|
                        0 <= k < NUM_REGISTERS ==> (#[trigger] trace_cols@[k]).len() == num_ops,
                    forall|k: int| 0 <= k < c ==> row[k] == (#[trigger] trace_cols@[k])@[r as int],
            {
                row[c] = trace_cols[c][r];
            }
            trace_rows.push(row);
        }
        proof {
            let by_rows = columns_of_rows(trace_rows@);
            let by_cols = columns_view(trace_cols@);
            assert forall|c: int| 0 <= c < NUM_REGISTERS implies by_rows[c] == by_cols[c] by {
                assert(trace_cols@[c].len() == num_ops);
                assert(by_rows[c] =~= by_cols[c]);
            }
            assert(by_rows =~= by_cols);
        }
        Ok(trace_rows)
    }

    /// Fills the ordered and the derived columns of a table from the columns
    /// that hold the log.
    pub fn generate_memory(&self, trace_cols: &mut [Vec<GoldilocksField>])
        requires
            old(trace_cols)@.len() == NUM_REGISTERS,
            1 <= old(trace_cols)@[0].len(),
            forall|c: int|
                0 <= c < NUM_REGISTERS ==> (#[trigger] old(trace_cols)@[c]).len() == old(
                    trace_cols,
                )@[0].len(),
        ensures
            final(trace_cols)@.len() == NUM_REGISTERS,
            forall|c: int|
                0 <= c < SORTED_TIMESTAMP ==> #[trigger] final(trace_cols)@[c] == old(trace_cols)@[c],
            forall|ops: Seq<MemoryOp>|
                ops.len() == old(trace_cols)@[0].len() && block_holds(
                    columns_view(old(trace_cols)@),
                    TIMESTAMP as int,
                    ops,
                ) ==> #[trigger] is_memory_trace(columns_view(final(trace_cols)@), ops),
    {
        let num_trace_rows = trace_cols[0].len();
        let ghost given = trace_cols@;

        let values = collect_values(trace_cols, num_trace_rows);

        let (
            sorted_timestamp,
            sorted_is_read,
            sorted_context,
            sorted_segment,
            sorted_virtual,
            sorted_values,
        ) = sort_memory_ops(
            trace_cols[TIMESTAMP].as_slice(),
            trace_cols[IS_READ].as_slice(),
            trace_cols[ADDR_CONTEXT].as_slice(),
            trace_cols[ADDR_SEGMENT].as_slice(),
            trace_cols[ADDR_VIRTUAL].as_slice(),
            &values,
        );
        let ghost input = zip_columns(
            given[TIMESTAMP as int]@,
            given[IS_READ as int]@,
            given[ADDR_CONTEXT as int]@,
            given[ADDR_SEGMENT as int]@,
            given[ADDR_VIRTUAL as int]@,
            values@,
            num_trace_rows as nat,
        );
        let ghost output = zip_columns(
            sorted_timestamp@,
            sorted_is_read@,
            sorted_context@,
            sorted_segment@,
            sorted_virtual@,
            sorted_values@,
            num_trace_rows as nat,
        );
        assert(is_stable_sort_of(output, input));

        let (context_first_change, segment_first_change, virtual_first_change) =
            generate_first_change_flags(&sorted_context, &sorted_segment, &sorted_virtual);

        let range_check_value = generate_range_check_value(
            &sorted_context,
            &sorted_segment,
            &sorted_virtual,
            &sorted_timestamp,
            &context_first_change,
            &segment_first_change,
            &virtual_first_change,
        );

        trace_cols[SORTED_TIMESTAMP] = sorted_timestamp;
        trace_cols[SORTED_IS_READ] = sorted_is_read;
        trace_cols[SORTED_ADDR_CONTEXT] = sorted_context;
        trace_cols[SORTED_ADDR_SEGMENT] = sorted_segment;
        trace_cols[SORTED_ADDR_VIRTUAL] = sorted_virtual;
        let ghost ordered = trace_cols@;
        for j in 0..8usize
            invariant
                trace_cols@.len() == NUM_REGISTERS,
                sorted_values.len() == num_trace_rows,
                forall|c: int|
                    0 <= c < SORTED_VALUE_START || SORTED_VALUE_START + 8 <= c < NUM_REGISTERS
                        ==> #[trigger] trace_cols@[c] == ordered[c],
                forall|k: int, i: int|
                    0 <= k < j && 0 <= i < num_trace_rows ==> (#[trigger] trace_cols@[SORTED_VALUE_START + k])@[i]
                        == (#[trigger] sorted_values@[i])[k],
                forall|k: int|
                    0 <= k < j ==> (#[trigger] trace_cols@[SORTED_VALUE_START + k]).len()
                        == num_trace_rows,
        {
            let column = limb_column(&sorted_values, j);
            trace_cols[sorted_value_limb(j)] = column;
        }

        trace_cols[CONTEXT_FIRST_CHANGE] = context_first_change;
        trace_cols[SEGMENT_FIRST_CHANGE] = segment_first_change;
        trace_cols[VIRTUAL_FIRST_CHANGE] = virtual_first_change;

        trace_cols[RANGE_CHECK] = range_check_value;
        trace_cols[COUNTER] = counter_column(num_trace_rows);

        let (permuted_inputs, permuted_table) = permuted_cols(
            trace_cols[RANGE_CHECK].as_slice(),
            trace_cols[COUNTER].as_slice(),
        );
        trace_cols[RANGE_CHECK_PERMUTED] = permuted_inputs;
        trace_cols[COUNTER_PERMUTED] = permuted_table;

        proof {
            let cols = columns_view(trace_cols@);
            let n = num_trace_rows as int;
            assert(block_holds(cols, SORTED_TIMESTAMP as int, output)) by {
                assert forall|i: int| 0 <= i < output.len() implies crate::trace::row_holds(
                    cols,
                    SORTED_TIMESTAMP as int,
                    i,
                    #[trigger] output[i],
                ) by {
                    assert forall|k: int| 0 <= k < 8 implies cols[SORTED_TIMESTAMP + 5 + k][i]
                        == #[trigger] output[i].5[k] by {
                        assert(trace_cols@[SORTED_VALUE_START + k]@[i] == sorted_values@[i][k]);
                    }
                }
            }
            assert(derived_columns_hold(cols, n));
            assert forall|c: int| 0 <= c < NUM_REGISTERS implies (#[trigger] cols[c]).len() == n by {
                if c < SORTED_TIMESTAMP {
                    assert(trace_cols@[c] == given[c]);
                } else if SORTED_VALUE_START <= c < SORTED_VALUE_START + 8 {
                    assert(trace_cols@[SORTED_VALUE_START + (c - SORTED_VALUE_START)].len() == n);
                }
            }
            assert forall|ops: Seq<MemoryOp>|
                ops.len() == n && block_holds(
                    columns_view(given),
                    TIMESTAMP as int,
                    ops,
                ) implies #[trigger] is_memory_trace(cols, ops) by {
                assert(ops =~= input) by {
                    assert forall|i: int| 0 <= i < n implies ops[i] == input[i] by {
                        assert(crate::trace::row_holds(
                            columns_view(given),
                            TIMESTAMP as int,
                            i,
                            ops[i],
                        ));
                        assert forall|k: int| 0 <= k < 8 implies ops[i].5[k] == values@[i][k] by {
                            assert(given[VALUE_START + k]@[i] == values@[i][k]);
                        }
                        assert(ops[i].5 =~= values@[i]);
                    }
                }
                lemma_sorted_log(ops, output);
                assert(block_holds(cols, SORTED_TIMESTAMP as int, sorted_log(ops)));
                assert(block_holds(cols, TIMESTAMP as int, ops)) by {
                    assert forall|i: int| 0 <= i < ops.len() implies crate::trace::row_holds(
                        cols,
                        TIMESTAMP as int,
                        i,
                        #[trigger] ops[i],
                    ) by {
                        assert(crate::trace::row_holds(
                            columns_view(given),
                            TIMESTAMP as int,
                            i,
                            ops[i],
                        ));
                    }
                }
            }
        }
    }

    /// The memory table of a log, as one polynomial per column.
    ///
    /// No table is built for an empty log, nor for one in which the first
    /// operation on some address, in the order of the timestamps, is a read.
    pub fn generate_trace(&self, memory_ops: Vec<MemoryOp>) -> (trace: Result<
        Vec<PolynomialValues>,
        ConstructionError,
    >)
        ensures
            trace matches Err(ConstructionError::EmptyLog) <==> memory_ops.len() == 0,
            trace matches Err(ConstructionError::ReadWithoutWrite) <==> memory_ops.len() > 0
                && !first_accesses_are_writes(sorted_log(memory_ops@)),
            trace matches Ok(polys) ==> polys.len() == NUM_REGISTERS && is_memory_trace(
                columns_of_polys(polys@),
                memory_ops@,
            ),
            memory_ops.len() > 0 && is_valid_log(memory_ops@) && is_canonical_log(memory_ops@)
                ==> trace is Ok,
    {
        // Generate the witness, the permuted columns of the lookup argument included.
        match self.generate_trace_rows(memory_ops) {
            Ok(trace_rows) => Ok(trace_rows_to_poly_values(trace_rows)),
            Err(e) => Err(e),
        }
    }

    /// Evaluates the constraints on two adjacent rows and hands them to
    /// `yield_constr`, in the order of `memory_constraints`.
    pub fn eval_packed_generic(
        &self,
        vars: StarkEvaluationVars,
        yield_constr: &mut ConstraintConsumer,
    )
        ensures
            final(yield_constr)@ == old(yield_constr)@ + memory_constraints(
                row_values(*vars.local_values),
                row_values(*vars.next_values),
            ),
    {
        let one = GoldilocksField::one();
        let ghost local = row_values(*vars.local_values);
        let ghost next = row_values(*vars.next_values);
        let ghost all = memory_constraints(local, next);
        let ghost before = yield_constr@;

        let timestamp = vars.local_values[SORTED_TIMESTAMP];
        let addr_context = vars.local_values[SORTED_ADDR_CONTEXT];
        let addr_segment = vars.local_values[SORTED_ADDR_SEGMENT];
        let addr_virtual = vars.local_values[SORTED_ADDR_VIRTUAL];

        let next_timestamp = vars.next_values[SORTED_TIMESTAMP];
        let next_is_read = vars.next_values[SORTED_IS_READ];
        let next_addr_context = vars.next_values[SORTED_ADDR_CONTEXT];
        let next_addr_segment = vars.next_values[SORTED_ADDR_SEGMENT];
        let next_addr_virtual = vars.next_values[SORTED_ADDR_VIRTUAL];

        let context_first_change = vars.local_values[CONTEXT_FIRST_CHANGE];
        let segment_first_change = vars.local_values[SEGMENT_FIRST_CHANGE];
        let virtual_first_change = vars.local_values[VIRTUAL_FIRST_CHANGE];
        let address_unchanged = one - context_first_change - segment_first_change
            - virtual_first_change;

        let range_check = vars.local_values[RANGE_CHECK];

        let not_context_first_change = one - context_first_change;
        let not_segment_first_change = one - segment_first_change;
        let not_virtual_first_change = one - virtual_first_change;
        let not_address_unchanged = one - address_unchanged;

        // First set of ordering constraints: the flags are boolean.
        yield_constr.constraint(context_first_change * not_context_first_change);
        yield_constr.constraint(segment_first_change * not_segment_first_change);
        yield_constr.constraint(virtual_first_change * not_virtual_first_change);
        yield_constr.constraint(address_unchanged * not_address_unchanged);

        // Second set of ordering constraints: no change before the column of
        // the flag that is set.
        yield_constr.constraint_transition(
            segment_first_change * (next_addr_context - addr_context),
        );
        yield_constr.constraint_transition(
            virtual_first_change * (next_addr_context - addr_context),
        );
        yield_constr.constraint_transition(
            virtual_first_change * (next_addr_segment - addr_segment),
        );
        yield_constr.constraint_transition(address_unchanged * (next_addr_context - addr_context));
        yield_constr.constraint_transition(address_unchanged * (next_addr_segment - addr_segment));
        yield_constr.constraint_transition(address_unchanged * (next_addr_virtual - addr_virtual));

        // Third set of ordering constraints: the range check bounds the
        // difference in the column that should be increasing.
        let range_check_value = context_first_change * (next_addr_context - addr_context - one)
            + segment_first_change * (next_addr_segment - addr_segment - one)
            + virtual_first_change * (next_addr_virtual - addr_virtual - one) + address_unchanged
            * (next_timestamp - timestamp - one);
        yield_constr.constraint_transition(range_check - range_check_value);
        assert(yield_constr@ =~= before + all.take(11));

        // A read at an unchanged address sees the value of the row before it.
        for i in 0..8usize
            invariant
                local == row_values(*vars.local_values),
                next == row_values(*vars.next_values),
                all == memory_constraints(local, next),
                address_unchanged@ == crate::constraints::row_unchanged(local),
                next_is_read@ == next[SORTED_IS_READ as int],
                yield_constr@ == before + all.take(11 + i),
        {
            let value = vars.local_values[sorted_value_limb(i)];
            let next_value = vars.next_values[sorted_value_limb(i)];
            yield_constr.constraint(next_is_read * address_unchanged * (next_value - value));
            assert(yield_constr@ =~= before + all.take(11 + i + 1));
        }

        // Lookup argument for the range check.
        let local_perm_input = vars.local_values[RANGE_CHECK_PERMUTED];
        let next_perm_table = vars.next_values[COUNTER_PERMUTED];
        let next_perm_input = vars.next_values[RANGE_CHECK_PERMUTED];

        // A "vertical" difference between the local and the next permuted input.
        let diff_input_prev = next_perm_input - local_perm_input;
        // A "horizontal" difference between the next permuted input and table value.
        let diff_input_table = next_perm_input - next_perm_table;

        yield_constr.constraint(diff_input_prev * diff_input_table);

        // This constrains the first row: `diff_input_table` is a difference of
        // the next row's values, and the row after the last is the first.
        yield_constr.constraint_last_row(diff_input_table);
        assert(yield_constr@ =~= before + all);
    }

    /// Adds to `builder` the gates that compute the constraints on two
    /// adjacent rows given as wires, and hands the constraint wires to
    /// `yield_constr`, in the order of `memory_constraints`.
    #[verifier::rlimit(100)]
    #[verifier::spinoff_prover]
    pub fn eval_ext_circuit(
        &self,
        builder: &mut CircuitBuilder,
        vars: StarkEvaluationTargets,
        yield_constr: &mut RecursiveConstraintConsumer,
    )
        requires
            old(builder).well_formed(),
            rows_in_circuit(old(builder), *vars.local_values, *vars.next_values),
        ensures
            final(builder).well_formed(),
            final(builder).extends(old(builder)),
            final(builder).num_inputs() == old(builder).num_inputs(),
            final(yield_constr)@.len() == old(yield_constr)@.len() + NUM_CONSTRAINTS,
            final(yield_constr)@.take(old(yield_constr)@.len() as int) == old(yield_constr)@,
            circuit_computes(
                final(builder),
                final(yield_constr)@.skip(old(yield_constr)@.len() as int),
                *vars.local_values,
                *vars.next_values,
            ),
    {
        let ghost base = builder@.len() as int;
        let ghost local = target_indices(*vars.local_values);
        let ghost next = target_indices(*vars.next_values);
        let ghost before = yield_constr@;
        let ghost all = Seq::new(NUM_CONSTRAINTS as nat, |k: int| emitted_constraint(base, k));
        let ghost start = *builder;
        let ghost mut gates = builder@;
        proof {
            reveal(memory_gate);
            lemma_no_gate_added(start@, local, next);
        }

        let one = builder.one_extension();

        let addr_context = vars.local_values[SORTED_ADDR_CONTEXT];
        let addr_segment = vars.local_values[SORTED_ADDR_SEGMENT];
        let addr_virtual = vars.local_values[SORTED_ADDR_VIRTUAL];
        let timestamp = vars.local_values[SORTED_TIMESTAMP];

        let next_addr_context = vars.next_values[SORTED_ADDR_CONTEXT];
        let next_addr_segment = vars.next_values[SORTED_ADDR_SEGMENT];
        let next_addr_virtual = vars.next_values[SORTED_ADDR_VIRTUAL];
        let next_is_read = vars.next_values[SORTED_IS_READ];
        let next_timestamp = vars.next_values[SORTED_TIMESTAMP];

        let context_first_change = vars.local_values[CONTEXT_FIRST_CHANGE];
        let segment_first_change = vars.local_values[SEGMENT_FIRST_CHANGE];
        let virtual_first_change = vars.local_values[VIRTUAL_FIRST_CHANGE];
        let cur = builder.sub_extension(one, context_first_change);
        let cur = builder.sub_extension(cur, segment_first_change);
        let address_unchanged = builder.sub_extension(cur, virtual_first_change);
        proof {
            lemma_four_gates_added(gates, builder@, start@, local, next, 0);
            gates = builder@;
        }

        let range_check = vars.local_values[RANGE_CHECK];

        let not_context_first_change = builder.sub_extension(one, context_first_change);
        let not_segment_first_change = builder.sub_extension(one, segment_first_change);
        let not_virtual_first_change = builder.sub_extension(one, virtual_first_change);
        let not_address_unchanged = builder.sub_extension(one, address_unchanged);
        proof {
            lemma_four_gates_added(gates, builder@, start@, local, next, 4);
            gates = builder@;
        }
        let addr_context_diff = builder.sub_extension(next_addr_context, addr_context);
        let addr_segment_diff = builder.sub_extension(next_addr_segment, addr_segment);
        let addr_virtual_diff = builder.sub_extension(next_addr_virtual, addr_virtual);
        proof {
            lemma_three_gates_added(gates, builder@, start@, local, next, 8);
            gates = builder@;
        }

        // First set of ordering constraints: the flags are boolean.
        let context_first_change_bool = builder.mul_extension(
            context_first_change,
            not_context_first_change,
        );
        yield_constr.constraint(context_first_change_bool);
        let segment_first_change_bool = builder.mul_extension(
            segment_first_change,
            not_segment_first_change,
        );
        yield_constr.constraint(segment_first_change_bool);
        let virtual_first_change_bool = builder.mul_extension(
            virtual_first_change,
            not_virtual_first_change,
        );
        yield_constr.constraint(virtual_first_change_bool);
        let address_unchanged_bool = builder.mul_extension(
            address_unchanged,
            not_address_unchanged,
        );
        yield_constr.constraint(address_unchanged_bool);
        proof {
            lemma_four_gates_added(gates, builder@, start@, local, next, 11);
            gates = builder@;
        }
        assert(yield_constr@ =~= before + all.take(4));

        // Second set of ordering constraints: no change before the column of
        // the flag that is set.
        let segment_first_change_check = builder.mul_extension(
            segment_first_change,
            addr_context_diff,
        );
        yield_constr.constraint_transition(segment_first_change_check);
        let virtual_first_change_check_1 = builder.mul_extension(
            virtual_first_change,
            addr_context_diff,
        );
        yield_constr.constraint_transition(virtual_first_change_check_1);
        let virtual_first_change_check_2 = builder.mul_extension(
            virtual_first_change,
            addr_segment_diff,
        );
        yield_constr.constraint_transition(virtual_first_change_check_2);
        proof {
            lemma_three_gates_added(gates, builder@, start@, local, next, 15);
            gates = builder@;
        }
        let address_unchanged_check_1 = builder.mul_extension(address_unchanged, addr_context_diff);
        yield_constr.constraint_transition(address_unchanged_check_1);
        let address_unchanged_check_2 = builder.mul_extension(address_unchanged, addr_segment_diff);
        yield_constr.constraint_transition(address_unchanged_check_2);
        let address_unchanged_check_3 = builder.mul_extension(address_unchanged, addr_virtual_diff);
        yield_constr.constraint_transition(address_unchanged_check_3);
        proof {
            lemma_three_gates_added(gates, builder@, start@, local, next, 18);
            gates = builder@;
        }
        assert(yield_constr@ =~= before + all.take(10));

        // Third set of ordering constraints: the range check bounds the
        // difference in the column that should be increasing.
        let diff = builder.sub_extension(next_addr_context, addr_context);
        let context_diff = builder.sub_extension(diff, one);
        let context_range_check = builder.mul_extension(context_first_change, context_diff);
        proof {
            lemma_three_gates_added(gates, builder@, start@, local, next, 21);
            gates = builder@;
        }
        let diff = builder.sub_extension(next_addr_segment, addr_segment);
        let segment_diff = builder.sub_extension(diff, one);
        let segment_range_check = builder.mul_extension(segment_first_change, segment_diff);
        proof {
            lemma_three_gates_added(gates, builder@, start@, local, next, 24);
            gates = builder@;
        }
        let diff = builder.sub_extension(next_addr_virtual, addr_virtual);
        let virtual_diff = builder.sub_extension(diff, one);
        let virtual_range_check = builder.mul_extension(virtual_first_change, virtual_diff);
        proof {
            lemma_three_gates_added(gates, builder@, start@, local, next, 27);
            gates = builder@;
        }
        let diff = builder.sub_extension(next_timestamp, timestamp);
        let timestamp_diff = builder.sub_extension(diff, one);
        let timestamp_range_check = builder.mul_extension(address_unchanged, timestamp_diff);
        proof {
            lemma_three_gates_added(gates, builder@, start@, local, next, 30);
            gates = builder@;
        }

        let sum = builder.add_extension(context_range_check, segment_range_check);
        let sum = builder.add_extension(sum, virtual_range_check);
        let range_check_value = builder.add_extension(sum, timestamp_range_check);
        let range_check_diff = builder.sub_extension(range_check, range_check_value);
        yield_constr.constraint_transition(range_check_diff);
        proof {
            lemma_four_gates_added(gates, builder@, start@, local, next, 33);
            gates = builder@;
        }
        assert(yield_constr@ =~= before + all.take(11));

        // A read at an unchanged address sees the value of the row before it.
        for i in 0..8usize
            invariant
                base == start@.len(),
                gates == builder@,
                gates.len() == base + 37 + 3 * i,
                local == target_indices(*vars.local_values),
                next == target_indices(*vars.next_values),
                all == Seq::new(NUM_CONSTRAINTS as nat, |k: int| emitted_constraint(base, k)),
                rows_in_circuit(&start, *vars.local_values, *vars.next_values),
                builder.well_formed(),
                builder.num_inputs() == start.num_inputs(),
                address_unchanged.0 == base + 3,
                next_is_read == vars.next_values[SORTED_IS_READ as int],
                built(builder@, start@, local, next, 37 + 3 * i),
                yield_constr@ == before + all.take(11 + i),
        {
            let value = vars.local_values[sorted_value_limb(i)];
            let next_value = vars.next_values[sorted_value_limb(i)];
            let value_diff = builder.sub_extension(next_value, value);
            let zero_if_read = builder.mul_extension(address_unchanged, value_diff);
            let read_constraint = builder.mul_extension(next_is_read, zero_if_read);
            yield_constr.constraint(read_constraint);
            proof {
                crate::memory_circuit::lemma_read_gates(i as int, base, local, next);
                lemma_three_gates_added(gates, builder@, start@, local, next, 37 + 3 * i);
                gates = builder@;
            }
            assert(yield_constr@ =~= before + all.take(11 + i + 1));
        }

        // Lookup argument for the range check.
        let local_perm_input = vars.local_values[RANGE_CHECK_PERMUTED];
        let next_perm_table = vars.next_values[COUNTER_PERMUTED];
        let next_perm_input = vars.next_values[RANGE_CHECK_PERMUTED];

        // A "vertical" difference between the local and the next permuted input.
        let diff_input_prev = builder.sub_extension(next_perm_input, local_perm_input);
        // A "horizontal" difference between the next permuted input and table value.
        let diff_input_table = builder.sub_extension(next_perm_input, next_perm_table);

        let diff_product = builder.mul_extension(diff_input_prev, diff_input_table);
        yield_constr.constraint(diff_product);

        // This constrains the first row: `diff_input_table` is a difference of
        // the next row's values, and the row after the last is the first.
        yield_constr.constraint_last_row(diff_input_table);
        proof {
            lemma_three_gates_added(gates, builder@, start@, local, next, 61);
            gates = builder@;
        }
        assert(yield_constr@ =~= before + all);

        let total = builder.num_targets();
        proof {
            assert(yield_constr@.skip(before.len() as int) =~= all);
            assert(yield_constr@.take(before.len() as int) =~= before);
            lemma_circuit_computes(
                builder,
                &start,
                all,
                *vars.local_values,
                *vars.next_values,
            );
        }
    }

    /// The largest degree of a constraint.
    pub fn constraint_degree(&self) -> (degree: usize)
        ensures
            degree == 3,
            forall|k: int| 0 <= k < NUM_CONSTRAINTS ==> constraint_degree_at(k) <= degree,
            exists|k: int| 0 <= k < NUM_CONSTRAINTS && constraint_degree_at(k) == degree,
    {
        assert(constraint_degree_at(11) == 3);
        3
    }
}

/// A circuit that holds the gates of the evaluation behind those of `start`
/// extends `start` and computes the constraints.
proof fn lemma_circuit_computes(
    builder: &CircuitBuilder,
    start: &CircuitBuilder,
    emitted: Seq<(ConstraintKind, ExtensionTarget)>,
    local_row: [ExtensionTarget; NUM_REGISTERS],
    next_row: [ExtensionTarget; NUM_REGISTERS],
)
    requires
        built(
            builder@,
            start@,
            target_indices(local_row),
            target_indices(next_row),
            NUM_GATES as int,
        ),
        builder@.len() <= usize::MAX,
        rows_in_circuit(start, local_row, next_row),
        start.num_inputs() == builder.num_inputs(),
        emitted == Seq::new(
            NUM_CONSTRAINTS as nat,
            |k: int| emitted_constraint(start@.len() as int, k),
        ),
    ensures
        builder.extends(start),
        circuit_computes(builder, emitted, local_row, next_row),
{
    let gates = builder@;
    let base = start@.len() as int;
    let local = target_indices(local_row);
    let next = target_indices(next_row);
    reveal(CircuitBuilder::value);
    reveal(CircuitBuilder::degree);
    lemma_built(gates, start@, local, next);
    assert(rows_within(base, local, next));
    builder.lemma_extends_prefix(start);
    assert forall|witness: Seq<int>, k: int| 0 <= k < NUM_CONSTRAINTS implies (
        emitted[k].0,
        #[trigger] builder.value(witness, emitted[k].1),
    ) == constraint_at(
        target_values(builder, witness, local_row),
        target_values(builder, witness, next_row),
        k,
    ) by {
        lemma_memory_circuit_values(gates, start@, base, local, next, witness, k);
        assert(wire_values(gates, witness, local) =~= target_values(builder, witness, local_row));
        assert(wire_values(gates, witness, next) =~= target_values(builder, witness, next_row));
    }
    if rows_of_degree_one(builder, local_row, next_row) {
        assert(rows_linear(gates, local, next));
        assert forall|k: int| 0 <= k < NUM_CONSTRAINTS implies #[trigger] builder.degree(
            emitted[k].1,
        ) == constraint_degree_at(k) by {
            lemma_memory_circuit_degrees(gates, start@, base, local, next, k);
        }
    }
}

} // verus!
