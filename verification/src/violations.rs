//! Checking a table against the constraints, row by row, by the direct
//! evaluation and by the circuit.

use crate::circuit::{capped, witness_values, CircuitBuilder, ExtensionTarget};
use crate::constraint_consumer::{ConstraintConsumer, ConstraintKind, RecursiveConstraintConsumer};
use crate::constraints::{constraint_at, memory_constraints, row_values, NUM_CONSTRAINTS};
use crate::goldilocks_field::GoldilocksField;
use crate::memory_stark::{
    circuit_computes, target_values, MemoryStark, StarkEvaluationTargets, StarkEvaluationVars,
};
use crate::registers::NUM_REGISTERS;
use vstd::prelude::*;

verus! {

/// The families of constraints.
#[derive(Clone, Copy, PartialEq, Eq, Structural, Debug)]
pub enum ConstraintClass {
    /// A flag, or the unchanged indicator, is neither zero nor one.
    Booleanity,
    /// A flag is set although an address part before its own differs.
    PriorityOrdering,
    /// The range-check cell is not the gap that the flags select.
    RangeCheck,
    /// A read at an unchanged address differs from the row before it.
    ReadConsistency,
    /// A permuted input meets neither the input before it nor the table.
    Lookup,
}

/// A constraint that does not vanish where it must.
#[derive(Clone, Copy, PartialEq, Eq, Structural, Debug)]
pub struct ConstraintViolation {
    /// The row on which it was evaluated.
    pub row: usize,
    /// Its place among the constraints.
    pub index: usize,
    pub class: ConstraintClass,
}

/// A constraint whose degree exceeds the declared bound.
#[derive(Clone, Copy, PartialEq, Eq, Structural, Debug)]
pub struct DegreeMismatch {
    /// Its place among the constraints.
    pub index: usize,
    /// Its degree, capped at the largest `usize`.
    pub degree: usize,
    pub bound: usize,
}

/// The family of constraint `k`.
pub open spec fn class_of(k: int) -> ConstraintClass {
    if k <= 3 {
        ConstraintClass::Booleanity
    } else if k <= 9 {
        ConstraintClass::PriorityOrdering
    } else if k == 10 {
        ConstraintClass::RangeCheck
    } else if k <= 18 {
        ConstraintClass::ReadConsistency
    } else {
        ConstraintClass::Lookup
    }
}

/// A constraint of kind `kind` must vanish on row `row` of `num_rows` rows.
pub open spec fn applies(kind: ConstraintKind, row: int, num_rows: int) -> bool {
    match kind {
        ConstraintKind::EveryRow => true,
        ConstraintKind::Transition => row < num_rows - 1,
        ConstraintKind::LastRow => row == num_rows - 1,
    }
}

/// The row after `row`; after the last row comes the first.
pub open spec fn next_row(row: int, num_rows: int) -> int {
    if row + 1 == num_rows {
        0
    } else {
        row + 1
    }
}

/// Constraint `k` must vanish on row `row` of the table and does not.
pub open spec fn violated_at(rows: Seq<[GoldilocksField; NUM_REGISTERS]>, row: int, k: int) -> bool {
    let constraint = constraint_at(
        row_values(rows[row]),
        row_values(rows[next_row(row, rows.len() as int)]),
        k,
    );
    applies(constraint.0, row, rows.len() as int) && constraint.1 != 0
}

/// Every constraint vanishes on every row on which it must.
pub open spec fn satisfies_constraints(rows: Seq<[GoldilocksField; NUM_REGISTERS]>) -> bool {
    forall|row: int, k: int|
        0 <= row < rows.len() && 0 <= k < NUM_CONSTRAINTS ==> !#[trigger] violated_at(rows, row, k)
}

/// `(row, k)` comes before `(other_row, other_k)` in the order of the check.
pub open spec fn checked_before(row: int, k: int, other_row: int, other_k: int) -> bool {
    row < other_row || (row == other_row && k < other_k)
}

/// What a check of the table returns: nothing where every constraint holds,
/// and else the first violation, rows first.
pub open spec fn is_check_result(
    rows: Seq<[GoldilocksField; NUM_REGISTERS]>,
    result: Result<(), ConstraintViolation>,
) -> bool {
    match result {
        Ok(()) => satisfies_constraints(rows),
        Err(violation) => {
            &&& violation.row < rows.len()
            &&& violation.index < NUM_CONSTRAINTS
            &&& violation.class == class_of(violation.index as int)
            &&& violated_at(rows, violation.row as int, violation.index as int)
            &&& forall|row: int, k: int|
                0 <= row < rows.len() && 0 <= k < NUM_CONSTRAINTS && checked_before(
                    row,
                    k,
                    violation.row as int,
                    violation.index as int,
                ) ==> !#[trigger] violated_at(rows, row, k)
        },
    }
}

/// The direct evaluation and the circuit agree on every table: a check has
/// one result, so what the check by either returns, the check by the other
/// returns too, and it passes exactly where every constraint holds.
pub proof fn lemma_evaluators_agree(
    rows: Seq<[GoldilocksField; NUM_REGISTERS]>,
    a: Result<(), ConstraintViolation>,
    b: Result<(), ConstraintViolation>,
)
    requires
        is_check_result(rows, a),
        is_check_result(rows, b),
    ensures
        a == b,
        a is Ok <==> satisfies_constraints(rows),
{
    match (a, b) {
        (Err(va), Err(vb)) => {
            assert(!checked_before(va.row as int, va.index as int, vb.row as int, vb.index as int));
            assert(!checked_before(vb.row as int, vb.index as int, va.row as int, va.index as int));
            assert(va.row == vb.row && va.index == vb.index && va.class == vb.class);
            assert(va == vb);
        },
        (Ok(ua), Ok(ub)) => {
            assert(ua == ());
            assert(ub == ());
        },
        (Ok(()), Err(vb)) => {
            assert(!violated_at(rows, vb.row as int, vb.index as int));
        },
        (Err(va), Ok(())) => {
            assert(!violated_at(rows, va.row as int, va.index as int));
        },
    }
}

/// The family of constraint `k`.
fn class_of_index(k: usize) -> (class: ConstraintClass)
    ensures
        class == class_of(k as int),
{
    if k <= 3 {
        ConstraintClass::Booleanity
    } else if k <= 9 {
        ConstraintClass::PriorityOrdering
    } else if k == 10 {
        ConstraintClass::RangeCheck
    } else if k <= 18 {
        ConstraintClass::ReadConsistency
    } else {
        ConstraintClass::Lookup
    }
}

/// Whether a constraint of kind `kind` must vanish on row `row`.
fn applies_on(kind: ConstraintKind, row: usize, num_rows: usize) -> (must: bool)
    requires
        row < num_rows,
    ensures
        must == applies(kind, row as int, num_rows as int),
{
    match kind {
        ConstraintKind::EveryRow => true,
        ConstraintKind::Transition => row < num_rows - 1,
        ConstraintKind::LastRow => row == num_rows - 1,
    }
}

impl MemoryStark {
    /// Checks the table against the constraints by the direct evaluation.
    pub fn check_constraints(&self, rows: &Vec<[GoldilocksField; NUM_REGISTERS]>) -> (result:
        Result<(), ConstraintViolation>)
        ensures
            is_check_result(rows@, result),
    {
        let num_rows = rows.len();
        let public_inputs: [GoldilocksField; 0] = [];
        for row in 0..num_rows
            invariant
                num_rows == rows.len(),
                forall|r: int, k: int|
                    0 <= r < row && 0 <= k < NUM_CONSTRAINTS ==> !#[trigger] violated_at(rows@, r, k),
        {
            let next = if row + 1 == num_rows {
                0
            } else {
                row + 1
            };
            let mut yield_constr = ConstraintConsumer::new();
            self.eval_packed_generic(
                StarkEvaluationVars {
                    local_values: &rows[row],
                    next_values: &rows[next],
                    public_inputs: &public_inputs,
                },
                &mut yield_constr,
            );
            assert(yield_constr@ =~= memory_constraints(
                row_values(rows@[row as int]),
                row_values(rows@[next as int]),
            ));
            for k in 0..NUM_CONSTRAINTS
                invariant
                    row < num_rows,
                    num_rows == rows.len(),
                    next == next_row(row as int, num_rows as int),
                    yield_constr@ == memory_constraints(
                        row_values(rows@[row as int]),
                        row_values(rows@[next as int]),
                    ),
                    forall|r: int, j: int|
                        0 <= r < row && 0 <= j < NUM_CONSTRAINTS ==> !#[trigger] violated_at(
                            rows@,
                            r,
                            j,
                        ),
                    forall|j: int| 0 <= j < k ==> !#[trigger] violated_at(rows@, row as int, j),
            {
                let (kind, value) = yield_constr.get(k);
                if applies_on(kind, row, num_rows) && !value.is_zero() {
                    return Err(
                        ConstraintViolation { row, index: k, class: class_of_index(k) },
                    );
                }
            }
        }
        Ok(())
    }
}

/// The circuit of the memory argument on sixty-six inputs: the cells of a
/// row, and behind them the cells of the row after it.
pub struct MemoryCircuit {
    pub builder: CircuitBuilder,
    pub constraints: RecursiveConstraintConsumer,
}

/// The number of inputs of the circuit: two rows.
pub const NUM_CIRCUIT_INPUTS: usize = 66;

impl MemoryCircuit {
    /// The circuit holds the wires of the constraints, and under every
    /// witness each has the kind, the value and the degree of its constraint
    /// on the two rows that the witness holds.
    pub open spec fn well_formed(&self) -> bool {
        &&& self.builder.well_formed()
        &&& self.constraints@.len() == NUM_CONSTRAINTS
        &&& forall|k: int|
            0 <= k < NUM_CONSTRAINTS ==> self.builder.has((#[trigger] self.constraints@[k]).1)
        &&& forall|witness: Seq<int>, k: int|
            witness.len() == NUM_CIRCUIT_INPUTS && 0 <= k < NUM_CONSTRAINTS ==> (
                self.constraints@[k].0,
                #[trigger] self.builder.value(witness, self.constraints@[k].1),
            ) == constraint_at(
                witness.take(NUM_REGISTERS as int),
                witness.skip(NUM_REGISTERS as int),
                k,
            )
        &&& forall|k: int|
            0 <= k < NUM_CONSTRAINTS ==> #[trigger] self.builder.degree(self.constraints@[k].1)
                == crate::constraints::constraint_degree_at(k)
    }
}

/// `count` fresh inputs of a circuit, which carry the witness values from
/// number `first` on.
fn input_row(builder: &mut CircuitBuilder, Ghost(first): Ghost<nat>) -> (row: [ExtensionTarget;
    NUM_REGISTERS])
    requires
        old(builder).well_formed(),
        old(builder).num_inputs() == first,
    ensures
        final(builder).well_formed(),
        final(builder).extends(old(builder)),
        final(builder).num_inputs() == first + NUM_REGISTERS,
        forall|i: int| 0 <= i < NUM_REGISTERS ==> final(builder).has(#[trigger] row[i]),
        forall|i: int| 0 <= i < NUM_REGISTERS ==> final(builder).degree(#[trigger] row[i]) == 1,
        forall|witness: Seq<int>, i: int|
            0 <= i < NUM_REGISTERS && first + i < witness.len() ==> #[trigger] final(builder).value(
                witness,
                row[i],
            ) == witness[first + i],
{
    let mut row = [ExtensionTarget(0);NUM_REGISTERS];
    let ghost start = *builder;
    proof {
        builder.lemma_extends_prefix(&start);
    }
    for c in 0..NUM_REGISTERS
        invariant
            builder.well_formed(),
            builder.extends(&start),
            start.num_inputs() == first,
            builder.num_inputs() == first + c,
            forall|i: int| 0 <= i < c ==> builder.has(#[trigger] row[i]),
            forall|i: int| 0 <= i < c ==> builder.degree(#[trigger] row[i]) == 1,
            forall|witness: Seq<int>, i: int|
                0 <= i < c && first + i < witness.len() ==> #[trigger] builder.value(
                    witness,
                    row[i],
                ) == witness[first + i],
    {
        let ghost before = *builder;
        let ghost row_before = row;
        let target = builder.add_virtual_extension_target();
        row[c] = target;
        proof {
            builder.lemma_extends_transitive(&before, &start);
            assert forall|i: int| 0 <= i < c + 1 implies builder.has(#[trigger] row[i])
                && builder.degree(row[i]) == 1 by {
                if i < c {
                    assert(row[i] == row_before[i]);
                    builder.lemma_extends(&before, Seq::empty(), row_before[i]);
                }
            }
            assert forall|witness: Seq<int>, i: int|
                0 <= i < c + 1 && first + i < witness.len() implies #[trigger] builder.value(
                witness,
                row[i],
            ) == witness[first + i] by {
                if i < c {
                    assert(row[i] == row_before[i]);
                    builder.lemma_extends(&before, witness, row_before[i]);
                }
            }
        }
    }
    row
}

impl MemoryStark {
    /// The circuit of the argument, on inputs of its own.
    pub fn build_circuit(&self) -> (circuit: MemoryCircuit)
        ensures
            circuit.well_formed(),
    {
        let mut builder = CircuitBuilder::new();
        let local = input_row(&mut builder, Ghost(0));
        let ghost with_local = builder;
        let next = input_row(&mut builder, Ghost(NUM_REGISTERS as nat));
        let ghost with_inputs = builder;
        proof {
            assert forall|i: int| 0 <= i < NUM_REGISTERS implies builder.has(#[trigger] local[i])
                && builder.degree(local[i]) == 1 by {
                builder.lemma_extends(&with_local, Seq::empty(), local[i]);
            }
        }
        let public_inputs: [ExtensionTarget; 0] = [];
        let mut constraints = RecursiveConstraintConsumer::new();
        self.eval_ext_circuit(
            &mut builder,
            StarkEvaluationTargets {
                local_values: &local,
                next_values: &next,
                public_inputs: &public_inputs,
            },
            &mut constraints,
        );
        proof {
            assert(constraints@.skip(0) =~= constraints@);
            assert(circuit_computes(&builder, constraints@, local, next));
            assert forall|i: int| 0 <= i < NUM_REGISTERS implies builder.degree(
                #[trigger] local[i],
            ) == 1 by {
                builder.lemma_extends(&with_inputs, Seq::empty(), local[i]);
            }
            assert forall|i: int| 0 <= i < NUM_REGISTERS implies builder.degree(
                #[trigger] next[i],
            ) == 1 by {
                builder.lemma_extends(&with_inputs, Seq::empty(), next[i]);
            }
            assert(crate::memory_stark::rows_of_degree_one(&builder, local, next));
            assert forall|witness: Seq<int>, k: int|
                witness.len() == NUM_CIRCUIT_INPUTS && 0 <= k < NUM_CONSTRAINTS implies (
                constraints@[k].0,
                #[trigger] builder.value(witness, constraints@[k].1),
            ) == constraint_at(
                witness.take(NUM_REGISTERS as int),
                witness.skip(NUM_REGISTERS as int),
                k,
            ) by {
                assert forall|i: int| 0 <= i < NUM_REGISTERS implies target_values(
                    &builder,
                    witness,
                    local,
                )[i] == witness.take(NUM_REGISTERS as int)[i] by {
                    builder.lemma_extends(&with_inputs, witness, local[i]);
                    with_inputs.lemma_extends(&with_local, witness, local[i]);
                    assert(with_local.value(witness, local[i]) == witness[0 + i]);
                }
                assert forall|i: int| 0 <= i < NUM_REGISTERS implies target_values(
                    &builder,
                    witness,
                    next,
                )[i] == witness.skip(NUM_REGISTERS as int)[i] by {
                    builder.lemma_extends(&with_inputs, witness, next[i]);
                    assert(with_inputs.value(witness, next[i]) == witness[NUM_REGISTERS + i]);
                }
                assert(target_values(&builder, witness, local) =~= witness.take(
                    NUM_REGISTERS as int,
                ));
                assert(target_values(&builder, witness, next) =~= witness.skip(
                    NUM_REGISTERS as int,
                ));
            }
        }
        MemoryCircuit { builder, constraints }
    }

    /// Checks the table against the constraints by evaluating the circuit
    /// of the argument on each pair of adjacent rows.
    pub fn check_constraints_circuit(&self, rows: &Vec<[GoldilocksField; NUM_REGISTERS]>) -> (result:
        Result<(), ConstraintViolation>)
        ensures
            is_check_result(rows@, result),
    {
        let circuit = self.build_circuit();
        let num_rows = rows.len();
        for row in 0..num_rows
            invariant
                num_rows == rows.len(),
                circuit.well_formed(),
                forall|r: int, k: int|
                    0 <= r < row && 0 <= k < NUM_CONSTRAINTS ==> !#[trigger] violated_at(rows@, r, k),
        {
            let next = if row + 1 == num_rows {
                0
            } else {
                row + 1
            };
            let witness = two_rows(&rows[row], &rows[next]);
            let values = circuit.builder.evaluate(witness.as_slice());
            let ghost w = witness_values(witness@);
            proof {
                assert(w.take(NUM_REGISTERS as int) =~= row_values(rows@[row as int]));
                assert forall|i: int| 0 <= i < NUM_REGISTERS implies w.skip(NUM_REGISTERS as int)[i]
                    == row_values(rows@[next as int])[i] by {
                    assert(witness@[NUM_REGISTERS + i] == rows@[next as int][i]);
                }
                assert(w.skip(NUM_REGISTERS as int) =~= row_values(rows@[next as int]));
                reveal(CircuitBuilder::value);
            }
            for k in 0..NUM_CONSTRAINTS
                invariant
                    row < num_rows,
                    num_rows == rows.len(),
                    next == next_row(row as int, num_rows as int),
                    circuit.well_formed(),
                    w.len() == NUM_CIRCUIT_INPUTS,
                    w.take(NUM_REGISTERS as int) == row_values(rows@[row as int]),
                    w.skip(NUM_REGISTERS as int) == row_values(rows@[next as int]),
                    values.len() == circuit.builder@.len(),
                    forall|t: int|
                        0 <= t < values.len() ==> (#[trigger] values@[t])@
                            == crate::circuit::wire_value(circuit.builder@, w, t),
                    forall|r: int, j: int|
                        0 <= r < row && 0 <= j < NUM_CONSTRAINTS ==> !#[trigger] violated_at(
                            rows@,
                            r,
                            j,
                        ),
                    forall|j: int| 0 <= j < k ==> !#[trigger] violated_at(rows@, row as int, j),
            {
                let (kind, target) = circuit.constraints.get(k);
                proof {
                    reveal(CircuitBuilder::value);
                    assert(circuit.builder.has(circuit.constraints@[k as int].1));
                    assert((kind, circuit.builder.value(w, target)) == constraint_at(
                        w.take(NUM_REGISTERS as int),
                        w.skip(NUM_REGISTERS as int),
                        k as int,
                    ));
                }
                let value = values[target.0];
                if applies_on(kind, row, num_rows) && !value.is_zero() {
                    return Err(
                        ConstraintViolation { row, index: k, class: class_of_index(k) },
                    );
                }
            }
        }
        Ok(())
    }
}

/// The cells of two rows, one row behind the other.
fn two_rows(local: &[GoldilocksField; NUM_REGISTERS], next: &[GoldilocksField; NUM_REGISTERS]) -> (witness:
    Vec<GoldilocksField>)
    ensures
        witness.len() == NUM_CIRCUIT_INPUTS,
        forall|i: int| 0 <= i < NUM_REGISTERS ==> #[trigger] witness@[i] == local[i],
        forall|i: int| 0 <= i < NUM_REGISTERS ==> #[trigger] witness@[NUM_REGISTERS + i] == next[i],
{
    let mut witness: Vec<GoldilocksField> = Vec::with_capacity(NUM_CIRCUIT_INPUTS);
    for i in 0..NUM_REGISTERS
        invariant
            witness.len() == i,
            forall|r: int| 0 <= r < i ==> #[trigger] witness@[r] == local[r],
    {
        witness.push(local[i]);
    }
    for i in 0..NUM_REGISTERS
        invariant
            witness.len() == NUM_REGISTERS + i,
            forall|r: int| 0 <= r < NUM_REGISTERS ==> #[trigger] witness@[r] == local[r],
            forall|r: int| 0 <= r < i ==> #[trigger] witness@[NUM_REGISTERS + r] == next[r],
    {
        witness.push(next[i]);
    }
    witness
}

/// Checks that no constraint of a circuit has a degree above `bound`.
///
/// Returns the first constraint whose degree exceeds the bound, if there is one.
pub fn check_low_degree(
    builder: &CircuitBuilder,
    constraints: &RecursiveConstraintConsumer,
    bound: usize,
) -> (result: Result<(), DegreeMismatch>)
    requires
        builder.well_formed(),
        forall|k: int| 0 <= k < constraints@.len() ==> builder.has((#[trigger] constraints@[k]).1),
    ensures
        result is Ok <==> forall|k: int|
            0 <= k < constraints@.len() ==> capped(
                #[trigger] builder.degree(constraints@[k].1),
            ) <= bound,
        result matches Err(mismatch) ==> {
            &&& mismatch.index < constraints@.len()
            &&& mismatch.bound == bound
            &&& mismatch.degree == capped(builder.degree(constraints@[mismatch.index as int].1))
            &&& mismatch.degree > bound
            &&& forall|k: int|
                0 <= k < mismatch.index ==> capped(#[trigger] builder.degree(constraints@[k].1))
                    <= bound
        },
{
    let degrees = builder.degrees();
    proof {
        reveal(CircuitBuilder::degree);
    }
    let count = constraints.len();
    for k in 0..count
        invariant
            count == constraints@.len(),
            degrees.len() == builder@.len(),
            forall|t: int|
                0 <= t < degrees.len() ==> #[trigger] degrees@[t] == capped(
                    crate::circuit::wire_degree(builder@, t),
                ),
            forall|j: int|
                0 <= j < constraints@.len() ==> builder.has((#[trigger] constraints@[j]).1),
            forall|j: int|
                0 <= j < k ==> capped(#[trigger] builder.degree(constraints@[j].1)) <= bound,
    {
        let (_, target) = constraints.get(k);
        proof {
            reveal(CircuitBuilder::degree);
            assert(builder.has(constraints@[k as int].1));
        }
        let degree = degrees[target.0];
        assert(degree == capped(builder.degree(constraints@[k as int].1)));
        if degree > bound {
            return Err(DegreeMismatch { index: k, degree, bound });
        }
    }
    Ok(())
}

} // verus!
