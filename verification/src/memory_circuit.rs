//! The shape of the circuit of the memory argument, and the proof that its
//! constraint wires carry the values and the degrees of the constraints.

use crate::circuit::{wire_degree, wire_value, Gate};
use crate::constraint_consumer::ConstraintKind;
use crate::constraints::{constraint_at, constraint_degree_at, NUM_CONSTRAINTS};
use crate::goldilocks_field::{field_mul, lemma_mul_assoc};
use crate::registers::{
    CONTEXT_FIRST_CHANGE, COUNTER_PERMUTED, NUM_REGISTERS, RANGE_CHECK, RANGE_CHECK_PERMUTED,
    SEGMENT_FIRST_CHANGE, SORTED_ADDR_CONTEXT, SORTED_ADDR_SEGMENT, SORTED_ADDR_VIRTUAL,
    SORTED_IS_READ, SORTED_TIMESTAMP, SORTED_VALUE_START, VIRTUAL_FIRST_CHANGE,
};
use vstd::prelude::*;

verus! {

/// The number of gates that the evaluation adds to a circuit.
pub const NUM_GATES: usize = 64;

/// Gate `j` of those that the evaluation adds to a circuit that had `base`
/// gates, where `local` and `next` are the wires of the two rows.
#[verifier::opaque]
pub open spec fn memory_gate(j: int, base: int, local: Seq<usize>, next: Seq<usize>) -> Gate {
    let one = base as usize;
    let unchanged = (base + 3) as usize;
    let context_first_change = local[CONTEXT_FIRST_CHANGE as int];
    let segment_first_change = local[SEGMENT_FIRST_CHANGE as int];
    let virtual_first_change = local[VIRTUAL_FIRST_CHANGE as int];
    if j == 0 {
        Gate::Constant(crate::goldilocks_field::GoldilocksField(1))
    } else if j == 1 {
        Gate::Sub(one, context_first_change)
    } else if j == 2 {
        Gate::Sub((base + 1) as usize, segment_first_change)
    } else if j == 3 {
        Gate::Sub((base + 2) as usize, virtual_first_change)
    } else if j == 4 {
        Gate::Sub(one, context_first_change)
    } else if j == 5 {
        Gate::Sub(one, segment_first_change)
    } else if j == 6 {
        Gate::Sub(one, virtual_first_change)
    } else if j == 7 {
        Gate::Sub(one, unchanged)
    } else if j == 8 {
        Gate::Sub(next[SORTED_ADDR_CONTEXT as int], local[SORTED_ADDR_CONTEXT as int])
    } else if j == 9 {
        Gate::Sub(next[SORTED_ADDR_SEGMENT as int], local[SORTED_ADDR_SEGMENT as int])
    } else if j == 10 {
        Gate::Sub(next[SORTED_ADDR_VIRTUAL as int], local[SORTED_ADDR_VIRTUAL as int])
    } else if j == 11 {
        Gate::Mul(context_first_change, (base + 4) as usize)
    } else if j == 12 {
        Gate::Mul(segment_first_change, (base + 5) as usize)
    } else if j == 13 {
        Gate::Mul(virtual_first_change, (base + 6) as usize)
    } else if j == 14 {
        Gate::Mul(unchanged, (base + 7) as usize)
    } else if j == 15 {
        Gate::Mul(segment_first_change, (base + 8) as usize)
    } else if j == 16 {
        Gate::Mul(virtual_first_change, (base + 8) as usize)
    } else if j == 17 {
        Gate::Mul(virtual_first_change, (base + 9) as usize)
    } else if j == 18 {
        Gate::Mul(unchanged, (base + 8) as usize)
    } else if j == 19 {
        Gate::Mul(unchanged, (base + 9) as usize)
    } else if j == 20 {
        Gate::Mul(unchanged, (base + 10) as usize)
    } else if j == 21 {
        Gate::Sub(next[SORTED_ADDR_CONTEXT as int], local[SORTED_ADDR_CONTEXT as int])
    } else if j == 22 {
        Gate::Sub((base + 21) as usize, one)
    } else if j == 23 {
        Gate::Mul(context_first_change, (base + 22) as usize)
    } else if j == 24 {
        Gate::Sub(next[SORTED_ADDR_SEGMENT as int], local[SORTED_ADDR_SEGMENT as int])
    } else if j == 25 {
        Gate::Sub((base + 24) as usize, one)
    } else if j == 26 {
        Gate::Mul(segment_first_change, (base + 25) as usize)
    } else if j == 27 {
        Gate::Sub(next[SORTED_ADDR_VIRTUAL as int], local[SORTED_ADDR_VIRTUAL as int])
    } else if j == 28 {
        Gate::Sub((base + 27) as usize, one)
    } else if j == 29 {
        Gate::Mul(virtual_first_change, (base + 28) as usize)
    } else if j == 30 {
        Gate::Sub(next[SORTED_TIMESTAMP as int], local[SORTED_TIMESTAMP as int])
    } else if j == 31 {
        Gate::Sub((base + 30) as usize, one)
    } else if j == 32 {
        Gate::Mul(unchanged, (base + 31) as usize)
    } else if j == 33 {
        Gate::Add((base + 23) as usize, (base + 26) as usize)
    } else if j == 34 {
        Gate::Add((base + 33) as usize, (base + 29) as usize)
    } else if j == 35 {
        Gate::Add((base + 34) as usize, (base + 32) as usize)
    } else if j == 36 {
        Gate::Sub(local[RANGE_CHECK as int], (base + 35) as usize)
    } else if j <= 60 {
        let limb = (j - 37) / 3;
        let step = (j - 37) % 3;
        if step == 0 {
            Gate::Sub(next[SORTED_VALUE_START + limb], local[SORTED_VALUE_START + limb])
        } else if step == 1 {
            Gate::Mul(unchanged, (base + j - 1) as usize)
        } else {
            Gate::Mul(next[SORTED_IS_READ as int], (base + j - 1) as usize)
        }
    } else if j == 61 {
        Gate::Sub(next[RANGE_CHECK_PERMUTED as int], local[RANGE_CHECK_PERMUTED as int])
    } else if j == 62 {
        Gate::Sub(next[RANGE_CHECK_PERMUTED as int], next[COUNTER_PERMUTED as int])
    } else {
        Gate::Mul((base + 61) as usize, (base + 62) as usize)
    }
}

/// The three gates of the read-consistency constraint of a limb.
pub proof fn lemma_read_gates(limb: int, base: int, local: Seq<usize>, next: Seq<usize>)
    requires
        0 <= limb < 8,
    ensures
        memory_gate(37 + 3 * limb, base, local, next) == Gate::Sub(
            next[SORTED_VALUE_START + limb],
            local[SORTED_VALUE_START + limb],
        ),
        memory_gate(38 + 3 * limb, base, local, next) == Gate::Mul(
            (base + 3) as usize,
            (base + 37 + 3 * limb) as usize,
        ),
        memory_gate(39 + 3 * limb, base, local, next) == Gate::Mul(
            next[SORTED_IS_READ as int],
            (base + 38 + 3 * limb) as usize,
        ),
{
    reveal(memory_gate);
}

/// Which of the added gates drives constraint `k`.
pub open spec fn constraint_gate(k: int) -> int {
    if k <= 9 {
        11 + k
    } else if k == 10 {
        36
    } else if k <= 18 {
        39 + 3 * (k - 11)
    } else if k == 19 {
        63
    } else {
        62
    }
}

/// The rows on which constraint `k` must vanish.
pub open spec fn constraint_kind_at(k: int) -> ConstraintKind {
    if k <= 3 {
        ConstraintKind::EveryRow
    } else if k <= 10 {
        ConstraintKind::Transition
    } else if k <= 19 {
        ConstraintKind::EveryRow
    } else {
        ConstraintKind::LastRow
    }
}

/// `gates` consists of the gates of `earlier` and the first `count` of the
/// gates that the evaluation adds.
#[verifier::opaque]
pub open spec fn built(
    gates: Seq<Gate>,
    earlier: Seq<Gate>,
    local: Seq<usize>,
    next: Seq<usize>,
    count: int,
) -> bool {
    &&& gates.len() == earlier.len() + count
    &&& begins_with(gates, earlier)
    &&& forall|j: int|
        0 <= j < count ==> gates[earlier.len() + j] == #[trigger] memory_gate(
            j,
            earlier.len() as int,
            local,
            next,
        )
}

/// A circuit to which nothing was added yet.
pub proof fn lemma_no_gate_added(earlier: Seq<Gate>, local: Seq<usize>, next: Seq<usize>)
    ensures
        built(earlier, earlier, local, next, 0),
{
    reveal(built);
}

/// One more of the gates was added.
pub proof fn lemma_one_gate_added(
    before: Seq<Gate>,
    gates: Seq<Gate>,
    earlier: Seq<Gate>,
    local: Seq<usize>,
    next: Seq<usize>,
    count: int,
)
    requires
        built(before, earlier, local, next, count),
        gates == before.push(memory_gate(count, earlier.len() as int, local, next)),
    ensures
        built(gates, earlier, local, next, count + 1),
{
    reveal(built);
}

/// Two more of the gates were added.
pub proof fn lemma_two_gates_added(
    before: Seq<Gate>,
    gates: Seq<Gate>,
    earlier: Seq<Gate>,
    local: Seq<usize>,
    next: Seq<usize>,
    count: int,
)
    requires
        built(before, earlier, local, next, count),
        gates == before.push(memory_gate(count, earlier.len() as int, local, next)).push(
            memory_gate(count + 1, earlier.len() as int, local, next),
        ),
    ensures
        built(gates, earlier, local, next, count + 2),
{
    let middle = before.push(memory_gate(count, earlier.len() as int, local, next));
    lemma_one_gate_added(before, middle, earlier, local, next, count);
    lemma_one_gate_added(middle, gates, earlier, local, next, count + 1);
}

/// Three more of the gates were added.
pub proof fn lemma_three_gates_added(
    before: Seq<Gate>,
    gates: Seq<Gate>,
    earlier: Seq<Gate>,
    local: Seq<usize>,
    next: Seq<usize>,
    count: int,
)
    requires
        built(before, earlier, local, next, count),
        gates == before.push(memory_gate(count, earlier.len() as int, local, next)).push(
            memory_gate(count + 1, earlier.len() as int, local, next),
        ).push(memory_gate(count + 2, earlier.len() as int, local, next)),
    ensures
        built(gates, earlier, local, next, count + 3),
{
    let middle = before.push(memory_gate(count, earlier.len() as int, local, next));
    lemma_one_gate_added(before, middle, earlier, local, next, count);
    lemma_two_gates_added(middle, gates, earlier, local, next, count + 1);
}

/// Four more of the gates were added.
pub proof fn lemma_four_gates_added(
    before: Seq<Gate>,
    gates: Seq<Gate>,
    earlier: Seq<Gate>,
    local: Seq<usize>,
    next: Seq<usize>,
    count: int,
)
    requires
        built(before, earlier, local, next, count),
        gates == before.push(memory_gate(count, earlier.len() as int, local, next)).push(
            memory_gate(count + 1, earlier.len() as int, local, next),
        ).push(memory_gate(count + 2, earlier.len() as int, local, next)).push(
            memory_gate(count + 3, earlier.len() as int, local, next),
        ),
    ensures
        built(gates, earlier, local, next, count + 4),
{
    let middle = before.push(memory_gate(count, earlier.len() as int, local, next));
    lemma_one_gate_added(before, middle, earlier, local, next, count);
    lemma_three_gates_added(middle, gates, earlier, local, next, count + 1);
}

/// What a finished circuit holds: the gates of `earlier`, kept, and behind them
/// the gates that the evaluation adds.
pub proof fn lemma_built(gates: Seq<Gate>, earlier: Seq<Gate>, local: Seq<usize>, next: Seq<usize>)
    requires
        built(gates, earlier, local, next, NUM_GATES as int),
    ensures
        gates.len() == earlier.len() + NUM_GATES,
        begins_with(gates, earlier),
{
    reveal(built);
}

/// `gates` begins with the gates of `earlier`.
pub open spec fn begins_with(gates: Seq<Gate>, earlier: Seq<Gate>) -> bool {
    &&& earlier.len() <= gates.len()
    &&& forall|t: int| 0 <= t < earlier.len() ==> #[trigger] gates[t] == earlier[t]
}

/// The values of the wires of a row.
pub open spec fn wire_values(gates: Seq<Gate>, witness: Seq<int>, row: Seq<usize>) -> Seq<int> {
    Seq::new(row.len(), |i: int| wire_value(gates, witness, row[i] as int))
}

/// The wires of both rows were there before the evaluation added its gates.
pub open spec fn rows_within(base: int, local: Seq<usize>, next: Seq<usize>) -> bool {
    &&& local.len() == NUM_REGISTERS
    &&& next.len() == NUM_REGISTERS
    &&& base + NUM_GATES <= usize::MAX
    &&& forall|i: int| 0 <= i < NUM_REGISTERS ==> 0 <= #[trigger] local[i] < base
    &&& forall|i: int| 0 <= i < NUM_REGISTERS ==> 0 <= #[trigger] next[i] < base
}

/// The values of the wires that several constraints share.
proof fn lemma_shared_wires(
    gates: Seq<Gate>, earlier: Seq<Gate>,
    base: int,
    local: Seq<usize>,
    next: Seq<usize>,
    witness: Seq<int>,
)
    requires
        built(gates, earlier, local, next, NUM_GATES as int),
        base == earlier.len(),
        rows_within(base, local, next),
    ensures
        ({
            let l = wire_values(gates, witness, local);
            let n = wire_values(gates, witness, next);
            &&& wire_value(gates, witness, base) == 1
            &&& wire_value(gates, witness, base + 3) == crate::constraints::row_unchanged(l)
            &&& wire_value(gates, witness, base + 4) == crate::goldilocks_field::field_sub(
                1,
                l[CONTEXT_FIRST_CHANGE as int],
            )
            &&& wire_value(gates, witness, base + 5) == crate::goldilocks_field::field_sub(
                1,
                l[SEGMENT_FIRST_CHANGE as int],
            )
            &&& wire_value(gates, witness, base + 6) == crate::goldilocks_field::field_sub(
                1,
                l[VIRTUAL_FIRST_CHANGE as int],
            )
            &&& wire_value(gates, witness, base + 7) == crate::goldilocks_field::field_sub(
                1,
                crate::constraints::row_unchanged(l),
            )
            &&& wire_value(gates, witness, base + 8) == crate::goldilocks_field::field_sub(
                n[SORTED_ADDR_CONTEXT as int],
                l[SORTED_ADDR_CONTEXT as int],
            )
            &&& wire_value(gates, witness, base + 9) == crate::goldilocks_field::field_sub(
                n[SORTED_ADDR_SEGMENT as int],
                l[SORTED_ADDR_SEGMENT as int],
            )
            &&& wire_value(gates, witness, base + 10) == crate::goldilocks_field::field_sub(
                n[SORTED_ADDR_VIRTUAL as int],
                l[SORTED_ADDR_VIRTUAL as int],
            )
        }),
{
    reveal(memory_gate);
    lemma_gate(gates, earlier, base, local, next, 0);
    lemma_gate(gates, earlier, base, local, next, 1);
    lemma_gate(gates, earlier, base, local, next, 2);
    lemma_gate(gates, earlier, base, local, next, 3);
    lemma_gate(gates, earlier, base, local, next, 4);
    lemma_gate(gates, earlier, base, local, next, 5);
    lemma_gate(gates, earlier, base, local, next, 6);
    lemma_gate(gates, earlier, base, local, next, 7);
    lemma_gate(gates, earlier, base, local, next, 8);
    lemma_gate(gates, earlier, base, local, next, 9);
    lemma_gate(gates, earlier, base, local, next, 10);
    assert(wire_value(gates, witness, base) == 1);
    assert(wire_value(gates, witness, base + 1) == crate::goldilocks_field::field_sub(
        1,
        wire_value(gates, witness, local[CONTEXT_FIRST_CHANGE as int] as int),
    ));
    assert(wire_value(gates, witness, base + 2) == crate::goldilocks_field::field_sub(
        wire_value(gates, witness, base + 1),
        wire_value(gates, witness, local[SEGMENT_FIRST_CHANGE as int] as int),
    ));
    assert(wire_value(gates, witness, base + 3) == crate::goldilocks_field::field_sub(
        wire_value(gates, witness, base + 2),
        wire_value(gates, witness, local[VIRTUAL_FIRST_CHANGE as int] as int),
    ));
}

/// An added gate stands where the evaluation put it.
proof fn lemma_gate(
    gates: Seq<Gate>,
    earlier: Seq<Gate>,
    base: int,
    local: Seq<usize>,
    next: Seq<usize>,
    j: int,
)
    requires
        built(gates, earlier, local, next, NUM_GATES as int),
        base == earlier.len(),
        0 <= j < NUM_GATES,
    ensures
        gates[base + j] == memory_gate(j, base, local, next),
        gates.len() == base + NUM_GATES,
{
    reveal(built);
}

/// The constraint wires carry the values of the constraints.
pub proof fn lemma_memory_circuit_values(
    gates: Seq<Gate>, earlier: Seq<Gate>,
    base: int,
    local: Seq<usize>,
    next: Seq<usize>,
    witness: Seq<int>,
    k: int,
)
    requires
        built(gates, earlier, local, next, NUM_GATES as int),
        base == earlier.len(),
        rows_within(base, local, next),
        0 <= k < NUM_CONSTRAINTS,
    ensures
        wire_value(gates, witness, base + constraint_gate(k)) == constraint_at(
            wire_values(gates, witness, local),
            wire_values(gates, witness, next),
            k,
        ).1,
        constraint_kind_at(k) == constraint_at(
            wire_values(gates, witness, local),
            wire_values(gates, witness, next),
            k,
        ).0,
{
    if k <= 3 {
        lemma_flag_wires(gates, earlier, base, local, next, witness);
    } else if k <= 9 {
        lemma_priority_wires(gates, earlier, base, local, next, witness);
    } else if k == 10 {
        lemma_range_check_wire(gates, earlier, base, local, next, witness);
    } else if k <= 18 {
        lemma_read_wire(gates, earlier, base, local, next, witness, k - 11);
    } else {
        lemma_lookup_wires(gates, earlier, base, local, next, witness);
    }
}

/// The wires of the booleanity constraints carry their values.
proof fn lemma_flag_wires(
    gates: Seq<Gate>, earlier: Seq<Gate>,
    base: int,
    local: Seq<usize>,
    next: Seq<usize>,
    witness: Seq<int>,
)
    requires
        built(gates, earlier, local, next, NUM_GATES as int),
        base == earlier.len(),
        rows_within(base, local, next),
    ensures
        forall|k: int|
            0 <= k <= 3 ==> wire_value(gates, witness, base + 11 + k) == (#[trigger] constraint_at(
                wire_values(gates, witness, local),
                wire_values(gates, witness, next),
                k,
            )).1,
{
    reveal(memory_gate);
    lemma_shared_wires(gates, earlier, base, local, next, witness);
    lemma_gate(gates, earlier, base, local, next, 11);
    lemma_gate(gates, earlier, base, local, next, 12);
    lemma_gate(gates, earlier, base, local, next, 13);
    lemma_gate(gates, earlier, base, local, next, 14);
}

/// The wires of the priority constraints carry their values.
proof fn lemma_priority_wires(
    gates: Seq<Gate>, earlier: Seq<Gate>,
    base: int,
    local: Seq<usize>,
    next: Seq<usize>,
    witness: Seq<int>,
)
    requires
        built(gates, earlier, local, next, NUM_GATES as int),
        base == earlier.len(),
        rows_within(base, local, next),
    ensures
        forall|k: int|
            4 <= k <= 9 ==> wire_value(gates, witness, base + 11 + k) == (#[trigger] constraint_at(
                wire_values(gates, witness, local),
                wire_values(gates, witness, next),
                k,
            )).1,
{
    reveal(memory_gate);
    lemma_shared_wires(gates, earlier, base, local, next, witness);
    lemma_gate(gates, earlier, base, local, next, 15);
    lemma_gate(gates, earlier, base, local, next, 16);
    lemma_gate(gates, earlier, base, local, next, 17);
    lemma_gate(gates, earlier, base, local, next, 18);
    lemma_gate(gates, earlier, base, local, next, 19);
    lemma_gate(gates, earlier, base, local, next, 20);
}

/// The wire of the read-consistency constraint of a limb carries its value.
proof fn lemma_read_wire(
    gates: Seq<Gate>, earlier: Seq<Gate>,
    base: int,
    local: Seq<usize>,
    next: Seq<usize>,
    witness: Seq<int>,
    limb: int,
)
    requires
        built(gates, earlier, local, next, NUM_GATES as int),
        base == earlier.len(),
        rows_within(base, local, next),
        0 <= limb < 8,
    ensures
        wire_value(gates, witness, base + 39 + 3 * limb) == constraint_at(
            wire_values(gates, witness, local),
            wire_values(gates, witness, next),
            11 + limb,
        ).1,
{
    reveal(memory_gate);
    let l = wire_values(gates, witness, local);
    let n = wire_values(gates, witness, next);
    lemma_shared_wires(gates, earlier, base, local, next, witness);
    let j = 37 + 3 * limb;
    lemma_gate(gates, earlier, base, local, next, j);
    lemma_gate(gates, earlier, base, local, next, j + 1);
    lemma_gate(gates, earlier, base, local, next, j + 2);
    assert(memory_gate(j, base, local, next) == Gate::Sub(
        next[SORTED_VALUE_START + limb],
        local[SORTED_VALUE_START + limb],
    ));
    assert(memory_gate(j + 1, base, local, next) == Gate::Mul(
        (base + 3) as usize,
        (base + j) as usize,
    ));
    assert(memory_gate(j + 2, base, local, next) == Gate::Mul(
        next[SORTED_IS_READ as int],
        (base + j + 1) as usize,
    ));
    let diff = wire_value(gates, witness, base + j);
    assert(diff == crate::goldilocks_field::field_sub(
        n[SORTED_VALUE_START + limb],
        l[SORTED_VALUE_START + limb],
    ));
    assert(wire_value(gates, witness, base + j + 1) == field_mul(
        crate::constraints::row_unchanged(l),
        diff,
    ));
    assert(wire_value(gates, witness, base + j + 2) == field_mul(
        n[SORTED_IS_READ as int],
        field_mul(crate::constraints::row_unchanged(l), diff),
    ));
    lemma_mul_assoc(
        n[SORTED_IS_READ as int],
        crate::constraints::row_unchanged(l),
        diff,
    );
}

/// The wires of the lookup constraints carry their values.
proof fn lemma_lookup_wires(
    gates: Seq<Gate>, earlier: Seq<Gate>,
    base: int,
    local: Seq<usize>,
    next: Seq<usize>,
    witness: Seq<int>,
)
    requires
        built(gates, earlier, local, next, NUM_GATES as int),
        base == earlier.len(),
        rows_within(base, local, next),
    ensures
        wire_value(gates, witness, base + 63) == constraint_at(
            wire_values(gates, witness, local),
            wire_values(gates, witness, next),
            19,
        ).1,
        wire_value(gates, witness, base + 62) == constraint_at(
            wire_values(gates, witness, local),
            wire_values(gates, witness, next),
            20,
        ).1,
{
    reveal(memory_gate);
    let l = wire_values(gates, witness, local);
    let n = wire_values(gates, witness, next);
    lemma_gate(gates, earlier, base, local, next, 61);
    lemma_gate(gates, earlier, base, local, next, 62);
    lemma_gate(gates, earlier, base, local, next, 63);
    assert(wire_value(gates, witness, base + 61) == crate::goldilocks_field::field_sub(
        n[RANGE_CHECK_PERMUTED as int],
        l[RANGE_CHECK_PERMUTED as int],
    ));
    assert(wire_value(gates, witness, base + 62) == crate::goldilocks_field::field_sub(
        n[RANGE_CHECK_PERMUTED as int],
        n[COUNTER_PERMUTED as int],
    ));
}

/// The wire of the range-check constraint carries its value.
proof fn lemma_range_check_wire(
    gates: Seq<Gate>, earlier: Seq<Gate>,
    base: int,
    local: Seq<usize>,
    next: Seq<usize>,
    witness: Seq<int>,
)
    requires
        built(gates, earlier, local, next, NUM_GATES as int),
        base == earlier.len(),
        rows_within(base, local, next),
    ensures
        wire_value(gates, witness, base + 36) == constraint_at(
            wire_values(gates, witness, local),
            wire_values(gates, witness, next),
            10,
        ).1,
{
    reveal(memory_gate);
    let l = wire_values(gates, witness, local);
    let n = wire_values(gates, witness, next);
    lemma_shared_wires(gates, earlier, base, local, next, witness);
    lemma_gate(gates, earlier, base, local, next, 21);
    lemma_gate(gates, earlier, base, local, next, 22);
    lemma_gate(gates, earlier, base, local, next, 23);
    lemma_gate(gates, earlier, base, local, next, 24);
    lemma_gate(gates, earlier, base, local, next, 25);
    lemma_gate(gates, earlier, base, local, next, 26);
    lemma_gate(gates, earlier, base, local, next, 27);
    lemma_gate(gates, earlier, base, local, next, 28);
    lemma_gate(gates, earlier, base, local, next, 29);
    lemma_gate(gates, earlier, base, local, next, 30);
    lemma_gate(gates, earlier, base, local, next, 31);
    lemma_gate(gates, earlier, base, local, next, 32);
    lemma_gate(gates, earlier, base, local, next, 33);
    lemma_gate(gates, earlier, base, local, next, 34);
    lemma_gate(gates, earlier, base, local, next, 35);
    lemma_gate(gates, earlier, base, local, next, 36);
    assert(wire_value(gates, witness, base + 21) == crate::goldilocks_field::field_sub(
        n[SORTED_ADDR_CONTEXT as int],
        l[SORTED_ADDR_CONTEXT as int],
    ));
    assert(wire_value(gates, witness, base + 24) == crate::goldilocks_field::field_sub(
        n[SORTED_ADDR_SEGMENT as int],
        l[SORTED_ADDR_SEGMENT as int],
    ));
    assert(wire_value(gates, witness, base + 27) == crate::goldilocks_field::field_sub(
        n[SORTED_ADDR_VIRTUAL as int],
        l[SORTED_ADDR_VIRTUAL as int],
    ));
    assert(wire_value(gates, witness, base + 30) == crate::goldilocks_field::field_sub(
        n[SORTED_TIMESTAMP as int],
        l[SORTED_TIMESTAMP as int],
    ));
    assert(wire_value(gates, witness, base + 22) == crate::flags::step_gap(
        l[SORTED_ADDR_CONTEXT as int],
        n[SORTED_ADDR_CONTEXT as int],
    ));
    assert(wire_value(gates, witness, base + 25) == crate::flags::step_gap(
        l[SORTED_ADDR_SEGMENT as int],
        n[SORTED_ADDR_SEGMENT as int],
    ));
    assert(wire_value(gates, witness, base + 28) == crate::flags::step_gap(
        l[SORTED_ADDR_VIRTUAL as int],
        n[SORTED_ADDR_VIRTUAL as int],
    ));
    assert(wire_value(gates, witness, base + 31) == crate::flags::step_gap(
        l[SORTED_TIMESTAMP as int],
        n[SORTED_TIMESTAMP as int],
    ));
    assert(wire_value(gates, witness, base + 23) == field_mul(
        l[CONTEXT_FIRST_CHANGE as int],
        wire_value(gates, witness, base + 22),
    ));
    assert(wire_value(gates, witness, base + 26) == field_mul(
        l[SEGMENT_FIRST_CHANGE as int],
        wire_value(gates, witness, base + 25),
    ));
    assert(wire_value(gates, witness, base + 29) == field_mul(
        l[VIRTUAL_FIRST_CHANGE as int],
        wire_value(gates, witness, base + 28),
    ));
    assert(wire_value(gates, witness, base + 32) == field_mul(
        crate::constraints::row_unchanged(l),
        wire_value(gates, witness, base + 31),
    ));
    assert(wire_value(gates, witness, base + 33) == crate::goldilocks_field::field_add(
        wire_value(gates, witness, base + 23),
        wire_value(gates, witness, base + 26),
    ));
    assert(wire_value(gates, witness, base + 34) == crate::goldilocks_field::field_add(
        wire_value(gates, witness, base + 33),
        wire_value(gates, witness, base + 29),
    ));
    assert(wire_value(gates, witness, base + 35) == crate::goldilocks_field::field_add(
        wire_value(gates, witness, base + 34),
        wire_value(gates, witness, base + 32),
    ));
}

/// Every wire of both rows has degree one.
pub open spec fn rows_linear(gates: Seq<Gate>, local: Seq<usize>, next: Seq<usize>) -> bool {
    &&& forall|i: int| 0 <= i < NUM_REGISTERS ==> wire_degree(gates, #[trigger] local[i] as int) == 1
    &&& forall|i: int| 0 <= i < NUM_REGISTERS ==> wire_degree(gates, #[trigger] next[i] as int) == 1
}

/// The degrees of the wires that several constraints share.
proof fn lemma_shared_degrees(
    gates: Seq<Gate>,
    earlier: Seq<Gate>,
    base: int,
    local: Seq<usize>,
    next: Seq<usize>,
)
    requires
        built(gates, earlier, local, next, NUM_GATES as int),
        base == earlier.len(),
        rows_within(base, local, next),
        rows_linear(gates, local, next),
    ensures
        wire_degree(gates, base) == 0,
        forall|j: int| 1 <= j <= 10 ==> #[trigger] wire_degree(gates, base + j) == 1,
{
    reveal(memory_gate);
    lemma_gate(gates, earlier, base, local, next, 0);
    lemma_gate(gates, earlier, base, local, next, 1);
    lemma_gate(gates, earlier, base, local, next, 2);
    lemma_gate(gates, earlier, base, local, next, 3);
    lemma_gate(gates, earlier, base, local, next, 4);
    lemma_gate(gates, earlier, base, local, next, 5);
    lemma_gate(gates, earlier, base, local, next, 6);
    lemma_gate(gates, earlier, base, local, next, 7);
    lemma_gate(gates, earlier, base, local, next, 8);
    lemma_gate(gates, earlier, base, local, next, 9);
    lemma_gate(gates, earlier, base, local, next, 10);
    assert(wire_degree(gates, base) == 0);
    assert(wire_degree(gates, base + 1) == 1);
    assert(wire_degree(gates, base + 2) == 1);
    assert(wire_degree(gates, base + 3) == 1);
    assert(wire_degree(gates, base + 4) == 1);
    assert(wire_degree(gates, base + 5) == 1);
    assert(wire_degree(gates, base + 6) == 1);
    assert(wire_degree(gates, base + 7) == 1);
    assert(wire_degree(gates, base + 8) == 1);
    assert(wire_degree(gates, base + 9) == 1);
    assert(wire_degree(gates, base + 10) == 1);
}

/// The degree of the wire of the range-check constraint.
proof fn lemma_range_check_degree(
    gates: Seq<Gate>,
    earlier: Seq<Gate>,
    base: int,
    local: Seq<usize>,
    next: Seq<usize>,
)
    requires
        built(gates, earlier, local, next, NUM_GATES as int),
        base == earlier.len(),
        rows_within(base, local, next),
        rows_linear(gates, local, next),
    ensures
        wire_degree(gates, base + 36) == 2,
{
    reveal(memory_gate);
    lemma_shared_degrees(gates, earlier, base, local, next);
    lemma_gate(gates, earlier, base, local, next, 21);
    lemma_gate(gates, earlier, base, local, next, 22);
    lemma_gate(gates, earlier, base, local, next, 23);
    lemma_gate(gates, earlier, base, local, next, 24);
    lemma_gate(gates, earlier, base, local, next, 25);
    lemma_gate(gates, earlier, base, local, next, 26);
    lemma_gate(gates, earlier, base, local, next, 27);
    lemma_gate(gates, earlier, base, local, next, 28);
    lemma_gate(gates, earlier, base, local, next, 29);
    lemma_gate(gates, earlier, base, local, next, 30);
    lemma_gate(gates, earlier, base, local, next, 31);
    lemma_gate(gates, earlier, base, local, next, 32);
    lemma_gate(gates, earlier, base, local, next, 33);
    lemma_gate(gates, earlier, base, local, next, 34);
    lemma_gate(gates, earlier, base, local, next, 35);
    lemma_gate(gates, earlier, base, local, next, 36);
    assert(wire_degree(gates, base + 3) == 1);
    assert(wire_degree(gates, base + 21) == 1);
    assert(wire_degree(gates, base + 22) == 1);
    assert(wire_degree(gates, base + 23) == 2);
    assert(wire_degree(gates, base + 24) == 1);
    assert(wire_degree(gates, base + 25) == 1);
    assert(wire_degree(gates, base + 26) == 2);
    assert(wire_degree(gates, base + 27) == 1);
    assert(wire_degree(gates, base + 28) == 1);
    assert(wire_degree(gates, base + 29) == 2);
    assert(wire_degree(gates, base + 30) == 1);
    assert(wire_degree(gates, base + 31) == 1);
    assert(wire_degree(gates, base + 32) == 2);
    assert(wire_degree(gates, base + 33) == 2);
    assert(wire_degree(gates, base + 34) == 2);
    assert(wire_degree(gates, base + 35) == 2);
}

/// The constraint wires have the degrees of the constraints.
pub proof fn lemma_memory_circuit_degrees(
    gates: Seq<Gate>, earlier: Seq<Gate>,
    base: int,
    local: Seq<usize>,
    next: Seq<usize>,
    k: int,
)
    requires
        built(gates, earlier, local, next, NUM_GATES as int),
        base == earlier.len(),
        rows_within(base, local, next),
        rows_linear(gates, local, next),
        0 <= k < NUM_CONSTRAINTS,
    ensures
        wire_degree(gates, base + constraint_gate(k)) == constraint_degree_at(k),
{
    reveal(memory_gate);
    lemma_shared_degrees(gates, earlier, base, local, next);
    assert(wire_degree(gates, base + 3) == 1);
    assert(wire_degree(gates, base + 4) == 1);
    assert(wire_degree(gates, base + 5) == 1);
    assert(wire_degree(gates, base + 6) == 1);
    assert(wire_degree(gates, base + 7) == 1);
    assert(wire_degree(gates, base + 8) == 1);
    assert(wire_degree(gates, base + 9) == 1);
    assert(wire_degree(gates, base + 10) == 1);
    if k <= 9 {
        lemma_gate(gates, earlier, base, local, next, 11 + k);
    } else if k == 10 {
        lemma_range_check_degree(gates, earlier, base, local, next);
    } else if k <= 18 {
        let limb = k - 11;
        let j = 37 + 3 * limb;
        lemma_gate(gates, earlier, base, local, next, j);
        lemma_gate(gates, earlier, base, local, next, j + 1);
        lemma_gate(gates, earlier, base, local, next, j + 2);
        assert(memory_gate(j, base, local, next) == Gate::Sub(
            next[SORTED_VALUE_START + limb],
            local[SORTED_VALUE_START + limb],
        ));
        assert(memory_gate(j + 1, base, local, next) == Gate::Mul(
            (base + 3) as usize,
            (base + j) as usize,
        ));
        assert(memory_gate(j + 2, base, local, next) == Gate::Mul(
            next[SORTED_IS_READ as int],
            (base + j + 1) as usize,
        ));
        assert(wire_degree(gates, base + j) == 1);
        assert(wire_degree(gates, base + j + 1) == 2);
    } else {
        lemma_gate(gates, earlier, base, local, next, 61);
        lemma_gate(gates, earlier, base, local, next, 62);
        lemma_gate(gates, earlier, base, local, next, 63);
        assert(wire_degree(gates, base + 61) == 1);
        assert(wire_degree(gates, base + 62) == 1);
    }
}

} // verus!
