//! The polynomial identities of the memory argument, as values over two
//! adjacent rows of the table.

use crate::constraint_consumer::ConstraintKind;
use crate::flags::{address_unchanged, range_check_value};
use crate::flags::lemma_step_gap;
use crate::goldilocks_field::{field_mul, field_order, field_sub, GoldilocksField};
use crate::registers::{
    CONTEXT_FIRST_CHANGE, COUNTER_PERMUTED, NUM_REGISTERS, RANGE_CHECK, RANGE_CHECK_PERMUTED,
    SEGMENT_FIRST_CHANGE, SORTED_ADDR_CONTEXT, SORTED_ADDR_SEGMENT, SORTED_ADDR_VIRTUAL,
    SORTED_IS_READ, SORTED_TIMESTAMP, SORTED_VALUE_START, VIRTUAL_FIRST_CHANGE,
};
use vstd::prelude::*;

verus! {

/// The number of constraints that one evaluation emits.
pub const NUM_CONSTRAINTS: usize = 21;

/// The canonical values of a row.
pub open spec fn row_values(row: [GoldilocksField; NUM_REGISTERS]) -> Seq<int> {
    Seq::new(NUM_REGISTERS as nat, |i: int| row[i]@)
}

/// `flag * (1 - flag)`, which vanishes exactly on zero and one.
pub open spec fn booleanity(flag: int) -> int {
    field_mul(flag, field_sub(1, flag))
}

/// The address-unchanged indicator of a row.
pub open spec fn row_unchanged(local: Seq<int>) -> int {
    address_unchanged(
        local[CONTEXT_FIRST_CHANGE as int],
        local[SEGMENT_FIRST_CHANGE as int],
        local[VIRTUAL_FIRST_CHANGE as int],
    )
}

/// The range-check value that the flags and columns of two rows give.
pub open spec fn row_range_check(local: Seq<int>, next: Seq<int>) -> int {
    range_check_value(
        local[SORTED_ADDR_CONTEXT as int],
        local[SORTED_ADDR_SEGMENT as int],
        local[SORTED_ADDR_VIRTUAL as int],
        local[SORTED_TIMESTAMP as int],
        next[SORTED_ADDR_CONTEXT as int],
        next[SORTED_ADDR_SEGMENT as int],
        next[SORTED_ADDR_VIRTUAL as int],
        next[SORTED_TIMESTAMP as int],
        local[CONTEXT_FIRST_CHANGE as int],
        local[SEGMENT_FIRST_CHANGE as int],
        local[VIRTUAL_FIRST_CHANGE as int],
    )
}

/// The read-consistency constraint of limb `limb`:
/// `is_read_next * address_unchanged * (value_next - value)`.
pub open spec fn read_consistency(local: Seq<int>, next: Seq<int>, limb: int) -> int {
    field_mul(
        field_mul(next[SORTED_IS_READ as int], row_unchanged(local)),
        field_sub(next[SORTED_VALUE_START + limb], local[SORTED_VALUE_START + limb]),
    )
}

/// The difference between the next permuted input and the next permuted table value.
pub open spec fn lookup_table_diff(next: Seq<int>) -> int {
    field_sub(next[RANGE_CHECK_PERMUTED as int], next[COUNTER_PERMUTED as int])
}

/// The lookup constraint: the next permuted input equals the one before it or
/// the table value beside it.
pub open spec fn lookup_step(local: Seq<int>, next: Seq<int>) -> int {
    field_mul(
        field_sub(next[RANGE_CHECK_PERMUTED as int], local[RANGE_CHECK_PERMUTED as int]),
        lookup_table_diff(next),
    )
}

/// Constraint `k` of the memory argument on the rows `local` and `next`: the
/// rows on which it must vanish, and its value.
///
/// In order: four booleanity constraints (the three flags and the unchanged
/// indicator), six priority constraints, the range-check constraint, the eight
/// read-consistency constraints, and the two lookup constraints.
pub open spec fn constraint_at(local: Seq<int>, next: Seq<int>, k: int) -> (ConstraintKind, int) {
    let context_diff = field_sub(next[SORTED_ADDR_CONTEXT as int], local[SORTED_ADDR_CONTEXT as int]);
    let segment_diff = field_sub(next[SORTED_ADDR_SEGMENT as int], local[SORTED_ADDR_SEGMENT as int]);
    let virtual_diff = field_sub(next[SORTED_ADDR_VIRTUAL as int], local[SORTED_ADDR_VIRTUAL as int]);
    let segment_first_change = local[SEGMENT_FIRST_CHANGE as int];
    let virtual_first_change = local[VIRTUAL_FIRST_CHANGE as int];
    let unchanged = row_unchanged(local);
    if k == 0 {
        (ConstraintKind::EveryRow, booleanity(local[CONTEXT_FIRST_CHANGE as int]))
    } else if k == 1 {
        (ConstraintKind::EveryRow, booleanity(segment_first_change))
    } else if k == 2 {
        (ConstraintKind::EveryRow, booleanity(virtual_first_change))
    } else if k == 3 {
        (ConstraintKind::EveryRow, booleanity(unchanged))
    } else if k == 4 {
        (ConstraintKind::Transition, field_mul(segment_first_change, context_diff))
    } else if k == 5 {
        (ConstraintKind::Transition, field_mul(virtual_first_change, context_diff))
    } else if k == 6 {
        (ConstraintKind::Transition, field_mul(virtual_first_change, segment_diff))
    } else if k == 7 {
        (ConstraintKind::Transition, field_mul(unchanged, context_diff))
    } else if k == 8 {
        (ConstraintKind::Transition, field_mul(unchanged, segment_diff))
    } else if k == 9 {
        (ConstraintKind::Transition, field_mul(unchanged, virtual_diff))
    } else if k == 10 {
        (
            ConstraintKind::Transition,
            field_sub(local[RANGE_CHECK as int], row_range_check(local, next)),
        )
    } else if k <= 18 {
        (ConstraintKind::EveryRow, read_consistency(local, next, k - 11))
    } else if k == 19 {
        (ConstraintKind::EveryRow, lookup_step(local, next))
    } else {
        (ConstraintKind::LastRow, lookup_table_diff(next))
    }
}

/// All constraints of the memory argument on the rows `local` and `next`.
pub open spec fn memory_constraints(local: Seq<int>, next: Seq<int>) -> Seq<(ConstraintKind, int)> {
    Seq::new(NUM_CONSTRAINTS as nat, |k: int| constraint_at(local, next, k))
}

/// The degree of constraint `k` as a polynomial in the cells of the two rows.
pub open spec fn constraint_degree_at(k: int) -> nat {
    if k <= 10 {
        2
    } else if k <= 18 {
        3
    } else if k == 19 {
        2
    } else {
        1
    }
}

/// The values are those of a row: one canonical value per column.
pub open spec fn is_row(values: Seq<int>) -> bool {
    &&& values.len() == NUM_REGISTERS
    &&& forall|i: int| 0 <= i < NUM_REGISTERS ==> 0 <= #[trigger] values[i] < field_order()
}

/// The canonical values of a row are those of a row.
pub proof fn lemma_row_values(row: [GoldilocksField; NUM_REGISTERS])
    ensures
        is_row(row_values(row)),
{
}

/// No first-change flag of the row is set: the address is unchanged.
pub open spec fn no_flag_set(local: Seq<int>) -> bool {
    &&& local[CONTEXT_FIRST_CHANGE as int] == 0
    &&& local[SEGMENT_FIRST_CHANGE as int] == 0
    &&& local[VIRTUAL_FIRST_CHANGE as int] == 0
}

/// Where the address is unchanged, the range-check constraint vanishes
/// exactly if the range-check cell is `timestamp_next - timestamp - 1`.
pub proof fn lemma_range_check_unchanged(local: Seq<int>, next: Seq<int>)
    requires
        is_row(local),
        is_row(next),
        no_flag_set(local),
    ensures
        constraint_at(local, next, 10).1 == 0 <==> local[RANGE_CHECK as int] == (
        next[SORTED_TIMESTAMP as int] - local[SORTED_TIMESTAMP as int] - 1) % field_order(),
{
    lemma_step_gap(local[SORTED_ADDR_CONTEXT as int], next[SORTED_ADDR_CONTEXT as int]);
    lemma_step_gap(local[SORTED_ADDR_SEGMENT as int], next[SORTED_ADDR_SEGMENT as int]);
    lemma_step_gap(local[SORTED_ADDR_VIRTUAL as int], next[SORTED_ADDR_VIRTUAL as int]);
    lemma_step_gap(local[SORTED_TIMESTAMP as int], next[SORTED_TIMESTAMP as int]);
    let gap = crate::flags::step_gap(
        local[SORTED_TIMESTAMP as int],
        next[SORTED_TIMESTAMP as int],
    );
    assert(row_unchanged(local) == 1);
    assert(row_range_check(local, next) == gap);
    lemma_difference_vanishes(local[RANGE_CHECK as int], gap);
}

/// The difference of two canonical values vanishes exactly if they are equal.
pub proof fn lemma_difference_vanishes(a: int, b: int)
    requires
        0 <= a < field_order(),
        0 <= b < field_order(),
    ensures
        field_sub(a, b) == 0 <==> a == b,
{
    if a < b {
        assert((a - b) % field_order() == a - b + field_order()) by {
            crate::goldilocks_field::lemma_same_residue(a - b, a - b + field_order(), -1);
        }
    }
}

/// An out-of-order timestamp at an unchanged address takes the range check
/// out of its domain: where the next timestamp is not larger and the
/// range-check constraint vanishes, the range-check cell is at least `bound`,
/// for every `bound` up to the order less the step back in time.
pub proof fn lemma_out_of_order_leaves_domain(local: Seq<int>, next: Seq<int>, bound: int)
    requires
        is_row(local),
        is_row(next),
        no_flag_set(local),
        next[SORTED_TIMESTAMP as int] <= local[SORTED_TIMESTAMP as int],
        bound + (local[SORTED_TIMESTAMP as int] - next[SORTED_TIMESTAMP as int]) < field_order(),
        constraint_at(local, next, 10).1 == 0,
    ensures
        local[RANGE_CHECK as int] >= bound,
{
    lemma_range_check_unchanged(local, next);
    let back = next[SORTED_TIMESTAMP as int] - local[SORTED_TIMESTAMP as int] - 1;
    crate::goldilocks_field::lemma_same_residue(back, back + field_order(), -1);
}

/// On a read at an unchanged address, the read-consistency constraint of a
/// limb vanishes exactly if the limb equals that of the row before.
pub proof fn lemma_read_consistency(local: Seq<int>, next: Seq<int>, limb: int)
    requires
        is_row(local),
        is_row(next),
        no_flag_set(local),
        next[SORTED_IS_READ as int] == 1,
        0 <= limb < 8,
    ensures
        constraint_at(local, next, 11 + limb).1 == 0 <==> next[SORTED_VALUE_START + limb]
            == local[SORTED_VALUE_START + limb],
{
    assert(row_unchanged(local) == 1);
    let diff = field_sub(next[SORTED_VALUE_START + limb], local[SORTED_VALUE_START + limb]);
    lemma_difference_vanishes(next[SORTED_VALUE_START + limb], local[SORTED_VALUE_START + limb]);
    assert(0 <= diff < field_order());
    assert(field_mul(next[SORTED_IS_READ as int], row_unchanged(local)) == 1);
    assert(field_mul(1, diff) == diff);
    assert(read_consistency(local, next, limb) == diff);
}

} // verus!
