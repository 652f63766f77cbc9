//! What a table that satisfies the constraints must hold: range checks within
//! the domain, rows in strictly ascending order, honest flags, and reads that
//! return what the row before them holds.

use crate::violations::{next_row, satisfies_constraints, violated_at};
use crate::constraints::{
    booleanity, lemma_difference_vanishes, lemma_out_of_order_leaves_domain, lemma_row_values,
    lookup_table_diff, no_flag_set, row_range_check, row_unchanged, row_values,
};
use crate::flags::{first_change_flags, lemma_step_gap, step_gap};
use crate::goldilocks_field::{field_mul, field_order, field_sub, GoldilocksField};
use crate::lookup::{canonical_values, lemma_same_members, lookup_holds};
use crate::primality::lemma_no_zero_divisors;
use crate::registers::{
    CONTEXT_FIRST_CHANGE, COUNTER, COUNTER_PERMUTED, NUM_REGISTERS, RANGE_CHECK,
    RANGE_CHECK_PERMUTED, SEGMENT_FIRST_CHANGE, SORTED_ADDR_CONTEXT, SORTED_ADDR_SEGMENT,
    SORTED_ADDR_VIRTUAL, SORTED_IS_READ, SORTED_TIMESTAMP, SORTED_VALUE_START,
    VIRTUAL_FIRST_CHANGE,
};
use crate::trace::{columns_of_rows, counter_holds};
use vstd::prelude::*;

verus! {

/// What the permutation argument of the proof engine establishes of the
/// table: the permuted range-check column holds the range-check values, and
/// the permuted counter column the counter values, each in some order; and
/// the counter column counts the rows from zero.
pub open spec fn permutations_hold(rows: Seq<[GoldilocksField; NUM_REGISTERS]>) -> bool {
    let cols = columns_of_rows(rows);
    &&& canonical_values(cols[RANGE_CHECK_PERMUTED as int]).to_multiset() == canonical_values(
        cols[RANGE_CHECK as int],
    ).to_multiset()
    &&& canonical_values(cols[COUNTER_PERMUTED as int]).to_multiset() == canonical_values(
        cols[COUNTER as int],
    ).to_multiset()
    &&& counter_holds(cols, rows.len() as int)
}

/// A table that the argument accepts: it satisfies the constraints, and the
/// permutation argument holds of it.
pub open spec fn is_accepted(rows: Seq<[GoldilocksField; NUM_REGISTERS]>) -> bool {
    &&& rows.len() >= 1
    &&& satisfies_constraints(rows)
    &&& permutations_hold(rows)
}

/// The address and the timestamp of every row leave room below the order
/// for a gap as large as the table is long, so that no honest gap wraps.
pub open spec fn leaves_room(rows: Seq<[GoldilocksField; NUM_REGISTERS]>) -> bool {
    forall|i: int|
        0 <= i < rows.len() ==> {
            let row = row_values(#[trigger] rows[i]);
            &&& row[SORTED_ADDR_CONTEXT as int] + rows.len() < field_order()
            &&& row[SORTED_ADDR_SEGMENT as int] + rows.len() < field_order()
            &&& row[SORTED_ADDR_VIRTUAL as int] + rows.len() < field_order()
            &&& row[SORTED_TIMESTAMP as int] + rows.len() < field_order()
        }
}

/// The address of `local` and then its timestamp come strictly before those
/// of `next`.
pub open spec fn strictly_before(local: Seq<int>, next: Seq<int>) -> bool {
    let (c0, s0, v0, t0) = (
        local[SORTED_ADDR_CONTEXT as int],
        local[SORTED_ADDR_SEGMENT as int],
        local[SORTED_ADDR_VIRTUAL as int],
        local[SORTED_TIMESTAMP as int],
    );
    let (c1, s1, v1, t1) = (
        next[SORTED_ADDR_CONTEXT as int],
        next[SORTED_ADDR_SEGMENT as int],
        next[SORTED_ADDR_VIRTUAL as int],
        next[SORTED_TIMESTAMP as int],
    );
    c0 < c1 || (c0 == c1 && (s0 < s1 || (s0 == s1 && (v0 < v1 || (v0 == v1 && t0 < t1)))))
}

/// The flags of `local` are the first-change flags of its address and that of `next`.
pub open spec fn flags_are_honest(local: Seq<int>, next: Seq<int>) -> bool {
    (
        local[CONTEXT_FIRST_CHANGE as int],
        local[SEGMENT_FIRST_CHANGE as int],
        local[VIRTUAL_FIRST_CHANGE as int],
    ) == first_change_flags(
        local[SORTED_ADDR_CONTEXT as int],
        local[SORTED_ADDR_SEGMENT as int],
        local[SORTED_ADDR_VIRTUAL as int],
        next[SORTED_ADDR_CONTEXT as int],
        next[SORTED_ADDR_SEGMENT as int],
        next[SORTED_ADDR_VIRTUAL as int],
    )
}

/// Where `next` is a read of the address of `local`, it holds the value of `local`.
pub open spec fn read_returns_held_value(local: Seq<int>, next: Seq<int>) -> bool {
    next[SORTED_IS_READ as int] != 0 && local[SORTED_ADDR_CONTEXT as int]
        == next[SORTED_ADDR_CONTEXT as int] && local[SORTED_ADDR_SEGMENT as int]
        == next[SORTED_ADDR_SEGMENT as int] && local[SORTED_ADDR_VIRTUAL as int]
        == next[SORTED_ADDR_VIRTUAL as int] ==> forall|limb: int|
        0 <= limb < 8 ==> #[trigger] next[SORTED_VALUE_START + limb] == local[SORTED_VALUE_START
            + limb]
}

/// A canonical value whose booleanity constraint vanishes is zero or one.
pub proof fn lemma_boolean(flag: int)
    requires
        0 <= flag < field_order(),
        booleanity(flag) == 0,
    ensures
        flag == 0 || flag == 1,
{
    lemma_no_zero_divisors(flag, field_sub(1, flag));
    lemma_difference_vanishes(1, flag);
}

/// A product of a canonical value and a difference of canonical values
/// vanishes only where the value is zero or the difference is none.
proof fn lemma_product_with_difference(x: int, a: int, b: int)
    requires
        0 <= x < field_order(),
        0 <= a < field_order(),
        0 <= b < field_order(),
        field_mul(x, field_sub(a, b)) == 0,
    ensures
        x == 0 || a == b,
{
    lemma_no_zero_divisors(x, field_sub(a, b));
    lemma_difference_vanishes(a, b);
}

/// The lookup of an accepted table holds: each permuted range-check value
/// is the permuted counter value beside it or the permuted range-check value
/// before it.
pub proof fn lemma_lookup_is_sound(rows: Seq<[GoldilocksField; NUM_REGISTERS]>)
    requires
        rows.len() >= 1,
        satisfies_constraints(rows),
    ensures
        lookup_holds(
            canonical_values(columns_of_rows(rows)[RANGE_CHECK_PERMUTED as int]),
            canonical_values(columns_of_rows(rows)[COUNTER_PERMUTED as int]),
        ),
{
    let n = rows.len() as int;
    let cols = columns_of_rows(rows);
    let inputs = canonical_values(cols[RANGE_CHECK_PERMUTED as int]);
    let table = canonical_values(cols[COUNTER_PERMUTED as int]);
    assert forall|i: int| 0 <= i < inputs.len() implies #[trigger] inputs[i] == table[i] || (i > 0
        && inputs[i] == inputs[i - 1]) by {
        let row = if i == 0 {
            n - 1
        } else {
            i - 1
        };
        assert(next_row(row, n) == i);
        let local = row_values(rows[row]);
        let next = row_values(rows[i]);
        lemma_row_values(rows[row]);
        lemma_row_values(rows[i]);
        assert(inputs[i] == next[RANGE_CHECK_PERMUTED as int]);
        assert(table[i] == next[COUNTER_PERMUTED as int]);
        assert(inputs[row] == local[RANGE_CHECK_PERMUTED as int]);
        if i == 0 {
            assert(!violated_at(rows, row, 20));
            lemma_difference_vanishes(
                next[RANGE_CHECK_PERMUTED as int],
                next[COUNTER_PERMUTED as int],
            );
        } else {
            assert(!violated_at(rows, row, 19));
            let step = field_sub(
                next[RANGE_CHECK_PERMUTED as int],
                local[RANGE_CHECK_PERMUTED as int],
            );
            lemma_no_zero_divisors(step, lookup_table_diff(next));
            lemma_difference_vanishes(
                next[RANGE_CHECK_PERMUTED as int],
                local[RANGE_CHECK_PERMUTED as int],
            );
            lemma_difference_vanishes(
                next[RANGE_CHECK_PERMUTED as int],
                next[COUNTER_PERMUTED as int],
            );
        }
    }
}

/// Where the lookup holds, every permuted input is a value of the permuted table.
pub proof fn lemma_lookup_members(inputs: Seq<u64>, table: Seq<u64>, i: int)
    requires
        inputs.len() == table.len(),
        lookup_holds(inputs, table),
        0 <= i < inputs.len(),
    ensures
        table.contains(inputs[i]),
    decreases i,
{
    if inputs[i] == table[i] {
    } else {
        assert(i > 0 && inputs[i] == inputs[i - 1]);
        lemma_lookup_members(inputs, table, i - 1);
    }
}

/// Every range-check value of an accepted table is below the number of its rows.
pub proof fn lemma_range_checks_are_bounded(rows: Seq<[GoldilocksField; NUM_REGISTERS]>, i: int)
    requires
        is_accepted(rows),
        0 <= i < rows.len(),
    ensures
        row_values(rows[i])[RANGE_CHECK as int] < rows.len(),
{
    let n = rows.len() as int;
    let cols = columns_of_rows(rows);
    let values = canonical_values(cols[RANGE_CHECK as int]);
    let counter = canonical_values(cols[COUNTER as int]);
    let inputs = canonical_values(cols[RANGE_CHECK_PERMUTED as int]);
    let table = canonical_values(cols[COUNTER_PERMUTED as int]);
    let v = values[i];
    assert(v == row_values(rows[i])[RANGE_CHECK as int]);
    assert(values.contains(v));
    lemma_same_members(values, inputs, v);
    let p = choose|p: int| 0 <= p < inputs.len() && inputs[p] == v;
    lemma_lookup_is_sound(rows);
    lemma_lookup_members(inputs, table, p);
    lemma_same_members(table, counter, v);
    let t = choose|t: int| 0 <= t < counter.len() && counter[t] == v;
    assert(cols[COUNTER as int][t].0 == t);
}

/// An out-of-order timestamp is rejected: no accepted table holds two
/// adjacent rows with one address, by their flags, whose timestamps do not
/// grow.
pub proof fn lemma_out_of_order_timestamp_rejected(
    rows: Seq<[GoldilocksField; NUM_REGISTERS]>,
    i: int,
)
    requires
        rows.len() >= 1,
        permutations_hold(rows),
        0 <= i < rows.len() - 1,
        no_flag_set(row_values(rows[i])),
        row_values(rows[i + 1])[SORTED_TIMESTAMP as int] <= row_values(
            rows[i],
        )[SORTED_TIMESTAMP as int],
        row_values(rows[i])[SORTED_TIMESTAMP as int] + rows.len() < field_order(),
    ensures
        !satisfies_constraints(rows),
{
    if satisfies_constraints(rows) {
        lemma_range_checks_are_bounded(rows, i);
        lemma_row_values(rows[i]);
        lemma_row_values(rows[i + 1]);
        assert(next_row(i, rows.len() as int) == i + 1);
        assert(!violated_at(rows, i, 10));
        lemma_out_of_order_leaves_domain(
            row_values(rows[i]),
            row_values(rows[i + 1]),
            rows.len() as int,
        );
    }
}

/// A gap that is below `bound`, between two values that leave room for
/// `bound` below the order, is a step forward.
proof fn lemma_gap_is_forward(cur: int, next: int, bound: int)
    requires
        0 <= cur,
        0 <= next,
        cur + bound < field_order(),
        next < field_order(),
        step_gap(cur, next) < bound,
    ensures
        cur < next,
{
    lemma_step_gap(cur, next);
    if next <= cur {
        crate::goldilocks_field::lemma_same_residue(
            next - cur - 1,
            next - cur - 1 + field_order(),
            -1,
        );
    }
}

/// The unchanged indicator of boolean flags is boolean only where at most
/// one flag is set, and is one exactly where none is.
proof fn lemma_unchanged_of_booleans(c: int, s: int, v: int)
    requires
        c == 0 || c == 1,
        s == 0 || s == 1,
        v == 0 || v == 1,
    ensures
        crate::flags::address_unchanged(c, s, v) == (1 - c - s - v) % field_order(),
        booleanity(crate::flags::address_unchanged(c, s, v)) == 0 ==> c + s + v <= 1,
        c + s + v == 0 ==> crate::flags::address_unchanged(c, s, v) == 1,
        c + s + v == 1 ==> crate::flags::address_unchanged(c, s, v) == 0,
{
    let unchanged = crate::flags::address_unchanged(c, s, v);
    vstd::arithmetic::div_mod::lemma_sub_mod_noop(1 - c, s, field_order());
    vstd::arithmetic::div_mod::lemma_sub_mod_noop(1 - c - s, v, field_order());
    if c + s + v >= 2 {
        crate::goldilocks_field::lemma_same_residue(
            1 - c - s - v,
            1 - c - s - v + field_order(),
            -1,
        );
        if booleanity(unchanged) == 0 {
            lemma_boolean(unchanged);
        }
    }
}

/// Two adjacent rows of an accepted table: the second comes strictly after
/// the first, the flags of the first are honest, and a read in second place
/// returns the value that the first holds.
#[verifier::rlimit(50)]
pub proof fn lemma_accepted_rows_are_sound(rows: Seq<[GoldilocksField; NUM_REGISTERS]>, i: int)
    requires
        is_accepted(rows),
        leaves_room(rows),
        0 <= i < rows.len() - 1,
    ensures
        strictly_before(row_values(rows[i]), row_values(rows[i + 1])),
        flags_are_honest(row_values(rows[i]), row_values(rows[i + 1])),
        read_returns_held_value(row_values(rows[i]), row_values(rows[i + 1])),
{
    let n = rows.len() as int;
    let local = row_values(rows[i]);
    let next = row_values(rows[i + 1]);
    lemma_row_values(rows[i]);
    lemma_row_values(rows[i + 1]);
    assert(next_row(i, n) == i + 1);
    let c = local[CONTEXT_FIRST_CHANGE as int];
    let s = local[SEGMENT_FIRST_CHANGE as int];
    let v = local[VIRTUAL_FIRST_CHANGE as int];
    let unchanged = row_unchanged(local);
    assert(!violated_at(rows, i, 0));
    assert(!violated_at(rows, i, 1));
    assert(!violated_at(rows, i, 2));
    assert(!violated_at(rows, i, 3));
    lemma_boolean(c);
    lemma_boolean(s);
    lemma_boolean(v);
    lemma_unchanged_of_booleans(c, s, v);

    // A flag that is set finds the address parts before its own unchanged.
    assert(!violated_at(rows, i, 4));
    assert(!violated_at(rows, i, 5));
    assert(!violated_at(rows, i, 6));
    assert(!violated_at(rows, i, 7));
    assert(!violated_at(rows, i, 8));
    assert(!violated_at(rows, i, 9));
    let (c0, c1) = (local[SORTED_ADDR_CONTEXT as int], next[SORTED_ADDR_CONTEXT as int]);
    let (s0, s1) = (local[SORTED_ADDR_SEGMENT as int], next[SORTED_ADDR_SEGMENT as int]);
    let (v0, v1) = (local[SORTED_ADDR_VIRTUAL as int], next[SORTED_ADDR_VIRTUAL as int]);
    let (t0, t1) = (local[SORTED_TIMESTAMP as int], next[SORTED_TIMESTAMP as int]);
    lemma_product_with_difference(s, c1, c0);
    lemma_product_with_difference(v, c1, c0);
    lemma_product_with_difference(v, s1, s0);
    lemma_product_with_difference(unchanged, c1, c0);
    lemma_product_with_difference(unchanged, s1, s0);
    lemma_product_with_difference(unchanged, v1, v0);

    // The range check bounds the gap of the column that the flags select.
    assert(!violated_at(rows, i, 10));
    lemma_range_checks_are_bounded(rows, i);
    lemma_difference_vanishes(local[RANGE_CHECK as int], row_range_check(local, next));
    lemma_step_gap(c0, c1);
    lemma_step_gap(s0, s1);
    lemma_step_gap(v0, v1);
    lemma_step_gap(t0, t1);
    assert(forall|x: int| 0 <= x < field_order() ==> #[trigger] field_mul(1, x) == x);
    assert(forall|x: int| 0 <= x < field_order() ==> #[trigger] field_mul(0, x) == 0);
    let gap = local[RANGE_CHECK as int];
    assert(leaves_room(rows));
    assert(rows[i] == rows[i]);
    if c == 1 {
        assert(gap == step_gap(c0, c1));
        lemma_gap_is_forward(c0, c1, n);
    } else if s == 1 {
        assert(gap == step_gap(s0, s1));
        lemma_gap_is_forward(s0, s1, n);
    } else if v == 1 {
        assert(gap == step_gap(v0, v1));
        lemma_gap_is_forward(v0, v1, n);
    } else {
        assert(gap == step_gap(t0, t1));
        lemma_gap_is_forward(t0, t1, n);
    }

    // A read at the unchanged address.
    if next[SORTED_IS_READ as int] != 0 && c0 == c1 && s0 == s1 && v0 == v1 {
        assert(unchanged == 1);
        assert forall|limb: int| 0 <= limb < 8 implies #[trigger] next[SORTED_VALUE_START + limb]
            == local[SORTED_VALUE_START + limb] by {
            assert(!violated_at(rows, i, 11 + limb));
            assert(field_mul(next[SORTED_IS_READ as int], 1) == next[SORTED_IS_READ as int]) by {
                assert(next[SORTED_IS_READ as int] * 1 == next[SORTED_IS_READ as int]);
            }
            lemma_product_with_difference(
                next[SORTED_IS_READ as int],
                next[SORTED_VALUE_START + limb],
                local[SORTED_VALUE_START + limb],
            );
        }
    }
}

} // verus!
