//! A table that was filled from a valid log satisfies the constraints.

use crate::constraints::{
    booleanity, constraint_at, lemma_difference_vanishes, lookup_table_diff, row_range_check,
    row_unchanged, row_values, NUM_CONSTRAINTS,
};
use crate::flags::first_change_flags;
use crate::goldilocks_field::{field_mul, field_order, field_sub, GoldilocksField, ORDER};
use crate::log::{
    consistent_at, is_canonical_log, is_valid_log, is_write, limb_values, memory_after,
};
use crate::lookup::{all_in_table, canonical_values, lookup_holds};
use crate::registers::{
    CONTEXT_FIRST_CHANGE, COUNTER, COUNTER_PERMUTED, NUM_REGISTERS, RANGE_CHECK,
    RANGE_CHECK_PERMUTED, SEGMENT_FIRST_CHANGE, SORTED_ADDR_CONTEXT, SORTED_ADDR_SEGMENT,
    SORTED_ADDR_VIRTUAL, SORTED_IS_READ, SORTED_TIMESTAMP, SORTED_VALUE_START,
    VIRTUAL_FIRST_CHANGE,
};
use crate::sorting::{is_stable_sort_of, key_le, lemma_sort_keeps_members, sort_key, MemoryOp};
use crate::trace::{
    address_of, block_holds, columns_of_rows, flags_hold, is_memory_trace, lookup_columns_hold,
    range_check_holds, row_holds, sorted_log,
};
use crate::violations::{next_row, satisfies_constraints, violated_at};
use vstd::prelude::*;

verus! {

/// Every range-check value of the table is one of its counter values: the
/// ordered log has no gap as large as the table is long.
pub open spec fn range_checks_in_domain(rows: Seq<[GoldilocksField; NUM_REGISTERS]>) -> bool {
    let cols = columns_of_rows(rows);
    all_in_table(canonical_values(cols[RANGE_CHECK as int]), canonical_values(cols[COUNTER as int]))
}

/// Writes to other addresses, and reads, leave the value of an address as it was.
proof fn lemma_memory_kept(ops: Seq<MemoryOp>, from: int, to: int, address: (int, int, int))
    requires
        0 <= from <= to <= ops.len(),
        forall|c: int| from <= c < to ==> address_of(#[trigger] ops[c]) != address,
    ensures
        memory_after(ops.take(to)).dom().contains(address) == memory_after(
            ops.take(from),
        ).dom().contains(address),
        memory_after(ops.take(to))[address] == memory_after(ops.take(from))[address],
    decreases to - from,
{
    if from < to {
        lemma_memory_kept(ops, from, to - 1, address);
        assert(ops.take(to).drop_last() =~= ops.take(to - 1));
        assert(ops.take(to).last() == ops[to - 1]);
    }
}

/// After a consistent operation its address holds its value.
proof fn lemma_memory_holds(ops: Seq<MemoryOp>, at: int)
    requires
        0 <= at < ops.len(),
        consistent_at(ops, at),
    ensures
        memory_after(ops.take(at + 1)).dom().contains(address_of(ops[at])),
        memory_after(ops.take(at + 1))[address_of(ops[at])] == limb_values(ops[at].5),
{
    assert(ops.take(at + 1).drop_last() =~= ops.take(at));
    assert(ops.take(at + 1).last() == ops[at]);
}

/// In a canonical log whose timestamps grow, the operation before another
/// has the smaller key where the two have one address.
proof fn lemma_key_order(ops: Seq<MemoryOp>, a: int, b: int)
    requires
        is_canonical_log(ops),
        crate::log::timestamps_increase(ops),
        0 <= a < ops.len(),
        0 <= b < ops.len(),
        address_of(ops[a]) == address_of(ops[b]),
    ensures
        a < b <==> !key_le(sort_key(ops[b]), sort_key(ops[a])),
        a == b <==> sort_key(ops[a]) == sort_key(ops[b]),
{
    if a < b {
        assert(ops[a].0@ < ops[b].0@);
    } else if b < a {
        assert(ops[b].0@ < ops[a].0@);
    }
}

/// Two adjacent operations of the ordered log with one address: the first
/// is the latest operation on that address before the second, so a read in
/// second place returns the value of the first.
proof fn lemma_adjacent_read(ops: Seq<MemoryOp>, sorted: Seq<MemoryOp>, i: int)
    requires
        is_valid_log(ops),
        is_canonical_log(ops),
        is_stable_sort_of(sorted, ops),
        0 <= i < sorted.len() - 1,
        address_of(sorted[i]) == address_of(sorted[i + 1]),
        !is_write(sorted[i + 1]),
    ensures
        limb_values(sorted[i + 1].5) == limb_values(sorted[i].5),
{
    lemma_sort_keeps_members(sorted, ops);
    let a = choose|a: int| 0 <= a < ops.len() && ops[a] == sorted[i];
    let b = choose|b: int| 0 <= b < ops.len() && ops[b] == sorted[i + 1];
    let address = address_of(ops[b]);
    assert(key_le(sort_key(sorted[i]), sort_key(sorted[i + 1])));
    lemma_key_order(ops, a, b);
    // The two are different operations of the log: else one operation
    // stood twice in the ordered log.
    if a == b {
        lemma_twice(ops, sorted, i, i + 1);
    }
    assert(a < b);
    assert forall|c: int| a + 1 <= c < b implies address_of(#[trigger] ops[c]) != address by {
        if address_of(ops[c]) == address {
            lemma_key_order(ops, a, c);
            lemma_key_order(ops, c, b);
            let p = choose|p: int| 0 <= p < sorted.len() && sorted[p] == ops[c];
            if p <= i {
                assert(key_le(sort_key(sorted[p]), sort_key(sorted[i])));
            } else {
                assert(key_le(sort_key(sorted[i + 1]), sort_key(sorted[p])));
            }
        }
    }
    lemma_memory_kept(ops, a + 1, b, address);
    assert(consistent_at(ops, a));
    lemma_memory_holds(ops, a);
    assert(consistent_at(ops, b));
}

/// No operation of a log with growing timestamps stands twice in its order.
proof fn lemma_twice(ops: Seq<MemoryOp>, sorted: Seq<MemoryOp>, p: int, q: int)
    requires
        is_canonical_log(ops),
        crate::log::timestamps_increase(ops),
        is_stable_sort_of(sorted, ops),
        0 <= p <= q < sorted.len(),
        sorted[p] == sorted[q],
    ensures
        p == q,
{
    if p < q {
        // The operations with the key of `sorted[p]`: at least two in the
        // ordered log, and at most one in the log.
        let k = sort_key(sorted[p]);
        assert(crate::sorting::with_key(sorted, k) == crate::sorting::with_key(ops, k));
        lemma_count_at_least_two(sorted, k, p, q);
        lemma_count_at_most_one(ops, k);
    }
}

/// Two operations with one key make the selection by that key at least two long.
proof fn lemma_count_at_least_two(s: Seq<MemoryOp>, k: crate::sorting::SortKey, p: int, q: int)
    requires
        0 <= p < q < s.len(),
        sort_key(s[p]) == k,
        sort_key(s[q]) == k,
    ensures
        crate::sorting::with_key(s, k).len() >= 2,
    decreases s.len(),
{
    reveal(Seq::filter);
    let rest = s.drop_last();
    if q == s.len() - 1 {
        lemma_count_at_least_one(rest, k, p);
    } else {
        lemma_count_at_least_two(rest, k, p, q);
    }
}

/// An operation with a key makes the selection by that key non-empty.
proof fn lemma_count_at_least_one(s: Seq<MemoryOp>, k: crate::sorting::SortKey, p: int)
    requires
        0 <= p < s.len(),
        sort_key(s[p]) == k,
    ensures
        crate::sorting::with_key(s, k).len() >= 1,
    decreases s.len(),
{
    reveal(Seq::filter);
    let rest = s.drop_last();
    if p < s.len() - 1 {
        lemma_count_at_least_one(rest, k, p);
    }
}

/// In a canonical log whose timestamps grow, at most one operation has a given key.
proof fn lemma_count_at_most_one(ops: Seq<MemoryOp>, k: crate::sorting::SortKey)
    requires
        is_canonical_log(ops),
        crate::log::timestamps_increase(ops),
    ensures
        crate::sorting::with_key(ops, k).len() <= 1,
    decreases ops.len(),
{
    reveal(Seq::filter);
    if ops.len() > 0 {
        let rest = ops.drop_last();
        assert(is_canonical_log(rest)) by {
            assert forall|i: int| 0 <= i < rest.len() implies {
                let op = #[trigger] rest[i];
                &&& op.0.0 < ORDER
                &&& op.2.0 < ORDER
                &&& op.3.0 < ORDER
                &&& op.4.0 < ORDER
            } by {
                assert(rest[i] == ops[i]);
            }
        }
        assert(crate::log::timestamps_increase(rest)) by {
            assert forall|i: int, j: int| 0 <= i < j < rest.len() implies (#[trigger] rest[i]).0@
                < (#[trigger] rest[j]).0@ by {
                assert(rest[i] == ops[i] && rest[j] == ops[j]);
            }
        }
        lemma_count_at_most_one(rest, k);
        if sort_key(ops.last()) == k && crate::sorting::with_key(rest, k).len() > 0 {
            crate::sorting::lemma_selected_is_member(rest, k, 0);
            let w = choose|w: int|
                0 <= w < rest.len() && rest[w] == crate::sorting::with_key(rest, k)[0];
            assert(ops[w] == rest[w]);
            assert(ops[w].0@ < ops[ops.len() - 1].0@);
        }
    }
}

/// The first operation of the ordered log of a valid log is a write.
proof fn lemma_first_is_write(ops: Seq<MemoryOp>, sorted: Seq<MemoryOp>)
    requires
        is_valid_log(ops),
        is_canonical_log(ops),
        is_stable_sort_of(sorted, ops),
        sorted.len() > 0,
    ensures
        is_write(sorted[0]),
{
    lemma_sort_keeps_members(sorted, ops);
    let b = choose|b: int| 0 <= b < ops.len() && ops[b] == sorted[0];
    if !is_write(ops[b]) {
        assert(consistent_at(ops, b));
        let address = address_of(ops[b]);
        // Some operation before `b` wrote to the address.
        let a = lemma_written_before(ops, b, address);
        lemma_key_order(ops, a, b);
        let p = choose|p: int| 0 <= p < sorted.len() && sorted[p] == ops[a];
        assert(key_le(sort_key(sorted[0]), sort_key(sorted[p])));
    }
}

/// In the ordered log of a valid log, each operation that is the first on
/// its address is a write: the table of a valid log can be built.
pub proof fn lemma_valid_log_starts_with_writes(ops: Seq<MemoryOp>)
    requires
        is_valid_log(ops),
        is_canonical_log(ops),
    ensures
        crate::trace::first_accesses_are_writes(sorted_log(ops)),
{
    let sorted = sorted_log(ops);
    crate::trace::lemma_sorted_log_is_sorted(ops);
    lemma_sort_keeps_members(sorted, ops);
    assert forall|i: int| 0 <= i < sorted.len() implies #[trigger] crate::trace::write_or_later_access(
        sorted,
        i,
    ) by {
        if !is_write(sorted[i]) {
            let b = choose|b: int| 0 <= b < ops.len() && ops[b] == sorted[i];
            assert(consistent_at(ops, b));
            let a = lemma_written_before(ops, b, address_of(ops[b]));
            lemma_key_order(ops, a, b);
            let p = choose|p: int| 0 <= p < sorted.len() && sorted[p] == ops[a];
            if p >= i {
                assert(key_le(sort_key(sorted[i]), sort_key(sorted[p])));
            }
            assert(p < i);
            // The operation before `i` lies between two of one address.
            assert(key_le(sort_key(sorted[p]), sort_key(sorted[i - 1])));
            assert(key_le(sort_key(sorted[i - 1]), sort_key(sorted[i])));
            let c = choose|c: int| 0 <= c < ops.len() && ops[c] == sorted[i - 1];
            assert(address_of(sorted[i - 1]) == address_of(sorted[i]));
        }
    }
}

/// An address that the memory holds was written by some operation.
proof fn lemma_written_before(ops: Seq<MemoryOp>, upto: int, address: (int, int, int)) -> (a: int)
    requires
        0 <= upto <= ops.len(),
        memory_after(ops.take(upto)).dom().contains(address),
    ensures
        0 <= a < upto,
        address_of(ops[a]) == address,
    decreases upto,
{
    assert(upto > 0);
    assert(ops.take(upto).drop_last() =~= ops.take(upto - 1));
    assert(ops.take(upto).last() == ops[upto - 1]);
    if address_of(ops[upto - 1]) == address {
        upto - 1
    } else {
        lemma_written_before(ops, upto - 1, address)
    }
}

/// The flags of a row are those of its address and the address of the row after it.
spec fn flags_fit(local: Seq<int>, next: Seq<int>) -> bool {
    (
        local[CONTEXT_FIRST_CHANGE as int],
        local[SEGMENT_FIRST_CHANGE as int],
        local[VIRTUAL_FIRST_CHANGE as int],
    ) == first_change_flags(
        local[SORTED_ADDR_CONTEXT as int],
        local[SORTED_ADDR_SEGMENT as int],
        local[SORTED_ADDR_VIRTUAL as int],
        next[SORTED_ADDR_CONTEXT as int],
        next[SORTED_ADDR_SEGMENT as int],
        next[SORTED_ADDR_VIRTUAL as int],
    )
}

/// No flag of the row is set.
spec fn flags_clear(local: Seq<int>) -> bool {
    &&& local[CONTEXT_FIRST_CHANGE as int] == 0
    &&& local[SEGMENT_FIRST_CHANGE as int] == 0
    &&& local[VIRTUAL_FIRST_CHANGE as int] == 0
}

/// Honest flags are boolean, and so is the unchanged indicator.
proof fn lemma_booleanity_holds(local: Seq<int>, next: Seq<int>, k: int)
    requires
        flags_fit(local, next) || flags_clear(local),
        0 <= k <= 3,
    ensures
        constraint_at(local, next, k).1 == 0,
{
    assert(booleanity(0) == 0);
    assert(booleanity(1) == 0);
}

/// Honest flags respect the priority of the address parts.
proof fn lemma_priority_holds(local: Seq<int>, next: Seq<int>, k: int)
    requires
        crate::constraints::is_row(local),
        crate::constraints::is_row(next),
        flags_fit(local, next),
        4 <= k <= 9,
    ensures
        constraint_at(local, next, k).1 == 0,
{
    assert(forall|x: int| 0 <= x < field_order() ==> #[trigger] field_mul(0, x) == 0);
    assert(forall|x: int| #[trigger] field_mul(x, 0) == 0) by {
        assert forall|x: int| #[trigger] field_mul(x, 0) == 0 by {
            assert(x * 0 == 0) by (nonlinear_arith);
        }
    }
    lemma_difference_vanishes(next[SORTED_ADDR_CONTEXT as int], local[SORTED_ADDR_CONTEXT as int]);
    lemma_difference_vanishes(next[SORTED_ADDR_SEGMENT as int], local[SORTED_ADDR_SEGMENT as int]);
    lemma_difference_vanishes(next[SORTED_ADDR_VIRTUAL as int], local[SORTED_ADDR_VIRTUAL as int]);
    let context_diff = field_sub(
        next[SORTED_ADDR_CONTEXT as int],
        local[SORTED_ADDR_CONTEXT as int],
    );
    let segment_diff = field_sub(
        next[SORTED_ADDR_SEGMENT as int],
        local[SORTED_ADDR_SEGMENT as int],
    );
    let virtual_diff = field_sub(
        next[SORTED_ADDR_VIRTUAL as int],
        local[SORTED_ADDR_VIRTUAL as int],
    );
    assert(0 <= context_diff < field_order());
    assert(0 <= segment_diff < field_order());
    assert(0 <= virtual_diff < field_order());
}

/// A product with a zero factor vanishes.
proof fn lemma_zero_product(x: int)
    ensures
        field_mul(x, 0) == 0,
        field_mul(0, x) == 0,
{
    assert(x * 0 == 0 && 0 * x == 0) by (nonlinear_arith);
}

/// A read-consistency constraint vanishes where the next row is a write, the
/// address changes, or the limb is that of the row before.
proof fn lemma_read_holds(local: Seq<int>, next: Seq<int>, limb: int)
    requires
        crate::constraints::is_row(local),
        crate::constraints::is_row(next),
        0 <= limb < 8,
        next[SORTED_IS_READ as int] == 0 || row_unchanged(local) == 0 || next[SORTED_VALUE_START
            + limb] == local[SORTED_VALUE_START + limb],
    ensures
        constraint_at(local, next, 11 + limb).1 == 0,
{
    let diff = field_sub(next[SORTED_VALUE_START + limb], local[SORTED_VALUE_START + limb]);
    lemma_zero_product(row_unchanged(local));
    lemma_zero_product(next[SORTED_IS_READ as int]);
    lemma_zero_product(diff);
    lemma_zero_product(field_mul(next[SORTED_IS_READ as int], row_unchanged(local)));
}

/// The lookup constraints vanish where the next permuted input is the
/// permuted table value beside it or the permuted input before it.
proof fn lemma_lookup_holds(local: Seq<int>, next: Seq<int>)
    requires
        crate::constraints::is_row(local),
        crate::constraints::is_row(next),
        next[RANGE_CHECK_PERMUTED as int] == next[COUNTER_PERMUTED as int] || next[
        RANGE_CHECK_PERMUTED as int
        ] == local[RANGE_CHECK_PERMUTED as int],
    ensures
        constraint_at(local, next, 19).1 == 0,
        next[RANGE_CHECK_PERMUTED as int] == next[COUNTER_PERMUTED as int] ==> constraint_at(
            local,
            next,
            20,
        ).1 == 0,
{
    lemma_zero_product(lookup_table_diff(next));
    lemma_zero_product(
        field_sub(next[RANGE_CHECK_PERMUTED as int], local[RANGE_CHECK_PERMUTED as int]),
    );
}

/// The table of a valid log satisfies the constraints.
///
/// The log is valid: its timestamps grow, and every read returns the value
/// of the latest write to its address. Its timestamps and addresses are
/// held by their canonical representatives. The ordered log has no gap as
/// large as the table is long, so that every range-check value is a counter
/// value.
pub proof fn lemma_valid_log_satisfies_constraints(
    ops: Seq<MemoryOp>,
    rows: Seq<[GoldilocksField; NUM_REGISTERS]>,
)
    requires
        rows.len() == ops.len(),
        is_memory_trace(columns_of_rows(rows), ops),
        is_valid_log(ops),
        is_canonical_log(ops),
        range_checks_in_domain(rows),
    ensures
        satisfies_constraints(rows),
{
    assert forall|row: int, k: int|
        0 <= row < rows.len() && 0 <= k < NUM_CONSTRAINTS implies !#[trigger] violated_at(
        rows,
        row,
        k,
    ) by {
        lemma_constraint_holds(ops, rows, row, k);
    }
}

/// Constraint `k` vanishes on row `row` of the table of a valid log, if it
/// must vanish there.
proof fn lemma_constraint_holds(
    ops: Seq<MemoryOp>,
    rows: Seq<[GoldilocksField; NUM_REGISTERS]>,
    row: int,
    k: int,
)
    requires
        rows.len() == ops.len(),
        is_memory_trace(columns_of_rows(rows), ops),
        is_valid_log(ops),
        is_canonical_log(ops),
        range_checks_in_domain(rows),
        0 <= row < rows.len(),
        0 <= k < NUM_CONSTRAINTS,
    ensures
        !violated_at(rows, row, k),
{
    let n = rows.len() as int;
    let after = next_row(row, n);
    let local = row_values(rows[row]);
    let next = row_values(rows[after]);
    lemma_flags_of_row(ops, rows, row);
    if k <= 3 {
        lemma_booleanity_holds(local, next, k);
    } else if k <= 9 {
        if row < n - 1 {
            lemma_priority_holds(local, next, k);
        }
    } else if k == 10 {
        if row < n - 1 {
            lemma_range_check_of_row(ops, rows, row);
        }
    } else if k <= 18 {
        lemma_read_of_row(ops, rows, row, k - 11);
    } else {
        lemma_lookup_of_row(ops, rows, row);
    }
}

/// The flags of a row of the table of a log are honest, and clear in the last row.
proof fn lemma_flags_of_row(
    ops: Seq<MemoryOp>,
    rows: Seq<[GoldilocksField; NUM_REGISTERS]>,
    row: int,
)
    requires
        rows.len() == ops.len(),
        is_memory_trace(columns_of_rows(rows), ops),
        0 <= row < rows.len(),
    ensures
        crate::constraints::is_row(row_values(rows[row])),
        crate::constraints::is_row(row_values(rows[next_row(row, rows.len() as int)])),
        row < rows.len() - 1 ==> flags_fit(
            row_values(rows[row]),
            row_values(rows[next_row(row, rows.len() as int)]),
        ),
        row == rows.len() - 1 ==> flags_clear(row_values(rows[row])),
{
    let n = rows.len() as int;
    let cols = columns_of_rows(rows);
    let after = next_row(row, n);
    crate::constraints::lemma_row_values(rows[row]);
    crate::constraints::lemma_row_values(rows[after]);
    lemma_cells(rows, row);
    lemma_cells(rows, after);
    assert(flags_hold(cols, n));
    if row < n - 1 {
        assert(cols[CONTEXT_FIRST_CHANGE as int][row] == rows[row][CONTEXT_FIRST_CHANGE as int]);
    }
}

/// The range-check constraint vanishes on a row of the table of a log.
proof fn lemma_range_check_of_row(
    ops: Seq<MemoryOp>,
    rows: Seq<[GoldilocksField; NUM_REGISTERS]>,
    row: int,
)
    requires
        rows.len() == ops.len(),
        is_memory_trace(columns_of_rows(rows), ops),
        0 <= row < rows.len() - 1,
    ensures
        constraint_at(row_values(rows[row]), row_values(rows[row + 1]), 10).1 == 0,
{
    let n = rows.len() as int;
    let cols = columns_of_rows(rows);
    let local = row_values(rows[row]);
    let next = row_values(rows[row + 1]);
    crate::constraints::lemma_row_values(rows[row]);
    crate::constraints::lemma_row_values(rows[row + 1]);
    lemma_cells(rows, row);
    lemma_cells(rows, row + 1);
    assert(range_check_holds(cols, n));
    assert(cols[RANGE_CHECK as int][row] == rows[row][RANGE_CHECK as int]);
    assert(local[RANGE_CHECK as int] == row_range_check(local, next));
    lemma_difference_vanishes(local[RANGE_CHECK as int], row_range_check(local, next));
}

/// A read-consistency constraint vanishes on a row of the table of a valid log.
proof fn lemma_read_of_row(
    ops: Seq<MemoryOp>,
    rows: Seq<[GoldilocksField; NUM_REGISTERS]>,
    row: int,
    limb: int,
)
    requires
        rows.len() == ops.len(),
        is_memory_trace(columns_of_rows(rows), ops),
        is_valid_log(ops),
        is_canonical_log(ops),
        0 <= row < rows.len(),
        0 <= limb < 8,
    ensures
        constraint_at(
            row_values(rows[row]),
            row_values(rows[next_row(row, rows.len() as int)]),
            11 + limb,
        ).1 == 0,
{
    let n = rows.len() as int;
    let sorted = sorted_log(ops);
    let after = next_row(row, n);
    let local = row_values(rows[row]);
    let next = row_values(rows[after]);
    lemma_flags_of_row(ops, rows, row);
    assert(block_holds(columns_of_rows(rows), SORTED_TIMESTAMP as int, sorted));
    lemma_ordered_cells(rows, sorted, row, limb);
    lemma_ordered_cells(rows, sorted, after, limb);
    if row < n - 1 {
        if next[SORTED_IS_READ as int] != 0 && row_unchanged(local) != 0 {
            lemma_unchanged_means_equal(local, next);
            lemma_adjacent_read(ops, sorted, row);
            assert(limb_values(sorted[row + 1].5)[limb] == limb_values(sorted[row].5)[limb]);
        }
    } else {
        lemma_first_is_write(ops, sorted);
    }
    lemma_read_holds(local, next, limb);
}

/// With honest flags, the unchanged indicator is set only where the
/// addresses of the two rows are equal.
proof fn lemma_unchanged_means_equal(local: Seq<int>, next: Seq<int>)
    requires
        flags_fit(local, next),
        row_unchanged(local) != 0,
    ensures
        local[SORTED_ADDR_CONTEXT as int] == next[SORTED_ADDR_CONTEXT as int],
        local[SORTED_ADDR_SEGMENT as int] == next[SORTED_ADDR_SEGMENT as int],
        local[SORTED_ADDR_VIRTUAL as int] == next[SORTED_ADDR_VIRTUAL as int],
{
}

/// The ordered cells of a row of the table are those of the operation that
/// the ordered log has in its place.
proof fn lemma_ordered_cells(
    rows: Seq<[GoldilocksField; NUM_REGISTERS]>,
    sorted: Seq<MemoryOp>,
    row: int,
    limb: int,
)
    requires
        0 <= row < rows.len(),
        rows.len() == sorted.len(),
        0 <= limb < 8,
        block_holds(columns_of_rows(rows), SORTED_TIMESTAMP as int, sorted),
    ensures
        row_values(rows[row])[SORTED_IS_READ as int] == sorted[row].1@,
        (
            row_values(rows[row])[SORTED_ADDR_CONTEXT as int],
            row_values(rows[row])[SORTED_ADDR_SEGMENT as int],
            row_values(rows[row])[SORTED_ADDR_VIRTUAL as int],
        ) == address_of(sorted[row]),
        row_values(rows[row])[SORTED_VALUE_START + limb] == limb_values(sorted[row].5)[limb],
{
    let cols = columns_of_rows(rows);
    lemma_cells(rows, row);
    assert(row_holds(cols, SORTED_TIMESTAMP as int, row, sorted[row]));
    assert(cols[SORTED_TIMESTAMP + 5 + limb][row] == sorted[row].5[limb]);
}

/// The lookup constraints vanish on a row of the table of a log whose
/// range-check values are counter values.
proof fn lemma_lookup_of_row(
    ops: Seq<MemoryOp>,
    rows: Seq<[GoldilocksField; NUM_REGISTERS]>,
    row: int,
)
    requires
        rows.len() == ops.len(),
        is_memory_trace(columns_of_rows(rows), ops),
        range_checks_in_domain(rows),
        0 <= row < rows.len(),
    ensures
        !violated_at(rows, row, 19),
        !violated_at(rows, row, 20),
{
    let n = rows.len() as int;
    let cols = columns_of_rows(rows);
    let after = next_row(row, n);
    let local = row_values(rows[row]);
    let next = row_values(rows[after]);
    crate::constraints::lemma_row_values(rows[row]);
    crate::constraints::lemma_row_values(rows[after]);
    lemma_cells(rows, row);
    lemma_cells(rows, after);
    let inputs = canonical_values(cols[RANGE_CHECK_PERMUTED as int]);
    let table = canonical_values(cols[COUNTER_PERMUTED as int]);
    assert(lookup_columns_hold(cols));
    assert(lookup_holds(inputs, table));
    assert(inputs[after] == table[after] || (after > 0 && inputs[after] == inputs[after - 1]));
    assert(inputs[after] == next[RANGE_CHECK_PERMUTED as int]);
    assert(table[after] == next[COUNTER_PERMUTED as int]);
    assert(inputs[row] == local[RANGE_CHECK_PERMUTED as int]);
    lemma_lookup_holds(local, next);
}

/// The cells of a row of the table are those of its columns.
proof fn lemma_cells(rows: Seq<[GoldilocksField; NUM_REGISTERS]>, row: int)
    requires
        0 <= row < rows.len(),
    ensures
        forall|c: int|
            0 <= c < NUM_REGISTERS ==> #[trigger] columns_of_rows(rows)[c][row] == rows[row][c],
        forall|c: int|
            0 <= c < NUM_REGISTERS ==> #[trigger] row_values(rows[row])[c] == rows[row][c]@,
{
}

} // verus!
