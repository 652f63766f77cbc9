//! The two permuted columns of a lookup argument: the values to bound, ordered,
//! and the table rearranged so that each value meets itself in the table where
//! it first occurs.

use crate::goldilocks_field::{GoldilocksField, ORDER};
use crate::sorting::{is_sorted, key_le, sort_key, stable_sort};
use vstd::multiset::Multiset;
use vstd::prelude::*;

verus! {

/// The canonical representatives of a column.
pub open spec fn canonical_values(column: Seq<GoldilocksField>) -> Seq<u64> {
    Seq::new(column.len(), |i: int| column[i]@ as u64)
}

/// The values never decrease along the sequence.
pub open spec fn ascending(values: Seq<u64>) -> bool {
    forall|i: int, j: int| 0 <= i <= j < values.len() ==> values[i] <= values[j]
}

/// Every value of `inputs` occurs in `table`.
pub open spec fn all_in_table(inputs: Seq<u64>, table: Seq<u64>) -> bool {
    forall|i: int| 0 <= i < inputs.len() ==> table.contains(#[trigger] inputs[i])
}

/// Each permuted input equals the permuted input before it or the permuted
/// table value beside it; the first one, having none before it, the table value.
pub open spec fn lookup_holds(permuted_inputs: Seq<u64>, permuted_table: Seq<u64>) -> bool {
    forall|i: int|
        0 <= i < permuted_inputs.len() ==> #[trigger] permuted_inputs[i] == permuted_table[i] || (i
            > 0 && permuted_inputs[i] == permuted_inputs[i - 1])
}

/// The values that stand at the places marked as settled.
spec fn placed(table: Seq<u64>, settled: Seq<bool>) -> Multiset<u64>
    decreases table.len(),
{
    if table.len() == 0 {
        Multiset::empty()
    } else {
        let rest = placed(table.drop_last(), settled.drop_last());
        if settled.last() {
            rest.insert(table.last())
        } else {
            rest
        }
    }
}

/// Settling one more place adds the value put there.
proof fn lemma_placed_update(table: Seq<u64>, settled: Seq<bool>, at: int, value: u64)
    requires
        table.len() == settled.len(),
        0 <= at < table.len(),
        !settled[at],
    ensures
        placed(table.update(at, value), settled.update(at, true)) == placed(table, settled).insert(
            value,
        ),
    decreases table.len(),
{
    let table2 = table.update(at, value);
    let settled2 = settled.update(at, true);
    if at == table.len() - 1 {
        assert(table2.drop_last() =~= table.drop_last());
        assert(settled2.drop_last() =~= settled.drop_last());
    } else {
        lemma_placed_update(table.drop_last(), settled.drop_last(), at, value);
        assert(table2.drop_last() =~= table.drop_last().update(at, value));
        assert(settled2.drop_last() =~= settled.drop_last().update(at, true));
        assert(placed(table2, settled2) =~= placed(table, settled).insert(value));
    }
}

/// With nothing settled nothing is placed.
proof fn lemma_placed_none(table: Seq<u64>, settled: Seq<bool>)
    requires
        table.len() == settled.len(),
        forall|i: int| 0 <= i < settled.len() ==> !settled[i],
    ensures
        placed(table, settled) == Multiset::<u64>::empty(),
    decreases table.len(),
{
    if table.len() > 0 {
        lemma_placed_none(table.drop_last(), settled.drop_last());
    }
}

/// With every place settled the whole table is placed.
proof fn lemma_placed_all(table: Seq<u64>, settled: Seq<bool>)
    requires
        table.len() == settled.len(),
        forall|i: int| 0 <= i < settled.len() ==> settled[i],
    ensures
        placed(table, settled) == table.to_multiset(),
    decreases table.len(),
{
    if table.len() == 0 {
        table.to_multiset_ensures();
        assert(table.to_multiset() =~= Multiset::<u64>::empty());
    } else {
        lemma_placed_all(table.drop_last(), settled.drop_last());
        vstd::seq_lib::to_multiset_build(table.drop_last(), table.last());
        assert(table.drop_last().push(table.last()) =~= table);
    }
}

/// Key order on lone integers is their own order.
proof fn lemma_sorted_ascending(values: Seq<u64>)
    requires
        is_sorted(values),
    ensures
        ascending(values),
{
    assert forall|i: int, j: int| 0 <= i <= j < values.len() implies values[i] <= values[j] by {
        assert(key_le(sort_key(values[i]), sort_key(values[j])));
    }
}

/// Sequences with one multiset have the same members.
pub proof fn lemma_same_members(a: Seq<u64>, b: Seq<u64>, v: u64)
    requires
        a.to_multiset() == b.to_multiset(),
        a.contains(v),
    ensures
        b.contains(v),
{
    a.to_multiset_ensures();
    b.to_multiset_ensures();
    assert(a.to_multiset().count(v) > 0);
    assert(b.to_multiset().count(v) > 0);
}

/// The canonical representatives of a column, in ascending order.
fn sorted_canonical(column: &[GoldilocksField]) -> (out: Vec<u64>)
    ensures
        out.len() == column.len(),
        ascending(out@),
        out@.to_multiset() == canonical_values(column@).to_multiset(),
        forall|i: int| 0 <= i < out.len() ==> out@[i] < ORDER,
{
    let mut canonical: Vec<u64> = Vec::with_capacity(column.len());
    for i in 0..column.len()
        invariant
            canonical@ == canonical_values(column@).take(i as int),
    {
        canonical.push(column[i].to_canonical_u64());
        assert(canonical@ =~= canonical_values(column@).take(i + 1));
    }
    assert(canonical_values(column@).take(column.len() as int) =~= canonical_values(column@));
    let out = stable_sort(&canonical);
    proof {
        lemma_sorted_ascending(out@);
        assert forall|i: int| 0 <= i < out.len() implies out@[i] < ORDER by {
            assert(out@.contains(out@[i]));
            lemma_same_members(out@, canonical@, out@[i]);
            let w = choose|w: int| 0 <= w < canonical@.len() && canonical@[w] == out@[i];
            assert(canonical@[w] == column@[w]@);
        }
    }
    out
}

/// The places before `upto` that hold no table value yet are exactly those
/// listed, in rising order, and no place from `upto` on holds one.
#[verifier::opaque]
spec fn open_places(listed: Seq<usize>, settled: Seq<bool>, upto: int) -> bool {
    &&& forall|t: int|
        0 <= t < listed.len() ==> 0 <= (#[trigger] listed[t]) < upto && !settled[listed[t] as int]
    &&& forall|s: int, t: int| 0 <= s < t < listed.len() ==> listed[s] < listed[t]
    &&& forall|p: int|
        0 <= p < upto && !settled[p] ==> exists|t: int|
            0 <= t < listed.len() && #[trigger] listed[t] == p
    &&& forall|p: int| upto <= p < settled.len() ==> !settled[p]
}

/// Each table value before `j` has met an equal input before `i` or lies
/// below input `i`.
#[verifier::opaque]
spec fn table_passed(inputs: Seq<u64>, table: Seq<u64>, i: int, j: int) -> bool {
    i < inputs.len() ==> forall|q: int|
        0 <= q < j ==> (exists|p: int| 0 <= p < i && inputs[p] == table[q]) || #[trigger] table[q]
            < inputs[i]
}

/// Each input before `upto` repeats the input before it or has its own value
/// settled beside it.
#[verifier::opaque]
spec fn inputs_met(inputs: Seq<u64>, permuted: Seq<u64>, settled: Seq<bool>, upto: int) -> bool {
    forall|p: int| 0 <= p < upto ==> #[trigger] met_at(inputs, permuted, settled, p)
}

/// Input `p` repeats the input before it or has its own value settled beside it.
spec fn met_at(inputs: Seq<u64>, permuted: Seq<u64>, settled: Seq<bool>, p: int) -> bool {
    (p > 0 && inputs[p] == inputs[p - 1]) || (settled[p] && permuted[p] == inputs[p])
}

proof fn lemma_open_places_list(listed: Seq<usize>, settled: Seq<bool>, upto: usize)
    requires
        open_places(listed, settled, upto as int),
        upto < settled.len(),
    ensures
        open_places(listed.push(upto), settled, upto + 1),
{
    reveal(open_places);
    let grown = listed.push(upto);
    assert forall|p: int| 0 <= p < upto + 1 && !settled[p] implies exists|t: int|
        0 <= t < grown.len() && #[trigger] grown[t] == p by {
        if p < upto {
            let t = choose|t: int| 0 <= t < listed.len() && #[trigger] listed[t] == p;
            assert(grown[t] == p);
        } else {
            assert(grown[listed.len() as int] == p);
        }
    }
}

proof fn lemma_open_places_settle(listed: Seq<usize>, settled: Seq<bool>, upto: int)
    requires
        open_places(listed, settled, upto),
        0 <= upto < settled.len(),
    ensures
        open_places(listed, settled.update(upto, true), upto + 1),
{
    reveal(open_places);
    let after = settled.update(upto, true);
    assert forall|p: int| 0 <= p < upto + 1 && !after[p] implies exists|t: int|
        0 <= t < listed.len() && #[trigger] listed[t] == p by {
        assert(!settled[p]);
    }
}

proof fn lemma_table_passed_skip(inputs: Seq<u64>, table: Seq<u64>, i: int, j: int)
    requires
        table_passed(inputs, table, i, j),
        0 <= i < inputs.len(),
        0 <= j < table.len(),
        table[j] < inputs[i],
    ensures
        table_passed(inputs, table, i, j + 1),
{
    reveal(table_passed);
}

proof fn lemma_table_passed_next_input(inputs: Seq<u64>, table: Seq<u64>, i: int, j: int)
    requires
        table_passed(inputs, table, i, j),
        ascending(inputs),
        0 <= i < inputs.len(),
    ensures
        table_passed(inputs, table, i + 1, j),
{
    reveal(table_passed);
    if i + 1 < inputs.len() {
        assert forall|q: int| 0 <= q < j implies (exists|p: int|
            0 <= p < i + 1 && inputs[p] == table[q]) || #[trigger] table[q] < inputs[i + 1] by {
            if exists|p: int| 0 <= p < i && inputs[p] == table[q] {
                let p = choose|p: int| 0 <= p < i && inputs[p] == table[q];
                assert(0 <= p < i + 1 && inputs[p] == table[q]);
            } else {
                assert(table[q] < inputs[i]);
                assert(inputs[i] <= inputs[i + 1]);
            }
        }
    }
}

proof fn lemma_table_passed_match(inputs: Seq<u64>, table: Seq<u64>, i: int, j: int)
    requires
        table_passed(inputs, table, i, j),
        ascending(inputs),
        0 <= i < inputs.len(),
        0 <= j < table.len(),
        table[j] == inputs[i],
    ensures
        table_passed(inputs, table, i + 1, j + 1),
{
    reveal(table_passed);
    if i + 1 < inputs.len() {
        assert forall|q: int| 0 <= q < j + 1 implies (exists|p: int|
            0 <= p < i + 1 && inputs[p] == table[q]) || #[trigger] table[q] < inputs[i + 1] by {
            if q == j {
                assert(0 <= i < i + 1 && inputs[i] == table[q]);
            } else if exists|p: int| 0 <= p < i && inputs[p] == table[q] {
                let p = choose|p: int| 0 <= p < i && inputs[p] == table[q];
                assert(0 <= p < i + 1 && inputs[p] == table[q]);
            } else {
                assert(table[q] < inputs[i]);
                assert(inputs[i] <= inputs[i + 1]);
            }
        }
    }
}

/// An input that occurs in the table, but not from `j` on, repeats the input
/// before it.
proof fn lemma_input_repeats(inputs: Seq<u64>, table: Seq<u64>, i: int, j: int, at: int)
    requires
        table_passed(inputs, table, i, j),
        ascending(inputs),
        0 <= i <= at < inputs.len(),
        0 <= j <= table.len(),
        table.contains(inputs[at]),
        forall|q: int| j <= q < table.len() ==> table[q] != inputs[at],
    ensures
        at > 0,
        inputs[at] == inputs[at - 1],
{
    reveal(table_passed);
    let v = inputs[at];
    let q = choose|q: int| 0 <= q < table.len() && table[q] == v;
    assert(q < j);
    assert(inputs[i] <= inputs[at]);
    assert(!(table[q] < inputs[i]));
    let p = choose|p: int| 0 <= p < i && inputs[p] == table[q];
    assert(inputs[p] <= inputs[at - 1]);
    assert(inputs[at - 1] <= inputs[at]);
}

proof fn lemma_inputs_met_step(
    inputs: Seq<u64>,
    permuted: Seq<u64>,
    settled: Seq<bool>,
    upto: int,
    permuted_after: Seq<u64>,
    settled_after: Seq<bool>,
)
    requires
        inputs_met(inputs, permuted, settled, upto),
        0 <= upto < inputs.len(),
        forall|p: int|
            0 <= p < upto && #[trigger] settled[p] ==> settled_after[p] && permuted_after[p]
                == permuted[p],
        (upto > 0 && inputs[upto] == inputs[upto - 1]) || (settled_after[upto]
            && permuted_after[upto] == inputs[upto]),
    ensures
        inputs_met(inputs, permuted_after, settled_after, upto + 1),
{
    reveal(inputs_met);
    assert forall|p: int| 0 <= p < upto + 1 implies #[trigger] met_at(
        inputs,
        permuted_after,
        settled_after,
        p,
    ) by {
        if p < upto {
            assert(met_at(inputs, permuted, settled, p));
            if settled[p] {
                assert(settled_after[p] && permuted_after[p] == permuted[p]);
            }
        }
    }
}

proof fn lemma_inputs_met_keep(
    inputs: Seq<u64>,
    permuted: Seq<u64>,
    settled: Seq<bool>,
    upto: int,
    permuted_after: Seq<u64>,
    settled_after: Seq<bool>,
)
    requires
        inputs_met(inputs, permuted, settled, upto),
        forall|p: int|
            0 <= p < upto && #[trigger] settled[p] ==> settled_after[p] && permuted_after[p]
                == permuted[p],
    ensures
        inputs_met(inputs, permuted_after, settled_after, upto),
{
    reveal(inputs_met);
    assert forall|p: int| 0 <= p < upto implies #[trigger] met_at(
        inputs,
        permuted_after,
        settled_after,
        p,
    ) by {
        assert(met_at(inputs, permuted, settled, p));
        if settled[p] {
            assert(settled_after[p] && permuted_after[p] == permuted[p]);
        }
    }
}

/// The permuted columns of the lookup of `inputs` in `table`.
///
/// The first column holds the inputs in ascending order and the second the
/// table values in some order. Where every input occurs in the table, they are
/// arranged so that the lookup holds.
pub fn permuted_cols(inputs: &[GoldilocksField], table: &[GoldilocksField]) -> (cols: (
    Vec<GoldilocksField>,
    Vec<GoldilocksField>,
))
    requires
        inputs.len() == table.len(),
    ensures
        cols.0.len() == inputs.len(),
        cols.1.len() == inputs.len(),
        forall|i: int| 0 <= i < cols.0.len() ==> (#[trigger] cols.0@[i]).0 < ORDER,
        forall|i: int| 0 <= i < cols.1.len() ==> (#[trigger] cols.1@[i]).0 < ORDER,
        ascending(canonical_values(cols.0@)),
        canonical_values(cols.0@).to_multiset() == canonical_values(inputs@).to_multiset(),
        canonical_values(cols.1@).to_multiset() == canonical_values(table@).to_multiset(),
        all_in_table(canonical_values(inputs@), canonical_values(table@)) ==> lookup_holds(
            canonical_values(cols.0@),
            canonical_values(cols.1@),
        ),
{
    let n = inputs.len();
    let sorted_inputs = sorted_canonical(inputs);
    let sorted_table = sorted_canonical(table);
    let ghost member = all_in_table(canonical_values(inputs@), canonical_values(table@));
    proof {
        if member {
            assert forall|i: int| 0 <= i < sorted_inputs@.len() implies sorted_table@.contains(
                #[trigger] sorted_inputs@[i],
            ) by {
                let v = sorted_inputs@[i];
                assert(sorted_inputs@.contains(v));
                lemma_same_members(sorted_inputs@, canonical_values(inputs@), v);
                let w = choose|w: int|
                    0 <= w < canonical_values(inputs@).len() && canonical_values(inputs@)[w] == v;
                assert(canonical_values(table@).contains(canonical_values(inputs@)[w]));
                lemma_same_members(canonical_values(table@), sorted_table@, v);
            }
        }
    }

    let mut unused_table_inds: Vec<usize> = Vec::with_capacity(n);
    let mut unused_table_vals: Vec<u64> = Vec::with_capacity(n);
    let mut permuted_table: Vec<u64> = Vec::with_capacity(n);
    for k in 0..n
        invariant
            permuted_table.len() == k,
            forall|p: int| 0 <= p < k ==> permuted_table@[p] == 0,
    {
        permuted_table.push(0);
    }
    let ghost mut settled: Seq<bool> = Seq::new(n as nat, |p: int| false);
    let ghost mut num_settled: nat = 0;
    let mut i: usize = 0;
    let mut j: usize = 0;
    proof {
        lemma_placed_none(permuted_table@, settled);
        assert(sorted_table@.take(0) =~= Seq::<u64>::empty());
        assert(unused_table_vals@ =~= Seq::<u64>::empty());
        assert(placed(permuted_table@, settled).add(unused_table_vals@.to_multiset())
            =~= sorted_table@.take(0).to_multiset());
        assert(open_places(unused_table_inds@, settled, 0)) by {
            reveal(open_places);
        }
        assert(table_passed(sorted_inputs@, sorted_table@, 0, 0)) by {
            reveal(table_passed);
        }
        assert(inputs_met(sorted_inputs@, permuted_table@, settled, 0)) by {
            reveal(inputs_met);
        }
    }
    while (j < n) && (i < n)
        invariant
            i <= n,
            j <= n,
            sorted_inputs.len() == n,
            sorted_table.len() == n,
            permuted_table.len() == n,
            settled.len() == n,
            ascending(sorted_inputs@),
            ascending(sorted_table@),
            member ==> all_in_table(sorted_inputs@, sorted_table@),
            forall|p: int| 0 <= p < n ==> permuted_table@[p] < ORDER,
            forall|p: int| 0 <= p < n ==> sorted_table@[p] < ORDER,
            forall|p: int| 0 <= p < unused_table_vals.len() ==> unused_table_vals@[p] < ORDER,
            open_places(unused_table_inds@, settled, i as int),
            unused_table_inds.len() + num_settled == i,
            unused_table_vals.len() + num_settled == j,
            placed(permuted_table@, settled).add(unused_table_vals@.to_multiset())
                == sorted_table@.take(j as int).to_multiset(),
            table_passed(sorted_inputs@, sorted_table@, i as int, j as int),
            member ==> inputs_met(sorted_inputs@, permuted_table@, settled, i as int),
        decreases (n - i) + (n - j),
    {
        let input_val = sorted_inputs[i];
        let table_val = sorted_table[j];
        let ghost old_vals = unused_table_vals@;
        let ghost old_table = permuted_table@;
        let ghost old_settled = settled;
        if input_val > table_val {
            unused_table_vals.push(table_val);
            proof {
                vstd::seq_lib::to_multiset_build(old_vals, table_val);
                vstd::seq_lib::to_multiset_build(sorted_table@.take(j as int), table_val);
                assert(sorted_table@.take(j + 1) =~= sorted_table@.take(j as int).push(table_val));
                assert(placed(permuted_table@, settled).add(unused_table_vals@.to_multiset())
                    =~= sorted_table@.take(j + 1).to_multiset());
                lemma_table_passed_skip(sorted_inputs@, sorted_table@, i as int, j as int);
            }
            j += 1;
        } else if input_val < table_val {
            proof {
                if member {
                    assert(sorted_table@.contains(sorted_inputs@[i as int]));
                    assert forall|q: int| j <= q < n implies sorted_table@[q] != sorted_inputs@[i as int] by {
                        assert(sorted_table@[j as int] <= sorted_table@[q]);
                    }
                    lemma_input_repeats(sorted_inputs@, sorted_table@, i as int, j as int, i as int);
                }
                reveal(open_places);
            }
            match unused_table_vals.pop() {
                Some(x) => {
                    permuted_table.set(i, x);
                    proof {
                        settled = settled.update(i as int, true);
                        num_settled = num_settled + 1;
                        lemma_placed_update(old_table, old_settled, i as int, x);
                        assert(old_vals =~= unused_table_vals@.push(x));
                        vstd::seq_lib::to_multiset_build(unused_table_vals@, x);
                        assert(placed(permuted_table@, settled).add(
                            unused_table_vals@.to_multiset(),
                        ) =~= sorted_table@.take(j as int).to_multiset());
                        lemma_open_places_settle(unused_table_inds@, old_settled, i as int);
                    }
                },
                None => {
                    proof {
                        lemma_open_places_list(unused_table_inds@, settled, i);
                    }
                    unused_table_inds.push(i);
                },
            }
            proof {
                lemma_table_passed_next_input(sorted_inputs@, sorted_table@, i as int, j as int);
                if member {
                    lemma_inputs_met_step(
                        sorted_inputs@,
                        old_table,
                        old_settled,
                        i as int,
                        permuted_table@,
                        settled,
                    );
                }
            }
            i += 1;
        } else {
            permuted_table.set(i, table_val);
            proof {
                reveal(open_places);
                settled = settled.update(i as int, true);
                num_settled = num_settled + 1;
                lemma_placed_update(old_table, old_settled, i as int, table_val);
                vstd::seq_lib::to_multiset_build(sorted_table@.take(j as int), table_val);
                assert(sorted_table@.take(j + 1) =~= sorted_table@.take(j as int).push(table_val));
                assert(placed(permuted_table@, settled).add(unused_table_vals@.to_multiset())
                    =~= sorted_table@.take(j + 1).to_multiset());
                lemma_open_places_settle(unused_table_inds@, old_settled, i as int);
                lemma_table_passed_match(sorted_inputs@, sorted_table@, i as int, j as int);
                if member {
                    lemma_inputs_met_step(
                        sorted_inputs@,
                        old_table,
                        old_settled,
                        i as int,
                        permuted_table@,
                        settled,
                    );
                }
            }
            i += 1;
            j += 1;
        }
    }

    // What is left of the table is unused.
    let ghost j_stop = j;
    while j < n
        invariant
            j_stop <= j <= n,
            sorted_table.len() == n,
            forall|p: int| 0 <= p < n ==> sorted_table@[p] < ORDER,
            forall|p: int| 0 <= p < unused_table_vals.len() ==> unused_table_vals@[p] < ORDER,
            unused_table_vals.len() + num_settled == j,
            placed(permuted_table@, settled).add(unused_table_vals@.to_multiset())
                == sorted_table@.take(j as int).to_multiset(),
        decreases n - j,
    {
        let ghost old_vals = unused_table_vals@;
        let table_val = sorted_table[j];
        unused_table_vals.push(table_val);
        proof {
            vstd::seq_lib::to_multiset_build(old_vals, table_val);
            vstd::seq_lib::to_multiset_build(sorted_table@.take(j as int), table_val);
            assert(sorted_table@.take(j + 1) =~= sorted_table@.take(j as int).push(table_val));
            assert(placed(permuted_table@, settled).add(unused_table_vals@.to_multiset())
                =~= sorted_table@.take(j + 1).to_multiset());
        }
        j += 1;
    }
    assert(sorted_table@.take(n as int) =~= sorted_table@);

    // The inputs that are left repeat inputs that have met the table.
    let ghost i_stop = i;
    while i < n
        invariant
            i_stop <= i <= n,
            i_stop < n ==> j_stop == n,
            sorted_inputs.len() == n,
            sorted_table.len() == n,
            permuted_table.len() == n,
            settled.len() == n,
            ascending(sorted_inputs@),
            member ==> all_in_table(sorted_inputs@, sorted_table@),
            open_places(unused_table_inds@, settled, i as int),
            unused_table_inds.len() + num_settled == i,
            table_passed(sorted_inputs@, sorted_table@, i_stop as int, j_stop as int),
            member ==> inputs_met(sorted_inputs@, permuted_table@, settled, i as int),
        decreases n - i,
    {
        proof {
            if member {
                assert(sorted_table@.contains(sorted_inputs@[i as int]));
                lemma_input_repeats(
                    sorted_inputs@,
                    sorted_table@,
                    i_stop as int,
                    j_stop as int,
                    i as int,
                );
                lemma_inputs_met_step(
                    sorted_inputs@,
                    permuted_table@,
                    settled,
                    i as int,
                    permuted_table@,
                    settled,
                );
            }
            lemma_open_places_list(unused_table_inds@, settled, i);
        }
        unused_table_inds.push(i);
        i += 1;
    }

    // Each unused value goes to a place that has none yet.
    let m = unused_table_inds.len();
    let ghost settled_before = settled;
    let ghost table_before = permuted_table@;
    proof {
        reveal(open_places);
        assert(unused_table_vals@.skip(0) =~= unused_table_vals@);
    }
    for t in 0..m
        invariant
            m == unused_table_inds.len(),
            m == unused_table_vals.len(),
            permuted_table.len() == n,
            settled.len() == n,
            settled_before.len() == n,
            forall|p: int| 0 <= p < n ==> permuted_table@[p] < ORDER,
            forall|p: int| 0 <= p < unused_table_vals.len() ==> unused_table_vals@[p] < ORDER,
            forall|s: int|
                0 <= s < m ==> (#[trigger] unused_table_inds@[s]) < n
                    && !settled_before[unused_table_inds@[s] as int],
            forall|r: int, s: int| 0 <= r < s < m ==> unused_table_inds@[r] < unused_table_inds@[s],
            forall|p: int|
                0 <= p < n && settled_before[p] ==> settled[p] && permuted_table@[p]
                    == table_before[p],
            forall|s: int| t <= s < m ==> !settled[(#[trigger] unused_table_inds@[s]) as int],
            forall|s: int| 0 <= s < t ==> settled[(#[trigger] unused_table_inds@[s]) as int],
            placed(permuted_table@, settled).add(unused_table_vals@.skip(t as int).to_multiset())
                == sorted_table@.to_multiset(),
    {
        let ind = unused_table_inds[t];
        let val = unused_table_vals[t];
        let ghost old_table = permuted_table@;
        let ghost old_settled = settled;
        permuted_table.set(ind, val);
        proof {
            settled = settled.update(ind as int, true);
            lemma_placed_update(old_table, old_settled, ind as int, val);
            let rest = unused_table_vals@.skip(t as int);
            assert(rest.drop_first() =~= unused_table_vals@.skip(t + 1));
            assert(rest.first() == val);
            assert(rest.to_multiset() =~= unused_table_vals@.skip(t + 1).to_multiset().insert(val))
                by {
                rest.to_multiset_ensures();
                assert(rest.remove(0) =~= rest.drop_first());
            }
            assert(placed(permuted_table@, settled).add(
                unused_table_vals@.skip(t + 1).to_multiset(),
            ) =~= sorted_table@.to_multiset());
            assert forall|s: int| t + 1 <= s < m implies !settled[(
            #[trigger] unused_table_inds@[s]) as int] by {
                assert(unused_table_inds@[t as int] < unused_table_inds@[s]);
            }
            assert forall|s: int| 0 <= s < t + 1 implies settled[(
            #[trigger] unused_table_inds@[s]) as int] by {
                if s < t {
                    assert(old_settled[unused_table_inds@[s] as int]);
                }
            }
        }
    }
    proof {
        reveal(open_places);
        assert forall|p: int| 0 <= p < n implies settled[p] by {
            if !settled_before[p] {
                let s = choose|s: int| 0 <= s < m && #[trigger] unused_table_inds@[s] == p;
                assert(settled[unused_table_inds@[s] as int]);
            }
        }
        lemma_placed_all(permuted_table@, settled);
        assert(unused_table_vals@.skip(m as int) =~= Seq::<u64>::empty());
        unused_table_vals@.skip(m as int).to_multiset_ensures();
        assert(unused_table_vals@.skip(m as int).to_multiset() =~= Multiset::<u64>::empty());
        assert(permuted_table@.to_multiset() =~= sorted_table@.to_multiset());
        if member {
            lemma_inputs_met_keep(
                sorted_inputs@,
                table_before,
                settled_before,
                n as int,
                permuted_table@,
                settled,
            );
        }
    }

    let mut permuted_input_column: Vec<GoldilocksField> = Vec::with_capacity(n);
    let mut permuted_table_column: Vec<GoldilocksField> = Vec::with_capacity(n);
    for k in 0..n
        invariant
            sorted_inputs.len() == n,
            permuted_table.len() == n,
            permuted_input_column.len() == k,
            permuted_table_column.len() == k,
            forall|p: int| 0 <= p < n ==> permuted_table@[p] < ORDER,
            forall|p: int| 0 <= p < n ==> sorted_inputs@[p] < ORDER,
            forall|p: int|
                0 <= p < k ==> (#[trigger] permuted_input_column@[p]).0 == sorted_inputs@[p],
            forall|p: int|
                0 <= p < k ==> (#[trigger] permuted_table_column@[p]).0 == permuted_table@[p],
    {
        permuted_input_column.push(GoldilocksField::from_canonical_u64(sorted_inputs[k]));
        permuted_table_column.push(GoldilocksField::from_canonical_u64(permuted_table[k]));
    }
    proof {
        assert(canonical_values(permuted_input_column@) =~= sorted_inputs@);
        assert(canonical_values(permuted_table_column@) =~= permuted_table@);
        if member {
            reveal(inputs_met);
            assert forall|p: int| 0 <= p < n implies #[trigger] sorted_inputs@[p]
                == permuted_table@[p] || (p > 0 && sorted_inputs@[p] == sorted_inputs@[p - 1]) by {
                assert(met_at(sorted_inputs@, permuted_table@, settled, p));
            }
        }
    }
    (permuted_input_column, permuted_table_column)
}

} // verus!
