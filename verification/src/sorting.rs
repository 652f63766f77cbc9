//! Bringing a log of memory operations into address-then-time order.

use crate::goldilocks_field::GoldilocksField;
use vstd::prelude::*;

verus! {

/// One memory operation: timestamp, read flag, context, segment, virtual
/// address and the eight limbs of the value.
pub type MemoryOp = (
    GoldilocksField,
    GoldilocksField,
    GoldilocksField,
    GoldilocksField,
    GoldilocksField,
    [GoldilocksField; 8],
);

/// What the operations are ordered by: context, segment, virtual address and
/// timestamp, each as the integer that represents it.
pub type SortKey = (u64, u64, u64, u64);

/// What can be ordered by a key.
pub trait Keyed {
    /// The key of the value.
    spec fn key_spec(&self) -> SortKey;

    /// The key of the value.
    fn key(&self) -> (k: SortKey)
        ensures
            k == self.key_spec(),
    ;
}

impl Keyed for MemoryOp {
    open spec fn key_spec(&self) -> SortKey {
        (self.2.0, self.3.0, self.4.0, self.0.0)
    }

    fn key(&self) -> (k: SortKey) {
        (
            self.2.to_noncanonical_u64(),
            self.3.to_noncanonical_u64(),
            self.4.to_noncanonical_u64(),
            self.0.to_noncanonical_u64(),
        )
    }
}

/// A lone integer is its own key, in the last place.
impl Keyed for u64 {
    open spec fn key_spec(&self) -> SortKey {
        (0, 0, 0, *self)
    }

    fn key(&self) -> (k: SortKey) {
        (0, 0, 0, *self)
    }
}

pub open spec fn sort_key<T: Keyed>(x: T) -> SortKey {
    x.key_spec()
}

/// Lexicographic `<=` on keys.
pub open spec fn key_le(a: SortKey, b: SortKey) -> bool {
    a.0 < b.0 || (a.0 == b.0 && (a.1 < b.1 || (a.1 == b.1 && (a.2 < b.2 || (a.2 == b.2 && a.3
        <= b.3)))))
}

/// Keys never decrease along the sequence.
pub open spec fn is_sorted<T: Keyed>(ops: Seq<T>) -> bool {
    forall|i: int, j: int|
        0 <= i <= j < ops.len() ==> key_le(sort_key(#[trigger] ops[i]), sort_key(#[trigger] ops[j]))
}

/// The operations of `ops` whose key is `k`, in the order in which they stand.
pub open spec fn with_key<T: Keyed>(ops: Seq<T>, k: SortKey) -> Seq<T> {
    ops.filter(|op: T| sort_key(op) == k)
}

/// `out` holds the operations of `input` in key order, and operations with
/// equal keys stand in `out` as they stood in `input`.
pub open spec fn is_stable_sort_of<T: Keyed>(out: Seq<T>, input: Seq<T>) -> bool {
    &&& out.len() == input.len()
    &&& is_sorted(out)
    &&& forall|k: SortKey| #[trigger] with_key(out, k) == with_key(input, k)
}

/// Row `i` of six columns read side by side.
pub open spec fn zip_columns(
    timestamp: Seq<GoldilocksField>,
    is_read: Seq<GoldilocksField>,
    context: Seq<GoldilocksField>,
    segment: Seq<GoldilocksField>,
    virtuals: Seq<GoldilocksField>,
    values: Seq<[GoldilocksField; 8]>,
    len: nat,
) -> Seq<MemoryOp> {
    Seq::new(len, |i: int| (timestamp[i], is_read[i], context[i], segment[i], virtuals[i], values[i]))
}

/// The least of six lengths.
pub open spec fn min_len(a: nat, b: nat, c: nat, d: nat, e: nat, f: nat) -> nat {
    let m1 = if a <= b { a } else { b };
    let m2 = if m1 <= c { m1 } else { c };
    let m3 = if m2 <= d { m2 } else { d };
    let m4 = if m3 <= e { m3 } else { e };
    if m4 <= f { m4 } else { f }
}

/// The last operation with a given key is the last of those selected by it.
proof fn lemma_with_key_push<T: Keyed>(ops: Seq<T>, op: T, k: SortKey)
    ensures
        with_key(ops.push(op), k) == if sort_key(op) == k {
            with_key(ops, k).push(op)
        } else {
            with_key(ops, k)
        },
{
    reveal(Seq::filter);
    assert(ops.push(op).drop_last() == ops);
}

/// Every operation selected by a key stands in the sequence and has that key.
proof fn lemma_with_key_members<T: Keyed>(ops: Seq<T>, k: SortKey, i: int)
    requires
        0 <= i < with_key(ops, k).len(),
    ensures
        ops.contains(with_key(ops, k)[i]),
        sort_key(with_key(ops, k)[i]) == k,
    decreases ops.len(),
{
    reveal(Seq::filter);
    if ops.len() > 0 {
        let rest = ops.drop_last();
        if sort_key(ops.last()) == k && i == with_key(rest, k).len() {
            assert(ops[ops.len() - 1] == ops.last());
        } else {
            lemma_with_key_members(rest, k, i);
            let w = choose|w: int| 0 <= w < rest.len() && rest[w] == with_key(rest, k)[i];
            assert(ops[w] == rest[w]);
        }
    }
}

/// Every operation selected by a key stands in the sequence and has that key.
pub proof fn lemma_selected_is_member<T: Keyed>(ops: Seq<T>, k: SortKey, i: int)
    requires
        0 <= i < with_key(ops, k).len(),
    ensures
        ops.contains(with_key(ops, k)[i]),
        sort_key(with_key(ops, k)[i]) == k,
{
    lemma_with_key_members(ops, k, i);
}

/// An operation of the sequence is selected by its own key.
proof fn lemma_with_key_holds<T: Keyed>(ops: Seq<T>, i: int)
    requires
        0 <= i < ops.len(),
    ensures
        with_key(ops, sort_key(ops[i])).contains(ops[i]),
{
    let pred = |op: T| sort_key(op) == sort_key(ops[i]);
    ops.lemma_filter_contains(pred, i);
}

/// Nothing is selected from operations that all have other keys.
proof fn lemma_with_key_absent<T: Keyed>(ops: Seq<T>, k: SortKey)
    requires
        forall|i: int| 0 <= i < ops.len() ==> sort_key(#[trigger] ops[i]) != k,
    ensures
        with_key(ops, k) == Seq::<T>::empty(),
{
    if with_key(ops, k).len() > 0 {
        lemma_with_key_members(ops, k, 0);
    }
}

/// A stable sort holds the operations that were given, and no others.
pub proof fn lemma_sort_keeps_members<T: Keyed>(out: Seq<T>, input: Seq<T>)
    requires
        is_stable_sort_of(out, input),
    ensures
        forall|i: int| 0 <= i < out.len() ==> input.contains(#[trigger] out[i]),
        forall|j: int| 0 <= j < input.len() ==> out.contains(#[trigger] input[j]),
{
    assert forall|i: int| 0 <= i < out.len() implies input.contains(#[trigger] out[i]) by {
        let k = sort_key(out[i]);
        lemma_with_key_holds(out, i);
        assert(with_key(out, k) == with_key(input, k));
        let w = choose|w: int| 0 <= w < with_key(out, k).len() && with_key(out, k)[w] == out[i];
        lemma_with_key_members(input, k, w);
    }
    assert forall|j: int| 0 <= j < input.len() implies out.contains(#[trigger] input[j]) by {
        let k = sort_key(input[j]);
        lemma_with_key_holds(input, j);
        assert(with_key(out, k) == with_key(input, k));
        let w = choose|w: int|
            0 <= w < with_key(input, k).len() && with_key(input, k)[w] == input[j];
        lemma_with_key_members(out, k, w);
    }
}

/// Two ordered sequences that select the same operations for every key are equal.
pub proof fn lemma_sorted_unique<T: Keyed>(a: Seq<T>, b: Seq<T>)
    requires
        is_sorted(a),
        is_sorted(b),
        forall|k: SortKey| #[trigger] with_key(a, k) == with_key(b, k),
    ensures
        a == b,
    decreases a.len(),
{
    if a.len() == 0 {
        if b.len() > 0 {
            lemma_with_key_holds(b, 0);
            assert(with_key(a, sort_key(b[0])) == with_key(b, sort_key(b[0])));
            lemma_with_key_absent(a, sort_key(b[0]));
        }
        assert(a =~= b);
    } else {
        let x = a.last();
        let k = sort_key(x);
        let a1 = a.drop_last();
        assert(a1.push(x) == a);
        lemma_with_key_push(a1, x, k);
        assert(with_key(a, k) == with_key(b, k));
        if b.len() == 0 {
            lemma_with_key_absent(b, k);
        }
        let y = b.last();
        let kb = sort_key(y);
        let b1 = b.drop_last();
        assert(b1.push(y) == b);
        lemma_with_key_push(b1, y, kb);
        assert(with_key(a, kb) == with_key(b, kb));
        // Each last key occurs in the other sequence, so neither exceeds the other.
        lemma_with_key_members(a, kb, 0);
        let ia = choose|i: int| 0 <= i < a.len() && a[i] == with_key(a, kb)[0];
        assert(key_le(sort_key(a[ia]), sort_key(a[a.len() - 1])));
        lemma_with_key_members(b, k, 0);
        let ib = choose|i: int| 0 <= i < b.len() && b[i] == with_key(b, k)[0];
        assert(key_le(sort_key(b[ib]), sort_key(b[b.len() - 1])));
        assert(k == kb);
        assert(with_key(a, k).last() == x);
        assert(with_key(b, k).last() == y);
        assert forall|j: SortKey| #[trigger] with_key(a1, j) == with_key(b1, j) by {
            lemma_with_key_push(a1, x, j);
            lemma_with_key_push(b1, y, j);
            assert(with_key(a, j) == with_key(b, j));
            if j == k {
                assert(with_key(a1, j) == with_key(a, j).drop_last());
                assert(with_key(b1, j) == with_key(b, j).drop_last());
            }
        }
        assert(is_sorted(a1)) by {
            assert forall|i: int, j: int| 0 <= i <= j < a1.len() implies key_le(
                sort_key(#[trigger] a1[i]),
                sort_key(#[trigger] a1[j]),
            ) by {
                assert(a1[i] == a[i] && a1[j] == a[j]);
            }
        }
        assert(is_sorted(b1)) by {
            assert forall|i: int, j: int| 0 <= i <= j < b1.len() implies key_le(
                sort_key(#[trigger] b1[i]),
                sort_key(#[trigger] b1[j]),
            ) by {
                assert(b1[i] == b[i] && b1[j] == b[j]);
            }
        }
        lemma_sorted_unique(a1, b1);
    }
}

/// Where a value goes into an ordered sequence: behind the values with keys
/// up to its own, before those with larger keys.
proof fn lemma_insert_position<T: Keyed>(s: Seq<T>, x: T) -> (at: int)
    requires
        is_sorted(s),
    ensures
        0 <= at <= s.len(),
        forall|i: int| 0 <= i < at ==> key_le(sort_key(#[trigger] s[i]), sort_key(x)),
        forall|i: int| at <= i < s.len() ==> !key_le(sort_key(#[trigger] s[i]), sort_key(x)),
    decreases s.len(),
{
    if s.len() == 0 {
        0
    } else if key_le(sort_key(s.last()), sort_key(x)) {
        assert forall|i: int| 0 <= i < s.len() implies key_le(
            sort_key(#[trigger] s[i]),
            sort_key(x),
        ) by {
            assert(key_le(sort_key(s[i]), sort_key(s[s.len() - 1])));
        }
        s.len() as int
    } else {
        let rest = s.drop_last();
        assert(is_sorted(rest)) by {
            assert forall|i: int, j: int| 0 <= i <= j < rest.len() implies key_le(
                sort_key(#[trigger] rest[i]),
                sort_key(#[trigger] rest[j]),
            ) by {
                assert(rest[i] == s[i] && rest[j] == s[j]);
            }
        }
        let at = lemma_insert_position(rest, x);
        assert forall|i: int| 0 <= i < at implies key_le(sort_key(#[trigger] s[i]), sort_key(x)) by {
            assert(s[i] == rest[i]);
        }
        assert forall|i: int| at <= i < s.len() implies !key_le(
            sort_key(#[trigger] s[i]),
            sort_key(x),
        ) by {
            if i < rest.len() {
                assert(s[i] == rest[i]);
            }
        }
        at
    }
}

/// Every sequence has a stable sort.
pub proof fn lemma_stable_sort_exists<T: Keyed>(input: Seq<T>) -> (out: Seq<T>)
    ensures
        is_stable_sort_of(out, input),
    decreases input.len(),
{
    if input.len() == 0 {
        input
    } else {
        let x = input.last();
        let rest = input.drop_last();
        let sorted = lemma_stable_sort_exists(rest);
        let at = lemma_insert_position(sorted, x);
        let out = sorted.insert(at, x);
        let front = sorted.take(at);
        let back = sorted.skip(at);
        assert(out =~= front.push(x) + back);
        assert(sorted =~= front + back);
        assert(rest.push(x) =~= input);
        assert(is_sorted(out)) by {
            assert forall|i: int, j: int| 0 <= i <= j < out.len() implies key_le(
                sort_key(#[trigger] out[i]),
                sort_key(#[trigger] out[j]),
            ) by {
                let before = |p: int| if p < at { p } else { p - 1 };
                if i != at && j != at {
                    assert(out[i] == sorted[before(i)] && out[j] == sorted[before(j)]);
                    assert(key_le(sort_key(sorted[before(i)]), sort_key(sorted[before(j)])));
                } else if i == at && j != at {
                    assert(out[j] == sorted[j - 1]);
                    assert(!key_le(sort_key(sorted[j - 1]), sort_key(x)));
                } else if j == at && i != at {
                    assert(out[i] == sorted[i]);
                }
            }
        }
        assert forall|k: SortKey| #[trigger] with_key(out, k) == with_key(input, k) by {
            let pred = |op: T| sort_key(op) == k;
            Seq::filter_distributes_over_add(front.push(x), back, pred);
            Seq::filter_distributes_over_add(front, back, pred);
            lemma_with_key_push(front, x, k);
            lemma_with_key_push(rest, x, k);
            assert(with_key(sorted, k) == with_key(rest, k));
            if sort_key(x) == k {
                assert forall|i: int| 0 <= i < back.len() implies sort_key(#[trigger] back[i])
                    != k by {
                    assert(back[i] == sorted[at + i]);
                }
                lemma_with_key_absent(back, k);
                assert(with_key(front, k).push(x) + with_key(back, k) =~= with_key(front, k).push(
                    x,
                ));
                assert(with_key(front, k) + with_key(back, k) =~= with_key(front, k));
            }
        }
        out
    }
}

/// Sorting is idempotent: the stable sort of a stable sort is that sort again.
pub proof fn lemma_sort_idempotent<T: Keyed>(input: Seq<T>, once: Seq<T>, twice: Seq<T>)
    requires
        is_stable_sort_of(once, input),
        is_stable_sort_of(twice, once),
    ensures
        twice == once,
{
    lemma_sorted_unique(twice, once);
}

/// The stable sort of a log is determined by the log.
pub proof fn lemma_stable_sort_unique<T: Keyed>(input: Seq<T>, a: Seq<T>, b: Seq<T>)
    requires
        is_stable_sort_of(a, input),
        is_stable_sort_of(b, input),
    ensures
        a == b,
{
    assert forall|k: SortKey| #[trigger] with_key(a, k) == with_key(b, k) by {
        assert(with_key(a, k) == with_key(input, k));
        assert(with_key(b, k) == with_key(input, k));
    }
    lemma_sorted_unique(a, b);
}

/// Lexicographic `<=` on keys.
fn key_le_exec(a: SortKey, b: SortKey) -> (r: bool)
    ensures
        r == key_le(a, b),
{
    if a.0 != b.0 {
        a.0 < b.0
    } else if a.1 != b.1 {
        a.1 < b.1
    } else if a.2 != b.2 {
        a.2 < b.2
    } else {
        a.3 <= b.3
    }
}

/// Merges two ordered runs; where keys are equal, the left run comes first.
fn merge_runs<T: Keyed + Copy>(left: &Vec<T>, right: &Vec<T>) -> (out: Vec<T>)
    requires
        is_sorted(left@),
        is_sorted(right@),
    ensures
        is_stable_sort_of(out@, left@ + right@),
        out@.to_multiset() == (left@ + right@).to_multiset(),
{
    let mut out: Vec<T> = Vec::new();
    let mut i: usize = 0;
    let mut j: usize = 0;
    proof {
        assert forall|k: SortKey| #[trigger]
            with_key(out@, k) == with_key(left@.take(0), k) + with_key(right@.take(0), k) by {
            lemma_with_key_absent(out@, k);
            lemma_with_key_absent(left@.take(0), k);
            lemma_with_key_absent(right@.take(0), k);
        }
        assert(left@.take(0) + right@.take(0) =~= out@);
    }
    while i < left.len() || j < right.len()
        invariant
            i <= left.len(),
            j <= right.len(),
            out.len() == i + j,
            is_sorted(left@),
            is_sorted(right@),
            is_sorted(out@),
            forall|p: int, q: int|
                0 <= p < out.len() && i <= q < left.len() ==> key_le(
                    sort_key(#[trigger] out@[p]),
                    sort_key(#[trigger] left@[q]),
                ),
            forall|p: int, q: int|
                0 <= p < out.len() && j <= q < right.len() ==> key_le(
                    sort_key(#[trigger] out@[p]),
                    sort_key(#[trigger] right@[q]),
                ),
            forall|p: int, q: int|
                0 <= p < j && i <= q < left.len() ==> !key_le(
                    sort_key(#[trigger] left@[q]),
                    sort_key(#[trigger] right@[p]),
                ),
            forall|k: SortKey| #[trigger]
                with_key(out@, k) == with_key(left@.take(i as int), k) + with_key(
                    right@.take(j as int),
                    k,
                ),
            out@.to_multiset() == (left@.take(i as int) + right@.take(j as int)).to_multiset(),
        decreases left.len() - i + right.len() - j,
    {
        let take_left = if j >= right.len() {
            true
        } else if i >= left.len() {
            false
        } else {
            key_le_exec(left[i].key(), right[j].key())
        };
        let ghost before = out@;
        if take_left {
            let x = left[i];
            out.push(x);
            proof {
                assert(left@.take(i + 1) == left@.take(i as int).push(x));
                assert forall|k: SortKey| #[trigger]
                    with_key(out@, k) == with_key(left@.take(i + 1), k) + with_key(
                        right@.take(j as int),
                        k,
                    ) by {
                    lemma_with_key_push(before, x, k);
                    lemma_with_key_push(left@.take(i as int), x, k);
                    assert(with_key(before, k) == with_key(left@.take(i as int), k) + with_key(
                        right@.take(j as int),
                        k,
                    ));
                    if sort_key(x) == k {
                        // Everything taken from the right run lies strictly below `x`.
                        assert forall|p: int| 0 <= p < right@.take(j as int).len() implies sort_key(
                            #[trigger] right@.take(j as int)[p],
                        ) != k by {
                            assert(!key_le(sort_key(left@[i as int]), sort_key(right@[p])));
                        }
                        lemma_with_key_absent(right@.take(j as int), k);
                        assert(with_key(before, k).push(x) =~= with_key(left@.take(i as int), k).push(
                            x,
                        ) + with_key(right@.take(j as int), k));
                    }
                }
                assert(left@.take(i + 1) + right@.take(j as int) =~= (left@.take(i as int)
                    + right@.take(j as int)).insert(i as int, x));
                vstd::seq_lib::to_multiset_build(before, x);
                (left@.take(i as int) + right@.take(j as int)).to_multiset_ensures();
                lemma_insert_multiset(left@.take(i as int) + right@.take(j as int), i as int, x);
                assert(is_sorted(out@)) by {
                    assert forall|p: int, q: int| 0 <= p <= q < out@.len() implies key_le(
                        sort_key(#[trigger] out@[p]),
                        sort_key(#[trigger] out@[q]),
                    ) by {
                        if q < before.len() {
                            assert(out@[p] == before[p] && out@[q] == before[q]);
                        } else if p < before.len() {
                            assert(out@[p] == before[p]);
                            assert(key_le(sort_key(before[p]), sort_key(left@[i as int])));
                        }
                    }
                }
                assert forall|p: int, q: int|
                    0 <= p < out.len() && j <= q < right.len() implies key_le(
                    sort_key(#[trigger] out@[p]),
                    sort_key(#[trigger] right@[q]),
                ) by {
                    if p < before.len() {
                        assert(out@[p] == before[p]);
                    } else {
                        assert(key_le(sort_key(left@[i as int]), sort_key(right@[j as int])));
                        assert(key_le(sort_key(right@[j as int]), sort_key(right@[q])));
                    }
                }
                assert forall|p: int, q: int|
                    0 <= p < out.len() && i + 1 <= q < left.len() implies key_le(
                    sort_key(#[trigger] out@[p]),
                    sort_key(#[trigger] left@[q]),
                ) by {
                    if p < before.len() {
                        assert(out@[p] == before[p]);
                    } else {
                        assert(key_le(sort_key(left@[i as int]), sort_key(left@[q])));
                    }
                }
            }
            i += 1;
        } else {
            let y = right[j];
            out.push(y);
            proof {
                assert(right@.take(j + 1) == right@.take(j as int).push(y));
                assert forall|k: SortKey| #[trigger]
                    with_key(out@, k) == with_key(left@.take(i as int), k) + with_key(
                        right@.take(j + 1),
                        k,
                    ) by {
                    lemma_with_key_push(before, y, k);
                    lemma_with_key_push(right@.take(j as int), y, k);
                    assert(with_key(before, k) == with_key(left@.take(i as int), k) + with_key(
                        right@.take(j as int),
                        k,
                    ));
                    if sort_key(y) == k {
                        assert(with_key(before, k).push(y) =~= with_key(left@.take(i as int), k)
                            + with_key(right@.take(j as int), k).push(y));
                    }
                }
                assert(left@.take(i as int) + right@.take(j + 1) =~= (left@.take(i as int)
                    + right@.take(j as int)).push(y));
                vstd::seq_lib::to_multiset_build(before, y);
                vstd::seq_lib::to_multiset_build(left@.take(i as int) + right@.take(j as int), y);
                assert(is_sorted(out@)) by {
                    assert forall|p: int, q: int| 0 <= p <= q < out@.len() implies key_le(
                        sort_key(#[trigger] out@[p]),
                        sort_key(#[trigger] out@[q]),
                    ) by {
                        if q < before.len() {
                            assert(out@[p] == before[p] && out@[q] == before[q]);
                        } else if p < before.len() {
                            assert(out@[p] == before[p]);
                            assert(key_le(sort_key(before[p]), sort_key(right@[j as int])));
                        }
                    }
                }
                assert forall|p: int, q: int|
                    0 <= p < out.len() && i <= q < left.len() implies key_le(
                    sort_key(#[trigger] out@[p]),
                    sort_key(#[trigger] left@[q]),
                ) by {
                    if p < before.len() {
                        assert(out@[p] == before[p]);
                    } else {
                        assert(!key_le(sort_key(left@[i as int]), sort_key(right@[j as int])));
                        assert(key_le(sort_key(left@[i as int]), sort_key(left@[q])));
                    }
                }
                assert forall|p: int, q: int|
                    0 <= p < out.len() && j + 1 <= q < right.len() implies key_le(
                    sort_key(#[trigger] out@[p]),
                    sort_key(#[trigger] right@[q]),
                ) by {
                    if p < before.len() {
                        assert(out@[p] == before[p]);
                    } else {
                        assert(key_le(sort_key(right@[j as int]), sort_key(right@[q])));
                    }
                }
                assert forall|p: int, q: int| 0 <= p < j + 1 && i <= q < left.len() implies !key_le(
                    sort_key(#[trigger] left@[q]),
                    sort_key(#[trigger] right@[p]),
                ) by {
                    if p == j {
                        assert(!key_le(sort_key(left@[i as int]), sort_key(right@[j as int])));
                        assert(key_le(sort_key(left@[i as int]), sort_key(left@[q])));
                    }
                }
            }
            j += 1;
        }
    }
    proof {
        assert(left@.take(i as int) == left@);
        assert(right@.take(j as int) == right@);
        assert forall|k: SortKey| #[trigger] with_key(out@, k) == with_key(left@ + right@, k) by {
            assert(with_key(out@, k) == with_key(left@.take(i as int), k) + with_key(
                right@.take(j as int),
                k,
            ));
            Seq::filter_distributes_over_add(
                left@,
                right@,
                |op: T| sort_key(op) == k,
            );
        }
    }
    out
}

/// Inserting an element adds it to the multiset of the sequence.
proof fn lemma_insert_multiset<T: Keyed>(s: Seq<T>, i: int, x: T)
    requires
        0 <= i <= s.len(),
    ensures
        s.insert(i, x).to_multiset() == s.to_multiset().insert(x),
{
    let t = s.insert(i, x);
    assert(t.remove(i) =~= s);
    vstd::seq_lib::to_multiset_remove(t, i);
    assert(t.to_multiset() =~= s.to_multiset().insert(x)) by {
        t.to_multiset_ensures();
    }
}

/// The stable sort of `ops[lo..hi]`, by merging the sorts of its two halves.
fn sort_range<T: Keyed + Copy>(ops: &Vec<T>, lo: usize, hi: usize) -> (out: Vec<T>)
    requires
        lo <= hi <= ops.len(),
    ensures
        is_stable_sort_of(out@, ops@.subrange(lo as int, hi as int)),
        out@.to_multiset() == ops@.subrange(lo as int, hi as int).to_multiset(),
    decreases hi - lo,
{
    if hi - lo <= 1 {
        let mut out: Vec<T> = Vec::new();
        if hi - lo == 1 {
            out.push(ops[lo]);
        }
        assert(out@ =~= ops@.subrange(lo as int, hi as int));
        return out;
    }
    let mid = lo + (hi - lo) / 2;
    let left = sort_range(ops, lo, mid);
    let right = sort_range(ops, mid, hi);
    let out = merge_runs(&left, &right);
    proof {
        let first = ops@.subrange(lo as int, mid as int);
        let second = ops@.subrange(mid as int, hi as int);
        assert(first + second =~= ops@.subrange(lo as int, hi as int));
        assert forall|k: SortKey| #[trigger] with_key(out@, k) == with_key(first + second, k) by {
            let pred = |op: T| sort_key(op) == k;
            assert(with_key(out@, k) == with_key(left@ + right@, k));
            Seq::filter_distributes_over_add(left@, right@, pred);
            Seq::filter_distributes_over_add(first, second, pred);
            assert(with_key(left@, k) == with_key(first, k));
            assert(with_key(right@, k) == with_key(second, k));
        }
        vstd::seq_lib::lemma_multiset_commutative(left@, right@);
        vstd::seq_lib::lemma_multiset_commutative(first, second);
    }
    out
}

/// The values of `ops` in key order; values with equal keys keep their order.
pub fn stable_sort<T: Keyed + Copy>(ops: &Vec<T>) -> (out: Vec<T>)
    ensures
        is_stable_sort_of(out@, ops@),
        out@.to_multiset() == ops@.to_multiset(),
        out.len() == ops.len(),
{
    assert(ops@.subrange(0, ops.len() as int) =~= ops@);
    let out = sort_range(ops, 0, ops.len());
    proof {
        out@.to_multiset_ensures();
        ops@.to_multiset_ensures();
    }
    out
}

/// The least of two lengths.
fn shorter(a: usize, b: usize) -> (m: usize)
    ensures
        m == if a <= b { a } else { b },
{
    if a <= b { a } else { b }
}

/// Orders a log of memory operations, given as six columns, by context,
/// segment, virtual address and timestamp.
///
/// The columns are read side by side as far as the shortest of them reaches.
/// The six columns that come back hold the same operations in key order;
/// operations with equal keys keep the order in which they were given.
pub fn sort_memory_ops(
    timestamp: &[GoldilocksField],
    is_read: &[GoldilocksField],
    context: &[GoldilocksField],
    segment: &[GoldilocksField],
    virtuals: &[GoldilocksField],
    values: &Vec<[GoldilocksField; 8]>,
) -> (sorted: (
    Vec<GoldilocksField>,
    Vec<GoldilocksField>,
    Vec<GoldilocksField>,
    Vec<GoldilocksField>,
    Vec<GoldilocksField>,
    Vec<[GoldilocksField; 8]>,
))
    ensures
        ({
            let n = min_len(
                timestamp@.len(),
                is_read@.len(),
                context@.len(),
                segment@.len(),
                virtuals@.len(),
                values@.len(),
            );
            let input = zip_columns(
                timestamp@,
                is_read@,
                context@,
                segment@,
                virtuals@,
                values@,
                n,
            );
            let output = zip_columns(
                sorted.0@,
                sorted.1@,
                sorted.2@,
                sorted.3@,
                sorted.4@,
                sorted.5@,
                n,
            );
            &&& sorted.0@.len() == n
            &&& sorted.1@.len() == n
            &&& sorted.2@.len() == n
            &&& sorted.3@.len() == n
            &&& sorted.4@.len() == n
            &&& sorted.5@.len() == n
            &&& is_stable_sort_of(output, input)
            &&& output.to_multiset() == input.to_multiset()
        }),
{
    let n = shorter(
        shorter(
            shorter(
                shorter(shorter(timestamp.len(), is_read.len()), context.len()),
                segment.len(),
            ),
            virtuals.len(),
        ),
        values.len(),
    );
    let ghost input = zip_columns(
        timestamp@,
        is_read@,
        context@,
        segment@,
        virtuals@,
        values@,
        n as nat,
    );
    let mut ops: Vec<MemoryOp> = Vec::with_capacity(n);
    for i in 0..n
        invariant
            n <= timestamp@.len(),
            n <= is_read@.len(),
            n <= context@.len(),
            n <= segment@.len(),
            n <= virtuals@.len(),
            n <= values@.len(),
            input == zip_columns(
                timestamp@,
                is_read@,
                context@,
                segment@,
                virtuals@,
                values@,
                n as nat,
            ),
            ops@ == input.take(i as int),
    {
        ops.push((timestamp[i], is_read[i], context[i], segment[i], virtuals[i], values[i]));
        assert(ops@ =~= input.take(i + 1));
    }
    assert(ops@ == input) by {
        assert(input.take(n as int) =~= input);
    }

    let ordered = stable_sort(&ops);

    let mut sorted_timestamp: Vec<GoldilocksField> = Vec::with_capacity(n);
    let mut sorted_is_read: Vec<GoldilocksField> = Vec::with_capacity(n);
    let mut sorted_context: Vec<GoldilocksField> = Vec::with_capacity(n);
    let mut sorted_segment: Vec<GoldilocksField> = Vec::with_capacity(n);
    let mut sorted_virtual: Vec<GoldilocksField> = Vec::with_capacity(n);
    let mut sorted_values: Vec<[GoldilocksField; 8]> = Vec::with_capacity(n);
    proof {
        ordered@.to_multiset_ensures();
        input.to_multiset_ensures();
    }
    for i in 0..n
        invariant
            ordered.len() == n,
            sorted_timestamp.len() == i,
            sorted_is_read.len() == i,
            sorted_context.len() == i,
            sorted_segment.len() == i,
            sorted_virtual.len() == i,
            sorted_values.len() == i,
            forall|j: int|
                0 <= j < i ==> #[trigger] ordered@[j] == (
                    sorted_timestamp@[j],
                    sorted_is_read@[j],
                    sorted_context@[j],
                    sorted_segment@[j],
                    sorted_virtual@[j],
                    sorted_values@[j],
                ),
    {
        let op = ordered[i];
        sorted_timestamp.push(op.0);
        sorted_is_read.push(op.1);
        sorted_context.push(op.2);
        sorted_segment.push(op.3);
        sorted_virtual.push(op.4);
        sorted_values.push(op.5);
    }
    assert(zip_columns(
        sorted_timestamp@,
        sorted_is_read@,
        sorted_context@,
        sorted_segment@,
        sorted_virtual@,
        sorted_values@,
        n as nat,
    ) =~= ordered@);
    (sorted_timestamp, sorted_is_read, sorted_context, sorted_segment, sorted_virtual, sorted_values)
}

} // verus!
