//! What it means for a log of memory operations to be consistent: every read
//! returns what the latest write to its address stored.

use crate::goldilocks_field::{GoldilocksField, ORDER};
use crate::sorting::MemoryOp;
use crate::trace::address_of;
use vstd::prelude::*;

verus! {

/// The canonical values of the eight limbs of a value.
pub open spec fn limb_values(limbs: [GoldilocksField; 8]) -> Seq<int> {
    Seq::new(8, |j: int| limbs[j]@)
}

/// The operation writes: its read flag is zero.
pub open spec fn is_write(op: MemoryOp) -> bool {
    op.1@ == 0
}

/// The memory after the operations of `ops`, in their order: each address that
/// was written, with the value of the latest write to it.
pub open spec fn memory_after(ops: Seq<MemoryOp>) -> Map<(int, int, int), Seq<int>>
    decreases ops.len(),
{
    if ops.len() == 0 {
        Map::empty()
    } else {
        let before = memory_after(ops.drop_last());
        if is_write(ops.last()) {
            before.insert(address_of(ops.last()), limb_values(ops.last().5))
        } else {
            before
        }
    }
}

/// Operation `i` is a write, or a read of an address that was written before,
/// with the value of the latest write to it.
pub open spec fn consistent_at(ops: Seq<MemoryOp>, i: int) -> bool {
    is_write(ops[i]) || {
        let memory = memory_after(ops.take(i));
        &&& ops[i].1@ == 1
        &&& memory.dom().contains(address_of(ops[i]))
        &&& memory[address_of(ops[i])] == limb_values(ops[i].5)
    }
}

/// The timestamps grow along the log.
pub open spec fn timestamps_increase(ops: Seq<MemoryOp>) -> bool {
    forall|i: int, j: int|
        0 <= i < j < ops.len() ==> (#[trigger] ops[i]).0@ < (#[trigger] ops[j]).0@
}

/// A log as a machine produces it: the timestamps grow, and every read
/// returns the value of the latest write to its address.
pub open spec fn is_valid_log(ops: Seq<MemoryOp>) -> bool {
    &&& timestamps_increase(ops)
    &&& forall|i: int| 0 <= i < ops.len() ==> #[trigger] consistent_at(ops, i)
}

/// The timestamp and the address of every operation are held by their
/// canonical representatives.
pub open spec fn is_canonical_log(ops: Seq<MemoryOp>) -> bool {
    forall|i: int|
        0 <= i < ops.len() ==> {
            let op = #[trigger] ops[i];
            &&& op.0.0 < ORDER
            &&& op.2.0 < ORDER
            &&& op.3.0 < ORDER
            &&& op.4.0 < ORDER
        }
}

/// One more operation keeps a valid log valid, if its timestamp is larger
/// than those before it and it is consistent with the log.
pub proof fn lemma_valid_log_push(ops: Seq<MemoryOp>, op: MemoryOp)
    requires
        is_valid_log(ops),
        forall|i: int| 0 <= i < ops.len() ==> (#[trigger] ops[i]).0@ < op.0@,
        consistent_at(ops.push(op), ops.len() as int),
    ensures
        is_valid_log(ops.push(op)),
{
    let more = ops.push(op);
    assert forall|i: int| 0 <= i < more.len() implies #[trigger] consistent_at(more, i) by {
        if i < ops.len() {
            assert(more.take(i) =~= ops.take(i));
            assert(consistent_at(ops, i));
            assert(more[i] == ops[i]);
        }
    }
    assert forall|i: int, j: int| 0 <= i < j < more.len() implies (#[trigger] more[i]).0@ < (
    #[trigger] more[j]).0@ by {
        if j < ops.len() {
            assert(more[i] == ops[i] && more[j] == ops[j]);
        } else {
            assert(more[i] == ops[i]);
        }
    }
}

} // verus!
