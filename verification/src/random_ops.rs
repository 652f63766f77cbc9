//! Random valid logs, for trying the argument out.

use crate::goldilocks_field::{GoldilocksField, ORDER};
use crate::log::{
    consistent_at, is_canonical_log, is_valid_log, is_write, lemma_valid_log_push, limb_values,
    memory_after,
};
use crate::sorting::MemoryOp;
use crate::trace::address_of;
use rand::rngs::ThreadRng;
use rand::Rng;
use std::collections::HashMap;
use vstd::prelude::*;

verus! {

/// `rand::rngs::ThreadRng`, the handle to the thread-local generator of the
/// `rand` crate, declared so that it can be passed around. Nothing is known
/// of what it holds.
#[verifier::external_type_specification]
#[verifier::external_body]
pub struct ExThreadRng(ThreadRng);

/// A handle to the generator of the current thread, from `rand::thread_rng`.
///
/// The body is not verified, and nothing is claimed of the handle. The call
/// panics only where the system cannot seed the generator.
#[verifier::external_body]
fn thread_generator() -> ThreadRng {
    rand::thread_rng()
}

/// Some eight 32-bit integers, from `rand::Rng::gen`.
///
/// The body is not verified, and nothing is claimed of the result.
#[verifier::external_body]
fn random_limbs(rng: &mut ThreadRng) -> [u32; 8] {
    rng.gen()
}

/// Some integer below `bound`, from `rand::Rng::gen_range` on `0..bound`.
///
/// The body is not verified. That the result is below `bound` is taken from
/// `gen_range`, which samples from the half-open range that it is given;
/// it panics on an empty range, so `bound` must be positive.
#[verifier::external_body]
fn random_below(rng: &mut ThreadRng, bound: u64) -> (r: u64)
    requires
        bound > 0,
    ensures
        r < bound,
{
    rng.gen_range(0..bound)
}

impl GoldilocksField {
    /// A random element, by drawing its canonical value from `rng`.
    pub fn sample(rng: &mut ThreadRng) -> (r: Self)
        ensures
            r.0 < ORDER,
    {
        Self::from_canonical_u64(random_below(rng, ORDER))
    }

    /// A random element, by drawing its canonical value from the generator
    /// of the current thread.
    pub fn rand() -> (r: Self)
        ensures
            r.0 < ORDER,
    {
        let mut rng = thread_generator();
        Self::sample(&mut rng)
    }
}

/// The number of contexts, segments and virtual addresses that the random
/// logs range over.
pub const NUM_CONTEXTS: usize = 256;

pub const NUM_SEGMENTS: usize = 8;

pub const NUM_VIRTUALS: usize = 20;

/// The number that stands for an address in the table of written addresses.
pub open spec fn address_key(context: int, segment: int, virt: int) -> int {
    (context * NUM_SEGMENTS + segment) * NUM_VIRTUALS + virt
}

/// The address lies in the ranges that the random logs range over.
pub open spec fn in_ranges(address: (int, int, int)) -> bool {
    &&& 0 <= address.0 < NUM_CONTEXTS
    &&& 0 <= address.1 < NUM_SEGMENTS
    &&& 0 <= address.2 < NUM_VIRTUALS
}

/// `table` holds the memory after `ops`: the written addresses, by their
/// keys, each with the limbs of the latest write to it.
spec fn table_holds(table: Map<usize, [GoldilocksField; 8]>, ops: Seq<MemoryOp>) -> bool {
    let memory = memory_after(ops);
    &&& forall|address: (int, int, int)| #[trigger]
        memory.dom().contains(address) ==> in_ranges(address)
    &&& forall|address: (int, int, int)|
        in_ranges(address) ==> (#[trigger] memory.dom().contains(address) <==> table.dom().contains(
            address_key(address.0, address.1, address.2) as usize,
        ))
    &&& forall|address: (int, int, int)|
        in_ranges(address) && #[trigger] memory.dom().contains(address) ==> limb_values(
            table[address_key(address.0, address.1, address.2) as usize],
        ) == memory[address]
}

/// The operation stays within the ranges of the random logs: a small
/// address, and limbs of 32 bits.
pub open spec fn is_small_op(op: MemoryOp) -> bool {
    &&& in_ranges(address_of(op))
    &&& op.1.0 <= 1
    &&& forall|j: int| 0 <= j < 8 ==> (#[trigger] op.5[j]).0 <= u32::MAX
}

/// The field elements of eight 32-bit integers.
fn limbs_of(val: [u32; 8]) -> (vals: [GoldilocksField; 8])
    ensures
        forall|j: int| 0 <= j < 8 ==> (#[trigger] vals[j]).0 == val[j],
{
    let mut vals = [GoldilocksField::zero();8];
    for j in 0..8usize
        invariant
            forall|k: int| 0 <= k < j ==> (#[trigger] vals[k]).0 == val[k],
            forall|k: int| j <= k < 8 ==> (#[trigger] vals[k]).0 == 0,
    {
        vals[j] = GoldilocksField::from_canonical_u32(val[j]);
    }
    vals
}

/// A random valid log of `num_ops` operations.
///
/// The timestamps count from zero. The first operation is a write; each later
/// one is, by the toss of a coin, a write of random limbs to a random address
/// or a read of a random address among those written before, with the value
/// that the latest write to it stored.
pub fn generate_random_memory_ops(num_ops: usize) -> (memory_ops: Vec<MemoryOp>)
    requires
        num_ops < ORDER,
    ensures
        memory_ops.len() == num_ops,
        is_valid_log(memory_ops@),
        is_canonical_log(memory_ops@),
        forall|i: int| 0 <= i < num_ops ==> (#[trigger] memory_ops@[i]).0.0 == i,
        forall|i: int| 0 <= i < num_ops ==> is_small_op(#[trigger] memory_ops@[i]),
        num_ops > 0 ==> is_write(memory_ops@[0]),
{
    let mut memory_ops: Vec<MemoryOp> = Vec::new();

    let mut rng = thread_generator();

    let mut current_memory_values: HashMap<usize, [GoldilocksField; 8]> = HashMap::new();
    let mut written: Vec<usize> = Vec::new();
    let mut cur_timestamp: usize = 0;
    proof {
        broadcast use vstd::std_specs::hash::group_hash_axioms;

    }
    for i in 0..num_ops
        invariant
            num_ops < ORDER,
            cur_timestamp == i,
            memory_ops.len() == i,
            is_valid_log(memory_ops@),
            is_canonical_log(memory_ops@),
            forall|r: int| 0 <= r < i ==> (#[trigger] memory_ops@[r]).0.0 == r,
            forall|r: int| 0 <= r < i ==> is_small_op(#[trigger] memory_ops@[r]),
            i > 0 ==> is_write(memory_ops@[0]),
            i > 0 ==> written.len() > 0,
            forall|key: usize|
                current_memory_values@.dom().contains(key) ==> written@.contains(key),
            forall|key: usize, j: int|
                current_memory_values@.dom().contains(key) && 0 <= j < 8 ==> (
                #[trigger] current_memory_values@[key][j]).0 <= u32::MAX,
            table_holds(current_memory_values@, memory_ops@),
            forall|t: int|
                0 <= t < written.len() ==> current_memory_values@.dom().contains(
                    #[trigger] written@[t],
                ) && written@[t] < NUM_CONTEXTS * NUM_SEGMENTS * NUM_VIRTUALS,
    {
        broadcast use vstd::std_specs::hash::group_hash_axioms;

        let is_read = if i == 0 {
            false
        } else {
            random_below(&mut rng, 2) == 1
        };
        let is_read_field = GoldilocksField::from_bool(is_read);
        let ghost before = memory_ops@;
        let ghost table_before = current_memory_values@;

        let (context, segment, virt, vals) = if is_read {
            let key = written[random_below(&mut rng, written.len() as u64) as usize];
            let context = key / NUM_VIRTUALS / NUM_SEGMENTS;
            let segment = key / NUM_VIRTUALS % NUM_SEGMENTS;
            let virt = key % NUM_VIRTUALS;
            assert(key == address_key(context as int, segment as int, virt as int));
            let vals = match current_memory_values.get(&key) {
                Some(vals) => *vals,
                None => [GoldilocksField::zero();8],
            };
            (context, segment, virt, vals)
        } else {
            let context = random_below(&mut rng, NUM_CONTEXTS as u64) as usize;
            let segment = random_below(&mut rng, NUM_SEGMENTS as u64) as usize;
            let virt = random_below(&mut rng, NUM_VIRTUALS as u64) as usize;

            let val: [u32; 8] = random_limbs(&mut rng);
            let vals = limbs_of(val);

            let key = (context * NUM_SEGMENTS + segment) * NUM_VIRTUALS + virt;
            let ghost written_before = written@;
            let known = current_memory_values.contains_key(&key);
            if !known {
                written.push(key);
            }
            current_memory_values.insert(key, vals);
            proof {
                assert(known == table_before.dom().contains(key));
                assert(current_memory_values@ == table_before.insert(key, vals));
                assert forall|k: usize|
                    current_memory_values@.dom().contains(k) implies written@.contains(k) by {
                    if k == key {
                        if table_before.dom().contains(key) {
                            assert(written_before.contains(key));
                            let t = choose|t: int|
                                0 <= t < written_before.len() && written_before[t] == key;
                            assert(written@[t] == key);
                        } else {
                            assert(written@[written_before.len() as int] == key);
                        }
                    } else {
                        assert(table_before.dom().contains(k));
                        assert(written_before.contains(k));
                        let t = choose|t: int|
                            0 <= t < written_before.len() && written_before[t] == k;
                        assert(written@[t] == k);
                    }
                }
                assert(written@.contains(key));
            }

            (context, segment, virt, vals)
        };

        let timestamp = GoldilocksField::from_canonical_usize(cur_timestamp);
        cur_timestamp += 1;

        let op = (
            timestamp,
            is_read_field,
            GoldilocksField::from_canonical_usize(context),
            GoldilocksField::from_canonical_usize(segment),
            GoldilocksField::from_canonical_usize(virt),
            vals,
        );
        memory_ops.push(op);
        proof {
            let address = address_of(op);
            assert(address == (context as int, segment as int, virt as int));
            assert(before.push(op).drop_last() =~= before);
            assert(before.push(op).take(i as int) =~= before);
            if is_read {
                assert(memory_after(before).dom().contains(address));
                assert(consistent_at(before.push(op), i as int));
            } else {
                assert(memory_after(memory_ops@) == memory_after(before).insert(
                    address,
                    limb_values(vals),
                ));
                lemma_table_insert(table_before, before, op);
            }
            lemma_valid_log_push(before, op);
        }
    }

    memory_ops
}

/// A write keeps the table in step with the memory.
proof fn lemma_table_insert(
    table: Map<usize, [GoldilocksField; 8]>,
    ops: Seq<MemoryOp>,
    op: MemoryOp,
)
    requires
        table_holds(table, ops),
        is_write(op),
        in_ranges(address_of(op)),
    ensures
        table_holds(
            table.insert(
                address_key(address_of(op).0, address_of(op).1, address_of(op).2) as usize,
                op.5,
            ),
            ops.push(op),
        ),
{
    let address = address_of(op);
    let key = address_key(address.0, address.1, address.2) as usize;
    let after = table.insert(key, op.5);
    assert(ops.push(op).drop_last() =~= ops);
    let memory = memory_after(ops.push(op));
    assert(memory == memory_after(ops).insert(address, limb_values(op.5)));
    assert forall|other: (int, int, int)| in_ranges(other) implies (#[trigger] memory.dom().contains(
        other,
    ) <==> after.dom().contains(address_key(other.0, other.1, other.2) as usize)) by {
        lemma_key_injective(address, other);
        assert(memory_after(ops).dom().contains(other) <==> table.dom().contains(
            address_key(other.0, other.1, other.2) as usize,
        ));
    }
    assert forall|other: (int, int, int)|
        in_ranges(other) && #[trigger] memory.dom().contains(other) implies limb_values(
        after[address_key(other.0, other.1, other.2) as usize],
    ) == memory[other] by {
        lemma_key_injective(address, other);
        if other != address {
            assert(memory_after(ops).dom().contains(other));
        }
    }
}

/// Different addresses within the ranges have different keys.
proof fn lemma_key_injective(a: (int, int, int), b: (int, int, int))
    requires
        in_ranges(a),
        in_ranges(b),
    ensures
        address_key(a.0, a.1, a.2) == address_key(b.0, b.1, b.2) ==> a == b,
        0 <= address_key(a.0, a.1, a.2) < NUM_CONTEXTS * NUM_SEGMENTS * NUM_VIRTUALS,
{
}

} // verus!
