//! The column layout of the memory table.

use vstd::prelude::*;

verus! {

/// The number of field elements that hold one memory value.
pub const NUM_MEMORY_VALUE_LIMBS: usize = 8;

pub const TIMESTAMP: usize = 0;

pub const IS_READ: usize = TIMESTAMP + 1;

pub const ADDR_CONTEXT: usize = IS_READ + 1;

pub const ADDR_SEGMENT: usize = ADDR_CONTEXT + 1;

pub const ADDR_VIRTUAL: usize = ADDR_SEGMENT + 1;

/// The first of the eight limbs of the value.
pub const VALUE_START: usize = ADDR_VIRTUAL + 1;

// The same operations once more, ordered by address and then by timestamp.
pub const SORTED_TIMESTAMP: usize = VALUE_START + NUM_MEMORY_VALUE_LIMBS;

pub const SORTED_IS_READ: usize = SORTED_TIMESTAMP + 1;

pub const SORTED_ADDR_CONTEXT: usize = SORTED_IS_READ + 1;

pub const SORTED_ADDR_SEGMENT: usize = SORTED_ADDR_CONTEXT + 1;

pub const SORTED_ADDR_VIRTUAL: usize = SORTED_ADDR_SEGMENT + 1;

/// The first of the eight limbs of the value in the ordered copy.
pub const SORTED_VALUE_START: usize = SORTED_ADDR_VIRTUAL + 1;

// Flags that say which part of the address differs from the next row of the
// ordered copy, while the parts before it do not.
pub const CONTEXT_FIRST_CHANGE: usize = SORTED_VALUE_START + NUM_MEMORY_VALUE_LIMBS;

pub const SEGMENT_FIRST_CHANGE: usize = CONTEXT_FIRST_CHANGE + 1;

pub const VIRTUAL_FIRST_CHANGE: usize = SEGMENT_FIRST_CHANGE + 1;

/// The difference that must lie in `[0, N)` for the rows to be in order.
pub const RANGE_CHECK: usize = VIRTUAL_FIRST_CHANGE + 1;

/// Counts the rows from zero; the table that the range check looks up.
pub const COUNTER: usize = RANGE_CHECK + 1;

// The two columns of the lookup argument.
pub const RANGE_CHECK_PERMUTED: usize = COUNTER + 1;

pub const COUNTER_PERMUTED: usize = RANGE_CHECK_PERMUTED + 1;

pub const NUM_REGISTERS: usize = COUNTER_PERMUTED + 1;

/// The column of limb `i` of the value.
pub fn value_limb(i: usize) -> (col: usize)
    requires
        i < NUM_MEMORY_VALUE_LIMBS,
    ensures
        col == VALUE_START + i,
        col < NUM_REGISTERS,
{
    VALUE_START + i
}

/// The column of limb `i` of the value in the ordered copy.
pub fn sorted_value_limb(i: usize) -> (col: usize)
    requires
        i < NUM_MEMORY_VALUE_LIMBS,
    ensures
        col == SORTED_VALUE_START + i,
        col < NUM_REGISTERS,
{
    SORTED_VALUE_START + i
}

} // verus!
