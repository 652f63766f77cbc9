//! The columns derived from the ordered log: the first-change flags of each
//! pair of adjacent rows, and the difference that the range check bounds.

use crate::goldilocks_field::{field_add, field_mul, field_order, field_sub, GoldilocksField};
use vstd::prelude::*;

verus! {

/// The first-change flags of two adjacent rows, as context, segment and
/// virtual flag: the flag of the first address part that differs is one, and
/// no flag is one where the address is unchanged.
pub open spec fn first_change_flags(
    context: int,
    segment: int,
    virt: int,
    next_context: int,
    next_segment: int,
    next_virt: int,
) -> (int, int, int) {
    if context != next_context {
        (1, 0, 0)
    } else if segment != next_segment {
        (0, 1, 0)
    } else if virt != next_virt {
        (0, 0, 1)
    } else {
        (0, 0, 0)
    }
}

/// One where no first-change flag is set: `1 - context - segment - virtual`.
pub open spec fn address_unchanged(
    context_first_change: int,
    segment_first_change: int,
    virtual_first_change: int,
) -> int {
    field_sub(
        field_sub(field_sub(1, context_first_change), segment_first_change),
        virtual_first_change,
    )
}

/// `next - cur - 1` in the field.
pub open spec fn step_gap(cur: int, next: int) -> int {
    field_sub(field_sub(next, cur), 1)
}

/// The value that the range check bounds: each flag times the gap of its
/// column, plus the unchanged-address indicator times the gap of the timestamps.
pub open spec fn range_check_value(
    context: int,
    segment: int,
    virt: int,
    timestamp: int,
    next_context: int,
    next_segment: int,
    next_virt: int,
    next_timestamp: int,
    context_first_change: int,
    segment_first_change: int,
    virtual_first_change: int,
) -> int {
    field_add(
        field_add(
            field_add(
                field_mul(context_first_change, step_gap(context, next_context)),
                field_mul(segment_first_change, step_gap(segment, next_segment)),
            ),
            field_mul(virtual_first_change, step_gap(virt, next_virt)),
        ),
        field_mul(
            address_unchanged(context_first_change, segment_first_change, virtual_first_change),
            step_gap(timestamp, next_timestamp),
        ),
    )
}

/// Of the four states of a pair of adjacent rows (context changed, segment
/// changed, virtual address changed, address unchanged) exactly one holds, and
/// it is the first in this order whose condition is met.
pub proof fn lemma_exactly_one_flag_state(
    context: int,
    segment: int,
    virt: int,
    next_context: int,
    next_segment: int,
    next_virt: int,
)
    ensures
        ({
            let flags = first_change_flags(
                context,
                segment,
                virt,
                next_context,
                next_segment,
                next_virt,
            );
            let unchanged = address_unchanged(flags.0, flags.1, flags.2);
            &&& (flags.0 == 0 || flags.0 == 1)
            &&& (flags.1 == 0 || flags.1 == 1)
            &&& (flags.2 == 0 || flags.2 == 1)
            &&& (unchanged == 0 || unchanged == 1)
            &&& flags.0 + flags.1 + flags.2 + unchanged == 1
            &&& flags.0 == 1 <==> context != next_context
            &&& flags.1 == 1 <==> context == next_context && segment != next_segment
            &&& flags.2 == 1 <==> context == next_context && segment == next_segment && virt
                != next_virt
            &&& unchanged == 1 <==> context == next_context && segment == next_segment && virt
                == next_virt
        }),
{
}

/// With honest flags the range-check value is the gap of the one column that
/// the state selects; where the address is unchanged it is
/// `next_timestamp - timestamp - 1`.
pub proof fn lemma_range_check_selects(
    context: int,
    segment: int,
    virt: int,
    timestamp: int,
    next_context: int,
    next_segment: int,
    next_virt: int,
    next_timestamp: int,
)
    ensures
        ({
            let flags = first_change_flags(
                context,
                segment,
                virt,
                next_context,
                next_segment,
                next_virt,
            );
            let value = range_check_value(
                context,
                segment,
                virt,
                timestamp,
                next_context,
                next_segment,
                next_virt,
                next_timestamp,
                flags.0,
                flags.1,
                flags.2,
            );
            value == if context != next_context {
                (next_context - context - 1) % field_order()
            } else if segment != next_segment {
                (next_segment - segment - 1) % field_order()
            } else if virt != next_virt {
                (next_virt - virt - 1) % field_order()
            } else {
                (next_timestamp - timestamp - 1) % field_order()
            }
        }),
{
    lemma_step_gap(context, next_context);
    lemma_step_gap(segment, next_segment);
    lemma_step_gap(virt, next_virt);
    lemma_step_gap(timestamp, next_timestamp);
    lemma_select(step_gap(context, next_context));
    lemma_select(step_gap(segment, next_segment));
    lemma_select(step_gap(virt, next_virt));
    lemma_select(step_gap(timestamp, next_timestamp));
}

/// The gap is `next - cur - 1` reduced once.
pub proof fn lemma_step_gap(cur: int, next: int)
    ensures
        step_gap(cur, next) == (next - cur - 1) % field_order(),
        0 <= step_gap(cur, next) < field_order(),
{
    vstd::arithmetic::div_mod::lemma_sub_mod_noop(next - cur, 1, field_order());
}

/// Multiplying a residue by one keeps it, and by zero gives zero.
proof fn lemma_select(x: int)
    requires
        0 <= x < field_order(),
    ensures
        field_mul(1, x) == x,
        field_mul(0, x) == 0,
{
}

/// The first-change flags of every pair of adjacent rows of an ordered log.
///
/// Row `i` gets the flags of rows `i` and `i + 1`; the last row, which has no
/// successor, gets three zeros.
pub fn generate_first_change_flags(
    context: &Vec<GoldilocksField>,
    segment: &Vec<GoldilocksField>,
    virtuals: &Vec<GoldilocksField>,
) -> (flags: (Vec<GoldilocksField>, Vec<GoldilocksField>, Vec<GoldilocksField>))
    requires
        context.len() >= 1,
        segment.len() >= context.len(),
        virtuals.len() >= context.len(),
    ensures
        flags.0.len() == context.len(),
        flags.1.len() == context.len(),
        flags.2.len() == context.len(),
        forall|i: int|
            0 <= i < context.len() - 1 ==> (#[trigger] flags.0@[i]@, flags.1@[i]@, flags.2@[i]@)
                == first_change_flags(
                context@[i]@,
                segment@[i]@,
                virtuals@[i]@,
                context@[i + 1]@,
                segment@[i + 1]@,
                virtuals@[i + 1]@,
            ),
        flags.0@[context.len() - 1].0 == 0,
        flags.1@[context.len() - 1].0 == 0,
        flags.2@[context.len() - 1].0 == 0,
{
    let num_ops = context.len();
    let mut context_first_change: Vec<GoldilocksField> = Vec::new();
    let mut segment_first_change: Vec<GoldilocksField> = Vec::new();
    let mut virtual_first_change: Vec<GoldilocksField> = Vec::new();
    let last = num_ops - 1;
    for idx in 0..last
        invariant
            num_ops == context.len(),
            last == num_ops - 1,
            segment.len() >= num_ops,
            virtuals.len() >= num_ops,
            context_first_change.len() == idx,
            segment_first_change.len() == idx,
            virtual_first_change.len() == idx,
            forall|i: int|
                0 <= i < idx ==> (
                    #[trigger] context_first_change@[i]@,
                    segment_first_change@[i]@,
                    virtual_first_change@[i]@,
                ) == first_change_flags(
                    context@[i]@,
                    segment@[i]@,
                    virtuals@[i]@,
                    context@[i + 1]@,
                    segment@[i + 1]@,
                    virtuals@[i + 1]@,
                ),
    {
        let one = GoldilocksField::one();
        let this_context_first_change = if context[idx] != context[idx + 1] {
            GoldilocksField::one()
        } else {
            GoldilocksField::zero()
        };
        let this_segment_first_change = if segment[idx] != segment[idx + 1] {
            one * (one - this_context_first_change)
        } else {
            GoldilocksField::zero()
        };
        let this_virtual_first_change = if virtuals[idx] != virtuals[idx + 1] {
            one * (one - this_context_first_change) * (one - this_segment_first_change)
        } else {
            GoldilocksField::zero()
        };

        context_first_change.push(this_context_first_change);
        segment_first_change.push(this_segment_first_change);
        virtual_first_change.push(this_virtual_first_change);
    }

    context_first_change.push(GoldilocksField::zero());
    segment_first_change.push(GoldilocksField::zero());
    virtual_first_change.push(GoldilocksField::zero());

    (context_first_change, segment_first_change, virtual_first_change)
}

/// The range-check value of every row of an ordered log.
///
/// Row `i` gets the value for rows `i` and `i + 1`; the last row gets zero.
pub fn generate_range_check_value(
    context: &Vec<GoldilocksField>,
    segment: &Vec<GoldilocksField>,
    virtuals: &Vec<GoldilocksField>,
    timestamp: &Vec<GoldilocksField>,
    context_first_change: &Vec<GoldilocksField>,
    segment_first_change: &Vec<GoldilocksField>,
    virtual_first_change: &Vec<GoldilocksField>,
) -> (range_check: Vec<GoldilocksField>)
    requires
        context.len() >= 1,
        segment.len() >= context.len(),
        virtuals.len() >= context.len(),
        timestamp.len() >= context.len(),
        context_first_change.len() >= context.len() - 1,
        segment_first_change.len() >= context.len() - 1,
        virtual_first_change.len() >= context.len() - 1,
    ensures
        range_check.len() == context.len(),
        forall|i: int|
            0 <= i < context.len() - 1 ==> (#[trigger] range_check@[i])@ == range_check_value(
                context@[i]@,
                segment@[i]@,
                virtuals@[i]@,
                timestamp@[i]@,
                context@[i + 1]@,
                segment@[i + 1]@,
                virtuals@[i + 1]@,
                timestamp@[i + 1]@,
                context_first_change@[i]@,
                segment_first_change@[i]@,
                virtual_first_change@[i]@,
            ),
        range_check@[context.len() - 1].0 == 0,
{
    let num_ops = context.len();
    let mut range_check: Vec<GoldilocksField> = Vec::new();

    let last = num_ops - 1;
    for idx in 0..last
        invariant
            num_ops == context.len(),
            last == num_ops - 1,
            segment.len() >= num_ops,
            virtuals.len() >= num_ops,
            timestamp.len() >= num_ops,
            context_first_change.len() >= num_ops - 1,
            segment_first_change.len() >= num_ops - 1,
            virtual_first_change.len() >= num_ops - 1,
            range_check.len() == idx,
            forall|i: int|
                0 <= i < idx ==> (#[trigger] range_check@[i])@ == range_check_value(
                    context@[i]@,
                    segment@[i]@,
                    virtuals@[i]@,
                    timestamp@[i]@,
                    context@[i + 1]@,
                    segment@[i + 1]@,
                    virtuals@[i + 1]@,
                    timestamp@[i + 1]@,
                    context_first_change@[i]@,
                    segment_first_change@[i]@,
                    virtual_first_change@[i]@,
                ),
    {
        let one = GoldilocksField::one();
        let this_address_unchanged = one - context_first_change[idx] - segment_first_change[idx]
            - virtual_first_change[idx];

        let context_term = context_first_change[idx] * (context[idx + 1] - context[idx] - one);
        let segment_term = segment_first_change[idx] * (segment[idx + 1] - segment[idx] - one);
        let virtual_term = virtual_first_change[idx] * (virtuals[idx + 1] - virtuals[idx] - one);
        let timestamp_term = this_address_unchanged * (timestamp[idx + 1] - timestamp[idx] - one);
        range_check.push(context_term + segment_term + virtual_term + timestamp_term);
    }

    range_check.push(GoldilocksField::zero());

    range_check
}

} // verus!
