//! Work items and the source that produces a batch of them.

use vstd::prelude::*;

verus! {

/// One unit of the batch: an identifier and the number of steps its work is split into.
#[derive(Clone, Copy, Debug, PartialEq, Eq)]
pub struct WorkItem {
    pub id: u128,
    pub total_steps: u64,
}

/// A 128-bit value laid out as a random (version 4, RFC 4122 variant) UUID.
pub open spec fn is_random_uuid(x: u128) -> bool {
    (x >> 76u128) & 0xfu128 == 4u128 && (x >> 62u128) & 0x3u128 == 2u128
}

/// Relies on uuid::Uuid::new_v4 and Uuid::as_u128: a fresh random identifier whose
/// version nibble is 4 and whose variant bits are `10`.
#[verifier::external_body]
fn fresh_uuid() -> (r: u128)
    ensures
        is_random_uuid(r),
{
    uuid::Uuid::new_v4().as_u128()
}

/// Produces `item_count` work items, each split into `steps_per_item` steps and
/// carrying a fresh random identifier.
pub fn make_batch(item_count: usize, steps_per_item: u64) -> (r: Vec<WorkItem>)
    ensures
        r@.len() == item_count,
        forall|i: int|
            0 <= i < r@.len() ==> (#[trigger] r@[i]).total_steps == steps_per_item
                && is_random_uuid(r@[i].id),
{
    let mut r: Vec<WorkItem> = Vec::new();
    let mut k: usize = 0;
    while k < item_count
        invariant
            k <= item_count,
            r@.len() == k,
            forall|i: int|
                0 <= i < r@.len() ==> (#[trigger] r@[i]).total_steps == steps_per_item
                    && is_random_uuid(r@[i].id),
        decreases item_count - k,
    {
        let id = fresh_uuid();
        r.push(WorkItem { id, total_steps: steps_per_item });
        k = k + 1;
    }
    r
}

} // verus!
