//! Slot-based resource registry. Each kind of resource lives in a table of
//! nullable slots: a created object fills the lowest-numbered empty slot, so
//! ids stay stable and freed ids are reused; the table grows by appending
//! only when no empty slot exists, and refuses growth past the fixed bound.

use vstd::prelude::*;
use crate::checker::MAX_RESOURCE;

verus! {

/// `id` is the lowest-numbered empty slot of the table.
pub open spec fn is_first_free<T>(slots: Seq<Option<T>>, id: int) -> bool {
    &&& 0 <= id < slots.len()
    &&& slots[id] is None
    &&& forall|k: int| 0 <= k < id ==> slots[k] is Some
}

/// Every slot of the table is occupied.
pub open spec fn no_free_slot<T>(slots: Seq<Option<T>>) -> bool {
    forall|k: int| 0 <= k < slots.len() ==> slots[k] is Some
}

/// The id a creation will be assigned: the lowest-numbered empty slot, or
/// the table's length when every slot is occupied.
pub open spec fn first_free_id<T>(slots: Seq<Option<T>>) -> int
    decreases slots.len(),
{
    if slots.len() == 0 {
        0
    } else if slots[0] is None {
        0
    } else {
        1 + first_free_id(slots.drop_first())
    }
}

/// `first_free_id` names exactly the slot `alloc_slot` fills: the lowest
/// empty one, or the table's length when none is empty.
pub proof fn lemma_first_free_id<T>(slots: Seq<Option<T>>)
    ensures
        no_free_slot(slots) ==> first_free_id(slots) == slots.len(),
        !no_free_slot(slots) ==> is_first_free(slots, first_free_id(slots)),
    decreases slots.len(),
{
    if slots.len() == 0 {
    } else if slots[0] is None {
    } else {
        let rest = slots.drop_first();
        lemma_first_free_id(rest);
        assert(forall|k: int| 0 <= k < rest.len() ==> rest[k] == slots[k + 1]);
        if no_free_slot(rest) {
            assert forall|k: int| 0 <= k < slots.len() implies slots[k] is Some by {
                if k > 0 {
                    assert(rest[k - 1] is Some);
                }
            }
        } else {
            assert(!no_free_slot(slots)) by {
                let f = first_free_id(rest);
                assert(slots[f + 1] is None);
            }
            assert forall|k: int| 0 <= k < first_free_id(slots) implies slots[k] is Some by {
                if k > 0 {
                    assert(rest[k - 1] is Some);
                }
            }
        }
    }
}

/// Stores `obj` in the lowest empty slot, or appends a slot when the table
/// is fully occupied, and returns the id; refuses only a fully occupied
/// table that has already reached the fixed bound.
pub fn alloc_slot<T>(slots: &mut Vec<Option<T>>, obj: T) -> (r: Option<usize>)
    requires
        old(slots)@.len() <= MAX_RESOURCE,
    ensures
        final(slots)@.len() <= MAX_RESOURCE,
        r is None <==> no_free_slot(old(slots)@) && old(slots)@.len() == MAX_RESOURCE,
        r is None ==> final(slots)@ == old(slots)@,
        r matches Some(id) ==> id < MAX_RESOURCE && if is_first_free(old(slots)@, id as int) {
            final(slots)@ == old(slots)@.update(id as int, Some(obj))
        } else {
            no_free_slot(old(slots)@) && id == old(slots)@.len() && final(slots)@ == old(
                slots,
            )@.push(Some(obj))
        },
{
    let n = slots.len();
    let mut i: usize = 0;
    while i < n
        invariant
            i <= n,
            n <= MAX_RESOURCE,
            n == slots@.len(),
            slots@ == old(slots)@,
            forall|k: int| 0 <= k < i ==> slots@[k] is Some,
        decreases n - i,
    {
        if slots[i].is_none() {
            slots.set(i, Some(obj));
            return Some(i);
        }
        i += 1;
    }
    if n < MAX_RESOURCE {
        slots.push(Some(obj));
        Some(n)
    } else {
        None
    }
}

/// Empties the slot `id`, making its index available for reuse.
pub fn free_slot<T>(slots: &mut Vec<Option<T>>, id: usize)
    requires
        id < old(slots)@.len(),
    ensures
        final(slots)@ == old(slots)@.update(id as int, None::<T>),
{
    slots.set(id, None);
}

/// Reusing a freed id: emptying slot `id` of a fully occupied table makes
/// `id` exactly the slot the next creation fills, so the table does not grow.
pub proof fn lemma_slot_reuse<T>(slots: Seq<Option<T>>, id: int)
    requires
        no_free_slot(slots),
        0 <= id < slots.len(),
    ensures
        is_first_free(slots.update(id, None::<T>), id),
{
}

} // verus!
