//! What the views of the scheduler's state show.
use vstd::prelude::*;

use crate::config::Config;
use crate::pallet::{Pallet, State};
use crate::queue::{queue_view, Due};
use crate::storage::{StorageKey, StorageMap};
use crate::types::{BlockNumber, Event, EventView, ScheduledV3, TaskAddress};

verus! {

/// A block with an agenda has the slots of it, and a block without one has none; and at an address
/// is what its slot holds.
pub proof fn law_slots_are_those_of_the_agenda<T: Config>(
    state: State<T>,
    address: TaskAddress<BlockNumber>,
)
    ensures
        state.agenda.contains_key(address.0) ==> state.slots(address.0) == state.agenda[address.0],
        !state.agenda.contains_key(address.0) ==> state.slots(address.0).len() == 0,
        address.1 < state.slots(address.0).len() ==> state.task_at(address) == state.slots(
            address.0,
        )[address.1 as int],
        address.1 >= state.slots(address.0).len() ==> state.task_at(address) is None,
{
}

/// The view of a task leaves nothing out, and neither does the name of a task in it.
pub proof fn law_task_view<Call, PalletsOrigin, AccountId>(
    task: ScheduledV3<Call, BlockNumber, PalletsOrigin, AccountId>,
)
    ensures
        match (task@.id, task.maybe_id) {
            (Some(id), Some(bytes)) => id == bytes@,
            (None, None) => true,
            _ => false,
        },
        task@.priority == task.priority,
        task@.call == task.call,
        task@.periodic == task.maybe_periodic,
        task@.origin == task.origin,
{
}

/// The view of an event says what the event says.
pub proof fn law_event_view(event: Event)
    ensures
        match event {
            Event::Scheduled(when, index) => event@ == EventView::Scheduled(when, index),
            Event::Canceled(when, index) => event@ == EventView::Canceled(when, index),
            Event::Dispatched(task, Some(id), result) => event@ == EventView::Dispatched(
                task,
                Some(id@),
                result,
            ),
            Event::Dispatched(task, None, result) => event@ == EventView::Dispatched(
                task,
                None,
                result,
            ),
            Event::CallLookupFailed(task, Some(id), reason) => event@
                == EventView::CallLookupFailed(task, Some(id@), reason),
            Event::CallLookupFailed(task, None, reason) => event@ == EventView::CallLookupFailed(
                task,
                None,
                reason,
            ),
        },
{
}

/// The view of the scheduler shows each slot of each agenda, each name, the version and each event,
/// and no others.
pub proof fn law_pallet_view<T: Config>(pallet: Pallet<T>, when: BlockNumber, i: int)
    ensures
        pallet@.agenda.contains_key(when) <==> pallet.agenda@.contains_key(when),
        pallet@.agenda.contains_key(when) ==> pallet@.agenda[when].len()
            == pallet.agenda@[when]@.len(),
        pallet@.agenda.contains_key(when) && 0 <= i < pallet@.agenda[when].len() ==> match (
            pallet@.agenda[when][i],
            pallet.agenda@[when]@[i],
        ) {
            (Some(shown), Some(task)) => shown == task@,
            (None, None) => true,
            _ => false,
        },
        pallet@.lookup == pallet.lookup@,
        pallet@.version == pallet.storage_version,
        pallet@.events.len() == pallet.events@.len(),
        0 <= i < pallet@.events.len() ==> pallet@.events[i] == pallet.events@[i]@,
{
}

/// The view of a queue shows each due task with its index, in their order.
pub proof fn law_queue_view<T: Config>(queue: Seq<Due<T>>, i: int)
    ensures
        queue_view::<T>(queue).len() == queue.len(),
        0 <= i < queue.len() ==> queue_view::<T>(queue)[i] == (queue[i].0, queue[i].1@),
{
}

/// A map gives back under a key what was put there last, and whatever it held under any other key.
pub proof fn law_map_gives_back_what_was_put<K: StorageKey, V>(
    map: &mut StorageMap<K, V>,
    key: K,
    value: V,
    done: (),
    asked: K,
    answer: Option<&V>,
    earlier: Option<&V>,
)
    requires
        call_ensures(StorageMap::<K, V>::insert, (map, key, value), done),
        call_ensures(StorageMap::<K, V>::get, (&*final(map), &asked), answer),
        call_ensures(StorageMap::<K, V>::get, (&*old(map), &asked), earlier),
    ensures
        answer == (if asked@ == key@ {
            Some(&value)
        } else {
            earlier
        }),
{
}

/// What was taken out of a map is what it held, and it holds it no more, but whatever it held under
/// any other key.
pub proof fn law_map_gives_up_what_was_taken<K: StorageKey, V>(
    map: &mut StorageMap<K, V>,
    key: K,
    taken: Option<V>,
    asked: K,
    answer: Option<&V>,
    earlier: Option<&V>,
)
    requires
        call_ensures(StorageMap::<K, V>::take, (map, &key), taken),
        call_ensures(StorageMap::<K, V>::get, (&*final(map), &asked), answer),
        call_ensures(StorageMap::<K, V>::get, (&*old(map), &asked), earlier),
    ensures
        asked@ == key@ ==> answer is None && match (taken, earlier) {
            (Some(value), Some(held)) => value == *held,
            (None, None) => true,
            _ => false,
        },
        asked@ != key@ ==> answer == earlier,
{
}

} // verus!
