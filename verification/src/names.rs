//! That a name leads to the task that has it.
use vstd::prelude::*;

use crate::calls::{
    cancel_named_outcome, cancel_outcome, reschedule_named_outcome, reschedule_outcome,
    sanitized, schedule_named_outcome,
};
use crate::config::Config;
use crate::hooks::{
    gathered, initialized, is_dispatched, remaining, started, turn, turns, with_call, Dispatchable,
    Progress,
};
use crate::pallet::{State, TaskOf};
use crate::privileges::may_cancel;
use crate::queue::{
    by_priority, lemma_queue_in_ranking, lemma_ranked_from_queue, lemma_ranked_push, rank, DueTask,
    FoundTaskOf,
};
use crate::types::{BlockNumber, DispatchTime, Task, TaskAddress};
use crate::weights::Weight;

verus! {

/// The names of tasks that are in the middle of being dealt with, with the addresses that the tasks
/// were taken from.
pub type Pending = Map<Seq<u8>, TaskAddress<BlockNumber>>;

/// The names are in order, but for those of tasks that are in the middle of being dealt with:
/// these lead to where the task was taken from, or nowhere. Each other name that leads somewhere
/// leads to the task that has it, and each task on an agenda that has a name has one of those and
/// is what it leads to.
pub open spec fn names_in_order_but<T: Config>(state: State<T>, pending: Pending) -> bool {
    &&& forall|id: Seq<u8>|
        #![trigger state.lookup[id]]
        state.lookup.contains_key(id) && pending.contains_key(id) ==> state.lookup[id]
            == pending[id]
    &&& forall|id: Seq<u8>|
        #![trigger state.lookup[id]]
        state.lookup.contains_key(id) && !pending.contains_key(id) ==> (state.task_at(
            state.lookup[id],
        ) matches Some(task) && task.id == Some(id))
    &&& forall|when: BlockNumber, i: int|
        0 <= i < state.slots(when).len() ==> (#[trigger] state.slots(when)[i] matches Some(task)
            ==> (task.id matches Some(id) ==> {
            &&& !pending.contains_key(id)
            &&& state.lookup.contains_key(id)
            &&& state.lookup[id].0 == when
            &&& state.lookup[id].1 == i
        }))
}

/// The names are in order: each name that leads somewhere leads to the task that has it, and each
/// task on an agenda that has a name is what that name leads to.
pub open spec fn names_in_order<T: Config>(state: State<T>) -> bool {
    names_in_order_but(state, Map::empty())
}

/// A name that is not pending leads to the task that has it.
proof fn lemma_leads<T: Config>(state: State<T>, pending: Pending, id: Seq<u8>)
    requires
        names_in_order_but(state, pending),
        state.lookup.contains_key(id),
        !pending.contains_key(id),
    ensures
        state.lookup[id].1 < state.slots(state.lookup[id].0).len(),
        state.slots(state.lookup[id].0)[state.lookup[id].1 as int] matches Some(task) && task.id
            == Some(id),
{
    assert(state.task_at(state.lookup[id]) is Some);
}

/// Where the names and the slots are the same, the names are in order likewise.
proof fn lemma_same<T: Config>(before: State<T>, after: State<T>, pending: Pending)
    requires
        names_in_order_but(before, pending),
        after.lookup == before.lookup,
        forall|when: BlockNumber| #[trigger] after.slots(when) == before.slots(when),
    ensures
        names_in_order_but(after, pending),
{
    assert forall|id: Seq<u8>|
        #![trigger after.lookup[id]]
        after.lookup.contains_key(id) && !pending.contains_key(id) implies (after.task_at(
        after.lookup[id],
    ) matches Some(task) && task.id == Some(id)) by {
        lemma_leads(before, pending, id);
    }
    assert forall|when: BlockNumber, i: int| 0 <= i < after.slots(when).len() implies (
    #[trigger] after.slots(when)[i] matches Some(task) ==> (task.id matches Some(id) ==> {
        &&& !pending.contains_key(id)
        &&& after.lookup.contains_key(id)
        &&& after.lookup[id].0 == when
        &&& after.lookup[id].1 == i
    })) by {
        assert(before.slots(when)[i] == after.slots(when)[i]);
    }
}

/// A task without a name goes on an agenda.
proof fn lemma_append_anonymous<T: Config>(
    state: State<T>,
    pending: Pending,
    at: BlockNumber,
    task: TaskOf<T>,
)
    requires
        names_in_order_but(state, pending),
        task.id is None,
    ensures
        names_in_order_but(state.appended(at, task), pending),
{
    let after = state.appended(at, task);
    assert forall|id: Seq<u8>|
        #![trigger after.lookup[id]]
        after.lookup.contains_key(id) && !pending.contains_key(id) implies (after.task_at(
        after.lookup[id],
    ) matches Some(task) && task.id == Some(id)) by {
        lemma_leads(state, pending, id);
    }
    assert forall|when: BlockNumber, i: int| 0 <= i < after.slots(when).len() implies (
    #[trigger] after.slots(when)[i] matches Some(task) ==> (task.id matches Some(id) ==> {
        &&& !pending.contains_key(id)
        &&& after.lookup.contains_key(id)
        &&& after.lookup[id].0 == when
        &&& after.lookup[id].1 == i
    })) by {
        if when != at || i < state.slots(at).len() {
            assert(state.slots(when)[i] == after.slots(when)[i]);
        }
    }
}

/// A task with a name that leads nowhere, or that is pending, goes on an agenda, and the name is
/// made to lead there.
proof fn lemma_append_named<T: Config>(
    state: State<T>,
    pending: Pending,
    at: BlockNumber,
    task: TaskOf<T>,
    id: Seq<u8>,
)
    requires
        names_in_order_but(state, pending),
        task.id == Some(id),
        pending.contains_key(id) || !state.lookup.contains_key(id),
        state.slots(at).len() <= u32::MAX,
    ensures
        names_in_order_but(
            state.with_name(id, state.next_address(at)).appended(at, task),
            pending.remove(id),
        ),
{
    let after = state.with_name(id, state.next_address(at)).appended(at, task);
    assert forall|other: Seq<u8>|
        #![trigger after.lookup[other]]
        after.lookup.contains_key(other) && !pending.remove(id).contains_key(other) implies (
    after.task_at(after.lookup[other]) matches Some(task) && task.id == Some(other)) by {
        if other != id {
            lemma_leads(state, pending, other);
        }
    }
    assert forall|when: BlockNumber, i: int| 0 <= i < after.slots(when).len() implies (
    #[trigger] after.slots(when)[i] matches Some(task) ==> (task.id matches Some(other) ==> {
        &&& !pending.remove(id).contains_key(other)
        &&& after.lookup.contains_key(other)
        &&& after.lookup[other].0 == when
        &&& after.lookup[other].1 == i
    })) by {
        if when != at || i < state.slots(at).len() {
            assert(state.slots(when)[i] == after.slots(when)[i]);
        }
    }
}

/// A task leaves its slot, and its name leads nowhere any more.
proof fn lemma_remove<T: Config>(
    state: State<T>,
    pending: Pending,
    address: TaskAddress<BlockNumber>,
    task: TaskOf<T>,
)
    requires
        names_in_order_but(state, pending),
        state.task_at(address) == Some(task),
    ensures
        names_in_order_but(state.emptied(address).without_name(task.id), pending),
{
    let after = state.emptied(address).without_name(task.id);
    assert(state.slots(address.0)[address.1 as int] == Some(task));
    assert forall|id: Seq<u8>|
        #![trigger after.lookup[id]]
        after.lookup.contains_key(id) && !pending.contains_key(id) implies (after.task_at(
        after.lookup[id],
    ) matches Some(task) && task.id == Some(id)) by {
        lemma_leads(state, pending, id);
    }
    assert forall|when: BlockNumber, i: int| 0 <= i < after.slots(when).len() implies (
    #[trigger] after.slots(when)[i] matches Some(left) ==> (left.id matches Some(id) ==> {
        &&& !pending.contains_key(id)
        &&& after.lookup.contains_key(id)
        &&& after.lookup[id].0 == when
        &&& after.lookup[id].1 == i
    })) by {
        if when != address.0 || i != address.1 {
            assert(state.slots(when)[i] == after.slots(when)[i]);
        }
    }
}

/// The names of a scheduler of which nothing was ever stored are in order.
pub proof fn law_blank_names_are_in_order<T: Config>()
    ensures
        names_in_order(State::<T>::blank()),
{
}

/// To schedule a task, with or without a name, keeps the names in order.
pub proof fn law_schedule_keeps_names_in_order<T: Config>(
    runtime: T,
    state: State<T>,
    when: DispatchTime<BlockNumber>,
    task: TaskOf<T>,
)
    requires
        names_in_order(state),
        state.has_room(runtime.now(), when),
    ensures
        names_in_order(schedule_named_outcome(runtime, state, when, task).state),
{
    let outcome = schedule_named_outcome(runtime, state, when, task);
    if let Ok(address) = outcome.result {
        let at = address.0;
        let placed = Task { periodic: sanitized(task.periodic), ..task };
        let none = Pending::empty();
        match task.id {
            Some(id) => {
                lemma_append_named(state, none, at, placed, id);
                assert(none.remove(id) =~= none);
                lemma_same(
                    state.with_name(id, state.next_address(at)).appended(at, placed),
                    outcome.state,
                    none,
                );
            },
            None => {
                lemma_append_anonymous(state, none, at, placed);
                lemma_same(state.appended(at, placed), outcome.state, none);
            },
        }
    }
}

/// To cancel a task keeps the names in order.
pub proof fn law_cancel_keeps_names_in_order<T: Config>(
    runtime: T,
    state: State<T>,
    origin: Option<T::PalletsOrigin>,
    address: TaskAddress<BlockNumber>,
    id: Seq<u8>,
)
    requires
        names_in_order(state),
    ensures
        names_in_order(cancel_outcome(runtime, state, origin, address).state),
        names_in_order(cancel_named_outcome(runtime, state, origin, id).state),
{
    let none = Pending::empty();
    let after = cancel_outcome(runtime, state, origin, address).state;
    match state.task_at(address) {
        Some(task) => if may_cancel(runtime, origin, task.origin) {
            lemma_remove(state, none, address, task);
            lemma_same(state.emptied(address).without_name(task.id), after, none);
        },
        None => lemma_same(state, after, none),
    }
    if state.lookup.contains_key(id) {
        lemma_leads(state, none, id);
        let task = state.task_at(state.lookup[id])->0;
        let after = cancel_named_outcome(runtime, state, origin, id).state;
        if may_cancel(runtime, origin, task.origin) {
            lemma_remove(state, none, state.lookup[id], task);
            lemma_same(state.emptied(state.lookup[id]).without_name(task.id), after, none);
        }
    }
}

/// To move a task, by its address or by its name, keeps the names in order.
pub proof fn law_reschedule_keeps_names_in_order<T: Config>(
    runtime: T,
    state: State<T>,
    address: TaskAddress<BlockNumber>,
    id: Seq<u8>,
    when: DispatchTime<BlockNumber>,
)
    requires
        names_in_order(state),
        state.has_room(runtime.now(), when),
    ensures
        names_in_order(reschedule_outcome(runtime, state, address, when).state),
        names_in_order(reschedule_named_outcome(runtime, state, id, when).state),
{
    let none = Pending::empty();
    lemma_move_keeps_names(runtime, state, address, when);
    if state.lookup.contains_key(id) {
        lemma_leads(state, none, id);
        let moved = reschedule_outcome(runtime, state, state.lookup[id], when).state;
        let renamed = reschedule_named_outcome(runtime, state, id, when).state;
        lemma_move_keeps_names(runtime, state, state.lookup[id], when);
        assert(renamed.lookup =~= moved.lookup);
        lemma_same(moved, renamed, none);
    }
}

/// To move a task by its address keeps the names in order.
proof fn lemma_move_keeps_names<T: Config>(
    runtime: T,
    state: State<T>,
    address: TaskAddress<BlockNumber>,
    when: DispatchTime<BlockNumber>,
)
    requires
        names_in_order(state),
        state.has_room(runtime.now(), when),
    ensures
        names_in_order(reschedule_outcome(runtime, state, address, when).state),
{
    let none = Pending::empty();
    let moved = reschedule_outcome(runtime, state, address, when);
    if moved.result is Ok {
        let task = state.task_at(address)->0;
        let at = moved.result->Ok_0.0;
        let removed = state.emptied(address).without_name(task.id);
        lemma_remove(state, none, address, task);
        match task.id {
            Some(id) => {
                lemma_append_named(removed, none, at, task, id);
                assert(none.remove(id) =~= none);
                let placed = removed.with_name(id, removed.next_address(at)).appended(at, task);
                assert(placed.lookup =~= moved.state.lookup);
                lemma_same(placed, moved.state, none);
            },
            None => {
                lemma_append_anonymous(removed, none, at, task);
                lemma_same(removed.appended(at, task), moved.state, none);
            },
        }
    }
}

/// A pending name, where there is one, leads nowhere any more.
proof fn lemma_forget<T: Config>(
    state: State<T>,
    pending: Pending,
    left: Pending,
    name: Option<Seq<u8>>,
)
    requires
        names_in_order_but(state, pending),
        match name {
            Some(id) => pending.contains_key(id) && left == pending.remove(id),
            None => left == pending,
        },
    ensures
        names_in_order_but(state.without_name(name), left),
{
    let after = state.without_name(name);
    assert forall|other: Seq<u8>|
        #![trigger after.lookup[other]]
        after.lookup.contains_key(other) && !left.contains_key(other) implies (after.task_at(
        after.lookup[other],
    ) matches Some(task) && task.id == Some(other)) by {
        lemma_leads(state, pending, other);
    }
    assert forall|when: BlockNumber, i: int| 0 <= i < after.slots(when).len() implies (
    #[trigger] after.slots(when)[i] matches Some(task) ==> (task.id matches Some(other) ==> {
        &&& !left.contains_key(other)
        &&& after.lookup.contains_key(other)
        &&& after.lookup[other].0 == when
        &&& after.lookup[other].1 == i
    })) by {
        assert(state.slots(when)[i] == after.slots(when)[i]);
    }
}

/// The task at `i` has the name.
pub open spec fn has_name<T: Config>(queue: Seq<DueTask<T>>, i: int, id: Seq<u8>) -> bool {
    0 <= i < queue.len() && queue[i].1.id == Some(id)
}

/// The names of the tasks in a queue, with the addresses that the tasks were taken from.
pub open spec fn names_of<T: Config>(queue: Seq<DueTask<T>>, now: BlockNumber) -> Pending {
    Map::new(
        |id: Seq<u8>| exists|i: int| has_name::<T>(queue, i, id),
        |id: Seq<u8>| (now, queue[choose|i: int| has_name::<T>(queue, i, id)].0),
    )
}

/// No two tasks of a queue have the same name.
spec fn names_differ<T: Config>(queue: Seq<DueTask<T>>) -> bool {
    forall|i: int, j: int, id: Seq<u8>|
        has_name::<T>(queue, i, id) && has_name::<T>(queue, j, id) ==> i == j
}

/// Where names differ, a name in the queue comes with the address of its task.
proof fn lemma_name_of<T: Config>(queue: Seq<DueTask<T>>, now: BlockNumber, i: int, id: Seq<u8>)
    requires
        names_differ::<T>(queue),
        has_name::<T>(queue, i, id),
    ensures
        names_of::<T>(queue, now).contains_pair(id, (now, queue[i].0)),
{
    let j = choose|j: int| has_name::<T>(queue, j, id);
    assert(has_name::<T>(queue, j, id));
}

/// The ranking has the names that the queue has, and they differ where they did.
proof fn lemma_ranked_names<T: Config>(queue: Seq<DueTask<T>>)
    requires
        names_differ::<T>(queue),
    ensures
        names_differ::<T>(by_priority::<T>(queue)),
    decreases queue.len(),
{
    if queue.len() == 0 {
        if by_priority::<T>(queue).len() > 0 {
            lemma_ranked_from_queue::<T>(queue, 256, 0);
        }
    } else {
        let rest = queue.drop_last();
        let due = queue.last();
        assert forall|i: int, j: int, id: Seq<u8>|
            has_name::<T>(rest, i, id) && has_name::<T>(rest, j, id) implies i == j by {
            assert(has_name::<T>(queue, i, id));
            assert(has_name::<T>(queue, j, id));
        }
        lemma_ranked_names::<T>(rest);
        lemma_ranked_push::<T>(rest, due, 256);
        assert(rest.push(due) =~= queue);
        let at = rank::<T>(rest, due.1.priority) as int;
        let before = by_priority::<T>(rest);
        let after = by_priority::<T>(queue);
        assert(after == before.insert(at, due));
        assert forall|i: int, id: Seq<u8>| #[trigger] has_name::<T>(before, i, id) implies due.1.id
            != Some(id) by {
            lemma_ranked_from_queue::<T>(rest, 256, i);
            let k = choose|k: int| 0 <= k < rest.len() && rest[k] == before[i];
            assert(has_name::<T>(queue, k, id));
            if due.1.id == Some(id) {
                assert(has_name::<T>(queue, queue.len() - 1, id));
            }
        }
        assert forall|i: int, j: int, id: Seq<u8>|
            has_name::<T>(after, i, id) && has_name::<T>(after, j, id) implies i == j by {
            let i2 = if i < at { i } else { i - 1 };
            let j2 = if j < at { j } else { j - 1 };
            if i != at {
                assert(has_name::<T>(before, i2, id));
            }
            if j != at {
                assert(has_name::<T>(before, j2, id));
            }
        }
    }
}

/// Where each named task in the slots is what its name leads to, the gathered tasks have
/// different names, of which each leads to a slot that was gathered, and none is left out.
proof fn lemma_gathered_names<T: Config>(
    runtime: T,
    slots: Seq<Option<TaskOf<T>>>,
    lookup: Map<Seq<u8>, TaskAddress<BlockNumber>>,
)
    requires
        forall|i: int|
            0 <= i < slots.len() ==> (#[trigger] slots[i] matches Some(task) ==> (
            task.id matches Some(id) ==> lookup[id].1 == i)),
    ensures
        names_differ::<T>(gathered(runtime, slots).queue),
        forall|k: int, id: Seq<u8>| #[trigger]
            has_name::<T>(gathered(runtime, slots).queue, k, id) ==> {
                &&& gathered(runtime, slots).queue[k].0 == lookup[id].1
                &&& lookup[id].1 < slots.len()
                &&& slots[lookup[id].1 as int] matches Some(task) && task.id == Some(id)
            },
        forall|i: int|
            0 <= i < slots.len() ==> (#[trigger] slots[i] matches Some(task) ==> (
            task.id matches Some(id) ==> exists|k: int|
                has_name::<T>(gathered(runtime, slots).queue, k, id))),
    decreases slots.len(),
{
    if slots.len() > 0 {
        let rest = slots.drop_last();
        assert forall|i: int| 0 <= i < rest.len() implies (#[trigger] rest[i] matches Some(task)
            ==> (task.id matches Some(id) ==> lookup[id].1 == i)) by {
            assert(rest[i] == slots[i]);
        }
        lemma_gathered_names(runtime, rest, lookup);
        let before = gathered(runtime, rest).queue;
        let after = gathered(runtime, slots).queue;
        let last = slots.len() - 1;
        assert(slots.last() == slots[last]);
        if let Some(task) = slots[last] {
            assert(after.drop_last() =~= before);
            assert(after.last().1.id == task.id);
            assert forall|k: int, id: Seq<u8>| #[trigger] has_name::<T>(after, k, id) implies {
                &&& after[k].0 == lookup[id].1
                &&& lookup[id].1 < slots.len()
                &&& slots[lookup[id].1 as int] matches Some(task) && task.id == Some(id)
            } by {
                if k < before.len() {
                    assert(has_name::<T>(before, k, id));
                    assert(rest[lookup[id].1 as int] == slots[lookup[id].1 as int]);
                }
            }
            assert forall|i: int, j: int, id: Seq<u8>|
                has_name::<T>(after, i, id) && has_name::<T>(after, j, id) implies i == j by {
                if i < before.len() {
                    assert(has_name::<T>(before, i, id));
                }
                if j < before.len() {
                    assert(has_name::<T>(before, j, id));
                }
            }
        } else {
            assert(after == before);
            assert forall|k: int, id: Seq<u8>| #[trigger] has_name::<T>(after, k, id) implies {
                &&& after[k].0 == lookup[id].1
                &&& lookup[id].1 < slots.len()
                &&& slots[lookup[id].1 as int] matches Some(task) && task.id == Some(id)
            } by {
                assert(has_name::<T>(before, k, id));
                assert(rest[lookup[id].1 as int] == slots[lookup[id].1 as int]);
            }
        }
        assert forall|i: int| 0 <= i < slots.len() implies (#[trigger] slots[i] matches Some(task)
            ==> (task.id matches Some(id) ==> exists|k: int| has_name::<T>(after, k, id))) by {
            if let Some(task) = slots[i] {
                if let Some(id) = task.id {
                    if i < last {
                        assert(rest[i] == slots[i]);
                        let k = choose|k: int| has_name::<T>(before, k, id);
                        assert(has_name::<T>(before, k, id));
                        assert(has_name::<T>(after, k, id));
                    } else {
                        assert(has_name::<T>(after, after.len() - 1, id));
                    }
                }
            }
        }
    }
}

/// The calls that are dispatched in the turns of a queue keep the names in order, those of the
/// tasks whose turn has not ended being pending.
pub open spec fn calls_keep_names_in_order<T: Dispatchable>(
    start: Progress<T>,
    now: BlockNumber,
    limit: Weight,
    queue: Seq<DueTask<T>>,
) -> bool {
    forall|k: int|
        0 <= k < queue.len() ==> {
            let before = turns(start, now, limit, queue.take(k));
            let task = (#[trigger] queue[k]).1;
            let pending = names_of::<T>(queue.skip(k), now);
            is_dispatched(before, limit, k as nat, task) && names_in_order_but(
                before.state,
                pending,
            ) ==> names_in_order_but(
                before.runtime.dispatched(before.state, task.origin, task.call->Ok_0).1,
                pending,
            )
        }
}

/// In its turn a task with a name finds room on the agenda that it is put on: an index tells the
/// slots of an agenda apart. And where it is put off, its name was not canceled meanwhile.
pub open spec fn keeps_its_name<T: Dispatchable>(
    before: Progress<T>,
    now: BlockNumber,
    limit: Weight,
    order: nat,
    task: FoundTaskOf<T>,
) -> bool {
    task.id is Some && task.call is Ok ==> if is_dispatched(before, limit, order, task) {
        task.periodic matches Some((period, _)) ==> before.runtime.dispatched(
            before.state,
            task.origin,
            task.call->Ok_0,
        ).1.slots((now + period) as BlockNumber).len() <= u32::MAX
    } else {
        &&& before.state.slots((now + 1) as BlockNumber).len() <= u32::MAX
        &&& before.state.lookup.contains_key(task.id->0)
    }
}

/// In the turns of a queue every task with a name that is put on an agenda keeps its name.
pub open spec fn all_keep_their_names<T: Dispatchable>(
    start: Progress<T>,
    now: BlockNumber,
    limit: Weight,
    queue: Seq<DueTask<T>>,
) -> bool
    decreases queue.len(),
{
    queue.len() > 0 ==> {
        &&& all_keep_their_names(start, now, limit, queue.drop_last())
        &&& keeps_its_name(
            turns(start, now, limit, queue.drop_last()),
            now,
            limit,
            (queue.len() - 1) as nat,
            queue.last().1,
        )
    }
}

/// One turn of a task whose name, if it has one, is pending takes the name off those.
proof fn lemma_turn_names<T: Dispatchable>(
    before: Progress<T>,
    now: BlockNumber,
    limit: Weight,
    order: nat,
    due: DueTask<T>,
    pending: Pending,
    left: Pending,
)
    requires
        names_in_order_but(before.state, pending),
        is_dispatched(before, limit, order, due.1) ==> names_in_order_but(
            before.runtime.dispatched(before.state, due.1.origin, due.1.call->Ok_0).1,
            pending,
        ),
        keeps_its_name(before, now, limit, order, due.1),
        match due.1.id {
            Some(id) => pending.contains_pair(id, (now, due.0)) && left == pending.remove(id),
            None => left == pending,
        },
    ensures
        names_in_order_but(turn(before, now, limit, order, due).state, left),
{
    let (index, task) = due;
    let after = turn(before, now, limit, order, due).state;
    match task.call {
        Ok(call) => if is_dispatched(before, limit, order, task) {
            let state = before.runtime.dispatched(before.state, task.origin, call).1;
            match task.periodic {
                Some((period, _)) => {
                    let next = (now + period) as BlockNumber;
                    let again = Task {
                        periodic: remaining(task.periodic),
                        ..with_call::<T>(task, call)
                    };
                    match task.id {
                        Some(id) => {
                            lemma_append_named(state, pending, next, again, id);
                            lemma_same(
                                state.with_name(id, state.next_address(next)).appended(next, again),
                                after,
                                left,
                            );
                        },
                        None => {
                            lemma_append_anonymous(state, pending, next, again);
                            lemma_same(state.appended(next, again), after, left);
                        },
                    }
                },
                None => {
                    lemma_forget(state, pending, left, task.id);
                    lemma_same(state.without_name(task.id), after, left);
                },
            }
        } else {
            let next = (now + 1) as BlockNumber;
            let kept = with_call::<T>(task, call);
            match task.id {
                Some(id) => {
                    assert(before.state.lookup[id] == pending[id]);
                    lemma_append_named(before.state, pending, next, kept, id);
                },
                None => lemma_append_anonymous(before.state, pending, next, kept),
            }
        },
        Err(_) => {
            let freed = before.state.without_name(task.id);
            lemma_forget(before.state, pending, left, task.id);
            if let Some(id) = task.id {
                if before.state.lookup.contains_key(id) {
                    assert(before.state.lookup[id] == pending[id]);
                }
                assert(after.lookup =~= freed.lookup);
            }
            lemma_same(freed, after, left);
        },
    }
}

/// After the turns of the first tasks of a queue only the names of the others are pending.
proof fn lemma_turns_names<T: Dispatchable>(
    start: Progress<T>,
    now: BlockNumber,
    limit: Weight,
    queue: Seq<DueTask<T>>,
    done: nat,
)
    requires
        calls_keep_names_in_order(start, now, limit, queue),
        names_differ::<T>(queue),
        names_in_order_but(start.state, names_of::<T>(queue, now)),
        done <= queue.len(),
        all_keep_their_names(start, now, limit, queue.take(done as int)),
    ensures
        names_in_order_but(
            turns(start, now, limit, queue.take(done as int)).state,
            names_of::<T>(queue.skip(done as int), now),
        ),
    decreases done,
{
    if done == 0 {
        assert(queue.skip(0) =~= queue);
        assert(queue.take(0).len() == 0);
    } else {
        let k = done - 1;
        let due = queue[k];
        assert(queue.take(done as int).drop_last() =~= queue.take(k));
        assert(queue.take(done as int).last() == due);
        lemma_turns_names(start, now, limit, queue, k as nat);
        lemma_names_left::<T>(queue, now, k);
        let before = turns(start, now, limit, queue.take(k));
        let pending = names_of::<T>(queue.skip(k), now);
        let left = names_of::<T>(queue.skip(done as int), now);
        lemma_turn_names(before, now, limit, k as nat, due, pending, left);
    }
}

/// The names of the tasks from one on are its own, if it has one, and those of the tasks after it.
proof fn lemma_names_left<T: Config>(queue: Seq<DueTask<T>>, now: BlockNumber, k: int)
    requires
        names_differ::<T>(queue),
        0 <= k < queue.len(),
    ensures
        ({
            let pending = names_of::<T>(queue.skip(k), now);
            let left = names_of::<T>(queue.skip(k + 1), now);
            match queue[k].1.id {
                Some(id) => {
                    &&& pending.contains_pair(id, (now, queue[k].0))
                    &&& left == pending.remove(id)
                },
                None => left == pending,
            }
        }),
{
    let from = queue.skip(k);
    let after = queue.skip(k + 1);
    let pending = names_of::<T>(from, now);
    let left = names_of::<T>(after, now);
    let own = queue[k].1.id;
    lemma_names_differ_skip::<T>(queue, k);
    lemma_names_differ_skip::<T>(queue, k + 1);
    if let Some(id) = own {
        assert(has_name::<T>(from, 0, id));
        lemma_name_of::<T>(from, now, 0, id);
    }
    assert forall|other: Seq<u8>| #[trigger] left.contains_key(other) implies own != Some(other)
        && pending.contains_pair(other, left[other]) by {
        let i = choose|i: int| has_name::<T>(after, i, other);
        assert(has_name::<T>(after, i, other));
        assert(has_name::<T>(from, i + 1, other));
        lemma_name_of::<T>(after, now, i, other);
        lemma_name_of::<T>(from, now, i + 1, other);
        assert(after[i] == from[i + 1]);
        if own == Some(other) {
            assert(has_name::<T>(from, 0, other));
        }
    }
    assert forall|other: Seq<u8>| #[trigger]
        pending.contains_key(other) && own != Some(other) implies left.contains_key(other) by {
        let i = choose|i: int| has_name::<T>(from, i, other);
        assert(has_name::<T>(from, i, other));
        assert(has_name::<T>(after, i - 1, other));
    }
    match own {
        Some(id) => assert(left =~= pending.remove(id)),
        None => assert(left =~= pending),
    }
}

/// The names of the tasks from one on differ where all do.
proof fn lemma_names_differ_skip<T: Config>(queue: Seq<DueTask<T>>, k: int)
    requires
        names_differ::<T>(queue),
        0 <= k <= queue.len(),
    ensures
        names_differ::<T>(queue.skip(k)),
{
    assert forall|i: int, j: int, id: Seq<u8>|
        has_name::<T>(queue.skip(k), i, id) && has_name::<T>(queue.skip(k), j, id) implies i
        == j by {
        assert(has_name::<T>(queue, k + i, id));
        assert(has_name::<T>(queue, k + j, id));
    }
}

/// The start of a block keeps the names in order, where the calls that it dispatches do: the name
/// of a task that is put off leads to where the task is put.
pub proof fn law_block_start_keeps_names_in_order<T: Dispatchable>(
    runtime: T,
    state: State<T>,
    now: BlockNumber,
)
    requires
        names_in_order(state),
        calls_keep_names_in_order(
            started(runtime, state, now),
            now,
            runtime.weight_limit(),
            by_priority::<T>(gathered(runtime, state.slots(now)).queue),
        ),
        all_keep_their_names(
            started(runtime, state, now),
            now,
            runtime.weight_limit(),
            by_priority::<T>(gathered(runtime, state.slots(now)).queue),
        ),
    ensures
        names_in_order(initialized(runtime, state, now).state),
{
    let none = Pending::empty();
    let slots = state.slots(now);
    let queue = gathered(runtime, slots).queue;
    let ranking = by_priority::<T>(queue);
    let pending = names_of::<T>(ranking, now);
    let start = started(runtime, state, now);
    lemma_gathered_names(runtime, slots, state.lookup);
    lemma_ranked_names::<T>(queue);
    assert forall|id: Seq<u8>| #[trigger] pending.contains_key(id) implies {
        &&& state.lookup.contains_key(id)
        &&& state.lookup[id] == pending[id]
        &&& state.lookup[id].0 == now
    } by {
        let i = choose|i: int| has_name::<T>(ranking, i, id);
        assert(has_name::<T>(ranking, i, id));
        lemma_name_of::<T>(ranking, now, i, id);
        lemma_ranked_from_queue::<T>(queue, 256, i);
        let k = choose|k: int| 0 <= k < queue.len() && queue[k] == ranking[i];
        assert(has_name::<T>(queue, k, id));
        assert(slots[state.lookup[id].1 as int] is Some);
    }
    assert forall|id: Seq<u8>|
        #![trigger start.state.lookup[id]]
        start.state.lookup.contains_key(id) && !pending.contains_key(id) implies (
    start.state.task_at(start.state.lookup[id]) matches Some(task) && task.id == Some(id)) by {
        lemma_leads(state, none, id);
        if state.lookup[id].0 == now {
            assert(slots[state.lookup[id].1 as int] is Some);
            let k = choose|k: int| has_name::<T>(queue, k, id);
            assert(has_name::<T>(queue, k, id));
            lemma_queue_in_ranking::<T>(queue, 256, k);
            let i = choose|i: int| 0 <= i < ranking.len() && ranking[i] == queue[k];
            assert(has_name::<T>(ranking, i, id));
        }
    }
    assert forall|when: BlockNumber, i: int| 0 <= i < start.state.slots(when).len() implies (
    #[trigger] start.state.slots(when)[i] matches Some(task) ==> (task.id matches Some(id) ==> {
        &&& !pending.contains_key(id)
        &&& start.state.lookup.contains_key(id)
        &&& start.state.lookup[id].0 == when
        &&& start.state.lookup[id].1 == i
    })) by {
        assert(when != now);
        assert(state.slots(when)[i] == start.state.slots(when)[i]);
    }
    assert(ranking.take(ranking.len() as int) =~= ranking);
    lemma_turns_names(start, now, runtime.weight_limit(), ranking, ranking.len());
    assert(names_of::<T>(ranking.skip(ranking.len() as int), now) =~= none);
}

} // verus!
