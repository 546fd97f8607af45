//! What the start of a block comes to, task by task.
use vstd::prelude::*;

use crate::config::Config;
use crate::hooks::{
    gathered, is_dispatched, kth_turn_fits, remaining, started, stopped_at,
    times_fit, turn, turns, Dispatchable, Gathered, Progress,
};
use crate::pallet::{Pallet, ScheduledOf, State, TaskOf};
use crate::queue::{
    by_priority, law_turns_go_by_priority, lemma_ranked_from_queue, of_priority, queue_view,
    sort_by_priority, Due, DueTask, FoundTaskOf,
};
use crate::types::{
    BlockNumber, CallResult, EventView, LookupError, MaybeHashed, Priority, Task,
    HARD_DEADLINE,
};
use crate::weights::Weight;

verus! {

/// An empty agenda is gathered with one read and two writes.
pub proof fn law_no_task_is_gathered<T: Config>(runtime: T)
    ensures
        ({
            let due = gathered(runtime, Seq::empty());
            let db = runtime.db();
            let weight = db.read + 2 * db.write;
            &&& due.runtime == runtime
            &&& due.queue == Seq::<DueTask<T>>::empty()
            &&& due.weight == (if weight > Weight::MAX {
                Weight::MAX as int
            } else {
                weight
            })
        }),
{
}

/// An empty slot adds nothing to what is gathered.
pub proof fn law_empty_slots_are_passed_over<T: Config>(
    runtime: T,
    slots: Seq<Option<TaskOf<T>>>,
)
    ensures
        gathered(runtime, slots.push(None)) == gathered(runtime, slots),
{
    assert(slots.push(None).drop_last() =~= slots);
}

/// A task with its call is gathered behind the others, with the index of its slot, and with its
/// call and all else as it was.
pub proof fn law_known_calls_are_gathered<T: Config>(
    runtime: T,
    slots: Seq<Option<TaskOf<T>>>,
    task: TaskOf<T>,
    call: T::Call,
)
    requires
        task.call == MaybeHashed::<T::Call, T::Hash>::Value(call),
    ensures
        ({
            let before = gathered(runtime, slots);
            let found = Task {
                id: task.id,
                priority: task.priority,
                call: Ok(call),
                periodic: task.periodic,
                origin: task.origin,
            };
            gathered(runtime, slots.push(Some(task))) == (Gathered {
                queue: before.queue.push((slots.len() as u32, found)),
                ..before
            })
        }),
{
    assert(slots.push(Some(task)).drop_last() =~= slots);
}

/// A task with a hash, of which the preimage is there and encodes a call, is gathered with that
/// call, however long the preimage is. The preimage is not requested any more, and two reads and
/// two writes are added to the weight.
pub proof fn law_hashed_calls_are_gathered<T: Config>(
    runtime: T,
    slots: Seq<Option<TaskOf<T>>>,
    task: TaskOf<T>,
    hash: T::Hash,
    data: Seq<u8>,
    call: T::Call,
)
    requires
        task.call == MaybeHashed::<T::Call, T::Hash>::Hash(hash),
        gathered(runtime, slots).runtime.preimage(hash) == Some(data),
        T::decoded(data) == Some(call),
    ensures
        ({
            let before = gathered(runtime, slots);
            let after = gathered(runtime, slots.push(Some(task)));
            let found = Task {
                id: task.id,
                priority: task.priority,
                call: Ok(call),
                periodic: task.periodic,
                origin: task.origin,
            };
            let db = before.runtime.db();
            let weight = before.weight + 2 * db.read + 2 * db.write;
            &&& after.queue == before.queue.push((slots.len() as u32, found))
            &&& after.runtime == before.runtime.unrequested(hash)
            &&& after.weight == (if weight > Weight::MAX {
                Weight::MAX as int
            } else {
                weight
            })
        }),
{
    assert(slots.push(Some(task)).drop_last() =~= slots);
}

/// A task with a hash that leads to no call is gathered with the reason: that there is no preimage,
/// or that it encodes no call. Nothing else changes.
pub proof fn law_missing_calls_are_gathered<T: Config>(
    runtime: T,
    slots: Seq<Option<TaskOf<T>>>,
    task: TaskOf<T>,
    hash: T::Hash,
)
    requires
        task.call == MaybeHashed::<T::Call, T::Hash>::Hash(hash),
        gathered(runtime, slots).runtime.preimage(hash) matches Some(data) ==> T::decoded(
            data,
        ) is None,
    ensures
        ({
            let before = gathered(runtime, slots);
            let reason = if before.runtime.preimage(hash) is Some {
                LookupError::BadFormat
            } else {
                LookupError::Unknown
            };
            let found = Task {
                id: task.id,
                priority: task.priority,
                call: Err(reason),
                periodic: task.periodic,
                origin: task.origin,
            };
            gathered(runtime, slots.push(Some(task))) == (Gathered {
                queue: before.queue.push((slots.len() as u32, found)),
                ..before
            })
        }),
{
    assert(slots.push(Some(task)).drop_last() =~= slots);
}

/// A quarter of all priorities are within the hard deadline.
pub proof fn law_a_quarter_of_the_priorities_is_urgent()
    ensures
        4 * (HARD_DEADLINE + 1) == Priority::MAX + 1,
{
}

/// A task of which the call was found is dispatched in its turn where its priority is one of the
/// urgent quarter, where it is the first, or where all turns with its own are within the limit,
/// whatever the number of those is; and else it is not. A turn weighs what the call weighs, a read
/// and a write for a signer, a write for a name, and a read and a write for a period.
pub proof fn law_what_fits_is_dispatched<T: Config>(
    progress: Progress<T>,
    limit: Weight,
    order: nat,
    task: FoundTaskOf<T>,
)
    ensures
        ({
            let db = progress.runtime.db();
            let signer: int = if T::signed(task.origin) {
                db.read + db.write
            } else {
                0
            };
            let named: int = if task.id is Some {
                db.write as int
            } else {
                0
            };
            let again: int = if task.periodic is Some {
                db.read + db.write
            } else {
                0
            };
            match task.call {
                Ok(call) => {
                    let weight = progress.cumulative + progress.runtime.weight_of(call) + signer
                        + named + again;
                    &&& weight <= limit ==> is_dispatched(progress, limit, order, task)
                    &&& task.priority < 64 ==> is_dispatched(progress, limit, order, task)
                    &&& order == 0 ==> is_dispatched(progress, limit, order, task)
                    &&& weight > limit && limit < Weight::MAX && task.priority >= 64 && order > 0
                        ==> !is_dispatched(progress, limit, order, task)
                },
                Err(_) => !is_dispatched(progress, limit, order, task),
            }
        }),
{
}

/// More room in a block loses no dispatch: what is dispatched after turns of some weight is
/// dispatched too where less was used or the limit is higher.
pub proof fn law_more_room_loses_no_dispatch<T: Config>(
    progress: Progress<T>,
    lighter: Progress<T>,
    limit: Weight,
    higher: Weight,
    order: nat,
    earlier: nat,
    task: FoundTaskOf<T>,
)
    requires
        is_dispatched(progress, limit, order, task),
        lighter.runtime == progress.runtime,
        lighter.cumulative <= progress.cumulative,
        higher >= limit,
        earlier <= order,
    ensures
        is_dispatched(lighter, higher, earlier, task),
{
}

/// Each turn adds what it weighs to the weight of all turns, be the task dispatched or not; the
/// weight that is returned in the end is that of all turns up to the last dispatch.
pub proof fn law_every_turn_is_weighed<T: Dispatchable>(
    progress: Progress<T>,
    now: BlockNumber,
    limit: Weight,
    order: nat,
    index: u32,
    task: FoundTaskOf<T>,
)
    ensures
        ({
            let after = turn(progress, now, limit, order, (index, task));
            let db = progress.runtime.db();
            let called: int = match task.call {
                Ok(call) => progress.runtime.weight_of(call) + if T::signed(task.origin) {
                    db.read + db.write
                } else {
                    0
                },
                Err(_) => 0,
            };
            let named: int = if task.id is Some {
                db.write as int
            } else {
                0
            };
            let again: int = if task.periodic is Some {
                db.read + db.write
            } else {
                0
            };
            let weight = progress.cumulative + called + named + again;
            &&& after.cumulative == (if weight > Weight::MAX {
                Weight::MAX as int
            } else {
                weight
            })
            &&& after.total == (if is_dispatched(progress, limit, order, task) {
                after.cumulative
            } else {
                progress.total
            })
        }),
{
}

/// A task that is dispatched without a period is on no agenda after that, and its name leads
/// nowhere. What its call did to the runtime and to the state stays, and how it ended is reported.
pub proof fn law_what_a_last_dispatch_does<T: Dispatchable>(
    progress: Progress<T>,
    now: BlockNumber,
    limit: Weight,
    order: nat,
    index: u32,
    task: FoundTaskOf<T>,
    call: T::Call,
)
    requires
        is_dispatched(progress, limit, order, task),
        task.call == Ok::<T::Call, LookupError>(call),
        task.periodic is None,
    ensures
        ({
            let after = turn(progress, now, limit, order, (index, task));
            let (runtime, state, result) = progress.runtime.dispatched(
                progress.state,
                task.origin,
                call,
            );
            &&& after.runtime == runtime
            &&& after.state == (State {
                lookup: match task.id {
                    Some(id) => state.lookup.remove(id),
                    None => state.lookup,
                },
                events: state.events.push(EventView::Dispatched((now, index), task.id, result)),
                ..state
            })
        }),
{
}

/// A task that is dispatched with a period goes behind the others of the block that is one period
/// later, with the same period, one repetition less and its call as it was found, and its name
/// leads there. The last repetition has no period any more.
pub proof fn law_what_a_repeated_dispatch_does<T: Dispatchable>(
    progress: Progress<T>,
    now: BlockNumber,
    limit: Weight,
    order: nat,
    index: u32,
    task: FoundTaskOf<T>,
    call: T::Call,
    period: BlockNumber,
    count: u32,
    next: BlockNumber,
)
    requires
        is_dispatched(progress, limit, order, task),
        task.call == Ok::<T::Call, LookupError>(call),
        task.periodic == Some((period, count)),
        next == now + period,
    ensures
        ({
            let after = turn(progress, now, limit, order, (index, task));
            let (runtime, state, result) = progress.runtime.dispatched(
                progress.state,
                task.origin,
                call,
            );
            let again = Task {
                id: task.id,
                priority: task.priority,
                call: MaybeHashed::Value(call),
                periodic: if count > 1 {
                    Some((period, (count - 1) as u32))
                } else {
                    None
                },
                origin: task.origin,
            };
            &&& after.runtime == runtime
            &&& after.state == (State {
                agenda: state.agenda.insert(next, state.slots(next).push(Some(again))),
                lookup: match task.id {
                    Some(id) => state.lookup.insert(id, (next, state.slots(next).len() as u32)),
                    None => state.lookup,
                },
                events: state.events.push(EventView::Dispatched((now, index), task.id, result)),
                ..state
            })
        }),
{
}

/// A task of which the call was found and that is not dispatched goes behind the others of the next
/// block, with its call as it was found and all else as it was, and its name leads there if it led
/// to the task. Nothing is dispatched, nothing is reported and nothing else changes.
pub proof fn law_what_is_put_off<T: Dispatchable>(
    progress: Progress<T>,
    now: BlockNumber,
    limit: Weight,
    order: nat,
    index: u32,
    task: FoundTaskOf<T>,
    call: T::Call,
    next: BlockNumber,
)
    requires
        !is_dispatched(progress, limit, order, task),
        task.call == Ok::<T::Call, LookupError>(call),
        next == now + 1,
    ensures
        ({
            let state = progress.state;
            let after = turn(progress, now, limit, order, (index, task));
            let again = Task {
                id: task.id,
                priority: task.priority,
                call: MaybeHashed::Value(call),
                periodic: task.periodic,
                origin: task.origin,
            };
            &&& after.runtime == progress.runtime
            &&& after.state == (State {
                agenda: state.agenda.insert(next, state.slots(next).push(Some(again))),
                lookup: match task.id {
                    Some(id) => if state.lookup.contains_pair(id, (now, index)) {
                        state.lookup.insert(id, (next, state.slots(next).len() as u32))
                    } else {
                        state.lookup
                    },
                    None => state.lookup,
                },
                ..state
            })
        }),
{
}

/// A task of which the call was not found is on no agenda after its turn, and its name leads
/// nowhere if it led to the task. The reason is reported, and nothing else changes.
pub proof fn law_what_is_aborted<T: Dispatchable>(
    progress: Progress<T>,
    now: BlockNumber,
    limit: Weight,
    order: nat,
    index: u32,
    task: FoundTaskOf<T>,
    reason: LookupError,
)
    requires
        task.call == Err::<T::Call, LookupError>(reason),
    ensures
        ({
            let state = progress.state;
            let after = turn(progress, now, limit, order, (index, task));
            &&& after.runtime == progress.runtime
            &&& after.state == (State {
                lookup: match task.id {
                    Some(id) => if state.lookup.contains_pair(id, (now, index)) {
                        state.lookup.remove(id)
                    } else {
                        state.lookup
                    },
                    None => state.lookup,
                },
                events: state.events.push(
                    EventView::CallLookupFailed((now, index), task.id, reason),
                ),
                ..state
            })
        }),
{
}

/// The turns go on one after the other, each from where those before it have come to.
pub proof fn law_turns_follow_each_other<T: Dispatchable>(
    start: Progress<T>,
    now: BlockNumber,
    limit: Weight,
    queue: Seq<DueTask<T>>,
    due: DueTask<T>,
)
    ensures
        turns(start, now, limit, Seq::empty()) == start,
        turns(start, now, limit, queue.push(due)) == turn(
            turns(start, now, limit, queue),
            now,
            limit,
            queue.len(),
            due,
        ),
{
    assert(queue.push(due).drop_last() =~= queue);
}

/// A sorted queue has the tasks of the queue, those of a lower priority value before those of a
/// higher one, and those of the same value in the order of the queue.
pub proof fn law_a_sorted_queue<T: Config>(queue: Vec<Due<T>>, sorted: Vec<Due<T>>, priority: int)
    requires
        call_ensures(sort_by_priority::<T>, (queue,), sorted),
    ensures
        queue_view::<T>(sorted@).to_multiset() == queue_view::<T>(queue@).to_multiset(),
        sorted@.len() == queue@.len(),
        forall|i: int, j: int|
            0 <= i <= j < sorted@.len() ==> (#[trigger] sorted@[i]).1.priority <= (
            #[trigger] sorted@[j]).1.priority,
        queue_view::<T>(sorted@).filter(|due: DueTask<T>| due.1.priority == priority)
            == queue_view::<T>(queue@).filter(|due: DueTask<T>| due.1.priority == priority),
        call_requires(sort_by_priority::<T>, (queue,)),
{
    let before = queue_view::<T>(queue@);
    let after = queue_view::<T>(sorted@);
    law_turns_go_by_priority::<T>(before);
    assert forall|i: int, j: int| 0 <= i <= j < sorted@.len() implies (
    #[trigger] sorted@[i]).1.priority <= (#[trigger] sorted@[j]).1.priority by {
        assert(after[i].1.priority <= after[j].1.priority);
    }
    assert(of_priority::<T>(after, priority) == of_priority::<T>(before, priority)) by {
        if 0 <= priority <= Priority::MAX {
            let value = priority as Priority;
            assert(of_priority::<T>(after, value as int) == of_priority::<T>(before, value as int));
        } else {
            lemma_of_no_priority::<T>(after, priority);
            lemma_of_no_priority::<T>(before, priority);
        }
    }
}

/// There is no task of what is no priority.
proof fn lemma_of_no_priority<T: Config>(queue: Seq<DueTask<T>>, priority: int)
    requires
        priority < 0 || priority > Priority::MAX,
    ensures
        of_priority::<T>(queue, priority) == Seq::<DueTask<T>>::empty(),
    decreases queue.len(),
{
    reveal(Seq::filter);
    if queue.len() > 0 {
        lemma_of_no_priority::<T>(queue.drop_last(), priority);
    }
}

/// The start of a block takes the agenda of the block, gathers all of its tasks, and gives each its
/// turn by priority. It returns the weight of all turns up to the last dispatch, and nothing where
/// there is no dispatch.
pub proof fn law_what_the_start_of_a_block_does<T: Dispatchable>(
    pallet: &mut Pallet<T>,
    runtime: &mut T,
    now: BlockNumber,
    weight: Weight,
    queue: Vec<Due<T>>,
    sorted: Vec<Due<T>>,
)
    requires
        call_ensures(Pallet::<T>::on_initialize, (pallet, runtime, now), weight),
        queue_view::<T>(queue@) == gathered(*old(runtime), old(pallet)@.slots(now)).queue,
        call_ensures(sort_by_priority::<T>, (queue,), sorted),
    ensures
        ({
            let before = old(pallet)@;
            let due = gathered(*old(runtime), before.slots(now));
            let start = Progress {
                runtime: due.runtime,
                state: State { agenda: before.agenda.remove(now), ..before },
                cumulative: due.weight,
                total: 0,
            };
            let end = turns(start, now, old(runtime).weight_limit(), queue_view::<T>(sorted@));
            &&& *final(runtime) == end.runtime
            &&& final(pallet)@ == end.state
            &&& weight == end.total
        }),
{
}

/// A block without an agenda, or with empty slots alone, changes nothing but that its agenda is
/// gone, and weighs nothing.
pub proof fn law_a_block_without_tasks<T: Dispatchable>(
    pallet: &mut Pallet<T>,
    runtime: &mut T,
    now: BlockNumber,
    weight: Weight,
)
    requires
        call_ensures(Pallet::<T>::on_initialize, (pallet, runtime, now), weight),
        forall|i: int|
            0 <= i < old(pallet)@.slots(now).len() ==> #[trigger] old(pallet)@.slots(
                now,
            )[i] is None,
    ensures
        weight == 0,
        *final(runtime) == *old(runtime),
        final(pallet)@ == (State { agenda: old(pallet)@.agenda.remove(now), ..old(pallet)@ }),
        now < BlockNumber::MAX ==> call_requires(
            Pallet::<T>::on_initialize,
            (pallet, runtime, now),
        ),
{
    lemma_nothing_gathered(*old(runtime), old(pallet)@.slots(now));
    law_turns_go_by_priority::<T>(gathered(*old(runtime), old(pallet)@.slots(now)).queue);
}

/// Nothing is gathered of empty slots.
proof fn lemma_nothing_gathered<T: Config>(runtime: T, slots: Seq<Option<TaskOf<T>>>)
    requires
        forall|i: int| 0 <= i < slots.len() ==> #[trigger] slots[i] is None,
    ensures
        gathered(runtime, slots) == gathered(runtime, Seq::empty()),
        gathered(runtime, slots).queue.len() == 0,
        gathered(runtime, slots).runtime == runtime,
    decreases slots.len(),
{
    if slots.len() > 0 {
        assert(slots.last() == slots[slots.len() - 1]);
        lemma_nothing_gathered(runtime, slots.drop_last());
    }
}

/// A task of the queue has the period of a task on the agenda.
proof fn lemma_gathered_periods<T: Config>(
    runtime: T,
    slots: Seq<Option<TaskOf<T>>>,
    now: BlockNumber,
)
    requires
        forall|i: int|
            0 <= i < slots.len() ==> (#[trigger] slots[i] matches Some(task) ==> (
            task.periodic matches Some((period, _)) ==> now + period <= BlockNumber::MAX)),
    ensures
        forall|k: int|
            0 <= k < gathered(runtime, slots).queue.len() ==> ((#[trigger] gathered(
                runtime,
                slots,
            ).queue[k]).1.periodic matches Some((period, _)) ==> now + period <= BlockNumber::MAX),
    decreases slots.len(),
{
    if slots.len() > 0 {
        assert(slots.last() == slots[slots.len() - 1]);
        lemma_gathered_periods(runtime, slots.drop_last(), now);
    }
}

/// A block can be started, and all of its tasks have their turn, wherever there is a next block and
/// the next time of each task of the block is a block number.
pub proof fn law_when_a_block_can_be_started<T: Dispatchable>(
    pallet: &mut Pallet<T>,
    runtime: &mut T,
    now: BlockNumber,
    weight: Option<Weight>,
)
    requires
        now < BlockNumber::MAX,
        forall|i: int|
            0 <= i < old(pallet)@.slots(now).len() ==> (#[trigger] old(pallet)@.slots(
                now,
            )[i] matches Some(task) ==> (task.periodic matches Some((period, _)) ==> now + period
                <= BlockNumber::MAX)),
        call_ensures(Pallet::<T>::try_initialize, (pallet, runtime, now), weight),
    ensures
        weight is Some,
        call_requires(Pallet::<T>::on_initialize, (pallet, runtime, now)),
{
    let before = old(pallet)@;
    let queue = gathered(*old(runtime), before.slots(now)).queue;
    lemma_gathered_periods(*old(runtime), before.slots(now), now);
    assert forall|k: int| 0 <= k < by_priority::<T>(queue).len() implies #[trigger] kth_turn_fits(
        *old(runtime),
        before,
        now,
        k,
    ) by {
        lemma_ranked_from_queue::<T>(queue, 256, k);
    }
}

/// A block can be started exactly where there is a next block and each dispatch of a periodic task
/// in it has a next time that is a block number.
pub proof fn law_what_keeps_a_block_from_being_started<T: Dispatchable>(
    runtime: T,
    state: State<T>,
    now: BlockNumber,
)
    ensures
        times_fit(runtime, state, now) <==> {
            let due = gathered(runtime, state.slots(now));
            let queue = by_priority::<T>(due.queue);
            let start = Progress {
                runtime: due.runtime,
                state: State { agenda: state.agenda.remove(now), ..state },
                cumulative: due.weight,
                total: 0,
            };
            &&& now < BlockNumber::MAX
            &&& forall|k: int|
                0 <= k < queue.len() && is_dispatched(
                    turns(start, now, runtime.weight_limit(), queue.take(k)),
                    runtime.weight_limit(),
                    k as nat,
                    queue[k].1,
                ) ==> ((#[trigger] queue[k]).1.periodic matches Some((period, _)) ==> now + period
                    <= BlockNumber::MAX)
        },
{
    let due = gathered(runtime, state.slots(now));
    let queue = by_priority::<T>(due.queue);
    let limit = runtime.weight_limit();
    let start = started(runtime, state, now);
    if times_fit(runtime, state, now) {
        assert forall|k: int|
            0 <= k < queue.len() && is_dispatched(
                turns(start, now, limit, queue.take(k)),
                limit,
                k as nat,
                queue[k].1,
            ) implies ((#[trigger] queue[k]).1.periodic matches Some((period, _)) ==> now + period
            <= BlockNumber::MAX) by {
            assert(kth_turn_fits(runtime, state, now, k));
        }
    } else if now < BlockNumber::MAX {
        let k = choose|k: int|
            0 <= k < queue.len() && !#[trigger] kth_turn_fits(runtime, state, now, k);
        assert(!kth_turn_fits(runtime, state, now, k));
        assert(queue[k].1.periodic is Some);
    }
}

/// Where a block can be started, the careful start does and returns what the other does.
pub proof fn law_the_careful_start_is_the_same<T: Dispatchable>(
    pallet: &mut Pallet<T>,
    runtime: &mut T,
    other: &mut Pallet<T>,
    other_runtime: &mut T,
    now: BlockNumber,
    careful: Option<Weight>,
    weight: Weight,
)
    requires
        old(other)@ == old(pallet)@,
        *old(other_runtime) == *old(runtime),
        call_ensures(Pallet::<T>::try_initialize, (pallet, runtime, now), careful),
        call_ensures(Pallet::<T>::on_initialize, (other, other_runtime, now), weight),
        careful is Some,
    ensures
        careful == Some(weight),
        final(pallet)@ == final(other)@,
        *final(runtime) == *final(other_runtime),
        call_requires(Pallet::<T>::on_initialize, (other, other_runtime, now)),
        call_requires(Pallet::<T>::try_initialize, (pallet, runtime, now)),
{
}

/// A careful start that returns nothing stopped before the first dispatch of a periodic task with a
/// next time that is no block number, and has come as far as all turns before that one.
pub proof fn law_where_a_careful_start_stops<T: Dispatchable>(
    pallet: &mut Pallet<T>,
    runtime: &mut T,
    now: BlockNumber,
    weight: Option<Weight>,
)
    requires
        call_ensures(Pallet::<T>::try_initialize, (pallet, runtime, now), weight),
        weight is None,
        now < BlockNumber::MAX,
    ensures
        ({
            let before = old(pallet)@;
            let due = gathered(*old(runtime), before.slots(now));
            let queue = by_priority::<T>(due.queue);
            let limit = old(runtime).weight_limit();
            let start = Progress {
                runtime: due.runtime,
                state: State { agenda: before.agenda.remove(now), ..before },
                cumulative: due.weight,
                total: 0,
            };
            exists|k: int| {
                let reached = turns(start, now, limit, #[trigger] queue.take(k));
                &&& 0 <= k < queue.len()
                &&& is_dispatched(reached, limit, k as nat, queue[k].1)
                &&& queue[k].1.periodic matches Some((period, _)) && now + period
                    > BlockNumber::MAX
                &&& *final(runtime) == reached.runtime
                &&& final(pallet)@ == reached.state
            }
        }),
{
    let k = choose|k: int| #[trigger]
        stopped_at(*old(runtime), old(pallet)@, now, k, (*final(runtime), final(pallet)@));
    let queue = by_priority::<T>(gathered(*old(runtime), old(pallet)@.slots(now)).queue);
    assert(queue.take(k) == queue.take(k));
}

/// In the last block of all nothing is started.
pub proof fn law_the_last_block_is_not_started<T: Dispatchable>(
    pallet: &mut Pallet<T>,
    runtime: &mut T,
    weight: Option<Weight>,
)
    requires
        call_ensures(Pallet::<T>::try_initialize, (pallet, runtime, BlockNumber::MAX), weight),
    ensures
        weight is None,
        final(pallet)@ == old(pallet)@,
        *final(runtime) == *old(runtime),
{
}

/// A dispatch is recorded: a task without a period has its name freed; one with a period goes
/// behind the others of the block one period later, with one repetition less, and its name leads
/// there. How the dispatch ended is reported, and nothing else changes.
pub proof fn law_what_is_recorded_of_a_dispatch<T: Config>(
    pallet: &mut Pallet<T>,
    now: BlockNumber,
    index: u32,
    task: ScheduledOf<T>,
    result: CallResult,
    next: BlockNumber,
)
    requires
        call_ensures(Pallet::<T>::settle, (pallet, now, index, task, result), ()),
        task.maybe_periodic matches Some((period, _)) ==> next == now + period,
    ensures
        ({
            let before = old(pallet)@;
            let id = task@.id;
            let events = before.events.push(EventView::Dispatched((now, index), id, result));
            match task.maybe_periodic {
                Some((period, count)) => final(pallet)@ == (State {
                    agenda: before.agenda.insert(
                        next,
                        before.slots(next).push(
                            Some(
                                Task {
                                    periodic: if count > 1 {
                                        Some((period, (count - 1) as u32))
                                    } else {
                                        None
                                    },
                                    ..task@
                                },
                            ),
                        ),
                    ),
                    lookup: match id {
                        Some(id) => before.lookup.insert(
                            id,
                            (next, before.slots(next).len() as u32),
                        ),
                        None => before.lookup,
                    },
                    events,
                    ..before
                }),
                None => final(pallet)@ == (State {
                    lookup: match id {
                        Some(id) => before.lookup.remove(id),
                        None => before.lookup,
                    },
                    events,
                    ..before
                }),
            }
        }),
        call_requires(Pallet::<T>::settle, (pallet, now, index, task, result)),
{
}

/// That a task is aborted is recorded: its name is freed where it led to the task, the reason is
/// reported, and nothing else changes.
pub proof fn law_what_is_recorded_of_an_abort<T: Config>(
    pallet: &mut Pallet<T>,
    now: BlockNumber,
    index: u32,
    name: Vec<u8>,
    reason: LookupError,
)
    requires
        call_ensures(Pallet::<T>::abort, (pallet, now, index, Some(name), reason), ()),
    ensures
        final(pallet)@ == (State {
            lookup: if old(pallet)@.lookup.contains_pair(name@, (now, index)) {
                old(pallet)@.lookup.remove(name@)
            } else {
                old(pallet)@.lookup
            },
            events: old(pallet)@.events.push(
                EventView::CallLookupFailed((now, index), Some(name@), reason),
            ),
            ..old(pallet)@
        }),
        call_requires(Pallet::<T>::abort, (pallet, now, index, Some(name), reason)),
{
}

/// That a task without a name is aborted is recorded: the reason is reported, and nothing else
/// changes.
pub proof fn law_what_is_recorded_of_a_nameless_abort<T: Config>(
    pallet: &mut Pallet<T>,
    now: BlockNumber,
    index: u32,
    reason: LookupError,
)
    requires
        call_ensures(Pallet::<T>::abort, (pallet, now, index, None, reason), ()),
    ensures
        final(pallet)@ == (State {
            events: old(pallet)@.events.push(
                EventView::CallLookupFailed((now, index), None, reason),
            ),
            ..old(pallet)@
        }),
        call_requires(Pallet::<T>::abort, (pallet, now, index, None, reason)),
{
}

/// One execution more leaves one repetition less of the same period, and after the last none.
pub proof fn law_what_is_left_of_a_period(period: BlockNumber, count: u32)
    ensures
        remaining(None) is None,
        count <= 1 ==> remaining(Some((period, count))) is None,
        count > 1 ==> (remaining(Some((period, count))) matches Some((same, left)) && same
            == period && left + 1 == count),
{
}

} // verus!
