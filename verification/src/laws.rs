//! What holds of the scheduler as a whole.
use vstd::prelude::*;

use crate::calls::{
    cancel_named_outcome, cancel_outcome, refused, reschedule_named_outcome, reschedule_outcome,
    sanitized, schedule_named_outcome, target_block,
};
use crate::config::Config;
use crate::hooks::{
    gathered, initialized, is_dispatched, period_fits, remaining, settled, started, turn,
    turn_weight, turns, with_call, with_found, Dispatchable, Gathered, Progress,
};
use crate::pallet::{CallOrHashOf, State, TaskOf};
use crate::preimages::{looked_up, requesting, unrequesting};
use crate::privileges::may_cancel;
use crate::queue::{by_priority, DueTask, FoundOf, FoundTaskOf};
use crate::types::{
    BlockNumber, CallResult, DispatchTime, Error, EventView, LookupError, MaybeHashed, Period,
    SchedulerError, Task, TaskAddress, HARD_DEADLINE,
};
use crate::weights::{saturate, Weight};

verus! {

/// How often a task is dispatched that has the given repetitions left.
pub open spec fn executions(periodic: Option<Period<BlockNumber>>) -> nat
    decreases
            (match periodic {
                Some((_, count)) => count + 1,
                None => 0,
            }),
{
    match periodic {
        Some(_) => 1 + executions(remaining(periodic)),
        None => 1,
    }
}

proof fn lemma_executions(period: BlockNumber, count: u32)
    requires
        count >= 1,
    ensures
        executions(Some((period, count))) == count + 1,
    decreases count,
{
    reveal_with_fuel(executions, 2);
    if count > 1 {
        lemma_executions(period, (count - 1) as u32);
    }
}

/// How often a task is to be dispatched for which the given period was asked: once without a
/// period, with an empty one, or where less than two times were asked for.
pub open spec fn times_asked(periodic: Option<Period<BlockNumber>>) -> nat {
    match periodic {
        Some((period, count)) => if period != 0 && count > 1 {
            count as nat
        } else {
            1
        },
        None => 1,
    }
}

/// A task with a period is dispatched as many times in total as was asked for, before it is
/// considered finished. Without a period, with an empty one, or where less than two times were
/// asked for, it is dispatched once.
pub proof fn law_periodic_task_is_executed_as_often_as_asked(
    periodic: Option<Period<BlockNumber>>,
)
    ensures
        executions(sanitized(periodic)) == times_asked(periodic),
{
    if let Some((period, count)) = periodic {
        if period != 0 && count > 1 {
            lemma_executions(period, (count - 1) as u32);
        }
    }
}

/// Each dispatch of a task is one of its executions: where more are left, the task goes on the
/// agenda of its next time, its name with it, with one less left; after the last it goes on no
/// agenda, and its name leads nowhere.
pub proof fn law_each_dispatch_is_one_execution<T: Config>(
    state: State<T>,
    now: BlockNumber,
    index: u32,
    task: TaskOf<T>,
    result: CallResult,
)
    requires
        period_fits(now, task.periodic),
    ensures
        ({
            let after = settled(state, now, index, task, result);
            match task.periodic {
                Some((period, _)) => {
                    let next = (now + period) as BlockNumber;
                    let again = Task { periodic: remaining(task.periodic), ..task };
                    &&& next == now + period
                    &&& after.slots(next) == state.slots(next).push(Some(again))
                    &&& forall|block: BlockNumber|
                        block != next ==> #[trigger] after.slots(block) == state.slots(block)
                    &&& executions(again.periodic) == executions(task.periodic) - 1
                    &&& task.id matches Some(id) ==> after.lookup.contains_pair(
                        id,
                        state.next_address(next),
                    )
                },
                None => {
                    &&& after.agenda == state.agenda
                    &&& executions(task.periodic) == 1
                    &&& task.id matches Some(id) ==> !after.lookup.contains_key(id)
                },
            }
        }),
{
}

/// A task is never scheduled for the current block or an earlier one, and a task that is
/// scheduled after some blocks has at least that many blocks before its own, unless the numbers
/// of the blocks end before.
pub proof fn law_tasks_are_scheduled_for_later_blocks(
    now: BlockNumber,
    when: DispatchTime<BlockNumber>,
)
    ensures
        match target_block(now, when) {
            Ok(at) => {
                &&& at > now
                &&& when matches DispatchTime::At(block) ==> at == block
                &&& when matches DispatchTime::After(delay) ==> at == now + delay + 1 || (at
                    == BlockNumber::MAX && now + delay + 1 > BlockNumber::MAX)
            },
            Err(error) => {
                &&& error == SchedulerError::Module(Error::TargetBlockNumberInPast)
                &&& when matches DispatchTime::At(block) ==> block <= now
                &&& when matches DispatchTime::After(_) ==> now == BlockNumber::MAX
            },
        },
{
}

/// A task that was scheduled is found at the address that was given out for it, in a later block,
/// and that block is its next dispatch time.
pub proof fn law_scheduled_task_is_found<T: Config>(
    runtime: T,
    state: State<T>,
    when: DispatchTime<BlockNumber>,
    task: TaskOf<T>,
)
    requires
        state.has_room(runtime.now(), when),
    ensures
        schedule_named_outcome(runtime, state, when, task).result matches Ok(address) ==> {
            let after = schedule_named_outcome(runtime, state, when, task).state;
            &&& after.task_at(address) == Some(
                Task { periodic: sanitized(task.periodic), ..task },
            )
            &&& address.0 > runtime.now()
            &&& after.dispatch_time(address) == Ok::<BlockNumber, ()>(address.0)
            &&& task.id matches Some(id) ==> after.named_dispatch_time(id) == Ok::<
                BlockNumber,
                (),
            >(address.0)
        },
{
}

/// A name is given out once: as long as it leads somewhere it cannot be given out again.
pub proof fn law_names_are_unique<T: Config>(
    runtime: T,
    state: State<T>,
    when: DispatchTime<BlockNumber>,
    task: TaskOf<T>,
    later_runtime: T,
    later_when: DispatchTime<BlockNumber>,
    later_task: TaskOf<T>,
)
    requires
        task.id is Some,
        later_task.id == task.id,
        schedule_named_outcome(runtime, state, when, task).result is Ok,
    ensures
        schedule_named_outcome(
            later_runtime,
            schedule_named_outcome(runtime, state, when, task).state,
            later_when,
            later_task,
        ) == refused::<T, TaskAddress<BlockNumber>>(
            later_runtime,
            schedule_named_outcome(runtime, state, when, task).state,
            SchedulerError::Module(Error::FailedToSchedule),
        ),
{
}

/// To schedule under a name that is free comes to the same as to schedule without one, but that the
/// task has the name and the name leads to it.
pub proof fn law_schedule_named_is_schedule<T: Config>(
    runtime: T,
    state: State<T>,
    when: DispatchTime<BlockNumber>,
    task: TaskOf<T>,
    id: Seq<u8>,
)
    requires
        task.id is None,
        !state.lookup.contains_key(id),
    ensures
        ({
            let plain = schedule_named_outcome(runtime, state, when, task);
            let named = schedule_named_outcome(runtime, state, when, Task { id: Some(id), ..task });
            &&& named.result == plain.result
            &&& named.runtime == plain.runtime
            &&& named.state.events == plain.state.events
            &&& named.state.version == plain.state.version
            &&& named.state.lookup == (match named.result {
                Ok(address) => plain.state.lookup.insert(id, address),
                Err(_) => plain.state.lookup,
            })
            &&& forall|block: BlockNumber| #[trigger]
                named.state.slots(block) == (match named.result {
                    Ok(address) => if block == address.0 {
                        state.slots(block).push(
                            Some(
                                Task {
                                    id: Some(id),
                                    periodic: sanitized(task.periodic),
                                    ..task
                                },
                            ),
                        )
                    } else {
                        plain.state.slots(block)
                    },
                    Err(_) => plain.state.slots(block),
                })
        }),
{
}

/// To schedule after some blocks comes to the same as to schedule at the block that lies one
/// further, where there is such a block.
pub proof fn law_a_delay_is_a_block<T: Config>(
    runtime: T,
    state: State<T>,
    delay: BlockNumber,
    task: TaskOf<T>,
)
    requires
        runtime.now() + delay + 1 <= BlockNumber::MAX,
    ensures
        schedule_named_outcome(runtime, state, DispatchTime::After(delay), task)
            == schedule_named_outcome(
            runtime,
            state,
            DispatchTime::At((runtime.now() + delay + 1) as BlockNumber),
            task,
        ),
{
}

/// An address stays that of its task: whatever is scheduled, canceled or moved besides, the task
/// is still found there.
pub proof fn law_addresses_stay<T: Config>(
    runtime: T,
    state: State<T>,
    when: DispatchTime<BlockNumber>,
    task: TaskOf<T>,
    origin: Option<T::PalletsOrigin>,
    id: Seq<u8>,
    address: TaskAddress<BlockNumber>,
    other: TaskAddress<BlockNumber>,
)
    requires
        state.task_at(other) is Some,
    ensures
        schedule_named_outcome(runtime, state, when, task).state.task_at(other) == state.task_at(
            other,
        ),
        other != address ==> cancel_outcome(runtime, state, origin, address).state.task_at(other)
            == state.task_at(other),
        !(state.lookup.contains_key(id) && other == state.lookup[id]) ==> cancel_named_outcome(
            runtime,
            state,
            origin,
            id,
        ).state.task_at(other) == state.task_at(other),
        other != address ==> reschedule_outcome(runtime, state, address, when).state.task_at(other)
            == state.task_at(other),
        !(state.lookup.contains_key(id) && other == state.lookup[id]) ==> reschedule_named_outcome(
            runtime,
            state,
            id,
            when,
        ).state.task_at(other) == state.task_at(other),
{
}

/// A canceled task is gone, and its name with it. What was scheduled and then canceled by someone
/// who may has left nothing but an empty slot and the reports of it, and the preimage that was
/// requested for it is not requested any more.
pub proof fn law_cancel_undoes_schedule<T: Config>(
    runtime: T,
    state: State<T>,
    when: DispatchTime<BlockNumber>,
    task: TaskOf<T>,
    origin: Option<T::PalletsOrigin>,
)
    requires
        state.has_room(runtime.now(), when),
        schedule_named_outcome(runtime, state, when, task).result is Ok,
        may_cancel(requesting(runtime, task.call), origin, task.origin),
    ensures
        ({
            let scheduled = schedule_named_outcome(runtime, state, when, task);
            let address = scheduled.result->Ok_0;
            let canceled = cancel_outcome(scheduled.runtime, scheduled.state, origin, address);
            &&& canceled.result == Ok::<(), SchedulerError>(())
            &&& canceled.runtime == unrequesting(requesting(runtime, task.call), task.call)
            &&& canceled.state == (State {
                agenda: state.agenda.insert(address.0, state.slots(address.0).push(None)),
                events: state.events.push(EventView::Scheduled(address.0, address.1)).push(
                    EventView::Canceled(address.0, address.1),
                ),
                ..state
            })
            &&& canceled.state.task_at(address) is None
        }),
{
    let scheduled = schedule_named_outcome(runtime, state, when, task);
    let address = scheduled.result->Ok_0;
    let canceled = cancel_outcome(scheduled.runtime, scheduled.state, origin, address);
    assert(canceled.state.slots(address.0) =~= state.slots(address.0).push(None));
    assert(canceled.state.agenda =~= state.agenda.insert(
        address.0,
        state.slots(address.0).push(None),
    ));
    assert(canceled.state.lookup =~= state.lookup);
}

/// What was canceled cannot be canceled again, by its address or by its name.
pub proof fn law_a_task_is_canceled_once<T: Config>(
    runtime: T,
    state: State<T>,
    origin: Option<T::PalletsOrigin>,
    address: TaskAddress<BlockNumber>,
    id: Seq<u8>,
    later_runtime: T,
    later_origin: Option<T::PalletsOrigin>,
)
    ensures
        ({
            let first = cancel_outcome(runtime, state, origin, address);
            first.result is Ok ==> cancel_outcome(
                later_runtime,
                first.state,
                later_origin,
                address,
            ).result == Err::<(), SchedulerError>(SchedulerError::Module(Error::NotFound))
        }),
        ({
            let first = cancel_named_outcome(runtime, state, origin, id);
            first.result is Ok ==> cancel_named_outcome(
                later_runtime,
                first.state,
                later_origin,
                id,
            ) == refused::<T, ()>(
                later_runtime,
                first.state,
                SchedulerError::Module(Error::NotFound),
            )
        }),
{
}

/// To cancel by name comes to the same as to cancel the task that the name leads to.
pub proof fn law_cancel_named_is_cancel<T: Config>(
    runtime: T,
    state: State<T>,
    origin: Option<T::PalletsOrigin>,
    id: Seq<u8>,
)
    requires
        state.lookup.contains_key(id),
        state.task_at(state.lookup[id]) matches Some(task) && task.id == Some(id),
        // Without an origin the request for the preimage of a hash stays.
        origin is Some || state.task_at(state.lookup[id])->0.call is Value,
    ensures
        cancel_named_outcome(runtime, state, origin, id) == cancel_outcome(
            runtime,
            state,
            origin,
            state.lookup[id],
        ),
{
}

/// A name is free once the task was canceled by it: it can be given out again for any time that
/// means a later block.
pub proof fn law_canceled_name_is_free<T: Config>(
    runtime: T,
    state: State<T>,
    origin: Option<T::PalletsOrigin>,
    id: Seq<u8>,
    later_runtime: T,
    when: DispatchTime<BlockNumber>,
    task: TaskOf<T>,
)
    requires
        task.id == Some(id),
    ensures
        cancel_named_outcome(runtime, state, origin, id).result is Ok ==> {
            let after = cancel_named_outcome(runtime, state, origin, id).state;
            &&& !after.lookup.contains_key(id)
            &&& after.named_dispatch_time(id) == Err::<BlockNumber, ()>(())
            &&& schedule_named_outcome(later_runtime, after, when, task).result is Ok
                <==> target_block(later_runtime.now(), when) is Ok
        },
{
}

/// Who has not the privilege to cancel a task is told so, and nothing changes.
pub proof fn law_lesser_origins_cannot_cancel<T: Config>(
    runtime: T,
    state: State<T>,
    origin: Option<T::PalletsOrigin>,
    address: TaskAddress<BlockNumber>,
    id: Seq<u8>,
)
    requires
        state.task_at(address) matches Some(task) && !may_cancel(runtime, origin, task.origin),
    ensures
        cancel_outcome(runtime, state, origin, address) == refused::<T, ()>(
            runtime,
            state,
            SchedulerError::BadOrigin,
        ),
        state.lookup.contains_key(id) && state.lookup[id] == address ==> cancel_named_outcome(
            runtime,
            state,
            origin,
            id,
        ) == refused::<T, ()>(runtime, state, SchedulerError::BadOrigin),
{
}

/// A task that is moved is the same task, at the new address and no longer at the old one; and its
/// name, if it led to the task, leads to the new address.
pub proof fn law_moved_task_is_the_same<T: Config>(
    runtime: T,
    state: State<T>,
    address: TaskAddress<BlockNumber>,
    id: Seq<u8>,
    when: DispatchTime<BlockNumber>,
)
    requires
        state.has_room(runtime.now(), when),
    ensures
        reschedule_outcome(runtime, state, address, when).result matches Ok(to) ==> {
            let after = reschedule_outcome(runtime, state, address, when).state;
            &&& to.0 != address.0
            &&& to.0 > runtime.now()
            &&& state.task_at(address) is Some
            &&& after.task_at(to) == state.task_at(address)
            &&& after.task_at(address) is None
            &&& after.dispatch_time(to) == Ok::<BlockNumber, ()>(to.0)
            &&& after.lookup == (if state.leads_to(state.task_at(address)->0.id, address) {
                state.lookup.insert(state.task_at(address)->0.id->0, to)
            } else {
                state.lookup
            })
        },
        reschedule_named_outcome(runtime, state, id, when).result matches Ok(to) ==> {
            let after = reschedule_named_outcome(runtime, state, id, when).state;
            &&& state.lookup.contains_key(id)
            &&& after.lookup[id] == to
            &&& after.task_at(to) == state.task_at(state.lookup[id])
            &&& after.task_at(state.lookup[id]) is None
            &&& after.named_dispatch_time(id) == Ok::<BlockNumber, ()>(to.0)
        },
{
}

/// A request that is refused changes nothing, but that a block which has no agenda may be given an
/// empty one.
pub proof fn law_refused_requests_change_nothing<T: Config>(
    runtime: T,
    state: State<T>,
    when: DispatchTime<BlockNumber>,
    task: TaskOf<T>,
    origin: Option<T::PalletsOrigin>,
    address: TaskAddress<BlockNumber>,
    id: Seq<u8>,
)
    ensures
        ({
            let outcome = schedule_named_outcome(runtime, state, when, task);
            outcome.result is Err ==> outcome.runtime == runtime && outcome.state == state
        }),
        ({
            let outcome = reschedule_outcome(runtime, state, address, when);
            outcome.result is Err ==> outcome.runtime == runtime && outcome.state == state
        }),
        ({
            let outcome = reschedule_named_outcome(runtime, state, id, when);
            outcome.result is Err ==> outcome.runtime == runtime && outcome.state == state
        }),
        ({
            let outcome = cancel_named_outcome(runtime, state, origin, id);
            outcome.result is Err ==> outcome.runtime == runtime && outcome.state == state
        }),
        ({
            let outcome = cancel_outcome(runtime, state, origin, address);
            outcome.result is Err ==> {
                &&& outcome.runtime == runtime
                &&& outcome.state == (State { agenda: outcome.state.agenda, ..state })
                &&& forall|block: BlockNumber| #[trigger]
                    outcome.state.slots(block) == state.slots(block)
            }
        }),
{
}

/// The tasks in occupied slots.
pub open spec fn occupied<T: Config>(slots: Seq<Option<TaskOf<T>>>) -> Seq<Option<TaskOf<T>>> {
    slots.filter(|slot: Option<TaskOf<T>>| slot is Some)
}

/// What a call is found to be.
pub open spec fn found_call<T: Config>(runtime: T, call: CallOrHashOf<T>) -> FoundOf<T> {
    match looked_up(runtime, call) {
        Ok((call, _)) => Ok(call),
        Err(reason) => Err(reason),
    }
}

/// Every task on the agenda of a block is due when the block starts, and nothing else is: the due
/// tasks are those of the occupied slots, in their order, each with the index of its slot, and as
/// it was but for its call, which was looked up after those before it.
pub proof fn law_all_tasks_of_the_block_are_due<T: Config>(
    runtime: T,
    slots: Seq<Option<TaskOf<T>>>,
)
    ensures
        gathered(runtime, slots).queue.len() == occupied::<T>(slots).len(),
        forall|i: int|
            0 <= i < slots.len() ==> (#[trigger] slots[i] matches Some(task) ==> {
                let k = occupied::<T>(slots.take(i)).len() as int;
                let found = found_call(gathered(runtime, slots.take(i)).runtime, task.call);
                &&& k < gathered(runtime, slots).queue.len()
                &&& gathered(runtime, slots).queue[k] == (i as u32, with_found::<T>(task, found))
            }),
    decreases slots.len(),
{
    reveal(Seq::filter);
    if slots.len() > 0 {
        let rest = slots.drop_last();
        law_all_tasks_of_the_block_are_due(runtime, rest);
        let before = gathered(runtime, rest).queue;
        let after = gathered(runtime, slots).queue;
        assert(slots.last() == slots[slots.len() - 1]);
        assert(slots.take(slots.len() - 1) =~= rest);
        assert forall|i: int| 0 <= i < slots.len() implies (#[trigger] slots[i] matches Some(task)
            ==> {
            let k = occupied::<T>(slots.take(i)).len() as int;
            let found = found_call(gathered(runtime, slots.take(i)).runtime, task.call);
            &&& k < after.len()
            &&& after[k] == (i as u32, with_found::<T>(task, found))
        }) by {
            if i < rest.len() {
                assert(rest[i] == slots[i]);
                assert(rest.take(i) =~= slots.take(i));
            }
        }
    }
}

/// In its turn a task is dispatched, which is reported with its address and its result; or it is
/// put off: then it goes on the agenda of the next block, its name with it if that led to it, and
/// nothing else changes. Where its call was not found it is aborted, which is reported with the
/// reason: it goes on no agenda, and its name, if that led to it, leads nowhere.
pub proof fn law_a_turn_dispatches_puts_off_or_aborts<T: Dispatchable>(
    progress: Progress<T>,
    now: BlockNumber,
    limit: Weight,
    order: nat,
    due: DueTask<T>,
)
    ensures
        ({
            let (index, task) = due;
            let next = (now + 1) as BlockNumber;
            let after = turn(progress, now, limit, order, due);
            match task.call {
                Ok(call) => if is_dispatched(progress, limit, order, task) {
                    let (runtime, state, result) = progress.runtime.dispatched(
                        progress.state,
                        task.origin,
                        call,
                    );
                    &&& after.runtime == runtime
                    &&& after.total == after.cumulative
                    &&& after.state.events == state.events.push(
                        EventView::Dispatched((now, index), task.id, result),
                    )
                } else {
                    &&& after.runtime == progress.runtime
                    &&& after.total == progress.total
                    &&& after.state == (State {
                        agenda: after.state.agenda,
                        lookup: after.state.lookup,
                        ..progress.state
                    })
                    &&& after.state.agenda == progress.state.agenda.insert(
                        next,
                        progress.state.slots(next).push(Some(with_call::<T>(task, call))),
                    )
                    &&& after.state.lookup == (if progress.state.leads_to(task.id, (now, index)) {
                        progress.state.lookup.insert(
                            task.id->0,
                            progress.state.next_address(next),
                        )
                    } else {
                        progress.state.lookup
                    })
                },
                Err(reason) => {
                    &&& after.runtime == progress.runtime
                    &&& after.total == progress.total
                    &&& after.state.agenda == progress.state.agenda
                    &&& after.state.lookup == (if progress.state.leads_to(task.id, (now, index)) {
                        progress.state.lookup.remove(task.id->0)
                    } else {
                        progress.state.lookup
                    })
                    &&& after.state.events == progress.state.events.push(
                        EventView::CallLookupFailed((now, index), task.id, reason),
                    )
                },
            }
        }),
{
}

/// Why a call was not found: there is no preimage of its hash, or there is one that encodes no
/// call. Then the task is due with that reason, and no request is withdrawn.
pub proof fn law_calls_that_are_not_found<T: Config>(
    runtime: T,
    slots: Seq<Option<TaskOf<T>>>,
    task: TaskOf<T>,
    hash: T::Hash,
)
    requires
        task.call == MaybeHashed::<T::Call, T::Hash>::Hash(hash),
    ensures
        ({
            let before = gathered(runtime, slots);
            let after = gathered(runtime, slots.push(Some(task)));
            let index = slots.len() as u32;
            &&& before.runtime.preimage(hash) is None ==> after == (Gathered {
                queue: before.queue.push(
                    (index, with_found::<T>(task, Err(LookupError::Unknown))),
                ),
                ..before
            })
            &&& (before.runtime.preimage(hash) matches Some(data) && T::decoded(data) is None)
                ==> after == (Gathered {
                queue: before.queue.push(
                    (index, with_found::<T>(task, Err(LookupError::BadFormat))),
                ),
                ..before
            })
        }),
{
    assert(slots.push(Some(task)).drop_last() =~= slots);
}

/// A known call with a hard deadline is dispatched in its block, whatever it weighs; and so is a
/// known call that is the first of its block.
pub proof fn law_hard_deadlines_are_kept<T: Config>(
    progress: Progress<T>,
    limit: Weight,
    order: nat,
    task: FoundTaskOf<T>,
)
    requires
        task.call is Ok,
        task.priority <= HARD_DEADLINE || order == 0,
    ensures
        is_dispatched(progress, limit, order, task),
{
}

/// A call that is neither the first of its block nor has a hard deadline is dispatched only where
/// it does not push the weight past the limit.
pub proof fn law_other_calls_stay_within_the_limit<T: Dispatchable>(
    progress: Progress<T>,
    now: BlockNumber,
    limit: Weight,
    order: nat,
    due: DueTask<T>,
)
    requires
        is_dispatched(progress, limit, order, due.1),
        due.1.priority > HARD_DEADLINE,
        order > 0,
    ensures
        turn(progress, now, limit, order, due).total <= limit,
{
}

/// Where no task of a block has a hard deadline, what the block's dispatches weigh is within the
/// limit, or it is no more than what the first turn weighs.
pub proof fn law_the_weight_of_a_block_is_limited<T: Dispatchable>(
    start: Progress<T>,
    now: BlockNumber,
    limit: Weight,
    queue: Seq<DueTask<T>>,
)
    requires
        start.total == 0,
        forall|i: int| 0 <= i < queue.len() ==> (#[trigger] queue[i]).1.priority > HARD_DEADLINE,
    ensures
        turns(start, now, limit, queue).total <= limit || (queue.len() > 0 && turns(
            start,
            now,
            limit,
            queue,
        ).total == saturate(start.cumulative + turn_weight(start.runtime, queue[0].1))),
    decreases queue.len(),
{
    if queue.len() > 0 {
        let rest = queue.drop_last();
        assert forall|i: int| 0 <= i < rest.len() implies (#[trigger] rest[i]).1.priority
            > HARD_DEADLINE by {
            assert(rest[i] == queue[i]);
        }
        law_the_weight_of_a_block_is_limited(start, now, limit, rest);
        assert(queue.last() == queue[queue.len() - 1]);
        if rest.len() > 0 {
            assert(rest[0] == queue[0]);
        }
    }
}

/// Every task of the one state is in the same slot in the other.
pub open spec fn tasks_stay<T: Config>(before: State<T>, after: State<T>) -> bool {
    forall|when: BlockNumber, i: int|
        #![trigger before.slots(when)[i]]
        #![trigger after.slots(when)[i]]
        0 <= i < before.slots(when).len() && before.slots(when)[i] is Some ==> {
            &&& i < after.slots(when).len()
            &&& after.slots(when)[i] == before.slots(when)[i]
        }
}

/// The calls that are dispatched in the turns of a queue cancel and move no tasks.
pub open spec fn calls_keep_tasks<T: Dispatchable>(
    start: Progress<T>,
    now: BlockNumber,
    limit: Weight,
    queue: Seq<DueTask<T>>,
) -> bool {
    forall|k: int|
        0 <= k < queue.len() ==> {
            let before = turns(start, now, limit, queue.take(k));
            let task = (#[trigger] queue[k]).1;
            is_dispatched(before, limit, k as nat, task) ==> tasks_stay(
                before.state,
                before.runtime.dispatched(before.state, task.origin, task.call->Ok_0).1,
            )
        }
}

proof fn lemma_turn_keeps_tasks<T: Dispatchable>(
    progress: Progress<T>,
    now: BlockNumber,
    limit: Weight,
    order: nat,
    due: DueTask<T>,
)
    requires
        is_dispatched(progress, limit, order, due.1) ==> tasks_stay(
            progress.state,
            progress.runtime.dispatched(progress.state, due.1.origin, due.1.call->Ok_0).1,
        ),
    ensures
        tasks_stay(progress.state, turn(progress, now, limit, order, due).state),
{
}

proof fn lemma_turns_keep_tasks<T: Dispatchable>(
    start: Progress<T>,
    now: BlockNumber,
    limit: Weight,
    queue: Seq<DueTask<T>>,
    done: nat,
)
    requires
        calls_keep_tasks(start, now, limit, queue),
        done <= queue.len(),
    ensures
        tasks_stay(
            turns(start, now, limit, queue.take(done as int)).state,
            turns(start, now, limit, queue).state,
        ),
    decreases queue.len() - done,
{
    if done == queue.len() {
        assert(queue.take(done as int) =~= queue);
    } else {
        let next = queue.take((done + 1) as int);
        lemma_turns_keep_tasks(start, now, limit, queue, done + 1);
        assert(next.drop_last() =~= queue.take(done as int));
        assert(next.last() == queue[done as int]);
        lemma_turn_keeps_tasks(
            turns(start, now, limit, queue.take(done as int)),
            now,
            limit,
            done,
            next.last(),
        );
    }
}

/// The start of a block leaves the tasks of all other blocks where they are, unless a call that
/// it dispatches cancels or moves them.
pub proof fn law_block_start_keeps_other_tasks<T: Dispatchable>(
    runtime: T,
    state: State<T>,
    now: BlockNumber,
    address: TaskAddress<BlockNumber>,
)
    requires
        calls_keep_tasks(
            started(runtime, state, now),
            now,
            runtime.weight_limit(),
            by_priority::<T>(gathered(runtime, state.slots(now)).queue),
        ),
        address.0 != now,
        state.task_at(address) is Some,
    ensures
        initialized(runtime, state, now).state.task_at(address) == state.task_at(address),
{
    let queue = by_priority::<T>(gathered(runtime, state.slots(now)).queue);
    let start = started(runtime, state, now);
    lemma_turns_keep_tasks(start, now, runtime.weight_limit(), queue, 0);
    assert(queue.take(0).len() == 0);
    let end = initialized(runtime, state, now).state;
    assert(start.state.slots(address.0) == state.slots(address.0));
    assert(end.slots(address.0)[address.1 as int] == start.state.slots(
        address.0,
    )[address.1 as int]);
}

/// No due task of which the call was found is lost: once the block has been started, a task that
/// was put off is on the agenda of the next block, and a periodic task that was dispatched is on
/// the agenda of its next time with one repetition less, unless a call that was dispatched in the
/// block canceled or moved it.
pub proof fn law_no_due_task_is_lost<T: Dispatchable>(
    start: Progress<T>,
    now: BlockNumber,
    limit: Weight,
    queue: Seq<DueTask<T>>,
    k: int,
)
    requires
        calls_keep_tasks(start, now, limit, queue),
        0 <= k < queue.len(),
    ensures
        ({
            let before = turns(start, now, limit, queue.take(k));
            let end = turns(start, now, limit, queue).state;
            queue[k].1.call matches Ok(call) ==> {
                let task = with_call::<T>(queue[k].1, call);
                if is_dispatched(before, limit, k as nat, queue[k].1) {
                    task.periodic matches Some((period, _)) ==> end.slots(
                        (now + period) as BlockNumber,
                    ).contains(Some(Task { periodic: remaining(task.periodic), ..task }))
                } else {
                    end.slots((now + 1) as BlockNumber).contains(Some(task))
                }
            }
        }),
{
    let before = turns(start, now, limit, queue.take(k));
    let prefix = queue.take(k + 1);
    let after = turns(start, now, limit, prefix).state;
    let end = turns(start, now, limit, queue).state;
    assert(prefix.drop_last() =~= queue.take(k));
    assert(prefix.last() == queue[k]);
    lemma_turns_keep_tasks(start, now, limit, queue, (k + 1) as nat);
    let next = if is_dispatched(before, limit, k as nat, queue[k].1) {
        match queue[k].1.periodic {
            Some((period, _)) => (now + period) as BlockNumber,
            None => now,
        }
    } else {
        (now + 1) as BlockNumber
    };
    let last = after.slots(next).len() - 1;
    if last >= 0 && after.slots(next)[last] is Some {
        assert(end.slots(next)[last] == after.slots(next)[last]);
    }
}

} // verus!
