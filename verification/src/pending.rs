//! Which tasks are pending, over all agendas.
use vstd::multiset::Multiset;
use vstd::prelude::*;

use crate::calls::{
    cancel_named_outcome, cancel_outcome, reschedule_named_outcome, reschedule_outcome, sanitized,
    schedule_named_outcome,
};
use crate::config::Config;
use crate::hooks::{
    gathered, initialized, is_dispatched, remaining, started, turn, turns, with_call, Dispatchable,
    Progress,
};
use crate::pallet::{State, TaskOf};
use crate::queue::{by_priority, DueTask, FoundTaskOf};
use crate::types::{BlockNumber, DispatchTime, Task, TaskAddress};
use crate::weights::Weight;

verus! {

/// The tasks in the slots.
pub open spec fn tasks_in<T: Config>(slots: Seq<Option<TaskOf<T>>>) -> Multiset<TaskOf<T>>
    decreases slots.len(),
{
    if slots.len() == 0 {
        Multiset::empty()
    } else {
        match slots.last() {
            Some(task) => tasks_in::<T>(slots.drop_last()).insert(task),
            None => tasks_in::<T>(slots.drop_last()),
        }
    }
}

/// The tasks on the agendas of the blocks below `bound`.
pub open spec fn pending_below<T: Config>(state: State<T>, bound: nat) -> Multiset<TaskOf<T>>
    decreases bound,
{
    if bound == 0 {
        Multiset::empty()
    } else {
        pending_below(state, (bound - 1) as nat).add(
            tasks_in::<T>(state.slots((bound - 1) as BlockNumber)),
        )
    }
}

/// The tasks on all agendas.
pub open spec fn pending<T: Config>(state: State<T>) -> Multiset<TaskOf<T>> {
    pending_below(state, (BlockNumber::MAX + 1) as nat)
}

/// The tasks in the slots once one of them was emptied.
proof fn lemma_tasks_in_emptied<T: Config>(slots: Seq<Option<TaskOf<T>>>, i: int, task: TaskOf<T>)
    requires
        0 <= i < slots.len(),
        slots[i] == Some(task),
    ensures
        tasks_in::<T>(slots.update(i, None)).insert(task) == tasks_in::<T>(slots),
    decreases slots.len(),
{
    let rest = slots.drop_last();
    if i == slots.len() - 1 {
        assert(slots.update(i, None).drop_last() =~= rest);
    } else {
        lemma_tasks_in_emptied::<T>(rest, i, task);
        assert(slots.update(i, None).drop_last() =~= rest.update(i, None));
        assert(slots.update(i, None).last() == slots.last());
        if let Some(other) = slots.last() {
            assert(tasks_in::<T>(rest.update(i, None)).insert(other).insert(task)
                =~= tasks_in::<T>(rest.update(i, None)).insert(task).insert(other));
        }
    }
}

/// The tasks in the slots with one slot more.
proof fn lemma_tasks_in_push<T: Config>(slots: Seq<Option<TaskOf<T>>>, task: TaskOf<T>)
    ensures
        tasks_in::<T>(slots.push(Some(task))) == tasks_in::<T>(slots).insert(task),
{
    assert(slots.push(Some(task)).drop_last() =~= slots);
}

/// Where two states differ in the agenda of one block alone, so do the tasks below a bound.
proof fn lemma_pending_differ<T: Config>(
    before: State<T>,
    after: State<T>,
    at: BlockNumber,
    bound: nat,
)
    requires
        bound <= BlockNumber::MAX + 1,
        forall|when: BlockNumber|
            when != at ==> #[trigger] after.slots(when) == before.slots(when),
    ensures
        bound <= at ==> pending_below(after, bound) == pending_below(before, bound),
        bound > at ==> pending_below(after, bound).add(tasks_in::<T>(before.slots(at)))
            == pending_below(before, bound).add(tasks_in::<T>(after.slots(at))),
    decreases bound,
{
    if bound > 0 {
        let below = (bound - 1) as nat;
        lemma_pending_differ(before, after, at, below);
        let old_tasks = tasks_in::<T>(before.slots(at));
        let new_tasks = tasks_in::<T>(after.slots(at));
        if below == at {
            assert(pending_below(after, bound).add(old_tasks) =~= pending_below(before, bound).add(
                new_tasks,
            ));
        } else if below > at {
            let when = below as BlockNumber;
            assert(after.slots(when) == before.slots(when));
            let same = tasks_in::<T>(before.slots(when));
            assert(pending_below(after, below).add(same).add(old_tasks) =~= pending_below(
                after,
                below,
            ).add(old_tasks).add(same));
            assert(pending_below(before, below).add(new_tasks).add(same) =~= pending_below(
                before,
                below,
            ).add(same).add(new_tasks));
        } else {
            assert(after.slots(below as BlockNumber) == before.slots(below as BlockNumber));
        }
    }
}

/// Where all agendas have the same slots, the same tasks are pending.
proof fn lemma_pending_same<T: Config>(before: State<T>, after: State<T>)
    requires
        forall|when: BlockNumber| #[trigger] after.slots(when) == before.slots(when),
    ensures
        pending(after) == pending(before),
{
    let at: BlockNumber = 0;
    lemma_pending_differ(before, after, at, (BlockNumber::MAX + 1) as nat);
    let tasks = tasks_in::<T>(before.slots(at));
    assert(after.slots(at) == before.slots(at));
    assert(pending(after) =~= pending(after).add(tasks).sub(tasks));
    assert(pending(before) =~= pending(before).add(tasks).sub(tasks));
}

/// A task that goes on an agenda is pending besides the others.
proof fn lemma_pending_appended<T: Config>(state: State<T>, at: BlockNumber, task: TaskOf<T>)
    ensures
        pending(state.appended(at, task)) == pending(state).insert(task),
{
    let after = state.appended(at, task);
    lemma_pending_differ(state, after, at, (BlockNumber::MAX + 1) as nat);
    lemma_tasks_in_push::<T>(state.slots(at), task);
    let tasks = tasks_in::<T>(state.slots(at));
    assert(after.slots(at) == state.slots(at).push(Some(task)));
    assert(pending(after) =~= pending(after).add(tasks).sub(tasks));
    assert(pending(state).insert(task) =~= pending(state).add(tasks.insert(task)).sub(tasks));
}

/// A task that leaves its slot is pending no more.
proof fn lemma_pending_emptied<T: Config>(
    state: State<T>,
    address: TaskAddress<BlockNumber>,
    task: TaskOf<T>,
)
    requires
        state.task_at(address) == Some(task),
    ensures
        pending(state.emptied(address)).insert(task) == pending(state),
{
    let after = state.emptied(address);
    let at = address.0;
    lemma_pending_differ(state, after, at, (BlockNumber::MAX + 1) as nat);
    lemma_tasks_in_emptied::<T>(state.slots(at), address.1 as int, task);
    let tasks = tasks_in::<T>(after.slots(at));
    assert(after.slots(at) == state.slots(at).update(address.1 as int, None));
    assert(pending(state) =~= pending(state).add(tasks).sub(tasks));
    assert(pending(after).insert(task) =~= pending(after).add(tasks.insert(task)).sub(tasks));
}

/// To schedule a task adds that task to the pending ones and changes no other; a request that is
/// refused changes none.
pub proof fn law_schedule_adds_one_task<T: Config>(
    runtime: T,
    state: State<T>,
    when: DispatchTime<BlockNumber>,
    task: TaskOf<T>,
)
    ensures
        ({
            let outcome = schedule_named_outcome(runtime, state, when, task);
            pending(outcome.state) == match outcome.result {
                Ok(_) => pending(state).insert(
                    Task { periodic: sanitized(task.periodic), ..task },
                ),
                Err(_) => pending(state),
            }
        }),
{
    let outcome = schedule_named_outcome(runtime, state, when, task);
    if let Ok(address) = outcome.result {
        let placed = Task { periodic: sanitized(task.periodic), ..task };
        lemma_pending_appended(state, address.0, placed);
        lemma_pending_same(state.appended(address.0, placed), outcome.state);
    }
}

/// To cancel a task takes that task off the pending ones and changes no other; a request that is
/// refused changes none.
pub proof fn law_cancel_takes_one_task<T: Config>(
    runtime: T,
    state: State<T>,
    origin: Option<T::PalletsOrigin>,
    address: TaskAddress<BlockNumber>,
    id: Seq<u8>,
)
    ensures
        ({
            let outcome = cancel_outcome(runtime, state, origin, address);
            match outcome.result {
                Ok(_) => {
                    &&& state.task_at(address) is Some
                    &&& pending(outcome.state).insert(state.task_at(address)->0) == pending(state)
                },
                Err(_) => pending(outcome.state) == pending(state),
            }
        }),
        ({
            let outcome = cancel_named_outcome(runtime, state, origin, id);
            match outcome.result {
                Ok(_) => match state.task_at(state.lookup[id]) {
                    Some(task) => pending(outcome.state).insert(task) == pending(state),
                    None => pending(outcome.state) == pending(state),
                },
                Err(_) => pending(outcome.state) == pending(state),
            }
        }),
{
    let outcome = cancel_outcome(runtime, state, origin, address);
    if outcome.result is Ok {
        lemma_pending_emptied(state, address, state.task_at(address)->0);
        lemma_pending_same(state.emptied(address), outcome.state);
    } else {
        lemma_pending_same(state, outcome.state);
    }
    let outcome = cancel_named_outcome(runtime, state, origin, id);
    if outcome.result is Ok && state.task_at(state.lookup[id]) is Some {
        lemma_pending_emptied(state, state.lookup[id], state.task_at(state.lookup[id])->0);
        lemma_pending_same(state.emptied(state.lookup[id]), outcome.state);
    } else {
        lemma_pending_same(state, outcome.state);
    }
}

/// To move a task, by its address or by its name, neither adds a task nor loses one: the same tasks
/// are pending as before, whether the request is granted or refused.
pub proof fn law_moves_keep_the_pending_tasks<T: Config>(
    runtime: T,
    state: State<T>,
    address: TaskAddress<BlockNumber>,
    id: Seq<u8>,
    when: DispatchTime<BlockNumber>,
)
    ensures
        pending(reschedule_outcome(runtime, state, address, when).state) == pending(state),
        pending(reschedule_named_outcome(runtime, state, id, when).state) == pending(state),
{
    lemma_move_keeps_pending(runtime, state, address, when);
    if state.lookup.contains_key(id) {
        lemma_move_keeps_pending(runtime, state, state.lookup[id], when);
        lemma_pending_same(
            reschedule_outcome(runtime, state, state.lookup[id], when).state,
            reschedule_named_outcome(runtime, state, id, when).state,
        );
    }
}

proof fn lemma_move_keeps_pending<T: Config>(
    runtime: T,
    state: State<T>,
    address: TaskAddress<BlockNumber>,
    when: DispatchTime<BlockNumber>,
)
    ensures
        pending(reschedule_outcome(runtime, state, address, when).state) == pending(state),
{
    let outcome = reschedule_outcome(runtime, state, address, when);
    if let Ok(to) = outcome.result {
        let task = state.task_at(address)->0;
        let emptied = state.emptied(address);
        lemma_pending_emptied(state, address, task);
        lemma_pending_appended(emptied, to.0, task);
        lemma_pending_same(emptied.appended(to.0, task), outcome.state);
    }
}

/// What a turn puts on an agenda: the task as it is put off, or with one repetition less, or
/// nothing.
pub open spec fn kept_in_turn<T: Dispatchable>(
    progress: Progress<T>,
    limit: Weight,
    order: nat,
    task: FoundTaskOf<T>,
) -> Multiset<TaskOf<T>> {
    match task.call {
        Ok(call) => {
            let kept = with_call::<T>(task, call);
            if !is_dispatched(progress, limit, order, task) {
                Multiset::singleton(kept)
            } else if task.periodic is Some {
                Multiset::singleton(Task { periodic: remaining(task.periodic), ..kept })
            } else {
                Multiset::empty()
            }
        },
        Err(_) => Multiset::empty(),
    }
}

/// What the turns of a queue put on agendas.
pub open spec fn kept_in_turns<T: Dispatchable>(
    start: Progress<T>,
    now: BlockNumber,
    limit: Weight,
    queue: Seq<DueTask<T>>,
) -> Multiset<TaskOf<T>>
    decreases queue.len(),
{
    if queue.len() == 0 {
        Multiset::empty()
    } else {
        kept_in_turns(start, now, limit, queue.drop_last()).add(
            kept_in_turn(
                turns(start, now, limit, queue.drop_last()),
                limit,
                (queue.len() - 1) as nat,
                queue.last().1,
            ),
        )
    }
}

/// A turn adds to the pending tasks what it puts on an agenda, besides what the call that it
/// dispatches makes of them, and changes no other.
pub proof fn law_a_turn_and_the_pending_tasks<T: Dispatchable>(
    progress: Progress<T>,
    now: BlockNumber,
    limit: Weight,
    order: nat,
    due: DueTask<T>,
)
    ensures
        ({
            let task = due.1;
            let called = if is_dispatched(progress, limit, order, task) {
                progress.runtime.dispatched(progress.state, task.origin, task.call->Ok_0).1
            } else {
                progress.state
            };
            pending(turn(progress, now, limit, order, due).state) == pending(called).add(
                kept_in_turn(progress, limit, order, task),
            )
        }),
{
    let task = due.1;
    let after = turn(progress, now, limit, order, due).state;
    let kept_here = kept_in_turn(progress, limit, order, task);
    let called = if is_dispatched(progress, limit, order, task) {
        progress.runtime.dispatched(progress.state, task.origin, task.call->Ok_0).1
    } else {
        progress.state
    };
    match task.call {
        Ok(call) => {
            let kept = with_call::<T>(task, call);
            if is_dispatched(progress, limit, order, task) {
                match task.periodic {
                    Some((period, _)) => {
                        let next = (now + period) as BlockNumber;
                        let again = Task { periodic: remaining(task.periodic), ..kept };
                        lemma_pending_appended(called, next, again);
                        lemma_pending_same(called.appended(next, again), after);
                        assert(pending(called).insert(again) =~= pending(called).add(kept_here));
                    },
                    None => {
                        lemma_pending_same(called, after);
                        assert(pending(called) =~= pending(called).add(kept_here));
                    },
                }
            } else {
                let next = (now + 1) as BlockNumber;
                lemma_pending_appended(called, next, kept);
                lemma_pending_same(called.appended(next, kept), after);
                assert(pending(called).insert(kept) =~= pending(called).add(kept_here));
            }
        },
        Err(_) => {
            lemma_pending_same(called, after);
            assert(pending(called) =~= pending(called).add(kept_here));
        },
    }
}

/// The calls that are dispatched in the turns of a queue leave the same tasks pending.
pub open spec fn calls_keep_pending<T: Dispatchable>(
    start: Progress<T>,
    now: BlockNumber,
    limit: Weight,
    queue: Seq<DueTask<T>>,
) -> bool
    decreases queue.len(),
{
    queue.len() > 0 ==> {
        let before = turns(start, now, limit, queue.drop_last());
        let task = queue.last().1;
        &&& calls_keep_pending(start, now, limit, queue.drop_last())
        &&& is_dispatched(before, limit, (queue.len() - 1) as nat, task) ==> pending(
            before.runtime.dispatched(before.state, task.origin, task.call->Ok_0).1,
        ) == pending(before.state)
    }
}

proof fn lemma_turns_pending<T: Dispatchable>(
    start: Progress<T>,
    now: BlockNumber,
    limit: Weight,
    queue: Seq<DueTask<T>>,
)
    requires
        calls_keep_pending(start, now, limit, queue),
    ensures
        pending(turns(start, now, limit, queue).state) == pending(start.state).add(
            kept_in_turns(start, now, limit, queue),
        ),
    decreases queue.len(),
{
    let kept = kept_in_turns(start, now, limit, queue);
    if queue.len() == 0 {
        assert(pending(start.state) =~= pending(start.state).add(kept));
    } else {
        let rest = queue.drop_last();
        let order = (queue.len() - 1) as nat;
        let before = turns(start, now, limit, rest);
        lemma_turns_pending(start, now, limit, rest);
        law_a_turn_and_the_pending_tasks(before, now, limit, order, queue.last());
        assert(pending(start.state).add(kept_in_turns(start, now, limit, rest)).add(
            kept_in_turn(before, limit, order, queue.last().1),
        ) =~= pending(start.state).add(kept));
    }
}

/// The start of a block takes the tasks on the agenda of the block off the pending ones, and adds
/// those that are put off and the periodic ones that have executions left; it changes no other,
/// where the calls that it dispatches do not.
pub proof fn law_block_start_and_the_pending_tasks<T: Dispatchable>(
    runtime: T,
    state: State<T>,
    now: BlockNumber,
)
    requires
        calls_keep_pending(
            started(runtime, state, now),
            now,
            runtime.weight_limit(),
            by_priority::<T>(gathered(runtime, state.slots(now)).queue),
        ),
    ensures
        pending(initialized(runtime, state, now).state).add(tasks_in::<T>(state.slots(now)))
            == pending(state).add(
            kept_in_turns(
                started(runtime, state, now),
                now,
                runtime.weight_limit(),
                by_priority::<T>(gathered(runtime, state.slots(now)).queue),
            ),
        ),
{
    let start = started(runtime, state, now);
    let limit = runtime.weight_limit();
    let queue = by_priority::<T>(gathered(runtime, state.slots(now)).queue);
    let kept = kept_in_turns(start, now, limit, queue);
    let tasks = tasks_in::<T>(state.slots(now));
    lemma_turns_pending(start, now, limit, queue);
    lemma_pending_differ(state, start.state, now, (BlockNumber::MAX + 1) as nat);
    assert(pending(start.state).add(tasks) =~= pending(state));
    assert(pending(start.state).add(kept).add(tasks) =~= pending(start.state).add(tasks).add(kept));
}

} // verus!
