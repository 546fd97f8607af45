//! What becomes of the task in one slot, at the start of a block and over a run of blocks.
use vstd::prelude::*;

use crate::calls::{sanitized, schedule_named_outcome};
use crate::config::Config;
use crate::hooks::{
    gathered, is_dispatched, period_fits, remaining, started, turn, turns, with_call, with_found,
    Dispatchable, Progress,
};
use crate::laws::{
    executions, found_call, law_periodic_task_is_executed_as_often_as_asked, times_asked,
};
use crate::pallet::{State, TaskOf};
use crate::queue::{
    by_priority, lemma_filter_agree, lemma_filter_kept_one, lemma_filter_none,
    lemma_ranked_from_queue, lemma_ranking_keeps, DueTask, FoundTaskOf,
};
use crate::runs::{
    alike, found_alike, left_by, lemma_times_asked, started_with, Between, Sought,
};
use crate::times::{
    executions_from, has_length, is_in, left_in, lemma_next_time_form, lemma_next_time_step,
    next_time, nth_time, period_length, place_after, place_from, Place,
};
use crate::types::{
    BlockNumber, DispatchTime, LookupError, Period, Task, TaskAddress, HARD_DEADLINE,
};
use crate::weights::Weight;

verus! {

/// The gathered task of a slot is the only one with the index of the slot.
proof fn lemma_gathered_index<T: Config>(
    runtime: T,
    slots: Seq<Option<TaskOf<T>>>,
    index: u32,
)
    requires
        slots.len() <= u32::MAX + 1,
    ensures
        ({
            let queue = gathered(runtime, slots).queue;
            &&& queue.filter(|due: DueTask<T>| due.0 == index).len() == (if index < slots.len()
                && slots[index as int] is Some {
                1nat
            } else {
                0
            })
            &&& forall|k: int|
                0 <= k < queue.len() && (#[trigger] queue[k]).0 == index ==> {
                    let task = slots[index as int]->0;
                    let before = gathered(runtime, slots.take(index as int)).runtime;
                    &&& index < slots.len()
                    &&& slots[index as int] is Some
                    &&& queue[k].1 == with_found::<T>(task, found_call(before, task.call))
                }
        }),
    decreases slots.len(),
{
    reveal(Seq::filter);
    let pred = |due: DueTask<T>| due.0 == index;
    let after = gathered(runtime, slots).queue;
    if slots.len() > 0 {
        let rest = slots.drop_last();
        let last = slots.len() - 1;
        let before = gathered(runtime, rest).queue;
        lemma_gathered_index(runtime, rest, index);
        assert(slots.last() == slots[last]);
        assert(slots.take(last) =~= rest);
        if index < last {
            assert(rest[index as int] == slots[index as int]);
            assert(rest.take(index as int) =~= slots.take(index as int));
        }
        if slots.last() is Some {
            assert(after.drop_last() =~= before);
            assert(after.last().0 == last);
            assert forall|k: int| 0 <= k < after.len() && (#[trigger] after[k]).0 == index implies {
                let task = slots[index as int]->0;
                let earlier = gathered(runtime, slots.take(index as int)).runtime;
                &&& index < slots.len()
                &&& slots[index as int] is Some
                &&& after[k].1 == with_found::<T>(task, found_call(earlier, task.call))
            } by {
                if k < before.len() {
                    assert(after[k] == before[k]);
                }
            }
        } else {
            assert(after == before);
        }
    } else {
        assert(after.filter(pred).len() == 0);
    }
}

/// So it is in the order of the turns.
proof fn lemma_ranked_index<T: Config>(runtime: T, slots: Seq<Option<TaskOf<T>>>, index: u32)
    requires
        slots.len() <= u32::MAX + 1,
    ensures
        ({
            let ranking = by_priority::<T>(gathered(runtime, slots).queue);
            &&& ranking.filter(|due: DueTask<T>| due.0 == index).len() == (if index < slots.len()
                && slots[index as int] is Some {
                1nat
            } else {
                0
            })
            &&& forall|k: int|
                0 <= k < ranking.len() && (#[trigger] ranking[k]).0 == index ==> {
                    let task = slots[index as int]->0;
                    let before = gathered(runtime, slots.take(index as int)).runtime;
                    &&& index < slots.len()
                    &&& slots[index as int] is Some
                    &&& ranking[k].1 == with_found::<T>(task, found_call(before, task.call))
                }
        }),
{
    let queue = gathered(runtime, slots).queue;
    let ranking = by_priority::<T>(queue);
    let priority = slots[index as int]->0.priority;
    let pred = |due: DueTask<T>| due.0 == index;
    let ranked = |due: DueTask<T>| due.0 == index && due.1.priority == priority;
    lemma_gathered_index(runtime, slots, index);
    assert forall|k: int| 0 <= k < ranking.len() && (#[trigger] ranking[k]).0 == index implies {
        let task = slots[index as int]->0;
        let before = gathered(runtime, slots.take(index as int)).runtime;
        &&& index < slots.len()
        &&& slots[index as int] is Some
        &&& ranking[k].1 == with_found::<T>(task, found_call(before, task.call))
    } by {
        lemma_ranked_from_queue::<T>(queue, 256, k);
        let j = choose|j: int| 0 <= j < queue.len() && queue[j] == ranking[k];
        assert(queue[j].0 == index);
    }
    lemma_filter_agree(queue, pred, ranked);
    lemma_filter_agree(ranking, pred, ranked);
    lemma_ranking_keeps::<T>(queue, ranked, priority);
}

/// The task in a slot of the block has its turn once, with the index of its slot and its call
/// looked up; and where the call is known and has a hard deadline, it is then dispatched. This is
/// so whatever other tasks there are, be they equal to it.
pub proof fn law_each_task_has_one_turn<T: Dispatchable>(
    runtime: T,
    state: State<T>,
    now: BlockNumber,
    index: u32,
)
    requires
        state.slots(now).len() <= u32::MAX + 1,
        state.task_at((now, index)) is Some,
    ensures
        ({
            let task = state.task_at((now, index))->0;
            let limit = runtime.weight_limit();
            let queue = by_priority::<T>(gathered(runtime, state.slots(now)).queue);
            let before = gathered(runtime, state.slots(now).take(index as int)).runtime;
            &&& exists|k: int| 0 <= k < queue.len() && (#[trigger] queue[k]).0 == index
            &&& forall|j: int, k: int|
                0 <= j < queue.len() && 0 <= k < queue.len() && (#[trigger] queue[j]).0 == index
                    && (#[trigger] queue[k]).0 == index ==> j == k
            &&& forall|k: int|
                0 <= k < queue.len() && (#[trigger] queue[k]).0 == index ==> {
                    &&& queue[k].1 == with_found::<T>(task, found_call(before, task.call))
                    &&& queue[k].1.call is Ok && task.priority <= HARD_DEADLINE ==> is_dispatched(
                        turns(started(runtime, state, now), now, limit, queue.take(k)),
                        limit,
                        k as nat,
                        queue[k].1,
                    )
                    &&& task.call is Value ==> queue[k].1.call is Ok
                }
        }),
{
    let queue = by_priority::<T>(gathered(runtime, state.slots(now)).queue);
    let pred = |due: DueTask<T>| due.0 == index;
    lemma_ranked_index(runtime, state.slots(now), index);
    lemma_filter_kept_one(queue, pred);
    let k = choose|k: int| 0 <= k < queue.len() && pred(#[trigger] queue[k]);
    assert(queue[k].0 == index);
    assert forall|i: int, j: int|
        0 <= i < queue.len() && 0 <= j < queue.len() && (#[trigger] queue[i]).0 == index && (
        #[trigger] queue[j]).0 == index implies i == j by {
        assert(pred(queue[i]) && pred(queue[j]));
    }
}

/// The state in which a turn finds the agendas that it puts its task on.
pub open spec fn after_call<T: Dispatchable>(
    progress: Progress<T>,
    limit: Weight,
    order: nat,
    task: FoundTaskOf<T>,
) -> State<T> {
    if is_dispatched(progress, limit, order, task) {
        progress.runtime.dispatched(progress.state, task.origin, task.call->Ok_0).1
    } else {
        progress.state
    }
}

/// The address that a task gets in its turn, if it is put on an agenda.
pub open spec fn turn_leads_to<T: Dispatchable>(
    progress: Progress<T>,
    now: BlockNumber,
    limit: Weight,
    order: nat,
    task: FoundTaskOf<T>,
) -> Option<TaskAddress<BlockNumber>> {
    let state = after_call(progress, limit, order, task);
    if task.call is Err {
        None
    } else if !is_dispatched(progress, limit, order, task) {
        Some(state.next_address((now + 1) as BlockNumber))
    } else {
        match task.periodic {
            Some((period, _)) => Some(state.next_address((now + period) as BlockNumber)),
            None => None,
        }
    }
}

/// Where the turns of a queue leave a task: that with the index, if one is given, goes where its
/// turn puts it; until then, and without an index, the task is where it was.
pub open spec fn turns_lead_to<T: Dispatchable>(
    start: Progress<T>,
    now: BlockNumber,
    limit: Weight,
    queue: Seq<DueTask<T>>,
    index: Option<u32>,
    from: Option<TaskAddress<BlockNumber>>,
) -> Option<TaskAddress<BlockNumber>>
    decreases queue.len(),
{
    if queue.len() == 0 {
        from
    } else if index == Some(queue.last().0) {
        turn_leads_to(
            turns(start, now, limit, queue.drop_last()),
            now,
            limit,
            (queue.len() - 1) as nat,
            queue.last().1,
        )
    } else {
        turns_lead_to(start, now, limit, queue.drop_last(), index, from)
    }
}

/// How often the task with the index is dispatched in the turns of a queue.
pub open spec fn slot_dispatches<T: Dispatchable>(
    start: Progress<T>,
    now: BlockNumber,
    limit: Weight,
    queue: Seq<DueTask<T>>,
    index: Option<u32>,
) -> nat
    decreases queue.len(),
{
    if queue.len() == 0 {
        0
    } else {
        let this: nat = if index == Some(queue.last().0) && is_dispatched(
            turns(start, now, limit, queue.drop_last()),
            limit,
            (queue.len() - 1) as nat,
            queue.last().1,
        ) {
            1
        } else {
            0
        };
        slot_dispatches(start, now, limit, queue.drop_last(), index) + this
    }
}

/// The calls that are dispatched in the turns of a queue neither cancel nor move the task, wherever
/// it is by then; and the agenda that its own turn puts it on has room for it: an index tells the
/// slots of an agenda apart.
pub open spec fn turns_keep_slot<T: Dispatchable>(
    start: Progress<T>,
    now: BlockNumber,
    limit: Weight,
    queue: Seq<DueTask<T>>,
    index: Option<u32>,
    from: Option<TaskAddress<BlockNumber>>,
) -> bool
    decreases queue.len(),
{
    queue.len() > 0 ==> {
        let before = turns(start, now, limit, queue.drop_last());
        let order = (queue.len() - 1) as nat;
        let (due_index, task) = queue.last();
        let state = after_call(before, limit, order, task);
        &&& turns_keep_slot(start, now, limit, queue.drop_last(), index, from)
        &&& turns_lead_to(start, now, limit, queue.drop_last(), index, from) matches Some(at)
            ==> state.task_at(at) == before.state.task_at(at)
        &&& index == Some(due_index) ==> (turn_leads_to(
            before,
            now,
            limit,
            order,
            task,
        ) matches Some(to) ==> state.slots(to.0).len() <= u32::MAX)
    }
}

/// The index of the task in the block that is started, if it is on the agenda of the block.
pub open spec fn index_in(address: TaskAddress<BlockNumber>, now: BlockNumber) -> Option<u32> {
    if address.0 == now {
        Some(address.1)
    } else {
        None
    }
}

/// Where the task is while the agenda of the block is taken.
pub open spec fn apart_from(address: TaskAddress<BlockNumber>, now: BlockNumber) -> Option<
    TaskAddress<BlockNumber>,
> {
    if address.0 == now {
        None
    } else {
        Some(address)
    }
}

/// Where the start of a block leaves the task of an address.
pub open spec fn block_leads_to<T: Dispatchable>(
    runtime: T,
    state: State<T>,
    now: BlockNumber,
    address: TaskAddress<BlockNumber>,
) -> Option<TaskAddress<BlockNumber>> {
    turns_lead_to(
        started(runtime, state, now),
        now,
        runtime.weight_limit(),
        by_priority::<T>(gathered(runtime, state.slots(now)).queue),
        index_in(address, now),
        apart_from(address, now),
    )
}

/// How often the start of a block dispatches the task of an address.
pub open spec fn block_slot_dispatches<T: Dispatchable>(
    runtime: T,
    state: State<T>,
    now: BlockNumber,
    address: TaskAddress<BlockNumber>,
) -> nat {
    slot_dispatches(
        started(runtime, state, now),
        now,
        runtime.weight_limit(),
        by_priority::<T>(gathered(runtime, state.slots(now)).queue),
        index_in(address, now),
    )
}

/// At the start of a block nothing cancels or moves the task of an address; and where it is on the
/// agenda of the block, it is found to have the call.
pub open spec fn block_keeps_slot<T: Dispatchable>(
    runtime: T,
    state: State<T>,
    now: BlockNumber,
    address: TaskAddress<BlockNumber>,
    call: T::Call,
) -> bool {
    &&& turns_keep_slot(
        started(runtime, state, now),
        now,
        runtime.weight_limit(),
        by_priority::<T>(gathered(runtime, state.slots(now)).queue),
        index_in(address, now),
        apart_from(address, now),
    )
    &&& address.0 == now ==> {
        &&& state.slots(now).len() <= u32::MAX + 1
        &&& state.task_at(address) matches Some(task) ==> found_call(
            gathered(runtime, state.slots(now).take(address.1 as int)).runtime,
            task.call,
        ) == Ok::<T::Call, LookupError>(call)
    }
}

/// Where the task of an address is after the first blocks of a run, if it is on an agenda.
pub open spec fn address_after<T: Dispatchable>(
    between: Between<T>,
    begin: (T, State<T>),
    first: BlockNumber,
    count: nat,
    address: TaskAddress<BlockNumber>,
) -> Option<TaskAddress<BlockNumber>>
    decreases count,
{
    if count == 0 {
        Some(address)
    } else {
        let (runtime, state) = started_with(between, begin, first, (count - 1) as nat);
        match address_after(between, begin, first, (count - 1) as nat, address) {
            Some(at) => block_leads_to(runtime, state, (first + count - 1) as BlockNumber, at),
            None => None,
        }
    }
}

/// How often the task of an address is dispatched in the block `first + count` of a run.
pub open spec fn dispatches_after<T: Dispatchable>(
    between: Between<T>,
    begin: (T, State<T>),
    first: BlockNumber,
    count: nat,
    address: TaskAddress<BlockNumber>,
) -> nat {
    let (runtime, state) = started_with(between, begin, first, count);
    match address_after(between, begin, first, count, address) {
        Some(at) => block_slot_dispatches(runtime, state, (first + count) as BlockNumber, at),
        None => 0,
    }
}

/// How often the task of an address is dispatched in the first blocks of a run.
pub open spec fn run_slot_dispatches<T: Dispatchable>(
    between: Between<T>,
    begin: (T, State<T>),
    first: BlockNumber,
    count: nat,
    address: TaskAddress<BlockNumber>,
) -> nat
    decreases count,
{
    if count == 0 {
        0
    } else {
        run_slot_dispatches(between, begin, first, (count - 1) as nat, address) + dispatches_after(
            between,
            begin,
            first,
            (count - 1) as nat,
            address,
        )
    }
}

/// Nothing in a run of blocks cancels or moves the task of an address, wherever it is by then: not
/// what happens between the blocks up to the start of `first + count`, nor a call that is
/// dispatched in one of them. And in its blocks the task is found to have the call.
pub open spec fn run_keeps_slot<T: Dispatchable>(
    between: Between<T>,
    begin: (T, State<T>),
    first: BlockNumber,
    count: nat,
    address: TaskAddress<BlockNumber>,
    call: T::Call,
) -> bool
    decreases count,
{
    let (runtime, state) = started_with(between, begin, first, count);
    &&& address_after(between, begin, first, count, address) matches Some(at) ==> {
        &&& state.task_at(at) == left_by(between, begin, first, count).1.task_at(at)
        &&& block_keeps_slot(runtime, state, (first + count) as BlockNumber, at, call)
    }
    &&& count > 0 ==> run_keeps_slot(between, begin, first, (count - 1) as nat, address, call)
}

/// The task is at the address, in the block and with the repetitions of the place; or both are
/// none.
spec fn held_at<T: Config>(
    state: State<T>,
    address: Option<TaskAddress<BlockNumber>>,
    sought: Sought<T>,
    place: Place,
) -> bool {
    match address {
        Some(at) => {
            &&& is_in(place, at.0 as int)
            &&& state.task_at(at) matches Some(held) && alike::<T>(held, sought) && held.periodic
                == left_in(place, at.0 as int)
        },
        None => place is None,
    }
}

/// A turn leaves a task of another slot where it is, if the call that it dispatches does.
proof fn lemma_turn_keeps_slot<T: Dispatchable>(
    before: Progress<T>,
    now: BlockNumber,
    limit: Weight,
    order: nat,
    due: DueTask<T>,
    at: TaskAddress<BlockNumber>,
)
    requires
        before.state.task_at(at) is Some,
        after_call(before, limit, order, due.1).task_at(at) == before.state.task_at(at),
    ensures
        turn(before, now, limit, order, due).state.task_at(at) == before.state.task_at(at),
{
}

/// The turn of the task itself.
proof fn lemma_own_turn<T: Dispatchable>(
    before: Progress<T>,
    now: BlockNumber,
    limit: Weight,
    order: nat,
    due: DueTask<T>,
    sought: Sought<T>,
)
    requires
        sought.task.priority <= HARD_DEADLINE,
        found_alike::<T>(due.1, sought),
        period_fits(now, due.1.periodic),
        turn_leads_to(before, now, limit, order, due.1) matches Some(to) ==> after_call(
            before,
            limit,
            order,
            due.1,
        ).slots(to.0).len() <= u32::MAX,
    ensures
        is_dispatched(before, limit, order, due.1),
        held_at(
            turn(before, now, limit, order, due).state,
            turn_leads_to(before, now, limit, order, due.1),
            sought,
            place_after(now as int, due.1.periodic),
        ),
{
    let task = due.1;
    if let Some((period, _)) = task.periodic {
        let next = (now + period) as BlockNumber;
        let state = after_call(before, limit, order, task);
        let after = turn(before, now, limit, order, due).state;
        let again = Task {
            periodic: remaining(task.periodic),
            ..with_call::<T>(task, sought.call)
        };
        assert(after.slots(next) == state.slots(next).push(Some(again)));
        assert(after.task_at(state.next_address(next)) == Some(again));
    }
}

/// All turns of a queue in which the task has at most one.
proof fn lemma_turns_slot<T: Dispatchable>(
    start: Progress<T>,
    now: BlockNumber,
    limit: Weight,
    queue: Seq<DueTask<T>>,
    index: Option<u32>,
    from: Option<TaskAddress<BlockNumber>>,
    sought: Sought<T>,
    place: Place,
    periodic: Option<Period<BlockNumber>>,
)
    requires
        sought.task.priority <= HARD_DEADLINE,
        held_at(start.state, from, sought, place),
        turns_keep_slot(start, now, limit, queue, index, from),
        period_fits(now, periodic),
        forall|k: int|
            0 <= k < queue.len() && index == Some((#[trigger] queue[k]).0) ==> found_alike::<T>(
                queue[k].1,
                sought,
            ) && queue[k].1.periodic == periodic,
        queue.filter(|due: DueTask<T>| index == Some(due.0)).len() <= (if place is None {
            1nat
        } else {
            0
        }),
    ensures
        ({
            let own = queue.filter(|due: DueTask<T>| index == Some(due.0)).len();
            &&& slot_dispatches(start, now, limit, queue, index) == own
            &&& held_at(
                turns(start, now, limit, queue).state,
                turns_lead_to(start, now, limit, queue, index, from),
                sought,
                if own == 1 {
                    place_after(now as int, periodic)
                } else {
                    place
                },
            )
        }),
    decreases queue.len(),
{
    reveal(Seq::filter);
    let pred = |due: DueTask<T>| index == Some(due.0);
    if queue.len() > 0 {
        let rest = queue.drop_last();
        let due = queue.last();
        let order = (queue.len() - 1) as nat;
        let before = turns(start, now, limit, rest);
        assert(due == queue[order as int]);
        assert forall|k: int|
            0 <= k < rest.len() && index == Some(
                (#[trigger] rest[k]).0,
            ) implies found_alike::<T>(rest[k].1, sought) && rest[k].1.periodic == periodic by {
            assert(rest[k] == queue[k]);
        }
        assert(queue.filter(pred).len() == rest.filter(pred).len() + (if pred(due) {
            1nat
        } else {
            0
        }));
        lemma_turns_slot(start, now, limit, rest, index, from, sought, place, periodic);
        if pred(due) {
            lemma_own_turn(before, now, limit, order, due, sought);
        } else if let Some(at) = turns_lead_to(start, now, limit, rest, index, from) {
            lemma_turn_keeps_slot(before, now, limit, order, due, at);
        }
    } else {
        assert(queue.filter(pred).len() == 0);
    }
}

/// The start of a block dispatches the task of an address where that is on the agenda of the block,
/// once, and not else; and leaves it where it is to be dispatched next.
proof fn lemma_block_slot<T: Dispatchable>(
    runtime: T,
    state: State<T>,
    now: BlockNumber,
    address: TaskAddress<BlockNumber>,
    sought: Sought<T>,
    place: Place,
)
    requires
        sought.task.priority <= HARD_DEADLINE,
        held_at(state, Some(address), sought, place),
        block_keeps_slot(runtime, state, now, address, sought.call),
        period_fits(now, left_in(place, now as int)),
    ensures
        block_slot_dispatches(runtime, state, now, address) == (if is_in(place, now as int) {
            1nat
        } else {
            0
        }),
        held_at(
            turns(
                started(runtime, state, now),
                now,
                runtime.weight_limit(),
                by_priority::<T>(gathered(runtime, state.slots(now)).queue),
            ).state,
            block_leads_to(runtime, state, now, address),
            sought,
            place_from(place, now as int),
        ),
{
    let slots = state.slots(now);
    let queue = by_priority::<T>(gathered(runtime, slots).queue);
    let start = started(runtime, state, now);
    let index = index_in(address, now);
    let from = apart_from(address, now);
    let periodic = left_in(place, now as int);
    let pred = |due: DueTask<T>| index == Some(due.0);
    let taken: Place = if address.0 == now {
        None
    } else {
        place
    };
    if address.0 == now {
        let slot = address.1;
        let by_slot = |due: DueTask<T>| due.0 == slot;
        lemma_ranked_index(runtime, slots, slot);
        lemma_filter_agree(queue, pred, by_slot);
        assert forall|k: int|
            0 <= k < queue.len() && index == Some(
                (#[trigger] queue[k]).0,
            ) implies found_alike::<T>(queue[k].1, sought) && queue[k].1.periodic == periodic by {
            assert(queue[k].0 == address.1);
        }
    } else {
        lemma_filter_none(queue, pred);
        assert(start.state.slots(address.0) == state.slots(address.0));
    }
    lemma_turns_slot(
        start,
        now,
        runtime.weight_limit(),
        queue,
        index,
        from,
        sought,
        taken,
        periodic,
    );
}

/// After the first blocks of a run the task is where it is to be dispatched next, and of its
/// executions those are left that are to come.
proof fn lemma_run_slot<T: Dispatchable>(
    between: Between<T>,
    begin: (T, State<T>),
    first: BlockNumber,
    count: nat,
    address: TaskAddress<BlockNumber>,
    sought: Sought<T>,
    periodic: Option<Period<BlockNumber>>,
)
    requires
        sought.task.priority <= HARD_DEADLINE,
        has_length(periodic),
        first <= address.0,
        nth_time(address.0 as int, period_length(periodic), executions(periodic) - 1)
            <= BlockNumber::MAX,
        first + count <= BlockNumber::MAX + 1,
        held_at(begin.1, Some(address), sought, Some((address.0 as int, periodic))),
        count > 0 ==> run_keeps_slot(
            between,
            begin,
            first,
            (count - 1) as nat,
            address,
            sought.call,
        ),
    ensures
        held_at(
            left_by(between, begin, first, count).1,
            address_after(between, begin, first, count, address),
            sought,
            next_time(address.0 as int, periodic, first + count),
        ),
        run_slot_dispatches(between, begin, first, count, address) + executions_from(
            next_time(address.0 as int, periodic, first + count),
        ) == executions(periodic),
    decreases count,
{
    let at = address.0 as int;
    if count > 0 {
        let before = (count - 1) as nat;
        let now = (first + before) as BlockNumber;
        lemma_run_slot(between, begin, first, before, address, sought, periodic);
        let place = next_time(at, periodic, now as int);
        let (runtime, state) = started_with(between, begin, first, before);
        lemma_next_time_step(at, periodic, now as int);
        lemma_next_time_form(at, periodic, now as int);
        lemma_next_time_form(at, periodic, now + 1);
        if let Some(stood) = address_after(between, begin, first, before, address) {
            lemma_block_slot(runtime, state, now, stood, sought, place);
        }
    }
}

/// A task with a hard deadline is dispatched in the block that it was scheduled for, and again
/// after each period, as often in total as was asked for, and in no other block; then it is on no
/// agenda. Its call is known when it is scheduled, or found in the block that it was scheduled for.
///
/// The task is followed from slot to slot, so that this is so whatever other tasks there are, be
/// they equal to it, for as long as nothing cancels or moves the task itself.
///
/// The run begins with the block after the one in which the task was scheduled, and `count` is the
/// number of the block in it.
pub proof fn law_each_task_runs_at_its_times<T: Dispatchable>(
    runtime: T,
    state: State<T>,
    when: DispatchTime<BlockNumber>,
    sought: Sought<T>,
    between: Between<T>,
    count: nat,
)
    requires
        sought.is_consistent(),
        sought.task.priority <= HARD_DEADLINE,
        state.has_room(runtime.now(), when),
        ({
            let scheduled = schedule_named_outcome(runtime, state, when, sought.task);
            let address = scheduled.result->Ok_0;
            let length = period_length(sought.task.periodic);
            let last = nth_time(address.0 as int, length, times_asked(sought.task.periodic) - 1);
            let first = (runtime.now() + 1) as BlockNumber;
            &&& scheduled.result is Ok
            &&& last <= BlockNumber::MAX
            &&& first + count <= BlockNumber::MAX
            &&& run_keeps_slot(
                between,
                (scheduled.runtime, scheduled.state),
                first,
                count,
                address,
                sought.call,
            )
        }),
    ensures
        ({
            let scheduled = schedule_named_outcome(runtime, state, when, sought.task);
            let begin = (scheduled.runtime, scheduled.state);
            let address = scheduled.result->Ok_0;
            let times = times_asked(sought.task.periodic);
            let length = period_length(sought.task.periodic);
            let last = nth_time(address.0 as int, length, times - 1);
            let first = (runtime.now() + 1) as BlockNumber;
            let now = (first + count) as BlockNumber;
            let now_state = started_with(between, begin, first, count).1;
            let stands = address_after(between, begin, first, count, address);
            // Until its last block the task is on an agenda, of the block or of a later one.
            &&& stands is Some <==> now <= last
            &&& stands matches Some(at) ==> at.0 >= now && (now_state.task_at(
                at,
            ) matches Some(held) && alike::<T>(held, sought))
            // In each block it is dispatched once or not at all.
            &&& dispatches_after(between, begin, first, count, address) == (if exists|k: int|
                0 <= k < times && now == #[trigger] nth_time(address.0 as int, length, k) {
                1nat
            } else {
                0
            })
            // With the last block all executions are done, and the task is on no agenda.
            &&& now >= last ==> {
                &&& run_slot_dispatches(between, begin, first, count + 1, address) == times
                &&& address_after(between, begin, first, count + 1, address) is None
            }
        }),
{
    let task = sought.task;
    let scheduled = schedule_named_outcome(runtime, state, when, task);
    let begin = (scheduled.runtime, scheduled.state);
    let address = scheduled.result->Ok_0;
    let at = address.0 as int;
    let periodic = sanitized(task.periodic);
    let first = (runtime.now() + 1) as BlockNumber;
    let now = (first + count) as BlockNumber;
    let place = next_time(at, periodic, now as int);
    law_periodic_task_is_executed_as_often_as_asked(task.periodic);
    lemma_times_asked(at, task.periodic);
    assert(scheduled.state.task_at(address) == Some(Task { periodic, ..task }));
    assert(held_at(begin.1, Some(address), sought, Some((at, periodic))));
    lemma_run_slot(between, begin, first, count, address, sought, periodic);
    lemma_run_slot(between, begin, first, count + 1, address, sought, periodic);
    lemma_next_time_step(at, periodic, now as int);
    lemma_next_time_form(at, periodic, now as int);
    lemma_next_time_form(at, periodic, now + 1);
    let (now_runtime, now_state) = started_with(between, begin, first, count);
    if let Some(stood) = address_after(between, begin, first, count, address) {
        lemma_block_slot(now_runtime, now_state, now, stood, sought, place);
    }
}

} // verus!
