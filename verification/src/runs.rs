//! What becomes of a task over a run of blocks.
use vstd::prelude::*;

use crate::calls::{
    cancel_named_outcome, cancel_outcome, sanitized, schedule_named_outcome,
};
use crate::config::Config;
use crate::hooks::{
    gathered, initialized, is_dispatched, period_fits, remaining, started, turn, turns, with_call,
    Dispatchable, Progress,
};
use crate::laws::{
    executions, found_call, law_periodic_task_is_executed_as_often_as_asked, times_asked,
};
use crate::pallet::{State, TaskOf};
use crate::queue::{
    by_priority, lemma_filter_none, lemma_filter_one, lemma_ranked_from_queue, lemma_ranking_keeps,
    DueTask, FoundTaskOf,
};
use crate::times::{
    executions_from, has_length, is_in, left_in, lemma_next_time_form, lemma_next_time_step,
    lemma_times_shift, next_time, nth_time, period_length, place_after, place_from, Place,
};
use crate::types::{
    BlockNumber, DispatchTime, LookupError, MaybeHashed, Period, Task, TaskAddress, HARD_DEADLINE,
};
use crate::weights::Weight;

verus! {

/// What happens to the runtime and the scheduler's state before a block is started: the rest of
/// the block before, and that the runtime takes up the number of the new one.
pub type Between<T> = spec_fn(T, State<T>, BlockNumber) -> (T, State<T>);

/// The runtime and the state that are there once the block before was started, in a run that
/// begins with the block `first`.
pub open spec fn left_by<T: Dispatchable>(
    between: Between<T>,
    begin: (T, State<T>),
    first: BlockNumber,
    count: nat,
) -> (T, State<T>)
    decreases count,
{
    if count == 0 {
        begin
    } else {
        let before = left_by(between, begin, first, (count - 1) as nat);
        let now = (first + count - 1) as BlockNumber;
        let (runtime, state) = between(before.0, before.1, now);
        let end = initialized(runtime, state, now);
        (end.runtime, end.state)
    }
}

/// The runtime and the state that the block `first + count` is started with.
pub open spec fn started_with<T: Dispatchable>(
    between: Between<T>,
    begin: (T, State<T>),
    first: BlockNumber,
    count: nat,
) -> (T, State<T>) {
    let before = left_by(between, begin, first, count);
    between(before.0, before.1, (first + count) as BlockNumber)
}

/// A task that is looked for in a run of blocks, and the call that it is found to have.
#[verifier::reject_recursive_types(T)]
pub struct Sought<T: Config> {
    pub task: TaskOf<T>,
    pub call: T::Call,
}

impl<T: Config> Sought<T> {
    /// Where the call of the task is known, it is that call.
    pub open spec fn is_consistent(self) -> bool {
        self.task.call matches MaybeHashed::Value(call) ==> call == self.call
    }
}

/// The other task has the same name, priority and origin.
pub open spec fn akin<T: Config>(other: TaskOf<T>, sought: Sought<T>) -> bool {
    &&& other.id == sought.task.id
    &&& other.priority == sought.task.priority
    &&& other.origin == sought.task.origin
}

/// The other task cannot be told apart from the task: it has the same name, priority and origin,
/// and the call of the task, or the hash that the task has in its place.
pub open spec fn alike<T: Config>(other: TaskOf<T>, sought: Sought<T>) -> bool {
    &&& akin::<T>(other, sought)
    &&& other.call == sought.task.call || other.call == MaybeHashed::<T::Call, T::Hash>::Value(
        sought.call,
    )
}

/// Of the tasks in the slots that have the same name, priority and origin, those are found to have
/// the call that cannot be told apart from the task, and no others.
pub open spec fn found_apart<T: Config>(
    runtime: T,
    slots: Seq<Option<TaskOf<T>>>,
    sought: Sought<T>,
) -> bool {
    forall|i: int|
        0 <= i < slots.len() ==> (#[trigger] slots[i] matches Some(other) ==> (akin::<T>(
            other,
            sought,
        ) ==> (alike::<T>(other, sought) <==> found_call(
            gathered(runtime, slots.take(i)).runtime,
            other.call,
        ) == Ok::<T::Call, LookupError>(sought.call))))
}

/// A slot holds a task that cannot be told apart from the task.
pub open spec fn holds_alike<T: Config>(
    state: State<T>,
    when: BlockNumber,
    i: int,
    sought: Sought<T>,
) -> bool {
    0 <= i < state.slots(when).len() && (state.slots(when)[i] matches Some(other) && alike::<T>(
        other,
        sought,
    ))
}

/// Of the task and those that cannot be told apart from it, none was scheduled, moved or
/// canceled.
pub open spec fn leaves_alone<T: Config>(
    before: State<T>,
    after: State<T>,
    sought: Sought<T>,
) -> bool {
    forall|when: BlockNumber, i: int|
        #![trigger holds_alike(before, when, i, sought)]
        #![trigger holds_alike(after, when, i, sought)]
        holds_alike(before, when, i, sought) || holds_alike(after, when, i, sought) ==> {
            &&& holds_alike(before, when, i, sought)
            &&& holds_alike(after, when, i, sought)
            &&& after.slots(when)[i] == before.slots(when)[i]
        }
}

/// The calls that are dispatched in the turns of a queue leave the task alone.
pub open spec fn turns_leave_alone<T: Dispatchable>(
    start: Progress<T>,
    now: BlockNumber,
    limit: Weight,
    queue: Seq<DueTask<T>>,
    sought: Sought<T>,
) -> bool
    decreases queue.len(),
{
    queue.len() > 0 ==> {
        let before = turns(start, now, limit, queue.drop_last());
        let due = queue.last().1;
        &&& turns_leave_alone(start, now, limit, queue.drop_last(), sought)
        &&& is_dispatched(before, limit, (queue.len() - 1) as nat, due) ==> leaves_alone(
            before.state,
            before.runtime.dispatched(before.state, due.origin, due.call->Ok_0).1,
            sought,
        )
    }
}

/// The calls that are dispatched at the start of a block leave the task alone, and no other task of
/// the block is found to be the same.
pub open spec fn block_leaves_alone<T: Dispatchable>(
    runtime: T,
    state: State<T>,
    now: BlockNumber,
    sought: Sought<T>,
) -> bool {
    &&& found_apart(runtime, state.slots(now), sought)
    &&& turns_leave_alone(
        started(runtime, state, now),
        now,
        runtime.weight_limit(),
        by_priority::<T>(gathered(runtime, state.slots(now)).queue),
        sought,
    )
}

/// Nothing in a run of blocks but the turns of the task itself schedules, moves or cancels it: not
/// what happens between the blocks up to the start of `first + count`, nor a call that is
/// dispatched in one of them. And no other task is found to be the same.
pub open spec fn run_leaves_alone<T: Dispatchable>(
    between: Between<T>,
    begin: (T, State<T>),
    first: BlockNumber,
    count: nat,
    sought: Sought<T>,
) -> bool
    decreases count,
{
    let (runtime, state) = started_with(between, begin, first, count);
    &&& leaves_alone(left_by(between, begin, first, count).1, state, sought)
    &&& block_leaves_alone(runtime, state, (first + count) as BlockNumber, sought)
    &&& count > 0 ==> run_leaves_alone(between, begin, first, (count - 1) as nat, sought)
}

/// The due task is the task, or one that cannot be told apart from it.
pub open spec fn found_alike<T: Config>(due: FoundTaskOf<T>, sought: Sought<T>) -> bool {
    &&& due.id == sought.task.id
    &&& due.priority == sought.task.priority
    &&& due.origin == sought.task.origin
    &&& due.call == Ok::<T::Call, LookupError>(sought.call)
}

/// How often the task is dispatched in the turns of a queue.
pub open spec fn dispatches<T: Dispatchable>(
    start: Progress<T>,
    now: BlockNumber,
    limit: Weight,
    queue: Seq<DueTask<T>>,
    sought: Sought<T>,
) -> nat
    decreases queue.len(),
{
    if queue.len() == 0 {
        0
    } else {
        let before = turns(start, now, limit, queue.drop_last());
        let due = queue.last().1;
        let this: nat = if found_alike::<T>(due, sought) && is_dispatched(
            before,
            limit,
            (queue.len() - 1) as nat,
            due,
        ) {
            1
        } else {
            0
        };
        dispatches(start, now, limit, queue.drop_last(), sought) + this
    }
}

/// How often the task is dispatched at the start of a block.
pub open spec fn block_dispatches<T: Dispatchable>(
    runtime: T,
    state: State<T>,
    now: BlockNumber,
    sought: Sought<T>,
) -> nat {
    dispatches(
        started(runtime, state, now),
        now,
        runtime.weight_limit(),
        by_priority::<T>(gathered(runtime, state.slots(now)).queue),
        sought,
    )
}

/// How often the task is dispatched in the first blocks of a run.
pub open spec fn run_dispatches<T: Dispatchable>(
    between: Between<T>,
    begin: (T, State<T>),
    first: BlockNumber,
    count: nat,
    sought: Sought<T>,
) -> nat
    decreases count,
{
    if count == 0 {
        0
    } else {
        let (runtime, state) = started_with(between, begin, first, (count - 1) as nat);
        run_dispatches(between, begin, first, (count - 1) as nat, sought) + block_dispatches(
            runtime,
            state,
            (first + count - 1) as BlockNumber,
            sought,
        )
    }
}

/// On no agenda is the task or one that cannot be told apart from it.
pub open spec fn stands_nowhere<T: Config>(state: State<T>, sought: Sought<T>) -> bool {
    forall|when: BlockNumber, i: int| !#[trigger] holds_alike(state, when, i, sought)
}

/// The task is in the slot, with the given repetitions left, and in no other.
spec fn stands_in<T: Config>(
    state: State<T>,
    sought: Sought<T>,
    at: int,
    i: int,
    periodic: Option<Period<BlockNumber>>,
) -> bool {
    &&& 0 <= at <= BlockNumber::MAX
    &&& 0 <= i < state.slots(at as BlockNumber).len()
    &&& holds_alike(state, at as BlockNumber, i, sought)
    &&& state.slots(at as BlockNumber)[i]->0.periodic == periodic
    &&& forall|when: BlockNumber, j: int| #[trigger]
        holds_alike(state, when, j, sought) ==> when == at && j == i
}

/// The task is on the agenda of the block and nowhere else; or it is nowhere.
spec fn stands<T: Config>(state: State<T>, sought: Sought<T>, place: Place) -> bool {
    match place {
        Some((at, periodic)) => exists|i: int| stands_in(state, sought, at, i, periodic),
        None => stands_nowhere(state, sought),
    }
}

proof fn lemma_left_alone<T: Config>(
    before: State<T>,
    after: State<T>,
    sought: Sought<T>,
    place: Place,
)
    requires
        stands(before, sought, place),
        leaves_alone(before, after, sought),
    ensures
        stands(after, sought, place),
{
    if let Some((at, periodic)) = place {
        let i = choose|i: int| stands_in(before, sought, at, i, periodic);
        assert(holds_alike(before, at as BlockNumber, i, sought));
        assert(stands_in(after, sought, at, i, periodic));
    }
}

/// Where all agendas have the same slots, the task stands where it stood.
proof fn lemma_same_slots<T: Config>(
    before: State<T>,
    after: State<T>,
    sought: Sought<T>,
    place: Place,
)
    requires
        stands(before, sought, place),
        forall|when: BlockNumber| #[trigger] after.slots(when) == before.slots(when),
    ensures
        stands(after, sought, place),
{
    assert(leaves_alone(before, after, sought));
    lemma_left_alone(before, after, sought, place);
}

/// Another task goes on an agenda.
proof fn lemma_other_appended<T: Config>(
    before: State<T>,
    after: State<T>,
    sought: Sought<T>,
    place: Place,
    at: BlockNumber,
    other: TaskOf<T>,
)
    requires
        stands(before, sought, place),
        !alike::<T>(other, sought),
        forall|when: BlockNumber| #[trigger]
            after.slots(when) == before.appended(at, other).slots(when),
    ensures
        stands(after, sought, place),
{
    assert forall|when: BlockNumber, i: int|
        holds_alike(before, when, i, sought) || holds_alike(after, when, i, sought) implies {
        &&& #[trigger] holds_alike(before, when, i, sought)
        &&& #[trigger] holds_alike(after, when, i, sought)
        &&& after.slots(when)[i] == before.slots(when)[i]
    } by {
        if when != at || i < before.slots(at).len() {
            assert(after.slots(when)[i] == before.slots(when)[i]);
        }
    }
    lemma_left_alone(before, after, sought, place);
}

/// The task, which was nowhere, goes on an agenda.
proof fn lemma_this_appended<T: Config>(
    before: State<T>,
    after: State<T>,
    sought: Sought<T>,
    at: int,
    held: TaskOf<T>,
)
    requires
        0 <= at <= BlockNumber::MAX,
        stands_nowhere(before, sought),
        alike::<T>(held, sought),
        forall|when: BlockNumber| #[trigger]
            after.slots(when) == before.appended(at as BlockNumber, held).slots(when),
    ensures
        stands(after, sought, Some((at, held.periodic))),
{
    let block = at as BlockNumber;
    let last = before.slots(block).len() as int;
    assert(after.slots(block)[last] == Some(held));
    assert(holds_alike(after, block, last, sought));
    assert forall|when: BlockNumber, i: int| #[trigger]
        holds_alike(after, when, i, sought) implies when == block && i == last by {
        if when != block || i < last {
            assert(after.slots(when)[i] == before.slots(when)[i]);
            assert(holds_alike(before, when, i, sought));
        }
    }
    let place: Place = Some((at, held.periodic));
    if let Some((block, left)) = place {
        assert(stands_in(after, sought, block, last, left));
    }
}

/// One turn: a task that may be told apart leaves the task where it is, and the task itself, taken
/// off its agenda, goes where it is to be dispatched next.
proof fn lemma_turn_stands<T: Dispatchable>(
    before: Progress<T>,
    now: BlockNumber,
    limit: Weight,
    order: nat,
    due: DueTask<T>,
    sought: Sought<T>,
    place: Place,
)
    requires
        sought.is_consistent(),
        stands(before.state, sought, place),
        is_dispatched(before, limit, order, due.1) ==> leaves_alone(
            before.state,
            before.runtime.dispatched(before.state, due.1.origin, due.1.call->Ok_0).1,
            sought,
        ),
        found_alike::<T>(due.1, sought) ==> {
            &&& sought.task.priority <= HARD_DEADLINE
            &&& place is None
            &&& period_fits(now, due.1.periodic)
        },
    ensures
        stands(
            turn(before, now, limit, order, due).state,
            sought,
            if found_alike::<T>(due.1, sought) {
                place_after(now as int, due.1.periodic)
            } else {
                place
            },
        ),
{
    let after = turn(before, now, limit, order, due).state;
    let due_task = due.1;
    match due_task.call {
        Ok(call) => {
            let kept = with_call::<T>(due_task, call);
            if is_dispatched(before, limit, order, due_task) {
                let state = before.runtime.dispatched(before.state, due_task.origin, call).1;
                lemma_left_alone(before.state, state, sought, place);
                match due_task.periodic {
                    Some((period, _)) => {
                        let next = (now + period) as BlockNumber;
                        let again = Task { periodic: remaining(due_task.periodic), ..kept };
                        if found_alike::<T>(due_task, sought) {
                            lemma_this_appended(state, after, sought, now + period, again);
                        } else {
                            lemma_other_appended(state, after, sought, place, next, again);
                        }
                    },
                    None => lemma_same_slots(state, after, sought, place),
                }
            } else {
                let next = (now + 1) as BlockNumber;
                lemma_other_appended(before.state, after, sought, place, next, kept);
            }
        },
        Err(_) => lemma_same_slots(before.state, after, sought, place),
    }
}

/// All turns of a queue in which the task has at most one.
proof fn lemma_turns_stand<T: Dispatchable>(
    start: Progress<T>,
    now: BlockNumber,
    limit: Weight,
    queue: Seq<DueTask<T>>,
    sought: Sought<T>,
    place: Place,
    periodic: Option<Period<BlockNumber>>,
)
    requires
        sought.is_consistent(),
        stands(start.state, sought, place),
        turns_leave_alone(start, now, limit, queue, sought),
        period_fits(now, periodic),
        forall|k: int|
            0 <= k < queue.len() && found_alike::<T>((#[trigger] queue[k]).1, sought)
                ==> queue[k].1.periodic == periodic,
        queue.filter(|due: DueTask<T>| found_alike::<T>(due.1, sought)).len() <= (if place is None
            && sought.task.priority <= HARD_DEADLINE {
            1nat
        } else {
            0
        }),
    ensures
        ({
            let turns_of_task = queue.filter(
                |due: DueTask<T>| found_alike::<T>(due.1, sought),
            ).len();
            &&& dispatches(start, now, limit, queue, sought) == turns_of_task
            &&& stands(
                turns(start, now, limit, queue).state,
                sought,
                if turns_of_task == 1 {
                    place_after(now as int, periodic)
                } else {
                    place
                },
            )
        }),
    decreases queue.len(),
{
    reveal(Seq::filter);
    let pred = |due: DueTask<T>| found_alike::<T>(due.1, sought);
    if queue.len() > 0 {
        let rest = queue.drop_last();
        let due = queue.last();
        assert(due == queue[queue.len() - 1]);
        assert forall|k: int|
            0 <= k < rest.len() && found_alike::<T>((#[trigger] rest[k]).1, sought) implies rest[k].1.periodic
            == periodic by {
            assert(rest[k] == queue[k]);
        }
        assert(queue.filter(pred).len() == rest.filter(pred).len() + (if pred(due) {
            1nat
        } else {
            0
        }));
        lemma_turns_stand(start, now, limit, rest, sought, place, periodic);
        let before = turns(start, now, limit, rest);
        let stood = if rest.filter(pred).len() == 1 {
            place_after(now as int, periodic)
        } else {
            place
        };
        lemma_turn_stands(before, now, limit, (queue.len() - 1) as nat, due, sought, stood);
    } else {
        assert(queue.filter(pred).len() == 0);
    }
}

/// The gathered tasks are those of the slots, and so are those among them that may not be told
/// apart from the task.
proof fn lemma_gathered_alike<T: Config>(
    runtime: T,
    slots: Seq<Option<TaskOf<T>>>,
    sought: Sought<T>,
    periodic: Option<Period<BlockNumber>>,
)
    requires
        found_apart(runtime, slots, sought),
        forall|i: int|
            0 <= i < slots.len() ==> (#[trigger] slots[i] matches Some(other) ==> (alike::<T>(
                other,
                sought,
            ) ==> other.periodic == periodic)),
    ensures
        gathered(runtime, slots).queue.filter(
            |due: DueTask<T>| found_alike::<T>(due.1, sought),
        ).len() == slots.filter(
            |slot: Option<TaskOf<T>>| slot matches Some(other) && alike::<T>(other, sought),
        ).len(),
        forall|k: int|
            0 <= k < gathered(runtime, slots).queue.len() && found_alike::<T>(
                (#[trigger] gathered(runtime, slots).queue[k]).1,
                sought,
            ) ==> gathered(runtime, slots).queue[k].1.periodic == periodic,
    decreases slots.len(),
{
    reveal(Seq::filter);
    let slot_pred = |slot: Option<TaskOf<T>>|
        slot matches Some(other) && alike::<T>(other, sought);
    let pred = |due: DueTask<T>| found_alike::<T>(due.1, sought);
    let after = gathered(runtime, slots).queue;
    if slots.len() > 0 {
        let rest = slots.drop_last();
        assert forall|i: int| 0 <= i < rest.len() implies #[trigger] rest[i] == slots[i]
            && rest.take(i) == slots.take(i) by {
            assert(rest.take(i) =~= slots.take(i));
        }
        assert(slots.take(slots.len() - 1) =~= rest);
        lemma_gathered_alike(runtime, rest, sought, periodic);
        let before = gathered(runtime, rest).queue;
        assert(slots.last() == slots[slots.len() - 1]);
        if let Some(other) = slots.last() {
            assert(after.drop_last() =~= before);
            assert(pred(after.last()) == slot_pred(slots.last()));
            assert forall|k: int|
                0 <= k < after.len() && found_alike::<T>(
                    (#[trigger] after[k]).1,
                    sought,
                ) implies after[k].1.periodic == periodic by {
                if k < before.len() {
                    assert(after[k] == before[k]);
                }
            }
        } else {
            assert(after == before);
        }
    } else {
        assert(after.filter(pred).len() == 0);
        assert(slots.filter(slot_pred).len() == 0);
    }
}

/// On the agenda of a block the task has one slot or none.
proof fn lemma_slots_of_task<T: Config>(
    state: State<T>,
    now: BlockNumber,
    sought: Sought<T>,
    place: Place,
)
    requires
        stands(state, sought, place),
    ensures
        state.slots(now).filter(
            |slot: Option<TaskOf<T>>| slot matches Some(other) && alike::<T>(other, sought),
        ).len() == (if is_in(place, now as int) {
            1nat
        } else {
            0
        }),
        forall|i: int|
            0 <= i < state.slots(now).len() ==> (#[trigger] state.slots(now)[i] matches Some(other)
                ==> (alike::<T>(other, sought) ==> other.periodic == left_in(place, now as int))),
{
    let slots = state.slots(now);
    let pred = |slot: Option<TaskOf<T>>| slot matches Some(other) && alike::<T>(other, sought);
    match place {
        Some((at, periodic)) => {
            let i = choose|i: int| stands_in(state, sought, at, i, periodic);
            assert(stands_in(state, sought, at, i, periodic));
            assert forall|j: int| 0 <= j < slots.len() && pred(#[trigger] slots[j]) implies at
                == now && j == i by {
                assert(holds_alike(state, now, j, sought));
            }
            if at == now {
                assert(pred(slots[i]));
                lemma_filter_one(slots, pred, i);
            } else {
                lemma_filter_none(slots, pred);
            }
        },
        None => {
            assert forall|j: int| 0 <= j < slots.len() implies !pred(#[trigger] slots[j]) by {
                assert(!holds_alike(state, now, j, sought));
            }
            lemma_filter_none(slots, pred);
        },
    }
}

/// At the start of a block the task has one turn or none.
proof fn lemma_turns_of_task<T: Config>(
    runtime: T,
    state: State<T>,
    now: BlockNumber,
    sought: Sought<T>,
    place: Place,
)
    requires
        found_apart(runtime, state.slots(now), sought),
        stands(state, sought, place),
    ensures
        ({
            let ranking = by_priority::<T>(gathered(runtime, state.slots(now)).queue);
            &&& ranking.filter(|due: DueTask<T>| found_alike::<T>(due.1, sought)).len() == (if is_in(
                place,
                now as int,
            ) {
                1nat
            } else {
                0
            })
            &&& forall|k: int|
                0 <= k < ranking.len() && found_alike::<T>((#[trigger] ranking[k]).1, sought)
                    ==> ranking[k].1.periodic == left_in(place, now as int)
        }),
{
    let queue = gathered(runtime, state.slots(now)).queue;
    let ranking = by_priority::<T>(queue);
    let periodic = left_in(place, now as int);
    let pred = |due: DueTask<T>| found_alike::<T>(due.1, sought);
    lemma_slots_of_task(state, now, sought, place);
    lemma_gathered_alike(runtime, state.slots(now), sought, periodic);
    lemma_ranking_keeps::<T>(queue, pred, sought.task.priority);
    assert forall|k: int|
        0 <= k < ranking.len() && found_alike::<T>(
            (#[trigger] ranking[k]).1,
            sought,
        ) implies ranking[k].1.periodic == periodic by {
        lemma_ranked_from_queue::<T>(queue, 256, k);
    }
}

/// The start of a block dispatches the task where it stands on the agenda of the block, once, and
/// not else; and the task then stands where it is to be dispatched next.
proof fn lemma_block_stands<T: Dispatchable>(
    runtime: T,
    state: State<T>,
    now: BlockNumber,
    sought: Sought<T>,
    place: Place,
)
    requires
        sought.is_consistent(),
        is_in(place, now as int) ==> sought.task.priority <= HARD_DEADLINE,
        stands(state, sought, place),
        block_leaves_alone(runtime, state, now, sought),
        period_fits(now, left_in(place, now as int)),
    ensures
        block_dispatches(runtime, state, now, sought) == (if is_in(place, now as int) {
            1nat
        } else {
            0
        }),
        stands(
            initialized(runtime, state, now).state,
            sought,
            place_from(place, now as int),
        ),
{
    let taken: Place = if is_in(place, now as int) {
        None
    } else {
        place
    };
    lemma_turns_of_task(runtime, state, now, sought, place);
    lemma_taken(state, now, sought, place);
    lemma_turns_stand(
        started(runtime, state, now),
        now,
        runtime.weight_limit(),
        by_priority::<T>(gathered(runtime, state.slots(now)).queue),
        sought,
        taken,
        left_in(place, now as int),
    );
}

/// The agenda of a block is taken.
proof fn lemma_taken<T: Config>(state: State<T>, now: BlockNumber, sought: Sought<T>, place: Place)
    requires
        stands(state, sought, place),
    ensures
        stands(
            State { agenda: state.agenda.remove(now), ..state },
            sought,
            if is_in(place, now as int) {
                None
            } else {
                place
            },
        ),
{
    let after = State { agenda: state.agenda.remove(now), ..state };
    assert forall|when: BlockNumber, i: int| #[trigger]
        holds_alike(after, when, i, sought) implies when != now && holds_alike(
        state,
        when,
        i,
        sought,
    ) by {
        assert(when != now);
        assert(after.slots(when) == state.slots(when));
    }
    if let Some((at, periodic)) = place {
        let i = choose|i: int| stands_in(state, sought, at, i, periodic);
        assert(stands_in(state, sought, at, i, periodic));
        if at != now {
            assert(after.slots(at as BlockNumber) == state.slots(at as BlockNumber));
            assert(stands_in(after, sought, at, i, periodic));
        }
    }
}

/// After the first blocks of a run the task stands where it is to be dispatched next, and of its
/// executions those are left that are to come.
proof fn lemma_run_stands<T: Dispatchable>(
    between: Between<T>,
    begin: (T, State<T>),
    first: BlockNumber,
    count: nat,
    sought: Sought<T>,
    at: int,
    periodic: Option<Period<BlockNumber>>,
)
    requires
        sought.is_consistent(),
        sought.task.priority <= HARD_DEADLINE,
        has_length(periodic),
        first <= at,
        nth_time(at, period_length(periodic), executions(periodic) - 1) <= BlockNumber::MAX,
        first + count <= BlockNumber::MAX + 1,
        stands(begin.1, sought, Some((at, periodic))),
        count > 0 ==> run_leaves_alone(between, begin, first, (count - 1) as nat, sought),
    ensures
        stands(
            left_by(between, begin, first, count).1,
            sought,
            next_time(at, periodic, first + count),
        ),
        run_dispatches(between, begin, first, count, sought) + executions_from(
            next_time(at, periodic, first + count),
        ) == executions(periodic),
    decreases count,
{
    if count > 0 {
        let before = (count - 1) as nat;
        let now = (first + before) as BlockNumber;
        lemma_run_stands(between, begin, first, before, sought, at, periodic);
        let place = next_time(at, periodic, now as int);
        let left = left_by(between, begin, first, before);
        let (runtime, state) = started_with(between, begin, first, before);
        lemma_left_alone(left.1, state, sought, place);
        lemma_next_time_step(at, periodic, now as int);
        lemma_next_time_form(at, periodic, now as int);
        lemma_next_time_form(at, periodic, now + 1);
        lemma_block_stands(runtime, state, now, sought, place);
    }
}

/// The times of a task that is to be dispatched more than once go by the period that was asked for.
pub proof fn lemma_times_asked(at: int, periodic: Option<Period<BlockNumber>>)
    ensures
        forall|k: int|
            0 <= k < times_asked(periodic) ==> #[trigger] nth_time(at, period_length(periodic), k)
                == nth_time(at, period_length(sanitized(periodic)), k),
        forall|k: int|
            0 <= k < times_asked(periodic) ==> #[trigger] nth_time(
                at,
                period_length(sanitized(periodic)),
                k,
            ) == nth_time(at, period_length(periodic), k),
{
    lemma_times_shift(at, period_length(periodic), 0);
    lemma_times_shift(at, period_length(sanitized(periodic)), 0);
}

/// A task with a hard deadline is dispatched in the block that it was scheduled for, and again
/// after each period, as often in total as was asked for, and in no other block; then it is on no
/// agenda. Its call is known when it is scheduled, or found in the block that it was scheduled for.
///
/// This is so for as long as nothing else schedules, moves or cancels the task, and there is no
/// other that cannot be told apart from it. Where there is, see
/// [`law_each_task_runs_at_its_times`](crate::slots::law_each_task_runs_at_its_times).
///
/// The run begins with the block after the one in which the task was scheduled, and `count` is the
/// number of the block in it.
pub proof fn law_tasks_run_at_their_times<T: Dispatchable>(
    runtime: T,
    state: State<T>,
    when: DispatchTime<BlockNumber>,
    sought: Sought<T>,
    between: Between<T>,
    count: nat,
)
    requires
        sought.is_consistent(),
        sought.task.priority <= HARD_DEADLINE,
        stands_nowhere(state, sought),
        ({
            let scheduled = schedule_named_outcome(runtime, state, when, sought.task);
            let at = scheduled.result->Ok_0.0;
            let length = period_length(sought.task.periodic);
            let last = nth_time(at as int, length, times_asked(sought.task.periodic) - 1);
            let first = (runtime.now() + 1) as BlockNumber;
            &&& scheduled.result is Ok
            &&& last <= BlockNumber::MAX
            &&& first + count <= BlockNumber::MAX
            &&& run_leaves_alone(
                between,
                (scheduled.runtime, scheduled.state),
                first,
                count,
                sought,
            )
        }),
    ensures
        ({
            let scheduled = schedule_named_outcome(runtime, state, when, sought.task);
            let begin = (scheduled.runtime, scheduled.state);
            let at = scheduled.result->Ok_0.0 as int;
            let times = times_asked(sought.task.periodic);
            let length = period_length(sought.task.periodic);
            let last = nth_time(at, length, times - 1);
            let first = (runtime.now() + 1) as BlockNumber;
            let now = (first + count) as BlockNumber;
            let (now_runtime, now_state) = started_with(between, begin, first, count);
            // In each block it is dispatched once or not at all.
            &&& block_dispatches(now_runtime, now_state, now, sought) == (if exists|k: int|
                0 <= k < times && now == #[trigger] nth_time(at, length, k) {
                1nat
            } else {
                0
            })
            // With the last block all executions are done, and the task is on no agenda.
            &&& now >= last ==> {
                &&& run_dispatches(between, begin, first, count + 1, sought) == times
                &&& stands_nowhere(initialized(now_runtime, now_state, now).state, sought)
            }
        }),
{
    let task = sought.task;
    let scheduled = schedule_named_outcome(runtime, state, when, task);
    let begin = (scheduled.runtime, scheduled.state);
    let at = scheduled.result->Ok_0.0;
    let periodic = sanitized(task.periodic);
    let first = (runtime.now() + 1) as BlockNumber;
    let now = (first + count) as BlockNumber;
    law_periodic_task_is_executed_as_often_as_asked(task.periodic);
    lemma_times_asked(at as int, task.periodic);
    lemma_this_appended(state, scheduled.state, sought, at as int, Task { periodic, ..task });
    lemma_run_stands(between, begin, first, count, sought, at as int, periodic);
    lemma_run_stands(between, begin, first, count + 1, sought, at as int, periodic);
    let place = next_time(at as int, periodic, now as int);
    let left = left_by(between, begin, first, count);
    let (now_runtime, now_state) = started_with(between, begin, first, count);
    lemma_left_alone(left.1, now_state, sought, place);
    lemma_next_time_step(at as int, periodic, now as int);
    lemma_next_time_form(at as int, periodic, now as int);
    lemma_next_time_form(at as int, periodic, now + 1);
    lemma_block_stands(now_runtime, now_state, now, sought, place);
}

/// A task that is on no agenda is not dispatched in any block of a run in which nothing schedules
/// it, and stays on no agenda.
pub proof fn law_absent_tasks_are_not_dispatched<T: Dispatchable>(
    between: Between<T>,
    begin: (T, State<T>),
    first: BlockNumber,
    count: nat,
    sought: Sought<T>,
)
    requires
        sought.is_consistent(),
        stands_nowhere(begin.1, sought),
        first + count <= BlockNumber::MAX,
        run_leaves_alone(between, begin, first, count, sought),
    ensures
        ({
            let (runtime, state) = started_with(between, begin, first, count);
            let now = (first + count) as BlockNumber;
            &&& block_dispatches(runtime, state, now, sought) == 0
            &&& run_dispatches(between, begin, first, count + 1, sought) == 0
            &&& stands_nowhere(initialized(runtime, state, now).state, sought)
        }),
    decreases count,
{
    reveal_with_fuel(run_dispatches, 2);
    if count > 0 {
        law_absent_tasks_are_not_dispatched(between, begin, first, (count - 1) as nat, sought);
    }
    let left = left_by(between, begin, first, count);
    let (runtime, state) = started_with(between, begin, first, count);
    lemma_left_alone(left.1, state, sought, None);
    lemma_block_stands(runtime, state, (first + count) as BlockNumber, sought, None);
}

/// To cancel a task, by its address or by its name, ends all further instances of it: it is on no
/// agenda and is dispatched in no later block, unless it is scheduled again.
pub proof fn law_canceled_tasks_are_not_dispatched<T: Dispatchable>(
    runtime: T,
    state: State<T>,
    origin: Option<T::PalletsOrigin>,
    address: TaskAddress<BlockNumber>,
    name: Option<Seq<u8>>,
    sought: Sought<T>,
    between: Between<T>,
    first: BlockNumber,
    count: nat,
)
    requires
        sought.is_consistent(),
        state.task_at(address) == Some(sought.task),
        forall|when: BlockNumber, i: int| #[trigger]
            holds_alike(state, when, i, sought) ==> when == address.0 && i == address.1,
        name matches Some(id) ==> state.lookup.contains_pair(id, address),
        first + count <= BlockNumber::MAX,
        ({
            let canceled = match name {
                Some(id) => cancel_named_outcome(runtime, state, origin, id),
                None => cancel_outcome(runtime, state, origin, address),
            };
            &&& canceled.result is Ok
            &&& run_leaves_alone(
                between,
                (canceled.runtime, canceled.state),
                first,
                count,
                sought,
            )
        }),
    ensures
        ({
            let canceled = match name {
                Some(id) => cancel_named_outcome(runtime, state, origin, id),
                None => cancel_outcome(runtime, state, origin, address),
            };
            let begin = (canceled.runtime, canceled.state);
            let (now_runtime, now_state) = started_with(between, begin, first, count);
            let now = (first + count) as BlockNumber;
            &&& stands_nowhere(canceled.state, sought)
            &&& block_dispatches(now_runtime, now_state, now, sought) == 0
            &&& stands_nowhere(initialized(now_runtime, now_state, now).state, sought)
        }),
{
    let canceled = match name {
        Some(id) => cancel_named_outcome(runtime, state, origin, id),
        None => cancel_outcome(runtime, state, origin, address),
    };
    assert forall|when: BlockNumber, i: int| !#[trigger] holds_alike(
        canceled.state,
        when,
        i,
        sought,
    ) by {
        if holds_alike(canceled.state, when, i, sought) {
            assert(canceled.state.slots(when)[i] == state.slots(when)[i]);
            assert(holds_alike(state, when, i, sought));
        }
    }
    law_absent_tasks_are_not_dispatched(
        between,
        (canceled.runtime, canceled.state),
        first,
        count,
        sought,
    );
}

} // verus!
