//! What the scheduler does at the start of a block: it dispatches the calls that are due.
use vstd::prelude::*;

use crate::config::Config;
use crate::pallet::{slots_view, Pallet, ScheduledOf, State, TaskOf};
use crate::preimages::{looked_up, lookup_call};
use crate::queue::{
    by_priority, queue_view, sort_by_priority, Due, DueTask, FoundOf, FoundTaskOf,
    ScheduledFoundOf,
};
use crate::types::{
    copy_id, id_view, BlockNumber, CallResult, Event, EventView, LookupError, MaybeHashed, Period,
    Priority, ScheduledV3, Task, HARD_DEADLINE,
};
use crate::weights::{db_cost, db_writes, reads_writes, saturate, Weight};

verus! {

/// A runtime that can dispatch calls.
pub trait Dispatchable: Config {
    /// The runtime and the scheduler's state after a call was dispatched from an origin, and how
    /// the call ended. A call may itself make use of the scheduler.
    closed spec fn dispatched(
        self,
        state: State<Self>,
        origin: Self::PalletsOrigin,
        call: Self::Call,
    ) -> (Self, State<Self>, CallResult) {
        arbitrary()
    }

    /// Dispatches a call from an origin.
    ///
    /// The filter is the default one for the origin, which for the system itself is none: a filter
    /// that was in force when the call was scheduled is not used.
    fn dispatch(
        &mut self,
        pallet: &mut Pallet<Self>,
        origin: &Self::PalletsOrigin,
        call: &Self::Call,
    ) -> (result: CallResult)
        ensures
            (*final(self), final(pallet)@, result) == old(self).dispatched(
                old(pallet)@,
                *origin,
                *call,
            ),
    ;
}

/// The tasks of a block that are due, and what it took to gather them.
#[verifier::reject_recursive_types(T)]
pub struct Gathered<T: Config> {
    pub runtime: T,
    pub weight: Weight,
    pub queue: Seq<DueTask<T>>,
}

/// The task with what its call was found to be.
pub open spec fn with_found<T: Config>(task: TaskOf<T>, call: FoundOf<T>) -> FoundTaskOf<T> {
    Task {
        id: task.id,
        priority: task.priority,
        call,
        periodic: task.periodic,
        origin: task.origin,
    }
}

/// The task as it is kept once its call is known.
pub open spec fn with_call<T: Config>(task: FoundTaskOf<T>, call: T::Call) -> TaskOf<T> {
    Task {
        id: task.id,
        priority: task.priority,
        call: MaybeHashed::Value(call),
        periodic: task.periodic,
        origin: task.origin,
    }
}

/// The tasks in the slots, each with the index of its slot. The call of each is looked up in turn,
/// and the request for a preimage that has served its purpose is withdrawn.
pub open spec fn gathered<T: Config>(runtime: T, slots: Seq<Option<TaskOf<T>>>) -> Gathered<T>
    decreases slots.len(),
{
    if slots.len() == 0 {
        Gathered { runtime, weight: db_cost(runtime.db(), 1, 2), queue: Seq::empty() }
    } else {
        let before = gathered(runtime, slots.drop_last());
        match slots.last() {
            Some(task) => {
                let index = (slots.len() - 1) as u32;
                match looked_up(before.runtime, task.call) {
                    Ok((call, Some(hash))) => Gathered {
                        runtime: before.runtime.unrequested(hash),
                        weight: saturate(before.weight + db_cost(before.runtime.db(), 2, 2)),
                        queue: before.queue.push((index, with_found::<T>(task, Ok(call)))),
                    },
                    Ok((call, None)) => Gathered {
                        queue: before.queue.push((index, with_found::<T>(task, Ok(call)))),
                        ..before
                    },
                    Err(reason) => Gathered {
                        queue: before.queue.push((index, with_found::<T>(task, Err(reason)))),
                        ..before
                    },
                }
            },
            None => before,
        }
    }
}

/// What the turn of a task weighs: its call, the account of the call's signer, the name that the
/// task has and the agenda that it is put on again.
pub open spec fn turn_weight<T: Config>(runtime: T, task: FoundTaskOf<T>) -> int {
    let db = runtime.db();
    let call_weight: int = match task.call {
        Ok(call) => if T::signed(task.origin) {
            runtime.weight_of(call) + db_cost(db, 1, 1)
        } else {
            runtime.weight_of(call) as int
        },
        Err(_) => 0,
    };
    let name_weight: int = if task.id is Some {
        saturate(db.write * 1) as int
    } else {
        0
    };
    let period_weight: int = if task.periodic is Some {
        db_cost(db, 1, 1) as int
    } else {
        0
    };
    call_weight + name_weight + period_weight
}

/// Whether a call may be dispatched in its turn: it has a hard deadline, it does not push the
/// weight past the limit, or it is the first.
pub open spec fn allowed(priority: Priority, cumulative: Weight, limit: Weight, order: nat) -> bool {
    priority <= HARD_DEADLINE || cumulative <= limit || order == 0
}

/// What is left of a period after one more execution.
pub open spec fn remaining(periodic: Option<Period<BlockNumber>>) -> Option<Period<BlockNumber>> {
    match periodic {
        Some((period, count)) => if count > 1 {
            Some((period, (count - 1) as u32))
        } else {
            None
        },
        None => None,
    }
}

/// The next time of a periodic task is a block number.
pub open spec fn period_fits(now: BlockNumber, periodic: Option<Period<BlockNumber>>) -> bool {
    match periodic {
        Some((period, _)) => now + period <= BlockNumber::MAX,
        None => true,
    }
}

/// The state after a task was dispatched: a periodic task is put on the agenda of its next time,
/// with its name leading there; of any other the name leads nowhere any more.
pub open spec fn settled<T: Config>(
    state: State<T>,
    now: BlockNumber,
    index: u32,
    task: TaskOf<T>,
    result: CallResult,
) -> State<T> {
    let placed = match task.periodic {
        Some((period, _)) => {
            let next = (now + period) as BlockNumber;
            let named = match task.id {
                Some(id) => state.with_name(id, state.next_address(next)),
                None => state,
            };
            named.appended(next, Task { periodic: remaining(task.periodic), ..task })
        },
        None => state.without_name(task.id),
    };
    placed.reporting(EventView::Dispatched((now, index), task.id, result))
}

/// The state after a task was put off: it is on the agenda of the next block, and its name, where
/// it led to the task, leads there.
pub open spec fn put_off<T: Config>(
    state: State<T>,
    now: BlockNumber,
    index: u32,
    task: TaskOf<T>,
) -> State<T> {
    let next = (now + 1) as BlockNumber;
    state.with_name_moved(task.id, (now, index), state.next_address(next)).appended(next, task)
}

/// The state after a task was aborted because its call was not found: it is on no agenda, and its
/// name, where it led to the task, leads nowhere any more.
pub open spec fn aborted<T: Config>(
    state: State<T>,
    now: BlockNumber,
    index: u32,
    id: Option<Seq<u8>>,
    reason: LookupError,
) -> State<T> {
    state.without_name_of(id, (now, index)).reporting(
        EventView::CallLookupFailed((now, index), id, reason),
    )
}

/// How far the tasks of a block have been dealt with.
#[verifier::reject_recursive_types(T)]
pub struct Progress<T: Config> {
    pub runtime: T,
    pub state: State<T>,
    /// What all turns so far weigh.
    pub cumulative: Weight,
    /// What all turns up to the last dispatch weigh.
    pub total: Weight,
}

/// Whether the call of a task is dispatched in its turn: it was found, and there is room for it.
pub open spec fn is_dispatched<T: Config>(
    progress: Progress<T>,
    limit: Weight,
    order: nat,
    task: FoundTaskOf<T>,
) -> bool {
    let cumulative = saturate(progress.cumulative + turn_weight(progress.runtime, task));
    task.call is Ok && allowed(task.priority, cumulative, limit, order)
}

/// One turn: the task's call is dispatched, or the task is put on the agenda of the next block;
/// where the call was not found, the task is aborted.
pub open spec fn turn<T: Dispatchable>(
    progress: Progress<T>,
    now: BlockNumber,
    limit: Weight,
    order: nat,
    due: DueTask<T>,
) -> Progress<T> {
    let (index, task) = due;
    let cumulative = saturate(progress.cumulative + turn_weight(progress.runtime, task));
    match task.call {
        Ok(call) => if is_dispatched(progress, limit, order, task) {
            let (runtime, state, result) = progress.runtime.dispatched(
                progress.state,
                task.origin,
                call,
            );
            Progress {
                runtime,
                state: settled(state, now, index, with_call::<T>(task, call), result),
                cumulative,
                total: cumulative,
            }
        } else {
            Progress {
                state: put_off(progress.state, now, index, with_call::<T>(task, call)),
                cumulative,
                ..progress
            }
        },
        Err(reason) => Progress {
            state: aborted(progress.state, now, index, task.id, reason),
            cumulative,
            ..progress
        },
    }
}

/// All turns of a queue, one after the other.
pub open spec fn turns<T: Dispatchable>(
    start: Progress<T>,
    now: BlockNumber,
    limit: Weight,
    queue: Seq<DueTask<T>>,
) -> Progress<T>
    decreases queue.len(),
{
    if queue.len() == 0 {
        start
    } else {
        turn(
            turns(start, now, limit, queue.drop_last()),
            now,
            limit,
            (queue.len() - 1) as nat,
            queue.last(),
        )
    }
}

/// Where the turns of a block start from: its agenda is taken, and its tasks are gathered.
pub open spec fn started<T: Config>(runtime: T, state: State<T>, now: BlockNumber) -> Progress<T> {
    let due = gathered(runtime, state.slots(now));
    Progress {
        runtime: due.runtime,
        state: State { agenda: state.agenda.remove(now), ..state },
        cumulative: due.weight,
        total: 0,
    }
}

/// How far the tasks of a block have been dealt with once the block has been started.
pub open spec fn initialized<T: Dispatchable>(
    runtime: T,
    state: State<T>,
    now: BlockNumber,
) -> Progress<T> {
    turns(
        started(runtime, state, now),
        now,
        runtime.weight_limit(),
        by_priority::<T>(gathered(runtime, state.slots(now)).queue),
    )
}

/// The next time of the task is a block number, where it is dispatched in its turn.
pub open spec fn turn_fits<T: Config>(
    progress: Progress<T>,
    now: BlockNumber,
    limit: Weight,
    order: nat,
    task: FoundTaskOf<T>,
) -> bool {
    is_dispatched(progress, limit, order, task) ==> period_fits(now, task.periodic)
}

/// The turn of the k-th task at the start of a block reckons with a time that is a block number.
pub open spec fn kth_turn_fits<T: Dispatchable>(
    runtime: T,
    state: State<T>,
    now: BlockNumber,
    k: int,
) -> bool {
    let queue = by_priority::<T>(gathered(runtime, state.slots(now)).queue);
    let limit = runtime.weight_limit();
    turn_fits(
        turns(started(runtime, state, now), now, limit, queue.take(k)),
        now,
        limit,
        k as nat,
        queue[k].1,
    )
}

/// All times that the start of a block reckons with are block numbers: that of the next block, and
/// the next time of each periodic task that is dispatched.
pub open spec fn times_fit<T: Dispatchable>(
    runtime: T,
    state: State<T>,
    now: BlockNumber,
) -> bool {
    let queue = by_priority::<T>(gathered(runtime, state.slots(now)).queue);
    &&& now < BlockNumber::MAX
    &&& forall|k: int|
        0 <= k < queue.len() ==> #[trigger] kth_turn_fits(runtime, state, now, k)
}

/// How far the start of a block comes that stops at the first turn which reckons with a time that
/// is no block number.
pub open spec fn stopped_at<T: Dispatchable>(
    runtime: T,
    state: State<T>,
    now: BlockNumber,
    k: int,
    end: (T, State<T>),
) -> bool {
    let queue = by_priority::<T>(gathered(runtime, state.slots(now)).queue);
    let reached = turns(
        started(runtime, state, now),
        now,
        runtime.weight_limit(),
        queue.take(k),
    );
    &&& 0 <= k < queue.len()
    &&& !kth_turn_fits(runtime, state, now, k)
    &&& forall|j: int| 0 <= j < k ==> #[trigger] kth_turn_fits(runtime, state, now, j)
    &&& end == (reached.runtime, reached.state)
}

impl<T: Config> Pallet<T> {
    /// Puts a task off to the next block.
    fn postpone(&mut self, now: BlockNumber, index: u32, task: ScheduledOf<T>)
        requires
            now < BlockNumber::MAX,
        ensures
            final(self)@ == put_off(old(self)@, now, index, task@),
    {
        let next = now + 1;
        let next_index = self.decode_len(next).unwrap_or(0);
        self.move_name(&task.maybe_id, (now, index), (next, next_index as u32));
        self.append(next, task);
    }

    /// Records that a task was dispatched, and with what result: a periodic task is put on the
    /// agenda of its next time.
    pub fn settle(
        &mut self,
        now: BlockNumber,
        index: u32,
        task: ScheduledOf<T>,
        result: CallResult,
    )
        requires
            period_fits(now, task.maybe_periodic),
        ensures
            final(self)@ == settled(old(self)@, now, index, task@, result),
    {
        let maybe_id = copy_id(&task.maybe_id);
        match task.maybe_periodic {
            Some((period, count)) => {
                let maybe_periodic = if count > 1 {
                    Some((period, count - 1))
                } else {
                    None
                };
                let next = now + period;
                if let Some(id) = &task.maybe_id {
                    let next_index = self.decode_len(next).unwrap_or(0);
                    self.lookup.insert(id.clone(), (next, next_index as u32));
                }
                self.append(next, ScheduledV3 { maybe_periodic, ..task });
            },
            None => {
                if let Some(id) = &task.maybe_id {
                    self.lookup.take(id);
                }
            },
        }
        self.deposit_event(Event::Dispatched((now, index), maybe_id, result));
    }

    /// Records that a task was aborted because its call was not found.
    pub fn abort(
        &mut self,
        now: BlockNumber,
        index: u32,
        maybe_id: Option<Vec<u8>>,
        reason: LookupError,
    )
        ensures
            final(self)@ == aborted(old(self)@, now, index, id_view(maybe_id), reason),
    {
        self.free_name(&maybe_id, (now, index));
        self.deposit_event(Event::CallLookupFailed((now, index), maybe_id, reason));
    }
}

impl<T: Dispatchable> Pallet<T> {
    /// Takes the tasks of a block off its agenda, looks up their calls, and says what that weighs.
    fn gather(&mut self, runtime: &mut T, now: BlockNumber) -> (due: (Vec<Due<T>>, Weight))
        ensures
            final(self)@ == (State { agenda: old(self)@.agenda.remove(now), ..old(self)@ }),
            ({
                let outcome = gathered(*old(runtime), old(self)@.slots(now));
                &&& *final(runtime) == outcome.runtime
                &&& queue_view::<T>(due.0@) == outcome.queue
                &&& due.1 == outcome.weight
            }),
    {
        let slots = self.take_slots(now);
        let ghost all = slots@;
        let ghost tasks = slots_view::<T>(all);
        let ghost start = *runtime;
        let mut weight = reads_writes(runtime.db_weight(), 1, 2);
        let mut queue: Vec<Due<T>> = Vec::new();
        let mut index: usize = 0;
        proof {
            assert(all.len() == slots.len());
            assert(tasks.take(0) =~= Seq::empty());
            assert(queue_view::<T>(queue@) =~= Seq::empty());
        }
        for slot in it: slots
            invariant
                it.seq() == all,
                tasks == slots_view::<T>(all),
                all.len() <= usize::MAX,
                index == it.index(),
                *runtime == gathered(start, tasks.take(index as int)).runtime,
                weight == gathered(start, tasks.take(index as int)).weight,
                queue_view::<T>(queue@) == gathered(start, tasks.take(index as int)).queue,
        {
            proof {
                assert(tasks.take(index + 1).drop_last() =~= tasks.take(index as int));
                assert(tasks.take(index + 1).last() == tasks[index as int]);
            }
            if let Some(task) = slot {
                let ghost before = queue@;
                let ScheduledV3 { maybe_id, priority, call, maybe_periodic, origin, _phantom } = task;
                let call = match lookup_call(call, &*runtime) {
                    Ok((call, maybe_completed)) => {
                        if let Some(completed) = maybe_completed {
                            weight = weight.saturating_add(reads_writes(runtime.db_weight(), 2, 2));
                            runtime.unrequest_preimage(&completed);
                        }
                        Ok(call)
                    },
                    Err(reason) => Err(reason),
                };
                let task = ScheduledV3 { maybe_id, priority, call, maybe_periodic, origin, _phantom };
                queue.push((index as u32, task));
                proof {
                    assert(queue_view::<T>(queue@) =~= queue_view::<T>(before).push(
                        (index as u32, task@),
                    ));
                }
            }
            index += 1;
        }
        assert(tasks.take(all.len() as int) =~= tasks);
        (queue, weight)
    }

    /// What all turns weigh with that of the task.
    fn weigh(runtime: &T, cumulative: Weight, task: &ScheduledFoundOf<T>) -> (weight: Weight)
        ensures
            weight == saturate(cumulative + turn_weight(*runtime, task@)),
    {
        let mut weight = cumulative;
        if let Ok(call) = &task.call {
            weight = weight.saturating_add(runtime.dispatch_weight(call));
            if T::is_signed(&task.origin) {
                // The account of the call's signer.
                weight = weight.saturating_add(reads_writes(runtime.db_weight(), 1, 1));
            }
        }
        if task.maybe_id.is_some() {
            // The name is removed or changed.
            weight = weight.saturating_add(db_writes(runtime.db_weight(), 1));
        }
        if task.maybe_periodic.is_some() {
            // The agenda of the task's next time.
            weight = weight.saturating_add(reads_writes(runtime.db_weight(), 1, 1));
        }
        weight
    }

    /// Gives a task its turn, and says what all turns weigh by then, and those up to the last
    /// dispatch; or leaves everything as it is where the next time of the task is no block number.
    fn take_turn(
        &mut self,
        runtime: &mut T,
        now: BlockNumber,
        limit: Weight,
        order: usize,
        weights: (Weight, Weight),
        due: Due<T>,
    ) -> (after: Option<(Weight, Weight)>)
        requires
            now < BlockNumber::MAX,
        ensures
            ({
                let before = Progress {
                    runtime: *old(runtime),
                    state: old(self)@,
                    cumulative: weights.0,
                    total: weights.1,
                };
                match after {
                    Some((cumulative, total)) => {
                        &&& turn_fits(before, now, limit, order as nat, due.1@)
                        &&& (Progress {
                            runtime: *final(runtime),
                            state: final(self)@,
                            cumulative,
                            total,
                        }) == turn(before, now, limit, order as nat, (due.0, due.1@))
                    },
                    None => {
                        &&& !turn_fits(before, now, limit, order as nat, due.1@)
                        &&& *final(runtime) == *old(runtime)
                        &&& final(self)@ == old(self)@
                    },
                }
            }),
    {
        let (index, task) = due;
        let cumulative = Self::weigh(&*runtime, weights.0, &task);
        let in_time = task.priority <= HARD_DEADLINE || cumulative <= limit || order == 0;
        let ScheduledV3 { maybe_id, priority, call, maybe_periodic, origin, _phantom } = task;
        let call = match call {
            Ok(call) => call,
            Err(reason) => {
                self.abort(now, index, maybe_id, reason);
                return Some((cumulative, weights.1));
            },
        };
        if !in_time {
            let call = MaybeHashed::Value(call);
            let task = ScheduledV3 { maybe_id, priority, call, maybe_periodic, origin, _phantom };
            self.postpone(now, index, task);
            return Some((cumulative, weights.1));
        }
        if let Some((period, _)) = maybe_periodic {
            if period > BlockNumber::MAX - now {
                return None;
            }
        }
        let result = runtime.dispatch(self, &origin, &call);
        let call = MaybeHashed::Value(call);
        let task = ScheduledV3 { maybe_id, priority, call, maybe_periodic, origin, _phantom };
        self.settle(now, index, task, result);
        Some((cumulative, cumulative))
    }

    /// Execute the scheduled calls
    ///
    /// The tasks of the block have their turn by priority. In its turn a task is dispatched or,
    /// where there is no room for its weight, put off to the next block; where its call is not
    /// found, it is aborted. Returns the weight of all turns up to the last dispatch.
    pub fn on_initialize(&mut self, runtime: &mut T, now: BlockNumber) -> (weight: Weight)
        requires
            times_fit(*old(runtime), old(self)@, now),
        ensures
            ({
                let end = initialized(*old(runtime), old(self)@, now);
                &&& *final(runtime) == end.runtime
                &&& final(self)@ == end.state
                &&& weight == end.total
            }),
    {
        self.try_initialize(runtime, now).unwrap()
    }

    /// Execute the scheduled calls, as `on_initialize` does, but stop before the first turn that
    /// reckons with a time which is no block number, and then return nothing.
    pub fn try_initialize(&mut self, runtime: &mut T, now: BlockNumber) -> (weight: Option<Weight>)
        ensures
            weight is Some <==> times_fit(*old(runtime), old(self)@, now),
            match weight {
                Some(weight) => {
                    let end = initialized(*old(runtime), old(self)@, now);
                    &&& *final(runtime) == end.runtime
                    &&& final(self)@ == end.state
                    &&& weight == end.total
                },
                None => if now == BlockNumber::MAX {
                    *final(runtime) == *old(runtime) && final(self)@ == old(self)@
                } else {
                    exists|k: int| #[trigger]
                        stopped_at(
                            *old(runtime),
                            old(self)@,
                            now,
                            k,
                            (*final(runtime), final(self)@),
                        )
                },
            },
    {
        if now == BlockNumber::MAX {
            return None;
        }
        let ghost begin = *runtime;
        let ghost state = self@;
        let limit = runtime.maximum_weight();
        let (queue, base_weight) = self.gather(runtime, now);
        let queue = sort_by_priority::<T>(queue);
        let ghost start = started(begin, state, now);
        let ghost all = queue@;
        let ghost tasks = queue_view::<T>(all);
        let mut weights: (Weight, Weight) = (base_weight, 0);
        let mut order: usize = 0;
        proof {
            assert(all.len() == queue.len());
            assert(tasks.take(0) =~= Seq::empty());
        }
        for due in it: queue
            invariant
                it.seq() == all,
                all.len() <= usize::MAX,
                tasks == queue_view::<T>(all),
                tasks == by_priority::<T>(gathered(begin, state.slots(now)).queue),
                start == started(begin, state, now),
                limit == begin.weight_limit(),
                begin == *old(runtime),
                state == old(self)@,
                now < BlockNumber::MAX,
                order == it.index(),
                forall|k: int| 0 <= k < order ==> #[trigger] kth_turn_fits(begin, state, now, k),
                (Progress {
                    runtime: *runtime,
                    state: self@,
                    cumulative: weights.0,
                    total: weights.1,
                }) == turns(start, now, limit, tasks.take(order as int)),
        {
            proof {
                assert(tasks.take(order + 1).drop_last() =~= tasks.take(order as int));
                assert(tasks.take(order + 1).last() == tasks[order as int]);
                assert(tasks[order as int] == (due.0, due.1@));
            }
            match self.take_turn(runtime, now, limit, order, weights, due) {
                Some(after) => {
                    weights = after;
                },
                None => {
                    proof {
                        assert(!kth_turn_fits(begin, state, now, order as int));
                        assert(stopped_at(begin, state, now, order as int, (*runtime, self@)));
                    }
                    return None;
                },
            }
            assert(kth_turn_fits(begin, state, now, order as int));
            order += 1;
        }
        assert(tasks.take(all.len() as int) =~= tasks);
        Some(weights.1)
    }
}

} // verus!
