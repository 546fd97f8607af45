//! Scheduling, rescheduling and canceling of tasks.
use core::marker::PhantomData;
use vstd::prelude::*;

use crate::config::Config;
use crate::pallet::{slot_view, slots_view, CallOrHashOf, Pallet, ScheduledOf, State, TaskOf};
use crate::preimages::{ensure_requested, ensure_unrequested, requesting, unrequesting};
use crate::privileges::{check_privilege, may_cancel};
use crate::types::{
    copy_id, BlockNumber, DispatchResult, DispatchTime, Error, Event, EventView, Period, Priority,
    ScheduledV3, SchedulerError, Task, TaskAddress,
};

verus! {

/// The runtime and the scheduler's state after a request, and the answer to it.
#[verifier::ext_equal]
#[verifier::reject_recursive_types(T)]
pub struct Outcome<T: Config, R> {
    pub runtime: T,
    pub state: State<T>,
    pub result: R,
}

/// A request that was refused: nothing has changed.
pub open spec fn refused<T: Config, R>(
    runtime: T,
    state: State<T>,
    error: SchedulerError,
) -> Outcome<T, Result<R, SchedulerError>> {
    Outcome { runtime, state, result: Err(error) }
}

/// The block that a dispatch time means: a later one than the current block, which has already
/// completed its scheduled tasks.
pub open spec fn target_block(now: BlockNumber, when: DispatchTime<BlockNumber>) -> Result<
    BlockNumber,
    SchedulerError,
> {
    let at = match when {
        DispatchTime::At(block) => block,
        DispatchTime::After(delay) => if now + delay + 1 > BlockNumber::MAX {
            BlockNumber::MAX
        } else {
            (now + delay + 1) as BlockNumber
        },
    };
    if at <= now {
        Err(SchedulerError::Module(Error::TargetBlockNumberInPast))
    } else {
        Ok(at)
    }
}

/// The repetitions of a task that are left once it is scheduled the first time: none where the
/// period is empty or one execution is all.
pub open spec fn sanitized(periodic: Option<Period<BlockNumber>>) -> Option<Period<BlockNumber>> {
    match periodic {
        Some((period, count)) => if count > 1 && period != 0 {
            Some((period, (count - 1) as u32))
        } else {
            None
        },
        None => None,
    }
}

impl<T: Config> State<T> {
    /// The address that the next task on the agenda of a block gets.
    pub open spec fn next_address(self, when: BlockNumber) -> TaskAddress<BlockNumber> {
        (when, self.slots(when).len() as u32)
    }

    /// The agenda of the block that is meant, if a block is meant, has room for one more task:
    /// an index tells its slots apart.
    pub open spec fn has_room(self, now: BlockNumber, when: DispatchTime<BlockNumber>) -> bool {
        match target_block(now, when) {
            Ok(at) => self.slots(at).len() < u32::MAX,
            Err(_) => true,
        }
    }

    /// The state after a task was scheduled at a block.
    pub open spec fn with_task(self, at: BlockNumber, task: TaskOf<T>) -> Self {
        let address = self.next_address(at);
        let state = self.appended(at, task);
        let state = match task.id {
            Some(id) => state.with_name(id, address),
            None => state,
        };
        state.reporting(EventView::Scheduled(address.0, address.1))
    }

    /// The state after a task was moved from its address to another block: its name, where it led
    /// to the task, leads there.
    pub open spec fn with_moved(
        self,
        address: TaskAddress<BlockNumber>,
        at: BlockNumber,
        task: TaskOf<T>,
    ) -> Self {
        let to = self.next_address(at);
        self.emptied(address).appended(at, task).with_name_moved(task.id, address, to).reporting(
            EventView::Canceled(address.0, address.1),
        ).reporting(EventView::Scheduled(to.0, to.1))
    }
}

/// What it comes to to schedule a task.
pub open spec fn schedule_outcome<T: Config>(
    runtime: T,
    state: State<T>,
    when: DispatchTime<BlockNumber>,
    task: TaskOf<T>,
) -> Outcome<T, Result<TaskAddress<BlockNumber>, SchedulerError>> {
    match target_block(runtime.now(), when) {
        Ok(at) => Outcome {
            runtime: requesting(runtime, task.call),
            state: state.with_task(at, Task { periodic: sanitized(task.periodic), ..task }),
            result: Ok(state.next_address(at)),
        },
        Err(error) => refused(runtime, state, error),
    }
}

/// What it comes to to schedule a task under a name: the name must be a new one.
pub open spec fn schedule_named_outcome<T: Config>(
    runtime: T,
    state: State<T>,
    when: DispatchTime<BlockNumber>,
    task: TaskOf<T>,
) -> Outcome<T, Result<TaskAddress<BlockNumber>, SchedulerError>> {
    if task.id is Some && state.lookup.contains_key(task.id->0) {
        refused(runtime, state, SchedulerError::Module(Error::FailedToSchedule))
    } else {
        schedule_outcome(runtime, state, when, task)
    }
}

/// What it comes to to cancel the task at an address.
pub open spec fn cancel_outcome<T: Config>(
    runtime: T,
    state: State<T>,
    origin: Option<T::PalletsOrigin>,
    address: TaskAddress<BlockNumber>,
) -> Outcome<T, DispatchResult> {
    match state.task_at(address) {
        Some(task) => if may_cancel(runtime, origin, task.origin) {
            Outcome {
                runtime: unrequesting(runtime, task.call),
                state: state.emptied(address).without_name(task.id).reporting(
                    EventView::Canceled(address.0, address.1),
                ),
                result: Ok(()),
            }
        } else {
            refused(runtime, state, SchedulerError::BadOrigin)
        },
        // The agenda is written back as it was, though it were empty.
        None => Outcome {
            runtime,
            state: state.with_slots(address.0, state.slots(address.0)),
            result: Err(SchedulerError::Module(Error::NotFound)),
        },
    }
}

/// What it comes to to cancel the task with a name. The name is free from then on, whether or not
/// it still led to a task. The runtime itself does not withdraw the request for a preimage.
pub open spec fn cancel_named_outcome<T: Config>(
    runtime: T,
    state: State<T>,
    origin: Option<T::PalletsOrigin>,
    id: Seq<u8>,
) -> Outcome<T, DispatchResult> {
    if state.lookup.contains_key(id) {
        let address = state.lookup[id];
        let report = EventView::Canceled(address.0, address.1);
        match state.task_at(address) {
            Some(task) => if may_cancel(runtime, origin, task.origin) {
                Outcome {
                    runtime: if origin is Some {
                        unrequesting(runtime, task.call)
                    } else {
                        runtime
                    },
                    state: state.emptied(address).without_name(Some(id)).reporting(report),
                    result: Ok(()),
                }
            } else {
                refused(runtime, state, SchedulerError::BadOrigin)
            },
            None => Outcome {
                runtime,
                state: state.with_slots(address.0, state.slots(address.0)).without_name(
                    Some(id),
                ).reporting(report),
                result: Ok(()),
            },
        }
    } else {
        refused(runtime, state, SchedulerError::Module(Error::NotFound))
    }
}

/// What it comes to to move the task at an address to another block.
pub open spec fn reschedule_outcome<T: Config>(
    runtime: T,
    state: State<T>,
    address: TaskAddress<BlockNumber>,
    new_time: DispatchTime<BlockNumber>,
) -> Outcome<T, Result<TaskAddress<BlockNumber>, SchedulerError>> {
    match target_block(runtime.now(), new_time) {
        Ok(at) => if at == address.0 {
            refused(runtime, state, SchedulerError::Module(Error::RescheduleNoChange))
        } else {
            match state.task_at(address) {
                Some(task) => Outcome {
                    runtime,
                    state: state.with_moved(address, at, task),
                    result: Ok(state.next_address(at)),
                },
                None => refused(runtime, state, SchedulerError::Module(Error::NotFound)),
            }
        },
        Err(error) => refused(runtime, state, error),
    }
}

/// What it comes to to move the task with a name to another block: the name leads there.
pub open spec fn reschedule_named_outcome<T: Config>(
    runtime: T,
    state: State<T>,
    id: Seq<u8>,
    new_time: DispatchTime<BlockNumber>,
) -> Outcome<T, Result<TaskAddress<BlockNumber>, SchedulerError>> {
    match target_block(runtime.now(), new_time) {
        Ok(at) => if state.lookup.contains_key(id) {
            let moved = reschedule_outcome(runtime, state, state.lookup[id], new_time);
            match moved.result {
                Ok(address) => Outcome { state: moved.state.with_name(id, address), ..moved },
                Err(_) => moved,
            }
        } else {
            refused(runtime, state, SchedulerError::Module(Error::NotFound))
        },
        Err(error) => refused(runtime, state, error),
    }
}

/// The outcome without the reason of a failure.
pub open spec fn without_reason<T: Config, R>(
    outcome: Outcome<T, Result<R, SchedulerError>>,
) -> Outcome<T, Result<R, ()>> {
    Outcome {
        runtime: outcome.runtime,
        state: outcome.state,
        result: match outcome.result {
            Ok(value) => Ok(value),
            Err(_) => Err(()),
        },
    }
}

/// The result without the reason of a failure.
pub(crate) fn drop_reason<R>(result: Result<R, SchedulerError>) -> (plain: Result<R, ()>)
    ensures
        plain == (match result {
            Ok(value) => Ok(value),
            Err(_) => Err(()),
        }),
{
    match result {
        Ok(value) => Ok(value),
        Err(_) => Err(()),
    }
}

impl<T: Config> Pallet<T> {
    /// The task at an address.
    pub fn task(&self, address: TaskAddress<BlockNumber>) -> (task: Option<&ScheduledOf<T>>)
        ensures
            match task {
                Some(task) => self@.task_at(address) == Some(task@),
                None => self@.task_at(address) is None,
            },
    {
        let (when, index) = address;
        match self.agenda.get(&when) {
            Some(slots) => if (index as usize) < slots.len() {
                slots[index as usize].as_ref()
            } else {
                None
            },
            None => None,
        }
    }

    /// Takes the task at an address out of its slot, and writes the agenda of the block back.
    fn take_task(&mut self, address: TaskAddress<BlockNumber>) -> (task: Option<ScheduledOf<T>>)
        ensures
            slot_view::<T>(task) == old(self)@.task_at(address),
            final(self)@ == (match old(self)@.task_at(address) {
                Some(_) => old(self)@.emptied(address),
                None => old(self)@.with_slots(address.0, old(self)@.slots(address.0)),
            }),
    {
        let (when, index) = address;
        let mut slots = self.take_slots(when);
        let ghost before = slots_view::<T>(slots@);
        let task = if (index as usize) < slots.len() {
            slots[index as usize].take()
        } else {
            None
        };
        proof {
            let after = slots_view::<T>(slots@);
            match old(self)@.task_at(address) {
                Some(_) => assert(after =~= before.update(index as int, None)),
                None => assert(after =~= before),
            }
            assert(old(self)@.agenda.remove(when).insert(when, after) =~= old(
                self,
            )@.agenda.insert(when, after));
        }
        self.put_slots(when, slots);
        task
    }

    /// The block that a dispatch time means.
    pub fn resolve_time(runtime: &T, when: DispatchTime<BlockNumber>) -> (at: Result<
        BlockNumber,
        SchedulerError,
    >)
        ensures
            at == target_block(runtime.now(), when),
    {
        let now = runtime.block_number();
        let when = match when {
            DispatchTime::At(x) => x,
            // The current block has already completed its scheduled tasks, so schedule the task
            // at least one block after it.
            DispatchTime::After(x) => now.saturating_add(x).saturating_add(1),
        };
        if when <= now {
            return Err(SchedulerError::Module(Error::TargetBlockNumberInPast));
        }
        Ok(when)
    }

    /// Whether the agenda of the block that is meant, if a block is meant, has room for one more
    /// task.
    pub fn room_at(&self, runtime: &T, when: DispatchTime<BlockNumber>) -> (room: bool)
        ensures
            room == self@.has_room(runtime.now(), when),
    {
        match Self::resolve_time(runtime, when) {
            Ok(at) => self.decode_len(at).unwrap_or(0) < u32::MAX as usize,
            Err(_) => true,
        }
    }

    /// The repetitions of a task that are left once it is scheduled the first time.
    fn sanitize(maybe_periodic: Option<Period<BlockNumber>>) -> (periodic: Option<
        Period<BlockNumber>,
    >)
        ensures
            periodic == sanitized(maybe_periodic),
    {
        match maybe_periodic {
            // Remove one from the number of repetitions since we will schedule one now.
            Some((period, count)) if count > 1 && period != 0 => Some((period, count - 1)),
            _ => None,
        }
    }

    /// Puts a task on the agenda of a block, and says at which address.
    fn place_task(&mut self, at: BlockNumber, task: ScheduledOf<T>) -> (address: TaskAddress<
        BlockNumber,
    >)
        requires
            old(self)@.slots(at).len() < u32::MAX,
        ensures
            final(self)@ == old(self)@.appended(at, task@),
            address == old(self)@.next_address(at),
    {
        self.append(at, task);
        let index = self.decode_len(at).unwrap_or(1) as u32 - 1;
        (at, index)
    }

    /// Schedules a task that has no name.
    pub fn do_schedule(
        &mut self,
        runtime: &mut T,
        when: DispatchTime<BlockNumber>,
        maybe_periodic: Option<Period<BlockNumber>>,
        priority: Priority,
        origin: T::PalletsOrigin,
        call: CallOrHashOf<T>,
    ) -> (result: Result<TaskAddress<BlockNumber>, SchedulerError>)
        requires
            old(self)@.has_room(old(runtime).now(), when),
        ensures
            (Outcome { runtime: *final(runtime), state: final(self)@, result }) == schedule_outcome(
                *old(runtime),
                old(self)@,
                when,
                Task { id: None, priority, call, periodic: maybe_periodic, origin },
            ),
    {
        let when = Self::resolve_time(&*runtime, when)?;
        ensure_requested::<T>(&call, runtime);
        let maybe_periodic = Self::sanitize(maybe_periodic);
        let task = ScheduledV3 {
            maybe_id: None,
            priority,
            call,
            maybe_periodic,
            origin,
            _phantom: PhantomData,
        };
        let (when, index) = self.place_task(when, task);
        self.deposit_event(Event::Scheduled(when, index));
        Ok((when, index))
    }

    /// Cancels the task at an address. Where there is an origin, it must have the privilege to.
    pub fn do_cancel(
        &mut self,
        runtime: &mut T,
        origin: Option<T::PalletsOrigin>,
        address: TaskAddress<BlockNumber>,
    ) -> (result: DispatchResult)
        ensures
            (Outcome { runtime: *final(runtime), state: final(self)@, result }) == cancel_outcome(
                *old(runtime),
                old(self)@,
                origin,
                address,
            ),
    {
        if let Some(task) = self.task(address) {
            if !check_privilege(&*runtime, &origin, &task.origin) {
                return Err(SchedulerError::BadOrigin);
            }
        }
        match self.take_task(address) {
            Some(task) => {
                ensure_unrequested::<T>(&task.call, runtime);
                if let Some(id) = &task.maybe_id {
                    self.lookup.take(id);
                }
                self.deposit_event(Event::Canceled(address.0, address.1));
                Ok(())
            },
            None => Err(SchedulerError::Module(Error::NotFound)),
        }
    }

    /// Moves the task at an address to another block.
    pub fn do_reschedule(
        &mut self,
        runtime: &T,
        address: TaskAddress<BlockNumber>,
        new_time: DispatchTime<BlockNumber>,
    ) -> (result: Result<TaskAddress<BlockNumber>, SchedulerError>)
        requires
            reschedule_outcome(*runtime, old(self)@, address, new_time).result is Ok ==> old(
                self,
            )@.has_room(runtime.now(), new_time),
        ensures
            (Outcome { runtime: *runtime, state: final(self)@, result }) == reschedule_outcome(
                *runtime,
                old(self)@,
                address,
                new_time,
            ),
    {
        let new_time = Self::resolve_time(runtime, new_time)?;
        if new_time == address.0 {
            return Err(SchedulerError::Module(Error::RescheduleNoChange));
        }
        if self.task(address).is_none() {
            return Err(SchedulerError::Module(Error::NotFound));
        }
        match self.take_task(address) {
            Some(task) => {
                let maybe_id = copy_id(&task.maybe_id);
                let new_address = self.place_task(new_time, task);
                self.move_name(&maybe_id, address, new_address);
                self.deposit_event(Event::Canceled(address.0, address.1));
                self.deposit_event(Event::Scheduled(new_address.0, new_address.1));
                Ok(new_address)
            },
            None => Err(SchedulerError::Module(Error::NotFound)),
        }
    }

    /// Schedules a task under a name, which must be a new one.
    pub fn do_schedule_named(
        &mut self,
        runtime: &mut T,
        id: Vec<u8>,
        when: DispatchTime<BlockNumber>,
        maybe_periodic: Option<Period<BlockNumber>>,
        priority: Priority,
        origin: T::PalletsOrigin,
        call: CallOrHashOf<T>,
    ) -> (result: Result<TaskAddress<BlockNumber>, SchedulerError>)
        requires
            !old(self)@.lookup.contains_key(id@) ==> old(self)@.has_room(old(runtime).now(), when),
        ensures
            (Outcome { runtime: *final(runtime), state: final(self)@, result })
                == schedule_named_outcome(
                *old(runtime),
                old(self)@,
                when,
                Task { id: Some(id@), priority, call, periodic: maybe_periodic, origin },
            ),
    {
        // ensure id it is unique
        if self.lookup.contains_key(&id) {
            return Err(SchedulerError::Module(Error::FailedToSchedule));
        }
        let when = Self::resolve_time(&*runtime, when)?;
        ensure_requested::<T>(&call, runtime);
        let maybe_periodic = Self::sanitize(maybe_periodic);
        let name = id.clone();
        assert(name@ =~= id@);
        let task = ScheduledV3 {
            maybe_id: Some(name),
            priority,
            call,
            maybe_periodic,
            origin,
            _phantom: PhantomData,
        };
        let address = self.place_task(when, task);
        self.lookup.insert(id, address);
        self.deposit_event(Event::Scheduled(address.0, address.1));
        Ok(address)
    }

    /// Cancels the task with a name. Where there is an origin, it must have the privilege to.
    pub fn do_cancel_named(
        &mut self,
        runtime: &mut T,
        origin: Option<T::PalletsOrigin>,
        id: Vec<u8>,
    ) -> (result: DispatchResult)
        ensures
            (Outcome { runtime: *final(runtime), state: final(self)@, result })
                == cancel_named_outcome(*old(runtime), old(self)@, origin, id@),
    {
        let address = match self.lookup.get(&id) {
            Some(address) => *address,
            None => return Err(SchedulerError::Module(Error::NotFound)),
        };
        if let Some(task) = self.task(address) {
            if !check_privilege(&*runtime, &origin, &task.origin) {
                return Err(SchedulerError::BadOrigin);
            }
            if origin.is_some() {
                ensure_unrequested::<T>(&task.call, runtime);
            }
        }
        self.take_task(address);
        self.lookup.take(&id);
        self.deposit_event(Event::Canceled(address.0, address.1));
        Ok(())
    }

    /// Moves the task with a name to another block.
    pub fn do_reschedule_named(
        &mut self,
        runtime: &T,
        id: Vec<u8>,
        new_time: DispatchTime<BlockNumber>,
    ) -> (result: Result<TaskAddress<BlockNumber>, SchedulerError>)
        requires
            reschedule_named_outcome(*runtime, old(self)@, id@, new_time).result is Ok ==> old(
                self,
            )@.has_room(runtime.now(), new_time),
        ensures
            (Outcome { runtime: *runtime, state: final(self)@, result })
                == reschedule_named_outcome(*runtime, old(self)@, id@, new_time),
    {
        Self::resolve_time(runtime, new_time)?;
        let address = match self.lookup.get(&id) {
            Some(address) => *address,
            None => return Err(SchedulerError::Module(Error::NotFound)),
        };
        let new_address = self.do_reschedule(runtime, address, new_time)?;
        self.lookup.insert(id, new_address);
        Ok(new_address)
    }
}

} // verus!
