//! The calls that the scheduler offers to those who may schedule.
use vstd::prelude::*;

use crate::calls::{
    cancel_named_outcome, cancel_outcome, refused, schedule_named_outcome, schedule_outcome,
    Outcome,
};
use crate::config::Config;
use crate::pallet::{CallOrHashOf, Pallet, State};
use crate::types::{
    BlockNumber, DispatchResult, DispatchTime, Period, Priority, SchedulerError, Task,
};

verus! {

/// What a request comes to that only those who may schedule can make, where `granted` is what it
/// comes to for them.
pub open spec fn guarded<T: Config, R>(
    runtime: T,
    state: State<T>,
    origin: T::Origin,
    granted: Outcome<T, Result<R, SchedulerError>>,
) -> Outcome<T, DispatchResult> {
    if runtime.may_schedule(origin) {
        Outcome {
            runtime: granted.runtime,
            state: granted.state,
            result: match granted.result {
                Ok(_) => Ok(()),
                Err(error) => Err(error),
            },
        }
    } else {
        refused(runtime, state, SchedulerError::BadOrigin)
    }
}

impl<T: Config> Pallet<T> {
    /// Anonymously schedule a task.
    pub fn schedule(
        &mut self,
        runtime: &mut T,
        origin: T::Origin,
        when: BlockNumber,
        maybe_periodic: Option<Period<BlockNumber>>,
        priority: Priority,
        call: Box<CallOrHashOf<T>>,
    ) -> (result: DispatchResult)
        requires
            old(runtime).may_schedule(origin) ==> old(self)@.has_room(
                old(runtime).now(),
                DispatchTime::At(when),
            ),
        ensures
            (Outcome { runtime: *final(runtime), state: final(self)@, result }) == guarded(
                *old(runtime),
                old(self)@,
                origin,
                schedule_outcome(
                    *old(runtime),
                    old(self)@,
                    DispatchTime::At(when),
                    Task {
                        id: None,
                        priority,
                        call: *call,
                        periodic: maybe_periodic,
                        origin: T::caller_of(origin),
                    },
                ),
            ),
    {
        if runtime.ensure_schedule_origin(&origin).is_err() {
            return Err(SchedulerError::BadOrigin);
        }
        let caller = T::caller(origin);
        self.do_schedule(
            runtime,
            DispatchTime::At(when),
            maybe_periodic,
            priority,
            caller,
            *call,
        )?;
        Ok(())
    }

    /// Cancel an anonymously scheduled task.
    pub fn cancel(
        &mut self,
        runtime: &mut T,
        origin: T::Origin,
        when: BlockNumber,
        index: u32,
    ) -> (result: DispatchResult)
        ensures
            (Outcome { runtime: *final(runtime), state: final(self)@, result }) == guarded(
                *old(runtime),
                old(self)@,
                origin,
                cancel_outcome(
                    *old(runtime),
                    old(self)@,
                    Some(T::caller_of(origin)),
                    (when, index),
                ),
            ),
    {
        if runtime.ensure_schedule_origin(&origin).is_err() {
            return Err(SchedulerError::BadOrigin);
        }
        let caller = T::caller(origin);
        self.do_cancel(runtime, Some(caller), (when, index))?;
        Ok(())
    }

    /// Schedule a named task.
    pub fn schedule_named(
        &mut self,
        runtime: &mut T,
        origin: T::Origin,
        id: Vec<u8>,
        when: BlockNumber,
        maybe_periodic: Option<Period<BlockNumber>>,
        priority: Priority,
        call: Box<CallOrHashOf<T>>,
    ) -> (result: DispatchResult)
        requires
            old(runtime).may_schedule(origin) && !old(self)@.lookup.contains_key(id@) ==> old(
                self,
            )@.has_room(old(runtime).now(), DispatchTime::At(when)),
        ensures
            (Outcome { runtime: *final(runtime), state: final(self)@, result }) == guarded(
                *old(runtime),
                old(self)@,
                origin,
                schedule_named_outcome(
                    *old(runtime),
                    old(self)@,
                    DispatchTime::At(when),
                    Task {
                        id: Some(id@),
                        priority,
                        call: *call,
                        periodic: maybe_periodic,
                        origin: T::caller_of(origin),
                    },
                ),
            ),
    {
        if runtime.ensure_schedule_origin(&origin).is_err() {
            return Err(SchedulerError::BadOrigin);
        }
        let caller = T::caller(origin);
        self.do_schedule_named(
            runtime,
            id,
            DispatchTime::At(when),
            maybe_periodic,
            priority,
            caller,
            *call,
        )?;
        Ok(())
    }

    /// Cancel a named scheduled task.
    pub fn cancel_named(
        &mut self,
        runtime: &mut T,
        origin: T::Origin,
        id: Vec<u8>,
    ) -> (result: DispatchResult)
        ensures
            (Outcome { runtime: *final(runtime), state: final(self)@, result }) == guarded(
                *old(runtime),
                old(self)@,
                origin,
                cancel_named_outcome(
                    *old(runtime),
                    old(self)@,
                    Some(T::caller_of(origin)),
                    id@,
                ),
            ),
    {
        if runtime.ensure_schedule_origin(&origin).is_err() {
            return Err(SchedulerError::BadOrigin);
        }
        let caller = T::caller(origin);
        self.do_cancel_named(runtime, Some(caller), id)?;
        Ok(())
    }

    /// Anonymously schedule a task after a delay.
    pub fn schedule_after(
        &mut self,
        runtime: &mut T,
        origin: T::Origin,
        after: BlockNumber,
        maybe_periodic: Option<Period<BlockNumber>>,
        priority: Priority,
        call: Box<CallOrHashOf<T>>,
    ) -> (result: DispatchResult)
        requires
            old(runtime).may_schedule(origin) ==> old(self)@.has_room(
                old(runtime).now(),
                DispatchTime::After(after),
            ),
        ensures
            (Outcome { runtime: *final(runtime), state: final(self)@, result }) == guarded(
                *old(runtime),
                old(self)@,
                origin,
                schedule_outcome(
                    *old(runtime),
                    old(self)@,
                    DispatchTime::After(after),
                    Task {
                        id: None,
                        priority,
                        call: *call,
                        periodic: maybe_periodic,
                        origin: T::caller_of(origin),
                    },
                ),
            ),
    {
        if runtime.ensure_schedule_origin(&origin).is_err() {
            return Err(SchedulerError::BadOrigin);
        }
        let caller = T::caller(origin);
        self.do_schedule(
            runtime,
            DispatchTime::After(after),
            maybe_periodic,
            priority,
            caller,
            *call,
        )?;
        Ok(())
    }

    /// Schedule a named task after a delay.
    pub fn schedule_named_after(
        &mut self,
        runtime: &mut T,
        origin: T::Origin,
        id: Vec<u8>,
        after: BlockNumber,
        maybe_periodic: Option<Period<BlockNumber>>,
        priority: Priority,
        call: Box<CallOrHashOf<T>>,
    ) -> (result: DispatchResult)
        requires
            old(runtime).may_schedule(origin) && !old(self)@.lookup.contains_key(id@) ==> old(
                self,
            )@.has_room(old(runtime).now(), DispatchTime::After(after)),
        ensures
            (Outcome { runtime: *final(runtime), state: final(self)@, result }) == guarded(
                *old(runtime),
                old(self)@,
                origin,
                schedule_named_outcome(
                    *old(runtime),
                    old(self)@,
                    DispatchTime::After(after),
                    Task {
                        id: Some(id@),
                        priority,
                        call: *call,
                        periodic: maybe_periodic,
                        origin: T::caller_of(origin),
                    },
                ),
            ),
    {
        if runtime.ensure_schedule_origin(&origin).is_err() {
            return Err(SchedulerError::BadOrigin);
        }
        let caller = T::caller(origin);
        self.do_schedule_named(
            runtime,
            id,
            DispatchTime::After(after),
            maybe_periodic,
            priority,
            caller,
            *call,
        )?;
        Ok(())
    }
}

} // verus!
