//! The scheduler of tasks without a name, as other parts of the runtime use it: there is no
//! origin that has to have the privilege to.
use vstd::prelude::*;

use crate::calls::{
    cancel_outcome, drop_reason, reschedule_outcome, schedule_outcome, without_reason, Outcome,
};
use crate::config::Config;
use crate::pallet::{CallOrHashOf, Pallet};
use crate::types::{
    BlockNumber, DispatchTime, Period, Priority, SchedulerError, Task, TaskAddress,
};

verus! {

/// Schedule a dispatch to happen at the beginning of some block in the future.
pub fn schedule<T: Config>(
    pallet: &mut Pallet<T>,
    runtime: &mut T,
    when: DispatchTime<BlockNumber>,
    maybe_periodic: Option<Period<BlockNumber>>,
    priority: Priority,
    origin: T::PalletsOrigin,
    call: CallOrHashOf<T>,
) -> (result: Result<TaskAddress<BlockNumber>, SchedulerError>)
    requires
        old(pallet)@.has_room(old(runtime).now(), when),
    ensures
        (Outcome { runtime: *final(runtime), state: final(pallet)@, result }) == schedule_outcome(
            *old(runtime),
            old(pallet)@,
            when,
            Task { id: None, priority, call, periodic: maybe_periodic, origin },
        ),
{
    pallet.do_schedule(runtime, when, maybe_periodic, priority, origin, call)
}

/// Cancel a scheduled task. If periodic, then it will cancel all further instances of that, also.
pub fn cancel<T: Config>(
    pallet: &mut Pallet<T>,
    runtime: &mut T,
    address: TaskAddress<BlockNumber>,
) -> (result: Result<(), ()>)
    ensures
        (Outcome { runtime: *final(runtime), state: final(pallet)@, result }) == without_reason(
            cancel_outcome(*old(runtime), old(pallet)@, None, address),
        ),
{
    drop_reason(pallet.do_cancel(runtime, None, address))
}

/// Reschedule a task.
pub fn reschedule<T: Config>(
    pallet: &mut Pallet<T>,
    runtime: &T,
    address: TaskAddress<BlockNumber>,
    when: DispatchTime<BlockNumber>,
) -> (result: Result<TaskAddress<BlockNumber>, SchedulerError>)
    requires
        reschedule_outcome(*runtime, old(pallet)@, address, when).result is Ok ==> old(
            pallet,
        )@.has_room(runtime.now(), when),
    ensures
        (Outcome { runtime: *runtime, state: final(pallet)@, result }) == reschedule_outcome(
            *runtime,
            old(pallet)@,
            address,
            when,
        ),
{
    pallet.do_reschedule(runtime, address, when)
}

/// Return the next dispatch time for a given task: the block of an address that has a slot,
/// though the slot may be empty by now.
pub fn next_dispatch_time<T: Config>(
    pallet: &Pallet<T>,
    address: TaskAddress<BlockNumber>,
) -> (time: Result<BlockNumber, ()>)
    ensures
        time == pallet@.dispatch_time(address),
{
    let (when, index) = address;
    let len = pallet.decode_len(when).unwrap_or(0);
    if (index as usize) < len {
        Ok(when)
    } else {
        Err(())
    }
}

} // verus!
