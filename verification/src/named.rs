//! The scheduler of tasks with a name, as other parts of the runtime use it: there is no origin
//! that has to have the privilege to.
use vstd::prelude::*;

use crate::calls::{
    cancel_named_outcome, drop_reason, reschedule_named_outcome, schedule_named_outcome,
    without_reason, Outcome,
};
use crate::config::Config;
use crate::pallet::{CallOrHashOf, Pallet};
use crate::types::{
    BlockNumber, DispatchTime, Period, Priority, SchedulerError, Task, TaskAddress,
};

verus! {

/// Schedule a dispatch to happen at the beginning of some block in the future.
///
/// - `id`: The identity of the task. This must be unique and will return an error if not.
pub fn schedule_named<T: Config>(
    pallet: &mut Pallet<T>,
    runtime: &mut T,
    id: Vec<u8>,
    when: DispatchTime<BlockNumber>,
    maybe_periodic: Option<Period<BlockNumber>>,
    priority: Priority,
    origin: T::PalletsOrigin,
    call: CallOrHashOf<T>,
) -> (result: Result<TaskAddress<BlockNumber>, ()>)
    requires
        !old(pallet)@.lookup.contains_key(id@) ==> old(pallet)@.has_room(old(runtime).now(), when),
    ensures
        (Outcome { runtime: *final(runtime), state: final(pallet)@, result }) == without_reason(
            schedule_named_outcome(
                *old(runtime),
                old(pallet)@,
                when,
                Task { id: Some(id@), priority, call, periodic: maybe_periodic, origin },
            ),
        ),
{
    drop_reason(
        pallet.do_schedule_named(runtime, id, when, maybe_periodic, priority, origin, call),
    )
}

/// Cancel a scheduled, named task. If periodic, then it will cancel all further instances of
/// that, also.
pub fn cancel_named<T: Config>(
    pallet: &mut Pallet<T>,
    runtime: &mut T,
    id: Vec<u8>,
) -> (result: Result<(), ()>)
    ensures
        (Outcome { runtime: *final(runtime), state: final(pallet)@, result }) == without_reason(
            cancel_named_outcome(*old(runtime), old(pallet)@, None, id@),
        ),
{
    drop_reason(pallet.do_cancel_named(runtime, None, id))
}

/// Reschedule a task.
pub fn reschedule_named<T: Config>(
    pallet: &mut Pallet<T>,
    runtime: &T,
    id: Vec<u8>,
    when: DispatchTime<BlockNumber>,
) -> (result: Result<TaskAddress<BlockNumber>, SchedulerError>)
    requires
        reschedule_named_outcome(*runtime, old(pallet)@, id@, when).result is Ok ==> old(
            pallet,
        )@.has_room(runtime.now(), when),
    ensures
        (Outcome { runtime: *runtime, state: final(pallet)@, result }) == reschedule_named_outcome(
            *runtime,
            old(pallet)@,
            id@,
            when,
        ),
{
    pallet.do_reschedule_named(runtime, id, when)
}

/// Return the next dispatch time for a given task: the block of the address that the name leads
/// to, where that has a slot.
pub fn next_dispatch_time<T: Config>(pallet: &Pallet<T>, id: Vec<u8>) -> (time: Result<
    BlockNumber,
    (),
>)
    ensures
        time == pallet@.named_dispatch_time(id@),
{
    match pallet.lookup.get(&id) {
        Some(address) => crate::anon::next_dispatch_time(pallet, *address),
        None => Err(()),
    }
}

} // verus!
