//! What each request comes to, by what is asked for and what is there.
use vstd::prelude::*;

use crate::anon;
use crate::config::Config;
use crate::named;
use crate::pallet::{CallOrHashOf, Pallet, ScheduledOf, State};
use crate::privileges::may_cancel;
use crate::types::{
    BlockNumber, DispatchResult, DispatchTime, Error, EventView, MaybeHashed, Period, Priority,
    SchedulerError, Task, TaskAddress,
};

verus! {

/// A block is meant where it is later than the current one: the given one, or that behind as many
/// blocks as are given, or the last of all where there are not so many.
pub proof fn law_what_block_is_meant<T: Config>(
    runtime: T,
    when: DispatchTime<BlockNumber>,
    result: Result<BlockNumber, SchedulerError>,
)
    requires
        call_ensures(Pallet::<T>::resolve_time, (&runtime, when), result),
    ensures
        match when {
            DispatchTime::At(block) => if block > runtime.now() {
                result == Ok::<BlockNumber, SchedulerError>(block)
            } else {
                result == Err::<BlockNumber, SchedulerError>(
                    SchedulerError::Module(Error::TargetBlockNumberInPast),
                )
            },
            DispatchTime::After(delay) => match result {
                Ok(at) => {
                    &&& runtime.now() < at <= runtime.now() + delay + 1
                    &&& at < runtime.now() + delay + 1 ==> at == BlockNumber::MAX
                },
                Err(error) => {
                    &&& runtime.now() == BlockNumber::MAX
                    &&& error == SchedulerError::Module(Error::TargetBlockNumberInPast)
                },
            },
        },
        call_requires(Pallet::<T>::resolve_time, (&runtime, when)),
{
}

/// The agenda of a block has room for as many tasks as an index can tell apart.
pub proof fn law_where_there_is_room<T: Config>(
    pallet: Pallet<T>,
    runtime: T,
    when: DispatchTime<BlockNumber>,
    meant: Result<BlockNumber, SchedulerError>,
    room: bool,
)
    requires
        call_ensures(Pallet::<T>::resolve_time, (&runtime, when), meant),
        call_ensures(Pallet::<T>::room_at, (&pallet, &runtime, when), room),
    ensures
        room <==> (meant matches Ok(at) ==> pallet@.slots(at).len() < u32::MAX),
        call_requires(Pallet::<T>::room_at, (&pallet, &runtime, when)),
{
}

/// A task is told of exactly where there is one, and it is that one.
pub proof fn law_tasks_are_told_of<T: Config>(
    pallet: Pallet<T>,
    address: TaskAddress<BlockNumber>,
    task: Option<&ScheduledOf<T>>,
    len: Option<usize>,
)
    requires
        call_ensures(Pallet::<T>::task, (&pallet, address), task),
        call_ensures(Pallet::<T>::decode_len, (&pallet, address.0), len),
    ensures
        len is Some <==> pallet.agenda@.contains_key(address.0),
        len matches Some(len) ==> len == pallet.agenda@[address.0]@.len(),
        match task {
            Some(found) => {
                &&& pallet.agenda@.contains_key(address.0)
                &&& address.1 < pallet.agenda@[address.0]@.len()
                &&& pallet.agenda@[address.0]@[address.1 as int] matches Some(held) && found@
                    == held@
            },
            None => pallet.agenda@.contains_key(address.0) && address.1
                < pallet.agenda@[address.0]@.len()
                ==> pallet.agenda@[address.0]@[address.1 as int] is None,
        },
        call_requires(Pallet::<T>::task, (&pallet, address)),
        call_requires(Pallet::<T>::decode_len, (&pallet, address.0)),
{
}

/// A task is scheduled wherever a later block is meant, and else refused. What is scheduled is the
/// call that was given, from the origin and with the priority that were given, with the period that
/// was given and one repetition less than was asked for; it goes behind the others of the block,
/// and its preimage is requested. Nothing else changes.
pub proof fn law_what_is_scheduled<T: Config>(
    pallet: &mut Pallet<T>,
    runtime: &mut T,
    when: DispatchTime<BlockNumber>,
    maybe_periodic: Option<Period<BlockNumber>>,
    priority: Priority,
    origin: T::PalletsOrigin,
    call: CallOrHashOf<T>,
    result: Result<TaskAddress<BlockNumber>, SchedulerError>,
)
    requires
        call_ensures(
            Pallet::<T>::do_schedule,
            (pallet, runtime, when, maybe_periodic, priority, origin, call),
            result,
        ),
    ensures
        ({
            let before = old(pallet)@;
            let now = old(runtime).now();
            let meant: int = match when {
                DispatchTime::At(block) => block as int,
                DispatchTime::After(delay) => now + delay + 1,
            };
            let at = (if meant > BlockNumber::MAX {
                BlockNumber::MAX as int
            } else {
                meant
            }) as BlockNumber;
            let index = before.slots(at).len();
            let kept = match maybe_periodic {
                Some((period, count)) => if period > 0 && count > 1 {
                    Some((period, (count - 1) as u32))
                } else {
                    None
                },
                None => None,
            };
            let task = Task { id: None, priority, call, periodic: kept, origin };
            &&& {
                &&& at <= now <==> result == Err::<TaskAddress<BlockNumber>, SchedulerError>(
                    SchedulerError::Module(Error::TargetBlockNumberInPast),
                )
                &&& at > now <==> result is Ok
            }
            &&& result is Err ==> final(pallet)@ == before && *final(runtime) == *old(runtime)
            &&& result matches Ok(address) ==> {
                &&& address.0 == at
                &&& index <= u32::MAX ==> address.1 == index
                &&& final(pallet)@ == (State {
                    agenda: before.agenda.insert(at, before.slots(at).push(Some(task))),
                    lookup: before.lookup,
                    events: before.events.push(EventView::Scheduled(at, address.1)),
                    ..before
                })
                &&& *final(runtime) == (match call {
                    MaybeHashed::Value(_) => *old(runtime),
                    MaybeHashed::Hash(hash) => old(runtime).requested(hash),
                })
            }
            &&& index < u32::MAX || at <= now ==> call_requires(
                Pallet::<T>::do_schedule,
                (pallet, runtime, when, maybe_periodic, priority, origin, call),
            )
        }),
{
}

/// A task is scheduled under a name wherever the name is free and a later block is meant, and else
/// refused. What is scheduled has the name, and the name leads to it; for the rest it is what is
/// scheduled without one.
pub proof fn law_what_is_scheduled_under_a_name<T: Config>(
    pallet: &mut Pallet<T>,
    runtime: &mut T,
    id: Vec<u8>,
    when: DispatchTime<BlockNumber>,
    maybe_periodic: Option<Period<BlockNumber>>,
    priority: Priority,
    origin: T::PalletsOrigin,
    call: CallOrHashOf<T>,
    result: Result<TaskAddress<BlockNumber>, SchedulerError>,
)
    requires
        call_ensures(
            Pallet::<T>::do_schedule_named,
            (pallet, runtime, id, when, maybe_periodic, priority, origin, call),
            result,
        ),
    ensures
        ({
            let before = old(pallet)@;
            let now = old(runtime).now();
            let meant: int = match when {
                DispatchTime::At(block) => block as int,
                DispatchTime::After(delay) => now + delay + 1,
            };
            let at = (if meant > BlockNumber::MAX {
                BlockNumber::MAX as int
            } else {
                meant
            }) as BlockNumber;
            let index = before.slots(at).len();
            let kept = match maybe_periodic {
                Some((period, count)) => if period > 0 && count > 1 {
                    Some((period, (count - 1) as u32))
                } else {
                    None
                },
                None => None,
            };
            let task = Task { id: Some(id@), priority, call, periodic: kept, origin };
            &&& before.lookup.contains_key(id@) <==> result == Err::<
                TaskAddress<BlockNumber>,
                SchedulerError,
            >(SchedulerError::Module(Error::FailedToSchedule))
            &&& !before.lookup.contains_key(id@) ==> {
                &&& at <= now <==> result == Err::<TaskAddress<BlockNumber>, SchedulerError>(
                    SchedulerError::Module(Error::TargetBlockNumberInPast),
                )
                &&& at > now <==> result is Ok
            }
            &&& result is Err ==> final(pallet)@ == before && *final(runtime) == *old(runtime)
            &&& result matches Ok(address) ==> {
                &&& address.0 == at
                &&& index <= u32::MAX ==> address.1 == index
                &&& final(pallet)@ == (State {
                    agenda: before.agenda.insert(at, before.slots(at).push(Some(task))),
                    lookup: before.lookup.insert(id@, address),
                    events: before.events.push(EventView::Scheduled(at, address.1)),
                    ..before
                })
                &&& *final(runtime) == (match call {
                    MaybeHashed::Value(_) => *old(runtime),
                    MaybeHashed::Hash(hash) => old(runtime).requested(hash),
                })
            }
            &&& index < u32::MAX || at <= now || before.lookup.contains_key(id@) ==> call_requires(
                Pallet::<T>::do_schedule_named,
                (pallet, runtime, id, when, maybe_periodic, priority, origin, call),
            )
        }),
{
}

/// A task is canceled wherever there is one and the origin may cancel it. Its slot is empty then,
/// its name is free and its preimage is not requested any more. Nothing else changes.
pub proof fn law_what_is_canceled<T: Config>(
    pallet: &mut Pallet<T>,
    runtime: &mut T,
    origin: Option<T::PalletsOrigin>,
    address: TaskAddress<BlockNumber>,
    result: DispatchResult,
)
    requires
        call_ensures(Pallet::<T>::do_cancel, (pallet, runtime, origin, address), result),
    ensures
        ({
            let before = old(pallet)@;
            let slots = before.slots(address.0);
            match before.task_at(address) {
                Some(task) => if may_cancel(*old(runtime), origin, task.origin) {
                    &&& result is Ok
                    &&& final(pallet)@ == (State {
                        agenda: before.agenda.insert(
                            address.0,
                            slots.update(address.1 as int, None),
                        ),
                        lookup: match task.id {
                            Some(id) => before.lookup.remove(id),
                            None => before.lookup,
                        },
                        events: before.events.push(EventView::Canceled(address.0, address.1)),
                        ..before
                    })
                    &&& *final(runtime) == (match task.call {
                        MaybeHashed::Value(_) => *old(runtime),
                        MaybeHashed::Hash(hash) => old(runtime).unrequested(hash),
                    })
                } else {
                    &&& result == Err::<(), SchedulerError>(SchedulerError::BadOrigin)
                    &&& final(pallet)@ == before
                    &&& *final(runtime) == *old(runtime)
                },
                None => {
                    &&& result == Err::<(), SchedulerError>(SchedulerError::Module(Error::NotFound))
                    &&& final(pallet)@ == (State {
                        agenda: before.agenda.insert(address.0, slots),
                        ..before
                    })
                    &&& *final(runtime) == *old(runtime)
                },
            }
        }),
        call_requires(Pallet::<T>::do_cancel, (pallet, runtime, origin, address)),
{
}

/// A task is canceled by its name wherever the name leads to one that the origin may cancel. Its
/// slot is empty then, and the name is free; the preimage is not requested any more, unless there
/// is no origin. A name that leads to no task is freed likewise. Nothing else changes.
pub proof fn law_what_is_canceled_by_name<T: Config>(
    pallet: &mut Pallet<T>,
    runtime: &mut T,
    origin: Option<T::PalletsOrigin>,
    id: Vec<u8>,
    result: DispatchResult,
)
    requires
        call_ensures(Pallet::<T>::do_cancel_named, (pallet, runtime, origin, id), result),
    ensures
        ({
            let before = old(pallet)@;
            let address = before.lookup[id@];
            let slots = before.slots(address.0);
            let task = before.task_at(address);
            let permitted = task matches Some(task) ==> may_cancel(
                *old(runtime),
                origin,
                task.origin,
            );
            if !before.lookup.contains_key(id@) {
                &&& result == Err::<(), SchedulerError>(SchedulerError::Module(Error::NotFound))
                &&& final(pallet)@ == before
                &&& *final(runtime) == *old(runtime)
            } else if !permitted {
                &&& result == Err::<(), SchedulerError>(SchedulerError::BadOrigin)
                &&& final(pallet)@ == before
                &&& *final(runtime) == *old(runtime)
            } else {
                &&& result is Ok
                &&& final(pallet)@ == (State {
                    agenda: before.agenda.insert(
                        address.0,
                        if task is Some {
                            slots.update(address.1 as int, None)
                        } else {
                            slots
                        },
                    ),
                    lookup: before.lookup.remove(id@),
                    events: before.events.push(EventView::Canceled(address.0, address.1)),
                    ..before
                })
                &&& *final(runtime) == (match (origin, task) {
                    (Some(_), Some(task)) => match task.call {
                        MaybeHashed::Value(_) => *old(runtime),
                        MaybeHashed::Hash(hash) => old(runtime).unrequested(hash),
                    },
                    _ => *old(runtime),
                })
            }
        }),
        call_requires(Pallet::<T>::do_cancel_named, (pallet, runtime, origin, id)),
{
}

/// A task is moved wherever there is one and a later block is meant that is another than its own,
/// be it before or behind that; and it is refused else. The task leaves its slot as it is for one
/// behind the others of the new block, and its name, if that led to it, leads there. Nothing else
/// changes.
pub proof fn law_what_is_moved<T: Config>(
    pallet: &mut Pallet<T>,
    runtime: T,
    address: TaskAddress<BlockNumber>,
    when: DispatchTime<BlockNumber>,
    result: Result<TaskAddress<BlockNumber>, SchedulerError>,
)
    requires
        call_ensures(Pallet::<T>::do_reschedule, (pallet, &runtime, address, when), result),
    ensures
        ({
            let before = old(pallet)@;
            let now = runtime.now();
            let meant: int = match when {
                DispatchTime::At(block) => block as int,
                DispatchTime::After(delay) => now + delay + 1,
            };
            let at = (if meant > BlockNumber::MAX {
                BlockNumber::MAX as int
            } else {
                meant
            }) as BlockNumber;
            let index = before.slots(at).len();
            let task = before.task_at(address);
            &&& result is Ok <==> at > now && at != address.0 && task is Some
            &&& result matches Err(error) ==> {
                &&& final(pallet)@ == before
                &&& error == (if at <= now {
                    SchedulerError::Module(Error::TargetBlockNumberInPast)
                } else if at == address.0 {
                    SchedulerError::Module(Error::RescheduleNoChange)
                } else {
                    SchedulerError::Module(Error::NotFound)
                })
            }
            &&& result matches Ok(to) ==> {
                &&& to.0 == at
                &&& index <= u32::MAX ==> to.1 == index
                &&& final(pallet)@ == (State {
                    agenda: before.agenda.insert(
                        address.0,
                        before.slots(address.0).update(address.1 as int, None),
                    ).insert(at, before.slots(at).push(task)),
                    lookup: match task->0.id {
                        Some(id) => if before.lookup.contains_pair(id, address) {
                            before.lookup.insert(id, to)
                        } else {
                            before.lookup
                        },
                        None => before.lookup,
                    },
                    events: before.events.push(EventView::Canceled(address.0, address.1)).push(
                        EventView::Scheduled(at, to.1),
                    ),
                    ..before
                })
            }
            &&& index < u32::MAX || at <= now || at == address.0 || task is None ==> call_requires(
                Pallet::<T>::do_reschedule,
                (pallet, &runtime, address, when),
            )
        }),
{
}

/// To move a task by its name comes to the same as to move the one that the name leads to, and the
/// name then leads to it. A name that leads nowhere moves nothing.
pub proof fn law_what_is_moved_by_name<T: Config>(
    pallet: &mut Pallet<T>,
    runtime: T,
    id: Vec<u8>,
    when: DispatchTime<BlockNumber>,
    result: Result<TaskAddress<BlockNumber>, SchedulerError>,
    other: &mut Pallet<T>,
    moved: Result<TaskAddress<BlockNumber>, SchedulerError>,
)
    requires
        call_ensures(Pallet::<T>::do_reschedule_named, (pallet, &runtime, id, when), result),
        old(other)@ == old(pallet)@,
        call_ensures(
            Pallet::<T>::do_reschedule,
            (other, &runtime, old(pallet)@.lookup[id@], when),
            moved,
        ),
    ensures
        ({
            let before = old(pallet)@;
            let now = runtime.now();
            let meant: int = match when {
                DispatchTime::At(block) => block as int,
                DispatchTime::After(delay) => now + delay + 1,
            };
            let at = (if meant > BlockNumber::MAX {
                BlockNumber::MAX as int
            } else {
                meant
            }) as BlockNumber;
            if before.lookup.contains_key(id@) {
                &&& result == moved
                &&& final(pallet)@.agenda == final(other)@.agenda
                &&& final(pallet)@.events == final(other)@.events
                &&& final(pallet)@.version == final(other)@.version
                &&& final(pallet)@.lookup == (match moved {
                    Ok(to) => final(other)@.lookup.insert(id@, to),
                    Err(_) => final(other)@.lookup,
                })
            } else {
                &&& final(pallet)@ == before
                &&& result == Err::<TaskAddress<BlockNumber>, SchedulerError>(
                    SchedulerError::Module(
                        if at <= now {
                            Error::TargetBlockNumberInPast
                        } else {
                            Error::NotFound
                        },
                    ),
                )
            }
        }),
        ({
            let before = old(pallet)@;
            let now = runtime.now();
            let meant: int = match when {
                DispatchTime::At(block) => block as int,
                DispatchTime::After(delay) => now + delay + 1,
            };
            let at = (if meant > BlockNumber::MAX {
                BlockNumber::MAX as int
            } else {
                meant
            }) as BlockNumber;
            before.slots(at).len() < u32::MAX || at <= now || !before.lookup.contains_key(id@)
                ==> call_requires(
                Pallet::<T>::do_reschedule_named,
                (pallet, &runtime, id, when),
            )
        }),
{
}

/// The next dispatch time of a task is its block, whatever else is scheduled for that; of an
/// address that has no slot there is none.
pub proof fn law_when_a_task_is_dispatched<T: Config>(
    pallet: Pallet<T>,
    address: TaskAddress<BlockNumber>,
    time: Result<BlockNumber, ()>,
)
    requires
        call_ensures(anon::next_dispatch_time::<T>, (&pallet, address), time),
    ensures
        pallet@.task_at(address) is Some ==> time == Ok::<BlockNumber, ()>(address.0),
        time is Ok <==> pallet@.agenda.contains_key(address.0) && address.1
            < pallet@.agenda[address.0].len(),
        time matches Ok(block) ==> block == address.0,
        call_requires(anon::next_dispatch_time::<T>, (&pallet, address)),
{
}

/// The next dispatch time of a name is that of the address that it leads to; of a name that leads
/// nowhere there is none.
pub proof fn law_when_a_name_is_dispatched<T: Config>(
    pallet: Pallet<T>,
    id: Vec<u8>,
    time: Result<BlockNumber, ()>,
    by_address: Result<BlockNumber, ()>,
)
    requires
        call_ensures(named::next_dispatch_time::<T>, (&pallet, id), time),
        call_ensures(
            anon::next_dispatch_time::<T>,
            (&pallet, pallet.lookup@[id@]),
            by_address,
        ),
    ensures
        pallet.lookup@.contains_key(id@) ==> time == by_address,
        !pallet.lookup@.contains_key(id@) ==> time is Err,
        call_requires(named::next_dispatch_time::<T>, (&pallet, id)),
{
}

/// What is scheduled besides, under a name or not, changes no dispatch time.
pub proof fn law_other_tasks_change_no_dispatch_time<T: Config>(
    pallet: &mut Pallet<T>,
    runtime: &mut T,
    id: Vec<u8>,
    when: DispatchTime<BlockNumber>,
    maybe_periodic: Option<Period<BlockNumber>>,
    priority: Priority,
    origin: T::PalletsOrigin,
    call: CallOrHashOf<T>,
    result: Result<TaskAddress<BlockNumber>, SchedulerError>,
    address: TaskAddress<BlockNumber>,
    earlier: Result<BlockNumber, ()>,
    later: Result<BlockNumber, ()>,
)
    requires
        call_ensures(
            Pallet::<T>::do_schedule_named,
            (pallet, runtime, id, when, maybe_periodic, priority, origin, call),
            result,
        ),
        call_ensures(anon::next_dispatch_time::<T>, (&*old(pallet), address), earlier),
        call_ensures(anon::next_dispatch_time::<T>, (&*final(pallet), address), later),
    ensures
        earlier is Ok ==> later == earlier,
        earlier is Err && later is Ok ==> result is Ok && address.0 == result->Ok_0.0 && address.1
            == old(pallet)@.slots(address.0).len(),
{
}

/// Who may schedule has what was asked for scheduled at the block, as the caller; everyone else is
/// refused, and nothing changes.
pub proof fn law_who_may_schedule<T: Config>(
    pallet: &mut Pallet<T>,
    runtime: &mut T,
    origin: T::Origin,
    when: BlockNumber,
    maybe_periodic: Option<Period<BlockNumber>>,
    priority: Priority,
    call: Box<CallOrHashOf<T>>,
    result: DispatchResult,
    other: &mut Pallet<T>,
    other_runtime: &mut T,
    granted: Result<TaskAddress<BlockNumber>, SchedulerError>,
)
    requires
        call_ensures(
            Pallet::<T>::schedule,
            (pallet, runtime, origin, when, maybe_periodic, priority, call),
            result,
        ),
        old(other)@ == old(pallet)@,
        *old(other_runtime) == *old(runtime),
        call_ensures(
            Pallet::<T>::do_schedule,
            (
                other,
                other_runtime,
                DispatchTime::At(when),
                maybe_periodic,
                priority,
                T::caller_of(origin),
                *call,
            ),
            granted,
        ),
    ensures
        if old(runtime).may_schedule(origin) {
            &&& final(pallet)@ == final(other)@
            &&& *final(runtime) == *final(other_runtime)
            &&& result is Ok <==> granted is Ok
            &&& result matches Err(error) ==> granted->Err_0 == error
        } else {
            &&& final(pallet)@ == old(pallet)@
            &&& *final(runtime) == *old(runtime)
            &&& result == Err::<(), SchedulerError>(SchedulerError::BadOrigin)
        },
        old(pallet)@.slots(when).len() < u32::MAX || when <= old(runtime).now() || !old(
            runtime,
        ).may_schedule(origin) ==> call_requires(
            Pallet::<T>::schedule,
            (pallet, runtime, origin, when, maybe_periodic, priority, call),
        ),
{
}

/// Who may schedule has what was asked for scheduled after the delay, as the caller; everyone else
/// is refused, and nothing changes.
pub proof fn law_who_may_schedule_after<T: Config>(
    pallet: &mut Pallet<T>,
    runtime: &mut T,
    origin: T::Origin,
    after: BlockNumber,
    maybe_periodic: Option<Period<BlockNumber>>,
    priority: Priority,
    call: Box<CallOrHashOf<T>>,
    result: DispatchResult,
    other: &mut Pallet<T>,
    other_runtime: &mut T,
    granted: Result<TaskAddress<BlockNumber>, SchedulerError>,
)
    requires
        call_ensures(
            Pallet::<T>::schedule_after,
            (pallet, runtime, origin, after, maybe_periodic, priority, call),
            result,
        ),
        old(other)@ == old(pallet)@,
        *old(other_runtime) == *old(runtime),
        call_ensures(
            Pallet::<T>::do_schedule,
            (
                other,
                other_runtime,
                DispatchTime::After(after),
                maybe_periodic,
                priority,
                T::caller_of(origin),
                *call,
            ),
            granted,
        ),
    ensures
        if old(runtime).may_schedule(origin) {
            &&& final(pallet)@ == final(other)@
            &&& *final(runtime) == *final(other_runtime)
            &&& result is Ok <==> granted is Ok
            &&& result matches Err(error) ==> granted->Err_0 == error
        } else {
            &&& final(pallet)@ == old(pallet)@
            &&& *final(runtime) == *old(runtime)
            &&& result == Err::<(), SchedulerError>(SchedulerError::BadOrigin)
        },
        ({
            let meant = old(runtime).now() + after + 1;
            let at = (if meant > BlockNumber::MAX {
                BlockNumber::MAX as int
            } else {
                meant
            }) as BlockNumber;
            old(pallet)@.slots(at).len() < u32::MAX || at <= old(runtime).now() || !old(
                runtime,
            ).may_schedule(origin) ==> call_requires(
                Pallet::<T>::schedule_after,
                (pallet, runtime, origin, after, maybe_periodic, priority, call),
            )
        }),
{
}

/// Who may schedule has what was asked for scheduled under the name, as the caller; everyone else
/// is refused, and nothing changes.
pub proof fn law_who_may_schedule_named<T: Config>(
    pallet: &mut Pallet<T>,
    runtime: &mut T,
    origin: T::Origin,
    id: Vec<u8>,
    when: BlockNumber,
    maybe_periodic: Option<Period<BlockNumber>>,
    priority: Priority,
    call: Box<CallOrHashOf<T>>,
    result: DispatchResult,
    other: &mut Pallet<T>,
    other_runtime: &mut T,
    granted: Result<TaskAddress<BlockNumber>, SchedulerError>,
)
    requires
        call_ensures(
            Pallet::<T>::schedule_named,
            (pallet, runtime, origin, id, when, maybe_periodic, priority, call),
            result,
        ),
        old(other)@ == old(pallet)@,
        *old(other_runtime) == *old(runtime),
        call_ensures(
            Pallet::<T>::do_schedule_named,
            (
                other,
                other_runtime,
                id,
                DispatchTime::At(when),
                maybe_periodic,
                priority,
                T::caller_of(origin),
                *call,
            ),
            granted,
        ),
    ensures
        if old(runtime).may_schedule(origin) {
            &&& final(pallet)@ == final(other)@
            &&& *final(runtime) == *final(other_runtime)
            &&& result is Ok <==> granted is Ok
            &&& result matches Err(error) ==> granted->Err_0 == error
        } else {
            &&& final(pallet)@ == old(pallet)@
            &&& *final(runtime) == *old(runtime)
            &&& result == Err::<(), SchedulerError>(SchedulerError::BadOrigin)
        },
        old(pallet)@.slots(when).len() < u32::MAX || when <= old(runtime).now() || !old(
            runtime,
        ).may_schedule(origin) || old(pallet)@.lookup.contains_key(id@) ==> call_requires(
            Pallet::<T>::schedule_named,
            (pallet, runtime, origin, id, when, maybe_periodic, priority, call),
        ),
{
}

/// Who may schedule has what was asked for scheduled under the name after the delay, as the caller;
/// everyone else is refused, and nothing changes.
pub proof fn law_who_may_schedule_named_after<T: Config>(
    pallet: &mut Pallet<T>,
    runtime: &mut T,
    origin: T::Origin,
    id: Vec<u8>,
    after: BlockNumber,
    maybe_periodic: Option<Period<BlockNumber>>,
    priority: Priority,
    call: Box<CallOrHashOf<T>>,
    result: DispatchResult,
    other: &mut Pallet<T>,
    other_runtime: &mut T,
    granted: Result<TaskAddress<BlockNumber>, SchedulerError>,
)
    requires
        call_ensures(
            Pallet::<T>::schedule_named_after,
            (pallet, runtime, origin, id, after, maybe_periodic, priority, call),
            result,
        ),
        old(other)@ == old(pallet)@,
        *old(other_runtime) == *old(runtime),
        call_ensures(
            Pallet::<T>::do_schedule_named,
            (
                other,
                other_runtime,
                id,
                DispatchTime::After(after),
                maybe_periodic,
                priority,
                T::caller_of(origin),
                *call,
            ),
            granted,
        ),
    ensures
        if old(runtime).may_schedule(origin) {
            &&& final(pallet)@ == final(other)@
            &&& *final(runtime) == *final(other_runtime)
            &&& result is Ok <==> granted is Ok
            &&& result matches Err(error) ==> granted->Err_0 == error
        } else {
            &&& final(pallet)@ == old(pallet)@
            &&& *final(runtime) == *old(runtime)
            &&& result == Err::<(), SchedulerError>(SchedulerError::BadOrigin)
        },
        ({
            let meant = old(runtime).now() + after + 1;
            let at = (if meant > BlockNumber::MAX {
                BlockNumber::MAX as int
            } else {
                meant
            }) as BlockNumber;
            old(pallet)@.slots(at).len() < u32::MAX || at <= old(runtime).now() || !old(
                runtime,
            ).may_schedule(origin) || old(pallet)@.lookup.contains_key(id@) ==> call_requires(
                Pallet::<T>::schedule_named_after,
                (pallet, runtime, origin, id, after, maybe_periodic, priority, call),
            )
        }),
{
}

/// Who may schedule may ask for a task to be canceled, as the caller; everyone else is refused, and
/// nothing changes.
pub proof fn law_who_may_cancel<T: Config>(
    pallet: &mut Pallet<T>,
    runtime: &mut T,
    origin: T::Origin,
    when: BlockNumber,
    index: u32,
    result: DispatchResult,
    other: &mut Pallet<T>,
    other_runtime: &mut T,
    granted: DispatchResult,
)
    requires
        call_ensures(
            Pallet::<T>::cancel,
            (pallet, runtime, origin, when, index),
            result,
        ),
        old(other)@ == old(pallet)@,
        *old(other_runtime) == *old(runtime),
        call_ensures(
            Pallet::<T>::do_cancel,
            (other, other_runtime, Some(T::caller_of(origin)), (when, index)),
            granted,
        ),
    ensures
        if old(runtime).may_schedule(origin) {
            &&& final(pallet)@ == final(other)@
            &&& *final(runtime) == *final(other_runtime)
            &&& result is Ok <==> granted is Ok
            &&& result matches Err(error) ==> granted->Err_0 == error
        } else {
            &&& final(pallet)@ == old(pallet)@
            &&& *final(runtime) == *old(runtime)
            &&& result == Err::<(), SchedulerError>(SchedulerError::BadOrigin)
        },
        call_requires(
            Pallet::<T>::cancel,
            (pallet, runtime, origin, when, index),
        ),
{
}

/// Who may schedule may ask for a task to be canceled by its name, as the caller; everyone else is
/// refused, and nothing changes.
pub proof fn law_who_may_cancel_named<T: Config>(
    pallet: &mut Pallet<T>,
    runtime: &mut T,
    origin: T::Origin,
    id: Vec<u8>,
    result: DispatchResult,
    other: &mut Pallet<T>,
    other_runtime: &mut T,
    granted: DispatchResult,
)
    requires
        call_ensures(
            Pallet::<T>::cancel_named,
            (pallet, runtime, origin, id),
            result,
        ),
        old(other)@ == old(pallet)@,
        *old(other_runtime) == *old(runtime),
        call_ensures(
            Pallet::<T>::do_cancel_named,
            (other, other_runtime, Some(T::caller_of(origin)), id),
            granted,
        ),
    ensures
        if old(runtime).may_schedule(origin) {
            &&& final(pallet)@ == final(other)@
            &&& *final(runtime) == *final(other_runtime)
            &&& result is Ok <==> granted is Ok
            &&& result matches Err(error) ==> granted->Err_0 == error
        } else {
            &&& final(pallet)@ == old(pallet)@
            &&& *final(runtime) == *old(runtime)
            &&& result == Err::<(), SchedulerError>(SchedulerError::BadOrigin)
        },
        call_requires(
            Pallet::<T>::cancel_named,
            (pallet, runtime, origin, id),
        ),
{
}

/// Other parts of the runtime have scheduled what they ask for.
pub proof fn law_the_runtime_schedules<T: Config>(
    pallet: &mut Pallet<T>,
    runtime: &mut T,
    when: DispatchTime<BlockNumber>,
    maybe_periodic: Option<Period<BlockNumber>>,
    priority: Priority,
    origin: T::PalletsOrigin,
    call: CallOrHashOf<T>,
    result: Result<TaskAddress<BlockNumber>, SchedulerError>,
    other: &mut Pallet<T>,
    other_runtime: &mut T,
    granted: Result<TaskAddress<BlockNumber>, SchedulerError>,
)
    requires
        call_ensures(
            anon::schedule::<T>,
            (pallet, runtime, when, maybe_periodic, priority, origin, call),
            result,
        ),
        old(other)@ == old(pallet)@,
        *old(other_runtime) == *old(runtime),
        call_ensures(
            Pallet::<T>::do_schedule,
            (other, other_runtime, when, maybe_periodic, priority, origin, call),
            granted,
        ),
    ensures
        final(pallet)@ == final(other)@,
        *final(runtime) == *final(other_runtime),
        result == granted,
        ({
            let before = old(pallet)@;
            let now = old(runtime).now();
            let meant: int = match when {
                DispatchTime::At(block) => block as int,
                DispatchTime::After(delay) => now + delay + 1,
            };
            let at = (if meant > BlockNumber::MAX {
                BlockNumber::MAX as int
            } else {
                meant
            }) as BlockNumber;
            before.slots(at).len() < u32::MAX || at <= now ==> call_requires(
                anon::schedule::<T>,
                (pallet, runtime, when, maybe_periodic, priority, origin, call),
            )
        }),
{
}

/// Other parts of the runtime may cancel any task.
pub proof fn law_the_runtime_cancels<T: Config>(
    pallet: &mut Pallet<T>,
    runtime: &mut T,
    address: TaskAddress<BlockNumber>,
    result: Result<(), ()>,
    other: &mut Pallet<T>,
    other_runtime: &mut T,
    granted: DispatchResult,
)
    requires
        call_ensures(anon::cancel::<T>, (pallet, runtime, address), result),
        old(other)@ == old(pallet)@,
        *old(other_runtime) == *old(runtime),
        call_ensures(Pallet::<T>::do_cancel, (other, other_runtime, None, address), granted),
    ensures
        final(pallet)@ == final(other)@,
        *final(runtime) == *final(other_runtime),
        result is Ok <==> granted is Ok,
        result is Ok ==> result->Ok_0 == granted->Ok_0,
        call_requires(
            anon::cancel::<T>,
            (pallet, runtime, address),
        ),
{
}

/// Other parts of the runtime have moved what they ask for.
pub proof fn law_the_runtime_moves<T: Config>(
    pallet: &mut Pallet<T>,
    runtime: T,
    address: TaskAddress<BlockNumber>,
    when: DispatchTime<BlockNumber>,
    result: Result<TaskAddress<BlockNumber>, SchedulerError>,
    other: &mut Pallet<T>,
    granted: Result<TaskAddress<BlockNumber>, SchedulerError>,
)
    requires
        call_ensures(anon::reschedule::<T>, (pallet, &runtime, address, when), result),
        old(other)@ == old(pallet)@,
        call_ensures(Pallet::<T>::do_reschedule, (other, &runtime, address, when), granted),
    ensures
        final(pallet)@ == final(other)@,
        result == granted,
        ({
            let before = old(pallet)@;
            let now = runtime.now();
            let meant: int = match when {
                DispatchTime::At(block) => block as int,
                DispatchTime::After(delay) => now + delay + 1,
            };
            let at = (if meant > BlockNumber::MAX {
                BlockNumber::MAX as int
            } else {
                meant
            }) as BlockNumber;
            before.slots(at).len() < u32::MAX || at <= now || before.task_at(address) is None
                ==> call_requires(
                anon::reschedule::<T>,
                (pallet, &runtime, address, when),
            )
        }),
{
}

/// Other parts of the runtime have scheduled what they ask for under a name.
pub proof fn law_the_runtime_schedules_named<T: Config>(
    pallet: &mut Pallet<T>,
    runtime: &mut T,
    id: Vec<u8>,
    when: DispatchTime<BlockNumber>,
    maybe_periodic: Option<Period<BlockNumber>>,
    priority: Priority,
    origin: T::PalletsOrigin,
    call: CallOrHashOf<T>,
    result: Result<TaskAddress<BlockNumber>, ()>,
    other: &mut Pallet<T>,
    other_runtime: &mut T,
    granted: Result<TaskAddress<BlockNumber>, SchedulerError>,
)
    requires
        call_ensures(
            named::schedule_named::<T>,
            (pallet, runtime, id, when, maybe_periodic, priority, origin, call),
            result,
        ),
        old(other)@ == old(pallet)@,
        *old(other_runtime) == *old(runtime),
        call_ensures(
            Pallet::<T>::do_schedule_named,
            (other, other_runtime, id, when, maybe_periodic, priority, origin, call),
            granted,
        ),
    ensures
        final(pallet)@ == final(other)@,
        *final(runtime) == *final(other_runtime),
        result is Ok <==> granted is Ok,
        result is Ok ==> result->Ok_0 == granted->Ok_0,
        ({
            let before = old(pallet)@;
            let now = old(runtime).now();
            let meant: int = match when {
                DispatchTime::At(block) => block as int,
                DispatchTime::After(delay) => now + delay + 1,
            };
            let at = (if meant > BlockNumber::MAX {
                BlockNumber::MAX as int
            } else {
                meant
            }) as BlockNumber;
            before.slots(at).len() < u32::MAX || at <= now || before.lookup.contains_key(id@)
                ==> call_requires(
                named::schedule_named::<T>,
                (pallet, runtime, id, when, maybe_periodic, priority, origin, call),
            )
        }),
{
}

/// Other parts of the runtime may cancel any task by its name.
pub proof fn law_the_runtime_cancels_named<T: Config>(
    pallet: &mut Pallet<T>,
    runtime: &mut T,
    id: Vec<u8>,
    result: Result<(), ()>,
    other: &mut Pallet<T>,
    other_runtime: &mut T,
    granted: DispatchResult,
)
    requires
        call_ensures(named::cancel_named::<T>, (pallet, runtime, id), result),
        old(other)@ == old(pallet)@,
        *old(other_runtime) == *old(runtime),
        call_ensures(Pallet::<T>::do_cancel_named, (other, other_runtime, None, id), granted),
    ensures
        final(pallet)@ == final(other)@,
        *final(runtime) == *final(other_runtime),
        result is Ok <==> granted is Ok,
        result is Ok ==> result->Ok_0 == granted->Ok_0,
        call_requires(
            named::cancel_named::<T>,
            (pallet, runtime, id),
        ),
{
}

/// Other parts of the runtime have moved what they ask for by its name.
pub proof fn law_the_runtime_moves_named<T: Config>(
    pallet: &mut Pallet<T>,
    runtime: T,
    id: Vec<u8>,
    when: DispatchTime<BlockNumber>,
    result: Result<TaskAddress<BlockNumber>, SchedulerError>,
    other: &mut Pallet<T>,
    granted: Result<TaskAddress<BlockNumber>, SchedulerError>,
)
    requires
        call_ensures(named::reschedule_named::<T>, (pallet, &runtime, id, when), result),
        old(other)@ == old(pallet)@,
        call_ensures(Pallet::<T>::do_reschedule_named, (other, &runtime, id, when), granted),
    ensures
        final(pallet)@ == final(other)@,
        result == granted,
        ({
            let before = old(pallet)@;
            let now = runtime.now();
            let meant: int = match when {
                DispatchTime::At(block) => block as int,
                DispatchTime::After(delay) => now + delay + 1,
            };
            let at = (if meant > BlockNumber::MAX {
                BlockNumber::MAX as int
            } else {
                meant
            }) as BlockNumber;
            before.slots(at).len() < u32::MAX || at <= now || !before.lookup.contains_key(id@)
                ==> call_requires(
                named::reschedule_named::<T>,
                (pallet, &runtime, id, when),
            )
        }),
{
}

} // verus!
