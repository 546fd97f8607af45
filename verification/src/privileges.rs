//! Who may cancel a task.
use core::cmp::Ordering;
use vstd::prelude::*;

use crate::config::Config;

verus! {

/// Whether the origin may cancel what `owner` scheduled: it has greater or equal privileges. No
/// origin stands for the runtime itself, which may cancel anything.
pub open spec fn may_cancel<T: Config>(
    runtime: T,
    origin: Option<T::PalletsOrigin>,
    owner: T::PalletsOrigin,
) -> bool {
    match origin {
        Some(origin) => match runtime.privilege(origin, owner) {
            Some(Ordering::Less) => false,
            Some(Ordering::Equal) => true,
            Some(Ordering::Greater) => true,
            None => false,
        },
        None => true,
    }
}

/// Whether the origin may cancel what `owner` scheduled.
pub fn check_privilege<T: Config>(
    runtime: &T,
    origin: &Option<T::PalletsOrigin>,
    owner: &T::PalletsOrigin,
) -> (permitted: bool)
    ensures
        permitted == may_cancel(*runtime, *origin, *owner),
{
    match origin {
        Some(origin) => match runtime.cmp_privilege(origin, owner) {
            Some(Ordering::Less) | None => false,
            _ => true,
        },
        None => true,
    }
}

/// An origin may cancel what another scheduled exactly where its privileges are at least those of
/// the other. The runtime itself may cancel anything.
pub proof fn law_who_may_cancel_what<T: Config>(
    runtime: T,
    origin: T::PalletsOrigin,
    owner: T::PalletsOrigin,
    permitted: bool,
    unlimited: bool,
)
    requires
        call_ensures(check_privilege::<T>, (&runtime, &Some(origin), &owner), permitted),
        call_ensures(check_privilege::<T>, (&runtime, &None, &owner), unlimited),
    ensures
        unlimited,
        permitted <==> runtime.privilege(origin, owner) == Some(Ordering::Equal)
            || runtime.privilege(origin, owner) == Some(Ordering::Greater),
        may_cancel(runtime, Some(origin), owner) == permitted,
        may_cancel(runtime, None, owner),
        call_requires(check_privilege::<T>, (&runtime, &Some(origin), &owner)),
{
}

} // verus!
