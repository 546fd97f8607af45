//! Calls that are known by their hash alone.
use vstd::prelude::*;

use crate::config::Config;
use crate::pallet::CallOrHashOf;
use crate::types::{LookupError, MaybeHashed};

verus! {

/// The runtime after the preimage of the call, where it is a hash, was requested.
pub open spec fn requesting<T: Config>(runtime: T, call: CallOrHashOf<T>) -> T {
    match call {
        MaybeHashed::Value(_) => runtime,
        MaybeHashed::Hash(hash) => runtime.requested(hash),
    }
}

/// The runtime after the request for the preimage of the call, where it is a hash, was withdrawn.
pub open spec fn unrequesting<T: Config>(runtime: T, call: CallOrHashOf<T>) -> T {
    match call {
        MaybeHashed::Value(_) => runtime,
        MaybeHashed::Hash(hash) => runtime.unrequested(hash),
    }
}

/// The call itself, with the hash that it was looked up by where it was known by its hash alone; or
/// why it was not found.
pub open spec fn looked_up<T: Config>(runtime: T, call: CallOrHashOf<T>) -> Result<
    (T::Call, Option<T::Hash>),
    LookupError,
> {
    match call {
        MaybeHashed::Value(value) => Ok((value, None)),
        MaybeHashed::Hash(hash) => match runtime.preimage(hash) {
            Some(data) => match T::decoded(data) {
                Some(value) => Ok((value, Some(hash))),
                None => Err(LookupError::BadFormat),
            },
            None => Err(LookupError::Unknown),
        },
    }
}

/// Requests the preimage of the call where it is a hash.
pub fn ensure_requested<T: Config>(call: &CallOrHashOf<T>, runtime: &mut T)
    ensures
        *final(runtime) == requesting(*old(runtime), *call),
{
    match call {
        MaybeHashed::Value(_) => {},
        MaybeHashed::Hash(hash) => runtime.request_preimage(hash),
    }
}

/// Withdraws the request for the preimage of the call where it is a hash.
pub fn ensure_unrequested<T: Config>(call: &CallOrHashOf<T>, runtime: &mut T)
    ensures
        *final(runtime) == unrequesting(*old(runtime), *call),
{
    match call {
        MaybeHashed::Value(_) => {},
        MaybeHashed::Hash(hash) => runtime.unrequest_preimage(hash),
    }
}

/// Looks up the call, and says by which hash where it was known by its hash alone.
pub fn lookup_call<T: Config>(call: CallOrHashOf<T>, runtime: &T) -> (found: Result<
    (T::Call, Option<T::Hash>),
    LookupError,
>)
    ensures
        found == looked_up(*runtime, call),
{
    match call {
        MaybeHashed::Value(value) => Ok((value, None)),
        MaybeHashed::Hash(hash) => {
            match runtime.get_preimage(&hash) {
                Some(data) => match T::decode_call(&data) {
                    Some(value) => Ok((value, Some(hash))),
                    None => Err(LookupError::BadFormat),
                },
                None => Err(LookupError::Unknown),
            }
        },
    }
}

/// A call that is given is found as it is, and nothing is requested or withdrawn for it.
pub proof fn law_given_calls_are_found<T: Config>(
    runtime: T,
    changing: &mut T,
    reverting: &mut T,
    call: T::Call,
    found: Result<(T::Call, Option<T::Hash>), LookupError>,
)
    requires
        call_ensures(lookup_call::<T>, (MaybeHashed::Value(call), &runtime), found),
        call_ensures(ensure_requested::<T>, (&MaybeHashed::Value(call), changing), ()),
        call_ensures(ensure_unrequested::<T>, (&MaybeHashed::Value(call), reverting), ()),
    ensures
        found == Ok::<(T::Call, Option<T::Hash>), LookupError>((call, None)),
        *final(changing) == *old(changing),
        *final(reverting) == *old(reverting),
{
}

/// A call that is known by its hash is found wherever the preimage is there and encodes a call, and
/// it is that call then, with the hash; and else it is not found, with the reason. It is the hash
/// itself of which the preimage is requested, and of which the request is withdrawn.
pub proof fn law_hashed_calls_are_found<T: Config>(
    runtime: T,
    changing: &mut T,
    reverting: &mut T,
    hash: T::Hash,
    found: Result<(T::Call, Option<T::Hash>), LookupError>,
)
    requires
        call_ensures(lookup_call::<T>, (MaybeHashed::Hash(hash), &runtime), found),
        call_ensures(ensure_requested::<T>, (&MaybeHashed::Hash(hash), changing), ()),
        call_ensures(ensure_unrequested::<T>, (&MaybeHashed::Hash(hash), reverting), ()),
    ensures
        (runtime.preimage(hash) matches Some(data) && T::decoded(data) is Some) <==> found is Ok,
        found matches Ok((call, by)) ==> runtime.preimage(hash) is Some && T::decoded(
            runtime.preimage(hash)->0,
        ) == Some(call) && by == Some(hash),
        runtime.preimage(hash) is None <==> found == Err::<
            (T::Call, Option<T::Hash>),
            LookupError,
        >(LookupError::Unknown),
        *final(changing) == old(changing).requested(hash),
        *final(reverting) == old(reverting).unrequested(hash),
        call_requires(lookup_call::<T>, (MaybeHashed::Hash(hash), &runtime)),
        call_requires(ensure_requested::<T>, (&MaybeHashed::Hash(hash), changing)),
        call_requires(ensure_unrequested::<T>, (&MaybeHashed::Hash(hash), reverting)),
{
}

} // verus!
