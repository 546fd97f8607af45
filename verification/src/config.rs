//! What the scheduler needs of the runtime that it is part of.
use core::cmp::Ordering;
use vstd::prelude::*;

use crate::types::{BadOrigin, BlockNumber};
use crate::weights::{RuntimeDbWeight, Weight};

verus! {

/// The runtime that the scheduler is part of.
///
/// A value of this type stands for the whole of the runtime's state but the scheduler's own: it
/// holds that state, or it is the one hold on it while the scheduler has the value. What a method
/// answers, and what it makes of that state, is named by a spec function of the state and the
/// arguments: a runtime is deterministic. The defaults of the spec functions say nothing of any
/// runtime; they spare those that are not verified themselves from writing them.
pub trait Config: Sized {
    /// The aggregated origin which the dispatch will take.
    type Origin;

    /// The caller origin, overarching type of all pallets origins.
    type PalletsOrigin;

    /// The identification of an account.
    type AccountId;

    /// The aggregated call type.
    type Call;

    /// The hash of an encoded call.
    type Hash;

    /// The number of the block that is being built.
    closed spec fn now(self) -> BlockNumber {
        arbitrary()
    }

    /// The number of the block that is being built.
    fn block_number(&self) -> (now: BlockNumber)
        ensures
            now == self.now(),
    ;

    /// What accesses to the database weigh.
    closed spec fn db(self) -> RuntimeDbWeight {
        arbitrary()
    }

    /// What accesses to the database weigh.
    fn db_weight(&self) -> (db: RuntimeDbWeight)
        ensures
            db == self.db(),
    ;

    /// The maximum weight that may be scheduled per block for any dispatchables of less priority
    /// than `HARD_DEADLINE`.
    closed spec fn weight_limit(self) -> Weight {
        arbitrary()
    }

    /// The maximum weight that may be scheduled per block for any dispatchables of less priority
    /// than `HARD_DEADLINE`.
    fn maximum_weight(&self) -> (limit: Weight)
        ensures
            limit == self.weight_limit(),
    ;

    /// Whether the origin may schedule or cancel calls.
    closed spec fn may_schedule(self, origin: Self::Origin) -> bool {
        arbitrary()
    }

    /// Required origin to schedule or cancel calls.
    fn ensure_schedule_origin(&self, origin: &Self::Origin) -> (allowed: Result<(), BadOrigin>)
        ensures
            allowed is Ok <==> self.may_schedule(*origin),
    ;

    /// The caller of an origin.
    closed spec fn caller_of(origin: Self::Origin) -> Self::PalletsOrigin {
        arbitrary()
    }

    /// The caller of an origin.
    fn caller(origin: Self::Origin) -> (caller: Self::PalletsOrigin)
        ensures
            caller == Self::caller_of(origin),
    ;

    /// The origin of the system itself.
    closed spec fn root_origin() -> Self::PalletsOrigin {
        arbitrary()
    }

    /// The origin of the system itself.
    fn root() -> (origin: Self::PalletsOrigin)
        ensures
            origin == Self::root_origin(),
    ;

    /// Whether the origin is that of an account's signature.
    closed spec fn signed(origin: Self::PalletsOrigin) -> bool {
        arbitrary()
    }

    /// Whether the origin is that of an account's signature.
    fn is_signed(origin: &Self::PalletsOrigin) -> (signed: bool)
        ensures
            signed == Self::signed(*origin),
    ;

    /// How the privileges of `left` compare to those of `right`; `None` where they do not.
    closed spec fn privilege(
        self,
        left: Self::PalletsOrigin,
        right: Self::PalletsOrigin,
    ) -> Option<Ordering> {
        arbitrary()
    }

    /// Compare the privileges of origins.
    ///
    /// This will be used when canceling a task, to ensure that the origin that tries
    /// to cancel has greater or equal privileges as the origin that created the scheduled task.
    fn cmp_privilege(
        &self,
        left: &Self::PalletsOrigin,
        right: &Self::PalletsOrigin,
    ) -> (order: Option<Ordering>)
        ensures
            order == self.privilege(*left, *right),
    ;

    /// What the dispatch of the call weighs.
    closed spec fn weight_of(self, call: Self::Call) -> Weight {
        arbitrary()
    }

    /// What the dispatch of the call weighs.
    fn dispatch_weight(&self, call: &Self::Call) -> (weight: Weight)
        ensures
            weight == self.weight_of(*call),
    ;

    /// The call that the bytes encode, if they do.
    closed spec fn decoded(data: Seq<u8>) -> Option<Self::Call> {
        arbitrary()
    }

    /// The call that the bytes encode, if they do.
    fn decode_call(data: &Vec<u8>) -> (call: Option<Self::Call>)
        ensures
            call == Self::decoded(data@),
    ;

    /// The bytes that have the given hash, where they are known.
    closed spec fn preimage(self, hash: Self::Hash) -> Option<Seq<u8>> {
        arbitrary()
    }

    /// Returns the preimage for a given hash.
    fn get_preimage(&self, hash: &Self::Hash) -> (data: Option<Vec<u8>>)
        ensures
            match data {
                Some(bytes) => self.preimage(*hash) == Some(bytes@),
                None => self.preimage(*hash) is None,
            },
    ;

    /// The runtime after a preimage was requested.
    closed spec fn requested(self, hash: Self::Hash) -> Self {
        arbitrary()
    }

    /// Request that someone report a preimage.
    fn request_preimage(&mut self, hash: &Self::Hash)
        ensures
            *final(self) == old(self).requested(*hash),
    ;

    /// The runtime after a request for a preimage was withdrawn.
    closed spec fn unrequested(self, hash: Self::Hash) -> Self {
        arbitrary()
    }

    /// Cancel a previous preimage request.
    fn unrequest_preimage(&mut self, hash: &Self::Hash)
        ensures
            *final(self) == old(self).unrequested(*hash),
    ;
}

} // verus!
