//! Tasks, addresses, events and errors of the scheduler.
use core::marker::PhantomData;
use vstd::prelude::*;

verus! {

/// The number of a block.
pub type BlockNumber = u64;

/// Just a simple index for naming period tasks.
pub type PeriodicIndex = u32;

/// The location of a scheduled task that can be used to remove it.
pub type TaskAddress<BlockNumber> = (BlockNumber, u32);

/// Information relating to the period of a scheduled task. First item is the length of the
/// period and the second is the number of times it should be executed in total before the task
/// is considered finished and removed.
pub type Period<BlockNumber> = (BlockNumber, u32);

/// Priority with which a call is scheduled. It's just a linear amount with lowest values meaning
/// higher priority.
pub type Priority = u8;

/// Anything of this value or lower will definitely be scheduled on the block that they ask for,
/// even if it breaches the weight limit.
pub const HARD_DEADLINE: Priority = 63;

/// The dispatch time of a scheduled task.
#[derive(Clone, Copy, PartialEq, Eq, Debug)]
pub enum DispatchTime<BlockNumber> {
    /// At specified block.
    At(BlockNumber),
    /// After specified number of blocks.
    After(BlockNumber),
}

/// A value, or the hash of the encoding of such a value.
#[derive(PartialEq, Eq, Debug)]
pub enum MaybeHashed<T, Hash> {
    /// The value itself.
    Value(T),
    /// The hash of the encoded value which this value represents.
    Hash(Hash),
}

/// Why the call of a hash was not found.
#[derive(Clone, Copy, PartialEq, Eq, Debug)]
pub enum LookupError {
    /// A call of this hash was not known.
    Unknown,
    /// The preimage for this hash was known but could not be decoded into a call.
    BadFormat,
}

/// A task as it was kept before tasks had an origin.
#[derive(PartialEq, Eq, Debug)]
pub struct ScheduledV1<Call, BlockNumber> {
    pub maybe_id: Option<Vec<u8>>,
    pub priority: Priority,
    pub call: Call,
    pub maybe_periodic: Option<Period<BlockNumber>>,
}

/// Information regarding an item to be executed in the future.
#[derive(PartialEq, Eq, Debug)]
pub struct ScheduledV3<Call, BlockNumber, PalletsOrigin, AccountId> {
    /// The unique identity of the item, if it has one.
    pub maybe_id: Option<Vec<u8>>,
    /// The priority of the item.
    pub priority: Priority,
    /// The call to be dispatched.
    pub call: Call,
    /// If the call is periodic, then this points to the information concerning that.
    pub maybe_periodic: Option<Period<BlockNumber>>,
    /// The origin to dispatch the call.
    pub origin: PalletsOrigin,
    pub _phantom: PhantomData<AccountId>,
}

/// The current version of the task structure.
pub type Scheduled<Call, BlockNumber, PalletsOrigin, AccountId> = ScheduledV3<
    Call,
    BlockNumber,
    PalletsOrigin,
    AccountId,
>;

/// What a task is: a [`ScheduledV3`] with its identity as a sequence of bytes.
#[verifier::ext_equal]
pub struct Task<Call, BlockNumber, PalletsOrigin> {
    pub id: Option<Seq<u8>>,
    pub priority: Priority,
    pub call: Call,
    pub periodic: Option<Period<BlockNumber>>,
    pub origin: PalletsOrigin,
}

/// The bytes of an identity.
pub open spec fn id_view(maybe_id: Option<Vec<u8>>) -> Option<Seq<u8>> {
    match maybe_id {
        Some(id) => Some(id@),
        None => None,
    }
}

/// A copy of an identity.
pub(crate) fn copy_id(maybe_id: &Option<Vec<u8>>) -> (copy: Option<Vec<u8>>)
    ensures
        id_view(copy) == id_view(*maybe_id),
{
    match maybe_id {
        Some(id) => {
            let copy = id.clone();
            assert(copy@ =~= id@);
            Some(copy)
        },
        None => None,
    }
}

impl<Call, BlockNumber, PalletsOrigin, AccountId> View for ScheduledV3<
    Call,
    BlockNumber,
    PalletsOrigin,
    AccountId,
> {
    type V = Task<Call, BlockNumber, PalletsOrigin>;

    open spec fn view(&self) -> Task<Call, BlockNumber, PalletsOrigin> {
        Task {
            id: id_view(self.maybe_id),
            priority: self.priority,
            call: self.call,
            periodic: self.maybe_periodic,
            origin: self.origin,
        }
    }
}

/// A value placed in storage that represents the current version of the scheduler's storage.
#[derive(Clone, Copy, PartialEq, Eq, Structural, Debug)]
pub enum Releases {
    V1,
    V2,
    V3,
}

impl Default for Releases {
    fn default() -> (release: Self)
        ensures
            release == Releases::V1,
    {
        Releases::V1
    }
}

/// `sp_runtime::DispatchError`: why a dispatched call failed. It is carried from the call's
/// result to the event that reports it, and nothing is claimed of what is in it.
#[verifier::external_type_specification]
#[verifier::external_body]
pub struct ExDispatchError(sp_runtime::DispatchError);

/// How the dispatch of a scheduled call ended.
pub type CallResult = Result<(), sp_runtime::DispatchError>;

/// What the scheduler reports.
#[derive(PartialEq, Eq, Debug)]
pub enum Event {
    /// Scheduled some task. \[when, index\]
    Scheduled(BlockNumber, u32),
    /// Canceled some task. \[when, index\]
    Canceled(BlockNumber, u32),
    /// Dispatched some task. \[task, id, result\]
    Dispatched(TaskAddress<BlockNumber>, Option<Vec<u8>>, CallResult),
    /// The call for the provided hash was not found so the task has been aborted.
    CallLookupFailed(TaskAddress<BlockNumber>, Option<Vec<u8>>, LookupError),
}

/// What an event says: an [`Event`] with identities as sequences of bytes.
pub enum EventView {
    Scheduled(BlockNumber, u32),
    Canceled(BlockNumber, u32),
    Dispatched(TaskAddress<BlockNumber>, Option<Seq<u8>>, CallResult),
    CallLookupFailed(TaskAddress<BlockNumber>, Option<Seq<u8>>, LookupError),
}

impl View for Event {
    type V = EventView;

    open spec fn view(&self) -> EventView {
        match *self {
            Event::Scheduled(when, index) => EventView::Scheduled(when, index),
            Event::Canceled(when, index) => EventView::Canceled(when, index),
            Event::Dispatched(task, id, result) => EventView::Dispatched(task, id_view(id), result),
            Event::CallLookupFailed(task, id, error) => EventView::CallLookupFailed(
                task,
                id_view(id),
                error,
            ),
        }
    }
}

/// Why the scheduler refused a request.
#[derive(Clone, Copy, PartialEq, Eq, Debug)]
pub enum Error {
    /// Failed to schedule a call
    FailedToSchedule,
    /// Cannot find the scheduled call.
    NotFound,
    /// Given target block number is in the past.
    TargetBlockNumberInPast,
    /// Reschedule failed because it does not change scheduled time.
    RescheduleNoChange,
}

/// The origin is not allowed to do what it asked for.
#[derive(Clone, Copy, PartialEq, Eq, Debug)]
pub struct BadOrigin;

/// Why one of the scheduler's own calls failed.
#[derive(Clone, Copy, PartialEq, Eq, Debug)]
pub enum SchedulerError {
    /// A bad origin.
    BadOrigin,
    /// An error of the scheduler itself.
    Module(Error),
}

/// How one of the scheduler's own calls ended.
pub type DispatchResult = Result<(), SchedulerError>;

} // verus!
