//! The scheduler's state and the elementary changes of it.
use vstd::prelude::*;

use crate::config::Config;
use crate::storage::StorageMap;
use crate::types::{
    id_view, BlockNumber, Event, EventView, MaybeHashed, Releases, ScheduledV3, Task, TaskAddress,
};

verus! {

/// The call of a task, or its hash.
pub type CallOrHashOf<T> = MaybeHashed<<T as Config>::Call, <T as Config>::Hash>;

/// A task as it was kept when its call could not be a hash.
pub type ScheduledV2Of<T> = ScheduledV3<
    <T as Config>::Call,
    BlockNumber,
    <T as Config>::PalletsOrigin,
    <T as Config>::AccountId,
>;

/// A task as it is kept now.
pub type ScheduledV3Of<T> = ScheduledV3<
    CallOrHashOf<T>,
    BlockNumber,
    <T as Config>::PalletsOrigin,
    <T as Config>::AccountId,
>;

/// A task as it is kept now.
pub type ScheduledOf<T> = ScheduledV3Of<T>;

/// What a task of the runtime is.
pub type TaskOf<T> = Task<CallOrHashOf<T>, BlockNumber, <T as Config>::PalletsOrigin>;

/// The scheduler.
pub struct Pallet<T: Config> {
    /// Items to be executed, indexed by the block number that they should be executed on.
    pub agenda: StorageMap<BlockNumber, Vec<Option<ScheduledOf<T>>>>,
    /// Lookup from identity to the block number and index of the task.
    pub lookup: StorageMap<Vec<u8>, TaskAddress<BlockNumber>>,
    /// Storage version of the pallet.
    ///
    /// New networks start with last version.
    pub storage_version: Releases,
    /// What was reported, first things first.
    pub events: Vec<Event>,
}

/// What the scheduler's state is.
#[verifier::ext_equal]
#[verifier::reject_recursive_types(T)]
pub struct State<T: Config> {
    /// The slots of each block that has an agenda. A slot is empty once its task was canceled.
    pub agenda: Map<BlockNumber, Seq<Option<TaskOf<T>>>>,
    /// The address of each named task.
    pub lookup: Map<Seq<u8>, TaskAddress<BlockNumber>>,
    pub version: Releases,
    pub events: Seq<EventView>,
}

impl<T: Config> State<T> {
    /// The slots of a block; a block without an agenda has none.
    pub open spec fn slots(self, when: BlockNumber) -> Seq<Option<TaskOf<T>>> {
        if self.agenda.contains_key(when) {
            self.agenda[when]
        } else {
            Seq::empty()
        }
    }

    /// The task at an address, if there is one.
    pub open spec fn task_at(self, address: TaskAddress<BlockNumber>) -> Option<TaskOf<T>> {
        if address.1 < self.slots(address.0).len() {
            self.slots(address.0)[address.1 as int]
        } else {
            None
        }
    }

    /// The block of an address that has a slot, though the slot may be empty by now.
    pub open spec fn dispatch_time(self, address: TaskAddress<BlockNumber>) -> Result<
        BlockNumber,
        (),
    > {
        if address.1 < self.slots(address.0).len() {
            Ok(address.0)
        } else {
            Err(())
        }
    }

    /// The block of the address that a name leads to, where that has a slot.
    pub open spec fn named_dispatch_time(self, id: Seq<u8>) -> Result<BlockNumber, ()> {
        if self.lookup.contains_key(id) {
            self.dispatch_time(self.lookup[id])
        } else {
            Err(())
        }
    }

    /// The state in which a block has the given slots.
    pub open spec fn with_slots(self, when: BlockNumber, slots: Seq<Option<TaskOf<T>>>) -> Self {
        State { agenda: self.agenda.insert(when, slots), ..self }
    }

    /// The state in which the task has a slot of its own behind the others of a block.
    pub open spec fn appended(self, when: BlockNumber, task: TaskOf<T>) -> Self {
        self.with_slots(when, self.slots(when).push(Some(task)))
    }

    /// The state in which the slot at an address is empty.
    pub open spec fn emptied(self, address: TaskAddress<BlockNumber>) -> Self {
        self.with_slots(address.0, self.slots(address.0).update(address.1 as int, None))
    }

    /// The state in which a name leads to an address.
    pub open spec fn with_name(self, id: Seq<u8>, address: TaskAddress<BlockNumber>) -> Self {
        State { lookup: self.lookup.insert(id, address), ..self }
    }

    /// The state in which a name, where there is one, leads nowhere.
    pub open spec fn without_name(self, id: Option<Seq<u8>>) -> Self {
        match id {
            Some(id) => State { lookup: self.lookup.remove(id), ..self },
            None => self,
        }
    }

    /// A name, where there is one, leads to the address.
    pub open spec fn leads_to(
        self,
        id: Option<Seq<u8>>,
        address: TaskAddress<BlockNumber>,
    ) -> bool {
        id matches Some(id) && self.lookup.contains_pair(id, address)
    }

    /// The state in which a name leads to another address, where it led to the given one.
    pub open spec fn with_name_moved(
        self,
        id: Option<Seq<u8>>,
        from: TaskAddress<BlockNumber>,
        to: TaskAddress<BlockNumber>,
    ) -> Self {
        if self.leads_to(id, from) {
            self.with_name(id->0, to)
        } else {
            self
        }
    }

    /// The state in which a name leads nowhere, where it led to the given address.
    pub open spec fn without_name_of(
        self,
        id: Option<Seq<u8>>,
        address: TaskAddress<BlockNumber>,
    ) -> Self {
        if self.leads_to(id, address) {
            self.without_name(id)
        } else {
            self
        }
    }

    /// The state in which one thing more was reported.
    pub open spec fn reporting(self, event: EventView) -> Self {
        State { events: self.events.push(event), ..self }
    }
}

/// What is in a slot.
pub open spec fn slot_view<T: Config>(slot: Option<ScheduledOf<T>>) -> Option<TaskOf<T>> {
    match slot {
        Some(task) => Some(task@),
        None => None,
    }
}

/// What is in the slots of an agenda.
pub open spec fn slots_view<T: Config>(slots: Seq<Option<ScheduledOf<T>>>) -> Seq<
    Option<TaskOf<T>>,
> {
    slots.map_values(|slot: Option<ScheduledOf<T>>| slot_view::<T>(slot))
}

impl<T: Config> View for Pallet<T> {
    type V = State<T>;

    open spec fn view(&self) -> State<T> {
        State {
            agenda: self.agenda@.map_values(
                |slots: Vec<Option<ScheduledOf<T>>>| slots_view::<T>(slots@),
            ),
            lookup: self.lookup@,
            version: self.storage_version,
            events: self.events@.map_values(|event: Event| event@),
        }
    }
}

impl<T: Config> Pallet<T> {
    /// Reports an event.
    pub(crate) fn deposit_event(&mut self, event: Event)
        ensures
            final(self)@ == old(self)@.reporting(event@),
    {
        self.events.push(event);
        assert(self@.events =~= old(self)@.events.push(event@));
    }

    /// How many slots the agenda of a block has, where the block has an agenda.
    pub fn decode_len(&self, when: BlockNumber) -> (len: Option<usize>)
        ensures
            match len {
                Some(len) => self@.agenda.contains_key(when) && len == self@.slots(when).len(),
                None => !self@.agenda.contains_key(when),
            },
    {
        match self.agenda.get(&when) {
            Some(slots) => Some(slots.len()),
            None => None,
        }
    }

    /// Whether a name, where there is one, leads to the address.
    fn is_led_to(&self, maybe_id: &Option<Vec<u8>>, address: TaskAddress<BlockNumber>) -> (leads:
        bool)
        ensures
            leads == self@.leads_to(id_view(*maybe_id), address),
    {
        match maybe_id {
            Some(id) => match self.lookup.get(id) {
                Some(led) => led.0 == address.0 && led.1 == address.1,
                None => false,
            },
            None => false,
        }
    }

    /// Makes a name lead to another address, where it led to the given one.
    pub(crate) fn move_name(
        &mut self,
        maybe_id: &Option<Vec<u8>>,
        from: TaskAddress<BlockNumber>,
        to: TaskAddress<BlockNumber>,
    )
        ensures
            final(self)@ == old(self)@.with_name_moved(id_view(*maybe_id), from, to),
    {
        if self.is_led_to(maybe_id, from) {
            if let Some(id) = maybe_id {
                let name = id.clone();
                assert(name@ =~= id@);
                self.lookup.insert(name, to);
            }
        }
    }

    /// Makes a name lead nowhere, where it led to the given address.
    pub(crate) fn free_name(
        &mut self,
        maybe_id: &Option<Vec<u8>>,
        address: TaskAddress<BlockNumber>,
    )
        ensures
            final(self)@ == old(self)@.without_name_of(id_view(*maybe_id), address),
    {
        if self.is_led_to(maybe_id, address) {
            if let Some(id) = maybe_id {
                self.lookup.take(id);
            }
        }
    }

    /// Takes the slots of a block, with its agenda, out of the state.
    pub(crate) fn take_slots(&mut self, when: BlockNumber) -> (slots: Vec<Option<ScheduledOf<T>>>)
        ensures
            slots_view::<T>(slots@) == old(self)@.slots(when),
            final(self)@ == (State { agenda: old(self)@.agenda.remove(when), ..old(self)@ }),
    {
        let taken = self.agenda.take(&when);
        assert(self@.agenda =~= old(self)@.agenda.remove(when));
        match taken {
            Some(slots) => slots,
            None => {
                let slots: Vec<Option<ScheduledOf<T>>> = Vec::new();
                assert(slots_view::<T>(slots@) =~= Seq::empty());
                slots
            },
        }
    }

    /// Gives a block the slots.
    pub(crate) fn put_slots(&mut self, when: BlockNumber, slots: Vec<Option<ScheduledOf<T>>>)
        ensures
            final(self)@ == old(self)@.with_slots(when, slots_view::<T>(slots@)),
    {
        self.agenda.insert(when, slots);
        assert(self@.agenda =~= old(self)@.agenda.insert(when, slots_view::<T>(slots@)));
    }

    /// Gives the task a slot of its own behind the others of a block.
    pub(crate) fn append(&mut self, when: BlockNumber, task: ScheduledOf<T>)
        ensures
            final(self)@ == old(self)@.appended(when, task@),
    {
        let mut slots = self.take_slots(when);
        let ghost before = slots@;
        slots.push(Some(task));
        proof {
            assert(slots_view::<T>(slots@) =~= slots_view::<T>(before).push(Some(task@)));
            assert(old(self)@.agenda.remove(when).insert(when, slots_view::<T>(slots@))
                =~= old(self)@.agenda.insert(when, slots_view::<T>(slots@)));
        }
        self.put_slots(when, slots);
    }
}

} // verus!
