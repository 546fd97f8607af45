//! Migration of agendas that were stored in an earlier format.
use core::marker::PhantomData;
use vstd::prelude::*;

use crate::config::Config;
use crate::pallet::{
    slot_view, slots_view, CallOrHashOf, Pallet, ScheduledOf, ScheduledV2Of, State, TaskOf,
};
use crate::storage::StorageMap;
use crate::types::{
    id_view, BlockNumber, MaybeHashed, Releases, Scheduled, ScheduledV1, ScheduledV3, Task,
    TaskAddress,
};

verus! {

/// Agendas that are stored with tasks of another format.
pub type StoredAgenda<Old> = StorageMap<BlockNumber, Vec<Option<Old>>>;

/// A task of the current format with the origin of another type.
pub type ScheduledFrom<T, OldOrigin> = Scheduled<
    CallOrHashOf<T>,
    BlockNumber,
    OldOrigin,
    <T as Config>::AccountId,
>;

/// What becomes of a task that had no origin: it is one of the system itself.
pub open spec fn upgraded_v1<T: Config>(task: ScheduledV1<T::Call, BlockNumber>) -> TaskOf<T> {
    Task {
        id: id_view(task.maybe_id),
        priority: task.priority,
        call: MaybeHashed::Value(task.call),
        periodic: task.maybe_periodic,
        origin: T::root_origin(),
    }
}

/// What becomes of a task of which the call could not be a hash: it stays as it is.
pub open spec fn upgraded_v2<T: Config>(task: ScheduledV2Of<T>) -> TaskOf<T> {
    Task {
        id: id_view(task.maybe_id),
        priority: task.priority,
        call: MaybeHashed::Value(task.call),
        periodic: task.maybe_periodic,
        origin: task.origin,
    }
}

/// What becomes of a task when its origin becomes another.
pub open spec fn with_origin<T: Config, OldOrigin>(
    task: ScheduledFrom<T, OldOrigin>,
    origin: T::PalletsOrigin,
) -> TaskOf<T> {
    Task {
        id: id_view(task.maybe_id),
        priority: task.priority,
        call: task.call,
        periodic: task.maybe_periodic,
        origin,
    }
}

/// The agendas with each task replaced by what becomes of it.
pub open spec fn upgraded<T: Config, Old>(
    stored: Map<BlockNumber, Vec<Option<Old>>>,
    upgrade: spec_fn(Old) -> TaskOf<T>,
) -> Map<BlockNumber, Seq<Option<TaskOf<T>>>> {
    stored.map_values(
        |slots: Vec<Option<Old>>|
            slots@.map_values(
                |slot: Option<Old>|
                    match slot {
                        Some(task) => Some(upgrade(task)),
                        None => None,
                    },
            ),
    )
}

/// The state after a migration of agendas of the first version was asked for: they become part of
/// it where the storage is of that version.
pub open spec fn migrated_v1<T: Config>(
    state: State<T>,
    stored: Map<BlockNumber, Vec<Option<ScheduledV1<T::Call, BlockNumber>>>>,
) -> State<T> {
    if state.version == Releases::V1 {
        State {
            agenda: state.agenda.union_prefer_right(
                upgraded::<T, ScheduledV1<T::Call, BlockNumber>>(
                    stored,
                    |task: ScheduledV1<T::Call, BlockNumber>| upgraded_v1::<T>(task),
                ),
            ),
            version: Releases::V3,
            ..state
        }
    } else {
        state
    }
}

/// The state after a migration of agendas of the second version was asked for: they become part of
/// it where the storage is of that version.
pub open spec fn migrated_v2<T: Config>(
    state: State<T>,
    stored: Map<BlockNumber, Vec<Option<ScheduledV2Of<T>>>>,
) -> State<T> {
    if state.version == Releases::V2 {
        State {
            agenda: state.agenda.union_prefer_right(
                upgraded::<T, ScheduledV2Of<T>>(
                    stored,
                    |task: ScheduledV2Of<T>| upgraded_v2::<T>(task),
                ),
            ),
            version: Releases::V3,
            ..state
        }
    } else {
        state
    }
}

/// A migration is performed once: whatever is stored, neither migration changes a state that
/// either of them made, nor that of a network which started with the last version.
pub proof fn law_migrations_run_once<T: Config>(
    state: State<T>,
    stored_v1: Map<BlockNumber, Vec<Option<ScheduledV1<T::Call, BlockNumber>>>>,
    stored_v2: Map<BlockNumber, Vec<Option<ScheduledV2Of<T>>>>,
    later_v1: Map<BlockNumber, Vec<Option<ScheduledV1<T::Call, BlockNumber>>>>,
    later_v2: Map<BlockNumber, Vec<Option<ScheduledV2Of<T>>>>,
)
    ensures
        state.version == Releases::V1 ==> {
            let after = migrated_v1(state, stored_v1);
            migrated_v1(after, later_v1) == after && migrated_v2(after, later_v2) == after
        },
        state.version == Releases::V2 ==> {
            let after = migrated_v2(state, stored_v2);
            migrated_v1(after, later_v1) == after && migrated_v2(after, later_v2) == after
        },
        state.version == Releases::V3 ==> migrated_v1(state, later_v1) == state && migrated_v2(
            state,
            later_v2,
        ) == state,
{
}

/// What a migration makes of a stored task is found where the task was stored, and every name
/// leads to where it led.
pub proof fn law_migrated_tasks_are_found<T: Config>(
    state: State<T>,
    stored_v1: Map<BlockNumber, Vec<Option<ScheduledV1<T::Call, BlockNumber>>>>,
    stored_v2: Map<BlockNumber, Vec<Option<ScheduledV2Of<T>>>>,
    address: TaskAddress<BlockNumber>,
)
    ensures
        state.version == Releases::V1 && stored_v1.contains_key(address.0) && address.1
            < stored_v1[address.0]@.len() ==> migrated_v1(state, stored_v1).task_at(address) == (
        match stored_v1[address.0]@[address.1 as int] {
            Some(task) => Some(upgraded_v1::<T>(task)),
            None => None,
        }),
        state.version == Releases::V2 && stored_v2.contains_key(address.0) && address.1
            < stored_v2[address.0]@.len() ==> migrated_v2(state, stored_v2).task_at(address) == (
        match stored_v2[address.0]@[address.1 as int] {
            Some(task) => Some(upgraded_v2::<T>(task)),
            None => None,
        }),
        migrated_v1(state, stored_v1).lookup == state.lookup,
        migrated_v2(state, stored_v2).lookup == state.lookup,
{
}

/// The slots hold what became of the old tasks, where `upgrade` made it of them.
pub open spec fn translated<T: Config, Old, F: Fn(Old) -> ScheduledOf<T>>(
    old_slots: Seq<Option<Old>>,
    slots: Seq<Option<TaskOf<T>>>,
    upgrade: F,
) -> bool {
    &&& slots.len() == old_slots.len()
    &&& forall|i: int|
        0 <= i < slots.len() ==> match old_slots[i] {
            Some(old_task) => {
                &&& #[trigger] slots[i] is Some
                &&& exists|task: ScheduledOf<T>| #[trigger]
                    upgrade.ensures((old_task,), task) && task@ == slots[i]->0
            },
            None => slots[i] is None,
        }
}

/// Makes the slots of one block what became of the old tasks.
fn translate_slots<T: Config, Old, F: Fn(Old) -> ScheduledOf<T>>(
    old_slots: Vec<Option<Old>>,
    upgrade: &F,
) -> (slots: Vec<Option<ScheduledOf<T>>>)
    requires
        forall|old_task: Old| upgrade.requires((old_task,)),
    ensures
        translated::<T, Old, F>(old_slots@, slots_view::<T>(slots@), *upgrade),
{
    let ghost all = old_slots@;
    let mut slots: Vec<Option<ScheduledOf<T>>> = Vec::new();
    for old_slot in it: old_slots
        invariant
            it.seq() == all,
            forall|old_task: Old| upgrade.requires((old_task,)),
            translated::<T, Old, F>(
                all.take(it.index() as int),
                slots_view::<T>(slots@),
                *upgrade,
            ),
    {
        let ghost before = slots_view::<T>(slots@);
        let ghost seen = all.take(it.index() as int);
        let slot = match old_slot {
            Some(old_task) => Some(upgrade(old_task)),
            None => None,
        };
        slots.push(slot);
        proof {
            let after = slots_view::<T>(slots@);
            assert(after =~= before.push(slot_view::<T>(slot)));
            assert(all.take(it.index() + 1) =~= seen.push(old_slot));
            assert forall|i: int| 0 <= i < after.len() implies match all.take(it.index() + 1)[i] {
                Some(old_task) => {
                    &&& #[trigger] after[i] is Some
                    &&& exists|task: ScheduledOf<T>| #[trigger]
                        upgrade.ensures((old_task,), task) && task@ == after[i]->0
                },
                None => after[i] is None,
            } by {
                if i < before.len() {
                    assert(after[i] == before[i]);
                    assert(all.take(it.index() + 1)[i] == seen[i]);
                }
            }
        }
    }
    assert(all.take(all.len() as int) =~= all);
    slots
}

/// The slots hold the old tasks, each with an origin that its own was turned into.
pub open spec fn origins_changed<T: Config, OldOrigin: Into<T::PalletsOrigin>>(
    old_slots: Seq<Option<ScheduledFrom<T, OldOrigin>>>,
    slots: Seq<Option<TaskOf<T>>>,
) -> bool {
    &&& slots.len() == old_slots.len()
    &&& forall|i: int|
        0 <= i < slots.len() ==> match old_slots[i] {
            Some(old_task) => match #[trigger] slots[i] {
                Some(task) => {
                    &&& call_ensures(OldOrigin::into, (old_task.origin,), task.origin)
                    &&& task == with_origin::<T, OldOrigin>(old_task, task.origin)
                },
                None => false,
            },
            None => slots[i] is None,
        }
}

/// Where each task became what `model` says, so did the agendas.
proof fn lemma_upgraded<T: Config, Old, F: Fn(Old) -> ScheduledOf<T>>(
    stored: Map<BlockNumber, Vec<Option<Old>>>,
    before: Map<BlockNumber, Seq<Option<TaskOf<T>>>>,
    after: Map<BlockNumber, Seq<Option<TaskOf<T>>>>,
    upgrade: F,
    model: spec_fn(Old) -> TaskOf<T>,
)
    requires
        forall|old_task: Old, task: ScheduledOf<T>| #[trigger]
            upgrade.ensures((old_task,), task) ==> task@ == model(old_task),
        after.dom() == before.dom().union(stored.dom()),
        forall|when: BlockNumber| #[trigger]
            after.contains_key(when) ==> if stored.contains_key(when) {
                translated::<T, Old, F>(stored[when]@, after[when], upgrade)
            } else {
                after[when] == before[when]
            },
    ensures
        after == before.union_prefer_right(upgraded::<T, Old>(stored, model)),
{
    let expected = before.union_prefer_right(upgraded::<T, Old>(stored, model));
    assert forall|when: BlockNumber| #[trigger] after.contains_key(when) implies after[when]
        == expected[when] by {
        if stored.contains_key(when) {
            assert(after[when] =~= expected[when]);
        }
    }
    assert(after =~= expected);
}

impl<T: Config> Pallet<T> {
    /// Puts what became of the tasks of stored agendas on the agendas of the same blocks.
    fn translate<Old, F: Fn(Old) -> ScheduledOf<T>>(
        &mut self,
        stored: &mut StoredAgenda<Old>,
        upgrade: F,
    )
        requires
            forall|old_task: Old| upgrade.requires((old_task,)),
        ensures
            final(stored)@ == Map::<BlockNumber, Vec<Option<Old>>>::empty(),
            final(self)@ == (State { agenda: final(self)@.agenda, ..old(self)@ }),
            final(self)@.agenda.dom() == old(self)@.agenda.dom().union(old(stored)@.dom()),
            forall|when: BlockNumber| #[trigger]
                final(self)@.agenda.contains_key(when) ==> if old(stored)@.contains_key(when) {
                    translated::<T, Old, F>(
                        old(stored)@[when]@,
                        final(self)@.agenda[when],
                        upgrade,
                    )
                } else {
                    final(self)@.agenda[when] == old(self)@.agenda[when]
                },
    {
        loop
            invariant
                forall|old_task: Old| upgrade.requires((old_task,)),
                self@ == (State { agenda: self@.agenda, ..old(self)@ }),
                forall|when: BlockNumber| #[trigger]
                    stored@.contains_key(when) ==> old(stored)@.contains_pair(when, stored@[when]),
                forall|when: BlockNumber| #[trigger]
                    old(stored)@.contains_key(when) && !stored@.contains_key(when)
                        ==> self@.agenda.contains_key(when) && translated::<T, Old, F>(
                        old(stored)@[when]@,
                        self@.agenda[when],
                        upgrade,
                    ),
                forall|when: BlockNumber|
                    !old(stored)@.contains_key(when) || stored@.contains_key(when) ==> (#[trigger]
                    self@.agenda.contains_key(when) <==> old(self)@.agenda.contains_key(when)),
                forall|when: BlockNumber| #[trigger]
                    self@.agenda.contains_key(when) && !old(stored)@.contains_key(when)
                        ==> self@.agenda[when] == old(self)@.agenda[when],
            ensures
                stored@ == Map::<BlockNumber, Vec<Option<Old>>>::empty(),
            decreases stored.size(),
        {
            match stored.pop() {
                Some((when, old_slots)) => {
                    let slots = translate_slots::<T, Old, F>(old_slots, &upgrade);
                    self.put_slots(when, slots);
                },
                None => break,
            }
        }
        assert(self@.agenda.dom() =~= old(self)@.agenda.dom().union(old(stored)@.dom()));
    }

    /// Migrate storage format from V1 to V3.
    /// Return true if migration is performed.
    pub fn migrate_v1_to_v3(
        &mut self,
        stored: &mut StoredAgenda<ScheduledV1<T::Call, BlockNumber>>,
    ) -> (migrated: bool)
        ensures
            migrated == (old(self)@.version == Releases::V1),
            final(self)@ == migrated_v1(old(self)@, old(stored)@),
            migrated ==> final(stored)@ == Map::<
                BlockNumber,
                Vec<Option<ScheduledV1<T::Call, BlockNumber>>>,
            >::empty(),
            !migrated ==> *final(stored) == *old(stored),
    {
        if self.storage_version == Releases::V1 {
            self.storage_version = Releases::V3;
            let upgrade = |task: ScheduledV1<T::Call, BlockNumber>| -> (upgraded: ScheduledOf<T>)
                ensures
                    upgraded@ == upgraded_v1::<T>(task),
                {
                    ScheduledV3 {
                        maybe_id: task.maybe_id,
                        priority: task.priority,
                        call: MaybeHashed::Value(task.call),
                        maybe_periodic: task.maybe_periodic,
                        origin: T::root(),
                        _phantom: PhantomData,
                    }
                };
            self.translate(stored, upgrade);
            proof {
                let model = |task: ScheduledV1<T::Call, BlockNumber>| upgraded_v1::<T>(task);
                lemma_upgraded::<T, ScheduledV1<T::Call, BlockNumber>, _>(
                    old(stored)@,
                    old(self)@.agenda,
                    self@.agenda,
                    upgrade,
                    model,
                );
            }
            true
        } else {
            false
        }
    }

    /// Migrate storage format from V2 to V3.
    /// Return true if migration is performed.
    pub fn migrate_v2_to_v3(&mut self, stored: &mut StoredAgenda<ScheduledV2Of<T>>) -> (migrated:
        bool)
        ensures
            migrated == (old(self)@.version == Releases::V2),
            final(self)@ == migrated_v2(old(self)@, old(stored)@),
            migrated ==> final(stored)@ == Map::<BlockNumber, Vec<Option<ScheduledV2Of<T>>>>::empty(),
            !migrated ==> *final(stored) == *old(stored),
    {
        if self.storage_version == Releases::V2 {
            self.storage_version = Releases::V3;
            let upgrade = |task: ScheduledV2Of<T>| -> (upgraded: ScheduledOf<T>)
                ensures
                    upgraded@ == upgraded_v2::<T>(task),
                {
                    ScheduledV3 {
                        maybe_id: task.maybe_id,
                        priority: task.priority,
                        call: MaybeHashed::Value(task.call),
                        maybe_periodic: task.maybe_periodic,
                        origin: task.origin,
                        _phantom: PhantomData,
                    }
                };
            self.translate(stored, upgrade);
            proof {
                let model = |task: ScheduledV2Of<T>| upgraded_v2::<T>(task);
                lemma_upgraded::<T, ScheduledV2Of<T>, _>(
                    old(stored)@,
                    old(self)@.agenda,
                    self@.agenda,
                    upgrade,
                    model,
                );
            }
            true
        } else {
            false
        }
    }

    /// Helper to migrate scheduler when the pallet origin type has changed.
    pub fn migrate_origin<OldOrigin: Into<T::PalletsOrigin>>(
        &mut self,
        stored: &mut StoredAgenda<ScheduledFrom<T, OldOrigin>>,
    )
        ensures
            final(stored)@ == Map::<
                BlockNumber,
                Vec<Option<ScheduledFrom<T, OldOrigin>>>,
            >::empty(),
            final(self)@ == (State { agenda: final(self)@.agenda, ..old(self)@ }),
            final(self)@.agenda.dom() == old(self)@.agenda.dom().union(old(stored)@.dom()),
            forall|when: BlockNumber| #[trigger]
                final(self)@.agenda.contains_key(when) ==> if old(stored)@.contains_key(when) {
                    origins_changed::<T, OldOrigin>(
                        old(stored)@[when]@,
                        final(self)@.agenda[when],
                    )
                } else {
                    final(self)@.agenda[when] == old(self)@.agenda[when]
                },
    {
        let upgrade = |task: ScheduledFrom<T, OldOrigin>| -> (upgraded: ScheduledOf<T>)
            ensures
                call_ensures(OldOrigin::into, (task.origin,), upgraded.origin),
                upgraded@ == with_origin::<T, OldOrigin>(task, upgraded.origin),
            {
                Scheduled {
                    maybe_id: task.maybe_id,
                    priority: task.priority,
                    call: task.call,
                    maybe_periodic: task.maybe_periodic,
                    origin: task.origin.into(),
                    _phantom: PhantomData,
                }
            };
        self.translate(stored, upgrade);
    }
}

/// Where the storage is of the first version, and only there, a migration of it is performed: each
/// stored task is then in the slot that it was in, as it was, with the origin of the system itself,
/// whatever version it is asked for; and nothing is left of what was stored.
pub proof fn law_what_becomes_of_tasks_of_the_first_version<T: Config>(
    pallet: &mut Pallet<T>,
    stored: &mut StoredAgenda<ScheduledV1<T::Call, BlockNumber>>,
    migrated: bool,
    when: BlockNumber,
    i: int,
)
    requires
        call_ensures(Pallet::<T>::migrate_v1_to_v3, (pallet, stored), migrated),
    ensures
        migrated <==> old(pallet)@.version == Releases::V1,
        !migrated ==> final(pallet)@ == old(pallet)@ && final(stored)@ == old(stored)@,
        final(pallet)@.lookup == old(pallet)@.lookup,
        final(pallet)@.events == old(pallet)@.events,
        migrated ==> {
            let before = old(stored)@;
            let after = final(pallet)@;
            &&& after.version == Releases::V3
            &&& forall|block: BlockNumber| !#[trigger] final(stored)@.contains_key(block)
            &&& !before.contains_key(when) ==> {
                &&& after.agenda.contains_key(when) <==> old(pallet)@.agenda.contains_key(when)
                &&& after.slots(when) == old(pallet)@.slots(when)
            }
            &&& before.contains_key(when) ==> {
                &&& after.agenda.contains_key(when)
                &&& after.agenda[when].len() == before[when]@.len()
                &&& 0 <= i < before[when]@.len() ==> match before[when]@[i] {
                    Some(task) => after.agenda[when][i] == Some(
                        Task {
                            id: match task.maybe_id {
                                Some(id) => Some(id@),
                                None => None,
                            },
                            priority: task.priority,
                            call: MaybeHashed::<T::Call, T::Hash>::Value(task.call),
                            periodic: task.maybe_periodic,
                            origin: T::root_origin(),
                        },
                    ),
                    None => after.agenda[when][i] is None,
                }
            }
        },
        call_requires(Pallet::<T>::migrate_v1_to_v3, (pallet, stored)),
{
}

/// Where the storage is of the second version, and only there, a migration of it is performed: each
/// stored task is then in the slot that it was in, as it was, with its own origin; and nothing is
/// left of what was stored.
pub proof fn law_what_becomes_of_tasks_of_the_second_version<T: Config>(
    pallet: &mut Pallet<T>,
    stored: &mut StoredAgenda<ScheduledV2Of<T>>,
    migrated: bool,
    when: BlockNumber,
    i: int,
)
    requires
        call_ensures(Pallet::<T>::migrate_v2_to_v3, (pallet, stored), migrated),
    ensures
        migrated <==> old(pallet)@.version == Releases::V2,
        !migrated ==> final(pallet)@ == old(pallet)@ && final(stored)@ == old(stored)@,
        final(pallet)@.lookup == old(pallet)@.lookup,
        final(pallet)@.events == old(pallet)@.events,
        migrated ==> {
            let before = old(stored)@;
            let after = final(pallet)@;
            &&& after.version == Releases::V3
            &&& forall|block: BlockNumber| !#[trigger] final(stored)@.contains_key(block)
            &&& !before.contains_key(when) ==> {
                &&& after.agenda.contains_key(when) <==> old(pallet)@.agenda.contains_key(when)
                &&& after.slots(when) == old(pallet)@.slots(when)
            }
            &&& before.contains_key(when) ==> {
                &&& after.agenda.contains_key(when)
                &&& after.agenda[when].len() == before[when]@.len()
                &&& 0 <= i < before[when]@.len() ==> match before[when]@[i] {
                    Some(task) => after.agenda[when][i] == Some(
                        Task {
                            id: match task.maybe_id {
                                Some(id) => Some(id@),
                                None => None,
                            },
                            priority: task.priority,
                            call: MaybeHashed::<T::Call, T::Hash>::Value(task.call),
                            periodic: task.maybe_periodic,
                            origin: task.origin,
                        },
                    ),
                    None => after.agenda[when][i] is None,
                }
            }
        },
        call_requires(Pallet::<T>::migrate_v2_to_v3, (pallet, stored)),
{
}

/// When origins become others, each stored task is in the slot that it was in, as it was, with what
/// its origin is turned into; and nothing is left of what was stored.
pub proof fn law_what_becomes_of_tasks_of_other_origins<
    T: Config,
    OldOrigin: Into<T::PalletsOrigin>,
>(
    pallet: &mut Pallet<T>,
    stored: &mut StoredAgenda<ScheduledFrom<T, OldOrigin>>,
    when: BlockNumber,
    i: int,
)
    requires
        call_ensures(Pallet::<T>::migrate_origin::<OldOrigin>, (pallet, stored), ()),
    ensures
        final(pallet)@.lookup == old(pallet)@.lookup,
        final(pallet)@.events == old(pallet)@.events,
        final(pallet)@.version == old(pallet)@.version,
        forall|block: BlockNumber| !#[trigger] final(stored)@.contains_key(block),
        ({
            let before = old(stored)@;
            let after = final(pallet)@;
            &&& !before.contains_key(when) ==> {
                &&& after.agenda.contains_key(when) <==> old(pallet)@.agenda.contains_key(when)
                &&& after.slots(when) == old(pallet)@.slots(when)
            }
            &&& before.contains_key(when) ==> {
                &&& after.agenda.contains_key(when)
                &&& after.agenda[when].len() == before[when]@.len()
                &&& 0 <= i < before[when]@.len() ==> match before[when]@[i] {
                    Some(task) => after.agenda[when][i] matches Some(became) && {
                        &&& became.id == (match task.maybe_id {
                            Some(id) => Some(id@),
                            None => None,
                        })
                        &&& became.priority == task.priority
                        &&& became.call == task.call
                        &&& became.periodic == task.maybe_periodic
                        &&& call_ensures(OldOrigin::into, (task.origin,), became.origin)
                    },
                    None => after.agenda[when][i] is None,
                }
            }
        }),
        call_requires(Pallet::<T>::migrate_origin::<OldOrigin>, (pallet, stored)),
{
    let before = old(stored)@;
    let after = final(pallet)@;
    assert(after.agenda.contains_key(when) <==> old(pallet)@.agenda.dom().union(
        before.dom(),
    ).contains(when));
    if before.contains_key(when) {
        let slots = after.agenda[when];
        assert(origins_changed::<T, OldOrigin>(before[when]@, slots));
        if 0 <= i < slots.len() {
            let slot = slots[i];
            assert(match before[when]@[i] {
                Some(task) => slot matches Some(became) && became == with_origin::<T, OldOrigin>(
                    task,
                    became.origin,
                ),
                None => slot is None,
            });
        }
    }
}

} // verus!
