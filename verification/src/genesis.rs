//! The scheduler of a new network.
use vstd::prelude::*;

use crate::config::Config;
use crate::pallet::{Pallet, State};
use crate::storage::StorageMap;
use crate::types::{BlockNumber, Releases};

verus! {

/// What the scheduler of a new network is built from.
#[derive(PartialEq, Eq, Debug)]
pub struct GenesisConfig;

impl Default for GenesisConfig {
    fn default() -> (config: Self)
        ensures
            config == GenesisConfig,
    {
        GenesisConfig
    }
}

impl GenesisConfig {
    /// Marks the storage of a new network as one of the last version.
    pub fn build<T: Config>(&self, pallet: &mut Pallet<T>)
        ensures
            final(pallet)@ == (State { version: Releases::V3, ..old(pallet)@ }),
    {
        pallet.storage_version = Releases::V3;
    }
}

impl<T: Config> State<T> {
    /// The state in which nothing was ever stored.
    pub open spec fn blank() -> Self {
        State {
            agenda: Map::empty(),
            lookup: Map::empty(),
            version: Releases::V1,
            events: Seq::empty(),
        }
    }
}

impl<T: Config> Pallet<T> {
    /// A scheduler of which nothing was ever stored.
    pub fn new() -> (pallet: Self)
        ensures
            pallet@ == State::<T>::blank(),
    {
        let pallet = Pallet {
            agenda: StorageMap::new(),
            lookup: StorageMap::new(),
            storage_version: Releases::default(),
            events: Vec::new(),
        };
        assert(pallet@ =~= State::<T>::blank());
        pallet
    }
}

/// A scheduler of which nothing was ever stored has no agenda and no names, and has reported
/// nothing. That of a new network is the same, but of the last version.
pub proof fn law_a_new_network<T: Config>(
    config: GenesisConfig,
    blank: Pallet<T>,
    pallet: &mut Pallet<T>,
    release: Releases,
)
    requires
        call_ensures(<Releases as Default>::default, (), release),
        call_ensures(Pallet::<T>::new, (), blank),
        call_ensures(GenesisConfig::build::<T>, (&config, pallet), ()),
    ensures
        forall|when: BlockNumber| !#[trigger] blank@.agenda.contains_key(when),
        forall|id: Seq<u8>| !#[trigger] blank@.lookup.contains_key(id),
        blank@.events.len() == 0,
        blank@.version == release,
        release == Releases::V1,
        final(pallet)@.version == Releases::V3,
        final(pallet)@.agenda == old(pallet)@.agenda,
        final(pallet)@.lookup == old(pallet)@.lookup,
        final(pallet)@.events == old(pallet)@.events,
        call_requires(Pallet::<T>::new, ()),
        call_requires(GenesisConfig::build::<T>, (&config, pallet)),
{
}

} // verus!
