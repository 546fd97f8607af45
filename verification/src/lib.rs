//! # Scheduler
//!
//! A pallet for scheduling dispatches.
//!
//! ## Overview
//!
//! The pallet exposes capabilities for scheduling dispatches to occur at a specified block number
//! or at a specified period. These scheduled dispatches may be named or anonymous and may be
//! canceled.
//!
//! ## Interface
//!
//! ### Dispatchable functions
//!
//! * `schedule` - schedule a dispatch, which may be periodic, to occur at a specified block and
//!   with a specified priority.
//! * `cancel` - cancel a scheduled dispatch, specified by block number and index.
//! * `schedule_named` - augments the `schedule` interface with an additional `Vec<u8>` parameter
//!   that can be used for identification.
//! * `cancel_named` - the named complement to the cancel function.
pub mod anon;
pub mod calls;
pub mod config;
pub mod dispatchables;
pub mod genesis;
pub mod hooks;
pub mod laws;
pub mod migration;
pub mod named;
pub mod names;
pub mod pallet;
pub mod pending;
pub mod preimages;
pub mod privileges;
pub mod queue;
pub mod requests;
pub mod runs;
pub mod slots;
pub mod starts;
pub mod storage;
pub mod times;
pub mod types;
pub mod views;
pub mod weights;

pub use config::Config;
pub use genesis::GenesisConfig;
pub use hooks::Dispatchable;
pub use pallet::Pallet;
pub use types::{
    BlockNumber, DispatchTime, Error, Event, MaybeHashed, Releases, Scheduled, ScheduledV1,
    ScheduledV3, SchedulerError, TaskAddress,
};
