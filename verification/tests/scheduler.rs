use std::cmp::Ordering;
use std::marker::PhantomData;

use pallet_scheduler::anon;
use pallet_scheduler::named;
use pallet_scheduler::pallet::{CallOrHashOf, ScheduledOf, ScheduledV2Of};
use pallet_scheduler::preimages::{ensure_requested, ensure_unrequested, lookup_call};
use pallet_scheduler::privileges::check_privilege;
use pallet_scheduler::queue::{sort_by_priority, ScheduledFoundOf};
use pallet_scheduler::storage::{StorageKey, StorageMap};
use pallet_scheduler::types::{BadOrigin, CallResult, LookupError, HARD_DEADLINE};
use pallet_scheduler::weights::{RuntimeDbWeight, Weight};
use pallet_scheduler::{
    BlockNumber, Config, DispatchTime, Dispatchable, Error, Event, GenesisConfig, MaybeHashed,
    Pallet, Releases, Scheduled, ScheduledV1, ScheduledV3, SchedulerError, TaskAddress,
};

#[derive(Clone, PartialEq, Eq, Debug)]
enum Origin {
    Root,
    Signed(u64),
    Nobody,
}

#[derive(Clone, PartialEq, Eq, Debug)]
enum Call {
    /// Notes the tag and who called.
    Log { tag: u32, weight: Weight },
    /// Fails.
    Fail { weight: Weight },
    /// Cancels the task with the name.
    CancelNamed { id: Vec<u8> },
    /// Schedules a note of the tag.
    ScheduleLog { when: BlockNumber, tag: u32 },
}

/// A runtime in which calls leave notes.
struct Mock {
    block: BlockNumber,
    db: RuntimeDbWeight,
    limit: Weight,
    preimages: Vec<(u64, Vec<u8>)>,
    requests: Vec<u64>,
    log: Vec<(Origin, u32)>,
}

impl Config for Mock {
    type Origin = Origin;
    type PalletsOrigin = Origin;
    type AccountId = u64;
    type Call = Call;
    type Hash = u64;

    fn block_number(&self) -> BlockNumber {
        self.block
    }

    fn db_weight(&self) -> RuntimeDbWeight {
        self.db
    }

    fn maximum_weight(&self) -> Weight {
        self.limit
    }

    fn ensure_schedule_origin(&self, origin: &Origin) -> Result<(), BadOrigin> {
        match origin {
            Origin::Root | Origin::Signed(1) | Origin::Signed(2) => Ok(()),
            _ => Err(BadOrigin),
        }
    }

    fn caller(origin: Origin) -> Origin {
        origin
    }

    fn root() -> Origin {
        Origin::Root
    }

    fn is_signed(origin: &Origin) -> bool {
        matches!(origin, Origin::Signed(_))
    }

    fn cmp_privilege(&self, left: &Origin, right: &Origin) -> Option<Ordering> {
        match (left, right) {
            (l, r) if l == r => Some(Ordering::Equal),
            (Origin::Root, _) => Some(Ordering::Greater),
            (_, Origin::Root) => Some(Ordering::Less),
            _ => None,
        }
    }

    fn dispatch_weight(&self, call: &Call) -> Weight {
        match call {
            Call::Log { weight, .. } | Call::Fail { weight } => *weight,
            _ => 10,
        }
    }

    /// A tag and a weight are a note.
    fn decode_call(data: &Vec<u8>) -> Option<Call> {
        if data.len() == 2 {
            Some(Call::Log { tag: data[0] as u32, weight: data[1] as u64 })
        } else {
            None
        }
    }

    fn get_preimage(&self, hash: &u64) -> Option<Vec<u8>> {
        self.preimages.iter().find(|(h, _)| h == hash).map(|(_, data)| data.clone())
    }

    fn request_preimage(&mut self, hash: &u64) {
        self.requests.push(*hash);
    }

    fn unrequest_preimage(&mut self, hash: &u64) {
        if let Some(i) = self.requests.iter().position(|h| h == hash) {
            self.requests.remove(i);
        }
    }
}

impl Dispatchable for Mock {
    fn dispatch(&mut self, pallet: &mut Pallet<Mock>, origin: &Origin, call: &Call) -> CallResult {
        match call {
            Call::Log { tag, .. } => {
                if *origin == Origin::Nobody {
                    return Err(sp_runtime::DispatchError::BadOrigin);
                }
                self.log.push((origin.clone(), *tag));
                Ok(())
            }
            Call::Fail { .. } => Err(sp_runtime::DispatchError::Other("fails")),
            Call::CancelNamed { id } => pallet
                .do_cancel_named(self, Some(origin.clone()), id.clone())
                .map_err(|_| sp_runtime::DispatchError::Other("not canceled")),
            Call::ScheduleLog { when, tag } => anon::schedule(
                pallet,
                self,
                DispatchTime::At(*when),
                None,
                127,
                origin.clone(),
                log(*tag),
            )
            .map(|_| ())
            .map_err(|_| sp_runtime::DispatchError::Other("not scheduled")),
        }
    }
}

/// A new network at block 1, with accesses to the database that weigh nothing.
fn network() -> (Pallet<Mock>, Mock) {
    let mut pallet = Pallet::new();
    GenesisConfig::default().build(&mut pallet);
    let runtime = Mock {
        block: 1,
        db: RuntimeDbWeight { read: 0, write: 0 },
        limit: 1000,
        preimages: vec![],
        requests: vec![],
        log: vec![],
    };
    (pallet, runtime)
}

/// Starts the blocks up to `last`, and gives what each weighs.
fn run_to_block(pallet: &mut Pallet<Mock>, runtime: &mut Mock, last: BlockNumber) -> Vec<Weight> {
    let mut weights = vec![];
    while runtime.block < last {
        runtime.block += 1;
        let now = runtime.block;
        weights.push(pallet.on_initialize(runtime, now));
    }
    weights
}

/// A light note.
fn log(tag: u32) -> CallOrHashOf<Mock> {
    MaybeHashed::Value(Call::Log { tag, weight: 10 })
}

/// A note that weighs something.
fn heavy(tag: u32, weight: Weight) -> CallOrHashOf<Mock> {
    MaybeHashed::Value(Call::Log { tag, weight })
}

/// The tags that were noted.
fn tags(runtime: &Mock) -> Vec<u32> {
    runtime.log.iter().map(|(_, tag)| *tag).collect()
}

/// Schedules a note of the root for a block.
fn at(
    pallet: &mut Pallet<Mock>,
    runtime: &mut Mock,
    when: BlockNumber,
    priority: u8,
    call: CallOrHashOf<Mock>,
) -> TaskAddress<BlockNumber> {
    anon::schedule(pallet, runtime, DispatchTime::At(when), None, priority, Origin::Root, call)
        .unwrap()
}

/// A task of the root.
fn task(id: Option<Vec<u8>>, priority: u8, call: CallOrHashOf<Mock>) -> ScheduledOf<Mock> {
    ScheduledV3 {
        maybe_id: id,
        priority,
        call,
        maybe_periodic: None,
        origin: Origin::Root,
        _phantom: PhantomData,
    }
}

fn module<R>(error: Error) -> Result<R, SchedulerError> {
    Err(SchedulerError::Module(error))
}

#[test]
fn scheduled_call_is_dispatched_in_its_block_and_once() {
    let (mut pallet, mut runtime) = network();
    let address = at(&mut pallet, &mut runtime, 4, 127, log(42));
    assert_eq!(address, (4, 0));
    run_to_block(&mut pallet, &mut runtime, 3);
    assert!(runtime.log.is_empty());
    run_to_block(&mut pallet, &mut runtime, 4);
    assert_eq!(runtime.log, vec![(Origin::Root, 42)]);
    run_to_block(&mut pallet, &mut runtime, 100);
    assert_eq!(runtime.log, vec![(Origin::Root, 42)]);
    assert_eq!(
        pallet.events,
        vec![Event::Scheduled(4, 0), Event::Dispatched((4, 0), None, Ok(()))]
    );
}

#[test]
fn address_counts_the_slots_of_the_block() {
    let (mut pallet, mut runtime) = network();
    assert_eq!(at(&mut pallet, &mut runtime, 4, 127, log(1)), (4, 0));
    assert_eq!(at(&mut pallet, &mut runtime, 4, 127, log(2)), (4, 1));
    assert_eq!(at(&mut pallet, &mut runtime, 5, 127, log(3)), (5, 0));
    assert_eq!(anon::cancel(&mut pallet, &mut runtime, (4, 1)), Ok(()));
    assert_eq!(at(&mut pallet, &mut runtime, 4, 127, log(4)), (4, 2));
    assert_eq!(pallet.decode_len(4), Some(3));
    assert_eq!(pallet.decode_len(5), Some(1));
    assert_eq!(pallet.decode_len(6), None);
}

#[test]
fn delay_counts_from_the_block_after_the_current_one() {
    let (mut pallet, mut runtime) = network();
    run_to_block(&mut pallet, &mut runtime, 2);
    let address = anon::schedule(
        &mut pallet,
        &mut runtime,
        DispatchTime::After(3),
        None,
        127,
        Origin::Root,
        log(42),
    );
    assert_eq!(address, Ok((6, 0)));
    run_to_block(&mut pallet, &mut runtime, 5);
    assert!(tags(&runtime).is_empty());
    run_to_block(&mut pallet, &mut runtime, 6);
    assert_eq!(tags(&runtime), vec![42]);
}

#[test]
fn empty_delay_means_the_next_block() {
    let (mut pallet, mut runtime) = network();
    run_to_block(&mut pallet, &mut runtime, 2);
    let address = anon::schedule(
        &mut pallet,
        &mut runtime,
        DispatchTime::After(0),
        None,
        127,
        Origin::Root,
        log(42),
    );
    assert_eq!(address, Ok((3, 0)));
    run_to_block(&mut pallet, &mut runtime, 3);
    assert_eq!(tags(&runtime), vec![42]);
}

#[test]
fn times_are_resolved_to_later_blocks() {
    let (_, mut runtime) = network();
    runtime.block = 5;
    assert_eq!(Pallet::resolve_time(&runtime, DispatchTime::At(6)), Ok(6));
    assert_eq!(
        Pallet::resolve_time(&runtime, DispatchTime::At(5)),
        module(Error::TargetBlockNumberInPast)
    );
    assert_eq!(
        Pallet::resolve_time(&runtime, DispatchTime::At(0)),
        module(Error::TargetBlockNumberInPast)
    );
    assert_eq!(Pallet::resolve_time(&runtime, DispatchTime::After(7)), Ok(13));
    assert_eq!(Pallet::resolve_time(&runtime, DispatchTime::After(u64::MAX)), Ok(u64::MAX));
    assert_eq!(Pallet::resolve_time(&runtime, DispatchTime::After(u64::MAX - 5)), Ok(u64::MAX));
    assert_eq!(Pallet::resolve_time(&runtime, DispatchTime::After(u64::MAX - 6)), Ok(u64::MAX));
    assert_eq!(Pallet::resolve_time(&runtime, DispatchTime::After(u64::MAX - 7)), Ok(u64::MAX - 1));
    runtime.block = u64::MAX;
    assert_eq!(
        Pallet::resolve_time(&runtime, DispatchTime::After(0)),
        module(Error::TargetBlockNumberInPast)
    );
}

#[test]
fn tasks_of_the_past_are_refused() {
    let (mut pallet, mut runtime) = network();
    runtime.block = 3;
    let past = Err(SchedulerError::Module(Error::TargetBlockNumberInPast));
    for when in 0..4 {
        assert_eq!(
            pallet.schedule(&mut runtime, Origin::Root, when, None, 127, Box::new(log(1))),
            past
        );
        assert_eq!(
            pallet.schedule_named(
                &mut runtime,
                Origin::Root,
                vec![1],
                when,
                None,
                127,
                Box::new(log(1))
            ),
            past
        );
    }
    assert!(pallet.events.is_empty());
    assert!(!pallet.lookup.contains_key(&vec![1]));
    assert_eq!(pallet.decode_len(3), None);
}

#[test]
fn periodic_task_is_executed_as_often_as_asked() {
    let (mut pallet, mut runtime) = network();
    let address = anon::schedule(
        &mut pallet,
        &mut runtime,
        DispatchTime::At(4),
        Some((3, 3)),
        127,
        Origin::Root,
        log(42),
    );
    assert_eq!(address, Ok((4, 0)));
    for (last, times) in [(3, 0), (4, 1), (6, 1), (7, 2), (9, 2), (10, 3), (100, 3)] {
        run_to_block(&mut pallet, &mut runtime, last);
        assert_eq!(tags(&runtime), vec![42; times]);
    }
    assert_eq!(
        pallet.events,
        vec![
            Event::Scheduled(4, 0),
            Event::Dispatched((4, 0), None, Ok(())),
            Event::Dispatched((7, 0), None, Ok(())),
            Event::Dispatched((10, 0), None, Ok(())),
        ]
    );
}

#[test]
fn repetitions_are_one_less_once_the_task_is_scheduled() {
    let (mut pallet, mut runtime) = network();
    let cases = [
        (None, None),
        (Some((3, 0)), None),
        (Some((3, 1)), None),
        (Some((0, 5)), None),
        (Some((3, 2)), Some((3, 1))),
        (Some((1, u32::MAX)), Some((1, u32::MAX - 1))),
    ];
    for (asked, kept) in cases {
        let address = anon::schedule(
            &mut pallet,
            &mut runtime,
            DispatchTime::At(4),
            asked,
            127,
            Origin::Root,
            log(1),
        )
        .unwrap();
        assert_eq!(pallet.task(address).unwrap().maybe_periodic, kept);
        let id = vec![address.1 as u8];
        let address = named::schedule_named(
            &mut pallet,
            &mut runtime,
            id,
            DispatchTime::At(4),
            asked,
            127,
            Origin::Root,
            log(1),
        )
        .unwrap();
        assert_eq!(pallet.task(address).unwrap().maybe_periodic, kept);
    }
}

#[test]
fn scheduled_task_is_found_at_its_address() {
    let (mut pallet, mut runtime) = network();
    let address = named::schedule_named(
        &mut pallet,
        &mut runtime,
        vec![7, 8],
        DispatchTime::At(4),
        Some((5, 3)),
        9,
        Origin::Signed(2),
        log(42),
    )
    .unwrap();
    assert_eq!(address, (4, 0));
    assert_eq!(
        pallet.task(address),
        Some(&ScheduledV3 {
            maybe_id: Some(vec![7, 8]),
            priority: 9,
            call: log(42),
            maybe_periodic: Some((5, 2)),
            origin: Origin::Signed(2),
            _phantom: PhantomData,
        })
    );
    assert_eq!(pallet.task((4, 1)), None);
    assert_eq!(pallet.task((5, 0)), None);
    assert_eq!(pallet.lookup.get(&vec![7, 8]), Some(&(4, 0)));
    assert_eq!(pallet.events, vec![Event::Scheduled(4, 0)]);
}

#[test]
fn names_are_unique() {
    let (mut pallet, mut runtime) = network();
    let origin = Origin::Root;
    assert_eq!(
        pallet.schedule_named(
            &mut runtime,
            origin.clone(),
            vec![1],
            4,
            None,
            127,
            Box::new(log(1))
        ),
        Ok(())
    );
    assert_eq!(
        pallet.schedule_named(
            &mut runtime,
            origin.clone(),
            vec![1],
            9,
            None,
            127,
            Box::new(log(2))
        ),
        module(Error::FailedToSchedule)
    );
    // The name is looked at before the time is.
    assert_eq!(
        pallet.do_schedule_named(
            &mut runtime,
            vec![1],
            DispatchTime::At(0),
            None,
            127,
            origin.clone(),
            log(2)
        ),
        module(Error::FailedToSchedule)
    );
    assert_eq!(
        named::schedule_named(
            &mut pallet,
            &mut runtime,
            vec![1],
            DispatchTime::At(9),
            None,
            127,
            origin.clone(),
            log(2)
        ),
        Err(())
    );
    assert_eq!(
        named::schedule_named(
            &mut pallet,
            &mut runtime,
            vec![1, 0],
            DispatchTime::At(9),
            None,
            127,
            origin,
            log(2)
        ),
        Ok((9, 0))
    );
    assert_eq!(pallet.events, vec![Event::Scheduled(4, 0), Event::Scheduled(9, 0)]);
}

#[test]
fn name_is_free_after_the_last_execution() {
    let (mut pallet, mut runtime) = network();
    named::schedule_named(
        &mut pallet,
        &mut runtime,
        vec![1],
        DispatchTime::At(4),
        Some((3, 2)),
        127,
        Origin::Root,
        log(1),
    )
    .unwrap();
    run_to_block(&mut pallet, &mut runtime, 4);
    assert_eq!(pallet.lookup.get(&vec![1]), Some(&(7, 0)));
    assert_eq!(named::next_dispatch_time(&pallet, vec![1]), Ok(7));
    run_to_block(&mut pallet, &mut runtime, 7);
    assert_eq!(pallet.lookup.get(&vec![1]), None);
    assert_eq!(named::next_dispatch_time(&pallet, vec![1]), Err(()));
    assert_eq!(tags(&runtime), vec![1, 1]);
    assert_eq!(
        pallet.events[1..],
        [
            Event::Dispatched((4, 0), Some(vec![1]), Ok(())),
            Event::Dispatched((7, 0), Some(vec![1]), Ok(())),
        ]
    );
}

#[test]
fn periodic_name_leads_behind_the_tasks_of_its_next_time() {
    let (mut pallet, mut runtime) = network();
    at(&mut pallet, &mut runtime, 7, 127, log(2));
    named::schedule_named(
        &mut pallet,
        &mut runtime,
        vec![1],
        DispatchTime::At(4),
        Some((3, 3)),
        127,
        Origin::Root,
        log(1),
    )
    .unwrap();
    run_to_block(&mut pallet, &mut runtime, 4);
    assert_eq!(pallet.lookup.get(&vec![1]), Some(&(7, 1)));
    assert_eq!(pallet.task((7, 1)).unwrap().maybe_periodic, Some((3, 1)));
    run_to_block(&mut pallet, &mut runtime, 10);
    assert_eq!(tags(&runtime), vec![1, 2, 1, 1]);
}

#[test]
fn canceled_task_is_not_dispatched() {
    let (mut pallet, mut runtime) = network();
    let first = at(&mut pallet, &mut runtime, 4, 127, log(1));
    at(&mut pallet, &mut runtime, 4, 127, log(2));
    assert_eq!(pallet.cancel(&mut runtime, Origin::Root, first.0, first.1), Ok(()));
    assert_eq!(pallet.task(first), None);
    run_to_block(&mut pallet, &mut runtime, 10);
    assert_eq!(tags(&runtime), vec![2]);
    assert_eq!(
        pallet.events,
        vec![
            Event::Scheduled(4, 0),
            Event::Scheduled(4, 1),
            Event::Canceled(4, 0),
            Event::Dispatched((4, 1), None, Ok(())),
        ]
    );
}

#[test]
fn cancel_leaves_an_empty_slot_and_the_reports() {
    let (mut pallet, mut runtime) = network();
    let hash = MaybeHashed::Hash(99);
    let address = named::schedule_named(
        &mut pallet,
        &mut runtime,
        vec![1],
        DispatchTime::At(4),
        None,
        127,
        Origin::Root,
        hash,
    )
    .unwrap();
    assert_eq!(runtime.requests, vec![99]);
    assert_eq!(pallet.do_cancel(&mut runtime, Some(Origin::Root), address), Ok(()));
    assert!(runtime.requests.is_empty());
    assert_eq!(pallet.lookup.get(&vec![1]), None);
    assert_eq!(pallet.decode_len(4), Some(1));
    assert_eq!(pallet.task(address), None);
    assert_eq!(pallet.events, vec![Event::Scheduled(4, 0), Event::Canceled(4, 0)]);
    // What is canceled cannot be canceled again.
    assert_eq!(
        pallet.do_cancel(&mut runtime, Some(Origin::Root), address),
        module(Error::NotFound)
    );
}

#[test]
fn cancel_of_nothing_is_refused() {
    let (mut pallet, mut runtime) = network();
    at(&mut pallet, &mut runtime, 4, 127, log(1));
    assert_eq!(pallet.cancel(&mut runtime, Origin::Root, 4, 1), module(Error::NotFound));
    assert_eq!(pallet.cancel(&mut runtime, Origin::Root, 5, 0), module(Error::NotFound));
    assert_eq!(anon::cancel(&mut pallet, &mut runtime, (4, 1)), Err(()));
    assert_eq!(
        pallet.cancel_named(&mut runtime, Origin::Root, vec![1]),
        module(Error::NotFound)
    );
    assert_eq!(named::cancel_named(&mut pallet, &mut runtime, vec![1]), Err(()));
    assert_eq!(pallet.events, vec![Event::Scheduled(4, 0)]);
    assert_eq!(pallet.decode_len(4), Some(1));
    // The agenda of the other block is written back, empty as it is.
    assert_eq!(pallet.decode_len(5), Some(0));
}

#[test]
fn named_periodic_task_is_canceled_with_all_further_instances() {
    let (mut pallet, mut runtime) = network();
    named::schedule_named(
        &mut pallet,
        &mut runtime,
        vec![1],
        DispatchTime::At(4),
        Some((3, 3)),
        127,
        Origin::Root,
        log(42),
    )
    .unwrap();
    named::schedule_named(
        &mut pallet,
        &mut runtime,
        vec![2],
        DispatchTime::At(7),
        None,
        127,
        Origin::Root,
        log(69),
    )
    .unwrap();
    run_to_block(&mut pallet, &mut runtime, 6);
    assert_eq!(tags(&runtime), vec![42]);
    assert_eq!(named::cancel_named(&mut pallet, &mut runtime, vec![1]), Ok(()));
    run_to_block(&mut pallet, &mut runtime, 100);
    assert_eq!(tags(&runtime), vec![42, 69]);
}

#[test]
fn cancel_by_name_comes_to_cancel_by_address() {
    let (mut by_name, mut first) = network();
    let (mut by_address, mut second) = network();
    for (pallet, runtime) in [(&mut by_name, &mut first), (&mut by_address, &mut second)] {
        named::schedule_named(
            pallet,
            runtime,
            vec![1],
            DispatchTime::At(4),
            None,
            127,
            Origin::Signed(1),
            MaybeHashed::Hash(5),
        )
        .unwrap();
    }
    assert_eq!(by_name.cancel_named(&mut first, Origin::Signed(1), vec![1]), Ok(()));
    assert_eq!(by_address.cancel(&mut second, Origin::Signed(1), 4, 0), Ok(()));
    assert_eq!(by_name.events, by_address.events);
    assert_eq!(by_name.task((4, 0)), None);
    assert_eq!(by_address.task((4, 0)), None);
    assert_eq!(by_name.lookup.get(&vec![1]), None);
    assert_eq!(by_address.lookup.get(&vec![1]), None);
    assert!(first.requests.is_empty());
    assert!(second.requests.is_empty());
}

#[test]
fn cancel_by_name_without_origin_keeps_the_request() {
    let (mut pallet, mut runtime) = network();
    named::schedule_named(
        &mut pallet,
        &mut runtime,
        vec![1],
        DispatchTime::At(4),
        None,
        127,
        Origin::Root,
        MaybeHashed::Hash(5),
    )
    .unwrap();
    assert_eq!(named::cancel_named(&mut pallet, &mut runtime, vec![1]), Ok(()));
    assert_eq!(runtime.requests, vec![5]);
    assert_eq!(pallet.task((4, 0)), None);
}

#[test]
fn name_of_a_task_that_is_gone_can_still_be_canceled() {
    let (mut pallet, mut runtime) = network();
    pallet.lookup.insert(vec![1], (9, 3));
    assert_eq!(pallet.cancel_named(&mut runtime, Origin::Root, vec![1]), Ok(()));
    assert_eq!(pallet.lookup.get(&vec![1]), None);
    assert_eq!(pallet.events, vec![Event::Canceled(9, 3)]);
    assert_eq!(pallet.decode_len(9), Some(0));
}

#[test]
fn canceled_name_can_be_given_out_again() {
    let (mut pallet, mut runtime) = network();
    for when in [4, 5] {
        assert_eq!(
            pallet.schedule_named(
                &mut runtime,
                Origin::Root,
                vec![1],
                when,
                None,
                127,
                Box::new(log(1))
            ),
            Ok(())
        );
        assert_eq!(pallet.cancel_named(&mut runtime, Origin::Root, vec![1]), Ok(()));
        assert_eq!(named::next_dispatch_time(&pallet, vec![1]), Err(()));
    }
}

#[test]
fn moved_task_is_dispatched_at_its_new_time() {
    let (mut pallet, mut runtime) = network();
    let address = at(&mut pallet, &mut runtime, 4, 127, log(42));
    let moved = anon::reschedule(&mut pallet, &runtime, address, DispatchTime::At(6));
    assert_eq!(moved, Ok((6, 0)));
    assert_eq!(pallet.task(address), None);
    assert_eq!(pallet.task((6, 0)).unwrap().call, log(42));
    assert_eq!(
        anon::reschedule(&mut pallet, &runtime, (6, 0), DispatchTime::At(6)),
        module(Error::RescheduleNoChange)
    );
    assert_eq!(
        anon::reschedule(&mut pallet, &runtime, address, DispatchTime::At(7)),
        module(Error::NotFound)
    );
    assert_eq!(
        anon::reschedule(&mut pallet, &runtime, (5, 0), DispatchTime::At(7)),
        module(Error::NotFound)
    );
    assert_eq!(
        anon::reschedule(&mut pallet, &runtime, (6, 0), DispatchTime::At(1)),
        module(Error::TargetBlockNumberInPast)
    );
    assert_eq!(
        pallet.events,
        vec![Event::Scheduled(4, 0), Event::Canceled(4, 0), Event::Scheduled(6, 0)]
    );
    run_to_block(&mut pallet, &mut runtime, 5);
    assert!(tags(&runtime).is_empty());
    run_to_block(&mut pallet, &mut runtime, 6);
    assert_eq!(tags(&runtime), vec![42]);
}

#[test]
fn task_that_is_moved_by_its_name_takes_the_name_along() {
    let (mut pallet, mut runtime) = network();
    at(&mut pallet, &mut runtime, 6, 127, log(7));
    named::schedule_named(
        &mut pallet,
        &mut runtime,
        vec![1],
        DispatchTime::At(4),
        None,
        127,
        Origin::Root,
        log(42),
    )
    .unwrap();
    assert_eq!(
        named::reschedule_named(&mut pallet, &runtime, vec![1], DispatchTime::At(6)),
        Ok((6, 1))
    );
    assert_eq!(pallet.lookup.get(&vec![1]), Some(&(6, 1)));
    assert_eq!(named::next_dispatch_time(&pallet, vec![1]), Ok(6));
    assert_eq!(
        named::reschedule_named(&mut pallet, &runtime, vec![1], DispatchTime::At(6)),
        module(Error::RescheduleNoChange)
    );
    assert_eq!(
        named::reschedule_named(&mut pallet, &runtime, vec![2], DispatchTime::At(6)),
        module(Error::NotFound)
    );
    assert_eq!(
        named::reschedule_named(&mut pallet, &runtime, vec![2], DispatchTime::At(1)),
        module(Error::TargetBlockNumberInPast)
    );
    run_to_block(&mut pallet, &mut runtime, 6);
    assert_eq!(tags(&runtime), vec![7, 42]);
    assert_eq!(pallet.lookup.get(&vec![1]), None);
}

#[test]
fn moved_periodic_task_goes_on_from_its_new_time() {
    let (mut pallet, mut runtime) = network();
    named::schedule_named(
        &mut pallet,
        &mut runtime,
        vec![1],
        DispatchTime::At(4),
        Some((3, 3)),
        127,
        Origin::Root,
        log(42),
    )
    .unwrap();
    assert_eq!(
        named::reschedule_named(&mut pallet, &runtime, vec![1], DispatchTime::At(5)),
        Ok((5, 0))
    );
    assert_eq!(
        named::reschedule_named(&mut pallet, &runtime, vec![1], DispatchTime::At(6)),
        Ok((6, 0))
    );
    run_to_block(&mut pallet, &mut runtime, 5);
    assert!(tags(&runtime).is_empty());
    run_to_block(&mut pallet, &mut runtime, 6);
    assert_eq!(tags(&runtime), vec![42]);
    assert_eq!(
        named::reschedule_named(&mut pallet, &runtime, vec![1], DispatchTime::At(10)),
        Ok((10, 0))
    );
    run_to_block(&mut pallet, &mut runtime, 9);
    assert_eq!(tags(&runtime), vec![42]);
    run_to_block(&mut pallet, &mut runtime, 10);
    assert_eq!(tags(&runtime), vec![42, 42]);
    run_to_block(&mut pallet, &mut runtime, 13);
    assert_eq!(tags(&runtime), vec![42, 42, 42]);
    run_to_block(&mut pallet, &mut runtime, 100);
    assert_eq!(tags(&runtime), vec![42, 42, 42]);
}

#[test]
fn task_of_a_name_that_leads_nowhere_cannot_be_moved() {
    let (mut pallet, runtime) = network();
    pallet.lookup.insert(vec![1], (9, 3));
    assert_eq!(
        named::reschedule_named(&mut pallet, &runtime, vec![1], DispatchTime::At(5)),
        module(Error::NotFound)
    );
    assert_eq!(pallet.lookup.get(&vec![1]), Some(&(9, 3)));
    assert_eq!(pallet.decode_len(9), None);
}

#[test]
fn name_of_a_task_that_is_moved_by_address_leads_to_it() {
    let (mut pallet, mut runtime) = network();
    at(&mut pallet, &mut runtime, 6, 127, log(1));
    let address = named::schedule_named(
        &mut pallet,
        &mut runtime,
        vec![1],
        DispatchTime::At(4),
        None,
        127,
        Origin::Root,
        log(42),
    )
    .unwrap();
    assert_eq!(
        anon::reschedule(&mut pallet, &runtime, address, DispatchTime::At(6)),
        Ok((6, 1))
    );
    assert_eq!(pallet.lookup.get(&vec![1]), Some(&(6, 1)));
    assert_eq!(named::next_dispatch_time(&pallet, vec![1]), Ok(6));
    assert_eq!(named::cancel_named(&mut pallet, &mut runtime, vec![1]), Ok(()));
    assert_eq!(pallet.task((6, 1)), None);
}

#[test]
fn next_dispatch_time_is_the_block_of_the_slot() {
    let (mut pallet, mut runtime) = network();
    let address = at(&mut pallet, &mut runtime, 4, 127, log(1));
    assert_eq!(anon::next_dispatch_time(&pallet, address), Ok(4));
    assert_eq!(anon::next_dispatch_time(&pallet, (4, 1)), Err(()));
    assert_eq!(anon::next_dispatch_time(&pallet, (5, 0)), Err(()));
    assert_eq!(anon::cancel(&mut pallet, &mut runtime, address), Ok(()));
    assert_eq!(anon::next_dispatch_time(&pallet, address), Ok(4));
}

#[test]
fn addresses_of_other_tasks_stay() {
    let (mut pallet, mut runtime) = network();
    let kept = at(&mut pallet, &mut runtime, 4, 127, log(1));
    let moved = at(&mut pallet, &mut runtime, 4, 127, log(2));
    let canceled = at(&mut pallet, &mut runtime, 4, 127, log(3));
    let last = at(&mut pallet, &mut runtime, 4, 127, log(4));
    anon::reschedule(&mut pallet, &runtime, moved, DispatchTime::After(9)).unwrap();
    anon::cancel(&mut pallet, &mut runtime, canceled).unwrap();
    assert_eq!(pallet.task(kept).unwrap().call, log(1));
    assert_eq!(pallet.task(last).unwrap().call, log(4));
    assert_eq!(pallet.task((11, 0)).unwrap().call, log(2));
}

#[test]
fn only_those_who_may_schedule_can() {
    let (mut pallet, mut runtime) = network();
    let bad = Err(SchedulerError::BadOrigin);
    let who = Origin::Signed(9);
    assert_eq!(
        pallet.schedule(&mut runtime, who.clone(), 4, None, 127, Box::new(log(1))),
        bad
    );
    assert_eq!(
        pallet.schedule_after(&mut runtime, who.clone(), 4, None, 127, Box::new(log(1))),
        bad
    );
    assert_eq!(
        pallet.schedule_named(
            &mut runtime,
            who.clone(),
            vec![1],
            4,
            None,
            127,
            Box::new(MaybeHashed::Hash(5))
        ),
        bad
    );
    assert_eq!(
        pallet.schedule_named_after(
            &mut runtime,
            who.clone(),
            vec![1],
            4,
            None,
            127,
            Box::new(log(1))
        ),
        bad
    );
    assert_eq!(pallet.cancel(&mut runtime, who.clone(), 4, 0), bad);
    assert_eq!(pallet.cancel_named(&mut runtime, who, vec![1]), bad);
    assert!(pallet.events.is_empty());
    assert!(runtime.requests.is_empty());
    assert_eq!(pallet.decode_len(4), None);
}

#[test]
fn calls_are_dispatched_from_the_origin_that_scheduled_them() {
    let (mut pallet, mut runtime) = network();
    assert_eq!(
        pallet.schedule_named(
            &mut runtime,
            Origin::Signed(1),
            vec![1],
            4,
            None,
            127,
            Box::new(log(69))
        ),
        Ok(())
    );
    assert_eq!(
        pallet.schedule(&mut runtime, Origin::Root, 4, None, 127, Box::new(log(42))),
        Ok(())
    );
    run_to_block(&mut pallet, &mut runtime, 4);
    assert_eq!(runtime.log, vec![(Origin::Signed(1), 69), (Origin::Root, 42)]);
}

#[test]
fn calls_after_a_delay_are_dispatched() {
    let (mut pallet, mut runtime) = network();
    assert_eq!(
        pallet.schedule_after(&mut runtime, Origin::Root, 2, None, 127, Box::new(log(1))),
        Ok(())
    );
    assert_eq!(
        pallet.schedule_named_after(
            &mut runtime,
            Origin::Signed(1),
            vec![1],
            3,
            Some((10, 2)),
            127,
            Box::new(log(2))
        ),
        Ok(())
    );
    assert_eq!(pallet.lookup.get(&vec![1]), Some(&(5, 0)));
    assert_eq!(pallet.task((5, 0)).unwrap().maybe_periodic, Some((10, 1)));
    run_to_block(&mut pallet, &mut runtime, 20);
    assert_eq!(
        runtime.log,
        vec![(Origin::Root, 1), (Origin::Signed(1), 2), (Origin::Signed(1), 2)]
    );
    assert_eq!(
        pallet.events[2..],
        [
            Event::Dispatched((4, 0), None, Ok(())),
            Event::Dispatched((5, 0), Some(vec![1]), Ok(())),
            Event::Dispatched((15, 0), Some(vec![1]), Ok(())),
        ]
    );
}

#[test]
fn lesser_origins_cannot_cancel() {
    let (mut pallet, mut runtime) = network();
    let address = named::schedule_named(
        &mut pallet,
        &mut runtime,
        vec![1],
        DispatchTime::At(4),
        None,
        127,
        Origin::Root,
        MaybeHashed::Hash(3),
    )
    .unwrap();
    let bad = Err(SchedulerError::BadOrigin);
    assert_eq!(pallet.cancel(&mut runtime, Origin::Signed(1), 4, 0), bad);
    assert_eq!(pallet.cancel_named(&mut runtime, Origin::Signed(1), vec![1]), bad);
    assert_eq!(anon::cancel(&mut pallet, &mut runtime, (4, 1)), Err(()));
    assert!(pallet.task(address).is_some());
    assert_eq!(pallet.lookup.get(&vec![1]), Some(&address));
    assert_eq!(runtime.requests, vec![3]);
    assert_eq!(pallet.events, vec![Event::Scheduled(4, 0)]);
    assert_eq!(pallet.cancel(&mut runtime, Origin::Root, 4, 0), Ok(()));
}

#[test]
fn incomparable_origins_cannot_cancel() {
    let (mut pallet, mut runtime) = network();
    assert_eq!(
        pallet.schedule(&mut runtime, Origin::Signed(1), 4, None, 127, Box::new(log(1))),
        Ok(())
    );
    assert_eq!(
        pallet.cancel(&mut runtime, Origin::Signed(2), 4, 0),
        Err(SchedulerError::BadOrigin)
    );
    assert_eq!(pallet.cancel(&mut runtime, Origin::Signed(1), 4, 0), Ok(()));
}

#[test]
fn privilege_to_cancel_is_greater_or_equal() {
    let (_, runtime) = network();
    let root = Some(Origin::Root);
    let first = Some(Origin::Signed(1));
    assert!(check_privilege(&runtime, &root, &Origin::Root));
    assert!(check_privilege(&runtime, &root, &Origin::Signed(1)));
    assert!(check_privilege(&runtime, &first, &Origin::Signed(1)));
    assert!(!check_privilege(&runtime, &first, &Origin::Root));
    assert!(!check_privilege(&runtime, &first, &Origin::Signed(2)));
    assert!(check_privilege(&runtime, &None, &Origin::Root));
}

#[test]
fn failed_calls_are_reported() {
    let (mut pallet, mut runtime) = network();
    at(&mut pallet, &mut runtime, 4, 127, MaybeHashed::Value(Call::Fail { weight: 1 }));
    anon::schedule(
        &mut pallet,
        &mut runtime,
        DispatchTime::At(4),
        None,
        127,
        Origin::Nobody,
        log(1),
    )
    .unwrap();
    run_to_block(&mut pallet, &mut runtime, 4);
    assert!(runtime.log.is_empty());
    assert_eq!(
        pallet.events[2..],
        [
            Event::Dispatched((4, 0), None, Err(sp_runtime::DispatchError::Other("fails"))),
            Event::Dispatched((4, 1), None, Err(sp_runtime::DispatchError::BadOrigin)),
        ]
    );
}

#[test]
fn calls_of_a_hash_are_dispatched_once_the_preimage_is_known() {
    let (mut pallet, mut runtime) = network();
    at(&mut pallet, &mut runtime, 4, 127, MaybeHashed::Hash(5));
    assert_eq!(runtime.requests, vec![5]);
    run_to_block(&mut pallet, &mut runtime, 3);
    runtime.preimages.push((5, vec![42, 10]));
    run_to_block(&mut pallet, &mut runtime, 4);
    assert_eq!(tags(&runtime), vec![42]);
    assert!(runtime.requests.is_empty());
}

#[test]
fn tasks_whose_call_is_not_found_are_aborted() {
    let (mut pallet, mut runtime) = network();
    at(&mut pallet, &mut runtime, 4, 0, MaybeHashed::Hash(5));
    named::schedule_named(
        &mut pallet,
        &mut runtime,
        vec![1],
        DispatchTime::At(4),
        Some((3, 9)),
        0,
        Origin::Root,
        MaybeHashed::Hash(6),
    )
    .unwrap();
    at(&mut pallet, &mut runtime, 4, 0, log(7));
    // These bytes are no call.
    runtime.preimages.push((6, vec![1]));
    run_to_block(&mut pallet, &mut runtime, 20);
    assert_eq!(tags(&runtime), vec![7]);
    assert_eq!(
        pallet.events[3..],
        [
            Event::CallLookupFailed((4, 0), None, LookupError::Unknown),
            Event::CallLookupFailed((4, 1), Some(vec![1]), LookupError::BadFormat),
            Event::Dispatched((4, 2), None, Ok(())),
        ]
    );
    assert_eq!(pallet.agenda.pop(), None);
    assert_eq!(pallet.lookup.pop(), None);
    // No request is withdrawn.
    assert_eq!(runtime.requests, vec![5, 6]);
}

#[test]
fn name_of_a_task_that_is_put_off_leads_to_it() {
    let (mut pallet, mut runtime) = network();
    at(&mut pallet, &mut runtime, 5, 127, log(1));
    at(&mut pallet, &mut runtime, 4, 100, heavy(2, 900));
    for (id, tag) in [(vec![1], 3), (vec![2], 4)] {
        named::schedule_named(
            &mut pallet,
            &mut runtime,
            id,
            DispatchTime::At(4),
            None,
            127,
            Origin::Root,
            heavy(tag, 200),
        )
        .unwrap();
    }
    run_to_block(&mut pallet, &mut runtime, 4);
    assert_eq!(tags(&runtime), vec![2]);
    assert_eq!(pallet.lookup.get(&vec![1]), Some(&(5, 1)));
    assert_eq!(pallet.lookup.get(&vec![2]), Some(&(5, 2)));
    assert_eq!(pallet.task((5, 1)).unwrap().maybe_id, Some(vec![1]));
    assert_eq!(named::next_dispatch_time(&pallet, vec![2]), Ok(5));
    // The name is not free, and the task can be canceled by it.
    assert_eq!(
        pallet.schedule_named(
            &mut runtime,
            Origin::Root,
            vec![1],
            9,
            None,
            0,
            Box::new(log(9))
        ),
        module(Error::FailedToSchedule)
    );
    assert_eq!(pallet.cancel_named(&mut runtime, Origin::Root, vec![1]), Ok(()));
    run_to_block(&mut pallet, &mut runtime, 9);
    assert_eq!(tags(&runtime), vec![2, 1, 4]);
    assert_eq!(pallet.lookup.pop(), None);
}

#[test]
fn resolved_call_stays_resolved_when_it_is_put_off() {
    let (mut pallet, mut runtime) = network();
    at(&mut pallet, &mut runtime, 4, 100, heavy(1, 600));
    at(&mut pallet, &mut runtime, 4, 127, MaybeHashed::Hash(5));
    runtime.limit = 605;
    runtime.preimages.push((5, vec![42, 10]));
    run_to_block(&mut pallet, &mut runtime, 4);
    assert_eq!(tags(&runtime), vec![1]);
    assert!(runtime.requests.is_empty());
    assert_eq!(pallet.task((5, 0)).unwrap().call, log(42));
}

#[test]
fn preimages_are_requested_and_looked_up() {
    let (_, mut runtime) = network();
    let value = log(1);
    let hash: CallOrHashOf<Mock> = MaybeHashed::Hash(5);
    ensure_requested::<Mock>(&value, &mut runtime);
    assert!(runtime.requests.is_empty());
    ensure_requested::<Mock>(&hash, &mut runtime);
    assert_eq!(runtime.requests, vec![5]);
    ensure_unrequested::<Mock>(&value, &mut runtime);
    assert_eq!(runtime.requests, vec![5]);
    ensure_unrequested::<Mock>(&hash, &mut runtime);
    assert!(runtime.requests.is_empty());
    let call = Call::Log { tag: 1, weight: 10 };
    assert_eq!(lookup_call::<Mock>(log(1), &runtime), Ok((call, None)));
    assert_eq!(
        lookup_call::<Mock>(MaybeHashed::Hash(5), &runtime),
        Err(LookupError::Unknown)
    );
    runtime.preimages = vec![(5, vec![7, 10]), (6, vec![])];
    let call = Call::Log { tag: 7, weight: 10 };
    assert_eq!(lookup_call::<Mock>(MaybeHashed::Hash(5), &runtime), Ok((call, Some(5))));
    assert_eq!(
        lookup_call::<Mock>(MaybeHashed::Hash(6), &runtime),
        Err(LookupError::BadFormat)
    );
}

#[test]
fn calls_that_exceed_the_limit_are_put_off() {
    let (mut pallet, mut runtime) = network();
    at(&mut pallet, &mut runtime, 4, 127, heavy(42, 500));
    at(&mut pallet, &mut runtime, 4, 127, heavy(69, 501));
    run_to_block(&mut pallet, &mut runtime, 4);
    assert_eq!(tags(&runtime), vec![42]);
    run_to_block(&mut pallet, &mut runtime, 5);
    assert_eq!(tags(&runtime), vec![42, 69]);
    assert_eq!(
        pallet.events[2..],
        [Event::Dispatched((4, 0), None, Ok(())), Event::Dispatched((5, 0), None, Ok(()))]
    );
}

#[test]
fn calls_that_reach_the_limit_are_dispatched() {
    let (mut pallet, mut runtime) = network();
    at(&mut pallet, &mut runtime, 4, 127, heavy(42, 500));
    at(&mut pallet, &mut runtime, 4, 127, heavy(69, 500));
    let weights = run_to_block(&mut pallet, &mut runtime, 4);
    assert_eq!(tags(&runtime), vec![42, 69]);
    assert_eq!(weights, vec![0, 0, 1000]);
}

#[test]
fn what_is_put_off_still_weighs() {
    let (mut pallet, mut runtime) = network();
    at(&mut pallet, &mut runtime, 4, 127, heavy(1, 500));
    at(&mut pallet, &mut runtime, 4, 127, heavy(2, 600));
    at(&mut pallet, &mut runtime, 4, 127, heavy(3, 100));
    let weights = run_to_block(&mut pallet, &mut runtime, 4);
    assert_eq!(tags(&runtime), vec![1]);
    assert_eq!(weights[2], 500);
    run_to_block(&mut pallet, &mut runtime, 5);
    assert_eq!(tags(&runtime), vec![1, 2, 3]);
}

#[test]
fn first_call_is_dispatched_whatever_it_weighs() {
    let (mut pallet, mut runtime) = network();
    at(&mut pallet, &mut runtime, 4, 255, heavy(42, 5000));
    let weights = run_to_block(&mut pallet, &mut runtime, 4);
    assert_eq!(tags(&runtime), vec![42]);
    assert_eq!(weights[2], 5000);
}

#[test]
fn first_place_is_lost_to_a_task_that_is_aborted() {
    let (mut pallet, mut runtime) = network();
    at(&mut pallet, &mut runtime, 4, 100, MaybeHashed::Hash(5));
    at(&mut pallet, &mut runtime, 4, 127, heavy(42, 5000));
    run_to_block(&mut pallet, &mut runtime, 4);
    assert!(tags(&runtime).is_empty());
    assert_eq!(pallet.decode_len(5), Some(1));
    run_to_block(&mut pallet, &mut runtime, 5);
    assert_eq!(tags(&runtime), vec![42]);
}

#[test]
fn hard_deadlines_are_kept() {
    let (mut pallet, mut runtime) = network();
    at(&mut pallet, &mut runtime, 4, HARD_DEADLINE, heavy(42, 600));
    at(&mut pallet, &mut runtime, 4, 0, heavy(69, 600));
    at(&mut pallet, &mut runtime, 4, HARD_DEADLINE + 1, heavy(7, 1));
    let weights = run_to_block(&mut pallet, &mut runtime, 4);
    assert_eq!(tags(&runtime), vec![69, 42]);
    assert_eq!(weights[2], 1200);
    run_to_block(&mut pallet, &mut runtime, 5);
    assert_eq!(tags(&runtime), vec![69, 42, 7]);
}

#[test]
fn hard_deadline_is_that_of_the_runtime() {
    assert_eq!(HARD_DEADLINE, frame_support::traits::schedule::HARD_DEADLINE);
}

#[test]
fn turns_go_by_priority() {
    let (mut pallet, mut runtime) = network();
    at(&mut pallet, &mut runtime, 4, 1, log(42));
    at(&mut pallet, &mut runtime, 4, 0, log(69));
    at(&mut pallet, &mut runtime, 4, 1, log(43));
    at(&mut pallet, &mut runtime, 4, 255, log(44));
    at(&mut pallet, &mut runtime, 4, 0, log(70));
    run_to_block(&mut pallet, &mut runtime, 4);
    assert_eq!(tags(&runtime), vec![69, 70, 42, 43, 44]);
}

#[test]
fn priority_decides_what_is_put_off() {
    let (mut pallet, mut runtime) = network();
    at(&mut pallet, &mut runtime, 4, 255, heavy(42, 334));
    at(&mut pallet, &mut runtime, 4, 127, heavy(69, 500));
    at(&mut pallet, &mut runtime, 4, 126, heavy(2600, 500));
    run_to_block(&mut pallet, &mut runtime, 4);
    assert_eq!(tags(&runtime), vec![2600, 69]);
    run_to_block(&mut pallet, &mut runtime, 5);
    assert_eq!(tags(&runtime), vec![2600, 69, 42]);
}

#[test]
fn queue_is_sorted_by_priority_and_keeps_its_order_else() {
    let due = |tag, priority| -> ScheduledFoundOf<Mock> {
        ScheduledV3 {
            maybe_id: None,
            priority,
            call: Ok(Call::Log { tag, weight: 10 }),
            maybe_periodic: None,
            origin: Origin::Root,
            _phantom: PhantomData,
        }
    };
    let mut queue = vec![];
    for (i, priority) in [5, 3, 5, 0, 255, 3].iter().enumerate() {
        queue.push((i as u32, due(i as u32, *priority)));
    }
    let sorted = sort_by_priority::<Mock>(queue);
    let order: Vec<u32> = sorted.iter().map(|(index, _)| *index).collect();
    assert_eq!(order, vec![3, 1, 5, 0, 2, 4]);
    assert_eq!(sorted[0], (3, due(3, 0)));
    assert_eq!(sort_by_priority::<Mock>(vec![]), vec![]);
}

/// Schedules one task of each kind for blocks of its own, with accesses that weigh something.
fn weighing_network() -> (Pallet<Mock>, Mock) {
    let (pallet, mut runtime) = network();
    runtime.db = RuntimeDbWeight { read: 7, write: 100 };
    runtime.limit = 100_000;
    (pallet, runtime)
}

#[test]
fn weight_of_a_block_without_dispatches_is_nothing() {
    let (mut pallet, mut runtime) = weighing_network();
    assert_eq!(run_to_block(&mut pallet, &mut runtime, 3), vec![0, 0]);
    at(&mut pallet, &mut runtime, 4, 0, MaybeHashed::Hash(5));
    assert_eq!(run_to_block(&mut pallet, &mut runtime, 4), vec![0]);
}

#[test]
fn weight_of_an_anonymous_call() {
    let (mut pallet, mut runtime) = weighing_network();
    at(&mut pallet, &mut runtime, 2, 0, heavy(1, 3));
    // The agendas of the block and of the next one: 7 + 2 * 100.
    assert_eq!(run_to_block(&mut pallet, &mut runtime, 2), vec![207 + 3]);
}

#[test]
fn weight_of_a_signed_call() {
    let (mut pallet, mut runtime) = weighing_network();
    assert_eq!(
        pallet.schedule(&mut runtime, Origin::Signed(1), 2, None, 0, Box::new(heavy(1, 3))),
        Ok(())
    );
    // The account: 7 + 100.
    assert_eq!(run_to_block(&mut pallet, &mut runtime, 2), vec![207 + 3 + 107]);
}

#[test]
fn weight_of_a_named_call() {
    let (mut pallet, mut runtime) = weighing_network();
    assert_eq!(
        pallet.schedule_named(
            &mut runtime,
            Origin::Root,
            vec![1],
            2,
            None,
            0,
            Box::new(heavy(1, 3))
        ),
        Ok(())
    );
    // The name: 100.
    assert_eq!(run_to_block(&mut pallet, &mut runtime, 2), vec![207 + 3 + 100]);
}

#[test]
fn weight_of_a_periodic_call() {
    let (mut pallet, mut runtime) = weighing_network();
    assert_eq!(
        pallet.schedule(&mut runtime, Origin::Root, 2, Some((1, 2)), 0, Box::new(heavy(1, 3))),
        Ok(())
    );
    // The agenda of the next time: 7 + 100. The second time is the last.
    assert_eq!(
        run_to_block(&mut pallet, &mut runtime, 3),
        vec![207 + 3 + 107, 207 + 3]
    );
}

#[test]
fn weight_of_a_call_of_a_hash() {
    let (mut pallet, mut runtime) = weighing_network();
    at(&mut pallet, &mut runtime, 2, 0, MaybeHashed::Hash(5));
    runtime.preimages.push((5, vec![42, 3]));
    // The preimage: 2 * 7 + 2 * 100.
    assert_eq!(run_to_block(&mut pallet, &mut runtime, 2), vec![207 + 214 + 3]);
}

#[test]
fn weight_of_all_turns_adds_up() {
    let (mut pallet, mut runtime) = weighing_network();
    at(&mut pallet, &mut runtime, 2, 0, heavy(1, 3));
    assert_eq!(
        pallet.schedule_named(
            &mut runtime,
            Origin::Signed(1),
            vec![1],
            2,
            Some((5, 3)),
            1,
            Box::new(heavy(2, 4))
        ),
        Ok(())
    );
    assert_eq!(
        run_to_block(&mut pallet, &mut runtime, 2),
        vec![207 + 3 + (4 + 107 + 100 + 107)]
    );
}

#[test]
fn weights_saturate() {
    let (mut pallet, mut runtime) = network();
    runtime.db = RuntimeDbWeight { read: u64::MAX, write: u64::MAX };
    runtime.limit = u64::MAX - 1;
    at(&mut pallet, &mut runtime, 2, 100, heavy(1, u64::MAX));
    at(&mut pallet, &mut runtime, 2, 101, heavy(2, 1));
    assert_eq!(run_to_block(&mut pallet, &mut runtime, 2), vec![u64::MAX]);
    assert_eq!(tags(&runtime), vec![1]);
}

#[test]
fn dispatched_call_may_schedule_another() {
    let (mut pallet, mut runtime) = network();
    at(&mut pallet, &mut runtime, 2, 0, MaybeHashed::Value(Call::ScheduleLog { when: 3, tag: 7 }));
    at(&mut pallet, &mut runtime, 2, 0, MaybeHashed::Value(Call::ScheduleLog { when: 2, tag: 8 }));
    run_to_block(&mut pallet, &mut runtime, 9);
    assert_eq!(tags(&runtime), vec![7]);
    assert_eq!(
        pallet.events[2..],
        [
            Event::Scheduled(3, 0),
            Event::Dispatched((2, 0), None, Ok(())),
            Event::Dispatched(
                (2, 1),
                None,
                Err(sp_runtime::DispatchError::Other("not scheduled"))
            ),
            Event::Dispatched((3, 0), None, Ok(())),
        ]
    );
}

#[test]
fn dispatched_call_may_cancel_a_later_task() {
    let (mut pallet, mut runtime) = network();
    let cancel = MaybeHashed::Value(Call::CancelNamed { id: vec![1] });
    at(&mut pallet, &mut runtime, 2, 0, cancel);
    assert_eq!(
        pallet.schedule_named(
            &mut runtime,
            Origin::Root,
            vec![1],
            3,
            None,
            0,
            Box::new(log(7))
        ),
        Ok(())
    );
    run_to_block(&mut pallet, &mut runtime, 9);
    assert!(tags(&runtime).is_empty());
    assert_eq!(
        pallet.events[2..],
        [Event::Canceled(3, 0), Event::Dispatched((2, 0), None, Ok(()))]
    );
}

#[test]
fn tasks_of_other_blocks_stay() {
    let (mut pallet, mut runtime) = network();
    at(&mut pallet, &mut runtime, 2, 0, log(1));
    let other = at(&mut pallet, &mut runtime, 3, 0, log(2));
    run_to_block(&mut pallet, &mut runtime, 2);
    assert_eq!(pallet.task(other), Some(&task(None, 0, log(2))));
    assert_eq!(pallet.decode_len(2), None);
}

#[test]
fn names_lead_to_their_tasks() {
    let (mut pallet, mut runtime) = network();
    for (i, when) in [4, 5, 4, 6].iter().enumerate() {
        assert_eq!(
            pallet.schedule_named(
                &mut runtime,
                Origin::Root,
                vec![i as u8],
                *when,
                Some((2, 3)),
                0,
                Box::new(log(i as u32))
            ),
            Ok(())
        );
    }
    named::reschedule_named(&mut pallet, &runtime, vec![2], DispatchTime::At(5)).unwrap();
    named::cancel_named(&mut pallet, &mut runtime, vec![3]).unwrap();
    run_to_block(&mut pallet, &mut runtime, 5);
    for i in 0..3 {
        let address = *pallet.lookup.get(&vec![i]).unwrap();
        assert_eq!(pallet.task(address).unwrap().maybe_id, Some(vec![i]));
    }
    assert_eq!(pallet.lookup.get(&vec![0]), Some(&(6, 1)));
    assert_eq!(pallet.lookup.get(&vec![1]), Some(&(7, 0)));
    assert_eq!(pallet.lookup.get(&vec![2]), Some(&(7, 1)));
    assert_eq!(pallet.lookup.get(&vec![3]), None);
}

#[test]
fn settled_task_is_put_on_the_agenda_of_its_next_time() {
    let (mut pallet, _) = network();
    let mut periodic = task(Some(vec![1]), 9, log(1));
    periodic.maybe_periodic = Some((4, 2));
    pallet.settle(5, 3, periodic, Ok(()));
    let mut again = task(Some(vec![1]), 9, log(1));
    again.maybe_periodic = Some((4, 1));
    assert_eq!(pallet.task((9, 0)), Some(&again));
    assert_eq!(pallet.lookup.get(&vec![1]), Some(&(9, 0)));
    pallet.settle(9, 0, again, Err(sp_runtime::DispatchError::BadOrigin));
    assert_eq!(pallet.task((13, 0)), Some(&task(Some(vec![1]), 9, log(1))));
    assert_eq!(pallet.lookup.get(&vec![1]), Some(&(13, 0)));
    pallet.settle(13, 0, task(Some(vec![1]), 9, log(1)), Ok(()));
    assert_eq!(pallet.lookup.get(&vec![1]), None);
    assert_eq!(
        pallet.events,
        vec![
            Event::Dispatched((5, 3), Some(vec![1]), Ok(())),
            Event::Dispatched(
                (9, 0),
                Some(vec![1]),
                Err(sp_runtime::DispatchError::BadOrigin)
            ),
            Event::Dispatched((13, 0), Some(vec![1]), Ok(())),
        ]
    );
}

#[test]
fn aborted_task_frees_its_name() {
    let (mut pallet, _) = network();
    pallet.lookup.insert(vec![1], (5, 3));
    pallet.abort(5, 3, Some(vec![1]), LookupError::BadFormat);
    pallet.abort(5, 4, None, LookupError::Unknown);
    assert_eq!(pallet.lookup.get(&vec![1]), None);
    assert_eq!(
        pallet.events,
        vec![
            Event::CallLookupFailed((5, 3), Some(vec![1]), LookupError::BadFormat),
            Event::CallLookupFailed((5, 4), None, LookupError::Unknown),
        ]
    );
}

#[test]
fn times_must_be_block_numbers() {
    let (mut pallet, mut runtime) = network();
    assert_eq!(pallet.try_initialize(&mut runtime, u64::MAX), None);
    assert_eq!(pallet.try_initialize(&mut runtime, u64::MAX - 1), Some(0));
    at(&mut pallet, &mut runtime, 10, 0, log(1));
    for period in [u64::MAX - 10, u64::MAX - 9] {
        anon::schedule(
            &mut pallet,
            &mut runtime,
            DispatchTime::At(10),
            Some((period, 2)),
            100,
            Origin::Root,
            log(2),
        )
        .unwrap();
    }
    // The next time of the second is the last block; that of the third is none.
    assert_eq!(pallet.try_initialize(&mut runtime, 10), None);
    assert_eq!(tags(&runtime), vec![1, 2]);
    assert_eq!(pallet.decode_len(u64::MAX), Some(1));
    assert_eq!(pallet.decode_len(11), None);
}

#[test]
fn next_time_of_a_task_that_is_put_off_does_not_matter() {
    let (mut pallet, mut runtime) = network();
    at(&mut pallet, &mut runtime, 10, 0, heavy(1, 900));
    anon::schedule(
        &mut pallet,
        &mut runtime,
        DispatchTime::At(10),
        Some((u64::MAX, 2)),
        100,
        Origin::Root,
        heavy(2, 200),
    )
    .unwrap();
    assert_eq!(pallet.try_initialize(&mut runtime, 10), Some(900));
    assert_eq!(pallet.task((11, 0)).unwrap().maybe_periodic, Some((u64::MAX, 1)));
}

#[test]
fn agendas_have_room() {
    let (mut pallet, mut runtime) = network();
    at(&mut pallet, &mut runtime, 4, 0, log(1));
    assert!(pallet.room_at(&runtime, DispatchTime::At(4)));
    assert!(pallet.room_at(&runtime, DispatchTime::After(4)));
    // No block is meant.
    assert!(pallet.room_at(&runtime, DispatchTime::At(0)));
}

#[test]
fn new_networks_start_with_the_last_version() {
    let mut pallet: Pallet<Mock> = Pallet::new();
    assert_eq!(pallet.storage_version, Releases::V1);
    assert_eq!(Releases::default(), Releases::V1);
    assert_eq!(GenesisConfig::default(), GenesisConfig);
    GenesisConfig.build(&mut pallet);
    assert_eq!(pallet.storage_version, Releases::V3);
    assert!(pallet.events.is_empty());
    assert!(!pallet.migrate_v1_to_v3(&mut StorageMap::new()));
    assert!(!pallet.migrate_v2_to_v3(&mut StorageMap::new()));
}

fn scheduled_v1(id: Option<Vec<u8>>, tag: u32) -> ScheduledV1<Call, BlockNumber> {
    ScheduledV1 {
        maybe_id: id,
        priority: 123,
        call: Call::Log { tag, weight: 10 },
        maybe_periodic: Some((456, 10)),
    }
}

fn scheduled_v2(id: Option<Vec<u8>>, tag: u32) -> ScheduledV2Of<Mock> {
    ScheduledV3 {
        maybe_id: id,
        priority: 123,
        call: Call::Log { tag, weight: 10 },
        maybe_periodic: Some((456, 10)),
        origin: Origin::Signed(1),
        _phantom: PhantomData,
    }
}

fn scheduled_v3(id: Option<Vec<u8>>, tag: u32) -> ScheduledOf<Mock> {
    ScheduledV3 {
        maybe_id: id,
        priority: 123,
        call: log(tag),
        maybe_periodic: Some((456, 10)),
        origin: Origin::Root,
        _phantom: PhantomData,
    }
}

#[test]
fn agendas_of_the_first_version_are_migrated() {
    let mut pallet: Pallet<Mock> = Pallet::new();
    pallet.lookup.insert(b"test".to_vec(), (1, 2));
    let mut stored = StorageMap::new();
    for i in 0..3u64 {
        stored.insert(
            i,
            vec![
                Some(scheduled_v1(None, i as u32)),
                None,
                Some(scheduled_v1(Some(b"test".to_vec()), 42)),
            ],
        );
    }
    assert!(!pallet.migrate_v2_to_v3(&mut StorageMap::new()));
    assert!(pallet.migrate_v1_to_v3(&mut stored));
    assert_eq!(pallet.storage_version, Releases::V3);
    assert_eq!(stored.pop(), None);
    for i in 0..3u64 {
        assert_eq!(
            pallet.agenda.get(&i),
            Some(&vec![
                Some(scheduled_v3(None, i as u32)),
                None,
                Some(scheduled_v3(Some(b"test".to_vec()), 42)),
            ])
        );
    }
    assert_eq!(pallet.lookup.get(&b"test".to_vec()), Some(&(1, 2)));
    assert_eq!(named::next_dispatch_time(&pallet, b"test".to_vec()), Ok(1));
}

#[test]
fn agendas_of_the_second_version_are_migrated() {
    let mut pallet: Pallet<Mock> = Pallet::new();
    pallet.storage_version = Releases::V2;
    let mut stored = StorageMap::new();
    stored.insert(4, vec![Some(scheduled_v2(None, 1)), None]);
    stored.insert(5, vec![Some(scheduled_v2(Some(vec![9]), 2))]);
    assert!(!pallet.migrate_v1_to_v3(&mut StorageMap::new()));
    assert!(pallet.migrate_v2_to_v3(&mut stored));
    assert_eq!(pallet.storage_version, Releases::V3);
    // The origins stay.
    let kept = |id, tag| ScheduledV3 { origin: Origin::Signed(1), ..scheduled_v3(id, tag) };
    assert_eq!(pallet.agenda.get(&4), Some(&vec![Some(kept(None, 1)), None]));
    assert_eq!(pallet.agenda.get(&5), Some(&vec![Some(kept(Some(vec![9]), 2))]));
    assert_eq!(stored.pop(), None);
}

#[test]
fn migrations_run_once() {
    let mut pallet: Pallet<Mock> = Pallet::new();
    assert!(pallet.migrate_v1_to_v3(&mut StorageMap::new()));
    let mut first = StorageMap::new();
    first.insert(4, vec![Some(scheduled_v1(None, 1))]);
    let mut second = StorageMap::new();
    second.insert(4, vec![Some(scheduled_v2(None, 1))]);
    assert!(!pallet.migrate_v1_to_v3(&mut first));
    assert!(!pallet.migrate_v2_to_v3(&mut second));
    assert!(first.contains_key(&4));
    assert!(second.contains_key(&4));
    assert_eq!(pallet.decode_len(4), None);
}

/// An origin of an earlier time.
#[derive(PartialEq, Debug)]
struct Rank(u8);

impl From<Rank> for Origin {
    fn from(rank: Rank) -> Origin {
        match rank {
            Rank(0) => Origin::Root,
            Rank(n) => Origin::Signed(n as u64),
        }
    }
}

#[test]
fn origins_are_migrated() {
    let (mut pallet, mut runtime) = network();
    at(&mut pallet, &mut runtime, 9, 0, log(7));
    let old = |rank, call| Scheduled {
        maybe_id: Some(vec![rank]),
        priority: 5,
        call,
        maybe_periodic: Some((2, 3)),
        origin: Rank(rank),
        _phantom: PhantomData,
    };
    let mut stored = StorageMap::new();
    stored.insert(4, vec![Some(old(0, log(1))), None, Some(old(3, MaybeHashed::Hash(8)))]);
    pallet.migrate_origin(&mut stored);
    assert_eq!(stored.pop(), None);
    assert_eq!(pallet.decode_len(4), Some(3));
    let first = pallet.task((4, 0)).unwrap();
    assert_eq!(first.origin, Origin::Root);
    assert_eq!(first.call, log(1));
    assert_eq!(pallet.task((4, 1)), None);
    assert_eq!(
        pallet.task((4, 2)),
        Some(&ScheduledV3 {
            maybe_id: Some(vec![3]),
            priority: 5,
            call: MaybeHashed::Hash(8),
            maybe_periodic: Some((2, 3)),
            origin: Origin::Signed(3),
            _phantom: PhantomData,
        })
    );
    assert_eq!(pallet.task((9, 0)), Some(&task(None, 0, log(7))));
    assert_eq!(pallet.storage_version, Releases::V3);
}

#[test]
fn storage_map_holds_one_value_for_each_key() {
    let mut map: StorageMap<Vec<u8>, u32> = StorageMap::new();
    assert_eq!(map.get(&vec![1]), None);
    assert_eq!(map.take(&vec![1]), None);
    map.insert(vec![1], 10);
    map.insert(vec![1, 2], 20);
    map.insert(vec![1], 11);
    assert_eq!(map.get(&vec![1]), Some(&11));
    assert_eq!(map.get(&vec![1, 2]), Some(&20));
    assert!(map.contains_key(&vec![1]));
    assert!(!map.contains_key(&vec![]));
    assert_eq!(map.take(&vec![1]), Some(11));
    assert!(!map.contains_key(&vec![1]));
    assert_eq!(map.pop(), Some((vec![1, 2], 20)));
    assert_eq!(map.pop(), None);
    assert!(1u64.same_key(&1));
    assert!(!1u64.same_key(&2));
}

#[test]
fn hard_deadlines_are_kept_over_a_run_of_blocks() {
    let (mut pallet, mut runtime) = network();
    runtime.limit = 0;
    anon::schedule(
        &mut pallet,
        &mut runtime,
        DispatchTime::At(4),
        Some((5, 4)),
        HARD_DEADLINE,
        Origin::Root,
        log(42),
    )
    .unwrap();
    for block in 2..40 {
        at(&mut pallet, &mut runtime, block, 0, heavy(1, 500));
    }
    let mut blocks = vec![];
    for block in 2..60 {
        let before = tags(&runtime).len();
        run_to_block(&mut pallet, &mut runtime, block);
        if tags(&runtime)[before..].contains(&42) {
            blocks.push(block);
        }
    }
    assert_eq!(blocks, vec![4, 9, 14, 19]);
    assert_eq!(tags(&runtime).iter().filter(|tag| **tag == 42).count(), 4);
    assert_eq!(pallet.agenda.pop(), None);
}

#[test]
fn equal_tasks_run_each_at_its_own_times() {
    let (mut pallet, mut runtime) = network();
    for when in [4, 5, 4] {
        anon::schedule(
            &mut pallet,
            &mut runtime,
            DispatchTime::At(when),
            Some((3, 2)),
            0,
            Origin::Root,
            log(42),
        )
        .unwrap();
    }
    let mut times = vec![];
    for block in 2..20 {
        let before = tags(&runtime).len();
        run_to_block(&mut pallet, &mut runtime, block);
        for _ in before..tags(&runtime).len() {
            times.push(block);
        }
    }
    assert_eq!(times, vec![4, 4, 5, 7, 7, 8]);
    assert_eq!(pallet.agenda.pop(), None);
    assert_eq!(
        pallet.events[3..],
        [
            Event::Dispatched((4, 0), None, Ok(())),
            Event::Dispatched((4, 1), None, Ok(())),
            Event::Dispatched((5, 0), None, Ok(())),
            Event::Dispatched((7, 0), None, Ok(())),
            Event::Dispatched((7, 1), None, Ok(())),
            Event::Dispatched((8, 0), None, Ok(())),
        ]
    );
}

#[test]
fn periodic_task_of_a_hash_runs_as_often_as_asked() {
    let (mut pallet, mut runtime) = network();
    anon::schedule(
        &mut pallet,
        &mut runtime,
        DispatchTime::At(4),
        Some((2, 3)),
        0,
        Origin::Root,
        MaybeHashed::Hash(5),
    )
    .unwrap();
    runtime.preimages.push((5, vec![42, 10]));
    run_to_block(&mut pallet, &mut runtime, 4);
    // The preimage has served its purpose.
    runtime.preimages.clear();
    assert!(runtime.requests.is_empty());
    assert_eq!(pallet.task((6, 0)).unwrap().call, log(42));
    run_to_block(&mut pallet, &mut runtime, 20);
    assert_eq!(tags(&runtime), vec![42, 42, 42]);
}

#[test]
fn canceled_periodic_task_is_not_dispatched_again() {
    let (mut pallet, mut runtime) = network();
    anon::schedule(
        &mut pallet,
        &mut runtime,
        DispatchTime::At(4),
        Some((3, 5)),
        0,
        Origin::Root,
        log(42),
    )
    .unwrap();
    run_to_block(&mut pallet, &mut runtime, 8);
    assert_eq!(tags(&runtime), vec![42, 42]);
    assert_eq!(anon::cancel(&mut pallet, &mut runtime, (10, 0)), Ok(()));
    run_to_block(&mut pallet, &mut runtime, 40);
    assert_eq!(tags(&runtime), vec![42, 42]);
}

/// A network in which a name leads to the second of two tasks that have it.
fn shared_name(call: CallOrHashOf<Mock>) -> (Pallet<Mock>, Mock) {
    let (mut pallet, mut runtime) = network();
    at(&mut pallet, &mut runtime, 4, 100, heavy(1, 900));
    pallet.agenda.insert(9, vec![Some(task(Some(vec![1]), 127, log(2)))]);
    pallet.lookup.insert(vec![1], (9, 0));
    let mut slots = pallet.agenda.take(&4).unwrap();
    slots.push(Some(task(Some(vec![1]), 127, call)));
    pallet.agenda.insert(4, slots);
    (pallet, runtime)
}

#[test]
fn name_of_another_task_is_not_moved() {
    let (mut pallet, runtime) = shared_name(log(3));
    assert_eq!(
        anon::reschedule(&mut pallet, &runtime, (4, 1), DispatchTime::At(6)),
        Ok((6, 0))
    );
    assert_eq!(pallet.lookup.get(&vec![1]), Some(&(9, 0)));
}

#[test]
fn name_of_another_task_is_not_put_off() {
    let (mut pallet, mut runtime) = shared_name(heavy(3, 200));
    run_to_block(&mut pallet, &mut runtime, 4);
    assert_eq!(pallet.task((5, 0)).unwrap().maybe_id, Some(vec![1]));
    assert_eq!(pallet.lookup.get(&vec![1]), Some(&(9, 0)));
}

#[test]
fn name_of_another_task_is_not_freed_with_an_aborted_one() {
    let (mut pallet, mut runtime) = shared_name(MaybeHashed::Hash(5));
    run_to_block(&mut pallet, &mut runtime, 4);
    assert_eq!(
        pallet.events.last(),
        Some(&Event::CallLookupFailed((4, 1), Some(vec![1]), LookupError::Unknown))
    );
    assert_eq!(pallet.lookup.get(&vec![1]), Some(&(9, 0)));
}

/// The tags of all notes that are pending, in order.
fn pending(pallet: &Pallet<Mock>) -> Vec<u32> {
    let mut tags = vec![];
    for when in 0..20 {
        for task in pallet.agenda.get(&when).into_iter().flatten().flatten() {
            if let MaybeHashed::Value(Call::Log { tag, .. }) = &task.call {
                tags.push(*tag);
            }
        }
    }
    tags.sort();
    tags
}

#[test]
fn moves_keep_the_pending_tasks() {
    let (mut pallet, mut runtime) = network();
    at(&mut pallet, &mut runtime, 4, 0, log(1));
    at(&mut pallet, &mut runtime, 5, 0, log(1));
    named::schedule_named(
        &mut pallet,
        &mut runtime,
        vec![1],
        DispatchTime::At(4),
        None,
        0,
        Origin::Root,
        log(2),
    )
    .unwrap();
    assert_eq!(pending(&pallet), vec![1, 1, 2]);
    anon::reschedule(&mut pallet, &runtime, (4, 0), DispatchTime::At(5)).unwrap();
    assert_eq!(pending(&pallet), vec![1, 1, 2]);
    named::reschedule_named(&mut pallet, &runtime, vec![1], DispatchTime::At(9)).unwrap();
    assert_eq!(pending(&pallet), vec![1, 1, 2]);
    assert!(named::reschedule_named(&mut pallet, &runtime, vec![1], DispatchTime::At(9)).is_err());
    assert_eq!(pending(&pallet), vec![1, 1, 2]);
    at(&mut pallet, &mut runtime, 4, 0, log(3));
    assert_eq!(pending(&pallet), vec![1, 1, 2, 3]);
    named::cancel_named(&mut pallet, &mut runtime, vec![1]).unwrap();
    assert_eq!(pending(&pallet), vec![1, 1, 3]);
}

#[test]
fn block_start_takes_its_tasks_and_keeps_the_others() {
    let (mut pallet, mut runtime) = network();
    at(&mut pallet, &mut runtime, 4, 0, heavy(1, 900));
    at(&mut pallet, &mut runtime, 4, 200, heavy(2, 200));
    at(&mut pallet, &mut runtime, 8, 0, log(3));
    anon::schedule(
        &mut pallet,
        &mut runtime,
        DispatchTime::At(4),
        Some((5, 2)),
        0,
        Origin::Root,
        log(4),
    )
    .unwrap();
    run_to_block(&mut pallet, &mut runtime, 3);
    assert_eq!(pending(&pallet), vec![1, 2, 3, 4]);
    run_to_block(&mut pallet, &mut runtime, 4);
    assert_eq!(tags(&runtime), vec![1, 4]);
    assert_eq!(pending(&pallet), vec![2, 3, 4]);
    run_to_block(&mut pallet, &mut runtime, 5);
    assert_eq!(pending(&pallet), vec![3, 4]);
}

#[test]
fn delay_comes_to_the_block_one_further() {
    let (mut by_delay, mut first) = network();
    let (mut by_block, mut second) = network();
    assert_eq!(
        by_delay.schedule_named_after(
            &mut first,
            Origin::Root,
            vec![1],
            3,
            Some((2, 2)),
            9,
            Box::new(log(1))
        ),
        Ok(())
    );
    assert_eq!(
        by_block.schedule_named(
            &mut second,
            Origin::Root,
            vec![1],
            5,
            Some((2, 2)),
            9,
            Box::new(log(1))
        ),
        Ok(())
    );
    assert_eq!(by_delay.events, by_block.events);
    assert_eq!(by_delay.task((5, 0)), by_block.task((5, 0)));
    assert_eq!(by_delay.lookup.get(&vec![1]), by_block.lookup.get(&vec![1]));
}

#[test]
fn named_task_is_the_anonymous_one_with_a_name() {
    let (mut plain, mut first) = network();
    let (mut other, mut second) = network();
    let when = DispatchTime::At(4);
    let hash = || MaybeHashed::Hash(5);
    let address = anon::schedule(&mut plain, &mut first, when, None, 9, Origin::Root, hash());
    assert_eq!(address, Ok((4, 0)));
    let address = named::schedule_named(
        &mut other,
        &mut second,
        vec![1],
        when,
        None,
        9,
        Origin::Root,
        hash(),
    );
    assert_eq!(address, Ok((4, 0)));
    assert_eq!(plain.events, other.events);
    assert_eq!(first.requests, second.requests);
    assert_eq!(plain.task((4, 0)), Some(&task(None, 9, hash())));
    assert_eq!(other.task((4, 0)), Some(&task(Some(vec![1]), 9, hash())));
    assert_eq!(other.lookup.get(&vec![1]), Some(&(4, 0)));
}
