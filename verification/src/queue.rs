//! The order in which the tasks of a block have their turn.
use vstd::prelude::*;

use crate::config::Config;
use crate::types::{BlockNumber, LookupError, Priority, ScheduledV3, Task};

verus! {

/// The call of a due task, or why it was not found.
pub type FoundOf<T> = Result<<T as Config>::Call, LookupError>;

/// A task of which the call was looked up.
pub type ScheduledFoundOf<T> = ScheduledV3<
    FoundOf<T>,
    BlockNumber,
    <T as Config>::PalletsOrigin,
    <T as Config>::AccountId,
>;

/// What a task is of which the call was looked up.
pub type FoundTaskOf<T> = Task<FoundOf<T>, BlockNumber, <T as Config>::PalletsOrigin>;

/// A task that is due, with its index in the agenda of the block.
pub type Due<T> = (u32, ScheduledFoundOf<T>);

/// What a due task is.
pub type DueTask<T> = (u32, FoundTaskOf<T>);

/// What is in a queue.
pub open spec fn queue_view<T: Config>(queue: Seq<Due<T>>) -> Seq<DueTask<T>> {
    queue.map_values(|due: Due<T>| (due.0, due.1@))
}

/// The tasks of one priority, in the order of the queue.
pub open spec fn of_priority<T: Config>(queue: Seq<DueTask<T>>, priority: int) -> Seq<DueTask<T>> {
    queue.filter(|due: DueTask<T>| due.1.priority == priority)
}

/// The tasks of a priority value below `bound`: one value after the other, and those of one
/// value in the order of the queue.
pub open spec fn ranked_below<T: Config>(queue: Seq<DueTask<T>>, bound: nat) -> Seq<DueTask<T>>
    decreases bound,
{
    if bound == 0 {
        Seq::empty()
    } else {
        ranked_below::<T>(queue, (bound - 1) as nat) + of_priority::<T>(queue, bound - 1)
    }
}

/// The tasks by their priority: lowest values first, and those of one value in the order of the
/// queue.
pub open spec fn by_priority<T: Config>(queue: Seq<DueTask<T>>) -> Seq<DueTask<T>> {
    ranked_below::<T>(queue, 256)
}

/// Where in the ranking a task of the given priority goes that comes last in the queue.
pub closed spec fn rank<T: Config>(queue: Seq<DueTask<T>>, priority: Priority) -> nat {
    ranked_below::<T>(queue, (priority + 1) as nat).len()
}

/// The ranking with one task more.
pub proof fn lemma_ranked_push<T: Config>(queue: Seq<DueTask<T>>, due: DueTask<T>, bound: nat)
    ensures
        bound <= due.1.priority ==> ranked_below::<T>(queue.push(due), bound) == ranked_below::<T>(
            queue,
            bound,
        ),
        bound > due.1.priority ==> {
            &&& rank::<T>(queue, due.1.priority) <= ranked_below::<T>(queue, bound).len()
            &&& ranked_below::<T>(queue.push(due), bound) == ranked_below::<T>(
                queue,
                bound,
            ).insert(rank::<T>(queue, due.1.priority) as int, due)
        },
    decreases bound,
{
    if bound > 0 {
        let below = (bound - 1) as nat;
        lemma_ranked_push::<T>(queue, due, below);
        let pred = |d: DueTask<T>| d.1.priority == bound - 1;
        let kept = queue.filter(pred);
        assert(queue.push(due).drop_last() =~= queue);
        reveal(Seq::filter);
        if bound - 1 == due.1.priority {
            assert(queue.push(due).filter(pred) == kept.push(due));
            assert(ranked_below::<T>(queue, below) + kept.push(due) =~= (ranked_below::<T>(
                queue,
                below,
            ) + kept).insert(rank::<T>(queue, due.1.priority) as int, due));
        } else {
            assert(queue.push(due).filter(pred) == kept);
            if bound > due.1.priority {
                let at = rank::<T>(queue, due.1.priority) as int;
                assert(ranked_below::<T>(queue, below).insert(at, due) + kept =~= (
                ranked_below::<T>(queue, below) + kept).insert(at, due));
            }
        }
    }
}

/// In the ranking, all tasks of a value below `split` stand before all others.
proof fn lemma_ranked_split<T: Config>(queue: Seq<DueTask<T>>, bound: nat, split: nat)
    requires
        split <= bound,
    ensures
        ranked_below::<T>(queue, split).len() <= ranked_below::<T>(queue, bound).len(),
        forall|i: int|
            0 <= i < ranked_below::<T>(queue, bound).len() ==> {
                let priority = (#[trigger] ranked_below::<T>(queue, bound)[i]).1.priority;
                &&& priority < bound
                &&& i < ranked_below::<T>(queue, split).len() <==> priority < split
            },
    decreases bound,
{
    if bound > 0 {
        let below = (bound - 1) as nat;
        broadcast use vstd::seq_lib::group_filter_ensures;

        if split <= below {
            lemma_ranked_split::<T>(queue, below, split);
        } else {
            lemma_ranked_split::<T>(queue, below, below);
        }
        let pred = |d: DueTask<T>| d.1.priority == bound - 1;
        let head = ranked_below::<T>(queue, below);
        let tail = queue.filter(pred);
        assert forall|i: int| 0 <= i < ranked_below::<T>(queue, bound).len() implies {
            let priority = (#[trigger] ranked_below::<T>(queue, bound)[i]).1.priority;
            &&& priority < bound
            &&& i < ranked_below::<T>(queue, split).len() <==> priority < split
        } by {
            if i < head.len() {
                assert(ranked_below::<T>(queue, bound)[i] == head[i]);
            } else {
                assert(ranked_below::<T>(queue, bound)[i] == tail[i - head.len()]);
                assert(pred(tail[i - head.len()]));
            }
        }
    }
}

/// Every task of the ranking is one of the queue.
pub proof fn lemma_ranked_from_queue<T: Config>(queue: Seq<DueTask<T>>, bound: nat, i: int)
    requires
        0 <= i < ranked_below::<T>(queue, bound).len(),
    ensures
        queue.contains(ranked_below::<T>(queue, bound)[i]),
    decreases bound,
{
    let head = ranked_below::<T>(queue, (bound - 1) as nat);
    let pred = |d: DueTask<T>| d.1.priority == bound - 1;
    if i < head.len() {
        lemma_ranked_from_queue::<T>(queue, (bound - 1) as nat, i);
    } else {
        lemma_filter_subset(queue, pred, i - head.len());
    }
}

/// Every task of the queue is in its ranking.
pub proof fn lemma_queue_in_ranking<T: Config>(queue: Seq<DueTask<T>>, bound: nat, i: int)
    requires
        0 <= i < queue.len(),
        queue[i].1.priority < bound,
    ensures
        ranked_below::<T>(queue, bound).contains(queue[i]),
    decreases bound,
{
    broadcast use vstd::seq_lib::group_filter_ensures;

    let head = ranked_below::<T>(queue, (bound - 1) as nat);
    let pred = |d: DueTask<T>| d.1.priority == bound - 1;
    let tail = queue.filter(pred);
    if queue[i].1.priority == bound - 1 {
        assert(pred(queue[i]));
        assert(tail.contains(queue[i]));
        let j = choose|j: int| 0 <= j < tail.len() && tail[j] == queue[i];
        assert((head + tail)[head.len() + j] == queue[i]);
    } else {
        lemma_queue_in_ranking::<T>(queue, (bound - 1) as nat, i);
        let j = choose|j: int| 0 <= j < head.len() && head[j] == queue[i];
        assert((head + tail)[j] == queue[i]);
    }
}

/// What a filter keeps was there before.
proof fn lemma_filter_subset<A>(all: Seq<A>, pred: spec_fn(A) -> bool, i: int)
    requires
        0 <= i < all.filter(pred).len(),
    ensures
        all.contains(all.filter(pred)[i]),
    decreases all.len(),
{
    reveal(Seq::filter);
    let kept = all.drop_last().filter(pred);
    if i < kept.len() {
        lemma_filter_subset(all.drop_last(), pred, i);
        let j = choose|j: int| 0 <= j < all.drop_last().len() && all.drop_last()[j] == kept[i];
        assert(all[j] == kept[i]);
    } else {
        assert(all[all.len() - 1] == all.filter(pred)[i]);
    }
}

/// Puts a queue in the order of the tasks' priorities.
pub fn sort_by_priority<T: Config>(queue: Vec<Due<T>>) -> (sorted: Vec<Due<T>>)
    ensures
        queue_view::<T>(sorted@) == by_priority::<T>(queue_view::<T>(queue@)),
{
    let mut sorted: Vec<Due<T>> = Vec::new();
    let ghost all = queue@;
    proof {
        lemma_ranked_empty::<T>(256);
        assert(queue_view::<T>(all.take(0)) =~= Seq::empty());
        assert(queue_view::<T>(sorted@) =~= Seq::empty());
    }
    for due in it: queue
        invariant
            it.seq() == all,
            queue_view::<T>(sorted@) == by_priority::<T>(
                queue_view::<T>(all.take(it.index() as int)),
            ),
    {
        let ghost seen = queue_view::<T>(all.take(it.index() as int));
        let ghost task = (due.0, due.1@);
        let mut at: usize = 0;
        while at < sorted.len() && sorted[at].1.priority <= due.1.priority
            invariant
                at <= sorted@.len(),
                forall|i: int| 0 <= i < at ==> (#[trigger] sorted@[i]).1.priority <= due.1.priority,
            decreases sorted@.len() - at,
        {
            at += 1;
        }
        proof {
            lemma_ranked_split::<T>(seen, 256, (due.1.priority + 1) as nat);
            lemma_ranked_push::<T>(seen, task, 256);
            let ranking = by_priority::<T>(seen);
            if at < rank::<T>(seen, due.1.priority) {
                assert(ranking[at as int].1.priority == sorted@[at as int].1.priority);
            }
            if at > rank::<T>(seen, due.1.priority) {
                let i = rank::<T>(seen, due.1.priority) as int;
                assert(ranking[i].1.priority == sorted@[i].1.priority);
            }
            assert(queue_view::<T>(all.take(it.index() + 1)) =~= seen.push(task));
            assert(queue_view::<T>(sorted@.insert(at as int, due)) =~= queue_view::<T>(
                sorted@,
            ).insert(at as int, task));
        }
        sorted.insert(at, due);
    }
    assert(all.take(all.len() as int) =~= all);
    sorted
}

/// The tasks of one priority stand in the ranking as they stand in the queue.
proof fn lemma_ranked_stable<T: Config>(queue: Seq<DueTask<T>>, bound: nat, priority: int)
    ensures
        of_priority::<T>(ranked_below::<T>(queue, bound), priority) == (if 0 <= priority < bound {
            of_priority::<T>(queue, priority)
        } else {
            Seq::empty()
        }),
    decreases bound,
{
    let pred = |d: DueTask<T>| d.1.priority == priority;
    reveal(Seq::filter);
    if bound == 0 {
        assert(ranked_below::<T>(queue, bound).filter(pred) =~= Seq::empty());
    } else {
        let head = ranked_below::<T>(queue, (bound - 1) as nat);
        let tail = of_priority::<T>(queue, bound - 1);
        lemma_ranked_stable::<T>(queue, (bound - 1) as nat, priority);
        Seq::filter_distributes_over_add(head, tail, pred);
        lemma_filter_of_priority::<T>(queue, bound - 1, priority);
        assert(head.filter(pred) + tail.filter(pred) =~= if 0 <= priority < bound {
            of_priority::<T>(queue, priority)
        } else {
            Seq::empty()
        });
    }
}

/// Of the tasks of one priority, all are of that priority and none of another.
proof fn lemma_filter_of_priority<T: Config>(queue: Seq<DueTask<T>>, kept: int, priority: int)
    ensures
        of_priority::<T>(of_priority::<T>(queue, kept), priority) == (if kept == priority {
            of_priority::<T>(queue, kept)
        } else {
            Seq::empty()
        }),
    decreases queue.len(),
{
    reveal(Seq::filter);
    if queue.len() > 0 {
        let rest = queue.drop_last();
        lemma_filter_of_priority::<T>(rest, kept, priority);
        if queue.last().1.priority == kept {
            assert(of_priority::<T>(queue, kept).drop_last() =~= of_priority::<T>(rest, kept));
        }
    } else {
        assert(of_priority::<T>(queue, kept) =~= Seq::empty());
        assert(of_priority::<T>(of_priority::<T>(queue, kept), priority) =~= Seq::empty());
    }
}

/// The turns go by priority: of two tasks the one with the lower value has its turn first; of two
/// with the same value, the one that stood first on the agenda. Each task has exactly one turn.
pub proof fn law_turns_go_by_priority<T: Config>(queue: Seq<DueTask<T>>)
    ensures
        forall|i: int, j: int|
            0 <= i <= j < by_priority::<T>(queue).len() ==> (#[trigger] by_priority::<T>(
                queue,
            )[i]).1.priority <= (#[trigger] by_priority::<T>(queue)[j]).1.priority,
        forall|priority: Priority|
            of_priority::<T>(by_priority::<T>(queue), priority as int) == #[trigger] of_priority::<
                T,
            >(queue, priority as int),
        by_priority::<T>(queue).to_multiset() == queue.to_multiset(),
        by_priority::<T>(queue).len() == queue.len(),
{
    let ranking = by_priority::<T>(queue);
    assert forall|i: int, j: int| 0 <= i <= j < ranking.len() implies (
    #[trigger] ranking[i]).1.priority <= (#[trigger] ranking[j]).1.priority by {
        lemma_ranked_split::<T>(queue, 256, ranking[j].1.priority as nat);
        lemma_ranked_split::<T>(queue, 256, (ranking[j].1.priority + 1) as nat);
    }
    assert forall|priority: Priority|
        of_priority::<T>(ranking, priority as int) == #[trigger] of_priority::<T>(
            queue,
            priority as int,
        ) by {
        lemma_ranked_stable::<T>(queue, 256, priority as int);
    }
    lemma_ranked_multiset::<T>(queue);
    vstd::seq_lib::to_multiset_len(ranking);
    vstd::seq_lib::to_multiset_len(queue);
}

/// The ranking has the tasks of the queue and no others.
proof fn lemma_ranked_multiset<T: Config>(queue: Seq<DueTask<T>>)
    ensures
        by_priority::<T>(queue).to_multiset() == queue.to_multiset(),
    decreases queue.len(),
{
    if queue.len() == 0 {
        lemma_ranked_empty::<T>(256);
        assert(queue =~= Seq::empty());
    } else {
        let rest = queue.drop_last();
        let due = queue.last();
        lemma_ranked_multiset::<T>(rest);
        lemma_ranked_push::<T>(rest, due, 256);
        assert(rest.push(due) =~= queue);
        vstd::seq_lib::to_multiset_insert(
            by_priority::<T>(rest),
            rank::<T>(rest, due.1.priority) as int,
            due,
        );
        vstd::seq_lib::to_multiset_build(rest, due);
    }
}

/// Where one element meets the predicate, a filter keeps one.
pub proof fn lemma_filter_one<A>(all: Seq<A>, pred: spec_fn(A) -> bool, at: int)
    requires
        0 <= at < all.len(),
        pred(all[at]),
        forall|i: int| 0 <= i < all.len() && pred(#[trigger] all[i]) ==> i == at,
    ensures
        all.filter(pred).len() == 1,
    decreases all.len(),
{
    reveal(Seq::filter);
    let rest = all.drop_last();
    assert forall|i: int| 0 <= i < rest.len() && pred(#[trigger] rest[i]) implies i == at by {
        assert(rest[i] == all[i]);
    }
    assert(all.last() == all[all.len() - 1]);
    if at == all.len() - 1 {
        lemma_filter_none(rest, pred);
    } else {
        assert(rest[at] == all[at]);
        lemma_filter_one(rest, pred, at);
    }
}

/// Where no element meets the predicate, a filter keeps none.
pub proof fn lemma_filter_none<A>(all: Seq<A>, pred: spec_fn(A) -> bool)
    requires
        forall|i: int| 0 <= i < all.len() ==> !pred(#[trigger] all[i]),
    ensures
        all.filter(pred).len() == 0,
    decreases all.len(),
{
    reveal(Seq::filter);
    if all.len() > 0 {
        let rest = all.drop_last();
        assert forall|i: int| 0 <= i < rest.len() implies !pred(#[trigger] rest[i]) by {
            assert(rest[i] == all[i]);
        }
        assert(all.last() == all[all.len() - 1]);
        lemma_filter_none(rest, pred);
    }
}

/// What is kept of one priority is kept of the tasks of that priority.
pub proof fn lemma_filter_through<T: Config>(
    queue: Seq<DueTask<T>>,
    pred: spec_fn(DueTask<T>) -> bool,
    priority: Priority,
)
    requires
        forall|due: DueTask<T>| #[trigger] pred(due) ==> due.1.priority == priority,
    ensures
        of_priority::<T>(queue, priority as int).filter(pred) == queue.filter(pred),
    decreases queue.len(),
{
    reveal(Seq::filter);
    if queue.len() > 0 {
        let rest = queue.drop_last();
        lemma_filter_through::<T>(rest, pred, priority);
        if queue.last().1.priority == priority {
            assert(of_priority::<T>(queue, priority as int).drop_last() =~= of_priority::<T>(
                rest,
                priority as int,
            ));
        }
    } else {
        assert(of_priority::<T>(queue, priority as int) =~= queue);
    }
}

/// What is kept of one priority is the same in the ranking as in the queue.
pub proof fn lemma_ranking_keeps<T: Config>(
    queue: Seq<DueTask<T>>,
    pred: spec_fn(DueTask<T>) -> bool,
    priority: Priority,
)
    requires
        forall|due: DueTask<T>| #[trigger] pred(due) ==> due.1.priority == priority,
    ensures
        by_priority::<T>(queue).filter(pred) == queue.filter(pred),
{
    let ranking = by_priority::<T>(queue);
    lemma_filter_through::<T>(queue, pred, priority);
    lemma_filter_through::<T>(ranking, pred, priority);
    assert(of_priority::<T>(ranking, priority as int) == of_priority::<T>(queue, priority as int))
        by {
        law_turns_go_by_priority::<T>(queue);
    }
}

/// Where a filter keeps one, exactly one element meets the predicate.
pub proof fn lemma_filter_kept_one<A>(all: Seq<A>, pred: spec_fn(A) -> bool)
    requires
        all.filter(pred).len() == 1,
    ensures
        exists|i: int| 0 <= i < all.len() && pred(#[trigger] all[i]),
        forall|i: int, j: int|
            0 <= i < all.len() && 0 <= j < all.len() && pred(#[trigger] all[i]) && pred(
                #[trigger] all[j],
            ) ==> i == j,
    decreases all.len(),
{
    reveal(Seq::filter);
    let rest = all.drop_last();
    assert(all.last() == all[all.len() - 1]);
    if pred(all.last()) {
        assert forall|i: int| 0 <= i < rest.len() implies !pred(#[trigger] rest[i]) by {
            if pred(rest[i]) {
                lemma_filter_some(rest, pred, i);
            }
        }
        assert forall|i: int| 0 <= i < all.len() && pred(#[trigger] all[i]) implies i == all.len()
            - 1 by {
            if i < rest.len() {
                assert(rest[i] == all[i]);
            }
        }
    } else {
        lemma_filter_kept_one(rest, pred);
        let at = choose|i: int| 0 <= i < rest.len() && pred(#[trigger] rest[i]);
        assert(all[at] == rest[at]);
        assert forall|i: int| 0 <= i < all.len() && pred(#[trigger] all[i]) implies i == at by {
            assert(i < rest.len());
            assert(rest[i] == all[i]);
        }
    }
}

/// Where some element meets the predicate, a filter keeps some.
proof fn lemma_filter_some<A>(all: Seq<A>, pred: spec_fn(A) -> bool, at: int)
    requires
        0 <= at < all.len(),
        pred(all[at]),
    ensures
        all.filter(pred).len() > 0,
    decreases all.len(),
{
    reveal(Seq::filter);
    if at < all.len() - 1 {
        assert(all.drop_last()[at] == all[at]);
        lemma_filter_some(all.drop_last(), pred, at);
    }
}

/// Where two predicates agree on all elements, they keep the same.
pub proof fn lemma_filter_agree<A>(
    all: Seq<A>,
    pred: spec_fn(A) -> bool,
    other: spec_fn(A) -> bool,
)
    requires
        forall|i: int| 0 <= i < all.len() ==> pred(#[trigger] all[i]) == other(all[i]),
    ensures
        all.filter(pred) == all.filter(other),
    decreases all.len(),
{
    reveal(Seq::filter);
    if all.len() > 0 {
        let rest = all.drop_last();
        assert forall|i: int| 0 <= i < rest.len() implies pred(#[trigger] rest[i]) == other(
            rest[i],
        ) by {
            assert(rest[i] == all[i]);
        }
        assert(all.last() == all[all.len() - 1]);
        lemma_filter_agree(rest, pred, other);
    }
}

/// An empty queue has an empty ranking.
proof fn lemma_ranked_empty<T: Config>(bound: nat)
    ensures
        ranked_below::<T>(Seq::empty(), bound) == Seq::<DueTask<T>>::empty(),
    decreases bound,
{
    if bound > 0 {
        lemma_ranked_empty::<T>((bound - 1) as nat);
        reveal(Seq::filter);
        assert(of_priority::<T>(Seq::empty(), bound - 1) =~= Seq::empty());
    }
}

} // verus!
