//! The blocks in which a task is to be dispatched.
use vstd::prelude::*;

use crate::hooks::remaining;
use crate::laws::executions;
use crate::types::{BlockNumber, Period};

verus! {

/// A block that a task is to be dispatched in, with the repetitions that are left by then.
pub type Place = Option<(int, Option<Period<BlockNumber>>)>;

/// The place is on the agenda of the block.
pub open spec fn is_in(place: Place, now: int) -> bool {
    place matches Some((at, _)) && at == now
}

/// Where a task goes that was dispatched.
pub open spec fn place_after(now: int, periodic: Option<Period<BlockNumber>>) -> Place {
    match periodic {
        Some((period, _)) => Some((now + period, remaining(periodic))),
        None => None,
    }
}

/// Where a task stands once the block was started.
pub open spec fn place_from(place: Place, now: int) -> Place {
    match place {
        Some((at, periodic)) => if at == now {
            place_after(now, periodic)
        } else {
            place
        },
        None => None,
    }
}

/// The repetitions that are left of a task that is due in the block.
pub open spec fn left_in(place: Place, now: int) -> Option<Period<BlockNumber>> {
    match place {
        Some((at, periodic)) => if at == now {
            periodic
        } else {
            None
        },
        None => None,
    }
}

/// The block, not before `now`, in which a task is to be dispatched that is on the agenda of the
/// block `at`, with the repetitions that are left by then.
pub open spec fn next_time(at: int, periodic: Option<Period<BlockNumber>>, now: int) -> Place
    decreases
            (match periodic {
                Some((_, count)) => count + 1,
                None => 0,
            }),
{
    if now <= at {
        Some((at, periodic))
    } else {
        match periodic {
            Some((period, _)) => next_time(at + period, remaining(periodic), now),
            None => None,
        }
    }
}

/// The periods are not empty.
pub open spec fn has_length(periodic: Option<Period<BlockNumber>>) -> bool {
    periodic matches Some((period, _)) ==> period > 0
}

/// With each block the next time is the same, or the task is dispatched and has another.
pub proof fn lemma_next_time_step(at: int, periodic: Option<Period<BlockNumber>>, now: int)
    requires
        has_length(periodic),
    ensures
        match next_time(at, periodic, now) {
            Some((time, left)) => {
                &&& time >= now
                &&& has_length(left)
            },
            None => true,
        },
        next_time(at, periodic, now + 1) == place_from(next_time(at, periodic, now), now),
    decreases
            (match periodic {
                Some((_, count)) => count + 1,
                None => 0,
            }),
{
    reveal_with_fuel(next_time, 3);
    if now > at {
        if let Some((period, _)) = periodic {
            lemma_next_time_step(at + period, remaining(periodic), now);
        }
    }
}

/// The length of a period; none where there is no period.
pub open spec fn period_length(periodic: Option<Period<BlockNumber>>) -> int {
    match periodic {
        Some((period, _)) => period as int,
        None => 0,
    }
}

/// The block in which a task of the block `at` has its turn after `k` periods.
pub open spec fn nth_time(at: int, length: int, k: int) -> int {
    at + k * length
}

/// The times of a periodic task after the first are those of its next time.
pub proof fn lemma_times_shift(at: int, length: int, k: int)
    ensures
        nth_time(at + length, length, k) == nth_time(at, length, k + 1),
        nth_time(at, length, 0) == at,
        length >= 0 && k >= 0 ==> nth_time(at, length, k) >= at,
{
    assert(length + k * length == (k + 1) * length) by (nonlinear_arith);
    assert(0 * length == 0);
    assert(length >= 0 && k >= 0 ==> k * length >= 0) by (nonlinear_arith);
}

/// The times of a task are the first and those after each period, as many as it has executions.
pub proof fn lemma_next_time_form(at: int, periodic: Option<Period<BlockNumber>>, now: int)
    requires
        has_length(periodic),
    ensures
        ({
            let length = period_length(periodic);
            let times = executions(periodic) as int;
            let next = next_time(at, periodic, now);
            &&& times >= 1
            &&& is_in(next, now) <==> (exists|k: int|
                0 <= k < times && now == #[trigger] nth_time(at, length, k))
            &&& next matches Some((time, _)) ==> time <= nth_time(at, length, times - 1)
            &&& next is None <==> now > nth_time(at, length, times - 1)
        }),
    decreases
            (match periodic {
                Some((_, count)) => count + 1,
                None => 0,
            }),
{
    let length = period_length(periodic);
    let times = executions(periodic) as int;
    let next = next_time(at, periodic, now);
    let left = remaining(periodic);
    if let Some((period, _)) = periodic {
        lemma_next_time_form(at + length, left, now);
        assert(executions(left) == times - 1);
        lemma_times_shift(at, length, times - 2);
        lemma_times_shift(at, length, times - 1);
        lemma_times_shift(at + length, period_length(left), times - 2);
    } else {
        lemma_times_shift(at, length, 0);
    }
    if now <= at {
        assert(next == Some((at, periodic)));
        if now == at {
            lemma_times_shift(at, length, 0);
            assert(now == nth_time(at, length, 0));
        }
        assert forall|k: int| 0 <= k < times && now == #[trigger] nth_time(
            at,
            length,
            k,
        ) implies now == at by {
            lemma_times_shift(at, length, k);
        }
        lemma_times_shift(at, length, times - 1);
    } else if periodic is Some {
        let later = at + length;
        let length_left = period_length(left);
        assert forall|k: int| 0 <= k < times - 1 implies nth_time(later, length_left, k)
            == #[trigger] nth_time(at, length, k + 1) by {
            lemma_times_shift(at, length, k);
            lemma_times_shift(later, length_left, k);
        }
        if exists|k: int| 0 <= k < times - 1 && now == nth_time(later, length_left, k) {
            let k = choose|k: int| 0 <= k < times - 1 && now == nth_time(later, length_left, k);
            assert(now == nth_time(at, length, k + 1));
        }
        if exists|k: int| 0 <= k < times && now == nth_time(at, length, k) {
            let k = choose|k: int| 0 <= k < times && now == nth_time(at, length, k);
            lemma_times_shift(at, length, 0);
            assert(k != 0);
            assert(nth_time(at, length, (k - 1) + 1) == nth_time(later, length_left, k - 1));
        }
        assert(nth_time(at, length, (times - 2) + 1) == nth_time(later, length_left, times - 2));
    }
}

/// How often a task is dispatched from its place on.
pub open spec fn executions_from(place: Place) -> nat {
    match place {
        Some((_, periodic)) => executions(periodic),
        None => 0,
    }
}

} // verus!
