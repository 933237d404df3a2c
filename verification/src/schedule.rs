//! The publication schedule (weekdays at 08:00, 14:00 and 18:00 in
//! America/Chicago, each run given until three minutes past the hour) and the
//! health checks of the state database that depend on it.

use vstd::prelude::*;
use crate::clock::{chicago_day, chicago_day_of, chicago_local, chicago_wall_clock, in_clock_range, is_weekend, rfc3339_instant, rfc3339_seconds, weekday_from_monday, WallClock};
use crate::error::BotError;
use crate::text::str_eq;

verus! {

/// Seconds a scheduled run is given to finish before it counts as due.
pub const GRACE_SECONDS: i64 = 1800;

/// The hour of the `k`-th run of a day, latest first.
pub open spec fn slot_hour(k: int) -> int {
    if k == 0 {
        18
    } else if k == 1 {
        14
    } else {
        8
    }
}

/// The day of the `i`-th candidate run when searching back from `first_day`.
pub open spec fn slot_day(first_day: int, i: int) -> int {
    first_day - i / 3
}

/// The search for the latest scheduled run at or before `cutoff`, from the
/// `i`-th candidate on: three runs a day, latest first, going back eight days
/// from `first_day` and passing over weekends.
pub open spec fn search_slots(first_day: int, cutoff: int, i: int) -> Result<int, BotError>
    decreases 24 - i,
{
    if i < 0 || i >= 24 {
        Err(BotError::NoScheduledRun)
    } else if is_weekend(slot_day(first_day, i)) {
        search_slots(first_day, cutoff, i + 1)
    } else {
        match chicago_wall_clock(slot_day(first_day, i), slot_hour(i % 3), 3) {
            WallClock::Unique(t) => if t <= cutoff {
                Ok(t as int)
            } else {
                search_slots(first_day, cutoff, i + 1)
            },
            WallClock::Ambiguous => Err(BotError::AmbiguousSchedule),
            WallClock::Skipped => Err(BotError::AmbiguousSchedule),
            WallClock::InvalidTime => Err(BotError::InvalidSchedule),
            WallClock::InvalidDay => Err(BotError::InvalidSchedule),
        }
    }
}

/// The scheduled run that should have completed by `now` (seconds since the
/// Unix epoch): the latest weekday run whose start lies at least half an hour
/// before `now`.
pub open spec fn due_at(now: int) -> Result<int, BotError> {
    let cutoff = now - 1800;
    if !in_clock_range(cutoff) {
        Err(BotError::InvalidTimestamp)
    } else {
        match chicago_day_of(cutoff) {
            Some(d) => search_slots(d, cutoff, 0),
            None => Err(BotError::InvalidTimestamp),
        }
    }
}

fn slot_hour_of(k: u32) -> (h: u32)
    requires
        k < 3,
    ensures
        h == slot_hour(k as int),
{
    if k == 0 {
        18
    } else if k == 1 {
        14
    } else {
        8
    }
}

/// The weekday of a day number, Monday being 0.
fn weekday_index(day: i64) -> (w: u64)
    requires
        i32::MIN - 8 <= day <= i32::MAX,
    ensures
        w == weekday_from_monday(day as int),
        0 <= w < 7,
{
    let shifted = (day - 1 + 2_800_000_000) as u64;
    proof {
        vstd::arithmetic::div_mod::lemma_mod_multiples_vanish(400_000_000, day - 1, 7);
    }
    shifted % 7
}

/// The start of the scheduled run that should have completed by `now`.
pub fn due(now: i64) -> (r: Result<i64, BotError>)
    ensures
        match r {
            Ok(t) => due_at(now as int) == Ok::<int, BotError>(t as int),
            Err(e) => due_at(now as int) == Err::<int, BotError>(e),
        },
{
    let cutoff = match now.checked_sub(GRACE_SECONDS) {
        Some(c) => c,
        None => return Err(BotError::InvalidTimestamp),
    };
    if cutoff < -8_334_601_228_800 {
        return Err(BotError::InvalidTimestamp);
    }
    let first_day = match chicago_day(cutoff) {
        Some(d) => d,
        None => return Err(BotError::InvalidTimestamp),
    };
    let mut i: u32 = 0;
    while i < 24
        invariant
            i <= 24,
            i32::MIN <= first_day <= i32::MAX,
            cutoff == now - 1800,
            due_at(now as int) == search_slots(first_day as int, cutoff as int, i as int),
        decreases 24 - i,
    {
        assert(search_slots(first_day as int, cutoff as int, i as int) == (if is_weekend(
            slot_day(first_day as int, i as int),
        ) {
            search_slots(first_day as int, cutoff as int, i + 1)
        } else {
            match chicago_wall_clock(
                slot_day(first_day as int, i as int),
                slot_hour(i as int % 3),
                3,
            ) {
                WallClock::Unique(t) => if t <= cutoff {
                    Ok(t as int)
                } else {
                    search_slots(first_day as int, cutoff as int, i + 1)
                },
                WallClock::Ambiguous => Err(BotError::AmbiguousSchedule),
                WallClock::Skipped => Err(BotError::AmbiguousSchedule),
                WallClock::InvalidTime => Err(BotError::InvalidSchedule),
                WallClock::InvalidDay => Err(BotError::InvalidSchedule),
            }
        }));
        let day = first_day - (i / 3) as i64;
        if weekday_index(day) < 5 {
            match chicago_local(day, slot_hour_of(i % 3), 3) {
                WallClock::Unique(t) => {
                    if t <= cutoff {
                        return Ok(t);
                    }
                },
                WallClock::Ambiguous => return Err(BotError::AmbiguousSchedule),
                WallClock::Skipped => return Err(BotError::AmbiguousSchedule),
                WallClock::InvalidTime => return Err(BotError::InvalidSchedule),
                WallClock::InvalidDay => return Err(BotError::InvalidSchedule),
            }
        }
        i = i + 1;
    }
    Err(BotError::NoScheduledRun)
}

/// The `k`-th candidate run, counted from the `i`-th, is the one that the
/// search settles on: it is a weekday run starting at `t`, at or before the
/// cutoff, and every weekday run searched before it started after the cutoff.
pub open spec fn settles_at(first_day: int, cutoff: int, i: int, k: int, t: int) -> bool {
    &&& i <= k < 24
    &&& !is_weekend(slot_day(first_day, k))
    &&& chicago_wall_clock(slot_day(first_day, k), slot_hour(k % 3), 3) == WallClock::Unique(
        t as i64,
    )
    &&& t <= cutoff
    &&& forall|j: int|
        #![trigger slot_day(first_day, j)]
        i <= j < k && !is_weekend(slot_day(first_day, j)) ==> (chicago_wall_clock(
            slot_day(first_day, j),
            slot_hour(j % 3),
            3,
        ) matches WallClock::Unique(u) && u > cutoff)
}

proof fn lemma_search_settles(first_day: int, cutoff: int, i: int)
    requires
        0 <= i,
    ensures
        search_slots(first_day, cutoff, i) matches Ok(t) ==> exists|k: int|
            #[trigger] settles_at(first_day, cutoff, i, k, t),
    decreases 24 - i,
{
    if i < 24 {
        lemma_search_settles(first_day, cutoff, i + 1);
        if let Ok(t) = search_slots(first_day, cutoff, i) {
            let day = slot_day(first_day, i);
            let here = chicago_wall_clock(day, slot_hour(i % 3), 3);
            if !is_weekend(day) && (here matches WallClock::Unique(u) && u <= cutoff) {
                assert(settles_at(first_day, cutoff, i, i, t));
            } else {
                let k = choose|k: int| #[trigger] settles_at(first_day, cutoff, i + 1, k, t);
                assert(settles_at(first_day, cutoff, i, k, t));
            }
        }
    }
}

/// The run that `due` names is a weekday run at 08:03, 14:03 or 18:03 in
/// America/Chicago on one of the eight days that end with the local date half
/// an hour before `now`; it started at least half an hour before `now`; and
/// every later weekday run of those days started less than half an hour
/// before `now` (so it is the latest run that should have finished).
pub proof fn lemma_due_is_latest_finished_run(now: int)
    ensures
        due_at(now) matches Ok(t) ==> {
            &&& t <= now - 1800
            &&& (chicago_day_of(now - 1800) matches Some(first_day) && exists|k: int|
                #[trigger] settles_at(first_day, now - 1800, 0, k, t))
        },
{
    if let Some(first_day) = chicago_day_of(now - 1800) {
        lemma_search_settles(first_day, now - 1800, 0);
    }
}

/// The health verdict on the state database at `now`: the last successful
/// scan must not be older than the run that should have finished by then, nor
/// may any pending announcement be.
pub open spec fn health_at(last_scan: Seq<char>, oldest_pending: Option<Seq<char>>, now: int) -> Result<
    (),
    BotError,
> {
    match rfc3339_instant(last_scan) {
        None => Err(BotError::InvalidTimestamp),
        Some(last) => match due_at(now) {
            Err(e) => Err(e),
            Ok(expected) => if last < expected {
                Err(BotError::ScanOverdue)
            } else {
                match oldest_pending {
                    None => Ok(()),
                    Some(p) => match rfc3339_instant(p) {
                        None => Err(BotError::InvalidTimestamp),
                        Some(oldest) => if oldest < expected {
                            Err(BotError::PendingSurvived)
                        } else {
                            Ok(())
                        },
                    },
                }
            },
        },
    }
}

/// Checks that scans keep to the schedule and that no announcement stayed
/// pending through a scheduled run; `now` is in seconds since the Unix epoch.
pub fn check_health(last_scan: &str, oldest_pending: Option<&str>, now: i64) -> (r: Result<
    (),
    BotError,
>)
    ensures
        r == health_at(
            last_scan@,
            match oldest_pending {
                Some(p) => Some(p@),
                None => None,
            },
            now as int,
        ),
{
    let last = match rfc3339_seconds(last_scan) {
        Some(t) => t,
        None => return Err(BotError::InvalidTimestamp),
    };
    let expected = match due(now) {
        Ok(t) => t,
        Err(e) => return Err(e),
    };
    if last < expected {
        return Err(BotError::ScanOverdue);
    }
    match oldest_pending {
        None => Ok(()),
        Some(p) => match rfc3339_seconds(p) {
            None => Err(BotError::InvalidTimestamp),
            Some(oldest) => if oldest < expected {
                Err(BotError::PendingSurvived)
            } else {
                Ok(())
            },
        },
    }
}

/// Checks what the state database reports about itself: its integrity check
/// must answer `ok` and its baseline must be an RFC 3339 timestamp.
pub fn check_store(integrity: &str, baseline: &str) -> (r: Result<(), BotError>)
    ensures
        integrity@ != "ok"@ ==> r == Err::<(), BotError>(BotError::IntegrityCheckFailed),
        integrity@ == "ok"@ && rfc3339_instant(baseline@) is None ==> r == Err::<(), BotError>(
            BotError::InvalidTimestamp,
        ),
        integrity@ == "ok"@ && rfc3339_instant(baseline@) is Some ==> r == Ok::<(), BotError>(()),
{
    if !str_eq(integrity, "ok") {
        return Err(BotError::IntegrityCheckFailed);
    }
    match rfc3339_seconds(baseline) {
        Some(_) => Ok(()),
        None => Err(BotError::InvalidTimestamp),
    }
}

} // verus!
