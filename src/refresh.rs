//! Timing of the background refresh: it sleeps until the oldest report it
//! holds turns stale, within bounds.
use vstd::prelude::*;
use crate::freshness::STALE_AFTER_SECS;
use crate::report::Metar;

verus! {

/// Shortest pause between two refresh rounds, in seconds.
pub const MIN_REFRESH_DELAY_SECS: i64 = 1;

/// Longest pause between two refresh rounds, in seconds.
pub const MAX_REFRESH_DELAY_SECS: i64 = 3600;

/// The earliest observation among `reports`, in Unix seconds, or `now` when
/// none is earlier.
pub open spec fn oldest_model(reports: Seq<Metar>, now: int) -> int
    decreases reports.len(),
{
    if reports.len() == 0 {
        now
    } else {
        let p = oldest_model(reports.drop_last(), now);
        let t = reports.last().observation_time.spec_unix_seconds();
        if t < p { t } else { p }
    }
}

pub fn oldest_observation(reports: &Vec<Metar>, now: i64) -> (r: i64)
    requires
        forall|j: int| 0 <= j < reports@.len() ==> (#[trigger] reports@[j]).observation_time.wf(),
    ensures
        r == oldest_model(reports@, now as int),
{
    let mut oldest = now;
    let mut i: usize = 0;
    while i < reports.len()
        invariant
            i <= reports@.len(),
            forall|j: int| 0 <= j < reports@.len() ==> (#[trigger] reports@[j]).observation_time.wf(),
            oldest == oldest_model(reports@.subrange(0, i as int), now as int),
        decreases reports@.len() - i,
    {
        proof {
            let s = reports@.subrange(0, i + 1);
            assert(s.drop_last() =~= reports@.subrange(0, i as int));
            assert(s.last() == reports@[i as int]);
        }
        let t = reports[i].observation_time.unix_seconds();
        if t < oldest {
            oldest = t;
        }
        i += 1;
    }
    proof {
        assert(reports@.subrange(0, i as int) =~= reports@);
    }
    oldest
}

/// Seconds to wait until a report observed at `oldest` turns stale, at
/// least `MIN_REFRESH_DELAY_SECS` and at most `MAX_REFRESH_DELAY_SECS`.
pub open spec fn refresh_delay(oldest: int, now: int) -> int {
    let d = oldest + STALE_AFTER_SECS - now;
    if d < MIN_REFRESH_DELAY_SECS {
        MIN_REFRESH_DELAY_SECS as int
    } else if d > MAX_REFRESH_DELAY_SECS {
        MAX_REFRESH_DELAY_SECS as int
    } else {
        d
    }
}

pub fn next_refresh_delay(oldest: i64, now: i64) -> (r: u64)
    ensures
        r == refresh_delay(oldest as int, now as int),
        MIN_REFRESH_DELAY_SECS <= r <= MAX_REFRESH_DELAY_SECS,
{
    let d: i128 = (oldest as i128) + (STALE_AFTER_SECS as i128) - (now as i128);
    if d < MIN_REFRESH_DELAY_SECS as i128 {
        MIN_REFRESH_DELAY_SECS as u64
    } else if d > MAX_REFRESH_DELAY_SECS as i128 {
        MAX_REFRESH_DELAY_SECS as u64
    } else {
        d as u64
    }
}

} // verus!
