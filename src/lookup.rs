//! One read-through request, as two verified halves around the upstream
//! calls: which stations to look up, and what to keep and return after.
use vstd::prelude::*;
use crate::acquisition::{merge_reports, merge_model, metars_view};
use crate::freshness::{
    missing_stations, plan_fetch, still_missing, is_missing, known_empty, marked_all, unfetched,
    lemma_planned, lemma_unfetched, lemma_marked_all, has_station, is_stale, CacheView,
    NegativeCache, EMPTY_STATION_TTL_SECS,
};
use crate::report::{Metar, strings_view};

verus! {

/// The stations to look up upstream: those missing (requested and not
/// stored, stored and not requested, or stale), less those marked as having
/// no data, unless `force`.
pub fn plan_request(
    requested: &Vec<String>,
    stored: &Vec<Metar>,
    cache: &NegativeCache,
    now: i64,
    force: bool,
) -> (r: Vec<String>)
    requires
        forall|j: int| 0 <= j < stored@.len() ==> (#[trigger] stored@[j]).observation_time.wf(),
    ensures
        forall|s: Seq<char>| #[trigger]
            strings_view(r@).contains(s) <==> (is_missing(
                s,
                strings_view(requested@),
                stored@,
                now as int,
            ) && (force || !known_empty(cache@, s, now as int))),
{
    let missing = missing_stations(requested, stored, now);
    let r = plan_fetch(&missing, cache, now, force);
    proof {
        assert forall|s: Seq<char>| #[trigger]
            strings_view(r@).contains(s) <==> (is_missing(
                s,
                strings_view(requested@),
                stored@,
                now as int,
            ) && (force || !known_empty(cache@, s, now as int))) by {
            lemma_planned(strings_view(missing@), cache@, now as int, force, s);
        }
    }
    r
}

/// After the lookups: marks the looked-up stations that no fetched report
/// names, and returns one report per station, fetched ones winning.
pub fn finish_request(
    to_fetch: &Vec<String>,
    fetched: Vec<Metar>,
    stored: Vec<Metar>,
    cache: &mut NegativeCache,
    now: i64,
) -> (r: Vec<Metar>)
    requires
        now <= i64::MAX - EMPTY_STATION_TTL_SECS,
    ensures
        final(cache)@ == marked_all(
            old(cache)@,
            unfetched(strings_view(to_fetch@), fetched@),
            now as int,
        ),
        metars_view(r@) == merge_model(metars_view(fetched@), metars_view(stored@)),
{
    let empty = still_missing(to_fetch, &fetched);
    cache.mark_all_empty(&empty, now);
    merge_reports(fetched, stored)
}

/// A station that one request looked up and got no report for is, in the
/// cache `finish_request` leaves, marked for any later request before the
/// mark runs out; `plan_request` then leaves it out unless forced.
pub proof fn lemma_request_skips_empty_station(
    c: CacheView,
    to_fetch: Seq<Seq<char>>,
    fetched: Seq<Metar>,
    s: Seq<char>,
    t1: int,
    t2: int,
)
    requires
        to_fetch.contains(s),
        !has_station(fetched, s),
        t1 <= t2 < t1 + EMPTY_STATION_TTL_SECS,
    ensures
        known_empty(marked_all(c, unfetched(to_fetch, fetched), t1), s, t2),
{
    lemma_unfetched(to_fetch, fetched, s);
    lemma_marked_all(c, unfetched(to_fetch, fetched), t1, s, t2);
}

/// A stored report older than the staleness window makes its station one
/// that a forced `plan_request` looks up, whatever the cache holds.
pub proof fn lemma_forced_request_refetches_stale(
    req: Seq<Seq<char>>,
    stored: Seq<Metar>,
    k: int,
    now: int,
)
    requires
        0 <= k < stored.len(),
        is_stale(stored[k], now),
    ensures
        is_missing(stored[k].station_id@, req, stored, now),
{
    assert(stored[k].station_id@ == stored[k].station_id@);
}

} // verus!
