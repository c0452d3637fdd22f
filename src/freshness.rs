//! Which stations a read-through request must look up upstream, and the
//! short-lived record of stations that recently had no data.
use vstd::prelude::*;
use crate::report::{Metar, strings_view};

verus! {

/// Age in seconds past which a stored report is stale.
pub const STALE_AFTER_SECS: i64 = 3600;

/// Seconds for which a station that yielded no report is not asked for again.
pub const EMPTY_STATION_TTL_SECS: i64 = 3600;

pub open spec fn is_stale(m: Metar, now: int) -> bool {
    now > m.observation_time.spec_unix_seconds() + STALE_AFTER_SECS
}

pub open spec fn has_station(v: Seq<Metar>, s: Seq<char>) -> bool {
    exists|j: int| 0 <= j < v.len() && (#[trigger] v[j]).station_id@ == s
}

/// A station is missing when it is requested and not stored, stored and not
/// requested, or stored with a stale report.
pub open spec fn is_missing(s: Seq<char>, req: Seq<Seq<char>>, stored: Seq<Metar>, now: int) -> bool {
    ||| (req.contains(s) && !has_station(stored, s))
    ||| exists|j: int|
        0 <= j < stored.len() && (#[trigger] stored[j]).station_id@ == s && (!req.contains(s)
            || is_stale(stored[j], now))
}

pub fn contains_string(v: &Vec<String>, s: &String) -> (r: bool)
    ensures
        r == strings_view(v@).contains(s@),
{
    let mut i: usize = 0;
    while i < v.len()
        invariant
            i <= v@.len(),
            forall|j: int| 0 <= j < i ==> v@[j]@ != s@,
        decreases v@.len() - i,
    {
        if v[i] == *s {
            proof {
                assert(strings_view(v@)[i as int] == s@);
            }
            return true;
        }
        i += 1;
    }
    proof {
        if strings_view(v@).contains(s@) {
            let j = choose|j: int| 0 <= j < strings_view(v@).len() && strings_view(v@)[j] == s@;
            assert(v@[j]@ == s@);
        }
    }
    false
}

pub fn has_station_of(v: &Vec<Metar>, s: &String) -> (r: bool)
    ensures
        r == has_station(v@, s@),
{
    let mut i: usize = 0;
    while i < v.len()
        invariant
            i <= v@.len(),
            forall|j: int| 0 <= j < i ==> v@[j].station_id@ != s@,
        decreases v@.len() - i,
    {
        if v[i].station_id == *s {
            return true;
        }
        i += 1;
    }
    false
}

/// Appends `s` unless `out` already holds it.
fn push_unique(out: &mut Vec<String>, s: String)
    requires
        strings_view(old(out)@).no_duplicates(),
    ensures
        strings_view(final(out)@).no_duplicates(),
        forall|x: Seq<char>| #[trigger]
            strings_view(final(out)@).contains(x) <==> (strings_view(old(out)@).contains(x) || x
                == s@),
{
    if !contains_string(out, &s) {
        let ghost before = strings_view(out@);
        let ghost sv = s@;
        out.push(s);
        proof {
            assert(strings_view(out@) =~= before.push(sv));
            assert forall|x: Seq<char>| #[trigger]
                strings_view(out@).contains(x) <==> (before.contains(x) || x == sv) by {
                if before.contains(x) {
                    let j = choose|j: int| 0 <= j < before.len() && before[j] == x;
                    assert(strings_view(out@)[j] == x);
                }
                if x == sv {
                    assert(strings_view(out@)[before.len() as int] == x);
                }
            }
        }
    }
}

fn is_stale_of(m: &Metar, now_secs: i64) -> (r: bool)
    requires
        m.observation_time.wf(),
    ensures
        r == is_stale(*m, now_secs as int),
{
    let secs = m.observation_time.unix_seconds();
    (now_secs as i128) > (secs as i128) + (STALE_AFTER_SECS as i128)
}

/// The stations to look up upstream, each once.
pub fn missing_stations(requested: &Vec<String>, stored: &Vec<Metar>, now_secs: i64) -> (r: Vec<String>)
    requires
        forall|j: int| 0 <= j < stored@.len() ==> (#[trigger] stored@[j]).observation_time.wf(),
    ensures
        strings_view(r@).no_duplicates(),
        forall|s: Seq<char>| #[trigger]
            strings_view(r@).contains(s) <==> is_missing(
                s,
                strings_view(requested@),
                stored@,
                now_secs as int,
            ),
{
    let ghost req = strings_view(requested@);
    let mut out: Vec<String> = Vec::new();
    proof {
        assert(strings_view(out@) =~= Seq::<Seq<char>>::empty());
    }
    let mut i: usize = 0;
    while i < requested.len()
        invariant
            i <= requested@.len(),
            req == strings_view(requested@),
            strings_view(out@).no_duplicates(),
            forall|x: Seq<char>| #[trigger]
                strings_view(out@).contains(x) <==> (req.subrange(0, i as int).contains(x)
                    && !has_station(stored@, x)),
        decreases requested@.len() - i,
    {
        let s = &requested[i];
        proof {
            assert(req.subrange(0, i + 1) =~= req.subrange(0, i as int).push(s@));
            assert forall|x: Seq<char>| #[trigger]
                req.subrange(0, i + 1).contains(x) <==> (req.subrange(0, i as int).contains(x)
                    || x == s@) by {
                let p = req.subrange(0, i as int);
                if p.contains(x) {
                    let j = choose|j: int| 0 <= j < p.len() && p[j] == x;
                    assert(req.subrange(0, i + 1)[j] == x);
                }
                if x == s@ {
                    assert(req.subrange(0, i + 1)[i as int] == x);
                }
            }
        }
        if !has_station_of(stored, s) {
            push_unique(&mut out, s.clone());
        }
        i += 1;
    }
    proof {
        assert(req.subrange(0, i as int) =~= req);
    }
    let mut k: usize = 0;
    while k < stored.len()
        invariant
            k <= stored@.len(),
            req == strings_view(requested@),
            forall|j: int| 0 <= j < stored@.len() ==> (#[trigger] stored@[j]).observation_time.wf(),
            strings_view(out@).no_duplicates(),
            forall|x: Seq<char>| #[trigger]
                strings_view(out@).contains(x) <==> ((req.contains(x) && !has_station(stored@, x))
                    || exists|j: int|
                    0 <= j < k && (#[trigger] stored@[j]).station_id@ == x && (!req.contains(x)
                        || is_stale(stored@[j], now_secs as int))),
        decreases stored@.len() - k,
    {
        let m = &stored[k];
        let take = !contains_string(requested, &m.station_id) || is_stale_of(m, now_secs);
        if take {
            push_unique(&mut out, m.station_id.clone());
        }
        proof {
            assert forall|x: Seq<char>| #[trigger]
                strings_view(out@).contains(x) <==> ((req.contains(x) && !has_station(stored@, x))
                    || exists|j: int|
                    0 <= j < k + 1 && (#[trigger] stored@[j]).station_id@ == x && (!req.contains(x)
                        || is_stale(stored@[j], now_secs as int))) by {
                if x == m.station_id@ && take {
                    assert(stored@[k as int].station_id@ == x);
                }
            }
        }
        k += 1;
    }
    out
}

// ---- stations known to have no data ----

/// Stations recently found to have no data, each with the second its mark
/// runs out.
#[derive(Clone, Debug)]
pub struct NegativeCache {
    pub entries: Vec<(String, i64)>,
}

pub type CacheView = Seq<(Seq<char>, int)>;

impl View for NegativeCache {
    type V = CacheView;

    open spec fn view(&self) -> CacheView {
        self.entries@.map_values(|e: (String, i64)| (e.0@, e.1 as int))
    }
}

/// `s` carries a mark that has not run out at `now`.
pub open spec fn known_empty(c: CacheView, s: Seq<char>, now: int) -> bool {
    exists|i: int| 0 <= i < c.len() && (#[trigger] c[i]).0 == s && now < c[i].1
}

/// The entries of `c` that are not for `s`.
pub open spec fn without(c: CacheView, s: Seq<char>) -> CacheView
    decreases c.len(),
{
    if c.len() == 0 {
        c
    } else if c.last().0 == s {
        without(c.drop_last(), s)
    } else {
        without(c.drop_last(), s).push(c.last())
    }
}

/// `c` after marking `s` at `now`.
pub open spec fn marked(c: CacheView, s: Seq<char>, now: int) -> CacheView {
    without(c, s).push((s, now + EMPTY_STATION_TTL_SECS))
}

/// `c` after marking each of `ss` at `now`, in order.
pub open spec fn marked_all(c: CacheView, ss: Seq<Seq<char>>, now: int) -> CacheView
    decreases ss.len(),
{
    if ss.len() == 0 {
        c
    } else {
        marked(marked_all(c, ss.drop_last(), now), ss.last(), now)
    }
}

proof fn lemma_known_push(q: CacheView, e: (Seq<char>, int), x: Seq<char>, t: int)
    ensures
        known_empty(q.push(e), x, t) <==> (known_empty(q, x, t) || (e.0 == x && t < e.1)),
{
    let qe = q.push(e);
    if known_empty(q, x, t) {
        let i = choose|i: int| 0 <= i < q.len() && (#[trigger] q[i]).0 == x && t < q[i].1;
        assert(qe[i] == q[i]);
    }
    if e.0 == x && t < e.1 {
        assert(qe[q.len() as int] == e);
    }
    if known_empty(qe, x, t) {
        let i = choose|i: int| 0 <= i < qe.len() && (#[trigger] qe[i]).0 == x && t < qe[i].1;
        if i < q.len() {
            assert(qe[i] == q[i]);
        }
    }
}

pub proof fn lemma_without(c: CacheView, s: Seq<char>, x: Seq<char>, t: int)
    ensures
        known_empty(without(c, s), x, t) <==> (x != s && known_empty(c, x, t)),
    decreases c.len(),
{
    if c.len() > 0 {
        let p = c.drop_last();
        let l = c.last();
        lemma_without(p, s, x, t);
        assert(c =~= p.push(l));
        lemma_known_push(p, l, x, t);
        lemma_known_push(without(p, s), l, x, t);
    }
}

pub proof fn lemma_marked(c: CacheView, s: Seq<char>, now: int, x: Seq<char>, t: int)
    ensures
        known_empty(marked(c, s, now), x, t) <==> ((x == s && t < now + EMPTY_STATION_TTL_SECS) || (
        x != s && known_empty(c, x, t))),
{
    lemma_without(c, s, x, t);
    let w = without(c, s);
    let mc = marked(c, s, now);
    if x == s && t < now + EMPTY_STATION_TTL_SECS {
        assert(mc[w.len() as int].0 == x);
    }
    if known_empty(w, x, t) {
        let i = choose|i: int| 0 <= i < w.len() && (#[trigger] w[i]).0 == x && t < w[i].1;
        assert(mc[i] == w[i]);
    }
    if known_empty(mc, x, t) {
        let i = choose|i: int| 0 <= i < mc.len() && (#[trigger] mc[i]).0 == x && t < mc[i].1;
        if i < w.len() {
            assert(mc[i] == w[i]);
        }
    }
}

impl NegativeCache {
    pub fn new() -> (r: NegativeCache)
        ensures
            r@ == Seq::<(Seq<char>, int)>::empty(),
    {
        let r = NegativeCache { entries: Vec::new() };
        proof {
            assert(r@ =~= Seq::<(Seq<char>, int)>::empty());
        }
        r
    }

    /// Whether `s` carries a mark that has not run out at `now`.
    pub fn is_known_empty(&self, s: &String, now: i64) -> (r: bool)
        ensures
            r == known_empty(self@, s@, now as int),
    {
        let mut i: usize = 0;
        while i < self.entries.len()
            invariant
                i <= self.entries@.len(),
                forall|j: int|
                    0 <= j < i ==> !(self@[j].0 == s@ && (now as int) < self@[j].1),
            decreases self.entries@.len() - i,
        {
            if self.entries[i].0 == *s && now < self.entries[i].1 {
                proof {
                    assert(self@[i as int].0 == s@);
                }
                return true;
            }
            i += 1;
        }
        false
    }

    /// Marks `s` as having no data until `EMPTY_STATION_TTL_SECS` after `now`.
    pub fn mark_empty(&mut self, s: &String, now: i64)
        requires
            now <= i64::MAX - EMPTY_STATION_TTL_SECS,
        ensures
            final(self)@ == marked(old(self)@, s@, now as int),
    {
        let ghost c = old(self)@;
        let mut kept: Vec<(String, i64)> = Vec::new();
        let mut i: usize = 0;
        while i < self.entries.len()
            invariant
                i <= self.entries@.len(),
                c == self@,
                kept@.map_values(|e: (String, i64)| (e.0@, e.1 as int)) == without(
                    c.subrange(0, i as int),
                    s@,
                ),
            decreases self.entries@.len() - i,
        {
            let e = &self.entries[i];
            proof {
                assert(c.subrange(0, i + 1).drop_last() =~= c.subrange(0, i as int));
                assert(c.subrange(0, i + 1).last() == c[i as int]);
            }
            if e.0 != *s {
                let ghost before = kept@;
                kept.push((e.0.clone(), e.1));
                proof {
                    assert(kept@.map_values(|e: (String, i64)| (e.0@, e.1 as int)) =~= before.map_values(
                        |e: (String, i64)| (e.0@, e.1 as int),
                    ).push(c[i as int]));
                }
            }
            i += 1;
        }
        proof {
            assert(c.subrange(0, i as int) =~= c);
        }
        let ghost before = kept@;
        kept.push((s.clone(), now + EMPTY_STATION_TTL_SECS));
        proof {
            assert(kept@.map_values(|e: (String, i64)| (e.0@, e.1 as int)) =~= before.map_values(
                |e: (String, i64)| (e.0@, e.1 as int),
            ).push((s@, now + EMPTY_STATION_TTL_SECS)));
        }
        self.entries = kept;
    }

    /// Marks each of `stations`, in order.
    pub fn mark_all_empty(&mut self, stations: &Vec<String>, now: i64)
        requires
            now <= i64::MAX - EMPTY_STATION_TTL_SECS,
        ensures
            final(self)@ == marked_all(old(self)@, strings_view(stations@), now as int),
    {
        let ghost ss = strings_view(stations@);
        let mut i: usize = 0;
        while i < stations.len()
            invariant
                i <= stations@.len(),
                now <= i64::MAX - EMPTY_STATION_TTL_SECS,
                ss == strings_view(stations@),
                self@ == marked_all(old(self)@, ss.subrange(0, i as int), now as int),
            decreases stations@.len() - i,
        {
            proof {
                assert(ss.subrange(0, i + 1).drop_last() =~= ss.subrange(0, i as int));
            }
            self.mark_empty(&stations[i], now);
            i += 1;
        }
        proof {
            assert(ss.subrange(0, i as int) =~= ss);
        }
    }
}

// ---- the lookup plan ----

/// The missing stations to look up: all of them when forced, else those
/// without a live mark, in order.
pub open spec fn planned(missing: Seq<Seq<char>>, c: CacheView, now: int, force: bool) -> Seq<Seq<char>>
    decreases missing.len(),
{
    if missing.len() == 0 {
        missing
    } else {
        let p = planned(missing.drop_last(), c, now, force);
        if force || !known_empty(c, missing.last(), now) {
            p.push(missing.last())
        } else {
            p
        }
    }
}

/// The stations looked up that no fetched report names, in order.
pub open spec fn unfetched(to_fetch: Seq<Seq<char>>, fetched: Seq<Metar>) -> Seq<Seq<char>>
    decreases to_fetch.len(),
{
    if to_fetch.len() == 0 {
        to_fetch
    } else {
        let p = unfetched(to_fetch.drop_last(), fetched);
        if !has_station(fetched, to_fetch.last()) {
            p.push(to_fetch.last())
        } else {
            p
        }
    }
}

proof fn lemma_contains_push(p: Seq<Seq<char>>, e: Seq<char>, x: Seq<char>)
    ensures
        p.push(e).contains(x) <==> (p.contains(x) || e == x),
{
    if p.contains(x) {
        let i = choose|i: int| 0 <= i < p.len() && p[i] == x;
        assert(p.push(e)[i] == x);
    }
    if e == x {
        assert(p.push(e)[p.len() as int] == x);
    }
    if p.push(e).contains(x) {
        let i = choose|i: int| 0 <= i < p.push(e).len() && p.push(e)[i] == x;
        if i < p.len() {
            assert(p[i] == x);
        }
    }
}

pub proof fn lemma_planned(missing: Seq<Seq<char>>, c: CacheView, now: int, force: bool, x: Seq<char>)
    ensures
        planned(missing, c, now, force).contains(x) <==> (missing.contains(x) && (force
            || !known_empty(c, x, now))),
    decreases missing.len(),
{
    if missing.len() > 0 {
        let p = missing.drop_last();
        lemma_planned(p, c, now, force, x);
        assert(missing =~= p.push(missing.last()));
        lemma_contains_push(p, missing.last(), x);
        lemma_contains_push(planned(p, c, now, force), missing.last(), x);
    }
}

pub proof fn lemma_unfetched(to_fetch: Seq<Seq<char>>, fetched: Seq<Metar>, x: Seq<char>)
    ensures
        unfetched(to_fetch, fetched).contains(x) <==> (to_fetch.contains(x) && !has_station(
            fetched,
            x,
        )),
    decreases to_fetch.len(),
{
    if to_fetch.len() > 0 {
        let p = to_fetch.drop_last();
        lemma_unfetched(p, fetched, x);
        assert(to_fetch =~= p.push(to_fetch.last()));
        lemma_contains_push(p, to_fetch.last(), x);
        lemma_contains_push(unfetched(p, fetched), to_fetch.last(), x);
    }
}

pub proof fn lemma_marked_all(c: CacheView, ss: Seq<Seq<char>>, now: int, x: Seq<char>, t: int)
    requires
        ss.contains(x),
        t < now + EMPTY_STATION_TTL_SECS,
    ensures
        known_empty(marked_all(c, ss, now), x, t),
    decreases ss.len(),
{
    let p = ss.drop_last();
    assert(ss =~= p.push(ss.last()));
    lemma_contains_push(p, ss.last(), x);
    lemma_marked(marked_all(c, p, now), ss.last(), now, x, t);
    if ss.last() != x {
        lemma_marked_all(c, p, now, x, t);
    }
}

/// A station that a request looked up and got no report for, once marked,
/// is not looked up again by a request made before the mark runs out,
/// unless that request is forced; a forced request looks it up whenever it
/// is missing.
pub proof fn lemma_empty_station_not_refetched(
    c: CacheView,
    to_fetch: Seq<Seq<char>>,
    fetched: Seq<Metar>,
    s: Seq<char>,
    t1: int,
    t2: int,
    missing: Seq<Seq<char>>,
)
    requires
        to_fetch.contains(s),
        !has_station(fetched, s),
        t1 <= t2 < t1 + EMPTY_STATION_TTL_SECS,
    ensures
        !planned(missing, marked_all(c, unfetched(to_fetch, fetched), t1), t2, false).contains(s),
        planned(missing, marked_all(c, unfetched(to_fetch, fetched), t1), t2, true).contains(s)
            == missing.contains(s),
{
    let c1 = marked_all(c, unfetched(to_fetch, fetched), t1);
    lemma_unfetched(to_fetch, fetched, s);
    lemma_marked_all(c, unfetched(to_fetch, fetched), t1, s, t2);
    lemma_planned(missing, c1, t2, false, s);
    lemma_planned(missing, c1, t2, true, s);
}

/// A stored report older than the staleness window makes its station
/// missing, and a forced request looks it up whatever the marks say.
pub proof fn lemma_stale_report_refetched(
    req: Seq<Seq<char>>,
    stored: Seq<Metar>,
    k: int,
    now: int,
    c: CacheView,
    missing: Seq<Seq<char>>,
)
    requires
        0 <= k < stored.len(),
        is_stale(stored[k], now),
        forall|x: Seq<char>| #[trigger] missing.contains(x) <==> is_missing(x, req, stored, now),
    ensures
        is_missing(stored[k].station_id@, req, stored, now),
        planned(missing, c, now, true).contains(stored[k].station_id@),
{
    let s = stored[k].station_id@;
    assert(is_missing(s, req, stored, now));
    assert(missing.contains(s));
    lemma_planned(missing, c, now, true, s);
}

/// The stations to look up now.
pub fn plan_fetch(missing: &Vec<String>, cache: &NegativeCache, now: i64, force: bool) -> (r: Vec<String>)
    ensures
        strings_view(r@) == planned(strings_view(missing@), cache@, now as int, force),
{
    let ghost ms = strings_view(missing@);
    let mut out: Vec<String> = Vec::new();
    proof {
        assert(strings_view(out@) =~= Seq::<Seq<char>>::empty());
        assert(ms.subrange(0, 0) =~= Seq::<Seq<char>>::empty());
    }
    let mut i: usize = 0;
    while i < missing.len()
        invariant
            i <= missing@.len(),
            ms == strings_view(missing@),
            strings_view(out@) == planned(ms.subrange(0, i as int), cache@, now as int, force),
        decreases missing@.len() - i,
    {
        proof {
            assert(ms.subrange(0, i + 1).drop_last() =~= ms.subrange(0, i as int));
        }
        if force || !cache.is_known_empty(&missing[i], now) {
            let ghost before = strings_view(out@);
            out.push(missing[i].clone());
            proof {
                assert(strings_view(out@) =~= before.push(ms[i as int]));
            }
        }
        i += 1;
    }
    proof {
        assert(ms.subrange(0, i as int) =~= ms);
    }
    out
}

/// The looked-up stations that no fetched report names: those to mark.
pub fn still_missing(to_fetch: &Vec<String>, fetched: &Vec<Metar>) -> (r: Vec<String>)
    ensures
        strings_view(r@) == unfetched(strings_view(to_fetch@), fetched@),
{
    let ghost ms = strings_view(to_fetch@);
    let mut out: Vec<String> = Vec::new();
    proof {
        assert(strings_view(out@) =~= Seq::<Seq<char>>::empty());
        assert(ms.subrange(0, 0) =~= Seq::<Seq<char>>::empty());
    }
    let mut i: usize = 0;
    while i < to_fetch.len()
        invariant
            i <= to_fetch@.len(),
            ms == strings_view(to_fetch@),
            strings_view(out@) == unfetched(ms.subrange(0, i as int), fetched@),
        decreases to_fetch@.len() - i,
    {
        proof {
            assert(ms.subrange(0, i + 1).drop_last() =~= ms.subrange(0, i as int));
        }
        if !has_station_of(fetched, &to_fetch[i]) {
            let ghost before = strings_view(out@);
            out.push(to_fetch[i].clone());
            proof {
                assert(strings_view(out@) =~= before.push(ms[i as int]));
            }
        }
        i += 1;
    }
    proof {
        assert(ms.subrange(0, i as int) =~= ms);
    }
    out
}

} // verus!
