//! Upstream lookups: station batches for each request, the reports a
//! response body holds, and the merge of fetched and stored reports.
use vstd::prelude::*;
use crate::calendar::{UtcTime, MIN_YEAR};
use crate::parser::parse_model;
use crate::report::{Metar, MetarView, strings_view};
use crate::text::{chars_of, string_from, joined, trim, trimmed};

verus! {

/// Stations named in one upstream request.
pub const BATCH_SIZE: usize = 10;

/// The identifiers separated by commas.
pub open spec fn join_ids(ids: Seq<Seq<char>>) -> Seq<char>
    decreases ids.len(),
{
    if ids.len() == 0 {
        Seq::empty()
    } else if ids.len() == 1 {
        ids[0]
    } else {
        join_ids(ids.drop_last()) + seq![','] + ids.last()
    }
}

/// The `k`-th batch of `ids`: ten in a row, the last batch possibly fewer.
pub open spec fn batch(ids: Seq<Seq<char>>, k: int) -> Seq<Seq<char>> {
    let lo = k * BATCH_SIZE;
    let hi = if lo + BATCH_SIZE < ids.len() { lo + BATCH_SIZE } else { ids.len() as int };
    ids.subrange(lo, hi)
}

pub open spec fn batch_count(n: int) -> int {
    (n + BATCH_SIZE - 1) / BATCH_SIZE as int
}

/// The query string of each batch, in order.
pub fn batch_queries(ids: &Vec<String>) -> (r: Vec<String>)
    ensures
        r@.len() == batch_count(ids@.len() as int),
        forall|k: int| 0 <= k < r@.len() ==> (#[trigger] r@[k])@ == join_ids(
            batch(strings_view(ids@), k),
        ),
{
    let ghost v = strings_view(ids@);
    let n = ids.len();
    let count = n / BATCH_SIZE + if n % BATCH_SIZE == 0 { 0 } else { 1 };
    proof {
        assert(count == batch_count(n as int)) by (nonlinear_arith)
            requires
                count == n / 10 + if n % 10 == 0 { 0int } else { 1int },
                BATCH_SIZE == 10,
        ;
    }
    let mut out: Vec<String> = Vec::new();
    while out.len() < count
        invariant
            n == ids@.len(),
            v == strings_view(ids@),
            count == batch_count(n as int),
            out@.len() <= count,
            forall|k: int| 0 <= k < out@.len() ==> (#[trigger] out@[k])@ == join_ids(batch(v, k)),
        decreases count - out@.len(),
    {
        let k = out.len();
        proof {
            assert(k * 10 < n) by (nonlinear_arith)
                requires
                    k < count,
                    count == (n + 9) / 10,
            ;
        }
        let lo = k * BATCH_SIZE;
        let hi = if n - lo > BATCH_SIZE { lo + BATCH_SIZE } else { n };
        let mut cur: Vec<char> = Vec::new();
        let mut j = lo;
        while j < hi
            invariant
                lo <= j <= hi <= n,
                n == ids@.len(),
                v == strings_view(ids@),
                cur@ == join_ids(v.subrange(lo as int, j as int)),
            decreases hi - j,
        {
            let id = chars_of(ids[j].as_str());
            proof {
                let s = v.subrange(lo as int, j + 1);
                assert(s.drop_last() =~= v.subrange(lo as int, j as int));
                assert(s.last() == ids@[j as int]@);
            }
            if j > lo {
                let mut comma: Vec<char> = Vec::new();
                comma.push(',');
                let with_comma = joined(&cur, &comma);
                cur = joined(&with_comma, &id);
                proof {
                    assert(comma@ =~= seq![',']);
                }
            } else {
                cur = id;
                proof {
                    let s = v.subrange(lo as int, j + 1);
                    assert(s.len() == 1);
                }
            }
            j += 1;
        }
        proof {
            assert(batch(v, k as int) =~= v.subrange(lo as int, hi as int));
        }
        out.push(string_from(&cur));
    }
    out
}

// ---- response bodies ----

/// Reading `s` left to right: the lines completed so far, and the line in
/// progress.
pub open spec fn line_state(s: Seq<char>) -> (Seq<Seq<char>>, Seq<char>)
    decreases s.len(),
{
    if s.len() == 0 {
        (Seq::empty(), Seq::empty())
    } else {
        let (done, cur) = line_state(s.drop_last());
        if s.last() == '\n' {
            (done.push(cur), Seq::empty())
        } else {
            (done, cur.push(s.last()))
        }
    }
}

/// The newline-separated lines of `s`.
pub open spec fn lines(s: Seq<char>) -> Seq<Seq<char>> {
    let (done, cur) = line_state(s);
    done.push(cur)
}

/// The reports that the lines hold, in order, skipping lines that are not
/// reports (blank ones among them).
pub open spec fn parsed_reports(ls: Seq<Seq<char>>, now: UtcTime) -> Seq<MetarView>
    decreases ls.len(),
{
    if ls.len() == 0 {
        Seq::empty()
    } else {
        let p = parsed_reports(ls.drop_last(), now);
        match parse_model(ls.last(), now) {
            Ok(v) => p.push(v),
            Err(_) => p,
        }
    }
}

pub open spec fn metars_view(v: Seq<Metar>) -> Seq<MetarView> {
    v.map_values(|m: Metar| m@)
}

/// The lines of a response body, once its leading and trailing spaces are
/// trimmed.
pub fn response_lines(body: &str) -> (r: Vec<String>)
    ensures
        strings_view(r@) == lines(trim(body@)),
{
    let cs = trimmed(&chars_of(body));
    let mut done: Vec<String> = Vec::new();
    let mut cur: Vec<char> = Vec::new();
    let mut i: usize = 0;
    while i < cs.len()
        invariant
            i <= cs@.len(),
            (strings_view(done@), cur@) == line_state(cs@.subrange(0, i as int)),
        decreases cs@.len() - i,
    {
        let c = cs[i];
        proof {
            let p = cs@.subrange(0, i as int + 1);
            assert(p.drop_last() =~= cs@.subrange(0, i as int));
            assert(p.last() == c);
        }
        if c == '\n' {
            let line = string_from(&cur);
            let ghost before = strings_view(done@);
            done.push(line);
            proof {
                assert(strings_view(done@) =~= before.push(cur@));
            }
            cur = Vec::new();
        } else {
            cur.push(c);
        }
        i += 1;
    }
    proof {
        assert(cs@.subrange(0, i as int) =~= cs@);
    }
    let line = string_from(&cur);
    let ghost before = strings_view(done@);
    done.push(line);
    proof {
        assert(strings_view(done@) =~= before.push(cur@));
    }
    done
}

impl Metar {
    /// The reports among the lines, in order; lines that are not reports are
    /// skipped.
    pub fn parse_multiple(metar_strings: &Vec<String>, now: &UtcTime) -> (r: Vec<Metar>)
        requires
            now.wf(),
            now.year >= MIN_YEAR + 1,
        ensures
            metars_view(r@) == parsed_reports(strings_view(metar_strings@), *now),
    {
        let ghost ls = strings_view(metar_strings@);
        let mut out: Vec<Metar> = Vec::new();
        proof {
            assert(metars_view(out@) =~= Seq::<MetarView>::empty());
        }
        let mut i: usize = 0;
        while i < metar_strings.len()
            invariant
                i <= metar_strings@.len(),
                ls == strings_view(metar_strings@),
                now.wf(),
                now.year >= MIN_YEAR + 1,
                metars_view(out@) == parsed_reports(ls.subrange(0, i as int), *now),
            decreases metar_strings@.len() - i,
        {
            proof {
                let s = ls.subrange(0, i + 1);
                assert(s.drop_last() =~= ls.subrange(0, i as int));
                assert(s.last() == metar_strings@[i as int]@);
            }
            match Metar::parse(metar_strings[i].as_str(), now) {
                Ok(m) => {
                    let ghost before = metars_view(out@);
                    let ghost mv = m@;
                    out.push(m);
                    proof {
                        assert(metars_view(out@) =~= before.push(mv));
                    }
                },
                Err(_) => {},
            }
            i += 1;
        }
        proof {
            assert(ls.subrange(0, i as int) =~= ls);
        }
        out
    }

    /// The reports that a response body holds.
    pub fn parse_response(body: &str, now: &UtcTime) -> (r: Vec<Metar>)
        requires
            now.wf(),
            now.year >= MIN_YEAR + 1,
        ensures
            metars_view(r@) == parsed_reports(lines(trim(body@)), *now),
    {
        let ls = response_lines(body);
        Metar::parse_multiple(&ls, now)
    }
}

// ---- merging ----

pub open spec fn view_has_station(v: Seq<MetarView>, s: Seq<char>) -> bool {
    exists|j: int| 0 <= j < v.len() && (#[trigger] v[j]).station_id == s
}

/// `acc` followed by the reports of `v` whose station it does not hold yet.
pub open spec fn merged(acc: Seq<MetarView>, v: Seq<MetarView>) -> Seq<MetarView>
    decreases v.len(),
{
    if v.len() == 0 {
        acc
    } else {
        let p = merged(acc, v.drop_last());
        if view_has_station(p, v.last().station_id) {
            p
        } else {
            p.push(v.last())
        }
    }
}

/// One report per station: fetched reports first, then stored reports for
/// stations that nothing was fetched for.
pub open spec fn merge_model(fetched: Seq<MetarView>, stored: Seq<MetarView>) -> Seq<MetarView> {
    merged(merged(Seq::empty(), fetched), stored)
}

fn view_has_station_of(v: &Vec<Metar>, s: &String) -> (r: bool)
    ensures
        r == view_has_station(metars_view(v@), s@),
{
    let mut i: usize = 0;
    while i < v.len()
        invariant
            i <= v@.len(),
            forall|j: int| 0 <= j < i ==> v@[j].station_id@ != s@,
        decreases v@.len() - i,
    {
        if v[i].station_id == *s {
            proof {
                assert(metars_view(v@)[i as int].station_id == s@);
            }
            return true;
        }
        i += 1;
    }
    proof {
        if view_has_station(metars_view(v@), s@) {
            let j = choose|j: int| 0 <= j < metars_view(v@).len() && (#[trigger] metars_view(v@)[j]).station_id == s@;
            assert(v@[j].station_id@ == s@);
        }
    }
    false
}

fn merge_into(acc: &mut Vec<Metar>, v: Vec<Metar>)
    ensures
        metars_view(final(acc)@) == merged(metars_view(old(acc)@), metars_view(v@)),
{
    let ghost vv = metars_view(v@);
    let ghost a0 = metars_view(acc@);
    let mut rest = v;
    let total = rest.len();
    let mut i: usize = 0;
    proof {
        assert(vv.subrange(0, 0) =~= Seq::<MetarView>::empty());
        assert(metars_view(rest@) =~= vv.skip(0));
    }
    while rest.len() > 0
        invariant
            i <= vv.len(),
            vv.len() == total,
            metars_view(rest@) == vv.skip(i as int),
            metars_view(acc@) == merged(a0, vv.subrange(0, i as int)),
        decreases rest@.len(),
    {
        let ghost old_rest = rest@;
        proof {
            assert(metars_view(old_rest).len() == old_rest.len());
            assert(i < vv.len());
        }
        let m = rest.remove(0);
        proof {
            assert(old_rest[0] == m);
            assert(metars_view(old_rest)[0] == m@);
            assert(vv.skip(i as int)[0] == m@);
            assert(rest@ =~= old_rest.subrange(1, old_rest.len() as int));
            assert forall|j: int| 0 <= j < rest@.len() implies metars_view(rest@)[j] == vv.skip(i + 1)[j] by {
                assert(rest@[j] == old_rest[j + 1]);
                assert(metars_view(old_rest)[j + 1] == vv.skip(i as int)[j + 1]);
            }
            assert(metars_view(rest@) =~= vv.skip(i + 1));
            let s = vv.subrange(0, i + 1);
            assert(s.drop_last() =~= vv.subrange(0, i as int));
            assert(s.last() == m@);
        }
        if !view_has_station_of(acc, &m.station_id) {
            let ghost before = metars_view(acc@);
            let ghost mv = m@;
            acc.push(m);
            proof {
                assert(metars_view(acc@) =~= before.push(mv));
            }
        }
        i += 1;
    }
    proof {
        assert(vv.subrange(0, i as int) =~= vv);
    }
}

/// The reports to return: one per station, a fetched report winning over a
/// stored one.
pub fn merge_reports(fetched: Vec<Metar>, stored: Vec<Metar>) -> (r: Vec<Metar>)
    ensures
        metars_view(r@) == merge_model(metars_view(fetched@), metars_view(stored@)),
{
    let mut out: Vec<Metar> = Vec::new();
    proof {
        assert(metars_view(out@) =~= Seq::<MetarView>::empty());
    }
    merge_into(&mut out, fetched);
    merge_into(&mut out, stored);
    out
}

pub open spec fn unique_stations(v: Seq<MetarView>) -> bool {
    forall|i: int, j: int| 0 <= i < j < v.len() ==> (#[trigger] v[i]).station_id != (#[trigger] v[j]).station_id
}

proof fn lemma_merged(acc: Seq<MetarView>, v: Seq<MetarView>)
    ensures
        unique_stations(acc) ==> unique_stations(merged(acc, v)),
        merged(acc, v).len() >= acc.len(),
        merged(acc, v).subrange(0, acc.len() as int) == acc,
        forall|x: Seq<char>| #[trigger] view_has_station(merged(acc, v), x) <==> (view_has_station(acc, x) || view_has_station(v, x)),
        forall|i: int| 0 <= i < merged(acc, v).len() ==> (acc.contains(#[trigger] merged(acc, v)[i]) || v.contains(merged(acc, v)[i])),
        forall|i: int| acc.len() <= i < merged(acc, v).len() ==> !view_has_station(acc, (#[trigger] merged(acc, v)[i]).station_id),
    decreases v.len(),
{
    if v.len() > 0 {
        let p = v.drop_last();
        let e = v.last();
        lemma_merged(acc, p);
        let mp = merged(acc, p);
        let r = merged(acc, v);
        assert(v =~= p.push(e));
        assert forall|x: Seq<char>| #[trigger] view_has_station(v, x) <==> (view_has_station(p, x) || e.station_id == x) by {
            if view_has_station(v, x) {
                let j = choose|j: int| 0 <= j < v.len() && (#[trigger] v[j]).station_id == x;
                if j < p.len() {
                    assert(p[j] == v[j]);
                }
            }
            if view_has_station(p, x) {
                let j = choose|j: int| 0 <= j < p.len() && (#[trigger] p[j]).station_id == x;
                assert(v[j] == p[j]);
            }
            if e.station_id == x {
                assert(v[v.len() - 1] == e);
            }
        }
        assert forall|i: int| 0 <= i < r.len() implies (acc.contains(#[trigger] r[i]) || v.contains(r[i])) by {
            if i < mp.len() {
                assert(r[i] == mp[i]);
                if p.contains(mp[i]) {
                    let j = choose|j: int| 0 <= j < p.len() && p[j] == mp[i];
                    assert(v[j] == p[j]);
                }
            } else {
                assert(r[i] == e);
                assert(v[v.len() - 1] == e);
            }
        }
        if !view_has_station(mp, e.station_id) {
            assert(r == mp.push(e));
            assert forall|x: Seq<char>| #[trigger] view_has_station(r, x) <==> (view_has_station(mp, x) || e.station_id == x) by {
                if view_has_station(r, x) {
                    let j = choose|j: int| 0 <= j < r.len() && (#[trigger] r[j]).station_id == x;
                    if j < mp.len() {
                        assert(mp[j] == r[j]);
                    }
                }
                if view_has_station(mp, x) {
                    let j = choose|j: int| 0 <= j < mp.len() && (#[trigger] mp[j]).station_id == x;
                    assert(r[j] == mp[j]);
                }
                if e.station_id == x {
                    assert(r[mp.len() as int] == e);
                }
            }
            assert(r.subrange(0, acc.len() as int) =~= mp.subrange(0, acc.len() as int));
            if unique_stations(acc) {
                assert forall|i: int, j: int| 0 <= i < j < r.len() implies (#[trigger] r[i]).station_id != (#[trigger] r[j]).station_id by {
                    if j == mp.len() {
                        assert(r[i] == mp[i]);
                        if mp[i].station_id == e.station_id {
                            assert(view_has_station(mp, e.station_id));
                        }
                    } else {
                        assert(r[i] == mp[i] && r[j] == mp[j]);
                    }
                }
            }
            assert forall|i: int| acc.len() <= i < r.len() implies !view_has_station(acc, (#[trigger] r[i]).station_id) by {
                if i < mp.len() {
                    assert(r[i] == mp[i]);
                } else {
                    assert(r[i] == e);
                }
            }
        }
    }
}

/// The merged reports name each station once, name exactly the stations of
/// the fetched and the stored reports, and a station that was fetched has
/// its fetched report.
pub proof fn lemma_merge_prefers_fetched(fetched: Seq<MetarView>, stored: Seq<MetarView>)
    ensures
        unique_stations(merge_model(fetched, stored)),
        forall|x: Seq<char>| #[trigger] view_has_station(merge_model(fetched, stored), x) <==> (
            view_has_station(fetched, x) || view_has_station(stored, x)),
        forall|i: int|
            0 <= i < merge_model(fetched, stored).len() && view_has_station(
                fetched,
                (#[trigger] merge_model(fetched, stored)[i]).station_id,
            ) ==> fetched.contains(merge_model(fetched, stored)[i]),
{
    let e = Seq::<MetarView>::empty();
    lemma_merged(e, fetched);
    let m1 = merged(e, fetched);
    lemma_merged(m1, stored);
    let r = merged(m1, stored);
    assert(unique_stations(e));
    assert forall|x: Seq<char>| #[trigger] view_has_station(r, x) <==> (view_has_station(fetched, x) || view_has_station(stored, x)) by {
        assert(view_has_station(r, x) <==> (view_has_station(m1, x) || view_has_station(stored, x)));
        assert(view_has_station(m1, x) <==> (view_has_station(e, x) || view_has_station(fetched, x)));
    }
    assert forall|i: int| 0 <= i < r.len() && view_has_station(fetched, (#[trigger] r[i]).station_id) implies fetched.contains(r[i]) by {
        if i >= m1.len() {
            assert(!view_has_station(m1, r[i].station_id));
            assert(view_has_station(m1, r[i].station_id) <==> (view_has_station(e, r[i].station_id) || view_has_station(fetched, r[i].station_id)));
        } else {
            assert(r.subrange(0, m1.len() as int)[i] == m1[i]);
            assert(e.contains(m1[i]) || fetched.contains(m1[i]));
        }
    }
}

} // verus!
