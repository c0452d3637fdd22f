//! Calendar arithmetic on UTC date-times: month lengths, the instant a
//! date-time names, and the month a day-of-month group belongs to.
use vstd::prelude::*;

verus! {

/// Earliest year a `UtcTime` may carry.
pub const MIN_YEAR: i32 = 0;

/// Latest year a `UtcTime` may carry.
pub const MAX_YEAR: i32 = 9999;

/// A calendar date and time of day in UTC.
#[derive(Clone, Copy, Debug, PartialEq, Eq, Structural)]
pub struct UtcTime {
    pub year: i32,
    pub month: u32,
    pub day: u32,
    pub hour: u32,
    pub minute: u32,
    pub second: u32,
}

pub open spec fn is_leap_year(y: int) -> bool {
    (y % 4 == 0 && y % 100 != 0) || y % 400 == 0
}

/// Days in month `m` (1 to 12) of year `y`.
pub open spec fn days_in_month(y: int, m: int) -> int {
    if m == 2 {
        if is_leap_year(y) { 29 } else { 28 }
    } else if m == 4 || m == 6 || m == 9 || m == 11 {
        30
    } else {
        31
    }
}

/// Days from 1970-01-01 to the given date of the proleptic Gregorian calendar.
pub open spec fn days_from_civil(y: int, m: int, d: int) -> int {
    let yp = if m <= 2 { y - 1 } else { y };
    let era = yp / 400;
    let yoe = yp % 400;
    let mp = if m > 2 { m - 3 } else { m + 9 };
    let doy = (153 * mp + 2) / 5 + d - 1;
    let doe = yoe * 365 + yoe / 4 - yoe / 100 + doy;
    era * 146097 + doe - 719468
}

/// The month `k` months before month `m` of year `y`, as (year, month).
pub open spec fn months_before(y: int, m: int, k: int) -> (int, int) {
    let total = y * 12 + (m - 1) - k;
    (total / 12, total % 12 + 1)
}

impl UtcTime {
    pub open spec fn wf(&self) -> bool {
        &&& MIN_YEAR <= self.year <= MAX_YEAR
        &&& 1 <= self.month <= 12
        &&& 1 <= self.day <= days_in_month(self.year as int, self.month as int)
        &&& self.hour < 24
        &&& self.minute < 60
        &&& self.second < 60
    }

    /// Seconds since 1970-01-01T00:00:00Z, leap seconds not counted.
    pub open spec fn spec_unix_seconds(&self) -> int {
        days_from_civil(self.year as int, self.month as int, self.day as int) * 86400
            + self.hour * 3600 + self.minute * 60 + self.second
    }

    /// Whether this is a valid date-time of the years this library handles.
    pub fn is_valid(&self) -> (r: bool)
        ensures
            r == self.wf(),
    {
        MIN_YEAR <= self.year && self.year <= MAX_YEAR && 1 <= self.month && self.month <= 12
            && 1 <= self.day && self.day <= days_in_month_of(self.year, self.month) && self.hour
            < 24 && self.minute < 60 && self.second < 60
    }

    pub fn unix_seconds(&self) -> (r: i64)
        requires
            self.wf(),
        ensures
            r == self.spec_unix_seconds(),
    {
        let y = self.year as i64;
        let m = self.month as i64;
        let d = self.day as i64;
        let yp: i64 = if m <= 2 { y - 1 } else { y };
        // yp >= -1, so shifting by one era keeps the division on non-negative values
        let shifted: i64 = yp + 400;
        let era: i64 = shifted / 400 - 1;
        let yoe: i64 = shifted % 400;
        proof {
            assert(era == yp as int / 400 && yoe == yp as int % 400) by {
                assert(shifted as int == yp as int + 400);
            }
        }
        let mp: i64 = if m > 2 { m - 3 } else { m + 9 };
        let doy: i64 = (153 * mp + 2) / 5 + d - 1;
        let doe: i64 = yoe * 365 + yoe / 4 - yoe / 100 + doy;
        let days: i64 = era * 146097 + doe - 719468;
        days * 86400 + (self.hour as i64) * 3600 + (self.minute as i64) * 60 + self.second as i64
    }
}

pub fn days_in_month_of(y: i32, m: u32) -> (r: u32)
    requires
        1 <= m <= 12,
    ensures
        r == days_in_month(y as int, m as int),
{
    if m == 2 {
        if (y % 4 == 0 && y % 100 != 0) || y % 400 == 0 {
            29
        } else {
            28
        }
    } else if m == 4 || m == 6 || m == 9 || m == 11 {
        30
    } else {
        31
    }
}

/// Seconds a report's time may lie ahead of the clock, for clock skew.
pub const FUTURE_TOLERANCE_SECS: i64 = 300;

/// The given day-of-month and time of day in the month `k` months before
/// the current one (`k = -1` is the next month).
pub open spec fn candidate(day: int, hour: int, minute: int, now: UtcTime, k: int) -> UtcTime {
    let p = months_before(now.year as int, now.month as int, k);
    UtcTime {
        year: p.0 as i32,
        month: p.1 as u32,
        day: day as u32,
        hour: hour as u32,
        minute: minute as u32,
        second: 0,
    }
}

/// A valid date-time at most `FUTURE_TOLERANCE_SECS` after `now`.
pub open spec fn fits(c: UtcTime, now: UtcTime) -> bool {
    c.wf() && c.spec_unix_seconds() <= now.spec_unix_seconds() + FUTURE_TOLERANCE_SECS
}

/// The instant a day/hour/minute group names, seen at `now`: the latest of
/// the candidates in the next, current and two previous months that fits.
pub open spec fn observation_instant(day: int, hour: int, minute: int, now: UtcTime) -> UtcTime {
    if fits(candidate(day, hour, minute, now, -1), now) {
        candidate(day, hour, minute, now, -1)
    } else if fits(candidate(day, hour, minute, now, 0), now) {
        candidate(day, hour, minute, now, 0)
    } else if fits(candidate(day, hour, minute, now, 1), now) {
        candidate(day, hour, minute, now, 1)
    } else {
        candidate(day, hour, minute, now, 2)
    }
}

proof fn lemma_months_before(y: int, m: int, k: int)
    requires
        1 <= m <= 12,
        -1 <= k <= 2,
    ensures
        ({
            let p = months_before(y, m, k);
            &&& 1 <= p.1 <= 12
            &&& month_index(p.0, p.1) == month_index(y, m) - k
            &&& (k == 0 ==> p == (y, m))
            &&& (k == -1 && m < 12 ==> p == (y, m + 1))
            &&& (k == -1 && m == 12 ==> p == (y + 1, 1int))
            &&& (k > 0 && m > k ==> p == (y, m - k))
            &&& (k > 0 && m <= k ==> p == (y - 1, m - k + 12))
        }),
{
}

/// The observation instant keeps the day, hour and minute, is a valid
/// date-time at most `FUTURE_TOLERANCE_SECS` after `now`, and no later
/// instant with that day, hour and minute is.
pub proof fn lemma_observation_instant(day: int, hour: int, minute: int, now: UtcTime)
    requires
        now.wf(),
        now.year >= MIN_YEAR + 1,
        1 <= day <= 31,
        0 <= hour < 24,
        0 <= minute < 60,
    ensures
        ({
            let r = observation_instant(day, hour, minute, now);
            &&& r.wf()
            &&& r.day == day && r.hour == hour && r.minute == minute && r.second == 0
            &&& r.spec_unix_seconds() <= now.spec_unix_seconds() + FUTURE_TOLERANCE_SECS
            &&& now.year - 1 <= r.year
            &&& forall|t: UtcTime|
                #![trigger t.spec_unix_seconds()]
                t.wf() && t.day == day && t.hour == hour && t.minute == minute && t.second == 0
                    && t.spec_unix_seconds() <= now.spec_unix_seconds() + FUTURE_TOLERANCE_SECS
                    ==> t.spec_unix_seconds() <= r.spec_unix_seconds()
        }),
{
    let y = now.year as int;
    let m = now.month as int;
    let n = month_index(y, m);
    lemma_months_before(y, m, -1);
    lemma_months_before(y, m, 0);
    lemma_months_before(y, m, 1);
    lemma_months_before(y, m, 2);
    let c1 = candidate(day, hour, minute, now, 1);
    let c2 = candidate(day, hour, minute, now, 2);
    if day <= days_in_month(c1.year as int, c1.month as int) {
        assert(c1.wf());
        lemma_earlier_month(c1, now);
        assert(fits(c1, now));
    } else {
        assert(c2.wf());
        lemma_earlier_month(c2, now);
        assert(fits(c2, now));
    }
    let r = observation_instant(day, hour, minute, now);
    assert(fits(r, now));
    assert forall|t: UtcTime|
        #![trigger t.spec_unix_seconds()]
        t.wf() && t.day == day && t.hour == hour && t.minute == minute && t.second == 0
            && t.spec_unix_seconds() <= now.spec_unix_seconds() + FUTURE_TOLERANCE_SECS
            implies t.spec_unix_seconds() <= r.spec_unix_seconds() by {
        let mt = month_index(t.year as int, t.month as int);
        let mr = month_index(r.year as int, r.month as int);
        lemma_month_of(t);
        lemma_month_of(r);
        if mt < mr {
            lemma_earlier_month(t, r);
        } else if mt == mr {
            assert(t == r);
        } else if mt >= n + 2 {
            let u = UtcTime {
                year: ((n + 1) / 12) as i32,
                month: ((n + 1) % 12 + 1) as u32,
                day: 1,
                hour: 0,
                minute: 0,
                second: 0,
            };
            assert(u.wf());
            lemma_earlier_month(now, u);
            lemma_month_of(u);
            lemma_next_month(n + 1);
            if n + 2 < mt {
                lemma_month_order(n + 2, mt);
            }
            assert(month_start(n + 2) <= month_start(mt));
        } else {
            let kt = n - mt;
            lemma_months_before(y, m, kt);
            assert(t == candidate(day, hour, minute, now, kt));
        }
    }
}

/// The instant of `observation_instant`, computed.
pub fn observation_instant_of(day: u32, hour: u32, minute: u32, now: &UtcTime) -> (r: UtcTime)
    requires
        now.wf(),
        now.year >= MIN_YEAR + 1,
        1 <= day <= 31,
        hour < 24,
        minute < 60,
    ensures
        r == observation_instant(day as int, hour as int, minute as int, *now),
{
    proof {
        lemma_months_before(now.year as int, now.month as int, -1);
        lemma_months_before(now.year as int, now.month as int, 0);
        lemma_months_before(now.year as int, now.month as int, 1);
        lemma_months_before(now.year as int, now.month as int, 2);
    }
    let limit = now.unix_seconds() + FUTURE_TOLERANCE_SECS;
    let (yn, mn) = if now.month < 12 { (now.year, now.month + 1) } else { (now.year + 1, 1) };
    let c = UtcTime { year: yn, month: mn, day, hour, minute, second: 0 };
    if c.is_valid() && c.unix_seconds() <= limit {
        return c;
    }
    let c = UtcTime { year: now.year, month: now.month, day, hour, minute, second: 0 };
    if c.is_valid() && c.unix_seconds() <= limit {
        return c;
    }
    let (y1, m1) = if now.month > 1 { (now.year, now.month - 1) } else { (now.year - 1, 12) };
    let c = UtcTime { year: y1, month: m1, day, hour, minute, second: 0 };
    if c.is_valid() && c.unix_seconds() <= limit {
        return c;
    }
    let (y2, m2) = if now.month > 2 { (now.year, now.month - 2) } else { (now.year - 1, now.month + 10) };
    UtcTime { year: y2, month: m2, day, hour, minute, second: 0 }
}

// ---- order of instants ----

/// Months since year 0, January.
pub open spec fn month_index(y: int, m: int) -> int {
    y * 12 + m - 1
}

/// Day number of the first day of month `mi`.
pub open spec fn month_start(mi: int) -> int {
    days_from_civil(mi / 12, mi % 12 + 1, 1)
}

pub open spec fn month_len(mi: int) -> int {
    days_in_month(mi / 12, mi % 12 + 1)
}

/// Days in the March-based year `a` (March of `a` to February of `a + 1`),
/// as the era arithmetic of `days_from_civil` counts them.
proof fn lemma_era_step(a: int)
    ensures
        ({
            let e0 = (a / 400) * 146097 + (a % 400) * 365 + (a % 400) / 4 - (a % 400) / 100;
            let b = a + 1;
            let e1 = (b / 400) * 146097 + (b % 400) * 365 + (b % 400) / 4 - (b % 400) / 100;
            e1 == e0 + 365 + if is_leap_year(b) { 1int } else { 0int }
        }),
{
    let q = a / 400;
    let r = a % 400;
    assert(a == 400 * q + r && 0 <= r < 400);
    let b = a + 1;
    if r < 399 {
        assert(b / 400 == q && b % 400 == r + 1);
        assert(b % 4 == (r + 1) % 4);
        assert(b % 100 == (r + 1) % 100);
        assert(b % 400 != 0);
    } else {
        assert(b / 400 == q + 1 && b % 400 == 0);
        assert(b % 4 == 0 && b % 100 == 0);
    }
}

proof fn lemma_next_month(mi: int)
    ensures
        month_start(mi + 1) == month_start(mi) + month_len(mi),
        28 <= month_len(mi) <= 31,
{
    let y = mi / 12;
    let m = mi % 12 + 1;
    assert(mi == 12 * y + m - 1 && 1 <= m <= 12);
    if m < 12 {
        assert((mi + 1) / 12 == y && (mi + 1) % 12 + 1 == m + 1);
        if m == 2 {
            lemma_era_step(y - 1);
        }
    } else {
        assert((mi + 1) / 12 == y + 1 && (mi + 1) % 12 + 1 == 1);
    }
}

proof fn lemma_month_order(m1: int, m2: int)
    requires
        m1 < m2,
    ensures
        month_start(m1) + month_len(m1) <= month_start(m2),
    decreases m2 - m1,
{
    lemma_next_month(m1);
    if m1 + 1 < m2 {
        lemma_month_order(m1 + 1, m2);
        lemma_next_month(m1 + 1);
    }
}

proof fn lemma_month_of(t: UtcTime)
    requires
        t.wf(),
    ensures
        month_index(t.year as int, t.month as int) / 12 == t.year,
        month_index(t.year as int, t.month as int) % 12 + 1 == t.month,
        days_from_civil(t.year as int, t.month as int, t.day as int) == month_start(
            month_index(t.year as int, t.month as int),
        ) + t.day - 1,
        days_in_month(t.year as int, t.month as int) == month_len(month_index(t.year as int, t.month as int)),
{
}

/// An instant in an earlier month comes earlier.
pub proof fn lemma_earlier_month(t1: UtcTime, t2: UtcTime)
    requires
        t1.wf(),
        t2.wf(),
        month_index(t1.year as int, t1.month as int) < month_index(t2.year as int, t2.month as int),
    ensures
        t1.spec_unix_seconds() < t2.spec_unix_seconds() - t2.hour * 3600 - t2.minute * 60 - t2.second,
{
    lemma_month_of(t1);
    lemma_month_of(t2);
    lemma_month_order(
        month_index(t1.year as int, t1.month as int),
        month_index(t2.year as int, t2.month as int),
    );
}

} // verus!
