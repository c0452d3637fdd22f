//! The report parser: a fixed sequence of optional groups applied to the
//! tokens that remain, repeated until none remain.
use vstd::prelude::*;
use crate::calendar::{UtcTime, observation_instant, observation_instant_of, lemma_observation_instant, FUTURE_TOLERANCE_SECS, MIN_YEAR};
use crate::classify::{classify, flight_category};
use crate::decimal::{render_quotient, render_hundredths, render_quotient_of, render_hundredths_of};
use crate::grammar::{wind_unit_len, is_wind_group, is_speed_unit, knot_factor, has_gust, wind_unit_len_of, is_wind_group_of, is_speed_unit_of, is_variable_wind, is_variable_wind_of, bound_prefix_len, is_fraction, sm_core, is_vis_sm, is_vis_meters, MILES_PER_METER_E9, meters_to_hundredth_miles, is_fraction_of, bound_prefix_len_of, is_vis_sm_of, is_vis_meters_of, is_rvr_value, rvr_range, is_rvr, is_rvr_value_of, is_rvr_of, is_weather, is_weather_of, is_clear_code, cover_len, base_len, is_sky, cover_len_of, base_len_of, is_clear_code_of, is_sky_of, is_temp_group, temp_part_tenths, is_temp_group_of, temp_part_tenths_of, is_altimeter, is_qnh, is_altimeter_of, is_qnh_of, is_slp, slp_tenths, is_hourly_temp, signed_tenths, is_peak_wind, is_slp_of, is_hourly_temp_of, is_peak_wind_of};
use crate::report::{FlightCategory, PeakWind, RunwayVisualRange, SkyCondition, Remarks, Metar, RunwayVisualRangeView, SkyConditionView, RemarksView, MetarView, strings_view, rvrs_view, skies_view, empty_remarks};
use crate::text::{chars_of, string_from, split_words, words, view_words, is_word, digits_in, number, number_of, all_digits, index_of, index_of_char, lemma_index_of, lemma_number_bound, slice_of, joined, pow10};

verus! {

pub type Tokens = Seq<Seq<char>>;

/// Why a line is not a report.
#[derive(Clone, Copy, Debug, PartialEq, Eq, Structural)]
pub enum ParseError {
    /// Fewer than four tokens.
    TooFewTokens,
    /// The day/hour/minute group is not six digits and `Z` naming a valid
    /// day (1 to 31), hour and minute.
    MalformedTime,
}

pub open spec fn rest_at(toks: Seq<Vec<char>>, i: int) -> Tokens {
    view_words(toks).skip(i)
}

proof fn lemma_rest(toks: Seq<Vec<char>>, i: int, n: int)
    requires
        0 <= i,
        0 <= n,
        i + n <= toks.len(),
    ensures
        rest_at(toks, i).skip(n) == rest_at(toks, i + n),
        rest_at(toks, i).len() == toks.len() - i,
        i < toks.len() ==> rest_at(toks, i)[0] == toks[i]@,
        i + 1 < toks.len() ==> rest_at(toks, i)[1] == toks[i + 1]@,
{
    assert(rest_at(toks, i).skip(n) =~= rest_at(toks, i + n));
}

// ---- report modifiers ----

pub open spec fn modifiers(rest: Tokens, m: MetarView) -> (Tokens, MetarView) {
    let (r1, m1) = if rest.len() > 0 && rest[0] == "AUTO"@ {
        (rest.skip(1), MetarView { remarks: RemarksView { auto: Some(true), ..m.remarks }, ..m })
    } else {
        (rest, m)
    };
    let (r2, m2) = if r1.len() > 0 && r1[0] == "COR"@ {
        (r1.skip(1), MetarView { remarks: RemarksView { corrected: Some(true), ..m1.remarks }, ..m1 })
    } else {
        (r1, m1)
    };
    if r2.len() > 0 && r2[0] == "NOSIG"@ {
        (
            r2.skip(1),
            MetarView {
                remarks: RemarksView { no_significant_change: Some(true), ..m2.remarks },
                ..m2
            },
        )
    } else {
        (r2, m2)
    }
}

fn token_is(toks: &Vec<Vec<char>>, i: usize, w: &str) -> (r: bool)
    ensures
        r == (i < toks@.len() && toks@[i as int]@ == w@),
{
    i < toks.len() && is_word(&toks[i], w)
}

fn step_modifiers(toks: &Vec<Vec<char>>, i: usize, m: &mut Metar) -> (r: usize)
    requires
        i <= toks@.len(),
    ensures
        i <= r <= toks@.len(),
        (rest_at(toks@, r as int), final(m)@) == modifiers(rest_at(toks@, i as int), old(m)@),
{
    let n = toks.len();
    let mut j = i;
    proof {
        lemma_rest(toks@, i as int, 0);
        if i < toks@.len() {
            lemma_rest(toks@, i as int, 1);
        }
    }
    if token_is(toks, j, "AUTO") {
        m.remarks.auto = Some(true);
        j = j + 1;
    }
    proof {
        lemma_rest(toks@, j as int, 0);
        if j < toks@.len() {
            lemma_rest(toks@, j as int, 1);
        }
    }
    if token_is(toks, j, "COR") {
        m.remarks.corrected = Some(true);
        j = j + 1;
    }
    proof {
        lemma_rest(toks@, j as int, 0);
        if j < toks@.len() {
            lemma_rest(toks@, j as int, 1);
        }
    }
    if token_is(toks, j, "NOSIG") {
        m.remarks.no_significant_change = Some(true);
        j = j + 1;
    }
    j
}

// ---- wind ----

pub open spec fn with_wind(t: Seq<char>, m: MetarView) -> MetarView {
    MetarView {
        wind_dir: Some(t.subrange(0, 3)),
        wind_speed: Some((number(t.subrange(3, 5)) * knot_factor(t)) as u32),
        wind_gust: if has_gust(t) {
            Some((number(t.subrange(6, 8)) * knot_factor(t)) as u32)
        } else {
            m.wind_gust
        },
        ..m
    }
}

/// A wind group, in one token or split from its unit.
pub open spec fn wind(rest: Tokens, m: MetarView) -> (Tokens, MetarView) {
    if rest.len() >= 2 && is_speed_unit(rest[1]) && is_wind_group(rest[0] + rest[1]) {
        (rest.skip(2), with_wind(rest[0] + rest[1], m))
    } else if rest.len() >= 1 && is_wind_group(rest[0]) {
        (rest.skip(1), with_wind(rest[0], m))
    } else {
        (rest, m)
    }
}

fn set_wind(t: &Vec<char>, m: &mut Metar)
    requires
        is_wind_group(t@),
    ensures
        final(m)@ == with_wind(t@, old(m)@),
{
    let u = wind_unit_len_of(t);
    let factor: u32 = if u == 3 { 194384 } else { 100000 };
    proof {
        lemma_two_digits(t@, 3);
    }
    let speed = number_of(t, 3, 5);
    m.wind_dir_degrees = Some(string_from(&slice_of(t, 0, 3)));
    m.wind_speed_kt_e5 = Some(speed * factor);
    if t.len() - u == 8 {
        proof {
            lemma_two_digits(t@, 6);
        }
        let gust = number_of(t, 6, 8);
        m.wind_gust_kt_e5 = Some(gust * factor);
    }
}

proof fn lemma_two_digits(t: Seq<char>, lo: int)
    requires
        0 <= lo,
        lo + 2 <= t.len(),
        digits_in(t, lo, lo + 2),
    ensures
        0 <= number(t.subrange(lo, lo + 2)) < 100,
{
    let s = t.subrange(lo, lo + 2);
    assert(digits_in(s, 0, 2)) by {
        assert(s[0] == t[lo] && s[1] == t[lo + 1]);
    }
    lemma_number_bound(s);
    reveal_with_fuel(pow10, 3);
}

proof fn lemma_digits_sub(t: Seq<char>, lo: int, hi: int)
    requires
        0 <= lo <= hi <= t.len(),
        digits_in(t, lo, hi),
    ensures
        digits_in(t.subrange(lo, hi), 0, hi - lo),
        0 <= number(t.subrange(lo, hi)) < pow10((hi - lo) as nat),
{
    let s = t.subrange(lo, hi);
    assert forall|j: int| 0 <= j < hi - lo implies crate::text::is_digit(#[trigger] s[j]) by {
        assert(s[j] == t[lo + j]);
    }
    lemma_number_bound(s);
}

fn step_wind(toks: &Vec<Vec<char>>, i: usize, m: &mut Metar) -> (r: usize)
    requires
        i <= toks@.len(),
    ensures
        i <= r <= toks@.len(),
        (rest_at(toks@, r as int), final(m)@) == wind(rest_at(toks@, i as int), old(m)@),
{
    proof {
        lemma_rest(toks@, i as int, 0);
    }
    if toks.len() - i >= 2 && is_speed_unit_of(&toks[i + 1]) {
        let t = joined(&toks[i], &toks[i + 1]);
        proof {
            lemma_rest(toks@, i as int, 2);
        }
        if is_wind_group_of(&t) {
            set_wind(&t, m);
            return i + 2;
        }
    }
    if i < toks.len() && is_wind_group_of(&toks[i]) {
        proof {
            lemma_rest(toks@, i as int, 1);
        }
        set_wind(&toks[i], m);
        return i + 1;
    }
    i
}

// ---- variable wind direction ----

pub open spec fn variable_wind(rest: Tokens, m: MetarView) -> (Tokens, MetarView) {
    if rest.len() > 0 && is_variable_wind(rest[0]) {
        (rest.skip(1), MetarView { variable_wind_dir: Some(rest[0]), ..m })
    } else {
        (rest, m)
    }
}

fn step_variable_wind(toks: &Vec<Vec<char>>, i: usize, m: &mut Metar) -> (r: usize)
    requires
        i <= toks@.len(),
    ensures
        i <= r <= toks@.len(),
        (rest_at(toks@, r as int), final(m)@) == variable_wind(rest_at(toks@, i as int), old(m)@),
{
    proof {
        lemma_rest(toks@, i as int, 0);
    }
    if i < toks.len() && is_variable_wind_of(&toks[i]) {
        proof {
            lemma_rest(toks@, i as int, 1);
        }
        m.variable_wind_dir_degrees = Some(string_from(&toks[i]));
        return i + 1;
    }
    i
}

// ---- visibility ----

/// `whole + n/d` miles for the fraction `n/d` in `c`, after `prefix`; none
/// when a part has more than nine digits or the denominator is zero.
pub open spec fn fraction_text(prefix: Seq<char>, whole: int, c: Seq<char>) -> Option<Seq<char>> {
    let k = index_of(c, '/');
    let n = number(c.subrange(0, k));
    let d = number(c.subrange(k + 1, c.len() as int));
    if k <= 9 && c.len() - k - 1 <= 9 && d > 0 {
        Some(prefix + render_quotient((whole * d + n) as nat, d as nat))
    } else {
        None
    }
}

/// The visibility that a statute-mile token gives: whole numbers as written,
/// fractions as decimals, the `M`/`P` prefix kept.
pub open spec fn sm_text(t: Seq<char>) -> Option<Seq<char>> {
    let c = sm_core(t);
    if digits_in(c, 0, c.len() as int) {
        Some(t.subrange(0, t.len() - 2))
    } else {
        fraction_text(t.subrange(0, bound_prefix_len(t)), 0, c)
    }
}

/// The visibility that a meter token gives: `P10` for 9999 (10 km or more),
/// else statute miles with two decimals.
pub open spec fn meters_text(t: Seq<char>) -> Seq<char> {
    if t[0] == '9' && t[1] == '9' && t[2] == '9' && t[3] == '9' {
        "P10"@
    } else {
        render_hundredths(meters_to_hundredth_miles(number(t.subrange(0, 4))) as nat)
    }
}

pub open spec fn with_visibility(m: MetarView, v: Option<Seq<char>>) -> MetarView {
    match v {
        Some(_) => MetarView { visibility: v, ..m },
        None => m,
    }
}

/// A whole number followed by a fraction in statute miles (`1 1/2SM`).
pub open spec fn is_split_visibility(rest: Tokens) -> bool {
    &&& rest.len() > 1
    &&& 0 < rest[0].len() <= 9
    &&& digits_in(rest[0], 0, rest[0].len() as int)
    &&& is_vis_sm(rest[1])
    &&& is_fraction(sm_core(rest[1]))
}

pub open spec fn visibility(rest: Tokens, m: MetarView) -> (Tokens, MetarView) {
    if rest.len() > 0 && is_vis_sm(rest[0]) {
        (rest.skip(1), with_visibility(m, sm_text(rest[0])))
    } else if is_split_visibility(rest) {
        (
            rest.skip(2),
            with_visibility(
                m,
                fraction_text(
                    rest[1].subrange(0, bound_prefix_len(rest[1])),
                    number(rest[0]),
                    sm_core(rest[1]),
                ),
            ),
        )
    } else if rest.len() > 0 && is_vis_meters(rest[0]) {
        (rest.skip(1), MetarView { visibility: Some(meters_text(rest[0])), ..m })
    } else {
        (rest, m)
    }
}

fn fraction_text_of(prefix: &Vec<char>, whole: u64, c: &Vec<char>) -> (r: Option<Vec<char>>)
    requires
        whole < 1_000_000_000,
        is_fraction(c@),
    ensures
        match fraction_text(prefix@, whole as int, c@) {
            Some(s) => r.is_some() && r.unwrap()@ == s,
            None => r.is_none(),
        },
{
    let k = index_of_char(c, '/');
    proof {
        lemma_index_of(c@, '/');
    }
    if k > 9 || c.len() - k - 1 > 9 {
        return None;
    }
    proof {
        lemma_digits_sub(c@, 0, k as int);
        lemma_digits_sub(c@, k + 1, c@.len() as int);
        lemma_pow10_9();
        crate::decimal::lemma_pow10_mono((k) as nat, 9);
        crate::decimal::lemma_pow10_mono((c@.len() - k - 1) as nat, 9);
    }
    let n = number_of(c, 0, k) as u64;
    let d = number_of(c, k + 1, c.len()) as u64;
    if d == 0 {
        return None;
    }
    proof {
        assert(whole * d <= 1_000_000_000 * 1_000_000_000) by (nonlinear_arith)
            requires
                whole < 1_000_000_000,
                d < 1_000_000_000,
        ;
    }
    let q = render_quotient_of(whole * d + n, d);
    Some(joined(prefix, &q))
}

proof fn lemma_pow10_9()
    ensures
        pow10(9) == 1_000_000_000,
{
    reveal_with_fuel(pow10, 10);
}

fn set_visibility(v: Option<Vec<char>>, m: &mut Metar)
    ensures
        final(m)@ == with_visibility(
            old(m)@,
            match v {
                Some(s) => Some(s@),
                None => None,
            },
        ),
{
    match v {
        Some(s) => {
            m.visibility_statute_mi = Some(string_from(&s));
        },
        None => {},
    }
}

fn sm_text_of(t: &Vec<char>) -> (r: Option<Vec<char>>)
    requires
        is_vis_sm(t@),
    ensures
        match sm_text(t@) {
            Some(s) => r.is_some() && r.unwrap()@ == s,
            None => r.is_none(),
        },
{
    let p = bound_prefix_len_of(t);
    let c = slice_of(t, p, t.len() - 2);
    if all_digits(&c, 0, c.len()) {
        Some(slice_of(t, 0, t.len() - 2))
    } else {
        fraction_text_of(&slice_of(t, 0, p), 0, &c)
    }
}

fn meters_text_of(t: &Vec<char>) -> (r: Vec<char>)
    requires
        is_vis_meters(t@),
    ensures
        r@ == meters_text(t@),
{
    if t[0] == '9' && t[1] == '9' && t[2] == '9' && t[3] == '9' {
        chars_of("P10")
    } else {
        proof {
            lemma_digits_sub(t@, 0, 4);
            reveal_with_fuel(pow10, 5);
        }
        let meters = number_of(t, 0, 4) as u64;
        render_hundredths_of((meters * MILES_PER_METER_E9 + 5_000_000) / 10_000_000)
    }
}

fn step_visibility(toks: &Vec<Vec<char>>, i: usize, m: &mut Metar) -> (r: usize)
    requires
        i <= toks@.len(),
    ensures
        i <= r <= toks@.len(),
        (rest_at(toks@, r as int), final(m)@) == visibility(rest_at(toks@, i as int), old(m)@),
{
    proof {
        lemma_rest(toks@, i as int, 0);
    }
    if i < toks.len() && is_vis_sm_of(&toks[i]) {
        proof {
            lemma_rest(toks@, i as int, 1);
        }
        let v = sm_text_of(&toks[i]);
        set_visibility(v, m);
        return i + 1;
    }
    if toks.len() - i > 1 && toks[i].len() > 0 && toks[i].len() <= 9 && all_digits(
        &toks[i],
        0,
        toks[i].len(),
    ) && is_vis_sm_of(&toks[i + 1]) {
        let t1 = &toks[i + 1];
        let p = bound_prefix_len_of(t1);
        let c = slice_of(t1, p, t1.len() - 2);
        if is_fraction_of(&c) {
            proof {
                lemma_rest(toks@, i as int, 2);
                assert(toks@[i as int]@.subrange(0, toks@[i as int]@.len() as int)
                    =~= toks@[i as int]@);
                lemma_digits_sub(toks@[i as int]@, 0, toks@[i as int]@.len() as int);
                crate::decimal::lemma_pow10_mono(toks@[i as int]@.len(), 9);
                lemma_pow10_9();
            }
            let whole = number_of(&toks[i], 0, toks[i].len()) as u64;
            let v = fraction_text_of(&slice_of(t1, 0, p), whole, &c);
            set_visibility(v, m);
            return i + 2;
        }
    }
    if i < toks.len() && is_vis_meters_of(&toks[i]) {
        proof {
            lemma_rest(toks@, i as int, 1);
        }
        let v = meters_text_of(&toks[i]);
        m.visibility_statute_mi = Some(string_from(&v));
        return i + 1;
    }
    i
}

// ---- runway visual range ----

pub open spec fn rvr_entry(t: Seq<char>) -> RunwayVisualRangeView {
    let v = rvr_range(t);
    let runway = t.subrange(0, index_of(t, '/'));
    if is_rvr_value(v) {
        RunwayVisualRangeView { runway, visibility_ft: Some(v), high_ft: None, low_ft: None }
    } else {
        let j = index_of(v, 'V');
        RunwayVisualRangeView {
            runway,
            visibility_ft: None,
            high_ft: Some(v.subrange(j + 1, v.len() as int)),
            low_ft: Some(v.subrange(0, j)),
        }
    }
}

/// Zero or more runway visual range groups.
pub open spec fn rvr_run(rest: Tokens, m: MetarView) -> (Tokens, MetarView)
    decreases rest.len(),
{
    if rest.len() > 0 && is_rvr(rest[0]) {
        rvr_run(rest.skip(1), MetarView { rvr: m.rvr.push(rvr_entry(rest[0])), ..m })
    } else {
        (rest, m)
    }
}

fn rvr_entry_of(t: &Vec<char>) -> (r: RunwayVisualRange)
    requires
        is_rvr(t@),
    ensures
        r@ == rvr_entry(t@),
{
    let k = index_of_char(t, '/');
    proof {
        lemma_index_of(t@, '/');
    }
    let v = slice_of(t, k + 1, t.len() - 2);
    let runway = string_from(&slice_of(t, 0, k));
    if is_rvr_value_of(&v) {
        RunwayVisualRange {
            runway,
            visibility_ft: Some(string_from(&v)),
            variable_visibility_high_ft: None,
            variable_visibility_low_ft: None,
        }
    } else {
        let j = index_of_char(&v, 'V');
        proof {
            lemma_index_of(v@, 'V');
        }
        RunwayVisualRange {
            runway,
            visibility_ft: None,
            variable_visibility_high_ft: Some(string_from(&slice_of(&v, j + 1, v.len()))),
            variable_visibility_low_ft: Some(string_from(&slice_of(&v, 0, j))),
        }
    }
}

fn step_rvr(toks: &Vec<Vec<char>>, i: usize, m: &mut Metar) -> (r: usize)
    requires
        i <= toks@.len(),
    ensures
        i <= r <= toks@.len(),
        (rest_at(toks@, r as int), final(m)@) == rvr_run(rest_at(toks@, i as int), old(m)@),
{
    let n = toks.len();
    let mut j = i;
    while j < n && is_rvr_of(&toks[j])
        invariant
            n == toks@.len(),
            i <= j <= n,
            rvr_run(rest_at(toks@, j as int), m@) == rvr_run(rest_at(toks@, i as int), old(m)@),
        decreases n - j,
    {
        proof {
            lemma_rest(toks@, j as int, 1);
        }
        let e = rvr_entry_of(&toks[j]);
        let ghost before = m.runway_visual_range@;
        m.runway_visual_range.push(e);
        proof {
            assert(rvrs_view(m.runway_visual_range@) =~= rvrs_view(before).push(e@));
        }
        j = j + 1;
    }
    proof {
        lemma_rest(toks@, j as int, 0);
    }
    j
}

// ---- present weather ----

/// Zero or more present weather groups.
pub open spec fn weather_run(rest: Tokens, m: MetarView) -> (Tokens, MetarView)
    decreases rest.len(),
{
    if rest.len() > 0 && is_weather(rest[0]) {
        weather_run(rest.skip(1), MetarView { weather: m.weather.push(rest[0]), ..m })
    } else {
        (rest, m)
    }
}

fn step_weather(toks: &Vec<Vec<char>>, i: usize, m: &mut Metar) -> (r: usize)
    requires
        i <= toks@.len(),
    ensures
        i <= r <= toks@.len(),
        (rest_at(toks@, r as int), final(m)@) == weather_run(rest_at(toks@, i as int), old(m)@),
{
    let n = toks.len();
    let mut j = i;
    while j < n && is_weather_of(&toks[j])
        invariant
            n == toks@.len(),
            i <= j <= n,
            weather_run(rest_at(toks@, j as int), m@) == weather_run(
                rest_at(toks@, i as int),
                old(m)@,
            ),
        decreases n - j,
    {
        proof {
            lemma_rest(toks@, j as int, 1);
        }
        let w = string_from(&toks[j]);
        let ghost before = m.weather_phenomena@;
        m.weather_phenomena.push(w);
        proof {
            assert(strings_view(m.weather_phenomena@) =~= strings_view(before).push(w@));
        }
        j = j + 1;
    }
    proof {
        lemma_rest(toks@, j as int, 0);
    }
    j
}

// ---- sky condition ----

pub open spec fn clear_layer() -> SkyConditionView {
    SkyConditionView { sky_cover: "CLR"@, cloud_base_ft_agl: None, convective: None }
}

/// `CAVOK`: read as a clear sky.
pub open spec fn cavok(rest: Tokens, m: MetarView) -> (Tokens, MetarView) {
    if rest.len() > 0 && rest[0] == "CAVOK"@ {
        (rest.skip(1), MetarView { sky: m.sky.push(clear_layer()), ..m })
    } else {
        (rest, m)
    }
}

pub open spec fn sky_entry(t: Seq<char>) -> SkyConditionView {
    if is_clear_code(t) {
        SkyConditionView { sky_cover: t, cloud_base_ft_agl: None, convective: None }
    } else {
        let c = cover_len(t);
        let b = base_len(t, c);
        SkyConditionView {
            sky_cover: t.subrange(0, c),
            cloud_base_ft_agl: if b == 3 && digits_in(t, c, c + 3) {
                Some((number(t.subrange(c, c + 3)) * 100) as i32)
            } else {
                None
            },
            convective: if c + b < t.len() {
                Some(t.skip(c + b))
            } else {
                None
            },
        }
    }
}

/// Zero or more cloud layers.
pub open spec fn sky_run(rest: Tokens, m: MetarView) -> (Tokens, MetarView)
    decreases rest.len(),
{
    if rest.len() > 0 && is_sky(rest[0]) {
        sky_run(rest.skip(1), MetarView { sky: m.sky.push(sky_entry(rest[0])), ..m })
    } else {
        (rest, m)
    }
}

fn sky_entry_of(t: &Vec<char>) -> (r: SkyCondition)
    requires
        is_sky(t@),
    ensures
        r@ == sky_entry(t@),
{
    if is_clear_code_of(t) {
        return SkyCondition {
            sky_cover: string_from(t),
            cloud_base_ft_agl: None,
            significant_convective_clouds: None,
        };
    }
    let c = cover_len_of(t);
    let b = base_len_of(t, c);
    let base: Option<i32> = if b == 3 && all_digits(t, c, c + 3) {
        proof {
            lemma_digits_sub(t@, c as int, c + 3);
            reveal_with_fuel(pow10, 4);
        }
        Some((number_of(t, c, c + 3) as i32) * 100)
    } else {
        None
    };
    let conv: Option<String> = if c + b < t.len() {
        proof {
            assert(t@.subrange((c + b) as int, t@.len() as int) =~= t@.skip((c + b) as int));
        }
        Some(string_from(&slice_of(t, c + b, t.len())))
    } else {
        None
    };
    SkyCondition {
        sky_cover: string_from(&slice_of(t, 0, c)),
        cloud_base_ft_agl: base,
        significant_convective_clouds: conv,
    }
}

fn step_sky(toks: &Vec<Vec<char>>, i: usize, m: &mut Metar) -> (r: usize)
    requires
        i <= toks@.len(),
    ensures
        i <= r <= toks@.len(),
        ({
            let (r1, m1) = cavok(rest_at(toks@, i as int), old(m)@);
            (rest_at(toks@, r as int), final(m)@) == sky_run(r1, m1)
        }),
{
    let n = toks.len();
    let mut j = i;
    proof {
        lemma_rest(toks@, i as int, 0);
    }
    if token_is(toks, j, "CAVOK") {
        proof {
            lemma_rest(toks@, i as int, 1);
        }
        let layer = SkyCondition {
            sky_cover: String::from_str("CLR"),
            cloud_base_ft_agl: None,
            significant_convective_clouds: None,
        };
        let ghost before = m.sky_condition@;
        m.sky_condition.push(layer);
        proof {
            assert(skies_view(m.sky_condition@) =~= skies_view(before).push(clear_layer()));
        }
        j = j + 1;
    }
    let ghost mid = m@;
    let ghost jm = j;
    while j < n && is_sky_of(&toks[j])
        invariant
            n == toks@.len(),
            i <= jm <= j <= n,
            sky_run(rest_at(toks@, j as int), m@) == sky_run(rest_at(toks@, jm as int), mid),
        decreases n - j,
    {
        proof {
            lemma_rest(toks@, j as int, 1);
        }
        let e = sky_entry_of(&toks[j]);
        let ghost before = m.sky_condition@;
        m.sky_condition.push(e);
        proof {
            assert(skies_view(m.sky_condition@) =~= skies_view(before).push(e@));
        }
        j = j + 1;
    }
    proof {
        lemma_rest(toks@, j as int, 0);
    }
    j
}

// ---- temperature, pressure, trend ----

pub open spec fn temperature(rest: Tokens, m: MetarView) -> (Tokens, MetarView) {
    if rest.len() > 0 && is_temp_group(rest[0]) {
        let t = rest[0];
        let k = index_of(t, '/');
        let l = t.subrange(0, k);
        let d = t.subrange(k + 1, t.len() as int);
        (
            rest.skip(1),
            MetarView {
                temp: if l.len() > 0 {
                    Some(temp_part_tenths(l) as i32)
                } else {
                    m.temp
                },
                dewpoint: if d.len() > 0 {
                    Some(temp_part_tenths(d) as i32)
                } else {
                    m.dewpoint
                },
                ..m
            },
        )
    } else {
        (rest, m)
    }
}

fn step_temperature(toks: &Vec<Vec<char>>, i: usize, m: &mut Metar) -> (r: usize)
    requires
        i <= toks@.len(),
    ensures
        i <= r <= toks@.len(),
        (rest_at(toks@, r as int), final(m)@) == temperature(rest_at(toks@, i as int), old(m)@),
{
    proof {
        lemma_rest(toks@, i as int, 0);
    }
    if i < toks.len() && is_temp_group_of(&toks[i]) {
        proof {
            lemma_rest(toks@, i as int, 1);
        }
        let t = &toks[i];
        let k = index_of_char(t, '/');
        proof {
            lemma_index_of(t@, '/');
        }
        let l = slice_of(t, 0, k);
        let d = slice_of(t, k + 1, t.len());
        if l.len() > 0 {
            m.temp_c_tenths = Some(temp_part_tenths_of(&l));
        }
        if d.len() > 0 {
            m.dewpoint_c_tenths = Some(temp_part_tenths_of(&d));
        }
        return i + 1;
    }
    i
}

pub open spec fn altimeter(rest: Tokens, m: MetarView) -> (Tokens, MetarView) {
    if rest.len() > 0 && is_altimeter(rest[0]) {
        (rest.skip(1), MetarView { altim: Some(number(rest[0].subrange(1, 5)) as u32), ..m })
    } else {
        (rest, m)
    }
}

pub open spec fn qnh(rest: Tokens, m: MetarView) -> (Tokens, MetarView) {
    if rest.len() > 0 && is_qnh(rest[0]) {
        (rest.skip(1), MetarView { pressure: Some((number(rest[0].subrange(1, 5)) * 10) as u32), ..m })
    } else {
        (rest, m)
    }
}

pub open spec fn tempo(rest: Tokens, m: MetarView) -> (Tokens, MetarView) {
    if rest.len() > 0 && rest[0] == "TEMPO"@ {
        (
            rest.skip(1),
            MetarView { remarks: RemarksView { temporary_change: Some(true), ..m.remarks }, ..m },
        )
    } else {
        (rest, m)
    }
}

fn step_pressure_and_trend(toks: &Vec<Vec<char>>, i: usize, m: &mut Metar) -> (r: usize)
    requires
        i <= toks@.len(),
    ensures
        i <= r <= toks@.len(),
        ({
            let (r1, m1) = altimeter(rest_at(toks@, i as int), old(m)@);
            let (r2, m2) = qnh(r1, m1);
            (rest_at(toks@, r as int), final(m)@) == tempo(r2, m2)
        }),
{
    let n = toks.len();
    let mut j = i;
    proof {
        lemma_rest(toks@, j as int, 0);
    }
    if j < n && is_altimeter_of(&toks[j]) {
        proof {
            lemma_rest(toks@, j as int, 1);
            lemma_digits_sub(toks@[j as int]@, 1, 5);
            reveal_with_fuel(pow10, 5);
        }
        m.altim_in_hg_hundredths = Some(number_of(&toks[j], 1, 5));
        j = j + 1;
    }
    proof {
        lemma_rest(toks@, j as int, 0);
    }
    if j < n && is_qnh_of(&toks[j]) {
        proof {
            lemma_rest(toks@, j as int, 1);
            lemma_digits_sub(toks@[j as int]@, 1, 5);
            reveal_with_fuel(pow10, 5);
        }
        m.sea_level_pressure_mb_tenths = Some(number_of(&toks[j], 1, 5) * 10);
        j = j + 1;
    }
    proof {
        lemma_rest(toks@, j as int, 0);
        if j < n {
            lemma_rest(toks@, j as int, 1);
        }
    }
    if token_is(toks, j, "TEMPO") {
        m.remarks.temporary_change = Some(true);
        j = j + 1;
    }
    j
}

// ---- remarks ----

pub open spec fn peak_wind_of(v: Seq<char>) -> PeakWind {
    let k = index_of(v, '/');
    let a = v.subrange(k + 1, v.len() as int);
    PeakWind {
        degrees: number(v.subrange(0, 3)) as i32,
        speed: number(v.subrange(3, k)) as i32,
        hour: if a.len() == 4 {
            Some(number(a.subrange(0, 2)) as i32)
        } else {
            None
        },
        minutes: number(a.subrange(a.len() - 2, a.len() as int)) as i32,
    }
}

pub open spec fn with_remarks(m: MetarView, r: RemarksView) -> MetarView {
    MetarView { remarks: r, ..m }
}

/// One remark, and the tokens it takes.
pub open spec fn remark_step(rest: Tokens, m: MetarView) -> (Tokens, MetarView) {
    let t = rest[0];
    let r = rest.skip(1);
    let k = m.remarks;
    if t == "AO1"@ {
        (r, with_remarks(m, RemarksView { ao1: Some(true), ..k }))
    } else if t == "AO2"@ {
        (r, with_remarks(m, RemarksView { ao2: Some(true), ..k }))
    } else if t == "$"@ {
        (r, with_remarks(m, RemarksView { maintenance: Some(true), ..k }))
    } else if t == "PK"@ && r.len() >= 2 && r[0] == "WND"@ {
        if is_peak_wind(r[1]) {
            (r.skip(2), with_remarks(m, RemarksView { peak_wind: Some(peak_wind_of(r[1])), ..k }))
        } else {
            (r.skip(2), m)
        }
    } else if t == "PNO"@ {
        (r, with_remarks(m, RemarksView { pno: Some(true), ..k }))
    } else if t == "RVRNO"@ {
        (r, with_remarks(m, RemarksView { rvr_missing: Some(true), ..k }))
    } else if t == "PWINO"@ {
        (r, with_remarks(m, RemarksView { pwino: Some(true), ..k }))
    } else if t == "FZRANO"@ {
        (r, with_remarks(m, RemarksView { fzrano: Some(true), ..k }))
    } else if t == "TSNO"@ {
        (r, with_remarks(m, RemarksView { tsno: Some(true), ..k }))
    } else if t == "VISNO"@ && r.len() > 0 {
        (r.skip(1), with_remarks(m, RemarksView { visno: Some(r[0]), ..k }))
    } else if t == "CHINO"@ && r.len() > 0 {
        (r.skip(1), with_remarks(m, RemarksView { chino: Some(r[0]), ..k }))
    } else if is_slp(t) {
        (r, MetarView { pressure: Some(slp_tenths(number(t.subrange(3, 6))) as u32), ..m })
    } else if is_hourly_temp(t) {
        (
            r,
            MetarView {
                temp: Some(signed_tenths(t[1], number(t.subrange(2, 5))) as i32),
                dewpoint: Some(signed_tenths(t[5], number(t.subrange(6, 9))) as i32),
                ..m
            },
        )
    } else {
        (r, m)
    }
}

/// The remarks section: every remaining token is read as a remark.
pub open spec fn remarks_run(rest: Tokens, m: MetarView) -> MetarView
    decreases rest.len(),
{
    if rest.len() == 0 {
        m
    } else {
        let (r, m2) = remark_step(rest, m);
        if r.len() < rest.len() {
            remarks_run(r, m2)
        } else {
            m2
        }
    }
}

/// `RMK` and the remarks after it.
pub open spec fn remarks(rest: Tokens, m: MetarView) -> (Tokens, MetarView) {
    if rest.len() > 0 && rest[0] == "RMK"@ {
        (Seq::empty(), remarks_run(rest.skip(1), m))
    } else {
        (rest, m)
    }
}

fn peak_wind_of_token(v: &Vec<char>) -> (r: PeakWind)
    requires
        is_peak_wind(v@),
    ensures
        r == peak_wind_of(v@),
{
    let k = index_of_char(v, '/');
    proof {
        lemma_index_of(v@, '/');
        lemma_digits_sub(v@, 0, 3);
        lemma_digits_sub(v@, 3, k as int);
        reveal_with_fuel(pow10, 4);
    }
    let a = slice_of(v, k + 1, v.len());
    let n = a.len();
    proof {
        lemma_digits_sub(v@, k + 1, v@.len() as int);
        assert(digits_in(a@, 0, n as int));
        lemma_digits_sub(a@, n - 2, n as int);
        if n == 4 {
            lemma_digits_sub(a@, 0, 2);
        }
    }
    let hour: Option<i32> = if n == 4 {
        Some(number_of(&a, 0, 2) as i32)
    } else {
        None
    };
    PeakWind {
        degrees: number_of(v, 0, 3) as i32,
        speed: number_of(v, 3, k) as i32,
        hour,
        minutes: number_of(&a, n - 2, n) as i32,
    }
}

fn remark_step_of(toks: &Vec<Vec<char>>, i: usize, m: &mut Metar) -> (r: usize)
    requires
        i < toks@.len(),
    ensures
        i < r <= toks@.len(),
        (rest_at(toks@, r as int), final(m)@) == remark_step(rest_at(toks@, i as int), old(m)@),
{
    let n = toks.len();
    proof {
        lemma_rest(toks@, i as int, 1);
        lemma_rest(toks@, i + 1, 0);
        if i + 1 < n {
            lemma_rest(toks@, i + 1, 1);
            lemma_rest(toks@, i as int, 2);
        }
        if i + 2 < n {
            lemma_rest(toks@, i + 1, 2);
            lemma_rest(toks@, i as int, 3);
            assert(rest_at(toks@, i + 1)[1] == toks@[i + 2]@);
        }
    }
    let t = &toks[i];
    if is_word(t, "AO1") {
        m.remarks.auto_station_without_precipication = Some(true);
    } else if is_word(t, "AO2") {
        m.remarks.auto_station_with_precipication = Some(true);
    } else if is_word(t, "$") {
        m.remarks.maintenance_indicator_on = Some(true);
    } else if is_word(t, "PK") && n - i >= 3 && is_word(&toks[i + 1], "WND") {
        if is_peak_wind_of(&toks[i + 2]) {
            m.remarks.peak_wind = Some(peak_wind_of_token(&toks[i + 2]));
        }
        return i + 3;
    } else if is_word(t, "PNO") {
        m.remarks.precipication_information_not_available = Some(true);
    } else if is_word(t, "RVRNO") {
        m.remarks.rvr_missing = Some(true);
    } else if is_word(t, "PWINO") {
        m.remarks.precipication_identifier_information_not_available = Some(true);
    } else if is_word(t, "FZRANO") {
        m.remarks.freezing_rain_information_not_available = Some(true);
    } else if is_word(t, "TSNO") {
        m.remarks.thunderstorm_information_not_available = Some(true);
    } else if is_word(t, "VISNO") && n - i >= 2 {
        m.remarks.visibility_at_secondary_location_not_available = Some(string_from(&toks[i + 1]));
        return i + 2;
    } else if is_word(t, "CHINO") && n - i >= 2 {
        m.remarks.sky_condition_at_secondary_location_not_available = Some(
            string_from(&toks[i + 1]),
        );
        return i + 2;
    } else if is_slp_of(t) {
        proof {
            lemma_digits_sub(t@, 3, 6);
            reveal_with_fuel(pow10, 4);
        }
        let code = number_of(t, 3, 6);
        m.sea_level_pressure_mb_tenths = Some(if code > 500 { code + 9000 } else { code + 10000 });
    } else if is_hourly_temp_of(t) {
        proof {
            lemma_digits_sub(t@, 2, 5);
            lemma_digits_sub(t@, 6, 9);
            reveal_with_fuel(pow10, 4);
        }
        let tv = number_of(t, 2, 5) as i32;
        let dv = number_of(t, 6, 9) as i32;
        m.temp_c_tenths = Some(if t[1] == '0' { tv } else { -tv });
        m.dewpoint_c_tenths = Some(if t[5] == '0' { dv } else { -dv });
    }
    i + 1
}

fn step_remarks(toks: &Vec<Vec<char>>, i: usize, m: &mut Metar) -> (r: usize)
    requires
        i <= toks@.len(),
    ensures
        i <= r <= toks@.len(),
        (rest_at(toks@, r as int), final(m)@) == remarks(rest_at(toks@, i as int), old(m)@),
{
    let n = toks.len();
    proof {
        lemma_rest(toks@, i as int, 0);
    }
    if !token_is(toks, i, "RMK") {
        return i;
    }
    proof {
        lemma_rest(toks@, i as int, 1);
    }
    let mut j = i + 1;
    while j < n
        invariant
            n == toks@.len(),
            i < j <= n,
            remarks_run(rest_at(toks@, j as int), m@) == remarks_run(
                rest_at(toks@, i + 1),
                old(m)@,
            ),
        decreases n - j,
    {
        proof {
            lemma_rest(toks@, j as int, 0);
        }
        let k = remark_step_of(toks, j, m);
        proof {
            lemma_rest(toks@, k as int, 0);
        }
        j = k;
    }
    proof {
        lemma_rest(toks@, j as int, 0);
        assert(rest_at(toks@, n as int) =~= Seq::<Seq<char>>::empty());
    }
    j
}

// ---- the report ----

/// One pass over the groups in their fixed order. A pass that reads nothing
/// drops the token it stopped at.
pub open spec fn body(rest: Tokens, m: MetarView) -> (Tokens, MetarView) {
    let (r1, m1) = modifiers(rest, m);
    let (r2, m2) = wind(r1, m1);
    let (r3, m3) = variable_wind(r2, m2);
    let (r4, m4) = visibility(r3, m3);
    let (r5, m5) = rvr_run(r4, m4);
    let (r6, m6) = weather_run(r5, m5);
    let (r7, m7) = cavok(r6, m6);
    let (r8, m8) = sky_run(r7, m7);
    let (r9, m9) = temperature(r8, m8);
    let (r10, m10) = altimeter(r9, m9);
    let (r11, m11) = qnh(r10, m10);
    let (r12, m12) = tempo(r11, m11);
    let (r13, m13) = remarks(r12, m12);
    if r13.len() == rest.len() && rest.len() > 0 {
        (rest.skip(1), m13)
    } else {
        (r13, m13)
    }
}

/// Passes of `body` until no token remains.
pub open spec fn run(rest: Tokens, m: MetarView) -> MetarView
    decreases rest.len(),
{
    if rest.len() == 0 {
        m
    } else {
        let (r, m2) = body(rest, m);
        if r.len() < rest.len() {
            run(r, m2)
        } else {
            m2
        }
    }
}

/// The fields derived from the others: flight category, and the humidity
/// estimate `100 - 5 * (temperature - dewpoint)` percent.
pub open spec fn finish(m: MetarView) -> MetarView {
    MetarView {
        flight_category: flight_category(m.visibility, m.sky),
        humidity: match (m.temp, m.dewpoint) {
            (Some(t), Some(d)) => Some((1000 - (t - d) * 5) as i32),
            _ => m.humidity,
        },
        ..m
    }
}

/// `ddhhmmZ` with a day of 1 to 31, an hour below 24 and a minute below 60.
pub open spec fn is_time_group(t: Seq<char>) -> bool {
    &&& t.len() == 7
    &&& digits_in(t, 0, 6)
    &&& t[6] == 'Z'
    &&& 1 <= number(t.subrange(0, 2)) <= 31
    &&& number(t.subrange(2, 4)) < 24
    &&& number(t.subrange(4, 6)) < 60
}

/// The instant a time group names, seen at `now` (see `observation_instant`).
pub open spec fn observation_time(t: Seq<char>, now: UtcTime) -> UtcTime {
    observation_instant(
        number(t.subrange(0, 2)),
        number(t.subrange(2, 4)),
        number(t.subrange(4, 6)),
        now,
    )
}

pub open spec fn initial(station: Seq<char>, raw: Seq<char>, time: UtcTime) -> MetarView {
    MetarView {
        station_id: station,
        raw_text: raw,
        observation_time: time,
        temp: None,
        dewpoint: None,
        wind_dir: None,
        wind_speed: None,
        wind_gust: None,
        variable_wind_dir: None,
        visibility: None,
        rvr: Seq::empty(),
        altim: None,
        pressure: None,
        remarks: empty_remarks(),
        weather: Seq::empty(),
        sky: Seq::empty(),
        flight_category: FlightCategory::UNKN,
        humidity: None,
    }
}

/// The tokens after an optional leading `METAR`.
pub open spec fn report_tokens(toks: Tokens) -> Tokens {
    if toks[0] == "METAR"@ {
        toks.skip(1)
    } else {
        toks
    }
}

/// The report a line holds, seen at `now`.
pub open spec fn parse_model(line: Seq<char>, now: UtcTime) -> Result<MetarView, ParseError> {
    let toks = words(line);
    if toks.len() < 4 {
        Err(ParseError::TooFewTokens)
    } else {
        let rest = report_tokens(toks);
        if !is_time_group(rest[1]) {
            Err(ParseError::MalformedTime)
        } else {
            let time = observation_time(rest[1], now);
            let body = run(rest.skip(2), initial(rest[0], line, time));
            Ok(finish(MetarView { station_id: rest[0], raw_text: line, observation_time: time, ..body }))
        }
    }
}

fn step_body(toks: &Vec<Vec<char>>, i: usize, m: &mut Metar) -> (r: usize)
    requires
        i <= toks@.len(),
    ensures
        i <= r <= toks@.len(),
        i < toks@.len() ==> i < r,
        (rest_at(toks@, r as int), final(m)@) == body(rest_at(toks@, i as int), old(m)@),
{
    let n = toks.len();
    let j1 = step_modifiers(toks, i, m);
    let j2 = step_wind(toks, j1, m);
    let j3 = step_variable_wind(toks, j2, m);
    let j4 = step_visibility(toks, j3, m);
    let j5 = step_rvr(toks, j4, m);
    let j6 = step_weather(toks, j5, m);
    let j8 = step_sky(toks, j6, m);
    let j9 = step_temperature(toks, j8, m);
    let j12 = step_pressure_and_trend(toks, j9, m);
    let j13 = step_remarks(toks, j12, m);
    proof {
        lemma_rest(toks@, i as int, 0);
        lemma_rest(toks@, j13 as int, 0);
        if i < n {
            lemma_rest(toks@, i as int, 1);
        }
    }
    if j13 == i && i < n {
        i + 1
    } else {
        j13
    }
}

proof fn lemma_run_step(rest: Tokens, m: MetarView, r: Tokens, m2: MetarView)
    requires
        rest.len() > 0,
        (r, m2) == body(rest, m),
        r.len() < rest.len(),
    ensures
        run(rest, m) == run(r, m2),
{
}

fn run_tokens(toks: &Vec<Vec<char>>, start: usize, m: &mut Metar)
    requires
        start <= toks@.len(),
    ensures
        final(m)@ == run(rest_at(toks@, start as int), old(m)@),
{
    let n = toks.len();
    let mut i = start;
    while i < n
        invariant
            n == toks@.len(),
            start <= i <= n,
            run(rest_at(toks@, i as int), m@) == run(rest_at(toks@, start as int), old(m)@),
        decreases n - i,
    {
        proof {
            lemma_rest(toks@, i as int, 0);
        }
        let ghost before = m@;
        let j = step_body(toks, i, m);
        proof {
            lemma_rest(toks@, j as int, 0);
            lemma_run_step(rest_at(toks@, i as int), before, rest_at(toks@, j as int), m@);
        }
        i = j;
    }
    proof {
        lemma_rest(toks@, i as int, 0);
    }
}

pub fn is_time_group_of(t: &Vec<char>) -> (r: bool)
    ensures
        r == is_time_group(t@),
{
    if t.len() != 7 || !all_digits(t, 0, 6) || t[6] != 'Z' {
        return false;
    }
    proof {
        lemma_digits_sub(t@, 0, 2);
        lemma_digits_sub(t@, 2, 4);
        lemma_digits_sub(t@, 4, 6);
    }
    let day = number_of(t, 0, 2);
    let hour = number_of(t, 2, 4);
    let minute = number_of(t, 4, 6);
    1 <= day && day <= 31 && hour < 24 && minute < 60
}

impl Metar {
    /// Parses one report line, with month and year taken from `now`.
    pub fn parse(line: &str, now: &UtcTime) -> (r: Result<Metar, ParseError>)
        requires
            now.wf(),
            now.year >= MIN_YEAR + 1,
        ensures
            match r {
                Ok(m) => {
                    &&& parse_model(line@, *now) == Ok::<MetarView, ParseError>(m@)
                    &&& m.observation_time.wf()
                    &&& m.observation_time.spec_unix_seconds() <= now.spec_unix_seconds()
                        + FUTURE_TOLERANCE_SECS
                    &&& forall|t: UtcTime|
                        #![trigger t.spec_unix_seconds()]
                        t.wf() && t.day == m.observation_time.day && t.hour
                            == m.observation_time.hour && t.minute == m.observation_time.minute
                            && t.second == 0 && t.spec_unix_seconds() <= now.spec_unix_seconds()
                            + FUTURE_TOLERANCE_SECS ==> t.spec_unix_seconds()
                            <= m.observation_time.spec_unix_seconds()
                },
                Err(e) => parse_model(line@, *now) == Err::<MetarView, ParseError>(e),
            },
    {
        let chars = chars_of(line);
        let toks = split_words(&chars);
        let n = toks.len();
        if n < 4 {
            return Err(ParseError::TooFewTokens);
        }
        let start: usize = if is_word(&toks[0], "METAR") { 1 } else { 0 };
        proof {
            lemma_rest(toks@, 0, 0);
            lemma_rest(toks@, start as int, 0);
            lemma_rest(toks@, start as int, 2);
            lemma_rest(toks@, 0, start as int);
            assert(rest_at(toks@, 0) =~= view_words(toks@));
            assert(rest_at(toks@, start as int)[1] == toks@[start + 1]@);
        }
        let tt = &toks[start + 1];
        if !is_time_group_of(tt) {
            return Err(ParseError::MalformedTime);
        }
        proof {
            lemma_digits_sub(tt@, 0, 2);
            lemma_digits_sub(tt@, 2, 4);
            lemma_digits_sub(tt@, 4, 6);
        }
        let day = number_of(tt, 0, 2);
        let hour = number_of(tt, 2, 4);
        let minute = number_of(tt, 4, 6);
        let time = observation_instant_of(day, hour, minute, now);
        proof {
            lemma_observation_instant(day as int, hour as int, minute as int, *now);
        }
        let mut m = Metar {
            station_id: string_from(&toks[start]),
            raw_text: String::from_str(line),
            observation_time: time,
            temp_c_tenths: None,
            dewpoint_c_tenths: None,
            wind_dir_degrees: None,
            wind_speed_kt_e5: None,
            wind_gust_kt_e5: None,
            variable_wind_dir_degrees: None,
            visibility_statute_mi: None,
            runway_visual_range: Vec::new(),
            altim_in_hg_hundredths: None,
            sea_level_pressure_mb_tenths: None,
            remarks: Remarks::new(),
            weather_phenomena: Vec::new(),
            sky_condition: Vec::new(),
            flight_category: FlightCategory::UNKN,
            humidity_pct_tenths: None,
        };
        proof {
            assert(rvrs_view(m.runway_visual_range@) =~= Seq::empty());
            assert(strings_view(m.weather_phenomena@) =~= Seq::empty());
            assert(skies_view(m.sky_condition@) =~= Seq::empty());
        }
        run_tokens(&toks, start + 2, &mut m);
        m.station_id = string_from(&toks[start]);
        m.raw_text = String::from_str(line);
        m.observation_time = time;
        m.flight_category = classify(&m.visibility_statute_mi, &m.sky_condition);
        match (m.temp_c_tenths, m.dewpoint_c_tenths) {
            (Some(t), Some(d)) => {
                m.humidity_pct_tenths = Some((1000 - ((t as i64) - (d as i64)) * 5) as i32);
            },
            _ => {},
        }
        Ok(m)
    }
}

// ---- laws ----

/// The observation time of a parsed report keeps the day, hour and minute
/// of its time group, is a valid date-time at most `FUTURE_TOLERANCE_SECS`
/// after `now`, and is the latest such instant with that day, hour and
/// minute.
pub proof fn lemma_observation_time(line: Seq<char>, now: UtcTime)
    requires
        now.wf(),
        now.year >= MIN_YEAR + 1,
    ensures
        match parse_model(line, now) {
            Ok(v) => {
                let t = report_tokens(words(line))[1];
                let o = v.observation_time;
                &&& o.wf()
                &&& o.day == number(t.subrange(0, 2))
                &&& o.hour == number(t.subrange(2, 4))
                &&& o.minute == number(t.subrange(4, 6))
                &&& o.second == 0
                &&& o.spec_unix_seconds() <= now.spec_unix_seconds() + FUTURE_TOLERANCE_SECS
                &&& forall|u: UtcTime|
                    #![trigger u.spec_unix_seconds()]
                    u.wf() && u.day == o.day && u.hour == o.hour && u.minute == o.minute
                        && u.second == 0 && u.spec_unix_seconds() <= now.spec_unix_seconds()
                        + FUTURE_TOLERANCE_SECS ==> u.spec_unix_seconds() <= o.spec_unix_seconds()
            },
            Err(_) => true,
        },
{
    let toks = words(line);
    if toks.len() >= 4 {
        let t = report_tokens(toks)[1];
        if is_time_group(t) {
            lemma_digits_sub(t, 0, 2);
            lemma_digits_sub(t, 2, 4);
            lemma_digits_sub(t, 4, 6);
            reveal_with_fuel(pow10, 3);
            lemma_observation_instant(
                number(t.subrange(0, 2)),
                number(t.subrange(2, 4)),
                number(t.subrange(4, 6)),
                now,
            );
        }
    }
}

/// The flight category of a parsed report is the classification of its own
/// visibility and sky condition.
pub proof fn lemma_category_follows_fields(line: Seq<char>, now: UtcTime)
    ensures
        match parse_model(line, now) {
            Ok(v) => v.flight_category == flight_category(v.visibility, v.sky),
            Err(_) => true,
        },
{
}

proof fn lemma_rvr_run_len(rest: Tokens, m: MetarView)
    ensures
        rvr_run(rest, m).0.len() <= rest.len(),
    decreases rest.len(),
{
    if rest.len() > 0 && is_rvr(rest[0]) {
        lemma_rvr_run_len(rest.skip(1), MetarView { rvr: m.rvr.push(rvr_entry(rest[0])), ..m });
    }
}

proof fn lemma_weather_run_len(rest: Tokens, m: MetarView)
    ensures
        weather_run(rest, m).0.len() <= rest.len(),
    decreases rest.len(),
{
    if rest.len() > 0 && is_weather(rest[0]) {
        lemma_weather_run_len(rest.skip(1), MetarView { weather: m.weather.push(rest[0]), ..m });
    }
}

proof fn lemma_sky_run_len(rest: Tokens, m: MetarView)
    ensures
        sky_run(rest, m).0.len() <= rest.len(),
    decreases rest.len(),
{
    if rest.len() > 0 && is_sky(rest[0]) {
        lemma_sky_run_len(rest.skip(1), MetarView { sky: m.sky.push(sky_entry(rest[0])), ..m });
    }
}

/// The groups after the wind group take no more tokens than they are given.
proof fn lemma_after_wind_len(r2: Tokens, m2: MetarView)
    ensures
        ({
            let (r3, m3) = variable_wind(r2, m2);
            let (r4, m4) = visibility(r3, m3);
            let (r5, m5) = rvr_run(r4, m4);
            let (r6, m6) = weather_run(r5, m5);
            let (r7, m7) = cavok(r6, m6);
            let (r8, m8) = sky_run(r7, m7);
            let (r9, m9) = temperature(r8, m8);
            let (r10, m10) = altimeter(r9, m9);
            let (r11, m11) = qnh(r10, m10);
            let (r12, m12) = tempo(r11, m11);
            let (r13, m13) = remarks(r12, m12);
            r13.len() <= r2.len()
        }),
{
    let (r3, m3) = variable_wind(r2, m2);
    let (r4, m4) = visibility(r3, m3);
    lemma_rvr_run_len(r4, m4);
    let (r5, m5) = rvr_run(r4, m4);
    lemma_weather_run_len(r5, m5);
    let (r6, m6) = weather_run(r5, m5);
    let (r7, m7) = cavok(r6, m6);
    lemma_sky_run_len(r7, m7);
}

/// A wind group whose unit stands apart (`21016 KT`) is read as the same
/// group written in one token (`21016KT`).
pub proof fn lemma_split_wind(a: Seq<char>, u: Seq<char>, post: Tokens, m: MetarView)
    requires
        is_speed_unit(u),
        is_wind_group(a + u),
    ensures
        body(seq![a, u] + post, m) == body(seq![a + u] + post, m),
        run(seq![a, u] + post, m) == run(seq![a + u] + post, m),
{
    let w = a + u;
    let rest1 = seq![a, u] + post;
    let rest2 = seq![w] + post;
    reveal_strlit("AUTO");
    reveal_strlit("COR");
    reveal_strlit("NOSIG");
    assert(rest1[0] == a && rest1[1] == u);
    assert(rest2[0] == w);
    assert(rest1.skip(2) =~= post);
    assert(rest2.skip(1) =~= post);
    assert(wind_unit_len(w) == u.len()) by {
        if u == seq!['K', 'T'] {
            assert(w[w.len() - 1] == 'T' && w[w.len() - 2] == 'K');
        } else {
            assert(w[w.len() - 1] == 'S' && w[w.len() - 2] == 'P' && w[w.len() - 3] == 'M');
        }
    }
    assert(a.len() >= 5);
    assert(a[0] == w[0]);
    assert(a != "AUTO"@ && a != "COR"@ && a != "NOSIG"@) by {
        assert("AUTO"@[0] == 'A' && "COR"@[0] == 'C' && "NOSIG"@[0] == 'N');
        assert(crate::text::is_digit(w[0]) || w[0] == 'V');
    }
    assert(w != "AUTO"@ && w != "COR"@ && w != "NOSIG"@) by {
        assert("AUTO"@[0] == 'A' && "COR"@[0] == 'C' && "NOSIG"@[0] == 'N');
        assert(crate::text::is_digit(w[0]) || w[0] == 'V');
    }
    assert(modifiers(rest1, m) == (rest1, m));
    assert(modifiers(rest2, m) == (rest2, m));
    if post.len() > 0 && is_speed_unit(post[0]) {
        let x = w + post[0];
        assert(rest2[1] == post[0]);
        assert(wind_unit_len(x) == post[0].len()) by {
            if post[0] == seq!['K', 'T'] {
                assert(x[x.len() - 1] == 'T' && x[x.len() - 2] == 'K');
            } else {
                assert(x[x.len() - 1] == 'S' && x[x.len() - 2] == 'P' && x[x.len() - 3] == 'M');
            }
        }
        if x.len() - wind_unit_len(x) == 8 {
            assert(a.len() == 5 && u.len() == 3);
            assert(x[5] == w[5] && w[5] == u[0]);
        }
        assert(!is_wind_group(x));
    }
    assert(wind(rest1, m) == (post, with_wind(w, m)));
    assert(wind(rest2, m) == (post, with_wind(w, m)));
    lemma_after_wind_len(post, with_wind(w, m));
}

/// Parsing depends on the line and the reference time alone: two parses of
/// one line at one time give equal reports, and parsing a report's own raw
/// text again gives that report.
pub proof fn lemma_parse_deterministic(line: Seq<char>, now: UtcTime, a: MetarView, b: MetarView)
    requires
        parse_model(line, now) == Ok::<MetarView, ParseError>(a),
        parse_model(line, now) == Ok::<MetarView, ParseError>(b),
    ensures
        a == b,
        parse_model(a.raw_text, now) == Ok::<MetarView, ParseError>(a),
{
}

} // verus!
