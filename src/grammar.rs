//! The groups a report is made of, each as a predicate on one token and the
//! values read from it.
use vstd::prelude::*;
use crate::text::{all_digits, digits_in, index_of, index_of_char, is_digit, lemma_index_of, lemma_number_bound, number, number_of, pow10, slice_of};

verus! {

// ---- wind ----

/// Characters of the speed unit that ends `t`: 3 for `MPS`, 2 for `KT`, 0 for none.
pub open spec fn wind_unit_len(t: Seq<char>) -> int {
    if t.len() >= 3 && t[t.len() - 3] == 'M' && t[t.len() - 2] == 'P' && t[t.len() - 1] == 'S' {
        3
    } else if t.len() >= 2 && t[t.len() - 2] == 'K' && t[t.len() - 1] == 'T' {
        2
    } else {
        0
    }
}

/// `dddss` or `dddssGgg` followed by `KT` or `MPS`, where `ddd` is a
/// direction in degrees or `VRB`.
pub open spec fn is_wind_group(t: Seq<char>) -> bool {
    let u = wind_unit_len(t);
    &&& u > 0
    &&& (t.len() - u == 5 || (t.len() - u == 8 && t[5] == 'G' && digits_in(t, 6, 8)))
    &&& (digits_in(t, 0, 3) || (t[0] == 'V' && t[1] == 'R' && t[2] == 'B'))
    &&& digits_in(t, 3, 5)
}

pub open spec fn is_speed_unit(t: Seq<char>) -> bool {
    t == seq!['K', 'T'] || t == seq!['M', 'P', 'S']
}

/// Hundred-thousandths of a knot in one unit of the group's speed.
pub open spec fn knot_factor(t: Seq<char>) -> int {
    if wind_unit_len(t) == 3 { 194384 } else { 100000 }
}

pub open spec fn has_gust(t: Seq<char>) -> bool {
    t.len() - wind_unit_len(t) == 8
}

pub fn wind_unit_len_of(t: &Vec<char>) -> (r: usize)
    ensures
        r == wind_unit_len(t@),
{
    let n = t.len();
    if n >= 3 && t[n - 3] == 'M' && t[n - 2] == 'P' && t[n - 1] == 'S' {
        3
    } else if n >= 2 && t[n - 2] == 'K' && t[n - 1] == 'T' {
        2
    } else {
        0
    }
}

pub fn is_wind_group_of(t: &Vec<char>) -> (r: bool)
    ensures
        r == is_wind_group(t@),
{
    let u = wind_unit_len_of(t);
    if u == 0 {
        return false;
    }
    let b = t.len() - u;
    let shape = b == 5 || (b == 8 && t[5] == 'G' && all_digits(t, 6, 8));
    shape && (all_digits(t, 0, 3) || (t[0] == 'V' && t[1] == 'R' && t[2] == 'B')) && all_digits(
        t,
        3,
        5,
    )
}

pub fn is_speed_unit_of(t: &Vec<char>) -> (r: bool)
    ensures
        r == is_speed_unit(t@),
{
    let r = (t.len() == 2 && t[0] == 'K' && t[1] == 'T') || (t.len() == 3 && t[0] == 'M' && t[1]
        == 'P' && t[2] == 'S');
    proof {
        if t@.len() == 2 && t@[0] == 'K' && t@[1] == 'T' {
            assert(t@ =~= seq!['K', 'T']);
        }
        if t@.len() == 3 && t@[0] == 'M' && t@[1] == 'P' && t@[2] == 'S' {
            assert(t@ =~= seq!['M', 'P', 'S']);
        }
    }
    r
}

// ---- variable wind direction ----

/// `dddVddd`.
pub open spec fn is_variable_wind(t: Seq<char>) -> bool {
    t.len() == 7 && digits_in(t, 0, 3) && t[3] == 'V' && digits_in(t, 4, 7)
}

pub fn is_variable_wind_of(t: &Vec<char>) -> (r: bool)
    ensures
        r == is_variable_wind(t@),
{
    t.len() == 7 && all_digits(t, 0, 3) && t[3] == 'V' && all_digits(t, 4, 7)
}

// ---- visibility ----

/// 1 when `t` starts with the bound prefix `M` or `P`, else 0.
pub open spec fn bound_prefix_len(t: Seq<char>) -> int {
    if t.len() > 0 && (t[0] == 'M' || t[0] == 'P') { 1 } else { 0 }
}

/// `n/d`, both decimal digit runs.
pub open spec fn is_fraction(c: Seq<char>) -> bool {
    let k = index_of(c, '/');
    0 < k < c.len() - 1 && digits_in(c, 0, k) && digits_in(c, k + 1, c.len() as int)
}

/// The number between the bound prefix and the `SM` unit.
pub open spec fn sm_core(t: Seq<char>) -> Seq<char> {
    t.subrange(bound_prefix_len(t), t.len() - 2)
}

/// Statute miles: an optional `M`/`P`, a whole number or a fraction, and `SM`.
pub open spec fn is_vis_sm(t: Seq<char>) -> bool {
    &&& t.len() >= 2
    &&& t[t.len() - 2] == 'S'
    &&& t[t.len() - 1] == 'M'
    &&& bound_prefix_len(t) < t.len() - 2
    &&& (digits_in(sm_core(t), 0, sm_core(t).len() as int) || is_fraction(sm_core(t)))
}

/// A visibility in meters: four digits and an optional direction.
pub open spec fn is_vis_meters(t: Seq<char>) -> bool {
    t.len() >= 4 && digits_in(t, 0, 4) && is_direction(t.skip(4))
}

pub open spec fn is_direction(s: Seq<char>) -> bool {
    ||| s.len() == 0
    ||| (s.len() == 1 && (s[0] == 'N' || s[0] == 'S'))
    ||| (s.len() == 2 && (s[0] == 'N' || s[0] == 'S') && (s[1] == 'E' || s[1] == 'W'))
}

/// Statute miles per meter, in units of 10^-9.
pub const MILES_PER_METER_E9: u64 = 621371;

/// Hundredths of a statute mile in `meters` meters, rounded to nearest.
pub open spec fn meters_to_hundredth_miles(meters: int) -> int {
    (meters * MILES_PER_METER_E9 + 5_000_000) / 10_000_000
}

pub fn is_fraction_of(c: &Vec<char>) -> (r: bool)
    ensures
        r == is_fraction(c@),
{
    let k = index_of_char(c, '/');
    0 < k && c.len() >= 1 && k < c.len() - 1 && all_digits(c, 0, k) && all_digits(c, k + 1, c.len())
}

pub fn bound_prefix_len_of(t: &Vec<char>) -> (r: usize)
    ensures
        r == bound_prefix_len(t@),
{
    if t.len() > 0 && (t[0] == 'M' || t[0] == 'P') {
        1
    } else {
        0
    }
}

pub fn is_vis_sm_of(t: &Vec<char>) -> (r: bool)
    ensures
        r == is_vis_sm(t@),
{
    let n = t.len();
    if n < 2 || t[n - 2] != 'S' || t[n - 1] != 'M' {
        return false;
    }
    let p = bound_prefix_len_of(t);
    if p >= n - 2 {
        return false;
    }
    let core = slice_of(t, p, n - 2);
    all_digits(&core, 0, core.len()) || is_fraction_of(&core)
}

pub fn is_vis_meters_of(t: &Vec<char>) -> (r: bool)
    ensures
        r == is_vis_meters(t@),
{
    if t.len() < 4 || !all_digits(t, 0, 4) {
        return false;
    }
    let n = t.len();
    let r = n == 4 || (n == 5 && (t[4] == 'N' || t[4] == 'S')) || (n == 6 && (t[4] == 'N' || t[4]
        == 'S') && (t[5] == 'E' || t[5] == 'W'));
    proof {
        let s = t@.skip(4);
        assert(s.len() == n - 4);
        if n >= 5 {
            assert(s[0] == t@[4]);
        }
        if n >= 6 {
            assert(s[1] == t@[5]);
        }
    }
    r
}

// ---- runway visual range ----

pub open spec fn is_rvr_value(x: Seq<char>) -> bool {
    ||| (x.len() == 4 && digits_in(x, 0, 4))
    ||| (x.len() == 5 && (x[0] == 'P' || x[0] == 'M') && digits_in(x, 1, 5))
}

pub open spec fn is_runway(r: Seq<char>) -> bool {
    let n = if r.len() > 0 && (r.last() == 'L' || r.last() == 'R' || r.last() == 'C') {
        r.len() - 1
    } else {
        r.len() as int
    };
    r.len() >= 2 && r[0] == 'R' && 2 <= n <= 4 && digits_in(r, 1, n)
}

/// The range part of an RVR group: after the `/`, before `FT`.
pub open spec fn rvr_range(t: Seq<char>) -> Seq<char> {
    t.subrange(index_of(t, '/') + 1, t.len() - 2)
}

pub open spec fn is_rvr_variable(v: Seq<char>) -> bool {
    let j = index_of(v, 'V');
    j < v.len() && is_rvr_value(v.subrange(0, j)) && is_rvr_value(v.subrange(j + 1, v.len() as int))
}

/// `Rnn[LRC]/[PM]nnnnFT` or `Rnn[LRC]/[PM]nnnnV[PM]nnnnFT`.
pub open spec fn is_rvr(t: Seq<char>) -> bool {
    let k = index_of(t, '/');
    &&& t.len() >= 2
    &&& t[t.len() - 2] == 'F'
    &&& t[t.len() - 1] == 'T'
    &&& k + 1 <= t.len() - 2
    &&& is_runway(t.subrange(0, k))
    &&& (is_rvr_value(rvr_range(t)) || is_rvr_variable(rvr_range(t)))
}

pub fn is_rvr_value_of(x: &Vec<char>) -> (r: bool)
    ensures
        r == is_rvr_value(x@),
{
    (x.len() == 4 && all_digits(x, 0, 4)) || (x.len() == 5 && (x[0] == 'P' || x[0] == 'M')
        && all_digits(x, 1, 5))
}

pub fn is_runway_of(r: &Vec<char>) -> (b: bool)
    ensures
        b == is_runway(r@),
{
    let len = r.len();
    let n = if len > 0 && (r[len - 1] == 'L' || r[len - 1] == 'R' || r[len - 1] == 'C') {
        len - 1
    } else {
        len
    };
    len >= 2 && r[0] == 'R' && 2 <= n && n <= 4 && all_digits(r, 1, n)
}

pub fn is_rvr_variable_of(v: &Vec<char>) -> (r: bool)
    ensures
        r == is_rvr_variable(v@),
{
    let j = index_of_char(v, 'V');
    proof {
        lemma_index_of(v@, 'V');
    }
    if j >= v.len() {
        return false;
    }
    is_rvr_value_of(&slice_of(v, 0, j)) && is_rvr_value_of(&slice_of(v, j + 1, v.len()))
}

pub fn is_rvr_of(t: &Vec<char>) -> (r: bool)
    ensures
        r == is_rvr(t@),
{
    let n = t.len();
    if n < 2 || t[n - 2] != 'F' || t[n - 1] != 'T' {
        return false;
    }
    let k = index_of_char(t, '/');
    proof {
        lemma_index_of(t@, '/');
    }
    if k >= n - 2 {
        return false;
    }
    if !is_runway_of(&slice_of(t, 0, k)) {
        return false;
    }
    let v = slice_of(t, k + 1, n - 2);
    is_rvr_value_of(&v) || is_rvr_variable_of(&v)
}

// ---- present weather ----

pub open spec fn is_descriptor(a: char, b: char) -> bool {
    ||| (a == 'M' && b == 'I')
    ||| (a == 'P' && b == 'R')
    ||| (a == 'B' && b == 'C')
    ||| (a == 'D' && b == 'R')
    ||| (a == 'B' && b == 'L')
    ||| (a == 'S' && b == 'H')
    ||| (a == 'T' && b == 'S')
    ||| (a == 'F' && b == 'Z')
}

pub open spec fn is_phenomenon(a: char, b: char) -> bool {
    ||| (a == 'D' && (b == 'Z' || b == 'U' || b == 'S'))
    ||| (a == 'R' && b == 'A')
    ||| (a == 'S' && (b == 'N' || b == 'G' || b == 'A' || b == 'Q' || b == 'S'))
    ||| (a == 'I' && b == 'C')
    ||| (a == 'P' && (b == 'L' || b == 'Y' || b == 'O'))
    ||| (a == 'G' && (b == 'R' || b == 'S'))
    ||| (a == 'U' && b == 'P')
    ||| (a == 'B' && b == 'R')
    ||| (a == 'F' && (b == 'G' || b == 'U' || b == 'C'))
    ||| (a == 'V' && b == 'A')
    ||| (a == 'H' && b == 'Z')
}

pub open spec fn intensity_len(t: Seq<char>) -> int {
    if t.len() > 0 && (t[0] == '+' || t[0] == '-') {
        1
    } else if t.len() >= 2 && t[0] == 'V' && t[1] == 'C' {
        2
    } else {
        0
    }
}

pub open spec fn descriptor_len(t: Seq<char>, i: int) -> int {
    if i + 2 <= t.len() && is_descriptor(t[i], t[i + 1]) { 2 } else { 0 }
}

pub open spec fn phenomenon_len(t: Seq<char>, i: int) -> int {
    if i + 2 <= t.len() && is_phenomenon(t[i], t[i + 1]) { 2 } else { 0 }
}

/// An optional intensity or proximity (`+`, `-`, `VC`), an optional
/// descriptor, and an optional phenomenon, and nothing else.
pub open spec fn is_weather(t: Seq<char>) -> bool {
    let a = intensity_len(t);
    let b = descriptor_len(t, a);
    let c = phenomenon_len(t, a + b);
    t.len() > 0 && a + b + c == t.len()
}

fn is_descriptor_of(a: char, b: char) -> (r: bool)
    ensures
        r == is_descriptor(a, b),
{
    (a == 'M' && b == 'I') || (a == 'P' && b == 'R') || (a == 'B' && b == 'C') || (a == 'D' && b
        == 'R') || (a == 'B' && b == 'L') || (a == 'S' && b == 'H') || (a == 'T' && b == 'S') || (a
        == 'F' && b == 'Z')
}

fn is_phenomenon_of(a: char, b: char) -> (r: bool)
    ensures
        r == is_phenomenon(a, b),
{
    (a == 'D' && (b == 'Z' || b == 'U' || b == 'S')) || (a == 'R' && b == 'A') || (a == 'S' && (b
        == 'N' || b == 'G' || b == 'A' || b == 'Q' || b == 'S')) || (a == 'I' && b == 'C') || (a
        == 'P' && (b == 'L' || b == 'Y' || b == 'O')) || (a == 'G' && (b == 'R' || b == 'S')) || (a
        == 'U' && b == 'P') || (a == 'B' && b == 'R') || (a == 'F' && (b == 'G' || b == 'U' || b
        == 'C')) || (a == 'V' && b == 'A') || (a == 'H' && b == 'Z')
}

pub fn is_weather_of(t: &Vec<char>) -> (r: bool)
    ensures
        r == is_weather(t@),
{
    let n = t.len();
    let a: usize = if n > 0 && (t[0] == '+' || t[0] == '-') {
        1
    } else if n >= 2 && t[0] == 'V' && t[1] == 'C' {
        2
    } else {
        0
    };
    let b: usize = if a + 2 <= n && is_descriptor_of(t[a], t[a + 1]) {
        2
    } else {
        0
    };
    let c: usize = if a + b + 2 <= n && is_phenomenon_of(t[a + b], t[a + b + 1]) {
        2
    } else {
        0
    };
    n > 0 && a + b + c == n
}

// ---- sky condition ----

pub open spec fn is_clear_code(t: Seq<char>) -> bool {
    t == seq!['C', 'L', 'R'] || t == seq!['S', 'K', 'C'] || t == seq!['N', 'S', 'C'] || t == seq![
        'N',
        'C',
        'D',
    ]
}

/// Length of the cover code that starts `t`: 3 for `FEW`, `SCT`, `BKN`,
/// `OVC`; 2 for `VV`; else 0.
pub open spec fn cover_len(t: Seq<char>) -> int {
    if t.len() >= 3 && ((t[0] == 'F' && t[1] == 'E' && t[2] == 'W') || (t[0] == 'S' && t[1] == 'C'
        && t[2] == 'T') || (t[0] == 'B' && t[1] == 'K' && t[2] == 'N') || (t[0] == 'O' && t[1]
        == 'V' && t[2] == 'C')) {
        3
    } else if t.len() >= 2 && t[0] == 'V' && t[1] == 'V' {
        2
    } else {
        0
    }
}

pub open spec fn is_base_char(c: char) -> bool {
    is_digit(c) || c == '/'
}

/// Length of the layer base that follows the cover code at `c`: 3 or 0.
pub open spec fn base_len(t: Seq<char>, c: int) -> int {
    if c + 3 <= t.len() && is_base_char(t[c]) && is_base_char(t[c + 1]) && is_base_char(t[c + 2]) {
        3
    } else {
        0
    }
}

pub open spec fn is_convective(s: Seq<char>) -> bool {
    s == seq!['C', 'B'] || s == seq!['T', 'C', 'U']
}

/// A clear-sky code, or a cover code with an optional base of three digits
/// or `/`, and an optional `CB` or `TCU`.
pub open spec fn is_sky(t: Seq<char>) -> bool {
    let c = cover_len(t);
    let b = base_len(t, c);
    ||| is_clear_code(t)
    ||| (c > 0 && (c + b == t.len() || is_convective(t.skip(c + b))))
}

pub fn cover_len_of(t: &Vec<char>) -> (r: usize)
    ensures
        r == cover_len(t@),
{
    let n = t.len();
    if n >= 3 && ((t[0] == 'F' && t[1] == 'E' && t[2] == 'W') || (t[0] == 'S' && t[1] == 'C' && t[2]
        == 'T') || (t[0] == 'B' && t[1] == 'K' && t[2] == 'N') || (t[0] == 'O' && t[1] == 'V'
        && t[2] == 'C')) {
        3
    } else if n >= 2 && t[0] == 'V' && t[1] == 'V' {
        2
    } else {
        0
    }
}

fn is_base_char_of(c: char) -> (r: bool)
    ensures
        r == is_base_char(c),
{
    ('0' <= c && c <= '9') || c == '/'
}

pub fn base_len_of(t: &Vec<char>, c: usize) -> (r: usize)
    requires
        c <= t@.len(),
    ensures
        r == base_len(t@, c as int),
{
    if t.len() - c >= 3 && is_base_char_of(t[c]) && is_base_char_of(t[c + 1]) && is_base_char_of(
        t[c + 2],
    ) {
        3
    } else {
        0
    }
}

/// Whether `t` spells exactly the three (or fewer) given characters.
fn spells3(t: &Vec<char>, lo: usize, a: char, b: char, c: char) -> (r: bool)
    requires
        lo <= t@.len(),
    ensures
        r == (t@.skip(lo as int) == seq![a, b, c]),
{
    let r = t.len() - lo == 3 && t[lo] == a && t[lo + 1] == b && t[lo + 2] == c;
    proof {
        if t@.len() - lo == 3 {
            if r {
                assert(t@.skip(lo as int) =~= seq![a, b, c]);
            } else {
                let s = t@.skip(lo as int);
                if s == seq![a, b, c] {
                    assert(s[0] == a && s[1] == b && s[2] == c);
                }
            }
        } else {
            assert(t@.skip(lo as int).len() != 3);
        }
    }
    r
}

fn spells2(t: &Vec<char>, lo: usize, a: char, b: char) -> (r: bool)
    requires
        lo <= t@.len(),
    ensures
        r == (t@.skip(lo as int) == seq![a, b]),
{
    let r = t.len() - lo == 2 && t[lo] == a && t[lo + 1] == b;
    proof {
        if t@.len() - lo == 2 {
            if r {
                assert(t@.skip(lo as int) =~= seq![a, b]);
            } else {
                let s = t@.skip(lo as int);
                if s == seq![a, b] {
                    assert(s[0] == a && s[1] == b);
                }
            }
        } else {
            assert(t@.skip(lo as int).len() != 2);
        }
    }
    r
}

pub fn is_clear_code_of(t: &Vec<char>) -> (r: bool)
    ensures
        r == is_clear_code(t@),
{
    proof {
        assert(t@.skip(0) =~= t@);
    }
    spells3(t, 0, 'C', 'L', 'R') || spells3(t, 0, 'S', 'K', 'C') || spells3(t, 0, 'N', 'S', 'C')
        || spells3(t, 0, 'N', 'C', 'D')
}

pub fn is_convective_at(t: &Vec<char>, lo: usize) -> (r: bool)
    requires
        lo <= t@.len(),
    ensures
        r == is_convective(t@.skip(lo as int)),
{
    spells2(t, lo, 'C', 'B') || spells3(t, lo, 'T', 'C', 'U')
}

pub fn is_sky_of(t: &Vec<char>) -> (r: bool)
    ensures
        r == is_sky(t@),
{
    if is_clear_code_of(t) {
        return true;
    }
    let c = cover_len_of(t);
    if c == 0 {
        return false;
    }
    let b = base_len_of(t, c);
    c + b == t.len() || is_convective_at(t, c + b)
}

// ---- temperature and dewpoint ----

pub open spec fn is_temp_part(p: Seq<char>) -> bool {
    ||| p.len() == 0
    ||| (p.len() == 2 && digits_in(p, 0, 2))
    ||| (p.len() == 3 && p[0] == 'M' && digits_in(p, 1, 3))
}

/// `[M]tt/[M]dd`, either side possibly empty.
pub open spec fn is_temp_group(t: Seq<char>) -> bool {
    let k = index_of(t, '/');
    k < t.len() && is_temp_part(t.subrange(0, k)) && is_temp_part(t.subrange(k + 1, t.len() as int))
}

/// Tenths of a degree in a non-empty temperature part.
pub open spec fn temp_part_tenths(p: Seq<char>) -> int {
    if p.len() == 3 {
        -number(p.skip(1)) * 10
    } else {
        number(p) * 10
    }
}

pub fn is_temp_part_of(p: &Vec<char>) -> (r: bool)
    ensures
        r == is_temp_part(p@),
{
    p.len() == 0 || (p.len() == 2 && all_digits(p, 0, 2)) || (p.len() == 3 && p[0] == 'M'
        && all_digits(p, 1, 3))
}

pub fn is_temp_group_of(t: &Vec<char>) -> (r: bool)
    ensures
        r == is_temp_group(t@),
{
    let k = index_of_char(t, '/');
    proof {
        lemma_index_of(t@, '/');
    }
    k < t.len() && is_temp_part_of(&slice_of(t, 0, k)) && is_temp_part_of(
        &slice_of(t, k + 1, t.len()),
    )
}

pub fn temp_part_tenths_of(p: &Vec<char>) -> (r: i32)
    requires
        is_temp_part(p@),
        p@.len() > 0,
    ensures
        r == temp_part_tenths(p@),
{
    if p.len() == 3 {
        proof {
            assert(p@.subrange(1, 3) =~= p@.skip(1));
            lemma_number_bound(p@.skip(1));
            reveal_with_fuel(pow10, 3);
        }
        -((number_of(p, 1, 3) as i32) * 10)
    } else {
        proof {
            assert(p@.subrange(0, 2) =~= p@);
            lemma_number_bound(p@);
            reveal_with_fuel(pow10, 3);
        }
        (number_of(p, 0, 2) as i32) * 10
    }
}

// ---- pressure ----

/// `A` and four digits: the altimeter in hundredths of an inch.
pub open spec fn is_altimeter(t: Seq<char>) -> bool {
    t.len() == 5 && t[0] == 'A' && digits_in(t, 1, 5)
}

/// `Q` and four digits: the pressure in millibars.
pub open spec fn is_qnh(t: Seq<char>) -> bool {
    t.len() == 5 && t[0] == 'Q' && digits_in(t, 1, 5)
}

pub fn is_altimeter_of(t: &Vec<char>) -> (r: bool)
    ensures
        r == is_altimeter(t@),
{
    t.len() == 5 && t[0] == 'A' && all_digits(t, 1, 5)
}

pub fn is_qnh_of(t: &Vec<char>) -> (r: bool)
    ensures
        r == is_qnh(t@),
{
    t.len() == 5 && t[0] == 'Q' && all_digits(t, 1, 5)
}

// ---- remarks ----

/// `SLP` and three digits: tenths of a millibar, without the leading 9 or 10.
pub open spec fn is_slp(t: Seq<char>) -> bool {
    t.len() == 6 && t[0] == 'S' && t[1] == 'L' && t[2] == 'P' && digits_in(t, 3, 6)
}

/// Sea-level pressure in tenths of a millibar: codes above 500 are read
/// in the 900s, the others in the 1000s.
pub open spec fn slp_tenths(code: int) -> int {
    if code > 500 { code + 9000 } else { code + 10000 }
}

/// `T`, then sign digit and three digits for the temperature, and the same
/// for the dewpoint, in tenths of a degree; sign digit 1 is negative.
pub open spec fn is_hourly_temp(t: Seq<char>) -> bool {
    t.len() == 9 && t[0] == 'T' && (t[1] == '0' || t[1] == '1') && digits_in(t, 2, 5) && (t[5]
        == '0' || t[5] == '1') && digits_in(t, 6, 9)
}

pub open spec fn signed_tenths(sign: char, v: int) -> int {
    if sign == '0' { v } else { -v }
}

/// `dddss[s]/[hh]mm`: peak wind direction, speed, and time.
pub open spec fn is_peak_wind(t: Seq<char>) -> bool {
    let k = index_of(t, '/');
    (k == 5 || k == 6) && digits_in(t, 0, k) && (t.len() - k - 1 == 2 || t.len() - k - 1 == 4)
        && digits_in(t, k + 1, t.len() as int)
}

pub fn is_slp_of(t: &Vec<char>) -> (r: bool)
    ensures
        r == is_slp(t@),
{
    t.len() == 6 && t[0] == 'S' && t[1] == 'L' && t[2] == 'P' && all_digits(t, 3, 6)
}

pub fn is_hourly_temp_of(t: &Vec<char>) -> (r: bool)
    ensures
        r == is_hourly_temp(t@),
{
    t.len() == 9 && t[0] == 'T' && (t[1] == '0' || t[1] == '1') && all_digits(t, 2, 5) && (t[5]
        == '0' || t[5] == '1') && all_digits(t, 6, 9)
}

pub fn is_peak_wind_of(t: &Vec<char>) -> (r: bool)
    ensures
        r == is_peak_wind(t@),
{
    let k = index_of_char(t, '/');
    proof {
        lemma_index_of(t@, '/');
    }
    (k == 5 || k == 6) && k < t.len() && all_digits(t, 0, k) && (t.len() - k - 1 == 2 || t.len() - k - 1 == 4)
        && all_digits(t, k + 1, t.len())
}

} // verus!
