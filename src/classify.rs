//! Flight category from visibility and ceiling.
use vstd::prelude::*;
use crate::report::{FlightCategory, SkyCondition, SkyConditionView, skies_view, opt_view};
use crate::text::{chars_of, is_word, ends_with, index_of, lemma_index_of, index_of_char, digits_in, all_digits, number, is_digit, lemma_number_bound};

verus! {

/// Whole statute miles read above this are counted as this many.
pub const MILES_CAP: u32 = 1000;

/// `s` without a leading `M` or `P`.
pub open spec fn strip_bound_prefix(s: Seq<char>) -> Seq<char> {
    if s.len() > 0 && (s[0] == 'M' || s[0] == 'P') {
        s.skip(1)
    } else {
        s
    }
}

/// `s` without a trailing `SM`.
pub open spec fn strip_unit(s: Seq<char>) -> Seq<char> {
    if ends_with(s, seq!['S', 'M']) {
        s.subrange(0, s.len() - 2)
    } else {
        s
    }
}

/// The whole part of a decimal number (`12`, `0.25`), if `s` is one.
pub open spec fn decimal_whole(s: Seq<char>) -> Option<int> {
    let k = index_of(s, '.');
    if k == s.len() {
        if s.len() > 0 && digits_in(s, 0, s.len() as int) {
            Some(number(s))
        } else {
            None
        }
    } else if 0 < k < s.len() - 1 && digits_in(s, 0, k) && digits_in(s, k + 1, s.len() as int) {
        Some(number(s.subrange(0, k)))
    } else {
        None
    }
}

/// Whole statute miles of a visibility such as `10`, `M0.25`, `P6SM`.
pub open spec fn visibility_miles(s: Seq<char>) -> Option<int> {
    decimal_whole(strip_unit(strip_bound_prefix(s)))
}

/// Feet to the lowest layer that makes a ceiling: an obscured sky (`VV`)
/// is a ceiling at the ground, a broken or overcast first layer is one at its
/// base (at the ground when the base is unknown); otherwise there is none,
/// counted as 3000.
pub open spec fn ceiling_ft(sky: Seq<SkyConditionView>) -> int {
    if sky.len() == 0 {
        3000
    } else if sky[0].sky_cover == seq!['V', 'V'] {
        0
    } else if sky[0].sky_cover == seq!['B', 'K', 'N'] || sky[0].sky_cover == seq!['O', 'V', 'C'] {
        match sky[0].cloud_base_ft_agl {
            Some(b) => b as int,
            None => 0,
        }
    } else {
        3000
    }
}

/// The flight category. A visibility that does not read as a number counts
/// as absent; an absent visibility counts as 5 miles, unless the sky is
/// absent too, which leaves the category unknown.
pub open spec fn flight_category(vis: Option<Seq<char>>, sky: Seq<SkyConditionView>) -> FlightCategory {
    let miles = match vis {
        Some(s) => visibility_miles(s),
        None => None,
    };
    if miles.is_none() && sky.len() == 0 {
        FlightCategory::UNKN
    } else {
        let v = match miles {
            Some(m) => m,
            None => 5,
        };
        let c = ceiling_ft(sky);
        if v >= 5 && c >= 3000 {
            FlightCategory::VFR
        } else if v >= 3 && c >= 1000 {
            FlightCategory::MVFR
        } else if v >= 1 && c >= 500 {
            FlightCategory::IFR
        } else {
            FlightCategory::LIFR
        }
    }
}

pub open spec fn capped(n: int) -> int {
    if n > MILES_CAP { MILES_CAP as int } else { n }
}

/// The number spelled by the digits `t[lo..hi]`, capped.
fn capped_number_of(t: &Vec<char>, lo: usize, hi: usize) -> (r: u32)
    requires
        lo <= hi <= t@.len(),
        digits_in(t@, lo as int, hi as int),
    ensures
        r == capped(number(t@.subrange(lo as int, hi as int))),
{
    let mut acc: u32 = 0;
    let mut i = lo;
    while i < hi
        invariant
            lo <= i <= hi,
            hi <= t@.len(),
            digits_in(t@, lo as int, hi as int),
            acc == capped(number(t@.subrange(lo as int, i as int))),
        decreases hi - i,
    {
        let ghost p = t@.subrange(lo as int, i as int + 1);
        proof {
            assert(p.drop_last() =~= t@.subrange(lo as int, i as int));
            assert(is_digit(t@[i as int]));
            assert(digits_in(p.drop_last(), 0, p.len() - 1)) by {
                assert forall|j: int| 0 <= j < p.len() - 1 implies is_digit(#[trigger] p.drop_last()[j]) by {
                    assert(p.drop_last()[j] == t@[lo + j]);
                }
            }
            lemma_number_bound(p.drop_last());
        }
        let d = (t[i] as u32) - ('0' as u32);
        acc = if acc * 10 + d > MILES_CAP { MILES_CAP } else { acc * 10 + d };
        i += 1;
    }
    acc
}

/// Whole miles of a visibility, capped; `None` when it is not a number.
fn visibility_miles_of(s: &Vec<char>) -> (r: Option<u32>)
    ensures
        match visibility_miles(s@) {
            Some(m) => m >= 0 && r == Some(capped(m) as u32),
            None => r.is_none(),
        },
{
    let lo: usize = if s.len() > 0 && (s[0] == 'M' || s[0] == 'P') { 1 } else { 0 };
    let ghost a = strip_bound_prefix(s@);
    proof {
        assert(a =~= s@.subrange(lo as int, s@.len() as int));
    }
    let sm = ends_with_sm(s, lo);
    let hi: usize = if sm { s.len() - 2 } else { s.len() };
    let ghost b = strip_unit(a);
    proof {
        if sm {
            assert(a.subrange(a.len() - 2, a.len() as int) =~= s@.subrange(s@.len() - 2, s@.len() as int));
        } else {
            assert(!ends_with(a, seq!['S', 'M'])) by {
                if ends_with(a, seq!['S', 'M']) {
                    assert(a.subrange(a.len() - 2, a.len() as int)[0] == s@[s@.len() - 2]);
                    assert(a.subrange(a.len() - 2, a.len() as int)[1] == s@[s@.len() - 1]);
                }
            }
        }
        assert(b =~= s@.subrange(lo as int, hi as int));
    }
    let body = crate::text::slice_of(s, lo, hi);
    let k = index_of_char(&body, '.');
    proof {
        lemma_index_of(body@, '.');
    }
    if k == body.len() {
        if body.len() > 0 && all_digits(&body, 0, body.len()) {
            proof {
                assert(body@.subrange(0, body@.len() as int) =~= body@);
                lemma_number_bound(body@);
            }
            Some(capped_number_of(&body, 0, body.len()))
        } else {
            None
        }
    } else if 0 < k && k < body.len() - 1 && all_digits(&body, 0, k) && all_digits(
        &body,
        k + 1,
        body.len(),
    ) {
        proof {
            let p = body@.subrange(0, k as int);
            assert(digits_in(p, 0, p.len() as int)) by {
                assert forall|j: int| 0 <= j < p.len() implies is_digit(#[trigger] p[j]) by {
                    assert(p[j] == body@[j]);
                }
            }
            lemma_number_bound(p);
        }
        Some(capped_number_of(&body, 0, k))
    } else {
        None
    }
}

/// Whether `s[lo..]` holds at least two characters and ends with `SM`.
fn ends_with_sm(s: &Vec<char>, lo: usize) -> (r: bool)
    requires
        lo <= s@.len(),
    ensures
        r == ends_with(s@.subrange(lo as int, s@.len() as int), seq!['S', 'M']),
{
    let n = s.len();
    let r = n - lo >= 2 && s[n - 2] == 'S' && s[n - 1] == 'M';
    proof {
        let a = s@.subrange(lo as int, s@.len() as int);
        if n - lo >= 2 {
            assert(a.subrange(a.len() - 2, a.len() as int) =~= seq![s@[n - 2], s@[n - 1]]);
        }
    }
    r
}

/// The flight category of a visibility and a sky condition.
pub fn classify(visibility: &Option<String>, sky_condition: &Vec<SkyCondition>) -> (r: FlightCategory)
    ensures
        r == flight_category(opt_view(*visibility), skies_view(sky_condition@)),
{
    let miles: Option<u32> = match visibility {
        Some(s) => visibility_miles_of(&chars_of(s.as_str())),
        None => None,
    };
    let ghost sky = skies_view(sky_condition@);
    if miles.is_none() && sky_condition.len() == 0 {
        return FlightCategory::UNKN;
    }
    let v: u32 = match miles {
        Some(m) => m,
        None => 5,
    };
    let c: i64 = if sky_condition.len() == 0 {
        3000
    } else {
        let first = &sky_condition[0];
        let cover = chars_of(first.sky_cover.as_str());
        proof {
            assert(sky[0] == first@);
            reveal_strlit("VV");
            reveal_strlit("BKN");
            reveal_strlit("OVC");
            assert("VV"@ =~= seq!['V', 'V']);
            assert("BKN"@ =~= seq!['B', 'K', 'N']);
            assert("OVC"@ =~= seq!['O', 'V', 'C']);
        }
        if is_word(&cover, "VV") {
            0
        } else if is_word(&cover, "BKN") || is_word(&cover, "OVC") {
            match first.cloud_base_ft_agl {
                Some(b) => b as i64,
                None => 0,
            }
        } else {
            3000
        }
    };
    if v >= 5 && c >= 3000 {
        FlightCategory::VFR
    } else if v >= 3 && c >= 1000 {
        FlightCategory::MVFR
    } else if v >= 1 && c >= 500 {
        FlightCategory::IFR
    } else {
        FlightCategory::LIFR
    }
}

} // verus!
