//! Characters, words and digit groups of a report line.
use vstd::prelude::*;
use vstd::std_specs::iter::IteratorSpec;

verus! {

/// The characters of the string, in order.
pub(crate) fn chars_of(s: &str) -> (r: Vec<char>)
    ensures
        r@ == s@,
{
    broadcast use vstd::string::axiom_spec_iter, vstd::string::next_postcondition;

    let mut it = s.chars();
    let mut out: Vec<char> = Vec::new();
    loop
        invariant
            it.obeys_prophetic_iter_laws(),
            it.decrease() is Some,
            out@ + it.remaining() == s@,
        ensures
            out@ == s@,
        decreases it.decrease()->0,
    {
        let ghost before = it.remaining();
        match it.next() {
            Some(c) => {
                proof {
                    assert(before.len() > 0);
                    assert(before =~= seq![c] + it.remaining());
                }
                out.push(c);
                proof {
                    assert(out@ + it.remaining() =~= s@);
                }
            },
            None => {
                proof {
                    assert(out@ =~= s@);
                }
                break;
            },
        }
    }
    out
}

/// Relies on `String: FromIterator<char>`: a string made of the given
/// characters, in order.
#[verifier::external_body]
pub(crate) fn string_from(cs: &Vec<char>) -> (r: String)
    ensures
        r@ == cs@,
{
    cs.iter().collect()
}

/// Unicode `White_Space`, the set that `char::is_whitespace` tests.
pub open spec fn is_space(c: char) -> bool {
    ||| ('\u{9}' <= c && c <= '\u{d}')
    ||| c == ' '
    ||| c == '\u{85}'
    ||| c == '\u{a0}'
    ||| c == '\u{1680}'
    ||| ('\u{2000}' <= c && c <= '\u{200a}')
    ||| c == '\u{2028}'
    ||| c == '\u{2029}'
    ||| c == '\u{202f}'
    ||| c == '\u{205f}'
    ||| c == '\u{3000}'
}

pub fn is_space_char(c: char) -> (r: bool)
    ensures
        r == is_space(c),
{
    ('\u{9}' <= c && c <= '\u{d}') || c == ' ' || c == '\u{85}' || c == '\u{a0}' || c
        == '\u{1680}' || ('\u{2000}' <= c && c <= '\u{200a}') || c == '\u{2028}' || c
        == '\u{2029}' || c == '\u{202f}' || c == '\u{205f}' || c == '\u{3000}'
}

/// Reading `s` left to right: the words completed so far, and the word in
/// progress.
pub open spec fn split_state(s: Seq<char>) -> (Seq<Seq<char>>, Seq<char>)
    decreases s.len(),
{
    if s.len() == 0 {
        (Seq::empty(), Seq::empty())
    } else {
        let (done, cur) = split_state(s.drop_last());
        if is_space(s.last()) {
            if cur.len() > 0 {
                (done.push(cur), Seq::empty())
            } else {
                (done, Seq::empty())
            }
        } else {
            (done, cur.push(s.last()))
        }
    }
}

/// The maximal runs of non-space characters of `s`, in order.
pub open spec fn words(s: Seq<char>) -> Seq<Seq<char>> {
    let (done, cur) = split_state(s);
    if cur.len() > 0 {
        done.push(cur)
    } else {
        done
    }
}

pub open spec fn view_words(v: Seq<Vec<char>>) -> Seq<Seq<char>> {
    v.map_values(|t: Vec<char>| t@)
}

/// Splits a line into its words.
pub fn split_words(line: &Vec<char>) -> (r: Vec<Vec<char>>)
    ensures
        view_words(r@) == words(line@),
{
    let mut done: Vec<Vec<char>> = Vec::new();
    let mut cur: Vec<char> = Vec::new();
    let mut i: usize = 0;
    while i < line.len()
        invariant
            i <= line@.len(),
            (view_words(done@), cur@) == split_state(line@.subrange(0, i as int)),
        decreases line@.len() - i,
    {
        let c = line[i];
        proof {
            let p = line@.subrange(0, i as int + 1);
            assert(p.drop_last() =~= line@.subrange(0, i as int));
            assert(p.last() == c);
        }
        if is_space_char(c) {
            if cur.len() > 0 {
                let w = cur;
                proof {
                    assert(view_words(done@.push(w)) =~= view_words(done@).push(w@));
                }
                done.push(w);
                cur = Vec::new();
            }
        } else {
            cur.push(c);
        }
        i += 1;
    }
    proof {
        assert(line@.subrange(0, i as int) =~= line@);
    }
    if cur.len() > 0 {
        let w = cur;
        proof {
            assert(view_words(done@.push(w)) =~= view_words(done@).push(w@));
        }
        done.push(w);
    }
    done
}

/// Whether `t` spells the word `w`.
pub fn is_word(t: &Vec<char>, w: &str) -> (r: bool)
    ensures
        r == (t@ == w@),
{
    let n = w.unicode_len();
    if t.len() != n {
        return false;
    }
    let mut i: usize = 0;
    while i < n
        invariant
            n == w@.len(),
            t@.len() == n,
            i <= n,
            forall|j: int| 0 <= j < i ==> t@[j] == w@[j],
        decreases n - i,
    {
        if t[i] != w.get_char(i) {
            return false;
        }
        i += 1;
    }
    assert(t@ =~= w@);
    true
}

pub open spec fn is_digit(c: char) -> bool {
    '0' <= c && c <= '9'
}

pub open spec fn digit_value(c: char) -> int {
    c as int - '0' as int
}

/// All characters of `s` in `[lo, hi)` are decimal digits.
pub open spec fn digits_in(s: Seq<char>, lo: int, hi: int) -> bool {
    forall|i: int| lo <= i < hi ==> is_digit(#[trigger] s[i])
}

/// The number that the decimal digits of `s` spell.
pub open spec fn number(s: Seq<char>) -> int
    decreases s.len(),
{
    if s.len() == 0 {
        0
    } else {
        number(s.drop_last()) * 10 + digit_value(s.last())
    }
}

pub proof fn lemma_number_bound(s: Seq<char>)
    requires
        digits_in(s, 0, s.len() as int),
    ensures
        0 <= number(s) < pow10(s.len() as nat),
    decreases s.len(),
{
    if s.len() > 0 {
        let p = s.drop_last();
        assert(digits_in(p, 0, p.len() as int)) by {
            assert forall|i: int| 0 <= i < p.len() implies is_digit(#[trigger] p[i]) by {
                assert(p[i] == s[i]);
            }
        }
        assert(is_digit(s[s.len() - 1]));
        lemma_number_bound(p);
    }
}

pub open spec fn pow10(n: nat) -> int
    decreases n,
{
    if n == 0 {
        1
    } else {
        10 * pow10((n - 1) as nat)
    }
}

pub fn is_digit_char(c: char) -> (r: bool)
    ensures
        r == is_digit(c),
{
    '0' <= c && c <= '9'
}

pub fn all_digits(t: &Vec<char>, lo: usize, hi: usize) -> (r: bool)
    requires
        lo <= hi <= t@.len(),
    ensures
        r == digits_in(t@, lo as int, hi as int),
{
    let mut i = lo;
    while i < hi
        invariant
            lo <= i <= hi,
            hi <= t@.len(),
            digits_in(t@, lo as int, i as int),
        decreases hi - i,
    {
        if !is_digit_char(t[i]) {
            return false;
        }
        i += 1;
    }
    true
}

/// The number spelled by the digits `t[lo..hi]`, of at most nine digits.
pub fn number_of(t: &Vec<char>, lo: usize, hi: usize) -> (r: u32)
    requires
        lo <= hi <= t@.len(),
        hi - lo <= 9,
        digits_in(t@, lo as int, hi as int),
    ensures
        r == number(t@.subrange(lo as int, hi as int)),
{
    let mut acc: u32 = 0;
    let mut i = lo;
    while i < hi
        invariant
            lo <= i <= hi,
            hi <= t@.len(),
            hi - lo <= 9,
            digits_in(t@, lo as int, hi as int),
            acc == number(t@.subrange(lo as int, i as int)),
            acc < pow10((i - lo) as nat),
        decreases hi - i,
    {
        let ghost p = t@.subrange(lo as int, i as int + 1);
        proof {
            assert(p.drop_last() =~= t@.subrange(lo as int, i as int));
            assert(is_digit(t@[i as int]));
            assert(pow10((i + 1 - lo) as nat) == 10 * pow10((i - lo) as nat));
            lemma_pow10_le9((i - lo) as nat);
        }
        let d = (t[i] as u32) - ('0' as u32);
        acc = acc * 10 + d;
        i += 1;
    }
    acc
}

proof fn lemma_pow10_le9(n: nat)
    requires
        n <= 8,
    ensures
        pow10(n) <= 100_000_000,
{
    reveal_with_fuel(pow10, 10);
}

/// `t` ends with `w`.
pub open spec fn ends_with(t: Seq<char>, w: Seq<char>) -> bool {
    w.len() <= t.len() && t.subrange(t.len() - w.len(), t.len() as int) == w
}

/// Position of the first `x` in `s`, or the length of `s` when there is none.
pub open spec fn index_of(s: Seq<char>, x: char) -> int
    decreases s.len(),
{
    if s.len() == 0 {
        0
    } else if s[0] == x {
        0
    } else {
        1 + index_of(s.skip(1), x)
    }
}

pub proof fn lemma_index_of(s: Seq<char>, x: char)
    ensures
        0 <= index_of(s, x) <= s.len(),
        index_of(s, x) < s.len() ==> s[index_of(s, x)] == x,
        forall|j: int| 0 <= j < index_of(s, x) ==> s[j] != x,
    decreases s.len(),
{
    if s.len() > 0 && s[0] != x {
        lemma_index_of(s.skip(1), x);
        assert forall|j: int| 0 <= j < index_of(s, x) implies s[j] != x by {
            if j > 0 {
                assert(s[j] == s.skip(1)[j - 1]);
            }
        }
    }
}

pub fn index_of_char(t: &Vec<char>, x: char) -> (r: usize)
    ensures
        r == index_of(t@, x),
{
    proof {
        lemma_index_of(t@, x);
    }
    let mut i: usize = 0;
    while i < t.len()
        invariant
            i <= t@.len(),
            i <= index_of(t@, x),
            0 <= index_of(t@, x) <= t@.len(),
            index_of(t@, x) < t@.len() ==> t@[index_of(t@, x)] == x,
            forall|j: int| 0 <= j < index_of(t@, x) ==> t@[j] != x,
        decreases t@.len() - i,
    {
        if t[i] == x {
            return i;
        }
        i += 1;
    }
    i
}

/// The characters `t[lo..hi]`.
pub fn slice_of(t: &Vec<char>, lo: usize, hi: usize) -> (r: Vec<char>)
    requires
        lo <= hi <= t@.len(),
    ensures
        r@ == t@.subrange(lo as int, hi as int),
{
    let mut r: Vec<char> = Vec::new();
    let mut i = lo;
    while i < hi
        invariant
            lo <= i <= hi <= t@.len(),
            r@ == t@.subrange(lo as int, i as int),
        decreases hi - i,
    {
        r.push(t[i]);
        proof {
            assert(r@ =~= t@.subrange(lo as int, i + 1));
        }
        i += 1;
    }
    r
}

/// `a` followed by `b`.
pub fn joined(a: &Vec<char>, b: &Vec<char>) -> (r: Vec<char>)
    ensures
        r@ == a@ + b@,
{
    let mut r = slice_of(a, 0, a.len());
    let mut i: usize = 0;
    while i < b.len()
        invariant
            i <= b@.len(),
            r@ == a@ + b@.subrange(0, i as int),
        decreases b@.len() - i,
    {
        r.push(b[i]);
        proof {
            assert(r@ =~= a@ + b@.subrange(0, i + 1));
        }
        i += 1;
    }
    proof {
        assert(b@.subrange(0, i as int) =~= b@);
    }
    r
}

/// `s` without its leading spaces.
pub open spec fn trim_start(s: Seq<char>) -> Seq<char>
    decreases s.len(),
{
    if s.len() > 0 && is_space(s[0]) {
        trim_start(s.skip(1))
    } else {
        s
    }
}

/// `s` without its trailing spaces.
pub open spec fn trim_end(s: Seq<char>) -> Seq<char>
    decreases s.len(),
{
    if s.len() > 0 && is_space(s.last()) {
        trim_end(s.drop_last())
    } else {
        s
    }
}

/// `s` without leading and trailing spaces, as `str::trim` removes them.
pub open spec fn trim(s: Seq<char>) -> Seq<char> {
    trim_end(trim_start(s))
}

pub fn trimmed(cs: &Vec<char>) -> (r: Vec<char>)
    ensures
        r@ == trim(cs@),
{
    let n = cs.len();
    let mut lo: usize = 0;
    proof {
        assert(cs@.skip(0) =~= cs@);
    }
    while lo < n && is_space_char(cs[lo])
        invariant
            n == cs@.len(),
            lo <= n,
            trim_start(cs@.skip(lo as int)) == trim_start(cs@),
        decreases n - lo,
    {
        proof {
            assert(cs@.skip(lo as int)[0] == cs@[lo as int]);
            assert(cs@.skip(lo as int).skip(1) =~= cs@.skip(lo + 1));
        }
        lo += 1;
    }
    proof {
        if lo < n {
            assert(cs@.skip(lo as int)[0] == cs@[lo as int]);
        }
        assert(cs@.subrange(lo as int, n as int) =~= cs@.skip(lo as int));
    }
    let mut hi: usize = n;
    while hi > lo && is_space_char(cs[hi - 1])
        invariant
            n == cs@.len(),
            lo <= hi <= n,
            trim_end(cs@.subrange(lo as int, hi as int)) == trim(cs@),
        decreases hi - lo,
    {
        proof {
            let t = cs@.subrange(lo as int, hi as int);
            assert(t.last() == cs@[hi - 1]);
            assert(t.drop_last() =~= cs@.subrange(lo as int, hi - 1));
        }
        hi -= 1;
    }
    proof {
        let t = cs@.subrange(lo as int, hi as int);
        if hi > lo {
            assert(t.last() == cs@[hi - 1]);
        }
    }
    slice_of(cs, lo, hi)
}

} // verus!
