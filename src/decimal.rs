//! Decimal rendering of statute-mile values, and reading them back.
use vstd::prelude::*;
use crate::text::pow10;

verus! {

/// Decimal digits shown after the point of a fraction that does not end.
pub const MAX_FRACTION_DIGITS: u32 = 16;

pub open spec fn digit_char(d: int) -> char {
    (d + '0' as int) as char
}

/// The decimal digits of `n`, without leading zeros (`"0"` for zero).
pub open spec fn nat_digits(n: nat) -> Seq<char>
    decreases n,
{
    if n < 10 {
        seq![digit_char(n as int)]
    } else {
        nat_digits(n / 10).push(digit_char((n % 10) as int))
    }
}

/// The first `k` digits after the point of `r / d`, with `r < d`, stopping
/// early once the division ends.
pub open spec fn fraction_digits(r: nat, d: nat, k: nat) -> Seq<char>
    decreases k,
{
    if k == 0 || r == 0 || d == 0 {
        Seq::empty()
    } else {
        seq![digit_char(((r * 10) / d) as int)] + fraction_digits((r * 10) % d, d, (k - 1) as nat)
    }
}

/// `n / d` written in decimal: the whole part, then a point and at most
/// sixteen digits when the division leaves a remainder.
pub open spec fn render_quotient(n: nat, d: nat) -> Seq<char> {
    if n % d == 0 {
        nat_digits(n / d)
    } else {
        nat_digits(n / d).push('.') + fraction_digits(n % d, d, MAX_FRACTION_DIGITS as nat)
    }
}

/// `h / 100` written with exactly two digits after the point.
pub open spec fn render_hundredths(h: nat) -> Seq<char> {
    nat_digits(h / 100).push('.').push(digit_char(((h / 10) % 10) as int)).push(
        digit_char((h % 10) as int),
    )
}

fn digit_to_char(d: u64) -> (c: char)
    requires
        d < 10,
    ensures
        c == digit_char(d as int),
{
    let c = ('0' as u8 + d as u8) as char;
    c
}

pub fn push_nat_digits(n: u64, out: &mut Vec<char>)
    ensures
        final(out)@ == old(out)@ + nat_digits(n as nat),
    decreases n,
{
    if n >= 10 {
        push_nat_digits(n / 10, out);
        out.push(digit_to_char(n % 10));
        proof {
            assert(final(out)@ =~= old(out)@ + nat_digits(n as nat));
        }
    } else {
        out.push(digit_to_char(n));
        proof {
            assert(final(out)@ =~= old(out)@ + nat_digits(n as nat));
        }
    }
}

pub fn render_quotient_of(n: u64, d: u64) -> (r: Vec<char>)
    requires
        d > 0,
        d <= 0xffff_ffff,
    ensures
        r@ == render_quotient(n as nat, d as nat),
{
    let mut out: Vec<char> = Vec::new();
    push_nat_digits(n / d, &mut out);
    let rem0 = n % d;
    if rem0 == 0 {
        return out;
    }
    out.push('.');
    let ghost head = out@;
    let mut rem = rem0;
    let mut k: u32 = MAX_FRACTION_DIGITS;
    while k > 0 && rem != 0
        invariant
            d > 0,
            d <= 0xffff_ffff,
            rem < d,
            out@.len() >= head.len(),
            out@.subrange(0, head.len() as int) == head,
            out@.subrange(head.len() as int, out@.len() as int) + fraction_digits(
                rem as nat,
                d as nat,
                k as nat,
            ) == fraction_digits(rem0 as nat, d as nat, MAX_FRACTION_DIGITS as nat),
        decreases k,
    {
        let t = rem * 10;
        let q = t / d;
        proof {
            assert(q < 10) by (nonlinear_arith)
                requires
                    q == t / d,
                    t == rem * 10,
                    rem < d,
                    d > 0,
            ;
        }
        let ghost before = out@;
        let ghost old_rem = rem;
        let ghost old_k = k;
        out.push(digit_to_char(q));
        rem = t % d;
        k = k - 1;
        proof {
            assert(out@.subrange(head.len() as int, out@.len() as int) =~= before.subrange(
                head.len() as int,
                before.len() as int,
            ).push(digit_char(q as int)));
            assert(out@.subrange(0, head.len() as int) =~= before.subrange(0, head.len() as int));
            let tail = before.subrange(head.len() as int, before.len() as int);
            assert(fraction_digits(old_rem as nat, d as nat, old_k as nat) == seq![
                digit_char(q as int),
            ] + fraction_digits(rem as nat, d as nat, k as nat));
            assert(tail.push(digit_char(q as int)) + fraction_digits(rem as nat, d as nat, k as nat)
                =~= tail + (seq![digit_char(q as int)] + fraction_digits(
                rem as nat,
                d as nat,
                k as nat,
            )));
        }
    }
    proof {
        assert(out@ =~= head + out@.subrange(head.len() as int, out@.len() as int));
    }
    out
}

pub fn render_hundredths_of(h: u64) -> (r: Vec<char>)
    ensures
        r@ == render_hundredths(h as nat),
{
    let mut out: Vec<char> = Vec::new();
    push_nat_digits(h / 100, &mut out);
    out.push('.');
    out.push(digit_to_char((h / 10) % 10));
    out.push(digit_to_char(h % 10));
    out
}

pub proof fn lemma_pow10_mono(a: nat, b: nat)
    requires
        a <= b,
    ensures
        pow10(a) <= pow10(b),
        pow10(a) >= 1,
    decreases b,
{
    if a < b {
        lemma_pow10_mono(a, (b - 1) as nat);
    } else if a > 0 {
        lemma_pow10_mono((a - 1) as nat, (a - 1) as nat);
    }
}

} // verus!
