//! Decimal fractions as text.

use crate::rational::{abs, round_half_even, rounded_even, Rat};
use crate::text::{chars_of, dec, dec_wide, push_char, push_dec, push_dec_wide, string_of_range};
use vstd::prelude::*;

verus! {

pub open spec fn pow10(places: nat) -> nat
    decreases places,
{
    if places == 0 {
        1
    } else {
        10 * pow10((places - 1) as nat)
    }
}

pub fn power_of_ten(places: usize) -> (r: u128)
    requires
        places <= 18,
    ensures
        r == pow10(places as nat),
        1 <= r <= 1_000_000_000_000_000_000,
{
    let mut value: u128 = 1;
    let mut i: usize = 0;
    proof {
        lemma_pow10_bound(18, 0);
    }
    while i < places
        invariant
            i <= places <= 18,
            value == pow10(i as nat),
            1 <= value,
        decreases places - i,
    {
        proof {
            lemma_pow10_bound(18, (i + 1) as nat);
            reveal_with_fuel(pow10, 19);
        }
        value = value * 10;
        i = i + 1;
    }
    proof {
        lemma_pow10_bound(18, places as nat);
        reveal_with_fuel(pow10, 19);
    }
    value
}

pub proof fn lemma_pow10_bound(high: nat, low: nat)
    requires
        low <= high,
    ensures
        1 <= pow10(low) <= pow10(high),
    decreases high,
{
    if low < high {
        lemma_pow10_bound((high - 1) as nat, low);
    } else if high > 0 {
        lemma_pow10_bound((high - 1) as nat, (high - 1) as nat);
    }
}

/// A number of `10^-places` written with that many decimals.
pub open spec fn fixed_text(scaled: int, places: nat) -> Seq<char> {
    let a = abs(scaled);
    let sign = if scaled < 0 {
        seq!['-']
    } else {
        seq![]
    };
    let whole = sign + dec(a / pow10(places));
    if places == 0 {
        whole
    } else {
        whole + seq!['.'] + dec_wide(a % pow10(places), places)
    }
}

pub fn push_fixed(out: &mut String, scaled: i128, places: usize)
    requires
        places <= 18,
        scaled > i128::MIN,
    ensures
        final(out)@ == old(out)@ + fixed_text(scaled as int, places as nat),
{
    let base: u128 = power_of_ten(places);
    let a: u128 = if scaled < 0 {
        push_char(out, '-');
        (-scaled) as u128
    } else {
        scaled as u128
    };
    push_dec(out, a / base);
    if places > 0 {
        push_char(out, '.');
        push_dec_wide(out, a % base, places);
    }
    assert(out@ =~= old(out)@ + fixed_text(scaled as int, places as nat));
}

/// A rational to `places` decimals, halves to the even digit.
pub open spec fn rounded_text(value: Rat, places: nat) -> Seq<char> {
    fixed_text(round_half_even(value.num * pow10(places), value.den as int), places)
}

/// Writes a rational with a few decimals.
pub fn push_rounded(out: &mut String, value: Rat, places: usize)
    requires
        value.wf(),
        places <= 18,
    ensures
        final(out)@ == old(out)@ + rounded_text(value, places as nat),
{
    let base: u128 = power_of_ten(places);
    proof {
        crate::rational::lemma_wide(value.num as int, base as int);
    }
    let scaled: i128 = rounded_even((value.num as i128) * (base as i128), value.den as i128);
    push_fixed(out, scaled, places);
}

/// Digits without the zeros at their end.
pub open spec fn trim_zeros(s: Seq<char>) -> Seq<char>
    decreases s.len(),
{
    if s.len() > 0 && s.last() == '0' {
        trim_zeros(s.drop_last())
    } else {
        s
    }
}

/// Millionths as a decimal fraction without superfluous zeros: `2`, `0.5`, `-1.25`.
pub open spec fn number_text(millionths: int) -> Seq<char> {
    let a = abs(millionths);
    let sign = if millionths < 0 {
        seq!['-']
    } else {
        seq![]
    };
    let whole = sign + dec(a / 1_000_000);
    if a % 1_000_000 == 0 {
        whole
    } else {
        whole + seq!['.'] + trim_zeros(dec_wide(a % 1_000_000, 6))
    }
}

/// The text of a number of millionths.
pub fn number(millionths: i128) -> (r: String)
    requires
        millionths > i128::MIN,
    ensures
        r@ == number_text(millionths as int),
{
    let mut out = String::new();
    let a: u128 = if millionths < 0 {
        push_char(&mut out, '-');
        (-millionths) as u128
    } else {
        millionths as u128
    };
    push_dec(&mut out, a / 1_000_000);
    if a % 1_000_000 != 0 {
        let mut digits = String::new();
        push_dec_wide(&mut digits, a % 1_000_000, 6);
        assert(digits@ =~= dec_wide((a % 1_000_000) as nat, 6));
        let chars = chars_of(digits.as_str());
        let n: usize = chars.len();
        let mut to: usize = n;
        assert(chars@.take(n as int) =~= chars@);
        while to > 0 && chars[to - 1] == '0'
            invariant
                to <= n,
                n == chars@.len(),
                trim_zeros(chars@.take(to as int)) == trim_zeros(chars@),
            decreases to,
        {
            assert(chars@.take(to as int).drop_last() =~= chars@.take(to - 1));
            to = to - 1;
        }
        proof {
            if to > 0 {
                assert(chars@.take(to as int).last() == chars@[to - 1]);
            }
            assert(chars@.subrange(0, to as int) =~= chars@.take(to as int));
        }
        let kept = string_of_range(&chars, 0, to);
        push_char(&mut out, '.');
        out.append(kept.as_str());
    }
    assert(out@ =~= number_text(millionths as int));
    out
}

} // verus!
