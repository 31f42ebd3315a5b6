//! Numbers in floating-point notation, as fractions.

use crate::number::{pow10, power_of_ten};
use crate::rational::Rat;
use crate::text::{
    all_digits, chars_of, digit_value, digits_number, digits_value, equal_folded, find, find_from,
    is_digit, only_digits, parse_i64, parse_number, same_folded, slice_of, string_of,
};
use crate::time::lemma_small_fits;
use crate::time_text::{fraction_of, lemma_digits_bound};
use crate::timeline::larger;
use vstd::prelude::*;

verus! {

/// Text without a sign in front of it.
pub open spec fn unsigned(s: Seq<char>) -> Seq<char> {
    if s.len() > 0 && (s[0] == '-' || s[0] == '+') {
        s.skip(1)
    } else {
        s
    }
}

/// Where the exponent starts: at the first `e` of either case, or past the end.
pub open spec fn exponent_at(s: Seq<char>) -> int {
    if find(s, 'e') <= find(s, 'E') {
        find(s, 'e')
    } else {
        find(s, 'E')
    }
}

/// The digits before and behind the point of a number without its exponent.
pub open spec fn digit_run(s: Seq<char>) -> Seq<char> {
    s.take(find(s, '.')) + fraction_of(s)
}

pub open spec fn is_mantissa(s: Seq<char>) -> bool {
    digit_run(s).len() >= 1 && all_digits(digit_run(s))
}

pub open spec fn is_number(s: Seq<char>) -> bool {
    let at = exponent_at(s);
    is_mantissa(s.take(at)) && (at < s.len() ==> unsigned(s.skip(at + 1)).len() >= 1 && all_digits(
        unsigned(s.skip(at + 1)),
    ))
}

/// Whether a text is a floating-point number: an optional sign, and then a decimal number
/// with an optional exponent, or `inf`, `infinity` or `nan`, in any case.
pub open spec fn is_float(s: Seq<char>) -> bool {
    let body = unsigned(s);
    ||| is_number(body)
    ||| same_folded(body, "inf"@)
    ||| same_folded(body, "infinity"@)
    ||| same_folded(body, "nan"@)
}

/// The power of ten that the exponent and the decimal places leave.
pub open spec fn shift_of(body: Seq<char>) -> Option<int> {
    let at = exponent_at(body);
    let places = fraction_of(body.take(at)).len();
    if at < body.len() {
        match parse_i64(body.skip(at + 1)) {
            Some(e) => Some(e - places),
            None => None,
        }
    } else {
        Some(-places)
    }
}

/// The number furthest from zero, on the side of `n`.
pub open spec fn furthest(n: int) -> Rat {
    Rat {
        num: if n < 0 {
            (-i64::MAX) as i64
        } else {
            i64::MAX
        },
        den: 1,
    }
}

/// The number of eighteen places next to zero.
pub open spec fn nearest(negative: bool) -> Rat {
    Rat {
        num: if negative {
            -1i64
        } else {
            1
        },
        den: 1_000_000_000_000_000_000,
    }
}

/// `n` times a power of ten, or the number furthest from zero where that cannot be stored.
pub open spec fn shifted(n: int, shift: int) -> Rat {
    if shift < 0 {
        Rat::of(n, pow10((-shift) as nat) as int)
    } else if shift <= 18 && Rat::fits(n * pow10(shift as nat), 1) {
        Rat::of(n * pow10(shift as nat), 1)
    } else {
        furthest(n)
    }
}

/// Digits without the zeros in front of them.
pub open spec fn significant(run: Seq<char>) -> Seq<char>
    decreases run.len(),
{
    if run.len() > 0 && run[0] == '0' {
        significant(run.skip(1))
    } else {
        run
    }
}

/// How many digits have to go for eighteen to be left, and eighteen places.
pub open spec fn surplus(digits: nat, shift: int) -> int {
    larger(larger(digits - 18, -18 - shift), 0)
}

/// The first of some digits as a number, rounded by the one that follows.
pub open spec fn rounded_run(digits: Seq<char>, keep: int) -> int {
    if keep < 0 {
        0
    } else if keep >= digits.len() {
        digits_value(digits) as int
    } else {
        digits_value(digits.take(keep)) + if digit_value(digits[keep]) >= 5 {
            1int
        } else {
            0int
        }
    }
}

pub open spec fn signed(negative: bool, size: int) -> int {
    if negative {
        -size
    } else {
        size
    }
}

/// How many places the largest double has before its point: what has more is an infinity.
pub const MOST_HIGH: i128 = 309;

/// Where the smallest double starts behind its point: what starts later is nothing.
pub const LEAST_HIGH: i128 = -323;

pub open spec fn zero_value() -> Float {
    Float::Finite(Rat { num: 0, den: 1 })
}

/// The value of a run of digits, times a power of ten: exact for up to eighteen digits and places,
/// else rounded to that many, and in any case the nearest that can be stored. One with more places
/// than a double is an infinity, and one that starts behind those of a double is zero.
pub open spec fn run_value(negative: bool, run: Seq<char>, shift: int) -> Float {
    if run.len() <= 18 && -18 <= shift <= 0 {
        let size = signed(negative, digits_value(run) as int);
        Float::Finite(Rat::of(size, pow10((-shift) as nat) as int))
    } else {
        let digits = significant(run);
        let more = surplus(digits.len(), shift);
        let size = rounded_run(digits, digits.len() - more);
        if digits.len() == 0 || digits.len() + shift < LEAST_HIGH {
            zero_value()
        } else if digits.len() + shift > MOST_HIGH {
            Float::Special
        } else if size == 0 {
            Float::Finite(nearest(negative))
        } else {
            Float::Finite(shifted(signed(negative, size), shift + more))
        }
    }
}

/// The value of digits with an exponent that 64 bits do not hold.
pub open spec fn far_value(run: Seq<char>, exponent: Seq<char>) -> Float {
    if significant(run).len() == 0 || exponent[0] == '-' {
        zero_value()
    } else {
        Float::Special
    }
}

/// The value of a number.
pub open spec fn number_value(s: Seq<char>) -> Float {
    let body = unsigned(s);
    let run = digit_run(body.take(exponent_at(body)));
    match shift_of(body) {
        None => far_value(run, body.skip(exponent_at(body) + 1)),
        Some(shift) => run_value(s[0] == '-', run, shift),
    }
}

fn run_in(mantissa: &Vec<char>) -> (r: (Vec<char>, usize))
    ensures
        r.0@ == digit_run(mantissa@),
        r.1 == fraction_of(mantissa@).len(),
{
    let n: usize = mantissa.len();
    assert(mantissa@.skip(0) =~= mantissa@);
    let point: usize = find_from(mantissa, 0, '.');
    let mut run = slice_of(mantissa, 0, point);
    assert(run@ =~= mantissa@.take(point as int));
    let mut places: usize = 0;
    if point < n {
        let mut rest = slice_of(mantissa, point + 1, n);
        assert(rest@ =~= fraction_of(mantissa@));
        places = rest.len();
        run.append(&mut rest);
    }
    assert(run@ =~= digit_run(mantissa@));
    (run, places)
}

fn body_of(chars: &Vec<char>) -> (r: Vec<char>)
    ensures
        r@ == unsigned(chars@),
{
    let n: usize = chars.len();
    let from: usize = if n > 0 && (chars[0] == '-' || chars[0] == '+') {
        1
    } else {
        0
    };
    let body = slice_of(chars, from, n);
    assert(body@ =~= unsigned(chars@));
    body
}

fn nothing_but_digits(chars: &Vec<char>) -> (r: bool)
    ensures
        r == (chars@.len() >= 1 && all_digits(chars@)),
{
    let n: usize = chars.len();
    assert(chars@.subrange(0, n as int) =~= chars@);
    n >= 1 && only_digits(chars, 0, n)
}

/// `value` times a power of ten.
fn scaled(value: i128, shift: i128) -> (r: Rat)
    requires
        -1_000_000_000_000_000_000 <= value <= 1_000_000_000_000_000_000,
        shift >= -18,
    ensures
        r == shifted(value as int, shift as int),
        r.wf(),
{
    if shift < 0 {
        let d: u128 = power_of_ten((-shift) as usize);
        proof {
            lemma_small_fits(value as int, d as int);
        }
        if let Some(r) = Rat::try_of(value, d as i128) {
            return r;
        }
    } else if shift <= 18 {
        let d: u128 = power_of_ten(shift as usize);
        assert(-1_000_000_000_000_000_000 * 1_000_000_000_000_000_000 <= value * d
            <= 1_000_000_000_000_000_000 * 1_000_000_000_000_000_000) by (nonlinear_arith)
            requires
                -1_000_000_000_000_000_000 <= value <= 1_000_000_000_000_000_000,
                0 <= d <= 1_000_000_000_000_000_000,
        ;
        if let Some(r) = Rat::try_of(value * (d as i128), 1) {
            return r;
        }
    }
    Rat {
        num: if value < 0 {
            -i64::MAX
        } else {
            i64::MAX
        },
        den: 1,
    }
}

fn size_of_run(run: &Vec<char>) -> (r: i128)
    requires
        all_digits(run@),
        run@.len() <= 18,
    ensures
        r == digits_value(run@),
        0 <= r <= 1_000_000_000_000_000_000,
{
    let n: usize = run.len();
    assert(run@.subrange(0, n as int) =~= run@);
    proof {
        lemma_digits_bound(run@);
        reveal_with_fuel(pow10, 19);
    }
    match digits_number(run, 0, n) {
        Some(v) => v as i128,
        None => 0,
    }
}

/// How many zeros are in front of some digits.
fn leading_zeros(run: &Vec<char>) -> (r: usize)
    ensures
        r <= run@.len(),
        run@.skip(r as int) == significant(run@),
{
    let mut i: usize = 0;
    assert(run@.skip(0) =~= run@);
    while i < run.len() && run[i] == '0'
        invariant
            i <= run@.len(),
            significant(run@.skip(i as int)) == significant(run@),
        decreases run@.len() - i,
    {
        assert(run@.skip(i as int).skip(1) =~= run@.skip(i + 1));
        i = i + 1;
    }
    i
}

/// The first `keep` of some digits as a number, rounded.
fn rounded_digits(digits: &Vec<char>, keep: usize) -> (r: i128)
    requires
        all_digits(digits@),
        keep <= digits@.len(),
        keep <= 18,
    ensures
        r == rounded_run(digits@, keep as int),
        0 <= r <= 1_000_000_000_000_000_000,
{
    let kept = slice_of(digits, 0, keep);
    assert(kept@ =~= digits@.take(keep as int));
    proof {
        lemma_digits_bound(kept@);
        crate::number::lemma_pow10_bound(18, kept@.len());
        reveal_with_fuel(pow10, 19);
    }
    let size: i128 = size_of_run(&kept);
    if keep < digits.len() {
        assert(is_digit(digits@[keep as int]));
        if digits[keep] >= '5' {
            return size + 1;
        }
    } else {
        assert(digits@.take(keep as int) =~= digits@);
    }
    size
}

/// The value of a run of digits, times a power of ten.
fn value_of_run(negative: bool, run: &Vec<char>, shift: i128) -> (r: Float)
    requires
        all_digits(run@),
        i64::MIN as int - usize::MAX <= shift <= i64::MAX,
    ensures
        r == run_value(negative, run@, shift as int),
        r matches Float::Finite(v) ==> v.wf(),
{
    if run.len() <= 18 && -18 <= shift && shift <= 0 {
        let size: i128 = size_of_run(run);
        let value: i128 = if negative {
            -size
        } else {
            size
        };
        if shift == 0 {
            assert(value * pow10(0) == value) by (nonlinear_arith)
                requires
                    pow10(0) == 1,
            ;
            proof {
                lemma_small_fits(value as int, 1);
            }
        }
        return Float::Finite(scaled(value, shift));
    }
    let from: usize = leading_zeros(run);
    let digits = slice_of(run, from, run.len());
    assert(digits@ =~= significant(run@));
    let n: usize = digits.len();
    let high: i128 = n as i128 + shift;
    if n == 0 || high < LEAST_HIGH {
        return Float::Finite(Rat { num: 0, den: 1 });
    }
    if high > MOST_HIGH {
        return Float::Special;
    }
    let mut more: i128 = if n > 18 {
        n as i128 - 18
    } else {
        0
    };
    if -18 - shift > more {
        more = -18 - shift;
    }
    assert(more == surplus(n as nat, shift as int));
    let size: i128 = if more > n as i128 {
        0
    } else {
        rounded_digits(&digits, (n as i128 - more) as usize)
    };
    if size == 0 {
        let num: i64 = if negative {
            -1
        } else {
            1
        };
        return Float::Finite(Rat { num, den: 1_000_000_000_000_000_000 });
    }
    Float::Finite(
        scaled(
            if negative {
                -size
            } else {
                size
            },
            shift + more,
        ),
    )
}

/// The value of a number in parts: its digits, their places, and its exponent.
fn value_of(negative: bool, run: &Vec<char>, places: usize, exponent: Option<Vec<char>>) -> (r:
    Float)
    requires
        all_digits(run@),
        exponent matches Some(e) ==> e@.len() > 0,
    ensures
        r == (match exponent {
            Some(e) => match parse_i64(e@) {
                Some(value) => run_value(negative, run@, value - places),
                None => far_value(run@, e@),
            },
            None => run_value(negative, run@, -(places as int)),
        }),
        r matches Float::Finite(v) ==> v.wf(),
{
    match &exponent {
        Some(e) => match parse_number(e) {
            Some(value) => value_of_run(negative, run, value as i128 - places as i128),
            None => {
                let from: usize = leading_zeros(run);
                assert(run@.skip(from as int).len() == run@.len() - from);
                if from == run.len() || e[0] == '-' {
                    Float::Finite(Rat { num: 0, den: 1 })
                } else {
                    Float::Special
                }
            },
        },
        None => value_of_run(negative, run, -(places as i128)),
    }
}

/// What a floating-point number is worth.
#[derive(Clone, Copy, Debug, PartialEq, Eq, Structural)]
pub enum Float {
    /// A number: exact to eighteen digits and places, else the nearest that can be stored.
    Finite(Rat),
    /// An infinity, or not a number.
    Special,
}

/// The value of a floating-point number.
pub open spec fn float_value(s: Seq<char>) -> Float {
    if !is_number(unsigned(s)) {
        Float::Special
    } else {
        number_value(s)
    }
}

/// A floating-point number, if the text is one.
pub fn read_float(text: &str) -> (r: Option<Float>)
    ensures
        r is Some <==> is_float(text@),
        r is Some ==> r->0 == float_value(text@),
        r matches Some(Float::Finite(v)) ==> v.wf(),
{
    let chars = chars_of(text);
    let body = body_of(&chars);
    let n: usize = body.len();
    assert(body@.skip(0) =~= body@);
    let small: usize = find_from(&body, 0, 'e');
    let big: usize = find_from(&body, 0, 'E');
    let at: usize = if small <= big {
        small
    } else {
        big
    };
    let mantissa = slice_of(&body, 0, at);
    assert(mantissa@ =~= body@.take(at as int));
    let (run, places) = run_in(&mantissa);
    let mut good = nothing_but_digits(&run);
    let exponent: Option<Vec<char>> = if at < n {
        let part = slice_of(&body, at + 1, n);
        assert(part@ =~= body@.skip(at + 1));
        let digits = body_of(&part);
        good = nothing_but_digits(&digits) && good;
        Some(part)
    } else {
        None
    };
    assert(good == is_number(body@));
    if !good {
        let word = string_of(&body);
        if equal_folded(word.as_str(), "inf") || equal_folded(word.as_str(), "infinity")
            || equal_folded(word.as_str(), "nan") {
            return Some(Float::Special);
        }
        return None;
    }
    proof {
        assert(chars@.len() > 0);
    }
    let negative = chars[0] == '-';
    Some(value_of(negative, &run, places, exponent))
}

} // verus!
