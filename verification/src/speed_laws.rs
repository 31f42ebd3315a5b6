//! A speed that is written in front of a file is read back, and a long number is rounded.

use crate::float_text::{
    digit_run, exponent_at, float_value, is_float, is_number, number_value, rounded_run, shift_of,
    unsigned, Float,
};
use crate::mlt::speed_text;
use crate::mlt_read::warp_of;
use crate::number::{number_text, pow10, trim_zeros};
use crate::rational::{abs, round_half_even, Rat};
use crate::subtitle_laws::lemma_dec_wide;
use crate::text::{
    all_digits, dec, dec_wide, digit_value, digits_value, is_digit, lemma_dec, lemma_find_is,
};
use crate::time::lemma_small_fits;
use crate::time_text::{fraction_of, lemma_digits_bound};
use vstd::prelude::*;

verus! {

/// The digits behind the point of a number of millionths.
spec fn decimals(a: nat) -> Seq<char> {
    if a % 1_000_000 == 0 {
        seq![]
    } else {
        trim_zeros(dec_wide(a % 1_000_000, 6))
    }
}

/// A number of millionths without its sign.
spec fn body_of(a: nat) -> Seq<char> {
    if a % 1_000_000 == 0 {
        dec(a / 1_000_000)
    } else {
        dec(a / 1_000_000) + seq!['.'] + decimals(a)
    }
}

proof fn lemma_trimmed(s: Seq<char>)
    requires
        all_digits(s),
    ensures
        all_digits(trim_zeros(s)),
        trim_zeros(s).len() <= s.len(),
        digits_value(trim_zeros(s)) * pow10((s.len() - trim_zeros(s).len()) as nat)
            == digits_value(s),
    decreases s.len(),
{
    let t = trim_zeros(s);
    if s.len() > 0 && s.last() == '0' {
        let rest = s.drop_last();
        assert forall|i: int| 0 <= i < rest.len() implies is_digit(#[trigger] rest[i]) by {
            assert(is_digit(s[i]));
        }
        lemma_trimmed(rest);
        let k = (rest.len() - t.len()) as nat;
        assert(crate::text::digit_value('0') == 0);
        assert(digits_value(s) == digits_value(rest) * 10);
        assert(pow10(k + 1) == 10 * pow10(k));
        assert(digits_value(t) * (10 * pow10(k)) == (digits_value(t) * pow10(k)) * 10)
            by (nonlinear_arith);
    } else {
        lemma_powers();
        assert(digits_value(t) * 1 == digits_value(s));
        assert((s.len() - t.len()) as nat == 0);
    }
}

proof fn lemma_powers()
    ensures
        pow10(0) == 1,
        pow10(1) == 10,
        pow10(2) == 100,
        pow10(3) == 1000,
        pow10(4) == 10_000,
        pow10(5) == 100_000,
        pow10(6) == 1_000_000,
        pow10(12) == 1_000_000_000_000,
{
    reveal_with_fuel(pow10, 13);
}

proof fn lemma_decimals(a: nat)
    ensures
        all_digits(decimals(a)),
        decimals(a).len() <= 6,
        digits_value(decimals(a)) * pow10((6 - decimals(a).len()) as nat) == a % 1_000_000,
{
    let n = a % 1_000_000;
    lemma_dec_wide(n, 6);
    assert(dec_wide(n, 6).len() == 6) by {
        reveal_with_fuel(dec, 7);
    }
    if n != 0 {
        lemma_trimmed(dec_wide(n, 6));
    } else {
        assert(0 * pow10(6) == 0);
    }
}

pub proof fn lemma_joined(a: Seq<char>, b: Seq<char>)
    requires
        all_digits(a),
        all_digits(b),
    ensures
        all_digits(a + b),
        digits_value(a + b) == digits_value(a) * pow10(b.len()) + digits_value(b),
    decreases b.len(),
{
    assert forall|i: int| 0 <= i < (a + b).len() implies is_digit(#[trigger] (a + b)[i]) by {
        if i >= a.len() {
            assert(is_digit(b[i - a.len()]));
        }
    }
    if b.len() == 0 {
        assert(a + b =~= a);
        assert(pow10(0) == 1);
    } else {
        let rest = b.drop_last();
        assert forall|i: int| 0 <= i < rest.len() implies is_digit(#[trigger] rest[i]) by {
            assert(is_digit(b[i]));
        }
        lemma_joined(a, rest);
        assert((a + b).drop_last() =~= a + rest);
        let k = rest.len();
        assert(pow10(k + 1) == 10 * pow10(k));
        assert(digits_value(a) * (10 * pow10(k)) == digits_value(a) * pow10(k) * 10)
            by (nonlinear_arith);
    }
}

/// What a number of millionths is made of.
proof fn lemma_body(a: nat)
    ensures
        body_of(a).len() > 0,
        is_digit(body_of(a)[0]),
        forall|i: int|
            0 <= i < body_of(a).len() ==> is_digit(#[trigger] body_of(a)[i]) || body_of(a)[i]
                == '.',
        exponent_at(body_of(a)) == body_of(a).len(),
        digit_run(body_of(a)) == dec(a / 1_000_000) + decimals(a),
        fraction_of(body_of(a)) == decimals(a),
        is_number(body_of(a)),
{
    let w = dec(a / 1_000_000);
    let t = decimals(a);
    let s = body_of(a);
    lemma_dec(a / 1_000_000);
    lemma_decimals(a);
    assert forall|i: int| 0 <= i < s.len() implies is_digit(#[trigger] s[i]) || s[i] == '.' by {
        if i < w.len() {
            assert(is_digit(w[i]));
        } else if i > w.len() {
            assert(s[i] == t[i - w.len() - 1]);
            assert(is_digit(t[i - w.len() - 1]));
        }
    }
    assert(is_digit(w[0]));
    lemma_find_is(s, 'e', s.len() as int);
    lemma_find_is(s, 'E', s.len() as int);
    assert forall|i: int| 0 <= i < w.len() implies s[i] != '.' by {
        assert(is_digit(w[i]));
    }
    lemma_find_is(s, '.', w.len() as int);
    assert(s.take(w.len() as int) =~= w);
    assert(fraction_of(s) =~= t);
    lemma_joined(w, t);
    assert(s.take(s.len() as int) =~= s);
}

/// A number of millionths reads as what it is.
proof fn lemma_number_read(m: int)
    ensures
        is_float(number_text(m)),
        forall|i: int|
            0 <= i < number_text(m).len() ==> #[trigger] number_text(m)[i] != ':',
        abs(m) < 1_000_000_000_000_000_000 ==> {
            &&& float_value(number_text(m)) is Finite
            &&& float_value(number_text(m))->Finite_0.wf()
            &&& float_value(number_text(m))->Finite_0.is(m, 1_000_000)
        },
{
    let a = abs(m);
    let s = number_text(m);
    let body = body_of(a);
    lemma_body(a);
    assert(unsigned(s) =~= body);
    assert forall|i: int| 0 <= i < s.len() implies #[trigger] s[i] != ':' by {
        if m < 0 {
            if i > 0 {
                assert(s[i] == body[i - 1]);
                assert(is_digit(body[i - 1]) || body[i - 1] == '.');
            }
        } else {
            assert(s[i] == body[i]);
            assert(is_digit(body[i]) || body[i] == '.');
        }
    }
    if a < 1_000_000_000_000_000_000 {
        let w = dec(a / 1_000_000);
        let t = decimals(a);
        let k = t.len();
        lemma_dec(a / 1_000_000);
        lemma_decimals(a);
        lemma_joined(w, t);
        assert(body.take(body.len() as int) =~= body);
        let run = w + t;
        assert(w.len() <= 12) by {
            lemma_powers();
            lemma_dec_length(a / 1_000_000, 12);
        }
        let size = digits_value(run);
        lemma_scaled(a, size, digits_value(t), k);
        let n: int = if m < 0 {
            -(size as int)
        } else {
            size as int
        };
        assert(m < 0 <==> s[0] == '-');
        let d = pow10(k) as int;
        assert(shift_of(body) == Some(-(k as int)));
        lemma_small_fits(n, d);
        Rat::lemma_of(n, d);
        if k == 0 {
            lemma_powers();
            assert(n * pow10(0) == n) by (nonlinear_arith)
                requires
                    pow10(0) == 1,
            ;
        }
        let v = Rat::of(n, d);
        assert(number_value(s) == Float::Finite(v));
        let q = pow10((6 - k) as nat) as int;
        assert((-(size as int)) * q == -(size * q)) by (nonlinear_arith);
        lemma_same_value(v, n, d, m, q);
    }
}

/// A number below a power of ten has no more digits than it has zeros.
proof fn lemma_dec_length(n: nat, places: nat)
    requires
        places >= 1,
        n < pow10(places),
    ensures
        dec(n).len() <= places,
    decreases places,
{
    if n >= 10 {
        lemma_powers();
        lemma_dec_length(n / 10, (places - 1) as nat);
    }
}

/// The digits of a number, with the zeros that were left out, are the number.
proof fn lemma_scaled(a: nat, size: nat, low: nat, k: nat)
    requires
        a < 1_000_000_000_000_000_000,
        k <= 6,
        size == (a / 1_000_000) * pow10(k) + low,
        low * pow10((6 - k) as nat) == a % 1_000_000,
    ensures
        size * pow10((6 - k) as nat) == a,
        pow10(k) * pow10((6 - k) as nat) == 1_000_000,
        size <= a,
        1 <= pow10(k) <= 1_000_000,
{
    lemma_powers();
    let w = a / 1_000_000;
    let p = pow10(k);
    let q = pow10((6 - k) as nat);
    assert(k == 0 || k == 1 || k == 2 || k == 3 || k == 4 || k == 5 || k == 6);
    assert(p * q == 1_000_000) by (nonlinear_arith)
        requires
            p == 1 && q == 1_000_000 || p == 10 && q == 100_000 || p == 100 && q == 10_000 || p
                == 1000 && q == 1000 || p == 10_000 && q == 100 || p == 100_000 && q == 10 || p
                == 1_000_000 && q == 1,
    ;
    assert(size * q == a) by (nonlinear_arith)
        requires
            size == w * p + low,
            p * q == 1_000_000,
            low * q == a % 1_000_000,
            w == a / 1_000_000,
    ;
    assert(size <= size * q) by (nonlinear_arith)
        requires
            q >= 1,
    ;
    assert(p <= p * q) by (nonlinear_arith)
        requires
            q >= 1,
            p >= 1,
    ;
}

proof fn lemma_same_value(v: Rat, n: int, d: int, m: int, q: int)
    requires
        v.is(n, d),
        n * q == m,
        d * q == 1_000_000,
    ensures
        v.is(m, 1_000_000),
{
    assert(v.num * (d * q) == (n * q) * v.den) by (nonlinear_arith)
        requires
            v.num * d == n * v.den,
    ;
}

/// A speed too slow to show, played backwards, reads as nothing.
proof fn lemma_slow_reverse_read()
    ensures
        is_float("-0"@),
        "-0"@ =~= seq!['-', '0'],
        float_value("-0"@) is Finite,
        float_value("-0"@)->Finite_0.wf(),
        float_value("-0"@)->Finite_0.is(0, 1_000_000),
{
    reveal_strlit("-0");
    let s = "-0"@;
    let plain = number_text(0);
    lemma_number_read(0);
    assert(dec(0) =~= seq!['0']);
    assert(plain =~= seq!['0']);
    assert(s =~= seq!['-', '0']);
    assert(unsigned(s) =~= seq!['0']);
    assert(unsigned(plain) =~= seq!['0']);
    let body = seq!['0'];
    let run = digit_run(body.take(exponent_at(body)));
    lemma_plain(body);
    assert(run =~= body);
    reveal_with_fuel(digits_value, 2);
    assert(digits_value(run) == 0);
    let shift = shift_of(body)->0;
    assert(0 * pow10(shift as nat) == 0) by (nonlinear_arith);
    assert(number_value(s) == number_value(plain));
}

proof fn lemma_plain(s: Seq<char>)
    requires
        s =~= seq!['0'],
    ensures
        exponent_at(s) == 1,
        digit_run(s.take(1)) =~= s,
{
    lemma_find_is(s, 'e', 1);
    lemma_find_is(s, 'E', 1);
    assert(s.take(1) =~= s);
    lemma_find_is(s, '.', 1);
    assert(s.take(1) + fraction_of(s) =~= s);
}

/// A retimed file is read back: the file as it was, and the speed to the millionth that was
/// written, which a number of up to eighteen digits holds.
pub proof fn law_a_retimed_file_is_read_back(speed: Rat, path: Seq<char>)
    ensures
        ({
            let written = round_half_even(speed.num * 1_000_000, speed.den as int);
            let (read, file) = warp_of("timewarp"@, speed_text(speed) + ":"@ + path);
            &&& file == path
            &&& abs(written) < 1_000_000_000_000_000_000 ==> read is Finite && read->Finite_0.wf()
                && read->Finite_0.is(written, 1_000_000)
        }),
{
    let written = round_half_even(speed.num * 1_000_000, speed.den as int);
    let text = speed_text(speed);
    let resource = text + ":"@ + path;
    lemma_number_read(written);
    lemma_slow_reverse_read();
    reveal_strlit(":");
    let at = text.len() as int;
    assert(resource[at] == ':');
    lemma_find_is(resource, ':', at);
    assert(resource.take(at) =~= text);
    assert(resource.skip(at + 1) =~= path);
}

/// A number with more digits than are kept is rounded to the nearest one with that many.
pub proof fn law_long_numbers_are_rounded_to_the_nearest(digits: Seq<char>, keep: int)
    requires
        all_digits(digits),
        0 <= keep <= digits.len(),
    ensures
        ({
            let unit = pow10((digits.len() - keep) as nat) as int;
            -unit <= 2 * (rounded_run(digits, keep) * unit - digits_value(digits)) <= unit
        }),
{
    let k = (digits.len() - keep) as nat;
    let unit = pow10(k) as int;
    let a = digits.take(keep);
    let b = digits.skip(keep);
    assert(digits =~= a + b);
    assert(all_digits(a));
    assert forall|i: int| 0 <= i < b.len() implies is_digit(#[trigger] b[i]) by {
        assert(is_digit(digits[keep + i]));
    }
    lemma_joined(a, b);
    lemma_digits_bound(b);
    let kept = digits_value(a) as int;
    if k == 0 {
        assert(a =~= digits);
        lemma_powers();
    } else {
        let first = b.take(1);
        let rest = b.skip(1);
        assert(b =~= first + rest);
        assert(all_digits(first));
        assert forall|i: int| 0 <= i < rest.len() implies is_digit(#[trigger] rest[i]) by {
            assert(is_digit(b[i + 1]));
        }
        lemma_joined(first, rest);
        lemma_digits_bound(rest);
        reveal_with_fuel(digits_value, 2);
        assert(first.drop_last() =~= seq![]);
        let d = digit_value(digits[keep]);
        let small = pow10((k - 1) as nat) as int;
        let low = digits_value(rest) as int;
        assert(digits_value(first) == d);
        assert(is_digit(digits[keep]));
        assert(unit == 10 * small);
        assert(digits_value(digits) == kept * unit + (d * small + low));
        assert((kept + 1) * unit == kept * unit + unit) by (nonlinear_arith);
        assert(d >= 5 ==> d * small >= 5 * small) by (nonlinear_arith)
            requires
                small >= 0,
        ;
        assert(d < 5 ==> d * small <= 4 * small) by (nonlinear_arith)
            requires
                small >= 0,
        ;
        assert(d * small <= 9 * small) by (nonlinear_arith)
            requires
                small >= 0,
                d <= 9,
        ;
    }
}

} // verus!
