//! What rounding, and sums and products of instants, have to satisfy.

use crate::rational::{abs, round_half_away, round_half_even, Rat};
use crate::subtitle_laws::lemma_dec_wide;
use crate::text::{all_digits, digits_value, is_digit, lemma_find_is, split};
use crate::time::{timecode_text, Fps, Time};
use vstd::arithmetic::div_mod::{lemma_fundamental_div_mod, lemma_mod_division_less_than_divisor};
use vstd::prelude::*;

verus! {

/// Whether `r` is a whole number that none is nearer to `n / d` than.
pub open spec fn is_nearest(n: int, d: int, r: int) -> bool {
    -d <= 2 * (n - r * d) <= d
}

/// Rounding gives the nearest whole number, and of two that are as near the one further from zero.
pub proof fn law_rounding_gives_the_nearest(n: int, d: int)
    requires
        d > 0,
    ensures
        is_nearest(n, d, round_half_away(n, d)),
        n >= 0 ==> 2 * (n - round_half_away(n, d) * d) < d,
        n < 0 ==> 2 * (n - round_half_away(n, d) * d) > -d,
{
    let a = if n >= 0 {
        n
    } else {
        -n
    };
    let q = (2 * a + d) / (2 * d);
    lemma_fundamental_div_mod(2 * a + d, 2 * d);
    lemma_mod_division_less_than_divisor(2 * a + d, 2 * d);
    let rest = (2 * a + d) % (2 * d);
    assert(2 * (a - q * d) == rest - d) by (nonlinear_arith)
        requires
            2 * a + d == (2 * d) * q + rest,
    ;
    if n < 0 {
        assert(n - (-q) * d == -(a - q * d)) by (nonlinear_arith)
            requires
                n == -a,
    ;
    }
}

/// Rounding for decimal text gives the nearest whole number, and of two that are as near the even
/// one.
pub proof fn law_rounding_to_even_gives_the_nearest(n: int, d: int)
    requires
        d > 0,
    ensures
        is_nearest(n, d, round_half_even(n, d)),
        2 * (n - round_half_even(n, d) * d) == d || 2 * (n - round_half_even(n, d) * d) == -d
            ==> round_half_even(n, d) % 2 == 0,
{
    let a = abs(n) as int;
    let q = a / d;
    let rest = a % d;
    lemma_fundamental_div_mod(a, d);
    lemma_mod_division_less_than_divisor(a, d);
    assert(a - q * d == rest) by (nonlinear_arith)
        requires
            a == d * q + rest,
    ;
    assert(a - (q + 1) * d == rest - d) by (nonlinear_arith)
        requires
            a - q * d == rest,
    ;
    let up = if 2 * rest > d || (2 * rest == d && q % 2 == 1) {
        q + 1
    } else {
        q
    };
    if n < 0 {
        assert(n - (-up) * d == -(a - up * d)) by (nonlinear_arith)
            requires
                n == -a,
        ;
    }
}

/// No number that is rounded comes out behind a larger one.
pub proof fn law_rounding_keeps_the_order(n: int, d: int, m: int, e: int)
    requires
        d > 0,
        e > 0,
        n * e <= m * d,
    ensures
        round_half_away(n, d) <= round_half_away(m, e),
{
    law_rounding_gives_the_nearest(n, d);
    law_rounding_gives_the_nearest(m, e);
    let r = round_half_away(n, d);
    let t = round_half_away(m, e);
    if r > t {
        // Then r - 1/2 <= n/d <= m/e <= t + 1/2 <= r - 1/2, and the ties have to agree.
        assert(2 * n >= (2 * r - 1) * d) by (nonlinear_arith)
            requires
                -d <= 2 * (n - r * d),
        ;
        assert(2 * m <= (2 * t + 1) * e) by (nonlinear_arith)
            requires
                2 * (m - t * e) <= e,
        ;
        assert(2 * (n * e) >= ((2 * r - 1) * d) * e) by (nonlinear_arith)
            requires
                2 * n >= (2 * r - 1) * d,
                e > 0,
        ;
        assert(2 * (m * d) <= ((2 * t + 1) * e) * d) by (nonlinear_arith)
            requires
                2 * m <= (2 * t + 1) * e,
                d > 0,
        ;
        let de = d * e;
        assert(((2 * r - 1) * d) * e == (2 * r - 1) * de) by (nonlinear_arith)
            requires
                de == d * e,
        ;
        assert(((2 * t + 1) * e) * d == (2 * t + 1) * de) by (nonlinear_arith)
            requires
                de == d * e,
        ;
        assert(de > 0) by (nonlinear_arith)
            requires
                d > 0,
                e > 0,
                de == d * e,
        ;
        assert(2 * r - 1 <= 2 * t + 1) by (nonlinear_arith)
            requires
                (2 * r - 1) * de <= (2 * t + 1) * de,
                de > 0,
        ;
        assert(r == t + 1);
        // Both are the tie between t and r.
        assert(2 * (n * e) == (2 * t + 1) * de);
        assert(2 * (m * d) == (2 * t + 1) * de);
        assert(2 * n == (2 * t + 1) * d) by (nonlinear_arith)
            requires
                2 * (n * e) == (2 * t + 1) * de,
                de == d * e,
                e > 0,
        ;
        assert(2 * m == (2 * t + 1) * e) by (nonlinear_arith)
            requires
                2 * (m * d) == (2 * t + 1) * de,
                de == d * e,
                d > 0,
        ;
        assert(2 * (m - t * e) == e) by (nonlinear_arith)
            requires
                2 * m == (2 * t + 1) * e,
        ;
        assert(m < 0);
        assert(2 * (n - r * d) == -d) by (nonlinear_arith)
            requires
                2 * n == (2 * t + 1) * d,
                r == t + 1,
        ;
        assert(n >= 0);
        assert(n * e >= 0) by (nonlinear_arith)
            requires
                n >= 0,
                e > 0,
        ;
        assert(m * d < 0) by (nonlinear_arith)
            requires
                m < 0,
                d > 0,
        ;
    }
}

/// The frame that covers an instant starts no later than it, and the next one later; the first frame
/// that does not start before it is at most one further. All three roundings are within a frame.
pub proof fn law_frames_stand_around_an_instant(at: Time, fps: Fps)
    requires
        at.wf(),
        fps.wf(),
    ensures
        ({
            let top = at.secs.num * fps.rate.num;
            let bottom = at.secs.den * fps.rate.den;
            &&& bottom > 0
            &&& at.floor_frame(fps) * bottom <= top < (at.floor_frame(fps) + 1) * bottom
            &&& (at.ceil_frame(fps) - 1) * bottom < top <= at.ceil_frame(fps) * bottom
            &&& is_nearest(top, bottom, at.round_frame(fps))
        }),
{
    let top = at.secs.num * fps.rate.num;
    let bottom = at.secs.den * fps.rate.den;
    assert(bottom > 0) by (nonlinear_arith)
        requires
            at.secs.den > 0,
            fps.rate.den > 0,
            bottom == at.secs.den * fps.rate.den,
    ;
    lemma_floor(top, bottom);
    lemma_floor(-top, bottom);
    let c = (-top) / bottom;
    assert((-c - 1) * bottom < top <= (-c) * bottom) by (nonlinear_arith)
        requires
            c * bottom <= -top < (c + 1) * bottom,
    ;
    law_rounding_gives_the_nearest(top, bottom);
}

proof fn lemma_floor(n: int, d: int)
    requires
        d > 0,
    ensures
        (n / d) * d <= n < (n / d + 1) * d,
{
    lemma_fundamental_div_mod(n, d);
    lemma_mod_division_less_than_divisor(n, d);
    let q = n / d;
    let rest = n % d;
    assert(q * d <= n < (q + 1) * d) by (nonlinear_arith)
        requires
            n == d * q + rest,
            0 <= rest < d,
    ;
}

/// A later instant is on no earlier frame.
pub proof fn law_later_instants_are_on_later_frames(a: Time, b: Time, fps: Fps)
    requires
        a.wf(),
        b.wf(),
        fps.wf(),
        a.le(b),
    ensures
        a.round_frame(fps) <= b.round_frame(fps),
{
    let (an, ad) = (a.secs.num as int, a.secs.den as int);
    let (bn, bd) = (b.secs.num as int, b.secs.den as int);
    let (fnum, fden) = (fps.rate.num as int, fps.rate.den as int);
    assert(ad * fden > 0 && bd * fden > 0) by (nonlinear_arith)
        requires
            ad > 0,
            bd > 0,
            fden > 0,
    ;
    assert((an * fnum) * (bd * fden) <= (bn * fnum) * (ad * fden)) by (nonlinear_arith)
        requires
            an * bd <= bn * ad,
            fnum > 0,
            fden > 0,
    ;
    law_rounding_keeps_the_order(an * fnum, ad * fden, bn * fnum, bd * fden);
}

/// Whether two instants are one number of seconds.
pub open spec fn same_time(a: Time, b: Time) -> bool {
    a.secs.num * b.secs.den == b.secs.num * a.secs.den
}

/// What is put on top of an instant and taken away again leaves it.
pub proof fn law_a_difference_undoes_a_sum(a: Time, b: Time)
    requires
        a.wf(),
        b.wf(),
        a.sum_fits(b),
        a.spec_plus(b).difference_fits(b),
    ensures
        same_time(a.spec_plus(b).spec_minus(b), a),
        same_time(a.spec_plus(b), b.spec_plus(a)),
{
    let (an, ad) = (a.secs.num as int, a.secs.den as int);
    let (bn, bd) = (b.secs.num as int, b.secs.den as int);
    assert(ad * bd > 0) by (nonlinear_arith)
        requires
            ad > 0,
            bd > 0,
    ;
    Rat::lemma_of(an * bd + bn * ad, ad * bd);
    let s = a.spec_plus(b);
    let (sn, sd) = (s.secs.num as int, s.secs.den as int);
    assert(sd * bd > 0) by (nonlinear_arith)
        requires
            sd > 0,
            bd > 0,
    ;
    Rat::lemma_of(sn * bd - bn * sd, sd * bd);
    let r = s.spec_minus(b);
    let (rn, rd) = (r.secs.num as int, r.secs.den as int);
    let top = sn * bd - bn * sd;
    assert(sn * (ad * bd) == (an * bd + bn * ad) * sd);
    assert(rn * (sd * bd) == top * rd);
    assert(top * ad == sn * (ad * bd) - (bn * ad) * sd) by (nonlinear_arith)
        requires
            top == sn * bd - bn * sd,
    ;
    assert((an * bd + bn * ad) * sd == an * (sd * bd) + (bn * ad) * sd) by (nonlinear_arith);
    assert(top * ad == an * (sd * bd));
    assert((rn * ad) * (sd * bd) == (an * rd) * (sd * bd)) by (nonlinear_arith)
        requires
            rn * (sd * bd) == top * rd,
            top * ad == an * (sd * bd),
    ;
    assert(rn * ad == an * rd) by (nonlinear_arith)
        requires
            (rn * ad) * (sd * bd) == (an * rd) * (sd * bd),
            sd * bd > 0,
    ;
    assert(bn * ad + an * bd == an * bd + bn * ad);
    assert(bd * ad == ad * bd) by (nonlinear_arith);
}

/// A positive duration on top of an instant gives a later one.
pub proof fn law_a_duration_moves_on(a: Time, b: Time)
    requires
        a.wf(),
        b.wf(),
        a.sum_fits(b),
    ensures
        b.secs.num > 0 ==> a.lt(a.spec_plus(b)),
        b.secs.num == 0 ==> same_time(a, a.spec_plus(b)),
        b.secs.num < 0 ==> a.spec_plus(b).lt(a),
{
    let (an, ad) = (a.secs.num as int, a.secs.den as int);
    let (bn, bd) = (b.secs.num as int, b.secs.den as int);
    assert(ad * bd > 0) by (nonlinear_arith)
        requires
            ad > 0,
            bd > 0,
    ;
    Rat::lemma_of(an * bd + bn * ad, ad * bd);
    let s = a.spec_plus(b);
    let (sn, sd) = (s.secs.num as int, s.secs.den as int);
    let apart = sn * ad - an * sd;
    assert(apart * bd == bn * ad * sd) by (nonlinear_arith)
        requires
            sn * (ad * bd) == (an * bd + bn * ad) * sd,
            apart == sn * ad - an * sd,
    ;
    assert(bn > 0 ==> apart > 0) by (nonlinear_arith)
        requires
            apart * bd == bn * ad * sd,
            ad > 0,
            sd > 0,
            bd > 0,
    ;
    assert(bn == 0 ==> apart == 0) by (nonlinear_arith)
        requires
            apart * bd == bn * ad * sd,
            bd > 0,
    ;
    assert(bn < 0 ==> apart < 0) by (nonlinear_arith)
        requires
            apart * bd == bn * ad * sd,
            ad > 0,
            sd > 0,
            bd > 0,
    ;
}

/// A duration times a factor is as many times the seconds.
pub proof fn law_a_product_scales(a: Time, factor: Rat)
    requires
        a.wf(),
        factor.wf(),
        a.product_fits(factor),
    ensures
        factor.num == factor.den ==> same_time(a.spec_times(factor), a),
        a.secs.num > 0 && factor.num > factor.den ==> a.lt(a.spec_times(factor)),
        a.secs.num > 0 && 0 < factor.num < factor.den ==> a.spec_times(factor).lt(a),
        a.secs.num == 0 ==> a.spec_times(factor).secs.num == 0,
{
    let (an, ad) = (a.secs.num as int, a.secs.den as int);
    let (p, q) = (factor.num as int, factor.den as int);
    assert(ad * q > 0) by (nonlinear_arith)
        requires
            ad > 0,
            q > 0,
    ;
    Rat::lemma_of(an * p, ad * q);
    let s = a.spec_times(factor);
    let (sn, sd) = (s.secs.num as int, s.secs.den as int);
    let apart = sn * ad - an * sd;
    assert(apart * q == an * sd * (p - q)) by (nonlinear_arith)
        requires
            sn * (ad * q) == (an * p) * sd,
            apart == sn * ad - an * sd,
    ;
    assert(p == q ==> apart == 0) by (nonlinear_arith)
        requires
            apart * q == an * sd * (p - q),
            q > 0,
    ;
    assert(an > 0 && p > q ==> apart > 0) by (nonlinear_arith)
        requires
            apart * q == an * sd * (p - q),
            q > 0,
            sd > 0,
    ;
    assert(an > 0 && p < q ==> apart < 0) by (nonlinear_arith)
        requires
            apart * q == an * sd * (p - q),
            q > 0,
            sd > 0,
    ;
    assert(an == 0 ==> sn == 0) by (nonlinear_arith)
        requires
            sn * (ad * q) == (an * p) * sd,
            ad * q > 0,
    ;
}

// ---------------------------------------------------------------------------
// Timecode
// ---------------------------------------------------------------------------

/// What `HH:MM:SS:FF` says in frames, at so many to the second.
pub open spec fn frames_read(text: Seq<char>, base: int) -> int {
    let parts = split(text, ':');
    ((digits_value(parts[0]) * 60 + digits_value(parts[1])) * 60 + digits_value(parts[2])) * base
        + digits_value(parts[3])
}

proof fn lemma_split_first(a: Seq<char>, rest: Seq<char>)
    requires
        all_digits(a),
    ensures
        split(a + seq![':'] + rest, ':') == seq![a] + split(rest, ':'),
{
    let s = a + seq![':'] + rest;
    assert forall|i: int| 0 <= i < a.len() implies s[i] != ':' by {
        assert(is_digit(a[i]));
    }
    lemma_find_is(s, ':', a.len() as int);
    assert(s.take(a.len() as int) =~= a);
    assert(s.skip(a.len() as int + 1) =~= rest);
}

proof fn lemma_split_four(a: Seq<char>, b: Seq<char>, c: Seq<char>, d: Seq<char>)
    requires
        all_digits(a),
        all_digits(b),
        all_digits(c),
        all_digits(d),
    ensures
        split(a + seq![':'] + b + seq![':'] + c + seq![':'] + d, ':') == seq![a, b, c, d],
{
    let s = a + seq![':'] + b + seq![':'] + c + seq![':'] + d;
    let t = b + seq![':'] + c + seq![':'] + d;
    let u = c + seq![':'] + d;
    assert(s =~= a + seq![':'] + t);
    assert(t =~= b + seq![':'] + u);
    lemma_split_first(a, t);
    lemma_split_first(b, u);
    lemma_split_first(c, d);
    assert forall|i: int| 0 <= i < d.len() implies d[i] != ':' by {
        assert(is_digit(d[i]));
    }
    lemma_find_is(d, ':', d.len() as int);
    assert(split(d, ':') =~= seq![d]);
    assert(split(s, ':') =~= seq![a, b, c, d]);
}

/// A timecode reads as the frame it was written for.
pub proof fn law_a_timecode_is_read_back(frame: int, base: int)
    requires
        frame >= 0,
        base > 0,
    ensures
        frames_read(timecode_text(frame, base), base) == frame,
        forall|i: int|
            0 <= i < timecode_text(frame, base).len() ==> is_digit(
                #[trigger] timecode_text(frame, base)[i],
            ) || timecode_text(frame, base)[i] == ':',
{
    let f = abs(frame);
    let secs = f / base as nat;
    let h = dec_wide_of(secs / 3600);
    let m = dec_wide_of(secs / 60 % 60);
    let s = dec_wide_of(secs % 60);
    let g = dec_wide_of(f % base as nat);
    lemma_dec_wide(secs / 3600, 2);
    lemma_dec_wide(secs / 60 % 60, 2);
    lemma_dec_wide(secs % 60, 2);
    lemma_dec_wide(f % base as nat, 2);
    let text = timecode_text(frame, base);
    assert(text =~= h + seq![':'] + m + seq![':'] + s + seq![':'] + g);
    lemma_split_four(h, m, s, g);
    let whole = secs as int;
    assert((whole / 3600 * 60 + whole / 60 % 60) * 60 + whole % 60 == whole);
    lemma_fundamental_div_mod(frame, base);
    assert(whole * base + frame % base == frame) by (nonlinear_arith)
        requires
            frame == base * whole + frame % base,
    ;
    assert forall|i: int| 0 <= i < text.len() implies is_digit(#[trigger] text[i]) || text[i]
        == ':' by {
        let (a, b, c) = (h.len() as int, m.len() as int, s.len() as int);
        if i < a {
            assert(text[i] == h[i]);
        } else if i == a {
        } else if i < a + 1 + b {
            assert(text[i] == m[i - a - 1]);
        } else if i == a + 1 + b {
        } else if i < a + b + c + 2 {
            assert(text[i] == s[i - a - b - 2]);
        } else if i == a + b + c + 2 {
        } else {
            assert(text[i] == g[i - a - b - c - 3]);
        }
    }
}

spec fn dec_wide_of(n: nat) -> Seq<char> {
    crate::text::dec_wide(n, 2)
}

} // verus!
