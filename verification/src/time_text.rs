//! Instants as people write them: `1.5`, `3/2`, `1:30`, `00:01:30.5`, `1h2m3.5s`, and
//! `45f` where the frame rate is known.

use crate::error::{Error, ErrorView};
use crate::number::{pow10, power_of_ten};
use crate::rational::Rat;
use crate::text::{
    all_digits, chars_of, contains_char, digits_number, digits_value, find, find_from, has_char,
    is_digit, only_digits, parse_i64, parse_number, slice_of, split, split_chars, trim, trimmed,
};
use crate::time::{Fps, Time};
use vstd::prelude::*;

verus! {

/// A run of one to `most` digits.
pub open spec fn digits_of(s: Seq<char>, most: nat) -> Option<int> {
    if 1 <= s.len() <= most && all_digits(s) {
        Some(digits_value(s) as int)
    } else {
        None
    }
}

/// What stands behind the decimal point.
pub open spec fn fraction_of(s: Seq<char>) -> Seq<char> {
    if has_char(s, '.') {
        s.skip(find(s, '.') + 1)
    } else {
        seq![]
    }
}

/// A decimal fraction of up to eighteen digits, as a numerator and a denominator.
pub open spec fn decimal_of(s: Seq<char>) -> Option<(int, int)> {
    let run = s.take(find(s, '.')) + fraction_of(s);
    match digits_of(run, 18) {
        Some(n) => Some((n, pow10(fraction_of(s).len()) as int)),
        None => None,
    }
}

/// `n/d`.
pub open spec fn ratio_of(s: Seq<char>) -> Option<(int, int)> {
    let at = find(s, '/');
    match (digits_of(s.take(at), 18), digits_of(s.skip(at + 1), 18)) {
        (Some(n), Some(d)) => if d > 0 {
            Some((n, d))
        } else {
            None
        },
        _ => None,
    }
}

/// Whole seconds and a decimal fraction, together.
pub open spec fn with_seconds(whole: int, s: Seq<char>) -> Option<(int, int)> {
    match decimal_of(s) {
        Some((n, d)) => Some((whole * d + n, d)),
        None => None,
    }
}

/// `MM:SS.fff` or `HH:MM:SS.fff`.
pub open spec fn clock_of(s: Seq<char>) -> Option<(int, int)> {
    let parts = split(s, ':');
    if parts.len() == 2 {
        match digits_of(parts[0], 9) {
            Some(m) => with_seconds(m * 60, parts[1]),
            None => None,
        }
    } else if parts.len() == 3 {
        match (digits_of(parts[0], 9), digits_of(parts[1], 9)) {
            (Some(h), Some(m)) => with_seconds(h * 3600 + m * 60, parts[2]),
            _ => None,
        }
    } else {
        None
    }
}

/// The number in front of a unit, and what follows it; nothing where the unit is absent.
pub open spec fn unit_of(s: Seq<char>, unit: char) -> Option<(int, Seq<char>)> {
    if has_char(s, unit) {
        match digits_of(s.take(find(s, unit)), 9) {
            Some(n) => Some((n, s.skip(find(s, unit) + 1))),
            None => None,
        }
    } else {
        Some((0, s))
    }
}

/// `1h2m3.5s`, with any of the three left out.
pub open spec fn units_of(s: Seq<char>) -> Option<(int, int)> {
    match unit_of(s, 'h') {
        None => None,
        Some((h, after_hours)) => match unit_of(after_hours, 'm') {
            None => None,
            Some((m, rest)) => if rest.len() == 0 {
                Some((h * 3600 + m * 60, 1))
            } else if rest.last() == 's' {
                with_seconds(h * 3600 + m * 60, rest.drop_last())
            } else {
                None
            },
        },
    }
}

pub open spec fn is_unit(c: char) -> bool {
    c == 'h' || c == 'm' || c == 's'
}

/// An amount of seconds without a sign.
pub open spec fn amount_of(s: Seq<char>) -> Option<(int, int)> {
    if has_char(s, '/') {
        ratio_of(s)
    } else if has_char(s, ':') {
        clock_of(s)
    } else if s.len() > 0 && is_unit(s.last()) {
        units_of(s)
    } else {
        decimal_of(s)
    }
}

/// The instant that a fraction of a second is, where it can be stored.
pub open spec fn stored(amount: Option<(int, int)>, negative: bool) -> Option<Time> {
    match amount {
        Some((n, d)) => {
            let top = if negative {
                -n
            } else {
                n
            };
            if Rat::fits(top, d) {
                Some(Time { secs: Rat::of(top, d) })
            } else {
                None
            }
        },
        None => None,
    }
}

/// The instant that a text spells.
pub open spec fn time_of(text: Seq<char>) -> Option<Time> {
    let s = trim(text);
    if s.len() > 0 && s[0] == '-' {
        stored(amount_of(s.skip(1)), true)
    } else {
        stored(amount_of(s), false)
    }
}

/// The instant that a text spells where frames can be counted.
pub open spec fn time_at(text: Seq<char>, fps: Fps) -> Option<Time> {
    let s = trim(text);
    if s.len() > 1 && s.last() == 'f' {
        match parse_i64(s.drop_last()) {
            Some(frames) => if Time::frames_fit(frames as int, fps) {
                Some(Time::of_frames(frames as int, fps))
            } else {
                None
            },
            None => None,
        }
    } else {
        time_of(text)
    }
}

pub open spec fn not_a_time(text: Seq<char>) -> ErrorView {
    ErrorView::BadArgs("not a time: '"@ + text + "'"@)
}

// ---------------------------------------------------------------------------
// Reading
// ---------------------------------------------------------------------------

pub proof fn lemma_digits_bound(s: Seq<char>)
    requires
        all_digits(s),
    ensures
        digits_value(s) < pow10(s.len()),
    decreases s.len(),
{
    if s.len() > 0 {
        assert(all_digits(s.drop_last())) by {
            assert forall|i: int| 0 <= i < s.len() - 1 implies is_digit(
                #[trigger] s.drop_last()[i],
            ) by {
                assert(s.drop_last()[i] == s[i]);
            }
        }
        lemma_digits_bound(s.drop_last());
        assert(is_digit(s[s.len() - 1]));
    }
}

proof fn lemma_pow10_steps(places: nat)
    requires
        places <= 18,
    ensures
        1 <= pow10(places) <= 1_000_000_000_000_000_000,
        places <= 9 ==> pow10(places) <= 1_000_000_000,
{
    reveal_with_fuel(pow10, 19);
}

fn digits_in(chars: &Vec<char>, most: usize) -> (r: Option<i128>)
    requires
        most <= 18,
    ensures
        (match r {
            Some(n) => digits_of(chars@, most as nat) == Some(n as int),
            None => digits_of(chars@, most as nat) is None,
        }),
        r is Some ==> 0 <= r->0 < 1_000_000_000_000_000_000,
        r is Some && most <= 9 ==> r->0 < 1_000_000_000,
{
    let n: usize = chars.len();
    assert(chars@.subrange(0, n as int) =~= chars@);
    if n < 1 || n > most || !only_digits(chars, 0, n) {
        return None;
    }
    proof {
        lemma_digits_bound(chars@);
        lemma_pow10_steps(n as nat);
    }
    match digits_number(chars, 0, n) {
        Some(v) => Some(v as i128),
        None => None,
    }
}

fn decimal_in(chars: &Vec<char>) -> (r: Option<(i128, i128)>)
    ensures
        (match r {
            Some((n, d)) => decimal_of(chars@) == Some((n as int, d as int)),
            None => decimal_of(chars@) is None,
        }),
        r matches Some((n, d)) ==> 0 <= n < 1_000_000_000_000_000_000 && 1 <= d
            <= 1_000_000_000_000_000_000,
{
    let n: usize = chars.len();
    assert(chars@.skip(0) =~= chars@);
    let at: usize = find_from(chars, 0, '.');
    let mut run = slice_of(chars, 0, at);
    assert(run@ =~= chars@.take(at as int));
    let mut places: usize = 0;
    if at < n {
        let mut rest = slice_of(chars, at + 1, n);
        assert(rest@ =~= fraction_of(chars@));
        places = rest.len();
        run.append(&mut rest);
    }
    assert(run@ =~= chars@.take(find(chars@, '.')) + fraction_of(chars@));
    match digits_in(&run, 18) {
        Some(v) => {
            proof {
                lemma_pow10_steps(places as nat);
            }
            Some((v, power_of_ten(places) as i128))
        },
        None => None,
    }
}

fn ratio_in(chars: &Vec<char>) -> (r: Option<(i128, i128)>)
    requires
        has_char(chars@, '/'),
    ensures
        (match r {
            Some((n, d)) => ratio_of(chars@) == Some((n as int, d as int)),
            None => ratio_of(chars@) is None,
        }),
        r matches Some((n, d)) ==> 0 <= n < 1_000_000_000_000_000_000 && 1 <= d
            <= 1_000_000_000_000_000_000,
{
    let n: usize = chars.len();
    assert(chars@.skip(0) =~= chars@);
    let at: usize = find_from(chars, 0, '/');
    let top = slice_of(chars, 0, at);
    let bottom = slice_of(chars, at + 1, n);
    assert(top@ =~= chars@.take(at as int));
    assert(bottom@ =~= chars@.skip(at + 1));
    match (digits_in(&top, 18), digits_in(&bottom, 18)) {
        (Some(a), Some(b)) => {
            if b > 0 {
                Some((a, b))
            } else {
                None
            }
        },
        _ => None,
    }
}

fn seconds_in(whole: i128, chars: &Vec<char>) -> (r: Option<(i128, i128)>)
    requires
        0 <= whole <= 4_000_000_000_000,
    ensures
        (match r {
            Some((n, d)) => with_seconds(whole as int, chars@) == Some((n as int, d as int)),
            None => with_seconds(whole as int, chars@) is None,
        }),
        r matches Some((n, d)) ==> 0 <= n < 5_000_000_000_000_000_000_000_000_000_000 && 1 <= d
            <= 1_000_000_000_000_000_000,
{
    match decimal_in(chars) {
        Some((n, d)) => {
            assert(0 <= whole * d <= 4_000_000_000_000 * 1_000_000_000_000_000_000)
                by (nonlinear_arith)
                requires
                    0 <= whole <= 4_000_000_000_000,
                    1 <= d <= 1_000_000_000_000_000_000,
            ;
            Some((whole * d + n, d))
        },
        None => None,
    }
}

fn clock_in(chars: &Vec<char>) -> (r: Option<(i128, i128)>)
    ensures
        (match r {
            Some((n, d)) => clock_of(chars@) == Some((n as int, d as int)),
            None => clock_of(chars@) is None,
        }),
        r matches Some((n, d)) ==> 0 <= n < 5_000_000_000_000_000_000_000_000_000_000 && 1 <= d
            <= 1_000_000_000_000_000_000,
{
    let parts = split_chars(chars, ':');
    let ghost want = split(chars@, ':');
    assert(want.len() == parts@.len());
    assert(forall|k: int| 0 <= k < parts@.len() ==> want[k] == (#[trigger] parts@[k])@);
    if parts.len() == 2 {
        match digits_in(&parts[0], 9) {
            Some(m) => seconds_in(m * 60, &parts[1]),
            None => None,
        }
    } else if parts.len() == 3 {
        match (digits_in(&parts[0], 9), digits_in(&parts[1], 9)) {
            (Some(h), Some(m)) => seconds_in(h * 3600 + m * 60, &parts[2]),
            _ => None,
        }
    } else {
        None
    }
}

fn unit_in(chars: &Vec<char>, unit: char) -> (r: Option<(i128, Vec<char>)>)
    ensures
        (match r {
            Some((n, rest)) => unit_of(chars@, unit) == Some((n as int, rest@)),
            None => unit_of(chars@, unit) is None,
        }),
        r matches Some((n, rest)) ==> 0 <= n < 1_000_000_000,
{
    let n: usize = chars.len();
    assert(chars@.skip(0) =~= chars@);
    let at: usize = find_from(chars, 0, unit);
    if at < n {
        let top = slice_of(chars, 0, at);
        let rest = slice_of(chars, at + 1, n);
        assert(top@ =~= chars@.take(at as int));
        assert(rest@ =~= chars@.skip(at + 1));
        match digits_in(&top, 9) {
            Some(v) => Some((v, rest)),
            None => None,
        }
    } else {
        let all = slice_of(chars, 0, n);
        assert(all@ =~= chars@);
        Some((0, all))
    }
}

fn units_in(chars: &Vec<char>) -> (r: Option<(i128, i128)>)
    ensures
        (match r {
            Some((n, d)) => units_of(chars@) == Some((n as int, d as int)),
            None => units_of(chars@) is None,
        }),
        r matches Some((n, d)) ==> 0 <= n < 5_000_000_000_000_000_000_000_000_000_000 && 1 <= d
            <= 1_000_000_000_000_000_000,
{
    match unit_in(chars, 'h') {
        None => None,
        Some((h, after_hours)) => match unit_in(&after_hours, 'm') {
            None => None,
            Some((m, rest)) => {
                let n: usize = rest.len();
                if n == 0 {
                    Some((h * 3600 + m * 60, 1))
                } else if rest[n - 1] == 's' {
                    let number = slice_of(&rest, 0, n - 1);
                    assert(number@ =~= rest@.drop_last());
                    seconds_in(h * 3600 + m * 60, &number)
                } else {
                    None
                }
            },
        },
    }
}

fn amount_in(chars: &Vec<char>) -> (r: Option<(i128, i128)>)
    ensures
        (match r {
            Some((n, d)) => amount_of(chars@) == Some((n as int, d as int)),
            None => amount_of(chars@) is None,
        }),
        r matches Some((n, d)) ==> 0 <= n < 5_000_000_000_000_000_000_000_000_000_000 && 1 <= d
            <= 1_000_000_000_000_000_000,
{
    let n: usize = chars.len();
    if contains_char(chars, '/') {
        ratio_in(chars)
    } else if contains_char(chars, ':') {
        clock_in(chars)
    } else if n > 0 && (chars[n - 1] == 'h' || chars[n - 1] == 'm' || chars[n - 1] == 's') {
        units_in(chars)
    } else {
        decimal_in(chars)
    }
}

fn bad_time(text: &str) -> (r: Error)
    ensures
        r@ == not_a_time(text@),
{
    let mut detail = "not a time: '".to_owned();
    detail.append(text);
    detail.append("'");
    Error::BadArgs(detail)
}

impl Time {
    /// The instant that a text spells, if it spells one.
    pub fn read(text: &str) -> (r: Option<Time>)
        ensures
            r == time_of(text@),
            r is Some ==> r->0.wf(),
    {
        let chars = trimmed(&chars_of(text));
        let n: usize = chars.len();
        let negative = n > 0 && chars[0] == '-';
        let amount = if negative {
            let rest = slice_of(&chars, 1, n);
            assert(rest@ =~= chars@.skip(1));
            amount_in(&rest)
        } else {
            amount_in(&chars)
        };
        match amount {
            Some((top, bottom)) => {
                let signed: i128 = if negative {
                    -top
                } else {
                    top
                };
                match Rat::try_of(signed, bottom) {
                    Some(secs) => Some(Time { secs }),
                    None => None,
                }
            },
            None => None,
        }
    }

    /// The instant that a text spells.
    pub fn parse(text: &str) -> (r: Result<Time, Error>)
        ensures
            r is Ok <==> time_of(text@) is Some,
            r is Ok ==> Some(r->Ok_0) == time_of(text@) && r->Ok_0.wf(),
            r is Err ==> r->Err_0@ == not_a_time(text@),
    {
        match Time::read(text) {
            Some(time) => Ok(time),
            None => Err(bad_time(text)),
        }
    }

    /// The instant that a text spells, where a number of frames is one too.
    pub fn parse_with_fps(text: &str, fps: Fps) -> (r: Result<Time, Error>)
        requires
            fps.wf(),
        ensures
            r is Ok <==> time_at(text@, fps) is Some,
            r is Ok ==> Some(r->Ok_0) == time_at(text@, fps) && r->Ok_0.wf(),
            r is Err ==> r->Err_0@ == not_a_time(text@),
    {
        let chars = trimmed(&chars_of(text));
        let n: usize = chars.len();
        if n > 1 && chars[n - 1] == 'f' {
            let number = slice_of(&chars, 0, n - 1);
            assert(number@ =~= chars@.drop_last());
            match parse_number(&number) {
                Some(frames) => match Time::checked_from_frames(frames, fps) {
                    Some(time) => Ok(time),
                    None => Err(bad_time(text)),
                },
                None => Err(bad_time(text)),
            }
        } else {
            Time::parse(text)
        }
    }
}

/// The frame rate that a text spells: `30000/1001`, `25`, `29.97`.
pub open spec fn rate_value(text: Seq<char>) -> Option<Fps> {
    let s = trim(text);
    let amount = if has_char(s, '/') {
        ratio_of(s)
    } else {
        decimal_of(s)
    };
    match amount {
        Some((n, d)) => if n > 0 && Rat::fits(n, d) {
            Some(Fps { rate: Rat::of(n, d) })
        } else {
            None
        },
        None => None,
    }
}

pub open spec fn not_a_rate(text: Seq<char>) -> ErrorView {
    ErrorView::BadArgs("not a frame rate: '"@ + text + "'"@)
}

impl Fps {
    /// The frame rate that a text spells.
    pub fn parse(text: &str) -> (r: Result<Fps, Error>)
        ensures
            r is Ok <==> rate_value(text@) is Some,
            r is Ok ==> Some(r->Ok_0) == rate_value(text@) && r->Ok_0.wf(),
            r is Err ==> r->Err_0@ == not_a_rate(text@),
    {
        let chars = trimmed(&chars_of(text));
        let amount = if contains_char(&chars, '/') {
            ratio_in(&chars)
        } else {
            decimal_in(&chars)
        };
        if let Some((n, d)) = amount {
            if n > 0 {
                if let Some(rate) = Rat::try_of(n, d) {
                    proof {
                        crate::time::lemma_positive_top(n as int, d as int);
                    }
                    return Ok(Fps { rate });
                }
            }
        }
        let mut detail = "not a frame rate: '".to_owned();
        detail.append(text);
        detail.append("'");
        Err(Error::BadArgs(detail))
    }
}

} // verus!
