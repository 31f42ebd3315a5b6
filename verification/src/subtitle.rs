//! SubRip and WebVTT captions.
//!
//! The writer is strict. The reader absorbs what caption files in the wild get wrong: a
//! byte order mark, CRLF line endings, missing indices, missing or superfluous blank lines,
//! cue settings, metadata blocks, and cues out of order. Only a timestamp that cannot be
//! read is an error.

use crate::error::{Error, ErrorView};
use crate::number::{lemma_pow10_bound, pow10};
use crate::order::{order_spans, span_order};
use crate::project::CaptionCue;
use crate::rational::{lemma_same_fraction, lemma_wide, Rat};
use crate::speed_laws::lemma_joined;
use crate::text::{
    all_digits, chars_of, dec, decimal, digit_value, digits_value, find, find_from, find_text,
    first_at, is_digit, join, joined, lines, lines_of, occurs, only_digits, parse_i64, parse_number,
    push_char, same, slice_of, split, split_chars, stands_at, string_of, strings, texts, trim,
    trim_end, trimmed, trimmed_end, words, words_of,
};
use crate::time::{lemma_small_fits, Span, Time};
use crate::time_text::lemma_digits_bound;
use vstd::prelude::*;

verus! {

// ---------------------------------------------------------------------------
// Writing
// ---------------------------------------------------------------------------

/// A text with another character for its decimal point.
pub open spec fn with_point(s: Seq<char>, point: char) -> Seq<char> {
    s.map_values(
        |c: char|
            if c == '.' {
                point
            } else {
                c
            },
    )
}

/// `HH:MM:SS,mmm`, with a decimal point of choice. Nothing is before zero.
pub open spec fn stamp_text(at: Time, point: char) -> Seq<char> {
    with_point(at.spec_max(Time::zero_spec()).clock_text(), point)
}

/// The lines of a cue: a blank line would end it, so those are left out.
pub open spec fn body_text(lines: Seq<Seq<char>>) -> Seq<char>
    decreases lines.len(),
{
    if lines.len() == 0 {
        seq![]
    } else {
        let before = body_text(lines.drop_last());
        if trim(lines.last()).len() == 0 {
            before
        } else {
            before + trim_end(lines.last()) + seq!['\n']
        }
    }
}

/// A numbered cue, and the blank line that ends it.
pub open spec fn cue_text(number: int, cue: CaptionCue, point: char) -> Seq<char> {
    dec(number as nat) + seq!['\n'] + stamp_text(cue.span.start, point) + " --> "@ + stamp_text(
        cue.span.end,
        point,
    ) + seq!['\n'] + body_text(lines(cue.text@)) + seq!['\n']
}

/// The cues at some positions, numbered from one.
pub open spec fn cues_text(cues: Seq<CaptionCue>, order: Seq<int>, point: char) -> Seq<char>
    decreases order.len(),
{
    if order.len() == 0 {
        seq![]
    } else {
        cues_text(cues, order.drop_last(), point) + cue_text(
            order.len() as int,
            cues[order.last()],
            point,
        )
    }
}

pub open spec fn spans_of(cues: Seq<CaptionCue>) -> Seq<Span> {
    cues.map_values(|c: CaptionCue| c.span)
}

/// A caption file: the cues in the order of time, whatever order they come in.
pub open spec fn captions_text(cues: Seq<CaptionCue>, point: char, header: Seq<char>) -> Seq<char> {
    header + cues_text(cues, span_order(spans_of(cues)), point)
}

pub open spec fn srt_text(cues: Seq<CaptionCue>) -> Seq<char> {
    captions_text(cues, ',', seq![])
}

pub open spec fn vtt_text(cues: Seq<CaptionCue>) -> Seq<char> {
    captions_text(cues, '.', "WEBVTT\n\n"@)
}

/// Whether every instant is a number.
pub open spec fn cues_wf(cues: Seq<CaptionCue>) -> bool {
    forall|i: int|
        0 <= i < cues.len() ==> (#[trigger] cues[i]).span.start.wf() && cues[i].span.end.wf()
}

/// `HH:MM:SS,mmm` or `HH:MM:SS.mmm`: the two formats agree on everything but the point.
pub fn stamp(at: Time, point: char) -> (r: String)
    requires
        at.wf(),
    ensures
        r@ == stamp_text(at, point),
{
    let clock = chars_of(at.max(Time::zero()).clock().as_str());
    let mut out = String::new();
    let mut i: usize = 0;
    while i < clock.len()
        invariant
            i <= clock@.len(),
            out@ == with_point(clock@, point).take(i as int),
        decreases clock@.len() - i,
    {
        if clock[i] == '.' {
            push_char(&mut out, point);
        } else {
            push_char(&mut out, clock[i]);
        }
        i = i + 1;
        assert(out@ =~= with_point(clock@, point).take(i as int));
    }
    assert(out@ =~= with_point(clock@, point));
    out
}

fn push_body(out: &mut String, text: &str)
    ensures
        final(out)@ == old(out)@ + body_text(lines(text@)),
{
    let parts = lines_of(&chars_of(text));
    let ghost all = texts(parts@);
    let mut i: usize = 0;
    assert(all.take(0) =~= seq![]);
    assert(out@ =~= old(out)@ + body_text(all.take(0)));
    while i < parts.len()
        invariant
            i <= parts@.len(),
            all == texts(parts@),
            out@ == old(out)@ + body_text(all.take(i as int)),
        decreases parts@.len() - i,
    {
        proof {
            assert(all.take(i + 1).drop_last() =~= all.take(i as int));
            assert(all.take(i + 1).last() == parts@[i as int]@);
        }
        if trimmed(&parts[i]).len() > 0 {
            let kept = trimmed_end(&parts[i]);
            out.append(string_of(&kept).as_str());
            push_char(out, '\n');
        }
        i = i + 1;
        assert(out@ =~= old(out)@ + body_text(all.take(i as int)));
    }
    assert(all.take(i as int) =~= all);
}

fn push_cue(out: &mut String, number: u128, cue: &CaptionCue, point: char)
    requires
        cue.span.start.wf(),
        cue.span.end.wf(),
    ensures
        final(out)@ == old(out)@ + cue_text(number as int, *cue, point),
{
    out.append(decimal(number).as_str());
    push_char(out, '\n');
    out.append(stamp(cue.span.start, point).as_str());
    out.append(" --> ");
    out.append(stamp(cue.span.end, point).as_str());
    push_char(out, '\n');
    push_body(out, cue.text.as_str());
    push_char(out, '\n');
    assert(out@ =~= old(out)@ + cue_text(number as int, *cue, point));
}

fn collect_spans(cues: &Vec<CaptionCue>) -> (r: Vec<Span>)
    ensures
        r@ == spans_of(cues@),
{
    let mut out: Vec<Span> = Vec::new();
    let mut i: usize = 0;
    while i < cues.len()
        invariant
            i <= cues@.len(),
            out@ == spans_of(cues@).take(i as int),
        decreases cues@.len() - i,
    {
        out.push(cues[i].span);
        i = i + 1;
        assert(out@ =~= spans_of(cues@).take(i as int));
    }
    assert(out@ =~= spans_of(cues@));
    out
}

fn write_cues(cues: &Vec<CaptionCue>, point: char, header: &str) -> (r: String)
    requires
        cues_wf(cues@),
    ensures
        r@ == captions_text(cues@, point, header@),
{
    let spans = collect_spans(cues);
    let order = order_spans(&spans);
    let ghost list = order@.map_values(|k: usize| k as int);
    let mut out = header.to_owned();
    let mut i: usize = 0;
    assert(list.take(0) =~= seq![]);
    assert(out@ =~= header@ + cues_text(cues@, list.take(0), point));
    while i < order.len()
        invariant
            i <= order@.len(),
            cues_wf(cues@),
            list == order@.map_values(|k: usize| k as int),
            forall|k: int| 0 <= k < order@.len() ==> (#[trigger] order@[k]) < cues@.len(),
            out@ == header@ + cues_text(cues@, list.take(i as int), point),
        decreases order@.len() - i,
    {
        proof {
            assert(list.take(i + 1).drop_last() =~= list.take(i as int));
            assert(list.take(i + 1).last() == order@[i as int]);
        }
        push_cue(&mut out, i as u128 + 1, &cues[order[i]], point);
        i = i + 1;
        assert(out@ =~= header@ + cues_text(cues@, list.take(i as int), point));
    }
    assert(list.take(i as int) =~= list);
    out
}

/// Cues as SubRip: numbered from one, in the order of time.
pub fn to_srt(cues: &Vec<CaptionCue>) -> (r: String)
    requires
        cues_wf(cues@),
    ensures
        r@ == srt_text(cues@),
{
    proof {
        reveal_strlit("");
        assert(""@ =~= seq![]);
    }
    write_cues(cues, ',', "")
}

/// Cues as WebVTT: as SubRip, with a header and a decimal point.
pub fn to_vtt(cues: &Vec<CaptionCue>) -> (r: String)
    requires
        cues_wf(cues@),
    ensures
        r@ == vtt_text(cues@),
{
    write_cues(cues, '.', "WEBVTT\n\n")
}

// ---------------------------------------------------------------------------
// Timestamps
// ---------------------------------------------------------------------------

/// The fields of a clock as seconds: each a number from zero up, and each worth sixty of
/// the next.
pub open spec fn seconds_of(parts: Seq<Seq<char>>) -> Option<int>
    decreases parts.len(),
{
    if parts.len() == 0 {
        Some(0)
    } else {
        match (seconds_of(parts.drop_last()), parse_i64(trim(parts.last()))) {
            (Some(before), Some(value)) => if value >= 0 && before * 60 + value <= i64::MAX {
                Some(before * 60 + value)
            } else {
                None
            },
            _ => None,
        }
    }
}

/// Where the fraction starts: at the first point or comma, or past the end.
pub open spec fn point_at(s: Seq<char>) -> int {
    if find(s, '.') <= find(s, ',') {
        find(s, '.')
    } else {
        find(s, ',')
    }
}

/// `[HH:]MM:SS[.,]fff`, exactly, with any number of fraction digits; nothing where the instant
/// cannot be stored.
pub open spec fn stamp_value(text: Seq<char>) -> Option<Time> {
    let s = trim(text);
    let at = point_at(s);
    let fraction = if at < s.len() {
        s.skip(at + 1)
    } else {
        seq![]
    };
    let parts = split(s.take(at), ':');
    if parts.len() < 2 || parts.len() > 3 || !all_digits(fraction) {
        None
    } else {
        match seconds_of(parts) {
            None => None,
            Some(seconds) => {
                let scale = pow10(fraction.len()) as int;
                let total = seconds * scale + digits_value(fraction);
                if Rat::fits(total, scale) {
                    Some(Time { secs: Rat::of(total, scale) })
                } else {
                    None
                }
            },
        }
    }
}

fn seconds_in(parts: &Vec<Vec<char>>) -> (r: Option<i64>)
    ensures
        (match r {
            Some(n) => seconds_of(texts(parts@)) == Some(n as int),
            None => seconds_of(texts(parts@)) is None,
        }),
        r is Some ==> r->0 >= 0,
{
    let ghost all = texts(parts@);
    let mut total: i64 = 0;
    let mut i: usize = 0;
    assert(all.take(0) =~= seq![]);
    while i < parts.len()
        invariant
            i <= parts@.len(),
            all == texts(parts@),
            total >= 0,
            seconds_of(all.take(i as int)) == Some(total as int),
        decreases parts@.len() - i,
    {
        proof {
            assert(all.take(i + 1).drop_last() =~= all.take(i as int));
            assert(all.take(i + 1).last() == parts@[i as int]@);
        }
        let value: i64 = match parse_number(&trimmed(&parts[i])) {
            Some(value) => value,
            None => {
                proof {
                    lemma_seconds_fail(all, i + 1);
                }
                return None;
            },
        };
        if value < 0 || (total as i128) * 60 + (value as i128) > i64::MAX as i128 {
            proof {
                lemma_seconds_fail(all, i + 1);
            }
            return None;
        }
        total = ((total as i128) * 60 + (value as i128)) as i64;
        i = i + 1;
    }
    assert(all.take(i as int) =~= all);
    Some(total)
}

proof fn lemma_seconds_fail(parts: Seq<Seq<char>>, n: int)
    requires
        0 <= n <= parts.len(),
        seconds_of(parts.take(n)) is None,
    ensures
        seconds_of(parts) is None,
    decreases parts.len(),
{
    if n == parts.len() {
        assert(parts.take(n) =~= parts);
    } else {
        assert(parts.drop_last().take(n) =~= parts.take(n));
        lemma_seconds_fail(parts.drop_last(), n);
    }
}

/// What `k` times a number is more than a whole one has no more to be divided by than the number
/// has.
proof fn lemma_part_fits(n: int, d: int, m: int, e: int, k: int, whole: int)
    requires
        d > 0,
        0 <= m < e,
        (k * n - whole * d) * e == m * d,
        Rat::fits(n, d),
    ensures
        Rat::fits(m, e),
{
    Rat::lemma_of(n, d);
    let r = Rat::of(n, d);
    let p = r.num as int;
    let q = r.den as int;
    let t = k * p - whole * q;
    let u = k * n - whole * d;
    assert(t * d == q * u) by (nonlinear_arith)
        requires
            p * d == n * q,
            t == k * p - whole * q,
            u == k * n - whole * d,
    ;
    assert((t * e) * d == (m * q) * d) by (nonlinear_arith)
        requires
            t * d == q * u,
            u * e == m * d,
    ;
    assert(t * e == m * q) by (nonlinear_arith)
        requires
            (t * e) * d == (m * q) * d,
            d > 0,
    ;
    assert(0 <= t < q) by (nonlinear_arith)
        requires
            t * e == m * q,
            0 <= m < e,
            q > 0,
    ;
    lemma_small_fits(t, q);
    lemma_same_fraction(t, q, m, e);
}

/// The digit before some others, and what they are as a fraction.
proof fn lemma_digit_before(fraction: Seq<char>, at: int)
    requires
        all_digits(fraction),
        0 <= at < fraction.len(),
    ensures
        ({
            let d = digit_value(fraction[at]);
            let rest = digits_value(fraction.skip(at + 1));
            let scale = pow10(fraction.skip(at + 1).len()) as int;
            &&& 0 <= d <= 9
            &&& 0 <= rest < scale
            &&& pow10(fraction.skip(at).len()) == 10 * scale
            &&& digits_value(fraction.skip(at)) == d * scale + rest
            &&& all_digits(fraction.skip(at + 1))
        }),
{
    let first = seq![fraction[at]];
    let rest = fraction.skip(at + 1);
    assert(is_digit(fraction[at]));
    assert forall|i: int| 0 <= i < rest.len() implies is_digit(#[trigger] rest[i]) by {
        assert(rest[i] == fraction[at + 1 + i]);
    }
    assert(fraction.skip(at) =~= first + rest);
    lemma_joined(first, rest);
    lemma_digits_bound(rest);
    reveal_with_fuel(digits_value, 2);
    assert(digits_value(first) == digit_value(fraction[at]));
}

/// Digits more at the front leave no less to be divided by.
proof fn lemma_longer_fits(fraction: Seq<char>, at: int)
    requires
        all_digits(fraction),
        0 <= at <= fraction.len(),
        Rat::fits(digits_value(fraction) as int, pow10(fraction.len()) as int),
    ensures
        Rat::fits(digits_value(fraction.skip(at)) as int, pow10(fraction.skip(at).len()) as int),
    decreases at,
{
    if at == 0 {
        assert(fraction.skip(0) =~= fraction);
    } else {
        lemma_longer_fits(fraction, at - 1);
        lemma_digit_before(fraction, at - 1);
        let d = digit_value(fraction[at - 1]);
        let more = digits_value(fraction.skip(at - 1)) as int;
        let rest = digits_value(fraction.skip(at)) as int;
        let scale = pow10(fraction.skip(at).len()) as int;
        assert((10 * more - d * (10 * scale)) * scale == rest * (10 * scale)) by (nonlinear_arith)
            requires
                more == d * scale + rest,
        ;
        lemma_part_fits(more, 10 * scale, rest, scale, 10, d);
    }
}

/// Digits behind a point as a number, where it can be stored.
fn fraction_value(fraction: &Vec<char>) -> (r: Option<Rat>)
    requires
        all_digits(fraction@),
    ensures
        r == (if Rat::fits(digits_value(fraction@) as int, pow10(fraction@.len()) as int) {
            Some(Rat::of(digits_value(fraction@) as int, pow10(fraction@.len()) as int))
        } else {
            None::<Rat>
        }),
        r is Some ==> r->0.wf(),
{
    let n: usize = fraction.len();
    proof {
        assert(fraction@.skip(n as int) =~= seq![]);
        lemma_small_fits(0, 1);
    }
    let mut r: Rat = match Rat::try_of(0, 1) {
        Some(zero) => zero,
        None => {
            return None;
        },
    };
    let mut i: usize = n;
    while i > 0
        invariant
            i <= n,
            n == fraction@.len(),
            all_digits(fraction@),
            r.wf(),
            Rat::fits(
                digits_value(fraction@.skip(i as int)) as int,
                pow10(fraction@.skip(i as int).len()) as int,
            ),
            r == Rat::of(
                digits_value(fraction@.skip(i as int)) as int,
                pow10(fraction@.skip(i as int).len()) as int,
            ),
        decreases i,
    {
        let ghost rest = digits_value(fraction@.skip(i as int)) as int;
        let ghost scale = pow10(fraction@.skip(i as int).len()) as int;
        let ghost more = digits_value(fraction@.skip(i - 1)) as int;
        let d: i128 = (fraction[i - 1] as u32) as i128 - 48;
        proof {
            lemma_digit_before(fraction@, i - 1);
            assert(is_digit(fraction@[i - 1]));
            Rat::lemma_of(rest, scale);
            assert((d * r.den + r.num) * (10 * scale) == more * (10 * r.den)) by (nonlinear_arith)
                requires
                    r.num * scale == rest * r.den,
                    more == d * scale + rest,
            ;
            assert(0 <= d * r.den <= 9 * 0x7fff_ffff_ffff_ffff) by (nonlinear_arith)
                requires
                    0 <= d <= 9,
                    0 < r.den <= 0x7fff_ffff_ffff_ffff,
            ;
            lemma_same_fraction(d * r.den + r.num, 10 * r.den, more, 10 * scale);
        }
        match Rat::try_of(d * (r.den as i128) + (r.num as i128), 10 * (r.den as i128)) {
            Some(found) => {
                r = found;
            },
            None => {
                proof {
                    if Rat::fits(digits_value(fraction@) as int, pow10(fraction@.len()) as int) {
                        lemma_longer_fits(fraction@, i - 1);
                    }
                }
                return None;
            },
        }
        i = i - 1;
    }
    assert(fraction@.skip(0) =~= fraction@);
    Some(r)
}

/// `[HH:]MM:SS[.,]fff`, with any number of fraction digits. Exact: `01:00:00.001` is
/// `3600001/1000`.
pub fn parse_stamp(text: &str) -> (r: Option<Time>)
    ensures
        r == stamp_value(text@),
        r is Some ==> r->0.wf(),
{
    let chars = trimmed(&chars_of(text));
    let n: usize = chars.len();
    assert(chars@.skip(0) =~= chars@);
    let dot: usize = find_from(&chars, 0, '.');
    let comma: usize = find_from(&chars, 0, ',');
    let at: usize = if dot <= comma {
        dot
    } else {
        comma
    };
    let whole = slice_of(&chars, 0, at);
    assert(whole@ =~= chars@.take(at as int));
    let fraction: Vec<char> = if at < n {
        slice_of(&chars, at + 1, n)
    } else {
        Vec::new()
    };
    let ghost want = if at < n {
        chars@.skip(at + 1)
    } else {
        seq![]
    };
    assert(fraction@ =~= want);
    let parts = split_chars(&whole, ':');
    assert(texts(parts@) =~= split(whole@, ':'));
    let width: usize = fraction.len();
    assert(fraction@.subrange(0, width as int) =~= fraction@);
    if parts.len() < 2 || parts.len() > 3 || !only_digits(&fraction, 0, width) {
        return None;
    }
    let seconds: i64 = match seconds_in(&parts) {
        Some(seconds) => seconds,
        None => {
            return None;
        },
    };
    let ghost scale = pow10(fraction@.len()) as int;
    let ghost value = digits_value(fraction@) as int;
    let ghost total = seconds * scale + value;
    proof {
        lemma_pow10_bound(fraction@.len(), 0);
        lemma_digits_bound(fraction@);
    }
    let part: Rat = match fraction_value(&fraction) {
        Some(part) => part,
        None => {
            proof {
                if Rat::fits(total, scale) {
                    assert((1 * total - seconds * scale) * scale == value * scale);
                    lemma_part_fits(total, scale, value, scale, 1, seconds as int);
                }
            }
            return None;
        },
    };
    proof {
        Rat::lemma_of(value, scale);
        lemma_wide(seconds as int, part.den as int);
        assert((seconds * part.den + part.num) * scale == total * part.den) by (nonlinear_arith)
            requires
                part.num * scale == value * part.den,
                total == seconds * scale + value,
        ;
        lemma_same_fraction(seconds * part.den + part.num, part.den as int, total, scale);
    }
    let secs: i128 = (seconds as i128) * (part.den as i128) + (part.num as i128);
    match Rat::try_of(secs, part.den as i128) {
        Some(secs) => Some(Time { secs }),
        None => None,
    }
}

// ---------------------------------------------------------------------------
// Reading
// ---------------------------------------------------------------------------

/// Whether a line is a cue's timing line: nothing else holds the arrow.
pub open spec fn timing_line(line: Seq<char>) -> bool {
    occurs(line, "-->"@)
}

/// Where `needle` first stands.
pub open spec fn first_place(s: Seq<char>, needle: Seq<char>) -> int {
    choose|at: int| first_at(s, needle, at)
}

/// Where the arrow stands.
pub open spec fn arrow_at(line: Seq<char>) -> int {
    first_place(line, "-->"@)
}

/// The text before the arrow.
pub open spec fn before_arrow(line: Seq<char>) -> Seq<char> {
    line.take(arrow_at(line))
}

/// The first word behind the arrow: cue settings may follow it.
pub open spec fn behind_arrow(line: Seq<char>) -> Seq<char> {
    let found = words(line.skip(arrow_at(line) + 3));
    if found.len() > 0 {
        found[0]
    } else {
        seq![]
    }
}

pub open spec fn unreadable(
    format: Seq<char>,
    number: int,
    field: Seq<char>,
    text: Seq<char>,
) -> ErrorView {
    ErrorView::Op(
        format + " line "@ + dec(number as nat) + ": cannot read "@ + field + " timestamp '"@ + text
            + "'"@,
    )
}

/// The span that a timing line states.
pub open spec fn timing_of(line: Seq<char>, format: Seq<char>, number: int) -> Result<
    Span,
    ErrorView,
> {
    match stamp_value(before_arrow(line)) {
        None => Err(unreadable(format, number, "start"@, trim(before_arrow(line)))),
        Some(start) => match stamp_value(behind_arrow(line)) {
            None => Err(unreadable(format, number, "end"@, behind_arrow(line))),
            Some(end) => Ok(Span { start, end }),
        },
    }
}

/// A cue as it is read: it has no identity yet.
pub struct CueView {
    pub span: Span,
    pub text: Seq<char>,
}

/// Whether a line is a bare number with a timing line right behind it: the index of the
/// next cue, even where no blank line stands before it.
pub open spec fn index_line(lines: Seq<Seq<char>>, at: int) -> bool {
    let line = trim(lines[at]);
    line.len() > 0 && all_digits(line) && at + 1 < lines.len() && timing_line(lines[at + 1])
}

pub open spec fn ends_body(lines: Seq<Seq<char>>, at: int) -> bool {
    trim(lines[at]).len() == 0 || timing_line(lines[at]) || index_line(lines, at)
}

/// Where the text of a cue ends that starts at `from`.
pub open spec fn body_end(lines: Seq<Seq<char>>, from: int) -> int
    decreases lines.len() - from,
{
    if from >= lines.len() || ends_body(lines, from) {
        from
    } else {
        body_end(lines, from + 1)
    }
}

/// Where a metadata block ends that holds the line `from`: at the next blank line.
pub open spec fn block_end(lines: Seq<Seq<char>>, from: int) -> int
    decreases lines.len() - from,
{
    if from >= lines.len() || trim(lines[from]).len() == 0 {
        from
    } else {
        block_end(lines, from + 1)
    }
}

/// Whether a line begins a metadata block.
pub open spec fn block_line(line: Seq<char>) -> bool {
    let found = words(line);
    found.len() > 0 && (found[0] == "WEBVTT"@ || found[0] == "NOTE"@ || found[0] == "STYLE"@
        || found[0] == "REGION"@)
}

/// Lines without the white space at their ends, as one text.
pub open spec fn body_of(lines: Seq<Seq<char>>) -> Seq<char> {
    join(lines.map_values(|line: Seq<char>| trim_end(line)), "\n"@)
}

pub proof fn lemma_ends(lines: Seq<Seq<char>>, from: int)
    ensures
        body_end(lines, from) >= from,
        block_end(lines, from) >= from,
        from <= lines.len() ==> body_end(lines, from) <= lines.len(),
        from <= lines.len() ==> block_end(lines, from) <= lines.len(),
    decreases lines.len() - from,
{
    if from < lines.len() {
        lemma_ends(lines, from + 1);
    }
}

/// A cue in front of what follows it.
pub open spec fn with_cue(cue: CueView, rest: Result<Seq<CueView>, ErrorView>) -> Result<
    Seq<CueView>,
    ErrorView,
> {
    match rest {
        Ok(cues) => Ok(seq![cue] + cues),
        Err(error) => Err(error),
    }
}

/// The cues from a line on, in the order in which they stand.
pub open spec fn cues_from(lines: Seq<Seq<char>>, at: int, format: Seq<char>) -> Result<
    Seq<CueView>,
    ErrorView,
>
    decreases lines.len() - at,
{
    if at >= lines.len() {
        Ok(seq![])
    } else {
        let line = trim(lines[at]);
        if line.len() == 0 {
            cues_from(lines, at + 1, format)
        } else if timing_line(line) {
            match timing_of(line, format, at + 1) {
                Err(error) => Err(error),
                Ok(span) => {
                    proof {
                        lemma_ends(lines, at + 1);
                    }
                    let stop = body_end(lines, at + 1);
                    with_cue(
                        CueView { span, text: body_of(lines.subrange(at + 1, stop)) },
                        cues_from(lines, stop, format),
                    )
                },
            }
        } else if block_line(line) {
            proof {
                lemma_ends(lines, at + 1);
            }
            cues_from(lines, block_end(lines, at + 1), format)
        } else {
            cues_from(lines, at + 1, format)
        }
    }
}

/// Text without the byte order mark in front of it.
pub open spec fn without_mark(s: Seq<char>) -> Seq<char> {
    if s.len() > 0 && s[0] == '\u{feff}' {
        s.skip(1)
    } else {
        s
    }
}

/// The cues at some positions.
pub open spec fn cues_at(cues: Seq<CueView>, order: Seq<int>) -> Seq<CueView> {
    order.map_values(|k: int| cues[k])
}

pub open spec fn cue_spans(cues: Seq<CueView>) -> Seq<Span> {
    cues.map_values(|c: CueView| c.span)
}

/// What a caption file says: its cues in the order of time.
pub open spec fn captions_in(text: Seq<char>, format: Seq<char>) -> Result<Seq<CueView>, ErrorView> {
    match cues_from(lines(without_mark(text)), 0, format) {
        Err(error) => Err(error),
        Ok(cues) => Ok(cues_at(cues, span_order(cue_spans(cues)))),
    }
}

/// Whether cues have no identity and no style of their own: they are given one where they go.
pub open spec fn are_bare(cues: Seq<CaptionCue>) -> bool {
    forall|i: int|
        0 <= i < cues.len() ==> (#[trigger] cues[i]).id@.len() == 0 && cues[i].style is None
}

/// The cue without its identity.
pub open spec fn cue_view(cue: CaptionCue) -> CueView {
    CueView { span: cue.span, text: cue.text@ }
}

pub open spec fn cue_views(cues: Seq<CaptionCue>) -> Seq<CueView> {
    cues.map_values(|c: CaptionCue| cue_view(c))
}

fn is_timing(line: &Vec<char>) -> (r: bool)
    ensures
        r == timing_line(line@),
{
    find_text(line, "-->").is_some()
}

fn is_index_before_timing(lines: &Vec<Vec<char>>, at: usize) -> (r: bool)
    requires
        at < lines@.len(),
    ensures
        r == index_line(texts(lines@), at as int),
{
    let total: usize = lines.len();
    let line = trimmed(&lines[at]);
    let n: usize = line.len();
    assert(line@.subrange(0, n as int) =~= line@);
    assert(texts(lines@)[at as int] == lines@[at as int]@);
    if n == 0 || !only_digits(&line, 0, n) || at + 1 >= total {
        return false;
    }
    assert(texts(lines@)[at + 1] == lines@[at + 1]@);
    is_timing(&lines[at + 1])
}

fn unreadable_error(format: &str, number: u128, field: &str, text: &str) -> (r: Error)
    ensures
        r@ == unreadable(format@, number as int, field@, text@),
{
    let mut detail = format.to_owned();
    detail.append(" line ");
    detail.append(decimal(number).as_str());
    detail.append(": cannot read ");
    detail.append(field);
    detail.append(" timestamp '");
    detail.append(text);
    detail.append("'");
    Error::Op(detail)
}

/// Splits a timing line into its two instants.
fn parse_timing(line: &Vec<char>, format: &str, number: u128) -> (r: Result<Span, Error>)
    requires
        timing_line(line@),
    ensures
        (match r {
            Ok(span) => timing_of(line@, format@, number as int) == Ok::<Span, ErrorView>(span)
                && span.start.wf() && span.end.wf(),
            Err(error) => timing_of(line@, format@, number as int) == Err::<Span, ErrorView>(
                error@,
            ),
        }),
{
    let n: usize = line.len();
    let at: usize = match find_text(line, "-->") {
        Some(at) => at,
        None => 0,
    };
    proof {
        reveal_strlit("-->");
        lemma_first_place(line@, "-->"@, at as int);
    }
    let left = slice_of(line, 0, at);
    let rest = slice_of(line, at + 3, n);
    assert(left@ =~= before_arrow(line@));
    assert(rest@ =~= line@.skip(arrow_at(line@) + 3));
    let found = words_of(&rest);
    let right: Vec<char> = if found.len() > 0 {
        assert(texts(found@)[0] == found@[0]@);
        slice_of(&found[0], 0, found[0].len())
    } else {
        Vec::new()
    };
    assert(right@ =~= behind_arrow(line@));
    let start_text = string_of(&left);
    let end_text = string_of(&right);
    match parse_stamp(start_text.as_str()) {
        None => {
            let shown = string_of(&trimmed(&left));
            Err(unreadable_error(format, number, "start", shown.as_str()))
        },
        Some(start) => match parse_stamp(end_text.as_str()) {
            None => Err(unreadable_error(format, number, "end", end_text.as_str())),
            Some(end) => Ok(Span { start, end }),
        },
    }
}

pub proof fn lemma_first_place(s: Seq<char>, needle: Seq<char>, at: int)
    requires
        first_at(s, needle, at),
    ensures
        first_place(s, needle) == at,
{
    let c = first_place(s, needle);
    assert(first_at(s, needle, c));
    if c < at {
        assert(!stands_at(s, needle, c));
    } else if at < c {
        assert(!stands_at(s, needle, at));
    }
}

/// Where the text of a cue ends.
fn find_body_end(lines: &Vec<Vec<char>>, from: usize) -> (r: usize)
    requires
        from <= lines@.len(),
    ensures
        r == body_end(texts(lines@), from as int),
        from <= r <= lines@.len(),
{
    let ghost all = texts(lines@);
    let mut i: usize = from;
    while i < lines.len()
        invariant
            from <= i <= lines@.len(),
            all == texts(lines@),
            body_end(all, i as int) == body_end(all, from as int),
        decreases lines@.len() - i,
    {
        assert(all[i as int] == lines@[i as int]@);
        if trimmed(&lines[i]).len() == 0 || is_timing(&lines[i]) || is_index_before_timing(lines, i) {
            return i;
        }
        i = i + 1;
    }
    i
}

/// Where a metadata block ends.
fn find_block_end(lines: &Vec<Vec<char>>, from: usize) -> (r: usize)
    requires
        from <= lines@.len(),
    ensures
        r == block_end(texts(lines@), from as int),
        from <= r <= lines@.len(),
{
    let ghost all = texts(lines@);
    let mut i: usize = from;
    while i < lines.len()
        invariant
            from <= i <= lines@.len(),
            all == texts(lines@),
            block_end(all, i as int) == block_end(all, from as int),
        decreases lines@.len() - i,
    {
        assert(all[i as int] == lines@[i as int]@);
        if trimmed(&lines[i]).len() == 0 {
            return i;
        }
        i = i + 1;
    }
    i
}

fn join_body(lines: &Vec<Vec<char>>, from: usize, to: usize) -> (r: String)
    requires
        from <= to <= lines@.len(),
    ensures
        r@ == body_of(texts(lines@).subrange(from as int, to as int)),
{
    let ghost all = texts(lines@).subrange(from as int, to as int);
    let ghost cut = all.map_values(|line: Seq<char>| trim_end(line));
    let mut parts: Vec<String> = Vec::new();
    let mut i: usize = from;
    while i < to
        invariant
            from <= i <= to <= lines@.len(),
            all == texts(lines@).subrange(from as int, to as int),
            cut == all.map_values(|line: Seq<char>| trim_end(line)),
            strings(parts@) =~= cut.take(i - from),
        decreases to - i,
    {
        assert(all[i - from] == lines@[i as int]@);
        let line = string_of(&trimmed_end(&lines[i]));
        proof {
            crate::text::lemma_strings_push(parts@, line);
        }
        parts.push(line);
        i = i + 1;
    }
    assert(cut.take(i - from) =~= cut);
    joined(&parts, "\n")
}

fn starts_block(line: &Vec<char>) -> (r: bool)
    ensures
        r == block_line(line@),
{
    let found = words_of(line);
    if found.len() == 0 {
        return false;
    }
    assert(texts(found@)[0] == found@[0]@);
    let word = string_of(&found[0]);
    same(word.as_str(), "WEBVTT") || same(word.as_str(), "NOTE") || same(word.as_str(), "STYLE")
        || same(word.as_str(), "REGION")
}

/// Cues already read, in front of what follows them.
pub open spec fn with_cues(before: Seq<CueView>, rest: Result<Seq<CueView>, ErrorView>) -> Result<
    Seq<CueView>,
    ErrorView,
> {
    match rest {
        Ok(cues) => Ok(before + cues),
        Err(error) => Err(error),
    }
}

proof fn lemma_cue_views_push(cues: Seq<CaptionCue>, cue: CaptionCue)
    ensures
        cue_views(cues.push(cue)) == cue_views(cues).push(cue_view(cue)),
{
    assert(cue_views(cues.push(cue)) =~= cue_views(cues).push(cue_view(cue)));
}

fn collect_cues(lines: &Vec<Vec<char>>, format: &str) -> (r: Result<Vec<CaptionCue>, Error>)
    ensures
        (match r {
            Ok(cues) => cues_from(texts(lines@), 0, format@) == Ok::<Seq<CueView>, ErrorView>(
                cue_views(cues@),
            ) && cues_wf(cues@),
            Err(error) => cues_from(texts(lines@), 0, format@) == Err::<Seq<CueView>, ErrorView>(
                error@,
            ),
        }),
{
    let ghost all = texts(lines@);
    let ghost whole = cues_from(all, 0, format@);
    let mut cues: Vec<CaptionCue> = Vec::new();
    let mut i: usize = 0;
    proof {
        assert(cue_views(cues@) =~= seq![]);
        assert(with_cues(cue_views(cues@), whole) == whole) by {
            if whole is Ok {
                assert(cue_views(cues@) + whole->Ok_0 =~= whole->Ok_0);
            }
        }
    }
    while i < lines.len()
        invariant
            i <= lines@.len(),
            all == texts(lines@),
            whole == cues_from(all, 0, format@),
            cues_wf(cues@),
            with_cues(cue_views(cues@), cues_from(all, i as int, format@)) == whole,
        decreases lines@.len() - i,
    {
        proof {
            assert(all[i as int] == lines@[i as int]@);
            lemma_ends(all, i + 1);
        }
        let line = trimmed(&lines[i]);
        if line.len() == 0 {
            i = i + 1;
        } else if is_timing(&line) {
            let span = match parse_timing(&line, format, i as u128 + 1) {
                Ok(span) => span,
                Err(error) => {
                    return Err(error);
                },
            };
            let stop: usize = find_body_end(lines, i + 1);
            let text = join_body(lines, i + 1, stop);
            let cue = CaptionCue { id: String::new(), span, text, style: None };
            proof {
                let rest = cues_from(all, stop as int, format@);
                let view = cue_view(cue);
                lemma_cue_views_push(cues@, cue);
                if rest is Ok {
                    assert(cue_views(cues@) + (seq![view] + rest->Ok_0) =~= cue_views(cues@).push(
                        view,
                    ) + rest->Ok_0);
                }
                assert(with_cues(cue_views(cues@), with_cue(view, rest)) == with_cues(
                    cue_views(cues@).push(view),
                    rest,
                ));
            }
            cues.push(cue);
            i = stop;
        } else if starts_block(&line) {
            i = find_block_end(lines, i + 1);
        } else {
            i = i + 1;
        }
    }
    assert(cue_views(cues@) + Seq::<CueView>::empty() =~= cue_views(cues@));
    Ok(cues)
}

fn parse_cues(text: &str, format: &str) -> (r: Result<Vec<CaptionCue>, Error>)
    ensures
        (match r {
            Ok(cues) => captions_in(text@, format@) == Ok::<Seq<CueView>, ErrorView>(
                cue_views(cues@),
            ) && cues_wf(cues@) && are_bare(cues@),
            Err(error) => captions_in(text@, format@) == Err::<Seq<CueView>, ErrorView>(error@),
        }),
{
    let chars = chars_of(text);
    let n: usize = chars.len();
    let from: usize = if n > 0 && chars[0] == '\u{feff}' {
        1
    } else {
        0
    };
    let body = slice_of(&chars, from, n);
    assert(body@ =~= without_mark(text@));
    let lines = lines_of(&body);
    let cues = match collect_cues(&lines, format) {
        Ok(cues) => cues,
        Err(error) => {
            return Err(error);
        },
    };
    let ghost found = cue_views(cues@);
    let spans = collect_spans(&cues);
    assert(spans@ =~= cue_spans(found));
    let order = order_spans(&spans);
    let ghost list = order@.map_values(|k: usize| k as int);
    let mut out: Vec<CaptionCue> = Vec::new();
    let mut i: usize = 0;
    assert(cue_views(out@) =~= cues_at(found, list).take(0));
    while i < order.len()
        invariant
            i <= order@.len(),
            list == order@.map_values(|k: usize| k as int),
            found == cue_views(cues@),
            cues_wf(cues@),
            cues_wf(out@),
            are_bare(out@),
            forall|k: int| 0 <= k < order@.len() ==> (#[trigger] order@[k]) < cues@.len(),
            cue_views(out@) == cues_at(found, list).take(i as int),
        decreases order@.len() - i,
    {
        let k: usize = order[i];
        let cue = CaptionCue {
            id: String::new(),
            span: cues[k].span,
            text: cues[k].text.clone(),
            style: None,
        };
        proof {
            lemma_cue_views_push(out@, cue);
            assert(cue_view(cue) == found[k as int]);
        }
        out.push(cue);
        i = i + 1;
        assert(cue_views(out@) =~= cues_at(found, list).take(i as int));
    }
    assert(cue_views(out@) =~= cues_at(found, list));
    Ok(out)
}

/// Reads SubRip. The cues come back in the order of time, without identities and styles.
pub fn from_srt(text: &str) -> (r: Result<Vec<CaptionCue>, Error>)
    ensures
        (match r {
            Ok(cues) => captions_in(text@, "SRT"@) == Ok::<Seq<CueView>, ErrorView>(
                cue_views(cues@),
            ) && cues_wf(cues@) && are_bare(cues@),
            Err(error) => captions_in(text@, "SRT"@) == Err::<Seq<CueView>, ErrorView>(error@),
        }),
{
    parse_cues(text, "SRT")
}

/// Reads WebVTT. As SubRip, with headers, notes, identifiers and cue settings passed over.
pub fn from_vtt(text: &str) -> (r: Result<Vec<CaptionCue>, Error>)
    ensures
        (match r {
            Ok(cues) => captions_in(text@, "VTT"@) == Ok::<Seq<CueView>, ErrorView>(
                cue_views(cues@),
            ) && cues_wf(cues@) && are_bare(cues@),
            Err(error) => captions_in(text@, "VTT"@) == Err::<Seq<CueView>, ErrorView>(error@),
        }),
{
    parse_cues(text, "VTT")
}

} // verus!
