//! What a caption file gives back of what was written to it.

use crate::error::ErrorView;
use crate::order::{law_span_order, not_after, order_of, span_order, span_slot};
use crate::number::pow10;
use crate::project::CaptionCue;
use crate::rational::{round_half_away, Rat};
use crate::subtitle::{
    arrow_at, before_arrow, behind_arrow, block_end, block_line, body_end, body_of, body_text,
    captions_in, cue_spans, cue_text, cue_view, cue_views, cues_at, cues_from, cues_text, ends_body,
    point_at, seconds_of, spans_of, srt_text, stamp_text, stamp_value, timing_line, timing_of,
    vtt_text, with_cue, with_point, without_mark, CueView,
};
use crate::text::{
    all_digits, dec, dec_wide, digit_value, digits_value, find, first_at, has_char, is_digit,
    is_white, join, lemma_dec, lemma_find_is, lemma_trim_start, lines, parse_i64, repeat, split,
    stands_at, strip_return, trim, trim_end, trim_start, word_len, words,
};
use crate::time::{clock_text, Span, Time};
use vstd::prelude::*;

verus! {

// ---------------------------------------------------------------------------
// Instants
// ---------------------------------------------------------------------------

/// An instant at a whole number of milliseconds.
pub open spec fn at_millis(m: int) -> Time {
    Time { secs: Rat::of(m, 1000) }
}

/// The milliseconds that an instant is written as: nothing is before zero.
pub open spec fn written_millis(at: Time) -> int {
    at.spec_max(Time::zero_spec()).millis()
}

/// What is left of an instant once it is written: its nearest millisecond from zero on.
pub open spec fn written_time(at: Time) -> Time {
    at_millis(written_millis(at))
}

proof fn lemma_written_millis(at: Time)
    requires
        at.wf(),
    ensures
        written_millis(at) >= 0,
{
    let t = at.spec_max(Time::zero_spec());
    assert(t.secs.num * 1000 >= 0);
    let n = t.secs.num * 1000;
    let d = t.secs.den as int;
    assert((2 * n + d) / (2 * d) >= 0) by {
        vstd::arithmetic::div_mod::lemma_div_pos_is_pos(2 * n + d, 2 * d);
    }
}

proof fn lemma_at_millis(m: int)
    requires
        0 <= m <= i64::MAX,
    ensures
        at_millis(m).wf(),
        at_millis(m).millis() == m,
        written_millis(at_millis(m)) == m,
{
    crate::time::lemma_small_fits(m, 1000);
    Rat::lemma_of(m, 1000);
    let r = Rat::of(m, 1000);
    let n = r.num as int;
    let d = r.den as int;
    assert(n * 1000 == m * d);
    assert(round_half_away(m * d, d) == m) by {
        assert(m * d >= 0) by (nonlinear_arith)
            requires
                m >= 0,
                d > 0,
        ;
        assert(2 * (m * d) + d == (2 * d) * m + d) by (nonlinear_arith);
        vstd::arithmetic::div_mod::lemma_fundamental_div_mod_converse(
            2 * (m * d) + d,
            2 * d,
            m,
            d,
        );
    }
    assert(n >= 0) by (nonlinear_arith)
        requires
            n * 1000 == m * d,
            m >= 0,
            d > 0,
    ;
    // The larger of an instant that is not negative and zero is that instant, or zero itself.
    if n == 0 {
        assert(m == 0) by (nonlinear_arith)
            requires
                0 == m * d,
                d > 0,
        ;
        assert((2 * 0 + 1int) / (2 * 1int) == 0) by (nonlinear_arith);
        assert(round_half_away(0, 1) == 0);
    } else {
        assert(n * 1 > 0 * d);
    }
}

proof fn lemma_zeros(n: nat, s: Seq<char>)
    requires
        all_digits(s),
    ensures
        all_digits(repeat('0', n) + s),
        digits_value(repeat('0', n) + s) == digits_value(s),
    decreases s.len(),
{
    let t = repeat('0', n) + s;
    assert forall|i: int| 0 <= i < t.len() implies is_digit(#[trigger] t[i]) by {
        if i >= n {
            assert(t[i] == s[i - n]);
        }
    }
    if s.len() == 0 {
        lemma_only_zeros(n);
        assert(t =~= repeat('0', n));
    } else {
        assert forall|i: int| 0 <= i < s.drop_last().len() implies is_digit(
            #[trigger] s.drop_last()[i],
        ) by {
            assert(is_digit(s[i]));
        }
        lemma_zeros(n, s.drop_last());
        assert(t.drop_last() =~= repeat('0', n) + s.drop_last());
        assert(t.last() == s.last());
    }
}

proof fn lemma_only_zeros(n: nat)
    ensures
        digits_value(repeat('0', n)) == 0,
    decreases n,
{
    if n > 0 {
        lemma_only_zeros((n - 1) as nat);
        assert(repeat('0', n).drop_last() =~= repeat('0', (n - 1) as nat));
        assert(digit_value('0') == 0);
    }
}

pub proof fn lemma_dec_wide(n: nat, width: nat)
    ensures
        all_digits(dec_wide(n, width)),
        digits_value(dec_wide(n, width)) == n,
        dec_wide(n, width).len() > 0,
        dec_wide(n, width).len() >= width,
{
    lemma_dec(n);
    if dec(n).len() < width {
        lemma_zeros((width - dec(n).len()) as nat, dec(n));
    }
}

/// Three digits are what a number below a thousand takes.
proof fn lemma_three(n: nat)
    requires
        n < 1000,
    ensures
        dec_wide(n, 3).len() == 3,
{
    reveal_with_fuel(dec, 4);
}

proof fn lemma_no_white(s: Seq<char>)
    requires
        s.len() > 0,
        !is_white(s[0]),
        !is_white(s.last()),
    ensures
        trim(s) == s,
        trim_start(s) == s,
        trim_end(s) == s,
{
}

proof fn lemma_field(s: Seq<char>, n: nat)
    requires
        all_digits(s),
        s.len() > 0,
        digits_value(s) == n,
        n <= i64::MAX,
    ensures
        parse_i64(trim(s)) == Some(n as i64),
{
    assert(is_digit(s[0]));
    assert(is_digit(s[s.len() - 1]));
    lemma_no_white(s);
}

/// The text of an instant, in its four fields.
proof fn lemma_stamp_text(at: Time, m: int, point: char)
    requires
        written_millis(at) == m,
        m >= 0,
    ensures
        ({
            let h = dec_wide((m / 3_600_000) as nat, 2);
            let mm = dec_wide((m / 60_000 % 60) as nat, 2);
            let s = dec_wide((m / 1000 % 60) as nat, 2);
            let f = dec_wide((m % 1000) as nat, 3);
            stamp_text(at, point) == h + seq![':'] + mm + seq![':'] + s + seq![point] + f
        }),
{
    let h = dec_wide((m / 3_600_000) as nat, 2);
    let mm = dec_wide((m / 60_000 % 60) as nat, 2);
    let s = dec_wide((m / 1000 % 60) as nat, 2);
    let f = dec_wide((m % 1000) as nat, 3);
    lemma_dec_wide((m / 3_600_000) as nat, 2);
    lemma_dec_wide((m / 60_000 % 60) as nat, 2);
    lemma_dec_wide((m / 1000 % 60) as nat, 2);
    lemma_dec_wide((m % 1000) as nat, 3);
    let clock = clock_text(m);
    let plain = h + seq![':'] + mm + seq![':'] + s + seq!['.'] + f;
    assert(clock =~= plain);
    let made = h + seq![':'] + mm + seq![':'] + s + seq![point] + f;
    let a = h.len() as int;
    let b = a + 1 + mm.len();
    let c = b + 1 + s.len();
    assert forall|i: int| 0 <= i < plain.len() implies with_point(plain, point)[i] == made[i] by {
        if i < a {
            assert(plain[i] == h[i] && made[i] == h[i]);
            assert(is_digit(h[i]));
        } else if i == a {
        } else if i < b {
            assert(plain[i] == mm[i - a - 1] && made[i] == mm[i - a - 1]);
            assert(is_digit(mm[i - a - 1]));
        } else if i == b {
        } else if i < c {
            assert(plain[i] == s[i - b - 1] && made[i] == s[i - b - 1]);
            assert(is_digit(s[i - b - 1]));
        } else if i == c {
        } else {
            assert(plain[i] == f[i - c - 1] && made[i] == f[i - c - 1]);
            assert(is_digit(f[i - c - 1]));
        }
    }
    assert(with_point(plain, point) =~= made);
}

/// Whether a character is one that instants are written with.
pub open spec fn stamp_char(c: char) -> bool {
    is_digit(c) || c == ':' || c == '.' || c == ','
}

proof fn lemma_stamp_chars(at: Time, point: char)
    requires
        at.wf(),
        point == ',' || point == '.',
    ensures
        stamp_text(at, point).len() >= 1,
        forall|i: int|
            0 <= i < stamp_text(at, point).len() ==> stamp_char(#[trigger] stamp_text(at, point)[i]),
        is_digit(stamp_text(at, point)[0]),
        is_digit(stamp_text(at, point).last()),
{
    lemma_written_millis(at);
    let m = written_millis(at);
    let h = dec_wide((m / 3_600_000) as nat, 2);
    let mm = dec_wide((m / 60_000 % 60) as nat, 2);
    let s = dec_wide((m / 1000 % 60) as nat, 2);
    let f = dec_wide((m % 1000) as nat, 3);
    lemma_stamp_text(at, m, point);
    lemma_dec_wide((m / 3_600_000) as nat, 2);
    lemma_dec_wide((m / 60_000 % 60) as nat, 2);
    lemma_dec_wide((m / 1000 % 60) as nat, 2);
    lemma_dec_wide((m % 1000) as nat, 3);
    let made = h + seq![':'] + mm + seq![':'] + s + seq![point] + f;
    let a = h.len() as int;
    let b = a + 1 + mm.len();
    let c = b + 1 + s.len();
    assert forall|i: int| 0 <= i < made.len() implies stamp_char(#[trigger] made[i]) by {
        if i < a {
            assert(is_digit(h[i]));
        } else if i == a {
        } else if i < b {
            assert(is_digit(mm[i - a - 1]));
        } else if i == b {
        } else if i < c {
            assert(is_digit(s[i - b - 1]));
        } else if i == c {
        } else {
            assert(is_digit(f[i - c - 1]));
        }
    }
    assert(made[0] == h[0]);
    assert(is_digit(h[0]));
    assert(made.last() == f[f.len() - 1]);
    assert(is_digit(f[f.len() - 1]));
}

pub proof fn lemma_split_three(a: Seq<char>, b: Seq<char>, c: Seq<char>)
    requires
        all_digits(a),
        all_digits(b),
        all_digits(c),
    ensures
        split(a + seq![':'] + b + seq![':'] + c, ':') == seq![a, b, c],
{
    let s = a + seq![':'] + b + seq![':'] + c;
    let t = b + seq![':'] + c;
    assert forall|i: int| 0 <= i < a.len() implies s[i] != ':' by {
        assert(is_digit(a[i]));
    }
    lemma_find_is(s, ':', a.len() as int);
    assert(s.take(a.len() as int) =~= a);
    assert(s.skip(a.len() as int + 1) =~= t);
    assert forall|i: int| 0 <= i < b.len() implies t[i] != ':' by {
        assert(is_digit(b[i]));
    }
    lemma_find_is(t, ':', b.len() as int);
    assert(t.take(b.len() as int) =~= b);
    assert(t.skip(b.len() as int + 1) =~= c);
    assert forall|i: int| 0 <= i < c.len() implies c[i] != ':' by {
        assert(is_digit(c[i]));
    }
    lemma_find_is(c, ':', c.len() as int);
    assert(split(c, ':') =~= seq![c]);
    assert(split(t, ':') =~= seq![b, c]);
    assert(split(s, ':') =~= seq![a, b, c]);
}

/// Where the fraction of a written instant stands.
proof fn lemma_point(h: Seq<char>, mm: Seq<char>, s: Seq<char>, f: Seq<char>, point: char)
    requires
        all_digits(h),
        all_digits(mm),
        all_digits(s),
        all_digits(f),
        point == ',' || point == '.',
    ensures
        ({
            let whole = h + seq![':'] + mm + seq![':'] + s;
            let all = whole + seq![point] + f;
            &&& point_at(all) == whole.len()
            &&& all.take(whole.len() as int) == whole
            &&& all.skip(whole.len() as int + 1) == f
        }),
{
    let whole = h + seq![':'] + mm + seq![':'] + s;
    let all = whole + seq![point] + f;
    let at = whole.len() as int;
    let a = h.len() as int;
    let b = a + 1 + mm.len();
    assert forall|i: int| 0 <= i < all.len() implies (i == at || (all[i] != '.' && all[i] != ',')) by {
        if i < a {
            assert(all[i] == h[i]);
            assert(is_digit(h[i]));
        } else if i == a || i == b {
        } else if i < b {
            assert(all[i] == mm[i - a - 1]);
            assert(is_digit(mm[i - a - 1]));
        } else if i < at {
            assert(all[i] == s[i - b - 1]);
            assert(is_digit(s[i - b - 1]));
        } else if i > at {
            assert(all[i] == f[i - at - 1]);
            assert(is_digit(f[i - at - 1]));
        }
    }
    assert(all[at] == point);
    if point == '.' {
        lemma_find_is(all, '.', at);
        lemma_find_is(all, ',', all.len() as int);
    } else {
        lemma_find_is(all, ',', at);
        lemma_find_is(all, '.', all.len() as int);
    }
    assert(all.take(at) =~= whole);
    assert(all.skip(at + 1) =~= f);
}

proof fn lemma_seconds(m: int)
    requires
        0 <= m <= i64::MAX,
    ensures
        seconds_of(
            seq![
                dec_wide((m / 3_600_000) as nat, 2),
                dec_wide((m / 60_000 % 60) as nat, 2),
                dec_wide((m / 1000 % 60) as nat, 2),
            ],
        ) == Some(m / 1000),
{
    let h = dec_wide((m / 3_600_000) as nat, 2);
    let mm = dec_wide((m / 60_000 % 60) as nat, 2);
    let s = dec_wide((m / 1000 % 60) as nat, 2);
    lemma_dec_wide((m / 3_600_000) as nat, 2);
    lemma_dec_wide((m / 60_000 % 60) as nat, 2);
    lemma_dec_wide((m / 1000 % 60) as nat, 2);
    let parts = seq![h, mm, s];
    lemma_field(h, (m / 3_600_000) as nat);
    lemma_field(mm, (m / 60_000 % 60) as nat);
    lemma_field(s, (m / 1000 % 60) as nat);
    let hours = m / 3_600_000;
    let minutes = m / 60_000 % 60;
    let seconds = m / 1000 % 60;
    assert(parts.drop_last() =~= seq![h, mm]);
    assert(seq![h, mm].drop_last() =~= seq![h]);
    assert(seq![h].drop_last() =~= Seq::<Seq<char>>::empty());
    assert(seconds_of(Seq::<Seq<char>>::empty()) == Some(0int));
    assert(seconds_of(seq![h]) == Some(hours));
    assert(seconds_of(seq![h, mm]) == Some(hours * 60 + minutes));
    assert((hours * 60 + minutes) * 60 + seconds == m / 1000);
}

/// An instant is read back to the millisecond, whatever white space stands round it.
pub proof fn law_an_instant_is_read_back(at: Time, point: char, text: Seq<char>)
    requires
        at.wf(),
        written_millis(at) <= i64::MAX,
        point == ',' || point == '.',
        trim(text) == stamp_text(at, point),
    ensures
        stamp_value(text) == Some(written_time(at)),
{
    lemma_written_millis(at);
    let m = written_millis(at);
    let h = dec_wide((m / 3_600_000) as nat, 2);
    let mm = dec_wide((m / 60_000 % 60) as nat, 2);
    let s = dec_wide((m / 1000 % 60) as nat, 2);
    let f = dec_wide((m % 1000) as nat, 3);
    lemma_stamp_text(at, m, point);
    lemma_dec_wide((m / 3_600_000) as nat, 2);
    lemma_dec_wide((m / 60_000 % 60) as nat, 2);
    lemma_dec_wide((m / 1000 % 60) as nat, 2);
    lemma_dec_wide((m % 1000) as nat, 3);
    lemma_three((m % 1000) as nat);
    let whole = h + seq![':'] + mm + seq![':'] + s;
    assert(trim(text) == whole + seq![point] + f);
    lemma_point(h, mm, s, f, point);
    lemma_split_three(h, mm, s);
    lemma_seconds(m);
    assert(pow10(3) == 1000) by {
        reveal_with_fuel(pow10, 4);
    }
    crate::time::lemma_small_fits(m, 1000);
    assert((m / 1000) * 1000 + m % 1000 == m);
}

// ---------------------------------------------------------------------------
// Lines
// ---------------------------------------------------------------------------

/// Lines as one text, each with a line feed behind it.
pub open spec fn unlines(parts: Seq<Seq<char>>) -> Seq<char>
    decreases parts.len(),
{
    if parts.len() == 0 {
        seq![]
    } else {
        unlines(parts.drop_last()) + parts.last() + seq!['\n']
    }
}

/// Whether a line comes back from a text as it went in.
pub open spec fn plain_line(line: Seq<char>) -> bool {
    !line.contains('\n') && (line.len() > 0 ==> line.last() != '\r')
}

pub open spec fn all_plain(parts: Seq<Seq<char>>) -> bool {
    forall|i: int| 0 <= i < parts.len() ==> plain_line(#[trigger] parts[i])
}

proof fn lemma_unlines_join(a: Seq<Seq<char>>, b: Seq<Seq<char>>)
    ensures
        unlines(a + b) == unlines(a) + unlines(b),
    decreases b.len(),
{
    if b.len() == 0 {
        assert(a + b =~= a);
        assert(unlines(a) + unlines(b) =~= unlines(a));
    } else {
        lemma_unlines_join(a, b.drop_last());
        assert((a + b).drop_last() =~= a + b.drop_last());
        assert((a + b).last() == b.last());
        assert(unlines(a + b) =~= unlines(a) + unlines(b));
    }
}

/// Plain lines come back from the text that they make.
pub proof fn law_lines_are_read_back(parts: Seq<Seq<char>>)
    requires
        all_plain(parts),
    ensures
        lines(unlines(parts)) == parts,
    decreases parts.len(),
{
    if parts.len() == 0 {
        assert(lines(unlines(parts)) =~= parts);
    } else {
        let first = parts[0];
        let rest = parts.skip(1);
        assert(plain_line(parts[0]));
        assert forall|i: int| 0 <= i < rest.len() implies plain_line(#[trigger] rest[i]) by {
            assert(plain_line(parts[i + 1]));
        }
        law_lines_are_read_back(rest);
        lemma_unlines_join(seq![first], rest);
        assert(seq![first] + rest =~= parts);
        assert(seq![first].drop_last() =~= Seq::<Seq<char>>::empty());
        assert(unlines(seq![first].drop_last()) =~= seq![]);
        assert(unlines(seq![first]) =~= first + seq!['\n']);
        let text = unlines(parts);
        assert(text =~= first + seq!['\n'] + unlines(rest));
        let n = first.len() as int;
        assert(text[n] == '\n');
        assert forall|i: int| 0 <= i < n implies text[i] != '\n' by {
            assert(first.contains(first[i]));
        }
        lemma_find_is(text, '\n', n);
        assert(has_char(text, '\n'));
        assert(text.take(n) =~= first);
        assert(text.skip(n + 1) =~= unlines(rest));
        assert(strip_return(first) == first);
        assert(seq![first] + rest =~= parts);
    }
}

// ---------------------------------------------------------------------------
// Cues
// ---------------------------------------------------------------------------

/// The lines of a cue that are written: those that are not blank, without the white space at
/// their ends.
pub open spec fn kept_lines(parts: Seq<Seq<char>>) -> Seq<Seq<char>>
    decreases parts.len(),
{
    if parts.len() == 0 {
        seq![]
    } else {
        let before = kept_lines(parts.drop_last());
        if trim(parts.last()).len() == 0 {
            before
        } else {
            before.push(trim_end(parts.last()))
        }
    }
}

/// What is left of a cue once it is written.
pub open spec fn written_cue(cue: CaptionCue) -> CueView {
    CueView {
        span: Span { start: written_time(cue.span.start), end: written_time(cue.span.end) },
        text: join(kept_lines(lines(cue.text@)), "\n"@),
    }
}

/// The cues at some positions, as they are left once they are written.
pub open spec fn written_cues(cues: Seq<CaptionCue>, order: Seq<int>) -> Seq<CueView> {
    order.map_values(|k: int| written_cue(cues[k]))
}

/// Whether a cue can be told apart from what stands round it in a file: no line of it holds an
/// arrow, and its milliseconds can be counted.
pub open spec fn writable(cue: CaptionCue) -> bool {
    &&& cue.span.start.wf()
    &&& cue.span.end.wf()
    &&& written_millis(cue.span.start) <= i64::MAX
    &&& written_millis(cue.span.end) <= i64::MAX
    &&& forall|i: int|
        0 <= i < lines(cue.text@).len() ==> !timing_line(#[trigger] lines(cue.text@)[i])
}

/// The line that says when a cue shows.
pub open spec fn timing_text(cue: CaptionCue, point: char) -> Seq<char> {
    stamp_text(cue.span.start, point) + " --> "@ + stamp_text(cue.span.end, point)
}

/// The lines of a written cue.
pub open spec fn cue_lines(number: int, cue: CaptionCue, point: char) -> Seq<Seq<char>> {
    seq![dec(number as nat), timing_text(cue, point)] + kept_lines(lines(cue.text@)) + seq![seq![]]
}

/// The lines of the cues at some positions, numbered from one.
pub open spec fn file_lines(cues: Seq<CaptionCue>, order: Seq<int>, point: char) -> Seq<Seq<char>>
    decreases order.len(),
{
    if order.len() == 0 {
        seq![]
    } else {
        file_lines(cues, order.drop_last(), point) + cue_lines(
            order.len() as int,
            cues[order.last()],
            point,
        )
    }
}

proof fn lemma_body(parts: Seq<Seq<char>>)
    ensures
        body_text(parts) == unlines(kept_lines(parts)),
    decreases parts.len(),
{
    if parts.len() > 0 {
        lemma_body(parts.drop_last());
        let before = kept_lines(parts.drop_last());
        let last = trim_end(parts.last());
        assert(before.push(last).drop_last() =~= before);
    }
}

proof fn lemma_cue_lines(number: int, cue: CaptionCue, point: char)
    ensures
        cue_text(number, cue, point) == unlines(cue_lines(number, cue, point)),
{
    let head = seq![dec(number as nat), timing_text(cue, point)];
    let body = kept_lines(lines(cue.text@));
    let end = seq![Seq::<char>::empty()];
    lemma_body(lines(cue.text@));
    lemma_unlines_join(head, body);
    lemma_unlines_join(head + body, end);
    assert(end.drop_last() =~= Seq::<Seq<char>>::empty());
    assert(unlines(end.drop_last()) =~= Seq::<char>::empty());
    assert(unlines(end) =~= seq!['\n']);
    assert(head.drop_last() =~= seq![dec(number as nat)]);
    assert(seq![dec(number as nat)].drop_last() =~= Seq::<Seq<char>>::empty());
    assert(unlines(seq![dec(number as nat)]) =~= dec(number as nat) + seq!['\n']);
    assert(unlines(head) =~= dec(number as nat) + seq!['\n'] + timing_text(cue, point) + seq!['\n']);
    assert(cue_text(number, cue, point) =~= unlines(cue_lines(number, cue, point)));
}

proof fn lemma_file_lines(cues: Seq<CaptionCue>, order: Seq<int>, point: char)
    ensures
        cues_text(cues, order, point) == unlines(file_lines(cues, order, point)),
    decreases order.len(),
{
    if order.len() > 0 {
        lemma_file_lines(cues, order.drop_last(), point);
        lemma_cue_lines(order.len() as int, cues[order.last()], point);
        lemma_unlines_join(
            file_lines(cues, order.drop_last(), point),
            cue_lines(order.len() as int, cues[order.last()], point),
        );
    }
}

/// The lines of a text hold no line feed.
proof fn lemma_lines_hold_no_feed(s: Seq<char>)
    ensures
        forall|i: int| 0 <= i < lines(s).len() ==> !(#[trigger] lines(s)[i]).contains('\n'),
    decreases s.len(),
{
    if s.len() > 0 {
        if has_char(s, '\n') {
            crate::text::lemma_find(s, '\n');
            let n = find(s, '\n');
            let rest = s.skip(n + 1);
            lemma_lines_hold_no_feed(rest);
            let first = strip_return(s.take(n));
            assert(!first.contains('\n')) by {
                if first.contains('\n') {
                    let k = choose|k: int| 0 <= k < first.len() && first[k] == '\n';
                    assert(s[k] == first[k]);
                }
            }
            assert forall|i: int| 0 <= i < lines(s).len() implies !(
            #[trigger] lines(s)[i]).contains('\n') by {
                if i > 0 {
                    assert(lines(s)[i] == lines(rest)[i - 1]);
                }
            }
        } else {
            crate::text::lemma_find(s, '\n');
            assert(lines(s) =~= seq![s]);
            assert(!s.contains('\n'));
            assert forall|i: int| 0 <= i < lines(s).len() implies !(
            #[trigger] lines(s)[i]).contains('\n') by {
                assert(lines(s)[i] == s);
            }
        }
    }
}

pub proof fn lemma_trim_end(s: Seq<char>)
    ensures
        trim_end(s).len() <= s.len(),
        trim_end(s) == s.take(trim_end(s).len() as int),
        trim_end(s).len() > 0 ==> !is_white(trim_end(s).last()),
        trim_end(trim_end(s)) == trim_end(s),
    decreases s.len(),
{
    if s.len() > 0 && is_white(s.last()) {
        lemma_trim_end(s.drop_last());
        let t = trim_end(s);
        assert(s.drop_last().take(t.len() as int) =~= s.take(t.len() as int));
    } else {
        assert(s.take(s.len() as int) =~= s);
    }
}

/// White space at the end does not decide whether a line is blank.
proof fn lemma_blank(s: Seq<char>)
    ensures
        trim(s).len() == 0 <==> forall|i: int| 0 <= i < s.len() ==> is_white(#[trigger] s[i]),
{
    lemma_trim_start(s);
    let t = trim_start(s);
    lemma_all_white(s);
    if t.len() > 0 {
        lemma_first_stays(t);
    }
}

proof fn lemma_all_white(s: Seq<char>)
    ensures
        trim_start(s).len() == 0 <==> forall|i: int| 0 <= i < s.len() ==> is_white(#[trigger] s[i]),
    decreases s.len(),
{
    if s.len() > 0 {
        if is_white(s[0]) {
            let rest = s.skip(1);
            lemma_all_white(rest);
            if trim_start(s).len() == 0 {
                assert forall|i: int| 0 <= i < s.len() implies is_white(#[trigger] s[i]) by {
                    if i > 0 {
                        assert(is_white(rest[i - 1]));
                    }
                }
            } else {
                let k = choose|k: int| 0 <= k < rest.len() && !is_white(rest[k]);
                assert(!is_white(s[k + 1]));
            }
        } else {
            assert(!is_white(s[0]));
        }
    }
}

proof fn lemma_first_stays(s: Seq<char>)
    requires
        s.len() > 0,
        !is_white(s[0]),
    ensures
        trim_end(s).len() > 0,
    decreases s.len(),
{
    if is_white(s.last()) {
        lemma_first_stays(s.drop_last());
    }
}

/// Whether a line can stand in the body of a written cue.
pub open spec fn body_line(line: Seq<char>) -> bool {
    &&& plain_line(line)
    &&& trim(line).len() > 0
    &&& trim_end(line) == line
    &&& !timing_line(line)
}

proof fn lemma_kept(parts: Seq<Seq<char>>)
    requires
        forall|i: int| 0 <= i < parts.len() ==> !(#[trigger] parts[i]).contains('\n'),
        forall|i: int| 0 <= i < parts.len() ==> !timing_line(#[trigger] parts[i]),
    ensures
        forall|i: int| 0 <= i < kept_lines(parts).len() ==> body_line(#[trigger] kept_lines(parts)[i]),
    decreases parts.len(),
{
    if parts.len() > 0 {
        let before = parts.drop_last();
        assert forall|i: int| 0 <= i < before.len() implies !(#[trigger] before[i]).contains('\n') by {
            assert(!parts[i].contains('\n'));
        }
        assert forall|i: int| 0 <= i < before.len() implies !timing_line(#[trigger] before[i]) by {
            assert(!timing_line(parts[i]));
        }
        lemma_kept(before);
        let last = parts.last();
        let line = trim_end(last);
        if trim(last).len() == 0 {
            assert(kept_lines(parts) == kept_lines(before));
        } else {
            lemma_trim_end(last);
            assert(!last.contains('\n'));
            assert(!line.contains('\n')) by {
                if line.contains('\n') {
                    let k = choose|k: int| 0 <= k < line.len() && line[k] == '\n';
                    assert(last[k] == line[k]);
                }
            }
            lemma_blank(last);
            lemma_blank(line);
            let k = choose|k: int| 0 <= k < last.len() && !is_white(last[k]);
            assert(!is_white(last[k]));
            lemma_white_goes(last, k);
            assert(line[k] == last[k]);
            assert(!timing_line(last));
            assert(!timing_line(line)) by {
                if timing_line(line) {
                    let at = choose|at: int| stands_at(line, "-->"@, at);
                    assert(last.subrange(at, at + "-->"@.len()) =~= line.subrange(
                        at,
                        at + "-->"@.len(),
                    ));
                    assert(stands_at(last, "-->"@, at));
                }
            }
            assert(body_line(line));
            let kept = kept_lines(parts);
            assert forall|i: int| 0 <= i < kept.len() implies body_line(#[trigger] kept[i]) by {
                if i < kept.len() - 1 {
                    assert(body_line(kept_lines(before)[i]));
                }
            }
        }
    }
}

/// What is not white space is not behind the end.
proof fn lemma_white_goes(s: Seq<char>, k: int)
    requires
        0 <= k < s.len(),
        !is_white(s[k]),
    ensures
        k < trim_end(s).len(),
    decreases s.len(),
{
    if is_white(s.last()) {
        lemma_white_goes(s.drop_last(), k);
    }
}

proof fn lemma_body_end(parts: Seq<Seq<char>>, from: int, to: int)
    requires
        0 <= from <= to < parts.len(),
        forall|i: int| from <= i < to ==> !ends_body(parts, #[trigger] seen(i)),
        ends_body(parts, to),
    ensures
        body_end(parts, from) == to,
    decreases to - from,
{
    if from < to {
        assert(seen(from) == from);
        lemma_body_end(parts, from + 1, to);
    }
}

/// A position, named where a statement about all positions needs one.
pub open spec fn seen(i: int) -> int {
    i
}

proof fn lemma_no_arrow(s: Seq<char>)
    requires
        forall|i: int| 0 <= i < s.len() ==> #[trigger] s[i] != '>',
    ensures
        !timing_line(s),
{
    reveal_strlit("-->");
    if timing_line(s) {
        let at = choose|at: int| stands_at(s, "-->"@, at);
        assert(s.subrange(at, at + 3)[2] == "-->"@[2]);
        assert(s[at + 2] == '>');
    }
}

/// A cue's number is neither timing nor metadata.
proof fn lemma_number_line(n: nat)
    ensures
        trim(dec(n)) == dec(n),
        dec(n).len() > 0,
        !timing_line(dec(n)),
        !block_line(dec(n)),
        plain_line(dec(n)),
{
    lemma_dec(n);
    let s = dec(n);
    assert(is_digit(s[0]));
    assert(is_digit(s[s.len() - 1]));
    lemma_no_white(s);
    assert forall|i: int| 0 <= i < s.len() implies #[trigger] s[i] != '>' by {
        assert(is_digit(s[i]));
    }
    lemma_no_arrow(s);
    crate::text::lemma_word_len(s);
    assert forall|i: int| 0 <= i < s.len() implies !is_white(#[trigger] s[i]) by {
        assert(is_digit(s[i]));
    }
    assert(word_len(s) > 0);
    assert(words(s)[0] == s.take(word_len(s)));
    assert(words(s)[0][0] == s[0]);
    reveal_strlit("WEBVTT");
    reveal_strlit("NOTE");
    reveal_strlit("STYLE");
    reveal_strlit("REGION");
    if s.contains('\n') {
        let k = choose|k: int| 0 <= k < s.len() && s[k] == '\n';
        assert(is_digit(s[k]));
    }
}

/// Where the arrow stands between two instants.
proof fn lemma_arrow(a: Seq<char>, b: Seq<char>)
    requires
        forall|i: int| 0 <= i < a.len() ==> stamp_char(#[trigger] a[i]),
    ensures
        timing_line(a + " --> "@ + b),
        arrow_at(a + " --> "@ + b) == a.len() + 1,
        before_arrow(a + " --> "@ + b) == a + seq![' '],
        (a + " --> "@ + b).skip(a.len() as int + 4) == seq![' '] + b,
{
    let line = a + " --> "@ + b;
    let n = a.len() as int;
    reveal_strlit(" --> ");
    reveal_strlit("-->");
    assert(line.subrange(n + 1, n + 4) =~= "-->"@);
    assert(stands_at(line, "-->"@, n + 1));
    assert forall|k: int| 0 <= k < n + 1 implies !stands_at(line, "-->"@, k) by {
        if stands_at(line, "-->"@, k) {
            assert(line.subrange(k, k + 3)[0] == '-');
            assert(line[k] == '-');
            if k < n {
                assert(line[k] == a[k]);
                assert(stamp_char(a[k]));
            }
        }
    }
    assert(first_at(line, "-->"@, n + 1));
    let at = arrow_at(line);
    assert(first_at(line, "-->"@, at));
    assert(at == n + 1) by {
        if at < n + 1 {
            assert(!stands_at(line, "-->"@, at));
        } else if at > n + 1 {
            assert(!stands_at(line, "-->"@, n + 1));
        }
    }
    assert(line.take(n + 1) =~= a + seq![' ']);
    assert(line.skip(n + 4) =~= seq![' '] + b);
}

proof fn lemma_space_behind(a: Seq<char>)
    requires
        a.len() > 0,
        !is_white(a[0]),
        !is_white(a.last()),
    ensures
        trim(a + seq![' ']) == a,
{
    let left = a + seq![' '];
    lemma_no_white(a);
    assert(left[0] == a[0]);
    assert(left.drop_last() =~= a);
    assert(is_white(left.last()));
    assert(trim_start(left) == left);
    assert(trim_end(left) == trim_end(left.drop_last()));
}

proof fn lemma_one_word(b: Seq<char>)
    requires
        b.len() > 0,
        forall|i: int| 0 <= i < b.len() ==> !is_white(#[trigger] b[i]),
    ensures
        words(seq![' '] + b).len() > 0,
        words(seq![' '] + b)[0] == b,
{
    let right = seq![' '] + b;
    assert(right.skip(1) =~= b);
    assert(!is_white(b[0]));
    assert(trim_start(b) == b);
    assert(is_white(right[0]));
    assert(trim_start(right) == b);
    crate::text::lemma_word_len(b);
    assert(word_len(b) == b.len()) by {
        if word_len(b) < b.len() {
            assert(!is_white(b[word_len(b)]));
        }
    }
    assert(b.take(word_len(b)) =~= b);
}

/// The line that says when a cue shows is read as what it says.
proof fn lemma_timing_line(cue: CaptionCue, point: char, format: Seq<char>, number: int)
    requires
        writable(cue),
        point == ',' || point == '.',
    ensures
        trim(timing_text(cue, point)) == timing_text(cue, point),
        timing_text(cue, point).len() > 0,
        timing_line(timing_text(cue, point)),
        plain_line(timing_text(cue, point)),
        timing_of(timing_text(cue, point), format, number) == Ok::<Span, ErrorView>(
            written_cue(cue).span,
        ),
{
    let a = stamp_text(cue.span.start, point);
    let b = stamp_text(cue.span.end, point);
    let line = timing_text(cue, point);
    let n = a.len() as int;
    lemma_stamp_chars(cue.span.start, point);
    lemma_stamp_chars(cue.span.end, point);
    lemma_arrow(a, b);
    lemma_space_behind(a);
    assert forall|i: int| 0 <= i < b.len() implies !is_white(#[trigger] b[i]) by {
        assert(stamp_char(b[i]));
    }
    lemma_one_word(b);
    assert(behind_arrow(line) == b);
    law_an_instant_is_read_back(cue.span.start, point, before_arrow(line));
    lemma_no_white(b);
    law_an_instant_is_read_back(cue.span.end, point, b);
    reveal_strlit(" --> ");
    assert(line[0] == a[0]);
    assert(line.last() == b.last());
    lemma_no_white(line);
    assert(!line.contains('\n')) by {
        if line.contains('\n') {
            let k = choose|k: int| 0 <= k < line.len() && line[k] == '\n';
            if k < n {
                assert(stamp_char(a[k]));
            } else if k >= n + 5 {
                assert(stamp_char(b[k - n - 5]));
            }
        }
    }
}

proof fn lemma_as_they_are(parts: Seq<Seq<char>>)
    requires
        forall|i: int| 0 <= i < parts.len() ==> body_line(#[trigger] parts[i]),
    ensures
        body_of(parts) == join(parts, "\n"@),
{
    assert(parts.map_values(|line: Seq<char>| trim_end(line)) =~= parts) by {
        assert forall|i: int| 0 <= i < parts.len() implies trim_end(#[trigger] parts[i])
            == parts[i] by {
            assert(body_line(parts[i]));
        }
    }
}

/// A written cue is read as what is left of it, and what follows as what follows.
proof fn lemma_cue_is_read(
    all: Seq<Seq<char>>,
    at: int,
    number: int,
    cue: CaptionCue,
    point: char,
    format: Seq<char>,
)
    requires
        writable(cue),
        point == ',' || point == '.',
        0 <= at,
        at + cue_lines(number, cue, point).len() <= all.len(),
        all.subrange(at, at + cue_lines(number, cue, point).len()) == cue_lines(number, cue, point),
    ensures
        cues_from(all, at, format) == with_cue(
            written_cue(cue),
            cues_from(all, at + cue_lines(number, cue, point).len(), format),
        ),
{
    let own = cue_lines(number, cue, point);
    let body = kept_lines(lines(cue.text@));
    let stop = at + 2 + body.len();
    assert forall|i: int| 0 <= i < own.len() implies all[at + i] == #[trigger] own[i] by {
        assert(all.subrange(at, at + own.len())[i] == all[at + i]);
    }
    assert(own[0] == dec(number as nat));
    assert(own[1] == timing_text(cue, point));
    assert(own[own.len() - 1] == Seq::<char>::empty());
    lemma_number_line(number as nat);
    lemma_timing_line(cue, point, format, at + 2);
    lemma_lines_hold_no_feed(cue.text@);
    lemma_kept(lines(cue.text@));
    lemma_as_they_are(body);
    assert forall|i: int| at + 2 <= i < stop implies !ends_body(all, #[trigger] seen(i)) by {
        let k = i - at - 2;
        assert(all[i] == own[k + 2]);
        assert(own[k + 2] == body[k]);
        assert(body_line(body[k]));
        assert(all[i + 1] == own[k + 3]);
        if i + 1 < stop {
            assert(own[k + 3] == body[k + 1]);
            assert(body_line(body[k + 1]));
        } else {
            lemma_no_arrow(Seq::<char>::empty());
        }
    }
    assert(all[stop] == own[own.len() - 1]);
    assert(trim(all[stop]).len() == 0);
    assert(ends_body(all, stop));
    lemma_body_end(all, at + 2, stop);
    assert(all.subrange(at + 2, stop) =~= body) by {
        assert forall|k: int| 0 <= k < body.len() implies #[trigger] all.subrange(at + 2, stop)[k]
            == body[k] by {
            assert(all[at + (k + 2)] == own[k + 2]);
        }
    }
    assert(all[at + 1] == timing_text(cue, point));
    assert(cues_from(all, at + 1, format) == with_cue(
        written_cue(cue),
        cues_from(all, stop, format),
    ));
    assert(cues_from(all, stop, format) == cues_from(all, stop + 1, format));
    assert(all[at] == dec(number as nat));
    assert(cues_from(all, at, format) == cues_from(all, at + 1, format));
}

// ---------------------------------------------------------------------------
// Files
// ---------------------------------------------------------------------------

pub open spec fn all_writable(cues: Seq<CaptionCue>) -> bool {
    forall|i: int| 0 <= i < cues.len() ==> writable(#[trigger] cues[i])
}

/// Whether every position is one of a cue.
pub open spec fn in_range(order: Seq<int>, n: int) -> bool {
    forall|k: int| 0 <= k < order.len() ==> 0 <= #[trigger] order[k] < n
}

proof fn lemma_lines_are_plain(cues: Seq<CaptionCue>, order: Seq<int>, point: char)
    requires
        all_writable(cues),
        in_range(order, cues.len() as int),
        point == ',' || point == '.',
    ensures
        all_plain(file_lines(cues, order, point)),
    decreases order.len(),
{
    if order.len() > 0 {
        let before = order.drop_last();
        assert forall|k: int| 0 <= k < before.len() implies 0 <= #[trigger] before[k] < cues.len() by {
            assert(0 <= order[k] < cues.len());
        }
        lemma_lines_are_plain(cues, before, point);
        let last = order[order.len() - 1];
        assert(0 <= last < cues.len());
        let cue = cues[last];
        assert(writable(cue));
        let own = cue_lines(order.len() as int, cue, point);
        let body = kept_lines(lines(cue.text@));
        lemma_number_line(order.len());
        lemma_timing_line(cue, point, seq![], 0);
        lemma_lines_hold_no_feed(cue.text@);
        lemma_kept(lines(cue.text@));
        assert forall|i: int| 0 <= i < own.len() implies plain_line(#[trigger] own[i]) by {
            if 2 <= i < own.len() - 1 {
                assert(own[i] == body[i - 2]);
                assert(body_line(body[i - 2]));
            }
        }
        let head = file_lines(cues, before, point);
        assert forall|i: int| 0 <= i < (head + own).len() implies plain_line(
            #[trigger] (head + own)[i],
        ) by {
            if i < head.len() {
                assert(plain_line(head[i]));
            } else {
                assert(plain_line(own[i - head.len()]));
            }
        }
    }
}

/// The lines of the first cues come first.
proof fn lemma_first_lines(cues: Seq<CaptionCue>, order: Seq<int>, n: int, point: char)
    requires
        0 <= n <= order.len(),
    ensures
        file_lines(cues, order.take(n), point).len() <= file_lines(cues, order, point).len(),
        file_lines(cues, order, point).take(
            file_lines(cues, order.take(n), point).len() as int,
        ) == file_lines(cues, order.take(n), point),
    decreases order.len(),
{
    let all = file_lines(cues, order, point);
    let some = file_lines(cues, order.take(n), point);
    if n == order.len() {
        assert(order.take(n) =~= order);
        assert(all.take(all.len() as int) =~= all);
    } else {
        let before = order.drop_last();
        lemma_first_lines(cues, before, n, point);
        assert(before.take(n) =~= order.take(n));
        let head = file_lines(cues, before, point);
        assert(all.take(some.len() as int) =~= head.take(some.len() as int));
    }
}

/// The lines of a cue stand behind those of the cues before it.
proof fn lemma_own_lines(
    header: Seq<Seq<char>>,
    cues: Seq<CaptionCue>,
    order: Seq<int>,
    n: int,
    point: char,
)
    requires
        0 <= n < order.len(),
    ensures
        ({
            let all = header + file_lines(cues, order, point);
            let at = header.len() + file_lines(cues, order.take(n), point).len();
            let mine = cue_lines(n + 1, cues[order[n]], point);
            &&& at + mine.len() <= all.len()
            &&& at + mine.len() == header.len() + file_lines(cues, order.take(n + 1), point).len()
            &&& all.subrange(at as int, (at + mine.len()) as int) == mine
        }),
{
    let own = file_lines(cues, order, point);
    let all = header + own;
    let some = file_lines(cues, order.take(n), point);
    let at = (header.len() + some.len()) as int;
    let next = order.take(n + 1);
    assert(next.drop_last() =~= order.take(n));
    assert(next.last() == order[n]);
    let mine = cue_lines(n + 1, cues[order[n]], point);
    let upto = file_lines(cues, next, point);
    assert(upto == some + mine);
    lemma_first_lines(cues, order, n + 1, point);
    assert(all.subrange(at, at + mine.len()) =~= mine) by {
        assert forall|i: int| 0 <= i < mine.len() implies #[trigger] all.subrange(
            at,
            at + mine.len(),
        )[i] == mine[i] by {
            assert(all[at + i] == own[some.len() + i]);
            assert(own.take(upto.len() as int)[some.len() + i] == own[some.len() + i]);
            assert(upto[some.len() + i] == mine[i]);
        }
    }
}

/// The cues from one on, with some lines in front of the first of all.
#[verifier::spinoff_prover]
#[verifier::rlimit(40)]
proof fn lemma_rest_is_read(
    header: Seq<Seq<char>>,
    cues: Seq<CaptionCue>,
    order: Seq<int>,
    n: int,
    point: char,
    format: Seq<char>,
)
    requires
        all_writable(cues),
        in_range(order, cues.len() as int),
        0 <= n <= order.len(),
        point == ',' || point == '.',
    ensures
        cues_from(
            header + file_lines(cues, order, point),
            (header.len() + file_lines(cues, order.take(n), point).len()) as int,
            format,
        ) == Ok::<Seq<CueView>, ErrorView>(written_cues(cues, order).skip(n)),
    decreases order.len() - n,
{
    let own = file_lines(cues, order, point);
    let all = header + own;
    let some = file_lines(cues, order.take(n), point);
    let at = (header.len() + some.len()) as int;
    let want = written_cues(cues, order);
    if n == order.len() {
        assert(order.take(n) =~= order);
        assert(want.skip(n) =~= Seq::<CueView>::empty());
    } else {
        lemma_rest_is_read(header, cues, order, n + 1, point, format);
        assert(0 <= order[n] < cues.len());
        let cue = cues[order[n]];
        assert(writable(cue));
        lemma_own_lines(header, cues, order, n, point);
        lemma_cue_is_read(all, at, n + 1, cue, point, format);
        assert(want[n] == written_cue(cue));
        assert(seq![want[n]] + want.skip(n + 1) =~= want.skip(n));
    }
}

/// The file's cues in the order of time.
pub open spec fn in_time(cues: Seq<CueView>) -> Seq<CueView> {
    cues_at(cues, span_order(cue_spans(cues)))
}

proof fn lemma_order_is_in_range(cues: Seq<CaptionCue>)
    requires
        all_writable(cues),
    ensures
        in_range(span_order(spans_of(cues)), cues.len() as int),
        span_order(spans_of(cues)).len() == cues.len(),
{
    let spans = spans_of(cues);
    assert forall|i: int| 0 <= i < spans.len() implies (#[trigger] spans[i]).start.wf()
        && spans[i].end.wf() by {
        assert(writable(cues[i]));
    }
    law_span_order(spans, spans.len() as int);
}

/// Reading a SubRip file gives back what was written to it: each cue to the millisecond, with
/// its lines that are not blank.
pub proof fn law_srt_is_read_back(cues: Seq<CaptionCue>, format: Seq<char>)
    requires
        all_writable(cues),
    ensures
        captions_in(srt_text(cues), format) == Ok::<Seq<CueView>, ErrorView>(
            in_time(written_cues(cues, span_order(spans_of(cues)))),
        ),
{
    let order = span_order(spans_of(cues));
    lemma_order_is_in_range(cues);
    let own = file_lines(cues, order, ',');
    let header = Seq::<Seq<char>>::empty();
    lemma_file_lines(cues, order, ',');
    lemma_lines_are_plain(cues, order, ',');
    law_lines_are_read_back(own);
    let text = srt_text(cues);
    assert(text =~= unlines(own));
    if order.len() > 0 {
        lemma_first_lines(cues, order, 1, ',');
        assert(order.take(1).drop_last() =~= Seq::<int>::empty());
        assert(order.take(1).last() == order[0]);
        assert(file_lines(cues, order.take(1).drop_last(), ',') =~= Seq::<Seq<char>>::empty());
        let first = cue_lines(1, cues[order[0]], ',');
        assert(file_lines(cues, order.take(1), ',') =~= first);
        assert(own[0] == first[0]);
        lemma_dec(1);
        assert(is_digit(dec(1)[0]));
    }
    lemma_marks(text, own);
    lemma_rest_is_read(header, cues, order, 0, ',', format);
    assert(order.take(0) =~= Seq::<int>::empty());
    assert(header + own =~= own);
    let want = written_cues(cues, order);
    assert(want.skip(0) =~= want);
}

/// Reading a WebVTT file gives back what was written to it: each cue to the millisecond, with
/// its lines that are not blank.
pub proof fn law_vtt_is_read_back(cues: Seq<CaptionCue>, format: Seq<char>)
    requires
        all_writable(cues),
    ensures
        captions_in(vtt_text(cues), format) == Ok::<Seq<CueView>, ErrorView>(
            in_time(written_cues(cues, span_order(spans_of(cues)))),
        ),
{
    let order = span_order(spans_of(cues));
    lemma_order_is_in_range(cues);
    let own = file_lines(cues, order, '.');
    let header = seq!["WEBVTT"@, seq![]];
    let all = header + own;
    reveal_strlit("WEBVTT");
    reveal_strlit("WEBVTT\n\n");
    lemma_file_lines(cues, order, '.');
    lemma_lines_are_plain(cues, order, '.');
    assert(header.drop_last() =~= seq!["WEBVTT"@]);
    assert(seq!["WEBVTT"@].drop_last() =~= Seq::<Seq<char>>::empty());
    assert(unlines(seq!["WEBVTT"@].drop_last()) =~= Seq::<char>::empty());
    assert(unlines(seq!["WEBVTT"@]) =~= "WEBVTT"@ + seq!['\n']);
    assert(unlines(header) =~= "WEBVTT\n\n"@);
    lemma_unlines_join(header, own);
    assert(plain_line("WEBVTT"@)) by {
        assert forall|i: int| 0 <= i < "WEBVTT"@.len() implies #[trigger] "WEBVTT"@[i] != '\n' by {}
    }
    assert forall|i: int| 0 <= i < all.len() implies plain_line(#[trigger] all[i]) by {
        if i >= 2 {
            assert(all[i] == own[i - 2]);
        }
    }
    law_lines_are_read_back(all);
    let text = vtt_text(cues);
    assert(text =~= unlines(all));
    assert(text[0] == 'W');
    assert(without_mark(text) == text);
    lemma_rest_is_read(header, cues, order, 0, '.', format);
    assert(order.take(0) =~= Seq::<int>::empty());
    let want = written_cues(cues, order);
    assert(want.skip(0) =~= want);
    // The header is skipped, with the blank line behind it.
    lemma_header(all, format);
}

proof fn lemma_header(all: Seq<Seq<char>>, format: Seq<char>)
    requires
        all.len() >= 2,
        all[0] == "WEBVTT"@,
        all[1] == Seq::<char>::empty(),
    ensures
        cues_from(all, 0, format) == cues_from(all, 2, format),
{
    let line = "WEBVTT"@;
    reveal_strlit("WEBVTT");
    lemma_no_white(line);
    assert forall|i: int| 0 <= i < line.len() implies #[trigger] line[i] != '>' by {}
    lemma_no_arrow(line);
    assert forall|i: int| 0 <= i < line.len() implies !is_white(#[trigger] line[i]) by {}
    crate::text::lemma_word_len(line);
    assert(word_len(line) == line.len());
    assert(line.take(word_len(line)) =~= line);
    assert(words(line)[0] == line);
    assert(block_line(line));
    assert(trim(all[1]).len() == 0);
    assert(block_end(all, 1) == 1);
    assert(cues_from(all, 1, format) == cues_from(all, 2, format));
}

/// A file of captions starts with no byte order mark.
proof fn lemma_marks(text: Seq<char>, own: Seq<Seq<char>>)
    requires
        text == unlines(own),
        own.len() > 0 ==> own[0].len() > 0 && is_digit(own[0][0]),
    ensures
        without_mark(text) == text,
{
    if own.len() > 0 {
        let first = own[0];
        let rest = own.skip(1);
        lemma_unlines_join(seq![first], rest);
        assert(seq![first] + rest =~= own);
        assert(seq![first].drop_last() =~= Seq::<Seq<char>>::empty());
        assert(unlines(seq![first].drop_last()) =~= Seq::<char>::empty());
        assert(unlines(seq![first]) =~= first + seq!['\n']);
        assert(text[0] == first[0]);
    }
}

/// Whether cues stand in the order of time.
pub open spec fn ordered(spans: Seq<Span>) -> bool {
    forall|i: int, j: int|
        0 <= i <= j < spans.len() ==> not_after(#[trigger] spans[i], #[trigger] spans[j])
}

proof fn lemma_ordered_stays(spans: Seq<Span>, n: int)
    requires
        ordered(spans),
        0 <= n <= spans.len(),
    ensures
        order_of(spans, n) == Seq::new(n as nat, |i: int| i),
    decreases n,
{
    if n > 0 {
        lemma_ordered_stays(spans, n - 1);
        let before = order_of(spans, n - 1);
        if n > 1 {
            assert(not_after(spans[n - 2], spans[n - 1]));
        }
        assert(span_slot(spans, before, spans[n - 1]) == n - 1);
        assert(order_of(spans, n) =~= Seq::new(n as nat, |i: int| i));
    } else {
        assert(order_of(spans, n) =~= Seq::new(n as nat, |i: int| i));
    }
}

/// Whether writing a cue loses nothing of it.
pub open spec fn exact(cue: CaptionCue) -> bool {
    written_cue(cue) == cue_view(cue)
}

/// Cues at whole milliseconds, in the order of time and without blank lines, come back from a
/// SubRip file and from a WebVTT file as they are.
pub proof fn law_exact_cues_come_back(cues: Seq<CaptionCue>, format: Seq<char>)
    requires
        all_writable(cues),
        forall|i: int| 0 <= i < cues.len() ==> exact(#[trigger] cues[i]),
        ordered(spans_of(cues)),
    ensures
        captions_in(srt_text(cues), format) == Ok::<Seq<CueView>, ErrorView>(cue_views(cues)),
        captions_in(vtt_text(cues), format) == Ok::<Seq<CueView>, ErrorView>(cue_views(cues)),
{
    let n = cues.len() as int;
    law_srt_is_read_back(cues, format);
    law_vtt_is_read_back(cues, format);
    let spans = spans_of(cues);
    lemma_ordered_stays(spans, n);
    let order = span_order(spans);
    let made = written_cues(cues, order);
    assert forall|i: int| 0 <= i < n implies #[trigger] made[i] == cue_views(cues)[i] by {
        assert(exact(cues[i]));
    }
    assert(made =~= cue_views(cues));
    assert(cue_spans(made) =~= spans);
    assert(in_time(made) =~= made);
}

/// An instant at a whole number of milliseconds loses nothing.
pub proof fn law_whole_milliseconds_are_exact(m: int)
    requires
        0 <= m <= i64::MAX,
    ensures
        written_time(at_millis(m)) == at_millis(m),
        at_millis(m).wf(),
{
    lemma_at_millis(m);
}

} // verus!
