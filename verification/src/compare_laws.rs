//! What is looked at of a timeline, and what a comparison reports.

use crate::analyze::{
    frames_stepped, lemma_point_before_end, lemma_point_value, looked_at, point, point_fits,
    sampled_frames, step_count, step_of, steps_fit,
};
use crate::diff::{
    all_same, changed, changed_span, has_changed, mean_of, samples_ok, ssim_sum, windows_fit, worst,
    SampleDiff,
};
use crate::order::lemma_le_is_transitive;
use crate::rational::Rat;
use crate::time::{Fps, Span, Time};
use crate::time_laws::{
    is_nearest, law_frames_stand_around_an_instant, law_rounding_gives_the_nearest,
};
use vstd::prelude::*;

verus! {

// ---------------------------------------------------------------------------
// What is looked at
// ---------------------------------------------------------------------------

/// An instant is looked at exactly if it lies in the range that was asked for and on the timeline.
pub proof fn law_what_is_asked_for_is_looked_at(range: Option<Span>, duration: Time, at: Time)
    requires
        duration.wf(),
        at.wf(),
        range matches Some(r) ==> r.start.wf() && r.end.wf(),
    ensures
        looked_at(range, duration).start.le(at) && at.lt(looked_at(range, duration).end)
            <==> at.secs.num >= 0 && at.lt(duration) && (range matches Some(r) ==> r.start.le(at)
            && at.lt(r.end)),
{
    if let Some(r) = range {
        let zero = Time::zero_spec();
        assert(zero.le(at) <==> at.secs.num >= 0);
        if zero.lt(r.start) {
            if r.start.le(at) {
                lemma_le_is_transitive(zero, r.start, at);
            }
        } else if zero.le(at) {
            lemma_le_is_transitive(r.start, zero, at);
        }
        if duration.lt(r.end) {
            if r.end.le(at) {
                lemma_le_is_transitive(duration, r.end, at);
            }
        } else if duration.le(at) {
            lemma_le_is_transitive(r.end, duration, at);
        }
    }
}

/// Whether a frame covers the instant that is `k` steps behind a start.
pub open spec fn covers_step(frame: int, start: Time, step: Time, fps: Fps, k: int) -> bool {
    let top = (start.secs.num * step.secs.den + k * step.secs.num * start.secs.den)
        * fps.rate.num;
    let bottom = (start.secs.den * step.secs.den) * fps.rate.den;
    frame * bottom <= top < (frame + 1) * bottom
}

/// Whether the instant that is `k` steps behind the start of a range is still before its end.
pub open spec fn step_within(range: Span, step: Time, k: int) -> bool {
    (range.start.secs.num * step.secs.den + k * step.secs.num * range.start.secs.den)
        * range.end.secs.den < range.end.secs.num * (range.start.secs.den * step.secs.den)
}

proof fn lemma_step(range: Span, step: Time, fps: Fps, k: int)
    requires
        range.start.wf(),
        range.end.wf(),
        step.wf(),
        step.secs.num > 0,
        fps.wf(),
        k >= 0,
        point_fits(range.start, step, k),
    ensures
        step_within(range, step, k) <==> k < step_count(range, step),
        covers_step(point(range.start, step, k).floor_frame(fps), range.start, step, fps, k),
{
    let (a, b) = (range.start.secs.num as int, range.start.secs.den as int);
    let (c, d) = (step.secs.num as int, step.secs.den as int);
    let (p, q) = (fps.rate.num as int, fps.rate.den as int);
    lemma_point_value(range.start, step, k);
    lemma_point_before_end(range, step, k);
    let at = point(range.start, step, k);
    law_frames_stand_around_an_instant(at, fps);
    let (n, m) = (at.secs.num as int, at.secs.den as int);
    let (x, y) = (a * d + k * c * b, b * d);
    assert(y > 0) by (nonlinear_arith)
        requires
            b > 0,
            d > 0,
            y == b * d,
    ;
    assert(n * y == x * m);
    let frame = at.floor_frame(fps);
    lemma_covers(n, m, x, y, p, q, frame);
    let (e, f) = (range.end.secs.num as int, range.end.secs.den as int);
    assert((n * f < e * m) == (x * f < e * y)) by {
        assert((n * f) * y == (x * f) * m) by (nonlinear_arith)
            requires
                n * y == x * m,
        ;
        assert((e * m) * y == (e * y) * m) by (nonlinear_arith);
        let (u, v, s, t) = (n * f, e * m, x * f, e * y);
        assert((u < v) == (s < t)) by (nonlinear_arith)
            requires
                u * y == s * m,
                v * y == t * m,
                y > 0,
                m > 0,
        ;
    }
}

/// A frame that covers an instant covers it however the instant is written.
proof fn lemma_covers(n: int, m: int, x: int, y: int, p: int, q: int, frame: int)
    requires
        m > 0,
        y > 0,
        q > 0,
        n * y == x * m,
        frame * (m * q) <= n * p < (frame + 1) * (m * q),
    ensures
        frame * (y * q) <= x * p < (frame + 1) * (y * q),
{
    let (g, h) = (n * p, x * p);
    assert(g * y == h * m) by (nonlinear_arith)
        requires
            g == n * p,
            h == x * p,
            n * y == x * m,
    ;
    let (s, t) = (m * q, y * q);
    assert(s * y == t * m) by (nonlinear_arith)
        requires
            s == m * q,
            t == y * q,
    ;
    lemma_scaled(g, h, frame, s, t, y, m);
    lemma_scaled(g, h, frame + 1, s, t, y, m);
}

proof fn lemma_scaled(g: int, h: int, frame: int, s: int, t: int, y: int, m: int)
    requires
        g * y == h * m,
        s * y == t * m,
        y > 0,
        m > 0,
    ensures
        (frame * s <= g) == (frame * t <= h),
{
    let (u, v) = (frame * s, frame * t);
    assert(u * y == v * m) by (nonlinear_arith)
        requires
            u == frame * s,
            v == frame * t,
            s * y == t * m,
    ;
    assert((u <= g) == (v <= h)) by (nonlinear_arith)
        requires
            u * y == v * m,
            g * y == h * m,
            y > 0,
            m > 0,
    ;
}

proof fn lemma_stepped(start: Time, step: Time, fps: Fps, n: int, k: int) -> (j: int)
    requires
        0 <= k < n,
    ensures
        0 <= j < frames_stepped(start, step, fps, n).len(),
        frames_stepped(start, step, fps, n)[j] == point(start, step, k).floor_frame(fps),
    decreases n,
{
    let all = frames_stepped(start, step, fps, n);
    if k < n - 1 {
        let j = lemma_stepped(start, step, fps, n - 1, k);
        assert(all[j] == frames_stepped(start, step, fps, n - 1)[j]);
        j
    } else {
        all.len() - 1
    }
}

proof fn lemma_stepped_back(start: Time, step: Time, fps: Fps, n: int, j: int) -> (k: int)
    requires
        0 <= j < frames_stepped(start, step, fps, n).len(),
    ensures
        0 <= k < n,
        frames_stepped(start, step, fps, n)[j] == point(start, step, k).floor_frame(fps),
    decreases n,
{
    let before = frames_stepped(start, step, fps, n - 1);
    if j < before.len() {
        lemma_stepped_back(start, step, fps, n - 1, j)
    } else {
        n - 1
    }
}

/// Every instant of a range that is a whole number of steps behind its start is sampled, on the frame
/// that covers it. Without an interval the step is a frame.
pub proof fn law_every_step_is_sampled(range: Span, every: Time, fps: Fps, k: int) -> (j: int)
    requires
        range.start.wf(),
        range.end.wf(),
        every.wf(),
        fps.wf(),
        steps_fit(range, step_of(every, fps), fps),
        k >= 0,
        point_fits(range.start, step_of(every, fps), k),
        step_within(range, step_of(every, fps), k),
    ensures
        0 <= j < sampled_frames(range, every, fps).len(),
        covers_step(
            sampled_frames(range, every, fps)[j],
            range.start,
            step_of(every, fps),
            fps,
            k,
        ),
        every.secs.num > 0 ==> step_of(every, fps) == every,
        every.secs.num <= 0 ==> step_of(every, fps).secs.is(
            fps.rate.den as int,
            fps.rate.num as int,
        ),
{
    let step = step_of(every, fps);
    lemma_step_of(every, fps);
    lemma_step(range, step, fps, k);
    lemma_stepped(range.start, step, fps, step_count(range, step), k)
}

proof fn lemma_step_of(every: Time, fps: Fps)
    requires
        every.wf(),
        fps.wf(),
    ensures
        step_of(every, fps).wf(),
        step_of(every, fps).secs.num > 0,
        every.secs.num <= 0 ==> step_of(every, fps).secs.is(
            fps.rate.den as int,
            fps.rate.num as int,
        ),
{
    let (n, d) = (fps.rate.den as int, fps.rate.num as int);
    crate::time::lemma_small_fits(n, d);
    Rat::lemma_of(n, d);
    let r = Rat::of(n, d);
    assert(r.num > 0) by (nonlinear_arith)
        requires
            r.num * d == n * r.den,
            n > 0,
            d > 0,
            r.den > 0,
    ;
}

/// A range is sampled only on frames that cover such an instant.
pub proof fn law_only_steps_are_sampled(range: Span, every: Time, fps: Fps, j: int) -> (k: int)
    requires
        range.start.wf(),
        range.end.wf(),
        every.wf(),
        fps.wf(),
        steps_fit(range, step_of(every, fps), fps),
        0 <= j < sampled_frames(range, every, fps).len(),
    ensures
        k >= 0,
        step_within(range, step_of(every, fps), k),
        covers_step(
            sampled_frames(range, every, fps)[j],
            range.start,
            step_of(every, fps),
            fps,
            k,
        ),
{
    let step = step_of(every, fps);
    lemma_step_of(every, fps);
    let k = lemma_stepped_back(range.start, step, fps, step_count(range, step), j);
    assert(point_fits(range.start, step, k));
    lemma_step(range, step, fps, k);
    k
}

// ---------------------------------------------------------------------------
// What a comparison reports
// ---------------------------------------------------------------------------

/// No sample is less alike than the worst, and the worst is one of them. Where there is none, nothing
/// differs.
pub proof fn law_the_worst_sample_is_reported(samples: Seq<SampleDiff>) -> (w: int)
    ensures
        samples.len() == 0 ==> worst(samples) == 1_000_000_000,
        samples.len() > 0 ==> 0 <= w < samples.len() && samples[w].ssim == worst(samples),
        forall|i: int| 0 <= i < samples.len() ==> worst(samples) <= (#[trigger] samples[i]).ssim,
    decreases samples.len(),
{
    if samples.len() <= 1 {
        0
    } else {
        let rest = samples.drop_last();
        let w = law_the_worst_sample_is_reported(rest);
        assert forall|i: int| 0 <= i < samples.len() implies worst(samples) <= (
        #[trigger] samples[i]).ssim by {
            if i < rest.len() {
                assert(rest[i] == samples[i]);
            }
        }
        if samples.last().ssim < worst(rest) {
            samples.len() - 1
        } else {
            assert(rest[w] == samples[w]);
            w
        }
    }
}

/// The mean is the nearest whole number to the sum of all similarities over their number.
pub proof fn law_the_mean_is_of_all_samples(samples: Seq<SampleDiff>)
    ensures
        samples.len() > 0 ==> is_nearest(
            samples.fold_left(0int, |sum: int, sample: SampleDiff| sum + sample.ssim),
            samples.len() as int,
            mean_of(samples),
        ),
        samples.len() == 0 ==> mean_of(samples) == 1_000_000_000,
{
    lemma_sum(samples);
    if samples.len() > 0 {
        law_rounding_gives_the_nearest(ssim_sum(samples), samples.len() as int);
    }
}

proof fn lemma_sum(samples: Seq<SampleDiff>)
    ensures
        ssim_sum(samples) == samples.fold_left(
            0int,
            |sum: int, sample: SampleDiff| sum + sample.ssim,
        ),
    decreases samples.len(),
{
    if samples.len() > 0 {
        lemma_sum(samples.drop_last());
    }
}

/// Two files are identical exactly if every sample of them is alike to within a ten-thousandth, and no
/// pixel is off by more than that. Similarities are in billionths.
pub proof fn law_identical_is_alike_everywhere(samples: Seq<SampleDiff>)
    ensures
        all_same(samples) <==> forall|i: int|
            0 <= i < samples.len() ==> 999_900_000 <= (#[trigger] samples[i]).ssim
                && samples[i].max_diff <= 100_000,
{
}

/// Whether samples can be reported on: their instants and the windows behind them can be stored.
pub open spec fn reportable(samples: Seq<SampleDiff>, window: Time) -> bool {
    samples_ok(samples) && windows_fit(samples, window)
}

proof fn lemma_reportable(samples: Seq<SampleDiff>, window: Time)
    requires
        reportable(samples, window),
        samples.len() > 0,
    ensures
        reportable(samples.drop_last(), window),
        samples.last().at.wf(),
        has_changed(samples.last()) ==> samples.last().at.sum_fits(window),
{
    let rest = samples.drop_last();
    assert(samples.last() == samples[samples.len() - 1]);
    assert forall|k: int| 0 <= k < rest.len() implies (#[trigger] rest[k]).at.wf()
        && -1_000_000_000 <= rest[k].ssim <= 1_000_000_000 by {
        assert(rest[k] == samples[k]);
    }
    assert forall|k: int| 0 <= k < rest.len() implies (has_changed(#[trigger] rest[k])
        ==> rest[k].at.sum_fits(window)) by {
        assert(rest[k] == samples[k]);
    }
}

/// What a sample stands for ends a window later, or where the timeline does, or at once.
proof fn lemma_span(sample: SampleDiff, window: Time, duration: Time)
    requires
        sample.at.wf(),
        window.wf(),
        duration.wf(),
        sample.at.sum_fits(window),
    ensures
        ({
            let end = changed_span(sample, window, duration).end;
            let reach = sample.at.spec_plus(window);
            &&& end.wf() && reach.wf()
            &&& end == reach || end == duration || (end == sample.at && duration.le(sample.at))
            &&& reach.le(end) || duration.le(end)
        }),
{
    let (a, b) = (sample.at.secs, window.secs);
    assert(a.den * b.den > 0) by (nonlinear_arith)
        requires
            a.den > 0,
            b.den > 0,
    ;
    Rat::lemma_of(a.num * b.den + b.num * a.den, a.den * b.den);
}

/// A stretch is reported only from a sample on that is less than 99 percent alike, and only to where
/// the window behind such a sample ends, or to the end of the timeline.
pub proof fn law_only_changes_are_reported(
    samples: Seq<SampleDiff>,
    window: Time,
    duration: Time,
    j: int,
) -> (r: (int, int))
    requires
        reportable(samples, window),
        window.wf(),
        duration.wf(),
        0 <= j < changed(samples, window, duration).len(),
    ensures
        0 <= r.0 < samples.len(),
        0 <= r.1 < samples.len(),
        samples[r.0].ssim < 990_000_000,
        samples[r.1].ssim < 990_000_000,
        ({
            let found = changed(samples, window, duration)[j];
            &&& found.start == samples[r.0].at
            &&& found.end == samples[r.1].at.spec_plus(window) || found.end == duration || (
            found.end == samples[r.1].at && duration.le(found.end))
            &&& found.start.wf() && found.end.wf()
        }),
    decreases samples.len(),
{
    let rest = samples.drop_last();
    let before = changed(rest, window, duration);
    let all = changed(samples, window, duration);
    let last = samples.last();
    let n = samples.len() - 1;
    assert(last == samples[n]);
    lemma_reportable(samples, window);
    let span = changed_span(last, window, duration);
    if has_changed(last) {
        lemma_span(last, window, duration);
    }
    if j < before.len() {
        let r = law_only_changes_are_reported(rest, window, duration, j);
        assert(rest[r.0] == samples[r.0] && rest[r.1] == samples[r.1]);
        if all[j] == before[j] {
            r
        } else {
            assert(j == before.len() - 1);
            let now = before.last().end.spec_max(span.end);
            if now == before.last().end {
                r
            } else {
                (r.0, n)
            }
        }
    } else {
        (n, n)
    }
}

/// What a sample that is less than 99 percent alike stands for, until the window behind it or the
/// timeline ends, is inside a stretch that is reported.
pub proof fn law_every_change_is_reported(
    samples: Seq<SampleDiff>,
    window: Time,
    duration: Time,
    i: int,
) -> (j: int)
    requires
        reportable(samples, window),
        window.wf(),
        duration.wf(),
        0 <= i < samples.len(),
        samples[i].ssim < 990_000_000,
        forall|a: int, b: int|
            0 <= a <= b < samples.len() ==> (#[trigger] samples[a]).at.le(
                (#[trigger] samples[b]).at,
            ),
    ensures
        0 <= j < changed(samples, window, duration).len(),
        changed(samples, window, duration)[j].start.le(samples[i].at),
        samples[i].at.spec_plus(window).le(changed(samples, window, duration)[j].end)
            || duration.le(changed(samples, window, duration)[j].end),
    decreases samples.len(),
{
    let rest = samples.drop_last();
    let before = changed(rest, window, duration);
    let all = changed(samples, window, duration);
    let last = samples.last();
    let n = samples.len() - 1;
    assert(last == samples[n]);
    lemma_reportable(samples, window);
    assert(samples[i].at.wf() && has_changed(samples[i]));
    lemma_span(samples[i], window, duration);
    let reach = samples[i].at.spec_plus(window);
    let span = changed_span(last, window, duration);
    let merged = has_changed(last) && before.len() > 0 && span.start.le(before.last().end);
    if has_changed(last) {
        lemma_span(last, window, duration);
    }
    if i < n {
        assert(rest[i] == samples[i]);
        assert forall|a: int, b: int| 0 <= a <= b < rest.len() implies (#[trigger] rest[a]).at.le(
            (#[trigger] rest[b]).at,
        ) by {
            assert(rest[a] == samples[a] && rest[b] == samples[b]);
        }
        let j = law_every_change_is_reported(rest, window, duration, i);
        if merged && j == before.len() - 1 {
            let r = law_only_changes_are_reported(rest, window, duration, j);
            let was = before.last().end;
            let now = was.spec_max(span.end);
            assert(was.le(now));
            if reach.le(was) {
                lemma_le_is_transitive(reach, was, now);
            } else {
                lemma_le_is_transitive(duration, was, now);
            }
            assert(all[j].start == before[j].start);
        } else {
            assert(all[j] == before[j]);
        }
        j
    } else {
        let j = all.len() - 1;
        if merged {
            let r = law_only_changes_are_reported(rest, window, duration, before.len() - 1);
            assert(rest[r.0] == samples[r.0]);
            assert(samples[r.0].at.le(samples[n].at));
            let now = before.last().end.spec_max(span.end);
            assert(span.end.le(now));
            if reach.le(span.end) {
                lemma_le_is_transitive(reach, span.end, now);
            } else {
                lemma_le_is_transitive(duration, span.end, now);
            }
        }
        j
    }
}

} // verus!
