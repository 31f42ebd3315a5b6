//! Detectors over sampled frames: black, frozen, flashing, and where shots change.
//!
//! A sample is two numbers, the mean luminance of a frame and how much it differs from the
//! sample before it, both in linear light and in billionths.

use crate::error::{Error, ErrorView};
use crate::rational::Rat;
use crate::time::{Fps, Span, Time};
use vstd::prelude::*;

verus! {

/// Luminance at or below which a frame is black.
pub const BLACK_LUMA: i64 = 3_000_000;

/// Difference below which two frames are the same picture.
pub const FREEZE_CHANGE: i64 = 1_500_000;

/// Step of luminance, against both neighbours and in one direction, that is a flash.
pub const FLASH_JUMP: i64 = 200_000_000;

/// Difference above which two samples are different shots.
pub const SCENE_CHANGE: i64 = 300_000_000;

/// One sampled frame.
#[derive(Clone, Copy, Debug, PartialEq, Eq, Structural)]
pub struct FrameStat {
    pub at: Time,
    pub frame: i64,
    pub luma: i64,
    /// Difference from the sample before; 0 for the first.
    pub change: i64,
}

/// How samples are taken and judged.
#[derive(Clone, Copy, Debug, PartialEq, Eq, Structural)]
pub struct AnalyzeOptions {
    pub every: Time,
    pub range: Option<Span>,
    pub black_luma: i64,
    pub freeze_change: i64,
    pub min_freeze: Time,
    pub flash_jump: i64,
    pub scene_change: i64,
    /// Whether each shot change is narrowed down to its frame.
    pub refine_cuts: bool,
}

pub open spec fn seconds(n: i64) -> Time {
    Time { secs: Rat { num: n, den: 1 } }
}

impl Default for AnalyzeOptions {
    fn default() -> (r: AnalyzeOptions)
        ensures
            r == (AnalyzeOptions {
                every: seconds(1),
                range: None,
                black_luma: BLACK_LUMA,
                freeze_change: FREEZE_CHANGE,
                min_freeze: seconds(2),
                flash_jump: FLASH_JUMP,
                scene_change: SCENE_CHANGE,
                refine_cuts: true,
            }),
    {
        AnalyzeOptions {
            every: Time::from_secs(1),
            range: None,
            black_luma: BLACK_LUMA,
            freeze_change: FREEZE_CHANGE,
            min_freeze: Time::from_secs(2),
            flash_jump: FLASH_JUMP,
            scene_change: SCENE_CHANGE,
            refine_cuts: true,
        }
    }
}

pub open spec fn negative_interval(what: Seq<char>, every: Time) -> ErrorView {
    ErrorView::BadArgs(what + " cannot be negative, got "@ + every.text())
}

/// Refuses a negative interval. None at all is a wish for every frame.
pub fn require_interval(every: Time, what: &str) -> (r: Result<(), Error>)
    ensures
        r is Err <==> every.secs.num < 0,
        r is Err ==> r->Err_0@ == negative_interval(what@, every),
{
    if every.secs.num < 0 {
        let mut detail = what.to_owned();
        detail.append(" cannot be negative, got ");
        detail.append(every.to_text().as_str());
        return Err(Error::BadArgs(detail));
    }
    Ok(())
}

/// The part of a timeline to look at.
pub open spec fn looked_at(range: Option<Span>, duration: Time) -> Span {
    match range {
        Some(range) => Span {
            start: range.start.spec_max(Time::zero_spec()),
            end: range.end.spec_min(duration),
        },
        None => Span { start: Time::zero_spec(), end: duration },
    }
}

/// The asked-for range, cut to the timeline.
pub fn clamp_range(range: Option<Span>, duration: Time) -> (r: Span)
    ensures
        r == looked_at(range, duration),
{
    match range {
        Some(range) => Span {
            start: range.start.max(Time::zero()),
            end: range.end.min(duration),
        },
        None => Span { start: Time::zero(), end: duration },
    }
}

// ---------------------------------------------------------------------------
// When samples are taken
// ---------------------------------------------------------------------------

/// The step between samples: the interval, or a frame where there is none.
pub open spec fn step_of(every: Time, fps: Fps) -> Time {
    if every.secs.num > 0 {
        every
    } else {
        fps.spec_frame_duration()
    }
}

/// The instant `k` steps from a start.
pub open spec fn point(start: Time, step: Time, k: int) -> Time {
    start.spec_plus(step.spec_times(Rat { num: k as i64, den: 1 }))
}

pub open spec fn point_fits(start: Time, step: Time, k: int) -> bool {
    &&& k <= i64::MAX
    &&& step.product_fits(Rat { num: k as i64, den: 1 })
    &&& start.sum_fits(step.spec_times(Rat { num: k as i64, den: 1 }))
}

/// How many steps from the start of a range stay before its end.
pub open spec fn step_count(range: Span, step: Time) -> int {
    let m = (range.end.secs.num * range.start.secs.den - range.start.secs.num * range.end.secs.den)
        * step.secs.den;
    let n = range.start.secs.den * range.end.secs.den * step.secs.num;
    if m <= 0 {
        0
    } else {
        (m + n - 1) / n
    }
}

/// The frames that the first `n` steps fall on, each once.
pub open spec fn frames_stepped(start: Time, step: Time, fps: Fps, n: int) -> Seq<int>
    decreases n,
{
    if n <= 0 {
        seq![]
    } else {
        let before = frames_stepped(start, step, fps, n - 1);
        let frame = point(start, step, n - 1).floor_frame(fps);
        if before.len() > 0 && before.last() == frame {
            before
        } else {
            before.push(frame)
        }
    }
}

/// Whether the frame of a step is one that can be counted to and has an instant.
pub open spec fn frame_fits(start: Time, step: Time, fps: Fps, k: int) -> bool {
    let frame = point(start, step, k).floor_frame(fps);
    i64::MIN <= frame <= i64::MAX && Time::frames_fit(frame, fps)
}

/// Whether every step that sampling a range takes can be stored.
pub open spec fn steps_fit(range: Span, step: Time, fps: Fps) -> bool {
    &&& forall|k: int|
        0 <= k <= step_count(range, step) ==> #[trigger] point_fits(range.start, step, k)
    &&& forall|k: int|
        0 <= k < step_count(range, step) ==> #[trigger] frame_fits(range.start, step, fps, k)
}

/// The frames a range is sampled at.
pub open spec fn sampled_frames(range: Span, every: Time, fps: Fps) -> Seq<int> {
    frames_stepped(range.start, step_of(every, fps), fps, step_count(range, step_of(every, fps)))
}

/// The instants of some frames.
pub open spec fn instants_of(frames: Seq<int>, fps: Fps) -> Seq<Time> {
    frames.map_values(|frame: int| Time::of_frames(frame, fps))
}

proof fn lemma_count(k: int, m: int, n: int)
    requires
        n > 0,
        m > 0,
        k >= 0,
    ensures
        k * n < m <==> k < (m + n - 1) / n,
{
    let q = (m + n - 1) / n;
    vstd::arithmetic::div_mod::lemma_fundamental_div_mod(m + n - 1, n);
    vstd::arithmetic::div_mod::lemma_mod_bound(m + n - 1, n);
    let r = (m + n - 1) % n;
    assert(m + n - 1 == n * q + r);
    if k < q {
        assert(k * n <= (q - 1) * n) by (nonlinear_arith)
            requires
                k <= q - 1,
                n > 0,
        ;
        assert((q - 1) * n == n * q - n) by (nonlinear_arith);
    } else {
        assert(k * n >= q * n) by (nonlinear_arith)
            requires
                k >= q,
                n > 0,
        ;
        assert(q * n == n * q) by (nonlinear_arith);
    }
}

proof fn lemma_count_is_not_negative(range: Span, step: Time)
    requires
        range.start.wf(),
        range.end.wf(),
        step.secs.num > 0,
    ensures
        step_count(range, step) >= 0,
{
    let m = (range.end.secs.num * range.start.secs.den - range.start.secs.num * range.end.secs.den)
        * step.secs.den;
    let b = range.start.secs.den as int;
    let f = range.end.secs.den as int;
    let c = step.secs.num as int;
    let n = b * f * c;
    assert(n > 0) by (nonlinear_arith)
        requires
            b > 0,
            f > 0,
            c > 0,
            n == b * f * c,
    ;
    if m > 0 {
        lemma_count(0, m, n);
    }
}

/// A step stays before the end exactly where it is counted.
pub proof fn lemma_point_before_end(range: Span, step: Time, k: int)
    requires
        range.start.wf(),
        range.end.wf(),
        step.wf(),
        step.secs.num > 0,
        k >= 0,
        point_fits(range.start, step, k),
    ensures
        point(range.start, step, k).lt(range.end) <==> k < step_count(range, step),
{
    let a = range.start.secs.num as int;
    let b = range.start.secs.den as int;
    let e = range.end.secs.num as int;
    let f = range.end.secs.den as int;
    let c = step.secs.num as int;
    let d = step.secs.den as int;
    lemma_point_value(range.start, step, k);
    let q = point(range.start, step, k).secs;
    let qn = q.num as int;
    let qd = q.den as int;
    let m = (e * b - a * f) * d;
    let n = b * f * c;
    let w = b * d;
    let x = qn * f;
    let y = e * qd;
    assert(w > 0) by (nonlinear_arith)
        requires
            b > 0,
            d > 0,
            w == b * d,
    ;
    // qn * w == (a * d + k * c * b) * qd
    assert(x * w == qd * (f * (a * d + c * k * b))) by {
        assert(x * w == (qn * w) * f) by (nonlinear_arith)
            requires
                x == qn * f,
        ;
        let v = a * d + k * c * b;
        assert((v * qd) * f == qd * (f * v)) by (nonlinear_arith);
        assert(c * k * b == k * c * b) by (nonlinear_arith);
    }
    assert(y * w == qd * (e * b * d)) by (nonlinear_arith)
        requires
            y == e * qd,
            w == b * d,
    ;
    let z = qd;
    let s = f * (a * d + c * k * b);
    let t = e * b * d;
    assert((x < y) == (x * w < y * w)) by (nonlinear_arith)
        requires
            w > 0,
    ;
    assert((z * s < z * t) == (s < t)) by (nonlinear_arith)
        requires
            z > 0,
    ;
    assert(m == t - f * (a * d)) by (nonlinear_arith)
        requires
            m == (e * b - a * f) * d,
            t == e * b * d,
    ;
    assert(s == f * (a * d) + k * n) by (nonlinear_arith)
        requires
            s == f * (a * d + c * k * b),
            n == b * f * c,
    ;
    assert((s < t) == (k * n < m));
    assert(n > 0) by (nonlinear_arith)
        requires
            b > 0,
            f > 0,
            c > 0,
            n == b * f * c,
    ;
    if m > 0 {
        lemma_count(k, m, n);
    } else {
        assert(k * n >= 0) by (nonlinear_arith)
            requires
                k >= 0,
                n > 0,
        ;
    }
}

/// The instants at which a range is sampled: on the frame grid, each once, none past the end.
/// Nothing where one of them cannot be stored.
pub fn instants(range: Span, every: Time, fps: Fps) -> (r: Option<Vec<Time>>)
    requires
        range.start.wf(),
        range.end.wf(),
        every.wf(),
        fps.wf(),
    ensures
        r is Some <==> steps_fit(range, step_of(every, fps), fps),
        r is Some ==> r->0@ == instants_of(sampled_frames(range, every, fps), fps),
        r is Some ==> forall|i: int| 0 <= i < r->0@.len() ==> (#[trigger] r->0@[i]).wf(),
{
    let step = if every.is_positive() {
        every
    } else {
        fps.frame_duration()
    };
    let ghost start = range.start;
    let mut out: Vec<Time> = Vec::new();
    let mut last: Option<i64> = None;
    let mut k: i64 = 0;
    let mut at: Time = Time::zero();
    let ghost mut frames: Seq<int> = seq![];
    proof {
        lemma_count_is_not_negative(range, step);
    }
    assert(instants_of(frames, fps) =~= seq![]);
    loop
        invariant
            0 <= k,
            k <= step_count(range, step),
            start == range.start,
            range.start.wf(),
            range.end.wf(),
            fps.wf(),
            step.wf(),
            step.secs.num > 0,
            step == step_of(every, fps),
            frames == frames_stepped(start, step, fps, k as int),
            out@ == instants_of(frames, fps),
            forall|i: int| 0 <= i < out@.len() ==> (#[trigger] out@[i]).wf(),
            last is None <==> frames.len() == 0,
            last is Some ==> frames.last() == last->0,
            forall|i: int| 0 <= i < k ==> #[trigger] point_fits(start, step, i),
            forall|i: int| 0 <= i < k ==> #[trigger] frame_fits(start, step, fps, i),
        ensures
            k == step_count(range, step),
            point_fits(start, step, k as int),
        decreases step_count(range, step) - k,
    {
        let times = match step.checked_times(&Rat { num: k, den: 1 }) {
            Some(times) => times,
            None => {
                assert(!point_fits(start, step, k as int));
                return None;
            },
        };
        at = match range.start.checked_plus(&times) {
            Some(at) => at,
            None => {
                assert(!point_fits(start, step, k as int));
                return None;
            },
        };
        proof {
            lemma_point_before_end(range, step, k as int);
        }
        if !at.before(&range.end) {
            break;
        }
        let frame = match at.checked_frame_floor(fps) {
            Some(frame) => frame,
            None => {
                assert(!frame_fits(start, step, fps, k as int));
                return None;
            },
        };
        let instant = match Time::checked_from_frames(frame, fps) {
            Some(instant) => instant,
            None => {
                assert(!frame_fits(start, step, fps, k as int));
                return None;
            },
        };
        let again = match last {
            Some(f) => f == frame,
            None => false,
        };
        if !again {
            out.push(instant);
            last = Some(frame);
            proof {
                frames = frames.push(frame as int);
                assert(out@ =~= instants_of(frames, fps));
            }
        }
        assert(point_fits(start, step, k as int));
        assert(frame_fits(start, step, fps, k as int));
        if k == i64::MAX {
            assert(!point_fits(start, step, k + 1));
            return None;
        }
        k = k + 1;
    }
    Some(out)
}

/// Sampled frames stand in order, none of them twice, and none past the end of the range.
pub proof fn law_samples_are_in_order(range: Span, every: Time, fps: Fps, i: int, j: int)
    requires
        range.start.wf(),
        range.end.wf(),
        every.wf(),
        fps.wf(),
        steps_fit(range, step_of(every, fps), fps),
        0 <= i < j < sampled_frames(range, every, fps).len(),
    ensures
        sampled_frames(range, every, fps)[i] < sampled_frames(range, every, fps)[j],
{
    let step = step_of(every, fps);
    lemma_count_is_not_negative(range, step);
    lemma_frames_grow(range, step, fps, step_count(range, step));
}

proof fn lemma_floor_monotone(x: int, y: int, dx: int, dy: int)
    requires
        dx > 0,
        dy > 0,
        x * dy <= y * dx,
    ensures
        x / dx <= y / dy,
{
    let p = x / dx;
    let q = y / dy;
    vstd::arithmetic::div_mod::lemma_fundamental_div_mod(x, dx);
    vstd::arithmetic::div_mod::lemma_mod_bound(x, dx);
    vstd::arithmetic::div_mod::lemma_fundamental_div_mod(y, dy);
    vstd::arithmetic::div_mod::lemma_mod_bound(y, dy);
    if p > q {
        assert(false) by (nonlinear_arith)
            requires
                dx > 0,
                dy > 0,
                x * dy <= y * dx,
                x >= dx * p,
                y < dy * q + dy,
                p >= q + 1,
        ;
    }
}

pub proof fn lemma_point_value(start: Time, step: Time, k: int)
    requires
        start.wf(),
        step.wf(),
        k >= 0,
        point_fits(start, step, k),
    ensures
        point(start, step, k).wf(),
        point(start, step, k).secs.is(
            start.secs.num * step.secs.den + k * step.secs.num * start.secs.den,
            start.secs.den * step.secs.den,
        ),
{
    let a = start.secs.num as int;
    let b = start.secs.den as int;
    let c = step.secs.num as int;
    let d = step.secs.den as int;
    Rat::lemma_of(c * k, d * 1);
    let p = Rat::of(c * k, d * 1);
    let pn = p.num as int;
    let pd = p.den as int;
    assert(b * pd > 0) by (nonlinear_arith)
        requires
            pd > 0,
            b > 0,
    ;
    Rat::lemma_of(a * pd + pn * b, b * pd);
    let q = Rat::of(a * pd + pn * b, b * pd);
    let qn = q.num as int;
    let qd = q.den as int;
    // qn * (b * pd) == (a * pd + pn * b) * qd and pn * d == c * k * pd
    assert((qn * (b * d)) * pd == ((a * d + k * c * b) * qd) * pd) by {
        assert((qn * (b * d)) * pd == (qn * (b * pd)) * d) by (nonlinear_arith);
        let s = qd * d;
        assert(((a * pd + pn * b) * qd) * d == (a * pd) * s + (pn * b) * s) by (nonlinear_arith)
            requires
                s == qd * d,
        ;
        assert((a * pd) * s == (a * d * pd) * qd) by (nonlinear_arith)
            requires
                s == qd * d,
        ;
        assert((pn * b) * s == ((pn * d) * b) * qd) by (nonlinear_arith)
            requires
                s == qd * d,
        ;
        assert((a * d * pd) * qd + ((pn * d) * b) * qd == (a * d * pd + (pn * d) * b) * qd)
            by (nonlinear_arith);
        assert((a * d * pd + (c * k * pd) * b) * qd == ((a * d + k * c * b) * qd) * pd)
            by (nonlinear_arith);
    }
    assert(qn * (b * d) == (a * d + k * c * b) * qd) by (nonlinear_arith)
        requires
            (qn * (b * d)) * pd == ((a * d + k * c * b) * qd) * pd,
            pd > 0,
    ;
}

proof fn lemma_points_advance(start: Time, step: Time, fps: Fps, k: int)
    requires
        start.wf(),
        step.wf(),
        step.secs.num > 0,
        fps.wf(),
        k >= 0,
        point_fits(start, step, k),
        point_fits(start, step, k + 1),
    ensures
        point(start, step, k).floor_frame(fps) <= point(start, step, k + 1).floor_frame(fps),
{
    let a = start.secs.num as int;
    let b = start.secs.den as int;
    let c = step.secs.num as int;
    let d = step.secs.den as int;
    lemma_point_value(start, step, k);
    lemma_point_value(start, step, k + 1);
    let p = point(start, step, k).secs;
    let q = point(start, step, k + 1).secs;
    let (pn, pd) = (p.num as int, p.den as int);
    let (qn, qd) = (q.num as int, q.den as int);
    let v = a * d + k * c * b;
    let w = a * d + (k + 1) * c * b;
    let u = b * d;
    assert(w == v + c * b) by (nonlinear_arith)
        requires
            v == a * d + k * c * b,
            w == a * d + (k + 1) * c * b,
    ;
    assert(u > 0 && c * b > 0) by (nonlinear_arith)
        requires
            b > 0,
            d > 0,
            c > 0,
            u == b * d,
    ;
    // pn * u == v * pd, qn * u == w * qd
    assert(pn * qd <= qn * pd) by {
        assert((pn * qd) * u == v * (pd * qd)) by (nonlinear_arith)
            requires
                pn * u == v * pd,
        ;
        assert((qn * pd) * u == w * (pd * qd)) by (nonlinear_arith)
            requires
                qn * u == w * qd,
        ;
        assert(v * (pd * qd) <= w * (pd * qd)) by (nonlinear_arith)
            requires
                v <= w,
                pd > 0,
                qd > 0,
        ;
        assert(pn * qd <= qn * pd) by (nonlinear_arith)
            requires
                (pn * qd) * u <= (qn * pd) * u,
                u > 0,
        ;
    }
    let fnum = fps.rate.num as int;
    let fden = fps.rate.den as int;
    assert((pn * fnum) * (qd * fden) <= (qn * fnum) * (pd * fden)) by {
        assert((pn * fnum) * (qd * fden) == (pn * qd) * (fnum * fden)) by (nonlinear_arith);
        assert((qn * fnum) * (pd * fden) == (qn * pd) * (fnum * fden)) by (nonlinear_arith);
        assert((pn * qd) * (fnum * fden) <= (qn * pd) * (fnum * fden)) by (nonlinear_arith)
            requires
                pn * qd <= qn * pd,
                fnum > 0,
                fden > 0,
        ;
    }
    assert(pd * fden > 0 && qd * fden > 0) by (nonlinear_arith)
        requires
            pd > 0,
            qd > 0,
            fden > 0,
    ;
    lemma_floor_monotone(pn * fnum, qn * fnum, pd * fden, qd * fden);
}

proof fn lemma_frames_grow(range: Span, step: Time, fps: Fps, n: int)
    requires
        range.start.wf(),
        step.wf(),
        step.secs.num > 0,
        fps.wf(),
        0 <= n <= step_count(range, step),
        forall|k: int|
            0 <= k <= step_count(range, step) ==> #[trigger] point_fits(range.start, step, k),
    ensures
        forall|i: int, j: int|
            0 <= i < j < frames_stepped(range.start, step, fps, n).len()
                ==> #[trigger] frames_stepped(range.start, step, fps, n)[i]
                < #[trigger] frames_stepped(range.start, step, fps, n)[j],
        n > 0 ==> frames_stepped(range.start, step, fps, n).len() > 0
            && frames_stepped(range.start, step, fps, n).last() == point(
            range.start,
            step,
            n - 1,
        ).floor_frame(fps),
    decreases n,
{
    if n > 0 {
        lemma_frames_grow(range, step, fps, n - 1);
        if n > 1 {
            assert(point_fits(range.start, step, n - 2));
            assert(point_fits(range.start, step, n - 1));
            lemma_points_advance(range.start, step, fps, n - 2);
        }
        let before = frames_stepped(range.start, step, fps, n - 1);
        let all = frames_stepped(range.start, step, fps, n);
        assert forall|i: int, j: int| 0 <= i < j < all.len() implies #[trigger] all[i]
            < #[trigger] all[j] by {
            if j < before.len() {
                assert(all[i] == before[i] && all[j] == before[j]);
            } else {
                assert(all[i] == before[i]);
                if i < before.len() - 1 {
                    assert(before[i] < before[before.len() - 1]);
                }
            }
        }
    }
}

} // verus!
