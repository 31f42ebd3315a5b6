//! Comparing two rendered files.
//!
//! Similarity and difference of two frames are in billionths.

use crate::analyze::step_of;
use crate::error::{Error, ErrorView};
use crate::project::Probe;
use crate::rational::{round_half_away, rounded};
use crate::time::{Fps, Span, Time};
use vstd::arithmetic::div_mod::{
    lemma_fundamental_div_mod, lemma_fundamental_div_mod_converse,
    lemma_mod_division_less_than_divisor,
};
use vstd::prelude::*;

verus! {

/// Similarity below which a sample has changed.
pub const CHANGED_SSIM: i64 = 990_000_000;

/// Similarity from which on two samples are the same picture.
pub const IDENTICAL_SSIM: i64 = 999_900_000;

/// The difference that no pixel of the same picture exceeds.
pub const IDENTICAL_MAX_DIFF: i64 = 100_000;

/// The similarity of a picture with itself.
pub const FULL_SSIM: i64 = 1_000_000_000;

/// How alike two files are at an instant.
#[derive(Clone, Copy, Debug, PartialEq, Eq, Structural)]
pub struct SampleDiff {
    pub at: Time,
    pub ssim: i64,
    /// Mean difference of the pixels.
    pub mean_diff: i64,
    /// Difference of the worst pixel.
    pub max_diff: i64,
}

#[derive(Clone, Debug)]
pub struct DiffReport {
    pub samples: Vec<SampleDiff>,
    /// Similarity of the worst sample.
    pub min_ssim: i64,
    pub mean_ssim: i64,
    /// The stretches that differ.
    pub changed_ranges: Vec<Span>,
    pub identical: bool,
}

// ---------------------------------------------------------------------------
// What is compared
// ---------------------------------------------------------------------------

/// How two files are brought side by side: the second at the size and rate of the first,
/// over the longer of the two durations.
#[derive(Clone, Copy, Debug)]
pub struct ComparePlan {
    pub size: [u32; 2],
    pub fps: Fps,
    pub duration: Time,
    pub step: Time,
}

pub open spec fn nothing_to_compare(path: Seq<char>) -> ErrorView {
    ErrorView::BadArgs("'"@ + path + "' has no video stream to compare"@)
}

pub open spec fn at_least_two(n: u32) -> u32 {
    if n < 2 {
        2
    } else {
        n
    }
}

fn no_video(path: &str) -> (r: Error)
    ensures
        r@ == nothing_to_compare(path@),
{
    let mut detail = "'".to_owned();
    detail.append(path);
    detail.append("' has no video stream to compare");
    Error::BadArgs(detail)
}

pub fn compare_plan(a: &Probe, a_path: &str, b: &Probe, b_path: &str, every: Time) -> (r: Result<
    ComparePlan,
    Error,
>)
    requires
        a.video is Some ==> a.video->0.sar.wf() && a.video->0.fps.wf(),
    ensures
        a.video is None ==> r is Err && r->Err_0@ == nothing_to_compare(a_path@),
        a.video is Some && b.video is None ==> r is Err && r->Err_0@ == nothing_to_compare(
            b_path@,
        ),
        a.video is Some && b.video is Some ==> r is Ok && r->Ok_0.size@ =~= seq![
            at_least_two(a.video->0.shown_size()@[0]),
            at_least_two(a.video->0.shown_size()@[1]),
        ] && r->Ok_0.fps == a.video->0.fps && r->Ok_0.duration == a.duration.spec_max(b.duration)
            && r->Ok_0.step == step_of(every, a.video->0.fps),
{
    match (&a.video, &b.video) {
        (Some(stream), Some(_)) => {
            let shown = stream.display_size();
            let w: u32 = if shown[0] < 2 {
                2
            } else {
                shown[0]
            };
            let h: u32 = if shown[1] < 2 {
                2
            } else {
                shown[1]
            };
            let step = if every.is_positive() {
                every
            } else {
                stream.fps.frame_duration()
            };
            Ok(
                ComparePlan {
                    size: [w, h],
                    fps: stream.fps,
                    duration: a.duration.max(b.duration),
                    step,
                },
            )
        },
        (None, _) => Err(no_video(a_path)),
        (Some(_), None) => Err(no_video(b_path)),
    }
}

// ---------------------------------------------------------------------------
// What is reported
// ---------------------------------------------------------------------------

pub open spec fn worst(samples: Seq<SampleDiff>) -> i64
    decreases samples.len(),
{
    if samples.len() == 0 {
        FULL_SSIM
    } else if samples.len() == 1 {
        samples[0].ssim
    } else if samples.last().ssim < worst(samples.drop_last()) {
        samples.last().ssim
    } else {
        worst(samples.drop_last())
    }
}

pub open spec fn ssim_sum(samples: Seq<SampleDiff>) -> int
    decreases samples.len(),
{
    if samples.len() == 0 {
        0
    } else {
        ssim_sum(samples.drop_last()) + samples.last().ssim
    }
}

/// The mean similarity, to the nearest billionth.
pub open spec fn mean_of(samples: Seq<SampleDiff>) -> int {
    if samples.len() == 0 {
        FULL_SSIM as int
    } else {
        round_half_away(ssim_sum(samples), samples.len() as int)
    }
}

pub open spec fn is_same(sample: SampleDiff) -> bool {
    sample.ssim >= IDENTICAL_SSIM && sample.max_diff <= IDENTICAL_MAX_DIFF
}

pub open spec fn all_same(samples: Seq<SampleDiff>) -> bool {
    forall|i: int| 0 <= i < samples.len() ==> is_same(#[trigger] samples[i])
}

pub open spec fn has_changed(sample: SampleDiff) -> bool {
    sample.ssim < CHANGED_SSIM
}

/// The stretch a changed sample stands for.
pub open spec fn changed_span(sample: SampleDiff, window: Time, duration: Time) -> Span {
    Span {
        start: sample.at,
        end: sample.at.spec_plus(window).spec_min(duration.spec_max(sample.at)),
    }
}

/// The stretches that changed, those that touch made one.
pub open spec fn changed(samples: Seq<SampleDiff>, window: Time, duration: Time) -> Seq<Span>
    decreases samples.len(),
{
    if samples.len() == 0 {
        seq![]
    } else {
        let before = changed(samples.drop_last(), window, duration);
        let span = changed_span(samples.last(), window, duration);
        if !has_changed(samples.last()) {
            before
        } else if before.len() > 0 && span.start.le(before.last().end) {
            before.drop_last().push(
                Span { start: before.last().start, end: before.last().end.spec_max(span.end) },
            )
        } else {
            before.push(span)
        }
    }
}

/// Whether the window behind every changed sample can be stored.
pub open spec fn windows_fit(samples: Seq<SampleDiff>, window: Time) -> bool {
    forall|i: int|
        0 <= i < samples.len() ==> (has_changed(#[trigger] samples[i])
            ==> samples[i].at.sum_fits(window))
}

pub open spec fn samples_ok(samples: Seq<SampleDiff>) -> bool {
    forall|i: int|
        0 <= i < samples.len() ==> (#[trigger] samples[i]).at.wf() && -FULL_SSIM <= samples[i].ssim
            <= FULL_SSIM
}

fn changed_ranges(samples: &Vec<SampleDiff>, window: Time, duration: Time) -> (r: Option<Vec<Span>>)
    requires
        samples_ok(samples@),
        window.wf(),
    ensures
        r is Some <==> windows_fit(samples@, window),
        r is Some ==> r->0@ == changed(samples@, window, duration),
{
    let mut out: Vec<Span> = Vec::new();
    let mut i: usize = 0;
    assert(samples@.take(0) =~= seq![]);
    while i < samples.len()
        invariant
            i <= samples@.len(),
            samples_ok(samples@),
            window.wf(),
            out@ == changed(samples@.take(i as int), window, duration),
            forall|k: int|
                0 <= k < i ==> (has_changed(#[trigger] samples@[k])
                    ==> samples@[k].at.sum_fits(window)),
        decreases samples@.len() - i,
    {
        let ghost before = out@;
        assert(samples@.take(i + 1).drop_last() =~= samples@.take(i as int));
        let sample = samples[i];
        assert(sample == samples@[i as int]);
        if sample.ssim < CHANGED_SSIM {
            let reach = match sample.at.checked_plus(&window) {
                Some(reach) => reach,
                None => {
                    return None;
                },
            };
            let end = reach.min(duration.max(sample.at));
            let n: usize = out.len();
            if n > 0 && sample.at.at_most(&out[n - 1].end) {
                let last = out[n - 1];
                out.pop();
                out.push(Span { start: last.start, end: last.end.max(end) });
                assert(out@ =~= before.drop_last().push(out@.last()));
            } else {
                out.push(Span { start: sample.at, end });
            }
        }
        i = i + 1;
    }
    assert(samples@.take(i as int) =~= samples@);
    Some(out)
}

/// Sums up how alike two files are. Nothing where the window behind a sample cannot be stored.
pub fn report(samples: Vec<SampleDiff>, every: Time, duration: Time, fps: Fps) -> (r: Option<
    DiffReport,
>)
    requires
        samples_ok(samples@),
        every.wf(),
        fps.wf(),
    ensures
        r is Some <==> windows_fit(samples@, step_of(every, fps)),
        r is Some ==> r->0.samples == samples && r->0.min_ssim == worst(samples@) && r->0.mean_ssim
            == mean_of(samples@) && r->0.identical == all_same(samples@) && r->0.changed_ranges@
            == changed(samples@, step_of(every, fps), duration),
{
    let window = if every.is_positive() {
        every
    } else {
        fps.frame_duration()
    };
    let ranges = match changed_ranges(&samples, window, duration) {
        Some(ranges) => ranges,
        None => {
            return None;
        },
    };
    let n: usize = samples.len();
    let mut min: i64 = FULL_SSIM;
    let mut sum: i128 = 0;
    let mut same = true;
    let mut i: usize = 0;
    assert(samples@.take(0) =~= seq![]);
    while i < n
        invariant
            i <= n,
            n == samples@.len(),
            samples_ok(samples@),
            min == worst(samples@.take(i as int)),
            sum == ssim_sum(samples@.take(i as int)),
            -1_000_000_000 * i <= sum <= 1_000_000_000 * i,
            same == all_same(samples@.take(i as int)),
        decreases n - i,
    {
        let sample = samples[i];
        proof {
            assert(sample == samples@[i as int]);
            assert(samples@.take(i + 1).drop_last() =~= samples@.take(i as int));
            assert(samples@.take(i + 1).last() == sample);
            assert forall|k: int| 0 <= k < i implies samples@.take(i + 1)[k] == samples@.take(
                i as int,
            )[k] by {}
            assert(samples@.take(i + 1)[i as int] == sample);
            if same {
                assert forall|k: int| 0 <= k < i implies is_same(#[trigger] samples@[k]) by {
                    assert(is_same(samples@.take(i as int)[k]));
                }
            } else {
                let k = choose|k: int|
                    0 <= k < i && !is_same(#[trigger] samples@.take(i as int)[k]);
                assert(!is_same(samples@.take(i + 1)[k]));
            }
        }
        if i == 0 || sample.ssim < min {
            min = sample.ssim;
        }
        sum = sum + sample.ssim as i128;
        if !(sample.ssim >= IDENTICAL_SSIM && sample.max_diff <= IDENTICAL_MAX_DIFF) {
            same = false;
            assert(!is_same(samples@.take(i + 1)[i as int]));
        }
        i = i + 1;
    }
    assert(samples@.take(i as int) =~= samples@);
    let mean_ssim: i64 = if n == 0 {
        FULL_SSIM
    } else {
        proof {
            lemma_mean(sum as int, n as int);
        }
        rounded(sum, n as i128) as i64
    };
    Some(
        DiffReport { samples, min_ssim: min, mean_ssim, changed_ranges: ranges, identical: same },
    )
}

proof fn lemma_mean(sum: int, n: int)
    requires
        n > 0,
        -1_000_000_000 * n <= sum <= 1_000_000_000 * n,
    ensures
        -FULL_SSIM - 1 <= round_half_away(sum, n) <= FULL_SSIM + 1,
{
    let a = if sum < 0 {
        -sum
    } else {
        sum
    };
    let q = (2 * a + n) / (2 * n);
    assert(0 <= q <= 1_000_000_001) by (nonlinear_arith)
        requires
            0 <= a <= 1_000_000_000 * n,
            n > 0,
            q == (2 * a + n) / (2 * n),
    ;
}

/// What is the same everywhere has not changed anywhere.
pub proof fn law_what_is_identical_has_not_changed(samples: Seq<SampleDiff>, window: Time, duration: Time)
    requires
        all_same(samples),
    ensures
        changed(samples, window, duration).len() == 0,
    decreases samples.len(),
{
    if samples.len() > 0 {
        assert(is_same(samples[samples.len() - 1]));
        assert forall|i: int| 0 <= i < samples.drop_last().len() implies is_same(
            #[trigger] samples.drop_last()[i],
        ) by {
            assert(is_same(samples[i]));
        }
        law_what_is_identical_has_not_changed(samples.drop_last(), window, duration);
    }
}

// ---------------------------------------------------------------------------
// Windows
// ---------------------------------------------------------------------------

/// The longest side of a window in which two pictures are compared, in pixels.
pub const WINDOW: usize = 8;

/// The side of a window along one side of a picture.
pub open spec fn window_of(side: int) -> int {
    if side < WINDOW {
        side
    } else {
        WINDOW as int
    }
}

/// How far apart windows start: half a window.
pub open spec fn stride_of(side: int) -> int {
    if window_of(side) < 2 {
        1
    } else {
        window_of(side) / 2
    }
}

/// How many windows there are along one side of a picture.
pub open spec fn window_count(side: int) -> int {
    (side - window_of(side) + stride_of(side) - 1) / stride_of(side) + 1
}

/// Where a window starts: half a window behind the one before, and no later than one that ends at
/// the edge.
pub open spec fn window_start(side: int, k: int) -> int {
    if k * stride_of(side) < side - window_of(side) {
        k * stride_of(side)
    } else {
        side - window_of(side)
    }
}

proof fn lemma_window_count(side: int, k: int)
    requires
        side >= 0,
        k >= 0,
        k * stride_of(side) >= side - window_of(side),
        k > 0 ==> (k - 1) * stride_of(side) < side - window_of(side),
    ensures
        window_count(side) == k + 1,
{
    let step = stride_of(side);
    let last = side - window_of(side);
    let r = last + step - 1 - k * step;
    assert(0 <= r < step) by (nonlinear_arith)
        requires
            r == last + step - 1 - k * step,
            step > 0,
            last >= 0,
            k >= 0,
            k * step >= last,
            k > 0 ==> (k - 1) * step < last,
    ;
    lemma_fundamental_div_mod_converse(last + step - 1, step, k, r);
}

/// The side of a window along one side of a picture, and where the windows start.
pub fn windows_along(side: usize) -> (r: (usize, Vec<usize>))
    ensures
        r.0 == window_of(side as int),
        r.1@.len() == window_count(side as int),
        forall|k: int|
            0 <= k < r.1@.len() ==> #[trigger] r.1@[k] == window_start(side as int, k),
{
    let window: usize = if side < WINDOW {
        side
    } else {
        WINDOW
    };
    let step: usize = if window < 2 {
        1
    } else {
        window / 2
    };
    let last: usize = side - window;
    let mut starts: Vec<usize> = Vec::new();
    let mut at: usize = 0;
    assert(0 * step == 0) by (nonlinear_arith);
    while at < last
        invariant
            window == window_of(side as int),
            step == stride_of(side as int),
            step > 0,
            last == side - window,
            at == window_start(side as int, starts@.len() as int),
            forall|k: int|
                0 <= k < starts@.len() ==> #[trigger] starts@[k] == window_start(side as int, k),
            starts@.len() > 0 ==> (starts@.len() - 1) * step < last,
        decreases last - at,
    {
        let ghost n = starts@.len() as int;
        starts.push(at);
        assert((n + 1) * step == n * step + step) by (nonlinear_arith);
        at = if last - at > step {
            at + step
        } else {
            last
        };
    }
    starts.push(at);
    proof {
        lemma_window_count(side as int, starts@.len() - 1);
    }
    (window, starts)
}

/// Every pixel along a side is in some window, and no window reaches past the side.
pub proof fn law_no_pixel_is_left_out(side: int, pixel: int) -> (k: int)
    requires
        0 <= pixel < side,
    ensures
        0 <= k < window_count(side),
        window_start(side, k) <= pixel < window_start(side, k) + window_of(side) <= side,
{
    let step = stride_of(side);
    let last = side - window_of(side);
    if pixel >= last {
        let k = window_count(side) - 1;
        lemma_fundamental_div_mod(last + step - 1, step);
        lemma_mod_division_less_than_divisor(last + step - 1, step);
        assert(k >= 0 && k * step >= last) by (nonlinear_arith)
            requires
                last + step - 1 == step * k + (last + step - 1) % step,
                0 <= (last + step - 1) % step < step,
                last >= 0,
                step > 0,
        ;
        k
    } else {
        let k = pixel / step;
        lemma_fundamental_div_mod(pixel, step);
        lemma_mod_division_less_than_divisor(pixel, step);
        assert(k >= 0 && k * step <= pixel < k * step + step) by (nonlinear_arith)
            requires
                pixel == step * k + pixel % step,
                0 <= pixel % step < step,
                pixel >= 0,
                step > 0,
        ;
        lemma_fundamental_div_mod(last + step - 1, step);
        lemma_mod_division_less_than_divisor(last + step - 1, step);
        let n = window_count(side) - 1;
        assert(k < n + 1) by (nonlinear_arith)
            requires
                last + step - 1 == step * n + (last + step - 1) % step,
                0 <= (last + step - 1) % step < step,
                k * step < last,
                step > 0,
        ;
        k
    }
}

/// A pixel that is at least half a window from both ends of a longer side is in two windows.
pub proof fn law_inner_pixels_are_in_two_windows(side: int, pixel: int) -> (r: (int, int))
    requires
        side > WINDOW,
        stride_of(side) <= pixel < side - stride_of(side),
    ensures
        0 <= r.0 < r.1 < window_count(side),
        window_start(side, r.0) <= pixel < window_start(side, r.0) + window_of(side),
        window_start(side, r.1) <= pixel < window_start(side, r.1) + window_of(side),
{
    let step = stride_of(side);
    let last = side - window_of(side);
    assert(step == 4 && window_of(side) == 8);
    let k = pixel / 4;
    let n = window_count(side) - 1;
    assert(n == (last + 3) / 4);
    if k * 4 < last {
        assert(k < n);
        (k - 1, k)
    } else {
        assert((n - 1) * 4 < last <= n * 4);
        (n - 1, n)
    }
}

} // verus!
