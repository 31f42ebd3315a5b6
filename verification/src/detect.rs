//! What sampled frames show: stretches of black, stretches that stand still, flashes, and the
//! frame on which a shot changes.

use crate::analyze::{AnalyzeOptions, FrameStat};
use crate::time::{Fps, Span, Time};
use vstd::prelude::*;

verus! {

// ---------------------------------------------------------------------------
// Runs
// ---------------------------------------------------------------------------

/// The longest runs of what is set, each as its first and its last position.
pub open spec fn runs(flags: Seq<bool>) -> Seq<(int, int)>
    decreases flags.len(),
{
    if flags.len() == 0 {
        seq![]
    } else {
        let before = runs(flags.drop_last());
        let at = flags.len() - 1;
        if !flags.last() {
            before
        } else if before.len() > 0 && before.last().1 == at - 1 {
            before.drop_last().push((before.last().0, at))
        } else {
            before.push((at, at))
        }
    }
}

pub open spec fn run_views(found: Seq<(usize, usize)>) -> Seq<(int, int)> {
    found.map_values(|run: (usize, usize)| (run.0 as int, run.1 as int))
}

/// Runs stand in order with something unset between them, and hold exactly what is set.
pub proof fn law_runs_are_what_is_set(flags: Seq<bool>)
    ensures
        forall|i: int|
            0 <= i < runs(flags).len() ==> 0 <= (#[trigger] runs(flags)[i]).0 <= runs(flags)[i].1
                < flags.len(),
        forall|i: int, j: int|
            0 <= i < j < runs(flags).len() ==> (#[trigger] runs(flags)[i]).1 + 1 < (
            #[trigger] runs(flags)[j]).0,
        forall|k: int|
            #![trigger flags[k]]
            0 <= k < flags.len() ==> (flags[k] <==> exists|i: int|
                0 <= i < runs(flags).len() && (#[trigger] runs(flags)[i]).0 <= k
                    <= runs(flags)[i].1),
    decreases flags.len(),
{
    if flags.len() > 0 {
        let rest = flags.drop_last();
        law_runs_are_what_is_set(rest);
        let before = runs(rest);
        let all = runs(flags);
        let at = flags.len() - 1;
        assert forall|k: int| #![trigger flags[k]] 0 <= k < flags.len() implies (flags[k]
            <==> exists|i: int|
            0 <= i < all.len() && (#[trigger] all[i]).0 <= k <= all[i].1) by {
            if k < at {
                assert(flags[k] == rest[k]);
                if flags[k] {
                    let i = choose|i: int|
                        0 <= i < before.len() && (#[trigger] before[i]).0 <= k <= before[i].1;
                    assert(all[i].0 <= k <= all[i].1);
                } else if exists|i: int|
                    0 <= i < all.len() && (#[trigger] all[i]).0 <= k <= all[i].1 {
                    let i = choose|i: int|
                        0 <= i < all.len() && (#[trigger] all[i]).0 <= k <= all[i].1;
                    if i < before.len() {
                        assert(before[i].0 <= k <= before[i].1);
                    }
                }
            } else {
                if flags[k] {
                    assert(all[all.len() - 1].0 <= k <= all[all.len() - 1].1);
                }
            }
        }
    }
}

/// The runs of what is set.
pub fn runs_in(flags: &Vec<bool>) -> (r: Vec<(usize, usize)>)
    ensures
        run_views(r@) == runs(flags@),
        forall|i: int| 0 <= i < r@.len() ==> (#[trigger] r@[i]).0 <= r@[i].1 < flags@.len(),
        forall|i: int| 0 <= i < r@.len() ==> flags@[(#[trigger] r@[i]).0 as int],
{
    let mut out: Vec<(usize, usize)> = Vec::new();
    let mut i: usize = 0;
    assert(flags@.take(0) =~= seq![]);
    assert(run_views(out@) =~= seq![]);
    while i < flags.len()
        invariant
            i <= flags@.len(),
            run_views(out@) == runs(flags@.take(i as int)),
            forall|k: int| 0 <= k < out@.len() ==> (#[trigger] out@[k]).0 <= out@[k].1 < i,
            forall|k: int| 0 <= k < out@.len() ==> flags@[(#[trigger] out@[k]).0 as int],
        decreases flags@.len() - i,
    {
        let ghost before = run_views(out@);
        proof {
            assert(flags@.take(i + 1).drop_last() =~= flags@.take(i as int));
            assert(flags@.take(i + 1).last() == flags@[i as int]);
        }
        if flags[i] {
            let n: usize = out.len();
            if n > 0 && out[n - 1].1 + 1 == i {
                assert(before[n - 1].1 == i - 1);
                let first: usize = out[n - 1].0;
                out.pop();
                out.push((first, i));
                assert(run_views(out@) =~= before.drop_last().push((before.last().0, i as int)));
            } else {
                out.push((i, i));
                assert(run_views(out@) =~= before.push((i as int, i as int)));
            }
        }
        i = i + 1;
    }
    assert(flags@.take(i as int) =~= flags@);
    out
}

// ---------------------------------------------------------------------------
// Black
// ---------------------------------------------------------------------------

pub open spec fn all_wf(samples: Seq<FrameStat>) -> bool {
    forall|i: int| 0 <= i < samples.len() ==> (#[trigger] samples[i]).at.wf()
}

pub open spec fn black_flags(samples: Seq<FrameStat>, most: i64) -> Seq<bool> {
    samples.map_values(|sample: FrameStat| sample.luma <= most)
}

/// The stretch that a run of black samples stands for.
pub open spec fn black_span(
    samples: Seq<FrameStat>,
    run: (int, int),
    every: Time,
    end: Time,
) -> Span {
    Span { start: samples[run.0].at, end: samples[run.1].at.spec_plus(every).spec_min(end) }
}

pub open spec fn black_spans(
    samples: Seq<FrameStat>,
    found: Seq<(int, int)>,
    every: Time,
    end: Time,
) -> Seq<Span> {
    found.map_values(|run: (int, int)| black_span(samples, run, every, end))
}

/// Whether the end of every black stretch can be stored.
pub open spec fn black_fits(samples: Seq<FrameStat>, most: i64, every: Time) -> bool {
    forall|i: int|
        0 <= i < runs(black_flags(samples, most)).len() ==> samples[(#[trigger] runs(
            black_flags(samples, most),
        )[i]).1].at.sum_fits(every)
}

/// The stretches that are black, from the first black sample to one interval behind the last.
pub fn black_runs(samples: &Vec<FrameStat>, most: i64, every: Time, end: Time) -> (r: Option<
    Vec<Span>,
>)
    requires
        all_wf(samples@),
        every.wf(),
    ensures
        r is Some <==> black_fits(samples@, most, every),
        r is Some ==> r->0@ == black_spans(
            samples@,
            runs(black_flags(samples@, most)),
            every,
            end,
        ),
{
    let mut flags: Vec<bool> = Vec::new();
    let mut i: usize = 0;
    while i < samples.len()
        invariant
            i <= samples@.len(),
            flags@ =~= black_flags(samples@, most).take(i as int),
        decreases samples@.len() - i,
    {
        flags.push(samples[i].luma <= most);
        i = i + 1;
    }
    assert(flags@ =~= black_flags(samples@, most));
    let found = runs_in(&flags);
    let ghost all = runs(flags@);
    let mut out: Vec<Span> = Vec::new();
    let mut i: usize = 0;
    while i < found.len()
        invariant
            i <= found@.len(),
            all_wf(samples@),
            every.wf(),
            flags@ == black_flags(samples@, most),
            flags@.len() == samples@.len(),
            all == runs(flags@),
            run_views(found@) == all,
            forall|k: int|
                0 <= k < found@.len() ==> (#[trigger] found@[k]).0 <= found@[k].1 < flags@.len(),
            out@ =~= black_spans(samples@, all, every, end).take(i as int),
            forall|k: int| 0 <= k < i ==> samples@[(#[trigger] all[k]).1].at.sum_fits(every),
        decreases found@.len() - i,
    {
        let (first, last) = found[i];
        assert(all[i as int] == (first as int, last as int));
        match samples[last].at.checked_plus(&every) {
            Some(sum) => out.push(Span { start: samples[first].at, end: sum.min(end) }),
            None => {
                return None;
            },
        }
        i = i + 1;
    }
    assert(out@ =~= black_spans(samples@, all, every, end));
    Some(out)
}

// ---------------------------------------------------------------------------
// Frozen
// ---------------------------------------------------------------------------

/// Whether a sample shows the picture of the one before it, and not a black one.
pub open spec fn is_still(samples: Seq<FrameStat>, i: int, options: AnalyzeOptions) -> bool {
    i > 0 && samples[i].change < options.freeze_change && samples[i].luma > options.black_luma
}

pub open spec fn still_flags(samples: Seq<FrameStat>, options: AnalyzeOptions) -> Seq<bool> {
    Seq::new(samples.len(), |i: int| is_still(samples, i, options))
}

/// The stretch that a run of still samples stands for, which starts with the sample before.
pub open spec fn still_span(samples: Seq<FrameStat>, run: (int, int)) -> Span {
    Span { start: samples[run.0 - 1].at, end: samples[run.1].at }
}

/// The stretches of some runs that last long enough.
pub open spec fn still_spans(samples: Seq<FrameStat>, found: Seq<(int, int)>, least: Time) -> Seq<
    Span,
>
    decreases found.len(),
{
    if found.len() == 0 {
        seq![]
    } else {
        let before = still_spans(samples, found.drop_last(), least);
        let span = still_span(samples, found.last());
        if least.le(span.length()) {
            before.push(span)
        } else {
            before
        }
    }
}

pub open spec fn still_fits(samples: Seq<FrameStat>, options: AnalyzeOptions) -> bool {
    forall|i: int|
        0 <= i < runs(still_flags(samples, options)).len() ==> still_span(
            samples,
            #[trigger] runs(still_flags(samples, options))[i],
        ).measurable()
}

/// The stretches in which the picture does not change for long enough.
pub fn frozen_runs(samples: &Vec<FrameStat>, options: &AnalyzeOptions) -> (r: Option<Vec<Span>>)
    requires
        all_wf(samples@),
    ensures
        r is Some <==> still_fits(samples@, *options),
        r is Some ==> r->0@ == still_spans(
            samples@,
            runs(still_flags(samples@, *options)),
            options.min_freeze,
        ),
{
    let mut flags: Vec<bool> = Vec::new();
    let mut i: usize = 0;
    while i < samples.len()
        invariant
            i <= samples@.len(),
            flags@ =~= still_flags(samples@, *options).take(i as int),
        decreases samples@.len() - i,
    {
        flags.push(
            i > 0 && samples[i].change < options.freeze_change && samples[i].luma
                > options.black_luma,
        );
        i = i + 1;
    }
    assert(flags@ =~= still_flags(samples@, *options));
    let found = runs_in(&flags);
    let ghost all = runs(flags@);
    let mut out: Vec<Span> = Vec::new();
    let mut i: usize = 0;
    assert(all.take(0) =~= seq![]);
    while i < found.len()
        invariant
            i <= found@.len(),
            all_wf(samples@),
            flags@ == still_flags(samples@, *options),
            flags@.len() == samples@.len(),
            all == runs(flags@),
            run_views(found@) == all,
            forall|k: int|
                0 <= k < found@.len() ==> (#[trigger] found@[k]).0 <= found@[k].1 < flags@.len(),
            forall|k: int| 0 <= k < found@.len() ==> flags@[(#[trigger] found@[k]).0 as int],
            out@ == still_spans(samples@, all.take(i as int), options.min_freeze),
            forall|k: int| 0 <= k < i ==> still_span(samples@, #[trigger] all[k]).measurable(),
        decreases found@.len() - i,
    {
        let (first, last) = found[i];
        proof {
            assert(all[i as int] == (first as int, last as int));
            assert(flags@[first as int]);
            assert(all.take(i + 1).drop_last() =~= all.take(i as int));
        }
        let span = Span { start: samples[first - 1].at, end: samples[last].at };
        match span.end.checked_minus(&span.start) {
            Some(length) => {
                if options.min_freeze.at_most(&length) {
                    out.push(span);
                }
            },
            None => {
                assert(!still_span(samples@, all[i as int]).measurable());
                return None;
            },
        }
        i = i + 1;
    }
    assert(all.take(i as int) =~= all);
    Some(out)
}

/// Nothing is reported both as black and as standing still: a still run holds no black sample.
pub proof fn law_black_is_not_frozen(samples: Seq<FrameStat>, options: AnalyzeOptions, run: int, k: int)
    requires
        0 <= run < runs(still_flags(samples, options)).len(),
        runs(still_flags(samples, options))[run].0 <= k <= runs(
            still_flags(samples, options),
        )[run].1,
    ensures
        0 < k < samples.len(),
        !black_flags(samples, options.black_luma)[k],
{
    let flags = still_flags(samples, options);
    law_runs_are_what_is_set(flags);
    assert(0 <= k < flags.len());
    assert(flags[k]);
}

// ---------------------------------------------------------------------------
// Flashes
// ---------------------------------------------------------------------------

/// Whether the level at a sample goes away from both neighbours, the same way and far enough.
pub open spec fn is_flash(samples: Seq<FrameStat>, i: int, jump: i64) -> bool {
    let down = samples[i].luma - samples[i - 1].luma;
    let up = samples[i].luma - samples[i + 1].luma;
    &&& (down >= 0) == (up >= 0)
    &&& (down > jump || -down > jump)
    &&& (up > jump || -up > jump)
}

/// The instants of the flashes among the first `n` samples.
pub open spec fn flashes_before(samples: Seq<FrameStat>, jump: i64, n: int) -> Seq<Time>
    decreases n,
{
    if n <= 1 {
        seq![]
    } else {
        let before = flashes_before(samples, jump, n - 1);
        if is_flash(samples, n - 1, jump) {
            before.push(samples[n - 1].at)
        } else {
            before
        }
    }
}

/// The samples at which the picture lights up or darkens for a moment.
pub fn flashes(samples: &Vec<FrameStat>, jump: i64) -> (r: Vec<Time>)
    ensures
        r@ == flashes_before(samples@, jump, samples@.len() - 1),
{
    let mut out: Vec<Time> = Vec::new();
    let n: usize = samples.len();
    if n < 2 {
        return out;
    }
    let mut i: usize = 1;
    while i < n - 1
        invariant
            1 <= i <= n - 1,
            n == samples@.len(),
            out@ == flashes_before(samples@, jump, i as int),
        decreases n - i,
    {
        let before: i128 = samples[i - 1].luma as i128;
        let here: i128 = samples[i].luma as i128;
        let after: i128 = samples[i + 1].luma as i128;
        let most: i128 = jump as i128;
        let down: i128 = here - before;
        let up: i128 = here - after;
        if (down >= 0) == (up >= 0) && (down > most || -down > most) && (up > most || -up > most) {
            out.push(samples[i].at);
        }
        i = i + 1;
    }
    out
}

// ---------------------------------------------------------------------------
// Shot changes
// ---------------------------------------------------------------------------

/// The samples that differ from the one before by more than a threshold, each with the frames
/// the change lies between.
pub open spec fn changes_before(samples: Seq<FrameStat>, threshold: i64, n: int) -> Seq<(i64, i64)>
    decreases n,
{
    if n <= 1 {
        seq![]
    } else {
        let before = changes_before(samples, threshold, n - 1);
        if samples[n - 1].change > threshold {
            before.push((samples[n - 2].frame, samples[n - 1].frame))
        } else {
            before
        }
    }
}

/// Between which frames shots change.
pub fn cut_windows(samples: &Vec<FrameStat>, threshold: i64) -> (r: Vec<(i64, i64)>)
    ensures
        r@ == changes_before(samples@, threshold, samples@.len() as int),
{
    let mut out: Vec<(i64, i64)> = Vec::new();
    let n: usize = samples.len();
    if n < 2 {
        return out;
    }
    let mut i: usize = 1;
    while i < n
        invariant
            1 <= i <= n,
            n == samples@.len(),
            out@ == changes_before(samples@, threshold, i as int),
        decreases n - i,
    {
        if samples[i].change > threshold {
            out.push((samples[i - 1].frame, samples[i].frame));
        }
        i = i + 1;
    }
    out
}

/// A search for the frame on which a shot changes, known to lie behind `low` and not behind
/// `high`.
///
/// Each question asks whether the picture has changed yet between the frames `low` and
/// [`CutSearch::middle`]: across one cut that answer changes once.
#[derive(Clone, Copy, Debug, PartialEq, Eq, Structural)]
pub struct CutSearch {
    pub low: i64,
    pub high: i64,
}

impl CutSearch {
    pub open spec fn wf(self) -> bool {
        0 <= self.high - self.low <= i64::MAX
    }

    pub open spec fn is_over(self) -> bool {
        self.high - self.low <= 1
    }

    pub open spec fn mid(self) -> int {
        self.low + (self.high - self.low) / 2
    }

    /// The search after an answer.
    pub open spec fn next(self, changed: bool) -> CutSearch {
        if changed {
            CutSearch { low: self.low, high: self.mid() as i64 }
        } else {
            CutSearch { low: self.mid() as i64, high: self.high }
        }
    }

    /// The frame to compare with the frame `low`, or nothing where the search is over.
    pub fn middle(&self) -> (r: Option<i64>)
        requires
            self.wf(),
        ensures
            r == (if self.is_over() {
                None
            } else {
                Some(self.mid() as i64)
            }),
            r is Some ==> self.low < r->0 < self.high,
    {
        if self.high - self.low <= 1 {
            None
        } else {
            Some(self.low + (self.high - self.low) / 2)
        }
    }

    /// Takes the answer to the question asked.
    pub fn answer(&mut self, changed: bool)
        requires
            old(self).wf(),
            !old(self).is_over(),
        ensures
            *final(self) == old(self).next(changed),
            final(self).wf(),
            final(self).high - final(self).low < old(self).high - old(self).low,
    {
        let mid: i64 = self.low + (self.high - self.low) / 2;
        if changed {
            self.high = mid;
        } else {
            self.low = mid;
        }
    }

    /// The instant of the frame that was found.
    pub fn found(&self, fps: Fps) -> (r: Option<Time>)
        requires
            fps.wf(),
        ensures
            r is Some <==> Time::frames_fit(self.high as int, fps),
            r is Some ==> r->0 == Time::of_frames(self.high as int, fps),
    {
        Time::checked_from_frames(self.high, fps)
    }
}

/// A search that is answered by whether the frame asked about is at or behind a cut ends at
/// that cut.
pub open spec fn searched(search: CutSearch, cut: int) -> CutSearch
    decreases search.high - search.low,
{
    if search.is_over() || !search.wf() {
        search
    } else {
        searched(search.next(search.mid() >= cut), cut)
    }
}

/// Bisecting finds the frame a cut happens on, wherever in the interval that is.
pub proof fn law_a_cut_is_found_where_it_is(search: CutSearch, cut: int)
    requires
        search.wf(),
        search.low < cut <= search.high,
    ensures
        searched(search, cut).high == cut,
    decreases search.high - search.low,
{
    if !search.is_over() {
        law_a_cut_is_found_where_it_is(search.next(search.mid() >= cut), cut);
    }
}

/// Instants without those that repeat the one before.
pub open spec fn without_repeats(found: Seq<Time>) -> Seq<Time>
    decreases found.len(),
{
    if found.len() == 0 {
        seq![]
    } else {
        let before = without_repeats(found.drop_last());
        if before.len() > 0 && before.last().equals(found.last()) {
            before
        } else {
            before.push(found.last())
        }
    }
}

/// The shot changes that were found, each once.
pub fn cuts(found: &Vec<Time>) -> (r: Vec<Time>)
    ensures
        r@ == without_repeats(found@),
{
    let mut out: Vec<Time> = Vec::new();
    let mut i: usize = 0;
    assert(found@.take(0) =~= seq![]);
    while i < found.len()
        invariant
            i <= found@.len(),
            out@ == without_repeats(found@.take(i as int)),
        decreases found@.len() - i,
    {
        assert(found@.take(i + 1).drop_last() =~= found@.take(i as int));
        let n: usize = out.len();
        if !(n > 0 && out[n - 1].is_at(&found[i])) {
            out.push(found[i]);
        }
        i = i + 1;
    }
    assert(found@.take(i as int) =~= found@);
    out
}

// ---------------------------------------------------------------------------
// All of it
// ---------------------------------------------------------------------------

/// What sampled frames show.
#[derive(Clone, Debug)]
pub struct VideoAnalysis {
    pub samples: Vec<FrameStat>,
    pub black_ranges: Vec<Span>,
    /// Stretches without movement that are not black.
    pub frozen_ranges: Vec<Span>,
    pub flashes: Vec<Time>,
    pub scene_cuts: Vec<Time>,
    /// How often samples were taken: what is shorter can have gone unseen.
    pub every: Time,
}

/// Runs every detector over the samples of a range that ends at `end`. `found` holds the instant
/// of each shot change in turn. Nothing comes back where an instant cannot be stored.
pub fn analyze(
    samples: Vec<FrameStat>,
    options: &AnalyzeOptions,
    end: Time,
    found: &Vec<Time>,
) -> (r: Option<VideoAnalysis>)
    requires
        all_wf(samples@),
        options.every.wf(),
    ensures
        r is Some <==> black_fits(samples@, options.black_luma, options.every) && still_fits(
            samples@,
            *options,
        ),
        r matches Some(made) ==> {
            &&& made.samples@ == samples@
            &&& made.black_ranges@ == black_spans(
                samples@,
                runs(black_flags(samples@, options.black_luma)),
                options.every,
                end,
            )
            &&& made.frozen_ranges@ == still_spans(
                samples@,
                runs(still_flags(samples@, *options)),
                options.min_freeze,
            )
            &&& made.flashes@ == flashes_before(samples@, options.flash_jump, samples@.len() - 1)
            &&& made.scene_cuts@ == without_repeats(found@)
            &&& made.every == options.every
        },
{
    let black_ranges = match black_runs(&samples, options.black_luma, options.every, end) {
        Some(spans) => spans,
        None => {
            return None;
        },
    };
    let frozen_ranges = match frozen_runs(&samples, options) {
        Some(spans) => spans,
        None => {
            return None;
        },
    };
    let flashes = flashes(&samples, options.flash_jump);
    let scene_cuts = cuts(found);
    Some(
        VideoAnalysis {
            samples,
            black_ranges,
            frozen_ranges,
            flashes,
            scene_cuts,
            every: options.every,
        },
    )
}

} // verus!
