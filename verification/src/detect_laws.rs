//! What the detectors have to find, and what they must not.

use crate::analyze::{AnalyzeOptions, FrameStat};
use crate::detect::{
    black_flags, black_spans, changes_before, flashes_before, is_flash, is_still,
    law_runs_are_what_is_set, runs, still_flags, still_span, still_spans, without_repeats,
};
use crate::time::{Span, Time};
use vstd::prelude::*;

verus! {

/// Whether two instants are one number of seconds.
pub open spec fn same_instant(a: Time, b: Time) -> bool {
    a.secs.num * b.secs.den == b.secs.num * a.secs.den
}

/// Every shot change that was found is reported.
pub proof fn law_every_shot_change_is_reported(found: Seq<Time>, i: int) -> (j: int)
    requires
        0 <= i < found.len(),
    ensures
        0 <= j < without_repeats(found).len(),
        same_instant(without_repeats(found)[j], found[i]),
    decreases found.len(),
{
    let rest = found.drop_last();
    let before = without_repeats(rest);
    let all = without_repeats(found);
    if i < rest.len() {
        let j = law_every_shot_change_is_reported(rest, i);
        assert(all[j] == before[j]);
        j
    } else {
        all.len() - 1
    }
}

/// What is reported as a shot change was found as one.
pub proof fn law_only_what_was_found_is_a_shot_change(found: Seq<Time>, j: int) -> (i: int)
    requires
        0 <= j < without_repeats(found).len(),
    ensures
        0 <= i < found.len(),
        found[i] == without_repeats(found)[j],
        j <= i,
    decreases found.len(),
{
    let rest = found.drop_last();
    if j < without_repeats(rest).len() {
        law_only_what_was_found_is_a_shot_change(rest, j)
    } else {
        lemma_no_more_than_found(rest);
        found.len() - 1
    }
}

proof fn lemma_no_more_than_found(found: Seq<Time>)
    ensures
        without_repeats(found).len() <= found.len(),
    decreases found.len(),
{
    if found.len() > 0 {
        lemma_no_more_than_found(found.drop_last());
    }
}

/// No two neighbours among the shot changes are one instant.
pub proof fn law_neighbouring_shot_changes_differ(found: Seq<Time>, j: int)
    requires
        0 <= j,
        j + 1 < without_repeats(found).len(),
    ensures
        !same_instant(without_repeats(found)[j], without_repeats(found)[j + 1]),
    decreases found.len(),
{
    let rest = found.drop_last();
    let before = without_repeats(rest);
    if j + 1 < before.len() {
        law_neighbouring_shot_changes_differ(rest, j);
    }
}

/// Whether a sample is brighter than both its neighbours, or darker than both, by more than `jump`.
pub open spec fn stands_out(samples: Seq<FrameStat>, i: int, jump: int) -> bool {
    let (before, here, after) = (samples[i - 1].luma, samples[i].luma, samples[i + 1].luma);
    ||| here > before + jump && here > after + jump
    ||| here < before - jump && here < after - jump
}

/// Every sample that stands out from both its neighbours is reported as a flash.
pub proof fn law_every_flash_is_reported(samples: Seq<FrameStat>, jump: i64, n: int, i: int) -> (k:
    int)
    requires
        jump >= 0,
        1 <= i < n < samples.len(),
        stands_out(samples, i, jump as int),
    ensures
        0 <= k < flashes_before(samples, jump, n).len(),
        flashes_before(samples, jump, n)[k] == samples[i].at,
    decreases n,
{
    if i < n - 1 {
        let k = law_every_flash_is_reported(samples, jump, n - 1, i);
        assert(flashes_before(samples, jump, n)[k] == flashes_before(samples, jump, n - 1)[k]);
        k
    } else {
        assert(is_flash(samples, i, jump));
        flashes_before(samples, jump, n).len() - 1
    }
}

/// What is reported as a flash is the instant of a sample that stands out from both its neighbours.
pub proof fn law_only_flashes_are_reported(samples: Seq<FrameStat>, jump: i64, n: int, k: int) -> (i:
    int)
    requires
        jump >= 0,
        n < samples.len(),
        0 <= k < flashes_before(samples, jump, n).len(),
    ensures
        1 <= i < n,
        stands_out(samples, i, jump as int),
        flashes_before(samples, jump, n)[k] == samples[i].at,
    decreases n,
{
    if k < flashes_before(samples, jump, n - 1).len() {
        law_only_flashes_are_reported(samples, jump, n - 1, k)
    } else {
        n - 1
    }
}

/// Every sample that differs from the one before by more than the threshold opens a search between
/// the frames of the two.
pub proof fn law_every_change_is_searched(
    samples: Seq<FrameStat>,
    threshold: i64,
    n: int,
    i: int,
) -> (k: int)
    requires
        1 <= i < n <= samples.len(),
        samples[i].change > threshold,
    ensures
        0 <= k < changes_before(samples, threshold, n).len(),
        changes_before(samples, threshold, n)[k].0 == samples[i - 1].frame,
        changes_before(samples, threshold, n)[k].1 == samples[i].frame,
    decreases n,
{
    if i < n - 1 {
        let k = law_every_change_is_searched(samples, threshold, n - 1, i);
        assert(changes_before(samples, threshold, n)[k] == changes_before(
            samples,
            threshold,
            n - 1,
        )[k]);
        k
    } else {
        changes_before(samples, threshold, n).len() - 1
    }
}

/// A search is opened only between two samples that differ by more than the threshold.
pub proof fn law_only_changes_are_searched(
    samples: Seq<FrameStat>,
    threshold: i64,
    n: int,
    k: int,
) -> (i: int)
    requires
        n <= samples.len(),
        0 <= k < changes_before(samples, threshold, n).len(),
    ensures
        1 <= i < n,
        samples[i].change > threshold,
        changes_before(samples, threshold, n)[k].0 == samples[i - 1].frame,
        changes_before(samples, threshold, n)[k].1 == samples[i].frame,
    decreases n,
{
    if k < changes_before(samples, threshold, n - 1).len() {
        law_only_changes_are_searched(samples, threshold, n - 1, k)
    } else {
        n - 1
    }
}

/// Whether the samples from `a` to `b` are black, and those beside them are not.
pub open spec fn black_from_to(samples: Seq<FrameStat>, most: i64, a: int, b: int) -> bool {
    &&& 0 <= a <= b < samples.len()
    &&& forall|k: int| a <= k <= b ==> (#[trigger] samples[k]).luma <= most
    &&& a > 0 ==> samples[a - 1].luma > most
    &&& b + 1 < samples.len() ==> samples[b + 1].luma > most
}

proof fn lemma_runs_are_longest(flags: Seq<bool>, i: int)
    requires
        0 <= i < runs(flags).len(),
    ensures
        ({
            let run = runs(flags)[i];
            &&& 0 <= run.0 <= run.1 < flags.len()
            &&& forall|k: int| run.0 <= k <= run.1 ==> #[trigger] flags[k]
            &&& run.0 > 0 ==> !flags[run.0 - 1]
            &&& run.1 + 1 < flags.len() ==> !flags[run.1 + 1]
        }),
{
    law_runs_are_what_is_set(flags);
    let all = runs(flags);
    let run = all[i];
    assert forall|k: int| run.0 <= k <= run.1 implies #[trigger] flags[k] by {
        assert(all[i].0 <= k <= all[i].1);
    }
    if run.0 > 0 && flags[run.0 - 1] {
        let j = choose|j: int|
            0 <= j < all.len() && (#[trigger] all[j]).0 <= run.0 - 1 <= all[j].1;
        if j < i {
            assert(all[j].1 + 1 < all[i].0);
        } else if j > i {
            assert(all[i].1 + 1 < all[j].0);
        }
    }
    if run.1 + 1 < flags.len() && flags[run.1 + 1] {
        let j = choose|j: int|
            0 <= j < all.len() && (#[trigger] all[j]).0 <= run.1 + 1 <= all[j].1;
        if j < i {
            assert(all[j].1 + 1 < all[i].0);
        } else if j > i {
            assert(all[i].1 + 1 < all[j].0);
        }
    }
}

/// Each black stretch starts with a black sample and goes on to an interval behind the last one
/// in a row, or to the end; and every black sample is in one of them.
pub proof fn law_black_stretches_are_the_black_samples(
    samples: Seq<FrameStat>,
    most: i64,
    every: Time,
    end: Time,
)
    ensures
        forall|i: int|
            0 <= i < black_spans(samples, runs(black_flags(samples, most)), every, end).len()
                ==> exists|a: int, b: int|
                #[trigger] black_from_to(samples, most, a, b) && (#[trigger] black_spans(
                    samples,
                    runs(black_flags(samples, most)),
                    every,
                    end,
                )[i]).start == samples[a].at && black_spans(
                    samples,
                    runs(black_flags(samples, most)),
                    every,
                    end,
                )[i].end == samples[b].at.spec_plus(every).spec_min(end),
        forall|k: int|
            0 <= k < samples.len() && (#[trigger] samples[k]).luma <= most ==> exists|
                i: int,
                a: int,
                b: int,
            |
                a <= k <= b && #[trigger] black_from_to(samples, most, a, b) && 0 <= i
                    < black_spans(samples, runs(black_flags(samples, most)), every, end).len() && (
                #[trigger] black_spans(
                    samples,
                    runs(black_flags(samples, most)),
                    every,
                    end,
                )[i]).start == samples[a].at,
{
    let flags = black_flags(samples, most);
    let found = runs(flags);
    let all = black_spans(samples, found, every, end);
    law_runs_are_what_is_set(flags);
    assert forall|i: int| 0 <= i < found.len() implies black_from_to(
        samples,
        most,
        (#[trigger] found[i]).0,
        found[i].1,
    ) by {
        lemma_runs_are_longest(flags, i);
        assert forall|k: int| found[i].0 <= k <= found[i].1 implies (#[trigger] samples[k]).luma
            <= most by {
            assert(flags[k]);
        }
    }
    assert forall|i: int| 0 <= i < all.len() implies exists|a: int, b: int|
        #[trigger] black_from_to(samples, most, a, b) && (#[trigger] all[i]).start == samples[a].at
            && all[i].end == samples[b].at.spec_plus(every).spec_min(end) by {
        assert(black_from_to(samples, most, found[i].0, found[i].1));
    }
    assert forall|k: int| 0 <= k < samples.len() && (#[trigger] samples[k]).luma <= most implies exists|
        i: int,
        a: int,
        b: int,
    |
        a <= k <= b && #[trigger] black_from_to(samples, most, a, b) && 0 <= i < all.len() && (
        #[trigger] all[i]).start == samples[a].at by {
        assert(flags[k]);
        let i = choose|i: int|
            0 <= i < found.len() && (#[trigger] found[i]).0 <= k <= found[i].1;
        assert(black_from_to(samples, most, found[i].0, found[i].1));
        assert(all[i].start == samples[found[i].0].at);
    }
}

/// Whether nothing changes from sample `a` to sample `b`, of which none behind `a` is black, while
/// something does before and after.
pub open spec fn still_from_to(
    samples: Seq<FrameStat>,
    options: AnalyzeOptions,
    a: int,
    b: int,
) -> bool {
    &&& 0 <= a < b < samples.len()
    &&& forall|k: int|
        a < k <= b ==> (#[trigger] samples[k]).change < options.freeze_change && samples[k].luma
            > options.black_luma
    &&& a > 0 ==> samples[a].change >= options.freeze_change || samples[a].luma
        <= options.black_luma
    &&& b + 1 < samples.len() ==> samples[b + 1].change >= options.freeze_change || samples[b
        + 1].luma <= options.black_luma
}

proof fn lemma_long_stills(samples: Seq<FrameStat>, found: Seq<(int, int)>, least: Time)
    ensures
        forall|i: int|
            0 <= i < found.len() && least.le(still_span(samples, #[trigger] found[i]).length())
                ==> still_spans(samples, found, least).contains(still_span(samples, found[i])),
        forall|j: int|
            0 <= j < still_spans(samples, found, least).len() ==> exists|i: int|
                0 <= i < found.len() && #[trigger] still_spans(samples, found, least)[j]
                    == still_span(samples, #[trigger] found[i]) && least.le(
                    still_spans(samples, found, least)[j].length(),
                ),
    decreases found.len(),
{
    if found.len() > 0 {
        let rest = found.drop_last();
        lemma_long_stills(samples, rest, least);
        let before = still_spans(samples, rest, least);
        let all = still_spans(samples, found, least);
        assert forall|i: int|
            0 <= i < found.len() && least.le(still_span(samples, #[trigger] found[i]).length()) implies all.contains(
            still_span(samples, found[i]),
        ) by {
            let want = still_span(samples, found[i]);
            if i < rest.len() {
                assert(found[i] == rest[i]);
                let k = choose|k: int| 0 <= k < before.len() && before[k] == want;
                assert(all[k] == want);
            } else {
                assert(all[all.len() - 1] == want);
            }
        }
        assert forall|j: int| 0 <= j < all.len() implies exists|i: int|
            0 <= i < found.len() && #[trigger] all[j] == still_span(samples, #[trigger] found[i])
                && least.le(all[j].length()) by {
            if j < before.len() {
                assert(all[j] == before[j]);
                let i = choose|i: int|
                    0 <= i < rest.len() && before[j] == still_span(samples, #[trigger] rest[i])
                        && least.le(before[j].length());
                assert(found[i] == rest[i]);
            } else {
                assert(all[j] == still_span(samples, found[found.len() - 1]));
            }
        }
    }
}

/// What is reported as frozen goes from a sample to the last one that shows the same picture, and
/// is no shorter than asked.
pub proof fn law_only_still_samples_are_frozen(
    samples: Seq<FrameStat>,
    options: AnalyzeOptions,
    j: int,
) -> (r: (int, int))
    requires
        0 <= j < still_spans(
            samples,
            runs(still_flags(samples, options)),
            options.min_freeze,
        ).len(),
    ensures
        still_from_to(samples, options, r.0, r.1),
        still_spans(samples, runs(still_flags(samples, options)), options.min_freeze)[j] == (Span {
            start: samples[r.0].at,
            end: samples[r.1].at,
        }),
        options.min_freeze.le(samples[r.1].at.spec_minus(samples[r.0].at)),
{
    let flags = still_flags(samples, options);
    let found = runs(flags);
    let least = options.min_freeze;
    let all = still_spans(samples, found, least);
    law_runs_are_what_is_set(flags);
    lemma_long_stills(samples, found, least);
    assert(all[j] == all[j]);
    let i = choose|i: int|
        0 <= i < found.len() && all[j] == still_span(samples, #[trigger] found[i]) && least.le(
            all[j].length(),
        );
    let run = found[i];
    lemma_runs_are_longest(flags, i);
    assert(flags[run.0]);
    assert(is_still(samples, run.0, options));
    assert forall|k: int| run.0 - 1 < k <= run.1 implies (#[trigger] samples[k]).change
        < options.freeze_change && samples[k].luma > options.black_luma by {
        assert(flags[k]);
    }
    if run.0 - 1 > 0 {
        assert(!is_still(samples, run.0 - 1, options));
    }
    if run.1 + 1 < samples.len() {
        assert(!is_still(samples, run.1 + 1, options));
    }
    (run.0 - 1, run.1)
}

/// Every stretch of samples that show one picture, and that is no shorter than asked, is reported
/// as frozen.
pub proof fn law_every_still_stretch_is_frozen(
    samples: Seq<FrameStat>,
    options: AnalyzeOptions,
    a: int,
    b: int,
)
    requires
        still_from_to(samples, options, a, b),
        options.min_freeze.le(samples[b].at.spec_minus(samples[a].at)),
    ensures
        still_spans(
            samples,
            runs(still_flags(samples, options)),
            options.min_freeze,
        ).contains(Span { start: samples[a].at, end: samples[b].at }),
{
    let flags = still_flags(samples, options);
    let found = runs(flags);
    let least = options.min_freeze;
    law_runs_are_what_is_set(flags);
    lemma_long_stills(samples, found, least);
    assert(samples[a + 1].change < options.freeze_change);
    assert(flags[a + 1]);
    let i = choose|i: int|
        0 <= i < found.len() && (#[trigger] found[i]).0 <= a + 1 <= found[i].1;
    let run = found[i];
    lemma_runs_are_longest(flags, i);
    if run.0 <= a {
        assert(flags[a]);
        assert(is_still(samples, a, options));
    }
    assert(run.0 == a + 1);
    if run.1 > b {
        assert(flags[b + 1]);
        assert(is_still(samples, b + 1, options));
    }
    if run.1 < b {
        assert(samples[run.1 + 1].change < options.freeze_change);
        assert(is_still(samples, run.1 + 1, options));
        assert(flags[run.1 + 1]);
    }
    assert(still_span(samples, found[i]) == (Span { start: samples[a].at, end: samples[b].at }));
}

} // verus!
