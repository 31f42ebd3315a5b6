//! When the rules on the mix speak, and what they say in numbers.

use crate::analyze::seconds;
use crate::coverage::clip_span;
use crate::finding::{FindingView, LoudnessProfile, Severity};
use crate::lint_media::{
    best_overlap, best_with, better, black_findings, clipping_finding, duck_finding, duck_window,
    flash_findings, frozen_findings, is_ducked, longest, loudness_finding, mix_findings,
    peak_finding, pixel_findings, silence_findings, Heard, Seen,
};
use crate::lint_source::one;
use crate::project::{Clip, Track};
use crate::rational::Rat;
use crate::time::{Fps, Span, Time};
use vstd::prelude::*;

verus! {

/// Whether some finding is of a rule.
pub open spec fn tells(findings: Seq<FindingView>, rule: Seq<char>) -> bool {
    exists|i: int| 0 <= i < findings.len() && (#[trigger] findings[i]).rule == rule
}

proof fn lemma_rules_of_sound()
    ensures
        "loudness-out-of-spec"@ != "true-peak"@,
        "loudness-out-of-spec"@ != "clipping"@,
        "loudness-out-of-spec"@ != "silence-gap"@,
        "true-peak"@ != "clipping"@,
        "true-peak"@ != "silence-gap"@,
        "clipping"@ != "silence-gap"@,
{
    reveal_strlit("loudness-out-of-spec");
    reveal_strlit("true-peak");
    reveal_strlit("clipping");
    reveal_strlit("silence-gap");
    assert("loudness-out-of-spec"@.len() == 20);
    assert("true-peak"@.len() == 9);
    assert("clipping"@.len() == 8);
    assert("silence-gap"@.len() == 11);
}

/// The parts of what is told of a mix: at most one finding each on loudness, peak and clipping, and
/// one on every silence.
proof fn lemma_mix_parts(heard: Heard, profile: LoudnessProfile, rule: Seq<char>)
    requires
        rule == "loudness-out-of-spec"@ || rule == "true-peak"@ || rule == "clipping"@,
    ensures
        tells(mix_findings(heard, profile), rule) <==> ({
            ||| rule == "loudness-out-of-spec"@ && loudness_finding(heard, profile) is Some
            ||| rule == "true-peak"@ && peak_finding(heard) is Some
            ||| rule == "clipping"@ && clipping_finding(heard.clipped) is Some
        }),
{
    lemma_rules_of_sound();
    let a = one(loudness_finding(heard, profile));
    let b = one(peak_finding(heard));
    let c = one(clipping_finding(heard.clipped));
    let d = silence_findings(heard.silences@);
    let all = mix_findings(heard, profile);
    assert(all == a + b + c + d);
    if loudness_finding(heard, profile) is Some {
        assert(all[0] == a[0]);
    }
    if peak_finding(heard) is Some {
        assert(all[a.len() as int] == b[0]);
    }
    if clipping_finding(heard.clipped) is Some {
        assert(all[(a.len() + b.len()) as int] == c[0]);
    }
    if tells(all, rule) {
        let i = choose|i: int| 0 <= i < all.len() && (#[trigger] all[i]).rule == rule;
        if i < a.len() {
            assert(all[i] == a[i]);
        } else if i < a.len() + b.len() {
            assert(all[i] == b[i - a.len()]);
        } else if i < a.len() + b.len() + c.len() {
            assert(all[i] == c[i - a.len() - b.len()]);
        } else {
            assert(all[i] == d[i - a.len() - b.len() - c.len()]);
            assert(all[i].rule == "silence-gap"@);
        }
    }
}

/// A mix that can be heard is out of spec exactly if it is more than one loudness unit away from
/// the target of its profile, be it above or below; one that cannot be heard never is. Levels are
/// in millionths.
pub proof fn law_a_mix_off_its_target_is_told(heard: Heard, profile: LoudnessProfile, target: int)
    requires
        profile is YouTube ==> target == -14_000_000,
        profile is Podcast ==> target == -16_000_000,
        profile is Broadcast ==> target == -23_000_000,
    ensures
        tells(mix_findings(heard, profile), "loudness-out-of-spec"@) <==> heard.integrated
            > -60_000_000 && (heard.integrated > target + 1_000_000 || heard.integrated < target
            - 1_000_000),
{
    lemma_rules_of_sound();
    lemma_mix_parts(heard, profile, "loudness-out-of-spec"@);
}

/// Two audible mixes that are as far from the target, one above and one below, are judged alike.
pub proof fn law_too_quiet_is_as_wrong_as_too_loud(
    loud: Heard,
    quiet: Heard,
    profile: LoudnessProfile,
)
    requires
        loud.integrated > -60_000_000,
        quiet.integrated > -60_000_000,
        loud.integrated + quiet.integrated == 2 * profile.target() * 1_000_000,
    ensures
        tells(mix_findings(loud, profile), "loudness-out-of-spec"@) <==> tells(
            mix_findings(quiet, profile),
            "loudness-out-of-spec"@,
        ),
{
    let target = profile.target() * 1_000_000;
    law_a_mix_off_its_target_is_told(loud, profile, target);
    law_a_mix_off_its_target_is_told(quiet, profile, target);
}

/// What is told of a mix off its target is what was measured, and what is asked for.
pub proof fn law_loudness_is_told_as_measured(heard: Heard, profile: LoudnessProfile)
    requires
        loudness_finding(heard, profile) is Some,
    ensures
        loudness_finding(heard, profile)->0.severity == Severity::Warning,
        loudness_finding(heard, profile)->0.value == Some(
            Rat { num: heard.integrated, den: 1_000_000 },
        ),
        profile is YouTube ==> loudness_finding(heard, profile)->0.required == Some(
            Rat { num: (-14) as i64, den: 1 },
        ),
        profile is Podcast ==> loudness_finding(heard, profile)->0.required == Some(
            Rat { num: (-16) as i64, den: 1 },
        ),
        profile is Broadcast ==> loudness_finding(heard, profile)->0.required == Some(
            Rat { num: (-23) as i64, den: 1 },
        ),
{
}

/// A true peak above minus one decibel is an error, and no other is told.
pub proof fn law_a_peak_above_the_ceiling_is_told(heard: Heard, profile: LoudnessProfile)
    ensures
        tells(mix_findings(heard, profile), "true-peak"@) <==> heard.true_peak > -1_000_000,
        peak_finding(heard) matches Some(found) ==> found.severity == Severity::Error
            && found.value == Some(Rat { num: heard.true_peak, den: 1_000_000 }),
{
    lemma_rules_of_sound();
    lemma_mix_parts(heard, profile, "true-peak"@);
}

/// A single clipped sample is an error.
pub proof fn law_any_clipped_sample_is_told(heard: Heard, profile: LoudnessProfile)
    ensures
        tells(mix_findings(heard, profile), "clipping"@) <==> heard.clipped >= 1,
        clipping_finding(heard.clipped) matches Some(found) ==> found.severity == Severity::Error,
{
    lemma_rules_of_sound();
    lemma_mix_parts(heard, profile, "clipping"@);
}

/// Every silence is told, in order and behind the rest, as long as it lasts.
pub proof fn law_every_silence_is_told(heard: Heard, profile: LoudnessProfile, i: int)
    requires
        0 <= i < heard.silences@.len(),
    ensures
        ({
            let all = mix_findings(heard, profile);
            let at = all.len() - heard.silences@.len() + i;
            let silence = heard.silences@[i];
            &&& 0 <= at < all.len()
            &&& all[at].rule == "silence-gap"@
            &&& all[at].severity == Severity::Warning
            &&& all[at].value == Some(silence.end.spec_minus(silence.start).secs)
        }),
{
    let a = one(loudness_finding(heard, profile));
    let b = one(peak_finding(heard));
    let c = one(clipping_finding(heard.clipped));
    let d = silence_findings(heard.silences@);
    let all = mix_findings(heard, profile);
    assert(all == a + b + c + d);
    assert(all[a.len() + b.len() + c.len() + i] == d[i]);
}

/// Every black stretch, every frozen one and every flash is told, in that order.
pub proof fn law_everything_seen_is_told(seen: Seen, fps: Fps)
    ensures
        pixel_findings(seen, fps).len() == seen.black@.len() + seen.frozen@.len()
            + seen.flashes@.len(),
        forall|i: int|
            0 <= i < seen.black@.len() ==> (#[trigger] pixel_findings(seen, fps)[i]).rule
                == "black-frames"@ && pixel_findings(seen, fps)[i].value == Some(
                seen.black@[i].end.spec_minus(seen.black@[i].start).secs,
            ),
        forall|i: int|
            0 <= i < seen.frozen@.len() ==> (#[trigger] pixel_findings(seen, fps)[seen.black@.len()
                + i]).rule == "frozen-frames"@ && pixel_findings(seen, fps)[seen.black@.len()
                + i].value == Some(seen.frozen@[i].end.spec_minus(seen.frozen@[i].start).secs),
        forall|i: int|
            0 <= i < seen.flashes@.len() ==> (#[trigger] pixel_findings(seen, fps)[seen.black@.len()
                + seen.frozen@.len() + i]).rule == "flash"@,
{
    let a = black_findings(seen.black@);
    let b = frozen_findings(seen.frozen@);
    let c = flash_findings(seen.flashes@, fps.spec_frame_duration());
    let all = pixel_findings(seen, fps);
    assert(all == a + b + c);
    assert forall|i: int| 0 <= i < seen.black@.len() implies (#[trigger] all[i]).rule
        == "black-frames"@ && all[i].value == Some(
        seen.black@[i].end.spec_minus(seen.black@[i].start).secs,
    ) by {
        assert(all[i] == a[i]);
    }
    assert forall|i: int| 0 <= i < seen.frozen@.len() implies (#[trigger] all[a.len() + i]).rule
        == "frozen-frames"@ && all[a.len() + i].value == Some(
        seen.frozen@[i].end.spec_minus(seen.frozen@[i].start).secs,
    ) by {
        assert(all[a.len() + i] == b[i]);
    }
    assert forall|i: int| 0 <= i < seen.flashes@.len() implies (#[trigger] all[a.len() + b.len()
        + i]).rule == "flash"@ by {
        assert(all[a.len() + b.len() + i] == c[i]);
    }
}

// ---------------------------------------------------------------------------
// Ducking
// ---------------------------------------------------------------------------

/// Two tracks that are both audible drown each other exactly if they are less than six loudness
/// units apart, whichever is named first, and the one with the longest clip is to be pushed down.
pub proof fn law_music_is_told_where_it_drowns_a_voice(
    first: Track,
    second: Track,
    span: Span,
    left: i64,
    right: i64,
)
    ensures
        duck_finding(first, second, span, left, right) is Some <==> left > -60_000_000 && right
            > -60_000_000 && left - right < 6_000_000 && right - left < 6_000_000,
        duck_finding(first, second, span, left, right) is Some <==> duck_finding(
            second,
            first,
            span,
            right,
            left,
        ) is Some,
        duck_finding(first, second, span, left, right) matches Some(found) ==> {
            &&& found.rule == "unducked-music"@
            &&& longest(second.clips@).lt(longest(first.clips@)) ==> found.target == first.id@
            &&& longest(first.clips@).lt(longest(second.clips@)) ==> found.target == second.id@
            &&& found.value matches Some(apart) && apart.den == 1_000_000 && (apart.num == left
                - right || apart.num == right - left) && apart.num >= 0
        },
{
}

/// No clip of a track is longer than the longest, which is one of them.
pub proof fn law_the_longest_clip_is_the_longest(clips: Seq<Clip>, i: int)
    requires
        0 <= i < clips.len(),
        forall|k: int| 0 <= k < clips.len() ==> (#[trigger] clips[k]).duration.wf(),
    ensures
        longest(clips).wf(),
        clips[i].duration.le(longest(clips)),
        exists|k: int| 0 <= k < clips.len() && longest(clips) == (#[trigger] clips[k]).duration,
    decreases clips.len(),
{
    if clips.len() == 1 {
        assert(longest(clips) == clips[0].duration);
    } else {
        let rest = clips.drop_last();
        assert forall|k: int| 0 <= k < rest.len() implies (#[trigger] rest[k]).duration.wf() by {
            assert(rest[k] == clips[k]);
        }
        let j = if i < rest.len() {
            i
        } else {
            0
        };
        law_the_longest_clip_is_the_longest(rest, j);
        let k = choose|k: int| 0 <= k < rest.len() && longest(rest) == (#[trigger] rest[k]).duration;
        assert(clips[k] == rest[k]);
        let last = clips[clips.len() - 1];
        assert(last.duration.wf());
        if i < rest.len() {
            assert(clips[i] == rest[i]);
            if !last.duration.lt(longest(rest)) {
                lemma_le_trans(clips[i].duration, longest(rest), last.duration);
                assert(longest(clips) == clips[clips.len() - 1].duration);
            }
        }
    }
}

proof fn lemma_le_trans(a: Time, b: Time, c: Time)
    requires
        a.wf(),
        b.wf(),
        c.wf(),
        a.le(b),
        b.le(c),
    ensures
        a.le(c),
{
    let (p, q, r) = (a.secs, b.secs, c.secs);
    assert(p.num * r.den <= r.num * p.den) by (nonlinear_arith)
        requires
            p.num * q.den <= q.num * p.den,
            q.num * r.den <= r.num * q.den,
            p.den > 0,
            q.den > 0,
            r.den > 0,
    ;
}

/// Two tracks are measured against each other only where both play, for a second or more; and
/// not at all where one is muted.
pub proof fn law_tracks_are_measured_where_both_play(first: Track, second: Track)
    ensures
        duck_window(first, second) matches Some(span) ==> {
            &&& !first.muted && !second.muted
            &&& !span.end.spec_minus(span.start).lt(seconds(1))
            &&& exists|i: int, j: int|
                0 <= i < first.clips@.len() && 0 <= j < second.clips@.len() && span == clip_span(
                    #[trigger] first.clips@[i],
                ).shared(clip_span(#[trigger] second.clips@[j]))
        },
        !first.muted && !second.muted && !is_ducked(first, second.id@) && !is_ducked(
            second,
            first.id@,
        ) && duck_window(first, second) is None ==> (best_overlap(first.clips@, second.clips@) matches Some(
            span,
        ) ==> span.end.spec_minus(span.start).lt(seconds(1))),
{
    lemma_overlap_is_shared(first.clips@, second.clips@);
}

proof fn lemma_with_is_shared(left: Clip, right: Seq<Clip>, best: Option<Span>)
    ensures
        best_with(left, right, best) == best || exists|j: int|
            0 <= j < right.len() && best_with(left, right, best) == Some(
                clip_span(left).shared(clip_span(#[trigger] right[j])),
            ),
    decreases right.len(),
{
    if right.len() > 0 {
        let rest = right.drop_last();
        lemma_with_is_shared(left, rest, best);
        let before = best_with(left, rest, best);
        let span = clip_span(left).shared(clip_span(right.last()));
        if better(before, span) == before {
            if before != best {
                let j = choose|j: int|
                    0 <= j < rest.len() && before == Some(
                        clip_span(left).shared(clip_span(#[trigger] rest[j])),
                    );
                assert(right[j] == rest[j]);
            }
        } else {
            assert(right[right.len() - 1] == right.last());
        }
    }
}

proof fn lemma_overlap_is_shared(left: Seq<Clip>, right: Seq<Clip>)
    ensures
        best_overlap(left, right) matches Some(span) ==> exists|i: int, j: int|
            0 <= i < left.len() && 0 <= j < right.len() && span == clip_span(
                #[trigger] left[i],
            ).shared(clip_span(#[trigger] right[j])),
    decreases left.len(),
{
    if left.len() > 0 {
        let rest = left.drop_last();
        lemma_overlap_is_shared(rest, right);
        let before = best_overlap(rest, right);
        lemma_with_is_shared(left.last(), right, before);
        let all = best_overlap(left, right);
        if all == before {
            if before is Some {
                let (i, j) = choose|i: int, j: int|
                    0 <= i < rest.len() && 0 <= j < right.len() && before->0 == clip_span(
                        #[trigger] rest[i],
                    ).shared(clip_span(#[trigger] right[j]));
                assert(left[i] == rest[i]);
            }
        } else {
            let j = choose|j: int|
                0 <= j < right.len() && all == Some(
                    clip_span(left.last()).shared(clip_span(#[trigger] right[j])),
                );
            assert(left[left.len() - 1] == left.last());
        }
    }
}

} // verus!
