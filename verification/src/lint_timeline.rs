//! Rules on how clips stand on a timeline.

use crate::coverage::{sequence_sane, spans_wf, track_sane, uncovered};
use crate::finding::{push_secs3, secs3, zero, Finding, FindingView, Severity};
use crate::project::{Clip, Sequence, Track, TrackKind, Transition, TransitionKind};
use crate::rational::Rat;
use crate::time::{Span, Time};
use crate::views::{push_view, views};
use vstd::prelude::*;

verus! {

// ---------------------------------------------------------------------------
// Gaps
// ---------------------------------------------------------------------------

/// What is to be seen or heard of a hole, in words.
pub open spec fn hole_text(track: Track, hole: Span) -> Seq<char> {
    secs3(hole.length()) + "s of "@ + (if track.kind == TrackKind::Video {
        "black"@
    } else {
        "silence"@
    }) + " on "@ + track.name@ + " between "@ + hole.start.text() + " and "@ + hole.end.text()
}

pub fn describe_hole(track: &Track, hole: Span) -> (r: String)
    requires
        hole.wf(),
        hole.measurable(),
    ensures
        r@ == hole_text(*track, hole),
{
    let mut out = String::new();
    push_secs3(&mut out, hole.duration());
    assert(out@ =~= secs3(hole.length()));
    out.append("s of ");
    if track.kind == TrackKind::Video {
        out.append("black");
    } else {
        out.append("silence");
    }
    out.append(" on ");
    out.append(track.name.as_str());
    out.append(" between ");
    out.append(hole.start.to_text().as_str());
    out.append(" and ");
    out.append(hole.end.to_text().as_str());
    out
}

pub open spec fn gap_finding(track: Track, hole: Span) -> FindingView {
    FindingView {
        rule: "gap"@,
        severity: Severity::Warning,
        target: track.id@,
        detail: hole_text(track, hole),
        value: Some(hole.length().secs),
        required: Some(zero()),
    }
}

pub open spec fn gap_findings(track: Track, holes: Seq<Span>) -> Seq<FindingView> {
    holes.map_values(|hole: Span| gap_finding(track, hole))
}

pub open spec fn all_measurable(spans: Seq<Span>) -> bool {
    forall|i: int| 0 <= i < spans.len() ==> (#[trigger] spans[i]).measurable()
}

fn push_gaps(out: &mut Vec<Finding>, track: &Track, holes: &Vec<Span>)
    requires
        spans_wf(holes@),
        all_measurable(holes@),
    ensures
        views(final(out)@) == views(old(out)@) + gap_findings(*track, holes@),
{
    let ghost before = views(out@);
    let mut i: usize = 0;
    assert(gap_findings(*track, holes@).take(0) =~= seq![]);
    assert(before + Seq::<FindingView>::empty() =~= before);
    while i < holes.len()
        invariant
            i <= holes@.len(),
            spans_wf(holes@),
            all_measurable(holes@),
            views(out@) == before + gap_findings(*track, holes@).take(i as int),
        decreases holes@.len() - i,
    {
        let hole = holes[i];
        assert(holes@[i as int].wf() && holes@[i as int].measurable());
        push_view(
            out,
            Finding {
                rule: "gap",
                severity: Severity::Warning,
                target: track.id.as_str().to_owned(),
                detail: describe_hole(track, hole),
                value: Some(hole.duration().secs),
                required: Some(Rat { num: 0, den: 1 }),
            },
        );
        assert(gap_findings(*track, holes@).take(i + 1) =~= gap_findings(*track, holes@).take(
            i as int,
        ).push(gap_finding(*track, hole)));
        i = i + 1;
        assert(views(out@) =~= before + gap_findings(*track, holes@).take(i as int));
    }
    assert(gap_findings(*track, holes@).take(i as int) =~= gap_findings(*track, holes@));
}

// ---------------------------------------------------------------------------
// Overlaps
// ---------------------------------------------------------------------------

/// Whether a clip starts before the one in front of it ends.
pub open spec fn clips_collide(first: Clip, second: Clip) -> bool {
    second.start.lt(first.spec_end())
}

pub open spec fn overlap_length(first: Clip, second: Clip) -> Time {
    first.spec_end().spec_minus(second.start)
}

pub open spec fn overlap_finding(track: Track, first: Clip, second: Clip) -> FindingView {
    FindingView {
        rule: "overlap"@,
        severity: Severity::Error,
        target: second.id@,
        detail: "'"@ + second.spec_label() + "' starts "@ + secs3(overlap_length(first, second))
            + "s before '"@ + first.spec_label() + "' ends on "@ + track.name@
            + "; an overlap must be expressed as a transition"@,
        value: Some(overlap_length(first, second).secs),
        required: Some(zero()),
    }
}

/// The overlaps among the first `n` clips of a track.
pub open spec fn overlap_findings(track: Track, n: int) -> Seq<FindingView>
    decreases n,
{
    if n <= 1 {
        seq![]
    } else {
        let before = overlap_findings(track, n - 1);
        let first = track.clips@[n - 2];
        let second = track.clips@[n - 1];
        if clips_collide(first, second) {
            before.push(overlap_finding(track, first, second))
        } else {
            before
        }
    }
}

/// Whether the length of every overlap can be stored.
pub open spec fn overlaps_fit(clips: Seq<Clip>) -> bool {
    forall|i: int|
        0 < i < clips.len() ==> clips[i - 1].spec_end().difference_fits(
            (#[trigger] clips[i]).start,
        )
}

fn push_overlaps(out: &mut Vec<Finding>, track: &Track)
    requires
        track_sane(*track),
        overlaps_fit(track.clips@),
    ensures
        views(final(out)@) == views(old(out)@) + overlap_findings(
            *track,
            track.clips@.len() as int,
        ),
{
    let ghost before = views(out@);
    let n: usize = track.clips.len();
    assert(before + Seq::<FindingView>::empty() =~= before);
    if n == 0 {
        return;
    }
    let mut i: usize = 1;
    while i < n
        invariant
            1 <= i <= n,
            n == track.clips@.len(),
            track_sane(*track),
            overlaps_fit(track.clips@),
            views(out@) == before + overlap_findings(*track, i as int),
        decreases n - i,
    {
        let ghost so_far = overlap_findings(*track, i as int);
        let first = &track.clips[i - 1];
        let second = &track.clips[i];
        assert(track.clips@[i - 1].wf());
        assert(track.clips@[i as int].wf());
        let end = first.end();
        if second.start.before(&end) {
            let by = end.minus(&second.start);
            let mut detail = "'".to_owned();
            detail.append(second.label());
            detail.append("' starts ");
            push_secs3(&mut detail, by);
            detail.append("s before '");
            detail.append(first.label());
            detail.append("' ends on ");
            detail.append(track.name.as_str());
            detail.append("; an overlap must be expressed as a transition");
            push_view(
                out,
                Finding {
                    rule: "overlap",
                    severity: Severity::Error,
                    target: second.id.as_str().to_owned(),
                    detail,
                    value: Some(by.secs),
                    required: Some(Rat { num: 0, den: 1 }),
                },
            );
            assert(views(out@) =~= before + so_far.push(overlap_finding(*track, *first, *second)));
        }
        i = i + 1;
    }
}

// ---------------------------------------------------------------------------
// Transitions
// ---------------------------------------------------------------------------

pub open spec fn kind_text(kind: TransitionKind) -> Seq<char> {
    match kind {
        TransitionKind::Cut => "Cut"@,
        TransitionKind::Dissolve => "Dissolve"@,
        TransitionKind::Dip => "Dip"@,
        TransitionKind::Wipe => "Wipe"@,
        TransitionKind::Slide => "Slide"@,
        TransitionKind::Push => "Push"@,
    }
}

pub fn kind_name(kind: TransitionKind) -> (r: &'static str)
    ensures
        r@ == kind_text(kind),
{
    match kind {
        TransitionKind::Cut => "Cut",
        TransitionKind::Dissolve => "Dissolve",
        TransitionKind::Dip => "Dip",
        TransitionKind::Wipe => "Wipe",
        TransitionKind::Slide => "Slide",
        TransitionKind::Push => "Push",
    }
}

/// Whether the clip at a position touches the one before it.
pub open spec fn touches_previous(clips: Seq<Clip>, i: int) -> bool {
    i > 0 && clips[i - 1].spec_end().equals(clips[i].start)
}

pub open spec fn lonely_finding(clip: Clip, transition: Transition) -> FindingView {
    FindingView {
        rule: "orphan-transition"@,
        severity: Severity::Warning,
        target: clip.id@,
        detail: "'"@ + clip.spec_label() + "' has a "@ + kind_text(transition.kind)
            + " transition in but nothing touching it before"@,
        value: None,
        required: None,
    }
}

pub open spec fn shorter_of(clip: Clip, previous: Clip) -> Time {
    clip.duration.spec_min(previous.duration)
}

pub open spec fn long_finding(clip: Clip, transition: Transition, shortest: Time) -> FindingView {
    FindingView {
        rule: "orphan-transition"@,
        severity: Severity::Warning,
        target: clip.id@,
        detail: "a "@ + secs3(transition.duration) + "s transition into '"@ + clip.spec_label()
            + "' is longer than its "@ + secs3(shortest) + "s neighbour"@,
        value: Some(transition.duration.secs),
        required: Some(shortest.secs),
    }
}

/// What is wrong with how the clip at a position begins.
pub open spec fn transition_finding(clips: Seq<Clip>, i: int) -> Option<FindingView> {
    match clips[i].transition_in {
        None => None,
        Some(transition) => if !touches_previous(clips, i) {
            Some(lonely_finding(clips[i], transition))
        } else {
            let shortest = shorter_of(clips[i], clips[i - 1]);
            if shortest.lt(transition.duration) {
                Some(long_finding(clips[i], transition, shortest))
            } else {
                None
            }
        },
    }
}

pub open spec fn transition_findings(clips: Seq<Clip>, n: int) -> Seq<FindingView>
    decreases n,
{
    if n <= 0 {
        seq![]
    } else {
        let before = transition_findings(clips, n - 1);
        match transition_finding(clips, n - 1) {
            Some(finding) => before.push(finding),
            None => before,
        }
    }
}

pub open spec fn finding_view(finding: Option<Finding>) -> Option<FindingView> {
    match finding {
        Some(finding) => Some(finding@),
        None => None,
    }
}

fn check_transition(clips: &Vec<Clip>, i: usize) -> (r: Option<Finding>)
    requires
        crate::coverage::clips_wf(clips@),
        i < clips@.len(),
    ensures
        finding_view(r) == transition_finding(clips@, i as int),
{
    let clip = &clips[i];
    assert(clips@[i as int].wf());
    let transition = match clip.transition_in {
        Some(transition) => transition,
        None => {
            return None;
        },
    };
    let touches = if i > 0 {
        assert(clips@[i - 1].wf());
        clips[i - 1].end().is_at(&clip.start)
    } else {
        false
    };
    if !touches {
        let mut detail = "'".to_owned();
        detail.append(clip.label());
        detail.append("' has a ");
        detail.append(kind_name(transition.kind));
        detail.append(" transition in but nothing touching it before");
        return Some(
            Finding {
                rule: "orphan-transition",
                severity: Severity::Warning,
                target: clip.id.as_str().to_owned(),
                detail,
                value: None,
                required: None,
            },
        );
    }
    let shortest = clip.duration.min(clips[i - 1].duration);
    if shortest.before(&transition.duration) {
        let mut detail = "a ".to_owned();
        push_secs3(&mut detail, transition.duration);
        detail.append("s transition into '");
        detail.append(clip.label());
        detail.append("' is longer than its ");
        push_secs3(&mut detail, shortest);
        detail.append("s neighbour");
        return Some(
            Finding {
                rule: "orphan-transition",
                severity: Severity::Warning,
                target: clip.id.as_str().to_owned(),
                detail,
                value: Some(transition.duration.secs),
                required: Some(shortest.secs),
            },
        );
    }
    None
}

fn push_transitions(out: &mut Vec<Finding>, clips: &Vec<Clip>)
    requires
        crate::coverage::clips_wf(clips@),
    ensures
        views(final(out)@) == views(old(out)@) + transition_findings(
            clips@,
            clips@.len() as int,
        ),
{
    let ghost before = views(out@);
    assert(before + Seq::<FindingView>::empty() =~= before);
    let mut i: usize = 0;
    while i < clips.len()
        invariant
            i <= clips@.len(),
            crate::coverage::clips_wf(clips@),
            views(out@) == before + transition_findings(clips@, i as int),
        decreases clips@.len() - i,
    {
        let ghost so_far = transition_findings(clips@, i as int);
        if let Some(finding) = check_transition(clips, i) {
            let ghost seen = finding@;
            push_view(out, finding);
            assert(views(out@) =~= before + so_far.push(seen));
        }
        i = i + 1;
    }
}

// ---------------------------------------------------------------------------
// All of them
// ---------------------------------------------------------------------------

/// Whether a track has clips that these rules look at.
pub open spec fn has_timeline(track: Track) -> bool {
    track.kind != TrackKind::Caption && track.clips@.len() > 0
}

pub open spec fn track_findings(sequence: Sequence, t: int) -> Seq<FindingView> {
    let track = sequence.tracks@[t];
    if has_timeline(track) {
        gap_findings(track, uncovered(sequence, t)) + overlap_findings(
            track,
            track.clips@.len() as int,
        ) + transition_findings(track.clips@, track.clips@.len() as int)
    } else {
        seq![]
    }
}

/// What the first `n` tracks of a sequence have.
pub open spec fn timeline_findings(sequence: Sequence, n: int) -> Seq<FindingView>
    decreases n,
{
    if n <= 0 {
        seq![]
    } else {
        timeline_findings(sequence, n - 1) + track_findings(sequence, n - 1)
    }
}

/// Whether everything these rules measure can be stored.
pub open spec fn timeline_measurable(sequence: Sequence) -> bool {
    &&& sequence_sane(sequence)
    &&& forall|t: int|
        0 <= t < sequence.tracks@.len() && has_timeline(#[trigger] sequence.tracks@[t])
            ==> all_measurable(uncovered(sequence, t)) && overlaps_fit(sequence.tracks@[t].clips@)
}

/// Gaps, overlaps and transitions that cannot work.
pub fn timeline_rules(sequence: &Sequence) -> (r: Vec<Finding>)
    requires
        timeline_measurable(*sequence),
    ensures
        views(r@) == timeline_findings(*sequence, sequence.tracks@.len() as int),
{
    let mut out: Vec<Finding> = Vec::new();
    let mut t: usize = 0;
    assert(views(out@) =~= seq![]);
    while t < sequence.tracks.len()
        invariant
            t <= sequence.tracks@.len(),
            timeline_measurable(*sequence),
            views(out@) == timeline_findings(*sequence, t as int),
        decreases sequence.tracks@.len() - t,
    {
        let ghost before = views(out@);
        let track = &sequence.tracks[t];
        assert(track_sane(sequence.tracks@[t as int]));
        if track.kind != TrackKind::Caption && track.clips.len() > 0 {
            assert(has_timeline(sequence.tracks@[t as int]));
            let holes = sequence.uncovered_gaps(t);
            push_gaps(&mut out, track, &holes);
            push_overlaps(&mut out, track);
            push_transitions(&mut out, &track.clips);
            assert(views(out@) =~= before + track_findings(*sequence, t as int));
        } else {
            assert(views(out@) =~= before + track_findings(*sequence, t as int));
        }
        t = t + 1;
    }
    out
}

/// Clips that neither collide nor have transitions give no finding but their gaps.
pub proof fn law_a_clean_track_has_no_overlap_findings(track: Track, n: int)
    requires
        0 <= n <= track.clips@.len(),
        forall|i: int|
            0 < i < track.clips@.len() ==> !clips_collide(
                track.clips@[i - 1],
                #[trigger] track.clips@[i],
            ),
    ensures
        overlap_findings(track, n).len() == 0,
    decreases n,
{
    if n > 1 {
        law_a_clean_track_has_no_overlap_findings(track, n - 1);
        assert(!clips_collide(track.clips@[n - 2], track.clips@[n - 1]));
    }
}

} // verus!
