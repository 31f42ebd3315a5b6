//! What holds of every check.

use crate::finding::FindingView;
use crate::lint::{clip_findings, clips_findings, document_findings, source_findings};
use crate::lint_caption::{caption_findings, cue_findings, cues_findings};
use crate::lint_link::{all_clips, asset_state, link_finding, store_findings};
use crate::lint_source::{asset_findings, one, past_end, resolution_findings, slow, Placement};
use crate::lint_timeline::{
    gap_findings, overlap_findings, timeline_findings, track_findings, transition_findings,
};
use crate::lint_title::{
    reports_findings, text_findings, title_findings, PlacedText, TitleMeasurement,
};
use crate::project::{Asset, Clip, Project, Sequence, Track};
use vstd::prelude::*;

verus! {

/// The rules that the document alone decides.
pub open spec fn is_document_rule(rule: Seq<char>) -> bool {
    ||| rule == "gap"@
    ||| rule == "overlap"@
    ||| rule == "orphan-transition"@
    ||| rule == "past-source-end"@
    ||| rule == "speed-frame-drop"@
    ||| rule == "fps-mismatch"@
    ||| rule == "vfr-source"@
    ||| rule == "upscaled"@
    ||| rule == "letterboxed"@
    ||| rule == "av-drift"@
    ||| rule == "caption-too-fast"@
    ||| rule == "caption-overlap"@
    ||| rule == "caption-too-long"@
    ||| rule == "unreferenced-asset"@
    ||| rule == "missing-asset"@
    ||| rule == "stale-proxy"@
    ||| rule == "title-overflow"@
    ||| rule == "unsafe-area"@
    ||| rule == "font-fallback"@
    ||| rule == "tiny-type"@
}

/// The rules that need pixels or samples.
pub open spec fn is_render_rule(rule: Seq<char>) -> bool {
    ||| rule == "low-contrast"@
    ||| rule == "black-frames"@
    ||| rule == "frozen-frames"@
    ||| rule == "flash"@
    ||| rule == "loudness-out-of-spec"@
    ||| rule == "true-peak"@
    ||| rule == "clipping"@
    ||| rule == "silence-gap"@
    ||| rule == "unducked-music"@
}

pub open spec fn documentary(findings: Seq<FindingView>) -> bool {
    forall|i: int| 0 <= i < findings.len() ==> is_document_rule((#[trigger] findings[i]).rule)
}

proof fn lemma_sum(a: Seq<FindingView>, b: Seq<FindingView>)
    requires
        documentary(a),
        documentary(b),
    ensures
        documentary(a + b),
{
    assert forall|i: int| 0 <= i < (a + b).len() implies is_document_rule(
        (#[trigger] (a + b)[i]).rule,
    ) by {
        if i < a.len() {
            assert(is_document_rule(a[i].rule));
        } else {
            assert(is_document_rule(b[i - a.len()].rule));
        }
    }
}

proof fn lemma_timeline(sequence: Sequence, n: int)
    ensures
        documentary(timeline_findings(sequence, n)),
    decreases n,
{
    if n > 0 {
        lemma_timeline(sequence, n - 1);
        lemma_track(sequence, n - 1);
        lemma_sum(timeline_findings(sequence, n - 1), track_findings(sequence, n - 1));
    }
}

proof fn lemma_track(sequence: Sequence, t: int)
    ensures
        documentary(track_findings(sequence, t)),
{
    let track = sequence.tracks@[t];
    let gaps = gap_findings(track, crate::coverage::uncovered(sequence, t));
    lemma_overlaps(track, track.clips@.len() as int);
    lemma_transitions(track.clips@, track.clips@.len() as int);
    lemma_sum(gaps, overlap_findings(track, track.clips@.len() as int));
    lemma_sum(
        gaps + overlap_findings(track, track.clips@.len() as int),
        transition_findings(track.clips@, track.clips@.len() as int),
    );
}

proof fn lemma_overlaps(track: Track, n: int)
    ensures
        documentary(overlap_findings(track, n)),
    decreases n,
{
    if n > 1 {
        lemma_overlaps(track, n - 1);
    }
}

proof fn lemma_transitions(clips: Seq<Clip>, n: int)
    ensures
        documentary(transition_findings(clips, n)),
    decreases n,
{
    if n > 0 {
        lemma_transitions(clips, n - 1);
    }
}

proof fn lemma_clip(project: Project, sequence: Sequence, clip: Clip, places: Seq<Placement>)
    ensures
        documentary(clip_findings(project, sequence, clip, places)),
{
    reveal(past_end);
    reveal(slow);
    reveal(link_finding);
    let a = one(past_end(project, clip));
    let b = one(slow(project, sequence, clip));
    let c = asset_findings(project, sequence, clip, places);
    let d = one(link_finding(all_clips(sequence.tracks@), clip));
    lemma_asset(project, sequence, clip, places);
    lemma_sum(a, b);
    lemma_sum(a + b, c);
    lemma_sum(a + b + c, d);
}

proof fn lemma_asset(project: Project, sequence: Sequence, clip: Clip, places: Seq<Placement>)
    ensures
        documentary(asset_findings(project, sequence, clip, places)),
{
    reveal(asset_findings);
    let a = one(crate::lint_source::off_rate(project, sequence, clip));
    let b = one(crate::lint_source::varying(project, clip));
    let c = resolution_findings(project, sequence, clip, places);
    lemma_sum(a, b);
    lemma_sum(a + b, c);
}

proof fn lemma_clips(project: Project, sequence: Sequence, clips: Seq<Clip>, places: Seq<Placement>)
    ensures
        documentary(clips_findings(project, sequence, clips, places)),
    decreases clips.len(),
{
    if clips.len() > 0 {
        lemma_clips(project, sequence, clips.drop_last(), places);
        lemma_clip(project, sequence, clips.last(), places);
        lemma_sum(
            clips_findings(project, sequence, clips.drop_last(), places),
            clip_findings(project, sequence, clips.last(), places),
        );
    }
}

proof fn lemma_sources(
    project: Project,
    sequence: Sequence,
    tracks: Seq<Track>,
    places: Seq<Placement>,
)
    ensures
        documentary(source_findings(project, sequence, tracks, places)),
    decreases tracks.len(),
{
    if tracks.len() > 0 {
        lemma_sources(project, sequence, tracks.drop_last(), places);
        lemma_clips(project, sequence, tracks.last().clips@, places);
        lemma_sum(
            source_findings(project, sequence, tracks.drop_last(), places),
            clips_findings(project, sequence, tracks.last().clips@, places),
        );
    }
}

proof fn lemma_cues(project: Project, track: Track, n: int)
    ensures
        documentary(cues_findings(project, track, n)),
    decreases n,
{
    if n > 0 {
        lemma_cues(project, track, n - 1);
        let cue = track.cues@[n - 1];
        let a = one(crate::lint_caption::too_fast(project, track, cue));
        let b = one(crate::lint_caption::too_long(project, track, cue));
        let c = one(
            if n - 1 > 0 {
                crate::lint_caption::both_shown(track.cues@[n - 2], cue)
            } else {
                None
            },
        );
        lemma_sum(a, b);
        lemma_sum(a + b, c);
        lemma_sum(cues_findings(project, track, n - 1), cue_findings(project, track, n - 1));
    }
}

proof fn lemma_captions(project: Project, tracks: Seq<Track>)
    ensures
        documentary(caption_findings(project, tracks)),
    decreases tracks.len(),
{
    if tracks.len() > 0 {
        lemma_captions(project, tracks.drop_last());
        let n = tracks.last().cues@.len() as int;
        lemma_cues(project, tracks.last(), n);
        lemma_sum(
            caption_findings(project, tracks.drop_last()),
            cues_findings(project, tracks.last(), n),
        );
    }
}

proof fn lemma_store(project: Project, assets: Seq<Asset>)
    ensures
        documentary(store_findings(project, assets)),
    decreases assets.len(),
{
    if assets.len() > 0 {
        lemma_store(project, assets.drop_last());
        assert(documentary(asset_state(project, assets.last())));
        lemma_sum(
            store_findings(project, assets.drop_last()),
            asset_state(project, assets.last()),
        );
    }
}

proof fn lemma_reports(
    clip: Seq<char>,
    reports: Seq<PlacedText>,
    frame: [u32; 2],
    at: crate::time::Time,
)
    ensures
        documentary(reports_findings(clip, reports, frame, at, false)),
    decreases reports.len(),
{
    if reports.len() > 0 {
        let rest = reports.drop_last();
        lemma_reports(clip, rest, frame, at);
        assert(documentary(text_findings(clip, reports.last(), frame, at, false)));
        lemma_sum(
            reports_findings(clip, rest, frame, at, false),
            text_findings(clip, reports.last(), frame, at, false),
        );
    }
}

proof fn lemma_titles(titles: Seq<TitleMeasurement>)
    ensures
        documentary(title_findings(titles, false)),
    decreases titles.len(),
{
    if titles.len() > 0 {
        let rest = titles.drop_last();
        let last = titles.last();
        lemma_titles(rest);
        lemma_reports(last.clip@, last.reports@, last.frame, last.at);
        lemma_sum(
            title_findings(rest, false),
            reports_findings(last.clip@, last.reports@, last.frame, last.at, false),
        );
    }
}

proof fn lemma_rules_differ(rule: Seq<char>)
    requires
        is_document_rule(rule),
    ensures
        !is_render_rule(rule),
{
    reveal_strlit("gap");
    reveal_strlit("overlap");
    reveal_strlit("orphan-transition");
    reveal_strlit("past-source-end");
    reveal_strlit("speed-frame-drop");
    reveal_strlit("fps-mismatch");
    reveal_strlit("vfr-source");
    reveal_strlit("upscaled");
    reveal_strlit("letterboxed");
    reveal_strlit("av-drift");
    reveal_strlit("caption-too-fast");
    reveal_strlit("caption-overlap");
    reveal_strlit("caption-too-long");
    reveal_strlit("unreferenced-asset");
    reveal_strlit("missing-asset");
    reveal_strlit("stale-proxy");
    reveal_strlit("title-overflow");
    reveal_strlit("unsafe-area");
    reveal_strlit("font-fallback");
    reveal_strlit("tiny-type");
    reveal_strlit("low-contrast");
    reveal_strlit("black-frames");
    reveal_strlit("frozen-frames");
    reveal_strlit("flash");
    reveal_strlit("loudness-out-of-spec");
    reveal_strlit("true-peak");
    reveal_strlit("clipping");
    reveal_strlit("silence-gap");
    reveal_strlit("unducked-music");
    // Where two names have one length, their leading characters tell them apart.
    let (first, second, third) = (rule[0], rule[1], rule[2]);
}

/// Without pixels and samples none of the rules that need them is reported.
pub proof fn law_a_document_check_skips_what_needs_pixels(
    project: Project,
    sequence: Sequence,
    places: Seq<Placement>,
    titles: Seq<TitleMeasurement>,
    i: int,
)
    requires
        0 <= i < document_findings(project, sequence, places, titles, false).len(),
    ensures
        is_document_rule(document_findings(project, sequence, places, titles, false)[i].rule),
        !is_render_rule(document_findings(project, sequence, places, titles, false)[i].rule),
{
    let n = sequence.tracks@.len() as int;
    let a = timeline_findings(sequence, n);
    let b = source_findings(project, sequence, sequence.tracks@, places);
    let c = caption_findings(project, sequence.tracks@);
    let d = store_findings(project, project.assets@);
    let e = title_findings(titles, false);
    lemma_timeline(sequence, n);
    lemma_sources(project, sequence, sequence.tracks@, places);
    lemma_captions(project, sequence.tracks@);
    lemma_store(project, project.assets@);
    lemma_titles(titles);
    lemma_sum(a, b);
    lemma_sum(a + b, c);
    lemma_sum(a + b + c, d);
    lemma_sum(a + b + c + d, e);
    let found = document_findings(project, sequence, places, titles, false);
    assert(found == a + b + c + d + e);
    assert(is_document_rule(found[i].rule));
    lemma_rules_differ(found[i].rule);
}

} // verus!
