//! A check leaves out nothing that one of its rules has to say, and adds nothing to it.

use crate::finding::FindingView;
use crate::lint::{
    clip_findings, clips_findings, document_findings, linted, measured_findings, source_findings,
    LintOptions, Measured,
};
use crate::lint_caption::{caption_findings, cue_findings, cues_findings};
use crate::lint_link::{asset_state, store_findings};
use crate::lint_media::{mix_findings, pixel_findings};
use crate::lint_source::Placement;
use crate::lint_timeline::{timeline_findings, track_findings};
use crate::lint_title::{
    reports_findings, text_findings, title_findings, PlacedText, TitleMeasurement,
};
use crate::project::{Asset, Clip, Project, Sequence, Track, TrackKind};
use crate::time::Time;
use crate::views::views;
use vstd::prelude::*;

verus! {

/// Whether every finding of one list is in another.
pub open spec fn all_in(part: Seq<FindingView>, whole: Seq<FindingView>) -> bool {
    forall|i: int| 0 <= i < part.len() ==> whole.contains(#[trigger] part[i])
}

proof fn lemma_in_self(a: Seq<FindingView>)
    ensures
        all_in(a, a),
{
    assert forall|i: int| 0 <= i < a.len() implies a.contains(#[trigger] a[i]) by {
        assert(a[i] == a[i]);
    }
}

proof fn lemma_in_sum(part: Seq<FindingView>, a: Seq<FindingView>, b: Seq<FindingView>)
    requires
        all_in(part, a) || all_in(part, b),
    ensures
        all_in(part, a + b),
{
    assert forall|i: int| 0 <= i < part.len() implies (a + b).contains(#[trigger] part[i]) by {
        if all_in(part, a) {
            let k = choose|k: int| 0 <= k < a.len() && a[k] == part[i];
            assert((a + b)[k] == part[i]);
        } else {
            let k = choose|k: int| 0 <= k < b.len() && b[k] == part[i];
            assert((a + b)[a.len() + k] == part[i]);
        }
    }
}

proof fn lemma_timeline_part(sequence: Sequence, n: int, t: int)
    requires
        0 <= t < n,
    ensures
        all_in(track_findings(sequence, t), timeline_findings(sequence, n)),
    decreases n,
{
    let own = track_findings(sequence, n - 1);
    if t < n - 1 {
        lemma_timeline_part(sequence, n - 1, t);
    } else {
        lemma_in_self(own);
    }
    lemma_in_sum(track_findings(sequence, t), timeline_findings(sequence, n - 1), own);
}

proof fn lemma_clips_part(
    project: Project,
    sequence: Sequence,
    clips: Seq<Clip>,
    places: Seq<Placement>,
    k: int,
)
    requires
        0 <= k < clips.len(),
    ensures
        all_in(
            clip_findings(project, sequence, clips[k], places),
            clips_findings(project, sequence, clips, places),
        ),
    decreases clips.len(),
{
    let rest = clips.drop_last();
    let own = clip_findings(project, sequence, clips.last(), places);
    if k < rest.len() {
        assert(rest[k] == clips[k]);
        lemma_clips_part(project, sequence, rest, places, k);
    } else {
        lemma_in_self(own);
    }
    lemma_in_sum(
        clip_findings(project, sequence, clips[k], places),
        clips_findings(project, sequence, rest, places),
        own,
    );
}

proof fn lemma_sources_part(
    project: Project,
    sequence: Sequence,
    tracks: Seq<Track>,
    places: Seq<Placement>,
    t: int,
    k: int,
)
    requires
        0 <= t < tracks.len(),
        0 <= k < tracks[t].clips@.len(),
    ensures
        all_in(
            clip_findings(project, sequence, tracks[t].clips@[k], places),
            source_findings(project, sequence, tracks, places),
        ),
    decreases tracks.len(),
{
    let rest = tracks.drop_last();
    let part = clip_findings(project, sequence, tracks[t].clips@[k], places);
    if t < rest.len() {
        assert(rest[t] == tracks[t]);
        lemma_sources_part(project, sequence, rest, places, t, k);
    } else {
        lemma_clips_part(project, sequence, tracks.last().clips@, places, k);
    }
    lemma_in_sum(
        part,
        source_findings(project, sequence, rest, places),
        clips_findings(project, sequence, tracks.last().clips@, places),
    );
}

proof fn lemma_cues_part(project: Project, track: Track, n: int, i: int)
    requires
        0 <= i < n,
    ensures
        all_in(cue_findings(project, track, i), cues_findings(project, track, n)),
    decreases n,
{
    let own = cue_findings(project, track, n - 1);
    if i < n - 1 {
        lemma_cues_part(project, track, n - 1, i);
    } else {
        lemma_in_self(own);
    }
    lemma_in_sum(cue_findings(project, track, i), cues_findings(project, track, n - 1), own);
}

proof fn lemma_captions_part(project: Project, tracks: Seq<Track>, t: int, i: int)
    requires
        0 <= t < tracks.len(),
        tracks[t].kind == TrackKind::Caption,
        0 <= i < tracks[t].cues@.len(),
    ensures
        all_in(cue_findings(project, tracks[t], i), caption_findings(project, tracks)),
    decreases tracks.len(),
{
    let rest = tracks.drop_last();
    let part = cue_findings(project, tracks[t], i);
    let n = tracks.last().cues@.len() as int;
    if t < rest.len() {
        assert(rest[t] == tracks[t]);
        lemma_captions_part(project, rest, t, i);
    } else {
        lemma_cues_part(project, tracks.last(), n, i);
    }
    if tracks.last().kind == TrackKind::Caption {
        lemma_in_sum(
            part,
            caption_findings(project, rest),
            cues_findings(project, tracks.last(), n),
        );
    }
}

proof fn lemma_store_part(project: Project, assets: Seq<Asset>, a: int)
    requires
        0 <= a < assets.len(),
    ensures
        all_in(asset_state(project, assets[a]), store_findings(project, assets)),
    decreases assets.len(),
{
    let rest = assets.drop_last();
    let own = asset_state(project, assets.last());
    if a < rest.len() {
        assert(rest[a] == assets[a]);
        lemma_store_part(project, rest, a);
    } else {
        lemma_in_self(own);
    }
    lemma_in_sum(asset_state(project, assets[a]), store_findings(project, rest), own);
}

proof fn lemma_reports_part(
    clip: Seq<char>,
    reports: Seq<PlacedText>,
    frame: [u32; 2],
    at: Time,
    pixels: bool,
    i: int,
)
    requires
        0 <= i < reports.len(),
    ensures
        all_in(
            text_findings(clip, reports[i], frame, at, pixels),
            reports_findings(clip, reports, frame, at, pixels),
        ),
    decreases reports.len(),
{
    let rest = reports.drop_last();
    let own = text_findings(clip, reports.last(), frame, at, pixels);
    if i < rest.len() {
        assert(rest[i] == reports[i]);
        lemma_reports_part(clip, rest, frame, at, pixels, i);
    } else {
        lemma_in_self(own);
    }
    lemma_in_sum(
        text_findings(clip, reports[i], frame, at, pixels),
        reports_findings(clip, rest, frame, at, pixels),
        own,
    );
}

proof fn lemma_titles_part(titles: Seq<TitleMeasurement>, pixels: bool, t: int, i: int)
    requires
        0 <= t < titles.len(),
        0 <= i < titles[t].reports@.len(),
    ensures
        all_in(
            text_findings(
                titles[t].clip@,
                titles[t].reports@[i],
                titles[t].frame,
                titles[t].at,
                pixels,
            ),
            title_findings(titles, pixels),
        ),
    decreases titles.len(),
{
    let rest = titles.drop_last();
    let last = titles.last();
    let own = reports_findings(last.clip@, last.reports@, last.frame, last.at, pixels);
    if t < rest.len() {
        assert(rest[t] == titles[t]);
        lemma_titles_part(rest, pixels, t, i);
    } else {
        lemma_reports_part(last.clip@, last.reports@, last.frame, last.at, pixels, i);
    }
    lemma_in_sum(
        text_findings(
            titles[t].clip@,
            titles[t].reports@[i],
            titles[t].frame,
            titles[t].at,
            pixels,
        ),
        title_findings(rest, pixels),
        own,
    );
}

proof fn lemma_document_parts(
    project: Project,
    sequence: Sequence,
    places: Seq<Placement>,
    titles: Seq<TitleMeasurement>,
    pixels: bool,
    part: Seq<FindingView>,
)
    requires
        ({
            ||| all_in(part, timeline_findings(sequence, sequence.tracks@.len() as int))
            ||| all_in(part, source_findings(project, sequence, sequence.tracks@, places))
            ||| all_in(part, caption_findings(project, sequence.tracks@))
            ||| all_in(part, store_findings(project, project.assets@))
            ||| all_in(part, title_findings(titles, pixels))
        }),
    ensures
        all_in(part, document_findings(project, sequence, places, titles, pixels)),
{
    let a = timeline_findings(sequence, sequence.tracks@.len() as int);
    let b = source_findings(project, sequence, sequence.tracks@, places);
    let c = caption_findings(project, sequence.tracks@);
    let d = store_findings(project, project.assets@);
    let e = title_findings(titles, pixels);
    if all_in(part, a) || all_in(part, b) {
        lemma_in_sum(part, a, b);
    }
    if all_in(part, a + b) || all_in(part, c) {
        lemma_in_sum(part, a + b, c);
    }
    if all_in(part, a + b + c) || all_in(part, d) {
        lemma_in_sum(part, a + b + c, d);
    }
    lemma_in_sum(part, a + b + c + d, e);
}

/// A check tells everything that is wrong with each track, each clip, each cue, each asset and each
/// run of text of a title.
pub proof fn law_a_check_covers_the_document(
    project: Project,
    sequence: Sequence,
    places: Seq<Placement>,
    titles: Seq<TitleMeasurement>,
    pixels: bool,
)
    ensures
        ({
            let found = document_findings(project, sequence, places, titles, pixels);
            let tracks = sequence.tracks@;
            &&& forall|t: int|
                0 <= t < tracks.len() ==> all_in(#[trigger] track_findings(sequence, t), found)
            &&& forall|t: int, k: int|
                0 <= t < tracks.len() && 0 <= k < tracks[t].clips@.len() ==> all_in(
                    clip_findings(project, sequence, #[trigger] tracks[t].clips@[k], places),
                    found,
                )
            &&& forall|t: int, i: int|
                0 <= t < tracks.len() && tracks[t].kind == TrackKind::Caption && 0 <= i
                    < tracks[t].cues@.len() ==> all_in(
                    #[trigger] cue_findings(project, tracks[t], i),
                    found,
                )
            &&& forall|a: int|
                0 <= a < project.assets@.len() ==> all_in(
                    #[trigger] asset_state(project, project.assets@[a]),
                    found,
                )
            &&& forall|t: int, i: int|
                0 <= t < titles.len() && 0 <= i < titles[t].reports@.len() ==> all_in(
                    text_findings(
                        titles[t].clip@,
                        #[trigger] titles[t].reports@[i],
                        titles[t].frame,
                        titles[t].at,
                        pixels,
                    ),
                    found,
                )
        }),
{
    let found = document_findings(project, sequence, places, titles, pixels);
    let tracks = sequence.tracks@;
    assert forall|t: int| 0 <= t < tracks.len() implies all_in(
        #[trigger] track_findings(sequence, t),
        found,
    ) by {
        lemma_timeline_part(sequence, tracks.len() as int, t);
        lemma_document_parts(
            project,
            sequence,
            places,
            titles,
            pixels,
            track_findings(sequence, t),
        );
    }
    assert forall|t: int, k: int|
        0 <= t < tracks.len() && 0 <= k < tracks[t].clips@.len() implies all_in(
        clip_findings(project, sequence, #[trigger] tracks[t].clips@[k], places),
        found,
    ) by {
        lemma_sources_part(project, sequence, tracks, places, t, k);
        lemma_document_parts(
            project,
            sequence,
            places,
            titles,
            pixels,
            clip_findings(project, sequence, tracks[t].clips@[k], places),
        );
    }
    assert forall|t: int, i: int|
        0 <= t < tracks.len() && tracks[t].kind == TrackKind::Caption && 0 <= i
            < tracks[t].cues@.len() implies all_in(
        #[trigger] cue_findings(project, tracks[t], i),
        found,
    ) by {
        lemma_captions_part(project, tracks, t, i);
        lemma_document_parts(
            project,
            sequence,
            places,
            titles,
            pixels,
            cue_findings(project, tracks[t], i),
        );
    }
    assert forall|a: int| 0 <= a < project.assets@.len() implies all_in(
        #[trigger] asset_state(project, project.assets@[a]),
        found,
    ) by {
        lemma_store_part(project, project.assets@, a);
        lemma_document_parts(
            project,
            sequence,
            places,
            titles,
            pixels,
            asset_state(project, project.assets@[a]),
        );
    }
    assert forall|t: int, i: int|
        0 <= t < titles.len() && 0 <= i < titles[t].reports@.len() implies all_in(
        text_findings(
            titles[t].clip@,
            #[trigger] titles[t].reports@[i],
            titles[t].frame,
            titles[t].at,
            pixels,
        ),
        found,
    ) by {
        lemma_titles_part(titles, pixels, t, i);
        lemma_document_parts(
            project,
            sequence,
            places,
            titles,
            pixels,
            text_findings(
                titles[t].clip@,
                titles[t].reports@[i],
                titles[t].frame,
                titles[t].at,
                pixels,
            ),
        );
    }
}

/// A check of a sequence tells what the document shows, and with a render also what was seen, what
/// was heard, and where music drowns a voice; it is refused only for a negative interval or a
/// sequence that is not there.
pub proof fn law_a_check_tells_what_was_measured(
    project: Project,
    id: Seq<char>,
    options: LintOptions,
    places: Seq<Placement>,
    titles: Seq<TitleMeasurement>,
    measured: Option<Measured>,
)
    ensures
        linted(project, id, options, places, titles, measured) is Err <==> options.sample_every.secs.num
            < 0 || project.sequence_at(id) < 0,
        linted(project, id, options, places, titles, measured) matches Ok(found) ==> {
            let sequence = project.sequences@[project.sequence_at(id)];
            &&& all_in(
                document_findings(project, sequence, places, titles, options.render),
                found,
            )
            &&& options.render ==> (measured matches Some(m) ==> {
                &&& all_in(pixel_findings(m.seen, sequence.fps), found)
                &&& (m.heard matches Some(heard) ==> all_in(
                    mix_findings(heard, options.profile),
                    found,
                ) && all_in(views(m.ducking@), found))
            })
            &&& !options.render ==> found.len() == document_findings(
                project,
                sequence,
                places,
                titles,
                false,
            ).len()
        },
{
    if let Ok(found) = linted(project, id, options, places, titles, measured) {
        let sequence = project.sequences@[project.sequence_at(id)];
        let own = document_findings(project, sequence, places, titles, options.render);
        lemma_in_self(own);
        if let Some(m) = measured {
            let more = measured_findings(m, sequence, options.profile);
            let seen = pixel_findings(m.seen, sequence.fps);
            lemma_in_self(seen);
            lemma_in_sum(own, own, more);
            if let Some(heard) = m.heard {
                let mix = mix_findings(heard, options.profile);
                let duck = views(m.ducking@);
                lemma_in_self(mix);
                lemma_in_self(duck);
                lemma_in_sum(mix, mix, duck);
                lemma_in_sum(duck, mix, duck);
                lemma_in_sum(seen, seen, mix + duck);
                lemma_in_sum(mix, seen, mix + duck);
                lemma_in_sum(duck, seen, mix + duck);
                lemma_in_sum(mix, own, more);
                lemma_in_sum(duck, own, more);
            } else {
                lemma_in_sum(seen, seen, Seq::<FindingView>::empty());
            }
            lemma_in_sum(seen, own, more);
        }
    }
}

} // verus!
