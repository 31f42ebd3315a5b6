//! Every writer tells what its format leaves behind.

use crate::losses::{
    clip_losses, has_all, kept_by_edl, kept_by_fcpxml, kept_by_mlt, kept_by_otio,
    law_every_loss_is_told, lemma_has, lemma_has_part, losses, Kept,
};
use crate::project::{Project, Sequence, Track, TrackKind};
use crate::time::Fps;
use crate::timeline::{
    as_list, clip_tracks, entries_of, lost_features, source_warning, Entry, WarningView,
};
use vstd::prelude::*;

verus! {

/// Whether a list of warnings begins with another.
pub open spec fn begins(all: Seq<WarningView>, first: Seq<WarningView>) -> bool {
    first.len() <= all.len() && all.take(first.len() as int) == first
}

proof fn lemma_begins_more(all: Seq<WarningView>, first: Seq<WarningView>, more: Seq<WarningView>)
    requires
        begins(all, first),
    ensures
        begins(all + more, first),
{
    assert((all + more).take(first.len() as int) =~= all.take(first.len() as int));
}

proof fn lemma_begins_itself(all: Seq<WarningView>)
    ensures
        begins(all, all),
{
    assert(all.take(all.len() as int) =~= all);
}

proof fn lemma_begins_has(
    all: Seq<WarningView>,
    before: Seq<WarningView>,
    part: Seq<WarningView>,
)
    requires
        begins(all, before + part),
    ensures
        has_all(all, part),
{
    let first = before + part;
    let after = all.skip(first.len() as int);
    lemma_has(before, part, after);
    assert(before + part + after =~= all);
}

// ---------------------------------------------------------------------------
// FCPXML
// ---------------------------------------------------------------------------

proof fn lemma_fcpxml_entries(
    st: crate::fcpxml::Needs,
    entries: Seq<Entry>,
    project: Project,
    fps: Fps,
    first: Seq<WarningView>,
)
    requires
        begins(st.warnings, first),
    ensures
        begins(crate::fcpxml::with_entries(st, entries, project, fps).warnings, first),
    decreases entries.len(),
{
    if entries.len() > 0 {
        lemma_fcpxml_entries(st, entries.drop_last(), project, fps, first);
        let before = crate::fcpxml::with_entries(st, entries.drop_last(), project, fps);
        let after = crate::fcpxml::with_entries(st, entries, project, fps);
        let more = after.warnings.skip(before.warnings.len() as int);
        lemma_begins_more(before.warnings, first, more);
        assert(after.warnings =~= before.warnings + more);
    }
}

proof fn lemma_fcpxml_tracks(
    st: crate::fcpxml::Needs,
    tracks: Seq<Track>,
    project: Project,
    fps: Fps,
    first: Seq<WarningView>,
)
    requires
        begins(st.warnings, first),
    ensures
        begins(crate::fcpxml::with_tracks(st, tracks, project, fps).warnings, first),
    decreases tracks.len(),
{
    if tracks.len() > 0 {
        lemma_fcpxml_tracks(st, tracks.drop_last(), project, fps, first);
        lemma_fcpxml_entries(
            crate::fcpxml::with_tracks(st, tracks.drop_last(), project, fps),
            entries_of(tracks.last().clips@, fps),
            project,
            fps,
            first,
        );
    }
}

/// An FCPXML export warns of everything that it leaves behind: transitions, fades, levels,
/// captions and markers.
pub proof fn law_fcpxml_tells_every_loss(project: Project, sequence: Sequence)
    ensures
        has_all(
            crate::fcpxml::needs_of(project, sequence).warnings,
            losses(sequence, "FCPXML"@, kept_by_fcpxml()),
        ),
{
    let tracks = clip_tracks(sequence.tracks@);
    let placing = crate::mlt_document::all_placing_warnings(tracks, sequence.fps);
    let lost = losses(sequence, "FCPXML"@, kept_by_fcpxml());
    let start = crate::fcpxml::Needs {
        formats: seq![
            crate::fcpxml::FormatView { id: "r1"@, size: sequence.size, fps: sequence.fps },
        ],
        media: seq![],
        next: 2,
        warnings: placing + lost,
    };
    lemma_begins_itself(placing + lost);
    lemma_fcpxml_tracks(start, tracks, project, sequence.fps, placing + lost);
    lemma_begins_has(crate::fcpxml::needs_of(project, sequence).warnings, placing, lost);
}

// ---------------------------------------------------------------------------
// OTIO
// ---------------------------------------------------------------------------

/// An OTIO export warns of everything that it leaves behind.
pub proof fn law_otio_tells_every_loss(project: Project, sequence: Sequence)
    ensures
        has_all(
            crate::otio::document_warnings(project, sequence),
            losses(sequence, "OTIO"@, kept_by_otio()),
        ),
{
    let tracks = clip_tracks(sequence.tracks@);
    lemma_has(
        crate::mlt_document::all_placing_warnings(tracks, sequence.fps),
        losses(sequence, "OTIO"@, kept_by_otio()),
        crate::otio::tracks_warnings(tracks, project, sequence.fps),
    );
}

// ---------------------------------------------------------------------------
// Edit lists
// ---------------------------------------------------------------------------

proof fn lemma_edl_entries(
    st: crate::edl::ListView,
    entries: Seq<Entry>,
    project: Project,
    channel: Seq<char>,
    fps: Fps,
    first: Seq<WarningView>,
)
    requires
        begins(st.warnings, first),
    ensures
        begins(crate::edl::list_entries(st, entries, project, channel, fps).warnings, first),
    decreases entries.len(),
{
    if entries.len() > 0 {
        lemma_edl_entries(st, entries.drop_last(), project, channel, fps, first);
        let before = crate::edl::list_entries(st, entries.drop_last(), project, channel, fps);
        let after = crate::edl::list_entries(st, entries, project, channel, fps);
        let more = after.warnings.skip(before.warnings.len() as int);
        lemma_begins_more(before.warnings, first, more);
        assert(after.warnings =~= before.warnings + more);
    }
}

proof fn lemma_edl_tracks(
    st: crate::edl::ListView,
    tracks: Seq<Track>,
    project: Project,
    fps: Fps,
    first: Seq<WarningView>,
)
    requires
        begins(st.warnings, first),
    ensures
        begins(crate::edl::list_tracks(st, tracks, project, fps).warnings, first),
    decreases tracks.len(),
{
    if tracks.len() > 0 {
        lemma_edl_tracks(st, tracks.drop_last(), project, fps, first);
        let before = crate::edl::list_tracks(st, tracks.drop_last(), project, fps);
        let collision = crate::edl::collision_warning(tracks);
        lemma_begins_more(before.warnings, first, collision);
        lemma_edl_entries(
            crate::edl::ListView { warnings: before.warnings + collision, ..before },
            entries_of(tracks.last().clips@, fps),
            project,
            crate::edl::channel_of_last(tracks),
            fps,
            first,
        );
    }
}

/// A CMX3600 list warns of everything that it leaves behind.
pub proof fn law_edl_tells_every_loss(project: Project, sequence: Sequence)
    ensures
        has_all(
            crate::edl::list_of(project, sequence).warnings,
            losses(sequence, "EDL"@, kept_by_edl()),
        ),
{
    let tracks = clip_tracks(sequence.tracks@);
    let placing = crate::mlt_document::all_placing_warnings(tracks, sequence.fps);
    let lost = losses(sequence, "EDL"@, kept_by_edl());
    let start = crate::edl::ListView {
        events: 0,
        text: "TITLE: "@ + crate::edl::title_chars(crate::edl::upper_text(sequence.name@))
            + "\nFCM: NON-DROP FRAME\n"@,
        warnings: placing + lost,
    };
    lemma_begins_itself(placing + lost);
    lemma_edl_tracks(start, tracks, project, sequence.fps, placing + lost);
    lemma_begins_has(crate::edl::list_of(project, sequence).warnings, placing, lost);
}

// ---------------------------------------------------------------------------
// MLT
// ---------------------------------------------------------------------------

proof fn lemma_mlt_entry(
    b: crate::mlt_build::BuildView,
    entry: Entry,
    project: Project,
    audio: bool,
    paired: bool,
    fps: Fps,
    frames: int,
    first: Seq<WarningView>,
)
    requires
        begins(b.warnings, first),
    ensures
        begins(
            crate::mlt_build::with_entry(b, entry, project, audio, paired, fps, frames).warnings,
            first,
        ),
{
    if let Entry::Clip(placed) = entry {
        let clip = *placed.clip;
        let lost = lost_features(clip, "MLT"@);
        let source = as_list(source_warning(project, clip));
        let reverse = as_list(crate::mlt_build::reverse_warning(clip));
        lemma_begins_more(b.warnings, first, lost);
        lemma_begins_more(b.warnings + lost, first, source);
        lemma_begins_more(b.warnings + lost + source, first, reverse);
        let ready = crate::mlt_build::introduced(b, placed, project, audio, fps, frames).0;
        if paired && clip.transition() is Some {
            let t = clip.transition()->0;
            lemma_begins_more(
                ready.warnings,
                first,
                crate::mlt_build::overlap_warnings(ready, placed, t, fps),
            );
        }
    }
}

proof fn lemma_mlt_entries(
    b: crate::mlt_build::BuildView,
    entries: Seq<Entry>,
    project: Project,
    audio: bool,
    paired: bool,
    fps: Fps,
    frames: int,
    first: Seq<WarningView>,
)
    requires
        begins(b.warnings, first),
    ensures
        begins(
            crate::mlt_build::with_entries(
                b,
                entries,
                project,
                audio,
                paired,
                fps,
                frames,
            ).warnings,
            first,
        ),
    decreases entries.len(),
{
    if entries.len() > 0 {
        let rest = entries.drop_last();
        lemma_mlt_entries(b, rest, project, audio, paired, fps, frames, first);
        lemma_mlt_entry(
            crate::mlt_build::with_entries(b, rest, project, audio, paired, fps, frames),
            entries.last(),
            project,
            audio,
            paired,
            fps,
            frames,
            first,
        );
    }
}

proof fn lemma_mlt_tracks(
    p: crate::mlt_document::Progress,
    tracks: Seq<Track>,
    project: Project,
    fps: Fps,
    frames: int,
    kdenlive: bool,
    first: Seq<WarningView>,
)
    requires
        begins(p.warnings, first),
    ensures
        begins(
            crate::mlt_document::with_tracks(p, tracks, project, fps, frames, kdenlive).warnings,
            first,
        ),
    decreases tracks.len(),
{
    if tracks.len() > 0 {
        let rest = tracks.drop_last();
        lemma_mlt_tracks(p, rest, project, fps, frames, kdenlive, first);
        let before = crate::mlt_document::with_tracks(p, rest, project, fps, frames, kdenlive);
        let track = tracks.last();
        let entries = entries_of(track.clips@, fps);
        lemma_mlt_entries(
            crate::mlt_document::fresh(before),
            entries,
            project,
            track.kind == TrackKind::Audio,
            crate::mlt_document::is_paired(track, entries, kdenlive),
            fps,
            frames,
            first,
        );
    }
}

/// An MLT document warns of everything that it leaves behind.
pub proof fn law_mlt_tells_every_loss(project: Project, sequence: Sequence, kdenlive: bool)
    ensures
        has_all(
            crate::mlt_document::document_of(project, sequence, kdenlive).warnings,
            losses(sequence, "MLT"@, kept_by_mlt(kdenlive)),
        ),
{
    let tracks = clip_tracks(sequence.tracks@);
    let start = crate::mlt_document::beginning(sequence, kdenlive);
    let lost = losses(sequence, "MLT"@, kept_by_mlt(kdenlive));
    let before = crate::mlt_document::all_placing_warnings(tracks, sequence.fps)
        + crate::mlt_document::captions_warnings(sequence.tracks@);
    lemma_begins_itself(start.warnings);
    lemma_mlt_tracks(
        start,
        tracks,
        project,
        sequence.fps,
        crate::mlt_document::document_frames(sequence),
        kdenlive,
        before + lost,
    );
    lemma_begins_has(
        crate::mlt_document::document_of(project, sequence, kdenlive).warnings,
        before,
        lost,
    );
}

/// No transition is dropped in silence: an FCPXML or OTIO export of a sequence with a transition
/// on a clip that is switched on warns of it.
pub proof fn law_no_transition_is_dropped_in_silence(
    project: Project,
    sequence: Sequence,
    t: int,
    k: int,
)
    requires
        0 <= t < sequence.tracks@.len(),
        sequence.tracks@[t].kind != TrackKind::Caption,
        0 <= k < sequence.tracks@[t].clips@.len(),
        sequence.tracks@[t].clips@[k].enabled,
        sequence.tracks@[t].clips@[k].transition() is Some,
    ensures
        crate::fcpxml::needs_of(project, sequence).warnings.contains(
            crate::losses::transition_loss(sequence.tracks@[t].clips@[k], "FCPXML"@),
        ),
        crate::otio::document_warnings(project, sequence).contains(
            crate::losses::transition_loss(sequence.tracks@[t].clips@[k], "OTIO"@),
        ),
{
    law_fcpxml_tells_every_loss(project, sequence);
    law_otio_tells_every_loss(project, sequence);
    lemma_transition_told(
        crate::fcpxml::needs_of(project, sequence).warnings,
        sequence,
        "FCPXML"@,
        kept_by_fcpxml(),
        t,
        k,
    );
    lemma_transition_told(
        crate::otio::document_warnings(project, sequence),
        sequence,
        "OTIO"@,
        kept_by_otio(),
        t,
        k,
    );
}

proof fn lemma_transition_told(
    all: Seq<WarningView>,
    sequence: Sequence,
    format: Seq<char>,
    kept: Kept,
    t: int,
    k: int,
)
    requires
        0 <= t < sequence.tracks@.len(),
        sequence.tracks@[t].kind != TrackKind::Caption,
        0 <= k < sequence.tracks@[t].clips@.len(),
        sequence.tracks@[t].clips@[k].enabled,
        sequence.tracks@[t].clips@[k].transition() is Some,
        !kept.transitions,
        has_all(all, losses(sequence, format, kept)),
    ensures
        all.contains(
            crate::losses::transition_loss(sequence.tracks@[t].clips@[k], format),
        ),
{
    let clip = sequence.tracks@[t].clips@[k];
    let part = clip_losses(clip, sequence.tracks@[t].kind == TrackKind::Audio, format, kept);
    law_every_loss_is_told(sequence, format, kept, t, k);
    lemma_has_part(all, losses(sequence, format, kept), part);
    assert(part[0] == crate::losses::transition_loss(clip, format));
    let from = choose|from: int|
        0 <= from && from + part.len() <= all.len() && #[trigger] all.subrange(
            from,
            from + part.len(),
        ) == part;
    assert(all.subrange(from, from + part.len())[0] == all[from]);
}

} // verus!
