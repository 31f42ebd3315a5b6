//! What an import takes in, and what a caption file holds.

use crate::float_text::Float;
use crate::grid_laws::nearest_frame;
use crate::mlt_read::{ImportedClipView, ImportedTrackView};
use crate::project::{Asset, CaptionCue, Project, Sequence, Track, TrackKind};
use crate::rational::Rat;
use crate::text::{fold, same_folded};
use crate::time::{Fps, Time};
use crate::time_laws::{law_frames_stand_around_an_instant, same_time};
use crate::transfer::{
    caption_format, captions_warnings, dropped_warnings, is_resource, lay_clip, lay_clips,
    lay_track, lookup_at, movable, overlaps, planned_speed, rate_warning, snap_warning, wanted_cues,
    Laying, Reading,
};
use vstd::prelude::*;

verus! {

// ---------------------------------------------------------------------------
// Clips
// ---------------------------------------------------------------------------

/// A resource stands for the first asset that is it, and for none exactly if none is.
pub proof fn law_a_resource_is_the_first_that_fits(assets: Seq<Asset>, resource: Seq<char>)
    ensures
        ({
            let at = lookup_at(assets, resource);
            &&& at < 0 <==> forall|i: int|
                0 <= i < assets.len() ==> !is_resource(#[trigger] assets[i], resource)
            &&& at >= 0 ==> at < assets.len() && is_resource(assets[at], resource)
            &&& forall|i: int| 0 <= i < at ==> !is_resource(#[trigger] assets[i], resource)
        }),
    decreases assets.len(),
{
    if assets.len() > 0 {
        let rest = assets.drop_last();
        law_a_resource_is_the_first_that_fits(rest, resource);
        let before = lookup_at(rest, resource);
        if before >= 0 {
            assert(rest[before] == assets[before]);
            assert forall|i: int| 0 <= i < before implies !is_resource(
                #[trigger] assets[i],
                resource,
            ) by {
                assert(rest[i] == assets[i]);
            }
        } else {
            assert forall|i: int| 0 <= i < rest.len() implies !is_resource(
                #[trigger] assets[i],
                resource,
            ) by {
                assert(rest[i] == assets[i]);
            }
            assert(assets[assets.len() - 1] == assets.last());
        }
    }
}

/// Whether an instant is that of a frame.
pub open spec fn at_frame(at: Time, fps: Fps, frame: int) -> bool {
    at.secs.num * fps.rate.num == (frame * fps.rate.den) * at.secs.den
}

proof fn lemma_snap(at: Time, fps: Fps) -> (frame: int)
    requires
        at.wf(),
        fps.wf(),
        at.snap_fits(fps),
    ensures
        frame == at.round_frame(fps),
        nearest_frame(at, fps, frame),
        at_frame(at.spec_snap(fps), fps, frame),
        at.spec_snap(fps).wf(),
{
    law_frames_stand_around_an_instant(at, fps);
    Rat::lemma_of(at.round_frame(fps) * fps.rate.den, fps.rate.num as int);
    at.round_frame(fps)
}

/// A clip of media that the project has comes to stand on the frame nearest to its start, reads from
/// the frame nearest to where it did, and lasts the nearest number of frames, but one at least.
pub proof fn law_an_imported_clip_stands_on_its_nearest_frames(
    st: Laying,
    clip: ImportedClipView,
    project: Project,
    fps: Fps,
    laid: Laying,
) -> (r: (int, int, int))
    requires
        fps.wf(),
        clip.start.wf(),
        clip.duration.wf(),
        clip.source_in.wf(),
        lay_clip(st, clip, project, fps) == Ok::<Laying, crate::error::ErrorView>(laid),
        laid.clips.len() > st.clips.len(),
    ensures
        ({
            let placed = laid.clips.last();
            let (start, frames, source) = r;
            &&& laid.clips.drop_last() == st.clips
            &&& laid.dropped == st.dropped
            &&& nearest_frame(clip.start, fps, start) && at_frame(placed.start, fps, start)
            &&& nearest_frame(clip.source_in, fps, source) && at_frame(
                placed.source_in,
                fps,
                source,
            )
            &&& nearest_frame(clip.duration, fps, frames)
            &&& at_frame(
                placed.duration,
                fps,
                if frames >= 1 {
                    frames
                } else {
                    1
                },
            )
            &&& placed.name == clip.name
            &&& exists|i: int|
                0 <= i < project.assets@.len() && is_resource(
                    #[trigger] project.assets@[i],
                    clip.resource,
                ) && placed.asset == project.assets@[i].id@
            // Behind what was there, and what comes next is behind it.
            &&& !placed.start.lt(st.cursor)
            &&& laid.cursor == placed.start.spec_plus(placed.duration)
        }),
{
    law_a_resource_is_the_first_that_fits(project.assets@, clip.resource);
    let at = lookup_at(project.assets@, clip.resource);
    assert(is_resource(project.assets@[at], clip.resource));
    let placed = laid.clips.last();
    assert(laid.clips.drop_last() =~= st.clips);
    let start = lemma_snap(clip.start, fps);
    let frames = lemma_snap(clip.duration, fps);
    let source = lemma_snap(clip.source_in, fps);
    let (n, d) = (fps.rate.den as int, fps.rate.num as int);
    let snap = clip.duration.spec_snap(fps).secs;
    // The frame is d-th of n seconds; snap is `frames` of them.
    assert(snap.num * d == (frames * n) * snap.den);
    let one = fps.spec_frame_duration().secs;
    assert(one.num == n && one.den == d);
    assert(at_frame(fps.spec_frame_duration(), fps, 1)) by {
        assert(n * d == (1 * n) * d);
    }
    // one < snap exactly if there is more than one frame.
    assert((n * snap.den < snap.num * d) == (frames > 1)) by (nonlinear_arith)
        requires
            snap.num * d == (frames * n) * snap.den,
            n > 0,
            snap.den > 0,
    ;
    assert(frames == 1 ==> at_frame(clip.duration.spec_snap(fps), fps, 1));
    (start, frames, source)
}

/// A clip is taken in exactly if the project has its media and it does not start, on the grid, before
/// the clips in front of it end; otherwise it is told what was left out.
pub proof fn law_a_clip_is_taken_in_or_told(
    st: Laying,
    clip: ImportedClipView,
    project: Project,
    fps: Fps,
    laid: Laying,
)
    requires
        lay_clip(st, clip, project, fps) == Ok::<Laying, crate::error::ErrorView>(laid),
    ensures
        laid.clips.len() + laid.dropped.len() == st.clips.len() + st.dropped.len() + 1,
        laid.clips.len() > st.clips.len() <==> (exists|i: int|
            0 <= i < project.assets@.len() && is_resource(
                #[trigger] project.assets@[i],
                clip.resource,
            )) && !clip.start.spec_snap(fps).lt(st.cursor),
        laid.dropped.len() > st.dropped.len() ==> laid.dropped.drop_last() == st.dropped
            && laid.dropped.last().take(clip.resource.len() as int) == clip.resource && laid.clips
            == st.clips && laid.cursor == st.cursor,
{
    law_a_resource_is_the_first_that_fits(project.assets@, clip.resource);
    if laid.dropped.len() > st.dropped.len() {
        assert(laid.dropped.drop_last() =~= st.dropped);
        let told = laid.dropped.last();
        assert(told.take(clip.resource.len() as int) =~= clip.resource);
    }
}

/// Every clip of a playlist is taken in or told, and none twice.
pub proof fn law_every_imported_clip_is_accounted_for(
    st: Laying,
    clips: Seq<ImportedClipView>,
    project: Project,
    fps: Fps,
)
    ensures
        lay_clips(st, clips, project, fps) matches Ok(laid) ==> laid.clips.len()
            + laid.dropped.len() == st.clips.len() + st.dropped.len() + clips.len(),
    decreases clips.len(),
{
    if clips.len() > 0 {
        law_every_imported_clip_is_accounted_for(st, clips.drop_last(), project, fps);
        if let Ok(before) = lay_clips(st, clips.drop_last(), project, fps) {
            if let Ok(laid) = lay_clip(before, clips.last(), project, fps) {
                law_a_clip_is_taken_in_or_told(before, clips.last(), project, fps, laid);
            }
        }
    }
}

/// A clip counts as moved exactly if its start or its length is another on the grid, and only if the
/// project has its media.
pub proof fn law_a_moved_clip_is_counted(
    st: Laying,
    clip: ImportedClipView,
    project: Project,
    fps: Fps,
    laid: Laying,
)
    requires
        fps.wf(),
        clip.start.wf(),
        clip.duration.wf(),
        clip.duration.secs.num > 0,
        movable(clip, fps),
        lay_clip(st, clip, project, fps) == Ok::<Laying, crate::error::ErrorView>(laid),
    ensures
        laid.snapped == st.snapped || laid.snapped == st.snapped + 1,
        laid.snapped > st.snapped ==> exists|i: int|
            0 <= i < project.assets@.len() && is_resource(
                #[trigger] project.assets@[i],
                clip.resource,
            ),
        laid.clips.len() > st.clips.len() ==> (laid.snapped == st.snapped <==> same_time(
            laid.clips.last().start,
            clip.start,
        ) && same_time(laid.clips.last().duration, clip.duration)),
{
    law_a_resource_is_the_first_that_fits(project.assets@, clip.resource);
    let at = lookup_at(project.assets@, clip.resource);
    if at >= 0 {
        assert(is_resource(project.assets@[at], clip.resource));
    }
}

/// A clip plays at the size of its speed, backwards exactly if that is negative; at its own speed
/// where none is given. Its speed is never zero or negative.
pub proof fn law_a_negative_speed_plays_backwards(rate: Rat)
    requires
        rate.den > 0,
        rate.num > i64::MIN,
    ensures
        ({
            let (speed, reverse) = planned_speed(Float::Finite(rate));
            &&& speed.num > 0 && speed.den > 0
            &&& reverse <==> rate.num < 0
            &&& rate.num > 0 ==> speed == rate
            &&& rate.num < 0 ==> speed.num * rate.den == -rate.num * speed.den
            &&& rate.num == 0 ==> speed.num == speed.den
        }),
        planned_speed(Float::Special).0.num == planned_speed(Float::Special).0.den,
        !planned_speed(Float::Special).1,
{
    if rate.num < 0 {
        let speed = planned_speed(Float::Finite(rate)).0;
        assert(speed.num == -rate.num && speed.den == rate.den);
    }
}

/// A playlist becomes a track of its own exactly if a clip of it was taken in: of sound exactly if the
/// playlist was.
pub proof fn law_a_playlist_becomes_a_track(
    st: Reading,
    track: ImportedTrackView,
    project: Project,
    fps: Fps,
    read: Reading,
    laid: Laying,
)
    requires
        lay_track(st, track, project, fps) == Ok::<Reading, crate::error::ErrorView>(read),
        lay_clips(
            Laying {
                cursor: Time::zero_spec(),
                clips: seq![],
                dropped: st.dropped,
                snapped: st.snapped,
            },
            track.clips,
            project,
            fps,
        ) == Ok::<Laying, crate::error::ErrorView>(laid),
    ensures
        laid.clips.len() == 0 ==> read.tracks == st.tracks,
        laid.clips.len() > 0 ==> read.tracks.drop_last() == st.tracks && read.tracks.last().clips
            == laid.clips && (read.tracks.last().kind == TrackKind::Audio <==> track.audio) && (
        read.tracks.last().kind == TrackKind::Video <==> !track.audio),
        read.dropped == laid.dropped,
        read.snapped == laid.snapped,
        read.dropped.len() >= st.dropped.len(),
{
    law_every_imported_clip_is_accounted_for(
        Laying {
            cursor: Time::zero_spec(),
            clips: seq![],
            dropped: st.dropped,
            snapped: st.snapped,
        },
        track.clips,
        project,
        fps,
    );
    lemma_dropped_grows(
        Laying {
            cursor: Time::zero_spec(),
            clips: seq![],
            dropped: st.dropped,
            snapped: st.snapped,
        },
        track.clips,
        project,
        fps,
    );
    if laid.clips.len() > 0 {
        assert(read.tracks.drop_last() =~= st.tracks);
    }
}

proof fn lemma_dropped_grows(
    st: Laying,
    clips: Seq<ImportedClipView>,
    project: Project,
    fps: Fps,
)
    ensures
        lay_clips(st, clips, project, fps) matches Ok(laid) ==> laid.dropped.len()
            >= st.dropped.len(),
    decreases clips.len(),
{
    if clips.len() > 0 {
        lemma_dropped_grows(st, clips.drop_last(), project, fps);
    }
}

/// An import tells of another frame rate exactly if there is one, of moved clips exactly if there are
/// some, and of everything that was left out.
pub proof fn law_an_import_tells_what_it_changed(
    sequence: Sequence,
    fps: Fps,
    snapped: int,
    dropped: Seq<Seq<char>>,
)
    ensures
        rate_warning(sequence, fps).len() > 0 <==> fps != sequence.fps,
        snap_warning(sequence, snapped).len() > 0 <==> snapped > 0,
        dropped_warnings(dropped).len() == dropped.len(),
        forall|i: int|
            0 <= i < dropped.len() ==> (#[trigger] dropped_warnings(dropped)[i]).target
                == dropped[i],
{
}

// ---------------------------------------------------------------------------
// Caption files
// ---------------------------------------------------------------------------

/// Whether a caption track is asked for: every one is where none is named.
pub open spec fn asked_for(track: Track, wanted: Option<Seq<char>>) -> bool {
    track.kind == TrackKind::Caption && (wanted matches Some(name) ==> track.id@ == name
        || same_folded(track.name@, name))
}

/// Every cue of every caption track that is asked for is in the file.
pub proof fn law_every_cue_asked_for_is_written(
    tracks: Seq<Track>,
    wanted: Option<Seq<char>>,
    t: int,
    c: int,
) -> (i: int)
    requires
        0 <= t < tracks.len(),
        0 <= c < tracks[t].cues@.len(),
        asked_for(tracks[t], wanted),
    ensures
        0 <= i < wanted_cues(tracks, wanted).len(),
        wanted_cues(tracks, wanted)[i] == tracks[t].cues@[c],
    decreases tracks.len(),
{
    let rest = tracks.drop_last();
    let before = wanted_cues(rest, wanted);
    if t < rest.len() {
        assert(rest[t] == tracks[t]);
        let i = law_every_cue_asked_for_is_written(rest, wanted, t, c);
        assert(wanted_cues(tracks, wanted)[i] == before[i]);
        i
    } else {
        let i = before.len() + c;
        assert(wanted_cues(tracks, wanted)[i] == tracks[t].cues@[c]);
        i
    }
}

/// Only cues of such tracks are in the file.
pub proof fn law_only_cues_asked_for_are_written(
    tracks: Seq<Track>,
    wanted: Option<Seq<char>>,
    i: int,
) -> (r: (int, int))
    requires
        0 <= i < wanted_cues(tracks, wanted).len(),
    ensures
        0 <= r.0 < tracks.len(),
        0 <= r.1 < tracks[r.0].cues@.len(),
        asked_for(tracks[r.0], wanted),
        wanted_cues(tracks, wanted)[i] == tracks[r.0].cues@[r.1],
    decreases tracks.len(),
{
    let rest = tracks.drop_last();
    let before = wanted_cues(rest, wanted);
    if i < before.len() {
        let r = law_only_cues_asked_for_are_written(rest, wanted, i);
        assert(wanted_cues(tracks, wanted)[i] == before[i]);
        assert(rest[r.0] == tracks[r.0]);
        r
    } else {
        (tracks.len() - 1, i - before.len())
    }
}

/// A file holds as many cues as the caption tracks that are asked for do.
pub proof fn law_no_cue_is_written_twice(tracks: Seq<Track>, wanted: Option<Seq<char>>)
    ensures
        wanted_cues(tracks, wanted).len() == tracks.fold_left(
            0int,
            |n: int, track: Track|
                if asked_for(track, wanted) {
                    n + track.cues@.len()
                } else {
                    n
                },
        ),
    decreases tracks.len(),
{
    if tracks.len() > 0 {
        law_no_cue_is_written_twice(tracks.drop_last(), wanted);
    }
}

/// One more cue is one more overlap exactly if it starts before the last one ends.
pub proof fn law_an_overlap_is_counted(cues: Seq<CaptionCue>, cue: CaptionCue)
    ensures
        overlaps(Seq::<CaptionCue>::empty()) == 0,
        overlaps(cues.push(cue)) == overlaps(cues) + if cues.len() > 0 && cue.span.start.lt(
            cues.last().span.end,
        ) {
            1int
        } else {
            0int
        },
{
    assert(cues.push(cue).drop_last() =~= cues);
}

/// A caption file tells of overlaps exactly if one of its cues starts before the one in front ends.
pub proof fn law_overlapping_cues_are_told(
    sequence: Sequence,
    wanted: Option<Seq<char>>,
)
    ensures
        captions_warnings(sequence, wanted).len() > 0 <==> exists|i: int|
            0 < i < wanted_cues(sequence.tracks@, wanted).len() && (#[trigger] wanted_cues(
                sequence.tracks@,
                wanted,
            )[i]).span.start.lt(wanted_cues(sequence.tracks@, wanted)[i - 1].span.end),
{
    lemma_overlaps(wanted_cues(sequence.tracks@, wanted));
}

proof fn lemma_overlaps(cues: Seq<CaptionCue>)
    ensures
        overlaps(cues) > 0 <==> exists|i: int|
            0 < i < cues.len() && (#[trigger] cues[i]).span.start.lt(cues[i - 1].span.end),
    decreases cues.len(),
{
    if cues.len() >= 2 {
        let rest = cues.drop_last();
        lemma_overlaps(rest);
        let n = cues.len() - 1;
        assert(cues.last() == cues[n]);
        if overlaps(rest) > 0 {
            let i = choose|i: int|
                0 < i < rest.len() && (#[trigger] rest[i]).span.start.lt(rest[i - 1].span.end);
            assert(cues[i] == rest[i] && cues[i - 1] == rest[i - 1]);
        }
        assert forall|i: int|
            0 < i < cues.len() && (#[trigger] cues[i]).span.start.lt(
                cues[i - 1].span.end,
            ) implies overlaps(cues) > 0 by {
            if i < n {
                assert(rest[i] == cues[i] && rest[i - 1] == cues[i - 1]);
            }
        }
    }
}

/// A format that is asked for is taken whatever its case; without one a name that ends in `.vtt` is a
/// WebVTT file, and any other a SubRip file.
pub proof fn law_a_format_that_is_asked_for_is_taken(out: Seq<char>, a: Seq<char>, b: Seq<char>)
    ensures
        same_folded(a, b) ==> caption_format(out, Some(a)) == caption_format(out, Some(b)),
        same_folded(caption_format(out, Some(a)), a),
        crate::paths::extension_is(out, "vtt"@) ==> caption_format(out, None) == "vtt"@,
        !crate::paths::extension_is(out, "vtt"@) ==> caption_format(out, None) == "srt"@,
{
    let shown = caption_format(out, Some(a));
    assert forall|i: int| 0 <= i < a.len() implies fold(#[trigger] shown[i]) == fold(a[i]) by {}
    assert(shown.map_values(|c: char| fold(c)) =~= a.map_values(|c: char| fold(c)));
}

} // verus!
