//! How long the playlists of an MLT document are.

use crate::mlt_build::{law_playlists_are_as_long_as_the_track, playlist_frames, with_entries};
use crate::mlt_document::{
    document_frames, document_of, finished, fresh, is_paired, lemma_clip_tracks, longest,
    with_track, with_tracks, Progress,
};
use crate::project::{Project, Sequence, Track, TrackKind};
use crate::time::Fps;
use crate::timeline::{
    clip_tracks, cursor_after, entries_of, flattens, is_flat, law_entries_fill_the_track, on_grid,
    sequence_fits, track_fits, FlatTrack,
};
use vstd::prelude::*;

verus! {

proof fn lemma_track_length(
    p: Progress,
    track: Track,
    project: Project,
    fps: Fps,
    frames: int,
    kdenlive: bool,
)
    requires
        on_grid(track.clips@, fps),
    ensures
        ({
            let last = with_track(p, track, project, fps, frames, kdenlive).tracks.last();
            &&& last.playlists.len() > 0
            &&& playlist_frames(last.playlists[0].items) == cursor_after(track.clips@, fps)
            &&& forall|k: int|
                0 <= k < last.playlists.len() ==> playlist_frames(
                    (#[trigger] last.playlists[k]).items,
                ) <= cursor_after(track.clips@, fps)
        }),
{
    let entries = entries_of(track.clips@, fps);
    let paired = is_paired(track, entries, kdenlive);
    let audio = track.kind == TrackKind::Audio;
    law_playlists_are_as_long_as_the_track(
        fresh(p),
        track.clips@,
        entries.len() as int,
        project,
        audio,
        paired,
        fps,
        frames,
    );
    assert(entries.take(entries.len() as int) =~= entries);
    law_entries_fill_the_track(track.clips@, fps);
    let b = with_entries(fresh(p), entries, project, audio, paired, fps, frames);
    let last = with_track(p, track, project, fps, frames, kdenlive).tracks.last();
    assert(last == finished(b, track, paired));
    assert(last.playlists[0].items == b.main);
    assert forall|k: int| 0 <= k < last.playlists.len() implies playlist_frames(
        (#[trigger] last.playlists[k]).items,
    ) <= cursor_after(track.clips@, fps) by {
        if k == 1 {
            assert(last.playlists[1].items == b.side);
        }
    }
}

proof fn lemma_tracks_length(
    p: Progress,
    tracks: Seq<Track>,
    project: Project,
    fps: Fps,
    frames: int,
    kdenlive: bool,
    t: int,
)
    requires
        p.tracks.len() == 0,
        0 <= t < tracks.len(),
        on_grid(tracks[t].clips@, fps),
    ensures
        ({
            let made = with_tracks(p, tracks, project, fps, frames, kdenlive).tracks;
            &&& made.len() == tracks.len()
            &&& made[t].playlists.len() > 0
            &&& playlist_frames(made[t].playlists[0].items) == cursor_after(tracks[t].clips@, fps)
            &&& forall|k: int|
                0 <= k < made[t].playlists.len() ==> playlist_frames(
                    (#[trigger] made[t].playlists[k]).items,
                ) <= cursor_after(tracks[t].clips@, fps)
        }),
    decreases tracks.len(),
{
    let rest = tracks.drop_last();
    lemma_tracks_count(p, rest, project, fps, frames, kdenlive);
    let before = with_tracks(p, rest, project, fps, frames, kdenlive);
    let made = with_tracks(p, tracks, project, fps, frames, kdenlive).tracks;
    if t == tracks.len() - 1 {
        lemma_track_length(before, tracks.last(), project, fps, frames, kdenlive);
        assert(made[t] == made.last());
    } else {
        lemma_tracks_length(p, rest, project, fps, frames, kdenlive, t);
        assert(made[t] == before.tracks[t]);
    }
}

pub proof fn lemma_tracks_count(
    p: Progress,
    tracks: Seq<Track>,
    project: Project,
    fps: Fps,
    frames: int,
    kdenlive: bool,
)
    requires
        p.tracks.len() == 0,
    ensures
        with_tracks(p, tracks, project, fps, frames, kdenlive).tracks.len() == tracks.len(),
    decreases tracks.len(),
{
    if tracks.len() > 0 {
        lemma_tracks_count(p, tracks.drop_last(), project, fps, frames, kdenlive);
    }
}

/// In a built document the first playlist of every track is exactly as long as the track, gaps
/// and clips and the overlaps of its transitions told, and none of its playlists is longer.
pub proof fn law_each_playlist_is_as_long_as_its_track(
    project: Project,
    sequence: Sequence,
    kdenlive: bool,
    flat: Seq<FlatTrack>,
    t: int,
)
    requires
        sequence_fits(sequence),
        is_flat(flat, sequence),
        0 <= t < flat.len(),
    ensures
        ({
            let d = document_of(project, sequence, kdenlive);
            &&& d.tracks.len() == flat.len()
            &&& d.tracks[t].playlists.len() > 0
            &&& playlist_frames(d.tracks[t].playlists[0].items) == flat[t].frames
            &&& forall|k: int|
                0 <= k < d.tracks[t].playlists.len() ==> playlist_frames(
                    (#[trigger] d.tracks[t].playlists[k]).items,
                ) <= flat[t].frames
        }),
{
    let tracks = clip_tracks(sequence.tracks@);
    assert(flattens(flat[t], tracks[t], sequence.fps));
    lemma_clip_tracks(sequence.tracks@, t);
    let k = choose|k: int|
        0 <= k < sequence.tracks@.len() && #[trigger] sequence.tracks@[k] == tracks[t]
            && sequence.tracks@[k].kind != TrackKind::Caption;
    assert(track_fits(sequence.tracks@[k], sequence.fps));
    lemma_tracks_length(
        crate::mlt_document::beginning(sequence, kdenlive),
        tracks,
        project,
        sequence.fps,
        document_frames(sequence),
        kdenlive,
        t,
    );
}

proof fn lemma_longest(tracks: Seq<Track>, fps: Fps)
    ensures
        longest(tracks, fps) >= 0,
        forall|t: int|
            0 <= t < tracks.len() ==> cursor_after((#[trigger] tracks[t]).clips@, fps) <= longest(
                tracks,
                fps,
            ),
        longest(tracks, fps) == 0 || exists|t: int|
            0 <= t < tracks.len() && cursor_after((#[trigger] tracks[t]).clips@, fps) == longest(
                tracks,
                fps,
            ),
    decreases tracks.len(),
{
    if tracks.len() > 0 {
        let rest = tracks.drop_last();
        lemma_longest(rest, fps);
        assert forall|t: int| 0 <= t < tracks.len() implies cursor_after(
            (#[trigger] tracks[t]).clips@,
            fps,
        ) <= longest(tracks, fps) by {
            if t < rest.len() {
                assert(rest[t] == tracks[t]);
            }
        }
        if longest(tracks, fps) != 0 {
            if longest(tracks, fps) == cursor_after(tracks.last().clips@, fps) {
                assert(tracks[tracks.len() - 1] == tracks.last());
            } else {
                let t = choose|t: int|
                    0 <= t < rest.len() && cursor_after((#[trigger] rest[t]).clips@, fps)
                        == longest(rest, fps);
                assert(rest[t] == tracks[t]);
            }
        }
    }
}

/// A built document is as long as its longest track, and at least a frame.
pub proof fn law_a_document_is_as_long_as_its_longest_track(
    project: Project,
    sequence: Sequence,
    kdenlive: bool,
    flat: Seq<FlatTrack>,
)
    requires
        is_flat(flat, sequence),
    ensures
        ({
            let d = document_of(project, sequence, kdenlive);
            &&& d.frames >= 1
            &&& forall|t: int| 0 <= t < flat.len() ==> (#[trigger] flat[t]).frames <= d.frames
            &&& d.frames == 1 || exists|t: int|
                0 <= t < flat.len() && (#[trigger] flat[t]).frames == d.frames
        }),
{
    let tracks = clip_tracks(sequence.tracks@);
    lemma_longest(tracks, sequence.fps);
    assert forall|t: int| 0 <= t < flat.len() implies (#[trigger] flat[t]).frames
        <= document_frames(sequence) by {
        assert(flattens(flat[t], tracks[t], sequence.fps));
    }
    if document_frames(sequence) != 1 {
        let t = choose|t: int|
            0 <= t < tracks.len() && cursor_after((#[trigger] tracks[t]).clips@, sequence.fps)
                == longest(tracks, sequence.fps);
        assert(flattens(flat[t], tracks[t], sequence.fps));
    }
}

} // verus!
