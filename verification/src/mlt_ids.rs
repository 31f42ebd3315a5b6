//! The identifiers of a document: each kind is numbered in order, so none is given twice.

use crate::mlt::{numbered, ProducerView, TransitionView};
use crate::mlt_build::{with_entries, BuildView};
use crate::mlt_document::{
    beginning, document_frames, document_of, finished, fresh, is_paired, with_track, with_tracks,
    Progress, TrackView,
};
use crate::mlt_laws::law_each_use_of_media_is_one_producer;
use crate::project::{Project, Sequence, Track, TrackKind};
use crate::time::Fps;
use crate::timeline::{clip_tracks, entries_of, Entry};
use vstd::prelude::*;

verus! {

/// How many playlists the first `t` tracks have.
pub open spec fn lists_before(tracks: Seq<TrackView>, t: int) -> int
    decreases t,
{
    if t <= 0 {
        0
    } else {
        lists_before(tracks, t - 1) + tracks[t - 1].playlists.len()
    }
}

/// How many tractors the first `t` tracks have.
pub open spec fn tractors_before(tracks: Seq<TrackView>, t: int) -> int
    decreases t,
{
    if t <= 0 {
        0
    } else {
        tractors_before(tracks, t - 1) + if tracks[t - 1].tractor is Some {
            1int
        } else {
            0int
        }
    }
}

/// Whether an identifier is one of a transition.
pub open spec fn is_transition_id(id: Seq<char>) -> bool {
    id.len() > 3 && id[0] == 't' && id[3] == 'n'
}

pub open spec fn transition_ids(transitions: Seq<TransitionView>) -> bool {
    forall|k: int| 0 <= k < transitions.len() ==> is_transition_id((#[trigger] transitions[k]).id)
}

/// Whether a track's elements are numbered from where the tracks in front of it end.
pub open spec fn track_numbered(track: TrackView, lists: int, tractors: int) -> bool {
    &&& track.playlists.len() == (if track.tractor is Some {
        2int
    } else {
        1int
    })
    &&& forall|j: int|
        0 <= j < track.playlists.len() ==> (#[trigger] track.playlists[j]).id == numbered(
            "playlist"@,
            lists + j,
        )
    &&& track.tractor matches Some(id) ==> id == numbered("tractor"@, tractors)
    &&& track.reference == (match track.tractor {
        Some(id) => id,
        None => track.playlists[0].id,
    })
    &&& transition_ids(track.transitions)
}

pub open spec fn tracks_numbered(tracks: Seq<TrackView>) -> bool {
    forall|t: int|
        0 <= t < tracks.len() ==> track_numbered(
            #[trigger] tracks[t],
            lists_before(tracks, t),
            tractors_before(tracks, t),
        )
}

proof fn lemma_transition_id(n: int)
    ensures
        is_transition_id(numbered("transition"@, n)),
{
    reveal_strlit("transition");
    assert("transition"@.len() == 10 && "transition"@[0] == 't' && "transition"@[3] == 'n');
}

proof fn lemma_entries(
    b: BuildView,
    entries: Seq<Entry>,
    project: Project,
    audio: bool,
    paired: bool,
    fps: Fps,
    frames: int,
)
    requires
        transition_ids(b.transitions),
    ensures
        ({
            let after = with_entries(b, entries, project, audio, paired, fps, frames);
            &&& after.ids.playlist == b.ids.playlist
            &&& after.ids.tractor == b.ids.tractor
            &&& transition_ids(after.transitions)
        }),
    decreases entries.len(),
{
    if entries.len() > 0 {
        lemma_entries(b, entries.drop_last(), project, audio, paired, fps, frames);
        let before = with_entries(b, entries.drop_last(), project, audio, paired, fps, frames);
        lemma_transition_id(before.ids.transition);
        let after = with_entries(b, entries, project, audio, paired, fps, frames);
        assert forall|k: int| 0 <= k < after.transitions.len() implies is_transition_id(
            (#[trigger] after.transitions[k]).id,
        ) by {
            if k < before.transitions.len() {
                assert(after.transitions[k] == before.transitions[k]);
            }
        }
    }
}

proof fn lemma_counts(tracks: Seq<TrackView>, more: TrackView, t: int)
    requires
        0 <= t <= tracks.len(),
    ensures
        lists_before(tracks.push(more), t) == lists_before(tracks, t),
        tractors_before(tracks.push(more), t) == tractors_before(tracks, t),
    decreases t,
{
    if t > 0 {
        lemma_counts(tracks, more, t - 1);
    }
}

pub open spec fn progress_numbered(p: Progress) -> bool {
    &&& tracks_numbered(p.tracks)
    &&& p.ids.playlist == lists_before(p.tracks, p.tracks.len() as int)
    &&& p.ids.tractor == tractors_before(p.tracks, p.tracks.len() as int)
}

/// A finished track is numbered from where its numbers start.
proof fn lemma_finished(b: BuildView, track: Track, paired: bool)
    requires
        transition_ids(b.transitions),
    ensures
        track_numbered(finished(b, track, paired), b.ids.playlist, b.ids.tractor),
{
    let made = finished(b, track, paired);
    lemma_transition_id(b.ids.transition);
    assert forall|k: int| 0 <= k < made.transitions.len() implies is_transition_id(
        (#[trigger] made.transitions[k]).id,
    ) by {
        if k < b.transitions.len() {
            assert(made.transitions[k] == b.transitions[k]);
        }
    }
}

/// A track that is numbered on from those in front of it can stand behind them.
proof fn lemma_behind(tracks: Seq<TrackView>, made: TrackView)
    requires
        tracks_numbered(tracks),
        track_numbered(
            made,
            lists_before(tracks, tracks.len() as int),
            tractors_before(tracks, tracks.len() as int),
        ),
    ensures
        tracks_numbered(tracks.push(made)),
        lists_before(tracks.push(made), tracks.len() as int + 1) == lists_before(
            tracks,
            tracks.len() as int,
        ) + made.playlists.len(),
        tractors_before(tracks.push(made), tracks.len() as int + 1) == tractors_before(
            tracks,
            tracks.len() as int,
        ) + if made.tractor is Some {
            1int
        } else {
            0int
        },
{
    let after = tracks.push(made);
    assert forall|t: int| 0 <= t < after.len() implies track_numbered(
        #[trigger] after[t],
        lists_before(after, t),
        tractors_before(after, t),
    ) by {
        lemma_counts(tracks, made, t);
        if t < tracks.len() {
            assert(after[t] == tracks[t]);
        }
    }
    lemma_counts(tracks, made, tracks.len() as int);
}

proof fn lemma_track(
    p: Progress,
    track: Track,
    project: Project,
    fps: Fps,
    frames: int,
    kdenlive: bool,
)
    requires
        progress_numbered(p),
    ensures
        progress_numbered(with_track(p, track, project, fps, frames, kdenlive)),
        with_track(p, track, project, fps, frames, kdenlive).tracks.len() == p.tracks.len() + 1,
{
    let entries = entries_of(track.clips@, fps);
    let paired = is_paired(track, entries, kdenlive);
    let audio = track.kind == TrackKind::Audio;
    lemma_entries(fresh(p), entries, project, audio, paired, fps, frames);
    let b = with_entries(fresh(p), entries, project, audio, paired, fps, frames);
    lemma_finished(b, track, paired);
    lemma_behind(p.tracks, finished(b, track, paired));
}

proof fn lemma_tracks(
    p: Progress,
    tracks: Seq<Track>,
    project: Project,
    fps: Fps,
    frames: int,
    kdenlive: bool,
)
    requires
        progress_numbered(p),
    ensures
        progress_numbered(with_tracks(p, tracks, project, fps, frames, kdenlive)),
        with_tracks(p, tracks, project, fps, frames, kdenlive).tracks.len() == p.tracks.len()
            + tracks.len(),
    decreases tracks.len(),
{
    if tracks.len() > 0 {
        lemma_tracks(p, tracks.drop_last(), project, fps, frames, kdenlive);
        let before = with_tracks(p, tracks.drop_last(), project, fps, frames, kdenlive);
        lemma_track(before, tracks.last(), project, fps, frames, kdenlive);
    }
}

/// The producers of a document are numbered in order.
pub open spec fn producers_numbered(producers: Seq<ProducerView>) -> bool {
    forall|k: int|
        0 <= k < producers.len() ==> (#[trigger] producers[k]).id == numbered("producer"@, k)
}

/// The identifiers of a sequence's document are numbered, each kind in order.
pub proof fn lemma_document_is_numbered(project: Project, sequence: Sequence, kdenlive: bool)
    ensures
        tracks_numbered(document_of(project, sequence, kdenlive).tracks),
        producers_numbered(document_of(project, sequence, kdenlive).producers),
        document_of(project, sequence, kdenlive).tracks.len() == clip_tracks(
            sequence.tracks@,
        ).len(),
{
    let p = beginning(sequence, kdenlive);
    let frames = document_frames(sequence);
    let tracks = clip_tracks(sequence.tracks@);
    lemma_tracks(p, tracks, project, sequence.fps, frames, kdenlive);
    law_each_use_of_media_is_one_producer(p, tracks, project, sequence.fps, frames, kdenlive);
    let made = with_tracks(p, tracks, project, sequence.fps, frames, kdenlive);
    let d = document_of(project, sequence, kdenlive);
    assert forall|k: int| 0 <= k < d.producers.len() implies (#[trigger] d.producers[k]).id
        == numbered("producer"@, k) by {
        assert(d.producers[k].id == made.producers[k].id);
    }
}

} // verus!
