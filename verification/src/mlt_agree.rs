//! What is read of an MLT document agrees with the timeline on the frame grid, clip by clip.

use crate::mlt::{in_point, speed_of, ItemView, ProducerView};
use crate::mlt_back::{in_time, is_track, track_uses, use_slot, uses, Use};
use crate::mlt_build::{item_frames, playlist_frames, with_entries, BuildView};
use crate::mlt_document::{
    beginning, document_frames, document_of, finished, fresh, is_paired, lemma_clip_tracks, mixes,
    with_track, with_tracks, PlaylistView, Progress,
};
use crate::mlt_round::comes_back;
use crate::mlt_read::TimelineView;
use crate::project::{Clip, Project, Sequence, Track, TrackKind};
use crate::time::Fps;
use crate::timeline::{
    clip_tracks, entries_of, flattens, frames_in, is_flat,
    law_clips_stand_where_the_entries_before_them_end, lemma_blanks_are_not_negative, on_grid,
    sequence_fits, track_fits, Entry, FlatTrack, Placed,
};
use vstd::prelude::*;

verus! {

/// The clips among some entries, in order.
pub open spec fn clips_among(entries: Seq<Entry>) -> Seq<Placed>
    decreases entries.len(),
{
    if entries.len() == 0 {
        seq![]
    } else {
        match entries.last() {
            Entry::Blank { .. } => clips_among(entries.drop_last()),
            Entry::Clip(placed) => clips_among(entries.drop_last()).push(placed),
        }
    }
}

/// Whether an item is an entry as it stands on the grid.
pub open spec fn is_item(item: ItemView, entry: Entry) -> bool {
    match entry {
        Entry::Blank { frames } => item == ItemView::Blank(frames as int),
        Entry::Clip(placed) => {
            &&& item is Entry
            &&& item->Entry_0.in_frame == in_point(
                placed.source_in as int,
                speed_of(*placed.clip),
            )
            &&& item_frames(item) == placed.frames
        },
    }
}

pub open spec fn are_items(items: Seq<ItemView>, entries: Seq<Entry>) -> bool {
    &&& items.len() == entries.len()
    &&& forall|k: int| 0 <= k < items.len() ==> is_item(#[trigger] items[k], entries[k])
}

proof fn lemma_laid_out(
    b: BuildView,
    entries: Seq<Entry>,
    project: Project,
    audio: bool,
    paired: bool,
    fps: Fps,
    frames: int,
)
    requires
        b.main.len() == 0,
        b.side.len() == 0,
        !mixes(entries),
    ensures
        are_items(with_entries(b, entries, project, audio, paired, fps, frames).main, entries),
        with_entries(b, entries, project, audio, paired, fps, frames).side.len() == 0,
    decreases entries.len(),
{
    if entries.len() > 0 {
        let rest = entries.drop_last();
        assert(!mixes(rest)) by {
            if mixes(rest) {
                let i = choose|i: int|
                    0 <= i < rest.len() && (#[trigger] rest[i]) is Clip
                        && rest[i]->Clip_0.clip.transition() is Some;
                assert(entries[i] == rest[i]);
            }
        }
        lemma_laid_out(b, rest, project, audio, paired, fps, frames);
        let before = with_entries(b, rest, project, audio, paired, fps, frames);
        let after = with_entries(b, entries, project, audio, paired, fps, frames);
        assert(entries[entries.len() - 1] == entries.last());
        assert forall|k: int| 0 <= k < after.main.len() implies is_item(
            #[trigger] after.main[k],
            entries[k],
        ) by {
            if k < rest.len() {
                assert(after.main[k] == before.main[k]);
                assert(entries[k] == rest[k]);
            }
        }
    }
}

/// Whether a use of media is a clip as it stands on the grid.
pub open spec fn is_use(used: Use, placed: Placed) -> bool {
    &&& used.start == placed.start
    &&& used.frames == placed.frames
    &&& used.source_in == in_point(placed.source_in as int, speed_of(*placed.clip))
}

pub open spec fn are_uses(list: Seq<Use>, clips: Seq<Placed>) -> bool {
    &&& list.len() == clips.len()
    &&& forall|i: int| 0 <= i < list.len() ==> is_use(#[trigger] list[i], clips[i])
}

/// Whether uses are in the order in which they start, none behind a frame.
pub open spec fn ordered_to(list: Seq<Use>, end: int) -> bool {
    &&& forall|i: int, j: int|
        0 <= i <= j < list.len() ==> (#[trigger] list[i]).start <= (#[trigger] list[j]).start
    &&& forall|i: int| 0 <= i < list.len() ==> (#[trigger] list[i]).start <= end
}

proof fn lemma_uses(
    items: Seq<ItemView>,
    clips: Seq<Clip>,
    fps: Fps,
    n: int,
    producers: Seq<ProducerView>,
    kdenlive: bool,
)
    requires
        on_grid(clips, fps),
        are_items(items, entries_of(clips, fps)),
        0 <= n <= items.len(),
    ensures
        playlist_frames(items.take(n)) == frames_in(entries_of(clips, fps).take(n)),
        are_uses(
            uses(items.take(n), producers, kdenlive),
            clips_among(entries_of(clips, fps).take(n)),
        ),
        ordered_to(
            uses(items.take(n), producers, kdenlive),
            playlist_frames(items.take(n)),
        ),
    decreases n,
{
    let entries = entries_of(clips, fps);
    if n > 0 {
        lemma_uses(items, clips, fps, n - 1, producers, kdenlive);
        assert(items.take(n).drop_last() =~= items.take(n - 1));
        assert(entries.take(n).drop_last() =~= entries.take(n - 1));
        assert(items.take(n).last() == items[n - 1]);
        assert(entries.take(n).last() == entries[n - 1]);
        assert(is_item(items[n - 1], entries[n - 1]));
        match entries[n - 1] {
            Entry::Blank { .. } => {
                lemma_blanks_are_not_negative(clips, fps, n - 1);
            },
            Entry::Clip(_) => {
                law_clips_stand_where_the_entries_before_them_end(clips, fps, n - 1);
            },
        }
        let before = uses(items.take(n - 1), producers, kdenlive);
        let after = uses(items.take(n), producers, kdenlive);
        let end = playlist_frames(items.take(n));
        assert forall|i: int, j: int| 0 <= i <= j < after.len() implies (
        #[trigger] after[i]).start <= (#[trigger] after[j]).start by {
            if j < before.len() {
                assert(after[i] == before[i] && after[j] == before[j]);
            } else if i < before.len() {
                assert(after[i] == before[i]);
            }
        }
        assert forall|i: int| 0 <= i < after.len() implies (#[trigger] after[i]).start <= end by {
            if i < before.len() {
                assert(after[i] == before[i]);
            }
        }
    } else {
        assert(items.take(0) =~= seq![]);
        assert(entries.take(0) =~= seq![]);
    }
}

proof fn lemma_in_time(list: Seq<Use>, end: int)
    requires
        ordered_to(list, end),
    ensures
        in_time(list) == list,
    decreases list.len(),
{
    if list.len() > 0 {
        let rest = list.drop_last();
        assert forall|i: int, j: int| 0 <= i <= j < rest.len() implies (
        #[trigger] rest[i]).start <= (#[trigger] rest[j]).start by {
            assert(rest[i] == list[i] && rest[j] == list[j]);
        }
        assert forall|i: int| 0 <= i < rest.len() implies (#[trigger] rest[i]).start <= end by {
            assert(rest[i] == list[i]);
        }
        lemma_in_time(rest, end);
        if rest.len() > 0 {
            assert(rest.last() == list[list.len() - 2]);
            assert(list.last() == list[list.len() - 1]);
        }
        assert(use_slot(rest, list.last().start) == rest.len());
        assert(rest.insert(rest.len() as int, list.last()) =~= list);
    }
}

proof fn lemma_track_uses(
    p: Progress,
    track: Track,
    project: Project,
    fps: Fps,
    frames: int,
    kdenlive: bool,
    producers: Seq<ProducerView>,
)
    requires
        on_grid(track.clips@, fps),
        !mixes(entries_of(track.clips@, fps)),
    ensures
        are_uses(
            in_time(
                track_uses(
                    with_track(p, track, project, fps, frames, kdenlive).tracks.last().playlists,
                    producers,
                    kdenlive,
                ),
            ),
            clips_among(entries_of(track.clips@, fps)),
        ),
{
    let entries = entries_of(track.clips@, fps);
    let paired = is_paired(track, entries, kdenlive);
    let audio = track.kind == TrackKind::Audio;
    lemma_laid_out(fresh(p), entries, project, audio, paired, fps, frames);
    let b = with_entries(fresh(p), entries, project, audio, paired, fps, frames);
    let made = finished(b, track, paired);
    let n = entries.len() as int;
    lemma_uses(b.main, track.clips@, fps, n, producers, kdenlive);
    assert(b.main.take(n) =~= b.main);
    assert(entries.take(n) =~= entries);
    let list = uses(b.main, producers, kdenlive);
    lemma_lists(made.playlists, b.main, producers, kdenlive);
    lemma_in_time(list, playlist_frames(b.main));
}

proof fn lemma_lists(
    playlists: Seq<PlaylistView>,
    items: Seq<ItemView>,
    producers: Seq<ProducerView>,
    kdenlive: bool,
)
    requires
        1 <= playlists.len() <= 2,
        playlists[0].items == items,
        playlists.len() == 2 ==> playlists[1].items.len() == 0,
    ensures
        track_uses(playlists, producers, kdenlive) == uses(items, producers, kdenlive),
{
    reveal_with_fuel(track_uses, 3);
    let list = uses(items, producers, kdenlive);
    assert(Seq::<Use>::empty() + list =~= list);
    assert(list + Seq::<Use>::empty() =~= list);
    if playlists.len() == 2 {
        assert(playlists.drop_last()[0] == playlists[0]);
        assert(playlists.drop_last().last() == playlists[0]);
        assert(uses(playlists[1].items, producers, kdenlive) =~= seq![]);
        assert(playlists.last() == playlists[1]);
    } else {
        assert(playlists.last() == playlists[0]);
    }
}

proof fn lemma_tracks_uses(
    p: Progress,
    tracks: Seq<Track>,
    project: Project,
    fps: Fps,
    frames: int,
    kdenlive: bool,
    producers: Seq<ProducerView>,
    t: int,
)
    requires
        p.tracks.len() == 0,
        0 <= t < tracks.len(),
        on_grid(tracks[t].clips@, fps),
        !mixes(entries_of(tracks[t].clips@, fps)),
    ensures
        with_tracks(p, tracks, project, fps, frames, kdenlive).tracks.len() == tracks.len(),
        are_uses(
            in_time(
                track_uses(
                    with_tracks(p, tracks, project, fps, frames, kdenlive).tracks[t].playlists,
                    producers,
                    kdenlive,
                ),
            ),
            clips_among(entries_of(tracks[t].clips@, fps)),
        ),
    decreases tracks.len(),
{
    let rest = tracks.drop_last();
    crate::mlt_frames::lemma_tracks_count(p, rest, project, fps, frames, kdenlive);
    let before = with_tracks(p, rest, project, fps, frames, kdenlive);
    let made = with_tracks(p, tracks, project, fps, frames, kdenlive).tracks;
    if t == tracks.len() - 1 {
        lemma_track_uses(before, tracks.last(), project, fps, frames, kdenlive, producers);
        assert(made[t] == made.last());
    } else {
        lemma_tracks_uses(p, rest, project, fps, frames, kdenlive, producers, t);
        assert(made[t] == before.tracks[t]);
    }
}

/// The clips that are read of a track without transitions agree one by one with those on the frame
/// grid: each starts where it stood, is as long, and begins at the same frame of its source.
pub proof fn law_imported_clips_agree_with_the_grid(
    timeline: TimelineView,
    project: Project,
    sequence: Sequence,
    kdenlive: bool,
    flat: Seq<FlatTrack>,
    t: int,
)
    requires
        sequence_fits(sequence),
        is_flat(flat, sequence),
        comes_back(timeline, document_of(project, sequence, kdenlive), kdenlive),
        0 <= t < flat.len(),
        !mixes(flat[t].entries@),
    ensures
        timeline.tracks.len() == flat.len(),
        ({
            let read = timeline.tracks[t].clips;
            let clips = clips_among(flat[t].entries@);
            &&& read.len() == clips.len()
            &&& forall|i: int|
                0 <= i < read.len() ==> {
                    &&& (#[trigger] read[i]).start_frames == clips[i].start
                    &&& read[i].frames == clips[i].frames
                    &&& read[i].source_in_frames == in_point(
                        clips[i].source_in as int,
                        speed_of(*clips[i].clip),
                    )
                }
        }),
{
    let d = document_of(project, sequence, kdenlive);
    let tracks = clip_tracks(sequence.tracks@);
    assert(flattens(flat[t], tracks[t], sequence.fps));
    lemma_clip_tracks(sequence.tracks@, t);
    let k = choose|k: int|
        0 <= k < sequence.tracks@.len() && #[trigger] sequence.tracks@[k] == tracks[t]
            && sequence.tracks@[k].kind != TrackKind::Caption;
    assert(track_fits(sequence.tracks@[k], sequence.fps));
    lemma_tracks_uses(
        beginning(sequence, kdenlive),
        tracks,
        project,
        sequence.fps,
        document_frames(sequence),
        kdenlive,
        d.producers,
        t,
    );
    let read = timeline.tracks[t].clips;
    assert(is_track(
        timeline.tracks[t],
        timeline.tracks.take(t),
        d.tracks[t],
        d.producers,
        kdenlive,
    ));
    let list = in_time(track_uses(d.tracks[t].playlists, d.producers, kdenlive));
    let clips = clips_among(flat[t].entries@);
    assert(crate::mlt_back::clip_uses(read) == list);
    assert(list.len() == read.len());
    assert forall|i: int| 0 <= i < read.len() implies {
        &&& (#[trigger] read[i]).start_frames == clips[i].start
        &&& read[i].frames == clips[i].frames
        &&& read[i].source_in_frames == in_point(
            clips[i].source_in as int,
            speed_of(*clips[i].clip),
        )
    } by {
        assert(list[i] == crate::mlt_back::clip_use(read[i]));
        assert(is_use(list[i], clips[i]));
    }
}

} // verus!
