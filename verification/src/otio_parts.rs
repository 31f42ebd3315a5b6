//! What an OpenTimelineIO document says of each of its parts.

use crate::grid_laws::{laid_out, law_clips_stand_on_their_nearest_frames, nearest_frame};
use crate::json::JsonView;
use crate::mlt::path_of;
use crate::otio::{
    child_json, children_json, clip_json, document_json, gap_json, marker_json, markers_json,
    range_json, reference_json, time_json, track_json, tracks_json,
};
use crate::otio_laws::{entry_lengths, sum};
use crate::project::{Asset, Marker, Project, Sequence, Track, TrackKind};
use crate::text::{dec, dec_int};
use crate::time::Fps;
use crate::time_laws::law_frames_stand_around_an_instant;
use crate::timeline::{
    clip_tracks, entries_of, frames_in, law_clips_stand_where_the_entries_before_them_end, on_grid,
    resource_of, url_of, Entry, Placed, Resource,
};
use vstd::prelude::*;

verus! {

/// Whether an object has a member of that name and value.
pub open spec fn has(json: JsonView, name: Seq<char>, value: JsonView) -> bool {
    json is Object && exists|k: int|
        0 <= k < json->Object_0.len() && (#[trigger] json->Object_0[k]).name == name
            && json->Object_0[k].value == value
}

proof fn lemma_has(json: JsonView, k: int)
    requires
        json is Object,
        0 <= k < json->Object_0.len(),
    ensures
        has(json, json->Object_0[k].name, json->Object_0[k].value),
{
}

/// Whether a value is a number of frames at a rate.
pub open spec fn counts(json: JsonView, frames: int, rate: Seq<char>) -> bool {
    &&& has(json, "value"@, JsonView::Number(dec_int(frames) + ".0"@))
    &&& has(json, "rate"@, JsonView::Number(rate))
}

/// Whether a value is the range of so many frames from a frame on.
pub open spec fn spans(json: JsonView, from: int, frames: int, rate: Seq<char>) -> bool {
    exists|start: JsonView, length: JsonView|
        #[trigger] has(json, "start_time"@, start) && #[trigger] has(json, "duration"@, length)
            && counts(start, from, rate) && counts(length, frames, rate)
}

/// Whether an object has a member of that name which is the range of so many frames from a frame on.
pub open spec fn has_range(
    json: JsonView,
    name: Seq<char>,
    from: int,
    frames: int,
    rate: Seq<char>,
) -> bool {
    exists|range: JsonView| #[trigger] has(json, name, range) && spans(range, from, frames, rate)
}

proof fn lemma_range(from: int, frames: int, rate: Seq<char>)
    ensures
        spans(range_json(from, frames, rate), from, frames, rate),
{
    let json = range_json(from, frames, rate);
    let (length, start) = (time_json(frames, rate), time_json(from, rate));
    lemma_has(json, 1);
    lemma_has(json, 2);
    lemma_has(length, 1);
    lemma_has(length, 2);
    lemma_has(start, 1);
    lemma_has(start, 2);
    assert(has(json, "start_time"@, start) && has(json, "duration"@, length));
}

/// A clip of a file says which frames of the file it reads, where the file is and how long it is,
/// which clip of the project it is, and that it plays.
pub proof fn law_a_clip_says_what_it_reads(
    placed: Placed,
    asset: Asset,
    fps: Fps,
    rate: Seq<char>,
) -> (r: (JsonView, JsonView, int))
    requires
        fps.wf(),
        asset.probe.duration.wf(),
    ensures
        ({
            let json = clip_json(placed, asset, fps, rate);
            let (file, own, available) = r;
            let top = asset.probe.duration.secs.num * fps.rate.num;
            let bottom = asset.probe.duration.secs.den * fps.rate.den;
            &&& has(json, "OTIO_SCHEMA"@, JsonView::Text("Clip.1"@))
            &&& has(json, "name"@, JsonView::Text(placed.clip.shown_name()))
            &&& has_range(
                json,
                "source_range"@,
                placed.source_in as int,
                placed.frames as int,
                rate,
            )
            &&& has(json, "enabled"@, JsonView::Bool(true))
            &&& has(json, "media_reference"@, file)
            &&& has(file, "target_url"@, JsonView::Text(url_of(path_of(asset))))
            &&& has(file, "name"@, JsonView::Text(asset.name@))
            &&& has_range(file, "available_range"@, 0, available, rate)
            // The fewest frames that hold all of the file, and one at least.
            &&& available >= 1 && top <= available * bottom && (available > 1 ==> (available - 1)
                * bottom < top)
            &&& has(own, "clip"@, JsonView::Text(placed.clip.id@))
            &&& has(own, "asset"@, JsonView::Text(asset.id@))
            &&& has(own, "speed"@, JsonView::Text(placed.clip.speed.text()))
            &&& exists|outer: JsonView| #[trigger]
                has(json, "metadata"@, outer) && has(outer, "dvs"@, own)
        }),
{
    let json = clip_json(placed, asset, fps, rate);
    let file = reference_json(asset, fps, rate);
    let available = crate::mlt::asset_length(asset, fps);
    lemma_has(json, 0);
    lemma_has(json, 1);
    lemma_has(json, 2);
    lemma_has(json, 3);
    lemma_has(json, 6);
    lemma_has(json, 7);
    lemma_range(placed.source_in as int, placed.frames as int, rate);
    lemma_has(file, 2);
    lemma_has(file, 3);
    lemma_has(file, 5);
    lemma_range(0, available, rate);
    let outer = json->Object_0[1].value;
    lemma_has(outer, 0);
    let own = outer->Object_0[0].value;
    lemma_has(own, 0);
    lemma_has(own, 1);
    lemma_has(own, 2);
    law_frames_stand_around_an_instant(asset.probe.duration, fps);
    let top = asset.probe.duration.secs.num * fps.rate.num;
    let bottom = asset.probe.duration.secs.den * fps.rate.den;
    let ceiling = asset.probe.duration.ceil_frame(fps);
    assert(ceiling < 1 ==> top <= bottom) by (nonlinear_arith)
        requires
            top <= ceiling * bottom,
            bottom > 0,
    ;
    assert(has(json, "metadata"@, outer) && has(outer, "dvs"@, own));
    (file, own, available)
}

/// A gap stands for so many frames from the first one on; where a clip has no file, the gap has its
/// name and takes as long.
pub proof fn law_a_gap_keeps_the_place(entry: Entry, project: Project, fps: Fps, rate: Seq<char>)
    ensures
        entry matches Entry::Blank { frames } ==> {
            let json = child_json(entry, project, fps, rate);
            &&& has(json, "OTIO_SCHEMA"@, JsonView::Text("Gap.1"@))
            &&& has_range(json, "source_range"@, 0, frames as int, rate)
        },
        entry matches Entry::Clip(placed) ==> resource_of(project, *placed.clip) is Color ==> {
            let json = child_json(entry, project, fps, rate);
            &&& has(json, "OTIO_SCHEMA"@, JsonView::Text("Gap.1"@))
            &&& has(json, "name"@, JsonView::Text(placed.clip.shown_name()))
            &&& has_range(json, "source_range"@, 0, placed.frames as int, rate)
        },
        entry matches Entry::Clip(placed) ==> (resource_of(project, *placed.clip) matches Resource::File {
            asset,
        } ==> child_json(entry, project, fps, rate) == clip_json(placed, *asset, fps, rate)),
{
    let json = child_json(entry, project, fps, rate);
    match entry {
        Entry::Blank { frames } => {
            lemma_gap("gap"@, frames as int, rate);
        },
        Entry::Clip(placed) => {
            lemma_gap(placed.clip.shown_name(), placed.frames as int, rate);
        },
    }
}

proof fn lemma_gap(name: Seq<char>, frames: int, rate: Seq<char>)
    ensures
        has(gap_json(name, frames, rate), "OTIO_SCHEMA"@, JsonView::Text("Gap.1"@)),
        has(gap_json(name, frames, rate), "name"@, JsonView::Text(name)),
        has_range(gap_json(name, frames, rate), "source_range"@, 0, frames, rate),
{
    let json = gap_json(name, frames, rate);
    lemma_has(json, 0);
    lemma_has(json, 2);
    lemma_has(json, 3);
    lemma_range(0, frames, rate);
}

proof fn lemma_children(entries: Seq<Entry>, project: Project, fps: Fps, rate: Seq<char>, i: int)
    ensures
        children_json(entries, project, fps, rate).len() == entries.len(),
        0 <= i < entries.len() ==> children_json(entries, project, fps, rate)[i] == child_json(
            entries[i],
            project,
            fps,
            rate,
        ),
    decreases entries.len(),
{
    if entries.len() > 0 {
        lemma_children(entries.drop_last(), project, fps, rate, i);
    }
}

proof fn lemma_lengths(entries: Seq<Entry>)
    ensures
        sum(entry_lengths(entries)) == frames_in(entries),
    decreases entries.len(),
{
    if entries.len() > 0 {
        assert(entry_lengths(entries).drop_last() =~= entry_lengths(entries.drop_last()));
        lemma_lengths(entries.drop_last());
    }
}

/// What a placed clip is written as stands behind children that together last until the frame that is
/// nearest to the clip's start, and ends at the one that is nearest to its end.
pub proof fn law_a_child_stands_where_its_clip_does(
    track: Track,
    project: Project,
    fps: Fps,
    rate: Seq<char>,
    i: int,
)
    requires
        fps.wf(),
        on_grid(track.clips@, fps),
        laid_out(track.clips@, fps),
        0 <= i < entries_of(track.clips@, fps).len(),
        entries_of(track.clips@, fps)[i] is Clip,
    ensures
        ({
            let entries = entries_of(track.clips@, fps);
            let placed = entries[i]->Clip_0;
            let before = sum(entry_lengths(entries.take(i)));
            &&& children_json(entries, project, fps, rate).len() == entries.len()
            &&& children_json(entries, project, fps, rate)[i] == child_json(
                Entry::Clip(placed),
                project,
                fps,
                rate,
            )
            &&& nearest_frame(placed.clip.start, fps, before)
            &&& nearest_frame(placed.clip.spec_end(), fps, before + placed.frames)
            &&& nearest_frame(placed.clip.source_in, fps, placed.source_in as int)
        }),
{
    let entries = entries_of(track.clips@, fps);
    lemma_children(entries, project, fps, rate, i);
    law_clips_stand_where_the_entries_before_them_end(track.clips@, fps, i);
    law_clips_stand_on_their_nearest_frames(track.clips@, fps, i);
    lemma_lengths(entries.take(i));
}

/// A track says what it is called, whether it carries pictures or sound, and that it is off exactly
/// if it is muted or hidden.
pub proof fn law_a_track_says_whether_it_plays(
    track: Track,
    project: Project,
    fps: Fps,
    rate: Seq<char>,
    total: int,
)
    ensures
        ({
            let json = track_json(track, project, fps, rate, total);
            &&& has(json, "OTIO_SCHEMA"@, JsonView::Text("Track.1"@))
            &&& has(json, "name"@, JsonView::Text(track.name@))
            &&& track.kind == TrackKind::Audio ==> has(json, "kind"@, JsonView::Text("Audio"@))
            &&& track.kind != TrackKind::Audio ==> has(json, "kind"@, JsonView::Text("Video"@))
            &&& track.muted || track.hidden ==> has(json, "enabled"@, JsonView::Bool(false))
            &&& !track.muted && !track.hidden ==> has(json, "enabled"@, JsonView::Bool(true))
        }),
{
    let json = track_json(track, project, fps, rate, total);
    lemma_has(json, 0);
    lemma_has(json, 2);
    lemma_has(json, 6);
    lemma_has(json, 8);
}

proof fn lemma_tracks(
    tracks: Seq<Track>,
    project: Project,
    fps: Fps,
    rate: Seq<char>,
    total: int,
    t: int,
)
    ensures
        tracks_json(tracks, project, fps, rate, total).len() == tracks.len(),
        0 <= t < tracks.len() ==> tracks_json(tracks, project, fps, rate, total)[t] == track_json(
            tracks[t],
            project,
            fps,
            rate,
            total,
        ),
    decreases tracks.len(),
{
    if tracks.len() > 0 {
        lemma_tracks(tracks.drop_last(), project, fps, rate, total, t);
    }
}

/// A marker stands for no frame, at the frame nearest to it, under its name and with its note.
pub proof fn law_a_marker_stands_on_its_nearest_frame(marker: Marker, fps: Fps, rate: Seq<char>) -> (at:
    int)
    requires
        marker.at.wf(),
        fps.wf(),
    ensures
        ({
            let json = marker_json(marker, fps, rate);
            &&& has(json, "OTIO_SCHEMA"@, JsonView::Text("Marker.2"@))
            &&& has(json, "name"@, JsonView::Text(marker.name@))
            &&& has_range(json, "marked_range"@, at, 0, rate)
            &&& nearest_frame(marker.at, fps, at)
            &&& marker.note matches Some(note) ==> has(json, "comment"@, JsonView::Text(note@))
        }),
{
    let json = marker_json(marker, fps, rate);
    let at = marker.at.round_frame(fps);
    lemma_has(json, 0);
    lemma_has(json, 2);
    lemma_has(json, 4);
    lemma_has(json, 5);
    lemma_range(at, 0, rate);
    law_frames_stand_around_an_instant(marker.at, fps);
    at
}

proof fn lemma_markers(markers: Seq<Marker>, fps: Fps, rate: Seq<char>, i: int)
    ensures
        markers_json(markers, fps, rate).len() == markers.len(),
        0 <= i < markers.len() ==> markers_json(markers, fps, rate)[i] == marker_json(
            markers[i],
            fps,
            rate,
        ),
    decreases markers.len(),
{
    if markers.len() > 0 {
        lemma_markers(markers.drop_last(), fps, rate, i);
    }
}

/// A document starts at frame zero, states the sequence's name, size, rates and id, and holds every
/// marker of it and every track of clips, in their order.
pub proof fn law_a_document_holds_the_sequence(
    project: Project,
    sequence: Sequence,
    root: Seq<char>,
    rate: Seq<char>,
    t: int,
    m: int,
) -> (r: (JsonView, JsonView))
    ensures
        ({
            let json = document_json(project, sequence, root, rate);
            let (own, stack) = r;
            &&& has(json, "OTIO_SCHEMA"@, JsonView::Text("Timeline.1"@))
            &&& has(json, "name"@, JsonView::Text(sequence.name@))
            &&& exists|zero: JsonView| #[trigger]
                has(json, "global_start_time"@, zero) && counts(zero, 0, rate)
            &&& exists|outer: JsonView| #[trigger]
                has(json, "metadata"@, outer) && has(outer, "dvs"@, own)
            &&& has(own, "project"@, JsonView::Text(project.name@))
            &&& has(own, "projectRoot"@, JsonView::Text(root))
            &&& has(own, "sequence"@, JsonView::Text(sequence.id@))
            &&& has(own, "fps"@, JsonView::Text(sequence.fps.text()))
            &&& has(
                own,
                "size"@,
                JsonView::Array(
                    seq![
                        JsonView::Number(dec(sequence.size@[0] as nat)),
                        JsonView::Number(dec(sequence.size@[1] as nat)),
                    ],
                ),
            )
            &&& has(own, "sampleRate"@, JsonView::Number(dec(sequence.sample_rate as nat)))
            &&& has(json, "tracks"@, stack)
            &&& exists|all: Seq<JsonView>| #[trigger]
                has(stack, "children"@, JsonView::Array(all)) && all.len() == clip_tracks(
                    sequence.tracks@,
                ).len() && (0 <= t < all.len() ==> exists|total: int|
                    all[t] == #[trigger] track_json(
                        clip_tracks(sequence.tracks@)[t],
                        project,
                        sequence.fps,
                        rate,
                        total,
                    ))
            &&& exists|all: Seq<JsonView>| #[trigger]
                has(stack, "markers"@, JsonView::Array(all)) && all.len()
                    == sequence.markers@.len() && (0 <= m < all.len() ==> all[m] == marker_json(
                    sequence.markers@[m],
                    sequence.fps,
                    rate,
                ))
        }),
{
    let json = document_json(project, sequence, root, rate);
    lemma_has(json, 0);
    lemma_has(json, 1);
    lemma_has(json, 2);
    lemma_has(json, 3);
    lemma_has(json, 4);
    let zero = time_json(0, rate);
    lemma_has(zero, 1);
    lemma_has(zero, 2);
    assert(has(json, "global_start_time"@, zero) && counts(zero, 0, rate));
    let outer = json->Object_0[1].value;
    lemma_has(outer, 0);
    let own = outer->Object_0[0].value;
    lemma_has(own, 0);
    lemma_has(own, 1);
    lemma_has(own, 2);
    lemma_has(own, 3);
    lemma_has(own, 4);
    lemma_has(own, 5);
    assert(has(json, "metadata"@, outer) && has(outer, "dvs"@, own));
    let stack = json->Object_0[4].value;
    lemma_has(stack, 5);
    lemma_has(stack, 7);
    let tracks = clip_tracks(sequence.tracks@);
    let total = crate::mlt_document::document_frames(sequence);
    lemma_tracks(tracks, project, sequence.fps, rate, total, t);
    lemma_markers(sequence.markers@, sequence.fps, rate, m);
    let all = tracks_json(tracks, project, sequence.fps, rate, total);
    assert(has(stack, "children"@, JsonView::Array(all)));
    if 0 <= t < all.len() {
        assert(all[t] == track_json(tracks[t], project, sequence.fps, rate, total));
    }
    let markers = markers_json(sequence.markers@, sequence.fps, rate);
    assert(has(stack, "markers"@, JsonView::Array(markers)));
    (own, stack)
}

} // verus!
