//! What holds of every OpenTimelineIO document.

use crate::json::{FieldView, JsonView};
use crate::mlt_document::{document_frames, lemma_clip_tracks, longest};
use crate::number::{fixed_text, pow10};
use crate::otio::{
    child_json, children_json, clip_json, document_json, gap_json, marker_json, markers_json,
    padded, range_json, rate_text, reference_json, time_json, track_json, tracks_json, RATE_PLACES,
};
use crate::project::{Marker, Project, Sequence, Track, TrackKind};
use crate::rational::round_half_even;
use crate::time::Fps;
use crate::timeline::{
    clip_tracks, cursor_after, entries_of, entry_frames, flattens, frames_in, is_flat,
    law_entries_fill_the_track, resource_of, sequence_fits, track_fits, Entry, FlatTrack, Resource,
};
use vstd::prelude::*;

verus! {

// ---------------------------------------------------------------------------
// The rate
// ---------------------------------------------------------------------------

/// Whether the fields of an object are those of a time, and at another rate.
pub open spec fn off_rate(fields: Seq<FieldView>, rate: Seq<char>) -> bool {
    &&& fields.len() > 0
    &&& fields[0].name == "OTIO_SCHEMA"@
    &&& fields[0].value == JsonView::Text("RationalTime.1"@)
    &&& !(fields.len() > 1 && fields[1].name == "rate"@ && fields[1].value == JsonView::Number(rate))
}

/// Whether every time in a value is at one rate.
pub open spec fn at_rate(json: JsonView, rate: Seq<char>) -> bool
    decreases json,
{
    match json {
        JsonView::Object(fields) => !off_rate(fields, rate) && forall|k: int|
            0 <= k < fields.len() ==> at_rate((#[trigger] fields[k]).value, rate),
        JsonView::Array(items) => forall|k: int|
            0 <= k < items.len() ==> at_rate(#[trigger] items[k], rate),
        _ => true,
    }
}

pub open spec fn all_at_rate(items: Seq<JsonView>, rate: Seq<char>) -> bool {
    forall|k: int| 0 <= k < items.len() ==> at_rate(#[trigger] items[k], rate)
}

/// The text of every schema begins with its name: no other is a time's.
proof fn lemma_schemas()
    ensures
        "RationalTime.1"@ != "TimeRange.1"@,
        "RationalTime.1"@ != "Gap.1"@,
        "RationalTime.1"@ != "ExternalReference.1"@,
        "RationalTime.1"@ != "Clip.1"@,
        "RationalTime.1"@ != "Track.1"@,
        "RationalTime.1"@ != "Marker.2"@,
        "RationalTime.1"@ != "Stack.1"@,
        "RationalTime.1"@ != "Timeline.1"@,
        "OTIO_SCHEMA"@ != "dvs"@,
        "OTIO_SCHEMA"@ != "clip"@,
        "OTIO_SCHEMA"@ != "track"@,
        "OTIO_SCHEMA"@ != "project"@,
{
    reveal_strlit("RationalTime.1");
    reveal_strlit("TimeRange.1");
    reveal_strlit("Gap.1");
    reveal_strlit("ExternalReference.1");
    reveal_strlit("Clip.1");
    reveal_strlit("Track.1");
    reveal_strlit("Marker.2");
    reveal_strlit("Stack.1");
    reveal_strlit("Timeline.1");
    reveal_strlit("OTIO_SCHEMA");
    reveal_strlit("dvs");
    reveal_strlit("clip");
    reveal_strlit("track");
    reveal_strlit("project");
    assert("RationalTime.1"@[0] == 'R');
    assert("OTIO_SCHEMA"@[0] == 'O');
}

proof fn lemma_plain(rate: Seq<char>)
    ensures
        forall|s: Seq<char>| #[trigger] at_rate(JsonView::Text(s), rate),
        forall|s: Seq<char>| #[trigger] at_rate(JsonView::Number(s), rate),
        forall|b: bool| #[trigger] at_rate(JsonView::Bool(b), rate),
        at_rate(JsonView::Null, rate),
        at_rate(JsonView::Array(seq![]), rate),
        at_rate(JsonView::Object(seq![]), rate),
{
}

proof fn lemma_range(from: int, frames: int, rate: Seq<char>)
    ensures
        at_rate(time_json(from, rate), rate),
        at_rate(range_json(from, frames, rate), rate),
{
    lemma_schemas();
    lemma_plain(rate);
    reveal_with_fuel(at_rate, 2);
    assert(at_rate(time_json(from, rate), rate));
    assert(at_rate(time_json(frames, rate), rate));
}

proof fn lemma_child(entry: Entry, project: Project, fps: Fps, rate: Seq<char>)
    ensures
        at_rate(child_json(entry, project, fps, rate), rate),
{
    match entry {
        Entry::Blank { frames } => {
            lemma_gap("gap"@, frames as int, rate);
        },
        Entry::Clip(placed) => {
            match resource_of(project, *placed.clip) {
                Resource::Color(_) => {
                    lemma_gap(placed.clip.shown_name(), placed.frames as int, rate);
                },
                Resource::File { asset } => {
                    lemma_schemas();
                    lemma_plain(rate);
    reveal_with_fuel(at_rate, 2);
                    lemma_range(placed.source_in as int, placed.frames as int, rate);
                    lemma_range(0, crate::mlt::asset_length(*asset, fps), rate);
                    let reference = reference_json(*asset, fps, rate);
                    assert(at_rate(reference, rate));
                    let json = clip_json(placed, *asset, fps, rate);
                    let own = json->Object_0[1].value->Object_0[0].value;
                    assert(at_rate(own, rate));
                    assert(at_rate(json->Object_0[1].value, rate));
                    assert(at_rate(json, rate));
                },
            }
        },
    }
}

proof fn lemma_gap(name: Seq<char>, frames: int, rate: Seq<char>)
    ensures
        at_rate(gap_json(name, frames, rate), rate),
{
    lemma_schemas();
    lemma_plain(rate);
    reveal_with_fuel(at_rate, 2);
    lemma_range(0, frames, rate);
}

proof fn lemma_children(entries: Seq<Entry>, project: Project, fps: Fps, rate: Seq<char>)
    ensures
        all_at_rate(children_json(entries, project, fps, rate), rate),
    decreases entries.len(),
{
    if entries.len() > 0 {
        lemma_children(entries.drop_last(), project, fps, rate);
        lemma_child(entries.last(), project, fps, rate);
    }
}

proof fn lemma_track(track: Track, project: Project, fps: Fps, rate: Seq<char>, total: int)
    ensures
        at_rate(track_json(track, project, fps, rate, total), rate),
{
    lemma_schemas();
    lemma_plain(rate);
    reveal_with_fuel(at_rate, 2);
    lemma_children(entries_of(track.clips@, fps), project, fps, rate);
    lemma_gap("gap"@, total - cursor_after(track.clips@, fps), rate);
    let json = track_json(track, project, fps, rate, total);
    assert(all_at_rate(json->Object_0[7].value->Array_0, rate));
    assert(at_rate(json->Object_0[7].value, rate));
    assert(at_rate(json->Object_0[1].value->Object_0[0].value, rate));
    assert(at_rate(json->Object_0[1].value, rate));
}

proof fn lemma_tracks(tracks: Seq<Track>, project: Project, fps: Fps, rate: Seq<char>, total: int)
    ensures
        all_at_rate(tracks_json(tracks, project, fps, rate, total), rate),
    decreases tracks.len(),
{
    if tracks.len() > 0 {
        lemma_tracks(tracks.drop_last(), project, fps, rate, total);
        lemma_track(tracks.last(), project, fps, rate, total);
    }
}

proof fn lemma_markers(markers: Seq<Marker>, fps: Fps, rate: Seq<char>)
    ensures
        all_at_rate(markers_json(markers, fps, rate), rate),
    decreases markers.len(),
{
    if markers.len() > 0 {
        lemma_markers(markers.drop_last(), fps, rate);
        lemma_schemas();
        lemma_plain(rate);
    reveal_with_fuel(at_rate, 2);
        lemma_range(markers.last().at.round_frame(fps), 0, rate);
        assert(at_rate(marker_json(markers.last(), fps, rate), rate));
    }
}

/// Every time in a document is at the rate of the sequence.
pub proof fn law_every_time_is_at_the_sequence_rate(
    project: Project,
    sequence: Sequence,
    root: Seq<char>,
)
    ensures
        at_rate(
            document_json(project, sequence, root, rate_text(sequence.fps)),
            rate_text(sequence.fps),
        ),
{
    let rate = rate_text(sequence.fps);
    lemma_schemas();
    lemma_plain(rate);
    reveal_with_fuel(at_rate, 2);
    lemma_range(0, 0, rate);
    lemma_markers(sequence.markers@, sequence.fps, rate);
    lemma_tracks(
        clip_tracks(sequence.tracks@),
        project,
        sequence.fps,
        rate,
        document_frames(sequence),
    );
    let json = document_json(project, sequence, root, rate);
    let own = json->Object_0[1].value->Object_0[0].value;
    assert(at_rate(own->Object_0[4].value, rate));
    assert(at_rate(own, rate));
    assert(at_rate(json->Object_0[1].value, rate));
    let stack = json->Object_0[4].value;
    assert(at_rate(stack->Object_0[5].value, rate));
    assert(at_rate(stack->Object_0[7].value, rate));
    assert(at_rate(stack, rate));
}

/// The rate that is written is within half of its last decimal of the sequence's.
pub proof fn law_the_rate_is_the_sequence_rate(fps: Fps)
    requires
        fps.wf(),
    ensures
        exists|scaled: int|
            rate_text(fps) == #[trigger] fixed_text(scaled, RATE_PLACES as nat) && -fps.rate.den
                <= 2 * (scaled * fps.rate.den - fps.rate.num * pow10(RATE_PLACES as nat))
                <= fps.rate.den,
{
    let n = fps.rate.num * pow10(RATE_PLACES as nat);
    crate::number::lemma_pow10_bound(RATE_PLACES as nat, 0);
    assert(n >= 0) by (nonlinear_arith)
        requires
            n == fps.rate.num * pow10(RATE_PLACES as nat),
            fps.rate.num >= 0,
            pow10(RATE_PLACES as nat) > 0,
    ;
    let d = fps.rate.den as int;
    let scaled = round_half_even(n, d);
    let down = n / d;
    let rest = n % d;
    assert(n == d * down + rest && 0 <= rest < d) by (nonlinear_arith)
        requires
            d > 0,
            down == n / d,
            rest == n % d,
    ;
    assert(scaled == down || scaled == down + 1);
    assert(down * d == n - rest && (down + 1) * d == n - rest + d) by (nonlinear_arith)
        requires
            n == d * down + rest,
    ;
    assert(rate_text(fps) == fixed_text(scaled, RATE_PLACES as nat));
}

// ---------------------------------------------------------------------------
// The children
// ---------------------------------------------------------------------------

/// Whether a child of a track is said to last that many frames.
pub open spec fn lasts(child: JsonView, frames: int, rate: Seq<char>) -> bool {
    &&& child is Object
    &&& child->Object_0.len() > 3
    &&& child->Object_0[3].name == "source_range"@
    &&& child->Object_0[3].value is Object
    &&& child->Object_0[3].value->Object_0.len() > 1
    &&& child->Object_0[3].value->Object_0[1].name == "duration"@
    &&& child->Object_0[3].value->Object_0[1].value == time_json(frames, rate)
}

pub open spec fn sum(lengths: Seq<int>) -> int
    decreases lengths.len(),
{
    if lengths.len() == 0 {
        0
    } else {
        sum(lengths.drop_last()) + lengths.last()
    }
}

/// How long each of some entries is.
pub open spec fn entry_lengths(entries: Seq<Entry>) -> Seq<int> {
    entries.map_values(|entry: Entry| entry_frames(entry))
}

proof fn lemma_lengths(entries: Seq<Entry>, project: Project, fps: Fps, rate: Seq<char>)
    ensures
        children_json(entries, project, fps, rate).len() == entries.len(),
        forall|k: int|
            0 <= k < entries.len() ==> lasts(
                #[trigger] children_json(entries, project, fps, rate)[k],
                entry_lengths(entries)[k],
                rate,
            ),
        sum(entry_lengths(entries)) == frames_in(entries),
    decreases entries.len(),
{
    if entries.len() > 0 {
        let rest = entries.drop_last();
        lemma_lengths(rest, project, fps, rate);
        assert(entry_lengths(entries).drop_last() =~= entry_lengths(rest));
        let all = children_json(entries, project, fps, rate);
        assert forall|k: int| 0 <= k < entries.len() implies lasts(
            #[trigger] all[k],
            entry_lengths(entries)[k],
            rate,
        ) by {
            if k < rest.len() {
                assert(all[k] == children_json(rest, project, fps, rate)[k]);
                assert(entry_lengths(entries)[k] == entry_lengths(rest)[k]);
            } else {
                assert(all[k] == child_json(entries.last(), project, fps, rate));
            }
        }
    }
}

/// The lengths of what stands on a track, with the gap that pads it.
pub open spec fn track_lengths(track: Track, fps: Fps, total: int) -> Seq<int> {
    let lengths = entry_lengths(entries_of(track.clips@, fps));
    if cursor_after(track.clips@, fps) < total {
        lengths.push(total - cursor_after(track.clips@, fps))
    } else {
        lengths
    }
}

proof fn lemma_tracks_at(
    tracks: Seq<Track>,
    project: Project,
    fps: Fps,
    rate: Seq<char>,
    total: int,
    t: int,
)
    requires
        0 <= t < tracks.len(),
    ensures
        tracks_json(tracks, project, fps, rate, total).len() == tracks.len(),
        tracks_json(tracks, project, fps, rate, total)[t] == track_json(
            tracks[t],
            project,
            fps,
            rate,
            total,
        ),
    decreases tracks.len(),
{
    let rest = tracks.drop_last();
    if t < rest.len() {
        lemma_tracks_at(rest, project, fps, rate, total, t);
    } else {
        lemma_tracks_len(rest, project, fps, rate, total);
    }
}

proof fn lemma_tracks_len(
    tracks: Seq<Track>,
    project: Project,
    fps: Fps,
    rate: Seq<char>,
    total: int,
)
    ensures
        tracks_json(tracks, project, fps, rate, total).len() == tracks.len(),
    decreases tracks.len(),
{
    if tracks.len() > 0 {
        lemma_tracks_len(tracks.drop_last(), project, fps, rate, total);
    }
}

proof fn lemma_longest(tracks: Seq<Track>, fps: Fps, t: int)
    requires
        0 <= t < tracks.len(),
    ensures
        cursor_after(tracks[t].clips@, fps) <= longest(tracks, fps),
    decreases tracks.len(),
{
    if t < tracks.len() - 1 {
        lemma_longest(tracks.drop_last(), fps, t);
    }
}

/// The tracks of a document.
pub open spec fn children_of_stack(json: JsonView) -> Seq<JsonView> {
    json->Object_0[4].value->Object_0[7].value->Array_0
}

/// What stands on a track.
pub open spec fn children_of_track(json: JsonView) -> Seq<JsonView> {
    json->Object_0[7].value->Array_0
}

/// A document has a child for each track on the grid, and what stands on a track lasts exactly as
/// long as the timeline.
pub proof fn law_the_children_of_each_track_fill_the_timeline(
    project: Project,
    sequence: Sequence,
    root: Seq<char>,
    flat: Seq<FlatTrack>,
    t: int,
)
    requires
        sequence_fits(sequence),
        is_flat(flat, sequence),
        0 <= t < flat.len(),
    ensures
        ({
            let rate = rate_text(sequence.fps);
            let stack = children_of_stack(document_json(project, sequence, root, rate));
            let lengths = track_lengths(*flat[t].track, sequence.fps, document_frames(sequence));
            &&& stack.len() == flat.len()
            &&& children_of_track(stack[t]).len() == lengths.len()
            &&& forall|k: int|
                0 <= k < lengths.len() ==> lasts(
                    #[trigger] children_of_track(stack[t])[k],
                    lengths[k],
                    rate,
                )
            &&& sum(lengths) == document_frames(sequence)
        }),
{
    let fps = sequence.fps;
    let rate = rate_text(fps);
    let total = document_frames(sequence);
    let tracks = clip_tracks(sequence.tracks@);
    let track = tracks[t];
    assert(flattens(flat[t], track, fps));
    lemma_clip_tracks(sequence.tracks@, t);
    let i = choose|i: int|
        0 <= i < sequence.tracks@.len() && #[trigger] sequence.tracks@[i] == track
            && sequence.tracks@[i].kind != TrackKind::Caption;
    assert(track_fits(sequence.tracks@[i], fps));
    lemma_tracks_at(tracks, project, fps, rate, total, t);
    lemma_longest(tracks, fps, t);
    let entries = entries_of(track.clips@, fps);
    lemma_lengths(entries, project, fps, rate);
    law_entries_fill_the_track(track.clips@, fps);
    let lengths = track_lengths(track, fps, total);
    let plain = entry_lengths(entries);
    let children = children_json(entries, project, fps, rate);
    let frames = cursor_after(track.clips@, fps);
    let all = padded(children, frames, total, rate);
    assert(children_of_track(track_json(track, project, fps, rate, total)) == all);
    if frames < total {
        assert(lengths.drop_last() =~= plain);
        assert(lengths.last() == total - frames);
    }
    assert forall|k: int| 0 <= k < lengths.len() implies lasts(
        #[trigger] all[k],
        lengths[k],
        rate,
    ) by {
        if k < plain.len() {
            assert(all[k] == children[k]);
            assert(lengths[k] == plain[k]);
        } else {
            assert(all[k] == gap_json("gap"@, total - frames, rate));
        }
    }
}

} // verus!
