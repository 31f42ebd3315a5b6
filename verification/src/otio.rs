//! OpenTimelineIO documents.
//!
//! Frame positions are whole and the rate carries the fraction. Every track is padded to
//! the full length of the timeline with a gap at its end.

use crate::error::Error;
use crate::fcpxml::{clip_fits, document_fits};
use crate::json::{
    array, boolean, field, no_fields, no_items, null, number, object, push_field, push_text_field,
    text, FieldView, Json, JsonField, JsonView,
};
use crate::losses::{kept_by_otio, loss_warnings, losses, otio_kept};
use crate::mlt::{asset_fits, asset_length, path_of};
use crate::mlt_build::{entries_error, lemma_entries_error};
use crate::mlt_document::{
    all_placing_warnings, document_error, document_frames, lemma_clip_tracks, lemma_tracks_error,
    markers_fit, placed_warnings, total_frames, tracks_error,
};
use crate::number::{push_rounded, rounded_text};
use crate::project::{Asset, Clip, Marker, Project, Sequence, Track, TrackKind};
use crate::text::{dec, dec_int, decimal, integer};
use crate::time::Fps;
use crate::timeline::{
    as_list, clip_tracks, cursor_after, entries_of, feature_warnings, file_url, flatten, flattens,
    frames_in, is_flat, lost_features, on_grid, push_warning, resolve_source, resource_of,
    retime_loss, retime_warning, source_error, source_warning, track_fits, url_of, Entry, FlatTrack,
    Placed, Resource, Warning, WarningView, FRAME_LIMIT,
};
use crate::views::{extend, push_view, views};
use vstd::prelude::*;

verus! {

/// A written document, and what it could not carry.
#[derive(Debug)]
pub struct JsonExport {
    pub document: Json,
    pub warnings: Vec<Warning>,
}

pub open spec fn text_of(s: Seq<char>) -> JsonView {
    JsonView::Text(s)
}

pub open spec fn nothing() -> JsonView {
    JsonView::Array(seq![])
}

/// How many decimals of the frame rate are written: more than a reader's float keeps.
pub const RATE_PLACES: usize = 17;

/// The frame rate as a decimal number, which is how the format states it.
pub open spec fn rate_text(fps: Fps) -> Seq<char> {
    rounded_text(fps.rate, RATE_PLACES as nat)
}

pub open spec fn time_json(frames: int, rate: Seq<char>) -> JsonView {
    JsonView::Object(
        seq![
            field("OTIO_SCHEMA"@, text_of("RationalTime.1"@)),
            field("rate"@, JsonView::Number(rate)),
            field("value"@, JsonView::Number(dec_int(frames) + ".0"@)),
        ],
    )
}

pub open spec fn range_json(from: int, frames: int, rate: Seq<char>) -> JsonView {
    JsonView::Object(
        seq![
            field("OTIO_SCHEMA"@, text_of("TimeRange.1"@)),
            field("duration"@, time_json(frames, rate)),
            field("start_time"@, time_json(from, rate)),
        ],
    )
}

pub open spec fn gap_json(name: Seq<char>, frames: int, rate: Seq<char>) -> JsonView {
    JsonView::Object(
        seq![
            field("OTIO_SCHEMA"@, text_of("Gap.1"@)),
            field("metadata"@, JsonView::Object(seq![])),
            field("name"@, text_of(name)),
            field("source_range"@, range_json(0, frames, rate)),
            field("effects"@, nothing()),
            field("markers"@, nothing()),
            field("enabled"@, JsonView::Bool(true)),
        ],
    )
}

pub open spec fn reference_json(asset: Asset, fps: Fps, rate: Seq<char>) -> JsonView {
    JsonView::Object(
        seq![
            field("OTIO_SCHEMA"@, text_of("ExternalReference.1"@)),
            field("metadata"@, JsonView::Object(seq![])),
            field("name"@, text_of(asset.name@)),
            field("available_range"@, range_json(0, asset_length(asset, fps), rate)),
            field("available_image_bounds"@, JsonView::Null),
            field("target_url"@, text_of(url_of(path_of(asset)))),
        ],
    )
}

pub open spec fn own_metadata(fields: Seq<FieldView>) -> JsonView {
    JsonView::Object(seq![field("dvs"@, JsonView::Object(fields))])
}

pub open spec fn clip_json(placed: Placed, asset: Asset, fps: Fps, rate: Seq<char>) -> JsonView {
    JsonView::Object(
        seq![
            field("OTIO_SCHEMA"@, text_of("Clip.1"@)),
            field(
                "metadata"@,
                own_metadata(
                    seq![
                        field("clip"@, text_of(placed.clip.id@)),
                        field("asset"@, text_of(asset.id@)),
                        field("speed"@, text_of(placed.clip.speed.text())),
                    ],
                ),
            ),
            field("name"@, text_of(placed.clip.shown_name())),
            field(
                "source_range"@,
                range_json(placed.source_in as int, placed.frames as int, rate),
            ),
            field("effects"@, nothing()),
            field("markers"@, nothing()),
            field("enabled"@, JsonView::Bool(true)),
            field("media_reference"@, reference_json(asset, fps, rate)),
        ],
    )
}

/// A child of a track: a clip of a file, or a gap as long as what stands there.
pub open spec fn child_json(entry: Entry, project: Project, fps: Fps, rate: Seq<char>) -> JsonView {
    match entry {
        Entry::Blank { frames } => gap_json("gap"@, frames as int, rate),
        Entry::Clip(placed) => match resource_of(project, *placed.clip) {
            Resource::File { asset } => clip_json(placed, *asset, fps, rate),
            Resource::Color(_) => gap_json(placed.clip.shown_name(), placed.frames as int, rate),
        },
    }
}

pub open spec fn children_json(
    entries: Seq<Entry>,
    project: Project,
    fps: Fps,
    rate: Seq<char>,
) -> Seq<JsonView>
    decreases entries.len(),
{
    if entries.len() == 0 {
        seq![]
    } else {
        children_json(entries.drop_last(), project, fps, rate).push(
            child_json(entries.last(), project, fps, rate),
        )
    }
}

/// The children of a track with the gap that pads it to `total` frames.
pub open spec fn padded(
    children: Seq<JsonView>,
    frames: int,
    total: int,
    rate: Seq<char>,
) -> Seq<JsonView> {
    if frames < total {
        children.push(gap_json("gap"@, total - frames, rate))
    } else {
        children
    }
}

pub open spec fn track_json(
    track: Track,
    project: Project,
    fps: Fps,
    rate: Seq<char>,
    total: int,
) -> JsonView {
    JsonView::Object(
        seq![
            field("OTIO_SCHEMA"@, text_of("Track.1"@)),
            field("metadata"@, own_metadata(seq![field("track"@, text_of(track.id@))])),
            field("name"@, text_of(track.name@)),
            field("source_range"@, JsonView::Null),
            field("effects"@, nothing()),
            field("markers"@, nothing()),
            field("enabled"@, JsonView::Bool(!track.muted && !track.hidden)),
            field(
                "children"@,
                JsonView::Array(
                    padded(
                        children_json(entries_of(track.clips@, fps), project, fps, rate),
                        cursor_after(track.clips@, fps),
                        total,
                        rate,
                    ),
                ),
            ),
            field(
                "kind"@,
                text_of(
                    if track.kind == TrackKind::Audio {
                        "Audio"@
                    } else {
                        "Video"@
                    },
                ),
            ),
        ],
    )
}

pub open spec fn tracks_json(
    tracks: Seq<Track>,
    project: Project,
    fps: Fps,
    rate: Seq<char>,
    total: int,
) -> Seq<JsonView>
    decreases tracks.len(),
{
    if tracks.len() == 0 {
        seq![]
    } else {
        tracks_json(tracks.drop_last(), project, fps, rate, total).push(
            track_json(tracks.last(), project, fps, rate, total),
        )
    }
}

pub open spec fn marker_json(marker: Marker, fps: Fps, rate: Seq<char>) -> JsonView {
    JsonView::Object(
        seq![
            field("OTIO_SCHEMA"@, text_of("Marker.2"@)),
            field("metadata"@, JsonView::Object(seq![])),
            field("name"@, text_of(marker.name@)),
            field("color"@, text_of("RED"@)),
            field(
                "comment"@,
                text_of(
                    match marker.note {
                        Some(note) => note@,
                        None => ""@,
                    },
                ),
            ),
            field("marked_range"@, range_json(marker.at.round_frame(fps), 0, rate)),
        ],
    )
}

pub open spec fn markers_json(markers: Seq<Marker>, fps: Fps, rate: Seq<char>) -> Seq<JsonView>
    decreases markers.len(),
{
    if markers.len() == 0 {
        seq![]
    } else {
        markers_json(markers.drop_last(), fps, rate).push(marker_json(markers.last(), fps, rate))
    }
}

pub open spec fn whole(n: int) -> JsonView {
    JsonView::Number(dec(n as nat))
}

/// The whole document.
pub open spec fn document_json(
    project: Project,
    sequence: Sequence,
    root: Seq<char>,
    rate: Seq<char>,
) -> JsonView {
    JsonView::Object(
        seq![
            field("OTIO_SCHEMA"@, text_of("Timeline.1"@)),
            field(
                "metadata"@,
                own_metadata(
                    seq![
                        field("project"@, text_of(project.name@)),
                        field("projectRoot"@, text_of(root)),
                        field("sequence"@, text_of(sequence.id@)),
                        field("fps"@, text_of(sequence.fps.text())),
                        field(
                            "size"@,
                            JsonView::Array(
                                seq![
                                    whole(sequence.size@[0] as int),
                                    whole(sequence.size@[1] as int),
                                ],
                            ),
                        ),
                        field("sampleRate"@, whole(sequence.sample_rate as int)),
                    ],
                ),
            ),
            field("name"@, text_of(sequence.name@)),
            field("global_start_time"@, time_json(0, rate)),
            field(
                "tracks"@,
                JsonView::Object(
                    seq![
                        field("OTIO_SCHEMA"@, text_of("Stack.1"@)),
                        field("metadata"@, JsonView::Object(seq![])),
                        field("name"@, text_of("tracks"@)),
                        field("source_range"@, JsonView::Null),
                        field("effects"@, nothing()),
                        field(
                            "markers"@,
                            JsonView::Array(
                                markers_json(sequence.markers@, sequence.fps, rate),
                            ),
                        ),
                        field("enabled"@, JsonView::Bool(true)),
                        field(
                            "children"@,
                            JsonView::Array(
                                tracks_json(
                                    clip_tracks(sequence.tracks@),
                                    project,
                                    sequence.fps,
                                    rate,
                                    document_frames(sequence),
                                ),
                            ),
                        ),
                    ],
                ),
            ),
        ],
    )
}

/// What an entry has to report.
pub open spec fn entry_warnings(entry: Entry, project: Project) -> Seq<WarningView> {
    match entry {
        Entry::Blank { .. } => seq![],
        Entry::Clip(placed) => lost_features(*placed.clip, "OTIO"@) + as_list(
            retime_loss(*placed.clip, "OTIO"@),
        ) + as_list(source_warning(project, *placed.clip)),
    }
}

pub open spec fn entries_warnings(entries: Seq<Entry>, project: Project) -> Seq<WarningView>
    decreases entries.len(),
{
    if entries.len() == 0 {
        seq![]
    } else {
        entries_warnings(entries.drop_last(), project) + entry_warnings(entries.last(), project)
    }
}

pub open spec fn tracks_warnings(tracks: Seq<Track>, project: Project, fps: Fps) -> Seq<WarningView>
    decreases tracks.len(),
{
    if tracks.len() == 0 {
        seq![]
    } else {
        tracks_warnings(tracks.drop_last(), project, fps) + entries_warnings(
            entries_of(tracks.last().clips@, fps),
            project,
        )
    }
}

/// Everything that the document leaves behind.
pub open spec fn document_warnings(project: Project, sequence: Sequence) -> Seq<WarningView> {
    let tracks = clip_tracks(sequence.tracks@);
    all_placing_warnings(tracks, sequence.fps) + losses(sequence, "OTIO"@, kept_by_otio())
        + tracks_warnings(tracks, project, sequence.fps)
}

/// The frames of a track's entries and of the gap that pads it make up the whole timeline.
pub proof fn law_children_add_up_to_the_timeline(clips: Seq<Clip>, fps: Fps, total: int)
    requires
        on_grid(clips, fps),
        cursor_after(clips, fps) <= total,
    ensures
        frames_in(entries_of(clips, fps)) + (total - cursor_after(clips, fps)) == total,
        frames_in(entries_of(clips, fps)) <= total,
{
    crate::timeline::law_entries_fill_the_track(clips, fps);
}

// ---------------------------------------------------------------------------
// Building
// ---------------------------------------------------------------------------

fn time(frames: i64, rate: &str) -> (r: Json)
    ensures
        r@ == time_json(frames as int, rate@),
{
    let mut value = integer(frames);
    value.append(".0");
    let mut fields: Vec<JsonField> = Vec::new();
    push_text_field(&mut fields, "OTIO_SCHEMA", "RationalTime.1");
    push_field(&mut fields, "rate", number(rate));
    push_field(&mut fields, "value", number(value.as_str()));
    assert(views(fields@) =~= time_json(frames as int, rate@)->Object_0);
    object(fields)
}

fn range(from: i64, frames: i64, rate: &str) -> (r: Json)
    ensures
        r@ == range_json(from as int, frames as int, rate@),
{
    let mut fields: Vec<JsonField> = Vec::new();
    push_text_field(&mut fields, "OTIO_SCHEMA", "TimeRange.1");
    push_field(&mut fields, "duration", time(frames, rate));
    push_field(&mut fields, "start_time", time(from, rate));
    assert(views(fields@) =~= range_json(from as int, frames as int, rate@)->Object_0);
    object(fields)
}

fn gap(name: &str, frames: i64, rate: &str) -> (r: Json)
    ensures
        r@ == gap_json(name@, frames as int, rate@),
{
    let mut fields: Vec<JsonField> = Vec::new();
    push_text_field(&mut fields, "OTIO_SCHEMA", "Gap.1");
    push_field(&mut fields, "metadata", no_fields());
    push_text_field(&mut fields, "name", name);
    push_field(&mut fields, "source_range", range(0, frames, rate));
    push_field(&mut fields, "effects", no_items());
    push_field(&mut fields, "markers", no_items());
    push_field(&mut fields, "enabled", boolean(true));
    assert(views(fields@) =~= gap_json(name@, frames as int, rate@)->Object_0);
    object(fields)
}

fn reference(asset: &Asset, fps: Fps, rate: &str) -> (r: Json)
    requires
        fps.wf(),
        asset_fits(*asset, fps, None),
    ensures
        r@ == reference_json(*asset, fps, rate@),
{
    let ceiling: i64 = asset.probe.duration.frame_ceil(fps);
    let available: i64 = if ceiling >= 1 {
        ceiling
    } else {
        1
    };
    let path: &str = match &asset.path {
        Some(path) => path.as_str(),
        None => "",
    };
    proof {
        reveal_strlit("");
        assert(path@ =~= path_of(*asset));
    }
    let mut fields: Vec<JsonField> = Vec::new();
    push_text_field(&mut fields, "OTIO_SCHEMA", "ExternalReference.1");
    push_field(&mut fields, "metadata", no_fields());
    push_text_field(&mut fields, "name", asset.name.as_str());
    push_field(&mut fields, "available_range", range(0, available, rate));
    push_field(&mut fields, "available_image_bounds", null());
    push_text_field(&mut fields, "target_url", file_url(path).as_str());
    assert(views(fields@) =~= reference_json(*asset, fps, rate@)->Object_0);
    object(fields)
}

fn metadata(fields: Vec<JsonField>) -> (r: Json)
    ensures
        r@ == own_metadata(views(fields@)),
{
    let mut outer: Vec<JsonField> = Vec::new();
    push_field(&mut outer, "dvs", object(fields));
    assert(views(outer@) =~= seq![field("dvs"@, JsonView::Object(views(fields@)))]);
    object(outer)
}

fn clip(placed: &Placed<'_>, asset: &Asset, fps: Fps, rate: &str) -> (r: Json)
    requires
        fps.wf(),
        asset_fits(*asset, fps, None),
    ensures
        r@ == clip_json(*placed, *asset, fps, rate@),
{
    let mut own: Vec<JsonField> = Vec::new();
    push_text_field(&mut own, "clip", placed.clip.id.as_str());
    push_text_field(&mut own, "asset", asset.id.as_str());
    push_text_field(&mut own, "speed", placed.clip.speed.to_text().as_str());
    assert(views(own@) =~= seq![
        field("clip"@, text_of(placed.clip.id@)),
        field("asset"@, text_of(asset.id@)),
        field("speed"@, text_of(placed.clip.speed.text())),
    ]);
    let mut fields: Vec<JsonField> = Vec::new();
    push_text_field(&mut fields, "OTIO_SCHEMA", "Clip.1");
    push_field(&mut fields, "metadata", metadata(own));
    push_text_field(&mut fields, "name", placed.label().as_str());
    push_field(&mut fields, "source_range", range(placed.source_in, placed.frames, rate));
    push_field(&mut fields, "effects", no_items());
    push_field(&mut fields, "markers", no_items());
    push_field(&mut fields, "enabled", boolean(true));
    push_field(&mut fields, "media_reference", reference(asset, fps, rate));
    assert(views(fields@) =~= clip_json(*placed, *asset, fps, rate@)->Object_0);
    object(fields)
}

/// The child that a placed clip is, and what it leaves behind.
fn clip_child(
    placed: &Placed<'_>,
    project: &Project,
    fps: Fps,
    rate: &str,
    warnings: &mut Vec<Warning>,
) -> (r: Result<Json, Error>)
    requires
        fps.wf(),
        clip_fits(*project, *placed.clip, fps),
    ensures
        r is Err <==> source_error(*project, *placed.clip) is Some,
        r is Err ==> Some(r->Err_0@) == source_error(*project, *placed.clip),
        r is Ok ==> r->Ok_0@ == child_json(Entry::Clip(*placed), *project, fps, rate@),
        r is Ok ==> views(final(warnings)@) == views(old(warnings)@) + entry_warnings(
            Entry::Clip(*placed),
            *project,
        ),
{
    let ghost before = views(warnings@);
    extend(warnings, feature_warnings(placed.clip, "OTIO"));
    push_warning(warnings, retime_warning(placed.clip, "OTIO"));
    let (resource, warning) = match resolve_source(project, placed.clip) {
        Ok(found) => found,
        Err(error) => {
            return Err(error);
        },
    };
    push_warning(warnings, warning);
    assert(views(warnings@) =~= before + entry_warnings(Entry::Clip(*placed), *project));
    match resource {
        Resource::File { asset } => Ok(clip(placed, asset, fps, rate)),
        Resource::Color(_) => Ok(gap(placed.label().as_str(), placed.frames, rate)),
    }
}

/// The children of a track, and what they leave behind.
fn children(flat: &FlatTrack<'_>, project: &Project, fps: Fps, rate: &str, warnings: &mut Vec<Warning>) -> (r:
    Result<Vec<Json>, Error>)
    requires
        fps.wf(),
        flattens(*flat, *flat.track, fps),
        on_grid(flat.track.clips@, fps),
        forall|k: int|
            0 <= k < flat.track.clips@.len() ==> clip_fits(
                *project,
                #[trigger] flat.track.clips@[k],
                fps,
            ),
    ensures
        r is Err <==> entries_error(flat.entries@, *project) is Some,
        r is Err ==> Some(r->Err_0@) == entries_error(flat.entries@, *project),
        r is Ok ==> views(r->Ok_0@) == children_json(flat.entries@, *project, fps, rate@),
        r is Ok ==> views(final(warnings)@) == views(old(warnings)@) + entries_warnings(
            flat.entries@,
            *project,
        ),
{
    let ghost clips = flat.track.clips@;
    let ghost before = views(warnings@);
    let mut out: Vec<Json> = Vec::new();
    let mut i: usize = 0;
    proof {
        assert(flat.entries@.take(0) =~= seq![]);
        assert(views(out@) =~= seq![]);
        assert(before + Seq::<WarningView>::empty() =~= before);
    }
    while i < flat.entries.len()
        invariant
            i <= flat.entries@.len(),
            fps.wf(),
            clips == flat.track.clips@,
            flat.entries@ == entries_of(clips, fps),
            on_grid(clips, fps),
            forall|k: int| 0 <= k < clips.len() ==> clip_fits(*project, #[trigger] clips[k], fps),
            entries_error(flat.entries@.take(i as int), *project) is None,
            views(out@) == children_json(flat.entries@.take(i as int), *project, fps, rate@),
            views(warnings@) == before + entries_warnings(flat.entries@.take(i as int), *project),
        decreases flat.entries@.len() - i,
    {
        proof {
            assert(flat.entries@.take(i + 1).drop_last() =~= flat.entries@.take(i as int));
        }
        match &flat.entries[i] {
            Entry::Blank { frames } => {
                push_view(&mut out, gap("gap", *frames, rate));
            },
            Entry::Clip(placed) => {
                proof {
                    crate::timeline::lemma_placed(clips, fps, i as int);
                    let k = choose|k: int| 0 <= k < clips.len() && clips[k] == *placed.clip;
                    assert(clip_fits(*project, clips[k], fps));
                }
                match clip_child(placed, project, fps, rate, warnings) {
                    Ok(json) => {
                        push_view(&mut out, json);
                    },
                    Err(error) => {
                        proof {
                            lemma_entries_error(flat.entries@, *project, i + 1);
                        }
                        return Err(error);
                    },
                }
            },
        }
        i = i + 1;
        assert(views(warnings@) =~= before + entries_warnings(
            flat.entries@.take(i as int),
            *project,
        ));
    }
    assert(flat.entries@.take(i as int) =~= flat.entries@);
    Ok(out)
}

fn track(
    flat: &FlatTrack<'_>,
    project: &Project,
    fps: Fps,
    rate: &str,
    total: i64,
    warnings: &mut Vec<Warning>,
) -> (r: Result<Json, Error>)
    requires
        fps.wf(),
        flattens(*flat, *flat.track, fps),
        on_grid(flat.track.clips@, fps),
        forall|k: int|
            0 <= k < flat.track.clips@.len() ==> clip_fits(
                *project,
                #[trigger] flat.track.clips@[k],
                fps,
            ),
        0 < total < FRAME_LIMIT,
    ensures
        r is Err <==> entries_error(flat.entries@, *project) is Some,
        r is Err ==> Some(r->Err_0@) == entries_error(flat.entries@, *project),
        r is Ok ==> r->Ok_0@ == track_json(*flat.track, *project, fps, rate@, total as int),
        r is Ok ==> views(final(warnings)@) == views(old(warnings)@) + entries_warnings(
            flat.entries@,
            *project,
        ),
{
    let mut list = match children(flat, project, fps, rate, warnings) {
        Ok(list) => list,
        Err(error) => {
            return Err(error);
        },
    };
    proof {
        crate::timeline::lemma_cursor_grows(flat.track.clips@, fps, 0);
    }
    if flat.frames < total {
        push_view(&mut list, gap("gap", total - flat.frames, rate));
    }
    let it = flat.track;
    let mut own: Vec<JsonField> = Vec::new();
    push_text_field(&mut own, "track", it.id.as_str());
    assert(views(own@) =~= seq![field("track"@, text_of(it.id@))]);
    let kind: &str = if it.kind == TrackKind::Audio {
        "Audio"
    } else {
        "Video"
    };
    let mut fields: Vec<JsonField> = Vec::new();
    push_text_field(&mut fields, "OTIO_SCHEMA", "Track.1");
    push_field(&mut fields, "metadata", metadata(own));
    push_text_field(&mut fields, "name", it.name.as_str());
    push_field(&mut fields, "source_range", null());
    push_field(&mut fields, "effects", no_items());
    push_field(&mut fields, "markers", no_items());
    push_field(&mut fields, "enabled", boolean(!it.muted && !it.hidden));
    push_field(&mut fields, "children", array(list));
    push_text_field(&mut fields, "kind", kind);
    assert(views(fields@) =~= track_json(
        *flat.track,
        *project,
        fps,
        rate@,
        total as int,
    )->Object_0);
    Ok(object(fields))
}

fn marker(it: &Marker, fps: Fps, rate: &str) -> (r: Json)
    requires
        fps.wf(),
        it.at.wf(),
        -FRAME_LIMIT < it.at.round_frame(fps) < FRAME_LIMIT,
    ensures
        r@ == marker_json(*it, fps, rate@),
{
    let note: &str = match &it.note {
        Some(note) => note.as_str(),
        None => "",
    };
    let mut fields: Vec<JsonField> = Vec::new();
    push_text_field(&mut fields, "OTIO_SCHEMA", "Marker.2");
    push_field(&mut fields, "metadata", no_fields());
    push_text_field(&mut fields, "name", it.name.as_str());
    push_text_field(&mut fields, "color", "RED");
    push_text_field(&mut fields, "comment", note);
    push_field(&mut fields, "marked_range", range(it.at.frame_round(fps), 0, rate));
    assert(views(fields@) =~= marker_json(*it, fps, rate@)->Object_0);
    object(fields)
}

fn markers(list: &Vec<Marker>, fps: Fps, rate: &str) -> (r: Vec<Json>)
    requires
        fps.wf(),
        markers_fit(list@, fps),
    ensures
        views(r@) == markers_json(list@, fps, rate@),
{
    let mut out: Vec<Json> = Vec::new();
    let mut i: usize = 0;
    assert(list@.take(0) =~= seq![]);
    assert(views(out@) =~= seq![]);
    while i < list.len()
        invariant
            i <= list@.len(),
            fps.wf(),
            markers_fit(list@, fps),
            views(out@) == markers_json(list@.take(i as int), fps, rate@),
        decreases list@.len() - i,
    {
        proof {
            assert(list@.take(i + 1).drop_last() =~= list@.take(i as int));
        }
        push_view(&mut out, marker(&list[i], fps, rate));
        i = i + 1;
    }
    assert(list@.take(i as int) =~= list@);
    out
}

fn whole_number(n: u32) -> (r: Json)
    ensures
        r@ == whole(n as int),
{
    number(decimal(n as u128).as_str())
}

fn timeline(
    project: &Project,
    sequence: &Sequence,
    root: &str,
    rate: &str,
    tracks: Vec<Json>,
) -> (r: Json)
    requires
        sequence.fps.wf(),
        markers_fit(sequence.markers@, sequence.fps),
        views(tracks@) == tracks_json(
            clip_tracks(sequence.tracks@),
            *project,
            sequence.fps,
            rate@,
            document_frames(*sequence),
        ),
    ensures
        r@ == document_json(*project, *sequence, root@, rate@),
{
    let mut size: Vec<Json> = Vec::new();
    push_view(&mut size, whole_number(sequence.size[0]));
    push_view(&mut size, whole_number(sequence.size[1]));
    assert(views(size@) =~= seq![
        whole(sequence.size@[0] as int),
        whole(sequence.size@[1] as int),
    ]);
    let mut own: Vec<JsonField> = Vec::new();
    push_text_field(&mut own, "project", project.name.as_str());
    push_text_field(&mut own, "projectRoot", root);
    push_text_field(&mut own, "sequence", sequence.id.as_str());
    push_text_field(&mut own, "fps", sequence.fps.to_text().as_str());
    push_field(&mut own, "size", array(size));
    push_field(&mut own, "sampleRate", whole_number(sequence.sample_rate));
    assert(views(own@) =~= seq![
        field("project"@, text_of(project.name@)),
        field("projectRoot"@, text_of(root@)),
        field("sequence"@, text_of(sequence.id@)),
        field("fps"@, text_of(sequence.fps.text())),
        field(
            "size"@,
            JsonView::Array(
                seq![whole(sequence.size@[0] as int), whole(sequence.size@[1] as int)],
            ),
        ),
        field("sampleRate"@, whole(sequence.sample_rate as int)),
    ]);
    let mut stack: Vec<JsonField> = Vec::new();
    push_text_field(&mut stack, "OTIO_SCHEMA", "Stack.1");
    push_field(&mut stack, "metadata", no_fields());
    push_text_field(&mut stack, "name", "tracks");
    push_field(&mut stack, "source_range", null());
    push_field(&mut stack, "effects", no_items());
    push_field(&mut stack, "markers", array(markers(&sequence.markers, sequence.fps, rate)));
    push_field(&mut stack, "enabled", boolean(true));
    push_field(&mut stack, "children", array(tracks));
    let mut fields: Vec<JsonField> = Vec::new();
    push_text_field(&mut fields, "OTIO_SCHEMA", "Timeline.1");
    push_field(&mut fields, "metadata", metadata(own));
    push_text_field(&mut fields, "name", sequence.name.as_str());
    push_field(&mut fields, "global_start_time", time(0, rate));
    let ghost want = document_json(*project, *sequence, root@, rate@)->Object_0;
    assert(views(stack@) =~= want[4].value->Object_0);
    push_field(&mut fields, "tracks", object(stack));
    assert(views(fields@) =~= want);
    object(fields)
}

/// Writes the sequence as an OpenTimelineIO document. `root` is the project's directory.
pub fn export(project: &Project, id: &str, root: &str) -> (r: Result<JsonExport, Error>)
    requires
        project.sequence_at(id@) >= 0 ==> {
            let sequence = project.sequences@[project.sequence_at(id@)];
            &&& document_fits(*project, sequence)
            &&& markers_fit(sequence.markers@, sequence.fps)
        },
    ensures
        r is Err <==> document_error(*project, id@) is Some,
        r is Err ==> Some(r->Err_0@) == document_error(*project, id@),
        r is Ok ==> {
            let sequence = project.sequences@[project.sequence_at(id@)];
            &&& r->Ok_0.document@ == document_json(*project, sequence, root@, rate_text(sequence.fps))
            &&& views(r->Ok_0.warnings@) == document_warnings(*project, sequence)
        },
{
    let sequence = match project.sequence(id) {
        Ok(sequence) => sequence,
        Err(error) => {
            return Err(error);
        },
    };
    let fps = sequence.fps;
    let mut rate_chars = String::new();
    push_rounded(&mut rate_chars, fps.rate, RATE_PLACES);
    assert(rate_chars@ =~= rate_text(fps));
    let rate = rate_chars.as_str();
    let flat = flatten(sequence);
    let total: i64 = total_frames(&flat, sequence);
    let mut warnings = placed_warnings(&flat, sequence);
    extend(&mut warnings, loss_warnings(sequence, "OTIO", otio_kept()));
    let ghost before = views(warnings@);
    let ghost tracks = clip_tracks(sequence.tracks@);
    let mut out: Vec<Json> = Vec::new();
    let mut t: usize = 0;
    proof {
        assert(tracks.take(0) =~= seq![]);
        assert(views(out@) =~= seq![]);
        assert(before + Seq::<WarningView>::empty() =~= before);
    }
    while t < flat.len()
        invariant
            t <= flat@.len(),
            document_fits(*project, *sequence),
            is_flat(flat@, *sequence),
            fps == sequence.fps,
            tracks == clip_tracks(sequence.tracks@),
            0 < total < FRAME_LIMIT,
            views(out@) == tracks_json(
                tracks.take(t as int),
                *project,
                fps,
                rate@,
                total as int,
            ),
            views(warnings@) == before + tracks_warnings(tracks.take(t as int), *project, fps),
            tracks_error(tracks.take(t as int), *project, fps) is None,
            rate@ == rate_text(fps),
            project.sequence_at(id@) >= 0,
            *sequence == project.sequences@[project.sequence_at(id@)],
        decreases flat@.len() - t,
    {
        let ghost flat_track = flat@[t as int];
        proof {
            assert(tracks.take(t + 1).drop_last() =~= tracks.take(t as int));
            assert(flattens(flat@[t as int], tracks[t as int], fps));
            lemma_clip_tracks(sequence.tracks@, t as int);
            let k = choose|k: int|
                0 <= k < sequence.tracks@.len() && #[trigger] sequence.tracks@[k]
                    == tracks[t as int] && sequence.tracks@[k].kind != TrackKind::Caption;
            assert(track_fits(sequence.tracks@[k], fps));
            assert forall|c: int| 0 <= c < flat_track.track.clips@.len() implies clip_fits(
                *project,
                #[trigger] flat_track.track.clips@[c],
                fps,
            ) by {
                assert(clip_fits(*project, sequence.tracks@[k].clips@[c], fps));
            }
        }
        match track(&flat[t], project, fps, rate, total, &mut warnings) {
            Ok(json) => {
                push_view(&mut out, json);
            },
            Err(error) => {
                proof {
                    lemma_tracks_error(tracks, *project, fps, t + 1);
                }
                return Err(error);
            },
        }
        t = t + 1;
        assert(views(warnings@) =~= before + tracks_warnings(
            tracks.take(t as int),
            *project,
            fps,
        ));
    }
    assert(tracks.take(t as int) =~= tracks);
    Ok(JsonExport { document: timeline(project, sequence, root, rate, out), warnings })
}

} // verus!
