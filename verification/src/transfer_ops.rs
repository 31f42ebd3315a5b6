//! The operations that exchange timelines: what they are asked for, what an import adds to a
//! sequence, and what they answer.

use crate::args::{missing_text, names, opt_str, refusal, reject_unknown, str_field, text_argument};
use crate::error::{Error, ErrorView};
use crate::json::{
    array, boolean, field, object, push_field, push_text_field, text, Json, JsonField, JsonView,
};
use crate::mlt_read::ImportedTimeline;
use crate::project::{Clip, Sequence, Track};
use crate::report::{count_json, counted, size_json, size_report};
use crate::text::strings;
use crate::time::Fps;
use crate::transfer::{to_clip, ImportPlan, PlannedClip, PlannedTrack};
use crate::views::{push_view, views};
use crate::xml::text_view;
use vstd::prelude::*;

verus! {

// ---------------------------------------------------------------------------
// What is asked for
// ---------------------------------------------------------------------------

/// The one argument that has to be there.
pub open spec fn only_text(args: JsonView, name: Seq<char>) -> Result<Seq<char>, ErrorView> {
    match refusal(args, seq![name]) {
        Some(error) => Err(error),
        None => match text_argument(args, name) {
            Some(text) => Ok(text),
            None => Err(missing_text(name)),
        },
    }
}

fn read_only(args: &Json, name: &'static str) -> (r: Result<String, Error>)
    ensures
        (match r {
            Ok(text) => only_text(args@, name@) == Ok::<Seq<char>, ErrorView>(text@),
            Err(error) => only_text(args@, name@) == Err::<Seq<char>, ErrorView>(error@),
        }),
{
    let allowed: Vec<&'static str> = vec![name];
    assert(names(allowed@) =~= seq![name@]);
    match reject_unknown(args, allowed) {
        Err(error) => return Err(error),
        Ok(()) => {},
    }
    match str_field(args, name) {
        Ok(text) => Ok(text.as_str().to_owned()),
        Err(error) => Err(error),
    }
}

/// Reads where an export goes.
pub fn export_request(args: &Json) -> (r: Result<String, Error>)
    ensures
        (match r {
            Ok(out) => only_text(args@, "out"@) == Ok::<Seq<char>, ErrorView>(out@),
            Err(error) => only_text(args@, "out"@) == Err::<Seq<char>, ErrorView>(error@),
        }),
{
    read_only(args, "out")
}

/// Reads where an import comes from.
pub fn import_file_request(args: &Json) -> (r: Result<String, Error>)
    ensures
        (match r {
            Ok(path) => only_text(args@, "path"@) == Ok::<Seq<char>, ErrorView>(path@),
            Err(error) => only_text(args@, "path"@) == Err::<Seq<char>, ErrorView>(error@),
        }),
{
    read_only(args, "path")
}

/// What an export of captions is asked for.
#[derive(Clone, Debug)]
pub struct CaptionsRequest {
    pub out: String,
    pub format: Option<String>,
    pub track: Option<String>,
}

pub open spec fn captions_asked(args: JsonView) -> Result<
    (Seq<char>, Option<Seq<char>>, Option<Seq<char>>),
    ErrorView,
> {
    match refusal(args, seq!["out"@, "format"@, "track"@]) {
        Some(error) => Err(error),
        None => match text_argument(args, "out"@) {
            Some(out) => Ok((out, text_argument(args, "format"@), text_argument(args, "track"@))),
            None => Err(missing_text("out"@)),
        },
    }
}

fn read_optional(args: &Json, name: &str) -> (r: Option<String>)
    ensures
        text_view(r) == text_argument(args@, name@),
{
    match opt_str(args, name) {
        Some(text) => Some(text.as_str().to_owned()),
        None => None,
    }
}

/// Reads what an export of captions is asked for.
pub fn captions_request(args: &Json) -> (r: Result<CaptionsRequest, Error>)
    ensures
        (match r {
            Ok(made) => captions_asked(args@) == Ok::<
                (Seq<char>, Option<Seq<char>>, Option<Seq<char>>),
                ErrorView,
            >((made.out@, text_view(made.format), text_view(made.track))),
            Err(error) => captions_asked(args@) == Err::<
                (Seq<char>, Option<Seq<char>>, Option<Seq<char>>),
                ErrorView,
            >(error@),
        }),
{
    let allowed: Vec<&'static str> = vec!["out", "format", "track"];
    assert(names(allowed@) =~= seq!["out"@, "format"@, "track"@]);
    match reject_unknown(args, allowed) {
        Err(error) => return Err(error),
        Ok(()) => {},
    }
    let out = match str_field(args, "out") {
        Err(error) => return Err(error),
        Ok(out) => out.as_str().to_owned(),
    };
    let format = read_optional(args, "format");
    let track = read_optional(args, "track");
    Ok(CaptionsRequest { out, format, track })
}

// ---------------------------------------------------------------------------
// What is added
// ---------------------------------------------------------------------------

/// Whether a clip is the one that was planned, under an id of its own.
pub open spec fn is_added_clip(clip: Clip, planned: PlannedClip, id: Seq<char>) -> bool {
    &&& clip.id@ == id
    &&& clip.source is Asset
    &&& clip.source.asset() == Some(planned.asset@)
    &&& clip.start == planned.start
    &&& clip.duration == planned.duration
    &&& clip.source_in == planned.source_in
    &&& text_view(clip.name) == text_view(planned.name)
    &&& clip.speed == planned.speed
    &&& clip.reverse == planned.reverse
    &&& clip.is_untouched()
}

/// Whether clips are those that were planned.
pub open spec fn are_added_clips(
    clips: Seq<Clip>,
    planned: Seq<PlannedClip>,
    ids: Seq<Seq<char>>,
) -> bool {
    &&& clips.len() == planned.len()
    &&& forall|i: int|
        0 <= i < clips.len() ==> is_added_clip(#[trigger] clips[i], planned[i], ids[i])
}

/// The ids that a new track needs: its own, and one for each clip.
#[derive(Clone, Debug)]
pub struct TrackIds {
    pub track: String,
    pub clips: Vec<String>,
}

/// Whether a track is the one that was planned.
pub open spec fn is_added_track(track: Track, planned: PlannedTrack, ids: TrackIds) -> bool {
    &&& track.id@ == ids.track@
    &&& track.name@ == planned.name@
    &&& track.kind == planned.kind
    &&& are_added_clips(track.clips@, planned.clips@, strings(ids.clips@))
    &&& track.cues@.len() == 0
    &&& !track.muted
    &&& !track.hidden
    &&& !track.locked
    &&& track.gain is None
    &&& track.pan is None
    &&& track.style is None
}

fn new_track(planned: &PlannedTrack, ids: &TrackIds) -> (r: Track)
    requires
        planned.clips@.len() == ids.clips@.len(),
    ensures
        is_added_track(r, *planned, *ids),
{
    let mut track = Track::new(
        ids.track.as_str().to_owned(),
        planned.name.as_str().to_owned(),
        planned.kind,
    );
    let mut i: usize = 0;
    while i < planned.clips.len()
        invariant
            i <= planned.clips@.len(),
            planned.clips@.len() == ids.clips@.len(),
            track.id@ == ids.track@,
            track.name@ == planned.name@,
            track.kind == planned.kind,
            track.cues@.len() == 0,
            !track.muted,
            !track.hidden,
            !track.locked,
            track.gain is None,
            track.pan is None,
            track.style is None,
            track.clips@.len() == i,
            forall|k: int|
                0 <= k < i ==> is_added_clip(
                    #[trigger] track.clips@[k],
                    planned.clips@[k],
                    strings(ids.clips@)[k],
                ),
        decreases planned.clips@.len() - i,
    {
        let clip = to_clip(&planned.clips[i], ids.clips[i].as_str().to_owned());
        track.clips.push(clip);
        i = i + 1;
    }
    track
}

/// Adds the planned tracks behind those that a sequence has; nothing else of it changes.
pub fn append_tracks(sequence: &mut Sequence, plan: &ImportPlan, ids: &Vec<TrackIds>)
    requires
        plan.tracks@.len() == ids@.len(),
        forall|i: int|
            0 <= i < ids@.len() ==> (#[trigger] ids@[i]).clips@.len()
                == plan.tracks@[i].clips@.len(),
    ensures
        final(sequence).tracks@.len() == old(sequence).tracks@.len() + plan.tracks@.len(),
        final(sequence).tracks@.take(old(sequence).tracks@.len() as int) == old(sequence).tracks@,
        forall|i: int|
            0 <= i < plan.tracks@.len() ==> is_added_track(
                #[trigger] final(sequence).tracks@[old(sequence).tracks@.len() + i],
                plan.tracks@[i],
                ids@[i],
            ),
        final(sequence).id == old(sequence).id,
        final(sequence).name == old(sequence).name,
        final(sequence).fps == old(sequence).fps,
        final(sequence).size == old(sequence).size,
        final(sequence).sample_rate == old(sequence).sample_rate,
        final(sequence).channels == old(sequence).channels,
        final(sequence).markers == old(sequence).markers,
{
    let ghost before = sequence.tracks@;
    let ghost n = before.len() as int;
    let mut i: usize = 0;
    assert(sequence.tracks@.take(n) =~= before);
    while i < plan.tracks.len()
        invariant
            i <= plan.tracks@.len(),
            plan.tracks@.len() == ids@.len(),
            n == before.len(),
            before == old(sequence).tracks@,
            forall|k: int|
                0 <= k < ids@.len() ==> (#[trigger] ids@[k]).clips@.len()
                    == plan.tracks@[k].clips@.len(),
            sequence.tracks@.len() == n + i,
            sequence.tracks@.take(n) == before,
            forall|k: int|
                0 <= k < i ==> is_added_track(
                    #[trigger] sequence.tracks@[n + k],
                    plan.tracks@[k],
                    ids@[k],
                ),
            sequence.id == old(sequence).id,
            sequence.name == old(sequence).name,
            sequence.fps == old(sequence).fps,
            sequence.size == old(sequence).size,
            sequence.sample_rate == old(sequence).sample_rate,
            sequence.channels == old(sequence).channels,
            sequence.markers == old(sequence).markers,
        decreases plan.tracks@.len() - i,
    {
        let ghost was = sequence.tracks@;
        assert(ids@[i as int].clips@.len() == plan.tracks@[i as int].clips@.len());
        let track = new_track(&plan.tracks[i], &ids[i]);
        sequence.tracks.push(track);
        proof {
            assert(sequence.tracks@.take(n) =~= was.take(n));
            assert forall|k: int| 0 <= k < i + 1 implies is_added_track(
                #[trigger] sequence.tracks@[n + k],
                plan.tracks@[k],
                ids@[k],
            ) by {
                if k < i {
                    assert(sequence.tracks@[n + k] == was[n + k]);
                }
            }
        }
        i = i + 1;
    }
}

// ---------------------------------------------------------------------------
// What is answered
// ---------------------------------------------------------------------------

/// What an export answers: where the file is, and how long.
pub open spec fn delivered_json(path: Seq<char>, bytes: nat, dry_run: bool) -> JsonView {
    JsonView::Object(
        seq![
            field("path"@, JsonView::Text(path)),
            field("bytes"@, count_json(bytes)),
            field("dryRun"@, JsonView::Bool(dry_run)),
        ],
    )
}

/// Answers an export.
pub fn delivered(path: &str, bytes: usize, dry_run: bool) -> (r: Json)
    ensures
        r@ == delivered_json(path@, bytes as nat, dry_run),
{
    let mut fields: Vec<JsonField> = Vec::new();
    push_text_field(&mut fields, "path", path);
    push_field(&mut fields, "bytes", counted(bytes as u128));
    push_field(&mut fields, "dryRun", boolean(dry_run));
    assert(views(fields@) =~= delivered_json(path@, bytes as nat, dry_run)->Object_0);
    object(fields)
}

pub open spec fn texts_json(list: Seq<Seq<char>>) -> Seq<JsonView> {
    list.map_values(|text: Seq<char>| JsonView::Text(text))
}

/// What an import answers.
pub open spec fn imported_json(plan: ImportPlan, fps: Fps, size: [u32; 2]) -> JsonView {
    JsonView::Object(
        seq![
            field("tracks"@, count_json(plan.tracks@.len())),
            field("clips"@, count_json(plan.clips as nat)),
            field("dropped"@, JsonView::Array(texts_json(strings(plan.dropped@)))),
            field("fps"@, JsonView::Text(fps.text())),
            field("size"@, size_json(size)),
        ],
    )
}

/// Answers an import.
pub fn imported(plan: &ImportPlan, timeline: &ImportedTimeline) -> (r: Json)
    ensures
        r@ == imported_json(*plan, timeline.fps, timeline.size),
{
    let mut items: Vec<Json> = Vec::new();
    let mut i: usize = 0;
    while i < plan.dropped.len()
        invariant
            i <= plan.dropped@.len(),
            views(items@) =~= texts_json(strings(plan.dropped@)).take(i as int),
        decreases plan.dropped@.len() - i,
    {
        push_view(&mut items, text(plan.dropped[i].as_str()));
        i = i + 1;
    }
    assert(views(items@) =~= texts_json(strings(plan.dropped@)));
    let mut fields: Vec<JsonField> = Vec::new();
    push_field(&mut fields, "tracks", counted(plan.tracks.len() as u128));
    push_field(&mut fields, "clips", counted(plan.clips));
    push_field(&mut fields, "dropped", array(items));
    push_text_field(&mut fields, "fps", timeline.fps.to_text().as_str());
    push_field(&mut fields, "size", size_report(timeline.size));
    assert(views(fields@) =~= imported_json(*plan, timeline.fps, timeline.size)->Object_0);
    object(fields)
}

} // verus!
