//! What moves a timeline out to other editors and back.
//!
//! Captions go out as SubRip or WebVTT. A timeline comes in as cuts, positions and source
//! in-points of media that the project already has; what it does not have is reported and
//! left out, and two clips never overlap.

use crate::error::{Error, ErrorView};
use crate::float_text::Float;
use crate::mlt_read::{
    clip_ok, clips_ok, out_of_range, track_ok, tracks_ok, ImportedClip, ImportedClipView,
    ImportedTimeline, ImportedTrackView, TimelineView,
};
use crate::paths::{
    equal_paths, extension_is, file_name, file_name_of, has_extension, join_path, joined_path,
    same_paths,
};
use crate::project::{Asset, CaptionCue, Clip, Project, Sequence, Source, Track, TrackKind};
use crate::rational::Rat;
use crate::subtitle::{cues_wf, srt_text, to_srt, to_vtt, vtt_text};
use crate::text::{dec, decimal, equal_folded, fold, folded, push_text, same, same_folded, strings};
use crate::time::{Fps, Time};
use crate::timeline::{Warning, WarningView};
use crate::views::{push_view, views};
use crate::xml::text_view;
use vstd::prelude::*;

verus! {

/// Where an export goes: as asked where the path is absolute, else below the project's
/// directory.
pub fn destination(root: &str, out: &str) -> (r: String)
    ensures
        r@ == join_path(root@, out@),
{
    joined_path(root, out)
}

// ---------------------------------------------------------------------------
// Captions
// ---------------------------------------------------------------------------

/// Whether a caption track is the one asked for; any is where none is.
pub open spec fn is_wanted(track: Track, wanted: Option<Seq<char>>) -> bool {
    track.kind == TrackKind::Caption && match wanted {
        Some(name) => same_folded(track.name@, name) || track.id@ == name,
        None => true,
    }
}

/// How many caption tracks are asked for.
pub open spec fn wanted_count(tracks: Seq<Track>, wanted: Option<Seq<char>>) -> nat
    decreases tracks.len(),
{
    if tracks.len() == 0 {
        0
    } else {
        wanted_count(tracks.drop_last(), wanted) + if is_wanted(tracks.last(), wanted) {
            1nat
        } else {
            0nat
        }
    }
}

/// The cues of the caption tracks asked for, track by track.
pub open spec fn wanted_cues(tracks: Seq<Track>, wanted: Option<Seq<char>>) -> Seq<CaptionCue>
    decreases tracks.len(),
{
    if tracks.len() == 0 {
        seq![]
    } else if is_wanted(tracks.last(), wanted) {
        wanted_cues(tracks.drop_last(), wanted) + tracks.last().cues@
    } else {
        wanted_cues(tracks.drop_last(), wanted)
    }
}

/// The names of the caption tracks.
pub open spec fn caption_names(tracks: Seq<Track>) -> Seq<Seq<char>>
    decreases tracks.len(),
{
    if tracks.len() == 0 {
        seq![]
    } else if tracks.last().kind == TrackKind::Caption {
        caption_names(tracks.drop_last()).push(tracks.last().name@)
    } else {
        caption_names(tracks.drop_last())
    }
}

/// The format of a caption file: as asked, else by the extension of its name.
pub open spec fn caption_format(out: Seq<char>, format: Option<Seq<char>>) -> Seq<char> {
    match format {
        Some(name) => name.map_values(|c: char| fold(c)),
        None => if extension_is(out, "vtt"@) {
            "vtt"@
        } else {
            "srt"@
        },
    }
}

/// How many cues end after the next one starts.
pub open spec fn overlaps(cues: Seq<CaptionCue>) -> nat
    decreases cues.len(),
{
    if cues.len() < 2 {
        0
    } else {
        overlaps(cues.drop_last()) + if cues.last().span.start.lt(cues[cues.len() - 2].span.end) {
            1nat
        } else {
            0nat
        }
    }
}

pub open spec fn overlap_warning(name: Seq<char>, count: int) -> WarningView {
    WarningView {
        code: "caption-overlap"@,
        target: name,
        detail: dec(count as nat)
            + " cue(s) overlap the one before them; players show whichever they reach first"@,
    }
}

pub open spec fn no_caption_track(tracks: Seq<Track>, wanted: Option<Seq<char>>) -> ErrorView {
    ErrorView::NoMatch {
        what: "caption track"@,
        wanted: match wanted {
            Some(name) => name,
            None => "any"@,
        },
        candidates: caption_names(tracks),
    }
}

/// Why there is no caption file, if there is none.
pub open spec fn captions_error(
    sequence: Sequence,
    out: Seq<char>,
    format: Option<Seq<char>>,
    wanted: Option<Seq<char>>,
) -> Option<ErrorView> {
    let shown = caption_format(out, format);
    if wanted_count(sequence.tracks@, wanted) == 0 {
        Some(no_caption_track(sequence.tracks@, wanted))
    } else if wanted_cues(sequence.tracks@, wanted).len() == 0 {
        Some(
            ErrorView::Op(
                "the caption track has no cues; generate them with caption.generate first"@,
            ),
        )
    } else if shown != "srt"@ && shown != "vtt"@ {
        Some(
            ErrorView::BadArgs(
                "unknown subtitle format '"@ + shown + "'; use 'srt' or 'vtt'"@,
            ),
        )
    } else {
        None
    }
}

/// The text of the caption file.
pub open spec fn captions_file(
    sequence: Sequence,
    out: Seq<char>,
    format: Option<Seq<char>>,
    wanted: Option<Seq<char>>,
) -> Seq<char> {
    let cues = wanted_cues(sequence.tracks@, wanted);
    if caption_format(out, format) == "srt"@ {
        srt_text(cues)
    } else {
        vtt_text(cues)
    }
}

/// What is reported of the caption file.
pub open spec fn captions_warnings(sequence: Sequence, wanted: Option<Seq<char>>) -> Seq<
    WarningView,
> {
    let count = overlaps(wanted_cues(sequence.tracks@, wanted));
    if count > 0 {
        seq![overlap_warning(sequence.name@, count as int)]
    } else {
        seq![]
    }
}

pub open spec fn opt_view(text: Option<&str>) -> Option<Seq<char>> {
    match text {
        Some(t) => Some(t@),
        None => None,
    }
}

fn wants(track: &Track, wanted: Option<&str>) -> (r: bool)
    ensures
        r == is_wanted(*track, opt_view(wanted)),
{
    track.kind == TrackKind::Caption && match wanted {
        Some(name) => equal_folded(track.name.as_str(), name) || same(track.id.as_str(), name),
        None => true,
    }
}

fn copy_cue(cue: &CaptionCue) -> (r: CaptionCue)
    ensures
        r == *cue,
{
    let style: Option<String> = match &cue.style {
        Some(style) => Some(style.clone()),
        None => None,
    };
    CaptionCue { id: cue.id.clone(), span: cue.span, text: cue.text.clone(), style }
}

fn collect_wanted(tracks: &Vec<Track>, wanted: Option<&str>) -> (r: (u128, Vec<CaptionCue>))
    ensures
        r.0 == wanted_count(tracks@, opt_view(wanted)),
        r.1@ == wanted_cues(tracks@, opt_view(wanted)),
{
    let mut count: u128 = 0;
    let mut cues: Vec<CaptionCue> = Vec::new();
    let mut i: usize = 0;
    assert(tracks@.take(0) =~= seq![]);
    while i < tracks.len()
        invariant
            i <= tracks@.len(),
            count <= i,
            count == wanted_count(tracks@.take(i as int), opt_view(wanted)),
            cues@ == wanted_cues(tracks@.take(i as int), opt_view(wanted)),
        decreases tracks@.len() - i,
    {
        let track = &tracks[i];
        proof {
            assert(tracks@.take(i + 1).drop_last() =~= tracks@.take(i as int));
        }
        if wants(track, wanted) {
            count = count + 1;
            let ghost before = cues@;
            let mut k: usize = 0;
            assert(before + track.cues@.take(0) =~= before);
            while k < track.cues.len()
                invariant
                    k <= track.cues@.len(),
                    cues@ == before + track.cues@.take(k as int),
                decreases track.cues@.len() - k,
            {
                cues.push(copy_cue(&track.cues[k]));
                k = k + 1;
                assert(cues@ =~= before + track.cues@.take(k as int));
            }
            assert(track.cues@.take(k as int) =~= track.cues@);
        }
        i = i + 1;
    }
    assert(tracks@.take(i as int) =~= tracks@);
    (count, cues)
}

fn collect_caption_names(tracks: &Vec<Track>) -> (r: Vec<String>)
    ensures
        strings(r@) == caption_names(tracks@),
{
    let mut names: Vec<String> = Vec::new();
    let mut i: usize = 0;
    assert(tracks@.take(0) =~= seq![]);
    assert(strings(names@) =~= seq![]);
    while i < tracks.len()
        invariant
            i <= tracks@.len(),
            strings(names@) == caption_names(tracks@.take(i as int)),
        decreases tracks@.len() - i,
    {
        proof {
            assert(tracks@.take(i + 1).drop_last() =~= tracks@.take(i as int));
        }
        if tracks[i].kind == TrackKind::Caption {
            push_text(&mut names, tracks[i].name.as_str());
        }
        i = i + 1;
    }
    assert(tracks@.take(i as int) =~= tracks@);
    names
}

fn count_overlaps(cues: &Vec<CaptionCue>) -> (r: u128)
    requires
        cues_wf(cues@),
    ensures
        r == overlaps(cues@),
{
    let mut count: u128 = 0;
    let mut i: usize = 0;
    assert(cues@.take(0) =~= seq![]);
    while i < cues.len()
        invariant
            i <= cues@.len(),
            cues_wf(cues@),
            count <= i,
            count == overlaps(cues@.take(i as int)),
        decreases cues@.len() - i,
    {
        proof {
            assert(cues@.take(i + 1).drop_last() =~= cues@.take(i as int));
            assert(cues@[i as int].span.start.wf());
        }
        if i > 0 {
            assert(cues@[i - 1].span.end.wf());
            assert(cues@.take(i + 1)[i - 1] == cues@[i - 1]);
            if cues[i].span.start.before(&cues[i - 1].span.end) {
                count = count + 1;
            }
        }
        i = i + 1;
    }
    assert(cues@.take(i as int) =~= cues@);
    count
}

/// The captions of a sequence as a file, and what is reported of it. `out` names the file,
/// `format` and `wanted` ask for a format and a track.
pub fn export_captions(
    sequence: &Sequence,
    out: &str,
    format: Option<&str>,
    wanted: Option<&str>,
) -> (r: Result<(String, Vec<Warning>), Error>)
    requires
        cues_wf(wanted_cues(sequence.tracks@, opt_view(wanted))),
    ensures
        (match r {
            Ok((text, warnings)) => {
                &&& captions_error(*sequence, out@, opt_view(format), opt_view(wanted)) is None
                &&& text@ == captions_file(*sequence, out@, opt_view(format), opt_view(wanted))
                &&& views(warnings@) == captions_warnings(*sequence, opt_view(wanted))
            },
            Err(error) => captions_error(
                *sequence,
                out@,
                opt_view(format),
                opt_view(wanted),
            ) == Some(error@),
        }),
{
    let (count, cues) = collect_wanted(&sequence.tracks, wanted);
    if count == 0 {
        let name: &str = match wanted {
            Some(name) => name,
            None => "any",
        };
        return Err(Error::no_match("caption track", name, collect_caption_names(&sequence.tracks)));
    }
    if cues.len() == 0 {
        return Err(
            Error::Op(
                "the caption track has no cues; generate them with caption.generate first".to_owned(),
            ),
        );
    }
    let shown: String = match format {
        Some(name) => folded(name),
        None => if has_extension(out, "vtt") {
            "vtt".to_owned()
        } else {
            "srt".to_owned()
        },
    };
    assert(shown@ =~= caption_format(out@, opt_view(format)));
    let text = if same(shown.as_str(), "srt") {
        to_srt(&cues)
    } else if same(shown.as_str(), "vtt") {
        to_vtt(&cues)
    } else {
        let mut detail = "unknown subtitle format '".to_owned();
        detail.append(shown.as_str());
        detail.append("'; use 'srt' or 'vtt'");
        return Err(Error::BadArgs(detail));
    };
    let mut warnings: Vec<Warning> = Vec::new();
    let overlapping: u128 = count_overlaps(&cues);
    if overlapping > 0 {
        let mut detail = decimal(overlapping);
        detail.append(
            " cue(s) overlap the one before them; players show whichever they reach first",
        );
        push_view(
            &mut warnings,
            Warning { code: "caption-overlap", target: sequence.name.clone(), detail },
        );
    }
    assert(views(warnings@) =~= captions_warnings(*sequence, opt_view(wanted)));
    Ok((text, warnings))
}

// ---------------------------------------------------------------------------
// Timelines
// ---------------------------------------------------------------------------

/// A clip to be added.
#[derive(Clone, Debug)]
pub struct PlannedClip {
    pub asset: String,
    pub start: Time,
    pub duration: Time,
    pub source_in: Time,
    pub name: Option<String>,
    pub speed: Rat,
    pub reverse: bool,
}

/// A track to be added.
#[derive(Clone, Debug)]
pub struct PlannedTrack {
    pub kind: TrackKind,
    pub name: String,
    pub clips: Vec<PlannedClip>,
}

/// What an imported timeline adds to a sequence, and what it leaves out.
#[derive(Clone, Debug)]
pub struct ImportPlan {
    pub tracks: Vec<PlannedTrack>,
    pub warnings: Vec<Warning>,
    pub dropped: Vec<String>,
    pub clips: u128,
}

pub struct PlannedClipView {
    pub asset: Seq<char>,
    pub start: Time,
    pub duration: Time,
    pub source_in: Time,
    pub name: Option<Seq<char>>,
    pub speed: Rat,
    pub reverse: bool,
}

pub struct PlannedTrackView {
    pub kind: TrackKind,
    pub name: Seq<char>,
    pub clips: Seq<PlannedClipView>,
}

impl View for PlannedClip {
    type V = PlannedClipView;

    open spec fn view(&self) -> PlannedClipView {
        PlannedClipView {
            asset: self.asset@,
            start: self.start,
            duration: self.duration,
            source_in: self.source_in,
            name: text_view(self.name),
            speed: self.speed,
            reverse: self.reverse,
        }
    }
}

impl View for PlannedTrack {
    type V = PlannedTrackView;

    open spec fn view(&self) -> PlannedTrackView {
        PlannedTrackView { kind: self.kind, name: self.name@, clips: views(self.clips@) }
    }
}

/// Whether an asset is what a resource names: the file in the store, the file it was
/// imported from, or a file of its name.
pub open spec fn is_resource(asset: Asset, resource: Seq<char>) -> bool {
    ||| asset.path is Some && same_paths(asset.path->0@, resource)
    ||| asset.source_path is Some && asset.source_path->0@ == resource
    ||| file_name_of(resource) == Some(asset.name@)
}

/// The first asset that a resource names, or -1.
pub open spec fn lookup_at(assets: Seq<Asset>, resource: Seq<char>) -> int
    decreases assets.len(),
{
    if assets.len() == 0 {
        -1
    } else {
        let before = lookup_at(assets.drop_last(), resource);
        if before >= 0 {
            before
        } else if is_resource(assets.last(), resource) {
            assets.len() - 1
        } else {
            -1
        }
    }
}

/// A track while it is read in.
pub struct Laying {
    /// Where the clips so far end.
    pub cursor: Time,
    pub clips: Seq<PlannedClipView>,
    pub dropped: Seq<Seq<char>>,
    pub snapped: int,
}

/// The length of a clip on this sequence's grid: at least a frame.
pub open spec fn grid_duration(duration: Time, fps: Fps) -> Time {
    duration.spec_snap(fps).spec_max(fps.spec_frame_duration())
}

/// Whether a clip's instants can be moved onto the grid.
pub open spec fn movable(clip: ImportedClipView, fps: Fps) -> bool {
    clip.start.snap_fits(fps) && clip.duration.snap_fits(fps) && clip.source_in.snap_fits(fps)
}

/// Whether the grid moved a clip or changed its length.
pub open spec fn was_moved(clip: ImportedClipView, fps: Fps) -> bool {
    !clip.start.spec_snap(fps).equals(clip.start) || !grid_duration(clip.duration, fps).equals(
        clip.duration,
    )
}

pub open spec fn overlap_text(clip: ImportedClipView) -> Seq<char> {
    clip.resource + " at "@ + clip.start.text() + " (overlaps the clip before it)"@
}

/// The speed and direction a clip plays at. A speed of zero, and one that is not a number,
/// means its own.
pub open spec fn planned_speed(speed: Float) -> (Rat, bool) {
    match speed {
        Float::Finite(rate) => if rate.num == 0 {
            (Rat { num: 1, den: 1 }, false)
        } else if rate.num == i64::MIN {
            (Rat { num: i64::MAX, den: rate.den }, true)
        } else if rate.num < 0 {
            (Rat { num: (-rate.num) as i64, den: rate.den }, true)
        } else {
            (rate, false)
        },
        Float::Special => (Rat { num: 1, den: 1 }, false),
    }
}

/// The track with one more clip read in.
pub open spec fn lay_clip(
    st: Laying,
    clip: ImportedClipView,
    project: Project,
    fps: Fps,
) -> Result<Laying, ErrorView> {
    let at = lookup_at(project.assets@, clip.resource);
    let start = clip.start.spec_snap(fps);
    let duration = grid_duration(clip.duration, fps);
    let snapped = st.snapped + if was_moved(clip, fps) {
        1int
    } else {
        0int
    };
    if at < 0 {
        Ok(Laying { dropped: st.dropped.push(clip.resource), ..st })
    } else if !movable(clip, fps) {
        Err(out_of_range())
    } else if start.lt(st.cursor) {
        Ok(Laying { dropped: st.dropped.push(overlap_text(clip)), snapped, ..st })
    } else if !start.sum_fits(duration) {
        Err(out_of_range())
    } else {
        Ok(
            Laying {
                cursor: start.spec_plus(duration),
                clips: st.clips.push(
                    PlannedClipView {
                        asset: project.assets@[at].id@,
                        start,
                        duration,
                        source_in: clip.source_in.spec_snap(fps),
                        name: clip.name,
                        speed: planned_speed(clip.speed).0,
                        reverse: planned_speed(clip.speed).1,
                    },
                ),
                dropped: st.dropped,
                snapped,
            },
        )
    }
}

pub open spec fn lay_clips(
    st: Laying,
    clips: Seq<ImportedClipView>,
    project: Project,
    fps: Fps,
) -> Result<Laying, ErrorView>
    decreases clips.len(),
{
    if clips.len() == 0 {
        Ok(st)
    } else {
        match lay_clips(st, clips.drop_last(), project, fps) {
            Err(error) => Err(error),
            Ok(before) => lay_clip(before, clips.last(), project, fps),
        }
    }
}

/// A timeline while it is read in.
pub struct Reading {
    pub tracks: Seq<PlannedTrackView>,
    pub dropped: Seq<Seq<char>>,
    pub snapped: int,
}

pub open spec fn nothing_laid(st: Reading) -> Laying {
    Laying {
        cursor: Time::zero_spec(),
        clips: seq![],
        dropped: st.dropped,
        snapped: st.snapped,
    }
}

pub open spec fn kind_of(audio: bool) -> TrackKind {
    if audio {
        TrackKind::Audio
    } else {
        TrackKind::Video
    }
}

/// The timeline with one more track read in. A track without usable clips is not added.
pub open spec fn lay_track(
    st: Reading,
    track: ImportedTrackView,
    project: Project,
    fps: Fps,
) -> Result<Reading, ErrorView> {
    match lay_clips(nothing_laid(st), track.clips, project, fps) {
        Err(error) => Err(error),
        Ok(laid) => Ok(
            Reading {
                tracks: if laid.clips.len() == 0 {
                    st.tracks
                } else {
                    st.tracks.push(
                        PlannedTrackView {
                            kind: kind_of(track.audio),
                            name: seq![],
                            clips: laid.clips,
                        },
                    )
                },
                dropped: laid.dropped,
                snapped: laid.snapped,
            },
        ),
    }
}

pub open spec fn lay_tracks(tracks: Seq<ImportedTrackView>, project: Project, fps: Fps) -> Result<
    Reading,
    ErrorView,
>
    decreases tracks.len(),
{
    if tracks.len() == 0 {
        Ok(Reading { tracks: seq![], dropped: seq![], snapped: 0 })
    } else {
        match lay_tracks(tracks.drop_last(), project, fps) {
            Err(error) => Err(error),
            Ok(before) => lay_track(before, tracks.last(), project, fps),
        }
    }
}

/// How many clips some tracks hold.
pub open spec fn clip_count(tracks: Seq<PlannedTrackView>) -> nat
    decreases tracks.len(),
{
    if tracks.len() == 0 {
        0
    } else {
        clip_count(tracks.drop_last()) + tracks.last().clips.len()
    }
}

pub open spec fn kind_prefix(kind: TrackKind) -> Seq<char> {
    match kind {
        TrackKind::Video => "V"@,
        TrackKind::Audio => "A"@,
        TrackKind::Caption => "C"@,
    }
}

/// The first name made of a prefix and a number from `n` up that is not taken, looking at
/// `tries` of them.
pub open spec fn free_name(taken: Seq<Seq<char>>, prefix: Seq<char>, n: nat, tries: nat) -> Seq<char>
    decreases tries,
{
    if tries == 0 || !taken.contains(prefix + dec(n)) {
        prefix + dec(n)
    } else {
        free_name(taken, prefix, n + 1, (tries - 1) as nat)
    }
}

/// The name of a new track beside others: the first number that is free.
pub open spec fn new_name(taken: Seq<Seq<char>>, kind: TrackKind) -> Seq<char> {
    free_name(taken, kind_prefix(kind), 1, taken.len())
}

/// The names of the tracks that are added, each beside those before it.
pub open spec fn with_names(taken: Seq<Seq<char>>, tracks: Seq<PlannedTrackView>) -> Seq<
    PlannedTrackView,
>
    decreases tracks.len(),
{
    if tracks.len() == 0 {
        seq![]
    } else {
        let before = with_names(taken, tracks.drop_last());
        before.push(
            PlannedTrackView {
                name: new_name(taken + names_in(before), tracks.last().kind),
                ..tracks.last()
            },
        )
    }
}

pub open spec fn names_in(tracks: Seq<PlannedTrackView>) -> Seq<Seq<char>> {
    tracks.map_values(|t: PlannedTrackView| t.name)
}

pub open spec fn track_names(tracks: Seq<Track>) -> Seq<Seq<char>> {
    tracks.map_values(|t: Track| t.name@)
}

pub open spec fn rate_warning(sequence: Sequence, fps: Fps) -> Seq<WarningView> {
    if fps != sequence.fps {
        seq![
            WarningView {
                code: "fps-mismatch"@,
                target: sequence.id@,
                detail: "the document is "@ + fps.text() + " and this sequence is "@
                    + sequence.fps.text()
                    + "; every imported position was snapped to this sequence's frame grid"@,
            },
        ]
    } else {
        seq![]
    }
}

pub open spec fn snap_warning(sequence: Sequence, snapped: int) -> Seq<WarningView> {
    if snapped > 0 {
        seq![
            WarningView {
                code: "frame-snap"@,
                target: sequence.id@,
                detail: dec(snapped as nat)
                    + " imported clip(s) moved to the nearest frame of this sequence"@,
            },
        ]
    } else {
        seq![]
    }
}

pub open spec fn dropped_warnings(dropped: Seq<Seq<char>>) -> Seq<WarningView> {
    dropped.map_values(
        |resource: Seq<char>|
            WarningView {
                code: "clip-dropped"@,
                target: resource,
                detail: "'"@ + resource
                    + "' is not media this project has imported; import it and run import.mlt again to pick it up"@,
            },
    )
}

/// What an import adds and reports.
pub open spec fn is_plan(
    plan: ImportPlan,
    project: Project,
    sequence: Sequence,
    imported: TimelineView,
    st: Reading,
) -> bool {
    &&& views(plan.tracks@) == with_names(track_names(sequence.tracks@), st.tracks)
    &&& strings(plan.dropped@) == st.dropped
    &&& plan.clips == clip_count(st.tracks)
    &&& views(plan.warnings@) == rate_warning(sequence, imported.fps) + snap_warning(
        sequence,
        st.snapped,
    ) + dropped_warnings(st.dropped)
}

// ---------------------------------------------------------------------------
// Clips never overlap
// ---------------------------------------------------------------------------

/// Each clip starts where the one before it ends, or later.
pub open spec fn apart(clips: Seq<PlannedClipView>) -> bool {
    forall|i: int|
        0 < i < clips.len() ==> !(#[trigger] clips[i]).start.lt(
            clips[i - 1].start.spec_plus(clips[i - 1].duration),
        )
}

pub open spec fn ends_at(st: Laying) -> bool {
    st.clips.len() > 0 ==> st.cursor == st.clips.last().start.spec_plus(st.clips.last().duration)
}

/// However the playlists of a document overlap, the clips that are added do not.
pub proof fn law_imported_clips_do_not_overlap(
    st: Laying,
    clips: Seq<ImportedClipView>,
    project: Project,
    fps: Fps,
)
    requires
        apart(st.clips),
        ends_at(st),
    ensures
        lay_clips(st, clips, project, fps) matches Ok(laid) ==> apart(laid.clips) && ends_at(laid),
    decreases clips.len(),
{
    if clips.len() > 0 {
        law_imported_clips_do_not_overlap(st, clips.drop_last(), project, fps);
        if let Ok(before) = lay_clips(st, clips.drop_last(), project, fps) {
            if let Ok(after) = lay_clip(before, clips.last(), project, fps) {
                assert forall|i: int| 0 < i < after.clips.len() implies !(
                #[trigger] after.clips[i]).start.lt(
                    after.clips[i - 1].start.spec_plus(after.clips[i - 1].duration),
                ) by {
                    if i < before.clips.len() {
                        assert(after.clips[i] == before.clips[i]);
                        assert(after.clips[i - 1] == before.clips[i - 1]);
                    } else {
                        assert(after.clips[i - 1] == before.clips.last());
                    }
                }
            }
        }
    }
}

// ---------------------------------------------------------------------------
// Planning
// ---------------------------------------------------------------------------

fn matches_resource(asset: &Asset, resource: &str) -> (r: bool)
    ensures
        r == is_resource(*asset, resource@),
{
    let stored = match &asset.path {
        Some(path) => equal_paths(path.as_str(), resource),
        None => false,
    };
    let original = match &asset.source_path {
        Some(path) => same(path.as_str(), resource),
        None => false,
    };
    let named = match file_name(resource) {
        Some(name) => same(name.as_str(), asset.name.as_str()),
        None => false,
    };
    stored || original || named
}

/// The asset that a resource names.
pub fn lookup(project: &Project, resource: &str) -> (r: Option<usize>)
    ensures
        r is Some <==> lookup_at(project.assets@, resource@) >= 0,
        r is Some ==> r->0 == lookup_at(project.assets@, resource@) && r->0
            < project.assets@.len(),
{
    let mut found: Option<usize> = None;
    let mut i: usize = 0;
    assert(project.assets@.take(0) =~= seq![]);
    while i < project.assets.len()
        invariant
            i <= project.assets@.len(),
            found is Some <==> lookup_at(project.assets@.take(i as int), resource@) >= 0,
            found is Some ==> found->0 == lookup_at(project.assets@.take(i as int), resource@)
                && found->0 < i,
        decreases project.assets@.len() - i,
    {
        proof {
            assert(project.assets@.take(i + 1).drop_last() =~= project.assets@.take(i as int));
        }
        if found.is_none() && matches_resource(&project.assets[i], resource) {
            found = Some(i);
        }
        i = i + 1;
    }
    assert(project.assets@.take(i as int) =~= project.assets@);
    found
}

fn speed_for(speed: Float) -> (r: (Rat, bool))
    ensures
        r == planned_speed(speed),
{
    match speed {
        Float::Finite(rate) => {
            if rate.num == 0 {
                (Rat::one(), false)
            } else if rate.num == i64::MIN {
                (Rat { num: i64::MAX, den: rate.den }, true)
            } else if rate.num < 0 {
                (Rat { num: -rate.num, den: rate.den }, true)
            } else {
                (rate, false)
            }
        },
        Float::Special => (Rat::one(), false),
    }
}

fn range_error() -> (r: Error)
    ensures
        r@ == out_of_range(),
{
    Error::Op("a position in the document is out of range".to_owned())
}

fn copied_name(name: &Option<String>) -> (r: Option<String>)
    ensures
        text_view(r) == text_view(*name),
{
    match name {
        Some(text) => Some(text.clone()),
        None => None,
    }
}

/// A track while it is read in.
struct Laid {
    cursor: Time,
    clips: Vec<PlannedClip>,
    dropped: Vec<String>,
    snapped: u128,
}

spec fn laid_view(st: Laid) -> Laying {
    Laying {
        cursor: st.cursor,
        clips: views(st.clips@),
        dropped: strings(st.dropped@),
        snapped: st.snapped as int,
    }
}

fn add_clip(st: &mut Laid, clip: &ImportedClip, project: &Project, fps: Fps) -> (r: Result<(), Error>)
    requires
        fps.wf(),
        clip_ok(clip@),
        old(st).cursor.wf(),
        old(st).snapped < u128::MAX,
    ensures
        (match r {
            Ok(()) => lay_clip(laid_view(*old(st)), clip@, *project, fps) == Ok::<
                Laying,
                ErrorView,
            >(laid_view(*final(st))) && final(st).cursor.wf(),
            Err(error) => lay_clip(laid_view(*old(st)), clip@, *project, fps) == Err::<
                Laying,
                ErrorView,
            >(error@),
        }),
        final(st).snapped <= old(st).snapped + 1,
{
    let at: usize = match lookup(project, clip.resource.as_str()) {
        Some(at) => at,
        None => {
            push_text(&mut st.dropped, clip.resource.as_str());
            return Ok(());
        },
    };
    let (start, length, source_in) = match (
        clip.start.checked_snap(fps),
        clip.duration.checked_snap(fps),
        clip.source_in.checked_snap(fps),
    ) {
        (Some(start), Some(length), Some(source_in)) => (start, length, source_in),
        _ => {
            return Err(range_error());
        },
    };
    let duration = length.max(fps.frame_duration());
    if !start.is_at(&clip.start) || !duration.is_at(&clip.duration) {
        st.snapped = st.snapped + 1;
    }
    if start.before(&st.cursor) {
        let mut detail = clip.resource.clone();
        detail.append(" at ");
        detail.append(clip.start.to_text().as_str());
        detail.append(" (overlaps the clip before it)");
        push_text(&mut st.dropped, detail.as_str());
        return Ok(());
    }
    let (speed, reverse) = speed_for(clip.speed);
    let end = match start.checked_plus(&duration) {
        Some(end) => end,
        None => {
            return Err(range_error());
        },
    };
    push_view(
        &mut st.clips,
        PlannedClip {
            asset: project.assets[at].id.clone(),
            start,
            duration,
            source_in,
            name: copied_name(&clip.name),
            speed,
            reverse,
        },
    );
    st.cursor = end;
    Ok(())
}

proof fn lemma_lay_fails(
    st: Laying,
    clips: Seq<ImportedClipView>,
    project: Project,
    fps: Fps,
    n: int,
)
    requires
        0 <= n <= clips.len(),
        lay_clips(st, clips.take(n), project, fps) is Err,
    ensures
        lay_clips(st, clips, project, fps) == lay_clips(st, clips.take(n), project, fps),
    decreases clips.len(),
{
    if n == clips.len() {
        assert(clips.take(n) =~= clips);
    } else {
        assert(clips.drop_last().take(n) =~= clips.take(n));
        lemma_lay_fails(st, clips.drop_last(), project, fps, n);
    }
}

fn add_clips(st: &mut Laid, clips: &Vec<ImportedClip>, project: &Project, fps: Fps) -> (r: Result<
    (),
    Error,
>)
    requires
        fps.wf(),
        clips_ok(views(clips@)),
        old(st).cursor.wf(),
        old(st).snapped + clips@.len() < u128::MAX,
    ensures
        (match r {
            Ok(()) => lay_clips(laid_view(*old(st)), views(clips@), *project, fps) == Ok::<
                Laying,
                ErrorView,
            >(laid_view(*final(st))),
            Err(error) => lay_clips(laid_view(*old(st)), views(clips@), *project, fps) == Err::<
                Laying,
                ErrorView,
            >(error@),
        }),
        final(st).snapped <= old(st).snapped + clips@.len(),
{
    let ghost all = views(clips@);
    let ghost start = laid_view(*st);
    let ghost first = st.snapped;
    let mut i: usize = 0;
    assert(all.take(0) =~= seq![]);
    while i < clips.len()
        invariant
            i <= clips@.len(),
            fps.wf(),
            all == views(clips@),
            start == laid_view(*old(st)),
            first == old(st).snapped,
            first + clips@.len() < u128::MAX,
            st.snapped <= first + i,
            clips_ok(all),
            st.cursor.wf(),
            lay_clips(start, all.take(i as int), *project, fps) == Ok::<Laying, ErrorView>(
                laid_view(*st),
            ),
        decreases clips@.len() - i,
    {
        proof {
            assert(all.take(i + 1).drop_last() =~= all.take(i as int));
            assert(all[i as int] == clips@[i as int]@);
        }
        match add_clip(st, &clips[i], project, fps) {
            Ok(()) => {},
            Err(error) => {
                proof {
                    lemma_lay_fails(start, all, *project, fps, i + 1);
                }
                return Err(error);
            },
        }
        i = i + 1;
    }
    assert(all.take(i as int) =~= all);
    Ok(())
}

proof fn lemma_lay_tracks_fails(
    tracks: Seq<ImportedTrackView>,
    project: Project,
    fps: Fps,
    n: int,
)
    requires
        0 <= n <= tracks.len(),
        lay_tracks(tracks.take(n), project, fps) is Err,
    ensures
        lay_tracks(tracks, project, fps) == lay_tracks(tracks.take(n), project, fps),
    decreases tracks.len(),
{
    if n == tracks.len() {
        assert(tracks.take(n) =~= tracks);
    } else {
        assert(tracks.drop_last().take(n) =~= tracks.take(n));
        lemma_lay_tracks_fails(tracks.drop_last(), project, fps, n);
    }
}

/// The tracks read in, what was dropped, and how many clips moved.
fn read_tracks(imported: &ImportedTimeline, project: &Project, fps: Fps) -> (r: Result<
    (Vec<PlannedTrack>, Vec<String>, u128),
    Error,
>)
    requires
        fps.wf(),
        tracks_ok(imported@.tracks),
    ensures
        (match r {
            Ok((tracks, dropped, snapped)) => lay_tracks(imported@.tracks, *project, fps) == Ok::<
                Reading,
                ErrorView,
            >(
                Reading {
                    tracks: views(tracks@),
                    dropped: strings(dropped@),
                    snapped: snapped as int,
                },
            ),
            Err(error) => lay_tracks(imported@.tracks, *project, fps) == Err::<Reading, ErrorView>(
                error@,
            ),
        }),
{
    let ghost all = imported@.tracks;
    let mut tracks: Vec<PlannedTrack> = Vec::new();
    let mut dropped: Vec<String> = Vec::new();
    let mut snapped: u128 = 0;
    let mut t: usize = 0;
    proof {
        assert(all.take(0) =~= seq![]);
        assert(views(tracks@) =~= seq![]);
        assert(strings(dropped@) =~= seq![]);
    }
    while t < imported.tracks.len()
        invariant
            t <= imported.tracks@.len(),
            fps.wf(),
            all == views(imported.tracks@),
            all == imported@.tracks,
            tracks_ok(all),
            snapped <= t * 0x1_0000_0000_0000_0000,
            lay_tracks(all.take(t as int), *project, fps) == Ok::<Reading, ErrorView>(
                Reading {
                    tracks: views(tracks@),
                    dropped: strings(dropped@),
                    snapped: snapped as int,
                },
            ),
        decreases imported.tracks@.len() - t,
    {
        let total: usize = imported.tracks.len();
        let it = &imported.tracks[t];
        let count: usize = it.clips.len();
        proof {
            assert(all.take(t + 1).drop_last() =~= all.take(t as int));
            assert(all[t as int] == it@);
            assert(track_ok(all[t as int]));
            assert forall|k: int| 0 <= k < it.clips@.len() implies clip_ok(
                #[trigger] views(it.clips@)[k],
            ) by {
                assert(clip_ok(all[t as int].clips[k]));
            }
        }
        let mut laid = Laid { cursor: Time::zero(), clips: Vec::new(), dropped, snapped };
        assert(laid_view(laid).clips =~= seq![]);
        match add_clips(&mut laid, &it.clips, project, fps) {
            Ok(()) => {},
            Err(error) => {
                proof {
                    lemma_lay_tracks_fails(all, *project, fps, t + 1);
                }
                return Err(error);
            },
        }
        let Laid { cursor: _, clips, dropped: left_out, snapped: moved } = laid;
        if clips.len() > 0 {
            let kind = if it.audio {
                TrackKind::Audio
            } else {
                TrackKind::Video
            };
            let track = PlannedTrack { kind, name: String::new(), clips };
            assert(track@.name =~= seq![]);
            push_view(&mut tracks, track);
        }
        dropped = left_out;
        snapped = moved;
        t = t + 1;
    }
    assert(all.take(t as int) =~= all);
    Ok((tracks, dropped, snapped))
}

fn is_taken(taken: &Vec<String>, name: &str) -> (r: bool)
    ensures
        r == strings(taken@).contains(name@),
{
    let ghost all = strings(taken@);
    let mut i: usize = 0;
    while i < taken.len()
        invariant
            i <= taken@.len(),
            all == strings(taken@),
            forall|k: int| 0 <= k < i ==> all[k] != name@,
        decreases taken@.len() - i,
    {
        assert(all[i as int] == taken@[i as int]@);
        if same(taken[i].as_str(), name) {
            return true;
        }
        i = i + 1;
    }
    false
}

/// The name of a new track beside others.
pub fn next_track_name(taken: &Vec<String>, kind: TrackKind) -> (r: String)
    ensures
        r@ == new_name(strings(taken@), kind),
{
    let prefix: &str = match kind {
        TrackKind::Video => "V",
        TrackKind::Audio => "A",
        TrackKind::Caption => "C",
    };
    let total: usize = taken.len();
    let mut tries: usize = total;
    let mut n: u128 = 1;
    loop
        invariant
            total == taken@.len(),
            prefix@ == kind_prefix(kind),
            tries <= total,
            n == 1 + (total - tries),
            free_name(strings(taken@), prefix@, n as nat, tries as nat) == new_name(
                strings(taken@),
                kind,
            ),
        decreases tries,
    {
        let mut name = prefix.to_owned();
        name.append(decimal(n).as_str());
        if tries == 0 || !is_taken(taken, name.as_str()) {
            return name;
        }
        n = n + 1;
        tries = tries - 1;
    }
}

fn taken_names(tracks: &Vec<Track>) -> (r: Vec<String>)
    ensures
        strings(r@) == track_names(tracks@),
{
    let mut out: Vec<String> = Vec::new();
    let mut i: usize = 0;
    while i < tracks.len()
        invariant
            i <= tracks@.len(),
            strings(out@) =~= track_names(tracks@).take(i as int),
        decreases tracks@.len() - i,
    {
        push_text(&mut out, tracks[i].name.as_str());
        i = i + 1;
    }
    assert(strings(out@) =~= track_names(tracks@));
    out
}

fn name_tracks(existing: &Vec<Track>, tracks: Vec<PlannedTrack>) -> (r: Vec<PlannedTrack>)
    ensures
        views(r@) == with_names(track_names(existing@), views(tracks@)),
{
    let ghost all = views(tracks@);
    let ghost known = track_names(existing@);
    let mut named = tracks;
    let mut taken = taken_names(existing);
    let n: usize = named.len();
    let mut i: usize = 0;
    proof {
        assert(all.take(0) =~= seq![]);
        assert(views(named@).take(0) =~= with_names(known, all.take(0)));
        assert(known + names_in(with_names(known, all.take(0))) =~= known);
    }
    while i < n
        invariant
            i <= n,
            n == named@.len(),
            n == all.len(),
            forall|k: int| i <= k < n ==> (#[trigger] views(named@)[k]) == all[k],
            views(named@).take(i as int) == with_names(known, all.take(i as int)),
            strings(taken@) == known + names_in(with_names(known, all.take(i as int))),
        decreases n - i,
    {
        let ghost was = named@;
        let ghost before = with_names(known, all.take(i as int));
        proof {
            assert(all.take(i + 1).drop_last() =~= all.take(i as int));
            assert(views(named@)[i as int] == all[i as int]);
        }
        let name = next_track_name(&taken, named[i].kind);
        push_text(&mut taken, name.as_str());
        named[i].name = name;
        proof {
            let after = with_names(known, all.take(i + 1));
            assert(views(named@)[i as int] == after.last());
            assert forall|k: int| i < k < n implies (#[trigger] views(named@)[k]) == all[k] by {
                assert(named@[k] == was[k]);
                assert(views(was)[k] == all[k]);
            }
            assert(views(named@).take(i + 1) =~= after) by {
                assert forall|k: int| 0 <= k < i implies views(named@)[k] == after[k] by {
                    assert(named@[k] == was[k]);
                    assert(views(was).take(i as int)[k] == before[k]);
                }
            }
            assert(names_in(after) =~= names_in(before).push(name@));
            assert(strings(taken@) =~= known + names_in(after));
        }
        i = i + 1;
    }
    assert(all.take(i as int) =~= all);
    assert(views(named@).take(i as int) =~= views(named@));
    named
}

fn count_clips(tracks: &Vec<PlannedTrack>) -> (r: u128)
    ensures
        r == clip_count(views(tracks@)),
        r <= tracks@.len() * 0x1_0000_0000_0000_0000,
{
    let ghost all = views(tracks@);
    let mut n: u128 = 0;
    let mut i: usize = 0;
    assert(all.take(0) =~= seq![]);
    while i < tracks.len()
        invariant
            i <= tracks@.len(),
            all == views(tracks@),
            n == clip_count(all.take(i as int)),
            n <= i * 0x1_0000_0000_0000_0000,
        decreases tracks@.len() - i,
    {
        let total: usize = tracks.len();
        let count: usize = tracks[i].clips.len();
        proof {
            assert(all.take(i + 1).drop_last() =~= all.take(i as int));
            assert(all.take(i + 1).last() == tracks@[i as int]@);
        }
        n = n + count as u128;
        i = i + 1;
    }
    assert(all.take(i as int) =~= all);
    n
}

fn report(
    sequence: &Sequence,
    fps: Fps,
    dropped: &Vec<String>,
    snapped: u128,
) -> (r: Vec<Warning>)
    ensures
        views(r@) == rate_warning(*sequence, fps) + snap_warning(*sequence, snapped as int)
            + dropped_warnings(strings(dropped@)),
{
    let mut warnings: Vec<Warning> = Vec::new();
    if fps != sequence.fps {
        let mut detail = "the document is ".to_owned();
        detail.append(fps.to_text().as_str());
        detail.append(" and this sequence is ");
        detail.append(sequence.fps.to_text().as_str());
        detail.append("; every imported position was snapped to this sequence's frame grid");
        push_view(
            &mut warnings,
            Warning { code: "fps-mismatch", target: sequence.id.clone(), detail },
        );
    }
    assert(views(warnings@) =~= rate_warning(*sequence, fps));
    if snapped > 0 {
        let mut detail = decimal(snapped);
        detail.append(" imported clip(s) moved to the nearest frame of this sequence");
        push_view(
            &mut warnings,
            Warning { code: "frame-snap", target: sequence.id.clone(), detail },
        );
    }
    let ghost before = rate_warning(*sequence, fps) + snap_warning(*sequence, snapped as int);
    assert(views(warnings@) =~= before);
    let ghost all = dropped_warnings(strings(dropped@));
    let mut i: usize = 0;
    assert(before + all.take(0) =~= before);
    while i < dropped.len()
        invariant
            i <= dropped@.len(),
            all == dropped_warnings(strings(dropped@)),
            views(warnings@) == before + all.take(i as int),
        decreases dropped@.len() - i,
    {
        let mut detail = "'".to_owned();
        detail.append(dropped[i].as_str());
        detail.append(
            "' is not media this project has imported; import it and run import.mlt again to pick it up",
        );
        push_view(
            &mut warnings,
            Warning { code: "clip-dropped", target: dropped[i].clone(), detail },
        );
        i = i + 1;
        assert(views(warnings@) =~= before + all.take(i as int));
    }
    assert(all.take(i as int) =~= all);
    warnings
}

/// What an imported timeline adds to a sequence.
pub fn plan_import(project: &Project, sequence: &Sequence, imported: &ImportedTimeline) -> (r: Result<
    ImportPlan,
    Error,
>)
    requires
        sequence.fps.wf(),
        tracks_ok(imported@.tracks),
    ensures
        (match r {
            Ok(plan) => lay_tracks(imported@.tracks, *project, sequence.fps) matches Ok(st)
                && is_plan(plan, *project, *sequence, imported@, st),
            Err(error) => lay_tracks(imported@.tracks, *project, sequence.fps) == Err::<
                Reading,
                ErrorView,
            >(error@),
        }),
{
    let (tracks, dropped, snapped) = match read_tracks(imported, project, sequence.fps) {
        Ok(found) => found,
        Err(error) => {
            return Err(error);
        },
    };
    let warnings = report(sequence, imported.fps, &dropped, snapped);
    let clips: u128 = count_clips(&tracks);
    let tracks = name_tracks(&sequence.tracks, tracks);
    Ok(ImportPlan { tracks, warnings, dropped, clips })
}

/// The clip that was planned, under an id of its own.
pub fn to_clip(planned: &PlannedClip, id: String) -> (r: Clip)
    ensures
        r.id == id,
        r.source is Asset,
        r.source.asset() == Some(planned.asset@),
        r.start == planned.start,
        r.duration == planned.duration,
        r.source_in == planned.source_in,
        text_view(r.name) == text_view(planned.name),
        r.speed == planned.speed,
        r.reverse == planned.reverse,
        r.is_untouched(),
{
    let mut clip = Clip::new(
        id,
        Source::Asset { asset: planned.asset.clone() },
        planned.start,
        planned.duration,
    );
    clip.source_in = planned.source_in;
    clip.name = copied_name(&planned.name);
    clip.speed = planned.speed;
    clip.reverse = planned.reverse;
    clip
}

} // verus!
