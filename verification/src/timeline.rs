//! The one place a sequence is turned into frames.
//!
//! Every interchange format wants the same preprocessing: rational positions collapsed onto
//! the frame grid, holes between clips made explicit, and each clip's source resolved to a
//! file. Positions are rounded through the clip's end rather than through its duration, so
//! adjacent clips are exactly adjacent by construction.

use crate::color::Rgba;
use crate::error::{Error, ErrorView};
use crate::project::{Asset, Clip, Project, Sequence, Source, Track, TrackKind};
use crate::text::{integer, push_char, push_hex2, push_hex2_upper};
use crate::text::{dec, dec_int, hex2, hex2_upper};
use crate::time::{Fps, Time};
use crate::views::{lemma_views_push, views};
use vstd::prelude::*;

verus! {

/// Frame positions stay below this bound, so that sums of a few of them are exact.
pub const FRAME_LIMIT: i64 = 0x1000_0000_0000_0000;

/// Something an export could not carry, or a report wants read.
#[derive(Clone, Debug)]
pub struct Warning {
    pub code: &'static str,
    pub target: String,
    pub detail: String,
}

pub struct WarningView {
    pub code: Seq<char>,
    pub target: Seq<char>,
    pub detail: Seq<char>,
}

impl View for Warning {
    type V = WarningView;

    open spec fn view(&self) -> WarningView {
        WarningView { code: self.code@, target: self.target@, detail: self.detail@ }
    }
}

/// A copy of some warnings.
pub fn copied_warnings(warnings: &Vec<Warning>) -> (r: Vec<Warning>)
    ensures
        views(r@) == views(warnings@),
{
    let mut out: Vec<Warning> = Vec::new();
    let mut i: usize = 0;
    assert(views(out@) =~= views(warnings@).take(0));
    while i < warnings.len()
        invariant
            i <= warnings@.len(),
            views(out@) == views(warnings@).take(i as int),
        decreases warnings@.len() - i,
    {
        let copy = Warning {
            code: warnings[i].code,
            target: warnings[i].target.clone(),
            detail: warnings[i].detail.clone(),
        };
        proof {
            lemma_views_push(out@, copy);
        }
        out.push(copy);
        i = i + 1;
        assert(views(out@) =~= views(warnings@).take(i as int));
    }
    assert(views(warnings@).take(i as int) =~= views(warnings@));
    out
}

// ---------------------------------------------------------------------------
// The frame grid
// ---------------------------------------------------------------------------

/// A clip placed on the frame grid.
#[derive(Clone, Copy, Debug)]
pub struct Placed<'a> {
    pub clip: &'a Clip,
    /// First timeline frame the clip occupies.
    pub start: i64,
    /// Number of frames occupied, at least one.
    pub frames: i64,
    /// First source frame, at the sequence frame rate and before any retiming.
    pub source_in: i64,
}

/// A track entry: media, or the hole before it.
#[derive(Clone, Copy, Debug)]
pub enum Entry<'a> {
    /// A hole: black on video, silence on audio.
    Blank { frames: i64 },
    Clip(Placed<'a>),
}

/// A track reduced to a gap-free sequence of entries.
#[derive(Clone, Debug)]
pub struct FlatTrack<'a> {
    pub track: &'a Track,
    pub entries: Vec<Entry<'a>>,
    /// Total length in frames, blanks included.
    pub frames: i64,
    pub warnings: Vec<Warning>,
}

pub open spec fn larger(a: int, b: int) -> int {
    if a >= b {
        a
    } else {
        b
    }
}

pub open spec fn smaller(a: int, b: int) -> int {
    if a <= b {
        a
    } else {
        b
    }
}

/// The frame a clip asks to start on.
pub open spec fn wanted_frame(clip: Clip, fps: Fps) -> int {
    clip.start.round_frame(fps)
}

/// The frames between a clip's rounded ends.
pub open spec fn measured_frames(clip: Clip, fps: Fps) -> int {
    clip.spec_end().round_frame(fps) - clip.start.round_frame(fps)
}

/// The frames a clip takes up: at least one.
pub open spec fn clip_frames(clip: Clip, fps: Fps) -> int {
    larger(measured_frames(clip, fps), 1)
}

/// Where the next clip can start, after these.
pub open spec fn cursor_after(clips: Seq<Clip>, fps: Fps) -> int
    decreases clips.len(),
{
    if clips.len() == 0 {
        0
    } else {
        larger(wanted_frame(clips.last(), fps), cursor_after(clips.drop_last(), fps))
            + clip_frames(clips.last(), fps)
    }
}

/// The frame the last of these clips starts on: where it asks to, or after the one before.
pub open spec fn start_of_last(clips: Seq<Clip>, fps: Fps) -> int {
    larger(wanted_frame(clips.last(), fps), cursor_after(clips.drop_last(), fps))
}

/// The clip, on its frames.
pub open spec fn placed_last(clips: Seq<Clip>, fps: Fps) -> Placed<'static> {
    Placed {
        clip: &clips.last(),
        start: start_of_last(clips, fps) as i64,
        frames: clip_frames(clips.last(), fps) as i64,
        source_in: clips.last().source_in.round_frame(fps) as i64,
    }
}

/// The entries of a track: every hole is a blank, and a disabled clip is one as well.
pub open spec fn entries_of(clips: Seq<Clip>, fps: Fps) -> Seq<Entry<'static>>
    decreases clips.len(),
{
    if clips.len() == 0 {
        seq![]
    } else {
        let clip = clips.last();
        let before = entries_of(clips.drop_last(), fps);
        let cursor = cursor_after(clips.drop_last(), fps);
        let start = start_of_last(clips, fps);
        let reached = if start > cursor {
            before.push(Entry::Blank { frames: (start - cursor) as i64 })
        } else {
            before
        };
        if clip.enabled {
            reached.push(Entry::Clip(placed_last(clips, fps)))
        } else {
            reached.push(Entry::Blank { frames: clip_frames(clip, fps) as i64 })
        }
    }
}

pub open spec fn sub_frame_warning(clip: Clip) -> WarningView {
    WarningView {
        code: "sub-frame-clip"@,
        target: clip.spec_label(),
        detail: "'"@ + clip.spec_label() + "' is shorter than one frame ("@ + clip.duration.text()
            + "); it was widened to a single frame, which moves everything after it on this track"@,
    }
}

pub open spec fn disabled_warning(clip: Clip, frames: int) -> WarningView {
    WarningView {
        code: "clip-disabled"@,
        target: clip.spec_label(),
        detail: "'"@ + clip.spec_label() + "' is disabled and was exported as "@ + dec_int(frames)
            + " frames of blank"@,
    }
}

/// What placing the clips has to report, in their order.
pub open spec fn placing_warnings(clips: Seq<Clip>, fps: Fps) -> Seq<WarningView>
    decreases clips.len(),
{
    if clips.len() == 0 {
        seq![]
    } else {
        let clip = clips.last();
        let before = placing_warnings(clips.drop_last(), fps);
        let widened = if measured_frames(clip, fps) < 1 {
            before.push(sub_frame_warning(clip))
        } else {
            before
        };
        if clip.enabled {
            widened
        } else {
            widened.push(disabled_warning(clip, clip_frames(clip, fps)))
        }
    }
}

/// Every position that placing these clips meets is a frame number that can be added to
/// others: the rounded starts, ends and source in-points, and the end of the track.
pub open spec fn on_grid(clips: Seq<Clip>, fps: Fps) -> bool {
    &&& forall|i: int|
        0 <= i < clips.len() ==> {
            &&& (#[trigger] clips[i]).wf()
            &&& -FRAME_LIMIT < clips[i].start.round_frame(fps) < FRAME_LIMIT
            &&& -FRAME_LIMIT < clips[i].spec_end().round_frame(fps) < FRAME_LIMIT
            &&& -FRAME_LIMIT < clips[i].source_in.round_frame(fps) < FRAME_LIMIT
        }
    &&& cursor_after(clips, fps) < FRAME_LIMIT
}

/// Whether a track's clips can be placed.
pub open spec fn track_fits(track: Track, fps: Fps) -> bool {
    track.kind == TrackKind::Caption || on_grid(track.clips@, fps)
}

/// Whether a sequence's clips can be placed.
pub open spec fn sequence_fits(sequence: Sequence) -> bool {
    &&& sequence.fps.wf()
    &&& forall|i: int|
        0 <= i < sequence.tracks@.len() ==> track_fits(#[trigger] sequence.tracks@[i], sequence.fps)
}

/// The tracks that carry clips, bottom to top.
pub open spec fn clip_tracks(tracks: Seq<Track>) -> Seq<Track>
    decreases tracks.len(),
{
    if tracks.len() == 0 {
        seq![]
    } else if tracks.last().kind == TrackKind::Caption {
        clip_tracks(tracks.drop_last())
    } else {
        clip_tracks(tracks.drop_last()).push(tracks.last())
    }
}

/// What it means for `flat` to be `track` on the frame grid.
pub open spec fn flattens(flat: FlatTrack, track: Track, fps: Fps) -> bool {
    &&& *flat.track == track
    &&& flat.entries@ == entries_of(track.clips@, fps)
    &&& flat.frames == cursor_after(track.clips@, fps)
    &&& views(flat.warnings@) == placing_warnings(track.clips@, fps)
}

/// What it means for `flat` to be a sequence on the frame grid.
pub open spec fn is_flat(flat: Seq<FlatTrack>, sequence: Sequence) -> bool {
    let tracks = clip_tracks(sequence.tracks@);
    &&& flat.len() == tracks.len()
    &&& forall|i: int|
        0 <= i < flat.len() ==> flattens(#[trigger] flat[i], tracks[i], sequence.fps)
}

// ---------------------------------------------------------------------------
// Laws of the grid
// ---------------------------------------------------------------------------

/// The frames an entry takes up.
pub open spec fn entry_frames(entry: Entry) -> int {
    match entry {
        Entry::Blank { frames } => frames as int,
        Entry::Clip(placed) => placed.frames as int,
    }
}

/// The frames that some entries take up together.
pub open spec fn frames_in(entries: Seq<Entry>) -> int
    decreases entries.len(),
{
    if entries.len() == 0 {
        0
    } else {
        frames_in(entries.drop_last()) + entry_frames(entries.last())
    }
}

/// A track never gets shorter by a clip, and a clip takes at least one frame.
pub proof fn lemma_cursor_grows(clips: Seq<Clip>, fps: Fps, n: int)
    requires
        0 <= n <= clips.len(),
    ensures
        0 <= cursor_after(clips.take(n), fps) <= cursor_after(clips, fps),
        cursor_after(clips, fps) >= clips.len(),
    decreases clips.len(),
{
    if n == clips.len() {
        assert(clips.take(n) =~= clips);
    }
    if clips.len() > 0 {
        let rest = clips.drop_last();
        if n < clips.len() {
            assert(rest.take(n) =~= clips.take(n));
            lemma_cursor_grows(rest, fps, n);
        } else {
            lemma_cursor_grows(rest, fps, rest.len() as int);
            assert(rest.take(rest.len() as int) =~= rest);
        }
    }
}

/// What holds of the first clips holds of fewer of them.
pub proof fn lemma_on_grid_prefix(clips: Seq<Clip>, fps: Fps, n: int)
    requires
        on_grid(clips, fps),
        0 <= n <= clips.len(),
    ensures
        on_grid(clips.take(n), fps),
{
    lemma_cursor_grows(clips, fps, n);
    assert forall|i: int| 0 <= i < n implies {
        &&& (#[trigger] clips.take(n)[i]).wf()
        &&& -FRAME_LIMIT < clips.take(n)[i].start.round_frame(fps) < FRAME_LIMIT
        &&& -FRAME_LIMIT < clips.take(n)[i].spec_end().round_frame(fps) < FRAME_LIMIT
        &&& -FRAME_LIMIT < clips.take(n)[i].source_in.round_frame(fps) < FRAME_LIMIT
    } by {
        assert(clips.take(n)[i] == clips[i]);
    }
}

/// The entries of a track fill it exactly: blanks and clips add up to its length, nothing
/// overlaps and nothing is left out.
pub proof fn law_entries_fill_the_track(clips: Seq<Clip>, fps: Fps)
    requires
        on_grid(clips, fps),
    ensures
        frames_in(entries_of(clips, fps)) == cursor_after(clips, fps),
    decreases clips.len(),
{
    if clips.len() > 0 {
        let rest = clips.drop_last();
        assert(rest =~= clips.take(clips.len() - 1));
        lemma_on_grid_prefix(clips, fps, clips.len() - 1);
        lemma_cursor_grows(clips, fps, clips.len() - 1);
        law_entries_fill_the_track(rest, fps);
        let clip = clips.last();
        assert(clip == clips[clips.len() - 1]);
        let before = entries_of(rest, fps);
        let cursor = cursor_after(rest, fps);
        let start = start_of_last(clips, fps);
        let reached = if start > cursor {
            before.push(Entry::Blank { frames: (start - cursor) as i64 })
        } else {
            before
        };
        if start > cursor {
            assert(reached.drop_last() =~= before);
        }
        assert(frames_in(reached) == start);
        let all = entries_of(clips, fps);
        assert(all.drop_last() =~= reached);
    }
}

/// Each placed clip stands where the entries before it end, and takes at least one frame.
pub proof fn law_clips_stand_where_the_entries_before_them_end(clips: Seq<Clip>, fps: Fps, i: int)
    requires
        on_grid(clips, fps),
        0 <= i < entries_of(clips, fps).len(),
        entries_of(clips, fps)[i] is Clip,
    ensures
        entries_of(clips, fps)[i]->Clip_0.start == frames_in(entries_of(clips, fps).take(i)),
        entries_of(clips, fps)[i]->Clip_0.frames >= 1,
    decreases clips.len(),
{
    let all = entries_of(clips, fps);
    let rest = clips.drop_last();
    assert(rest =~= clips.take(clips.len() - 1));
    lemma_on_grid_prefix(clips, fps, clips.len() - 1);
    lemma_cursor_grows(clips, fps, clips.len() - 1);
    law_entries_fill_the_track(rest, fps);
    let before = entries_of(rest, fps);
    let cursor = cursor_after(rest, fps);
    let start = start_of_last(clips, fps);
    let clip = clips.last();
    assert(clip == clips[clips.len() - 1]);
    let reached = if start > cursor {
        before.push(Entry::Blank { frames: (start - cursor) as i64 })
    } else {
        before
    };
    if i < before.len() {
        assert(all[i] == before[i]);
        assert(all.take(i) =~= before.take(i));
        law_clips_stand_where_the_entries_before_them_end(rest, fps, i);
    } else {
        assert(i == reached.len());
        assert(all.take(i) =~= reached);
        if start > cursor {
            assert(reached.drop_last() =~= before);
        }
        assert(frames_in(reached) == start);
    }
}

/// A placed clip is one of the clips, on its own frames, inside the track.
pub proof fn lemma_placed(clips: Seq<Clip>, fps: Fps, i: int)
    requires
        on_grid(clips, fps),
        0 <= i < entries_of(clips, fps).len(),
        entries_of(clips, fps)[i] is Clip,
    ensures
        ({
            let placed = entries_of(clips, fps)[i]->Clip_0;
            &&& clips.contains(*placed.clip)
            &&& placed.source_in == placed.clip.source_in.round_frame(fps)
            &&& -FRAME_LIMIT < placed.source_in < FRAME_LIMIT
            &&& 0 <= placed.start
            &&& 1 <= placed.frames
            &&& placed.start + placed.frames <= cursor_after(clips, fps)
        }),
    decreases clips.len(),
{
    let all = entries_of(clips, fps);
    let rest = clips.drop_last();
    assert(rest =~= clips.take(clips.len() - 1));
    lemma_on_grid_prefix(clips, fps, clips.len() - 1);
    lemma_cursor_grows(clips, fps, clips.len() - 1);
    let before = entries_of(rest, fps);
    assert(clips.last() == clips[clips.len() - 1]);
    if i < before.len() {
        assert(all[i] == before[i]);
        lemma_placed(rest, fps, i);
        let k = choose|k: int| 0 <= k < rest.len() && rest[k] == *(before[i]->Clip_0.clip);
        assert(clips[k] == rest[k]);
    }
}

/// A blank is a number of frames.
pub proof fn lemma_blanks_are_not_negative(clips: Seq<Clip>, fps: Fps, i: int)
    requires
        on_grid(clips, fps),
        0 <= i < entries_of(clips, fps).len(),
        entries_of(clips, fps)[i] is Blank,
    ensures
        entries_of(clips, fps)[i]->frames >= 1,
    decreases clips.len(),
{
    let all = entries_of(clips, fps);
    let rest = clips.drop_last();
    assert(rest =~= clips.take(clips.len() - 1));
    lemma_on_grid_prefix(clips, fps, clips.len() - 1);
    lemma_cursor_grows(clips, fps, clips.len() - 1);
    let before = entries_of(rest, fps);
    assert(clips.last() == clips[clips.len() - 1]);
    if i < before.len() {
        assert(all[i] == before[i]);
        lemma_blanks_are_not_negative(rest, fps, i);
    }
}

/// Two clips that touch in time stay adjacent on the grid, whatever rounding does: where
/// each is at least a frame long, the second starts on the frame where the first ends.
pub proof fn law_touching_clips_stay_adjacent(clips: Seq<Clip>, fps: Fps)
    requires
        clips.len() >= 2,
        clips[clips.len() - 2].spec_end() == clips.last().start,
        measured_frames(clips[clips.len() - 2], fps) >= 1,
        start_of_last(clips.drop_last(), fps) == wanted_frame(clips[clips.len() - 2], fps),
    ensures
        start_of_last(clips, fps) == cursor_after(clips.drop_last(), fps),
        start_of_last(clips, fps) == wanted_frame(clips.last(), fps),
{
    let rest = clips.drop_last();
    assert(rest.last() == clips[clips.len() - 2]);
}

// ---------------------------------------------------------------------------
// Flattening
// ---------------------------------------------------------------------------

impl<'a> Placed<'a> {
    /// One past the last frame: where the next entry starts.
    pub fn end(&self) -> (r: i64)
        requires
            i64::MIN <= self.start + self.frames <= i64::MAX,
        ensures
            r == self.start + self.frames,
    {
        self.start + self.frames
    }

    /// What a human recognizes this clip by in an exported file.
    pub fn label(&self) -> (r: String)
        ensures
            r@ == self.clip.shown_name(),
    {
        match &self.clip.name {
            Some(name) => name.clone(),
            None => self.clip.source.describe(),
        }
    }
}

/// The placed clips among some entries.
pub open spec fn placed_in<'a>(entries: Seq<Entry<'a>>) -> Seq<Placed<'a>>
    decreases entries.len(),
{
    if entries.len() == 0 {
        seq![]
    } else {
        match entries.last() {
            Entry::Clip(placed) => placed_in(entries.drop_last()).push(placed),
            Entry::Blank { .. } => placed_in(entries.drop_last()),
        }
    }
}

impl<'a> FlatTrack<'a> {
    /// The placed clips, without the blanks.
    pub fn clips(&self) -> (r: Vec<Placed<'a>>)
        ensures
            r@ == placed_in(self.entries@),
    {
        let mut out: Vec<Placed<'a>> = Vec::new();
        let mut i: usize = 0;
        assert(self.entries@.take(0) =~= seq![]);
        while i < self.entries.len()
            invariant
                i <= self.entries@.len(),
                out@ == placed_in(self.entries@.take(i as int)),
            decreases self.entries@.len() - i,
        {
            proof {
                assert(self.entries@.take(i + 1).drop_last() =~= self.entries@.take(i as int));
            }
            match &self.entries[i] {
                Entry::Clip(placed) => {
                    out.push(*placed);
                },
                Entry::Blank { .. } => {},
            }
            i = i + 1;
        }
        assert(self.entries@.take(i as int) =~= self.entries@);
        out
    }
}

/// Frame position of an instant, rounded to the nearest frame.
pub fn frame_of(at: Time, fps: Fps) -> (r: i64)
    requires
        at.wf(),
        fps.wf(),
        i64::MIN <= at.round_frame(fps) <= i64::MAX,
    ensures
        r == at.round_frame(fps),
{
    at.frame_round(fps)
}

fn sub_frame(clip: &Clip) -> (r: Warning)
    ensures
        r@ == sub_frame_warning(*clip),
{
    let mut detail = "'".to_owned();
    detail.append(clip.label());
    detail.append("' is shorter than one frame (");
    detail.append(clip.duration.to_text().as_str());
    detail.append(
        "); it was widened to a single frame, which moves everything after it on this track",
    );
    Warning { code: "sub-frame-clip", target: clip.label().to_owned(), detail }
}

fn disabled(clip: &Clip, frames: i64) -> (r: Warning)
    ensures
        r@ == disabled_warning(*clip, frames as int),
{
    let mut detail = "'".to_owned();
    detail.append(clip.label());
    detail.append("' is disabled and was exported as ");
    detail.append(integer(frames).as_str());
    detail.append(" frames of blank");
    Warning { code: "clip-disabled", target: clip.label().to_owned(), detail }
}

/// One track on the frame grid.
pub fn flatten_track<'a>(track: &'a Track, fps: Fps) -> (r: FlatTrack<'a>)
    requires
        fps.wf(),
        on_grid(track.clips@, fps),
    ensures
        flattens(r, *track, fps),
{
    let mut entries: Vec<Entry<'a>> = Vec::new();
    let mut warnings: Vec<Warning> = Vec::new();
    let mut cursor: i64 = 0;
    let mut i: usize = 0;
    proof {
        assert(track.clips@.take(0) =~= seq![]);
        assert(views(warnings@) =~= seq![]);
    }
    while i < track.clips.len()
        invariant
            i <= track.clips@.len(),
            fps.wf(),
            on_grid(track.clips@, fps),
            cursor == cursor_after(track.clips@.take(i as int), fps),
            0 <= cursor < FRAME_LIMIT,
            entries@ == entries_of(track.clips@.take(i as int), fps),
            views(warnings@) == placing_warnings(track.clips@.take(i as int), fps),
        decreases track.clips@.len() - i,
    {
        let ghost seen = track.clips@.take(i + 1);
        proof {
            assert(seen.drop_last() =~= track.clips@.take(i as int));
            assert(seen.last() == track.clips@[i as int]);
            lemma_cursor_grows(track.clips@, fps, i + 1);
        }
        let clip: &'a Clip = &track.clips[i];
        let wanted: i64 = frame_of(clip.start, fps);
        let measured: i64 = frame_of(clip.end(), fps) - wanted;
        let frames: i64 = if measured >= 1 {
            measured
        } else {
            1
        };
        if measured < 1 {
            let warning = sub_frame(clip);
            proof {
                lemma_views_push(warnings@, warning);
            }
            warnings.push(warning);
        }
        let start: i64 = if wanted >= cursor {
            wanted
        } else {
            cursor
        };
        if start > cursor {
            entries.push(Entry::Blank { frames: start - cursor });
        }
        if !clip.enabled {
            let warning = disabled(clip, frames);
            proof {
                lemma_views_push(warnings@, warning);
            }
            warnings.push(warning);
            entries.push(Entry::Blank { frames });
        } else {
            entries.push(
                Entry::Clip(
                    Placed { clip, start, frames, source_in: frame_of(clip.source_in, fps) },
                ),
            );
        }
        assert(entries@ =~= entries_of(seen, fps));
        cursor = start + frames;
        i = i + 1;
    }
    assert(track.clips@.take(i as int) =~= track.clips@);
    FlatTrack { track, entries, frames: cursor, warnings }
}

/// Video and audio tracks on the frame grid, in document order, which is bottom to top.
/// Caption tracks carry cues rather than clips and are not part of this.
pub fn flatten<'a>(sequence: &'a Sequence) -> (r: Vec<FlatTrack<'a>>)
    requires
        sequence_fits(*sequence),
    ensures
        is_flat(r@, *sequence),
{
    let mut flat: Vec<FlatTrack<'a>> = Vec::new();
    let mut i: usize = 0;
    assert(sequence.tracks@.take(0) =~= seq![]);
    while i < sequence.tracks.len()
        invariant
            i <= sequence.tracks@.len(),
            sequence_fits(*sequence),
            flat@.len() == clip_tracks(sequence.tracks@.take(i as int)).len(),
            forall|k: int|
                0 <= k < flat@.len() ==> flattens(
                    #[trigger] flat@[k],
                    clip_tracks(sequence.tracks@.take(i as int))[k],
                    sequence.fps,
                ),
        decreases sequence.tracks@.len() - i,
    {
        proof {
            assert(sequence.tracks@.take(i + 1).drop_last() =~= sequence.tracks@.take(i as int));
            assert(track_fits(sequence.tracks@[i as int], sequence.fps));
        }
        let track: &'a Track = &sequence.tracks[i];
        if track.kind != TrackKind::Caption {
            flat.push(flatten_track(track, sequence.fps));
        }
        i = i + 1;
    }
    assert(sequence.tracks@.take(i as int) =~= sequence.tracks@);
    flat
}

// ---------------------------------------------------------------------------
// Sources
// ---------------------------------------------------------------------------

/// Where a clip's pixels or samples come from, in terms an interchange file can state.
#[derive(Clone, Copy, Debug)]
pub enum Resource<'a> {
    /// A file in the asset store, at the asset's `path`.
    File { asset: &'a Asset },
    /// A flat color. Titles, generators and nested sequences degrade to this.
    Color(Rgba),
}

/// `#aarrggbb`, the byte order MLT's color producer reads.
pub open spec fn mlt_color_text(color: Rgba) -> Seq<char> {
    seq!['#'] + hex2(color.a) + hex2(color.r) + hex2(color.g) + hex2(color.b)
}

impl<'a> Resource<'a> {
    pub fn mlt_color(color: Rgba) -> (r: String)
        ensures
            r@ == mlt_color_text(color),
    {
        let mut out = String::new();
        push_char(&mut out, '#');
        push_hex2(&mut out, color.a);
        push_hex2(&mut out, color.r);
        push_hex2(&mut out, color.g);
        push_hex2(&mut out, color.b);
        assert(out@ =~= mlt_color_text(color));
        out
    }
}

/// The view of an optional warning.
pub open spec fn warning_view(warning: Option<Warning>) -> Option<WarningView> {
    match warning {
        Some(w) => Some(w@),
        None => None,
    }
}

/// An optional warning as a list of none or one.
pub open spec fn as_list(warning: Option<WarningView>) -> Seq<WarningView> {
    match warning {
        Some(w) => seq![w],
        None => seq![],
    }
}

/// The asset a clip reads, if it reads one that the project has.
pub open spec fn clip_asset(project: Project, clip: Clip) -> Option<Asset> {
    match clip.source.asset() {
        Some(id) => if project.asset_at(id) >= 0 {
            Some(project.assets@[project.asset_at(id)])
        } else {
            None
        },
        None => None,
    }
}

pub open spec fn missing_blob(asset: Asset) -> ErrorView {
    ErrorView::Op("'"@ + asset.name@ + "' ("@ + asset.hash@ + ") is not in the asset store"@)
}

/// Why a clip's source cannot be resolved, if it cannot.
pub open spec fn source_error(project: Project, clip: Clip) -> Option<ErrorView> {
    match clip.source.asset() {
        None => None,
        Some(id) => match clip_asset(project, clip) {
            None => Some(project.no_asset(id)),
            Some(asset) => if asset.path is None {
                Some(missing_blob(asset))
            } else {
                None
            },
        },
    }
}

/// What a clip shows in an interchange file.
pub open spec fn resource_of(project: Project, clip: Clip) -> Resource<'static> {
    match clip.source {
        Source::Color { color } => Resource::Color(color),
        _ => match clip_asset(project, clip) {
            Some(asset) => Resource::File { asset: &asset },
            None => Resource::Color(Rgba::clear()),
        },
    }
}

pub open spec fn title_name(project: Project, title: Seq<char>) -> Seq<char> {
    if project.title_at(title) >= 0 {
        project.titles@[project.title_at(title)].name@
    } else {
        title
    }
}

pub open spec fn sequence_name(project: Project, sequence: Seq<char>) -> Seq<char> {
    if project.sequence_at(sequence) >= 0 {
        project.sequences@[project.sequence_at(sequence)].name@
    } else {
        sequence
    }
}

/// What is lost when a clip's source has no equivalent and a placeholder takes its place.
pub open spec fn source_warning(project: Project, clip: Clip) -> Option<WarningView> {
    match clip.source {
        Source::Title { title } => Some(
            WarningView {
                code: "title-not-representable"@,
                target: clip.spec_label(),
                detail: "title '"@ + title_name(project, title@)
                    + "' is a vector document only this engine renders; it was exported as a transparent placeholder of the same length"@,
            },
        ),
        Source::Sequence { sequence } => Some(
            WarningView {
                code: "nested-sequence-not-representable"@,
                target: clip.spec_label(),
                detail: "nested sequence '"@ + sequence_name(project, sequence@)
                    + "' was exported as a transparent placeholder; render it and import the result to hand it over"@,
            },
        ),
        Source::Generator { generator } => Some(
            WarningView {
                code: "generator-not-representable"@,
                target: clip.spec_label(),
                detail: "the "@ + generator@
                    + " generator has no equivalent in this format and was exported as a transparent placeholder"@,
            },
        ),
        _ => None,
    }
}

/// Resolves a clip's source, degrading anything an interchange file cannot hold to a
/// transparent color of the same length and saying so.
pub fn resolve_source<'a>(project: &'a Project, clip: &Clip) -> (r: Result<
    (Resource<'a>, Option<Warning>),
    Error,
>)
    ensures
        r is Err <==> source_error(*project, *clip) is Some,
        r is Err ==> Some(r->Err_0@) == source_error(*project, *clip),
        r is Ok ==> r->Ok_0.0 == resource_of(*project, *clip),
        r is Ok ==> warning_view(r->Ok_0.1) == source_warning(*project, *clip),
{
    match &clip.source {
        Source::Asset { asset } | Source::Image { asset } => {
            let found = project.asset(asset.as_str());
            match found {
                Err(error) => Err(error),
                Ok(asset) => {
                    if asset.path.is_none() {
                        let mut detail = "'".to_owned();
                        detail.append(asset.name.as_str());
                        detail.append("' (");
                        detail.append(asset.hash.as_str());
                        detail.append(") is not in the asset store");
                        return Err(Error::Op(detail));
                    }
                    Ok((Resource::File { asset }, None))
                },
            }
        },
        Source::Color { color } => Ok((Resource::Color(*color), None)),
        Source::Title { title } => {
            let mut detail = "title '".to_owned();
            match project.find_title(title.as_str()) {
                Some(at) => detail.append(project.titles[at].name.as_str()),
                None => detail.append(title.as_str()),
            }
            detail.append(
                "' is a vector document only this engine renders; it was exported as a transparent placeholder of the same length",
            );
            Ok(
                (
                    Resource::Color(Rgba::transparent()),
                    Some(
                        Warning {
                            code: "title-not-representable",
                            target: clip.label().to_owned(),
                            detail,
                        },
                    ),
                ),
            )
        },
        Source::Sequence { sequence } => {
            let mut detail = "nested sequence '".to_owned();
            match project.find_sequence(sequence.as_str()) {
                Some(at) => detail.append(project.sequences[at].name.as_str()),
                None => detail.append(sequence.as_str()),
            }
            detail.append(
                "' was exported as a transparent placeholder; render it and import the result to hand it over",
            );
            Ok(
                (
                    Resource::Color(Rgba::transparent()),
                    Some(
                        Warning {
                            code: "nested-sequence-not-representable",
                            target: clip.label().to_owned(),
                            detail,
                        },
                    ),
                ),
            )
        },
        Source::Generator { generator } => {
            let mut detail = "the ".to_owned();
            detail.append(generator.as_str());
            detail.append(
                " generator has no equivalent in this format and was exported as a transparent placeholder",
            );
            Ok(
                (
                    Resource::Color(Rgba::transparent()),
                    Some(
                        Warning {
                            code: "generator-not-representable",
                            target: clip.label().to_owned(),
                            detail,
                        },
                    ),
                ),
            )
        },
    }
}

// ---------------------------------------------------------------------------
// What a format cannot carry
// ---------------------------------------------------------------------------

pub open spec fn effect_warning(clip: Clip, kind: Seq<char>, format: Seq<char>) -> WarningView {
    WarningView {
        code: "effect-not-exported"@,
        target: clip.spec_label(),
        detail: "effect '"@ + kind + "' has no "@ + format + " equivalent and was dropped"@,
    }
}

/// One warning for each effect that is switched on.
pub open spec fn effect_warnings(
    clip: Clip,
    effects: Seq<crate::project::Effect>,
    format: Seq<char>,
) -> Seq<WarningView>
    decreases effects.len(),
{
    if effects.len() == 0 {
        seq![]
    } else {
        let before = effect_warnings(clip, effects.drop_last(), format);
        if effects.last().enabled {
            before.push(effect_warning(clip, effects.last().kind@, format))
        } else {
            before
        }
    }
}

pub open spec fn keyframe_warning(clip: Clip) -> Option<WarningView> {
    if clip.keyframes == 0 {
        None
    } else {
        Some(
            WarningView {
                code: "keyframes-not-exported"@,
                target: clip.spec_label(),
                detail: dec(clip.keyframes as nat)
                    + " animated parameter(s) were flattened to their static values"@,
            },
        )
    }
}

pub open spec fn transform_warning(clip: Clip, format: Seq<char>) -> Option<WarningView> {
    if !clip.transformed {
        None
    } else {
        Some(
            WarningView {
                code: "transform-not-exported"@,
                target: clip.spec_label(),
                detail: "the position, scale or crop of '"@ + clip.spec_label()
                    + "' is not part of this "@ + format
                    + " export; the clip arrives untransformed"@,
            },
        )
    }
}

pub open spec fn blend_warning(clip: Clip) -> Option<WarningView> {
    match clip.blend {
        None => None,
        Some(blend) => Some(
            WarningView {
                code: "blend-not-exported"@,
                target: clip.spec_label(),
                detail: "blend mode "@ + blend@ + " was exported as normal"@,
            },
        ),
    }
}

/// Everything about a clip that the interchange formats leave behind.
pub open spec fn lost_features(clip: Clip, format: Seq<char>) -> Seq<WarningView> {
    effect_warnings(clip, clip.effects@, format) + as_list(keyframe_warning(clip)) + as_list(
        transform_warning(clip, format),
    ) + as_list(blend_warning(clip))
}

/// Warnings for clip features the interchange formats cannot carry. Every writer reports
/// these, so nothing is lost in silence.
pub fn feature_warnings(clip: &Clip, format: &str) -> (r: Vec<Warning>)
    ensures
        views(r@) == lost_features(*clip, format@),
{
    let mut warnings: Vec<Warning> = Vec::new();
    let mut i: usize = 0;
    assert(views(warnings@) =~= seq![]);
    assert(clip.effects@.take(0) =~= seq![]);
    while i < clip.effects.len()
        invariant
            i <= clip.effects@.len(),
            views(warnings@) == effect_warnings(*clip, clip.effects@.take(i as int), format@),
        decreases clip.effects@.len() - i,
    {
        proof {
            assert(clip.effects@.take(i + 1).drop_last() =~= clip.effects@.take(i as int));
        }
        if clip.effects[i].enabled {
            let mut detail = "effect '".to_owned();
            detail.append(clip.effects[i].kind.as_str());
            detail.append("' has no ");
            detail.append(format);
            detail.append(" equivalent and was dropped");
            let warning = Warning {
                code: "effect-not-exported",
                target: clip.label().to_owned(),
                detail,
            };
            proof {
                lemma_views_push(warnings@, warning);
            }
            warnings.push(warning);
        }
        i = i + 1;
    }
    assert(clip.effects@.take(i as int) =~= clip.effects@);
    if clip.keyframes > 0 {
        let mut detail = crate::text::decimal(clip.keyframes as u128);
        detail.append(" animated parameter(s) were flattened to their static values");
        let warning = Warning {
            code: "keyframes-not-exported",
            target: clip.label().to_owned(),
            detail,
        };
        proof {
            lemma_views_push(warnings@, warning);
        }
        warnings.push(warning);
    }
    if clip.transformed {
        let mut detail = "the position, scale or crop of '".to_owned();
        detail.append(clip.label());
        detail.append("' is not part of this ");
        detail.append(format);
        detail.append(" export; the clip arrives untransformed");
        let warning = Warning {
            code: "transform-not-exported",
            target: clip.label().to_owned(),
            detail,
        };
        proof {
            lemma_views_push(warnings@, warning);
        }
        warnings.push(warning);
    }
    if let Some(blend) = &clip.blend {
        let mut detail = "blend mode ".to_owned();
        detail.append(blend.as_str());
        detail.append(" was exported as normal");
        let warning = Warning {
            code: "blend-not-exported",
            target: clip.label().to_owned(),
            detail,
        };
        proof {
            lemma_views_push(warnings@, warning);
        }
        warnings.push(warning);
    }
    assert(views(warnings@) =~= lost_features(*clip, format@));
    warnings
}

/// The warning for a retime that a format cannot state.
pub open spec fn retime_loss(clip: Clip, format: Seq<char>) -> Option<WarningView> {
    if clip.plays_straight() {
        None
    } else {
        Some(
            WarningView {
                code: "speed-not-exported"@,
                target: clip.spec_label(),
                detail: "'"@ + clip.spec_label() + "' plays at "@ + clip.speed.text() + (
                if clip.reverse {
                    " reversed"@
                } else {
                    ""@
                }) + " here but arrives at natural speed in "@ + format
                    + "; retime it again in the editor"@,
            },
        )
    }
}

pub fn retime_warning(clip: &Clip, format: &str) -> (r: Option<Warning>)
    ensures
        warning_view(r) == retime_loss(*clip, format@),
{
    if clip.speed.is_one() && !clip.reverse {
        return None;
    }
    let mut detail = "'".to_owned();
    detail.append(clip.label());
    detail.append("' plays at ");
    detail.append(clip.speed.to_text().as_str());
    if clip.reverse {
        detail.append(" reversed");
    } else {
        detail.append("");
    }
    detail.append(" here but arrives at natural speed in ");
    detail.append(format);
    detail.append("; retime it again in the editor");
    Some(Warning { code: "speed-not-exported", target: clip.label().to_owned(), detail })
}

/// Appends a warning, if there is one.
pub fn push_warning(list: &mut Vec<Warning>, warning: Option<Warning>)
    ensures
        views(final(list)@) == views(old(list)@) + as_list(warning_view(warning)),
{
    if let Some(w) = warning {
        proof {
            lemma_views_push(list@, w);
        }
        list.push(w);
    }
    assert(views(final(list)@) =~= views(old(list)@) + as_list(warning_view(warning)));
}

// ---------------------------------------------------------------------------
// URLs
// ---------------------------------------------------------------------------

/// The bytes a URL carries literally.
pub open spec fn is_plain(b: u8) -> bool {
    ||| 65 <= b <= 90
    ||| 97 <= b <= 122
    ||| 48 <= b <= 57
    ||| b == 45
    ||| b == 95
    ||| b == 46
    ||| b == 126
    ||| b == 47
}

/// Bytes as a URL writes them: everything that is not plain as `%XX`.
pub open spec fn percent_encoded(bytes: Seq<u8>) -> Seq<char>
    decreases bytes.len(),
{
    if bytes.len() == 0 {
        seq![]
    } else if is_plain(bytes.last()) {
        percent_encoded(bytes.drop_last()).push(bytes.last() as char)
    } else {
        percent_encoded(bytes.drop_last()) + (seq!['%'] + hex2_upper(bytes.last()))
    }
}

pub open spec fn url_of(path: Seq<char>) -> Seq<char> {
    "file://"@ + percent_encoded(vstd::utf8::encode_utf8(path))
}

/// A `file://` URL for an absolute path, percent-encoding what a URL may not carry.
pub fn file_url(path: &str) -> (r: String)
    ensures
        r@ == url_of(path@),
{
    let bytes = path.as_bytes_vec();
    let mut out = "file://".to_owned();
    let mut i: usize = 0;
    assert(bytes@.take(0) =~= seq![]);
    assert(out@ =~= "file://"@ + percent_encoded(bytes@.take(0)));
    while i < bytes.len()
        invariant
            i <= bytes@.len(),
            out@ == "file://"@ + percent_encoded(bytes@.take(i as int)),
        decreases bytes@.len() - i,
    {
        let b: u8 = bytes[i];
        proof {
            assert(bytes@.take(i + 1).drop_last() =~= bytes@.take(i as int));
        }
        if (65 <= b && b <= 90) || (97 <= b && b <= 122) || (48 <= b && b <= 57) || b == 45 || b == 95
            || b == 46 || b == 126 || b == 47 {
            push_char(&mut out, b as char);
        } else {
            push_char(&mut out, '%');
            push_hex2_upper(&mut out, b);
        }
        i = i + 1;
        assert(out@ =~= "file://"@ + percent_encoded(bytes@.take(i as int)));
    }
    assert(bytes@.take(i as int) =~= bytes@);
    out
}

} // verus!
