//! What an interchange format leaves behind: no writer drops anything in silence.

use crate::project::{Clip, Marker, Sequence, Source, Track, TrackKind};
use crate::text::{dec, decimal, same};
use crate::timeline::{Warning, WarningView};
use crate::views::{push_view, views};
use vstd::prelude::*;

verus! {

/// What a format can hold.
#[derive(Clone, Copy, Debug, PartialEq, Eq, Structural)]
pub struct Kept {
    pub transitions: bool,
    pub fades: bool,
    pub opacity: bool,
    /// Gain and pan of the clips of audio tracks.
    pub sound_levels: bool,
    /// Gain and pan of clips with picture.
    pub picture_levels: bool,
    /// Gain and pan of tracks.
    pub track_levels: bool,
    /// Whether a track is muted or hidden.
    pub states: bool,
    /// Clips of one color.
    pub colors: bool,
    /// What is drawn: titles, generators and nested sequences. A format that puts a placeholder
    /// there says so itself.
    pub drawings: bool,
    /// Captions, or a word of their own about them.
    pub captions: bool,
    pub markers: bool,
    pub notes: bool,
}

/// What an MLT document holds. Only Kdenlive's has guides.
pub open spec fn kept_by_mlt(kdenlive: bool) -> Kept {
    Kept {
        transitions: true,
        fades: true,
        opacity: true,
        sound_levels: true,
        picture_levels: false,
        track_levels: true,
        states: true,
        colors: true,
        drawings: true,
        captions: true,
        markers: kdenlive,
        notes: false,
    }
}

pub fn mlt_kept(kdenlive: bool) -> (r: Kept)
    ensures
        r == kept_by_mlt(kdenlive),
{
    Kept {
        transitions: true,
        fades: true,
        opacity: true,
        sound_levels: true,
        picture_levels: false,
        track_levels: true,
        states: true,
        colors: true,
        drawings: true,
        captions: true,
        markers: kdenlive,
        notes: false,
    }
}

/// What an FCPXML document holds: cuts.
pub open spec fn kept_by_fcpxml() -> Kept {
    Kept {
        transitions: false,
        fades: false,
        opacity: false,
        sound_levels: false,
        picture_levels: false,
        track_levels: false,
        states: false,
        colors: false,
        drawings: true,
        captions: false,
        markers: false,
        notes: false,
    }
}

pub fn fcpxml_kept() -> (r: Kept)
    ensures
        r == kept_by_fcpxml(),
{
    Kept {
        transitions: false,
        fades: false,
        opacity: false,
        sound_levels: false,
        picture_levels: false,
        track_levels: false,
        states: false,
        colors: false,
        drawings: true,
        captions: false,
        markers: false,
        notes: false,
    }
}

/// What an OTIO document holds: cuts, markers, and whether a track is on.
pub open spec fn kept_by_otio() -> Kept {
    Kept { states: true, markers: true, notes: true, ..kept_by_fcpxml() }
}

pub fn otio_kept() -> (r: Kept)
    ensures
        r == kept_by_otio(),
{
    let mut kept = fcpxml_kept();
    kept.states = true;
    kept.markers = true;
    kept.notes = true;
    kept
}

/// What a CMX3600 list holds: cuts and transitions.
pub open spec fn kept_by_edl() -> Kept {
    Kept { transitions: true, drawings: false, ..kept_by_fcpxml() }
}

pub fn edl_kept() -> (r: Kept)
    ensures
        r == kept_by_edl(),
{
    let mut kept = fcpxml_kept();
    kept.transitions = true;
    kept.drawings = false;
    kept
}

// ---------------------------------------------------------------------------
// Warnings
// ---------------------------------------------------------------------------

pub open spec fn told(condition: bool, warning: WarningView) -> Seq<WarningView> {
    if condition {
        seq![warning]
    } else {
        seq![]
    }
}

/// That something of a clip or a track does not arrive, and what does.
pub open spec fn not_exported(
    code: Seq<char>,
    target: Seq<char>,
    what: Seq<char>,
    format: Seq<char>,
    instead: Seq<char>,
) -> WarningView {
    WarningView {
        code,
        target,
        detail: what + " of '"@ + target + "' is not part of this "@ + format + " export; "@
            + instead,
    }
}

fn loss(code: &'static str, target: &str, what: &str, format: &str, instead: &str) -> (r: Warning)
    ensures
        r@ == not_exported(code@, target@, what@, format@, instead@),
{
    let mut detail = what.to_owned();
    detail.append(" of '");
    detail.append(target);
    detail.append("' is not part of this ");
    detail.append(format);
    detail.append(" export; ");
    detail.append(instead);
    Warning { code, target: target.to_owned(), detail }
}

pub open spec fn transition_loss(clip: Clip, format: Seq<char>) -> WarningView {
    not_exported(
        "transition-not-exported"@,
        clip.spec_label(),
        "the transition at the start"@,
        format,
        "there is a cut"@,
    )
}

pub open spec fn fade_loss(clip: Clip, format: Seq<char>) -> WarningView {
    not_exported(
        "fade-not-exported"@,
        clip.spec_label(),
        "the fade"@,
        format,
        "the clip starts and ends at once"@,
    )
}

pub open spec fn level_loss(clip: Clip, format: Seq<char>) -> WarningView {
    not_exported(
        "level-not-exported"@,
        clip.spec_label(),
        "the gain or pan"@,
        format,
        "the clip arrives as loud as its source"@,
    )
}

pub open spec fn opacity_loss(clip: Clip, format: Seq<char>) -> WarningView {
    not_exported(
        "opacity-not-exported"@,
        clip.spec_label(),
        "the opacity"@,
        format,
        "the clip arrives opaque"@,
    )
}

pub open spec fn fit_loss(clip: Clip, format: Seq<char>) -> WarningView {
    not_exported(
        "fit-not-exported"@,
        clip.spec_label(),
        "the fit"@,
        format,
        "the clip arrives whole, inside the frame"@,
    )
}

pub open spec fn ducking_loss(clip: Clip, format: Seq<char>) -> WarningView {
    not_exported(
        "ducking-not-exported"@,
        clip.spec_label(),
        "the ducking"@,
        format,
        "the clip keeps its level"@,
    )
}

pub open spec fn color_loss(clip: Clip, format: Seq<char>) -> WarningView {
    not_exported(
        "color-not-exported"@,
        clip.spec_label(),
        "the color"@,
        format,
        "a gap of the same length stands there"@,
    )
}

pub open spec fn drawing_loss(clip: Clip, format: Seq<char>) -> WarningView {
    not_exported(
        "drawing-not-exported"@,
        clip.spec_label(),
        "the picture"@,
        format,
        "only its name and its place are"@,
    )
}

pub open spec fn track_level_loss(track: Track, format: Seq<char>) -> WarningView {
    not_exported(
        "track-level-not-exported"@,
        track.name@,
        "the gain or pan"@,
        format,
        "its clips arrive at their own level"@,
    )
}

pub open spec fn state_loss(track: Track, format: Seq<char>) -> WarningView {
    not_exported(
        "track-state-not-exported"@,
        track.name@,
        "that it is muted or hidden"@,
        format,
        "the track arrives switched on"@,
    )
}

pub open spec fn caption_loss(track: Track, format: Seq<char>) -> WarningView {
    WarningView {
        code: "captions-not-exported"@,
        target: track.name@,
        detail: dec(track.cues@.len()) + " caption cue(s) on '"@ + track.name@
            + "' are not part of this "@ + format
            + " export; export them with export.srt and attach the file in the editor"@,
    }
}

pub open spec fn marker_loss(sequence: Sequence, format: Seq<char>) -> WarningView {
    WarningView {
        code: "markers-not-exported"@,
        target: sequence.name@,
        detail: dec(sequence.markers@.len()) + " marker(s) are not part of this "@ + format
            + " export"@,
    }
}

pub open spec fn note_loss(marker: Marker, format: Seq<char>) -> WarningView {
    not_exported(
        "marker-note-not-exported"@,
        marker.name@,
        "the note"@,
        format,
        "the marker keeps its name"@,
    )
}

// ---------------------------------------------------------------------------
// Clips
// ---------------------------------------------------------------------------

pub open spec fn fades(clip: Clip) -> bool {
    clip.fade_in.secs.num > 0 || clip.fade_out.secs.num > 0
}

pub open spec fn is_drawn(source: Source) -> bool {
    source is Title || source is Sequence || source is Generator
}

/// What a format leaves behind of a clip, beside its effects and its speed.
pub open spec fn clip_losses(clip: Clip, audio: bool, format: Seq<char>, kept: Kept) -> Seq<
    WarningView,
> {
    told(!kept.transitions && clip.transition() is Some, transition_loss(clip, format)) + told(
        !kept.fades && fades(clip),
        fade_loss(clip, format),
    ) + told(
        !(if audio {
            kept.sound_levels
        } else {
            kept.picture_levels
        }) && (clip.gain is Some || clip.pan is Some),
        level_loss(clip, format),
    ) + told(!kept.opacity && !audio && clip.opacity is Some, opacity_loss(clip, format)) + told(
        !audio && clip.fit@ != "contain"@,
        fit_loss(clip, format),
    ) + told(clip.ducking is Some, ducking_loss(clip, format)) + told(
        !kept.colors && !audio && clip.source is Color,
        color_loss(clip, format),
    ) + told(!kept.drawings && is_drawn(clip.source), drawing_loss(clip, format))
}

/// Adds a warning, where there is something to warn of.
fn tell(
    out: &mut Vec<Warning>,
    condition: bool,
    code: &'static str,
    target: &str,
    what: &str,
    format: &str,
    instead: &str,
)
    ensures
        views(final(out)@) == views(old(out)@) + told(
            condition,
            not_exported(code@, target@, what@, format@, instead@),
        ),
{
    let ghost before = views(out@);
    if condition {
        push_view(out, loss(code, target, what, format, instead));
    }
    assert(views(out@) =~= before + told(
        condition,
        not_exported(code@, target@, what@, format@, instead@),
    ));
}

proof fn lemma_joined(
    all: Seq<WarningView>,
    a: Seq<WarningView>,
    b: Seq<WarningView>,
    c: Seq<WarningView>,
    d: Seq<WarningView>,
)
    ensures
        all + a + b + c + d == all + (a + b + c + d),
{
    assert(all + a + b + c + d =~= all + (a + b + c + d));
}

fn push_clip_losses(out: &mut Vec<Warning>, clip: &Clip, audio: bool, format: &str, kept: Kept)
    ensures
        views(final(out)@) == views(old(out)@) + clip_losses(*clip, audio, format@, kept),
{
    let ghost before = views(out@);
    let label = clip.label();
    tell(
        out,
        !kept.transitions && clip.shown_transition().is_some(),
        "transition-not-exported",
        label,
        "the transition at the start",
        format,
        "there is a cut",
    );
    tell(
        out,
        !kept.fades && (clip.fade_in.secs.num > 0 || clip.fade_out.secs.num > 0),
        "fade-not-exported",
        label,
        "the fade",
        format,
        "the clip starts and ends at once",
    );
    let levels = if audio {
        kept.sound_levels
    } else {
        kept.picture_levels
    };
    tell(
        out,
        !levels && (clip.gain.is_some() || clip.pan.is_some()),
        "level-not-exported",
        label,
        "the gain or pan",
        format,
        "the clip arrives as loud as its source",
    );
    tell(
        out,
        !kept.opacity && !audio && clip.opacity.is_some(),
        "opacity-not-exported",
        label,
        "the opacity",
        format,
        "the clip arrives opaque",
    );
    let ghost first = told(
        !kept.transitions && clip.transition() is Some,
        transition_loss(*clip, format@),
    ) + told(!kept.fades && fades(*clip), fade_loss(*clip, format@)) + told(
        !levels && (clip.gain is Some || clip.pan is Some),
        level_loss(*clip, format@),
    ) + told(!kept.opacity && !audio && clip.opacity is Some, opacity_loss(*clip, format@));
    proof {
        lemma_joined(
            before,
            told(
                !kept.transitions && clip.transition() is Some,
                transition_loss(*clip, format@),
            ),
            told(!kept.fades && fades(*clip), fade_loss(*clip, format@)),
            told(
                !levels && (clip.gain is Some || clip.pan is Some),
                level_loss(*clip, format@),
            ),
            told(
                !kept.opacity && !audio && clip.opacity is Some,
                opacity_loss(*clip, format@),
            ),
        );
    }
    assert(views(out@) == before + first);
    push_rest(out, clip, label, audio, format, kept);
    proof {
        let fit = told(!audio && clip.fit@ != "contain"@, fit_loss(*clip, format@));
        let ducking = told(clip.ducking is Some, ducking_loss(*clip, format@));
        let color = told(
            !kept.colors && !audio && clip.source is Color,
            color_loss(*clip, format@),
        );
        let drawing = told(
            !kept.drawings && is_drawn(clip.source),
            drawing_loss(*clip, format@),
        );
        lemma_joined(before + first, fit, ducking, color, drawing);
        lemma_joined(first, fit, ducking, color, drawing);
        lemma_apart(before, first, fit + ducking + color + drawing);
    }
}

proof fn lemma_apart(a: Seq<WarningView>, b: Seq<WarningView>, c: Seq<WarningView>)
    ensures
        a + b + c == a + (b + c),
{
    assert(a + b + c =~= a + (b + c));
}

fn push_rest(
    out: &mut Vec<Warning>,
    clip: &Clip,
    label: &str,
    audio: bool,
    format: &str,
    kept: Kept,
)
    requires
        label@ == clip.spec_label(),
    ensures
        views(final(out)@) == views(old(out)@) + told(
            !audio && clip.fit@ != "contain"@,
            fit_loss(*clip, format@),
        ) + told(clip.ducking is Some, ducking_loss(*clip, format@)) + told(
            !kept.colors && !audio && clip.source is Color,
            color_loss(*clip, format@),
        ) + told(!kept.drawings && is_drawn(clip.source), drawing_loss(*clip, format@)),
{
    tell(
        out,
        !audio && !same(clip.fit.as_str(), "contain"),
        "fit-not-exported",
        label,
        "the fit",
        format,
        "the clip arrives whole, inside the frame",
    );
    tell(
        out,
        clip.ducking.is_some(),
        "ducking-not-exported",
        label,
        "the ducking",
        format,
        "the clip keeps its level",
    );
    let (color, drawn) = match &clip.source {
        Source::Color { color: _ } => (true, false),
        Source::Title { title: _ } => (false, true),
        Source::Sequence { sequence: _ } => (false, true),
        Source::Generator { generator: _ } => (false, true),
        _ => (false, false),
    };
    tell(
        out,
        !kept.colors && !audio && color,
        "color-not-exported",
        label,
        "the color",
        format,
        "a gap of the same length stands there",
    );
    tell(
        out,
        !kept.drawings && drawn,
        "drawing-not-exported",
        label,
        "the picture",
        format,
        "only its name and its place are",
    );
}

/// What a format leaves behind of some clips. One that is switched off is not exported at all.
pub open spec fn clips_losses(clips: Seq<Clip>, audio: bool, format: Seq<char>, kept: Kept) -> Seq<
    WarningView,
>
    decreases clips.len(),
{
    if clips.len() == 0 {
        seq![]
    } else {
        let before = clips_losses(clips.drop_last(), audio, format, kept);
        if clips.last().enabled {
            before + clip_losses(clips.last(), audio, format, kept)
        } else {
            before
        }
    }
}

// ---------------------------------------------------------------------------
// Tracks
// ---------------------------------------------------------------------------

/// What a format leaves behind of a track and of what is on it.
pub open spec fn track_losses(track: Track, format: Seq<char>, kept: Kept) -> Seq<WarningView> {
    if track.kind == TrackKind::Caption {
        told(!kept.captions && track.cues@.len() > 0, caption_loss(track, format))
    } else {
        told(
            !kept.track_levels && (track.gain is Some || track.pan is Some),
            track_level_loss(track, format),
        ) + told(!kept.states && (track.muted || track.hidden), state_loss(track, format))
            + clips_losses(track.clips@, track.kind == TrackKind::Audio, format, kept)
    }
}

fn push_clips_losses(out: &mut Vec<Warning>, clips: &Vec<Clip>, audio: bool, format: &str, kept: Kept)
    ensures
        views(final(out)@) == views(old(out)@) + clips_losses(clips@, audio, format@, kept),
{
    let ghost before = views(out@);
    let mut k: usize = 0;
    assert(clips@.take(0) =~= seq![]);
    assert(before + Seq::<WarningView>::empty() =~= before);
    while k < clips.len()
        invariant
            k <= clips@.len(),
            views(out@) == before + clips_losses(clips@.take(k as int), audio, format@, kept),
        decreases clips@.len() - k,
    {
        let ghost so_far = clips_losses(clips@.take(k as int), audio, format@, kept);
        assert(clips@.take(k + 1).drop_last() =~= clips@.take(k as int));
        if clips[k].enabled {
            push_clip_losses(out, &clips[k], audio, format, kept);
            assert(views(out@) =~= before + (so_far + clip_losses(
                clips@[k as int],
                audio,
                format@,
                kept,
            )));
        }
        k = k + 1;
    }
    assert(clips@.take(k as int) =~= clips@);
}

fn push_track_losses(out: &mut Vec<Warning>, track: &Track, format: &str, kept: Kept)
    ensures
        views(final(out)@) == views(old(out)@) + track_losses(*track, format@, kept),
{
    let ghost before = views(out@);
    if track.kind == TrackKind::Caption {
        if !kept.captions && track.cues.len() > 0 {
            let mut detail = decimal(track.cues.len() as u128);
            detail.append(" caption cue(s) on '");
            detail.append(track.name.as_str());
            detail.append("' are not part of this ");
            detail.append(format);
            detail.append(
                " export; export them with export.srt and attach the file in the editor",
            );
            push_view(
                out,
                Warning { code: "captions-not-exported", target: track.name.clone(), detail },
            );
        }
        assert(views(out@) =~= before + track_losses(*track, format@, kept));
        return ;
    }
    let name = track.name.as_str();
    if !kept.track_levels && (track.gain.is_some() || track.pan.is_some()) {
        push_view(
            out,
            loss(
                "track-level-not-exported",
                name,
                "the gain or pan",
                format,
                "its clips arrive at their own level",
            ),
        );
    }
    if !kept.states && (track.muted || track.hidden) {
        push_view(
            out,
            loss(
                "track-state-not-exported",
                name,
                "that it is muted or hidden",
                format,
                "the track arrives switched on",
            ),
        );
    }
    push_clips_losses(out, &track.clips, track.kind == TrackKind::Audio, format, kept);
    assert(views(out@) =~= before + track_losses(*track, format@, kept));
}

pub open spec fn tracks_losses(tracks: Seq<Track>, format: Seq<char>, kept: Kept) -> Seq<WarningView>
    decreases tracks.len(),
{
    if tracks.len() == 0 {
        seq![]
    } else {
        tracks_losses(tracks.drop_last(), format, kept) + track_losses(tracks.last(), format, kept)
    }
}

pub open spec fn notes_losses(markers: Seq<Marker>, format: Seq<char>) -> Seq<WarningView>
    decreases markers.len(),
{
    if markers.len() == 0 {
        seq![]
    } else {
        notes_losses(markers.drop_last(), format) + told(
            markers.last().note is Some,
            note_loss(markers.last(), format),
        )
    }
}

/// What a format leaves behind of the markers of a sequence.
pub open spec fn markers_losses(sequence: Sequence, format: Seq<char>, kept: Kept) -> Seq<
    WarningView,
> {
    if !kept.markers {
        told(sequence.markers@.len() > 0, marker_loss(sequence, format))
    } else if !kept.notes {
        notes_losses(sequence.markers@, format)
    } else {
        seq![]
    }
}

/// Everything that a format leaves behind of a sequence, beside the effects and the speed of its
/// clips.
pub open spec fn losses(sequence: Sequence, format: Seq<char>, kept: Kept) -> Seq<WarningView> {
    tracks_losses(sequence.tracks@, format, kept) + markers_losses(sequence, format, kept)
}

fn push_notes_losses(out: &mut Vec<Warning>, markers: &Vec<Marker>, format: &str)
    ensures
        views(final(out)@) == views(old(out)@) + notes_losses(markers@, format@),
{
    let ghost before = views(out@);
    let mut m: usize = 0;
    assert(markers@.take(0) =~= seq![]);
    assert(before + Seq::<WarningView>::empty() =~= before);
    while m < markers.len()
        invariant
            m <= markers@.len(),
            views(out@) == before + notes_losses(markers@.take(m as int), format@),
        decreases markers@.len() - m,
    {
        assert(markers@.take(m + 1).drop_last() =~= markers@.take(m as int));
        if markers[m].note.is_some() {
            push_view(
                out,
                loss(
                    "marker-note-not-exported",
                    markers[m].name.as_str(),
                    "the note",
                    format,
                    "the marker keeps its name",
                ),
            );
        }
        m = m + 1;
        assert(views(out@) =~= before + notes_losses(markers@.take(m as int), format@));
    }
    assert(markers@.take(m as int) =~= markers@);
}

/// Warns of everything that a format leaves behind.
pub fn loss_warnings(sequence: &Sequence, format: &str, kept: Kept) -> (r: Vec<Warning>)
    ensures
        views(r@) == losses(*sequence, format@, kept),
{
    let mut out: Vec<Warning> = Vec::new();
    let mut t: usize = 0;
    let tracks = &sequence.tracks;
    assert(tracks@.take(0) =~= seq![]);
    assert(views(out@) =~= seq![]);
    while t < tracks.len()
        invariant
            t <= tracks@.len(),
            views(out@) == tracks_losses(tracks@.take(t as int), format@, kept),
        decreases tracks@.len() - t,
    {
        assert(tracks@.take(t + 1).drop_last() =~= tracks@.take(t as int));
        push_track_losses(&mut out, &tracks[t], format, kept);
        t = t + 1;
    }
    assert(tracks@.take(t as int) =~= tracks@);
    let ghost before = views(out@);
    if !kept.markers {
        if sequence.markers.len() > 0 {
            let mut detail = decimal(sequence.markers.len() as u128);
            detail.append(" marker(s) are not part of this ");
            detail.append(format);
            detail.append(" export");
            push_view(
                &mut out,
                Warning { code: "markers-not-exported", target: sequence.name.clone(), detail },
            );
        }
    } else if !kept.notes {
        push_notes_losses(&mut out, &sequence.markers, format);
    }
    assert(views(out@) =~= before + markers_losses(*sequence, format@, kept));
    out
}

// ---------------------------------------------------------------------------
// Nothing is dropped in silence
// ---------------------------------------------------------------------------

/// Whether one list of warnings has all of another, in order, somewhere in it.
pub open spec fn has_all(all: Seq<WarningView>, part: Seq<WarningView>) -> bool {
    exists|from: int|
        0 <= from && from + part.len() <= all.len() && #[trigger] all.subrange(
            from,
            from + part.len(),
        ) == part
}

/// A list has what one of two lists has that make it up.
pub proof fn lemma_has(before: Seq<WarningView>, part: Seq<WarningView>, after: Seq<WarningView>)
    ensures
        has_all(before + part + after, part),
{
    let all = before + part + after;
    let from = before.len() as int;
    assert(all.subrange(from, from + part.len()) =~= part);
}

pub proof fn lemma_has_part(
    all: Seq<WarningView>,
    part: Seq<WarningView>,
    inner: Seq<WarningView>,
)
    requires
        has_all(all, part),
        has_all(part, inner),
    ensures
        has_all(all, inner),
{
    let a = choose|from: int|
        0 <= from && from + part.len() <= all.len() && #[trigger] all.subrange(
            from,
            from + part.len(),
        ) == part;
    let b = choose|from: int|
        0 <= from && from + inner.len() <= part.len() && #[trigger] part.subrange(
            from,
            from + inner.len(),
        ) == inner;
    assert(all.subrange(a + b, a + b + inner.len()) =~= inner) by {
        assert forall|i: int| 0 <= i < inner.len() implies all.subrange(
            a + b,
            a + b + inner.len(),
        )[i] == inner[i] by {
            assert(part.subrange(b, b + inner.len())[i] == part[b + i]);
            assert(all.subrange(a, a + part.len())[b + i] == all[a + b + i]);
        }
    }
}

proof fn lemma_clips(clips: Seq<Clip>, audio: bool, format: Seq<char>, kept: Kept, k: int)
    requires
        0 <= k < clips.len(),
        clips[k].enabled,
    ensures
        has_all(
            clips_losses(clips, audio, format, kept),
            clip_losses(clips[k], audio, format, kept),
        ),
    decreases clips.len(),
{
    let rest = clips.drop_last();
    let before = clips_losses(rest, audio, format, kept);
    let part = clip_losses(clips[k], audio, format, kept);
    let all = clips_losses(clips, audio, format, kept);
    if k == clips.len() - 1 {
        lemma_has(before, part, seq![]);
        assert(before + part + seq![] =~= all);
    } else {
        lemma_clips(rest, audio, format, kept, k);
        let last = if clips.last().enabled {
            clip_losses(clips.last(), audio, format, kept)
        } else {
            seq![]
        };
        lemma_has(seq![], before, last);
        assert(Seq::<WarningView>::empty() + before + last =~= all);
        lemma_has_part(all, before, part);
    }
}

proof fn lemma_tracks(tracks: Seq<Track>, format: Seq<char>, kept: Kept, t: int)
    requires
        0 <= t < tracks.len(),
    ensures
        has_all(tracks_losses(tracks, format, kept), track_losses(tracks[t], format, kept)),
    decreases tracks.len(),
{
    let rest = tracks.drop_last();
    let before = tracks_losses(rest, format, kept);
    let all = tracks_losses(tracks, format, kept);
    let part = track_losses(tracks[t], format, kept);
    if t == tracks.len() - 1 {
        lemma_has(before, part, seq![]);
        assert(before + part + seq![] =~= all);
    } else {
        lemma_tracks(rest, format, kept, t);
        let last = track_losses(tracks.last(), format, kept);
        lemma_has(seq![], before, last);
        assert(Seq::<WarningView>::empty() + before + last =~= all);
        lemma_has_part(all, before, part);
    }
}

/// Everything that a format leaves behind of a track, and of a clip that is switched on, is told.
pub proof fn law_every_loss_is_told(
    sequence: Sequence,
    format: Seq<char>,
    kept: Kept,
    t: int,
    k: int,
)
    requires
        0 <= t < sequence.tracks@.len(),
    ensures
        has_all(
            losses(sequence, format, kept),
            track_losses(sequence.tracks@[t], format, kept),
        ),
        sequence.tracks@[t].kind != TrackKind::Caption && 0 <= k < sequence.tracks@[t].clips@.len()
            && sequence.tracks@[t].clips@[k].enabled ==> has_all(
            losses(sequence, format, kept),
            clip_losses(
                sequence.tracks@[t].clips@[k],
                sequence.tracks@[t].kind == TrackKind::Audio,
                format,
                kept,
            ),
        ),
{
    let track = sequence.tracks@[t];
    let audio = track.kind == TrackKind::Audio;
    let all = losses(sequence, format, kept);
    let tracks = tracks_losses(sequence.tracks@, format, kept);
    let own = track_losses(track, format, kept);
    lemma_has(seq![], tracks, markers_losses(sequence, format, kept));
    assert(Seq::<WarningView>::empty() + tracks + markers_losses(sequence, format, kept) =~= all);
    lemma_tracks(sequence.tracks@, format, kept, t);
    lemma_has_part(all, tracks, own);
    if track.kind != TrackKind::Caption && 0 <= k < track.clips@.len()
        && track.clips@[k].enabled {
        let clips = clips_losses(track.clips@, audio, format, kept);
        let head = told(
            !kept.track_levels && (track.gain is Some || track.pan is Some),
            track_level_loss(track, format),
        ) + told(!kept.states && (track.muted || track.hidden), state_loss(track, format));
        lemma_has(head, clips, seq![]);
        assert(head + clips + seq![] =~= own);
        lemma_clips(track.clips@, audio, format, kept, k);
        lemma_has_part(own, clips, clip_losses(track.clips@[k], audio, format, kept));
        lemma_has_part(all, own, clip_losses(track.clips@[k], audio, format, kept));
    }
}

} // verus!
