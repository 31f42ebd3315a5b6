//! What each format leaves behind, and what measurements are taken from.

use crate::decode::{chain_text, DecodeSpec};
use crate::encode::EncoderView;
use crate::lint_source::{available, place_of, Placement};
use crate::losses::{
    clip_losses, clips_losses, kept_by_edl, kept_by_fcpxml, kept_by_mlt, kept_by_otio, losses,
    markers_losses, track_losses, tracks_losses, Kept,
};
use crate::media_laws::passes;
use crate::number::{fixed_text, pow10, rounded_text};
use crate::project::{Clip, Project, Sequence, Source, Track, TrackKind};
use crate::rational::Rat;
use crate::text::{dec, hex2, or_text};
use crate::time::Fps;
use crate::time_laws::{is_nearest, law_rounding_to_even_gives_the_nearest};
use crate::timeline::{clip_asset, placing_warnings, WarningView};
use crate::title_laws::warns;
use vstd::prelude::*;

verus! {

// ---------------------------------------------------------------------------
// What is left behind
// ---------------------------------------------------------------------------

proof fn lemma_at(all: Seq<WarningView>, i: int)
    requires
        0 <= i < all.len(),
    ensures
        warns(all, all[i].code, all[i].target),
{
}

proof fn lemma_joined(a: Seq<WarningView>, b: Seq<WarningView>, code: Seq<char>, target: Seq<char>)
    requires
        warns(a, code, target) || warns(b, code, target),
    ensures
        warns(a + b, code, target),
{
    let all = a + b;
    if warns(a, code, target) {
        let i = choose|i: int|
            0 <= i < a.len() && (#[trigger] a[i]).code == code && a[i].target == target;
        assert(all[i] == a[i]);
    } else {
        let i = choose|i: int|
            0 <= i < b.len() && (#[trigger] b[i]).code == code && b[i].target == target;
        assert(all[a.len() + i] == b[i]);
    }
}

/// Whether a fade of a clip is told among what a format leaves behind of it.
pub open spec fn fade_told(clip: Clip, audio: bool, format: Seq<char>, kept: Kept) -> bool {
    warns(clip_losses(clip, audio, format, kept), "fade-not-exported"@, clip.spec_label())
}

pub open spec fn transition_told(clip: Clip, audio: bool, format: Seq<char>, kept: Kept) -> bool {
    warns(clip_losses(clip, audio, format, kept), "transition-not-exported"@, clip.spec_label())
}

proof fn lemma_clip(clip: Clip, audio: bool, format: Seq<char>, kept: Kept)
    ensures
        !kept.transitions && clip.transition() is Some ==> transition_told(
            clip,
            audio,
            format,
            kept,
        ),
        !kept.fades && (clip.fade_in.secs.num > 0 || clip.fade_out.secs.num > 0) ==> fade_told(
            clip,
            audio,
            format,
            kept,
        ),
{
    let all = clip_losses(clip, audio, format, kept);
    let t: int = if !kept.transitions && clip.transition() is Some {
        1
    } else {
        0
    };
    if t == 1 {
        lemma_at(all, 0);
    }
    if !kept.fades && (clip.fade_in.secs.num > 0 || clip.fade_out.secs.num > 0) {
        lemma_at(all, t);
    }
}

/// A fade, in or out, is told of every format that holds cuts alone; only an MLT document keeps it.
pub proof fn law_a_lost_fade_is_told(clip: Clip, audio: bool)
    requires
        clip.fade_in.secs.num > 0 || clip.fade_out.secs.num > 0,
    ensures
        fade_told(clip, audio, "FCPXML"@, kept_by_fcpxml()),
        fade_told(clip, audio, "OTIO"@, kept_by_otio()),
        forall|format: Seq<char>| #[trigger] fade_told(clip, audio, format, kept_by_edl()),
        kept_by_mlt(true).fades && kept_by_mlt(false).fades,
{
    lemma_clip(clip, audio, "FCPXML"@, kept_by_fcpxml());
    lemma_clip(clip, audio, "OTIO"@, kept_by_otio());
    assert forall|format: Seq<char>| #[trigger] fade_told(clip, audio, format, kept_by_edl()) by {
        lemma_clip(clip, audio, format, kept_by_edl());
    }
}

/// A transition is told of FCPXML and OTIO documents, which hold none.
pub proof fn law_a_lost_transition_is_told(clip: Clip, audio: bool)
    requires
        clip.transition() is Some,
    ensures
        transition_told(clip, audio, "FCPXML"@, kept_by_fcpxml()),
        transition_told(clip, audio, "OTIO"@, kept_by_otio()),
        kept_by_edl().transitions && kept_by_mlt(true).transitions && kept_by_mlt(
            false,
        ).transitions,
{
    lemma_clip(clip, audio, "FCPXML"@, kept_by_fcpxml());
    lemma_clip(clip, audio, "OTIO"@, kept_by_otio());
}

/// What each format holds beside cuts.
pub proof fn law_what_each_format_holds(kdenlive: bool)
    ensures
        ({
            let (m, f, o, e) = (
                kept_by_mlt(kdenlive),
                kept_by_fcpxml(),
                kept_by_otio(),
                kept_by_edl(),
            );
            &&& m.opacity && !f.opacity && !o.opacity && !e.opacity
            &&& m.sound_levels && !f.sound_levels && !o.sound_levels && !e.sound_levels
            &&& !m.picture_levels && !f.picture_levels && !o.picture_levels && !e.picture_levels
            &&& m.track_levels && !f.track_levels && !o.track_levels && !e.track_levels
            &&& m.states && !f.states && o.states && !e.states
            &&& m.colors && !f.colors && !o.colors && !e.colors
            &&& !f.captions && !o.captions && !e.captions
            &&& m.markers == kdenlive && !f.markers && o.markers && !e.markers
            &&& !m.notes && o.notes
            &&& !e.drawings
        }),
{
}

/// A clip of a format that keeps nothing of it is told for each thing that it has, and one that has
/// nothing is not.
pub proof fn law_each_thing_left_behind_is_told_once(clip: Clip, audio: bool, format: Seq<char>)
    ensures
        ({
            let kept = kept_by_fcpxml();
            clip_losses(clip, audio, format, kept).len() == (if clip.transition() is Some {
                1int
            } else {
                0
            }) + (if clip.fade_in.secs.num > 0 || clip.fade_out.secs.num > 0 {
                1int
            } else {
                0
            }) + (if clip.gain is Some || clip.pan is Some {
                1int
            } else {
                0
            }) + (if !audio && clip.opacity is Some {
                1int
            } else {
                0
            }) + (if !audio && clip.fit@ != "contain"@ {
                1int
            } else {
                0
            }) + (if clip.ducking is Some {
                1int
            } else {
                0
            }) + if !audio && clip.source is Color {
                1int
            } else {
                0
            }
        }),
{
}

/// What is left behind of a clip that is switched on is left behind of its sequence.
pub proof fn law_the_loss_of_a_clip_is_one_of_its_sequence(
    sequence: Sequence,
    format: Seq<char>,
    kept: Kept,
    t: int,
    c: int,
    code: Seq<char>,
    target: Seq<char>,
)
    requires
        0 <= t < sequence.tracks@.len(),
        sequence.tracks@[t].kind != TrackKind::Caption,
        0 <= c < sequence.tracks@[t].clips@.len(),
        sequence.tracks@[t].clips@[c].enabled,
        warns(
            clip_losses(
                sequence.tracks@[t].clips@[c],
                sequence.tracks@[t].kind == TrackKind::Audio,
                format,
                kept,
            ),
            code,
            target,
        ),
    ensures
        warns(losses(sequence, format, kept), code, target),
{
    let tracks = sequence.tracks@;
    let audio = tracks[t].kind == TrackKind::Audio;
    lemma_clips(tracks[t].clips@, audio, format, kept, c, code, target);
    let own = clips_losses(tracks[t].clips@, audio, format, kept);
    let all = track_losses(tracks[t], format, kept);
    let front = all.take(all.len() - own.len());
    assert(all =~= front + own);
    lemma_joined(front, own, code, target);
    lemma_tracks(tracks, format, kept, t, code, target);
    lemma_joined(
        tracks_losses(tracks, format, kept),
        markers_losses(sequence, format, kept),
        code,
        target,
    );
}

proof fn lemma_clips(
    clips: Seq<Clip>,
    audio: bool,
    format: Seq<char>,
    kept: Kept,
    c: int,
    code: Seq<char>,
    target: Seq<char>,
)
    requires
        0 <= c < clips.len(),
        clips[c].enabled,
        warns(clip_losses(clips[c], audio, format, kept), code, target),
    ensures
        warns(clips_losses(clips, audio, format, kept), code, target),
    decreases clips.len(),
{
    let rest = clips.drop_last();
    let before = clips_losses(rest, audio, format, kept);
    if c < rest.len() {
        assert(rest[c] == clips[c]);
        lemma_clips(rest, audio, format, kept, c, code, target);
    }
    if clips.last().enabled {
        lemma_joined(before, clip_losses(clips.last(), audio, format, kept), code, target);
    }
}

proof fn lemma_tracks(
    tracks: Seq<Track>,
    format: Seq<char>,
    kept: Kept,
    t: int,
    code: Seq<char>,
    target: Seq<char>,
)
    requires
        0 <= t < tracks.len(),
        warns(track_losses(tracks[t], format, kept), code, target),
    ensures
        warns(tracks_losses(tracks, format, kept), code, target),
    decreases tracks.len(),
{
    let rest = tracks.drop_last();
    if t < rest.len() {
        assert(rest[t] == tracks[t]);
        lemma_tracks(rest, format, kept, t, code, target);
    }
    lemma_joined(
        tracks_losses(rest, format, kept),
        track_losses(tracks.last(), format, kept),
        code,
        target,
    );
}

/// Placing a clip is told where it is less than a frame long, and where it is switched off.
pub proof fn law_a_widened_or_disabled_clip_is_told(clips: Seq<Clip>, clip: Clip, fps: Fps)
    ensures
        placing_warnings(Seq::<Clip>::empty(), fps).len() == 0,
        placing_warnings(clips.push(clip), fps).len() == placing_warnings(clips, fps).len() + (
        if clip.start.spec_plus(clip.duration).round_frame(fps) <= clip.start.round_frame(fps) {
            1int
        } else {
            0
        }) + if clip.enabled {
            0int
        } else {
            1
        },
{
    assert(clips.push(clip).drop_last() =~= clips);
}

// ---------------------------------------------------------------------------
// What is measured
// ---------------------------------------------------------------------------

/// A source that has a timeline lasts as long as its file, or as the sequence that it is; stills,
/// titles, colors and generators never end.
pub proof fn law_a_source_lasts_as_long_as_its_file(project: Project, source: Source)
    ensures
        source matches Source::Asset { asset } ==> (project.asset_at(asset@) >= 0 ==> available(
            project,
            source,
        ) == Some(project.assets@[project.asset_at(asset@)].probe.duration)),
        source matches Source::Sequence { sequence } ==> (project.sequence_at(sequence@) >= 0
            ==> available(project, source) == Some(
            crate::coverage::tracks_end(
                project.sequences@[project.sequence_at(sequence@)].tracks@,
            ),
        )),
        source is Image || source is Title || source is Color || source is Generator ==> available(
            project,
            source,
        ) is None,
{
}

/// The asset of a clip is the one with the id that its source names.
pub proof fn law_a_clip_has_the_asset_it_names(project: Project, clip: Clip)
    ensures
        clip_asset(project, clip) matches Some(asset) ==> clip.source.asset() == Some(asset.id@),
        clip_asset(project, clip) is None ==> (clip.source.asset() matches Some(id) ==> forall|
            a: int,
        |
            0 <= a < project.assets@.len() ==> (#[trigger] project.assets@[a]).id@ != id),
{
    if let Some(id) = clip.source.asset() {
        let ids = crate::project::asset_ids(project.assets@);
        crate::project::lemma_index_of(ids, id);
        let at = project.asset_at(id);
        if at >= 0 {
            assert(ids[at] == project.assets@[at].id@);
        } else {
            assert forall|a: int| 0 <= a < project.assets@.len() implies (
            #[trigger] project.assets@[a]).id@ != id by {
                assert(ids[a] == project.assets@[a].id@);
            }
        }
    }
}

/// The place of a clip is the first one that is said to be its.
pub proof fn law_a_clip_has_its_own_place(places: Seq<Placement>, clip: Seq<char>)
    ensures
        place_of(places, clip) matches Some(place) ==> place.clip@ == clip && places.contains(place),
        place_of(places, clip) is None <==> forall|i: int|
            0 <= i < places.len() ==> (#[trigger] places[i]).clip@ != clip,
    decreases places.len(),
{
    if places.len() > 0 {
        if places[0].clip@ == clip {
            assert(places.contains(places[0]));
        } else {
            let rest = places.skip(1);
            law_a_clip_has_its_own_place(rest, clip);
            if let Some(place) = place_of(rest, clip) {
                let i = choose|i: int| 0 <= i < rest.len() && rest[i] == place;
                assert(places[i + 1] == place);
            } else {
                assert forall|i: int| 0 <= i < places.len() implies (#[trigger] places[i]).clip@
                    != clip by {
                    if i > 0 {
                        assert(rest[i - 1] == places[i]);
                    }
                }
            }
        }
    }
}

// ---------------------------------------------------------------------------
// What is written
// ---------------------------------------------------------------------------

/// A number is written to the nearest of its decimals.
pub proof fn law_a_number_is_written_to_the_nearest(value: Rat, places: nat)
    requires
        value.den > 0,
    ensures
        exists|n: int|
            rounded_text(value, places) == #[trigger] fixed_text(n, places) && is_nearest(
                value.num * pow10(places),
                value.den as int,
                n,
            ),
{
    law_rounding_to_even_gives_the_nearest(value.num * pow10(places), value.den as int);
    let n = crate::rational::round_half_even(value.num * pow10(places), value.den as int);
    assert(rounded_text(value, places) == fixed_text(n, places));
}

/// Pictures are decoded at the rate and the size that are asked for, width first.
pub proof fn law_pictures_are_decoded_at_their_size(spec_: DecodeSpec)
    ensures
        ({
            let head = "fps="@ + spec_.fps.text() + ",scale="@ + dec(spec_.size@[0] as nat) + ":"@
                + dec(spec_.size@[1] as nat) + ":flags="@;
            &&& chain_text(spec_).len() >= head.len()
            &&& chain_text(spec_).take(head.len() as int) == head
        }),
{
    let head = "fps="@ + spec_.fps.text() + ",scale="@ + dec(spec_.size@[0] as nat) + ":"@ + dec(
        spec_.size@[1] as nat,
    ) + ":flags="@;
    assert(chain_text(spec_).take(head.len() as int) =~= head);
}

/// A preset that is given reaches every encoder that has one; each has its own where none is.
pub proof fn law_a_preset_reaches_the_encoder(encoder: EncoderView, preset: String)
    ensures
        encoder is Auto || encoder is X264 || encoder is X265 || encoder is Svtav1
            || encoder is Nvenc ==> passes(encoder.preset(Some(preset)), "-preset"@, preset@),
        encoder is Auto || encoder is X264 || encoder is X265 ==> passes(
            encoder.preset(None),
            "-preset"@,
            "medium"@,
        ),
        encoder is Svtav1 ==> passes(encoder.preset(None), "-preset"@, "8"@),
        encoder is Nvenc ==> passes(encoder.preset(None), "-preset"@, "p5"@),
{
    if encoder is Auto || encoder is X264 || encoder is X265 || encoder is Svtav1
        || encoder is Nvenc {
        let (a, b) = (encoder.preset(Some(preset)), encoder.preset(None));
        assert(a[0] == "-preset"@ && a[1] == preset@);
        assert(b[0] == "-preset"@);
        assert(b[1] == or_text(None, b[1]));
    }
}

/// What a hexadecimal digit is worth.
pub open spec fn digit_worth(c: char) -> int {
    if '0' <= c <= '9' {
        c as int - '0' as int
    } else {
        c as int - 'a' as int + 10
    }
}

/// A byte is read back from its two hexadecimal digits.
pub proof fn law_a_byte_is_two_digits(b: u8)
    ensures
        hex2(b).len() == 2,
        digit_worth(hex2(b)[0]) * 16 + digit_worth(hex2(b)[1]) == b,
{
}

} // verus!
