//! CMX3600 edit decision lists: for each event which reel, which source timecode, and where
//! it lands on the record timeline. Record out-points are exclusive, so that one event's
//! record out is the next one's record in.

use crate::error::Error;
use crate::losses::{edl_kept, kept_by_edl, loss_warnings, losses};
use crate::mlt_write::Export;
use crate::name_laws::{law_a_reel_is_capitals_and_digits, law_a_reel_name_stays};
use crate::number::fixed_text;
use crate::project::{Clip, Project, Source, Sequence, Track, TrackKind, TransitionKind};
use crate::rational::{lemma_product_positive, lemma_wide, round_half_even};
use crate::text::{
    alphanumeric, chars_of, dec, dec_wide, decimal, graphic, is_alphanumeric, is_digit, is_graphic,
    is_upper, pad_left, pad_right, push_char, push_dec, push_dec_wide, push_padded_left,
    push_padded_right, raise, raise_char,
};
use crate::time::{timecode_text, Fps, Time};
use crate::timeline::{
    clip_tracks, entries_of, feature_warnings, flatten, flattens, is_flat, larger, lost_features,
    sequence_fits, Entry, FlatTrack, Placed, Warning, WarningView, FRAME_LIMIT,
};
use crate::views::{extend, push_view, views};
use vstd::arithmetic::div_mod::lemma_fundamental_div_mod;
use vstd::prelude::*;

verus! {

// ---------------------------------------------------------------------------
// Names
// ---------------------------------------------------------------------------

/// What `str::to_uppercase` makes of a text.
pub uninterp spec fn upper_text(text: Seq<char>) -> Seq<char>;

pub open spec fn is_ascii_text(text: Seq<char>) -> bool {
    forall|i: int| 0 <= i < text.len() ==> (#[trigger] text[i]) as u32 <= 127
}

/// `str::to_uppercase`: the upper-case form by Unicode's rules. Of ASCII text, that is the
/// same text with the letters from `a` to `z` raised.
#[verifier::external_body]
fn upper(text: &str) -> (r: String)
    ensures
        r@ == upper_text(text@),
        is_ascii_text(text@) ==> r@ == text@.map_values(|c: char| raise(c)),
{
    text.to_uppercase()
}

/// A title in printable ASCII, which is all that some readers take.
pub open spec fn title_chars(upper: Seq<char>) -> Seq<char> {
    upper.map_values(
        |c: char|
            if is_graphic(c) || c == ' ' {
                c
            } else {
                '_'
            },
    )
}

/// The first `most` letters and digits of a text, in capitals.
pub open spec fn alphanumerics(s: Seq<char>, most: nat) -> Seq<char>
    decreases s.len(),
{
    if s.len() == 0 || most == 0 {
        seq![]
    } else if is_alphanumeric(s[0]) {
        seq![raise(s[0])] + alphanumerics(s.skip(1), (most - 1) as nat)
    } else {
        alphanumerics(s.skip(1), most)
    }
}

/// A reel name: eight characters, or the placeholder for a source that has no reel.
pub open spec fn reel_chars(upper: Seq<char>) -> Seq<char> {
    if alphanumerics(upper, 8).len() == 0 {
        "AX"@
    } else {
        alphanumerics(upper, 8)
    }
}

/// The title made of a name in upper case.
pub fn title_from(upper: &str) -> (r: String)
    ensures
        r@ == title_chars(upper@),
{
    let chars = chars_of(upper);
    let mut out = String::new();
    let mut i: usize = 0;
    assert(out@ =~= title_chars(chars@).take(0));
    while i < chars.len()
        invariant
            i <= chars@.len(),
            out@ == title_chars(chars@).take(i as int),
        decreases chars@.len() - i,
    {
        if graphic(chars[i]) || chars[i] == ' ' {
            push_char(&mut out, chars[i]);
        } else {
            push_char(&mut out, '_');
        }
        i = i + 1;
        assert(out@ =~= title_chars(chars@).take(i as int));
    }
    assert(out@ =~= title_chars(chars@));
    out
}

/// The reel made of a name in upper case.
pub fn reel_from(upper: &str) -> (r: String)
    ensures
        r@ == reel_chars(upper@),
{
    let chars = chars_of(upper);
    let n: usize = chars.len();
    let mut out = String::new();
    let mut kept: usize = 0;
    let mut i: usize = 0;
    assert(chars@.skip(0) =~= chars@);
    assert(out@ + alphanumerics(chars@.skip(0), 8) =~= alphanumerics(chars@, 8));
    while i < n && kept < 8
        invariant
            i <= n,
            n == chars@.len(),
            kept <= 8,
            kept == out@.len(),
            out@ + alphanumerics(chars@.skip(i as int), (8 - kept) as nat) == alphanumerics(
                chars@,
                8,
            ),
        decreases n - i,
    {
        proof {
            assert(chars@.skip(i as int)[0] == chars@[i as int]);
            assert(chars@.skip(i as int).skip(1) =~= chars@.skip(i + 1));
        }
        let ghost before = out@;
        if alphanumeric(chars[i]) {
            push_char(&mut out, raise_char(chars[i]));
            kept = kept + 1;
            assert(out@ + alphanumerics(chars@.skip(i + 1), (8 - kept) as nat) =~= before + (seq![
                raise(chars@[i as int]),
            ] + alphanumerics(chars@.skip(i + 1), (8 - kept) as nat)));
        }
        i = i + 1;
    }
    assert(out@ + Seq::<char>::empty() =~= out@);
    if kept == 0 {
        "AX".to_owned()
    } else {
        out
    }
}

/// The title of a list: upper case, in printable ASCII.
pub fn title_of(name: &str) -> (r: String)
    ensures
        r@ == title_chars(upper_text(name@)),
        is_ascii_text(name@) ==> r@ == title_chars(name@.map_values(|c: char| raise(c))),
{
    title_from(upper(name).as_str())
}

/// Whether a text is a reel name: one to eight capitals and digits.
pub open spec fn is_reel(s: Seq<char>) -> bool {
    &&& 1 <= s.len() <= 8
    &&& forall|i: int| 0 <= i < s.len() ==> is_digit(#[trigger] s[i]) || is_upper(s[i])
}

/// Eight characters of reel name, the field width that the format allows. A reel name stays as it
/// is.
pub fn reel_of(name: &str) -> (r: String)
    ensures
        r@ == reel_chars(upper_text(name@)),
        is_ascii_text(name@) ==> r@ == reel_chars(name@.map_values(|c: char| raise(c))),
        is_reel(r@),
        is_reel(name@) ==> r@ == name@,
{
    let raised = upper(name);
    proof {
        law_a_reel_is_capitals_and_digits(raised@);
        if is_reel(name@) {
            assert forall|i: int| 0 <= i < name@.len() implies (#[trigger] name@[i]) as u32
                <= 127 by {
                assert(is_digit(name@[i]) || is_upper(name@[i]));
            }
            assert(name@.map_values(|c: char| raise(c)) =~= name@);
            law_a_reel_name_stays(name@);
        }
    }
    reel_from(raised.as_str())
}

// ---------------------------------------------------------------------------
// Events
// ---------------------------------------------------------------------------

/// The name a human recognizes the source by: the clip's own, else its media file's, else
/// what the source is.
pub open spec fn source_name_of(project: Project, clip: Clip) -> Seq<char> {
    match clip.name {
        Some(name) => name@,
        None => match crate::timeline::clip_asset(project, clip) {
            Some(asset) => asset.name@,
            None => clip.source.description(),
        },
    }
}

/// `C` for a cut, `D nnn` for a dissolve of nnn frames.
pub open spec fn transition_text(clip: Clip, fps: Fps) -> Seq<char> {
    match clip.transition() {
        Some(t) => "D "@ + dec_wide(larger(t.duration.round_frame(fps), 1) as nat, 3),
        None => "C"@,
    }
}

pub open spec fn dissolve_text(clip: Clip) -> Option<Seq<char>> {
    match clip.transition() {
        None => None,
        Some(t) => Some(
            match t.kind {
                TransitionKind::Dissolve => "CROSS DISSOLVE"@,
                TransitionKind::Dip => "DIP TO COLOR DISSOLVE"@,
                _ => "WIPE"@,
            },
        ),
    }
}

/// The rate a clip plays at, in tenths of a frame per second.
pub open spec fn play_tenths(clip: Clip, fps: Fps) -> int {
    round_half_even(
        clip.speed.num * fps.rate.num * 10,
        clip.speed.den * fps.rate.den,
    )
}

/// The rate a clip plays at, in frames per second; with a sign where it plays backwards.
pub open spec fn play_rate(clip: Clip, fps: Fps) -> Seq<char> {
    (if clip.reverse {
        "-"@
    } else {
        seq![]
    }) + fixed_text(play_tenths(clip, fps), 1)
}

/// An event: its number, reel, channel and transition, and four timecodes.
pub open spec fn event_text(
    project: Project,
    placed: Placed,
    channel: Seq<char>,
    number: int,
    fps: Fps,
) -> Seq<char> {
    let clip = *placed.clip;
    let name = source_name_of(project, clip);
    let base = fps.nominal();
    dec_wide(number as nat, 3) + "  "@ + pad_right(reel_chars(upper_text(name)), 8, ' ') + " "@
        + pad_right(channel, 5, ' ') + " "@ + pad_right(transition_text(clip, fps), 8, ' ') + " "@
        + timecode_text(placed.source_in as int, base) + " "@ + timecode_text(
        placed.source_in + placed.frames,
        base,
    ) + " "@ + timecode_text(placed.start as int, base) + " "@ + timecode_text(
        placed.start + placed.frames,
        base,
    ) + "\n* FROM CLIP NAME: "@ + name + "\n"@
}

pub open spec fn effect_text(clip: Clip) -> Seq<char> {
    match dissolve_text(clip) {
        Some(kind) => "* EFFECT NAME: "@ + kind + "\n"@,
        None => seq![],
    }
}

/// The record that states a retime: reel, play rate, source start.
pub open spec fn retime_text(project: Project, placed: Placed, fps: Fps) -> Seq<char> {
    let clip = *placed.clip;
    if clip.plays_straight() {
        seq![]
    } else {
        "M2   "@ + pad_right(reel_chars(upper_text(source_name_of(project, clip))), 8, ' ') + " "@
            + pad_left(play_rate(clip, fps), 11, ' ') + " "@ + timecode_text(
            placed.source_in as int,
            fps.nominal(),
        ) + "\n"@
    }
}

/// A list while it is written.
pub struct ListView {
    pub events: int,
    pub text: Seq<char>,
    pub warnings: Seq<WarningView>,
}

/// The list with one more entry of a track.
pub open spec fn list_entry(
    st: ListView,
    entry: Entry,
    project: Project,
    channel: Seq<char>,
    fps: Fps,
) -> ListView {
    match entry {
        Entry::Blank { .. } => st,
        Entry::Clip(placed) => ListView {
            events: st.events + 1,
            text: st.text + event_text(project, placed, channel, st.events + 1, fps) + effect_text(
                *placed.clip,
            ) + retime_text(project, placed, fps),
            warnings: st.warnings + lost_features(*placed.clip, "EDL"@),
        },
    }
}

pub open spec fn list_entries(
    st: ListView,
    entries: Seq<Entry>,
    project: Project,
    channel: Seq<char>,
    fps: Fps,
) -> ListView
    decreases entries.len(),
{
    if entries.len() == 0 {
        st
    } else {
        list_entry(
            list_entries(st, entries.drop_last(), project, channel, fps),
            entries.last(),
            project,
            channel,
            fps,
        )
    }
}

/// How many of some tracks are audio tracks.
pub open spec fn audio_count(tracks: Seq<Track>) -> nat
    decreases tracks.len(),
{
    if tracks.len() == 0 {
        0
    } else if tracks.last().kind == TrackKind::Audio {
        audio_count(tracks.drop_last()) + 1
    } else {
        audio_count(tracks.drop_last())
    }
}

/// The channel of the last of some tracks: `A`, `A2`, `A3` … for audio, `V` for video.
pub open spec fn channel_of_last(tracks: Seq<Track>) -> Seq<char> {
    if tracks.last().kind == TrackKind::Audio {
        if audio_count(tracks) == 1 {
            "A"@
        } else {
            "A"@ + dec(audio_count(tracks))
        }
    } else {
        "V"@
    }
}

/// What is reported of a second video track: there is one video channel.
pub open spec fn collision_warning(tracks: Seq<Track>) -> Seq<WarningView> {
    let track = tracks.last();
    if track.kind != TrackKind::Audio && tracks.len() - audio_count(tracks) > 1 {
        seq![
            WarningView {
                code: "track-not-exported"@,
                target: track.name@,
                detail: "an EDL has one video channel; the events from '"@ + track.name@
                    + "' are written too, but a reader that honours record timecode will see them collide with V1"@,
            },
        ]
    } else {
        seq![]
    }
}

pub open spec fn list_tracks(st: ListView, tracks: Seq<Track>, project: Project, fps: Fps) -> ListView
    decreases tracks.len(),
{
    if tracks.len() == 0 {
        st
    } else {
        let before = list_tracks(st, tracks.drop_last(), project, fps);
        list_entries(
            ListView { warnings: before.warnings + collision_warning(tracks), ..before },
            entries_of(tracks.last().clips@, fps),
            project,
            channel_of_last(tracks),
            fps,
        )
    }
}

/// The list of a sequence.
pub open spec fn list_of(project: Project, sequence: Sequence) -> ListView {
    let tracks = clip_tracks(sequence.tracks@);
    list_tracks(
        ListView {
            events: 0,
            text: "TITLE: "@ + title_chars(upper_text(sequence.name@))
                + "\nFCM: NON-DROP FRAME\n"@,
            warnings: crate::mlt_document::all_placing_warnings(tracks, sequence.fps) + losses(
                sequence,
                "EDL"@,
                kept_by_edl(),
            ),
        },
        tracks,
        project,
        sequence.fps,
    )
}

/// Whether a clip's transition can be told in numbers.
pub open spec fn listable(clip: Clip, fps: Fps) -> bool {
    clip.transition() is Some ==> -FRAME_LIMIT < clip.transition()->0.duration.round_frame(fps)
        < FRAME_LIMIT
}

pub open spec fn list_fits(sequence: Sequence) -> bool {
    &&& sequence_fits(sequence)
    &&& forall|i: int, k: int|
        0 <= i < sequence.tracks@.len() && sequence.tracks@[i].kind != TrackKind::Caption && 0 <= k
            < sequence.tracks@[i].clips@.len() ==> listable(
            #[trigger] sequence.tracks@[i].clips@[k],
            sequence.fps,
        )
}

fn source_name(project: &Project, clip: &Clip) -> (r: String)
    ensures
        r@ == source_name_of(*project, *clip),
{
    match &clip.name {
        Some(name) => name.clone(),
        None => match &clip.source {
            Source::Asset { asset } | Source::Image { asset } => match project.find_asset(
                asset.as_str(),
            ) {
                Some(at) => project.assets[at].name.clone(),
                None => clip.source.describe(),
            },
            _ => clip.source.describe(),
        },
    }
}

fn transition_field(clip: &Clip, fps: Fps) -> (r: String)
    requires
        clip.wf(),
        fps.wf(),
        listable(*clip, fps),
    ensures
        r@ == transition_text(*clip, fps),
{
    match clip.shown_transition() {
        Some(t) => {
            let frames: i64 = t.duration.frame_round(fps);
            let shown: i64 = if frames >= 1 {
                frames
            } else {
                1
            };
            let mut out = "D ".to_owned();
            push_dec_wide(&mut out, shown as u128, 3);
            out
        },
        None => "C".to_owned(),
    }
}

fn dissolve_name(clip: &Clip) -> (r: Option<&'static str>)
    ensures
        (match r {
            Some(name) => dissolve_text(*clip) == Some(name@),
            None => dissolve_text(*clip) is None,
        }),
{
    match clip.shown_transition() {
        None => None,
        Some(t) => Some(
            match t.kind {
                TransitionKind::Dissolve => "CROSS DISSOLVE",
                TransitionKind::Dip => "DIP TO COLOR DISSOLVE",
                _ => "WIPE",
            },
        ),
    }
}

/// The tenths of a fraction, to the nearest, halves to the even one.
fn tenths(top: i128, bottom: i128) -> (r: (i128, i128))
    requires
        0 <= top <= 0x4000_0000_0000_0000_0000_0000_0000_0000,
        0 < bottom <= 0x4000_0000_0000_0000_0000_0000_0000_0000,
    ensures
        10 * r.0 + r.1 == round_half_even(top * 10, bottom as int),
        0 <= r.0 <= top + 1,
        0 <= r.1 < 10,
{
    let whole: i128 = top / bottom;
    let part: i128 = top % bottom;
    proof {
        lemma_fundamental_div_mod(top as int, bottom as int);
        assert(whole <= top) by (nonlinear_arith)
            requires
                top == bottom * whole + part,
                bottom > 0,
                part >= 0,
                top >= 0,
        ;
    }
    let mut digit: i128 = 0;
    let mut rest: i128 = 0;
    let mut k: u32 = 0;
    while k < 10
        invariant
            k <= 10,
            0 <= digit <= k,
            0 <= part < bottom,
            0 <= rest < bottom,
            bottom <= 0x4000_0000_0000_0000_0000_0000_0000_0000,
            k * part == digit * bottom + rest,
        decreases 10 - k,
    {
        proof {
            assert((k + 1) * part == k * part + part) by (nonlinear_arith);
            assert((digit + 1) * bottom == digit * bottom + bottom) by (nonlinear_arith);
        }
        rest = rest + part;
        if rest >= bottom {
            rest = rest - bottom;
            digit = digit + 1;
        }
        k = k + 1;
    }
    proof {
        let q = 10 * whole + digit;
        assert(top * 10 == q * bottom + rest) by (nonlinear_arith)
            requires
                top == bottom * whole + part,
                10 * part == digit * bottom + rest,
                q == 10 * whole + digit,
        ;
        vstd::arithmetic::div_mod::lemma_fundamental_div_mod_converse(
            top * 10,
            bottom as int,
            q,
            rest as int,
        );
        assert(digit < 10) by (nonlinear_arith)
            requires
                10 * part == digit * bottom + rest,
                part < bottom,
                rest >= 0,
                bottom > 0,
        ;
        assert(q % 2 == digit % 2);
    }
    if rest > bottom - rest || (rest == bottom - rest && digit % 2 == 1) {
        if digit == 9 {
            (whole + 1, 0)
        } else {
            (whole, digit + 1)
        }
    } else {
        (whole, digit)
    }
}

fn rate_field(clip: &Clip, fps: Fps) -> (r: String)
    requires
        clip.wf(),
        fps.wf(),
    ensures
        r@ == play_rate(*clip, fps),
{
    proof {
        lemma_wide(clip.speed.num as int, fps.rate.num as int);
        lemma_wide(clip.speed.den as int, fps.rate.den as int);
        lemma_product_positive(clip.speed.num as int, fps.rate.num as int);
        lemma_product_positive(clip.speed.den as int, fps.rate.den as int);
    }
    let top: i128 = (clip.speed.num as i128) * (fps.rate.num as i128);
    let bottom: i128 = (clip.speed.den as i128) * (fps.rate.den as i128);
    let (whole, tenth) = tenths(top, bottom);
    let mut out = String::new();
    if clip.reverse {
        out.append("-");
    }
    let ghost sign = out@;
    push_dec(&mut out, whole as u128);
    push_char(&mut out, '.');
    push_dec_wide(&mut out, tenth as u128, 1);
    proof {
        let n = 10 * whole + tenth;
        assert(crate::number::pow10(1) == 10) by {
            reveal_with_fuel(crate::number::pow10, 2);
        }
        assert(n / 10 == whole && n % 10 == tenth);
        assert(sign =~= if clip.reverse {
            "-"@
        } else {
            seq![]
        });
        assert(out@ =~= play_rate(*clip, fps));
    }
    out
}

fn push_event(
    out: &mut String,
    project: &Project,
    placed: &Placed<'_>,
    channel: &str,
    number: u128,
    fps: Fps,
)
    requires
        fps.wf(),
        placed.clip.wf(),
        listable(*placed.clip, fps),
    ensures
        final(out)@ == old(out)@ + event_text(*project, *placed, channel@, number as int, fps),
{
    let name = source_name(project, placed.clip);
    let source_out: i128 = placed.source_in as i128 + placed.frames as i128;
    let record_out: i128 = placed.start as i128 + placed.frames as i128;
    let mut line = String::new();
    push_dec_wide(&mut line, number, 3);
    line.append("  ");
    push_padded_right(&mut line, reel_of(name.as_str()).as_str(), 8, ' ');
    line.append(" ");
    push_padded_right(&mut line, channel, 5, ' ');
    line.append(" ");
    push_padded_right(&mut line, transition_field(placed.clip, fps).as_str(), 8, ' ');
    line.append(" ");
    line.append(Time::frame_timecode(placed.source_in as i128, fps).as_str());
    line.append(" ");
    line.append(Time::frame_timecode(source_out, fps).as_str());
    line.append(" ");
    line.append(Time::frame_timecode(placed.start as i128, fps).as_str());
    line.append(" ");
    line.append(Time::frame_timecode(record_out, fps).as_str());
    line.append("\n* FROM CLIP NAME: ");
    line.append(name.as_str());
    line.append("\n");
    assert(line@ =~= event_text(*project, *placed, channel@, number as int, fps));
    out.append(line.as_str());
}

fn push_details(out: &mut String, project: &Project, placed: &Placed<'_>, fps: Fps)
    requires
        fps.wf(),
        placed.clip.wf(),
        listable(*placed.clip, fps),
    ensures
        final(out)@ == old(out)@ + effect_text(*placed.clip) + retime_text(*project, *placed, fps),
{
    let clip = placed.clip;
    if let Some(kind) = dissolve_name(clip) {
        out.append("* EFFECT NAME: ");
        out.append(kind);
        out.append("\n");
    }
    assert(out@ =~= old(out)@ + effect_text(*clip));
    if !clip.speed.is_one() || clip.reverse {
        let name = source_name(project, clip);
        let mut line = "M2   ".to_owned();
        push_padded_right(&mut line, reel_of(name.as_str()).as_str(), 8, ' ');
        line.append(" ");
        push_padded_left(&mut line, rate_field(clip, fps).as_str(), 11, ' ');
        line.append(" ");
        line.append(Time::frame_timecode(placed.source_in as i128, fps).as_str());
        line.append("\n");
        assert(line@ =~= retime_text(*project, *placed, fps));
        out.append(line.as_str());
    } else {
        assert(out@ =~= out@ + retime_text(*project, *placed, fps));
    }
}

fn push_entries(
    out: &mut String,
    warnings: &mut Vec<Warning>,
    events: u128,
    flat: &FlatTrack<'_>,
    project: &Project,
    channel: &str,
    fps: Fps,
) -> (r: u128)
    requires
        fps.wf(),
        flattens(*flat, *flat.track, fps),
        crate::timeline::on_grid(flat.track.clips@, fps),
        forall|k: int|
            0 <= k < flat.track.clips@.len() ==> listable(#[trigger] flat.track.clips@[k], fps),
        events + flat.entries@.len() < u128::MAX,
    ensures
        (ListView { events: r as int, text: final(out)@, warnings: views(final(warnings)@) })
            == list_entries(
            ListView {
                events: events as int,
                text: old(out)@,
                warnings: views(old(warnings)@),
            },
            flat.entries@,
            *project,
            channel@,
            fps,
        ),
        events <= r <= events + flat.entries@.len(),
{
    let ghost start = ListView {
        events: events as int,
        text: old(out)@,
        warnings: views(old(warnings)@),
    };
    let ghost clips = flat.track.clips@;
    let mut count: u128 = events;
    let mut i: usize = 0;
    assert(flat.entries@.take(0) =~= seq![]);
    while i < flat.entries.len()
        invariant
            i <= flat.entries@.len(),
            fps.wf(),
            clips == flat.track.clips@,
            flat.entries@ == entries_of(clips, fps),
            crate::timeline::on_grid(clips, fps),
            forall|k: int| 0 <= k < clips.len() ==> listable(#[trigger] clips[k], fps),
            events + flat.entries@.len() < u128::MAX,
            events <= count <= events + i,
            (ListView { events: count as int, text: out@, warnings: views(warnings@) })
                == list_entries(start, flat.entries@.take(i as int), *project, channel@, fps),
        decreases flat.entries@.len() - i,
    {
        proof {
            assert(flat.entries@.take(i + 1).drop_last() =~= flat.entries@.take(i as int));
        }
        if let Entry::Clip(placed) = &flat.entries[i] {
            proof {
                crate::timeline::lemma_placed(clips, fps, i as int);
                let k = choose|k: int| 0 <= k < clips.len() && clips[k] == *placed.clip;
                assert(listable(clips[k], fps) && clips[k].wf());
            }
            extend(warnings, feature_warnings(placed.clip, "EDL"));
            count = count + 1;
            push_event(out, project, placed, channel, count, fps);
            push_details(out, project, placed, fps);
        }
        i = i + 1;
    }
    assert(flat.entries@.take(i as int) =~= flat.entries@);
    count
}

proof fn lemma_audio_count(tracks: Seq<Track>)
    ensures
        audio_count(tracks) <= tracks.len(),
    decreases tracks.len(),
{
    if tracks.len() > 0 {
        lemma_audio_count(tracks.drop_last());
    }
}

/// The channel of a track.
fn channel_for(audio: bool, count: u128) -> (r: String)
    ensures
        r@ == (if audio {
            if count == 1 {
                "A"@
            } else {
                "A"@ + dec(count as nat)
            }
        } else {
            "V"@
        }),
{
    if audio {
        let mut out = "A".to_owned();
        if count != 1 {
            out.append(decimal(count).as_str());
        }
        out
    } else {
        "V".to_owned()
    }
}

/// Writes the sequence as a CMX3600 list.
pub fn export(project: &Project, id: &str) -> (r: Result<Export, Error>)
    requires
        project.sequence_at(id@) >= 0 ==> list_fits(project.sequences@[project.sequence_at(id@)]),
    ensures
        r is Ok <==> project.sequence_at(id@) >= 0,
        r is Err ==> r->Err_0@ == project.no_sequence(id@),
        r is Ok ==> {
            let list = list_of(*project, project.sequences@[project.sequence_at(id@)]);
            &&& r->Ok_0.text@ == list.text
            &&& views(r->Ok_0.warnings@) == list.warnings
        },
{
    let sequence = match project.sequence(id) {
        Ok(sequence) => sequence,
        Err(error) => {
            return Err(error);
        },
    };
    let fps = sequence.fps;
    let flat = flatten(sequence);
    let ghost tracks = clip_tracks(sequence.tracks@);
    let mut warnings = crate::mlt_document::placed_warnings(&flat, sequence);
    extend(&mut warnings, loss_warnings(sequence, "EDL", edl_kept()));
    let mut out = "TITLE: ".to_owned();
    out.append(title_of(sequence.name.as_str()).as_str());
    out.append("\nFCM: NON-DROP FRAME\n");
    let ghost start = ListView { events: 0, text: out@, warnings: views(warnings@) };
    let mut events: u128 = 0;
    let mut audio: u128 = 0;
    let mut t: usize = 0;
    assert(tracks.take(0) =~= seq![]);
    while t < flat.len()
        invariant
            t <= flat@.len(),
            list_fits(*sequence),
            is_flat(flat@, *sequence),
            fps == sequence.fps,
            tracks == clip_tracks(sequence.tracks@),
            audio == audio_count(tracks.take(t as int)),
            audio <= t,
            events <= t * 0x1_0000_0000_0000_0000,
            (ListView { events: events as int, text: out@, warnings: views(warnings@) })
                == list_tracks(start, tracks.take(t as int), *project, fps),
        decreases flat@.len() - t,
    {
        let total: usize = flat.len();
        let track = flat[t].track;
        let count: usize = flat[t].entries.len();
        let ghost seen = tracks.take(t + 1);
        proof {
            assert(seen.drop_last() =~= tracks.take(t as int));
            assert(seen.last() == tracks[t as int]);
            assert(flattens(flat@[t as int], tracks[t as int], fps));
            crate::mlt_document::lemma_clip_tracks(sequence.tracks@, t as int);
            let k = choose|k: int|
                0 <= k < sequence.tracks@.len() && #[trigger] sequence.tracks@[k]
                    == tracks[t as int] && sequence.tracks@[k].kind != TrackKind::Caption;
            assert(crate::timeline::track_fits(sequence.tracks@[k], fps));
            assert forall|c: int| 0 <= c < track.clips@.len() implies listable(
                #[trigger] track.clips@[c],
                fps,
            ) by {
                assert(listable(sequence.tracks@[k].clips@[c], fps));
            }
        }
        let is_audio = track.kind == TrackKind::Audio;
        if is_audio {
            audio = audio + 1;
        }
        if !is_audio && (t as u128 + 1) - audio > 1 {
            let mut detail = "an EDL has one video channel; the events from '".to_owned();
            detail.append(track.name.as_str());
            detail.append(
                "' are written too, but a reader that honours record timecode will see them collide with V1",
            );
            push_view(
                &mut warnings,
                Warning { code: "track-not-exported", target: track.name.clone(), detail },
            );
        }
        let ghost before = list_tracks(start, seen.drop_last(), *project, fps);
        assert(views(warnings@) =~= before.warnings + collision_warning(seen));
        let channel = channel_for(is_audio, audio);
        assert(channel@ == channel_of_last(seen));
        events = push_entries(
            &mut out,
            &mut warnings,
            events,
            &flat[t],
            project,
            channel.as_str(),
            fps,
        );
        t = t + 1;
    }
    assert(tracks.take(t as int) =~= tracks);
    Ok(Export { text: out, warnings })
}

/// The record out of an event is the record in of the next, where no blank stands between.
pub proof fn law_record_times_are_contiguous(clips: Seq<Clip>, fps: Fps, i: int)
    requires
        crate::timeline::on_grid(clips, fps),
        0 <= i,
        i + 1 < entries_of(clips, fps).len(),
        entries_of(clips, fps)[i] is Clip,
        entries_of(clips, fps)[i + 1] is Clip,
    ensures
        entries_of(clips, fps)[i]->Clip_0.start + entries_of(clips, fps)[i]->Clip_0.frames
            == entries_of(clips, fps)[i + 1]->Clip_0.start,
{
    let entries = entries_of(clips, fps);
    crate::timeline::law_clips_stand_where_the_entries_before_them_end(clips, fps, i);
    crate::timeline::law_clips_stand_where_the_entries_before_them_end(clips, fps, i + 1);
    assert(entries.take(i + 1).drop_last() =~= entries.take(i));
}

} // verus!
