//! What a description says of titles, and what it warns of.

use crate::digest::{all_gap_warnings, captions_of, CaptionDigest};
use crate::digest_report::{
    black_warnings, caption_warning, clipping_warning, digest_warnings, flash_warnings,
    frozen_warnings, title_warnings, title_warnings_of, AudioDigest,
};
use crate::digest_title::{
    families_in, family_of, is_generic, is_stop, list_after, middle, midpoint, midpoint_fits,
    named_families, opening_quote, pieces_of, scaled, stop_at, substitute, texts_of, title_list,
    titles_in, titles_of, value_after, without_front, equals_or_colon, TitleView,
};
use crate::import_laws::at_frame;
use crate::lint_media::Seen;
use crate::lint_title::TitleMeasurement;
use crate::project::{Clip, Project, Sequence, Track, TrackKind};
use crate::rational::Rat;
use crate::text::{fold, has_char, split, trim_start};
use crate::time::{Fps, Span, Time};
use crate::time_laws::{
    is_nearest, law_frames_stand_around_an_instant, law_rounding_gives_the_nearest,
};
use crate::timeline::WarningView;
use vstd::prelude::*;

verus! {

// ---------------------------------------------------------------------------
// When titles are looked at
// ---------------------------------------------------------------------------

/// The middle of a clip is as far behind its start as half of its length.
pub proof fn law_the_middle_is_half_way(clip: Clip, fps: Fps)
    requires
        fps.wf(),
        midpoint_fits(clip, fps),
    ensures
        ({
            let (a, d, m) = (clip.start.secs, clip.duration.secs, middle(clip).secs);
            m.den > 0 && 2 * ((m.num * a.den - a.num * m.den) * d.den) == d.num * (a.den * m.den)
        }),
{
    let (a, d) = (clip.start.secs, clip.duration.secs);
    Rat::lemma_of(d.num * 1, d.den * 2);
    let half = clip.duration.spec_times(Rat { num: 1, den: 2 }).secs;
    assert(half.num * (d.den * 2) == (d.num * 1) * half.den);
    assert(a.den * half.den > 0) by (nonlinear_arith)
        requires
            a.den > 0,
            half.den > 0,
    ;
    Rat::lemma_of(a.num * half.den + half.num * a.den, a.den * half.den);
    let m = middle(clip).secs;
    let gap = m.num * a.den - a.num * m.den;
    assert(m.num * (a.den * half.den) == (a.num * half.den + half.num * a.den) * m.den);
    assert(m.num * (a.den * half.den) == (m.num * a.den) * half.den) by (nonlinear_arith);
    assert((a.num * half.den + half.num * a.den) * m.den == (a.num * m.den) * half.den + half.num
        * (a.den * m.den)) by (nonlinear_arith);
    assert(gap * half.den == half.num * (a.den * m.den)) by (nonlinear_arith)
        requires
            gap == m.num * a.den - a.num * m.den,
            (m.num * a.den) * half.den == (a.num * m.den) * half.den + half.num * (a.den * m.den),
    ;
    let w = a.den * m.den;
    let (g, h, k) = (gap, half.num as int, half.den as int);
    assert((2 * (g * d.den)) * k == (d.num * w) * k) by (nonlinear_arith)
        requires
            g * k == h * w,
            h * (d.den * 2) == (d.num * 1) * k,
    ;
    assert(2 * (g * d.den) == d.num * w) by (nonlinear_arith)
        requires
            (2 * (g * d.den)) * k == (d.num * w) * k,
            k > 0,
    ;
}

/// A title is looked at on the frame that covers the middle of its clip.
pub proof fn law_a_title_is_looked_at_in_its_middle(clip: Clip, fps: Fps) -> (frame: int)
    requires
        fps.wf(),
        midpoint_fits(clip, fps),
    ensures
        at_frame(midpoint(clip, fps), fps, frame),
        frame * (middle(clip).secs.den * fps.rate.den) <= middle(clip).secs.num * fps.rate.num < (
        frame + 1) * (middle(clip).secs.den * fps.rate.den),
{
    let (a, d) = (clip.start.secs, clip.duration.secs);
    Rat::lemma_of(d.num * 1, d.den * 2);
    let half = clip.duration.spec_times(Rat { num: 1, den: 2 }).secs;
    assert(a.den * half.den > 0) by (nonlinear_arith)
        requires
            a.den > 0,
            half.den > 0,
    ;
    Rat::lemma_of(a.num * half.den + half.num * a.den, a.den * half.den);
    let frame = middle(clip).floor_frame(fps);
    law_frames_stand_around_an_instant(middle(clip), fps);
    Rat::lemma_of(frame * fps.rate.den, fps.rate.num as int);
    frame
}

/// Every enabled title clip on a track that shows pictures is looked at.
pub proof fn law_every_title_is_looked_at(tracks: Seq<Track>, fps: Fps, t: int, c: int) -> (i: int)
    requires
        0 <= t < tracks.len(),
        tracks[t].kind != TrackKind::Audio,
        0 <= c < tracks[t].clips@.len(),
        tracks[t].clips@[c].enabled,
        tracks[t].clips@[c].source is Title,
    ensures
        0 <= i < title_list(tracks, fps).len(),
        title_list(tracks, fps)[i] == (
            tracks[t].clips@[c].id@,
            midpoint(tracks[t].clips@[c], fps),
        ),
    decreases tracks.len(),
{
    let rest = tracks.drop_last();
    let before = title_list(rest, fps);
    if t < rest.len() {
        assert(rest[t] == tracks[t]);
        let i = law_every_title_is_looked_at(rest, fps, t, c);
        assert(title_list(tracks, fps)[i] == before[i]);
        i
    } else {
        let k = lemma_title_in(tracks[t].clips@, fps, c);
        assert(title_list(tracks, fps)[before.len() + k] == titles_in(tracks[t].clips@, fps)[k]);
        before.len() + k
    }
}

proof fn lemma_title_in(clips: Seq<Clip>, fps: Fps, c: int) -> (k: int)
    requires
        0 <= c < clips.len(),
        clips[c].enabled,
        clips[c].source is Title,
    ensures
        0 <= k < titles_in(clips, fps).len(),
        titles_in(clips, fps)[k] == (clips[c].id@, midpoint(clips[c], fps)),
    decreases clips.len(),
{
    let rest = clips.drop_last();
    if c < rest.len() {
        assert(rest[c] == clips[c]);
        let k = lemma_title_in(rest, fps, c);
        assert(titles_in(clips, fps)[k] == titles_in(rest, fps)[k]);
        k
    } else {
        titles_in(clips, fps).len() - 1
    }
}

/// Only such clips are looked at.
pub proof fn law_only_titles_are_looked_at(tracks: Seq<Track>, fps: Fps, i: int) -> (r: (int, int))
    requires
        0 <= i < title_list(tracks, fps).len(),
    ensures
        0 <= r.0 < tracks.len(),
        tracks[r.0].kind != TrackKind::Audio,
        0 <= r.1 < tracks[r.0].clips@.len(),
        tracks[r.0].clips@[r.1].enabled,
        tracks[r.0].clips@[r.1].source is Title,
        title_list(tracks, fps)[i].0 == tracks[r.0].clips@[r.1].id@,
    decreases tracks.len(),
{
    let rest = tracks.drop_last();
    let before = title_list(rest, fps);
    if i < before.len() {
        let r = law_only_titles_are_looked_at(rest, fps, i);
        assert(rest[r.0] == tracks[r.0]);
        r
    } else {
        let t = tracks.len() - 1;
        (t, lemma_only_titles(tracks[t].clips@, fps, i - before.len()))
    }
}

proof fn lemma_only_titles(clips: Seq<Clip>, fps: Fps, k: int) -> (c: int)
    requires
        0 <= k < titles_in(clips, fps).len(),
    ensures
        0 <= c < clips.len(),
        clips[c].enabled,
        clips[c].source is Title,
        titles_in(clips, fps)[k].0 == clips[c].id@,
    decreases clips.len(),
{
    let rest = clips.drop_last();
    if k < titles_in(rest, fps).len() {
        let c = lemma_only_titles(rest, fps, k);
        assert(rest[c] == clips[c]);
        c
    } else {
        clips.len() - 1
    }
}

// ---------------------------------------------------------------------------
// Fonts
// ---------------------------------------------------------------------------

proof fn lemma_stop_is(s: Seq<char>, at: int)
    requires
        0 <= at < s.len(),
        is_stop(s[at]),
        forall|i: int| 0 <= i < at ==> !is_stop(#[trigger] s[i]),
    ensures
        stop_at(s) == at,
    decreases at,
{
    if at > 0 {
        assert(!is_stop(s[0]));
        let rest = s.skip(1);
        assert(rest[at - 1] == s[at]);
        assert forall|i: int| 0 <= i < at - 1 implies !is_stop(#[trigger] rest[i]) by {
            assert(rest[i] == s[i + 1]);
        }
        lemma_stop_is(rest, at - 1);
    }
}

/// A family that an attribute names alone is asked for, in lower case, unless it is a generic one.
pub proof fn law_a_family_in_an_attribute_is_asked_for(name: Seq<char>, tail: Seq<char>)
    requires
        forall|i: int| 0 <= i < name.len() ==> !is_stop(#[trigger] name[i]) && name[i] != ',',
    ensures
        ({
            let found = families_in(seq!['=', '"'] + name + seq!['"'] + tail);
            let family = family_of(name);
            &&& family.len() > 0 && !is_generic(family) ==> found == seq![family]
            &&& family.len() == 0 || is_generic(family) ==> found.len() == 0
        }),
{
    let value = seq!['=', '"'] + name + seq!['"'] + tail;
    assert(value[0] == '=' && value[1] == '"');
    assert(trim_start(value) == value);
    let sign = |c: char| equals_or_colon(c);
    assert(sign(value[0]));
    let behind = value.skip(1);
    assert(behind[0] == '"');
    assert(!sign(behind[0]));
    assert(without_front(value, sign) == without_front(behind, sign));
    assert(without_front(behind, sign) == behind);
    assert(trim_start(behind) == behind);
    assert(value_after(value) == behind);
    assert(opening_quote(value) == Some('"'));
    let list = behind.skip(1);
    assert(list_after(value) == list);
    let at = name.len() as int;
    assert(list[at] == '"');
    assert forall|i: int| 0 <= i < at implies !is_stop(#[trigger] list[i]) by {
        assert(list[i] == name[i]);
    }
    lemma_stop_is(list, at);
    assert(list.take(at) =~= name);
    crate::text::lemma_find_is(name, ',', at);
    assert(!has_char(name, ','));
    assert(split(name, ',') =~= seq![name]);
    let pieces = pieces_of(list, Some('"'), true);
    assert(pieces == seq![name]);
    assert(pieces.drop_last() =~= seq![]);
    assert(named_families(pieces.drop_last()) =~= seq![]);
    assert(named_families(pieces) =~= if family_of(name).len() == 0 || is_generic(
        family_of(name),
    ) {
        seq![]
    } else {
        seq![family_of(name)]
    });
}

/// Every name in a list that is not generic is asked for.
pub proof fn law_every_named_family_is_asked_for(pieces: Seq<Seq<char>>, p: int) -> (i: int)
    requires
        0 <= p < pieces.len(),
        family_of(pieces[p]).len() > 0,
        !is_generic(family_of(pieces[p])),
    ensures
        0 <= i < named_families(pieces).len(),
        named_families(pieces)[i] == family_of(pieces[p]),
    decreases pieces.len(),
{
    let rest = pieces.drop_last();
    if p < rest.len() {
        assert(rest[p] == pieces[p]);
        let i = law_every_named_family_is_asked_for(rest, p);
        assert(named_families(pieces)[i] == named_families(rest)[i]);
        i
    } else {
        named_families(pieces).len() - 1
    }
}

/// Text was set in another family exactly if some are asked for and the one it was set in is none of
/// them, whatever its case.
pub proof fn law_another_family_is_a_substitute(asked: Seq<Seq<char>>, used: Seq<char>)
    ensures
        substitute(asked, Some(used)) is Some <==> asked.len() > 0 && forall|i: int|
            0 <= i < asked.len() ==> #[trigger] asked[i] != used.map_values(|c: char| fold(c)),
        substitute(asked, Some(used)) matches Some(told) ==> told == used,
        substitute(asked, None) is None,
{
    let low = used.map_values(|c: char| fold(c));
    if asked.contains(low) {
        let i = choose|i: int| 0 <= i < asked.len() && asked[i] == low;
        assert(asked[i] == low);
    }
}

// ---------------------------------------------------------------------------
// What is described
// ---------------------------------------------------------------------------

/// A place in a title is the nearest one in the sequence, scaled as the widths are; where they are the
/// same, it is the same.
pub proof fn law_places_scale_with_the_width(n: int, width: u32, frame: [u32; 2])
    requires
        frame@[0] > 0,
    ensures
        is_nearest(n * width, frame@[0] as int, scaled(n, width, frame)),
        width == frame@[0] ==> scaled(n, width, frame) == n,
{
    law_rounding_gives_the_nearest(n * width, frame@[0] as int);
    if width == frame@[0] {
        let (w, r) = (width as int, scaled(n, width, frame));
        assert(r == n) by (nonlinear_arith)
            requires
                -w <= 2 * (n * w - r * w) <= w,
                w > 0,
        ;
    }
}

/// Every run of text of every title is described: with its words, where it lies, whether it leaves the
/// frame, and its contrast.
pub proof fn law_every_text_is_described(titles: Seq<TitleMeasurement>, width: u32, t: int, k: int) -> (i:
    int)
    requires
        0 <= t < titles.len(),
        0 <= k < titles[t].reports@.len(),
    ensures
        0 <= i < titles_of(titles, width).len(),
        ({
            let told = titles_of(titles, width)[i];
            let (title, text) = (titles[t], titles[t].reports@[k]);
            &&& told.id == title.clip@
            &&& told.title == title.title@
            &&& told.at == title.at
            &&& told.text == text.text@
            &&& told.x == scaled(text.x as int, width, title.frame)
            &&& told.y == scaled(text.y as int, width, title.frame)
            &&& told.w == scaled(text.w as int, width, title.frame)
            &&& told.h == scaled(text.h as int, width, title.frame)
            &&& told.font_size == scaled(text.font_size as int, width, title.frame)
            &&& told.contrast == text.contrast
            &&& told.overflow <==> 2 * text.x < -1_000_000 || 2 * text.y < -1_000_000 || 2 * (
            text.x + text.w) > 2_000_000 * title.frame@[0] + 1_000_000 || 2 * (text.y + text.h)
                > 2_000_000 * title.frame@[1] + 1_000_000
        }),
    decreases titles.len(),
{
    let rest = titles.drop_last();
    let before = titles_of(rest, width);
    if t < rest.len() {
        assert(rest[t] == titles[t]);
        let i = law_every_text_is_described(rest, width, t, k);
        assert(titles_of(titles, width)[i] == before[i]);
        i
    } else {
        let i = before.len() + k;
        assert(titles_of(titles, width)[i] == texts_of(titles[t], width)[k]);
        i
    }
}

// ---------------------------------------------------------------------------
// What is warned of
// ---------------------------------------------------------------------------

/// Whether a warning of that code and target is among some.
pub open spec fn warns(warnings: Seq<WarningView>, code: Seq<char>, target: Seq<char>) -> bool {
    exists|i: int|
        0 <= i < warnings.len() && (#[trigger] warnings[i]).code == code && warnings[i].target
            == target
}

proof fn lemma_warns(warnings: Seq<WarningView>, i: int)
    requires
        0 <= i < warnings.len(),
    ensures
        warns(warnings, warnings[i].code, warnings[i].target),
{
}

proof fn lemma_warns_in_sum(a: Seq<WarningView>, b: Seq<WarningView>, code: Seq<char>, target: Seq<char>)
    requires
        warns(a, code, target) || warns(b, code, target),
    ensures
        warns(a + b, code, target),
{
    let all = a + b;
    if warns(a, code, target) {
        let i = choose|i: int|
            0 <= i < a.len() && (#[trigger] a[i]).code == code && a[i].target == target;
        assert(all[i] == a[i]);
    } else {
        let i = choose|i: int|
            0 <= i < b.len() && (#[trigger] b[i]).code == code && b[i].target == target;
        assert(all[a.len() + i] == b[i]);
    }
}

/// A title that leaves the frame is warned of, and one whose contrast is below 4.5 to 1.
pub proof fn law_every_bad_title_is_warned_of(titles: Seq<TitleView>, i: int)
    requires
        0 <= i < titles.len(),
    ensures
        titles[i].overflow ==> warns(title_warnings(titles), "title-overflow"@, titles[i].id),
        titles[i].contrast matches Some(c) ==> (c < 4_500_000 ==> warns(
            title_warnings(titles),
            "low-contrast"@,
            titles[i].id,
        )),
    decreases titles.len(),
{
    let rest = titles.drop_last();
    let (before, own) = (title_warnings(rest), title_warnings_of(titles.last()));
    let title = titles[i];
    if i < rest.len() {
        assert(rest[i] == titles[i]);
        law_every_bad_title_is_warned_of(rest, i);
    } else {
        if title.overflow {
            lemma_warns(own, 0);
        }
        if let Some(c) = title.contrast {
            if c < 4_500_000 {
                lemma_warns(own, own.len() - 1);
            }
        }
    }
    if title.overflow {
        lemma_warns_in_sum(before, own, "title-overflow"@, title.id);
    }
    if let Some(c) = title.contrast {
        if c < 4_500_000 {
            lemma_warns_in_sum(before, own, "low-contrast"@, title.id);
        }
    }
}

/// A title that stays in the frame and can be read is not warned of.
pub proof fn law_a_good_title_is_not_warned_of(title: TitleView)
    ensures
        !title.overflow && (title.contrast matches Some(c) ==> c >= 4_500_000)
            <==> title_warnings_of(title).len() == 0,
{
}

/// Captions are warned of exactly if some overlap, and clipping exactly if a sample clips.
pub proof fn law_overlaps_and_clipping_are_warned_of(
    captions: CaptionDigest,
    id: Seq<char>,
    audio: Option<AudioDigest>,
)
    ensures
        warns(caption_warning(captions), "caption-overlap"@, "track[kind=caption]"@)
            <==> captions.overlaps > 0,
        warns(clipping_warning(id, audio), "clipping"@, id) <==> (audio matches Some(heard)
            && heard.clipped_samples > 0),
{
    if captions.overlaps > 0 {
        lemma_warns(caption_warning(captions), 0);
    }
    if let Some(heard) = audio {
        if heard.clipped_samples > 0 {
            lemma_warns(clipping_warning(id, audio), 0);
        }
    }
}

/// Every black or frozen stretch and every flash is warned of.
pub proof fn law_every_bad_picture_is_warned_of(
    tracks: Seq<Track>,
    spans: Seq<Span>,
    flashes: Seq<Time>,
    frame: Time,
)
    ensures
        black_warnings(tracks, spans).len() == spans.len(),
        frozen_warnings(tracks, spans).len() == spans.len(),
        flash_warnings(tracks, flashes, frame).len() == flashes.len(),
        forall|i: int|
            0 <= i < spans.len() ==> (#[trigger] black_warnings(tracks, spans)[i]).code
                == "black-frames"@,
        forall|i: int|
            0 <= i < spans.len() ==> (#[trigger] frozen_warnings(tracks, spans)[i]).code
                == "frozen-frames"@,
        forall|i: int|
            0 <= i < flashes.len() ==> (#[trigger] flash_warnings(tracks, flashes, frame)[i]).code
                == "flash"@,
{
}

/// What a part of a description warns of, the description warns of.
pub proof fn law_a_description_warns_of_everything(
    project: Project,
    sequence: Sequence,
    seen: Seen,
    titles: Seq<TitleMeasurement>,
    audio: Option<AudioDigest>,
    code: Seq<char>,
    target: Seq<char>,
)
    requires
        ({
            let tracks = sequence.tracks@;
            ||| warns(all_gap_warnings(sequence, tracks.len() as int), code, target)
            ||| warns(caption_warning(captions_of(project, tracks)), code, target)
            ||| warns(black_warnings(tracks, seen.black@), code, target)
            ||| warns(frozen_warnings(tracks, seen.frozen@), code, target)
            ||| warns(
                flash_warnings(tracks, seen.flashes@, sequence.fps.spec_frame_duration()),
                code,
                target,
            )
            ||| warns(title_warnings(titles_of(titles, sequence.size@[0])), code, target)
            ||| warns(clipping_warning(sequence.id@, audio), code, target)
        }),
    ensures
        warns(digest_warnings(project, sequence, seen, titles, audio), code, target),
{
    let tracks = sequence.tracks@;
    let a = all_gap_warnings(sequence, tracks.len() as int);
    let b = caption_warning(captions_of(project, tracks));
    let c = black_warnings(tracks, seen.black@);
    let d = frozen_warnings(tracks, seen.frozen@);
    let e = flash_warnings(tracks, seen.flashes@, sequence.fps.spec_frame_duration());
    let f = title_warnings(titles_of(titles, sequence.size@[0]));
    let g = clipping_warning(sequence.id@, audio);
    if warns(a, code, target) || warns(b, code, target) {
        lemma_warns_in_sum(a, b, code, target);
    }
    if warns(a + b, code, target) || warns(c, code, target) {
        lemma_warns_in_sum(a + b, c, code, target);
    }
    if warns(a + b + c, code, target) || warns(d, code, target) {
        lemma_warns_in_sum(a + b + c, d, code, target);
    }
    if warns(a + b + c + d, code, target) || warns(e, code, target) {
        lemma_warns_in_sum(a + b + c + d, e, code, target);
    }
    if warns(a + b + c + d + e, code, target) || warns(f, code, target) {
        lemma_warns_in_sum(a + b + c + d + e, f, code, target);
    }
    lemma_warns_in_sum(a + b + c + d + e + f, g, code, target);
}

} // verus!
