//! Where clips come to stand on the frame grid.

use crate::project::Clip;
use crate::rational::Rat;
use crate::time::{Fps, Time};
use crate::time_laws::{
    is_nearest, law_frames_stand_around_an_instant, law_later_instants_are_on_later_frames,
};
use crate::timeline::{
    clip_frames, cursor_after, entries_of, lemma_cursor_grows, lemma_on_grid_prefix, on_grid,
    placed_in, start_of_last, Entry,
};
use vstd::prelude::*;

verus! {

/// Whether no frame is nearer to an instant than this one.
pub open spec fn nearest_frame(at: Time, fps: Fps, frame: int) -> bool {
    is_nearest(at.secs.num * fps.rate.num, at.secs.den * fps.rate.den, frame)
}

/// Whether an instant is at least a frame later than another.
pub open spec fn a_frame_later(at: Time, than: Time, fps: Fps) -> bool {
    (at.secs.num * than.secs.den - than.secs.num * at.secs.den) * fps.rate.num >= fps.rate.den * (
    than.secs.den * at.secs.den)
}

/// Whether clips are in order, do not overlap, start at zero or later, and last a frame or more.
pub open spec fn laid_out(clips: Seq<Clip>, fps: Fps) -> bool {
    &&& forall|k: int|
        0 <= k < clips.len() ==> (#[trigger] clips[k]).start.secs.num >= 0 && a_frame_later(
            clips[k].spec_end(),
            clips[k].start,
            fps,
        )
    &&& forall|k: int, l: int|
        0 <= k < l < clips.len() ==> (#[trigger] clips[k]).spec_end().le(
            (#[trigger] clips[l]).start,
        )
}

proof fn lemma_a_frame_apart(a: Time, b: Time, fps: Fps)
    requires
        a.wf(),
        b.wf(),
        fps.wf(),
        a_frame_later(b, a, fps),
    ensures
        a.round_frame(fps) + 1 <= b.round_frame(fps),
{
    let (an, ad) = (a.secs.num as int, a.secs.den as int);
    let (bn, bd) = (b.secs.num as int, b.secs.den as int);
    let (p, q) = (fps.rate.num as int, fps.rate.den as int);
    // One frame more is a whole number more.
    let (n, d) = (an * p + ad * q, ad * q);
    assert(d > 0 && bd * q > 0) by (nonlinear_arith)
        requires
            ad > 0,
            bd > 0,
            q > 0,
            d == ad * q,
    ;
    let left = (bn * ad - an * bd) * p;
    let (x, y, z) = (bn * ad, an * bd, ad * bd);
    assert((bn * p) * d == (x * p) * q) by (nonlinear_arith)
        requires
            x == bn * ad,
            d == ad * q,
    ;
    assert((an * p) * (bd * q) == (y * p) * q) by (nonlinear_arith)
        requires
            y == an * bd,
    ;
    assert((ad * q) * (bd * q) == (q * z) * q) by (nonlinear_arith)
        requires
            z == ad * bd,
    ;
    assert(n * (bd * q) == (an * p) * (bd * q) + (ad * q) * (bd * q)) by (nonlinear_arith)
        requires
            n == an * p + ad * q,
    ;
    assert((left - q * z) * q == (x * p) * q - (y * p) * q - (q * z) * q) by (nonlinear_arith)
        requires
            left == (x - y) * p,
    ;
    assert((left - q * (ad * bd)) * q >= 0) by (nonlinear_arith)
        requires
            left >= q * (ad * bd),
            q > 0,
    ;
    crate::time_laws::law_rounding_keeps_the_order(n, d, bn * p, bd * q);
    lemma_round_next(an * p, d);
}

proof fn lemma_round_next(n: int, d: int)
    requires
        d > 0,
    ensures
        crate::rational::round_half_away(n + d, d) >= crate::rational::round_half_away(n, d) + 1,
{
    crate::time_laws::law_rounding_gives_the_nearest(n, d);
    crate::time_laws::law_rounding_gives_the_nearest(n + d, d);
    let r = crate::rational::round_half_away(n, d);
    let t = crate::rational::round_half_away(n + d, d);
    if t < r + 1 {
        assert(t * d <= r * d) by (nonlinear_arith)
            requires
                t <= r,
                d > 0,
        ;
        // Both bounds are then met with equality, and the ties fall on different sides.
        assert(2 * (n + d - t * d) >= 2 * (n - r * d) + 2 * d);
        assert(2 * (n - r * d) == -d);
        assert(2 * (n + d - t * d) == d);
        assert(n < 0 ==> 2 * (n - r * d) > -d);
        assert(n >= 0);
    }
}

/// The end of clips that are laid out is where the last one ends.
proof fn lemma_laid_out_cursor(clips: Seq<Clip>, fps: Fps)
    requires
        fps.wf(),
        on_grid(clips, fps),
        laid_out(clips, fps),
        clips.len() > 0,
    ensures
        cursor_after(clips, fps) == clips.last().spec_end().round_frame(fps),
        start_of_last(clips, fps) == clips.last().start.round_frame(fps),
        clip_frames(clips.last(), fps) == clips.last().spec_end().round_frame(fps)
            - clips.last().start.round_frame(fps),
    decreases clips.len(),
{
    let last = clips[clips.len() - 1];
    assert(last.wf());
    lemma_end_wf(last);
    lemma_a_frame_apart(last.start, last.spec_end(), fps);
    law_frames_stand_around_an_instant(last.start, fps);
    let rest = clips.drop_last();
    if rest.len() == 0 {
        assert(cursor_after(rest, fps) == 0);
        assert(last.start.round_frame(fps) >= 0) by {
            let (n, d) = (last.start.secs.num as int, last.start.secs.den as int);
            assert(0 * d <= n * 1);
            law_later_instants_are_on_later_frames(Time::zero_spec(), last.start, fps);
            lemma_zero_frame(fps);
        }
    } else {
        assert(rest =~= clips.take(clips.len() - 1));
        lemma_on_grid_prefix(clips, fps, clips.len() - 1);
        lemma_laid_out_prefix(clips, fps);
        lemma_laid_out_cursor(rest, fps);
        let before = clips[clips.len() - 2];
        assert(rest.last() == before);
        assert(before.wf());
        lemma_end_wf(before);
        law_later_instants_are_on_later_frames(before.spec_end(), last.start, fps);
    }
}

proof fn lemma_zero_frame(fps: Fps)
    requires
        fps.wf(),
    ensures
        Time::zero_spec().round_frame(fps) == 0,
{
    law_frames_stand_around_an_instant(Time::zero_spec(), fps);
    let bottom = 1 * fps.rate.den;
    let r = Time::zero_spec().round_frame(fps);
    assert(0 * fps.rate.num == 0);
    assert(r == 0) by (nonlinear_arith)
        requires
            -bottom <= 2 * (0 - r * bottom) <= bottom,
            bottom > 0,
    ;
}

proof fn lemma_end_wf(clip: Clip)
    requires
        clip.wf(),
    ensures
        clip.spec_end().wf(),
{
    let (an, ad) = (clip.start.secs.num as int, clip.start.secs.den as int);
    let (bn, bd) = (clip.duration.secs.num as int, clip.duration.secs.den as int);
    assert(ad * bd > 0) by (nonlinear_arith)
        requires
            ad > 0,
            bd > 0,
    ;
    Rat::lemma_of(an * bd + bn * ad, ad * bd);
}

proof fn lemma_laid_out_prefix(clips: Seq<Clip>, fps: Fps)
    requires
        laid_out(clips, fps),
        clips.len() > 0,
    ensures
        laid_out(clips.drop_last(), fps),
{
    let rest = clips.drop_last();
    assert forall|k: int| 0 <= k < rest.len() implies (#[trigger] rest[k]).start.secs.num >= 0
        && a_frame_later(rest[k].spec_end(), rest[k].start, fps) by {
        assert(rest[k] == clips[k]);
    }
    assert forall|k: int, l: int| 0 <= k < l < rest.len() implies (#[trigger] rest[k]).spec_end().le(
        (#[trigger] rest[l]).start,
    ) by {
        assert(rest[k] == clips[k] && rest[l] == clips[l]);
    }
}

/// Clips that are laid out stand on the frames nearest to where they start and end on the
/// timeline, and read from the frame nearest to their source in-point.
pub proof fn law_clips_stand_on_their_nearest_frames(clips: Seq<Clip>, fps: Fps, i: int)
    requires
        fps.wf(),
        on_grid(clips, fps),
        laid_out(clips, fps),
        0 <= i < entries_of(clips, fps).len(),
        entries_of(clips, fps)[i] is Clip,
    ensures
        ({
            let placed = entries_of(clips, fps)[i]->Clip_0;
            &&& nearest_frame(placed.clip.start, fps, placed.start as int)
            &&& nearest_frame(placed.clip.spec_end(), fps, placed.start + placed.frames)
            &&& nearest_frame(placed.clip.source_in, fps, placed.source_in as int)
        }),
    decreases clips.len(),
{
    let all = entries_of(clips, fps);
    let rest = clips.drop_last();
    let before = entries_of(rest, fps);
    assert(rest =~= clips.take(clips.len() - 1));
    lemma_on_grid_prefix(clips, fps, clips.len() - 1);
    lemma_cursor_grows(clips, fps, clips.len() - 1);
    lemma_laid_out_prefix(clips, fps);
    if i < before.len() {
        assert(all[i] == before[i]);
        law_clips_stand_on_their_nearest_frames(rest, fps, i);
    } else {
        let last = clips[clips.len() - 1];
        assert(last.wf());
        lemma_end_wf(last);
        lemma_laid_out_cursor(clips, fps);
        law_frames_stand_around_an_instant(last.start, fps);
        law_frames_stand_around_an_instant(last.spec_end(), fps);
        law_frames_stand_around_an_instant(last.source_in, fps);
    }
}

/// The clips that are enabled.
pub open spec fn enabled_clips(clips: Seq<Clip>) -> Seq<Clip> {
    clips.filter(|clip: Clip| clip.enabled)
}

/// Every enabled clip is placed once, in order, and no other is.
pub proof fn law_every_enabled_clip_is_placed(clips: Seq<Clip>, fps: Fps)
    ensures
        placed_in(entries_of(clips, fps)).len() == enabled_clips(clips).len(),
        forall|k: int|
            0 <= k < enabled_clips(clips).len() ==> *(#[trigger] placed_in(
                entries_of(clips, fps),
            )[k]).clip == enabled_clips(clips)[k],
    decreases clips.len(),
{
    reveal(Seq::filter);
    if clips.len() > 0 {
        let rest = clips.drop_last();
        law_every_enabled_clip_is_placed(rest, fps);
        let before = entries_of(rest, fps);
        let cursor = cursor_after(rest, fps);
        let start = start_of_last(clips, fps);
        let reached = if start > cursor {
            before.push(Entry::Blank { frames: (start - cursor) as i64 })
        } else {
            before
        };
        if start > cursor {
            assert(reached.drop_last() =~= before);
        }
        let all = entries_of(clips, fps);
        assert(all.drop_last() =~= reached);
        assert(placed_in(reached) == placed_in(before));
    } else {
        assert(entries_of(clips, fps) =~= seq![]);
    }
}

/// A clip takes up a frame at least, however short it is.
pub proof fn law_no_clip_vanishes(clip: Clip, fps: Fps)
    ensures
        clip_frames(clip, fps) >= 1,
{
}

} // verus!
