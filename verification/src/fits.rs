//! Whether a project's numbers are small enough to count in frames, told before anything is
//! counted.

use crate::edl::{list_fits, listable};
use crate::fcpxml;
use crate::mlt::{asset_fits, clip_speed, in_point};
use crate::mlt_build::{clip_fits, fades_fit};
use crate::mlt_document::{document_fits, markers_fit};
use crate::project::{Asset, Clip, Marker, Project, Sequence, TrackKind};
use crate::rational::{ceiled, lemma_product_positive, lemma_wide, rounded, Rat};
use crate::time::{Fps, Time};
use crate::timeline::{
    cursor_after, lemma_cursor_grows, on_grid, resolve_source, sequence_fits, track_fits, Resource,
    FRAME_LIMIT,
};
use vstd::prelude::*;

verus! {

fn time_ok(at: Time) -> (r: bool)
    ensures
        r == at.wf(),
{
    at.secs.den > 0
}

pub fn fps_ok(fps: Fps) -> (r: bool)
    ensures
        r == fps.wf(),
{
    fps.rate.num > 0 && fps.rate.den > 0
}

/// Whether the nearest frame can be counted with.
pub open spec fn countable(at: Time, fps: Fps) -> bool {
    -FRAME_LIMIT < at.round_frame(fps) < FRAME_LIMIT
}

fn is_countable(at: Time, fps: Fps) -> (r: bool)
    requires
        at.wf(),
        fps.wf(),
    ensures
        r == countable(at, fps),
{
    let frame: i128 = at.wide_frame_round(fps);
    -(FRAME_LIMIT as i128) < frame && frame < FRAME_LIMIT as i128
}

/// Whether every instant of a clip is a number and its end can be stored.
pub fn clip_ok(clip: &Clip) -> (r: bool)
    ensures
        r == clip.wf(),
{
    if !(time_ok(clip.start) && time_ok(clip.duration) && time_ok(clip.source_in)
        && clip.speed.den > 0 && clip.speed.num > 0 && time_ok(clip.fade_in) && time_ok(
        clip.fade_out,
    )) {
        return false;
    }
    let transition = match &clip.transition_in {
        Some(transition) => time_ok(transition.duration),
        None => true,
    };
    transition && clip.start.checked_plus(&clip.duration).is_some()
}

/// Whether the frames that a clip asks for can be counted with.
pub open spec fn clip_on_grid(clip: Clip, fps: Fps) -> bool {
    &&& clip.wf()
    &&& countable(clip.start, fps)
    &&& countable(clip.spec_end(), fps)
    &&& countable(clip.source_in, fps)
}

fn is_on_grid(clip: &Clip, fps: Fps) -> (r: bool)
    requires
        fps.wf(),
    ensures
        r == clip_on_grid(*clip, fps),
{
    clip_ok(clip) && is_countable(clip.start, fps) && is_countable(clip.end(), fps) && is_countable(
        clip.source_in,
        fps,
    )
}

/// Whether a track's clips can be placed.
pub fn grid_ok(clips: &Vec<Clip>, fps: Fps) -> (r: bool)
    requires
        fps.wf(),
    ensures
        r == on_grid(clips@, fps),
{
    let mut cursor: i64 = 0;
    let mut i: usize = 0;
    assert(clips@.take(0) =~= seq![]);
    while i < clips.len()
        invariant
            i <= clips@.len(),
            fps.wf(),
            forall|k: int| 0 <= k < i ==> clip_on_grid(#[trigger] clips@[k], fps),
            cursor == cursor_after(clips@.take(i as int), fps),
            0 <= cursor < FRAME_LIMIT,
        decreases clips@.len() - i,
    {
        let ghost seen = clips@.take(i + 1);
        proof {
            assert(seen.drop_last() =~= clips@.take(i as int));
            assert(seen.last() == clips@[i as int]);
            lemma_cursor_grows(clips@, fps, i + 1);
        }
        if !is_on_grid(&clips[i], fps) {
            assert(!clip_on_grid(clips@[i as int], fps));
            return false;
        }
        let start: i64 = clips[i].start.frame_round(fps);
        let end: i64 = clips[i].end().frame_round(fps);
        let frames: i64 = if end - start >= 1 {
            end - start
        } else {
            1
        };
        let from: i64 = if start >= cursor {
            start
        } else {
            cursor
        };
        assert(from + frames == cursor_after(seen, fps));
        if from + frames >= FRAME_LIMIT {
            return false;
        }
        cursor = from + frames;
        i = i + 1;
    }
    assert(clips@.take(i as int) =~= clips@);
    true
}

/// Whether a sequence's clips can be placed.
pub fn sequence_ok(sequence: &Sequence) -> (r: bool)
    ensures
        r == sequence_fits(*sequence),
{
    if !fps_ok(sequence.fps) {
        return false;
    }
    let tracks = &sequence.tracks;
    let mut t: usize = 0;
    while t < tracks.len()
        invariant
            t <= tracks@.len(),
            sequence.fps.wf(),
            tracks@ == sequence.tracks@,
            forall|k: int| 0 <= k < t ==> track_fits(#[trigger] tracks@[k], sequence.fps),
        decreases tracks@.len() - t,
    {
        if tracks[t].kind != TrackKind::Caption && !grid_ok(&tracks[t].clips, sequence.fps) {
            assert(!track_fits(tracks@[t as int], sequence.fps));
            return false;
        }
        t = t + 1;
    }
    true
}

/// Whether every marker is on a frame.
pub fn markers_ok(markers: &Vec<Marker>, fps: Fps) -> (r: bool)
    requires
        fps.wf(),
    ensures
        r == markers_fit(markers@, fps),
{
    let mut i: usize = 0;
    while i < markers.len()
        invariant
            i <= markers@.len(),
            fps.wf(),
            forall|k: int|
                0 <= k < i ==> (#[trigger] markers@[k]).at.wf() && countable(markers@[k].at, fps),
        decreases markers@.len() - i,
    {
        if !(time_ok(markers[i].at) && is_countable(markers[i].at, fps)) {
            assert(!(markers@[i as int].at.wf() && countable(markers@[i as int].at, fps)));
            return false;
        }
        i = i + 1;
    }
    true
}

fn asset_ok(asset: &Asset, fps: Fps, speed: Option<Rat>) -> (r: bool)
    requires
        fps.wf(),
        speed matches Some(s) ==> s.den > 0 && s.num != 0 && s.num > i64::MIN,
    ensures
        r == asset_fits(*asset, fps, speed),
{
    let duration = asset.probe.duration;
    if !time_ok(duration) {
        return false;
    }
    proof {
        lemma_wide(duration.secs.num as int, fps.rate.num as int);
        lemma_wide(duration.secs.den as int, fps.rate.den as int);
        lemma_product_positive(duration.secs.den as int, fps.rate.den as int);
    }
    let frames: i128 = ceiled(
        (duration.secs.num as i128) * (fps.rate.num as i128),
        (duration.secs.den as i128) * (fps.rate.den as i128),
    );
    if frames <= -(FRAME_LIMIT as i128) || frames >= FRAME_LIMIT as i128 {
        return false;
    }
    let length: i128 = if frames >= 1 {
        frames
    } else {
        1
    };
    match speed {
        None => true,
        Some(speed) => {
            let pace: i128 = if speed.num < 0 {
                -(speed.num as i128)
            } else {
                speed.num as i128
            };
            proof {
                lemma_wide(length as int, speed.den as int);
            }
            ceiled(length * (speed.den as i128), pace) < FRAME_LIMIT as i128
        },
    }
}

fn fades_ok(clip: &Clip, fps: Fps) -> (r: bool)
    requires
        clip.wf(),
        fps.wf(),
    ensures
        r == fades_fit(*clip, fps),
{
    is_countable(clip.fade_in, fps) && is_countable(clip.fade_out, fps)
}

fn in_point_ok(clip: &Clip, fps: Fps, speed: Option<Rat>) -> (r: bool)
    requires
        clip.wf(),
        fps.wf(),
        countable(clip.source_in, fps),
        speed matches Some(s) ==> s.den > 0 && s.num != 0 && s.num > i64::MIN,
    ensures
        r == (in_point(clip.source_in.round_frame(fps), speed) < FRAME_LIMIT),
{
    let at: i64 = clip.source_in.frame_round(fps);
    match speed {
        None => true,
        Some(speed) => {
            let from: i64 = if speed.num < 0 {
                -at
            } else {
                at
            };
            let pace: i128 = if speed.num < 0 {
                -(speed.num as i128)
            } else {
                speed.num as i128
            };
            proof {
                lemma_wide(from as int, speed.den as int);
                assert(-at * speed.den == (-at) * speed.den);
            }
            rounded((from as i128) * (speed.den as i128), pace) < FRAME_LIMIT as i128
        },
    }
}

fn transition_ok(clip: &Clip, fps: Fps) -> (r: bool)
    requires
        clip.wf(),
        fps.wf(),
    ensures
        r == (clip.transition() is Some ==> countable(clip.transition()->0.duration, fps)),
{
    match clip.shown_transition() {
        Some(transition) => is_countable(transition.duration, fps),
        None => true,
    }
}

/// Whether a clip can be laid out with frame numbers.
fn layable(project: &Project, clip: &Clip, fps: Fps) -> (r: bool)
    requires
        fps.wf(),
        countable(clip.source_in, fps),
    ensures
        r == clip_fits(*project, *clip, fps),
{
    if !clip_ok(clip) {
        return false;
    }
    let speed = clip_speed(clip);
    if !(fades_ok(clip, fps) && in_point_ok(clip, fps, speed) && transition_ok(clip, fps)) {
        return false;
    }
    match resolve_source(project, clip) {
        Ok((Resource::File { asset }, _)) => asset_ok(asset, fps, speed),
        _ => true,
    }
}

/// Whether a clip can be laid out as FCPXML.
fn measured_ok(project: &Project, clip: &Clip, fps: Fps) -> (r: bool)
    requires
        fps.wf(),
    ensures
        r == fcpxml::clip_fits(*project, *clip, fps),
{
    match resolve_source(project, clip) {
        Ok((Resource::File { asset }, _)) => asset_ok(asset, fps, None)
            && match &asset.probe.video {
            Some(stream) => stream.sar.den > 0,
            None => true,
        },
        _ => true,
    }
}

fn list_clip_ok(clip: &Clip, fps: Fps) -> (r: bool)
    requires
        clip.wf(),
        fps.wf(),
    ensures
        r == listable(*clip, fps),
{
    transition_ok(clip, fps)
}

/// Whether a sequence can be written as MLT.
pub fn can_write_mlt(project: &Project, sequence: &Sequence) -> (r: bool)
    ensures
        r == document_fits(*project, *sequence),
{
    if !sequence_ok(sequence) || !markers_ok(&sequence.markers, sequence.fps) {
        return false;
    }
    let fps = sequence.fps;
    let tracks = &sequence.tracks;
    let mut t: usize = 0;
    while t < tracks.len()
        invariant
            t <= tracks@.len(),
            tracks@ == sequence.tracks@,
            fps == sequence.fps,
            sequence_fits(*sequence),
            forall|i: int, k: int|
                0 <= i < t && tracks@[i].kind != TrackKind::Caption && 0 <= k
                    < tracks@[i].clips@.len() ==> clip_fits(
                    *project,
                    #[trigger] tracks@[i].clips@[k],
                    fps,
                ),
        decreases tracks@.len() - t,
    {
        if tracks[t].kind != TrackKind::Caption {
            let clips = &tracks[t].clips;
            assert(track_fits(sequence.tracks@[t as int], fps));
            let mut c: usize = 0;
            while c < clips.len()
                invariant
                    t < tracks@.len(),
                    c <= clips@.len(),
                    clips@ == tracks@[t as int].clips@,
                    tracks@ == sequence.tracks@,
                    tracks@[t as int].kind != TrackKind::Caption,
                    fps == sequence.fps,
                    fps.wf(),
                    on_grid(clips@, fps),
                    forall|k: int| 0 <= k < c ==> clip_fits(*project, #[trigger] clips@[k], fps),
                decreases clips@.len() - c,
            {
                assert(clips@[c as int].wf());
                if !layable(project, &clips[c], fps) {
                    assert(!clip_fits(*project, sequence.tracks@[t as int].clips@[c as int], fps));
                    return false;
                }
                c = c + 1;
            }
        }
        t = t + 1;
    }
    true
}

/// Whether a sequence can be written as FCPXML or OpenTimelineIO.
pub fn can_write_fcpxml(project: &Project, sequence: &Sequence) -> (r: bool)
    ensures
        r == fcpxml::document_fits(*project, *sequence),
{
    if !sequence_ok(sequence) {
        return false;
    }
    let fps = sequence.fps;
    let tracks = &sequence.tracks;
    let mut t: usize = 0;
    while t < tracks.len()
        invariant
            t <= tracks@.len(),
            tracks@ == sequence.tracks@,
            fps == sequence.fps,
            sequence_fits(*sequence),
            forall|i: int, k: int|
                0 <= i < t && tracks@[i].kind != TrackKind::Caption && 0 <= k
                    < tracks@[i].clips@.len() ==> fcpxml::clip_fits(
                    *project,
                    #[trigger] tracks@[i].clips@[k],
                    fps,
                ),
        decreases tracks@.len() - t,
    {
        if tracks[t].kind != TrackKind::Caption {
            let clips = &tracks[t].clips;
            let mut c: usize = 0;
            while c < clips.len()
                invariant
                    t < tracks@.len(),
                    c <= clips@.len(),
                    clips@ == tracks@[t as int].clips@,
                    tracks@ == sequence.tracks@,
                    tracks@[t as int].kind != TrackKind::Caption,
                    fps == sequence.fps,
                    fps.wf(),
                    forall|k: int|
                        0 <= k < c ==> fcpxml::clip_fits(*project, #[trigger] clips@[k], fps),
                decreases clips@.len() - c,
            {
                if !measured_ok(project, &clips[c], fps) {
                    assert(!fcpxml::clip_fits(
                        *project,
                        sequence.tracks@[t as int].clips@[c as int],
                        fps,
                    ));
                    return false;
                }
                c = c + 1;
            }
        }
        t = t + 1;
    }
    true
}

/// Whether a sequence can be written as an edit decision list.
pub fn can_write_edl(sequence: &Sequence) -> (r: bool)
    ensures
        r == list_fits(*sequence),
{
    if !sequence_ok(sequence) {
        return false;
    }
    let fps = sequence.fps;
    let tracks = &sequence.tracks;
    let mut t: usize = 0;
    while t < tracks.len()
        invariant
            t <= tracks@.len(),
            tracks@ == sequence.tracks@,
            fps == sequence.fps,
            sequence_fits(*sequence),
            forall|i: int, k: int|
                0 <= i < t && tracks@[i].kind != TrackKind::Caption && 0 <= k
                    < tracks@[i].clips@.len() ==> listable(
                    #[trigger] tracks@[i].clips@[k],
                    fps,
                ),
        decreases tracks@.len() - t,
    {
        if tracks[t].kind != TrackKind::Caption {
            let clips = &tracks[t].clips;
            assert(track_fits(sequence.tracks@[t as int], fps));
            let mut c: usize = 0;
            while c < clips.len()
                invariant
                    t < tracks@.len(),
                    c <= clips@.len(),
                    clips@ == tracks@[t as int].clips@,
                    tracks@ == sequence.tracks@,
                    tracks@[t as int].kind != TrackKind::Caption,
                    fps == sequence.fps,
                    fps.wf(),
                    on_grid(clips@, fps),
                    forall|k: int| 0 <= k < c ==> listable(#[trigger] clips@[k], fps),
                decreases clips@.len() - c,
            {
                assert(clips@[c as int].wf());
                if !list_clip_ok(&clips[c], fps) {
                    assert(!listable(sequence.tracks@[t as int].clips@[c as int], fps));
                    return false;
                }
                c = c + 1;
            }
        }
        t = t + 1;
    }
    true
}

} // verus!
