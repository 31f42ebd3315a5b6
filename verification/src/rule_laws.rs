//! When each rule of a check speaks, in terms of what it looks at.

use crate::finding::Severity;
use crate::lint_caption::{
    both_shown, cue_findings, line_limit, rate_fits, rate_limit, read_chars, style_of, too_fast,
    too_long,
};
use crate::lint_link::{
    apart, asset_state, clip_named, clip_needs, drift, is_referenced, link_finding, link_fits,
};
use crate::lint_source::{
    available, bars, blow_up, clip_stream, fills, frame_area, is_blown_up, is_letterboxed, off_rate,
    past_end, slow, source_end, source_end_fits, speed_fits, varying, Placement,
};
use crate::lint_timeline::{
    gap_findings, overlap_findings, touches_previous, transition_finding, transition_findings,
};
use crate::lint_title::{
    contrast_finding, font_finding, overflows, place_finding, text_findings, tiny_finding,
    PlacedText,
};
use crate::project::{Asset, CaptionCue, Clip, Project, Sequence, Track, VideoStream};
use crate::rational::{round_half_away, Rat};
use crate::sound_laws::tells;
use crate::text::{is_white, lines, text_before};
use crate::time::{Span, Time};
use crate::time_laws::{law_rounding_gives_the_nearest, same_time};
use crate::timeline::clip_asset;
use vstd::prelude::*;

verus! {

// ---------------------------------------------------------------------------
// The timeline
// ---------------------------------------------------------------------------

/// A clip that starts before the one in front of it ends is told as an error, by as much as the two
/// overlap.
pub proof fn law_every_overlap_is_told(track: Track, n: int, i: int) -> (j: int)
    requires
        0 < i < n <= track.clips@.len(),
        track.clips@[i].start.lt(track.clips@[i - 1].start.spec_plus(track.clips@[i - 1].duration)),
    ensures
        0 <= j < overlap_findings(track, n).len(),
        overlap_findings(track, n)[j].rule == "overlap"@,
        overlap_findings(track, n)[j].severity == Severity::Error,
        overlap_findings(track, n)[j].target == track.clips@[i].id@,
        overlap_findings(track, n)[j].value == Some(
            track.clips@[i - 1].start.spec_plus(track.clips@[i - 1].duration).spec_minus(
                track.clips@[i].start,
            ).secs,
        ),
    decreases n,
{
    if i < n - 1 {
        let j = law_every_overlap_is_told(track, n - 1, i);
        assert(overlap_findings(track, n)[j] == overlap_findings(track, n - 1)[j]);
        j
    } else {
        overlap_findings(track, n).len() - 1
    }
}

/// An overlap is told only of a clip that starts before the one in front of it ends.
pub proof fn law_only_overlaps_are_told(track: Track, n: int, j: int) -> (i: int)
    requires
        n <= track.clips@.len(),
        0 <= j < overlap_findings(track, n).len(),
    ensures
        0 < i < n,
        overlap_findings(track, n)[j].target == track.clips@[i].id@,
        track.clips@[i].start.lt(track.clips@[i - 1].start.spec_plus(track.clips@[i - 1].duration)),
    decreases n,
{
    if j < overlap_findings(track, n - 1).len() {
        law_only_overlaps_are_told(track, n - 1, j)
    } else {
        n - 1
    }
}

/// Every hole is told of its track, with its length.
pub proof fn law_every_hole_is_told(track: Track, holes: Seq<Span>, i: int)
    requires
        0 <= i < holes.len(),
    ensures
        gap_findings(track, holes).len() == holes.len(),
        gap_findings(track, holes)[i].rule == "gap"@,
        gap_findings(track, holes)[i].severity == Severity::Warning,
        gap_findings(track, holes)[i].target == track.id@,
        gap_findings(track, holes)[i].value == Some(
            holes[i].end.spec_minus(holes[i].start).secs,
        ),
{
}

/// A transition into a clip is an orphan exactly if nothing touches the clip before it, or if the
/// transition is longer than one of the two clips.
pub proof fn law_orphan_transitions_are_told(clips: Seq<Clip>, i: int)
    requires
        0 <= i < clips.len(),
        forall|k: int| 0 <= k < clips.len() ==> (#[trigger] clips[k]).wf(),
    ensures
        transition_finding(clips, i) is Some <==> (clips[i].transition_in matches Some(t) && (i == 0
            || !same_time(clips[i - 1].start.spec_plus(clips[i - 1].duration), clips[i].start)
            || clips[i].duration.lt(t.duration) || clips[i - 1].duration.lt(t.duration))),
        transition_finding(clips, i) matches Some(found) ==> found.rule == "orphan-transition"@
            && found.target == clips[i].id@,
{
    if let Some(t) = clips[i].transition_in {
        if i > 0 {
            let end = clips[i - 1].start.spec_plus(clips[i - 1].duration);
            assert(touches_previous(clips, i) <==> same_time(end, clips[i].start));
            let (a, b) = (clips[i], clips[i - 1]);
            assert(a.wf() && b.wf());
            let shortest = a.duration.spec_min(b.duration);
            if a.duration.lt(t.duration) && !shortest.lt(t.duration) {
                lemma_lt_trans(b.duration, a.duration, t.duration);
            }
            if b.duration.lt(t.duration) && !shortest.lt(t.duration) {
                lemma_le_lt(a.duration, b.duration, t.duration);
            }
        }
    }
}

proof fn lemma_lt_trans(a: Time, b: Time, c: Time)
    requires
        a.wf(),
        b.wf(),
        c.wf(),
        a.lt(b),
        b.lt(c),
    ensures
        a.lt(c),
{
    let (p, q, r) = (a.secs, b.secs, c.secs);
    assert(p.num * r.den < r.num * p.den) by (nonlinear_arith)
        requires
            p.num * q.den < q.num * p.den,
            q.num * r.den < r.num * q.den,
            p.den > 0,
            q.den > 0,
            r.den > 0,
    ;
}

proof fn lemma_le_lt(a: Time, b: Time, c: Time)
    requires
        a.wf(),
        b.wf(),
        c.wf(),
        !b.lt(a),
        b.lt(c),
    ensures
        a.lt(c),
{
    let (p, q, r) = (a.secs, b.secs, c.secs);
    assert(p.num * r.den < r.num * p.den) by (nonlinear_arith)
        requires
            p.num * q.den <= q.num * p.den,
            q.num * r.den < r.num * q.den,
            p.den > 0,
            q.den > 0,
            r.den > 0,
    ;
}

/// Every orphan among the transitions is told.
pub proof fn law_every_orphan_is_told(clips: Seq<Clip>, n: int, i: int) -> (j: int)
    requires
        0 <= i < n <= clips.len(),
        transition_finding(clips, i) is Some,
    ensures
        0 <= j < transition_findings(clips, n).len(),
        transition_findings(clips, n)[j] == transition_finding(clips, i)->0,
    decreases n,
{
    if i < n - 1 {
        let j = law_every_orphan_is_told(clips, n - 1, i);
        assert(transition_findings(clips, n)[j] == transition_findings(clips, n - 1)[j]);
        j
    } else {
        transition_findings(clips, n).len() - 1
    }
}

// ---------------------------------------------------------------------------
// Sources
// ---------------------------------------------------------------------------

/// A clip reads its source from its in-point on, for its length times its speed.
pub proof fn law_a_clip_reads_for_its_length_times_its_speed(clip: Clip)
    requires
        clip.wf(),
        source_end_fits(clip),
    ensures
        ({
            let (a, d, s) = (clip.source_in.secs, clip.duration.secs, clip.speed);
            let end = source_end(clip).secs;
            end.den > 0 && (end.num * a.den - a.num * end.den) * (d.den * s.den) == (d.num * s.num)
                * (a.den * end.den)
        }),
{
    let (a, d, s) = (clip.source_in.secs, clip.duration.secs, clip.speed);
    assert(d.den * s.den > 0) by (nonlinear_arith)
        requires
            d.den > 0,
            s.den > 0,
    ;
    Rat::lemma_of(d.num * s.num, d.den * s.den);
    let read = clip.duration.spec_times(clip.speed).secs;
    assert(a.den * read.den > 0) by (nonlinear_arith)
        requires
            a.den > 0,
            read.den > 0,
    ;
    Rat::lemma_of(a.num * read.den + read.num * a.den, a.den * read.den);
    let end = source_end(clip).secs;
    let (x, y) = (d.num * s.num, d.den * s.den);
    let gap = end.num * a.den - a.num * end.den;
    // end = a + read, and read = x / y.
    assert(end.num * (a.den * read.den) == (a.num * read.den + read.num * a.den) * end.den);
    assert(read.num * y == x * read.den);
    assert(end.num * (a.den * read.den) == (end.num * a.den) * read.den) by (nonlinear_arith);
    assert((a.num * read.den + read.num * a.den) * end.den == (a.num * end.den) * read.den
        + read.num * (a.den * end.den)) by (nonlinear_arith);
    assert(gap * read.den == read.num * (a.den * end.den)) by (nonlinear_arith)
        requires
            gap == end.num * a.den - a.num * end.den,
            (end.num * a.den) * read.den == (a.num * end.den) * read.den + read.num * (a.den
                * end.den),
    ;
    let w = a.den * end.den;
    assert((gap * y) * read.den == (x * w) * read.den) by (nonlinear_arith)
        requires
            gap * read.den == read.num * w,
            read.num * y == x * read.den,
    ;
    assert(gap * y == x * w) by (nonlinear_arith)
        requires
            (gap * y) * read.den == (x * w) * read.den,
            read.den > 0,
    ;
}

/// A clip is told as an error exactly if it reads on behind the end of a source that has one.
pub proof fn law_reading_past_the_end_is_told(project: Project, clip: Clip)
    ensures
        past_end(project, clip) is Some <==> (available(project, clip.source) matches Some(there)
            && there.lt(source_end(clip))),
        past_end(project, clip) matches Some(found) ==> found.rule == "past-source-end"@
            && found.severity == Severity::Error && found.target == clip.id@ && found.required
            == Some(available(project, clip.source)->0.secs) && found.value == Some(
            source_end(clip).secs,
        ),
{
    reveal(past_end);
}

/// Frames repeat, and that is told, exactly if the source gives fewer frames in a second of the
/// timeline than the sequence shows.
pub proof fn law_repeated_frames_are_told(
    project: Project,
    sequence: Sequence,
    clip: Clip,
    stream: VideoStream,
)
    requires
        clip.wf(),
        sequence.fps.wf(),
        stream.fps.wf(),
        clip_stream(project, clip) == Some(stream),
        speed_fits(clip, stream.fps, sequence.fps),
    ensures
        slow(project, sequence, clip) is Some <==> (clip.speed.num * stream.fps.rate.num)
            * sequence.fps.rate.den < sequence.fps.rate.num * (clip.speed.den
            * stream.fps.rate.den),
{
    reveal(slow);
    let (p, q) = (
        clip.speed.num * stream.fps.rate.num,
        clip.speed.den * stream.fps.rate.den,
    );
    let (u, v) = (sequence.fps.rate.num as int, sequence.fps.rate.den as int);
    assert(q > 0) by (nonlinear_arith)
        requires
            clip.speed.den > 0,
            stream.fps.rate.den > 0,
            q == clip.speed.den * stream.fps.rate.den,
    ;
    Rat::lemma_of(p, q);
    let read = Rat::of(p, q);
    assert(read.den * u > 0) by (nonlinear_arith)
        requires
            read.den > 0,
            u > 0,
    ;
    Rat::lemma_of(read.num * v, read.den * u);
    let r = Rat::of(read.num * v, read.den * u);
    // r = (p * v) / (q * u).
    let (n, d) = (read.num as int, read.den as int);
    assert(r.num * (d * u) == (n * v) * r.den);
    assert(n * q == p * d);
    assert((r.num * (q * u)) * d == (r.num * (d * u)) * q) by (nonlinear_arith);
    assert(((n * v) * r.den) * q == (n * q) * (v * r.den)) by (nonlinear_arith);
    assert((p * d) * (v * r.den) == ((p * v) * r.den) * d) by (nonlinear_arith);
    assert(r.num * (q * u) == (p * v) * r.den) by (nonlinear_arith)
        requires
            (r.num * (q * u)) * d == ((p * v) * r.den) * d,
            d > 0,
    ;
    let (top, bottom) = (p * v, u * q);
    assert(q * u == bottom) by (nonlinear_arith)
        requires
            bottom == u * q,
    ;
    assert(bottom > 0) by (nonlinear_arith)
        requires
            u > 0,
            q > 0,
            bottom == u * q,
    ;
    assert(r.num < r.den <==> top < bottom) by (nonlinear_arith)
        requires
            r.num * bottom == top * r.den,
            bottom > 0,
            r.den > 0,
    ;
}

/// A source at another rate than the sequence is told, at whichever it is; one at the same rate is
/// not, however the rate is written.
pub proof fn law_another_frame_rate_is_told(
    project: Project,
    sequence: Sequence,
    clip: Clip,
    stream: VideoStream,
)
    requires
        clip_stream(project, clip) == Some(stream),
    ensures
        off_rate(project, sequence, clip) is Some <==> stream.fps.rate.num * sequence.fps.rate.den
            != sequence.fps.rate.num * stream.fps.rate.den,
        off_rate(project, sequence, clip) matches Some(found) ==> found.rule == "fps-mismatch"@
            && found.value == Some(stream.fps.rate) && found.required == Some(sequence.fps.rate),
{
}

/// A source of varying rate is told unless it has a proxy.
pub proof fn law_a_varying_rate_is_told(project: Project, clip: Clip, asset: Asset)
    requires
        clip_asset(project, clip) == Some(asset),
    ensures
        varying(project, clip) is Some <==> asset.probe.vfr && asset.proxy is None,
        varying(project, clip) matches Some(found) ==> found.rule == "vfr-source"@
            && found.severity == Severity::Warning,
{
}

/// A picture is blown up exactly if it is shown more than two percent wider than it is, and by as
/// much as it is told. Sizes in the frame are in millionths of a pixel.
pub proof fn law_blown_up_pictures_are_told(place: Placement, native: [u32; 2])
    requires
        place.width >= 0,
        native@[0] > 0,
    ensures
        is_blown_up(place, native) <==> 50 * place.width > 51 * native@[0] * 1_000_000,
        place.width <= native@[0] * 1_000_000 ==> !is_blown_up(place, native),
        blow_up(place, native).num * (native@[0] * 1_000_000) == place.width * blow_up(
            place,
            native,
        ).den,
{
    crate::time::lemma_small_fits(place.width as int, native@[0] * 1_000_000);
    Rat::lemma_of(place.width as int, native@[0] * 1_000_000);
}

/// A picture has bars only if it is to be contained, has another shape than the frame, and reaches
/// across it one way or the other.
pub proof fn law_bars_are_told_where_shapes_differ(
    clip: Clip,
    native: [u32; 2],
    frame: [u32; 2],
    place: Placement,
)
    requires
        native@[1] > 0,
        frame@[0] > 0,
        frame@[1] > 0,
    ensures
        native@[0] * frame@[1] == frame@[0] * native@[1] ==> !is_letterboxed(
            clip,
            native,
            frame,
            place,
        ),
        clip.fit@ != "contain"@ ==> !is_letterboxed(clip, native, frame, place),
        place.width * 100 < frame@[0] * 99_000_000 && place.height * 100 < frame@[1] * 99_000_000
            ==> !is_letterboxed(clip, native, frame, place),
        // Three to two in a frame of sixteen to nine, and the like: more than a hundredth off.
        clip.fit@ == "contain"@ && (100 * (native@[0] * frame@[1]) > 101 * (frame@[0] * native@[1])
            || 100 * (native@[0] * frame@[1]) < 99 * (frame@[0] * native@[1])) && (place.width
            == frame@[0] * 1_000_000 || place.height == frame@[1] * 1_000_000) ==> is_letterboxed(
            clip,
            native,
            frame,
            place,
        ),
{
    let (a, b, c, d) = (
        native@[0] as int,
        native@[1] as int,
        frame@[0] as int,
        frame@[1] as int,
    );
    assert(b * c == c * b) by (nonlinear_arith);
    assert(c * b > 0) by (nonlinear_arith)
        requires
            c > 0,
            b > 0,
    ;
}

/// A picture inside the frame leaves between nothing and all of it bare, and one that fills the
/// frame leaves nothing.
pub proof fn law_bars_are_a_share_of_the_frame(place: Placement, frame: [u32; 2])
    requires
        frame@[0] > 0,
        frame@[1] > 0,
        0 <= place.width <= frame@[0] * 1_000_000,
        0 <= place.height <= frame@[1] * 1_000_000,
    ensures
        0 <= bars(place, frame) <= 1_000_000,
        place.width == frame@[0] * 1_000_000 && place.height == frame@[1] * 1_000_000 ==> bars(
            place,
            frame,
        ) == 0,
        place.width == 0 ==> bars(place, frame) == 1_000_000,
{
    let (w, h) = (frame@[0] as int, frame@[1] as int);
    let (x, y) = (place.width as int, place.height as int);
    let area = frame_area(frame);
    assert(w * h >= 1) by (nonlinear_arith)
        requires
            w >= 1,
            h >= 1,
    ;
    assert(area == w * h * 1_000_000_000_000);
    assert(0 <= x * y <= area) by (nonlinear_arith)
        requires
            0 <= x <= w * 1_000_000,
            0 <= y <= h * 1_000_000,
            area == w * h * 1_000_000_000_000,
            w > 0,
            h > 0,
    ;
    assert(x == w * 1_000_000 && y == h * 1_000_000 ==> x * y == area) by (nonlinear_arith)
        requires
            area == w * h * 1_000_000_000_000,
    ;
    assert(x == 0 ==> x * y == 0) by (nonlinear_arith);
    let bare = area - x * y;
    law_rounding_gives_the_nearest(bare * 1_000_000, area);
    let r = round_half_away(bare * 1_000_000, area);
    assert(0 <= r <= 1_000_000) by (nonlinear_arith)
        requires
            -area <= 2 * (bare * 1_000_000 - r * area) <= area,
            0 <= bare <= area,
            area > 0,
    ;
    assert(bare == 0 ==> r == 0) by (nonlinear_arith)
        requires
            -area <= 2 * (bare * 1_000_000 - r * area) <= area,
            area > 0,
    ;
    assert(bare == area ==> r == 1_000_000) by (nonlinear_arith)
        requires
            -area <= 2 * (bare * 1_000_000 - r * area) <= area,
            area > 0,
    ;
}

// ---------------------------------------------------------------------------
// Links and the store
// ---------------------------------------------------------------------------

/// A linked clip whose partner is gone is told; one whose partner is there is told by the one of
/// the two that comes first by its id, exactly if they start or last differently.
pub proof fn law_linked_clips_that_differ_are_told(clips: Seq<Clip>, clip: Clip, link: Seq<char>)
    requires
        clip.link matches Some(id) && id@ == link,
        clip.wf(),
        link_fits(clips, clip),
    ensures
        clip_named(clips, link) is None ==> link_finding(clips, clip) is Some,
        clip_named(clips, link) matches Some(other) ==> (link_finding(clips, clip) is Some
            <==> !text_before(other.id@, clip.id@) && (!same_time(clip.start, other.start)
            || !same_time(clip.duration, other.duration))),
        link_finding(clips, clip) matches Some(found) ==> found.rule == "av-drift"@ && found.target
            == clip.id@,
{
    reveal(link_finding);
    if let Some(other) = clip_named(clips, link) {
        lemma_apart(clip.start, other.start);
        lemma_apart(clip.duration, other.duration);
        let (a, b) = (apart(clip.start, other.start), apart(clip.duration, other.duration));
        let most = drift(clip, other);
        assert(most == a || most == b);
        if a.secs.num > 0 && most == b && most != a {
            assert(!b.lt(a));
            assert(b.secs.num > 0) by (nonlinear_arith)
                requires
                    a.secs.num * b.secs.den <= b.secs.num * a.secs.den,
                    a.secs.num > 0,
                    a.secs.den > 0,
                    b.secs.den > 0,
            ;
        }
        if b.secs.num > 0 && most == a && most != b {
            assert(b.lt(a));
            assert(a.secs.num > 0) by (nonlinear_arith)
                requires
                    b.secs.num * a.secs.den < a.secs.num * b.secs.den,
                    b.secs.num > 0,
                    a.secs.den > 0,
                    b.secs.den > 0,
            ;
        }
    }
}

proof fn lemma_apart(a: Time, b: Time)
    requires
        a.wf(),
        b.wf(),
        crate::lint_link::apart_fits(a, b),
    ensures
        apart(a, b).wf(),
        apart(a, b).secs.num >= 0,
        apart(a, b).secs.num == 0 <==> same_time(a, b),
{
    let (x, y) = if a.lt(b) {
        (b.secs, a.secs)
    } else {
        (a.secs, b.secs)
    };
    let d = x.den * y.den;
    assert(d > 0) by (nonlinear_arith)
        requires
            x.den > 0,
            y.den > 0,
            d == x.den * y.den,
    ;
    let n = x.num * y.den - y.num * x.den;
    Rat::lemma_of(n, d);
    let r = Rat::of(n, d);
    assert(r.num >= 0 && (r.num == 0 <==> n == 0)) by (nonlinear_arith)
        requires
            r.num * d == n * r.den,
            n >= 0,
            d > 0,
            r.den > 0,
    ;
}

/// What the store holds of an asset is told: an error where its file is gone, a note where no clip and
/// no effect in any sequence uses it, a warning where its proxy is of no use.
pub proof fn law_the_state_of_an_asset_is_told(project: Project, asset: Asset)
    ensures
        tells(asset_state(project, asset), "missing-asset"@) <==> asset.path is None,
        tells(asset_state(project, asset), "unreferenced-asset"@) <==> !(exists|
            s: int,
            t: int,
            c: int,
        |
            #![trigger project.sequences@[s].tracks@[t].clips@[c]]
            0 <= s < project.sequences@.len() && 0 <= t < project.sequences@[s].tracks@.len() && 0
                <= c < project.sequences@[s].tracks@[t].clips@.len() && clip_needs(
                project.sequences@[s].tracks@[t].clips@[c],
                asset.id@,
            )),
        tells(asset_state(project, asset), "stale-proxy"@) <==> asset.proxy is Some
            && !asset.proxy_usable,
{
    reveal_strlit("missing-asset");
    reveal_strlit("unreferenced-asset");
    reveal_strlit("stale-proxy");
    assert("missing-asset"@.len() == 13);
    assert("unreferenced-asset"@.len() == 18);
    assert("stale-proxy"@.len() == 11);
    let all = asset_state(project, asset);
    let used = is_referenced(project, asset.id@);
    let a: int = if asset.path is None {
        1
    } else {
        0
    };
    let b: int = if !used {
        1
    } else {
        0
    };
    if asset.path is None {
        assert(all[0].rule == "missing-asset"@);
    }
    if !used {
        assert(all[a].rule == "unreferenced-asset"@);
    }
    if asset.proxy is Some && !asset.proxy_usable {
        assert(all[a + b].rule == "stale-proxy"@);
    }
    if used {
        let s = choose|s: int|
            0 <= s < project.sequences@.len() && crate::lint_link::tracks_need(
                (#[trigger] project.sequences@[s]).tracks@,
                asset.id@,
            );
        let tracks = project.sequences@[s].tracks@;
        let t = choose|t: int|
            0 <= t < tracks.len() && crate::lint_link::clips_need(
                (#[trigger] tracks[t]).clips@,
                asset.id@,
            );
        let clips = tracks[t].clips@;
        let c = choose|c: int| 0 <= c < clips.len() && clip_needs(#[trigger] clips[c], asset.id@);
        assert(clip_needs(project.sequences@[s].tracks@[t].clips@[c], asset.id@));
    } else {
        assert forall|s: int, t: int, c: int|
            #![trigger project.sequences@[s].tracks@[t].clips@[c]]
            0 <= s < project.sequences@.len() && 0 <= t < project.sequences@[s].tracks@.len() && 0
                <= c < project.sequences@[s].tracks@[t].clips@.len() implies !clip_needs(
            project.sequences@[s].tracks@[t].clips@[c],
            asset.id@,
        ) by {
            assert(!crate::lint_link::tracks_need(project.sequences@[s].tracks@, asset.id@));
            assert(!crate::lint_link::clips_need(
                project.sequences@[s].tracks@[t].clips@,
                asset.id@,
            ));
        }
    }
}

// ---------------------------------------------------------------------------
// Captions
// ---------------------------------------------------------------------------

/// A cue is too fast exactly if it has more characters to be read than its limit allows in its time;
/// one without any time is, unless it has nothing to be read.
pub proof fn law_cues_that_cannot_be_read_are_told(project: Project, track: Track, cue: CaptionCue)
    requires
        rate_fits(cue),
        rate_limit(project, track, cue).den > 0,
    ensures
        ({
            let length = cue.span.end.spec_minus(cue.span.start).secs;
            let limit = rate_limit(project, track, cue);
            &&& length.num > 0 ==> (too_fast(project, track, cue) is Some <==> read_chars(
                cue.text@,
            ) * length.den * limit.den > limit.num * length.num)
            &&& length.num <= 0 ==> (too_fast(project, track, cue) is Some <==> read_chars(
                cue.text@,
            ) > 0)
        }),
        style_of(project, track, cue) is None ==> rate_limit(project, track, cue) == (Rat {
            num: 20,
            den: 1,
        }) && line_limit(project, track, cue) == 2,
        style_of(project, track, cue) matches Some(style) ==> rate_limit(project, track, cue)
            == style.max_cps && line_limit(project, track, cue) == style.max_lines,
{
    let length = cue.span.length().secs;
    let limit = rate_limit(project, track, cue);
    if length.num > 0 {
        let (n, d) = (read_chars(cue.text@) * length.den, length.num as int);
        Rat::lemma_of(n, d);
        let rate = Rat::of(n, d);
        assert(limit.num * rate.den < rate.num * limit.den <==> limit.num * d < n * limit.den)
            by (nonlinear_arith)
            requires
                rate.num * d == n * rate.den,
                d > 0,
                rate.den > 0,
                limit.den > 0,
        ;
    }
}

/// A character counts towards what is to be read exactly if it is not white space.
pub proof fn law_white_space_is_not_read(text: Seq<char>, c: char)
    ensures
        is_white(c) ==> read_chars(text.push(c)) == read_chars(text),
        !is_white(c) ==> read_chars(text.push(c)) == read_chars(text) + 1,
        read_chars(Seq::<char>::empty()) == 0,
{
    assert(text.push(c).drop_last() =~= text);
}

/// A cue has too many lines exactly if it has more than its limit.
pub proof fn law_cues_with_too_many_lines_are_told(project: Project, track: Track, cue: CaptionCue)
    ensures
        too_long(project, track, cue) is Some <==> lines(cue.text@).len() > line_limit(
            project,
            track,
            cue,
        ),
        too_long(project, track, cue) matches Some(found) ==> found.rule == "caption-too-long"@
            && found.target == cue.id@,
{
}

/// Two cues in a row are both on screen, which is an error, exactly if the second starts before the
/// first ends; by as much as it does.
pub proof fn law_cues_on_screen_together_are_told(previous: CaptionCue, cue: CaptionCue)
    ensures
        both_shown(previous, cue) is Some <==> cue.span.start.lt(previous.span.end),
        both_shown(previous, cue) matches Some(found) ==> found.rule == "caption-overlap"@
            && found.severity == Severity::Error && found.target == cue.id@ && found.value == Some(
            previous.span.end.spec_minus(cue.span.start).secs,
        ),
{
}

/// Every cue is held to all three rules, the first one of a track to the overlap with none.
pub proof fn law_every_cue_is_held_to_every_rule(project: Project, track: Track, i: int)
    requires
        0 <= i < track.cues@.len(),
    ensures
        tells(cue_findings(project, track, i), "caption-too-fast"@) <==> too_fast(
            project,
            track,
            track.cues@[i],
        ) is Some,
        tells(cue_findings(project, track, i), "caption-too-long"@) <==> too_long(
            project,
            track,
            track.cues@[i],
        ) is Some,
        tells(cue_findings(project, track, i), "caption-overlap"@) <==> i > 0
            && track.cues@[i].span.start.lt(track.cues@[i - 1].span.end),
{
    reveal_strlit("caption-too-fast");
    reveal_strlit("caption-too-long");
    reveal_strlit("caption-overlap");
    assert("caption-too-fast"@[12] == 'f');
    assert("caption-too-long"@[12] == 'l');
    assert("caption-overlap"@.len() == 15);
    assert("caption-too-fast"@.len() == 16);
    assert("caption-too-long"@.len() == 16);
    let cue = track.cues@[i];
    let all = cue_findings(project, track, i);
    let a: int = if too_fast(project, track, cue) is Some {
        1
    } else {
        0
    };
    let b: int = if too_long(project, track, cue) is Some {
        1
    } else {
        0
    };
    if a == 1 {
        assert(all[0].rule == "caption-too-fast"@);
    }
    if b == 1 {
        assert(all[a].rule == "caption-too-long"@);
    }
    if i > 0 && both_shown(track.cues@[i - 1], cue) is Some {
        assert(all[a + b].rule == "caption-overlap"@);
    }
}

// ---------------------------------------------------------------------------
// Titles
// ---------------------------------------------------------------------------

/// Text overflows exactly if one of its edges is more than half a pixel outside the frame.
pub proof fn law_text_overflows_past_half_a_pixel(clip: Seq<char>, text: PlacedText, frame: [u32; 2])
    ensures
        (place_finding(clip, text, frame) matches Some(found) && found.rule == "title-overflow"@)
            <==> 2 * text.x < -1_000_000 || 2 * text.y < -1_000_000 || 2 * (text.x + text.w)
            > 2_000_000 * frame@[0] + 1_000_000 || 2 * (text.y + text.h) > 2_000_000 * frame@[1]
            + 1_000_000,
        place_finding(clip, text, frame) matches Some(found) ==> found.target == clip && (found.rule
            == "title-overflow"@ ==> found.severity == Severity::Error),
{
    reveal_strlit("title-overflow");
    reveal_strlit("unsafe-area");
    assert("title-overflow"@.len() == 14);
    assert("unsafe-area"@.len() == 11);
}

/// Text that does not overflow is told exactly if it comes nearer to an edge than a twentieth of the
/// frame, give or take half a pixel.
pub proof fn law_text_keeps_a_twentieth_from_each_edge(
    clip: Seq<char>,
    text: PlacedText,
    frame: [u32; 2],
)
    requires
        !overflows(text, frame),
    ensures
        place_finding(clip, text, frame) is None <==> {
            &&& 20 * text.x >= 1_000_000 * frame@[0] - 10_000_000
            &&& 20 * text.y >= 1_000_000 * frame@[1] - 10_000_000
            &&& 20 * (text.x + text.w) <= 19_000_000 * frame@[0] + 10_000_000
            &&& 20 * (text.y + text.h) <= 19_000_000 * frame@[1] + 10_000_000
        },
{
    let (w, h) = (frame@[0] as int, frame@[1] as int);
    assert(w * (1000 - 900) * 500 == w * 50_000) by (nonlinear_arith);
    assert(h * (1000 - 900) * 500 == h * 50_000) by (nonlinear_arith);
}

/// Type is too small exactly if it is lower than 22 thousandths of the frame.
pub proof fn law_small_type_is_told(clip: Seq<char>, text: PlacedText, frame: [u32; 2])
    requires
        frame@[1] > 0,
    ensures
        tiny_finding(clip, text, frame) is Some <==> text.font_size < 22_000 * frame@[1],
        tiny_finding(clip, text, frame) matches Some(found) ==> found.rule == "tiny-type"@
            && found.target == clip,
{
}

/// Text is hard to read exactly if its contrast was measured and is below 4.5 to 1, in millionths.
pub proof fn law_low_contrast_is_told(clip: Seq<char>, text: PlacedText, at: Time)
    ensures
        contrast_finding(clip, text, at) is Some <==> (text.contrast matches Some(c) && c
            < 4_500_000),
        contrast_finding(clip, text, at) matches Some(found) ==> found.rule == "low-contrast"@
            && found.target == clip && found.value == Some(
            Rat { num: text.contrast->0, den: 1_000_000 },
        ),
{
}

/// Text that was set in another family than asked for is told.
pub proof fn law_a_substituted_font_is_told(clip: Seq<char>, text: PlacedText)
    ensures
        font_finding(clip, text) is Some <==> text.fallback is Some,
        font_finding(clip, text) matches Some(found) ==> found.rule == "font-fallback"@
            && found.target == clip,
{
}

/// Each run of text is held to every rule, to that on contrast only where there is a picture.
pub proof fn law_every_text_is_held_to_every_rule(
    clip: Seq<char>,
    text: PlacedText,
    frame: [u32; 2],
    at: Time,
    pixels: bool,
)
    ensures
        place_finding(clip, text, frame) matches Some(found) ==> text_findings(
            clip,
            text,
            frame,
            at,
            pixels,
        ).contains(found),
        font_finding(clip, text) matches Some(found) ==> text_findings(
            clip,
            text,
            frame,
            at,
            pixels,
        ).contains(found),
        tiny_finding(clip, text, frame) matches Some(found) ==> text_findings(
            clip,
            text,
            frame,
            at,
            pixels,
        ).contains(found),
        pixels ==> (contrast_finding(clip, text, at) matches Some(found) ==> text_findings(
            clip,
            text,
            frame,
            at,
            pixels,
        ).contains(found)),
{
    let all = text_findings(clip, text, frame, at, pixels);
    let a: int = if place_finding(clip, text, frame) is Some {
        1
    } else {
        0
    };
    let b: int = if font_finding(clip, text) is Some {
        1
    } else {
        0
    };
    let c: int = if tiny_finding(clip, text, frame) is Some {
        1
    } else {
        0
    };
    if a == 1 {
        assert(all[0] == place_finding(clip, text, frame)->0);
    }
    if b == 1 {
        assert(all[a] == font_finding(clip, text)->0);
    }
    if c == 1 {
        assert(all[a + b] == tiny_finding(clip, text, frame)->0);
    }
    if pixels && contrast_finding(clip, text, at) is Some {
        assert(all[a + b + c] == contrast_finding(clip, text, at)->0);
    }
}

} // verus!
