//! What a description of a sequence counts, and where shot changes are marked.

use crate::digest::{
    all_gaps, cue_count, captions_of, reached, starts_early, with_cues, CaptionDigest,
};
use crate::lint_caption::{line_limit, reading_rate};
use crate::lint_timeline::has_timeline;
use crate::order::lemma_le_is_transitive;
use crate::project::{CaptionCue, Marker, Project, Sequence, Track, TrackKind};
use crate::scene_ops::{dropped_ids, kept_markers, marker_slot, with_markers, MarkerText};
use crate::text::{dec, lines, starts_with};
use crate::time::{Fps, Time};
use crate::coverage::uncovered;
use vstd::prelude::*;

verus! {

// ---------------------------------------------------------------------------
// Captions
// ---------------------------------------------------------------------------

/// The end that cues have reached is one of theirs, and none ends later.
pub proof fn law_the_latest_end_is_reached(cues: Seq<CaptionCue>) -> (w: int)
    requires
        forall|i: int| 0 <= i < cues.len() ==> (#[trigger] cues[i]).span.end.wf(),
    ensures
        reached(cues) is None <==> cues.len() == 0,
        cues.len() > 0 ==> 0 <= w < cues.len() && reached(cues) == Some(cues[w].span.end),
        forall|i: int|
            0 <= i < cues.len() ==> (#[trigger] cues[i]).span.end.le(reached(cues)->0),
    decreases cues.len(),
{
    if cues.len() == 0 {
        0
    } else {
        let rest = cues.drop_last();
        assert forall|i: int| 0 <= i < rest.len() implies (#[trigger] rest[i]).span.end.wf() by {
            assert(rest[i] == cues[i]);
        }
        let w = law_the_latest_end_is_reached(rest);
        let n = cues.len() - 1;
        assert(cues.last() == cues[n] && cues[n].span.end.wf());
        if rest.len() == 0 {
            0
        } else {
            assert(rest[w] == cues[w] && cues[w].span.end.wf());
            let was = cues[w].span.end;
            let now = reached(cues)->0;
            assert forall|i: int| 0 <= i < cues.len() implies (#[trigger] cues[i]).span.end.le(
                now,
            ) by {
                if i < n {
                    assert(rest[i] == cues[i]);
                    assert(was.le(now));
                    assert(cues[i].span.end.wf());
                    lemma_le_is_transitive(cues[i].span.end, was, now);
                }
            }
            if now == was {
                w
            } else {
                n
            }
        }
    }
}

/// A cue overlaps what is in front of it exactly if some cue there ends after it starts.
pub proof fn law_a_cue_overlaps_any_cue_before_it(cues: Seq<CaptionCue>)
    requires
        cues.len() > 0,
        forall|i: int|
            0 <= i < cues.len() ==> (#[trigger] cues[i]).span.end.wf() && cues[i].span.start.wf(),
    ensures
        starts_early(cues) <==> exists|i: int|
            0 <= i < cues.len() - 1 && cues.last().span.start.lt((#[trigger] cues[i]).span.end),
{
    let rest = cues.drop_last();
    assert forall|i: int| 0 <= i < rest.len() implies (#[trigger] rest[i]).span.end.wf() by {
        assert(rest[i] == cues[i]);
    }
    let w = law_the_latest_end_is_reached(rest);
    let last = cues.last();
    assert(last == cues[cues.len() - 1] && last.span.start.wf());
    if starts_early(cues) {
        assert(cues[w] == rest[w]);
    }
    assert forall|i: int|
        0 <= i < cues.len() - 1 && last.span.start.lt(
            (#[trigger] cues[i]).span.end,
        ) implies starts_early(cues) by {
        assert(rest[i] == cues[i]);
        assert(cues[w] == rest[w] && cues[w].span.end.wf());
        lemma_le_is_transitive(last.span.start, cues[i].span.end, cues[w].span.end);
    }
}

/// One more cue adds one to the cues, one to the overlaps exactly if it starts early, and one to the
/// long ones exactly if it has more lines than it may.
pub proof fn law_a_cue_is_counted_once(
    project: Project,
    track: Track,
    cues: Seq<CaptionCue>,
    cue: CaptionCue,
    from: CaptionDigest,
)
    requires
        with_cues(project, track, cues, from).cues < u64::MAX,
        with_cues(project, track, cues, from).overlaps < u64::MAX,
        with_cues(project, track, cues, from).too_long < u64::MAX,
    ensures
        ({
            let before = with_cues(project, track, cues, from);
            let after = with_cues(project, track, cues.push(cue), from);
            &&& after.cues == before.cues + 1
            &&& after.overlaps == before.overlaps + if starts_early(cues.push(cue)) {
                1int
            } else {
                0int
            }
            &&& after.too_long == before.too_long + if lines(cue.text@).len() > line_limit(
                project,
                track,
                cue,
            ) {
                1int
            } else {
                0int
            }
            &&& reading_rate(cue) is None ==> after.max_cps == before.max_cps
            &&& reading_rate(cue) matches Some(rate) ==> after.max_cps == rate || (after.max_cps
                == before.max_cps && !before.max_cps.spec_lt(rate))
            &&& after.max_cps != before.max_cps ==> before.max_cps.spec_lt(after.max_cps)
        }),
        with_cues(project, track, Seq::<CaptionCue>::empty(), from) == from,
{
    assert(cues.push(cue).drop_last() =~= cues);
}

/// Caption tracks are counted, and no others.
pub proof fn law_only_caption_tracks_are_counted(project: Project, tracks: Seq<Track>, track: Track)
    ensures
        track.kind != TrackKind::Caption ==> captions_of(project, tracks.push(track))
            == captions_of(project, tracks),
        track.kind == TrackKind::Caption ==> captions_of(project, tracks.push(track)) == with_cues(
            project,
            track,
            track.cues@,
            captions_of(project, tracks),
        ),
        captions_of(project, Seq::<Track>::empty()).cues == 0,
        captions_of(project, Seq::<Track>::empty()).overlaps == 0,
        captions_of(project, Seq::<Track>::empty()).too_long == 0,
        captions_of(project, Seq::<Track>::empty()).max_cps.num == 0,
        cue_count(tracks.push(track)) == cue_count(tracks) + if track.kind == TrackKind::Caption {
            track.cues@.len() as int
        } else {
            0
        },
{
    assert(tracks.push(track).drop_last() =~= tracks);
}

// ---------------------------------------------------------------------------
// Gaps
// ---------------------------------------------------------------------------

/// Every hole of a track that has a timeline is described, under the track's id and name.
pub proof fn law_every_gap_is_described(sequence: Sequence, n: int, t: int, h: int) -> (i: int)
    requires
        0 <= t < n <= sequence.tracks@.len(),
        has_timeline(sequence.tracks@[t]),
        0 <= h < uncovered(sequence, t).len(),
    ensures
        0 <= i < all_gaps(sequence, n).len(),
        all_gaps(sequence, n)[i].range == uncovered(sequence, t)[h],
        all_gaps(sequence, n)[i].track == sequence.tracks@[t].id@,
        all_gaps(sequence, n)[i].name == sequence.tracks@[t].name@,
    decreases n,
{
    let before = all_gaps(sequence, n - 1);
    if t < n - 1 {
        let i = law_every_gap_is_described(sequence, n - 1, t, h);
        assert(all_gaps(sequence, n)[i] == before[i]);
        i
    } else {
        before.len() + h
    }
}

/// Only holes are described.
pub proof fn law_only_gaps_are_described(sequence: Sequence, n: int, i: int) -> (r: (int, int))
    requires
        n <= sequence.tracks@.len(),
        0 <= i < all_gaps(sequence, n).len(),
    ensures
        0 <= r.0 < n,
        has_timeline(sequence.tracks@[r.0]),
        0 <= r.1 < uncovered(sequence, r.0).len(),
        all_gaps(sequence, n)[i].range == uncovered(sequence, r.0)[r.1],
        all_gaps(sequence, n)[i].track == sequence.tracks@[r.0].id@,
    decreases n,
{
    let before = all_gaps(sequence, n - 1);
    if i < before.len() {
        law_only_gaps_are_described(sequence, n - 1, i)
    } else {
        (n - 1, i - before.len())
    }
}

// ---------------------------------------------------------------------------
// Markers of shot changes
// ---------------------------------------------------------------------------

/// Every shot change gets a marker of its own: at its instant, with its id, named by the prefix and
/// counted from one.
pub proof fn law_every_shot_change_is_marked(
    markers: Seq<MarkerText>,
    cuts: Seq<Time>,
    ids: Seq<Seq<char>>,
    prefix: Seq<char>,
    threshold: Seq<char>,
    fps: Fps,
    c: int,
) -> (i: int)
    requires
        0 <= c < cuts.len(),
    ensures
        ({
            let all = with_markers(markers, cuts, ids, prefix, threshold, fps);
            &&& 0 <= i < all.len()
            &&& all[i].at == cuts[c]
            &&& all[i].id == ids[c]
            &&& all[i].name == prefix + " "@ + dec((c + 1) as nat)
        }),
    decreases cuts.len(),
{
    let rest = cuts.drop_last();
    let before = with_markers(markers, rest, ids, prefix, threshold, fps);
    let n = cuts.len() - 1;
    let slot = marker_slot(before, cuts[n]);
    lemma_slot_is_one(before, cuts[n]);
    if c < n {
        let i = law_every_shot_change_is_marked(markers, rest, ids, prefix, threshold, fps, c);
        assert(rest[c] == cuts[c]);
        if i < slot {
            i
        } else {
            i + 1
        }
    } else {
        slot
    }
}

proof fn lemma_slot_is_one(markers: Seq<MarkerText>, at: Time)
    ensures
        0 <= marker_slot(markers, at) <= markers.len(),
    decreases markers.len(),
{
    if markers.len() > 0 {
        lemma_slot_is_one(markers.drop_last(), at);
    }
}

/// The markers that were there before are still there.
pub proof fn law_marking_keeps_the_markers(
    markers: Seq<MarkerText>,
    cuts: Seq<Time>,
    ids: Seq<Seq<char>>,
    prefix: Seq<char>,
    threshold: Seq<char>,
    fps: Fps,
    m: int,
) -> (i: int)
    requires
        0 <= m < markers.len(),
    ensures
        ({
            let all = with_markers(markers, cuts, ids, prefix, threshold, fps);
            0 <= i < all.len() && all[i] == markers[m]
        }),
    decreases cuts.len(),
{
    if cuts.len() == 0 {
        m
    } else {
        let rest = cuts.drop_last();
        let before = with_markers(markers, rest, ids, prefix, threshold, fps);
        let slot = marker_slot(before, cuts[cuts.len() - 1]);
        lemma_slot_is_one(before, cuts[cuts.len() - 1]);
        let i = law_marking_keeps_the_markers(markers, rest, ids, prefix, threshold, fps, m);
        if i < slot {
            i
        } else {
            i + 1
        }
    }
}

/// Replacing takes away exactly the markers whose name starts with the prefix, and tells their ids.
pub proof fn law_replacing_takes_the_prefixed(markers: Seq<Marker>, prefix: Seq<char>, m: int) -> (i:
    int)
    requires
        0 <= m < markers.len(),
    ensures
        kept_markers(markers, prefix).len() + dropped_ids(markers, prefix).len() == markers.len(),
        prefix.len() <= markers[m].name@.len() && markers[m].name@.take(prefix.len() as int)
            == prefix ==> 0 <= i < dropped_ids(markers, prefix).len() && dropped_ids(
            markers,
            prefix,
        )[i] == markers[m].id@,
        !(prefix.len() <= markers[m].name@.len() && markers[m].name@.take(prefix.len() as int)
            == prefix) ==> 0 <= i < kept_markers(markers, prefix).len() && kept_markers(
            markers,
            prefix,
        )[i] == markers[m],
    decreases markers.len(),
{
    let rest = markers.drop_last();
    let n = markers.len() - 1;
    lemma_parted(rest, prefix);
    lemma_starts(markers[m].name@, prefix);
    lemma_starts(markers[n].name@, prefix);
    if m < n {
        assert(rest[m] == markers[m]);
        let i = law_replacing_takes_the_prefixed(rest, prefix, m);
        if starts_with(markers[m].name@, prefix) {
            assert(dropped_ids(markers, prefix)[i] == dropped_ids(rest, prefix)[i]);
        } else {
            assert(kept_markers(markers, prefix)[i] == kept_markers(rest, prefix)[i]);
        }
        i
    } else if starts_with(markers[m].name@, prefix) {
        dropped_ids(markers, prefix).len() - 1
    } else {
        kept_markers(markers, prefix).len() - 1
    }
}

proof fn lemma_parted(markers: Seq<Marker>, prefix: Seq<char>)
    ensures
        kept_markers(markers, prefix).len() + dropped_ids(markers, prefix).len() == markers.len(),
    decreases markers.len(),
{
    if markers.len() > 0 {
        lemma_parted(markers.drop_last(), prefix);
    }
}

proof fn lemma_starts(name: Seq<char>, prefix: Seq<char>)
    ensures
        starts_with(name, prefix) <==> prefix.len() <= name.len() && name.take(
            prefix.len() as int,
        ) == prefix,
{
    if starts_with(name, prefix) {
        assert(name.take(prefix.len() as int) =~= prefix);
    } else if prefix.len() <= name.len() && name.take(prefix.len() as int) == prefix {
        assert(name.subrange(0, prefix.len() as int) =~= prefix);
    }
}

} // verus!
