//! Which audio tracks are measured against each other, and what their levels say.

use crate::coverage::{clip_span, clips_wf};
use crate::finding::{Finding, FindingView};
use crate::fits::clip_ok;
use crate::lint_media::{duck_finding, duck_window, ducking_rule, measured_window, shares_fit};
use crate::lint_source::{find_clip_asset, one, push_finding};
use crate::project::{Clip, Project, Source, Track, TrackKind};
use crate::time::Span;
use crate::timeline::clip_asset;
use crate::views::views;
use vstd::prelude::*;

verus! {

/// Two audio tracks, by their positions, and the stretch over which to measure each.
#[derive(Clone, Copy, Debug)]
pub struct DuckPair {
    pub first: usize,
    pub second: usize,
    pub span: Span,
}

pub struct PairView {
    pub first: int,
    pub second: int,
    pub span: Span,
}

impl View for DuckPair {
    type V = PairView;

    open spec fn view(&self) -> PairView {
        PairView { first: self.first as int, second: self.second as int, span: self.span }
    }
}

/// Whether a track is heard at all.
pub open spec fn is_heard(track: Track) -> bool {
    track.kind == TrackKind::Audio && track.clips@.len() > 0
}

/// Whether a clip can be heard where it is on a track with picture: it plays the sound of its
/// asset, or of the sequence in it.
pub open spec fn clip_sounds(project: Project, clip: Clip) -> bool {
    clip.enabled && (match clip_asset(project, clip) {
        Some(asset) => asset.probe.audio is Some,
        None => clip.source is Sequence,
    })
}

/// Whether a track adds to the mix: an audio track with a clip on it, or one with picture that is
/// not muted and plays a clip with sound.
pub open spec fn track_sounds(project: Project, track: Track) -> bool {
    ||| is_heard(track)
    ||| track.kind == TrackKind::Video && !track.muted && exists|k: int|
        0 <= k < track.clips@.len() && clip_sounds(project, #[trigger] track.clips@[k])
}

fn is_sounding(project: &Project, track: &Track) -> (r: bool)
    ensures
        r == track_sounds(*project, *track),
{
    if track.kind == TrackKind::Audio && track.clips.len() > 0 {
        return true;
    }
    if track.kind != TrackKind::Video || track.muted {
        return false;
    }
    let mut k: usize = 0;
    while k < track.clips.len()
        invariant
            k <= track.clips@.len(),
            track.kind == TrackKind::Video,
            !track.muted,
            forall|i: int| 0 <= i < k ==> !clip_sounds(*project, #[trigger] track.clips@[i]),
        decreases track.clips@.len() - k,
    {
        let clip = &track.clips[k];
        let sounds = match find_clip_asset(project, clip) {
            Some(asset) => asset.probe.audio.is_some(),
            None => match &clip.source {
                Source::Sequence { sequence: _ } => true,
                _ => false,
            },
        };
        if clip.enabled && sounds {
            assert(clip_sounds(*project, track.clips@[k as int]));
            return true;
        }
        k = k + 1;
    }
    false
}

/// Whether there is anything to mix, on whatever track it is.
pub fn has_sound(project: &Project, tracks: &Vec<Track>) -> (r: bool)
    ensures
        r == exists|t: int|
            0 <= t < tracks@.len() && track_sounds(*project, #[trigger] tracks@[t]),
{
    let mut t: usize = 0;
    while t < tracks.len()
        invariant
            t <= tracks@.len(),
            forall|k: int| 0 <= k < t ==> !track_sounds(*project, #[trigger] tracks@[k]),
        decreases tracks@.len() - t,
    {
        if is_sounding(project, &tracks[t]) {
            assert(track_sounds(*project, tracks@[t as int]));
            return true;
        }
        t = t + 1;
    }
    false
}

/// What one track is measured against, among those from `from` up to `to`.
pub open spec fn pairs_with(tracks: Seq<Track>, first: int, from: int, to: int) -> Seq<PairView>
    decreases to - from,
{
    if to <= from {
        seq![]
    } else {
        let before = pairs_with(tracks, first, from, to - 1);
        let second = to - 1;
        if is_heard(tracks[second]) && duck_window(tracks[first], tracks[second]) is Some {
            before.push(
                PairView {
                    first,
                    second,
                    span: duck_window(tracks[first], tracks[second])->0,
                },
            )
        } else {
            before
        }
    }
}

/// What the first `n` tracks are measured against: each track that is heard, each one behind it.
pub open spec fn pairs_before(tracks: Seq<Track>, n: int) -> Seq<PairView>
    decreases n,
{
    if n <= 0 {
        seq![]
    } else {
        let before = pairs_before(tracks, n - 1);
        if is_heard(tracks[n - 1]) {
            before + pairs_with(tracks, n - 1, n, tracks.len() as int)
        } else {
            before
        }
    }
}

/// The pairs of tracks that have to be measured.
pub open spec fn pairs_of(tracks: Seq<Track>) -> Seq<PairView> {
    pairs_before(tracks, tracks.len() as int)
}

/// Whether what any two tracks share can be measured.
pub open spec fn tracks_fit(tracks: Seq<Track>) -> bool {
    &&& forall|t: int| 0 <= t < tracks.len() ==> clips_wf((#[trigger] tracks[t]).clips@)
    &&& forall|i: int, j: int|
        0 <= i < j < tracks.len() ==> shares_fit(
            (#[trigger] tracks[i]).clips@,
            (#[trigger] tracks[j]).clips@,
        )
}

fn clips_ok(clips: &Vec<Clip>) -> (r: bool)
    ensures
        r == clips_wf(clips@),
{
    let mut i: usize = 0;
    while i < clips.len()
        invariant
            i <= clips@.len(),
            forall|k: int| 0 <= k < i ==> (#[trigger] clips@[k]).wf(),
        decreases clips@.len() - i,
    {
        if !clip_ok(&clips[i]) {
            assert(!clips@[i as int].wf());
            return false;
        }
        i = i + 1;
    }
    true
}

fn shares_ok(left: &Vec<Clip>, right: &Vec<Clip>) -> (r: bool)
    requires
        clips_wf(left@),
        clips_wf(right@),
    ensures
        r == shares_fit(left@, right@),
{
    let mut i: usize = 0;
    while i < left.len()
        invariant
            i <= left@.len(),
            clips_wf(left@),
            clips_wf(right@),
            forall|a: int, b: int|
                0 <= a < i && 0 <= b < right@.len() ==> clip_span(#[trigger] left@[a]).shared(
                    clip_span(#[trigger] right@[b]),
                ).measurable(),
        decreases left@.len() - i,
    {
        assert(left@[i as int].wf());
        let span = left[i].span();
        let mut j: usize = 0;
        while j < right.len()
            invariant
                i < left@.len(),
                j <= right@.len(),
                clips_wf(right@),
                span == clip_span(left@[i as int]),
                span.wf(),
                forall|b: int|
                    0 <= b < j ==> clip_span(left@[i as int]).shared(
                        clip_span(#[trigger] right@[b]),
                    ).measurable(),
            decreases right@.len() - j,
        {
            assert(right@[j as int].wf());
            let other = right[j].span();
            let start = span.start.max(other.start);
            let end = span.end.min(other.end);
            assert((Span { start, end }) == clip_span(left@[i as int]).shared(
                clip_span(right@[j as int]),
            ));
            if end.checked_minus(&start).is_none() {
                return false;
            }
            j = j + 1;
        }
        i = i + 1;
    }
    true
}

fn tracks_ok(tracks: &Vec<Track>) -> (r: bool)
    ensures
        r == tracks_fit(tracks@),
{
    let n: usize = tracks.len();
    let mut t: usize = 0;
    while t < n
        invariant
            t <= n,
            n == tracks@.len(),
            forall|k: int| 0 <= k < t ==> clips_wf((#[trigger] tracks@[k]).clips@),
        decreases n - t,
    {
        if !clips_ok(&tracks[t].clips) {
            assert(!clips_wf(tracks@[t as int].clips@));
            return false;
        }
        t = t + 1;
    }
    let mut i: usize = 0;
    while i < n
        invariant
            i <= n,
            n == tracks@.len(),
            forall|k: int| 0 <= k < n ==> clips_wf((#[trigger] tracks@[k]).clips@),
            forall|a: int, b: int|
                0 <= a < i && a < b < n ==> shares_fit(
                    (#[trigger] tracks@[a]).clips@,
                    (#[trigger] tracks@[b]).clips@,
                ),
        decreases n - i,
    {
        let mut j: usize = i + 1;
        while j < n
            invariant
                i < n,
                i < j <= n,
                n == tracks@.len(),
                forall|k: int| 0 <= k < n ==> clips_wf((#[trigger] tracks@[k]).clips@),
                forall|b: int|
                    i < b < j ==> shares_fit(
                        tracks@[i as int].clips@,
                        (#[trigger] tracks@[b]).clips@,
                    ),
            decreases n - j,
        {
            if !shares_ok(&tracks[i].clips, &tracks[j].clips) {
                assert(!shares_fit(tracks@[i as int].clips@, tracks@[j as int].clips@));
                return false;
            }
            j = j + 1;
        }
        i = i + 1;
    }
    true
}

/// Whether a pair is of two tracks, with a stretch that can be told.
pub open spec fn pair_ok(pair: DuckPair, tracks: int) -> bool {
    pair.first < tracks && pair.second < tracks && pair.span.wf() && pair.span.measurable()
}

/// The pairs of tracks that have to be measured. Nothing where what two tracks share cannot be.
pub fn duck_pairs(tracks: &Vec<Track>) -> (r: Option<Vec<DuckPair>>)
    ensures
        r is Some <==> tracks_fit(tracks@),
        r matches Some(pairs) ==> views(pairs@) == pairs_of(tracks@),
        r matches Some(pairs) ==> forall|i: int|
            0 <= i < pairs@.len() ==> pair_ok(#[trigger] pairs@[i], tracks@.len() as int),
{
    if !tracks_ok(tracks) {
        return None;
    }
    let n: usize = tracks.len();
    let mut out: Vec<DuckPair> = Vec::new();
    let mut i: usize = 0;
    assert(views(out@) =~= seq![]);
    while i < n
        invariant
            i <= n,
            n == tracks@.len(),
            tracks_fit(tracks@),
            views(out@) == pairs_before(tracks@, i as int),
            forall|k: int| 0 <= k < out@.len() ==> pair_ok(#[trigger] out@[k], n as int),
        decreases n - i,
    {
        if tracks[i].kind == TrackKind::Audio && tracks[i].clips.len() > 0 {
            let ghost before = views(out@);
            let mut j: usize = i + 1;
            assert(before + pairs_with(tracks@, i as int, i + 1, j as int) =~= before);
            while j < n
                invariant
                    i < j <= n,
                    n == tracks@.len(),
                    tracks_fit(tracks@),
                    views(out@) == before + pairs_with(tracks@, i as int, i + 1, j as int),
                    forall|k: int| 0 <= k < out@.len() ==> pair_ok(#[trigger] out@[k], n as int),
                decreases n - j,
            {
                if tracks[j].kind == TrackKind::Audio && tracks[j].clips.len() > 0 {
                    assert(clips_wf(tracks@[i as int].clips@));
                    assert(clips_wf(tracks@[j as int].clips@));
                    if let Some(span) = measured_window(&tracks[i], &tracks[j]) {
                        let pair = DuckPair { first: i, second: j, span };
                        proof {
                            crate::views::lemma_views_push(out@, pair);
                        }
                        out.push(pair);
                    }
                }
                j = j + 1;
                assert(views(out@) =~= before + pairs_with(tracks@, i as int, i + 1, j as int));
            }
        }
        i = i + 1;
    }
    Some(out)
}

/// What measured levels say of the first `n` pairs.
pub open spec fn duck_findings(
    tracks: Seq<Track>,
    pairs: Seq<DuckPair>,
    levels: Seq<(i64, i64)>,
    n: int,
) -> Seq<FindingView>
    decreases n,
{
    if n <= 0 {
        seq![]
    } else {
        let pair = pairs[n - 1];
        duck_findings(tracks, pairs, levels, n - 1) + one(
            duck_finding(
                tracks[pair.first as int],
                tracks[pair.second as int],
                pair.span,
                levels[n - 1].0,
                levels[n - 1].1,
            ),
        )
    }
}

/// Judges pairs of tracks by how loud each of the two was measured to be.
pub fn ducking_rules(tracks: &Vec<Track>, pairs: &Vec<DuckPair>, levels: &Vec<(i64, i64)>) -> (r: Vec<
    Finding,
>)
    requires
        pairs@.len() == levels@.len(),
        forall|i: int| 0 <= i < pairs@.len() ==> pair_ok(#[trigger] pairs@[i], tracks@.len() as int),
    ensures
        views(r@) == duck_findings(tracks@, pairs@, levels@, pairs@.len() as int),
{
    let mut out: Vec<Finding> = Vec::new();
    let mut i: usize = 0;
    assert(views(out@) =~= seq![]);
    while i < pairs.len()
        invariant
            i <= pairs@.len(),
            pairs@.len() == levels@.len(),
            forall|k: int|
                0 <= k < pairs@.len() ==> pair_ok(#[trigger] pairs@[k], tracks@.len() as int),
            views(out@) == duck_findings(tracks@, pairs@, levels@, i as int),
        decreases pairs@.len() - i,
    {
        assert(pair_ok(pairs@[i as int], tracks@.len() as int));
        let pair = pairs[i];
        let (left, right) = levels[i];
        push_finding(
            &mut out,
            ducking_rule(&tracks[pair.first], &tracks[pair.second], pair.span, left, right),
        );
        i = i + 1;
    }
    out
}

/// Two tracks are measured against each other at most once, the lower one first.
pub proof fn law_pairs_stand_in_order(tracks: Seq<Track>, n: int)
    requires
        0 <= n <= tracks.len(),
    ensures
        forall|i: int|
            0 <= i < pairs_before(tracks, n).len() ==> 0 <= (#[trigger] pairs_before(
                tracks,
                n,
            )[i]).first < n && pairs_before(tracks, n)[i].first < pairs_before(tracks, n)[i].second
                < tracks.len(),
        forall|i: int, j: int|
            0 <= i < j < pairs_before(tracks, n).len() ==> (#[trigger] pairs_before(
                tracks,
                n,
            )[i]).first != (#[trigger] pairs_before(tracks, n)[j]).first || pairs_before(
                tracks,
                n,
            )[i].second != pairs_before(tracks, n)[j].second,
    decreases n,
{
    if n > 0 {
        law_pairs_stand_in_order(tracks, n - 1);
        lemma_pairs_with(tracks, n - 1, n, tracks.len() as int);
        let before = pairs_before(tracks, n - 1);
        let more = pairs_with(tracks, n - 1, n, tracks.len() as int);
        let all = pairs_before(tracks, n);
        if is_heard(tracks[n - 1]) {
            assert(all == before + more);
            assert forall|i: int| 0 <= i < all.len() implies 0 <= (#[trigger] all[i]).first < n
                && all[i].first < all[i].second < tracks.len() by {
                if i < before.len() {
                    assert(all[i] == before[i]);
                } else {
                    assert(all[i] == more[i - before.len()]);
                }
            }
            assert forall|i: int, j: int| 0 <= i < j < all.len() implies (#[trigger] all[i]).first
                != (#[trigger] all[j]).first || all[i].second != all[j].second by {
                if j < before.len() {
                    assert(all[i] == before[i] && all[j] == before[j]);
                } else if i < before.len() {
                    assert(all[i] == before[i]);
                    assert(all[j] == more[j - before.len()]);
                } else {
                    assert(all[i] == more[i - before.len()]);
                    assert(all[j] == more[j - before.len()]);
                }
            }
        }
    }
}

proof fn lemma_pairs_with(tracks: Seq<Track>, first: int, from: int, to: int)
    requires
        from <= to,
    ensures
        forall|i: int|
            0 <= i < pairs_with(tracks, first, from, to).len() ==> (#[trigger] pairs_with(
                tracks,
                first,
                from,
                to,
            )[i]).first == first && from <= pairs_with(tracks, first, from, to)[i].second < to,
        forall|i: int, j: int|
            0 <= i < j < pairs_with(tracks, first, from, to).len() ==> (#[trigger] pairs_with(
                tracks,
                first,
                from,
                to,
            )[i]).second < (#[trigger] pairs_with(tracks, first, from, to)[j]).second,
    decreases to - from,
{
    if from < to {
        lemma_pairs_with(tracks, first, from, to - 1);
        let before = pairs_with(tracks, first, from, to - 1);
        let all = pairs_with(tracks, first, from, to);
        assert forall|i: int| 0 <= i < all.len() implies (#[trigger] all[i]).first == first && from
            <= all[i].second < to by {
            if i < before.len() {
                assert(all[i] == before[i]);
            }
        }
        assert forall|i: int, j: int| 0 <= i < j < all.len() implies (#[trigger] all[i]).second
            < (#[trigger] all[j]).second by {
            if j < before.len() {
                assert(all[j] == before[j]);
            }
            assert(all[i] == before[i]);
        }
    }
}

} // verus!
