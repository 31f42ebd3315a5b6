//! What splitting a track and taking out an asset change, and what they leave alone.

use crate::asset_ops::{
    all_tracks_reading, asset_names, asset_users, assets_without, clip_users, clips_without, reads,
    resolved, track_reads, track_users, tracks_reading, use_text,
};
use crate::lint_source::source_end;
use crate::project::{index_of, Asset, Clip, Project, Sequence, Source, Track, TrackKind};
use crate::split_ops::{
    cut_error, cuttable, first_inside, first_locked, inside, is_chain, is_head, is_tail,
    links_dropped, split_step, told_split, told_splits, SplitView,
};
use crate::time::Time;
use vstd::prelude::*;

verus! {

// ---------------------------------------------------------------------------
// Splitting
// ---------------------------------------------------------------------------

/// Each part of a split clip keeps the end that was the clip's: the first its fade in, its transition
/// and its link, the second its fade out. Neither fades where they meet.
pub proof fn law_each_part_keeps_its_end(clip: Clip, head: Clip, tail: Clip, at: Time, id: Seq<char>)
    requires
        is_head(head, clip, at),
        is_tail(tail, clip, at, id),
    ensures
        head.fade_in == clip.fade_in,
        head.fade_out.secs.num == 0,
        tail.fade_in.secs.num == 0,
        tail.fade_out == clip.fade_out,
        head.transition_in == clip.transition_in,
        tail.transition_in is None,
        head.link == clip.link,
        tail.link is None,
        head.id == clip.id,
        tail.id@ == id,
        head.speed == clip.speed && tail.speed == clip.speed,
        head.reverse == clip.reverse && tail.reverse == clip.reverse,
        head.enabled == clip.enabled && tail.enabled == clip.enabled,
        head.gain == clip.gain && tail.gain == clip.gain,
        head.opacity == clip.opacity && tail.opacity == clip.opacity,
        head.effects@.len() == clip.effects@.len() && tail.effects@.len() == clip.effects@.len(),
{
}

/// A clip that plays backwards reads the later half of its source first: its first part starts where
/// its second stops, and the second starts where the clip did.
pub proof fn law_a_reversed_source_goes_back(clip: Clip, head: Clip, tail: Clip, at: Time, id: Seq<char>)
    requires
        is_head(head, clip, at),
        is_tail(tail, clip, at, id),
        clip.reverse,
    ensures
        head.source_in == source_end(tail),
        tail.source_in == clip.source_in,
{
}

/// The clip that is split is the first that the instant lies strictly inside.
pub proof fn law_the_first_clip_around_is_split(clips: Seq<Clip>, at: Time)
    ensures
        0 <= first_inside(clips, at) <= clips.len(),
        first_inside(clips, at) < clips.len() ==> {
            let clip = clips[first_inside(clips, at)];
            clip.start.lt(at) && at.lt(clip.start.spec_plus(clip.duration))
        },
        forall|k: int|
            0 <= k < first_inside(clips, at) ==> !((#[trigger] clips[k]).start.lt(at) && at.lt(
                clips[k].start.spec_plus(clips[k].duration),
            )),
    decreases clips.len(),
{
    if clips.len() > 0 && !inside(clips[0], at) {
        let rest = clips.skip(1);
        law_the_first_clip_around_is_split(rest, at);
        let i = first_inside(rest, at);
        if i < rest.len() {
            assert(rest[i] == clips[i + 1]);
        }
        assert forall|k: int| 0 <= k < i + 1 implies !((#[trigger] clips[k]).start.lt(at)
            && at.lt(clips[k].start.spec_plus(clips[k].duration))) by {
            if k > 0 {
                assert(rest[k - 1] == clips[k]);
            }
        }
    }
}

/// An instant that lies strictly inside a clip makes one clip more, any other changes nothing.
pub proof fn law_a_cut_inside_a_clip_splits_it(
    before: Seq<Clip>,
    at: Time,
    id: Seq<char>,
    after: Seq<Clip>,
)
    requires
        split_step(before, at, id, after),
    ensures
        (exists|k: int|
            0 <= k < before.len() && (#[trigger] before[k]).start.lt(at) && at.lt(
                before[k].start.spec_plus(before[k].duration),
            )) ==> after.len() == before.len() + 1 && told_split(before, at, id).len() == 1,
        !(exists|k: int|
            0 <= k < before.len() && (#[trigger] before[k]).start.lt(at) && at.lt(
                before[k].start.spec_plus(before[k].duration),
            )) ==> after == before && told_split(before, at, id).len() == 0,
        after.len() == before.len() + told_split(before, at, id).len(),
{
    law_the_first_clip_around_is_split(before, at);
}

/// As many splits are told as there are clips more, each with the id of the new clip.
pub proof fn law_every_split_is_told(
    states: Seq<Seq<Clip>>,
    before: Seq<Clip>,
    cuts: Seq<Time>,
    ids: Seq<Seq<char>>,
    n: int,
    k: int,
)
    requires
        0 <= k <= n <= cuts.len(),
        is_chain(states, before, cuts, ids, n),
    ensures
        states[k].len() == before.len() + told_splits(states, cuts, ids, k).len(),
    decreases k,
{
    if k > 0 {
        law_every_split_is_told(states, before, cuts, ids, n, k - 1);
        let (at, id) = (cuts[cuts.len() - k], ids[cuts.len() - k]);
        assert(split_step(states[k - 1], cuts[cuts.len() - 1 - (k - 1)], ids[cuts.len() - 1 - (k
            - 1)], states[k - 1 + 1]));
        law_a_cut_inside_a_clip_splits_it(states[k - 1], at, id, states[k]);
    }
}

/// One more split is one more link that stayed behind exactly if the clip was linked, and it is told of
/// the new clip.
pub proof fn law_a_link_left_behind_is_told(splits: Seq<SplitView>, split: SplitView)
    ensures
        links_dropped(Seq::<SplitView>::empty()).len() == 0,
        split.linked ==> links_dropped(splits.push(split)).len() == links_dropped(splits).len() + 1
            && links_dropped(splits.push(split)).last().target == split.tail,
        !split.linked ==> links_dropped(splits.push(split)) == links_dropped(splits),
{
    assert(splits.push(split).drop_last() =~= splits);
}

/// Every unlocked video track is cut where none is named, and no other.
pub proof fn law_unlocked_pictures_are_cut(tracks: Seq<Track>, t: int)
    ensures
        cuttable(tracks).contains(t) <==> 0 <= t < tracks.len() && tracks[t].kind
            == TrackKind::Video && !tracks[t].locked,
    decreases tracks.len(),
{
    if tracks.len() > 0 {
        let rest = tracks.drop_last();
        law_unlocked_pictures_are_cut(rest, t);
        let n = tracks.len() - 1;
        let (before, all) = (cuttable(rest), cuttable(tracks));
        assert(0 <= t < n ==> rest[t] == tracks[t]);
        if before.contains(t) {
            let i = choose|i: int| 0 <= i < before.len() && before[i] == t;
            assert(all[i] == t);
        }
        if all.contains(t) && t != n {
            let i = choose|i: int| 0 <= i < all.len() && all[i] == t;
            assert(i < before.len());
            assert(before[i] == t);
        }
        if t == n {
            if tracks[n].kind == TrackKind::Video && !tracks[n].locked {
                assert(all[all.len() - 1] == n);
            }
        }
    } else {
        assert(cuttable(tracks).len() == 0);
    }
}

/// Tracks can be cut exactly if there is one, and none of them is locked.
pub proof fn law_a_locked_track_is_not_cut(sequence: Sequence, targets: Seq<int>)
    ensures
        cut_error(sequence, targets) is None <==> targets.len() > 0 && forall|i: int|
            0 <= i < targets.len() ==> !sequence.tracks@[#[trigger] targets[i]].locked,
{
    lemma_first_locked(sequence.tracks@, targets);
}

proof fn lemma_first_locked(tracks: Seq<Track>, targets: Seq<int>)
    ensures
        0 <= first_locked(tracks, targets) <= targets.len(),
        first_locked(tracks, targets) < targets.len() ==> tracks[targets[first_locked(
            tracks,
            targets,
        )]].locked,
        forall|i: int|
            0 <= i < first_locked(tracks, targets) ==> !tracks[#[trigger] targets[i]].locked,
    decreases targets.len(),
{
    if targets.len() > 0 && !tracks[targets[0]].locked {
        let rest = targets.skip(1);
        lemma_first_locked(tracks, rest);
        let n = first_locked(tracks, rest);
        if n < rest.len() {
            assert(rest[n] == targets[n + 1]);
        }
        assert forall|i: int| 0 <= i < n + 1 implies !tracks[#[trigger] targets[i]].locked by {
            if i > 0 {
                assert(rest[i - 1] == targets[i]);
            }
        }
    }
}

// ---------------------------------------------------------------------------
// Assets
// ---------------------------------------------------------------------------

/// A clip reads an asset exactly if that is its source, as footage or as an image.
pub proof fn law_a_clip_reads_its_source(clip: Clip, asset: Seq<char>)
    ensures
        reads(clip, asset) <==> (clip.source matches Source::Asset { asset: id } && id@ == asset)
            || (clip.source matches Source::Image { asset: id } && id@ == asset),
{
}

/// Taking out an asset leaves every clip that does not read it.
pub proof fn law_other_clips_stay(clips: Seq<Clip>, asset: Seq<char>, c: int) -> (i: int)
    requires
        0 <= c < clips.len(),
        !reads(clips[c], asset),
    ensures
        0 <= i < clips_without(clips, asset).len(),
        clips_without(clips, asset)[i] == clips[c],
    decreases clips.len(),
{
    let rest = clips.drop_last();
    if c < rest.len() {
        assert(rest[c] == clips[c]);
        let i = law_other_clips_stay(rest, asset, c);
        assert(clips_without(clips, asset)[i] == clips_without(rest, asset)[i]);
        i
    } else {
        clips_without(clips, asset).len() - 1
    }
}

/// Taking out an asset leaves every other asset.
pub proof fn law_other_assets_stay(assets: Seq<Asset>, asset: Seq<char>, a: int) -> (i: int)
    requires
        0 <= a < assets.len(),
        assets[a].id@ != asset,
    ensures
        0 <= i < assets_without(assets, asset).len(),
        assets_without(assets, asset)[i] == assets[a],
    decreases assets.len(),
{
    let rest = assets.drop_last();
    if a < rest.len() {
        assert(rest[a] == assets[a]);
        let i = law_other_assets_stay(rest, asset, a);
        assert(assets_without(assets, asset)[i] == assets_without(rest, asset)[i]);
        i
    } else {
        assets_without(assets, asset).len() - 1
    }
}

/// Every clip that reads an asset is named by its sequence, its track and its own name.
pub proof fn law_every_user_is_named(
    sequences: Seq<Sequence>,
    asset: Seq<char>,
    s: int,
    t: int,
    c: int,
) -> (i: int)
    requires
        0 <= s < sequences.len(),
        0 <= t < sequences[s].tracks@.len(),
        0 <= c < sequences[s].tracks@[t].clips@.len(),
        reads(sequences[s].tracks@[t].clips@[c], asset),
    ensures
        0 <= i < asset_users(sequences, asset).len(),
        asset_users(sequences, asset)[i] == sequences[s].name@ + "/"@
            + sequences[s].tracks@[t].name@ + "/"@
            + sequences[s].tracks@[t].clips@[c].spec_label(),
    decreases sequences.len(),
{
    let rest = sequences.drop_last();
    let before = asset_users(rest, asset);
    if s < rest.len() {
        assert(rest[s] == sequences[s]);
        let i = law_every_user_is_named(rest, asset, s, t, c);
        assert(asset_users(sequences, asset)[i] == before[i]);
        i
    } else {
        let k = lemma_track_user(sequences[s].tracks@, sequences[s].name@, asset, t, c);
        assert(asset_users(sequences, asset)[before.len() + k] == track_users(
            sequences[s].tracks@,
            sequences[s].name@,
            asset,
        )[k]);
        before.len() + k
    }
}

proof fn lemma_track_user(
    tracks: Seq<Track>,
    sequence: Seq<char>,
    asset: Seq<char>,
    t: int,
    c: int,
) -> (i: int)
    requires
        0 <= t < tracks.len(),
        0 <= c < tracks[t].clips@.len(),
        reads(tracks[t].clips@[c], asset),
    ensures
        0 <= i < track_users(tracks, sequence, asset).len(),
        track_users(tracks, sequence, asset)[i] == use_text(
            sequence,
            tracks[t].name@,
            tracks[t].clips@[c],
        ),
    decreases tracks.len(),
{
    let rest = tracks.drop_last();
    let before = track_users(rest, sequence, asset);
    if t < rest.len() {
        assert(rest[t] == tracks[t]);
        let i = lemma_track_user(rest, sequence, asset, t, c);
        assert(track_users(tracks, sequence, asset)[i] == before[i]);
        i
    } else {
        let k = lemma_clip_user(tracks[t].clips@, sequence, tracks[t].name@, asset, c);
        assert(track_users(tracks, sequence, asset)[before.len() + k] == clip_users(
            tracks[t].clips@,
            sequence,
            tracks[t].name@,
            asset,
        )[k]);
        before.len() + k
    }
}

proof fn lemma_clip_user(
    clips: Seq<Clip>,
    sequence: Seq<char>,
    track: Seq<char>,
    asset: Seq<char>,
    c: int,
) -> (i: int)
    requires
        0 <= c < clips.len(),
        reads(clips[c], asset),
    ensures
        0 <= i < clip_users(clips, sequence, track, asset).len(),
        clip_users(clips, sequence, track, asset)[i] == use_text(sequence, track, clips[c]),
    decreases clips.len(),
{
    let rest = clips.drop_last();
    if c < rest.len() {
        assert(rest[c] == clips[c]);
        let i = lemma_clip_user(rest, sequence, track, asset, c);
        assert(clip_users(clips, sequence, track, asset)[i] == clip_users(
            rest,
            sequence,
            track,
            asset,
        )[i]);
        i
    } else {
        clip_users(clips, sequence, track, asset).len() - 1
    }
}

/// Nothing names a user where nothing reads the asset.
pub proof fn law_an_unused_asset_has_no_users(sequences: Seq<Sequence>, asset: Seq<char>)
    requires
        forall|s: int, t: int, c: int|
            #![trigger sequences[s].tracks@[t].clips@[c]]
            0 <= s < sequences.len() && 0 <= t < sequences[s].tracks@.len() && 0 <= c
                < sequences[s].tracks@[t].clips@.len() ==> !reads(
                sequences[s].tracks@[t].clips@[c],
                asset,
            ),
    ensures
        asset_users(sequences, asset).len() == 0,
    decreases sequences.len(),
{
    if sequences.len() > 0 {
        let rest = sequences.drop_last();
        let n = sequences.len() - 1;
        assert forall|s: int, t: int, c: int|
            #![trigger rest[s].tracks@[t].clips@[c]]
            0 <= s < rest.len() && 0 <= t < rest[s].tracks@.len() && 0 <= c
                < rest[s].tracks@[t].clips@.len() implies !reads(
            rest[s].tracks@[t].clips@[c],
            asset,
        ) by {
            assert(!reads(sequences[s].tracks@[t].clips@[c], asset));
        }
        law_an_unused_asset_has_no_users(rest, asset);
        let tracks = sequences[n].tracks@;
        assert forall|t: int, c: int|
            #![trigger tracks[t].clips@[c]]
            0 <= t < tracks.len() && 0 <= c < tracks[t].clips@.len() implies !reads(
            tracks[t].clips@[c],
            asset,
        ) by {
            assert(!reads(sequences[n].tracks@[t].clips@[c], asset));
        }
        lemma_no_track_users(tracks, sequences[n].name@, asset);
    }
}

proof fn lemma_no_track_users(tracks: Seq<Track>, sequence: Seq<char>, asset: Seq<char>)
    requires
        forall|t: int, c: int|
            #![trigger tracks[t].clips@[c]]
            0 <= t < tracks.len() && 0 <= c < tracks[t].clips@.len() ==> !reads(
                tracks[t].clips@[c],
                asset,
            ),
    ensures
        track_users(tracks, sequence, asset).len() == 0,
    decreases tracks.len(),
{
    if tracks.len() > 0 {
        let rest = tracks.drop_last();
        let n = tracks.len() - 1;
        assert forall|t: int, c: int|
            #![trigger rest[t].clips@[c]]
            0 <= t < rest.len() && 0 <= c < rest[t].clips@.len() implies !reads(
            rest[t].clips@[c],
            asset,
        ) by {
            assert(!reads(tracks[t].clips@[c], asset));
        }
        lemma_no_track_users(rest, sequence, asset);
        let clips = tracks[n].clips@;
        assert forall|c: int| 0 <= c < clips.len() implies !reads(#[trigger] clips[c], asset) by {
            assert(!reads(tracks[n].clips@[c], asset));
        }
        lemma_no_clip_users(clips, sequence, tracks[n].name@, asset);
    }
}

proof fn lemma_no_clip_users(
    clips: Seq<Clip>,
    sequence: Seq<char>,
    track: Seq<char>,
    asset: Seq<char>,
)
    requires
        forall|c: int| 0 <= c < clips.len() ==> !reads(#[trigger] clips[c], asset),
    ensures
        clip_users(clips, sequence, track, asset).len() == 0,
    decreases clips.len(),
{
    if clips.len() > 0 {
        let rest = clips.drop_last();
        assert forall|c: int| 0 <= c < rest.len() implies !reads(#[trigger] rest[c], asset) by {
            assert(!reads(clips[c], asset));
        }
        assert(!reads(clips[clips.len() - 1], asset));
        lemma_no_clip_users(rest, sequence, track, asset);
    }
}

/// Every track that loses a clip is told.
pub proof fn law_every_changed_track_is_told(
    sequences: Seq<Sequence>,
    asset: Seq<char>,
    s: int,
    t: int,
) -> (i: int)
    requires
        0 <= s < sequences.len(),
        0 <= t < sequences[s].tracks@.len(),
        track_reads(sequences[s].tracks@[t], asset),
    ensures
        0 <= i < all_tracks_reading(sequences, asset).len(),
        all_tracks_reading(sequences, asset)[i] == sequences[s].tracks@[t].id@,
    decreases sequences.len(),
{
    let rest = sequences.drop_last();
    let before = all_tracks_reading(rest, asset);
    if s < rest.len() {
        assert(rest[s] == sequences[s]);
        let i = law_every_changed_track_is_told(rest, asset, s, t);
        assert(all_tracks_reading(sequences, asset)[i] == before[i]);
        i
    } else {
        let k = lemma_changed_track(sequences[s].tracks@, asset, t);
        assert(all_tracks_reading(sequences, asset)[before.len() + k] == tracks_reading(
            sequences[s].tracks@,
            asset,
        )[k]);
        before.len() + k
    }
}

proof fn lemma_changed_track(tracks: Seq<Track>, asset: Seq<char>, t: int) -> (i: int)
    requires
        0 <= t < tracks.len(),
        track_reads(tracks[t], asset),
    ensures
        0 <= i < tracks_reading(tracks, asset).len(),
        tracks_reading(tracks, asset)[i] == tracks[t].id@,
    decreases tracks.len(),
{
    let rest = tracks.drop_last();
    if t < rest.len() {
        assert(rest[t] == tracks[t]);
        let i = lemma_changed_track(rest, asset, t);
        assert(tracks_reading(tracks, asset)[i] == tracks_reading(rest, asset)[i]);
        i
    } else {
        tracks_reading(tracks, asset).len() - 1
    }
}

/// A text names the first asset whose id it is; where it is no id, the first whose name it is.
pub proof fn law_an_id_comes_before_a_name(project: Project, text: Seq<char>, a: int)
    requires
        0 <= a < project.assets@.len(),
    ensures
        project.assets@[a].id@ == text ==> 0 <= resolved(project, text) <= a
            && project.assets@[resolved(project, text)].id@ == text,
        project.assets@[a].name@ == text && (forall|k: int|
            0 <= k < project.assets@.len() ==> (#[trigger] project.assets@[k]).id@ != text) ==> 0
            <= resolved(project, text) <= a && project.assets@[resolved(project, text)].name@
            == text,
{
    let assets = project.assets@;
    let ids = crate::project::asset_ids(assets);
    let names = asset_names(assets);
    lemma_first(ids, text);
    lemma_first(names, text);
    assert(ids[a] == assets[a].id@ && names[a] == assets[a].name@);
    let (i, n) = (index_of(ids, text), index_of(names, text));
    if i >= 0 {
        assert(ids[i] == assets[i].id@);
    }
    if n >= 0 {
        assert(names[n] == assets[n].name@);
    }
}

proof fn lemma_first(list: Seq<Seq<char>>, text: Seq<char>)
    ensures
        index_of(list, text) < list.len(),
        index_of(list, text) >= 0 ==> list[index_of(list, text)] == text,
        forall|k: int|
            0 <= k < list.len() && #[trigger] list[k] == text ==> 0 <= index_of(list, text) <= k,
    decreases list.len(),
{
    if list.len() > 0 {
        let rest = list.drop_last();
        lemma_first(rest, text);
        let before = index_of(rest, text);
        if before >= 0 {
            assert(rest[before] == list[before]);
        }
        assert forall|k: int| 0 <= k < list.len() && #[trigger] list[k] == text implies 0
            <= index_of(list, text) <= k by {
            if k < rest.len() {
                assert(rest[k] == text);
            }
        }
    }
}

} // verus!
