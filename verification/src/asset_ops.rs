//! Bringing media into a project, and taking it out again.

use crate::error::{Error, ErrorView};
use crate::project::{index_of, Asset, Clip, Project, Sequence, Track};
use crate::text::{dec, decimal, join, joined, push_text, same, strings};
use vstd::prelude::*;

verus! {

/// Whether a clip reads an asset.
pub open spec fn reads(clip: Clip, asset: Seq<char>) -> bool {
    clip.source.asset() == Some(asset)
}

fn clip_reads(clip: &Clip, asset: &str) -> (r: bool)
    ensures
        r == reads(*clip, asset@),
{
    match clip.source.asset_id() {
        Some(id) => same(id.as_str(), asset),
        None => false,
    }
}

// ---------------------------------------------------------------------------
// Who uses an asset
// ---------------------------------------------------------------------------

pub open spec fn use_text(sequence: Seq<char>, track: Seq<char>, clip: Clip) -> Seq<char> {
    sequence + "/"@ + track + "/"@ + clip.spec_label()
}

/// The clips of a track that read an asset, as labels.
pub open spec fn clip_users(
    clips: Seq<Clip>,
    sequence: Seq<char>,
    track: Seq<char>,
    asset: Seq<char>,
) -> Seq<Seq<char>>
    decreases clips.len(),
{
    if clips.len() == 0 {
        seq![]
    } else {
        let before = clip_users(clips.drop_last(), sequence, track, asset);
        if reads(clips.last(), asset) {
            before.push(use_text(sequence, track, clips.last()))
        } else {
            before
        }
    }
}

pub open spec fn track_users(tracks: Seq<Track>, sequence: Seq<char>, asset: Seq<char>) -> Seq<
    Seq<char>,
>
    decreases tracks.len(),
{
    if tracks.len() == 0 {
        seq![]
    } else {
        track_users(tracks.drop_last(), sequence, asset) + clip_users(
            tracks.last().clips@,
            sequence,
            tracks.last().name@,
            asset,
        )
    }
}

pub open spec fn asset_users(sequences: Seq<Sequence>, asset: Seq<char>) -> Seq<Seq<char>>
    decreases sequences.len(),
{
    if sequences.len() == 0 {
        seq![]
    } else {
        asset_users(sequences.drop_last(), asset) + track_users(
            sequences.last().tracks@,
            sequences.last().name@,
            asset,
        )
    }
}

fn push_clip_users(out: &mut Vec<String>, sequence: &str, track: &Track, asset: &str)
    ensures
        strings(final(out)@) == strings(old(out)@) + clip_users(
            track.clips@,
            sequence@,
            track.name@,
            asset@,
        ),
{
    let ghost before = strings(out@);
    let mut i: usize = 0;
    assert(track.clips@.take(0) =~= seq![]);
    assert(before + Seq::<Seq<char>>::empty() =~= before);
    while i < track.clips.len()
        invariant
            i <= track.clips@.len(),
            strings(out@) == before + clip_users(
                track.clips@.take(i as int),
                sequence@,
                track.name@,
                asset@,
            ),
        decreases track.clips@.len() - i,
    {
        proof {
            assert(track.clips@.take(i + 1).drop_last() =~= track.clips@.take(i as int));
        }
        if clip_reads(&track.clips[i], asset) {
            let mut label = sequence.to_owned();
            label.append("/");
            label.append(track.name.as_str());
            label.append("/");
            label.append(track.clips[i].label());
            push_text(out, label.as_str());
        }
        i = i + 1;
        assert(strings(out@) =~= before + clip_users(
            track.clips@.take(i as int),
            sequence@,
            track.name@,
            asset@,
        ));
    }
    assert(track.clips@.take(i as int) =~= track.clips@);
}

fn push_track_users(out: &mut Vec<String>, sequence: &Sequence, asset: &str)
    ensures
        strings(final(out)@) == strings(old(out)@) + track_users(
            sequence.tracks@,
            sequence.name@,
            asset@,
        ),
{
    let ghost before = strings(out@);
    let mut i: usize = 0;
    assert(sequence.tracks@.take(0) =~= seq![]);
    assert(before + Seq::<Seq<char>>::empty() =~= before);
    while i < sequence.tracks.len()
        invariant
            i <= sequence.tracks@.len(),
            strings(out@) == before + track_users(
                sequence.tracks@.take(i as int),
                sequence.name@,
                asset@,
            ),
        decreases sequence.tracks@.len() - i,
    {
        proof {
            assert(sequence.tracks@.take(i + 1).drop_last() =~= sequence.tracks@.take(i as int));
        }
        push_clip_users(out, sequence.name.as_str(), &sequence.tracks[i], asset);
        i = i + 1;
        assert(strings(out@) =~= before + track_users(
            sequence.tracks@.take(i as int),
            sequence.name@,
            asset@,
        ));
    }
    assert(sequence.tracks@.take(i as int) =~= sequence.tracks@);
}

/// The clips that read an asset, as labels for a message.
pub fn users(project: &Project, asset: &str) -> (r: Vec<String>)
    ensures
        strings(r@) == asset_users(project.sequences@, asset@),
{
    let mut out: Vec<String> = Vec::new();
    let mut i: usize = 0;
    assert(project.sequences@.take(0) =~= seq![]);
    assert(strings(out@) =~= seq![]);
    while i < project.sequences.len()
        invariant
            i <= project.sequences@.len(),
            strings(out@) == asset_users(project.sequences@.take(i as int), asset@),
        decreases project.sequences@.len() - i,
    {
        proof {
            assert(project.sequences@.take(i + 1).drop_last() =~= project.sequences@.take(
                i as int,
            ));
        }
        push_track_users(&mut out, &project.sequences[i], asset);
        i = i + 1;
    }
    assert(project.sequences@.take(i as int) =~= project.sequences@);
    out
}

// ---------------------------------------------------------------------------
// Finding an asset
// ---------------------------------------------------------------------------

/// The name of a file without its extension.
pub open spec fn stem_of(name: Seq<char>) -> Seq<char> {
    let at = crate::paths::rfind(name, '.');
    if at > 0 {
        name.take(at)
    } else {
        name
    }
}

pub open spec fn asset_names(assets: Seq<Asset>) -> Seq<Seq<char>> {
    assets.map_values(|a: Asset| a.name@)
}

pub open spec fn asset_stems(assets: Seq<Asset>) -> Seq<Seq<char>> {
    assets.map_values(|a: Asset| stem_of(a.name@))
}

/// The asset that a text names: by its id, else by its name, else by its file stem. -1 where
/// there is none.
pub open spec fn resolved(project: Project, text: Seq<char>) -> int {
    if project.asset_at(text) >= 0 {
        project.asset_at(text)
    } else if index_of(asset_names(project.assets@), text) >= 0 {
        index_of(asset_names(project.assets@), text)
    } else {
        index_of(asset_stems(project.assets@), text)
    }
}

fn stem(name: &str) -> (r: String)
    ensures
        r@ == stem_of(name@),
{
    let chars = crate::text::chars_of(name);
    let n: usize = chars.len();
    let mut i: usize = n;
    assert(chars@.take(n as int) =~= chars@);
    while i > 0 && chars[i - 1] != '.'
        invariant
            i <= n,
            n == chars@.len(),
            crate::paths::rfind(chars@.take(i as int), '.') == crate::paths::rfind(chars@, '.'),
        decreases i,
    {
        assert(chars@.take(i as int).drop_last() =~= chars@.take(i - 1));
        i = i - 1;
    }
    proof {
        if i > 0 {
            assert(chars@.take(i as int).last() == chars@[i - 1]);
        }
    }
    if i > 1 {
        assert(chars@.subrange(0, i - 1) =~= chars@.take(i - 1));
        crate::text::string_of_range(&chars, 0, i - 1)
    } else {
        name.to_owned()
    }
}

/// The position of the asset that a text names.
pub fn resolve_asset(project: &Project, text: &str) -> (r: Result<usize, Error>)
    ensures
        r is Ok <==> resolved(*project, text@) >= 0,
        r is Ok ==> r->Ok_0 == resolved(*project, text@) && r->Ok_0 < project.assets@.len(),
        r is Err ==> r->Err_0@ == project.no_asset(text@),
{
    if let Some(at) = project.find_asset(text) {
        return Ok(at);
    }
    let ghost names = asset_names(project.assets@);
    let ghost stems = asset_stems(project.assets@);
    let mut i: usize = 0;
    while i < project.assets.len()
        invariant
            i <= project.assets@.len(),
            project.asset_at(text@) < 0,
            names == asset_names(project.assets@),
            forall|k: int| 0 <= k < i ==> names[k] != text@,
        decreases project.assets@.len() - i,
    {
        assert(names[i as int] == project.assets@[i as int].name@);
        if same(project.assets[i].name.as_str(), text) {
            proof {
                crate::project::lemma_index_of_is(names, text@, i as int);
            }
            return Ok(i);
        }
        i = i + 1;
    }
    proof {
        crate::project::lemma_index_of_none(names, text@);
    }
    let mut i: usize = 0;
    while i < project.assets.len()
        invariant
            i <= project.assets@.len(),
            project.asset_at(text@) < 0,
            index_of(asset_names(project.assets@), text@) < 0,
            stems == asset_stems(project.assets@),
            forall|k: int| 0 <= k < i ==> stems[k] != text@,
        decreases project.assets@.len() - i,
    {
        assert(stems[i as int] == stem_of(project.assets@[i as int].name@));
        if same(stem(project.assets[i].name.as_str()).as_str(), text) {
            proof {
                crate::project::lemma_index_of_is(stems, text@, i as int);
            }
            return Ok(i);
        }
        i = i + 1;
    }
    proof {
        crate::project::lemma_index_of_none(stems, text@);
    }
    match project.asset(text) {
        Ok(_) => Ok(0),
        Err(error) => Err(error),
    }
}

// ---------------------------------------------------------------------------
// Removing
// ---------------------------------------------------------------------------

/// The clips that do not read an asset.
pub open spec fn clips_without(clips: Seq<Clip>, asset: Seq<char>) -> Seq<Clip>
    decreases clips.len(),
{
    if clips.len() == 0 {
        seq![]
    } else if reads(clips.last(), asset) {
        clips_without(clips.drop_last(), asset)
    } else {
        clips_without(clips.drop_last(), asset).push(clips.last())
    }
}

pub open spec fn assets_without(assets: Seq<Asset>, asset: Seq<char>) -> Seq<Asset>
    decreases assets.len(),
{
    if assets.len() == 0 {
        seq![]
    } else if assets.last().id@ == asset {
        assets_without(assets.drop_last(), asset)
    } else {
        assets_without(assets.drop_last(), asset).push(assets.last())
    }
}

/// What a track is without the clips that read an asset: otherwise unchanged.
pub open spec fn track_without(before: Track, after: Track, asset: Seq<char>) -> bool {
    &&& after == (Track { clips: after.clips, ..before })
    &&& after.clips@ == clips_without(before.clips@, asset)
}

/// What a sequence is without them.
pub open spec fn sequence_without(before: Sequence, after: Sequence, asset: Seq<char>) -> bool {
    &&& after == (Sequence { tracks: after.tracks, ..before })
    &&& after.tracks@.len() == before.tracks@.len()
    &&& forall|t: int|
        0 <= t < before.tracks@.len() ==> track_without(
            before.tracks@[t],
            #[trigger] after.tracks@[t],
            asset,
        )
}

/// What a project is without an asset and the clips that read it.
pub open spec fn project_without(before: Project, after: Project, asset: Seq<char>) -> bool {
    &&& after == (Project { sequences: after.sequences, assets: after.assets, ..before })
    &&& after.assets@ == assets_without(before.assets@, asset)
    &&& after.sequences@.len() == before.sequences@.len()
    &&& forall|s: int|
        0 <= s < before.sequences@.len() ==> sequence_without(
            before.sequences@[s],
            #[trigger] after.sequences@[s],
            asset,
        )
}

/// Whether some clip of a track reads an asset.
pub open spec fn track_reads(track: Track, asset: Seq<char>) -> bool {
    exists|i: int| 0 <= i < track.clips@.len() && reads(#[trigger] track.clips@[i], asset)
}

/// The tracks of a sequence on which some clip reads an asset.
pub open spec fn tracks_reading(tracks: Seq<Track>, asset: Seq<char>) -> Seq<Seq<char>>
    decreases tracks.len(),
{
    if tracks.len() == 0 {
        seq![]
    } else if track_reads(tracks.last(), asset) {
        tracks_reading(tracks.drop_last(), asset).push(tracks.last().id@)
    } else {
        tracks_reading(tracks.drop_last(), asset)
    }
}

pub open spec fn all_tracks_reading(sequences: Seq<Sequence>, asset: Seq<char>) -> Seq<Seq<char>>
    decreases sequences.len(),
{
    if sequences.len() == 0 {
        seq![]
    } else {
        all_tracks_reading(sequences.drop_last(), asset) + tracks_reading(
            sequences.last().tracks@,
            asset,
        )
    }
}

fn some_clip_reads(clips: &Vec<Clip>, asset: &str) -> (r: bool)
    ensures
        r == (exists|i: int| 0 <= i < clips@.len() && reads(#[trigger] clips@[i], asset@)),
{
    let mut i: usize = 0;
    while i < clips.len()
        invariant
            i <= clips@.len(),
            forall|k: int| 0 <= k < i ==> !reads(#[trigger] clips@[k], asset@),
        decreases clips@.len() - i,
    {
        if clip_reads(&clips[i], asset) {
            return true;
        }
        i = i + 1;
    }
    false
}

fn push_tracks_reading(out: &mut Vec<String>, tracks: &Vec<Track>, asset: &str)
    ensures
        strings(final(out)@) == strings(old(out)@) + tracks_reading(tracks@, asset@),
{
    let ghost before = strings(out@);
    let mut i: usize = 0;
    assert(tracks@.take(0) =~= seq![]);
    assert(before + Seq::<Seq<char>>::empty() =~= before);
    while i < tracks.len()
        invariant
            i <= tracks@.len(),
            strings(out@) == before + tracks_reading(tracks@.take(i as int), asset@),
        decreases tracks@.len() - i,
    {
        assert(tracks@.take(i + 1).drop_last() =~= tracks@.take(i as int));
        if some_clip_reads(&tracks[i].clips, asset) {
            push_text(out, tracks[i].id.as_str());
        }
        i = i + 1;
        assert(strings(out@) =~= before + tracks_reading(tracks@.take(i as int), asset@));
    }
    assert(tracks@.take(i as int) =~= tracks@);
}

pub open spec fn still_used(asset: Seq<char>, used: Seq<Seq<char>>) -> ErrorView {
    ErrorView::Op(
        "asset '"@ + asset + "' is used by "@ + dec(used.len()) + " clip(s): "@ + join(used, ", "@)
            + "; pass force to remove them too"@,
    )
}

fn drop_clips(clips: &mut Vec<Clip>, asset: &str)
    ensures
        final(clips)@ == clips_without(old(clips)@, asset@),
{
    let ghost all = clips@;
    let mut kept: usize = 0;
    let ghost mut seen: int = 0;
    assert(all.take(0) =~= seq![]);
    assert(clips@ =~= clips_without(all.take(0), asset@) + all.skip(0));
    while kept < clips.len()
        invariant
            0 <= seen <= all.len(),
            kept == clips_without(all.take(seen), asset@).len(),
            clips@ == clips_without(all.take(seen), asset@) + all.skip(seen),
        decreases clips@.len() - kept,
    {
        proof {
            assert(clips@.len() == kept + (all.len() - seen));
            assert(clips@[kept as int] == all.skip(seen)[0]);
            assert(all.take(seen + 1).drop_last() =~= all.take(seen));
            assert(all.take(seen + 1).last() == all[seen]);
        }
        let ghost front = clips_without(all.take(seen), asset@);
        if clip_reads(&clips[kept], asset) {
            clips.remove(kept);
            assert(clips@ =~= front + all.skip(seen + 1));
        } else {
            kept = kept + 1;
            assert(clips@ =~= front.push(all[seen]) + all.skip(seen + 1));
        }
        proof {
            seen = seen + 1;
        }
    }
    proof {
        assert(all.skip(seen).len() == 0);
        assert(all.take(seen) =~= all);
        assert(clips@ =~= clips_without(all, asset@));
    }
}

fn drop_asset(assets: &mut Vec<Asset>, asset: &str)
    ensures
        final(assets)@ == assets_without(old(assets)@, asset@),
{
    let ghost all = assets@;
    let mut kept: usize = 0;
    let ghost mut seen: int = 0;
    assert(all.take(0) =~= seq![]);
    assert(assets@ =~= assets_without(all.take(0), asset@) + all.skip(0));
    while kept < assets.len()
        invariant
            0 <= seen <= all.len(),
            kept == assets_without(all.take(seen), asset@).len(),
            assets@ == assets_without(all.take(seen), asset@) + all.skip(seen),
        decreases assets@.len() - kept,
    {
        proof {
            assert(assets@.len() == kept + (all.len() - seen));
            assert(assets@[kept as int] == all.skip(seen)[0]);
            assert(all.take(seen + 1).drop_last() =~= all.take(seen));
            assert(all.take(seen + 1).last() == all[seen]);
        }
        let ghost front = assets_without(all.take(seen), asset@);
        if same(assets[kept].id.as_str(), asset) {
            assets.remove(kept);
            assert(assets@ =~= front + all.skip(seen + 1));
        } else {
            kept = kept + 1;
            assert(assets@ =~= front.push(all[seen]) + all.skip(seen + 1));
        }
        proof {
            seen = seen + 1;
        }
    }
    proof {
        assert(all.skip(seen).len() == 0);
        assert(all.take(seen) =~= all);
        assert(assets@ =~= assets_without(all, asset@));
    }
}

fn clean_tracks(tracks: &mut Vec<Track>, asset: &str)
    ensures
        final(tracks)@.len() == old(tracks)@.len(),
        forall|t: int|
            0 <= t < old(tracks)@.len() ==> track_without(
                old(tracks)@[t],
                #[trigger] final(tracks)@[t],
                asset@,
            ),
{
    let ghost all = tracks@;
    let n: usize = tracks.len();
    let mut t: usize = 0;
    while t < n
        invariant
            t <= n,
            n == tracks@.len(),
            n == all.len(),
            forall|k: int| 0 <= k < t ==> track_without(all[k], #[trigger] tracks@[k], asset@),
            forall|k: int| t <= k < n ==> #[trigger] tracks@[k] == all[k],
        decreases n - t,
    {
        assert(tracks@[t as int] == all[t as int]);
        let ghost was = tracks@;
        drop_clips(&mut tracks[t].clips, asset);
        proof {
            assert(track_without(all[t as int], tracks@[t as int], asset@));
            assert forall|k: int| 0 <= k < n && k != t implies tracks@[k] == was[k] by {}
        }
        t = t + 1;
    }
}

/// Takes an asset out of a project, and with `force` every clip that reads it. Gives the ids of
/// the tracks that clips were taken from.
pub fn remove_asset(project: &mut Project, asset: &str, force: bool) -> (r: Result<
    Vec<String>,
    Error,
>)
    ensures
        r is Err <==> !force && asset_users(old(project).sequences@, asset@).len() > 0,
        r is Err ==> r->Err_0@ == still_used(
            asset@,
            asset_users(old(project).sequences@, asset@),
        ),
        r is Err ==> *final(project) == *old(project),
        r is Ok ==> project_without(*old(project), *final(project), asset@),
        r is Ok ==> strings(r->Ok_0@) == all_tracks_reading(old(project).sequences@, asset@),
{
    let used = users(project, asset);
    if used.len() > 0 && !force {
        let mut detail = "asset '".to_owned();
        detail.append(asset);
        detail.append("' is used by ");
        detail.append(decimal(used.len() as u128).as_str());
        detail.append(" clip(s): ");
        detail.append(joined(&used, ", ").as_str());
        detail.append("; pass force to remove them too");
        return Err(Error::Op(detail));
    }
    let ghost all = project.sequences@;
    let n: usize = project.sequences.len();
    let mut changed: Vec<String> = Vec::new();
    let mut s: usize = 0;
    assert(all.take(0) =~= seq![]);
    assert(strings(changed@) =~= seq![]);
    while s < n
        invariant
            s <= n,
            strings(changed@) == all_tracks_reading(all.take(s as int), asset@),
            n == project.sequences@.len(),
            n == all.len(),
            all == old(project).sequences@,
            *project == (Project { sequences: project.sequences, ..*old(project) }),
            forall|k: int|
                0 <= k < s ==> sequence_without(all[k], #[trigger] project.sequences@[k], asset@),
            forall|k: int| s <= k < n ==> #[trigger] project.sequences@[k] == all[k],
        decreases n - s,
    {
        assert(project.sequences@[s as int] == all[s as int]);
        let ghost was = project.sequences@;
        assert(all.take(s + 1).drop_last() =~= all.take(s as int));
        push_tracks_reading(&mut changed, &project.sequences[s].tracks, asset);
        clean_tracks(&mut project.sequences[s].tracks, asset);
        proof {
            assert(sequence_without(all[s as int], project.sequences@[s as int], asset@));
            assert forall|k: int| 0 <= k < n && k != s implies project.sequences@[k] == was[k] by {}
        }
        s = s + 1;
    }
    drop_asset(&mut project.assets, asset);
    assert(all.take(s as int) =~= all);
    Ok(changed)
}

/// After an asset is removed nothing reads it, and it is gone.
pub proof fn law_a_removed_asset_is_not_read(clips: Seq<Clip>, assets: Seq<Asset>, asset: Seq<char>)
    ensures
        forall|i: int|
            0 <= i < clips_without(clips, asset).len() ==> !reads(
                #[trigger] clips_without(clips, asset)[i],
                asset,
            ),
        forall|i: int|
            0 <= i < assets_without(assets, asset).len() ==> (#[trigger] assets_without(
                assets,
                asset,
            )[i]).id@ != asset,
    decreases clips.len(), assets.len(),
{
    if clips.len() > 0 {
        law_a_removed_asset_is_not_read(clips.drop_last(), assets, asset);
        let rest = clips_without(clips.drop_last(), asset);
        assert forall|i: int| 0 <= i < clips_without(clips, asset).len() implies !reads(
            #[trigger] clips_without(clips, asset)[i],
            asset,
        ) by {
            if i < rest.len() {
                assert(clips_without(clips, asset)[i] == rest[i]);
            }
        }
    } else if assets.len() > 0 {
        law_a_removed_asset_is_not_read(clips, assets.drop_last(), asset);
        let rest = assets_without(assets.drop_last(), asset);
        assert forall|i: int| 0 <= i < assets_without(assets, asset).len() implies (
        #[trigger] assets_without(assets, asset)[i]).id@ != asset by {
            if i < rest.len() {
                assert(assets_without(assets, asset)[i] == rest[i]);
            }
        }
    }
}

} // verus!
