//! How long the producers of an MLT document have to be.

use crate::mlt::{Item, ItemView, Producer, ProducerView};
use crate::mlt_build::item_ok;
use crate::mlt_document::{track_ok, PlaylistOut, PlaylistView, TrackOut, TrackView};
use crate::timeline::{larger, FRAME_LIMIT};
use crate::views::views;
use vstd::prelude::*;

verus! {

/// How many frames of a producer an item asks for, counted from the producer's start.
pub open spec fn item_reach(item: ItemView, producer: int) -> int {
    match item {
        ItemView::Entry(entry) => if entry.producer == producer {
            entry.out_frame + 1
        } else {
            0
        },
        ItemView::Blank(_) => 0,
    }
}

/// The most that any of some items asks for.
pub open spec fn items_reach(items: Seq<ItemView>, producer: int) -> int
    decreases items.len(),
{
    if items.len() == 0 {
        0
    } else {
        larger(items_reach(items.drop_last(), producer), item_reach(items.last(), producer))
    }
}

pub open spec fn playlists_reach(playlists: Seq<PlaylistView>, producer: int) -> int
    decreases playlists.len(),
{
    if playlists.len() == 0 {
        0
    } else {
        larger(
            playlists_reach(playlists.drop_last(), producer),
            items_reach(playlists.last().items, producer),
        )
    }
}

pub open spec fn tracks_reach(tracks: Seq<TrackView>, producer: int) -> int
    decreases tracks.len(),
{
    if tracks.len() == 0 {
        0
    } else {
        larger(
            tracks_reach(tracks.drop_last(), producer),
            playlists_reach(tracks.last().playlists, producer),
        )
    }
}

/// The producers, each as long as its media and as what the tracks ask of it.
pub open spec fn covering(producers: Seq<ProducerView>, tracks: Seq<TrackView>) -> Seq<
    ProducerView,
> {
    Seq::new(
        producers.len(),
        |i: int|
            ProducerView {
                length: larger(producers[i].length, tracks_reach(tracks, i)),
                ..producers[i]
            },
    )
}

/// Whether an item asks for no more than its producer has.
pub open spec fn item_covered(item: ItemView, producers: Seq<ProducerView>) -> bool {
    item matches ItemView::Entry(entry) ==> entry.out_frame < producers[entry.producer].length
}

pub open spec fn track_covered(track: TrackView, producers: Seq<ProducerView>) -> bool {
    forall|k: int, j: int|
        0 <= k < track.playlists.len() && 0 <= j < track.playlists[k].items.len() ==> item_covered(
            #[trigger] track.playlists[k].items[j],
            producers,
        )
}

proof fn lemma_items(items: Seq<ItemView>, producer: int, j: int)
    requires
        0 <= j < items.len(),
    ensures
        item_reach(items[j], producer) <= items_reach(items, producer),
    decreases items.len(),
{
    if j < items.len() - 1 {
        lemma_items(items.drop_last(), producer, j);
    }
}

proof fn lemma_playlists(playlists: Seq<PlaylistView>, producer: int, k: int, j: int)
    requires
        0 <= k < playlists.len(),
        0 <= j < playlists[k].items.len(),
    ensures
        item_reach(playlists[k].items[j], producer) <= playlists_reach(playlists, producer),
    decreases playlists.len(),
{
    if k < playlists.len() - 1 {
        lemma_playlists(playlists.drop_last(), producer, k, j);
    } else {
        lemma_items(playlists[k].items, producer, j);
    }
}

proof fn lemma_tracks(tracks: Seq<TrackView>, producer: int, t: int, k: int, j: int)
    requires
        0 <= t < tracks.len(),
        0 <= k < tracks[t].playlists.len(),
        0 <= j < tracks[t].playlists[k].items.len(),
    ensures
        item_reach(tracks[t].playlists[k].items[j], producer) <= tracks_reach(tracks, producer),
    decreases tracks.len(),
{
    if t < tracks.len() - 1 {
        lemma_tracks(tracks.drop_last(), producer, t, k, j);
    } else {
        lemma_playlists(tracks[t].playlists, producer, k, j);
    }
}

/// Producers made long enough cover the largest `out` that any entry asks for.
pub proof fn law_producers_cover_their_entries(
    producers: Seq<ProducerView>,
    tracks: Seq<TrackView>,
    t: int,
)
    requires
        0 <= t < tracks.len(),
        track_ok(tracks[t], producers.len()),
    ensures
        track_covered(tracks[t], covering(producers, tracks)),
{
    let track = tracks[t];
    assert forall|k: int, j: int|
        0 <= k < track.playlists.len() && 0 <= j
            < track.playlists[k].items.len() implies item_covered(
        #[trigger] track.playlists[k].items[j],
        covering(producers, tracks),
    ) by {
        let item = track.playlists[k].items[j];
        assert(item_ok(item, producers.len()));
        if let ItemView::Entry(entry) = item {
            lemma_tracks(tracks, entry.producer, t, k, j);
        }
    }
}

fn reach_of_items(items: &Vec<Item>, producer: usize, producers: usize) -> (r: i64)
    requires
        forall|j: int|
            0 <= j < items@.len() ==> item_ok(#[trigger] views(items@)[j], producers as nat),
    ensures
        r == items_reach(views(items@), producer as int),
        0 <= r <= 2 * FRAME_LIMIT,
{
    let ghost all = views(items@);
    let mut most: i64 = 0;
    let mut j: usize = 0;
    assert(all.take(0) =~= seq![]);
    while j < items.len()
        invariant
            j <= items@.len(),
            all == views(items@),
            forall|j: int| 0 <= j < items@.len() ==> item_ok(#[trigger] all[j], producers as nat),
            most == items_reach(all.take(j as int), producer as int),
            0 <= most <= 2 * FRAME_LIMIT,
        decreases items@.len() - j,
    {
        proof {
            assert(all.take(j + 1).drop_last() =~= all.take(j as int));
            assert(all.take(j + 1).last() == items@[j as int]@);
            assert(item_ok(all[j as int], producers as nat));
        }
        if let Item::Entry(entry) = &items[j] {
            if entry.producer == producer && entry.out_frame + 1 > most {
                most = entry.out_frame + 1;
            }
        }
        j = j + 1;
    }
    assert(all.take(j as int) =~= all);
    most
}

fn reach_of_playlists(playlists: &Vec<PlaylistOut>, producer: usize, producers: usize) -> (r: i64)
    requires
        forall|k: int, j: int|
            0 <= k < playlists@.len() && 0 <= j < views(playlists@)[k].items.len() ==> item_ok(
                #[trigger] views(playlists@)[k].items[j],
                producers as nat,
            ),
    ensures
        r == playlists_reach(views(playlists@), producer as int),
        0 <= r <= 2 * FRAME_LIMIT,
{
    let ghost all = views(playlists@);
    let mut most: i64 = 0;
    let mut k: usize = 0;
    assert(all.take(0) =~= seq![]);
    while k < playlists.len()
        invariant
            k <= playlists@.len(),
            all == views(playlists@),
            forall|k: int, j: int|
                0 <= k < playlists@.len() && 0 <= j < all[k].items.len() ==> item_ok(
                    #[trigger] all[k].items[j],
                    producers as nat,
                ),
            most == playlists_reach(all.take(k as int), producer as int),
            0 <= most <= 2 * FRAME_LIMIT,
        decreases playlists@.len() - k,
    {
        proof {
            assert(all.take(k + 1).drop_last() =~= all.take(k as int));
            assert(all.take(k + 1).last() == playlists@[k as int]@);
            assert(all[k as int].items == views(playlists@[k as int].items@));
            assert forall|j: int| 0 <= j < playlists@[k as int].items@.len() implies item_ok(
                #[trigger] views(playlists@[k as int].items@)[j],
                producers as nat,
            ) by {
                assert(item_ok(all[k as int].items[j], producers as nat));
            }
        }
        let here: i64 = reach_of_items(&playlists[k].items, producer, producers);
        if here > most {
            most = here;
        }
        k = k + 1;
    }
    assert(all.take(k as int) =~= all);
    most
}

fn reach_of_tracks(tracks: &Vec<TrackOut>, producer: usize, producers: usize) -> (r: i64)
    requires
        forall|t: int|
            0 <= t < tracks@.len() ==> track_ok(#[trigger] views(tracks@)[t], producers as nat),
    ensures
        r == tracks_reach(views(tracks@), producer as int),
        0 <= r <= 2 * FRAME_LIMIT,
{
    let ghost all = views(tracks@);
    let mut most: i64 = 0;
    let mut t: usize = 0;
    assert(all.take(0) =~= seq![]);
    while t < tracks.len()
        invariant
            t <= tracks@.len(),
            all == views(tracks@),
            forall|t: int| 0 <= t < tracks@.len() ==> track_ok(#[trigger] all[t], producers as nat),
            most == tracks_reach(all.take(t as int), producer as int),
            0 <= most <= 2 * FRAME_LIMIT,
        decreases tracks@.len() - t,
    {
        proof {
            assert(all.take(t + 1).drop_last() =~= all.take(t as int));
            assert(all.take(t + 1).last() == tracks@[t as int]@);
            assert(all[t as int].playlists == views(tracks@[t as int].playlists@));
            assert(track_ok(all[t as int], producers as nat));
        }
        let here: i64 = reach_of_playlists(&tracks[t].playlists, producer, producers);
        if here > most {
            most = here;
        }
        t = t + 1;
    }
    assert(all.take(t as int) =~= all);
    most
}

/// Makes every producer long enough for what the tracks ask of it.
pub fn cover(producers: &mut Vec<Producer>, tracks: &Vec<TrackOut>)
    requires
        forall|t: int|
            0 <= t < tracks@.len() ==> track_ok(
                #[trigger] views(tracks@)[t],
                old(producers)@.len(),
            ),
    ensures
        views(final(producers)@) == covering(views(old(producers)@), views(tracks@)),
        forall|i: int|
            0 <= i < old(producers)@.len() && 0 < views(old(producers)@)[i].length
                < FRAME_LIMIT ==> 0 < (#[trigger] views(final(producers)@)[i]).length <= 2
                * FRAME_LIMIT,
{
    let ghost all = views(producers@);
    let ghost wide = covering(all, views(tracks@));
    let n: usize = producers.len();
    let mut i: usize = 0;
    while i < n
        invariant
            i <= n,
            n == producers@.len(),
            n == all.len(),
            wide == covering(all, views(tracks@)),
            forall|t: int|
                0 <= t < tracks@.len() ==> track_ok(#[trigger] views(tracks@)[t], n as nat),
            forall|k: int|
                0 <= k < n ==> (#[trigger] producers@[k])@ == if k < i {
                    wide[k]
                } else {
                    all[k]
                },
            forall|k: int|
                0 <= k < i ==> (#[trigger] wide[k]).length <= larger(
                    all[k].length,
                    2 * FRAME_LIMIT,
                ),
        decreases n - i,
    {
        assert(producers@[i as int]@ == all[i as int]);
        let reach: i64 = reach_of_tracks(tracks, i, n);
        let ghost was = producers@;
        if reach > producers[i].length {
            producers[i].length = reach;
        }
        assert(producers@[i as int]@ == wide[i as int]);
        assert forall|k: int| 0 <= k < n && k != i implies producers@[k] == was[k] by {}
        i = i + 1;
    }
    assert(views(producers@) =~= wide);
}

} // verus!
