//! A document is put together as MLT documents are: names, keys, and what stands in what.

use crate::mlt::{FilterView, ItemView, ProducerView, TransitionView};
use crate::mlt_document::{DocumentView, PlaylistView, TrackView};
use crate::mlt_tree::{
    bin_elem, bin_elems, bin_leaf, black_elem, black_leaf, combination_elems, filter_elem,
    filter_elems, front_elems, item_elem, item_elems, kdenlive_producer_props,
    kdenlive_sequence_props, kdenlive_track_props, main_attrs, main_elem, mlt_elem, only_if,
    playlist_elem, playlist_elems, producer_elem, producer_elems, producer_props, profile_elem,
    prop, props_of, range_props, reference_elems, root_attrs, track_elems, track_leaf, track_leaves,
    tracks_elems, tractor_elem, transition_elem, transition_elems,
};
use crate::mlt_write::{combination, entry_attrs, profile_event, tractor_attrs};
use crate::project::Project;
use crate::time::Fps;
use crate::xml::{attr, mlt_key, well_shaped, AttrView, Elem};
use vstd::prelude::*;

verus! {

pub open spec fn all_shaped(kids: Seq<Elem>) -> bool {
    forall|k: int| 0 <= k < kids.len() ==> well_shaped(#[trigger] kids[k])
}

broadcast proof fn lemma_none()
    ensures
        #[trigger] all_shaped(Seq::<Elem>::empty()),
{
}

broadcast proof fn lemma_one(e: Elem)
    requires
        well_shaped(e),
    ensures
        #[trigger] all_shaped(seq![e]),
{
}

broadcast proof fn lemma_more(kids: Seq<Elem>, e: Elem)
    requires
        all_shaped(kids),
        well_shaped(e),
    ensures
        #[trigger] all_shaped(kids.push(e)),
{
    assert forall|k: int| 0 <= k < kids.push(e).len() implies well_shaped(
        #[trigger] kids.push(e)[k],
    ) by {
        if k < kids.len() {
            assert(kids.push(e)[k] == kids[k]);
        }
    }
}

broadcast proof fn lemma_both(a: Seq<Elem>, b: Seq<Elem>)
    requires
        all_shaped(a),
        all_shaped(b),
    ensures
        #[trigger] all_shaped(a + b),
{
    assert forall|k: int| 0 <= k < (a + b).len() implies well_shaped(#[trigger] (a + b)[k]) by {
        if k < a.len() {
            assert((a + b)[k] == a[k]);
        } else {
            assert((a + b)[k] == b[k - a.len()]);
        }
    }
}

broadcast proof fn lemma_only_if(condition: bool, elems: Seq<Elem>)
    requires
        condition ==> all_shaped(elems),
    ensures
        #[trigger] all_shaped(only_if(condition, elems)),
{
}

broadcast proof fn lemma_prop(name: Seq<char>, value: Seq<char>)
    ensures
        #[trigger] well_shaped(prop(name, value)),
{
    assert(mlt_key(prop(name, value).attrs[0].key));
}

broadcast group group_shapes {
    lemma_none,
    lemma_one,
    lemma_more,
    lemma_both,
    lemma_only_if,
    lemma_prop,
}

/// Attributes with keys that are used, none of them twice.
pub open spec fn fine_attrs(attrs: Seq<AttrView>) -> bool {
    &&& forall|k: int| 0 <= k < attrs.len() ==> mlt_key(#[trigger] attrs[k].key)
    &&& forall|i: int, j: int|
        0 <= i < j < attrs.len() ==> #[trigger] attrs[i].key != #[trigger] attrs[j].key
}

proof fn lemma_three(first: Seq<char>, id: Seq<char>, from: Seq<char>, to: Seq<char>)
    requires
        first == "id"@ || first == "producer"@,
    ensures
        fine_attrs(seq![attr(first, id), attr("in"@, from), attr("out"@, to)]),
{
    reveal_strlit("id");
    reveal_strlit("producer");
    reveal_strlit("in");
    reveal_strlit("out");
    assert("id"@[1] != "in"@[1]);
    assert("id"@.len() == 2 && "producer"@.len() == 8 && "in"@.len() == 2 && "out"@.len() == 3);
}

proof fn lemma_root_attrs(d: DocumentView, project: Project, root: Seq<char>)
    ensures
        fine_attrs(root_attrs(d, project, root)),
{
    reveal_strlit("LC_NUMERIC");
    reveal_strlit("version");
    reveal_strlit("title");
    reveal_strlit("root");
    reveal_strlit("producer");
    assert("LC_NUMERIC"@.len() == 10 && "version"@.len() == 7 && "title"@.len() == 5
        && "root"@.len() == 4 && "producer"@.len() == 8);
}

proof fn lemma_main_attrs(d: DocumentView)
    ensures
        fine_attrs(main_attrs(d)),
{
    reveal_strlit("id");
    reveal_strlit("title");
    reveal_strlit("global_feed");
    reveal_strlit("in");
    reveal_strlit("out");
    assert("id"@[1] != "in"@[1]);
    assert("id"@.len() == 2 && "title"@.len() == 5 && "global_feed"@.len() == 11 && "in"@.len()
        == 2 && "out"@.len() == 3);
}

proof fn lemma_profile_attrs(d: DocumentView)
    ensures
        fine_attrs(profile_event(d)->Empty_attrs),
{
    reveal_strlit("description");
    reveal_strlit("width");
    reveal_strlit("height");
    reveal_strlit("progressive");
    reveal_strlit("sample_aspect_num");
    reveal_strlit("sample_aspect_den");
    reveal_strlit("display_aspect_num");
    reveal_strlit("display_aspect_den");
    reveal_strlit("frame_rate_num");
    reveal_strlit("frame_rate_den");
    reveal_strlit("colorspace");
    assert("description"@.len() == 11 && "progressive"@.len() == 11 && "description"@[0]
        != "progressive"@[0]);
    assert("width"@.len() == 5 && "height"@.len() == 6 && "colorspace"@.len() == 10);
    assert("sample_aspect_num"@.len() == 17 && "sample_aspect_den"@.len() == 17
        && "sample_aspect_num"@[14] != "sample_aspect_den"@[14]);
    assert("display_aspect_num"@.len() == 18 && "display_aspect_den"@.len() == 18
        && "display_aspect_num"@[15] != "display_aspect_den"@[15]);
    assert("frame_rate_num"@.len() == 14 && "frame_rate_den"@.len() == 14 && "frame_rate_num"@[11]
        != "frame_rate_den"@[11]);
    let attrs = profile_event(d)->Empty_attrs;
    assert(attrs.len() == 11);
    assert(attrs[0].key == "description"@ && attrs[1].key == "width"@ && attrs[2].key == "height"@
        && attrs[3].key == "progressive"@ && attrs[4].key == "sample_aspect_num"@ && attrs[5].key
        == "sample_aspect_den"@ && attrs[6].key == "display_aspect_num"@ && attrs[7].key
        == "display_aspect_den"@ && attrs[8].key == "frame_rate_num"@ && attrs[9].key
        == "frame_rate_den"@ && attrs[10].key == "colorspace"@);
}

proof fn lemma_props(list: Seq<AttrView>)
    ensures
        all_shaped(props_of(list)),
{
    broadcast use group_shapes;

}

proof fn lemma_range(range: Option<(i64, i64)>)
    ensures
        all_shaped(range_props(range)),
{
    broadcast use group_shapes;

}

proof fn lemma_filter(filter: FilterView)
    ensures
        well_shaped(filter_elem(filter)),
{
    broadcast use group_shapes;

    lemma_props(filter.props);
    lemma_range(filter.range);
    assert(all_shaped(filter_elem(filter).kids));
}

proof fn lemma_filters(filters: Seq<FilterView>)
    ensures
        all_shaped(filter_elems(filters)),
{
    assert forall|k: int| 0 <= k < filter_elems(filters).len() implies well_shaped(
        #[trigger] filter_elems(filters)[k],
    ) by {
        lemma_filter(filters[k]);
    }
}

proof fn lemma_transition(t: TransitionView)
    ensures
        well_shaped(transition_elem(t)),
{
    broadcast use group_shapes;

    lemma_props(t.props);
    lemma_range(t.range);
    assert(all_shaped(transition_elem(t).kids));
}

proof fn lemma_producer(p: ProducerView, fps: Fps, kdenlive: bool)
    ensures
        well_shaped(producer_elem(p, fps, kdenlive)),
{
    broadcast use group_shapes;

    reveal(producer_props);
    let e = producer_elem(p, fps, kdenlive);
    lemma_three("id"@, p.id, "0"@, crate::mlt_write::last_frame(p.length));
    assert(all_shaped(kdenlive_producer_props(p, fps)));
    assert(all_shaped(e.kids));
}

proof fn lemma_bin_elems(producers: Seq<ProducerView>)
    ensures
        all_shaped(bin_elems(producers)),
    decreases producers.len(),
{
    broadcast use group_shapes;

    if producers.len() > 0 {
        lemma_bin_elems(producers.drop_last());
        let p = producers.last();
        lemma_three("producer"@, p.id, "0"@, crate::mlt_write::last_frame(p.length));
        assert(well_shaped(bin_leaf(p)));
    }
}

proof fn lemma_bin(d: DocumentView, project: Project)
    ensures
        well_shaped(bin_elem(d, project)),
{
    broadcast use group_shapes;

    lemma_bin_elems(d.producers);
    assert(all_shaped(bin_elem(d, project).kids));
}

proof fn lemma_black(frames: int)
    ensures
        well_shaped(black_elem(frames)),
{
    broadcast use group_shapes;

    lemma_three("id"@, "black_track"@, "0"@, crate::mlt_write::last_frame(frames));
    assert(all_shaped(black_elem(frames).kids));
}

proof fn lemma_item(item: ItemView, producers: Seq<ProducerView>)
    ensures
        well_shaped(item_elem(item, producers)),
{
    let e = item_elem(item, producers);
    match item {
        ItemView::Blank(frames) => {
            assert(mlt_key(e.attrs[0].key));
        },
        ItemView::Entry(entry) => {
            let attrs = entry_attrs(entry, producers);
            lemma_three("producer"@, attrs[0].value, attrs[1].value, attrs[2].value);
            lemma_filters(entry.filters);
            assert(all_shaped(e.kids));
        },
    }
}

proof fn lemma_playlist(
    playlist: PlaylistView,
    audio: bool,
    producers: Seq<ProducerView>,
    kdenlive: bool,
)
    ensures
        well_shaped(playlist_elem(playlist, audio, producers, kdenlive)),
{
    broadcast use group_shapes;

    let items = item_elems(playlist.items, producers);
    assert forall|k: int| 0 <= k < items.len() implies well_shaped(#[trigger] items[k]) by {
        lemma_item(playlist.items[k], producers);
    }
    assert(all_shaped(items));
    assert(all_shaped(playlist_elem(playlist, audio, producers, kdenlive).kids));
}

proof fn lemma_tractor(track: TrackView, id: Seq<char>, frames: int, kdenlive: bool)
    ensures
        well_shaped(tractor_elem(track, id, frames, kdenlive)),
{
    broadcast use group_shapes;

    let attrs = tractor_attrs(id, frames);
    lemma_three("id"@, attrs[0].value, attrs[1].value, attrs[2].value);
    let transitions = transition_elems(track.transitions);
    assert forall|k: int| 0 <= k < transitions.len() implies well_shaped(
        #[trigger] transitions[k],
    ) by {
        lemma_transition(track.transitions[k]);
    }
    let references = reference_elems(track.playlists);
    assert forall|k: int| 0 <= k < references.len() implies well_shaped(
        #[trigger] references[k],
    ) by {
        assert(mlt_key(references[k].attrs[0].key));
    }
    lemma_filters(track.filters);
    assert(all_shaped(transitions));
    assert(all_shaped(references));
    assert(all_shaped(kdenlive_track_props(track)));
    assert(all_shaped(tractor_elem(track, id, frames, kdenlive).kids));
}

proof fn lemma_tracks(
    tracks: Seq<TrackView>,
    producers: Seq<ProducerView>,
    frames: int,
    kdenlive: bool,
)
    ensures
        all_shaped(tracks_elems(tracks, producers, frames, kdenlive)),
    decreases tracks.len(),
{
    broadcast use group_shapes;

    if tracks.len() > 0 {
        lemma_tracks(tracks.drop_last(), producers, frames, kdenlive);
        let track = tracks.last();
        let lists = playlist_elems(track.playlists, track.audio, producers, kdenlive);
        assert forall|k: int| 0 <= k < lists.len() implies well_shaped(#[trigger] lists[k]) by {
            lemma_playlist(track.playlists[k], track.audio, producers, kdenlive);
        }
        assert(all_shaped(lists));
        if let Some(tractor) = track.tractor {
            lemma_tractor(track, tractor, frames, kdenlive);
        }
        assert(all_shaped(track_elems(track, producers, frames, kdenlive)));
    }
}

proof fn lemma_leaf(track: TrackView)
    ensures
        well_shaped(track_leaf(track)),
{
    reveal_strlit("producer");
    reveal_strlit("hide");
    assert("producer"@.len() == 8 && "hide"@.len() == 4);
}

proof fn lemma_combinations(tracks: Seq<TrackView>, compositor: Seq<char>)
    ensures
        all_shaped(combination_elems(tracks, compositor)),
    decreases tracks.len(),
{
    broadcast use group_shapes;

    if tracks.len() > 0 {
        lemma_combinations(tracks.drop_last(), compositor);
        lemma_transition(combination(tracks.last(), tracks.len() as int, compositor));
    }
}

proof fn lemma_main(d: DocumentView, project: Project, compositor: Seq<char>, kdenlive: bool)
    ensures
        well_shaped(main_elem(d, project, compositor, kdenlive)),
{
    broadcast use group_shapes;

    lemma_main_attrs(d);
    lemma_combinations(d.tracks, compositor);
    let leaves = track_leaves(d.tracks);
    assert forall|k: int| 0 <= k < leaves.len() implies well_shaped(#[trigger] leaves[k]) by {
        lemma_leaf(d.tracks[k]);
    }
    assert(all_shaped(leaves));
    assert(mlt_key(black_leaf().attrs[0].key));
    assert(well_shaped(black_leaf()));
    assert(all_shaped(kdenlive_sequence_props(d, project)));
    assert(all_shaped(main_elem(d, project, compositor, kdenlive).kids));
}

/// Every document is put together as MLT documents are.
pub proof fn lemma_document_is_well_shaped(
    d: DocumentView,
    project: Project,
    root: Seq<char>,
    compositor: Seq<char>,
    kdenlive: bool,
)
    ensures
        well_shaped(mlt_elem(d, project, root, compositor, kdenlive)),
{
    broadcast use group_shapes;

    reveal(mlt_elem);
    lemma_root_attrs(d, project, root);
    lemma_profile_attrs(d);
    assert(well_shaped(profile_elem(d)));
    let producers = producer_elems(d.producers, d.fps, kdenlive);
    assert forall|k: int| 0 <= k < producers.len() implies well_shaped(
        #[trigger] producers[k],
    ) by {
        lemma_producer(d.producers[k], d.fps, kdenlive);
    }
    assert(all_shaped(producers));
    lemma_bin(d, project);
    lemma_black(d.frames);
    lemma_tracks(d.tracks, d.producers, d.frames, kdenlive);
    lemma_main(d, project, compositor, kdenlive);
    assert(all_shaped(front_elems(d, project, kdenlive)));
    assert(all_shaped(mlt_elem(d, project, root, compositor, kdenlive).kids));
}

} // verus!
