//! What the elements of a document refer to stands in front of them.

use crate::mlt::{FilterView, ItemView, ProducerView, TransitionView};
use crate::mlt_build::item_ok;
use crate::mlt_document::{document_of, document_ok, track_ok, DocumentView, TrackView};
use crate::mlt_ids::{
    lemma_document_is_numbered, lists_before, track_numbered, tracks_numbered, tractors_before,
};
use crate::mlt_places::{
    before_tracks, lemma_attribute, lemma_black, lemma_layout, lemma_playlist, lemma_producer,
    lemma_root_id, lemma_track_at,
};
use crate::mlt_tree::{
    bin_elem, bin_elems, bin_leaf, black_elem, black_leaf, combination_elems, filter_elem,
    filter_elems, item_elem, item_elems, kdenlive_producer_props, kdenlive_sequence_props,
    kdenlive_track_props, main_elem, mlt_elem, only_if, playlist_elem, producer_elem,
    producer_props, profile_elem, prop, props_of, range_props, reference_elems, track_elems,
    track_leaf, track_leaves, tracks_elems, tractor_elem, transition_elem, transition_elems,
};
use crate::mlt_write::{combination, entry_attrs, profile_event};
use crate::project::{Project, Sequence};
use crate::time::Fps;
use crate::xml::{attribute, read_attrs, Elem};
use crate::xml_find::id_of;
use vstd::prelude::*;

verus! {

/// What an element refers to, if it refers to something.
pub open spec fn ref_of(e: Elem) -> Option<Seq<char>> {
    attribute(read_attrs(e.attrs), "producer"@)
}

/// Whether an element, or one in it, refers to something.
pub open spec fn holds_ref(e: Elem, id: Seq<char>) -> bool
    decreases e,
{
    ||| ref_of(e) == Some(id)
    ||| exists|k: int| 0 <= k < e.kids.len() && holds_ref(#[trigger] e.kids[k], id)
}

pub open spec fn no_refs(e: Elem) -> bool {
    forall|id: Seq<char>| !(#[trigger] holds_ref(e, id))
}

pub open spec fn none_have_refs(kids: Seq<Elem>) -> bool {
    forall|k: int| 0 <= k < kids.len() ==> no_refs(#[trigger] kids[k])
}

broadcast proof fn lemma_none()
    ensures
        #[trigger] none_have_refs(seq![]),
{
}

broadcast proof fn lemma_one(e: Elem)
    requires
        no_refs(e),
    ensures
        #[trigger] none_have_refs(seq![e]),
{
}

broadcast proof fn lemma_more(kids: Seq<Elem>, e: Elem)
    requires
        none_have_refs(kids),
        no_refs(e),
    ensures
        #[trigger] none_have_refs(kids.push(e)),
{
    assert forall|k: int| 0 <= k < kids.push(e).len() implies no_refs(
        #[trigger] kids.push(e)[k],
    ) by {
        if k < kids.len() {
            assert(no_refs(kids[k]));
        }
    }
}

broadcast proof fn lemma_both(a: Seq<Elem>, b: Seq<Elem>)
    requires
        none_have_refs(a),
        none_have_refs(b),
    ensures
        #[trigger] none_have_refs(a + b),
{
    assert forall|k: int| 0 <= k < (a + b).len() implies no_refs(#[trigger] (a + b)[k]) by {
        if k < a.len() {
            assert(no_refs(a[k]));
        } else {
            assert(no_refs(b[k - a.len()]));
        }
    }
}

broadcast proof fn lemma_only_if(condition: bool, elems: Seq<Elem>)
    requires
        none_have_refs(elems),
    ensures
        #[trigger] none_have_refs(only_if(condition, elems)),
{
}

broadcast proof fn lemma_prop(name: Seq<char>, value: Seq<char>)
    ensures
        #[trigger] no_refs(prop(name, value)),
{
    reveal_strlit("name");
    reveal_strlit("producer");
    assert("name"@.len() == 4 && "producer"@.len() == 8);
    lemma_attribute(prop(name, value).attrs, "producer"@, 1);
}

broadcast group group_no_refs {
    lemma_none,
    lemma_one,
    lemma_more,
    lemma_both,
    lemma_only_if,
    lemma_prop,
}

proof fn lemma_nothing(e: Elem)
    requires
        ref_of(e) is None,
        none_have_refs(e.kids),
    ensures
        no_refs(e),
{
    assert forall|id: Seq<char>| !(#[trigger] holds_ref(e, id)) by {
        if holds_ref(e, id) {
            let k = choose|k: int| 0 <= k < e.kids.len() && holds_ref(#[trigger] e.kids[k], id);
            assert(no_refs(e.kids[k]));
        }
    }
}

/// The names of attributes that no reference has.
proof fn lemma_names()
    ensures
        "producer"@ != "id"@,
        "producer"@ != "in"@,
        "producer"@ != "out"@,
        "producer"@ != "length"@,
        "producer"@ != "title"@,
        "producer"@ != "global_feed"@,
{
    reveal_strlit("producer");
    reveal_strlit("id");
    reveal_strlit("in");
    reveal_strlit("out");
    reveal_strlit("length");
    reveal_strlit("title");
    reveal_strlit("global_feed");
    assert("producer"@.len() == 8 && "id"@.len() == 2 && "in"@.len() == 2 && "out"@.len() == 3
        && "length"@.len() == 6 && "title"@.len() == 5 && "global_feed"@.len() == 11);
}

proof fn lemma_filters(filters: Seq<FilterView>)
    ensures
        none_have_refs(filter_elems(filters)),
{
    broadcast use group_no_refs;

    assert forall|k: int| 0 <= k < filter_elems(filters).len() implies no_refs(
        #[trigger] filter_elems(filters)[k],
    ) by {
        let filter = filters[k];
        let e = filter_elem(filter);
        assert(none_have_refs(props_of(filter.props)));
        assert(none_have_refs(range_props(filter.range)));
        assert(none_have_refs(e.kids));
        lemma_attribute(e.attrs, "producer"@, 0);
        lemma_nothing(e);
    }
}

proof fn lemma_transition(t: TransitionView)
    ensures
        no_refs(transition_elem(t)),
{
    broadcast use group_no_refs;

    let e = transition_elem(t);
    lemma_names();
    assert(none_have_refs(props_of(t.props)));
    assert(none_have_refs(range_props(t.range)));
    assert(none_have_refs(e.kids));
    lemma_attribute(e.attrs, "producer"@, 1);
    lemma_nothing(e);
}

proof fn lemma_profile_refs(d: DocumentView)
    ensures
        no_refs(profile_elem(d)),
{
    reveal_strlit("producer");
    reveal_strlit("description");
    reveal_strlit("width");
    reveal_strlit("height");
    reveal_strlit("progressive");
    reveal_strlit("sample_aspect_num");
    reveal_strlit("sample_aspect_den");
    reveal_strlit("display_aspect_num");
    reveal_strlit("display_aspect_den");
    reveal_strlit("frame_rate_num");
    reveal_strlit("frame_rate_den");
    reveal_strlit("colorspace");
    let attrs = profile_event(d)->Empty_attrs;
    assert(attrs.len() == 11);
    assert("producer"@.len() == 8);
    assert forall|j: int| 0 <= j < 11 implies #[trigger] attrs[j].key != "producer"@ by {
        assert(attrs[j].key.len() != 8);
    }
    lemma_attribute(attrs, "producer"@, 11);
    lemma_nothing(profile_elem(d));
}

proof fn lemma_producer_refs(p: ProducerView, fps: Fps, kdenlive: bool)
    ensures
        no_refs(producer_elem(p, fps, kdenlive)),
{
    broadcast use group_no_refs;

    reveal(producer_props);
    let e = producer_elem(p, fps, kdenlive);
    lemma_names();
    assert(none_have_refs(kdenlive_producer_props(p, fps)));
    assert(none_have_refs(e.kids));
    lemma_attribute(e.attrs, "producer"@, 3);
    lemma_nothing(e);
}

proof fn lemma_black_refs(frames: int)
    ensures
        no_refs(black_elem(frames)),
{
    broadcast use group_no_refs;

    let e = black_elem(frames);
    lemma_names();
    assert(none_have_refs(e.kids));
    lemma_attribute(e.attrs, "producer"@, 3);
    lemma_nothing(e);
}

/// Whether what an element refers to is the id of one of some producers.
pub open spec fn names_producer(id: Seq<char>, producers: Seq<ProducerView>) -> bool {
    exists|m: int| 0 <= m < producers.len() && (#[trigger] producers[m]).id == id
}

proof fn lemma_item_refs(item: ItemView, producers: Seq<ProducerView>, id: Seq<char>)
    requires
        item_ok(item, producers.len()),
        holds_ref(item_elem(item, producers), id),
    ensures
        names_producer(id, producers),
{
    lemma_names();
    let e = item_elem(item, producers);
    match item {
        ItemView::Blank(frames) => {
            lemma_attribute(e.attrs, "producer"@, 1);
            lemma_nothing(e);
        },
        ItemView::Entry(entry) => {
            lemma_attribute(entry_attrs(entry, producers), "producer"@, 0);
            lemma_filters(entry.filters);
            if ref_of(e) == Some(id) {
                assert(producers[entry.producer].id == id);
            } else {
                let k = choose|k: int| 0 <= k < e.kids.len() && holds_ref(#[trigger] e.kids[k], id);
                assert(no_refs(filter_elems(entry.filters)[k]));
            }
        },
    }
}

proof fn lemma_playlist_refs(
    playlist: crate::mlt_document::PlaylistView,
    audio: bool,
    producers: Seq<ProducerView>,
    kdenlive: bool,
    id: Seq<char>,
)
    requires
        forall|j: int|
            0 <= j < playlist.items.len() ==> item_ok(#[trigger] playlist.items[j], producers.len()),
        holds_ref(playlist_elem(playlist, audio, producers, kdenlive), id),
    ensures
        names_producer(id, producers),
{
    broadcast use group_no_refs;

    let e = playlist_elem(playlist, audio, producers, kdenlive);
    lemma_names();
    lemma_attribute(e.attrs, "producer"@, 1);
    let k = choose|k: int| 0 <= k < e.kids.len() && holds_ref(#[trigger] e.kids[k], id);
    let front = only_if(kdenlive && audio, seq![prop("kdenlive:audio_track"@, "1"@)]);
    let items = item_elems(playlist.items, producers);
    assert(none_have_refs(front));
    assert(e.kids == front + items);
    if k < front.len() {
        assert(e.kids[k] == front[k]);
        assert(no_refs(front[k]));
    } else {
        let j = k - front.len();
        assert(e.kids[k] == items[j]);
        assert(item_ok(playlist.items[j], producers.len()));
        lemma_item_refs(playlist.items[j], producers, id);
    }
}

proof fn lemma_bin_elems(producers: Seq<ProducerView>, k: int, id: Seq<char>)
    requires
        0 <= k < bin_elems(producers).len(),
        holds_ref(bin_elems(producers)[k], id),
    ensures
        names_producer(id, producers),
    decreases producers.len(),
{
    if producers.len() > 0 {
        let rest = producers.drop_last();
        if k < bin_elems(rest).len() {
            assert(bin_elems(producers)[k] == bin_elems(rest)[k]);
            lemma_bin_elems(rest, k, id);
            let m = choose|m: int| 0 <= m < rest.len() && (#[trigger] rest[m]).id == id;
            assert(producers[m].id == id);
        } else {
            let e = bin_leaf(producers.last());
            assert(bin_elems(producers)[k] == e);
            lemma_attribute(e.attrs, "producer"@, 0);
            assert(producers[producers.len() - 1].id == id);
        }
    }
}

proof fn lemma_bin_refs(d: DocumentView, project: Project, id: Seq<char>)
    requires
        holds_ref(bin_elem(d, project), id),
    ensures
        names_producer(id, d.producers),
{
    broadcast use group_no_refs;

    let e = bin_elem(d, project);
    lemma_names();
    lemma_attribute(e.attrs, "producer"@, 1);
    let k = choose|k: int| 0 <= k < e.kids.len() && holds_ref(#[trigger] e.kids[k], id);
    let bin = bin_elems(d.producers);
    let n = e.kids.len() - bin.len();
    let front = e.kids.take(n);
    assert(none_have_refs(front)) by {
        assert(front =~= seq![
            prop("kdenlive:docproperties.decimalPoint"@, "."@),
        ].push(
            prop("kdenlive:docproperties.version"@, crate::mlt::KDENLIVE_DOC_VERSION@),
        ).push(
            prop("kdenlive:docproperties.kdenliveversion"@, crate::mlt::KDENLIVE_VERSION@),
        ).push(prop("kdenlive:docproperties.documentid"@, project.id@)).push(
            prop("kdenlive:docproperties.uuid"@, crate::mlt_write::document_uuid(d, project)),
        ).push(
            prop(
                "kdenlive:docproperties.profile"@,
                crate::mlt_write::size_text(d.size) + " "@ + d.fps.text(),
            ),
        ).push(prop("kdenlive:docproperties.seekOffset"@, "30000"@)).push(
            prop("kdenlive:folder.-1.1"@, project.name@),
        ).push(prop("xml_retain"@, "1"@)));
    }
    if k < n {
        assert(e.kids[k] == front[k]);
        assert(no_refs(front[k]));
    } else {
        assert(e.kids[k] == bin[k - n]);
        lemma_bin_elems(d.producers, k - n, id);
    }
}

proof fn lemma_tractor_refs(
    track: TrackView,
    own: Seq<char>,
    frames: int,
    kdenlive: bool,
    id: Seq<char>,
)
    requires
        holds_ref(tractor_elem(track, own, frames, kdenlive), id),
    ensures
        exists|k: int| 0 <= k < track.playlists.len() && (#[trigger] track.playlists[k]).id == id,
{
    broadcast use group_no_refs;

    let e = tractor_elem(track, own, frames, kdenlive);
    lemma_names();
    lemma_attribute(e.attrs, "producer"@, e.attrs.len() as int);
    lemma_filters(track.filters);
    let front = only_if(kdenlive, kdenlive_track_props(track));
    assert(none_have_refs(kdenlive_track_props(track)));
    assert(none_have_refs(front));
    let references = reference_elems(track.playlists);
    let transitions = transition_elems(track.transitions);
    let filters = filter_elems(track.filters);
    assert(e.kids == front + references + transitions + filters);
    let k = choose|k: int| 0 <= k < e.kids.len() && holds_ref(#[trigger] e.kids[k], id);
    let a = front.len() as int;
    let b = a + references.len();
    let c = b + transitions.len();
    if k < a {
        assert(e.kids[k] == front[k]);
        assert(no_refs(front[k]));
    } else if k < b {
        assert(e.kids[k] == references[k - a]);
        lemma_attribute(references[k - a].attrs, "producer"@, 0);
        assert(track.playlists[k - a].id == id);
    } else if k < c {
        assert(e.kids[k] == transitions[k - b]);
        lemma_transition(track.transitions[k - b]);
    } else {
        assert(e.kids[k] == filters[k - c]);
        assert(no_refs(filters[k - c]));
    }
}

proof fn lemma_main_refs(
    d: DocumentView,
    project: Project,
    compositor: Seq<char>,
    kdenlive: bool,
    id: Seq<char>,
)
    requires
        holds_ref(main_elem(d, project, compositor, kdenlive), id),
    ensures
        id == "black_track"@ || exists|t: int|
            0 <= t < d.tracks.len() && (#[trigger] d.tracks[t]).reference == id,
{
    broadcast use group_no_refs;

    let e = main_elem(d, project, compositor, kdenlive);
    lemma_names();
    lemma_attribute(e.attrs, "producer"@, 5);
    let front = only_if(kdenlive, kdenlive_sequence_props(d, project));
    assert(none_have_refs(kdenlive_sequence_props(d, project)));
    assert(none_have_refs(front));
    let leaves = track_leaves(d.tracks);
    let combinations = combination_elems(d.tracks, compositor);
    assert(e.kids == front.push(black_leaf()) + leaves + combinations);
    let k = choose|k: int| 0 <= k < e.kids.len() && holds_ref(#[trigger] e.kids[k], id);
    let a = front.len() as int;
    let b = a + 1 + leaves.len();
    if k < a {
        assert(e.kids[k] == front[k]);
        assert(no_refs(front[k]));
    } else if k == a {
        assert(e.kids[k] == black_leaf());
        lemma_attribute(black_leaf().attrs, "producer"@, 0);
    } else if k < b {
        let t = k - a - 1;
        assert(e.kids[k] == leaves[t]);
        lemma_attribute(track_leaf(d.tracks[t]).attrs, "producer"@, 0);
        assert(d.tracks[t].reference == id);
    } else {
        assert(e.kids[k] == combinations[k - b]);
        lemma_combination_refs(d.tracks, compositor, k - b);
    }
}

proof fn lemma_combination_refs(tracks: Seq<TrackView>, compositor: Seq<char>, k: int)
    requires
        0 <= k < combination_elems(tracks, compositor).len(),
    ensures
        no_refs(combination_elems(tracks, compositor)[k]),
    decreases tracks.len(),
{
    if tracks.len() > 0 {
        let rest = combination_elems(tracks.drop_last(), compositor);
        if k < rest.len() {
            assert(combination_elems(tracks, compositor)[k] == rest[k]);
            lemma_combination_refs(tracks.drop_last(), compositor, k);
        } else {
            lemma_transition(combination(tracks.last(), tracks.len() as int, compositor));
        }
    }
}

// ---------------------------------------------------------------------------
// The document
// ---------------------------------------------------------------------------

/// Which track an element among those of all tracks is of.
proof fn lemma_whose(
    tracks: Seq<TrackView>,
    producers: Seq<ProducerView>,
    frames: int,
    kdenlive: bool,
    q: int,
) -> (t: int)
    requires
        0 <= q < tracks_elems(tracks, producers, frames, kdenlive).len(),
    ensures
        0 <= t < tracks.len(),
        ({
            let from = tracks_elems(tracks.take(t), producers, frames, kdenlive).len();
            from <= q < from + track_elems(tracks[t], producers, frames, kdenlive).len()
        }),
    decreases tracks.len(),
{
    if tracks.len() == 0 {
        0
    } else {
        let rest = tracks.drop_last();
        let last = tracks.len() - 1;
        assert(tracks.take(last) =~= rest);
        if q < tracks_elems(rest, producers, frames, kdenlive).len() {
            let t = lemma_whose(rest, producers, frames, kdenlive, q);
            assert(rest.take(t) =~= tracks.take(t));
            t
        } else {
            last
        }
    }
}

/// Whether an identifier is that of an element in front of the `j`-th.
pub open spec fn stands_before(kids: Seq<Elem>, j: int, id: Seq<char>) -> bool {
    exists|i: int| 0 <= i < j && id_of(#[trigger] kids[i]) == Some(id)
}

proof fn lemma_producer_before(
    d: DocumentView,
    project: Project,
    root: Seq<char>,
    compositor: Seq<char>,
    kdenlive: bool,
    j: int,
    id: Seq<char>,
)
    requires
        d.producers.len() < j,
        names_producer(id, d.producers),
    ensures
        stands_before(mlt_elem(d, project, root, compositor, kdenlive).kids, j, id),
{
    lemma_layout(d, project, root, compositor, kdenlive);
    let kids = mlt_elem(d, project, root, compositor, kdenlive).kids;
    let m = choose|m: int| 0 <= m < d.producers.len() && (#[trigger] d.producers[m]).id == id;
    lemma_producer(d.producers[m], d.fps, kdenlive);
    assert(kids[m + 1] == producer_elem(d.producers[m], d.fps, kdenlive));
    assert(id_of(kids[m + 1]) == Some(id));
}

proof fn lemma_playlist_at(
    d: DocumentView,
    project: Project,
    root: Seq<char>,
    compositor: Seq<char>,
    kdenlive: bool,
    t: int,
    k: int,
)
    requires
        0 <= t < d.tracks.len(),
        0 <= k < d.tracks[t].playlists.len(),
    ensures
        ({
            let from = before_tracks(d, kdenlive) + tracks_elems(
                d.tracks.take(t),
                d.producers,
                d.frames,
                kdenlive,
            ).len();
            let kids = mlt_elem(d, project, root, compositor, kdenlive).kids;
            &&& from + k < kids.len() - 1
            &&& id_of(kids[from + k]) == Some(d.tracks[t].playlists[k].id)
        }),
{
    lemma_layout(d, project, root, compositor, kdenlive);
    lemma_track_at(d.tracks, d.producers, d.frames, kdenlive, t);
    let kids = mlt_elem(d, project, root, compositor, kdenlive).kids;
    let all = tracks_elems(d.tracks, d.producers, d.frames, kdenlive);
    let before = tracks_elems(d.tracks.take(t), d.producers, d.frames, kdenlive);
    let own = track_elems(d.tracks[t], d.producers, d.frames, kdenlive);
    let track = d.tracks[t];
    lemma_playlist(track.playlists[k], track.audio, d.producers, kdenlive);
    assert(own[k] == playlist_elem(track.playlists[k], track.audio, d.producers, kdenlive));
    assert(all[before.len() + k] == own[k]);
    assert(kids[before_tracks(d, kdenlive) + (before.len() + k)] == all[before.len() + k]);
}

proof fn lemma_reference_at(
    d: DocumentView,
    project: Project,
    root: Seq<char>,
    compositor: Seq<char>,
    kdenlive: bool,
    t: int,
)
    requires
        tracks_numbered(d.tracks),
        0 <= t < d.tracks.len(),
    ensures
        ({
            let kids = mlt_elem(d, project, root, compositor, kdenlive).kids;
            stands_before(kids, kids.len() - 1, d.tracks[t].reference)
        }),
{
    let kids = mlt_elem(d, project, root, compositor, kdenlive).kids;
    let track = d.tracks[t];
    assert(track_numbered(
        track,
        lists_before(d.tracks, t),
        tractors_before(d.tracks, t),
    ));
    let n = before_tracks(d, kdenlive);
    let before = tracks_elems(d.tracks.take(t), d.producers, d.frames, kdenlive);
    match track.tractor {
        Some(own) => {
            lemma_layout(d, project, root, compositor, kdenlive);
            lemma_track_at(d.tracks, d.producers, d.frames, kdenlive, t);
            let all = tracks_elems(d.tracks, d.producers, d.frames, kdenlive);
            let elems = track_elems(track, d.producers, d.frames, kdenlive);
            let k = track.playlists.len() as int;
            let e = tractor_elem(track, own, d.frames, kdenlive);
            assert(elems[k] == e);
            assert(all[before.len() + k] == elems[k]);
            assert(kids[n + (before.len() + k)] == all[before.len() + k]);
            lemma_attribute(e.attrs, "id"@, 0);
            assert(id_of(kids[n + (before.len() + k)]) == Some(track.reference));
        },
        None => {
            lemma_playlist_at(d, project, root, compositor, kdenlive, t, 0);
            assert(id_of(kids[n + before.len()]) == Some(track.reference));
        },
    }
}

proof fn lemma_front_refs(
    d: DocumentView,
    project: Project,
    root: Seq<char>,
    compositor: Seq<char>,
    kdenlive: bool,
    j: int,
    id: Seq<char>,
)
    requires
        0 <= j < before_tracks(d, kdenlive),
        holds_ref(mlt_elem(d, project, root, compositor, kdenlive).kids[j], id),
    ensures
        stands_before(mlt_elem(d, project, root, compositor, kdenlive).kids, j, id),
{
    let kids = mlt_elem(d, project, root, compositor, kdenlive).kids;
    lemma_layout(d, project, root, compositor, kdenlive);
    let n = before_tracks(d, kdenlive);
    if j == 0 {
        lemma_profile_refs(d);
    } else if j <= d.producers.len() {
        lemma_producer_refs(d.producers[j - 1], d.fps, kdenlive);
        assert(kids[j] == producer_elem(d.producers[j - 1], d.fps, kdenlive));
    } else if j == n - 1 {
        lemma_black_refs(d.frames);
    } else {
        lemma_bin_refs(d, project, id);
        lemma_producer_before(d, project, root, compositor, kdenlive, j, id);
    }
}

proof fn lemma_track_refs(
    d: DocumentView,
    project: Project,
    root: Seq<char>,
    compositor: Seq<char>,
    kdenlive: bool,
    j: int,
    id: Seq<char>,
)
    requires
        document_ok(d),
        before_tracks(d, kdenlive) <= j < mlt_elem(
            d,
            project,
            root,
            compositor,
            kdenlive,
        ).kids.len() - 1,
        holds_ref(mlt_elem(d, project, root, compositor, kdenlive).kids[j], id),
    ensures
        stands_before(mlt_elem(d, project, root, compositor, kdenlive).kids, j, id),
{
    let kids = mlt_elem(d, project, root, compositor, kdenlive).kids;
    lemma_layout(d, project, root, compositor, kdenlive);
    let n = before_tracks(d, kdenlive);
    let all = tracks_elems(d.tracks, d.producers, d.frames, kdenlive);
    let q = j - n;
    assert(kids[n + q] == all[q]);
    let t = lemma_whose(d.tracks, d.producers, d.frames, kdenlive, q);
    lemma_track_at(d.tracks, d.producers, d.frames, kdenlive, t);
    let before = tracks_elems(d.tracks.take(t), d.producers, d.frames, kdenlive);
    let track = d.tracks[t];
    let own = track_elems(track, d.producers, d.frames, kdenlive);
    let k = q - before.len();
    assert(all[before.len() + k] == own[k]);
    if k < track.playlists.len() {
        assert(own[k] == playlist_elem(track.playlists[k], track.audio, d.producers, kdenlive));
        assert(track_ok(track, d.producers.len()));
        assert forall|i: int| 0 <= i < track.playlists[k].items.len() implies item_ok(
            #[trigger] track.playlists[k].items[i],
            d.producers.len(),
        ) by {}
        lemma_playlist_refs(track.playlists[k], track.audio, d.producers, kdenlive, id);
        lemma_producer_before(d, project, root, compositor, kdenlive, j, id);
    } else {
        assert(own[k] == tractor_elem(track, track.tractor->0, d.frames, kdenlive));
        lemma_tractor_refs(track, track.tractor->0, d.frames, kdenlive, id);
        let m = choose|m: int|
            0 <= m < track.playlists.len() && (#[trigger] track.playlists[m]).id == id;
        lemma_playlist_at(d, project, root, compositor, kdenlive, t, m);
        assert(id_of(kids[n + before.len() + m]) == Some(id));
    }
}

proof fn lemma_last_refs(
    d: DocumentView,
    project: Project,
    root: Seq<char>,
    compositor: Seq<char>,
    kdenlive: bool,
    id: Seq<char>,
)
    requires
        tracks_numbered(d.tracks),
        holds_ref(mlt_elem(d, project, root, compositor, kdenlive).kids.last(), id),
    ensures
        ({
            let kids = mlt_elem(d, project, root, compositor, kdenlive).kids;
            stands_before(kids, kids.len() - 1, id)
        }),
{
    let kids = mlt_elem(d, project, root, compositor, kdenlive).kids;
    lemma_layout(d, project, root, compositor, kdenlive);
    let n = before_tracks(d, kdenlive);
    lemma_main_refs(d, project, compositor, kdenlive, id);
    if id == "black_track"@ {
        lemma_black(d.frames);
        assert(id_of(kids[n - 1]) == Some(id));
    } else {
        let t = choose|t: int| 0 <= t < d.tracks.len() && (#[trigger] d.tracks[t]).reference == id;
        lemma_reference_at(d, project, root, compositor, kdenlive, t);
    }
}

proof fn lemma_refs(
    d: DocumentView,
    project: Project,
    root: Seq<char>,
    compositor: Seq<char>,
    kdenlive: bool,
    j: int,
    id: Seq<char>,
)
    requires
        document_ok(d),
        tracks_numbered(d.tracks),
        0 <= j < mlt_elem(d, project, root, compositor, kdenlive).kids.len(),
        holds_ref(mlt_elem(d, project, root, compositor, kdenlive).kids[j], id),
    ensures
        stands_before(mlt_elem(d, project, root, compositor, kdenlive).kids, j, id),
{
    let kids = mlt_elem(d, project, root, compositor, kdenlive).kids;
    if j < before_tracks(d, kdenlive) {
        lemma_front_refs(d, project, root, compositor, kdenlive, j, id);
    } else if j < kids.len() - 1 {
        lemma_track_refs(d, project, root, compositor, kdenlive, j, id);
    } else {
        lemma_last_refs(d, project, root, compositor, kdenlive, id);
    }
}

/// Whatever an entry or a track refers to is the identifier of an element that stands in front of
/// the one it is in.
pub proof fn law_every_reference_is_defined_before(
    project: Project,
    sequence: Sequence,
    root: Seq<char>,
    compositor: Seq<char>,
    kdenlive: bool,
    j: int,
    id: Seq<char>,
)
    requires
        document_ok(document_of(project, sequence, kdenlive)),
        ({
            let d = document_of(project, sequence, kdenlive);
            let kids = mlt_elem(d, project, root, compositor, kdenlive).kids;
            0 <= j < kids.len() && holds_ref(kids[j], id)
        }),
    ensures
        ({
            let d = document_of(project, sequence, kdenlive);
            stands_before(mlt_elem(d, project, root, compositor, kdenlive).kids, j, id)
        }),
{
    lemma_document_is_numbered(project, sequence, kdenlive);
    lemma_refs(
        document_of(project, sequence, kdenlive),
        project,
        root,
        compositor,
        kdenlive,
        j,
        id,
    );
}

/// The document itself refers to its last element, which is the tractor of the timeline.
pub proof fn law_the_document_is_its_last_tractor(
    project: Project,
    sequence: Sequence,
    root: Seq<char>,
    compositor: Seq<char>,
    kdenlive: bool,
)
    ensures
        ({
            let d = document_of(project, sequence, kdenlive);
            let e = mlt_elem(d, project, root, compositor, kdenlive);
            &&& e.kids.len() > 0
            &&& e.kids.last().name == "tractor"@
            &&& id_of(e.kids.last()) is Some
            &&& ref_of(e) == id_of(e.kids.last())
        }),
{
    let d = document_of(project, sequence, kdenlive);
    let e = mlt_elem(d, project, root, compositor, kdenlive);
    lemma_layout(d, project, root, compositor, kdenlive);
    lemma_root_id(d, project, root);
    lemma_attribute(e.kids.last().attrs, "id"@, 0);
}

} // verus!
