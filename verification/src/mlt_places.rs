//! Where the elements of a document stand, and how its references find them.

use crate::mlt::{numbered, FilterView, ItemView, ProducerView, TransitionView};
use crate::mlt_document::{DocumentView, PlaylistView, TrackView};
use crate::mlt_ids::{
    is_transition_id, lists_before, producers_numbered, track_numbered, tracks_numbered,
    tractors_before, transition_ids,
};
use crate::mlt_laws::law_numbered_ids_are_different;
use crate::mlt_read::by_id;
use crate::mlt_tree::{
    bin_elem, bin_elems, bin_leaf, black_elem, filter_elem, filter_elems, front_elems, item_elem,
    item_elems, kdenlive_producer_props, kdenlive_track_props, main_elem, mlt_elem, only_if,
    playlist_elem, producer_elem, producer_elems, producer_props, profile_elem, prop, props_of,
    range_props, reference_elems, root_attrs, track_elems, tracks_elems, tractor_elem,
    transition_elem, transition_elems,
};
use crate::mlt_write::{entry_attrs, main_id, profile_event};
use crate::project::Project;
use crate::time::Fps;
use crate::xml::{
    attr, attribute, children_of, is_document, read_attrs, root_at, AttrView, Elem, NodeView,
};
use crate::xml_find::{holds_id, id_of, lemma_found_by_id};
use vstd::prelude::*;

verus! {

// ---------------------------------------------------------------------------
// Attributes
// ---------------------------------------------------------------------------

/// The value of the first attribute with a key.
pub proof fn lemma_attribute(attrs: Seq<AttrView>, key: Seq<char>, k: int)
    requires
        0 <= k <= attrs.len(),
        k < attrs.len() ==> attrs[k].key == key,
        forall|j: int| 0 <= j < k ==> #[trigger] attrs[j].key != key,
    ensures
        attribute(read_attrs(attrs), key) == (if k < attrs.len() {
            Some(attrs[k].value)
        } else {
            None
        }),
    decreases k,
{
    if attrs.len() > 0 {
        let all = read_attrs(attrs);
        assert(all[0].key == attrs[0].key);
        if k > 0 {
            assert(attrs[0].key != key);
            let rest = attrs.skip(1);
            assert(all.skip(1) =~= read_attrs(rest));
            assert forall|j: int| 0 <= j < k - 1 implies #[trigger] rest[j].key != key by {
                assert(rest[j] == attrs[j + 1]);
            }
            lemma_attribute(rest, key, k - 1);
        }
    }
}

// ---------------------------------------------------------------------------
// Identifiers
// ---------------------------------------------------------------------------

/// Whether an element and what is in it have no identifiers.
pub open spec fn no_ids(e: Elem) -> bool {
    forall|id: Seq<char>| !(#[trigger] holds_id(e, id))
}

pub open spec fn none_have_ids(kids: Seq<Elem>) -> bool {
    forall|k: int| 0 <= k < kids.len() ==> no_ids(#[trigger] kids[k])
}

pub broadcast proof fn lemma_none()
    ensures
        #[trigger] none_have_ids(Seq::<Elem>::empty()),
{
}

pub broadcast proof fn lemma_one(e: Elem)
    requires
        no_ids(e),
    ensures
        #[trigger] none_have_ids(seq![e]),
{
}

pub broadcast proof fn lemma_more(kids: Seq<Elem>, e: Elem)
    requires
        none_have_ids(kids),
        no_ids(e),
    ensures
        #[trigger] none_have_ids(kids.push(e)),
{
    assert forall|k: int| 0 <= k < kids.push(e).len() implies no_ids(#[trigger] kids.push(e)[k]) by {
        if k < kids.len() {
            assert(kids.push(e)[k] == kids[k]);
        }
    }
}

pub broadcast proof fn lemma_both(a: Seq<Elem>, b: Seq<Elem>)
    requires
        none_have_ids(a),
        none_have_ids(b),
    ensures
        #[trigger] none_have_ids(a + b),
{
    assert forall|k: int| 0 <= k < (a + b).len() implies no_ids(#[trigger] (a + b)[k]) by {
        if k < a.len() {
            assert((a + b)[k] == a[k]);
        } else {
            assert((a + b)[k] == b[k - a.len()]);
        }
    }
}

pub broadcast proof fn lemma_only_if(condition: bool, elems: Seq<Elem>)
    requires
        condition ==> none_have_ids(elems),
    ensures
        #[trigger] none_have_ids(only_if(condition, elems)),
{
}

pub broadcast proof fn lemma_prop(name: Seq<char>, value: Seq<char>)
    ensures
        #[trigger] no_ids(prop(name, value)),
{
    reveal_strlit("name");
    reveal_strlit("id");
    assert("name"@.len() == 4 && "id"@.len() == 2);
    lemma_attribute(prop(name, value).attrs, "id"@, 1);
}

pub broadcast group group_no_ids {
    lemma_none,
    lemma_one,
    lemma_more,
    lemma_both,
    lemma_only_if,
    lemma_prop,
}

pub proof fn lemma_nothing(e: Elem)
    requires
        id_of(e) is None,
        none_have_ids(e.kids),
    ensures
        no_ids(e),
{
    assert forall|id: Seq<char>| !(#[trigger] holds_id(e, id)) by {
        if holds_id(e, id) {
            let k = choose|k: int| 0 <= k < e.kids.len() && holds_id(#[trigger] e.kids[k], id);
            assert(no_ids(e.kids[k]));
        }
    }
}

pub proof fn lemma_filters(filters: Seq<FilterView>)
    ensures
        none_have_ids(filter_elems(filters)),
{
    broadcast use group_no_ids;

    assert forall|k: int| 0 <= k < filter_elems(filters).len() implies no_ids(
        #[trigger] filter_elems(filters)[k],
    ) by {
        let filter = filters[k];
        let e = filter_elem(filter);
        assert(none_have_ids(props_of(filter.props)));
        assert(none_have_ids(range_props(filter.range)));
        assert(none_have_ids(e.kids));
        lemma_nothing(e);
    }
}

proof fn lemma_item(item: ItemView, producers: Seq<ProducerView>)
    ensures
        no_ids(item_elem(item, producers)),
{
    reveal_strlit("id");
    reveal_strlit("length");
    reveal_strlit("producer");
    reveal_strlit("in");
    reveal_strlit("out");
    assert("id"@.len() == 2 && "length"@.len() == 6 && "producer"@.len() == 8 && "in"@.len() == 2
        && "out"@.len() == 3);
    assert("id"@[1] != "in"@[1]);
    let e = item_elem(item, producers);
    match item {
        ItemView::Blank(frames) => {
            lemma_attribute(e.attrs, "id"@, 1);
            lemma_nothing(e);
        },
        ItemView::Entry(entry) => {
            lemma_attribute(entry_attrs(entry, producers), "id"@, 3);
            lemma_filters(entry.filters);
            lemma_nothing(e);
        },
    }
}

/// Whether an element has no identifier but its own.
pub open spec fn only_id(e: Elem, own: Seq<char>) -> bool {
    &&& id_of(e) == Some(own)
    &&& none_have_ids(e.kids)
    &&& forall|id: Seq<char>| #[trigger] holds_id(e, id) ==> id == own
}

proof fn lemma_own(e: Elem, own: Seq<char>)
    requires
        e.attrs.len() > 0,
        e.attrs[0] == attr("id"@, own),
        none_have_ids(e.kids),
    ensures
        only_id(e, own),
{
    lemma_attribute(e.attrs, "id"@, 0);
    assert forall|id: Seq<char>| #[trigger] holds_id(e, id) implies id == own by {
        if id_of(e) != Some(id) {
            let k = choose|k: int| 0 <= k < e.kids.len() && holds_id(#[trigger] e.kids[k], id);
            assert(no_ids(e.kids[k]));
        }
    }
}

pub proof fn lemma_profile(d: DocumentView)
    ensures
        no_ids(profile_elem(d)),
{
    reveal_strlit("id");
    reveal_strlit("description");
    reveal_strlit("width");
    reveal_strlit("height");
    reveal_strlit("progressive");
    reveal_strlit("sample_aspect_num");
    reveal_strlit("sample_aspect_den");
    reveal_strlit("display_aspect_num");
    reveal_strlit("display_aspect_den");
    reveal_strlit("frame_rate_num");
    reveal_strlit("frame_rate_den");
    reveal_strlit("colorspace");
    let attrs = profile_event(d)->Empty_attrs;
    assert(attrs.len() == 11);
    assert("id"@.len() == 2);
    assert forall|j: int| 0 <= j < 11 implies #[trigger] attrs[j].key != "id"@ by {
        assert(attrs[j].key.len() > 2);
    }
    lemma_attribute(attrs, "id"@, 11);
    lemma_nothing(profile_elem(d));
}

pub proof fn lemma_producer(p: ProducerView, fps: Fps, kdenlive: bool)
    ensures
        only_id(producer_elem(p, fps, kdenlive), p.id),
{
    broadcast use group_no_ids;

    reveal(producer_props);
    let e = producer_elem(p, fps, kdenlive);
    assert(none_have_ids(kdenlive_producer_props(p, fps)));
    assert(none_have_ids(e.kids));
    lemma_own(e, p.id);
}

proof fn lemma_bin_elems(producers: Seq<ProducerView>)
    ensures
        none_have_ids(bin_elems(producers)),
    decreases producers.len(),
{
    broadcast use group_no_ids;

    if producers.len() > 0 {
        lemma_bin_elems(producers.drop_last());
        reveal_strlit("id");
        reveal_strlit("producer");
        reveal_strlit("in");
        reveal_strlit("out");
        assert("id"@.len() == 2 && "producer"@.len() == 8 && "in"@.len() == 2 && "out"@.len() == 3);
        assert("id"@[1] != "in"@[1]);
        let e = bin_leaf(producers.last());
        lemma_attribute(e.attrs, "id"@, 3);
        lemma_nothing(e);
    }
}

pub proof fn lemma_bin(d: DocumentView, project: Project)
    ensures
        only_id(bin_elem(d, project), "main_bin"@),
{
    broadcast use group_no_ids;

    lemma_bin_elems(d.producers);
    let e = bin_elem(d, project);
    assert(none_have_ids(e.kids));
    lemma_own(e, "main_bin"@);
}

pub proof fn lemma_black(frames: int)
    ensures
        only_id(black_elem(frames), "black_track"@),
{
    broadcast use group_no_ids;

    let e = black_elem(frames);
    assert(none_have_ids(e.kids));
    lemma_own(e, "black_track"@);
}

pub proof fn lemma_playlist(
    playlist: PlaylistView,
    audio: bool,
    producers: Seq<ProducerView>,
    kdenlive: bool,
)
    ensures
        only_id(playlist_elem(playlist, audio, producers, kdenlive), playlist.id),
{
    broadcast use group_no_ids;

    let items = item_elems(playlist.items, producers);
    assert forall|k: int| 0 <= k < items.len() implies no_ids(#[trigger] items[k]) by {
        lemma_item(playlist.items[k], producers);
    }
    assert(none_have_ids(items));
    let e = playlist_elem(playlist, audio, producers, kdenlive);
    assert(none_have_ids(e.kids));
    lemma_own(e, playlist.id);
}

pub proof fn lemma_transition(t: TransitionView)
    ensures
        only_id(transition_elem(t), t.id),
{
    broadcast use group_no_ids;

    let e = transition_elem(t);
    assert(none_have_ids(props_of(t.props)));
    assert(none_have_ids(range_props(t.range)));
    assert(none_have_ids(e.kids));
    lemma_own(e, t.id);
}

proof fn lemma_tractor(track: TrackView, id: Seq<char>, frames: int, kdenlive: bool)
    requires
        transition_ids(track.transitions),
    ensures
        id_of(tractor_elem(track, id, frames, kdenlive)) == Some(id),
        forall|x: Seq<char>| #[trigger]
            holds_id(tractor_elem(track, id, frames, kdenlive), x) ==> x == id || is_transition_id(
                x,
            ),
{
    broadcast use group_no_ids;

    let e = tractor_elem(track, id, frames, kdenlive);
    lemma_attribute(e.attrs, "id"@, 0);
    lemma_filters(track.filters);
    let front = only_if(kdenlive, kdenlive_track_props(track));
    assert(none_have_ids(kdenlive_track_props(track)));
    assert(none_have_ids(front));
    let references = reference_elems(track.playlists);
    assert forall|k: int| 0 <= k < references.len() implies no_ids(#[trigger] references[k]) by {
        reveal_strlit("id");
        reveal_strlit("producer");
        assert("id"@.len() == 2 && "producer"@.len() == 8);
        lemma_attribute(references[k].attrs, "id"@, 1);
        lemma_nothing(references[k]);
    }
    assert(none_have_ids(front + references));
    let a = front + references;
    let transitions = transition_elems(track.transitions);
    let filters = filter_elems(track.filters);
    assert(e.kids == a + transitions + filters);
    assert forall|x: Seq<char>| #[trigger] holds_id(e, x) implies x == id || is_transition_id(
        x,
    ) by {
        if id_of(e) != Some(x) {
            let k = choose|k: int| 0 <= k < e.kids.len() && holds_id(#[trigger] e.kids[k], x);
            if k < a.len() {
                assert(e.kids[k] == a[k]);
                assert(no_ids(a[k]));
            } else if k < a.len() + transitions.len() {
                let t = track.transitions[k - a.len()];
                assert(e.kids[k] == transitions[k - a.len()]);
                lemma_transition(t);
            } else {
                assert(e.kids[k] == filters[k - a.len() - transitions.len()]);
                assert(no_ids(filters[k - a.len() - transitions.len()]));
            }
        }
    }
}

// ---------------------------------------------------------------------------
// Tracks
// ---------------------------------------------------------------------------

/// Whether an identifier was given to one of the first playlists or tractors, or to a transition.
pub open spec fn is_given(id: Seq<char>, lists: int, tractors: int) -> bool {
    ||| exists|n: int| 0 <= n < lists && id == #[trigger] numbered("playlist"@, n)
    ||| exists|n: int| 0 <= n < tractors && id == #[trigger] numbered("tractor"@, n)
    ||| is_transition_id(id)
}

pub proof fn lemma_counts(tracks: Seq<TrackView>, t: int)
    requires
        0 <= t <= tracks.len(),
    ensures
        0 <= lists_before(tracks, t),
        0 <= tractors_before(tracks, t) <= t,
    decreases t,
{
    if t > 0 {
        lemma_counts(tracks, t - 1);
    }
}

/// What stands in front of a track has only identifiers that were given before.
proof fn lemma_given(
    tracks: Seq<TrackView>,
    producers: Seq<ProducerView>,
    frames: int,
    kdenlive: bool,
    t: int,
)
    requires
        tracks_numbered(tracks),
        0 <= t <= tracks.len(),
    ensures
        forall|j: int, x: Seq<char>|
            0 <= j < tracks_elems(tracks.take(t), producers, frames, kdenlive).len()
                && #[trigger] holds_id(
                tracks_elems(tracks.take(t), producers, frames, kdenlive)[j],
                x,
            ) ==> is_given(x, lists_before(tracks, t), tractors_before(tracks, t)),
    decreases t,
{
    if t > 0 {
        lemma_given(tracks, producers, frames, kdenlive, t - 1);
        lemma_counts(tracks, t - 1);
        let track = tracks[t - 1];
        assert(tracks.take(t).drop_last() =~= tracks.take(t - 1));
        assert(tracks.take(t).last() == track);
        let before = tracks_elems(tracks.take(t - 1), producers, frames, kdenlive);
        let own = track_elems(track, producers, frames, kdenlive);
        let all = tracks_elems(tracks.take(t), producers, frames, kdenlive);
        assert(all == before + own);
        let lists = lists_before(tracks, t - 1);
        let tractors = tractors_before(tracks, t - 1);
        assert(track_numbered(track, lists, tractors));
        assert forall|j: int, x: Seq<char>| 0 <= j < all.len() && #[trigger] holds_id(
            all[j],
            x,
        ) implies is_given(x, lists_before(tracks, t), tractors_before(tracks, t)) by {
            if j < before.len() {
                assert(all[j] == before[j]);
                assert(holds_id(before[j], x));
                assert(is_given(x, lists, tractors));
            } else {
                let k = j - before.len();
                assert(all[j] == own[k]);
                if k < track.playlists.len() {
                    lemma_playlist(track.playlists[k], track.audio, producers, kdenlive);
                    assert(own[k] == playlist_elem(
                        track.playlists[k],
                        track.audio,
                        producers,
                        kdenlive,
                    ));
                    assert(x == numbered("playlist"@, lists + k));
                } else {
                    lemma_tractor(track, track.tractor->0, frames, kdenlive);
                    assert(own[k] == tractor_elem(track, track.tractor->0, frames, kdenlive));
                }
            }
        }
    }
}

/// Where the elements of a track stand among those of all tracks.
pub proof fn lemma_track_at(
    tracks: Seq<TrackView>,
    producers: Seq<ProducerView>,
    frames: int,
    kdenlive: bool,
    t: int,
)
    requires
        0 <= t < tracks.len(),
    ensures
        ({
            let all = tracks_elems(tracks, producers, frames, kdenlive);
            let before = tracks_elems(tracks.take(t), producers, frames, kdenlive);
            let own = track_elems(tracks[t], producers, frames, kdenlive);
            &&& before.len() + own.len() <= all.len()
            &&& forall|j: int| 0 <= j < before.len() ==> #[trigger] all[j] == before[j]
            &&& forall|j: int| 0 <= j < own.len() ==> all[before.len() + j] == #[trigger] own[j]
        }),
    decreases tracks.len(),
{
    let all = tracks_elems(tracks, producers, frames, kdenlive);
    let own = track_elems(tracks[t], producers, frames, kdenlive);
    let rest = tracks.drop_last();
    if t == tracks.len() - 1 {
        assert(tracks.take(t) =~= rest);
    } else {
        lemma_track_at(rest, producers, frames, kdenlive, t);
        assert(rest.take(t) =~= tracks.take(t));
        let others = tracks_elems(rest, producers, frames, kdenlive);
        let before = tracks_elems(tracks.take(t), producers, frames, kdenlive);
        assert forall|j: int| 0 <= j < before.len() implies #[trigger] all[j] == before[j] by {
            assert(all[j] == others[j]);
        }
        assert forall|j: int| 0 <= j < own.len() implies all[before.len() + j]
            == #[trigger] own[j] by {
            assert(all[before.len() + j] == others[before.len() + j]);
        }
    }
}

// ---------------------------------------------------------------------------
// The whole document
// ---------------------------------------------------------------------------

/// How many elements stand in front of the tracks.
pub open spec fn before_tracks(d: DocumentView, kdenlive: bool) -> int {
    d.producers.len() + 2 + if kdenlive {
        1int
    } else {
        0int
    }
}

/// Where the elements of a track begin.
pub open spec fn track_offset(d: DocumentView, kdenlive: bool, t: int) -> int {
    before_tracks(d, kdenlive) + tracks_elems(
        d.tracks.take(t),
        d.producers,
        d.frames,
        kdenlive,
    ).len()
}

/// Where everything stands in a document.
pub proof fn lemma_layout(
    d: DocumentView,
    project: Project,
    root: Seq<char>,
    compositor: Seq<char>,
    kdenlive: bool,
)
    ensures
        mlt_elem(d, project, root, compositor, kdenlive).name == "mlt"@,
        mlt_elem(d, project, root, compositor, kdenlive).attrs == root_attrs(d, project, root),
        ({
            let kids = mlt_elem(d, project, root, compositor, kdenlive).kids;
            let tracks = tracks_elems(d.tracks, d.producers, d.frames, kdenlive);
            let n = before_tracks(d, kdenlive);
            &&& kids.len() == n + tracks.len() + 1
            &&& kids[0] == profile_elem(d)
            &&& forall|m: int|
                0 <= m < d.producers.len() ==> kids[m + 1] == producer_elem(
                    #[trigger] d.producers[m],
                    d.fps,
                    kdenlive,
                )
            &&& kdenlive ==> kids[n - 2] == bin_elem(d, project)
            &&& kids[n - 1] == black_elem(d.frames)
            &&& forall|j: int| 0 <= j < tracks.len() ==> kids[n + j] == #[trigger] tracks[j]
            &&& kids[kids.len() - 1] == main_elem(d, project, compositor, kdenlive)
        }),
{
    reveal(mlt_elem);
    let kids = mlt_elem(d, project, root, compositor, kdenlive).kids;
    let producers = producer_elems(d.producers, d.fps, kdenlive);
    let bin = only_if(kdenlive, seq![bin_elem(d, project)]);
    let tracks = tracks_elems(d.tracks, d.producers, d.frames, kdenlive);
    let a = seq![profile_elem(d)] + producers;
    let b = a + bin;
    let c = b + seq![black_elem(d.frames)];
    let front = front_elems(d, project, kdenlive);
    assert(front == c + tracks);
    let main = main_elem(d, project, compositor, kdenlive);
    lemma_parts(profile_elem(d), producers, bin, black_elem(d.frames), tracks, main);
    assert forall|m: int| 0 <= m < d.producers.len() implies kids[m + 1] == producer_elem(
        #[trigger] d.producers[m],
        d.fps,
        kdenlive,
    ) by {
        assert(kids[m + 1] == producers[m]);
    }
    if kdenlive {
        assert(bin[0] == bin_elem(d, project));
        assert(kids[1 + producers.len() as int] == bin[0]);
    }
}

proof fn lemma_parts(
    profile: Elem,
    producers: Seq<Elem>,
    bin: Seq<Elem>,
    black: Elem,
    tracks: Seq<Elem>,
    main: Elem,
)
    ensures
        ({
            let kids = (seq![profile] + producers + bin + seq![black] + tracks).push(main);
            let n = producers.len() + bin.len() + 2;
            &&& kids.len() == n + tracks.len() + 1
            &&& kids[0] == profile
            &&& forall|m: int| 0 <= m < producers.len() ==> kids[m + 1] == #[trigger] producers[m]
            &&& forall|m: int|
                0 <= m < bin.len() ==> kids[1 + producers.len() + m] == #[trigger] bin[m]
            &&& kids[n - 1] == black
            &&& forall|j: int| 0 <= j < tracks.len() ==> kids[n + j] == #[trigger] tracks[j]
            &&& kids[kids.len() - 1] == main
        }),
{
}

/// Nothing in front of the tracks has an identifier of a playlist or a tractor.
pub proof fn lemma_front_ids(
    d: DocumentView,
    project: Project,
    root: Seq<char>,
    compositor: Seq<char>,
    kdenlive: bool,
    j: int,
    id: Seq<char>,
)
    requires
        producers_numbered(d.producers),
        0 <= j < before_tracks(d, kdenlive),
        holds_id(mlt_elem(d, project, root, compositor, kdenlive).kids[j], id),
    ensures
        ({
            ||| 1 <= j <= d.producers.len() && id == numbered("producer"@, j - 1)
            ||| kdenlive && j == before_tracks(d, kdenlive) - 2 && id == "main_bin"@
            ||| j == before_tracks(d, kdenlive) - 1 && id == "black_track"@
        }),
{
    lemma_layout(d, project, root, compositor, kdenlive);
    let kids = mlt_elem(d, project, root, compositor, kdenlive).kids;
    let n = before_tracks(d, kdenlive);
    if j == 0 {
        lemma_profile(d);
    } else if j <= d.producers.len() {
        lemma_producer(d.producers[j - 1], d.fps, kdenlive);
    } else if j == n - 1 {
        lemma_black(d.frames);
    } else {
        lemma_bin(d, project);
    }
}

pub proof fn lemma_root_id(d: DocumentView, project: Project, root: Seq<char>)
    ensures
        attribute(read_attrs(root_attrs(d, project, root)), "id"@) == None::<Seq<char>>,
        attribute(read_attrs(root_attrs(d, project, root)), "producer"@) == Some(main_id(d)),
{
    reveal_strlit("id");
    reveal_strlit("LC_NUMERIC");
    reveal_strlit("version");
    reveal_strlit("title");
    reveal_strlit("root");
    reveal_strlit("producer");
    assert("id"@.len() == 2 && "LC_NUMERIC"@.len() == 10 && "version"@.len() == 7 && "title"@.len()
        == 5 && "root"@.len() == 4 && "producer"@.len() == 8);
    lemma_attribute(root_attrs(d, project, root), "id"@, 5);
    lemma_attribute(root_attrs(d, project, root), "producer"@, 4);
}

/// Identifiers of different kinds are different.
proof fn lemma_kinds(a: int, b: int, c: int)
    ensures
        numbered("producer"@, a) != numbered("playlist"@, b),
        numbered("producer"@, a) != numbered("tractor"@, c),
        numbered("playlist"@, b) != numbered("tractor"@, c),
        "main_bin"@ != numbered("producer"@, a),
        "main_bin"@ != numbered("playlist"@, b),
        "main_bin"@ != numbered("tractor"@, c),
        "main_bin"@ != "black_track"@,
        "black_track"@ != numbered("producer"@, a),
        "black_track"@ != numbered("playlist"@, b),
        "black_track"@ != numbered("tractor"@, c),
        !is_transition_id(numbered("playlist"@, b)),
        !is_transition_id(numbered("tractor"@, c)),
        !is_transition_id(numbered("producer"@, a)),
{
    reveal_strlit("producer");
    reveal_strlit("playlist");
    reveal_strlit("tractor");
    reveal_strlit("main_bin");
    reveal_strlit("black_track");
    assert(numbered("producer"@, a)[0] == 'p' && numbered("producer"@, a)[1] == 'r');
    assert(numbered("playlist"@, b)[0] == 'p' && numbered("playlist"@, b)[1] == 'l');
    assert(numbered("tractor"@, c)[0] == 't' && numbered("tractor"@, c)[3] == 'c');
    assert("main_bin"@[0] == 'm');
    assert("black_track"@[0] == 'b');
}

/// A producer is found by its identifier.
pub proof fn lemma_finds_producer(
    nodes: Seq<NodeView>,
    d: DocumentView,
    project: Project,
    root: Seq<char>,
    compositor: Seq<char>,
    kdenlive: bool,
    m: int,
)
    requires
        nodes.len() <= usize::MAX,
        is_document(nodes, mlt_elem(d, project, root, compositor, kdenlive)),
        producers_numbered(d.producers),
        0 <= m < d.producers.len(),
    ensures
        by_id(nodes, d.producers[m].id) == children_of(nodes, root_at(nodes))[m + 1],
{
    let e = mlt_elem(d, project, root, compositor, kdenlive);
    let id = d.producers[m].id;
    lemma_layout(d, project, root, compositor, kdenlive);
    lemma_root_id(d, project, root);
    lemma_producer(d.producers[m], d.fps, kdenlive);
    assert forall|j: int| 0 <= j < m + 1 implies !holds_id(#[trigger] e.kids[j], id) by {
        if holds_id(e.kids[j], id) {
            lemma_front_ids(d, project, root, compositor, kdenlive, j, id);
            law_numbered_ids_are_different("producer"@, m, j - 1);
        }
    }
    lemma_found_by_id(nodes, e, m + 1, id);
}

/// The background is found by its identifier.
pub proof fn lemma_finds_black(
    nodes: Seq<NodeView>,
    d: DocumentView,
    project: Project,
    root: Seq<char>,
    compositor: Seq<char>,
    kdenlive: bool,
)
    requires
        nodes.len() <= usize::MAX,
        is_document(nodes, mlt_elem(d, project, root, compositor, kdenlive)),
        producers_numbered(d.producers),
    ensures
        by_id(nodes, "black_track"@) == children_of(nodes, root_at(nodes))[before_tracks(
            d,
            kdenlive,
        ) - 1],
{
    let e = mlt_elem(d, project, root, compositor, kdenlive);
    let id = "black_track"@;
    let n = before_tracks(d, kdenlive);
    lemma_layout(d, project, root, compositor, kdenlive);
    lemma_root_id(d, project, root);
    lemma_black(d.frames);
    assert forall|j: int| 0 <= j < n - 1 implies !holds_id(#[trigger] e.kids[j], id) by {
        if holds_id(e.kids[j], id) {
            lemma_front_ids(d, project, root, compositor, kdenlive, j, id);
            lemma_kinds(j - 1, 0, 0);
        }
    }
    lemma_found_by_id(nodes, e, n - 1, id);
}

/// The identifier of a playlist, or of a tractor.
pub open spec fn track_id(list: bool, number: int) -> Seq<char> {
    if list {
        numbered("playlist"@, number)
    } else {
        numbered("tractor"@, number)
    }
}

proof fn lemma_not_given(list: bool, number: int, lists: int, tractors: int)
    requires
        0 <= lists,
        0 <= tractors,
        number >= if list {
            lists
        } else {
            tractors
        },
    ensures
        !is_given(track_id(list, number), lists, tractors),
{
    let id = track_id(list, number);
    lemma_kinds(0, number, number);
    assert forall|k: int| 0 <= k < lists implies id != #[trigger] numbered("playlist"@, k) by {
        if list {
            law_numbered_ids_are_different("playlist"@, k, number);
        } else {
            lemma_kinds(0, k, number);
        }
    }
    assert forall|k: int| 0 <= k < tractors implies id != #[trigger] numbered("tractor"@, k) by {
        if list {
            lemma_kinds(0, number, k);
        } else {
            law_numbered_ids_are_different("tractor"@, k, number);
        }
    }
}

/// What stands in front of the tracks' elements does not have the identifier of one of them.
proof fn lemma_not_in_front(
    d: DocumentView,
    project: Project,
    root: Seq<char>,
    compositor: Seq<char>,
    kdenlive: bool,
    j: int,
    list: bool,
    number: int,
)
    requires
        producers_numbered(d.producers),
        0 <= j < before_tracks(d, kdenlive),
    ensures
        !holds_id(mlt_elem(d, project, root, compositor, kdenlive).kids[j], track_id(list, number)),
{
    let id = track_id(list, number);
    if holds_id(mlt_elem(d, project, root, compositor, kdenlive).kids[j], id) {
        lemma_front_ids(d, project, root, compositor, kdenlive, j, id);
        lemma_kinds(j - 1, number, number);
    }
}

/// What stands in front of a track does not have the identifier of a playlist or a tractor that
/// was not given before.
proof fn lemma_not_before(
    d: DocumentView,
    project: Project,
    root: Seq<char>,
    compositor: Seq<char>,
    kdenlive: bool,
    t: int,
    j: int,
    list: bool,
    number: int,
)
    requires
        producers_numbered(d.producers),
        tracks_numbered(d.tracks),
        0 <= t <= d.tracks.len(),
        0 <= j < track_offset(d, kdenlive, t),
        number >= if list {
            lists_before(d.tracks, t)
        } else {
            tractors_before(d.tracks, t)
        },
    ensures
        !holds_id(mlt_elem(d, project, root, compositor, kdenlive).kids[j], track_id(list, number)),
{
    let id = track_id(list, number);
    let n = before_tracks(d, kdenlive);
    if j < n {
        lemma_not_in_front(d, project, root, compositor, kdenlive, j, list, number);
    } else {
        lemma_before(d, project, root, compositor, kdenlive, t, j);
        lemma_counts(d.tracks, t);
        let before = tracks_elems(d.tracks.take(t), d.producers, d.frames, kdenlive);
        if holds_id(before[j - n], id) {
            lemma_given(d.tracks, d.producers, d.frames, kdenlive, t);
            lemma_not_given(
                list,
                number,
                lists_before(d.tracks, t),
                tractors_before(d.tracks, t),
            );
        }
    }
}

/// What stands in front of a track and behind the background is of another track.
proof fn lemma_before(
    d: DocumentView,
    project: Project,
    root: Seq<char>,
    compositor: Seq<char>,
    kdenlive: bool,
    t: int,
    j: int,
)
    requires
        0 <= t <= d.tracks.len(),
        before_tracks(d, kdenlive) <= j < track_offset(d, kdenlive, t),
    ensures
        mlt_elem(d, project, root, compositor, kdenlive).kids[j] == tracks_elems(
            d.tracks.take(t),
            d.producers,
            d.frames,
            kdenlive,
        )[j - before_tracks(d, kdenlive)],
{
    let n = before_tracks(d, kdenlive);
    lemma_layout(d, project, root, compositor, kdenlive);
    let e = mlt_elem(d, project, root, compositor, kdenlive);
    let all = tracks_elems(d.tracks, d.producers, d.frames, kdenlive);
    if t < d.tracks.len() {
        lemma_track_at(d.tracks, d.producers, d.frames, kdenlive, t);
    } else {
        assert(d.tracks.take(t) =~= d.tracks);
    }
    assert(e.kids[n + (j - n)] == all[j - n]);
}

/// Where an element of a track stands in the document.
proof fn lemma_own_at(
    d: DocumentView,
    project: Project,
    root: Seq<char>,
    compositor: Seq<char>,
    kdenlive: bool,
    t: int,
)
    requires
        0 <= t < d.tracks.len(),
    ensures
        ({
            let kids = mlt_elem(d, project, root, compositor, kdenlive).kids;
            let own = track_elems(d.tracks[t], d.producers, d.frames, kdenlive);
            let offset = track_offset(d, kdenlive, t);
            &&& 0 <= offset
            &&& offset + own.len() < kids.len()
            &&& forall|j: int| 0 <= j < own.len() ==> kids[offset + j] == #[trigger] own[j]
        }),
{
    let kids = mlt_elem(d, project, root, compositor, kdenlive).kids;
    let own = track_elems(d.tracks[t], d.producers, d.frames, kdenlive);
    let offset = track_offset(d, kdenlive, t);
    let n = before_tracks(d, kdenlive);
    lemma_layout(d, project, root, compositor, kdenlive);
    lemma_track_at(d.tracks, d.producers, d.frames, kdenlive, t);
    let all = tracks_elems(d.tracks, d.producers, d.frames, kdenlive);
    assert forall|j: int| 0 <= j < own.len() implies kids[offset + j] == #[trigger] own[j] by {
        assert(all[offset - n + j] == own[j]);
        assert(kids[n + (offset - n + j)] == all[offset - n + j]);
    }
}

/// The timeline is found by its identifier.
pub proof fn lemma_finds_main(
    nodes: Seq<NodeView>,
    d: DocumentView,
    project: Project,
    root: Seq<char>,
    compositor: Seq<char>,
    kdenlive: bool,
)
    requires
        nodes.len() <= usize::MAX,
        is_document(nodes, mlt_elem(d, project, root, compositor, kdenlive)),
        producers_numbered(d.producers),
        tracks_numbered(d.tracks),
    ensures
        ({
            let kids = mlt_elem(d, project, root, compositor, kdenlive).kids;
            by_id(nodes, main_id(d)) == children_of(nodes, root_at(nodes))[kids.len() - 1]
        }),
{
    let e = mlt_elem(d, project, root, compositor, kdenlive);
    let id = main_id(d);
    let count = d.tracks.len() as int;
    lemma_layout(d, project, root, compositor, kdenlive);
    lemma_root_id(d, project, root);
    lemma_counts(d.tracks, count);
    let last = e.kids.len() - 1;
    lemma_attribute(main_elem(d, project, compositor, kdenlive).attrs, "id"@, 0);
    assert(d.tracks.take(count) =~= d.tracks);
    assert(id == numbered("tractor"@, count));
    assert forall|j: int| 0 <= j < last implies !holds_id(#[trigger] e.kids[j], id) by {
        lemma_not_before(d, project, root, compositor, kdenlive, count, j, false, count);
    }
    lemma_found_by_id(nodes, e, last, id);
}

/// A playlist of a track is found by its identifier.
pub proof fn lemma_finds_playlist(
    nodes: Seq<NodeView>,
    d: DocumentView,
    project: Project,
    root: Seq<char>,
    compositor: Seq<char>,
    kdenlive: bool,
    t: int,
    k: int,
)
    requires
        nodes.len() <= usize::MAX,
        is_document(nodes, mlt_elem(d, project, root, compositor, kdenlive)),
        producers_numbered(d.producers),
        tracks_numbered(d.tracks),
        0 <= t < d.tracks.len(),
        0 <= k < d.tracks[t].playlists.len(),
    ensures
        ({
            let at = track_offset(d, kdenlive, t) + k;
            let kids = mlt_elem(d, project, root, compositor, kdenlive).kids;
            &&& 0 <= at < kids.len()
            &&& kids[at] == playlist_elem(
                d.tracks[t].playlists[k],
                d.tracks[t].audio,
                d.producers,
                kdenlive,
            )
            &&& by_id(nodes, d.tracks[t].playlists[k].id) == children_of(nodes, root_at(nodes))[at]
        }),
{
    let e = mlt_elem(d, project, root, compositor, kdenlive);
    let track = d.tracks[t];
    let lists = lists_before(d.tracks, t);
    assert(track_numbered(track, lists, tractors_before(d.tracks, t)));
    let id = track.playlists[k].id;
    let offset = track_offset(d, kdenlive, t);
    let own = track_elems(track, d.producers, d.frames, kdenlive);
    lemma_own_at(d, project, root, compositor, kdenlive, t);
    lemma_layout(d, project, root, compositor, kdenlive);
    lemma_root_id(d, project, root);
    lemma_counts(d.tracks, t);
    assert(own[k] == playlist_elem(track.playlists[k], track.audio, d.producers, kdenlive));
    lemma_playlist(track.playlists[k], track.audio, d.producers, kdenlive);
    assert forall|j: int| 0 <= j < offset + k implies !holds_id(#[trigger] e.kids[j], id) by {
        if j < offset {
            lemma_not_before(d, project, root, compositor, kdenlive, t, j, true, lists + k);
        } else {
            let i = j - offset;
            assert(e.kids[offset + i] == own[i]);
            assert(own[i] == playlist_elem(track.playlists[i], track.audio, d.producers, kdenlive));
            lemma_playlist(track.playlists[i], track.audio, d.producers, kdenlive);
            law_numbered_ids_are_different("playlist"@, lists + i, lists + k);
        }
    }
    lemma_found_by_id(nodes, e, offset + k, id);
}

/// The tractor of a track is found by its identifier.
pub proof fn lemma_finds_tractor(
    nodes: Seq<NodeView>,
    d: DocumentView,
    project: Project,
    root: Seq<char>,
    compositor: Seq<char>,
    kdenlive: bool,
    t: int,
)
    requires
        nodes.len() <= usize::MAX,
        is_document(nodes, mlt_elem(d, project, root, compositor, kdenlive)),
        producers_numbered(d.producers),
        tracks_numbered(d.tracks),
        0 <= t < d.tracks.len(),
        d.tracks[t].tractor is Some,
    ensures
        ({
            let at = track_offset(d, kdenlive, t) + d.tracks[t].playlists.len();
            let kids = mlt_elem(d, project, root, compositor, kdenlive).kids;
            &&& 0 <= at < kids.len()
            &&& kids[at] == tractor_elem(d.tracks[t], d.tracks[t].tractor->0, d.frames, kdenlive)
            &&& by_id(nodes, d.tracks[t].tractor->0) == children_of(nodes, root_at(nodes))[at]
        }),
{
    let e = mlt_elem(d, project, root, compositor, kdenlive);
    let track = d.tracks[t];
    let lists = lists_before(d.tracks, t);
    let tractors = tractors_before(d.tracks, t);
    assert(track_numbered(track, lists, tractors));
    let id = track.tractor->0;
    let k = track.playlists.len() as int;
    let offset = track_offset(d, kdenlive, t);
    let own = track_elems(track, d.producers, d.frames, kdenlive);
    lemma_own_at(d, project, root, compositor, kdenlive, t);
    lemma_layout(d, project, root, compositor, kdenlive);
    lemma_root_id(d, project, root);
    lemma_counts(d.tracks, t);
    assert(own[k] == tractor_elem(track, id, d.frames, kdenlive));
    lemma_tractor(track, id, d.frames, kdenlive);
    assert forall|j: int| 0 <= j < offset + k implies !holds_id(#[trigger] e.kids[j], id) by {
        if j < offset {
            lemma_not_before(d, project, root, compositor, kdenlive, t, j, false, tractors);
        } else {
            let i = j - offset;
            assert(e.kids[offset + i] == own[i]);
            assert(own[i] == playlist_elem(track.playlists[i], track.audio, d.producers, kdenlive));
            lemma_playlist(track.playlists[i], track.audio, d.producers, kdenlive);
            lemma_kinds(0, lists + i, tractors);
        }
    }
    lemma_found_by_id(nodes, e, offset + k, id);
}

} // verus!
