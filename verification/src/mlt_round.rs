//! A sequence that was exported as MLT is imported again.

use crate::error::ErrorView;
use crate::mlt_back::{
    is_readable, is_track, lemma_frames_value, lemma_producer_read, lemma_tracks_read,
    positions_fit, producer_found, producers_found, rate_read, track_found,
};
use crate::mlt_build::item_ok;
use crate::mlt_document::{document_of, document_ok, track_ok, DocumentView, TrackView};
use crate::mlt_ids::{lemma_document_is_numbered, producers_numbered, tracks_numbered};
use crate::mlt_places::{
    before_tracks, lemma_attribute, lemma_finds_black, lemma_finds_main, lemma_finds_playlist,
    lemma_finds_producer, lemma_finds_tractor, lemma_layout, track_offset,
};
use crate::mlt_read::{
    after_tracks, by_id, document_rate, document_size, main_tractor_at, profile_side, timeline_in,
    TimelineView,
};
use crate::mlt_shape::lemma_document_is_well_shaped;
use crate::mlt_tree::{
    black_elem, black_leaf, combination_elems, kdenlive_sequence_props, lemma_document_is_its_tree,
    main_elem, mlt_elem, only_if, playlist_elem, profile_elem, root_attrs, track_leaf, track_leaves,
};
use crate::mlt_write::{document_events, profile_event};
use crate::project::{Project, Sequence};
use crate::rational::Rat;
use crate::text::{dec, dec_int};
use crate::time::Fps;
use crate::xml::{
    attribute, children_of, document_with, gives_back, is_document, reads, root_at, read_attrs,
    texts_kept, xml_text, AttrView, NodeView, XmlNode,
};
use crate::views::views;
use crate::xml_find::lemma_first_named;
use vstd::prelude::*;

verus! {

/// Whether a timeline is the document that was written: its rate in lowest terms, its size, and
/// each track with every use of media where it stood.
pub open spec fn comes_back(timeline: TimelineView, d: DocumentView, kdenlive: bool) -> bool {
    &&& timeline.fps == rate_read(d)
    &&& timeline.size@ == d.size@
    &&& timeline.tracks.len() == d.tracks.len()
    &&& forall|t: int|
        0 <= t < d.tracks.len() ==> is_track(
            #[trigger] timeline.tracks[t],
            timeline.tracks.take(t),
            d.tracks[t],
            d.producers,
            kdenlive,
        )
}

// ---------------------------------------------------------------------------
// The profile
// ---------------------------------------------------------------------------

proof fn lemma_side(profile: NodeView, key: Seq<char>, side: u32, other: int)
    requires
        attribute(profile.attrs, key) == Some(dec(side as nat)),
    ensures
        profile_side(profile, key, other) == side,
{
    assert(dec(side as nat) == dec_int(side as int));
    lemma_frames_value(side as int, Fps { rate: Rat { num: 1, den: 1 } });
}

/// What a profile says of the rate and the size.
proof fn lemma_profile_attributes(attrs: Seq<AttrView>, d: DocumentView)
    requires
        attrs == profile_event(d)->Empty_attrs,
    ensures
        attribute(read_attrs(attrs), "width"@) == Some(dec(d.size@[0] as nat)),
        attribute(read_attrs(attrs), "height"@) == Some(dec(d.size@[1] as nat)),
        attribute(read_attrs(attrs), "frame_rate_num"@) == Some(dec_int(d.fps.rate.num as int)),
        attribute(read_attrs(attrs), "frame_rate_den"@) == Some(dec_int(d.fps.rate.den as int)),
{
    reveal_strlit("description");
    reveal_strlit("width");
    reveal_strlit("height");
    reveal_strlit("progressive");
    reveal_strlit("sample_aspect_num");
    reveal_strlit("sample_aspect_den");
    reveal_strlit("display_aspect_num");
    reveal_strlit("display_aspect_den");
    reveal_strlit("frame_rate_num");
    reveal_strlit("frame_rate_den");
    assert("description"@.len() == 11 && "width"@.len() == 5 && "height"@.len() == 6
        && "progressive"@.len() == 11 && "sample_aspect_num"@.len() == 17
        && "sample_aspect_den"@.len() == 17 && "display_aspect_num"@.len() == 18
        && "display_aspect_den"@.len() == 18 && "frame_rate_num"@.len() == 14
        && "frame_rate_den"@.len() == 14);
    assert("frame_rate_num"@[11] == 'n' && "frame_rate_den"@[11] == 'd');
    lemma_attribute(attrs, "width"@, 1);
    lemma_attribute(attrs, "height"@, 2);
    lemma_attribute(attrs, "frame_rate_num"@, 8);
    lemma_attribute(attrs, "frame_rate_den"@, 9);
}

/// The rate and the size of a document are read as they were written.
proof fn lemma_profile_read(
    nodes: Seq<NodeView>,
    d: DocumentView,
    project: Project,
    root: Seq<char>,
    compositor: Seq<char>,
    kdenlive: bool,
)
    requires
        nodes.len() <= usize::MAX,
        is_document(nodes, mlt_elem(d, project, root, compositor, kdenlive)),
        d.fps.wf(),
    ensures
        document_rate(nodes) == Ok::<Fps, ErrorView>(rate_read(d)),
        document_size(nodes)@ == d.size@,
{
    let e = mlt_elem(d, project, root, compositor, kdenlive);
    lemma_layout(d, project, root, compositor, kdenlive);
    reveal_strlit("mlt");
    reveal_strlit("profile");
    assert("mlt"@.len() == 3 && "profile"@.len() == 7);
    lemma_first_named(nodes, e, "profile"@);
    let at = children_of(nodes, root_at(nodes))[0];
    assert(reads(nodes, at, e.kids[0]));
    let profile = nodes[at];
    let attrs = profile_elem(d).attrs;
    assert(attrs == profile_event(d)->Empty_attrs);
    lemma_profile_attributes(attrs, d);
    lemma_frames_value(d.fps.rate.num as int, d.fps);
    lemma_frames_value(d.fps.rate.den as int, d.fps);
    lemma_side(profile, "width"@, d.size@[0], 720);
    lemma_side(profile, "height"@, d.size@[1], 576);
    assert(document_size(nodes)@ =~= d.size@);
}

// ---------------------------------------------------------------------------
// The timeline
// ---------------------------------------------------------------------------

/// What a document is made of is found in it.
proof fn lemma_all_found(
    nodes: Seq<NodeView>,
    d: DocumentView,
    project: Project,
    root: Seq<char>,
    compositor: Seq<char>,
    kdenlive: bool,
)
    requires
        nodes.len() <= usize::MAX,
        is_document(nodes, mlt_elem(d, project, root, compositor, kdenlive)),
        producers_numbered(d.producers),
        tracks_numbered(d.tracks),
    ensures
        producers_found(nodes, d.producers, kdenlive),
        reads(nodes, by_id(nodes, "black_track"@), black_elem(d.frames)),
        forall|t: int|
            0 <= t < d.tracks.len() ==> track_found(
                nodes,
                #[trigger] d.tracks[t],
                d.producers,
                d.frames,
                kdenlive,
            ),
{
    let e = mlt_elem(d, project, root, compositor, kdenlive);
    let kids = children_of(nodes, root_at(nodes));
    lemma_layout(d, project, root, compositor, kdenlive);
    assert forall|m: int| 0 <= m < d.producers.len() implies producer_found(
        nodes,
        #[trigger] d.producers[m],
        kdenlive,
    ) by {
        let p = d.producers[m];
        lemma_finds_producer(nodes, d, project, root, compositor, kdenlive, m);
        assert(reads(nodes, kids[m + 1], e.kids[m + 1]));
        lemma_producer_read(nodes, by_id(nodes, p.id), p, d.fps, kdenlive);
    }
    lemma_finds_black(nodes, d, project, root, compositor, kdenlive);
    let n = before_tracks(d, kdenlive);
    assert(reads(nodes, kids[n - 1], e.kids[n - 1]));
    assert forall|t: int| 0 <= t < d.tracks.len() implies track_found(
        nodes,
        #[trigger] d.tracks[t],
        d.producers,
        d.frames,
        kdenlive,
    ) by {
        lemma_track_found(nodes, d, project, root, compositor, kdenlive, t);
    }
}

proof fn lemma_track_found(
    nodes: Seq<NodeView>,
    d: DocumentView,
    project: Project,
    root: Seq<char>,
    compositor: Seq<char>,
    kdenlive: bool,
    t: int,
)
    requires
        nodes.len() <= usize::MAX,
        is_document(nodes, mlt_elem(d, project, root, compositor, kdenlive)),
        producers_numbered(d.producers),
        tracks_numbered(d.tracks),
        0 <= t < d.tracks.len(),
    ensures
        track_found(nodes, d.tracks[t], d.producers, d.frames, kdenlive),
{
    let e = mlt_elem(d, project, root, compositor, kdenlive);
    let kids = children_of(nodes, root_at(nodes));
    let track = d.tracks[t];
    assert forall|k: int| 0 <= k < track.playlists.len() implies reads(
        nodes,
        by_id(nodes, (#[trigger] track.playlists[k]).id),
        playlist_elem(track.playlists[k], track.audio, d.producers, kdenlive),
    ) by {
        lemma_finds_playlist(nodes, d, project, root, compositor, kdenlive, t, k);
        let at = track_offset(d, kdenlive, t) + k;
        assert(reads(nodes, kids[at], e.kids[at]));
    }
    if track.tractor is Some {
        lemma_finds_tractor(nodes, d, project, root, compositor, kdenlive, t);
        let at = track_offset(d, kdenlive, t) + track.playlists.len();
        assert(reads(nodes, kids[at], e.kids[at]));
    }
}

/// The timeline of a document is found.
proof fn lemma_main_found(
    nodes: Seq<NodeView>,
    d: DocumentView,
    project: Project,
    root: Seq<char>,
    compositor: Seq<char>,
    kdenlive: bool,
)
    requires
        nodes.len() <= usize::MAX,
        is_document(nodes, mlt_elem(d, project, root, compositor, kdenlive)),
        producers_numbered(d.producers),
        tracks_numbered(d.tracks),
    ensures
        reads(
            nodes,
            main_tractor_at(nodes, root_at(nodes)),
            main_elem(d, project, compositor, kdenlive),
        ),
{
    let e = mlt_elem(d, project, root, compositor, kdenlive);
    lemma_layout(d, project, root, compositor, kdenlive);
    lemma_finds_main(nodes, d, project, root, compositor, kdenlive);
    let kids = children_of(nodes, root_at(nodes));
    assert(reads(nodes, kids[kids.len() - 1], e.kids[e.kids.len() - 1]));
    reveal_strlit("LC_NUMERIC");
    reveal_strlit("version");
    reveal_strlit("title");
    reveal_strlit("root");
    reveal_strlit("producer");
    assert("LC_NUMERIC"@.len() == 10 && "version"@.len() == 7 && "title"@.len() == 5
        && "root"@.len() == 4 && "producer"@.len() == 8);
    lemma_attribute(root_attrs(d, project, root), "producer"@, 4);
}

/// No combination of tracks is taken for a track.
proof fn lemma_combinations(tracks: Seq<TrackView>, compositor: Seq<char>)
    ensures
        forall|k: int|
            0 <= k < combination_elems(tracks, compositor).len() ==> (
            #[trigger] combination_elems(tracks, compositor)[k]).name == "transition"@,
    decreases tracks.len(),
{
    if tracks.len() > 0 {
        lemma_combinations(tracks.drop_last(), compositor);
        let before = combination_elems(tracks.drop_last(), compositor);
        assert forall|k: int| 0 <= k < combination_elems(tracks, compositor).len() implies (
        #[trigger] combination_elems(tracks, compositor)[k]).name == "transition"@ by {
            if k < before.len() {
                assert(combination_elems(tracks, compositor)[k] == before[k]);
            }
        }
    }
}

/// The tracks of a document are read as they were written.
proof fn lemma_main_read(
    nodes: Seq<NodeView>,
    d: DocumentView,
    project: Project,
    compositor: Seq<char>,
    kdenlive: bool,
    at: int,
)
    requires
        reads(nodes, at, main_elem(d, project, compositor, kdenlive)),
        producers_found(nodes, d.producers, kdenlive),
        reads(nodes, by_id(nodes, "black_track"@), black_elem(d.frames)),
        forall|t: int|
            0 <= t < d.tracks.len() ==> track_found(
                nodes,
                #[trigger] d.tracks[t],
                d.producers,
                d.frames,
                kdenlive,
            ),
        positions_fit(d),
        document_ok(d),
    ensures
        ({
            let read = after_tracks(nodes, children_of(nodes, at), rate_read(d));
            &&& read is Ok
            &&& read->Ok_0.len() == d.tracks.len()
            &&& forall|t: int|
                0 <= t < d.tracks.len() ==> is_track(
                    #[trigger] read->Ok_0[t],
                    read->Ok_0.take(t),
                    d.tracks[t],
                    d.producers,
                    kdenlive,
                )
        }),
{
    let e = main_elem(d, project, compositor, kdenlive);
    let props = only_if(kdenlive, kdenlive_sequence_props(d, project));
    let front = props.len() as int;
    let leaves = track_leaves(d.tracks);
    let rest = combination_elems(d.tracks, compositor);
    reveal_strlit("track");
    reveal_strlit("property");
    reveal_strlit("transition");
    assert("track"@.len() == 5 && "property"@.len() == 8 && "transition"@.len() == 10);
    lemma_combinations(d.tracks, compositor);
    assert(e.kids =~= props.push(black_leaf()) + leaves + rest);
    assert forall|k: int| 0 <= k < props.len() implies (#[trigger] props[k]).name
        == "property"@ by {}
    assert forall|k: int|
        0 <= k < e.kids.len() && (k < front || k > front + d.tracks.len()) implies (
    #[trigger] e.kids[k]).name != "track"@ by {
        if k < front {
            assert(e.kids[k] == props[k]);
        } else {
            assert(e.kids[k] == rest[k - front - 1 - leaves.len()]);
        }
    }
    assert(e.kids[front] == black_leaf());
    assert forall|k: int|
        front < k < e.kids.len() && k <= front + d.tracks.len() implies #[trigger] e.kids[k]
        == track_leaf(d.tracks[k - front - 1]) by {
        assert(e.kids[k] == leaves[k - front - 1]);
    }
    assert forall|t: int, k: int|
        0 <= t < d.tracks.len() && 0 <= k < d.tracks[t].playlists.len() implies is_readable(
        (#[trigger] d.tracks[t].playlists[k]).items,
        d.producers.len(),
        rate_read(d),
    ) by {
        let items = d.tracks[t].playlists[k].items;
        assert forall|j: int| 0 <= j < items.len() implies item_ok(
            #[trigger] items[j],
            d.producers.len(),
        ) by {
            assert(track_ok(d.tracks[t], d.producers.len()));
            assert(item_ok(d.tracks[t].playlists[k].items[j], d.producers.len()));
        }
    }
    lemma_tracks_read(
        nodes,
        children_of(nodes, at),
        e.kids,
        front,
        d.tracks,
        d.producers,
        d.frames,
        kdenlive,
        rate_read(d),
    );
}

/// A document that was written is read back: its rate, its size, and on each track every use of
/// media, with the frame it starts at, its length, where it starts in its source, its source, its
/// speed and its name.
pub proof fn law_a_document_is_read_back(
    nodes: Seq<NodeView>,
    d: DocumentView,
    project: Project,
    root: Seq<char>,
    compositor: Seq<char>,
    kdenlive: bool,
)
    requires
        nodes.len() <= usize::MAX,
        is_document(nodes, mlt_elem(d, project, root, compositor, kdenlive)),
        producers_numbered(d.producers),
        tracks_numbered(d.tracks),
        d.fps.wf(),
        document_ok(d),
        positions_fit(d),
    ensures
        timeline_in(nodes) is Ok,
        comes_back(timeline_in(nodes)->Ok_0, d, kdenlive),
{
    lemma_layout(d, project, root, compositor, kdenlive);
    lemma_profile_read(nodes, d, project, root, compositor, kdenlive);
    lemma_all_found(nodes, d, project, root, compositor, kdenlive);
    lemma_main_found(nodes, d, project, root, compositor, kdenlive);
    lemma_main_read(
        nodes,
        d,
        project,
        compositor,
        kdenlive,
        main_tractor_at(nodes, root_at(nodes)),
    );
}

// ---------------------------------------------------------------------------
// Export and import
// ---------------------------------------------------------------------------

/// Whether a text is a sequence as it is exported, in characters that XML keeps, and every
/// position of it has an instant.
pub open spec fn is_exported(
    text: Seq<char>,
    project: Project,
    sequence: Sequence,
    root: Seq<char>,
    compositor: Seq<char>,
    kdenlive: bool,
) -> bool {
    let d = document_of(project, sequence, kdenlive);
    &&& text == xml_text(document_events(d, project, root, compositor, kdenlive)).push('\n')
    &&& text.len() < 0x4000_0000
    &&& texts_kept(mlt_elem(d, project, root, compositor, kdenlive))
    &&& d.fps.wf()
    &&& document_ok(d)
    &&& positions_fit(d)
}

/// What is read of an exported text is the document that was written.
pub proof fn lemma_exported(
    text: Seq<char>,
    parsed: Result<Vec<XmlNode>, String>,
    project: Project,
    sequence: Sequence,
    root: Seq<char>,
    compositor: Seq<char>,
    kdenlive: bool,
)
    requires
        gives_back(text, parsed),
        is_exported(text, project, sequence, root, compositor, kdenlive),
    ensures
        parsed is Ok,
        timeline_in(views(parsed->Ok_0@)) is Ok,
        comes_back(
            timeline_in(views(parsed->Ok_0@))->Ok_0,
            document_of(project, sequence, kdenlive),
            kdenlive,
        ),
{
    let d = document_of(project, sequence, kdenlive);
    let e = mlt_elem(d, project, root, compositor, kdenlive);
    lemma_document_is_its_tree(d, project, root, compositor, kdenlive);
    lemma_document_is_well_shaped(d, project, root, compositor, kdenlive);
    lemma_document_is_numbered(project, sequence, kdenlive);
    assert(xml_text(document_with(e)).push('\n') == text);
    let nodes = parsed->Ok_0;
    assert(nodes@.len() == nodes.len());
    assert(views(nodes@).len() == nodes@.len());
    law_a_document_is_read_back(views(nodes@), d, project, root, compositor, kdenlive);
}

} // verus!
