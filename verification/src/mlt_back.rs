//! A document that was written is read back: its rate, its size, its tracks, and on each track
//! every use of media where it stood.

use crate::float_text::Float;
use crate::mlt::{ItemView, ProducerView};
use crate::mlt_build::{item_frames, item_ok, playlist_frames};
use crate::mlt_document::{DocumentView, PlaylistView, TrackView};
use crate::mlt_places::lemma_attribute;
use crate::mlt_read::{
    after_child, after_children, after_track, after_tracks, by_id, by_start, count_kind, entry_clip,
    frame_ok, frames_value, is_audio_track, marked_audio, playlists_read, pointed_playlists,
    property_of, slot, text_or, track_playlists, warp_of, ImportedClipView, ImportedTrackView,
    Reading,
};
use crate::mlt_tree::{
    black_elem, black_leaf, item_elem, item_elems, kdenlive_producer_props, kdenlive_track_props,
    leaf, only_if, playlist_elem, producer_elem, producer_props, prop, reference_elems, track_leaf,
    tractor_elem,
};
use crate::mlt_write::entry_attrs;
use crate::rational::Rat;
use crate::text::{dec, dec_int, lemma_dec_int, lemma_find_is, parse_i64, trim};
use crate::time::Fps;
use crate::xml::{attr, attribute, children_of, read_attrs, reads, Elem, NodeView};
use crate::xml_find::{is_property, lemma_no_property, lemma_property};
use vstd::prelude::*;

verus! {

// ---------------------------------------------------------------------------
// What is given back
// ---------------------------------------------------------------------------

/// A use of media on a track: where it stands, how long it is, where it starts in its source,
/// which source that is, how fast it plays, and what it is called.
pub struct Use {
    pub start: int,
    pub frames: int,
    pub source_in: int,
    pub service: Seq<char>,
    pub resource: Seq<char>,
    pub speed: Float,
    pub name: Option<Seq<char>>,
}

/// The service of a producer as it is read.
pub open spec fn service_read(p: ProducerView) -> Seq<char> {
    if p.service.len() > 0 {
        p.service
    } else {
        "unknown"@
    }
}

/// The file of a producer as it is read: without the speed that a retimed one has in front.
pub open spec fn resource_read(p: ProducerView) -> Seq<char> {
    warp_of(service_read(p), p.resource).1
}

/// The name of a producer as it is read: only Kdenlive is told it.
pub open spec fn name_read(p: ProducerView, kdenlive: bool) -> Option<Seq<char>> {
    if kdenlive && p.name.len() > 0 {
        Some(p.name)
    } else {
        None
    }
}

/// The use that an entry is of its producer, from a frame on.
pub open spec fn use_of(item: ItemView, p: ProducerView, start: int, kdenlive: bool) -> Use {
    Use {
        start,
        frames: item_frames(item),
        source_in: item->Entry_0.in_frame,
        service: service_read(p),
        resource: resource_read(p),
        speed: warp_of(service_read(p), p.resource).0,
        name: name_read(p, kdenlive),
    }
}

/// The uses on a playlist, in order.
pub open spec fn uses(items: Seq<ItemView>, producers: Seq<ProducerView>, kdenlive: bool) -> Seq<Use>
    decreases items.len(),
{
    if items.len() == 0 {
        seq![]
    } else {
        let before = uses(items.drop_last(), producers, kdenlive);
        match items.last() {
            ItemView::Blank(_) => before,
            ItemView::Entry(entry) => before.push(
                use_of(
                    items.last(),
                    producers[entry.producer],
                    playlist_frames(items.drop_last()),
                    kdenlive,
                ),
            ),
        }
    }
}

/// The uses on all playlists of a track.
pub open spec fn track_uses(
    playlists: Seq<PlaylistView>,
    producers: Seq<ProducerView>,
    kdenlive: bool,
) -> Seq<Use>
    decreases playlists.len(),
{
    if playlists.len() == 0 {
        seq![]
    } else {
        track_uses(playlists.drop_last(), producers, kdenlive) + uses(
            playlists.last().items,
            producers,
            kdenlive,
        )
    }
}

/// How many of some uses, in order, start no later than a frame.
pub open spec fn use_slot(list: Seq<Use>, start: int) -> int
    decreases list.len(),
{
    if list.len() == 0 || list.last().start <= start {
        list.len() as int
    } else {
        use_slot(list.drop_last(), start)
    }
}

/// Uses in the order in which they start.
pub open spec fn in_time(list: Seq<Use>) -> Seq<Use>
    decreases list.len(),
{
    if list.len() == 0 {
        seq![]
    } else {
        let before = in_time(list.drop_last());
        before.insert(use_slot(before, list.last().start), list.last())
    }
}

/// A clip that was read, as a use.
pub open spec fn clip_use(clip: ImportedClipView) -> Use {
    Use {
        start: clip.start_frames,
        frames: clip.frames,
        source_in: clip.source_in_frames,
        service: clip.service,
        resource: clip.resource,
        speed: clip.speed,
        name: clip.name,
    }
}

pub open spec fn clip_uses(clips: Seq<ImportedClipView>) -> Seq<Use> {
    clips.map_values(|c: ImportedClipView| clip_use(c))
}

/// Whether a track is read as one of audio: Kdenlive is told, others see what is hidden.
pub open spec fn read_as_audio(track: TrackView, kdenlive: bool) -> bool {
    kdenlive && track.audio || track.hide == Some("video"@)
}

/// The name of a track as it is written: only Kdenlive is told it, on the track's tractor.
pub open spec fn name_written(track: TrackView, kdenlive: bool) -> Option<Seq<char>> {
    if kdenlive && track.tractor is Some && track.name.len() > 0 {
        Some(track.name)
    } else {
        None
    }
}

/// Whether a track that was read behind others is the one that was written. One without a name is
/// numbered among those of its kind.
pub open spec fn is_track(
    read: ImportedTrackView,
    before: Seq<ImportedTrackView>,
    track: TrackView,
    producers: Seq<ProducerView>,
    kdenlive: bool,
) -> bool {
    &&& read.audio == read_as_audio(track, kdenlive)
    &&& read.name == (match name_written(track, kdenlive) {
        Some(name) => name,
        None => (if read.audio {
            "A"@
        } else {
            "V"@
        }) + dec(count_kind(before, read.audio) + 1),
    })
    &&& clip_uses(read.clips) == in_time(track_uses(track.playlists, producers, kdenlive))
}

/// The rate of a document as it is read: in lowest terms.
pub open spec fn rate_read(d: DocumentView) -> Fps {
    Fps { rate: Rat::of(d.fps.rate.num as int, d.fps.rate.den as int) }
}

/// Whether what stands on a playlist can be counted, and each use of it has an instant.
pub open spec fn items_fit(items: Seq<ItemView>, fps: Fps) -> bool {
    &&& forall|k: int|
        0 <= k <= items.len() ==> i64::MIN <= playlist_frames(#[trigger] items.take(k)) <= i64::MAX
    &&& forall|k: int|
        0 <= k < items.len() ==> match #[trigger] items[k] {
            ItemView::Blank(frames) => i64::MIN <= frames <= i64::MAX,
            ItemView::Entry(entry) => {
                &&& frame_ok(entry.in_frame, fps)
                &&& frame_ok(item_frames(items[k]), fps)
                &&& frame_ok(playlist_frames(items.take(k)), fps)
            },
        }
}

/// Whether every position of a document has an instant at the rate that is read.
pub open spec fn positions_fit(d: DocumentView) -> bool {
    forall|t: int, k: int|
        0 <= t < d.tracks.len() && 0 <= k < d.tracks[t].playlists.len() ==> items_fit(
            (#[trigger] d.tracks[t].playlists[k]).items,
            rate_read(d),
        )
}

/// Whether the items of a playlist are of known producers, and can be counted.
pub open spec fn is_readable(items: Seq<ItemView>, producers: nat, fps: Fps) -> bool {
    &&& items_fit(items, fps)
    &&& forall|k: int| 0 <= k < items.len() ==> item_ok(#[trigger] items[k], producers)
}

// ---------------------------------------------------------------------------
// Numbers
// ---------------------------------------------------------------------------

pub proof fn lemma_frames_value(n: int, fps: Fps)
    requires
        i64::MIN <= n <= i64::MAX,
    ensures
        frames_value(dec_int(n), fps) == Some(n),
        parse_i64(trim(dec_int(n))) == Some(n as i64),
{
    let s = dec_int(n);
    lemma_dec_int(n);
    assert forall|i: int| 0 <= i < s.len() implies s[i] != ':' && s[i] != '.' by {
        assert(crate::text::is_digit(s[i]) || s[i] == '-');
    }
    lemma_find_is(s, ':', s.len() as int);
    lemma_find_is(s, '.', s.len() as int);
}

// ---------------------------------------------------------------------------
// Producers
// ---------------------------------------------------------------------------

proof fn lemma_is_prop(name: Seq<char>, value: Seq<char>, wanted: Seq<char>)
    ensures
        is_property(prop(name, value), wanted) == (name == wanted),
{
    lemma_attribute(prop(name, value).attrs, "name"@, 0);
}

/// What a producer is called is read as it was written.
proof fn lemma_name_read(
    nodes: Seq<NodeView>,
    at: int,
    p: ProducerView,
    fps: Fps,
    kdenlive: bool,
)
    requires
        reads(nodes, at, producer_elem(p, fps, kdenlive)),
    ensures
        property_of(nodes, at, "kdenlive:clipname"@) == name_read(p, kdenlive),
{
    reveal(producer_props);
    let e = producer_elem(p, fps, kdenlive);
    let wanted = "kdenlive:clipname"@;
    reveal_strlit("kdenlive:clipname");
    reveal_strlit("length");
    reveal_strlit("eof");
    reveal_strlit("resource");
    reveal_strlit("mlt_service");
    reveal_strlit("mlt_image_format");
    reveal_strlit("aspect_ratio");
    reveal_strlit("seekable");
    reveal_strlit("mute_on_pause");
    reveal_strlit("set.test_image");
    reveal_strlit("set.test_audio");
    reveal_strlit("kdenlive:id");
    assert(wanted.len() == 17);
    let plain = only_if(!kdenlive, e.kids) + only_if(
        kdenlive,
        e.kids.take(e.kids.len() - kdenlive_producer_props(p, fps).len()),
    );
    assert forall|name: Seq<char>, value: Seq<char>| name.len() != 17 implies !is_property(
        #[trigger] prop(name, value),
        wanted,
    ) by {
        lemma_is_prop(name, value, wanted);
    }
    let n = plain.len() as int;
    assert(6 <= n <= 7);
    assert forall|j: int| 0 <= j < n implies !is_property(#[trigger] e.kids[j], wanted) by {
        assert(e.kids[0] == prop("length"@, dec_int(p.length)));
        assert(e.kids[1] == prop("eof"@, "pause"@));
        assert(e.kids[2] == prop("resource"@, p.resource));
        assert(e.kids[3] == prop("mlt_service"@, p.service));
    }
    if kdenlive {
        assert(e.kids[n] == prop("kdenlive:id"@, dec(p.bin_id as nat)));
        assert(e.kids[n + 1] == prop(wanted, p.name));
        lemma_is_prop(wanted, p.name, wanted);
        lemma_property(nodes, at, e, wanted, n + 1);
    } else {
        lemma_no_property(nodes, at, e, wanted);
    }
}

/// What a producer plays is read as it was written.
pub proof fn lemma_producer_read(
    nodes: Seq<NodeView>,
    at: int,
    p: ProducerView,
    fps: Fps,
    kdenlive: bool,
)
    requires
        reads(nodes, at, producer_elem(p, fps, kdenlive)),
    ensures
        text_or(property_of(nodes, at, "resource"@), seq![]) == p.resource,
        text_or(property_of(nodes, at, "mlt_service"@), "unknown"@) == service_read(p),
        property_of(nodes, at, "kdenlive:clipname"@) == name_read(p, kdenlive),
{
    lemma_name_read(nodes, at, p, fps, kdenlive);
    reveal(producer_props);
    reveal_strlit("length");
    reveal_strlit("eof");
    reveal_strlit("resource");
    reveal_strlit("mlt_service");
    assert("length"@.len() == 6 && "eof"@.len() == 3 && "resource"@.len() == 8
        && "mlt_service"@.len() == 11);
    let e = producer_elem(p, fps, kdenlive);
    assert(e.kids[0] == prop("length"@, dec_int(p.length)));
    assert(e.kids[1] == prop("eof"@, "pause"@));
    assert(e.kids[2] == prop("resource"@, p.resource));
    assert(e.kids[3] == prop("mlt_service"@, p.service));
    lemma_is_prop("length"@, dec_int(p.length), "resource"@);
    lemma_is_prop("eof"@, "pause"@, "resource"@);
    lemma_is_prop("resource"@, p.resource, "resource"@);
    lemma_is_prop("length"@, dec_int(p.length), "mlt_service"@);
    lemma_is_prop("eof"@, "pause"@, "mlt_service"@);
    lemma_is_prop("resource"@, p.resource, "mlt_service"@);
    lemma_is_prop("mlt_service"@, p.service, "mlt_service"@);
    lemma_property(nodes, at, e, "resource"@, 2);
    lemma_property(nodes, at, e, "mlt_service"@, 3);
    if p.resource.len() == 0 {
        assert(p.resource =~= seq![]);
    }
}

/// Whether a producer is found where it is, and read as it was written.
pub open spec fn producer_found(nodes: Seq<NodeView>, p: ProducerView, kdenlive: bool) -> bool {
    let at = by_id(nodes, p.id);
    &&& at >= 0
    &&& text_or(property_of(nodes, at, "resource"@), seq![]) == p.resource
    &&& text_or(property_of(nodes, at, "mlt_service"@), "unknown"@) == service_read(p)
    &&& property_of(nodes, at, "kdenlive:clipname"@) == name_read(p, kdenlive)
}

pub open spec fn producers_found(
    nodes: Seq<NodeView>,
    producers: Seq<ProducerView>,
    kdenlive: bool,
) -> bool {
    forall|m: int|
        0 <= m < producers.len() ==> producer_found(nodes, #[trigger] producers[m], kdenlive)
}

// ---------------------------------------------------------------------------
// Playlists
// ---------------------------------------------------------------------------

proof fn lemma_blank(st: Reading, nodes: Seq<NodeView>, child: NodeView, frames: int, fps: Fps)
    requires
        child.name == "blank"@,
        child.attrs == read_attrs(seq![attr("length"@, dec_int(frames))]),
        i64::MIN <= frames <= i64::MAX,
        i64::MIN <= st.cursor + frames <= i64::MAX,
    ensures
        after_child(st, nodes, child, fps) == Ok::<Reading, crate::error::ErrorView>(
            Reading { cursor: st.cursor + frames, ..st },
        ),
{
    lemma_frames_value(frames, fps);
    lemma_attribute(seq![attr("length"@, dec_int(frames))], "length"@, 0);
}

proof fn lemma_entry(
    st: Reading,
    nodes: Seq<NodeView>,
    child: NodeView,
    item: ItemView,
    producers: Seq<ProducerView>,
    kdenlive: bool,
    fps: Fps,
)
    requires
        producers_found(nodes, producers, kdenlive),
        item is Entry,
        child.name == "entry"@,
        child.attrs == read_attrs(entry_attrs(item->Entry_0, producers)),
        0 <= item->Entry_0.producer < producers.len(),
        item->Entry_0.in_frame <= item->Entry_0.out_frame,
        i64::MIN <= item->Entry_0.out_frame <= i64::MAX,
        frame_ok(item->Entry_0.in_frame, fps),
        frame_ok(item_frames(item), fps),
        frame_ok(st.cursor, fps),
        i64::MIN <= st.cursor + item_frames(item) <= i64::MAX,
    ensures
        after_child(st, nodes, child, fps) is Ok,
        after_child(st, nodes, child, fps)->Ok_0.cursor == st.cursor + item_frames(item),
        clip_uses(after_child(st, nodes, child, fps)->Ok_0.clips) == clip_uses(st.clips).push(
            use_of(item, producers[item->Entry_0.producer], st.cursor, kdenlive),
        ),
{
    let entry = item->Entry_0;
    let p = producers[entry.producer];
    reveal_strlit("blank");
    reveal_strlit("entry");
    assert("blank"@[0] == 'b' && "entry"@[0] == 'e');
    reveal_strlit("producer");
    reveal_strlit("in");
    reveal_strlit("out");
    assert("producer"@.len() == 8 && "in"@.len() == 2 && "out"@.len() == 3);
    let attrs = entry_attrs(entry, producers);
    lemma_attribute(attrs, "producer"@, 0);
    lemma_attribute(attrs, "in"@, 1);
    lemma_attribute(attrs, "out"@, 2);
    lemma_frames_value(entry.in_frame, fps);
    lemma_frames_value(entry.out_frame, fps);
    let producer = by_id(nodes, p.id);
    let clip = entry_clip(nodes, child, producer, st.cursor, fps);
    let after = after_child(st, nodes, child, fps)->Ok_0;
    assert(after.clips == st.clips.push(clip));
    assert(clip_uses(after.clips) =~= clip_uses(st.clips).push(clip_use(clip)));
}

/// Reading the elements of a playlist, behind `front` others, gives back its uses.
proof fn lemma_items_read(
    nodes: Seq<NodeView>,
    kids: Seq<int>,
    front: int,
    items: Seq<ItemView>,
    producers: Seq<ProducerView>,
    kdenlive: bool,
    fps: Fps,
    clips: Seq<ImportedClipView>,
)
    requires
        producers_found(nodes, producers, kdenlive),
        is_readable(items, producers.len(), fps),
        0 <= front <= 1,
        kids.len() == front + items.len(),
        front == 1 ==> nodes[kids[0]].name == "property"@,
        forall|k: int|
            0 <= k < items.len() ==> reads(
                nodes,
                kids[front + k],
                item_elem(#[trigger] items[k], producers),
            ),
    ensures
        after_children(clips, nodes, kids, fps) is Ok,
        after_children(clips, nodes, kids, fps)->Ok_0.cursor == playlist_frames(items),
        clip_uses(after_children(clips, nodes, kids, fps)->Ok_0.clips) == clip_uses(clips) + uses(
            items,
            producers,
            kdenlive,
        ),
    decreases items.len(),
{
    if items.len() == 0 {
        reveal_strlit("property");
        reveal_strlit("blank");
        reveal_strlit("entry");
        assert("property"@.len() == 8 && "blank"@.len() == 5 && "entry"@.len() == 5);
        reveal_with_fuel(after_children, 2);
        if front == 1 {
            assert(kids.drop_last() =~= seq![]);
        }
        assert(clip_uses(clips) + uses(items, producers, kdenlive) =~= clip_uses(clips));
    } else {
        let n = items.len() - 1;
        let rest = items.drop_last();
        let rest_kids = kids.drop_last();
        assert forall|k: int| 0 <= k < rest.len() implies reads(
            nodes,
            rest_kids[front + k],
            item_elem(#[trigger] rest[k], producers),
        ) by {
            assert(rest[k] == items[k]);
        }
        lemma_fit_rest(items, producers.len(), fps);
        lemma_items_read(nodes, rest_kids, front, rest, producers, kdenlive, fps, clips);
        let st = after_children(clips, nodes, rest_kids, fps)->Ok_0;
        assert(items.take(n) =~= rest);
        assert(items.take(n + 1) =~= items);
        let item = items[n];
        let child = nodes[kids[front + n]];
        assert(kids.last() == kids[front + n]);
        assert(reads(nodes, kids[front + n], item_elem(items[n], producers)));
        match item {
            ItemView::Blank(frames) => {
                lemma_blank(st, nodes, child, frames, fps);
            },
            ItemView::Entry(entry) => {
                lemma_entry(st, nodes, child, item, producers, kdenlive, fps);
                assert(clip_uses(clips) + uses(items, producers, kdenlive) =~= (clip_uses(clips) + uses(
                    rest,
                    producers,
                    kdenlive,
                )).push(uses(items, producers, kdenlive).last()));
            },
        }
    }
}

proof fn lemma_fit_rest(items: Seq<ItemView>, producers: nat, fps: Fps)
    requires
        items.len() > 0,
        is_readable(items, producers, fps),
    ensures
        is_readable(items.drop_last(), producers, fps),
{
    let rest = items.drop_last();
    assert forall|k: int| 0 <= k <= rest.len() implies i64::MIN <= playlist_frames(
        #[trigger] rest.take(k),
    ) <= i64::MAX by {
        assert(rest.take(k) =~= items.take(k));
    }
    assert forall|k: int| 0 <= k < rest.len() implies (match #[trigger] rest[k] {
        ItemView::Blank(frames) => i64::MIN <= frames <= i64::MAX,
        ItemView::Entry(entry) => {
            &&& frame_ok(entry.in_frame, fps)
            &&& frame_ok(item_frames(rest[k]), fps)
            &&& frame_ok(playlist_frames(rest.take(k)), fps)
        },
    }) by {
        assert(rest[k] == items[k]);
        assert(rest.take(k) =~= items.take(k));
    }
}

/// Reading a playlist gives back its uses, behind what was read before.
proof fn lemma_playlist_read(
    nodes: Seq<NodeView>,
    at: int,
    playlist: PlaylistView,
    audio: bool,
    producers: Seq<ProducerView>,
    kdenlive: bool,
    fps: Fps,
    clips: Seq<ImportedClipView>,
)
    requires
        producers_found(nodes, producers, kdenlive),
        reads(nodes, at, playlist_elem(playlist, audio, producers, kdenlive)),
        is_readable(playlist.items, producers.len(), fps),
    ensures
        after_children(clips, nodes, children_of(nodes, at), fps) is Ok,
        clip_uses(after_children(clips, nodes, children_of(nodes, at), fps)->Ok_0.clips)
            == clip_uses(clips) + uses(playlist.items, producers, kdenlive),
{
    let e = playlist_elem(playlist, audio, producers, kdenlive);
    let kids = children_of(nodes, at);
    let front: int = if kdenlive && audio {
        1
    } else {
        0
    };
    let items = item_elems(playlist.items, producers);
    assert forall|k: int| 0 <= k < playlist.items.len() implies reads(
        nodes,
        kids[front + k],
        item_elem(#[trigger] playlist.items[k], producers),
    ) by {
        assert(e.kids[front + k] == items[k]);
        assert(reads(nodes, kids[front + k], e.kids[front + k]));
    }
    if front == 1 {
        assert(reads(nodes, kids[0], e.kids[0]));
    }
    lemma_items_read(nodes, kids, front, playlist.items, producers, kdenlive, fps, clips);
}

/// A playlist is marked as audio where Kdenlive is told so.
proof fn lemma_playlist_marked(
    nodes: Seq<NodeView>,
    at: int,
    playlist: PlaylistView,
    audio: bool,
    producers: Seq<ProducerView>,
    kdenlive: bool,
)
    requires
        reads(nodes, at, playlist_elem(playlist, audio, producers, kdenlive)),
    ensures
        marked_audio(nodes, at) == (kdenlive && audio),
{
    let e = playlist_elem(playlist, audio, producers, kdenlive);
    reveal_strlit("1");
    reveal_strlit("property");
    reveal_strlit("blank");
    reveal_strlit("entry");
    assert("property"@.len() == 8 && "blank"@.len() == 5 && "entry"@.len() == 5);
    if kdenlive && audio {
        lemma_is_prop("kdenlive:audio_track"@, "1"@, "kdenlive:audio_track"@);
        assert(e.kids[0] == prop("kdenlive:audio_track"@, "1"@));
        lemma_property(nodes, at, e, "kdenlive:audio_track"@, 0);
    } else {
        assert forall|k: int| 0 <= k < e.kids.len() implies !is_property(
            #[trigger] e.kids[k],
            "kdenlive:audio_track"@,
        ) by {
            assert(e.kids[k] == item_elem(playlist.items[k], producers));
        }
        lemma_no_property(nodes, at, e, "kdenlive:audio_track"@);
    }
}

// ---------------------------------------------------------------------------
// Order
// ---------------------------------------------------------------------------

proof fn lemma_slots(clips: Seq<ImportedClipView>, start: int)
    ensures
        use_slot(clip_uses(clips), start) == slot(clips, start),
        0 <= slot(clips, start) <= clips.len(),
    decreases clips.len(),
{
    if clips.len() > 0 {
        lemma_slots(clips.drop_last(), start);
        assert(clip_uses(clips).drop_last() =~= clip_uses(clips.drop_last()));
    }
}

/// Ordering clips orders their uses.
proof fn lemma_ordered(clips: Seq<ImportedClipView>)
    ensures
        clip_uses(by_start(clips)) == in_time(clip_uses(clips)),
    decreases clips.len(),
{
    if clips.len() > 0 {
        let rest = clips.drop_last();
        lemma_ordered(rest);
        let before = by_start(rest);
        let last = clips.last();
        assert(clip_uses(clips).drop_last() =~= clip_uses(rest));
        lemma_slots(before, last.start_frames);
        let at = slot(before, last.start_frames);
        assert(clip_uses(before.insert(at, last)) =~= clip_uses(before).insert(at, clip_use(last)));
    } else {
        assert(clip_uses(by_start(clips)) =~= in_time(clip_uses(clips)));
    }
}

// ---------------------------------------------------------------------------
// Tracks
// ---------------------------------------------------------------------------

/// Where the playlists of a track stand.
pub open spec fn list_places(nodes: Seq<NodeView>, playlists: Seq<PlaylistView>) -> Seq<int> {
    playlists.map_values(|p: PlaylistView| by_id(nodes, p.id))
}

/// Whether the playlists of a track, and its tractor if it has one, are found as they were
/// written.
pub open spec fn track_found(
    nodes: Seq<NodeView>,
    track: TrackView,
    producers: Seq<ProducerView>,
    frames: int,
    kdenlive: bool,
) -> bool {
    &&& track.playlists.len() > 0
    &&& track.tractor is None ==> track.playlists.len() == 1
    &&& track.reference == (match track.tractor {
        Some(id) => id,
        None => track.playlists[0].id,
    })
    &&& forall|k: int|
        0 <= k < track.playlists.len() ==> reads(
            nodes,
            by_id(nodes, (#[trigger] track.playlists[k]).id),
            playlist_elem(track.playlists[k], track.audio, producers, kdenlive),
        )
    &&& track.tractor matches Some(id) ==> reads(
        nodes,
        by_id(nodes, id),
        tractor_elem(track, id, frames, kdenlive),
    )
}

/// How many of `count` things behind `front` others are among the first `n`.
pub open spec fn shown(n: int, front: int, count: int) -> int {
    if n <= front {
        0
    } else if n >= front + count {
        count
    } else {
        n - front
    }
}

/// The references to playlists in an element are followed in order; what else stands there is
/// passed over.
proof fn lemma_pointed(
    nodes: Seq<NodeView>,
    kids: Seq<int>,
    elems: Seq<Elem>,
    front: int,
    playlists: Seq<PlaylistView>,
)
    requires
        front >= 0,
        kids.len() == elems.len(),
        forall|k: int| 0 <= k < elems.len() ==> reads(nodes, kids[k], #[trigger] elems[k]),
        forall|k: int|
            0 <= k < elems.len() && (k < front || k >= front + playlists.len()) ==> (
            #[trigger] elems[k]).name != "track"@,
        forall|k: int|
            front <= k < elems.len() && k < front + playlists.len() ==> #[trigger] elems[k]
                == leaf("track"@, seq![attr("producer"@, playlists[k - front].id)]),
        forall|k: int|
            0 <= k < playlists.len() ==> {
                let at = by_id(nodes, (#[trigger] playlists[k]).id);
                at >= 0 && nodes[at].is("playlist"@)
            },
    ensures
        pointed_playlists(nodes, kids) == list_places(
            nodes,
            playlists.take(shown(kids.len() as int, front, playlists.len() as int)),
        ),
    decreases kids.len(),
{
    let n = kids.len() as int;
    let count = playlists.len() as int;
    if n == 0 {
        assert(list_places(nodes, playlists.take(0)) =~= seq![]);
    } else {
        let rest = elems.drop_last();
        assert forall|k: int| 0 <= k < rest.len() implies reads(
            nodes,
            kids.drop_last()[k],
            #[trigger] rest[k],
        ) by {
            assert(rest[k] == elems[k]);
        }
        assert forall|k: int|
            0 <= k < rest.len() && (k < front || k >= front + playlists.len()) implies (
        #[trigger] rest[k]).name != "track"@ by {
            assert(rest[k] == elems[k]);
        }
        assert forall|k: int|
            front <= k < rest.len() && k < front + playlists.len() implies #[trigger] rest[k]
            == leaf("track"@, seq![attr("producer"@, playlists[k - front].id)]) by {
            assert(rest[k] == elems[k]);
        }
        lemma_pointed(nodes, kids.drop_last(), rest, front, playlists);
        let e = elems[n - 1];
        assert(reads(nodes, kids[n - 1], elems[n - 1]));
        if front <= n - 1 < front + count {
            let j = n - 1 - front;
            lemma_attribute(seq![attr("producer"@, playlists[j].id)], "producer"@, 0);
            assert(playlists[j].id == playlists[j].id);
            assert(list_places(nodes, playlists.take(j + 1)) =~= list_places(
                nodes,
                playlists.take(j),
            ).push(by_id(nodes, playlists[j].id)));
        }
    }
}

/// The playlists of a track are found in order.
proof fn lemma_track_playlists(
    nodes: Seq<NodeView>,
    track: TrackView,
    producers: Seq<ProducerView>,
    frames: int,
    kdenlive: bool,
)
    requires
        track_found(nodes, track, producers, frames, kdenlive),
    ensures
        by_id(nodes, track.reference) >= 0,
        track_playlists(nodes, by_id(nodes, track.reference)) == list_places(
            nodes,
            track.playlists,
        ),
{
    let at = by_id(nodes, track.reference);
    reveal_strlit("playlist");
    reveal_strlit("tractor");
    reveal_strlit("track");
    reveal_strlit("property");
    reveal_strlit("transition");
    reveal_strlit("filter");
    assert("playlist"@.len() == 8 && "tractor"@.len() == 7 && "track"@.len() == 5
        && "property"@.len() == 8 && "transition"@.len() == 10 && "filter"@.len() == 6);
    match track.tractor {
        None => {
            assert(track.playlists[0].id == track.reference);
            assert(list_places(nodes, track.playlists) =~= seq![at]);
        },
        Some(id) => {
            let e = tractor_elem(track, id, frames, kdenlive);
            let props = only_if(kdenlive, kdenlive_track_props(track));
            let front = props.len() as int;
            let kids = children_of(nodes, at);
            assert forall|k: int|
                0 <= k < e.kids.len() && (k < front || k >= front
                    + track.playlists.len()) implies (#[trigger] e.kids[k]).name != "track"@ by {
                if k < front {
                    assert(e.kids[k] == props[k]);
                    assert(props[k].name == "property"@);
                }
            }
            assert forall|k: int|
                0 <= k < track.playlists.len() implies ({
                let at = by_id(nodes, (#[trigger] track.playlists[k]).id);
                at >= 0 && nodes[at].is("playlist"@)
            }) by {}
            assert forall|k: int|
                front <= k < e.kids.len() && k < front
                    + track.playlists.len() implies #[trigger] e.kids[k] == leaf(
                "track"@,
                seq![attr("producer"@, track.playlists[k - front].id)],
            ) by {
                assert(e.kids[k] == reference_elems(track.playlists)[k - front]);
            }
            lemma_pointed(nodes, kids, e.kids, front, track.playlists);
            assert(track.playlists.take(track.playlists.len() as int) =~= track.playlists);
        },
    }
}

/// The tractor of a track is marked as audio where Kdenlive is told so.
proof fn lemma_tractor_marked(
    nodes: Seq<NodeView>,
    at: int,
    track: TrackView,
    id: Seq<char>,
    frames: int,
    kdenlive: bool,
)
    requires
        reads(nodes, at, tractor_elem(track, id, frames, kdenlive)),
    ensures
        marked_audio(nodes, at) == (kdenlive && track.audio),
{
    let e = tractor_elem(track, id, frames, kdenlive);
    let props = only_if(kdenlive, kdenlive_track_props(track));
    let wanted = "kdenlive:audio_track"@;
    reveal_strlit("1");
    reveal_strlit("property");
    reveal_strlit("track");
    reveal_strlit("transition");
    reveal_strlit("filter");
    assert("track"@.len() == 5 && "property"@.len() == 8 && "transition"@.len() == 10
        && "filter"@.len() == 6);
    reveal_strlit("kdenlive:audio_track");
    reveal_strlit("kdenlive:track_name");
    reveal_strlit("kdenlive:trackheight");
    reveal_strlit("kdenlive:timeline_active");
    reveal_strlit("kdenlive:collapsed");
    reveal_strlit("kdenlive:locked_track");
    assert(wanted.len() == 20 && wanted[9] == 'a');
    assert("kdenlive:track_name"@.len() == 19 && "kdenlive:timeline_active"@.len() == 24
        && "kdenlive:collapsed"@.len() == 18 && "kdenlive:locked_track"@.len() == 21);
    assert("kdenlive:trackheight"@[9] == 't');
    lemma_is_prop("kdenlive:track_name"@, track.name, wanted);
    lemma_is_prop("kdenlive:trackheight"@, "70"@, wanted);
    lemma_is_prop("kdenlive:timeline_active"@, "1"@, wanted);
    lemma_is_prop("kdenlive:collapsed"@, "0"@, wanted);
    lemma_is_prop("kdenlive:audio_track"@, "1"@, wanted);
    lemma_is_prop("kdenlive:locked_track"@, "1"@, wanted);
    if kdenlive && track.audio {
        assert forall|j: int| 0 <= j < 4 implies !is_property(#[trigger] e.kids[j], wanted) by {
            assert(e.kids[j] == props[j]);
        }
        assert(e.kids[4] == props[4]);
        lemma_property(nodes, at, e, wanted, 4);
    } else {
        assert forall|j: int| 0 <= j < e.kids.len() implies !is_property(
            #[trigger] e.kids[j],
            wanted,
        ) by {
            if j < props.len() {
                assert(e.kids[j] == props[j]);
            }
        }
        lemma_no_property(nodes, at, e, wanted);
    }
}

/// A track is called what it was called.
proof fn lemma_track_name_read(
    nodes: Seq<NodeView>,
    track: TrackView,
    producers: Seq<ProducerView>,
    frames: int,
    kdenlive: bool,
)
    requires
        track_found(nodes, track, producers, frames, kdenlive),
    ensures
        property_of(nodes, by_id(nodes, track.reference), "kdenlive:track_name"@) == name_written(
            track,
            kdenlive,
        ),
{
    let wanted = "kdenlive:track_name"@;
    let at = by_id(nodes, track.reference);
    reveal_strlit("property");
    reveal_strlit("track");
    reveal_strlit("transition");
    reveal_strlit("filter");
    reveal_strlit("blank");
    reveal_strlit("entry");
    assert("track"@.len() == 5 && "property"@.len() == 8 && "transition"@.len() == 10
        && "filter"@.len() == 6 && "blank"@.len() == 5 && "entry"@.len() == 5);
    reveal_strlit("kdenlive:track_name");
    reveal_strlit("kdenlive:audio_track");
    assert(wanted.len() == 19 && "kdenlive:audio_track"@.len() == 20);
    lemma_is_prop(wanted, track.name, wanted);
    lemma_is_prop("kdenlive:audio_track"@, "1"@, wanted);
    match track.tractor {
        Some(id) => {
            let e = tractor_elem(track, id, frames, kdenlive);
            if kdenlive {
                assert(e.kids[0] == kdenlive_track_props(track)[0]);
                lemma_property(nodes, at, e, wanted, 0);
            } else {
                lemma_no_property(nodes, at, e, wanted);
            }
        },
        None => {
            let playlist = track.playlists[0];
            let e = playlist_elem(playlist, track.audio, producers, kdenlive);
            assert(reads(nodes, at, e));
            let items = item_elems(playlist.items, producers);
            assert forall|j: int| 0 <= j < e.kids.len() implies !is_property(
                #[trigger] e.kids[j],
                wanted,
            ) by {
                let front: int = if kdenlive && track.audio {
                    1
                } else {
                    0
                };
                if j >= front {
                    assert(e.kids[j] == items[j - front]);
                    assert(items[j - front] == item_elem(playlist.items[j - front], producers));
                }
            }
            lemma_no_property(nodes, at, e, wanted);
        },
    }
}

/// Reading the playlists of a track gives back their uses.
proof fn lemma_playlists_read(
    nodes: Seq<NodeView>,
    playlists: Seq<PlaylistView>,
    audio: bool,
    producers: Seq<ProducerView>,
    kdenlive: bool,
    fps: Fps,
)
    requires
        producers_found(nodes, producers, kdenlive),
        forall|k: int|
            0 <= k < playlists.len() ==> reads(
                nodes,
                by_id(nodes, (#[trigger] playlists[k]).id),
                playlist_elem(playlists[k], audio, producers, kdenlive),
            ),
        forall|k: int|
            0 <= k < playlists.len() ==> is_readable(
                (#[trigger] playlists[k]).items,
                producers.len(),
                fps,
            ),
    ensures
        playlists_read(nodes, list_places(nodes, playlists), fps) is Ok,
        clip_uses(playlists_read(nodes, list_places(nodes, playlists), fps)->Ok_0) == track_uses(
            playlists,
            producers,
            kdenlive,
        ),
    decreases playlists.len(),
{
    let places = list_places(nodes, playlists);
    if playlists.len() == 0 {
        assert(clip_uses(playlists_read(nodes, places, fps)->Ok_0) =~= track_uses(
            playlists,
            producers,
            kdenlive,
        ));
    } else {
        let rest = playlists.drop_last();
        assert(list_places(nodes, rest) =~= places.drop_last());
        assert forall|k: int| 0 <= k < rest.len() implies reads(
            nodes,
            by_id(nodes, (#[trigger] rest[k]).id),
            playlist_elem(rest[k], audio, producers, kdenlive),
        ) by {
            assert(rest[k] == playlists[k]);
        }
        assert forall|k: int| 0 <= k < rest.len() implies is_readable(
            (#[trigger] rest[k]).items,
            producers.len(),
            fps,
        ) by {
            assert(rest[k] == playlists[k]);
        }
        lemma_playlists_read(nodes, rest, audio, producers, kdenlive, fps);
        let last = playlists[playlists.len() - 1];
        lemma_playlist_read(
            nodes,
            by_id(nodes, last.id),
            last,
            audio,
            producers,
            kdenlive,
            fps,
            playlists_read(nodes, places.drop_last(), fps)->Ok_0,
        );
        assert(places.last() == by_id(nodes, last.id));
    }
}

/// A track is read as one of audio where it was written as one.
proof fn lemma_audio_read(
    nodes: Seq<NodeView>,
    node: NodeView,
    track: TrackView,
    producers: Seq<ProducerView>,
    frames: int,
    kdenlive: bool,
)
    requires
        node.attrs == read_attrs(track_leaf(track).attrs),
        track_found(nodes, track, producers, frames, kdenlive),
    ensures
        is_audio_track(nodes, node, by_id(nodes, track.reference)) == read_as_audio(
            track,
            kdenlive,
        ),
        attribute(node.attrs, "producer"@) == Some(track.reference),
{
    reveal_strlit("hide");
    reveal_strlit("producer");
    assert("hide"@.len() == 4 && "producer"@.len() == 8);
    lemma_attribute(track_leaf(track).attrs, "producer"@, 0);
    lemma_attribute(track_leaf(track).attrs, "hide"@, 1);
    lemma_track_playlists(nodes, track, producers, frames, kdenlive);
    let at = by_id(nodes, track.reference);
    let places = list_places(nodes, track.playlists);
    assert forall|k: int| 0 <= k < places.len() implies marked_audio(nodes, #[trigger] places[k])
        == (kdenlive && track.audio) by {
        lemma_playlist_marked(
            nodes,
            by_id(nodes, track.playlists[k].id),
            track.playlists[k],
            track.audio,
            producers,
            kdenlive,
        );
    }
    match track.tractor {
        Some(id) => lemma_tractor_marked(nodes, at, track, id, frames, kdenlive),
        None => {
            assert(places[0] == at);
        },
    }
    if kdenlive && track.audio {
        assert(marked_audio(nodes, at));
    }
}

/// Reading a track gives back what was on it, behind the tracks that were read before.
proof fn lemma_track_read(
    nodes: Seq<NodeView>,
    node: NodeView,
    track: TrackView,
    producers: Seq<ProducerView>,
    frames: int,
    kdenlive: bool,
    fps: Fps,
    before: Seq<ImportedTrackView>,
)
    requires
        node.is("track"@),
        node.attrs == read_attrs(track_leaf(track).attrs),
        producers_found(nodes, producers, kdenlive),
        track_found(nodes, track, producers, frames, kdenlive),
        forall|k: int|
            0 <= k < track.playlists.len() ==> is_readable(
                (#[trigger] track.playlists[k]).items,
                producers.len(),
                fps,
            ),
    ensures
        after_track(before, nodes, node, fps) is Ok,
        after_track(before, nodes, node, fps)->Ok_0.len() == before.len() + 1,
        after_track(before, nodes, node, fps)->Ok_0.drop_last() == before,
        is_track(
            after_track(before, nodes, node, fps)->Ok_0.last(),
            before,
            track,
            producers,
            kdenlive,
        ),
{
    lemma_track_name_read(nodes, track, producers, frames, kdenlive);
    lemma_audio_read(nodes, node, track, producers, frames, kdenlive);
    lemma_track_playlists(nodes, track, producers, frames, kdenlive);
    lemma_playlists_read(nodes, track.playlists, track.audio, producers, kdenlive, fps);
    let places = list_places(nodes, track.playlists);
    lemma_ordered(playlists_read(nodes, places, fps)->Ok_0);
    assert(after_track(before, nodes, node, fps)->Ok_0.drop_last() =~= before);
}

/// Reading the references of a timeline gives back its tracks, in order.
pub proof fn lemma_tracks_read(
    nodes: Seq<NodeView>,
    kids: Seq<int>,
    elems: Seq<Elem>,
    front: int,
    tracks: Seq<TrackView>,
    producers: Seq<ProducerView>,
    frames: int,
    kdenlive: bool,
    fps: Fps,
)
    requires
        front >= 0,
        kids.len() == elems.len(),
        producers_found(nodes, producers, kdenlive),
        reads(nodes, by_id(nodes, "black_track"@), black_elem(frames)),
        forall|k: int| 0 <= k < elems.len() ==> reads(nodes, kids[k], #[trigger] elems[k]),
        forall|k: int|
            0 <= k < elems.len() && (k < front || k > front + tracks.len()) ==> (
            #[trigger] elems[k]).name != "track"@,
        front < elems.len() ==> elems[front] == black_leaf(),
        forall|k: int|
            front < k < elems.len() && k <= front + tracks.len() ==> #[trigger] elems[k]
                == track_leaf(tracks[k - front - 1]),
        forall|t: int|
            0 <= t < tracks.len() ==> track_found(
                nodes,
                #[trigger] tracks[t],
                producers,
                frames,
                kdenlive,
            ),
        forall|t: int, k: int|
            0 <= t < tracks.len() && 0 <= k < tracks[t].playlists.len() ==> is_readable(
                (#[trigger] tracks[t].playlists[k]).items,
                producers.len(),
                fps,
            ),
    ensures
        after_tracks(nodes, kids, fps) is Ok,
        after_tracks(nodes, kids, fps)->Ok_0.len() == shown(
            kids.len() as int,
            front + 1,
            tracks.len() as int,
        ),
        forall|t: int|
            0 <= t < after_tracks(nodes, kids, fps)->Ok_0.len() ==> is_track(
                #[trigger] after_tracks(nodes, kids, fps)->Ok_0[t],
                after_tracks(nodes, kids, fps)->Ok_0.take(t),
                tracks[t],
                producers,
                kdenlive,
            ),
    decreases kids.len(),
{
    let n = kids.len() as int;
    if n > 0 {
        let rest = elems.drop_last();
        let rest_kids = kids.drop_last();
        assert forall|k: int| 0 <= k < rest.len() implies reads(
            nodes,
            rest_kids[k],
            #[trigger] rest[k],
        ) by {
            assert(rest[k] == elems[k]);
        }
        assert forall|k: int|
            0 <= k < rest.len() && (k < front || k > front + tracks.len()) implies (
        #[trigger] rest[k]).name != "track"@ by {
            assert(rest[k] == elems[k]);
        }
        assert forall|k: int|
            front < k < rest.len() && k <= front + tracks.len() implies #[trigger] rest[k]
            == track_leaf(tracks[k - front - 1]) by {
            assert(rest[k] == elems[k]);
        }
        lemma_tracks_read(
            nodes,
            rest_kids,
            rest,
            front,
            tracks,
            producers,
            frames,
            kdenlive,
            fps,
        );
        let before = after_tracks(nodes, rest_kids, fps)->Ok_0;
        let node = nodes[kids[n - 1]];
        assert(reads(nodes, kids[n - 1], elems[n - 1]));
        if n - 1 == front {
            lemma_attribute(seq![attr("producer"@, "black_track"@)], "producer"@, 0);
            reveal_strlit("producer");
            reveal_strlit("playlist");
            reveal_strlit("tractor");
            assert("producer"@[1] == 'r' && "playlist"@[1] == 'l' && "producer"@.len() == 8
                && "tractor"@.len() == 7);
            assert(after_track(before, nodes, node, fps) == Ok::<
                Seq<ImportedTrackView>,
                crate::error::ErrorView,
            >(before));
        } else if front < n - 1 <= front + tracks.len() {
            let t = n - 2 - front;
            lemma_track_read(
                nodes,
                node,
                tracks[t],
                producers,
                frames,
                kdenlive,
                fps,
                before,
            );
            let after = after_track(before, nodes, node, fps)->Ok_0;
            assert forall|i: int| 0 <= i < after.len() implies is_track(
                #[trigger] after[i],
                after.take(i),
                tracks[i],
                producers,
                kdenlive,
            ) by {
                if i < before.len() {
                    assert(after[i] == after.drop_last()[i]);
                    assert(after.take(i) =~= before.take(i));
                    assert(is_track(before[i], before.take(i), tracks[i], producers, kdenlive));
                } else {
                    assert(after.take(i) =~= after.drop_last());
                }
            }
        } else {
            assert(!node.is("track"@));
        }
    }
}

} // verus!
