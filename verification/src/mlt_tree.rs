//! An MLT document as a tree of elements: the same document that is written event by event.

use crate::mlt::{
    FilterView, ItemView, ProducerView, TransitionView, KDENLIVE_DOC_VERSION, KDENLIVE_VERSION,
    MLT_VERSION,
};
use crate::mlt_document::{DocumentView, PlaylistView, TrackView};
use crate::mlt_write::{
    bin_entry, bin_events, bin_list, black_events, combination, combination_list, document_events,
    document_uuid, entry_attrs, filter_events, filter_list, given, item_events, item_list,
    kdenlive_producer, kdenlive_sequence, kdenlive_track, last_frame, main_events, main_id,
    playlist_events, playlist_list, playlist_references, producer_events, producer_list,
    profile_event, property, property_list, range_events, size_text, track_events, track_list,
    track_reference, track_references, tractor_attrs, transition_events, transition_list, uuid_of,
    without_prefixes,
};
use crate::project::Project;
use crate::text::{dec, dec_int};
use crate::time::{Fps, Time};
use crate::xml::{
    attr, document_with, empty, end, events_in, events_of, start, AttrView, Elem, EventView,
};
use vstd::prelude::*;

verus! {

// ---------------------------------------------------------------------------
// Elements
// ---------------------------------------------------------------------------

/// An element of one tag.
pub open spec fn leaf(name: Seq<char>, attrs: Seq<AttrView>) -> Elem {
    Elem { name, attrs, text: None, closed: true, kids: seq![] }
}

/// An element with others in it.
pub open spec fn branch(name: Seq<char>, attrs: Seq<AttrView>, kids: Seq<Elem>) -> Elem {
    Elem { name, attrs, text: None, closed: false, kids }
}

pub open spec fn prop(name: Seq<char>, value: Seq<char>) -> Elem {
    Elem {
        name: "property"@,
        attrs: seq![attr("name"@, name)],
        text: Some(value),
        closed: false,
        kids: seq![],
    }
}

/// Some elements, if a condition holds.
pub open spec fn only_if(condition: bool, elems: Seq<Elem>) -> Seq<Elem> {
    if condition {
        elems
    } else {
        seq![]
    }
}

pub open spec fn props_of(list: Seq<AttrView>) -> Seq<Elem> {
    list.map_values(|p: AttrView| prop(p.key, p.value))
}

pub open spec fn range_props(range: Option<(i64, i64)>) -> Seq<Elem> {
    match range {
        Some((first, last)) => seq![
            prop("in"@, dec_int(first as int)),
            prop("out"@, dec_int(last as int)),
        ],
        None => seq![],
    }
}

pub open spec fn filter_elem(filter: FilterView) -> Elem {
    branch(
        "filter"@,
        seq![],
        seq![prop("mlt_service"@, filter.service)] + props_of(filter.props) + range_props(
            filter.range,
        ),
    )
}

pub open spec fn filter_elems(filters: Seq<FilterView>) -> Seq<Elem> {
    filters.map_values(|f: FilterView| filter_elem(f))
}

pub open spec fn transition_elem(t: TransitionView) -> Elem {
    branch(
        "transition"@,
        seq![attr("id"@, t.id)],
        seq![prop("a_track"@, dec(t.a_track as nat))].push(
            prop("b_track"@, dec(t.b_track as nat)),
        ).push(prop("mlt_service"@, t.service)) + props_of(t.props) + range_props(t.range),
    )
}

pub open spec fn transition_elems(transitions: Seq<TransitionView>) -> Seq<Elem> {
    transitions.map_values(|t: TransitionView| transition_elem(t))
}

pub open spec fn kdenlive_producer_props(p: ProducerView, fps: Fps) -> Seq<Elem> {
    seq![prop("kdenlive:id"@, dec(p.bin_id as nat))].push(
        prop("kdenlive:clipname"@, p.name),
    ).push(prop("kdenlive:duration"@, Time::of_frames(p.length, fps).clock_text())).push(
        prop("kdenlive:control_uuid"@, uuid_of(p.id)),
    ) + (match p.hash {
        Some(hash) => seq![prop("kdenlive:file_hash"@, without_prefixes(hash, "blake3:"@))],
        None => seq![],
    })
}

#[verifier::opaque]
pub open spec fn producer_props(p: ProducerView, fps: Fps, kdenlive: bool) -> Seq<Elem> {
    seq![prop("length"@, dec_int(p.length))].push(prop("eof"@, "pause"@)).push(
        prop("resource"@, p.resource),
    ).push(prop("mlt_service"@, p.service)) + (if p.service == "color"@ {
        seq![prop("mlt_image_format"@, "rgba"@)].push(prop("aspect_ratio"@, "1"@))
    } else {
        seq![prop("seekable"@, "1"@)].push(prop("mute_on_pause"@, "0"@))
    }) + (if p.audio_only {
        seq![prop("set.test_image"@, "1"@)]
    } else {
        only_if(!p.has_audio, seq![prop("set.test_audio"@, "1"@)])
    }) + only_if(kdenlive, kdenlive_producer_props(p, fps))
}

pub open spec fn producer_elem(p: ProducerView, fps: Fps, kdenlive: bool) -> Elem {
    branch(
        "producer"@,
        seq![attr("id"@, p.id), attr("in"@, "0"@), attr("out"@, last_frame(p.length))],
        producer_props(p, fps, kdenlive),
    )
}

pub open spec fn producer_elems(producers: Seq<ProducerView>, fps: Fps, kdenlive: bool) -> Seq<Elem> {
    producers.map_values(|p: ProducerView| producer_elem(p, fps, kdenlive))
}

pub open spec fn bin_leaf(p: ProducerView) -> Elem {
    leaf(
        "entry"@,
        seq![attr("producer"@, p.id), attr("in"@, "0"@), attr("out"@, last_frame(p.length))],
    )
}

pub open spec fn bin_elems(producers: Seq<ProducerView>) -> Seq<Elem>
    decreases producers.len(),
{
    if producers.len() == 0 {
        seq![]
    } else {
        bin_elems(producers.drop_last()) + only_if(
            producers.last().bin,
            seq![bin_leaf(producers.last())],
        )
    }
}

pub open spec fn bin_elem(d: DocumentView, project: Project) -> Elem {
    branch(
        "playlist"@,
        seq![attr("id"@, "main_bin"@)],
        seq![prop("kdenlive:docproperties.decimalPoint"@, "."@)].push(
            prop("kdenlive:docproperties.version"@, KDENLIVE_DOC_VERSION@),
        ).push(prop("kdenlive:docproperties.kdenliveversion"@, KDENLIVE_VERSION@)).push(
            prop("kdenlive:docproperties.documentid"@, project.id@),
        ).push(prop("kdenlive:docproperties.uuid"@, document_uuid(d, project))).push(
            prop("kdenlive:docproperties.profile"@, size_text(d.size) + " "@ + d.fps.text()),
        ).push(prop("kdenlive:docproperties.seekOffset"@, "30000"@)).push(
            prop("kdenlive:folder.-1.1"@, project.name@),
        ).push(prop("xml_retain"@, "1"@)) + bin_elems(d.producers),
    )
}

pub open spec fn black_elem(frames: int) -> Elem {
    branch(
        "producer"@,
        seq![attr("id"@, "black_track"@), attr("in"@, "0"@), attr("out"@, last_frame(frames))],
        seq![prop("length"@, dec_int(frames))].push(prop("eof"@, "continue"@)).push(
            prop("resource"@, "black"@),
        ).push(prop("aspect_ratio"@, "1"@)).push(prop("mlt_service"@, "color"@)).push(
            prop("mlt_image_format"@, "rgba"@),
        ).push(prop("set.test_audio"@, "0"@)),
    )
}

pub open spec fn item_elem(item: ItemView, producers: Seq<ProducerView>) -> Elem {
    match item {
        ItemView::Blank(frames) => leaf("blank"@, seq![attr("length"@, dec_int(frames))]),
        ItemView::Entry(entry) => if entry.filters.len() == 0 {
            leaf("entry"@, entry_attrs(entry, producers))
        } else {
            branch("entry"@, entry_attrs(entry, producers), filter_elems(entry.filters))
        },
    }
}

pub open spec fn item_elems(items: Seq<ItemView>, producers: Seq<ProducerView>) -> Seq<Elem> {
    items.map_values(|item: ItemView| item_elem(item, producers))
}

pub open spec fn playlist_elem(
    playlist: PlaylistView,
    audio: bool,
    producers: Seq<ProducerView>,
    kdenlive: bool,
) -> Elem {
    branch(
        "playlist"@,
        seq![attr("id"@, playlist.id)],
        only_if(kdenlive && audio, seq![prop("kdenlive:audio_track"@, "1"@)]) + item_elems(
            playlist.items,
            producers,
        ),
    )
}

pub open spec fn playlist_elems(
    playlists: Seq<PlaylistView>,
    audio: bool,
    producers: Seq<ProducerView>,
    kdenlive: bool,
) -> Seq<Elem> {
    playlists.map_values(|p: PlaylistView| playlist_elem(p, audio, producers, kdenlive))
}

pub open spec fn reference_elems(playlists: Seq<PlaylistView>) -> Seq<Elem> {
    playlists.map_values(|p: PlaylistView| leaf("track"@, seq![attr("producer"@, p.id)]))
}

pub open spec fn kdenlive_track_props(track: TrackView) -> Seq<Elem> {
    seq![prop("kdenlive:track_name"@, track.name)].push(prop("kdenlive:trackheight"@, "70"@)).push(
        prop("kdenlive:timeline_active"@, "1"@),
    ).push(prop("kdenlive:collapsed"@, "0"@)) + only_if(
        track.audio,
        seq![prop("kdenlive:audio_track"@, "1"@)],
    ) + only_if(track.locked, seq![prop("kdenlive:locked_track"@, "1"@)])
}

pub open spec fn tractor_elem(track: TrackView, id: Seq<char>, frames: int, kdenlive: bool) -> Elem {
    branch(
        "tractor"@,
        tractor_attrs(id, frames),
        only_if(kdenlive, kdenlive_track_props(track)) + reference_elems(track.playlists)
            + transition_elems(track.transitions) + filter_elems(track.filters),
    )
}

pub open spec fn track_elems(
    track: TrackView,
    producers: Seq<ProducerView>,
    frames: int,
    kdenlive: bool,
) -> Seq<Elem> {
    playlist_elems(track.playlists, track.audio, producers, kdenlive) + (match track.tractor {
        Some(tractor) => seq![tractor_elem(track, tractor, frames, kdenlive)],
        None => seq![],
    })
}

pub open spec fn tracks_elems(
    tracks: Seq<TrackView>,
    producers: Seq<ProducerView>,
    frames: int,
    kdenlive: bool,
) -> Seq<Elem>
    decreases tracks.len(),
{
    if tracks.len() == 0 {
        seq![]
    } else {
        tracks_elems(tracks.drop_last(), producers, frames, kdenlive) + track_elems(
            tracks.last(),
            producers,
            frames,
            kdenlive,
        )
    }
}

pub open spec fn track_leaf(track: TrackView) -> Elem {
    leaf(
        "track"@,
        match track.hide {
            Some(hide) => seq![attr("producer"@, track.reference), attr("hide"@, hide)],
            None => seq![attr("producer"@, track.reference)],
        },
    )
}

pub open spec fn track_leaves(tracks: Seq<TrackView>) -> Seq<Elem> {
    tracks.map_values(|t: TrackView| track_leaf(t))
}

pub open spec fn combination_elems(tracks: Seq<TrackView>, compositor: Seq<char>) -> Seq<Elem>
    decreases tracks.len(),
{
    if tracks.len() == 0 {
        seq![]
    } else {
        combination_elems(tracks.drop_last(), compositor).push(
            transition_elem(combination(tracks.last(), tracks.len() as int, compositor)),
        )
    }
}

pub open spec fn kdenlive_sequence_props(d: DocumentView, project: Project) -> Seq<Elem> {
    seq![prop("kdenlive:uuid"@, document_uuid(d, project))].push(
        prop("kdenlive:clipname"@, d.sequence_name),
    ).push(prop("kdenlive:duration"@, Time::of_frames(d.frames, d.fps).clock_text())).push(
        prop("kdenlive:maxduration"@, dec_int(d.frames)),
    ).push(
        prop("kdenlive:sequenceproperties.documentuuid"@, document_uuid(d, project)),
    ).push(prop("kdenlive:sequenceproperties.tracksCount"@, dec(d.tracks.len()))).push(
        prop(
            "kdenlive:sequenceproperties.activeTrack"@,
            dec(
                if d.tracks.len() > 0 {
                    1
                } else {
                    0
                },
            ),
        ),
    ).push(prop("kdenlive:sequenceproperties.guides"@, d.guides)).push(
        prop("kdenlive:sequenceproperties.groups"@, "[]"@),
    ).push(prop("kdenlive:sequenceproperties.position"@, "0"@)).push(
        prop("kdenlive:sequenceproperties.zonein"@, "0"@),
    ).push(prop("kdenlive:sequenceproperties.zoneout"@, dec_int(d.frames)))
}

pub open spec fn main_attrs(d: DocumentView) -> Seq<AttrView> {
    seq![
        attr("id"@, main_id(d)),
        attr("title"@, d.sequence_name),
        attr("global_feed"@, "1"@),
        attr("in"@, "0"@),
        attr("out"@, last_frame(d.frames)),
    ]
}

pub open spec fn black_leaf() -> Elem {
    leaf("track"@, seq![attr("producer"@, "black_track"@)])
}

pub open spec fn main_elem(
    d: DocumentView,
    project: Project,
    compositor: Seq<char>,
    kdenlive: bool,
) -> Elem {
    branch(
        "tractor"@,
        main_attrs(d),
        only_if(kdenlive, kdenlive_sequence_props(d, project)).push(black_leaf()) + track_leaves(
            d.tracks,
        ) + combination_elems(d.tracks, compositor),
    )
}

pub open spec fn profile_elem(d: DocumentView) -> Elem {
    leaf("profile"@, profile_event(d)->Empty_attrs)
}

pub open spec fn root_attrs(d: DocumentView, project: Project, root: Seq<char>) -> Seq<AttrView> {
    seq![
        attr("LC_NUMERIC"@, "C"@),
        attr("version"@, MLT_VERSION@),
        attr("title"@, project.name@),
        attr("root"@, root),
        attr("producer"@, main_id(d)),
    ]
}

/// What stands in a document, in front of its timeline.
pub open spec fn front_elems(d: DocumentView, project: Project, kdenlive: bool) -> Seq<Elem> {
    seq![profile_elem(d)] + producer_elems(d.producers, d.fps, kdenlive) + only_if(
        kdenlive,
        seq![bin_elem(d, project)],
    ) + seq![black_elem(d.frames)] + tracks_elems(d.tracks, d.producers, d.frames, kdenlive)
}

/// The whole document.
#[verifier::opaque]
pub open spec fn mlt_elem(
    d: DocumentView,
    project: Project,
    root: Seq<char>,
    compositor: Seq<char>,
    kdenlive: bool,
) -> Elem {
    branch(
        "mlt"@,
        root_attrs(d, project, root),
        front_elems(d, project, kdenlive).push(main_elem(d, project, compositor, kdenlive)),
    )
}

// ---------------------------------------------------------------------------
// The tree is what is written
// ---------------------------------------------------------------------------

/// A tag and what is written behind it.
pub open spec fn headed(event: EventView, kids: Seq<Elem>) -> Seq<EventView> {
    seq![event] + events_in(kids)
}

proof fn lemma_push(kids: Seq<Elem>, e: Elem)
    ensures
        events_in(kids.push(e)) == events_in(kids) + events_of(e),
{
    assert(kids.push(e).drop_last() =~= kids);
}

proof fn lemma_join(a: Seq<Elem>, b: Seq<Elem>)
    ensures
        events_in(a + b) == events_in(a) + events_in(b),
    decreases b.len(),
{
    if b.len() == 0 {
        assert(a + b =~= a);
        assert(events_in(a) + events_in(b) =~= events_in(a));
    } else {
        lemma_join(a, b.drop_last());
        assert((a + b).drop_last() =~= a + b.drop_last());
        assert(events_in(a + b) =~= events_in(a) + events_in(b));
    }
}

broadcast proof fn lemma_one(e: Elem)
    ensures
        #[trigger] events_in(seq![e]) == events_of(e),
{
    reveal_with_fuel(events_in, 2);
    assert(seq![e].drop_last() =~= seq![]);
    assert(seq![e].last() == e);
    assert(events_in(seq![e]) =~= events_of(e));
}

broadcast proof fn lemma_more(kids: Seq<Elem>, e: Elem)
    ensures
        #[trigger] events_in(kids.push(e)) == events_in(kids) + events_of(e),
{
    lemma_push(kids, e);
}

broadcast proof fn lemma_both(a: Seq<Elem>, b: Seq<Elem>)
    ensures
        #[trigger] events_in(a + b) == events_in(a) + events_in(b),
{
    lemma_join(a, b);
}

broadcast proof fn lemma_prop(name: Seq<char>, value: Seq<char>)
    ensures
        #[trigger] events_of(prop(name, value)) == property(name, value),
{
    assert(events_of(prop(name, value)) =~= property(name, value));
}

proof fn lemma_branch(name: Seq<char>, attrs: Seq<AttrView>, kids: Seq<Elem>)
    ensures
        events_of(branch(name, attrs, kids)) == headed(start(name, attrs), kids) + seq![end(name)],
{
    assert(events_of(branch(name, attrs, kids)) =~= headed(start(name, attrs), kids) + seq![
        end(name),
    ]);
}

broadcast proof fn lemma_headed_one(event: EventView, e: Elem)
    ensures
        #[trigger] headed(event, seq![e]) == seq![event] + events_of(e),
{
    lemma_one(e);
}

broadcast proof fn lemma_headed_more(event: EventView, kids: Seq<Elem>, e: Elem)
    ensures
        #[trigger] headed(event, kids.push(e)) == headed(event, kids) + events_of(e),
{
    lemma_push(kids, e);
    assert(headed(event, kids.push(e)) =~= headed(event, kids) + events_of(e));
}

broadcast proof fn lemma_headed_both(event: EventView, a: Seq<Elem>, b: Seq<Elem>)
    ensures
        #[trigger] headed(event, a + b) == headed(event, a) + events_in(b),
{
    lemma_join(a, b);
    assert(headed(event, a + b) =~= headed(event, a) + events_in(b));
}

broadcast group group_events {
    lemma_one,
    lemma_more,
    lemma_both,
    lemma_prop,
    lemma_headed_one,
    lemma_headed_more,
    lemma_headed_both,
}

proof fn lemma_props(list: Seq<AttrView>)
    ensures
        events_in(props_of(list)) == property_list(list),
    decreases list.len(),
{
    if list.len() > 0 {
        lemma_props(list.drop_last());
        assert(props_of(list) =~= props_of(list.drop_last()).push(
            prop(list.last().key, list.last().value),
        ));
        lemma_push(props_of(list.drop_last()), prop(list.last().key, list.last().value));
        lemma_prop(list.last().key, list.last().value);
    }
}

proof fn lemma_range(range: Option<(i64, i64)>)
    ensures
        events_in(range_props(range)) == range_events(range),
{
    broadcast use group_events;

    if let Some((first, last)) = range {
        let a = prop("in"@, dec_int(first as int));
        let b = prop("out"@, dec_int(last as int));
        assert(range_props(range) =~= seq![a].push(b));
    }
}

proof fn lemma_filter(filter: FilterView)
    ensures
        events_of(filter_elem(filter)) == filter_events(filter),
{
    broadcast use group_events;

    lemma_props(filter.props);
    lemma_range(filter.range);
    let e = filter_elem(filter);
    lemma_branch(e.name, e.attrs, e.kids);
}

proof fn lemma_filters(filters: Seq<FilterView>)
    ensures
        events_in(filter_elems(filters)) == filter_list(filters),
    decreases filters.len(),
{
    if filters.len() > 0 {
        lemma_filters(filters.drop_last());
        lemma_filter(filters.last());
        assert(filter_elems(filters) =~= filter_elems(filters.drop_last()).push(
            filter_elem(filters.last()),
        ));
        lemma_push(filter_elems(filters.drop_last()), filter_elem(filters.last()));
    }
}

proof fn lemma_transition(t: TransitionView)
    ensures
        events_of(transition_elem(t)) == transition_events(t),
{
    broadcast use group_events;

    lemma_props(t.props);
    lemma_range(t.range);
    let e = transition_elem(t);
    lemma_branch(e.name, e.attrs, e.kids);
}

proof fn lemma_transitions(transitions: Seq<TransitionView>)
    ensures
        events_in(transition_elems(transitions)) == transition_list(transitions),
    decreases transitions.len(),
{
    if transitions.len() > 0 {
        let rest = transitions.drop_last();
        lemma_transitions(rest);
        lemma_transition(transitions.last());
        assert(transition_elems(transitions) =~= transition_elems(rest).push(
            transition_elem(transitions.last()),
        ));
        lemma_push(transition_elems(rest), transition_elem(transitions.last()));
    }
}

proof fn lemma_kdenlive_producer(p: ProducerView, fps: Fps)
    ensures
        events_in(kdenlive_producer_props(p, fps)) == kdenlive_producer(p, fps),
{
    broadcast use group_events;

}

proof fn lemma_producer(p: ProducerView, fps: Fps, kdenlive: bool)
    ensures
        events_of(producer_elem(p, fps, kdenlive)) == producer_events(p, fps, kdenlive),
{
    broadcast use group_events;

    reveal(producer_props);
    lemma_kdenlive_producer(p, fps);
    let e = producer_elem(p, fps, kdenlive);
    lemma_branch(e.name, e.attrs, e.kids);
}

proof fn lemma_producers(producers: Seq<ProducerView>, fps: Fps, kdenlive: bool)
    ensures
        events_in(producer_elems(producers, fps, kdenlive)) == producer_list(
            producers,
            fps,
            kdenlive,
        ),
    decreases producers.len(),
{
    if producers.len() > 0 {
        let rest = producers.drop_last();
        lemma_producers(rest, fps, kdenlive);
        lemma_producer(producers.last(), fps, kdenlive);
        let e = producer_elem(producers.last(), fps, kdenlive);
        assert(producer_elems(producers, fps, kdenlive) =~= producer_elems(
            rest,
            fps,
            kdenlive,
        ).push(e));
        lemma_push(producer_elems(rest, fps, kdenlive), e);
    }
}

proof fn lemma_bin_list(producers: Seq<ProducerView>)
    ensures
        events_in(bin_elems(producers)) == bin_list(producers),
    decreases producers.len(),
{
    if producers.len() > 0 {
        lemma_bin_list(producers.drop_last());
        let e = bin_leaf(producers.last());
        lemma_join(bin_elems(producers.drop_last()), only_if(producers.last().bin, seq![e]));
        lemma_one(e);
        assert(events_of(e) =~= seq![bin_entry(producers.last())]);
    }
}

proof fn lemma_bin(d: DocumentView, project: Project)
    ensures
        events_of(bin_elem(d, project)) == bin_events(d, project),
{
    broadcast use group_events;

    lemma_bin_list(d.producers);
    let e = bin_elem(d, project);
    lemma_branch(e.name, e.attrs, e.kids);
}

proof fn lemma_black(frames: int)
    ensures
        events_of(black_elem(frames)) == black_events(frames),
{
    broadcast use group_events;

    let e = black_elem(frames);
    lemma_branch(e.name, e.attrs, e.kids);
}

proof fn lemma_item(item: ItemView, producers: Seq<ProducerView>)
    ensures
        events_of(item_elem(item, producers)) == item_events(item, producers),
{
    if let ItemView::Entry(entry) = item {
        lemma_filters(entry.filters);
        lemma_branch("entry"@, entry_attrs(entry, producers), filter_elems(entry.filters));
    }
}

proof fn lemma_items(items: Seq<ItemView>, producers: Seq<ProducerView>)
    ensures
        events_in(item_elems(items, producers)) == item_list(items, producers),
    decreases items.len(),
{
    if items.len() > 0 {
        let rest = items.drop_last();
        lemma_items(rest, producers);
        lemma_item(items.last(), producers);
        let e = item_elem(items.last(), producers);
        assert(item_elems(items, producers) =~= item_elems(rest, producers).push(e));
        lemma_push(item_elems(rest, producers), e);
    }
}

proof fn lemma_playlist(
    playlist: PlaylistView,
    audio: bool,
    producers: Seq<ProducerView>,
    kdenlive: bool,
)
    ensures
        events_of(playlist_elem(playlist, audio, producers, kdenlive)) == playlist_events(
            playlist,
            audio,
            producers,
            kdenlive,
        ),
{
    broadcast use group_events;

    lemma_items(playlist.items, producers);
    let e = playlist_elem(playlist, audio, producers, kdenlive);
    lemma_branch(e.name, e.attrs, e.kids);
    let front = only_if(kdenlive && audio, seq![prop("kdenlive:audio_track"@, "1"@)]);
    assert(headed(start(e.name, e.attrs), front) =~= seq![start(e.name, e.attrs)] + given(
        kdenlive && audio,
        property("kdenlive:audio_track"@, "1"@),
    ));
}

proof fn lemma_playlists(
    playlists: Seq<PlaylistView>,
    audio: bool,
    producers: Seq<ProducerView>,
    kdenlive: bool,
)
    ensures
        events_in(playlist_elems(playlists, audio, producers, kdenlive)) == playlist_list(
            playlists,
            audio,
            producers,
            kdenlive,
        ),
    decreases playlists.len(),
{
    if playlists.len() > 0 {
        let rest = playlists.drop_last();
        lemma_playlists(rest, audio, producers, kdenlive);
        lemma_playlist(playlists.last(), audio, producers, kdenlive);
        let e = playlist_elem(playlists.last(), audio, producers, kdenlive);
        assert(playlist_elems(playlists, audio, producers, kdenlive) =~= playlist_elems(
            rest,
            audio,
            producers,
            kdenlive,
        ).push(e));
        lemma_push(playlist_elems(rest, audio, producers, kdenlive), e);
    }
}

proof fn lemma_references(playlists: Seq<PlaylistView>)
    ensures
        events_in(reference_elems(playlists)) == playlist_references(playlists),
    decreases playlists.len(),
{
    if playlists.len() > 0 {
        let rest = playlists.drop_last();
        lemma_references(rest);
        let e = leaf("track"@, seq![attr("producer"@, playlists.last().id)]);
        assert(reference_elems(playlists) =~= reference_elems(rest).push(e));
        lemma_push(reference_elems(rest), e);
        assert(events_in(reference_elems(playlists)) =~= playlist_references(playlists));
    }
}

proof fn lemma_tractor(track: TrackView, id: Seq<char>, frames: int, kdenlive: bool)
    ensures
        events_of(tractor_elem(track, id, frames, kdenlive)) == seq![
            start("tractor"@, tractor_attrs(id, frames)),
        ] + given(kdenlive, kdenlive_track(track)) + playlist_references(track.playlists)
            + transition_list(track.transitions) + filter_list(track.filters) + seq![
            end("tractor"@),
        ],
{
    broadcast use group_events;

    lemma_references(track.playlists);
    lemma_transitions(track.transitions);
    lemma_filters(track.filters);
    let e = tractor_elem(track, id, frames, kdenlive);
    lemma_branch(e.name, e.attrs, e.kids);
    let front = only_if(kdenlive, kdenlive_track_props(track));
    assert(events_in(kdenlive_track_props(track)) =~= kdenlive_track(track));
    assert(events_in(front) =~= given(kdenlive, kdenlive_track(track)));
}

proof fn lemma_track(
    track: TrackView,
    producers: Seq<ProducerView>,
    frames: int,
    kdenlive: bool,
)
    ensures
        events_in(track_elems(track, producers, frames, kdenlive)) == track_events(
            track,
            producers,
            frames,
            kdenlive,
        ),
{
    lemma_playlists(track.playlists, track.audio, producers, kdenlive);
    let lists = playlist_elems(track.playlists, track.audio, producers, kdenlive);
    match track.tractor {
        Some(tractor) => {
            lemma_tractor(track, tractor, frames, kdenlive);
            let e = tractor_elem(track, tractor, frames, kdenlive);
            lemma_join(lists, seq![e]);
            lemma_one(e);
        },
        None => {
            lemma_join(lists, seq![]);
        },
    }
}

proof fn lemma_tracks(
    tracks: Seq<TrackView>,
    producers: Seq<ProducerView>,
    frames: int,
    kdenlive: bool,
)
    ensures
        events_in(tracks_elems(tracks, producers, frames, kdenlive)) == track_list(
            tracks,
            producers,
            frames,
            kdenlive,
        ),
    decreases tracks.len(),
{
    if tracks.len() > 0 {
        lemma_tracks(tracks.drop_last(), producers, frames, kdenlive);
        lemma_track(tracks.last(), producers, frames, kdenlive);
        lemma_join(
            tracks_elems(tracks.drop_last(), producers, frames, kdenlive),
            track_elems(tracks.last(), producers, frames, kdenlive),
        );
    }
}

proof fn lemma_leaves(tracks: Seq<TrackView>)
    ensures
        events_in(track_leaves(tracks)) == track_references(tracks),
    decreases tracks.len(),
{
    if tracks.len() > 0 {
        let rest = tracks.drop_last();
        lemma_leaves(rest);
        let e = track_leaf(tracks.last());
        assert(track_leaves(tracks) =~= track_leaves(rest).push(e));
        lemma_push(track_leaves(rest), e);
        assert(events_of(e) =~= seq![track_reference(tracks.last())]);
        assert(events_in(track_leaves(tracks)) =~= track_references(tracks));
    }
}

proof fn lemma_combinations(tracks: Seq<TrackView>, compositor: Seq<char>)
    ensures
        events_in(combination_elems(tracks, compositor)) == combination_list(tracks, compositor),
    decreases tracks.len(),
{
    if tracks.len() > 0 {
        let rest = tracks.drop_last();
        lemma_combinations(rest, compositor);
        let t = combination(tracks.last(), tracks.len() as int, compositor);
        lemma_transition(t);
        lemma_push(combination_elems(rest, compositor), transition_elem(t));
    }
}

proof fn lemma_main(d: DocumentView, project: Project, compositor: Seq<char>, kdenlive: bool)
    ensures
        events_of(main_elem(d, project, compositor, kdenlive)) == main_events(
            d,
            project,
            compositor,
            kdenlive,
        ),
{
    broadcast use group_events;

    lemma_leaves(d.tracks);
    lemma_combinations(d.tracks, compositor);
    let e = main_elem(d, project, compositor, kdenlive);
    lemma_branch(e.name, e.attrs, e.kids);
    let front = only_if(kdenlive, kdenlive_sequence_props(d, project));
    assert(events_in(kdenlive_sequence_props(d, project)) =~= kdenlive_sequence(d, project));
    assert(events_in(front) =~= given(kdenlive, kdenlive_sequence(d, project)));
    assert(events_of(black_leaf()) =~= seq![
        empty("track"@, seq![attr("producer"@, "black_track"@)]),
    ]);
}

proof fn lemma_assembled(
    name: Seq<char>,
    attrs: Seq<AttrView>,
    profile: Elem,
    producers: Seq<Elem>,
    bin: Seq<Elem>,
    black: Elem,
    tracks: Seq<Elem>,
    main: Elem,
)
    ensures
        events_of(
            branch(
                name,
                attrs,
                (seq![profile] + producers + bin + seq![black] + tracks).push(main),
            ),
        ) == seq![start(name, attrs)] + events_of(profile) + events_in(producers) + events_in(bin)
            + events_of(black) + events_in(tracks) + events_of(main) + seq![end(name)],
{
    broadcast use group_events;

    lemma_branch(
        name,
        attrs,
        (seq![profile] + producers + bin + seq![black] + tracks).push(main),
    );
}

proof fn lemma_whole(
    attrs: Seq<AttrView>,
    profile: Elem,
    producers: Seq<Elem>,
    bin: Seq<Elem>,
    black: Elem,
    tracks: Seq<Elem>,
    main: Elem,
    p: EventView,
    a: Seq<EventView>,
    b: Seq<EventView>,
    c: Seq<EventView>,
    t: Seq<EventView>,
    m: Seq<EventView>,
)
    requires
        events_of(profile) == seq![p],
        events_in(producers) == a,
        events_in(bin) == b,
        events_of(black) == c,
        events_in(tracks) == t,
        events_of(main) == m,
    ensures
        document_with(
            branch(
                "mlt"@,
                attrs,
                (seq![profile] + producers + bin + seq![black] + tracks).push(main),
            ),
        ) == seq![EventView::Decl { encoding: "utf-8"@ }, start("mlt"@, attrs), p] + a + b + c + t
            + m + seq![end("mlt"@)],
{
    lemma_assembled("mlt"@, attrs, profile, producers, bin, black, tracks, main);
    let head = seq![EventView::Decl { encoding: "utf-8"@ }];
    let first = seq![start("mlt"@, attrs)] + seq![p];
    let z = seq![end("mlt"@)];
    assert(head + first =~= seq![
        EventView::Decl { encoding: "utf-8"@ },
        start("mlt"@, attrs),
        p,
    ]);
    assert(head + (first + a + b + c + t + m + z) =~= (head + first) + a + b + c + t + m + z);
}

/// The tree of a document is written as the document is.
pub proof fn lemma_document_is_its_tree(
    d: DocumentView,
    project: Project,
    root: Seq<char>,
    compositor: Seq<char>,
    kdenlive: bool,
)
    ensures
        document_with(mlt_elem(d, project, root, compositor, kdenlive)) == document_events(
            d,
            project,
            root,
            compositor,
            kdenlive,
        ),
{
    reveal(mlt_elem);
    lemma_producers(d.producers, d.fps, kdenlive);
    lemma_bin(d, project);
    lemma_black(d.frames);
    lemma_tracks(d.tracks, d.producers, d.frames, kdenlive);
    lemma_main(d, project, compositor, kdenlive);
    lemma_one(bin_elem(d, project));
    lemma_whole(
        root_attrs(d, project, root),
        profile_elem(d),
        producer_elems(d.producers, d.fps, kdenlive),
        only_if(kdenlive, seq![bin_elem(d, project)]),
        black_elem(d.frames),
        tracks_elems(d.tracks, d.producers, d.frames, kdenlive),
        main_elem(d, project, compositor, kdenlive),
        profile_event(d),
        producer_list(d.producers, d.fps, kdenlive),
        given(kdenlive, bin_events(d, project)),
        black_events(d.frames),
        track_list(d.tracks, d.producers, d.frames, kdenlive),
        main_events(d, project, compositor, kdenlive),
    );
}

} // verus!
