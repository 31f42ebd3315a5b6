//! The MLT document as XML.

use crate::error::Error;
use crate::ident::{seed_bits, uuid_from, uuid_text};
use crate::mlt::{
    numbered, EntryOutView, Filter, FilterView, Item, ItemView, Producer, ProducerView,
    TransitionOut, TransitionView, KDENLIVE_DOC_VERSION, KDENLIVE_VERSION, MLT_VERSION,
};
use crate::mlt_build::item_ok;
use crate::mlt_document::{
    document_error, document_fits, document_of, document_ok, track_ok, Document, DocumentView,
    PlaylistOut, PlaylistView, TrackOut, TrackView,
};
use crate::project::Project;
use crate::rational::gcd;
use crate::text::{
    chars_of, dec, dec_int, decimal, integer, push_char, same, starts_with, string_of_range,
};
use crate::time::{Fps, Time};
use crate::timeline::{larger, Warning};
use crate::views::{extend, views};
use crate::xml::{
    attr, attrs1, attrs2, attrs3, empty, end, push_attr, push_empty, push_end, push_event,
    push_start, render, start, xml_text, AttrView, EventView, XmlAttr, XmlEvent,
};
use vstd::prelude::*;

verus! {

/// A document's text, and what it could not carry.
#[derive(Clone, Debug)]
pub struct Export {
    pub text: String,
    pub warnings: Vec<Warning>,
}

/// A property element.
pub open spec fn property(name: Seq<char>, value: Seq<char>) -> Seq<EventView> {
    seq![
        start("property"@, seq![attr("name"@, name)]),
        EventView::Text(value),
        end("property"@),
    ]
}

/// Some events, if a condition holds.
pub open spec fn given(condition: bool, events: Seq<EventView>) -> Seq<EventView> {
    if condition {
        events
    } else {
        seq![]
    }
}

pub open spec fn property_list(props: Seq<AttrView>) -> Seq<EventView>
    decreases props.len(),
{
    if props.len() == 0 {
        seq![]
    } else {
        property_list(props.drop_last()) + property(props.last().key, props.last().value)
    }
}

pub open spec fn range_events(range: Option<(i64, i64)>) -> Seq<EventView> {
    match range {
        Some((first, last)) => property("in"@, dec_int(first as int)) + property(
            "out"@,
            dec_int(last as int),
        ),
        None => seq![],
    }
}

pub open spec fn filter_events(filter: FilterView) -> Seq<EventView> {
    seq![start("filter"@, seq![])] + property("mlt_service"@, filter.service) + property_list(
        filter.props,
    ) + range_events(filter.range) + seq![end("filter"@)]
}

pub open spec fn filter_list(filters: Seq<FilterView>) -> Seq<EventView>
    decreases filters.len(),
{
    if filters.len() == 0 {
        seq![]
    } else {
        filter_list(filters.drop_last()) + filter_events(filters.last())
    }
}

pub open spec fn transition_events(t: TransitionView) -> Seq<EventView> {
    seq![start("transition"@, seq![attr("id"@, t.id)])] + property("a_track"@, dec(t.a_track as nat))
        + property("b_track"@, dec(t.b_track as nat)) + property("mlt_service"@, t.service)
        + property_list(t.props) + range_events(t.range) + seq![end("transition"@)]
}

pub open spec fn transition_list(transitions: Seq<TransitionView>) -> Seq<EventView>
    decreases transitions.len(),
{
    if transitions.len() == 0 {
        seq![]
    } else {
        transition_list(transitions.drop_last()) + transition_events(transitions.last())
    }
}

/// Text without any number of copies of a prefix in front of it.
pub open spec fn without_prefixes(s: Seq<char>, prefix: Seq<char>) -> Seq<char>
    decreases s.len(),
{
    if prefix.len() > 0 && starts_with(s, prefix) {
        without_prefixes(s.skip(prefix.len() as int), prefix)
    } else {
        s
    }
}

pub open spec fn uuid_of(seed: Seq<char>) -> Seq<char> {
    uuid_text(seed_bits(seed))
}

/// The last frame of `frames` frames.
pub open spec fn last_frame(frames: int) -> Seq<char> {
    dec_int(larger(frames - 1, 0))
}

/// What Kdenlive wants to know about a producer.
pub open spec fn kdenlive_producer(p: ProducerView, fps: Fps) -> Seq<EventView> {
    property("kdenlive:id"@, dec(p.bin_id as nat)) + property("kdenlive:clipname"@, p.name)
        + property("kdenlive:duration"@, Time::of_frames(p.length, fps).clock_text()) + property(
        "kdenlive:control_uuid"@,
        uuid_of(p.id),
    ) + (match p.hash {
        Some(hash) => property("kdenlive:file_hash"@, without_prefixes(hash, "blake3:"@)),
        None => seq![],
    })
}

pub open spec fn producer_events(p: ProducerView, fps: Fps, kdenlive: bool) -> Seq<EventView> {
    seq![
        start(
            "producer"@,
            seq![attr("id"@, p.id), attr("in"@, "0"@), attr("out"@, last_frame(p.length))],
        ),
    ] + property("length"@, dec_int(p.length)) + property("eof"@, "pause"@) + property(
        "resource"@,
        p.resource,
    ) + property("mlt_service"@, p.service) + (if p.service == "color"@ {
        property("mlt_image_format"@, "rgba"@) + property("aspect_ratio"@, "1"@)
    } else {
        property("seekable"@, "1"@) + property("mute_on_pause"@, "0"@)
    }) + (if p.audio_only {
        property("set.test_image"@, "1"@)
    } else {
        given(!p.has_audio, property("set.test_audio"@, "1"@))
    }) + given(kdenlive, kdenlive_producer(p, fps)) + seq![end("producer"@)]
}

pub open spec fn producer_list(
    producers: Seq<ProducerView>,
    fps: Fps,
    kdenlive: bool,
) -> Seq<EventView>
    decreases producers.len(),
{
    if producers.len() == 0 {
        seq![]
    } else {
        producer_list(producers.drop_last(), fps, kdenlive) + producer_events(
            producers.last(),
            fps,
            kdenlive,
        )
    }
}

pub open spec fn bin_entry(p: ProducerView) -> EventView {
    empty(
        "entry"@,
        seq![attr("producer"@, p.id), attr("in"@, "0"@), attr("out"@, last_frame(p.length))],
    )
}

/// The producers that the bin lists.
pub open spec fn bin_list(producers: Seq<ProducerView>) -> Seq<EventView>
    decreases producers.len(),
{
    if producers.len() == 0 {
        seq![]
    } else {
        bin_list(producers.drop_last()) + given(
            producers.last().bin,
            seq![bin_entry(producers.last())],
        )
    }
}

pub open spec fn size_text(size: [u32; 2]) -> Seq<char> {
    dec(size@[0] as nat) + "x"@ + dec(size@[1] as nat)
}

pub open spec fn document_uuid(d: DocumentView, project: Project) -> Seq<char> {
    uuid_of(project.id@ + ":"@ + d.sequence_name)
}

/// The project bin, with the document's properties.
pub open spec fn bin_events(d: DocumentView, project: Project) -> Seq<EventView> {
    seq![start("playlist"@, seq![attr("id"@, "main_bin"@)])] + property(
        "kdenlive:docproperties.decimalPoint"@,
        "."@,
    ) + property("kdenlive:docproperties.version"@, KDENLIVE_DOC_VERSION@) + property(
        "kdenlive:docproperties.kdenliveversion"@,
        KDENLIVE_VERSION@,
    ) + property("kdenlive:docproperties.documentid"@, project.id@) + property(
        "kdenlive:docproperties.uuid"@,
        document_uuid(d, project),
    ) + property("kdenlive:docproperties.profile"@, size_text(d.size) + " "@ + d.fps.text())
        + property("kdenlive:docproperties.seekOffset"@, "30000"@) + property(
        "kdenlive:folder.-1.1"@,
        project.name@,
    ) + property("xml_retain"@, "1"@) + bin_list(d.producers) + seq![end("playlist"@)]
}

/// The background, which every compositing transition blends onto.
pub open spec fn black_events(frames: int) -> Seq<EventView> {
    seq![
        start(
            "producer"@,
            seq![
                attr("id"@, "black_track"@),
                attr("in"@, "0"@),
                attr("out"@, last_frame(frames)),
            ],
        ),
    ] + property("length"@, dec_int(frames)) + property("eof"@, "continue"@) + property(
        "resource"@,
        "black"@,
    ) + property("aspect_ratio"@, "1"@) + property("mlt_service"@, "color"@) + property(
        "mlt_image_format"@,
        "rgba"@,
    ) + property("set.test_audio"@, "0"@) + seq![end("producer"@)]
}

pub open spec fn entry_attrs(entry: EntryOutView, producers: Seq<ProducerView>) -> Seq<AttrView> {
    seq![
        attr("producer"@, producers[entry.producer].id),
        attr("in"@, dec_int(entry.in_frame)),
        attr("out"@, dec_int(entry.out_frame)),
    ]
}

pub open spec fn item_events(item: ItemView, producers: Seq<ProducerView>) -> Seq<EventView> {
    match item {
        ItemView::Blank(frames) => seq![empty("blank"@, seq![attr("length"@, dec_int(frames))])],
        ItemView::Entry(entry) => if entry.filters.len() == 0 {
            seq![empty("entry"@, entry_attrs(entry, producers))]
        } else {
            seq![start("entry"@, entry_attrs(entry, producers))] + filter_list(entry.filters)
                + seq![end("entry"@)]
        },
    }
}

pub open spec fn item_list(items: Seq<ItemView>, producers: Seq<ProducerView>) -> Seq<EventView>
    decreases items.len(),
{
    if items.len() == 0 {
        seq![]
    } else {
        item_list(items.drop_last(), producers) + item_events(items.last(), producers)
    }
}

pub open spec fn playlist_events(
    playlist: PlaylistView,
    audio: bool,
    producers: Seq<ProducerView>,
    kdenlive: bool,
) -> Seq<EventView> {
    seq![start("playlist"@, seq![attr("id"@, playlist.id)])] + given(
        kdenlive && audio,
        property("kdenlive:audio_track"@, "1"@),
    ) + item_list(playlist.items, producers) + seq![end("playlist"@)]
}

pub open spec fn playlist_list(
    playlists: Seq<PlaylistView>,
    audio: bool,
    producers: Seq<ProducerView>,
    kdenlive: bool,
) -> Seq<EventView>
    decreases playlists.len(),
{
    if playlists.len() == 0 {
        seq![]
    } else {
        playlist_list(playlists.drop_last(), audio, producers, kdenlive) + playlist_events(
            playlists.last(),
            audio,
            producers,
            kdenlive,
        )
    }
}

/// The playlists that a track's tractor plays together.
pub open spec fn playlist_references(playlists: Seq<PlaylistView>) -> Seq<EventView>
    decreases playlists.len(),
{
    if playlists.len() == 0 {
        seq![]
    } else {
        playlist_references(playlists.drop_last()).push(
            empty("track"@, seq![attr("producer"@, playlists.last().id)]),
        )
    }
}

pub open spec fn kdenlive_track(track: TrackView) -> Seq<EventView> {
    property("kdenlive:track_name"@, track.name) + property("kdenlive:trackheight"@, "70"@)
        + property("kdenlive:timeline_active"@, "1"@) + property("kdenlive:collapsed"@, "0"@)
        + given(track.audio, property("kdenlive:audio_track"@, "1"@)) + given(
        track.locked,
        property("kdenlive:locked_track"@, "1"@),
    )
}

pub open spec fn tractor_attrs(id: Seq<char>, frames: int) -> Seq<AttrView> {
    seq![attr("id"@, id), attr("in"@, "0"@), attr("out"@, last_frame(frames))]
}

pub open spec fn track_events(
    track: TrackView,
    producers: Seq<ProducerView>,
    frames: int,
    kdenlive: bool,
) -> Seq<EventView> {
    playlist_list(track.playlists, track.audio, producers, kdenlive) + (match track.tractor {
        Some(tractor) => seq![start("tractor"@, tractor_attrs(tractor, frames))] + given(
            kdenlive,
            kdenlive_track(track),
        ) + playlist_references(track.playlists) + transition_list(track.transitions)
            + filter_list(track.filters) + seq![end("tractor"@)],
        None => seq![],
    })
}

pub open spec fn track_list(
    tracks: Seq<TrackView>,
    producers: Seq<ProducerView>,
    frames: int,
    kdenlive: bool,
) -> Seq<EventView>
    decreases tracks.len(),
{
    if tracks.len() == 0 {
        seq![]
    } else {
        track_list(tracks.drop_last(), producers, frames, kdenlive) + track_events(
            tracks.last(),
            producers,
            frames,
            kdenlive,
        )
    }
}

pub open spec fn track_reference(track: TrackView) -> EventView {
    empty(
        "track"@,
        match track.hide {
            Some(hide) => seq![attr("producer"@, track.reference), attr("hide"@, hide)],
            None => seq![attr("producer"@, track.reference)],
        },
    )
}

pub open spec fn track_references(tracks: Seq<TrackView>) -> Seq<EventView>
    decreases tracks.len(),
{
    if tracks.len() == 0 {
        seq![]
    } else {
        track_references(tracks.drop_last()).push(track_reference(tracks.last()))
    }
}

/// How a track is put together with the ones under it: audio is summed, picture is blended.
pub open spec fn combination(track: TrackView, slot: int, compositor: Seq<char>) -> TransitionView {
    TransitionView {
        id: numbered("transition_track"@, slot),
        service: if track.audio {
            "mix"@
        } else {
            compositor
        },
        a_track: 0,
        b_track: slot,
        props: seq![
            attr("always_active"@, "1"@),
            attr("internal_added"@, "237"@),
            if track.audio {
                attr("sum"@, "1"@)
            } else {
                attr("disable"@, "0"@)
            },
        ],
        range: None,
    }
}

pub open spec fn combination_list(tracks: Seq<TrackView>, compositor: Seq<char>) -> Seq<EventView>
    decreases tracks.len(),
{
    if tracks.len() == 0 {
        seq![]
    } else {
        combination_list(tracks.drop_last(), compositor) + transition_events(
            combination(tracks.last(), tracks.len() as int, compositor),
        )
    }
}

/// The id of the tractor that is the timeline.
pub open spec fn main_id(d: DocumentView) -> Seq<char> {
    numbered("tractor"@, d.tracks.len() as int)
}

pub open spec fn kdenlive_sequence(d: DocumentView, project: Project) -> Seq<EventView> {
    property("kdenlive:uuid"@, document_uuid(d, project)) + property(
        "kdenlive:clipname"@,
        d.sequence_name,
    ) + property("kdenlive:duration"@, Time::of_frames(d.frames, d.fps).clock_text()) + property(
        "kdenlive:maxduration"@,
        dec_int(d.frames),
    ) + property("kdenlive:sequenceproperties.documentuuid"@, document_uuid(d, project)) + property(
        "kdenlive:sequenceproperties.tracksCount"@,
        dec(d.tracks.len()),
    ) + property(
        "kdenlive:sequenceproperties.activeTrack"@,
        dec(if d.tracks.len() > 0 {
            1
        } else {
            0
        }),
    ) + property("kdenlive:sequenceproperties.guides"@, d.guides) + property(
        "kdenlive:sequenceproperties.groups"@,
        "[]"@,
    ) + property("kdenlive:sequenceproperties.position"@, "0"@) + property(
        "kdenlive:sequenceproperties.zonein"@,
        "0"@,
    ) + property("kdenlive:sequenceproperties.zoneout"@, dec_int(d.frames))
}

/// The timeline: the background and the tracks over it.
pub open spec fn main_events(
    d: DocumentView,
    project: Project,
    compositor: Seq<char>,
    kdenlive: bool,
) -> Seq<EventView> {
    seq![
        start(
            "tractor"@,
            seq![
                attr("id"@, main_id(d)),
                attr("title"@, d.sequence_name),
                attr("global_feed"@, "1"@),
                attr("in"@, "0"@),
                attr("out"@, last_frame(d.frames)),
            ],
        ),
    ] + given(kdenlive, kdenlive_sequence(d, project)) + seq![
        empty("track"@, seq![attr("producer"@, "black_track"@)]),
    ] + track_references(d.tracks) + combination_list(d.tracks, compositor) + seq![
        end("tractor"@),
    ]
}

/// The display aspect in lowest terms, of at least one pixel each way.
pub open spec fn display_aspect_of(size: [u32; 2]) -> (int, int) {
    let width = larger(size@[0] as int, 1);
    let height = larger(size@[1] as int, 1);
    let divisor = gcd(width as nat, height as nat) as int;
    (width / divisor, height / divisor)
}

pub open spec fn profile_event(d: DocumentView) -> EventView {
    empty(
        "profile"@,
        seq![
            attr("description"@, "dvs "@ + size_text(d.size)),
            attr("width"@, dec(d.size@[0] as nat)),
            attr("height"@, dec(d.size@[1] as nat)),
            attr("progressive"@, "1"@),
            attr("sample_aspect_num"@, "1"@),
            attr("sample_aspect_den"@, "1"@),
            attr("display_aspect_num"@, dec_int(display_aspect_of(d.size).0)),
            attr("display_aspect_den"@, dec_int(display_aspect_of(d.size).1)),
            attr("frame_rate_num"@, dec_int(d.fps.rate.num as int)),
            attr("frame_rate_den"@, dec_int(d.fps.rate.den as int)),
            attr("colorspace"@, "709"@),
        ],
    )
}

/// The whole document.
pub open spec fn document_events(
    d: DocumentView,
    project: Project,
    root: Seq<char>,
    compositor: Seq<char>,
    kdenlive: bool,
) -> Seq<EventView> {
    seq![
        EventView::Decl { encoding: "utf-8"@ },
        start(
            "mlt"@,
            seq![
                attr("LC_NUMERIC"@, "C"@),
                attr("version"@, MLT_VERSION@),
                attr("title"@, project.name@),
                attr("root"@, root),
                attr("producer"@, main_id(d)),
            ],
        ),
        profile_event(d),
    ] + producer_list(d.producers, d.fps, kdenlive) + given(kdenlive, bin_events(d, project))
        + black_events(d.frames) + track_list(d.tracks, d.producers, d.frames, kdenlive)
        + main_events(d, project, compositor, kdenlive) + seq![end("mlt"@)]
}

// ---------------------------------------------------------------------------
// Emission
// ---------------------------------------------------------------------------

fn opening(name: &str, attrs: Vec<XmlAttr>) -> (r: Vec<XmlEvent>)
    ensures
        views(r@) == seq![start(name@, views(attrs@))],
{
    let mut out: Vec<XmlEvent> = Vec::new();
    push_start(&mut out, name, attrs);
    assert(views(out@) =~= seq![start(name@, views(attrs@))]);
    out
}

fn close(events: &mut Vec<XmlEvent>, name: &str)
    ensures
        views(final(events)@) == views(old(events)@) + seq![end(name@)],
{
    push_end(events, name);
    assert(views(events@) =~= views(old(events)@) + seq![end(name@)]);
}

fn add_property(events: &mut Vec<XmlEvent>, name: &str, value: &str)
    ensures
        views(final(events)@) == views(old(events)@) + property(name@, value@),
{
    push_start(events, "property", attrs1("name", name));
    push_event(events, XmlEvent::Text(value.to_owned()));
    push_end(events, "property");
    assert(views(events@) =~= views(old(events)@) + property(name@, value@));
}

/// Appends some events, where there are any to append.
fn add_given(events: &mut Vec<XmlEvent>, condition: bool, more: Vec<XmlEvent>)
    ensures
        views(final(events)@) == views(old(events)@) + given(condition, views(more@)),
{
    if condition {
        extend(events, more);
    } else {
        assert(views(events@) =~= views(old(events)@) + given(condition, views(more@)));
    }
}

fn one_property(name: &str, value: &str) -> (r: Vec<XmlEvent>)
    ensures
        views(r@) == property(name@, value@),
{
    let mut out: Vec<XmlEvent> = Vec::new();
    add_property(&mut out, name, value);
    assert(views(out@) =~= property(name@, value@));
    out
}

fn two_properties(n0: &str, v0: &str, n1: &str, v1: &str) -> (r: Vec<XmlEvent>)
    ensures
        views(r@) == property(n0@, v0@) + property(n1@, v1@),
{
    let mut out = one_property(n0, v0);
    add_property(&mut out, n1, v1);
    out
}

fn write_props(items: &Vec<XmlAttr>) -> (r: Vec<XmlEvent>)
    ensures
        views(r@) == property_list(views(items@)),
{
    let ghost all = views(items@);
    let mut out: Vec<XmlEvent> = Vec::new();
    let mut i: usize = 0;
    assert(all.take(0) =~= seq![]);
    assert(views(out@) =~= seq![]);
    while i < items.len()
        invariant
            i <= items@.len(),
            all == views(items@),
            views(out@) == property_list(all.take(i as int)),
        decreases items@.len() - i,
    {
        proof {
            assert(all.take(i + 1).drop_last() =~= all.take(i as int));
            assert(all.take(i + 1).last() == items@[i as int]@);
        }
        add_property(&mut out, items[i].key.as_str(), items[i].value.as_str());
        i = i + 1;
    }
    assert(all.take(i as int) =~= all);
    out
}

fn write_range(range: Option<(i64, i64)>) -> (r: Vec<XmlEvent>)
    ensures
        views(r@) == range_events(range),
{
    match range {
        Some((first, last)) => two_properties(
            "in",
            integer(first).as_str(),
            "out",
            integer(last).as_str(),
        ),
        None => {
            let out: Vec<XmlEvent> = Vec::new();
            assert(views(out@) =~= seq![]);
            out
        },
    }
}

fn write_filter(filter: &Filter) -> (r: Vec<XmlEvent>)
    ensures
        views(r@) == filter_events(filter@),
{
    let none: Vec<XmlAttr> = Vec::new();
    assert(views(none@) =~= seq![]);
    let mut out = opening("filter", none);
    add_property(&mut out, "mlt_service", filter.service);
    extend(&mut out, write_props(&filter.props));
    extend(&mut out, write_range(filter.range));
    close(&mut out, "filter");
    out
}

fn write_filters(items: &Vec<Filter>) -> (r: Vec<XmlEvent>)
    ensures
        views(r@) == filter_list(views(items@)),
{
    let ghost all = views(items@);
    let mut out: Vec<XmlEvent> = Vec::new();
    let mut i: usize = 0;
    assert(all.take(0) =~= seq![]);
    assert(views(out@) =~= seq![]);
    while i < items.len()
        invariant
            i <= items@.len(),
            all == views(items@),
            views(out@) == filter_list(all.take(i as int)),
        decreases items@.len() - i,
    {
        proof {
            assert(all.take(i + 1).drop_last() =~= all.take(i as int));
            assert(all.take(i + 1).last() == items@[i as int]@);
        }
        extend(&mut out, write_filter(&items[i]));
        i = i + 1;
    }
    assert(all.take(i as int) =~= all);
    out
}

fn write_transition(t: &TransitionOut) -> (r: Vec<XmlEvent>)
    ensures
        views(r@) == transition_events(t@),
{
    let mut out = opening("transition", attrs1("id", t.id.as_str()));
    add_property(&mut out, "a_track", decimal(t.a_track as u128).as_str());
    add_property(&mut out, "b_track", decimal(t.b_track as u128).as_str());
    add_property(&mut out, "mlt_service", t.service.as_str());
    extend(&mut out, write_props(&t.props));
    extend(&mut out, write_range(t.range));
    close(&mut out, "transition");
    out
}

fn write_transitions(items: &Vec<TransitionOut>) -> (r: Vec<XmlEvent>)
    ensures
        views(r@) == transition_list(views(items@)),
{
    let ghost all = views(items@);
    let mut out: Vec<XmlEvent> = Vec::new();
    let mut i: usize = 0;
    assert(all.take(0) =~= seq![]);
    assert(views(out@) =~= seq![]);
    while i < items.len()
        invariant
            i <= items@.len(),
            all == views(items@),
            views(out@) == transition_list(all.take(i as int)),
        decreases items@.len() - i,
    {
        proof {
            assert(all.take(i + 1).drop_last() =~= all.take(i as int));
            assert(all.take(i + 1).last() == items@[i as int]@);
        }
        extend(&mut out, write_transition(&items[i]));
        i = i + 1;
    }
    assert(all.take(i as int) =~= all);
    out
}

/// Text without any number of copies of a prefix in front of it.
pub(crate) fn drop_prefixes(text: &str, prefix: &str) -> (r: String)
    ensures
        r@ == without_prefixes(text@, prefix@),
{
    let chars = chars_of(text);
    let n: usize = chars.len();
    let wide: usize = chars_of(prefix).len();
    let mut from: usize = 0;
    assert(chars@.skip(0) =~= chars@);
    while wide > 0 && wide <= n - from && crate::text::match_at(&chars, prefix, from)
        invariant
            from <= n,
            n == chars@.len(),
            wide == prefix@.len(),
            without_prefixes(chars@.skip(from as int), prefix@) == without_prefixes(
                text@,
                prefix@,
            ),
        decreases n - from,
    {
        proof {
            let rest = chars@.skip(from as int);
            assert(rest.take(wide as int) =~= chars@.subrange(from as int, from + wide));
            assert(starts_with(rest, prefix@));
            assert(rest.skip(wide as int) =~= chars@.skip(from + wide));
        }
        from = from + wide;
    }
    proof {
        let rest = chars@.skip(from as int);
        if wide > 0 && wide <= n - from {
            assert(rest.take(wide as int) =~= chars@.subrange(from as int, from + wide));
        }
        assert(chars@.subrange(from as int, n as int) =~= rest);
    }
    string_of_range(&chars, from, n)
}

fn last_of(frames: i64) -> (r: String)
    requires
        frames > i64::MIN,
    ensures
        r@ == last_frame(frames as int),
{
    if frames > 1 {
        integer(frames - 1)
    } else {
        integer(0)
    }
}

fn write_kdenlive_producer(p: &Producer, fps: Fps) -> (r: Vec<XmlEvent>)
    requires
        fps.wf(),
        Time::frames_fit(p.length as int, fps),
    ensures
        views(r@) == kdenlive_producer(p@, fps),
{
    let mut out = one_property("kdenlive:id", decimal(p.bin_id).as_str());
    add_property(&mut out, "kdenlive:clipname", p.name.as_str());
    let length = Time::from_frames(p.length, fps);
    add_property(&mut out, "kdenlive:duration", length.clock().as_str());
    add_property(&mut out, "kdenlive:control_uuid", uuid_from(p.id.as_str()).as_str());
    match &p.hash {
        Some(hash) => {
            add_property(
                &mut out,
                "kdenlive:file_hash",
                drop_prefixes(hash.as_str(), "blake3:").as_str(),
            );
        },
        None => {
            assert(views(out@) =~= views(out@) + Seq::<EventView>::empty());
        },
    }
    out
}

fn write_producer(p: &Producer, fps: Fps, kdenlive: bool) -> (r: Vec<XmlEvent>)
    requires
        fps.wf(),
        p.length > 0,
        kdenlive ==> Time::frames_fit(p.length as int, fps),
    ensures
        views(r@) == producer_events(p@, fps, kdenlive),
{
    let last = last_of(p.length);
    let mut out = opening(
        "producer",
        attrs3("id", p.id.as_str(), "in", "0", "out", last.as_str()),
    );
    add_property(&mut out, "length", integer(p.length).as_str());
    add_property(&mut out, "eof", "pause");
    add_property(&mut out, "resource", p.resource.as_str());
    add_property(&mut out, "mlt_service", p.service);
    if same(p.service, "color") {
        extend(&mut out, two_properties("mlt_image_format", "rgba", "aspect_ratio", "1"));
    } else {
        extend(&mut out, two_properties("seekable", "1", "mute_on_pause", "0"));
    }
    if p.audio_only {
        add_property(&mut out, "set.test_image", "1");
    } else {
        add_given(&mut out, !p.has_audio, one_property("set.test_audio", "1"));
    }
    if kdenlive {
        extend(&mut out, write_kdenlive_producer(p, fps));
    } else {
        assert(views(out@) =~= views(out@) + given(kdenlive, kdenlive_producer(p@, fps)));
    }
    close(&mut out, "producer");
    out
}

/// Whether the lengths of a document can be told as clock times.
pub open spec fn clocks_fit(d: DocumentView) -> bool {
    &&& Time::frames_fit(d.frames, d.fps)
    &&& forall|k: int|
        0 <= k < d.producers.len() ==> Time::frames_fit(
            (#[trigger] d.producers[k]).length,
            d.fps,
        )
}

fn write_producers(items: &Vec<Producer>, fps: Fps, kdenlive: bool) -> (r: Vec<XmlEvent>)
    requires
        fps.wf(),
        forall|k: int| 0 <= k < items@.len() ==> (#[trigger] views(items@)[k]).length > 0,
        kdenlive ==> forall|k: int|
            0 <= k < items@.len() ==> Time::frames_fit((#[trigger] views(items@)[k]).length, fps),
    ensures
        views(r@) == producer_list(views(items@), fps, kdenlive),
{
    let ghost all = views(items@);
    let mut out: Vec<XmlEvent> = Vec::new();
    let mut i: usize = 0;
    assert(all.take(0) =~= seq![]);
    assert(views(out@) =~= seq![]);
    while i < items.len()
        invariant
            i <= items@.len(),
            all == views(items@),
            views(out@) == producer_list(all.take(i as int), fps, kdenlive),
            fps.wf(),
            forall|k: int| 0 <= k < items@.len() ==> (#[trigger] all[k]).length > 0,
            kdenlive ==> forall|k: int|
                0 <= k < items@.len() ==> Time::frames_fit((#[trigger] all[k]).length, fps),
        decreases items@.len() - i,
    {
        proof {
            assert(all.take(i + 1).drop_last() =~= all.take(i as int));
            assert(all.take(i + 1).last() == items@[i as int]@);
        }
        assert(all[i as int] == items@[i as int]@);
        extend(&mut out, write_producer(&items[i], fps, kdenlive));
        i = i + 1;
    }
    assert(all.take(i as int) =~= all);
    out
}

fn write_bin_entry(p: &Producer) -> (r: Vec<XmlEvent>)
    requires
        p.length > 0,
    ensures
        views(r@) == seq![bin_entry(p@)],
{
    let mut out: Vec<XmlEvent> = Vec::new();
    let last = last_of(p.length);
    push_empty(
        &mut out,
        "entry",
        attrs3("producer", p.id.as_str(), "in", "0", "out", last.as_str()),
    );
    assert(views(out@) =~= seq![bin_entry(p@)]);
    out
}

fn write_bin_list(items: &Vec<Producer>) -> (r: Vec<XmlEvent>)
    requires
        forall|k: int| 0 <= k < items@.len() ==> (#[trigger] views(items@)[k]).length > 0,
    ensures
        views(r@) == bin_list(views(items@)),
{
    let ghost all = views(items@);
    let mut out: Vec<XmlEvent> = Vec::new();
    let mut i: usize = 0;
    assert(all.take(0) =~= seq![]);
    assert(views(out@) =~= seq![]);
    while i < items.len()
        invariant
            i <= items@.len(),
            all == views(items@),
            views(out@) == bin_list(all.take(i as int)),
            forall|k: int| 0 <= k < items@.len() ==> (#[trigger] all[k]).length > 0,
        decreases items@.len() - i,
    {
        proof {
            assert(all.take(i + 1).drop_last() =~= all.take(i as int));
            assert(all.take(i + 1).last() == items@[i as int]@);
        }
        assert(all[i as int] == items@[i as int]@);
        add_given(&mut out, items[i].bin, write_bin_entry(&items[i]));
        i = i + 1;
    }
    assert(all.take(i as int) =~= all);
    out
}

fn push_size(out: &mut String, size: [u32; 2])
    ensures
        final(out)@ == old(out)@ + size_text(size),
{
    out.append(decimal(size[0] as u128).as_str());
    out.append("x");
    out.append(decimal(size[1] as u128).as_str());
    assert(out@ =~= old(out)@ + size_text(size));
}

fn write_bin(d: &Document, project: &Project, uuid: &str) -> (r: Vec<XmlEvent>)
    requires
        d.fps.wf(),
        document_ok(d@),
        uuid@ == document_uuid(d@, *project),
    ensures
        views(r@) == bin_events(d@, *project),
{
    let mut profile = String::new();
    push_size(&mut profile, d.size);
    profile.append(" ");
    profile.append(d.fps.to_text().as_str());
    assert(profile@ =~= size_text(d.size) + " "@ + d.fps.text());
    let mut out = opening("playlist", attrs1("id", "main_bin"));
    add_property(&mut out, "kdenlive:docproperties.decimalPoint", ".");
    add_property(&mut out, "kdenlive:docproperties.version", KDENLIVE_DOC_VERSION);
    add_property(&mut out, "kdenlive:docproperties.kdenliveversion", KDENLIVE_VERSION);
    add_property(&mut out, "kdenlive:docproperties.documentid", project.id.as_str());
    add_property(&mut out, "kdenlive:docproperties.uuid", uuid);
    add_property(&mut out, "kdenlive:docproperties.profile", profile.as_str());
    add_property(&mut out, "kdenlive:docproperties.seekOffset", "30000");
    add_property(&mut out, "kdenlive:folder.-1.1", project.name.as_str());
    add_property(&mut out, "xml_retain", "1");
    extend(&mut out, write_bin_list(&d.producers));
    close(&mut out, "playlist");
    out
}

fn write_black(frames: i64) -> (r: Vec<XmlEvent>)
    requires
        frames > 0,
    ensures
        views(r@) == black_events(frames as int),
{
    let last = last_of(frames);
    let mut out = opening(
        "producer",
        attrs3("id", "black_track", "in", "0", "out", last.as_str()),
    );
    add_property(&mut out, "length", integer(frames).as_str());
    add_property(&mut out, "eof", "continue");
    add_property(&mut out, "resource", "black");
    add_property(&mut out, "aspect_ratio", "1");
    add_property(&mut out, "mlt_service", "color");
    add_property(&mut out, "mlt_image_format", "rgba");
    add_property(&mut out, "set.test_audio", "0");
    close(&mut out, "producer");
    out
}

fn write_item(item: &Item, producers: &Vec<Producer>) -> (r: Vec<XmlEvent>)
    requires
        item_ok(item@, producers@.len()),
    ensures
        views(r@) == item_events(item@, views(producers@)),
{
    match item {
        Item::Blank(frames) => {
            let mut out: Vec<XmlEvent> = Vec::new();
            push_empty(&mut out, "blank", attrs1("length", integer(*frames).as_str()));
            assert(views(out@) =~= item_events(item@, views(producers@)));
            out
        },
        Item::Entry(entry) => {
            let attrs = attrs3(
                "producer",
                producers[entry.producer].id.as_str(),
                "in",
                integer(entry.in_frame).as_str(),
                "out",
                integer(entry.out_frame).as_str(),
            );
            assert(views(producers@)[entry.producer as int] == producers@[entry.producer as int]@);
            assert(views(attrs@) =~= entry_attrs(entry@, views(producers@)));
            if entry.filters.len() == 0 {
                let mut out: Vec<XmlEvent> = Vec::new();
                push_empty(&mut out, "entry", attrs);
                assert(views(out@) =~= item_events(item@, views(producers@)));
                out
            } else {
                let mut out = opening("entry", attrs);
                extend(&mut out, write_filters(&entry.filters));
                close(&mut out, "entry");
                out
            }
        },
    }
}

fn write_items(items: &Vec<Item>, producers: &Vec<Producer>) -> (r: Vec<XmlEvent>)
    requires
        forall|k: int|
            0 <= k < items@.len() ==> item_ok(#[trigger] views(items@)[k], producers@.len()),
    ensures
        views(r@) == item_list(views(items@), views(producers@)),
{
    let ghost all = views(items@);
    let mut out: Vec<XmlEvent> = Vec::new();
    let mut i: usize = 0;
    assert(all.take(0) =~= seq![]);
    assert(views(out@) =~= seq![]);
    while i < items.len()
        invariant
            i <= items@.len(),
            all == views(items@),
            views(out@) == item_list(all.take(i as int), views(producers@)),
            forall|k: int| 0 <= k < items@.len() ==> item_ok(#[trigger] all[k], producers@.len()),
        decreases items@.len() - i,
    {
        proof {
            assert(all.take(i + 1).drop_last() =~= all.take(i as int));
            assert(all.take(i + 1).last() == items@[i as int]@);
        }
        assert(all[i as int] == items@[i as int]@);
        extend(&mut out, write_item(&items[i], producers));
        i = i + 1;
    }
    assert(all.take(i as int) =~= all);
    out
}

fn write_playlist(
    playlist: &PlaylistOut,
    audio: bool,
    producers: &Vec<Producer>,
    kdenlive: bool,
) -> (r: Vec<XmlEvent>)
    requires
        forall|k: int|
            0 <= k < playlist.items@.len() ==> item_ok(
                #[trigger] views(playlist.items@)[k],
                producers@.len(),
            ),
    ensures
        views(r@) == playlist_events(playlist@, audio, views(producers@), kdenlive),
{
    let mut out = opening("playlist", attrs1("id", playlist.id.as_str()));
    add_given(&mut out, kdenlive && audio, one_property("kdenlive:audio_track", "1"));
    extend(&mut out, write_items(&playlist.items, producers));
    close(&mut out, "playlist");
    out
}

fn write_playlists(items: &Vec<PlaylistOut>, audio: bool, producers: &Vec<Producer>, kdenlive: bool) -> (r: Vec<XmlEvent>)
    requires
        forall|k: int, j: int|
            0 <= k < items@.len() && 0 <= j < views(items@)[k].items.len() ==> item_ok(
                #[trigger] views(items@)[k].items[j],
                producers@.len(),
            ),
    ensures
        views(r@) == playlist_list(views(items@), audio, views(producers@), kdenlive),
{
    let ghost all = views(items@);
    let mut out: Vec<XmlEvent> = Vec::new();
    let mut i: usize = 0;
    assert(all.take(0) =~= seq![]);
    assert(views(out@) =~= seq![]);
    while i < items.len()
        invariant
            i <= items@.len(),
            all == views(items@),
            views(out@) == playlist_list(all.take(i as int), audio, views(producers@), kdenlive),
            forall|k: int, j: int|
                0 <= k < items@.len() && 0 <= j < all[k].items.len() ==> item_ok(
                    #[trigger] all[k].items[j],
                    producers@.len(),
                ),
        decreases items@.len() - i,
    {
        proof {
            assert(all.take(i + 1).drop_last() =~= all.take(i as int));
            assert(all.take(i + 1).last() == items@[i as int]@);
        }
        proof {
            assert(all[i as int] == items@[i as int]@);
            assert forall|k: int| 0 <= k < items@[i as int].items@.len() implies item_ok(
                #[trigger] views(items@[i as int].items@)[k],
                producers@.len(),
            ) by {
                assert(item_ok(all[i as int].items[k], producers@.len()));
            }
        }
        extend(&mut out, write_playlist(&items[i], audio, producers, kdenlive));
        i = i + 1;
    }
    assert(all.take(i as int) =~= all);
    out
}

fn write_playlist_references(items: &Vec<PlaylistOut>) -> (r: Vec<XmlEvent>)
    ensures
        views(r@) == playlist_references(views(items@)),
{
    let ghost all = views(items@);
    let mut out: Vec<XmlEvent> = Vec::new();
    let mut i: usize = 0;
    assert(all.take(0) =~= seq![]);
    assert(views(out@) =~= seq![]);
    while i < items.len()
        invariant
            i <= items@.len(),
            all == views(items@),
            views(out@) == playlist_references(all.take(i as int)),
        decreases items@.len() - i,
    {
        proof {
            assert(all.take(i + 1).drop_last() =~= all.take(i as int));
            assert(all.take(i + 1).last() == items@[i as int]@);
        }
        push_empty(&mut out, "track", attrs1("producer", items[i].id.as_str()));
        i = i + 1;
    }
    assert(all.take(i as int) =~= all);
    out
}

fn write_kdenlive_track(track: &TrackOut) -> (r: Vec<XmlEvent>)
    ensures
        views(r@) == kdenlive_track(track@),
{
    let mut out = one_property("kdenlive:track_name", track.name.as_str());
    add_property(&mut out, "kdenlive:trackheight", "70");
    add_property(&mut out, "kdenlive:timeline_active", "1");
    add_property(&mut out, "kdenlive:collapsed", "0");
    add_given(&mut out, track.audio, one_property("kdenlive:audio_track", "1"));
    add_given(&mut out, track.locked, one_property("kdenlive:locked_track", "1"));
    out
}

fn write_track(track: &TrackOut, producers: &Vec<Producer>, frames: i64, kdenlive: bool) -> (r: Vec<
    XmlEvent,
>)
    requires
        track_ok(track@, producers@.len()),
        frames > 0,
    ensures
        views(r@) == track_events(track@, views(producers@), frames as int, kdenlive),
{
    proof {
        assert forall|k: int, j: int|
            0 <= k < track.playlists@.len() && 0 <= j < views(
                track.playlists@,
            )[k].items.len() implies item_ok(
            #[trigger] views(track.playlists@)[k].items[j],
            producers@.len(),
        ) by {
            assert(item_ok(track@.playlists[k].items[j], producers@.len()));
        }
    }
    let mut out = write_playlists(&track.playlists, track.audio, producers, kdenlive);
    match &track.tractor {
        Some(tractor) => {
            let last = last_of(frames);
            let mut inner = opening(
                "tractor",
                attrs3("id", tractor.as_str(), "in", "0", "out", last.as_str()),
            );
            add_given(&mut inner, kdenlive, write_kdenlive_track(track));
            extend(&mut inner, write_playlist_references(&track.playlists));
            extend(&mut inner, write_transitions(&track.transitions));
            extend(&mut inner, write_filters(&track.filters));
            close(&mut inner, "tractor");
            extend(&mut out, inner);
        },
        None => {
            assert(views(out@) =~= views(out@) + Seq::<EventView>::empty());
        },
    }
    out
}

fn write_tracks(items: &Vec<TrackOut>, producers: &Vec<Producer>, frames: i64, kdenlive: bool) -> (r: Vec<XmlEvent>)
    requires
        forall|k: int|
            0 <= k < items@.len() ==> track_ok(#[trigger] views(items@)[k], producers@.len()),
        frames > 0,
    ensures
        views(r@) == track_list(views(items@), views(producers@), frames as int, kdenlive),
{
    let ghost all = views(items@);
    let mut out: Vec<XmlEvent> = Vec::new();
    let mut i: usize = 0;
    assert(all.take(0) =~= seq![]);
    assert(views(out@) =~= seq![]);
    while i < items.len()
        invariant
            i <= items@.len(),
            all == views(items@),
            views(out@) == track_list(all.take(i as int), views(producers@), frames as int, kdenlive),
            forall|k: int| 0 <= k < items@.len() ==> track_ok(#[trigger] all[k], producers@.len()),
            frames > 0,
        decreases items@.len() - i,
    {
        proof {
            assert(all.take(i + 1).drop_last() =~= all.take(i as int));
            assert(all.take(i + 1).last() == items@[i as int]@);
        }
        assert(all[i as int] == items@[i as int]@);
        extend(&mut out, write_track(&items[i], producers, frames, kdenlive));
        i = i + 1;
    }
    assert(all.take(i as int) =~= all);
    out
}

fn write_track_references(items: &Vec<TrackOut>) -> (r: Vec<XmlEvent>)
    ensures
        views(r@) == track_references(views(items@)),
{
    let ghost all = views(items@);
    let mut out: Vec<XmlEvent> = Vec::new();
    let mut i: usize = 0;
    assert(all.take(0) =~= seq![]);
    assert(views(out@) =~= seq![]);
    while i < items.len()
        invariant
            i <= items@.len(),
            all == views(items@),
            views(out@) == track_references(all.take(i as int)),
        decreases items@.len() - i,
    {
        proof {
            assert(all.take(i + 1).drop_last() =~= all.take(i as int));
            assert(all.take(i + 1).last() == items@[i as int]@);
        }
        match items[i].hide {
            Some(hide) => push_empty(
                &mut out,
                "track",
                attrs2("producer", items[i].reference.as_str(), "hide", hide),
            ),
            None => push_empty(&mut out, "track", attrs1("producer", items[i].reference.as_str())),
        }
        i = i + 1;
    }
    assert(all.take(i as int) =~= all);
    out
}

fn combine(track: &TrackOut, slot: usize, compositor: &str) -> (r: TransitionOut)
    ensures
        r@ == combination(track@, slot as int, compositor@),
{
    let mut props: Vec<XmlAttr> = Vec::new();
    push_attr(&mut props, "always_active", "1");
    push_attr(&mut props, "internal_added", "237");
    let service: &str = if track.audio {
        push_attr(&mut props, "sum", "1");
        "mix"
    } else {
        push_attr(&mut props, "disable", "0");
        compositor
    };
    assert(views(props@) =~= combination(track@, slot as int, compositor@).props);
    let mut id = "transition_track".to_owned();
    id.append(decimal(slot as u128).as_str());
    TransitionOut { id, service: service.to_owned(), a_track: 0, b_track: slot, props, range: None }
}

fn write_combinations(items: &Vec<TrackOut>, compositor: &str) -> (r: Vec<XmlEvent>)
    ensures
        views(r@) == combination_list(views(items@), compositor@),
{
    let ghost all = views(items@);
    let mut out: Vec<XmlEvent> = Vec::new();
    let mut i: usize = 0;
    assert(all.take(0) =~= seq![]);
    assert(views(out@) =~= seq![]);
    while i < items.len()
        invariant
            i <= items@.len(),
            all == views(items@),
            views(out@) == combination_list(all.take(i as int), compositor@),
        decreases items@.len() - i,
    {
        proof {
            assert(all.take(i + 1).drop_last() =~= all.take(i as int));
            assert(all.take(i + 1).last() == items@[i as int]@);
        }
        let combined = combine(&items[i], i + 1, compositor);
        extend(&mut out, write_transition(&combined));
        i = i + 1;
    }
    assert(all.take(i as int) =~= all);
    out
}

fn write_kdenlive_sequence(d: &Document, uuid: &str, project: &Project) -> (r: Vec<XmlEvent>)
    requires
        d.fps.wf(),
        Time::frames_fit(d.frames as int, d.fps),
        uuid@ == document_uuid(d@, *project),
    ensures
        views(r@) == kdenlive_sequence(d@, *project),
{
    let frames = integer(d.frames);
    let length = Time::from_frames(d.frames, d.fps);
    let mut out = one_property("kdenlive:uuid", uuid);
    add_property(&mut out, "kdenlive:clipname", d.sequence_name.as_str());
    add_property(&mut out, "kdenlive:duration", length.clock().as_str());
    add_property(&mut out, "kdenlive:maxduration", frames.as_str());
    add_property(&mut out, "kdenlive:sequenceproperties.documentuuid", uuid);
    add_property(
        &mut out,
        "kdenlive:sequenceproperties.tracksCount",
        decimal(d.tracks.len() as u128).as_str(),
    );
    let active: u128 = if d.tracks.len() > 0 {
        1
    } else {
        0
    };
    add_property(&mut out, "kdenlive:sequenceproperties.activeTrack", decimal(active).as_str());
    add_property(&mut out, "kdenlive:sequenceproperties.guides", d.guides.as_str());
    add_property(&mut out, "kdenlive:sequenceproperties.groups", "[]");
    add_property(&mut out, "kdenlive:sequenceproperties.position", "0");
    add_property(&mut out, "kdenlive:sequenceproperties.zonein", "0");
    add_property(&mut out, "kdenlive:sequenceproperties.zoneout", frames.as_str());
    out
}

fn main_tractor_id(d: &Document) -> (r: String)
    ensures
        r@ == main_id(d@),
{
    let mut id = "tractor".to_owned();
    id.append(decimal(d.tracks.len() as u128).as_str());
    id
}

fn write_main(
    d: &Document,
    project: &Project,
    uuid: &str,
    compositor: &str,
    kdenlive: bool,
) -> (r: Vec<XmlEvent>)
    requires
        d.fps.wf(),
        d.frames > 0,
        kdenlive ==> Time::frames_fit(d.frames as int, d.fps),
        uuid@ == document_uuid(d@, *project),
    ensures
        views(r@) == main_events(d@, *project, compositor@, kdenlive),
{
    let mut attrs: Vec<XmlAttr> = Vec::new();
    push_attr(&mut attrs, "id", main_tractor_id(d).as_str());
    push_attr(&mut attrs, "title", d.sequence_name.as_str());
    push_attr(&mut attrs, "global_feed", "1");
    push_attr(&mut attrs, "in", "0");
    push_attr(&mut attrs, "out", last_of(d.frames).as_str());
    assert(views(attrs@) =~= seq![
        attr("id"@, main_id(d@)),
        attr("title"@, d@.sequence_name),
        attr("global_feed"@, "1"@),
        attr("in"@, "0"@),
        attr("out"@, last_frame(d@.frames)),
    ]);
    let mut out = opening("tractor", attrs);
    if kdenlive {
        extend(&mut out, write_kdenlive_sequence(d, uuid, project));
    } else {
        assert(views(out@) =~= views(out@) + given(kdenlive, kdenlive_sequence(d@, *project)));
    }
    let mut ground: Vec<XmlEvent> = Vec::new();
    push_empty(&mut ground, "track", attrs1("producer", "black_track"));
    assert(views(ground@) =~= seq![empty("track"@, seq![attr("producer"@, "black_track"@)])]);
    extend(&mut out, ground);
    extend(&mut out, write_track_references(&d.tracks));
    extend(&mut out, write_combinations(&d.tracks, compositor));
    close(&mut out, "tractor");
    out
}

/// Reduced display aspect, as two integers.
pub fn display_aspect(size: [u32; 2]) -> (r: (i64, i64))
    ensures
        r.0 == display_aspect_of(size).0,
        r.1 == display_aspect_of(size).1,
{
    let width: i64 = if size[0] > 1 {
        size[0] as i64
    } else {
        1
    };
    let height: i64 = if size[1] > 1 {
        size[1] as i64
    } else {
        1
    };
    crate::rational::reduce(width, height)
}

fn write_head(d: &Document, project: &Project, root: &str) -> (r: Vec<XmlEvent>)
    ensures
        views(r@) == seq![
            EventView::Decl { encoding: "utf-8"@ },
            start(
                "mlt"@,
                seq![
                    attr("LC_NUMERIC"@, "C"@),
                    attr("version"@, MLT_VERSION@),
                    attr("title"@, project.name@),
                    attr("root"@, root@),
                    attr("producer"@, main_id(d@)),
                ],
            ),
            profile_event(d@),
        ],
{
    let mut out: Vec<XmlEvent> = Vec::new();
    push_event(&mut out, XmlEvent::Decl { encoding: "utf-8".to_owned() });
    let mut attrs: Vec<XmlAttr> = Vec::new();
    push_attr(&mut attrs, "LC_NUMERIC", "C");
    push_attr(&mut attrs, "version", MLT_VERSION);
    push_attr(&mut attrs, "title", project.name.as_str());
    push_attr(&mut attrs, "root", root);
    push_attr(&mut attrs, "producer", main_tractor_id(d).as_str());
    let ghost mlt_attrs = seq![
        attr("LC_NUMERIC"@, "C"@),
        attr("version"@, MLT_VERSION@),
        attr("title"@, project.name@),
        attr("root"@, root@),
        attr("producer"@, main_id(d@)),
    ];
    assert(views(attrs@) =~= mlt_attrs);
    push_start(&mut out, "mlt", attrs);
    let (across, down) = display_aspect(d.size);
    let mut profile: Vec<XmlAttr> = Vec::new();
    let mut description = "dvs ".to_owned();
    push_size(&mut description, d.size);
    push_attr(&mut profile, "description", description.as_str());
    push_attr(&mut profile, "width", decimal(d.size[0] as u128).as_str());
    push_attr(&mut profile, "height", decimal(d.size[1] as u128).as_str());
    push_attr(&mut profile, "progressive", "1");
    push_attr(&mut profile, "sample_aspect_num", "1");
    push_attr(&mut profile, "sample_aspect_den", "1");
    push_attr(&mut profile, "display_aspect_num", integer(across).as_str());
    push_attr(&mut profile, "display_aspect_den", integer(down).as_str());
    push_attr(&mut profile, "frame_rate_num", integer(d.fps.rate.num).as_str());
    push_attr(&mut profile, "frame_rate_den", integer(d.fps.rate.den).as_str());
    push_attr(&mut profile, "colorspace", "709");
    proof {
        assert(description@ =~= "dvs "@ + size_text(d.size));
        assert(views(profile@) =~= profile_event(d@)->Empty_attrs);
    }
    push_empty(&mut out, "profile", profile);
    assert(views(out@) =~= seq![
        EventView::Decl { encoding: "utf-8"@ },
        start("mlt"@, mlt_attrs),
        profile_event(d@),
    ]);
    out
}

impl Document {
    /// The events of the document.
    pub fn events(&self, project: &Project, root: &str, compositor: &str, kdenlive: bool) -> (r: Vec<
        XmlEvent,
    >)
        requires
            self.fps.wf(),
            document_ok(self@),
            kdenlive ==> clocks_fit(self@),
        ensures
            views(r@) == document_events(self@, *project, root@, compositor@, kdenlive),
    {
        let mut seed = project.id.clone();
        seed.append(":");
        seed.append(self.sequence_name.as_str());
        let uuid = uuid_from(seed.as_str());
        let mut out = write_head(self, project, root);
        extend(&mut out, write_producers(&self.producers, self.fps, kdenlive));
        add_given(&mut out, kdenlive, write_bin(self, project, uuid.as_str()));
        extend(&mut out, write_black(self.frames));
        extend(&mut out, write_tracks(&self.tracks, &self.producers, self.frames, kdenlive));
        extend(&mut out, write_main(self, project, uuid.as_str(), compositor, kdenlive));
        close(&mut out, "mlt");
        out
    }

    /// The text of the document.
    pub fn write(&self, project: &Project, root: &str, compositor: &str, kdenlive: bool) -> (r: String)
        requires
            self.fps.wf(),
            document_ok(self@),
            kdenlive ==> clocks_fit(self@),
        ensures
            r@ == xml_text(document_events(self@, *project, root@, compositor@, kdenlive)).push('\n'),
    {
        let mut text = render(&self.events(project, root, compositor, kdenlive));
        push_char(&mut text, '\n');
        text
    }
}

/// Writes the sequence as MLT XML; `kdenlive` adds the document properties that turn the
/// same XML into a project file Kdenlive opens. `root` is the project's directory, and
/// `compositor` names the transition that blends one track over another.
pub fn export(project: &Project, sequence: &str, root: &str, compositor: &str, kdenlive: bool) -> (r:
    Result<Export, Error>)
    requires
        project.sequence_at(sequence@) >= 0 ==> {
            let s = project.sequences@[project.sequence_at(sequence@)];
            &&& document_fits(*project, s)
            &&& kdenlive ==> clocks_fit(document_of(*project, s, kdenlive))
        },
    ensures
        r is Err <==> document_error(*project, sequence@) is Some,
        r is Err ==> Some(r->Err_0@) == document_error(*project, sequence@),
        r is Ok ==> {
            let d = document_of(
                *project,
                project.sequences@[project.sequence_at(sequence@)],
                kdenlive,
            );
            &&& r->Ok_0.text@ == xml_text(
                document_events(d, *project, root@, compositor@, kdenlive),
            ).push('\n')
            &&& views(r->Ok_0.warnings@) == d.warnings
            &&& document_ok(d)
        },
{
    match Document::build(project, sequence, kdenlive) {
        Ok(document) => {
            let text = document.write(project, root, compositor, kdenlive);
            Ok(Export { text, warnings: document.warnings })
        },
        Err(error) => Err(error),
    }
}

} // verus!
