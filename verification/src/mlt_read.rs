//! A timeline read out of an MLT document: profile, producers, playlists, entries and
//! blanks. Everything else in the document is passed over, known or not.

use crate::error::{Error, ErrorView};
use crate::float_text::{float_value, is_float, read_float, Float};
use crate::mlt_document::document_of;
use crate::mlt_round::{comes_back, is_exported, lemma_exported};
use crate::project::{Project, Sequence};
use crate::rational::Rat;
use crate::text::{
    chars_of, contains_char, decimal, find, find_from, has_char, parse_i64, parse_number, same,
    slice_of, string_of, trim, trimmed,
};
use crate::text::dec;
use crate::time::{Fps, Time};
use crate::time_text::time_of;
use crate::timeline::larger;
use crate::views::{push_view, views};
use crate::xml::{
    attribute, children_before, children_of, parse, root_at, text_view, xml_nodes, NodeView,
    XmlNode,
};
use vstd::prelude::*;

verus! {

/// A timeline read back out of an MLT document.
#[derive(Clone, Debug)]
pub struct ImportedTimeline {
    pub fps: Fps,
    pub size: [u32; 2],
    pub tracks: Vec<ImportedTrack>,
}

#[derive(Clone, Debug)]
pub struct ImportedTrack {
    pub name: String,
    pub audio: bool,
    pub clips: Vec<ImportedClip>,
}

#[derive(Clone, Debug)]
pub struct ImportedClip {
    /// The producer's resource, with any speed in front of it removed.
    pub resource: String,
    /// The clip's name, when the document carries one.
    pub name: Option<String>,
    /// The producer's service as it is written, known or not.
    pub service: String,
    pub speed: Float,
    pub start: Time,
    pub duration: Time,
    pub source_in: Time,
    pub start_frames: i64,
    pub frames: i64,
    pub source_in_frames: i64,
}

pub struct TimelineView {
    pub fps: Fps,
    pub size: [u32; 2],
    pub tracks: Seq<ImportedTrackView>,
}

pub struct ImportedTrackView {
    pub name: Seq<char>,
    pub audio: bool,
    pub clips: Seq<ImportedClipView>,
}

pub struct ImportedClipView {
    pub resource: Seq<char>,
    pub name: Option<Seq<char>>,
    pub service: Seq<char>,
    pub speed: Float,
    pub start: Time,
    pub duration: Time,
    pub source_in: Time,
    pub start_frames: int,
    pub frames: int,
    pub source_in_frames: int,
}

impl View for ImportedTimeline {
    type V = TimelineView;

    open spec fn view(&self) -> TimelineView {
        TimelineView { fps: self.fps, size: self.size, tracks: views(self.tracks@) }
    }
}

impl View for ImportedTrack {
    type V = ImportedTrackView;

    open spec fn view(&self) -> ImportedTrackView {
        ImportedTrackView { name: self.name@, audio: self.audio, clips: views(self.clips@) }
    }
}

impl View for ImportedClip {
    type V = ImportedClipView;

    open spec fn view(&self) -> ImportedClipView {
        ImportedClipView {
            resource: self.resource@,
            name: text_view(self.name),
            service: self.service@,
            speed: self.speed,
            start: self.start,
            duration: self.duration,
            source_in: self.source_in,
            start_frames: self.start_frames as int,
            frames: self.frames as int,
            source_in_frames: self.source_in_frames as int,
        }
    }
}

// ---------------------------------------------------------------------------
// Looking into a document
// ---------------------------------------------------------------------------

/// The first node with an identifier, or -1.
pub open spec fn by_id(nodes: Seq<NodeView>, id: Seq<char>) -> int
    decreases nodes.len(),
{
    if nodes.len() == 0 {
        -1
    } else {
        let before = by_id(nodes.drop_last(), id);
        if before >= 0 {
            before
        } else if attribute(nodes.last().attrs, "id"@) == Some(id) {
            nodes.len() - 1
        } else {
            -1
        }
    }
}

/// The first property of that name among some nodes, or -1.
pub open spec fn property_at(nodes: Seq<NodeView>, kids: Seq<int>, name: Seq<char>) -> int
    decreases kids.len(),
{
    if kids.len() == 0 {
        -1
    } else if nodes[kids[0]].is("property"@) && attribute(nodes[kids[0]].attrs, "name"@) == Some(
        name,
    ) {
        kids[0]
    } else {
        property_at(nodes, kids.skip(1), name)
    }
}

/// The text of an element's property.
pub open spec fn property_of(nodes: Seq<NodeView>, owner: int, name: Seq<char>) -> Option<Seq<char>> {
    let at = property_at(nodes, children_of(nodes, owner), name);
    if at >= 0 {
        nodes[at].text
    } else {
        None
    }
}

/// A position: a number of frames, or a time of day where it has a colon or a point.
pub open spec fn frames_value(text: Seq<char>, fps: Fps) -> Option<int> {
    let s = trim(text);
    if has_char(s, ':') || has_char(s, '.') {
        match time_of(s) {
            Some(time) => Some(time.round_frame(fps)),
            None => None,
        }
    } else {
        match parse_i64(s) {
            Some(frames) => Some(frames as int),
            None => None,
        }
    }
}

/// A position given as an attribute.
pub open spec fn position(node: NodeView, key: Seq<char>, fps: Fps) -> Option<int> {
    match attribute(node.attrs, key) {
        Some(text) => frames_value(text, fps),
        None => None,
    }
}

/// A whole number given as an attribute.
pub open spec fn number_attr(node: NodeView, key: Seq<char>) -> Option<int> {
    match attribute(node.attrs, key) {
        Some(text) => match parse_i64(trim(text)) {
            Some(n) => Some(n as int),
            None => None,
        },
        None => None,
    }
}

/// A retiming producer states its speed in front of the path: `2:/clips/a.mp4`. Everything
/// else uses the resource as written.
pub open spec fn warp_of(service: Seq<char>, resource: Seq<char>) -> (Float, Seq<char>) {
    let at = find(resource, ':');
    if service == "timewarp"@ && at < resource.len() && is_float(resource.take(at)) {
        (float_value(resource.take(at)), resource.skip(at + 1))
    } else {
        (Float::Finite(Rat { num: 1, den: 1 }), resource)
    }
}

/// Positions as numbers.
pub open spec fn positions(list: Seq<usize>) -> Seq<int> {
    list.map_values(|k: usize| k as int)
}

fn element_children(nodes: &Vec<XmlNode>, parent: usize) -> (r: Vec<usize>)
    ensures
        positions(r@) == children_of(views(nodes@), parent as int),
        forall|k: int| 0 <= k < r@.len() ==> (#[trigger] r@[k]) < nodes@.len(),
{
    let ghost all = views(nodes@);
    let mut out: Vec<usize> = Vec::new();
    let mut i: usize = 0;
    assert(positions(out@) =~= seq![]);
    while i < nodes.len()
        invariant
            i <= nodes@.len(),
            all == views(nodes@),
            positions(out@) == children_before(all, parent as int, i as int),
            forall|k: int| 0 <= k < out@.len() ==> (#[trigger] out@[k]) < nodes@.len(),
        decreases nodes@.len() - i,
    {
        assert(all[i as int] == nodes@[i as int]@);
        if nodes[i].parent == Some(parent) && nodes[i].element {
            let ghost before = out@;
            out.push(i);
            assert(positions(out@) =~= positions(before).push(i as int));
        }
        i = i + 1;
    }
    out
}

fn find_id(nodes: &Vec<XmlNode>, id: &str) -> (r: Option<usize>)
    ensures
        r is Some <==> by_id(views(nodes@), id@) >= 0,
        r is Some ==> r->0 == by_id(views(nodes@), id@) && r->0 < nodes@.len(),
{
    let ghost all = views(nodes@);
    let mut i: usize = 0;
    assert(all.take(0) =~= seq![]);
    while i < nodes.len()
        invariant
            i <= nodes@.len(),
            all == views(nodes@),
            by_id(all.take(i as int), id@) == -1,
        decreases nodes@.len() - i,
    {
        proof {
            assert(all.take(i + 1).drop_last() =~= all.take(i as int));
            assert(all.take(i + 1).last() == nodes@[i as int]@);
        }
        if let Some(value) = nodes[i].attribute("id") {
            if same(value.as_str(), id) {
                proof {
                    lemma_by_id_early(all, id@, i + 1);
                }
                return Some(i);
            }
        }
        i = i + 1;
    }
    assert(all.take(i as int) =~= all);
    None
}

proof fn lemma_by_id_early(nodes: Seq<NodeView>, id: Seq<char>, n: int)
    requires
        0 <= n <= nodes.len(),
        by_id(nodes.take(n), id) >= 0,
    ensures
        by_id(nodes, id) == by_id(nodes.take(n), id),
    decreases nodes.len(),
{
    if n == nodes.len() {
        assert(nodes.take(n) =~= nodes);
    } else {
        assert(nodes.drop_last().take(n) =~= nodes.take(n));
        lemma_by_id_early(nodes.drop_last(), id, n);
    }
}

fn property<'a>(nodes: &'a Vec<XmlNode>, owner: usize, name: &str) -> (r: Option<&'a String>)
    ensures
        (match r {
            Some(text) => property_of(views(nodes@), owner as int, name@) == Some(text@),
            None => property_of(views(nodes@), owner as int, name@) is None,
        }),
{
    let ghost all = views(nodes@);
    let kids = element_children(nodes, owner);
    let ghost list = positions(kids@);
    let mut i: usize = 0;
    assert(list.skip(0) =~= list);
    while i < kids.len()
        invariant
            i <= kids@.len(),
            all == views(nodes@),
            list == positions(kids@),
            list == children_of(all, owner as int),
            forall|k: int| 0 <= k < kids@.len() ==> (#[trigger] kids@[k]) < nodes@.len(),
            property_at(all, list.skip(i as int), name@) == property_at(all, list, name@),
        decreases kids@.len() - i,
    {
        let k: usize = kids[i];
        proof {
            assert(list.skip(i as int)[0] == k);
            assert(list.skip(i as int).skip(1) =~= list.skip(i + 1));
            assert(all[k as int] == nodes@[k as int]@);
        }
        if nodes[k].is_named("property") {
            if let Some(value) = nodes[k].attribute("name") {
                if same(value.as_str(), name) {
                    return match &nodes[k].text {
                        Some(text) => Some(text),
                        None => None,
                    };
                }
            }
        }
        i = i + 1;
    }
    assert(list.skip(i as int) =~= seq![]);
    None
}

/// Whether a property has a value.
fn property_is(nodes: &Vec<XmlNode>, owner: usize, name: &str, value: &str) -> (r: bool)
    ensures
        r == (property_of(views(nodes@), owner as int, name@) == Some(value@)),
{
    match property(nodes, owner, name) {
        Some(text) => same(text.as_str(), value),
        None => false,
    }
}

/// A position, which may be larger than a frame number can be.
fn frames_of(text: &str, fps: Fps) -> (r: Option<i128>)
    requires
        fps.wf(),
    ensures
        (match r {
            Some(n) => frames_value(text@, fps) == Some(n as int),
            None => frames_value(text@, fps) is None,
        }),
{
    let chars = trimmed(&chars_of(text));
    if contains_char(&chars, ':') || contains_char(&chars, '.') {
        let inner = string_of(&chars);
        match Time::read(inner.as_str()) {
            Some(time) => Some(time.wide_frame_round(fps)),
            None => None,
        }
    } else {
        match parse_number(&chars) {
            Some(n) => Some(n as i128),
            None => None,
        }
    }
}

fn position_of(node: &XmlNode, key: &str, fps: Fps) -> (r: Option<i128>)
    requires
        fps.wf(),
    ensures
        (match r {
            Some(n) => position(node@, key@, fps) == Some(n as int),
            None => position(node@, key@, fps) is None,
        }),
{
    match node.attribute(key) {
        Some(text) => frames_of(text.as_str(), fps),
        None => None,
    }
}

fn attr_i64(node: &XmlNode, key: &str) -> (r: Option<i64>)
    ensures
        (match r {
            Some(n) => number_attr(node@, key@) == Some(n as int),
            None => number_attr(node@, key@) is None,
        }),
{
    match node.attribute(key) {
        Some(text) => parse_number(&trimmed(&chars_of(text.as_str()))),
        None => None,
    }
}

fn split_warp(service: &str, resource: &str) -> (r: (Float, String))
    ensures
        r.0 == warp_of(service@, resource@).0,
        r.1@ == warp_of(service@, resource@).1,
        r.0 matches Float::Finite(v) ==> v.wf(),
{
    if same(service, "timewarp") {
        let chars = chars_of(resource);
        let n: usize = chars.len();
        assert(chars@.skip(0) =~= chars@);
        let at: usize = find_from(&chars, 0, ':');
        if at < n {
            let front = slice_of(&chars, 0, at);
            assert(front@ =~= resource@.take(at as int));
            let speed = string_of(&front);
            if let Some(value) = read_float(speed.as_str()) {
                let rest = slice_of(&chars, at + 1, n);
                assert(rest@ =~= resource@.skip(at + 1));
                return (value, string_of(&rest));
            }
        }
    }
    (Float::Finite(Rat::one()), resource.to_owned())
}

// ---------------------------------------------------------------------------
// Playlists
// ---------------------------------------------------------------------------

/// What a playlist holds up to some point: how many frames, and which clips.
pub struct Reading {
    pub cursor: int,
    pub clips: Seq<ImportedClipView>,
}

pub open spec fn unknown_producer(reference: Seq<char>) -> ErrorView {
    ErrorView::Op(
        "playlist entry references producer '"@ + reference
            + "', which the document does not define"@,
    )
}

pub open spec fn out_of_range() -> ErrorView {
    ErrorView::Op("a position in the document is out of range"@)
}

/// The frame an entry starts on in its producer.
pub open spec fn entry_in(entry: NodeView, fps: Fps) -> int {
    match position(entry, "in"@, fps) {
        Some(frame) => frame,
        None => 0,
    }
}

/// The last frame an entry shows: as stated, or the producer's last.
pub open spec fn entry_out(nodes: Seq<NodeView>, entry: NodeView, producer: int, fps: Fps) -> int {
    match position(entry, "out"@, fps) {
        Some(frame) => frame,
        None => match property_of(nodes, producer, "length"@) {
            Some(text) => match frames_value(text, fps) {
                Some(length) => length - 1,
                None => entry_in(entry, fps),
            },
            None => entry_in(entry, fps),
        },
    }
}

/// How many frames an entry shows. Its out-point is included, and it shows at least one.
pub open spec fn entry_length(nodes: Seq<NodeView>, entry: NodeView, producer: int, fps: Fps) -> int {
    larger(entry_out(nodes, entry, producer, fps) - entry_in(entry, fps) + 1, 1)
}

pub open spec fn text_or(text: Option<Seq<char>>, other: Seq<char>) -> Seq<char> {
    match text {
        Some(t) => t,
        None => other,
    }
}

/// The clip that an entry is.
pub open spec fn entry_clip(
    nodes: Seq<NodeView>,
    entry: NodeView,
    producer: int,
    cursor: int,
    fps: Fps,
) -> ImportedClipView {
    let service = text_or(property_of(nodes, producer, "mlt_service"@), "unknown"@);
    let raw = text_or(property_of(nodes, producer, "resource"@), seq![]);
    let frames = entry_length(nodes, entry, producer, fps);
    ImportedClipView {
        resource: warp_of(service, raw).1,
        name: property_of(nodes, producer, "kdenlive:clipname"@),
        service,
        speed: warp_of(service, raw).0,
        start: Time::of_frames(cursor, fps),
        duration: Time::of_frames(frames, fps),
        source_in: Time::of_frames(entry_in(entry, fps), fps),
        start_frames: cursor,
        frames,
        source_in_frames: entry_in(entry, fps),
    }
}

/// Whether a number is a frame number with an instant.
pub open spec fn frame_ok(frame: int, fps: Fps) -> bool {
    i64::MIN <= frame <= i64::MAX && Time::frames_fit(frame, fps)
}

/// A playlist with one more of its elements read.
pub open spec fn after_child(
    st: Reading,
    nodes: Seq<NodeView>,
    child: NodeView,
    fps: Fps,
) -> Result<Reading, ErrorView> {
    if child.name == "blank"@ {
        let frames = match position(child, "length"@, fps) {
            Some(frames) => frames,
            None => 0,
        };
        if i64::MIN <= st.cursor + frames <= i64::MAX {
            Ok(Reading { cursor: st.cursor + frames, ..st })
        } else {
            Err(out_of_range())
        }
    } else if child.name == "entry"@ {
        match attribute(child.attrs, "producer"@) {
            None => Ok(st),
            Some(reference) => {
                let producer = by_id(nodes, reference);
                let frames = entry_length(nodes, child, producer, fps);
                if producer < 0 {
                    Err(unknown_producer(reference))
                } else if !frame_ok(st.cursor, fps) || !frame_ok(frames, fps) || !frame_ok(
                    entry_in(child, fps),
                    fps,
                ) || st.cursor + frames > i64::MAX {
                    Err(out_of_range())
                } else {
                    Ok(
                        Reading {
                            cursor: st.cursor + frames,
                            clips: st.clips.push(
                                entry_clip(nodes, child, producer, st.cursor, fps),
                            ),
                        },
                    )
                }
            },
        }
    } else {
        Ok(st)
    }
}

/// A playlist with some of its elements read.
pub open spec fn after_children(
    clips: Seq<ImportedClipView>,
    nodes: Seq<NodeView>,
    kids: Seq<int>,
    fps: Fps,
) -> Result<Reading, ErrorView>
    decreases kids.len(),
{
    if kids.len() == 0 {
        Ok(Reading { cursor: 0, clips })
    } else {
        match after_children(clips, nodes, kids.drop_last(), fps) {
            Err(error) => Err(error),
            Ok(st) => after_child(st, nodes, nodes[kids.last()], fps),
        }
    }
}

/// The clips with those of some playlists behind them.
pub open spec fn playlists_read(nodes: Seq<NodeView>, playlists: Seq<int>, fps: Fps) -> Result<
    Seq<ImportedClipView>,
    ErrorView,
>
    decreases playlists.len(),
{
    if playlists.len() == 0 {
        Ok(seq![])
    } else {
        match playlists_read(nodes, playlists.drop_last(), fps) {
            Err(error) => Err(error),
            Ok(clips) => match after_children(
                clips,
                nodes,
                children_of(nodes, playlists.last()),
                fps,
            ) {
                Err(error) => Err(error),
                Ok(st) => Ok(st.clips),
            },
        }
    }
}

fn range_error() -> (r: Error)
    ensures
        r@ == out_of_range(),
{
    Error::Op("a position in the document is out of range".to_owned())
}

fn copy_text(text: Option<&String>) -> (r: Option<String>)
    ensures
        (match text {
            Some(t) => r is Some && r->0@ == t@,
            None => r is None,
        }),
{
    match text {
        Some(t) => Some(t.clone()),
        None => None,
    }
}

fn instant(frame: i128, fps: Fps) -> (r: Option<(i64, Time)>)
    requires
        fps.wf(),
    ensures
        r is Some <==> frame_ok(frame as int, fps),
        r matches Some((number, time)) ==> number == frame && time == Time::of_frames(
            frame as int,
            fps,
        ),
{
    if frame < i64::MIN as i128 || frame > i64::MAX as i128 {
        return None;
    }
    match Time::checked_from_frames(frame as i64, fps) {
        Some(time) => Some((frame as i64, time)),
        None => None,
    }
}

/// The frames of an entry: its in-point and its length.
fn measure(nodes: &Vec<XmlNode>, entry: &XmlNode, producer: usize, fps: Fps) -> (r: Option<
    (i128, i128),
>)
    requires
        fps.wf(),
    ensures
        (match r {
            Some((from, frames)) => {
                &&& from == entry_in(entry@, fps)
                &&& frames == entry_length(views(nodes@), entry@, producer as int, fps)
            },
            None => {
                ||| !frame_ok(entry_in(entry@, fps), fps)
                ||| !frame_ok(entry_length(views(nodes@), entry@, producer as int, fps), fps)
            },
        }),
{
    let from: i128 = match position_of(entry, "in", fps) {
        Some(frame) => frame,
        None => 0,
    };
    let last: i128 = match position_of(entry, "out", fps) {
        Some(frame) => frame,
        None => match property(nodes, producer, "length") {
            Some(text) => match frames_of(text.as_str(), fps) {
                Some(length) => {
                    if length == i128::MIN {
                        if from < i64::MIN as i128 || from > i64::MAX as i128 {
                            return None;
                        }
                        length
                    } else {
                        length - 1
                    }
                },
                None => from,
            },
            None => from,
        },
    };
    if from < i64::MIN as i128 || from > i64::MAX as i128 {
        return None;
    }
    if last < -0x4000_0000_0000_0000_0000_0000_0000_0000 {
        return Some((from, 1));
    }
    if last > 0x4000_0000_0000_0000_0000_0000_0000_0000 {
        return None;
    }
    let frames: i128 = last - from + 1;
    if frames < 1 {
        Some((from, 1))
    } else {
        Some((from, frames))
    }
}

fn read_entry(
    nodes: &Vec<XmlNode>,
    entry: &XmlNode,
    producer: usize,
    cursor: i64,
    fps: Fps,
) -> (r: Option<ImportedClip>)
    requires
        fps.wf(),
    ensures
        r is Some <==> frame_ok(cursor as int, fps) && frame_ok(
            entry_length(views(nodes@), entry@, producer as int, fps),
            fps,
        ) && frame_ok(entry_in(entry@, fps), fps),
        r is Some ==> r->0@ == entry_clip(
            views(nodes@),
            entry@,
            producer as int,
            cursor as int,
            fps,
        ),
{
    let (from, frames) = match measure(nodes, entry, producer, fps) {
        Some(found) => found,
        None => {
            return None;
        },
    };
    let (start_frames, start) = match instant(cursor as i128, fps) {
        Some(found) => found,
        None => {
            return None;
        },
    };
    let (frames, duration) = match instant(frames, fps) {
        Some(found) => found,
        None => {
            return None;
        },
    };
    let (source_in_frames, source_in) = match instant(from, fps) {
        Some(found) => found,
        None => {
            return None;
        },
    };
    let service: &str = match property(nodes, producer, "mlt_service") {
        Some(text) => text.as_str(),
        None => "unknown",
    };
    let raw: &str = match property(nodes, producer, "resource") {
        Some(text) => text.as_str(),
        None => "",
    };
    proof {
        reveal_strlit("");
        assert(raw@ =~= text_or(
            property_of(views(nodes@), producer as int, "resource"@),
            seq![],
        ));
    }
    let (speed, resource) = split_warp(service, raw);
    Some(
        ImportedClip {
            resource,
            name: copy_text(property(nodes, producer, "kdenlive:clipname")),
            service: service.to_owned(),
            speed,
            start,
            duration,
            source_in,
            start_frames,
            frames,
            source_in_frames,
        },
    )
}

fn read_playlist(nodes: &Vec<XmlNode>, playlist: usize, fps: Fps, clips: &mut Vec<ImportedClip>) -> (r:
    Result<(), Error>)
    requires
        fps.wf(),
    ensures
        (match r {
            Ok(()) => {
                &&& after_children(
                    views(old(clips)@),
                    views(nodes@),
                    children_of(views(nodes@), playlist as int),
                    fps,
                ) is Ok
                &&& views(final(clips)@) == after_children(
                    views(old(clips)@),
                    views(nodes@),
                    children_of(views(nodes@), playlist as int),
                    fps,
                )->Ok_0.clips
            },
            Err(error) => after_children(
                views(old(clips)@),
                views(nodes@),
                children_of(views(nodes@), playlist as int),
                fps,
            ) == Err::<Reading, ErrorView>(error@),
        }),
{
    let ghost all = views(nodes@);
    let ghost before = views(clips@);
    let kids = element_children(nodes, playlist);
    let ghost list = positions(kids@);
    let mut cursor: i64 = 0;
    let mut i: usize = 0;
    assert(list.take(0) =~= seq![]);
    while i < kids.len()
        invariant
            i <= kids@.len(),
            fps.wf(),
            all == views(nodes@),
            list == positions(kids@),
            list == children_of(all, playlist as int),
            forall|k: int| 0 <= k < kids@.len() ==> (#[trigger] kids@[k]) < nodes@.len(),
            before == views(old(clips)@),
            after_children(before, all, list.take(i as int), fps) == Ok::<Reading, ErrorView>(
                Reading { cursor: cursor as int, clips: views(clips@) },
            ),
        decreases kids@.len() - i,
    {
        let k: usize = kids[i];
        proof {
            assert(list.take(i + 1).drop_last() =~= list.take(i as int));
            assert(list.take(i + 1).last() == k);
            assert(all[k as int] == nodes@[k as int]@);
        }
        let child = &nodes[k];
        if same(child.name.as_str(), "blank") {
            let frames: i128 = match position_of(child, "length", fps) {
                Some(frames) => frames,
                None => 0,
            };
            let big: i128 = 0x4000_0000_0000_0000_0000_0000_0000_0000;
            if frames < -big || frames > big || cursor as i128 + frames < i64::MIN as i128
                || cursor as i128 + frames > i64::MAX as i128 {
                proof {
                    lemma_after_children_fails(before, all, list, fps, i + 1);
                }
                return Err(range_error());
            }
            cursor = (cursor as i128 + frames) as i64;
        } else if same(child.name.as_str(), "entry") {
            if let Some(reference) = child.attribute("producer") {
                let producer: usize = match find_id(nodes, reference.as_str()) {
                    Some(at) => at,
                    None => {
                        proof {
                            lemma_after_children_fails(before, all, list, fps, i + 1);
                        }
                        let mut detail = "playlist entry references producer '".to_owned();
                        detail.append(reference.as_str());
                        detail.append("', which the document does not define");
                        return Err(Error::Op(detail));
                    },
                };
                let clip = match read_entry(nodes, child, producer, cursor, fps) {
                    Some(clip) => clip,
                    None => {
                        proof {
                            lemma_after_children_fails(before, all, list, fps, i + 1);
                        }
                        return Err(range_error());
                    },
                };
                if cursor > 0 && clip.frames > i64::MAX - cursor {
                    proof {
                        lemma_after_children_fails(before, all, list, fps, i + 1);
                    }
                    return Err(range_error());
                }
                cursor = cursor + clip.frames;
                push_view(clips, clip);
            }
        }
        i = i + 1;
    }
    assert(list.take(i as int) =~= list);
    Ok(())
}

proof fn lemma_after_children_fails(
    clips: Seq<ImportedClipView>,
    nodes: Seq<NodeView>,
    kids: Seq<int>,
    fps: Fps,
    n: int,
)
    requires
        0 <= n <= kids.len(),
        after_children(clips, nodes, kids.take(n), fps) is Err,
    ensures
        after_children(clips, nodes, kids, fps) == after_children(clips, nodes, kids.take(n), fps),
    decreases kids.len(),
{
    if n == kids.len() {
        assert(kids.take(n) =~= kids);
    } else {
        assert(kids.drop_last().take(n) =~= kids.take(n));
        lemma_after_children_fails(clips, nodes, kids.drop_last(), fps, n);
    }
}

// ---------------------------------------------------------------------------
// Order
// ---------------------------------------------------------------------------

/// Where a clip that starts at `start` goes among clips in order: behind those that start
/// no later.
pub open spec fn slot(clips: Seq<ImportedClipView>, start: int) -> int
    decreases clips.len(),
{
    if clips.len() == 0 || clips.last().start_frames <= start {
        clips.len() as int
    } else {
        slot(clips.drop_last(), start)
    }
}

/// The clips in the order in which they start; those that start together stay as they were.
pub open spec fn by_start(clips: Seq<ImportedClipView>) -> Seq<ImportedClipView>
    decreases clips.len(),
{
    if clips.len() == 0 {
        seq![]
    } else {
        let before = by_start(clips.drop_last());
        before.insert(slot(before, clips.last().start_frames), clips.last())
    }
}

pub open spec fn in_order(clips: Seq<ImportedClipView>) -> bool {
    forall|i: int, j: int|
        0 <= i <= j < clips.len() ==> (#[trigger] clips[i]).start_frames <= (
        #[trigger] clips[j]).start_frames
}

proof fn lemma_slot(clips: Seq<ImportedClipView>, start: int)
    requires
        in_order(clips),
    ensures
        0 <= slot(clips, start) <= clips.len(),
        forall|i: int| 0 <= i < slot(clips, start) ==> (#[trigger] clips[i]).start_frames <= start,
        forall|i: int|
            slot(clips, start) <= i < clips.len() ==> (#[trigger] clips[i]).start_frames > start,
    decreases clips.len(),
{
    if clips.len() > 0 && clips.last().start_frames > start {
        let rest = clips.drop_last();
        assert forall|i: int, j: int| 0 <= i <= j < rest.len() implies (
        #[trigger] rest[i]).start_frames <= (#[trigger] rest[j]).start_frames by {
            assert(rest[i] == clips[i] && rest[j] == clips[j]);
        }
        lemma_slot(rest, start);
        assert forall|i: int| 0 <= i < slot(clips, start) implies (
        #[trigger] clips[i]).start_frames <= start by {
            assert(rest[i] == clips[i]);
        }
        assert forall|i: int| slot(clips, start) <= i < clips.len() implies (
        #[trigger] clips[i]).start_frames > start by {
            if i < rest.len() {
                assert(rest[i] == clips[i]);
            }
        }
    } else if clips.len() > 0 {
        assert(clips.last() == clips[clips.len() - 1]);
    }
}

/// Ordering the clips of a track loses none, adds none, and leaves them in order.
pub proof fn law_ordering_keeps_every_clip(clips: Seq<ImportedClipView>)
    ensures
        in_order(by_start(clips)),
        by_start(clips).len() == clips.len(),
        by_start(clips).to_multiset() =~= clips.to_multiset(),
    decreases clips.len(),
{
    if clips.len() > 0 {
        let rest = clips.drop_last();
        law_ordering_keeps_every_clip(rest);
        let before = by_start(rest);
        let at = slot(before, clips.last().start_frames);
        lemma_slot(before, clips.last().start_frames);
        let all = by_start(clips);
        assert forall|i: int, j: int| 0 <= i <= j < all.len() implies (
        #[trigger] all[i]).start_frames <= (#[trigger] all[j]).start_frames by {
            let a = if i < at {
                i
            } else {
                i - 1
            };
            let b = if j < at {
                j
            } else {
                j - 1
            };
            if i != at {
                assert(all[i] == before[a]);
            }
            if j != at {
                assert(all[j] == before[b]);
            }
        }
        vstd::seq_lib::to_multiset_insert(before, at, clips.last());
        assert(rest.push(clips.last()) =~= clips);
        vstd::seq_lib::to_multiset_build(rest, clips.last());
    } else {
        assert(by_start(clips) =~= clips);
    }
}

fn sort_by_start(clips: Vec<ImportedClip>) -> (r: Vec<ImportedClip>)
    ensures
        views(r@) == by_start(views(clips@)),
{
    let mut rest = clips;
    let ghost all = views(clips@);
    let mut taken: Vec<ImportedClip> = Vec::new();
    // Taken from the back so that each clip is moved once, then put in place front to back.
    let n: usize = rest.len();
    let mut i: usize = n;
    while i > 0
        invariant
            i <= n,
            n == all.len(),
            rest@.len() == i,
            taken@.len() == n - i,
            forall|k: int| 0 <= k < i ==> (#[trigger] rest@[k])@ == all[k],
            forall|k: int| 0 <= k < n - i ==> (#[trigger] taken@[k])@ == all[n - 1 - k],
        decreases i,
    {
        assert(rest@[i - 1]@ == all[i - 1]);
        if let Some(clip) = rest.pop() {
            taken.push(clip);
        }
        i = i - 1;
    }
    let mut out: Vec<ImportedClip> = Vec::new();
    let mut i: usize = 0;
    assert(all.take(0) =~= seq![]);
    assert(views(out@) =~= seq![]);
    while i < n
        invariant
            i <= n,
            n == all.len(),
            taken@.len() == n - i,
            forall|k: int| 0 <= k < n - i ==> (#[trigger] taken@[k])@ == all[n - 1 - k],
            views(out@) == by_start(all.take(i as int)),
            out@.len() == i,
        decreases n - i,
    {
        proof {
            assert(all.take(i + 1).drop_last() =~= all.take(i as int));
            assert(taken@[n - i - 1]@ == all[i as int]);
            law_ordering_keeps_every_clip(all.take(i as int));
        }
        if let Some(clip) = taken.pop() {
            let ghost sorted = views(out@);
            let mut at: usize = out.len();
            assert(sorted.take(at as int) =~= sorted);
            while at > 0 && out[at - 1].start_frames > clip.start_frames
                invariant
                    at <= out@.len(),
                    sorted == views(out@),
                    slot(sorted.take(at as int), clip.start_frames as int) == slot(
                        sorted,
                        clip.start_frames as int,
                    ),
                decreases at,
            {
                assert(sorted.take(at as int).drop_last() =~= sorted.take(at - 1));
                assert(sorted.take(at as int).last() == out@[at - 1]@);
                at = at - 1;
            }
            proof {
                if at > 0 {
                    assert(sorted.take(at as int).last() == out@[at - 1]@);
                }
                assert(clip@ == all[i as int]);
            }
            let ghost before = out@;
            out.insert(at, clip);
            assert(views(out@) =~= sorted.insert(at as int, clip@));
        }
        i = i + 1;
    }
    assert(all.take(i as int) =~= all);
    out
}

// ---------------------------------------------------------------------------
// The timeline
// ---------------------------------------------------------------------------

/// The first element of that name, or -1.
pub open spec fn first_named(nodes: Seq<NodeView>, name: Seq<char>) -> int
    decreases nodes.len(),
{
    if nodes.len() == 0 {
        -1
    } else {
        let before = first_named(nodes.drop_last(), name);
        if before >= 0 {
            before
        } else if nodes.last().is(name) {
            nodes.len() - 1
        } else {
            -1
        }
    }
}

/// The last of some nodes that has a name, or -1.
pub open spec fn last_named(nodes: Seq<NodeView>, kids: Seq<int>, name: Seq<char>) -> int
    decreases kids.len(),
{
    if kids.len() == 0 {
        -1
    } else if nodes[kids.last()].is(name) {
        kids.last()
    } else {
        last_named(nodes, kids.drop_last(), name)
    }
}

pub open spec fn number_or(n: Option<int>, other: int) -> int {
    match n {
        Some(v) => v,
        None => other,
    }
}

/// The frame rate that a profile states; 25 where it states none.
pub open spec fn profile_rate(profile: NodeView) -> (int, int) {
    (
        number_or(number_attr(profile, "frame_rate_num"@), 25),
        larger(number_or(number_attr(profile, "frame_rate_den"@), 1), 1),
    )
}

/// A size as a profile states it, in 32 bits.
pub open spec fn profile_side(profile: NodeView, key: Seq<char>, other: int) -> u32 {
    (larger(number_or(number_attr(profile, key), other), 0) % 0x1_0000_0000) as u32
}

/// The tractor that is the timeline: the one the document points at, else the last one.
pub open spec fn main_tractor_at(nodes: Seq<NodeView>, root: int) -> int {
    let named = match attribute(nodes[root].attrs, "producer"@) {
        Some(id) => by_id(nodes, id),
        None => -1,
    };
    if named >= 0 && nodes[named].is("tractor"@) {
        named
    } else {
        last_named(nodes, children_of(nodes, root), "tractor"@)
    }
}

/// The playlist that a `track` element points at, or -1.
pub open spec fn pointed_playlist(nodes: Seq<NodeView>, track: NodeView) -> int {
    if !track.is("track"@) {
        -1
    } else {
        match attribute(track.attrs, "producer"@) {
            None => -1,
            Some(id) => {
                let at = by_id(nodes, id);
                if at >= 0 && nodes[at].is("playlist"@) {
                    at
                } else {
                    -1
                }
            },
        }
    }
}

/// The playlists that some `track` elements point at.
pub open spec fn pointed_playlists(nodes: Seq<NodeView>, kids: Seq<int>) -> Seq<int>
    decreases kids.len(),
{
    if kids.len() == 0 {
        seq![]
    } else {
        let before = pointed_playlists(nodes, kids.drop_last());
        let at = pointed_playlist(nodes, nodes[kids.last()]);
        if at >= 0 {
            before.push(at)
        } else {
            before
        }
    }
}

/// The playlists of a track: itself, or those its tractor plays. A bare producer has none.
pub open spec fn track_playlists(nodes: Seq<NodeView>, at: int) -> Seq<int> {
    if nodes[at].is("playlist"@) {
        seq![at]
    } else if nodes[at].is("tractor"@) {
        pointed_playlists(nodes, children_of(nodes, at))
    } else {
        seq![]
    }
}

/// Whether an element is marked as an audio track.
pub open spec fn marked_audio(nodes: Seq<NodeView>, at: int) -> bool {
    property_of(nodes, at, "kdenlive:audio_track"@) == Some("1"@)
}

/// How many of these tracks are of one kind.
pub open spec fn count_kind(tracks: Seq<ImportedTrackView>, audio: bool) -> nat
    decreases tracks.len(),
{
    if tracks.len() == 0 {
        0
    } else {
        count_kind(tracks.drop_last(), audio) + if tracks.last().audio == audio {
            1nat
        } else {
            0nat
        }
    }
}

pub open spec fn unknown_track(reference: Seq<char>) -> ErrorView {
    ErrorView::Op("a <track> references '"@ + reference + "', which the document does not define"@)
}

pub open spec fn is_audio_track(nodes: Seq<NodeView>, track: NodeView, at: int) -> bool {
    ||| marked_audio(nodes, at)
    ||| exists|k: int|
        0 <= k < track_playlists(nodes, at).len() && marked_audio(
            nodes,
            #[trigger] track_playlists(nodes, at)[k],
        )
    ||| attribute(track.attrs, "hide"@) == Some("video"@)
}

/// The name of a track: the one it has, or its number among its kind.
pub open spec fn track_name(
    nodes: Seq<NodeView>,
    at: int,
    audio: bool,
    before: Seq<ImportedTrackView>,
) -> Seq<char> {
    match property_of(nodes, at, "kdenlive:track_name"@) {
        Some(name) => name,
        None => (if audio {
            "A"@
        } else {
            "V"@
        }) + dec(count_kind(before, audio) + 1),
    }
}

/// The tracks with one more element of the timeline read.
pub open spec fn after_track(
    tracks: Seq<ImportedTrackView>,
    nodes: Seq<NodeView>,
    track: NodeView,
    fps: Fps,
) -> Result<Seq<ImportedTrackView>, ErrorView> {
    if !track.is("track"@) {
        Ok(tracks)
    } else {
        match attribute(track.attrs, "producer"@) {
            None => Ok(tracks),
            Some(reference) => {
                let at = by_id(nodes, reference);
                if at < 0 {
                    Err(unknown_track(reference))
                } else if track_playlists(nodes, at).len() == 0 {
                    Ok(tracks)
                } else {
                    match playlists_read(nodes, track_playlists(nodes, at), fps) {
                        Err(error) => Err(error),
                        Ok(clips) => {
                            let audio = is_audio_track(nodes, track, at);
                            Ok(
                                tracks.push(
                                    ImportedTrackView {
                                        name: track_name(nodes, at, audio, tracks),
                                        audio,
                                        clips: by_start(clips),
                                    },
                                ),
                            )
                        },
                    }
                }
            },
        }
    }
}

/// The tracks that some elements of the timeline are.
pub open spec fn after_tracks(nodes: Seq<NodeView>, kids: Seq<int>, fps: Fps) -> Result<
    Seq<ImportedTrackView>,
    ErrorView,
>
    decreases kids.len(),
{
    if kids.len() == 0 {
        Ok(seq![])
    } else {
        match after_tracks(nodes, kids.drop_last(), fps) {
            Err(error) => Err(error),
            Ok(tracks) => after_track(tracks, nodes, nodes[kids.last()], fps),
        }
    }
}

/// Whether the instants of a clip are ones that can be stored.
pub open spec fn clip_ok(clip: ImportedClipView) -> bool {
    clip.start.wf() && clip.duration.wf() && clip.source_in.wf()
}

pub open spec fn clips_ok(clips: Seq<ImportedClipView>) -> bool {
    forall|k: int| 0 <= k < clips.len() ==> clip_ok(#[trigger] clips[k])
}

pub open spec fn track_ok(track: ImportedTrackView) -> bool {
    clips_ok(track.clips)
}

pub open spec fn tracks_ok(tracks: Seq<ImportedTrackView>) -> bool {
    forall|k: int| 0 <= k < tracks.len() ==> track_ok(#[trigger] tracks[k])
}

proof fn lemma_children_ok(
    clips: Seq<ImportedClipView>,
    nodes: Seq<NodeView>,
    kids: Seq<int>,
    fps: Fps,
)
    requires
        fps.wf(),
        clips_ok(clips),
    ensures
        after_children(clips, nodes, kids, fps) matches Ok(st) ==> clips_ok(st.clips),
    decreases kids.len(),
{
    if kids.len() > 0 {
        lemma_children_ok(clips, nodes, kids.drop_last(), fps);
        if let Ok(st) = after_children(clips, nodes, kids.drop_last(), fps) {
            let child = nodes[kids.last()];
            let at = entry_in(child, fps);
            if after_child(st, nodes, child, fps) is Ok && child.name == "entry"@ && child.name
                != "blank"@ {
                if let Some(reference) = attribute(child.attrs, "producer"@) {
                    let frames = entry_length(nodes, child, by_id(nodes, reference), fps);
                    Rat::lemma_of(st.cursor * fps.rate.den, fps.rate.num as int);
                    Rat::lemma_of(frames * fps.rate.den, fps.rate.num as int);
                    Rat::lemma_of(at * fps.rate.den, fps.rate.num as int);
                }
            }
        }
    }
}

proof fn lemma_playlists_ok(nodes: Seq<NodeView>, playlists: Seq<int>, fps: Fps)
    requires
        fps.wf(),
    ensures
        playlists_read(nodes, playlists, fps) matches Ok(clips) ==> clips_ok(clips),
    decreases playlists.len(),
{
    if playlists.len() > 0 {
        lemma_playlists_ok(nodes, playlists.drop_last(), fps);
        if let Ok(clips) = playlists_read(nodes, playlists.drop_last(), fps) {
            lemma_children_ok(clips, nodes, children_of(nodes, playlists.last()), fps);
        }
    }
}

proof fn lemma_ordered_ok(clips: Seq<ImportedClipView>)
    requires
        clips_ok(clips),
    ensures
        clips_ok(by_start(clips)),
    decreases clips.len(),
{
    if clips.len() > 0 {
        let rest = clips.drop_last();
        assert(clips_ok(rest)) by {
            assert forall|k: int| 0 <= k < rest.len() implies clip_ok(#[trigger] rest[k]) by {
                assert(rest[k] == clips[k]);
            }
        }
        lemma_ordered_ok(rest);
        law_ordering_keeps_every_clip(rest);
        let before = by_start(rest);
        let at = slot(before, clips.last().start_frames);
        lemma_slot(before, clips.last().start_frames);
        let all = by_start(clips);
        assert(clip_ok(clips[clips.len() - 1]));
        assert forall|k: int| 0 <= k < all.len() implies clip_ok(#[trigger] all[k]) by {
            if k < at {
                assert(all[k] == before[k]);
            } else if k > at {
                assert(all[k] == before[k - 1]);
            }
        }
    }
}

proof fn lemma_tracks_ok(nodes: Seq<NodeView>, kids: Seq<int>, fps: Fps)
    requires
        fps.wf(),
    ensures
        after_tracks(nodes, kids, fps) matches Ok(tracks) ==> tracks_ok(tracks),
    decreases kids.len(),
{
    if kids.len() > 0 {
        lemma_tracks_ok(nodes, kids.drop_last(), fps);
        let track = nodes[kids.last()];
        if let Some(reference) = attribute(track.attrs, "producer"@) {
            let playlists = track_playlists(nodes, by_id(nodes, reference));
            lemma_playlists_ok(nodes, playlists, fps);
            if let Ok(clips) = playlists_read(nodes, playlists, fps) {
                lemma_ordered_ok(clips);
            }
        }
    }
}

pub open spec fn name_at(nodes: Seq<NodeView>, at: int) -> Seq<char> {
    if at >= 0 {
        nodes[at].name
    } else {
        seq![]
    }
}

/// The frame rate of the document, or why it has none.
pub open spec fn document_rate(nodes: Seq<NodeView>) -> Result<Fps, ErrorView> {
    let profile = first_named(nodes, "profile"@);
    if profile >= 0 {
        let (num, den) = profile_rate(nodes[profile]);
        Fps::of(num, den)
    } else {
        Fps::of(25, 1)
    }
}

pub open spec fn document_size(nodes: Seq<NodeView>) -> [u32; 2] {
    let profile = first_named(nodes, "profile"@);
    if profile >= 0 {
        [
            profile_side(nodes[profile], "width"@, 720),
            profile_side(nodes[profile], "height"@, 576),
        ]
    } else {
        [720u32, 576u32]
    }
}

/// The timeline that the nodes of a document spell.
pub open spec fn timeline_in(nodes: Seq<NodeView>) -> Result<TimelineView, ErrorView> {
    let root = root_at(nodes);
    if root < 0 || nodes[root].name != "mlt"@ {
        Err(
            ErrorView::Op("expected an <mlt> document, found <"@ + name_at(nodes, root) + ">"@),
        )
    } else {
        match document_rate(nodes) {
            Err(error) => Err(error),
            Ok(fps) => {
                let tractor = main_tractor_at(nodes, root);
                if tractor < 0 {
                    Err(
                        ErrorView::Op(
                            "no <tractor> in the document: there is no timeline to import"@,
                        ),
                    )
                } else {
                    match after_tracks(nodes, children_of(nodes, tractor), fps) {
                        Err(error) => Err(error),
                        Ok(tracks) => Ok(
                            TimelineView { fps, size: document_size(nodes), tracks },
                        ),
                    }
                }
            },
        }
    }
}

fn find_root(nodes: &Vec<XmlNode>) -> (r: Option<usize>)
    ensures
        r is Some <==> root_at(views(nodes@)) >= 0,
        r is Some ==> r->0 == root_at(views(nodes@)) && r->0 < nodes@.len(),
{
    let ghost all = views(nodes@);
    let mut found: Option<usize> = None;
    let mut i: usize = 0;
    assert(all.take(0) =~= seq![]);
    while i < nodes.len()
        invariant
            i <= nodes@.len(),
            all == views(nodes@),
            found is Some <==> root_at(all.take(i as int)) >= 0,
            found is Some ==> found->0 == root_at(all.take(i as int)) && found->0 < i,
        decreases nodes@.len() - i,
    {
        proof {
            assert(all.take(i + 1).drop_last() =~= all.take(i as int));
            assert(all.take(i + 1).last() == nodes@[i as int]@);
        }
        if found.is_none() && nodes[i].element {
            found = Some(i);
        }
        i = i + 1;
    }
    assert(all.take(i as int) =~= all);
    found
}

fn find_named(nodes: &Vec<XmlNode>, name: &str) -> (r: Option<usize>)
    ensures
        r is Some <==> first_named(views(nodes@), name@) >= 0,
        r is Some ==> r->0 == first_named(views(nodes@), name@) && r->0 < nodes@.len(),
{
    let ghost all = views(nodes@);
    let mut found: Option<usize> = None;
    let mut i: usize = 0;
    assert(all.take(0) =~= seq![]);
    while i < nodes.len()
        invariant
            i <= nodes@.len(),
            all == views(nodes@),
            found is Some <==> first_named(all.take(i as int), name@) >= 0,
            found is Some ==> found->0 == first_named(all.take(i as int), name@) && found->0 < i,
        decreases nodes@.len() - i,
    {
        proof {
            assert(all.take(i + 1).drop_last() =~= all.take(i as int));
            assert(all.take(i + 1).last() == nodes@[i as int]@);
        }
        if found.is_none() && nodes[i].is_named(name) {
            found = Some(i);
        }
        i = i + 1;
    }
    assert(all.take(i as int) =~= all);
    found
}

fn find_main(nodes: &Vec<XmlNode>, root: usize) -> (r: Option<usize>)
    requires
        root < nodes@.len(),
    ensures
        r is Some <==> main_tractor_at(views(nodes@), root as int) >= 0,
        r is Some ==> r->0 == main_tractor_at(views(nodes@), root as int) && r->0 < nodes@.len(),
{
    let ghost all = views(nodes@);
    assert(all[root as int] == nodes@[root as int]@);
    if let Some(id) = nodes[root].attribute("producer") {
        if let Some(named) = find_id(nodes, id.as_str()) {
            assert(all[named as int] == nodes@[named as int]@);
            if nodes[named].is_named("tractor") {
                return Some(named);
            }
        }
    }
    let kids = element_children(nodes, root);
    let ghost list = positions(kids@);
    let mut i: usize = kids.len();
    assert(list.take(i as int) =~= list);
    while i > 0
        invariant
            i <= kids@.len(),
            all == views(nodes@),
            list == positions(kids@),
            forall|k: int| 0 <= k < kids@.len() ==> (#[trigger] kids@[k]) < nodes@.len(),
            last_named(all, list, "tractor"@) == last_named(all, list.take(i as int), "tractor"@),
            main_tractor_at(all, root as int) == last_named(all, list, "tractor"@),
        decreases i,
    {
        let k: usize = kids[i - 1];
        proof {
            assert(list.take(i as int).drop_last() =~= list.take(i - 1));
            assert(list.take(i as int).last() == k);
            assert(all[k as int] == nodes@[k as int]@);
        }
        if nodes[k].is_named("tractor") {
            return Some(k);
        }
        i = i - 1;
    }
    assert(list.take(0) =~= seq![]);
    None
}

fn playlists_under(nodes: &Vec<XmlNode>, tractor: usize) -> (r: Vec<usize>)
    ensures
        positions(r@) == pointed_playlists(
            views(nodes@),
            children_of(views(nodes@), tractor as int),
        ),
        forall|k: int| 0 <= k < r@.len() ==> (#[trigger] r@[k]) < nodes@.len(),
{
    let ghost all = views(nodes@);
    let kids = element_children(nodes, tractor);
    let ghost list = positions(kids@);
    let mut out: Vec<usize> = Vec::new();
    let mut i: usize = 0;
    assert(list.take(0) =~= seq![]);
    assert(positions(out@) =~= seq![]);
    while i < kids.len()
        invariant
            i <= kids@.len(),
            all == views(nodes@),
            list == positions(kids@),
            forall|k: int| 0 <= k < kids@.len() ==> (#[trigger] kids@[k]) < nodes@.len(),
            forall|k: int| 0 <= k < out@.len() ==> (#[trigger] out@[k]) < nodes@.len(),
            positions(out@) == pointed_playlists(all, list.take(i as int)),
        decreases kids@.len() - i,
    {
        let k: usize = kids[i];
        let ghost before = out@;
        proof {
            assert(list.take(i + 1).drop_last() =~= list.take(i as int));
            assert(list.take(i + 1).last() == k);
            assert(all[k as int] == nodes@[k as int]@);
        }
        if nodes[k].is_named("track") {
            if let Some(id) = nodes[k].attribute("producer") {
                if let Some(at) = find_id(nodes, id.as_str()) {
                    assert(all[at as int] == nodes@[at as int]@);
                    if nodes[at].is_named("playlist") {
                        out.push(at);
                        assert(positions(out@) =~= positions(before).push(
                            at as int,
                        ));
                    }
                }
            }
        }
        i = i + 1;
    }
    assert(list.take(i as int) =~= list);
    out
}

fn read_playlists(nodes: &Vec<XmlNode>, playlists: &Vec<usize>, fps: Fps) -> (r: Result<
    Vec<ImportedClip>,
    Error,
>)
    requires
        fps.wf(),
    ensures
        (match r {
            Ok(clips) => playlists_read(
                views(nodes@),
                positions(playlists@),
                fps,
            ) == Ok::<Seq<ImportedClipView>, ErrorView>(views(clips@)),
            Err(error) => playlists_read(
                views(nodes@),
                positions(playlists@),
                fps,
            ) == Err::<Seq<ImportedClipView>, ErrorView>(error@),
        }),
{
    let ghost all = views(nodes@);
    let ghost list = positions(playlists@);
    let mut clips: Vec<ImportedClip> = Vec::new();
    let mut i: usize = 0;
    assert(list.take(0) =~= seq![]);
    assert(views(clips@) =~= seq![]);
    while i < playlists.len()
        invariant
            i <= playlists@.len(),
            fps.wf(),
            all == views(nodes@),
            list == positions(playlists@),
            playlists_read(all, list.take(i as int), fps) == Ok::<
                Seq<ImportedClipView>,
                ErrorView,
            >(views(clips@)),
        decreases playlists@.len() - i,
    {
        proof {
            assert(list.take(i + 1).drop_last() =~= list.take(i as int));
            assert(list.take(i + 1).last() == playlists@[i as int]);
        }
        match read_playlist(nodes, playlists[i], fps, &mut clips) {
            Ok(()) => {},
            Err(error) => {
                proof {
                    lemma_playlists_fail(all, list, fps, i + 1);
                }
                return Err(error);
            },
        }
        i = i + 1;
    }
    assert(list.take(i as int) =~= list);
    Ok(clips)
}

proof fn lemma_playlists_fail(nodes: Seq<NodeView>, playlists: Seq<int>, fps: Fps, n: int)
    requires
        0 <= n <= playlists.len(),
        playlists_read(nodes, playlists.take(n), fps) is Err,
    ensures
        playlists_read(nodes, playlists, fps) == playlists_read(nodes, playlists.take(n), fps),
    decreases playlists.len(),
{
    if n == playlists.len() {
        assert(playlists.take(n) =~= playlists);
    } else {
        assert(playlists.drop_last().take(n) =~= playlists.take(n));
        lemma_playlists_fail(nodes, playlists.drop_last(), fps, n);
    }
}

proof fn lemma_tracks_fail(nodes: Seq<NodeView>, kids: Seq<int>, fps: Fps, n: int)
    requires
        0 <= n <= kids.len(),
        after_tracks(nodes, kids.take(n), fps) is Err,
    ensures
        after_tracks(nodes, kids, fps) == after_tracks(nodes, kids.take(n), fps),
    decreases kids.len(),
{
    if n == kids.len() {
        assert(kids.take(n) =~= kids);
    } else {
        assert(kids.drop_last().take(n) =~= kids.take(n));
        lemma_tracks_fail(nodes, kids.drop_last(), fps, n);
    }
}

fn count_of_kind(tracks: &Vec<ImportedTrack>, audio: bool) -> (r: u128)
    ensures
        r == count_kind(views(tracks@), audio),
        r <= tracks@.len(),
{
    let ghost all = views(tracks@);
    let mut n: u128 = 0;
    let mut i: usize = 0;
    assert(all.take(0) =~= seq![]);
    while i < tracks.len()
        invariant
            i <= tracks@.len(),
            all == views(tracks@),
            n == count_kind(all.take(i as int), audio),
            n <= i,
        decreases tracks@.len() - i,
    {
        proof {
            assert(all.take(i + 1).drop_last() =~= all.take(i as int));
            assert(all.take(i + 1).last() == tracks@[i as int]@);
        }
        if tracks[i].audio == audio {
            n = n + 1;
        }
        i = i + 1;
    }
    assert(all.take(i as int) =~= all);
    n
}

fn any_marked(nodes: &Vec<XmlNode>, playlists: &Vec<usize>) -> (r: bool)
    ensures
        r == exists|k: int|
            0 <= k < playlists@.len() && marked_audio(
                views(nodes@),
                #[trigger] positions(playlists@)[k],
            ),
{
    let ghost list = positions(playlists@);
    let mut i: usize = 0;
    while i < playlists.len()
        invariant
            i <= playlists@.len(),
            list == positions(playlists@),
            forall|k: int| 0 <= k < i ==> !marked_audio(views(nodes@), #[trigger] list[k]),
        decreases playlists@.len() - i,
    {
        assert(list[i as int] == playlists@[i as int] as int);
        if property_is(nodes, playlists[i], "kdenlive:audio_track", "1") {
            return true;
        }
        i = i + 1;
    }
    false
}

/// One track of the timeline.
fn read_track(nodes: &Vec<XmlNode>, track: &XmlNode, fps: Fps, tracks: &mut Vec<ImportedTrack>) -> (r:
    Result<(), Error>)
    requires
        fps.wf(),
    ensures
        (match r {
            Ok(()) => after_track(views(old(tracks)@), views(nodes@), track@, fps) == Ok::<
                Seq<ImportedTrackView>,
                ErrorView,
            >(views(final(tracks)@)),
            Err(error) => after_track(views(old(tracks)@), views(nodes@), track@, fps) == Err::<
                Seq<ImportedTrackView>,
                ErrorView,
            >(error@),
        }),
{
    let ghost all = views(nodes@);
    if !track.is_named("track") {
        return Ok(());
    }
    let reference = match track.attribute("producer") {
        Some(reference) => reference,
        None => {
            return Ok(());
        },
    };
    let at: usize = match find_id(nodes, reference.as_str()) {
        Some(at) => at,
        None => {
            let mut detail = "a <track> references '".to_owned();
            detail.append(reference.as_str());
            detail.append("', which the document does not define");
            return Err(Error::Op(detail));
        },
    };
    assert(all[at as int] == nodes@[at as int]@);
    let playlists: Vec<usize> = if nodes[at].is_named("playlist") {
        let mut one: Vec<usize> = Vec::new();
        one.push(at);
        assert(positions(one@) =~= seq![at as int]);
        one
    } else if nodes[at].is_named("tractor") {
        playlists_under(nodes, at)
    } else {
        let none: Vec<usize> = Vec::new();
        assert(positions(none@) =~= seq![]);
        none
    };
    let ghost list = positions(playlists@);
    assert(list == track_playlists(all, at as int));
    if playlists.len() == 0 {
        return Ok(());
    }
    let hidden = match track.attribute("hide") {
        Some(text) => same(text.as_str(), "video"),
        None => false,
    };
    let audio = property_is(nodes, at, "kdenlive:audio_track", "1") || any_marked(
        nodes,
        &playlists,
    ) || hidden;
    assert(audio == is_audio_track(all, track@, at as int));
    let name: String = match property(nodes, at, "kdenlive:track_name") {
        Some(text) => text.clone(),
        None => {
            let mut name = if audio {
                "A".to_owned()
            } else {
                "V".to_owned()
            };
            let known: usize = tracks.len();
            let n: u128 = count_of_kind(tracks, audio);
            assert(n <= known);
            name.append(decimal(n + 1).as_str());
            name
        },
    };
    match read_playlists(nodes, &playlists, fps) {
        Err(error) => Err(error),
        Ok(clips) => {
            push_view(tracks, ImportedTrack { name, audio, clips: sort_by_start(clips) });
            Ok(())
        },
    }
}

fn read_profile(nodes: &Vec<XmlNode>) -> (r: Result<(Fps, [u32; 2]), Error>)
    ensures
        (match r {
            Ok((fps, size)) => document_rate(nodes_view(nodes)) == Ok::<Fps, ErrorView>(fps)
                && fps.wf() && size == document_size(nodes_view(nodes)),
            Err(error) => document_rate(nodes_view(nodes)) == Err::<Fps, ErrorView>(error@),
        }),
{
    let ghost all = views(nodes@);
    match find_named(nodes, "profile") {
        Some(at) => {
            assert(all[at as int] == nodes@[at as int]@);
            let profile = &nodes[at];
            let num: i64 = match attr_i64(profile, "frame_rate_num") {
                Some(n) => n,
                None => 25,
            };
            let stated: i64 = match attr_i64(profile, "frame_rate_den") {
                Some(n) => n,
                None => 1,
            };
            let den: i64 = if stated >= 1 {
                stated
            } else {
                1
            };
            match Fps::new(num, den) {
                Err(error) => Err(error),
                Ok(fps) => {
                    let size = [
                        side_of(profile, "width", 720),
                        side_of(profile, "height", 576),
                    ];
                    assert(size@ =~= document_size(all)@);
                    Ok((fps, size))
                },
            }
        },
        None => match Fps::new(25, 1) {
            Err(error) => Err(error),
            Ok(fps) => {
                let size = [720u32, 576u32];
                assert(size@ =~= document_size(all)@);
                Ok((fps, size))
            },
        },
    }
}

pub open spec fn nodes_view(nodes: &Vec<XmlNode>) -> Seq<NodeView> {
    views(nodes@)
}

fn side_of(profile: &XmlNode, key: &str, other: i64) -> (r: u32)
    ensures
        r == profile_side(profile@, key@, other as int),
{
    let stated: i64 = match attr_i64(profile, key) {
        Some(n) => n,
        None => other,
    };
    if stated <= 0 {
        0
    } else {
        (stated % 0x1_0000_0000) as u32
    }
}

/// The timeline that the nodes of a document spell.
pub fn read_nodes(nodes: &Vec<XmlNode>) -> (r: Result<ImportedTimeline, Error>)
    ensures
        (match r {
            Ok(timeline) => timeline_in(views(nodes@)) == Ok::<TimelineView, ErrorView>(timeline@),
            Err(error) => timeline_in(views(nodes@)) == Err::<TimelineView, ErrorView>(error@),
        }),
        r matches Ok(timeline) ==> timeline.fps.wf() && tracks_ok(timeline@.tracks),
{
    let ghost all = views(nodes@);
    let root: usize = match find_root(nodes) {
        Some(at) => at,
        None => {
            let detail = "expected an <mlt> document, found <>".to_owned();
            proof {
                reveal_strlit("expected an <mlt> document, found <>");
                reveal_strlit("expected an <mlt> document, found <");
                reveal_strlit(">");
                assert(detail@ =~= "expected an <mlt> document, found <"@ + name_at(all, -1)
                    + ">"@);
                assert(name_at(all, root_at(all)) =~= name_at(all, -1));
            }
            return Err(Error::Op(detail));
        },
    };
    assert(all[root as int] == nodes@[root as int]@);
    if !same(nodes[root].name.as_str(), "mlt") {
        let mut detail = "expected an <mlt> document, found <".to_owned();
        detail.append(nodes[root].name.as_str());
        detail.append(">");
        return Err(Error::Op(detail));
    }
    let (fps, size) = match read_profile(nodes) {
        Ok(found) => found,
        Err(error) => {
            return Err(error);
        },
    };
    let tractor: usize = match find_main(nodes, root) {
        Some(at) => at,
        None => {
            return Err(
                Error::Op(
                    "no <tractor> in the document: there is no timeline to import".to_owned(),
                ),
            );
        },
    };
    let kids = element_children(nodes, tractor);
    let ghost list = positions(kids@);
    let mut tracks: Vec<ImportedTrack> = Vec::new();
    let mut i: usize = 0;
    assert(list.take(0) =~= seq![]);
    assert(views(tracks@) =~= seq![]);
    while i < kids.len()
        invariant
            i <= kids@.len(),
            fps.wf(),
            all == views(nodes@),
            list == positions(kids@),
            list == children_of(all, tractor as int),
            forall|k: int| 0 <= k < kids@.len() ==> (#[trigger] kids@[k]) < nodes@.len(),
            after_tracks(all, list.take(i as int), fps) == Ok::<
                Seq<ImportedTrackView>,
                ErrorView,
            >(views(tracks@)),
            root == root_at(all),
            all[root as int].name == "mlt"@,
            document_rate(all) == Ok::<Fps, ErrorView>(fps),
            tractor == main_tractor_at(all, root as int),
        decreases kids@.len() - i,
    {
        let k: usize = kids[i];
        proof {
            assert(list.take(i + 1).drop_last() =~= list.take(i as int));
            assert(list.take(i + 1).last() == k);
            assert(all[k as int] == nodes@[k as int]@);
        }
        match read_track(nodes, &nodes[k], fps, &mut tracks) {
            Ok(()) => {},
            Err(error) => {
                proof {
                    lemma_tracks_fail(all, list, fps, i + 1);
                }
                return Err(error);
            },
        }
        i = i + 1;
    }
    assert(list.take(i as int) =~= list);
    proof {
        lemma_tracks_ok(all, list, fps);
    }
    Ok(ImportedTimeline { fps, size, tracks })
}

/// What a text is as a timeline.
pub open spec fn imported(text: Seq<char>) -> Result<TimelineView, ErrorView> {
    match xml_nodes(text) {
        Err(error) => Err(ErrorView::Op("not valid XML: "@ + error)),
        Ok(nodes) => timeline_in(nodes),
    }
}

/// Reads a timeline out of an MLT document. Every instant of it is one that can be stored, as an
/// import of it asks. One that was exported comes back as it was: its rate, its size, and on each
/// track every use of media where it stood.
pub fn from_mlt(xml: &str) -> (r: Result<ImportedTimeline, Error>)
    ensures
        (match r {
            Ok(timeline) => imported(xml@) == Ok::<TimelineView, ErrorView>(timeline@),
            Err(error) => imported(xml@) == Err::<TimelineView, ErrorView>(error@),
        }),
        r matches Ok(timeline) ==> timeline.fps.wf() && tracks_ok(timeline@.tracks),
        forall|
            project: Project,
            sequence: Sequence,
            root: Seq<char>,
            compositor: Seq<char>,
            kdenlive: bool,
        |
            #[trigger]
            is_exported(xml@, project, sequence, root, compositor, kdenlive) ==> r is Ok
                && comes_back(r->Ok_0@, document_of(project, sequence, kdenlive), kdenlive),
{
    let parsed = parse(xml);
    proof {
        assert forall|
            project: Project,
            sequence: Sequence,
            root: Seq<char>,
            compositor: Seq<char>,
            kdenlive: bool,
        |
            #[trigger]
            is_exported(xml@, project, sequence, root, compositor, kdenlive) implies
            imported(xml@) is Ok && comes_back(
            imported(xml@)->Ok_0,
            document_of(project, sequence, kdenlive),
            kdenlive,
        ) by {
            lemma_exported(xml@, parsed, project, sequence, root, compositor, kdenlive);
        }
    }
    match parsed {
        Err(error) => {
            let mut detail = "not valid XML: ".to_owned();
            detail.append(error.as_str());
            Err(Error::Op(detail))
        },
        Ok(nodes) => read_nodes(&nodes),
    }
}

} // verus!
