//! The MLT document: producers, playlists and transitions for a sequence.
//!
//! MLT's `in` and `out` are inclusive frame indices: a thirty-frame clip is `in="0"
//! out="29"`. Frame rates stay rational. What cannot be expressed is reported, and a
//! placeholder of the same length takes its place.

use crate::number::{number, number_text};
use crate::project::{Asset, Clip};
use crate::rational::{
    abs, ceil, ceiled, round_half_away, round_half_even, rounded, rounded_even, Rat,
};
use crate::text::{dec, decimal};
use crate::time::Fps;
use crate::timeline::{larger, mlt_color_text, Entry, Resource, FRAME_LIMIT};
use crate::views::{lemma_views_push, views};
use crate::xml::{AttrView, XmlAttr};
use vstd::prelude::*;

verus! {

/// The MLT release the written documents declare.
pub const MLT_VERSION: &'static str = "7.40.0";

/// Kdenlive's own document format version, distinct from the MLT version.
pub const KDENLIVE_DOC_VERSION: &'static str = "1.1";

/// The Kdenlive release these documents are written for.
pub const KDENLIVE_VERSION: &'static str = "26.08.0";

// ---------------------------------------------------------------------------
// The document
// ---------------------------------------------------------------------------

/// One distinct piece of media, at one speed, used one way. A clip used forty times is one
/// producer.
#[derive(Clone, Debug)]
pub struct Producer {
    pub id: String,
    /// What makes two uses the same producer: identity, use and speed.
    pub key: String,
    /// What this producer is a copy of: the content hash, or the color.
    pub identity: String,
    /// The small integer by which timeline instances are linked to a bin clip.
    pub bin_id: u128,
    /// Whether this producer is the one the bin lists for its identity.
    pub bin: bool,
    pub service: &'static str,
    pub resource: String,
    pub name: String,
    /// Length in frames at the sequence rate. MLT clamps entries to this, so it has to cover the
    /// largest `out` any entry asks for.
    pub length: i64,
    pub audio_only: bool,
    pub has_audio: bool,
    pub hash: Option<String>,
}

pub struct ProducerView {
    pub id: Seq<char>,
    pub key: Seq<char>,
    pub identity: Seq<char>,
    pub bin_id: int,
    pub bin: bool,
    pub service: Seq<char>,
    pub resource: Seq<char>,
    pub name: Seq<char>,
    pub length: int,
    pub audio_only: bool,
    pub has_audio: bool,
    pub hash: Option<Seq<char>>,
}

impl View for Producer {
    type V = ProducerView;

    open spec fn view(&self) -> ProducerView {
        ProducerView {
            id: self.id@,
            key: self.key@,
            identity: self.identity@,
            bin_id: self.bin_id as int,
            bin: self.bin,
            service: self.service@,
            resource: self.resource@,
            name: self.name@,
            length: self.length as int,
            audio_only: self.audio_only,
            has_audio: self.has_audio,
            hash: crate::xml::text_view(self.hash),
        }
    }
}

#[derive(Clone, Debug)]
pub struct Filter {
    pub service: &'static str,
    pub props: Vec<XmlAttr>,
    /// The frames it covers, both included.
    pub range: Option<(i64, i64)>,
}

pub struct FilterView {
    pub service: Seq<char>,
    pub props: Seq<AttrView>,
    pub range: Option<(i64, i64)>,
}

impl View for Filter {
    type V = FilterView;

    open spec fn view(&self) -> FilterView {
        FilterView { service: self.service@, props: views(self.props@), range: self.range }
    }
}

/// A use of a producer: its frames from `in_frame` to `out_frame`, both included.
#[derive(Clone, Debug)]
pub struct EntryOut {
    pub producer: usize,
    pub in_frame: i64,
    pub out_frame: i64,
    pub filters: Vec<Filter>,
}

pub struct EntryOutView {
    pub producer: int,
    pub in_frame: int,
    pub out_frame: int,
    pub filters: Seq<FilterView>,
}

impl View for EntryOut {
    type V = EntryOutView;

    open spec fn view(&self) -> EntryOutView {
        EntryOutView {
            producer: self.producer as int,
            in_frame: self.in_frame as int,
            out_frame: self.out_frame as int,
            filters: views(self.filters@),
        }
    }
}

#[derive(Clone, Debug)]
pub enum Item {
    Blank(i64),
    Entry(EntryOut),
}

pub enum ItemView {
    Blank(int),
    Entry(EntryOutView),
}

impl View for Item {
    type V = ItemView;

    open spec fn view(&self) -> ItemView {
        match self {
            Item::Blank(frames) => ItemView::Blank(*frames as int),
            Item::Entry(entry) => ItemView::Entry(entry@),
        }
    }
}

#[derive(Clone, Debug)]
pub struct TransitionOut {
    pub id: String,
    pub service: String,
    pub a_track: usize,
    pub b_track: usize,
    pub props: Vec<XmlAttr>,
    pub range: Option<(i64, i64)>,
}

pub struct TransitionView {
    pub id: Seq<char>,
    pub service: Seq<char>,
    pub a_track: int,
    pub b_track: int,
    pub props: Seq<AttrView>,
    pub range: Option<(i64, i64)>,
}

impl View for TransitionOut {
    type V = TransitionView;

    open spec fn view(&self) -> TransitionView {
        TransitionView {
            id: self.id@,
            service: self.service@,
            a_track: self.a_track as int,
            b_track: self.b_track as int,
            props: views(self.props@),
            range: self.range,
        }
    }
}

/// Running id allocation. MLT resolves references by id as it parses, so every id is
/// unique across the whole document.
#[derive(Clone, Debug)]
pub struct Ids {
    pub producer: u128,
    pub playlist: u128,
    pub tractor: u128,
    pub transition: u128,
}

pub struct IdsView {
    pub producer: int,
    pub playlist: int,
    pub tractor: int,
    pub transition: int,
}

impl View for Ids {
    type V = IdsView;

    open spec fn view(&self) -> IdsView {
        IdsView {
            producer: self.producer as int,
            playlist: self.playlist as int,
            tractor: self.tractor as int,
            transition: self.transition as int,
        }
    }
}

/// `prefix` with a number behind it.
pub open spec fn numbered(prefix: Seq<char>, n: int) -> Seq<char> {
    prefix + dec(n as nat)
}

fn number_id(prefix: &str, n: u128) -> (r: String)
    ensures
        r@ == numbered(prefix@, n as int),
{
    let mut id = prefix.to_owned();
    id.append(decimal(n).as_str());
    id
}

impl Ids {
    pub fn new() -> (r: Ids)
        ensures
            r == (Ids { producer: 0, playlist: 0, tractor: 0, transition: 0 }),
    {
        Ids { producer: 0, playlist: 0, tractor: 0, transition: 0 }
    }

    pub fn producer(&mut self) -> (r: String)
        requires
            old(self).producer < u128::MAX,
        ensures
            r@ == numbered("producer"@, old(self).producer as int),
            *final(self) == (Ids { producer: (old(self).producer + 1) as u128, ..*old(self) }),
    {
        let id = number_id("producer", self.producer);
        self.producer = self.producer + 1;
        id
    }

    pub fn playlist(&mut self) -> (r: String)
        requires
            old(self).playlist < u128::MAX,
        ensures
            r@ == numbered("playlist"@, old(self).playlist as int),
            *final(self) == (Ids { playlist: (old(self).playlist + 1) as u128, ..*old(self) }),
    {
        let id = number_id("playlist", self.playlist);
        self.playlist = self.playlist + 1;
        id
    }

    pub fn tractor(&mut self) -> (r: String)
        requires
            old(self).tractor < u128::MAX,
        ensures
            r@ == numbered("tractor"@, old(self).tractor as int),
            *final(self) == (Ids { tractor: (old(self).tractor + 1) as u128, ..*old(self) }),
    {
        let id = number_id("tractor", self.tractor);
        self.tractor = self.tractor + 1;
        id
    }

    pub fn transition(&mut self) -> (r: String)
        requires
            old(self).transition < u128::MAX,
        ensures
            r@ == numbered("transition"@, old(self).transition as int),
            *final(self) == (Ids { transition: (old(self).transition + 1) as u128, ..*old(self) }),
    {
        let id = number_id("transition", self.transition);
        self.transition = self.transition + 1;
        id
    }
}

// ---------------------------------------------------------------------------
// Speed
// ---------------------------------------------------------------------------

/// The speed with its direction as a sign, where it is not natural speed: more than a
/// billionth away from one.
pub open spec fn speed_of(clip: Clip) -> Option<Rat> {
    let num = if clip.reverse {
        -clip.speed.num
    } else {
        clip.speed.num as int
    };
    if abs(num - clip.speed.den) * 1_000_000_000 > clip.speed.den {
        Some(Rat { num: num as i64, den: clip.speed.den })
    } else {
        None
    }
}

pub fn clip_speed(clip: &Clip) -> (r: Option<Rat>)
    requires
        clip.wf(),
    ensures
        r == speed_of(*clip),
{
    let num: i64 = if clip.reverse {
        -clip.speed.num
    } else {
        clip.speed.num
    };
    let away: i128 = (num as i128) - (clip.speed.den as i128);
    let size: i128 = if away < 0 {
        -away
    } else {
        away
    };
    if size * 1_000_000_000 > clip.speed.den as i128 {
        Some(Rat { num, den: clip.speed.den })
    } else {
        None
    }
}

/// A speed as a retiming producer writes it. One that is played backwards keeps its sign, however
/// slow it is.
pub open spec fn speed_text(speed: Rat) -> Seq<char> {
    let millionths = round_half_even(speed.num * 1_000_000, speed.den as int);
    if speed.num < 0 && millionths == 0 {
        "-0"@
    } else {
        number_text(millionths)
    }
}

fn speed_number(speed: Rat) -> (r: String)
    requires
        speed.wf(),
    ensures
        r@ == speed_text(speed),
{
    proof {
        crate::rational::lemma_wide(speed.num as int, 1_000_000);
    }
    let millionths: i128 = rounded_even((speed.num as i128) * 1_000_000, speed.den as i128);
    if speed.num < 0 && millionths == 0 {
        "-0".to_owned()
    } else {
        number(millionths)
    }
}

/// The first frame to play of a retimed producer: its frames are the retimed ones, so the
/// in-point moves with the speed.
pub open spec fn in_point(source_in: int, speed: Option<Rat>) -> int {
    match speed {
        None => larger(source_in, 0),
        Some(speed) => {
            let n = if speed.num < 0 {
                -source_in * speed.den
            } else {
                source_in * speed.den
            };
            larger(round_half_away(n, abs(speed.num as int) as int), 0)
        },
    }
}

pub(crate) fn in_frame_of(source_in: i64, speed: Option<Rat>) -> (r: i64)
    requires
        -FRAME_LIMIT < source_in < FRAME_LIMIT,
        speed is Some ==> speed->0.den > 0 && speed->0.num != 0 && speed->0.num > i64::MIN,
        in_point(source_in as int, speed) < FRAME_LIMIT,
    ensures
        r == in_point(source_in as int, speed),
        0 <= r,
{
    match speed {
        None => {
            if source_in > 0 {
                source_in
            } else {
                0
            }
        },
        Some(speed) => {
            proof {
                crate::rational::lemma_wide(source_in as int, speed.den as int);
                crate::rational::lemma_wide(-source_in, speed.den as int);
            }
            let n: i128 = if speed.num < 0 {
                (-source_in as i128) * (speed.den as i128)
            } else {
                (source_in as i128) * (speed.den as i128)
            };
            let d: i128 = if speed.num < 0 {
                -(speed.num as i128)
            } else {
                speed.num as i128
            };
            let frame: i128 = rounded(n, d);
            if frame > 0 {
                frame as i64
            } else {
                0
            }
        },
    }
}

/// How long an asset is, in frames: at least one.
pub open spec fn asset_length(asset: Asset, fps: Fps) -> int {
    larger(asset.probe.duration.ceil_frame(fps), 1)
}

/// How long a producer of some length is once it is retimed.
pub open spec fn retimed_length(length: int, speed: Option<Rat>) -> int {
    match speed {
        None => length,
        Some(speed) => larger(ceil(length * speed.den, abs(speed.num as int) as int), 1),
    }
}

// ---------------------------------------------------------------------------
// Producers
// ---------------------------------------------------------------------------

pub open spec fn bool_text(b: bool) -> Seq<char> {
    if b {
        "true"@
    } else {
        "false"@
    }
}

/// What a resource is a copy of.
pub open spec fn identity_of(resource: Resource) -> Seq<char> {
    match resource {
        Resource::File { asset } => "file|"@ + asset.hash@,
        Resource::Color(color) => "color|"@ + mlt_color_text(color),
    }
}

/// What makes two uses of a resource the same producer.
pub open spec fn key_of(resource: Resource, audio_only: bool, speed: Option<Rat>) -> Seq<char> {
    identity_of(resource) + "|"@ + bool_text(audio_only) + "|"@ + (match speed {
        Some(speed) => speed_text(speed),
        None => ""@,
    })
}

pub open spec fn path_of(asset: Asset) -> Seq<char> {
    match asset.path {
        Some(path) => path@,
        None => seq![],
    }
}

/// The producer for a resource, before it is numbered.
pub open spec fn producer_for(
    resource: Resource,
    audio_only: bool,
    speed: Option<Rat>,
    fps: Fps,
    timeline_frames: int,
) -> ProducerView {
    match resource {
        Resource::File { asset } => ProducerView {
            id: seq![],
            key: key_of(resource, audio_only, speed),
            identity: identity_of(resource),
            bin_id: 0,
            bin: false,
            service: match speed {
                Some(_) => "timewarp"@,
                None => "avformat-novalidate"@,
            },
            resource: match speed {
                Some(speed) => speed_text(speed) + ":"@ + path_of(*asset),
                None => path_of(*asset),
            },
            name: asset.name@,
            length: retimed_length(asset_length(*asset, fps), speed),
            audio_only,
            has_audio: asset.probe.audio is Some,
            hash: Some(asset.hash@),
        },
        Resource::Color(color) => ProducerView {
            id: seq![],
            key: key_of(resource, audio_only, speed),
            identity: identity_of(resource),
            bin_id: 0,
            bin: false,
            service: "color"@,
            resource: mlt_color_text(color),
            name: "color "@ + mlt_color_text(color),
            length: timeline_frames,
            audio_only,
            has_audio: false,
            hash: None,
        },
    }
}

pub open spec fn producer_keys(producers: Seq<ProducerView>) -> Seq<Seq<char>> {
    producers.map_values(|p: ProducerView| p.key)
}

/// The producers with this one among them, and where it stands: an equal one is not added
/// again.
pub open spec fn interned(producers: Seq<ProducerView>, count: int, new: ProducerView) -> (
    Seq<ProducerView>,
    int,
    int,
) {
    let at = crate::project::index_of(producer_keys(producers), new.key);
    if at >= 0 {
        (producers, count, at)
    } else {
        (
            producers.push(ProducerView { id: numbered("producer"@, count), ..new }),
            count + 1,
            producers.len() as int,
        )
    }
}

/// Whether the numbers in an asset can be used as frame counts.
pub open spec fn asset_fits(asset: Asset, fps: Fps, speed: Option<Rat>) -> bool {
    &&& asset.probe.duration.wf()
    &&& -FRAME_LIMIT < asset.probe.duration.ceil_frame(fps) < FRAME_LIMIT
    &&& retimed_length(asset_length(asset, fps), speed) < FRAME_LIMIT
}

fn find_key(producers: &Vec<Producer>, key: &str) -> (r: Option<usize>)
    ensures
        r is Some <==> crate::project::index_of(producer_keys(views(producers@)), key@) >= 0,
        r is Some ==> r->0 == crate::project::index_of(producer_keys(views(producers@)), key@)
            && r->0 < producers@.len(),
{
    let ghost keys = producer_keys(views(producers@));
    let mut i: usize = 0;
    while i < producers.len()
        invariant
            i <= producers@.len(),
            keys == producer_keys(views(producers@)),
            forall|k: int| 0 <= k < i ==> keys[k] != key@,
        decreases producers@.len() - i,
    {
        if crate::text::same(producers[i].key.as_str(), key) {
            proof {
                crate::project::lemma_index_of_is(keys, key@, i as int);
            }
            return Some(i);
        }
        i = i + 1;
    }
    proof {
        crate::project::lemma_index_of_none(keys, key@);
    }
    None
}

fn new_producer(
    resource: Resource<'_>,
    audio_only: bool,
    speed: Option<Rat>,
    fps: Fps,
    timeline_frames: i64,
) -> (r: Producer)
    requires
        fps.wf(),
        speed is Some ==> speed->0.den > 0 && speed->0.num != 0 && speed->0.num > i64::MIN,
        resource is File ==> asset_fits(*resource->asset, fps, speed),
    ensures
        r@ == producer_for(resource, audio_only, speed, fps, timeline_frames as int),
{
    let mut identity = String::new();
    match resource {
        Resource::File { asset } => {
            identity.append("file|");
            identity.append(asset.hash.as_str());
            assert(identity@ =~= identity_of(resource));
        },
        Resource::Color(color) => {
            identity.append("color|");
            identity.append(Resource::mlt_color(color).as_str());
            assert(identity@ =~= identity_of(resource));
        },
    }
    let mut key = identity.clone();
    key.append("|");
    if audio_only {
        key.append("true");
    } else {
        key.append("false");
    }
    key.append("|");
    match speed {
        Some(speed) => key.append(speed_number(speed).as_str()),
        None => key.append(""),
    }
    assert(key@ == key_of(resource, audio_only, speed));
    match resource {
        Resource::File { asset } => {
            let ceiling: i64 = asset.probe.duration.frame_ceil(fps);
            let natural: i64 = if ceiling >= 1 {
                ceiling
            } else {
                1
            };
            let path: &str = match &asset.path {
                Some(path) => path.as_str(),
                None => "",
            };
            proof {
                reveal_strlit("");
                assert(path@ =~= path_of(*asset));
            }
            let mut place = String::new();
            let length: i64 = match speed {
                None => {
                    place.append(path);
                    natural
                },
                Some(speed) => {
                    place.append(speed_number(speed).as_str());
                    place.append(":");
                    place.append(path);
                    let d: i128 = if speed.num < 0 {
                        -(speed.num as i128)
                    } else {
                        speed.num as i128
                    };
                    proof {
                        crate::rational::lemma_wide(natural as int, speed.den as int);
                    }
                    let frames: i128 = ceiled((natural as i128) * (speed.den as i128), d);
                    if frames >= 1 {
                        frames as i64
                    } else {
                        1
                    }
                },
            };
            let service: &'static str = match speed {
                Some(_) => "timewarp",
                None => "avformat-novalidate",
            };
            let r = Producer {
                id: String::new(),
                key,
                identity,
                bin_id: 0,
                bin: false,
                service,
                resource: place,
                name: asset.name.clone(),
                length,
                audio_only,
                has_audio: asset.probe.audio.is_some(),
                hash: Some(asset.hash.clone()),
            };
            proof {
                let want = producer_for(resource, audio_only, speed, fps, timeline_frames as int);
                assert(r@.id =~= want.id);
                assert(r@.resource =~= want.resource);
            }
            r
        },
        Resource::Color(color) => {
            let place = Resource::mlt_color(color);
            let mut name = "color ".to_owned();
            name.append(place.as_str());
            let r = Producer {
                id: String::new(),
                key,
                identity,
                bin_id: 0,
                bin: false,
                service: "color",
                resource: place,
                name,
                length: timeline_frames,
                audio_only,
                has_audio: false,
                hash: None,
            };
            proof {
                let want = producer_for(resource, audio_only, speed, fps, timeline_frames as int);
                assert(r@.id =~= want.id);
            }
            r
        },
    }
}

/// Finds the producer for a resource, adding it where there is none yet.
pub fn intern(
    producers: &mut Vec<Producer>,
    ids: &mut Ids,
    resource: Resource<'_>,
    audio_only: bool,
    speed: Option<Rat>,
    fps: Fps,
    timeline_frames: i64,
) -> (r: usize)
    requires
        fps.wf(),
        speed is Some ==> speed->0.den > 0 && speed->0.num != 0 && speed->0.num > i64::MIN,
        resource is File ==> asset_fits(*resource->asset, fps, speed),
        old(ids).producer < u128::MAX,
    ensures
        (views(final(producers)@), final(ids).producer as int, r as int) == interned(
            views(old(producers)@),
            old(ids).producer as int,
            producer_for(resource, audio_only, speed, fps, timeline_frames as int),
        ),
        r < final(producers)@.len(),
        final(ids).playlist == old(ids).playlist,
        final(ids).tractor == old(ids).tractor,
        final(ids).transition == old(ids).transition,
{
    let mut producer = new_producer(resource, audio_only, speed, fps, timeline_frames);
    match find_key(producers, producer.key.as_str()) {
        Some(at) => at,
        None => {
            let at: usize = producers.len();
            producer.id = ids.producer();
            proof {
                lemma_views_push(producers@, producer);
            }
            producers.push(producer);
            at
        },
    }
}

} // verus!
