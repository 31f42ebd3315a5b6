//! The document: what a project holds and what can be asked of it without any media.

use crate::color::Rgba;
use crate::error::{Error, ErrorView};
use crate::rational::{round_half_away, rounded, Rat};
use crate::text::{same, strings};
use crate::time::{Fps, Span, Time};
use vstd::prelude::*;

verus! {

#[derive(Clone, Copy, Debug, PartialEq, Eq, Structural)]
pub enum TrackKind {
    Video,
    Audio,
    Caption,
}

#[derive(Clone, Copy, Debug, PartialEq, Eq, Structural)]
pub enum TransitionKind {
    Cut,
    Dissolve,
    Dip,
    Wipe,
    Slide,
    Push,
}

/// How a clip begins: over the end of the clip before it.
#[derive(Clone, Copy, Debug, PartialEq, Eq, Structural)]
pub struct Transition {
    pub kind: TransitionKind,
    pub duration: Time,
}

/// Where a clip's pixels or samples come from.
#[derive(Clone, Debug)]
pub enum Source {
    Asset { asset: String },
    Image { asset: String },
    Color { color: Rgba },
    Title { title: String },
    Sequence { sequence: String },
    /// A built-in generator, by its lower-case name.
    Generator { generator: String },
}

#[derive(Clone, Debug)]
pub struct Effect {
    pub kind: String,
    pub enabled: bool,
    /// The parameters that are text, which may name assets.
    pub params: Vec<String>,
}

/// A piece of a source, placed on a track.
///
/// Levels are decimal fractions in millionths, and absent where they change nothing: a
/// clip without `gain` or `pan` plays as recorded, one without `opacity` is opaque.
#[derive(Clone, Debug)]
pub struct Clip {
    pub id: String,
    pub name: Option<String>,
    pub source: Source,
    pub start: Time,
    pub duration: Time,
    pub source_in: Time,
    pub speed: Rat,
    pub reverse: bool,
    pub enabled: bool,
    /// The clip that this one is the other half of.
    pub link: Option<String>,
    pub transition_in: Option<Transition>,
    pub fade_in: Time,
    pub fade_out: Time,
    pub gain: Option<i64>,
    pub pan: Option<i64>,
    pub opacity: Option<i64>,
    pub effects: Vec<Effect>,
    /// How many parameters are animated.
    pub keyframes: usize,
    /// Whether position, scale, rotation or crop differ from the default.
    pub transformed: bool,
    /// The blend mode, where it is not the normal one.
    pub blend: Option<String>,
    /// How the picture is fitted to the frame: `contain` where all of it is inside.
    pub fit: String,
    /// The track that pushes this clip's level down.
    pub ducking: Option<String>,
}

#[derive(Clone, Debug)]
pub struct CaptionCue {
    pub id: String,
    pub span: Span,
    pub text: String,
    pub style: Option<String>,
}

#[derive(Clone, Debug)]
pub struct Track {
    pub id: String,
    pub name: String,
    pub kind: TrackKind,
    pub clips: Vec<Clip>,
    pub cues: Vec<CaptionCue>,
    pub muted: bool,
    pub hidden: bool,
    pub locked: bool,
    pub gain: Option<i64>,
    pub pan: Option<i64>,
    pub style: Option<String>,
}

#[derive(Clone, Debug)]
pub struct Marker {
    pub id: String,
    pub at: Time,
    pub name: String,
    pub note: Option<String>,
}

#[derive(Clone, Debug)]
pub struct Sequence {
    pub id: String,
    pub name: String,
    pub fps: Fps,
    pub size: [u32; 2],
    pub sample_rate: u32,
    pub channels: u16,
    pub tracks: Vec<Track>,
    pub markers: Vec<Marker>,
}

#[derive(Clone, Copy, Debug, PartialEq, Eq, Structural)]
pub enum ColorRange {
    Tv,
    Pc,
    Unknown,
}

#[derive(Clone, Copy, Debug, PartialEq, Eq, Structural)]
pub enum ColorMatrix {
    Bt709,
    Bt601,
    Bt2020Ncl,
    Smpte240m,
    Unknown,
}

#[derive(Clone, Debug)]
pub struct VideoStream {
    pub stream_index: u32,
    pub size: [u32; 2],
    pub fps: Fps,
    pub codec: String,
    pub pix_fmt: String,
    pub color_range: ColorRange,
    pub color_matrix: ColorMatrix,
    pub color_primaries: Option<String>,
    pub transfer: Option<String>,
    /// Degrees, as the container states them.
    pub rotation: i32,
    /// Sample aspect ratio.
    pub sar: Rat,
    pub frames: Option<i64>,
    pub bit_rate: Option<i64>,
}

#[derive(Clone, Debug)]
pub struct AudioStream {
    pub stream_index: u32,
    pub rate: u32,
    pub channels: u16,
    pub codec: String,
    pub bit_rate: Option<i64>,
}

#[derive(Clone, Debug)]
pub struct Probe {
    pub duration: Time,
    pub video: Option<VideoStream>,
    pub audio: Option<AudioStream>,
    pub vfr: bool,
    pub container: String,
}

#[derive(Clone, Copy, Debug, PartialEq, Eq, Structural)]
pub enum AssetKind {
    Video,
    Audio,
    Image,
    Font,
    Lut,
    Subtitle,
    Other,
}

/// Imported media.
#[derive(Clone, Debug)]
pub struct Asset {
    pub id: String,
    pub name: String,
    pub hash: String,
    pub kind: AssetKind,
    pub probe: Probe,
    /// The stand-in's path, relative to the project.
    pub proxy: Option<String>,
    /// Where the file was imported from.
    pub source_path: Option<String>,
    /// Where the store keeps the bytes; absent when it does not have them.
    pub path: Option<String>,
    /// Whether the stand-in is there and not empty.
    pub proxy_usable: bool,
}

#[derive(Clone, Debug)]
pub struct Title {
    pub id: String,
    pub name: String,
    pub size: [u32; 2],
}

/// Limits that caption text is held to.
#[derive(Clone, Debug)]
pub struct CaptionStyle {
    pub id: String,
    /// Characters per second.
    pub max_cps: Rat,
    pub max_lines: usize,
}

#[derive(Clone, Debug)]
pub struct Project {
    pub id: String,
    pub name: String,
    pub active_sequence: String,
    pub sequences: Vec<Sequence>,
    pub assets: Vec<Asset>,
    pub titles: Vec<Title>,
    pub styles: Vec<CaptionStyle>,
}

impl Transition {
    pub open spec fn wf(self) -> bool {
        self.duration.wf()
    }

    /// Whether there is anything to see of it: an explicit cut is the absence of one.
    pub open spec fn shows(self) -> bool {
        self.kind != TransitionKind::Cut && self.duration.secs.num > 0
    }
}

impl Source {
    /// The asset this source reads, if it reads one.
    pub open spec fn asset(self) -> Option<Seq<char>> {
        match self {
            Source::Asset { asset } => Some(asset@),
            Source::Image { asset } => Some(asset@),
            _ => None,
        }
    }

    /// What a source is called where it has no other name.
    pub open spec fn description(self) -> Seq<char> {
        match self {
            Source::Asset { asset } => "asset:"@ + asset@,
            Source::Image { asset } => "image:"@ + asset@,
            Source::Color { color } => "color:"@ + color.text(),
            Source::Title { title } => "title:"@ + title@,
            Source::Sequence { sequence } => "sequence:"@ + sequence@,
            Source::Generator { generator } => "generator:"@ + generator@,
        }
    }

    pub fn asset_id(&self) -> (r: Option<&String>)
        ensures
            r is Some <==> self.asset() is Some,
            r is Some ==> self.asset() == Some(r->0@),
    {
        match self {
            Source::Asset { asset } => Some(asset),
            Source::Image { asset } => Some(asset),
            _ => None,
        }
    }

    pub fn describe(&self) -> (r: String)
        ensures
            r@ == self.description(),
    {
        match self {
            Source::Asset { asset } => {
                let mut out = "asset:".to_owned();
                out.append(asset.as_str());
                out
            },
            Source::Image { asset } => {
                let mut out = "image:".to_owned();
                out.append(asset.as_str());
                out
            },
            Source::Color { color } => {
                let mut out = "color:".to_owned();
                out.append(color.to_text().as_str());
                out
            },
            Source::Title { title } => {
                let mut out = "title:".to_owned();
                out.append(title.as_str());
                out
            },
            Source::Sequence { sequence } => {
                let mut out = "sequence:".to_owned();
                out.append(sequence.as_str());
                out
            },
            Source::Generator { generator } => {
                let mut out = "generator:".to_owned();
                out.append(generator.as_str());
                out
            },
        }
    }
}

impl Clip {
    /// Every instant is a number, the end can be stored, and the speed is positive: the
    /// direction is stated by `reverse`.
    pub open spec fn wf(self) -> bool {
        &&& self.start.wf()
        &&& self.duration.wf()
        &&& self.source_in.wf()
        &&& self.speed.wf()
        &&& self.speed.num > 0
        &&& self.fade_in.wf()
        &&& self.fade_out.wf()
        &&& self.start.sum_fits(self.duration)
        &&& (self.transition_in is Some ==> self.transition_in->0.wf())
    }

    pub open spec fn spec_end(self) -> Time {
        self.start.spec_plus(self.duration)
    }

    /// What a report calls this clip: its name, or its id.
    pub open spec fn spec_label(self) -> Seq<char> {
        match self.name {
            Some(name) => name@,
            None => self.id@,
        }
    }

    /// What a human recognizes this clip by in an exported file: its name, or its source.
    pub open spec fn shown_name(self) -> Seq<char> {
        match self.name {
            Some(name) => name@,
            None => self.source.description(),
        }
    }

    /// The transition that needs expressing.
    pub open spec fn transition(self) -> Option<Transition> {
        match self.transition_in {
            Some(t) => if t.shows() {
                Some(t)
            } else {
                None
            },
            None => None,
        }
    }

    /// Whether nothing of the clip is changed but what it shows, where, and how fast.
    pub open spec fn is_untouched(self) -> bool {
        &&& self.enabled
        &&& self.link is None
        &&& self.transition_in is None
        &&& self.fade_in == Time::zero_spec()
        &&& self.fade_out == Time::zero_spec()
        &&& self.gain is None
        &&& self.pan is None
        &&& self.opacity is None
        &&& self.effects@.len() == 0
        &&& self.keyframes == 0
        &&& !self.transformed
        &&& self.blend is None
        &&& self.fit@ == "contain"@
        &&& self.ducking is None
    }

    /// Whether the clip plays the source at its own pace, forwards.
    pub open spec fn plays_straight(self) -> bool {
        self.speed.num == self.speed.den && !self.reverse
    }

    /// A clip of `duration` at `start`, with nothing else changed.
    pub fn new(id: String, source: Source, start: Time, duration: Time) -> (r: Clip)
        ensures
            r.id == id,
            r.name is None,
            r.source == source,
            r.start == start,
            r.duration == duration,
            r.source_in == Time::zero_spec(),
            r.speed == (Rat { num: 1, den: 1 }),
            !r.reverse,
            r.enabled,
            r.link is None,
            r.transition_in is None,
            r.fade_in == Time::zero_spec(),
            r.fade_out == Time::zero_spec(),
            r.gain is None,
            r.pan is None,
            r.opacity is None,
            r.effects@.len() == 0,
            r.keyframes == 0,
            !r.transformed,
            r.blend is None,
            r.fit@ == "contain"@,
            r.ducking is None,
            r.is_untouched(),
    {
        Clip {
            id,
            name: None,
            source,
            start,
            duration,
            source_in: Time::zero(),
            speed: Rat::one(),
            reverse: false,
            enabled: true,
            link: None,
            transition_in: None,
            fade_in: Time::zero(),
            fade_out: Time::zero(),
            gain: None,
            pan: None,
            opacity: None,
            effects: Vec::new(),
            keyframes: 0,
            transformed: false,
            blend: None,
            fit: "contain".to_owned(),
            ducking: None,
        }
    }

    pub fn end(&self) -> (r: Time)
        requires
            self.wf(),
        ensures
            r == self.spec_end(),
            r.wf(),
    {
        self.start.plus(&self.duration)
    }

    pub fn label(&self) -> (r: &str)
        ensures
            r@ == self.spec_label(),
    {
        match &self.name {
            Some(name) => name.as_str(),
            None => self.id.as_str(),
        }
    }

    /// The transition that needs expressing.
    pub fn shown_transition(&self) -> (r: Option<Transition>)
        ensures
            r == self.transition(),
    {
        match &self.transition_in {
            Some(t) => {
                if t.kind != TransitionKind::Cut && t.duration.is_positive() {
                    Some(*t)
                } else {
                    None
                }
            },
            None => None,
        }
    }
}

pub open spec fn opt_text(text: Option<String>) -> Option<Seq<char>> {
    match text {
        Some(t) => Some(t@),
        None => None,
    }
}

pub struct VideoView {
    pub stream_index: u32,
    pub width: u32,
    pub height: u32,
    pub fps: Fps,
    pub codec: Seq<char>,
    pub pix_fmt: Seq<char>,
    pub color_range: ColorRange,
    pub color_matrix: ColorMatrix,
    pub color_primaries: Option<Seq<char>>,
    pub transfer: Option<Seq<char>>,
    pub rotation: i32,
    pub sar: Rat,
    pub frames: Option<i64>,
    pub bit_rate: Option<i64>,
}

impl View for VideoStream {
    type V = VideoView;

    open spec fn view(&self) -> VideoView {
        VideoView {
            stream_index: self.stream_index,
            width: self.size@[0],
            height: self.size@[1],
            fps: self.fps,
            codec: self.codec@,
            pix_fmt: self.pix_fmt@,
            color_range: self.color_range,
            color_matrix: self.color_matrix,
            color_primaries: opt_text(self.color_primaries),
            transfer: opt_text(self.transfer),
            rotation: self.rotation,
            sar: self.sar,
            frames: self.frames,
            bit_rate: self.bit_rate,
        }
    }
}

pub struct AudioView {
    pub stream_index: u32,
    pub rate: u32,
    pub channels: u16,
    pub codec: Seq<char>,
    pub bit_rate: Option<i64>,
}

impl View for AudioStream {
    type V = AudioView;

    open spec fn view(&self) -> AudioView {
        AudioView {
            stream_index: self.stream_index,
            rate: self.rate,
            channels: self.channels,
            codec: self.codec@,
            bit_rate: self.bit_rate,
        }
    }
}

pub struct ProbeView {
    pub duration: Time,
    pub video: Option<VideoView>,
    pub audio: Option<AudioView>,
    pub vfr: bool,
    pub container: Seq<char>,
}

impl View for Probe {
    type V = ProbeView;

    open spec fn view(&self) -> ProbeView {
        ProbeView {
            duration: self.duration,
            video: match self.video {
                Some(video) => Some(video@),
                None => None,
            },
            audio: match self.audio {
                Some(audio) => Some(audio@),
                None => None,
            },
            vfr: self.vfr,
            container: self.container@,
        }
    }
}

impl VideoStream {
    /// The width that square pixels give the picture.
    pub open spec fn square_width(self) -> int {
        let w = round_half_away(self.size@[0] * self.sar.num, self.sar.den as int);
        if w < 0 {
            0
        } else if w > u32::MAX {
            u32::MAX as int
        } else {
            w
        }
    }

    /// The size the picture is shown at: with square pixels, and turned.
    pub open spec fn shown_size(self) -> [u32; 2] {
        if (self.rotation as int) % 180 != 0 {
            [self.size@[1], self.square_width() as u32]
        } else {
            [self.square_width() as u32, self.size@[1]]
        }
    }

    pub fn display_size(&self) -> (r: [u32; 2])
        requires
            self.sar.wf(),
        ensures
            r == self.shown_size(),
    {
        proof {
            crate::rational::lemma_wide(self.size@[0] as int, self.sar.num as int);
        }
        let wide: i128 = rounded((self.size[0] as i128) * (self.sar.num as i128), self.sar.den as i128);
        let width: u32 = if wide < 0 {
            0
        } else if wide > u32::MAX as i128 {
            u32::MAX
        } else {
            wide as u32
        };
        let turns: i64 = if self.rotation < 0 {
            -(self.rotation as i64)
        } else {
            self.rotation as i64
        };
        proof {
            lemma_half_turns(self.rotation as int);
        }
        let out = if turns % 180 != 0 {
            [self.size[1], width]
        } else {
            [width, self.size[1]]
        };
        assert(out@ =~= self.shown_size()@);
        out
    }
}

proof fn lemma_half_turns(degrees: int)
    ensures
        degrees % 180 == 0 <==> (-degrees) % 180 == 0,
{
}

impl Track {
    pub fn new(id: String, name: String, kind: TrackKind) -> (r: Track)
        ensures
            r.id == id,
            r.name == name,
            r.kind == kind,
            r.clips@.len() == 0,
            r.cues@.len() == 0,
            !r.muted,
            !r.hidden,
            !r.locked,
            r.gain is None,
            r.pan is None,
            r.style is None,
    {
        Track {
            id,
            name,
            kind,
            clips: Vec::new(),
            cues: Vec::new(),
            muted: false,
            hidden: false,
            locked: false,
            gain: None,
            pan: None,
            style: None,
        }
    }
}

// ---------------------------------------------------------------------------
// Looking things up
// ---------------------------------------------------------------------------

pub open spec fn sequence_ids(sequences: Seq<Sequence>) -> Seq<Seq<char>> {
    sequences.map_values(|s: Sequence| s.id@)
}

pub open spec fn asset_ids(assets: Seq<Asset>) -> Seq<Seq<char>> {
    assets.map_values(|a: Asset| a.id@)
}

/// The position of the first of `ids` that is `id`, or -1.
pub open spec fn index_of(ids: Seq<Seq<char>>, id: Seq<char>) -> int
    decreases ids.len(),
{
    if ids.len() == 0 {
        -1
    } else {
        let before = index_of(ids.drop_last(), id);
        if before >= 0 {
            before
        } else if ids.last() == id {
            ids.len() - 1
        } else {
            -1
        }
    }
}

pub proof fn lemma_index_of(ids: Seq<Seq<char>>, id: Seq<char>)
    ensures
        -1 <= index_of(ids, id) < ids.len() || ids.len() == 0,
        index_of(ids, id) >= -1,
        index_of(ids, id) >= 0 ==> ids[index_of(ids, id)] == id,
        index_of(ids, id) >= 0 ==> forall|k: int| 0 <= k < index_of(ids, id) ==> ids[k] != id,
        index_of(ids, id) < 0 ==> !ids.contains(id),
        ids.contains(id) ==> index_of(ids, id) >= 0,
    decreases ids.len(),
{
    if ids.len() > 0 {
        let rest = ids.drop_last();
        lemma_index_of(rest, id);
        let before = index_of(rest, id);
        if before >= 0 {
            assert forall|k: int| 0 <= k < before implies ids[k] != id by {
                assert(rest[k] == ids[k]);
            }
        } else {
            assert forall|k: int| 0 <= k < rest.len() implies ids[k] != id by {
                assert(rest[k] == ids[k]);
                assert(rest.contains(rest[k]));
            }
        }
    }
}

pub proof fn lemma_index_of_is(ids: Seq<Seq<char>>, id: Seq<char>, at: int)
    requires
        0 <= at < ids.len(),
        ids[at] == id,
        forall|k: int| 0 <= k < at ==> ids[k] != id,
    ensures
        index_of(ids, id) == at,
{
    lemma_index_of(ids, id);
    assert(ids.contains(id));
    let found = index_of(ids, id);
    if found < at {
        assert(ids[found] != id);
    } else if at < found {
        assert(ids[at] != id);
    }
}

pub proof fn lemma_index_of_none(ids: Seq<Seq<char>>, id: Seq<char>)
    requires
        forall|k: int| 0 <= k < ids.len() ==> ids[k] != id,
    ensures
        index_of(ids, id) == -1,
{
    lemma_index_of(ids, id);
}

impl Project {
    /// The position of a sequence, or -1.
    pub open spec fn sequence_at(self, id: Seq<char>) -> int {
        index_of(sequence_ids(self.sequences@), id)
    }

    /// The position of an asset, or -1.
    pub open spec fn asset_at(self, id: Seq<char>) -> int {
        index_of(asset_ids(self.assets@), id)
    }

    pub open spec fn title_at(self, id: Seq<char>) -> int {
        index_of(self.titles@.map_values(|t: Title| t.id@), id)
    }

    pub open spec fn style_at(self, id: Seq<char>) -> int {
        index_of(self.styles@.map_values(|s: CaptionStyle| s.id@), id)
    }

    pub fn find_sequence(&self, id: &str) -> (r: Option<usize>)
        ensures
            r is Some <==> self.sequence_at(id@) >= 0,
            r is Some ==> r->0 == self.sequence_at(id@) && r->0 < self.sequences@.len(),
    {
        let ghost ids = sequence_ids(self.sequences@);
        let mut i: usize = 0;
        while i < self.sequences.len()
            invariant
                i <= self.sequences@.len(),
                ids == sequence_ids(self.sequences@),
                forall|k: int| 0 <= k < i ==> ids[k] != id@,
            decreases self.sequences@.len() - i,
        {
            if same(self.sequences[i].id.as_str(), id) {
                proof {
                    lemma_index_of_is(ids, id@, i as int);
                }
                return Some(i);
            }
            i = i + 1;
        }
        proof {
            lemma_index_of_none(ids, id@);
        }
        None
    }

    pub fn find_asset(&self, id: &str) -> (r: Option<usize>)
        ensures
            r is Some <==> self.asset_at(id@) >= 0,
            r is Some ==> r->0 == self.asset_at(id@) && r->0 < self.assets@.len(),
    {
        let ghost ids = asset_ids(self.assets@);
        let mut i: usize = 0;
        while i < self.assets.len()
            invariant
                i <= self.assets@.len(),
                ids == asset_ids(self.assets@),
                forall|k: int| 0 <= k < i ==> ids[k] != id@,
            decreases self.assets@.len() - i,
        {
            if same(self.assets[i].id.as_str(), id) {
                proof {
                    lemma_index_of_is(ids, id@, i as int);
                }
                return Some(i);
            }
            i = i + 1;
        }
        proof {
            lemma_index_of_none(ids, id@);
        }
        None
    }

    pub fn find_title(&self, id: &str) -> (r: Option<usize>)
        ensures
            r is Some <==> self.title_at(id@) >= 0,
            r is Some ==> r->0 == self.title_at(id@) && r->0 < self.titles@.len(),
    {
        let ghost ids = self.titles@.map_values(|t: Title| t.id@);
        let mut i: usize = 0;
        while i < self.titles.len()
            invariant
                i <= self.titles@.len(),
                ids == self.titles@.map_values(|t: Title| t.id@),
                forall|k: int| 0 <= k < i ==> ids[k] != id@,
            decreases self.titles@.len() - i,
        {
            if same(self.titles[i].id.as_str(), id) {
                proof {
                    lemma_index_of_is(ids, id@, i as int);
                }
                return Some(i);
            }
            i = i + 1;
        }
        proof {
            lemma_index_of_none(ids, id@);
        }
        None
    }

    pub fn find_style(&self, id: &str) -> (r: Option<usize>)
        ensures
            r is Some <==> self.style_at(id@) >= 0,
            r is Some ==> r->0 == self.style_at(id@) && r->0 < self.styles@.len(),
    {
        let ghost ids = self.styles@.map_values(|s: CaptionStyle| s.id@);
        let mut i: usize = 0;
        while i < self.styles.len()
            invariant
                i <= self.styles@.len(),
                ids == self.styles@.map_values(|s: CaptionStyle| s.id@),
                forall|k: int| 0 <= k < i ==> ids[k] != id@,
            decreases self.styles@.len() - i,
        {
            if same(self.styles[i].id.as_str(), id) {
                proof {
                    lemma_index_of_is(ids, id@, i as int);
                }
                return Some(i);
            }
            i = i + 1;
        }
        proof {
            lemma_index_of_none(ids, id@);
        }
        None
    }

    /// The error for a sequence that is not in the project.
    pub open spec fn no_sequence(self, id: Seq<char>) -> ErrorView {
        ErrorView::NoMatch {
            what: "sequence"@,
            wanted: id,
            candidates: sequence_ids(self.sequences@),
        }
    }

    /// The error for an asset that is not in the project.
    pub open spec fn no_asset(self, id: Seq<char>) -> ErrorView {
        ErrorView::NoMatch { what: "asset"@, wanted: id, candidates: asset_ids(self.assets@) }
    }

    /// A sequence by id.
    pub fn sequence(&self, id: &str) -> (r: Result<&Sequence, Error>)
        ensures
            r is Ok <==> self.sequence_at(id@) >= 0,
            r is Ok ==> *r->Ok_0 == self.sequences@[self.sequence_at(id@)],
            r is Err ==> r->Err_0@ == self.no_sequence(id@),
    {
        match self.find_sequence(id) {
            Some(at) => Ok(&self.sequences[at]),
            None => {
                let mut ids: Vec<String> = Vec::new();
                let mut i: usize = 0;
                while i < self.sequences.len()
                    invariant
                        i <= self.sequences@.len(),
                        strings(ids@) =~= sequence_ids(self.sequences@).take(i as int),
                    decreases self.sequences@.len() - i,
                {
                    crate::text::push_text(&mut ids, self.sequences[i].id.as_str());
                    i = i + 1;
                }
                assert(strings(ids@) =~= sequence_ids(self.sequences@));
                Err(Error::no_match("sequence", id, ids))
            },
        }
    }

    /// An asset by id.
    pub fn asset(&self, id: &str) -> (r: Result<&Asset, Error>)
        ensures
            r is Ok <==> self.asset_at(id@) >= 0,
            r is Ok ==> *r->Ok_0 == self.assets@[self.asset_at(id@)],
            r is Err ==> r->Err_0@ == self.no_asset(id@),
    {
        match self.find_asset(id) {
            Some(at) => Ok(&self.assets[at]),
            None => {
                let mut ids: Vec<String> = Vec::new();
                let mut i: usize = 0;
                while i < self.assets.len()
                    invariant
                        i <= self.assets@.len(),
                        strings(ids@) =~= asset_ids(self.assets@).take(i as int),
                    decreases self.assets@.len() - i,
                {
                    crate::text::push_text(&mut ids, self.assets[i].id.as_str());
                    i = i + 1;
                }
                assert(strings(ids@) =~= asset_ids(self.assets@));
                Err(Error::no_match("asset", id, ids))
            },
        }
    }
}

} // verus!
