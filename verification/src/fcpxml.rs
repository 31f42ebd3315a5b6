//! FCPXML 1.11.
//!
//! Every instant is a whole number of frames: it is a frame count times the frame duration,
//! and nothing divides. The timeline is one gap as long as the sequence with every clip
//! connected to it: lanes above zero for video in track order, below zero for audio.

use crate::edl::audio_count;
use crate::error::{Error, ErrorView};
use crate::losses::{fcpxml_kept, kept_by_fcpxml, loss_warnings, losses};
use crate::mlt::{asset_fits, asset_length, path_of};
use crate::mlt_build::{entries_error, lemma_entries_error};
use crate::mlt_document::{
    all_placing_warnings, document_frames, lemma_clip_tracks, placed_warnings, total_frames,
    tracks_error,
};
use crate::mlt_write::{drop_prefixes, size_text, without_prefixes, Export};
use crate::project::{index_of, Asset, Clip, Project, Sequence, Track, TrackKind, VideoStream};
use crate::rational::gcd;
use crate::text::{
    chars_of, dec, dec_int, decimal, hex_digit, integer, is_hex, push_char, push_int, raise,
    raise_char, same,
};
use crate::time::Fps;
use crate::timeline::{
    as_list, clip_tracks, entries_of, feature_warnings, file_url, flatten, flattens, is_flat,
    lost_features, on_grid, push_warning, resolve_source, resource_of, retime_loss, retime_warning,
    sequence_fits, source_error, source_warning, track_fits, url_of, Entry, FlatTrack, Placed,
    Resource, Warning, WarningView,
};
use crate::views::{extend, push_view, views};
use crate::xml::{
    attr, attrs1, attrs2, empty, end, push_attr, push_empty, push_end, push_event, push_start,
    render, start, xml_text, AttrView, EventView, XmlAttr, XmlEvent,
};
use vstd::prelude::*;

verus! {

/// The version the document declares.
pub const FCPXML_VERSION: &'static str = "1.11";

// ---------------------------------------------------------------------------
// The clock
// ---------------------------------------------------------------------------

/// A frame duration: the reciprocal of the frame rate, in seconds.
#[derive(Clone, Copy, Debug, PartialEq, Eq, Structural)]
pub struct Timebase {
    pub num: i64,
    pub den: i64,
}

impl Timebase {
    pub open spec fn wf(self) -> bool {
        self.num > 0 && self.den > 0
    }

    /// The frame duration of a rate, in lowest terms.
    pub open spec fn of_rate(fps: Fps) -> Timebase {
        let divisor = gcd(fps.rate.den as nat, fps.rate.num as nat);
        Timebase {
            num: (fps.rate.den as nat / divisor) as i64,
            den: (fps.rate.num as nat / divisor) as i64,
        }
    }

    pub open spec fn duration_text(self) -> Seq<char> {
        dec_int(self.num as int) + "/"@ + dec_int(self.den as int) + "s"@
    }

    /// The numerator of an instant, over the frame duration's own denominator.
    pub open spec fn ticks(self, frames: int) -> int {
        frames * self.num
    }

    /// A frame count as an instant: not reduced, so that it states its timebase.
    pub open spec fn instant(self, frames: int) -> Seq<char> {
        if frames == 0 {
            "0s"@
        } else {
            dec_int(self.ticks(frames)) + "/"@ + dec_int(self.den as int) + "s"@
        }
    }

    pub fn of(fps: Fps) -> (r: Timebase)
        requires
            fps.wf(),
        ensures
            r == Timebase::of_rate(fps),
            r.wf(),
            r.num * fps.rate.num == r.den * fps.rate.den,
    {
        let (num, den) = crate::rational::reduce(fps.rate.den, fps.rate.num);
        assert(num * fps.rate.num == den * fps.rate.den) by (nonlinear_arith)
            requires
                num * fps.rate.num == fps.rate.den * den,
        ;
        Timebase { num, den }
    }

    pub fn frame_duration(&self) -> (r: String)
        ensures
            r@ == self.duration_text(),
    {
        let mut out = integer(self.num);
        out.append("/");
        out.append(integer(self.den).as_str());
        out.append("s");
        out
    }

    pub fn at(&self, frames: i64) -> (r: String)
        ensures
            r@ == self.instant(frames as int),
    {
        if frames == 0 {
            return "0s".to_owned();
        }
        proof {
            crate::rational::lemma_wide(frames as int, self.num as int);
        }
        let ticks: i128 = (frames as i128) * (self.num as i128);
        let mut out = String::new();
        push_int(&mut out, ticks);
        out.append("/");
        out.append(integer(self.den).as_str());
        out.append("s");
        assert(out@ =~= self.instant(frames as int));
        out
    }
}

/// Every instant is a whole number of frame durations: as many as it has frames.
pub proof fn law_instants_are_whole_frames(base: Timebase, frames: int)
    requires
        base.wf(),
    ensures
        base.ticks(frames) % base.num as int == 0,
        base.ticks(frames) / base.num as int == frames,
{
    let d = base.num as int;
    assert(frames * d == d * frames + 0) by (nonlinear_arith);
    vstd::arithmetic::div_mod::lemma_fundamental_div_mod_converse(frames * d, d, frames, 0);
}

// ---------------------------------------------------------------------------
// Resources
// ---------------------------------------------------------------------------

pub struct Format {
    pub id: String,
    pub size: [u32; 2],
    pub fps: Fps,
}

pub struct FormatView {
    pub id: Seq<char>,
    pub size: [u32; 2],
    pub fps: Fps,
}

impl View for Format {
    type V = FormatView;

    open spec fn view(&self) -> FormatView {
        FormatView { id: self.id@, size: self.size, fps: self.fps }
    }
}

pub open spec fn format_name(format: FormatView) -> Seq<char> {
    "FFVideoFormat"@ + size_text(format.size) + "p"@ + format.fps.text()
}

impl Format {
    pub fn name(&self) -> (r: String)
        ensures
            r@ == format_name(self@),
    {
        let mut out = "FFVideoFormat".to_owned();
        out.append(decimal(self.size[0] as u128).as_str());
        out.append("x");
        out.append(decimal(self.size[1] as u128).as_str());
        out.append("p");
        out.append(self.fps.to_text().as_str());
        assert(out@ =~= format_name(self@));
        out
    }
}

pub struct Media<'a> {
    pub id: String,
    pub format: String,
    pub asset: &'a Asset,
}

pub struct MediaView {
    pub id: Seq<char>,
    pub format: Seq<char>,
    pub asset: Asset,
}

impl<'a> View for Media<'a> {
    type V = MediaView;

    open spec fn view(&self) -> MediaView {
        MediaView { id: self.id@, format: self.format@, asset: *self.asset }
    }
}

pub open spec fn resource_id(n: int) -> Seq<char> {
    "r"@ + dec(n as nat)
}

/// What the clips seen so far need.
pub struct Needs {
    pub formats: Seq<FormatView>,
    pub media: Seq<MediaView>,
    pub next: int,
    pub warnings: Seq<WarningView>,
}

/// Whether a format is for pictures of that size and rate.
pub open spec fn suits(format: FormatView, size: [u32; 2], fps: Fps) -> bool {
    format.size@[0] == size@[0] && format.size@[1] == size@[1] && format.fps == fps
}

/// The first format for pictures of that size and rate, or -1.
pub open spec fn format_at(formats: Seq<FormatView>, size: [u32; 2], fps: Fps) -> int
    decreases formats.len(),
{
    if formats.len() == 0 {
        -1
    } else {
        let before = format_at(formats.drop_last(), size, fps);
        if before >= 0 {
            before
        } else if suits(formats.last(), size, fps) {
            formats.len() - 1
        } else {
            -1
        }
    }
}

/// The rate a picture's format states: its own, or the sequence's where it has none.
pub open spec fn stated_rate(video: VideoStream, fps: Fps) -> Fps {
    if video.fps.wf() {
        video.fps
    } else {
        fps
    }
}

/// The formats with the one for an asset among them, the next number, and its id. Sound
/// alone takes the sequence's format.
pub open spec fn with_format(
    formats: Seq<FormatView>,
    next: int,
    asset: Asset,
    fps: Fps,
) -> (Seq<FormatView>, int, Seq<char>) {
    match asset.probe.video {
        None => (formats, next, formats[0].id),
        Some(video) => {
            let size = video.shown_size();
            let at = format_at(formats, size, video.fps);
            if at >= 0 {
                (formats, next, formats[at].id)
            } else {
                (
                    formats.push(
                        FormatView { id: resource_id(next), size, fps: stated_rate(video, fps) },
                    ),
                    next + 1,
                    resource_id(next),
                )
            }
        },
    }
}

pub open spec fn media_hashes(media: Seq<MediaView>) -> Seq<Seq<char>> {
    media.map_values(|m: MediaView| m.asset.hash@)
}

/// What is needed with one more clip: each file once, by its content.
pub open spec fn with_clip(st: Needs, clip: Clip, project: Project, fps: Fps) -> Needs {
    let warnings = st.warnings + lost_features(clip, "FCPXML"@) + as_list(
        retime_loss(clip, "FCPXML"@),
    ) + as_list(source_warning(project, clip));
    match resource_of(project, clip) {
        Resource::Color(_) => Needs { warnings, ..st },
        Resource::File { asset } => if index_of(media_hashes(st.media), asset.hash@) >= 0 {
            Needs { warnings, ..st }
        } else {
            let (formats, next, format) = with_format(st.formats, st.next, *asset, fps);
            Needs {
                formats,
                media: st.media.push(MediaView { id: resource_id(next), format, asset: *asset }),
                next: next + 1,
                warnings,
            }
        },
    }
}

pub open spec fn with_entry(st: Needs, entry: Entry, project: Project, fps: Fps) -> Needs {
    match entry {
        Entry::Blank { .. } => st,
        Entry::Clip(placed) => with_clip(st, *placed.clip, project, fps),
    }
}

pub open spec fn with_entries(st: Needs, entries: Seq<Entry>, project: Project, fps: Fps) -> Needs
    decreases entries.len(),
{
    if entries.len() == 0 {
        st
    } else {
        with_entry(
            with_entries(st, entries.drop_last(), project, fps),
            entries.last(),
            project,
            fps,
        )
    }
}

pub open spec fn with_tracks(st: Needs, tracks: Seq<Track>, project: Project, fps: Fps) -> Needs
    decreases tracks.len(),
{
    if tracks.len() == 0 {
        st
    } else {
        with_entries(
            with_tracks(st, tracks.drop_last(), project, fps),
            entries_of(tracks.last().clips@, fps),
            project,
            fps,
        )
    }
}

/// Everything that a sequence needs, with its own format first.
pub open spec fn needs_of(project: Project, sequence: Sequence) -> Needs {
    let tracks = clip_tracks(sequence.tracks@);
    with_tracks(
        Needs {
            formats: seq![FormatView { id: "r1"@, size: sequence.size, fps: sequence.fps }],
            media: seq![],
            next: 2,
            warnings: all_placing_warnings(tracks, sequence.fps) + losses(
                sequence,
                "FCPXML"@,
                kept_by_fcpxml(),
            ),
        },
        tracks,
        project,
        sequence.fps,
    )
}

// ---------------------------------------------------------------------------
// The document
// ---------------------------------------------------------------------------

/// The first `most` hexadecimal digits of a text, in upper case.
pub open spec fn hex_digits(s: Seq<char>, most: nat) -> Seq<char>
    decreases s.len(),
{
    if s.len() == 0 || most == 0 {
        seq![]
    } else if is_hex(s[0]) {
        seq![raise(s[0])] + hex_digits(s.skip(1), (most - 1) as nat)
    } else {
        hex_digits(s.skip(1), most)
    }
}

/// A stable media id of 32 hexadecimal digits: the content hash.
pub open spec fn uid_text(hash: Seq<char>) -> Seq<char> {
    hex_digits(without_prefixes(hash, "blake3:"@), 32)
}

pub open spec fn flag(b: bool) -> Seq<char> {
    if b {
        "1"@
    } else {
        "0"@
    }
}

pub open spec fn format_event(format: FormatView) -> EventView {
    empty(
        "format"@,
        seq![
            attr("id"@, format.id),
            attr("name"@, format_name(format)),
            attr("frameDuration"@, Timebase::of_rate(format.fps).duration_text()),
            attr("width"@, dec(format.size@[0] as nat)),
            attr("height"@, dec(format.size@[1] as nat)),
            attr("colorSpace"@, "1-1-1 (Rec. 709)"@),
        ],
    )
}

pub open spec fn format_list(formats: Seq<FormatView>) -> Seq<EventView>
    decreases formats.len(),
{
    if formats.len() == 0 {
        seq![]
    } else {
        format_list(formats.drop_last()).push(format_event(formats.last()))
    }
}

pub open spec fn media_attrs(item: MediaView, base: Timebase, fps: Fps) -> Seq<AttrView> {
    let probe = item.asset.probe;
    seq![
        attr("id"@, item.id),
        attr("name"@, item.asset.name@),
        attr("uid"@, uid_text(item.asset.hash@)),
        attr("start"@, "0s"@),
        attr("duration"@, base.instant(asset_length(item.asset, fps))),
        attr("hasVideo"@, flag(probe.video is Some)),
        attr("hasAudio"@, flag(probe.audio is Some)),
        attr("format"@, item.format),
    ] + (if probe.video is Some {
        seq![attr("videoSources"@, "1"@)]
    } else {
        seq![]
    }) + (match probe.audio {
        Some(audio) => seq![
            attr("audioSources"@, "1"@),
            attr("audioChannels"@, dec(audio.channels as nat)),
            attr("audioRate"@, dec(audio.rate as nat)),
        ],
        None => seq![],
    })
}

pub open spec fn media_events(item: MediaView, base: Timebase, fps: Fps) -> Seq<EventView> {
    seq![
        start("asset"@, media_attrs(item, base, fps)),
        empty(
            "media-rep"@,
            seq![attr("kind"@, "original-media"@), attr("src"@, url_of(path_of(item.asset)))],
        ),
        end("asset"@),
    ]
}

pub open spec fn media_list(media: Seq<MediaView>, base: Timebase, fps: Fps) -> Seq<EventView>
    decreases media.len(),
{
    if media.len() == 0 {
        seq![]
    } else {
        media_list(media.drop_last(), base, fps) + media_events(media.last(), base, fps)
    }
}

/// A clip of a file, connected to the spine in its lane.
pub open spec fn asset_clip_attrs(
    placed: Placed,
    item: MediaView,
    lane: int,
    base: Timebase,
) -> Seq<AttrView> {
    seq![
        attr("ref"@, item.id),
        attr("lane"@, dec_int(lane)),
        attr("offset"@, base.instant(placed.start as int)),
        attr("name"@, placed.clip.shown_name()),
        attr("start"@, base.instant(placed.source_in as int)),
        attr("duration"@, base.instant(placed.frames as int)),
        attr("format"@, item.format),
        attr("tcFormat"@, "NDF"@),
    ] + (if placed.clip.enabled {
        seq![attr("enabled"@, "1"@)]
    } else {
        seq![]
    })
}

/// What stands for a clip that has no file: a gap as long as it.
pub open spec fn gap_attrs(placed: Placed, lane: int, base: Timebase) -> Seq<AttrView> {
    seq![
        attr("name"@, placed.clip.shown_name()),
        attr("lane"@, dec_int(lane)),
        attr("offset"@, base.instant(placed.start as int)),
        attr("start"@, "0s"@),
        attr("duration"@, base.instant(placed.frames as int)),
    ]
}

pub open spec fn clip_event(
    placed: Placed,
    media: Seq<MediaView>,
    lane: int,
    base: Timebase,
    project: Project,
) -> EventView {
    match resource_of(project, *placed.clip) {
        Resource::File { asset } => empty(
            "asset-clip"@,
            asset_clip_attrs(
                placed,
                media[index_of(media_hashes(media), asset.hash@)],
                lane,
                base,
            ),
        ),
        Resource::Color(_) => empty("gap"@, gap_attrs(placed, lane, base)),
    }
}

pub open spec fn entry_list(
    entries: Seq<Entry>,
    media: Seq<MediaView>,
    lane: int,
    base: Timebase,
    project: Project,
) -> Seq<EventView>
    decreases entries.len(),
{
    if entries.len() == 0 {
        seq![]
    } else {
        let before = entry_list(entries.drop_last(), media, lane, base, project);
        match entries.last() {
            Entry::Blank { .. } => before,
            Entry::Clip(placed) => before.push(clip_event(placed, media, lane, base, project)),
        }
    }
}

/// The lane of the last of some tracks.
pub open spec fn lane_of_last(tracks: Seq<Track>) -> int {
    if tracks.last().kind == TrackKind::Audio {
        -(audio_count(tracks) as int)
    } else {
        tracks.len() - audio_count(tracks)
    }
}

pub open spec fn track_list(
    tracks: Seq<Track>,
    media: Seq<MediaView>,
    base: Timebase,
    project: Project,
    fps: Fps,
) -> Seq<EventView>
    decreases tracks.len(),
{
    if tracks.len() == 0 {
        seq![]
    } else {
        track_list(tracks.drop_last(), media, base, project, fps) + entry_list(
            entries_of(tracks.last().clips@, fps),
            media,
            lane_of_last(tracks),
            base,
            project,
        )
    }
}

pub open spec fn resource_events(needs: Needs, base: Timebase, fps: Fps) -> Seq<EventView> {
    seq![
        EventView::Decl { encoding: "UTF-8"@ },
        EventView::DocType("fcpxml"@),
        start("fcpxml"@, seq![attr("version"@, FCPXML_VERSION@)]),
        start("resources"@, seq![]),
    ] + format_list(needs.formats) + media_list(needs.media, base, fps) + seq![end("resources"@)]
}

/// The elements around the timeline, from the library to the gap that everything hangs on.
pub open spec fn frame_events(
    project: Project,
    sequence: Sequence,
    root: Seq<char>,
    base: Timebase,
) -> Seq<EventView> {
    let total = base.instant(document_frames(sequence));
    seq![
        start("library"@, seq![attr("location"@, url_of(root))]),
        start("event"@, seq![attr("name"@, project.name@)]),
        start("project"@, seq![attr("name"@, sequence.name@)]),
        start(
            "sequence"@,
            seq![
                attr("format"@, "r1"@),
                attr("duration"@, total),
                attr("tcStart"@, "0s"@),
                attr("tcFormat"@, "NDF"@),
                attr(
                    "audioLayout"@,
                    if sequence.channels > 1 {
                        "stereo"@
                    } else {
                        "mono"@
                    },
                ),
                attr("audioRate"@, dec((sequence.sample_rate / 1000) as nat) + "k"@),
            ],
        ),
        start("spine"@, seq![]),
        start(
            "gap"@,
            seq![
                attr("name"@, sequence.name@ + " timeline"@),
                attr("offset"@, "0s"@),
                attr("start"@, "0s"@),
                attr("duration"@, total),
            ],
        ),
    ]
}

pub open spec fn closing_events() -> Seq<EventView> {
    seq![
        end("gap"@),
        end("spine"@),
        end("sequence"@),
        end("project"@),
        end("event"@),
        end("library"@),
        end("fcpxml"@),
    ]
}

/// The whole document.
pub open spec fn document_events(
    project: Project,
    sequence: Sequence,
    root: Seq<char>,
) -> Seq<EventView> {
    let base = Timebase::of_rate(sequence.fps);
    let needs = needs_of(project, sequence);
    resource_events(needs, base, sequence.fps) + frame_events(project, sequence, root, base)
        + track_list(clip_tracks(sequence.tracks@), needs.media, base, project, sequence.fps)
        + closing_events()
}

/// Why a sequence has no document, if it has none.
pub open spec fn document_error(project: Project, id: Seq<char>) -> Option<ErrorView> {
    crate::mlt_document::document_error(project, id)
}

/// Whether what a clip reads can be measured in frames.
pub open spec fn clip_fits(project: Project, clip: Clip, fps: Fps) -> bool {
    (source_error(project, clip) is None && resource_of(project, clip) is File) ==> {
        let asset = *resource_of(project, clip)->asset;
        &&& asset_fits(asset, fps, None)
        &&& asset.probe.video is Some ==> asset.probe.video->0.sar.wf()
    }
}

pub open spec fn document_fits(project: Project, sequence: Sequence) -> bool {
    &&& sequence_fits(sequence)
    &&& forall|i: int, k: int|
        0 <= i < sequence.tracks@.len() && sequence.tracks@[i].kind != TrackKind::Caption && 0 <= k
            < sequence.tracks@[i].clips@.len() ==> clip_fits(
            project,
            #[trigger] sequence.tracks@[i].clips@[k],
            sequence.fps,
        )
}

// ---------------------------------------------------------------------------
// Emission
// ---------------------------------------------------------------------------

/// What the clips seen so far need.
pub struct Gathered<'a> {
    pub formats: Vec<Format>,
    pub media: Vec<Media<'a>>,
    pub next: u128,
    pub warnings: Vec<Warning>,
}

impl<'a> View for Gathered<'a> {
    type V = Needs;

    open spec fn view(&self) -> Needs {
        Needs {
            formats: views(self.formats@),
            media: views(self.media@),
            next: self.next as int,
            warnings: views(self.warnings@),
        }
    }
}

fn find_format(formats: &Vec<Format>, size: [u32; 2], fps: Fps) -> (r: Option<usize>)
    ensures
        r is Some <==> format_at(views(formats@), size, fps) >= 0,
        r is Some ==> r->0 == format_at(views(formats@), size, fps) && r->0 < formats@.len(),
{
    let ghost all = views(formats@);
    let mut found: Option<usize> = None;
    let mut i: usize = 0;
    assert(all.take(0) =~= seq![]);
    while i < formats.len()
        invariant
            i <= formats@.len(),
            all == views(formats@),
            found is Some <==> format_at(all.take(i as int), size, fps) >= 0,
            found is Some ==> found->0 == format_at(all.take(i as int), size, fps) && found->0 < i,
        decreases formats@.len() - i,
    {
        proof {
            assert(all.take(i + 1).drop_last() =~= all.take(i as int));
            assert(all.take(i + 1).last() == formats@[i as int]@);
        }
        if found.is_none() && formats[i].size[0] == size[0] && formats[i].size[1] == size[1]
            && formats[i].fps == fps {
            found = Some(i);
        }
        i = i + 1;
    }
    assert(all.take(i as int) =~= all);
    found
}

fn resource_name(n: u128) -> (r: String)
    ensures
        r@ == resource_id(n as int),
{
    let mut id = "r".to_owned();
    id.append(decimal(n).as_str());
    id
}

/// The format for an asset, added where no other suits its picture.
fn format_for(formats: &mut Vec<Format>, next: u128, asset: &Asset, fps: Fps) -> (r: (u128, String))
    requires
        old(formats)@.len() > 0,
        next < u128::MAX - 1,
        asset.probe.video is Some ==> asset.probe.video->0.sar.wf(),
        fps.wf(),
    ensures
        (views(final(formats)@), r.0 as int, r.1@) == with_format(
            views(old(formats)@),
            next as int,
            *asset,
            fps,
        ),
        final(formats)@.len() > 0,
        r.0 - next == final(formats)@.len() - old(formats)@.len(),
{
    assert(views(formats@)[0] == formats@[0]@);
    match &asset.probe.video {
        None => (next, formats[0].id.clone()),
        Some(video) => {
            let size = video.display_size();
            match find_format(formats, size, video.fps) {
                Some(at) => {
                    assert(views(formats@)[at as int] == formats@[at as int]@);
                    (next, formats[at].id.clone())
                },
                None => {
                    let id = resource_name(next);
                    let rate = if video.fps.rate.num > 0 && video.fps.rate.den > 0 {
                        video.fps
                    } else {
                        fps
                    };
                    push_view(formats, Format { id: id.clone(), size, fps: rate });
                    (next + 1, id)
                },
            }
        },
    }
}

fn find_media(media: &Vec<Media<'_>>, hash: &str) -> (r: Option<usize>)
    ensures
        r is Some <==> index_of(media_hashes(views(media@)), hash@) >= 0,
        r is Some ==> r->0 == index_of(media_hashes(views(media@)), hash@) && r->0 < media@.len(),
{
    let ghost hashes = media_hashes(views(media@));
    let mut i: usize = 0;
    while i < media.len()
        invariant
            i <= media@.len(),
            hashes == media_hashes(views(media@)),
            forall|k: int| 0 <= k < i ==> hashes[k] != hash@,
        decreases media@.len() - i,
    {
        assert(hashes[i as int] == media@[i as int].asset.hash@);
        if same(media[i].asset.hash.as_str(), hash) {
            proof {
                crate::project::lemma_index_of_is(hashes, hash@, i as int);
            }
            return Some(i);
        }
        i = i + 1;
    }
    proof {
        crate::project::lemma_index_of_none(hashes, hash@);
    }
    None
}

/// Whether every file among the needs can be measured, and every format has a rate.
spec fn needs_ok(st: Needs, fps: Fps) -> bool {
    &&& st.formats.len() > 0
    &&& st.next == 1 + st.formats.len() + st.media.len()
    &&& forall|k: int| 0 <= k < st.formats.len() ==> (#[trigger] st.formats[k]).fps.wf()
    &&& forall|k: int|
        0 <= k < st.media.len() ==> asset_fits((#[trigger] st.media[k]).asset, fps, None)
}

fn gather_clip<'a>(st: &mut Gathered<'a>, clip: &Clip, project: &'a Project, fps: Fps) -> (r: Result<
    (),
    Error,
>)
    requires
        needs_ok(old(st)@, fps),
        fps.wf(),
        clip_fits(*project, *clip, fps),
    ensures
        r is Err <==> source_error(*project, *clip) is Some,
        r is Err ==> Some(r->Err_0@) == source_error(*project, *clip),
        r is Ok ==> final(st)@ == with_clip(old(st)@, *clip, *project, fps),
        r is Ok ==> needs_ok(final(st)@, fps),
{
    let ghost before = st@;
    let (resource, warning) = match resolve_source(project, clip) {
        Ok(found) => found,
        Err(error) => {
            return Err(error);
        },
    };
    extend(&mut st.warnings, feature_warnings(clip, "FCPXML"));
    push_warning(&mut st.warnings, retime_warning(clip, "FCPXML"));
    push_warning(&mut st.warnings, warning);
    if let Resource::File { asset } = resource {
        if find_media(&st.media, asset.hash.as_str()).is_none() {
            let pictures: usize = st.formats.len();
            let files: usize = st.media.len();
            assert(before.formats.len() == pictures && before.media.len() == files);
            let (next, format) = format_for(&mut st.formats, st.next, asset, fps);
            push_view(&mut st.media, Media { id: resource_name(next), format, asset });
            st.next = next + 1;
            proof {
                assert(st@ == with_clip(before, *clip, *project, fps));
                assert forall|k: int| 0 <= k < st@.formats.len() implies (
                #[trigger] st@.formats[k]).fps.wf() by {
                    if k < before.formats.len() {
                        assert(st@.formats[k] == before.formats[k]);
                    }
                }
                assert forall|k: int| 0 <= k < st@.media.len() implies asset_fits(
                    (#[trigger] st@.media[k]).asset,
                    fps,
                    None,
                ) by {
                    if k < before.media.len() {
                        assert(st@.media[k] == before.media[k]);
                    }
                }
            }
        }
    }
    Ok(())
}

fn gather_track<'a>(
    st: &mut Gathered<'a>,
    flat: &FlatTrack<'a>,
    project: &'a Project,
    fps: Fps,
) -> (r: Result<(), Error>)
    requires
        needs_ok(old(st)@, fps),
        fps.wf(),
        flattens(*flat, *flat.track, fps),
        on_grid(flat.track.clips@, fps),
        forall|k: int|
            0 <= k < flat.track.clips@.len() ==> clip_fits(
                *project,
                #[trigger] flat.track.clips@[k],
                fps,
            ),
    ensures
        r is Err <==> entries_error(flat.entries@, *project) is Some,
        r is Err ==> Some(r->Err_0@) == entries_error(flat.entries@, *project),
        r is Ok ==> final(st)@ == with_entries(old(st)@, flat.entries@, *project, fps),
        r is Ok ==> needs_ok(final(st)@, fps),
{
    let ghost start = st@;
    let ghost clips = flat.track.clips@;
    let mut i: usize = 0;
    assert(flat.entries@.take(0) =~= seq![]);
    while i < flat.entries.len()
        invariant
            i <= flat.entries@.len(),
            fps.wf(),
            clips == flat.track.clips@,
            flat.entries@ == entries_of(clips, fps),
            on_grid(clips, fps),
            forall|k: int| 0 <= k < clips.len() ==> clip_fits(*project, #[trigger] clips[k], fps),
            needs_ok(st@, fps),
            st@ == with_entries(start, flat.entries@.take(i as int), *project, fps),
            entries_error(flat.entries@.take(i as int), *project) is None,
        decreases flat.entries@.len() - i,
    {
        proof {
            assert(flat.entries@.take(i + 1).drop_last() =~= flat.entries@.take(i as int));
        }
        if let Entry::Clip(placed) = &flat.entries[i] {
            proof {
                crate::timeline::lemma_placed(clips, fps, i as int);
                let k = choose|k: int| 0 <= k < clips.len() && clips[k] == *placed.clip;
                assert(clip_fits(*project, clips[k], fps));
            }
            match gather_clip(st, placed.clip, project, fps) {
                Ok(()) => {},
                Err(error) => {
                    proof {
                        lemma_entries_error(flat.entries@, *project, i + 1);
                    }
                    return Err(error);
                },
            }
        }
        i = i + 1;
    }
    assert(flat.entries@.take(i as int) =~= flat.entries@);
    Ok(())
}

fn uid_of(hash: &str) -> (r: String)
    ensures
        r@ == uid_text(hash@),
{
    let chars = chars_of(drop_prefixes(hash, "blake3:").as_str());
    let n: usize = chars.len();
    let mut out = String::new();
    let mut kept: usize = 0;
    let mut i: usize = 0;
    assert(chars@.skip(0) =~= chars@);
    assert(out@ + hex_digits(chars@.skip(0), 32) =~= hex_digits(chars@, 32));
    while i < n && kept < 32
        invariant
            i <= n,
            n == chars@.len(),
            kept <= 32,
            out@ + hex_digits(chars@.skip(i as int), (32 - kept) as nat) == hex_digits(chars@, 32),
        decreases n - i,
    {
        proof {
            assert(chars@.skip(i as int)[0] == chars@[i as int]);
            assert(chars@.skip(i as int).skip(1) =~= chars@.skip(i + 1));
        }
        let ghost before = out@;
        if hex_digit(chars[i]) {
            push_char(&mut out, raise_char(chars[i]));
            kept = kept + 1;
            assert(out@ + hex_digits(chars@.skip(i + 1), (32 - kept) as nat) =~= before + (seq![
                raise(chars@[i as int]),
            ] + hex_digits(chars@.skip(i + 1), (32 - kept) as nat)));
        }
        i = i + 1;
    }
    assert(out@ + Seq::<char>::empty() =~= out@);
    out
}

fn write_formats(formats: &Vec<Format>) -> (r: Vec<XmlEvent>)
    requires
        forall|k: int| 0 <= k < formats@.len() ==> (#[trigger] views(formats@)[k]).fps.wf(),
    ensures
        views(r@) == format_list(views(formats@)),
{
    let ghost all = views(formats@);
    let mut out: Vec<XmlEvent> = Vec::new();
    let mut i: usize = 0;
    assert(all.take(0) =~= seq![]);
    assert(views(out@) =~= seq![]);
    while i < formats.len()
        invariant
            i <= formats@.len(),
            all == views(formats@),
            forall|k: int| 0 <= k < formats@.len() ==> (#[trigger] all[k]).fps.wf(),
            views(out@) == format_list(all.take(i as int)),
        decreases formats@.len() - i,
    {
        let format = &formats[i];
        proof {
            assert(all.take(i + 1).drop_last() =~= all.take(i as int));
            assert(all[i as int] == formats@[i as int]@);
        }
        let mut attrs: Vec<XmlAttr> = Vec::new();
        push_attr(&mut attrs, "id", format.id.as_str());
        push_attr(&mut attrs, "name", format.name().as_str());
        let base = Timebase::of(format.fps);
        push_attr(&mut attrs, "frameDuration", base.frame_duration().as_str());
        push_attr(&mut attrs, "width", decimal(format.size[0] as u128).as_str());
        push_attr(&mut attrs, "height", decimal(format.size[1] as u128).as_str());
        push_attr(&mut attrs, "colorSpace", "1-1-1 (Rec. 709)");
        assert(views(attrs@) =~= format_event(format@)->Empty_attrs);
        push_empty(&mut out, "format", attrs);
        i = i + 1;
    }
    assert(all.take(i as int) =~= all);
    out
}

fn flag_text(b: bool) -> (r: &'static str)
    ensures
        r@ == flag(b),
{
    if b {
        "1"
    } else {
        "0"
    }
}

fn write_media_item(item: &Media<'_>, base: Timebase, fps: Fps) -> (r: Vec<XmlEvent>)
    requires
        fps.wf(),
        asset_fits(*item.asset, fps, None),
    ensures
        views(r@) == media_events(item@, base, fps),
{
    let asset = item.asset;
    let ceiling: i64 = asset.probe.duration.frame_ceil(fps);
    let frames: i64 = if ceiling >= 1 {
        ceiling
    } else {
        1
    };
    let mut attrs: Vec<XmlAttr> = Vec::new();
    push_attr(&mut attrs, "id", item.id.as_str());
    push_attr(&mut attrs, "name", asset.name.as_str());
    push_attr(&mut attrs, "uid", uid_of(asset.hash.as_str()).as_str());
    push_attr(&mut attrs, "start", "0s");
    push_attr(&mut attrs, "duration", base.at(frames).as_str());
    push_attr(&mut attrs, "hasVideo", flag_text(asset.probe.video.is_some()));
    push_attr(&mut attrs, "hasAudio", flag_text(asset.probe.audio.is_some()));
    push_attr(&mut attrs, "format", item.format.as_str());
    if asset.probe.video.is_some() {
        push_attr(&mut attrs, "videoSources", "1");
    }
    if let Some(audio) = &asset.probe.audio {
        push_attr(&mut attrs, "audioSources", "1");
        push_attr(&mut attrs, "audioChannels", decimal(audio.channels as u128).as_str());
        push_attr(&mut attrs, "audioRate", decimal(audio.rate as u128).as_str());
    }
    assert(views(attrs@) =~= media_attrs(item@, base, fps));
    let path: &str = match &asset.path {
        Some(path) => path.as_str(),
        None => "",
    };
    proof {
        reveal_strlit("");
        assert(path@ =~= path_of(*asset));
    }
    let mut out: Vec<XmlEvent> = Vec::new();
    push_start(&mut out, "asset", attrs);
    push_empty(
        &mut out,
        "media-rep",
        attrs2("kind", "original-media", "src", file_url(path).as_str()),
    );
    push_end(&mut out, "asset");
    assert(views(out@) =~= media_events(item@, base, fps));
    out
}

fn write_media(media: &Vec<Media<'_>>, base: Timebase, fps: Fps) -> (r: Vec<XmlEvent>)
    requires
        fps.wf(),
        forall|k: int|
            0 <= k < media@.len() ==> asset_fits((#[trigger] views(media@)[k]).asset, fps, None),
    ensures
        views(r@) == media_list(views(media@), base, fps),
{
    let ghost all = views(media@);
    let mut out: Vec<XmlEvent> = Vec::new();
    let mut i: usize = 0;
    assert(all.take(0) =~= seq![]);
    assert(views(out@) =~= seq![]);
    while i < media.len()
        invariant
            i <= media@.len(),
            fps.wf(),
            all == views(media@),
            forall|k: int|
                0 <= k < media@.len() ==> asset_fits((#[trigger] all[k]).asset, fps, None),
            views(out@) == media_list(all.take(i as int), base, fps),
        decreases media@.len() - i,
    {
        proof {
            assert(all.take(i + 1).drop_last() =~= all.take(i as int));
            assert(all[i as int] == media@[i as int]@);
        }
        extend(&mut out, write_media_item(&media[i], base, fps));
        i = i + 1;
    }
    assert(all.take(i as int) =~= all);
    out
}

/// Whether every file of some entries is among the media.
spec fn covered(entries: Seq<Entry>, media: Seq<MediaView>, project: Project) -> bool {
    forall|k: int|
        0 <= k < entries.len() && (#[trigger] entries[k]) is Clip && resource_of(
            project,
            *entries[k]->Clip_0.clip,
        ) is File ==> index_of(
            media_hashes(media),
            resource_of(project, *entries[k]->Clip_0.clip)->asset.hash@,
        ) >= 0
}

fn write_clip(
    placed: &Placed<'_>,
    media: &Vec<Media<'_>>,
    lane: i128,
    base: Timebase,
    project: &Project,
) -> (r: XmlEvent)
    requires
        source_error(*project, *placed.clip) is None,
        resource_of(*project, *placed.clip) is File ==> index_of(
            media_hashes(views(media@)),
            resource_of(*project, *placed.clip)->asset.hash@,
        ) >= 0,
        lane > i128::MIN,
    ensures
        r@ == clip_event(*placed, views(media@), lane as int, base, *project),
{
    let name = placed.label();
    let mut number = String::new();
    push_int(&mut number, lane);
    assert(number@ =~= dec_int(lane as int));
    let mut attrs: Vec<XmlAttr> = Vec::new();
    match resolve_source(project, placed.clip) {
        Ok((Resource::File { asset }, _)) => {
            let at: usize = match find_media(media, asset.hash.as_str()) {
                Some(at) => at,
                None => 0,
            };
            assert(views(media@)[at as int] == media@[at as int]@);
            push_attr(&mut attrs, "ref", media[at].id.as_str());
            push_attr(&mut attrs, "lane", number.as_str());
            push_attr(&mut attrs, "offset", base.at(placed.start).as_str());
            push_attr(&mut attrs, "name", name.as_str());
            push_attr(&mut attrs, "start", base.at(placed.source_in).as_str());
            push_attr(&mut attrs, "duration", base.at(placed.frames).as_str());
            push_attr(&mut attrs, "format", media[at].format.as_str());
            push_attr(&mut attrs, "tcFormat", "NDF");
            if placed.clip.enabled {
                push_attr(&mut attrs, "enabled", "1");
            }
            assert(views(attrs@) =~= asset_clip_attrs(
                *placed,
                media@[at as int]@,
                lane as int,
                base,
            ));
            XmlEvent::Empty { name: "asset-clip".to_owned(), attrs }
        },
        _ => {
            push_attr(&mut attrs, "name", name.as_str());
            push_attr(&mut attrs, "lane", number.as_str());
            push_attr(&mut attrs, "offset", base.at(placed.start).as_str());
            push_attr(&mut attrs, "start", "0s");
            push_attr(&mut attrs, "duration", base.at(placed.frames).as_str());
            assert(views(attrs@) =~= gap_attrs(*placed, lane as int, base));
            XmlEvent::Empty { name: "gap".to_owned(), attrs }
        },
    }
}

fn write_entries(
    entries: &Vec<Entry<'_>>,
    media: &Vec<Media<'_>>,
    lane: i128,
    base: Timebase,
    project: &Project,
) -> (r: Vec<XmlEvent>)
    requires
        entries_error(entries@, *project) is None,
        covered(entries@, views(media@), *project),
        lane > i128::MIN,
    ensures
        views(r@) == entry_list(entries@, views(media@), lane as int, base, *project),
{
    let mut out: Vec<XmlEvent> = Vec::new();
    let mut i: usize = 0;
    assert(entries@.take(0) =~= seq![]);
    assert(views(out@) =~= seq![]);
    while i < entries.len()
        invariant
            i <= entries@.len(),
            entries_error(entries@, *project) is None,
            covered(entries@, views(media@), *project),
            lane > i128::MIN,
            views(out@) == entry_list(
                entries@.take(i as int),
                views(media@),
                lane as int,
                base,
                *project,
            ),
        decreases entries@.len() - i,
    {
        proof {
            assert(entries@.take(i + 1).drop_last() =~= entries@.take(i as int));
            if entries_error(entries@.take(i + 1), *project) is Some {
                lemma_entries_error(entries@, *project, i + 1);
            }
        }
        if let Entry::Clip(placed) = &entries[i] {
            assert(entries@[i as int] is Clip);
            push_event(&mut out, write_clip(placed, media, lane, base, project));
        }
        i = i + 1;
    }
    assert(entries@.take(i as int) =~= entries@);
    out
}

/// Whether a file's content is among the media.
pub open spec fn known(media: Seq<MediaView>, hash: Seq<char>) -> bool {
    index_of(media_hashes(media), hash) >= 0
}

proof fn lemma_known_push(media: Seq<MediaView>, item: MediaView, hash: Seq<char>)
    requires
        known(media, hash) || item.asset.hash@ == hash,
    ensures
        known(media.push(item), hash),
{
    let before = media_hashes(media);
    let after = media_hashes(media.push(item));
    crate::project::lemma_index_of(before, hash);
    crate::project::lemma_index_of(after, hash);
    if known(media, hash) {
        let at = index_of(before, hash);
        assert(after[at] == before[at]);
        assert(after.contains(hash));
    } else {
        assert(after[media.len() as int] == hash);
        assert(after.contains(hash));
    }
}

proof fn lemma_clip_known(st: Needs, clip: Clip, project: Project, fps: Fps, hash: Seq<char>)
    requires
        known(st.media, hash) || (resource_of(project, clip) is File && resource_of(
            project,
            clip,
        )->asset.hash@ == hash),
    ensures
        known(with_clip(st, clip, project, fps).media, hash),
{
    if let Resource::File { asset } = resource_of(project, clip) {
        if !known(st.media, asset.hash@) {
            let (formats, next, format) = with_format(st.formats, st.next, *asset, fps);
            lemma_known_push(
                st.media,
                MediaView { id: resource_id(next), format, asset: *asset },
                hash,
            );
        }
    }
}

proof fn lemma_entries_known(
    st: Needs,
    entries: Seq<Entry>,
    project: Project,
    fps: Fps,
    hash: Seq<char>,
)
    requires
        known(st.media, hash) || exists|k: int|
            0 <= k < entries.len() && (#[trigger] entries[k]) is Clip && resource_of(
                project,
                *entries[k]->Clip_0.clip,
            ) is File && resource_of(project, *entries[k]->Clip_0.clip)->asset.hash@ == hash,
    ensures
        known(with_entries(st, entries, project, fps).media, hash),
    decreases entries.len(),
{
    if entries.len() > 0 {
        let rest = entries.drop_last();
        let before = with_entries(st, rest, project, fps);
        if !known(st.media, hash) {
            let k = choose|k: int|
                0 <= k < entries.len() && (#[trigger] entries[k]) is Clip && resource_of(
                    project,
                    *entries[k]->Clip_0.clip,
                ) is File && resource_of(project, *entries[k]->Clip_0.clip)->asset.hash@ == hash;
            if k < rest.len() {
                assert(rest[k] == entries[k]);
                lemma_entries_known(st, rest, project, fps, hash);
            }
        } else {
            lemma_entries_known(st, rest, project, fps, hash);
        }
        if let Entry::Clip(placed) = entries.last() {
            lemma_clip_known(before, *placed.clip, project, fps, hash);
        }
    }
}

proof fn lemma_tracks_known(
    st: Needs,
    tracks: Seq<Track>,
    project: Project,
    fps: Fps,
    t: int,
    hash: Seq<char>,
)
    requires
        known(st.media, hash) || (0 <= t < tracks.len() && exists|k: int|
            0 <= k < entries_of(tracks[t].clips@, fps).len() && (#[trigger] entries_of(
                tracks[t].clips@,
                fps,
            )[k]) is Clip && resource_of(
                project,
                *entries_of(tracks[t].clips@, fps)[k]->Clip_0.clip,
            ) is File && resource_of(
                project,
                *entries_of(tracks[t].clips@, fps)[k]->Clip_0.clip,
            )->asset.hash@ == hash),
    ensures
        known(with_tracks(st, tracks, project, fps).media, hash),
    decreases tracks.len(),
{
    if tracks.len() > 0 {
        let rest = tracks.drop_last();
        if known(st.media, hash) || t < rest.len() {
            if t < rest.len() && !known(st.media, hash) {
                assert(rest[t] == tracks[t]);
            }
            lemma_tracks_known(st, rest, project, fps, t, hash);
        } else {
            assert(tracks[t] == tracks.last());
        }
        lemma_entries_known(
            with_tracks(st, rest, project, fps),
            entries_of(tracks.last().clips@, fps),
            project,
            fps,
            hash,
        );
    }
}

/// Every file that a clip of the sequence reads is a resource of the document.
pub proof fn law_every_file_is_a_resource(project: Project, sequence: Sequence, t: int, k: int)
    requires
        0 <= t < clip_tracks(sequence.tracks@).len(),
        0 <= k < entries_of(clip_tracks(sequence.tracks@)[t].clips@, sequence.fps).len(),
        entries_of(clip_tracks(sequence.tracks@)[t].clips@, sequence.fps)[k] is Clip,
        resource_of(
            project,
            *entries_of(
                clip_tracks(sequence.tracks@)[t].clips@,
                sequence.fps,
            )[k]->Clip_0.clip,
        ) is File,
    ensures
        known(
            needs_of(project, sequence).media,
            resource_of(
                project,
                *entries_of(
                    clip_tracks(sequence.tracks@)[t].clips@,
                    sequence.fps,
                )[k]->Clip_0.clip,
            )->asset.hash@,
        ),
{
    let tracks = clip_tracks(sequence.tracks@);
    lemma_tracks_known(
        Needs {
            formats: seq![FormatView { id: "r1"@, size: sequence.size, fps: sequence.fps }],
            media: seq![],
            next: 2,
            warnings: all_placing_warnings(tracks, sequence.fps) + losses(
                sequence,
                "FCPXML"@,
                kept_by_fcpxml(),
            ),
        },
        tracks,
        project,
        sequence.fps,
        t,
        resource_of(
            project,
            *entries_of(tracks[t].clips@, sequence.fps)[k]->Clip_0.clip,
        )->asset.hash@,
    );
}

/// Everything that a sequence needs.
fn gather<'a>(flat: &Vec<FlatTrack<'a>>, sequence: &'a Sequence, project: &'a Project) -> (r: Result<
    Gathered<'a>,
    Error,
>)
    requires
        document_fits(*project, *sequence),
        is_flat(flat@, *sequence),
    ensures
        r is Err <==> tracks_error(clip_tracks(sequence.tracks@), *project, sequence.fps) is Some,
        r is Err ==> Some(r->Err_0@) == tracks_error(
            clip_tracks(sequence.tracks@),
            *project,
            sequence.fps,
        ),
        r is Ok ==> r->Ok_0@ == needs_of(*project, *sequence),
        r is Ok ==> needs_ok(r->Ok_0@, sequence.fps),
{
    let fps = sequence.fps;
    let ghost tracks = clip_tracks(sequence.tracks@);
    let mut formats: Vec<Format> = Vec::new();
    formats.push(Format { id: "r1".to_owned(), size: sequence.size, fps });
    let mut warnings = placed_warnings(flat, sequence);
    extend(&mut warnings, loss_warnings(sequence, "FCPXML", fcpxml_kept()));
    let mut st = Gathered { formats, media: Vec::new(), next: 2, warnings };
    let ghost start = st@;
    let mut t: usize = 0;
    proof {
        assert(tracks.take(0) =~= seq![]);
        assert(start.formats =~= seq![
            FormatView { id: "r1"@, size: sequence.size, fps: sequence.fps },
        ]);
        assert(start.media =~= seq![]);
    }
    while t < flat.len()
        invariant
            t <= flat@.len(),
            document_fits(*project, *sequence),
            is_flat(flat@, *sequence),
            fps == sequence.fps,
            tracks == clip_tracks(sequence.tracks@),
            needs_ok(st@, fps),
            st@ == with_tracks(start, tracks.take(t as int), *project, fps),
            tracks_error(tracks.take(t as int), *project, fps) is None,
        decreases flat@.len() - t,
    {
        let ghost flat_track = flat@[t as int];
        proof {
            assert(tracks.take(t + 1).drop_last() =~= tracks.take(t as int));
            assert(flattens(flat@[t as int], tracks[t as int], fps));
            lemma_clip_tracks(sequence.tracks@, t as int);
            let k = choose|k: int|
                0 <= k < sequence.tracks@.len() && #[trigger] sequence.tracks@[k]
                    == tracks[t as int] && sequence.tracks@[k].kind != TrackKind::Caption;
            assert(track_fits(sequence.tracks@[k], fps));
            assert forall|c: int| 0 <= c < flat_track.track.clips@.len() implies clip_fits(
                *project,
                #[trigger] flat_track.track.clips@[c],
                fps,
            ) by {
                assert(clip_fits(*project, sequence.tracks@[k].clips@[c], fps));
            }
        }
        match gather_track(&mut st, &flat[t], project, fps) {
            Ok(()) => {},
            Err(error) => {
                proof {
                    crate::mlt_document::lemma_tracks_error(tracks, *project, fps, t + 1);
                }
                return Err(error);
            },
        }
        t = t + 1;
    }
    assert(tracks.take(t as int) =~= tracks);
    Ok(st)
}

fn lane_for(audio: bool, audio_tracks: i128, tracks: i128) -> (r: i128)
    requires
        0 <= audio_tracks <= tracks <= 0x1_0000_0000_0000_0000,
    ensures
        r == (if audio {
            -audio_tracks
        } else {
            tracks - audio_tracks
        }),
{
    if audio {
        -audio_tracks
    } else {
        tracks - audio_tracks
    }
}

fn write_tracks(
    flat: &Vec<FlatTrack<'_>>,
    sequence: &Sequence,
    media: &Vec<Media<'_>>,
    base: Timebase,
    project: &Project,
) -> (r: Vec<XmlEvent>)
    requires
        is_flat(flat@, *sequence),
        tracks_error(clip_tracks(sequence.tracks@), *project, sequence.fps) is None,
        views(media@) == needs_of(*project, *sequence).media,
    ensures
        views(r@) == track_list(
            clip_tracks(sequence.tracks@),
            views(media@),
            base,
            *project,
            sequence.fps,
        ),
{
    let ghost fps = sequence.fps;
    let ghost tracks = clip_tracks(sequence.tracks@);
    let mut out: Vec<XmlEvent> = Vec::new();
    let mut audio: i128 = 0;
    let mut t: usize = 0;
    assert(tracks.take(0) =~= seq![]);
    assert(views(out@) =~= seq![]);
    while t < flat.len()
        invariant
            t <= flat@.len(),
            is_flat(flat@, *sequence),
            fps == sequence.fps,
            tracks == clip_tracks(sequence.tracks@),
            tracks_error(tracks, *project, fps) is None,
            views(media@) == needs_of(*project, *sequence).media,
            audio == audio_count(tracks.take(t as int)),
            0 <= audio <= t,
            views(out@) == track_list(tracks.take(t as int), views(media@), base, *project, fps),
        decreases flat@.len() - t,
    {
        let total: usize = flat.len();
        let ghost seen = tracks.take(t + 1);
        let ghost entries = flat@[t as int].entries@;
        proof {
            assert(seen.drop_last() =~= tracks.take(t as int));
            assert(seen.last() == tracks[t as int]);
            assert(flattens(flat@[t as int], tracks[t as int], fps));
            if tracks_error(seen, *project, fps) is Some {
                crate::mlt_document::lemma_tracks_error(tracks, *project, fps, t + 1);
            }
            assert(tracks_error(seen.drop_last(), *project, fps) is None) by {
                if tracks_error(seen.drop_last(), *project, fps) is Some {
                    assert(tracks_error(seen, *project, fps) is Some);
                }
            }
            assert forall|k: int|
                0 <= k < entries.len() && (#[trigger] entries[k]) is Clip && resource_of(
                    *project,
                    *entries[k]->Clip_0.clip,
                ) is File implies index_of(
                media_hashes(views(media@)),
                resource_of(*project, *entries[k]->Clip_0.clip)->asset.hash@,
            ) >= 0 by {
                law_every_file_is_a_resource(*project, *sequence, t as int, k);
            }
        }
        let is_audio = flat[t].track.kind == TrackKind::Audio;
        if is_audio {
            audio = audio + 1;
        }
        let lane: i128 = lane_for(is_audio, audio, t as i128 + 1);
        assert(lane == lane_of_last(seen));
        extend(&mut out, write_entries(&flat[t].entries, media, lane, base, project));
        t = t + 1;
    }
    assert(tracks.take(t as int) =~= tracks);
    out
}

fn write_resources(st: &Gathered<'_>, base: Timebase, fps: Fps) -> (r: Vec<XmlEvent>)
    requires
        needs_ok(st@, fps),
        fps.wf(),
    ensures
        views(r@) == resource_events(st@, base, fps),
{
    let mut out: Vec<XmlEvent> = Vec::new();
    push_event(&mut out, XmlEvent::Decl { encoding: "UTF-8".to_owned() });
    push_event(&mut out, XmlEvent::DocType("fcpxml".to_owned()));
    push_start(&mut out, "fcpxml", attrs1("version", FCPXML_VERSION));
    let none: Vec<XmlAttr> = Vec::new();
    assert(views(none@) =~= seq![]);
    push_start(&mut out, "resources", none);
    assert(views(out@) =~= seq![
        EventView::Decl { encoding: "UTF-8"@ },
        EventView::DocType("fcpxml"@),
        start("fcpxml"@, seq![attr("version"@, FCPXML_VERSION@)]),
        start("resources"@, seq![]),
    ]);
    extend(&mut out, write_formats(&st.formats));
    extend(&mut out, write_media(&st.media, base, fps));
    let ghost before = views(out@);
    push_end(&mut out, "resources");
    assert(views(out@) =~= before + seq![end("resources"@)]);
    out
}

fn write_frame(
    project: &Project,
    sequence: &Sequence,
    root: &str,
    base: Timebase,
    frames: i64,
) -> (r: Vec<XmlEvent>)
    requires
        frames == document_frames(*sequence),
    ensures
        views(r@) == frame_events(*project, *sequence, root@, base),
{
    let total = base.at(frames);
    let mut out: Vec<XmlEvent> = Vec::new();
    push_start(&mut out, "library", attrs1("location", file_url(root).as_str()));
    push_start(&mut out, "event", attrs1("name", project.name.as_str()));
    push_start(&mut out, "project", attrs1("name", sequence.name.as_str()));
    let mut attrs: Vec<XmlAttr> = Vec::new();
    push_attr(&mut attrs, "format", "r1");
    push_attr(&mut attrs, "duration", total.as_str());
    push_attr(&mut attrs, "tcStart", "0s");
    push_attr(&mut attrs, "tcFormat", "NDF");
    let layout: &str = if sequence.channels > 1 {
        "stereo"
    } else {
        "mono"
    };
    push_attr(&mut attrs, "audioLayout", layout);
    let mut rate = decimal((sequence.sample_rate / 1000) as u128);
    rate.append("k");
    push_attr(&mut attrs, "audioRate", rate.as_str());
    let ghost want = frame_events(*project, *sequence, root@, base);
    assert(views(attrs@) =~= want[3]->Start_attrs);
    push_start(&mut out, "sequence", attrs);
    let none: Vec<XmlAttr> = Vec::new();
    assert(views(none@) =~= seq![]);
    push_start(&mut out, "spine", none);
    let mut name = sequence.name.clone();
    name.append(" timeline");
    let mut attrs: Vec<XmlAttr> = Vec::new();
    push_attr(&mut attrs, "name", name.as_str());
    push_attr(&mut attrs, "offset", "0s");
    push_attr(&mut attrs, "start", "0s");
    push_attr(&mut attrs, "duration", total.as_str());
    assert(views(attrs@) =~= want[5]->Start_attrs);
    push_start(&mut out, "gap", attrs);
    assert(views(out@) =~= want);
    out
}

fn write_closing() -> (r: Vec<XmlEvent>)
    ensures
        views(r@) == closing_events(),
{
    let mut out: Vec<XmlEvent> = Vec::new();
    push_end(&mut out, "gap");
    push_end(&mut out, "spine");
    push_end(&mut out, "sequence");
    push_end(&mut out, "project");
    push_end(&mut out, "event");
    push_end(&mut out, "library");
    push_end(&mut out, "fcpxml");
    assert(views(out@) =~= closing_events());
    out
}

/// Writes the sequence as FCPXML. `root` is the project's directory.
pub fn export(project: &Project, id: &str, root: &str) -> (r: Result<Export, Error>)
    requires
        project.sequence_at(id@) >= 0 ==> document_fits(
            *project,
            project.sequences@[project.sequence_at(id@)],
        ),
    ensures
        r is Err <==> document_error(*project, id@) is Some,
        r is Err ==> Some(r->Err_0@) == document_error(*project, id@),
        r is Ok ==> {
            let sequence = project.sequences@[project.sequence_at(id@)];
            &&& r->Ok_0.text@ == xml_text(document_events(*project, sequence, root@)).push('\n')
            &&& views(r->Ok_0.warnings@) == needs_of(*project, sequence).warnings
        },
{
    let sequence = match project.sequence(id) {
        Ok(sequence) => sequence,
        Err(error) => {
            return Err(error);
        },
    };
    let base = Timebase::of(sequence.fps);
    let flat = flatten(sequence);
    let frames: i64 = total_frames(&flat, sequence);
    let st = match gather(&flat, sequence, project) {
        Ok(st) => st,
        Err(error) => {
            return Err(error);
        },
    };
    let mut events = write_resources(&st, base, sequence.fps);
    extend(&mut events, write_frame(project, sequence, root, base, frames));
    extend(&mut events, write_tracks(&flat, sequence, &st.media, base, project));
    extend(&mut events, write_closing());
    let mut text = render(&events);
    push_char(&mut text, '\n');
    Ok(Export { text, warnings: st.warnings })
}

} // verus!
