//! A description of a sequence that stands in for watching it.
//!
//! What the document says is exact; what was seen and heard is measured elsewhere and handed
//! in. Places and sizes are in millionths of a pixel, levels in millionths of a decibel.

use crate::analyze::seconds;
use crate::coverage::{clip_span, sequence_sane, spans_wf, uncovered};
use crate::lint_caption::{limits, line_limit, rate_fits, reading_rate};
use crate::lint_source::{place_of, placements_ok, source_end, source_end_fits, Placement};
use crate::lint_timeline::{all_measurable, describe_hole, has_timeline, hole_text};
use crate::project::{
    opt_text, CaptionCue, Clip, Marker, Project, Sequence, Source, Track, TrackKind, TransitionKind,
};
use crate::rational::Rat;
use crate::text::{lines, push_text, strings};
use crate::time::{Span, Time};
use crate::timeline::{Warning, WarningView};
use crate::views::{push_view, views};
use vstd::prelude::*;

verus! {

/// How thoroughly a sequence is described.
#[derive(Clone, Copy, Debug, PartialEq, Eq, Structural)]
pub struct DigestOptions {
    pub sample_every: Time,
    pub use_proxy: bool,
    pub with_audio: bool,
}

impl Default for DigestOptions {
    fn default() -> (r: DigestOptions)
        ensures
            r == (DigestOptions { sample_every: seconds(1), use_proxy: true, with_audio: true }),
    {
        DigestOptions { sample_every: Time::from_secs(1), use_proxy: true, with_audio: true }
    }
}

// ---------------------------------------------------------------------------
// Clips
// ---------------------------------------------------------------------------

#[derive(Clone, Debug)]
pub struct ClipDigest {
    pub id: String,
    pub name: String,
    /// When it is on the timeline.
    pub range: Span,
    pub source: String,
    /// What it reads of its source, where that has a timeline.
    pub source_range: Option<Span>,
    pub fitted: String,
    /// Pixels shown for each pixel of the source.
    pub upscale: Rat,
    pub effects: Vec<String>,
    pub transition: Option<&'static str>,
    pub speed: Option<String>,
    pub disabled: bool,
}

/// The size of what a clip shows, in its own pixels.
pub open spec fn size_of(project: Project, clip: Clip, frame: [u32; 2]) -> Option<[u32; 2]> {
    match clip.source {
        Source::Asset { asset } => stream_size(project, asset@),
        Source::Image { asset } => stream_size(project, asset@),
        Source::Title { title } => if project.title_at(title@) >= 0 {
            Some(project.titles@[project.title_at(title@)].size)
        } else {
            None
        },
        Source::Sequence { sequence } => if project.sequence_at(sequence@) >= 0 {
            Some(project.sequences@[project.sequence_at(sequence@)].size)
        } else {
            None
        },
        Source::Color { color } => Some(frame),
        Source::Generator { generator } => Some(frame),
    }
}

pub open spec fn stream_size(project: Project, asset: Seq<char>) -> Option<[u32; 2]> {
    if project.asset_at(asset) >= 0 {
        match project.assets@[project.asset_at(asset)].probe.video {
            Some(stream) => Some(stream.shown_size()),
            None => None,
        }
    } else {
        None
    }
}

fn find_stream_size(project: &Project, asset: &str) -> (r: Option<[u32; 2]>)
    requires
        crate::lint_source::project_sane(*project),
    ensures
        r == stream_size(*project, asset@),
{
    match project.find_asset(asset) {
        Some(at) => {
            assert(crate::lint_source::asset_sane(project.assets@[at as int]));
            match &project.assets[at].probe.video {
                Some(stream) => Some(stream.display_size()),
                None => None,
            }
        },
        None => None,
    }
}

/// The size of what a clip shows, where that is known.
pub fn source_size(project: &Project, clip: &Clip, frame: [u32; 2]) -> (r: Option<[u32; 2]>)
    requires
        crate::lint_source::project_sane(*project),
    ensures
        r == size_of(*project, *clip, frame),
{
    match &clip.source {
        Source::Asset { asset } => find_stream_size(project, asset.as_str()),
        Source::Image { asset } => find_stream_size(project, asset.as_str()),
        Source::Title { title } => match project.find_title(title.as_str()) {
            Some(at) => Some(project.titles[at].size),
            None => None,
        },
        Source::Sequence { sequence } => match project.find_sequence(sequence.as_str()) {
            Some(at) => Some(project.sequences[at].size),
            None => None,
        },
        Source::Color { color: _ } => Some(frame),
        Source::Generator { generator: _ } => Some(frame),
    }
}

/// How much a clip is blown up: not at all where that is not known.
pub open spec fn upscale_of(
    project: Project,
    clip: Clip,
    frame: [u32; 2],
    places: Seq<Placement>,
) -> Rat {
    match (size_of(project, clip, frame), place_of(places, clip.id@)) {
        (Some(native), Some(place)) => crate::lint_source::blow_up(place, native),
        _ => Rat { num: 1, den: 1 },
    }
}

pub fn upscale_ratio(project: &Project, clip: &Clip, frame: [u32; 2], places: &Vec<Placement>) -> (r:
    Rat)
    requires
        crate::lint_source::project_sane(*project),
        placements_ok(places@),
    ensures
        r == upscale_of(*project, *clip, frame, places@),
{
    match (
        source_size(project, clip, frame),
        crate::lint_source::placement_of(places, clip.id.as_str()),
    ) {
        (Some(native), Some(place)) => crate::lint_source::ratio_of(place, native),
        _ => Rat { num: 1, den: 1 },
    }
}

/// What a clip reads of its source, for sources that have a timeline.
pub open spec fn source_timeline(clip: Clip) -> Option<Span> {
    match clip.source {
        Source::Asset { asset } => Some(Span { start: clip.source_in, end: source_end(clip) }),
        Source::Sequence { sequence } => Some(
            Span { start: clip.source_in, end: source_end(clip) },
        ),
        _ => None,
    }
}

pub open spec fn transition_text(kind: TransitionKind) -> Seq<char> {
    match kind {
        TransitionKind::Cut => "cut"@,
        TransitionKind::Dissolve => "dissolve"@,
        TransitionKind::Dip => "dip"@,
        TransitionKind::Wipe => "wipe"@,
        TransitionKind::Slide => "slide"@,
        TransitionKind::Push => "push"@,
    }
}

fn transition_name(kind: TransitionKind) -> (r: &'static str)
    ensures
        r@ == transition_text(kind),
{
    match kind {
        TransitionKind::Cut => "cut",
        TransitionKind::Dissolve => "dissolve",
        TransitionKind::Dip => "dip",
        TransitionKind::Wipe => "wipe",
        TransitionKind::Slide => "slide",
        TransitionKind::Push => "push",
    }
}

pub open spec fn effect_kinds(clip: Clip) -> Seq<Seq<char>> {
    clip.effects@.map_values(|effect: crate::project::Effect| effect.kind@)
}

/// What a description of a clip says.
pub open spec fn describes_clip(
    made: ClipDigest,
    project: Project,
    clip: Clip,
    frame: [u32; 2],
    places: Seq<Placement>,
) -> bool {
    &&& made.id@ == clip.id@
    &&& made.name@ == clip.spec_label()
    &&& made.range == clip_span(clip)
    &&& made.source@ == clip.source.description()
    &&& made.source_range == source_timeline(clip)
    &&& made.fitted@ == clip.fit@
    &&& made.upscale == upscale_of(project, clip, frame, places)
    &&& strings(made.effects@) == effect_kinds(clip)
    &&& (match made.transition {
        Some(name) => clip.transition_in is Some && name@ == transition_text(
            clip.transition_in->0.kind,
        ),
        None => clip.transition_in is None,
    })
    &&& opt_text(made.speed) == (if clip.speed.num == clip.speed.den {
        None
    } else {
        Some(clip.speed.text())
    })
    &&& made.disabled == !clip.enabled
}

pub open spec fn clip_describable(clip: Clip) -> bool {
    clip.wf() && source_end_fits(clip)
}

pub open spec fn clips_describable(clips: Seq<Clip>) -> bool {
    forall|i: int| 0 <= i < clips.len() ==> clip_describable(#[trigger] clips[i])
}

fn clip_digest(project: &Project, clip: &Clip, frame: [u32; 2], places: &Vec<Placement>) -> (r:
    ClipDigest)
    requires
        crate::lint_source::project_sane(*project),
        placements_ok(places@),
        clip_describable(*clip),
    ensures
        describes_clip(r, *project, *clip, frame, places@),
{
    let mut effects: Vec<String> = Vec::new();
    let mut i: usize = 0;
    while i < clip.effects.len()
        invariant
            i <= clip.effects@.len(),
            strings(effects@) =~= effect_kinds(*clip).take(i as int),
        decreases clip.effects@.len() - i,
    {
        push_text(&mut effects, clip.effects[i].kind.as_str());
        i = i + 1;
    }
    assert(strings(effects@) =~= effect_kinds(*clip));
    let source_range = match &clip.source {
        Source::Asset { asset: _ } => Some(
            Span { start: clip.source_in, end: clip.source_end() },
        ),
        Source::Sequence { sequence: _ } => Some(
            Span { start: clip.source_in, end: clip.source_end() },
        ),
        _ => None,
    };
    ClipDigest {
        id: clip.id.as_str().to_owned(),
        name: clip.label().to_owned(),
        range: clip.span(),
        source: clip.source.describe(),
        source_range,
        fitted: clip.fit.as_str().to_owned(),
        upscale: upscale_ratio(project, clip, frame, places),
        effects,
        transition: match clip.transition_in {
            Some(transition) => Some(transition_name(transition.kind)),
            None => None,
        },
        speed: if clip.speed.is_one() {
            None
        } else {
            Some(clip.speed.to_text())
        },
        disabled: !clip.enabled,
    }
}

// ---------------------------------------------------------------------------
// Tracks
// ---------------------------------------------------------------------------

#[derive(Clone, Debug)]
pub struct TrackDigest {
    pub id: String,
    pub name: String,
    pub kind: TrackKind,
    pub muted: bool,
    pub hidden: bool,
    pub clips: Vec<ClipDigest>,
}

pub open spec fn describes_track(
    made: TrackDigest,
    project: Project,
    track: Track,
    frame: [u32; 2],
    places: Seq<Placement>,
) -> bool {
    &&& made.id@ == track.id@
    &&& made.name@ == track.name@
    &&& made.kind == track.kind
    &&& made.muted == track.muted
    &&& made.hidden == track.hidden
    &&& made.clips@.len() == track.clips@.len()
    &&& forall|i: int|
        0 <= i < track.clips@.len() ==> describes_clip(
            #[trigger] made.clips@[i],
            project,
            track.clips@[i],
            frame,
            places,
        )
}

pub fn track_digest(project: &Project, track: &Track, frame: [u32; 2], places: &Vec<Placement>) -> (r:
    TrackDigest)
    requires
        crate::lint_source::project_sane(*project),
        placements_ok(places@),
        clips_describable(track.clips@),
    ensures
        describes_track(r, *project, *track, frame, places@),
{
    let mut clips: Vec<ClipDigest> = Vec::new();
    let mut i: usize = 0;
    while i < track.clips.len()
        invariant
            i <= track.clips@.len(),
            crate::lint_source::project_sane(*project),
            placements_ok(places@),
            clips_describable(track.clips@),
            clips@.len() == i,
            forall|k: int|
                0 <= k < i ==> describes_clip(
                    #[trigger] clips@[k],
                    *project,
                    track.clips@[k],
                    frame,
                    places@,
                ),
        decreases track.clips@.len() - i,
    {
        assert(clip_describable(track.clips@[i as int]));
        clips.push(clip_digest(project, &track.clips[i], frame, places));
        i = i + 1;
    }
    TrackDigest {
        id: track.id.as_str().to_owned(),
        name: track.name.as_str().to_owned(),
        kind: track.kind,
        muted: track.muted,
        hidden: track.hidden,
        clips,
    }
}

// ---------------------------------------------------------------------------
// Gaps and markers
// ---------------------------------------------------------------------------

#[derive(Clone, Debug)]
pub struct GapDigest {
    pub track: String,
    pub name: String,
    pub range: Span,
}

pub struct GapView {
    pub track: Seq<char>,
    pub name: Seq<char>,
    pub range: Span,
}

impl View for GapDigest {
    type V = GapView;

    open spec fn view(&self) -> GapView {
        GapView { track: self.track@, name: self.name@, range: self.range }
    }
}

pub open spec fn gaps_of(track: Track, holes: Seq<Span>) -> Seq<GapView> {
    holes.map_values(|hole: Span| GapView { track: track.id@, name: track.name@, range: hole })
}

pub open spec fn gap_warning(track: Track, hole: Span) -> WarningView {
    WarningView { code: "gap"@, target: track.id@, detail: hole_text(track, hole) }
}

pub open spec fn gap_warnings(track: Track, holes: Seq<Span>) -> Seq<WarningView> {
    holes.map_values(|hole: Span| gap_warning(track, hole))
}

/// The gaps of the first `n` tracks.
pub open spec fn all_gaps(sequence: Sequence, n: int) -> Seq<GapView>
    decreases n,
{
    if n <= 0 {
        seq![]
    } else {
        let before = all_gaps(sequence, n - 1);
        if has_timeline(sequence.tracks@[n - 1]) {
            before + gaps_of(sequence.tracks@[n - 1], uncovered(sequence, n - 1))
        } else {
            before
        }
    }
}

pub open spec fn all_gap_warnings(sequence: Sequence, n: int) -> Seq<WarningView>
    decreases n,
{
    if n <= 0 {
        seq![]
    } else {
        let before = all_gap_warnings(sequence, n - 1);
        if has_timeline(sequence.tracks@[n - 1]) {
            before + gap_warnings(sequence.tracks@[n - 1], uncovered(sequence, n - 1))
        } else {
            before
        }
    }
}

/// Whether the length of every gap can be stored.
pub open spec fn gaps_measurable(sequence: Sequence) -> bool {
    forall|t: int|
        0 <= t < sequence.tracks@.len() && has_timeline(#[trigger] sequence.tracks@[t])
            ==> all_measurable(uncovered(sequence, t))
}

fn push_gaps(
    gaps: &mut Vec<GapDigest>,
    warnings: &mut Vec<Warning>,
    track: &Track,
    holes: &Vec<Span>,
)
    requires
        spans_wf(holes@),
        all_measurable(holes@),
    ensures
        views(final(gaps)@) == views(old(gaps)@) + gaps_of(*track, holes@),
        views(final(warnings)@) == views(old(warnings)@) + gap_warnings(*track, holes@),
{
    let ghost g = views(gaps@);
    let ghost w = views(warnings@);
    let mut i: usize = 0;
    assert(g + gaps_of(*track, holes@).take(0) =~= g);
    assert(w + gap_warnings(*track, holes@).take(0) =~= w);
    while i < holes.len()
        invariant
            i <= holes@.len(),
            spans_wf(holes@),
            all_measurable(holes@),
            views(gaps@) == g + gaps_of(*track, holes@).take(i as int),
            views(warnings@) == w + gap_warnings(*track, holes@).take(i as int),
        decreases holes@.len() - i,
    {
        let hole = holes[i];
        assert(holes@[i as int].wf() && holes@[i as int].measurable());
        push_view(
            warnings,
            Warning {
                code: "gap",
                target: track.id.as_str().to_owned(),
                detail: describe_hole(track, hole),
            },
        );
        push_view(
            gaps,
            GapDigest {
                track: track.id.as_str().to_owned(),
                name: track.name.as_str().to_owned(),
                range: hole,
            },
        );
        i = i + 1;
        assert(views(gaps@) =~= g + gaps_of(*track, holes@).take(i as int));
        assert(views(warnings@) =~= w + gap_warnings(*track, holes@).take(i as int));
    }
    assert(gaps_of(*track, holes@).take(i as int) =~= gaps_of(*track, holes@));
    assert(gap_warnings(*track, holes@).take(i as int) =~= gap_warnings(*track, holes@));
}

pub fn gap_digests(sequence: &Sequence) -> (r: (Vec<GapDigest>, Vec<Warning>))
    requires
        sequence_sane(*sequence),
        gaps_measurable(*sequence),
    ensures
        views(r.0@) == all_gaps(*sequence, sequence.tracks@.len() as int),
        views(r.1@) == all_gap_warnings(*sequence, sequence.tracks@.len() as int),
{
    let mut gaps: Vec<GapDigest> = Vec::new();
    let mut warnings: Vec<Warning> = Vec::new();
    let mut t: usize = 0;
    assert(views(gaps@) =~= seq![]);
    assert(views(warnings@) =~= seq![]);
    while t < sequence.tracks.len()
        invariant
            t <= sequence.tracks@.len(),
            sequence_sane(*sequence),
            gaps_measurable(*sequence),
            views(gaps@) == all_gaps(*sequence, t as int),
            views(warnings@) == all_gap_warnings(*sequence, t as int),
        decreases sequence.tracks@.len() - t,
    {
        let track = &sequence.tracks[t];
        if track.kind != TrackKind::Caption && track.clips.len() > 0 {
            assert(has_timeline(sequence.tracks@[t as int]));
            let holes = sequence.uncovered_gaps(t);
            push_gaps(&mut gaps, &mut warnings, track, &holes);
        }
        t = t + 1;
    }
    (gaps, warnings)
}

#[derive(Clone, Debug)]
pub struct MarkerDigest {
    pub id: String,
    pub at: Time,
    pub name: String,
}

pub struct MarkerView {
    pub id: Seq<char>,
    pub at: Time,
    pub name: Seq<char>,
}

impl View for MarkerDigest {
    type V = MarkerView;

    open spec fn view(&self) -> MarkerView {
        MarkerView { id: self.id@, at: self.at, name: self.name@ }
    }
}

pub open spec fn markers_of(markers: Seq<Marker>) -> Seq<MarkerView> {
    markers.map_values(
        |marker: Marker| MarkerView { id: marker.id@, at: marker.at, name: marker.name@ },
    )
}

pub fn marker_digests(markers: &Vec<Marker>) -> (r: Vec<MarkerDigest>)
    ensures
        views(r@) == markers_of(markers@),
{
    let mut out: Vec<MarkerDigest> = Vec::new();
    let mut i: usize = 0;
    while i < markers.len()
        invariant
            i <= markers@.len(),
            views(out@) =~= markers_of(markers@).take(i as int),
        decreases markers@.len() - i,
    {
        push_view(
            &mut out,
            MarkerDigest {
                id: markers[i].id.as_str().to_owned(),
                at: markers[i].at,
                name: markers[i].name.as_str().to_owned(),
            },
        );
        i = i + 1;
    }
    assert(views(out@) =~= markers_of(markers@));
    out
}

// ---------------------------------------------------------------------------
// Captions
// ---------------------------------------------------------------------------

/// What captions add up to.
#[derive(Clone, Copy, Debug, PartialEq, Eq, Structural)]
pub struct CaptionDigest {
    pub cues: u64,
    /// The fastest that one has to be read, in characters per second.
    pub max_cps: Rat,
    pub overlaps: u64,
    /// Cues with more lines than their style allows.
    pub too_long: u64,
}

pub open spec fn no_captions() -> CaptionDigest {
    CaptionDigest { cues: 0, max_cps: Rat { num: 0, den: 1 }, overlaps: 0, too_long: 0 }
}

/// The latest end among some cues.
pub open spec fn reached(cues: Seq<CaptionCue>) -> Option<Time>
    decreases cues.len(),
{
    if cues.len() == 0 {
        None
    } else {
        match reached(cues.drop_last()) {
            None => Some(cues.last().span.end),
            Some(end) => Some(end.spec_max(cues.last().span.end)),
        }
    }
}

/// Whether a cue starts while one before it is still shown.
pub open spec fn starts_early(cues: Seq<CaptionCue>) -> bool {
    match reached(cues.drop_last()) {
        Some(end) => cues.last().span.start.lt(end),
        None => false,
    }
}

pub open spec fn more(n: u64, yes: bool) -> u64 {
    if yes {
        (n + 1) as u64
    } else {
        n
    }
}

pub open spec fn with_cues(
    project: Project,
    track: Track,
    cues: Seq<CaptionCue>,
    from: CaptionDigest,
) -> CaptionDigest
    decreases cues.len(),
{
    if cues.len() == 0 {
        from
    } else {
        let before = with_cues(project, track, cues.drop_last(), from);
        let cue = cues.last();
        CaptionDigest {
            cues: more(before.cues, true),
            max_cps: match reading_rate(cue) {
                Some(rate) => if before.max_cps.spec_lt(rate) {
                    rate
                } else {
                    before.max_cps
                },
                None => before.max_cps,
            },
            overlaps: more(before.overlaps, starts_early(cues)),
            too_long: more(
                before.too_long,
                lines(cue.text@).len() > line_limit(project, track, cue),
            ),
        }
    }
}

pub open spec fn captions_of(project: Project, tracks: Seq<Track>) -> CaptionDigest
    decreases tracks.len(),
{
    if tracks.len() == 0 {
        no_captions()
    } else {
        let before = captions_of(project, tracks.drop_last());
        if tracks.last().kind == TrackKind::Caption {
            with_cues(project, tracks.last(), tracks.last().cues@, before)
        } else {
            before
        }
    }
}

/// How many cues there are on caption tracks.
pub open spec fn cue_count(tracks: Seq<Track>) -> nat
    decreases tracks.len(),
{
    if tracks.len() == 0 {
        0
    } else if tracks.last().kind == TrackKind::Caption {
        cue_count(tracks.drop_last()) + tracks.last().cues@.len()
    } else {
        cue_count(tracks.drop_last())
    }
}

pub open spec fn track_rates_fit(track: Track) -> bool {
    forall|i: int| 0 <= i < track.cues@.len() ==> rate_fits(#[trigger] track.cues@[i])
}

/// Whether every reading rate can be stored, and the cues can be counted.
pub open spec fn captions_fit(tracks: Seq<Track>) -> bool {
    &&& cue_count(tracks) <= u64::MAX
    &&& forall|t: int|
        0 <= t < tracks.len() ==> ((#[trigger] tracks[t]).kind == TrackKind::Caption
            ==> track_rates_fit(tracks[t]))
}

fn add_cues(project: &Project, track: &Track, from: CaptionDigest) -> (r: CaptionDigest)
    requires
        track_rates_fit(*track),
        from.cues + track.cues@.len() <= u64::MAX,
        from.overlaps <= from.cues,
        from.too_long <= from.cues,
    ensures
        r == with_cues(*project, *track, track.cues@, from),
        r.cues == from.cues + track.cues@.len(),
        r.overlaps <= r.cues,
        r.too_long <= r.cues,
{
    let mut out = from;
    let mut end: Option<Time> = None;
    let cues = &track.cues;
    let n: usize = cues.len();
    let mut i: usize = 0;
    assert(cues@.take(0) =~= seq![]);
    while i < n
        invariant
            i <= n,
            n == cues@.len(),
            cues@ == track.cues@,
            track_rates_fit(*track),
            from.cues + n <= u64::MAX,
            out == with_cues(*project, *track, cues@.take(i as int), from),
            out.cues == from.cues + i,
            out.overlaps <= out.cues,
            out.too_long <= out.cues,
            end == reached(cues@.take(i as int)),
        decreases n - i,
    {
        assert(cues@.take(i + 1).drop_last() =~= cues@.take(i as int));
        assert(cues@.take(i + 1).last() == cues@[i as int]);
        let cue = &cues[i];
        assert(rate_fits(track.cues@[i as int]));
        if let Some(rate) = cue.chars_per_second() {
            if out.max_cps.before(&rate) {
                out.max_cps = rate;
            }
        }
        let (_, limit) = limits(project, track, cue);
        out.cues = out.cues + 1;
        if cue.lines() > limit {
            out.too_long = out.too_long + 1;
        }
        match end {
            Some(reach) => {
                if cue.span.start.before(&reach) {
                    out.overlaps = out.overlaps + 1;
                }
                end = Some(reach.max(cue.span.end));
            },
            None => {
                end = Some(cue.span.end);
            },
        }
        i = i + 1;
    }
    assert(cues@.take(i as int) =~= cues@);
    out
}

proof fn lemma_count_grows(tracks: Seq<Track>, n: int)
    requires
        0 <= n <= tracks.len(),
    ensures
        cue_count(tracks.take(n)) <= cue_count(tracks),
    decreases tracks.len() - n,
{
    if n == tracks.len() {
        assert(tracks.take(n) =~= tracks);
    } else {
        lemma_count_grows(tracks, n + 1);
        assert(tracks.take(n + 1).drop_last() =~= tracks.take(n));
    }
}

/// What the captions of a sequence add up to.
pub fn caption_digest(project: &Project, sequence: &Sequence) -> (r: CaptionDigest)
    requires
        captions_fit(sequence.tracks@),
    ensures
        r == captions_of(*project, sequence.tracks@),
        r.cues == cue_count(sequence.tracks@),
{
    let tracks = &sequence.tracks;
    let mut out = CaptionDigest {
        cues: 0,
        max_cps: Rat { num: 0, den: 1 },
        overlaps: 0,
        too_long: 0,
    };
    let mut t: usize = 0;
    assert(tracks@.take(0) =~= seq![]);
    while t < tracks.len()
        invariant
            t <= tracks@.len(),
            captions_fit(tracks@),
            out == captions_of(*project, tracks@.take(t as int)),
            out.cues == cue_count(tracks@.take(t as int)),
            out.overlaps <= out.cues,
            out.too_long <= out.cues,
        decreases tracks@.len() - t,
    {
        proof {
            assert(tracks@.take(t + 1).drop_last() =~= tracks@.take(t as int));
            assert(tracks@.take(t + 1).last() == tracks@[t as int]);
            lemma_count_grows(tracks@, t + 1);
        }
        if tracks[t].kind == TrackKind::Caption {
            assert(track_rates_fit(tracks@[t as int]));
            out = add_cues(project, &tracks[t], out);
        }
        t = t + 1;
    }
    assert(tracks@.take(t as int) =~= tracks@);
    out
}

} // verus!
