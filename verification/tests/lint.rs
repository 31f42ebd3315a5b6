use dvs::analyze::FrameStat;
use dvs::color::Rgba;
use dvs::detect::analyze;
use dvs::digest::DigestOptions;
use dvs::digest_report::{digest, AudioDigest, Digest, VideoDigest};
use dvs::finding::{Finding, LoudnessProfile, Severity, RENDER_RULES, RULES};
use dvs::json::{parse_json, Json};
use dvs::lint::{lint, LintOptions, Measured};
use dvs::lint_duck::{duck_pairs, ducking_rules, has_sound};
use dvs::lint_fits::{check_sequence, describe_sequence};
use dvs::lint_media::{ducking_rule, measured_window, Heard, Seen};
use dvs::lint_source::Placement;
use dvs::lint_title::{PlacedText, TitleMeasurement};
use dvs::project::{
    Asset, AssetKind, CaptionCue, Clip, ColorMatrix, ColorRange, Probe, Project, Sequence, Source,
    Title, Track, TrackKind, Transition, TransitionKind, VideoStream,
};
use dvs::rational::Rat;
use dvs::time::{Fps, Span, Time};
use std::collections::BTreeSet;

const RATE: u32 = 48_000;

fn red() -> Rgba {
    Rgba::opaque(200, 40, 40)
}

fn blue() -> Rgba {
    Rgba::opaque(30, 60, 200)
}

fn fps() -> Fps {
    Fps::new(30, 1).unwrap()
}

fn secs(num: i64, den: i64) -> Time {
    Time::new(num, den).unwrap()
}

fn rat(num: i64, den: i64) -> Rat {
    Rat::new(num, den).unwrap()
}

/// A project, and what its pixels and samples were measured to be.
struct Fixture {
    project: Project,
    places: Vec<Placement>,
    titles: Vec<TitleMeasurement>,
    seen: Seen,
    heard: Option<Heard>,
    ducking: Vec<Finding>,
}

impl Fixture {
    fn new(size: [u32; 2]) -> Fixture {
        let sequence = Sequence {
            id: "seq_main".to_string(),
            name: "main".to_string(),
            fps: fps(),
            size,
            sample_rate: RATE,
            channels: 2,
            tracks: Vec::new(),
            markers: Vec::new(),
        };
        Fixture {
            project: Project {
                id: "prj_probe".to_string(),
                name: "probe".to_string(),
                active_sequence: "seq_main".to_string(),
                sequences: vec![sequence],
                assets: Vec::new(),
                titles: Vec::new(),
                styles: Vec::new(),
            },
            places: Vec::new(),
            titles: Vec::new(),
            seen: Seen { black: Vec::new(), frozen: Vec::new(), flashes: Vec::new() },
            heard: None,
            ducking: Vec::new(),
        }
    }

    fn sequence(&mut self) -> &mut Sequence {
        &mut self.project.sequences[0]
    }

    fn track(&mut self, kind: TrackKind) -> usize {
        let taken: Vec<String> =
            self.sequence().tracks.iter().map(|track| track.name.clone()).collect();
        let name = dvs::transfer::next_track_name(&taken, kind);
        let at = self.sequence().tracks.len();
        self.sequence().tracks.push(Track::new(format!("trk_{at}"), name, kind));
        at
    }

    fn video(&mut self) -> usize {
        self.track(TrackKind::Video)
    }

    fn push(&mut self, track: usize, clip: Clip) -> String {
        let mut clip = clip;
        let at = self.sequence().tracks[track].clips.len();
        clip.id = format!("clp_{track}_{at}");
        let id = clip.id.clone();
        self.sequence().tracks[track].clips.push(clip);
        id
    }

    fn cue(&mut self, track: usize, span: Span, text: &str) {
        let at = self.sequence().tracks[track].cues.len();
        self.sequence().tracks[track].cues.push(CaptionCue {
            id: format!("cue_{at}"),
            span,
            text: text.to_string(),
            style: None,
        });
    }

    fn asset(&mut self, name: &str, probe: Probe, stored: bool) -> String {
        let id = format!("ast_{}", self.project.assets.len());
        self.project.assets.push(Asset {
            id: id.clone(),
            name: name.to_string(),
            hash: format!("hash-of-{name}"),
            kind: AssetKind::Video,
            probe,
            proxy: None,
            source_path: None,
            path: if stored { Some(format!("/store/{name}")) } else { None },
            proxy_usable: false,
        });
        id
    }

    /// A second sequence with `duration` of picture in it, for nesting.
    fn nested(&mut self, duration: Time) -> String {
        let mut track = Track::new("trk_inner".to_string(), "V1".to_string(), TrackKind::Video);
        track.clips.push(color_clip(Rgba::opaque(0, 80, 160), Time::zero(), duration));
        let size = self.sequence().size;
        self.project.sequences.push(Sequence {
            id: "seq_inner".to_string(),
            name: "inner".to_string(),
            fps: fps(),
            size,
            sample_rate: RATE,
            channels: 2,
            tracks: vec![track],
            markers: Vec::new(),
        });
        "seq_inner".to_string()
    }

    fn lint(&self, options: &LintOptions) -> Vec<Finding> {
        let measured = if options.render {
            Some(Measured {
                seen: self.seen.clone(),
                heard: self.heard.clone(),
                ducking: self.ducking.clone(),
            })
        } else {
            None
        };
        lint(&self.project, "seq_main", options, &self.places, &self.titles, measured)
            .expect("lint runs")
    }

    fn digest(&self, with_audio: bool, audio: Option<AudioDigest>) -> Digest {
        digest(
            &self.project,
            "seq_main",
            &DigestOptions { sample_every: Time::from_secs(1), use_proxy: false, with_audio },
            &self.places,
            VideoDigest { seen: self.seen.clone(), scene_cuts: Vec::new(), samples: 0 },
            &self.titles,
            audio,
        )
        .expect("digest")
    }
}

fn color_clip(color: Rgba, start: Time, duration: Time) -> Clip {
    Clip::new("clp".to_string(), Source::Color { color }, start, duration)
}

fn video_probe(size: [u32; 2], rate: Fps, duration: Time) -> Probe {
    Probe {
        duration,
        video: Some(VideoStream {
            stream_index: 0,
            size,
            fps: rate,
            codec: "h264".to_string(),
            pix_fmt: "yuv420p".to_string(),
            color_range: ColorRange::Tv,
            color_matrix: ColorMatrix::Bt709,
            color_primaries: None,
            transfer: None,
            rotation: 0,
            sar: rat(1, 1),
            frames: None,
            bit_rate: None,
        }),
        audio: None,
        vfr: false,
        container: "mp4".to_string(),
    }
}

// ---------------------------------------------------------------------------
// Builders
// ---------------------------------------------------------------------------

fn two_clips(f: &mut Fixture, second_start: Time) {
    let track = f.video();
    f.push(track, color_clip(red(), Time::zero(), secs(2, 1)));
    f.push(track, color_clip(blue(), second_start, secs(2, 1)));
}

fn adjacent(f: &mut Fixture) {
    two_clips(f, secs(2, 1));
}

fn with_hole(f: &mut Fixture) {
    two_clips(f, secs(4, 1));
}

fn colliding(f: &mut Fixture) {
    two_clips(f, secs(1, 1));
}

fn dissolve() -> Option<Transition> {
    Some(Transition { kind: TransitionKind::Dissolve, duration: secs(1, 2) })
}

fn dangling_transition(f: &mut Fixture) {
    let track = f.video();
    let mut clip = color_clip(red(), Time::zero(), secs(2, 1));
    clip.transition_in = dissolve();
    f.push(track, clip);
}

fn supported_transition(f: &mut Fixture) {
    let track = f.video();
    f.push(track, color_clip(red(), Time::zero(), secs(2, 1)));
    let mut clip = color_clip(blue(), secs(2, 1), secs(2, 1));
    clip.transition_in = dissolve();
    f.push(track, clip);
}

fn nested_clip(f: &mut Fixture, duration: Time) {
    let inner = f.nested(secs(2, 1));
    let track = f.video();
    let source = Source::Sequence { sequence: inner };
    f.push(track, Clip::new("clp".to_string(), source, Time::zero(), duration));
}

fn reads_past_source(f: &mut Fixture) {
    nested_clip(f, secs(5, 1));
}

fn inside_source(f: &mut Fixture) {
    nested_clip(f, secs(2, 1));
}

fn source_of(asset: &str) -> Source {
    Source::Asset { asset: asset.to_string() }
}

/// One clip over one asset, with the asset's probe and the clip's speed as given. The picture
/// fits inside the frame, at `[width, height]`.
fn asset_clip(f: &mut Fixture, probe: Probe, speed: Rat, shown: [u32; 2]) -> String {
    let asset = f.asset("talk.mp4", probe, true);
    let track = f.video();
    let mut clip = Clip::new("clp".to_string(), source_of(&asset), Time::zero(), secs(2, 1));
    clip.speed = speed;
    let id = f.push(track, clip);
    f.places.push(Placement {
        clip: id,
        width: shown[0] as i64 * 1_000_000,
        height: shown[1] as i64 * 1_000_000,
    });
    asset
}

fn native_probe() -> Probe {
    video_probe([320, 180], fps(), secs(10, 1))
}

fn retimed_below_one_frame(f: &mut Fixture) {
    asset_clip(f, native_probe(), rat(1, 2), [320, 180]);
}

fn played_at_speed_one(f: &mut Fixture) {
    asset_clip(f, native_probe(), rat(1, 1), [320, 180]);
}

fn off_rate_source(f: &mut Fixture) {
    let rate = Fps::new(25, 1).unwrap();
    asset_clip(f, video_probe([320, 180], rate, secs(10, 1)), rat(1, 1), [320, 180]);
}

fn variable_rate_source(f: &mut Fixture) {
    let mut probe = native_probe();
    probe.vfr = true;
    asset_clip(f, probe, rat(1, 1), [320, 180]);
}

fn small_source(f: &mut Fixture) {
    asset_clip(f, video_probe([320, 180], fps(), secs(10, 1)), rat(1, 1), [1920, 1080]);
}

fn matching_source(f: &mut Fixture) {
    asset_clip(f, video_probe([1920, 1080], fps(), secs(10, 1)), rat(1, 1), [1920, 1080]);
}

fn four_by_three_source(f: &mut Fixture) {
    asset_clip(f, video_probe([640, 480], fps(), secs(10, 1)), rat(1, 1), [1440, 1080]);
}

fn linked_pair(f: &mut Fixture, audio_start: Time) {
    let video = f.video();
    let audio = f.track(TrackKind::Audio);
    let picture = f.push(video, color_clip(red(), Time::zero(), secs(2, 1)));
    let tone = Source::Generator { generator: "tone".to_string() };
    let sound = f.push(audio, Clip::new("clp".to_string(), tone, audio_start, secs(2, 1)));
    f.sequence().tracks[video].clips[0].link = Some(sound);
    f.sequence().tracks[audio].clips[0].link = Some(picture);
}

fn drifted_link(f: &mut Fixture) {
    linked_pair(f, secs(1, 2));
}

fn aligned_link(f: &mut Fixture) {
    linked_pair(f, Time::zero());
}

fn captions(f: &mut Fixture, cues: &[(Span, &str)]) {
    let track = f.track(TrackKind::Caption);
    for (span, text) in cues {
        f.cue(track, *span, text);
    }
}

fn unreadably_fast_caption(f: &mut Fixture) {
    captions(
        f,
        &[(
            Span::new(Time::zero(), secs(1, 1)),
            "far too many characters to read inside a single second of screen time",
        )],
    );
}

fn comfortable_caption(f: &mut Fixture) {
    captions(f, &[(Span::new(Time::zero(), secs(3, 1)), "short line")]);
}

fn overlapping_captions(f: &mut Fixture) {
    captions(
        f,
        &[
            (Span::new(Time::zero(), secs(2, 1)), "first"),
            (Span::new(secs(1, 1), secs(3, 1)), "second"),
        ],
    );
}

fn sequential_captions(f: &mut Fixture) {
    captions(
        f,
        &[
            (Span::new(Time::zero(), secs(2, 1)), "first"),
            (Span::new(secs(2, 1), secs(4, 1)), "second"),
        ],
    );
}

fn three_line_caption(f: &mut Fixture) {
    captions(f, &[(Span::new(Time::zero(), secs(4, 1)), "one\ntwo\nthree")]);
}

fn two_line_caption(f: &mut Fixture) {
    captions(f, &[(Span::new(Time::zero(), secs(4, 1)), "one\ntwo")]);
}

fn orphan_asset(f: &mut Fixture) {
    f.asset("unused.mp4", native_probe(), true);
    let track = f.video();
    f.push(track, color_clip(red(), Time::zero(), secs(2, 1)));
}

fn used_asset(f: &mut Fixture) {
    played_at_speed_one(f);
}

fn asset_without_bytes(f: &mut Fixture) {
    let asset = f.asset("gone.mp4", native_probe(), false);
    let track = f.video();
    f.push(track, Clip::new("clp".to_string(), source_of(&asset), Time::zero(), secs(2, 1)));
}

fn missing_proxy(f: &mut Fixture) {
    played_at_speed_one(f);
    f.project.assets[0].proxy = Some("cache/proxy/not-generated.mp4".to_string());
    f.project.assets[0].proxy_usable = false;
}

fn present_proxy(f: &mut Fixture) {
    played_at_speed_one(f);
    f.project.assets[0].proxy = Some("cache/proxy/generated.mp4".to_string());
    f.project.assets[0].proxy_usable = true;
}

/// A run of text as it was measured in the frame, in pixels.
fn placed(text: &str, place: [i64; 4], font_size: i64) -> PlacedText {
    PlacedText {
        text: text.to_string(),
        x: place[0] * 1_000_000,
        y: place[1] * 1_000_000,
        w: place[2] * 1_000_000,
        h: place[3] * 1_000_000,
        font_size: font_size * 1_000_000,
        fallback: None,
        contrast: None,
    }
}

/// A title clip filling the frame.
fn titled(f: &mut Fixture, report: PlacedText) {
    let frame = f.sequence().size;
    f.project.titles.push(Title {
        id: "ttl_1".to_string(),
        name: "lower-third".to_string(),
        size: frame,
    });
    let over = f.video();
    let source = Source::Title { title: "ttl_1".to_string() };
    let clip = f.push(over, Clip::new("clp".to_string(), source, Time::zero(), secs(2, 1)));
    f.titles.push(TitleMeasurement {
        clip,
        title: "ttl_1".to_string(),
        at: secs(1, 1),
        frame,
        reports: vec![report],
    });
}

fn overflowing_title(f: &mut Fixture) {
    titled(f, placed("OVERFLOWING", [250, 70, 310, 30], 40));
}

fn contained_title(f: &mut Fixture) {
    titled(f, placed("ok", [100, 78, 45, 22], 40));
}

fn title_against_the_edge(f: &mut Fixture) {
    titled(f, placed("edge", [2, 85, 40, 15], 20));
}

fn title_in_an_absent_font(f: &mut Fixture) {
    let mut report = placed("hi", [100, 85, 15, 15], 20);
    report.fallback = dvs::digest_title::substituted(
        &dvs::digest_title::requested_families(
            "<svg><text font-family=\"No Such Face 9000\">hi</text></svg>",
        ),
        Some("DejaVu Sans"),
    );
    titled(f, report);
}

fn title_in_unreadable_type(f: &mut Fixture) {
    titled(f, placed("fine print", [100, 98, 12, 2], 3));
}

fn white_on_white(f: &mut Fixture) {
    let mut report = placed("HELLO", [40, 75, 150, 35], 48);
    report.contrast = Some(1_000_000);
    titled(f, report);
}

fn white_on_dark(f: &mut Fixture) {
    let mut report = placed("HELLO", [40, 75, 150, 35], 48);
    report.contrast = Some(20_100_000);
    titled(f, report);
}

/// Samples of frames of the given luminance, one every `every`, each as different from the one
/// before as its luminance is.
fn sampled(f: &mut Fixture, every: Time, lumas: &[i64]) {
    let mut samples: Vec<FrameStat> = Vec::new();
    let mut at = Time::zero();
    for (index, luma) in lumas.iter().enumerate() {
        let change = if index == 0 { 0 } else { (luma - lumas[index - 1]).abs() };
        samples.push(FrameStat { at, frame: at.frame_round(fps()), luma: *luma, change });
        at = at.plus(&every);
    }
    let options = dvs::analyze::AnalyzeOptions { every, ..Default::default() };
    let found = analyze(samples, &options, at, &Vec::new()).expect("every instant fits");
    f.seen = Seen {
        black: found.black_ranges,
        frozen: found.frozen_ranges,
        flashes: found.flashes,
    };
}

const DARK: i64 = 0;
const MID: i64 = 100_000_000;
const OTHER: i64 = 60_000_000;
const BRIGHT: i64 = 1_000_000_000;

fn dead_black_stretch(f: &mut Fixture) {
    let track = f.video();
    f.push(track, color_clip(Rgba::opaque(0, 0, 0), Time::zero(), secs(3, 1)));
    sampled(f, secs(1, 1), &[DARK, DARK, DARK]);
}

fn coloured_stretch(f: &mut Fixture) {
    let track = f.video();
    f.push(track, color_clip(red(), Time::zero(), secs(3, 1)));
    sampled(f, secs(1, 1), &[MID, MID, MID]);
}

fn still_for_seconds(f: &mut Fixture) {
    let track = f.video();
    f.push(track, color_clip(red(), Time::zero(), secs(4, 1)));
    sampled(f, secs(1, 1), &[MID, MID, MID, MID]);
}

fn cut_every_second_and_a_half(f: &mut Fixture) {
    let track = f.video();
    f.push(track, color_clip(red(), Time::zero(), secs(3, 2)));
    f.push(track, color_clip(blue(), secs(3, 2), secs(3, 2)));
    f.push(track, color_clip(red(), secs(3, 1), secs(3, 2)));
    sampled(f, secs(1, 1), &[MID, MID, OTHER, MID, MID]);
}

fn single_white_frame(f: &mut Fixture) {
    let track = f.video();
    let frame = fps().frame_duration();
    let near_black = Rgba::opaque(6, 0, 0);
    f.push(track, color_clip(near_black, Time::zero(), secs(1, 2)));
    f.push(track, color_clip(Rgba::opaque(255, 255, 255), secs(1, 2), frame));
    f.push(track, color_clip(near_black, secs(1, 2).plus(&frame), secs(1, 2)));
    let mut lumas = vec![390_000; 31];
    lumas[15] = BRIGHT;
    sampled(f, frame, &lumas);
}

fn no_white_frame(f: &mut Fixture) {
    let track = f.video();
    f.push(track, color_clip(Rgba::opaque(6, 0, 0), Time::zero(), secs(1, 1)));
    sampled(f, fps().frame_duration(), &vec![390_000; 30]);
}

/// A sine of the given amplitude is this loud, in millionths of a decibel.
fn mix(f: &mut Fixture, integrated: i64, true_peak: i64, clipped: u64, silences: Vec<Span>) {
    let gain = LoudnessProfile::YouTube.target_lufs() * 1_000_000 - integrated;
    f.heard = Some(Heard { integrated, true_peak, gain, clipped, silences });
}

fn loud_mix(f: &mut Fixture) {
    mix(f, -470_000, -440_000, 0, Vec::new());
}

/// The same mix with the correction that the finding recommends applied.
fn normalized_mix(f: &mut Fixture) {
    loud_mix(f);
    let heard = f.heard.as_mut().unwrap();
    heard.integrated += heard.gain;
    heard.true_peak += heard.gain;
    heard.gain = 0;
}

fn summed_past_full_scale(f: &mut Fixture) {
    mix(f, 5_900_000, 6_000_000, 48_000, Vec::new());
}

fn quiet_enough_not_to_clip(f: &mut Fixture) {
    mix(f, -10_400_000, -10_400_000, 0, Vec::new());
}

fn audio_clip(f: &mut Fixture, track: usize, start: Time, duration: Time) {
    let tone = Source::Generator { generator: "tone".to_string() };
    f.push(track, Clip::new("clp".to_string(), tone, start, duration));
}

fn hole_in_the_audio(f: &mut Fixture) {
    let track = f.track(TrackKind::Audio);
    audio_clip(f, track, Time::zero(), secs(1, 1));
    audio_clip(f, track, secs(4, 1), secs(1, 1));
    mix(f, -14_000_000, -6_000_000, 0, vec![Span::new(secs(1, 1), secs(4, 1))]);
}

fn continuous_audio(f: &mut Fixture) {
    let track = f.track(TrackKind::Audio);
    audio_clip(f, track, Time::zero(), secs(5, 1));
    mix(f, -14_000_000, -6_000_000, 0, Vec::new());
}

/// Two tracks that play at once, as loud as their tones are, judged where both play.
fn two_beds(f: &mut Fixture, ducked: bool) {
    let music = f.track(TrackKind::Audio);
    audio_clip(f, music, Time::zero(), secs(3, 1));
    let voice = f.track(TrackKind::Audio);
    audio_clip(f, voice, Time::zero(), secs(3, 1));
    if ducked {
        let against = f.sequence().tracks[voice].id.clone();
        f.sequence().tracks[music].clips[0].ducking = Some(against);
    }
    mix(f, -14_000_000, -6_000_000, 0, Vec::new());
    let sequence = f.sequence();
    let pairs = duck_pairs(&sequence.tracks).expect("pairs");
    let levels: Vec<(i64, i64)> = pairs.iter().map(|_| (-13_500_000, -14_100_000)).collect();
    f.ducking = ducking_rules(&f.project.sequences[0].tracks, &pairs, &levels);
}

fn music_over_voice(f: &mut Fixture) {
    two_beds(f, false);
}

fn ducked_music_over_voice(f: &mut Fixture) {
    two_beds(f, true);
}

// ---------------------------------------------------------------------------
// The table
// ---------------------------------------------------------------------------

/// One rule, one document that must trip it, one that must not.
struct Case {
    rule: &'static str,
    size: [u32; 2],
    render: bool,
    fires: fn(&mut Fixture),
    clean: fn(&mut Fixture),
}

fn document(rule: &'static str, fires: fn(&mut Fixture), clean: fn(&mut Fixture)) -> Case {
    Case { rule, size: [320, 180], render: false, fires, clean }
}

fn rendered(rule: &'static str, fires: fn(&mut Fixture), clean: fn(&mut Fixture)) -> Case {
    Case { rule, size: [320, 180], render: true, fires, clean }
}

fn hd(case: Case) -> Case {
    Case { size: [1920, 1080], ..case }
}

fn cases() -> Vec<Case> {
    vec![
        document("gap", with_hole, adjacent),
        document("overlap", colliding, adjacent),
        document("orphan-transition", dangling_transition, supported_transition),
        document("past-source-end", reads_past_source, inside_source),
        document("speed-frame-drop", retimed_below_one_frame, played_at_speed_one),
        document("fps-mismatch", off_rate_source, played_at_speed_one),
        document("vfr-source", variable_rate_source, played_at_speed_one),
        hd(document("upscaled", small_source, matching_source)),
        hd(document("letterboxed", four_by_three_source, matching_source)),
        document("av-drift", drifted_link, aligned_link),
        document("caption-too-fast", unreadably_fast_caption, comfortable_caption),
        document("caption-overlap", overlapping_captions, sequential_captions),
        document("caption-too-long", three_line_caption, two_line_caption),
        document("unreferenced-asset", orphan_asset, used_asset),
        document("missing-asset", asset_without_bytes, used_asset),
        document("stale-proxy", missing_proxy, present_proxy),
        document("title-overflow", overflowing_title, contained_title),
        document("unsafe-area", title_against_the_edge, contained_title),
        document("font-fallback", title_in_an_absent_font, contained_title),
        document("tiny-type", title_in_unreadable_type, contained_title),
        rendered("low-contrast", white_on_white, white_on_dark),
        rendered("black-frames", dead_black_stretch, coloured_stretch),
        rendered("frozen-frames", still_for_seconds, cut_every_second_and_a_half),
        rendered("flash", single_white_frame, no_white_frame),
        rendered("loudness-out-of-spec", loud_mix, normalized_mix),
        rendered("true-peak", loud_mix, normalized_mix),
        rendered("clipping", summed_past_full_scale, quiet_enough_not_to_clip),
        rendered("silence-gap", hole_in_the_audio, continuous_audio),
        rendered("unducked-music", music_over_voice, ducked_music_over_voice),
    ]
}

fn findings(case: &Case, build: fn(&mut Fixture)) -> Vec<Finding> {
    let mut fixture = Fixture::new(case.size);
    build(&mut fixture);
    fixture.lint(&LintOptions { render: case.render, ..LintOptions::default() })
}

fn rules_seen(findings: &[Finding]) -> Vec<&'static str> {
    let mut seen: Vec<&'static str> = findings.iter().map(|f| f.rule).collect();
    seen.sort_unstable();
    seen.dedup();
    seen
}

fn document_only() -> LintOptions {
    LintOptions { render: false, ..LintOptions::default() }
}

#[test]
fn the_table_covers_every_rule_the_crate_can_emit() {
    let covered: BTreeSet<&str> = cases().iter().map(|case| case.rule).collect();
    let declared: BTreeSet<&str> = RULES.iter().copied().collect();
    assert_eq!(
        covered, declared,
        "every rule needs a fixture that trips it and one that does not"
    );
}

#[test]
fn every_rule_fires_on_its_fixture_and_stays_quiet_on_the_clean_one() {
    for case in cases() {
        let fired = findings(&case, case.fires);
        assert!(
            fired.iter().any(|finding| finding.rule == case.rule),
            "'{}' did not fire on its triggering fixture; saw {:?}",
            case.rule,
            rules_seen(&fired)
        );
        let clean = findings(&case, case.clean);
        assert!(
            !clean.iter().any(|finding| finding.rule == case.rule),
            "'{}' fired on its clean fixture; saw {:?}",
            case.rule,
            rules_seen(&clean)
        );
    }
}

#[test]
fn a_document_only_pass_skips_every_rule_that_needs_pixels() {
    let mut fixture = Fixture::new([320, 180]);
    dead_black_stretch(&mut fixture);
    for finding in fixture.lint(&document_only()) {
        assert!(
            !RENDER_RULES.contains(&finding.rule),
            "'{}' needs pixels and must not run without them",
            finding.rule
        );
    }
}

#[test]
fn a_picture_that_is_cropped_has_no_bars() {
    let mut fixture = Fixture::new([1920, 1080]);
    four_by_three_source(&mut fixture);
    assert!(rules_seen(&fixture.lint(&document_only())).contains(&"letterboxed"));
    for track in fixture.sequence().tracks.iter_mut() {
        for clip in track.clips.iter_mut() {
            clip.fit = "cover".to_string();
        }
    }
    assert!(!rules_seen(&fixture.lint(&document_only())).contains(&"letterboxed"));
}

#[test]
fn a_picture_of_any_size_is_measured() {
    let mut fixture = Fixture::new([1920, 1080]);
    four_by_three_source(&mut fixture);
    for place in fixture.places.iter_mut() {
        place.width = i64::MAX;
        place.height = i64::MAX;
    }
    let found = fixture.lint(&document_only());
    let told = found.iter().find(|finding| finding.rule == "letterboxed").expect("bars");
    // A square of 2^63 - 1 millionths of a pixel over 1920x1080, in percent.
    assert!(told.detail.ends_with(" so -4102555542546036643775% of the frame is bars"), "{told:?}");
    let mut text = placed("far", [0, 0, 10, 10], 20);
    text.x = i64::MAX;
    text.w = i64::MAX;
    assert!(text.overflows([320, 180]));
    assert!(!text.in_safe_area([320, 180], 900));
}

#[test]
fn upscaling_is_reported_with_the_ratio_it_measured() {
    let mut fixture = Fixture::new([1920, 1080]);
    small_source(&mut fixture);
    let findings = fixture.lint(&document_only());
    let upscaled = findings
        .iter()
        .find(|finding| finding.rule == "upscaled")
        .expect("a 320x180 source on a 1080p sequence is upscaled");
    // 1920 / 320: the ratio has to be the real number, because an agent decides whether to
    // re-import at a higher resolution by comparing it against 1.
    assert_eq!(upscaled.value, Some(rat(6, 1)));
    assert_eq!(upscaled.required, Some(rat(1, 1)));
}

#[test]
fn contrast_is_left_out_where_nothing_is_rendered() {
    let mut case = rendered("low-contrast", white_on_white, white_on_dark);
    case.render = false;
    let found = findings(&case, white_on_white);
    assert!(
        !found.iter().any(|finding| finding.rule == "low-contrast"),
        "saw {:?}",
        rules_seen(&found)
    );
}

#[test]
fn quoted_families_are_asked_for_without_their_quotes() {
    let families = dvs::digest_title::requested_families(
        "<svg><text font-family=\"'Open Sans', Arial\">hi</text></svg>",
    );
    assert_eq!(families, ["open sans", "arial"]);
}

#[test]
fn a_quote_that_is_not_closed_ends_the_families() {
    let families = |svg: &str| dvs::digest_title::requested_families(svg);
    assert_eq!(families("<text font-family=\"a'b\" x=\"c\">hi</text>"), ["a"]);
    assert_eq!(families("<text font-family='a\"b' id='c'>hi</text>"), ["a"]);
    assert_eq!(
        families("<text style=\"font-family: Arial, 'Open Sans; fill: red\" id='x'>hi</text>"),
        ["arial"]
    );
    assert_eq!(families("<text font-family=\"'A, B'\">hi</text>"), ["a", "b"]);
    assert_eq!(families("<text font-family=\"Sans-Serif, MONOSPACE\">hi</text>"), [""; 0]);
    assert_eq!(families("<text>font</text>"), [""; 0]);
    for family in families("<style>t { font-family: \"x'y\", Z }</style><a font-family=\"q'\"/>") {
        assert!(!family.contains(['\'', '"', '<', ',', ';', '}']), "{family}");
        assert_eq!(family, family.trim().to_ascii_lowercase());
    }
}

#[test]
fn contrast_is_measured_against_the_rendered_backdrop_not_the_document() {
    // The same title; only what was measured behind it differs.
    let case = rendered("low-contrast", white_on_white, white_on_dark);
    let over_white = findings(&case, white_on_white);
    let dark = findings(&case, white_on_dark);
    let failing = over_white
        .iter()
        .find(|finding| finding.rule == "low-contrast")
        .expect("white on white must fail");
    let ratio = failing.value.expect("ratio");
    assert!(
        (ratio.num as f64 / ratio.den as f64) < 1.5,
        "white on white should be near 1:1, got {:?}",
        failing.value
    );
    assert!(
        !dark.iter().any(|finding| finding.rule == "low-contrast"),
        "white on a dark clip is legible; saw {:?}",
        rules_seen(&dark)
    );
}

#[test]
fn a_caption_at_the_style_ceiling_passes_and_one_above_it_does_not() {
    let mut fixture = Fixture::new([320, 180]);
    let track = fixture.track(TrackKind::Caption);
    // Exactly at the ceiling: 20 non-space characters in one second.
    fixture.cue(track, Span::new(Time::zero(), secs(1, 1)), "abcdefghijklmnopqrst");
    let (most, lines) = {
        let sequence = &fixture.project.sequences[0];
        let track = &sequence.tracks[track];
        dvs::lint_caption::limits(&fixture.project, track, &track.cues[0])
    };
    assert_eq!(most, rat(20, 1));
    assert_eq!(lines, 2);
    assert!(
        !rules_seen(&fixture.lint(&document_only())).contains(&"caption-too-fast"),
        "a cue exactly at the ceiling is inside spec"
    );
    fixture.sequence().tracks[track].cues[0].text.push('u');
    assert!(rules_seen(&fixture.lint(&document_only())).contains(&"caption-too-fast"));
}

#[test]
fn severity_orders_so_the_worst_finding_decides_the_exit_code() {
    assert!(Severity::Error > Severity::Warning);
    assert!(Severity::Warning > Severity::Info);
    let mut fixture = Fixture::new([320, 180]);
    reads_past_source(&mut fixture);
    let findings = fixture.lint(&document_only());
    assert_eq!(findings.iter().map(|f| f.severity).max(), Some(Severity::Error));
    assert!(dvs::finding::has_errors(&findings));
    assert!(!dvs::finding::has_errors(&Vec::new()));
}

#[test]
fn profiles_carry_the_published_targets() {
    assert_eq!(LoudnessProfile::parse("yt").expect("alias"), LoudnessProfile::YouTube);
    assert_eq!(LoudnessProfile::parse("r128").expect("alias"), LoudnessProfile::Broadcast);
    assert_eq!(LoudnessProfile::YouTube.target_lufs(), -14);
    assert_eq!(LoudnessProfile::Podcast.target_lufs(), -16);
    assert_eq!(LoudnessProfile::Broadcast.target_lufs(), -23);
    assert!(LoudnessProfile::parse("spotify-ish").is_err());
    for profile in
        [LoudnessProfile::YouTube, LoudnessProfile::Podcast, LoudnessProfile::Broadcast]
    {
        assert_eq!(LoudnessProfile::parse(profile.name()).expect("its name"), profile);
    }
}

/// Every id that the document has.
fn known_ids(project: &Project) -> BTreeSet<String> {
    let mut ids = BTreeSet::new();
    for asset in &project.assets {
        ids.insert(asset.id.clone());
    }
    for sequence in &project.sequences {
        ids.insert(sequence.id.clone());
        for track in &sequence.tracks {
            ids.insert(track.id.clone());
            ids.insert(track.name.clone());
            for clip in &track.clips {
                ids.insert(clip.id.clone());
            }
            for cue in &track.cues {
                ids.insert(cue.id.clone());
            }
        }
    }
    ids
}

/// A target names something that exists: by its id, or by what kind of track it is on.
fn assert_target_exists(project: &Project, rule: &str, target: &str) {
    let head = target.split('@').next().unwrap();
    let sequence = &project.sequences[0];
    let exists = match head {
        "track[kind=video]" => sequence.tracks.iter().any(|t| t.kind == TrackKind::Video),
        "track[kind=audio]" => sequence.tracks.iter().any(|t| t.kind == TrackKind::Audio),
        "track[kind=caption]" => sequence.tracks.iter().any(|t| t.kind == TrackKind::Caption),
        _ => known_ids(project).contains(head),
    };
    assert!(exists, "'{rule}' target '{target}' named nothing");
}

#[test]
fn every_document_finding_targets_something_that_exists() {
    let mut fixture = Fixture::new([320, 180]);
    // A document that trips as many document rules at once as one can: a hole, a retimed clip
    // over an off-rate source, a fast caption and an orphan asset.
    let track = fixture.video();
    let asset = fixture.asset(
        "talk.mp4",
        video_probe([320, 180], Fps::new(25, 1).unwrap(), secs(10, 1)),
        true,
    );
    let mut clip = Clip::new("clp".to_string(), source_of(&asset), Time::zero(), secs(2, 1));
    clip.speed = rat(1, 2);
    fixture.push(track, clip);
    fixture.push(track, color_clip(blue(), secs(4, 1), secs(2, 1)));
    fixture.asset("unused.mp4", native_probe(), true);
    unreadably_fast_caption(&mut fixture);
    overflowing_title(&mut fixture);

    let findings = fixture.lint(&document_only());
    let seen = rules_seen(&findings);
    for expected in ["gap", "speed-frame-drop", "fps-mismatch", "unreferenced-asset"] {
        assert!(seen.contains(&expected), "expected {expected} in {seen:?}");
    }
    for finding in &findings {
        assert_target_exists(&fixture.project, finding.rule, &finding.target);
    }
}

#[test]
fn an_overlay_track_is_not_reported_as_a_gap() {
    // A lower third on V2 is absent for most of the timeline by construction.
    let case = document("gap", with_hole, adjacent);
    let covered = findings(&case, |f| {
        let base = f.video();
        f.push(base, color_clip(red(), Time::zero(), secs(6, 1)));
        let overlay = f.video();
        f.push(overlay, color_clip(blue(), secs(2, 1), secs(1, 1)));
    });
    assert!(
        !rules_seen(&covered).contains(&"gap"),
        "a covered overlay reported a gap: {covered:#?}"
    );

    // A hole nothing covers is still a hole, even with a second track present.
    let uncovered = findings(&case, |f| {
        let base = f.video();
        f.push(base, color_clip(red(), Time::zero(), secs(2, 1)));
        f.push(base, color_clip(red(), secs(4, 1), secs(2, 1)));
        let overlay = f.video();
        f.push(overlay, color_clip(blue(), Time::zero(), secs(1, 1)));
    });
    assert!(
        rules_seen(&uncovered).contains(&"gap"),
        "an uncovered hole must still be reported: {uncovered:#?}"
    );
}

#[test]
fn every_audio_finding_targets_something_that_exists() {
    let mut fixture = Fixture::new([320, 180]);
    hole_in_the_audio(&mut fixture);
    let audio: Vec<Finding> = fixture
        .lint(&LintOptions::default())
        .into_iter()
        .filter(|finding| {
            matches!(
                finding.rule,
                "silence-gap" | "loudness-out-of-spec" | "true-peak" | "clipping"
            )
        })
        .collect();
    assert!(
        audio.iter().any(|finding| finding.rule == "silence-gap"),
        "the fixture has a hole in its audio"
    );
    for finding in &audio {
        assert_target_exists(&fixture.project, finding.rule, &finding.target);
    }
}

#[test]
fn a_negative_interval_is_refused() {
    let fixture = Fixture::new([320, 180]);
    let options = LintOptions { sample_every: secs(-1, 1), ..LintOptions::default() };
    let error =
        lint(&fixture.project, "seq_main", &options, &Vec::new(), &Vec::new(), None).unwrap_err();
    assert_eq!(error.message(), "sample-every cannot be negative, got -1/1");
    let error = lint(
        &fixture.project,
        "seq_gone",
        &LintOptions::default(),
        &Vec::new(),
        &Vec::new(),
        None,
    )
    .unwrap_err();
    assert_eq!(error.kind(), "no-match");
}

// ---------------------------------------------------------------------------
// Digests
// ---------------------------------------------------------------------------

#[test]
fn a_hole_on_a_track_is_reported_and_filling_it_removes_the_report() {
    let mut fixture = Fixture::new([320, 180]);
    let track = fixture.video();
    fixture.push(track, color_clip(red(), Time::zero(), secs(2, 1)));
    fixture.push(track, color_clip(blue(), secs(4, 1), secs(2, 1)));

    let holed = fixture.digest(false, None);
    assert_eq!(holed.gaps.len(), 1, "one hole, got {:?}", holed.gaps);
    assert_eq!(holed.gaps[0].range, Span::new(secs(2, 1), secs(4, 1)));
    let id = fixture.sequence().tracks[track].id.clone();
    assert!(
        holed.warnings.iter().any(|warning| warning.code == "gap" && warning.target == id),
        "the gap warning names the track it is on: {:?}",
        holed.warnings
    );
    for warning in &holed.warnings {
        assert_target_exists(&fixture.project, warning.code, &warning.target);
    }

    // Slide the second clip back against the first: same document, no hole.
    fixture.sequence().tracks[track].clips[1].start = secs(2, 1);
    let filled = fixture.digest(false, None);
    assert!(filled.gaps.is_empty(), "a filled track has no gaps, got {:?}", filled.gaps);
    assert!(
        !filled.warnings.iter().any(|warning| warning.code == "gap"),
        "and no gap warning"
    );
}

#[test]
fn a_title_that_runs_off_the_frame_is_reported_as_overflowing() {
    let mut fixture = Fixture::new([320, 180]);
    overflowing_title(&mut fixture);
    let report = fixture.digest(false, None);
    let text = report.titles.first().expect("one measured text run");
    assert!(text.overflow, "{text:?} extends past 320x180");
    assert!(
        report.warnings.iter().any(|warning| warning.code == "title-overflow"),
        "and the digest warns about it"
    );
}

#[test]
fn a_title_inside_the_safe_area_is_reported_clean() {
    let mut fixture = Fixture::new([320, 180]);
    contained_title(&mut fixture);
    let report = fixture.digest(false, None);
    let text = report.titles.first().expect("one measured text run");
    assert!(!text.overflow, "{text:?} fits");
    assert!(text.in_safe_area, "{text:?} is inside the safe area");
    assert_eq!(text.font_fallback, None, "sans-serif resolves everywhere");
}

#[test]
fn a_retimed_clip_reports_the_source_it_consumes_not_its_timeline_length() {
    let mut fixture = Fixture::new([320, 180]);
    let asset = fixture.asset("talk.mp4", video_probe([320, 180], fps(), secs(6, 1)), true);
    let track = fixture.video();
    let mut clip = Clip::new("clp".to_string(), source_of(&asset), Time::zero(), secs(2, 1));
    clip.source_in = secs(1, 1);
    clip.speed = rat(2, 1);
    fixture.push(track, clip);
    let report = fixture.digest(false, None);
    let entry = &report.tracks[0].clips[0];
    assert_eq!(entry.range, Span::new(Time::zero(), secs(2, 1)));
    // Two seconds of timeline at double speed reads four seconds of source.
    assert_eq!(entry.source_range, Some(Span::new(secs(1, 1), secs(5, 1))));
    assert_eq!(entry.speed.as_deref(), Some("2/1"));
}

fn some_audio() -> AudioDigest {
    AudioDigest {
        integrated_lufs: -11_000_000,
        true_peak_db: -8_000_000,
        lra: 0,
        short_term_min_lufs: -11_000_000,
        silences: Vec::new(),
        clipped_samples: 0,
    }
}

#[test]
fn a_video_clips_own_sound_is_measured() {
    // No audio track at all: the sound lives on the video clip.
    let mut fixture = Fixture::new([320, 180]);
    let asset = fixture.asset("talk.mp4", video_probe([320, 180], fps(), secs(2, 1)), true);
    let track = fixture.video();
    fixture
        .push(track, Clip::new("clp".to_string(), source_of(&asset), Time::zero(), secs(2, 1)));
    let report = fixture.digest(true, Some(some_audio()));
    let audio = report.audio.expect("a video clip's own sound must be measured");
    assert!(audio.integrated_lufs < 0);
    assert!(fixture.digest(false, Some(some_audio())).audio.is_none());
}

#[test]
fn a_document_asking_for_a_font_nobody_has_reports_what_was_used_instead() {
    let mut fixture = Fixture::new([320, 180]);
    title_in_an_absent_font(&mut fixture);
    let report = fixture.digest(false, None);
    let text = report.titles.first().expect("one measured text run");
    let used = text
        .font_fallback
        .as_deref()
        .expect("a missing family must be reported as a substitution");
    assert_ne!(
        used.to_ascii_lowercase(),
        "no such face 9000",
        "the reported family is the one actually rendered"
    );
    assert_eq!(used, "DejaVu Sans");
}

#[test]
fn captions_are_summed_up() {
    let mut fixture = Fixture::new([320, 180]);
    overlapping_captions(&mut fixture);
    let captions = fixture.digest(false, None).captions;
    assert_eq!(captions.cues, 2);
    assert_eq!(captions.overlaps, 1);
    assert_eq!(captions.max_cps, rat(3, 1));
    assert_eq!(captions.too_long, 0);
}

// ---------------------------------------------------------------------------
// Operations
// ---------------------------------------------------------------------------

fn json(text: &str) -> Json {
    parse_json(&text.as_bytes().to_vec()).expect("JSON")
}

fn member<'a>(node: &'a Json, name: &str) -> &'a Json {
    match node {
        Json::Object(fields) => {
            &fields.iter().find(|field| field.name == name).expect("a field").value
        },
        _ => panic!("not an object"),
    }
}

fn number(node: &Json) -> f64 {
    match node {
        Json::Number(text) => text.parse().expect("a number"),
        _ => panic!("not a number"),
    }
}

fn length(node: &Json) -> usize {
    match node {
        Json::Array(items) => items.len(),
        _ => panic!("not an array"),
    }
}

#[test]
fn the_registered_ids_are_the_published_ones() {
    let ops: Vec<dvs::ops::OpEntry> = dvs::ops::operations()
        .into_iter()
        .filter(|op| {
            op.id.starts_with("inspect.") || op.id.starts_with("marker.") || op.id.starts_with("seq.")
        })
        .collect();
    let mut ids: Vec<&str> = ops.iter().map(|op| op.id).collect();
    ids.sort_unstable();
    assert_eq!(
        ids,
        vec![
            "inspect.digest",
            "inspect.lint",
            "inspect.loudness",
            "inspect.probe",
            "inspect.scenes",
            "inspect.silence",
            "marker.from-scenes",
            "seq.auto-cut-scenes",
        ]
    );
    for op in ops {
        assert_eq!(
            op.query,
            op.id.starts_with("inspect."),
            "'{}' is on the wrong side of the query line",
            op.id
        );
    }
}

#[test]
fn lint_reports_findings_as_data_instead_of_failing() {
    let mut fixture = Fixture::new([320, 180]);
    // A hole and a clip reading past its source: one warning, one error.
    let inner = fixture.nested(secs(2, 1));
    let track = fixture.video();
    let source = Source::Sequence { sequence: inner };
    fixture.push(track, Clip::new("clp".to_string(), source, Time::zero(), secs(5, 1)));
    fixture.push(track, color_clip(red(), secs(8, 1), secs(1, 1)));

    let (options, _) =
        dvs::inspect_ops::lint_request(&json(r#"{"render":false}"#), fps()).expect("arguments");
    let findings = fixture.lint(&options);
    let data = dvs::inspect_ops::lint_data(&findings, &options);
    let counts = member(&data, "counts");
    assert!(number(member(counts, "error")) >= 1.0, "past-source-end is an error");
    assert!(number(member(counts, "warning")) >= 1.0, "the gap is a warning");
    assert_eq!(length(member(&data, "rules")), RULES.len());
    assert_eq!(
        length(member(&data, "skipped")),
        RENDER_RULES.len(),
        "a document-only pass says which rules it did not run"
    );
    assert!(
        !dvs::inspect_ops::finding_warnings(&findings).is_empty(),
        "findings also surface as warnings so a human sees them"
    );
}

#[test]
fn a_typo_in_an_argument_is_an_error_rather_than_a_silent_default() {
    let error = dvs::inspect_ops::scenes_request(&json(r#"{"threshhold":0.4}"#), fps())
        .expect_err("unknown argument");
    assert!(
        error.message().contains("threshhold"),
        "the error names the typo: {}",
        error.message()
    );
}

#[test]
fn loudness_reports_the_gain_that_would_reach_the_profile() {
    let target =
        dvs::inspect_ops::loudness_request(&json(r#"{"profile":"podcast"}"#)).expect("arguments");
    let integrated = -9_021_000;
    let mix = dvs::inspect_ops::Loudness {
        gain: target.target_lufs() * 1_000_000 - integrated,
        rate: RATE,
        channels: 2,
        integrated,
        true_peak: -6_020_000,
        range: 0,
        short_term_min: integrated,
        clipped: 0,
    };
    let data = dvs::inspect_ops::loudness_data(&mix, target);
    assert_eq!(number(member(&data, "targetLufs")), -16.0);
    let measured = number(member(&data, "integratedLufs"));
    let gain = number(member(&data, "gainDb"));
    assert!(
        (measured + gain - -16.0).abs() < 1e-3,
        "measured {measured} plus gain {gain} must land on the target"
    );
    assert!(dvs::inspect_ops::check_mix("main", 0).is_err());
    assert!(dvs::inspect_ops::check_mix("main", 1).is_ok());
}

#[test]
fn silence_is_asked_for_by_level_and_length() {
    let (level, least) = dvs::inspect_ops::silence_request(&json("{}"), fps()).expect("defaults");
    assert_eq!(level, rat(-45, 1));
    assert_eq!(least, secs(1, 2));
    let (level, least) = dvs::inspect_ops::silence_request(
        &json(r#"{"threshold-db":-30.5,"min-duration":"2s"}"#),
        fps(),
    )
    .expect("arguments");
    assert_eq!(level, rat(-61, 2));
    assert_eq!(least, secs(2, 1));
    let error =
        dvs::inspect_ops::silence_request(&json(r#"{"threshold-db":3}"#), fps()).unwrap_err();
    assert_eq!(
        error.message(),
        "threshold-db is a level below full scale and must not be positive, got 3"
    );
    let data = dvs::inspect_ops::silence_data(
        &vec![Span::new(secs(1, 1), secs(5, 2))],
        level,
        least,
    );
    assert_eq!(number(member(&data, "thresholdDb")), -30.5);
    assert_eq!(number(member(&data, "count")), 1.0);
    match member(&data, "silences") {
        Json::Array(items) => assert_eq!(number(member(&items[0], "duration")), 1.5),
        _ => panic!("not an array"),
    }
}

#[test]
fn sampling_arguments_are_held_to_their_bounds() {
    let (options, scale) = dvs::inspect_ops::digest_request(
        &json(r#"{"sample-every":"1f","scale":0.25,"proxy":false,"audio":false}"#),
        fps(),
    )
    .expect("arguments");
    assert_eq!(options.sample_every, secs(1, 30));
    assert!(!options.use_proxy);
    assert!(!options.with_audio);
    assert_eq!(scale, rat(1, 4));
    for bad in [r#"{"scale":0}"#, r#"{"scale":1.5}"#, r#"{"scale":-1}"#] {
        let error = dvs::inspect_ops::digest_request(&json(bad), fps()).unwrap_err();
        assert!(error.message().starts_with("scale must be greater than 0"), "{bad}");
    }
    for bad in [r#"{"threshold":0}"#, r#"{"threshold":3.5}"#] {
        let error = dvs::inspect_ops::scenes_request(&json(bad), fps()).unwrap_err();
        assert!(error.message().starts_with("scene threshold must be between"), "{bad}");
    }
    let asked = dvs::inspect_ops::markers_request(&json(r#"{"prefix":"shot"}"#), fps())
        .expect("arguments");
    assert_eq!(asked.prefix, "shot");
    assert!(asked.replace);
    assert_eq!(asked.threshold, rat(3, 10));
    let asked =
        dvs::inspect_ops::auto_cut_request(&json(r#"{"track":"V1"}"#), fps()).expect("arguments");
    assert_eq!(asked.track, Some("V1".to_string()));
}

#[test]
fn every_pair_of_heard_tracks_is_measured_once() {
    let mut f = Fixture::new([320, 180]);
    for start in [0, 1, 10] {
        let track = f.track(TrackKind::Audio);
        audio_clip(&mut f, track, Time::from_secs(start), secs(3, 1));
    }
    f.video();
    f.track(TrackKind::Audio);
    let tracks = &f.project.sequences[0].tracks;
    assert!(has_sound(&f.project, tracks));
    assert!(!has_sound(&f.project, &tracks[3..].to_vec()));
    let pairs = duck_pairs(tracks).expect("pairs");
    let found: Vec<(usize, usize, Span)> =
        pairs.iter().map(|pair| (pair.first, pair.second, pair.span)).collect();
    let shared = measured_window(&tracks[0], &tracks[1]).expect("a shared stretch");
    assert_eq!(found, vec![(0, 1, shared)]);
    let findings = ducking_rules(tracks, &pairs, &vec![(-13_500_000, -14_100_000)]);
    let alone = ducking_rule(&tracks[0], &tracks[1], shared, -13_500_000, -14_100_000);
    assert_eq!(format!("{findings:?}"), format!("{:?}", vec![alone.expect("a finding")]));
    assert!(ducking_rules(tracks, &pairs, &vec![(-13_500_000, -40_000_000)]).is_empty());
}

#[test]
fn a_talking_head_is_heard_without_an_audio_track() {
    let mut f = Fixture::new([320, 180]);
    matching_source(&mut f);
    assert!(!has_sound(&f.project, &f.project.sequences[0].tracks), "a silent picture");
    f.project.assets[0].probe.audio = Some(dvs::project::AudioStream {
        stream_index: 1,
        rate: 48000,
        channels: 2,
        codec: "aac".to_string(),
        bit_rate: None,
    });
    assert!(has_sound(&f.project, &f.project.sequences[0].tracks));
    f.project.sequences[0].tracks[0].muted = true;
    assert!(!has_sound(&f.project, &f.project.sequences[0].tracks), "a muted one");
}

#[test]
fn a_sequence_that_cannot_be_measured_is_refused() {
    let mut f = Fixture::new([320, 180]);
    with_hole(&mut f);
    let options = LintOptions { render: false, ..LintOptions::default() };
    let plain = f.lint(&options);
    let checked =
        check_sequence(&f.project, "seq_main", &options, &f.places, &f.titles, None).expect("runs");
    assert_eq!(format!("{checked:?}"), format!("{plain:?}"));
    let asked = DigestOptions { sample_every: secs(1, 1), use_proxy: false, with_audio: false };
    let video =
        VideoDigest { seen: f.seen.clone(), scene_cuts: Vec::new(), samples: 0 };
    let described =
        describe_sequence(&f.project, "seq_main", &asked, &f.places, video.clone(), &f.titles, None)
            .expect("runs");
    assert_eq!(format!("{described:?}"), format!("{:?}", f.digest(false, None)));

    f.sequence().tracks[0].clips[1].start = Time { secs: Rat { num: i64::MAX, den: 1 } };
    let error = check_sequence(&f.project, "seq_main", &options, &f.places, &f.titles, None)
        .unwrap_err();
    assert_eq!(error.message(), "sequence 'main' holds numbers that cannot be measured");
    let error =
        describe_sequence(&f.project, "seq_main", &asked, &f.places, video, &f.titles, None)
            .unwrap_err();
    assert_eq!(error.message(), "sequence 'main' holds numbers that cannot be measured");
    let error = check_sequence(&f.project, "seq_gone", &options, &f.places, &f.titles, None)
        .unwrap_err();
    assert_eq!(error.kind(), "no-match");
}

#[test]
fn a_title_is_looked_at_in_the_middle_of_its_clip() {
    let mut f = Fixture::new([320, 180]);
    contained_title(&mut f);
    let clips = dvs::digest_title::title_clips(&f.project.sequences[0]);
    assert_eq!(clips, vec![("clp_0_0".to_string(), secs(1, 1))]);
    let mut plain = Fixture::new([320, 180]);
    adjacent(&mut plain);
    assert!(dvs::digest_title::title_clips(&plain.project.sequences[0]).is_empty());
}
