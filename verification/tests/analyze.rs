use dvs::analyze::{instants, AnalyzeOptions, FrameStat, SCENE_CHANGE};
use dvs::color::Rgba;
use dvs::detect::{analyze, black_runs, cut_windows, cuts, flashes, frozen_runs, CutSearch};
use dvs::diff::{
    compare_plan, report, windows_along, SampleDiff, CHANGED_SSIM, FULL_SSIM, IDENTICAL_SSIM,
};
use dvs::project::{
    Clip, ColorMatrix, ColorRange, Marker, Probe, Sequence, Source, Track, TrackKind, VideoStream,
};
use dvs::rational::Rat;
use dvs::scene_ops::{markers_from_scenes, probe_differences};
use dvs::sheet::{
    annotation_color, annotation_svg, label_svg, plan_sheet, sheet_cell, Layer,
};
use dvs::split_ops::{check_targets, link_warnings, split_track, tracks_to_cut};
use dvs::time::{Fps, Span, Time};

fn fps() -> Fps {
    Fps::new(30, 1).unwrap()
}

fn secs(num: i64, den: i64) -> Time {
    Time::new(num, den).unwrap()
}

fn color_clip(id: &str, start: Time, duration: Time) -> Clip {
    let color = Rgba::opaque(200, 40, 40);
    Clip::new(id.to_string(), Source::Color { color }, start, duration)
}

/// The samples that a timeline of flat shots gives, one every second. A shot is where it starts
/// and how bright it is, in billionths.
fn flat_shots(shots: &[(Time, i64)], seconds: i64) -> Vec<FrameStat> {
    let mut samples: Vec<FrameStat> = Vec::new();
    for second in 0..seconds {
        let at = Time::from_secs(second);
        let luma = shots.iter().filter(|shot| !at.before(&shot.0)).last().unwrap().1;
        let change = match samples.last() {
            Some(before) if before.luma != luma => 2 * SCENE_CHANGE,
            _ => 0,
        };
        samples.push(FrameStat { at, frame: at.frame_round(fps()), luma, change });
    }
    samples
}

/// Searches each window for the first frame from `cut` on.
fn search(windows: Vec<(i64, i64)>, cut: Time) -> Vec<Time> {
    let mut found = Vec::new();
    for (low, high) in windows {
        let mut search = CutSearch { low, high };
        while let Some(middle) = search.middle() {
            search.answer(!Time::from_frames(middle, fps()).before(&cut));
        }
        found.push(search.found(fps()).unwrap());
    }
    found
}

#[test]
fn sampling_lands_on_the_frame_grid_and_never_past_the_end() {
    let range = Span::new(Time::zero(), Time::from_secs(1));
    let every = secs(1, 3);
    let taken = instants(range, every, fps()).unwrap();
    assert_eq!(taken.len(), 3, "three thirds of a second");
    for at in &taken {
        assert_eq!(Time::from_frames(at.frame_round(fps()), fps()), *at, "not on the frame grid");
        assert!(at.before(&range.end), "{at:?} is past the end of the range");
    }
    // An interval finer than a frame cannot produce more samples than there are frames.
    let dense = instants(range, secs(1, 1000), fps()).unwrap();
    assert_eq!(dense.len(), 30);
    // None at all is a wish for every frame.
    assert_eq!(instants(range, Time::zero(), fps()).unwrap().len(), 30);
}

#[test]
fn a_cut_is_found_at_the_frame_it_happens_on_not_at_the_sample_that_saw_it() {
    // The cut sits at 2.5 s, between the samples at 2 s and 3 s: a detector that reported the
    // sample instant would answer 3 s, which is 15 frames out.
    let samples = flat_shots(&[(Time::zero(), 100_000_000), (secs(5, 2), 60_000_000)], 4);
    let windows = cut_windows(&samples, SCENE_CHANGE);
    assert_eq!(windows, vec![(60, 90)]);
    let found = search(windows, secs(5, 2));
    assert_eq!(cuts(&found), vec![secs(5, 2)], "one cut, at 2.5 s exactly");
}

#[test]
fn a_continuous_shot_has_no_cuts() {
    let samples = flat_shots(&[(Time::zero(), 100_000_000)], 4);
    let found = cut_windows(&samples, SCENE_CHANGE);
    assert!(found.is_empty(), "a single flat clip has no shot changes, got {found:?}");
}

#[test]
fn a_black_stretch_is_bounded_by_where_the_blackness_actually_is() {
    let samples = flat_shots(
        &[(Time::zero(), 100_000_000), (secs(2, 1), 0), (secs(4, 1), 100_000_000)],
        6,
    );
    let options = AnalyzeOptions::default();
    let found = cuts(&search(cut_windows(&samples, SCENE_CHANGE), secs(2, 1)));
    let analysis = analyze(samples, &options, secs(6, 1), &found).expect("analyze");
    assert_eq!(analysis.black_ranges, vec![Span::new(secs(2, 1), secs(4, 1))]);
    assert!(
        analysis
            .frozen_ranges
            .iter()
            .all(|frozen| frozen.start.before(&secs(2, 1)) || secs(4, 1).before(&frozen.end)),
        "a black hole is reported as black, not as a freeze: {:?}",
        analysis.frozen_ranges
    );
    assert_eq!(analysis.every, secs(1, 1));
}

#[test]
fn a_freeze_is_as_long_as_it_was_seen() {
    let samples = flat_shots(&[(Time::zero(), 100_000_000), (secs(4, 1), 60_000_000)], 6);
    let options = AnalyzeOptions::default();
    assert_eq!(
        frozen_runs(&samples, &options).unwrap(),
        vec![Span::new(Time::zero(), secs(3, 1))]
    );
    assert!(black_runs(&samples, options.black_luma, options.every, secs(6, 1))
        .unwrap()
        .is_empty());
}

#[test]
fn a_spike_is_a_flash_and_a_step_is_not() {
    let spike = flat_shots(
        &[(Time::zero(), 0), (secs(2, 1), 900_000_000), (secs(3, 1), 0)],
        5,
    );
    assert_eq!(flashes(&spike, 200_000_000), vec![secs(2, 1)]);
    let step = flat_shots(&[(Time::zero(), 0), (secs(2, 1), 900_000_000)], 5);
    assert!(flashes(&step, 200_000_000).is_empty());
    let wild =
        flat_shots(&[(Time::zero(), i64::MIN), (secs(2, 1), i64::MAX), (secs(3, 1), i64::MIN)], 5);
    assert_eq!(flashes(&wild, i64::MAX), vec![secs(2, 1)]);
}

// ---------------------------------------------------------------------------
// Comparing files
// ---------------------------------------------------------------------------

fn file() -> Probe {
    Probe {
        duration: secs(4, 1),
        video: Some(VideoStream {
            stream_index: 0,
            size: [160, 90],
            fps: fps(),
            codec: "h264".to_string(),
            pix_fmt: "yuv420p".to_string(),
            color_range: ColorRange::Tv,
            color_matrix: ColorMatrix::Bt709,
            color_primaries: None,
            transfer: None,
            rotation: 0,
            sar: Rat::new(1, 1).unwrap(),
            frames: None,
            bit_rate: None,
        }),
        audio: None,
        vfr: false,
        container: "mp4".to_string(),
    }
}

fn same(at: Time) -> SampleDiff {
    SampleDiff { at, ssim: FULL_SSIM, mean_diff: 0, max_diff: 0 }
}

#[test]
fn a_file_against_itself_is_identical() {
    let plan = compare_plan(&file(), "a.mp4", &file(), "a.mp4", secs(1, 1)).expect("a plan");
    let range = Span::new(Time::zero(), plan.duration);
    let samples: Vec<SampleDiff> =
        instants(range, plan.step, plan.fps).unwrap().into_iter().map(same).collect();
    let report = report(samples, secs(1, 1), plan.duration, plan.fps).expect("report");
    assert!(report.identical, "a file is identical to itself");
    assert_eq!(report.min_ssim, FULL_SSIM);
    assert_eq!(report.mean_ssim, FULL_SSIM);
    assert!(report.changed_ranges.is_empty());
    assert_eq!(report.samples.len(), 4, "four one-second samples over 4 s");
}

#[test]
fn only_the_window_that_changed_is_reported() {
    let samples: Vec<SampleDiff> = (0..4)
        .map(|second| {
            let at = Time::from_secs(second);
            if second == 1 {
                SampleDiff { at, ssim: 300_000_000, mean_diff: 400_000_000, max_diff: FULL_SSIM }
            } else {
                same(at)
            }
        })
        .collect();
    let report = report(samples, secs(1, 1), secs(4, 1), fps()).expect("report");
    assert!(!report.identical);
    assert_eq!(
        report.changed_ranges,
        vec![Span::new(Time::from_secs(1), Time::from_secs(2))],
        "only the second the box covers changed"
    );
    assert_eq!(report.min_ssim, 300_000_000);
    assert_eq!(report.mean_ssim, 825_000_000);
    assert!(report
        .samples
        .iter()
        .filter(|sample| sample.at != Time::from_secs(1))
        .all(|sample| sample.ssim >= IDENTICAL_SSIM));
    assert!(report.min_ssim < CHANGED_SSIM);
}

#[test]
fn sampling_finer_than_a_frame_does_not_sample_a_frame_twice() {
    let plan = compare_plan(&file(), "a.mp4", &file(), "a.mp4", secs(1, 1000)).expect("a plan");
    let range = Span::new(Time::zero(), plan.duration);
    let samples = instants(range, plan.step, plan.fps).unwrap();
    assert_eq!(samples.len(), 4 * 30, "one sample per frame at most");
}

#[test]
fn a_file_without_pictures_cannot_be_compared() {
    let mut silent = file();
    silent.video = None;
    let error = compare_plan(&file(), "a.mp4", &silent, "b.wav", secs(1, 1)).unwrap_err();
    assert_eq!(error.message(), "'b.wav' has no video stream to compare");
}

// ---------------------------------------------------------------------------
// Sheets
// ---------------------------------------------------------------------------

#[test]
fn the_grid_is_the_one_the_arguments_asked_for() {
    let plan = plan_sheet("main", [320, 180], fps(), secs(5, 1), Time::from_secs(1), 3, 480)
        .expect("contact sheet");
    assert_eq!(plan.instants.len(), 5, "five one-second samples over 5 s");
    assert_eq!(plan.columns, 3);
    assert_eq!(plan.rows, 2, "five cells three wide need two rows");
    // 480 / 3 columns, and the cell keeps the sequence's 16:9 aspect.
    assert_eq!(plan.cell, [160, 90]);
    assert_eq!(plan.size, [480, 180]);

    assert_eq!(sheet_cell(&plan, 0, fps()).timecode, "00:00:00:00");
    let last = sheet_cell(&plan, 4, fps());
    assert_eq!(last.index, 5);
    assert_eq!(last.row, 1);
    assert_eq!(last.column, 1);
}

#[test]
fn an_empty_sequence_cannot_be_sheeted() {
    let error = plan_sheet("main", [320, 180], fps(), Time::zero(), Time::from_secs(1), 3, 480)
        .expect_err("nothing to sheet");
    assert!(error.message().contains("empty"), "the error says why: {}", error.message());
    assert!(plan_sheet("main", [320, 180], fps(), secs(5, 1), secs(1, 1), 0, 480).is_err());
    assert!(plan_sheet("main", [320, 180], fps(), secs(5, 1), secs(-1, 1), 3, 480).is_err());
}

fn layer(clip: &str) -> Layer {
    Layer {
        clip: clip.to_string(),
        track: "V1".to_string(),
        name: clip.to_string(),
        source: "color:#c82828ff".to_string(),
        x: 0,
        y: 0,
        w: 320_000_000,
        h: 180_000_000,
        opacity: 1_000_000,
    }
}

#[test]
fn every_visible_layer_gets_a_numbered_box_carrying_its_clip_id() {
    let svg = annotation_svg(320, 180, &vec![layer("clp_under"), layer("clp_over")]);
    let doc = roxmltree::Document::parse(&svg).expect("valid SVG");
    assert_eq!(doc.root_element().attribute("width"), Some("320"));
    assert!(svg.contains("clp_under"), "{svg}");
    assert!(svg.contains("clp_over"), "{svg}");
    assert_ne!(
        annotation_color(0),
        annotation_color(1),
        "two boxes a vision model has to tell apart cannot share a colour"
    );
    assert!(svg.contains(annotation_color(0)) && svg.contains(annotation_color(1)));
}

#[test]
fn labels_escape_what_they_quote() {
    let svg = label_svg(160, 90, "00:00:01:00", Some("Q&A <takes>"));
    assert!(svg.contains("Q&amp;A"), "{svg}");
    roxmltree::Document::parse(&svg).expect("valid SVG");
}

// ---------------------------------------------------------------------------
// Shot changes
// ---------------------------------------------------------------------------

fn marker(id: &str, at: Time, name: &str) -> Marker {
    Marker { id: id.to_string(), at, name: name.to_string(), note: None }
}

#[test]
fn scene_markers_land_on_the_cut_and_re_running_does_not_duplicate_them() {
    let mut markers: Vec<Marker> = Vec::new();
    let found = vec![secs(5, 2)];
    let gone = markers_from_scenes(
        &mut markers,
        &found,
        &vec!["mk_1".to_string()],
        "scene",
        true,
        "0.3",
        fps(),
    );
    assert!(gone.is_empty());
    assert_eq!(markers.len(), 1, "one cut, one marker");
    assert_eq!(markers[0].at, secs(5, 2), "at the cut, not at the sample");
    assert_eq!(markers[0].name, "scene 1");
    assert_eq!(
        markers[0].note.as_deref(),
        Some("shot change detected at 00:00:02:15 (threshold 0.3)")
    );

    let gone = markers_from_scenes(
        &mut markers,
        &found,
        &vec!["mk_2".to_string()],
        "scene",
        true,
        "0.3",
        fps(),
    );
    assert_eq!(gone, ["mk_1"]);
    assert_eq!(markers.len(), 1, "re-running replaces its own markers rather than piling up");
}

#[test]
fn markers_stay_in_the_order_of_time() {
    let mut markers =
        vec![marker("mk_a", secs(1, 1), "intro"), marker("mk_b", secs(3, 1), "pricing")];
    markers_from_scenes(
        &mut markers,
        &vec![secs(2, 1), secs(3, 1), secs(4, 1)],
        &vec!["mk_1".to_string(), "mk_2".to_string(), "mk_3".to_string()],
        "scene",
        false,
        "0.3",
        fps(),
    );
    let ids: Vec<&str> = markers.iter().map(|m| m.id.as_str()).collect();
    assert_eq!(ids, ["mk_a", "mk_1", "mk_b", "mk_2", "mk_3"]);
}

fn sequence(tracks: Vec<Track>) -> Sequence {
    Sequence {
        id: "seq_main".to_string(),
        name: "main".to_string(),
        fps: fps(),
        size: [320, 180],
        sample_rate: 48_000,
        channels: 2,
        tracks,
        markers: Vec::new(),
    }
}

#[test]
fn auto_cut_splits_at_the_detected_cut_and_keeps_the_timeline_intact() {
    let mut track = Track::new("trk_1".to_string(), "V1".to_string(), TrackKind::Video);
    let source = Source::Asset { asset: "ast_1".to_string() };
    let mut clip = Clip::new("clp_1".to_string(), source, Time::zero(), secs(4, 1));
    clip.link = Some("clp_sound".to_string());
    track.clips.push(clip);
    let mut seq = sequence(vec![track]);
    let before = seq.duration();
    assert_eq!(tracks_to_cut(&seq).unwrap(), [0]);
    let splits = split_track(
        &mut seq.tracks[0].clips,
        &vec![Time::zero(), secs(1, 1), secs(5, 2), secs(4, 1)],
        &vec!["n0".to_string(), "n1".to_string(), "n2".to_string(), "n3".to_string()],
    )
    .expect("auto-cut");
    // A cut on the edge of a clip is a cut already.
    assert_eq!(splits.len(), 2, "two cuts lie inside the clip");
    assert!(splits.iter().any(|split| split.linked));
    let told: Vec<(&str, &str, bool)> =
        splits.iter().map(|s| (s.source.as_str(), s.tail.as_str(), s.linked)).collect();
    // The last cut comes first, so that each is made in the clip that keeps its id.
    assert_eq!(told, [("clp_1", "n2", true), ("clp_1", "n1", true)]);
    let warnings = link_warnings(&splits);
    let warned: Vec<(&str, &str)> =
        warnings.iter().map(|w| (w.code, w.target.as_str())).collect();
    assert_eq!(warned, [("link-dropped", "n2"), ("link-dropped", "n1")]);
    assert_eq!(seq.tracks[0].clips.len(), 3, "the track gained clips");
    assert_eq!(
        seq.duration(),
        before,
        "splitting moves nothing, so the sequence is the same length"
    );
    assert!(
        seq.tracks[0].gaps(seq.duration()).is_empty(),
        "and leaves no hole between the halves"
    );
    for pair in seq.tracks[0].clips.windows(2) {
        assert_eq!(pair[0].end(), pair[1].start);
        assert_eq!(pair[0].source_end(), pair[1].source_in, "the halves play as the one clip did");
    }
}

#[test]
fn auto_cut_refuses_a_sequence_with_no_video_track() {
    let mut track = Track::new("trk_1".to_string(), "A1".to_string(), TrackKind::Audio);
    track.clips.push(color_clip("clp_1", Time::zero(), secs(2, 1)));
    let mut locked = Track::new("trk_2".to_string(), "V1".to_string(), TrackKind::Video);
    locked.locked = true;
    let error = tracks_to_cut(&sequence(vec![track, locked])).expect_err("nothing to cut");
    assert!(
        error.message().contains("video track"),
        "the error says what is missing: {}",
        error.message()
    );
}

#[test]
fn a_locked_track_is_not_cut() {
    let open = Track::new("trk_1".to_string(), "V1".to_string(), TrackKind::Video);
    let mut locked = Track::new("trk_2".to_string(), "V2".to_string(), TrackKind::Video);
    locked.locked = true;
    let sequence = sequence(vec![open, locked]);
    assert!(check_targets(&sequence, &vec![0]).is_ok());
    let error = check_targets(&sequence, &vec![0, 1]).unwrap_err();
    assert_eq!(error.message(), "track 'V2' is locked");
    let error = check_targets(&sequence, &Vec::new()).unwrap_err();
    assert_eq!(error.message(), tracks_to_cut(&self::sequence(Vec::new())).unwrap_err().message());
}

#[test]
fn windows_reach_every_pixel() {
    assert_eq!(windows_along(16), (8, vec![0, 4, 8]));
    assert_eq!(windows_along(18), (8, vec![0, 4, 8, 10]));
    assert_eq!(windows_along(8), (8, vec![0]));
    assert_eq!(windows_along(5), (5, vec![0]));
    assert_eq!(windows_along(1), (1, vec![0]));
    for side in 1..64 {
        let (window, starts) = windows_along(side);
        for pixel in 0..side {
            let around =
                starts.iter().filter(|&&at| at <= pixel && pixel < at + window).count();
            let inner = side > 8 && (4..side - 4).contains(&pixel);
            assert!(around >= if inner { 2 } else { 1 }, "{pixel} of {side}");
        }
    }
}

#[test]
fn probing_an_asset_notices_the_document_disagreeing_with_the_bytes() {
    let mut stored = file();
    if let Some(stream) = stored.video.as_mut() {
        stream.size = [1920, 1080];
    }
    let differences = probe_differences(&stored, &file());
    assert_eq!(differences, ["video size: document says 1920x1080, the file is 160x90"]);
    assert!(probe_differences(&file(), &file()).is_empty());
}

#[test]
fn a_query_op_leaves_no_history_behind() {
    let op = dvs::ops::operations().into_iter().find(|op| op.id == "inspect.scenes").unwrap();
    assert!(op.query, "a query is never journaled");
    let samples = flat_shots(&[(Time::zero(), 100_000_000), (secs(5, 2), 60_000_000)], 5);
    let found = cuts(&search(cut_windows(&samples, SCENE_CHANGE), secs(5, 2)));
    let data = dvs::inspect_ops::scenes_data(
        &found,
        Rat::new(3, 10).unwrap(),
        secs(1, 1),
        fps(),
    );
    match data {
        dvs::json::Json::Object(fields) => match &fields[3].value {
            dvs::json::Json::Array(cuts) => assert_eq!(cuts.len(), 1, "one shot change"),
            _ => panic!("not an array"),
        },
        _ => panic!("not an object"),
    }
}

#[test]
fn a_range_is_held_to_the_sequence() {
    let whole = Span::new(Time::zero(), secs(5, 1));
    assert_eq!(dvs::analyze::clamp_range(None, secs(5, 1)), whole);
    let asked = Span::new(secs(-1, 1), secs(9, 1));
    assert_eq!(dvs::analyze::clamp_range(Some(asked), secs(5, 1)), whole);
    let inner = Span::new(secs(1, 1), secs(2, 1));
    assert_eq!(dvs::analyze::clamp_range(Some(inner), secs(5, 1)), inner);
}
