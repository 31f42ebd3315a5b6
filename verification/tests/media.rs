use dvs::asset_import::{
    add_asset, check_file, check_media, import_request, missing_assets, plan_media, proxy_answer,
    proxy_request, relink, relink_request, remove_request, thumbnails_answer, thumbnails_request,
    waveform_answer, waveform_request, ProxyMode,
};
use dvs::asset_ops::{remove_asset, resolve_asset, users};
use dvs::decode::{
    audio_args, decode_args, image_args, image_size, read_outcome, synthesize_args,
    wanted_samples, DecodeSpec, DecodeState, Picture, Read,
};
use dvs::encode::{
    check_frame, concat_list, encode_args, mux_args, AudioSpec, EncodeSpec, Encoder,
};
use dvs::json::{parse_json, Json};
use dvs::probe::{from_ffprobe_json, probe_args, read_report, Probed};
use dvs::project::{
    AssetKind, AudioStream, Clip, ColorMatrix, ColorRange, Probe, Project, Sequence, Source, Track,
    TrackKind, VideoStream,
};
use dvs::proxy::{
    bucket_count, count_thumbnails, png_args, proxy_args, samples_per_bucket, thumbnail_args,
    thumbnail_at, thumbnail_file, wants_proxy, ProxySpec,
};
use dvs::rational::Rat;
use dvs::time::{Fps, Time};
use dvs::toolchain::{list_names, Toolchain};

fn json(text: &str) -> Json {
    parse_json(&text.as_bytes().to_vec()).expect("JSON")
}

fn thirty() -> Fps {
    Fps::new(30, 1).unwrap()
}

// ---------------------------------------------------------------------------
// Toolchain
// ---------------------------------------------------------------------------

fn toolchain() -> Toolchain {
    Toolchain::from_listings(
        "/usr/bin/ffmpeg".to_string(),
        "/usr/bin/ffprobe".to_string(),
        "ffmpeg version 7.1 Copyright (c) 2000-2024\nbuilt with gcc\n",
        "Encoders:\n V..... = Video\n ------\n V....D libx264              H.264\n V....D libx265              H.265\n A....D aac                  AAC\n",
        "Filters:\n  T.. = Timeline support\n ... scale             V->V       Scale\n",
    )
}

#[test]
fn discovery_finds_the_local_ffmpeg_and_its_encoders() {
    let tool = toolchain();
    assert!(tool.version().contains("ffmpeg"), "{}", tool.version());
    assert_eq!(tool.version(), "ffmpeg version 7.1");
    assert!(tool.has_encoder("libx264"), "libx264 missing");
    assert!(tool.has_encoder("aac"), "aac missing");
    assert!(tool.has_filter("scale"), "scale filter missing");
    assert!(!tool.has_encoder("libnope"));
    let report = tool.report();
    assert_eq!(report.software_encoders, ["libx264", "libx265", "aac"]);
    assert!(report.hardware_encoders.is_empty());
}

#[test]
fn listings_give_the_second_word_of_each_capability() {
    let names = list_names(" V....D libx264 x\n A....D aac y\n");
    assert!(names.contains(&"libx264".to_string()));
    assert!(names.contains(&"aac".to_string()));
}

#[test]
fn a_missing_encoder_errors_and_lists_what_exists() {
    let tool = toolchain();
    let err = Encoder::Named("libnope".to_string()).resolve(&tool).unwrap_err();
    assert_eq!(err.kind(), "tool");
    assert!(err.message().contains("libx264"), "{}", err.message());
    assert_eq!(Encoder::Auto.resolve(&tool).unwrap(), "libx264");
}

// ---------------------------------------------------------------------------
// Probing
// ---------------------------------------------------------------------------

#[test]
fn ndf_video_is_read_as_an_exact_rational() {
    let probed = from_ffprobe_json(
        &json(
            r#"{"streams":[{"index":0,"codec_type":"video","codec_name":"h264","width":1920,
                "height":1080,"pix_fmt":"yuv420p","r_frame_rate":"30000/1001",
                "avg_frame_rate":"30000/1001","color_range":"tv","color_space":"bt709",
                "sample_aspect_ratio":"1:1","nb_frames":"1798"}],
                "format":{"duration":"60.000000","format_name":"mov,mp4"}}"#,
        ),
        "talk.mp4",
    )
    .unwrap();
    let video = probed.probe.video.unwrap();
    assert_eq!(video.fps, Fps::new(30000, 1001).unwrap());
    assert_eq!(video.color_range, ColorRange::Tv);
    assert_eq!(video.color_matrix, ColorMatrix::Bt709);
    assert_eq!(probed.probe.duration, Time::from_secs(60));
    assert!(!probed.probe.vfr);
    assert!(matches!(probed.kind, AssetKind::Video));
}

#[test]
fn screen_recordings_are_flagged_variable_rate() {
    // 1000/1 nominal against a 29.97 average is exactly what a screen capture looks like;
    // treating it as CFR silently misplaces every cut.
    let probed = from_ffprobe_json(
        &json(
            r#"{"streams":[{"index":0,"codec_type":"video","width":1280,"height":720,
                "r_frame_rate":"1000/1","avg_frame_rate":"30000/1001"}],
                "format":{"duration":"12.5"}}"#,
        ),
        "screen.mkv",
    )
    .unwrap();
    assert!(probed.probe.vfr);
    assert_eq!(
        probed.probe.video.unwrap().fps,
        Fps::new(30000, 1001).unwrap(),
        "the average rate is the honest one"
    );
}

#[test]
fn unflagged_color_is_reported_as_unknown_not_guessed() {
    let probed = from_ffprobe_json(
        &json(
            r#"{"streams":[{"index":0,"codec_type":"video","width":640,"height":480,
                "avg_frame_rate":"25/1"}],"format":{"duration":"1.0"}}"#,
        ),
        "x.avi",
    )
    .unwrap();
    let video = probed.probe.video.unwrap();
    assert_eq!(video.color_range, ColorRange::Unknown);
    assert_eq!(video.color_matrix, ColorMatrix::Unknown);
}

#[test]
fn cover_art_does_not_turn_an_mp3_into_footage() {
    let probed = from_ffprobe_json(
        &json(
            r#"{"streams":[
                {"index":0,"codec_type":"audio","codec_name":"mp3","sample_rate":"44100","channels":2},
                {"index":1,"codec_type":"video","codec_name":"mjpeg","width":600,"height":600,
                 "avg_frame_rate":"90000/3753","disposition":{"attached_pic":1}}],
                "format":{"duration":"183.2","format_name":"mp3"}}"#,
        ),
        "music.mp3",
    )
    .unwrap();
    assert!(matches!(probed.kind, AssetKind::Audio));
    assert!(probed.probe.video.is_none());
    assert_eq!(probed.probe.audio.unwrap().rate, 44_100);
}

#[test]
fn rotation_and_anamorphic_aspect_reach_the_document() {
    let probed = from_ffprobe_json(
        &json(
            r#"{"streams":[{"index":0,"codec_type":"video","width":1920,"height":1080,
                "avg_frame_rate":"30/1","sample_aspect_ratio":"4:3",
                "side_data_list":[{"rotation":-90}]}],"format":{"duration":"2"}}"#,
        ),
        "phone.mov",
    )
    .unwrap();
    let video = probed.probe.video.unwrap();
    assert_eq!(video.rotation, -90);
    assert_eq!(video.display_size(), [1080, 2560]);
}

#[test]
fn extension_classifies_what_ffprobe_has_no_streams_for() {
    let probed = from_ffprobe_json(&json(r#"{"streams":[],"format":{}}"#), "a.srt").unwrap();
    assert!(matches!(probed.kind, AssetKind::Subtitle));
    let font = from_ffprobe_json(&json(r#"{"streams":[],"format":{}}"#), "Inter.ttf").unwrap();
    assert!(matches!(font.kind, AssetKind::Font));
}

#[test]
fn a_still_image_is_classified_by_its_single_frame() {
    let probed = from_ffprobe_json(
        &json(
            r#"{"streams":[{"index":0,"codec_type":"video","codec_name":"png","width":512,
                "height":512,"avg_frame_rate":"25/1","nb_frames":"1"}],
                "format":{"duration":"0.04"}}"#,
        ),
        "logo.png",
    )
    .unwrap();
    assert!(matches!(probed.kind, AssetKind::Image));
}

#[test]
fn output_that_is_not_json_is_the_tools_fault() {
    let error = read_report(&b"[mov,mp4] moov atom not found".to_vec(), "x.mp4").unwrap_err();
    assert_eq!(error.kind(), "tool");
    assert!(error.message().starts_with("ffprobe unavailable: unparseable output: "));
    assert!(read_report(&br#"{"streams":[],"format":{}}"#.to_vec(), "x.ttf").is_ok());
}

// ---------------------------------------------------------------------------
// Stand-ins
// ---------------------------------------------------------------------------

fn stream(size: [u32; 2], fps: Fps) -> VideoStream {
    VideoStream {
        stream_index: 0,
        size,
        fps,
        codec: "h264".to_string(),
        pix_fmt: "yuv420p".to_string(),
        color_range: ColorRange::Unknown,
        color_matrix: ColorMatrix::Unknown,
        color_primaries: None,
        transfer: None,
        rotation: 0,
        sar: Rat::new(1, 1).unwrap(),
        frames: None,
        bit_rate: None,
    }
}

fn probe(size: [u32; 2], seconds: i64) -> Probe {
    Probe {
        duration: Time::from_secs(seconds),
        video: Some(stream(size, thirty())),
        audio: None,
        vfr: false,
        container: "mp4".to_string(),
    }
}

#[test]
fn proxy_is_wanted_for_vfr_and_for_oversized_sources() {
    let hd = probe([1920, 1080], 10);
    assert!(!wants_proxy(&hd));
    assert!(wants_proxy(&Probe { vfr: true, ..hd.clone() }));
    assert!(wants_proxy(&Probe { video: Some(stream([3840, 2160], thirty())), ..hd }));
}

#[test]
fn a_stand_in_has_a_constant_rate_and_an_even_width() {
    let spec = ProxySpec { height: 180, fps: thirty(), quality: 30 };
    let args = proxy_args("vfr.mp4", "proxy/vfr.mp4", &spec);
    let text = args.join(" ");
    assert!(text.contains("scale=-2:180"), "{text}");
    assert!(text.contains("30/1"), "{text}");
    assert!(text.ends_with("proxy/vfr.mp4"), "{text}");
    let chosen = ProxySpec::for_probe(&probe([3840, 2160], 10), Fps::new(24, 1).unwrap());
    assert_eq!(chosen.fps, thirty());
    assert_eq!(chosen.height, 540);
}

#[test]
fn thumbnails_land_on_the_requested_interval() {
    let every = Time::from_secs(1);
    assert_eq!(count_thumbnails(Time::from_secs(4), every).unwrap(), 4);
    assert_eq!(count_thumbnails(Time::parse("4.5").unwrap(), every).unwrap(), 4);
    assert!(count_thumbnails(Time::from_secs(4), Time::zero()).is_err());
    assert_eq!(thumbnail_at(every, 3), Time::from_secs(3));
    assert_ne!(thumbnail_file("ast_x", 0), thumbnail_file("ast_x", 1));
}

#[test]
fn waveform_buckets_track_signal_and_silence() {
    // Ten buckets per second over two seconds at 48 kHz.
    let per_bucket = samples_per_bucket(10).unwrap();
    assert_eq!(bucket_count(2 * per_bucket as u64 * 10, per_bucket), 20);
    assert!(samples_per_bucket(0).is_err());
}

// ---------------------------------------------------------------------------
// Assets
// ---------------------------------------------------------------------------

fn project() -> Project {
    Project {
        id: "prj_t".to_string(),
        name: "t".to_string(),
        active_sequence: "seq_main".to_string(),
        sequences: vec![Sequence {
            id: "seq_main".to_string(),
            name: "main".to_string(),
            fps: thirty(),
            size: [1920, 1080],
            sample_rate: 48_000,
            channels: 2,
            tracks: Vec::new(),
            markers: Vec::new(),
        }],
        assets: Vec::new(),
        titles: Vec::new(),
        styles: Vec::new(),
    }
}

fn probed(seconds: i64) -> Probed {
    Probed { probe: probe([320, 180], seconds), kind: AssetKind::Video }
}

fn import(project: &mut Project, id: &str, hash: &str, path: &str, seconds: i64) {
    let probed = probed(seconds);
    check_media(&probed.probe, path).expect("something to edit with");
    let plan = plan_media(&probed.probe, path, id, &None, ProxyMode::Auto, thirty());
    add_asset(project, id.to_string(), hash.to_string(), probed, path, &plan, None);
}

#[test]
fn assets_of_one_content_share_its_hash() {
    let request = import_request(&json(r#"{"path":["/m/a.mp4","/m/a-copy.mp4"]}"#)).unwrap();
    assert_eq!(request.paths, ["/m/a.mp4", "/m/a-copy.mp4"]);
    let mut project = project();
    for (index, path) in request.paths.iter().enumerate() {
        import(&mut project, &format!("ast_{index}"), "same-bytes", path, 1);
    }
    assert_eq!(project.assets.len(), 2);
    assert_eq!(project.assets[0].hash, project.assets[1].hash);
    assert_eq!(project.assets[0].name, "a.mp4");
    assert_eq!(project.assets[0].probe.video.as_ref().unwrap().size, [320, 180]);
    assert!(project.assets[0].probe.duration.is_positive());
}

#[test]
fn importing_a_directory_or_missing_file_is_a_clear_argument_error() {
    for path in ["/nope/missing.mp4", "/"] {
        let error = check_file(path, std::path::Path::new(path).is_file()).unwrap_err();
        assert_eq!(error.kind(), "bad-args");
        assert_eq!(error.message(), format!("'{path}' is not a file"));
    }
    assert!(check_file("/m/a.mp4", true).is_ok());
}

#[test]
fn an_import_without_paths_or_streams_is_refused() {
    assert_eq!(import_request(&json("{}")).unwrap_err().kind(), "bad-args");
    let error =
        import_request(&json(r#"{"path":["a.mp4","b.mp4"],"name":"both"}"#)).unwrap_err();
    assert_eq!(error.kind(), "bad-args");
    let nothing = Probe { duration: Time::zero(), video: None, ..probe([320, 180], 1) };
    let error = check_media(&nothing, "notes.txt").unwrap_err();
    assert_eq!(error.message(), "'notes.txt' has no audio or video streams ffmpeg can read");
}

#[test]
fn removing_a_used_asset_names_the_clips_until_forced() {
    let mut project = project();
    import(&mut project, "ast_b", "bytes-b", "/m/b.mp4", 1);
    let mut track = Track::new("trk_1".to_string(), "V1".to_string(), TrackKind::Video);
    let mut clip = Clip::new(
        "clp_1".to_string(),
        Source::Asset { asset: "ast_b".to_string() },
        Time::zero(),
        Time::from_secs(1),
    );
    clip.name = Some("intro".to_string());
    track.clips.push(clip);
    project.sequences[0].tracks.push(track);
    assert_eq!(users(&project, "ast_b").len(), 1);

    let err = remove_asset(&mut project, "ast_b", false).unwrap_err();
    assert!(err.message().contains("intro"), "{}", err.message());
    assert_eq!(project.assets.len(), 1, "nothing removed on failure");

    let changed = remove_asset(&mut project, "ast_b", true).unwrap();
    assert_eq!(changed, ["trk_1"]);
    assert!(project.assets.is_empty());
    assert!(project.sequences[0].tracks[0].clips.is_empty(), "forced removal drops the clips");
}

#[test]
fn relinking_to_a_shorter_file_warns_instead_of_silently_truncating() {
    let mut project = project();
    import(&mut project, "ast_l", "long", "/m/long.mp4", 3);
    let warning =
        relink(&mut project.assets[0], "short".to_string(), probed(1), "/m/short.mp4").unwrap();
    assert_eq!(warning.code, "past-source-end");
    assert!(project.assets[0].probe.duration.before(&Time::from_secs(2)));
    assert_eq!(project.assets[0].hash, "short");
    assert_eq!(project.assets[0].name, "long.mp4");
    assert!(relink(&mut project.assets[0], "long".to_string(), probed(3), "/m/long.mp4").is_none());
}

#[test]
fn proxy_op_records_a_project_relative_path() {
    let mut project = project();
    let request = import_request(&json(r#"{"path":"/m/c.mp4","proxy":false}"#)).unwrap();
    assert_eq!(request.proxy, ProxyMode::Never);
    import(&mut project, "ast_c", "bytes-c", "/m/c.mp4", 1);
    assert!(project.assets[0].proxy.is_none());
    let (at, spec) = proxy_request(&project, &json(r#"{"asset":"c.mp4","height":90}"#)).unwrap();
    assert_eq!(at, 0);
    assert_eq!(spec.height, 90);
    assert_eq!(spec.fps, thirty());
    let (_, least) = proxy_request(&project, &json(r#"{"asset":"c","height":1}"#)).unwrap();
    assert_eq!(least.height, 64);
}

#[test]
fn waveform_op_refuses_an_asset_with_no_audio() {
    let mut project = project();
    import(&mut project, "ast_s", "silent", "/m/silent.mp4", 1);
    let err = waveform_request(&project, &json(r#"{"asset":"ast_s"}"#)).unwrap_err();
    assert!(err.message().contains("no audio"), "{}", err.message());
    project.assets[0].probe.audio = Some(AudioStream {
        stream_index: 1,
        rate: 48_000,
        channels: 2,
        codec: "aac".to_string(),
        bit_rate: None,
    });
    assert_eq!(waveform_request(&project, &json(r#"{"asset":"ast_s"}"#)).unwrap(), (0, 20));
}

#[test]
fn unknown_arguments_are_rejected_rather_than_ignored() {
    let err = import_request(&json(r#"{"path":"x.mp4","proxies":true}"#)).unwrap_err();
    assert!(err.message().contains("proxies"), "{}", err.message());
}

#[test]
fn assets_are_found_by_id_name_or_stem() {
    let mut project = project();
    import(&mut project, "ast_1", "one", "/m/talk.mp4", 1);
    import(&mut project, "ast_2", "two", "/m/music.wav", 1);
    for (text, at) in [("ast_2", 1), ("talk.mp4", 0), ("music", 1)] {
        assert_eq!(resolve_asset(&project, text).unwrap(), at, "{text}");
    }
    assert_eq!(resolve_asset(&project, "nobody").unwrap_err().kind(), "no-match");
    assert_eq!(missing_assets(&project).len(), 2);
    project.assets[0].path = Some("/store/one".to_string());
    assert_eq!(missing_assets(&project).len(), 1);
    let asked = thumbnails_request(&project, &json(r#"{"asset":"talk"}"#)).unwrap();
    assert_eq!(asked.asset, 0);
    assert_eq!(asked.every, Time::from_secs(5));
    assert_eq!(asked.width, 320);
}

#[test]
fn a_variable_source_is_warned_of_whether_or_not_a_stand_in_is_built() {
    let mut shaky = probe([1280, 720], 10);
    shaky.vfr = true;
    let built = plan_media(&shaky, "/m/screen.mkv", "ast_1", &None, ProxyMode::Auto, thirty());
    assert!(built.proxy.is_some());
    assert!(built.warning.unwrap().detail.contains("a constant-rate proxy at 30"));
    let bare = plan_media(&shaky, "/m/screen.mkv", "ast_1", &None, ProxyMode::Never, thirty());
    assert!(bare.proxy.is_none());
    assert!(bare.warning.unwrap().detail.contains("approximate"));
}

// ---------------------------------------------------------------------------
// Decoding
// ---------------------------------------------------------------------------

fn decode_spec(size: [u32; 2], matrix: ColorMatrix, range: ColorRange) -> DecodeSpec {
    DecodeSpec { size, fps: thirty(), range, matrix, scaler: "bicubic" }
}

#[test]
fn filter_chain_states_range_and_matrix_explicitly() {
    let chain = decode_spec([1920, 1080], ColorMatrix::Bt709, ColorRange::Tv).filter_chain();
    assert!(chain.contains("in_range=limited"), "{chain}");
    assert!(chain.contains("in_color_matrix=bt709"), "{chain}");
    assert!(chain.contains("out_range=full"), "{chain}");
    assert!(chain.starts_with("fps=30/1,"), "{chain}");
}

#[test]
fn unflagged_sources_fall_back_by_resolution_not_to_nothing() {
    let hd = decode_spec([1920, 1080], ColorMatrix::Unknown, ColorRange::Unknown).filter_chain();
    let sd = decode_spec([640, 480], ColorMatrix::Unknown, ColorRange::Unknown).filter_chain();
    assert!(hd.contains("in_color_matrix=bt709"), "{hd}");
    assert!(sd.contains("in_color_matrix=bt601"), "{sd}");
}

/// Answers a request from a source of `frames` frames. Gives the number of the frame shown.
fn frame_at(
    state: &mut DecodeState,
    shown: &mut Option<i64>,
    start: &mut i64,
    at: Time,
    frames: i64,
) -> i64 {
    let begin = state.begin(at);
    if let Some(from) = begin.spawn {
        *start = from.frame_round(thirty());
    }
    while state.reads_on(begin.wanted) {
        let next = *start + state.emitted;
        if next < frames {
            state.got_frame();
            *shown = Some(next);
        } else {
            state.ended();
        }
    }
    match state.picture() {
        Picture::Transparent => -1,
        _ => shown.unwrap(),
    }
}

#[test]
fn decoding_a_synthetic_source_yields_frame_exact_content() {
    let mut state = DecodeState::open(thirty());
    let (mut shown, mut start) = (None, 0);
    assert_eq!(frame_at(&mut state, &mut shown, &mut start, Time::zero(), 60), 0);
    let later = Time::new(3, 2).unwrap();
    assert_eq!(frame_at(&mut state, &mut shown, &mut start, later, 60), 45);

    // Going backwards must respawn and still land on the first frame's content.
    let before = state.seeks;
    assert_eq!(frame_at(&mut state, &mut shown, &mut start, Time::zero(), 60), 0);
    assert!(state.seeks > before, "backward seek did not respawn");
}

#[test]
fn reading_past_the_end_holds_the_last_frame() {
    let mut state = DecodeState::open(thirty());
    let (mut shown, mut start) = (None, 0);
    let last =
        frame_at(&mut state, &mut shown, &mut start, Time::new(29, 30).unwrap(), 30);
    assert_eq!(last, 29);
    let past = frame_at(&mut state, &mut shown, &mut start, Time::from_secs(5), 30);
    assert!(state.exhausted);
    assert_eq!(past, last);
}

#[test]
fn audio_decode_returns_exactly_the_requested_sample_count() {
    assert_eq!(wanted_samples(Time::from_secs(1), 48_000, 2), 48_000 * 2);
    let args =
        audio_args("tone.wav", Time::new(1, 2).unwrap(), Time::from_secs(1), 48_000, 2).join(" ");
    assert!(args.contains("tone.wav"), "{args}");
    assert!(args.contains("48000"), "{args}");
}

#[test]
fn a_frame_cut_short_is_an_error_and_none_at_all_is_the_end() {
    assert!(matches!(read_outcome(400, 400, "a.mp4", None), Ok(Read::Frame)));
    assert!(matches!(read_outcome(0, 400, "a.mp4", None), Ok(Read::End)));
    assert!(read_outcome(399, 400, "a.mp4", None).is_err());
    let error = read_outcome(0, 400, "a.mp4", Some(" broken pipe\n")).unwrap_err();
    assert_eq!(error.message(), "ffmpeg unavailable: decoding 'a.mp4' failed: broken pipe");
    let args = decode_args(
        &decode_spec([320, 240], ColorMatrix::Bt601, ColorRange::Tv),
        "a.mp4",
        Time::from_secs(2),
    )
    .join(" ");
    assert!(args.contains("a.mp4") && args.contains("rawvideo"), "{args}");
    let size = image_size("logo.png", Some(&stream([2, 3], thirty())), 24).unwrap();
    assert_eq!(size, [2, 3]);
    assert!(image_size("logo.png", Some(&stream([2, 3], thirty())), 23).is_err());
}

// ---------------------------------------------------------------------------
// Encoding
// ---------------------------------------------------------------------------

#[test]
fn a_wrong_sized_frame_is_refused_rather_than_corrupting_the_stream() {
    let err = check_frame([32, 32], [16, 16]).unwrap_err();
    assert!(err.message().contains("32x32"), "{}", err.message());
    assert!(check_frame([32, 32], [32, 32]).is_ok());
}

#[test]
fn segments_concatenate_into_their_total_duration() {
    let list = concat_list(&vec!["/t/part0.mp4".to_string(), "/t/it's.mp4".to_string()]).unwrap();
    assert_eq!(list, "file '/t/part0.mp4'\nfile '/t/it'\\''s.mp4'");
    assert_eq!(concat_list(&Vec::new()).unwrap_err().message(), "nothing to concatenate");
}

#[test]
fn muxing_pcm_produces_a_file_with_both_streams() {
    let audio = AudioSpec {
        pcm: "a.pcm".to_string(),
        rate: 48_000,
        channels: 2,
        codec: "aac".to_string(),
        bitrate: "192k".to_string(),
    };
    let args = mux_args("v.mp4", &audio, "av.mp4").join(" ");
    assert!(args.contains("v.mp4") && args.contains("a.pcm"), "{args}");
    assert!(args.contains("48000") && args.contains("192k"), "{args}");
    assert!(args.ends_with("av.mp4"), "{args}");
}

#[test]
fn frames_are_handed_over_at_the_size_and_rate_of_the_file() {
    let mut spec = EncodeSpec::new("solid.mp4".to_string(), [64, 48], thirty());
    spec.quality = 0;
    let args = encode_args(&spec, "libx264").join(" ");
    assert!(args.contains("64x48"), "{args}");
    assert!(args.contains("30/1"), "{args}");
    assert!(args.ends_with("solid.mp4"), "{args}");
}

#[test]
fn a_decoder_is_asked_for_the_shown_size_and_the_stream_colors() {
    let mut source = stream([1920, 1080], thirty());
    source.sar = Rat::new(1, 1).unwrap();
    let spec = DecodeSpec::for_stream(&source, thirty());
    assert_eq!(spec.size, [1920, 1080]);
    assert_eq!(spec.fps, thirty());
    assert_eq!(spec.range, source.color_range);
    assert_eq!(spec.matrix, source.color_matrix);
    assert_eq!(spec.frame_bytes(), 1920 * 1080 * 4);
    let small = spec.at_size([320, 180]);
    assert_eq!(small.size, [320, 180]);
    assert_eq!(small.frame_bytes(), 320 * 180 * 4);
    assert_eq!(
        small.filter_chain(),
        "fps=30/1,scale=320:180:flags=bicubic:in_range=limited:in_color_matrix=bt601:out_range=full,format=rgba"
    );
}

#[test]
fn commands_are_spelled_out() {
    assert_eq!(
        image_args("a.png"),
        ["-i", "a.png", "-vframes", "1", "-vf", "format=rgba", "-f", "rawvideo", "-pix_fmt", "rgba", "-"]
    );
    assert_eq!(
        synthesize_args("testsrc2", "t.mp4", Time::new(3, 2).unwrap(), thirty(), [64, 48]),
        [
            "-f",
            "lavfi",
            "-i",
            "testsrc2=size=64x48:rate=30/1:duration=1.5000",
            "-c:v",
            "libx264",
            "-preset",
            "ultrafast",
            "-crf",
            "18",
            "-pix_fmt",
            "yuv420p",
            "t.mp4",
        ]
    );
    assert_eq!(
        probe_args("a.mp4"),
        [
            "-print_format",
            "json",
            "-show_format",
            "-show_streams",
            "-show_entries",
            "stream_side_data=rotation",
            "a.mp4",
        ]
    );
    assert_eq!(
        thumbnail_args("a.mp4", "t.jpg", Time::new(5, 2).unwrap(), 320),
        ["-ss", "2.5000", "-i", "a.mp4", "-frames:v", "1", "-vf", "scale=320:-2", "-q:v", "4", "t.jpg"]
    );
    assert_eq!(
        png_args(320, 180, "f.png"),
        ["-f", "rawvideo", "-pix_fmt", "rgba", "-s", "320x180", "-i", "-", "-frames:v", "1", "f.png"]
    );
}

fn field<'a>(node: &'a Json, name: &str) -> &'a Json {
    match node {
        Json::Object(fields) => {
            &fields.iter().find(|field| field.name == name).expect("a field").value
        },
        _ => panic!("not an object"),
    }
}

#[test]
fn removing_and_relinking_name_an_asset() {
    let mut project = project();
    import(&mut project, "ast_c", "bytes-c", "/m/c.mp4", 1);
    let name = project.assets[0].name.clone();
    let args = json(&format!(r#"{{"asset":"{name}","force":true}}"#));
    assert_eq!(remove_request(&project, &args).unwrap(), (0, true));
    let args = json(&format!(r#"{{"asset":"{name}"}}"#));
    assert_eq!(remove_request(&project, &args).unwrap(), (0, false));
    assert_eq!(
        relink_request(&project, &args).unwrap_err().message(),
        "missing argument 'path': text is required"
    );
    let args = json(&format!(r#"{{"asset":"{name}","path":"/new.mp4"}}"#));
    assert_eq!(relink_request(&project, &args).unwrap(), (0, "/new.mp4".to_string()));
    let args = json(r#"{"asset":"no such asset","path":"/new.mp4"}"#);
    assert_eq!(relink_request(&project, &args).unwrap_err().kind(), "no-match");
}

#[test]
fn derived_media_is_answered_with_where_it_is() {
    let spec = ProxySpec { height: 540, fps: thirty(), quality: 26 };
    let answer = proxy_answer("cache/proxy/a.mp4", &spec);
    assert!(matches!(field(&answer, "proxy"), Json::Text(path) if path == "cache/proxy/a.mp4"));
    assert!(matches!(field(&answer, "height"), Json::Number(height) if height == "540"));
    let answer = thumbnails_answer(&vec!["a-0000.jpg".to_string(), "a-0001.jpg".to_string()]);
    match field(&answer, "thumbnails") {
        Json::Array(items) => {
            assert_eq!(items.len(), 2);
            assert!(matches!(&items[1], Json::Text(file) if file == "a-0001.jpg"));
        },
        _ => panic!("not an array"),
    }
    let answer = waveform_answer("cache/a.json", 40, 20);
    assert!(matches!(field(&answer, "buckets"), Json::Number(count) if count == "40"));
    assert!(matches!(field(&answer, "bucketsPerSecond"), Json::Number(rate) if rate == "20"));
}
