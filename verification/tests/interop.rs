use dvs::float_text::Float;
use dvs::interop::{
    export_edl, export_fcpxml, export_otio, to_edl, to_fcpxml, to_mlt, to_otio,
};
use dvs::json::Json;
use dvs::mlt_read::from_mlt;
use dvs::project::{
    Asset, AssetKind, AudioStream, CaptionCue, Clip, ColorMatrix, ColorRange, Marker, Probe,
    Project, Sequence, Source, Title, Track, TrackKind, Transition, TransitionKind, VideoStream,
};
use dvs::rational::Rat;
use dvs::time::{Fps, Span, Time};
use dvs::timeline::Warning;

// ---------------------------------------------------------------------------
// A project to export
// ---------------------------------------------------------------------------

struct Fixture {
    project: Project,
}

fn asset(id: &str, file: &str) -> Asset {
    Asset {
        id: id.to_string(),
        name: file.to_string(),
        hash: format!("hash-of-{id}"),
        kind: AssetKind::Video,
        probe: Probe {
            duration: Time::from_secs(4),
            video: Some(VideoStream {
                stream_index: 0,
                size: [320, 240],
                fps: Fps::new(30, 1).unwrap(),
                codec: "h264".to_string(),
                pix_fmt: "yuv420p".to_string(),
                color_range: ColorRange::Tv,
                color_matrix: ColorMatrix::Bt709,
                color_primaries: None,
                transfer: None,
                rotation: 0,
                sar: Rat::new(1, 1).unwrap(),
                frames: Some(120),
                bit_rate: None,
            }),
            audio: Some(AudioStream {
                stream_index: 1,
                rate: 48000,
                channels: 2,
                codec: "aac".to_string(),
                bit_rate: None,
            }),
            vfr: false,
            container: "mov,mp4,m4a".to_string(),
        },
        proxy: None,
        source_path: Some(format!("/media/{file}")),
        path: Some(format!("/project/assets/{id}/{file}")),
        proxy_usable: false,
    }
}

/// A project at `fps` with a 320x240 frame, one video track, one audio track, and two
/// four-second assets.
fn fixture(fps: Fps) -> Fixture {
    let sequence = Sequence {
        id: "seq_main".to_string(),
        name: "main".to_string(),
        fps,
        size: [320, 240],
        sample_rate: 48000,
        channels: 2,
        tracks: vec![
            Track::new("trk_v1".to_string(), "V1".to_string(), TrackKind::Video),
            Track::new("trk_a1".to_string(), "A1".to_string(), TrackKind::Audio),
        ],
        markers: Vec::new(),
    };
    Fixture {
        project: Project {
            id: "prj_promo".to_string(),
            name: "promo".to_string(),
            active_sequence: "seq_main".to_string(),
            sequences: vec![sequence],
            assets: vec![asset("ast_a", "a.mp4"), asset("ast_b", "b.mp4")],
            titles: Vec::new(),
            styles: Vec::new(),
        },
    }
}

impl Fixture {
    fn sequence_mut(&mut self) -> &mut Sequence {
        &mut self.project.sequences[0]
    }

    fn track(&mut self, name: &str) -> &mut Track {
        self.sequence_mut().tracks.iter_mut().find(|track| track.name == name).unwrap()
    }

    fn push_source(&mut self, track: &str, source: Source, start: &str, duration: &str, source_in: &str) {
        let track = self.track(track);
        let id = format!("clp_{}_{}", track.name, track.clips.len());
        let mut clip =
            Clip::new(id, source, Time::parse(start).unwrap(), Time::parse(duration).unwrap());
        clip.source_in = Time::parse(source_in).unwrap();
        track.clips.push(clip);
    }

    /// Appends a clip cut from the first asset.
    fn push_clip(&mut self, track: &str, start: &str, duration: &str, source_in: &str) {
        let source = Source::Asset { asset: "ast_a".to_string() };
        self.push_source(track, source, start, duration, source_in);
    }

    /// Appends a clip cut from the second asset.
    fn push_second(&mut self, track: &str, start: &str, duration: &str, source_in: &str) {
        let source = Source::Asset { asset: "ast_b".to_string() };
        self.push_source(track, source, start, duration, source_in);
    }

    fn push_title(&mut self, track: &str, start: &str, duration: &str) {
        self.project.titles.push(Title {
            id: "ttl_lower".to_string(),
            name: "lower third".to_string(),
            size: [320, 240],
        });
        let source = Source::Title { title: "ttl_lower".to_string() };
        self.push_source(track, source, start, duration, "0");
    }

    fn set_transition(&mut self, track: &str, clip: usize, kind: TransitionKind, duration: &str) {
        let duration = Time::parse(duration).unwrap();
        self.track(track).clips[clip].transition_in = Some(Transition { kind, duration });
    }

    fn set_speed(&mut self, track: &str, clip: usize, num: i64, den: i64) {
        self.track(track).clips[clip].speed = Rat::new(num, den).unwrap();
    }

    fn set_fades(&mut self, track: &str, clip: usize, fade_in: &str, fade_out: &str) {
        let clip = &mut self.track(track).clips[clip];
        clip.fade_in = Time::parse(fade_in).unwrap();
        clip.fade_out = Time::parse(fade_out).unwrap();
    }

    fn name_clip(&mut self, track: &str, clip: usize, name: &str) {
        self.track(track).clips[clip].name = Some(name.to_string());
    }

    fn push_cue(&mut self, start: &str, end: &str, text: &str) {
        let span = Span::new(Time::parse(start).unwrap(), Time::parse(end).unwrap());
        let sequence = self.sequence_mut();
        if !sequence.tracks.iter().any(|track| track.kind == TrackKind::Caption) {
            let mut track =
                Track::new("trk_cc1".to_string(), "CC1".to_string(), TrackKind::Caption);
            track.style = Some("sty_default".to_string());
            sequence.tracks.push(track);
        }
        let track =
            sequence.tracks.iter_mut().find(|track| track.kind == TrackKind::Caption).unwrap();
        let id = format!("cue_{}", track.cues.len());
        track.cues.push(CaptionCue { id, span, text: text.to_string(), style: None });
    }

    fn mlt(&self, kdenlive: bool) -> String {
        to_mlt(&self.project, "seq_main", "/project", "qtblend", kdenlive).unwrap()
    }

    fn mlt_warnings(&self, kdenlive: bool) -> Vec<Warning> {
        dvs::mlt_write::export(&self.project, "seq_main", "/project", "qtblend", kdenlive)
            .unwrap()
            .warnings
    }

    fn edl(&self) -> String {
        to_edl(&self.project, "seq_main").unwrap()
    }
}

fn thirty() -> Fps {
    Fps::new(30, 1).unwrap()
}

// ---------------------------------------------------------------------------
// MLT
// ---------------------------------------------------------------------------

#[test]
fn in_and_out_are_inclusive() {
    // One second at 30 fps from the head of the source: frames 0 through 29.
    let mut fixture = fixture(thirty());
    fixture.push_clip("V1", "0", "1", "0");
    let xml = fixture.mlt(false);
    assert!(
        xml.contains(r#"in="0" out="29""#),
        "a 30-frame clip must be in=0 out=29:\n{xml}"
    );
}

#[test]
fn a_second_clip_starts_where_the_first_ends() {
    let mut fixture = fixture(thirty());
    fixture.push_clip("V1", "0", "1", "0");
    fixture.push_clip("V1", "1", "1", "2");
    let xml = fixture.mlt(false);
    let imported = from_mlt(&xml).expect("read back");
    let track = imported.tracks.iter().find(|t| !t.audio).expect("a video track");
    assert_eq!(track.clips.len(), 2);
    assert_eq!(track.clips[0].start_frames, 0);
    assert_eq!(track.clips[0].frames, 30);
    assert_eq!(
        track.clips[1].start_frames, 30,
        "the second entry must abut the first, with no blank between"
    );
    assert!(!xml.contains("<blank"), "adjacent clips must not produce a blank:\n{xml}");
    assert_eq!(track.clips[1].source_in_frames, 60);
}

#[test]
fn a_gap_becomes_a_blank_of_the_right_length() {
    let mut fixture = fixture(thirty());
    fixture.push_clip("V1", "0", "1", "0");
    fixture.push_clip("V1", "1.5", "1", "0");
    let xml = fixture.mlt(false);
    assert!(
        xml.contains(r#"<blank length="15"/>"#),
        "half a second at 30 fps is a 15-frame blank:\n{xml}"
    );
}

#[test]
fn ndf_frame_rates_survive_as_rationals() {
    let mut fixture = fixture(Fps::new(30000, 1001).unwrap());
    fixture.push_clip("V1", "0", "1", "0");
    let xml = fixture.mlt(true);
    assert!(
        xml.contains(r#"frame_rate_num="30000""#) && xml.contains(r#"frame_rate_den="1001""#),
        "29.97 must stay exact:\n{xml}"
    );
    assert!(!xml.contains("29.97"), "a decimal rate leaked into the profile");
}

#[test]
fn round_trip_keeps_track_count_clip_count_and_lengths() {
    let mut fixture = fixture(thirty());
    fixture.push_clip("V1", "0", "1", "0");
    fixture.push_clip("V1", "2", "0.5", "1");
    fixture.push_clip("A1", "0", "2.5", "0");
    let xml = fixture.mlt(false);
    let imported = from_mlt(&xml).expect("read back");
    assert_eq!(imported.fps, Fps::new(30, 1).unwrap());
    assert_eq!(imported.size, [320, 240]);
    assert_eq!(imported.tracks.len(), 2);
    let video = &imported.tracks[0];
    assert_eq!(video.clips.iter().map(|c| c.frames).collect::<Vec<_>>(), vec![30, 15]);
    assert_eq!(video.clips[1].start_frames, 60);
    let audio = &imported.tracks[1];
    assert!(audio.audio, "the audio track must come back marked as audio");
    assert_eq!(audio.clips.len(), 1);
    assert_eq!(audio.clips[0].frames, 75);
}

#[test]
fn a_kdenlive_round_trip_keeps_names_speeds_and_files() {
    let mut fixture = fixture(Fps::new(30000, 1001).unwrap());
    fixture.push_clip("V1", "0", "1", "0");
    fixture.push_second("V1", "2", "1", "1");
    fixture.set_speed("V1", 1, 5, 4);
    fixture.project.assets[1].name = "R&D <final> \"cut\".mp4".to_string();
    fixture.push_clip("A1", "0.5", "1", "0");
    let imported = from_mlt(&fixture.mlt(true)).expect("read back");
    assert_eq!(imported.fps, Fps::new(30000, 1001).unwrap());
    assert_eq!(imported.tracks.len(), 2);
    assert_eq!(imported.tracks[0].name, "V1");
    assert_eq!(imported.tracks[1].name, "A1");
    assert!(!imported.tracks[0].audio);
    assert!(imported.tracks[1].audio);
    let clips = &imported.tracks[0].clips;
    assert_eq!(clips.len(), 2);
    assert_eq!(clips[0].speed, Float::Finite(Rat::new(1, 1).unwrap()));
    assert_eq!(clips[0].name.as_deref(), Some("a.mp4"));
    assert_eq!(clips[1].speed, Float::Finite(Rat::new(5, 4).unwrap()));
    assert_eq!(clips[1].service, "timewarp");
    assert_eq!(clips[1].resource, "/project/assets/ast_b/b.mp4");
    assert_eq!(clips[1].name.as_deref(), Some("R&D <final> \"cut\".mp4"));
    assert_eq!(clips[1].start_frames, 60);
    assert_eq!(clips[1].frames, 30);
    assert_eq!(imported.tracks[1].clips[0].start_frames, 15);
}

#[test]
fn reader_tolerates_unknown_properties_and_services() {
    let xml = r#"<?xml version="1.0"?>
<mlt LC_NUMERIC="C" version="7.40.0" producer="tractor0">
  <profile width="1920" height="1080" frame_rate_num="24" frame_rate_den="1"/>
  <producer id="p0">
    <property name="resource">/clips/weird.gif</property>
    <property name="mlt_service">qimage</property>
    <property name="pixbuf.rotate">90</property>
    <property name="invented.by.kdenlive">whatever</property>
  </producer>
  <playlist id="pl0">
    <property name="shotcut:name">something</property>
    <blank length="12"/>
    <entry producer="p0" in="0" out="9"/>
  </playlist>
  <tractor id="tractor0">
    <track producer="pl0"/>
    <transition id="t0"><property name="mlt_service">unknown_service</property></transition>
  </tractor>
</mlt>"#;
    let imported = from_mlt(xml).expect("an unknown service is not a parse failure");
    assert_eq!(imported.fps, Fps::new(24, 1).unwrap());
    assert_eq!(imported.tracks.len(), 1);
    let clip = &imported.tracks[0].clips[0];
    assert_eq!(clip.service, "qimage");
    assert_eq!(clip.resource, "/clips/weird.gif");
    assert_eq!(clip.start_frames, 12);
    assert_eq!(clip.frames, 10);
}

#[test]
fn a_dangling_producer_reference_is_an_error() {
    let xml = r#"<mlt producer="tractor0">
  <profile frame_rate_num="25" frame_rate_den="1" width="720" height="576"/>
  <playlist id="pl0"><entry producer="missing" in="0" out="9"/></playlist>
  <tractor id="tractor0"><track producer="pl0"/></tractor>
</mlt>"#;
    let error = from_mlt(xml).expect_err("a reference to nothing cannot be imported");
    assert!(error.message().contains("missing"), "{}", error.message());
}

#[test]
fn a_document_that_is_not_xml_is_an_error() {
    assert!(from_mlt("<mlt><profile</mlt>").is_err());
    assert!(from_mlt("").is_err());
}

#[test]
fn kdenlive_mode_carries_the_document_keys_kdenlive_reads() {
    let mut fixture = fixture(thirty());
    fixture.push_clip("V1", "0", "1", "0");
    fixture.push_clip("A1", "0", "1", "0");
    fixture.sequence_mut().markers.push(Marker {
        id: "mk_1".to_string(),
        at: Time::from_secs(1),
        name: "pricing".to_string(),
        note: None,
    });
    let xml = fixture.mlt(true);
    for key in [
        "kdenlive:docproperties.decimalPoint",
        "kdenlive:docproperties.version",
        "kdenlive:sequenceproperties.tracksCount",
        "kdenlive:sequenceproperties.activeTrack",
        "kdenlive:sequenceproperties.documentuuid",
        "kdenlive:sequenceproperties.guides",
        "kdenlive:sequenceproperties.groups",
        "kdenlive:clipname",
        "kdenlive:id",
        "kdenlive:duration",
        "kdenlive:control_uuid",
        "kdenlive:folder.-1.1",
    ] {
        assert!(xml.contains(key), "kdenlive mode is missing {key}:\n{xml}");
    }
    assert!(
        xml.contains(r#"<producer id="black_track""#),
        "kdenlive needs the black background track"
    );
    assert!(xml.contains(r#"<playlist id="main_bin">"#), "the project bin must be populated");
    let document = roxmltree::Document::parse(&xml).expect("valid XML");
    let guides = document
        .descendants()
        .filter(|node| node.has_tag_name("property"))
        .find(|node| node.attribute("name") == Some("kdenlive:sequenceproperties.guides"))
        .and_then(|node| node.text())
        .expect("guides property");
    assert_eq!(
        guides, r#"[{"comment":"pricing","pos":30,"type":0}]"#,
        "markers should arrive as kdenlive guides"
    );
    // Kdenlive's timeline model is a tractor of two playlists per track.
    assert_eq!(xml.matches("<playlist id=\"playlist").count(), 4);
}

#[test]
fn plain_mode_writes_one_playlist_per_track() {
    let mut fixture = fixture(thirty());
    fixture.push_clip("V1", "0", "1", "0");
    fixture.push_clip("A1", "0", "1", "0");
    let xml = fixture.mlt(false);
    assert_eq!(xml.matches("<playlist id=\"playlist").count(), 2);
    assert!(!xml.contains("kdenlive:"), "plain MLT must stay plain:\n{xml}");
}

#[test]
fn a_dissolve_overlaps_the_two_clips_on_two_playlists() {
    let mut fixture = fixture(thirty());
    fixture.push_clip("V1", "0", "1", "0");
    fixture.push_clip("V1", "1", "1", "1");
    fixture.set_transition("V1", 1, TransitionKind::Dissolve, "0.5");
    let xml = fixture.mlt(false);
    assert!(
        xml.contains(r#"<property name="mlt_service">luma</property>"#),
        "a dissolve is a luma transition:\n{xml}"
    );
    // The outgoing clip is extended by fifteen frames so there is something to dissolve from:
    // its entry grows from in=0 out=29 to in=0 out=44. The incoming clip starts at source frame
    // 30, so its head is 30..44 on the second playlist and its tail 45..59 on the first.
    assert!(xml.contains(r#"in="0" out="44""#), "extended outgoing clip:\n{xml}");
    assert!(xml.contains(r#"in="30" out="44""#), "head on playlist B:\n{xml}");
    assert!(xml.contains(r#"in="45" out="59""#), "tail on playlist A:\n{xml}");
    assert!(
        xml.contains(r#"<property name="in">30</property>"#),
        "the transition must cover the overlap:\n{xml}"
    );
}

#[test]
fn a_transition_with_no_source_left_is_reported_not_faked() {
    let mut fixture = fixture(thirty());
    // The first clip consumes the whole four-second source, so there is nothing to extend it
    // with.
    fixture.push_clip("V1", "0", "4", "0");
    fixture.push_clip("V1", "4", "1", "0");
    fixture.set_transition("V1", 1, TransitionKind::Dissolve, "0.5");
    let warnings = fixture.mlt_warnings(false);
    assert!(
        warnings.iter().any(|w| w.code == "transition-dropped"),
        "an impossible transition must be reported: {:?}",
        warnings
    );
}

fn property<'a>(node: roxmltree::Node<'a, 'a>, name: &str) -> Option<&'a str> {
    node.children()
        .filter(|child| child.has_tag_name("property"))
        .find(|child| child.attribute("name") == Some(name))
        .and_then(|child| child.text())
}

#[test]
fn one_bin_clip_per_piece_of_media_however_many_producers_it_needs() {
    let mut fixture = fixture(thirty());
    fixture.push_clip("V1", "0", "1", "0");
    // The same file on an audio track needs a second, picture-less producer.
    fixture.push_clip("A1", "0", "1", "0");
    let xml = fixture.mlt(true);
    let document = roxmltree::Document::parse(&xml).expect("valid XML");
    let bin = document
        .descendants()
        .find(|node| node.attribute("id") == Some("main_bin"))
        .expect("a project bin");
    let entries: Vec<_> = bin.children().filter(|node| node.has_tag_name("entry")).collect();
    assert_eq!(entries.len(), 1, "one file must not appear in the bin twice:\n{xml}");

    let producers: Vec<_> = document
        .descendants()
        .filter(|node| node.has_tag_name("producer"))
        .filter(|node| property(*node, "kdenlive:id").is_some())
        .collect();
    assert_eq!(producers.len(), 2, "two producers for the two uses");
    assert!(
        producers.iter().all(|node| property(*node, "kdenlive:id") == Some("2")),
        "both producers must link back to the same bin clip"
    );
    let listed = entries[0].attribute("producer").expect("bin producer");
    let listed = producers
        .iter()
        .find(|node| node.attribute("id") == Some(listed))
        .expect("the listed producer");
    assert!(
        property(*listed, "set.test_image").is_none(),
        "the bin should show the clip with its picture, not the silent copy"
    );
}

#[test]
fn fades_become_alpha_and_gain_ramps() {
    let mut fixture = fixture(thirty());
    fixture.push_clip("V1", "0", "2", "0");
    fixture.push_clip("A1", "0", "2", "0");
    fixture.set_fades("V1", 0, "0.5", "0");
    fixture.set_fades("A1", 0, "0", "0.5");
    let xml = fixture.mlt(false);
    assert!(
        xml.contains(r#"<property name="alpha">0=0;14=1</property>"#),
        "a half-second video fade in is fifteen frames of alpha ramp:\n{xml}"
    );
    assert!(xml.contains(r#"<property name="mlt_service">brightness</property>"#), "{xml}");
    assert!(
        xml.contains(r#"<property name="gain">1</property>"#)
            && xml.contains(r#"<property name="end">0</property>"#),
        "an audio fade out ramps the volume filter's gain:\n{xml}"
    );
    // The fade-out filter covers the last fifteen frames of the entry, not the clip from its
    // start.
    assert!(xml.contains(r#"<property name="in">45</property>"#), "{xml}");
    assert!(xml.contains(r#"<property name="out">59</property>"#), "{xml}");
}

#[test]
fn unrepresentable_sources_keep_their_length_and_are_reported() {
    let mut fixture = fixture(thirty());
    fixture.push_title("V1", "0", "2");
    let warnings = fixture.mlt_warnings(true);
    assert!(warnings.iter().any(|w| w.code == "title-not-representable"), "{:?}", warnings);
    let text = fixture.mlt(true);
    assert!(text.contains("#00000000"), "the placeholder must be transparent:\n{}", text);
    let imported = from_mlt(&text).expect("read back");
    assert_eq!(imported.tracks[0].clips[0].frames, 60);
}

#[test]
fn audio_clips_do_not_black_out_the_video_under_them() {
    let mut fixture = fixture(thirty());
    fixture.push_clip("A1", "0", "1", "0");
    let xml = fixture.mlt(false);
    assert!(
        xml.contains(r#"<property name="set.test_image">1</property>"#),
        "an audio-track producer must not contribute picture:\n{xml}"
    );
}

#[test]
fn speed_becomes_a_timewarp_producer() {
    let mut fixture = fixture(thirty());
    fixture.push_clip("V1", "0", "1", "0");
    fixture.set_speed("V1", 0, 2, 1);
    let xml = fixture.mlt(false);
    assert!(xml.contains(r#"<property name="mlt_service">timewarp</property>"#), "{xml}");
    assert!(xml.contains("<property name=\"resource\">2:"), "{xml}");
}

#[test]
fn xml_escaping_survives_a_clip_named_with_an_ampersand() {
    let mut fixture = fixture(thirty());
    fixture.push_clip("V1", "0", "1", "0");
    fixture.name_clip("V1", 0, "Q&A <takes>");
    fixture.project.assets[0].name = "Q&A <takes>.mp4".to_string();
    let xml = fixture.mlt(true);
    assert!(xml.contains("Q&amp;A &lt;takes&gt;"), "{xml}");
    roxmltree::Document::parse(&xml).expect("an escaped document still parses");
}

#[test]
fn uuids_are_stable_across_exports() {
    let mut fixture = fixture(thirty());
    fixture.push_clip("V1", "0", "1", "0");
    assert_eq!(fixture.mlt(true), fixture.mlt(true));
    assert!(dvs::ident::uuid_from("prj_01J8ZQ5X7K9V2WD3N4T5M6P7Q8").starts_with('{'));
    assert_ne!(dvs::ident::uuid_from("a"), dvs::ident::uuid_from("b"));
}

#[test]
fn an_unknown_sequence_is_named_with_those_there_are() {
    let fixture = fixture(thirty());
    let error = to_mlt(&fixture.project, "seq_gone", "/project", "qtblend", false).unwrap_err();
    assert_eq!(error.kind(), "no-match");
    assert!(error.message().contains("seq_gone"), "{}", error.message());
    assert!(to_edl(&fixture.project, "seq_gone").is_err());
    assert!(to_fcpxml(&fixture.project, "seq_gone", "/project").is_err());
    assert!(to_otio(&fixture.project, "seq_gone", "/project").is_err());
}

// ---------------------------------------------------------------------------
// EDL
// ---------------------------------------------------------------------------

#[test]
fn timecodes_are_the_same_instants_the_engine_reports() {
    let fps = Fps::new(30000, 1001).unwrap();
    let mut fixture = fixture(fps);
    fixture.push_clip("V1", "0", "2", "1.5");
    let text = fixture.edl();
    let line = text.lines().find(|line| line.starts_with("001")).expect("an event");
    let fields: Vec<&str> = line.split_whitespace().collect();
    let source_in = Time::from_frames(Time::parse("1.5").unwrap().frame_round(fps), fps);
    let expected = [
        source_in.timecode(fps),
        source_in.plus(&Time::from_frames(60, fps)).timecode(fps),
        Time::zero().timecode(fps),
        Time::from_frames(60, fps).timecode(fps),
    ];
    assert_eq!(&fields[fields.len() - 4..], &expected[..], "{line}");
    assert_eq!(expected[0], "00:00:01:15");
    assert_eq!(expected[3], "00:00:02:00");
}

#[test]
fn events_are_numbered_and_record_times_are_contiguous() {
    let mut fixture = fixture(thirty());
    fixture.push_clip("V1", "0", "1", "0");
    fixture.push_second("V1", "1", "2", "0");
    fixture.push_clip("A1", "0", "3", "0");
    let text = fixture.edl();
    assert!(text.starts_with("TITLE: MAIN\nFCM: NON-DROP FRAME\n"), "{text}");
    let events: Vec<&str> = text.lines().filter(|line| line.starts_with("00")).collect();
    assert_eq!(events.len(), 3, "{text}");
    assert!(events[0].starts_with("001  A"), "{}", events[0]);
    assert!(events[1].contains(" V "), "{}", events[1]);
    assert!(events[2].contains(" A "), "audio channel: {}", events[2]);
    let first_out = events[0].split_whitespace().last().expect("record out");
    let second_in = events[1].split_whitespace().nth_back(1).expect("record in");
    assert_eq!(
        first_out, second_in,
        "the record out of one event is the record in of the next"
    );
}

#[test]
fn a_dissolve_is_a_d_event_with_its_length_in_frames() {
    let mut fixture = fixture(thirty());
    fixture.push_clip("V1", "0", "1", "0");
    fixture.push_second("V1", "1", "1", "0");
    fixture.set_transition("V1", 1, TransitionKind::Dissolve, "0.5");
    let text = fixture.edl();
    assert!(text.contains("D 015"), "{text}");
    assert!(text.contains("* EFFECT NAME: CROSS DISSOLVE"), "{text}");
}

#[test]
fn clip_names_become_reels_and_comments() {
    let mut fixture = fixture(thirty());
    fixture.push_clip("V1", "0", "1", "0");
    fixture.name_clip("V1", 0, "interview take 2");
    let text = fixture.edl();
    assert!(text.contains("* FROM CLIP NAME: interview take 2"), "{text}");
    assert!(text.contains("INTERVIE"), "reel is eight characters: {text}");
}

#[test]
fn a_retimed_clip_gets_an_m2_speed_record() {
    let mut fixture = fixture(thirty());
    fixture.push_clip("V1", "0", "1", "0");
    fixture.set_speed("V1", 0, 2, 1);
    let text = fixture.edl();
    assert!(text.contains("M2   "), "{text}");
    assert!(text.contains("60.0"), "two times 30 fps: {text}");
}

#[test]
fn reels_hold_capitals_of_the_name() {
    assert_eq!(dvs::edl::reel_of("große b&w.mp4"), dvs::edl::reel_from("GROSSE B&W.MP4"));
    assert_eq!(dvs::edl::title_of("main"), "MAIN");
    assert_eq!(dvs::edl::reel_of("interview take 2"), "INTERVIE");
    assert_eq!(dvs::edl::reel_of("--- ---"), "AX");
    for name in ["interview take 2", "große b&w.mp4", "--- ---", "ǆ 7"] {
        let reel = dvs::edl::reel_of(name);
        assert_eq!(dvs::edl::reel_of(&reel), reel, "{name}");
        assert!((1..=8).contains(&reel.len()), "{name}");
    }
}

#[test]
fn any_play_rate_is_listed() {
    let mut fixture = fixture(Fps::new(30000, 1001).unwrap());
    fixture.push_clip("V1", "0", "1", "0");
    fixture.set_speed("V1", 0, i64::MAX, 2);
    let text = fixture.edl();
    assert!(text.contains(" 138212368184637000104.9 "), "{text}");
    fixture.set_speed("V1", 0, 1, 1000);
    fixture.track("V1").clips[0].reverse = true;
    let text = fixture.edl();
    assert!(text.contains(" -0.0 "), "{text}");
}

// ---------------------------------------------------------------------------
// FCPXML
// ---------------------------------------------------------------------------

fn fcpxml_document(fps: Fps) -> String {
    let mut fixture = fixture(fps);
    fixture.push_clip("V1", "0", "1", "2");
    fixture.push_clip("V1", "1.5", "1", "0");
    fixture.push_second("A1", "0", "2.5", "0");
    to_fcpxml(&fixture.project, "seq_main", "/project").expect("export")
}

/// FCPXML carries a `<!DOCTYPE fcpxml>`, which roxmltree refuses unless asked.
fn parse_fcpxml(text: &str) -> roxmltree::Document<'_> {
    roxmltree::Document::parse_with_options(
        text,
        roxmltree::ParsingOptions { allow_dtd: true, ..Default::default() },
    )
    .expect("valid XML")
}

/// `Ns/Ds` as (N, D). Anything else in a time attribute is a bug.
fn rational(text: &str) -> (i64, i64) {
    let body = text.strip_suffix('s').unwrap_or_else(|| panic!("not a time: {text}"));
    match body.split_once('/') {
        Some((num, den)) => (num.parse().expect("numerator"), den.parse().expect("denominator")),
        None => (body.parse().expect("whole seconds"), 1),
    }
}

#[test]
fn every_instant_is_a_whole_number_of_frames() {
    let text = fcpxml_document(Fps::new(30000, 1001).unwrap());
    let doc = parse_fcpxml(&text);
    let base = doc
        .descendants()
        .find(|n| n.has_tag_name("format"))
        .and_then(|n| n.attribute("frameDuration"))
        .expect("a frameDuration");
    assert_eq!(base, "1001/30000s", "29.97 must stay exact");
    let (fd_num, fd_den) = rational(base);

    let mut checked = 0;
    for node in doc.descendants() {
        for key in ["offset", "duration", "start", "tcStart"] {
            let Some(value) = node.attribute(key) else {
                continue;
            };
            let (num, den) = rational(value);
            if num == 0 {
                continue;
            }
            assert_eq!(
                den,
                fd_den,
                "{key}='{value}' on <{}> is not in the sequence timebase",
                node.tag_name().name()
            );
            assert_eq!(
                num % fd_num,
                0,
                "{key}='{value}' on <{}> is not a whole number of frames",
                node.tag_name().name()
            );
            checked += 1;
        }
    }
    assert!(checked >= 6, "only {checked} time attributes were checked");
}

#[test]
fn the_document_nests_the_way_final_cut_expects() {
    let text = fcpxml_document(thirty());
    let doc = parse_fcpxml(&text);
    let root = doc.root_element();
    assert_eq!(root.tag_name().name(), "fcpxml");
    assert_eq!(root.attribute("version"), Some(dvs::fcpxml::FCPXML_VERSION));

    let path = ["library", "event", "project", "sequence", "spine", "gap"];
    let mut node = root.children().find(|n| n.has_tag_name("library")).expect("a library");
    for step in &path[1..] {
        node = node
            .children()
            .find(|child| child.has_tag_name(*step))
            .unwrap_or_else(|| panic!("no <{step}> under <{}>", node.tag_name().name()));
    }
    let clips: Vec<_> = node.children().filter(|n| n.has_tag_name("asset-clip")).collect();
    assert_eq!(clips.len(), 3, "every clip should be connected to the gap");
    let lanes: Vec<&str> = clips.iter().filter_map(|c| c.attribute("lane")).collect();
    assert_eq!(lanes, vec!["1", "1", "-1"], "audio belongs below the spine");

    let assets: Vec<_> = doc.descendants().filter(|n| n.has_tag_name("asset")).collect();
    assert_eq!(assets.len(), 2, "one resource per distinct asset");
    assert!(assets.iter().all(|asset| asset.children().any(|child| child.has_tag_name("media-rep")
        && child.attribute("src").is_some_and(|src| src.starts_with("file:///")))));
}

#[test]
fn a_title_becomes_a_gap_and_a_warning() {
    let mut fixture = fixture(thirty());
    fixture.push_title("V1", "0", "2");
    let export = dvs::fcpxml::export(&fixture.project, "seq_main", "/project").expect("export");
    assert!(export.warnings.iter().any(|warning| warning.code == "title-not-representable"));
    let doc = parse_fcpxml(&export.text);
    let gaps: Vec<_> = doc
        .descendants()
        .filter(|n| n.has_tag_name("gap") && n.attribute("lane").is_some())
        .collect();
    assert_eq!(gaps.len(), 1);
    assert_eq!(gaps[0].attribute("duration"), Some("60/30s"));
}

// ---------------------------------------------------------------------------
// OpenTimelineIO
// ---------------------------------------------------------------------------

fn otio_document() -> Json {
    let mut fixture = fixture(Fps::new(30000, 1001).unwrap());
    fixture.push_clip("V1", "0", "1", "2");
    fixture.push_clip("V1", "2", "1", "0");
    fixture.push_second("A1", "0", "1.5", "0");
    json(&to_otio(&fixture.project, "seq_main", "/project").expect("export"))
}

#[test]
fn a_timeline_document_is_laid_out_text() {
    let mut fixture = fixture(Fps::new(30000, 1001).unwrap());
    fixture.push_clip("V1", "0", "1", "2");
    let export = export_otio(&fixture.project, "seq_main", "/project").expect("export");
    assert_eq!(to_otio(&fixture.project, "seq_main", "/project").unwrap(), export.text);
    // Fields stand in the order of their names, two spaces further in than what holds them, and
    // the last line is ended.
    let expected = "{\n  \"OTIO_SCHEMA\": \"Timeline.1\",\n  \"global_start_time\": {\n    \
        \"OTIO_SCHEMA\": \"RationalTime.1\",\n    \"rate\": 29.97002997002997,\n    \
        \"value\": 0.0\n  },\n  \"metadata\": {\n    \"dvs\": {\n      \"fps\": ";
    assert!(export.text.starts_with(expected), "{}", export.text);
    assert!(export.text.ends_with("\n  }\n}\n"), "{}", export.text);
    let read: serde_json::Value = serde_json::from_str(&export.text).expect("JSON");
    assert_eq!(serde_json::to_string_pretty(&read).unwrap() + "\n", export.text);
}

fn member<'a>(node: &'a Json, name: &str) -> &'a Json {
    match node {
        Json::Object(fields) => {
            &fields.iter().find(|field| field.name == name).expect("a field").value
        },
        _ => panic!("not an object"),
    }
}

fn has_member(node: &Json, name: &str) -> bool {
    match node {
        Json::Object(fields) => fields.iter().any(|field| field.name == name),
        _ => false,
    }
}

fn items(node: &Json) -> &Vec<Json> {
    match node {
        Json::Array(items) => items,
        _ => panic!("not an array"),
    }
}

fn text(node: &Json) -> &str {
    match node {
        Json::Text(text) => text,
        _ => panic!("not text"),
    }
}

fn value(node: &Json) -> f64 {
    match node {
        Json::Number(text) => text.parse().expect("a number"),
        _ => panic!("not a number"),
    }
}

fn walk<'a>(node: &'a Json, seen: &mut Vec<&'a Json>) {
    match node {
        Json::Object(fields) => {
            if has_member(node, "OTIO_SCHEMA") {
                seen.push(node);
            }
            for field in fields {
                walk(&field.value, seen);
            }
        },
        Json::Array(items) => {
            for item in items {
                walk(item, seen);
            }
        },
        _ => {},
    }
}

#[test]
fn every_node_declares_its_schema() {
    let document = otio_document();
    assert_eq!(text(member(&document, "OTIO_SCHEMA")), "Timeline.1");
    assert_eq!(text(member(member(&document, "tracks"), "OTIO_SCHEMA")), "Stack.1");
    let mut nodes = Vec::new();
    walk(&document, &mut nodes);
    let schemas: Vec<&str> =
        nodes.iter().map(|node| text(member(node, "OTIO_SCHEMA"))).collect();
    for expected in [
        "Timeline.1",
        "Stack.1",
        "Track.1",
        "Clip.1",
        "Gap.1",
        "ExternalReference.1",
        "TimeRange.1",
        "RationalTime.1",
    ] {
        assert!(
            schemas.iter().any(|schema| *schema == expected),
            "no {expected} node in the document; saw {schemas:?}"
        );
    }
}

#[test]
fn each_tracks_children_sum_to_the_timeline_length() {
    let document = otio_document();
    let tracks = items(member(member(&document, "tracks"), "children"));
    assert_eq!(tracks.len(), 2);
    // Three seconds at 30000/1001 is ninety frames: two one-second clips with a one-second hole
    // between them.
    for track in tracks {
        let total: f64 = items(member(track, "children"))
            .iter()
            .map(|child| value(member(member(member(child, "source_range"), "duration"), "value")))
            .sum();
        assert_eq!(
            total,
            90.0,
            "track '{}' covers {total} frames, the timeline is 90",
            text(member(track, "name"))
        );
    }
}

#[test]
fn frame_positions_are_whole_and_the_rate_carries_the_fraction() {
    let document = otio_document();
    let mut nodes = Vec::new();
    walk(&document, &mut nodes);
    let mut values = Vec::new();
    for node in nodes {
        if text(member(node, "OTIO_SCHEMA")) == "RationalTime.1" {
            values.push((value(member(node, "value")), value(member(node, "rate"))));
        }
    }
    assert!(!values.is_empty());
    for (value, rate) in values {
        assert_eq!(value.fract(), 0.0, "{value} is not a whole frame");
        assert!(
            (rate - 30000.0 / 1001.0).abs() < 1e-9,
            "rate {rate} is not 30000/1001"
        );
    }
}

#[test]
fn clips_carry_a_file_url_and_their_source_in_point() {
    let document = otio_document();
    let tracks = items(member(member(&document, "tracks"), "children"));
    let first = &items(member(&tracks[0], "children"))[0];
    assert_eq!(text(member(first, "OTIO_SCHEMA")), "Clip.1");
    assert_eq!(
        value(member(member(member(first, "source_range"), "start_time"), "value")),
        60.0,
        "a two-second in point at 29.97 is frame 60"
    );
    let reference = member(first, "media_reference");
    let url = text(member(reference, "target_url"));
    assert!(url.starts_with("file:///"), "{url}");
    assert_eq!(text(member(reference, "OTIO_SCHEMA")), "ExternalReference.1");
}

// ---------------------------------------------------------------------------
// Operations
// ---------------------------------------------------------------------------

fn json(text: &str) -> Json {
    dvs::json::parse_json(&text.as_bytes().to_vec()).expect("JSON")
}

#[test]
fn every_op_id_is_in_this_crates_namespace() {
    let ops: Vec<dvs::ops::OpEntry> = dvs::ops::operations()
        .into_iter()
        .filter(|op| op.id.starts_with("export.") || op.id.starts_with("import."))
        .collect();
    let mut ids: Vec<&str> = ops.iter().map(|op| op.id).collect();
    ids.sort_unstable();
    assert_eq!(
        ids,
        vec![
            "export.edl",
            "export.fcpxml",
            "export.kdenlive",
            "export.mlt",
            "export.otio",
            "export.srt",
            "import.mlt",
        ]
    );
    for op in ops {
        assert_eq!(
            op.query,
            op.id.starts_with("export."),
            "{} is on the wrong side of the query line",
            op.id
        );
    }
}

#[test]
fn unknown_arguments_are_refused() {
    let error = dvs::transfer_ops::export_request(&json(r#"{"out":"a.edl","seq":"main"}"#))
        .expect_err("'seq' is not an argument, it is context");
    assert!(error.message().contains("seq"), "{}", error.message());
    assert_eq!(error.kind(), "bad-args");
}

#[test]
fn exports_are_asked_for_by_where_they_go() {
    assert_eq!(dvs::transfer_ops::export_request(&json(r#"{"out":"a.mlt"}"#)).unwrap(), "a.mlt");
    assert!(dvs::transfer_ops::export_request(&json("{}")).is_err());
    let asked =
        dvs::transfer_ops::captions_request(&json(r#"{"out":"a.vtt","track":"CC1"}"#)).unwrap();
    assert_eq!(asked.out, "a.vtt");
    assert_eq!(asked.format, None);
    assert_eq!(asked.track, Some("CC1".to_string()));
    assert_eq!(
        dvs::transfer_ops::import_file_request(&json(r#"{"path":"in.mlt"}"#)).unwrap(),
        "in.mlt"
    );
    assert_eq!(dvs::transfer::destination("/project", "out/a.mlt"), "/project/out/a.mlt");
    assert_eq!(dvs::transfer::destination("/project", "/tmp/a.mlt"), "/tmp/a.mlt");
    let answer = dvs::transfer_ops::delivered("out/a.mlt", 12, true);
    assert_eq!(text(member(&answer, "path")), "out/a.mlt");
    assert_eq!(value(member(&answer, "bytes")), 12.0);
    assert!(matches!(member(&answer, "dryRun"), Json::Bool(true)));
}

#[test]
fn a_dry_run_reports_the_losses_without_writing() {
    let mut fixture = fixture(thirty());
    fixture.push_title("V1", "0", "1");
    let warnings = fixture.mlt_warnings(false);
    assert!(warnings.iter().any(|warning| warning.code == "title-not-representable"));
}

#[test]
fn srt_export_picks_its_format_from_the_extension() {
    let mut fixture = fixture(thirty());
    fixture.push_cue("0", "1", "hello");
    let sequence = &fixture.project.sequences[0];
    let (srt, _) = dvs::transfer::export_captions(sequence, "subs.srt", None, None).unwrap();
    assert!(srt.starts_with("1\n00:00:00,000 --> 00:00:01,000\nhello\n"), "{srt}");
    let (text, _) = dvs::transfer::export_captions(sequence, "captions.vtt", None, None).unwrap();
    assert!(text.starts_with("WEBVTT"), "{text}");
    assert!(text.contains("00:00:00.000 --> 00:00:01.000"), "{text}");
    let (vtt, _) = dvs::transfer::export_captions(sequence, "subs.VTT", None, None).unwrap();
    assert_eq!(vtt, text);
    let (forced, _) =
        dvs::transfer::export_captions(sequence, "subs.vtt", Some("SRT"), None).unwrap();
    assert_eq!(forced, srt);
    let error =
        dvs::transfer::export_captions(sequence, "subs.srt", Some("ass"), None).unwrap_err();
    assert_eq!(error.message(), "unknown subtitle format 'ass'; use 'srt' or 'vtt'");
}

#[test]
fn srt_export_without_captions_says_so_instead_of_writing_nothing() {
    let mut fixture = fixture(thirty());
    fixture.push_clip("V1", "0", "1", "0");
    let error =
        dvs::transfer::export_captions(&fixture.project.sequences[0], "captions.srt", None, None)
            .expect_err("there are no captions");
    assert!(error.message().contains("caption"), "{}", error.message());
    assert_eq!(error.kind(), "no-match");
    fixture.push_cue("0", "1", "hello");
    fixture.track("CC1").cues.clear();
    let error =
        dvs::transfer::export_captions(&fixture.project.sequences[0], "subs.srt", None, None)
            .unwrap_err();
    assert_eq!(
        error.message(),
        "the caption track has no cues; generate them with caption.generate first"
    );
}

#[test]
fn overlapping_captions_are_reported() {
    let mut fixture = fixture(thirty());
    fixture.push_cue("0", "2", "one");
    fixture.push_cue("1", "3", "two");
    let (_, warnings) =
        dvs::transfer::export_captions(&fixture.project.sequences[0], "subs.srt", None, None)
            .unwrap();
    assert_eq!(warnings.iter().map(|w| w.code).collect::<Vec<_>>(), ["caption-overlap"]);
}

#[test]
fn import_round_trips_an_exported_timeline_back_into_the_project() {
    let mut fixture = fixture(thirty());
    fixture.push_clip("V1", "0", "1", "0");
    fixture.push_second("V1", "1.5", "1", "0");
    let xml = fixture.mlt(false);
    let imported = from_mlt(&xml).expect("read back");
    let plan = dvs::transfer::plan_import(
        &fixture.project,
        &fixture.project.sequences[0],
        &imported,
    )
    .expect("a plan");
    assert!(plan.dropped.is_empty(), "{:?}", plan.dropped);
    assert!(plan.warnings.is_empty(), "{:?}", plan.warnings);
    assert_eq!(plan.tracks.len(), 1, "only the video track carries clips");
    assert_eq!(plan.clips, 2);
    assert_eq!(plan.tracks[0].name, "V2");
    let ids: Vec<dvs::transfer_ops::TrackIds> = plan
        .tracks
        .iter()
        .map(|track| dvs::transfer_ops::TrackIds {
            track: "trk_new".to_string(),
            clips: (0..track.clips.len()).map(|i| format!("clp_new_{i}")).collect(),
        })
        .collect();
    dvs::transfer_ops::append_tracks(fixture.sequence_mut(), &plan, &ids);
    let sequence = &fixture.project.sequences[0];
    assert_eq!(sequence.tracks.len(), 3);
    let added = &sequence.tracks[2];
    assert_eq!(added.id, "trk_new");
    assert_eq!(added.name, "V2");
    assert_eq!(added.clips.len(), 2);
    assert_eq!(added.clips[0].duration, Time::from_secs(1));
    assert_eq!(added.clips[1].start, Time::parse("1.5").unwrap());
    assert_eq!(added.clips[1].source.asset_id(), Some(&"ast_b".to_string()));
    let before = &sequence.tracks[0];
    for (clip, old) in added.clips.iter().zip(&before.clips) {
        assert_eq!(clip.start, old.start);
        assert_eq!(clip.duration, old.duration);
        assert_eq!(clip.source_in, old.source_in);
        assert_eq!(clip.source.asset_id(), old.source.asset_id());
    }
    let answer = dvs::transfer_ops::imported(&plan, &imported);
    assert_eq!(value(member(&answer, "tracks")), 1.0);
    assert_eq!(value(member(&answer, "clips")), 2.0);
    assert_eq!(text(member(&answer, "fps")), thirty().to_text());
}

#[test]
fn a_speed_that_cannot_be_stored_is_rounded() {
    let mut fixture = fixture(thirty());
    fixture.push_clip("V1", "0", "1", "0");
    fixture.set_speed("V1", 0, 2, 1);
    let xml = fixture.mlt(true);
    assert!(xml.contains(">2:/project/"), "{xml}");
    for (written, speed, reverse) in [
        ("1e30", Rat::new(i64::MAX, 1), false),
        ("-1e30", Rat::new(i64::MAX, 1), true),
        ("-1e-30", Rat::new(1, 1_000_000_000_000_000_000), true),
        ("0.12345678901234567890123", Rat::new(123456789012345679, 1_000_000_000_000_000_000), false),
        ("0e99999999999999999999", Rat::new(1, 1), false),
        ("1e400", Rat::new(1, 1), false),
        ("1e-400", Rat::new(1, 1), false),
        ("1e99999999999999999999", Rat::new(1, 1), false),
        ("nan", Rat::new(1, 1), false),
    ] {
        let imported = from_mlt(&xml.replace(">2:/project/", &format!(">{written}:/project/")))
            .expect("read back");
        let plan =
            dvs::transfer::plan_import(&fixture.project, &fixture.project.sequences[0], &imported)
                .expect("a plan");
        let clip = &plan.tracks[0].clips[0];
        assert_eq!((clip.speed, clip.reverse), (speed.unwrap(), reverse), "{written}");
    }
}

#[test]
fn import_reports_media_the_project_does_not_have() {
    let fixture = fixture(thirty());
    let xml = r#"<mlt producer="tractor0">
  <profile frame_rate_num="30" frame_rate_den="1" width="320" height="240"/>
  <producer id="p0">
    <property name="resource">/nowhere/stranger.mp4</property>
    <property name="mlt_service">avformat-novalidate</property>
  </producer>
  <playlist id="pl0"><entry producer="p0" in="0" out="29"/></playlist>
  <tractor id="tractor0"><track producer="pl0"/></tractor>
</mlt>"#;
    let imported = from_mlt(xml).expect("read");
    let plan =
        dvs::transfer::plan_import(&fixture.project, &fixture.project.sequences[0], &imported)
            .expect("a plan");
    assert_eq!(plan.clips, 0);
    assert!(plan.warnings.iter().any(|warning| warning.code == "clip-dropped"));
    assert_eq!(plan.dropped, ["/nowhere/stranger.mp4"]);
    assert!(plan.tracks.is_empty(), "a track with no usable clips must not be added");
}

#[test]
fn importing_a_kdenlive_transition_never_produces_overlapping_clips() {
    let mut fixture = fixture(thirty());
    fixture.push_clip("V1", "0", "1", "0");
    fixture.push_second("V1", "1", "1", "0");
    fixture.set_transition("V1", 1, TransitionKind::Dissolve, "0.5");
    let imported = from_mlt(&fixture.mlt(true)).expect("read back");
    let plan =
        dvs::transfer::plan_import(&fixture.project, &fixture.project.sequences[0], &imported)
            .expect("a plan");
    // The dissolve is an overlap in MLT and cannot be one here, so the duplicated frames come
    // back as a dropped clip rather than an invalid document.
    assert!(
        plan.warnings.iter().any(|warning| warning.detail.contains("overlaps")),
        "{:?}",
        plan.warnings
    );
    for track in &plan.tracks {
        for pair in track.clips.windows(2) {
            let end = pair[0].start.plus(&pair[0].duration);
            assert!(!pair[1].start.before(&end), "clips overlap on {}", track.name);
        }
    }
    let added = plan.tracks.last().expect("the imported track");
    assert_eq!(added.clips.len(), 2);
    assert_eq!(added.clips[0].duration, Time::parse("1.5").unwrap());
}

#[test]
fn a_sequence_beyond_the_range_of_a_format_is_refused() {
    let mut fixture = fixture(thirty());
    fixture.push_clip("V1", "0", "1", "0");
    let clip = &mut fixture.project.sequences[0].tracks[0].clips[0];
    clip.start = Time { secs: Rat { num: i64::MAX, den: 1 } };
    let project = &fixture.project;
    let id = project.sequences[0].id.clone();
    let errors = [
        to_mlt(project, &id, "/media", "qtblend", false).unwrap_err(),
        to_fcpxml(project, &id, "/media").unwrap_err(),
        to_edl(project, &id).unwrap_err(),
    ];
    for error in &errors {
        assert_eq!(error.kind(), errors[0].kind());
        assert_eq!(error.message(), errors[0].message());
    }
    assert!(errors[0].message().contains(project.sequences[0].name.as_str()));
}

// ---------------------------------------------------------------------------
// Nothing is dropped in silence
// ---------------------------------------------------------------------------

fn codes(warnings: &[Warning]) -> Vec<&str> {
    warnings.iter().map(|warning| warning.code).collect()
}

fn every_format(fixture: &Fixture) -> Vec<(&'static str, Vec<Warning>)> {
    let project = &fixture.project;
    vec![
        ("fcpxml", export_fcpxml(project, "seq_main", "/project").unwrap().warnings),
        ("otio", export_otio(project, "seq_main", "/project").unwrap().warnings),
        ("edl", export_edl(project, "seq_main").unwrap().warnings),
        ("mlt", fixture.mlt_warnings(false)),
        ("kdenlive", fixture.mlt_warnings(true)),
    ]
}

#[test]
fn plain_clips_bring_no_warnings() {
    let mut fixture = fixture(thirty());
    fixture.push_clip("V1", "0", "1", "0");
    fixture.push_second("A1", "0", "1", "0");
    for (format, warnings) in every_format(&fixture) {
        assert!(warnings.is_empty(), "{format}: {warnings:?}");
    }
}

#[test]
fn a_transition_is_written_or_reported() {
    let mut fixture = fixture(thirty());
    fixture.push_clip("V1", "0", "1", "0");
    fixture.push_second("V1", "1", "1", "0");
    fixture.set_transition("V1", 1, TransitionKind::Dissolve, "0.5");
    for (format, warnings) in every_format(&fixture) {
        let told = codes(&warnings).contains(&"transition-not-exported");
        assert_eq!(told, format == "fcpxml" || format == "otio", "{format}: {warnings:?}");
    }
    let warnings = export_fcpxml(&fixture.project, "seq_main", "/project").unwrap().warnings;
    assert_eq!(warnings.len(), 1);
    assert_eq!(warnings[0].target, "clp_V1_1");
    assert_eq!(
        warnings[0].detail,
        "the transition at the start of 'clp_V1_1' is not part of this FCPXML export; there is a cut"
    );
}

#[test]
fn what_no_format_but_mlt_can_hold_is_reported() {
    let mut fixture = fixture(thirty());
    fixture.push_clip("V1", "0", "1", "0");
    fixture.push_clip("A1", "0", "1", "0");
    fixture.set_fades("V1", 0, "0.5", "0");
    fixture.track("V1").clips[0].opacity = Some(500_000);
    fixture.track("A1").clips[0].gain = Some(-6_000_000);
    fixture.track("A1").pan = Some(250_000);
    fixture.track("A1").muted = true;
    for (format, warnings) in every_format(&fixture) {
        let codes = codes(&warnings);
        for code in [
            "fade-not-exported",
            "opacity-not-exported",
            "level-not-exported",
            "track-level-not-exported",
        ] {
            let held = format == "mlt" || format == "kdenlive";
            assert_eq!(codes.contains(&code), !held, "{format} {code}: {codes:?}");
        }
        let told = codes.contains(&"track-state-not-exported");
        assert_eq!(told, format == "fcpxml" || format == "edl", "{format}: {codes:?}");
    }
}

#[test]
fn captions_and_markers_are_reported_where_they_stay_behind() {
    let mut fixture = fixture(thirty());
    fixture.push_clip("V1", "0", "1", "0");
    fixture.push_cue("0", "1", "hello");
    fixture.sequence_mut().markers.push(Marker {
        id: "mk_1".to_string(),
        at: Time::zero(),
        name: "intro".to_string(),
        note: Some("loud".to_string()),
    });
    for (format, warnings) in every_format(&fixture) {
        let codes = codes(&warnings);
        assert!(codes.contains(&"captions-not-exported"), "{format}: {codes:?}");
        let markers = codes.contains(&"markers-not-exported");
        assert_eq!(markers, format != "otio" && format != "kdenlive", "{format}: {codes:?}");
        let notes = codes.contains(&"marker-note-not-exported");
        assert_eq!(notes, format == "kdenlive", "{format}: {codes:?}");
    }
}

#[test]
fn colors_and_drawings_are_reported_where_they_stay_behind() {
    let mut fixture = fixture(thirty());
    let color = dvs::color::Rgba { r: 255, g: 0, b: 0, a: 255 };
    fixture.push_source("V1", Source::Color { color }, "0", "1", "0");
    fixture.push_title("V1", "1", "1");
    for (format, warnings) in every_format(&fixture) {
        let codes = codes(&warnings);
        let held = format == "mlt" || format == "kdenlive";
        assert_eq!(codes.contains(&"color-not-exported"), !held, "{format}: {codes:?}");
        assert_eq!(codes.contains(&"drawing-not-exported"), format == "edl", "{format}: {codes:?}");
    }
}

#[test]
fn sound_under_a_picture_its_fit_and_its_ducking_are_reported() {
    let mut fixture = fixture(thirty());
    fixture.push_clip("V1", "0", "1", "0");
    fixture.track("V1").clips[0].gain = Some(-6_000_000);
    fixture.track("V1").clips[0].fit = "cover".to_string();
    fixture.track("V1").clips[0].enabled = false;
    assert!(
        !codes(&fixture.mlt_warnings(false)).contains(&"level-not-exported"),
        "nothing is missed of a clip that is off"
    );
    fixture.track("V1").clips[0].enabled = true;
    for (format, warnings) in every_format(&fixture) {
        let codes = codes(&warnings);
        assert!(codes.contains(&"level-not-exported"), "{format}: {codes:?}");
        assert!(codes.contains(&"fit-not-exported"), "{format}: {codes:?}");
    }
}

#[test]
fn a_plain_document_keeps_the_gain_and_pan_of_a_track() {
    let mut fixture = fixture(thirty());
    fixture.push_clip("A1", "0", "1", "0");
    fixture.track("A1").gain = Some(-6_000_000);
    let xml = fixture.mlt(false);
    assert!(xml.contains(r#"<property name="level">-6</property>"#), "{xml}");
    let imported = from_mlt(&xml).expect("read back");
    assert_eq!(imported.tracks[1].clips.len(), 1, "the tractor is no clip");
    assert_eq!(imported.tracks[1].clips[0].frames, 30);
}

#[test]
fn a_producer_is_as_long_as_what_is_asked_of_it() {
    // Five seconds of a four-second file.
    let mut fixture = fixture(thirty());
    fixture.push_clip("V1", "0", "5", "0");
    let xml = fixture.mlt(false);
    assert!(xml.contains(r#"<property name="length">150</property>"#), "{xml}");
    assert!(xml.contains(r#"out="149""#), "{xml}");
}

#[test]
fn the_bin_lists_a_file_at_its_own_speed() {
    let mut fixture = fixture(thirty());
    fixture.push_clip("V1", "0", "1", "0");
    fixture.push_clip("V1", "1", "1", "1");
    fixture.set_speed("V1", 0, 2, 1);
    let xml = fixture.mlt(true);
    let document = roxmltree::Document::parse(&xml).expect("valid XML");
    let bin = document
        .descendants()
        .find(|node| node.attribute("id") == Some("main_bin"))
        .expect("a project bin");
    let listed: Vec<_> = bin.children().filter(|node| node.has_tag_name("entry")).collect();
    assert_eq!(listed.len(), 1);
    let producer = document
        .descendants()
        .find(|node| {
            node.has_tag_name("producer") && node.attribute("id") == listed[0].attribute("producer")
        })
        .expect("the listed producer");
    assert_eq!(property(producer, "mlt_service"), Some("avformat-novalidate"));
}

#[test]
fn a_document_names_everything_once_and_before_it_is_used() {
    let mut fixture = fixture(thirty());
    fixture.push_clip("V1", "0", "1", "0");
    fixture.push_second("V1", "1", "1", "0.5");
    fixture.set_transition("V1", 1, TransitionKind::Dissolve, "0.5");
    fixture.push_clip("A1", "0", "1", "0");
    for kdenlive in [false, true] {
        let xml = fixture.mlt(kdenlive);
        let document = roxmltree::Document::parse(&xml).expect("valid XML");
        let mut known: Vec<&str> = Vec::new();
        for node in document.root_element().children().filter(|node| node.is_element()) {
            for inner in node.descendants() {
                if let Some(wanted) = inner.attribute("producer") {
                    assert!(known.contains(&wanted), "{wanted} is used before it is defined");
                }
            }
            for id in node.descendants().filter_map(|inner| inner.attribute("id")) {
                assert!(!known.contains(&id), "{id} stands twice");
                known.push(id);
            }
        }
        let last = document
            .root_element()
            .children()
            .filter(|node| node.has_tag_name("tractor"))
            .last()
            .expect("a timeline");
        assert_eq!(document.root_element().attribute("producer"), last.attribute("id"));
    }
}

#[test]
fn a_reversed_clip_keeps_its_sign_however_slow_it_is() {
    let mut fixture = fixture(thirty());
    fixture.push_clip("V1", "0", "1", "0");
    fixture.set_speed("V1", 0, 1, 10_000_000);
    fixture.track("V1").clips[0].reverse = true;
    let xml = fixture.mlt(false);
    assert!(xml.contains(r#"<property name="resource">-0:"#), "{xml}");
}

#[test]
fn a_url_escapes_what_it_may_not_carry() {
    assert_eq!(dvs::timeline::file_url("/m/a b%.mp4"), "file:///m/a%20b%25.mp4");
}

#[test]
fn a_reel_name_stays_as_it_is() {
    let once = dvs::edl::reel_from("INTERVIEW-01.MOV");
    assert_eq!(once, "INTERVIE");
    assert_eq!(dvs::edl::reel_from(&once), once);
}
