use dvs::color::Rgba;
use dvs::project::{Clip, Sequence, Source, Track, TrackKind};
use dvs::time::{Fps, Time};
use dvs::timeline::{file_url, flatten, Entry};

fn fps() -> Fps {
    Fps::new(30, 1).unwrap()
}

fn clip(id: &str, start: &str, duration: &str) -> Clip {
    Clip::new(
        id.to_string(),
        Source::Color { color: Rgba::opaque(0, 0, 0) },
        Time::parse(start).unwrap(),
        Time::parse(duration).unwrap(),
    )
}

fn sequence(clips: Vec<Clip>) -> Sequence {
    let mut track = Track::new("trk_1".to_string(), "V1".to_string(), TrackKind::Video);
    track.clips = clips;
    Sequence {
        id: "seq_main".to_string(),
        name: "main".to_string(),
        fps: fps(),
        size: [1920, 1080],
        sample_rate: 48000,
        channels: 2,
        tracks: vec![track],
        markers: Vec::new(),
    }
}

#[test]
fn rounding_ends_instead_of_durations_keeps_cuts_from_drifting() {
    // 0.05 s is a frame and a half at 30 fps. Rounding each duration would make every clip two
    // frames and push the third cut from frame 3 to frame 4.
    let sequence = sequence(vec![
        clip("clp_a", "0", "0.05"),
        clip("clp_b", "0.05", "0.05"),
        clip("clp_c", "0.1", "0.05"),
    ]);
    let flat = flatten(&sequence);
    let starts: Vec<i64> = flat[0].clips().iter().map(|placed| placed.start).collect();
    let frames: Vec<i64> = flat[0].clips().iter().map(|placed| placed.frames).collect();
    assert_eq!(starts, vec![0, 2, 3]);
    assert_eq!(frames, vec![2, 1, 2]);
    assert_eq!(flat[0].frames, 5);
    assert!(
        !flat[0].entries.iter().any(|entry| matches!(entry, Entry::Blank { .. })),
        "clips that touch must not be separated by a blank"
    );
}

#[test]
fn a_clip_shorter_than_a_frame_is_widened_and_reported() {
    let sequence = sequence(vec![clip("clp_a", "0", "1/300"), clip("clp_b", "1/300", "1")]);
    let flat = flatten(&sequence);
    assert_eq!(flat[0].clips().iter().map(|p| p.frames).collect::<Vec<_>>(), vec![1, 30]);
    assert_eq!(flat[0].clips().iter().map(|p| p.start).collect::<Vec<_>>(), vec![0, 1]);
    assert_eq!(flat[0].warnings.first().map(|w| w.code), Some("sub-frame-clip"));
}

#[test]
fn a_hole_becomes_a_blank_of_exactly_its_frame_count() {
    let sequence = sequence(vec![clip("clp_a", "0", "1"), clip("clp_b", "1.5", "1")]);
    let flat = flatten(&sequence);
    let blanks: Vec<i64> = flat[0]
        .entries
        .iter()
        .filter_map(|entry| match entry {
            Entry::Blank { frames } => Some(*frames),
            _ => None,
        })
        .collect();
    assert_eq!(blanks, vec![15]);
    assert_eq!(flat[0].frames, 75);
}

#[test]
fn a_disabled_clip_keeps_its_length_as_blank() {
    let mut clips = vec![clip("clp_a", "0", "1"), clip("clp_b", "1", "2")];
    clips[0].enabled = false;
    let sequence = sequence(clips);
    let flat = flatten(&sequence);
    assert_eq!(flat[0].frames, 90);
    assert_eq!(flat[0].clips().len(), 1);
    assert_eq!(flat[0].warnings.first().map(|w| w.code), Some("clip-disabled"));
}

#[test]
fn caption_tracks_are_not_playlists() {
    let mut sequence = sequence(vec![clip("clp_a", "0", "1")]);
    sequence.tracks.push(Track::new(
        "trk_2".to_string(),
        "CC1".to_string(),
        TrackKind::Caption,
    ));
    assert_eq!(flatten(&sequence).len(), 1);
}

#[test]
fn file_urls_escape_what_a_url_cannot_hold() {
    assert_eq!(file_url("/tmp/my clips/a&b.mp4"), "file:///tmp/my%20clips/a%26b.mp4");
}

#[test]
fn clips_stand_where_the_entries_before_them_end() {
    let sequence = sequence(vec![
        clip("clp_a", "0.5", "1"),
        clip("clp_b", "1.5", "0.25"),
        clip("clp_c", "3", "1"),
    ]);
    let flat = flatten(&sequence);
    let mut at = 0;
    for entry in &flat[0].entries {
        match entry {
            Entry::Blank { frames } => at += frames,
            Entry::Clip(placed) => {
                assert_eq!(placed.start, at);
                at += placed.frames;
            },
        }
    }
    assert_eq!(at, flat[0].frames);
}
