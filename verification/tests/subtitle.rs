use dvs::project::CaptionCue;
use dvs::subtitle::{from_srt, from_vtt, parse_stamp, stamp, to_srt, to_vtt};
use dvs::time::{Span, Time};

fn cue(start: &str, end: &str, text: &str) -> CaptionCue {
    CaptionCue {
        id: "cue_1".to_string(),
        span: Span::new(Time::parse(start).unwrap(), Time::parse(end).unwrap()),
        text: text.to_string(),
        style: None,
    }
}

#[test]
fn srt_timestamps_are_the_same_instants_time_reports() {
    let at = Time::parse("1h2m3.5s").unwrap();
    assert_eq!(at.clock(), "01:02:03.500");
    assert_eq!(stamp(at, ','), "01:02:03,500");
}

#[test]
fn srt_round_trips_commas_and_multiple_lines() {
    let cues = vec![cue("0", "2.5", "Hello, world"), cue("2.5", "5", "first line\nsecond line")];
    let text = to_srt(&cues);
    assert!(text.starts_with("1\n00:00:00,000 --> 00:00:02,500\nHello, world\n"));
    let back = from_srt(&text).unwrap();
    assert_eq!(back.len(), 2);
    assert_eq!(back[0].text, "Hello, world");
    assert_eq!(back[1].text, "first line\nsecond line");
    assert_eq!(back[1].span, cues[1].span);
}

#[test]
fn reader_absorbs_bom_crlf_and_missing_blank_lines() {
    let text = "\u{feff}1\r\n00:00:01,000 --> 00:00:02,000\r\nfirst\r\n2\r\n00:00:03,000 --> 00:00:04,000\r\nsecond\r\n";
    let cues = from_srt(text).unwrap();
    assert_eq!(cues.len(), 2);
    assert_eq!(cues[0].text, "first");
    assert_eq!(cues[1].text, "second");
    assert_eq!(cues[1].span.start, Time::from_secs(3));
}

#[test]
fn out_of_order_input_comes_back_sorted() {
    let text = "\
2
00:00:10,000 --> 00:00:12,000
later

1
00:00:01,000 --> 00:00:02,000
earlier
";
    let cues = from_srt(text).unwrap();
    assert_eq!(cues.iter().map(|c| c.text.as_str()).collect::<Vec<_>>(), ["earlier", "later"]);
}

#[test]
fn vtt_header_and_decimal_point_round_trip() {
    let cues = vec![cue("1/3", "2/3", "third of a second")];
    let text = to_vtt(&cues);
    assert!(text.starts_with("WEBVTT\n\n"), "missing header: {text}");
    assert!(text.contains("00:00:00.333 --> 00:00:00.667"), "{text}");
    let back = from_vtt(&text).unwrap();
    assert_eq!(back.len(), 1);
    assert_eq!(back[0].text, "third of a second");
}

#[test]
fn vtt_notes_settings_and_identifiers_are_not_caption_text() {
    let text = "\
WEBVTT
Kind: captions

NOTE this file was generated
by a tool

intro-cue
00:00:01.000 --> 00:00:02.000 align:start position:10%
visible text
";
    let cues = from_vtt(text).unwrap();
    assert_eq!(cues.len(), 1);
    assert_eq!(cues[0].text, "visible text");
    assert_eq!(cues[0].span.end, Time::from_secs(2));
}

#[test]
fn fractions_keep_their_written_precision() {
    let cues = from_srt("00:00:01,0005 --> 00:00:02,000\nx\n").unwrap();
    assert_eq!(cues[0].span.start, Time::new(10005, 10000).unwrap());
}

#[test]
fn an_unreadable_timestamp_is_an_error_not_a_dropped_cue() {
    let error = from_srt("1\n00:00:0x,000 --> 00:00:02,000\nlost\n").unwrap_err();
    assert!(error.message().contains("start timestamp"), "unhelpful error: {}", error.message());
    let error = from_srt("1\n00:00:01,000 --> 00:00:0x,000\nlost\n").unwrap_err();
    assert_eq!(error.message(), "SRT line 2: cannot read end timestamp '00:00:0x,000'");
}

#[test]
fn empty_input_is_empty_output() {
    assert!(from_srt("\u{feff}\r\n\r\n").unwrap().is_empty());
    assert_eq!(to_srt(&vec![]), "");
}

#[test]
fn instants_are_read_back_to_the_millisecond() {
    for (written, read) in [("1/3", "0.333"), ("2/3", "0.667"), ("59.9996", "60"), ("-1", "0")] {
        let text = stamp(Time::parse(written).unwrap(), ',');
        assert_eq!(parse_stamp(&text), Some(Time::parse(read).unwrap()), "{written} as {text}");
        let padded = format!("  {text}\t");
        assert_eq!(parse_stamp(&padded), parse_stamp(&text));
    }
    assert_eq!(parse_stamp("01:02:03.5"), Some(Time::parse("3723.5").unwrap()));
    assert_eq!(parse_stamp("02:03"), Some(Time::from_secs(123)));
    assert_eq!(parse_stamp("123"), None);
    assert_eq!(parse_stamp("1:2:3:4"), None);
    assert_eq!(parse_stamp("-1:00"), None);
}

#[test]
fn an_instant_has_any_number_of_digits() {
    let read = |text: &str| parse_stamp(text).map(|at| (at.secs.num, at.secs.den));
    // With a two in the nineteenth place the fraction can be halved, and is stored.
    assert_eq!(
        read("00:00.0000000000000000002"),
        Some((1, 5_000_000_000_000_000_000))
    );
    assert_eq!(read("00:00.0000000000000000001"), None);
    assert_eq!(read("01:00.5000000000000000000000000000000000000000"), Some((121, 2)));
    // A power of two has as many digits as its exponent says.
    assert_eq!(
        read("00:00.000000000000000000216840434497100886801490560173988342285156250"),
        Some((1, 1 << 62))
    );
    assert_eq!(read("00:01.000000000000000000000000000000000000000000000000000000000001"), None);
}

#[test]
fn blank_lines_and_trailing_space_do_not_survive_a_file() {
    let cues = vec![cue("0", "1", "one  \n\n \ntwo\t"), cue("1", "2", "\n\n")];
    for back in [from_srt(&to_srt(&cues)).unwrap(), from_vtt(&to_vtt(&cues)).unwrap()] {
        assert_eq!(back.len(), 2);
        assert_eq!(back[0].text, "one\ntwo");
        assert_eq!(back[1].text, "");
        assert_eq!(back[1].span, cues[1].span);
    }
}

#[test]
fn an_arrow_in_the_text_ends_the_cue() {
    let cues = vec![cue("0", "1", "a --> b")];
    assert!(from_srt(&to_srt(&cues)).is_err());
}

#[test]
fn cues_come_back_without_identity_and_style() {
    let cues = from_srt("1\n00:00:01,000 --> 00:00:02,000\nhello\n").unwrap();
    assert_eq!(cues.len(), 1);
    assert!(cues[0].id.is_empty());
    assert!(cues[0].style.is_none());
}

#[test]
fn marks_and_line_endings_change_nothing() {
    let plain = "1\n00:00:01,000 --> 00:00:02,000\nhello\nthere\n";
    let marked = format!("\u{feff}{}", plain.replace('\n', "\r\n"));
    let (a, b) = (from_srt(plain).unwrap(), from_srt(&marked).unwrap());
    assert_eq!(a.len(), b.len());
    assert_eq!(a[0].text, b[0].text);
    assert_eq!(a[0].span, b[0].span);
}
