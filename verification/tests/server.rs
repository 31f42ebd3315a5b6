use dvs::json::{parse_json, Json};
use dvs::lint_fits::are_numbers_ok;
use dvs::loop_ops::{
    batch_answer, batch_request, check_request, frame_answer, frame_request, history_request,
    output_request, sheet_request, transcript_request,
};
use dvs::ops::{operation_ids, operations};
use dvs::project::{Project, Sequence, Track, TrackKind};
use dvs::report::{
    cached_frame_path, frame_index, history, lint_json, overview, transcript_query, JournalEntry, Place,
    TranscriptInfo, Word,
};
use dvs::encode::Encoder;
use dvs::finding::{Finding, Severity};
use dvs::rational::Rat;
use dvs::server::{
    apply_render_args, call, encode_png, opt_u32, read_batch, Call, RenderSpec,
};
use dvs::time::{Fps, Span, Time};
use dvs::tools::{full_catalog, op_for_tool, parse_span, OpInfo, LOOP_TOOLS};
use std::collections::BTreeMap;

fn json(text: &str) -> Json {
    parse_json(&text.as_bytes().to_vec()).expect("JSON")
}

fn member<'a>(node: &'a Json, name: &str) -> &'a Json {
    match node {
        Json::Object(fields) => {
            &fields.iter().find(|field| field.name == name).expect("a field").value
        },
        _ => panic!("not an object"),
    }
}

fn item(node: &Json, at: usize) -> &Json {
    match node {
        Json::Array(items) => &items[at],
        _ => panic!("not an array"),
    }
}

fn text(node: &Json) -> &str {
    match node {
        Json::Text(text) => text,
        _ => panic!("not text"),
    }
}

fn number(node: &Json) -> f64 {
    match node {
        Json::Number(text) => text.parse().expect("a number"),
        _ => panic!("not a number"),
    }
}

/// The operations here, with some of an editor beside them.
fn registry() -> Vec<String> {
    let mut ids = operation_ids();
    for id in ["clip.split", "clip.trim", "title.set-text", "track.add"] {
        ids.push(id.to_string());
    }
    ids
}

#[test]
fn tool_names_are_unique_and_valid_identifiers() {
    let ids = registry();
    let mut seen: BTreeMap<String, &str> = BTreeMap::new();
    for id in &ids {
        let name = dvs::tools::tool_name(id);
        assert!(
            name.chars().all(|c| c.is_ascii_lowercase() || c.is_ascii_digit() || c == '_'),
            "tool name '{name}' for op '{id}' is not [a-z0-9_]+"
        );
        assert!(!name.is_empty(), "op '{id}' produced an empty tool name");
        if let Some(other) = seen.insert(name.clone(), id) {
            panic!("ops '{other}' and '{id}' both map to tool name '{name}'");
        }
    }
}

#[test]
fn loop_tools_do_not_collide_with_op_tools() {
    for id in registry() {
        let name = dvs::tools::tool_name(&id);
        assert!(
            !LOOP_TOOLS.contains(&name.as_str()),
            "op '{id}' maps onto loop tool '{name}'"
        );
    }
}

#[test]
fn every_advertised_tool_resolves() {
    let ids = operation_ids();
    let infos: Vec<OpInfo> = operations()
        .into_iter()
        .map(|op| OpInfo {
            id: op.id.to_string(),
            about: op.about.to_string(),
            schema: json(op.schema),
        })
        .collect();
    let catalog = full_catalog(infos);
    assert!(catalog.len() > ids.len(), "loop tools are missing");
    for tool in &catalog {
        let name = tool.name.as_str();
        let known = LOOP_TOOLS.contains(&name) || op_for_tool(&ids, name).is_ok();
        assert!(known, "advertised tool '{name}' resolves to nothing");
    }
}

#[test]
fn unknown_tool_names_suggest_real_tools() {
    let ids = registry();
    let Err(error) = op_for_tool(&ids, "clip_spilt") else {
        panic!("a typo must not resolve to a tool");
    };
    assert_eq!(error.kind(), "no-match");
    let dvs::error::Error::NoMatch { candidates, .. } = error else {
        panic!("not a miss");
    };
    assert!(!candidates.is_empty(), "no candidates offered");
    for candidate in &candidates {
        assert!(
            candidate.starts_with("clip_"),
            "candidate '{candidate}' is not from the namespace that was asked for"
        );
        assert!(
            op_for_tool(&ids, candidate).is_ok(),
            "candidate '{candidate}' is not itself callable"
        );
    }
}

#[test]
fn an_unknown_tool_is_a_no_match_with_candidates() {
    let (asked, _) = call("clip_spilt", json("{}")).unwrap();
    assert!(matches!(asked, Call::Op), "not one of the loop tools");
    let error = op_for_tool(&registry(), "clip_spilt").unwrap_err();
    assert_eq!(error.kind(), "no-match");
    let dvs::error::Error::NoMatch { candidates, .. } = error else {
        panic!("not a miss");
    };
    assert!(
        candidates.iter().all(|candidate| candidate.starts_with("clip_")),
        "candidates {:?} are not tools from the namespace that was asked for",
        candidates
    );
}

#[test]
fn ranges_parse_and_reject_inverted_ends() {
    let fps = Fps::new(30, 1).unwrap();
    let span = parse_span("00:10-00:20", fps).unwrap();
    assert_eq!(span.start, Time::from_secs(10));
    assert_eq!(span.end, Time::from_secs(20));
    assert_eq!(parse_span("1800f-3600f", fps).unwrap().duration(), Time::from_secs(60));
    assert!(parse_span("20-10", fps).is_err());
    assert!(parse_span("20", fps).is_err());
}

fn project() -> Project {
    Project {
        id: "prj_batch".to_string(),
        name: "batch".to_string(),
        active_sequence: "seq_main".to_string(),
        sequences: vec![Sequence {
            id: "seq_main".to_string(),
            name: "main".to_string(),
            fps: Fps::new(30, 1).unwrap(),
            size: [320, 240],
            sample_rate: 48_000,
            channels: 2,
            tracks: vec![Track::new("trk_1".to_string(), "V1".to_string(), TrackKind::Video)],
            markers: Vec::new(),
        }],
        assets: Vec::new(),
        titles: Vec::new(),
        styles: Vec::new(),
    }
}

fn place() -> Place {
    Place {
        format: 1,
        root: "/project".to_string(),
        modified: "2026-01-01T00:00:00Z".to_string(),
    }
}

#[test]
fn overview_reports_the_document_without_ffmpeg() {
    let (asked, _) = call("dvs_overview", Json::Null).unwrap();
    assert!(matches!(asked, Call::Overview));
    let value = overview(&project(), &place(), &Vec::new(), None);
    assert_eq!(text(member(member(&value, "project"), "name")), "batch");
    let sequence = item(member(&value, "sequences"), 0);
    assert_eq!(text(member(item(member(sequence, "tracks"), 0), "name")), "V1");
    assert!(matches!(member(sequence, "active"), Json::Bool(true)));
}

#[test]
fn arguments_that_are_not_an_object_are_refused() {
    let error = call("dvs_overview", json("[1]")).unwrap_err();
    assert_eq!(error.message(), "tool arguments must be a JSON object");
}

#[test]
fn a_batch_is_read_whole_or_not_at_all() {
    let batch = read_batch(&json(
        r#"{"ops":[{"op":"track.add","args":{"kind":"video"}},{"op":"marker.add","seq":"main"}]}"#,
    ))
    .unwrap();
    assert_eq!(batch.len(), 2);
    assert_eq!(batch[0].op, "track.add");
    assert_eq!(batch[1].seq.as_deref(), Some("main"));
    let error = read_batch(&json(r#"{"ops":[{"op":"track.add"},{"args":{}}]}"#)).unwrap_err();
    assert_eq!(error.message(), "ops[1] has no 'op' id");
    let error = read_batch(&json("{}")).unwrap_err();
    assert_eq!(error.message(), "'ops' must be an array of {op, args, seq}");
}

#[test]
fn whole_numbers_are_read_as_such() {
    assert_eq!(opt_u32(&json(r#"{"limit":20}"#), "limit").unwrap(), Some(20));
    assert_eq!(opt_u32(&json("{}"), "limit").unwrap(), None);
    for bad in [r#"{"limit":-1}"#, r#"{"limit":1.5}"#, r#"{"limit":4294967296}"#] {
        assert!(opt_u32(&json(bad), "limit").is_err(), "{bad}");
    }
}

#[test]
fn pictures_travel_as_base64() {
    assert_eq!(encode_png(&b"foobar".to_vec()).unwrap(), "Zm9vYmFy");
    assert_eq!(encode_png(&b"fooba".to_vec()).unwrap(), "Zm9vYmE=");
    assert_eq!(encode_png(&b"foob".to_vec()).unwrap(), "Zm9vYg==");
    assert_eq!(encode_png(&Vec::new()).unwrap(), "");
    assert_eq!(encode_png(&vec![0xfb, 0xff, 0xbf]).unwrap(), "+/+/");
}

fn entry(seq: u64, op: &str) -> JournalEntry {
    JournalEntry {
        seq,
        ts: "2026-01-01T00:00:00Z".to_string(),
        actor: "agent".to_string(),
        op: op.to_string(),
        args: json("{}"),
        target: Json::Null,
    }
}

#[test]
fn history_ends_with_what_an_undo_would_reverse() {
    let entries = vec![entry(1, "track.add"), entry(2, "clip.split"), entry(3, "clip.trim")];
    let value = history(entries, 2, Some(3));
    let shown = member(&value, "entries");
    assert_eq!(text(member(item(shown, 0), "op")), "clip.split");
    assert_eq!(text(member(item(shown, 1), "op")), "clip.trim");
    assert_eq!(number(member(item(shown, 1), "seq")), 3.0);
}

#[test]
fn a_transcript_answers_by_phrase_and_by_span() {
    let info = TranscriptInfo {
        asset: "ast_1".to_string(),
        language: "en".to_string(),
        model: "base".to_string(),
        words: 2,
    };
    let words = vec![
        Word {
            text: "hello".to_string(),
            start: Time::zero(),
            end: Time::from_secs(1),
            confidence: 900_000,
        },
        Word {
            text: "world".to_string(),
            start: Time::from_secs(1),
            end: Time::from_secs(2),
            confidence: 800_000,
        },
    ];
    let found = vec![Span::new(Time::zero(), Time::from_secs(2))];
    let value = transcript_query(
        &info,
        Some(("hello world", &found)),
        Some((Span::new(Time::zero(), Time::from_secs(2)), &words)),
        1,
    );
    assert_eq!(number(member(&value, "words")), 2.0);
    assert_eq!(text(member(&value, "text")), "hello world");
    match member(&value, "inSpan") {
        Json::Array(items) => assert_eq!(items.len(), 1, "no more than asked for"),
        _ => panic!("not an array"),
    }
}

#[test]
fn frames_are_counted_from_the_start() {
    let fps = Fps::new(30, 1).unwrap();
    assert_eq!(frame_index(Time::parse("1.99").unwrap(), fps).unwrap(), 59);
    assert!(frame_index(Time::parse("-1").unwrap(), fps).is_err());
    assert_ne!(
        cached_frame_path("/cache", "seq_main", 1),
        cached_frame_path("/cache", "seq_main", 2)
    );
}

fn render() -> RenderSpec {
    RenderSpec {
        range: None,
        scale: Rat::new(1, 1).unwrap(),
        encoder: Encoder::Auto,
        quality: 18,
        preset: None,
        use_proxy: false,
        no_cache: false,
    }
}

#[test]
fn render_arguments_replace_only_what_they_name() {
    let fps = Fps::new(30, 1).unwrap();
    let mut spec = render();
    apply_render_args(&mut spec, &json("{}"), fps).expect("nothing asked");
    assert_eq!(format!("{spec:?}"), format!("{:?}", render()));
    let asked = json(
        r#"{"range":"1-2","scale":0.5,"encoder":"x265","quality":23,"preset":"slow","proxy":true,"no-cache":true}"#,
    );
    apply_render_args(&mut spec, &asked, fps).expect("arguments");
    assert_eq!(spec.range, Some(Span::new(Time::from_secs(1), Time::from_secs(2))));
    assert_eq!(spec.scale, Rat::new(1, 2).unwrap());
    assert!(matches!(spec.encoder, Encoder::X265));
    assert_eq!(spec.quality, 23);
    assert_eq!(spec.preset.as_deref(), Some("slow"));
    assert!(spec.use_proxy);
    assert!(spec.no_cache);
}

#[test]
fn a_long_number_is_rounded_to_eighteen_digits() {
    let fps = Fps::new(30, 1).unwrap();
    let mut spec = render();
    let asked = json(r#"{"scale":0.50000000000000000000000001}"#);
    apply_render_args(&mut spec, &asked, fps).expect("a long scale");
    assert_eq!(spec.scale, Rat::new(1, 2).unwrap());
}

#[test]
fn a_refused_render_argument_changes_nothing() {
    let fps = Fps::new(30, 1).unwrap();
    for bad in [r#"{"range":"2-1","quality":1}"#, r#"{"scale":0,"quality":1}"#, r#"{"quality":1.5}"#]
    {
        let mut spec = render();
        let error = apply_render_args(&mut spec, &json(bad), fps).unwrap_err();
        assert_eq!(error.kind(), "bad-args", "{bad}");
        assert_eq!(format!("{spec:?}"), format!("{:?}", render()), "{bad}");
    }
}

#[test]
fn a_lint_report_counts_by_severity() {
    let finding = |severity: Severity| Finding {
        rule: "gap",
        severity,
        target: "trk_0".to_string(),
        detail: "nothing plays".to_string(),
        value: Some(Rat::new(1, 2).unwrap()),
        required: None,
    };
    let findings =
        vec![finding(Severity::Warning), finding(Severity::Error), finding(Severity::Warning)];
    assert!(are_numbers_ok(&findings));
    let report = lint_json(&findings, "youtube");
    assert_eq!(text(member(&report, "profile")), "youtube");
    let counts = member(&report, "counts");
    assert_eq!(number(member(counts, "error")), 1.0);
    assert_eq!(number(member(counts, "warning")), 2.0);
    assert_eq!(number(member(counts, "info")), 0.0);
    assert_eq!(number(member(counts, "total")), 3.0);
    assert_eq!(text(member(&report, "worst")), "error");
    let none = lint_json(&Vec::new(), "podcast");
    assert!(matches!(member(&none, "worst"), Json::Null));
    let mut broken = findings;
    broken[1].required = Some(Rat { num: 1, den: 0 });
    assert!(!are_numbers_ok(&broken));
}

// ---------------------------------------------------------------------------
// The tools of the loop
// ---------------------------------------------------------------------------

fn thirty() -> Fps {
    Fps::new(30, 1).unwrap()
}

#[test]
fn a_batch_is_read_with_its_switches_and_answered_in_order() {
    let asked = batch_request(&json(
        r#"{"ops":[{"op":"marker.add","args":{"at":"1"}},{"op":"clip.split","seq":"main"}],"dry-run":true}"#,
    ))
    .expect("a batch");
    assert_eq!(asked.steps.len(), 2);
    assert_eq!(asked.steps[1].op, "clip.split");
    assert_eq!(asked.steps[1].seq.as_deref(), Some("main"));
    assert!(asked.dry_run);
    assert!(!asked.digest);
    let answer = batch_answer(vec![json("1"), json("2")], true, None);
    assert!(matches!(member(&answer, "committed"), Json::Bool(false)));
    assert_eq!(number(member(&answer, "ops")), 2.0);
    assert_eq!(number(item(member(&answer, "applied"), 1)), 2.0);
    let told = batch_answer(Vec::new(), false, Some(json("{}")));
    assert!(matches!(member(&told, "committed"), Json::Bool(true)));
    assert!(matches!(member(&told, "digest"), Json::Object(_)));
    let error = batch_request(&json(r#"{"ops":[],"dry-run":"yes"}"#)).unwrap_err();
    assert_eq!(error.kind(), "bad-args");
    assert_eq!(
        batch_request(&json("{}")).unwrap_err().message(),
        "'ops' must be an array of {op, args, seq}"
    );
}

#[test]
fn a_contact_sheet_comes_along_only_when_it_is_named() {
    assert!(sheet_request(&json(r#"{"sheet-columns":3}"#), thirty()).expect("no sheet").is_none());
    let sheet = sheet_request(&json(r#"{"sheet":"s.png"}"#), thirty()).unwrap().expect("a sheet");
    assert_eq!(sheet.path, "s.png");
    assert_eq!(sheet.every, Time::from_secs(5));
    assert_eq!((sheet.columns, sheet.width), (6, 1920));
    let sheet = sheet_request(
        &json(r#"{"sheet":"s.png","sheet-every":"30f","sheet-columns":4,"sheet-width":800}"#),
        thirty(),
    )
    .unwrap()
    .expect("a sheet");
    assert_eq!(sheet.every, Time::from_secs(1));
    assert_eq!((sheet.columns, sheet.width), (4, 800));
    let bad = json(r#"{"sheet":"s.png","sheet-columns":-1}"#);
    assert_eq!(
        sheet_request(&bad, thirty()).unwrap_err().message(),
        "field 'sheet-columns' must be a whole number, got -1"
    );
    assert_eq!(output_request(&json(r#"{"output":"o.mp4"}"#)).unwrap(), "o.mp4");
    assert_eq!(output_request(&json("{}")).unwrap_err().kind(), "bad-args");
}

#[test]
fn a_check_of_the_loop_keeps_the_usual_options() {
    let usual = check_request(&json("{}")).expect("nothing asked");
    let default = dvs::lint::LintOptions::default();
    assert_eq!(format!("{usual:?}"), format!("{default:?}"));
    let asked = check_request(&json(r#"{"profile":"podcast","render":false}"#)).expect("asked");
    assert_eq!(asked.profile.name(), "podcast");
    assert!(!asked.render);
    assert_eq!(check_request(&json(r#"{"profile":"cinema"}"#)).unwrap_err().kind(), "bad-args");
}

#[test]
fn a_frame_is_asked_for_by_time_and_answered_with_its_timecode() {
    // A bare number is one of seconds, as the tool's schema says.
    for at in [r#"{"at":"1.5"}"#, r#"{"at":1.5}"#, r#"{"at":"45f"}"#, r#"{"at":"00:01.5"}"#] {
        let asked = frame_request(&json(at), thirty()).expect("a frame");
        assert_eq!(asked.at, Time::new(3, 2).unwrap(), "{at}");
        assert!(asked.annotate);
        assert_eq!(asked.output, None);
    }
    assert_eq!(
        frame_request(&json("{}"), thirty()).unwrap_err().message(),
        "missing argument 'at': a time is required"
    );
    let answer = frame_answer(45, thirty(), "f.png", true, vec![json("7")]);
    assert_eq!(number(member(&answer, "frame")), 45.0);
    assert_eq!(text(member(&answer, "at")), "3/2");
    assert_eq!(text(member(&answer, "timecode")), "00:00:01:15");
    assert_eq!(text(member(&answer, "output")), "f.png");
    assert_eq!(number(item(member(&answer, "annotations"), 0)), 7.0);
}

#[test]
fn transcripts_and_history_have_their_usual_limits() {
    let asked = transcript_request(
        &json(r#"{"asset":"talk.mp4","phrase":"hello","span":"1-2"}"#),
        thirty(),
    )
    .expect("asked");
    assert_eq!(asked.asset, "talk.mp4");
    assert_eq!(asked.phrase.as_deref(), Some("hello"));
    assert_eq!(asked.span, Some(Span::new(Time::from_secs(1), Time::from_secs(2))));
    assert_eq!(asked.limit, 200);
    assert_eq!(
        transcript_request(&json("{}"), thirty()).unwrap_err().message(),
        "missing argument 'asset': text is required"
    );
    assert_eq!(history_request(&json("{}")).unwrap(), 20);
    assert_eq!(history_request(&json(r#"{"limit":3}"#)).unwrap(), 3);
    assert_eq!(history_request(&json(r#"{"limit":0.5}"#)).unwrap_err().kind(), "bad-args");
}
