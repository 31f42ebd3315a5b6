//! The operations that look at a sequence: what they are asked for, and what they answer.

use crate::args::{
    names, number_argument, opt_bool, opt_number, opt_str, opt_time, refusal, reject_unknown,
    switch_argument, text_argument, time_argument,
};
use crate::digest::DigestOptions;
use crate::error::{Error, ErrorView};
use crate::finding::{
    count_findings, counts_of, Finding, FindingView, LoudnessProfile, RENDER_RULES, RULES,
};
use crate::float_text::Float;
use crate::json::{
    array, boolean, field, number, object, push_field, push_text_field, text, Json, JsonField,
    JsonView,
};
use crate::lint::LintOptions;
use crate::number::number_text;
use crate::rational::Rat;
use crate::report::{
    count_json, counted, finding_items, findings_json, measured, measured_json, numbers_ok,
};
use crate::scene_ops::{
    number_text_of, profile, profile_argument, sampling, sampling_asked, scene_threshold,
    threshold_argument, Sampling,
};
use crate::text::{dec_int, push_int};
use crate::time::{Fps, Span, Time};
use crate::timeline::{Warning, WarningView};
use crate::views::{push_view, views};
use vstd::prelude::*;

verus! {

// ---------------------------------------------------------------------------
// What is asked for
// ---------------------------------------------------------------------------

/// A yes or a no, or what goes without saying.
pub open spec fn switch_or(args: JsonView, name: Seq<char>, otherwise: bool) -> Result<
    bool,
    ErrorView,
> {
    match switch_argument(args, name) {
        Err(error) => Err(error),
        Ok(Some(value)) => Ok(value),
        Ok(None) => Ok(otherwise),
    }
}

/// Reads a yes or a no, or what goes without saying.
pub fn read_switch(args: &Json, name: &str, otherwise: bool) -> (r: Result<bool, Error>)
    ensures
        (match r {
            Ok(value) => switch_or(args@, name@, otherwise) == Ok::<bool, ErrorView>(value),
            Err(error) => switch_or(args@, name@, otherwise) == Err::<bool, ErrorView>(error@),
        }),
{
    match opt_bool(args, name) {
        Err(error) => Err(error),
        Ok(Some(value)) => Ok(value),
        Ok(None) => Ok(otherwise),
    }
}

/// The options of a digest, and the scale at which frames are looked at.
pub open spec fn digest_asked(args: JsonView, fps: Fps) -> Result<(DigestOptions, Rat), ErrorView> {
    match refusal(args, seq!["sample-every"@, "scale"@, "proxy"@, "audio"@]) {
        Some(error) => Err(error),
        None => match sampling_asked(args, fps) {
            Err(error) => Err(error),
            Ok(asked) => match switch_or(args, "audio"@, true) {
                Err(error) => Err(error),
                Ok(with_audio) => Ok(
                    (
                        DigestOptions {
                            sample_every: asked.every,
                            use_proxy: asked.proxy,
                            with_audio,
                        },
                        asked.scale,
                    ),
                ),
            },
        },
    }
}

/// Reads what a digest is asked for.
pub fn digest_request(args: &Json, fps: Fps) -> (r: Result<(DigestOptions, Rat), Error>)
    requires
        fps.wf(),
    ensures
        (match r {
            Ok(made) => digest_asked(args@, fps) == Ok::<(DigestOptions, Rat), ErrorView>(made),
            Err(error) => digest_asked(args@, fps) == Err::<(DigestOptions, Rat), ErrorView>(
                error@,
            ),
        }),
{
    let allowed: Vec<&'static str> = vec!["sample-every", "scale", "proxy", "audio"];
    assert(names(allowed@) =~= seq!["sample-every"@, "scale"@, "proxy"@, "audio"@]);
    match reject_unknown(args, allowed) {
        Err(error) => return Err(error),
        Ok(()) => {},
    }
    let asked = match sampling(args, fps) {
        Err(error) => return Err(error),
        Ok(asked) => asked,
    };
    match read_switch(args, "audio", true) {
        Err(error) => Err(error),
        Ok(with_audio) => Ok(
            (
                DigestOptions { sample_every: asked.every, use_proxy: asked.proxy, with_audio },
                asked.scale,
            ),
        ),
    }
}

/// The options of a check, and the scale at which frames are looked at.
pub open spec fn lint_asked(args: JsonView, fps: Fps) -> Result<(LintOptions, Rat), ErrorView> {
    match refusal(args, seq!["sample-every"@, "scale"@, "proxy"@, "profile"@, "render"@]) {
        Some(error) => Err(error),
        None => match sampling_asked(args, fps) {
            Err(error) => Err(error),
            Ok(asked) => match profile_argument(args) {
                Err(error) => Err(error),
                Ok(profile) => match switch_or(args, "render"@, true) {
                    Err(error) => Err(error),
                    Ok(render) => Ok(
                        (
                            LintOptions {
                                profile,
                                render,
                                sample_every: asked.every,
                                use_proxy: asked.proxy,
                            },
                            asked.scale,
                        ),
                    ),
                },
            },
        },
    }
}

/// Reads what a check is asked for.
pub fn lint_request(args: &Json, fps: Fps) -> (r: Result<(LintOptions, Rat), Error>)
    requires
        fps.wf(),
    ensures
        (match r {
            Ok(made) => lint_asked(args@, fps) == Ok::<(LintOptions, Rat), ErrorView>(made),
            Err(error) => lint_asked(args@, fps) == Err::<(LintOptions, Rat), ErrorView>(error@),
        }),
{
    let allowed: Vec<&'static str> = vec!["sample-every", "scale", "proxy", "profile", "render"];
    assert(names(allowed@) =~= seq![
        "sample-every"@,
        "scale"@,
        "proxy"@,
        "profile"@,
        "render"@,
    ]);
    match reject_unknown(args, allowed) {
        Err(error) => return Err(error),
        Ok(()) => {},
    }
    let asked = match sampling(args, fps) {
        Err(error) => return Err(error),
        Ok(asked) => asked,
    };
    let profile = match profile(args) {
        Err(error) => return Err(error),
        Ok(profile) => profile,
    };
    match read_switch(args, "render", true) {
        Err(error) => Err(error),
        Ok(render) => Ok(
            (
                LintOptions {
                    profile,
                    render,
                    sample_every: asked.every,
                    use_proxy: asked.proxy,
                },
                asked.scale,
            ),
        ),
    }
}

/// How frames are sampled for shot changes, and what makes one.
pub open spec fn shots_asked(args: JsonView, fps: Fps) -> Result<(Sampling, Rat), ErrorView> {
    match sampling_asked(args, fps) {
        Err(error) => Err(error),
        Ok(asked) => match threshold_argument(args) {
            Err(error) => Err(error),
            Ok(threshold) => Ok((asked, threshold)),
        },
    }
}

fn read_shots(args: &Json, fps: Fps) -> (r: Result<(Sampling, Rat), Error>)
    requires
        fps.wf(),
    ensures
        (match r {
            Ok(made) => shots_asked(args@, fps) == Ok::<(Sampling, Rat), ErrorView>(made),
            Err(error) => shots_asked(args@, fps) == Err::<(Sampling, Rat), ErrorView>(error@),
        }),
{
    let asked = match sampling(args, fps) {
        Err(error) => return Err(error),
        Ok(asked) => asked,
    };
    match scene_threshold(args) {
        Err(error) => Err(error),
        Ok(threshold) => Ok((asked, threshold)),
    }
}

pub open spec fn scenes_asked(args: JsonView, fps: Fps) -> Result<(Sampling, Rat), ErrorView> {
    match refusal(args, seq!["sample-every"@, "scale"@, "proxy"@, "threshold"@]) {
        Some(error) => Err(error),
        None => shots_asked(args, fps),
    }
}

/// Reads what a search for shot changes is asked for.
pub fn scenes_request(args: &Json, fps: Fps) -> (r: Result<(Sampling, Rat), Error>)
    requires
        fps.wf(),
    ensures
        (match r {
            Ok(made) => scenes_asked(args@, fps) == Ok::<(Sampling, Rat), ErrorView>(made),
            Err(error) => scenes_asked(args@, fps) == Err::<(Sampling, Rat), ErrorView>(error@),
        }),
{
    let allowed: Vec<&'static str> = vec!["sample-every", "scale", "proxy", "threshold"];
    assert(names(allowed@) =~= seq!["sample-every"@, "scale"@, "proxy"@, "threshold"@]);
    match reject_unknown(args, allowed) {
        Err(error) => Err(error),
        Ok(()) => read_shots(args, fps),
    }
}

/// What markers on shot changes are asked for.
#[derive(Clone, Debug)]
pub struct MarkersRequest {
    pub sampling: Sampling,
    pub threshold: Rat,
    /// What a marker's name starts with.
    pub prefix: String,
    /// Whether markers with that prefix go first.
    pub replace: bool,
}

pub struct MarkersAsked {
    pub sampling: Sampling,
    pub threshold: Rat,
    pub prefix: Seq<char>,
    pub replace: bool,
}

impl View for MarkersRequest {
    type V = MarkersAsked;

    open spec fn view(&self) -> MarkersAsked {
        MarkersAsked {
            sampling: self.sampling,
            threshold: self.threshold,
            prefix: self.prefix@,
            replace: self.replace,
        }
    }
}

pub open spec fn markers_asked(args: JsonView, fps: Fps) -> Result<MarkersAsked, ErrorView> {
    match refusal(
        args,
        seq!["sample-every"@, "scale"@, "proxy"@, "threshold"@, "prefix"@, "replace"@],
    ) {
        Some(error) => Err(error),
        None => match shots_asked(args, fps) {
            Err(error) => Err(error),
            Ok((sampling, threshold)) => match switch_or(args, "replace"@, true) {
                Err(error) => Err(error),
                Ok(replace) => Ok(
                    MarkersAsked {
                        sampling,
                        threshold,
                        prefix: match text_argument(args, "prefix"@) {
                            Some(prefix) => prefix,
                            None => "scene"@,
                        },
                        replace,
                    },
                ),
            },
        },
    }
}

/// Reads what markers on shot changes are asked for.
pub fn markers_request(args: &Json, fps: Fps) -> (r: Result<MarkersRequest, Error>)
    requires
        fps.wf(),
    ensures
        (match r {
            Ok(made) => markers_asked(args@, fps) == Ok::<MarkersAsked, ErrorView>(made@),
            Err(error) => markers_asked(args@, fps) == Err::<MarkersAsked, ErrorView>(error@),
        }),
{
    let allowed: Vec<&'static str> = vec![
        "sample-every",
        "scale",
        "proxy",
        "threshold",
        "prefix",
        "replace",
    ];
    assert(names(allowed@) =~= seq![
        "sample-every"@,
        "scale"@,
        "proxy"@,
        "threshold"@,
        "prefix"@,
        "replace"@,
    ]);
    match reject_unknown(args, allowed) {
        Err(error) => return Err(error),
        Ok(()) => {},
    }
    let (sampling, threshold) = match read_shots(args, fps) {
        Err(error) => return Err(error),
        Ok(asked) => asked,
    };
    let prefix = match opt_str(args, "prefix") {
        Some(prefix) => prefix.as_str().to_owned(),
        None => "scene".to_owned(),
    };
    match read_switch(args, "replace", true) {
        Err(error) => Err(error),
        Ok(replace) => Ok(MarkersRequest { sampling, threshold, prefix, replace }),
    }
}

/// What splitting at shot changes is asked for.
#[derive(Clone, Debug)]
pub struct AutoCutRequest {
    pub sampling: Sampling,
    pub threshold: Rat,
    /// The tracks to split, unless it is every one that can be.
    pub track: Option<String>,
}

pub open spec fn auto_cut_asked(args: JsonView, fps: Fps) -> Result<
    (Sampling, Rat, Option<Seq<char>>),
    ErrorView,
> {
    match refusal(args, seq!["sample-every"@, "scale"@, "proxy"@, "threshold"@, "track"@]) {
        Some(error) => Err(error),
        None => match shots_asked(args, fps) {
            Err(error) => Err(error),
            Ok((sampling, threshold)) => Ok((sampling, threshold, text_argument(args, "track"@))),
        },
    }
}

/// Reads what splitting at shot changes is asked for.
pub fn auto_cut_request(args: &Json, fps: Fps) -> (r: Result<AutoCutRequest, Error>)
    requires
        fps.wf(),
    ensures
        (match r {
            Ok(made) => auto_cut_asked(args@, fps) == Ok::<
                (Sampling, Rat, Option<Seq<char>>),
                ErrorView,
            >(
                (
                    made.sampling,
                    made.threshold,
                    match made.track {
                        Some(track) => Some(track@),
                        None => None,
                    },
                ),
            ),
            Err(error) => auto_cut_asked(args@, fps) == Err::<
                (Sampling, Rat, Option<Seq<char>>),
                ErrorView,
            >(error@),
        }),
{
    let allowed: Vec<&'static str> = vec!["sample-every", "scale", "proxy", "threshold", "track"];
    assert(names(allowed@) =~= seq![
        "sample-every"@,
        "scale"@,
        "proxy"@,
        "threshold"@,
        "track"@,
    ]);
    match reject_unknown(args, allowed) {
        Err(error) => return Err(error),
        Ok(()) => {},
    }
    let (sampling, threshold) = match read_shots(args, fps) {
        Err(error) => return Err(error),
        Ok(asked) => asked,
    };
    let track = match opt_str(args, "track") {
        Some(track) => Some(track.as_str().to_owned()),
        None => None,
    };
    Ok(AutoCutRequest { sampling, threshold, track })
}

pub open spec fn bad_level(text: Seq<char>) -> ErrorView {
    ErrorView::BadArgs(
        "threshold-db is a level below full scale and must not be positive, got "@ + text,
    )
}

/// The level below which there is silence: full scale at most.
pub open spec fn level_argument(args: JsonView) -> Result<Rat, ErrorView> {
    match number_argument(args, "threshold-db"@) {
        Err(error) => Err(error),
        Ok(None) => Ok(Rat { num: (-45) as i64, den: 1 }),
        Ok(Some(Float::Finite(level))) => if level.num <= 0 {
            Ok(level)
        } else {
            Err(bad_level(number_text_of(args, "threshold-db"@)))
        },
        Ok(Some(_)) => Err(bad_level(number_text_of(args, "threshold-db"@))),
    }
}

/// The level of silence, and how long a silence has to be.
pub open spec fn silence_asked(args: JsonView, fps: Fps) -> Result<(Rat, Time), ErrorView> {
    match refusal(args, seq!["threshold-db"@, "min-duration"@]) {
        Some(error) => Err(error),
        None => match level_argument(args) {
            Err(error) => Err(error),
            Ok(level) => match time_argument(args, "min-duration"@, fps) {
                Err(error) => Err(error),
                Ok(Some(least)) => Ok((level, least)),
                Ok(None) => Ok((level, Time { secs: Rat { num: 1, den: 2 } })),
            },
        },
    }
}

fn read_level(args: &Json) -> (r: Result<Rat, Error>)
    ensures
        (match r {
            Ok(level) => level_argument(args@) == Ok::<Rat, ErrorView>(level),
            Err(error) => level_argument(args@) == Err::<Rat, ErrorView>(error@),
        }),
{
    match opt_number(args, "threshold-db") {
        Err(error) => Err(error),
        Ok(None) => Ok(Rat { num: -45, den: 1 }),
        Ok(Some(value)) => {
            if let Float::Finite(level) = value {
                if level.num <= 0 {
                    return Ok(level);
                }
            }
            let mut detail =
                "threshold-db is a level below full scale and must not be positive, got ".to_owned();
            match crate::args::get(args, "threshold-db") {
                Some(Json::Number(written)) => {
                    detail.append(written.as_str());
                },
                _ => {
                    detail.append("");
                },
            }
            Err(Error::BadArgs(detail))
        },
    }
}

/// Reads what a search for silence is asked for.
pub fn silence_request(args: &Json, fps: Fps) -> (r: Result<(Rat, Time), Error>)
    requires
        fps.wf(),
    ensures
        (match r {
            Ok(made) => silence_asked(args@, fps) == Ok::<(Rat, Time), ErrorView>(made),
            Err(error) => silence_asked(args@, fps) == Err::<(Rat, Time), ErrorView>(error@),
        }),
{
    let allowed: Vec<&'static str> = vec!["threshold-db", "min-duration"];
    assert(names(allowed@) =~= seq!["threshold-db"@, "min-duration"@]);
    match reject_unknown(args, allowed) {
        Err(error) => return Err(error),
        Ok(()) => {},
    }
    let level = match read_level(args) {
        Err(error) => return Err(error),
        Ok(level) => level,
    };
    match opt_time(args, "min-duration", fps) {
        Err(error) => Err(error),
        Ok(Some(least)) => Ok((level, least)),
        Ok(None) => Ok((level, Time { secs: Rat { num: 1, den: 2 } })),
    }
}

pub open spec fn loudness_asked(args: JsonView) -> Result<LoudnessProfile, ErrorView> {
    match refusal(args, seq!["profile"@]) {
        Some(error) => Err(error),
        None => profile_argument(args),
    }
}

/// Reads which loudness a mix is compared with.
pub fn loudness_request(args: &Json) -> (r: Result<LoudnessProfile, Error>)
    ensures
        (match r {
            Ok(profile) => loudness_asked(args@) == Ok::<LoudnessProfile, ErrorView>(profile),
            Err(error) => loudness_asked(args@) == Err::<LoudnessProfile, ErrorView>(error@),
        }),
{
    let allowed: Vec<&'static str> = vec!["profile"];
    assert(names(allowed@) =~= seq!["profile"@]);
    match reject_unknown(args, allowed) {
        Err(error) => Err(error),
        Ok(()) => profile(args),
    }
}

// ---------------------------------------------------------------------------
// What is answered
// ---------------------------------------------------------------------------

/// Findings are data, and each is raised as a warning too: none of them is an error.
pub open spec fn raised(findings: Seq<FindingView>) -> Seq<WarningView> {
    findings.map_values(
        |f: FindingView| WarningView { code: f.rule, target: f.target, detail: f.detail },
    )
}

/// Raises each finding as a warning.
pub fn finding_warnings(findings: &Vec<Finding>) -> (r: Vec<Warning>)
    ensures
        views(r@) == raised(views(findings@)),
{
    let mut out: Vec<Warning> = Vec::new();
    let mut i: usize = 0;
    while i < findings.len()
        invariant
            i <= findings@.len(),
            views(out@) =~= raised(views(findings@)).take(i as int),
        decreases findings@.len() - i,
    {
        push_view(
            &mut out,
            Warning {
                code: findings[i].rule,
                target: findings[i].target.as_str().to_owned(),
                detail: findings[i].detail.as_str().to_owned(),
            },
        );
        i = i + 1;
    }
    assert(views(out@) =~= raised(views(findings@)));
    out
}

/// Names as a list of texts.
pub open spec fn names_json(list: Seq<&'static str>) -> JsonView {
    JsonView::Array(list.map_values(|name: &'static str| JsonView::Text(name@)))
}

/// What a check answers.
pub open spec fn lint_answer(findings: Seq<FindingView>, options: LintOptions) -> JsonView {
    let (errors, warnings, infos) = counts_of(findings);
    JsonView::Object(
        seq![
            field("profile"@, JsonView::Text(options.profile.spec_name())),
            field("rendered"@, JsonView::Bool(options.render)),
            field("findings"@, JsonView::Array(findings_json(findings))),
            field(
                "counts"@,
                JsonView::Object(
                    seq![
                        field("error"@, count_json(errors as nat)),
                        field("warning"@, count_json(warnings as nat)),
                        field("info"@, count_json(infos as nat)),
                    ],
                ),
            ),
            field("rules"@, names_json(RULES@)),
            field(
                "skipped"@,
                names_json(
                    if options.render {
                        seq![]
                    } else {
                        RENDER_RULES@
                    },
                ),
            ),
        ],
    )
}

fn rule_names() -> (r: Json)
    ensures
        r@ == names_json(RULES@),
{
    let mut items: Vec<Json> = Vec::new();
    let mut i: usize = 0;
    while i < 29
        invariant
            i <= 29,
            views(items@) =~= names_json(RULES@)->Array_0.take(i as int),
        decreases 29 - i,
    {
        push_view(&mut items, text(RULES[i]));
        i = i + 1;
    }
    assert(views(items@) =~= names_json(RULES@)->Array_0);
    array(items)
}

fn skipped_names(render: bool) -> (r: Json)
    ensures
        r@ == names_json(
            if render {
                seq![]
            } else {
                RENDER_RULES@
            },
        ),
{
    let mut items: Vec<Json> = Vec::new();
    if render {
        assert(views(items@) =~= names_json(seq![])->Array_0);
        return array(items);
    }
    let mut i: usize = 0;
    while i < 9
        invariant
            i <= 9,
            views(items@) =~= names_json(RENDER_RULES@)->Array_0.take(i as int),
        decreases 9 - i,
    {
        push_view(&mut items, text(RENDER_RULES[i]));
        i = i + 1;
    }
    assert(views(items@) =~= names_json(RENDER_RULES@)->Array_0);
    array(items)
}

/// Answers a check: its findings, how many there are of each kind, and which rules did not run.
pub fn lint_data(findings: &Vec<Finding>, options: &LintOptions) -> (r: Json)
    requires
        numbers_ok(findings@),
    ensures
        r@ == lint_answer(views(findings@), *options),
{
    let ghost want = lint_answer(views(findings@), *options);
    let (errors, warnings, infos) = count_findings(findings);
    let mut counts: Vec<JsonField> = Vec::new();
    push_field(&mut counts, "error", counted(errors as u128));
    push_field(&mut counts, "warning", counted(warnings as u128));
    push_field(&mut counts, "info", counted(infos as u128));
    let mut fields: Vec<JsonField> = Vec::new();
    push_text_field(&mut fields, "profile", options.profile.name());
    push_field(&mut fields, "rendered", boolean(options.render));
    push_field(&mut fields, "findings", array(finding_items(findings)));
    assert(views(counts@) =~= want->Object_0[3].value->Object_0);
    push_field(&mut fields, "counts", object(counts));
    push_field(&mut fields, "rules", rule_names());
    push_field(&mut fields, "skipped", skipped_names(options.render));
    assert(views(fields@) =~= want->Object_0);
    object(fields)
}

/// A shot change.
pub open spec fn cut_json(at: Time, fps: Fps) -> JsonView {
    JsonView::Object(
        seq![
            field("at"@, JsonView::Text(at.text())),
            field("timecode"@, JsonView::Text(at.timecode_text(fps))),
            field("frame"@, JsonView::Number(dec_int(at.round_frame(fps)))),
        ],
    )
}

pub open spec fn cuts_json(cuts: Seq<Time>, fps: Fps) -> Seq<JsonView> {
    cuts.map_values(|at: Time| cut_json(at, fps))
}

/// What a search for shot changes answers.
pub open spec fn scenes_answer(cuts: Seq<Time>, threshold: Rat, every: Time, fps: Fps) -> JsonView {
    JsonView::Object(
        seq![
            field("threshold"@, measured_json(threshold)),
            field("sampleEvery"@, JsonView::Text(every.text())),
            field("count"@, count_json(cuts.len())),
            field("cuts"@, JsonView::Array(cuts_json(cuts, fps))),
        ],
    )
}

fn cut_report(at: Time, fps: Fps) -> (r: Json)
    requires
        at.wf(),
        fps.wf(),
    ensures
        r@ == cut_json(at, fps),
{
    let mut fields: Vec<JsonField> = Vec::new();
    push_text_field(&mut fields, "at", at.to_text().as_str());
    push_text_field(&mut fields, "timecode", at.timecode(fps).as_str());
    let mut frame = String::new();
    push_int(&mut frame, at.wide_frame_round(fps));
    assert(frame@ =~= dec_int(at.round_frame(fps)));
    push_field(&mut fields, "frame", number(frame.as_str()));
    assert(views(fields@) =~= cut_json(at, fps)->Object_0);
    object(fields)
}

/// Answers a search for shot changes.
pub fn scenes_data(cuts: &Vec<Time>, threshold: Rat, every: Time, fps: Fps) -> (r: Json)
    requires
        threshold.wf(),
        every.wf(),
        fps.wf(),
        forall|i: int| 0 <= i < cuts@.len() ==> (#[trigger] cuts@[i]).wf(),
    ensures
        r@ == scenes_answer(cuts@, threshold, every, fps),
{
    let mut items: Vec<Json> = Vec::new();
    let mut i: usize = 0;
    while i < cuts.len()
        invariant
            i <= cuts@.len(),
            fps.wf(),
            forall|k: int| 0 <= k < cuts@.len() ==> (#[trigger] cuts@[k]).wf(),
            views(items@) =~= cuts_json(cuts@, fps).take(i as int),
        decreases cuts@.len() - i,
    {
        push_view(&mut items, cut_report(cuts[i], fps));
        i = i + 1;
    }
    assert(views(items@) =~= cuts_json(cuts@, fps));
    let mut fields: Vec<JsonField> = Vec::new();
    push_field(&mut fields, "threshold", measured(threshold));
    push_text_field(&mut fields, "sampleEvery", every.to_text().as_str());
    push_field(&mut fields, "count", counted(cuts.len() as u128));
    push_field(&mut fields, "cuts", array(items));
    assert(views(fields@) =~= scenes_answer(cuts@, threshold, every, fps)->Object_0);
    object(fields)
}

/// A stretch, with its duration in seconds.
pub open spec fn stretch_json(span: Span) -> JsonView {
    JsonView::Object(
        seq![
            field("start"@, JsonView::Text(span.start.text())),
            field("end"@, JsonView::Text(span.end.text())),
            field("duration"@, measured_json(span.length().secs)),
        ],
    )
}

pub open spec fn stretches_json(spans: Seq<Span>) -> Seq<JsonView> {
    spans.map_values(|span: Span| stretch_json(span))
}

/// Whether the duration of each stretch can be told.
pub open spec fn stretches_ok(spans: Seq<Span>) -> bool {
    forall|i: int| 0 <= i < spans.len() ==> (#[trigger] spans[i]).wf() && spans[i].measurable()
}

pub fn span_json(span: Span) -> (r: Json)
    requires
        span.wf(),
        span.measurable(),
    ensures
        r@ == stretch_json(span),
{
    let mut fields: Vec<JsonField> = Vec::new();
    push_text_field(&mut fields, "start", span.start.to_text().as_str());
    push_text_field(&mut fields, "end", span.end.to_text().as_str());
    push_field(&mut fields, "duration", measured(span.duration().secs));
    assert(views(fields@) =~= stretch_json(span)->Object_0);
    object(fields)
}

/// What a search for silence answers.
pub open spec fn silence_answer(spans: Seq<Span>, level: Rat, least: Time) -> JsonView {
    JsonView::Object(
        seq![
            field("thresholdDb"@, measured_json(level)),
            field("minDuration"@, JsonView::Text(least.text())),
            field("count"@, count_json(spans.len())),
            field("silences"@, JsonView::Array(stretches_json(spans))),
        ],
    )
}

/// Answers a search for silence.
pub fn silence_data(spans: &Vec<Span>, level: Rat, least: Time) -> (r: Json)
    requires
        level.wf(),
        least.wf(),
        stretches_ok(spans@),
    ensures
        r@ == silence_answer(spans@, level, least),
{
    let mut items: Vec<Json> = Vec::new();
    let mut i: usize = 0;
    while i < spans.len()
        invariant
            i <= spans@.len(),
            stretches_ok(spans@),
            views(items@) =~= stretches_json(spans@).take(i as int),
        decreases spans@.len() - i,
    {
        assert(spans@[i as int].wf());
        push_view(&mut items, span_json(spans[i]));
        i = i + 1;
    }
    assert(views(items@) =~= stretches_json(spans@));
    let mut fields: Vec<JsonField> = Vec::new();
    push_field(&mut fields, "thresholdDb", measured(level));
    push_text_field(&mut fields, "minDuration", least.to_text().as_str());
    push_field(&mut fields, "count", counted(spans.len() as u128));
    push_field(&mut fields, "silences", array(items));
    assert(views(fields@) =~= silence_answer(spans@, level, least)->Object_0);
    object(fields)
}

/// What was measured of a mix, in millionths.
#[derive(Clone, Copy, Debug)]
pub struct Loudness {
    /// The gain that would bring the mix to its target.
    pub gain: i64,
    pub rate: u32,
    pub channels: u16,
    pub integrated: i64,
    pub true_peak: i64,
    pub range: i64,
    pub short_term_min: i64,
    pub clipped: u64,
}

pub open spec fn millionths_json(value: i64) -> JsonView {
    JsonView::Number(number_text(value as int))
}

/// What a measurement of the mix answers.
pub open spec fn loudness_answer(mix: Loudness, target: LoudnessProfile) -> JsonView {
    JsonView::Object(
        seq![
            field("profile"@, JsonView::Text(target.spec_name())),
            field("targetLufs"@, JsonView::Number(dec_int(target.target()))),
            field("truePeakCeilingDb"@, JsonView::Number(dec_int(-1))),
            field("gainDb"@, millionths_json(mix.gain)),
            field("rate"@, count_json(mix.rate as nat)),
            field("channels"@, count_json(mix.channels as nat)),
            field("integratedLufs"@, millionths_json(mix.integrated)),
            field("truePeakDb"@, millionths_json(mix.true_peak)),
            field("lra"@, millionths_json(mix.range)),
            field("shortTermMinLufs"@, millionths_json(mix.short_term_min)),
            field("clippedSamples"@, count_json(mix.clipped as nat)),
        ],
    )
}

fn millionths(value: i64) -> (r: Json)
    ensures
        r@ == millionths_json(value),
{
    number(crate::number::number(value as i128).as_str())
}

fn whole(value: i64) -> (r: Json)
    ensures
        r@ == JsonView::Number(dec_int(value as int)),
{
    let mut out = String::new();
    push_int(&mut out, value as i128);
    assert(out@ =~= dec_int(value as int));
    number(out.as_str())
}

/// Answers a measurement of the mix, beside the loudness it is compared with.
pub fn loudness_data(mix: &Loudness, target: LoudnessProfile) -> (r: Json)
    ensures
        r@ == loudness_answer(*mix, target),
{
    let mut fields: Vec<JsonField> = Vec::new();
    push_text_field(&mut fields, "profile", target.name());
    push_field(&mut fields, "targetLufs", whole(target.target_lufs()));
    push_field(&mut fields, "truePeakCeilingDb", whole(target.true_peak_ceiling_db()));
    push_field(&mut fields, "gainDb", millionths(mix.gain));
    push_field(&mut fields, "rate", counted(mix.rate as u128));
    push_field(&mut fields, "channels", counted(mix.channels as u128));
    push_field(&mut fields, "integratedLufs", millionths(mix.integrated));
    push_field(&mut fields, "truePeakDb", millionths(mix.true_peak));
    push_field(&mut fields, "lra", millionths(mix.range));
    push_field(&mut fields, "shortTermMinLufs", millionths(mix.short_term_min));
    push_field(&mut fields, "clippedSamples", counted(mix.clipped as u128));
    assert(views(fields@) =~= loudness_answer(*mix, target)->Object_0);
    object(fields)
}

pub open spec fn nothing_to_measure(name: Seq<char>) -> ErrorView {
    ErrorView::Op("sequence '"@ + name + "' has nothing to measure"@)
}

/// Refuses a mix without samples.
pub fn check_mix(name: &str, samples: usize) -> (r: Result<(), Error>)
    ensures
        (match r {
            Ok(()) => samples > 0,
            Err(error) => samples == 0 && error@ == nothing_to_measure(name@),
        }),
{
    if samples > 0 {
        return Ok(());
    }
    let mut detail = "sequence '".to_owned();
    detail.append(name);
    detail.append("' has nothing to measure");
    Err(Error::Op(detail))
}

} // verus!
