//! The tools of the editing loop: what they are asked for, and what they answer.

use crate::args::{
    number_argument, opt_number, opt_str, opt_time, required_time, str_field, text_argument,
    time_argument, time_field,
};
use crate::error::{Error, ErrorView};
use crate::float_text::Float;
use crate::inspect_ops::{read_switch, switch_or};
use crate::json::{
    array, boolean, field, number, object, push_field, push_text_field, Json, JsonField, JsonView,
};
use crate::lint::LintOptions;
use crate::project::opt_text;
use crate::rational::Rat;
use crate::report::{count_json, counted};
use crate::scene_ops::{profile, profile_argument};
use crate::server::{batch_of, opt_u32, read_batch, whole_argument, BatchStep, StepView};
use crate::text::{dec_int, push_int};
use crate::time::{Fps, Span, Time};
use crate::tools::{parse_span, span_of};
use crate::views::views;
use vstd::prelude::*;

verus! {

fn copied_text(args: &Json, name: &str) -> (r: Option<String>)
    ensures
        opt_text(r) == text_argument(args@, name@),
{
    match opt_str(args, name) {
        Some(text) => Some(text.as_str().to_owned()),
        None => None,
    }
}

/// A whole number, or the usual one.
pub open spec fn whole_else(args: JsonView, name: Seq<char>, otherwise: u32) -> Result<
    u32,
    ErrorView,
> {
    match whole_argument(args, name) {
        Err(error) => Err(error),
        Ok(given) => Ok(given.unwrap_or(otherwise)),
    }
}

fn read_whole(args: &Json, name: &str, otherwise: u32) -> (r: Result<u32, Error>)
    ensures
        (match r {
            Ok(value) => whole_else(args@, name@, otherwise) == Ok::<u32, ErrorView>(value),
            Err(error) => whole_else(args@, name@, otherwise) == Err::<u32, ErrorView>(error@),
        }),
{
    match opt_u32(args, name) {
        Err(error) => Err(error),
        Ok(Some(value)) => Ok(value),
        Ok(None) => Ok(otherwise),
    }
}

// ---------------------------------------------------------------------------
// Batches
// ---------------------------------------------------------------------------

/// What a batch is asked for.
#[derive(Debug)]
pub struct BatchRequest {
    pub steps: Vec<BatchStep>,
    /// Only tell what would happen.
    pub dry_run: bool,
    /// Describe the timeline that comes out.
    pub digest: bool,
}

pub struct BatchAsked {
    pub steps: Seq<StepView>,
    pub dry_run: bool,
    pub digest: bool,
}

impl View for BatchRequest {
    type V = BatchAsked;

    open spec fn view(&self) -> BatchAsked {
        BatchAsked { steps: views(self.steps@), dry_run: self.dry_run, digest: self.digest }
    }
}

pub open spec fn batch_asked(args: JsonView) -> Result<BatchAsked, ErrorView> {
    match batch_of(args) {
        Err(error) => Err(error),
        Ok(steps) => match switch_or(args, "dry-run"@, false) {
            Err(error) => Err(error),
            Ok(dry_run) => match switch_or(args, "digest"@, false) {
                Err(error) => Err(error),
                Ok(digest) => Ok(BatchAsked { steps, dry_run, digest }),
            },
        },
    }
}

/// Reads a batch of operations.
pub fn batch_request(args: &Json) -> (r: Result<BatchRequest, Error>)
    ensures
        (match r {
            Ok(asked) => batch_asked(args@) == Ok::<BatchAsked, ErrorView>(asked@),
            Err(error) => batch_asked(args@) == Err::<BatchAsked, ErrorView>(error@),
        }),
{
    let steps = match read_batch(args) {
        Err(error) => return Err(error),
        Ok(steps) => steps,
    };
    let dry_run = match read_switch(args, "dry-run", false) {
        Err(error) => return Err(error),
        Ok(dry_run) => dry_run,
    };
    match read_switch(args, "digest", false) {
        Err(error) => Err(error),
        Ok(digest) => Ok(BatchRequest { steps, dry_run, digest }),
    }
}

/// What is said of a batch that went through.
pub open spec fn batch_report(
    applied: Seq<JsonView>,
    dry_run: bool,
    digest: Option<JsonView>,
) -> JsonView {
    let told = seq![
        field("applied"@, JsonView::Array(applied)),
        field("committed"@, JsonView::Bool(!dry_run)),
        field("ops"@, count_json(applied.len())),
    ];
    JsonView::Object(
        match digest {
            Some(digest) => told.push(field("digest"@, digest)),
            None => told,
        },
    )
}

/// Answers a batch with the effects of its operations, in order.
pub fn batch_answer(applied: Vec<Json>, dry_run: bool, digest: Option<Json>) -> (r: Json)
    ensures
        r@ == batch_report(
            views(applied@),
            dry_run,
            match digest {
                Some(digest) => Some(digest@),
                None => None,
            },
        ),
{
    let ghost all = views(applied@);
    let count: usize = applied.len();
    assert(all.len() == count);
    let mut fields: Vec<JsonField> = Vec::new();
    assert(views(fields@) =~= seq![]);
    push_field(&mut fields, "applied", array(applied));
    push_field(&mut fields, "committed", boolean(!dry_run));
    push_field(&mut fields, "ops", counted(count as u128));
    assert(views(fields@) =~= batch_report(all, dry_run, None)->Object_0);
    if let Some(digest) = digest {
        push_field(&mut fields, "digest", digest);
    }
    object(fields)
}

// ---------------------------------------------------------------------------
// Renders
// ---------------------------------------------------------------------------

/// A contact sheet that goes along with a render.
#[derive(Clone, Debug)]
pub struct SheetRequest {
    pub path: String,
    pub every: Time,
    pub columns: u32,
    pub width: u32,
}

pub struct SheetAsked {
    pub path: Seq<char>,
    pub every: Time,
    pub columns: u32,
    pub width: u32,
}

impl View for SheetRequest {
    type V = SheetAsked;

    open spec fn view(&self) -> SheetAsked {
        SheetAsked {
            path: self.path@,
            every: self.every,
            columns: self.columns,
            width: self.width,
        }
    }
}

pub open spec fn sheet_asked(args: JsonView, fps: Fps) -> Result<Option<SheetAsked>, ErrorView> {
    match text_argument(args, "sheet"@) {
        None => Ok(None),
        Some(path) => match time_argument(args, "sheet-every"@, fps) {
            Err(error) => Err(error),
            Ok(every) => match whole_else(args, "sheet-columns"@, 6) {
                Err(error) => Err(error),
                Ok(columns) => match whole_else(args, "sheet-width"@, 1920) {
                    Err(error) => Err(error),
                    Ok(width) => Ok(
                        Some(
                            SheetAsked {
                                path,
                                every: every.unwrap_or(Time { secs: Rat { num: 5, den: 1 } }),
                                columns,
                                width,
                            },
                        ),
                    ),
                },
            },
        },
    }
}

/// Reads whether a render is asked for a contact sheet, and for which.
pub fn sheet_request(args: &Json, fps: Fps) -> (r: Result<Option<SheetRequest>, Error>)
    requires
        fps.wf(),
    ensures
        (match r {
            Ok(Some(sheet)) => sheet_asked(args@, fps) == Ok::<Option<SheetAsked>, ErrorView>(
                Some(sheet@),
            ) && sheet.every.wf(),
            Ok(None) => sheet_asked(args@, fps) == Ok::<Option<SheetAsked>, ErrorView>(None),
            Err(error) => sheet_asked(args@, fps) == Err::<Option<SheetAsked>, ErrorView>(error@),
        }),
{
    let path = match opt_str(args, "sheet") {
        None => return Ok(None),
        Some(path) => path.as_str().to_owned(),
    };
    let every = match opt_time(args, "sheet-every", fps) {
        Err(error) => return Err(error),
        Ok(Some(every)) => every,
        Ok(None) => Time { secs: Rat { num: 5, den: 1 } },
    };
    let columns = match read_whole(args, "sheet-columns", 6) {
        Err(error) => return Err(error),
        Ok(columns) => columns,
    };
    match read_whole(args, "sheet-width", 1920) {
        Err(error) => Err(error),
        Ok(width) => Ok(Some(SheetRequest { path, every, columns, width })),
    }
}

/// Reads where a render goes.
pub fn output_request(args: &Json) -> (r: Result<String, Error>)
    ensures
        (match r {
            Ok(path) => text_argument(args@, "output"@) == Some(path@),
            Err(error) => text_argument(args@, "output"@) is None && error@
                == crate::args::missing_text("output"@),
        }),
{
    match str_field(args, "output") {
        Err(error) => Err(error),
        Ok(path) => Ok(path.as_str().to_owned()),
    }
}

// ---------------------------------------------------------------------------
// Checks
// ---------------------------------------------------------------------------

/// What a check of the loop is asked for; what is not named stays as it usually is.
pub open spec fn check_asked(args: JsonView) -> Result<LintOptions, ErrorView> {
    match profile_argument(args) {
        Err(error) => Err(error),
        Ok(profile) => match switch_or(args, "render"@, true) {
            Err(error) => Err(error),
            Ok(render) => Ok(
                LintOptions {
                    profile,
                    render,
                    sample_every: Time { secs: Rat { num: 1, den: 1 } },
                    use_proxy: true,
                },
            ),
        },
    }
}

/// Reads what a check is asked for.
pub fn check_request(args: &Json) -> (r: Result<LintOptions, Error>)
    ensures
        (match r {
            Ok(options) => check_asked(args@) == Ok::<LintOptions, ErrorView>(options),
            Err(error) => check_asked(args@) == Err::<LintOptions, ErrorView>(error@),
        }),
{
    let profile = match profile(args) {
        Err(error) => return Err(error),
        Ok(profile) => profile,
    };
    match read_switch(args, "render", true) {
        Err(error) => Err(error),
        Ok(render) => Ok(
            LintOptions {
                profile,
                render,
                sample_every: Time { secs: Rat { num: 1, den: 1 } },
                use_proxy: true,
            },
        ),
    }
}

// ---------------------------------------------------------------------------
// Frames
// ---------------------------------------------------------------------------

/// What a picture of one frame is asked for.
#[derive(Clone, Debug)]
pub struct FrameRequest {
    pub at: Time,
    pub scale: Float,
    pub annotate: bool,
    pub output: Option<String>,
}

pub struct FrameAsked {
    pub at: Time,
    pub scale: Float,
    pub annotate: bool,
    pub output: Option<Seq<char>>,
}

impl View for FrameRequest {
    type V = FrameAsked;

    open spec fn view(&self) -> FrameAsked {
        FrameAsked {
            at: self.at,
            scale: self.scale,
            annotate: self.annotate,
            output: opt_text(self.output),
        }
    }
}

pub open spec fn frame_asked(args: JsonView, fps: Fps) -> Result<FrameAsked, ErrorView> {
    match required_time(args, "at"@, fps) {
        Err(error) => Err(error),
        Ok(at) => match number_argument(args, "scale"@) {
            Err(error) => Err(error),
            Ok(scale) => match switch_or(args, "annotate"@, true) {
                Err(error) => Err(error),
                Ok(annotate) => Ok(
                    FrameAsked {
                        at,
                        scale: scale.unwrap_or(Float::Finite(Rat { num: 1, den: 1 })),
                        annotate,
                        output: text_argument(args, "output"@),
                    },
                ),
            },
        },
    }
}

/// Reads which frame is asked for, and how it is drawn.
pub fn frame_request(args: &Json, fps: Fps) -> (r: Result<FrameRequest, Error>)
    requires
        fps.wf(),
    ensures
        (match r {
            Ok(asked) => frame_asked(args@, fps) == Ok::<FrameAsked, ErrorView>(asked@)
                && asked.at.wf(),
            Err(error) => frame_asked(args@, fps) == Err::<FrameAsked, ErrorView>(error@),
        }),
{
    let at = match time_field(args, "at", fps) {
        Err(error) => return Err(error),
        Ok(at) => at,
    };
    let scale = match opt_number(args, "scale") {
        Err(error) => return Err(error),
        Ok(Some(scale)) => scale,
        Ok(None) => Float::Finite(Rat { num: 1, den: 1 }),
    };
    match read_switch(args, "annotate", true) {
        Err(error) => Err(error),
        Ok(annotate) => Ok(
            FrameRequest { at, scale, annotate, output: copied_text(args, "output") },
        ),
    }
}

/// What is said of a frame that was drawn. Its instant is the one it starts at.
pub open spec fn frame_report(
    frame: int,
    fps: Fps,
    output: Seq<char>,
    annotated: bool,
    annotations: Seq<JsonView>,
) -> JsonView {
    let at = Time::of_frames(frame, fps);
    JsonView::Object(
        seq![
            field("frame"@, JsonView::Number(dec_int(frame))),
            field("at"@, JsonView::Text(at.text())),
            field("timecode"@, JsonView::Text(at.timecode_text(fps))),
            field("output"@, JsonView::Text(output)),
            field("annotated"@, JsonView::Bool(annotated)),
            field("annotations"@, JsonView::Array(annotations)),
        ],
    )
}

/// Answers with where a frame was drawn and what is in it.
pub fn frame_answer(
    frame: i64,
    fps: Fps,
    output: &str,
    annotated: bool,
    annotations: Vec<Json>,
) -> (r: Json)
    requires
        fps.wf(),
        Time::frames_fit(frame as int, fps),
    ensures
        r@ == frame_report(frame as int, fps, output@, annotated, views(annotations@)),
{
    let at = Time::from_frames(frame, fps);
    let ghost boxes = views(annotations@);
    let mut index = "".to_owned();
    proof {
        reveal_strlit("");
    }
    push_int(&mut index, frame as i128);
    assert(index@ =~= dec_int(frame as int));
    let mut fields: Vec<JsonField> = Vec::new();
    assert(views(fields@) =~= seq![]);
    push_field(&mut fields, "frame", number(index.as_str()));
    push_text_field(&mut fields, "at", at.to_text().as_str());
    push_text_field(&mut fields, "timecode", at.timecode(fps).as_str());
    push_text_field(&mut fields, "output", output);
    push_field(&mut fields, "annotated", boolean(annotated));
    push_field(&mut fields, "annotations", array(annotations));
    assert(views(fields@) =~= frame_report(
        frame as int,
        fps,
        output@,
        annotated,
        boxes,
    )->Object_0);
    object(fields)
}

// ---------------------------------------------------------------------------
// Transcripts and history
// ---------------------------------------------------------------------------

/// What is asked of a transcript.
#[derive(Clone, Debug)]
pub struct TranscriptRequest {
    pub asset: String,
    pub phrase: Option<String>,
    pub span: Option<Span>,
    pub limit: u32,
}

pub struct TranscriptAsked {
    pub asset: Seq<char>,
    pub phrase: Option<Seq<char>>,
    pub span: Option<Span>,
    pub limit: u32,
}

impl View for TranscriptRequest {
    type V = TranscriptAsked;

    open spec fn view(&self) -> TranscriptAsked {
        TranscriptAsked {
            asset: self.asset@,
            phrase: opt_text(self.phrase),
            span: self.span,
            limit: self.limit,
        }
    }
}

pub open spec fn stretch_asked(args: JsonView, fps: Fps) -> Result<Option<Span>, ErrorView> {
    match text_argument(args, "span"@) {
        None => Ok(None),
        Some(text) => match span_of(text, fps) {
            Err(error) => Err(error),
            Ok(span) => Ok(Some(span)),
        },
    }
}

pub open spec fn transcript_asked(args: JsonView, fps: Fps) -> Result<TranscriptAsked, ErrorView> {
    match text_argument(args, "asset"@) {
        None => Err(crate::args::missing_text("asset"@)),
        Some(asset) => match stretch_asked(args, fps) {
            Err(error) => Err(error),
            Ok(span) => match whole_else(args, "limit"@, 200) {
                Err(error) => Err(error),
                Ok(limit) => Ok(
                    TranscriptAsked { asset, phrase: text_argument(args, "phrase"@), span, limit },
                ),
            },
        },
    }
}

/// Reads what is asked of a transcript.
pub fn transcript_request(args: &Json, fps: Fps) -> (r: Result<TranscriptRequest, Error>)
    requires
        fps.wf(),
    ensures
        (match r {
            Ok(asked) => transcript_asked(args@, fps) == Ok::<TranscriptAsked, ErrorView>(asked@),
            Err(error) => transcript_asked(args@, fps) == Err::<TranscriptAsked, ErrorView>(
                error@,
            ),
        }),
{
    let asset = match str_field(args, "asset") {
        Err(error) => return Err(error),
        Ok(asset) => asset.as_str().to_owned(),
    };
    let span = match opt_str(args, "span") {
        None => None,
        Some(text) => match parse_span(text.as_str(), fps) {
            Err(error) => return Err(error),
            Ok(span) => Some(span),
        },
    };
    match read_whole(args, "limit", 200) {
        Err(error) => Err(error),
        Ok(limit) => Ok(
            TranscriptRequest { asset, phrase: copied_text(args, "phrase"), span, limit },
        ),
    }
}

/// Reads how many entries of the journal are asked for.
pub fn history_request(args: &Json) -> (r: Result<u32, Error>)
    ensures
        (match r {
            Ok(limit) => whole_else(args@, "limit"@, 20) == Ok::<u32, ErrorView>(limit),
            Err(error) => whole_else(args@, "limit"@, 20) == Err::<u32, ErrorView>(error@),
        }),
{
    read_whole(args, "limit", 20)
}

} // verus!
