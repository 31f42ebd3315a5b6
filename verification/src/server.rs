//! What a tool call asks for, and how its answer is framed.

use crate::args::{
    argument, number_argument, opt_bool, opt_number, opt_str, switch_argument, text_argument,
};
use crate::encode::{encoder_of, Encoder, EncoderView};
use crate::error::{Error, ErrorView};
use crate::float_text::Float;
use crate::json::{no_fields, Json, JsonField, JsonView};
use crate::project::opt_text;
use crate::rational::Rat;
use crate::scene_ops::number_text_of;
use crate::text::{dec, fold, push_dec, same, trim};
use crate::time::{Fps, Span};
use crate::tools::{parse_span, span_of, LOOP_TOOLS};
use crate::views::{push_view, views};
use vstd::prelude::*;

verus! {

/// What a tool name calls.
#[derive(Clone, Copy, Debug, PartialEq, Eq, Structural)]
pub enum Call {
    Overview,
    Apply,
    Render,
    Lint,
    Frame,
    Transcript,
    History,
    /// An operation, by the name of its tool.
    Op,
}

pub open spec fn called(tool: Seq<char>) -> Call {
    if tool == "dvs_overview"@ {
        Call::Overview
    } else if tool == "dvs_apply"@ {
        Call::Apply
    } else if tool == "dvs_render"@ {
        Call::Render
    } else if tool == "dvs_lint"@ {
        Call::Lint
    } else if tool == "dvs_frame"@ {
        Call::Frame
    } else if tool == "dvs_transcript"@ {
        Call::Transcript
    } else if tool == "dvs_history"@ {
        Call::History
    } else {
        Call::Op
    }
}

pub open spec fn not_an_object() -> ErrorView {
    ErrorView::BadArgs("tool arguments must be a JSON object"@)
}

/// Decides what a call is for, and gives it its arguments: none at all are an empty object.
pub fn call(tool: &str, args: Json) -> (r: Result<(Call, Json), Error>)
    ensures
        (match r {
            Ok((kind, given)) => {
                &&& kind == called(tool@)
                &&& (args@ is Object && given@ == args@) || (args@ == JsonView::Null && given@
                    == JsonView::Object(seq![]))
            },
            Err(error) => !(args@ is Object) && args@ != JsonView::Null && error@
                == not_an_object(),
        }),
{
    let given = match args {
        Json::Object(fields) => Json::Object(fields),
        Json::Null => no_fields(),
        _ => {
            return Err(Error::bad_args("tool arguments must be a JSON object"));
        },
    };
    let kind = if same(tool, "dvs_overview") {
        Call::Overview
    } else if same(tool, "dvs_apply") {
        Call::Apply
    } else if same(tool, "dvs_render") {
        Call::Render
    } else if same(tool, "dvs_lint") {
        Call::Lint
    } else if same(tool, "dvs_frame") {
        Call::Frame
    } else if same(tool, "dvs_transcript") {
        Call::Transcript
    } else if same(tool, "dvs_history") {
        Call::History
    } else {
        Call::Op
    };
    Ok((kind, given))
}

/// Every loop tool is answered by a call of its own: none falls through to the operations.
pub proof fn law_loop_tools_are_not_operations(i: int)
    requires
        0 <= i < 7,
    ensures
        called(LOOP_TOOLS@[i]@) != Call::Op,
{
}

// ---------------------------------------------------------------------------
// Batches
// ---------------------------------------------------------------------------

/// One operation of a batch.
#[derive(Debug)]
pub struct BatchStep {
    pub op: String,
    pub args: Json,
    pub seq: Option<String>,
}

pub struct StepView {
    pub op: Seq<char>,
    pub args: JsonView,
    pub seq: Option<Seq<char>>,
}

impl View for BatchStep {
    type V = StepView;

    open spec fn view(&self) -> StepView {
        StepView { op: self.op@, args: self.args@, seq: opt_text(self.seq) }
    }
}

pub open spec fn no_batch() -> ErrorView {
    ErrorView::BadArgs("'ops' must be an array of {op, args, seq}"@)
}

pub open spec fn no_op_id(index: int) -> ErrorView {
    ErrorView::BadArgs("ops["@ + dec(index as nat) + "] has no 'op' id"@)
}

/// The text that an entry holds under a name.
pub open spec fn entry_text(entry: JsonView, name: Seq<char>) -> Option<Seq<char>> {
    text_argument(entry, name)
}

pub open spec fn step_of(entry: JsonView) -> Option<StepView> {
    match entry_text(entry, "op"@) {
        None => None,
        Some(op) => Some(
            StepView {
                op,
                args: match argument(entry, "args"@) {
                    Some(args) => args,
                    None => JsonView::Object(seq![]),
                },
                seq: entry_text(entry, "seq"@),
            },
        ),
    }
}

/// The steps of the first `n` entries, or the first of them that is none.
pub open spec fn steps_of(entries: Seq<JsonView>, n: int) -> Result<Seq<StepView>, int>
    decreases n,
{
    if n <= 0 {
        Ok(seq![])
    } else {
        match steps_of(entries, n - 1) {
            Err(index) => Err(index),
            Ok(steps) => match step_of(entries[n - 1]) {
                Some(step) => Ok(steps.push(step)),
                None => Err(n - 1),
            },
        }
    }
}

pub open spec fn batch_of(args: JsonView) -> Result<Seq<StepView>, ErrorView> {
    match argument(args, "ops"@) {
        Some(JsonView::Array(entries)) => match steps_of(entries, entries.len() as int) {
            Ok(steps) => Ok(steps),
            Err(index) => Err(no_op_id(index)),
        },
        _ => Err(no_batch()),
    }
}

/// A copy of a value.
pub fn copied_json(json: &Json) -> (r: Json)
    ensures
        r@ == json@,
    decreases json@,
{
    match json {
        Json::Null => Json::Null,
        Json::Bool(b) => Json::Bool(*b),
        Json::Number(text) => Json::Number(text.as_str().to_owned()),
        Json::Text(text) => Json::Text(text.as_str().to_owned()),
        Json::Array(items) => {
            let mut out: Vec<Json> = Vec::new();
            let mut i: usize = 0;
            while i < items.len()
                invariant
                    i <= items@.len(),
                    *json == Json::Array(*items),
                    views(out@) =~= views(items@).take(i as int),
                decreases items@.len() - i,
            {
                proof {
                    let all = json@->Array_0;
                    assert(all[i as int] == items@[i as int]@);
                    assert(decreases_to!(json@ => json@->Array_0));
                    assert(decreases_to!(all => all[i as int]));
                }
                let item = copied_json(&items[i]);
                push_view(&mut out, item);
                i = i + 1;
            }
            assert(views(out@) =~= views(items@));
            let made = crate::json::array(out);
            assert(json@->Array_0 =~= views(items@));
            made
        },
        Json::Object(fields) => {
            let mut out: Vec<JsonField> = Vec::new();
            let mut i: usize = 0;
            while i < fields.len()
                invariant
                    i <= fields@.len(),
                    *json == Json::Object(*fields),
                    views(out@) =~= views(fields@).take(i as int),
                decreases fields@.len() - i,
            {
                proof {
                    let all = json@->Object_0;
                    assert(all[i as int] == fields@[i as int]@);
                    assert(decreases_to!(json@ => json@->Object_0));
                    assert(decreases_to!(all => all[i as int]));
                    assert(decreases_to!(all[i as int] => all[i as int].value));
                }
                let value = copied_json(&fields[i].value);
                crate::json::push_field(&mut out, fields[i].name.as_str(), value);
                i = i + 1;
            }
            assert(views(out@) =~= views(fields@));
            let made = crate::json::object(out);
            assert(json@->Object_0 =~= views(fields@));
            made
        },
    }
}

fn read_step(entry: &Json) -> (r: Option<BatchStep>)
    ensures
        (match r {
            Some(step) => step_of(entry@) == Some(step@),
            None => step_of(entry@) is None,
        }),
{
    match opt_str(entry, "op") {
        None => None,
        Some(op) => {
            let args = match crate::args::get(entry, "args") {
                Some(args) => copied_json(args),
                None => no_fields(),
            };
            let seq = match opt_str(entry, "seq") {
                Some(seq) => Some(seq.as_str().to_owned()),
                None => None,
            };
            Some(BatchStep { op: op.as_str().to_owned(), args, seq })
        },
    }
}

proof fn lemma_steps_stop(entries: Seq<JsonView>, n: int, m: int)
    requires
        0 <= n <= m,
        steps_of(entries, n) is Err,
    ensures
        steps_of(entries, m) == steps_of(entries, n),
    decreases m - n,
{
    if n < m {
        lemma_steps_stop(entries, n, m - 1);
    }
}

/// Reads the operations of a batch, in order.
pub fn read_batch(args: &Json) -> (r: Result<Vec<BatchStep>, Error>)
    ensures
        (match r {
            Ok(steps) => batch_of(args@) == Ok::<Seq<StepView>, ErrorView>(views(steps@)),
            Err(error) => batch_of(args@) == Err::<Seq<StepView>, ErrorView>(error@),
        }),
{
    let entries = match crate::args::get(args, "ops") {
        Some(Json::Array(entries)) => entries,
        _ => {
            return Err(Error::bad_args("'ops' must be an array of {op, args, seq}"));
        },
    };
    let ghost all = views(entries@);
    proof {
        let value = argument(args@, "ops"@);
        assert(value matches Some(JsonView::Array(_)));
        assert(value->0->Array_0 =~= all);
    }
    let mut out: Vec<BatchStep> = Vec::new();
    let mut i: usize = 0;
    assert(views(out@) =~= seq![]);
    while i < entries.len()
        invariant
            i <= entries@.len(),
            all == views(entries@),
            argument(args@, "ops"@) == Some(JsonView::Array(all)),
            steps_of(all, i as int) == Ok::<Seq<StepView>, int>(views(out@)),
        decreases entries@.len() - i,
    {
        assert(all[i as int] == entries@[i as int]@);
        match read_step(&entries[i]) {
            Some(step) => {
                push_view(&mut out, step);
            },
            None => {
                proof {
                    assert(steps_of(all, i + 1) == Err::<Seq<StepView>, int>(i as int));
                    lemma_steps_stop(all, i + 1, all.len() as int);
                }
                let mut detail = "ops[".to_owned();
                push_dec(&mut detail, i as u128);
                detail.append("] has no 'op' id");
                return Err(Error::BadArgs(detail));
            },
        }
        i = i + 1;
    }
    Ok(out)
}

// ---------------------------------------------------------------------------
// Render arguments
// ---------------------------------------------------------------------------

pub open spec fn not_whole(name: Seq<char>, text: Seq<char>) -> ErrorView {
    ErrorView::BadArgs("field '"@ + name + "' must be a whole number, got "@ + text)
}

pub open spec fn is_whole(value: Float) -> bool {
    match value {
        Float::Finite(rat) => rat.num >= 0 && rat.num as int % rat.den as int == 0 && rat.num as int
            / rat.den as int <= u32::MAX,
        _ => false,
    }
}

/// A whole number that may be left out.
pub open spec fn whole_argument(args: JsonView, name: Seq<char>) -> Result<Option<u32>, ErrorView> {
    match number_argument(args, name) {
        Err(error) => Err(error),
        Ok(None) => Ok(None),
        Ok(Some(value)) => if is_whole(value) {
            Ok(Some((value->Finite_0.num as int / value->Finite_0.den as int) as u32))
        } else {
            Err(not_whole(name, number_text_of(args, name)))
        },
    }
}

/// A whole number argument. Fractions and negative numbers are typing errors.
pub fn opt_u32(args: &Json, name: &str) -> (r: Result<Option<u32>, Error>)
    ensures
        (match r {
            Ok(value) => whole_argument(args@, name@) == Ok::<Option<u32>, ErrorView>(value),
            Err(error) => whole_argument(args@, name@) == Err::<Option<u32>, ErrorView>(error@),
        }),
{
    match opt_number(args, name) {
        Err(error) => return Err(error),
        Ok(None) => return Ok(None),
        Ok(Some(Float::Finite(rat))) => {
            if rat.num >= 0 && rat.num % rat.den == 0 && rat.num / rat.den <= u32::MAX as i64 {
                return Ok(Some((rat.num / rat.den) as u32));
            }
        },
        Ok(Some(_)) => {},
    }
    let shown = match crate::args::get(args, name) {
        Some(Json::Number(text)) => text.as_str().to_owned(),
        _ => "".to_owned(),
    };
    let mut detail = "field '".to_owned();
    detail.append(name);
    detail.append("' must be a whole number, got ");
    detail.append(shown.as_str());
    Err(Error::BadArgs(detail))
}

/// How a sequence is rendered.
#[derive(Clone, Debug)]
pub struct RenderSpec {
    pub range: Option<Span>,
    pub scale: Rat,
    pub encoder: Encoder,
    pub quality: u32,
    pub preset: Option<String>,
    pub use_proxy: bool,
    pub no_cache: bool,
}

pub struct RenderView {
    pub range: Option<Span>,
    pub scale: Rat,
    pub encoder: EncoderView,
    pub quality: u32,
    pub preset: Option<Seq<char>>,
    pub use_proxy: bool,
    pub no_cache: bool,
}

impl View for RenderSpec {
    type V = RenderView;

    open spec fn view(&self) -> RenderView {
        RenderView {
            range: self.range,
            scale: self.scale,
            encoder: self.encoder@,
            quality: self.quality,
            preset: opt_text(self.preset),
            use_proxy: self.use_proxy,
            no_cache: self.no_cache,
        }
    }
}

pub open spec fn range_argument(args: JsonView, fps: Fps) -> Result<Option<Span>, ErrorView> {
    match text_argument(args, "range"@) {
        None => Ok(None),
        Some(range) => match span_of(range, fps) {
            Ok(span) => Ok(Some(span)),
            Err(error) => Err(error),
        },
    }
}

pub open spec fn no_scale() -> ErrorView {
    ErrorView::BadArgs("scale must be greater than zero"@)
}

pub open spec fn size_argument(args: JsonView) -> Result<Option<Rat>, ErrorView> {
    match number_argument(args, "scale"@) {
        Err(error) => Err(error),
        Ok(None) => Ok(None),
        Ok(Some(Float::Finite(scale))) => if scale.num > 0 {
            Ok(Some(scale))
        } else {
            Err(no_scale())
        },
        Ok(Some(_)) => Err(no_scale()),
    }
}

pub open spec fn or_else<T>(given: Option<T>, other: T) -> T {
    match given {
        Some(value) => value,
        None => other,
    }
}

/// What the arguments make of a render: what they name is replaced, the rest stays.
pub open spec fn with_args(before: RenderView, args: JsonView, fps: Fps) -> Result<
    RenderView,
    ErrorView,
> {
    match range_argument(args, fps) {
        Err(error) => Err(error),
        Ok(range) => match size_argument(args) {
            Err(error) => Err(error),
            Ok(scale) => match whole_argument(args, "quality"@) {
                Err(error) => Err(error),
                Ok(quality) => match switch_argument(args, "proxy"@) {
                    Err(error) => Err(error),
                    Ok(proxy) => match switch_argument(args, "no-cache"@) {
                        Err(error) => Err(error),
                        Ok(no_cache) => Ok(
                            RenderView {
                                range: match range {
                                    Some(span) => Some(span),
                                    None => before.range,
                                },
                                scale: or_else(scale, before.scale),
                                encoder: match text_argument(args, "encoder"@) {
                                    Some(name) => encoder_of(
                                        trim(name).map_values(|c: char| fold(c)),
                                    ),
                                    None => before.encoder,
                                },
                                quality: or_else(quality, before.quality),
                                preset: match text_argument(args, "preset"@) {
                                    Some(preset) => Some(preset),
                                    None => before.preset,
                                },
                                use_proxy: or_else(proxy, before.use_proxy),
                                no_cache: or_else(no_cache, before.no_cache),
                            },
                        ),
                    },
                },
            },
        },
    }
}

fn read_range(args: &Json, fps: Fps) -> (r: Result<Option<Span>, Error>)
    requires
        fps.wf(),
    ensures
        (match r {
            Ok(range) => range_argument(args@, fps) == Ok::<Option<Span>, ErrorView>(range),
            Err(error) => range_argument(args@, fps) == Err::<Option<Span>, ErrorView>(error@),
        }),
{
    match opt_str(args, "range") {
        None => Ok(None),
        Some(range) => match parse_span(range.as_str(), fps) {
            Ok(span) => Ok(Some(span)),
            Err(error) => Err(error),
        },
    }
}

fn read_scale(args: &Json) -> (r: Result<Option<Rat>, Error>)
    ensures
        (match r {
            Ok(scale) => size_argument(args@) == Ok::<Option<Rat>, ErrorView>(scale),
            Err(error) => size_argument(args@) == Err::<Option<Rat>, ErrorView>(error@),
        }),
{
    match opt_number(args, "scale") {
        Err(error) => return Err(error),
        Ok(None) => return Ok(None),
        Ok(Some(Float::Finite(scale))) => {
            if scale.num > 0 {
                return Ok(Some(scale));
            }
        },
        Ok(Some(_)) => {},
    }
    Err(Error::bad_args("scale must be greater than zero"))
}

/// Fills in how a sequence is rendered from the arguments. Where one of them is wrong, nothing
/// is changed.
pub fn apply_render_args(render: &mut RenderSpec, args: &Json, fps: Fps) -> (r: Result<(), Error>)
    requires
        fps.wf(),
    ensures
        (match r {
            Ok(()) => with_args(old(render)@, args@, fps) == Ok::<RenderView, ErrorView>(
                final(render)@,
            ),
            Err(error) => with_args(old(render)@, args@, fps) == Err::<RenderView, ErrorView>(
                error@,
            ) && *final(render) == *old(render),
        }),
{
    let range = match read_range(args, fps) {
        Err(error) => return Err(error),
        Ok(range) => range,
    };
    let scale = match read_scale(args) {
        Err(error) => return Err(error),
        Ok(scale) => scale,
    };
    let quality = match opt_u32(args, "quality") {
        Err(error) => return Err(error),
        Ok(quality) => quality,
    };
    let proxy = match opt_bool(args, "proxy") {
        Err(error) => return Err(error),
        Ok(proxy) => proxy,
    };
    let no_cache = match opt_bool(args, "no-cache") {
        Err(error) => return Err(error),
        Ok(no_cache) => no_cache,
    };
    if let Some(span) = range {
        render.range = Some(span);
    }
    if let Some(scale) = scale {
        render.scale = scale;
    }
    if let Some(name) = opt_str(args, "encoder") {
        render.encoder = Encoder::parse(name.as_str());
    }
    if let Some(quality) = quality {
        render.quality = quality;
    }
    if let Some(preset) = opt_str(args, "preset") {
        render.preset = Some(preset.as_str().to_owned());
    }
    if let Some(proxy) = proxy {
        render.use_proxy = proxy;
    }
    if let Some(no_cache) = no_cache {
        render.no_cache = no_cache;
    }
    Ok(())
}

// ---------------------------------------------------------------------------
// Images
// ---------------------------------------------------------------------------

/// The character of six bits.
pub open spec fn sextet(n: int) -> char {
    if n < 26 {
        (65 + n) as u8 as char
    } else if n < 52 {
        (97 + (n - 26)) as u8 as char
    } else if n < 62 {
        (48 + (n - 52)) as u8 as char
    } else if n == 62 {
        '+'
    } else {
        '/'
    }
}

/// Bytes in base 64: four characters for three bytes, the last filled up with `=`.
pub open spec fn base64(bytes: Seq<u8>) -> Seq<char>
    decreases bytes.len(),
{
    if bytes.len() == 0 {
        seq![]
    } else if bytes.len() == 1 {
        let a = bytes[0] as int;
        seq![sextet(a / 4), sextet(a % 4 * 16), '=', '=']
    } else if bytes.len() == 2 {
        let a = bytes[0] as int;
        let b = bytes[1] as int;
        seq![sextet(a / 4), sextet(a % 4 * 16 + b / 16), sextet(b % 16 * 4), '=']
    } else {
        let a = bytes[0] as int;
        let b = bytes[1] as int;
        let c = bytes[2] as int;
        seq![
            sextet(a / 4),
            sextet(a % 4 * 16 + b / 16),
            sextet(b % 16 * 4 + c / 64),
            sextet(c % 64),
        ] + base64(bytes.skip(3))
    }
}

/// Whether the base-64 text of so many bytes is no longer than a string can be.
pub open spec fn encodes(bytes: nat) -> bool {
    (bytes + 2) / 3 * 4 <= isize::MAX
}

/// `base64::Engine::encode` of the engine `STANDARD`: the alphabet of RFC 4648 with padding.
///
/// The result is the base-64 text of the bytes. The call fails only where that text is longer
/// than a string can be.
#[verifier::external_body]
fn encode_standard(bytes: &Vec<u8>) -> (r: String)
    requires
        encodes(bytes@.len()),
    ensures
        r@ == base64(bytes@),
{
    base64::Engine::encode(&base64::engine::general_purpose::STANDARD, bytes)
}

/// A picture as it is attached to an answer, or nothing where no string could hold it.
pub fn encode_png(bytes: &Vec<u8>) -> (r: Option<String>)
    ensures
        r is Some <==> encodes(bytes@.len()),
        r is Some ==> r->0@ == base64(bytes@),
{
    let n: usize = bytes.len();
    let most: usize = isize::MAX as usize / 4;
    let groups: usize = if n % 3 == 0 {
        n / 3
    } else {
        n / 3 + 1
    };
    if groups <= most {
        Some(encode_standard(bytes))
    } else {
        None
    }
}

/// Four characters stand for every three bytes that are begun.
pub proof fn law_base64_is_four_for_three(bytes: Seq<u8>)
    ensures
        base64(bytes).len() == (bytes.len() + 2) / 3 * 4,
    decreases bytes.len(),
{
    if bytes.len() > 2 {
        law_base64_is_four_for_three(bytes.skip(3));
    }
}

} // verus!
