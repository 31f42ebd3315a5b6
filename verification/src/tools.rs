//! Tool names, tool definitions, and the loop tools' answers.

use crate::error::{Error, ErrorView};
use crate::json::{
    array, boolean, field, object, push_field, push_text_field, text, FieldView, Json, JsonField,
    JsonView,
};
use crate::text::{
    chars_of, find, find_from, has_char, push_char, push_text, same, string_of_range, strings, trim,
    trimmed_text,
};
use crate::time::{Fps, Span, Time};
use crate::time_text::{not_a_time, time_at};
use crate::views::{push_view, views};
use vstd::prelude::*;

verus! {

/// A separator of an operation id becomes an underscore.
pub open spec fn tool_char(c: char) -> char {
    if c == '.' || c == '-' {
        '_'
    } else {
        c
    }
}

/// The tool name of an operation id: `title.set-text` becomes `title_set_text`.
pub open spec fn tool_name_of(op_id: Seq<char>) -> Seq<char> {
    op_id.map_values(|c: char| tool_char(c))
}

pub fn tool_name(op_id: &str) -> (r: String)
    ensures
        r@ == tool_name_of(op_id@),
{
    let chars = chars_of(op_id);
    let mut out = String::new();
    let mut i: usize = 0;
    while i < chars.len()
        invariant
            i <= chars@.len(),
            chars@ == op_id@,
            out@ =~= tool_name_of(op_id@.take(i as int)),
        decreases chars@.len() - i,
    {
        let c = chars[i];
        if c == '.' || c == '-' {
            push_char(&mut out, '_');
        } else {
            push_char(&mut out, c);
        }
        i = i + 1;
    }
    assert(op_id@.take(i as int) =~= op_id@);
    out
}

/// A tool name keeps no separator that a client's function naming rules could refuse.
pub proof fn law_tool_names_hold_no_separator(op_id: Seq<char>)
    ensures
        tool_name_of(op_id).len() == op_id.len(),
        forall|i: int|
            0 <= i < op_id.len() ==> #[trigger] tool_name_of(op_id)[i] != '.' && tool_name_of(
                op_id,
            )[i] != '-',
{
}

// ---------------------------------------------------------------------------
// The loop tools
// ---------------------------------------------------------------------------

/// The tools that are not operations: each is several operations or looks in one call.
pub const LOOP_TOOLS: [&'static str; 7] = [
    "dvs_overview",
    "dvs_apply",
    "dvs_render",
    "dvs_lint",
    "dvs_frame",
    "dvs_transcript",
    "dvs_history",
];

/// What each of them is for, in the same order.
pub const LOOP_ABOUT: [&'static str; 7] = [
    "Project at a glance: sequences, tracks, clip counts, assets, history depth and the local ffmpeg. Start here.",
    "Apply a batch of ops as one transaction: all of them land or none do, and one digest comes back.",
    "Render the sequence to a file and return the render report, its digest, and optionally a contact sheet — one call instead of three.",
    "Check the timeline against the mistakes a blind editor makes: gaps, overlaps, upscales, loudness, captions, titles.",
    "Render one frame as a PNG and return it as an image, with the clip and title boxes that are in it and their ids.",
    "Query a word-timestamped transcript: find a phrase and get timeline ranges, or read the words inside a span.",
    "The op journal, newest last: what was applied, by whom, and what an undo would reverse.",
];

/// What a tool's argument can be.
#[derive(Clone, Copy, Debug, PartialEq, Eq, Structural)]
pub enum ArgKind {
    Text,
    Number,
    Integer,
    Boolean,
    /// An instant or a duration, in any spelling.
    Time,
    /// A loudness target.
    Profile,
    /// A list of operations with their arguments.
    Ops,
}

// The arguments of the loop tools, one position for each argument.

/// The tool that takes it.
pub const ARG_TOOL: [&'static str; 30] = [
    "dvs_overview",
    "dvs_apply",
    "dvs_apply",
    "dvs_apply",
    "dvs_render",
    "dvs_render",
    "dvs_render",
    "dvs_render",
    "dvs_render",
    "dvs_render",
    "dvs_render",
    "dvs_render",
    "dvs_render",
    "dvs_render",
    "dvs_render",
    "dvs_render",
    "dvs_render",
    "dvs_lint",
    "dvs_lint",
    "dvs_lint",
    "dvs_frame",
    "dvs_frame",
    "dvs_frame",
    "dvs_frame",
    "dvs_frame",
    "dvs_transcript",
    "dvs_transcript",
    "dvs_transcript",
    "dvs_transcript",
    "dvs_history",
];

/// What it is called.
pub const ARG_NAME: [&'static str; 30] = [
    "seq",
    "ops",
    "dry-run",
    "digest",
    "output",
    "seq",
    "range",
    "scale",
    "encoder",
    "quality",
    "preset",
    "proxy",
    "no-cache",
    "sheet",
    "sheet-every",
    "sheet-columns",
    "sheet-width",
    "seq",
    "profile",
    "render",
    "at",
    "seq",
    "output",
    "annotate",
    "scale",
    "asset",
    "phrase",
    "span",
    "limit",
    "limit",
];

/// What it can be.
pub const ARG_KIND: [ArgKind; 30] = [
    ArgKind::Text,
    ArgKind::Ops,
    ArgKind::Boolean,
    ArgKind::Boolean,
    ArgKind::Text,
    ArgKind::Text,
    ArgKind::Text,
    ArgKind::Number,
    ArgKind::Text,
    ArgKind::Integer,
    ArgKind::Text,
    ArgKind::Boolean,
    ArgKind::Boolean,
    ArgKind::Text,
    ArgKind::Time,
    ArgKind::Integer,
    ArgKind::Integer,
    ArgKind::Text,
    ArgKind::Profile,
    ArgKind::Boolean,
    ArgKind::Time,
    ArgKind::Text,
    ArgKind::Text,
    ArgKind::Boolean,
    ArgKind::Number,
    ArgKind::Text,
    ArgKind::Text,
    ArgKind::Text,
    ArgKind::Integer,
    ArgKind::Integer,
];

/// Whether it has to be given.
pub const ARG_REQUIRED: [bool; 30] = [
    false,
    true,
    false,
    false,
    true,
    false,
    false,
    false,
    false,
    false,
    false,
    false,
    false,
    false,
    false,
    false,
    false,
    false,
    false,
    false,
    true,
    false,
    false,
    false,
    false,
    true,
    false,
    false,
    false,
    false,
];

/// What it is for.
pub const ARG_ABOUT: [&'static str; 30] = [
    "sequence id or name; default is the active one",
    "ops in order; each is applied to the result of the previous one",
    "report the effects without writing anything",
    "return a digest of the resulting timeline (renders sampled frames)",
    "output file, e.g. 'out.mp4'",
    "sequence id or name",
    "'start-end' on the timeline, e.g. '0-30' or '00:10-00:20'",
    "output scale; 0.5 renders half size",
    "auto, x264, x265, av1, nvenc, vaapi, videotoolbox, prores, or an ffmpeg encoder name",
    "CRF or the encoder's equivalent; lower is better",
    "encoder preset",
    "decode from proxies: fast and lower quality",
    "re-encode every segment, ignoring the segment cache",
    "also write a contact sheet to this path",
    "contact sheet sampling interval",
    "contact sheet columns",
    "width of the whole contact sheet in pixels; cells are this divided by sheet-columns",
    "sequence id or name",
    "loudness target; default youtube (-14 LUFS)",
    "render sampled frames for the pixel rules; false is document-only and needs no ffmpeg",
    "timeline position of the frame",
    "sequence id or name",
    "where to write the PNG; default is under the project cache",
    "overlay clip/title boxes with their ids; default true",
    "output scale; 0.5 renders half size",
    "asset id or name whose transcript to read",
    "phrase to locate; returns one span per occurrence",
    "'start-end' in source time; returns the words inside it",
    "maximum words or matches to return; default 200",
    "how many entries to return; default 20",
];

/// What a tool is called, what it is for, and what it takes.
#[derive(Debug)]
pub struct ToolInfo {
    pub name: String,
    pub about: String,
    pub schema: Json,
}

pub struct ToolView {
    pub name: Seq<char>,
    pub about: Seq<char>,
    pub schema: JsonView,
}

impl View for ToolInfo {
    type V = ToolView;

    open spec fn view(&self) -> ToolView {
        ToolView { name: self.name@, about: self.about@, schema: self.schema@ }
    }
}

pub open spec fn typed(kind: Seq<char>, about: Seq<char>) -> JsonView {
    JsonView::Object(
        seq![
            field("type"@, JsonView::Text(kind)),
            field("description"@, JsonView::Text(about)),
        ],
    )
}

/// A schema for an instant, in any spelling.
pub open spec fn time_schema(about: Seq<char>) -> JsonView {
    JsonView::Object(
        seq![
            field(
                "type"@,
                JsonView::Array(seq![JsonView::Text("string"@), JsonView::Text("number"@)]),
            ),
            field(
                "description"@,
                JsonView::Text(
                    about + " — seconds, 'num/den', 'mm:ss.mmm', '1m12s' or '1800f'"@,
                ),
            ),
        ],
    )
}

pub open spec fn profile_schema(about: Seq<char>) -> JsonView {
    JsonView::Object(
        seq![
            field("type"@, JsonView::Text("string"@)),
            field(
                "enum"@,
                JsonView::Array(
                    seq![
                        JsonView::Text("youtube"@),
                        JsonView::Text("podcast"@),
                        JsonView::Text("broadcast"@),
                    ],
                ),
            ),
            field("description"@, JsonView::Text(about)),
        ],
    )
}

/// The schema of one operation of a batch.
pub open spec fn step_schema() -> JsonView {
    JsonView::Object(
        seq![
            field("type"@, JsonView::Text("object"@)),
            field("required"@, JsonView::Array(seq![JsonView::Text("op"@)])),
            field(
                "properties"@,
                JsonView::Object(
                    seq![
                        field("op"@, typed("string"@, "op id, e.g. 'clip.split'"@)),
                        field("args"@, typed("object"@, "arguments for that op"@)),
                        field(
                            "seq"@,
                            typed(
                                "string"@,
                                "sequence for this op; default is the active one"@,
                            ),
                        ),
                    ],
                ),
            ),
            field("additionalProperties"@, JsonView::Bool(false)),
        ],
    )
}

pub open spec fn ops_schema(about: Seq<char>) -> JsonView {
    JsonView::Object(
        seq![
            field("type"@, JsonView::Text("array"@)),
            field("description"@, JsonView::Text(about)),
            field("items"@, step_schema()),
        ],
    )
}

/// The schema of an argument.
pub open spec fn arg_schema(kind: ArgKind, about: Seq<char>) -> JsonView {
    match kind {
        ArgKind::Text => typed("string"@, about),
        ArgKind::Number => typed("number"@, about),
        ArgKind::Integer => typed("integer"@, about),
        ArgKind::Boolean => typed("boolean"@, about),
        ArgKind::Time => time_schema(about),
        ArgKind::Profile => profile_schema(about),
        ArgKind::Ops => ops_schema(about),
    }
}

/// The arguments of a tool among the first `n`.
pub open spec fn properties_of(tool: Seq<char>, n: int) -> Seq<FieldView>
    decreases n,
{
    if n <= 0 {
        seq![]
    } else if ARG_TOOL@[n - 1]@ == tool {
        properties_of(tool, n - 1).push(
            field(ARG_NAME@[n - 1]@, arg_schema(ARG_KIND@[n - 1], ARG_ABOUT@[n - 1]@)),
        )
    } else {
        properties_of(tool, n - 1)
    }
}

/// The arguments among the first `n` that a tool cannot do without.
pub open spec fn required_of(tool: Seq<char>, n: int) -> Seq<JsonView>
    decreases n,
{
    if n <= 0 {
        seq![]
    } else if ARG_TOOL@[n - 1]@ == tool && ARG_REQUIRED@[n - 1] {
        required_of(tool, n - 1).push(JsonView::Text(ARG_NAME@[n - 1]@))
    } else {
        required_of(tool, n - 1)
    }
}

/// What a loop tool takes: nothing but its arguments.
pub open spec fn tool_schema(tool: Seq<char>) -> JsonView {
    let required = required_of(tool, 30);
    JsonView::Object(
        if required.len() > 0 {
            seq![
                field("type"@, JsonView::Text("object"@)),
                field("required"@, JsonView::Array(required)),
                field("properties"@, JsonView::Object(properties_of(tool, 30))),
                field("additionalProperties"@, JsonView::Bool(false)),
            ]
        } else {
            seq![
                field("type"@, JsonView::Text("object"@)),
                field("properties"@, JsonView::Object(properties_of(tool, 30))),
                field("additionalProperties"@, JsonView::Bool(false)),
            ]
        },
    )
}

pub open spec fn loop_tool(i: int) -> ToolView {
    ToolView {
        name: LOOP_TOOLS@[i]@,
        about: LOOP_ABOUT@[i]@,
        schema: tool_schema(LOOP_TOOLS@[i]@),
    }
}

fn typed_json(kind: &str, about: &str) -> (r: Json)
    ensures
        r@ == typed(kind@, about@),
{
    let mut fields: Vec<JsonField> = Vec::new();
    assert(views(fields@) =~= seq![]);
    push_text_field(&mut fields, "type", kind);
    push_text_field(&mut fields, "description", about);
    assert(views(fields@) =~= typed(kind@, about@)->Object_0);
    object(fields)
}

/// The schema of an instant or a duration.
pub fn time_field(about: &str) -> (r: Json)
    ensures
        r@ == time_schema(about@),
{
    let mut kinds: Vec<Json> = Vec::new();
    assert(views(kinds@) =~= seq![]);
    push_view(&mut kinds, text("string"));
    push_view(&mut kinds, text("number"));
    assert(views(kinds@) =~= seq![JsonView::Text("string"@), JsonView::Text("number"@)]);
    let mut words = about.to_owned();
    words.append(" — seconds, 'num/den', 'mm:ss.mmm', '1m12s' or '1800f'");
    let mut fields: Vec<JsonField> = Vec::new();
    assert(views(fields@) =~= seq![]);
    push_field(&mut fields, "type", array(kinds));
    push_text_field(&mut fields, "description", words.as_str());
    assert(views(fields@) =~= time_schema(about@)->Object_0);
    object(fields)
}

fn profile_json(about: &str) -> (r: Json)
    ensures
        r@ == profile_schema(about@),
{
    let mut names: Vec<Json> = Vec::new();
    assert(views(names@) =~= seq![]);
    push_view(&mut names, text("youtube"));
    push_view(&mut names, text("podcast"));
    push_view(&mut names, text("broadcast"));
    assert(views(names@) =~= seq![
        JsonView::Text("youtube"@),
        JsonView::Text("podcast"@),
        JsonView::Text("broadcast"@),
    ]);
    let mut fields: Vec<JsonField> = Vec::new();
    assert(views(fields@) =~= seq![]);
    push_text_field(&mut fields, "type", "string");
    push_field(&mut fields, "enum", array(names));
    push_text_field(&mut fields, "description", about);
    assert(views(fields@) =~= profile_schema(about@)->Object_0);
    object(fields)
}

fn step_json() -> (r: Json)
    ensures
        r@ == step_schema(),
{
    let mut required: Vec<Json> = Vec::new();
    assert(views(required@) =~= seq![]);
    push_view(&mut required, text("op"));
    assert(views(required@) =~= seq![JsonView::Text("op"@)]);
    let mut properties: Vec<JsonField> = Vec::new();
    assert(views(properties@) =~= seq![]);
    push_field(&mut properties, "op", typed_json("string", "op id, e.g. 'clip.split'"));
    push_field(&mut properties, "args", typed_json("object", "arguments for that op"));
    push_field(
        &mut properties,
        "seq",
        typed_json("string", "sequence for this op; default is the active one"),
    );
    assert(views(properties@) =~= seq![
        field("op"@, typed("string"@, "op id, e.g. 'clip.split'"@)),
        field("args"@, typed("object"@, "arguments for that op"@)),
        field("seq"@, typed("string"@, "sequence for this op; default is the active one"@)),
    ]);
    let mut fields: Vec<JsonField> = Vec::new();
    assert(views(fields@) =~= seq![]);
    push_text_field(&mut fields, "type", "object");
    push_field(&mut fields, "required", array(required));
    push_field(&mut fields, "properties", object(properties));
    push_field(&mut fields, "additionalProperties", boolean(false));
    assert(views(fields@) =~= step_schema()->Object_0);
    object(fields)
}

fn ops_json(about: &str) -> (r: Json)
    ensures
        r@ == ops_schema(about@),
{
    let mut fields: Vec<JsonField> = Vec::new();
    assert(views(fields@) =~= seq![]);
    push_text_field(&mut fields, "type", "array");
    push_text_field(&mut fields, "description", about);
    push_field(&mut fields, "items", step_json());
    assert(views(fields@) =~= ops_schema(about@)->Object_0);
    object(fields)
}

fn arg_json(kind: ArgKind, about: &str) -> (r: Json)
    ensures
        r@ == arg_schema(kind, about@),
{
    match kind {
        ArgKind::Text => typed_json("string", about),
        ArgKind::Number => typed_json("number", about),
        ArgKind::Integer => typed_json("integer", about),
        ArgKind::Boolean => typed_json("boolean", about),
        ArgKind::Time => time_field(about),
        ArgKind::Profile => profile_json(about),
        ArgKind::Ops => ops_json(about),
    }
}

fn tool_json(tool: &str) -> (r: Json)
    ensures
        r@ == tool_schema(tool@),
{
    let tools = ARG_TOOL;
    let names = ARG_NAME;
    let kinds = ARG_KIND;
    let needed = ARG_REQUIRED;
    let abouts = ARG_ABOUT;
    let mut required: Vec<Json> = Vec::new();
    let mut properties: Vec<JsonField> = Vec::new();
    assert(views(required@) =~= seq![]);
    assert(views(properties@) =~= seq![]);
    let mut i: usize = 0;
    while i < 30
        invariant
            i <= 30,
            tools@ == ARG_TOOL@,
            names@ == ARG_NAME@,
            kinds@ == ARG_KIND@,
            needed@ == ARG_REQUIRED@,
            abouts@ == ARG_ABOUT@,
            tools@.len() == 30,
            names@.len() == 30,
            kinds@.len() == 30,
            needed@.len() == 30,
            abouts@.len() == 30,
            views(properties@) == properties_of(tool@, i as int),
            views(required@) == required_of(tool@, i as int),
        decreases 30 - i,
    {
        if same(tools[i], tool) {
            push_field(&mut properties, names[i], arg_json(kinds[i], abouts[i]));
            if needed[i] {
                push_view(&mut required, text(names[i]));
            }
        }
        i = i + 1;
    }
    let any = required.len() > 0;
    assert(views(required@).len() == required@.len());
    let mut fields: Vec<JsonField> = Vec::new();
    assert(views(fields@) =~= seq![]);
    push_text_field(&mut fields, "type", "object");
    if any {
        push_field(&mut fields, "required", array(required));
    }
    push_field(&mut fields, "properties", object(properties));
    push_field(&mut fields, "additionalProperties", boolean(false));
    assert(views(fields@) =~= tool_schema(tool@)->Object_0);
    object(fields)
}

/// The loop tools, as they are advertised.
pub fn loop_tools() -> (r: Vec<ToolInfo>)
    ensures
        views(r@) == Seq::new(7, |i: int| loop_tool(i)),
{
    let names = LOOP_TOOLS;
    let abouts = LOOP_ABOUT;
    let mut out: Vec<ToolInfo> = Vec::new();
    let mut i: usize = 0;
    while i < 7
        invariant
            i <= 7,
            names@ == LOOP_TOOLS@,
            abouts@ == LOOP_ABOUT@,
            names@.len() == 7,
            abouts@.len() == 7,
            views(out@) =~= Seq::new(i as nat, |k: int| loop_tool(k)),
        decreases 7 - i,
    {
        push_view(
            &mut out,
            ToolInfo {
                name: names[i].to_owned(),
                about: abouts[i].to_owned(),
                schema: tool_json(names[i]),
            },
        );
        i = i + 1;
    }
    out
}

/// A loop tool refuses arguments it does not know, and needs only ones it does.
pub proof fn law_required_arguments_are_known(tool: Seq<char>, n: int, i: int)
    requires
        0 <= i < required_of(tool, n).len(),
    ensures
        exists|k: int|
            0 <= k < properties_of(tool, n).len() && required_of(tool, n)[i] == JsonView::Text(
                (#[trigger] properties_of(tool, n)[k]).name,
            ),
    decreases n,
{
    let required = required_of(tool, n);
    let known = properties_of(tool, n);
    if n > 0 {
        if i < required_of(tool, n - 1).len() {
            law_required_arguments_are_known(tool, n - 1, i);
            let before = properties_of(tool, n - 1);
            let k = choose|k: int|
                0 <= k < before.len() && required_of(tool, n - 1)[i] == JsonView::Text(
                    (#[trigger] before[k]).name,
                );
            assert(known[k] == before[k]);
        } else {
            assert(required[i] == JsonView::Text(known[known.len() - 1].name));
        }
    }
}

// ---------------------------------------------------------------------------
// Operations as tools
// ---------------------------------------------------------------------------

/// An operation, as it describes itself.
#[derive(Debug)]
pub struct OpInfo {
    pub id: String,
    pub about: String,
    pub schema: Json,
}

/// A schema that makes a tool callable: any object, where it is not one itself.
pub open spec fn object_schema(schema: JsonView) -> JsonView {
    match schema {
        JsonView::Object(_) => schema,
        _ => JsonView::Object(seq![field("type"@, JsonView::Text("object"@))]),
    }
}

pub fn schema_object(schema: Json) -> (r: Json)
    ensures
        r@ == object_schema(schema@),
{
    match schema {
        Json::Object(fields) => Json::Object(fields),
        _ => {
            let mut fields: Vec<JsonField> = Vec::new();
            assert(views(fields@) =~= seq![]);
            push_text_field(&mut fields, "type", "object");
            object(fields)
        },
    }
}

pub open spec fn op_tool(op: OpInfo) -> ToolView {
    ToolView {
        name: tool_name_of(op.id@),
        about: op.about@,
        schema: object_schema(op.schema@),
    }
}

pub open spec fn op_tools(ops: Seq<OpInfo>) -> Seq<ToolView> {
    ops.map_values(|op: OpInfo| op_tool(op))
}

/// Every tool there is: the loop tools first, then one for each operation.
pub fn full_catalog(ops: Vec<OpInfo>) -> (r: Vec<ToolInfo>)
    ensures
        views(r@) == Seq::new(7, |i: int| loop_tool(i)) + op_tools(ops@),
{
    let ghost all = ops@;
    let ghost first = Seq::new(7, |i: int| loop_tool(i));
    let mut out = loop_tools();
    let mut rest = ops;
    let ghost mut done: int = 0;
    assert(first + op_tools(all.take(0)) =~= first);
    assert(all.skip(0) =~= all);
    while rest.len() > 0
        invariant
            0 <= done <= all.len(),
            rest@ == all.skip(done),
            views(out@) == first + op_tools(all.take(done)),
        decreases rest@.len(),
    {
        let op = rest.remove(0);
        proof {
            assert(op == all[done]);
            assert(rest@ =~= all.skip(done + 1));
        }
        let ghost seen = op_tool(op);
        let OpInfo { id, about, schema } = op;
        let info = ToolInfo {
            name: tool_name(id.as_str()),
            about,
            schema: schema_object(schema),
        };
        assert(info@ == seen);
        push_view(&mut out, info);
        assert(op_tools(all.take(done + 1)) =~= op_tools(all.take(done)).push(seen));
        assert(views(out@) =~= first + op_tools(all.take(done + 1)));
        proof {
            done = done + 1;
        }
    }
    assert(all.take(done) =~= all);
    out
}

// ---------------------------------------------------------------------------
// Finding the operation of a tool
// ---------------------------------------------------------------------------

/// The first operation with a tool name. -1 where there is none.
pub open spec fn op_named(ids: Seq<Seq<char>>, tool: Seq<char>) -> int
    decreases ids.len(),
{
    if ids.len() == 0 {
        -1
    } else {
        let before = op_named(ids.drop_last(), tool);
        if before >= 0 {
            before
        } else if tool_name_of(ids.last()) == tool {
            ids.len() - 1
        } else {
            -1
        }
    }
}

/// The part of an operation id before its first dot, or of a tool name before its first
/// underscore.
pub open spec fn namespace(name: Seq<char>, separator: char) -> Seq<char> {
    if has_char(name, separator) {
        name.take(find(name, separator))
    } else {
        name
    }
}

/// The tools of the namespace that a name asks for.
pub open spec fn neighbours(ids: Seq<Seq<char>>, tool: Seq<char>) -> Seq<Seq<char>>
    decreases ids.len(),
{
    if ids.len() == 0 {
        seq![]
    } else {
        let before = neighbours(ids.drop_last(), tool);
        if namespace(ids.last(), '.') == namespace(tool, '_') {
            before.push(tool_name_of(ids.last()))
        } else {
            before
        }
    }
}

pub open spec fn no_tool(ids: Seq<Seq<char>>, tool: Seq<char>) -> ErrorView {
    ErrorView::NoMatch { what: "tool"@, wanted: tool, candidates: neighbours(ids, tool) }
}

fn front(name: &str, separator: char) -> (r: String)
    ensures
        r@ == namespace(name@, separator),
{
    let chars = chars_of(name);
    let n: usize = chars.len();
    if crate::text::contains_char(&chars, separator) {
        let at: usize = find_from(&chars, 0, separator);
        assert(chars@.skip(0) =~= chars@);
        proof {
            crate::text::lemma_find(chars@, separator);
        }
        assert(chars@.subrange(0, at as int) =~= chars@.take(at as int));
        string_of_range(&chars, 0, at)
    } else {
        name.to_owned()
    }
}

fn namesakes(ids: &Vec<String>, tool: &str) -> (r: Vec<String>)
    ensures
        strings(r@) == neighbours(strings(ids@), tool@),
{
    let wanted = front(tool, '_');
    let ghost all = strings(ids@);
    let mut out: Vec<String> = Vec::new();
    let mut i: usize = 0;
    assert(all.take(0) =~= seq![]);
    assert(strings(out@) =~= seq![]);
    while i < ids.len()
        invariant
            i <= ids@.len(),
            all == strings(ids@),
            wanted@ == namespace(tool@, '_'),
            strings(out@) == neighbours(all.take(i as int), tool@),
        decreases ids@.len() - i,
    {
        assert(all.take(i + 1).drop_last() =~= all.take(i as int));
        assert(all.take(i + 1).last() == ids@[i as int]@);
        if same(front(ids[i].as_str(), '.').as_str(), wanted.as_str()) {
            push_text(&mut out, tool_name(ids[i].as_str()).as_str());
        }
        i = i + 1;
    }
    assert(all.take(i as int) =~= all);
    out
}

/// The operation that a tool name stands for; where there is none, the tools of its namespace.
pub fn op_for_tool(ids: &Vec<String>, tool: &str) -> (r: Result<usize, Error>)
    ensures
        r is Ok <==> op_named(strings(ids@), tool@) >= 0,
        r is Ok ==> r->Ok_0 == op_named(strings(ids@), tool@) && r->Ok_0 < ids@.len(),
        r is Err ==> r->Err_0@ == no_tool(strings(ids@), tool@),
{
    let ghost all = strings(ids@);
    let mut i: usize = 0;
    assert(all.take(0) =~= seq![]);
    while i < ids.len()
        invariant
            i <= ids@.len(),
            all == strings(ids@),
            op_named(all.take(i as int), tool@) < 0,
        decreases ids@.len() - i,
    {
        assert(all.take(i + 1).drop_last() =~= all.take(i as int));
        assert(all.take(i + 1).last() == ids@[i as int]@);
        if same(tool_name(ids[i].as_str()).as_str(), tool) {
            proof {
                lemma_op_found(all, tool@, i + 1);
            }
            return Ok(i);
        }
        i = i + 1;
    }
    assert(all.take(i as int) =~= all);
    Err(Error::no_match("tool", tool, namesakes(ids, tool)))
}

proof fn lemma_op_found(ids: Seq<Seq<char>>, tool: Seq<char>, n: int)
    requires
        0 <= n <= ids.len(),
        op_named(ids.take(n), tool) >= 0,
    ensures
        op_named(ids, tool) == op_named(ids.take(n), tool),
    decreases ids.len() - n,
{
    if n == ids.len() {
        assert(ids.take(n) =~= ids);
    } else {
        assert(ids.take(n + 1).drop_last() =~= ids.take(n));
        lemma_op_found(ids, tool, n + 1);
    }
}

/// Where no two operations share a tool name, the tool of an operation leads back to it.
pub proof fn law_a_tool_leads_back_to_its_operation(ids: Seq<Seq<char>>, i: int)
    requires
        0 <= i < ids.len(),
        forall|a: int, b: int|
            0 <= a < b < ids.len() ==> tool_name_of(#[trigger] ids[a]) != tool_name_of(
                #[trigger] ids[b],
            ),
    ensures
        op_named(ids, tool_name_of(ids[i])) == i,
{
    let tool = tool_name_of(ids[i]);
    lemma_op_named(ids, tool);
    let found = op_named(ids, tool);
    if found < 0 {
        assert(tool_name_of(ids[i]) != tool);
    } else if found < i {
        assert(tool_name_of(ids[found]) == tool);
    } else if found > i {
        assert(tool_name_of(ids[i]) != tool_name_of(ids[found]));
    }
}

proof fn lemma_op_named(ids: Seq<Seq<char>>, tool: Seq<char>)
    ensures
        -1 <= op_named(ids, tool) < ids.len(),
        op_named(ids, tool) >= 0 ==> tool_name_of(ids[op_named(ids, tool)]) == tool,
        op_named(ids, tool) < 0 ==> forall|k: int|
            0 <= k < ids.len() ==> tool_name_of(#[trigger] ids[k]) != tool,
    decreases ids.len(),
{
    if ids.len() > 0 {
        let rest = ids.drop_last();
        lemma_op_named(rest, tool);
        if op_named(ids, tool) < 0 {
            assert forall|k: int| 0 <= k < ids.len() implies tool_name_of(#[trigger] ids[k])
                != tool by {
                if k < rest.len() {
                    assert(tool_name_of(rest[k]) != tool);
                }
            }
        }
    }
}

/// The tools that are suggested for an unknown one can all be called.
pub proof fn law_suggestions_can_be_called(ids: Seq<Seq<char>>, tool: Seq<char>, i: int)
    requires
        0 <= i < neighbours(ids, tool).len(),
    ensures
        op_named(ids, neighbours(ids, tool)[i]) >= 0,
    decreases ids.len(),
{
    if ids.len() > 0 {
        let rest = ids.drop_last();
        let name = neighbours(ids, tool)[i];
        if i < neighbours(rest, tool).len() {
            law_suggestions_can_be_called(rest, tool, i);
        } else {
            assert(name == tool_name_of(ids.last()));
        }
    }
}

// ---------------------------------------------------------------------------
// Ranges
// ---------------------------------------------------------------------------

pub open spec fn one_sided(range: Seq<char>) -> ErrorView {
    ErrorView::BadArgs(
        "range '"@ + range
            + "' needs a start and an end, as 'start-end' (e.g. '0-30' or '00:10-00:20')"@,
    )
}

pub open spec fn backwards(range: Seq<char>) -> ErrorView {
    ErrorView::BadArgs("range '"@ + range + "' ends at or before it starts"@)
}

/// The range that `start-end` is. The first dash separates the two.
pub open spec fn span_of(range: Seq<char>, fps: Fps) -> Result<Span, ErrorView> {
    if !has_char(range, '-') {
        Err(one_sided(range))
    } else {
        let at = find(range, '-');
        let left = trim(range.take(at));
        let right = trim(range.skip(at + 1));
        match time_at(left, fps) {
            None => Err(not_a_time(left)),
            Some(start) => match time_at(right, fps) {
                None => Err(not_a_time(right)),
                Some(end) => if start.lt(end) {
                    Ok(Span { start, end })
                } else {
                    Err(backwards(range))
                },
            },
        }
    }
}

/// Reads `start-end`.
pub fn parse_span(range: &str, fps: Fps) -> (r: Result<Span, Error>)
    requires
        fps.wf(),
    ensures
        (match r {
            Ok(span) => span_of(range@, fps) == Ok::<Span, ErrorView>(span) && span.wf(),
            Err(error) => span_of(range@, fps) == Err::<Span, ErrorView>(error@),
        }),
{
    let chars = chars_of(range);
    if !crate::text::contains_char(&chars, '-') {
        let mut detail = "range '".to_owned();
        detail.append(range);
        detail.append(
            "' needs a start and an end, as 'start-end' (e.g. '0-30' or '00:10-00:20')",
        );
        return Err(Error::BadArgs(detail));
    }
    let n: usize = chars.len();
    let at: usize = find_from(&chars, 0, '-');
    proof {
        assert(chars@.skip(0) =~= chars@);
        crate::text::lemma_find(chars@, '-');
        assert(chars@.subrange(0, at as int) =~= chars@.take(at as int));
        assert(chars@.subrange(at + 1, n as int) =~= chars@.skip(at + 1));
    }
    let left = trimmed_text(string_of_range(&chars, 0, at).as_str());
    let right = trimmed_text(string_of_range(&chars, at + 1, n).as_str());
    let start = match Time::parse_with_fps(left.as_str(), fps) {
        Err(error) => return Err(error),
        Ok(start) => start,
    };
    let end = match Time::parse_with_fps(right.as_str(), fps) {
        Err(error) => return Err(error),
        Ok(end) => end,
    };
    if !start.before(&end) {
        let mut detail = "range '".to_owned();
        detail.append(range);
        detail.append("' ends at or before it starts");
        return Err(Error::BadArgs(detail));
    }
    Ok(Span { start, end })
}

} // verus!
