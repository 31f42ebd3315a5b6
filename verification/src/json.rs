//! JSON text.

use crate::text::{hex2, push_char, text_before};
use crate::views::{lemma_views_push, push_view, views};
use vstd::prelude::*;

verus! {

/// A character as it stands inside a JSON string.
pub open spec fn escaped(c: char) -> Seq<char> {
    if c == '"' {
        seq!['\\', '"']
    } else if c == '\\' {
        seq!['\\', '\\']
    } else if c as u32 == 8 {
        seq!['\\', 'b']
    } else if c == '\t' {
        seq!['\\', 't']
    } else if c == '\n' {
        seq!['\\', 'n']
    } else if c as u32 == 12 {
        seq!['\\', 'f']
    } else if c == '\r' {
        seq!['\\', 'r']
    } else if (c as u32) < 32 {
        seq!['\\', 'u', '0', '0'] + hex2(c as u8)
    } else {
        seq![c]
    }
}

pub open spec fn escaped_text(text: Seq<char>) -> Seq<char>
    decreases text.len(),
{
    if text.len() == 0 {
        seq![]
    } else {
        escaped_text(text.drop_last()) + escaped(text.last())
    }
}

/// A JSON string.
pub open spec fn quoted(text: Seq<char>) -> Seq<char> {
    seq!['"'] + escaped_text(text) + seq!['"']
}

/// `serde_json::to_string` of a text: the text in double quotes, with the quote, the
/// backslash and the control characters below U+0020 escaped and every other character as
/// it is. A text can always be written.
#[verifier::external_body]
pub(crate) fn json_string(text: &str) -> (r: String)
    ensures
        r@ == quoted(text@),
{
    serde_json::to_string(text).unwrap_or_default()
}

// ---------------------------------------------------------------------------
// Values
// ---------------------------------------------------------------------------

/// A JSON value. Numbers keep the text they are written with, and objects the order of
/// their fields.
#[derive(Debug)]
pub enum Json {
    Null,
    Bool(bool),
    Number(String),
    Text(String),
    Array(Vec<Json>),
    Object(Vec<JsonField>),
}

#[derive(Debug)]
pub struct JsonField {
    pub name: String,
    pub value: Json,
}

pub enum JsonView {
    Null,
    Bool(bool),
    Number(Seq<char>),
    Text(Seq<char>),
    Array(Seq<JsonView>),
    Object(Seq<FieldView>),
}

pub struct FieldView {
    pub name: Seq<char>,
    pub value: JsonView,
}

pub open spec fn json_view(json: Json) -> JsonView
    decreases json,
{
    match json {
        Json::Null => JsonView::Null,
        Json::Bool(b) => JsonView::Bool(b),
        Json::Number(text) => JsonView::Number(text@),
        Json::Text(text) => JsonView::Text(text@),
        Json::Array(items) => JsonView::Array(
            Seq::new(
                items@.len(),
                |i: int|
                    if 0 <= i < items@.len() {
                        json_view(items@[i])
                    } else {
                        JsonView::Null
                    },
            ),
        ),
        Json::Object(fields) => JsonView::Object(
            Seq::new(
                fields@.len(),
                |i: int|
                    if 0 <= i < fields@.len() {
                        FieldView { name: fields@[i].name@, value: json_view(fields@[i].value) }
                    } else {
                        FieldView { name: seq![], value: JsonView::Null }
                    },
            ),
        ),
    }
}

impl View for Json {
    type V = JsonView;

    open spec fn view(&self) -> JsonView {
        json_view(*self)
    }
}

impl View for JsonField {
    type V = FieldView;

    open spec fn view(&self) -> FieldView {
        FieldView { name: self.name@, value: json_view(self.value) }
    }
}

/// A field of an object.
pub open spec fn field(name: Seq<char>, value: JsonView) -> FieldView {
    FieldView { name, value }
}

/// A text value.
pub fn text(value: &str) -> (r: Json)
    ensures
        r@ == JsonView::Text(value@),
{
    Json::Text(value.to_owned())
}

/// A number value, of the text it is written with.
pub fn number(value: &str) -> (r: Json)
    ensures
        r@ == JsonView::Number(value@),
{
    Json::Number(value.to_owned())
}

pub fn boolean(value: bool) -> (r: Json)
    ensures
        r@ == JsonView::Bool(value),
{
    Json::Bool(value)
}

pub fn null() -> (r: Json)
    ensures
        r@ == JsonView::Null,
{
    Json::Null
}

/// An array of some values.
pub fn array(items: Vec<Json>) -> (r: Json)
    ensures
        r@ == JsonView::Array(views(items@)),
{
    let r = Json::Array(items);
    assert(r@->Array_0 =~= views(items@));
    r
}

/// An object of some fields.
pub fn object(fields: Vec<JsonField>) -> (r: Json)
    ensures
        r@ == JsonView::Object(views(fields@)),
{
    let r = Json::Object(fields);
    assert(r@->Object_0 =~= views(fields@));
    r
}

/// Appends a field.
pub fn push_field(fields: &mut Vec<JsonField>, name: &str, value: Json)
    ensures
        views(final(fields)@) == views(old(fields)@).push(field(name@, value@)),
{
    let item = JsonField { name: name.to_owned(), value };
    proof {
        lemma_views_push(fields@, item);
    }
    fields.push(item);
}

/// Appends a field of text.
pub fn push_text_field(fields: &mut Vec<JsonField>, name: &str, value: &str)
    ensures
        views(final(fields)@) == views(old(fields)@).push(field(name@, JsonView::Text(value@))),
{
    push_field(fields, name, text(value));
}

/// An empty array.
pub fn no_items() -> (r: Json)
    ensures
        r@ == JsonView::Array(seq![]),
{
    let none: Vec<Json> = Vec::new();
    assert(views(none@) =~= seq![]);
    array(none)
}

/// An empty object.
pub fn no_fields() -> (r: Json)
    ensures
        r@ == JsonView::Object(seq![]),
{
    let none: Vec<JsonField> = Vec::new();
    assert(views(none@) =~= seq![]);
    object(none)
}

// ---------------------------------------------------------------------------
// Reading
// ---------------------------------------------------------------------------

/// `serde_json::Value`, a parsed JSON text.
#[verifier::external_type_specification]
#[verifier::external_body]
pub struct ExValue(serde_json::Value);

/// What a `serde_json::Value` holds.
pub uninterp spec fn value_json(value: serde_json::Value) -> JsonView;

/// What `serde_json::from_slice` makes of some bytes: a value, or what is wrong with them.
pub uninterp spec fn json_parse(bytes: Seq<u8>) -> Result<JsonView, Seq<char>>;

/// `serde_json::from_slice`, into a `serde_json::Value`.
#[verifier::external_body]
fn parse_value(bytes: &Vec<u8>) -> (r: Result<serde_json::Value, String>)
    ensures
        (match r {
            Ok(value) => json_parse(bytes@) == Ok::<JsonView, Seq<char>>(value_json(value)),
            Err(error) => json_parse(bytes@) == Err::<JsonView, Seq<char>>(error@),
        }),
{
    serde_json::from_slice::<serde_json::Value>(bytes).map_err(|e| e.to_string())
}

/// One level of a value.
pub enum Level {
    Null,
    Bool(bool),
    Number(String),
    Text(String),
    Array(Vec<serde_json::Value>),
    Object(Vec<(String, serde_json::Value)>),
}

/// What one level of a value holds.
pub open spec fn level_json(level: Level) -> JsonView {
    match level {
        Level::Null => JsonView::Null,
        Level::Bool(b) => JsonView::Bool(b),
        Level::Number(text) => JsonView::Number(text@),
        Level::Text(text) => JsonView::Text(text@),
        Level::Array(items) => JsonView::Array(
            items@.map_values(|item: serde_json::Value| value_json(item)),
        ),
        Level::Object(fields) => JsonView::Object(
            fields@.map_values(
                |entry: (String, serde_json::Value)|
                    FieldView { name: entry.0@, value: value_json(entry.1) },
            ),
        ),
    }
}

/// The variants of `serde_json::Value` told apart: a number by its text, an object by its
/// entries in the order in which the map gives them.
#[verifier::external_body]
fn open_value(value: serde_json::Value) -> (r: Level)
    ensures
        level_json(r) == value_json(value),
{
    match value {
        serde_json::Value::Null => Level::Null,
        serde_json::Value::Bool(b) => Level::Bool(b),
        serde_json::Value::Number(n) => Level::Number(n.to_string()),
        serde_json::Value::String(text) => Level::Text(text),
        serde_json::Value::Array(items) => Level::Array(items),
        serde_json::Value::Object(map) => Level::Object(map.into_iter().collect()),
    }
}

/// The value that a `serde_json::Value` holds.
pub fn from_value(value: serde_json::Value) -> (r: Json)
    ensures
        r@ == value_json(value),
    decreases value_json(value),
{
    match open_value(value) {
        Level::Null => Json::Null,
        Level::Bool(b) => Json::Bool(b),
        Level::Number(text) => Json::Number(text),
        Level::Text(text) => Json::Text(text),
        Level::Array(items) => {
            let ghost all = items@;
            let ghost want = items@.map_values(|item: serde_json::Value| value_json(item));
            let mut rest = items;
            let mut out: Vec<Json> = Vec::new();
            let n: usize = rest.len();
            let mut i: usize = 0;
            while i < n
                invariant
                    i <= n,
                    n == all.len(),
                    want == all.map_values(|item: serde_json::Value| value_json(item)),
                    value_json(value) == JsonView::Array(want),
                    rest@ == all.skip(i as int),
                    views(out@) =~= want.take(i as int),
                decreases n - i,
            {
                assert(rest@[0] == all[i as int]);
                let item = rest.remove(0);
                assert(want[i as int] == value_json(item));
                assert(decreases_to!(value_json(value) => value_json(value)->Array_0));
                assert(decreases_to!(want => want[i as int]));
                let json = from_value(item);
                push_view(&mut out, json);
                assert(rest@ =~= all.skip(i + 1));
                i = i + 1;
            }
            assert(views(out@) =~= want);
            array(out)
        },
        Level::Object(fields) => {
            let ghost all = fields@;
            let ghost want = fields@.map_values(
                |entry: (String, serde_json::Value)|
                    FieldView { name: entry.0@, value: value_json(entry.1) },
            );
            let mut rest = fields;
            let mut out: Vec<JsonField> = Vec::new();
            let n: usize = rest.len();
            let mut i: usize = 0;
            while i < n
                invariant
                    i <= n,
                    n == all.len(),
                    want == all.map_values(
                        |entry: (String, serde_json::Value)|
                            FieldView { name: entry.0@, value: value_json(entry.1) },
                    ),
                    value_json(value) == JsonView::Object(want),
                    rest@ == all.skip(i as int),
                    views(out@) =~= want.take(i as int),
                decreases n - i,
            {
                assert(rest@[0] == all[i as int]);
                let (name, item) = rest.remove(0);
                assert(want[i as int].value == value_json(item));
                assert(decreases_to!(value_json(value) => value_json(value)->Object_0));
                assert(decreases_to!(want => want[i as int]));
                assert(decreases_to!(want[i as int] => want[i as int].value));
                let json = from_value(item);
                push_view(&mut out, JsonField { name, value: json });
                assert(rest@ =~= all.skip(i + 1));
                i = i + 1;
            }
            assert(views(out@) =~= want);
            object(out)
        },
    }
}

/// Reads JSON text.
pub fn parse_json(bytes: &Vec<u8>) -> (r: Result<Json, String>)
    ensures
        (match r {
            Ok(json) => json_parse(bytes@) == Ok::<JsonView, Seq<char>>(json@),
            Err(error) => json_parse(bytes@) == Err::<JsonView, Seq<char>>(error@),
        }),
{
    match parse_value(bytes) {
        Ok(value) => Ok(from_value(value)),
        Err(error) => Err(error),
    }
}

// ---------------------------------------------------------------------------
// Writing
// ---------------------------------------------------------------------------

/// The fields of an object with one more: in the order of their names, and in the place of one
/// that has its name.
pub open spec fn filed(fields: Seq<FieldView>, one: FieldView) -> Seq<FieldView>
    decreases fields.len(),
{
    if fields.len() == 0 {
        seq![one]
    } else if fields.last().name == one.name {
        fields.drop_last().push(one)
    } else if text_before(fields.last().name, one.name) {
        fields.push(one)
    } else {
        filed(fields.drop_last(), one).push(fields.last())
    }
}

/// Fields in the order of their names. Of two with one name the later one stays.
pub open spec fn by_name(fields: Seq<FieldView>) -> Seq<FieldView>
    decreases fields.len(),
{
    if fields.len() == 0 {
        seq![]
    } else {
        filed(by_name(fields.drop_last()), fields.last())
    }
}

/// What a value is once it is written: a number as it is read from its text, or null where its
/// text is none, and the fields of an object in the order of their names.
pub open spec fn kept(json: JsonView) -> JsonView
    decreases json,
{
    match json {
        JsonView::Null => JsonView::Null,
        JsonView::Bool(b) => JsonView::Bool(b),
        JsonView::Number(text) => match json_parse(vstd::utf8::encode_utf8(text)) {
            Ok(value) => value,
            Err(_) => JsonView::Null,
        },
        JsonView::Text(text) => JsonView::Text(text),
        JsonView::Array(items) => JsonView::Array(kept_items(items)),
        JsonView::Object(fields) => JsonView::Object(by_name(kept_fields(fields))),
    }
}

pub open spec fn kept_items(items: Seq<JsonView>) -> Seq<JsonView>
    decreases items,
{
    if items.len() == 0 {
        seq![]
    } else {
        kept_items(items.drop_last()).push(kept(items[items.len() - 1]))
    }
}

pub open spec fn kept_fields(fields: Seq<FieldView>) -> Seq<FieldView>
    decreases fields,
{
    if fields.len() == 0 {
        seq![]
    } else {
        let last = fields[fields.len() - 1];
        kept_fields(fields.drop_last()).push(
            FieldView { name: last.name, value: kept(last.value) },
        )
    }
}

/// What a value other than a number is made of.
pub enum Part {
    Null,
    Bool(bool),
    Text(String),
    Array(Vec<serde_json::Value>),
    Object(Vec<(String, serde_json::Value)>),
}

pub open spec fn items_json(items: Seq<serde_json::Value>) -> Seq<JsonView> {
    items.map_values(|item: serde_json::Value| value_json(item))
}

pub open spec fn entries_json(fields: Seq<(String, serde_json::Value)>) -> Seq<FieldView> {
    fields.map_values(
        |entry: (String, serde_json::Value)|
            FieldView { name: entry.0@, value: value_json(entry.1) },
    )
}

/// What a value holds that is made of a part.
pub open spec fn part_json(part: Part) -> JsonView {
    match part {
        Part::Null => JsonView::Null,
        Part::Bool(b) => JsonView::Bool(b),
        Part::Text(text) => JsonView::Text(text@),
        Part::Array(items) => JsonView::Array(items_json(items@)),
        Part::Object(fields) => JsonView::Object(by_name(entries_json(fields@))),
    }
}

/// The variants of `serde_json::Value`, made. A `serde_json::Map` that is collected from entries
/// holds them in the order of their names, and of two with one name the later one.
#[verifier::external_body]
fn make_value(part: Part) -> (r: serde_json::Value)
    ensures
        value_json(r) == part_json(part),
{
    match part {
        Part::Null => serde_json::Value::Null,
        Part::Bool(b) => serde_json::Value::Bool(b),
        Part::Text(text) => serde_json::Value::String(text),
        Part::Array(items) => serde_json::Value::Array(items),
        Part::Object(fields) => serde_json::Value::Object(fields.into_iter().collect()),
    }
}

/// The `serde_json::Value` that a value is written by.
pub fn to_value(json: &Json) -> (r: serde_json::Value)
    ensures
        value_json(r) == kept(json@),
    decreases json@,
{
    match json {
        Json::Null => make_value(Part::Null),
        Json::Bool(b) => make_value(Part::Bool(*b)),
        Json::Number(text) => match parse_value(&text.as_str().as_bytes_vec()) {
            Ok(value) => value,
            Err(_) => make_value(Part::Null),
        },
        Json::Text(text) => make_value(Part::Text(text.clone())),
        Json::Array(items) => {
            let ghost all = json@->Array_0;
            let mut out: Vec<serde_json::Value> = Vec::new();
            let mut i: usize = 0;
            assert(all.take(0) =~= seq![]);
            while i < items.len()
                invariant
                    i <= items@.len(),
                    json@ == JsonView::Array(all),
                    all.len() == items@.len(),
                    forall|k: int| 0 <= k < all.len() ==> #[trigger] all[k] == items@[k]@,
                    items_json(out@) =~= kept_items(all.take(i as int)),
                decreases items@.len() - i,
            {
                assert(all[i as int] == items@[i as int]@);
                assert(decreases_to!(json@ => json@->Array_0));
                assert(decreases_to!(all => all[i as int]));
                let value = to_value(&items[i]);
                proof {
                    assert(all.take(i + 1).drop_last() =~= all.take(i as int));
                    assert(items_json(out@.push(value)) =~= items_json(out@).push(
                        value_json(value),
                    ));
                }
                out.push(value);
                i = i + 1;
            }
            assert(all.take(i as int) =~= all);
            make_value(Part::Array(out))
        },
        Json::Object(fields) => {
            let ghost all = json@->Object_0;
            let mut out: Vec<(String, serde_json::Value)> = Vec::new();
            let mut i: usize = 0;
            assert(all.take(0) =~= seq![]);
            while i < fields.len()
                invariant
                    i <= fields@.len(),
                    json@ == JsonView::Object(all),
                    all.len() == fields@.len(),
                    forall|k: int| 0 <= k < all.len() ==> #[trigger] all[k] == fields@[k]@,
                    entries_json(out@) =~= kept_fields(all.take(i as int)),
                decreases fields@.len() - i,
            {
                assert(all[i as int] == fields@[i as int]@);
                assert(decreases_to!(json@ => json@->Object_0));
                assert(decreases_to!(all => all[i as int]));
                assert(decreases_to!(all[i as int] => all[i as int].value));
                let value = to_value(&fields[i].value);
                let entry = (fields[i].name.clone(), value);
                proof {
                    assert(all.take(i + 1).drop_last() =~= all.take(i as int));
                    assert(entries_json(out@.push(entry)) =~= entries_json(out@).push(
                        FieldView { name: entry.0@, value: value_json(entry.1) },
                    ));
                }
                out.push(entry);
                i = i + 1;
            }
            assert(all.take(i as int) =~= all);
            make_value(Part::Object(out))
        },
    }
}

/// The text that `serde_json::to_string_pretty` writes for a value.
pub uninterp spec fn pretty_text(value: JsonView) -> Seq<char>;

/// `serde_json::to_string_pretty`, of a `serde_json::Value`: the text of what the value holds. It
/// fails for no such value, since the names in an object are text.
#[verifier::external_body]
fn pretty(value: &serde_json::Value) -> (r: String)
    ensures
        r@ == pretty_text(value_json(*value)),
{
    serde_json::to_string_pretty(value).unwrap_or_default()
}

/// A text with the line feed that ends its last line.
pub fn end_line(text: String) -> (r: String)
    ensures
        r@ == text@.push('\n'),
{
    let mut out = text;
    push_char(&mut out, '\n');
    out
}

/// A value as the text of a file.
pub fn to_text(json: &Json) -> (r: String)
    ensures
        r@ == pretty_text(kept(json@)).push('\n'),
{
    end_line(pretty(&to_value(json)))
}

} // verus!
