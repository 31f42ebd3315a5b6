//! Reading the arguments of an operation.

use crate::error::{Error, ErrorView};
use crate::float_text::{float_value, read_float, Float};
use crate::json::{FieldView, Json, JsonView};
use crate::text::{join, joined, push_text, same, strings};
use crate::rational::floored;
use crate::time::{Fps, Time};
use crate::time_text::{not_a_time, time_at};
use crate::views::views;
use vstd::prelude::*;

verus! {

pub open spec fn names(list: Seq<&'static str>) -> Seq<Seq<char>> {
    list.map_values(|name: &'static str| name@)
}

/// The first field of that name.
pub open spec fn field_value(fields: Seq<FieldView>, name: Seq<char>) -> Option<JsonView>
    decreases fields.len(),
{
    if fields.len() == 0 {
        None
    } else if fields[0].name == name {
        Some(fields[0].value)
    } else {
        field_value(fields.skip(1), name)
    }
}

/// The value of an argument: what an object has under that name.
pub open spec fn argument(args: JsonView, name: Seq<char>) -> Option<JsonView> {
    match args {
        JsonView::Object(fields) => field_value(fields, name),
        _ => None,
    }
}

/// The first field whose name is not allowed.
pub open spec fn unknown_name(fields: Seq<FieldView>, allowed: Seq<Seq<char>>) -> Option<Seq<char>>
    decreases fields.len(),
{
    if fields.len() == 0 {
        None
    } else if allowed.contains(fields[0].name) {
        unknown_name(fields.skip(1), allowed)
    } else {
        Some(fields[0].name)
    }
}

pub open spec fn unknown_argument(name: Seq<char>, allowed: Seq<Seq<char>>) -> ErrorView {
    ErrorView::BadArgs("unknown argument '"@ + name + "'; the arguments are "@ + join(allowed, ", "@))
}

/// Why the arguments are refused, if one of them is not known.
pub open spec fn refusal(args: JsonView, allowed: Seq<Seq<char>>) -> Option<ErrorView> {
    match args {
        JsonView::Object(fields) => match unknown_name(fields, allowed) {
            Some(name) => Some(unknown_argument(name, allowed)),
            None => None,
        },
        _ => None,
    }
}

/// A text argument, where it is given as one.
pub open spec fn text_argument(args: JsonView, name: Seq<char>) -> Option<Seq<char>> {
    match argument(args, name) {
        Some(JsonView::Text(text)) => Some(text),
        _ => None,
    }
}

pub open spec fn missing_text(name: Seq<char>) -> ErrorView {
    ErrorView::BadArgs("missing argument '"@ + name + "': text is required"@)
}

fn has_name(allowed: &Vec<&'static str>, name: &str) -> (r: bool)
    ensures
        r == names(allowed@).contains(name@),
{
    let mut i: usize = 0;
    while i < allowed.len()
        invariant
            i <= allowed@.len(),
            forall|k: int| 0 <= k < i ==> names(allowed@)[k] != name@,
        decreases allowed@.len() - i,
    {
        if same(allowed[i], name) {
            assert(names(allowed@)[i as int] == name@);
            return true;
        }
        i = i + 1;
    }
    false
}

fn listed(allowed: &Vec<&'static str>) -> (r: String)
    ensures
        r@ == join(names(allowed@), ", "@),
{
    let mut parts: Vec<String> = Vec::new();
    let mut i: usize = 0;
    while i < allowed.len()
        invariant
            i <= allowed@.len(),
            strings(parts@) =~= names(allowed@).take(i as int),
        decreases allowed@.len() - i,
    {
        push_text(&mut parts, allowed[i]);
        i = i + 1;
    }
    assert(strings(parts@) =~= names(allowed@));
    joined(&parts, ", ")
}

/// Refuses arguments that are not among the known ones.
pub fn reject_unknown(args: &Json, allowed: Vec<&'static str>) -> (r: Result<(), Error>)
    ensures
        (match r {
            Ok(()) => refusal(args@, names(allowed@)) is None,
            Err(error) => refusal(args@, names(allowed@)) == Some(error@),
        }),
{
    if let Json::Object(fields) = args {
        let ghost all = views(fields@);
        assert(args@->Object_0 =~= all);
        let mut i: usize = 0;
        assert(all.skip(0) =~= all);
        while i < fields.len()
            invariant
                i <= fields@.len(),
                all == views(fields@),
                args@ == JsonView::Object(all),
                unknown_name(all.skip(i as int), names(allowed@)) == unknown_name(
                    all,
                    names(allowed@),
                ),
            decreases fields@.len() - i,
        {
            proof {
                assert(all.skip(i as int)[0] == fields@[i as int]@);
                assert(all.skip(i as int).skip(1) =~= all.skip(i + 1));
            }
            if !has_name(&allowed, fields[i].name.as_str()) {
                let mut detail = "unknown argument '".to_owned();
                detail.append(fields[i].name.as_str());
                detail.append("'; the arguments are ");
                detail.append(listed(&allowed).as_str());
                return Err(Error::BadArgs(detail));
            }
            i = i + 1;
        }
        assert(all.skip(i as int) =~= seq![]);
    }
    Ok(())
}

/// The value of an argument.
pub fn get<'a>(args: &'a Json, name: &str) -> (r: Option<&'a Json>)
    ensures
        (match r {
            Some(value) => argument(args@, name@) == Some(value@),
            None => argument(args@, name@) is None,
        }),
{
    if let Json::Object(fields) = args {
        let ghost all = views(fields@);
        assert(args@->Object_0 =~= all);
        let mut i: usize = 0;
        assert(all.skip(0) =~= all);
        while i < fields.len()
            invariant
                i <= fields@.len(),
                all == views(fields@),
                args@ == JsonView::Object(all),
                field_value(all.skip(i as int), name@) == field_value(all, name@),
            decreases fields@.len() - i,
        {
            proof {
                assert(all.skip(i as int)[0] == fields@[i as int]@);
                assert(all.skip(i as int).skip(1) =~= all.skip(i + 1));
            }
            if same(fields[i].name.as_str(), name) {
                return Some(&fields[i].value);
            }
            i = i + 1;
        }
        assert(all.skip(i as int) =~= seq![]);
    }
    None
}

/// A text argument that may be left out.
pub fn opt_str<'a>(args: &'a Json, name: &str) -> (r: Option<&'a String>)
    ensures
        (match r {
            Some(text) => text_argument(args@, name@) == Some(text@),
            None => text_argument(args@, name@) is None,
        }),
{
    match get(args, name) {
        Some(Json::Text(text)) => Some(text),
        _ => None,
    }
}

/// A text argument that has to be there.
pub fn str_field<'a>(args: &'a Json, name: &str) -> (r: Result<&'a String, Error>)
    ensures
        (match r {
            Ok(text) => text_argument(args@, name@) == Some(text@),
            Err(error) => text_argument(args@, name@) is None && error@ == missing_text(name@),
        }),
{
    match opt_str(args, name) {
        Some(text) => Ok(text),
        None => {
            let mut detail = "missing argument '".to_owned();
            detail.append(name);
            detail.append("': text is required");
            Err(Error::BadArgs(detail))
        },
    }
}

// ---------------------------------------------------------------------------
// Other kinds of values
// ---------------------------------------------------------------------------

/// Whether an argument is not there, or there as nothing.
pub open spec fn is_absent(value: Option<JsonView>) -> bool {
    value is None || value == Some(JsonView::Null)
}

pub open spec fn not_a_switch(name: Seq<char>) -> ErrorView {
    ErrorView::BadArgs("argument '"@ + name + "' must be true or false"@)
}

pub open spec fn not_a_number(name: Seq<char>) -> ErrorView {
    ErrorView::BadArgs("argument '"@ + name + "' must be a number"@)
}

pub open spec fn not_a_list(name: Seq<char>) -> ErrorView {
    ErrorView::BadArgs("argument '"@ + name + "' must be a list of texts"@)
}

/// A switch that may be left out.
pub open spec fn switch_argument(args: JsonView, name: Seq<char>) -> Result<Option<bool>, ErrorView> {
    match argument(args, name) {
        Some(JsonView::Bool(b)) => Ok(Some(b)),
        other => if is_absent(other) {
            Ok(None)
        } else {
            Err(not_a_switch(name))
        },
    }
}

/// A number that may be left out.
pub open spec fn number_argument(args: JsonView, name: Seq<char>) -> Result<Option<Float>, ErrorView> {
    match argument(args, name) {
        Some(JsonView::Number(text)) => Ok(Some(float_value(text))),
        other => if is_absent(other) {
            Ok(None)
        } else {
            Err(not_a_number(name))
        },
    }
}

pub open spec fn all_texts(items: Seq<JsonView>) -> bool {
    forall|i: int| 0 <= i < items.len() ==> (#[trigger] items[i]) is Text
}

pub open spec fn texts_in(items: Seq<JsonView>) -> Seq<Seq<char>> {
    items.map_values(|item: JsonView| item->Text_0)
}

/// A list of texts; empty where the argument is not a list.
pub open spec fn list_argument(args: JsonView, name: Seq<char>) -> Result<
    Seq<Seq<char>>,
    ErrorView,
> {
    match argument(args, name) {
        Some(JsonView::Array(items)) => if all_texts(items) {
            Ok(texts_in(items))
        } else {
            Err(not_a_list(name))
        },
        _ => Ok(seq![]),
    }
}

/// How an argument that is a text or a number is spelled.
pub open spec fn spelled(args: JsonView, name: Seq<char>) -> Option<Seq<char>> {
    match argument(args, name) {
        Some(JsonView::Text(text)) => Some(text),
        Some(JsonView::Number(text)) => Some(text),
        _ => None,
    }
}

/// A time that may be left out. A bare number is one of seconds.
pub open spec fn time_argument(args: JsonView, name: Seq<char>, fps: Fps) -> Result<
    Option<Time>,
    ErrorView,
> {
    match spelled(args, name) {
        None => Ok(None),
        Some(text) => match time_at(text, fps) {
            Some(time) => Ok(Some(time)),
            None => Err(not_a_time(text)),
        },
    }
}

fn complaint(name: &str, rest: &str) -> (r: Error)
    ensures
        r@ == ErrorView::BadArgs("argument '"@ + name@ + rest@),
{
    let mut detail = "argument '".to_owned();
    detail.append(name);
    detail.append(rest);
    Error::BadArgs(detail)
}

pub fn opt_bool(args: &Json, name: &str) -> (r: Result<Option<bool>, Error>)
    ensures
        (match r {
            Ok(value) => switch_argument(args@, name@) == Ok::<Option<bool>, ErrorView>(value),
            Err(error) => switch_argument(args@, name@) == Err::<Option<bool>, ErrorView>(error@),
        }),
{
    match get(args, name) {
        None => Ok(None),
        Some(Json::Bool(b)) => Ok(Some(*b)),
        Some(Json::Null) => Ok(None),
        Some(_) => Err(complaint(name, "' must be true or false")),
    }
}

pub fn opt_number(args: &Json, name: &str) -> (r: Result<Option<Float>, Error>)
    ensures
        (match r {
            Ok(value) => number_argument(args@, name@) == Ok::<Option<Float>, ErrorView>(value),
            Err(error) => number_argument(args@, name@) == Err::<Option<Float>, ErrorView>(error@),
        }),
        r matches Ok(Some(Float::Finite(v))) ==> v.wf(),
{
    match get(args, name) {
        None => Ok(None),
        Some(Json::Number(text)) => match read_float(text.as_str()) {
            Some(value) => Ok(Some(value)),
            None => Ok(Some(Float::Special)),
        },
        Some(Json::Null) => Ok(None),
        Some(_) => Err(complaint(name, "' must be a number")),
    }
}

pub fn string_list(args: &Json, name: &str) -> (r: Result<Vec<String>, Error>)
    ensures
        (match r {
            Ok(list) => list_argument(args@, name@) == Ok::<Seq<Seq<char>>, ErrorView>(
                strings(list@),
            ),
            Err(error) => list_argument(args@, name@) == Err::<Seq<Seq<char>>, ErrorView>(error@),
        }),
{
    let mut out: Vec<String> = Vec::new();
    if let Some(Json::Array(items)) = get(args, name) {
        let ghost all = views(items@);
        assert(argument(args@, name@) == Some(JsonView::Array(all))) by {
            assert(argument(args@, name@)->0->Array_0 =~= all);
        }
        let mut i: usize = 0;
        assert(strings(out@) =~= texts_in(all).take(0));
        while i < items.len()
            invariant
                i <= items@.len(),
                all == views(items@),
                argument(args@, name@) == Some(JsonView::Array(all)),
                forall|k: int| 0 <= k < i ==> (#[trigger] all[k]) is Text,
                strings(out@) =~= texts_in(all).take(i as int),
            decreases items@.len() - i,
        {
            assert(all[i as int] == items@[i as int]@);
            match &items[i] {
                Json::Text(text) => {
                    push_text(&mut out, text.as_str());
                },
                _ => {
                    assert(!(all[i as int] is Text));
                    return Err(complaint(name, "' must be a list of texts"));
                },
            }
            i = i + 1;
        }
        assert(strings(out@) =~= texts_in(all));
    }
    assert(argument(args@, name@) matches Some(JsonView::Array(_)) || strings(out@) =~= seq![]);
    Ok(out)
}

pub fn opt_time(args: &Json, name: &str, fps: Fps) -> (r: Result<Option<Time>, Error>)
    requires
        fps.wf(),
    ensures
        (match r {
            Ok(value) => time_argument(args@, name@, fps) == Ok::<Option<Time>, ErrorView>(value)
                && (value is Some ==> value->0.wf()),
            Err(error) => time_argument(args@, name@, fps) == Err::<Option<Time>, ErrorView>(
                error@,
            ),
        }),
{
    let text = match get(args, name) {
        Some(Json::Text(text)) => text,
        Some(Json::Number(text)) => text,
        _ => return Ok(None),
    };
    match Time::parse_with_fps(text.as_str(), fps) {
        Ok(time) => Ok(Some(time)),
        Err(error) => Err(error),
    }
}

pub open spec fn missing_time(name: Seq<char>) -> ErrorView {
    ErrorView::BadArgs("missing argument '"@ + name + "': a time is required"@)
}

/// A time that has to be there.
pub open spec fn required_time(args: JsonView, name: Seq<char>, fps: Fps) -> Result<
    Time,
    ErrorView,
> {
    match time_argument(args, name, fps) {
        Err(error) => Err(error),
        Ok(None) => Err(missing_time(name)),
        Ok(Some(time)) => Ok(time),
    }
}

pub fn time_field(args: &Json, name: &str, fps: Fps) -> (r: Result<Time, Error>)
    requires
        fps.wf(),
    ensures
        (match r {
            Ok(time) => required_time(args@, name@, fps) == Ok::<Time, ErrorView>(time)
                && time.wf(),
            Err(error) => required_time(args@, name@, fps) == Err::<Time, ErrorView>(error@),
        }),
{
    match opt_time(args, name, fps) {
        Err(error) => Err(error),
        Ok(Some(time)) => Ok(time),
        Ok(None) => {
            let mut detail = "missing argument '".to_owned();
            detail.append(name);
            detail.append("': a time is required");
            Err(Error::BadArgs(detail))
        },
    }
}

/// A number of at least `least` as a whole one of 32 bits, cut towards zero.
pub open spec fn whole_at_least(value: Float, least: u32) -> u32 {
    match value {
        Float::Finite(rate) => {
            let n = rate.num as int / rate.den as int;
            if n < least {
                least
            } else if n > u32::MAX {
                u32::MAX
            } else {
                n as u32
            }
        },
        _ => least,
    }
}

pub fn at_least(value: Float, least: u32) -> (r: u32)
    requires
        value matches Float::Finite(rate) ==> rate.wf(),
    ensures
        r == whole_at_least(value, least),
{
    match value {
        Float::Finite(rate) => {
            let n: i128 = floored(rate.num as i128, rate.den as i128);
            if n < least as i128 {
                least
            } else if n > u32::MAX as i128 {
                u32::MAX
            } else {
                n as u32
            }
        },
        _ => least,
    }
}

} // verus!
