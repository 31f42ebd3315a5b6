//! What a media file is, according to ffprobe.
//!
//! Color range and matrix are what the file claims, or unknown, and never guessed. A rate
//! is the average one: the nominal rate of a file with variable timing is a lie, and where
//! the two disagree the file is marked.

use crate::args::{argument, get};
use crate::error::{Error, ErrorView};
use crate::float_text::{float_value, is_float, read_float, Float};
use crate::json::{json_parse, parse_json, Json, JsonView};
use crate::paths::{extension, extension_of};
use crate::project::{
    opt_text, AssetKind, AudioStream, AudioView, ColorMatrix, ColorRange, Probe, ProbeView,
    VideoStream, VideoView,
};
use crate::rational::{abs, round_half_away, rounded, Rat};
use crate::text::{
    chars_of, find, find_from, parse_i64, parse_number, parse_u32, parse_unsigned, same,
    same_folded, slice_of,
};
use crate::time::{Fps, Time};
use crate::time_text::time_of;
use crate::views::views;
use vstd::prelude::*;

verus! {

/// What ffprobe reports of a file, and what kind of asset that makes it.
#[derive(Clone, Debug)]
pub struct Probed {
    pub probe: Probe,
    pub kind: AssetKind,
}

pub struct ProbedView {
    pub probe: ProbeView,
    pub kind: AssetKind,
}

impl View for Probed {
    type V = ProbedView;

    open spec fn view(&self) -> ProbedView {
        ProbedView { probe: self.probe@, kind: self.kind }
    }
}

// ---------------------------------------------------------------------------
// Fields
// ---------------------------------------------------------------------------

/// A field of a field.
pub open spec fn inner(value: Option<JsonView>, key: Seq<char>) -> Option<JsonView> {
    match value {
        Some(v) => argument(v, key),
        None => None,
    }
}

pub open spec fn as_text(value: Option<JsonView>) -> Option<Seq<char>> {
    match value {
        Some(JsonView::Text(text)) => Some(text),
        _ => None,
    }
}

/// A number that is a whole one of 64 bits.
pub open spec fn as_whole(value: Option<JsonView>) -> Option<i64> {
    match value {
        Some(JsonView::Number(text)) => parse_i64(text),
        _ => None,
    }
}

pub open spec fn as_items(value: Option<JsonView>) -> Seq<JsonView> {
    match value {
        Some(JsonView::Array(items)) => items,
        _ => seq![],
    }
}

pub open spec fn text_at(value: JsonView, key: Seq<char>) -> Option<Seq<char>> {
    as_text(argument(value, key))
}

pub open spec fn int_at(value: JsonView, key: Seq<char>) -> Option<i64> {
    as_whole(argument(value, key))
}

pub open spec fn or_empty(text: Option<Seq<char>>) -> Seq<char> {
    match text {
        Some(t) => t,
        None => seq![],
    }
}

/// A whole number given as text.
pub open spec fn number_text_at(value: JsonView, key: Seq<char>) -> Option<i64> {
    match text_at(value, key) {
        Some(text) => parse_i64(text),
        None => None,
    }
}

pub open spec fn or_zero(n: Option<i64>) -> int {
    match n {
        Some(v) => v as int,
        None => 0,
    }
}

/// A number cut to 32 bits.
pub open spec fn cut32(n: int) -> u32 {
    (n % 0x1_0000_0000) as u32
}

/// `n/d`, both positive.
pub open spec fn rate_of(text: Option<Seq<char>>) -> Option<Fps> {
    match text {
        None => None,
        Some(s) => {
            let at = find(s, '/');
            if at >= s.len() {
                None
            } else {
                match (parse_i64(s.take(at)), parse_i64(s.skip(at + 1))) {
                    (Some(num), Some(den)) => if num > 0 && den > 0 {
                        Some(Fps { rate: Rat::of(num as int, den as int) })
                    } else {
                        None
                    },
                    _ => None,
                }
            }
        },
    }
}

/// `w:h`, both positive; one where it is not.
pub open spec fn aspect_of(text: Option<Seq<char>>) -> Rat {
    let one = Rat { num: 1, den: 1 };
    match text {
        None => one,
        Some(s) => {
            let at = find(s, ':');
            if at >= s.len() {
                one
            } else {
                match (parse_i64(s.take(at)), parse_i64(s.skip(at + 1))) {
                    (Some(num), Some(den)) => if num > 0 && den > 0 {
                        Rat::of(num as int, den as int)
                    } else {
                        one
                    },
                    _ => one,
                }
            }
        },
    }
}

pub open spec fn default_rate() -> Fps {
    Fps { rate: Rat { num: 30, den: 1 } }
}

/// The rate of a stream: its average, else its nominal one, else the default.
pub open spec fn stream_rate(stream: JsonView) -> Fps {
    match rate_of(text_at(stream, "avg_frame_rate"@)) {
        Some(fps) => fps,
        None => match rate_of(text_at(stream, "r_frame_rate"@)) {
            Some(fps) => fps,
            None => default_rate(),
        },
    }
}

/// Whether the nominal rate differs from the average by more than one fiftieth of it.
pub open spec fn rates_differ(nominal: Fps, average: Fps) -> bool {
    let a = nominal.rate.num * average.rate.den;
    let b = average.rate.num * nominal.rate.den;
    abs(a - b) * 50 > b
}

pub open spec fn is_variable(stream: JsonView) -> bool {
    match (rate_of(text_at(stream, "r_frame_rate"@)), rate_of(text_at(stream, "avg_frame_rate"@))) {
        (Some(nominal), Some(average)) => rates_differ(nominal, average),
        _ => false,
    }
}

/// Whole degrees, in 32 bits. What is not an exact number counts as none.
pub open spec fn degrees(value: Float) -> i32 {
    match value {
        Float::Finite(rate) => {
            let n = round_half_away(rate.num as int, rate.den as int);
            if n < i32::MIN {
                i32::MIN
            } else if n > i32::MAX {
                i32::MAX
            } else {
                n as i32
            }
        },
        _ => 0,
    }
}

/// The first rotation that a list of side data states.
pub open spec fn listed_rotation(items: Seq<JsonView>) -> Option<i32>
    decreases items.len(),
{
    if items.len() == 0 {
        None
    } else {
        match argument(items[0], "rotation"@) {
            Some(JsonView::Number(text)) => Some(degrees(float_value(text))),
            _ => listed_rotation(items.skip(1)),
        }
    }
}

/// The rotation of a stream: from its side data, else from its tag.
pub open spec fn rotation_of(stream: JsonView) -> i32 {
    match listed_rotation(as_items(argument(stream, "side_data_list"@))) {
        Some(turn) => turn,
        None => match as_text(inner(argument(stream, "tags"@), "rotate"@)) {
            Some(text) => if is_float(text) {
                degrees(float_value(text))
            } else {
                0
            },
            None => 0,
        },
    }
}

pub open spec fn range_of(text: Option<Seq<char>>) -> ColorRange {
    match text {
        Some(name) => if name == "tv"@ || name == "limited"@ {
            ColorRange::Tv
        } else if name == "pc"@ || name == "full"@ {
            ColorRange::Pc
        } else {
            ColorRange::Unknown
        },
        None => ColorRange::Unknown,
    }
}

pub open spec fn matrix_of(text: Option<Seq<char>>) -> ColorMatrix {
    match text {
        Some(name) => if name == "bt709"@ {
            ColorMatrix::Bt709
        } else if name == "bt470bg"@ || name == "smpte170m"@ || name == "bt601"@ {
            ColorMatrix::Bt601
        } else if name == "bt2020nc"@ || name == "bt2020_ncl"@ {
            ColorMatrix::Bt2020Ncl
        } else if name == "smpte240m"@ {
            ColorMatrix::Smpte240m
        } else {
            ColorMatrix::Unknown
        },
        None => ColorMatrix::Unknown,
    }
}

/// A picture without width or height is refused.
pub open spec fn no_size(stream: JsonView) -> bool {
    cut32(or_zero(int_at(stream, "width"@))) == 0 || cut32(or_zero(int_at(stream, "height"@))) == 0
}

pub open spec fn zero_dimension() -> ErrorView {
    ErrorView::Tool { tool: "ffprobe"@, detail: "video stream reports a zero dimension"@ }
}

pub open spec fn video_of(stream: JsonView) -> VideoView {
    VideoView {
        stream_index: cut32(or_zero(int_at(stream, "index"@))),
        width: cut32(or_zero(int_at(stream, "width"@))),
        height: cut32(or_zero(int_at(stream, "height"@))),
        fps: stream_rate(stream),
        codec: or_empty(text_at(stream, "codec_name"@)),
        pix_fmt: or_empty(text_at(stream, "pix_fmt"@)),
        color_range: range_of(text_at(stream, "color_range"@)),
        color_matrix: matrix_of(text_at(stream, "color_space"@)),
        color_primaries: text_at(stream, "color_primaries"@),
        transfer: text_at(stream, "color_transfer"@),
        rotation: rotation_of(stream),
        sar: aspect_of(text_at(stream, "sample_aspect_ratio"@)),
        frames: match number_text_at(stream, "nb_frames"@) {
            Some(n) => Some(n),
            None => int_at(stream, "nb_frames"@),
        },
        bit_rate: number_text_at(stream, "bit_rate"@),
    }
}

pub open spec fn audio_of(stream: JsonView) -> AudioView {
    AudioView {
        stream_index: cut32(or_zero(int_at(stream, "index"@))),
        rate: match text_at(stream, "sample_rate"@) {
            Some(text) => match parse_u32(text) {
                Some(rate) => rate,
                None => 48_000,
            },
            None => 48_000,
        },
        channels: (match int_at(stream, "channels"@) {
            Some(n) => n as int,
            None => 2,
        } % 0x1_0000) as u16,
        codec: or_empty(text_at(stream, "codec_name"@)),
        bit_rate: number_text_at(stream, "bit_rate"@),
    }
}

// ---------------------------------------------------------------------------
// The file
// ---------------------------------------------------------------------------

pub open spec fn is_kind(stream: JsonView, kind: Seq<char>) -> bool {
    text_at(stream, "codec_type"@) == Some(kind)
}

/// The first stream of a kind, or -1.
pub open spec fn first_of(streams: Seq<JsonView>, kind: Seq<char>) -> int
    decreases streams.len(),
{
    if streams.len() == 0 {
        -1
    } else {
        let before = first_of(streams.drop_last(), kind);
        if before >= 0 {
            before
        } else if is_kind(streams.last(), kind) {
            streams.len() - 1
        } else {
            -1
        }
    }
}

/// Whether a picture is the cover of an album rather than footage.
pub open spec fn is_cover(stream: JsonView) -> bool {
    as_whole(inner(argument(stream, "disposition"@), "attached_pic"@)) == Some(1i64)
}

/// The stream that is the footage, or -1.
pub open spec fn video_at(streams: Seq<JsonView>) -> int {
    let at = first_of(streams, "video"@);
    if at >= 0 && !is_cover(streams[at]) {
        at
    } else {
        -1
    }
}

/// The later of two instants, if there are any.
pub open spec fn later(a: Option<Time>, b: Option<Time>) -> Option<Time> {
    match (a, b) {
        (Some(x), Some(y)) => Some(y.spec_max(x)),
        (Some(x), None) => Some(x),
        (None, y) => y,
    }
}

pub open spec fn stated_duration(text: Option<Seq<char>>) -> Option<Time> {
    match text {
        Some(t) => time_of(t),
        None => None,
    }
}

/// The longest duration that a stream states.
pub open spec fn longest_stream(streams: Seq<JsonView>) -> Option<Time>
    decreases streams.len(),
{
    if streams.len() == 0 {
        None
    } else {
        later(
            longest_stream(streams.drop_last()),
            stated_duration(text_at(streams.last(), "duration"@)),
        )
    }
}

/// The duration of the file: as the container states it, else that of its longest stream.
pub open spec fn duration_of(json: JsonView, streams: Seq<JsonView>) -> Time {
    match stated_duration(as_text(inner(argument(json, "format"@), "duration"@))) {
        Some(time) => time,
        None => match longest_stream(streams) {
            Some(time) => time,
            None => Time::zero_spec(),
        },
    }
}

/// The kind that a file's name suggests.
pub open spec fn kind_by_name(path: Seq<char>) -> AssetKind {
    match extension_of(path) {
        None => AssetKind::Other,
        Some(ext) => if same_folded(ext, "png"@) || same_folded(ext, "jpg"@) || same_folded(
            ext,
            "jpeg"@,
        ) || same_folded(ext, "webp"@) || same_folded(ext, "tif"@) || same_folded(ext, "tiff"@)
            || same_folded(ext, "bmp"@) || same_folded(ext, "svg"@) {
            AssetKind::Image
        } else if same_folded(ext, "ttf"@) || same_folded(ext, "otf"@) || same_folded(ext, "woff"@)
            || same_folded(ext, "woff2"@) {
            AssetKind::Font
        } else if same_folded(ext, "cube"@) || same_folded(ext, "3dl"@) {
            AssetKind::Lut
        } else if same_folded(ext, "srt"@) || same_folded(ext, "vtt"@) || same_folded(ext, "ass"@) {
            AssetKind::Subtitle
        } else {
            AssetKind::Other
        },
    }
}

/// The kind of a file: by its streams, and by its name where it has none.
pub open spec fn kind_of(video: Option<VideoView>, audio: Option<AudioView>, path: Seq<char>) -> AssetKind {
    match video {
        Some(stream) => if stream.frames == Some(1i64) {
            AssetKind::Image
        } else {
            AssetKind::Video
        },
        None => if audio is Some {
            AssetKind::Audio
        } else {
            kind_by_name(path)
        },
    }
}

/// Whether any picture of the file has variable timing.
pub open spec fn any_variable(streams: Seq<JsonView>) -> bool {
    exists|i: int|
        0 <= i < streams.len() && is_kind(#[trigger] streams[i], "video"@) && is_variable(
            streams[i],
        )
}

pub open spec fn probed_of(json: JsonView, path: Seq<char>) -> Result<ProbedView, ErrorView> {
    let streams = as_items(argument(json, "streams"@));
    let at = video_at(streams);
    if at >= 0 && no_size(streams[at]) {
        Err(zero_dimension())
    } else {
        let video = if at >= 0 {
            Some(video_of(streams[at]))
        } else {
            None
        };
        let sound = first_of(streams, "audio"@);
        let audio = if sound >= 0 {
            Some(audio_of(streams[sound]))
        } else {
            None
        };
        Ok(
            ProbedView {
                probe: ProbeView {
                    duration: duration_of(json, streams),
                    video,
                    audio,
                    vfr: any_variable(streams),
                    container: or_empty(as_text(inner(argument(json, "format"@), "format_name"@))),
                },
                kind: kind_of(video, audio, path),
            },
        )
    }
}

// ---------------------------------------------------------------------------
// Reading
// ---------------------------------------------------------------------------

fn field_text<'a>(value: &'a Json, key: &str) -> (r: Option<&'a String>)
    ensures
        (match r {
            Some(text) => text_at(value@, key@) == Some(text@),
            None => text_at(value@, key@) is None,
        }),
{
    match get(value, key) {
        Some(Json::Text(text)) => Some(text),
        _ => None,
    }
}

fn inner_text<'a>(value: &'a Json, outer: &str, key: &str) -> (r: Option<&'a String>)
    ensures
        (match r {
            Some(text) => as_text(inner(argument(value@, outer@), key@)) == Some(text@),
            None => as_text(inner(argument(value@, outer@), key@)) is None,
        }),
{
    match get(value, outer) {
        Some(v) => field_text(v, key),
        None => None,
    }
}

fn whole(value: &Json) -> (r: Option<i64>)
    ensures
        r == as_whole(Some(value@)),
{
    match value {
        Json::Number(text) => parse_number(&chars_of(text.as_str())),
        _ => None,
    }
}

fn int_in(value: &Json, key: &str) -> (r: Option<i64>)
    ensures
        r == int_at(value@, key@),
{
    match get(value, key) {
        Some(v) => whole(v),
        None => None,
    }
}

fn number_in(value: &Json, key: &str) -> (r: Option<i64>)
    ensures
        r == number_text_at(value@, key@),
{
    match field_text(value, key) {
        Some(text) => parse_number(&chars_of(text.as_str())),
        None => None,
    }
}

fn text_or_empty(value: &Json, key: &str) -> (r: String)
    ensures
        r@ == or_empty(text_at(value@, key@)),
{
    match field_text(value, key) {
        Some(text) => text.clone(),
        None => {
            let none = String::new();
            assert(none@ =~= seq![]);
            none
        },
    }
}

fn opt_copy(value: &Json, key: &str) -> (r: Option<String>)
    ensures
        opt_text(r) == text_at(value@, key@),
{
    match field_text(value, key) {
        Some(text) => Some(text.clone()),
        None => None,
    }
}

fn int32(value: &Json, key: &str) -> (r: u32)
    ensures
        r == cut32(or_zero(int_at(value@, key@))),
{
    let n: i64 = match int_in(value, key) {
        Some(n) => n,
        None => 0,
    };
    cut(n as i128, 0x1_0000_0000) as u32
}

/// What is left of a number above the last multiple of `size` below it.
fn cut(n: i128, size: i128) -> (r: i128)
    requires
        0 < size <= 0x1_0000_0000,
        -0x8000_0000_0000_0000 <= n <= 0x7fff_ffff_ffff_ffff,
    ensures
        r == (n as int) % (size as int),
        0 <= r < size,
{
    let lifted: i128 = n + 0x1_0000_0000_0000_0000 * size;
    proof {
        let k: int = 0x1_0000_0000_0000_0000;
        let d = size as int;
        assert(0 <= k * d <= 0x1_0000_0000_0000_0000 * 0x1_0000_0000) by (nonlinear_arith)
            requires
                0 < d <= 0x1_0000_0000,
                k == 0x1_0000_0000_0000_0000,
        ;
        assert(k * d >= k) by (nonlinear_arith)
            requires
                0 < d,
                k == 0x1_0000_0000_0000_0000,
        ;
        vstd::arithmetic::div_mod::lemma_mod_multiples_vanish(k, n as int, d);
        assert(d * k + n == n + k * d) by (nonlinear_arith);
    }
    lifted % size
}

fn split_pair(text: &str, mark: char) -> (r: Option<(i64, i64)>)
    ensures
        ({
            let at = find(text@, mark);
            &&& at >= text@.len() ==> r is None
            &&& at < text@.len() ==> match (
                parse_i64(text@.take(at)),
                parse_i64(text@.skip(at + 1)),
            ) {
                (Some(a), Some(b)) => r == Some((a, b)),
                _ => r is None,
            }
        }),
{
    let chars = chars_of(text);
    let n: usize = chars.len();
    assert(chars@.skip(0) =~= chars@);
    let at: usize = find_from(&chars, 0, mark);
    if at >= n {
        return None;
    }
    let left = slice_of(&chars, 0, at);
    let right = slice_of(&chars, at + 1, n);
    assert(left@ =~= text@.take(at as int));
    assert(right@ =~= text@.skip(at + 1));
    match (parse_number(&left), parse_number(&right)) {
        (Some(a), Some(b)) => Some((a, b)),
        _ => None,
    }
}

fn parse_rate(text: Option<&String>) -> (r: Option<Fps>)
    ensures
        r == rate_of(match text {
            Some(t) => Some(t@),
            None => None,
        }),
        r is Some ==> r->0.wf(),
{
    match text {
        None => None,
        Some(text) => match split_pair(text.as_str(), '/') {
            Some((num, den)) => {
                if num > 0 && den > 0 {
                    match Fps::new(num, den) {
                        Ok(fps) => Some(fps),
                        Err(_) => None,
                    }
                } else {
                    None
                }
            },
            None => None,
        },
    }
}

fn parse_aspect(text: Option<&String>) -> (r: Rat)
    ensures
        r == aspect_of(match text {
            Some(t) => Some(t@),
            None => None,
        }),
        r.wf(),
{
    match text {
        None => Rat::one(),
        Some(text) => match split_pair(text.as_str(), ':') {
            Some((num, den)) => {
                if num > 0 && den > 0 {
                    proof {
                        crate::time::lemma_small_fits(num as int, den as int);
                    }
                    match Rat::new(num, den) {
                        Some(rate) => rate,
                        None => Rat::one(),
                    }
                } else {
                    Rat::one()
                }
            },
            None => Rat::one(),
        },
    }
}

/// Whether the nominal and the average rate of a stream disagree by more than a rounding.
fn is_variable_rate(stream: &Json) -> (r: bool)
    ensures
        r == is_variable(stream@),
{
    let nominal = parse_rate(field_text(stream, "r_frame_rate"));
    let average = parse_rate(field_text(stream, "avg_frame_rate"));
    match (nominal, average) {
        (Some(nominal), Some(average)) => {
            proof {
                crate::rational::lemma_wide(nominal.rate.num as int, average.rate.den as int);
                crate::rational::lemma_wide(average.rate.num as int, nominal.rate.den as int);
                crate::rational::lemma_product_positive(
                    average.rate.num as int,
                    nominal.rate.den as int,
                );
                crate::rational::lemma_product_positive(
                    nominal.rate.num as int,
                    average.rate.den as int,
                );
            }
            let a: i128 = (nominal.rate.num as i128) * (average.rate.den as i128);
            let b: i128 = (average.rate.num as i128) * (nominal.rate.den as i128);
            let gap: i128 = if a > b {
                a - b
            } else {
                b - a
            };
            gap > b / 50
        },
        _ => false,
    }
}

fn turn_of(value: Float) -> (r: i32)
    requires
        value matches Float::Finite(rate) ==> rate.wf(),
    ensures
        r == degrees(value),
{
    match value {
        Float::Finite(rate) => {
            let n: i128 = rounded(rate.num as i128, rate.den as i128);
            if n < i32::MIN as i128 {
                i32::MIN
            } else if n > i32::MAX as i128 {
                i32::MAX
            } else {
                n as i32
            }
        },
        _ => 0,
    }
}

fn rotation(stream: &Json) -> (r: i32)
    ensures
        r == rotation_of(stream@),
{
    if let Some(Json::Array(list)) = get(stream, "side_data_list") {
        let ghost all = views(list@);
        assert(as_items(argument(stream@, "side_data_list"@)) =~= all);
        let mut i: usize = 0;
        assert(all.skip(0) =~= all);
        while i < list.len()
            invariant
                i <= list@.len(),
                all == views(list@),
                as_items(argument(stream@, "side_data_list"@)) == all,
                listed_rotation(all.skip(i as int)) == listed_rotation(all),
            decreases list@.len() - i,
        {
            proof {
                assert(all.skip(i as int)[0] == list@[i as int]@);
                assert(all.skip(i as int).skip(1) =~= all.skip(i + 1));
            }
            if let Some(Json::Number(text)) = get(&list[i], "rotation") {
                return match read_float(text.as_str()) {
                    Some(value) => turn_of(value),
                    None => 0,
                };
            }
            i = i + 1;
        }
        assert(all.skip(i as int) =~= seq![]);
    }
    match inner_text(stream, "tags", "rotate") {
        Some(text) => match read_float(text.as_str()) {
            Some(value) => turn_of(value),
            None => 0,
        },
        None => 0,
    }
}

fn range_in(text: Option<&String>) -> (r: ColorRange)
    ensures
        r == range_of(match text {
            Some(t) => Some(t@),
            None => None,
        }),
{
    match text {
        Some(name) => {
            if same(name.as_str(), "tv") || same(name.as_str(), "limited") {
                ColorRange::Tv
            } else if same(name.as_str(), "pc") || same(name.as_str(), "full") {
                ColorRange::Pc
            } else {
                ColorRange::Unknown
            }
        },
        None => ColorRange::Unknown,
    }
}

fn matrix_in(text: Option<&String>) -> (r: ColorMatrix)
    ensures
        r == matrix_of(match text {
            Some(t) => Some(t@),
            None => None,
        }),
{
    match text {
        Some(name) => {
            if same(name.as_str(), "bt709") {
                ColorMatrix::Bt709
            } else if same(name.as_str(), "bt470bg") || same(name.as_str(), "smpte170m") || same(
                name.as_str(),
                "bt601",
            ) {
                ColorMatrix::Bt601
            } else if same(name.as_str(), "bt2020nc") || same(name.as_str(), "bt2020_ncl") {
                ColorMatrix::Bt2020Ncl
            } else if same(name.as_str(), "smpte240m") {
                ColorMatrix::Smpte240m
            } else {
                ColorMatrix::Unknown
            }
        },
        None => ColorMatrix::Unknown,
    }
}

pub fn default_fps() -> (r: Fps)
    ensures
        r == default_rate(),
        r.wf(),
{
    Fps { rate: Rat { num: 30, den: 1 } }
}

fn rate_in(stream: &Json) -> (r: Fps)
    ensures
        r == stream_rate(stream@),
        r.wf(),
{
    match parse_rate(field_text(stream, "avg_frame_rate")) {
        Some(fps) => fps,
        None => match parse_rate(field_text(stream, "r_frame_rate")) {
            Some(fps) => fps,
            None => default_fps(),
        },
    }
}

/// A picture stream in the document's terms.
fn video_stream(stream: &Json) -> (r: Result<VideoStream, Error>)
    ensures
        r is Err <==> no_size(stream@),
        r is Err ==> r->Err_0@ == zero_dimension(),
        r is Ok ==> r->Ok_0@ == video_of(stream@),
        r is Ok ==> r->Ok_0.fps.wf() && r->Ok_0.sar.wf(),
{
    let width: u32 = int32(stream, "width");
    let height: u32 = int32(stream, "height");
    if width == 0 || height == 0 {
        return Err(Error::tool("ffprobe", "video stream reports a zero dimension"));
    }
    let frames: Option<i64> = match number_in(stream, "nb_frames") {
        Some(n) => Some(n),
        None => int_in(stream, "nb_frames"),
    };
    Ok(
        VideoStream {
            stream_index: int32(stream, "index"),
            size: [width, height],
            fps: rate_in(stream),
            codec: text_or_empty(stream, "codec_name"),
            pix_fmt: text_or_empty(stream, "pix_fmt"),
            color_range: range_in(field_text(stream, "color_range")),
            color_matrix: matrix_in(field_text(stream, "color_space")),
            color_primaries: opt_copy(stream, "color_primaries"),
            transfer: opt_copy(stream, "color_transfer"),
            rotation: rotation(stream),
            sar: parse_aspect(field_text(stream, "sample_aspect_ratio")),
            frames,
            bit_rate: number_in(stream, "bit_rate"),
        },
    )
}

/// A sound stream in the document's terms.
fn audio_stream(stream: &Json) -> (r: AudioStream)
    ensures
        r@ == audio_of(stream@),
{
    let rate: u32 = match field_text(stream, "sample_rate") {
        Some(text) => match parse_unsigned(&chars_of(text.as_str())) {
            Some(rate) => rate,
            None => 48_000,
        },
        None => 48_000,
    };
    let channels: i64 = match int_in(stream, "channels") {
        Some(n) => n,
        None => 2,
    };
    AudioStream {
        stream_index: int32(stream, "index"),
        rate,
        channels: cut(channels as i128, 0x1_0000) as u16,
        codec: text_or_empty(stream, "codec_name"),
        bit_rate: number_in(stream, "bit_rate"),
    }
}

fn has_kind(stream: &Json, kind: &str) -> (r: bool)
    ensures
        r == is_kind(stream@, kind@),
{
    match field_text(stream, "codec_type") {
        Some(text) => same(text.as_str(), kind),
        None => false,
    }
}

fn find_first(streams: &Vec<Json>, kind: &str) -> (r: Option<usize>)
    ensures
        r is Some <==> first_of(views(streams@), kind@) >= 0,
        r is Some ==> r->0 == first_of(views(streams@), kind@) && r->0 < streams@.len(),
{
    let ghost all = views(streams@);
    let mut found: Option<usize> = None;
    let mut i: usize = 0;
    assert(all.take(0) =~= seq![]);
    while i < streams.len()
        invariant
            i <= streams@.len(),
            all == views(streams@),
            found is Some <==> first_of(all.take(i as int), kind@) >= 0,
            found is Some ==> found->0 == first_of(all.take(i as int), kind@) && found->0 < i,
        decreases streams@.len() - i,
    {
        proof {
            assert(all.take(i + 1).drop_last() =~= all.take(i as int));
            assert(all.take(i + 1).last() == streams@[i as int]@);
        }
        if found.is_none() && has_kind(&streams[i], kind) {
            found = Some(i);
        }
        i = i + 1;
    }
    assert(all.take(i as int) =~= all);
    found
}

fn cover(stream: &Json) -> (r: bool)
    ensures
        r == is_cover(stream@),
{
    match get(stream, "disposition") {
        Some(disposition) => match get(disposition, "attached_pic") {
            Some(value) => match whole(value) {
                Some(n) => n == 1,
                None => false,
            },
            None => false,
        },
        None => false,
    }
}

fn read_duration(text: Option<&String>) -> (r: Option<Time>)
    ensures
        r == stated_duration(match text {
            Some(t) => Some(t@),
            None => None,
        }),
        r is Some ==> r->0.wf(),
{
    match text {
        Some(t) => Time::read(t.as_str()),
        None => None,
    }
}

fn longest(streams: &Vec<Json>) -> (r: Option<Time>)
    ensures
        r == longest_stream(views(streams@)),
        r is Some ==> r->0.wf(),
{
    let ghost all = views(streams@);
    let mut found: Option<Time> = None;
    let mut i: usize = 0;
    assert(all.take(0) =~= seq![]);
    while i < streams.len()
        invariant
            i <= streams@.len(),
            all == views(streams@),
            found == longest_stream(all.take(i as int)),
            found is Some ==> found->0.wf(),
        decreases streams@.len() - i,
    {
        proof {
            assert(all.take(i + 1).drop_last() =~= all.take(i as int));
            assert(all.take(i + 1).last() == streams@[i as int]@);
        }
        let next = read_duration(field_text(&streams[i], "duration"));
        found = match (found, next) {
            (Some(x), Some(y)) => Some(y.max(x)),
            (Some(x), None) => Some(x),
            (None, y) => y,
        };
        i = i + 1;
    }
    assert(all.take(i as int) =~= all);
    found
}

fn variable(streams: &Vec<Json>) -> (r: bool)
    ensures
        r == any_variable(views(streams@)),
{
    let ghost all = views(streams@);
    let mut i: usize = 0;
    while i < streams.len()
        invariant
            i <= streams@.len(),
            all == views(streams@),
            forall|k: int|
                0 <= k < i ==> !(is_kind(#[trigger] all[k], "video"@) && is_variable(all[k])),
        decreases streams@.len() - i,
    {
        assert(all[i as int] == streams@[i as int]@);
        if has_kind(&streams[i], "video") && is_variable_rate(&streams[i]) {
            return true;
        }
        i = i + 1;
    }
    false
}

fn name_kind(path: &str) -> (r: AssetKind)
    ensures
        r == kind_by_name(path@),
{
    match extension(path) {
        None => AssetKind::Other,
        Some(ext) => {
            let e = ext.as_str();
            if is(e, "png") || is(e, "jpg") || is(e, "jpeg") || is(e, "webp") || is(e, "tif") || is(
                e,
                "tiff",
            ) || is(e, "bmp") || is(e, "svg") {
                AssetKind::Image
            } else if is(e, "ttf") || is(e, "otf") || is(e, "woff") || is(e, "woff2") {
                AssetKind::Font
            } else if is(e, "cube") || is(e, "3dl") {
                AssetKind::Lut
            } else if is(e, "srt") || is(e, "vtt") || is(e, "ass") {
                AssetKind::Subtitle
            } else {
                AssetKind::Other
            }
        },
    }
}

fn is(ext: &str, name: &str) -> (r: bool)
    ensures
        r == same_folded(ext@, name@),
{
    crate::text::equal_folded(ext, name)
}

/// What ffprobe's report says of a file.
pub fn from_ffprobe_json(json: &Json, path: &str) -> (r: Result<Probed, Error>)
    ensures
        (match r {
            Ok(probed) => probed_of(json@, path@) == Ok::<ProbedView, ErrorView>(probed@)
                && probed.probe.duration.wf() && (probed.probe.video matches Some(video)
                ==> video.fps.wf() && video.sar.wf()),
            Err(error) => probed_of(json@, path@) == Err::<ProbedView, ErrorView>(error@),
        }),
{
    let none: Vec<Json> = Vec::new();
    assert(views(none@) =~= seq![]);
    let streams: &Vec<Json> = match get(json, "streams") {
        Some(Json::Array(items)) => {
            assert(as_items(argument(json@, "streams"@)) =~= views(items@));
            items
        },
        _ => &none,
    };
    let ghost all = views(streams@);
    assert(all == as_items(argument(json@, "streams"@)));
    let video: Option<VideoStream> = match find_first(streams, "video") {
        Some(at) => {
            assert(all[at as int] == streams@[at as int]@);
            if cover(&streams[at]) {
                None
            } else {
                match video_stream(&streams[at]) {
                    Ok(video) => Some(video),
                    Err(error) => {
                        return Err(error);
                    },
                }
            }
        },
        None => None,
    };
    let audio: Option<AudioStream> = match find_first(streams, "audio") {
        Some(at) => {
            assert(all[at as int] == streams@[at as int]@);
            Some(audio_stream(&streams[at]))
        },
        None => None,
    };
    let duration = match read_duration(inner_text(json, "format", "duration")) {
        Some(time) => time,
        None => match longest(streams) {
            Some(time) => time,
            None => Time::zero(),
        },
    };
    let container: String = match inner_text(json, "format", "format_name") {
        Some(text) => text.clone(),
        None => {
            let none = String::new();
            assert(none@ =~= seq![]);
            none
        },
    };
    let vfr = variable(streams);
    let kind = match &video {
        Some(stream) => match stream.frames {
            Some(n) => if n == 1 {
                AssetKind::Image
            } else {
                AssetKind::Video
            },
            None => AssetKind::Video,
        },
        None => if audio.is_some() {
            AssetKind::Audio
        } else {
            name_kind(path)
        },
    };
    Ok(Probed { probe: Probe { duration, video, audio, vfr, container }, kind })
}

/// What ffprobe printed of a file, or why it cannot be read.
pub open spec fn report_of(output: Seq<u8>, path: Seq<char>) -> Result<ProbedView, ErrorView> {
    match json_parse(output) {
        Err(error) => Err(
            ErrorView::Tool { tool: "ffprobe"@, detail: "unparseable output: "@ + error },
        ),
        Ok(json) => probed_of(json, path),
    }
}

/// Reads what ffprobe printed.
pub fn read_report(output: &Vec<u8>, path: &str) -> (r: Result<Probed, Error>)
    ensures
        (match r {
            Ok(probed) => report_of(output@, path@) == Ok::<ProbedView, ErrorView>(probed@),
            Err(error) => report_of(output@, path@) == Err::<ProbedView, ErrorView>(error@),
        }),
{
    match parse_json(output) {
        Err(error) => {
            let mut detail = "unparseable output: ".to_owned();
            detail.append(error.as_str());
            Err(Error::tool("ffprobe", detail.as_str()))
        },
        Ok(json) => from_ffprobe_json(&json, path),
    }
}

/// The arguments that make ffprobe report on a file.
pub open spec fn report_args(path: Seq<char>) -> Seq<Seq<char>> {
    seq![
        "-print_format"@,
        "json"@,
        "-show_format"@,
        "-show_streams"@,
        "-show_entries"@,
        "stream_side_data=rotation"@,
        path,
    ]
}

pub fn probe_args(path: &str) -> (r: Vec<String>)
    ensures
        crate::text::strings(r@) == report_args(path@),
{
    let mut out: Vec<String> = Vec::new();
    crate::text::push_pair(&mut out, "-print_format", "json");
    crate::text::push_pair(&mut out, "-show_format", "-show_streams");
    crate::text::push_pair(&mut out, "-show_entries", "stream_side_data=rotation");
    crate::text::push_text(&mut out, path);
    assert(crate::text::strings(out@) =~= report_args(path@));
    out
}

} // verus!
