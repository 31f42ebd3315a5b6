//! What is read of a file.

use crate::args::argument;
use crate::float_text::Float;
use crate::json::JsonView;
use crate::order::lemma_le_is_transitive;
use crate::probe::{
    any_variable, as_items, as_text, aspect_of, audio_of, degrees, duration_of, first_of, inner,
    is_cover, is_kind, is_variable, kind_of, listed_rotation, longest_stream, probed_of, rate_of,
    rates_differ, stated_duration, stream_rate, text_at, video_at, video_of,
};
use crate::project::{AssetKind, AudioView, VideoView};
use crate::rational::Rat;
use crate::text::{dec, lemma_dec, lemma_dec_int, lemma_find_is, parse_i64};
use crate::time::Fps;
use crate::time_laws::{is_nearest, law_rounding_gives_the_nearest};
use vstd::prelude::*;

verus! {

// ---------------------------------------------------------------------------
// Streams
// ---------------------------------------------------------------------------

/// The stream of a kind is the first one of it, and there is none exactly if none is of that kind.
pub proof fn law_the_first_stream_counts(streams: Seq<JsonView>, kind: Seq<char>)
    ensures
        ({
            let at = first_of(streams, kind);
            &&& at < 0 <==> forall|i: int|
                0 <= i < streams.len() ==> !is_kind(#[trigger] streams[i], kind)
            &&& at >= 0 ==> at < streams.len() && is_kind(streams[at], kind)
            &&& forall|i: int| 0 <= i < at ==> !is_kind(#[trigger] streams[i], kind)
        }),
    decreases streams.len(),
{
    if streams.len() > 0 {
        let rest = streams.drop_last();
        law_the_first_stream_counts(rest, kind);
        let before = first_of(rest, kind);
        assert forall|i: int| 0 <= i < rest.len() implies rest[i] == #[trigger] streams[i] by {}
        if before >= 0 {
            assert(rest[before] == streams[before]);
        }
        assert(streams.last() == streams[streams.len() - 1]);
    }
}

/// The cover of an album is no footage, whatever else is in the file; otherwise the first picture is.
pub proof fn law_a_cover_is_no_footage(streams: Seq<JsonView>)
    ensures
        ({
            let first = first_of(streams, "video"@);
            &&& video_at(streams) >= 0 ==> video_at(streams) == first && !is_cover(streams[first])
            &&& first >= 0 && !is_cover(streams[first]) ==> video_at(streams) == first
        }),
{
}

proof fn lemma_digits(n: nat)
    requires
        n <= i64::MAX,
    ensures
        parse_i64(dec(n)) == Some(n as i64),
        forall|i: int| 0 <= i < dec(n).len() ==> '0' <= #[trigger] dec(n)[i] <= '9',
{
    lemma_dec(n);
    lemma_dec_int(n as int);
}

proof fn lemma_pair(n: nat, d: nat, mark: char)
    requires
        n <= i64::MAX,
        d <= i64::MAX,
        mark == '/' || mark == ':',
    ensures
        ({
            let text = dec(n) + seq![mark] + dec(d);
            let at = crate::text::find(text, mark);
            &&& at == dec(n).len()
            &&& at < text.len()
            &&& text.take(at) == dec(n)
            &&& text.skip(at + 1) == dec(d)
        }),
{
    lemma_digits(n);
    lemma_digits(d);
    let text = dec(n) + seq![mark] + dec(d);
    let at = dec(n).len() as int;
    assert(text[at] == mark);
    assert forall|i: int| 0 <= i < at implies #[trigger] text[i] != mark by {
        assert(text[i] == dec(n)[i]);
    }
    lemma_find_is(text, mark, at);
    assert(text.take(at) =~= dec(n));
    assert(text.skip(at + 1) =~= dec(d));
}

/// A rate written as two numbers is read as their quotient, and so is a shape.
pub proof fn law_a_quotient_is_read(n: nat, d: nat)
    requires
        0 < n <= i64::MAX,
        0 < d <= i64::MAX,
    ensures
        rate_of(Some(dec(n) + seq!['/'] + dec(d))) matches Some(fps) && fps.wf() && fps.rate.is(
            n as int,
            d as int,
        ),
        aspect_of(Some(dec(n) + seq![':'] + dec(d))).wf(),
        aspect_of(Some(dec(n) + seq![':'] + dec(d))).is(n as int, d as int),
{
    lemma_digits(n);
    lemma_digits(d);
    lemma_pair(n, d, '/');
    lemma_pair(n, d, ':');
    crate::time::lemma_small_fits(n as int, d as int);
    Rat::lemma_of(n as int, d as int);
    crate::time::lemma_positive_top(n as int, d as int);
}

/// A rate that is no quotient of positive numbers is none; such a shape is square.
pub proof fn law_what_is_no_quotient_is_none(n: nat, d: nat)
    requires
        n <= i64::MAX,
        d <= i64::MAX,
        n == 0 || d == 0,
    ensures
        rate_of(Some(dec(n) + seq!['/'] + dec(d))) is None,
        aspect_of(Some(dec(n) + seq![':'] + dec(d))).num == aspect_of(
            Some(dec(n) + seq![':'] + dec(d)),
        ).den,
        rate_of(None) is None,
        aspect_of(None).num == aspect_of(None).den,
{
    lemma_digits(n);
    lemma_digits(d);
    lemma_pair(n, d, '/');
    lemma_pair(n, d, ':');
}

/// A stream plays at its average rate, else at its nominal one, else at thirty.
pub proof fn law_the_average_rate_counts(stream: JsonView)
    ensures
        rate_of(text_at(stream, "avg_frame_rate"@)) matches Some(fps) ==> stream_rate(stream)
            == fps,
        rate_of(text_at(stream, "avg_frame_rate"@)) is None ==> (rate_of(
            text_at(stream, "r_frame_rate"@),
        ) matches Some(fps) ==> stream_rate(stream) == fps),
        rate_of(text_at(stream, "avg_frame_rate"@)) is None && rate_of(
            text_at(stream, "r_frame_rate"@),
        ) is None ==> stream_rate(stream).rate.num == 30 && stream_rate(stream).rate.den == 1,
{
}

/// Timing varies exactly if the nominal rate is below 98 or above 102 percent of the average.
pub proof fn law_timing_varies_beyond_a_fiftieth(nominal: Fps, average: Fps)
    requires
        nominal.wf(),
        average.wf(),
    ensures
        ({
            let a = nominal.rate.num * average.rate.den;
            let b = average.rate.num * nominal.rate.den;
            !rates_differ(nominal, average) <==> 49 * b <= 50 * a <= 51 * b
        }),
{
}

/// A file's timing varies exactly if that of one of its pictures does.
pub proof fn law_any_varying_picture_counts(streams: Seq<JsonView>, i: int)
    requires
        0 <= i < streams.len(),
        text_at(streams[i], "codec_type"@) == Some("video"@),
        is_variable(streams[i]),
    ensures
        any_variable(streams),
{
    assert(is_kind(streams[i], "video"@));
}

/// A rotation is the nearest whole number of degrees.
pub proof fn law_a_rotation_is_in_whole_degrees(rate: Rat)
    requires
        rate.den > 0,
        -360 * rate.den <= rate.num <= 360 * rate.den,
    ensures
        is_nearest(rate.num as int, rate.den as int, degrees(Float::Finite(rate)) as int),
{
    let (n, d) = (rate.num as int, rate.den as int);
    law_rounding_gives_the_nearest(n, d);
    let r = crate::rational::round_half_away(n, d);
    assert(-361 <= r <= 361) by (nonlinear_arith)
        requires
            -d <= 2 * (n - r * d) <= d,
            -360 * d <= n <= 360 * d,
            d > 0,
    ;
}

/// The first entry of side data that states a rotation counts.
pub proof fn law_the_first_rotation_counts(items: Seq<JsonView>, i: int, text: Seq<char>)
    requires
        0 <= i < items.len(),
        argument(items[i], "rotation"@) == Some(JsonView::Number(text)),
        forall|k: int|
            0 <= k < i ==> !(argument(#[trigger] items[k], "rotation"@) matches Some(
                JsonView::Number(_),
            )),
    ensures
        listed_rotation(items) == Some(degrees(crate::float_text::float_value(text))),
    decreases i,
{
    if i > 0 {
        assert(!(argument(items[0], "rotation"@) matches Some(JsonView::Number(_))));
        let rest = items.skip(1);
        assert(rest[i - 1] == items[i]);
        assert forall|k: int| 0 <= k < i - 1 implies !(argument(
            #[trigger] rest[k],
            "rotation"@,
        ) matches Some(JsonView::Number(_))) by {
            assert(rest[k] == items[k + 1]);
        }
        law_the_first_rotation_counts(rest, i - 1, text);
    }
}

/// A picture is as wide and as high as its stream says.
pub proof fn law_a_picture_has_its_stated_size(stream: JsonView, width: u32, height: u32, index: u32)
    requires
        argument(stream, "width"@) == Some(JsonView::Number(dec(width as nat))),
        argument(stream, "height"@) == Some(JsonView::Number(dec(height as nat))),
        argument(stream, "index"@) == Some(JsonView::Number(dec(index as nat))),
    ensures
        video_of(stream).width == width,
        video_of(stream).height == height,
        video_of(stream).stream_index == index,
        video_of(stream).fps == stream_rate(stream),
        crate::probe::no_size(stream) <==> width == 0 || height == 0,
{
    lemma_digits(width as nat);
    lemma_digits(height as nat);
    lemma_digits(index as nat);
}

/// Sound has the rate and the channels that its stream says, else 48000 and two.
pub proof fn law_sound_has_its_stated_rate(stream: JsonView, rate: u32, channels: u16)
    ensures
        text_at(stream, "sample_rate"@) == Some(dec(rate as nat)) ==> audio_of(stream).rate
            == rate,
        text_at(stream, "sample_rate"@) is None ==> audio_of(stream).rate == 48_000,
        argument(stream, "channels"@) == Some(JsonView::Number(dec(channels as nat)))
            ==> audio_of(stream).channels == channels,
        argument(stream, "channels"@) is None ==> audio_of(stream).channels == 2,
{
    lemma_digits(rate as nat);
    lemma_digits(channels as nat);
    lemma_dec(rate as nat);
}

// ---------------------------------------------------------------------------
// Files
// ---------------------------------------------------------------------------

/// A file lasts as long as its container says; where that says nothing, as long as the longest of its
/// streams.
pub proof fn law_the_container_states_the_length(json: JsonView, streams: Seq<JsonView>)
    ensures
        stated_duration(as_text(inner(argument(json, "format"@), "duration"@))) matches Some(time)
            ==> duration_of(json, streams) == time,
        stated_duration(as_text(inner(argument(json, "format"@), "duration"@))) is None ==> (
        longest_stream(streams) matches Some(time) ==> duration_of(json, streams) == time),
        stated_duration(as_text(inner(argument(json, "format"@), "duration"@))) is None
            && longest_stream(streams) is None ==> duration_of(json, streams).secs.num == 0,
{
}

/// No stream states a longer duration than the longest, which is one that is stated.
pub proof fn law_the_longest_stream_is_the_longest(streams: Seq<JsonView>) -> (w: int)
    requires
        forall|i: int|
            0 <= i < streams.len() ==> (stated_duration(
                text_at(#[trigger] streams[i], "duration"@),
            ) matches Some(time) ==> time.wf()),
    ensures
        longest_stream(streams) is None <==> forall|i: int|
            0 <= i < streams.len() ==> stated_duration(
                text_at(#[trigger] streams[i], "duration"@),
            ) is None,
        longest_stream(streams) matches Some(time) ==> 0 <= w < streams.len() && stated_duration(
            text_at(streams[w], "duration"@),
        ) == Some(time) && time.wf(),
        forall|i: int|
            0 <= i < streams.len() ==> (stated_duration(
                text_at(#[trigger] streams[i], "duration"@),
            ) matches Some(time) ==> longest_stream(streams) is Some && time.le(
                longest_stream(streams)->0,
            )),
    decreases streams.len(),
{
    if streams.len() == 0 {
        0
    } else {
        let rest = streams.drop_last();
        let n = streams.len() - 1;
        assert forall|i: int| 0 <= i < rest.len() implies rest[i] == #[trigger] streams[i] by {}
        assert forall|i: int| 0 <= i < rest.len() implies (stated_duration(
            text_at(#[trigger] rest[i], "duration"@),
        ) matches Some(time) ==> time.wf()) by {
            assert(rest[i] == streams[i]);
        }
        let w = law_the_longest_stream_is_the_longest(rest);
        let (was, now) = (longest_stream(rest), longest_stream(streams));
        let last = stated_duration(text_at(streams[n], "duration"@));
        assert(streams.last() == streams[n]);
        assert forall|i: int| 0 <= i < streams.len() implies (stated_duration(
            text_at(#[trigger] streams[i], "duration"@),
        ) matches Some(time) ==> now is Some && time.le(now->0)) by {
            if let Some(time) = stated_duration(text_at(streams[i], "duration"@)) {
                if i < n {
                    assert(rest[i] == streams[i]);
                    assert(was is Some && time.le(was->0));
                    if last is Some {
                        assert(was->0.le(now->0));
                        lemma_le_is_transitive(time, was->0, now->0);
                    }
                }
            }
        }
        if was is None {
            assert forall|i: int| 0 <= i < n implies stated_duration(
                text_at(#[trigger] streams[i], "duration"@),
            ) is None by {
                assert(rest[i] == streams[i]);
            }
            n
        } else {
            assert(rest[w] == streams[w]);
            if now == was {
                w
            } else {
                n
            }
        }
    }
}

/// A file is footage if it has a picture of more than one frame, an image if of one, else sound if it
/// has any; only without streams its name decides.
pub proof fn law_streams_decide_the_kind(
    video: Option<VideoView>,
    audio: Option<AudioView>,
    path: Seq<char>,
    other: Seq<char>,
)
    ensures
        video matches Some(stream) ==> (kind_of(video, audio, path) == AssetKind::Image
            <==> stream.frames == Some(1i64)),
        video matches Some(stream) ==> (kind_of(video, audio, path) == AssetKind::Video
            <==> stream.frames != Some(1i64)),
        video is None && audio is Some ==> kind_of(video, audio, path) == AssetKind::Audio,
        video is Some || audio is Some ==> kind_of(video, audio, path) == kind_of(
            video,
            audio,
            other,
        ),
{
}

/// A report is refused exactly if its footage has no size; otherwise it holds the footage and the
/// first sound of the file.
pub proof fn law_a_report_holds_the_streams(json: JsonView, path: Seq<char>)
    ensures
        ({
            let streams = as_items(argument(json, "streams"@));
            let (v, a) = (video_at(streams), first_of(streams, "audio"@));
            match probed_of(json, path) {
                Err(_) => v >= 0 && crate::probe::no_size(streams[v]),
                Ok(probed) => {
                    &&& v >= 0 ==> !crate::probe::no_size(streams[v])
                    &&& v >= 0 ==> probed.probe.video == Some(video_of(streams[v]))
                    &&& v < 0 ==> probed.probe.video is None
                    &&& a >= 0 ==> probed.probe.audio == Some(audio_of(streams[a]))
                    &&& a < 0 ==> probed.probe.audio is None
                    &&& probed.probe.vfr == any_variable(streams)
                    &&& probed.probe.duration == duration_of(json, streams)
                },
            }
        }),
{
}

} // verus!
