//! What arguments ask for, and what goes without saying.

use crate::args::{
    argument, is_absent, number_argument, refusal, text_argument, time_argument, unknown_name,
    whole_at_least,
};
use crate::asset_import::{
    builds_proxy, gone, import_warning, imported_name, mode_argument, shorter_warning, ProxyMode,
};
use crate::coverage::{clips_end, cues_end, tracks_end};
use crate::encode::encoder_of;
use crate::error::ErrorView;
use crate::finding::LoudnessProfile;
use crate::float_text::{float_value, Float};
use crate::inspect_ops::{
    digest_asked, level_argument, lint_asked, markers_asked, silence_asked, switch_or,
};
use crate::json::{FieldView, JsonView};
use crate::loop_ops::{check_asked, frame_asked, sheet_asked, transcript_asked};
use crate::order::lemma_le_is_transitive;
use crate::project::{Asset, CaptionCue, Clip, Probe, Track};
use crate::proxy::needs_proxy;
use crate::rational::Rat;
use crate::scene_ops::{profile_argument, sampling_asked, scale_argument, threshold_argument};
use crate::server::{
    base64, sextet, size_argument, step_of, steps_of, whole_argument, with_args, RenderView,
};
use crate::text::{find, fold, has_char, trim};
use crate::time::{Fps, Time};
use crate::time_text::time_at;
use crate::tools::span_of;
use vstd::prelude::*;

verus! {

// ---------------------------------------------------------------------------
// Arguments
// ---------------------------------------------------------------------------

/// Whether an argument is given as a number of that value.
pub open spec fn given(args: JsonView, name: Seq<char>, value: Float) -> bool {
    argument(args, name) matches Some(JsonView::Number(text)) && float_value(text) == value
}

/// A switch that is given is taken, one that is left out or null goes without saying, and anything else
/// is refused.
pub proof fn law_a_switch_is_taken(args: JsonView, name: Seq<char>, otherwise: bool, b: bool)
    ensures
        argument(args, name) == Some(JsonView::Bool(b)) ==> switch_or(args, name, otherwise) == Ok::<
            bool,
            ErrorView,
        >(b),
        argument(args, name) is None || argument(args, name) == Some(JsonView::Null) ==> switch_or(
            args,
            name,
            otherwise,
        ) == Ok::<bool, ErrorView>(otherwise),
        switch_or(args, name, otherwise) is Err <==> (argument(args, name) matches Some(value)
            && !(value is Bool) && !(value is Null)),
{
}

/// Arguments are refused exactly if one of them has a name that is not known.
pub proof fn law_an_unknown_argument_is_refused(fields: Seq<FieldView>, allowed: Seq<Seq<char>>)
    ensures
        refusal(JsonView::Object(fields), allowed) is Some <==> exists|i: int|
            0 <= i < fields.len() && !allowed.contains((#[trigger] fields[i]).name),
{
    lemma_unknown(fields, allowed);
}

proof fn lemma_unknown(fields: Seq<FieldView>, allowed: Seq<Seq<char>>)
    ensures
        unknown_name(fields, allowed) is Some <==> exists|i: int|
            0 <= i < fields.len() && !allowed.contains((#[trigger] fields[i]).name),
    decreases fields.len(),
{
    if fields.len() > 0 {
        let rest = fields.skip(1);
        lemma_unknown(rest, allowed);
        if allowed.contains(fields[0].name) {
            if exists|i: int| 0 <= i < rest.len() && !allowed.contains((#[trigger] rest[i]).name) {
                let i = choose|i: int|
                    0 <= i < rest.len() && !allowed.contains((#[trigger] rest[i]).name);
                assert(fields[i + 1] == rest[i]);
            }
            if exists|i: int|
                0 <= i < fields.len() && !allowed.contains((#[trigger] fields[i]).name) {
                let i = choose|i: int|
                    0 <= i < fields.len() && !allowed.contains((#[trigger] fields[i]).name);
                assert(rest[i - 1] == fields[i]);
            }
        } else {
            assert(!allowed.contains(fields[0].name));
        }
    }
}

/// A whole number is taken as it is, and a fraction or a negative number is refused.
pub proof fn law_a_whole_number_is_taken(args: JsonView, name: Seq<char>, rate: Rat, n: int)
    requires
        given(args, name, Float::Finite(rate)),
        rate.den > 0,
    ensures
        rate.num == n * rate.den && 0 <= n <= u32::MAX ==> whole_argument(args, name) == Ok::<
            Option<u32>,
            ErrorView,
        >(Some(n as u32)),
        rate.num < 0 ==> whole_argument(args, name) is Err,
        n * rate.den < rate.num < (n + 1) * rate.den ==> whole_argument(args, name) is Err,
{
    let (a, d) = (rate.num as int, rate.den as int);
    if a == n * d {
        vstd::arithmetic::div_mod::lemma_fundamental_div_mod_converse(a, d, n, 0);
    }
    if n * d < a < (n + 1) * d {
        let r = a - n * d;
        assert((n + 1) * d == n * d + d) by (nonlinear_arith);
        assert(d * n == n * d) by (nonlinear_arith);
        vstd::arithmetic::div_mod::lemma_fundamental_div_mod_converse(a, d, n, r);
    }
}

/// A size is cut to a whole number, and raised to the least there is.
pub proof fn law_a_size_is_raised_to_the_least(rate: Rat, least: u32)
    requires
        rate.den > 0,
    ensures
        ({
            let n = whole_at_least(Float::Finite(rate), least);
            &&& n >= least
            &&& rate.num >= least * rate.den && rate.num < u32::MAX * rate.den ==> n * rate.den
                <= rate.num < (n + 1) * rate.den
            &&& rate.num < least * rate.den ==> n == least
        }),
{
    let (a, d) = (rate.num as int, rate.den as int);
    let q = a / d;
    vstd::arithmetic::div_mod::lemma_fundamental_div_mod(a, d);
    vstd::arithmetic::div_mod::lemma_mod_bound(a, d);
    assert(q * d <= a < (q + 1) * d) by (nonlinear_arith)
        requires
            a == d * q + a % d,
            0 <= a % d < d,
    ;
    let l = least as int;
    assert(a >= l * d ==> q >= l) by (nonlinear_arith)
        requires
            a < (q + 1) * d,
            d > 0,
    ;
    assert(a < l * d ==> q < l) by (nonlinear_arith)
        requires
            q * d <= a,
            d > 0,
    ;
    assert(a < u32::MAX * d ==> q < u32::MAX) by (nonlinear_arith)
        requires
            q * d <= a,
            d > 0,
    ;
}

/// A stretch is read from what stands in front of its first hyphen and behind it, and has to go forward.
pub proof fn law_a_stretch_goes_forward(range: Seq<char>, fps: Fps)
    ensures
        span_of(range, fps) is Ok <==> has_char(range, '-') && (time_at(
            trim(range.take(find(range, '-'))),
            fps,
        ) matches Some(start) && time_at(
            trim(range.skip(find(range, '-') + 1)),
            fps,
        ) matches Some(end) && start.lt(end)),
        span_of(range, fps) matches Ok(span) ==> span.start.lt(span.end) && time_at(
            trim(range.take(find(range, '-'))),
            fps,
        ) == Some(span.start) && time_at(trim(range.skip(find(range, '-') + 1)), fps) == Some(
            span.end,
        ),
{
}

// ---------------------------------------------------------------------------
// Looking
// ---------------------------------------------------------------------------

/// Frames are looked at in a scale above zero and up to one: half, where none is given.
pub proof fn law_a_scale_shrinks(args: JsonView, rate: Rat)
    requires
        rate.den > 0,
    ensures
        is_absent(argument(args, "scale"@)) ==> scale_argument(args) == Ok::<Rat, ErrorView>(
            Rat { num: 1, den: 2 },
        ),
        given(args, "scale"@, Float::Finite(rate)) ==> (scale_argument(args) is Ok <==> 0
            < rate.num <= rate.den),
        given(args, "scale"@, Float::Finite(rate)) && scale_argument(args) is Ok
            ==> scale_argument(args)->Ok_0 == rate,
        given(args, "scale"@, Float::Special) ==> scale_argument(args) is Err,
{
}

/// A difference that makes a shot change is above zero and at most three: three tenths, where none is
/// given.
pub proof fn law_a_threshold_is_a_difference(args: JsonView, rate: Rat)
    requires
        rate.den > 0,
    ensures
        is_absent(argument(args, "threshold"@)) ==> threshold_argument(args) == Ok::<
            Rat,
            ErrorView,
        >(Rat { num: 3, den: 10 }),
        given(args, "threshold"@, Float::Finite(rate)) ==> (threshold_argument(args) is Ok <==> 0
            < rate.num <= 3 * rate.den),
        given(args, "threshold"@, Float::Finite(rate)) && threshold_argument(args) is Ok
            ==> threshold_argument(args)->Ok_0 == rate,
{
}

/// Silence is below a level that is at most full scale: 45 decibels below it and half a second long,
/// where nothing is given.
pub proof fn law_silence_is_below_full_scale(args: JsonView, fps: Fps, rate: Rat)
    requires
        rate.den > 0,
    ensures
        is_absent(argument(args, "threshold-db"@)) ==> level_argument(args) is Ok
            && level_argument(args)->Ok_0.num == -45 && level_argument(args)->Ok_0.den == 1,
        given(args, "threshold-db"@, Float::Finite(rate)) ==> (level_argument(args) is Ok
            <==> rate.num <= 0),
        given(args, "threshold-db"@, Float::Finite(rate)) && rate.num <= 0
            ==> level_argument(args)->Ok_0 == rate,
        silence_asked(args, fps) matches Ok((level, least)) ==> level_argument(args) == Ok::<
            Rat,
            ErrorView,
        >(level) && (is_absent(argument(args, "min-duration"@)) ==> least.secs.num == 1
            && least.secs.den == 2) && (time_argument(args, "min-duration"@, fps) matches Ok(
            Some(time),
        ) ==> least == time),
{
}

/// Samples are taken as asked: every second, in half size and from stand-ins, where nothing is.
pub proof fn law_samples_are_taken_as_asked(args: JsonView, fps: Fps, b: bool)
    requires
        sampling_asked(args, fps) is Ok,
    ensures
        ({
            let asked = sampling_asked(args, fps)->Ok_0;
            &&& is_absent(argument(args, "sample-every"@)) ==> asked.every.secs.num == 1
                && asked.every.secs.den == 1
            &&& time_argument(args, "sample-every"@, fps) matches Ok(Some(time)) ==> asked.every
                == time
            &&& scale_argument(args) == Ok::<Rat, ErrorView>(asked.scale)
            &&& is_absent(argument(args, "proxy"@)) ==> asked.proxy
            &&& argument(args, "proxy"@) == Some(JsonView::Bool(b)) ==> asked.proxy == b
        }),
{
}

/// A description and a check are made as asked: with sound and from rendered frames, where nothing is,
/// and against the loudness that is named.
pub proof fn law_inspections_are_made_as_asked(args: JsonView, fps: Fps, b: bool)
    ensures
        digest_asked(args, fps) matches Ok((options, scale)) ==> {
            &&& is_absent(argument(args, "audio"@)) ==> options.with_audio
            &&& argument(args, "audio"@) == Some(JsonView::Bool(b)) ==> options.with_audio == b
            &&& sampling_asked(args, fps) matches Ok(asked) && asked.every == options.sample_every
                && asked.proxy == options.use_proxy && asked.scale == scale
        },
        lint_asked(args, fps) matches Ok((options, scale)) ==> {
            &&& is_absent(argument(args, "render"@)) ==> options.render
            &&& argument(args, "render"@) == Some(JsonView::Bool(b)) ==> options.render == b
            &&& profile_argument(args) == Ok::<LoudnessProfile, ErrorView>(options.profile)
            &&& sampling_asked(args, fps) matches Ok(asked) && asked.every == options.sample_every
                && asked.proxy == options.use_proxy && asked.scale == scale
        },
        check_asked(args) matches Ok(options) ==> {
            &&& is_absent(argument(args, "render"@)) ==> options.render
            &&& argument(args, "render"@) == Some(JsonView::Bool(b)) ==> options.render == b
            &&& profile_argument(args) == Ok::<LoudnessProfile, ErrorView>(options.profile)
        },
        text_argument(args, "profile"@) is None ==> profile_argument(args) == Ok::<
            LoudnessProfile,
            ErrorView,
        >(LoudnessProfile::YouTube),
{
}

/// Markers are named by the prefix that is given, else `scene`, and replace earlier ones unless that is
/// switched off.
pub proof fn law_markers_are_made_as_asked(args: JsonView, fps: Fps, b: bool)
    ensures
        markers_asked(args, fps) matches Ok(asked) ==> {
            &&& text_argument(args, "prefix"@) matches Some(prefix) ==> asked.prefix == prefix
            &&& text_argument(args, "prefix"@) is None ==> asked.prefix == "scene"@
            &&& is_absent(argument(args, "replace"@)) ==> asked.replace
            &&& argument(args, "replace"@) == Some(JsonView::Bool(b)) ==> asked.replace == b
            &&& threshold_argument(args) == Ok::<Rat, ErrorView>(asked.threshold)
        },
{
}

// ---------------------------------------------------------------------------
// Rendering
// ---------------------------------------------------------------------------

/// A render takes every argument that is given, and keeps what it was where none is.
pub proof fn law_a_render_takes_what_is_given(
    before: RenderView,
    args: JsonView,
    fps: Fps,
    after: RenderView,
    b: bool,
)
    requires
        with_args(before, args, fps) == Ok::<RenderView, ErrorView>(after),
    ensures
        text_argument(args, "range"@) is None ==> after.range == before.range,
        text_argument(args, "range"@) matches Some(text) ==> (span_of(text, fps) matches Ok(span)
            && after.range == Some(span)),
        is_absent(argument(args, "scale"@)) ==> after.scale == before.scale,
        size_argument(args) matches Ok(Some(scale)) ==> after.scale == scale && scale.num > 0,
        is_absent(argument(args, "quality"@)) ==> after.quality == before.quality,
        whole_argument(args, "quality"@) matches Ok(Some(n)) ==> after.quality == n,
        text_argument(args, "preset"@) is None ==> after.preset == before.preset,
        text_argument(args, "preset"@) matches Some(text) ==> after.preset == Some(text),
        text_argument(args, "encoder"@) is None ==> after.encoder == before.encoder,
        text_argument(args, "encoder"@) matches Some(text) ==> after.encoder == encoder_of(
            trim(text).map_values(|c: char| fold(c)),
        ),
        is_absent(argument(args, "proxy"@)) ==> after.use_proxy == before.use_proxy,
        argument(args, "proxy"@) == Some(JsonView::Bool(b)) ==> after.use_proxy == b,
        is_absent(argument(args, "no-cache"@)) ==> after.no_cache == before.no_cache,
        argument(args, "no-cache"@) == Some(JsonView::Bool(b)) ==> after.no_cache == b,
{
}

/// A sheet is made exactly where a path is given for it: six columns, 1920 pixels wide and a picture
/// every five seconds, where nothing else is.
pub proof fn law_a_sheet_is_made_as_asked(args: JsonView, fps: Fps)
    ensures
        text_argument(args, "sheet"@) is None ==> sheet_asked(args, fps) matches Ok(None),
        text_argument(args, "sheet"@) matches Some(path) ==> (sheet_asked(args, fps) matches Ok(
            sheet,
        ) ==> sheet matches Some(asked) && asked.path == path && (is_absent(
            argument(args, "sheet-columns"@),
        ) ==> asked.columns == 6) && (is_absent(argument(args, "sheet-width"@)) ==> asked.width
            == 1920) && (is_absent(argument(args, "sheet-every"@)) ==> asked.every.secs.num == 5
            && asked.every.secs.den == 1) && (whole_argument(
            args,
            "sheet-columns"@,
        ) matches Ok(Some(n)) ==> asked.columns == n) && (whole_argument(
            args,
            "sheet-width"@,
        ) matches Ok(Some(n)) ==> asked.width == n) && (time_argument(
            args,
            "sheet-every"@,
            fps,
        ) matches Ok(Some(time)) ==> asked.every == time)),
{
}

/// A frame is drawn in full size and annotated, where nothing else is asked for.
pub proof fn law_a_frame_is_drawn_as_asked(args: JsonView, fps: Fps, b: bool)
    ensures
        frame_asked(args, fps) matches Ok(asked) ==> {
            &&& is_absent(argument(args, "scale"@)) ==> asked.scale == Float::Finite(
                Rat { num: 1, den: 1 },
            )
            &&& number_argument(args, "scale"@) matches Ok(Some(scale)) ==> asked.scale == scale
            &&& is_absent(argument(args, "annotate"@)) ==> asked.annotate
            &&& argument(args, "annotate"@) == Some(JsonView::Bool(b)) ==> asked.annotate == b
            &&& asked.output == text_argument(args, "output"@)
        },
        transcript_asked(args, fps) matches Ok(asked) ==> {
            &&& text_argument(args, "asset"@) == Some(asked.asset)
            &&& asked.phrase == text_argument(args, "phrase"@)
            &&& is_absent(argument(args, "limit"@)) ==> asked.limit == 200
            &&& whole_argument(args, "limit"@) matches Ok(Some(n)) ==> asked.limit == n
        },
{
}

/// Every entry of a batch is a step of its own, in its place; a batch is refused exactly if one has no
/// operation.
pub proof fn law_every_entry_is_a_step(entries: Seq<JsonView>, n: int, k: int)
    requires
        0 <= n <= entries.len(),
    ensures
        steps_of(entries, n) is Ok <==> forall|i: int|
            0 <= i < n ==> text_argument(#[trigger] entries[i], "op"@) is Some,
        steps_of(entries, n) matches Ok(steps) ==> steps.len() == n && (0 <= k < n ==> Some(
            steps[k].op,
        ) == text_argument(entries[k], "op"@) && steps[k].seq == text_argument(entries[k], "seq"@)
            && (argument(entries[k], "args"@) matches Some(args) ==> steps[k].args == args)),
    decreases n,
{
    if n > 0 {
        law_every_entry_is_a_step(entries, n - 1, k);
        assert(step_of(entries[n - 1]) is Some <==> text_argument(entries[n - 1], "op"@) is Some);
        if steps_of(entries, n) is Ok {
            assert forall|i: int| 0 <= i < n implies text_argument(
                #[trigger] entries[i],
                "op"@,
            ) is Some by {}
        }
    }
}

// ---------------------------------------------------------------------------
// Importing
// ---------------------------------------------------------------------------

/// A stand-in is built only of a picture: always or never where that is said, else where it is needed.
pub proof fn law_a_stand_in_is_built_as_asked(probe: Probe, args: JsonView)
    ensures
        probe.video is None ==> !builds_proxy(probe, ProxyMode::Auto) && !builds_proxy(
            probe,
            ProxyMode::Always,
        ),
        probe.video is Some ==> builds_proxy(probe, ProxyMode::Always) && (builds_proxy(
            probe,
            ProxyMode::Auto,
        ) <==> needs_proxy(probe)),
        !builds_proxy(probe, ProxyMode::Never),
        argument(args, "proxy"@) == Some(JsonView::Bool(true)) ==> mode_argument(args) == Ok::<
            ProxyMode,
            ErrorView,
        >(ProxyMode::Always),
        argument(args, "proxy"@) == Some(JsonView::Bool(false)) ==> mode_argument(args) == Ok::<
            ProxyMode,
            ErrorView,
        >(ProxyMode::Never),
        is_absent(argument(args, "proxy"@)) || argument(args, "proxy"@) == Some(
            JsonView::Text("auto"@),
        ) ==> mode_argument(args) == Ok::<ProxyMode, ErrorView>(ProxyMode::Auto),
{
}

/// An import warns exactly of varying timing, and a new file exactly of being shorter than the old one.
pub proof fn law_an_import_warns_of_varying_timing(
    probe: Probe,
    mode: ProxyMode,
    id: Seq<char>,
    name: Seq<char>,
    fps: Fps,
    before: Time,
    after: Time,
)
    ensures
        import_warning(probe, mode, id, name, fps) is Some <==> probe.vfr,
        import_warning(probe, mode, id, name, fps) matches Some(told) ==> told.target == id,
        shorter_warning(id, before, after) is Some <==> after.lt(before),
        shorter_warning(id, before, after) matches Some(told) ==> told.target == id,
{
}

/// A name that is given is the asset's, else that of the file.
pub proof fn law_a_given_name_counts(path: Seq<char>, name: Seq<char>)
    ensures
        imported_name(path, Some(name)) == name,
        crate::paths::file_name_of(path) matches Some(own) ==> imported_name(path, None) == own,
        crate::paths::file_name_of(path) is None ==> imported_name(path, None) == path,
{
}

/// Every asset whose bytes are gone is told, and no other.
pub proof fn law_every_missing_asset_is_told(assets: Seq<Asset>, asset: Asset)
    ensures
        gone(Seq::<Asset>::empty()).len() == 0,
        asset.path is None ==> gone(assets.push(asset)) == gone(assets).push(
            (asset.id@, asset.name@),
        ),
        asset.path is Some ==> gone(assets.push(asset)) == gone(assets),
{
    assert(assets.push(asset).drop_last() =~= assets);
}

// ---------------------------------------------------------------------------
// The timeline's end
// ---------------------------------------------------------------------------

/// Whether an instant is where a clip or a cue of some tracks ends.
pub open spec fn is_an_end(tracks: Seq<Track>, end: Time) -> bool {
    exists|t: int|
        0 <= t < tracks.len() && (some_clip_ends((#[trigger] tracks[t]).clips@, end)
            || some_cue_ends(tracks[t].cues@, end))
}

pub open spec fn some_clip_ends(clips: Seq<Clip>, end: Time) -> bool {
    exists|c: int|
        0 <= c < clips.len() && (#[trigger] clips[c]).start.spec_plus(clips[c].duration) == end
}

pub open spec fn some_cue_ends(cues: Seq<CaptionCue>, end: Time) -> bool {
    exists|c: int| 0 <= c < cues.len() && (#[trigger] cues[c]).span.end == end
}

proof fn lemma_clips_end(clips: Seq<Clip>)
    requires
        forall|c: int| 0 <= c < clips.len() ==> (#[trigger] clips[c]).spec_end().wf(),
    ensures
        clips_end(clips).wf(),
        clips_end(clips).secs.num == 0 || some_clip_ends(clips, clips_end(clips)),
        forall|c: int|
            0 <= c < clips.len() ==> (#[trigger] clips[c]).spec_end().le(clips_end(clips)),
    decreases clips.len(),
{
    if clips.len() > 0 {
        let rest = clips.drop_last();
        let n = clips.len() - 1;
        assert forall|c: int| 0 <= c < rest.len() implies (#[trigger] rest[c]).spec_end().wf() by {
            assert(rest[c] == clips[c]);
        }
        lemma_clips_end(rest);
        assert(clips.last() == clips[n] && clips[n].spec_end().wf());
        let (was, now) = (clips_end(rest), clips_end(clips));
        assert forall|c: int| 0 <= c < clips.len() implies (#[trigger] clips[c]).spec_end().le(
            now,
        ) by {
            assert(was.le(now));
            if c < n {
                assert(rest[c] == clips[c]);
                lemma_le_is_transitive(clips[c].spec_end(), was, now);
            }
        }
        if now == was {
            if some_clip_ends(rest, was) {
                let c = choose|c: int|
                    0 <= c < rest.len() && (#[trigger] rest[c]).start.spec_plus(rest[c].duration)
                        == was;
                assert(clips[c] == rest[c]);
            }
        } else {
            assert(clips[n].start.spec_plus(clips[n].duration) == now);
        }
    }
}

proof fn lemma_cues_end(cues: Seq<CaptionCue>)
    requires
        forall|c: int| 0 <= c < cues.len() ==> (#[trigger] cues[c]).span.end.wf(),
    ensures
        cues_end(cues).wf(),
        cues_end(cues).secs.num == 0 || some_cue_ends(cues, cues_end(cues)),
        forall|c: int| 0 <= c < cues.len() ==> (#[trigger] cues[c]).span.end.le(cues_end(cues)),
    decreases cues.len(),
{
    if cues.len() > 0 {
        let rest = cues.drop_last();
        let n = cues.len() - 1;
        assert forall|c: int| 0 <= c < rest.len() implies (#[trigger] rest[c]).span.end.wf() by {
            assert(rest[c] == cues[c]);
        }
        lemma_cues_end(rest);
        assert(cues.last() == cues[n] && cues[n].span.end.wf());
        let (was, now) = (cues_end(rest), cues_end(cues));
        assert forall|c: int| 0 <= c < cues.len() implies (#[trigger] cues[c]).span.end.le(
            now,
        ) by {
            assert(was.le(now));
            if c < n {
                assert(rest[c] == cues[c]);
                lemma_le_is_transitive(cues[c].span.end, was, now);
            }
        }
        if now == was {
            if some_cue_ends(rest, was) {
                let c = choose|c: int| 0 <= c < rest.len() && (#[trigger] rest[c]).span.end == was;
                assert(cues[c] == rest[c]);
            }
        } else {
            assert(cues[n].span.end == now);
        }
    }
}

/// A timeline ends where the last of its clips and cues does: none ends later, and one ends there,
/// unless there is nothing.
pub proof fn law_a_timeline_ends_with_its_last_clip(tracks: Seq<Track>, t: int, c: int)
    requires
        forall|t: int, c: int|
            #![trigger tracks[t].clips@[c]]
            0 <= t < tracks.len() && 0 <= c < tracks[t].clips@.len()
                ==> tracks[t].clips@[c].spec_end().wf(),
        forall|t: int, c: int|
            #![trigger tracks[t].cues@[c]]
            0 <= t < tracks.len() && 0 <= c < tracks[t].cues@.len()
                ==> tracks[t].cues@[c].span.end.wf(),
    ensures
        tracks_end(tracks).wf(),
        tracks_end(tracks).secs.num == 0 || is_an_end(tracks, tracks_end(tracks)),
        0 <= t < tracks.len() && 0 <= c < tracks[t].clips@.len()
            ==> tracks[t].clips@[c].start.spec_plus(tracks[t].clips@[c].duration).le(
            tracks_end(tracks),
        ),
        0 <= t < tracks.len() && 0 <= c < tracks[t].cues@.len() ==> tracks[t].cues@[c].span.end.le(
            tracks_end(tracks),
        ),
    decreases tracks.len(),
{
    if tracks.len() > 0 {
        let rest = tracks.drop_last();
        let n = tracks.len() - 1;
        assert forall|t: int, c: int|
            #![trigger rest[t].clips@[c]]
            0 <= t < rest.len() && 0 <= c
                < rest[t].clips@.len() implies rest[t].clips@[c].spec_end().wf() by {
            assert(tracks[t].clips@[c].spec_end().wf());
        }
        assert forall|t: int, c: int|
            #![trigger rest[t].cues@[c]]
            0 <= t < rest.len() && 0 <= c
                < rest[t].cues@.len() implies rest[t].cues@[c].span.end.wf() by {
            assert(tracks[t].cues@[c].span.end.wf());
        }
        law_a_timeline_ends_with_its_last_clip(rest, t, c);
        let track = tracks[n];
        assert(tracks.last() == track);
        let (clips, cues) = (track.clips@, track.cues@);
        assert forall|c: int| 0 <= c < clips.len() implies (#[trigger] clips[c]).spec_end().wf() by {
            assert(tracks[n].clips@[c].spec_end().wf());
        }
        assert forall|c: int| 0 <= c < cues.len() implies (#[trigger] cues[c]).span.end.wf() by {
            assert(tracks[n].cues@[c].span.end.wf());
        }
        lemma_clips_end(clips);
        lemma_cues_end(cues);
        let (was, now) = (tracks_end(rest), tracks_end(tracks));
        let (x, y) = (clips_end(clips), cues_end(cues));
        let own = x.spec_max(y);
        assert(x.le(own) && y.le(own));
        assert(was.le(now) && own.le(now));
        if now == was {
            if is_an_end(rest, was) {
                let t = choose|t: int|
                    0 <= t < rest.len() && (some_clip_ends((#[trigger] rest[t]).clips@, was)
                        || some_cue_ends(rest[t].cues@, was));
                assert(tracks[t] == rest[t]);
            }
        } else if now.secs.num != 0 {
            assert(some_clip_ends(tracks[n].clips@, now) || some_cue_ends(tracks[n].cues@, now));
        }
        if 0 <= t < rest.len() {
            assert(rest[t] == tracks[t]);
            if 0 <= c < tracks[t].clips@.len() {
                assert(tracks[t].clips@[c].spec_end().wf());
                lemma_le_is_transitive(tracks[t].clips@[c].spec_end(), was, now);
            }
            if 0 <= c < tracks[t].cues@.len() {
                assert(tracks[t].cues@[c].span.end.wf());
                lemma_le_is_transitive(tracks[t].cues@[c].span.end, was, now);
            }
        } else if t == n {
            if 0 <= c < clips.len() {
                assert(clips[c].spec_end().le(x));
                lemma_le_is_transitive(clips[c].spec_end(), x, own);
                lemma_le_is_transitive(clips[c].spec_end(), own, now);
            }
            if 0 <= c < cues.len() {
                assert(cues[c].span.end.le(y));
                lemma_le_is_transitive(cues[c].span.end, y, own);
                lemma_le_is_transitive(cues[c].span.end, own, now);
            }
        }
    }
}

// ---------------------------------------------------------------------------
// Base 64
// ---------------------------------------------------------------------------

/// The six bits that a character stands for.
pub open spec fn worth(c: char) -> int {
    if 'A' <= c <= 'Z' {
        c as int - 'A' as int
    } else if 'a' <= c <= 'z' {
        c as int - 'a' as int + 26
    } else if '0' <= c <= '9' {
        c as int - '0' as int + 52
    } else if c == '+' {
        62
    } else {
        63
    }
}

/// Three bytes are read back from the four characters that stand for them.
pub proof fn law_three_bytes_are_read_back(bytes: Seq<u8>)
    requires
        bytes.len() >= 3,
    ensures
        ({
            let text = base64(bytes);
            &&& text.len() >= 4
            &&& worth(text[0]) * 4 + worth(text[1]) / 16 == bytes[0]
            &&& worth(text[1]) % 16 * 16 + worth(text[2]) / 4 == bytes[1]
            &&& worth(text[2]) % 4 * 64 + worth(text[3]) == bytes[2]
            &&& text.skip(4) == base64(bytes.skip(3))
        }),
{
    let (a, b, c) = (bytes[0] as int, bytes[1] as int, bytes[2] as int);
    lemma_worth(a / 4);
    lemma_worth(a % 4 * 16 + b / 16);
    lemma_worth(b % 16 * 4 + c / 64);
    lemma_worth(c % 64);
    assert(base64(bytes).skip(4) =~= base64(bytes.skip(3)));
}

proof fn lemma_worth(n: int)
    requires
        0 <= n < 64,
    ensures
        worth(sextet(n)) == n,
{
}

/// The last one or two bytes are read back too, and what is missing is filled up.
pub proof fn law_the_last_bytes_are_read_back(bytes: Seq<u8>)
    ensures
        bytes.len() == 1 ==> {
            let text = base64(bytes);
            &&& text.len() == 4 && text[2] == '=' && text[3] == '='
            &&& worth(text[0]) * 4 + worth(text[1]) / 16 == bytes[0]
        },
        bytes.len() == 2 ==> {
            let text = base64(bytes);
            &&& text.len() == 4 && text[3] == '='
            &&& worth(text[0]) * 4 + worth(text[1]) / 16 == bytes[0]
            &&& worth(text[1]) % 16 * 16 + worth(text[2]) / 4 == bytes[1]
        },
        bytes.len() == 0 ==> base64(bytes).len() == 0,
{
    if bytes.len() == 1 {
        let a = bytes[0] as int;
        lemma_worth(a / 4);
        lemma_worth(a % 4 * 16);
    } else if bytes.len() == 2 {
        let (a, b) = (bytes[0] as int, bytes[1] as int);
        lemma_worth(a / 4);
        lemma_worth(a % 4 * 16 + b / 16);
        lemma_worth(b % 16 * 4);
    }
}

} // verus!
