//! Rules on what is seen and heard: black, frozen and flashing picture, and how loud the mix
//! is, where it is silent, and where music drowns a voice.
//!
//! Levels are in millionths of a decibel or loudness unit.

use crate::coverage::{clip_span, clips_wf, spans_wf};
use crate::finding::{
    push_secs3, secs3, window, window_text, zero, Finding, FindingView, LoudnessProfile, Severity,
};
use crate::lint_link::plain_finding;
use crate::lint_source::{one, push_finding};
use crate::lint_timeline::{all_measurable, finding_view};
use crate::number::{fixed_text, push_fixed};
use crate::project::{Clip, Track};
use crate::rational::{abs, round_half_even, rounded_even, Rat};
use crate::text::{dec, same};
use crate::time::{Fps, Span, Time};
use crate::views::{push_view, views};
use vstd::prelude::*;

verus! {

/// Loudness at or below which a mix counts as silent.
pub const AUDIBLE_FLOOR: i64 = -60_000_000;

/// How far a mix may be from its target.
pub const LOUDNESS_TOLERANCE: i64 = 1_000_000;

/// How much quieter one of two tracks has to be.
pub const DUCK_MARGIN: i64 = 6_000_000;

// ---------------------------------------------------------------------------
// Picture
// ---------------------------------------------------------------------------

pub open spec fn black_finding(span: Span) -> FindingView {
    FindingView {
        rule: "black-frames"@,
        severity: Severity::Warning,
        target: window_text("clip"@, span),
        detail: secs3(span.length()) + "s of black picture from "@ + span.start.text(),
        value: Some(span.length().secs),
        required: Some(zero()),
    }
}

pub open spec fn frozen_finding(span: Span) -> FindingView {
    FindingView {
        rule: "frozen-frames"@,
        severity: Severity::Warning,
        target: window_text("clip"@, span),
        detail: "the picture does not change for "@ + secs3(span.length()) + "s from "@
            + span.start.text(),
        value: Some(span.length().secs),
        required: Some(zero()),
    }
}

pub open spec fn flash_finding(at: Time, frame: Time) -> FindingView {
    plain_finding(
        "flash"@,
        Severity::Warning,
        window_text("clip"@, Span { start: at, end: at.spec_plus(frame) }),
        "luminance spikes and returns at "@ + at.text(),
    )
}

pub open spec fn black_findings(spans: Seq<Span>) -> Seq<FindingView> {
    spans.map_values(|span: Span| black_finding(span))
}

pub open spec fn frozen_findings(spans: Seq<Span>) -> Seq<FindingView> {
    spans.map_values(|span: Span| frozen_finding(span))
}

pub open spec fn flash_findings(flashes: Seq<Time>, frame: Time) -> Seq<FindingView> {
    flashes.map_values(|at: Time| flash_finding(at, frame))
}

/// Whether the frame behind every flash can be stored.
pub open spec fn flashes_fit(flashes: Seq<Time>, frame: Time) -> bool {
    forall|i: int|
        0 <= i < flashes.len() ==> (#[trigger] flashes[i]).wf() && flashes[i].sum_fits(frame)
}

fn push_black(out: &mut Vec<Finding>, spans: &Vec<Span>)
    requires
        spans_wf(spans@),
        all_measurable(spans@),
    ensures
        views(final(out)@) == views(old(out)@) + black_findings(spans@),
{
    let ghost before = views(out@);
    let ghost all = black_findings(spans@);
    let mut i: usize = 0;
    assert(all.take(0) =~= seq![]);
    assert(before + Seq::<FindingView>::empty() =~= before);
    while i < spans.len()
        invariant
            i <= spans@.len(),
            spans_wf(spans@),
            all_measurable(spans@),
            all == black_findings(spans@),
            views(out@) == before + all.take(i as int),
        decreases spans@.len() - i,
    {
        let span = spans[i];
        assert(spans@[i as int].wf() && spans@[i as int].measurable());
        let mut detail = String::new();
        push_secs3(&mut detail, span.duration());
        assert(detail@ =~= secs3(span.length()));
        detail.append("s of black picture from ");
        detail.append(span.start.to_text().as_str());
        push_view(
            out,
            Finding {
                rule: "black-frames",
                severity: Severity::Warning,
                target: window("clip", span),
                detail,
                value: Some(span.duration().secs),
                required: Some(Rat { num: 0, den: 1 }),
            },
        );
        assert(all.take(i + 1) =~= all.take(i as int).push(black_finding(span)));
        i = i + 1;
        assert(views(out@) =~= before + all.take(i as int));
    }
    assert(all.take(i as int) =~= all);
}

fn push_frozen(out: &mut Vec<Finding>, spans: &Vec<Span>)
    requires
        spans_wf(spans@),
        all_measurable(spans@),
    ensures
        views(final(out)@) == views(old(out)@) + frozen_findings(spans@),
{
    let ghost before = views(out@);
    let ghost all = frozen_findings(spans@);
    let mut i: usize = 0;
    assert(all.take(0) =~= seq![]);
    assert(before + Seq::<FindingView>::empty() =~= before);
    while i < spans.len()
        invariant
            i <= spans@.len(),
            spans_wf(spans@),
            all_measurable(spans@),
            all == frozen_findings(spans@),
            views(out@) == before + all.take(i as int),
        decreases spans@.len() - i,
    {
        let span = spans[i];
        assert(spans@[i as int].wf() && spans@[i as int].measurable());
        let mut detail = "the picture does not change for ".to_owned();
        push_secs3(&mut detail, span.duration());
        detail.append("s from ");
        detail.append(span.start.to_text().as_str());
        push_view(
            out,
            Finding {
                rule: "frozen-frames",
                severity: Severity::Warning,
                target: window("clip", span),
                detail,
                value: Some(span.duration().secs),
                required: Some(Rat { num: 0, den: 1 }),
            },
        );
        assert(all.take(i + 1) =~= all.take(i as int).push(frozen_finding(span)));
        i = i + 1;
        assert(views(out@) =~= before + all.take(i as int));
    }
    assert(all.take(i as int) =~= all);
}

fn push_flashes(out: &mut Vec<Finding>, flashes: &Vec<Time>, frame: Time)
    requires
        frame.wf(),
        flashes_fit(flashes@, frame),
    ensures
        views(final(out)@) == views(old(out)@) + flash_findings(flashes@, frame),
{
    let ghost before = views(out@);
    let ghost all = flash_findings(flashes@, frame);
    let mut i: usize = 0;
    assert(all.take(0) =~= seq![]);
    assert(before + Seq::<FindingView>::empty() =~= before);
    while i < flashes.len()
        invariant
            i <= flashes@.len(),
            frame.wf(),
            flashes_fit(flashes@, frame),
            all == flash_findings(flashes@, frame),
            views(out@) == before + all.take(i as int),
        decreases flashes@.len() - i,
    {
        let at = flashes[i];
        assert(flashes@[i as int].wf());
        let mut detail = "luminance spikes and returns at ".to_owned();
        detail.append(at.to_text().as_str());
        push_view(
            out,
            Finding {
                rule: "flash",
                severity: Severity::Warning,
                target: window("clip", Span::from_duration(at, frame)),
                detail,
                value: None,
                required: None,
            },
        );
        assert(all.take(i + 1) =~= all.take(i as int).push(flash_finding(at, frame)));
        i = i + 1;
        assert(views(out@) =~= before + all.take(i as int));
    }
    assert(all.take(i as int) =~= all);
}

/// What sampled frames showed.
#[derive(Clone, Debug)]
pub struct Seen {
    pub black: Vec<Span>,
    pub frozen: Vec<Span>,
    pub flashes: Vec<Time>,
}

pub open spec fn seen_ok(seen: Seen, fps: Fps) -> bool {
    &&& spans_wf(seen.black@)
    &&& all_measurable(seen.black@)
    &&& spans_wf(seen.frozen@)
    &&& all_measurable(seen.frozen@)
    &&& flashes_fit(seen.flashes@, fps.spec_frame_duration())
}

pub open spec fn pixel_findings(seen: Seen, fps: Fps) -> Seq<FindingView> {
    black_findings(seen.black@) + frozen_findings(seen.frozen@) + flash_findings(
        seen.flashes@,
        fps.spec_frame_duration(),
    )
}

/// What is wrong with the picture.
pub fn pixel_rules(seen: &Seen, fps: Fps) -> (r: Vec<Finding>)
    requires
        fps.wf(),
        seen_ok(*seen, fps),
    ensures
        views(r@) == pixel_findings(*seen, fps),
{
    let mut out: Vec<Finding> = Vec::new();
    assert(views(out@) =~= seq![]);
    push_black(&mut out, &seen.black);
    assert(views(out@) =~= black_findings(seen.black@));
    push_frozen(&mut out, &seen.frozen);
    push_flashes(&mut out, &seen.flashes, fps.frame_duration());
    out
}

// ---------------------------------------------------------------------------
// Sound
// ---------------------------------------------------------------------------

/// What was measured of a mix.
#[derive(Clone, Debug)]
pub struct Heard {
    pub integrated: i64,
    pub true_peak: i64,
    /// The gain that would bring the mix to its target.
    pub gain: i64,
    pub clipped: u64,
    /// Silences that are too long.
    pub silences: Vec<Span>,
}

pub open spec fn heard_ok(heard: Heard) -> bool {
    &&& spans_wf(heard.silences@)
    &&& all_measurable(heard.silences@)
}

pub open spec fn sign_text(n: int) -> Seq<char> {
    if n < 0 {
        "-"@
    } else {
        ""@
    }
}

/// Millionths with one decimal.
pub open spec fn tenths(n: int) -> Seq<char> {
    sign_text(n) + fixed_text(round_half_even((abs(n) * 10) as int, 1_000_000), 1)
}

/// Millionths with one decimal and always a sign.
pub open spec fn signed_tenths(n: int) -> Seq<char> {
    if n < 0 {
        tenths(n)
    } else {
        "+"@ + tenths(n)
    }
}

pub fn push_tenths(out: &mut String, n: i64)
    ensures
        final(out)@ == old(out)@ + tenths(n as int),
{
    let ghost before = out@;
    let a: i128 = if n < 0 {
        out.append("-");
        -(n as i128)
    } else {
        n as i128
    };
    proof {
        reveal_strlit("");
    }
    assert(out@ =~= before + sign_text(n as int));
    push_fixed(out, rounded_even(a * 10, 1_000_000), 1);
    assert(out@ =~= before + tenths(n as int));
}

fn push_signed(out: &mut String, n: i64)
    ensures
        final(out)@ == old(out)@ + signed_tenths(n as int),
{
    let ghost before = out@;
    if n >= 0 {
        out.append("+");
    }
    push_tenths(out, n);
    assert(out@ =~= before + signed_tenths(n as int));
}

pub open spec fn loudness_finding(heard: Heard, profile: LoudnessProfile) -> Option<FindingView> {
    let target = profile.target() * 1_000_000;
    let delta = heard.integrated - target;
    if heard.integrated > AUDIBLE_FLOOR && (delta > LOUDNESS_TOLERANCE || -delta
        > LOUDNESS_TOLERANCE) {
        Some(
            FindingView {
                rule: "loudness-out-of-spec"@,
                severity: Severity::Warning,
                target: "track[kind=audio]"@,
                detail: "mix is "@ + tenths(heard.integrated as int) + " LUFS against the "@
                    + profile.spec_name() + " target of "@ + tenths(target)
                    + "; apply audio.normalize --lufs "@ + fixed_text(profile.target(), 0)
                    + " ("@ + signed_tenths(heard.gain as int) + " dB)"@,
                value: Some(Rat { num: heard.integrated, den: 1_000_000 }),
                required: Some(Rat { num: profile.target() as i64, den: 1 }),
            },
        )
    } else {
        None
    }
}

pub open spec fn peak_finding(heard: Heard) -> Option<FindingView> {
    if heard.true_peak > -1_000_000 {
        Some(
            FindingView {
                rule: "true-peak"@,
                severity: Severity::Error,
                target: "track[kind=audio]"@,
                detail: "true peak is "@ + tenths(heard.true_peak as int)
                    + " dBTP, above the -1.0 dBTP ceiling; a lossy encoder will clip it"@,
                value: Some(Rat { num: heard.true_peak, den: 1_000_000 }),
                required: Some(Rat { num: (-1) as i64, den: 1 }),
            },
        )
    } else {
        None
    }
}

pub open spec fn clipping_finding(clipped: u64) -> Option<FindingView> {
    if clipped > 0 {
        Some(
            FindingView {
                rule: "clipping"@,
                severity: Severity::Error,
                target: "track[kind=audio]"@,
                detail: dec(clipped as nat)
                    + " samples reached full scale; the mixer has no limiter, so lower a clip or track gain"@,
                value: Some(crate::lint_caption::count_value(clipped as int)),
                required: Some(zero()),
            },
        )
    } else {
        None
    }
}

pub open spec fn silence_finding(span: Span) -> FindingView {
    FindingView {
        rule: "silence-gap"@,
        severity: Severity::Warning,
        target: "track[kind=audio]"@,
        detail: secs3(span.length()) + "s with no audible audio, from "@ + span.start.text()
            + " to "@ + span.end.text(),
        value: Some(span.length().secs),
        required: Some(Rat { num: 2, den: 1 }),
    }
}

pub open spec fn silence_findings(spans: Seq<Span>) -> Seq<FindingView> {
    spans.map_values(|span: Span| silence_finding(span))
}

pub open spec fn mix_findings(heard: Heard, profile: LoudnessProfile) -> Seq<FindingView> {
    one(loudness_finding(heard, profile)) + one(peak_finding(heard)) + one(
        clipping_finding(heard.clipped),
    ) + silence_findings(heard.silences@)
}

fn loudness_rule(heard: &Heard, profile: LoudnessProfile) -> (r: Option<Finding>)
    ensures
        finding_view(r) == loudness_finding(*heard, profile),
{
    let whole: i64 = profile.target_lufs();
    let target: i64 = whole * 1_000_000;
    let delta: i128 = heard.integrated as i128 - target as i128;
    let most: i128 = LOUDNESS_TOLERANCE as i128;
    if !(heard.integrated > AUDIBLE_FLOOR && (delta > most || -delta > most)) {
        return None;
    }
    let mut detail = "mix is ".to_owned();
    push_tenths(&mut detail, heard.integrated);
    detail.append(" LUFS against the ");
    detail.append(profile.name());
    detail.append(" target of ");
    push_tenths(&mut detail, target);
    detail.append("; apply audio.normalize --lufs ");
    push_fixed(&mut detail, whole as i128, 0);
    detail.append(" (");
    push_signed(&mut detail, heard.gain);
    detail.append(" dB)");
    Some(
        Finding {
            rule: "loudness-out-of-spec",
            severity: Severity::Warning,
            target: "track[kind=audio]".to_owned(),
            detail,
            value: Some(Rat { num: heard.integrated, den: 1_000_000 }),
            required: Some(Rat { num: whole, den: 1 }),
        },
    )
}

fn peak_rule(heard: &Heard) -> (r: Option<Finding>)
    ensures
        finding_view(r) == peak_finding(*heard),
{
    if heard.true_peak <= -1_000_000 {
        return None;
    }
    let mut detail = "true peak is ".to_owned();
    push_tenths(&mut detail, heard.true_peak);
    detail.append(" dBTP, above the -1.0 dBTP ceiling; a lossy encoder will clip it");
    Some(
        Finding {
            rule: "true-peak",
            severity: Severity::Error,
            target: "track[kind=audio]".to_owned(),
            detail,
            value: Some(Rat { num: heard.true_peak, den: 1_000_000 }),
            required: Some(Rat { num: -1, den: 1 }),
        },
    )
}

fn clipping_rule(clipped: u64) -> (r: Option<Finding>)
    ensures
        finding_view(r) == clipping_finding(clipped),
{
    if clipped == 0 {
        return None;
    }
    let mut detail = crate::text::decimal(clipped as u128);
    detail.append(
        " samples reached full scale; the mixer has no limiter, so lower a clip or track gain",
    );
    let num: i64 = if clipped > i64::MAX as u64 {
        i64::MAX
    } else {
        clipped as i64
    };
    Some(
        Finding {
            rule: "clipping",
            severity: Severity::Error,
            target: "track[kind=audio]".to_owned(),
            detail,
            value: Some(Rat { num, den: 1 }),
            required: Some(Rat { num: 0, den: 1 }),
        },
    )
}

fn push_silences(out: &mut Vec<Finding>, spans: &Vec<Span>)
    requires
        spans_wf(spans@),
        all_measurable(spans@),
    ensures
        views(final(out)@) == views(old(out)@) + silence_findings(spans@),
{
    let ghost before = views(out@);
    let ghost all = silence_findings(spans@);
    let mut i: usize = 0;
    assert(all.take(0) =~= seq![]);
    assert(before + Seq::<FindingView>::empty() =~= before);
    while i < spans.len()
        invariant
            i <= spans@.len(),
            spans_wf(spans@),
            all_measurable(spans@),
            all == silence_findings(spans@),
            views(out@) == before + all.take(i as int),
        decreases spans@.len() - i,
    {
        let span = spans[i];
        assert(spans@[i as int].wf() && spans@[i as int].measurable());
        let mut detail = String::new();
        push_secs3(&mut detail, span.duration());
        assert(detail@ =~= secs3(span.length()));
        detail.append("s with no audible audio, from ");
        detail.append(span.start.to_text().as_str());
        detail.append(" to ");
        detail.append(span.end.to_text().as_str());
        push_view(
            out,
            Finding {
                rule: "silence-gap",
                severity: Severity::Warning,
                target: "track[kind=audio]".to_owned(),
                detail,
                value: Some(span.duration().secs),
                required: Some(Rat { num: 2, den: 1 }),
            },
        );
        assert(all.take(i + 1) =~= all.take(i as int).push(silence_finding(span)));
        i = i + 1;
        assert(views(out@) =~= before + all.take(i as int));
    }
    assert(all.take(i as int) =~= all);
}

/// What is wrong with the mix.
pub fn audio_rules(heard: &Heard, profile: LoudnessProfile) -> (r: Vec<Finding>)
    requires
        heard_ok(*heard),
    ensures
        views(r@) == mix_findings(*heard, profile),
{
    let mut out: Vec<Finding> = Vec::new();
    assert(views(out@) =~= seq![]);
    push_finding(&mut out, loudness_rule(heard, profile));
    assert(views(out@) =~= one(loudness_finding(*heard, profile)));
    push_finding(&mut out, peak_rule(heard));
    push_finding(&mut out, clipping_rule(heard.clipped));
    push_silences(&mut out, &heard.silences);
    out
}

// ---------------------------------------------------------------------------
// Ducking
// ---------------------------------------------------------------------------

pub open spec fn clip_ducked(clip: Clip, against: Seq<char>) -> bool {
    match clip.ducking {
        Some(id) => id@ == against,
        None => false,
    }
}

/// Whether some clip of a track is pushed down by another track.
pub open spec fn is_ducked(track: Track, against: Seq<char>) -> bool {
    exists|i: int|
        0 <= i < track.clips@.len() && clip_ducked(#[trigger] track.clips@[i], against)
}

pub fn ducks_against(track: &Track, against: &str) -> (r: bool)
    ensures
        r == is_ducked(*track, against@),
{
    let mut i: usize = 0;
    while i < track.clips.len()
        invariant
            i <= track.clips@.len(),
            forall|k: int| 0 <= k < i ==> !clip_ducked(#[trigger] track.clips@[k], against@),
        decreases track.clips@.len() - i,
    {
        if let Some(id) = &track.clips[i].ducking {
            if same(id.as_str(), against) {
                assert(clip_ducked(track.clips@[i as int], against@));
                return true;
            }
        }
        i = i + 1;
    }
    false
}

/// The length of the longest clip.
pub open spec fn longest(clips: Seq<Clip>) -> Time
    decreases clips.len(),
{
    if clips.len() == 0 {
        Time::zero_spec()
    } else if clips.len() == 1 {
        clips[0].duration
    } else {
        longest(clips.drop_last()).spec_max(clips.last().duration)
    }
}

pub fn longest_clip(track: &Track) -> (r: Time)
    ensures
        r == longest(track.clips@),
{
    let clips = &track.clips;
    if clips.len() == 0 {
        return Time::zero();
    }
    let mut best = clips[0].duration;
    let mut i: usize = 1;
    assert(clips@.take(1)[0] == clips@[0]);
    while i < clips.len()
        invariant
            1 <= i <= clips@.len(),
            best == longest(clips@.take(i as int)),
        decreases clips@.len() - i,
    {
        assert(clips@.take(i + 1).drop_last() =~= clips@.take(i as int));
        best = best.max(clips[i].duration);
        i = i + 1;
    }
    assert(clips@.take(i as int) =~= clips@);
    best
}

/// The better of two stretches: the first of the longest.
pub open spec fn better(best: Option<Span>, span: Span) -> Option<Span> {
    if span.empty() {
        best
    } else {
        match best {
            None => Some(span),
            Some(current) => if current.length().lt(span.length()) {
                Some(span)
            } else {
                best
            },
        }
    }
}

pub open spec fn best_with(left: Clip, right: Seq<Clip>, best: Option<Span>) -> Option<Span>
    decreases right.len(),
{
    if right.len() == 0 {
        best
    } else {
        better(
            best_with(left, right.drop_last(), best),
            clip_span(left).shared(clip_span(right.last())),
        )
    }
}

/// The longest stretch in which clips of both lists play.
pub open spec fn best_overlap(left: Seq<Clip>, right: Seq<Clip>) -> Option<Span>
    decreases left.len(),
{
    if left.len() == 0 {
        None
    } else {
        best_with(left.last(), right, best_overlap(left.drop_last(), right))
    }
}

/// Whether the length of every shared stretch can be stored.
pub open spec fn shares_fit(left: Seq<Clip>, right: Seq<Clip>) -> bool {
    forall|i: int, j: int|
        0 <= i < left.len() && 0 <= j < right.len() ==> clip_span(#[trigger] left[i]).shared(
            clip_span(#[trigger] right[j]),
        ).measurable()
}

fn take_better(best: Option<Span>, span: Span) -> (r: Option<Span>)
    requires
        span.wf(),
        span.measurable(),
        best is Some ==> best->0.wf() && best->0.measurable(),
    ensures
        r == better(best, span),
        r is Some ==> r->0.wf() && r->0.measurable(),
{
    if span.is_empty() {
        return best;
    }
    match best {
        None => Some(span),
        Some(current) => {
            if current.duration().before(&span.duration()) {
                Some(span)
            } else {
                best
            }
        },
    }
}

/// The longest stretch in which both tracks play.
pub fn longest_overlap(first: &Track, second: &Track) -> (r: Option<Span>)
    requires
        clips_wf(first.clips@),
        clips_wf(second.clips@),
        shares_fit(first.clips@, second.clips@),
    ensures
        r == best_overlap(first.clips@, second.clips@),
        r is Some ==> r->0.wf() && r->0.measurable(),
{
    let left = &first.clips;
    let right = &second.clips;
    let mut best: Option<Span> = None;
    let mut i: usize = 0;
    assert(left@.take(0) =~= seq![]);
    while i < left.len()
        invariant
            i <= left@.len(),
            clips_wf(left@),
            clips_wf(right@),
            shares_fit(left@, right@),
            best == best_overlap(left@.take(i as int), right@),
            best is Some ==> best->0.wf() && best->0.measurable(),
        decreases left@.len() - i,
    {
        assert(left@.take(i + 1).drop_last() =~= left@.take(i as int));
        assert(left@[i as int].wf());
        let span = left[i].span();
        let ghost before = best;
        let mut j: usize = 0;
        assert(right@.take(0) =~= seq![]);
        while j < right.len()
            invariant
                j <= right@.len(),
                i < left@.len(),
                clips_wf(right@),
                shares_fit(left@, right@),
                span == clip_span(left@[i as int]),
                span.wf(),
                best == best_with(left@[i as int], right@.take(j as int), before),
                best is Some ==> best->0.wf() && best->0.measurable(),
            decreases right@.len() - j,
        {
            assert(right@.take(j + 1).drop_last() =~= right@.take(j as int));
            assert(right@[j as int].wf());
            let other = right[j].span();
            let both = Span { start: span.start.max(other.start), end: span.end.min(other.end) };
            assert(both == clip_span(left@[i as int]).shared(clip_span(right@[j as int])));
            best = take_better(best, both);
            j = j + 1;
        }
        assert(right@.take(j as int) =~= right@);
        i = i + 1;
    }
    assert(left@.take(i as int) =~= left@);
    best
}

/// The stretch over which two tracks have to be measured against each other: both play for at
/// least a second, neither is muted, and neither is pushed down by the other.
pub open spec fn duck_window(first: Track, second: Track) -> Option<Span> {
    if first.muted || second.muted {
        None
    } else {
        match best_overlap(first.clips@, second.clips@) {
            None => None,
            Some(span) => if span.length().lt(crate::analyze::seconds(1)) || is_ducked(
                first,
                second.id@,
            ) || is_ducked(second, first.id@) {
                None
            } else {
                Some(span)
            },
        }
    }
}

pub fn measured_window(first: &Track, second: &Track) -> (r: Option<Span>)
    requires
        clips_wf(first.clips@),
        clips_wf(second.clips@),
        shares_fit(first.clips@, second.clips@),
    ensures
        r == duck_window(*first, *second),
        r is Some ==> r->0.wf() && r->0.measurable(),
{
    if first.muted || second.muted {
        return None;
    }
    match longest_overlap(first, second) {
        None => None,
        Some(span) => {
            if span.duration().before(&Time::from_secs(1)) || ducks_against(
                first,
                second.id.as_str(),
            ) || ducks_against(second, first.id.as_str()) {
                None
            } else {
                Some(span)
            }
        },
    }
}

/// What there is to say of two tracks that play together, given how loud each is there.
pub open spec fn duck_finding(
    first: Track,
    second: Track,
    span: Span,
    left: i64,
    right: i64,
) -> Option<FindingView> {
    let separation = abs(left - right);
    if left <= AUDIBLE_FLOOR || right <= AUDIBLE_FLOOR || separation >= DUCK_MARGIN {
        None
    } else {
        let (bed, over) = if longest(second.clips@).le(longest(first.clips@)) {
            (first, second)
        } else {
            (second, first)
        };
        Some(
            FindingView {
                rule: "unducked-music"@,
                severity: Severity::Warning,
                target: bed.id@,
                detail: bed.name@ + " and "@ + over.name@ + " both play at within "@ + tenths(
                    separation as int,
                ) + " LU for "@ + crate::number::rounded_text(span.length().secs, 1)
                    + "s with no ducking; try audio.duck --track "@ + bed.name@ + " --against "@
                    + over.name@ + " --by -12"@,
                value: Some(Rat { num: separation as i64, den: 1_000_000 }),
                required: Some(Rat { num: 6, den: 1 }),
            },
        )
    }
}

/// Judges two tracks by how loud each is where both play. The one with the longest clip is the
/// bed: music is one long clip.
pub fn ducking_rule(first: &Track, second: &Track, span: Span, left: i64, right: i64) -> (r: Option<
    Finding,
>)
    requires
        span.wf(),
        span.measurable(),
    ensures
        finding_view(r) == duck_finding(*first, *second, span, left, right),
{
    let wide: i128 = if left < right {
        right as i128 - left as i128
    } else {
        left as i128 - right as i128
    };
    if left <= AUDIBLE_FLOOR || right <= AUDIBLE_FLOOR || wide >= DUCK_MARGIN as i128 {
        return None;
    }
    let separation: i64 = wide as i64;
    let (bed, over) = if longest_clip(second).at_most(&longest_clip(first)) {
        (first, second)
    } else {
        (second, first)
    };
    let mut detail = bed.name.as_str().to_owned();
    detail.append(" and ");
    detail.append(over.name.as_str());
    detail.append(" both play at within ");
    push_tenths(&mut detail, separation);
    detail.append(" LU for ");
    crate::number::push_rounded(&mut detail, span.duration().secs, 1);
    detail.append("s with no ducking; try audio.duck --track ");
    detail.append(bed.name.as_str());
    detail.append(" --against ");
    detail.append(over.name.as_str());
    detail.append(" --by -12");
    Some(
        Finding {
            rule: "unducked-music",
            severity: Severity::Warning,
            target: bed.id.as_str().to_owned(),
            detail,
            value: Some(Rat { num: separation, den: 1_000_000 }),
            required: Some(Rat { num: 6, den: 1 }),
        },
    )
}

/// A track that is pushed down by another is never measured against it.
pub proof fn law_ducked_tracks_are_not_measured(first: Track, second: Track)
    requires
        is_ducked(first, second.id@) || is_ducked(second, first.id@),
    ensures
        duck_window(first, second) is None,
{
}

} // verus!
