//! Rules on what clips read: past the end of a source, at another rate, blown up, barred, or
//! out of step with the clip they are linked to.

use crate::coverage::{sequence_sane, tracks_end};
use crate::finding::{push_secs3, secs3, zero, Finding, FindingView, Severity};
use crate::lint_timeline::finding_view;
use crate::number::{fixed_text, push_fixed, push_rounded, rounded_text};
use crate::project::{Asset, Clip, Project, Sequence, Source, VideoStream};
use crate::rational::{round_half_away, round_half_even, rounded, rounded_even, Rat};
use crate::text::{dec, push_dec, same};
use crate::time::{Fps, Time};
use crate::timeline::clip_asset;
use crate::views::{push_view, views};
use vstd::arithmetic::div_mod::{
    lemma_fundamental_div_mod, lemma_hoist_over_denominator, lemma_mod_division_less_than_divisor,
    lemma_mod_multiples_vanish,
};
use vstd::prelude::*;

verus! {

/// The rate at which a clip reads its source, and what it reads.
pub open spec fn source_end(clip: Clip) -> Time {
    clip.source_in.spec_plus(clip.duration.spec_times(clip.speed))
}

pub open spec fn source_end_fits(clip: Clip) -> bool {
    clip.duration.product_fits(clip.speed) && clip.source_in.sum_fits(
        clip.duration.spec_times(clip.speed),
    )
}

impl Clip {
    /// The end of what this clip reads of its source.
    pub fn source_end(&self) -> (r: Time)
        requires
            self.wf(),
            source_end_fits(*self),
        ensures
            r == source_end(*self),
            r.wf(),
    {
        self.source_in.plus(&self.duration.times(&self.speed))
    }
}

/// How much of a source there is, where it has an end.
pub open spec fn available(project: Project, source: Source) -> Option<Time> {
    match source {
        Source::Asset { asset } => if project.asset_at(asset@) >= 0 {
            Some(project.assets@[project.asset_at(asset@)].probe.duration)
        } else {
            None
        },
        Source::Sequence { sequence } => if project.sequence_at(sequence@) >= 0 {
            Some(tracks_end(project.sequences@[project.sequence_at(sequence@)].tracks@))
        } else {
            None
        },
        _ => None,
    }
}

/// Whether a project's sequences can be measured, and its media are described by numbers.
pub open spec fn project_sane(project: Project) -> bool {
    &&& forall|s: int|
        0 <= s < project.sequences@.len() ==> sequence_sane(#[trigger] project.sequences@[s])
    &&& forall|a: int|
        0 <= a < project.assets@.len() ==> asset_sane(#[trigger] project.assets@[a])
}

pub open spec fn asset_sane(asset: Asset) -> bool {
    asset.probe.duration.wf() && match asset.probe.video {
        Some(stream) => stream.fps.wf() && stream.sar.wf(),
        None => true,
    }
}

/// How much of a source there is.
pub fn source_available(project: &Project, source: &Source) -> (r: Option<Time>)
    requires
        project_sane(*project),
    ensures
        r == available(*project, *source),
        r is Some ==> r->0.wf(),
{
    match source {
        Source::Asset { asset } => match project.find_asset(asset.as_str()) {
            Some(at) => {
                assert(asset_sane(project.assets@[at as int]));
                Some(project.assets[at].probe.duration)
            },
            None => None,
        },
        Source::Sequence { sequence } => match project.find_sequence(sequence.as_str()) {
            Some(at) => {
                assert(sequence_sane(project.sequences@[at as int]));
                Some(project.sequences[at].duration())
            },
            None => None,
        },
        _ => None,
    }
}

// ---------------------------------------------------------------------------
// Past the end
// ---------------------------------------------------------------------------

pub open spec fn past_end_finding(clip: Clip, needed: Time, there: Time) -> FindingView {
    FindingView {
        rule: "past-source-end"@,
        severity: Severity::Error,
        target: clip.id@,
        detail: "'"@ + clip.spec_label() + "' reads "@ + secs3(needed.spec_minus(there))
            + "s past the end of its source; those frames render as a freeze"@,
        value: Some(needed.secs),
        required: Some(there.secs),
    }
}

#[verifier::opaque]
pub open spec fn past_end(project: Project, clip: Clip) -> Option<FindingView> {
    match available(project, clip.source) {
        None => None,
        Some(there) => if there.lt(source_end(clip)) {
            Some(past_end_finding(clip, source_end(clip), there))
        } else {
            None
        },
    }
}

pub open spec fn past_end_fits(project: Project, clip: Clip) -> bool {
    available(project, clip.source) matches Some(there) ==> source_end_fits(clip) && source_end(
        clip,
    ).difference_fits(there)
}

pub fn past_source_end(project: &Project, clip: &Clip) -> (r: Option<Finding>)
    requires
        project_sane(*project),
        clip.wf(),
        past_end_fits(*project, *clip),
    ensures
        finding_view(r) == past_end(*project, *clip),
{
    reveal(past_end);
    let there = match source_available(project, &clip.source) {
        Some(there) => there,
        None => {
            return None;
        },
    };
    let needed = clip.source_end();
    if there.before(&needed) {
        let mut detail = "'".to_owned();
        detail.append(clip.label());
        detail.append("' reads ");
        push_secs3(&mut detail, needed.minus(&there));
        detail.append("s past the end of its source; those frames render as a freeze");
        return Some(
            Finding {
                rule: "past-source-end",
                severity: Severity::Error,
                target: clip.id.as_str().to_owned(),
                detail,
                value: Some(needed.secs),
                required: Some(there.secs),
            },
        );
    }
    None
}

// ---------------------------------------------------------------------------
// Speed
// ---------------------------------------------------------------------------

/// Source frames for each frame of the sequence.
pub open spec fn frames_per_output(clip: Clip, source: Fps, sequence: Fps) -> Rat {
    let read = Rat::of(clip.speed.num * source.rate.num, clip.speed.den * source.rate.den);
    Rat::of(read.num * sequence.rate.den, read.den * sequence.rate.num)
}

pub open spec fn speed_fits(clip: Clip, source: Fps, sequence: Fps) -> bool {
    let read = Rat::of(clip.speed.num * source.rate.num, clip.speed.den * source.rate.den);
    &&& Rat::fits(clip.speed.num * source.rate.num, clip.speed.den * source.rate.den)
    &&& Rat::fits(read.num * sequence.rate.den, read.den * sequence.rate.num)
}

pub open spec fn slow_finding(clip: Clip, frames: Rat) -> FindingView {
    FindingView {
        rule: "speed-frame-drop"@,
        severity: Severity::Warning,
        target: clip.id@,
        detail: "'"@ + clip.spec_label() + "' at speed "@ + clip.speed.text() + " draws "@
            + rounded_text(frames, 2) + " source frames per output frame, so frames repeat"@,
        value: Some(frames),
        required: Some(Rat { num: 1, den: 1 }),
    }
}

/// The picture stream that a clip reads.
pub open spec fn clip_stream(project: Project, clip: Clip) -> Option<VideoStream> {
    match clip_asset(project, clip) {
        Some(asset) => asset.probe.video,
        None => None,
    }
}

#[verifier::opaque]
pub open spec fn slow(project: Project, sequence: Sequence, clip: Clip) -> Option<FindingView> {
    match clip_stream(project, clip) {
        None => None,
        Some(stream) => {
            let frames = frames_per_output(clip, stream.fps, sequence.fps);
            if frames.num < frames.den {
                Some(slow_finding(clip, frames))
            } else {
                None
            }
        },
    }
}

/// The asset a clip reads.
pub fn find_clip_asset<'a>(project: &'a Project, clip: &Clip) -> (r: Option<&'a Asset>)
    ensures
        (match r {
            Some(asset) => clip_asset(*project, *clip) == Some(*asset),
            None => clip_asset(*project, *clip) is None,
        }),
        project_sane(*project) && r is Some ==> asset_sane(*r->0),
{
    match clip.source.asset_id() {
        Some(id) => match project.find_asset(id.as_str()) {
            Some(at) => {
                assert(project_sane(*project) ==> asset_sane(project.assets@[at as int]));
                Some(&project.assets[at])
            },
            None => None,
        },
        None => None,
    }
}

pub fn speed_rules(project: &Project, sequence: &Sequence, clip: &Clip) -> (r: Option<Finding>)
    requires
        project_sane(*project),
        sequence.fps.wf(),
        clip.wf(),
        clip_stream(*project, *clip) matches Some(stream) ==> speed_fits(
            *clip,
            stream.fps,
            sequence.fps,
        ),
    ensures
        finding_view(r) == slow(*project, *sequence, *clip),
{
    reveal(slow);
    let asset = match find_clip_asset(project, clip) {
        Some(asset) => asset,
        None => {
            return None;
        },
    };
    let stream = match &asset.probe.video {
        Some(stream) => stream,
        None => {
            return None;
        },
    };
    let read = (Time { secs: clip.speed }).times(&stream.fps.rate);
    let frames = read.times(
        &Rat { num: sequence.fps.rate.den, den: sequence.fps.rate.num },
    ).secs;
    assert(frames == frames_per_output(*clip, stream.fps, sequence.fps));
    if frames.num < frames.den {
        let mut detail = "'".to_owned();
        detail.append(clip.label());
        detail.append("' at speed ");
        detail.append(clip.speed.to_text().as_str());
        detail.append(" draws ");
        push_rounded(&mut detail, frames, 2);
        detail.append(" source frames per output frame, so frames repeat");
        return Some(
            Finding {
                rule: "speed-frame-drop",
                severity: Severity::Warning,
                target: clip.id.as_str().to_owned(),
                detail,
                value: Some(frames),
                required: Some(Rat { num: 1, den: 1 }),
            },
        );
    }
    None
}

// ---------------------------------------------------------------------------
// Rate
// ---------------------------------------------------------------------------

/// Whether two rates are different numbers.
pub open spec fn rates_differ(a: Fps, b: Fps) -> bool {
    a.rate.spec_lt(b.rate) || b.rate.spec_lt(a.rate)
}

pub open spec fn off_rate(project: Project, sequence: Sequence, clip: Clip) -> Option<FindingView> {
    match clip_stream(project, clip) {
        None => None,
        Some(stream) => if rates_differ(stream.fps, sequence.fps) {
            Some(
                FindingView {
                    rule: "fps-mismatch"@,
                    severity: Severity::Info,
                    target: clip.id@,
                    detail: "'"@ + clip_asset(project, clip)->0.name@ + "' is "@
                        + stream.fps.text() + " fps on a "@ + sequence.fps.text()
                        + " fps sequence; frames are resampled on decode"@,
                    value: Some(stream.fps.rate),
                    required: Some(sequence.fps.rate),
                },
            )
        } else {
            None
        },
    }
}

fn rate_rule(asset: &Asset, sequence: &Sequence, clip: &Clip, project: &Project) -> (r: Option<
    Finding,
>)
    requires
        clip_asset(*project, *clip) == Some(*asset),
    ensures
        finding_view(r) == off_rate(*project, *sequence, *clip),
{
    match &asset.probe.video {
        None => None,
        Some(stream) => {
            if stream.fps.rate.before(&sequence.fps.rate) || sequence.fps.rate.before(
                &stream.fps.rate,
            ) {
                let mut detail = "'".to_owned();
                detail.append(asset.name.as_str());
                detail.append("' is ");
                detail.append(stream.fps.to_text().as_str());
                detail.append(" fps on a ");
                detail.append(sequence.fps.to_text().as_str());
                detail.append(" fps sequence; frames are resampled on decode");
                Some(
                    Finding {
                        rule: "fps-mismatch",
                        severity: Severity::Info,
                        target: clip.id.as_str().to_owned(),
                        detail,
                        value: Some(stream.fps.rate),
                        required: Some(sequence.fps.rate),
                    },
                )
            } else {
                None
            }
        },
    }
}

pub open spec fn varying(project: Project, clip: Clip) -> Option<FindingView> {
    match clip_asset(project, clip) {
        None => None,
        Some(asset) => if asset.probe.vfr && asset.proxy is None {
            Some(
                FindingView {
                    rule: "vfr-source"@,
                    severity: Severity::Warning,
                    target: clip.id@,
                    detail: "'"@ + asset.name@
                        + "' has a variable frame rate and no constant-rate proxy, so frame-exact edits on it are guesses"@,
                    value: None,
                    required: None,
                },
            )
        } else {
            None
        },
    }
}

fn timing_rule(asset: &Asset, clip: &Clip, project: &Project) -> (r: Option<Finding>)
    requires
        clip_asset(*project, *clip) == Some(*asset),
    ensures
        finding_view(r) == varying(*project, *clip),
{
    if asset.probe.vfr && asset.proxy.is_none() {
        let mut detail = "'".to_owned();
        detail.append(asset.name.as_str());
        detail.append(
            "' has a variable frame rate and no constant-rate proxy, so frame-exact edits on it are guesses",
        );
        Some(
            Finding {
                rule: "vfr-source",
                severity: Severity::Warning,
                target: clip.id.as_str().to_owned(),
                detail,
                value: None,
                required: None,
            },
        )
    } else {
        None
    }
}

// ---------------------------------------------------------------------------
// Resolution
// ---------------------------------------------------------------------------

/// Where a clip's picture lands: its size in the frame, in millionths of a pixel.
#[derive(Clone, Debug)]
pub struct Placement {
    pub clip: String,
    pub width: i64,
    pub height: i64,
}

pub open spec fn placement_ok(place: Placement) -> bool {
    0 <= place.width && 0 <= place.height
}

pub open spec fn placements_ok(places: Seq<Placement>) -> bool {
    forall|i: int| 0 <= i < places.len() ==> placement_ok(#[trigger] places[i])
}

/// The placement of a clip.
pub open spec fn place_of(places: Seq<Placement>, clip: Seq<char>) -> Option<Placement>
    decreases places.len(),
{
    if places.len() == 0 {
        None
    } else if places[0].clip@ == clip {
        Some(places[0])
    } else {
        place_of(places.skip(1), clip)
    }
}

/// The placement of a clip.
pub fn placement_of<'a>(places: &'a Vec<Placement>, clip: &str) -> (r: Option<&'a Placement>)
    requires
        placements_ok(places@),
    ensures
        (match r {
            Some(place) => place_of(places@, clip@) == Some(*place) && placement_ok(*place),
            None => place_of(places@, clip@) is None,
        }),
{
    let mut i: usize = 0;
    assert(places@.skip(0) =~= places@);
    while i < places.len()
        invariant
            i <= places@.len(),
            placements_ok(places@),
            place_of(places@.skip(i as int), clip@) == place_of(places@, clip@),
        decreases places@.len() - i,
    {
        assert(places@.skip(i as int)[0] == places@[i as int]);
        assert(places@.skip(i as int).skip(1) =~= places@.skip(i + 1));
        assert(placement_ok(places@[i as int]));
        if same(places[i].clip.as_str(), clip) {
            return Some(&places[i]);
        }
        i = i + 1;
    }
    None
}

pub open spec fn at_least_one(n: u32) -> int {
    if n == 0 {
        1
    } else {
        n as int
    }
}

/// Pixels shown for each pixel of the source.
pub open spec fn blow_up(place: Placement, native: [u32; 2]) -> Rat {
    if native@[0] > 0 {
        Rat::of(place.width as int, native@[0] * 1_000_000)
    } else {
        Rat { num: 1, den: 1 }
    }
}

/// Whether a picture is blown up by more than rounding explains.
pub open spec fn is_blown_up(place: Placement, native: [u32; 2]) -> bool {
    native@[0] > 0 && place.width * 100 > native@[0] * 102_000_000
}

pub open spec fn pixels_text(millionths: int) -> Seq<char> {
    fixed_text(round_half_even(millionths, 1_000_000), 0)
}

pub open spec fn upscaled_finding(clip: Clip, name: Seq<char>, native: [u32; 2], place: Placement) -> FindingView {
    FindingView {
        rule: "upscaled"@,
        severity: Severity::Warning,
        target: clip.id@,
        detail: "'"@ + name + "' is "@ + dec(native@[0] as nat) + "x"@ + dec(native@[1] as nat)
            + " shown at "@ + pixels_text(place.width as int) + "x"@ + pixels_text(
            place.height as int,
        ) + ", a "@ + rounded_text(blow_up(place, native), 2) + "x blow-up"@,
        value: Some(blow_up(place, native)),
        required: Some(Rat { num: 1, den: 1 }),
    }
}

fn push_pixels(out: &mut String, millionths: i64)
    ensures
        final(out)@ == old(out)@ + pixels_text(millionths as int),
{
    push_fixed(out, rounded_even(millionths as i128, 1_000_000), 0);
}

proof fn lemma_blow_up_fits(width: int, den: int)
    requires
        0 <= width <= i64::MAX,
        0 < den <= i64::MAX,
    ensures
        Rat::fits(width, den),
{
    let g = crate::rational::gcd(crate::rational::abs(width), crate::rational::abs(den));
    crate::rational::lemma_gcd_divides(
        crate::rational::abs(width),
        crate::rational::abs(den),
    );
    assert(g > 0) by {
        crate::rational::lemma_exact_division(crate::rational::abs(den), g);
    }
    assert(width as nat / g <= width) by (nonlinear_arith)
        requires
            width >= 0,
            g > 0,
    ;
    assert(den as nat / g <= den) by (nonlinear_arith)
        requires
            den >= 0,
            g > 0,
    ;
}

/// Pixels shown for each pixel of the source.
pub fn ratio_of(place: &Placement, native: [u32; 2]) -> (r: Rat)
    requires
        placement_ok(*place),
    ensures
        r == blow_up(*place, native),
        r.wf(),
{
    if native[0] == 0 {
        return Rat { num: 1, den: 1 };
    }
    proof {
        lemma_blow_up_fits(place.width as int, native@[0] * 1_000_000);
        Rat::lemma_of(place.width as int, native@[0] * 1_000_000);
    }
    match Rat::try_of(place.width as i128, (native[0] as i128) * 1_000_000) {
        Some(ratio) => ratio,
        None => Rat { num: 1, den: 1 },
    }
}

fn upscale_rule(clip: &Clip, name: &str, native: [u32; 2], place: &Placement) -> (r: Option<
    Finding,
>)
    requires
        placement_ok(*place),
    ensures
        finding_view(r) == (if is_blown_up(*place, native) {
            Some(upscaled_finding(*clip, name@, native, *place))
        } else {
            None
        }),
{
    if native[0] == 0 {
        return None;
    }
    if !((place.width as i128) * 100 > (native[0] as i128) * 102_000_000) {
        return None;
    }
    let ratio = ratio_of(place, native);
    let mut detail = "'".to_owned();
    detail.append(name);
    detail.append("' is ");
    push_dec(&mut detail, native[0] as u128);
    detail.append("x");
    push_dec(&mut detail, native[1] as u128);
    detail.append(" shown at ");
    push_pixels(&mut detail, place.width);
    detail.append("x");
    push_pixels(&mut detail, place.height);
    detail.append(", a ");
    push_rounded(&mut detail, ratio, 2);
    detail.append("x blow-up");
    Some(
        Finding {
            rule: "upscaled",
            severity: Severity::Warning,
            target: clip.id.as_str().to_owned(),
            detail,
            value: Some(ratio),
            required: Some(Rat { num: 1, den: 1 }),
        },
    )
}

/// Whether two pictures have the same shape, give or take a hundredth.
pub open spec fn same_shape(native: [u32; 2], frame: [u32; 2]) -> bool {
    let a = native@[0] as int;
    let b = at_least_one(native@[1]);
    let c = frame@[0] as int;
    let d = at_least_one(frame@[1]);
    c > 0 && 100 * (a * d - c * b) <= b * c && 100 * (c * b - a * d) <= b * c
}

/// Whether a picture reaches across the frame one way or the other.
pub open spec fn fills(place: Placement, frame: [u32; 2]) -> bool {
    place.width * 100 >= frame@[0] * 99_000_000 || place.height * 100 >= frame@[1] * 99_000_000
}

/// The area of a frame, in the unit of a product of two placements.
pub open spec fn frame_area(frame: [u32; 2]) -> int {
    let area = frame@[0] * frame@[1];
    (if area < 1 {
        1
    } else {
        area
    }) * 1_000_000_000_000
}

pub open spec fn bare_area(place: Placement, frame: [u32; 2]) -> int {
    frame_area(frame) - place.width * place.height
}

/// The share of the frame that is bars, in millionths.
pub open spec fn bars(place: Placement, frame: [u32; 2]) -> int {
    let share = round_half_away(bare_area(place, frame) * 1_000_000, frame_area(frame));
    if share < -0x4000_0000_0000_0000 {
        -0x4000_0000_0000_0000
    } else {
        share
    }
}

pub open spec fn letterboxed_finding(
    clip: Clip,
    name: Seq<char>,
    native: [u32; 2],
    frame: [u32; 2],
    place: Placement,
) -> FindingView {
    FindingView {
        rule: "letterboxed"@,
        severity: Severity::Info,
        target: clip.id@,
        detail: "'"@ + name + "' is "@ + rounded_text(
            Rat { num: native@[0] as i64, den: at_least_one(native@[1]) as i64 },
            3,
        ) + ":1 in a "@ + rounded_text(
            Rat { num: frame@[0] as i64, den: at_least_one(frame@[1]) as i64 },
            3,
        ) + ":1 frame, so "@ + fixed_text(
            round_half_even(bare_area(place, frame) * 100, frame_area(frame)),
            0,
        ) + "% of the frame is bars"@,
        value: Some(Rat { num: bars(place, frame) as i64, den: 1_000_000 }),
        required: Some(zero()),
    }
}

/// Whether a picture that wants to fill the frame leaves some of it bare.
pub open spec fn is_letterboxed(
    clip: Clip,
    native: [u32; 2],
    frame: [u32; 2],
    place: Placement,
) -> bool {
    clip.fit@ == "contain"@ && !same_shape(native, frame) && fills(place, frame)
}

proof fn lemma_areas(w: int, h: int, place: Placement)
    requires
        0 <= w <= u32::MAX,
        0 <= h <= u32::MAX,
        placement_ok(place),
    ensures
        0 <= w * h <= 0xffff_ffff * 0xffff_ffff,
        0 <= place.width * place.height <= 0x7fff_ffff_ffff_ffff * 0x7fff_ffff_ffff_ffff,
{
    assert(0 <= w * h <= 0xffff_ffff * 0xffff_ffff) by (nonlinear_arith)
        requires
            0 <= w <= 0xffff_ffff,
            0 <= h <= 0xffff_ffff,
    ;
    let a = place.width as int;
    let b = place.height as int;
    assert(0 <= a * b <= 0x7fff_ffff_ffff_ffff * 0x7fff_ffff_ffff_ffff) by (nonlinear_arith)
        requires
            0 <= a <= 0x7fff_ffff_ffff_ffff,
            0 <= b <= 0x7fff_ffff_ffff_ffff,
    ;
}

proof fn lemma_share_at_most(n: int, d: int)
    requires
        d > 0,
        n <= d,
    ensures
        round_half_away(n * 1_000_000, d) <= 1_000_001,
{
    let m = n * 1_000_000;
    if m >= 0 {
        let q = (2 * m + d) / (2 * d);
        assert(q <= 1_000_001) by (nonlinear_arith)
            requires
                0 <= m <= d * 1_000_000,
                d > 0,
                q == (2 * m + d) / (2 * d),
        ;
    } else {
        let q = (2 * (-m) + d) / (2 * d);
        assert(q >= 0) by (nonlinear_arith)
            requires
                m < 0,
                d > 0,
                q == (2 * (-m) + d) / (2 * d),
        ;
    }
}

/// A multiple of a quotient and its rest, over the divisor.
proof fn lemma_scaled_parts(n: int, d: int, k: int, q: int, r: int)
    requires
        n >= 0,
        d > 0,
        k > 0,
        q == n / d,
        r == n % d,
    ensures
        n * k == (q * k) * d + r * k,
        0 <= r < d,
        0 <= r * k,
        0 <= q * k,
        round_half_away(n * k, d) == q * k + round_half_away(r * k, d),
        (n * k) / d == q * k + (r * k) / d,
        (n * k) % d == (r * k) % d,
{
    lemma_fundamental_div_mod(n, d);
    lemma_mod_division_less_than_divisor(n, d);
    assert(n * k == (q * k) * d + r * k) by (nonlinear_arith)
        requires
            n == d * q + r,
    ;
    assert(q >= 0) by (nonlinear_arith)
        requires
            n >= 0,
            d > 0,
            q == n / d,
    ;
    assert(0 <= r * k && 0 <= q * k) by (nonlinear_arith)
        requires
            r >= 0,
            q >= 0,
            k > 0,
    ;
    let m = q * k;
    let rest = r * k;
    lemma_hoist_over_denominator(rest, m, d as nat);
    lemma_mod_multiples_vanish(m, rest, d);
    assert(d * m + rest == m * d + rest) by (nonlinear_arith);
    assert(2 * (m * d + rest) + d == (2 * rest + d) + m * (2 * d)) by (nonlinear_arith);
    lemma_hoist_over_denominator(2 * rest + d, m, (2 * d) as nat);
}

/// The share that `bare` is of `area`, in so many parts of the whole: rounded with halves away from
/// zero, and with halves to the even number.
fn shares(bare: i128, area: i128, parts: i128) -> (r: (i128, i128))
    requires
        -0x4000_0000_0000_0000_0000_0000_0000_0000 <= bare <= area,
        1_000_000_000_000 <= area <= 0x100_0000_0000_0000_0000_0000_0000,
        parts == 100 || parts == 1_000_000,
    ensures
        r.0 == round_half_away(bare * parts, area as int),
        r.1 == round_half_even(bare * parts, area as int),
        r.1 > i128::MIN,
{
    let size: i128 = if bare < 0 {
        -bare
    } else {
        bare
    };
    let q: i128 = size / area;
    let rest: i128 = size % area;
    proof {
        lemma_scaled_parts(size as int, area as int, parts as int, q as int, rest as int);
        assert(0 <= q <= 0x100_0000_0000_0000_0000_0000) by (nonlinear_arith)
            requires
                0 <= size <= 0x4000_0000_0000_0000_0000_0000_0000_0000,
                area >= 1_000_000_000_000,
                q == size / area,
        ;
        assert(0 <= rest * parts <= 0x100_0000_0000_0000_0000_0000_0000 * 1_000_000)
            by (nonlinear_arith)
            requires
                0 <= rest <= 0x100_0000_0000_0000_0000_0000_0000,
                0 < parts <= 1_000_000,
        ;
        assert(0 <= q * parts <= 0x100_0000_0000_0000_0000_0000 * 1_000_000) by (nonlinear_arith)
            requires
                0 <= q <= 0x100_0000_0000_0000_0000_0000,
                0 < parts <= 1_000_000,
        ;
        assert((q * parts) % 2 == 0) by (nonlinear_arith)
            requires
                parts == 100 || parts == 1_000_000,
        ;
        assert(bare < 0 ==> bare * parts == -(size * parts) && bare * parts < 0)
            by (nonlinear_arith)
            requires
                parts > 0,
                bare < 0 ==> size == -bare,
        ;
    }
    let away: i128 = q * parts + rounded(rest * parts, area);
    let even: i128 = q * parts + rounded_even(rest * parts, area);
    if bare < 0 {
        (-away, -even)
    } else {
        (away, even)
    }
}

fn shapes_match(native: [u32; 2], frame: [u32; 2]) -> (r: bool)
    ensures
        r == same_shape(native, frame),
{
    let a: i128 = native[0] as i128;
    let b: i128 = if native[1] == 0 {
        1
    } else {
        native[1] as i128
    };
    let c: i128 = frame[0] as i128;
    let d: i128 = if frame[1] == 0 {
        1
    } else {
        frame[1] as i128
    };
    proof {
        crate::rational::lemma_wide(a as int, d as int);
        assert(0 <= a * d <= 0xffff_ffff * 0xffff_ffff) by (nonlinear_arith)
            requires
                0 <= a <= 0xffff_ffff,
                0 <= d <= 0xffff_ffff,
        ;
        assert(0 <= c * b <= 0xffff_ffff * 0xffff_ffff) by (nonlinear_arith)
            requires
                0 <= c <= 0xffff_ffff,
                0 <= b <= 0xffff_ffff,
        ;
        assert(b * c == c * b) by (nonlinear_arith);
    }
    let left: i128 = a * d;
    let right: i128 = c * b;
    c > 0 && 100 * (left - right) <= right && 100 * (right - left) <= right
}

fn letterbox_rule(
    clip: &Clip,
    name: &str,
    native: [u32; 2],
    frame: [u32; 2],
    place: &Placement,
) -> (r: Option<Finding>)
    requires
        placement_ok(*place),
    ensures
        finding_view(r) == (if is_letterboxed(*clip, native, frame, *place) {
            Some(letterboxed_finding(*clip, name@, native, frame, *place))
        } else {
            None
        }),
{
    if !same(clip.fit.as_str(), "contain") {
        return None;
    }
    if shapes_match(native, frame) {
        return None;
    }
    let across = (place.width as i128) * 100 >= (frame[0] as i128) * 99_000_000 || (
    place.height as i128) * 100 >= (frame[1] as i128) * 99_000_000;
    if !across {
        return None;
    }
    proof {
        lemma_areas(frame@[0] as int, frame@[1] as int, *place);
    }
    let pixels: i128 = (frame[0] as i128) * (frame[1] as i128);
    let area: i128 = (if pixels < 1 {
        1
    } else {
        pixels
    }) * 1_000_000_000_000;
    let bare: i128 = area - (place.width as i128) * (place.height as i128);
    assert(area == frame_area(frame));
    assert(bare == bare_area(*place, frame));
    let (share, _) = shares(bare, area, 1_000_000);
    let (_, percent) = shares(bare, area, 100);
    proof {
        lemma_share_at_most(bare as int, area as int);
    }
    let share: i128 = if share < -0x4000_0000_0000_0000 {
        -0x4000_0000_0000_0000
    } else {
        share
    };
    let mut detail = "'".to_owned();
    detail.append(name);
    detail.append("' is ");
    push_rounded(
        &mut detail,
        Rat {
            num: native[0] as i64,
            den: if native[1] == 0 {
                1
            } else {
                native[1] as i64
            },
        },
        3,
    );
    detail.append(":1 in a ");
    push_rounded(
        &mut detail,
        Rat {
            num: frame[0] as i64,
            den: if frame[1] == 0 {
                1
            } else {
                frame[1] as i64
            },
        },
        3,
    );
    detail.append(":1 frame, so ");
    push_fixed(&mut detail, percent, 0);
    detail.append("% of the frame is bars");
    Some(
        Finding {
            rule: "letterboxed",
            severity: Severity::Info,
            target: clip.id.as_str().to_owned(),
            detail,
            value: Some(Rat { num: share as i64, den: 1_000_000 }),
            required: Some(Rat { num: 0, den: 1 }),
        },
    )
}

pub open spec fn one(finding: Option<FindingView>) -> Seq<FindingView> {
    match finding {
        Some(finding) => seq![finding],
        None => seq![],
    }
}

/// What there is to say of the size of a clip's picture.
pub open spec fn resolution_findings(
    project: Project,
    sequence: Sequence,
    clip: Clip,
    places: Seq<Placement>,
) -> Seq<FindingView> {
    match (clip_stream(project, clip), place_of(places, clip.id@)) {
        (Some(stream), Some(place)) => {
            let native = stream.shown_size();
            let name = clip_asset(project, clip)->0.name@;
            one(
                if is_blown_up(place, native) {
                    Some(upscaled_finding(clip, name, native, place))
                } else {
                    None
                },
            ) + one(
                if is_letterboxed(clip, native, sequence.size, place) {
                    Some(letterboxed_finding(clip, name, native, sequence.size, place))
                } else {
                    None
                },
            )
        },
        _ => seq![],
    }
}

pub fn push_finding(out: &mut Vec<Finding>, finding: Option<Finding>)
    ensures
        views(final(out)@) == views(old(out)@) + one(finding_view(finding)),
{
    match finding {
        Some(finding) => push_view(out, finding),
        None => {},
    }
    assert(views(out@) =~= views(old(out)@) + one(finding_view(finding)));
}

#[verifier::opaque]
pub open spec fn asset_findings(
    project: Project,
    sequence: Sequence,
    clip: Clip,
    places: Seq<Placement>,
) -> Seq<FindingView> {
    one(off_rate(project, sequence, clip)) + one(varying(project, clip)) + resolution_findings(
        project,
        sequence,
        clip,
        places,
    )
}

/// What there is to say of the asset that a clip reads.
pub fn asset_rules(
    out: &mut Vec<Finding>,
    project: &Project,
    sequence: &Sequence,
    clip: &Clip,
    places: &Vec<Placement>,
)
    requires
        project_sane(*project),
        placements_ok(places@),
    ensures
        views(final(out)@) == views(old(out)@) + asset_findings(
            *project,
            *sequence,
            *clip,
            places@,
        ),
{
    reveal(asset_findings);
    let ghost before = views(out@);
    let asset = match find_clip_asset(project, clip) {
        Some(asset) => asset,
        None => {
            assert(views(out@) =~= before + asset_findings(*project, *sequence, *clip, places@));
            return;
        },
    };
    push_finding(out, rate_rule(asset, sequence, clip, project));
    push_finding(out, timing_rule(asset, clip, project));
    let ghost then = views(out@);
    match (&asset.probe.video, placement_of(places, clip.id.as_str())) {
        (Some(stream), Some(place)) => {
            let native = stream.display_size();
            push_finding(out, upscale_rule(clip, asset.name.as_str(), native, place));
            push_finding(
                out,
                letterbox_rule(clip, asset.name.as_str(), native, sequence.size, place),
            );
        },
        _ => {},
    }
    assert(views(out@) =~= then + resolution_findings(*project, *sequence, *clip, places@));
    assert(views(out@) =~= before + asset_findings(*project, *sequence, *clip, places@));
}

} // verus!
