//! Rules on titles: where their text lies in the frame, what it is set in, and whether it can
//! be read.
//!
//! Places and sizes are in millionths of a pixel, contrast is in millionths.

use crate::finding::{Finding, FindingView, Severity};
use crate::lint_link::plain_finding;
use crate::lint_source::{at_least_one, one, pixels_text, push_finding};
use crate::lint_timeline::finding_view;
use crate::number::{fixed_text, number, number_text, push_fixed};
use crate::rational::{round_half_even, rounded_even, Rat};
use crate::text::{dec, push_dec};
use crate::time::Time;
use crate::views::views;
use vstd::prelude::*;

verus! {

/// Contrast below which text cannot be read.
pub const MIN_CONTRAST: i64 = 4_500_000;

/// Smallest type, in thousandths of the height of the frame.
pub const MIN_TYPE: i64 = 22;

/// The part of the frame that titles stay inside, in thousandths.
pub const TITLE_SAFE_AREA: i64 = 900;

/// A run of text in the frame.
#[derive(Clone, Debug)]
pub struct PlacedText {
    pub text: String,
    pub x: i64,
    pub y: i64,
    pub w: i64,
    pub h: i64,
    pub font_size: i64,
    /// The family it was set in, where it asked for another.
    pub fallback: Option<String>,
    /// Contrast with what is behind it, where that was measured.
    pub contrast: Option<i64>,
}

/// What a title clip shows at an instant.
#[derive(Clone, Debug)]
pub struct TitleMeasurement {
    pub clip: String,
    pub title: String,
    pub at: Time,
    /// Size of the frame the places are in.
    pub frame: [u32; 2],
    pub reports: Vec<PlacedText>,
}

/// Whether text runs out of the frame, by more than half a pixel.
pub open spec fn overflows(text: PlacedText, frame: [u32; 2]) -> bool {
    ||| text.x < -500_000
    ||| text.y < -500_000
    ||| text.x + text.w > frame@[0] * 1_000_000 + 500_000
    ||| text.y + text.h > frame@[1] * 1_000_000 + 500_000
}

pub open spec fn safe_of(safe: int) -> int {
    if safe < 100 {
        100
    } else if safe > 1000 {
        1000
    } else {
        safe
    }
}

/// The margin beside the safe part of a side, in millionths of a pixel.
pub open spec fn margin(side: int, safe: int) -> int {
    side * (1000 - safe_of(safe)) * 500
}

/// Whether text stays inside the safe part of the frame, give or take half a pixel.
pub open spec fn is_safe(text: PlacedText, frame: [u32; 2], safe: int) -> bool {
    let mx = margin(frame@[0] as int, safe);
    let my = margin(frame@[1] as int, safe);
    &&& text.x >= mx - 500_000
    &&& text.y >= my - 500_000
    &&& text.x + text.w <= frame@[0] * 1_000_000 - mx + 500_000
    &&& text.y + text.h <= frame@[1] * 1_000_000 - my + 500_000
}

impl PlacedText {
    pub fn overflows(&self, frame: [u32; 2]) -> (r: bool)
        ensures
            r == overflows(*self, frame),
    {
        self.x < -500_000 || self.y < -500_000 || self.x as i128 + self.w as i128 > (
        frame[0] as i128) * 1_000_000 + 500_000 || self.y as i128 + self.h as i128 > (
        frame[1] as i128) * 1_000_000 + 500_000
    }

    /// `safe` in thousandths of the frame.
    pub fn in_safe_area(&self, frame: [u32; 2], safe: i64) -> (r: bool)
        ensures
            r == is_safe(*self, frame, safe as int),
    {
        let s: i64 = if safe < 100 {
            100
        } else if safe > 1000 {
            1000
        } else {
            safe
        };
        let w: i64 = frame[0] as i64;
        let h: i64 = frame[1] as i64;
        proof {
            assert(0 <= w * (1000 - s) <= 0xffff_ffff * 900) by (nonlinear_arith)
                requires
                    0 <= w <= 0xffff_ffff,
                    100 <= s <= 1000,
            ;
            assert(0 <= h * (1000 - s) <= 0xffff_ffff * 900) by (nonlinear_arith)
                requires
                    0 <= h <= 0xffff_ffff,
                    100 <= s <= 1000,
            ;
        }
        let mx: i64 = w * (1000 - s) * 500;
        let my: i64 = h * (1000 - s) * 500;
        self.x >= mx - 500_000 && self.y >= my - 500_000 && self.x as i128 + self.w as i128 <= (w
            * 1_000_000 - mx + 500_000) as i128 && self.y as i128 + self.h as i128 <= (h * 1_000_000
            - my + 500_000) as i128
    }
}

/// What stays in the safe area does not run out of the frame.
pub proof fn law_what_is_safe_does_not_overflow(text: PlacedText, frame: [u32; 2], safe: int)
    requires
        is_safe(text, frame, safe),
    ensures
        !overflows(text, frame),
{
    let w = frame@[0] as int;
    let h = frame@[1] as int;
    let s = safe_of(safe);
    assert(w * (1000 - s) * 500 >= 0) by (nonlinear_arith)
        requires
            w >= 0,
            100 <= s <= 1000,
    ;
    assert(h * (1000 - s) * 500 >= 0) by (nonlinear_arith)
        requires
            h >= 0,
            100 <= s <= 1000,
    ;
}

/// A number with at least one decimal.
pub open spec fn decimal_text(millionths: int) -> Seq<char> {
    if millionths % 1_000_000 == 0 {
        number_text(millionths) + ".0"@
    } else {
        number_text(millionths)
    }
}

pub open spec fn box_text(text: PlacedText) -> Seq<char> {
    "["@ + decimal_text(text.x as int) + ", "@ + decimal_text(text.y as int) + ", "@
        + decimal_text(text.w as int) + ", "@ + decimal_text(text.h as int) + "]"@
}

fn push_decimal(out: &mut String, millionths: i64)
    ensures
        final(out)@ == old(out)@ + decimal_text(millionths as int),
{
    let ghost before = out@;
    out.append(number(millionths as i128).as_str());
    if (millionths as i128) % 1_000_000 == 0 {
        out.append(".0");
        assert(out@ =~= before + (number_text(millionths as int) + ".0"@));
    }
    proof {
        lemma_rest(millionths as int);
    }
}

proof fn lemma_rest(n: int)
    ensures
        n % 1_000_000 == 0 <==> (-n) % 1_000_000 == 0,
{
}

fn push_box(out: &mut String, text: &PlacedText)
    ensures
        final(out)@ == old(out)@ + box_text(*text),
{
    let mut part = "[".to_owned();
    push_decimal(&mut part, text.x);
    part.append(", ");
    push_decimal(&mut part, text.y);
    part.append(", ");
    push_decimal(&mut part, text.w);
    part.append(", ");
    push_decimal(&mut part, text.h);
    part.append("]");
    out.append(part.as_str());
}

pub open spec fn overflow_finding(clip: Seq<char>, text: PlacedText, frame: [u32; 2]) -> FindingView {
    plain_finding(
        "title-overflow"@,
        Severity::Error,
        clip,
        "'"@ + text.text@ + "' extends past the frame: bbox "@ + box_text(text) + " in a "@ + dec(
            frame@[0] as nat,
        ) + "x"@ + dec(frame@[1] as nat) + " frame"@,
    )
}

pub open spec fn unsafe_finding(clip: Seq<char>, text: PlacedText, frame: [u32; 2]) -> FindingView {
    plain_finding(
        "unsafe-area"@,
        Severity::Warning,
        clip,
        "'"@ + text.text@ + "' at "@ + box_text(text) + " sits outside the 90% safe area of the "@
            + dec(frame@[0] as nat) + "x"@ + dec(frame@[1] as nat)
            + " frame, where a player's chrome can cover it"@,
    )
}

/// What is wrong with where text lies.
pub open spec fn place_finding(clip: Seq<char>, text: PlacedText, frame: [u32; 2]) -> Option<
    FindingView,
> {
    if overflows(text, frame) {
        Some(overflow_finding(clip, text, frame))
    } else if !is_safe(text, frame, TITLE_SAFE_AREA as int) {
        Some(unsafe_finding(clip, text, frame))
    } else {
        None
    }
}

pub open spec fn font_finding(clip: Seq<char>, text: PlacedText) -> Option<FindingView> {
    match text.fallback {
        Some(fallback) => Some(
            plain_finding(
                "font-fallback"@,
                Severity::Warning,
                clip,
                "'"@ + text.text@
                    + "' asked for a font that is not installed and was rendered in '"@
                    + fallback@ + "'; the render will differ on another machine"@,
            ),
        ),
        None => None,
    }
}

/// Whether type is too small for the frame.
pub open spec fn is_tiny(text: PlacedText, frame: [u32; 2]) -> bool {
    text.font_size * 1000 < MIN_TYPE * at_least_one(frame@[1]) * 1_000_000
}

/// The size of type as a part of the height of the frame.
pub open spec fn type_share(text: PlacedText, frame: [u32; 2]) -> Rat {
    Rat {
        num: text.font_size,
        den: (at_least_one(frame@[1]) * 1_000_000) as i64,
    }
}

pub open spec fn tiny_finding(clip: Seq<char>, text: PlacedText, frame: [u32; 2]) -> Option<
    FindingView,
> {
    if is_tiny(text, frame) {
        Some(
            FindingView {
                rule: "tiny-type"@,
                severity: Severity::Warning,
                target: clip,
                detail: "'"@ + text.text@ + "' is "@ + pixels_text(text.font_size as int)
                    + "px in a "@ + dec(frame@[1] as nat)
                    + "px-tall frame, below the legible floor"@,
                value: Some(type_share(text, frame)),
                required: Some(Rat { num: 22, den: 1000 }),
            },
        )
    } else {
        None
    }
}

pub open spec fn contrast_text(contrast: int) -> Seq<char> {
    fixed_text(round_half_even(contrast * 10, 1_000_000), 1)
}

pub open spec fn contrast_finding(clip: Seq<char>, text: PlacedText, at: Time) -> Option<
    FindingView,
> {
    match text.contrast {
        Some(contrast) => if contrast < MIN_CONTRAST {
            Some(
                FindingView {
                    rule: "low-contrast"@,
                    severity: Severity::Warning,
                    target: clip,
                    detail: "'"@ + text.text@ + "' is at "@ + contrast_text(contrast as int)
                        + ":1 against the picture behind it at "@ + at.text(),
                    value: Some(Rat { num: contrast, den: 1_000_000 }),
                    required: Some(Rat { num: 9, den: 2 }),
                },
            )
        } else {
            None
        },
        None => None,
    }
}

/// What is wrong with a run of text. Its contrast needs the picture behind it.
pub open spec fn text_findings(
    clip: Seq<char>,
    text: PlacedText,
    frame: [u32; 2],
    at: Time,
    pixels: bool,
) -> Seq<FindingView> {
    one(place_finding(clip, text, frame)) + one(font_finding(clip, text)) + one(
        tiny_finding(clip, text, frame),
    ) + (if pixels {
        one(contrast_finding(clip, text, at))
    } else {
        seq![]
    })
}

pub open spec fn reports_findings(
    clip: Seq<char>,
    reports: Seq<PlacedText>,
    frame: [u32; 2],
    at: Time,
    pixels: bool,
) -> Seq<FindingView>
    decreases reports.len(),
{
    if reports.len() == 0 {
        seq![]
    } else {
        reports_findings(clip, reports.drop_last(), frame, at, pixels) + text_findings(
            clip,
            reports.last(),
            frame,
            at,
            pixels,
        )
    }
}

pub open spec fn title_findings(titles: Seq<TitleMeasurement>, pixels: bool) -> Seq<FindingView>
    decreases titles.len(),
{
    if titles.len() == 0 {
        seq![]
    } else {
        title_findings(titles.drop_last(), pixels) + reports_findings(
            titles.last().clip@,
            titles.last().reports@,
            titles.last().frame,
            titles.last().at,
            pixels,
        )
    }
}

fn place_rule(clip: &str, text: &PlacedText, frame: [u32; 2]) -> (r: Option<Finding>)
    ensures
        finding_view(r) == place_finding(clip@, *text, frame),
{
    if text.overflows(frame) {
        let mut detail = "'".to_owned();
        detail.append(text.text.as_str());
        detail.append("' extends past the frame: bbox ");
        push_box(&mut detail, text);
        detail.append(" in a ");
        push_dec(&mut detail, frame[0] as u128);
        detail.append("x");
        push_dec(&mut detail, frame[1] as u128);
        detail.append(" frame");
        Some(
            Finding {
                rule: "title-overflow",
                severity: Severity::Error,
                target: clip.to_owned(),
                detail,
                value: None,
                required: None,
            },
        )
    } else if !text.in_safe_area(frame, TITLE_SAFE_AREA) {
        let mut detail = "'".to_owned();
        detail.append(text.text.as_str());
        detail.append("' at ");
        push_box(&mut detail, text);
        detail.append(" sits outside the 90% safe area of the ");
        push_dec(&mut detail, frame[0] as u128);
        detail.append("x");
        push_dec(&mut detail, frame[1] as u128);
        detail.append(" frame, where a player's chrome can cover it");
        Some(
            Finding {
                rule: "unsafe-area",
                severity: Severity::Warning,
                target: clip.to_owned(),
                detail,
                value: None,
                required: None,
            },
        )
    } else {
        None
    }
}

fn font_rule(clip: &str, text: &PlacedText) -> (r: Option<Finding>)
    ensures
        finding_view(r) == font_finding(clip@, *text),
{
    match &text.fallback {
        Some(fallback) => {
            let mut detail = "'".to_owned();
            detail.append(text.text.as_str());
            detail.append("' asked for a font that is not installed and was rendered in '");
            detail.append(fallback.as_str());
            detail.append("'; the render will differ on another machine");
            Some(
                Finding {
                    rule: "font-fallback",
                    severity: Severity::Warning,
                    target: clip.to_owned(),
                    detail,
                    value: None,
                    required: None,
                },
            )
        },
        None => None,
    }
}

fn tiny_rule(clip: &str, text: &PlacedText, frame: [u32; 2]) -> (r: Option<Finding>)
    ensures
        finding_view(r) == tiny_finding(clip@, *text, frame),
{
    let tall: i64 = if frame[1] == 0 {
        1
    } else {
        frame[1] as i64
    };
    if !((text.font_size as i128) * 1000 < 22 * (tall as i128) * 1_000_000) {
        return None;
    }
    let mut detail = "'".to_owned();
    detail.append(text.text.as_str());
    detail.append("' is ");
    push_fixed(&mut detail, rounded_even(text.font_size as i128, 1_000_000), 0);
    detail.append("px in a ");
    push_dec(&mut detail, frame[1] as u128);
    detail.append("px-tall frame, below the legible floor");
    Some(
        Finding {
            rule: "tiny-type",
            severity: Severity::Warning,
            target: clip.to_owned(),
            detail,
            value: Some(Rat { num: text.font_size, den: tall * 1_000_000 }),
            required: Some(Rat { num: 22, den: 1000 }),
        },
    )
}

fn contrast_rule(clip: &str, text: &PlacedText, at: Time) -> (r: Option<Finding>)
    ensures
        finding_view(r) == contrast_finding(clip@, *text, at),
{
    match text.contrast {
        None => None,
        Some(contrast) => {
            if contrast >= MIN_CONTRAST {
                return None;
            }
            let mut detail = "'".to_owned();
            detail.append(text.text.as_str());
            detail.append("' is at ");
            push_fixed(&mut detail, rounded_even((contrast as i128) * 10, 1_000_000), 1);
            detail.append(":1 against the picture behind it at ");
            detail.append(at.to_text().as_str());
            Some(
                Finding {
                    rule: "low-contrast",
                    severity: Severity::Warning,
                    target: clip.to_owned(),
                    detail,
                    value: Some(Rat { num: contrast, den: 1_000_000 }),
                    required: Some(Rat { num: 9, den: 2 }),
                },
            )
        },
    }
}

fn push_text(
    out: &mut Vec<Finding>,
    clip: &str,
    text: &PlacedText,
    frame: [u32; 2],
    at: Time,
    pixels: bool,
)
    ensures
        views(final(out)@) == views(old(out)@) + text_findings(clip@, *text, frame, at, pixels),
{
    let ghost before = views(out@);
    push_finding(out, place_rule(clip, text, frame));
    push_finding(out, font_rule(clip, text));
    push_finding(out, tiny_rule(clip, text, frame));
    if pixels {
        push_finding(out, contrast_rule(clip, text, at));
    }
    assert(views(out@) =~= before + text_findings(clip@, *text, frame, at, pixels));
}

fn push_reports(out: &mut Vec<Finding>, title: &TitleMeasurement, pixels: bool)
    ensures
        views(final(out)@) == views(old(out)@) + reports_findings(
            title.clip@,
            title.reports@,
            title.frame,
            title.at,
            pixels,
        ),
{
    let ghost before = views(out@);
    let reports = &title.reports;
    let clip = title.clip.as_str();
    let mut i: usize = 0;
    assert(reports@.take(0) =~= seq![]);
    assert(before + Seq::<FindingView>::empty() =~= before);
    while i < reports.len()
        invariant
            i <= reports@.len(),
            reports@ == title.reports@,
            clip@ == title.clip@,
            views(out@) == before + reports_findings(
                title.clip@,
                reports@.take(i as int),
                title.frame,
                title.at,
                pixels,
            ),
        decreases reports@.len() - i,
    {
        assert(reports@.take(i + 1).drop_last() =~= reports@.take(i as int));
        let text = &reports[i];
        push_text(out, clip, text, title.frame, title.at, pixels);
        i = i + 1;
        assert(views(out@) =~= before + reports_findings(
            title.clip@,
            reports@.take(i as int),
            title.frame,
            title.at,
            pixels,
        ));
    }
    assert(reports@.take(i as int) =~= reports@);
}

/// What is wrong with the titles of a sequence, with or without the picture behind them.
pub fn title_rules(titles: &Vec<TitleMeasurement>, pixels: bool) -> (r: Vec<Finding>)
    ensures
        views(r@) == title_findings(titles@, pixels),
{
    let mut out: Vec<Finding> = Vec::new();
    let mut i: usize = 0;
    assert(titles@.take(0) =~= seq![]);
    assert(views(out@) =~= seq![]);
    while i < titles.len()
        invariant
            i <= titles@.len(),
            views(out@) == title_findings(titles@.take(i as int), pixels),
        decreases titles@.len() - i,
    {
        assert(titles@.take(i + 1).drop_last() =~= titles@.take(i as int));
        push_reports(&mut out, &titles[i], pixels);
        i = i + 1;
    }
    assert(titles@.take(i as int) =~= titles@);
    out
}

} // verus!
