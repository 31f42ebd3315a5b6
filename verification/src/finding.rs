//! What a check of a sequence finds.

use crate::error::{Error, ErrorView};
use crate::number::{push_rounded, rounded_text};
use crate::rational::Rat;
use crate::text::{folded, same, trimmed_text};
use crate::time::{Span, Time};
use crate::views::views;
use vstd::prelude::*;

verus! {

/// How bad a finding is, the worst last.
#[derive(Clone, Copy, Debug, PartialEq, Eq, PartialOrd, Ord, Structural)]
pub enum Severity {
    /// A fact worth knowing.
    Info,
    /// The output will probably be wrong.
    Warning,
    /// The output will be wrong, or refused.
    Error,
}

impl Severity {
    pub open spec fn rank(self) -> int {
        match self {
            Severity::Info => 0,
            Severity::Warning => 1,
            Severity::Error => 2,
        }
    }

    pub open spec fn text(self) -> Seq<char> {
        match self {
            Severity::Info => "info"@,
            Severity::Warning => "warning"@,
            Severity::Error => "error"@,
        }
    }

    pub fn name(self) -> (r: &'static str)
        ensures
            r@ == self.text(),
    {
        match self {
            Severity::Info => "info",
            Severity::Warning => "warning",
            Severity::Error => "error",
        }
    }
}

/// One mistake, with what to fix.
#[derive(Clone, Debug)]
pub struct Finding {
    pub rule: &'static str,
    pub severity: Severity,
    /// A selector that names exactly what to fix.
    pub target: String,
    pub detail: String,
    /// What was measured.
    pub value: Option<Rat>,
    /// What it should have been.
    pub required: Option<Rat>,
}

#[verifier::ext_equal]
pub struct FindingView {
    pub rule: Seq<char>,
    pub severity: Severity,
    pub target: Seq<char>,
    pub detail: Seq<char>,
    pub value: Option<Rat>,
    pub required: Option<Rat>,
}

impl View for Finding {
    type V = FindingView;

    open spec fn view(&self) -> FindingView {
        FindingView {
            rule: self.rule@,
            severity: self.severity,
            target: self.target@,
            detail: self.detail@,
            value: self.value,
            required: self.required,
        }
    }
}

/// Every rule, in the order of the report.
pub const RULES: [&'static str; 29] = [
    "gap",
    "overlap",
    "orphan-transition",
    "past-source-end",
    "speed-frame-drop",
    "fps-mismatch",
    "vfr-source",
    "upscaled",
    "letterboxed",
    "av-drift",
    "caption-too-fast",
    "caption-overlap",
    "caption-too-long",
    "unreferenced-asset",
    "missing-asset",
    "stale-proxy",
    "title-overflow",
    "unsafe-area",
    "font-fallback",
    "tiny-type",
    "low-contrast",
    "black-frames",
    "frozen-frames",
    "flash",
    "loudness-out-of-spec",
    "true-peak",
    "clipping",
    "silence-gap",
    "unducked-music",
];

/// The rules that need pixels or samples.
pub const RENDER_RULES: [&'static str; 9] = [
    "low-contrast",
    "black-frames",
    "frozen-frames",
    "flash",
    "loudness-out-of-spec",
    "true-peak",
    "clipping",
    "silence-gap",
    "unducked-music",
];

pub open spec fn zero() -> Rat {
    Rat { num: 0, den: 1 }
}

/// A duration in seconds with three decimals.
pub open spec fn secs3(time: Time) -> Seq<char> {
    rounded_text(time.secs, 3)
}

pub fn push_secs3(out: &mut String, time: Time)
    requires
        time.wf(),
    ensures
        final(out)@ == old(out)@ + secs3(time),
{
    push_rounded(out, time.secs, 3);
}

/// A stretch of time of something, as a selector.
pub open spec fn window_text(head: Seq<char>, span: Span) -> Seq<char> {
    head + "@"@ + span.start.text() + "-"@ + span.end.text()
}

/// The selector for something over a stretch of time.
pub fn window(head: &str, span: Span) -> (r: String)
    ensures
        r@ == window_text(head@, span),
{
    let mut out = head.to_owned();
    out.append("@");
    out.append(span.start.to_text().as_str());
    out.append("-");
    out.append(span.end.to_text().as_str());
    out
}

/// The worst severity of some findings.
pub open spec fn worst_of(findings: Seq<FindingView>) -> Option<Severity>
    decreases findings.len(),
{
    if findings.len() == 0 {
        None
    } else {
        match worst_of(findings.drop_last()) {
            None => Some(findings.last().severity),
            Some(before) => if findings.last().severity.rank() > before.rank() {
                Some(findings.last().severity)
            } else {
                Some(before)
            },
        }
    }
}

/// Whether some finding is an error.
pub open spec fn any_error(findings: Seq<FindingView>) -> bool {
    exists|i: int| 0 <= i < findings.len() && (#[trigger] findings[i]).severity == Severity::Error
}

/// Whether a check should fail.
pub fn has_errors(findings: &Vec<Finding>) -> (r: bool)
    ensures
        r == any_error(views(findings@)),
{
    let mut i: usize = 0;
    while i < findings.len()
        invariant
            i <= findings@.len(),
            forall|k: int|
                0 <= k < i ==> (#[trigger] views(findings@)[k]).severity != Severity::Error,
        decreases findings@.len() - i,
    {
        assert(views(findings@)[i as int] == findings@[i as int]@);
        if findings[i].severity == Severity::Error {
            assert(views(findings@)[i as int].severity == Severity::Error);
            return true;
        }
        i = i + 1;
    }
    false
}

/// The worst finding decides whether a check fails.
pub proof fn law_the_worst_finding_decides(findings: Seq<FindingView>)
    ensures
        any_error(findings) <==> worst_of(findings) == Some(Severity::Error),
        findings.len() > 0 <==> worst_of(findings) is Some,
    decreases findings.len(),
{
    if findings.len() > 0 {
        let rest = findings.drop_last();
        law_the_worst_finding_decides(rest);
        if any_error(rest) {
            let i = choose|i: int|
                0 <= i < rest.len() && (#[trigger] rest[i]).severity == Severity::Error;
            assert(findings[i].severity == Severity::Error);
        }
        if findings.last().severity == Severity::Error {
            assert(findings[findings.len() - 1].severity == Severity::Error);
        }
        if any_error(findings) {
            let i = choose|i: int|
                0 <= i < findings.len() && (#[trigger] findings[i]).severity == Severity::Error;
            if i < rest.len() {
                assert(rest[i].severity == Severity::Error);
            }
        }
    }
}

/// How many findings there are of each severity: errors, warnings, facts.
pub open spec fn counts_of(findings: Seq<FindingView>) -> (int, int, int)
    decreases findings.len(),
{
    if findings.len() == 0 {
        (0, 0, 0)
    } else {
        let (errors, warnings, infos) = counts_of(findings.drop_last());
        match findings.last().severity {
            Severity::Error => (errors + 1, warnings, infos),
            Severity::Warning => (errors, warnings + 1, infos),
            Severity::Info => (errors, warnings, infos + 1),
        }
    }
}

pub fn count_findings(findings: &Vec<Finding>) -> (r: (usize, usize, usize))
    ensures
        (r.0 as int, r.1 as int, r.2 as int) == counts_of(views(findings@)),
        r.0 + r.1 + r.2 == findings@.len(),
{
    let ghost all = views(findings@);
    let mut errors: usize = 0;
    let mut warnings: usize = 0;
    let mut infos: usize = 0;
    let mut i: usize = 0;
    assert(all.take(0) =~= seq![]);
    while i < findings.len()
        invariant
            i <= findings@.len(),
            all == views(findings@),
            (errors as int, warnings as int, infos as int) == counts_of(all.take(i as int)),
            errors + warnings + infos == i,
        decreases findings@.len() - i,
    {
        assert(all.take(i + 1).drop_last() =~= all.take(i as int));
        assert(all.take(i + 1).last() == findings@[i as int]@);
        match findings[i].severity {
            Severity::Error => {
                errors = errors + 1;
            },
            Severity::Warning => {
                warnings = warnings + 1;
            },
            Severity::Info => {
                infos = infos + 1;
            },
        }
        i = i + 1;
    }
    assert(all.take(i as int) =~= all);
    (errors, warnings, infos)
}

// ---------------------------------------------------------------------------
// Loudness
// ---------------------------------------------------------------------------

/// Where a mix goes, and so how loud it has to be.
#[derive(Clone, Copy, Debug, PartialEq, Eq, Structural)]
pub enum LoudnessProfile {
    YouTube,
    Podcast,
    Broadcast,
}

impl Default for LoudnessProfile {
    fn default() -> (r: LoudnessProfile)
        ensures
            r == LoudnessProfile::YouTube,
    {
        LoudnessProfile::YouTube
    }
}

/// The profile that a text names, in lower case and without the spaces round it.
pub open spec fn profile_named(name: Seq<char>) -> Option<LoudnessProfile> {
    if name == "youtube"@ || name == "yt"@ || name == "social"@ {
        Some(LoudnessProfile::YouTube)
    } else if name == "podcast"@ || name == "spoken"@ {
        Some(LoudnessProfile::Podcast)
    } else if name == "broadcast"@ || name == "ebu"@ || name == "r128"@ {
        Some(LoudnessProfile::Broadcast)
    } else {
        None
    }
}

pub open spec fn tidy(text: Seq<char>) -> Seq<char> {
    crate::text::trim(text).map_values(|c: char| crate::text::fold(c))
}

pub open spec fn unknown_profile(name: Seq<char>) -> ErrorView {
    ErrorView::BadArgs(
        "unknown loudness profile '"@ + name + "'; expected youtube, podcast or broadcast"@,
    )
}

impl LoudnessProfile {
    pub open spec fn spec_name(self) -> Seq<char> {
        match self {
            LoudnessProfile::YouTube => "youtube"@,
            LoudnessProfile::Podcast => "podcast"@,
            LoudnessProfile::Broadcast => "broadcast"@,
        }
    }

    /// Integrated loudness, in whole LUFS.
    pub open spec fn target(self) -> int {
        match self {
            LoudnessProfile::YouTube => -14,
            LoudnessProfile::Podcast => -16,
            LoudnessProfile::Broadcast => -23,
        }
    }

    /// Takes the names of the profiles and their common aliases.
    pub fn parse(text: &str) -> (r: Result<LoudnessProfile, Error>)
        ensures
            (match r {
                Ok(profile) => profile_named(tidy(text@)) == Some(profile),
                Err(error) => profile_named(tidy(text@)) is None && error@ == unknown_profile(
                    tidy(text@),
                ),
            }),
    {
        let name = folded(trimmed_text(text).as_str());
        assert(name@ =~= tidy(text@));
        let n = name.as_str();
        if same(n, "youtube") || same(n, "yt") || same(n, "social") {
            Ok(LoudnessProfile::YouTube)
        } else if same(n, "podcast") || same(n, "spoken") {
            Ok(LoudnessProfile::Podcast)
        } else if same(n, "broadcast") || same(n, "ebu") || same(n, "r128") {
            Ok(LoudnessProfile::Broadcast)
        } else {
            let mut detail = "unknown loudness profile '".to_owned();
            detail.append(n);
            detail.append("'; expected youtube, podcast or broadcast");
            Err(Error::BadArgs(detail))
        }
    }

    pub fn name(self) -> (r: &'static str)
        ensures
            r@ == self.spec_name(),
    {
        match self {
            LoudnessProfile::YouTube => "youtube",
            LoudnessProfile::Podcast => "podcast",
            LoudnessProfile::Broadcast => "broadcast",
        }
    }

    /// Integrated loudness to aim at, in LUFS.
    pub fn target_lufs(self) -> (r: i64)
        ensures
            r == self.target(),
    {
        match self {
            LoudnessProfile::YouTube => -14,
            LoudnessProfile::Podcast => -16,
            LoudnessProfile::Broadcast => -23,
        }
    }

    /// True peak not to exceed, in dBTP.
    pub fn true_peak_ceiling_db(self) -> (r: i64)
        ensures
            r == -1,
    {
        -1
    }
}

/// A profile is found again by its name.
pub proof fn law_profiles_come_back(profile: LoudnessProfile)
    ensures
        profile_named(profile.spec_name()) == Some(profile),
{
    reveal_strlit("youtube");
    reveal_strlit("yt");
    reveal_strlit("social");
    reveal_strlit("podcast");
    reveal_strlit("spoken");
    reveal_strlit("broadcast");
    assert("podcast"@[0] == 'p' && "youtube"@[0] == 'y' && "broadcast"@[0] == 'b');
    assert("yt"@[0] == 'y' && "social"@[0] == 's' && "spoken"@[0] == 's');
}

} // verus!
