//! Rules on captions: how fast they have to be read, how many lines there are at once, and
//! whether two are on screen together.

use crate::finding::{push_secs3, secs3, zero, Finding, FindingView, Severity};
use crate::lint_source::{one, push_finding};
use crate::lint_timeline::finding_view;
use crate::number::{push_rounded, rounded_text};
use crate::project::{CaptionCue, CaptionStyle, Project, Sequence, Track, TrackKind};
use crate::rational::Rat;
use crate::text::{chars_of, dec, is_white, lines, lines_of, white};
use crate::views::views;
use vstd::prelude::*;

verus! {

/// How many characters are to be read: all but spaces.
pub open spec fn read_chars(text: Seq<char>) -> nat
    decreases text.len(),
{
    if text.len() == 0 {
        0
    } else if is_white(text.last()) {
        read_chars(text.drop_last())
    } else {
        read_chars(text.drop_last()) + 1
    }
}

pub fn count_read(text: &str) -> (r: usize)
    ensures
        r == read_chars(text@),
{
    let chars = chars_of(text);
    let mut n: usize = 0;
    let mut i: usize = 0;
    assert(chars@.take(0) =~= seq![]);
    while i < chars.len()
        invariant
            i <= chars@.len(),
            n <= i,
            n == read_chars(chars@.take(i as int)),
        decreases chars@.len() - i,
    {
        assert(chars@.take(i + 1).drop_last() =~= chars@.take(i as int));
        if !white(chars[i]) {
            n = n + 1;
        }
        i = i + 1;
    }
    assert(chars@.take(i as int) =~= chars@);
    n
}

/// Characters to be read each second, or nothing where a cue has no time to be read in.
pub open spec fn reading_rate(cue: CaptionCue) -> Option<Rat> {
    let length = cue.span.length();
    if length.secs.num > 0 {
        Some(Rat::of(read_chars(cue.text@) * length.secs.den, length.secs.num as int))
    } else {
        None
    }
}

/// Whether the length of a cue and its rate can be stored.
pub open spec fn rate_fits(cue: CaptionCue) -> bool {
    let length = cue.span.length();
    &&& cue.span.wf()
    &&& cue.span.measurable()
    &&& read_chars(cue.text@) <= i64::MAX
    &&& (length.secs.num > 0 ==> Rat::fits(
        read_chars(cue.text@) * length.secs.den,
        length.secs.num as int,
    ))
}

impl CaptionCue {
    /// Characters to be read each second, or nothing where there is no time to.
    pub fn chars_per_second(&self) -> (r: Option<Rat>)
        requires
            rate_fits(*self),
        ensures
            r == reading_rate(*self),
            r is Some ==> r->0.wf(),
    {
        let length = self.span.duration();
        let n: usize = count_read(self.text.as_str());
        if !length.is_positive() {
            return None;
        }
        proof {
            crate::rational::lemma_wide(n as int, length.secs.den as int);
        }
        Rat::try_of((n as i128) * (length.secs.den as i128), length.secs.num as i128)
    }

    /// How many lines of text there are.
    pub fn lines(&self) -> (r: usize)
        ensures
            r == lines(self.text@).len(),
    {
        let chars = chars_of(self.text.as_str());
        let found = lines_of(&chars);
        found.len()
    }
}

/// The style that holds for a cue: its own, else the track's.
pub open spec fn style_of(project: Project, track: Track, cue: CaptionCue) -> Option<CaptionStyle> {
    let id = match cue.style {
        Some(id) => Some(id@),
        None => match track.style {
            Some(id) => Some(id@),
            None => None,
        },
    };
    match id {
        Some(id) => if project.style_at(id) >= 0 {
            Some(project.styles@[project.style_at(id)])
        } else {
            None
        },
        None => None,
    }
}

/// The reading rate that a cue must not exceed.
pub open spec fn rate_limit(project: Project, track: Track, cue: CaptionCue) -> Rat {
    match style_of(project, track, cue) {
        Some(style) => style.max_cps,
        None => Rat { num: 20, den: 1 },
    }
}

/// The number of lines that a cue must not exceed.
pub open spec fn line_limit(project: Project, track: Track, cue: CaptionCue) -> usize {
    match style_of(project, track, cue) {
        Some(style) => style.max_lines,
        None => 2,
    }
}

/// The limits that a cue is held to: characters a second, and lines.
pub fn limits(project: &Project, track: &Track, cue: &CaptionCue) -> (r: (Rat, usize))
    ensures
        r.0 == rate_limit(*project, *track, *cue),
        r.1 == line_limit(*project, *track, *cue),
{
    let id = match &cue.style {
        Some(id) => Some(id),
        None => match &track.style {
            Some(id) => Some(id),
            None => None,
        },
    };
    match id {
        Some(id) => match project.find_style(id.as_str()) {
            Some(at) => (project.styles[at].max_cps, project.styles[at].max_lines),
            None => (Rat { num: 20, den: 1 }, 2),
        },
        None => (Rat { num: 20, den: 1 }, 2),
    }
}

/// Text on one line.
pub open spec fn flat(text: Seq<char>) -> Seq<char> {
    text.map_values(
        |c: char|
            if c == '\n' {
                ' '
            } else {
                c
            },
    )
}

fn flattened(text: &str) -> (r: String)
    ensures
        r@ == flat(text@),
{
    let chars = chars_of(text);
    let mut out = String::new();
    let mut i: usize = 0;
    while i < chars.len()
        invariant
            i <= chars@.len(),
            out@ =~= flat(chars@).take(i as int),
        decreases chars@.len() - i,
    {
        let c = chars[i];
        crate::text::push_char(
            &mut out,
            if c == '\n' {
                ' '
            } else {
                c
            },
        );
        i = i + 1;
    }
    assert(out@ =~= flat(chars@));
    out
}

/// Whether a cue has more to read than time to read it in.
pub open spec fn is_too_fast(project: Project, track: Track, cue: CaptionCue) -> bool {
    match reading_rate(cue) {
        Some(rate) => rate_limit(project, track, cue).spec_lt(rate),
        None => read_chars(cue.text@) > 0,
    }
}

pub open spec fn rate_text(rate: Option<Rat>) -> Seq<char> {
    match rate {
        Some(rate) => rounded_text(rate, 1),
        None => "inf"@,
    }
}

pub open spec fn too_fast(project: Project, track: Track, cue: CaptionCue) -> Option<FindingView> {
    if is_too_fast(project, track, cue) {
        Some(
            FindingView {
                rule: "caption-too-fast"@,
                severity: Severity::Warning,
                target: cue.id@,
                detail: "'"@ + flat(cue.text@) + "' runs at "@ + rate_text(reading_rate(cue))
                    + " characters per second"@,
                value: reading_rate(cue),
                required: Some(rate_limit(project, track, cue)),
            },
        )
    } else {
        None
    }
}

fn fast_rule(project: &Project, track: &Track, cue: &CaptionCue) -> (r: Option<Finding>)
    requires
        rate_fits(*cue),
    ensures
        finding_view(r) == too_fast(*project, *track, *cue),
{
    let (limit, _) = limits(project, track, cue);
    let rate = cue.chars_per_second();
    let fast = match rate {
        Some(rate) => limit.before(&rate),
        None => count_read(cue.text.as_str()) > 0,
    };
    if !fast {
        return None;
    }
    let mut detail = "'".to_owned();
    detail.append(flattened(cue.text.as_str()).as_str());
    detail.append("' runs at ");
    match rate {
        Some(rate) => push_rounded(&mut detail, rate, 1),
        None => detail.append("inf"),
    }
    detail.append(" characters per second");
    Some(
        Finding {
            rule: "caption-too-fast",
            severity: Severity::Warning,
            target: cue.id.as_str().to_owned(),
            detail,
            value: rate,
            required: Some(limit),
        },
    )
}

/// A count as a measured number.
pub open spec fn count_value(n: int) -> Rat {
    Rat {
        num: if n > i64::MAX {
            i64::MAX
        } else {
            n as i64
        },
        den: 1,
    }
}

pub fn count_of(n: usize) -> (r: Rat)
    ensures
        r == count_value(n as int),
{
    Rat {
        num: if n as u64 > i64::MAX as u64 {
            i64::MAX
        } else {
            n as i64
        },
        den: 1,
    }
}

pub open spec fn too_long(project: Project, track: Track, cue: CaptionCue) -> Option<FindingView> {
    let n = lines(cue.text@).len();
    if n > line_limit(project, track, cue) {
        Some(
            FindingView {
                rule: "caption-too-long"@,
                severity: Severity::Warning,
                target: cue.id@,
                detail: dec(n) + " lines of caption at once"@,
                value: Some(count_value(n as int)),
                required: Some(count_value(line_limit(project, track, cue) as int)),
            },
        )
    } else {
        None
    }
}

fn long_rule(project: &Project, track: &Track, cue: &CaptionCue) -> (r: Option<Finding>)
    ensures
        finding_view(r) == too_long(*project, *track, *cue),
{
    let (_, limit) = limits(project, track, cue);
    let n: usize = cue.lines();
    if n <= limit {
        return None;
    }
    let mut detail = crate::text::decimal(n as u128);
    detail.append(" lines of caption at once");
    Some(
        Finding {
            rule: "caption-too-long",
            severity: Severity::Warning,
            target: cue.id.as_str().to_owned(),
            detail,
            value: Some(count_of(n)),
            required: Some(count_of(limit)),
        },
    )
}

/// What is wrong with a cue that follows another.
pub open spec fn both_shown(previous: CaptionCue, cue: CaptionCue) -> Option<FindingView> {
    if cue.span.start.lt(previous.span.end) {
        let by = previous.span.end.spec_minus(cue.span.start);
        Some(
            FindingView {
                rule: "caption-overlap"@,
                severity: Severity::Error,
                target: cue.id@,
                detail: "overlaps the previous cue by "@ + secs3(by)
                    + "s, so both are on screen"@,
                value: Some(by.secs),
                required: Some(zero()),
            },
        )
    } else {
        None
    }
}

fn overlap_rule(previous: &CaptionCue, cue: &CaptionCue) -> (r: Option<Finding>)
    requires
        previous.span.wf(),
        cue.span.wf(),
        previous.span.end.difference_fits(cue.span.start),
    ensures
        finding_view(r) == both_shown(*previous, *cue),
{
    if !cue.span.start.before(&previous.span.end) {
        return None;
    }
    let by = previous.span.end.minus(&cue.span.start);
    let mut detail = "overlaps the previous cue by ".to_owned();
    push_secs3(&mut detail, by);
    detail.append("s, so both are on screen");
    Some(
        Finding {
            rule: "caption-overlap",
            severity: Severity::Error,
            target: cue.id.as_str().to_owned(),
            detail,
            value: Some(by.secs),
            required: Some(Rat { num: 0, den: 1 }),
        },
    )
}

pub open spec fn cue_findings(project: Project, track: Track, i: int) -> Seq<FindingView> {
    let cue = track.cues@[i];
    one(too_fast(project, track, cue)) + one(too_long(project, track, cue)) + one(
        if i > 0 {
            both_shown(track.cues@[i - 1], cue)
        } else {
            None
        },
    )
}

/// What the first `n` cues of a track have.
pub open spec fn cues_findings(project: Project, track: Track, n: int) -> Seq<FindingView>
    decreases n,
{
    if n <= 0 {
        seq![]
    } else {
        cues_findings(project, track, n - 1) + cue_findings(project, track, n - 1)
    }
}

pub open spec fn caption_findings(project: Project, tracks: Seq<Track>) -> Seq<FindingView>
    decreases tracks.len(),
{
    if tracks.len() == 0 {
        seq![]
    } else {
        let before = caption_findings(project, tracks.drop_last());
        if tracks.last().kind == TrackKind::Caption {
            before + cues_findings(project, tracks.last(), tracks.last().cues@.len() as int)
        } else {
            before
        }
    }
}

/// Whether everything these rules measure of a track can be stored.
pub open spec fn cues_measurable(track: Track) -> bool {
    &&& forall|i: int| 0 <= i < track.cues@.len() ==> rate_fits(#[trigger] track.cues@[i])
    &&& forall|i: int|
        0 < i < track.cues@.len() ==> track.cues@[i - 1].span.end.difference_fits(
            (#[trigger] track.cues@[i]).span.start,
        )
}

pub open spec fn captions_measurable(tracks: Seq<Track>) -> bool {
    forall|t: int|
        0 <= t < tracks.len() ==> ((#[trigger] tracks[t]).kind == TrackKind::Caption
            ==> cues_measurable(tracks[t]))
}

fn push_cues(out: &mut Vec<Finding>, project: &Project, track: &Track)
    requires
        cues_measurable(*track),
    ensures
        views(final(out)@) == views(old(out)@) + cues_findings(
            *project,
            *track,
            track.cues@.len() as int,
        ),
{
    let ghost before = views(out@);
    assert(before + Seq::<FindingView>::empty() =~= before);
    let mut i: usize = 0;
    while i < track.cues.len()
        invariant
            i <= track.cues@.len(),
            cues_measurable(*track),
            views(out@) == before + cues_findings(*project, *track, i as int),
        decreases track.cues@.len() - i,
    {
        let ghost so_far = views(out@);
        let cue = &track.cues[i];
        assert(rate_fits(track.cues@[i as int]));
        push_finding(out, fast_rule(project, track, cue));
        push_finding(out, long_rule(project, track, cue));
        if i > 0 {
            assert(rate_fits(track.cues@[i - 1]));
            push_finding(out, overlap_rule(&track.cues[i - 1], cue));
        }
        assert(views(out@) =~= so_far + cue_findings(*project, *track, i as int));
        assert(views(out@) =~= before + (cues_findings(*project, *track, i as int) + cue_findings(
            *project,
            *track,
            i as int,
        )));
        i = i + 1;
    }
}

/// What is wrong with the captions of a sequence.
pub fn caption_rules(project: &Project, sequence: &Sequence) -> (r: Vec<Finding>)
    requires
        captions_measurable(sequence.tracks@),
    ensures
        views(r@) == caption_findings(*project, sequence.tracks@),
{
    let mut out: Vec<Finding> = Vec::new();
    let tracks = &sequence.tracks;
    let mut t: usize = 0;
    assert(tracks@.take(0) =~= seq![]);
    assert(views(out@) =~= seq![]);
    while t < tracks.len()
        invariant
            t <= tracks@.len(),
            captions_measurable(tracks@),
            views(out@) == caption_findings(*project, tracks@.take(t as int)),
        decreases tracks@.len() - t,
    {
        assert(tracks@.take(t + 1).drop_last() =~= tracks@.take(t as int));
        assert(tracks@.take(t + 1).last() == tracks@[t as int]);
        if tracks[t].kind == TrackKind::Caption {
            assert(cues_measurable(tracks@[t as int]));
            push_cues(&mut out, project, &tracks[t]);
        }
        t = t + 1;
    }
    assert(tracks@.take(t as int) =~= tracks@);
    out
}

/// A cue that is read exactly as fast as its style allows is not too fast.
pub proof fn law_a_cue_at_the_limit_passes(project: Project, track: Track, cue: CaptionCue)
    requires
        reading_rate(cue) == Some(rate_limit(project, track, cue)),
    ensures
        too_fast(project, track, cue) is None,
{
}

} // verus!
