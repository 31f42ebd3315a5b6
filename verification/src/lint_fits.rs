//! Whether a project can be measured, told before anything is measured of it.

use crate::analyze::{negative_interval, require_interval};
use crate::coverage::{clips_wf, sequence_sane, spans_wf, track_sane, uncovered};
use crate::digest::{
    captions_fit, clip_describable, clips_describable, cue_count, gaps_measurable, track_rates_fit,
    DigestOptions,
};
use crate::digest_report::{describable, describes, digest, AudioDigest, Digest, VideoDigest};
use crate::error::{Error, ErrorView};
use crate::finding::{Finding, FindingView};
use crate::fits::{clip_ok, fps_ok};
use crate::lint::{
    clip_measurable, clips_measurable, lint, lintable, linted, measured_ok, sources_measurable,
    LintOptions, Measured,
};
use crate::lint_caption::{captions_measurable, count_read, cues_measurable, rate_fits};
use crate::lint_link::{all_clips, apart_fits, link_fits};
use crate::lint_media::{flashes_fit, heard_ok, seen_ok, Heard, Seen};
use crate::lint_source::{
    asset_sane, find_clip_asset, past_end_fits, placement_ok, placements_ok, project_sane,
    source_available, source_end, source_end_fits, speed_fits, Placement,
};
use crate::lint_timeline::{all_measurable, has_timeline, overlaps_fit, timeline_measurable};
use crate::lint_title::TitleMeasurement;
use crate::project::{Asset, CaptionCue, Clip, Project, Sequence, Track, TrackKind};
use crate::rational::{lemma_product_positive, lemma_wide, Rat};
use crate::report::{number_ok, numbers_ok};
use crate::time::{Fps, Span, Time};
use crate::views::views;
use vstd::prelude::*;

verus! {

fn span_ok(span: Span) -> (r: bool)
    ensures
        r == span.wf(),
{
    span.start.secs.den > 0 && span.end.secs.den > 0
}

fn length_ok(span: Span) -> (r: bool)
    requires
        span.wf(),
    ensures
        r == span.measurable(),
{
    span.end.checked_minus(&span.start).is_some()
}

// ---------------------------------------------------------------------------
// The document
// ---------------------------------------------------------------------------

fn clips_ok(clips: &Vec<Clip>) -> (r: bool)
    ensures
        r == clips_wf(clips@),
{
    let mut i: usize = 0;
    while i < clips.len()
        invariant
            i <= clips@.len(),
            forall|k: int| 0 <= k < i ==> (#[trigger] clips@[k]).wf(),
        decreases clips@.len() - i,
    {
        if !clip_ok(&clips[i]) {
            assert(!clips@[i as int].wf());
            return false;
        }
        i = i + 1;
    }
    true
}

fn track_ok(track: &Track) -> (r: bool)
    ensures
        r == track_sane(*track),
{
    if !clips_ok(&track.clips) {
        return false;
    }
    let cues = &track.cues;
    let mut i: usize = 0;
    while i < cues.len()
        invariant
            i <= cues@.len(),
            cues@ == track.cues@,
            forall|k: int| 0 <= k < i ==> (#[trigger] track.cues@[k]).span.wf(),
        decreases cues@.len() - i,
    {
        if !span_ok(cues[i].span) {
            assert(!track.cues@[i as int].span.wf());
            return false;
        }
        i = i + 1;
    }
    true
}

/// Whether every instant of a sequence is a number and every end can be stored.
pub fn is_sane(sequence: &Sequence) -> (r: bool)
    ensures
        r == sequence_sane(*sequence),
{
    if !fps_ok(sequence.fps) {
        return false;
    }
    let tracks = &sequence.tracks;
    let mut t: usize = 0;
    while t < tracks.len()
        invariant
            t <= tracks@.len(),
            tracks@ == sequence.tracks@,
            sequence.fps.wf(),
            forall|k: int| 0 <= k < t ==> track_sane(#[trigger] sequence.tracks@[k]),
        decreases tracks@.len() - t,
    {
        if !track_ok(&tracks[t]) {
            assert(!track_sane(sequence.tracks@[t as int]));
            return false;
        }
        t = t + 1;
    }
    true
}

fn asset_ok(asset: &Asset) -> (r: bool)
    ensures
        r == asset_sane(*asset),
{
    asset.probe.duration.secs.den > 0 && match &asset.probe.video {
        Some(stream) => fps_ok(stream.fps) && stream.sar.den > 0,
        None => true,
    }
}

/// Whether a project's sequences can be measured, and its media are described by numbers.
pub fn project_ok(project: &Project) -> (r: bool)
    ensures
        r == project_sane(*project),
{
    let mut s: usize = 0;
    while s < project.sequences.len()
        invariant
            s <= project.sequences@.len(),
            forall|k: int| 0 <= k < s ==> sequence_sane(#[trigger] project.sequences@[k]),
        decreases project.sequences@.len() - s,
    {
        if !is_sane(&project.sequences[s]) {
            assert(!sequence_sane(project.sequences@[s as int]));
            return false;
        }
        s = s + 1;
    }
    let mut a: usize = 0;
    while a < project.assets.len()
        invariant
            a <= project.assets@.len(),
            forall|k: int| 0 <= k < a ==> asset_sane(#[trigger] project.assets@[k]),
        decreases project.assets@.len() - a,
    {
        if !asset_ok(&project.assets[a]) {
            assert(!asset_sane(project.assets@[a as int]));
            return false;
        }
        a = a + 1;
    }
    true
}

fn lengths_ok(spans: &Vec<Span>) -> (r: bool)
    requires
        spans_wf(spans@),
    ensures
        r == all_measurable(spans@),
{
    let mut i: usize = 0;
    while i < spans.len()
        invariant
            i <= spans@.len(),
            spans_wf(spans@),
            forall|k: int| 0 <= k < i ==> (#[trigger] spans@[k]).measurable(),
        decreases spans@.len() - i,
    {
        assert(spans@[i as int].wf());
        if !length_ok(spans[i]) {
            assert(!spans@[i as int].measurable());
            return false;
        }
        i = i + 1;
    }
    true
}

fn overlaps_ok(clips: &Vec<Clip>) -> (r: bool)
    requires
        clips_wf(clips@),
    ensures
        r == overlaps_fit(clips@),
{
    let mut i: usize = 1;
    while i < clips.len()
        invariant
            1 <= i,
            clips_wf(clips@),
            forall|k: int|
                0 < k < i && k < clips@.len() ==> clips@[k - 1].spec_end().difference_fits(
                    (#[trigger] clips@[k]).start,
                ),
        decreases clips@.len() - i,
    {
        assert(clips@[i - 1].wf());
        assert(clips@[i as int].wf());
        if clips[i - 1].end().checked_minus(&clips[i].start).is_none() {
            assert(!clips@[i - 1].spec_end().difference_fits(clips@[i as int].start));
            return false;
        }
        i = i + 1;
    }
    true
}

/// Whether the length of every gap can be stored.
fn gaps_ok(sequence: &Sequence) -> (r: bool)
    requires
        sequence_sane(*sequence),
    ensures
        r == gaps_measurable(*sequence),
{
    let n: usize = sequence.tracks.len();
    let mut t: usize = 0;
    while t < n
        invariant
            t <= n,
            n == sequence.tracks@.len(),
            sequence_sane(*sequence),
            forall|k: int|
                0 <= k < t && has_timeline(#[trigger] sequence.tracks@[k]) ==> all_measurable(
                    uncovered(*sequence, k),
                ),
        decreases n - t,
    {
        if sequence.tracks[t].kind != TrackKind::Caption && sequence.tracks[t].clips.len() > 0 {
            let gaps = sequence.uncovered_gaps(t);
            if !lengths_ok(&gaps) {
                assert(has_timeline(sequence.tracks@[t as int]));
                assert(!all_measurable(uncovered(*sequence, t as int)));
                return false;
            }
        }
        t = t + 1;
    }
    true
}

/// Whether everything that is measured of a timeline can be stored.
fn timeline_ok(sequence: &Sequence) -> (r: bool)
    ensures
        r == timeline_measurable(*sequence),
{
    if !is_sane(sequence) || !gaps_ok(sequence) {
        return false;
    }
    let tracks = &sequence.tracks;
    let mut t: usize = 0;
    while t < tracks.len()
        invariant
            t <= tracks@.len(),
            tracks@ == sequence.tracks@,
            sequence_sane(*sequence),
            forall|k: int|
                0 <= k < t && has_timeline(#[trigger] sequence.tracks@[k]) ==> overlaps_fit(
                    sequence.tracks@[k].clips@,
                ),
        decreases tracks@.len() - t,
    {
        assert(track_sane(sequence.tracks@[t as int]));
        if tracks[t].kind != TrackKind::Caption && tracks[t].clips.len() > 0 && !overlaps_ok(
            &tracks[t].clips,
        ) {
            assert(has_timeline(sequence.tracks@[t as int]));
            return false;
        }
        t = t + 1;
    }
    true
}

fn source_end_ok(clip: &Clip) -> (r: Option<Time>)
    requires
        clip.wf(),
    ensures
        r is Some <==> source_end_fits(*clip),
        r is Some ==> r->0 == source_end(*clip) && r->0.wf(),
{
    match clip.duration.checked_times(&clip.speed) {
        Some(read) => clip.source_in.checked_plus(&read),
        None => None,
    }
}

fn past_end_ok(project: &Project, clip: &Clip) -> (r: bool)
    requires
        project_sane(*project),
        clip.wf(),
    ensures
        r == past_end_fits(*project, *clip),
{
    match source_available(project, &clip.source) {
        None => true,
        Some(there) => match source_end_ok(clip) {
            Some(end) => end.checked_minus(&there).is_some(),
            None => false,
        },
    }
}

fn speed_ok(clip: &Clip, source: Fps, sequence: Fps) -> (r: bool)
    requires
        clip.wf(),
        source.wf(),
        sequence.wf(),
    ensures
        r == speed_fits(*clip, source, sequence),
{
    proof {
        lemma_wide(clip.speed.num as int, source.rate.num as int);
        lemma_wide(clip.speed.den as int, source.rate.den as int);
        lemma_product_positive(clip.speed.den as int, source.rate.den as int);
    }
    let read = match Rat::try_of(
        (clip.speed.num as i128) * (source.rate.num as i128),
        (clip.speed.den as i128) * (source.rate.den as i128),
    ) {
        Some(read) => read,
        None => {
            return false;
        },
    };
    proof {
        lemma_wide(read.num as int, sequence.rate.den as int);
        lemma_wide(read.den as int, sequence.rate.num as int);
        lemma_product_positive(read.den as int, sequence.rate.num as int);
    }
    Rat::try_of(
        (read.num as i128) * (sequence.rate.den as i128),
        (read.den as i128) * (sequence.rate.num as i128),
    ).is_some()
}

fn apart_ok(a: Time, b: Time) -> (r: bool)
    requires
        a.wf(),
        b.wf(),
    ensures
        r == apart_fits(a, b),
{
    if a.before(&b) {
        b.checked_minus(&a).is_some()
    } else {
        a.checked_minus(&b).is_some()
    }
}

fn link_ok(sequence: &Sequence, clip: &Clip) -> (r: bool)
    requires
        clip.wf(),
    ensures
        r == link_fits(all_clips(sequence.tracks@), *clip),
{
    match &clip.link {
        None => true,
        Some(link) => match sequence.find_clip(link.as_str()) {
            None => true,
            Some(other) => clip_ok(other) && apart_ok(clip.start, other.start) && apart_ok(
                clip.duration,
                other.duration,
            ),
        },
    }
}

fn clip_is_measurable(project: &Project, sequence: &Sequence, clip: &Clip) -> (r: bool)
    requires
        project_sane(*project),
        sequence.fps.wf(),
    ensures
        r == clip_measurable(*project, *sequence, *clip),
{
    if !clip_ok(clip) || !past_end_ok(project, clip) || !link_ok(sequence, clip) {
        return false;
    }
    match find_clip_asset(project, clip) {
        Some(asset) => match &asset.probe.video {
            Some(stream) => speed_ok(clip, stream.fps, sequence.fps),
            None => true,
        },
        None => true,
    }
}

/// Whether everything that is measured of the clips' sources can be stored.
fn sources_ok(project: &Project, sequence: &Sequence) -> (r: bool)
    requires
        project_sane(*project),
    ensures
        r == sources_measurable(*project, *sequence),
{
    if !fps_ok(sequence.fps) {
        return false;
    }
    let tracks = &sequence.tracks;
    let mut t: usize = 0;
    while t < tracks.len()
        invariant
            t <= tracks@.len(),
            tracks@ == sequence.tracks@,
            project_sane(*project),
            sequence.fps.wf(),
            forall|k: int|
                0 <= k < t ==> clips_measurable(
                    *project,
                    *sequence,
                    (#[trigger] sequence.tracks@[k]).clips@,
                ),
        decreases tracks@.len() - t,
    {
        let clips = &tracks[t].clips;
        let mut c: usize = 0;
        while c < clips.len()
            invariant
                t < tracks@.len(),
                tracks@ == sequence.tracks@,
                clips@ == tracks@[t as int].clips@,
                c <= clips@.len(),
                project_sane(*project),
                sequence.fps.wf(),
                forall|k: int|
                    0 <= k < c ==> clip_measurable(*project, *sequence, #[trigger] clips@[k]),
            decreases clips@.len() - c,
        {
            if !clip_is_measurable(project, sequence, &clips[c]) {
                assert(!clip_measurable(*project, *sequence, clips@[c as int]));
                assert(!clips_measurable(
                    *project,
                    *sequence,
                    sequence.tracks@[t as int].clips@,
                ));
                return false;
            }
            c = c + 1;
        }
        t = t + 1;
    }
    true
}

fn rate_ok(cue: &CaptionCue) -> (r: bool)
    ensures
        r == rate_fits(*cue),
{
    if !span_ok(cue.span) || !length_ok(cue.span) {
        return false;
    }
    let n: usize = count_read(cue.text.as_str());
    if n as u64 > i64::MAX as u64 {
        return false;
    }
    let length = cue.span.duration();
    if !length.is_positive() {
        return true;
    }
    proof {
        lemma_wide(n as int, length.secs.den as int);
    }
    Rat::try_of((n as i128) * (length.secs.den as i128), length.secs.num as i128).is_some()
}

fn rates_ok(track: &Track) -> (r: bool)
    ensures
        r == track_rates_fit(*track),
{
    let cues = &track.cues;
    let mut i: usize = 0;
    while i < cues.len()
        invariant
            i <= cues@.len(),
            cues@ == track.cues@,
            forall|k: int| 0 <= k < i ==> rate_fits(#[trigger] track.cues@[k]),
        decreases cues@.len() - i,
    {
        if !rate_ok(&cues[i]) {
            assert(!rate_fits(track.cues@[i as int]));
            return false;
        }
        i = i + 1;
    }
    true
}

fn cues_ok(track: &Track) -> (r: bool)
    ensures
        r == cues_measurable(*track),
{
    if !rates_ok(track) {
        return false;
    }
    let cues = &track.cues;
    let mut i: usize = 1;
    while i < cues.len()
        invariant
            1 <= i,
            cues@ == track.cues@,
            track_rates_fit(*track),
            forall|k: int|
                0 < k < i && k < cues@.len() ==> track.cues@[k - 1].span.end.difference_fits(
                    (#[trigger] track.cues@[k]).span.start,
                ),
        decreases cues@.len() - i,
    {
        assert(rate_fits(track.cues@[i - 1]));
        assert(rate_fits(track.cues@[i as int]));
        if cues[i - 1].span.end.checked_minus(&cues[i].span.start).is_none() {
            assert(!track.cues@[i - 1].span.end.difference_fits(track.cues@[i as int].span.start));
            return false;
        }
        i = i + 1;
    }
    true
}

/// Whether everything that is measured of captions can be stored.
fn captions_ok(tracks: &Vec<Track>) -> (r: bool)
    ensures
        r == captions_measurable(tracks@),
{
    let mut t: usize = 0;
    while t < tracks.len()
        invariant
            t <= tracks@.len(),
            forall|k: int|
                0 <= k < t ==> ((#[trigger] tracks@[k]).kind == TrackKind::Caption
                    ==> cues_measurable(tracks@[k])),
        decreases tracks@.len() - t,
    {
        if tracks[t].kind == TrackKind::Caption && !cues_ok(&tracks[t]) {
            assert(!cues_measurable(tracks@[t as int]));
            return false;
        }
        t = t + 1;
    }
    true
}

/// Whether everything that a check measures can be stored.
pub fn can_lint(project: &Project, sequence: &Sequence) -> (r: bool)
    ensures
        r == lintable(*project, *sequence),
{
    project_ok(project) && timeline_ok(sequence) && sources_ok(project, sequence) && captions_ok(
        &sequence.tracks,
    )
}

fn summed_ok(tracks: &Vec<Track>) -> (r: bool)
    ensures
        r == captions_fit(tracks@),
{
    let mut n: u64 = 0;
    let mut t: usize = 0;
    let mut rates = true;
    assert(tracks@.take(0) =~= seq![]);
    while t < tracks.len()
        invariant
            t <= tracks@.len(),
            n == cue_count(tracks@.take(t as int)),
            rates == (forall|k: int|
                0 <= k < t ==> ((#[trigger] tracks@[k]).kind == TrackKind::Caption
                    ==> track_rates_fit(tracks@[k]))),
        decreases tracks@.len() - t,
    {
        let ghost seen = tracks@.take(t + 1);
        proof {
            assert(seen.drop_last() =~= tracks@.take(t as int));
            assert(seen.last() == tracks@[t as int]);
            lemma_count_grows(tracks@, t + 1);
        }
        if tracks[t].kind == TrackKind::Caption {
            let more: u64 = tracks[t].cues.len() as u64;
            if more > u64::MAX - n {
                return false;
            }
            n = n + more;
            if !rates_ok(&tracks[t]) {
                assert(!track_rates_fit(tracks@[t as int]));
                rates = false;
            }
        }
        t = t + 1;
    }
    assert(tracks@.take(t as int) =~= tracks@);
    rates
}

proof fn lemma_count_grows(tracks: Seq<Track>, n: int)
    requires
        0 <= n <= tracks.len(),
    ensures
        cue_count(tracks.take(n)) <= cue_count(tracks),
    decreases tracks.len(),
{
    if n == tracks.len() {
        assert(tracks.take(n) =~= tracks);
    } else {
        assert(tracks.drop_last().take(n) =~= tracks.take(n));
        lemma_count_grows(tracks.drop_last(), n);
    }
}

fn clips_are_describable(clips: &Vec<Clip>) -> (r: bool)
    ensures
        r == clips_describable(clips@),
{
    let mut i: usize = 0;
    while i < clips.len()
        invariant
            i <= clips@.len(),
            forall|k: int| 0 <= k < i ==> clip_describable(#[trigger] clips@[k]),
        decreases clips@.len() - i,
    {
        if !clip_ok(&clips[i]) || source_end_ok(&clips[i]).is_none() {
            assert(!clip_describable(clips@[i as int]));
            return false;
        }
        i = i + 1;
    }
    true
}

/// Whether everything that a description measures can be stored.
pub fn can_describe(project: &Project, sequence: &Sequence) -> (r: bool)
    ensures
        r == describable(*project, *sequence),
{
    if !project_ok(project) || !is_sane(sequence) || !gaps_ok(sequence) || !summed_ok(
        &sequence.tracks,
    ) {
        return false;
    }
    let tracks = &sequence.tracks;
    let mut t: usize = 0;
    while t < tracks.len()
        invariant
            t <= tracks@.len(),
            tracks@ == sequence.tracks@,
            forall|k: int|
                0 <= k < t ==> clips_describable((#[trigger] sequence.tracks@[k]).clips@),
        decreases tracks@.len() - t,
    {
        if !clips_are_describable(&tracks[t].clips) {
            assert(!clips_describable(sequence.tracks@[t as int].clips@));
            return false;
        }
        t = t + 1;
    }
    true
}

// ---------------------------------------------------------------------------
// What was measured
// ---------------------------------------------------------------------------

/// Whether placements are in bounds.
pub fn are_placements_ok(places: &Vec<Placement>) -> (r: bool)
    ensures
        r == placements_ok(places@),
{
    let mut i: usize = 0;
    while i < places.len()
        invariant
            i <= places@.len(),
            forall|k: int| 0 <= k < i ==> placement_ok(#[trigger] places@[k]),
        decreases places@.len() - i,
    {
        if !(0 <= places[i].width && 0 <= places[i].height) {
            assert(!placement_ok(places@[i as int]));
            return false;
        }
        i = i + 1;
    }
    true
}

fn spans_ok(spans: &Vec<Span>) -> (r: bool)
    ensures
        r == (spans_wf(spans@) && all_measurable(spans@)),
{
    let mut i: usize = 0;
    while i < spans.len()
        invariant
            i <= spans@.len(),
            forall|k: int| 0 <= k < i ==> (#[trigger] spans@[k]).wf(),
        decreases spans@.len() - i,
    {
        if !span_ok(spans[i]) {
            assert(!spans@[i as int].wf());
            return false;
        }
        i = i + 1;
    }
    lengths_ok(spans)
}

fn flashes_ok(flashes: &Vec<Time>, frame: Time) -> (r: bool)
    requires
        frame.wf(),
    ensures
        r == flashes_fit(flashes@, frame),
{
    let mut i: usize = 0;
    while i < flashes.len()
        invariant
            i <= flashes@.len(),
            frame.wf(),
            forall|k: int|
                0 <= k < i ==> (#[trigger] flashes@[k]).wf() && flashes@[k].sum_fits(frame),
        decreases flashes@.len() - i,
    {
        if !(flashes[i].secs.den > 0) || flashes[i].checked_plus(&frame).is_none() {
            assert(!(flashes@[i as int].wf() && flashes@[i as int].sum_fits(frame)));
            return false;
        }
        i = i + 1;
    }
    true
}

/// Whether what was seen can be told in numbers.
pub fn is_seen_ok(seen: &Seen, fps: Fps) -> (r: bool)
    requires
        fps.wf(),
    ensures
        r == seen_ok(*seen, fps),
{
    spans_ok(&seen.black) && spans_ok(&seen.frozen) && flashes_ok(
        &seen.flashes,
        fps.frame_duration(),
    )
}

/// Whether what was heard can be told in numbers.
pub fn is_heard_ok(heard: &Heard) -> (r: bool)
    ensures
        r == heard_ok(*heard),
{
    spans_ok(&heard.silences)
}

fn is_measured_ok(measured: &Option<Measured>, sequence: &Sequence) -> (r: bool)
    requires
        sequence.fps.wf(),
    ensures
        r == (measured matches Some(m) ==> measured_ok(*m, *sequence)),
{
    match measured {
        None => true,
        Some(measured) => is_seen_ok(&measured.seen, sequence.fps) && match &measured.heard {
            Some(heard) => is_heard_ok(heard),
            None => true,
        },
    }
}

/// Whether the numbers of some findings are numbers.
pub fn are_numbers_ok(findings: &Vec<Finding>) -> (r: bool)
    ensures
        r == numbers_ok(findings@),
{
    let mut i: usize = 0;
    while i < findings.len()
        invariant
            i <= findings@.len(),
            forall|k: int|
                0 <= k < i ==> number_ok((#[trigger] findings@[k]).value) && number_ok(
                    findings@[k].required,
                ),
        decreases findings@.len() - i,
    {
        let value = match findings[i].value {
            Some(value) => value.den > 0,
            None => true,
        };
        let required = match findings[i].required {
            Some(required) => required.den > 0,
            None => true,
        };
        if !value || !required {
            assert(!(number_ok(findings@[i as int].value) && number_ok(
                findings@[i as int].required,
            )));
            return false;
        }
        i = i + 1;
    }
    true
}

// ---------------------------------------------------------------------------
// Entry points
// ---------------------------------------------------------------------------

pub open spec fn not_measurable(name: Seq<char>) -> ErrorView {
    ErrorView::Op("sequence '"@ + name + "' holds numbers that cannot be measured"@)
}

fn too_large(sequence: &Sequence) -> (r: Error)
    ensures
        r@ == not_measurable(sequence.name@),
{
    let mut detail = "sequence '".to_owned();
    detail.append(sequence.name.as_str());
    detail.append("' holds numbers that cannot be measured");
    Error::Op(detail)
}

/// What a check needs to be able to measure.
pub open spec fn check_fits(
    project: Project,
    sequence: Sequence,
    places: Seq<Placement>,
    titles: Seq<TitleMeasurement>,
    measured: Option<Measured>,
) -> bool {
    &&& placements_ok(places)
    &&& lintable(project, sequence)
    &&& measured matches Some(m) ==> measured_ok(m, sequence)
}

/// Checks a sequence, whatever its numbers are: one that cannot be measured is refused.
pub fn check_sequence(
    project: &Project,
    id: &str,
    options: &LintOptions,
    places: &Vec<Placement>,
    titles: &Vec<TitleMeasurement>,
    measured: Option<Measured>,
) -> (r: Result<Vec<Finding>, Error>)
    ensures
        ({
            let sequence = project.sequences@[project.sequence_at(id@)];
            if options.sample_every.secs.num >= 0 && project.sequence_at(id@) >= 0 && !check_fits(
                *project,
                sequence,
                places@,
                titles@,
                measured,
            ) {
                r is Err && r->Err_0@ == not_measurable(sequence.name@)
            } else {
                match r {
                    Ok(findings) => linted(
                        *project,
                        id@,
                        *options,
                        places@,
                        titles@,
                        measured,
                    ) == Ok::<Seq<FindingView>, ErrorView>(views(findings@)),
                    Err(error) => linted(
                        *project,
                        id@,
                        *options,
                        places@,
                        titles@,
                        measured,
                    ) == Err::<Seq<FindingView>, ErrorView>(error@),
                }
            }
        }),
{
    match require_interval(options.sample_every, "sample-every") {
        Err(error) => return Err(error),
        Ok(()) => {},
    }
    let sequence = match project.sequence(id) {
        Err(error) => return Err(error),
        Ok(sequence) => sequence,
    };
    if !can_lint(project, sequence) || !are_placements_ok(places)
        || !is_measured_ok(&measured, sequence) {
        return Err(too_large(sequence));
    }
    lint(project, id, options, places, titles, measured)
}

/// What a description needs to be able to measure.
pub open spec fn description_fits(
    project: Project,
    sequence: Sequence,
    places: Seq<Placement>,
    titles: Seq<TitleMeasurement>,
    seen: Seen,
) -> bool {
    &&& placements_ok(places)
    &&& describable(project, sequence)
    &&& seen_ok(seen, sequence.fps)
}

/// Describes a sequence, whatever its numbers are: one that cannot be measured is refused.
pub fn describe_sequence(
    project: &Project,
    id: &str,
    options: &DigestOptions,
    places: &Vec<Placement>,
    video: VideoDigest,
    titles: &Vec<TitleMeasurement>,
    audio: Option<AudioDigest>,
) -> (r: Result<Digest, Error>)
    ensures
        ({
            let sequence = project.sequences@[project.sequence_at(id@)];
            match r {
                Ok(made) => {
                    &&& project.sequence_at(id@) >= 0
                    &&& options.sample_every.secs.num >= 0
                    &&& description_fits(*project, sequence, places@, titles@, video.seen)
                    &&& describes(
                        made,
                        *project,
                        sequence,
                        *options,
                        places@,
                        video,
                        titles@,
                        audio,
                    )
                },
                Err(error) => if options.sample_every.secs.num < 0 {
                    error@ == negative_interval("sample-every"@, options.sample_every)
                } else if project.sequence_at(id@) < 0 {
                    error@ == project.no_sequence(id@)
                } else {
                    &&& !description_fits(*project, sequence, places@, titles@, video.seen)
                    &&& error@ == not_measurable(sequence.name@)
                },
            }
        }),
{
    match require_interval(options.sample_every, "sample-every") {
        Err(error) => return Err(error),
        Ok(()) => {},
    }
    let sequence = match project.sequence(id) {
        Err(error) => return Err(error),
        Ok(sequence) => sequence,
    };
    if !can_describe(project, sequence) || !are_placements_ok(places)
        || !is_seen_ok(&video.seen, sequence.fps) {
        return Err(too_large(sequence));
    }
    digest(project, id, options, places, video, titles, audio)
}

} // verus!
