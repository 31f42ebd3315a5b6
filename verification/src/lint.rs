//! The whole check of a sequence.
//!
//! What only pixels and samples can tell is measured elsewhere and handed in; with nothing
//! handed in, the check reads the document alone.

use crate::analyze::{negative_interval, require_interval, seconds};
use crate::error::{Error, ErrorView};
use crate::finding::{Finding, FindingView, LoudnessProfile};
use crate::lint_caption::{caption_findings, caption_rules, captions_measurable};
use crate::lint_link::{all_clips, link_finding, link_fits, link_rules, store_findings, store_rules};
use crate::lint_media::{
    audio_rules, heard_ok, mix_findings, pixel_findings, pixel_rules, seen_ok, Heard, Seen,
};
use crate::lint_source::{
    asset_findings, asset_rules, clip_stream, one, past_end, past_end_fits, past_source_end,
    placements_ok, project_sane, push_finding, slow, speed_fits, speed_rules, Placement,
};
use crate::lint_timeline::{timeline_findings, timeline_measurable, timeline_rules};
use crate::lint_title::{title_findings, title_rules, TitleMeasurement};
use crate::project::{Clip, Project, Sequence, Track};
use crate::time::Time;
use crate::views::{extend, views};
use vstd::prelude::*;

verus! {

/// What a check looks at.
#[derive(Clone, Copy, Debug, PartialEq, Eq, Structural)]
pub struct LintOptions {
    pub profile: LoudnessProfile,
    /// Whether the rules that need pixels and samples run.
    pub render: bool,
    pub sample_every: Time,
    pub use_proxy: bool,
}

impl Default for LintOptions {
    fn default() -> (r: LintOptions)
        ensures
            r == (LintOptions {
                profile: LoudnessProfile::YouTube,
                render: true,
                sample_every: seconds(1),
                use_proxy: true,
            }),
    {
        LintOptions {
            profile: LoudnessProfile::YouTube,
            render: true,
            sample_every: Time::from_secs(1),
            use_proxy: true,
        }
    }
}

// ---------------------------------------------------------------------------
// Sources
// ---------------------------------------------------------------------------

pub open spec fn clip_findings(
    project: Project,
    sequence: Sequence,
    clip: Clip,
    places: Seq<Placement>,
) -> Seq<FindingView> {
    one(past_end(project, clip)) + one(slow(project, sequence, clip)) + asset_findings(
        project,
        sequence,
        clip,
        places,
    ) + one(link_finding(all_clips(sequence.tracks@), clip))
}

pub open spec fn clips_findings(
    project: Project,
    sequence: Sequence,
    clips: Seq<Clip>,
    places: Seq<Placement>,
) -> Seq<FindingView>
    decreases clips.len(),
{
    if clips.len() == 0 {
        seq![]
    } else {
        clips_findings(project, sequence, clips.drop_last(), places) + clip_findings(
            project,
            sequence,
            clips.last(),
            places,
        )
    }
}

pub open spec fn source_findings(
    project: Project,
    sequence: Sequence,
    tracks: Seq<Track>,
    places: Seq<Placement>,
) -> Seq<FindingView>
    decreases tracks.len(),
{
    if tracks.len() == 0 {
        seq![]
    } else {
        source_findings(project, sequence, tracks.drop_last(), places) + clips_findings(
            project,
            sequence,
            tracks.last().clips@,
            places,
        )
    }
}

/// Whether everything that is measured of a clip can be stored.
pub open spec fn clip_measurable(project: Project, sequence: Sequence, clip: Clip) -> bool {
    &&& clip.wf()
    &&& past_end_fits(project, clip)
    &&& (clip_stream(project, clip) matches Some(stream) ==> speed_fits(
        clip,
        stream.fps,
        sequence.fps,
    ))
    &&& link_fits(all_clips(sequence.tracks@), clip)
}

pub open spec fn clips_measurable(project: Project, sequence: Sequence, clips: Seq<Clip>) -> bool {
    forall|i: int| 0 <= i < clips.len() ==> clip_measurable(project, sequence, #[trigger] clips[i])
}

pub open spec fn sources_measurable(project: Project, sequence: Sequence) -> bool {
    &&& sequence.fps.wf()
    &&& forall|t: int|
        0 <= t < sequence.tracks@.len() ==> clips_measurable(
            project,
            sequence,
            (#[trigger] sequence.tracks@[t]).clips@,
        )
}

fn push_clip(
    out: &mut Vec<Finding>,
    project: &Project,
    sequence: &Sequence,
    clip: &Clip,
    places: &Vec<Placement>,
)
    requires
        project_sane(*project),
        sequence.fps.wf(),
        placements_ok(places@),
        clip_measurable(*project, *sequence, *clip),
    ensures
        views(final(out)@) == views(old(out)@) + clip_findings(
            *project,
            *sequence,
            *clip,
            places@,
        ),
{
    let ghost before = views(out@);
    let ghost a = one(past_end(*project, *clip));
    let ghost b = one(slow(*project, *sequence, *clip));
    let ghost c = asset_findings(*project, *sequence, *clip, places@);
    let ghost d = one(link_finding(all_clips(sequence.tracks@), *clip));
    push_finding(out, past_source_end(project, clip));
    push_finding(out, speed_rules(project, sequence, clip));
    asset_rules(out, project, sequence, clip, places);
    push_finding(out, link_rules(sequence, clip));
    assert(views(out@) == before + a + b + c + d);
    assert(before + a + b + c + d =~= before + (a + b + c + d));
}

fn push_clips(
    out: &mut Vec<Finding>,
    project: &Project,
    sequence: &Sequence,
    clips: &Vec<Clip>,
    places: &Vec<Placement>,
)
    requires
        project_sane(*project),
        sequence.fps.wf(),
        placements_ok(places@),
        clips_measurable(*project, *sequence, clips@),
    ensures
        views(final(out)@) == views(old(out)@) + clips_findings(
            *project,
            *sequence,
            clips@,
            places@,
        ),
{
    let ghost before = views(out@);
    let mut i: usize = 0;
    assert(clips@.take(0) =~= seq![]);
    assert(before + Seq::<FindingView>::empty() =~= before);
    while i < clips.len()
        invariant
            i <= clips@.len(),
            project_sane(*project),
            sequence.fps.wf(),
            placements_ok(places@),
            clips_measurable(*project, *sequence, clips@),
            views(out@) == before + clips_findings(
                *project,
                *sequence,
                clips@.take(i as int),
                places@,
            ),
        decreases clips@.len() - i,
    {
        let ghost so_far = views(out@);
        assert(clips@.take(i + 1).drop_last() =~= clips@.take(i as int));
        let clip = &clips[i];
        assert(clip_measurable(*project, *sequence, clips@[i as int]));
        push_clip(out, project, sequence, clip, places);
        i = i + 1;
        assert(views(out@) =~= before + clips_findings(
            *project,
            *sequence,
            clips@.take(i as int),
            places@,
        ));
    }
    assert(clips@.take(i as int) =~= clips@);
}

/// What is wrong with what the clips of a sequence read.
pub fn source_rules(project: &Project, sequence: &Sequence, places: &Vec<Placement>) -> (r: Vec<
    Finding,
>)
    requires
        project_sane(*project),
        placements_ok(places@),
        sources_measurable(*project, *sequence),
    ensures
        views(r@) == source_findings(*project, *sequence, sequence.tracks@, places@),
{
    let mut out: Vec<Finding> = Vec::new();
    let tracks = &sequence.tracks;
    let mut t: usize = 0;
    assert(tracks@.take(0) =~= seq![]);
    assert(views(out@) =~= seq![]);
    while t < tracks.len()
        invariant
            t <= tracks@.len(),
            tracks@ == sequence.tracks@,
            project_sane(*project),
            placements_ok(places@),
            sources_measurable(*project, *sequence),
            views(out@) == source_findings(
                *project,
                *sequence,
                tracks@.take(t as int),
                places@,
            ),
        decreases tracks@.len() - t,
    {
        assert(tracks@.take(t + 1).drop_last() =~= tracks@.take(t as int));
        assert(clips_measurable(*project, *sequence, tracks@[t as int].clips@));
        push_clips(&mut out, project, sequence, &tracks[t].clips, places);
        t = t + 1;
    }
    assert(tracks@.take(t as int) =~= tracks@);
    out
}

// ---------------------------------------------------------------------------
// The check
// ---------------------------------------------------------------------------

/// What the document alone shows, with the titles as they were measured: against the picture
/// behind them only where there is one.
pub open spec fn document_findings(
    project: Project,
    sequence: Sequence,
    places: Seq<Placement>,
    titles: Seq<TitleMeasurement>,
    pixels: bool,
) -> Seq<FindingView> {
    timeline_findings(sequence, sequence.tracks@.len() as int) + source_findings(
        project,
        sequence,
        sequence.tracks@,
        places,
    ) + caption_findings(project, sequence.tracks@) + store_findings(project, project.assets@)
        + title_findings(titles, pixels)
}

/// What pixels and samples showed.
#[derive(Clone, Debug)]
pub struct Measured {
    pub seen: Seen,
    /// Absent where the sequence has no audio track with clips on it.
    pub heard: Option<Heard>,
    /// What was found where two audio tracks play at once.
    pub ducking: Vec<Finding>,
}

pub open spec fn measured_findings(
    measured: Measured,
    sequence: Sequence,
    profile: LoudnessProfile,
) -> Seq<FindingView> {
    pixel_findings(measured.seen, sequence.fps) + match measured.heard {
        Some(heard) => mix_findings(heard, profile) + views(measured.ducking@),
        None => seq![],
    }
}

/// Whether everything that a check measures can be stored.
pub open spec fn lintable(project: Project, sequence: Sequence) -> bool {
    &&& project_sane(project)
    &&& timeline_measurable(sequence)
    &&& sources_measurable(project, sequence)
    &&& captions_measurable(sequence.tracks@)
}

pub open spec fn measured_ok(measured: Measured, sequence: Sequence) -> bool {
    seen_ok(measured.seen, sequence.fps) && (measured.heard matches Some(heard) ==> heard_ok(heard))
}

/// What a check of a sequence says.
pub open spec fn linted(
    project: Project,
    id: Seq<char>,
    options: LintOptions,
    places: Seq<Placement>,
    titles: Seq<TitleMeasurement>,
    measured: Option<Measured>,
) -> Result<Seq<FindingView>, ErrorView> {
    if options.sample_every.secs.num < 0 {
        Err(negative_interval("sample-every"@, options.sample_every))
    } else if project.sequence_at(id) < 0 {
        Err(project.no_sequence(id))
    } else {
        let sequence = project.sequences@[project.sequence_at(id)];
        let found = document_findings(project, sequence, places, titles, options.render);
        match measured {
            Some(measured) => if options.render {
                Ok(found + measured_findings(measured, sequence, options.profile))
            } else {
                Ok(found)
            },
            None => Ok(found),
        }
    }
}

fn document_rules(
    project: &Project,
    sequence: &Sequence,
    places: &Vec<Placement>,
    titles: &Vec<TitleMeasurement>,
    pixels: bool,
) -> (r: Vec<Finding>)
    requires
        lintable(*project, *sequence),
        placements_ok(places@),
    ensures
        views(r@) == document_findings(*project, *sequence, places@, titles@, pixels),
{
    let mut out = timeline_rules(sequence);
    extend(&mut out, source_rules(project, sequence, places));
    extend(&mut out, caption_rules(project, sequence));
    extend(&mut out, store_rules(project));
    extend(&mut out, title_rules(titles, pixels));
    out
}

/// Checks a sequence against every rule that the options and what was measured allow.
pub fn lint(
    project: &Project,
    id: &str,
    options: &LintOptions,
    places: &Vec<Placement>,
    titles: &Vec<TitleMeasurement>,
    measured: Option<Measured>,
) -> (r: Result<Vec<Finding>, Error>)
    requires
        placements_ok(places@),
        project.sequence_at(id@) >= 0 ==> lintable(
            *project,
            project.sequences@[project.sequence_at(id@)],
        ) && (measured matches Some(measured) ==> measured_ok(
            measured,
            project.sequences@[project.sequence_at(id@)],
        )),
    ensures
        (match r {
            Ok(findings) => linted(*project, id@, *options, places@, titles@, measured) == Ok::<
                Seq<FindingView>,
                ErrorView,
            >(views(findings@)),
            Err(error) => linted(*project, id@, *options, places@, titles@, measured) == Err::<
                Seq<FindingView>,
                ErrorView,
            >(error@),
        }),
{
    match require_interval(options.sample_every, "sample-every") {
        Err(error) => return Err(error),
        Ok(()) => {},
    }
    let sequence = match project.sequence(id) {
        Err(error) => return Err(error),
        Ok(sequence) => sequence,
    };
    let mut out = document_rules(project, sequence, places, titles, options.render);
    let ghost found = views(out@);
    match measured {
        None => {},
        Some(measured) => {
            if options.render {
                let ghost all = measured;
                let Measured { seen, heard, ducking } = measured;
                let mut more = pixel_rules(&seen, sequence.fps);
                match heard {
                    Some(heard) => {
                        let mut mix = audio_rules(&heard, options.profile);
                        extend(&mut mix, ducking);
                        extend(&mut more, mix);
                    },
                    None => {
                        assert(views(more@) + Seq::<FindingView>::empty() =~= views(more@));
                    },
                }
                assert(views(more@) == measured_findings(all, *sequence, options.profile));
                extend(&mut out, more);
            }
        },
    }
    Ok(out)
}

} // verus!
