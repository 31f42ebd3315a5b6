//! The whole description of a sequence.

use crate::analyze::{negative_interval, require_interval};
use crate::coverage::{clip_span, clips_wf, sequence_sane, spans_wf, track_sane, tracks_end};
use crate::digest::{
    all_gap_warnings, all_gaps, caption_digest, captions_fit, captions_of, clips_describable,
    describes_track, gap_digests, gaps_measurable, marker_digests, markers_of, track_digest,
    CaptionDigest, DigestOptions, GapDigest, MarkerDigest, TrackDigest,
};
use crate::digest_title::{title_digests, titles_of, TitleDigest, TitleView};
use crate::error::Error;
use crate::finding::{push_secs3, secs3, window, window_text};
use crate::lint_media::{seen_ok, Seen};
use crate::lint_source::{placements_ok, project_sane, Placement};
use crate::lint_timeline::all_measurable;
use crate::lint_title::{contrast_text, TitleMeasurement, MIN_CONTRAST};
use crate::number::push_fixed;
use crate::project::{Clip, Project, Sequence, Track, TrackKind};
use crate::rational::rounded_even;
use crate::text::dec;
use crate::time::{Fps, Span, Time};
use crate::timeline::{Warning, WarningView};
use crate::views::{push_view, views};
use vstd::prelude::*;

verus! {

/// What was measured of a mix, in millionths.
#[derive(Clone, Debug)]
pub struct AudioDigest {
    pub integrated_lufs: i64,
    pub true_peak_db: i64,
    pub lra: i64,
    pub short_term_min_lufs: i64,
    pub silences: Vec<Span>,
    pub clipped_samples: u64,
}

/// What sampled frames showed.
#[derive(Clone, Debug)]
pub struct VideoDigest {
    pub seen: Seen,
    pub scene_cuts: Vec<Time>,
    /// How many frames were looked at.
    pub samples: usize,
}

/// A description of a sequence.
#[derive(Clone, Debug)]
pub struct Digest {
    pub sequence: String,
    pub name: String,
    pub duration: Time,
    pub fps: Fps,
    pub size: [u32; 2],
    pub sample_every: Time,
    pub tracks: Vec<TrackDigest>,
    pub gaps: Vec<GapDigest>,
    pub markers: Vec<MarkerDigest>,
    pub titles: Vec<TitleDigest>,
    pub captions: CaptionDigest,
    pub audio: Option<AudioDigest>,
    pub video: VideoDigest,
    pub warnings: Vec<Warning>,
}

// ---------------------------------------------------------------------------
// Warnings
// ---------------------------------------------------------------------------

/// Whether an enabled clip of a list plays during a stretch.
pub open spec fn any_shown(clips: Seq<Clip>, span: Span) -> bool {
    exists|i: int|
        0 <= i < clips.len() && (#[trigger] clips[i]).enabled && !clip_span(clips[i]).shared(
            span,
        ).empty()
}

/// Whether something is shown during a stretch.
pub open spec fn is_shown(tracks: Seq<Track>, span: Span) -> bool {
    exists|t: int|
        0 <= t < tracks.len() && (#[trigger] tracks[t]).kind == TrackKind::Video && any_shown(
            tracks[t].clips@,
            span,
        )
}

/// What names the picture over a stretch: its clips, or the tracks where there are none.
pub open spec fn picture_name(tracks: Seq<Track>, span: Span) -> Seq<char> {
    if is_shown(tracks, span) {
        window_text("clip"@, span)
    } else {
        "track[kind=video]"@
    }
}

fn some_shown(clips: &Vec<Clip>, span: &Span) -> (r: bool)
    requires
        clips_wf(clips@),
    ensures
        r == any_shown(clips@, *span),
{
    let mut i: usize = 0;
    while i < clips.len()
        invariant
            i <= clips@.len(),
            clips_wf(clips@),
            forall|k: int|
                0 <= k < i ==> !((#[trigger] clips@[k]).enabled && !clip_span(clips@[k]).shared(
                    *span,
                ).empty()),
        decreases clips@.len() - i,
    {
        assert(clips@[i as int].wf());
        if clips[i].enabled && clips[i].span().overlaps(span) {
            return true;
        }
        i = i + 1;
    }
    false
}

/// What names the picture over a stretch.
pub fn picture_target(sequence: &Sequence, span: Span) -> (r: String)
    requires
        sequence_sane(*sequence),
    ensures
        r@ == picture_name(sequence.tracks@, span),
{
    let tracks = &sequence.tracks;
    let mut t: usize = 0;
    while t < tracks.len()
        invariant
            t <= tracks@.len(),
            tracks@ == sequence.tracks@,
            sequence_sane(*sequence),
            forall|k: int|
                0 <= k < t ==> !((#[trigger] tracks@[k]).kind == TrackKind::Video && any_shown(
                    tracks@[k].clips@,
                    span,
                )),
        decreases tracks@.len() - t,
    {
        assert(track_sane(tracks@[t as int]));
        if tracks[t].kind == TrackKind::Video && some_shown(&tracks[t].clips, &span) {
            return window("clip", span);
        }
        t = t + 1;
    }
    "track[kind=video]".to_owned()
}

pub open spec fn black_warning(tracks: Seq<Track>, span: Span) -> WarningView {
    WarningView {
        code: "black-frames"@,
        target: picture_name(tracks, span),
        detail: secs3(span.length()) + "s of black picture between "@ + span.start.text()
            + " and "@ + span.end.text(),
    }
}

pub open spec fn frozen_warning(tracks: Seq<Track>, span: Span) -> WarningView {
    WarningView {
        code: "frozen-frames"@,
        target: picture_name(tracks, span),
        detail: "picture does not change for "@ + secs3(span.length()) + "s between "@
            + span.start.text() + " and "@ + span.end.text(),
    }
}

pub open spec fn flash_warning(tracks: Seq<Track>, at: Time, frame: Time) -> WarningView {
    WarningView {
        code: "flash"@,
        target: picture_name(tracks, Span { start: at, end: at.spec_plus(frame) }),
        detail: "luminance spikes and returns within one sample at "@ + at.text(),
    }
}

pub open spec fn black_warnings(tracks: Seq<Track>, spans: Seq<Span>) -> Seq<WarningView> {
    spans.map_values(|span: Span| black_warning(tracks, span))
}

pub open spec fn frozen_warnings(tracks: Seq<Track>, spans: Seq<Span>) -> Seq<WarningView> {
    spans.map_values(|span: Span| frozen_warning(tracks, span))
}

pub open spec fn flash_warnings(tracks: Seq<Track>, flashes: Seq<Time>, frame: Time) -> Seq<
    WarningView,
> {
    flashes.map_values(|at: Time| flash_warning(tracks, at, frame))
}

fn push_spans(out: &mut Vec<Warning>, sequence: &Sequence, spans: &Vec<Span>, black: bool)
    requires
        sequence_sane(*sequence),
        spans_wf(spans@),
        all_measurable(spans@),
    ensures
        views(final(out)@) == views(old(out)@) + (if black {
            black_warnings(sequence.tracks@, spans@)
        } else {
            frozen_warnings(sequence.tracks@, spans@)
        }),
{
    let ghost before = views(out@);
    let ghost all = if black {
        black_warnings(sequence.tracks@, spans@)
    } else {
        frozen_warnings(sequence.tracks@, spans@)
    };
    let mut i: usize = 0;
    assert(before + all.take(0) =~= before);
    while i < spans.len()
        invariant
            i <= spans@.len(),
            sequence_sane(*sequence),
            spans_wf(spans@),
            all_measurable(spans@),
            all == (if black {
                black_warnings(sequence.tracks@, spans@)
            } else {
                frozen_warnings(sequence.tracks@, spans@)
            }),
            views(out@) == before + all.take(i as int),
        decreases spans@.len() - i,
    {
        let span = spans[i];
        assert(spans@[i as int].wf() && spans@[i as int].measurable());
        let target = picture_target(sequence, span);
        let mut detail = String::new();
        if !black {
            detail = "picture does not change for ".to_owned();
        }
        let ghost head = detail@;
        push_secs3(&mut detail, span.duration());
        if black {
            assert(detail@ =~= secs3(span.length()));
            detail.append("s of black picture between ");
        } else {
            detail.append("s between ");
        }
        detail.append(span.start.to_text().as_str());
        detail.append(" and ");
        detail.append(span.end.to_text().as_str());
        let warning = Warning {
            code: if black {
                "black-frames"
            } else {
                "frozen-frames"
            },
            target,
            detail,
        };
        assert(warning@ == all[i as int]);
        push_view(out, warning);
        i = i + 1;
        assert(views(out@) =~= before + all.take(i as int));
    }
    assert(all.take(i as int) =~= all);
}

fn push_flashes(out: &mut Vec<Warning>, sequence: &Sequence, flashes: &Vec<Time>)
    requires
        sequence_sane(*sequence),
        crate::lint_media::flashes_fit(flashes@, sequence.fps.spec_frame_duration()),
    ensures
        views(final(out)@) == views(old(out)@) + flash_warnings(
            sequence.tracks@,
            flashes@,
            sequence.fps.spec_frame_duration(),
        ),
{
    let frame = sequence.fps.frame_duration();
    let ghost before = views(out@);
    let ghost all = flash_warnings(sequence.tracks@, flashes@, frame);
    let mut i: usize = 0;
    assert(before + all.take(0) =~= before);
    while i < flashes.len()
        invariant
            i <= flashes@.len(),
            sequence_sane(*sequence),
            frame.wf(),
            frame == sequence.fps.spec_frame_duration(),
            crate::lint_media::flashes_fit(flashes@, frame),
            all == flash_warnings(sequence.tracks@, flashes@, frame),
            views(out@) == before + all.take(i as int),
        decreases flashes@.len() - i,
    {
        let at = flashes[i];
        assert(flashes@[i as int].wf());
        let mut detail = "luminance spikes and returns within one sample at ".to_owned();
        detail.append(at.to_text().as_str());
        push_view(
            out,
            Warning {
                code: "flash",
                target: picture_target(sequence, Span::from_duration(at, frame)),
                detail,
            },
        );
        i = i + 1;
        assert(views(out@) =~= before + all.take(i as int));
    }
    assert(all.take(i as int) =~= all);
}

/// What there is to warn of in what is said of a title.
pub open spec fn title_warnings_of(title: TitleView) -> Seq<WarningView> {
    (if title.overflow {
        seq![
            WarningView {
                code: "title-overflow"@,
                target: title.id,
                detail: "'"@ + title.text + "' extends past the frame"@,
            },
        ]
    } else {
        seq![]
    }) + (match title.contrast {
        Some(contrast) => if contrast < MIN_CONTRAST {
            seq![
                WarningView {
                    code: "low-contrast"@,
                    target: title.id,
                    detail: "'"@ + title.text + "' is at "@ + contrast_text(contrast as int)
                        + ":1 against what is behind it"@,
                },
            ]
        } else {
            seq![]
        },
        None => seq![],
    })
}

pub open spec fn title_warnings(titles: Seq<TitleView>) -> Seq<WarningView>
    decreases titles.len(),
{
    if titles.len() == 0 {
        seq![]
    } else {
        title_warnings(titles.drop_last()) + title_warnings_of(titles.last())
    }
}

fn push_titles(out: &mut Vec<Warning>, titles: &Vec<TitleDigest>)
    ensures
        views(final(out)@) == views(old(out)@) + title_warnings(views(titles@)),
{
    let ghost before = views(out@);
    let ghost all = views(titles@);
    let mut i: usize = 0;
    assert(all.take(0) =~= seq![]);
    assert(before + Seq::<WarningView>::empty() =~= before);
    while i < titles.len()
        invariant
            i <= titles@.len(),
            all == views(titles@),
            views(out@) == before + title_warnings(all.take(i as int)),
        decreases titles@.len() - i,
    {
        let ghost so_far = views(out@);
        assert(all.take(i + 1).drop_last() =~= all.take(i as int));
        assert(all.take(i + 1).last() == titles@[i as int]@);
        let title = &titles[i];
        if title.overflow {
            let mut detail = "'".to_owned();
            detail.append(title.text.as_str());
            detail.append("' extends past the frame");
            push_view(
                out,
                Warning { code: "title-overflow", target: title.id.as_str().to_owned(), detail },
            );
        }
        if let Some(contrast) = title.contrast {
            if contrast < MIN_CONTRAST {
                let mut detail = "'".to_owned();
                detail.append(title.text.as_str());
                detail.append("' is at ");
                push_fixed(&mut detail, rounded_even((contrast as i128) * 10, 1_000_000), 1);
                detail.append(":1 against what is behind it");
                push_view(
                    out,
                    Warning { code: "low-contrast", target: title.id.as_str().to_owned(), detail },
                );
            }
        }
        assert(views(out@) =~= so_far + title_warnings_of(titles@[i as int]@));
        i = i + 1;
        assert(views(out@) =~= before + title_warnings(all.take(i as int)));
    }
    assert(all.take(i as int) =~= all);
}

pub open spec fn caption_warning(captions: CaptionDigest) -> Seq<WarningView> {
    if captions.overlaps > 0 {
        seq![
            WarningView {
                code: "caption-overlap"@,
                target: "track[kind=caption]"@,
                detail: dec(captions.overlaps as nat) + " overlapping caption cue(s)"@,
            },
        ]
    } else {
        seq![]
    }
}

pub open spec fn clipping_warning(id: Seq<char>, audio: Option<AudioDigest>) -> Seq<WarningView> {
    match audio {
        Some(audio) => if audio.clipped_samples > 0 {
            seq![
                WarningView {
                    code: "clipping"@,
                    target: id,
                    detail: dec(audio.clipped_samples as nat)
                        + " samples at or past full scale"@,
                },
            ]
        } else {
            seq![]
        },
        None => seq![],
    }
}

/// Everything a description warns of.
pub open spec fn digest_warnings(
    project: Project,
    sequence: Sequence,
    seen: Seen,
    titles: Seq<TitleMeasurement>,
    audio: Option<AudioDigest>,
) -> Seq<WarningView> {
    let tracks = sequence.tracks@;
    all_gap_warnings(sequence, tracks.len() as int) + caption_warning(
        captions_of(project, tracks),
    ) + black_warnings(tracks, seen.black@) + frozen_warnings(tracks, seen.frozen@)
        + flash_warnings(tracks, seen.flashes@, sequence.fps.spec_frame_duration())
        + title_warnings(titles_of(titles, sequence.size@[0])) + clipping_warning(
        sequence.id@,
        audio,
    )
}

// ---------------------------------------------------------------------------
// The description
// ---------------------------------------------------------------------------

/// Whether everything a description holds can be stored.
pub open spec fn describable(project: Project, sequence: Sequence) -> bool {
    &&& project_sane(project)
    &&& sequence_sane(sequence)
    &&& gaps_measurable(sequence)
    &&& captions_fit(sequence.tracks@)
    &&& forall|t: int|
        0 <= t < sequence.tracks@.len() ==> clips_describable(
            (#[trigger] sequence.tracks@[t]).clips@,
        )
}

/// What a description of a sequence says.
pub open spec fn describes(
    made: Digest,
    project: Project,
    sequence: Sequence,
    options: DigestOptions,
    places: Seq<Placement>,
    video: VideoDigest,
    titles: Seq<TitleMeasurement>,
    audio: Option<AudioDigest>,
) -> bool {
    let heard = if options.with_audio {
        audio
    } else {
        None
    };
    &&& made.sequence@ == sequence.id@
    &&& made.name@ == sequence.name@
    &&& made.duration == tracks_end(sequence.tracks@)
    &&& made.fps == sequence.fps
    &&& made.size == sequence.size
    &&& made.sample_every == options.sample_every
    &&& made.tracks@.len() == sequence.tracks@.len()
    &&& (forall|t: int|
        0 <= t < sequence.tracks@.len() ==> describes_track(
            #[trigger] made.tracks@[t],
            project,
            sequence.tracks@[t],
            sequence.size,
            places,
        ))
    &&& views(made.gaps@) == all_gaps(sequence, sequence.tracks@.len() as int)
    &&& views(made.markers@) == markers_of(sequence.markers@)
    &&& views(made.titles@) == titles_of(titles, sequence.size@[0])
    &&& made.captions == captions_of(project, sequence.tracks@)
    &&& made.audio == heard
    &&& made.video == video
    &&& views(made.warnings@) == digest_warnings(project, sequence, video.seen, titles, heard)
}

fn track_digests(project: &Project, sequence: &Sequence, places: &Vec<Placement>) -> (r: Vec<
    TrackDigest,
>)
    requires
        describable(*project, *sequence),
        placements_ok(places@),
    ensures
        r@.len() == sequence.tracks@.len(),
        forall|t: int|
            0 <= t < sequence.tracks@.len() ==> describes_track(
                #[trigger] r@[t],
                *project,
                sequence.tracks@[t],
                sequence.size,
                places@,
            ),
{
    let mut out: Vec<TrackDigest> = Vec::new();
    let mut t: usize = 0;
    while t < sequence.tracks.len()
        invariant
            t <= sequence.tracks@.len(),
            describable(*project, *sequence),
            placements_ok(places@),
            out@.len() == t,
            forall|k: int|
                0 <= k < t ==> describes_track(
                    #[trigger] out@[k],
                    *project,
                    sequence.tracks@[k],
                    sequence.size,
                    places@,
                ),
        decreases sequence.tracks@.len() - t,
    {
        assert(clips_describable(sequence.tracks@[t as int].clips@));
        out.push(track_digest(project, &sequence.tracks[t], sequence.size, places));
        t = t + 1;
    }
    out
}

fn push_caption_warning(out: &mut Vec<Warning>, captions: CaptionDigest)
    ensures
        views(final(out)@) == views(old(out)@) + caption_warning(captions),
{
    let ghost before = views(out@);
    if captions.overlaps > 0 {
        let mut detail = crate::text::decimal(captions.overlaps as u128);
        detail.append(" overlapping caption cue(s)");
        push_view(
            out,
            Warning { code: "caption-overlap", target: "track[kind=caption]".to_owned(), detail },
        );
    }
    assert(views(out@) =~= before + caption_warning(captions));
}

fn push_clipping(out: &mut Vec<Warning>, id: &str, audio: &Option<AudioDigest>)
    ensures
        views(final(out)@) == views(old(out)@) + clipping_warning(id@, *audio),
{
    let ghost before = views(out@);
    if let Some(audio) = audio {
        if audio.clipped_samples > 0 {
            let mut detail = crate::text::decimal(audio.clipped_samples as u128);
            detail.append(" samples at or past full scale");
            push_view(out, Warning { code: "clipping", target: id.to_owned(), detail });
        }
    }
    assert(views(out@) =~= before + clipping_warning(id@, *audio));
}

/// Describes a sequence: what the document says, and what was seen and heard of it.
pub fn digest(
    project: &Project,
    id: &str,
    options: &DigestOptions,
    places: &Vec<Placement>,
    video: VideoDigest,
    titles: &Vec<TitleMeasurement>,
    audio: Option<AudioDigest>,
) -> (r: Result<Digest, Error>)
    requires
        placements_ok(places@),
        project.sequence_at(id@) >= 0 ==> describable(
            *project,
            project.sequences@[project.sequence_at(id@)],
        ) && seen_ok(video.seen, project.sequences@[project.sequence_at(id@)].fps),
    ensures
        (match r {
            Err(error) => if options.sample_every.secs.num < 0 {
                error@ == negative_interval("sample-every"@, options.sample_every)
            } else {
                project.sequence_at(id@) < 0 && error@ == project.no_sequence(id@)
            },
            Ok(made) => {
                &&& options.sample_every.secs.num >= 0
                &&& project.sequence_at(id@) >= 0
                &&& describes(
                    made,
                    *project,
                    project.sequences@[project.sequence_at(id@)],
                    *options,
                    places@,
                    video,
                    titles@,
                    audio,
                )
            },
        }),
{
    match require_interval(options.sample_every, "sample-every") {
        Err(error) => return Err(error),
        Ok(()) => {},
    }
    let sequence = match project.sequence(id) {
        Err(error) => return Err(error),
        Ok(sequence) => sequence,
    };
    let heard = if options.with_audio {
        audio
    } else {
        None
    };
    let tracks = track_digests(project, sequence, places);
    let (gaps, mut warnings) = gap_digests(sequence);
    let captions = caption_digest(project, sequence);
    push_caption_warning(&mut warnings, captions);
    push_spans(&mut warnings, sequence, &video.seen.black, true);
    push_spans(&mut warnings, sequence, &video.seen.frozen, false);
    push_flashes(&mut warnings, sequence, &video.seen.flashes);
    let title_list = title_digests(titles, sequence.size[0]);
    push_titles(&mut warnings, &title_list);
    push_clipping(&mut warnings, sequence.id.as_str(), &heard);
    Ok(
        Digest {
            sequence: sequence.id.as_str().to_owned(),
            name: sequence.name.as_str().to_owned(),
            duration: sequence.duration(),
            fps: sequence.fps,
            size: sequence.size,
            sample_every: options.sample_every,
            tracks,
            gaps,
            markers: marker_digests(&sequence.markers),
            titles: title_list,
            captions,
            audio: heard,
            video,
            warnings,
        },
    )
}

/// What names a stretch of the picture names a clip only where there is one.
pub proof fn law_a_picture_is_named_by_what_exists(tracks: Seq<Track>, span: Span)
    ensures
        picture_name(tracks, span) == window_text("clip"@, span) || !is_shown(tracks, span),
        !is_shown(tracks, span) ==> picture_name(tracks, span) == "track[kind=video]"@,
{
}

} // verus!
