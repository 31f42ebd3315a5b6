//! What is handed to editors, to players and to whoever asked.

use crate::digest::{describes_clip, describes_track, ClipDigest};
use crate::digest_report::{describes, AudioDigest, Digest, VideoDigest};
use crate::digest::DigestOptions;
use crate::fcpxml::{format_at, format_event, format_list, suits, with_format, FormatView, Timebase};
use crate::json::JsonView;
use crate::lint_source::{source_end, Placement};
use crate::lint_title::TitleMeasurement;
use crate::loop_ops::{batch_report, frame_report};
use crate::mlt_parts::sets;
use crate::otio_parts::has;
use crate::project::{Asset, CaptionCue, Clip, Project, Sequence, Source, Track};
use crate::rational::{gcd, Rat};
use crate::report::asset_json;
use crate::report_laws::{names, states};
use crate::subtitle::{captions_text, cue_text, cues_text, srt_text, stamp_text, vtt_text};
use crate::text::{dec, dec_int, strings};
use crate::time::{Fps, Time};
use crate::transfer::PlannedTrack;
use crate::transfer_ops::{delivered_json, is_added_clip, is_added_track, TrackIds};
use crate::xml::EventView;
use vstd::prelude::*;

verus! {

// ---------------------------------------------------------------------------
// Formats
// ---------------------------------------------------------------------------

/// The duration of a frame is one over the rate, in lowest terms.
pub proof fn law_a_frame_lasts_one_over_the_rate(fps: Fps)
    requires
        fps.wf(),
    ensures
        ({
            let base = Timebase::of_rate(fps);
            &&& base.num > 0 && base.den > 0
            &&& base.num * fps.rate.num == base.den * fps.rate.den
        }),
{
    let (n, d) = (fps.rate.den as nat, fps.rate.num as nat);
    let g = gcd(n, d);
    crate::rational::lemma_gcd_divides(n, d);
    crate::rational::lemma_exact_division(n, g);
    crate::rational::lemma_exact_division(d, g);
    let (p, q) = ((n / g) as int, (d / g) as int);
    assert(p * g == g * p && q * g == g * q) by (nonlinear_arith);
    assert(p * g == n && q * g == d);
    assert(p > 0 && q > 0) by (nonlinear_arith)
        requires
            p * g == n,
            q * g == d,
            n > 0,
            d > 0,
            g >= 0,
    ;
    assert(p <= n && q <= d) by (nonlinear_arith)
        requires
            p * g == n,
            q * g == d,
            p > 0,
            q > 0,
            n > 0,
            g >= 0,
    ;
    assert(p * d == q * n) by (nonlinear_arith)
        requires
            p * g == n,
            q * g == d,
    ;
}

/// A format states its size, width first, and the duration of its frames.
pub proof fn law_a_format_states_its_size(format: FormatView)
    ensures
        format_event(format) matches EventView::Empty { name, attrs } && name == "format"@ && sets(
            attrs,
            "id"@,
            format.id,
        ) && sets(attrs, "width"@, dec(format.size@[0] as nat)) && sets(
            attrs,
            "height"@,
            dec(format.size@[1] as nat),
        ) && sets(
            attrs,
            "frameDuration"@,
            dec_int(Timebase::of_rate(format.fps).num as int) + "/"@ + dec_int(
                Timebase::of_rate(format.fps).den as int,
            ) + "s"@,
        ),
{
    let attrs = format_event(format)->Empty_attrs;
    assert(attrs[0].key == "id"@);
    assert(attrs[2].key == "frameDuration"@);
    assert(attrs[3].key == "width"@);
    assert(attrs[4].key == "height"@);
}

/// Every format is listed, in its place.
pub proof fn law_every_format_is_listed(formats: Seq<FormatView>, i: int)
    ensures
        format_list(formats).len() == formats.len(),
        0 <= i < formats.len() ==> format_list(formats)[i] == format_event(formats[i]),
    decreases formats.len(),
{
    if formats.len() > 0 {
        law_every_format_is_listed(formats.drop_last(), i);
    }
}

/// A file takes a format for the size that its picture is shown at and for its rate; one that is there
/// is taken again. Sound alone takes the format of the sequence.
pub proof fn law_a_file_takes_the_format_of_its_picture(
    formats: Seq<FormatView>,
    next: int,
    asset: Asset,
    fps: Fps,
)
    requires
        formats.len() > 0,
    ensures
        ({
            let (all, _, id) = with_format(formats, next, asset, fps);
            &&& asset.probe.video is None ==> all == formats && id == formats[0].id
            &&& asset.probe.video matches Some(video) ==> (video.fps.wf() ==> exists|i: int|
                0 <= i < all.len() && (#[trigger] all[i]).id == id && all[i].size@[0]
                    == video.shown_size()@[0] && all[i].size@[1] == video.shown_size()@[1]
                    && all[i].fps == video.fps)
            &&& all.len() <= formats.len() + 1
            &&& asset.probe.video matches Some(video) ==> ((exists|i: int|
                0 <= i < formats.len() && suits(
                    #[trigger] formats[i],
                    video.shown_size(),
                    video.fps,
                )) ==> all == formats)
        }),
{
    if let Some(video) = asset.probe.video {
        let size = video.shown_size();
        lemma_format_at(formats, size, video.fps);
        let at = format_at(formats, size, video.fps);
        let (all, _, id) = with_format(formats, next, asset, fps);
        if at >= 0 {
            assert(all[at].id == id);
        } else {
            assert(all[formats.len() as int].id == id);
        }
    }
}

proof fn lemma_format_at(formats: Seq<FormatView>, size: [u32; 2], fps: Fps)
    ensures
        format_at(formats, size, fps) < formats.len(),
        format_at(formats, size, fps) >= 0 ==> suits(
            formats[format_at(formats, size, fps)],
            size,
            fps,
        ),
        format_at(formats, size, fps) < 0 ==> forall|i: int|
            0 <= i < formats.len() ==> !suits(#[trigger] formats[i], size, fps),
    decreases formats.len(),
{
    if formats.len() > 0 {
        let rest = formats.drop_last();
        lemma_format_at(rest, size, fps);
        let before = format_at(rest, size, fps);
        if before >= 0 {
            assert(rest[before] == formats[before]);
        } else {
            assert forall|i: int| 0 <= i < rest.len() implies !suits(
                #[trigger] formats[i],
                size,
                fps,
            ) by {
                assert(rest[i] == formats[i]);
            }
            assert(formats.last() == formats[formats.len() - 1]);
        }
    }
}

// ---------------------------------------------------------------------------
// Captions
// ---------------------------------------------------------------------------

/// Cues are numbered from one: the next one has the next number, its own times, and its own words.
pub proof fn law_cues_are_numbered_from_one(
    cues: Seq<CaptionCue>,
    order: Seq<int>,
    at: int,
    point: char,
)
    ensures
        cues_text(cues, Seq::<int>::empty(), point).len() == 0,
        cues_text(cues, order.push(at), point) == cues_text(cues, order, point) + cue_text(
            order.len() as int + 1,
            cues[at],
            point,
        ),
        ({
            let text = cue_text(order.len() as int + 1, cues[at], point);
            let head = dec(order.len() + 1) + seq!['\n'] + stamp_text(cues[at].span.start, point)
                + " --> "@ + stamp_text(cues[at].span.end, point) + seq!['\n'];
            &&& text.len() > head.len()
            &&& text.take(head.len() as int) == head
            &&& text.last() == '\n'
        }),
{
    assert(order.push(at).drop_last() =~= order);
    let text = cue_text(order.len() as int + 1, cues[at], point);
    let head = dec(order.len() + 1) + seq!['\n'] + stamp_text(cues[at].span.start, point)
        + " --> "@ + stamp_text(cues[at].span.end, point) + seq!['\n'];
    assert(text.take(head.len() as int) =~= head);
}

/// A SubRip file writes a comma in its times, a WebVTT file a point, and that begins with its name.
pub proof fn law_the_two_formats_differ_in_their_point(cues: Seq<CaptionCue>)
    ensures
        srt_text(cues) == captions_text(cues, ',', seq![]),
        vtt_text(cues) == captions_text(cues, '.', "WEBVTT\n\n"@),
        vtt_text(cues).len() >= 8,
        vtt_text(cues).take(8) == "WEBVTT\n\n"@,
{
    reveal_strlit("WEBVTT\n\n");
    assert("WEBVTT\n\n"@.len() == 8);
    assert(vtt_text(cues).take(8) =~= "WEBVTT\n\n"@);
}

// ---------------------------------------------------------------------------
// Descriptions
// ---------------------------------------------------------------------------

/// A clip is described by where it stands, what it reads, and what is done to it.
pub proof fn law_a_clip_is_described(
    made: ClipDigest,
    project: Project,
    clip: Clip,
    frame: [u32; 2],
    places: Seq<Placement>,
)
    requires
        describes_clip(made, project, clip, frame, places),
    ensures
        made.id@ == clip.id@,
        made.range.start == clip.start,
        made.range.end == clip.start.spec_plus(clip.duration),
        clip.source is Asset || clip.source is Sequence ==> (made.source_range matches Some(read)
            && read.start == clip.source_in && read.end == source_end(clip)),
        clip.source is Title || clip.source is Color || clip.source is Generator
            || clip.source is Image ==> made.source_range is None,
        made.disabled <==> !clip.enabled,
        made.speed is Some <==> clip.speed.num != clip.speed.den,
        made.transition is Some <==> clip.transition_in is Some,
        made.effects@.len() == clip.effects@.len(),
        forall|i: int|
            0 <= i < clip.effects@.len() ==> (#[trigger] made.effects@[i])@
                == clip.effects@[i].kind@,
        made.fitted@ == clip.fit@,
{
    let told = strings(made.effects@);
    assert(told.len() == clip.effects@.len());
    assert forall|i: int| 0 <= i < clip.effects@.len() implies (#[trigger] made.effects@[i])@
        == clip.effects@[i].kind@ by {
        assert(told[i] == made.effects@[i]@);
    }
}

/// A sequence is described track by track and clip by clip, with its size, its rate and its sound,
/// unless that was left out.
pub proof fn law_a_sequence_is_described(
    made: Digest,
    project: Project,
    sequence: Sequence,
    options: DigestOptions,
    places: Seq<Placement>,
    video: VideoDigest,
    titles: Seq<TitleMeasurement>,
    audio: Option<AudioDigest>,
    t: int,
    c: int,
)
    requires
        describes(made, project, sequence, options, places, video, titles, audio),
    ensures
        made.sequence@ == sequence.id@,
        made.name@ == sequence.name@,
        made.fps == sequence.fps,
        made.size == sequence.size,
        made.sample_every == options.sample_every,
        options.with_audio ==> made.audio == audio,
        !options.with_audio ==> made.audio is None,
        made.video == video,
        made.tracks@.len() == sequence.tracks@.len(),
        0 <= t < sequence.tracks@.len() ==> {
            let (told, track) = (made.tracks@[t], sequence.tracks@[t]);
            &&& told.id@ == track.id@
            &&& told.name@ == track.name@
            &&& told.kind == track.kind
            &&& told.muted == track.muted
            &&& told.hidden == track.hidden
            &&& told.clips@.len() == track.clips@.len()
            &&& 0 <= c < track.clips@.len() ==> describes_clip(
                told.clips@[c],
                project,
                track.clips@[c],
                sequence.size,
                places,
            )
        },
        made.markers@.len() == sequence.markers@.len(),
        made.gaps@.len() == crate::digest::all_gaps(
            sequence,
            sequence.tracks@.len() as int,
        ).len(),
{
    if 0 <= t < sequence.tracks@.len() {
        assert(describes_track(
            made.tracks@[t],
            project,
            sequence.tracks@[t],
            sequence.size,
            places,
        ));
    }
    assert(crate::views::views(made.markers@).len() == made.markers@.len());
    assert(crate::views::views(made.gaps@).len() == made.gaps@.len());
}

// ---------------------------------------------------------------------------
// Imports
// ---------------------------------------------------------------------------

/// A track that is added holds every clip that was planned, each where it was planned and as it plays,
/// and nothing is switched off.
pub proof fn law_an_added_track_is_as_planned(track: Track, planned: PlannedTrack, ids: TrackIds, i: int)
    requires
        is_added_track(track, planned, ids),
    ensures
        track.id@ == ids.track@,
        track.name@ == planned.name@,
        track.kind == planned.kind,
        !track.muted && !track.hidden && !track.locked,
        track.clips@.len() == planned.clips@.len(),
        0 <= i < planned.clips@.len() ==> {
            let (clip, wanted) = (track.clips@[i], planned.clips@[i]);
            &&& clip.source matches Source::Asset { asset } && asset@ == wanted.asset@
            &&& clip.start == wanted.start
            &&& clip.duration == wanted.duration
            &&& clip.source_in == wanted.source_in
            &&& clip.speed == wanted.speed
            &&& clip.reverse == wanted.reverse
            &&& clip.enabled
            &&& clip.transition_in is None
        },
{
    if 0 <= i < planned.clips@.len() {
        assert(is_added_clip(track.clips@[i], planned.clips@[i], strings(ids.clips@)[i]));
    }
}

// ---------------------------------------------------------------------------
// Answers
// ---------------------------------------------------------------------------

proof fn lemma_has(json: JsonView, k: int)
    requires
        json is Object,
        0 <= k < json->Object_0.len(),
    ensures
        has(json, json->Object_0[k].name, json->Object_0[k].value),
{
}

/// An asset is reported with its length, its size and rate where it has a picture, and whether it has a
/// stand-in and is there.
pub proof fn law_an_asset_is_reported(asset: Asset)
    ensures
        ({
            let json = asset_json(asset);
            &&& names(json, "id"@, asset.id@)
            &&& names(json, "name"@, asset.name@)
            &&& names(json, "duration"@, asset.probe.duration.text())
            &&& asset.probe.video matches Some(video) ==> has(
                json,
                "size"@,
                JsonView::Array(
                    seq![
                        JsonView::Number(dec(video.size@[0] as nat)),
                        JsonView::Number(dec(video.size@[1] as nat)),
                    ],
                ),
            ) && names(json, "fps"@, video.fps.text())
            &&& asset.probe.video is None ==> has(json, "size"@, JsonView::Null) && has(
                json,
                "fps"@,
                JsonView::Null,
            )
            &&& has(json, "vfr"@, JsonView::Bool(asset.probe.vfr))
            &&& has(json, "proxy"@, JsonView::Bool(asset.proxy is Some))
            &&& has(json, "present"@, JsonView::Bool(asset.path is Some))
        }),
{
    let json = asset_json(asset);
    lemma_has(json, 0);
    lemma_has(json, 1);
    lemma_has(json, 3);
    lemma_has(json, 4);
    lemma_has(json, 5);
    lemma_has(json, 6);
    lemma_has(json, 7);
    lemma_has(json, 8);
}

/// An export answers where it went, how many bytes it is, and whether it was only tried.
pub proof fn law_an_export_answers_where_it_went(path: Seq<char>, bytes: nat, dry_run: bool)
    ensures
        names(delivered_json(path, bytes, dry_run), "path"@, path),
        has(delivered_json(path, bytes, dry_run), "bytes"@, JsonView::Number(dec(bytes))),
        has(delivered_json(path, bytes, dry_run), "dryRun"@, JsonView::Bool(dry_run)),
{
    lemma_has(delivered_json(path, bytes, dry_run), 0);
    lemma_has(delivered_json(path, bytes, dry_run), 1);
    lemma_has(delivered_json(path, bytes, dry_run), 2);
}

/// A batch is committed exactly if it was not only tried, and answers with each of its operations.
pub proof fn law_a_batch_is_committed_unless_tried(
    applied: Seq<JsonView>,
    dry_run: bool,
    digest: Option<JsonView>,
)
    ensures
        ({
            let json = batch_report(applied, dry_run, digest);
            &&& has(json, "applied"@, JsonView::Array(applied))
            &&& has(json, "committed"@, JsonView::Bool(!dry_run))
            &&& has(json, "ops"@, JsonView::Number(dec(applied.len())))
            &&& digest matches Some(told) ==> has(json, "digest"@, told)
        }),
{
    let json = batch_report(applied, dry_run, digest);
    lemma_has(json, 0);
    lemma_has(json, 1);
    lemma_has(json, 2);
    if digest is Some {
        lemma_has(json, 3);
    }
}

/// A frame answers its number, the instant it starts at, and what is in it.
pub proof fn law_a_frame_answers_where_it_is(
    frame: int,
    fps: Fps,
    output: Seq<char>,
    annotated: bool,
    annotations: Seq<JsonView>,
)
    requires
        fps.wf(),
        Time::frames_fit(frame, fps),
    ensures
        ({
            let json = frame_report(frame, fps, output, annotated, annotations);
            &&& states(json, "frame"@, frame)
            &&& names(json, "output"@, output)
            &&& has(json, "annotated"@, JsonView::Bool(annotated))
            &&& has(json, "annotations"@, JsonView::Array(annotations))
            &&& exists|at: Time|
                at.secs.num * fps.rate.num == (frame * fps.rate.den) * at.secs.den && names(
                    json,
                    "at"@,
                    #[trigger] at.text(),
                ) && names(json, "timecode"@, at.timecode_text(fps))
        }),
{
    let json = frame_report(frame, fps, output, annotated, annotations);
    lemma_has(json, 0);
    lemma_has(json, 1);
    lemma_has(json, 2);
    lemma_has(json, 3);
    lemma_has(json, 4);
    lemma_has(json, 5);
    let at = Time::of_frames(frame, fps);
    Rat::lemma_of(frame * fps.rate.den, fps.rate.num as int);
    assert(names(json, "at"@, at.text()));
}

} // verus!
