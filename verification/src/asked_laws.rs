//! What is asked of one asset, of a batch, of captions and of a cut, and what is answered of a
//! stretch.

use crate::args::{argument, is_absent, text_argument, time_argument};
use crate::asset_import::{
    import_asked, proxy_asked, relink_asked, removal_asked, thumbnails_asked, waveform_asked,
};
use crate::asset_ops::resolved;
use crate::error::ErrorView;
use crate::inspect_ops::{auto_cut_asked, scenes_asked};
use crate::json::JsonView;
use crate::loop_ops::{batch_asked, stretch_asked, transcript_asked};
use crate::otio::entries_warnings;
use crate::project::Project;
use crate::proxy::source_rate;
use crate::rational::Rat;
use crate::report::span_fields;
use crate::scene_ops::{sampling_asked, threshold_argument, Sampling};
use crate::server::{batch_of, range_argument};
use crate::time::{Fps, Span, Time};
use crate::time_text::rate_value;
use crate::timeline::Entry;
use crate::title_laws::warns;
use crate::tools::span_of;
use crate::transfer_ops::captions_asked;
use crate::report::Word;
use vstd::prelude::*;

verus! {

// ---------------------------------------------------------------------------
// One asset
// ---------------------------------------------------------------------------

/// Whether an answer about an asset is about the one that was asked for.
pub open spec fn about(project: Project, args: JsonView, at: int) -> bool {
    text_argument(args, "asset"@) matches Some(text) && at == resolved(project, text) && at >= 0
}

/// Whatever is asked of an asset is asked of the one that is named.
pub proof fn law_the_named_asset_is_meant(project: Project, args: JsonView)
    ensures
        proxy_asked(project, args) matches Ok((at, proxy)) ==> about(project, args, at),
        thumbnails_asked(project, args) matches Ok((at, every, width)) ==> about(
            project,
            args,
            at,
        ),
        waveform_asked(project, args) matches Ok((at, buckets)) ==> about(project, args, at),
        removal_asked(project, args) matches Ok((at, force)) ==> about(project, args, at),
        relink_asked(project, args) matches Ok((at, path)) ==> about(project, args, at),
        text_argument(args, "asset"@) is None ==> proxy_asked(project, args) is Err
            && relink_asked(project, args) is Err && removal_asked(project, args) is Err,
{
}

/// A stand-in has the rate that is asked for, else that of its source, and the height that is asked
/// for, else five hundred and forty lines.
pub proof fn law_a_stand_in_is_as_asked(project: Project, args: JsonView)
    ensures
        proxy_asked(project, args) matches Ok((at, proxy)) ==> {
            &&& project.assets@[at].probe.video is Some
            &&& text_argument(args, "fps"@) matches Some(text) ==> rate_value(text) == Some(
                proxy.fps,
            )
            &&& text_argument(args, "fps"@) is None ==> proxy.fps == source_rate(
                project.assets@[at].probe,
                project.sequences@[project.sequence_at(project.active_sequence@)].fps,
            )
            &&& is_absent(argument(args, "height"@)) ==> proxy.height == 540
            &&& proxy.quality == 26
        },
        proxy_asked(project, args) is Ok && text_argument(args, "fps"@) is Some ==> rate_value(
            text_argument(args, "fps"@)->0,
        ) is Some,
{
}

/// Thumbnails are taken every five seconds and three hundred and twenty wide, peaks twenty a second,
/// where nothing else is asked.
pub proof fn law_pictures_and_peaks_are_as_asked(project: Project, args: JsonView)
    ensures
        thumbnails_asked(project, args) matches Ok((at, every, width)) ==> {
            let rate = project.sequences@[project.sequence_at(project.active_sequence@)].fps;
            &&& time_argument(args, "every"@, rate) matches Ok(Some(given)) ==> every == given
            &&& time_argument(args, "every"@, rate) matches Ok(None) ==> every == (Time {
                secs: Rat { num: 5, den: 1 },
            })
            &&& is_absent(argument(args, "width"@)) ==> width == 320
            &&& time_argument(args, "every"@, rate) is Ok
        },
        waveform_asked(project, args) matches Ok((at, buckets)) ==> {
            &&& project.assets@[at].probe.audio is Some
            &&& is_absent(argument(args, "buckets-per-second"@)) ==> buckets == 20
        },
{
}

/// An asset is let go by force only where that is said, and linked anew to the path that is given.
pub proof fn law_force_is_said(project: Project, args: JsonView)
    ensures
        removal_asked(project, args) matches Ok((at, force)) ==> (force <==> argument(
            args,
            "force"@,
        ) == Some(JsonView::Bool(true))),
        relink_asked(project, args) matches Ok((at, path)) ==> text_argument(args, "path"@) == Some(
            path,
        ),
        text_argument(args, "path"@) is None ==> relink_asked(project, args) is Err,
{
}

/// Files are taken in under the name that is given, which only one of them can have.
pub proof fn law_one_name_is_for_one_file(args: JsonView)
    ensures
        import_asked(args) matches Ok(asked) ==> {
            &&& asked.paths.len() > 0
            &&& asked.name == text_argument(args, "name"@)
            &&& asked.name is Some ==> asked.paths.len() == 1
            &&& text_argument(args, "path"@) matches Some(path) ==> asked.paths == seq![path]
        },
{
}

// ---------------------------------------------------------------------------
// Batches, captions and cuts
// ---------------------------------------------------------------------------

/// A batch is tried or done, and answered with a description, as its own switch says.
pub proof fn law_a_batch_is_done_as_asked(args: JsonView)
    ensures
        batch_asked(args) matches Ok(asked) ==> {
            &&& asked.dry_run <==> argument(args, "dry-run"@) == Some(JsonView::Bool(true))
            &&& asked.digest <==> argument(args, "digest"@) == Some(JsonView::Bool(true))
            &&& batch_of(args) matches Ok(steps) && steps == asked.steps
        },
        batch_of(args) is Err ==> batch_asked(args) is Err,
{
}

/// Captions go where it is said, as what is said, from the track that is named.
pub proof fn law_captions_go_where_it_is_said(args: JsonView)
    ensures
        captions_asked(args) matches Ok((out, format, track)) ==> {
            &&& text_argument(args, "out"@) == Some(out)
            &&& text_argument(args, "format"@) == format
            &&& text_argument(args, "track"@) == track
        },
        text_argument(args, "out"@) is None ==> captions_asked(args) is Err,
{
}

/// A cut is made with the threshold and the samples that are asked for, on the track that is named.
pub proof fn law_a_cut_is_made_as_asked(args: JsonView, fps: Fps)
    ensures
        auto_cut_asked(args, fps) matches Ok((sampling, threshold, track)) ==> {
            &&& sampling_asked(args, fps) == Ok::<Sampling, ErrorView>(sampling)
            &&& threshold_argument(args) == Ok::<Rat, ErrorView>(threshold)
            &&& text_argument(args, "track"@) == track
        },
        scenes_asked(args, fps) matches Ok((sampling, threshold)) ==> {
            &&& sampling_asked(args, fps) == Ok::<Sampling, ErrorView>(sampling)
            &&& threshold_argument(args) == Ok::<Rat, ErrorView>(threshold)
        },
        threshold_argument(args) is Err ==> auto_cut_asked(args, fps) is Err && scenes_asked(
            args,
            fps,
        ) is Err,
{
}

/// A stretch is the one that is spelled, and none only where none is.
pub proof fn law_a_stretch_is_the_one_spelled(args: JsonView, fps: Fps)
    ensures
        stretch_asked(args, fps) matches Ok(Some(span)) ==> text_argument(args, "span"@) is Some
            && span_of(text_argument(args, "span"@)->0, fps) == Ok::<Span, ErrorView>(span),
        stretch_asked(args, fps) matches Ok(None) ==> text_argument(args, "span"@) is None,
        range_argument(args, fps) matches Ok(Some(span)) ==> text_argument(args, "range"@) is Some
            && span_of(text_argument(args, "range"@)->0, fps) == Ok::<Span, ErrorView>(span),
        range_argument(args, fps) matches Ok(None) ==> text_argument(args, "range"@) is None,
{
}

/// A transcript is that of the asset that is named, searched for the phrase that is given, and no
/// longer than is asked, else two hundred words.
pub proof fn law_a_transcript_is_searched_as_asked(args: JsonView, fps: Fps)
    ensures
        transcript_asked(args, fps) matches Ok(asked) ==> {
            &&& text_argument(args, "asset"@) == Some(asked.asset)
            &&& text_argument(args, "phrase"@) == asked.phrase
            &&& stretch_asked(args, fps) == Ok::<Option<Span>, ErrorView>(asked.span)
            &&& is_absent(argument(args, "limit"@)) ==> asked.limit == 200
        },
{
}

// ---------------------------------------------------------------------------
// Answers
// ---------------------------------------------------------------------------

/// What is said in a stretch is answered with where it starts and where it ends.
pub proof fn law_a_stretch_is_answered_with_its_ends(span: Span, words: Seq<Word>, limit: int)
    requires
        limit >= 0,
    ensures
        ({
            let fields = span_fields(span, words, limit);
            &&& fields.len() == 3
            &&& fields[0].name == "span"@
            &&& fields[0].value matches JsonView::Object(ends) && {
                &&& ends.len() == 2
                &&& ends[0].name == "start"@ && ends[0].value == JsonView::Text(span.start.text())
                &&& ends[1].name == "end"@ && ends[1].value == JsonView::Text(span.end.text())
            }
            &&& fields[2].name == "inSpan"@
            &&& fields[2].value matches JsonView::Array(said) && said.len() == (if limit
                < words.len() {
                limit
            } else {
                words.len() as int
            })
        }),
{
}

/// A clip that is played at another speed is told wherever it stands among those that are handed over
/// as OpenTimelineIO.
pub proof fn law_another_speed_is_told_of_every_clip(
    entries: Seq<Entry>,
    project: Project,
    i: int,
)
    requires
        0 <= i < entries.len(),
        entries[i] is Clip,
        !entries[i]->Clip_0.clip.plays_straight(),
    ensures
        warns(
            entries_warnings(entries, project),
            "speed-not-exported"@,
            entries[i]->Clip_0.clip.spec_label(),
        ),
    decreases entries.len(),
{
    let rest = entries.drop_last();
    let (code, target) = ("speed-not-exported"@, entries[i]->Clip_0.clip.spec_label());
    let before = entries_warnings(rest, project);
    let all = entries_warnings(entries, project);
    if i < rest.len() {
        assert(rest[i] == entries[i]);
        law_another_speed_is_told_of_every_clip(rest, project, i);
        let k = choose|k: int|
            0 <= k < before.len() && (#[trigger] before[k]).code == code && before[k].target
                == target;
        assert(all[k] == before[k]);
    } else {
        let clip = *entries[i]->Clip_0.clip;
        let lost = crate::timeline::lost_features(clip, "OTIO"@);
        let k = before.len() + lost.len();
        assert(all[k as int] == crate::timeline::retime_loss(clip, "OTIO"@)->0);
    }
}

} // verus!
