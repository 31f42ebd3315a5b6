//! How what is drawn over a frame is placed, and what is answered about tracks, transitions and tools.

use crate::edl::dissolve_text;
use crate::lint_duck::{duck_findings, DuckPair};
use crate::lint_media::duck_finding;
use crate::probe::report_args;
use crate::project::{Clip, Track, TransitionKind};
use crate::sheet::{box_text, boxes_text, places2, sheet_error, Layer};
use crate::time::{Fps, Time};
use crate::transfer::{clip_count, PlannedTrackView};
use vstd::prelude::*;

verus! {

// ---------------------------------------------------------------------------
// Boxes
// ---------------------------------------------------------------------------

/// Whether a text begins with another.
#[verifier::opaque]
pub open spec fn begins_with(text: Seq<char>, head: Seq<char>) -> bool {
    head.len() <= text.len() && text.take(head.len() as int) == head
}

broadcast proof fn lemma_begins_on(a: Seq<char>, b: Seq<char>, head: Seq<char>)
    requires
        begins_with(a, head),
    ensures
        #[trigger] begins_with(a + b, head),
{
    reveal(begins_with);
    assert((a + b).take(head.len() as int) =~= a.take(head.len() as int));
}

proof fn lemma_begins_itself(head: Seq<char>)
    ensures
        begins_with(head, head),
{
    reveal(begins_with);
    assert(head.take(head.len() as int) =~= head);
}

/// The corner and the sides of a rectangle, as they are written.
pub open spec fn rectangle(x: int, y: int, w: int, h: int) -> Seq<char> {
    "<rect x=\""@ + places2(x, 1_000_000) + "\" y=\""@ + places2(y, 1_000_000) + "\" width=\""@
        + places2(w, 1_000_000) + "\" height=\""@ + places2(h, 1_000_000)
}

/// A box is drawn where its layer is, as wide and as high as it, where that lies in the frame.
pub proof fn law_a_box_is_drawn_around_its_layer(width: int, height: int, index: int, layer: Layer)
    requires
        width > 0,
        height > 0,
        0 <= layer.x,
        0 <= layer.y,
        layer.w >= 1_000_000,
        layer.h >= 1_000_000,
        layer.x + layer.w <= width * 1_000_000,
        layer.y + layer.h <= height * 1_000_000,
    ensures
        begins_with(
            box_text(width, height, index, layer),
            rectangle(layer.x as int, layer.y as int, layer.w as int, layer.h as int),
        ),
{
    broadcast use lemma_begins_on;

    crate::media_laws::law_a_box_is_where_its_layer_is(width, height, layer);
    let head = rectangle(layer.x as int, layer.y as int, layer.w as int, layer.h as int);
    lemma_begins_itself(head);
}

/// Every layer gets one box, in the order of the layers.
pub proof fn law_every_layer_gets_a_box(width: int, height: int, layers: Seq<Layer>, layer: Layer)
    ensures
        boxes_text(width, height, seq![]) == Seq::<char>::empty(),
        boxes_text(width, height, layers.push(layer)) == boxes_text(width, height, layers)
            + box_text(width, height, layers.len() as int, layer),
{
    assert(layers.push(layer).drop_last() =~= layers);
}

/// A sheet is refused exactly for a negative interval, for having no columns, for having nothing to
/// show, or for having too much.
pub proof fn law_a_sheet_is_refused_for_a_reason(
    name: Seq<char>,
    fps: Fps,
    duration: Time,
    every: Time,
    columns: u32,
)
    ensures
        every.secs.num < 0 || columns == 0 || duration.secs.num == 0 ==> sheet_error(
            name,
            fps,
            duration,
            every,
            columns,
        ) is Some,
        sheet_error(name, fps, duration, every, columns) is None ==> every.secs.num >= 0 && columns
            > 0 && duration.secs.num != 0,
{
}

// ---------------------------------------------------------------------------
// Tracks, transitions and tools
// ---------------------------------------------------------------------------

/// Of every pair of tracks that play together is told whether one drowns the other.
pub proof fn law_every_pair_of_tracks_is_compared(
    tracks: Seq<Track>,
    pairs: Seq<DuckPair>,
    levels: Seq<(i64, i64)>,
    n: int,
    i: int,
)
    requires
        0 <= i < n <= pairs.len(),
        n <= levels.len(),
        duck_finding(
            tracks[pairs[i].first as int],
            tracks[pairs[i].second as int],
            pairs[i].span,
            levels[i].0,
            levels[i].1,
        ) is Some,
    ensures
        duck_findings(tracks, pairs, levels, n).contains(
            duck_finding(
                tracks[pairs[i].first as int],
                tracks[pairs[i].second as int],
                pairs[i].span,
                levels[i].0,
                levels[i].1,
            )->0,
        ),
    decreases n,
{
    let found = duck_finding(
        tracks[pairs[i].first as int],
        tracks[pairs[i].second as int],
        pairs[i].span,
        levels[i].0,
        levels[i].1,
    )->0;
    let before = duck_findings(tracks, pairs, levels, n - 1);
    let all = duck_findings(tracks, pairs, levels, n);
    if i < n - 1 {
        law_every_pair_of_tracks_is_compared(tracks, pairs, levels, n - 1, i);
        let k = choose|k: int| 0 <= k < before.len() && before[k] == found;
        assert(all[k] == found);
    } else {
        assert(all[before.len() as int] == found);
    }
}

/// A transition is named in a comment exactly where a clip has one, each kind by its own name.
pub proof fn law_a_transition_is_named(clip: Clip)
    ensures
        dissolve_text(clip) is Some <==> clip.transition() is Some,
        clip.transition() matches Some(t) ==> {
            &&& t.kind == TransitionKind::Dissolve ==> dissolve_text(clip) == Some(
                "CROSS DISSOLVE"@,
            )
            &&& t.kind == TransitionKind::Dip ==> dissolve_text(clip) == Some(
                "DIP TO COLOR DISSOLVE"@,
            )
            &&& t.kind != TransitionKind::Dissolve && t.kind != TransitionKind::Dip
                ==> dissolve_text(clip) == Some("WIPE"@)
        },
{
}

/// The clips of a plan are those of its tracks, together.
pub proof fn law_planned_clips_are_counted(tracks: Seq<PlannedTrackView>, track: PlannedTrackView)
    ensures
        clip_count(seq![]) == 0,
        clip_count(tracks.push(track)) == clip_count(tracks) + track.clips.len(),
{
    assert(tracks.push(track).drop_last() =~= tracks);
}

/// A file is probed for its format, its streams and its rotation, answered as JSON, and named last.
pub proof fn law_a_file_is_probed_whole(path: Seq<char>)
    ensures
        report_args(path).last() == path,
        report_args(path).contains("-show_format"@),
        report_args(path).contains("-show_streams"@),
        crate::media_laws::passes(report_args(path), "-print_format"@, "json"@),
        crate::media_laws::passes(
            report_args(path),
            "-show_entries"@,
            "stream_side_data=rotation"@,
        ),
{
    let args = report_args(path);
    assert(args[2] == "-show_format"@ && args[3] == "-show_streams"@);
    assert(args[0] == "-print_format"@ && args[1] == "json"@);
    assert(args[4] == "-show_entries"@ && args[5] == "stream_side_data=rotation"@);
}

} // verus!
