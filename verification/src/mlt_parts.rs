//! What an MLT document says of each of its parts.

use crate::grid_laws::nearest_frame;
use crate::mlt::{
    in_point, path_of, producer_for, retimed_length, speed_of, EntryOutView, FilterView, ItemView,
    ProducerView, TransitionView,
};
use crate::mlt_build::{
    fade_in_filter, fade_out_filter, filters_of, level_filter, level_filters, opacity_filter,
    opened, overlap, overlap_transition, overlap_warnings, pan_position, panner_filter, with_clip,
    BuildView, Part,
};
use crate::mlt_document::{finished, guide_list, guide_text, track_filters, DocumentView, TrackView};
use crate::mlt_write::{
    combination, combination_list, display_aspect_of, filter_events, item_events, producer_events,
    profile_event, property, range_events, track_references, transition_events,
};
use crate::number::number_text;
use crate::project::{Clip, Marker, Project, Track, TrackKind, Transition, TransitionKind};
use crate::rational::{gcd, Rat};
use crate::text::{dec, dec_int};
use crate::time::Fps;
use crate::time_laws::{
    is_nearest, law_frames_stand_around_an_instant, law_rounding_gives_the_nearest,
    law_rounding_to_even_gives_the_nearest,
};
use crate::timeline::{Placed, Resource, FRAME_LIMIT};
use crate::xml::{attr, empty, end, start, AttrView, EventView};
use vstd::prelude::*;

verus! {

// ---------------------------------------------------------------------------
// Filters
// ---------------------------------------------------------------------------

/// Whether a value is set.
pub open spec fn sets(props: Seq<AttrView>, key: Seq<char>, value: Seq<char>) -> bool {
    exists|i: int|
        0 <= i < props.len() && (#[trigger] props[i]).key == key && props[i].value == value
}

proof fn lemma_sets(props: Seq<AttrView>, i: int)
    requires
        0 <= i < props.len(),
    ensures
        sets(props, props[i].key, props[i].value),
{
}

/// A clip fades in over as many frames as are nearest to its fade, from the first one that is played
/// on: sound from silence to full, picture from nothing to all. Only the part with its head does.
pub proof fn law_a_clip_fades_in_from_its_head(
    clip: Clip,
    audio: bool,
    from: int,
    frames: int,
    fps: Fps,
    part: Part,
    fade: int,
) -> (i: int)
    requires
        fps.wf(),
        clip.fade_in.wf(),
        clip.fade_in.round_frame(fps) == fade,
        0 < fade <= frames < FRAME_LIMIT,
        0 <= from < 2 * FRAME_LIMIT,
        part != Part::Tail,
    ensures
        nearest_frame(clip.fade_in, fps, fade),
        0 <= i < filters_of(clip, audio, from, frames, fps, part).len(),
        ({
            let filter = filters_of(clip, audio, from, frames, fps, part)[i];
            &&& filter.range matches Some((first, last)) && first == from && last - first + 1
                == fade
            &&& audio ==> filter.service == "volume"@ && sets(filter.props, "gain"@, "0"@) && sets(
                filter.props,
                "end"@,
                "1"@,
            )
            &&& !audio ==> filter.service == "brightness"@ && sets(
                filter.props,
                "alpha"@,
                "0=0;"@ + dec_int(fade - 1) + "=1"@,
            )
        }),
{
    law_frames_stand_around_an_instant(clip.fade_in, fps);
    let i = level_filters(clip, audio).len() as int;
    let filter = filters_of(clip, audio, from, frames, fps, part)[i];
    assert(filter == fade_in_filter(audio, from, fade));
    lemma_sets(filter.props, 0);
    lemma_sets(filter.props, 1);
    i
}

/// A clip fades out over as many frames as are nearest to its fade, up to the last one that is played.
/// Only the part with its tail does.
pub proof fn law_a_clip_fades_out_to_its_tail(
    clip: Clip,
    audio: bool,
    from: int,
    frames: int,
    fps: Fps,
    part: Part,
    fade: int,
) -> (i: int)
    requires
        fps.wf(),
        clip.fade_out.wf(),
        clip.fade_out.round_frame(fps) == fade,
        0 < fade <= frames < FRAME_LIMIT,
        0 <= from < 2 * FRAME_LIMIT,
        part != Part::Head,
    ensures
        nearest_frame(clip.fade_out, fps, fade),
        0 <= i < filters_of(clip, audio, from, frames, fps, part).len(),
        ({
            let filter = filters_of(clip, audio, from, frames, fps, part)[i];
            &&& filter.range matches Some((first, last)) && last == from + frames - 1 && last
                - first + 1 == fade
            &&& audio ==> filter.service == "volume"@ && sets(filter.props, "gain"@, "1"@) && sets(
                filter.props,
                "end"@,
                "0"@,
            )
            &&& !audio ==> filter.service == "brightness"@ && sets(
                filter.props,
                "alpha"@,
                "0=1;"@ + dec_int(fade - 1) + "=0"@,
            )
        }),
{
    law_frames_stand_around_an_instant(clip.fade_out, fps);
    let all = filters_of(clip, audio, from, frames, fps, part);
    let i = all.len() - 1;
    assert(all[i] == fade_out_filter(audio, from + frames - 1, fade));
    lemma_sets(all[i].props, 0);
    lemma_sets(all[i].props, 1);
    i
}

/// A clip without fades has no filters but those of its levels.
pub proof fn law_a_clip_without_fades_has_none(
    clip: Clip,
    audio: bool,
    from: int,
    frames: int,
    fps: Fps,
    part: Part,
)
    requires
        clip.fade_in.round_frame(fps) <= 0,
        clip.fade_out.round_frame(fps) <= 0,
    ensures
        filters_of(clip, audio, from, frames, fps, part) =~= level_filters(clip, audio),
{
}

/// A part of a clip fades only at its own end.
pub proof fn law_a_part_fades_only_at_its_end(
    clip: Clip,
    audio: bool,
    from: int,
    frames: int,
    fps: Fps,
)
    requires
        clip.fade_in.round_frame(fps) > 0,
        clip.fade_out.round_frame(fps) > 0,
        frames > 0,
    ensures
        filters_of(clip, audio, from, frames, fps, Part::Whole).len() == level_filters(
            clip,
            audio,
        ).len() + 2,
        filters_of(clip, audio, from, frames, fps, Part::Head).len() == level_filters(
            clip,
            audio,
        ).len() + 1,
        filters_of(clip, audio, from, frames, fps, Part::Tail).len() == level_filters(
            clip,
            audio,
        ).len() + 1,
{
}

/// Sound keeps its gain and its pan, a picture its opacity where it lets something through.
pub proof fn law_levels_are_kept(clip: Clip)
    ensures
        clip.gain matches Some(gain) ==> level_filters(clip, true).contains(
            level_filter(gain as int),
        ) && level_filter(gain as int).service == "volume"@ && sets(
            level_filter(gain as int).props,
            "level"@,
            number_text(gain as int),
        ),
        clip.pan matches Some(pan) ==> level_filters(clip, true).contains(
            panner_filter(pan as int),
        ) && panner_filter(pan as int).service == "panner"@ && sets(
            panner_filter(pan as int).props,
            "start"@,
            number_text(pan_position(pan as int)),
        ) && sets(
            panner_filter(pan as int).props,
            "end"@,
            number_text(pan_position(pan as int)),
        ),
        clip.opacity matches Some(opacity) ==> (0 <= opacity < 1_000_000 ==> level_filters(
            clip,
            false,
        ).contains(opacity_filter(opacity as int)) && opacity_filter(opacity as int).service
            == "brightness"@ && sets(
            opacity_filter(opacity as int).props,
            "alpha"@,
            number_text(opacity as int),
        )),
        clip.opacity matches Some(opacity) ==> (opacity >= 1_000_000 ==> level_filters(
            clip,
            false,
        ).len() == 0),
        clip.opacity is None ==> level_filters(clip, false).len() == 0,
        clip.gain is None && clip.pan is None ==> level_filters(clip, true).len() == 0,
{
    if let Some(gain) = clip.gain {
        assert(level_filters(clip, true)[0] == level_filter(gain as int));
        lemma_sets(level_filter(gain as int).props, 0);
    }
    if let Some(pan) = clip.pan {
        let all = level_filters(clip, true);
        assert(all[all.len() - 1] == panner_filter(pan as int));
        lemma_sets(panner_filter(pan as int).props, 0);
        lemma_sets(panner_filter(pan as int).props, 1);
    }
    if let Some(opacity) = clip.opacity {
        if 0 <= opacity < 1_000_000 {
            assert(level_filters(clip, false)[0] == opacity_filter(opacity as int));
            lemma_sets(opacity_filter(opacity as int).props, 0);
        }
    }
}

/// A pan goes from hard left to hard right: the position is half the way that the pan is.
pub proof fn law_a_pan_goes_from_left_to_right(pan: int)
    requires
        -1_000_000 <= pan <= 1_000_000,
    ensures
        is_nearest(pan + 1_000_000, 2, pan_position(pan)),
        pan == -1_000_000 ==> pan_position(pan) == 0,
        pan == 0 ==> pan_position(pan) == 500_000,
        pan == 1_000_000 ==> pan_position(pan) == 1_000_000,
{
    law_rounding_to_even_gives_the_nearest(pan + 1_000_000, 2);
}

// ---------------------------------------------------------------------------
// Transitions
// ---------------------------------------------------------------------------

/// A transition lies over the first frames of the clip that comes in, with the clip that goes out
/// running on under it for as long; no longer than it was asked to, than the clip is, or than there is
/// source left.
pub proof fn law_a_transition_lies_over_both_clips(
    b: BuildView,
    placed: Placed,
    transition: Transition,
    audio: bool,
    fps: Fps,
)
    requires
        b.main.len() > 0,
        b.main.last() is Entry,
        0 <= placed.start < FRAME_LIMIT,
        0 < placed.frames < FRAME_LIMIT,
        transition.duration.wf(),
        fps.wf(),
    ensures
        ({
            let head = overlap(b, placed, transition, fps);
            let before = b.main.last()->Entry_0;
            let left = b.producers[before.producer].length - (before.out_frame + 1);
            let made = opened(b, placed, transition, audio, fps);
            &&& head > 0 <==> left > 0
            &&& head <= placed.frames
            &&& head > 0 ==> head <= left
            &&& transition.duration.round_frame(fps) >= 1 ==> head
                <= transition.duration.round_frame(fps) && nearest_frame(
                transition.duration,
                fps,
                transition.duration.round_frame(fps),
            )
            &&& head > 0 ==> head == placed.frames || head == left || head
                == transition.duration.round_frame(fps) || head == 1
            &&& head > 0 ==> made.main.last() == ItemView::Entry(
                EntryOutView { out_frame: before.out_frame + head, ..before },
            )
            &&& head > 0 ==> made.transitions.drop_last() == b.transitions
                && made.transitions.last().range == Some(
                (placed.start, (placed.start + head - 1) as i64),
            ) && made.transitions.last().a_track == 0 && made.transitions.last().b_track == 1
            &&& head > 0 && audio ==> made.transitions.last().service == "mix"@
            &&& head > 0 && !audio ==> made.transitions.last().service == "luma"@
            &&& head <= 0 ==> made.transitions == b.transitions && made.main == b.main
        }),
{
    law_frames_stand_around_an_instant(transition.duration, fps);
    let head = overlap(b, placed, transition, fps);
    let made = opened(b, placed, transition, audio, fps);
    if head > 0 {
        assert(made.transitions.drop_last() =~= b.transitions);
        assert(made.transitions.last() == overlap_transition(
            audio,
            b.ids.transition,
            placed.start as int,
            head,
        ));
    }
}

/// A transition that is dropped, shortened or of a kind that there is none of is told, and no other.
pub proof fn law_a_changed_transition_is_told(
    b: BuildView,
    placed: Placed,
    transition: Transition,
    fps: Fps,
)
    requires
        0 < placed.frames,
    ensures
        ({
            let told = overlap_warnings(b, placed, transition, fps);
            let head = overlap(b, placed, transition, fps);
            told.len() == 0 <==> head > 0 && head >= transition.duration.round_frame(fps)
                && transition.kind == TransitionKind::Dissolve
        }),
{
}

/// A clip that comes in without a transition is used whole, from its in-point on for its length.
pub proof fn law_a_clip_is_used_whole(
    b: BuildView,
    placed: Placed,
    project: Project,
    audio: bool,
    paired: bool,
    fps: Fps,
    frames: int,
)
    requires
        placed.clip.transition() is None,
    ensures
        ({
            let made = with_clip(b, placed, project, audio, paired, fps, frames);
            let from = in_point(placed.source_in as int, speed_of(*placed.clip));
            &&& made.main.drop_last() == b.main
            &&& made.side == b.side
            &&& made.main.last() matches ItemView::Entry(entry) && entry.in_frame == from
                && entry.out_frame - entry.in_frame + 1 == placed.frames && entry.filters
                == filters_of(*placed.clip, audio, from, placed.frames as int, fps, Part::Whole)
        }),
{
    let made = with_clip(b, placed, project, audio, paired, fps, frames);
    assert(made.main.drop_last() =~= b.main);
}

/// A clip is retimed exactly if it plays backwards or at another speed than its own.
pub proof fn law_only_another_speed_is_retimed(clip: Clip)
    requires
        clip.speed.den > 0,
        clip.speed.den < 1_000_000_000,
        clip.speed.num > 0,
    ensures
        speed_of(clip) is None <==> !clip.reverse && clip.speed.num == clip.speed.den,
        speed_of(clip) matches Some(speed) ==> speed.den == clip.speed.den && (clip.reverse
            ==> speed.num == -clip.speed.num) && (!clip.reverse ==> speed.num == clip.speed.num),
{
}

/// A retimed clip starts at the nearest frame to where its source would be reached at its speed, and a
/// retimed file lasts the fewest frames that hold it all.
pub proof fn law_a_retimed_source_is_counted_at_its_speed(source_in: int, length: int, speed: Rat)
    requires
        speed.den > 0,
        speed.num > 0,
        source_in >= 0,
        length >= 1,
    ensures
        is_nearest(source_in * speed.den, speed.num as int, in_point(source_in, Some(speed))),
        in_point(source_in, None) == source_in,
        length * speed.den <= retimed_length(length, Some(speed)) * speed.num,
        (retimed_length(length, Some(speed)) - 1) * speed.num < length * speed.den,
        retimed_length(length, None) == length,
{
    let (n, d) = (source_in * speed.den, speed.num as int);
    law_rounding_gives_the_nearest(n, d);
    let r = crate::rational::round_half_away(n, d);
    assert(n >= 0) by (nonlinear_arith)
        requires
            n == source_in * speed.den,
            source_in >= 0,
            speed.den > 0,
    ;
    assert(r >= 0) by (nonlinear_arith)
        requires
            -d <= 2 * (n - r * d) <= d,
            n >= 0,
            d > 0,
    ;
    let m = length * speed.den;
    let c = (-m) / d;
    vstd::arithmetic::div_mod::lemma_fundamental_div_mod(-m, d);
    vstd::arithmetic::div_mod::lemma_mod_bound(-m, d);
    assert(c * d <= -m < (c + 1) * d) by (nonlinear_arith)
        requires
            -m == d * c + (-m) % d,
            0 <= (-m) % d < d,
    ;
    assert(m > 0) by (nonlinear_arith)
        requires
            m == length * speed.den,
            length >= 1,
            speed.den > 0,
    ;
    assert(-c >= 1) by (nonlinear_arith)
        requires
            c * d <= -m,
            m > 0,
            d > 0,
    ;
    assert(m <= (-c) * d && (-c - 1) * d < m) by (nonlinear_arith)
        requires
            c * d <= -m < (c + 1) * d,
    ;
}

/// A producer reads the file of its asset, retimed exactly if it has a speed; a color lasts as long as
/// the timeline.
pub proof fn law_a_producer_reads_its_file(
    resource: Resource,
    audio_only: bool,
    speed: Option<Rat>,
    fps: Fps,
    frames: int,
)
    ensures
        ({
            let made = producer_for(resource, audio_only, speed, fps, frames);
            &&& made.audio_only == audio_only
            &&& resource matches Resource::File { asset } ==> {
                &&& speed is None ==> made.service == "avformat-novalidate"@ && made.resource
                    == path_of(*asset)
                &&& speed is Some ==> made.service == "timewarp"@ && made.resource.len()
                    > path_of(*asset).len() && made.resource.skip(
                    made.resource.len() - path_of(*asset).len(),
                ) == path_of(*asset)
                &&& made.name == asset.name@
                &&& made.has_audio <==> asset.probe.audio is Some
            }
            &&& resource is Color ==> made.service == "color"@ && made.length == frames
                && !made.has_audio
        }),
{
    let made = producer_for(resource, audio_only, speed, fps, frames);
    if let Resource::File { asset } = resource {
        if let Some(speed) = speed {
            reveal_strlit(":");
            assert(":"@.len() == 1);
            let path = path_of(*asset);
            assert(made.resource.skip(made.resource.len() - path.len()) =~= path);
        }
    }
}

// ---------------------------------------------------------------------------
// Tracks
// ---------------------------------------------------------------------------

/// A track hides its picture exactly if it is hidden or has none, and its sound exactly if it is muted.
pub proof fn law_a_track_hides_what_is_off(b: BuildView, track: Track, paired: bool)
    ensures
        ({
            let made = finished(b, track, paired);
            let audio = track.kind == TrackKind::Audio;
            &&& made.hide is None <==> !track.hidden && !audio && !track.muted
            &&& made.hide == Some("video"@) || made.hide == Some("both"@) <==> track.hidden
                || audio
            &&& made.hide == Some("audio"@) || made.hide == Some("both"@) <==> track.muted
            &&& made.audio == audio
            &&& made.locked == track.locked
            &&& made.name == track.name@
            &&& track.gain matches Some(gain) ==> made.filters.contains(level_filter(gain as int))
            &&& track.pan matches Some(pan) ==> made.filters.contains(panner_filter(pan as int))
            &&& made.playlists[0].items == b.main
            &&& paired ==> made.playlists.len() == 2 && made.playlists[1].items == b.side
        }),
{
    reveal_strlit("video");
    reveal_strlit("audio");
    reveal_strlit("both");
    assert("video"@[0] == 'v' && "audio"@[0] == 'a' && "both"@[0] == 'b');
    let made = finished(b, track, paired);
    if let Some(gain) = track.gain {
        assert(track_filters(track)[0] == level_filter(gain as int));
    }
    if let Some(pan) = track.pan {
        let all = track_filters(track);
        assert(all[all.len() - 1] == panner_filter(pan as int));
    }
}

/// Whether events hold a property of that name and value.
pub open spec fn holds(events: Seq<EventView>, name: Seq<char>, value: Seq<char>) -> bool {
    exists|i: int|
        0 <= i < events.len() - 2 && #[trigger] events[i] == start(
            "property"@,
            seq![attr("name"@, name)],
        ) && events[i + 1] == EventView::Text(value)
}

proof fn lemma_holds(front: Seq<EventView>, name: Seq<char>, value: Seq<char>, back: Seq<EventView>)
    ensures
        holds(front + property(name, value) + back, name, value),
{
    let all = front + property(name, value) + back;
    let i = front.len() as int;
    assert(all[i] == start("property"@, seq![attr("name"@, name)]));
    assert(all[i + 1] == EventView::Text(value));
}

proof fn lemma_stays(events: Seq<EventView>, name: Seq<char>, value: Seq<char>, back: Seq<EventView>)
    requires
        holds(events, name, value),
    ensures
        holds(events + back, name, value),
{
    let i = choose|i: int|
        0 <= i < events.len() - 2 && #[trigger] events[i] == start(
            "property"@,
            seq![attr("name"@, name)],
        ) && events[i + 1] == EventView::Text(value);
    let all = events + back;
    assert(all[i] == events[i] && all[i + 1] == events[i + 1]);
}

/// A transition says which tracks it is between, what it does, and over which frames.
pub proof fn law_a_transition_says_what_it_joins(t: TransitionView)
    ensures
        ({
            let events = transition_events(t);
            &&& events[0] == start("transition"@, seq![attr("id"@, t.id)])
            &&& holds(events, "a_track"@, dec(t.a_track as nat))
            &&& holds(events, "b_track"@, dec(t.b_track as nat))
            &&& holds(events, "mlt_service"@, t.service)
            &&& t.range matches Some((first, last)) ==> holds(events, "in"@, dec_int(first as int))
                && holds(events, "out"@, dec_int(last as int))
        }),
{
    let head = seq![start("transition"@, seq![attr("id"@, t.id)])];
    let p1 = head + property("a_track"@, dec(t.a_track as nat));
    let p2 = p1 + property("b_track"@, dec(t.b_track as nat));
    let p3 = p2 + property("mlt_service"@, t.service);
    let p4 = p3 + crate::mlt_write::property_list(t.props);
    let p5 = p4 + range_events(t.range);
    let all = p5 + seq![end("transition"@)];
    let none = Seq::<EventView>::empty();
    lemma_holds(head, "a_track"@, dec(t.a_track as nat), none);
    assert(head + property("a_track"@, dec(t.a_track as nat)) + none =~= p1);
    lemma_holds(p1, "b_track"@, dec(t.b_track as nat), none);
    assert(p1 + property("b_track"@, dec(t.b_track as nat)) + none =~= p2);
    lemma_holds(p2, "mlt_service"@, t.service, none);
    assert(p2 + property("mlt_service"@, t.service) + none =~= p3);
    lemma_stays(p1, "a_track"@, dec(t.a_track as nat), property("b_track"@, dec(t.b_track as nat)));
    lemma_stays(p2, "a_track"@, dec(t.a_track as nat), property("mlt_service"@, t.service));
    lemma_stays(p2, "b_track"@, dec(t.b_track as nat), property("mlt_service"@, t.service));
    lemma_to_the_end(p3, p4, p5, all, t, "a_track"@, dec(t.a_track as nat));
    lemma_to_the_end(p3, p4, p5, all, t, "b_track"@, dec(t.b_track as nat));
    lemma_to_the_end(p3, p4, p5, all, t, "mlt_service"@, t.service);
    if let Some((first, last)) = t.range {
        let a = property("in"@, dec_int(first as int));
        let z = property("out"@, dec_int(last as int));
        lemma_holds(p4, "in"@, dec_int(first as int), z);
        assert(p4 + a + z =~= p5);
        lemma_holds(p4 + a, "out"@, dec_int(last as int), none);
        assert(p4 + a + z + none =~= p5);
        lemma_stays(p5, "in"@, dec_int(first as int), seq![end("transition"@)]);
        lemma_stays(p5, "out"@, dec_int(last as int), seq![end("transition"@)]);
    }
}

proof fn lemma_to_the_end(
    p3: Seq<EventView>,
    p4: Seq<EventView>,
    p5: Seq<EventView>,
    all: Seq<EventView>,
    t: TransitionView,
    name: Seq<char>,
    value: Seq<char>,
)
    requires
        holds(p3, name, value),
        p4 == p3 + crate::mlt_write::property_list(t.props),
        p5 == p4 + range_events(t.range),
        all == p5 + seq![end("transition"@)],
    ensures
        holds(all, name, value),
{
    lemma_stays(p3, name, value, crate::mlt_write::property_list(t.props));
    lemma_stays(p4, name, value, range_events(t.range));
    lemma_stays(p5, name, value, seq![end("transition"@)]);
}

/// Every track is put over the background by a transition of its own, which counts it from one: sound
/// is summed and pictures are blended.
pub proof fn law_every_track_is_put_over_the_background(
    tracks: Seq<TrackView>,
    track: TrackView,
    compositor: Seq<char>,
)
    ensures
        combination_list(tracks.push(track), compositor) == combination_list(tracks, compositor)
            + transition_events(combination(track, tracks.len() as int + 1, compositor)),
        combination_list(Seq::<TrackView>::empty(), compositor).len() == 0,
        ({
            let made = combination(track, tracks.len() as int + 1, compositor);
            &&& made.a_track == 0
            &&& made.b_track == tracks.len() + 1
            &&& track.audio ==> made.service == "mix"@ && sets(made.props, "sum"@, "1"@)
            &&& !track.audio ==> made.service == compositor
            &&& sets(made.props, "always_active"@, "1"@)
            &&& made.range is None
        }),
{
    assert(tracks.push(track).drop_last() =~= tracks);
    let made = combination(track, tracks.len() as int + 1, compositor);
    lemma_sets(made.props, 0);
    lemma_sets(made.props, 2);
}

/// Every track is referred to in its place, and says what it hides.
pub proof fn law_every_track_is_referred_to(tracks: Seq<TrackView>, t: int)
    requires
        0 <= t < tracks.len(),
    ensures
        track_references(tracks).len() == tracks.len(),
        tracks[t].hide matches Some(hide) ==> track_references(tracks)[t] == empty(
            "track"@,
            seq![attr("producer"@, tracks[t].reference), attr("hide"@, hide)],
        ),
        tracks[t].hide is None ==> track_references(tracks)[t] == empty(
            "track"@,
            seq![attr("producer"@, tracks[t].reference)],
        ),
    decreases tracks.len(),
{
    let rest = tracks.drop_last();
    if t < rest.len() {
        assert(rest[t] == tracks[t]);
        law_every_track_is_referred_to(rest, t);
        assert(track_references(tracks)[t] == track_references(rest)[t]);
    } else {
        lemma_references(rest);
    }
}

proof fn lemma_references(tracks: Seq<TrackView>)
    ensures
        track_references(tracks).len() == tracks.len(),
    decreases tracks.len(),
{
    if tracks.len() > 0 {
        lemma_references(tracks.drop_last());
    }
}

// ---------------------------------------------------------------------------
// The document
// ---------------------------------------------------------------------------

/// A document states the size and the rate of the sequence, and its shape in lowest terms.
pub proof fn law_a_document_states_its_profile(d: DocumentView)
    requires
        d.size@[0] > 0,
        d.size@[1] > 0,
    ensures
        ({
            let (w, h) = display_aspect_of(d.size);
            &&& profile_event(d) matches EventView::Empty { name, attrs } && name == "profile"@
                && sets(attrs, "width"@, dec(d.size@[0] as nat)) && sets(
                attrs,
                "height"@,
                dec(d.size@[1] as nat),
            ) && sets(attrs, "frame_rate_num"@, dec_int(d.fps.rate.num as int)) && sets(
                attrs,
                "frame_rate_den"@,
                dec_int(d.fps.rate.den as int),
            ) && sets(attrs, "display_aspect_num"@, dec_int(w)) && sets(
                attrs,
                "display_aspect_den"@,
                dec_int(h),
            ) && sets(attrs, "progressive"@, "1"@) && sets(attrs, "colorspace"@, "709"@)
            &&& w * d.size@[1] == h * d.size@[0]
            &&& w > 0 && h > 0
        }),
{
    let attrs = profile_event(d)->Empty_attrs;
    lemma_sets(attrs, 1);
    lemma_sets(attrs, 2);
    lemma_sets(attrs, 3);
    lemma_sets(attrs, 6);
    lemma_sets(attrs, 7);
    lemma_sets(attrs, 8);
    lemma_sets(attrs, 9);
    lemma_sets(attrs, 10);
    let (width, height) = (d.size@[0] as nat, d.size@[1] as nat);
    let g = gcd(width, height);
    crate::rational::lemma_gcd_divides(width, height);
    crate::rational::lemma_exact_division(width, g);
    crate::rational::lemma_exact_division(height, g);
    let (w, h) = ((width / g) as int, (height / g) as int);
    assert(w * g == g * w && h * g == g * h) by (nonlinear_arith);
    assert(w * g == width && h * g == height);
    assert(w * height == h * width) by (nonlinear_arith)
        requires
            w * g == width,
            h * g == height,
    ;
    assert(w > 0 && h > 0) by (nonlinear_arith)
        requires
            w * g == width,
            h * g == height,
            width > 0,
            height > 0,
            g >= 0,
    ;
}

/// A producer states how long it is and ends on its last frame; it names its resource, and what it does
/// not give.
pub proof fn law_a_producer_states_its_length(p: ProducerView, fps: Fps, kdenlive: bool)
    requires
        p.length >= 1,
    ensures
        ({
            let events = producer_events(p, fps, kdenlive);
            &&& events[0] == start(
                "producer"@,
                seq![attr("id"@, p.id), attr("in"@, "0"@), attr("out"@, dec_int(p.length - 1))],
            )
            &&& holds(events, "length"@, dec_int(p.length))
            &&& holds(events, "resource"@, p.resource)
            &&& holds(events, "mlt_service"@, p.service)
        }),
{
    let events = producer_events(p, fps, kdenlive);
    assert(events[1] == start("property"@, seq![attr("name"@, "length"@)]));
    assert(events[2] == EventView::Text(dec_int(p.length)));
    assert(events[7] == start("property"@, seq![attr("name"@, "resource"@)]));
    assert(events[8] == EventView::Text(p.resource));
    assert(events[10] == start("property"@, seq![attr("name"@, "mlt_service"@)]));
    assert(events[11] == EventView::Text(p.service));
}

/// An item of a playlist is a blank of so many frames, or so many frames of a producer.
pub proof fn law_an_item_says_what_it_plays(item: ItemView, producers: Seq<ProducerView>)
    ensures
        item matches ItemView::Blank(frames) ==> item_events(item, producers)[0] == empty(
            "blank"@,
            seq![attr("length"@, dec_int(frames))],
        ),
        item matches ItemView::Entry(entry) ==> {
            let attrs = seq![
                attr("producer"@, producers[entry.producer].id),
                attr("in"@, dec_int(entry.in_frame)),
                attr("out"@, dec_int(entry.out_frame)),
            ];
            item_events(item, producers)[0] == empty("entry"@, attrs) || item_events(
                item,
                producers,
            )[0] == start("entry"@, attrs)
        },
{
}

/// A filter says what it is and over which frames.
pub proof fn law_a_filter_says_what_it_is(filter: FilterView)
    ensures
        holds(filter_events(filter), "mlt_service"@, filter.service),
        filter.range matches Some((first, last)) ==> holds(
            filter_events(filter),
            "in"@,
            dec_int(first as int),
        ) && holds(filter_events(filter), "out"@, dec_int(last as int)),
{
    let head = seq![start("filter"@, seq![])];
    let p1 = head + property("mlt_service"@, filter.service);
    let p2 = p1 + crate::mlt_write::property_list(filter.props);
    let p3 = p2 + range_events(filter.range);
    let tail = seq![end("filter"@)];
    let none = Seq::<EventView>::empty();
    lemma_holds(head, "mlt_service"@, filter.service, none);
    assert(head + property("mlt_service"@, filter.service) + none =~= p1);
    lemma_stays(p1, "mlt_service"@, filter.service, crate::mlt_write::property_list(filter.props));
    lemma_stays(p2, "mlt_service"@, filter.service, range_events(filter.range));
    lemma_stays(p3, "mlt_service"@, filter.service, tail);
    if let Some((first, last)) = filter.range {
        let a = property("in"@, dec_int(first as int));
        let z = property("out"@, dec_int(last as int));
        lemma_holds(p2, "in"@, dec_int(first as int), z);
        assert(p2 + a + z =~= p3);
        lemma_holds(p2 + a, "out"@, dec_int(last as int), none);
        assert(p2 + a + z + none =~= p3);
        lemma_stays(p3, "in"@, dec_int(first as int), tail);
        lemma_stays(p3, "out"@, dec_int(last as int), tail);
    }
}

/// Every marker is a guide: with its name, at the frame nearest to it, in its place.
pub proof fn law_every_marker_is_a_guide(markers: Seq<Marker>, marker: Marker, fps: Fps)
    requires
        fps.wf(),
        marker.at.wf(),
    ensures
        guide_list(Seq::<Marker>::empty(), fps).len() == 0,
        markers.len() == 0 ==> guide_list(markers.push(marker), fps) == guide_text(marker, fps),
        markers.len() > 0 ==> guide_list(markers.push(marker), fps) == guide_list(markers, fps)
            + ","@ + guide_text(marker, fps),
        exists|frame: int|
            nearest_frame(marker.at, fps, frame) && guide_text(marker, fps) == "{\"comment\":"@
                + crate::json::quoted(marker.name@) + ",\"pos\":"@ + #[trigger] dec_int(frame)
                + ",\"type\":0}"@,
{
    assert(markers.push(marker).drop_last() =~= markers);
    law_frames_stand_around_an_instant(marker.at, fps);
    let frame = marker.at.round_frame(fps);
    assert(guide_text(marker, fps) == "{\"comment\":"@ + crate::json::quoted(marker.name@)
        + ",\"pos\":"@ + dec_int(frame) + ",\"type\":0}"@);
}

} // verus!
