//! What a reader finds in an FCPXML document.

use crate::edl::audio_count;
use crate::fcpxml::{
    asset_clip_attrs, clip_event, closing_events, document_events, entry_list, frame_events,
    gap_attrs, known, lane_of_last, media_attrs, media_events, media_hashes, needs_of,
    resource_events, track_list, MediaView, Timebase,
};
use crate::mlt::{asset_length, path_of};
use crate::mlt_document::document_frames;
use crate::project::{index_of, lemma_index_of, Project, Sequence, Track, TrackKind};
use crate::rational::{gcd, lemma_exact_division, lemma_gcd_divides};
use crate::text::{dec, dec_int, digits_value, find, is_digit, lemma_dec, lemma_find_is};
use crate::time::Fps;
use crate::timeline::{clip_tracks, entries_of, placed_in, resource_of, url_of, Entry, Placed};
use crate::xml::AttrView;
use vstd::prelude::*;

verus! {

// ---------------------------------------------------------------------------
// Reading an instant
// ---------------------------------------------------------------------------

/// The number of seconds that `12/30s` or `0s` says, above the line.
pub open spec fn instant_top(text: Seq<char>) -> nat {
    if find(text, '/') < text.len() {
        digits_value(text.take(find(text, '/')))
    } else {
        digits_value(text.drop_last())
    }
}

/// The number of seconds that `12/30s` or `0s` says, below the line.
pub open spec fn instant_bottom(text: Seq<char>) -> nat {
    if find(text, '/') < text.len() {
        digits_value(text.skip(find(text, '/') + 1).drop_last())
    } else {
        1
    }
}

/// Whether an instant is that at which a frame starts.
pub open spec fn reads_as_frame(text: Seq<char>, frame: int, fps: Fps) -> bool {
    &&& instant_bottom(text) > 0
    &&& instant_top(text) * fps.rate.num == frame * fps.rate.den * instant_bottom(text)
}

proof fn lemma_base(fps: Fps)
    requires
        fps.wf(),
    ensures
        Timebase::of_rate(fps).wf(),
        Timebase::of_rate(fps).num * fps.rate.num == Timebase::of_rate(fps).den * fps.rate.den,
{
    let (n, d) = (fps.rate.num as nat, fps.rate.den as nat);
    let g = gcd(d, n);
    lemma_gcd_divides(d, n);
    lemma_exact_division(d, g);
    lemma_exact_division(n, g);
    let (x, y) = (d / g, n / g);
    assert(x <= d && y <= n) by (nonlinear_arith)
        requires
            d == g * x,
            n == g * y,
            g > 0,
    ;
    assert(x * n == y * d) by (nonlinear_arith)
        requires
            d == g * x,
            n == g * y,
    ;
}

proof fn lemma_fraction_read(top: nat, bottom: nat)
    ensures
        instant_top(dec_int(top as int) + "/"@ + dec_int(bottom as int) + "s"@) == top,
        instant_bottom(dec_int(top as int) + "/"@ + dec_int(bottom as int) + "s"@) == bottom,
{
    reveal_strlit("/");
    reveal_strlit("s");
    let a = dec(top);
    let b = dec(bottom);
    lemma_dec(top);
    lemma_dec(bottom);
    let text = dec_int(top as int) + "/"@ + dec_int(bottom as int) + "s"@;
    assert(text[a.len() as int] == '/');
    assert forall|i: int| 0 <= i < a.len() implies text[i] != '/' by {
        assert(text[i] == a[i]);
        assert(is_digit(a[i]));
    }
    lemma_find_is(text, '/', a.len() as int);
    assert(text.take(a.len() as int) =~= a);
    assert(text.skip(a.len() as int + 1).drop_last() =~= b);
}

/// An instant reads as the frame it was written for, in whole frame durations.
pub proof fn law_an_instant_is_read_back(frame: int, fps: Fps)
    requires
        fps.wf(),
        frame >= 0,
    ensures
        reads_as_frame(Timebase::of_rate(fps).instant(frame), frame, fps),
{
    lemma_base(fps);
    let base = Timebase::of_rate(fps);
    let text = base.instant(frame);
    if frame == 0 {
        reveal_strlit("0s");
        assert(text =~= seq!['0', 's']);
        lemma_find_is(text, '/', 2);
        assert(text.drop_last() =~= seq!['0']);
        reveal_with_fuel(digits_value, 2);
        assert(instant_top(text) == 0);
        assert(0 * fps.rate.den * 1 == 0) by (nonlinear_arith);
    } else {
        let top = frame * base.num;
        assert(top >= 0) by (nonlinear_arith)
            requires
                frame >= 0,
                base.num > 0,
                top == frame * base.num,
        ;
        lemma_fraction_read(top as nat, base.den as nat);
        assert(top * fps.rate.num == frame * fps.rate.den * base.den) by (nonlinear_arith)
            requires
                top == frame * base.num,
                base.num * fps.rate.num == base.den * fps.rate.den,
        ;
    }
}

// ---------------------------------------------------------------------------
// Clips
// ---------------------------------------------------------------------------

/// Whether an element says a value under a key.
pub open spec fn says(attrs: Seq<AttrView>, key: Seq<char>, value: Seq<char>) -> bool {
    exists|i: int|
        0 <= i < attrs.len() && (#[trigger] attrs[i]).key == key && attrs[i].value == value
}

/// Whether an element says under a key the instant at which a frame starts.
pub open spec fn says_frame(attrs: Seq<AttrView>, key: Seq<char>, frame: int, fps: Fps) -> bool {
    exists|i: int|
        0 <= i < attrs.len() && (#[trigger] attrs[i]).key == key && reads_as_frame(
            attrs[i].value,
            frame,
            fps,
        )
}

/// A clip of a file stands on its frame of the timeline, plays the file from its source frame, and
/// lasts as many frames as it has, in the lane of its track. It refers to a resource of its content.
pub proof fn law_a_clip_stands_on_the_timeline_and_reads_its_source(
    placed: Placed,
    media: Seq<MediaView>,
    lane: int,
    fps: Fps,
    project: Project,
)
    requires
        fps.wf(),
        placed.start >= 0,
        placed.source_in >= 0,
        placed.frames >= 0,
        resource_of(project, *placed.clip) is File,
        known(media, resource_of(project, *placed.clip)->asset.hash@),
    ensures
        ({
            let event = clip_event(placed, media, lane, Timebase::of_rate(fps), project);
            &&& event is Empty
            &&& event->Empty_name == "asset-clip"@
            &&& says_frame(event->Empty_attrs, "offset"@, placed.start as int, fps)
            &&& says_frame(event->Empty_attrs, "start"@, placed.source_in as int, fps)
            &&& says_frame(event->Empty_attrs, "duration"@, placed.frames as int, fps)
            &&& says(event->Empty_attrs, "lane"@, dec_int(lane))
            &&& says(event->Empty_attrs, "name"@, placed.clip.shown_name())
            &&& exists|m: int|
                0 <= m < media.len() && (#[trigger] media[m]).asset.hash@ == resource_of(
                    project,
                    *placed.clip,
                )->asset.hash@ && says(event->Empty_attrs, "ref"@, media[m].id)
        }),
{
    let base = Timebase::of_rate(fps);
    let event = clip_event(placed, media, lane, base, project);
    let attrs = event->Empty_attrs;
    law_an_instant_is_read_back(placed.start as int, fps);
    law_an_instant_is_read_back(placed.source_in as int, fps);
    law_an_instant_is_read_back(placed.frames as int, fps);
    let hashes = media_hashes(media);
    let asset = *resource_of(project, *placed.clip)->asset;
    lemma_index_of(hashes, asset.hash@);
    let m = index_of(hashes, asset.hash@);
    assert(attrs == asset_clip_attrs(placed, media[m], lane, base));
    assert(hashes[m] == media[m].asset.hash@);
    assert(attrs[0].key == "ref"@ && attrs[0].value == media[m].id);
    assert(attrs[1].key == "lane"@ && attrs[1].value == dec_int(lane));
    assert(attrs[2].key == "offset"@);
    assert(attrs[3].key == "name"@ && attrs[3].value == placed.clip.shown_name());
    assert(attrs[4].key == "start"@);
    assert(attrs[5].key == "duration"@);
}

/// What has no file is a gap on the same frames.
pub proof fn law_what_has_no_file_keeps_its_place(
    placed: Placed,
    media: Seq<MediaView>,
    lane: int,
    fps: Fps,
    project: Project,
)
    requires
        fps.wf(),
        placed.start >= 0,
        placed.frames >= 0,
        resource_of(project, *placed.clip) is Color,
    ensures
        ({
            let event = clip_event(placed, media, lane, Timebase::of_rate(fps), project);
            &&& event is Empty
            &&& event->Empty_name == "gap"@
            &&& says_frame(event->Empty_attrs, "offset"@, placed.start as int, fps)
            &&& says_frame(event->Empty_attrs, "duration"@, placed.frames as int, fps)
            &&& says(event->Empty_attrs, "lane"@, dec_int(lane))
        }),
{
    let base = Timebase::of_rate(fps);
    let event = clip_event(placed, media, lane, base, project);
    let attrs = event->Empty_attrs;
    law_an_instant_is_read_back(placed.start as int, fps);
    law_an_instant_is_read_back(placed.frames as int, fps);
    assert(attrs == gap_attrs(placed, lane, base));
    assert(attrs[1].key == "lane"@ && attrs[1].value == dec_int(lane));
    assert(attrs[2].key == "offset"@);
    assert(attrs[4].key == "duration"@);
}

proof fn lemma_entry_list(
    entries: Seq<Entry>,
    media: Seq<MediaView>,
    lane: int,
    base: Timebase,
    project: Project,
    k: int,
)
    requires
        0 <= k < placed_in(entries).len(),
    ensures
        entry_list(entries, media, lane, base, project).len() == placed_in(entries).len(),
        entry_list(entries, media, lane, base, project)[k] == clip_event(
            placed_in(entries)[k],
            media,
            lane,
            base,
            project,
        ),
    decreases entries.len(),
{
    let rest = entries.drop_last();
    lemma_entry_count(entries, media, lane, base, project);
    lemma_entry_count(rest, media, lane, base, project);
    if k < placed_in(rest).len() {
        lemma_entry_list(rest, media, lane, base, project, k);
    }
}

proof fn lemma_entry_count(
    entries: Seq<Entry>,
    media: Seq<MediaView>,
    lane: int,
    base: Timebase,
    project: Project,
)
    ensures
        entry_list(entries, media, lane, base, project).len() == placed_in(entries).len(),
    decreases entries.len(),
{
    if entries.len() > 0 {
        lemma_entry_count(entries.drop_last(), media, lane, base, project);
    }
}

proof fn lemma_track_list(
    tracks: Seq<Track>,
    media: Seq<MediaView>,
    base: Timebase,
    project: Project,
    fps: Fps,
    t: int,
    k: int,
) -> (p: int)
    requires
        0 <= t < tracks.len(),
        0 <= k < placed_in(entries_of(tracks[t].clips@, fps)).len(),
    ensures
        0 <= p < track_list(tracks, media, base, project, fps).len(),
        track_list(tracks, media, base, project, fps)[p] == clip_event(
            placed_in(entries_of(tracks[t].clips@, fps))[k],
            media,
            lane_of_last(tracks.take(t + 1)),
            base,
            project,
        ),
    decreases tracks.len(),
{
    let rest = tracks.drop_last();
    let before = track_list(rest, media, base, project, fps);
    let own = entry_list(
        entries_of(tracks.last().clips@, fps),
        media,
        lane_of_last(tracks),
        base,
        project,
    );
    let all = track_list(tracks, media, base, project, fps);
    assert(all == before + own);
    if t < rest.len() {
        assert(rest[t] == tracks[t]);
        assert(rest.take(t + 1) =~= tracks.take(t + 1));
        let p = lemma_track_list(rest, media, base, project, fps, t, k);
        assert(all[p] == before[p]);
        p
    } else {
        assert(tracks.take(t + 1) =~= tracks);
        lemma_entry_list(
            entries_of(tracks[t].clips@, fps),
            media,
            lane_of_last(tracks),
            base,
            project,
            k,
        );
        assert(all[before.len() + k] == own[k]);
        before.len() + k
    }
}

/// Every clip that is placed on a track is an element of the document, in the lane of its track.
pub proof fn law_every_placed_clip_is_an_element(
    project: Project,
    sequence: Sequence,
    root: Seq<char>,
    t: int,
    k: int,
) -> (p: int)
    requires
        0 <= t < clip_tracks(sequence.tracks@).len(),
        0 <= k < placed_in(
            entries_of(clip_tracks(sequence.tracks@)[t].clips@, sequence.fps),
        ).len(),
    ensures
        0 <= p < document_events(project, sequence, root).len(),
        document_events(project, sequence, root)[p] == clip_event(
            placed_in(entries_of(clip_tracks(sequence.tracks@)[t].clips@, sequence.fps))[k],
            needs_of(project, sequence).media,
            lane_of_last(clip_tracks(sequence.tracks@).take(t + 1)),
            Timebase::of_rate(sequence.fps),
            project,
        ),
{
    let base = Timebase::of_rate(sequence.fps);
    let needs = needs_of(project, sequence);
    let a = resource_events(needs, base, sequence.fps);
    let b = frame_events(project, sequence, root, base);
    let c = track_list(clip_tracks(sequence.tracks@), needs.media, base, project, sequence.fps);
    let d = closing_events();
    let all = document_events(project, sequence, root);
    assert(all == a + b + c + d);
    let p = lemma_track_list(
        clip_tracks(sequence.tracks@),
        needs.media,
        base,
        project,
        sequence.fps,
        t,
        k,
    );
    assert(all[a.len() + b.len() + p] == c[p]);
    a.len() + b.len() + p
}

/// Lanes of video tracks are positive and rise from the bottom up; lanes of audio tracks are negative
/// and fall. So no two tracks share one.
pub proof fn law_tracks_have_lanes_of_their_own(tracks: Seq<Track>, i: int, j: int)
    requires
        0 <= i < j < tracks.len(),
    ensures
        tracks[i].kind == TrackKind::Audio ==> lane_of_last(tracks.take(i + 1)) < 0,
        tracks[i].kind != TrackKind::Audio ==> lane_of_last(tracks.take(i + 1)) > 0,
        tracks[i].kind == TrackKind::Audio && tracks[j].kind == TrackKind::Audio ==> lane_of_last(
            tracks.take(j + 1),
        ) < lane_of_last(tracks.take(i + 1)),
        tracks[i].kind != TrackKind::Audio && tracks[j].kind != TrackKind::Audio ==> lane_of_last(
            tracks.take(i + 1),
        ) < lane_of_last(tracks.take(j + 1)),
{
    let a = tracks.take(i + 1);
    let b = tracks.take(j + 1);
    assert(a.last() == tracks[i] && b.last() == tracks[j]);
    assert(a.drop_last() =~= tracks.take(i));
    assert(b.drop_last() =~= tracks.take(j));
    lemma_counts(tracks, i + 1, j);
    lemma_counts(tracks, 0, i);
    assert(tracks.take(0) =~= seq![]);
}

proof fn lemma_counts(tracks: Seq<Track>, n: int, m: int)
    requires
        0 <= n <= m <= tracks.len(),
    ensures
        audio_count(tracks.take(n)) <= audio_count(tracks.take(m)),
        n - audio_count(tracks.take(n)) <= m - audio_count(tracks.take(m)),
    decreases m - n,
{
    if n < m {
        assert(tracks.take(m).drop_last() =~= tracks.take(m - 1));
        lemma_counts(tracks, n, m - 1);
    }
}

// ---------------------------------------------------------------------------
// Resources
// ---------------------------------------------------------------------------

/// A resource names the file it stands for, says what is in it, and is no shorter than what was
/// measured.
pub proof fn law_a_resource_describes_its_file(item: MediaView, fps: Fps)
    requires
        fps.wf(),
    ensures
        ({
            let events = media_events(item, Timebase::of_rate(fps), fps);
            let attrs = events[0]->Start_attrs;
            &&& events.len() == 3
            &&& events[0] is Start && events[0]->Start_name == "asset"@
            &&& says(attrs, "id"@, item.id)
            &&& says(attrs, "name"@, item.asset.name@)
            &&& says(attrs, "format"@, item.format)
            &&& says_frame(attrs, "duration"@, asset_length(item.asset, fps), fps)
            &&& item.asset.probe.video is Some <==> says(attrs, "hasVideo"@, "1"@)
            &&& item.asset.probe.audio is Some <==> says(attrs, "hasAudio"@, "1"@)
            &&& events[1] is Empty && says(
                events[1]->Empty_attrs,
                "src"@,
                url_of(path_of(item.asset)),
            )
        }),
{
    let base = Timebase::of_rate(fps);
    let events = media_events(item, base, fps);
    let attrs = events[0]->Start_attrs;
    law_an_instant_is_read_back(asset_length(item.asset, fps), fps);
    assert(attrs == media_attrs(item, base, fps));
    assert(attrs[0].key == "id"@ && attrs[0].value == item.id);
    assert(attrs[1].key == "name"@ && attrs[1].value == item.asset.name@);
    assert(attrs[4].key == "duration"@);
    assert(attrs[5].key == "hasVideo"@);
    assert(attrs[6].key == "hasAudio"@);
    assert(attrs[7].key == "format"@ && attrs[7].value == item.format);
    assert(events[1]->Empty_attrs[1].key == "src"@);
    reveal_strlit("0");
    reveal_strlit("1");
    assert("0"@[0] != "1"@[0]);
    lemma_flag_keys("id"@);
    if says(attrs, "hasVideo"@, "1"@) {
        let i = choose|i: int|
            0 <= i < attrs.len() && (#[trigger] attrs[i]).key == "hasVideo"@ && attrs[i].value
                == "1"@;
        if i != 5 && i != 6 {
            lemma_flag_keys(attrs[i].key);
        }
        assert(i == 5);
    }
    if says(attrs, "hasAudio"@, "1"@) {
        let i = choose|i: int|
            0 <= i < attrs.len() && (#[trigger] attrs[i]).key == "hasAudio"@ && attrs[i].value
                == "1"@;
        if i != 5 && i != 6 {
            lemma_flag_keys(attrs[i].key);
        }
        assert(i == 6);
    }
}

proof fn lemma_flag_keys(key: Seq<char>)
    requires
        key == "id"@ || key == "name"@ || key == "uid"@ || key == "start"@ || key == "duration"@
            || key == "format"@ || key == "videoSources"@ || key == "audioSources"@ || key
            == "audioChannels"@ || key == "audioRate"@,
    ensures
        key != "hasVideo"@,
        key != "hasAudio"@,
        "hasVideo"@ != "hasAudio"@,
{
    reveal_strlit("id");
    reveal_strlit("name");
    reveal_strlit("uid");
    reveal_strlit("start");
    reveal_strlit("duration");
    reveal_strlit("format");
    reveal_strlit("videoSources");
    reveal_strlit("audioSources");
    reveal_strlit("audioChannels");
    reveal_strlit("audioRate");
    reveal_strlit("hasVideo");
    reveal_strlit("hasAudio");
    assert("hasVideo"@[3] != "hasAudio"@[3]);
    assert("duration"@[0] != "hasVideo"@[0]);
    assert("duration"@[0] != "hasAudio"@[0]);
    assert("id"@.len() == 2 && "name"@.len() == 4 && "uid"@.len() == 3 && "start"@.len() == 5);
    assert("format"@.len() == 6 && "videoSources"@.len() == 12 && "audioSources"@.len() == 12);
    assert("audioChannels"@.len() == 13 && "audioRate"@.len() == 9 && "hasVideo"@.len() == 8);
    assert("hasAudio"@.len() == 8);
}

/// The timeline of the document lasts to the end of the longest track.
pub proof fn law_the_timeline_is_as_long_as_the_sequence(
    project: Project,
    sequence: Sequence,
    root: Seq<char>,
)
    requires
        sequence.fps.wf(),
    ensures
        ({
            let events = frame_events(project, sequence, root, Timebase::of_rate(sequence.fps));
            &&& events.len() == 6
            &&& events[3] is Start && events[3]->Start_name == "sequence"@
            &&& says_frame(
                events[3]->Start_attrs,
                "duration"@,
                document_frames(sequence),
                sequence.fps,
            )
            &&& events[5] is Start && events[5]->Start_name == "gap"@
            &&& says_frame(
                events[5]->Start_attrs,
                "duration"@,
                document_frames(sequence),
                sequence.fps,
            )
        }),
{
    let base = Timebase::of_rate(sequence.fps);
    let events = frame_events(project, sequence, root, base);
    law_an_instant_is_read_back(document_frames(sequence), sequence.fps);
    assert(events[3]->Start_attrs[1].key == "duration"@);
    assert(events[5]->Start_attrs[3].key == "duration"@);
}

} // verus!
