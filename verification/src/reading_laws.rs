//! What is read out of an MLT document that another editor wrote, and other small things that are
//! looked up.

use crate::asset_ops::stem_of;
use crate::digest::size_of;
use crate::float_text::Float;
use crate::ident::crockford;
use crate::mlt_read::{
    after_child, after_children, after_track, by_id, count_kind, document_rate, document_size,
    entry_clip, first_named, is_audio_track, main_tractor_at, number_attr, position, property_of,
    track_name, track_playlists, warp_of, ImportedTrackView, Reading,
};
use crate::probe::{matrix_of, range_of};
use crate::project::{Clip, Project, Source};
use crate::rational::Rat;
use crate::split_ops::same_source;
use crate::text::{dec, find};
use crate::time::{Fps, Time};
use crate::timeline::{blend_warning, keyframe_warning, transform_warning};
use crate::transfer::{free_name, is_wanted, wanted_count};
use crate::xml::{attribute, NodeAttrView, NodeView};
use vstd::prelude::*;

verus! {

// ---------------------------------------------------------------------------
// Attributes and ids
// ---------------------------------------------------------------------------

/// An attribute is read as the document gives it, the first where it is given twice.
pub proof fn law_an_attribute_is_read_as_given(attrs: Seq<NodeAttrView>, i: int)
    requires
        0 <= i < attrs.len(),
        attrs[i].namespace is None,
        forall|j: int|
            0 <= j < i ==> (#[trigger] attrs[j]).namespace is Some || attrs[j].key != attrs[i].key,
    ensures
        attribute(attrs, attrs[i].key) == Some(attrs[i].value),
    decreases attrs.len(),
{
    if i > 0 {
        assert(attrs[0].namespace is Some || attrs[0].key != attrs[i].key);
        let rest = attrs.skip(1);
        assert forall|j: int| 0 <= j < i - 1 implies (#[trigger] rest[j]).namespace is Some
            || rest[j].key != rest[i - 1].key by {
            assert(rest[j] == attrs[j + 1]);
        }
        law_an_attribute_is_read_as_given(rest, i - 1);
    }
}

/// An id is the first node that carries it; none is found only where no node does.
pub proof fn law_an_id_is_looked_up(nodes: Seq<NodeView>, id: Seq<char>)
    ensures
        -1 <= by_id(nodes, id) < nodes.len(),
        by_id(nodes, id) >= 0 ==> attribute(nodes[by_id(nodes, id)].attrs, "id"@) == Some(id),
        forall|i: int|
            0 <= i < (if by_id(nodes, id) >= 0 {
                by_id(nodes, id)
            } else {
                nodes.len() as int
            }) ==> attribute((#[trigger] nodes[i]).attrs, "id"@) != Some(id),
    decreases nodes.len(),
{
    if nodes.len() > 0 {
        let rest = nodes.drop_last();
        law_an_id_is_looked_up(rest, id);
        assert forall|i: int|
            0 <= i < (if by_id(nodes, id) >= 0 {
                by_id(nodes, id)
            } else {
                nodes.len() as int
            }) implies attribute((#[trigger] nodes[i]).attrs, "id"@) != Some(id) by {
            if i < rest.len() {
                assert(rest[i] == nodes[i]);
            }
        }
    }
}

/// The timeline is the tractor that the document names, where it names one.
pub proof fn law_the_named_timeline_is_read(nodes: Seq<NodeView>, root: int, id: Seq<char>)
    requires
        attribute(nodes[root].attrs, "producer"@) == Some(id),
        by_id(nodes, id) >= 0,
        nodes[by_id(nodes, id)].is("tractor"@),
    ensures
        main_tractor_at(nodes, root) == by_id(nodes, id),
{
}

// ---------------------------------------------------------------------------
// Playlists
// ---------------------------------------------------------------------------

/// A blank moves what follows by its length and is no clip; one without a length moves nothing.
pub proof fn law_a_blank_moves_what_follows(
    st: Reading,
    nodes: Seq<NodeView>,
    child: NodeView,
    fps: Fps,
)
    requires
        child.name == "blank"@,
    ensures
        after_child(st, nodes, child, fps) matches Ok(after) ==> {
            &&& after.clips == st.clips
            &&& position(child, "length"@, fps) matches Some(n) ==> after.cursor == st.cursor + n
            &&& position(child, "length"@, fps) is None ==> after.cursor == st.cursor
        },
{
}

/// An entry is one more clip. It stands where what came before it ends, and what follows stands
/// where it ends.
pub proof fn law_an_entry_follows_what_came_before(
    st: Reading,
    nodes: Seq<NodeView>,
    child: NodeView,
    fps: Fps,
)
    requires
        child.name == "entry"@,
        attribute(child.attrs, "producer"@) is Some,
    ensures
        after_child(st, nodes, child, fps) matches Ok(after) ==> {
            &&& after.clips.len() == st.clips.len() + 1
            &&& after.clips.drop_last() == st.clips
            &&& after.clips.last().start_frames == st.cursor
            &&& after.clips.last().frames >= 1
            &&& after.cursor == after.clips.last().start_frames + after.clips.last().frames
            &&& after.clips.last().start == Time::of_frames(after.clips.last().start_frames, fps)
            &&& after.clips.last().duration == Time::of_frames(after.clips.last().frames, fps)
            &&& after.clips.last().source_in == Time::of_frames(
                after.clips.last().source_in_frames,
                fps,
            )
        },
        by_id(nodes, attribute(child.attrs, "producer"@)->0) < 0 ==> after_child(
            st,
            nodes,
            child,
            fps,
        ) is Err,
{
    reveal_strlit("entry");
    reveal_strlit("blank");
    assert("entry"@[0] == 'e' && "blank"@[0] == 'b');
    if let Ok(after) = after_child(st, nodes, child, fps) {
        assert(after.clips.drop_last() =~= st.clips);
    }
}

/// An entry plays from its first frame through its last. One without a last frame plays to the end
/// of its producer, and where that has no length either, one frame.
pub proof fn law_an_entry_plays_through_its_last_frame(
    nodes: Seq<NodeView>,
    entry: NodeView,
    producer: int,
    cursor: int,
    fps: Fps,
    first: int,
    last: int,
)
    requires
        position(entry, "in"@, fps) == Some(first),
        first <= last,
        position(entry, "out"@, fps) == Some(last),
    ensures
        ({
            let clip = entry_clip(nodes, entry, producer, cursor, fps);
            &&& clip.start_frames == cursor
            &&& clip.source_in_frames == first
            &&& clip.source_in_frames + clip.frames - 1 == last
        }),
{
}

/// See [`law_an_entry_plays_through_its_last_frame`].
pub proof fn law_an_entry_without_an_end_plays_its_producer_out(
    nodes: Seq<NodeView>,
    entry: NodeView,
    producer: int,
    cursor: int,
    fps: Fps,
)
    requires
        position(entry, "out"@, fps) is None,
    ensures
        ({
            let clip = entry_clip(nodes, entry, producer, cursor, fps);
            &&& position(entry, "in"@, fps) is None ==> clip.source_in_frames == 0
            &&& property_of(nodes, producer, "length"@) is None ==> clip.frames == 1
            &&& property_of(nodes, producer, "length"@) matches Some(text) ==> (
            crate::mlt_read::frames_value(text, fps) matches Some(length) ==> (length
                > clip.source_in_frames ==> clip.source_in_frames + clip.frames == length))
        }),
{
}

/// The clips of a playlist follow each other: none stands before the end of another.
pub proof fn law_the_clips_of_a_playlist_do_not_overlap(
    nodes: Seq<NodeView>,
    kids: Seq<int>,
    fps: Fps,
    i: int,
    j: int,
)
    requires
        after_children(seq![], nodes, kids, fps) matches Ok(read) && 0 <= i < j < read.clips.len(),
        forall|k: int|
            0 <= k < kids.len() && nodes[#[trigger] kids[k]].name == "blank"@ ==> (position(
                nodes[kids[k]],
                "length"@,
                fps,
            ) matches Some(n) ==> n >= 0),
    ensures
        after_children(seq![], nodes, kids, fps) matches Ok(read) && read.clips[i].start_frames
            + read.clips[i].frames <= read.clips[j].start_frames,
{
    lemma_in_order(nodes, kids, fps);
}

proof fn lemma_in_order(nodes: Seq<NodeView>, kids: Seq<int>, fps: Fps)
    requires
        forall|k: int|
            0 <= k < kids.len() && nodes[#[trigger] kids[k]].name == "blank"@ ==> (position(
                nodes[kids[k]],
                "length"@,
                fps,
            ) matches Some(n) ==> n >= 0),
    ensures
        after_children(seq![], nodes, kids, fps) matches Ok(read) ==> {
            &&& forall|i: int|
                0 <= i < read.clips.len() ==> (#[trigger] read.clips[i]).start_frames
                    + read.clips[i].frames <= read.cursor
            &&& forall|i: int, j: int|
                0 <= i < j < read.clips.len() ==> (#[trigger] read.clips[i]).start_frames
                    + read.clips[i].frames <= (#[trigger] read.clips[j]).start_frames
        },
    decreases kids.len(),
{
    if kids.len() > 0 {
        let rest = kids.drop_last();
        assert forall|k: int|
            0 <= k < rest.len() && nodes[#[trigger] rest[k]].name == "blank"@ implies (position(
            nodes[rest[k]],
            "length"@,
            fps,
        ) matches Some(n) ==> n >= 0) by {
            assert(rest[k] == kids[k]);
        }
        lemma_in_order(nodes, rest, fps);
        assert(kids[kids.len() - 1] == kids.last());
    }
}

/// A source that is played at another speed names it before a colon; any other source is played as
/// it is.
pub proof fn law_a_speed_is_read_from_the_resource(resource: Seq<char>)
    ensures
        forall|service: Seq<char>|
            service != "timewarp"@ ==> #[trigger] warp_of(service, resource) == (
                Float::Finite(Rat { num: 1, den: 1 }),
                resource,
            ),
        warp_of("timewarp"@, resource).1 == resource || resource == resource.take(
            find(resource, ':'),
        ) + seq![':'] + warp_of("timewarp"@, resource).1 && warp_of("timewarp"@, resource).0
            == crate::float_text::float_value(resource.take(find(resource, ':'))),
{
    let at = find(resource, ':');
    if warp_of("timewarp"@, resource).1 != resource {
        crate::text::lemma_find(resource, ':');
        assert(resource =~= resource.take(at) + seq![':'] + resource.skip(at + 1));
    }
}

// ---------------------------------------------------------------------------
// Tracks and the profile
// ---------------------------------------------------------------------------

/// A track whose pictures are hidden carries sound, and so does one that is marked so.
pub proof fn law_a_track_without_pictures_carries_sound(
    nodes: Seq<NodeView>,
    track: NodeView,
    at: int,
)
    ensures
        attribute(track.attrs, "hide"@) == Some("video"@) ==> is_audio_track(nodes, track, at),
        property_of(nodes, at, "kdenlive:audio_track"@) == Some("1"@) ==> is_audio_track(
            nodes,
            track,
            at,
        ),
        attribute(track.attrs, "hide"@) != Some("video"@) && property_of(
            nodes,
            at,
            "kdenlive:audio_track"@,
        ) != Some("1"@) && (forall|k: int|
            0 <= k < track_playlists(nodes, at).len() ==> property_of(
                nodes,
                #[trigger] track_playlists(nodes, at)[k],
                "kdenlive:audio_track"@,
            ) != Some("1"@)) ==> !is_audio_track(nodes, track, at),
{
}

/// A track keeps the name it has. One without a name is counted among those of its kind, from one.
pub proof fn law_an_unnamed_track_is_counted(
    nodes: Seq<NodeView>,
    at: int,
    audio: bool,
    before: Seq<ImportedTrackView>,
    track: ImportedTrackView,
)
    ensures
        property_of(nodes, at, "kdenlive:track_name"@) matches Some(name) ==> track_name(
            nodes,
            at,
            audio,
            before,
        ) == name,
        property_of(nodes, at, "kdenlive:track_name"@) is None ==> track_name(nodes, at, true, seq![])
            == "A"@ + dec(1) && track_name(nodes, at, false, seq![]) == "V"@ + dec(1),
        count_kind(before.push(track), track.audio) == count_kind(before, track.audio) + 1,
        count_kind(before.push(track), !track.audio) == count_kind(before, !track.audio),
        count_kind(before, true) + count_kind(before, false) == before.len(),
    decreases before.len(),
{
    assert(before.push(track).drop_last() =~= before);
    if before.len() > 0 {
        law_an_unnamed_track_is_counted(nodes, at, audio, before.drop_last(), before.last());
        assert(before.drop_last().push(before.last()) =~= before);
    }
}

/// A track is one more, after those before it, or nothing where it has no playlist.
pub proof fn law_tracks_are_read_in_order(
    tracks: Seq<ImportedTrackView>,
    nodes: Seq<NodeView>,
    track: NodeView,
    fps: Fps,
)
    ensures
        after_track(tracks, nodes, track, fps) matches Ok(after) ==> {
            ||| after == tracks
            ||| after.len() == tracks.len() + 1 && after.drop_last() == tracks
        },
        track.is("track"@) ==> (attribute(track.attrs, "producer"@) matches Some(reference) ==> {
            &&& by_id(nodes, reference) < 0 ==> after_track(tracks, nodes, track, fps) is Err
            &&& by_id(nodes, reference) >= 0 && track_playlists(
                nodes,
                by_id(nodes, reference),
            ).len() > 0 ==> (after_track(tracks, nodes, track, fps) matches Ok(after) ==> after.len()
                == tracks.len() + 1 && after.last().audio == is_audio_track(
                nodes,
                track,
                by_id(nodes, reference),
            ))
        }),
{
    if let Ok(after) = after_track(tracks, nodes, track, fps) {
        if after != tracks {
            assert(after.drop_last() =~= tracks);
        }
    }
}

/// The rate and the size are those of the profile: width first, and as many frames a second as the
/// one number over the other.
pub proof fn law_the_profile_is_kept(
    nodes: Seq<NodeView>,
    num: int,
    den: int,
    width: int,
    height: int,
)
    requires
        first_named(nodes, "profile"@) >= 0,
        ({
            let profile = nodes[first_named(nodes, "profile"@)];
            &&& number_attr(profile, "frame_rate_num"@) == Some(num)
            &&& number_attr(profile, "frame_rate_den"@) == Some(den)
            &&& number_attr(profile, "width"@) == Some(width)
            &&& number_attr(profile, "height"@) == Some(height)
        }),
        den >= 1,
        0 <= width <= u32::MAX,
        0 <= height <= u32::MAX,
    ensures
        document_rate(nodes) == Fps::of(num, den),
        document_size(nodes)@[0] == width,
        document_size(nodes)@[1] == height,
{
}

/// A document without a profile runs at twenty-five frames a second.
pub proof fn law_a_document_without_a_profile_is_pal(nodes: Seq<NodeView>)
    requires
        first_named(nodes, "profile"@) < 0,
    ensures
        document_rate(nodes) == Fps::of(25, 1),
        document_size(nodes)@[0] == 720,
        document_size(nodes)@[1] == 576,
{
}

// ---------------------------------------------------------------------------
// What an export says of a clip
// ---------------------------------------------------------------------------

/// A clip is told for its keyframes, its transform and its blend mode exactly where it has them.
pub proof fn law_flattened_clips_are_told(clip: Clip, format: Seq<char>)
    ensures
        keyframe_warning(clip) is Some <==> clip.keyframes > 0,
        transform_warning(clip, format) is Some <==> clip.transformed,
        blend_warning(clip) is Some <==> clip.blend is Some,
        keyframe_warning(clip) matches Some(warning) ==> warning.target == clip.spec_label(),
        transform_warning(clip, format) matches Some(warning) ==> warning.target
            == clip.spec_label(),
        blend_warning(clip) matches Some(warning) ==> warning.target == clip.spec_label(),
{
}

// ---------------------------------------------------------------------------
// Look-ups
// ---------------------------------------------------------------------------

/// A title and a nested sequence have their own size, a color and a generator that of the frame.
pub proof fn law_a_source_has_its_own_size(project: Project, clip: Clip, frame: [u32; 2])
    ensures
        clip.source is Color || clip.source is Generator ==> size_of(project, clip, frame) == Some(
            frame,
        ),
        clip.source matches Source::Title { title } ==> (project.title_at(title@) >= 0 ==> size_of(
            project,
            clip,
            frame,
        ) == Some(project.titles@[project.title_at(title@)].size)),
        clip.source matches Source::Sequence { sequence } ==> (project.sequence_at(sequence@) >= 0
            ==> size_of(project, clip, frame) == Some(
            project.sequences@[project.sequence_at(sequence@)].size,
        )),
        clip.source matches Source::Asset { asset } ==> (project.asset_at(asset@) >= 0 ==> (
        size_of(project, clip, frame) is Some <==> project.assets@[project.asset_at(
            asset@,
        )].probe.video is Some)),
{
}

/// Two sources are the same where each is the same as the other.
pub proof fn law_sources_are_compared_both_ways(a: Source, b: Source, c: Source)
    ensures
        same_source(a, a),
        same_source(a, b) == same_source(b, a),
        same_source(a, b) && same_source(b, c) ==> same_source(a, c),
        same_source(a, b) ==> (a is Asset) == (b is Asset) && (a is Image) == (b is Image) && (
        a is Title) == (b is Title) && (a is Color) == (b is Color),
        a.asset() is Some && same_source(a, b) ==> a.asset() == b.asset(),
{
}

/// A free name is taken only where every one that was tried is.
pub proof fn law_a_free_name_is_free(taken: Seq<Seq<char>>, prefix: Seq<char>, n: nat, tries: nat)
    ensures
        taken.contains(free_name(taken, prefix, n, tries)) ==> forall|k: nat|
            n <= k <= n + tries ==> taken.contains(#[trigger] (prefix + dec(k))),
        exists|k: nat|
            n <= k <= n + tries && free_name(taken, prefix, n, tries) == #[trigger] (prefix + dec(
                k,
            )),
    decreases tries,
{
    if tries == 0 || !taken.contains(prefix + dec(n)) {
        assert(free_name(taken, prefix, n, tries) == prefix + dec(n));
    } else {
        law_a_free_name_is_free(taken, prefix, n + 1, (tries - 1) as nat);
        let k = choose|k: nat|
            n + 1 <= k <= n + tries && free_name(taken, prefix, n + 1, (tries - 1) as nat)
                == #[trigger] (prefix + dec(k));
        assert(free_name(taken, prefix, n, tries) == prefix + dec(k));
    }
}

/// Wanted tracks are counted one by one.
pub proof fn law_wanted_tracks_are_counted(
    tracks: Seq<crate::project::Track>,
    track: crate::project::Track,
    wanted: Option<Seq<char>>,
)
    ensures
        wanted_count(seq![], wanted) == 0,
        wanted_count(tracks.push(track), wanted) == wanted_count(tracks, wanted) + (if is_wanted(
            track,
            wanted,
        ) {
            1int
        } else {
            0
        }),
{
    assert(tracks.push(track).drop_last() =~= tracks);
}

/// The stem of a name is what stands before its last dot; a name that begins with its only dot is
/// kept whole.
pub proof fn law_a_stem_has_no_extension(stem: Seq<char>, ext: Seq<char>)
    requires
        stem.len() > 0,
        !ext.contains('.'),
    ensures
        stem_of(stem + seq!['.'] + ext) == stem,
        stem_of(seq!['.'] + ext) == seq!['.'] + ext,
{
    lemma_last_dot(stem, ext);
    lemma_last_dot(seq![], ext);
    assert((stem + seq!['.'] + ext).take(stem.len() as int) =~= stem);
    assert(Seq::<char>::empty() + seq!['.'] + ext =~= seq!['.'] + ext);
}

proof fn lemma_last_dot(stem: Seq<char>, ext: Seq<char>)
    requires
        !ext.contains('.'),
    ensures
        crate::paths::rfind(stem + seq!['.'] + ext, '.') == stem.len(),
    decreases ext.len(),
{
    let name = stem + seq!['.'] + ext;
    if ext.len() > 0 {
        let rest = ext.drop_last();
        assert(ext.contains(ext.last()));
        assert forall|i: int| 0 <= i < rest.len() implies rest[i] != '.' by {
            assert(ext.contains(ext[i]));
        }
        lemma_last_dot(stem, rest);
        assert(name.drop_last() =~= stem + seq!['.'] + rest);
        assert(name.last() == ext.last());
    } else {
        assert(name.last() == '.');
    }
}

/// A digit is worth less than thirty-two, and two digits of one worth differ in case alone.
pub proof fn law_a_digit_has_its_own_worth(a: char, b: char)
    ensures
        crockford(a) matches Some(n) ==> 0 <= n < 32,
        crockford(a) is Some && crockford(a) == crockford(b) ==> crate::text::raise(a)
            == crate::text::raise(b),
        crockford('I') is None && crockford('L') is None && crockford('O') is None && crockford(
            'U',
        ) is None,
        crockford('0') == Some(0int) && crockford('9') == Some(9int) && crockford('A') == Some(
            10int,
        ) && crockford('Z') == Some(31int),
{
}

/// A range and a matrix are known by the names that ffprobe gives them, each by its own.
pub proof fn law_colors_are_known_by_their_names(name: Option<Seq<char>>)
    ensures
        range_of(name) is Tv <==> name == Some("tv"@) || name == Some("limited"@),
        matrix_of(name) is Bt709 <==> name == Some("bt709"@),
        range_of(None) is Unknown && matrix_of(None) is Unknown,
        range_of(Some("pc"@)) is Pc && range_of(Some("full"@)) is Pc,
        matrix_of(Some("bt2020nc"@)) is Bt2020Ncl,
        matrix_of(Some("smpte170m"@)) is Bt601,
{
    reveal_strlit("tv");
    reveal_strlit("limited");
    reveal_strlit("pc");
    reveal_strlit("full");
    reveal_strlit("bt709");
    reveal_strlit("bt470bg");
    reveal_strlit("smpte170m");
    reveal_strlit("bt601");
    reveal_strlit("bt2020nc");
    assert("tv"@[0] == 't' && "limited"@[0] == 'l' && "pc"@[0] == 'p' && "full"@[0] == 'f');
    assert("bt709"@[2] == '7' && "bt470bg"@[2] == '4' && "smpte170m"@[0] == 's' && "bt601"@[2]
        == '6' && "bt2020nc"@[2] == '2' && "bt709"@[0] == 'b');
}

} // verus!
