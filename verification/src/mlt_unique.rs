//! No identifier stands twice in a document.

use crate::mlt::{numbered, ProducerView, TransitionView};
use crate::mlt_build::{with_entries, BuildView};
use crate::mlt_document::{
    beginning, document_frames, document_of, finished, fresh, is_paired, with_track, with_tracks,
    DocumentView, Progress, TrackView,
};
use crate::mlt_ids::{
    lemma_document_is_numbered, lists_before, producers_numbered, track_numbered, tracks_numbered,
    tractors_before,
};
use crate::mlt_laws::law_numbered_ids_are_different;
use crate::mlt_places::{
    before_tracks, group_no_ids, lemma_attribute, lemma_bin, lemma_black, lemma_counts,
    lemma_filters, lemma_front_ids, lemma_layout, lemma_nothing, lemma_playlist, lemma_producer,
    lemma_profile, lemma_root_id, lemma_transition, no_ids, none_have_ids, only_id,
};
use crate::mlt_tree::{
    black_leaf, combination_elems, filter_elems, kdenlive_sequence_props, kdenlive_track_props,
    main_elem, mlt_elem, only_if, playlist_elem, reference_elems, track_elems, track_leaf,
    track_leaves, tracks_elems, tractor_elem, transition_elem, transition_elems,
};
use crate::mlt_write::{combination, main_id};
use crate::project::{Project, Sequence, Track, TrackKind};
use crate::text::{dec, is_digit, lemma_dec};
use crate::time::Fps;
use crate::timeline::{clip_tracks, entries_of, Entry};
use crate::xml::Elem;
use crate::xml_find::{holds_id, id_of};
use vstd::prelude::*;

verus! {

// ---------------------------------------------------------------------------
// Transitions are numbered too
// ---------------------------------------------------------------------------

/// How many transitions the first `t` tracks have.
pub open spec fn transitions_before(tracks: Seq<TrackView>, t: int) -> int
    decreases t,
{
    if t <= 0 {
        0
    } else {
        transitions_before(tracks, t - 1) + tracks[t - 1].transitions.len()
    }
}

/// Whether transitions are numbered in order.
pub open spec fn numbered_from(transitions: Seq<TransitionView>, from: int) -> bool {
    forall|k: int|
        0 <= k < transitions.len() ==> (#[trigger] transitions[k]).id == numbered(
            "transition"@,
            from + k,
        )
}

pub open spec fn transitions_numbered(tracks: Seq<TrackView>) -> bool {
    forall|t: int|
        0 <= t < tracks.len() ==> numbered_from(
            (#[trigger] tracks[t]).transitions,
            transitions_before(tracks, t),
        )
}

proof fn lemma_entries(
    b: BuildView,
    entries: Seq<Entry>,
    project: Project,
    audio: bool,
    paired: bool,
    fps: Fps,
    frames: int,
    from: int,
)
    requires
        numbered_from(b.transitions, from),
        b.ids.transition == from + b.transitions.len(),
    ensures
        ({
            let after = with_entries(b, entries, project, audio, paired, fps, frames);
            &&& numbered_from(after.transitions, from)
            &&& after.ids.transition == from + after.transitions.len()
            &&& (!paired ==> after.transitions == b.transitions)
        }),
    decreases entries.len(),
{
    if entries.len() > 0 {
        let rest = entries.drop_last();
        lemma_entries(b, rest, project, audio, paired, fps, frames, from);
        let before = with_entries(b, rest, project, audio, paired, fps, frames);
        let after = with_entries(b, entries, project, audio, paired, fps, frames);
        assert forall|k: int| 0 <= k < after.transitions.len() implies (
        #[trigger] after.transitions[k]).id == numbered("transition"@, from + k) by {
            if k < before.transitions.len() {
                assert(after.transitions[k] == before.transitions[k]);
            }
        }
    }
}

proof fn lemma_before_push(tracks: Seq<TrackView>, more: TrackView, t: int)
    requires
        0 <= t <= tracks.len(),
    ensures
        transitions_before(tracks.push(more), t) == transitions_before(tracks, t),
    decreases t,
{
    if t > 0 {
        lemma_before_push(tracks, more, t - 1);
    }
}

pub open spec fn progress_ok(p: Progress) -> bool {
    &&& transitions_numbered(p.tracks)
    &&& p.ids.transition == transitions_before(p.tracks, p.tracks.len() as int)
}

proof fn lemma_track(
    p: Progress,
    track: Track,
    project: Project,
    fps: Fps,
    frames: int,
    kdenlive: bool,
)
    requires
        progress_ok(p),
    ensures
        progress_ok(with_track(p, track, project, fps, frames, kdenlive)),
{
    let entries = entries_of(track.clips@, fps);
    let paired = is_paired(track, entries, kdenlive);
    let audio = track.kind == TrackKind::Audio;
    let from = p.ids.transition;
    lemma_entries(fresh(p), entries, project, audio, paired, fps, frames, from);
    let b = with_entries(fresh(p), entries, project, audio, paired, fps, frames);
    let made = finished(b, track, paired);
    let after = p.tracks.push(made);
    assert(numbered_from(made.transitions, from)) by {
        assert forall|k: int| 0 <= k < made.transitions.len() implies (
        #[trigger] made.transitions[k]).id == numbered("transition"@, from + k) by {
            if k < b.transitions.len() {
                assert(made.transitions[k] == b.transitions[k]);
            }
        }
    }
    assert forall|t: int| 0 <= t < after.len() implies numbered_from(
        (#[trigger] after[t]).transitions,
        transitions_before(after, t),
    ) by {
        lemma_before_push(p.tracks, made, t);
        if t < p.tracks.len() {
            assert(after[t] == p.tracks[t]);
        }
    }
    lemma_before_push(p.tracks, made, p.tracks.len() as int);
}

proof fn lemma_tracks(
    p: Progress,
    tracks: Seq<Track>,
    project: Project,
    fps: Fps,
    frames: int,
    kdenlive: bool,
)
    requires
        progress_ok(p),
    ensures
        progress_ok(with_tracks(p, tracks, project, fps, frames, kdenlive)),
    decreases tracks.len(),
{
    if tracks.len() > 0 {
        lemma_tracks(p, tracks.drop_last(), project, fps, frames, kdenlive);
        let before = with_tracks(p, tracks.drop_last(), project, fps, frames, kdenlive);
        lemma_track(before, tracks.last(), project, fps, frames, kdenlive);
    }
}

/// The transitions of a sequence's document are numbered in order.
pub proof fn lemma_transitions_are_numbered(project: Project, sequence: Sequence, kdenlive: bool)
    ensures
        transitions_numbered(document_of(project, sequence, kdenlive).tracks),
{
    lemma_tracks(
        beginning(sequence, kdenlive),
        clip_tracks(sequence.tracks@),
        project,
        sequence.fps,
        document_frames(sequence),
        kdenlive,
    );
}

// ---------------------------------------------------------------------------
// Apart
// ---------------------------------------------------------------------------

/// Whether no identifier is in two of some elements.
pub open spec fn kids_apart(kids: Seq<Elem>) -> bool {
    forall|i: int, j: int, id: Seq<char>|
        0 <= i < j < kids.len() && #[trigger] holds_id(kids[i], id) ==> !#[trigger] holds_id(
            kids[j],
            id,
        )
}

/// Whether no identifier stands twice in an element.
pub open spec fn ids_apart(e: Elem) -> bool
    decreases e,
{
    &&& forall|k: int| 0 <= k < e.kids.len() ==> ids_apart(#[trigger] e.kids[k])
    &&& id_of(e) matches Some(own) ==> forall|k: int|
        0 <= k < e.kids.len() ==> !holds_id(#[trigger] e.kids[k], own)
    &&& kids_apart(e.kids)
}

pub open spec fn all_apart(kids: Seq<Elem>) -> bool {
    forall|k: int| 0 <= k < kids.len() ==> ids_apart(#[trigger] kids[k])
}

proof fn lemma_without(e: Elem)
    requires
        no_ids(e),
    ensures
        ids_apart(e),
    decreases e,
{
    assert forall|k: int| 0 <= k < e.kids.len() implies no_ids(#[trigger] e.kids[k]) by {
        assert forall|id: Seq<char>| !(#[trigger] holds_id(e.kids[k], id)) by {
            if holds_id(e.kids[k], id) {
                assert(holds_id(e, id));
            }
        }
    }
    assert forall|k: int| 0 <= k < e.kids.len() implies ids_apart(#[trigger] e.kids[k]) by {
        assert(no_ids(e.kids[k]));
        lemma_without(e.kids[k]);
    }
    if let Some(own) = id_of(e) {
        assert(holds_id(e, own));
    }
    assert forall|i: int, j: int, id: Seq<char>|
        0 <= i < j < e.kids.len() && #[trigger] holds_id(
            e.kids[i],
            id,
        ) implies !#[trigger] holds_id(e.kids[j], id) by {
        assert(no_ids(e.kids[i]));
    }
}

proof fn lemma_alone(e: Elem, own: Seq<char>)
    requires
        only_id(e, own),
    ensures
        ids_apart(e),
{
    assert forall|k: int| 0 <= k < e.kids.len() implies ids_apart(#[trigger] e.kids[k]) by {
        assert(no_ids(e.kids[k]));
        lemma_without(e.kids[k]);
    }
    assert forall|k: int| 0 <= k < e.kids.len() implies !holds_id(#[trigger] e.kids[k], own) by {
        assert(no_ids(e.kids[k]));
    }
    assert forall|i: int, j: int, id: Seq<char>|
        0 <= i < j < e.kids.len() && #[trigger] holds_id(
            e.kids[i],
            id,
        ) implies !#[trigger] holds_id(e.kids[j], id) by {
        assert(no_ids(e.kids[i]));
    }
}

/// Whether elements have the identifiers of a list, each its own, or none.
pub open spec fn listed(kids: Seq<Elem>, ids: Seq<Option<Seq<char>>>) -> bool {
    &&& kids.len() == ids.len()
    &&& forall|k: int|
        0 <= k < kids.len() ==> (match ids[k] {
            Some(own) => only_id(#[trigger] kids[k], own),
            None => no_ids(kids[k]),
        })
}

proof fn lemma_listed(kids: Seq<Elem>, ids: Seq<Option<Seq<char>>>)
    requires
        listed(kids, ids),
        forall|i: int, j: int|
            0 <= i < j < ids.len() && (#[trigger] ids[i]) is Some && (#[trigger] ids[j]) is Some
                ==> ids[i] != ids[j],
    ensures
        kids_apart(kids),
        all_apart(kids),
        forall|k: int, id: Seq<char>|
            0 <= k < kids.len() && #[trigger] holds_id(kids[k], id) ==> ids[k] == Some(id),
{
    assert forall|k: int, id: Seq<char>|
        0 <= k < kids.len() && #[trigger] holds_id(kids[k], id) implies ids[k] == Some(id) by {
        if ids[k] is None {
            assert(no_ids(kids[k]));
        }
    }
    assert forall|k: int| 0 <= k < kids.len() implies ids_apart(#[trigger] kids[k]) by {
        match ids[k] {
            Some(own) => lemma_alone(kids[k], own),
            None => {
                assert(no_ids(kids[k]));
                lemma_without(kids[k]);
            },
        }
    }
    assert forall|i: int, j: int, id: Seq<char>|
        0 <= i < j < kids.len() && #[trigger] holds_id(kids[i], id) implies !#[trigger] holds_id(
        kids[j],
        id,
    ) by {
        assert(ids[i] == Some(id));
        if holds_id(kids[j], id) {
            assert(ids[j] == Some(id));
        }
    }
}

// ---------------------------------------------------------------------------
// Tracks
// ---------------------------------------------------------------------------

/// Whether an identifier is a numbered one, and its number is in a range.
pub open spec fn in_range(id: Seq<char>, prefix: Seq<char>, from: int, to: int) -> bool {
    exists|n: int| from <= n < to && id == #[trigger] numbered(prefix, n)
}

/// Whether an identifier is one of some tracks, by the numbers that they were given.
pub open spec fn of_tracks(
    id: Seq<char>,
    lists: (int, int),
    tractors: (int, int),
    transitions: (int, int),
) -> bool {
    ||| in_range(id, "playlist"@, lists.0, lists.1)
    ||| in_range(id, "tractor"@, tractors.0, tractors.1)
    ||| in_range(id, "transition"@, transitions.0, transitions.1)
}

proof fn lemma_letters(n: int)
    ensures
        numbered("playlist"@, n)[0] == 'p',
        numbered("playlist"@, n)[1] == 'l',
        numbered("producer"@, n)[0] == 'p',
        numbered("producer"@, n)[1] == 'r',
        numbered("tractor"@, n)[0] == 't',
        numbered("tractor"@, n)[3] == 'c',
        numbered("transition"@, n)[0] == 't',
        numbered("transition"@, n)[3] == 'n',
        is_digit(numbered("transition"@, n)[10]),
        numbered("transition_track"@, n)[0] == 't',
        numbered("transition_track"@, n)[3] == 'n',
        numbered("transition_track"@, n)[10] == '_',
        "main_bin"@[0] == 'm',
        "black_track"@[0] == 'b',
{
    reveal_strlit("playlist");
    reveal_strlit("producer");
    reveal_strlit("tractor");
    reveal_strlit("transition");
    reveal_strlit("transition_track");
    reveal_strlit("main_bin");
    reveal_strlit("black_track");
    lemma_dec(n as nat);
    assert("transition"@.len() == 10);
    assert(numbered("transition"@, n)[10] == dec(n as nat)[0]);
    assert(is_digit(dec(n as nat)[0]));
}

/// What stands in two ranges is one number's, and the ranges meet.
proof fn lemma_ranges_meet(id: Seq<char>, prefix: Seq<char>, a: int, b: int, c: int, d: int)
    requires
        0 <= a,
        0 <= c,
        in_range(id, prefix, a, b),
        in_range(id, prefix, c, d),
    ensures
        a < d,
        c < b,
{
    let n = choose|n: int| a <= n < b && id == #[trigger] numbered(prefix, n);
    let m = choose|m: int| c <= m < d && id == #[trigger] numbered(prefix, m);
    if n != m {
        law_numbered_ids_are_different(prefix, n, m);
    }
}

/// Tracks that were numbered one behind the other have no identifier in common.
proof fn lemma_tracks_differ(
    id: Seq<char>,
    lists: (int, int),
    tractors: (int, int),
    transitions: (int, int),
    more: (int, int, int),
)
    requires
        0 <= lists.0,
        0 <= tractors.0,
        0 <= transitions.0,
        lists.0 <= lists.1,
        tractors.0 <= tractors.1,
        transitions.0 <= transitions.1,
        of_tracks(id, lists, tractors, transitions),
    ensures
        !of_tracks(
            id,
            (lists.1, more.0),
            (tractors.1, more.1),
            (transitions.1, more.2),
        ),
{
    let second = ((lists.1, more.0), (tractors.1, more.1), (transitions.1, more.2));
    if of_tracks(id, second.0, second.1, second.2) {
        lemma_kind(id, lists, tractors, transitions);
        lemma_kind(id, second.0, second.1, second.2);
        if id[0] == 'p' {
            lemma_ranges_meet(id, "playlist"@, lists.0, lists.1, lists.1, more.0);
        } else if id[3] == 'c' {
            lemma_ranges_meet(id, "tractor"@, tractors.0, tractors.1, tractors.1, more.1);
        } else {
            lemma_ranges_meet(
                id,
                "transition"@,
                transitions.0,
                transitions.1,
                transitions.1,
                more.2,
            );
        }
    }
}

proof fn lemma_kind(
    id: Seq<char>,
    lists: (int, int),
    tractors: (int, int),
    transitions: (int, int),
)
    requires
        of_tracks(id, lists, tractors, transitions),
    ensures
        id[0] == 'p' <==> in_range(id, "playlist"@, lists.0, lists.1),
        id[0] == 't' && id[3] == 'c' <==> in_range(id, "tractor"@, tractors.0, tractors.1),
        id[0] == 't' && id[3] == 'n' <==> in_range(
            id,
            "transition"@,
            transitions.0,
            transitions.1,
        ),
        id[0] == 'p' || id[0] == 't' && (id[3] == 'c' || id[3] == 'n'),
        id[0] == 'p' ==> id[1] == 'l',
        id[0] == 't' && id[3] == 'n' ==> is_digit(id[10]),
{
    if in_range(id, "playlist"@, lists.0, lists.1) {
        let n = choose|n: int| lists.0 <= n < lists.1 && id == #[trigger] numbered("playlist"@, n);
        lemma_letters(n);
    }
    if in_range(id, "tractor"@, tractors.0, tractors.1) {
        let n = choose|n: int|
            tractors.0 <= n < tractors.1 && id == #[trigger] numbered("tractor"@, n);
        lemma_letters(n);
    }
    if in_range(id, "transition"@, transitions.0, transitions.1) {
        let n = choose|n: int|
            transitions.0 <= n < transitions.1 && id == #[trigger] numbered("transition"@, n);
        lemma_letters(n);
    }
}

/// What the elements in a track's tractor are called.
pub open spec fn tractor_ids(front: int, transitions: Seq<TransitionView>, total: int) -> Seq<
    Option<Seq<char>>,
> {
    Seq::new(
        total as nat,
        |k: int|
            if front <= k < front + transitions.len() {
                Some(transitions[k - front].id)
            } else {
                None
            },
    )
}

proof fn lemma_tractor(
    track: TrackView,
    number: int,
    frames: int,
    kdenlive: bool,
    from: int,
)
    requires
        0 <= from,
        numbered_from(track.transitions, from),
    ensures
        ids_apart(tractor_elem(track, numbered("tractor"@, number), frames, kdenlive)),
        forall|x: Seq<char>| #[trigger]
            holds_id(tractor_elem(track, numbered("tractor"@, number), frames, kdenlive), x) ==> x
                == numbered("tractor"@, number) || in_range(
                x,
                "transition"@,
                from,
                from + track.transitions.len(),
            ),
{
    broadcast use group_no_ids;

    let own = numbered("tractor"@, number);
    let e = tractor_elem(track, own, frames, kdenlive);
    lemma_attribute(e.attrs, "id"@, 0);
    lemma_filters(track.filters);
    let front = only_if(kdenlive, kdenlive_track_props(track));
    assert(none_have_ids(kdenlive_track_props(track)));
    assert(none_have_ids(front));
    let references = reference_elems(track.playlists);
    assert forall|k: int| 0 <= k < references.len() implies no_ids(#[trigger] references[k]) by {
        reveal_strlit("id");
        reveal_strlit("producer");
        assert("id"@.len() == 2 && "producer"@.len() == 8);
        lemma_attribute(references[k].attrs, "id"@, 1);
        lemma_nothing(references[k]);
    }
    let a = front + references;
    assert(none_have_ids(a));
    let transitions = transition_elems(track.transitions);
    let filters = filter_elems(track.filters);
    assert(e.kids == a + transitions + filters);
    let n = a.len() as int;
    let ids = tractor_ids(n, track.transitions, e.kids.len() as int);
    assert forall|k: int| 0 <= k < e.kids.len() implies (match ids[k] {
        Some(own) => only_id(#[trigger] e.kids[k], own),
        None => no_ids(e.kids[k]),
    }) by {
        if k < n {
            assert(e.kids[k] == a[k]);
        } else if k < n + transitions.len() {
            assert(e.kids[k] == transitions[k - n]);
            lemma_transition(track.transitions[k - n]);
        } else {
            assert(e.kids[k] == filters[k - n - transitions.len()]);
        }
    }
    assert forall|i: int, j: int|
        0 <= i < j < ids.len() && (#[trigger] ids[i]) is Some && (
        #[trigger] ids[j]) is Some implies ids[i] != ids[j] by {
        assert(track.transitions[i - n].id == numbered("transition"@, from + i - n));
        assert(track.transitions[j - n].id == numbered("transition"@, from + j - n));
        law_numbered_ids_are_different("transition"@, from + i - n, from + j - n);
    }
    lemma_listed(e.kids, ids);
    lemma_letters(number);
    assert forall|k: int| 0 <= k < e.kids.len() implies !holds_id(#[trigger] e.kids[k], own) by {
        if holds_id(e.kids[k], own) {
            assert(ids[k] == Some(own));
            assert(track.transitions[k - n].id == numbered("transition"@, from + k - n));
            lemma_letters(from + k - n);
        }
    }
    assert forall|x: Seq<char>| #[trigger] holds_id(e, x) implies x == own || in_range(
        x,
        "transition"@,
        from,
        from + track.transitions.len(),
    ) by {
        if id_of(e) != Some(x) {
            let k = choose|k: int| 0 <= k < e.kids.len() && holds_id(#[trigger] e.kids[k], x);
            assert(ids[k] == Some(x));
            assert(track.transitions[k - n].id == numbered("transition"@, from + k - n));
        }
    }
}

/// A track's own elements have no identifier twice, and only numbers that are its own.
proof fn lemma_own_track(
    track: TrackView,
    producers: Seq<ProducerView>,
    frames: int,
    kdenlive: bool,
    lists: int,
    tractors: int,
    transitions: int,
)
    requires
        0 <= lists,
        0 <= tractors,
        0 <= transitions,
        track_numbered(track, lists, tractors),
        numbered_from(track.transitions, transitions),
    ensures
        kids_apart(track_elems(track, producers, frames, kdenlive)),
        all_apart(track_elems(track, producers, frames, kdenlive)),
        forall|k: int, x: Seq<char>|
            0 <= k < track_elems(track, producers, frames, kdenlive).len() && #[trigger] holds_id(
                track_elems(track, producers, frames, kdenlive)[k],
                x,
            ) ==> of_tracks(
                x,
                (lists, lists + track.playlists.len()),
                (tractors, tractors + if track.tractor is Some {
                    1int
                } else {
                    0int
                }),
                (transitions, transitions + track.transitions.len()),
            ),
{
    let own = track_elems(track, producers, frames, kdenlive);
    let n = track.playlists.len() as int;
    if track.tractor is Some {
        lemma_tractor(track, tractors, frames, kdenlive, transitions);
    }
    assert forall|k: int| 0 <= k < n implies only_id(
        #[trigger] own[k],
        numbered("playlist"@, lists + k),
    ) by {
        lemma_playlist(track.playlists[k], track.audio, producers, kdenlive);
        assert(own[k] == playlist_elem(track.playlists[k], track.audio, producers, kdenlive));
        assert(track.playlists[k].id == numbered("playlist"@, lists + k));
    }
    assert forall|k: int| 0 <= k < own.len() implies ids_apart(#[trigger] own[k]) by {
        if k < n {
            lemma_alone(own[k], numbered("playlist"@, lists + k));
        }
    }
    assert forall|k: int, x: Seq<char>|
        0 <= k < own.len() && #[trigger] holds_id(own[k], x) implies of_tracks(
        x,
        (lists, lists + n),
        (tractors, tractors + if track.tractor is Some {
            1int
        } else {
            0int
        }),
        (transitions, transitions + track.transitions.len()),
    ) by {
        if k < n {
            assert(only_id(own[k], numbered("playlist"@, lists + k)));
            assert(x == numbered("playlist"@, lists + k));
        } else {
            assert(own[k] == tractor_elem(
                track,
                numbered("tractor"@, tractors),
                frames,
                kdenlive,
            ));
        }
    }
    assert forall|i: int, j: int, id: Seq<char>|
        0 <= i < j < own.len() && #[trigger] holds_id(own[i], id) implies !#[trigger] holds_id(
        own[j],
        id,
    ) by {
        assert(only_id(own[i], numbered("playlist"@, lists + i)));
        lemma_letters(lists + i);
        if holds_id(own[j], id) {
            if j < n {
                assert(only_id(own[j], numbered("playlist"@, lists + j)));
                law_numbered_ids_are_different("playlist"@, lists + i, lists + j);
            } else {
                lemma_letters(tractors);
                if id != numbered("tractor"@, tractors) {
                    let m = choose|m: int|
                        transitions <= m < transitions + track.transitions.len() && id
                            == #[trigger] numbered("transition"@, m);
                    lemma_letters(m);
                }
            }
        }
    }
}

proof fn lemma_transitions_count(tracks: Seq<TrackView>, t: int)
    requires
        0 <= t <= tracks.len(),
    ensures
        0 <= transitions_before(tracks, t),
    decreases t,
{
    if t > 0 {
        lemma_transitions_count(tracks, t - 1);
    }
}

/// The elements of the first tracks have no identifier twice.
proof fn lemma_first_tracks(
    tracks: Seq<TrackView>,
    producers: Seq<ProducerView>,
    frames: int,
    kdenlive: bool,
    t: int,
)
    requires
        tracks_numbered(tracks),
        transitions_numbered(tracks),
        0 <= t <= tracks.len(),
    ensures
        ({
            let all = tracks_elems(tracks.take(t), producers, frames, kdenlive);
            &&& kids_apart(all)
            &&& all_apart(all)
            &&& forall|j: int, x: Seq<char>|
                0 <= j < all.len() && #[trigger] holds_id(all[j], x) ==> of_tracks(
                    x,
                    (0, lists_before(tracks, t)),
                    (0, tractors_before(tracks, t)),
                    (0, transitions_before(tracks, t)),
                )
        }),
    decreases t,
{
    if t > 0 {
        lemma_first_tracks(tracks, producers, frames, kdenlive, t - 1);
        lemma_counts(tracks, t - 1);
        lemma_transitions_count(tracks, t - 1);
        let track = tracks[t - 1];
        assert(tracks.take(t).drop_last() =~= tracks.take(t - 1));
        assert(tracks.take(t).last() == track);
        let before = tracks_elems(tracks.take(t - 1), producers, frames, kdenlive);
        let own = track_elems(track, producers, frames, kdenlive);
        let all = tracks_elems(tracks.take(t), producers, frames, kdenlive);
        assert(all == before + own);
        let lists = lists_before(tracks, t - 1);
        let tractors = tractors_before(tracks, t - 1);
        let transitions = transitions_before(tracks, t - 1);
        let last_list = lists_before(tracks, t);
        let last_tractor = tractors_before(tracks, t);
        let last_transition = transitions_before(tracks, t);
        assert(track_numbered(track, lists, tractors));
        assert(numbered_from(track.transitions, transitions));
        lemma_own_track(track, producers, frames, kdenlive, lists, tractors, transitions);
        assert forall|j: int, x: Seq<char>| 0 <= j < before.len() && #[trigger] holds_id(
            before[j],
            x,
        ) implies !of_tracks(
            x,
            (lists, last_list),
            (tractors, last_tractor),
            (transitions, last_transition),
        ) by {
            lemma_tracks_differ(
                x,
                (0, lists),
                (0, tractors),
                (0, transitions),
                (last_list, last_tractor, last_transition),
            );
        }
        assert forall|j: int, x: Seq<char>| 0 <= j < all.len() && #[trigger] holds_id(
            all[j],
            x,
        ) implies of_tracks(x, (0, last_list), (0, last_tractor), (0, last_transition)) by {
            if j < before.len() {
                assert(all[j] == before[j]);
                assert(holds_id(before[j], x));
                lemma_widen(x, (0, lists), (0, tractors), (0, transitions), (
                    last_list,
                    last_tractor,
                    last_transition,
                ));
            } else {
                assert(all[j] == own[j - before.len()]);
                assert(holds_id(own[j - before.len()], x));
                lemma_widen(
                    x,
                    (lists, last_list),
                    (tractors, last_tractor),
                    (transitions, last_transition),
                    (last_list, last_tractor, last_transition),
                );
            }
        }
        assert forall|j: int| 0 <= j < all.len() implies ids_apart(#[trigger] all[j]) by {
            if j < before.len() {
                assert(all[j] == before[j]);
            } else {
                assert(all[j] == own[j - before.len()]);
            }
        }
        assert forall|i: int, j: int, id: Seq<char>|
            0 <= i < j < all.len() && #[trigger] holds_id(
                all[i],
                id,
            ) implies !#[trigger] holds_id(all[j], id) by {
            if j < before.len() {
                assert(all[i] == before[i] && all[j] == before[j]);
                assert(holds_id(before[i], id));
                assert(!holds_id(before[j], id));
            } else {
                let m = j - before.len();
                assert(all[j] == own[m]);
                if i < before.len() {
                    assert(all[i] == before[i]);
                    assert(holds_id(before[i], id));
                    if holds_id(own[m], id) {
                        assert(of_tracks(
                            id,
                            (lists, last_list),
                            (tractors, last_tractor),
                            (transitions, last_transition),
                        ));
                    }
                } else {
                    let l = i - before.len();
                    assert(all[i] == own[l]);
                    assert(holds_id(own[l], id));
                    assert(!holds_id(own[m], id));
                }
            }
        }
    }
}

proof fn lemma_widen(
    id: Seq<char>,
    lists: (int, int),
    tractors: (int, int),
    transitions: (int, int),
    last: (int, int, int),
)
    requires
        of_tracks(id, lists, tractors, transitions),
        0 <= lists.0,
        0 <= tractors.0,
        0 <= transitions.0,
        lists.1 <= last.0,
        tractors.1 <= last.1,
        transitions.1 <= last.2,
    ensures
        of_tracks(id, (0, last.0), (0, last.1), (0, last.2)),
{
}

// ---------------------------------------------------------------------------
// The document
// ---------------------------------------------------------------------------

proof fn lemma_combinations(tracks: Seq<TrackView>, compositor: Seq<char>)
    ensures
        combination_elems(tracks, compositor).len() == tracks.len(),
        forall|k: int|
            0 <= k < tracks.len() ==> #[trigger] combination_elems(tracks, compositor)[k]
                == transition_elem(combination(tracks[k], k + 1, compositor)),
    decreases tracks.len(),
{
    if tracks.len() > 0 {
        let rest = tracks.drop_last();
        lemma_combinations(rest, compositor);
        let all = combination_elems(tracks, compositor);
        assert forall|k: int| 0 <= k < tracks.len() implies #[trigger] all[k] == transition_elem(
            combination(tracks[k], k + 1, compositor),
        ) by {
            if k < rest.len() {
                assert(all[k] == combination_elems(rest, compositor)[k]);
            }
        }
    }
}

/// What the elements in the timeline's tractor are called.
pub open spec fn main_ids(front: int, total: int) -> Seq<Option<Seq<char>>> {
    Seq::new(
        total as nat,
        |k: int|
            if front <= k {
                Some(numbered("transition_track"@, k - front + 1))
            } else {
                None
            },
    )
}

proof fn lemma_main(d: DocumentView, project: Project, compositor: Seq<char>, kdenlive: bool)
    ensures
        id_of(main_elem(d, project, compositor, kdenlive)) == Some(main_id(d)),
        ids_apart(main_elem(d, project, compositor, kdenlive)),
        forall|x: Seq<char>| #[trigger]
            holds_id(main_elem(d, project, compositor, kdenlive), x) ==> x == main_id(d)
                || in_range(x, "transition_track"@, 1, d.tracks.len() as int + 1),
{
    broadcast use group_no_ids;

    let own = main_id(d);
    let e = main_elem(d, project, compositor, kdenlive);
    lemma_attribute(e.attrs, "id"@, 0);
    reveal_strlit("id");
    reveal_strlit("producer");
    reveal_strlit("hide");
    assert("id"@.len() == 2 && "producer"@.len() == 8 && "hide"@.len() == 4);
    let props = only_if(kdenlive, kdenlive_sequence_props(d, project));
    assert(none_have_ids(kdenlive_sequence_props(d, project)));
    lemma_attribute(black_leaf().attrs, "id"@, 1);
    lemma_nothing(black_leaf());
    let first = props.push(black_leaf());
    assert(none_have_ids(first));
    let leaves = track_leaves(d.tracks);
    assert forall|k: int| 0 <= k < leaves.len() implies no_ids(#[trigger] leaves[k]) by {
        let leaf = track_leaf(d.tracks[k]);
        lemma_attribute(leaf.attrs, "id"@, leaf.attrs.len() as int);
        lemma_nothing(leaf);
    }
    let a = first + leaves;
    assert(none_have_ids(a));
    let combinations = combination_elems(d.tracks, compositor);
    lemma_combinations(d.tracks, compositor);
    assert(e.kids == a + combinations);
    let n = a.len() as int;
    let ids = main_ids(n, e.kids.len() as int);
    assert forall|k: int| 0 <= k < e.kids.len() implies (match ids[k] {
        Some(own) => only_id(#[trigger] e.kids[k], own),
        None => no_ids(e.kids[k]),
    }) by {
        if k < n {
            assert(e.kids[k] == a[k]);
        } else {
            assert(e.kids[k] == combinations[k - n]);
            lemma_transition(combination(d.tracks[k - n], k - n + 1, compositor));
        }
    }
    assert forall|i: int, j: int|
        0 <= i < j < ids.len() && (#[trigger] ids[i]) is Some && (
        #[trigger] ids[j]) is Some implies ids[i] != ids[j] by {
        law_numbered_ids_are_different("transition_track"@, i - n + 1, j - n + 1);
    }
    lemma_listed(e.kids, ids);
    lemma_letters(d.tracks.len() as int);
    assert forall|k: int| 0 <= k < e.kids.len() implies !holds_id(#[trigger] e.kids[k], own) by {
        if holds_id(e.kids[k], own) {
            assert(ids[k] == Some(own));
            lemma_letters(k - n + 1);
        }
    }
    assert forall|x: Seq<char>| #[trigger] holds_id(e, x) implies x == own || in_range(
        x,
        "transition_track"@,
        1,
        d.tracks.len() as int + 1,
    ) by {
        if id_of(e) != Some(x) {
            let k = choose|k: int| 0 <= k < e.kids.len() && holds_id(#[trigger] e.kids[k], x);
            assert(ids[k] == Some(x));
        }
    }
}

/// What is in front of the tracks has identifiers of its own.
proof fn lemma_front_apart(
    d: DocumentView,
    project: Project,
    root: Seq<char>,
    compositor: Seq<char>,
    kdenlive: bool,
    j: int,
)
    requires
        0 <= j < before_tracks(d, kdenlive),
    ensures
        ids_apart(mlt_elem(d, project, root, compositor, kdenlive).kids[j]),
{
    lemma_layout(d, project, root, compositor, kdenlive);
    let kids = mlt_elem(d, project, root, compositor, kdenlive).kids;
    let n = before_tracks(d, kdenlive);
    if j == 0 {
        lemma_profile(d);
        lemma_without(kids[0]);
    } else if j <= d.producers.len() {
        let p = d.producers[j - 1];
        lemma_producer(p, d.fps, kdenlive);
        assert(kids[j] == crate::mlt_tree::producer_elem(p, d.fps, kdenlive));
        lemma_alone(kids[j], p.id);
    } else if j == n - 1 {
        lemma_black(d.frames);
        lemma_alone(kids[j], "black_track"@);
    } else {
        lemma_bin(d, project);
        lemma_alone(kids[j], "main_bin"@);
    }
}

/// Where in a document an identifier can stand: a producer and the fixed ones in front, those of
/// the tracks behind them, and the timeline's own at the end.
proof fn lemma_place(
    d: DocumentView,
    project: Project,
    root: Seq<char>,
    compositor: Seq<char>,
    kdenlive: bool,
    j: int,
    id: Seq<char>,
)
    requires
        producers_numbered(d.producers),
        tracks_numbered(d.tracks),
        transitions_numbered(d.tracks),
        0 <= j < mlt_elem(d, project, root, compositor, kdenlive).kids.len(),
        holds_id(mlt_elem(d, project, root, compositor, kdenlive).kids[j], id),
    ensures
        ({
            let n = before_tracks(d, kdenlive);
            let last = mlt_elem(d, project, root, compositor, kdenlive).kids.len() - 1;
            let t = d.tracks.len() as int;
            &&& j < n ==> {
                ||| 1 <= j <= d.producers.len() && id == numbered("producer"@, j - 1)
                ||| kdenlive && j == n - 2 && id == "main_bin"@
                ||| j == n - 1 && id == "black_track"@
            }
            &&& n <= j < last ==> of_tracks(
                id,
                (0, lists_before(d.tracks, t)),
                (0, tractors_before(d.tracks, t)),
                (0, transitions_before(d.tracks, t)),
            )
            &&& j == last ==> id == main_id(d) || in_range(id, "transition_track"@, 1, t + 1)
        }),
{
    lemma_layout(d, project, root, compositor, kdenlive);
    let kids = mlt_elem(d, project, root, compositor, kdenlive).kids;
    let n = before_tracks(d, kdenlive);
    let tracks = tracks_elems(d.tracks, d.producers, d.frames, kdenlive);
    if j < n {
        lemma_front_ids(d, project, root, compositor, kdenlive, j, id);
    } else if j < kids.len() - 1 {
        lemma_first_tracks(
            d.tracks,
            d.producers,
            d.frames,
            kdenlive,
            d.tracks.len() as int,
        );
        assert(d.tracks.take(d.tracks.len() as int) =~= d.tracks);
        assert(kids[j] == tracks[j - n]);
        assert(holds_id(tracks[j - n], id));
    } else {
        lemma_main(d, project, compositor, kdenlive);
    }
}

/// An identifier of one place is not that of another.
proof fn lemma_places_differ(
    d: DocumentView,
    project: Project,
    root: Seq<char>,
    compositor: Seq<char>,
    kdenlive: bool,
    i: int,
    j: int,
    id: Seq<char>,
)
    requires
        producers_numbered(d.producers),
        tracks_numbered(d.tracks),
        transitions_numbered(d.tracks),
        0 <= i < j < mlt_elem(d, project, root, compositor, kdenlive).kids.len(),
        holds_id(mlt_elem(d, project, root, compositor, kdenlive).kids[i], id),
    ensures
        !holds_id(mlt_elem(d, project, root, compositor, kdenlive).kids[j], id),
{
    let kids = mlt_elem(d, project, root, compositor, kdenlive).kids;
    if holds_id(kids[j], id) {
        lemma_layout(d, project, root, compositor, kdenlive);
        let n = before_tracks(d, kdenlive);
        let last = kids.len() - 1;
        let t = d.tracks.len() as int;
        let lists = (0int, lists_before(d.tracks, t));
        let tractors = (0int, tractors_before(d.tracks, t));
        let transitions = (0int, transitions_before(d.tracks, t));
        lemma_place(d, project, root, compositor, kdenlive, i, id);
        lemma_place(d, project, root, compositor, kdenlive, j, id);
        lemma_letters(i - 1);
        lemma_letters(j - 1);
        lemma_letters(t);
        lemma_counts(d.tracks, t);
        lemma_front_letter(id, d, kdenlive, i);
        if j < n {
            if 1 <= i <= d.producers.len() && 1 <= j <= d.producers.len() {
                law_numbered_ids_are_different("producer"@, i - 1, j - 1);
            }
        } else if j < last {
            lemma_kind(id, lists, tractors, transitions);
            if n <= i {
                let all = tracks_elems(d.tracks, d.producers, d.frames, kdenlive);
                lemma_first_tracks(d.tracks, d.producers, d.frames, kdenlive, t);
                assert(d.tracks.take(t) =~= d.tracks);
                assert(kids[i] == all[i - n] && kids[j] == all[j - n]);
                assert(holds_id(all[i - n], id));
                assert(!holds_id(all[j - n], id));
            }
        } else {
            if in_range(id, "transition_track"@, 1, t + 1) {
                let m = choose|m: int|
                    1 <= m < t + 1 && id == #[trigger] numbered("transition_track"@, m);
                lemma_letters(m);
            }
            if n <= i {
                lemma_kind(id, lists, tractors, transitions);
                if id == main_id(d) {
                    assert(in_range(id, "tractor"@, t, t + 1));
                    lemma_ranges_meet(id, "tractor"@, 0, tractors.1, t, t + 1);
                }
            }
        }
    }
}

proof fn lemma_front_letter(id: Seq<char>, d: DocumentView, kdenlive: bool, i: int)
    requires
        i < before_tracks(d, kdenlive) ==> {
            ||| 1 <= i <= d.producers.len() && id == numbered("producer"@, i - 1)
            ||| kdenlive && i == before_tracks(d, kdenlive) - 2 && id == "main_bin"@
            ||| i == before_tracks(d, kdenlive) - 1 && id == "black_track"@
        },
    ensures
        i < before_tracks(d, kdenlive) ==> {
            ||| id[0] == 'p' && id[1] == 'r'
            ||| id[0] == 'm'
            ||| id[0] == 'b'
        },
{
    lemma_letters(i - 1);
}

/// Every identifier of a document is unique across the whole document.
pub proof fn law_every_id_is_unique(
    project: Project,
    sequence: Sequence,
    root: Seq<char>,
    compositor: Seq<char>,
    kdenlive: bool,
)
    ensures
        ids_apart(
            mlt_elem(
                document_of(project, sequence, kdenlive),
                project,
                root,
                compositor,
                kdenlive,
            ),
        ),
{
    let d = document_of(project, sequence, kdenlive);
    let e = mlt_elem(d, project, root, compositor, kdenlive);
    lemma_document_is_numbered(project, sequence, kdenlive);
    lemma_transitions_are_numbered(project, sequence, kdenlive);
    lemma_layout(d, project, root, compositor, kdenlive);
    lemma_root_id(d, project, root);
    let n = before_tracks(d, kdenlive);
    let t = d.tracks.len() as int;
    assert forall|k: int| 0 <= k < e.kids.len() implies ids_apart(#[trigger] e.kids[k]) by {
        if k < n {
            lemma_front_apart(d, project, root, compositor, kdenlive, k);
        } else if k < e.kids.len() - 1 {
            lemma_first_tracks(d.tracks, d.producers, d.frames, kdenlive, t);
            assert(d.tracks.take(t) =~= d.tracks);
            let all = tracks_elems(d.tracks, d.producers, d.frames, kdenlive);
            assert(e.kids[k] == all[k - n]);
        } else {
            lemma_main(d, project, compositor, kdenlive);
        }
    }
    assert forall|i: int, j: int, id: Seq<char>|
        0 <= i < j < e.kids.len() && #[trigger] holds_id(
            e.kids[i],
            id,
        ) implies !#[trigger] holds_id(e.kids[j], id) by {
        lemma_places_differ(d, project, root, compositor, kdenlive, i, j, id);
    }
}

} // verus!
