//! The whole MLT document of a sequence.

use crate::error::{Error, ErrorView};
use crate::json::{json_string, quoted};
use crate::losses::{kept_by_mlt, loss_warnings, losses, mlt_kept};
use crate::mlt::{
    numbered, Filter, FilterView, Ids, IdsView, Item, ItemView, Producer, ProducerView,
    TransitionOut, TransitionView,
};
use crate::mlt_build::{
    add_entries, build_ok, clip_fits, entries_error, item_ok, level_filter, one_if, panner_filter,
    with_entries, Build, BuildView,
};
use crate::mlt_length::{cover, covering, law_producers_cover_their_entries, track_covered};
use crate::project::{index_of, Clip, Marker, Project, Sequence, Track, TrackKind};
use crate::text::{dec, dec_int, decimal, integer, same};
use crate::time::Fps;
use crate::timeline::{
    clip_tracks, copied_warnings, cursor_after, entries_of, flatten, flattens, is_flat, larger,
    placing_warnings, sequence_fits, track_fits, Entry, FlatTrack, Warning, WarningView,
    FRAME_LIMIT,
};
use crate::views::{extend, push_view, views};
use crate::xml::{attr, push_attr, XmlAttr};
use vstd::prelude::*;

verus! {

pub struct PlaylistOut {
    pub id: String,
    pub items: Vec<Item>,
}

pub struct PlaylistView {
    pub id: Seq<char>,
    pub items: Seq<ItemView>,
}

impl View for PlaylistOut {
    type V = PlaylistView;

    open spec fn view(&self) -> PlaylistView {
        PlaylistView { id: self.id@, items: views(self.items@) }
    }
}

pub struct TrackOut {
    /// The id the main tractor points at: a playlist, or a tractor wrapping two.
    pub reference: String,
    pub name: String,
    pub audio: bool,
    pub locked: bool,
    pub hide: Option<&'static str>,
    pub playlists: Vec<PlaylistOut>,
    /// Present when the track has two playlists.
    pub tractor: Option<String>,
    pub transitions: Vec<TransitionOut>,
    pub filters: Vec<Filter>,
}

pub struct TrackView {
    pub reference: Seq<char>,
    pub name: Seq<char>,
    pub audio: bool,
    pub locked: bool,
    pub hide: Option<Seq<char>>,
    pub playlists: Seq<PlaylistView>,
    pub tractor: Option<Seq<char>>,
    pub transitions: Seq<TransitionView>,
    pub filters: Seq<FilterView>,
}

impl View for TrackOut {
    type V = TrackView;

    open spec fn view(&self) -> TrackView {
        TrackView {
            reference: self.reference@,
            name: self.name@,
            audio: self.audio,
            locked: self.locked,
            hide: match self.hide {
                Some(hide) => Some(hide@),
                None => None,
            },
            playlists: views(self.playlists@),
            tractor: crate::xml::text_view(self.tractor),
            transitions: views(self.transitions@),
            filters: views(self.filters@),
        }
    }
}

pub struct Document {
    pub fps: Fps,
    pub size: [u32; 2],
    pub frames: i64,
    pub sequence_name: String,
    pub producers: Vec<Producer>,
    pub tracks: Vec<TrackOut>,
    pub warnings: Vec<Warning>,
    pub guides: String,
}

pub struct DocumentView {
    pub fps: Fps,
    pub size: [u32; 2],
    pub frames: int,
    pub sequence_name: Seq<char>,
    pub producers: Seq<ProducerView>,
    pub tracks: Seq<TrackView>,
    pub warnings: Seq<WarningView>,
    pub guides: Seq<char>,
}

impl View for Document {
    type V = DocumentView;

    open spec fn view(&self) -> DocumentView {
        DocumentView {
            fps: self.fps,
            size: self.size,
            frames: self.frames as int,
            sequence_name: self.sequence_name@,
            producers: views(self.producers@),
            tracks: views(self.tracks@),
            warnings: views(self.warnings@),
            guides: self.guides@,
        }
    }
}

// ---------------------------------------------------------------------------
// Tracks
// ---------------------------------------------------------------------------

/// What a viewer of the track does not get: an audio track never shows picture.
pub open spec fn hide_text(hidden: bool, muted: bool) -> Option<Seq<char>> {
    if hidden && muted {
        Some("both"@)
    } else if hidden {
        Some("video"@)
    } else if muted {
        Some("audio"@)
    } else {
        None
    }
}

/// The sum of a track's two playlists: without it one would silence the other.
pub open spec fn sum_transition(id: int) -> TransitionView {
    TransitionView {
        id: numbered("transition"@, id),
        service: "mix"@,
        a_track: 0,
        b_track: 1,
        props: seq![
            attr("always_active"@, "1"@),
            attr("sum"@, "1"@),
            attr("accepts_blanks"@, "1"@),
            attr("internal_added"@, "237"@),
        ],
        range: None,
    }
}

/// What a track's own levels ask for.
pub open spec fn track_filters(track: Track) -> Seq<FilterView> {
    one_if(track.gain is Some, level_filter(track.gain->0 as int)) + one_if(
        track.pan is Some,
        panner_filter(track.pan->0 as int),
    )
}

/// The identifiers a track has used up once it is finished.
pub open spec fn ids_after(ids: IdsView, paired: bool) -> IdsView {
    if paired {
        IdsView {
            producer: ids.producer,
            playlist: ids.playlist + 2,
            tractor: ids.tractor + 1,
            transition: ids.transition + 1,
        }
    } else {
        IdsView { playlist: ids.playlist + 1, ..ids }
    }
}

/// The finished track.
pub open spec fn finished(b: BuildView, track: Track, paired: bool) -> TrackView {
    let first = PlaylistView { id: numbered("playlist"@, b.ids.playlist), items: b.main };
    let audio = track.kind == TrackKind::Audio;
    TrackView {
        reference: if paired {
            numbered("tractor"@, b.ids.tractor)
        } else {
            first.id
        },
        name: track.name@,
        audio,
        locked: track.locked,
        hide: hide_text(track.hidden || audio, track.muted),
        playlists: if paired {
            seq![
                first,
                PlaylistView { id: numbered("playlist"@, b.ids.playlist + 1), items: b.side },
            ]
        } else {
            seq![first]
        },
        tractor: if paired {
            Some(numbered("tractor"@, b.ids.tractor))
        } else {
            None
        },
        transitions: if paired {
            b.transitions.push(sum_transition(b.ids.transition))
        } else {
            b.transitions
        },
        filters: track_filters(track),
    }
}

/// Whether a track has a tractor with two playlists: where a transition needs them, where the
/// track has filters, which need a tractor to sit on, and always for Kdenlive, whose timeline has
/// no other shape.
pub open spec fn is_paired(track: Track, entries: Seq<Entry>, kdenlive: bool) -> bool {
    kdenlive || track.gain is Some || track.pan is Some || mixes(entries)
}

/// Whether one of some entries begins with a transition.
pub open spec fn mixes(entries: Seq<Entry>) -> bool {
    exists|i: int|
        0 <= i < entries.len() && (#[trigger] entries[i]) is Clip
            && entries[i]->Clip_0.clip.transition() is Some
}

/// A document while its tracks are laid out.
pub struct Progress {
    pub producers: Seq<ProducerView>,
    pub ids: IdsView,
    pub tracks: Seq<TrackView>,
    pub warnings: Seq<WarningView>,
}

/// A track with nothing on it yet.
pub open spec fn fresh(p: Progress) -> BuildView {
    BuildView {
        producers: p.producers,
        ids: p.ids,
        main: seq![],
        side: seq![],
        side_cursor: 0,
        transitions: seq![],
        warnings: p.warnings,
    }
}

/// The document with one more track.
pub open spec fn with_track(
    p: Progress,
    track: Track,
    project: Project,
    fps: Fps,
    frames: int,
    kdenlive: bool,
) -> Progress {
    let entries = entries_of(track.clips@, fps);
    let paired = is_paired(track, entries, kdenlive);
    let b = with_entries(
        fresh(p),
        entries,
        project,
        track.kind == TrackKind::Audio,
        paired,
        fps,
        frames,
    );
    Progress {
        producers: b.producers,
        ids: ids_after(b.ids, paired),
        tracks: p.tracks.push(finished(b, track, paired)),
        warnings: b.warnings,
    }
}

/// The document with some tracks.
pub open spec fn with_tracks(
    p: Progress,
    tracks: Seq<Track>,
    project: Project,
    fps: Fps,
    frames: int,
    kdenlive: bool,
) -> Progress
    decreases tracks.len(),
{
    if tracks.len() == 0 {
        p
    } else {
        with_track(
            with_tracks(p, tracks.drop_last(), project, fps, frames, kdenlive),
            tracks.last(),
            project,
            fps,
            frames,
            kdenlive,
        )
    }
}

/// The first error that laying out the tracks meets.
pub open spec fn tracks_error(tracks: Seq<Track>, project: Project, fps: Fps) -> Option<ErrorView>
    decreases tracks.len(),
{
    if tracks.len() == 0 {
        None
    } else {
        match tracks_error(tracks.drop_last(), project, fps) {
            Some(error) => Some(error),
            None => entries_error(entries_of(tracks.last().clips@, fps), project),
        }
    }
}

/// The length of the longest track.
pub open spec fn longest(tracks: Seq<Track>, fps: Fps) -> int
    decreases tracks.len(),
{
    if tracks.len() == 0 {
        0
    } else {
        larger(longest(tracks.drop_last(), fps), cursor_after(tracks.last().clips@, fps))
    }
}

/// What placing the clips of some tracks has to report.
pub open spec fn all_placing_warnings(tracks: Seq<Track>, fps: Fps) -> Seq<WarningView>
    decreases tracks.len(),
{
    if tracks.len() == 0 {
        seq![]
    } else {
        all_placing_warnings(tracks.drop_last(), fps) + placing_warnings(tracks.last().clips@, fps)
    }
}

pub open spec fn captions_warning(track: Track) -> WarningView {
    WarningView {
        code: "captions-not-exported"@,
        target: track.name@,
        detail: dec(track.cues@.len()) + " caption cue(s) on '"@ + track.name@
            + "' are not part of an MLT timeline; export them with export.srt and attach the file in the editor"@,
    }
}

/// One warning for each caption track that has cues.
pub open spec fn captions_warnings(tracks: Seq<Track>) -> Seq<WarningView>
    decreases tracks.len(),
{
    if tracks.len() == 0 {
        seq![]
    } else {
        let before = captions_warnings(tracks.drop_last());
        if tracks.last().kind == TrackKind::Caption && tracks.last().cues@.len() > 0 {
            before.push(captions_warning(tracks.last()))
        } else {
            before
        }
    }
}

// ---------------------------------------------------------------------------
// The bin
// ---------------------------------------------------------------------------

pub open spec fn identities(producers: Seq<ProducerView>) -> Seq<Seq<char>> {
    producers.map_values(|p: ProducerView| p.identity)
}

/// How many different texts there are.
pub open spec fn different(texts: Seq<Seq<char>>) -> nat
    decreases texts.len(),
{
    if texts.len() == 0 {
        0
    } else if index_of(texts.drop_last(), texts.last()) >= 0 {
        different(texts.drop_last())
    } else {
        different(texts.drop_last()) + 1
    }
}

/// The bin id of some media: numbers from 2 in the order in which each is first used.
pub open spec fn bin_id_of(texts: Seq<Seq<char>>, identity: Seq<char>) -> int {
    (different(texts.take(index_of(texts, identity))) + 2) as int
}

/// How far a producer is from the media as it was imported: a retimed one is further off than one
/// without picture.
pub open spec fn roughness(p: ProducerView) -> int {
    (if p.service == "timewarp"@ {
        2int
    } else {
        0int
    }) + (if p.audio_only {
        1int
    } else {
        0int
    })
}

/// The producer that the bin lists for some media: the first of the plainest. -1 where there is
/// none at all.
pub open spec fn bin_choice(producers: Seq<ProducerView>, identity: Seq<char>) -> int
    decreases producers.len(),
{
    if producers.len() == 0 {
        -1
    } else {
        let before = bin_choice(producers.drop_last(), identity);
        if producers.last().identity != identity {
            before
        } else if before >= 0 && roughness(producers[before]) <= roughness(producers.last()) {
            before
        } else {
            producers.len() - 1
        }
    }
}

/// The producers with their bin ids, and the listed ones marked.
pub open spec fn with_bin_ids(producers: Seq<ProducerView>) -> Seq<ProducerView> {
    producers.map(
        |i: int, p: ProducerView|
            ProducerView {
                bin_id: bin_id_of(identities(producers), p.identity),
                bin: bin_choice(producers, p.identity) == i,
                ..p
            },
    )
}

proof fn lemma_bin_choice(producers: Seq<ProducerView>, identity: Seq<char>)
    ensures
        -1 <= bin_choice(producers, identity) < producers.len() || producers.len() == 0,
        bin_choice(producers, identity) >= -1,
        bin_choice(producers, identity) >= 0 ==> producers[bin_choice(
            producers,
            identity,
        )].identity == identity,
        forall|k: int|
            0 <= k < producers.len() && (#[trigger] producers[k]).identity == identity ==> {
                &&& bin_choice(producers, identity) >= 0
                &&& roughness(producers[bin_choice(producers, identity)]) <= roughness(
                    producers[k],
                )
            },
    decreases producers.len(),
{
    if producers.len() > 0 {
        let rest = producers.drop_last();
        lemma_bin_choice(rest, identity);
        assert forall|k: int|
            0 <= k < producers.len() && (#[trigger] producers[k]).identity == identity implies {
            &&& bin_choice(producers, identity) >= 0
            &&& roughness(producers[bin_choice(producers, identity)]) <= roughness(producers[k])
        } by {
            if k < rest.len() {
                assert(rest[k] == producers[k]);
            }
        }
    }
}

/// The bin lists each piece of media exactly once, whatever copies of it the timeline
/// uses: all its producers share one bin id, exactly one of them is listed, and none of them is
/// plainer than that one.
pub proof fn law_bin_lists_each_media_once(producers: Seq<ProducerView>, i: int, j: int)
    requires
        0 <= i < producers.len(),
        0 <= j < producers.len(),
        producers[i].identity == producers[j].identity,
    ensures
        with_bin_ids(producers)[i].bin_id == with_bin_ids(producers)[j].bin_id,
        with_bin_ids(producers)[i].bin && with_bin_ids(producers)[j].bin ==> i == j,
        exists|k: int|
            0 <= k < producers.len() && producers[k].identity == producers[i].identity
                && #[trigger] with_bin_ids(producers)[k].bin && roughness(producers[k]) <= roughness(
                producers[i],
            ),
{
    let identity = producers[i].identity;
    lemma_bin_choice(producers, identity);
    let k = bin_choice(producers, identity);
    assert(producers[i].identity == identity);
    assert(with_bin_ids(producers)[k].bin);
}

proof fn lemma_different_grows(texts: Seq<Seq<char>>, a: int, b: int)
    requires
        0 <= a < b <= texts.len(),
        index_of(texts.take(a), texts[a]) < 0,
    ensures
        different(texts.take(a)) < different(texts.take(b)),
    decreases b - a,
{
    assert(texts.take(b).drop_last() =~= texts.take(b - 1));
    assert(texts.take(b).last() == texts[b - 1]);
    if b > a + 1 {
        lemma_different_grows(texts, a, b - 1);
    }
}

proof fn lemma_first_has_none_before(texts: Seq<Seq<char>>, identity: Seq<char>)
    requires
        texts.contains(identity),
    ensures
        0 <= index_of(texts, identity) < texts.len(),
        texts[index_of(texts, identity)] == identity,
        index_of(texts.take(index_of(texts, identity)), identity) < 0,
{
    crate::project::lemma_index_of(texts, identity);
    let at = index_of(texts, identity);
    crate::project::lemma_index_of_none(texts.take(at), identity);
}

/// Different media have different bin ids, and none has the ids 0 and 1.
pub proof fn law_bin_ids_tell_media_apart(producers: Seq<ProducerView>, i: int, j: int)
    requires
        0 <= i < producers.len(),
        0 <= j < producers.len(),
        producers[i].identity != producers[j].identity,
    ensures
        with_bin_ids(producers)[i].bin_id != with_bin_ids(producers)[j].bin_id,
        with_bin_ids(producers)[i].bin_id >= 2,
{
    let texts = identities(producers);
    assert(texts[i] == producers[i].identity && texts[j] == producers[j].identity);
    lemma_first_has_none_before(texts, texts[i]);
    lemma_first_has_none_before(texts, texts[j]);
    let a = index_of(texts, texts[i]);
    let b = index_of(texts, texts[j]);
    if a < b {
        lemma_different_grows(texts, a, b);
    } else {
        lemma_different_grows(texts, b, a);
    }
}

fn rough(producer: &Producer) -> (r: u8)
    ensures
        r == roughness(producer@),
{
    let speed: u8 = if same(producer.service, "timewarp") {
        2
    } else {
        0
    };
    if producer.audio_only {
        speed + 1
    } else {
        speed
    }
}

fn choose_for(producers: &Vec<Producer>, identity: &str) -> (r: Option<usize>)
    ensures
        r is Some <==> bin_choice(views(producers@), identity@) >= 0,
        r is Some ==> r->0 == bin_choice(views(producers@), identity@),
{
    let ghost all = views(producers@);
    let mut found: Option<usize> = None;
    let mut i: usize = 0;
    assert(all.take(0) =~= seq![]);
    while i < producers.len()
        invariant
            i <= producers@.len(),
            all == views(producers@),
            found is Some <==> bin_choice(all.take(i as int), identity@) >= 0,
            found is Some ==> found->0 == bin_choice(all.take(i as int), identity@) && found->0 < i,
            found is None ==> bin_choice(all.take(i as int), identity@) == -1,
        decreases producers@.len() - i,
    {
        proof {
            assert(all.take(i + 1).drop_last() =~= all.take(i as int));
            assert(all.take(i + 1).last() == producers@[i as int]@);
        }
        if same(producers[i].identity.as_str(), identity) {
            let keep = match found {
                Some(at) => {
                    assert(all.take(i as int)[at as int] == producers@[at as int]@);
                    let kept: u8 = rough(&producers[at]);
                    let next: u8 = rough(&producers[i]);
                    kept <= next
                },
                None => false,
            };
            if !keep {
                found = Some(i);
            }
        }
        i = i + 1;
    }
    assert(all.take(i as int) =~= all);
    found
}

/// Decides which producers the project bin lists and what id they share.
pub fn assign_bin_ids(producers: &mut Vec<Producer>)
    ensures
        views(final(producers)@) == with_bin_ids(views(old(producers)@)),
{
    let ghost all = views(producers@);
    let ghost texts = identities(all);
    let n: usize = producers.len();
    let mut ids: Vec<u128> = Vec::new();
    let mut listed: Vec<bool> = Vec::new();
    let mut next: u128 = 2;
    let mut i: usize = 0;
    assert(texts.take(0) =~= seq![]);
    while i < n
        invariant
            i <= n,
            n == producers@.len(),
            all == views(producers@),
            texts == identities(all),
            ids@.len() == i,
            listed@.len() == i,
            next == 2 + different(texts.take(i as int)),
            next <= 2 + i,
            forall|k: int| 0 <= k < i ==> #[trigger] ids@[k] == bin_id_of(texts, texts[k]),
            forall|k: int|
                0 <= k < i ==> #[trigger] listed@[k] == (bin_choice(all, all[k].identity) == k),
        decreases n - i,
    {
        let mut j: usize = 0;
        assert(texts[i as int] == producers@[i as int].identity@);
        while j < i && !same(producers[j].identity.as_str(), producers[i].identity.as_str())
            invariant
                j <= i,
                i < n,
                n == producers@.len(),
                all == views(producers@),
                texts == identities(all),
                forall|k: int| 0 <= k < j ==> texts[k] != texts[i as int],
            decreases i - j,
        {
            assert(texts[j as int] == producers@[j as int].identity@);
            j = j + 1;
        }
        proof {
            if j < i {
                assert(texts[j as int] == producers@[j as int].identity@);
            }
            crate::project::lemma_index_of_is(texts, texts[i as int], j as int);
            assert(texts.take(i + 1).drop_last() =~= texts.take(i as int));
            assert(texts.take(i + 1).last() == texts[i as int]);
            if j < i {
                crate::project::lemma_index_of_is(
                    texts.take(i as int),
                    texts[i as int],
                    j as int,
                );
            } else {
                crate::project::lemma_index_of_none(texts.take(i as int), texts[i as int]);
            }
        }
        if j < i {
            assert(ids@[j as int] == bin_id_of(texts, texts[j as int]));
            ids.push(ids[j]);
        } else {
            ids.push(next);
            next = next + 1;
        }
        let chosen = choose_for(producers, producers[i].identity.as_str());
        let here = match chosen {
            Some(at) => at == i,
            None => false,
        };
        assert(all[i as int].identity == producers@[i as int].identity@);
        listed.push(here);
        i = i + 1;
    }
    let mut i: usize = 0;
    while i < n
        invariant
            i <= n,
            n == producers@.len(),
            n == ids@.len(),
            n == listed@.len(),
            n == all.len(),
            texts == identities(all),
            forall|k: int| 0 <= k < n ==> #[trigger] ids@[k] == bin_id_of(texts, texts[k]),
            forall|k: int|
                0 <= k < n ==> #[trigger] listed@[k] == (bin_choice(all, all[k].identity) == k),
            forall|k: int|
                0 <= k < n ==> (#[trigger] producers@[k])@ == if k < i {
                    with_bin_ids(all)[k]
                } else {
                    all[k]
                },
        decreases n - i,
    {
        assert(ids@[i as int] == bin_id_of(texts, texts[i as int]));
        assert(listed@[i as int] == (bin_choice(all, all[i as int].identity) == i));
        assert(producers@[i as int]@ == all[i as int]);
        let ghost was = producers@;
        let id: u128 = ids[i];
        let bin = listed[i];
        producers[i].bin_id = id;
        producers[i].bin = bin;
        assert(producers@[i as int]@ == with_bin_ids(all)[i as int]);
        assert forall|k: int| 0 <= k < n && k != i implies producers@[k] == was[k] by {}
        i = i + 1;
    }
    assert(views(producers@) =~= with_bin_ids(all));
}

// ---------------------------------------------------------------------------
// Guides
// ---------------------------------------------------------------------------

/// A marker as a guide: its name and its frame.
pub open spec fn guide_text(marker: Marker, fps: Fps) -> Seq<char> {
    "{\"comment\":"@ + quoted(marker.name@) + ",\"pos\":"@ + dec_int(marker.at.round_frame(fps))
        + ",\"type\":0}"@
}

/// Guides with commas between them.
pub open spec fn guide_list(markers: Seq<Marker>, fps: Fps) -> Seq<char>
    decreases markers.len(),
{
    if markers.len() == 0 {
        seq![]
    } else if markers.len() == 1 {
        guide_text(markers[0], fps)
    } else {
        guide_list(markers.drop_last(), fps) + ","@ + guide_text(markers.last(), fps)
    }
}

/// The markers as Kdenlive stores guides: a JSON array.
pub open spec fn guides_text(markers: Seq<Marker>, fps: Fps) -> Seq<char> {
    "["@ + guide_list(markers, fps) + "]"@
}

/// Whether every marker is on a frame.
pub open spec fn markers_fit(markers: Seq<Marker>, fps: Fps) -> bool {
    forall|i: int|
        0 <= i < markers.len() ==> (#[trigger] markers[i]).at.wf() && -FRAME_LIMIT
            < markers[i].at.round_frame(fps) < FRAME_LIMIT
}

pub fn guides(markers: &Vec<Marker>, fps: Fps) -> (r: String)
    requires
        fps.wf(),
        markers_fit(markers@, fps),
    ensures
        r@ == guides_text(markers@, fps),
{
    let mut list = String::new();
    let mut i: usize = 0;
    assert(markers@.take(0) =~= seq![]);
    assert(list@ =~= guide_list(markers@.take(0), fps));
    while i < markers.len()
        invariant
            i <= markers@.len(),
            fps.wf(),
            markers_fit(markers@, fps),
            list@ == guide_list(markers@.take(i as int), fps),
        decreases markers@.len() - i,
    {
        let ghost before = list@;
        let frame: i64 = markers[i].at.frame_round(fps);
        if i > 0 {
            list.append(",");
        }
        list.append("{\"comment\":");
        list.append(json_string(markers[i].name.as_str()).as_str());
        list.append(",\"pos\":");
        list.append(integer(frame).as_str());
        list.append(",\"type\":0}");
        proof {
            let seen = markers@.take(i + 1);
            assert(seen.drop_last() =~= markers@.take(i as int));
            assert(seen.last() == markers@[i as int]);
            if i == 0 {
                assert(list@ =~= guide_text(seen[0], fps));
            } else {
                assert(list@ =~= before + ","@ + guide_text(seen.last(), fps));
            }
        }
        i = i + 1;
    }
    assert(markers@.take(i as int) =~= markers@);
    let mut out = "[".to_owned();
    out.append(list.as_str());
    out.append("]");
    out
}

// ---------------------------------------------------------------------------
// Building
// ---------------------------------------------------------------------------

/// Every use in a track is of one of `n` producers, on frames in order.
pub open spec fn track_ok(track: TrackView, n: nat) -> bool {
    forall|k: int, j: int|
        0 <= k < track.playlists.len() && 0 <= j < track.playlists[k].items.len() ==> item_ok(
            #[trigger] track.playlists[k].items[j],
            n,
        )
}

/// Every use in a document is of a producer that it has, on frames in order that the producer
/// has too.
pub open spec fn document_ok(d: DocumentView) -> bool {
    &&& 0 < d.frames < FRAME_LIMIT
    &&& forall|k: int|
        0 <= k < d.producers.len() ==> 0 < (#[trigger] d.producers[k]).length <= 2 * FRAME_LIMIT
    &&& forall|t: int|
        0 <= t < d.tracks.len() ==> track_ok(#[trigger] d.tracks[t], d.producers.len())
            && track_covered(d.tracks[t], d.producers)
}

proof fn lemma_producers_grow(
    b: BuildView,
    entries: Seq<Entry>,
    project: Project,
    audio: bool,
    paired: bool,
    fps: Fps,
    frames: int,
)
    ensures
        with_entries(b, entries, project, audio, paired, fps, frames).producers.len()
            >= b.producers.len(),
    decreases entries.len(),
{
    if entries.len() > 0 {
        lemma_producers_grow(b, entries.drop_last(), project, audio, paired, fps, frames);
    }
}

proof fn lemma_finished_ok(b: BuildView, track: Track, paired: bool)
    requires
        build_ok(b),
    ensures
        track_ok(finished(b, track, paired), b.producers.len()),
{
    let t = finished(b, track, paired);
    assert forall|k: int, j: int|
        0 <= k < t.playlists.len() && 0 <= j < t.playlists[k].items.len() implies item_ok(
        #[trigger] t.playlists[k].items[j],
        b.producers.len(),
    ) by {
        if k == 0 {
            assert(t.playlists[k].items[j] == b.main[j]);
        } else {
            assert(t.playlists[k].items[j] == b.side[j]);
        }
    }
}

proof fn lemma_track_ok_grows(track: TrackView, n: nat, m: nat)
    requires
        track_ok(track, n),
        n <= m,
    ensures
        track_ok(track, m),
{
    assert forall|k: int, j: int|
        0 <= k < track.playlists.len() && 0 <= j < track.playlists[k].items.len() implies item_ok(
        #[trigger] track.playlists[k].items[j],
        m,
    ) by {
        assert(item_ok(track.playlists[k].items[j], n));
    }
}

/// Whether a sequence can be laid out with frame numbers.
pub open spec fn document_fits(project: Project, sequence: Sequence) -> bool {
    &&& sequence_fits(sequence)
    &&& markers_fit(sequence.markers@, sequence.fps)
    &&& forall|i: int, k: int|
        0 <= i < sequence.tracks@.len() && sequence.tracks@[i].kind != TrackKind::Caption && 0 <= k
            < sequence.tracks@[i].clips@.len() ==> clip_fits(
            project,
            #[trigger] sequence.tracks@[i].clips@[k],
            sequence.fps,
        )
}

/// The length of the document: that of its longest track, and at least a frame.
pub open spec fn document_frames(sequence: Sequence) -> int {
    larger(longest(clip_tracks(sequence.tracks@), sequence.fps), 1)
}

/// The document before its first track.
pub open spec fn beginning(sequence: Sequence, kdenlive: bool) -> Progress {
    Progress {
        producers: seq![],
        ids: IdsView { producer: 0, playlist: 0, tractor: 0, transition: 0 },
        tracks: seq![],
        warnings: all_placing_warnings(clip_tracks(sequence.tracks@), sequence.fps)
            + captions_warnings(sequence.tracks@) + losses(sequence, "MLT"@, kept_by_mlt(kdenlive)),
    }
}

/// The document of a sequence.
pub open spec fn document_of(project: Project, sequence: Sequence, kdenlive: bool) -> DocumentView {
    let p = with_tracks(
        beginning(sequence, kdenlive),
        clip_tracks(sequence.tracks@),
        project,
        sequence.fps,
        document_frames(sequence),
        kdenlive,
    );
    DocumentView {
        fps: sequence.fps,
        size: sequence.size,
        frames: document_frames(sequence),
        sequence_name: sequence.name@,
        producers: covering(with_bin_ids(p.producers), p.tracks),
        tracks: p.tracks,
        warnings: p.warnings,
        guides: guides_text(sequence.markers@, sequence.fps),
    }
}

/// Why a sequence has no document, if it has none.
pub open spec fn document_error(project: Project, id: Seq<char>) -> Option<ErrorView> {
    if project.sequence_at(id) < 0 {
        Some(project.no_sequence(id))
    } else {
        let sequence = project.sequences@[project.sequence_at(id)];
        tracks_error(clip_tracks(sequence.tracks@), project, sequence.fps)
    }
}

fn finish_track(b: Build, track: &Track, paired: bool) -> (r: (
    TrackOut,
    Vec<Producer>,
    Ids,
    Vec<Warning>,
))
    requires
        b.ids.playlist < u128::MAX - 1,
        b.ids.tractor < u128::MAX,
        b.ids.transition < u128::MAX,
    ensures
        r.0@ == finished(b@, *track, paired),
        r.1 == b.producers,
        r.2@ == ids_after(b@.ids, paired),
        r.3 == b.warnings,
{
    let ghost before = b@;
    let Build { producers, mut ids, main, side, side_cursor: _, mut transitions, warnings } = b;
    let audio = track.kind == TrackKind::Audio;
    let mut playlists: Vec<PlaylistOut> = Vec::new();
    let first = ids.playlist();
    push_view(&mut playlists, PlaylistOut { id: first.clone(), items: main });
    if paired {
        let second = ids.playlist();
        push_view(&mut playlists, PlaylistOut { id: second, items: side });
    }
    let mut filters: Vec<Filter> = Vec::new();
    if let Some(gain) = track.gain {
        push_view(&mut filters, crate::mlt_build::level(gain));
    }
    if let Some(pan) = track.pan {
        push_view(&mut filters, crate::mlt_build::panner(pan));
    }
    assert(views(filters@) =~= track_filters(*track));
    let (reference, tractor) = if paired {
        let id = ids.tractor();
        (id.clone(), Some(id))
    } else {
        (first, None)
    };
    if paired {
        let mut props: Vec<XmlAttr> = Vec::new();
        push_attr(&mut props, "always_active", "1");
        push_attr(&mut props, "sum", "1");
        push_attr(&mut props, "accepts_blanks", "1");
        push_attr(&mut props, "internal_added", "237");
        let id = ids.transition();
        assert(views(props@) =~= sum_transition(before.ids.transition).props);
        push_view(
            &mut transitions,
            TransitionOut { id, service: "mix".to_owned(), a_track: 0, b_track: 1, props, range: None },
        );
    }
    let hidden = track.hidden || audio;
    let hide: Option<&'static str> = if hidden && track.muted {
        Some("both")
    } else if hidden {
        Some("video")
    } else if track.muted {
        Some("audio")
    } else {
        None
    };
    let out = TrackOut {
        reference,
        name: track.name.clone(),
        audio,
        locked: track.locked,
        hide,
        playlists,
        tractor,
        transitions,
        filters,
    };
    assert(out@.playlists =~= finished(before, *track, paired).playlists);
    assert(out@ == finished(before, *track, paired));
    (out, producers, ids, warnings)
}

fn has_transition(entries: &Vec<Entry<'_>>) -> (r: bool)
    ensures
        r == mixes(entries@),
{
    let mut i: usize = 0;
    while i < entries.len()
        invariant
            i <= entries@.len(),
            forall|k: int|
                0 <= k < i ==> !((#[trigger] entries@[k]) is Clip
                    && entries@[k]->Clip_0.clip.transition() is Some),
        decreases entries@.len() - i,
    {
        if let Entry::Clip(placed) = &entries[i] {
            if placed.clip.shown_transition().is_some() {
                assert(entries@[i as int] is Clip);
                return true;
            }
        }
        i = i + 1;
    }
    false
}

pub proof fn lemma_clip_tracks(tracks: Seq<Track>, k: int)
    requires
        0 <= k < clip_tracks(tracks).len(),
    ensures
        exists|i: int|
            0 <= i < tracks.len() && #[trigger] tracks[i] == clip_tracks(tracks)[k]
                && tracks[i].kind != TrackKind::Caption,
        clip_tracks(tracks).len() <= tracks.len(),
    decreases tracks.len(),
{
    lemma_clip_tracks_len(tracks);
    let rest = tracks.drop_last();
    lemma_clip_tracks_len(rest);
    if tracks.last().kind == TrackKind::Caption || k < clip_tracks(rest).len() {
        lemma_clip_tracks(rest, k);
        let i = choose|i: int|
            0 <= i < rest.len() && #[trigger] rest[i] == clip_tracks(rest)[k] && rest[i].kind
                != TrackKind::Caption;
        assert(tracks[i] == rest[i]);
    } else {
        assert(tracks[tracks.len() - 1] == clip_tracks(tracks)[k]);
    }
}

proof fn lemma_clip_tracks_len(tracks: Seq<Track>)
    ensures
        clip_tracks(tracks).len() <= tracks.len(),
    decreases tracks.len(),
{
    if tracks.len() > 0 {
        lemma_clip_tracks_len(tracks.drop_last());
    }
}

pub proof fn lemma_tracks_error(tracks: Seq<Track>, project: Project, fps: Fps, n: int)
    requires
        0 <= n <= tracks.len(),
        tracks_error(tracks.take(n), project, fps) is Some,
    ensures
        tracks_error(tracks, project, fps) == tracks_error(tracks.take(n), project, fps),
    decreases tracks.len(),
{
    if n == tracks.len() {
        assert(tracks.take(n) =~= tracks);
    } else {
        assert(tracks.drop_last().take(n) =~= tracks.take(n));
        lemma_tracks_error(tracks.drop_last(), project, fps, n);
    }
}

/// What placing the clips of a sequence has to report.
pub fn placed_warnings(flat: &Vec<FlatTrack<'_>>, sequence: &Sequence) -> (r: Vec<Warning>)
    requires
        is_flat(flat@, *sequence),
    ensures
        views(r@) == all_placing_warnings(clip_tracks(sequence.tracks@), sequence.fps),
{
    let ghost tracks = clip_tracks(sequence.tracks@);
    let mut warnings: Vec<Warning> = Vec::new();
    let mut i: usize = 0;
    assert(tracks.take(0) =~= seq![]);
    assert(views(warnings@) =~= seq![]);
    while i < flat.len()
        invariant
            i <= flat@.len(),
            is_flat(flat@, *sequence),
            tracks == clip_tracks(sequence.tracks@),
            views(warnings@) == all_placing_warnings(tracks.take(i as int), sequence.fps),
        decreases flat@.len() - i,
    {
        proof {
            assert(tracks.take(i + 1).drop_last() =~= tracks.take(i as int));
            assert(flattens(flat@[i as int], tracks[i as int], sequence.fps));
        }
        extend(&mut warnings, copied_warnings(&flat[i].warnings));
        i = i + 1;
    }
    assert(tracks.take(i as int) =~= tracks);
    warnings
}

/// The length of the timeline: that of its longest track, and at least a frame.
pub fn total_frames(flat: &Vec<FlatTrack<'_>>, sequence: &Sequence) -> (r: i64)
    requires
        sequence_fits(*sequence),
        is_flat(flat@, *sequence),
    ensures
        r == document_frames(*sequence),
        0 < r < FRAME_LIMIT,
{
    let ghost tracks = clip_tracks(sequence.tracks@);
    let mut most: i64 = 0;
    let mut i: usize = 0;
    assert(tracks.take(0) =~= seq![]);
    while i < flat.len()
        invariant
            i <= flat@.len(),
            sequence_fits(*sequence),
            is_flat(flat@, *sequence),
            tracks == clip_tracks(sequence.tracks@),
            most == longest(tracks.take(i as int), sequence.fps),
            0 <= most < FRAME_LIMIT,
        decreases flat@.len() - i,
    {
        proof {
            assert(tracks.take(i + 1).drop_last() =~= tracks.take(i as int));
            assert(flattens(flat@[i as int], tracks[i as int], sequence.fps));
            lemma_clip_tracks(sequence.tracks@, i as int);
            let k = choose|k: int|
                0 <= k < sequence.tracks@.len() && #[trigger] sequence.tracks@[k]
                    == tracks[i as int] && sequence.tracks@[k].kind != TrackKind::Caption;
            assert(track_fits(sequence.tracks@[k], sequence.fps));
        }
        if flat[i].frames > most {
            most = flat[i].frames;
        }
        i = i + 1;
    }
    assert(tracks.take(i as int) =~= tracks);
    if most < 1 {
        1
    } else {
        most
    }
}

/// The warnings and the length that the tracks bring along.
fn survey(flat: &Vec<FlatTrack<'_>>, sequence: &Sequence, kdenlive: bool) -> (r: (Vec<Warning>, i64))
    requires
        sequence_fits(*sequence),
        is_flat(flat@, *sequence),
    ensures
        views(r.0@) == beginning(*sequence, kdenlive).warnings,
        r.1 == document_frames(*sequence),
        0 < r.1 < FRAME_LIMIT,
{
    let mut warnings = placed_warnings(flat, sequence);
    let most: i64 = total_frames(flat, sequence);
    let ghost placing = views(warnings@);
    let mut i: usize = 0;
    assert(sequence.tracks@.take(0) =~= seq![]);
    while i < sequence.tracks.len()
        invariant
            i <= sequence.tracks@.len(),
            views(warnings@) == placing + captions_warnings(sequence.tracks@.take(i as int)),
        decreases sequence.tracks@.len() - i,
    {
        proof {
            assert(sequence.tracks@.take(i + 1).drop_last() =~= sequence.tracks@.take(i as int));
        }
        let track = &sequence.tracks[i];
        if track.kind == TrackKind::Caption && track.cues.len() > 0 {
            let mut detail = decimal(track.cues.len() as u128);
            detail.append(" caption cue(s) on '");
            detail.append(track.name.as_str());
            detail.append(
                "' are not part of an MLT timeline; export them with export.srt and attach the file in the editor",
            );
            push_view(
                &mut warnings,
                Warning { code: "captions-not-exported", target: track.name.clone(), detail },
            );
        }
        i = i + 1;
        assert(views(warnings@) =~= placing + captions_warnings(sequence.tracks@.take(i as int)));
    }
    assert(sequence.tracks@.take(i as int) =~= sequence.tracks@);
    extend(&mut warnings, loss_warnings(sequence, "MLT", mlt_kept(kdenlive)));
    (warnings, most)
}

impl Document {
    /// The document of a sequence.
    pub fn build(project: &Project, id: &str, kdenlive: bool) -> (r: Result<Document, Error>)
        requires
            project.sequence_at(id@) >= 0 ==> document_fits(
                *project,
                project.sequences@[project.sequence_at(id@)],
            ),
        ensures
            r is Err <==> document_error(*project, id@) is Some,
            r is Err ==> Some(r->Err_0@) == document_error(*project, id@),
            r is Ok ==> r->Ok_0@ == document_of(
                *project,
                project.sequences@[project.sequence_at(id@)],
                kdenlive,
            ),
            r is Ok ==> document_ok(r->Ok_0@),
    {
        let sequence = match project.sequence(id) {
            Ok(sequence) => sequence,
            Err(error) => {
                return Err(error);
            },
        };
        let fps = sequence.fps;
        let flat = flatten(sequence);
        let ghost tracks = clip_tracks(sequence.tracks@);
        let ghost start = beginning(*sequence, kdenlive);
        let (mut warnings, frames) = survey(&flat, sequence, kdenlive);
        let mut producers: Vec<Producer> = Vec::new();
        let mut ids = Ids::new();
        let mut done: Vec<TrackOut> = Vec::new();
        let mut t: usize = 0;
        proof {
            assert(tracks.take(0) =~= seq![]);
            assert(views(producers@) =~= seq![]);
            assert(views(done@) =~= seq![]);
        }
        while t < flat.len()
            invariant
                t <= flat@.len(),
                document_fits(*project, *sequence),
                is_flat(flat@, *sequence),
                fps == sequence.fps,
                tracks == clip_tracks(sequence.tracks@),
                start == beginning(*sequence, kdenlive),
                frames == document_frames(*sequence),
                0 < frames < FRAME_LIMIT,
                tracks_error(tracks.take(t as int), *project, fps) is None,
                (Progress {
                    producers: views(producers@),
                    ids: ids@,
                    tracks: views(done@),
                    warnings: views(warnings@),
                }) == with_tracks(
                    start,
                    tracks.take(t as int),
                    *project,
                    fps,
                    frames as int,
                    kdenlive,
                ),
                ids.producer == producers@.len(),
                forall|k: int|
                    0 <= k < producers@.len() ==> 0 < (#[trigger] views(producers@)[k]).length
                        < FRAME_LIMIT,
                forall|k: int|
                    0 <= k < done@.len() ==> track_ok(#[trigger] views(done@)[k], producers@.len()),
                ids.playlist <= 2 * t,
                ids.tractor <= t,
                ids.transition <= t * 0x1_0000_0000_0000_0000,
                project.sequence_at(id@) >= 0,
                *sequence == project.sequences@[project.sequence_at(id@)],
            decreases flat@.len() - t,
        {
            let total: usize = flat.len();
            let entries = &flat[t].entries;
            let count: usize = entries.len();
            let track = flat[t].track;
            let audio = track.kind == TrackKind::Audio;
            let paired = kdenlive || track.gain.is_some() || track.pan.is_some()
                || has_transition(entries);
            let ghost p = with_tracks(
                start,
                tracks.take(t as int),
                *project,
                fps,
                frames as int,
                kdenlive,
            );
            proof {
                assert(tracks.take(t + 1).drop_last() =~= tracks.take(t as int));
                assert(tracks.take(t + 1).last() == tracks[t as int]);
                assert(flattens(flat@[t as int], tracks[t as int], fps));
                lemma_clip_tracks(sequence.tracks@, t as int);
                let k = choose|k: int|
                    0 <= k < sequence.tracks@.len() && #[trigger] sequence.tracks@[k]
                        == tracks[t as int] && sequence.tracks@[k].kind != TrackKind::Caption;
                assert(track_fits(sequence.tracks@[k], fps));
                assert forall|c: int| 0 <= c < track.clips@.len() implies clip_fits(
                    *project,
                    #[trigger] track.clips@[c],
                    fps,
                ) by {
                    assert(clip_fits(*project, sequence.tracks@[k].clips@[c], fps));
                }
                assert(paired == is_paired(*track, entries@, kdenlive));
            }
            let mut b = Build {
                producers,
                ids,
                main: Vec::new(),
                side: Vec::new(),
                side_cursor: 0,
                transitions: Vec::new(),
                warnings,
            };
            proof {
                assert(b@.main =~= fresh(p).main);
                assert(b@.side =~= fresh(p).side);
                assert(b@.transitions =~= fresh(p).transitions);
                assert(b@ == fresh(p));
            }
            match add_entries(&mut b, entries, &track.clips, project, audio, paired, fps, frames) {
                Ok(()) => {},
                Err(error) => {
                    proof {
                        lemma_tracks_error(tracks, *project, fps, t + 1);
                    }
                    return Err(error);
                },
            }
            proof {
                lemma_finished_ok(b@, *track, paired);
                lemma_producers_grow(
                    fresh(p),
                    entries@,
                    *project,
                    audio,
                    paired,
                    fps,
                    frames as int,
                );
                assert forall|k: int| 0 <= k < done@.len() implies track_ok(
                    #[trigger] views(done@)[k],
                    b.producers@.len(),
                ) by {
                    lemma_track_ok_grows(views(done@)[k], p.producers.len(), b.producers@.len());
                }
            }
            let ghost finished_before = views(done@);
            let ghost made = b.producers@.len();
            let (out, next_producers, next_ids, next_warnings) = finish_track(b, track, paired);
            producers = next_producers;
            ids = next_ids;
            warnings = next_warnings;
            push_view(&mut done, out);
            proof {
                assert forall|k: int| 0 <= k < done@.len() implies track_ok(
                    #[trigger] views(done@)[k],
                    producers@.len(),
                ) by {
                    if k < finished_before.len() {
                        assert(views(done@)[k] == finished_before[k]);
                    }
                }
            }
            t = t + 1;
        }
        assert(tracks.take(t as int) =~= tracks);
        let ghost made = views(producers@);
        assign_bin_ids(&mut producers);
        let ghost listed = views(producers@);
        assert(listed.len() == made.len());
        cover(&mut producers, &done);
        proof {
            assert forall|t: int| 0 <= t < done@.len() implies track_covered(
                #[trigger] views(done@)[t],
                views(producers@),
            ) by {
                law_producers_cover_their_entries(listed, views(done@), t);
            }
        }
        Ok(
            Document {
                fps,
                size: sequence.size,
                frames,
                sequence_name: sequence.name.clone(),
                producers,
                tracks: done,
                warnings,
                guides: guides(&sequence.markers, fps),
            },
        )
    }
}

} // verus!
