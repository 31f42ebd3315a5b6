//! How the producers of an MLT document are told apart.

use crate::mlt::{interned, numbered, producer_for, producer_keys, speed_of, ProducerView};
use crate::mlt_build::{with_entries, BuildView};
use crate::mlt_document::{fresh, is_paired, with_tracks, Progress};
use crate::project::{Project, Track, TrackKind};
use crate::text::{dec, lemma_dec_tells_apart};
use crate::time::Fps;
use crate::timeline::{entries_of, resource_of, Entry};
use vstd::prelude::*;

verus! {

/// Producers are numbered in order, and no two are for the same use of the same media.
pub open spec fn numbered_apart(producers: Seq<ProducerView>, count: int) -> bool {
    &&& count == producers.len()
    &&& forall|i: int|
        0 <= i < producers.len() ==> (#[trigger] producers[i]).id == numbered("producer"@, i)
    &&& forall|i: int, j: int|
        0 <= i < j < producers.len() ==> (#[trigger] producers[i]).key != (
        #[trigger] producers[j]).key
}

proof fn lemma_interned_apart(producers: Seq<ProducerView>, count: int, new: ProducerView)
    requires
        numbered_apart(producers, count),
    ensures
        numbered_apart(interned(producers, count, new).0, interned(producers, count, new).1),
{
    let keys = producer_keys(producers);
    crate::project::lemma_index_of(keys, new.key);
    let (after, total, at) = interned(producers, count, new);
    if crate::project::index_of(keys, new.key) < 0 {
        assert forall|i: int, j: int| 0 <= i < j < after.len() implies (
        #[trigger] after[i]).key != (#[trigger] after[j]).key by {
            assert(after[i] == producers[i]);
            if j == producers.len() {
                assert(keys[i] == producers[i].key);
                assert(keys.contains(keys[i]));
            }
        }
    }
}

proof fn lemma_entries_apart(
    b: BuildView,
    entries: Seq<Entry>,
    project: Project,
    audio: bool,
    paired: bool,
    fps: Fps,
    frames: int,
)
    requires
        numbered_apart(b.producers, b.ids.producer),
    ensures
        ({
            let after = with_entries(b, entries, project, audio, paired, fps, frames);
            numbered_apart(after.producers, after.ids.producer)
        }),
    decreases entries.len(),
{
    if entries.len() > 0 {
        lemma_entries_apart(b, entries.drop_last(), project, audio, paired, fps, frames);
        let before = with_entries(b, entries.drop_last(), project, audio, paired, fps, frames);
        match entries.last() {
            Entry::Blank { .. } => {},
            Entry::Clip(placed) => {
                let clip = *placed.clip;
                lemma_interned_apart(
                    before.producers,
                    before.ids.producer,
                    producer_for(resource_of(project, clip), audio, speed_of(clip), fps, frames),
                );
            },
        }
    }
}

/// However many clips use a piece of media, one use of it is one producer, and every
/// producer of a document has an id of its own.
pub proof fn law_each_use_of_media_is_one_producer(
    p: Progress,
    tracks: Seq<Track>,
    project: Project,
    fps: Fps,
    frames: int,
    kdenlive: bool,
)
    requires
        numbered_apart(p.producers, p.ids.producer),
    ensures
        ({
            let after = with_tracks(p, tracks, project, fps, frames, kdenlive);
            numbered_apart(after.producers, after.ids.producer)
        }),
    decreases tracks.len(),
{
    if tracks.len() > 0 {
        let rest = tracks.drop_last();
        law_each_use_of_media_is_one_producer(p, rest, project, fps, frames, kdenlive);
        let before = with_tracks(p, rest, project, fps, frames, kdenlive);
        let track = tracks.last();
        let entries = entries_of(track.clips@, fps);
        lemma_entries_apart(
            fresh(before),
            entries,
            project,
            track.kind == TrackKind::Audio,
            is_paired(track, entries, kdenlive),
            fps,
            frames,
        );
    }
}

/// Numbered identifiers are different where their numbers are.
pub proof fn law_numbered_ids_are_different(prefix: Seq<char>, a: int, b: int)
    requires
        0 <= a,
        0 <= b,
        a != b,
    ensures
        numbered(prefix, a) != numbered(prefix, b),
{
    if numbered(prefix, a) == numbered(prefix, b) {
        let x = numbered(prefix, a);
        assert(x.skip(prefix.len() as int) =~= dec(a as nat));
        assert(x.skip(prefix.len() as int) =~= dec(b as nat));
        lemma_dec_tells_apart(a as nat, b as nat);
    }
}

} // verus!
