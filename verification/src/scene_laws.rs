//! Looking for shot changes again changes nothing.

use crate::project::Marker;
use crate::scene_ops::{
    kept_markers, marker_slot, marker_views, scene_marker, with_markers, MarkerText,
};
use crate::text::starts_with;
use crate::time::{Fps, Time};
use vstd::prelude::*;

verus! {

/// Markers without the ids that they were given.
pub open spec fn without_ids(markers: Seq<MarkerText>) -> Seq<MarkerText> {
    markers.map_values(|m: MarkerText| MarkerText { id: seq![], ..m })
}

/// The markers whose name does not start with a prefix.
pub open spec fn kept_texts(markers: Seq<MarkerText>, prefix: Seq<char>) -> Seq<MarkerText>
    decreases markers.len(),
{
    if markers.len() == 0 {
        seq![]
    } else if starts_with(markers.last().name, prefix) {
        kept_texts(markers.drop_last(), prefix)
    } else {
        kept_texts(markers.drop_last(), prefix).push(markers.last())
    }
}

proof fn lemma_kept_views(markers: Seq<Marker>, prefix: Seq<char>)
    ensures
        marker_views(kept_markers(markers, prefix)) == kept_texts(marker_views(markers), prefix),
    decreases markers.len(),
{
    if markers.len() == 0 {
        assert(marker_views(kept_markers(markers, prefix)) =~= seq![]);
    } else {
        let rest = markers.drop_last();
        lemma_kept_views(rest, prefix);
        assert(marker_views(markers).drop_last() =~= marker_views(rest));
        assert(marker_views(markers).last() == markers.last()@);
        if !starts_with(markers.last().name@, prefix) {
            assert(marker_views(kept_markers(rest, prefix).push(markers.last())) =~= marker_views(
                kept_markers(rest, prefix),
            ).push(markers.last()@));
        }
    }
}

proof fn lemma_kept_join(a: Seq<MarkerText>, b: Seq<MarkerText>, prefix: Seq<char>)
    ensures
        kept_texts(a + b, prefix) == kept_texts(a, prefix) + kept_texts(b, prefix),
    decreases b.len(),
{
    if b.len() == 0 {
        assert(a + b =~= a);
        assert(kept_texts(a, prefix) + kept_texts(b, prefix) =~= kept_texts(a, prefix));
    } else {
        let rest = b.drop_last();
        lemma_kept_join(a, rest, prefix);
        assert((a + b).drop_last() =~= a + rest);
        assert((a + b).last() == b.last());
        assert(kept_texts(a, prefix) + kept_texts(rest, prefix).push(b.last()) =~= (kept_texts(
            a,
            prefix,
        ) + kept_texts(rest, prefix)).push(b.last()));
    }
}

proof fn lemma_kept_inserted(
    markers: Seq<MarkerText>,
    at: int,
    marker: MarkerText,
    prefix: Seq<char>,
)
    requires
        0 <= at <= markers.len(),
        starts_with(marker.name, prefix),
    ensures
        kept_texts(markers.insert(at, marker), prefix) == kept_texts(markers, prefix),
{
    let a = markers.take(at);
    let b = markers.skip(at);
    let one = seq![marker];
    assert(markers.insert(at, marker) =~= a + one + b);
    assert(markers =~= a + b);
    lemma_kept_join(a + one, b, prefix);
    lemma_kept_join(a, one, prefix);
    lemma_kept_join(a, b, prefix);
    reveal_with_fuel(kept_texts, 2);
    assert(one.drop_last() =~= seq![]);
    assert(kept_texts(one, prefix) =~= seq![]);
    assert(kept_texts(a, prefix) + Seq::<MarkerText>::empty() =~= kept_texts(a, prefix));
}

proof fn lemma_slot_fits(markers: Seq<MarkerText>, at: Time)
    ensures
        0 <= marker_slot(markers, at) <= markers.len(),
    decreases markers.len(),
{
    if markers.len() > 0 {
        lemma_slot_fits(markers.drop_last(), at);
    }
}

proof fn lemma_named(
    id: Seq<char>,
    at: Time,
    index: int,
    prefix: Seq<char>,
    threshold: Seq<char>,
    fps: Fps,
)
    ensures
        starts_with(scene_marker(id, at, index, prefix, threshold, fps).name, prefix),
{
    let name = scene_marker(id, at, index, prefix, threshold, fps).name;
    assert(name.take(prefix.len() as int) =~= prefix);
}

proof fn lemma_kept_before(
    markers: Seq<MarkerText>,
    cuts: Seq<Time>,
    ids: Seq<Seq<char>>,
    prefix: Seq<char>,
    threshold: Seq<char>,
    fps: Fps,
)
    ensures
        kept_texts(with_markers(markers, cuts, ids, prefix, threshold, fps), prefix) == kept_texts(
            markers,
            prefix,
        ),
    decreases cuts.len(),
{
    if cuts.len() > 0 {
        let n = cuts.len() - 1;
        let rest = cuts.drop_last();
        lemma_kept_before(markers, rest, ids, prefix, threshold, fps);
        let before = with_markers(markers, rest, ids, prefix, threshold, fps);
        lemma_slot_fits(before, cuts[n]);
        lemma_named(ids[n], cuts[n], n, prefix, threshold, fps);
        lemma_kept_inserted(
            before,
            marker_slot(before, cuts[n]),
            scene_marker(ids[n], cuts[n], n, prefix, threshold, fps),
            prefix,
        );
    }
}

proof fn lemma_kept_twice(markers: Seq<MarkerText>, prefix: Seq<char>)
    ensures
        kept_texts(kept_texts(markers, prefix), prefix) == kept_texts(markers, prefix),
    decreases markers.len(),
{
    if markers.len() > 0 {
        let rest = kept_texts(markers.drop_last(), prefix);
        lemma_kept_twice(markers.drop_last(), prefix);
        if !starts_with(markers.last().name, prefix) {
            assert(rest.push(markers.last()).drop_last() =~= rest);
        }
    }
}

proof fn lemma_slot_without_ids(a: Seq<MarkerText>, b: Seq<MarkerText>, at: Time)
    requires
        without_ids(a) == without_ids(b),
    ensures
        marker_slot(a, at) == marker_slot(b, at),
    decreases a.len(),
{
    assert(without_ids(a).len() == a.len() && without_ids(b).len() == b.len());
    if a.len() > 0 {
        assert(without_ids(a).last().at == a.last().at);
        assert(without_ids(b).last().at == b.last().at);
        assert(without_ids(a.drop_last()) =~= without_ids(a).drop_last());
        assert(without_ids(b.drop_last()) =~= without_ids(b).drop_last());
        lemma_slot_without_ids(a.drop_last(), b.drop_last(), at);
    }
}

proof fn lemma_other_ids(
    markers: Seq<MarkerText>,
    cuts: Seq<Time>,
    first: Seq<Seq<char>>,
    second: Seq<Seq<char>>,
    prefix: Seq<char>,
    threshold: Seq<char>,
    fps: Fps,
)
    ensures
        without_ids(with_markers(markers, cuts, first, prefix, threshold, fps)) == without_ids(
            with_markers(markers, cuts, second, prefix, threshold, fps),
        ),
    decreases cuts.len(),
{
    if cuts.len() > 0 {
        let n = cuts.len() - 1;
        let rest = cuts.drop_last();
        lemma_other_ids(markers, rest, first, second, prefix, threshold, fps);
        let a = with_markers(markers, rest, first, prefix, threshold, fps);
        let b = with_markers(markers, rest, second, prefix, threshold, fps);
        let at = marker_slot(a, cuts[n]);
        lemma_slot_without_ids(a, b, cuts[n]);
        lemma_slot_fits(a, cuts[n]);
        lemma_slot_fits(b, cuts[n]);
        let one = scene_marker(first[n], cuts[n], n, prefix, threshold, fps);
        let two = scene_marker(second[n], cuts[n], n, prefix, threshold, fps);
        let bare = MarkerText { id: seq![], ..one };
        assert(without_ids(a.insert(at, one)) =~= without_ids(a).insert(at, bare));
        assert(without_ids(b.insert(at, two)) =~= without_ids(b).insert(at, bare));
    }
}

/// A second run that replaces what the first one left makes the same markers again, but for their
/// ids.
pub proof fn law_marking_scenes_again_changes_nothing(
    before: Seq<Marker>,
    once: Seq<Marker>,
    twice: Seq<Marker>,
    cuts: Seq<Time>,
    first: Seq<Seq<char>>,
    second: Seq<Seq<char>>,
    prefix: Seq<char>,
    threshold: Seq<char>,
    fps: Fps,
)
    requires
        marker_views(once) == with_markers(
            marker_views(kept_markers(before, prefix)),
            cuts,
            first,
            prefix,
            threshold,
            fps,
        ),
        marker_views(twice) == with_markers(
            marker_views(kept_markers(once, prefix)),
            cuts,
            second,
            prefix,
            threshold,
            fps,
        ),
    ensures
        without_ids(marker_views(twice)) == without_ids(marker_views(once)),
{
    let start = marker_views(kept_markers(before, prefix));
    lemma_kept_views(before, prefix);
    lemma_kept_views(once, prefix);
    lemma_kept_before(start, cuts, first, prefix, threshold, fps);
    lemma_kept_twice(marker_views(before), prefix);
    lemma_other_ids(start, cuts, first, second, prefix, threshold, fps);
}

} // verus!
