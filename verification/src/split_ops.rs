//! Splitting clips at instants.

use crate::coverage::{clip_span, clips_wf, plays};
use crate::error::{Error, ErrorView};
use crate::project::{opt_text, Clip, Effect, Sequence, Source, Track, TrackKind};
use crate::rational::Rat;
use crate::span::lemma_lt_trans;
use crate::text::{copied, strings};
use crate::time::Time;
use crate::timeline::{Warning, WarningView};
use crate::views::{push_view, views};
use vstd::prelude::*;

verus! {

// ---------------------------------------------------------------------------
// Copies
// ---------------------------------------------------------------------------

pub open spec fn same_source(a: Source, b: Source) -> bool {
    match (a, b) {
        (Source::Asset { asset: x }, Source::Asset { asset: y }) => x@ == y@,
        (Source::Image { asset: x }, Source::Image { asset: y }) => x@ == y@,
        (Source::Color { color: x }, Source::Color { color: y }) => x == y,
        (Source::Title { title: x }, Source::Title { title: y }) => x@ == y@,
        (Source::Sequence { sequence: x }, Source::Sequence { sequence: y }) => x@ == y@,
        (Source::Generator { generator: x }, Source::Generator { generator: y }) => x@ == y@,
        _ => false,
    }
}

pub open spec fn same_effects(a: Seq<Effect>, b: Seq<Effect>) -> bool {
    a.len() == b.len() && forall|i: int|
        0 <= i < a.len() ==> (#[trigger] a[i]).kind@ == b[i].kind@ && a[i].enabled == b[i].enabled
            && strings(a[i].params@) == strings(b[i].params@)
}

fn copied_source(source: &Source) -> (r: Source)
    ensures
        same_source(*source, r),
{
    match source {
        Source::Asset { asset } => Source::Asset { asset: asset.as_str().to_owned() },
        Source::Image { asset } => Source::Image { asset: asset.as_str().to_owned() },
        Source::Color { color } => Source::Color { color: *color },
        Source::Title { title } => Source::Title { title: title.as_str().to_owned() },
        Source::Sequence { sequence } => Source::Sequence {
            sequence: sequence.as_str().to_owned(),
        },
        Source::Generator { generator } => Source::Generator {
            generator: generator.as_str().to_owned(),
        },
    }
}

fn copied_effects(effects: &Vec<Effect>) -> (r: Vec<Effect>)
    ensures
        same_effects(effects@, r@),
{
    let mut out: Vec<Effect> = Vec::new();
    let mut i: usize = 0;
    while i < effects.len()
        invariant
            i <= effects@.len(),
            out@.len() == i,
            forall|k: int|
                0 <= k < i ==> (#[trigger] effects@[k]).kind@ == out@[k].kind@
                    && effects@[k].enabled == out@[k].enabled && strings(effects@[k].params@)
                    == strings(out@[k].params@),
        decreases effects@.len() - i,
    {
        let effect = &effects[i];
        out.push(
            Effect {
                kind: effect.kind.as_str().to_owned(),
                enabled: effect.enabled,
                params: copied(&effect.params),
            },
        );
        i = i + 1;
    }
    out
}

fn copied_text(text: &Option<String>) -> (r: Option<String>)
    ensures
        opt_text(r) == opt_text(*text),
{
    match text {
        Some(text) => Some(text.as_str().to_owned()),
        None => None,
    }
}

// ---------------------------------------------------------------------------
// One split
// ---------------------------------------------------------------------------

/// How long the first part is, and how much of the source it reads.
pub open spec fn head_length(clip: Clip, at: Time) -> Time {
    at.spec_minus(clip.start)
}

pub open spec fn tail_length(clip: Clip, at: Time) -> Time {
    clip.spec_end().spec_minus(at)
}

/// Where the first part starts to read: a clip that plays backwards reads the later half first.
pub open spec fn head_in(clip: Clip, at: Time) -> Time {
    if clip.reverse {
        clip.source_in.spec_plus(tail_length(clip, at).spec_times(clip.speed))
    } else {
        clip.source_in
    }
}

pub open spec fn tail_in(clip: Clip, at: Time) -> Time {
    if clip.reverse {
        clip.source_in
    } else {
        clip.source_in.spec_plus(head_length(clip, at).spec_times(clip.speed))
    }
}

/// The first part of a clip that is split.
pub open spec fn is_head(head: Clip, clip: Clip, at: Time) -> bool {
    head == (Clip {
        duration: head_length(clip, at),
        source_in: head_in(clip, at),
        fade_out: Time::zero_spec(),
        ..clip
    })
}

/// The second part: a clip of its own, with what the first one had but its link, and but for
/// how it begins.
pub open spec fn is_tail(tail: Clip, clip: Clip, at: Time, id: Seq<char>) -> bool {
    &&& tail.id@ == id
    &&& opt_text(tail.name) == opt_text(clip.name)
    &&& same_source(clip.source, tail.source)
    &&& tail.start == at
    &&& tail.duration == tail_length(clip, at)
    &&& tail.source_in == tail_in(clip, at)
    &&& tail.speed == clip.speed
    &&& tail.reverse == clip.reverse
    &&& tail.enabled == clip.enabled
    &&& tail.link is None
    &&& tail.transition_in is None
    &&& tail.fade_in == Time::zero_spec()
    &&& tail.fade_out == clip.fade_out
    &&& tail.gain == clip.gain
    &&& tail.pan == clip.pan
    &&& tail.opacity == clip.opacity
    &&& same_effects(clip.effects@, tail.effects@)
    &&& tail.keyframes == clip.keyframes
    &&& tail.transformed == clip.transformed
    &&& opt_text(tail.blend) == opt_text(clip.blend)
    &&& tail.fit@ == clip.fit@
    &&& opt_text(tail.ducking) == opt_text(clip.ducking)
}

/// Whether an instant lies strictly inside a clip. Where it lies on an edge there is a cut
/// already.
pub open spec fn inside(clip: Clip, at: Time) -> bool {
    clip.start.lt(at) && at.lt(clip.spec_end())
}

/// Whether both parts can be stored, and end where they should.
pub open spec fn split_fits(clip: Clip, at: Time) -> bool {
    &&& at.difference_fits(clip.start)
    &&& clip.spec_end().difference_fits(at)
    &&& clip.start.sum_fits(head_length(clip, at))
    &&& at.sum_fits(tail_length(clip, at))
    &&& tail_length(clip, at).product_fits(clip.speed)
    &&& head_length(clip, at).product_fits(clip.speed)
    &&& clip.source_in.sum_fits(tail_length(clip, at).spec_times(clip.speed))
    &&& clip.source_in.sum_fits(head_length(clip, at).spec_times(clip.speed))
}

proof fn lemma_difference(a: Time, b: Time)
    requires
        a.wf(),
        b.wf(),
        a.difference_fits(b),
    ensures
        a.spec_minus(b).wf(),
        a.spec_minus(b).secs.is(
            a.secs.num * b.secs.den - b.secs.num * a.secs.den,
            a.secs.den * b.secs.den,
        ),
{
    crate::rational::lemma_product_positive(a.secs.den as int, b.secs.den as int);
    Rat::lemma_of(
        a.secs.num * b.secs.den - b.secs.num * a.secs.den,
        a.secs.den * b.secs.den,
    );
}

proof fn lemma_sum_value(a: Time, b: Time)
    requires
        a.wf(),
        b.wf(),
        a.sum_fits(b),
    ensures
        a.spec_plus(b).wf(),
        a.spec_plus(b).secs.is(
            a.secs.num * b.secs.den + b.secs.num * a.secs.den,
            a.secs.den * b.secs.den,
        ),
{
    crate::rational::lemma_product_positive(a.secs.den as int, b.secs.den as int);
    Rat::lemma_of(
        a.secs.num * b.secs.den + b.secs.num * a.secs.den,
        a.secs.den * b.secs.den,
    );
}

/// An instant and what is left from there to another add up to the other.
proof fn lemma_there_and_back(from: Time, to: Time)
    requires
        from.wf(),
        to.wf(),
        to.difference_fits(from),
        from.sum_fits(to.spec_minus(from)),
    ensures
        from.spec_plus(to.spec_minus(from)).equals(to),
        from.spec_plus(to.spec_minus(from)).wf(),
{
    let d = to.spec_minus(from);
    lemma_difference(to, from);
    lemma_sum_value(from, d);
    let s = from.spec_plus(d);
    let (fnum, fden) = (from.secs.num as int, from.secs.den as int);
    let (tnum, tden) = (to.secs.num as int, to.secs.den as int);
    let (dnum, dden) = (d.secs.num as int, d.secs.den as int);
    let (snum, sden) = (s.secs.num as int, s.secs.den as int);
    // dnum * (tden * fden) == (tnum * fden - fnum * tden) * dden
    // snum * (fden * dden) == (fnum * dden + dnum * fden) * sden
    let x = snum * tden;
    let y = tnum * sden;
    let w = fden * (fden * dden);
    assert(w > 0) by (nonlinear_arith)
        requires
            fden > 0,
            dden > 0,
            w == fden * (fden * dden),
    ;
    assert(x * w == y * w) by {
        assert(x * w == (snum * (fden * dden)) * (tden * fden)) by (nonlinear_arith)
            requires
                x == snum * tden,
                w == fden * (fden * dden),
        ;
        let p = fnum * dden;
        let q = dnum * fden;
        let r = tden * fden;
        assert(((p + q) * sden) * r == (p * r) * sden + (q * r) * sden) by (nonlinear_arith);
        assert(q * r == (dnum * r) * fden) by (nonlinear_arith)
            requires
                q == dnum * fden,
        ;
        assert(dnum * r == (tnum * fden - fnum * tden) * dden);
        assert(((tnum * fden - fnum * tden) * dden) * fden == (tnum * fden) * (dden * fden) - (fnum
            * tden) * (dden * fden)) by (nonlinear_arith);
        assert(p * r == (fnum * tden) * (dden * fden)) by (nonlinear_arith)
            requires
                p == fnum * dden,
                r == tden * fden,
        ;
        assert(p * r + q * r == (tnum * fden) * (dden * fden));
        assert((p * r) * sden + (q * r) * sden == (p * r + q * r) * sden) by (nonlinear_arith);
        assert(((tnum * fden) * (dden * fden)) * sden == y * w) by (nonlinear_arith)
            requires
                y == tnum * sden,
                w == fden * (fden * dden),
        ;
    }
    assert(x == y) by (nonlinear_arith)
        requires
            x * w == y * w,
            w > 0,
    ;
}

/// The first part ends, and the second begins, at the instant of the split; the second ends
/// where the clip did.
pub proof fn law_parts_meet(clip: Clip, head: Clip, tail: Clip, at: Time, id: Seq<char>)
    requires
        clip.wf(),
        at.wf(),
        split_fits(clip, at),
        is_head(head, clip, at),
        is_tail(tail, clip, at, id),
    ensures
        head.spec_end().equals(at),
        tail.start == at,
        tail.spec_end().equals(clip.spec_end()),
        head.start == clip.start,
        head.wf(),
        tail.wf(),
{
    lemma_sum_value(clip.start, clip.duration);
    lemma_there_and_back(clip.start, at);
    lemma_there_and_back(at, clip.spec_end());
    lemma_difference(at, clip.start);
    lemma_difference(clip.spec_end(), at);
    lemma_times_wf(head_length(clip, at), clip.speed);
    lemma_times_wf(tail_length(clip, at), clip.speed);
    lemma_sum_value(clip.source_in, head_length(clip, at).spec_times(clip.speed));
    lemma_sum_value(clip.source_in, tail_length(clip, at).spec_times(clip.speed));
}

proof fn lemma_times_wf(time: Time, factor: Rat)
    requires
        time.wf(),
        factor.wf(),
        time.product_fits(factor),
    ensures
        time.spec_times(factor).wf(),
{
    crate::rational::lemma_product_positive(time.secs.den as int, factor.den as int);
    Rat::lemma_of(time.secs.num * factor.num, time.secs.den * factor.den);
}

/// A forward clip goes on reading where its first part stopped.
pub proof fn law_the_source_goes_on(clip: Clip, head: Clip, tail: Clip, at: Time, id: Seq<char>)
    requires
        is_head(head, clip, at),
        is_tail(tail, clip, at, id),
        !clip.reverse,
    ensures
        tail.source_in == crate::lint_source::source_end(head),
{
}

/// The parts play exactly when the clip did.
proof fn lemma_parts_play(clip: Clip, head: Clip, tail: Clip, at: Time, id: Seq<char>, t: Time)
    requires
        clip.wf(),
        at.wf(),
        t.wf(),
        split_fits(clip, at),
        is_head(head, clip, at),
        is_tail(tail, clip, at, id),
        inside(clip, at),
    ensures
        clip_span(clip).holds(t) <==> clip_span(head).holds(t) || clip_span(tail).holds(t),
{
    law_parts_meet(clip, head, tail, at, id);
    lemma_sum_value(clip.start, clip.duration);
    lemma_sum_value(head.start, head.duration);
    lemma_sum_value(tail.start, tail.duration);
    let end = clip.spec_end();
    let he = head.spec_end();
    let te = tail.spec_end();
    lemma_lt_trans(t, he, at);
    lemma_lt_trans(t, at, he);
    lemma_lt_trans(t, te, end);
    lemma_lt_trans(t, end, te);
    lemma_lt_trans(t, at, end);
    lemma_lt_trans(clip.start, at, t);
    lemma_lt_trans(t, he, end);
}

/// Splits a clip: it becomes the first part, and the second is given back.
pub fn split_at(clip: &mut Clip, at: Time, id: &str) -> (r: Clip)
    requires
        old(clip).wf(),
        at.wf(),
        split_fits(*old(clip), at),
    ensures
        is_head(*final(clip), *old(clip), at),
        is_tail(r, *old(clip), at, id@),
        final(clip).wf(),
        r.wf(),
{
    let ghost whole = *clip;
    proof {
        lemma_sum_value(whole.start, whole.duration);
    }
    let first = at.minus(&clip.start);
    let second = clip.end().minus(&at);
    let first_reads = first.times(&clip.speed);
    let second_reads = second.times(&clip.speed);
    let later = if clip.reverse {
        clip.source_in
    } else {
        clip.source_in.plus(&first_reads)
    };
    let earlier = if clip.reverse {
        clip.source_in.plus(&second_reads)
    } else {
        clip.source_in
    };
    let tail = Clip {
        id: id.to_owned(),
        name: copied_text(&clip.name),
        source: copied_source(&clip.source),
        start: at,
        duration: second,
        source_in: later,
        speed: clip.speed,
        reverse: clip.reverse,
        enabled: clip.enabled,
        link: None,
        transition_in: None,
        fade_in: Time::zero(),
        fade_out: clip.fade_out,
        gain: clip.gain,
        pan: clip.pan,
        opacity: clip.opacity,
        effects: copied_effects(&clip.effects),
        keyframes: clip.keyframes,
        transformed: clip.transformed,
        blend: copied_text(&clip.blend),
        fit: clip.fit.as_str().to_owned(),
        ducking: copied_text(&clip.ducking),
    };
    clip.duration = first;
    clip.source_in = earlier;
    clip.fade_out = Time::zero();
    proof {
        law_parts_meet(whole, *clip, tail, at, id@);
    }
    tail
}

// ---------------------------------------------------------------------------
// All splits of a track
// ---------------------------------------------------------------------------

/// The first clip that an instant lies strictly inside, or their number.
pub open spec fn first_inside(clips: Seq<Clip>, at: Time) -> int
    decreases clips.len(),
{
    if clips.len() == 0 {
        0
    } else if inside(clips[0], at) {
        0
    } else {
        1 + first_inside(clips.skip(1), at)
    }
}

/// What a split at an instant makes of a track's clips.
pub open spec fn split_step(before: Seq<Clip>, at: Time, id: Seq<char>, after: Seq<Clip>) -> bool {
    let i = first_inside(before, at);
    if i == before.len() {
        after == before
    } else {
        &&& after.len() == before.len() + 1
        &&& split_fits(before[i], at)
        &&& forall|k: int| 0 <= k < i ==> #[trigger] after[k] == before[k]
        &&& is_head(after[i], before[i], at)
        &&& is_tail(after[i + 1], before[i], at, id)
        &&& forall|k: int| i + 1 < k < after.len() ==> #[trigger] after[k] == before[k - 1]
    }
}

/// How a track's clips change when they are split at the last `n` of some instants, one after
/// the other from the end.
pub open spec fn is_chain(
    states: Seq<Seq<Clip>>,
    before: Seq<Clip>,
    cuts: Seq<Time>,
    ids: Seq<Seq<char>>,
    n: int,
) -> bool {
    &&& states.len() == n + 1
    &&& states[0] == before
    &&& forall|k: int|
        0 <= k < n ==> split_step(
            #[trigger] states[k],
            cuts[cuts.len() - 1 - k],
            ids[cuts.len() - 1 - k],
            states[k + 1],
        )
}

/// What splitting at the last `n` of some instants makes of a track's clips.
pub open spec fn split_by(
    before: Seq<Clip>,
    cuts: Seq<Time>,
    ids: Seq<Seq<char>>,
    n: int,
    after: Seq<Clip>,
) -> bool {
    exists|states: Seq<Seq<Clip>>|
        #[trigger] is_chain(states, before, cuts, ids, n) && states[n] == after
}

proof fn lemma_first_inside(clips: Seq<Clip>, at: Time)
    ensures
        0 <= first_inside(clips, at) <= clips.len(),
        first_inside(clips, at) < clips.len() ==> inside(clips[first_inside(clips, at)], at),
        forall|k: int| 0 <= k < first_inside(clips, at) ==> !inside(#[trigger] clips[k], at),
    decreases clips.len(),
{
    if clips.len() > 0 && !inside(clips[0], at) {
        let rest = clips.skip(1);
        lemma_first_inside(rest, at);
        assert forall|k: int| 0 <= k < first_inside(clips, at) implies !inside(
            #[trigger] clips[k],
            at,
        ) by {
            if k > 0 {
                assert(clips[k] == rest[k - 1]);
            }
        }
    }
}

proof fn lemma_first_inside_is(clips: Seq<Clip>, at: Time, i: int)
    requires
        0 <= i <= clips.len(),
        forall|k: int| 0 <= k < i ==> !inside(#[trigger] clips[k], at),
        i < clips.len() ==> inside(clips[i], at),
    ensures
        first_inside(clips, at) == i,
{
    lemma_first_inside(clips, at);
    let f = first_inside(clips, at);
    if f < i {
        assert(inside(clips[f], at));
    } else if i < f {
        assert(!inside(clips[i], at));
    }
}

/// One split of a track.
#[derive(Clone, Debug)]
pub struct Split {
    /// The clip that keeps its id.
    pub source: String,
    /// The clip that is new.
    pub tail: String,
    /// Whether the clip is linked to another: the link stays with the first part.
    pub linked: bool,
}

pub struct SplitView {
    pub source: Seq<char>,
    pub tail: Seq<char>,
    pub linked: bool,
}

impl View for Split {
    type V = SplitView;

    open spec fn view(&self) -> SplitView {
        SplitView { source: self.source@, tail: self.tail@, linked: self.linked }
    }
}

/// What a split at an instant is told as, where there is one.
pub open spec fn told_split(clips: Seq<Clip>, at: Time, id: Seq<char>) -> Seq<SplitView> {
    let i = first_inside(clips, at);
    if i < clips.len() {
        seq![SplitView { source: clips[i].id@, tail: id, linked: clips[i].link is Some }]
    } else {
        seq![]
    }
}

/// What the first `n` steps of a chain are told as, in their order.
pub open spec fn told_splits(
    states: Seq<Seq<Clip>>,
    cuts: Seq<Time>,
    ids: Seq<Seq<char>>,
    n: int,
) -> Seq<SplitView>
    decreases n,
{
    if n <= 0 {
        seq![]
    } else {
        told_splits(states, cuts, ids, n - 1) + told_split(
            states[n - 1],
            cuts[cuts.len() - n],
            ids[cuts.len() - n],
        )
    }
}

/// What splitting at every instant makes of a track's clips, and what is told of it.
pub open spec fn split_and_told(
    before: Seq<Clip>,
    cuts: Seq<Time>,
    ids: Seq<Seq<char>>,
    after: Seq<Clip>,
    told: Seq<SplitView>,
) -> bool {
    exists|states: Seq<Seq<Clip>>|
        {
            &&& #[trigger] is_chain(states, before, cuts, ids, cuts.len() as int)
            &&& states[cuts.len() as int] == after
            &&& told == told_splits(states, cuts, ids, cuts.len() as int)
        }
}

proof fn lemma_told_stays(
    states: Seq<Seq<Clip>>,
    more: Seq<Clip>,
    cuts: Seq<Time>,
    ids: Seq<Seq<char>>,
    n: int,
)
    requires
        n <= states.len(),
    ensures
        told_splits(states.push(more), cuts, ids, n) == told_splits(states, cuts, ids, n),
    decreases n,
{
    if n > 0 {
        lemma_told_stays(states, more, cuts, ids, n - 1);
        assert(states.push(more)[n - 1] == states[n - 1]);
    }
}

pub open spec fn cannot_split(id: Seq<char>, at: Time) -> ErrorView {
    ErrorView::Op("clip '"@ + id + "' cannot be split at "@ + at.text())
}

fn can_split(clip: &Clip, at: &Time) -> (r: bool)
    requires
        clip.wf(),
        at.wf(),
    ensures
        r == split_fits(*clip, *at),
{
    proof {
        lemma_sum_value(clip.start, clip.duration);
    }
    let first = match at.checked_minus(&clip.start) {
        Some(first) => first,
        None => {
            return false;
        },
    };
    let end = clip.end();
    let second = match end.checked_minus(at) {
        Some(second) => second,
        None => {
            return false;
        },
    };
    if clip.start.checked_plus(&first).is_none() || at.checked_plus(&second).is_none() {
        return false;
    }
    match (first.checked_times(&clip.speed), second.checked_times(&clip.speed)) {
        (Some(a), Some(b)) => clip.source_in.checked_plus(&a).is_some()
            && clip.source_in.checked_plus(&b).is_some(),
        _ => false,
    }
}

fn split_once(clips: &mut Vec<Clip>, at: Time, id: &str) -> (r: Result<Option<Split>, Error>)
    requires
        clips_wf(old(clips)@),
        at.wf(),
    ensures
        clips_wf(final(clips)@),
        r is Ok ==> split_step(old(clips)@, at, id@, final(clips)@),
        r is Ok ==> (r->Ok_0 is None <==> first_inside(old(clips)@, at) == old(clips)@.len()),
        (r matches Ok(Some(split)) ==> {
            let clip = old(clips)@[first_inside(old(clips)@, at)];
            split.source@ == clip.id@ && split.tail@ == id@ && split.linked == (clip.link is Some)
        }),
        r is Err ==> *final(clips) == *old(clips),
        r is Err ==> {
            let i = first_inside(old(clips)@, at);
            i < old(clips)@.len() && !split_fits(old(clips)@[i], at) && r->Err_0@ == cannot_split(
                old(clips)@[i].id@,
                at,
            )
        },
{
    let ghost before = clips@;
    let n: usize = clips.len();
    let mut i: usize = 0;
    while i < n
        invariant
            i <= n,
            n == clips@.len(),
            clips@ == before,
            clips_wf(before),
            at.wf(),
            forall|k: int| 0 <= k < i ==> !inside(#[trigger] before[k], at),
        ensures
            i <= n,
            clips@ == before,
            forall|k: int| 0 <= k < i ==> !inside(#[trigger] before[k], at),
            i < n ==> inside(before[i as int], at),
        decreases n - i,
    {
        assert(before[i as int].wf());
        if clips[i].start.before(&at) && at.before(&clips[i].end()) {
            break;
        }
        i = i + 1;
    }
    proof {
        lemma_first_inside_is(before, at, i as int);
    }
    if i == n {
        return Ok(None);
    }
    assert(before[i as int].wf());
    if !can_split(&clips[i], &at) {
        let mut detail = "clip '".to_owned();
        detail.append(clips[i].id.as_str());
        detail.append("' cannot be split at ");
        detail.append(at.to_text().as_str());
        return Err(Error::Op(detail));
    }
    let linked = clips[i].link.is_some();
    let source = clips[i].id.as_str().to_owned();
    let tail = split_at(&mut clips[i], at, id);
    let ghost middle = clips@;
    let ghost made = tail;
    clips.insert(i + 1, tail);
    proof {
        assert(clips@ =~= middle.insert(i + 1, made));
        assert forall|k: int| 0 <= k < clips@.len() implies (#[trigger] clips@[k]).wf() by {
            if k < i {
                assert(clips@[k] == before[k]);
                assert(before[k].wf());
            } else if k > i + 1 {
                assert(clips@[k] == before[k - 1]);
                assert(before[k - 1].wf());
            }
        }
    }
    Ok(Some(Split { source, tail: id.to_owned(), linked }))
}

/// Splits a track's clips at every instant that lies inside one. The instants stand in order;
/// each has an id ready for the clip it may make.
pub fn split_track(clips: &mut Vec<Clip>, cuts: &Vec<Time>, ids: &Vec<String>) -> (r: Result<
    Vec<Split>,
    Error,
>)
    requires
        clips_wf(old(clips)@),
        ids@.len() == cuts@.len(),
        forall|i: int| 0 <= i < cuts@.len() ==> (#[trigger] cuts@[i]).wf(),
    ensures
        clips_wf(final(clips)@),
        r is Ok ==> split_by(
            old(clips)@,
            cuts@,
            strings(ids@),
            cuts@.len() as int,
            final(clips)@,
        ),
        r is Ok ==> split_and_told(
            old(clips)@,
            cuts@,
            strings(ids@),
            final(clips)@,
            views(r->Ok_0@),
        ),
        r is Ok ==> final(clips)@.len() == old(clips)@.len() + r->Ok_0@.len(),
        r is Err ==> exists|n: int|
            #![trigger cuts@[n]]
            {
                &&& 0 <= n < cuts@.len()
                &&& split_by(
                    old(clips)@,
                    cuts@,
                    strings(ids@),
                    cuts@.len() - 1 - n,
                    final(clips)@,
                )
                &&& first_inside(final(clips)@, cuts@[n]) < final(clips)@.len()
                &&& !split_fits(final(clips)@[first_inside(final(clips)@, cuts@[n])], cuts@[n])
                &&& r->Err_0@ == cannot_split(
                    final(clips)@[first_inside(final(clips)@, cuts@[n])].id@,
                    cuts@[n],
                )
            },
{
    let ghost before = clips@;
    let ghost names = strings(ids@);
    let mut out: Vec<Split> = Vec::new();
    let total: usize = cuts.len();
    let mut i: usize = total;
    let ghost mut states: Seq<Seq<Clip>> = seq![before];
    assert(is_chain(states, before, cuts@, names, 0));
    assert(views(out@) =~= seq![]);
    while i > 0
        invariant
            i <= total,
            total == cuts@.len(),
            ids@.len() == total,
            names == strings(ids@),
            clips_wf(clips@),
            forall|k: int| 0 <= k < cuts@.len() ==> (#[trigger] cuts@[k]).wf(),
            is_chain(states, before, cuts@, names, total - i),
            states[total - i] == clips@,
            views(out@) == told_splits(states, cuts@, names, total - i),
            before == old(clips)@,
            clips@.len() == before.len() + out@.len(),
        decreases i,
    {
        let at = cuts[i - 1];
        assert(cuts@[i - 1].wf());
        let ghost mid = clips@;
        proof {
            lemma_first_inside(mid, at);
        }
        match split_once(clips, at, ids[i - 1].as_str()) {
            Err(error) => {
                assert(cuts@[i - 1] == at);
                assert(split_by(before, cuts@, names, cuts@.len() - 1 - (i - 1), clips@));
                return Err(error);
            },
            Ok(split) => {
                proof {
                    assert(names[i - 1] == ids@[i - 1]@);
                    let n = total - i;
                    let grown = states.push(clips@);
                    assert forall|k: int| 0 <= k < n + 1 implies split_step(
                        #[trigger] grown[k],
                        cuts@[total - 1 - k],
                        names[total - 1 - k],
                        grown[k + 1],
                    ) by {
                        if k < n {
                            assert(grown[k] == states[k]);
                            assert(grown[k + 1] == states[k + 1]);
                        } else {
                            assert(grown[k] == mid);
                        }
                    }
                    lemma_told_stays(states, clips@, cuts@, names, n);
                    assert(grown[n] == mid);
                    assert(cuts@.len() - (n + 1) == i - 1);
                    states = grown;
                    assert(is_chain(states, before, cuts@, names, n + 1));
                }
                let ghost so_far = views(out@);
                if let Some(split) = split {
                    push_view(&mut out, split);
                }
                assert(views(out@) =~= so_far + told_split(mid, at, names[i - 1]));
            },
        }
        i = i - 1;
    }
    Ok(out)
}

/// A track plays exactly when it did, however it is split.
pub proof fn law_splitting_keeps_the_timeline(
    before: Seq<Clip>,
    cuts: Seq<Time>,
    ids: Seq<Seq<char>>,
    n: int,
    after: Seq<Clip>,
    t: Time,
)
    requires
        clips_wf(before),
        0 <= n <= cuts.len(),
        forall|i: int| 0 <= i < cuts.len() ==> (#[trigger] cuts[i]).wf(),
        split_by(before, cuts, ids, n, after),
        t.wf(),
    ensures
        plays(after, t) <==> plays(before, t),
        clips_wf(after),
        after.len() >= before.len(),
{
    let states = choose|states: Seq<Seq<Clip>>|
        #[trigger] is_chain(states, before, cuts, ids, n) && states[n] == after;
    lemma_chain_plays(states, before, cuts, ids, n, n, t);
}

proof fn lemma_chain_plays(
    states: Seq<Seq<Clip>>,
    before: Seq<Clip>,
    cuts: Seq<Time>,
    ids: Seq<Seq<char>>,
    n: int,
    k: int,
    t: Time,
)
    requires
        clips_wf(before),
        0 <= k <= n <= cuts.len(),
        forall|i: int| 0 <= i < cuts.len() ==> (#[trigger] cuts[i]).wf(),
        is_chain(states, before, cuts, ids, n),
        t.wf(),
    ensures
        plays(states[k], t) <==> plays(before, t),
        clips_wf(states[k]),
        states[k].len() >= before.len(),
    decreases k,
{
    if k > 0 {
        lemma_chain_plays(states, before, cuts, ids, n, k - 1, t);
        let j = cuts.len() - k;
        assert(cuts[j].wf());
        assert(cuts.len() - 1 - (k - 1) == j);
        assert(split_step(states[k - 1], cuts[j], ids[j], states[k]));
        lemma_step_plays(states[k - 1], cuts[j], ids[j], states[k], t);
    }
}

proof fn lemma_step_plays(before: Seq<Clip>, at: Time, id: Seq<char>, after: Seq<Clip>, t: Time)
    requires
        clips_wf(before),
        at.wf(),
        t.wf(),
        split_step(before, at, id, after),
    ensures
        plays(after, t) <==> plays(before, t),
        clips_wf(after),
        after.len() >= before.len(),
{
    lemma_first_inside(before, at);
    let i = first_inside(before, at);
    if i < before.len() {
        let clip = before[i];
        assert(clip.wf());
        law_parts_meet(clip, after[i], after[i + 1], at, id);
        lemma_parts_play(clip, after[i], after[i + 1], at, id, t);
        assert forall|k: int| 0 <= k < after.len() implies (#[trigger] after[k]).wf() by {
            if k < i {
                assert(after[k] == before[k]);
                assert(before[k].wf());
            } else if k > i + 1 {
                assert(after[k] == before[k - 1]);
                assert(before[k - 1].wf());
            }
        }
        if plays(before, t) {
            let k = choose|k: int|
                0 <= k < before.len() && clip_span(#[trigger] before[k]).holds(t);
            if k < i {
                assert(clip_span(after[k]).holds(t));
            } else if k > i {
                assert(after[k + 1] == before[k]);
                assert(clip_span(after[k + 1]).holds(t));
            } else if clip_span(after[i]).holds(t) {
            } else {
                assert(clip_span(after[i + 1]).holds(t));
            }
        }
        if plays(after, t) {
            let k = choose|k: int| 0 <= k < after.len() && clip_span(#[trigger] after[k]).holds(t);
            if k < i {
                assert(clip_span(before[k]).holds(t));
            } else if k > i + 1 {
                assert(clip_span(before[k - 1]).holds(t));
            } else {
                assert(clip_span(before[i]).holds(t));
            }
        }
    }
}

// ---------------------------------------------------------------------------
// Which tracks are cut
// ---------------------------------------------------------------------------

/// Whether a track is cut when none is named.
pub open spec fn is_cuttable(track: Track) -> bool {
    track.kind == TrackKind::Video && !track.locked
}

pub open spec fn cuttable(tracks: Seq<Track>) -> Seq<int>
    decreases tracks.len(),
{
    if tracks.len() == 0 {
        seq![]
    } else if is_cuttable(tracks.last()) {
        cuttable(tracks.drop_last()).push(tracks.len() - 1)
    } else {
        cuttable(tracks.drop_last())
    }
}

pub open spec fn nothing_to_cut(name: Seq<char>) -> ErrorView {
    ErrorView::Op("sequence '"@ + name + "' has no unlocked video track to cut"@)
}

pub open spec fn positions(found: Seq<usize>) -> Seq<int> {
    found.map_values(|at: usize| at as int)
}

pub open spec fn track_locked(name: Seq<char>) -> ErrorView {
    ErrorView::Op("track '"@ + name + "' is locked"@)
}

/// The first of some tracks that is locked, or their number.
pub open spec fn first_locked(tracks: Seq<Track>, targets: Seq<int>) -> int
    decreases targets.len(),
{
    if targets.len() == 0 || tracks[targets[0]].locked {
        0
    } else {
        1 + first_locked(tracks, targets.skip(1))
    }
}

/// Why some tracks of a sequence cannot be cut: there is none, or one is locked.
pub open spec fn cut_error(sequence: Sequence, targets: Seq<int>) -> Option<ErrorView> {
    let at = first_locked(sequence.tracks@, targets);
    if targets.len() == 0 {
        Some(nothing_to_cut(sequence.name@))
    } else if at < targets.len() {
        Some(track_locked(sequence.tracks@[targets[at]].name@))
    } else {
        None
    }
}

fn nothing(sequence: &Sequence) -> (r: Error)
    ensures
        r@ == nothing_to_cut(sequence.name@),
{
    let mut detail = "sequence '".to_owned();
    detail.append(sequence.name.as_str());
    detail.append("' has no unlocked video track to cut");
    Error::Op(detail)
}

/// Refuses to cut tracks of which one is locked, or none.
pub fn check_targets(sequence: &Sequence, targets: &Vec<usize>) -> (r: Result<(), Error>)
    requires
        forall|i: int| 0 <= i < targets@.len() ==> (#[trigger] targets@[i]) < sequence.tracks@.len(),
    ensures
        r is Err <==> cut_error(*sequence, positions(targets@)) is Some,
        r is Err ==> Some(r->Err_0@) == cut_error(*sequence, positions(targets@)),
{
    if targets.len() == 0 {
        return Err(nothing(sequence));
    }
    let ghost all = positions(targets@);
    let mut i: usize = 0;
    assert(all.skip(0) =~= all);
    while i < targets.len()
        invariant
            i <= targets@.len(),
            targets@.len() > 0,
            all == positions(targets@),
            forall|k: int|
                0 <= k < targets@.len() ==> (#[trigger] targets@[k]) < sequence.tracks@.len(),
            first_locked(sequence.tracks@, all) == i + first_locked(
                sequence.tracks@,
                all.skip(i as int),
            ),
        decreases targets@.len() - i,
    {
        let at: usize = targets[i];
        proof {
            assert(all.skip(i as int)[0] == at);
            assert(all.skip(i as int).skip(1) =~= all.skip(i + 1));
        }
        if sequence.tracks[at].locked {
            let mut detail = "track '".to_owned();
            detail.append(sequence.tracks[at].name.as_str());
            detail.append("' is locked");
            return Err(Error::Op(detail));
        }
        i = i + 1;
    }
    assert(all.skip(i as int).len() == 0);
    Ok(())
}

/// That a link stayed with the first part of a clip.
pub open spec fn link_dropped(tail: Seq<char>) -> WarningView {
    WarningView {
        code: "link-dropped"@,
        target: tail,
        detail: "the a/v pairing stayed with the first half; link the new clip if it needs one"@,
    }
}

pub open spec fn links_dropped(splits: Seq<SplitView>) -> Seq<WarningView>
    decreases splits.len(),
{
    if splits.len() == 0 {
        seq![]
    } else if splits.last().linked {
        links_dropped(splits.drop_last()).push(link_dropped(splits.last().tail))
    } else {
        links_dropped(splits.drop_last())
    }
}

/// Warns of every link that stayed behind when a track was split.
pub fn link_warnings(splits: &Vec<Split>) -> (r: Vec<Warning>)
    ensures
        views(r@) == links_dropped(views(splits@)),
{
    let ghost all = views(splits@);
    let mut out: Vec<Warning> = Vec::new();
    let mut i: usize = 0;
    assert(all.take(0) =~= seq![]);
    assert(views(out@) =~= seq![]);
    while i < splits.len()
        invariant
            i <= splits@.len(),
            all == views(splits@),
            views(out@) == links_dropped(all.take(i as int)),
        decreases splits@.len() - i,
    {
        assert(all.take(i + 1).drop_last() =~= all.take(i as int));
        assert(all.take(i + 1).last() == splits@[i as int]@);
        if splits[i].linked {
            push_view(
                &mut out,
                Warning {
                    code: "link-dropped",
                    target: splits[i].tail.as_str().to_owned(),
                    detail: "the a/v pairing stayed with the first half; link the new clip if it needs one".to_owned(),
                },
            );
        }
        i = i + 1;
    }
    assert(all.take(i as int) =~= all);
    out
}

/// The tracks that are cut where none is named: the video tracks that are not locked.
pub fn tracks_to_cut(sequence: &Sequence) -> (r: Result<Vec<usize>, Error>)
    ensures
        r is Err <==> cuttable(sequence.tracks@).len() == 0,
        r is Err ==> r->Err_0@ == nothing_to_cut(sequence.name@),
        r is Ok ==> positions(r->Ok_0@) == cuttable(sequence.tracks@),
{
    let tracks = &sequence.tracks;
    let mut out: Vec<usize> = Vec::new();
    let mut t: usize = 0;
    assert(tracks@.take(0) =~= seq![]);
    assert(positions(out@) =~= seq![]);
    while t < tracks.len()
        invariant
            t <= tracks@.len(),
            positions(out@) == cuttable(tracks@.take(t as int)),
        decreases tracks@.len() - t,
    {
        assert(tracks@.take(t + 1).drop_last() =~= tracks@.take(t as int));
        assert(tracks@.take(t + 1).last() == tracks@[t as int]);
        if tracks[t].kind == TrackKind::Video && !tracks[t].locked {
            let ghost before = out@;
            out.push(t);
            assert(positions(out@) =~= positions(before).push(t as int));
        }
        t = t + 1;
    }
    assert(tracks@.take(t as int) =~= tracks@);
    assert(positions(out@).len() == out@.len());
    if out.len() == 0 {
        return Err(nothing(sequence));
    }
    Ok(out)
}

} // verus!
