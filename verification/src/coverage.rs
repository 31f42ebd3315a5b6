//! What a sequence plays when, and where it plays nothing.

use crate::project::{Clip, Sequence, Track, TrackKind};
use crate::span::lemma_lt_trans;
use crate::time::{Span, Time};
use vstd::prelude::*;

verus! {

pub open spec fn clips_wf(clips: Seq<Clip>) -> bool {
    forall|i: int| 0 <= i < clips.len() ==> (#[trigger] clips[i]).wf()
}

pub open spec fn cues_sane(track: Track) -> bool {
    forall|i: int| 0 <= i < track.cues@.len() ==> (#[trigger] track.cues@[i]).span.wf()
}

pub open spec fn track_sane(track: Track) -> bool {
    clips_wf(track.clips@) && cues_sane(track)
}

/// Whether every instant of a sequence is a number and every end can be stored.
pub open spec fn sequence_sane(sequence: Sequence) -> bool {
    &&& sequence.fps.wf()
    &&& forall|t: int| 0 <= t < sequence.tracks@.len() ==> track_sane(#[trigger] sequence.tracks@[t])
}

/// The stretch a clip is on the timeline for.
pub open spec fn clip_span(clip: Clip) -> Span {
    Span { start: clip.start, end: clip.spec_end() }
}

impl Clip {
    /// The stretch this clip is on the timeline for.
    pub fn span(&self) -> (r: Span)
        requires
            self.wf(),
        ensures
            r == clip_span(*self),
            r.wf(),
    {
        Span { start: self.start, end: self.end() }
    }
}

// ---------------------------------------------------------------------------
// Duration
// ---------------------------------------------------------------------------

/// The latest end of some clips, and zero where there is none.
pub open spec fn clips_end(clips: Seq<Clip>) -> Time
    decreases clips.len(),
{
    if clips.len() == 0 {
        Time::zero_spec()
    } else {
        clips_end(clips.drop_last()).spec_max(clips.last().spec_end())
    }
}

/// The latest end of some cues.
pub open spec fn cues_end(cues: Seq<crate::project::CaptionCue>) -> Time
    decreases cues.len(),
{
    if cues.len() == 0 {
        Time::zero_spec()
    } else {
        cues_end(cues.drop_last()).spec_max(cues.last().span.end)
    }
}

pub open spec fn tracks_end(tracks: Seq<Track>) -> Time
    decreases tracks.len(),
{
    if tracks.len() == 0 {
        Time::zero_spec()
    } else {
        tracks_end(tracks.drop_last()).spec_max(
            clips_end(tracks.last().clips@).spec_max(cues_end(tracks.last().cues@)),
        )
    }
}

fn last_clip_end(clips: &Vec<Clip>) -> (r: Time)
    requires
        clips_wf(clips@),
    ensures
        r == clips_end(clips@),
        r.wf(),
{
    let mut end = Time::zero();
    let mut i: usize = 0;
    assert(clips@.take(0) =~= seq![]);
    while i < clips.len()
        invariant
            i <= clips@.len(),
            clips_wf(clips@),
            end.wf(),
            end == clips_end(clips@.take(i as int)),
        decreases clips@.len() - i,
    {
        assert(clips@.take(i + 1).drop_last() =~= clips@.take(i as int));
        assert(clips@[i as int].wf());
        end = end.max(clips[i].end());
        i = i + 1;
    }
    assert(clips@.take(i as int) =~= clips@);
    end
}

fn last_cue_end(cues: &Vec<crate::project::CaptionCue>) -> (r: Time)
    requires
        forall|i: int| 0 <= i < cues@.len() ==> (#[trigger] cues@[i]).span.wf(),
    ensures
        r == cues_end(cues@),
        r.wf(),
{
    let mut end = Time::zero();
    let mut i: usize = 0;
    assert(cues@.take(0) =~= seq![]);
    while i < cues.len()
        invariant
            i <= cues@.len(),
            forall|i: int| 0 <= i < cues@.len() ==> (#[trigger] cues@[i]).span.wf(),
            end.wf(),
            end == cues_end(cues@.take(i as int)),
        decreases cues@.len() - i,
    {
        assert(cues@.take(i + 1).drop_last() =~= cues@.take(i as int));
        assert(cues@[i as int].span.wf());
        end = end.max(cues[i].span.end);
        i = i + 1;
    }
    assert(cues@.take(i as int) =~= cues@);
    end
}

impl Sequence {
    /// When everything on the timeline is over.
    pub fn duration(&self) -> (r: Time)
        requires
            sequence_sane(*self),
        ensures
            r == tracks_end(self.tracks@),
            r.wf(),
    {
        let mut end = Time::zero();
        let mut i: usize = 0;
        assert(self.tracks@.take(0) =~= seq![]);
        while i < self.tracks.len()
            invariant
                i <= self.tracks@.len(),
                sequence_sane(*self),
                end.wf(),
                end == tracks_end(self.tracks@.take(i as int)),
            decreases self.tracks@.len() - i,
        {
            assert(self.tracks@.take(i + 1).drop_last() =~= self.tracks@.take(i as int));
            assert(track_sane(self.tracks@[i as int]));
            let clips = last_clip_end(&self.tracks[i].clips);
            let cues = last_cue_end(&self.tracks[i].cues);
            end = end.max(clips.max(cues));
            i = i + 1;
        }
        assert(self.tracks@.take(i as int) =~= self.tracks@);
        end
    }
}

// ---------------------------------------------------------------------------
// Holes
// ---------------------------------------------------------------------------

/// A stretch as a list, which is empty where the stretch is.
pub open spec fn unless_empty(span: Span) -> Seq<Span> {
    if span.empty() {
        seq![]
    } else {
        seq![span]
    }
}

/// The holes before and between clips.
pub open spec fn holes_between(clips: Seq<Clip>) -> Seq<Span>
    decreases clips.len(),
{
    if clips.len() == 0 {
        seq![]
    } else {
        holes_between(clips.drop_last()) + unless_empty(
            Span { start: clips_end(clips.drop_last()), end: clips.last().start },
        )
    }
}

/// The holes of a track up to an end.
pub open spec fn holes(clips: Seq<Clip>, end: Time) -> Seq<Span> {
    holes_between(clips) + unless_empty(Span { start: clips_end(clips), end })
}

/// What is left of a stretch that something covers part of.
pub open spec fn left_of(piece: Span, cover: Span) -> Seq<Span> {
    if piece.shared(cover).empty() {
        seq![piece]
    } else {
        unless_empty(Span { start: piece.start, end: cover.start }) + unless_empty(
            Span { start: cover.end, end: piece.end },
        )
    }
}

pub open spec fn minus_cover(pieces: Seq<Span>, cover: Span) -> Seq<Span>
    decreases pieces.len(),
{
    if pieces.len() == 0 {
        seq![]
    } else {
        minus_cover(pieces.drop_last(), cover) + left_of(pieces.last(), cover)
    }
}

/// What clips leave of some stretches.
pub open spec fn minus_clips(pieces: Seq<Span>, clips: Seq<Clip>) -> Seq<Span>
    decreases clips.len(),
{
    if clips.len() == 0 {
        pieces
    } else {
        minus_cover(minus_clips(pieces, clips.drop_last()), clip_span(clips.last()))
    }
}

/// What the tracks of a kind leave, all but the one at `skip`.
pub open spec fn minus_tracks(
    pieces: Seq<Span>,
    tracks: Seq<Track>,
    kind: TrackKind,
    skip: int,
) -> Seq<Span>
    decreases tracks.len(),
{
    if tracks.len() == 0 {
        pieces
    } else {
        let before = minus_tracks(pieces, tracks.drop_last(), kind, skip);
        if tracks.last().kind == kind && tracks.len() - 1 != skip {
            minus_clips(before, tracks.last().clips@)
        } else {
            before
        }
    }
}

/// The holes of a track that no other track of its kind covers.
pub open spec fn uncovered(sequence: Sequence, track: int) -> Seq<Span> {
    let tracks = sequence.tracks@;
    minus_tracks(
        holes(tracks[track].clips@, tracks_end(tracks)),
        tracks,
        tracks[track].kind,
        track,
    )
}

pub open spec fn spans_wf(spans: Seq<Span>) -> bool {
    forall|i: int| 0 <= i < spans.len() ==> (#[trigger] spans[i]).wf()
}

fn push_unless_empty(out: &mut Vec<Span>, span: Span)
    requires
        span.wf(),
        spans_wf(old(out)@),
    ensures
        final(out)@ == old(out)@ + unless_empty(span),
        spans_wf(final(out)@),
{
    if !span.is_empty() {
        out.push(span);
    }
    assert(out@ =~= old(out)@ + unless_empty(span));
}

impl Track {
    /// The holes of this track up to an end.
    pub fn gaps(&self, end: Time) -> (r: Vec<Span>)
        requires
            clips_wf(self.clips@),
            end.wf(),
        ensures
            r@ == holes(self.clips@, end),
            spans_wf(r@),
    {
        let mut out: Vec<Span> = Vec::new();
        let mut cursor = Time::zero();
        let mut i: usize = 0;
        assert(self.clips@.take(0) =~= seq![]);
        while i < self.clips.len()
            invariant
                i <= self.clips@.len(),
                clips_wf(self.clips@),
                cursor.wf(),
                cursor == clips_end(self.clips@.take(i as int)),
                out@ == holes_between(self.clips@.take(i as int)),
                spans_wf(out@),
            decreases self.clips@.len() - i,
        {
            assert(self.clips@.take(i + 1).drop_last() =~= self.clips@.take(i as int));
            assert(self.clips@[i as int].wf());
            push_unless_empty(&mut out, Span { start: cursor, end: self.clips[i].start });
            cursor = cursor.max(self.clips[i].end());
            i = i + 1;
        }
        assert(self.clips@.take(i as int) =~= self.clips@);
        push_unless_empty(&mut out, Span { start: cursor, end });
        out
    }
}

fn without_cover(pieces: &Vec<Span>, cover: Span) -> (r: Vec<Span>)
    requires
        spans_wf(pieces@),
        cover.wf(),
    ensures
        r@ == minus_cover(pieces@, cover),
        spans_wf(r@),
{
    let mut out: Vec<Span> = Vec::new();
    let mut i: usize = 0;
    assert(pieces@.take(0) =~= seq![]);
    while i < pieces.len()
        invariant
            i <= pieces@.len(),
            spans_wf(pieces@),
            cover.wf(),
            out@ == minus_cover(pieces@.take(i as int), cover),
            spans_wf(out@),
        decreases pieces@.len() - i,
    {
        let ghost before = out@;
        assert(pieces@.take(i + 1).drop_last() =~= pieces@.take(i as int));
        let piece = pieces[i];
        assert(pieces@[i as int].wf());
        if piece.overlaps(&cover) {
            push_unless_empty(&mut out, Span { start: piece.start, end: cover.start });
            push_unless_empty(&mut out, Span { start: cover.end, end: piece.end });
        } else {
            out.push(piece);
        }
        assert(out@ =~= before + left_of(piece, cover));
        i = i + 1;
    }
    assert(pieces@.take(i as int) =~= pieces@);
    out
}

fn without_clips(pieces: Vec<Span>, clips: &Vec<Clip>) -> (r: Vec<Span>)
    requires
        spans_wf(pieces@),
        clips_wf(clips@),
    ensures
        r@ == minus_clips(pieces@, clips@),
        spans_wf(r@),
{
    let ghost start = pieces@;
    let mut out = pieces;
    let mut i: usize = 0;
    assert(clips@.take(0) =~= seq![]);
    while i < clips.len()
        invariant
            i <= clips@.len(),
            clips_wf(clips@),
            out@ == minus_clips(start, clips@.take(i as int)),
            spans_wf(out@),
        decreases clips@.len() - i,
    {
        assert(clips@.take(i + 1).drop_last() =~= clips@.take(i as int));
        assert(clips@[i as int].wf());
        out = without_cover(&out, clips[i].span());
        i = i + 1;
    }
    assert(clips@.take(i as int) =~= clips@);
    out
}

impl Sequence {
    /// The holes of a track that no other track of its kind covers: what is seen as black, or
    /// heard as silence.
    pub fn uncovered_gaps(&self, track: usize) -> (r: Vec<Span>)
        requires
            sequence_sane(*self),
            track < self.tracks@.len(),
        ensures
            r@ == uncovered(*self, track as int),
            spans_wf(r@),
    {
        assert(track_sane(self.tracks@[track as int]));
        let mut out = self.tracks[track].gaps(self.duration());
        let ghost start = out@;
        let kind = self.tracks[track].kind;
        let mut i: usize = 0;
        assert(self.tracks@.take(0) =~= seq![]);
        while i < self.tracks.len()
            invariant
                i <= self.tracks@.len(),
                sequence_sane(*self),
                track < self.tracks@.len(),
                kind == self.tracks@[track as int].kind,
                out@ == minus_tracks(start, self.tracks@.take(i as int), kind, track as int),
                spans_wf(out@),
            decreases self.tracks@.len() - i,
        {
            assert(self.tracks@.take(i + 1).drop_last() =~= self.tracks@.take(i as int));
            assert(track_sane(self.tracks@[i as int]));
            if self.tracks[i].kind == kind && i != track {
                out = without_clips(out, &self.tracks[i].clips);
            }
            i = i + 1;
        }
        assert(self.tracks@.take(i as int) =~= self.tracks@);
        out
    }
}

// ---------------------------------------------------------------------------
// What the holes are
// ---------------------------------------------------------------------------

/// Whether an instant lies in one of some stretches.
pub open spec fn in_some(spans: Seq<Span>, at: Time) -> bool {
    exists|i: int| 0 <= i < spans.len() && (#[trigger] spans[i]).holds(at)
}

/// Whether some clip plays at an instant.
pub open spec fn plays(clips: Seq<Clip>, at: Time) -> bool {
    exists|i: int| 0 <= i < clips.len() && clip_span(#[trigger] clips[i]).holds(at)
}

proof fn lemma_in_sum(a: Seq<Span>, b: Seq<Span>, at: Time)
    ensures
        in_some(a + b, at) <==> in_some(a, at) || in_some(b, at),
{
    if in_some(a, at) {
        let i = choose|i: int| 0 <= i < a.len() && (#[trigger] a[i]).holds(at);
        assert((a + b)[i].holds(at));
    }
    if in_some(b, at) {
        let i = choose|i: int| 0 <= i < b.len() && (#[trigger] b[i]).holds(at);
        assert((a + b)[a.len() + i].holds(at));
    }
    if in_some(a + b, at) {
        let i = choose|i: int| 0 <= i < (a + b).len() && (#[trigger] (a + b)[i]).holds(at);
        if i < a.len() {
            assert(a[i].holds(at));
        } else {
            assert(b[i - a.len()].holds(at));
        }
    }
}

proof fn lemma_in_one(span: Span, at: Time)
    requires
        span.wf(),
        at.wf(),
    ensures
        in_some(unless_empty(span), at) <==> span.holds(at),
        in_some(seq![span], at) <==> span.holds(at),
{
    lemma_lt_trans(span.start, at, span.end);
    if span.holds(at) {
        assert(seq![span][0].holds(at));
        assert(unless_empty(span)[0].holds(at));
    }
}

proof fn lemma_left_of(piece: Span, cover: Span, at: Time)
    requires
        piece.wf(),
        cover.wf(),
        at.wf(),
    ensures
        in_some(left_of(piece, cover), at) <==> piece.holds(at) && !cover.holds(at),
        spans_wf(left_of(piece, cover)),
{
    crate::span::law_shared_is_what_lies_in_both(piece, cover, at);
    let shared = piece.shared(cover);
    lemma_lt_trans(shared.start, at, shared.end);
    lemma_in_one(piece, at);
    if !shared.empty() {
        let a = Span { start: piece.start, end: cover.start };
        let b = Span { start: cover.end, end: piece.end };
        lemma_in_sum(unless_empty(a), unless_empty(b), at);
        lemma_in_one(a, at);
        lemma_in_one(b, at);
        // The cover begins before the piece ends, and ends after the piece begins.
        lemma_lt_trans(shared.start, shared.end, piece.end);
        lemma_lt_trans(shared.start, shared.end, cover.end);
        lemma_lt_trans(cover.start, shared.start, piece.end);
        lemma_lt_trans(piece.start, shared.start, cover.end);
        lemma_lt_trans(at, cover.start, piece.end);
        lemma_lt_trans(piece.start, cover.end, at);
    }
}

proof fn lemma_minus_cover(pieces: Seq<Span>, cover: Span, at: Time)
    requires
        spans_wf(pieces),
        cover.wf(),
        at.wf(),
    ensures
        in_some(minus_cover(pieces, cover), at) <==> in_some(pieces, at) && !cover.holds(at),
        spans_wf(minus_cover(pieces, cover)),
    decreases pieces.len(),
{
    if pieces.len() > 0 {
        let rest = pieces.drop_last();
        assert forall|i: int| 0 <= i < rest.len() implies (#[trigger] rest[i]).wf() by {
            assert(pieces[i].wf());
        }
        lemma_minus_cover(rest, cover, at);
        assert(pieces[pieces.len() - 1].wf());
        lemma_left_of(pieces.last(), cover, at);
        lemma_in_sum(minus_cover(rest, cover), left_of(pieces.last(), cover), at);
        lemma_in_sum(rest, seq![pieces.last()], at);
        lemma_in_one(pieces.last(), at);
        assert(pieces =~= rest + seq![pieces.last()]);
    }
}

proof fn lemma_minus_clips(pieces: Seq<Span>, clips: Seq<Clip>, at: Time)
    requires
        spans_wf(pieces),
        clips_wf(clips),
        at.wf(),
    ensures
        in_some(minus_clips(pieces, clips), at) <==> in_some(pieces, at) && !plays(clips, at),
        spans_wf(minus_clips(pieces, clips)),
    decreases clips.len(),
{
    if clips.len() > 0 {
        let rest = clips.drop_last();
        assert forall|i: int| 0 <= i < rest.len() implies (#[trigger] rest[i]).wf() by {
            assert(clips[i].wf());
        }
        lemma_minus_clips(pieces, rest, at);
        assert(clips[clips.len() - 1].wf());
        lemma_end_wf(clips.last());
        lemma_minus_cover(minus_clips(pieces, rest), clip_span(clips.last()), at);
        lemma_plays(clips, at);
    }
}

proof fn lemma_end_wf(clip: Clip)
    requires
        clip.wf(),
    ensures
        clip.spec_end().wf(),
{
    let n = clip.start.secs.num * clip.duration.secs.den + clip.duration.secs.num
        * clip.start.secs.den;
    let d = clip.start.secs.den * clip.duration.secs.den;
    crate::rational::lemma_product_positive(
        clip.start.secs.den as int,
        clip.duration.secs.den as int,
    );
    crate::rational::Rat::lemma_of(n, d);
}

proof fn lemma_plays(clips: Seq<Clip>, at: Time)
    requires
        clips.len() > 0,
    ensures
        plays(clips, at) <==> plays(clips.drop_last(), at) || clip_span(clips.last()).holds(at),
{
    let rest = clips.drop_last();
    if plays(clips, at) {
        let i = choose|i: int| 0 <= i < clips.len() && clip_span(#[trigger] clips[i]).holds(at);
        if i < rest.len() {
            assert(clip_span(rest[i]).holds(at));
        }
    }
    if plays(rest, at) {
        let i = choose|i: int| 0 <= i < rest.len() && clip_span(#[trigger] rest[i]).holds(at);
        assert(clip_span(clips[i]).holds(at));
    }
    if clip_span(clips.last()).holds(at) {
        assert(clip_span(clips[clips.len() - 1]).holds(at));
    }
}

/// Whether clips stand in order and none has a negative length.
pub open spec fn in_order(clips: Seq<Clip>) -> bool {
    &&& forall|i: int|
        0 <= i < clips.len() ==> (#[trigger] clips[i]).start.le(clips[i].spec_end())
    &&& forall|i: int, j: int|
        0 <= i < j < clips.len() ==> (#[trigger] clips[i]).start.le((#[trigger] clips[j]).start)
}

proof fn lemma_clips_end(clips: Seq<Clip>, at: Time)
    requires
        clips_wf(clips),
        at.wf(),
    ensures
        clips_end(clips).wf(),
        Time::zero_spec().le(clips_end(clips)),
        clips_end(clips).le(at) ==> !plays(clips, at),
        forall|i: int|
            0 <= i < clips.len() ==> (#[trigger] clips[i]).spec_end().le(clips_end(clips)),
    decreases clips.len(),
{
    if clips.len() > 0 {
        let rest = clips.drop_last();
        assert forall|i: int| 0 <= i < rest.len() implies (#[trigger] rest[i]).wf() by {
            assert(clips[i].wf());
        }
        lemma_clips_end(rest, at);
        assert(clips[clips.len() - 1].wf());
        lemma_end_wf(clips.last());
        let before = clips_end(rest);
        let end = clips.last().spec_end();
        let max = clips_end(clips);
        lemma_lt_trans(Time::zero_spec(), before, max);
        lemma_lt_trans(before, max, at);
        lemma_lt_trans(end, max, at);
        lemma_lt_trans(at, end, at);
        lemma_plays(clips, at);
        assert forall|i: int| 0 <= i < clips.len() implies (#[trigger] clips[i]).spec_end().le(
            max,
        ) by {
            if i < rest.len() {
                assert(rest[i] == clips[i]);
                assert(clips[i].wf());
                lemma_end_wf(clips[i]);
                lemma_lt_trans(clips[i].spec_end(), before, max);
            }
        }
    }
}

proof fn lemma_holes_between(clips: Seq<Clip>, at: Time)
    requires
        clips_wf(clips),
        in_order(clips),
        at.wf(),
    ensures
        spans_wf(holes_between(clips)),
        in_some(holes_between(clips), at) <==> {
            &&& Time::zero_spec().le(at)
            &&& at.lt(clips_end(clips))
            &&& !plays(clips, at)
        },
    decreases clips.len(),
{
    lemma_clips_end(clips, at);
    if clips.len() > 0 {
        let rest = clips.drop_last();
        assert forall|i: int| 0 <= i < rest.len() implies (#[trigger] rest[i]).wf() by {
            assert(clips[i].wf());
        }
        assert(in_order(rest)) by {
            assert forall|i: int| 0 <= i < rest.len() implies (#[trigger] rest[i]).start.le(
                rest[i].spec_end(),
            ) by {
                assert(clips[i].start.le(clips[i].spec_end()));
            }
            assert forall|i: int, j: int| 0 <= i < j < rest.len() implies (
            #[trigger] rest[i]).start.le((#[trigger] rest[j]).start) by {
                assert(clips[i].start.le(clips[j].start));
            }
        }
        lemma_holes_between(rest, at);
        lemma_clips_end(rest, at);
        let last = clips.last();
        assert(clips[clips.len() - 1].wf());
        lemma_end_wf(last);
        let cursor = clips_end(rest);
        let hole = Span { start: cursor, end: last.start };
        lemma_in_sum(holes_between(rest), unless_empty(hole), at);
        lemma_in_one(hole, at);
        lemma_plays(clips, at);
        let end = clips_end(clips);
        assert(clips[clips.len() - 1].start.le(last.spec_end()));
        // before the cursor: the rest decides; the last clip starts no earlier than the others
        if at.lt(cursor) {
            lemma_lt_trans(at, cursor, end);
            if clip_span(last).holds(at) && in_some(holes_between(rest), at) {
                // some clip of the rest plays behind `at` and started no later than the last
                lemma_cursor_reached(rest, at);
                let i = choose|i: int|
                    0 <= i < rest.len() && at.lt((#[trigger] rest[i]).spec_end());
                assert(clips[i].start.le(clips[clips.len() - 1].start));
                assert(clips[i].wf());
                lemma_lt_trans(clips[i].start, last.start, at);
                assert(clip_span(rest[i]).holds(at));
                assert(false);
            }
        } else {
            assert(cursor.le(at));
            lemma_lt_trans(Time::zero_spec(), cursor, at);
            lemma_lt_trans(at, last.start, last.spec_end());
            lemma_lt_trans(at, last.spec_end(), end);
        }
    }
}

proof fn lemma_cursor_reached(clips: Seq<Clip>, at: Time)
    requires
        clips_wf(clips),
        at.wf(),
        at.lt(clips_end(clips)),
        Time::zero_spec().le(at),
    ensures
        exists|i: int| 0 <= i < clips.len() && at.lt((#[trigger] clips[i]).spec_end()),
    decreases clips.len(),
{
    if clips.len() > 0 {
        let rest = clips.drop_last();
        assert forall|i: int| 0 <= i < rest.len() implies (#[trigger] rest[i]).wf() by {
            assert(clips[i].wf());
        }
        if at.lt(clips.last().spec_end()) {
            assert(at.lt(clips[clips.len() - 1].spec_end()));
        } else {
            lemma_cursor_reached(rest, at);
            let i = choose|i: int| 0 <= i < rest.len() && at.lt((#[trigger] rest[i]).spec_end());
            assert(at.lt(clips[i].spec_end()));
        }
    }
}

/// A track's holes are exactly the instants of the timeline at which nothing on it plays.
pub proof fn law_holes_are_where_nothing_plays(clips: Seq<Clip>, end: Time, at: Time)
    requires
        clips_wf(clips),
        in_order(clips),
        end.wf(),
        at.wf(),
        clips_end(clips).le(end),
    ensures
        in_some(holes(clips, end), at) <==> {
            &&& Time::zero_spec().le(at)
            &&& at.lt(end)
            &&& !plays(clips, at)
        },
        spans_wf(holes(clips, end)),
{
    lemma_holes_between(clips, at);
    lemma_clips_end(clips, at);
    let cursor = clips_end(clips);
    let tail = Span { start: cursor, end };
    lemma_in_sum(holes_between(clips), unless_empty(tail), at);
    lemma_in_one(tail, at);
    lemma_lt_trans(at, cursor, end);
    lemma_lt_trans(Time::zero_spec(), cursor, at);
}

/// Whether a clip of another track of a kind plays at an instant.
pub open spec fn plays_elsewhere(tracks: Seq<Track>, kind: TrackKind, skip: int, at: Time) -> bool {
    exists|t: int|
        0 <= t < tracks.len() && t != skip && tracks[t].kind == kind && plays(
            (#[trigger] tracks[t]).clips@,
            at,
        )
}

proof fn lemma_minus_tracks(
    pieces: Seq<Span>,
    tracks: Seq<Track>,
    kind: TrackKind,
    skip: int,
    at: Time,
)
    requires
        spans_wf(pieces),
        forall|t: int| 0 <= t < tracks.len() ==> track_sane(#[trigger] tracks[t]),
        at.wf(),
    ensures
        spans_wf(minus_tracks(pieces, tracks, kind, skip)),
        in_some(minus_tracks(pieces, tracks, kind, skip), at) <==> in_some(pieces, at)
            && !plays_elsewhere(tracks, kind, skip, at),
    decreases tracks.len(),
{
    if tracks.len() > 0 {
        let rest = tracks.drop_last();
        assert forall|t: int| 0 <= t < rest.len() implies track_sane(#[trigger] rest[t]) by {
            assert(track_sane(tracks[t]));
        }
        lemma_minus_tracks(pieces, rest, kind, skip, at);
        let n = tracks.len() - 1;
        assert(track_sane(tracks[n]));
        lemma_minus_clips(minus_tracks(pieces, rest, kind, skip), tracks[n].clips@, at);
        if plays_elsewhere(rest, kind, skip, at) {
            let t = choose|t: int|
                0 <= t < rest.len() && t != skip && rest[t].kind == kind && plays(
                    (#[trigger] rest[t]).clips@,
                    at,
                );
            assert(plays(tracks[t].clips@, at));
        }
        if plays_elsewhere(tracks, kind, skip, at) {
            let t = choose|t: int|
                0 <= t < tracks.len() && t != skip && tracks[t].kind == kind && plays(
                    (#[trigger] tracks[t]).clips@,
                    at,
                );
            if t < n {
                assert(plays(rest[t].clips@, at));
            }
        }
    }
}

/// A gap that is reported is exactly where a track plays nothing and no other track of its
/// kind plays either: an overlay that is absent over a covered stretch is not one.
pub proof fn law_gaps_are_what_nothing_covers(sequence: Sequence, track: int, at: Time)
    requires
        sequence_sane(sequence),
        0 <= track < sequence.tracks@.len(),
        in_order(sequence.tracks@[track].clips@),
        at.wf(),
    ensures
        in_some(uncovered(sequence, track), at) <==> {
            &&& Time::zero_spec().le(at)
            &&& at.lt(tracks_end(sequence.tracks@))
            &&& !plays(sequence.tracks@[track].clips@, at)
            &&& !plays_elsewhere(
                sequence.tracks@,
                sequence.tracks@[track].kind,
                track,
                at,
            )
        },
{
    let tracks = sequence.tracks@;
    assert(track_sane(tracks[track]));
    lemma_tracks_end(tracks, track);
    law_holes_are_where_nothing_plays(tracks[track].clips@, tracks_end(tracks), at);
    lemma_minus_tracks(
        holes(tracks[track].clips@, tracks_end(tracks)),
        tracks,
        tracks[track].kind,
        track,
        at,
    );
}

proof fn lemma_cues_end(cues: Seq<crate::project::CaptionCue>)
    requires
        forall|i: int| 0 <= i < cues.len() ==> (#[trigger] cues[i]).span.wf(),
    ensures
        cues_end(cues).wf(),
    decreases cues.len(),
{
    if cues.len() > 0 {
        assert forall|i: int| 0 <= i < cues.drop_last().len() implies (
        #[trigger] cues.drop_last()[i]).span.wf() by {
            assert(cues[i].span.wf());
        }
        lemma_cues_end(cues.drop_last());
        assert(cues[cues.len() - 1].span.wf());
    }
}

proof fn lemma_tracks_end(tracks: Seq<Track>, track: int)
    requires
        forall|t: int| 0 <= t < tracks.len() ==> track_sane(#[trigger] tracks[t]),
    ensures
        tracks_end(tracks).wf(),
        0 <= track < tracks.len() ==> clips_end(tracks[track].clips@).le(tracks_end(tracks)),
    decreases tracks.len(),
{
    if tracks.len() > 0 {
        let rest = tracks.drop_last();
        assert forall|t: int| 0 <= t < rest.len() implies track_sane(#[trigger] rest[t]) by {
            assert(track_sane(tracks[t]));
        }
        lemma_tracks_end(rest, track);
        let n = tracks.len() - 1;
        assert(track_sane(tracks[n]));
        lemma_clips_end(tracks[n].clips@, Time::zero_spec());
        lemma_cues_end(tracks[n].cues@);
        let clips = clips_end(tracks[n].clips@);
        let own = clips.spec_max(cues_end(tracks[n].cues@));
        lemma_lt_trans(clips, own, tracks_end(tracks));
        if 0 <= track < n {
            assert(rest[track] == tracks[track]);
            assert(track_sane(tracks[track]));
            lemma_clips_end(tracks[track].clips@, Time::zero_spec());
            lemma_lt_trans(clips_end(tracks[track].clips@), tracks_end(rest), tracks_end(tracks));
        }
    }
}

} // verus!
