//! Titles in a description: which ones there are, when they are looked at, what fonts they ask
//! for, and where their text ends up.

use crate::lint_title::{is_safe, overflows, PlacedText, TitleMeasurement, TITLE_SAFE_AREA};
use crate::project::{opt_text, Clip, Sequence, Source, Track, TrackKind};
use crate::rational::{round_half_away, rounded, Rat};
use crate::subtitle_laws::lemma_trim_end;
use crate::text::{
    among, chars_of, find, find_text, first_at, fold, folded, has_char, lemma_find,
    lemma_trim_start, same, skip_white, slice_of, split, split_chars, string_of, strings, texts,
    trim, trim_start, trimmed,
};
use crate::time::{Fps, Time};
use crate::views::{push_view, views};
use vstd::prelude::*;

verus! {

// ---------------------------------------------------------------------------
// When a title is looked at
// ---------------------------------------------------------------------------

/// The middle of a clip, on the frame grid. At its start a title may still be fading in.
pub open spec fn midpoint(clip: Clip, fps: Fps) -> Time {
    Time::of_frames(middle(clip).floor_frame(fps), fps)
}

pub open spec fn middle(clip: Clip) -> Time {
    clip.start.spec_plus(clip.duration.spec_times(Rat { num: 1, den: 2 }))
}

/// Whether the middle of a clip can be stored.
pub open spec fn midpoint_fits(clip: Clip, fps: Fps) -> bool {
    &&& clip.wf()
    &&& clip.duration.product_fits(Rat { num: 1, den: 2 })
    &&& clip.start.sum_fits(clip.duration.spec_times(Rat { num: 1, den: 2 }))
    &&& i64::MIN <= middle(clip).floor_frame(fps) <= i64::MAX
    &&& Time::frames_fit(middle(clip).floor_frame(fps), fps)
}

pub fn clip_midpoint(clip: &Clip, fps: Fps) -> (r: Time)
    requires
        fps.wf(),
        midpoint_fits(*clip, fps),
    ensures
        r == midpoint(*clip, fps),
{
    let at = clip.start.plus(&clip.duration.times(&Rat { num: 1, den: 2 }));
    Time::from_frames(at.frame_floor(fps), fps)
}

pub open spec fn shows_title(clip: Clip) -> bool {
    clip.enabled && clip.source is Title
}

/// The title clips of a list, each with the instant it is looked at.
pub open spec fn titles_in(clips: Seq<Clip>, fps: Fps) -> Seq<(Seq<char>, Time)>
    decreases clips.len(),
{
    if clips.len() == 0 {
        seq![]
    } else if shows_title(clips.last()) {
        titles_in(clips.drop_last(), fps).push((clips.last().id@, midpoint(clips.last(), fps)))
    } else {
        titles_in(clips.drop_last(), fps)
    }
}

pub open spec fn title_list(tracks: Seq<Track>, fps: Fps) -> Seq<(Seq<char>, Time)>
    decreases tracks.len(),
{
    if tracks.len() == 0 {
        seq![]
    } else if tracks.last().kind != TrackKind::Audio {
        title_list(tracks.drop_last(), fps) + titles_in(tracks.last().clips@, fps)
    } else {
        title_list(tracks.drop_last(), fps)
    }
}

pub open spec fn pairs(list: Seq<(String, Time)>) -> Seq<(Seq<char>, Time)> {
    list.map_values(|p: (String, Time)| (p.0@, p.1))
}

pub open spec fn title_clips_fit(clips: Seq<Clip>, fps: Fps) -> bool {
    forall|i: int|
        0 <= i < clips.len() ==> (shows_title(#[trigger] clips[i]) ==> midpoint_fits(clips[i], fps))
}

pub open spec fn titles_fit(tracks: Seq<Track>, fps: Fps) -> bool {
    forall|t: int|
        0 <= t < tracks.len() ==> title_clips_fit((#[trigger] tracks[t]).clips@, fps)
}

fn push_titles(out: &mut Vec<(String, Time)>, clips: &Vec<Clip>, fps: Fps)
    requires
        fps.wf(),
        title_clips_fit(clips@, fps),
    ensures
        pairs(final(out)@) == pairs(old(out)@) + titles_in(clips@, fps),
{
    let ghost before = pairs(out@);
    let mut i: usize = 0;
    assert(clips@.take(0) =~= seq![]);
    assert(before + Seq::<(Seq<char>, Time)>::empty() =~= before);
    while i < clips.len()
        invariant
            i <= clips@.len(),
            fps.wf(),
            title_clips_fit(clips@, fps),
            pairs(out@) == before + titles_in(clips@.take(i as int), fps),
        decreases clips@.len() - i,
    {
        let ghost so_far = titles_in(clips@.take(i as int), fps);
        assert(clips@.take(i + 1).drop_last() =~= clips@.take(i as int));
        let clip = &clips[i];
        let is_title = match &clip.source {
            Source::Title { title: _ } => true,
            _ => false,
        };
        if clip.enabled && is_title {
            assert(shows_title(clips@[i as int]));
            let ghost was = out@;
            let at = clip_midpoint(clip, fps);
            out.push((clip.id.as_str().to_owned(), at));
            assert(pairs(out@) =~= pairs(was).push((clip.id@, at)));
            assert(pairs(out@) =~= before + so_far.push((clip.id@, midpoint(*clip, fps))));
        }
        i = i + 1;
    }
    assert(clips@.take(i as int) =~= clips@);
}

/// The title clips of a sequence and the instant each is looked at.
pub fn title_clips(sequence: &Sequence) -> (r: Vec<(String, Time)>)
    requires
        sequence.fps.wf(),
        titles_fit(sequence.tracks@, sequence.fps),
    ensures
        pairs(r@) == title_list(sequence.tracks@, sequence.fps),
{
    let tracks = &sequence.tracks;
    let mut out: Vec<(String, Time)> = Vec::new();
    let mut t: usize = 0;
    assert(tracks@.take(0) =~= seq![]);
    assert(pairs(out@) =~= seq![]);
    while t < tracks.len()
        invariant
            t <= tracks@.len(),
            tracks@ == sequence.tracks@,
            sequence.fps.wf(),
            titles_fit(tracks@, sequence.fps),
            pairs(out@) == title_list(tracks@.take(t as int), sequence.fps),
        decreases tracks@.len() - t,
    {
        assert(tracks@.take(t + 1).drop_last() =~= tracks@.take(t as int));
        assert(title_clips_fit(tracks@[t as int].clips@, sequence.fps));
        if tracks[t].kind != TrackKind::Audio {
            push_titles(&mut out, &tracks[t].clips, sequence.fps);
        }
        t = t + 1;
    }
    assert(tracks@.take(t as int) =~= tracks@);
    out
}

// ---------------------------------------------------------------------------
// Fonts
// ---------------------------------------------------------------------------

/// Families that stand for any face of a kind, so that none is asked for by name.
pub open spec fn is_generic(family: Seq<char>) -> bool {
    ||| family == "sans-serif"@
    ||| family == "serif"@
    ||| family == "monospace"@
    ||| family == "cursive"@
    ||| family == "fantasy"@
    ||| family == "system-ui"@
    ||| family == "ui-sans-serif"@
    ||| family == "ui-serif"@
    ||| family == "ui-monospace"@
    ||| family == "math"@
    ||| family == "emoji"@
}

fn generic(family: &str) -> (r: bool)
    ensures
        r == is_generic(family@),
{
    same(family, "sans-serif") || same(family, "serif") || same(family, "monospace") || same(
        family,
        "cursive",
    ) || same(family, "fantasy") || same(family, "system-ui") || same(family, "ui-sans-serif")
        || same(family, "ui-serif") || same(family, "ui-monospace") || same(family, "math") || same(
        family,
        "emoji",
    )
}

pub open spec fn is_quote(c: char) -> bool {
    c == '"' || c == '\''
}

/// Text without the characters of a kind at its start.
pub open spec fn without_front(s: Seq<char>, drop: spec_fn(char) -> bool) -> Seq<char>
    decreases s.len(),
{
    if s.len() > 0 && drop(s[0]) {
        without_front(s.skip(1), drop)
    } else {
        s
    }
}

pub open spec fn equals_or_colon(c: char) -> bool {
    c == '=' || c == ':'
}

/// What stands behind a property name and its sign.
pub open spec fn value_after(s: Seq<char>) -> Seq<char> {
    trim_start(without_front(trim_start(s), |c: char| equals_or_colon(c)))
}

/// The quote that an attribute's value is in. A declaration of a style sheet is in none of its
/// own.
pub open spec fn opening_quote(s: Seq<char>) -> Option<char> {
    let sign = trim_start(s);
    let value = value_after(s);
    if sign.len() > 0 && sign[0] == '=' && value.len() > 0 && is_quote(value[0]) {
        Some(value[0])
    } else {
        None
    }
}

/// The list of families behind a property name, from its first character on.
pub open spec fn list_after(s: Seq<char>) -> Seq<char> {
    if opening_quote(s) is Some {
        value_after(s).skip(1)
    } else {
        value_after(s)
    }
}

/// Whether a character ends a run of plain text in a list of families.
pub open spec fn is_stop(c: char) -> bool {
    is_quote(c) || c == ';' || c == '}' || c == '<'
}

/// Where a run of plain text ends.
pub open spec fn stop_at(s: Seq<char>) -> int
    decreases s.len(),
{
    if s.len() == 0 || is_stop(s[0]) {
        0
    } else {
        1 + stop_at(s.skip(1))
    }
}

/// Whether nothing has been said yet of the last name in a run.
pub open spec fn awaits_name(run: Seq<char>) -> bool {
    trim(split(run, ',').last()).len() == 0
}

/// The pieces of a list of families in a value that `outer` ends. A quote opens a name where one
/// begins, and ends the list where one has begun already, or where it is not closed again. Only at
/// the head of the list is one that is not closed passed over.
pub open spec fn pieces_of(s: Seq<char>, outer: Option<char>, head: bool) -> Seq<Seq<char>>
    decreases s.len(),
{
    let at = stop_at(s);
    let run = s.take(at);
    let before = split(run, ',');
    if at >= s.len() || !is_quote(s[at]) || outer == Some(s[at]) || !awaits_name(run) {
        before
    } else {
        let inside = s.skip(at + 1);
        let end = stop_at(inside);
        let named = split(inside.take(end), ',');
        let rest = trim_start(inside.skip(end + 1));
        if end < inside.len() && inside[end] == s[at] {
            if rest.len() > 0 && rest[0] == ',' && rest.len() < s.len() {
                before + named + pieces_of(rest.skip(1), outer, false)
            } else {
                before + named
            }
        } else if head && trim(run).len() == 0 {
            before + named
        } else {
            before
        }
    }
}

/// One family of a list, in lower case.
pub open spec fn family_of(piece: Seq<char>) -> Seq<char> {
    trim(piece.map_values(|c: char| fold(c)))
}

/// The families that a value names, but for the generic ones.
pub open spec fn named_families(pieces: Seq<Seq<char>>) -> Seq<Seq<char>>
    decreases pieces.len(),
{
    if pieces.len() == 0 {
        seq![]
    } else {
        let before = named_families(pieces.drop_last());
        let family = family_of(pieces.last());
        if family.len() == 0 || is_generic(family) {
            before
        } else {
            before.push(family)
        }
    }
}

pub open spec fn families_in(value: Seq<char>) -> Seq<Seq<char>> {
    named_families(pieces_of(list_after(value), opening_quote(value), true))
}

/// The font families that a drawing names.
pub open spec fn families(svg: Seq<char>) -> Seq<Seq<char>>
    decreases svg.len(),
{
    if exists|at: int| first_at(svg, "font-family"@, at) {
        let at = choose|at: int| first_at(svg, "font-family"@, at);
        let rest = svg.skip(at + "font-family"@.len());
        if rest.len() < svg.len() {
            families_in(rest) + families(rest)
        } else {
            seq![]
        }
    } else {
        seq![]
    }
}

fn skip_front_signs(chars: &Vec<char>, from: usize) -> (r: usize)
    requires
        from <= chars@.len(),
    ensures
        from <= r <= chars@.len(),
        without_front(chars@.skip(from as int), |c: char| equals_or_colon(c)) == chars@.skip(
            r as int,
        ),
{
    let mut i: usize = from;
    while i < chars.len() && (chars[i] == '=' || chars[i] == ':')
        invariant
            from <= i <= chars@.len(),
            without_front(chars@.skip(from as int), |c: char| equals_or_colon(c))
                == without_front(chars@.skip(i as int), |c: char| equals_or_colon(c)),
        decreases chars@.len() - i,
    {
        assert(chars@.skip(i as int)[0] == chars@[i as int]);
        assert(chars@.skip(i as int).skip(1) =~= chars@.skip(i + 1));
        i = i + 1;
    }
    proof {
        if i < chars@.len() {
            assert(chars@.skip(i as int)[0] == chars@[i as int]);
        }
    }
    i
}

fn list_of(chars: &Vec<char>) -> (r: Vec<Vec<char>>)
    ensures
        texts(r@) == pieces_of(list_after(chars@), opening_quote(chars@), true),
{
    let n: usize = chars.len();
    let a: usize = skip_white(chars, 0, n);
    assert(chars@.subrange(0, n as int) =~= chars@);
    assert(chars@.subrange(a as int, n as int) =~= chars@.skip(a as int));
    let b: usize = skip_front_signs(chars, a);
    let c: usize = skip_white(chars, b, n);
    assert(chars@.subrange(b as int, n as int) =~= chars@.skip(b as int));
    assert(chars@.subrange(c as int, n as int) =~= chars@.skip(c as int));
    proof {
        if a < n {
            assert(chars@.skip(a as int)[0] == chars@[a as int]);
        }
        if c < n {
            assert(chars@.skip(c as int)[0] == chars@[c as int]);
            assert(chars@.skip(c as int).skip(1) =~= chars@.skip(c + 1));
        }
    }
    let quoted = a < n && chars[a] == '=' && c < n && (chars[c] == '"' || chars[c] == '\'');
    let outer: Option<char> = if quoted {
        Some(chars[c])
    } else {
        None
    };
    let from: usize = if quoted {
        c + 1
    } else {
        c
    };
    read_pieces(chars, from, outer)
}

/// Where a run of plain text ends, from `from` on.
fn find_stop(chars: &Vec<char>, from: usize) -> (r: usize)
    requires
        from <= chars@.len(),
    ensures
        r == from + stop_at(chars@.skip(from as int)),
        from <= r <= chars@.len(),
{
    let mut i: usize = from;
    while i < chars.len() && !(chars[i] == '"' || chars[i] == '\'' || chars[i] == ';' || chars[i]
        == '}' || chars[i] == '<')
        invariant
            from <= i <= chars@.len(),
            from + stop_at(chars@.skip(from as int)) == i + stop_at(chars@.skip(i as int)),
        decreases chars@.len() - i,
    {
        assert(chars@.skip(i as int)[0] == chars@[i as int]);
        assert(chars@.skip(i as int).skip(1) =~= chars@.skip(i + 1));
        i = i + 1;
    }
    proof {
        if i < chars@.len() {
            assert(chars@.skip(i as int)[0] == chars@[i as int]);
        }
    }
    i
}

/// Adds the pieces of a run, and says whether nothing has been said of the last.
fn push_run(out: &mut Vec<Vec<char>>, chars: &Vec<char>, from: usize, to: usize) -> (r: bool)
    requires
        from <= to <= chars@.len(),
    ensures
        texts(final(out)@) == texts(old(out)@) + split(
            chars@.subrange(from as int, to as int),
            ',',
        ),
        r == awaits_name(chars@.subrange(from as int, to as int)),
{
    let run = slice_of(chars, from, to);
    let mut more = split_chars(&run, ',');
    let ghost added = more@;
    let ghost before = out@;
    proof {
        assert(texts(added) =~= split(run@, ','));
        lemma_split_has_one(run@, ',');
    }
    let n: usize = more.len();
    assert(texts(added).len() == n);
    assert(texts(added).last() == added[n - 1]@);
    let blank = trimmed(&more[n - 1]).len() == 0;
    out.append(&mut more);
    assert(texts(out@) =~= texts(before) + texts(added));
    blank
}

proof fn lemma_split_has_one(s: Seq<char>, c: char)
    ensures
        split(s, c).len() > 0,
{
}

fn read_pieces(chars: &Vec<char>, from: usize, outer: Option<char>) -> (r: Vec<Vec<char>>)
    requires
        from <= chars@.len(),
    ensures
        texts(r@) == pieces_of(chars@.skip(from as int), outer, true),
{
    let n: usize = chars.len();
    let mut out: Vec<Vec<char>> = Vec::new();
    let mut i: usize = from;
    let mut head = true;
    let ghost all = pieces_of(chars@.skip(from as int), outer, true);
    assert(texts(out@) + all =~= all);
    loop
        invariant_except_break
            i <= n,
            n == chars@.len(),
            all == texts(out@) + pieces_of(chars@.skip(i as int), outer, head),
        ensures
            all == texts(out@),
        decreases n - i,
    {
        let ghost s = chars@.skip(i as int);
        let ghost was = texts(out@);
        let at: usize = find_stop(chars, i);
        proof {
            assert(s.take(at - i) =~= chars@.subrange(i as int, at as int));
        }
        let ghost before = split(s.take(at - i), ',');
        let awaited = push_run(&mut out, chars, i, at);
        if at >= n {
            break;
        }
        assert(s[at - i] == chars@[at as int]);
        let c: char = chars[at];
        let ends = match outer {
            Some(quote) => c == quote,
            None => false,
        };
        if (c != '"' && c != '\'') || ends || !awaited {
            break;
        }
        let end: usize = find_stop(chars, at + 1);
        let ghost inside = s.skip(at - i + 1);
        proof {
            assert(inside =~= chars@.skip(at + 1));
            assert(inside.take(end - at - 1) =~= chars@.subrange(at + 1, end as int));
        }
        let ghost named = split(inside.take(end - at - 1), ',');
        if end < n && chars[end] == c {
            assert(inside[end - at - 1] == chars@[end as int]);
            push_run(&mut out, chars, at + 1, end);
            assert(texts(out@) =~= was + (before + named));
            let next: usize = skip_white(chars, end + 1, n);
            let ghost rest = trim_start(inside.skip(end - at));
            proof {
                assert(inside.skip(end - at) =~= chars@.subrange(end + 1, n as int));
                assert(rest =~= chars@.skip(next as int));
            }
            if next < n && chars[next] == ',' {
                assert(rest[0] == chars@[next as int]);
                assert(rest.skip(1) =~= chars@.skip(next + 1));
                let ghost more = pieces_of(rest.skip(1), outer, false);
                assert(was + (before + named + more) =~= was + (before + named) + more);
                i = next + 1;
                head = false;
            } else {
                proof {
                    if next < n {
                        assert(rest[0] == chars@[next as int]);
                    }
                }
                break;
            }
        } else {
            proof {
                if end < n {
                    assert(inside[end - at - 1] == chars@[end as int]);
                }
            }
            let run = slice_of(chars, i, at);
            if head && trimmed(&run).len() == 0 {
                push_run(&mut out, chars, at + 1, end);
                assert(texts(out@) =~= was + (before + named));
            }
            break;
        }
    }
    out
}

fn bare_family(piece: &Vec<char>) -> (r: String)
    ensures
        r@ == family_of(piece@),
{
    let low = chars_of(folded(string_of(piece).as_str()).as_str());
    string_of(&trimmed(&low))
}

fn push_families(out: &mut Vec<String>, chars: &Vec<char>)
    ensures
        strings(final(out)@) == strings(old(out)@) + families_in(chars@),
{
    let ghost before = strings(out@);
    let pieces = list_of(chars);
    let ghost all = texts(pieces@);
    let mut i: usize = 0;
    assert(all.take(0) =~= seq![]);
    assert(before + Seq::<Seq<char>>::empty() =~= before);
    while i < pieces.len()
        invariant
            i <= pieces@.len(),
            all == texts(pieces@),
            strings(out@) == before + named_families(all.take(i as int)),
        decreases pieces@.len() - i,
    {
        let ghost so_far = named_families(all.take(i as int));
        assert(all.take(i + 1).drop_last() =~= all.take(i as int));
        assert(all.take(i + 1).last() == pieces@[i as int]@);
        let family = bare_family(&pieces[i]);
        let nothing = same(family.as_str(), "");
        proof {
            reveal_strlit("");
            if family@.len() == 0 {
                assert(family@ =~= ""@);
            }
        }
        if !nothing && !generic(family.as_str()) {
            crate::text::push_text(out, family.as_str());
            assert(strings(out@) =~= before + so_far.push(family@));
        }
        i = i + 1;
    }
    assert(all.take(i as int) =~= all);
}

proof fn lemma_first_is_unique(s: Seq<char>, needle: Seq<char>, a: int, b: int)
    requires
        first_at(s, needle, a),
        first_at(s, needle, b),
    ensures
        a == b,
{
    if a < b {
        assert(!crate::text::stands_at(s, needle, a));
    } else if b < a {
        assert(!crate::text::stands_at(s, needle, b));
    }
}

// ---------------------------------------------------------------------------
// What a family is
// ---------------------------------------------------------------------------

/// Whether a text has no character that separates families or ends a list of them.
pub open spec fn is_unmarked(s: Seq<char>) -> bool {
    forall|i: int| 0 <= i < s.len() ==> !is_stop(#[trigger] s[i]) && s[i] != ','
}

/// Whether a text is a family that is asked for by name: it is not empty, has no white space at
/// its ends, no capitals and no marks, and stands for one face.
pub open spec fn is_family(family: Seq<char>) -> bool {
    &&& family.len() > 0
    &&& trim(family) == family
    &&& family.map_values(|c: char| fold(c)) == family
    &&& is_unmarked(family)
    &&& !is_generic(family)
}

pub open spec fn are_families(found: Seq<Seq<char>>) -> bool {
    forall|k: int| 0 <= k < found.len() ==> is_family(#[trigger] found[k])
}

pub open spec fn all_unmarked(pieces: Seq<Seq<char>>) -> bool {
    forall|k: int| 0 <= k < pieces.len() ==> is_unmarked(#[trigger] pieces[k])
}

proof fn lemma_stop(s: Seq<char>)
    ensures
        0 <= stop_at(s) <= s.len(),
        forall|i: int| 0 <= i < stop_at(s) ==> !is_stop(#[trigger] s[i]),
    decreases s.len(),
{
    if s.len() > 0 && !is_stop(s[0]) {
        lemma_stop(s.skip(1));
        assert forall|i: int| 0 <= i < stop_at(s) implies !is_stop(#[trigger] s[i]) by {
            if i > 0 {
                assert(s.skip(1)[i - 1] == s[i]);
            }
        }
    }
}

proof fn lemma_split_unmarked(s: Seq<char>)
    requires
        forall|i: int| 0 <= i < s.len() ==> !is_stop(#[trigger] s[i]),
    ensures
        all_unmarked(split(s, ',')),
    decreases s.len(),
{
    lemma_find(s, ',');
    if has_char(s, ',') {
        let n = find(s, ',');
        let rest = s.skip(n + 1);
        assert forall|i: int| 0 <= i < rest.len() implies !is_stop(#[trigger] rest[i]) by {
            assert(rest[i] == s[n + 1 + i]);
        }
        lemma_split_unmarked(rest);
        assert(is_unmarked(s.take(n)));
    }
}

proof fn lemma_run_unmarked(s: Seq<char>)
    ensures
        all_unmarked(split(s.take(stop_at(s)), ',')),
{
    lemma_stop(s);
    lemma_split_unmarked(s.take(stop_at(s)));
}

proof fn lemma_pieces_unmarked(s: Seq<char>, outer: Option<char>, head: bool)
    ensures
        all_unmarked(pieces_of(s, outer, head)),
    decreases s.len(),
{
    let at = stop_at(s);
    lemma_stop(s);
    lemma_run_unmarked(s);
    if at < s.len() {
        let inside = s.skip(at + 1);
        lemma_stop(inside);
        lemma_run_unmarked(inside);
        let rest = trim_start(inside.skip(stop_at(inside) + 1));
        if rest.len() > 0 && rest.len() < s.len() {
            lemma_pieces_unmarked(rest.skip(1), outer, false);
        }
    }
}

/// Trimming is done after once.
proof fn lemma_trim(s: Seq<char>)
    ensures
        trim(trim(s)) == trim(s),
        exists|from: int, to: int|
            0 <= from <= to <= s.len() && trim(s) == #[trigger] s.subrange(from, to),
{
    let front = trim_start(s);
    lemma_trim_start(s);
    lemma_trim_end(front);
    let t = trim(s);
    if t.len() > 0 {
        assert(t[0] == front[0]);
    }
    let from = s.len() - front.len();
    assert(t =~= s.subrange(from, from + t.len()));
}

proof fn lemma_family(piece: Seq<char>)
    requires
        is_unmarked(piece),
        family_of(piece).len() > 0,
        !is_generic(family_of(piece)),
    ensures
        is_family(family_of(piece)),
{
    let low = piece.map_values(|c: char| fold(c));
    let family = family_of(piece);
    lemma_trim(low);
    let (from, to) = choose|from: int, to: int|
        0 <= from <= to <= low.len() && trim(low) == #[trigger] low.subrange(from, to);
    assert forall|i: int| 0 <= i < family.len() implies !is_stop(#[trigger] family[i]) && family[i]
        != ',' && fold(family[i]) == family[i] by {
        assert(family[i] == fold(piece[from + i]));
        assert(!is_stop(piece[from + i]));
    }
    assert(family.map_values(|c: char| fold(c)) =~= family);
}

proof fn lemma_named(pieces: Seq<Seq<char>>)
    requires
        all_unmarked(pieces),
    ensures
        are_families(named_families(pieces)),
    decreases pieces.len(),
{
    if pieces.len() > 0 {
        let rest = pieces.drop_last();
        assert forall|k: int| 0 <= k < rest.len() implies is_unmarked(#[trigger] rest[k]) by {
            assert(rest[k] == pieces[k]);
        }
        lemma_named(rest);
        let family = family_of(pieces.last());
        assert(is_unmarked(pieces[pieces.len() - 1]));
        if family.len() > 0 && !is_generic(family) {
            lemma_family(pieces.last());
        }
    }
}

/// Everything that a drawing names is a family: no marks, no quotes and nothing of what stands
/// around it.
pub proof fn law_only_families_are_named(svg: Seq<char>)
    ensures
        are_families(families(svg)),
        (forall|at: int| !first_at(svg, "font-family"@, at)) ==> families(svg).len() == 0,
    decreases svg.len(),
{
    if exists|at: int| first_at(svg, "font-family"@, at) {
        let at = choose|at: int| first_at(svg, "font-family"@, at);
        let rest = svg.skip(at + "font-family"@.len());
        if rest.len() < svg.len() {
            let pieces = pieces_of(list_after(rest), opening_quote(rest), true);
            lemma_pieces_unmarked(list_after(rest), opening_quote(rest), true);
            lemma_named(pieces);
            law_only_families_are_named(rest);
        }
    }
}

/// The font families that a drawing asks for by name, in lower case.
pub fn requested_families(svg: &str) -> (r: Vec<String>)
    ensures
        strings(r@) == families(svg@),
        are_families(strings(r@)),
{
    proof {
        law_only_families_are_named(svg@);
    }
    let mut out: Vec<String> = Vec::new();
    let mut rest = chars_of(svg);
    assert(strings(out@) =~= seq![]);
    assert(Seq::<Seq<char>>::empty() + families(svg@) =~= families(svg@));
    loop
        invariant
            strings(out@) + families(rest@) == families(svg@),
        ensures
            strings(out@) == families(svg@),
        decreases rest@.len(),
    {
        proof {
            reveal_strlit("font-family");
        }
        match find_text(&rest, "font-family") {
            None => {
                proof {
                    assert(forall|at: int| !first_at(rest@, "font-family"@, at));
                    assert(strings(out@) + Seq::<Seq<char>>::empty() =~= strings(out@));
                }
                break;
            },
            Some(at) => {
                let ghost before = strings(out@);
                let ghost was = rest@;
                proof {
                    assert(first_at(was, "font-family"@, at as int));
                    let chosen = choose|k: int| first_at(was, "font-family"@, k);
                    lemma_first_is_unique(was, "font-family"@, at as int, chosen);
                }
                let n: usize = rest.len();
                let tail = slice_of(&rest, at + 11, n);
                assert(tail@ =~= was.skip(at + 11));
                push_families(&mut out, &tail);
                rest = tail;
                proof {
                    assert(families(was) == families_in(rest@) + families(rest@));
                    assert(before + (families_in(rest@) + families(rest@)) =~= strings(out@)
                        + families(rest@));
                }
            },
        }
    }
    out
}

/// The family that text was set in, where the drawing names others.
pub open spec fn substitute(asked: Seq<Seq<char>>, used: Option<Seq<char>>) -> Option<Seq<char>> {
    match used {
        Some(used) => if asked.len() > 0 && !asked.contains(
            used.map_values(|c: char| fold(c)),
        ) {
            Some(used)
        } else {
            None
        },
        None => None,
    }
}

/// The family that text was set in, where the drawing asks for others.
pub fn substituted(asked: &Vec<String>, used: Option<&str>) -> (r: Option<String>)
    ensures
        opt_text(r) == substitute(
            strings(asked@),
            match used {
                Some(used) => Some(used@),
                None => None,
            },
        ),
{
    match used {
        None => None,
        Some(used) => {
            if asked.len() == 0 {
                return None;
            }
            if among(asked, folded(used).as_str()) {
                None
            } else {
                Some(used.to_owned())
            }
        },
    }
}

// ---------------------------------------------------------------------------
// What is said of a title
// ---------------------------------------------------------------------------

#[derive(Clone, Debug)]
pub struct TitleDigest {
    /// The clip, which is what an editor changes.
    pub id: String,
    pub title: String,
    pub at: Time,
    pub text: String,
    pub x: i128,
    pub y: i128,
    pub w: i128,
    pub h: i128,
    pub font_size: i128,
    pub overflow: bool,
    pub in_safe_area: bool,
    pub contrast: Option<i64>,
    pub font_fallback: Option<String>,
}

pub struct TitleView {
    pub id: Seq<char>,
    pub title: Seq<char>,
    pub at: Time,
    pub text: Seq<char>,
    pub x: int,
    pub y: int,
    pub w: int,
    pub h: int,
    pub font_size: int,
    pub overflow: bool,
    pub in_safe_area: bool,
    pub contrast: Option<i64>,
    pub font_fallback: Option<Seq<char>>,
}

impl View for TitleDigest {
    type V = TitleView;

    open spec fn view(&self) -> TitleView {
        TitleView {
            id: self.id@,
            title: self.title@,
            at: self.at,
            text: self.text@,
            x: self.x as int,
            y: self.y as int,
            w: self.w as int,
            h: self.h as int,
            font_size: self.font_size as int,
            overflow: self.overflow,
            in_safe_area: self.in_safe_area,
            contrast: self.contrast,
            font_fallback: opt_text(self.font_fallback),
        }
    }
}

/// A measurement in pixels of the sequence, to the nearest millionth.
pub open spec fn scaled(n: int, width: u32, frame: [u32; 2]) -> int {
    round_half_away(n * width, crate::lint_source::at_least_one(frame@[0]))
}

fn scale(n: i64, width: u32, frame: [u32; 2]) -> (r: i128)
    ensures
        r == scaled(n as int, width, frame),
{
    proof {
        crate::rational::lemma_wide(n as int, width as int);
    }
    let base: i128 = if frame[0] == 0 {
        1
    } else {
        frame[0] as i128
    };
    rounded((n as i128) * (width as i128), base)
}

pub open spec fn text_digest(title: TitleMeasurement, text: PlacedText, width: u32) -> TitleView {
    TitleView {
        id: title.clip@,
        title: title.title@,
        at: title.at,
        text: text.text@,
        x: scaled(text.x as int, width, title.frame),
        y: scaled(text.y as int, width, title.frame),
        w: scaled(text.w as int, width, title.frame),
        h: scaled(text.h as int, width, title.frame),
        font_size: scaled(text.font_size as int, width, title.frame),
        overflow: overflows(text, title.frame),
        in_safe_area: is_safe(text, title.frame, TITLE_SAFE_AREA as int),
        contrast: text.contrast,
        font_fallback: opt_text(text.fallback),
    }
}

pub open spec fn texts_of(title: TitleMeasurement, width: u32) -> Seq<TitleView> {
    title.reports@.map_values(|text: PlacedText| text_digest(title, text, width))
}

/// What is said of the titles of a sequence that is `width` pixels wide.
pub open spec fn titles_of(titles: Seq<TitleMeasurement>, width: u32) -> Seq<TitleView>
    decreases titles.len(),
{
    if titles.len() == 0 {
        seq![]
    } else {
        titles_of(titles.drop_last(), width) + texts_of(titles.last(), width)
    }
}

fn copied_text(text: &Option<String>) -> (r: Option<String>)
    ensures
        opt_text(r) == opt_text(*text),
{
    match text {
        Some(text) => Some(text.as_str().to_owned()),
        None => None,
    }
}

fn push_texts(out: &mut Vec<TitleDigest>, title: &TitleMeasurement, width: u32)
    ensures
        views(final(out)@) == views(old(out)@) + texts_of(*title, width),
{
    let ghost before = views(out@);
    let ghost all = texts_of(*title, width);
    let mut i: usize = 0;
    assert(before + all.take(0) =~= before);
    while i < title.reports.len()
        invariant
            i <= title.reports@.len(),
            all == texts_of(*title, width),
            views(out@) == before + all.take(i as int),
        decreases title.reports@.len() - i,
    {
        let text = &title.reports[i];
        push_view(
            out,
            TitleDigest {
                id: title.clip.as_str().to_owned(),
                title: title.title.as_str().to_owned(),
                at: title.at,
                text: text.text.as_str().to_owned(),
                x: scale(text.x, width, title.frame),
                y: scale(text.y, width, title.frame),
                w: scale(text.w, width, title.frame),
                h: scale(text.h, width, title.frame),
                font_size: scale(text.font_size, width, title.frame),
                overflow: text.overflows(title.frame),
                in_safe_area: text.in_safe_area(title.frame, TITLE_SAFE_AREA),
                contrast: text.contrast,
                font_fallback: copied_text(&text.fallback),
            },
        );
        i = i + 1;
        assert(views(out@) =~= before + all.take(i as int));
    }
    assert(all.take(i as int) =~= all);
}

/// Turns measurements into what is said of titles, in pixels of the sequence.
pub fn title_digests(titles: &Vec<TitleMeasurement>, width: u32) -> (r: Vec<TitleDigest>)
    ensures
        views(r@) == titles_of(titles@, width),
{
    let mut out: Vec<TitleDigest> = Vec::new();
    let mut i: usize = 0;
    assert(titles@.take(0) =~= seq![]);
    assert(views(out@) =~= seq![]);
    while i < titles.len()
        invariant
            i <= titles@.len(),
            views(out@) == titles_of(titles@.take(i as int), width),
        decreases titles@.len() - i,
    {
        assert(titles@.take(i + 1).drop_last() =~= titles@.take(i as int));
        push_texts(&mut out, &titles[i], width);
        i = i + 1;
    }
    assert(titles@.take(i as int) =~= titles@);
    out
}

} // verus!
