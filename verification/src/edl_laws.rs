//! What a reader finds in an edit decision list.

use crate::edl::{
    alphanumerics, audio_count, channel_of_last, event_text, list_entries, list_entry, play_rate,
    play_tenths, reel_chars, retime_text, source_name_of, transition_text, upper_text, ListView,
};
use crate::project::{Clip, Project, Track, TrackKind};
use crate::subtitle_laws::lemma_dec_wide;
use crate::text::{
    all_digits, dec_wide, digits_value, find, is_alphanumeric, is_digit, is_lower, is_upper,
    lemma_find_is, pad_right,
};
use crate::time::{timecode_text, Fps};
use crate::time_laws::{
    frames_read, is_nearest, law_a_timecode_is_read_back, law_rounding_to_even_gives_the_nearest,
};
use crate::timeline::{entries_of, on_grid, placed_in, Entry, Placed};
use vstd::prelude::*;

verus! {

// ---------------------------------------------------------------------------
// Reading a line
// ---------------------------------------------------------------------------

/// The text up to the first line feed.
pub open spec fn first_line(s: Seq<char>) -> Seq<char> {
    s.take(find(s, '\n'))
}

/// The text up to the first space.
pub open spec fn first_word(s: Seq<char>) -> Seq<char> {
    s.take(find(s, ' '))
}

/// The text behind the last space.
pub open spec fn last_word(s: Seq<char>) -> Seq<char>
    decreases s.len(),
{
    if s.len() == 0 || s.last() == ' ' {
        seq![]
    } else {
        last_word(s.drop_last()).push(s.last())
    }
}

/// The text before the last space.
pub open spec fn before_last_word(s: Seq<char>) -> Seq<char>
    decreases s.len(),
{
    if s.len() == 0 {
        seq![]
    } else if s.last() == ' ' {
        s.drop_last()
    } else {
        before_last_word(s.drop_last())
    }
}

/// The word that has `k` others behind it.
pub open spec fn word_from_back(s: Seq<char>, k: nat) -> Seq<char>
    decreases k,
{
    if k == 0 {
        last_word(s)
    } else {
        word_from_back(before_last_word(s), (k - 1) as nat)
    }
}

pub open spec fn lacks(s: Seq<char>, c: char) -> bool {
    forall|i: int| 0 <= i < s.len() ==> #[trigger] s[i] != c
}

proof fn lemma_last_word(a: Seq<char>, w: Seq<char>)
    requires
        lacks(w, ' '),
    ensures
        last_word(a.push(' ') + w) == w,
        before_last_word(a.push(' ') + w) == a,
    decreases w.len(),
{
    let s = a.push(' ') + w;
    if w.len() == 0 {
        assert(s =~= a.push(' '));
        assert(s.drop_last() =~= a);
    } else {
        let rest = w.drop_last();
        assert(lacks(rest, ' ')) by {
            assert forall|i: int| 0 <= i < rest.len() implies #[trigger] rest[i] != ' ' by {
                assert(rest[i] == w[i]);
            }
        }
        lemma_last_word(a, rest);
        assert(s.drop_last() =~= a.push(' ') + rest);
        assert(s.last() == w[w.len() - 1]);
        assert(rest.push(w.last()) =~= w);
    }
}

/// What precedes the four times of an event.
pub open spec fn event_head(
    project: Project,
    placed: Placed,
    channel: Seq<char>,
    number: int,
    fps: Fps,
) -> Seq<char> {
    dec_wide(number as nat, 3) + "  "@ + pad_right(
        reel_chars(upper_text(source_name_of(project, *placed.clip))),
        8,
        ' ',
    ) + " "@ + pad_right(channel, 5, ' ') + " "@ + pad_right(
        transition_text(*placed.clip, fps),
        8,
        ' ',
    )
}

proof fn lemma_lacks_sum(a: Seq<char>, b: Seq<char>, c: char)
    requires
        lacks(a, c),
        lacks(b, c),
    ensures
        lacks(a + b, c),
{
    assert forall|i: int| 0 <= i < (a + b).len() implies #[trigger] (a + b)[i] != c by {
        if i < a.len() {
            assert((a + b)[i] == a[i]);
        } else {
            assert((a + b)[i] == b[i - a.len()]);
        }
    }
}

proof fn lemma_padded_lacks(s: Seq<char>, width: nat)
    requires
        lacks(s, '\n'),
    ensures
        lacks(pad_right(s, width, ' '), '\n'),
{
    if s.len() < width {
        let fill = crate::text::repeat(' ', (width - s.len()) as nat);
        assert forall|i: int| 0 <= i < fill.len() implies #[trigger] fill[i] != '\n' by {}
        lemma_lacks_sum(s, fill, '\n');
    }
}

proof fn lemma_digits_lack(s: Seq<char>)
    requires
        all_digits(s),
    ensures
        lacks(s, '\n'),
        lacks(s, ' '),
{
    assert forall|i: int| 0 <= i < s.len() implies #[trigger] s[i] != '\n' && s[i] != ' ' by {
        assert(is_digit(s[i]));
    }
}

proof fn lemma_reel_lacks(upper: Seq<char>)
    ensures
        lacks(reel_chars(upper), '\n'),
        lacks(reel_chars(upper), ' '),
{
    crate::name_laws::law_a_reel_is_capitals_and_digits(upper);
    let r = reel_chars(upper);
    assert forall|i: int| 0 <= i < r.len() implies #[trigger] r[i] != '\n' && r[i] != ' ' by {
        assert(is_digit(r[i]) || is_upper(r[i]));
    }
}

proof fn lemma_transition_lacks(clip: Clip, fps: Fps)
    ensures
        lacks(transition_text(clip, fps), '\n'),
{
    reveal_strlit("D ");
    reveal_strlit("C");
    if let Some(t) = clip.transition() {
        let n = crate::timeline::larger(t.duration.round_frame(fps), 1) as nat;
        lemma_dec_wide(n, 3);
        lemma_digits_lack(dec_wide(n, 3));
        lemma_lacks_sum("D "@, dec_wide(n, 3), '\n');
    }
}

proof fn lemma_head_lacks(
    project: Project,
    placed: Placed,
    channel: Seq<char>,
    number: int,
    fps: Fps,
)
    requires
        lacks(channel, '\n'),
    ensures
        lacks(event_head(project, placed, channel, number, fps), '\n'),
{
    reveal_strlit(" ");
    reveal_strlit("  ");
    let reel = reel_chars(upper_text(source_name_of(project, *placed.clip)));
    let a = dec_wide(number as nat, 3);
    let b = pad_right(reel, 8, ' ');
    let c = pad_right(channel, 5, ' ');
    let d = pad_right(transition_text(*placed.clip, fps), 8, ' ');
    lemma_dec_wide(number as nat, 3);
    lemma_digits_lack(a);
    lemma_reel_lacks(upper_text(source_name_of(project, *placed.clip)));
    lemma_padded_lacks(reel, 8);
    lemma_padded_lacks(channel, 5);
    lemma_transition_lacks(*placed.clip, fps);
    lemma_padded_lacks(transition_text(*placed.clip, fps), 8);
    lemma_lacks_sum(a, "  "@, '\n');
    lemma_lacks_sum(a + "  "@, b, '\n');
    lemma_lacks_sum(a + "  "@ + b, " "@, '\n');
    lemma_lacks_sum(a + "  "@ + b + " "@, c, '\n');
    lemma_lacks_sum(a + "  "@ + b + " "@ + c, " "@, '\n');
    lemma_lacks_sum(a + "  "@ + b + " "@ + c + " "@, d, '\n');
}

proof fn lemma_timecode_lacks(frame: int, base: int)
    requires
        frame >= 0,
        base > 0,
    ensures
        lacks(timecode_text(frame, base), ' '),
        lacks(timecode_text(frame, base), '\n'),
{
    law_a_timecode_is_read_back(frame, base);
    let t = timecode_text(frame, base);
    assert forall|i: int| 0 <= i < t.len() implies #[trigger] t[i] != ' ' && t[i] != '\n' by {
        assert(is_digit(t[i]) || t[i] == ':');
    }
}

/// A line with four words at its end, taken apart.
proof fn lemma_four_words(
    head: Seq<char>,
    p: Seq<char>,
    q: Seq<char>,
    r: Seq<char>,
    s: Seq<char>,
)
    requires
        lacks(p, ' '),
        lacks(q, ' '),
        lacks(r, ' '),
        lacks(s, ' '),
    ensures
        ({
            let line = head + seq![' '] + p + seq![' '] + q + seq![' '] + r + seq![' '] + s;
            &&& word_from_back(line, 3) == p
            &&& word_from_back(line, 2) == q
            &&& word_from_back(line, 1) == r
            &&& word_from_back(line, 0) == s
        }),
{
    let one = head + seq![' '] + p;
    let two = one + seq![' '] + q;
    let three = two + seq![' '] + r;
    let line = three + seq![' '] + s;
    assert(head + seq![' '] =~= head.push(' '));
    assert(one + seq![' '] =~= one.push(' '));
    assert(two + seq![' '] =~= two.push(' '));
    assert(three + seq![' '] =~= three.push(' '));
    lemma_last_word(three, s);
    lemma_last_word(two, r);
    lemma_last_word(one, q);
    lemma_last_word(head, p);
    assert(word_from_back(head.push(' ') + p, 0) == p);
    assert(word_from_back(two, 1) == word_from_back(one, 0));
    assert(word_from_back(three, 2) == word_from_back(two, 1));
    assert(word_from_back(line, 3) == word_from_back(three, 2));
    assert(word_from_back(two, 0) == q);
    assert(word_from_back(three, 1) == word_from_back(two, 0));
    assert(word_from_back(line, 2) == word_from_back(three, 1));
    assert(word_from_back(three, 0) == r);
    assert(word_from_back(line, 1) == word_from_back(three, 0));
}

proof fn lemma_four_lack(
    head: Seq<char>,
    p: Seq<char>,
    q: Seq<char>,
    r: Seq<char>,
    s: Seq<char>,
)
    requires
        lacks(head, '\n'),
        lacks(p, '\n'),
        lacks(q, '\n'),
        lacks(r, '\n'),
        lacks(s, '\n'),
    ensures
        lacks(head + seq![' '] + p + seq![' '] + q + seq![' '] + r + seq![' '] + s, '\n'),
{
    let c = seq![' '];
    lemma_lacks_sum(head, c, '\n');
    lemma_lacks_sum(head + c, p, '\n');
    lemma_lacks_sum(head + c + p, c, '\n');
    lemma_lacks_sum(head + c + p + c, q, '\n');
    lemma_lacks_sum(head + c + p + c + q, c, '\n');
    lemma_lacks_sum(head + c + p + c + q + c, r, '\n');
    lemma_lacks_sum(head + c + p + c + q + c + r, c, '\n');
    lemma_lacks_sum(head + c + p + c + q + c + r + c, s, '\n');
}

proof fn lemma_first_line(line: Seq<char>, tail: Seq<char>)
    requires
        lacks(line, '\n'),
        tail.len() > 0,
        tail[0] == '\n',
    ensures
        first_line(line + tail) == line,
{
    let text = line + tail;
    assert(text[line.len() as int] == '\n');
    assert forall|i: int| 0 <= i < line.len() implies text[i] != '\n' by {
        assert(text[i] == line[i]);
    }
    lemma_find_is(text, '\n', line.len() as int);
    assert(first_line(text) =~= line);
}

proof fn lemma_first_word(n: Seq<char>, rest: Seq<char>)
    requires
        lacks(n, ' '),
        rest.len() > 0,
        rest[0] == ' ',
    ensures
        first_word(n + rest) == n,
{
    let text = n + rest;
    assert(text[n.len() as int] == ' ');
    assert forall|i: int| 0 <= i < n.len() implies text[i] != ' ' by {
        assert(text[i] == n[i]);
    }
    lemma_find_is(text, ' ', n.len() as int);
    assert(first_word(text) =~= n);
}

proof fn lemma_head_starts(
    project: Project,
    placed: Placed,
    channel: Seq<char>,
    number: int,
    fps: Fps,
    rest: Seq<char>,
)
    ensures
        first_word(event_head(project, placed, channel, number, fps) + rest) == dec_wide(
            number as nat,
            3,
        ),
{
    reveal_strlit("  ");
    let n = dec_wide(number as nat, 3);
    lemma_dec_wide(number as nat, 3);
    lemma_digits_lack(n);
    let head = event_head(project, placed, channel, number, fps);
    let more = head.skip(n.len() as int) + rest;
    assert(head[n.len() as int] == ' ');
    assert(head.take(n.len() as int) =~= n);
    assert(head + rest =~= n + more);
    lemma_first_word(n, more);
}

proof fn lemma_starts_with_feed(name: Seq<char>)
    ensures
        ("\n* FROM CLIP NAME: "@ + name + "\n"@).len() > 0,
        ("\n* FROM CLIP NAME: "@ + name + "\n"@)[0] == '\n',
{
    reveal_strlit("\n* FROM CLIP NAME: ");
}

proof fn lemma_behind_head(
    head: Seq<char>,
    p: Seq<char>,
    q: Seq<char>,
    r: Seq<char>,
    s: Seq<char>,
)
    ensures
        head + seq![' '] + p + seq![' '] + q + seq![' '] + r + seq![' '] + s == head + (seq![' ']
            + p + seq![' '] + q + seq![' '] + r + seq![' '] + s),
{
    assert(head + seq![' '] + p + seq![' '] + q + seq![' '] + r + seq![' '] + s =~= head + (seq![
        ' ',
    ] + p + seq![' '] + q + seq![' '] + r + seq![' '] + s));
}

/// The line of an event, taken apart.
proof fn lemma_event_line(
    project: Project,
    placed: Placed,
    channel: Seq<char>,
    number: int,
    fps: Fps,
    a: int,
    b: int,
    c: int,
    d: int,
)
    requires
        fps.wf(),
        lacks(channel, '\n'),
        a >= 0,
        b >= 0,
        c >= 0,
        d >= 0,
        event_text(project, placed, channel, number, fps) == event_head(
            project,
            placed,
            channel,
            number,
            fps,
        ) + " "@ + timecode_text(a, fps.nominal()) + " "@ + timecode_text(b, fps.nominal()) + " "@
            + timecode_text(c, fps.nominal()) + " "@ + timecode_text(d, fps.nominal())
            + "\n* FROM CLIP NAME: "@ + source_name_of(project, *placed.clip) + "\n"@,
    ensures
        ({
            let line = first_line(event_text(project, placed, channel, number, fps));
            &&& word_from_back(line, 3) == timecode_text(a, fps.nominal())
            &&& word_from_back(line, 2) == timecode_text(b, fps.nominal())
            &&& word_from_back(line, 1) == timecode_text(c, fps.nominal())
            &&& word_from_back(line, 0) == timecode_text(d, fps.nominal())
            &&& first_word(line) == dec_wide(number as nat, 3)
        }),
{
    reveal_strlit(" ");
    assert(" "@ =~= seq![' ']);
    let base = fps.nominal();
    let head = event_head(project, placed, channel, number, fps);
    let p = timecode_text(a, base);
    let q = timecode_text(b, base);
    let r = timecode_text(c, base);
    let s = timecode_text(d, base);
    lemma_head_lacks(project, placed, channel, number, fps);
    lemma_timecode_lacks(a, base);
    lemma_timecode_lacks(b, base);
    lemma_timecode_lacks(c, base);
    lemma_timecode_lacks(d, base);
    lemma_four_words(head, p, q, r, s);
    lemma_four_lack(head, p, q, r, s);
    let line = head + seq![' '] + p + seq![' '] + q + seq![' '] + r + seq![' '] + s;
    let tail = "\n* FROM CLIP NAME: "@ + source_name_of(project, *placed.clip) + "\n"@;
    lemma_sums(
        line,
        "\n* FROM CLIP NAME: "@,
        source_name_of(project, *placed.clip),
        "\n"@,
    );
    lemma_starts_with_feed(source_name_of(project, *placed.clip));
    lemma_first_line(line, tail);
    let rest = seq![' '] + p + seq![' '] + q + seq![' '] + r + seq![' '] + s;
    lemma_behind_head(head, p, q, r, s);
    lemma_head_starts(project, placed, channel, number, fps, rest);
}

proof fn lemma_nominal(fps: Fps)
    ensures
        fps.nominal() >= 1,
{
}

/// The four times of an event, read off its line: the source from the frame that the clip shows
/// first, the record from the frame on which it stands, and both for as many frames as it has.
pub proof fn law_an_event_states_where_its_clip_stands(
    project: Project,
    placed: Placed,
    channel: Seq<char>,
    number: int,
    fps: Fps,
)
    requires
        fps.wf(),
        lacks(channel, '\n'),
        number >= 0,
        placed.source_in >= 0,
        placed.start >= 0,
        placed.frames >= 0,
    ensures
        ({
            let line = first_line(event_text(project, placed, channel, number, fps));
            let base = fps.nominal();
            let source_in = frames_read(word_from_back(line, 3), base);
            let source_out = frames_read(word_from_back(line, 2), base);
            let record_in = frames_read(word_from_back(line, 1), base);
            let record_out = frames_read(word_from_back(line, 0), base);
            &&& source_in == placed.source_in
            &&& source_out - source_in == placed.frames
            &&& record_in == placed.start
            &&& record_out - record_in == placed.frames
            &&& digits_value(first_word(line)) == number
        }),
{
    let base = fps.nominal();
    lemma_nominal(fps);
    let a = placed.source_in as int;
    let b = placed.source_in + placed.frames;
    let c = placed.start as int;
    let d = placed.start + placed.frames;
    let text = event_text(project, placed, channel, number, fps);
    assert(text =~= event_head(project, placed, channel, number, fps) + " "@ + timecode_text(a, base)
        + " "@ + timecode_text(b, base) + " "@ + timecode_text(c, base) + " "@ + timecode_text(
        d,
        base,
    ) + "\n* FROM CLIP NAME: "@ + source_name_of(project, *placed.clip) + "\n"@);
    lemma_event_line(project, placed, channel, number, fps, a, b, c, d);
    law_a_timecode_is_read_back(a, base);
    law_a_timecode_is_read_back(b, base);
    law_a_timecode_is_read_back(c, base);
    law_a_timecode_is_read_back(d, base);
    lemma_dec_wide(number as nat, 3);
}

/// Where two clips of a track touch, the record out of the first event reads like the record in of
/// the second, character by character.
pub proof fn law_touching_events_share_a_time(
    project: Project,
    clips: Seq<Clip>,
    fps: Fps,
    i: int,
    channel: Seq<char>,
    number: int,
)
    requires
        fps.wf(),
        on_grid(clips, fps),
        lacks(channel, '\n'),
        number >= 0,
        0 <= i,
        i + 1 < entries_of(clips, fps).len(),
        entries_of(clips, fps)[i] is Clip,
        entries_of(clips, fps)[i + 1] is Clip,
        entries_of(clips, fps)[i]->Clip_0.source_in >= 0,
        entries_of(clips, fps)[i + 1]->Clip_0.source_in >= 0,
    ensures
        ({
            let first = entries_of(clips, fps)[i]->Clip_0;
            let second = entries_of(clips, fps)[i + 1]->Clip_0;
            word_from_back(first_line(event_text(project, first, channel, number, fps)), 0)
                == word_from_back(
                first_line(event_text(project, second, channel, number + 1, fps)),
                1,
            )
        }),
{
    let first = entries_of(clips, fps)[i]->Clip_0;
    let second = entries_of(clips, fps)[i + 1]->Clip_0;
    crate::edl::law_record_times_are_contiguous(clips, fps, i);
    crate::timeline::lemma_placed(clips, fps, i);
    crate::timeline::lemma_placed(clips, fps, i + 1);
    lemma_event_times(project, first, channel, number, fps);
    lemma_event_times(project, second, channel, number + 1, fps);
}

proof fn lemma_event_times(
    project: Project,
    placed: Placed,
    channel: Seq<char>,
    number: int,
    fps: Fps,
)
    requires
        fps.wf(),
        lacks(channel, '\n'),
        placed.source_in >= 0,
        placed.start >= 0,
        placed.frames >= 0,
    ensures
        ({
            let line = first_line(event_text(project, placed, channel, number, fps));
            &&& word_from_back(line, 1) == timecode_text(placed.start as int, fps.nominal())
            &&& word_from_back(line, 0) == timecode_text(
                placed.start + placed.frames,
                fps.nominal(),
            )
        }),
{
    let base = fps.nominal();
    lemma_nominal(fps);
    let a = placed.source_in as int;
    let b = placed.source_in + placed.frames;
    let c = placed.start as int;
    let d = placed.start + placed.frames;
    let text = event_text(project, placed, channel, number, fps);
    assert(text =~= event_head(project, placed, channel, number, fps) + " "@ + timecode_text(a, base)
        + " "@ + timecode_text(b, base) + " "@ + timecode_text(c, base) + " "@ + timecode_text(
        d,
        base,
    ) + "\n* FROM CLIP NAME: "@ + source_name_of(project, *placed.clip) + "\n"@);
    lemma_event_line(project, placed, channel, number, fps, a, b, c, d);
}

// ---------------------------------------------------------------------------
// The list
// ---------------------------------------------------------------------------

/// What an entry adds to a list.
pub open spec fn added_text(entry: Entry, project: Project, channel: Seq<char>, number: int, fps: Fps) -> Seq<
    char,
> {
    match entry {
        Entry::Blank { .. } => seq![],
        Entry::Clip(placed) => event_text(project, placed, channel, number, fps)
            + crate::edl::effect_text(*placed.clip) + retime_text(project, placed, fps),
    }
}

proof fn lemma_added(st: ListView, entry: Entry, project: Project, channel: Seq<char>, fps: Fps)
    ensures
        list_entry(st, entry, project, channel, fps).text == st.text + added_text(
            entry,
            project,
            channel,
            st.events + 1,
            fps,
        ),
{
    match entry {
        Entry::Blank { .. } => {
            assert(st.text + Seq::<char>::empty() =~= st.text);
        },
        Entry::Clip(placed) => {
            let a = event_text(project, placed, channel, st.events + 1, fps);
            let b = crate::edl::effect_text(*placed.clip);
            let c = retime_text(project, placed, fps);
            lemma_sums(st.text, a, b, c);
        },
    }
}

proof fn lemma_sums(t: Seq<char>, a: Seq<char>, b: Seq<char>, c: Seq<char>)
    ensures
        t + a + b + c == t + (a + b + c),
        t + (a + b + c) == t + a + (b + c),
{
    assert(t + a + b + c =~= t + (a + b + c));
    assert(t + (a + b + c) =~= t + a + (b + c));
}

/// Every clip of a track becomes one event, and the events are numbered one after the other.
pub proof fn law_every_clip_is_one_event(
    st: ListView,
    entries: Seq<Entry>,
    project: Project,
    channel: Seq<char>,
    fps: Fps,
    k: int,
) -> (r: (Seq<char>, Seq<char>))
    requires
        0 <= k < placed_in(entries).len(),
    ensures
        list_entries(st, entries, project, channel, fps).events == st.events + placed_in(
            entries,
        ).len(),
        list_entries(st, entries, project, channel, fps).text == r.0 + event_text(
            project,
            placed_in(entries)[k],
            channel,
            st.events + k + 1,
            fps,
        ) + r.1,
    decreases entries.len(),
{
    let rest = entries.drop_last();
    lemma_events_counted(st, entries, project, channel, fps);
    lemma_events_counted(st, rest, project, channel, fps);
    let before = list_entries(st, rest, project, channel, fps);
    lemma_added(before, entries.last(), project, channel, fps);
    let more = added_text(entries.last(), project, channel, before.events + 1, fps);
    if k < placed_in(rest).len() {
        let (a, b) = law_every_clip_is_one_event(st, rest, project, channel, fps, k);
        let event = event_text(project, placed_in(rest)[k], channel, st.events + k + 1, fps);
        assert(placed_in(entries)[k] == placed_in(rest)[k]);
        lemma_sums(a, event, b, more);
        (a, b + more)
    } else {
        let placed = entries.last()->Clip_0;
        let event = event_text(project, placed, channel, st.events + k + 1, fps);
        let b = crate::edl::effect_text(*placed.clip);
        let c = retime_text(project, placed, fps);
        lemma_sums(before.text, event, b, c);
        (before.text, b + c)
    }
}

proof fn lemma_events_counted(
    st: ListView,
    entries: Seq<Entry>,
    project: Project,
    channel: Seq<char>,
    fps: Fps,
)
    ensures
        list_entries(st, entries, project, channel, fps).events == st.events + placed_in(
            entries,
        ).len(),
    decreases entries.len(),
{
    if entries.len() > 0 {
        lemma_events_counted(st, entries.drop_last(), project, channel, fps);
    }
}

// ---------------------------------------------------------------------------
// Retimes and channels
// ---------------------------------------------------------------------------

/// A clip that plays as it was shot has no speed record; any other has one, on a line of its own.
pub proof fn law_only_a_retime_is_recorded(project: Project, placed: Placed, fps: Fps)
    ensures
        placed.clip.speed.num == placed.clip.speed.den && !placed.clip.reverse ==> retime_text(
            project,
            placed,
            fps,
        ).len() == 0,
        placed.clip.speed.num != placed.clip.speed.den || placed.clip.reverse ==> retime_text(
            project,
            placed,
            fps,
        ).len() > 0 && retime_text(project, placed, fps)[0] == 'M' && retime_text(
            project,
            placed,
            fps,
        ).last() == '\n',
{
    reveal_strlit("M2   ");
    reveal_strlit("\n");
}

/// The rate of a retime is speed times frame rate, to the nearest tenth, and starts with a minus
/// sign exactly if the clip plays backwards.
pub proof fn law_a_retime_states_its_rate(clip: Clip, fps: Fps)
    requires
        clip.wf(),
        fps.wf(),
    ensures
        is_nearest(
            clip.speed.num * fps.rate.num * 10,
            clip.speed.den * fps.rate.den,
            play_tenths(clip, fps),
        ),
        clip.reverse <==> play_rate(clip, fps).len() > 0 && play_rate(clip, fps)[0] == '-',
{
    let bottom = clip.speed.den * fps.rate.den;
    assert(bottom > 0) by (nonlinear_arith)
        requires
            clip.speed.den > 0,
            fps.rate.den > 0,
            bottom == clip.speed.den * fps.rate.den,
    ;
    let top = clip.speed.num * fps.rate.num;
    assert(top >= 0) by (nonlinear_arith)
        requires
            clip.speed.num > 0,
            fps.rate.num > 0,
            top == clip.speed.num * fps.rate.num,
    ;
    law_rounding_to_even_gives_the_nearest(top * 10, bottom);
    reveal_strlit("-");
    let tenths = play_tenths(clip, fps);
    assert(tenths >= 0) by (nonlinear_arith)
        requires
            -bottom <= 2 * (top * 10 - tenths * bottom) <= bottom,
            top >= 0,
            bottom > 0,
    ;
    crate::text::lemma_dec((tenths / 10) as nat);
    reveal_with_fuel(crate::number::pow10, 2);
    let text = crate::number::fixed_text(tenths, 1);
    assert(crate::number::pow10(1) == 10);
    assert(is_digit(crate::text::dec((tenths / 10) as nat)[0]));
    assert(text[0] == crate::text::dec((tenths / 10) as nat)[0]);
}

/// Video is on one channel, and every audio track on one of its own.
pub proof fn law_audio_tracks_have_channels_of_their_own(tracks: Seq<Track>, i: int, j: int)
    requires
        0 <= i < j < tracks.len(),
    ensures
        tracks[i].kind != TrackKind::Audio ==> channel_of_last(tracks.take(i + 1)) == "V"@,
        tracks[i].kind == TrackKind::Audio ==> channel_of_last(tracks.take(i + 1))[0] == 'A',
        tracks[i].kind == TrackKind::Audio && tracks[j].kind == TrackKind::Audio
            ==> channel_of_last(tracks.take(i + 1)) != channel_of_last(tracks.take(j + 1)),
{
    reveal_strlit("A");
    let a = tracks.take(i + 1);
    let b = tracks.take(j + 1);
    assert(a.last() == tracks[i]);
    assert(b.last() == tracks[j]);
    if tracks[i].kind == TrackKind::Audio && tracks[j].kind == TrackKind::Audio {
        assert(b.drop_last() =~= tracks.take(j));
        lemma_audio_counts(tracks, i + 1, j);
        let (m, n) = (audio_count(a), audio_count(b));
        assert(m < n);
        crate::text::lemma_dec(m);
        crate::text::lemma_dec(n);
        let (x, y) = (channel_of_last(a), channel_of_last(b));
        if x == y {
            if m == 1 {
                assert(y.len() == 1 + crate::text::dec(n).len());
            } else {
                assert(x.skip(1) =~= crate::text::dec(m));
                assert(y.skip(1) =~= crate::text::dec(n));
            }
        }
    }
    assert(a.drop_last() =~= tracks.take(i));
}

proof fn lemma_audio_counts(tracks: Seq<Track>, n: int, m: int)
    requires
        0 <= n <= m <= tracks.len(),
    ensures
        audio_count(tracks.take(n)) <= audio_count(tracks.take(m)),
    decreases m - n,
{
    if n < m {
        assert(tracks.take(m).drop_last() =~= tracks.take(m - 1));
        lemma_audio_counts(tracks, n, m - 1);
    }
}

/// A reel name is made of the letters and digits of the name, in order, as many as there are up to
/// eight.
pub proof fn law_a_reel_takes_up_what_it_can(s: Seq<char>, most: nat)
    ensures
        alphanumerics(s, most).len() <= most,
        alphanumerics(s, most).len() <= s.len(),
        alphanumerics(s, most).len() < most ==> alphanumerics(s, most).len() == s.filter(
            |c: char| is_digit(c) || is_upper(c) || is_lower(c),
        ).len(),
    decreases s.len(),
{
    let keep = |c: char| is_digit(c) || is_upper(c) || is_lower(c);
    if s.len() > 0 && most > 0 {
        let rest = s.skip(1);
        assert(s =~= seq![s[0]] + rest);
        Seq::filter_distributes_over_add(seq![s[0]], rest, keep);
        reveal(Seq::filter);
        assert(seq![s[0]].drop_last() =~= Seq::<char>::empty());
        assert(Seq::<char>::empty().filter(keep).len() == 0);
        assert(seq![s[0]].filter(keep).len() == if keep(s[0]) {
            1nat
        } else {
            0nat
        });
        if is_alphanumeric(s[0]) {
            law_a_reel_takes_up_what_it_can(rest, (most - 1) as nat);
        } else {
            law_a_reel_takes_up_what_it_can(rest, most);
        }
    } else if s.len() == 0 {
        reveal(Seq::filter);
    }
}

} // verus!
