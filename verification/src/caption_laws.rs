//! How a caption file marks its encoding and ends its lines changes nothing.

use crate::subtitle::{captions_in, without_mark};
use crate::text::{find, has_char, lemma_find, lemma_find_is, lines, strip_return};
use vstd::prelude::*;

verus! {

/// A text whose lines end in a carriage return and a line feed.
pub open spec fn with_returns(s: Seq<char>) -> Seq<char>
    decreases s.len(),
{
    if s.len() == 0 {
        seq![]
    } else if s[0] == '\n' {
        seq!['\r', '\n'] + with_returns(s.skip(1))
    } else {
        seq![s[0]] + with_returns(s.skip(1))
    }
}

/// A line has no line feed in it, and stays as it is in front of the one that ends it.
proof fn lemma_returned(s: Seq<char>, n: int)
    requires
        0 <= n <= s.len(),
        forall|i: int| 0 <= i < n ==> s[i] != '\n',
    ensures
        with_returns(s) == s.take(n) + with_returns(s.skip(n)),
    decreases n,
{
    if n == 0 {
        assert(s.skip(0) =~= s);
        assert(s.take(0) + with_returns(s) =~= with_returns(s));
    } else {
        let rest = s.skip(1);
        assert forall|i: int| 0 <= i < n - 1 implies rest[i] != '\n' by {
            assert(rest[i] == s[i + 1]);
        }
        lemma_returned(rest, n - 1);
        assert(rest.skip(n - 1) =~= s.skip(n));
        assert(seq![s[0]] + (rest.take(n - 1) + with_returns(s.skip(n))) =~= s.take(n)
            + with_returns(s.skip(n)));
    }
}

proof fn lemma_lines_returned(s: Seq<char>)
    requires
        !s.contains('\r'),
    ensures
        lines(with_returns(s)) == lines(s),
    decreases s.len(),
{
    lemma_find(s, '\n');
    let n = find(s, '\n');
    lemma_returned(s, n);
    let t = with_returns(s);
    if s.len() == 0 {
    } else if has_char(s, '\n') {
        let rest = s.skip(n + 1);
        assert(s.skip(n)[0] == '\n');
        assert(s.skip(n).skip(1) =~= rest);
        assert(t =~= s.take(n) + (seq!['\r', '\n'] + with_returns(rest)));
        assert forall|i: int| 0 <= i < n + 1 implies t[i] != '\n' by {
            if i < n {
                assert(t[i] == s[i]);
            }
        }
        lemma_find_is(t, '\n', n + 1);
        assert(t.take(n + 1) =~= s.take(n).push('\r'));
        assert(t.take(n + 1).drop_last() =~= s.take(n));
        assert(t.skip(n + 2) =~= with_returns(rest));
        assert(strip_return(s.take(n)) == s.take(n)) by {
            if n > 0 {
                assert(s.take(n).last() == s[n - 1]);
                assert(s.contains(s[n - 1]));
            }
        }
        assert(!rest.contains('\r')) by {
            if rest.contains('\r') {
                let i = choose|i: int| 0 <= i < rest.len() && rest[i] == '\r';
                assert(s[i + n + 1] == '\r');
            }
        }
        lemma_lines_returned(rest);
    } else {
        assert(n == s.len());
        assert(s.skip(n) =~= seq![]);
        assert(t =~= s);
    }
}

/// A byte order mark in front of a caption file changes nothing of what it says.
pub proof fn law_a_byte_order_mark_changes_nothing(text: Seq<char>, format: Seq<char>)
    requires
        text.len() > 0 ==> text[0] != '\u{feff}',
    ensures
        captions_in(seq!['\u{feff}'] + text, format) == captions_in(text, format),
{
    assert((seq!['\u{feff}'] + text).skip(1) =~= text);
    assert(without_mark(seq!['\u{feff}'] + text) == without_mark(text));
}

/// A caption file says the same whether its lines end in a line feed or in a carriage return and a
/// line feed.
pub proof fn law_line_endings_change_nothing(text: Seq<char>, format: Seq<char>)
    requires
        !text.contains('\r'),
    ensures
        captions_in(with_returns(text), format) == captions_in(text, format),
{
    let body = without_mark(text);
    assert(without_mark(with_returns(text)) == with_returns(body)) by {
        if text.len() > 0 {
            if text[0] == '\u{feff}' {
                assert((seq![text[0]] + with_returns(text.skip(1))).skip(1) =~= with_returns(
                    text.skip(1),
                ));
            }
        }
    }
    assert(!body.contains('\r')) by {
        if body.contains('\r') {
            let i = choose|i: int| 0 <= i < body.len() && body[i] == '\r';
            if body == text.skip(1) {
                assert(text[i + 1] == '\r');
            } else {
                assert(text[i] == '\r');
            }
        }
    }
    lemma_lines_returned(body);
}

} // verus!
