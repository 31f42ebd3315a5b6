//! What instants, rates, paths and listings are read as.

use crate::number::pow10;
use crate::paths::{extension_of, file_name_of, join_path, last_name, rfind};
use crate::rational::Rat;
use crate::subtitle_laws::lemma_split_three;
use crate::text::{
    all_digits, dec, dec_int, digits_value, find, has_char, is_white, lemma_dec, lemma_dec_int,
    lemma_find_is, trim, trim_end, trim_start, words,
};
use crate::time::{Fps, Time};
use crate::time_text::{
    amount_of, clock_of, decimal_of, fraction_of, is_unit, rate_value, ratio_of, time_at, time_of,
    unit_of, units_of,
};
use crate::toolchain::{kept, name_in, names_of};
use vstd::prelude::*;

verus! {

// ---------------------------------------------------------------------------
// Instants
// ---------------------------------------------------------------------------

proof fn lemma_no_mark(s: Seq<char>, mark: char)
    requires
        all_digits(s),
        !('0' <= mark <= '9'),
    ensures
        !has_char(s, mark),
        find(s, mark) == s.len(),
{
    assert forall|i: int| 0 <= i < s.len() implies s[i] != mark by {
        assert(crate::text::is_digit(s[i]));
    }
    lemma_find_is(s, mark, s.len() as int);
}

proof fn lemma_trimmed(s: Seq<char>)
    requires
        s.len() > 0,
        !is_white(s[0]),
        !is_white(s.last()),
    ensures
        trim(s) == s,
{
    assert(trim_start(s) == s);
    assert(trim_end(s) == s);
}

proof fn lemma_whole(s: Seq<char>)
    requires
        all_digits(s),
        1 <= s.len() <= 18,
    ensures
        decimal_of(s) == Some((digits_value(s) as int, 1int)),
{
    lemma_no_mark(s, '.');
    assert(s.take(s.len() as int) + fraction_of(s) =~= s);
    assert(pow10(0) == 1);
}

/// A whole number spells so many seconds, and with a minus in front of it so many before zero.
pub proof fn law_a_number_is_so_many_seconds(n: nat)
    requires
        dec(n).len() <= 18,
        n <= i64::MAX,
    ensures
        time_of(dec(n)) matches Some(time) && time.wf() && time.secs.is(n as int, 1),
        time_of(seq!['-'] + dec(n)) matches Some(time) && time.wf() && time.secs.is(-n, 1),
{
    lemma_dec(n);
    let s = dec(n);
    assert(crate::text::is_digit(s[0]) && crate::text::is_digit(s[s.len() - 1]));
    lemma_trimmed(s);
    lemma_no_mark(s, '/');
    lemma_no_mark(s, ':');
    lemma_whole(s);
    assert(amount_of(s) == Some((n as int, 1int)));
    crate::time::lemma_small_fits(n as int, 1);
    crate::time::lemma_small_fits(-n, 1);
    Rat::lemma_of(n as int, 1);
    Rat::lemma_of(-n, 1);
    let t = seq!['-'] + s;
    assert(t[0] == '-');
    assert(t.last() == s[s.len() - 1]);
    lemma_trimmed(t);
    assert(t.skip(1) =~= s);
}

proof fn lemma_ratio(n: nat, d: nat)
    requires
        dec(n).len() <= 18,
        dec(d).len() <= 18,
        d > 0,
    ensures
        ratio_of(dec(n) + seq!['/'] + dec(d)) == Some((n as int, d as int)),
        has_char(dec(n) + seq!['/'] + dec(d), '/'),
        trim(dec(n) + seq!['/'] + dec(d)) == dec(n) + seq!['/'] + dec(d),
{
    lemma_dec(n);
    lemma_dec(d);
    let s = dec(n) + seq!['/'] + dec(d);
    let at = dec(n).len() as int;
    assert(s[at] == '/');
    assert forall|i: int| 0 <= i < at implies s[i] != '/' by {
        assert(s[i] == dec(n)[i]);
        assert(crate::text::is_digit(dec(n)[i]));
    }
    lemma_find_is(s, '/', at);
    assert(s.take(at) =~= dec(n));
    assert(s.skip(at + 1) =~= dec(d));
    assert(s[0] == dec(n)[0] && crate::text::is_digit(dec(n)[0]));
    assert(s.last() == dec(d)[dec(d).len() - 1]);
    assert(crate::text::is_digit(dec(d)[dec(d).len() - 1]));
    lemma_trimmed(s);
}

/// A quotient spells that part of a second; the same text spells that rate.
pub proof fn law_a_quotient_is_part_of_a_second(n: nat, d: nat)
    requires
        dec(n).len() <= 18,
        dec(d).len() <= 18,
        n <= i64::MAX,
        0 < d <= i64::MAX,
    ensures
        time_of(dec(n) + seq!['/'] + dec(d)) matches Some(time) && time.wf() && time.secs.is(
            n as int,
            d as int,
        ),
        n > 0 ==> (rate_value(dec(n) + seq!['/'] + dec(d)) matches Some(fps) && fps.rate.is(
            n as int,
            d as int,
        )),
        n == 0 ==> rate_value(dec(n) + seq!['/'] + dec(d)) is None,
{
    lemma_ratio(n, d);
    lemma_dec(n);
    let s = dec(n) + seq!['/'] + dec(d);
    assert(s[0] == dec(n)[0] && crate::text::is_digit(dec(n)[0]));
    crate::time::lemma_small_fits(n as int, d as int);
    Rat::lemma_of(n as int, d as int);
}

/// A number with an `f` behind it spells the instant of that frame.
pub proof fn law_frames_are_counted(n: int, fps: Fps)
    requires
        i64::MIN <= n <= i64::MAX,
        fps.wf(),
        Time::frames_fit(n, fps),
    ensures
        time_at(dec_int(n) + seq!['f'], fps) matches Some(time) && time.wf() && time.secs.num
            * fps.rate.num == (n * fps.rate.den) * time.secs.den,
{
    lemma_dec_int(n);
    let s = dec_int(n) + seq!['f'];
    if n < 0 {
        lemma_dec((-n) as nat);
    } else {
        lemma_dec(n as nat);
    }
    assert(dec_int(n).len() > 0);
    assert(s[0] == dec_int(n)[0]);
    assert(crate::text::is_digit(dec_int(n)[0]) || dec_int(n)[0] == '-');
    assert(s.last() == 'f');
    lemma_trimmed(s);
    assert(s.drop_last() =~= dec_int(n));
    Rat::lemma_of(n * fps.rate.den, fps.rate.num as int);
}

/// A clock spells its hours, minutes and seconds.
pub proof fn law_a_clock_is_read(h: nat, m: nat, s: nat)
    requires
        dec(h).len() <= 9,
        dec(m).len() <= 9,
        dec(s).len() <= 18,
    ensures
        clock_of(dec(h) + seq![':'] + dec(m) + seq![':'] + dec(s)) == Some(
            ((h * 3600 + m * 60 + s) as int, 1int),
        ),
        amount_of(dec(h) + seq![':'] + dec(m) + seq![':'] + dec(s)) == clock_of(
            dec(h) + seq![':'] + dec(m) + seq![':'] + dec(s),
        ),
{
    lemma_dec(h);
    lemma_dec(m);
    lemma_dec(s);
    lemma_split_three(dec(h), dec(m), dec(s));
    lemma_whole(dec(s));
    let text = dec(h) + seq![':'] + dec(m) + seq![':'] + dec(s);
    assert((h * 3600 + m * 60) * 1 + s == h * 3600 + m * 60 + s);
    lemma_digits_and(text, '/');
    let at = dec(h).len() as int;
    assert(text[at] == ':');
    assert forall|i: int| 0 <= i < at implies text[i] != ':' by {
        assert(text[i] == dec(h)[i]);
        assert(crate::text::is_digit(dec(h)[i]));
    }
    lemma_find_is(text, ':', at);
}

/// A text of digits and colons has no other mark.
proof fn lemma_digits_and(text: Seq<char>, mark: char)
    requires
        forall|i: int| 0 <= i < text.len() ==> #[trigger] text[i] == ':' || crate::text::is_digit(
            text[i],
        ),
        mark == '/',
    ensures
        !has_char(text, mark),
{
    assert forall|i: int| 0 <= i < text.len() implies text[i] != mark by {
        assert(text[i] == ':' || crate::text::is_digit(text[i]));
    }
    lemma_find_is(text, mark, text.len() as int);
}

/// A number in front of a unit counts it, and what follows is left; where the unit is absent nothing is
/// counted.
pub proof fn law_a_unit_counts_what_is_in_front_of_it(n: nat, unit: char, rest: Seq<char>)
    requires
        is_unit(unit),
        dec(n).len() <= 9,
    ensures
        unit_of(dec(n) + seq![unit] + rest, unit) == Some((n as int, rest)),
        !has_char(rest, unit) ==> unit_of(rest, unit) == Some((0int, rest)),
{
    lemma_dec(n);
    let s = dec(n) + seq![unit] + rest;
    let at = dec(n).len() as int;
    assert(s[at] == unit);
    assert forall|i: int| 0 <= i < at implies s[i] != unit by {
        assert(s[i] == dec(n)[i]);
        assert(crate::text::is_digit(dec(n)[i]));
    }
    lemma_find_is(s, unit, at);
    assert(s.take(at) =~= dec(n));
    assert(s.skip(at + 1) =~= rest);
}

/// Hours are 3600 seconds and minutes 60.
pub proof fn law_hours_and_minutes_are_added(h: nat, m: nat, s: nat)
    requires
        dec(h).len() <= 9,
        dec(m).len() <= 9,
        dec(s).len() <= 18,
    ensures
        units_of(dec(h) + seq!['h'] + (dec(m) + seq!['m'] + (dec(s) + seq!['s']))) == Some(
            ((h * 3600 + m * 60 + s) as int, 1int),
        ),
        units_of(dec(h) + seq!['h'] + (dec(m) + seq!['m'] + seq![])) == Some(
            ((h * 3600 + m * 60) as int, 1int),
        ),
{
    lemma_dec(s);
    let last = dec(s) + seq!['s'];
    law_a_unit_counts_what_is_in_front_of_it(m, 'm', last);
    law_a_unit_counts_what_is_in_front_of_it(h, 'h', dec(m) + seq!['m'] + last);
    law_a_unit_counts_what_is_in_front_of_it(m, 'm', seq![]);
    law_a_unit_counts_what_is_in_front_of_it(h, 'h', dec(m) + seq!['m'] + seq![]);
    assert(last.last() == 's');
    assert(last.drop_last() =~= dec(s));
    lemma_whole(dec(s));
    assert((h * 3600 + m * 60) * 1 + s == h * 3600 + m * 60 + s);
}

// ---------------------------------------------------------------------------
// Paths
// ---------------------------------------------------------------------------

/// A path that is absolute stays, another is below the root, with one separator between them.
pub proof fn law_a_relative_path_is_below_the_root(root: Seq<char>, path: Seq<char>)
    ensures
        path.len() > 0 && path[0] == '/' ==> join_path(root, path) == path,
        root.len() == 0 ==> join_path(root, path) == path,
        !(path.len() > 0 && path[0] == '/') && root.len() > 0 && root.last() == '/' ==> join_path(
            root,
            path,
        ) == root + path,
        !(path.len() > 0 && path[0] == '/') && root.len() > 0 && root.last() != '/' ==> join_path(
            root,
            path,
        ) == root + seq!['/'] + path,
{
}

/// An extension is what follows the last point of a file's name, unless that is where the name begins.
pub proof fn law_an_extension_follows_the_last_point(path: Seq<char>, name: Seq<char>, ext: Seq<char>)
    requires
        name.len() > 0,
        file_name_of(path) == Some(name + seq!['.'] + ext),
        forall|i: int| 0 <= i < ext.len() ==> ext[i] != '.',
    ensures
        extension_of(path) == Some(ext),
{
    let whole = name + seq!['.'] + ext;
    crate::paths::lemma_rfind(whole, '.');
    let at = name.len() as int;
    assert(whole[at] == '.');
    let r = rfind(whole, '.');
    if r > at {
        assert(whole[r] == ext[r - at - 1]);
    }
    assert(r == at);
    assert(whole.skip(r + 1) =~= ext);
}

/// The name of a file is the last piece of its path that names something.
pub proof fn law_the_last_piece_names_the_file(pieces: Seq<Seq<char>>, piece: Seq<char>)
    ensures
        piece.len() > 0 && piece != seq!['.'] ==> last_name(pieces.push(piece)) == Some(piece),
        piece.len() == 0 || piece == seq!['.'] ==> last_name(pieces.push(piece)) == last_name(
            pieces,
        ),
        last_name(Seq::<Seq<char>>::empty()) is None,
{
    assert(pieces.push(piece).drop_last() =~= pieces);
}

// ---------------------------------------------------------------------------
// Listings
// ---------------------------------------------------------------------------

/// A line of a listing declares its second word, where its first is short and states no key; every
/// such line does, in its place.
pub proof fn law_a_line_declares_its_second_word(listing: Seq<Seq<char>>, line: Seq<char>)
    ensures
        names_of(Seq::<Seq<char>>::empty()).len() == 0,
        name_in(line) matches Some(name) ==> words(line).len() >= 2 && name == words(line)[1]
            && names_of(listing.push(line)) == names_of(listing).push(name),
        name_in(line) is None ==> names_of(listing.push(line)) == names_of(listing),
        name_in(line) is Some <==> words(line).len() >= 2 && crate::text::byte_len(words(line)[0])
            <= 8 && !has_char(words(line)[0], '='),
{
    assert(listing.push(line).drop_last() =~= listing);
}

/// Of the names that are wanted exactly those are kept that are there.
pub proof fn law_only_what_is_there_is_kept(names: Seq<Seq<char>>, have: Seq<Seq<char>>, name: Seq<char>)
    ensures
        kept(names, have).contains(name) <==> names.contains(name) && have.contains(name),
    decreases names.len(),
{
    reveal(Seq::filter);
    if names.len() > 0 {
        let rest = names.drop_last();
        law_only_what_is_there_is_kept(rest, have, name);
        let (before, all) = (kept(rest, have), kept(names, have));
        let n = names.len() - 1;
        if before.contains(name) {
            let i = choose|i: int| 0 <= i < before.len() && before[i] == name;
            assert(all[i] == name);
        }
        if rest.contains(name) {
            let i = choose|i: int| 0 <= i < rest.len() && rest[i] == name;
            assert(names[i] == name);
        }
        if names.contains(name) && !rest.contains(name) {
            let i = choose|i: int| 0 <= i < names.len() && names[i] == name;
            if i < n {
                assert(rest[i] == name);
            }
            assert(names.last() == name);
            if have.contains(name) {
                assert(all[all.len() - 1] == name);
            }
        }
        if all.contains(name) && !before.contains(name) {
            let i = choose|i: int| 0 <= i < all.len() && all[i] == name;
            if i < before.len() {
                assert(before[i] == name);
            }
            assert(names[n] == name);
        }
    } else {
        assert(kept(names, have).len() == 0);
    }
}

} // verus!
