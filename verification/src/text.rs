//! Text as sequences of characters: what the formats in this crate read and print.
//!
//! Everything is stated over `Seq<char>`, the view of `String` and `&str`. Readers work on
//! a `Vec<char>` taken once from the input; writers append to a `String`.

use vstd::prelude::*;

verus! {

// ---------------------------------------------------------------------------
// Characters
// ---------------------------------------------------------------------------

/// The characters with the Unicode property White_Space.
pub open spec fn is_white(c: char) -> bool {
    ||| '\u{9}' <= c && c <= '\u{d}'
    ||| c == ' '
    ||| c == '\u{85}'
    ||| c == '\u{a0}'
    ||| c == '\u{1680}'
    ||| '\u{2000}' <= c && c <= '\u{200a}'
    ||| c == '\u{2028}'
    ||| c == '\u{2029}'
    ||| c == '\u{202f}'
    ||| c == '\u{205f}'
    ||| c == '\u{3000}'
}

pub open spec fn is_digit(c: char) -> bool {
    '0' <= c && c <= '9'
}

pub open spec fn is_upper(c: char) -> bool {
    'A' <= c && c <= 'Z'
}

pub open spec fn is_lower(c: char) -> bool {
    'a' <= c && c <= 'z'
}

pub open spec fn is_alphanumeric(c: char) -> bool {
    is_digit(c) || is_upper(c) || is_lower(c)
}

pub open spec fn is_hex(c: char) -> bool {
    is_digit(c) || ('a' <= c && c <= 'f') || ('A' <= c && c <= 'F')
}

/// A printable ASCII character other than the space.
pub open spec fn is_graphic(c: char) -> bool {
    '!' <= c && c <= '~'
}

pub open spec fn digit_value(c: char) -> int {
    c as int - '0' as int
}

pub open spec fn digit_char(d: int) -> char {
    ('0' as int + d) as char
}

pub open spec fn hex_char(d: int) -> char {
    if d < 10 {
        digit_char(d)
    } else {
        ('a' as int + d - 10) as char
    }
}

pub open spec fn hex_char_upper(d: int) -> char {
    if d < 10 {
        digit_char(d)
    } else {
        ('A' as int + d - 10) as char
    }
}

/// ASCII upper-case letters folded to lower case, everything else unchanged.
pub open spec fn fold(c: char) -> char {
    if is_upper(c) {
        (c as int + 32) as char
    } else {
        c
    }
}

/// ASCII lower-case letters raised to upper case, everything else unchanged.
pub open spec fn raise(c: char) -> char {
    if is_lower(c) {
        (c as int - 32) as char
    } else {
        c
    }
}

pub fn white(c: char) -> (r: bool)
    ensures
        r == is_white(c),
{
    ('\u{9}' <= c && c <= '\u{d}') || c == ' ' || c == '\u{85}' || c == '\u{a0}' || c == '\u{1680}'
        || ('\u{2000}' <= c && c <= '\u{200a}') || c == '\u{2028}' || c == '\u{2029}'
        || c == '\u{202f}' || c == '\u{205f}' || c == '\u{3000}'
}

pub fn digit(c: char) -> (r: bool)
    ensures
        r == is_digit(c),
{
    '0' <= c && c <= '9'
}

pub fn alphanumeric(c: char) -> (r: bool)
    ensures
        r == is_alphanumeric(c),
{
    ('0' <= c && c <= '9') || ('A' <= c && c <= 'Z') || ('a' <= c && c <= 'z')
}

pub fn hex_digit(c: char) -> (r: bool)
    ensures
        r == is_hex(c),
{
    ('0' <= c && c <= '9') || ('a' <= c && c <= 'f') || ('A' <= c && c <= 'F')
}

pub fn graphic(c: char) -> (r: bool)
    ensures
        r == is_graphic(c),
{
    '!' <= c && c <= '~'
}

pub fn fold_char(c: char) -> (r: char)
    ensures
        r == fold(c),
{
    if 'A' <= c && c <= 'Z' {
        let code: u8 = c as u8 + 32;
        code as char
    } else {
        c
    }
}

pub fn raise_char(c: char) -> (r: char)
    ensures
        r == raise(c),
{
    if 'a' <= c && c <= 'z' {
        let code: u8 = c as u8 - 32;
        code as char
    } else {
        c
    }
}

fn digit_of(d: u8) -> (r: char)
    requires
        d < 10,
    ensures
        r == digit_char(d as int),
{
    let code: u8 = 48 + d;
    code as char
}

fn hex_of(d: u8) -> (r: char)
    requires
        d < 16,
    ensures
        r == hex_char(d as int),
{
    if d < 10 {
        digit_of(d)
    } else {
        let code: u8 = 87 + d;
        code as char
    }
}

fn hex_upper_of(d: u8) -> (r: char)
    requires
        d < 16,
    ensures
        r == hex_char_upper(d as int),
{
    if d < 10 {
        digit_of(d)
    } else {
        let code: u8 = 55 + d;
        code as char
    }
}

// ---------------------------------------------------------------------------
// Building strings
// ---------------------------------------------------------------------------

/// `String::push`: appends the character to the end of the string.
#[verifier::external_body]
pub(crate) fn push_char(out: &mut String, c: char)
    ensures
        final(out)@ == old(out)@.push(c),
{
    out.push(c)
}

/// Text of a decimal number, without leading zeros.
pub open spec fn dec(n: nat) -> Seq<char>
    decreases n,
{
    if n < 10 {
        seq![digit_char(n as int)]
    } else {
        dec(n / 10).push(digit_char((n % 10) as int))
    }
}

/// Text of a signed decimal number.
pub open spec fn dec_int(i: int) -> Seq<char> {
    if i < 0 {
        seq!['-'] + dec((-i) as nat)
    } else {
        dec(i as nat)
    }
}

pub open spec fn repeat(c: char, n: nat) -> Seq<char> {
    Seq::new(n, |i: int| c)
}

/// `text` widened to at least `width` characters by `c` on the left.
pub open spec fn pad_left(text: Seq<char>, width: nat, c: char) -> Seq<char> {
    if text.len() >= width {
        text
    } else {
        repeat(c, (width - text.len()) as nat) + text
    }
}

/// `text` widened to at least `width` characters by `c` on the right.
pub open spec fn pad_right(text: Seq<char>, width: nat, c: char) -> Seq<char> {
    if text.len() >= width {
        text
    } else {
        text + repeat(c, (width - text.len()) as nat)
    }
}

/// A decimal number with at least `width` digits.
pub open spec fn dec_wide(n: nat, width: nat) -> Seq<char> {
    pad_left(dec(n), width, '0')
}

/// The two lower-case hexadecimal digits of a byte.
pub open spec fn hex2(b: u8) -> Seq<char> {
    seq![hex_char(b as int / 16), hex_char(b as int % 16)]
}

/// The two upper-case hexadecimal digits of a byte.
pub open spec fn hex2_upper(b: u8) -> Seq<char> {
    seq![hex_char_upper(b as int / 16), hex_char_upper(b as int % 16)]
}

/// The lower-case hexadecimal digits of a run of bytes.
pub open spec fn hex_run(bytes: Seq<u8>) -> Seq<char>
    decreases bytes.len(),
{
    if bytes.len() == 0 {
        seq![]
    } else {
        hex_run(bytes.drop_last()) + hex2(bytes.last())
    }
}

pub fn push_dec(out: &mut String, n: u128)
    ensures
        final(out)@ == old(out)@ + dec(n as nat),
    decreases n,
{
    if n >= 10 {
        push_dec(out, n / 10);
    }
    let d: u8 = (n % 10) as u8;
    push_char(out, digit_of(d));
    proof {
        if n >= 10 {
            assert(old(out)@ + dec((n / 10) as nat).push(digit_char((n % 10) as int))
                =~= (old(out)@ + dec((n / 10) as nat)).push(digit_char((n % 10) as int)));
        } else {
            assert(old(out)@ + seq![digit_char(n as int)] =~= old(out)@.push(digit_char(n as int)));
        }
    }
}

pub fn push_int(out: &mut String, i: i128)
    requires
        i > i128::MIN,
    ensures
        final(out)@ == old(out)@ + dec_int(i as int),
{
    if i < 0 {
        push_char(out, '-');
        push_dec(out, (-i) as u128);
        assert(final(out)@ =~= old(out)@ + dec_int(i as int));
    } else {
        push_dec(out, i as u128);
    }
}

/// The decimal text of an unsigned number.
pub fn decimal(n: u128) -> (r: String)
    ensures
        r@ == dec(n as nat),
{
    let mut out = String::new();
    push_dec(&mut out, n);
    assert(out@ =~= dec(n as nat));
    out
}

/// The decimal text of a signed number.
pub fn integer(i: i64) -> (r: String)
    ensures
        r@ == dec_int(i as int),
{
    let mut out = String::new();
    push_int(&mut out, i as i128);
    assert(out@ =~= dec_int(i as int));
    out
}

fn push_repeat(out: &mut String, c: char, n: usize)
    ensures
        final(out)@ == old(out)@ + repeat(c, n as nat),
{
    let mut i: usize = 0;
    while i < n
        invariant
            i <= n,
            out@ == old(out)@ + repeat(c, i as nat),
        decreases n - i,
    {
        push_char(out, c);
        i = i + 1;
        assert(out@ =~= old(out)@ + repeat(c, i as nat));
    }
    assert(out@ =~= old(out)@ + repeat(c, n as nat));
}

/// Appends `text`, preceded by as many `c` as it takes to fill `width`.
pub fn push_padded_left(out: &mut String, text: &str, width: usize, c: char)
    ensures
        final(out)@ == old(out)@ + pad_left(text@, width as nat, c),
{
    let len: usize = text.unicode_len();
    if len < width {
        push_repeat(out, c, width - len);
    }
    out.append(text);
    assert(out@ =~= old(out)@ + pad_left(text@, width as nat, c));
}

/// Appends `text`, followed by as many `c` as it takes to fill `width`.
pub fn push_padded_right(out: &mut String, text: &str, width: usize, c: char)
    ensures
        final(out)@ == old(out)@ + pad_right(text@, width as nat, c),
{
    let len: usize = text.unicode_len();
    out.append(text);
    if len < width {
        push_repeat(out, c, width - len);
    }
    assert(out@ =~= old(out)@ + pad_right(text@, width as nat, c));
}

/// Appends a number with at least `width` digits.
pub fn push_dec_wide(out: &mut String, n: u128, width: usize)
    ensures
        final(out)@ == old(out)@ + dec_wide(n as nat, width as nat),
{
    let digits = decimal(n);
    push_padded_left(out, digits.as_str(), width, '0');
}

/// Appends the two lower-case hexadecimal digits of a byte.
pub fn push_hex2(out: &mut String, b: u8)
    ensures
        final(out)@ == old(out)@ + hex2(b),
{
    push_char(out, hex_of(b / 16));
    push_char(out, hex_of(b % 16));
    assert(out@ =~= old(out)@ + hex2(b));
}

/// Appends the two upper-case hexadecimal digits of a byte.
pub fn push_hex2_upper(out: &mut String, b: u8)
    ensures
        final(out)@ == old(out)@ + hex2_upper(b),
{
    push_char(out, hex_upper_of(b / 16));
    push_char(out, hex_upper_of(b % 16));
    assert(out@ =~= old(out)@ + hex2_upper(b));
}

/// Appends `count` bytes from `from` on as lower-case hexadecimal.
pub fn push_hex_run(out: &mut String, bytes: &Vec<u8>, from: usize, count: usize)
    requires
        from + count <= bytes@.len(),
    ensures
        final(out)@ == old(out)@ + hex_run(bytes@.subrange(from as int, from + count)),
{
    let len: usize = bytes.len();
    let mut i: usize = 0;
    assert(bytes@.subrange(from as int, from as int) =~= seq![]);
    assert(out@ =~= old(out)@ + hex_run(bytes@.subrange(from as int, from as int)));
    while i < count
        invariant
            i <= count,
            from + count <= bytes@.len(),
            len == bytes@.len(),
            out@ == old(out)@ + hex_run(bytes@.subrange(from as int, from + i)),
        decreases count - i,
    {
        push_hex2(out, bytes[from + i]);
        proof {
            let wide = bytes@.subrange(from as int, from + i + 1);
            assert(wide.drop_last() =~= bytes@.subrange(from as int, from + i));
            assert(old(out)@ + hex_run(wide) =~= old(out)@ + hex_run(wide.drop_last()) + hex2(
                wide.last(),
            ));
        }
        i = i + 1;
    }
}

/// The characters of a string, as a vector that can be read by position.
pub fn chars_of(text: &str) -> (r: Vec<char>)
    ensures
        r@ == text@,
{
    let mut out: Vec<char> = Vec::new();
    for c in it: text.chars()
        invariant
            out@ == it.seq().take(it.index() as int),
    {
        out.push(c);
    }
    out
}

/// The string of a run of characters.
pub fn string_of(chars: &Vec<char>) -> (r: String)
    ensures
        r@ == chars@,
{
    string_of_range(chars, 0, chars.len())
}

/// The string of the characters from `from` up to `to`.
pub fn string_of_range(chars: &Vec<char>, from: usize, to: usize) -> (r: String)
    requires
        from <= to <= chars@.len(),
    ensures
        r@ == chars@.subrange(from as int, to as int),
{
    let mut out = String::new();
    let mut i: usize = from;
    while i < to
        invariant
            from <= i <= to <= chars@.len(),
            out@ == chars@.subrange(from as int, i as int),
        decreases to - i,
    {
        push_char(&mut out, chars[i]);
        i = i + 1;
        assert(out@ =~= chars@.subrange(from as int, i as int));
    }
    assert(out@ =~= chars@.subrange(from as int, to as int));
    out
}

/// The pieces one after another.
pub open spec fn concat(parts: Seq<Seq<char>>) -> Seq<char>
    decreases parts.len(),
{
    if parts.len() == 0 {
        seq![]
    } else {
        concat(parts.drop_last()) + parts.last()
    }
}

/// The pieces with `separator` between each two.
pub open spec fn join(parts: Seq<Seq<char>>, separator: Seq<char>) -> Seq<char>
    decreases parts.len(),
{
    if parts.len() == 0 {
        seq![]
    } else if parts.len() == 1 {
        parts[0]
    } else {
        join(parts.drop_last(), separator) + separator + parts.last()
    }
}

pub open spec fn strings(parts: Seq<String>) -> Seq<Seq<char>> {
    parts.map_values(|part: String| part@)
}

pub proof fn lemma_strings_push(parts: Seq<String>, part: String)
    ensures
        strings(parts.push(part)) == strings(parts).push(part@),
{
    assert(strings(parts.push(part)) =~= strings(parts).push(part@));
}

/// Joins strings with a separator between each two.
pub fn joined(parts: &Vec<String>, separator: &str) -> (r: String)
    ensures
        r@ == join(strings(parts@), separator@),
{
    let mut out = String::new();
    let mut i: usize = 0;
    let ghost all = strings(parts@);
    assert(all.take(0) =~= seq![]);
    while i < parts.len()
        invariant
            i <= parts@.len(),
            all == strings(parts@),
            out@ == join(all.take(i as int), separator@),
        decreases parts@.len() - i,
    {
        if i > 0 {
            out.append(separator);
        }
        out.append(parts[i].as_str());
        proof {
            let next = all.take(i + 1);
            assert(next.drop_last() =~= all.take(i as int));
            assert(next.last() == parts@[i as int]@);
            if i == 0 {
                assert(join(all.take(0), separator@) =~= seq![]);
                assert(out@ =~= next[0]);
            }
        }
        i = i + 1;
    }
    assert(all.take(i as int) =~= all);
    out
}

/// A copy of every string, in order.
pub fn copied(parts: &Vec<String>) -> (r: Vec<String>)
    ensures
        strings(r@) == strings(parts@),
{
    let mut out: Vec<String> = Vec::new();
    let mut i: usize = 0;
    while i < parts.len()
        invariant
            i <= parts@.len(),
            strings(out@) =~= strings(parts@).take(i as int),
        decreases parts@.len() - i,
    {
        proof {
            lemma_strings_push(out@, parts@[i as int]);
        }
        let part = parts[i].clone();
        proof {
            lemma_strings_push(out@, part);
        }
        out.push(part);
        i = i + 1;
    }
    assert(strings(parts@).take(i as int) =~= strings(parts@));
    out
}

/// The string's characters, each folded to lower case where it is an ASCII letter.
pub fn folded(text: &str) -> (r: String)
    ensures
        r@ == text@.map_values(|c: char| fold(c)),
{
    let chars = chars_of(text);
    let mut out = String::new();
    let mut i: usize = 0;
    while i < chars.len()
        invariant
            i <= chars@.len(),
            chars@ == text@,
            out@ =~= text@.take(i as int).map_values(|c: char| fold(c)),
        decreases chars@.len() - i,
    {
        push_char(&mut out, fold_char(chars[i]));
        i = i + 1;
        assert(out@ =~= text@.take(i as int).map_values(|c: char| fold(c)));
    }
    assert(text@.take(i as int) =~= text@);
    out
}

/// Equality up to the case of ASCII letters.
pub open spec fn same_folded(a: Seq<char>, b: Seq<char>) -> bool {
    a.map_values(|c: char| fold(c)) == b.map_values(|c: char| fold(c))
}

pub fn equal_folded(a: &str, b: &str) -> (r: bool)
    ensures
        r == same_folded(a@, b@),
{
    let fa = folded(a);
    let fb = folded(b);
    fa == fb
}

/// Equality of two strings.
pub fn same(a: &str, b: &str) -> (r: bool)
    ensures
        r == (a@ == b@),
{
    a.to_owned() == b.to_owned()
}

/// Whether one of the strings is `text`.
pub fn among(parts: &Vec<String>, text: &str) -> (r: bool)
    ensures
        r == strings(parts@).contains(text@),
{
    let mut i: usize = 0;
    while i < parts.len()
        invariant
            i <= parts@.len(),
            forall|k: int| 0 <= k < i ==> strings(parts@)[k] != text@,
        decreases parts@.len() - i,
    {
        if same(parts[i].as_str(), text) {
            assert(strings(parts@)[i as int] == text@);
            return true;
        }
        i = i + 1;
    }
    false
}

// ---------------------------------------------------------------------------
// Trimming
// ---------------------------------------------------------------------------

/// `s` without its leading white space.
pub open spec fn trim_start(s: Seq<char>) -> Seq<char>
    decreases s.len(),
{
    if s.len() > 0 && is_white(s[0]) {
        trim_start(s.skip(1))
    } else {
        s
    }
}

/// `s` without its trailing white space.
pub open spec fn trim_end(s: Seq<char>) -> Seq<char>
    decreases s.len(),
{
    if s.len() > 0 && is_white(s.last()) {
        trim_end(s.drop_last())
    } else {
        s
    }
}

/// `s` without white space at either end.
pub open spec fn trim(s: Seq<char>) -> Seq<char> {
    trim_end(trim_start(s))
}

/// Where the white space at the front of `[from, to)` ends.
pub fn skip_white(chars: &Vec<char>, from: usize, to: usize) -> (r: usize)
    requires
        from <= to <= chars@.len(),
    ensures
        from <= r <= to,
        chars@.subrange(r as int, to as int) == trim_start(chars@.subrange(from as int, to as int)),
{
    let mut i: usize = from;
    while i < to && white(chars[i])
        invariant
            from <= i <= to <= chars@.len(),
            trim_start(chars@.subrange(i as int, to as int)) == trim_start(
                chars@.subrange(from as int, to as int),
            ),
        decreases to - i,
    {
        assert(chars@.subrange(i as int, to as int).skip(1) =~= chars@.subrange(i + 1, to as int));
        i = i + 1;
    }
    i
}

/// Where the white space at the back of `[from, to)` starts.
pub fn drop_white(chars: &Vec<char>, from: usize, to: usize) -> (r: usize)
    requires
        from <= to <= chars@.len(),
    ensures
        from <= r <= to,
        chars@.subrange(from as int, r as int) == trim_end(chars@.subrange(from as int, to as int)),
{
    let mut i: usize = to;
    while i > from && white(chars[i - 1])
        invariant
            from <= i <= to <= chars@.len(),
            trim_end(chars@.subrange(from as int, i as int)) == trim_end(
                chars@.subrange(from as int, to as int),
            ),
        decreases i,
    {
        assert(chars@.subrange(from as int, i as int).drop_last() =~= chars@.subrange(
            from as int,
            i - 1,
        ));
        i = i - 1;
    }
    i
}

/// The characters without white space at either end.
pub fn trimmed(chars: &Vec<char>) -> (r: Vec<char>)
    ensures
        r@ == trim(chars@),
{
    let n: usize = chars.len();
    assert(chars@.subrange(0, n as int) =~= chars@);
    let from = skip_white(chars, 0, n);
    let to = drop_white(chars, from, n);
    slice_of(chars, from, to)
}

/// The characters without trailing white space.
pub fn trimmed_end(chars: &Vec<char>) -> (r: Vec<char>)
    ensures
        r@ == trim_end(chars@),
{
    let n: usize = chars.len();
    assert(chars@.subrange(0, n as int) =~= chars@);
    let to = drop_white(chars, 0, n);
    slice_of(chars, 0, to)
}

/// A string without white space at either end.
pub fn trimmed_text(text: &str) -> (r: String)
    ensures
        r@ == trim(text@),
{
    let chars = chars_of(text);
    let inner = trimmed(&chars);
    string_of(&inner)
}

/// The characters from `from` up to `to`.
pub fn slice_of(chars: &Vec<char>, from: usize, to: usize) -> (r: Vec<char>)
    requires
        from <= to <= chars@.len(),
    ensures
        r@ == chars@.subrange(from as int, to as int),
{
    let mut out: Vec<char> = Vec::new();
    let mut i: usize = from;
    while i < to
        invariant
            from <= i <= to <= chars@.len(),
            out@ == chars@.subrange(from as int, i as int),
        decreases to - i,
    {
        out.push(chars[i]);
        i = i + 1;
        assert(out@ =~= chars@.subrange(from as int, i as int));
    }
    assert(out@ =~= chars@.subrange(from as int, to as int));
    out
}

// ---------------------------------------------------------------------------
// Searching and splitting
// ---------------------------------------------------------------------------

/// The position of the first `c` in `s`, or the length of `s` where it has none.
pub open spec fn find(s: Seq<char>, c: char) -> int
    decreases s.len(),
{
    if s.len() == 0 || s[0] == c {
        0
    } else {
        1 + find(s.skip(1), c)
    }
}

pub proof fn lemma_find(s: Seq<char>, c: char)
    ensures
        0 <= find(s, c) <= s.len(),
        find(s, c) < s.len() ==> s[find(s, c)] == c,
        forall|i: int| 0 <= i < find(s, c) ==> s[i] != c,
    decreases s.len(),
{
    if s.len() > 0 && s[0] != c {
        lemma_find(s.skip(1), c);
        let rest = find(s.skip(1), c);
        assert forall|i: int| 0 <= i < find(s, c) implies s[i] != c by {
            if i > 0 {
                assert(s.skip(1)[i - 1] == s[i]);
            }
        }
        if rest < s.skip(1).len() {
            assert(s.skip(1)[rest] == s[rest + 1]);
        }
    }
}

/// Only the first occurrence satisfies what `find` promises.
pub proof fn lemma_find_is(s: Seq<char>, c: char, at: int)
    requires
        0 <= at <= s.len(),
        at < s.len() ==> s[at] == c,
        forall|i: int| 0 <= i < at ==> s[i] != c,
    ensures
        find(s, c) == at,
{
    lemma_find(s, c);
    let f = find(s, c);
    if f < at {
        assert(s[f] != c);
    } else if at < f {
        assert(s[at] != c);
    }
}

/// The position of the first `c` at or after `from`.
pub fn find_from(chars: &Vec<char>, from: usize, c: char) -> (r: usize)
    requires
        from <= chars@.len(),
    ensures
        from <= r <= chars@.len(),
        r == from + find(chars@.skip(from as int), c),
{
    let mut i: usize = from;
    while i < chars.len() && chars[i] != c
        invariant
            from <= i <= chars@.len(),
            forall|k: int| from <= k < i ==> chars@[k] != c,
        decreases chars@.len() - i,
    {
        i = i + 1;
    }
    proof {
        let tail = chars@.skip(from as int);
        assert forall|k: int| 0 <= k < i - from implies tail[k] != c by {
            assert(tail[k] == chars@[from + k]);
        }
        lemma_find_is(tail, c, i - from);
    }
    i
}

pub open spec fn has_char(s: Seq<char>, c: char) -> bool {
    find(s, c) < s.len()
}

pub fn contains_char(chars: &Vec<char>, c: char) -> (r: bool)
    ensures
        r == has_char(chars@, c),
{
    assert(chars@.skip(0) =~= chars@);
    find_from(chars, 0, c) < chars.len()
}

/// The pieces of `s` between the occurrences of `c`; one more than there are occurrences.
pub open spec fn split(s: Seq<char>, c: char) -> Seq<Seq<char>>
    decreases s.len(),
{
    if has_char(s, c) {
        proof {
            lemma_find(s, c);
        }
        seq![s.take(find(s, c))] + split(s.skip(find(s, c) + 1), c)
    } else {
        seq![s]
    }
}

/// The pieces between the occurrences of `c`.
pub fn split_chars(chars: &Vec<char>, c: char) -> (r: Vec<Vec<char>>)
    ensures
        r@.map_values(|v: Vec<char>| v@) == split(chars@, c),
{
    let mut out: Vec<Vec<char>> = Vec::new();
    let mut from: usize = 0;
    let ghost view = |v: Vec<char>| v@;
    assert(chars@.skip(0) =~= chars@);
    assert(out@.map_values(view) =~= seq![]);
    loop
        invariant
            from <= chars@.len(),
            view == (|v: Vec<char>| v@),
            out@.map_values(view) + split(chars@.skip(from as int), c) =~= split(chars@, c),
        decreases chars@.len() - from,
    {
        let ghost tail = chars@.skip(from as int);
        proof {
            lemma_find(tail, c);
        }
        let at = find_from(chars, from, c);
        let piece = slice_of(chars, from, at);
        assert(piece@ =~= tail.take(find(tail, c)));
        let ghost before = out@;
        out.push(piece);
        assert(out@.map_values(view) =~= before.map_values(view).push(piece@));
        if at == chars.len() {
            assert(tail.take(find(tail, c)) =~= tail);
            assert(split(tail, c) =~= seq![tail]);
            assert(out@.map_values(view) =~= split(chars@, c));
            return out;
        }
        proof {
            assert(tail.skip(find(tail, c) + 1) =~= chars@.skip(at + 1));
            assert(split(tail, c) =~= seq![tail.take(find(tail, c))] + split(
                chars@.skip(at + 1),
                c,
            ));
        }
        from = at + 1;
    }
}

/// Whether `needle` stands in `s` at `at`.
pub open spec fn stands_at(s: Seq<char>, needle: Seq<char>, at: int) -> bool {
    0 <= at && at + needle.len() <= s.len() && s.subrange(at, at + needle.len()) == needle
}

/// Whether `needle` occurs in `s`.
pub open spec fn occurs(s: Seq<char>, needle: Seq<char>) -> bool {
    exists|at: int| #[trigger] stands_at(s, needle, at)
}

/// Whether `needle` stands in `chars` at `at`.
pub fn match_at(chars: &Vec<char>, needle: &str, at: usize) -> (r: bool)
    ensures
        r == stands_at(chars@, needle@, at as int),
{
    let pattern = chars_of(needle);
    let n: usize = chars.len();
    if at > n || pattern.len() > n - at {
        return false;
    }
    let mut i: usize = 0;
    while i < pattern.len()
        invariant
            i <= pattern@.len(),
            pattern@ == needle@,
            at + pattern@.len() <= chars@.len(),
            n == chars@.len(),
            forall|k: int| 0 <= k < i ==> chars@[at + k] == pattern@[k],
        decreases pattern@.len() - i,
    {
        if chars[at + i] != pattern[i] {
            assert(chars@.subrange(at as int, at + pattern@.len())[i as int] == chars@[at + i]);
            return false;
        }
        i = i + 1;
    }
    assert(chars@.subrange(at as int, at + pattern@.len()) =~= needle@);
    true
}

/// The first place where `needle` stands, if it occurs at all.
pub open spec fn first_at(s: Seq<char>, needle: Seq<char>, at: int) -> bool {
    stands_at(s, needle, at) && forall|k: int| 0 <= k < at ==> !stands_at(s, needle, k)
}

pub fn find_text(chars: &Vec<char>, needle: &str) -> (r: Option<usize>)
    ensures
        r is None <==> !occurs(chars@, needle@),
        r is Some ==> first_at(chars@, needle@, r->0 as int),
{
    let n: usize = chars.len();
    let mut i: usize = 0;
    while i < n
        invariant
            i <= n,
            n == chars@.len(),
            forall|k: int| 0 <= k < i ==> !stands_at(chars@, needle@, k),
        decreases n - i,
    {
        if match_at(chars, needle, i) {
            return Some(i);
        }
        i = i + 1;
    }
    if match_at(chars, needle, n) {
        return Some(n);
    }
    assert forall|at: int| !#[trigger] stands_at(chars@, needle@, at) by {
        if stands_at(chars@, needle@, at) {
            assert(at <= n);
        }
    }
    None
}

pub open spec fn starts_with(s: Seq<char>, prefix: Seq<char>) -> bool {
    stands_at(s, prefix, 0)
}

/// Whether `text` begins with `prefix`.
pub fn has_prefix(text: &str, prefix: &str) -> (r: bool)
    ensures
        r == starts_with(text@, prefix@),
{
    let chars = chars_of(text);
    match_at(&chars, prefix, 0)
}

// ---------------------------------------------------------------------------
// Numbers in text
// ---------------------------------------------------------------------------

pub open spec fn all_digits(s: Seq<char>) -> bool {
    forall|i: int| 0 <= i < s.len() ==> is_digit(#[trigger] s[i])
}

/// The number that a run of digits spells.
pub open spec fn digits_value(s: Seq<char>) -> nat
    decreases s.len(),
{
    if s.len() == 0 {
        0
    } else {
        (digits_value(s.drop_last()) * 10 + digit_value(s.last())) as nat
    }
}

pub fn only_digits(chars: &Vec<char>, from: usize, to: usize) -> (r: bool)
    requires
        from <= to <= chars@.len(),
    ensures
        r == all_digits(chars@.subrange(from as int, to as int)),
{
    let mut i: usize = from;
    while i < to
        invariant
            from <= i <= to <= chars@.len(),
            all_digits(chars@.subrange(from as int, i as int)),
        decreases to - i,
    {
        if !digit(chars[i]) {
            assert(chars@.subrange(from as int, to as int)[i - from] == chars@[i as int]);
            return false;
        }
        proof {
            let wide = chars@.subrange(from as int, i + 1);
            assert forall|k: int| 0 <= k < wide.len() implies is_digit(#[trigger] wide[k]) by {
                if k < i - from {
                    assert(wide[k] == chars@.subrange(from as int, i as int)[k]);
                }
            }
        }
        i = i + 1;
    }
    true
}

pub proof fn lemma_digits_grow(s: Seq<char>, n: int)
    requires
        all_digits(s),
        0 <= n <= s.len(),
    ensures
        digits_value(s.take(n)) <= digits_value(s),
    decreases s.len(),
{
    if n == s.len() {
        assert(s.take(n) =~= s);
    } else {
        lemma_digits_grow(s.drop_last(), n);
        assert(s.drop_last().take(n) =~= s.take(n));
        assert(is_digit(s.last()));
    }
}

/// The number spelled by the digits of `[from, to)`, where it fits.
pub fn digits_number(chars: &Vec<char>, from: usize, to: usize) -> (r: Option<i64>)
    requires
        from <= to <= chars@.len(),
        all_digits(chars@.subrange(from as int, to as int)),
    ensures
        r == (if digits_value(chars@.subrange(from as int, to as int)) <= i64::MAX {
            Some(digits_value(chars@.subrange(from as int, to as int)) as i64)
        } else {
            None::<i64>
        }),
{
    let ghost all = chars@.subrange(from as int, to as int);
    let mut value: i64 = 0;
    let mut i: usize = from;
    assert(all.take(0) =~= seq![]);
    while i < to
        invariant
            from <= i <= to <= chars@.len(),
            all == chars@.subrange(from as int, to as int),
            all_digits(all),
            value >= 0,
            value == digits_value(all.take(i - from)),
        decreases to - i,
    {
        proof {
            let next = all.take(i - from + 1);
            assert(next.drop_last() =~= all.take(i - from));
            assert(next.last() == chars@[i as int]);
            assert(is_digit(all[i - from]));
            lemma_digits_grow(all, i - from + 1);
        }
        let d: i64 = (chars[i] as u32 - 48) as i64;
        if value > (i64::MAX - d) / 10 {
            return None;
        }
        value = value * 10 + d;
        i = i + 1;
    }
    assert(all.take(i - from) =~= all);
    Some(value)
}

/// What `s` spells as a signed number: an optional sign and at least one digit.
pub open spec fn number_value(s: Seq<char>) -> Option<int> {
    if s.len() > 1 && s[0] == '-' && all_digits(s.skip(1)) {
        Some(-(digits_value(s.skip(1)) as int))
    } else if s.len() > 1 && s[0] == '+' && all_digits(s.skip(1)) {
        Some(digits_value(s.skip(1)) as int)
    } else if s.len() > 0 && all_digits(s) {
        Some(digits_value(s) as int)
    } else {
        None
    }
}

/// What `s` spells as a signed 64-bit number, as `str::parse::<i64>` reads it.
pub open spec fn parse_i64(s: Seq<char>) -> Option<i64> {
    match number_value(s) {
        Some(v) => if i64::MIN <= v <= i64::MAX {
            Some(v as i64)
        } else {
            None
        },
        None => None,
    }
}

/// What `s` spells as an unsigned 32-bit number, as `str::parse::<u32>` reads it.
pub open spec fn parse_u32(s: Seq<char>) -> Option<u32> {
    if s.len() > 0 && s[0] == '-' {
        None
    } else {
        match number_value(s) {
            Some(v) => if 0 <= v <= u32::MAX {
                Some(v as u32)
            } else {
                None
            },
            None => None,
        }
    }
}

pub fn parse_unsigned(chars: &Vec<char>) -> (r: Option<u32>)
    ensures
        r == parse_u32(chars@),
{
    if chars.len() > 0 && chars[0] == '-' {
        return None;
    }
    match parse_number(chars) {
        Some(v) => {
            if 0 <= v && v <= u32::MAX as i64 {
                Some(v as u32)
            } else {
                None
            }
        },
        None => None,
    }
}

/// The number spelled by the digits of `[from, to)`, at most 2^63.
fn magnitude(chars: &Vec<char>, from: usize, to: usize) -> (r: Option<u64>)
    requires
        from <= to <= chars@.len(),
        all_digits(chars@.subrange(from as int, to as int)),
    ensures
        r == (if digits_value(chars@.subrange(from as int, to as int)) <= u64::MAX {
            Some(digits_value(chars@.subrange(from as int, to as int)) as u64)
        } else {
            None::<u64>
        }),
{
    let ghost all = chars@.subrange(from as int, to as int);
    let mut value: u64 = 0;
    let mut i: usize = from;
    assert(all.take(0) =~= seq![]);
    while i < to
        invariant
            from <= i <= to <= chars@.len(),
            all == chars@.subrange(from as int, to as int),
            all_digits(all),
            value == digits_value(all.take(i - from)),
        decreases to - i,
    {
        proof {
            let next = all.take(i - from + 1);
            assert(next.drop_last() =~= all.take(i - from));
            assert(next.last() == chars@[i as int]);
            assert(is_digit(all[i - from]));
            lemma_digits_grow(all, i - from + 1);
        }
        let d: u64 = (chars[i] as u32 - 48) as u64;
        if value > (u64::MAX - d) / 10 {
            return None;
        }
        value = value * 10 + d;
        i = i + 1;
    }
    assert(all.take(i - from) =~= all);
    Some(value)
}

pub fn parse_number(chars: &Vec<char>) -> (r: Option<i64>)
    ensures
        r == parse_i64(chars@),
{
    let n: usize = chars.len();
    if n == 0 {
        return None;
    }
    assert(chars@.subrange(0, n as int) =~= chars@);
    assert(chars@.subrange(1, n as int) =~= chars@.skip(1));
    if n > 1 && (chars[0] == '-' || chars[0] == '+') && only_digits(chars, 1, n) {
        let m = magnitude(chars, 1, n);
        match m {
            None => None,
            Some(v) => {
                if chars[0] == '-' {
                    if v < 0x8000_0000_0000_0000 {
                        Some(-(v as i64))
                    } else if v == 0x8000_0000_0000_0000 {
                        Some(i64::MIN)
                    } else {
                        None
                    }
                } else if v <= i64::MAX as u64 {
                    Some(v as i64)
                } else {
                    None
                }
            },
        }
    } else if only_digits(chars, 0, n) {
        digits_number(chars, 0, n)
    } else {
        None
    }
}

// ---------------------------------------------------------------------------
// Words and lines
// ---------------------------------------------------------------------------

pub open spec fn texts(parts: Seq<Vec<char>>) -> Seq<Seq<char>> {
    parts.map_values(|part: Vec<char>| part@)
}

pub proof fn lemma_texts_push(parts: Seq<Vec<char>>, part: Vec<char>)
    ensures
        texts(parts.push(part)) == texts(parts).push(part@),
{
    assert(texts(parts.push(part)) =~= texts(parts).push(part@));
}

/// The length of the leading run without white space.
pub open spec fn word_len(s: Seq<char>) -> int
    decreases s.len(),
{
    if s.len() == 0 || is_white(s[0]) {
        0
    } else {
        1 + word_len(s.skip(1))
    }
}

pub proof fn lemma_word_len(s: Seq<char>)
    ensures
        0 <= word_len(s) <= s.len(),
        word_len(s) < s.len() ==> is_white(s[word_len(s)]),
        forall|i: int| 0 <= i < word_len(s) ==> !is_white(s[i]),
    decreases s.len(),
{
    if s.len() > 0 && !is_white(s[0]) {
        let rest = s.skip(1);
        lemma_word_len(rest);
        assert forall|i: int| 0 <= i < word_len(s) implies !is_white(s[i]) by {
            if i > 0 {
                assert(rest[i - 1] == s[i]);
            }
        }
        if word_len(rest) < rest.len() {
            assert(rest[word_len(rest)] == s[word_len(rest) + 1]);
        }
    }
}

proof fn lemma_word_len_is(s: Seq<char>, n: int)
    requires
        0 <= n <= s.len(),
        n < s.len() ==> is_white(s[n]),
        forall|i: int| 0 <= i < n ==> !is_white(s[i]),
    ensures
        word_len(s) == n,
{
    lemma_word_len(s);
    let w = word_len(s);
    if w < n {
        assert(!is_white(s[w]));
    } else if n < w {
        assert(!is_white(s[n]));
    }
}

pub proof fn lemma_trim_start(s: Seq<char>)
    ensures
        trim_start(s).len() <= s.len(),
        trim_start(s).len() > 0 ==> !is_white(trim_start(s)[0]),
        trim_start(s) == s.skip(s.len() - trim_start(s).len()),
    decreases s.len(),
{
    if s.len() > 0 && is_white(s[0]) {
        lemma_trim_start(s.skip(1));
        let t = trim_start(s);
        assert(s.skip(1).skip(s.skip(1).len() - t.len()) =~= s.skip(s.len() - t.len()));
    } else {
        assert(s.skip(0) =~= s);
    }
}

/// The runs of `s` that hold no white space, in order.
pub open spec fn words(s: Seq<char>) -> Seq<Seq<char>>
    decreases s.len(),
{
    let t = trim_start(s);
    if t.len() == 0 {
        seq![]
    } else {
        proof {
            lemma_trim_start(s);
            lemma_word_len(t);
        }
        seq![t.take(word_len(t))] + words(t.skip(word_len(t)))
    }
}

/// The words of a run of characters.
pub fn words_of(chars: &Vec<char>) -> (r: Vec<Vec<char>>)
    ensures
        texts(r@) == words(chars@),
{
    let n: usize = chars.len();
    let mut out: Vec<Vec<char>> = Vec::new();
    let mut from: usize = 0;
    assert(chars@.subrange(0, n as int) =~= chars@);
    assert(texts(out@) =~= seq![]);
    loop
        invariant
            from <= n,
            n == chars@.len(),
            texts(out@) + words(chars@.subrange(from as int, n as int)) =~= words(chars@),
        decreases n - from,
    {
        let ghost tail = chars@.subrange(from as int, n as int);
        let start = skip_white(chars, from, n);
        let ghost t = chars@.subrange(start as int, n as int);
        proof {
            lemma_trim_start(tail);
        }
        if start == n {
            assert(words(tail) =~= seq![]);
            return out;
        }
        let mut end: usize = start;
        while end < n && !white(chars[end])
            invariant
                start <= end <= n,
                n == chars@.len(),
                forall|k: int| start <= k < end ==> !is_white(chars@[k]),
            decreases n - end,
        {
            end = end + 1;
        }
        proof {
            assert forall|k: int| 0 <= k < end - start implies !is_white(t[k]) by {
                assert(t[k] == chars@[start + k]);
            }
            lemma_word_len_is(t, end - start);
            assert(!is_white(t[0]));
        }
        let word = slice_of(chars, start, end);
        proof {
            assert(word@ =~= t.take(word_len(t)));
            assert(t.skip(word_len(t)) =~= chars@.subrange(end as int, n as int));
            lemma_texts_push(out@, word);
        }
        out.push(word);
        from = end;
    }
}

/// A line without the carriage return of its line ending.
pub open spec fn strip_return(s: Seq<char>) -> Seq<char> {
    if s.len() > 0 && s.last() == '\r' {
        s.drop_last()
    } else {
        s
    }
}

/// The lines of a text: each ends with a line feed or the end of the text, and a line
/// feed may be preceded by a carriage return that belongs to the ending.
pub open spec fn lines(s: Seq<char>) -> Seq<Seq<char>>
    decreases s.len(),
{
    if s.len() == 0 {
        seq![]
    } else if has_char(s, '\n') {
        proof {
            lemma_find(s, '\n');
        }
        seq![strip_return(s.take(find(s, '\n')))] + lines(s.skip(find(s, '\n') + 1))
    } else {
        seq![s]
    }
}

/// The lines of a text.
pub fn lines_of(chars: &Vec<char>) -> (r: Vec<Vec<char>>)
    ensures
        texts(r@) == lines(chars@),
{
    let n: usize = chars.len();
    let mut out: Vec<Vec<char>> = Vec::new();
    let mut from: usize = 0;
    assert(chars@.skip(0) =~= chars@);
    assert(texts(out@) =~= seq![]);
    while from < n
        invariant
            from <= n,
            n == chars@.len(),
            texts(out@) + lines(chars@.skip(from as int)) =~= lines(chars@),
        decreases n - from,
    {
        let ghost tail = chars@.skip(from as int);
        proof {
            lemma_find(tail, '\n');
        }
        let at = find_from(chars, from, '\n');
        if at == n {
            let line = slice_of(chars, from, n);
            proof {
                assert(line@ =~= tail);
                lemma_texts_push(out@, line);
                assert(chars@.skip(n as int) =~= seq![]);
                assert(lines(tail) =~= seq![tail]);
            }
            out.push(line);
            from = n;
        } else {
            let mut end: usize = at;
            if end > from && chars[end - 1] == '\r' {
                end = end - 1;
            }
            let line = slice_of(chars, from, end);
            proof {
                let full = tail.take(find(tail, '\n'));
                assert(full =~= chars@.subrange(from as int, at as int));
                assert(line@ =~= strip_return(full));
                assert(tail.skip(find(tail, '\n') + 1) =~= chars@.skip(at + 1));
                lemma_texts_push(out@, line);
                assert(lines(tail) =~= seq![strip_return(full)] + lines(chars@.skip(at + 1)));
            }
            out.push(line);
            from = at + 1;
        }
    }
    assert(chars@.skip(from as int) =~= seq![]);
    out
}

/// Whether one text stands before another, character by character.
pub open spec fn text_before(a: Seq<char>, b: Seq<char>) -> bool
    decreases a.len(),
{
    if b.len() == 0 {
        false
    } else if a.len() == 0 {
        true
    } else if a[0] != b[0] {
        (a[0] as u32) < (b[0] as u32)
    } else {
        text_before(a.skip(1), b.skip(1))
    }
}

/// How many bytes UTF-8 takes for a text.
pub open spec fn byte_len(s: Seq<char>) -> nat {
    vstd::utf8::encode_utf8(s).len()
}

/// The number of bytes of a text.
pub fn bytes_in(text: &str) -> (r: usize)
    ensures
        r == byte_len(text@),
{
    text.as_bytes_vec().len()
}

// ---------------------------------------------------------------------------
// Argument lists
// ---------------------------------------------------------------------------

/// Appends a copy of `text` to a list of strings.
pub fn push_text(list: &mut Vec<String>, text: &str)
    ensures
        strings(final(list)@) == strings(old(list)@).push(text@),
{
    let part = text.to_owned();
    proof {
        lemma_strings_push(list@, part);
    }
    list.push(part);
}

/// Appends two strings: a flag and its value.
pub fn push_pair(list: &mut Vec<String>, flag: &str, value: &str)
    ensures
        strings(final(list)@) == strings(old(list)@) + seq![flag@, value@],
{
    push_text(list, flag);
    push_text(list, value);
    assert(strings(final(list)@) =~= strings(old(list)@) + seq![flag@, value@]);
}

/// Appends a copy of every string of `more`.
pub fn push_texts(list: &mut Vec<String>, more: &Vec<String>)
    ensures
        strings(final(list)@) == strings(old(list)@) + strings(more@),
{
    let mut i: usize = 0;
    assert(strings(list@) =~= strings(old(list)@) + strings(more@).take(0));
    while i < more.len()
        invariant
            i <= more@.len(),
            strings(list@) == strings(old(list)@) + strings(more@).take(i as int),
        decreases more@.len() - i,
    {
        push_text(list, more[i].as_str());
        i = i + 1;
        assert(strings(list@) =~= strings(old(list)@) + strings(more@).take(i as int));
    }
    assert(strings(more@).take(i as int) =~= strings(more@));
}

/// The string in an option, or `other` where there is none.
pub open spec fn or_text(text: Option<String>, other: Seq<char>) -> Seq<char> {
    match text {
        Some(t) => t@,
        None => other,
    }
}

// ---------------------------------------------------------------------------
// What is written can be read
// ---------------------------------------------------------------------------

/// The digits of a number spell it.
pub proof fn lemma_dec(n: nat)
    ensures
        dec(n).len() > 0,
        all_digits(dec(n)),
        digits_value(dec(n)) == n,
    decreases n,
{
    if n < 10 {
        assert(dec(n).drop_last() =~= seq![]);
        assert(digits_value(dec(n).drop_last()) == 0);
        assert(digit_value(digit_char(n as int)) == n);
    } else {
        lemma_dec(n / 10);
        assert(dec(n).drop_last() =~= dec(n / 10));
        assert(dec(n).last() == digit_char((n % 10) as int));
        assert forall|i: int| 0 <= i < dec(n).len() implies is_digit(#[trigger] dec(n)[i]) by {
            if i < dec(n / 10).len() {
                assert(dec(n)[i] == dec(n / 10)[i]);
            }
        }
    }
}

/// Different numbers are written differently.
pub proof fn lemma_dec_tells_apart(a: nat, b: nat)
    requires
        dec(a) == dec(b),
    ensures
        a == b,
{
    lemma_dec(a);
    lemma_dec(b);
}

/// A written number reads as itself.
pub proof fn lemma_dec_int(n: int)
    ensures
        number_value(dec_int(n)) == Some(n),
        trim(dec_int(n)) == dec_int(n),
        forall|i: int|
            0 <= i < dec_int(n).len() ==> is_digit(#[trigger] dec_int(n)[i]) || dec_int(n)[i]
                == '-',
{
    let s = dec_int(n);
    if n < 0 {
        lemma_dec((-n) as nat);
        assert(s.skip(1) =~= dec((-n) as nat));
    } else {
        lemma_dec(n as nat);
        assert(is_digit(s[0]));
    }
    assert forall|i: int| 0 <= i < s.len() implies is_digit(#[trigger] s[i]) || s[i] == '-' by {
        if n < 0 && i > 0 {
            assert(s[i] == dec((-n) as nat)[i - 1]);
        }
    }
    assert(s.len() > 0);
    assert(!is_white(s[0]));
    assert(!is_white(s[s.len() - 1]));
    assert(s.last() == s[s.len() - 1]);
    assert(trim_start(s) == s);
    assert(trim_end(s) == s);
}

} // verus!
