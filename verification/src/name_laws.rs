//! What is written as a name or an address can be read as what it was.

use crate::edl::{alphanumerics, is_reel, reel_chars};
use crate::text::{hex2_upper, hex_char_upper, is_alphanumeric, is_digit, is_upper, raise};
use crate::timeline::{is_plain, percent_encoded, url_of};
use vstd::prelude::*;

verus! {

// ---------------------------------------------------------------------------
// Reels
// ---------------------------------------------------------------------------

proof fn lemma_only(s: Seq<char>, most: nat)
    ensures
        alphanumerics(s, most).len() <= most,
        forall|i: int|
            0 <= i < alphanumerics(s, most).len() ==> is_digit(
                #[trigger] alphanumerics(s, most)[i],
            ) || is_upper(alphanumerics(s, most)[i]),
    decreases s.len(),
{
    if s.len() > 0 && most > 0 {
        if is_alphanumeric(s[0]) {
            let rest = alphanumerics(s.skip(1), (most - 1) as nat);
            lemma_only(s.skip(1), (most - 1) as nat);
            assert forall|i: int| 0 <= i < alphanumerics(s, most).len() implies is_digit(
                #[trigger] alphanumerics(s, most)[i],
            ) || is_upper(alphanumerics(s, most)[i]) by {
                if i > 0 {
                    assert(alphanumerics(s, most)[i] == rest[i - 1]);
                }
            }
        } else {
            lemma_only(s.skip(1), most);
        }
    }
}

proof fn lemma_stays(s: Seq<char>, most: nat)
    requires
        s.len() <= most,
        forall|i: int| 0 <= i < s.len() ==> is_digit(#[trigger] s[i]) || is_upper(s[i]),
    ensures
        alphanumerics(s, most) == s,
    decreases s.len(),
{
    if s.len() > 0 {
        assert(is_digit(s[0]) || is_upper(s[0]));
        let rest = s.skip(1);
        assert forall|i: int| 0 <= i < rest.len() implies is_digit(#[trigger] rest[i]) || is_upper(
            rest[i],
        ) by {
            assert(rest[i] == s[i + 1]);
        }
        lemma_stays(rest, (most - 1) as nat);
        assert(raise(s[0]) == s[0]);
        assert(seq![s[0]] + rest =~= s);
    } else {
        assert(alphanumerics(s, most) =~= s);
    }
}

/// What is made of any name is a reel: one to eight capitals and digits.
pub proof fn law_a_reel_is_capitals_and_digits(upper: Seq<char>)
    ensures
        is_reel(reel_chars(upper)),
{
    lemma_only(upper, 8);
    reveal_strlit("AX");
    assert("AX"@.len() == 2 && "AX"@[0] == 'A' && "AX"@[1] == 'X');
}

/// A reel name stays as it is: it is the reel made of itself.
pub proof fn law_a_reel_name_stays(reel: Seq<char>)
    requires
        is_reel(reel),
    ensures
        reel_chars(reel) == reel,
{
    lemma_stays(reel, 8);
}

// ---------------------------------------------------------------------------
// Addresses
// ---------------------------------------------------------------------------

/// What a hexadecimal digit in upper case is worth.
pub open spec fn hex_worth(c: char) -> int {
    if c <= '9' {
        c as int - '0' as int
    } else {
        c as int - 'A' as int + 10
    }
}

/// The bytes that the path of a URL stands for: `%XX` is a byte, and everything else itself.
pub open spec fn percent_decoded(s: Seq<char>) -> Seq<u8>
    decreases s.len(),
{
    if s.len() == 0 {
        seq![]
    } else if s[0] == '%' && s.len() >= 3 {
        seq![(hex_worth(s[1]) * 16 + hex_worth(s[2])) as u8] + percent_decoded(s.skip(3))
    } else {
        seq![s[0] as u8] + percent_decoded(s.skip(1))
    }
}

/// A byte as a URL writes it.
pub open spec fn one_encoded(b: u8) -> Seq<char> {
    if is_plain(b) {
        seq![b as char]
    } else {
        seq!['%'] + hex2_upper(b)
    }
}

proof fn lemma_one_decoded(b: u8, tail: Seq<char>)
    ensures
        percent_decoded(one_encoded(b) + tail) == seq![b] + percent_decoded(tail),
{
    let s = one_encoded(b) + tail;
    if is_plain(b) {
        assert(s[0] == b as char);
        assert(s[0] as u8 == b);
        assert(s.skip(1) =~= tail);
    } else {
        let high = b as int / 16;
        let low = b as int % 16;
        assert(s[0] == '%' && s[1] == hex_char_upper(high) && s[2] == hex_char_upper(low));
        assert(hex_worth(s[1]) == high);
        assert(hex_worth(s[2]) == low);
        assert(s.skip(3) =~= tail);
    }
}

proof fn lemma_decoded(bytes: Seq<u8>, tail: Seq<char>)
    ensures
        percent_decoded(percent_encoded(bytes) + tail) == bytes + percent_decoded(tail),
    decreases bytes.len(),
{
    if bytes.len() == 0 {
        assert(percent_encoded(bytes) + tail =~= tail);
        assert(bytes + percent_decoded(tail) =~= percent_decoded(tail));
    } else {
        let rest = bytes.drop_last();
        let last = bytes.last();
        lemma_decoded(rest, one_encoded(last) + tail);
        lemma_one_decoded(last, tail);
        assert(percent_encoded(bytes) + tail =~= percent_encoded(rest) + (one_encoded(last)
            + tail));
        assert(rest + (seq![last] + percent_decoded(tail)) =~= bytes + percent_decoded(tail));
    }
}

/// A file's URL decodes to the path that it was made of.
pub proof fn law_a_url_decodes_to_its_path(path: Seq<char>)
    ensures
        url_of(path).len() >= 7,
        url_of(path).take(7) == "file://"@,
        vstd::utf8::decode_utf8(percent_decoded(url_of(path).skip(7))) == path,
{
    reveal_strlit("file://");
    let bytes = vstd::utf8::encode_utf8(path);
    assert(url_of(path).take(7) =~= "file://"@);
    assert(url_of(path).skip(7) =~= percent_encoded(bytes) + Seq::<char>::empty());
    lemma_decoded(bytes, seq![]);
    assert(bytes + percent_decoded(Seq::<char>::empty()) =~= bytes);
    vstd::utf8::encode_utf8_decode_utf8(path);
}

} // verus!
