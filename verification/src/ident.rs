//! Identifiers that are derived rather than invented, so that exporting the same project
//! twice gives the same document.

use crate::paths::rfind;
use crate::text::{
    chars_of, hex2, hex_run, push_char, push_hex2, push_hex_run, raise, slice_of, string_of,
};
use vstd::prelude::*;

verus! {

// ---------------------------------------------------------------------------
// ULIDs
// ---------------------------------------------------------------------------

/// The value of a digit of Crockford's base 32, in either case: the digits and the letters
/// without I, L, O and U.
pub open spec fn crockford(c: char) -> Option<int> {
    let u = raise(c);
    if '0' <= u && u <= '9' {
        Some(u as int - 48)
    } else if 'A' <= u && u <= 'H' {
        Some(u as int - 55)
    } else if u == 'J' || u == 'K' {
        Some(u as int - 56)
    } else if u == 'M' || u == 'N' {
        Some(u as int - 57)
    } else if 'P' <= u && u <= 'T' {
        Some(u as int - 58)
    } else if 'V' <= u && u <= 'Z' {
        Some(u as int - 59)
    } else {
        None
    }
}

/// The number that base-32 digits spell, kept to 128 bits.
pub open spec fn base32(s: Seq<char>) -> nat
    decreases s.len(),
{
    if s.len() == 0 {
        0
    } else {
        ((base32(s.drop_last()) * 32 + crockford(s.last())->0)
            % 0x1_0000_0000_0000_0000_0000_0000_0000_0000int) as nat
    }
}

/// The number a ULID stands for: 26 digits of Crockford's base 32.
pub open spec fn ulid_value(text: Seq<char>) -> Option<u128> {
    if text.len() == 26 && forall|i: int| 0 <= i < 26 ==> crockford(#[trigger] text[i]) is Some {
        Some(base32(text) as u128)
    } else {
        None
    }
}

/// `ulid::Ulid::from_string` and `u128::from`: the number behind a text of exactly 26
/// base-32 digits, in either case and without the letters I, L, O and U; digits beyond 128
/// bits fall off at the top. Anything else is not a ULID.
#[verifier::external_body]
fn ulid_bits(text: &str) -> (r: Option<u128>)
    ensures
        r == ulid_value(text@),
{
    ulid::Ulid::from_string(text).ok().map(u128::from)
}

// ---------------------------------------------------------------------------
// A hash for everything else
// ---------------------------------------------------------------------------

/// One byte into a 64-bit FNV-1a hash.
pub open spec fn fnv_step(hash: u64, byte: u8) -> u64 {
    (((hash ^ (byte as u64)) * 0x0000_0100_0000_01b3) % 0x1_0000_0000_0000_0000) as u64
}

/// The 64-bit FNV-1a hash of some bytes, from a given state.
pub open spec fn fnv(bytes: Seq<u8>, hash: u64) -> u64
    decreases bytes.len(),
{
    if bytes.len() == 0 {
        hash
    } else {
        fnv_step(fnv(bytes.drop_last(), hash), bytes.last())
    }
}

/// Two 64-bit hashes from different offsets, side by side.
pub open spec fn fnv128_value(text: Seq<char>) -> u128 {
    let bytes = vstd::utf8::encode_utf8(text);
    let high = fnv(bytes, 0xcbf2_9ce4_8422_2325u64 ^ 0u64);
    let low = fnv(bytes, 0xcbf2_9ce4_8422_2325u64 ^ 0xa5u64);
    (high * 0x1_0000_0000_0000_0000 + low) as u128
}

fn mix(bytes: &Vec<u8>, hash: u64) -> (r: u64)
    ensures
        r == fnv(bytes@, hash),
{
    let mut value: u64 = hash;
    let mut i: usize = 0;
    assert(bytes@.take(0) =~= seq![]);
    while i < bytes.len()
        invariant
            i <= bytes@.len(),
            value == fnv(bytes@.take(i as int), hash),
        decreases bytes@.len() - i,
    {
        proof {
            assert(bytes@.take(i + 1).drop_last() =~= bytes@.take(i as int));
        }
        let mixed: u64 = value ^ (bytes[i] as u64);
        proof {
            assert(mixed * 0x0000_0100_0000_01b3 < 0x1000_0000_0000_0000_0000_0000_0000_0000)
                by (nonlinear_arith)
                requires
                    0 <= mixed < 0x1_0000_0000_0000_0000,
            ;
        }
        let wide: u128 = (mixed as u128) * 0x0000_0100_0000_01b3;
        value = (wide % 0x1_0000_0000_0000_0000) as u64;
        i = i + 1;
    }
    assert(bytes@.take(i as int) =~= bytes@);
    value
}

/// FNV-1a over two offsets, for ids that are not ULIDs.
pub fn fnv128(text: &str) -> (r: u128)
    ensures
        r == fnv128_value(text@),
{
    let bytes = text.as_bytes_vec();
    let salt: u64 = 0;
    let other: u64 = 0xa5;
    let high: u64 = mix(&bytes, 0xcbf2_9ce4_8422_2325 ^ salt);
    let low: u64 = mix(&bytes, 0xcbf2_9ce4_8422_2325 ^ other);
    (high as u128) * 0x1_0000_0000_0000_0000 + (low as u128)
}

// ---------------------------------------------------------------------------
// UUIDs
// ---------------------------------------------------------------------------

/// A number as `count` bytes, most significant first.
pub open spec fn be_bytes(n: nat, count: nat) -> Seq<u8>
    decreases count,
{
    if count == 0 {
        seq![]
    } else {
        be_bytes(n / 256, (count - 1) as nat).push((n % 256) as u8)
    }
}

pub proof fn lemma_be_bytes_len(n: nat, count: nat)
    ensures
        be_bytes(n, count).len() == count,
    decreases count,
{
    if count > 0 {
        lemma_be_bytes_len(n / 256, (count - 1) as nat);
    }
}

fn push_bytes(out: &mut Vec<u8>, n: u128, count: usize)
    ensures
        final(out)@ == old(out)@ + be_bytes(n as nat, count as nat),
    decreases count,
{
    if count > 0 {
        push_bytes(out, n / 256, count - 1);
        out.push((n % 256) as u8);
    }
    assert(final(out)@ =~= old(out)@ + be_bytes(n as nat, count as nat));
}

/// The part of a seed after its last underscore: an id without its prefix.
pub open spec fn id_tail(seed: Seq<char>) -> Seq<char> {
    seed.skip(rfind(seed, '_') + 1)
}

/// The 128 bits an id stands for: those of the ULID it ends in, or a hash of all of it.
pub open spec fn seed_bits(seed: Seq<char>) -> u128 {
    match ulid_value(id_tail(seed)) {
        Some(bits) => bits,
        None => fnv128_value(seed),
    }
}

/// 128 bits as a brace-wrapped UUID of version 4 and variant 1.
pub open spec fn uuid_text(bits: u128) -> Seq<char> {
    let b = be_bytes(bits as nat, 16);
    seq!['{'] + hex_run(b.subrange(0, 4)) + seq!['-'] + hex_run(b.subrange(4, 6)) + seq!['-'] + hex2(
        (b[6] % 16 + 64) as u8,
    ) + hex2(b[7]) + seq!['-'] + hex2((b[8] % 64 + 128) as u8) + hex2(b[9]) + seq!['-'] + hex_run(
        b.subrange(10, 16),
    ) + seq!['}']
}

/// A brace-wrapped UUID derived from an id: the same id always gives the same one.
pub fn uuid_from(seed: &str) -> (r: String)
    ensures
        r@ == uuid_text(seed_bits(seed@)),
{
    let chars = chars_of(seed);
    let n: usize = chars.len();
    let mut from: usize = n;
    assert(seed@.take(n as int) =~= seed@);
    while from > 0 && chars[from - 1] != '_'
        invariant
            from <= n,
            n == chars@.len(),
            chars@ == seed@,
            rfind(seed@.take(from as int), '_') == rfind(seed@, '_'),
        decreases from,
    {
        assert(seed@.take(from as int).drop_last() =~= seed@.take(from - 1));
        from = from - 1;
    }
    let tail = slice_of(&chars, from, n);
    proof {
        if from > 0 {
            assert(seed@.take(from as int).last() == '_');
        }
        assert(tail@ =~= id_tail(seed@));
    }
    let key = string_of(&tail);
    let bits: u128 = match ulid_bits(key.as_str()) {
        Some(bits) => bits,
        None => fnv128(seed),
    };
    let mut bytes: Vec<u8> = Vec::new();
    push_bytes(&mut bytes, bits, 16);
    proof {
        lemma_be_bytes_len(bits as nat, 16);
        assert(bytes@ =~= be_bytes(bits as nat, 16));
    }
    let mut out = String::new();
    push_char(&mut out, '{');
    push_hex_run(&mut out, &bytes, 0, 4);
    push_char(&mut out, '-');
    push_hex_run(&mut out, &bytes, 4, 2);
    push_char(&mut out, '-');
    push_hex2(&mut out, bytes[6] % 16 + 64);
    push_hex2(&mut out, bytes[7]);
    push_char(&mut out, '-');
    push_hex2(&mut out, bytes[8] % 64 + 128);
    push_hex2(&mut out, bytes[9]);
    push_char(&mut out, '-');
    push_hex_run(&mut out, &bytes, 10, 6);
    push_char(&mut out, '}');
    assert(out@ =~= uuid_text(bits));
    out
}

} // verus!
