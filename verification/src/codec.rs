//! Base62 encoding of record identifiers into short codes.
//!
//! A short code is the positional base-62 numeral of `id - 1`, written
//! least-significant digit first over the alphabet `a..z`, `A..Z`, `0..9`.
//! Identifier 1 therefore encodes to `"a"`, identifier 2 to `"b"`, and so on.

use vstd::prelude::*;

verus! {

/// The character standing for a single base-62 digit `d` (`0 <= d < 62`):
/// `a..z` for 0..25, `A..Z` for 26..51, `0..9` for 52..61.
pub open spec fn char_of_digit(d: nat) -> char {
    if d < 26 {
        (97 + d) as char
    } else if d < 52 {
        (65 + (d - 26)) as char
    } else {
        (48 + (d - 52)) as char
    }
}

/// The base-62 digit a character stands for; the inverse of `char_of_digit`
/// on characters of the alphabet.
pub open spec fn digit_of_char(c: char) -> int {
    if 97 <= c as int <= 122 {
        c as int - 97
    } else if 65 <= c as int <= 90 {
        26 + (c as int - 65)
    } else {
        52 + (c as int - 48)
    }
}

/// The base-62 numeral of `m`, least-significant digit first, as characters.
pub open spec fn code_chars(m: nat) -> Seq<char>
    decreases m,
{
    if m < 62 {
        seq![char_of_digit(m)]
    } else {
        seq![char_of_digit(m % 62)] + code_chars(m / 62)
    }
}

/// The short code assigned to identifier `n` (`n >= 1`): the base-62
/// numeral of `n - 1`.
pub open spec fn code_of(n: nat) -> Seq<char> {
    code_chars((n - 1) as nat)
}

/// The value a character sequence denotes when read as a least-significant
/// digit first base-62 numeral.
pub open spec fn decode_chars(s: Seq<char>) -> int
    decreases s.len(),
{
    if s.len() == 0 {
        0
    } else {
        digit_of_char(s[0]) + 62 * decode_chars(s.drop_first())
    }
}

proof fn lemma_digit_char_inverse(d: nat)
    requires
        d < 62,
    ensures
        digit_of_char(char_of_digit(d)) == d,
{
}

/// Decoding recovers the value every code was made from.
proof fn lemma_decode_code(m: nat)
    ensures
        decode_chars(code_chars(m)) == m,
        code_chars(m).len() >= 1,
    decreases m,
{
    if m < 62 {
        lemma_digit_char_inverse(m);
        assert(code_chars(m).drop_first() =~= Seq::<char>::empty());
        assert(decode_chars(code_chars(m)) == digit_of_char(code_chars(m)[0]) + 62
            * decode_chars(code_chars(m).drop_first()));
    } else {
        lemma_digit_char_inverse(m % 62);
        lemma_decode_code(m / 62);
        assert(code_chars(m).drop_first() =~= code_chars(m / 62));
        vstd::arithmetic::div_mod::lemma_fundamental_div_mod(m as int, 62);
    }
}

/// Law: the encoding is deterministic. Any two codes of the same
/// identifier are the same sequence of characters.
pub proof fn lemma_encode_deterministic(n: nat, c1: Seq<char>, c2: Seq<char>)
    requires
        c1 == code_of(n),
        c2 == code_of(n),
    ensures
        c1 == c2,
{
}

/// Law: the encoding is injective. Distinct identifiers always get
/// distinct codes.
pub proof fn lemma_encode_injective(i: nat, j: nat)
    requires
        i >= 1,
        j >= 1,
        i != j,
    ensures
        code_of(i) != code_of(j),
{
    lemma_decode_code((i - 1) as nat);
    lemma_decode_code((j - 1) as nat);
}

/// The executable character for digit `d`.
fn digit_char(d: u8) -> (c: char)
    requires
        d < 62,
    ensures
        c == char_of_digit(d as nat),
{
    if d < 26 {
        (97 + d) as char
    } else if d < 52 {
        (65 + (d - 26)) as char
    } else {
        (48 + (d - 52)) as char
    }
}

/// Relies on std's `String::push`: appends the given character to the
/// end of the string.
#[verifier::external_body]
fn push_char(s: &mut String, c: char)
    ensures
        final(s)@ == old(s)@.push(c),
{
    s.push(c);
}

/// Encode identifier `id` as its base-62 short code.
pub fn encode_base62(id: u64) -> (r: String)
    requires
        id >= 1,
    ensures
        r@ == code_of(id as nat),
{
    let mut s = String::new();
    let mut m: u64 = id - 1;
    if m == 0 {
        push_char(&mut s, digit_char(0));
        assert(s@ =~= code_of(id as nat));
        return s;
    }
    while m > 0
        invariant
            m > 0 ==> code_of(id as nat) == s@ + code_chars(m as nat),
            m == 0 ==> code_of(id as nat) == s@,
        decreases m,
    {
        let d = (m % 62) as u8;
        push_char(&mut s, digit_char(d));
        proof {
            if m < 62 {
                assert(code_chars(m as nat) =~= seq![char_of_digit(m as nat % 62)]);
            }
            assert(code_chars(m as nat) == seq![char_of_digit((m % 62) as nat)] + (
            if m >= 62 {
                code_chars((m / 62) as nat)
            } else {
                Seq::<char>::empty()
            }));
        }
        m = m / 62;
    }
    s
}

} // verus!
