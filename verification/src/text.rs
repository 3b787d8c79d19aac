//! Text forms of bytes: hexadecimal, UTF-8, and the alphabet of seeds.

use crate::primitives::random_indices;
use vstd::prelude::*;
use vstd::string::StrSliceExecFns;
use vstd::utf8::encode_utf8;
use vstd::utf8::valid_utf8;

verus! {
/// The lower-case hexadecimal digit of a value below 16.
pub open spec fn hex_digit(value: int) -> char {
    if value == 0 {
        '0'
    } else if value == 1 {
        '1'
    } else if value == 2 {
        '2'
    } else if value == 3 {
        '3'
    } else if value == 4 {
        '4'
    } else if value == 5 {
        '5'
    } else if value == 6 {
        '6'
    } else if value == 7 {
        '7'
    } else if value == 8 {
        '8'
    } else if value == 9 {
        '9'
    } else if value == 10 {
        'a'
    } else if value == 11 {
        'b'
    } else if value == 12 {
        'c'
    } else if value == 13 {
        'd'
    } else if value == 14 {
        'e'
    } else {
        'f'
    }
}

/// The value of a hexadecimal digit, upper or lower case.
pub open spec fn hex_value(digit: char) -> Option<int> {
    if '0' <= digit <= '9' {
        Some(digit as int - '0' as int)
    } else if 'a' <= digit <= 'f' {
        Some(digit as int - 'a' as int + 10)
    } else if 'A' <= digit <= 'F' {
        Some(digit as int - 'A' as int + 10)
    } else {
        None
    }
}

/// The hexadecimal text of `bytes`: two lower-case digits for each byte, the
/// high half first.
pub open spec fn hex_text(bytes: Seq<u8>) -> Seq<char> {
    Seq::new(
        2 * bytes.len(),
        |i: int|
            if i % 2 == 0 {
                hex_digit(bytes[i / 2] as int / 16)
            } else {
                hex_digit(bytes[i / 2] as int % 16)
            },
    )
}

/// Whether `text` is hexadecimal: an even number of hexadecimal digits.
pub open spec fn is_hex(text: Seq<char>) -> bool {
    &&& text.len() % 2 == 0
    &&& forall|i: int| 0 <= i < text.len() ==> (#[trigger] hex_value(text[i])) is Some
}

/// The bytes that hexadecimal text stands for.
pub open spec fn hex_bytes(text: Seq<char>) -> Seq<u8> {
    Seq::new(
        text.len() / 2,
        |i: int| (hex_value(text[2 * i]).unwrap() * 16 + hex_value(text[2 * i + 1]).unwrap()) as u8,
    )
}

/// `hex::encode`: two lower-case hexadecimal digits for each byte.
#[verifier::external_body]
pub(crate) fn hex_encode(bytes: &[u8]) -> (text: String)
    ensures
        text@ == hex_text(bytes@),
{
    hex::encode(bytes)
}

/// `hex::decode`: the bytes of an even number of hexadecimal digits of either
/// case; any other text is an error there and nothing here.
#[verifier::external_body]
pub(crate) fn hex_decode(text: &str) -> (bytes: Option<Vec<u8>>)
    ensures
        bytes is Some == is_hex(text@),
        bytes matches Some(b) ==> b@ == hex_bytes(text@),
{
    match hex::decode(text) {
        Ok(bytes) => Some(bytes),
        Err(_) => None,
    }
}

/// `String::from_utf8`: the string whose UTF-8 encoding the bytes are, and
/// nothing where they are no valid UTF-8.
#[verifier::external_body]
pub(crate) fn utf8_text(bytes: Vec<u8>) -> (text: Option<String>)
    ensures
        text is Some == valid_utf8(bytes@),
        text matches Some(t) ==> encode_utf8(t@) == bytes@,
{
    match String::from_utf8(bytes) {
        Ok(text) => Some(text),
        Err(_) => None,
    }
}

/// `String::push`: the character is appended.
pub assume_specification[ String::push ](text: &mut String, ch: char)
    ensures
        final(text)@ == old(text)@.push(ch),
;

/// Hexadecimal text read back gives the bytes it was written from.
pub proof fn lemma_hex_round_trip(bytes: Seq<u8>)
    ensures
        is_hex(hex_text(bytes)),
        hex_bytes(hex_text(bytes)) == bytes,
{
}

/// The alphabet that seeds are written in.
pub open spec fn seed_alphabet() -> Seq<char> {
    "ABCDEFGHIJKLMNOPQRSTUVWXYZ9"@
}

/// Number of characters of a seed.
pub const SEED_LEN: usize = 81;

/// Whether `seed` is as long as a seed and written in the seed alphabet.
pub open spec fn is_seed(seed: Seq<char>) -> bool {
    &&& seed.len() == SEED_LEN
    &&& forall|i: int| 0 <= i < seed.len() ==> seed_alphabet().contains(#[trigger] seed[i])
}

/// The text that spells `indices` in the seed alphabet.
pub fn seed_from_indices(indices: &Vec<usize>) -> (seed: String)
    requires
        forall|i: int| 0 <= i < indices@.len() ==> indices@[i] < seed_alphabet().len(),
    ensures
        seed@.len() == indices@.len(),
        forall|i: int| 0 <= i < indices@.len() ==> seed@[i] == seed_alphabet()[indices@[i] as int],
{
    let alphabet = "ABCDEFGHIJKLMNOPQRSTUVWXYZ9";
    let mut seed = String::new();
    let mut i: usize = 0;
    while i < indices.len()
        invariant
            i <= indices@.len(),
            alphabet@ == seed_alphabet(),
            forall|k: int| 0 <= k < indices@.len() ==> indices@[k] < seed_alphabet().len(),
            seed@.len() == i,
            forall|k: int| 0 <= k < i ==> seed@[k] == seed_alphabet()[indices@[k] as int],
        decreases indices@.len() - i,
    {
        let ch = alphabet.get_char(indices[i]);
        seed.push(ch);
        i += 1;
    }
    seed
}

/// A seed drawn at random: 81 characters of the seed alphabet.
pub fn random_seed() -> (seed: String)
    ensures
        is_seed(seed@),
{
    proof {
        reveal_strlit("ABCDEFGHIJKLMNOPQRSTUVWXYZ9");
    }
    let drawn = random_indices("ABCDEFGHIJKLMNOPQRSTUVWXYZ9".unicode_len(), SEED_LEN);
    let seed = seed_from_indices(&drawn);
    seed
}
} // verus!
