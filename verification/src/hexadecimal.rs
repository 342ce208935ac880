//! Hexadecimal text for bytes.

use vstd::prelude::*;
use vstd::utf8::*;

use crate::text::decimal;

verus! {

/// Why a text is not the hexadecimal notation of bytes.
#[derive(Debug, PartialEq, Eq)]
pub enum HexError {
    OddLength,
    InvalidCharacter { c: char, index: usize },
    InvalidLength,
}

/// Whether a byte is a hexadecimal digit.
pub open spec fn is_hex_digit(b: u8) -> bool {
    ||| 0x30 <= b <= 0x39
    ||| 0x41 <= b <= 0x46
    ||| 0x61 <= b <= 0x66
}

/// The number that a hexadecimal digit stands for.
pub open spec fn hex_digit_value(b: u8) -> int {
    if b <= 0x39 {
        b - 0x30
    } else if b <= 0x46 {
        b - 0x41 + 10
    } else {
        b - 0x61 + 10
    }
}

/// Whether every byte is a hexadecimal digit.
pub open spec fn all_hex_digits(s: Seq<u8>) -> bool {
    forall|i: int| 0 <= i < s.len() ==> is_hex_digit(#[trigger] s[i])
}

/// The bytes that pairs of hexadecimal digits stand for.
pub open spec fn hex_decoded(s: Seq<u8>) -> Seq<u8> {
    Seq::new(
        s.len() / 2,
        |i: int| (16 * hex_digit_value(s[2 * i]) + hex_digit_value(s[2 * i + 1])) as u8,
    )
}

/// What decoding the bytes `s` of a text gives: the bytes, or the error on an
/// odd length, or else the error at the first byte that is no digit.
pub open spec fn hex_decoding(s: Seq<u8>, r: Result<Vec<u8>, HexError>) -> bool {
    match r {
        Ok(bytes) => s.len() % 2 == 0 && all_hex_digits(s) && bytes@ == hex_decoded(s),
        Err(HexError::OddLength) => s.len() % 2 == 1,
        Err(HexError::InvalidCharacter { c, index }) => {
            &&& s.len() % 2 == 0
            &&& index < s.len()
            &&& all_hex_digits(s.subrange(0, index as int))
            &&& !is_hex_digit(s[index as int])
            &&& c as u32 == s[index as int] as u32
        },
        Err(HexError::InvalidLength) => false,
    }
}

/// Trusted: `hex::decode`. An odd number of bytes is refused first. Then the
/// bytes of the text are read from the left, and the first one that is no
/// hexadecimal digit is reported with its place; digits of either case count.
/// Otherwise each pair of digits gives a byte, the high digit first.
#[verifier::external_body]
pub(crate) fn hex_decode(s: &str) -> (r: Result<Vec<u8>, HexError>)
    ensures
        hex_decoding(encode_utf8(s@), r),
{
    match hex::decode(s) {
        Ok(bytes) => Ok(bytes),
        Err(hex::FromHexError::OddLength) => Err(HexError::OddLength),
        Err(hex::FromHexError::InvalidHexCharacter { c, index }) => {
            Err(HexError::InvalidCharacter { c, index })
        },
        Err(hex::FromHexError::InvalidStringLength) => Err(HexError::InvalidLength),
    }
}

/// How a character is shown in debug output.
pub uninterp spec fn char_debug(c: char) -> Seq<char>;

/// The message of an error.
pub open spec fn hex_error_text(e: HexError) -> Seq<char> {
    match e {
        HexError::OddLength => "Odd number of digits"@,
        HexError::InvalidCharacter { c, index } => "Invalid character "@ + char_debug(c)
            + " at position "@ + decimal(index as nat),
        HexError::InvalidLength => "Invalid string length"@,
    }
}

/// Trusted: the `Display` of `hex::FromHexError`. The character is shown as the
/// standard library's `Debug` shows it, in a way that is not stated here.
#[verifier::external_body]
pub(crate) fn hex_error_message(e: &HexError) -> (r: String)
    ensures
        *e matches HexError::InvalidCharacter { c, index } ==> r@ == "Invalid character "@
            + char_debug(c) + " at position "@ + decimal(index as nat),
        *e is OddLength ==> r@ == "Odd number of digits"@,
        *e is InvalidLength ==> r@ == "Invalid string length"@,
{
    match e {
        HexError::OddLength => hex::FromHexError::OddLength.to_string(),
        HexError::InvalidCharacter { c, index } => {
            hex::FromHexError::InvalidHexCharacter { c: *c, index: *index }.to_string()
        },
        HexError::InvalidLength => hex::FromHexError::InvalidStringLength.to_string(),
    }
}

/// The lower-case hexadecimal digit of a number below sixteen.
pub open spec fn hex_char(d: int) -> char {
    if d < 10 {
        (0x30 + d) as char
    } else {
        (0x61 + d - 10) as char
    }
}

/// The lower-case hexadecimal notation of bytes, two digits for each.
pub open spec fn hex_encoded(bytes: Seq<u8>) -> Seq<char> {
    Seq::new(
        2 * bytes.len(),
        |i: int|
            if i % 2 == 0 {
                hex_char(bytes[i / 2] as int / 16)
            } else {
                hex_char(bytes[i / 2] as int % 16)
            },
    )
}

/// Trusted: `hex::encode` writes each byte as two lower-case hexadecimal
/// digits, the high one first.
#[verifier::external_body]
pub(crate) fn hex_encode(bytes: &Vec<u8>) -> (r: String)
    ensures
        r@ == hex_encoded(bytes@),
{
    hex::encode(bytes)
}

/// Whether a character is a lower-case hexadecimal digit.
pub open spec fn is_lower_hex(c: char) -> bool {
    ||| '0' <= c <= '9'
    ||| 'a' <= c <= 'f'
}

/// Encoding gives lower-case hexadecimal digits, twice as many as bytes.
pub proof fn lemma_hex_encoded_is_lower_hex(bytes: Seq<u8>)
    ensures
        hex_encoded(bytes).len() == 2 * bytes.len(),
        forall|i: int| 0 <= i < hex_encoded(bytes).len() ==> is_lower_hex(
            #[trigger] hex_encoded(bytes)[i],
        ),
{
}

/// Bytes are read back from their notation.
pub proof fn lemma_hex_round_trip(bytes: Seq<u8>)
    ensures
        encode_utf8(hex_encoded(bytes)).len() == 2 * bytes.len(),
        all_hex_digits(encode_utf8(hex_encoded(bytes))),
        hex_decoded(encode_utf8(hex_encoded(bytes))) == bytes,
{
    let text = hex_encoded(bytes);
    lemma_hex_encoded_is_lower_hex(bytes);
    is_ascii_chars_encode_utf8(text);
    let s = encode_utf8(text);
    assert forall|i: int| 0 <= i < s.len() implies is_hex_digit(#[trigger] s[i]) by {
        assert(is_lower_hex(text[i]));
    }
    assert forall|i: int| 0 <= i < bytes.len() implies hex_decoded(s)[i] == bytes[i] by {
        assert(text[2 * i] == hex_char(bytes[i] as int / 16));
        assert(text[2 * i + 1] == hex_char(bytes[i] as int % 16));
        assert(hex_digit_value(s[2 * i]) == bytes[i] as int / 16);
        assert(hex_digit_value(s[2 * i + 1]) == bytes[i] as int % 16);
    }
    assert(hex_decoded(s) =~= bytes);
}

} // verus!
