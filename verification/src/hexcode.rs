//! Hexadecimal text: what it is, and the calls that write and read it.

use vstd::prelude::*;
use vstd::utf8::*;

verus! {

/// The lower-case hexadecimal digit of a value below sixteen, as an ASCII byte.
pub open spec fn hex_digit(nibble: int) -> u8 {
    if nibble < 10 {
        (48 + nibble) as u8
    } else {
        (87 + nibble) as u8
    }
}

/// The hexadecimal digits of `bytes` as ASCII bytes: two for each byte, the
/// high half first, letters in lower case.
pub open spec fn hex_ascii(bytes: Seq<u8>) -> Seq<u8> {
    Seq::new(
        2 * bytes.len(),
        |i: int|
            if i % 2 == 0 {
                hex_digit(bytes[i / 2] as int / 16)
            } else {
                hex_digit(bytes[i / 2] as int % 16)
            },
    )
}

/// The hexadecimal digits of `bytes` as text.
pub open spec fn hex_text(bytes: Seq<u8>) -> Seq<char> {
    Seq::new(2 * bytes.len(), |i: int| hex_ascii(bytes)[i] as char)
}

/// Whether an ASCII byte is a hexadecimal digit, in either case.
pub open spec fn is_hex_digit(b: u8) -> bool {
    ||| 48 <= b <= 57
    ||| 97 <= b <= 102
    ||| 65 <= b <= 70
}

/// The value of a hexadecimal digit.
pub open spec fn hex_value(b: u8) -> int {
    if 48 <= b <= 57 {
        b - 48
    } else if 97 <= b <= 102 {
        b - 87
    } else {
        b - 55
    }
}

/// Whether `text` is an even number of hexadecimal digits and nothing else.
pub open spec fn is_hex(text: Seq<u8>) -> bool {
    &&& text.len() % 2 == 0
    &&& forall|i: int| 0 <= i < text.len() ==> is_hex_digit(#[trigger] text[i])
}

/// The bytes that the hexadecimal digits of `text` stand for.
pub open spec fn hex_bytes(text: Seq<u8>) -> Seq<u8> {
    Seq::new(
        text.len() / 2,
        |i: int| (16 * hex_value(text[2 * i]) + hex_value(text[2 * i + 1])) as u8,
    )
}

/// Whether `text`, taken as UTF-8, is hexadecimal.
pub open spec fn is_hex_text(text: Seq<char>) -> bool {
    is_hex(encode_utf8(text))
}

/// The bytes that a hexadecimal text stands for.
pub open spec fn hex_text_bytes(text: Seq<char>) -> Seq<u8> {
    hex_bytes(encode_utf8(text))
}

/// The error of `hex::decode`. Nothing is read from it.
#[verifier::external_type_specification]
#[verifier::external_body]
pub struct ExFromHexError(hex::FromHexError);

/// `hex::encode`: two lower-case digits for each byte, the high half first.
#[verifier::external_body]
pub(crate) fn encode(bytes: &[u8]) -> (text: String)
    ensures
        text@ == hex_text(bytes@),
{
    hex::encode(bytes)
}

/// `hex::decode`, which reads the bytes of the text two by two: it fails on
/// an odd number of bytes and on any byte that is no hexadecimal digit, and
/// gives otherwise the byte that each pair of digits stands for.
#[verifier::external_body]
pub(crate) fn decode(text: &str) -> (decoded: Result<Vec<u8>, hex::FromHexError>)
    ensures
        decoded is Ok <==> is_hex_text(text@),
        decoded matches Ok(bytes) ==> bytes@ == hex_text_bytes(text@),
{
    hex::decode(text)
}

/// Hexadecimal text is ASCII, so in UTF-8 it is its own digits.
pub proof fn lemma_hex_text_utf8(bytes: Seq<u8>)
    ensures
        encode_utf8(hex_text(bytes)) == hex_ascii(bytes),
{
    let text = hex_text(bytes);
    assert(is_ascii_chars(text)) by {
        assert forall|i: int| 0 <= i < text.len() implies 0 <= (#[trigger] text[i]) as nat
            <= 127 by {
            assert(text[i] == hex_ascii(bytes)[i] as char);
        }
    }
    is_ascii_chars_encode_utf8(text);
    assert(encode_utf8(text) =~= hex_ascii(bytes));
}

/// Reading back what was written gives the bytes that were written.
pub proof fn lemma_hex_round_trip(bytes: Seq<u8>)
    ensures
        is_hex_text(hex_text(bytes)),
        hex_text_bytes(hex_text(bytes)) == bytes,
{
    lemma_hex_text_utf8(bytes);
    let ascii = hex_ascii(bytes);
    assert forall|i: int| 0 <= i < ascii.len() implies is_hex_digit(#[trigger] ascii[i]) by {
        let b = bytes[i / 2];
        assert(0 <= b as int / 16 < 16 && 0 <= b as int % 16 < 16);
    }
    assert(hex_bytes(ascii) =~= bytes) by {
        assert forall|i: int| 0 <= i < bytes.len() implies hex_bytes(ascii)[i] == bytes[i] by {
            let b = bytes[i] as int;
            assert((2 * i) / 2 == i && (2 * i) % 2 == 0);
            assert((2 * i + 1) / 2 == i && (2 * i + 1) % 2 == 1);
            assert(ascii[2 * i] == hex_digit(b / 16));
            assert(ascii[2 * i + 1] == hex_digit(b % 16));
            assert(16 * (b / 16) + b % 16 == b);
        }
    }
}

/// Two byte strings with the same hexadecimal text are the same.
pub proof fn lemma_hex_text_injective(a: Seq<u8>, b: Seq<u8>)
    requires
        hex_text(a) == hex_text(b),
    ensures
        a == b,
{
    lemma_hex_round_trip(a);
    lemma_hex_round_trip(b);
}

} // verus!
