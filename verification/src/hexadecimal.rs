//! Bytes in hexadecimal notation.

use vstd::prelude::*;

verus! {

/// The lower-case hexadecimal digit for a number below sixteen.
pub open spec fn hex_digit(n: nat) -> char {
    if n < 10 {
        ('0' as nat + n) as char
    } else {
        ('a' as nat + n - 10) as char
    }
}

/// The number that a hexadecimal digit denotes, in either case.
pub open spec fn hex_value(c: char) -> Option<nat> {
    if '0' <= c <= '9' {
        Some((c as nat - '0' as nat) as nat)
    } else if 'a' <= c <= 'f' {
        Some((c as nat - 'a' as nat + 10) as nat)
    } else if 'A' <= c <= 'F' {
        Some((c as nat - 'A' as nat + 10) as nat)
    } else {
        None
    }
}

/// Two lower-case digits for each byte, the high half first.
pub open spec fn hex_text(bytes: Seq<u8>) -> Seq<char> {
    Seq::new(
        2 * bytes.len(),
        |i: int|
            if i % 2 == 0 {
                hex_digit((bytes[i / 2] / 16) as nat)
            } else {
                hex_digit((bytes[i / 2] % 16) as nat)
            },
    )
}

/// `text` is an even number of hexadecimal digits.
pub open spec fn is_hex(text: Seq<char>) -> bool {
    text.len() % 2 == 0 && forall|i: int|
        0 <= i < text.len() ==> hex_value(#[trigger] text[i]) is Some
}

/// The bytes that pairs of hexadecimal digits denote.
pub open spec fn hex_bytes(text: Seq<char>) -> Seq<u8> {
    Seq::new(
        text.len() / 2,
        |i: int| (hex_value(text[2 * i]).unwrap() * 16 + hex_value(text[2 * i + 1]).unwrap()) as u8,
    )
}

/// `hex::encode` writes two lower-case hexadecimal digits for each byte.
#[verifier::external_body]
pub(crate) fn encode(bytes: &[u8]) -> (text: String)
    ensures
        text@ == hex_text(bytes@),
{
    hex::encode(bytes)
}

/// `hex::decode` reads pairs of hexadecimal digits in either case, and fails on anything else.
#[verifier::external_body]
pub(crate) fn decode(text: &str) -> (bytes: Option<Vec<u8>>)
    ensures
        bytes is Some <==> is_hex(text@),
        bytes matches Some(bytes) ==> bytes@ == hex_bytes(text@),
{
    hex::decode(text).ok()
}

/// Reading the hexadecimal notation of bytes gives the bytes back.
pub proof fn lemma_hex_round_trip(bytes: Seq<u8>)
    ensures
        is_hex(hex_text(bytes)),
        hex_bytes(hex_text(bytes)) == bytes,
{
    let text = hex_text(bytes);
    assert forall|n: nat| n < 16 implies hex_value(#[trigger] hex_digit(n)) == Some(n) by {}
    assert forall|i: int| 0 <= i < bytes.len() implies hex_bytes(text)[i] == bytes[i] by {
        assert((2 * i) / 2 == i && (2 * i + 1) / 2 == i);
        let byte = bytes[i];
        assert(hex_value(text[2 * i]) == Some((byte / 16) as nat));
        assert(hex_value(text[2 * i + 1]) == Some((byte % 16) as nat));
    }
    assert(hex_bytes(text) =~= bytes);
}

/// A hexadecimal digit denotes its place among the sixteen digits, in either case, and nothing else
/// is one.
pub proof fn lemma_hex_digits(c: char, n: nat)
    ensures
        hex_value(c) == Some(n) <==> n < 16 && (c == "0123456789abcdef"@[n as int] || c
            == "0123456789ABCDEF"@[n as int]),
{
    reveal_strlit("0123456789abcdef");
    reveal_strlit("0123456789ABCDEF");
}

/// The notation of bytes holds two digits for each byte, in the order of the bytes: the lower-case
/// digits for its higher and for its lower half.
pub proof fn lemma_hex_text_digits(bytes: Seq<u8>, i: int)
    requires
        0 <= i < bytes.len(),
    ensures
        hex_text(bytes).len() == 2 * bytes.len(),
        hex_text(bytes)[2 * i] == "0123456789abcdef"@[(bytes[i] / 16) as int],
        hex_text(bytes)[2 * i + 1] == "0123456789abcdef"@[(bytes[i] % 16) as int],
{
    reveal_strlit("0123456789abcdef");
    assert((2 * i) / 2 == i && (2 * i + 1) / 2 == i);
}

/// The bytes that a notation denotes are half as many as its digits, and each is made of the digits
/// at its place; what is not an even number of digits denotes nothing.
pub proof fn lemma_hex_bytes_digits(text: Seq<char>, i: int)
    ensures
        is_hex(text) <==> text.len() % 2 == 0 && forall|k: int|
            0 <= k < text.len() ==> (#[trigger] hex_value(text[k])) is Some,
        is_hex(text) ==> hex_bytes(text).len() * 2 == text.len(),
        is_hex(text) && 0 <= i < hex_bytes(text).len() ==> hex_bytes(text)[i] as nat == hex_value(
            text[2 * i],
        ).unwrap() * 16 + hex_value(text[2 * i + 1]).unwrap(),
{
}

} // verus!
