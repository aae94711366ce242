//! Hexadecimal text: what it is, and how it is written and read.

use crate::text::utf8_text;
use vstd::prelude::*;
use vstd::utf8::*;

verus! {

/// The bytes that an optional byte vector holds.
pub open spec fn option_bytes(o: Option<Vec<u8>>) -> Option<Seq<u8>> {
    match o {
        Some(v) => Some(v@),
        None => None,
    }
}

/// The lowercase hex digit for a value below 16, as an ASCII byte.
pub open spec fn hex_digit(v: int) -> u8 {
    if v < 10 {
        (48 + v) as u8
    } else {
        (87 + v) as u8
    }
}

/// The hex text of `bytes` as ASCII bytes: two lowercase digits per byte, high nibble first.
pub open spec fn hex_bytes(bytes: Seq<u8>) -> Seq<u8> {
    Seq::new(
        2 * bytes.len(),
        |i: int|
            if i % 2 == 0 {
                hex_digit(bytes[i / 2] as int / 16)
            } else {
                hex_digit(bytes[i / 2] as int % 16)
            },
    )
}

/// The hex text of `bytes` as characters.
pub open spec fn hex_text(bytes: Seq<u8>) -> Seq<char> {
    Seq::new(2 * bytes.len(), |i: int| hex_bytes(bytes)[i] as char)
}

/// The value of an ASCII hex digit in either case, or `None` for any other byte.
pub open spec fn hex_value(c: u8) -> Option<int> {
    if 48 <= c <= 57 {
        Some(c - 48)
    } else if 97 <= c <= 102 {
        Some(c - 87)
    } else if 65 <= c <= 70 {
        Some(c - 55)
    } else {
        None
    }
}

/// Whether `text` is hex text: an even number of bytes, each a hex digit.
pub open spec fn is_hex(text: Seq<u8>) -> bool {
    &&& text.len() % 2 == 0
    &&& forall|i: int| 0 <= i < text.len() ==> hex_value(#[trigger] text[i]) is Some
}

/// The bytes that hex text stands for, or `None` where `text` is not hex text.
pub open spec fn hex_decoded(text: Seq<u8>) -> Option<Seq<u8>> {
    if is_hex(text) {
        Some(
            Seq::new(
                text.len() / 2,
                |i: int| (hex_value(text[2 * i])->0 * 16 + hex_value(text[2 * i + 1])->0) as u8,
            ),
        )
    } else {
        None
    }
}

/// Hex text is ASCII, so as a string its UTF-8 bytes are the digits themselves.
pub proof fn lemma_hex_text_bytes(bytes: Seq<u8>)
    ensures
        is_ascii_chars(hex_text(bytes)),
        encode_utf8(hex_text(bytes)) == hex_bytes(bytes),
{
    let text = hex_text(bytes);
    assert forall|i: int| 0 <= i < text.len() implies '\0' <= #[trigger] text[i] <= '\u{7f}' by {
        assert(hex_bytes(bytes)[i] < 128);
    }
    is_ascii_chars_encode_utf8(text);
    assert(encode_utf8(text) =~= hex_bytes(bytes));
}

/// Reading hex text gives back the bytes it was written from.
pub proof fn lemma_hex_round_trip(bytes: Seq<u8>)
    ensures
        is_hex(hex_bytes(bytes)),
        hex_decoded(hex_bytes(bytes)) == Some(bytes),
{
    let text = hex_bytes(bytes);
    assert forall|i: int| 0 <= i < text.len() implies hex_value(#[trigger] text[i]) is Some by {
        let b = bytes[i / 2];
        assert(0 <= b as int / 16 < 16);
        assert(0 <= b as int % 16 < 16);
    }
    assert(is_hex(text));
    let back = hex_decoded(text)->0;
    assert(back.len() == bytes.len());
    assert forall|i: int| 0 <= i < bytes.len() implies back[i] == bytes[i] by {
        let b = bytes[i] as int;
        assert((2 * i) % 2 == 0 && (2 * i) / 2 == i);
        assert((2 * i + 1) % 2 == 1 && (2 * i + 1) / 2 == i);
        assert(hex_value(text[2 * i]) == Some(b / 16));
        assert(hex_value(text[2 * i + 1]) == Some(b % 16));
        assert(b == (b / 16) * 16 + b % 16);
    }
    assert(back =~= bytes);
}

/// The lowercase hex digit for a value below 16.
fn digit(v: u8) -> (c: u8)
    requires
        v < 16,
    ensures
        c == hex_digit(v as int),
{
    if v < 10 {
        48 + v
    } else {
        87 + v
    }
}

/// The value of a hex digit of either case.
fn digit_value(c: u8) -> (v: Option<u8>)
    ensures
        match v {
            Some(x) => hex_value(c) == Some(x as int) && x < 16,
            None => hex_value(c) is None,
        },
{
    if 48 <= c && c <= 57 {
        Some(c - 48)
    } else if 97 <= c && c <= 102 {
        Some(c - 87)
    } else if 65 <= c && c <= 70 {
        Some(c - 55)
    } else {
        None
    }
}

/// Lowercase hex text of `data`: two digits for each byte in order, the high nibble first.
pub fn hex_encode(data: &[u8]) -> (text: String)
    ensures
        text@ == hex_text(data@),
{
    let mut digits: Vec<u8> = Vec::new();
    let mut i: usize = 0;
    while i < data.len()
        invariant
            i <= data@.len(),
            digits@.len() == 2 * i,
            forall|k: int| 0 <= k < digits@.len() ==> digits@[k] == hex_bytes(data@)[k],
        decreases data@.len() - i,
    {
        let b = data[i];
        digits.push(digit(b / 16));
        digits.push(digit(b % 16));
        assert((2 * i) % 2 == 0 && (2 * i) / 2 == i);
        assert((2 * i + 1) % 2 == 1 && (2 * i + 1) / 2 == i);
        i = i + 1;
    }
    proof {
        assert(digits@ =~= hex_bytes(data@));
        lemma_hex_text_bytes(data@);
        encode_utf8_valid_utf8(hex_text(data@));
        encode_utf8_decode_utf8(hex_text(data@));
    }
    match utf8_text(digits) {
        Some(text) => text,
        None => String::new(),
    }
}

/// The bytes of hex text, given as its UTF-8 bytes: `Some` exactly where their number is
/// even and each is a hex digit of either case; then each pair of digits gives one byte,
/// the high nibble first.
pub fn hex_decode(text: &[u8]) -> (bytes: Option<Vec<u8>>)
    ensures
        option_bytes(bytes) == hex_decoded(text@),
{
    if text.len() % 2 != 0 {
        return None;
    }
    let mut bytes: Vec<u8> = Vec::new();
    let mut i: usize = 0;
    while i < text.len() / 2
        invariant
            text@.len() % 2 == 0,
            i <= text@.len() / 2,
            bytes@.len() == i,
            forall|k: int| 0 <= k < 2 * i ==> hex_value(#[trigger] text@[k]) is Some,
            forall|j: int|
                0 <= j < i ==> bytes@[j] == (hex_value(text@[2 * j])->0 * 16 + hex_value(
                    text@[2 * j + 1],
                )->0) as u8,
        decreases text@.len() / 2 - i,
    {
        let high = match digit_value(text[2 * i]) {
            Some(v) => v,
            None => {
                assert(hex_value(text@[2 * i]) is None);
                return None;
            },
        };
        let low = match digit_value(text[2 * i + 1]) {
            Some(v) => v,
            None => {
                assert(hex_value(text@[2 * i + 1]) is None);
                return None;
            },
        };
        bytes.push(high * 16 + low);
        assert forall|k: int| 0 <= k < 2 * (i + 1) implies hex_value(#[trigger] text@[k])
            is Some by {
            if k >= 2 * i {
                assert(k == 2 * i || k == 2 * i + 1);
            }
        }
        i = i + 1;
    }
    proof {
        assert(is_hex(text@));
        assert(bytes@ =~= hex_decoded(text@)->0);
    }
    Some(bytes)
}

} // verus!
