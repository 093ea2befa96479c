//! Lowercase hexadecimal text: the canonical written form of a digest.

use vstd::prelude::*;
use vstd::string::StringExecFns;

verus! {

/// The ASCII code of the lowercase hex digit for a value below 16.
pub open spec fn hex_digit(nibble: u8) -> u8 {
    if nibble < 10 {
        (nibble + 48) as u8
    } else {
        (nibble + 87) as u8
    }
}

/// The value of a canonical hex digit: `0`-`9` or `a`-`f`, nothing else.
pub open spec fn hex_value(code: u8) -> Option<u8> {
    if 48 <= code <= 57 {
        Some((code - 48) as u8)
    } else if 97 <= code <= 102 {
        Some((code - 87) as u8)
    } else {
        None
    }
}

/// Two hex digits for each byte, high nibble first.
pub open spec fn hex_encode(bytes: Seq<u8>) -> Seq<u8> {
    Seq::new(
        2 * bytes.len(),
        |i: int|
            hex_digit(
                if i % 2 == 0 {
                    bytes[i / 2] / 16
                } else {
                    bytes[i / 2] % 16
                },
            ),
    )
}

/// The text of `hex_encode` as characters.
pub open spec fn hex_chars(bytes: Seq<u8>) -> Seq<char> {
    Seq::new(2 * bytes.len(), |i: int| hex_encode(bytes)[i] as char)
}

/// Text made of canonical hex digits only, two for each byte.
pub open spec fn is_canonical_hex(text: Seq<u8>) -> bool {
    &&& text.len() % 2 == 0
    &&& forall|i: int| 0 <= i < text.len() ==> (#[trigger] hex_value(text[i])) is Some
}

/// The bytes that canonical hex text stands for.
pub open spec fn hex_decode(text: Seq<u8>) -> Seq<u8> {
    Seq::new(
        text.len() / 2,
        |i: int| (16 * hex_value(text[2 * i]).unwrap() + hex_value(text[2 * i + 1]).unwrap()) as u8,
    )
}

/// A hex digit reads back as the value it was written for.
pub proof fn lemma_hex_digit_value(nibble: u8)
    requires
        nibble < 16,
    ensures
        hex_value(hex_digit(nibble)) == Some(nibble),
{
}

/// A canonical hex digit is written back as itself.
pub proof fn lemma_hex_value_digit(code: u8)
    requires
        hex_value(code) is Some,
    ensures
        hex_value(code).unwrap() < 16,
        hex_digit(hex_value(code).unwrap()) == code,
{
}

/// Encoding always yields canonical text.
pub proof fn lemma_hex_encode_is_canonical(bytes: Seq<u8>)
    ensures
        hex_encode(bytes).len() == 2 * bytes.len(),
        is_canonical_hex(hex_encode(bytes)),
{
    let text = hex_encode(bytes);
    assert forall|i: int| 0 <= i < text.len() implies (#[trigger] hex_value(text[i])) is Some by {
        let b = bytes[i / 2];
        lemma_hex_digit_value(b / 16);
        lemma_hex_digit_value(b % 16);
    }
}

/// Decoding undoes encoding: every byte sequence survives the trip through text.
pub proof fn lemma_hex_decode_encode(bytes: Seq<u8>)
    ensures
        hex_decode(hex_encode(bytes)) == bytes,
{
    let text = hex_encode(bytes);
    let back = hex_decode(text);
    assert(back.len() == bytes.len());
    assert forall|i: int| 0 <= i < bytes.len() implies back[i] == bytes[i] by {
        let b = bytes[i];
        assert((2 * i) % 2 == 0 && (2 * i) / 2 == i);
        assert((2 * i + 1) % 2 == 1 && (2 * i + 1) / 2 == i);
        assert(text[2 * i] == hex_digit(b / 16));
        assert(text[2 * i + 1] == hex_digit(b % 16));
        lemma_hex_digit_value(b / 16);
        lemma_hex_digit_value(b % 16);
    }
    assert(back =~= bytes);
}

/// Encoding undoes decoding on canonical text: such text is the one written
/// form of the bytes it stands for.
pub proof fn lemma_hex_encode_decode(text: Seq<u8>)
    requires
        is_canonical_hex(text),
    ensures
        hex_encode(hex_decode(text)) == text,
{
    let bytes = hex_decode(text);
    let again = hex_encode(bytes);
    assert(again.len() == text.len());
    assert forall|i: int| 0 <= i < text.len() implies again[i] == text[i] by {
        let k = i / 2;
        let hi = hex_value(text[2 * k]);
        let lo = hex_value(text[2 * k + 1]);
        assert(hi is Some && lo is Some);
        lemma_hex_value_digit(text[2 * k]);
        lemma_hex_value_digit(text[2 * k + 1]);
        let b = bytes[k];
        assert(b == 16 * hi.unwrap() + lo.unwrap());
        assert(b / 16 == hi.unwrap() && b % 16 == lo.unwrap());
    }
    assert(again =~= text);
}

/// Appending a byte appends its two digits.
pub proof fn lemma_hex_chars_push(bytes: Seq<u8>, byte: u8)
    ensures
        hex_chars(bytes.push(byte)) == hex_chars(bytes).push(hex_digit(byte / 16) as char).push(
            hex_digit(byte % 16) as char,
        ),
{
    let n = bytes.len() as int;
    let longer = hex_chars(bytes.push(byte));
    let built = hex_chars(bytes).push(hex_digit(byte / 16) as char).push(
        hex_digit(byte % 16) as char,
    );
    assert(longer.len() == built.len());
    assert forall|i: int| 0 <= i < longer.len() implies longer[i] == built[i] by {
        if i < 2 * n {
            assert(bytes.push(byte)[i / 2] == bytes[i / 2]);
        } else {
            assert(i / 2 == n);
            assert(bytes.push(byte)[n] == byte);
        }
    }
    assert(longer =~= built);
}

/// The one-character text of a hex digit.
fn hex_digit_text(nibble: u8) -> (text: &'static str)
    requires
        nibble < 16,
    ensures
        text@ == seq![hex_digit(nibble) as char],
{
    proof {
        reveal_strlit("0");
        reveal_strlit("1");
        reveal_strlit("2");
        reveal_strlit("3");
        reveal_strlit("4");
        reveal_strlit("5");
        reveal_strlit("6");
        reveal_strlit("7");
        reveal_strlit("8");
        reveal_strlit("9");
        reveal_strlit("a");
        reveal_strlit("b");
        reveal_strlit("c");
        reveal_strlit("d");
        reveal_strlit("e");
        reveal_strlit("f");
    }
    let text = match nibble {
        0 => "0",
        1 => "1",
        2 => "2",
        3 => "3",
        4 => "4",
        5 => "5",
        6 => "6",
        7 => "7",
        8 => "8",
        9 => "9",
        10 => "a",
        11 => "b",
        12 => "c",
        13 => "d",
        14 => "e",
        _ => "f",
    };
    assert(text@ =~= seq![hex_digit(nibble) as char]);
    text
}

/// Writes `bytes` as lowercase hex text.
pub fn encode_hex(bytes: &[u8]) -> (text: String)
    ensures
        text@ == hex_chars(bytes@),
{
    let mut text = String::new();
    let mut i: usize = 0;
    assert(hex_chars(bytes@.take(0)) =~= Seq::<char>::empty());
    while i < bytes.len()
        invariant
            i <= bytes.len(),
            text@ == hex_chars(bytes@.take(i as int)),
        decreases bytes.len() - i,
    {
        let byte = bytes[i];
        proof {
            lemma_hex_chars_push(bytes@.take(i as int), byte);
            assert(bytes@.take(i as int).push(byte) =~= bytes@.take(i + 1));
        }
        text.append(hex_digit_text(byte / 16));
        text.append(hex_digit_text(byte % 16));
        assert(text@ =~= hex_chars(bytes@.take(i + 1)));
        i += 1;
    }
    assert(bytes@.take(bytes.len() as int) =~= bytes@);
    text
}

/// The value of one canonical hex digit, if `code` is one.
pub fn hex_digit_value(code: u8) -> (value: Option<u8>)
    ensures
        value == hex_value(code),
{
    if 48 <= code && code <= 57 {
        Some(code - 48)
    } else if 97 <= code && code <= 102 {
        Some(code - 87)
    } else {
        None
    }
}

/// Reads lowercase hex text back into bytes; `None` when the text has an odd
/// length or holds anything but `0`-`9` and `a`-`f`.
pub fn decode_hex(text: &[u8]) -> (bytes: Option<Vec<u8>>)
    ensures
        bytes is Some <==> is_canonical_hex(text@),
        bytes matches Some(v) ==> v@ == hex_decode(text@),
{
    if text.len() % 2 != 0 {
        return None;
    }
    let count: usize = text.len() / 2;
    let mut bytes: Vec<u8> = Vec::new();
    let mut i: usize = 0;
    while i < count
        invariant
            i <= count,
            count == text.len() / 2,
            text.len() % 2 == 0,
            bytes@.len() == i,
            forall|j: int| 0 <= j < 2 * i ==> (#[trigger] hex_value(text@[j])) is Some,
            forall|k: int| 0 <= k < i ==> bytes@[k] == hex_decode(text@)[k],
        decreases count - i,
    {
        let hi = hex_digit_value(text[2 * i]);
        let lo = hex_digit_value(text[2 * i + 1]);
        match (hi, lo) {
            (Some(h), Some(l)) => {
                bytes.push(16 * h + l);
            },
            _ => {
                assert(!is_canonical_hex(text@));
                return None;
            },
        }
        i += 1;
    }
    assert(bytes@ =~= hex_decode(text@));
    Some(bytes)
}

} // verus!
