//! Bytes as hexadecimal text, and bytes as UTF-8 text.

use crate::text::{chars_of, string_of};
use vstd::prelude::*;
use vstd::slice::slice_subrange;
use vstd::utf8::{decode_utf8, encode_utf8, valid_utf8};

verus! {

// ---------------------------------------------------------------------------
// UTF-8
// ---------------------------------------------------------------------------

/// `String::from_utf8`: the text that the bytes encode, and nothing where they
/// are no valid UTF-8.
#[verifier::external_body]
pub(crate) fn string_from_utf8(bytes: Vec<u8>) -> (text: Option<String>)
    ensures
        match text {
            Some(t) => valid_utf8(bytes@) && t@ == decode_utf8(bytes@),
            None => !valid_utf8(bytes@),
        },
{
    String::from_utf8(bytes).ok()
}

/// The text of bytes that need not be valid UTF-8, with replacement characters
/// where they are not.
pub uninterp spec fn decode_lossy(bytes: Seq<u8>) -> Seq<char>;

/// `String::from_utf8_lossy`: the contract claims that the text depends on the
/// bytes alone and that valid UTF-8 is decoded as it is. Where replacement
/// characters stand is left unsaid.
#[verifier::external_body]
pub(crate) fn string_from_utf8_lossy(bytes: &Vec<u8>) -> (text: String)
    ensures
        text@ == decode_lossy(bytes@),
        valid_utf8(bytes@) ==> text@ == decode_utf8(bytes@),
{
    String::from_utf8_lossy(bytes).into_owned()
}

// ---------------------------------------------------------------------------
// Hexadecimal
// ---------------------------------------------------------------------------

/// The hexadecimal digit that writes `n`, for `n` below sixteen.
pub open spec fn hex_digit(n: u8) -> char {
    if n < 10 {
        ('0' as u32 + n) as char
    } else {
        ('a' as u32 + (n - 10)) as char
    }
}

/// Two digits for each byte, the high half first.
pub open spec fn hex(bytes: Seq<u8>) -> Seq<char> {
    Seq::new(
        2 * bytes.len(),
        |i: int|
            hex_digit(
                if i % 2 == 0 {
                    bytes[i / 2] / 16
                } else {
                    bytes[i / 2] % 16
                },
            ),
    )
}

/// `HEXLOWER.encode` of `data_encoding`: two lower-case hexadecimal digits for
/// each byte. It takes at most `usize::MAX / 512` bytes.
#[verifier::external_body]
fn hexlower_encode(bytes: &[u8]) -> (text: String)
    requires
        bytes@.len() <= usize::MAX / 512,
    ensures
        text@ == hex(bytes@),
{
    data_encoding::HEXLOWER.encode(bytes)
}

/// `HEXLOWER.decode` of `data_encoding`: the bytes that the text writes, and
/// nothing where it is not the encoding of any bytes. It takes at most
/// `usize::MAX / 8` bytes of text.
#[verifier::external_body]
fn hexlower_decode(text: &str) -> (bytes: Option<Vec<u8>>)
    requires
        encode_utf8(text@).len() <= usize::MAX / 8,
    ensures
        match bytes {
            Some(b) => hex(b@) == text@,
            None => forall|b: Seq<u8>| #[trigger] hex(b) != text@,
        },
{
    data_encoding::HEXLOWER.decode(text.as_bytes()).ok()
}

proof fn lemma_hex_digit(a: u8, b: u8)
    requires
        a < 16,
        b < 16,
        hex_digit(a) == hex_digit(b),
    ensures
        a == b,
{
}

pub proof fn lemma_hex_index(bytes: Seq<u8>, i: int)
    requires
        0 <= i < bytes.len(),
    ensures
        hex(bytes)[2 * i] == hex_digit(bytes[i] / 16),
        hex(bytes)[2 * i + 1] == hex_digit(bytes[i] % 16),
{
    let high = 2 * i;
    let low = 2 * i + 1;
    assert(high / 2 == i && high % 2 == 0 && low / 2 == i && low % 2 == 1);
}

/// Different bytes have different hexadecimal texts.
pub proof fn lemma_hex_injective(a: Seq<u8>, b: Seq<u8>)
    requires
        hex(a) == hex(b),
    ensures
        a == b,
{
    assert(hex(a).len() == 2 * a.len() && hex(b).len() == 2 * b.len());
    assert forall|i: int| 0 <= i < a.len() implies a[i] == b[i] by {
        lemma_hex_index(a, i);
        lemma_hex_index(b, i);
        lemma_hex_digit(a[i] / 16, b[i] / 16);
        lemma_hex_digit(a[i] % 16, b[i] % 16);
    }
    assert(a =~= b);
}

proof fn lemma_hex_concat(a: Seq<u8>, b: Seq<u8>)
    ensures
        hex(a + b) == hex(a) + hex(b),
{
    assert forall|i: int| 0 <= i < hex(a + b).len() implies #[trigger] hex(a + b)[i] == (hex(a)
        + hex(b))[i] by {
        let whole = a + b;
        if i >= 2 * a.len() {
            let j = i - 2 * a.len();
            assert(j / 2 == i / 2 - a.len() && j % 2 == i % 2);
            assert(whole[i / 2] == b[j / 2]);
        } else {
            assert(whole[i / 2] == a[i / 2]);
        }
    }
    assert(hex(a + b) =~= hex(a) + hex(b));
}

/// Hexadecimal text holds digits and the letters `a` to `f` only.
pub proof fn lemma_hex_chars(bytes: Seq<u8>, i: int)
    requires
        0 <= i < hex(bytes).len(),
    ensures
        '0' <= hex(bytes)[i] <= '9' || 'a' <= hex(bytes)[i] <= 'f',
{
}

/// How many bytes are encoded, or characters decoded, at a time.
const CHUNK: usize = 4096;

/// The bytes as hexadecimal text.
pub fn hex_encode(bytes: &[u8]) -> (text: String)
    ensures
        text@ == hex(bytes@),
{
    let mut text = String::new();
    let mut from: usize = 0;
    assert(text@ =~= hex(bytes@.take(0)));
    while from < bytes.len()
        invariant
            from <= bytes@.len(),
            text@ == hex(bytes@.take(from as int)),
        decreases bytes@.len() - from,
    {
        let to: usize = if bytes.len() - from > CHUNK {
            from + CHUNK
        } else {
            bytes.len()
        };
        let part = slice_subrange(bytes, from, to);
        text.append(hexlower_encode(part).as_str());
        proof {
            lemma_hex_concat(bytes@.take(from as int), part@);
            assert(bytes@.take(from as int) + part@ =~= bytes@.take(to as int));
        }
        from = to;
    }
    assert(bytes@.take(from as int) =~= bytes@);
    text
}

proof fn lemma_hex_part(whole: Seq<char>, bytes: Seq<u8>, from: int, to: int)
    requires
        whole == hex(bytes),
        0 <= from <= to <= whole.len(),
        from % 2 == 0,
        to % 2 == 0,
    ensures
        whole.subrange(from, to) == hex(bytes.subrange(from / 2, to / 2)),
{
    let part = bytes.subrange(from / 2, to / 2);
    assert forall|i: int| 0 <= i < to - from implies whole.subrange(from, to)[i] == hex(
        part,
    )[i] by {
        assert((from + i) / 2 == from / 2 + i / 2);
        assert((from + i) % 2 == i % 2);
    }
    assert(whole.subrange(from, to) =~= hex(part));
}

/// The bytes that hexadecimal text writes, if it is the text of any.
pub fn hex_decode(text: &str) -> (bytes: Option<Vec<u8>>)
    ensures
        match bytes {
            Some(b) => hex(b@) == text@,
            None => forall|b: Seq<u8>| #[trigger] hex(b) != text@,
        },
{
    if !text.is_ascii() {
        proof {
            assert forall|b: Seq<u8>| #[trigger] hex(b) != text@ by {
                if hex(b) == text@ {
                    assert forall|i: int| 0 <= i < text@.len() implies '\0' <= #[trigger] text@[i]
                        <= '\u{7f}' by {
                        lemma_hex_chars(b, i);
                    }
                    assert(text.is_ascii());
                }
            }
        }
        return None;
    }
    let chars = chars_of(text);
    if chars.len() % 2 != 0 {
        return None;
    }
    let mut bytes: Vec<u8> = Vec::new();
    let mut from: usize = 0;
    assert(hex(bytes@) =~= text@.take(0));
    while from < chars.len()
        invariant
            chars@ == text@,
            text.is_ascii(),
            chars@.len() % 2 == 0,
            from % 2 == 0,
            from <= chars@.len(),
            hex(bytes@) == text@.take(from as int),
        decreases chars@.len() - from,
    {
        let to: usize = if chars.len() - from > CHUNK {
            from + CHUNK
        } else {
            chars.len()
        };
        let part = string_of(&chars, from, to);
        proof {
            vstd::utf8::is_ascii_chars_encode_utf8(part@);
        }
        match hexlower_decode(part.as_str()) {
            Some(decoded) => {
                let ghost before = bytes@;
                let mut more = decoded;
                bytes.append(&mut more);
                proof {
                    lemma_hex_concat(before, decoded@);
                    assert(bytes@ =~= before + decoded@);
                    assert(text@.take(from as int) + part@ =~= text@.take(to as int));
                }
            },
            None => {
                proof {
                    assert forall|b: Seq<u8>| #[trigger] hex(b) != text@ by {
                        if hex(b) == text@ {
                            lemma_hex_part(text@, b, from as int, to as int);
                        }
                    }
                }
                return None;
            },
        }
        from = to;
    }
    assert(text@.take(from as int) =~= text@);
    Some(bytes)
}

} // verus!
