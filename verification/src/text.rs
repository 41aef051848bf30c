//! Bytes as text: the ASCII classes the decoder works with, and the lossy
//! UTF-8 reading used for display.

use vstd::prelude::*;
use vstd::utf8::*;

verus! {

/// A byte below 128.
pub open spec fn is_ascii_byte(b: u8) -> bool {
    b < 128
}

/// A printable ASCII byte other than the space: `!` to `~`.
pub open spec fn is_graphic_byte(b: u8) -> bool {
    33 <= b <= 126
}

/// A byte that may stand in a header value shown as text: printable ASCII,
/// the space, or a horizontal tab.
pub open spec fn is_visible_byte(b: u8) -> bool {
    (32 <= b < 127) || b == 9
}

/// Every byte of `bytes` is below 128.
pub open spec fn all_ascii(bytes: Seq<u8>) -> bool {
    forall|i: int| 0 <= i < bytes.len() ==> is_ascii_byte(#[trigger] bytes[i])
}

/// Every byte of `bytes` is printable and no space.
pub open spec fn all_graphic(bytes: Seq<u8>) -> bool {
    forall|i: int| 0 <= i < bytes.len() ==> is_graphic_byte(#[trigger] bytes[i])
}

/// Every byte of `bytes` may stand in a header value shown as text.
pub open spec fn all_visible(bytes: Seq<u8>) -> bool {
    forall|i: int| 0 <= i < bytes.len() ==> is_visible_byte(#[trigger] bytes[i])
}

/// The characters that ASCII bytes stand for, one per byte.
pub open spec fn ascii_chars(bytes: Seq<u8>) -> Seq<char> {
    Seq::new(bytes.len(), |i: int| bytes[i] as char)
}

/// The text that `String::from_utf8_lossy` reads from `bytes`.
pub uninterp spec fn utf8_lossy(bytes: Seq<u8>) -> Seq<char>;

/// Calls `String::from_utf8_lossy` and takes ownership of the text. Trusted:
/// the text depends on the bytes alone, and well-formed UTF-8 is decoded as
/// it stands, with nothing replaced.
#[verifier::external_body]
pub(crate) fn lossy_string(bytes: &[u8]) -> (text: String)
    ensures
        text@ == utf8_lossy(bytes@),
        valid_utf8(bytes@) ==> text@ == decode_utf8(bytes@),
{
    String::from_utf8_lossy(bytes).into_owned()
}

/// ASCII bytes are well-formed UTF-8 and decode to one character per byte.
pub proof fn lemma_ascii_is_utf8(bytes: Seq<u8>)
    requires
        all_ascii(bytes),
    ensures
        valid_utf8(bytes),
        decode_utf8(bytes) == ascii_chars(bytes),
{
    let chars = ascii_chars(bytes);
    assert forall|i: int| 0 <= i < chars.len() implies '\0' <= #[trigger] chars[i] <= '\u{7f}' by {
        assert(is_ascii_byte(bytes[i]));
    }
    assert(is_ascii_chars(chars));
    is_ascii_chars_encode_utf8(chars);
    assert forall|i: int| 0 <= i < bytes.len() implies encode_utf8(chars)[i] == bytes[i] by {
        assert(is_ascii_byte(bytes[i]));
        assert(chars[i] as u8 == bytes[i]);
    }
    assert(encode_utf8(chars) =~= bytes);
    encode_utf8_valid_utf8(chars);
    encode_utf8_decode_utf8(chars);
}

/// Reads bytes as text, replacing what is not well-formed UTF-8.
pub fn display_string(bytes: &[u8]) -> (text: String)
    ensures
        text@ == utf8_lossy(bytes@),
        valid_utf8(bytes@) ==> text@ == decode_utf8(bytes@),
        all_ascii(bytes@) ==> text@ == ascii_chars(bytes@),
{
    proof {
        if all_ascii(bytes@) {
            lemma_ascii_is_utf8(bytes@);
        }
    }
    lossy_string(bytes)
}

/// The bytes that ASCII characters are written as, one per character.
pub open spec fn ascii_bytes(chars: Seq<char>) -> Seq<u8> {
    Seq::new(chars.len(), |i: int| chars[i] as u8)
}

/// Whether `bytes` spell `word`: whether they are its UTF-8 encoding, which
/// for an ASCII word is one byte per character.
pub fn bytes_are(bytes: &[u8], word: &str) -> (same: bool)
    ensures
        same == (bytes@ == encode_utf8(word@)),
        is_ascii_chars(word@) ==> same == (bytes@ == ascii_bytes(word@)),
{
    let expected = word.as_bytes();
    proof {
        if is_ascii_chars(word@) {
            is_ascii_chars_encode_utf8(word@);
            assert(expected@ =~= ascii_bytes(word@));
        }
    }
    if bytes.len() != expected.len() {
        return false;
    }
    let mut i: usize = 0;
    while i < bytes.len()
        invariant
            bytes.len() == expected.len(),
            i <= bytes.len(),
            expected@ == encode_utf8(word@),
            is_ascii_chars(word@) ==> expected@ == ascii_bytes(word@),
            forall|j: int| 0 <= j < i ==> bytes[j] == expected[j],
        decreases bytes.len() - i,
    {
        if bytes[i] != expected[i] {
            return false;
        }
        i += 1;
    }
    proof {
        assert(bytes@ =~= expected@);
    }
    true
}

/// Whether every byte is printable and no space.
pub fn is_graphic(bytes: &[u8]) -> (ok: bool)
    ensures
        ok == all_graphic(bytes@),
{
    let mut i: usize = 0;
    while i < bytes.len()
        invariant
            i <= bytes.len(),
            forall|j: int| 0 <= j < i ==> is_graphic_byte(#[trigger] bytes[j]),
        decreases bytes.len() - i,
    {
        if bytes[i] < 33 || bytes[i] > 126 {
            return false;
        }
        i += 1;
    }
    true
}

/// Whether every byte may stand in a header value shown as text.
pub fn is_visible(bytes: &[u8]) -> (ok: bool)
    ensures
        ok == all_visible(bytes@),
{
    let mut i: usize = 0;
    while i < bytes.len()
        invariant
            i <= bytes.len(),
            forall|j: int| 0 <= j < i ==> is_visible_byte(#[trigger] bytes[j]),
        decreases bytes.len() - i,
    {
        let b: u8 = bytes[i];
        if !((32 <= b && b < 127) || b == 9) {
            return false;
        }
        i += 1;
    }
    true
}

/// ASCII bytes spell a word exactly when their characters are the word's.
pub proof fn lemma_ascii_spelling(bytes: Seq<u8>, word: Seq<char>)
    requires
        all_ascii(bytes),
        is_ascii_chars(word),
    ensures
        (ascii_chars(bytes) == word) == (bytes == ascii_bytes(word)),
{
    if ascii_chars(bytes) == word {
        assert forall|i: int| 0 <= i < bytes.len() implies bytes[i] == ascii_bytes(word)[i] by {
            assert(is_ascii_byte(bytes[i]));
            assert(ascii_chars(bytes)[i] == word[i]);
        }
        assert(bytes =~= ascii_bytes(word));
    }
    if bytes == ascii_bytes(word) {
        assert forall|i: int| 0 <= i < word.len() implies ascii_chars(bytes)[i] == word[i] by {
            assert('\0' <= word[i] <= '\u{7f}');
            assert(bytes[i] == word[i] as u8);
        }
        assert(ascii_chars(bytes) =~= word);
    }
}

} // verus!
