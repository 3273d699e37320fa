use crate::error::Error;
use vstd::prelude::*;
use vstd::utf8::*;

verus! {

/// Number of bytes that `text` takes in UTF-8.
pub open spec fn byte_len(text: Seq<char>) -> nat {
    encode_utf8(text).len()
}

/// Why `text` cannot be packed into a word of `capacity` lanes, if it cannot.
/// The size is judged first, then the character set, then the NUL characters.
pub open spec fn encoding_error(text: Seq<char>, capacity: nat) -> Option<Error> {
    if byte_len(text) < 1 || byte_len(text) > capacity {
        Some(Error::InvalidSize)
    } else if !is_ascii_chars(text) {
        Some(Error::NonAscii)
    } else if text.contains('\0') {
        Some(Error::InvalidNull)
    } else {
        None
    }
}

/// The code of a character is a number from 0 to `0x10ffff`, whatever the
/// integer type it is read in.
proof fn lemma_char_code(c: char)
    ensures
        '\0' <= c,
        c as int <= 0x10ffff,
        c as u32 == c as int,
{
}

/// The first byte of a UTF-8 encoding of two bytes or more is `0x80` or more.
proof fn lemma_leading_bytes(c: u32)
    by (bit_vector)
    ensures
        leading_byte_width_2(c) >= 0x80,
        leading_byte_width_3(c) >= 0x80,
        leading_byte_width_4(c) >= 0x80,
{
}

/// A text whose UTF-8 bytes are all below `0x80` holds ASCII characters only.
pub proof fn lemma_ascii_bytes(text: Seq<char>)
    requires
        forall|i: int| 0 <= i < encode_utf8(text).len() ==> encode_utf8(text)[i] < 0x80,
    ensures
        is_ascii_chars(text),
    decreases text.len(),
{
    if text.len() > 0 {
        lemma_char_code(text[0]);
        let c = text[0] as u32;
        let rest = text.drop_first();
        let head = encode_scalar(c);
        let bytes = encode_utf8(text);
        assert(bytes == head + encode_utf8(rest));
        assert(bytes[0] == head[0]);
        lemma_leading_bytes(c);
        assert(has_width_1_encoding(c));
        assert forall|i: int| 0 <= i < encode_utf8(rest).len() implies encode_utf8(rest)[i]
            < 0x80 by {
            assert(bytes[i + 1] == encode_utf8(rest)[i]);
        }
        lemma_ascii_bytes(rest);
        assert forall|i: int| 0 <= i < text.len() implies '\0' <= #[trigger] text[i]
            <= '\u{7f}' by {
            if i > 0 {
                assert(text[i] == rest[i - 1]);
            } else {
                lemma_char_code(text[0]);
            }
        }
    }
}

/// An ASCII text has one UTF-8 byte for each character: the character's code.
pub proof fn lemma_ascii_text_bytes(text: Seq<char>)
    requires
        is_ascii_chars(text),
    ensures
        byte_len(text) == text.len(),
        forall|i: int| 0 <= i < text.len() ==> #[trigger] text[i] == encode_utf8(text)[i] as char,
{
    is_ascii_chars_encode_utf8(text);
    assert forall|i: int| 0 <= i < text.len() implies #[trigger] text[i] == encode_utf8(
        text,
    )[i] as char by {
        assert(text[i] as u8 == encode_utf8(text)[i]);
    }
}

/// What the UTF-8 bytes of a text say of it: the size is their number, a
/// byte from `0x80` on shows a character outside of ASCII, and in an ASCII
/// text each byte is one character.
pub proof fn lemma_encoding_error_bytes(text: Seq<char>, capacity: nat)
    ensures
        encoding_error(text, capacity) == ({
            let bytes = encode_utf8(text);
            if bytes.len() < 1 || bytes.len() > capacity {
                Some(Error::InvalidSize)
            } else if exists|i: int| 0 <= i < bytes.len() && bytes[i] >= 0x80 {
                Some(Error::NonAscii)
            } else if exists|i: int| 0 <= i < bytes.len() && bytes[i] == 0 {
                Some(Error::InvalidNull)
            } else {
                None
            }
        }),
        is_ascii_chars(text) ==> {
            &&& encode_utf8(text).len() == text.len()
            &&& forall|i: int|
                0 <= i < text.len() ==> #[trigger] text[i] == encode_utf8(text)[i] as char
        },
{
    let bytes = encode_utf8(text);
    if is_ascii_chars(text) {
        lemma_ascii_text_bytes(text);
        assert forall|i: int| 0 <= i < bytes.len() implies bytes[i] < 0x80 by {
            assert(text[i] == bytes[i] as char);
        }
        if text.contains('\0') {
            let i = choose|i: int| 0 <= i < text.len() && text[i] == '\0';
            assert(text[i] == bytes[i] as char);
            assert(bytes[i] == 0);
        }
        if exists|i: int| 0 <= i < bytes.len() && bytes[i] == 0 {
            let i = choose|i: int| 0 <= i < bytes.len() && bytes[i] == 0;
            assert(text[i] == bytes[i] as char);
            assert(text[i] == '\0');
        }
    } else {
        if forall|i: int| 0 <= i < bytes.len() ==> bytes[i] < 0x80 {
            lemma_ascii_bytes(text);
        }
    }
}

} // verus!
