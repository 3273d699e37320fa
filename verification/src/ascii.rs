use vstd::prelude::*;

verus! {

/// The uppercase form of an ASCII byte.
pub open spec fn upper_byte(b: u8) -> u8 {
    if 0x61 <= b && b <= 0x7a {
        (b - 0x20) as u8
    } else {
        b
    }
}

/// The lowercase form of an ASCII byte.
pub open spec fn lower_byte(b: u8) -> u8 {
    if 0x41 <= b && b <= 0x5a {
        (b + 0x20) as u8
    } else {
        b
    }
}

/// Whether a byte is an ASCII letter or digit.
pub open spec fn alnum_byte(b: u8) -> bool {
    (0x30 <= b && b <= 0x39) || (0x41 <= b && b <= 0x5a) || (0x61 <= b && b <= 0x7a)
}

/// The uppercase form of a character: `a` to `z` become `A` to `Z`, every
/// other character stays.
pub open spec fn upper_char(c: char) -> char {
    if 'a' <= c && c <= 'z' {
        (c as u8 - 0x20) as char
    } else {
        c
    }
}

/// The lowercase form of a character: `A` to `Z` become `a` to `z`, every
/// other character stays.
pub open spec fn lower_char(c: char) -> char {
    if 'A' <= c && c <= 'Z' {
        (c as u8 + 0x20) as char
    } else {
        c
    }
}

/// Whether a character is one of `0` to `9`, `A` to `Z` or `a` to `z`.
pub open spec fn alnum_char(c: char) -> bool {
    ('0' <= c && c <= '9') || ('A' <= c && c <= 'Z') || ('a' <= c && c <= 'z')
}

/// `text` with every character in uppercase.
pub open spec fn upper_text(text: Seq<char>) -> Seq<char> {
    Seq::new(text.len(), |i: int| upper_char(text[i]))
}

/// `text` with every character in lowercase.
pub open spec fn lower_text(text: Seq<char>) -> Seq<char> {
    Seq::new(text.len(), |i: int| lower_char(text[i]))
}

/// `text` with its first character in uppercase and the others in lowercase.
pub open spec fn title_text(text: Seq<char>) -> Seq<char> {
    Seq::new(
        text.len(),
        |i: int|
            if i == 0 {
                upper_char(text[i])
            } else {
                lower_char(text[i])
            },
    )
}

/// Whether every character of `text` is an ASCII letter or digit.
pub open spec fn alnum_text(text: Seq<char>) -> bool {
    forall|i: int| 0 <= i < text.len() ==> alnum_char(#[trigger] text[i])
}

/// Raising the case of a text twice gives what raising it once gives.
pub proof fn lemma_upper_idempotent(text: Seq<char>)
    ensures
        upper_text(upper_text(text)) == upper_text(text),
{
    assert(upper_text(upper_text(text)) =~= upper_text(text));
}

/// Lowering the case of a text twice gives what lowering it once gives.
pub proof fn lemma_lower_idempotent(text: Seq<char>)
    ensures
        lower_text(lower_text(text)) == lower_text(text),
{
    assert(lower_text(lower_text(text)) =~= lower_text(text));
}

/// Lowering the case of a text after raising it gives what lowering it
/// alone gives.
pub proof fn lemma_lower_of_upper(text: Seq<char>)
    ensures
        lower_text(upper_text(text)) == lower_text(text),
{
    assert(lower_text(upper_text(text)) =~= lower_text(text));
}

/// Putting a text in title case twice gives what doing it once gives.
pub proof fn lemma_title_idempotent(text: Seq<char>)
    ensures
        title_text(title_text(text)) == title_text(text),
{
    assert(title_text(title_text(text)) =~= title_text(text));
}

/// On ASCII, the forms and classes of a character are those of its byte.
pub(crate) proof fn lemma_byte_char(b: u8)
    requires
        b <= 0x7f,
    ensures
        upper_char(b as char) == upper_byte(b) as char,
        lower_char(b as char) == lower_byte(b) as char,
        alnum_char(b as char) == alnum_byte(b),
        1 <= b ==> 1 <= upper_byte(b) <= 0x7f && 1 <= lower_byte(b) <= 0x7f,
        upper_byte(0) == 0,
        lower_byte(0) == 0,
{
}

} // verus!
