use crate::ascii::{
    alnum_char, alnum_text, lemma_byte_char, lower_byte, lower_text, title_text, upper_byte,
    upper_text,
};
use crate::encoding::{encoding_error, lemma_encoding_error_bytes};
use crate::error::Error;
use crate::order::lex_order;
use crate::render::{debug_rendering, format_debug, write_text};
use crate::tinystr::TinyStr;
use crate::word::{
    lemma_len_within_is, lemma_nonzero_lane, lemma_valid_from_lanes, lemma_valid_lanes,
    valid_word, word_len, word_text, GenMask, Word,
};
use crate::word128::{
    lemma_alnum128, lemma_checks128, lemma_empty128, lemma_high_bit128, lemma_len128,
    lemma_lower128, lemma_put128, lemma_reversed_order128, lemma_title128, lemma_title_masks128,
    lemma_upper128, lemma_valid128,
};
use std::cmp::Ordering;
use std::str::FromStr;
use vstd::prelude::*;

verus! {

/// Number of bytes in use in `word`: the lanes that the leading zero bytes leave.
fn len128(word: u128) -> (len: usize)
    ensures
        len == word_len(word),
        len <= 16,
        word >> ((8 * len) as u32) == 0,
        len == 0 <==> word == 0,
{
    let zeros = word.leading_zeros();
    proof {
        let len = (16 - zeros / 8) as nat;
        assert forall|j: int| 0 <= j < 16 implies (j + 1 == len ==> word.lane(j) != 0) && (j
            >= len ==> #[trigger] word.lane(j) == 0) by {
            lemma_len128(word, zeros, j as u32);
        }
        lemma_len128(word, zeros, 0);
        lemma_len_within_is(word, 16, len);
    }
    16 - zeros as usize / 8
}

/// Packs up to sixteen bytes into a word, the first byte in the lowest lane.
fn pack128(bytes: &[u8]) -> (word: u128)
    requires
        bytes@.len() <= 16,
    ensures
        forall|j: int| 0 <= j < bytes@.len() ==> #[trigger] word.lane(j) == bytes@[j],
        forall|j: int| bytes@.len() <= j < 16 ==> #[trigger] word.lane(j) == 0,
        word >> ((8 * bytes@.len()) as u32) == 0,
{
    let len = bytes.len();
    let mut word: u128 = 0;
    let mut i: usize = 0;
    proof {
        assert forall|j: int| 0 <= j < 16 implies #[trigger] word.lane(j) == 0 by {
            lemma_empty128(j as u32);
        }
        lemma_empty128(0);
    }
    while i < len
        invariant
            i <= len,
            len == bytes@.len(),
            len <= 16,
            word >> ((8 * i) as u32) == 0,
            forall|j: int| 0 <= j < i ==> #[trigger] word.lane(j) == bytes@[j],
            forall|j: int| i <= j < 16 ==> #[trigger] word.lane(j) == 0,
        decreases len - i,
    {
        let byte = bytes[i];
        let next = word | (byte as u128) << (8 * i as u32);
        proof {
            assert forall|j: int| 0 <= j < 16 implies #[trigger] next.lane(j) == (if j < i {
                bytes@[j]
            } else if j == i {
                byte
            } else {
                0
            }) by {
                lemma_put128(word, byte, i as u32, j as u32);
                assert(j < i ==> word.lane(j) == bytes@[j]);
            }
            lemma_put128(word, byte, i as u32, 0);
        }
        word = next;
        i += 1;
    }
    word
}

/// Looks for a byte outside of ASCII and for a NUL among the first `len`
/// bytes of `word`, on the whole word at once.
fn check128(word: u128, len: usize) -> (found: Option<Error>)
    requires
        1 <= len <= 16,
        word >> ((8 * len) as u32) == 0,
    ensures
        match found {
            None => forall|j: int| 0 <= j < len ==> 1 <= #[trigger] word.lane(j) <= 0x7f,
            Some(Error::NonAscii) => exists|j: int| 0 <= j < len && word.lane(j) >= 0x80,
            Some(Error::InvalidNull) => {
                &&& forall|j: int| 0 <= j < len ==> #[trigger] word.lane(j) <= 0x7f
                &&& exists|j: int| 0 <= j < len && word.lane(j) == 0
            },
            Some(Error::InvalidSize) => false,
        },
{
    let mask = u128::genmask(0x80) >> (8 * (16 - len) as u32);
    let high = word & mask;
    if high != 0 {
        proof {
            let j = lemma_nonzero_lane(high);
            lemma_checks128(word, len as u32, mask, j as u32);
            assert(word.lane(j) >= 0x80);
        }
        return Some(Error::NonAscii);
    }
    proof {
        lemma_checks128(word, len as u32, mask, 0);
        assert forall|j: int| 0 <= j < len implies #[trigger] word.lane(j) <= 0x7f by {
            lemma_checks128(word, len as u32, mask, j as u32);
        }
    }
    let nul = (mask - word) & mask;
    if nul != 0 {
        proof {
            let j = lemma_nonzero_lane(nul);
            lemma_checks128(word, len as u32, mask, j as u32);
            assert(word.lane(j) == 0);
        }
        return Some(Error::InvalidNull);
    }
    proof {
        assert forall|j: int| 0 <= j < len implies 1 <= #[trigger] word.lane(j) <= 0x7f by {
            lemma_checks128(word, len as u32, mask, j as u32);
        }
    }
    None
}

impl TinyStr<u128> {
    /// Wraps a word that packs a text, without looking at it.
    ///
    /// The caller answers for the three things that make a word valid: it is
    /// not zero, no lane below its length is zero, and no lane has its high
    /// bit set.
    pub fn new_unchecked(raw: u128) -> (v: Self)
        requires
            valid_word(raw),
        ensures
            v.wf(),
            v.raw() == raw,
    {
        TinyStr(raw)
    }

    /// Wraps a word if it packs a text.
    pub fn from_raw(raw: u128) -> (v: Option<Self>)
        ensures
            v is Some <==> valid_word(raw),
            v is Some ==> v->0.wf() && v->0.raw() == raw,
    {
        let len = len128(raw);
        if len == 0 {
            return None;
        }
        match check128(raw, len) {
            None => Some(TinyStr(raw)),
            Some(_) => None,
        }
    }

    /// Number of characters of the text.
    pub fn len(&self) -> (len: usize)
        ensures
            len == self@.len(),
            1 <= len <= 16,
    {
        proof {
            use_type_invariant(self);
        }
        len128(self.0)
    }

    /// The text, as a string of its own.
    pub fn as_str(&self) -> (text: String)
        ensures
            text@ == self@,
    {
        let len = self.len();
        let mut text = String::new();
        let mut i: usize = 0;
        while i < len
            invariant
                i <= len,
                len == self@.len(),
                len <= 16,
                text@ == self@.take(i as int),
            decreases len - i,
        {
            let byte = ((self.0 >> (8 * i as u32)) & 0xff) as u8;
            text.push(byte as char);
            proof {
                assert(byte == self.raw().lane(i as int));
                assert(text@ =~= self@.take(i + 1));
            }
            i += 1;
        }
        proof {
            assert(self@.take(len as int) =~= self@);
        }
        text
    }

    /// The text between double quotes, as `Debug` formatting writes a `str`.
    pub fn to_debug_string(&self) -> (rendering: String)
        ensures
            rendering@ == debug_rendering(self@),
    {
        let text = self.as_str();
        format_debug(text.as_str())
    }

    /// The text with `a` to `z` replaced by `A` to `Z`.
    pub fn to_ascii_uppercase(self) -> (upper: Self)
        ensures
            upper.wf(),
            upper@ == upper_text(self@),
    {
        let word = self.0;
        proof {
            use_type_invariant(self);
            lemma_valid128(word);
        }
        let result = word & !(((word + u128::genmask(0x1f)) & !(word + u128::genmask(0x05))
            & u128::genmask(0x80)) >> 2);
        proof {
            lemma_valid_lanes(word);
            assert forall|i: int| 0 <= i < 16 implies #[trigger] result.lane(i)
                == upper_byte(word.lane(i)) by {
                lemma_upper128(word, result, i as u32);
            }
            lemma_valid_from_lanes(result, word_len(word));
            assert(word_text(result) =~= upper_text(word_text(word)));
        }
        TinyStr(result)
    }

    /// The text with `A` to `Z` replaced by `a` to `z`.
    pub fn to_ascii_lowercase(self) -> (lower: Self)
        ensures
            lower.wf(),
            lower@ == lower_text(self@),
    {
        let word = self.0;
        proof {
            use_type_invariant(self);
            lemma_valid128(word);
        }
        let result = word | (((word + u128::genmask(0x3f)) & !(word + u128::genmask(0x25))
            & u128::genmask(0x80)) >> 2);
        proof {
            lemma_valid_lanes(word);
            assert forall|i: int| 0 <= i < 16 implies #[trigger] result.lane(i) == lower_byte(
                word.lane(i),
            ) by {
                lemma_lower128(word, result, i as u32);
            }
            lemma_valid_from_lanes(result, word_len(word));
            assert(word_text(result) =~= lower_text(word_text(word)));
        }
        TinyStr(result)
    }

    /// The text with its first character in uppercase and the others in
    /// lowercase.
    pub fn to_ascii_titlecase(self) -> (title: Self)
        ensures
            title.wf(),
            title@ == title_text(self@),
    {
        let word = self.0;
        proof {
            use_type_invariant(self);
            lemma_valid128(word);
            lemma_title_masks128();
        }
        let mask_1f = u128::genmask(0x3f) & !0x20;
        let mask_05 = u128::genmask(0x25) & !0x20;
        let mask = ((word + mask_1f) & !(word + mask_05) & u128::genmask(0x80)) >> 2;
        let result = (word | mask) & !(0x20 & mask);
        proof {
            lemma_valid_lanes(word);
            assert forall|i: int| 0 <= i < 16 implies #[trigger] result.lane(i) == (if i == 0 {
                upper_byte(word.lane(i))
            } else {
                lower_byte(word.lane(i))
            }) by {
                lemma_title128(word, mask_1f, mask_05, mask, result, i as u32);
            }
            lemma_valid_from_lanes(result, word_len(word));
            assert(word_text(result) =~= title_text(word_text(word)));
        }
        TinyStr(result)
    }

    /// Whether every character of the text is an ASCII letter or digit.
    pub fn is_ascii_alphanumeric(self) -> (all: bool)
        ensures
            all == alnum_text(self@),
    {
        let word = self.0;
        proof {
            use_type_invariant(self);
            lemma_valid128(word);
            lemma_high_bit128(word, 0);
        }
        let mask = (word + u128::genmask(0x7f)) & u128::genmask(0x80);
        let lower = word | u128::genmask(0x20);
        let alpha = !(lower + u128::genmask(0x1f)) | (lower + u128::genmask(0x05));
        let numeric = !(word + u128::genmask(0x50)) | (word + u128::genmask(0x46));
        let failed = alpha & numeric & mask;
        proof {
            lemma_valid_lanes(word);
            if failed == 0 {
                assert forall|i: int| 0 <= i < self@.len() implies alnum_char(
                    #[trigger] self@[i],
                ) by {
                    lemma_alnum128(word, mask, lower, alpha, numeric, failed, i as u32);
                    lemma_byte_char(word.lane(i));
                }
            } else {
                let j = lemma_nonzero_lane(failed);
                lemma_alnum128(word, mask, lower, alpha, numeric, failed, j as u32);
                lemma_byte_char(word.lane(j));
                assert(!alnum_char(self@[j]));
            }
        }
        failed == 0
    }

    /// The order of the two texts: the lexicographic order of their bytes.
    pub fn cmp(&self, other: &Self) -> (order: Ordering)
        ensures
            order == lex_order(self@, other@),
    {
        let a = self.0.swap_bytes();
        let b = other.0.swap_bytes();
        proof {
            use_type_invariant(self);
            use_type_invariant(other);
            lemma_reversed_order128(self.0, other.0, a, b);
        }
        a.cmp(&b)
    }
}

impl FromStr for TinyStr<u128> {
    type Err = Error;

    /// Packs `text`, if it has from 1 to 16 bytes, all of them ASCII
    /// characters other than NUL.
    fn from_str(text: &str) -> (parsed: Result<Self, Error>)
        ensures
            match parsed {
                Ok(v) => encoding_error(text@, 16) is None && v.wf() && v@ == text@,
                Err(e) => encoding_error(text@, 16) == Some(e),
            },
    {
        let bytes = text.as_bytes();
        let len = bytes.len();
        proof {
            lemma_encoding_error_bytes(text@, 16);
        }
        if len < 1 || len > 16 {
            return Err(Error::InvalidSize);
        }
        let word = pack128(bytes);
        match check128(word, len) {
            Some(e) => {
                proof {
                    if e == Error::NonAscii {
                        let j = choose|j: int| 0 <= j < len && word.lane(j) >= 0x80;
                        assert(bytes@[j] >= 0x80);
                    } else {
                        let j = choose|j: int| 0 <= j < len && word.lane(j) == 0;
                        assert(bytes@[j] == 0);
                        assert forall|i: int| 0 <= i < len implies #[trigger] bytes@[i] < 0x80 by {
                            assert(word.lane(i) <= 0x7f);
                        }
                    }
                }
                Err(e)
            },
            None => {
                proof {
                    assert forall|i: int| 0 <= i < len implies 1 <= #[trigger] bytes@[i]
                        <= 0x7f by {
                        assert(1 <= word.lane(i) <= 0x7f);
                    }
                    lemma_valid_from_lanes(word, len as nat);
                    assert(word_text(word) =~= text@);
                }
                Ok(TinyStr(word))
            },
        }
    }
}

impl core::fmt::Display for TinyStr<u128> {
    /// Writes the text.
    fn fmt(&self, f: &mut core::fmt::Formatter<'_>) -> (written: Result<(), core::fmt::Error>) {
        let text = self.as_str();
        write_text(f, text.as_str())
    }
}

impl core::fmt::Debug for TinyStr<u128> {
    /// Writes the text between double quotes, as `to_debug_string` gives it.
    fn fmt(&self, f: &mut core::fmt::Formatter<'_>) -> (written: Result<(), core::fmt::Error>) {
        let rendering = self.to_debug_string();
        write_text(f, rendering.as_str())
    }
}

impl PartialEq for TinyStr<u128> {
    fn eq(&self, other: &Self) -> (equal: bool) {
        self.0 == other.0
    }
}

impl vstd::std_specs::cmp::PartialEqSpecImpl for TinyStr<u128> {
    open spec fn obeys_eq_spec() -> bool {
        true
    }

    open spec fn eq_spec(&self, other: &Self) -> bool {
        *self == *other
    }
}

impl Eq for TinyStr<u128> {

}

impl<'a> PartialEq<&'a str> for TinyStr<u128> {
    fn eq(&self, other: &&'a str) -> (equal: bool) {
        proof {
            use_type_invariant(self);
        }
        match Self::from_str(*other) {
            Ok(v) => {
                proof {
                    use_type_invariant(v);
                    Self::lemma_canonical(*self, v);
                }
                self.0 == v.0
            },
            Err(_) => {
                proof {
                    Self::lemma_text_is_packable(*self);
                }
                false
            },
        }
    }
}

impl<'a> vstd::std_specs::cmp::PartialEqSpecImpl<&'a str> for TinyStr<u128> {
    open spec fn obeys_eq_spec() -> bool {
        true
    }

    /// A value equals a string when its text is the string.
    open spec fn eq_spec(&self, other: &&'a str) -> bool {
        self@ == other@
    }
}

impl PartialOrd for TinyStr<u128> {
    fn partial_cmp(&self, other: &Self) -> (order: Option<Ordering>) {
        Some(self.cmp(other))
    }
}

impl vstd::std_specs::cmp::PartialOrdSpecImpl for TinyStr<u128> {
    open spec fn obeys_partial_cmp_spec() -> bool {
        true
    }

    open spec fn partial_cmp_spec(&self, other: &Self) -> Option<Ordering> {
        Some(lex_order(self@, other@))
    }
}

impl From<TinyStr<u128>> for u128 {
    fn from(value: TinyStr<u128>) -> (raw: u128) {
        value.0
    }
}

impl vstd::std_specs::convert::FromSpecImpl<TinyStr<u128>> for u128 {
    open spec fn obeys_from_spec() -> bool {
        true
    }

    /// The word of a value, as it is.
    open spec fn from_spec(value: TinyStr<u128>) -> u128 {
        value.raw()
    }
}

} // verus!
