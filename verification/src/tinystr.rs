use crate::encoding::{encoding_error, lemma_ascii_text_bytes};
use crate::word::{lemma_text_determines_word, lemma_valid_lanes, valid_word, word_text, Word};
use vstd::prelude::*;
use vstd::utf8::is_ascii_chars;

mod tiny16;
mod tiny4;
mod tiny8;

verus! {

/// A text of 1 to `W::capacity()` ASCII characters other than NUL, packed into
/// the byte lanes of one word: character `i` in lane `i`, zero in the lanes
/// that are left.
#[derive(Hash)]
pub struct TinyStr<W: Word>(W);

/// A text of 1 to 4 characters in a `u32`.
pub type TinyStr4 = TinyStr<u32>;

/// A text of 1 to 8 characters in a `u64`.
pub type TinyStr8 = TinyStr<u64>;

/// A text of 1 to 16 characters in a `u128`.
pub type TinyStr16 = TinyStr<u128>;

impl<W: Word> View for TinyStr<W> {
    type V = Seq<char>;

    /// The text that the value holds.
    open spec fn view(&self) -> Seq<char> {
        word_text(self.raw())
    }
}

impl<W: Word> Clone for TinyStr<W> {
    fn clone(&self) -> (copy: Self)
        ensures
            copy == *self,
    {
        *self
    }
}

impl<W: Word> Copy for TinyStr<W> {

}

impl<W: Word> TinyStr<W> {
    /// The word that holds the text.
    pub closed spec fn raw(self) -> W {
        self.0
    }

    /// The word of the value packs a text. This holds of every value that
    /// executable code can hold.
    #[verifier::type_invariant]
    pub open spec fn wf(self) -> bool {
        valid_word(self.raw())
    }

    /// A value is its word: wrapping the raw word of `v` again gives `v`.
    pub proof fn lemma_raw_determines(v: Self, r: Self)
        requires
            r.raw() == v.raw(),
        ensures
            r == v,
    {
    }

    /// The encoding is canonical: two values are equal exactly when their
    /// texts are.
    pub proof fn lemma_canonical(a: Self, b: Self)
        requires
            a.wf(),
            b.wf(),
        ensures
            a@ == b@ <==> a == b,
    {
        if a@ == b@ {
            lemma_text_determines_word(a.raw(), b.raw());
        }
    }

    /// The text of a value is one that can be packed: it is ASCII, holds no
    /// NUL, and has from 1 to `W::capacity()` characters, one byte each.
    pub proof fn lemma_text_is_packable(v: Self)
        requires
            v.wf(),
        ensures
            encoding_error(v@, W::capacity()) is None,
            is_ascii_chars(v@),
            1 <= v@.len() <= W::capacity(),
    {
        lemma_valid_lanes(v.raw());
        assert(is_ascii_chars(v@));
        lemma_ascii_text_bytes(v@);
        if v@.contains('\0') {
            let i = choose|i: int| 0 <= i < v@.len() && v@[i] == '\0';
            assert(v.raw().lane(i) == 0);
        }
    }
}

} // verus!
