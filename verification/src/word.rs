use vstd::prelude::*;

verus! {

/// An unsigned integer read as a row of byte lanes. Lane 0 is the least
/// significant byte and holds the first character of a packed text.
pub trait Word: Copy + Sized {
    /// Number of byte lanes in the word.
    spec fn capacity() -> nat;

    /// The byte in lane `i`, for `0 <= i < capacity()`.
    spec fn lane(self, i: int) -> u8;

    /// The word that holds `byte` in every lane.
    spec fn splat(byte: u8) -> Self;

    /// Every lane of `splat(byte)` is `byte`.
    proof fn lemma_splat_lanes(byte: u8)
        ensures
            forall|i: int|
                0 <= i < Self::capacity() ==> #[trigger] Self::splat(byte).lane(i) == byte,
    ;

    /// Two words with the same lanes are the same word.
    proof fn lemma_lanes_determine(a: Self, b: Self)
        requires
            forall|i: int| 0 <= i < Self::capacity() ==> a.lane(i) == b.lane(i),
        ensures
            a == b,
    ;
}

/// Words that can produce a mask with one byte repeated in every lane.
pub trait GenMask: Word {
    /// The word with `byte` in every lane.
    fn genmask(byte: u8) -> (mask: Self)
        ensures
            mask == Self::splat(byte),
    ;
}

/// Position just past the last non-zero lane among the first `n` lanes of `w`.
pub open spec fn len_within<W: Word>(w: W, n: nat) -> nat
    decreases n,
{
    if n == 0 {
        0
    } else if w.lane(n - 1) != 0 {
        n
    } else {
        len_within(w, (n - 1) as nat)
    }
}

/// Length of the text packed in `w`: the position just past its last non-zero lane.
pub open spec fn word_len<W: Word>(w: W) -> nat {
    len_within(w, W::capacity())
}

/// The text packed in `w`: its lanes below `word_len(w)`, in order, as characters.
pub open spec fn word_text<W: Word>(w: W) -> Seq<char> {
    Seq::new(word_len(w), |i: int| w.lane(i) as char)
}

/// `w` packs a text: it holds at least one character, and every lane below
/// its length holds an ASCII character other than NUL. The lanes from its
/// length on are zero by the definition of `word_len`.
pub open spec fn valid_word<W: Word>(w: W) -> bool {
    &&& word_len(w) >= 1
    &&& forall|i: int| 0 <= i < word_len(w) ==> 1 <= #[trigger] w.lane(i) <= 0x7f
}

/// `r` holds the lanes of `w` in the opposite order.
pub open spec fn lanes_reversed<W: Word>(r: W, w: W) -> bool {
    forall|i: int| 0 <= i < W::capacity() ==> #[trigger] r.lane(i) == w.lane(W::capacity() - 1 - i)
}

/// What `len_within` returns: it is at most `n`, the lane before it is not
/// zero, and the lanes from it up to `n` are.
pub proof fn lemma_len_within<W: Word>(w: W, n: nat)
    ensures
        len_within(w, n) <= n,
        len_within(w, n) > 0 ==> w.lane(len_within(w, n) - 1) != 0,
        forall|i: int| len_within(w, n) <= i < n ==> w.lane(i) == 0,
    decreases n,
{
    if n > 0 && w.lane(n - 1) == 0 {
        lemma_len_within(w, (n - 1) as nat);
    }
}

/// `len_within(w, n)` is the one `len` with a non-zero lane before it and
/// zero lanes from it up to `n`.
pub proof fn lemma_len_within_is<W: Word>(w: W, n: nat, len: nat)
    requires
        len <= n,
        len > 0 ==> w.lane(len - 1) != 0,
        forall|i: int| len <= i < n ==> w.lane(i) == 0,
    ensures
        len_within(w, n) == len,
    decreases n,
{
    if n > len {
        assert(w.lane(n - 1) == 0);
        lemma_len_within_is(w, (n - 1) as nat, len);
    }
}

/// The lanes of a valid word: ASCII and not NUL below its length, zero from there on.
pub proof fn lemma_valid_lanes<W: Word>(w: W)
    requires
        valid_word(w),
    ensures
        1 <= word_len(w) <= W::capacity(),
        forall|i: int| 0 <= i < word_len(w) ==> 1 <= #[trigger] w.lane(i) <= 0x7f,
        forall|i: int| word_len(w) <= i < W::capacity() ==> #[trigger] w.lane(i) == 0,
        forall|i: int| 0 <= i < W::capacity() ==> #[trigger] w.lane(i) <= 0x7f,
{
    lemma_len_within(w, W::capacity());
}

/// A word whose first `len` lanes are ASCII and not NUL, and whose other
/// lanes are zero, is valid and has length `len`.
pub proof fn lemma_valid_from_lanes<W: Word>(w: W, len: nat)
    requires
        1 <= len <= W::capacity(),
        forall|i: int| 0 <= i < len ==> 1 <= #[trigger] w.lane(i) <= 0x7f,
        forall|i: int| len <= i < W::capacity() ==> #[trigger] w.lane(i) == 0,
    ensures
        valid_word(w),
        word_len(w) == len,
{
    assert(w.lane(len - 1) != 0);
    lemma_len_within_is(w, W::capacity(), len);
}

/// A word that is not the all-zero word has a non-zero lane.
pub proof fn lemma_nonzero_lane<W: Word>(w: W) -> (i: int)
    requires
        w != W::splat(0),
    ensures
        0 <= i < W::capacity(),
        w.lane(i) != 0,
{
    W::lemma_splat_lanes(0);
    if forall|j: int| 0 <= j < W::capacity() ==> w.lane(j) == 0 {
        W::lemma_lanes_determine(w, W::splat(0));
    }
    choose|j: int| 0 <= j < W::capacity() && w.lane(j) != 0
}

/// Canonical encoding: two valid words that pack the same text are the same word.
pub proof fn lemma_text_determines_word<W: Word>(a: W, b: W)
    requires
        valid_word(a),
        valid_word(b),
        word_text(a) == word_text(b),
    ensures
        a == b,
{
    lemma_valid_lanes(a);
    lemma_valid_lanes(b);
    assert(word_text(a).len() == word_len(a));
    assert(word_text(b).len() == word_len(b));
    assert forall|i: int| 0 <= i < W::capacity() implies a.lane(i) == b.lane(i) by {
        if i < word_len(a) {
            assert(word_text(a)[i] == a.lane(i) as char);
            assert(word_text(b)[i] == b.lane(i) as char);
        }
    }
    W::lemma_lanes_determine(a, b);
}

} // verus!
