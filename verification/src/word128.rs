use crate::ascii::{alnum_byte, lower_byte, upper_byte};
use crate::order::{lemma_lex_total, lex_lt, precedes_at};
use crate::word::{
    lanes_reversed, lemma_nonzero_lane, lemma_text_determines_word, lemma_valid_lanes,
    valid_word, word_text, GenMask, Word,
};
use crate::word64::splat64;
use vstd::prelude::*;

verus! {

/// The byte in lane `i` of a 128-bit word.
pub open spec fn lane128(w: u128, i: u32) -> u8 {
    ((w >> (8 * i)) & 0xff) as u8
}

/// The 128-bit word with `byte` in every lane.
pub open spec fn splat128(byte: u8) -> u128 {
    (byte * 0x0101_0101_0101_0101_0101_0101_0101_0101) as u128
}

impl Word for u128 {
    open spec fn capacity() -> nat {
        16
    }

    open spec fn lane(self, i: int) -> u8 {
        lane128(self, i as u32)
    }

    open spec fn splat(byte: u8) -> u128 {
        splat128(byte)
    }

    proof fn lemma_splat_lanes(byte: u8) {
        assert forall|i: int| 0 <= i < 16 implies #[trigger] Self::splat(byte).lane(i) == byte by {
            lemma_splat128(byte, i as u32);
        }
    }

    proof fn lemma_lanes_determine(a: u128, b: u128) {
        assert forall|i: u32| 0 <= i < 16 implies lane128(a, i) == lane128(b, i) by {
            assert(a.lane(i as int) == b.lane(i as int));
        }
        lemma_high_lanes128(a, b, 0);
    }
}

impl GenMask for u128 {
    fn genmask(byte: u8) -> (mask: u128) {
        let mask: u128 = u64::genmask(byte) as u128;
        assert(mask << 64 | mask == splat128(byte)) by (bit_vector)
            requires
                mask == splat64(byte),
        ;
        mask << 64 | mask
    }
}

/// `u128::leading_zeros` counts the zero bits above the highest bit that is
/// set in its argument, and gives 128 for zero.
pub assume_specification[ u128::leading_zeros ](x: u128) -> (zeros: u32)
    ensures
        zeros <= 128,
        x >> ((128 - zeros) as u32) == 0,
        zeros < 128 ==> (x >> ((127 - zeros) as u32)) & 1 != 0,
;

/// `u128::swap_bytes` reverses the order of the bytes of its argument.
pub assume_specification[ u128::swap_bytes ](x: u128) -> (r: u128)
    ensures
        lanes_reversed(r, x),
;

/// Every lane of `splat128(byte)` is `byte`.
proof fn lemma_splat128(byte: u8, i: u32)
    by (bit_vector)
    requires
        i < 16,
    ensures
        lane128(splat128(byte), i) == byte,
{
}

/// One lane more: words that agree on lane `k` and on all their bits above
/// it agree on all their bits from bit `8 * k` up.
proof fn lemma_high_lanes_step128(a: u128, b: u128, k: u32)
    by (bit_vector)
    requires
        k < 16,
        lane128(a, k) == lane128(b, k),
        k < 15 ==> (a ^ b) >> (8 * (k + 1)) == 0,
    ensures
        (a ^ b) >> (8 * k) == 0,
        k == 0 ==> a == b,
{
}

/// Words that agree on every lane from `k` up agree on all their bits from
/// bit `8 * k` up.
pub(crate) proof fn lemma_high_lanes128(a: u128, b: u128, k: u32)
    requires
        k < 16,
        forall|i: u32| k <= i < 16 ==> lane128(a, i) == lane128(b, i),
    ensures
        (a ^ b) >> (8 * k) == 0,
        k == 0 ==> a == b,
    decreases 16 - k,
{
    if k < 15 {
        lemma_high_lanes128(a, b, (k + 1) as u32);
    }
    lemma_high_lanes_step128(a, b, k);
}

/// Of two words that agree on every lane above `q`, the one with the smaller
/// lane `q` is the smaller number.
pub(crate) proof fn lemma_order128(x: u128, y: u128, q: u32)
    by (bit_vector)
    requires
        q < 16,
        q < 15 ==> (x ^ y) >> (8 * (q + 1)) == 0,
        lane128(x, q) < lane128(y, q),
    ensures
        x < y,
{
}

/// The zero word is empty: every lane of it is zero.
pub(crate) proof fn lemma_empty128(j: u32)
    by (bit_vector)
    requires
        j < 16,
    ensures
        lane128(0, j) == 0,
        0u128 >> (8 * j) == 0,
{
}

/// Putting a byte into the first empty lane of a word: the lanes below keep
/// their bytes and the lanes above stay empty.
pub(crate) proof fn lemma_put128(w: u128, byte: u8, i: u32, j: u32)
    by (bit_vector)
    requires
        i < 16,
        j < 16,
        w >> (8 * i) == 0,
    ensures
        lane128(w | (byte as u128) << (8 * i), j) == (if j < i {
            lane128(w, j)
        } else if j == i {
            byte
        } else {
            0
        }),
        (w | (byte as u128) << (8 * i)) >> (8 * (i + 1)) == 0,
{
}

/// The two mask tests on a word that holds `n` bytes: `mask` marks the high
/// bit of the first `n` lanes.
pub(crate) proof fn lemma_checks128(w: u128, n: u32, mask: u128, j: u32)
    by (bit_vector)
    requires
        1 <= n <= 16,
        j < 16,
        mask == splat128(0x80) >> ((8 * (16 - n)) as u32),
        w >> (8 * n) == 0,
    ensures
        lane128(w & mask, j) != 0 ==> j < n && lane128(w, j) >= 0x80,
        w & mask == 0 ==> w <= mask,
        w & mask == 0 && lane128(((mask - w) as u128) & mask, j) != 0 ==> j < n && lane128(w, j)
            == 0,
        w & mask == 0 && ((mask - w) as u128) & mask == 0 && j < n ==> 1 <= lane128(w, j),
        w & mask == 0 && j < n ==> lane128(w, j) <= 0x7f,
        j >= n ==> lane128(w, j) == 0,
{
}

/// From the number of leading zero bits to the number of bytes in use.
pub(crate) proof fn lemma_len128(w: u128, zeros: u32, j: u32)
    by (bit_vector)
    requires
        zeros <= 128,
        j < 16,
        w >> ((128 - zeros) as u32) == 0,
        zeros < 128 ==> (w >> ((127 - zeros) as u32)) & 1 != 0,
    ensures
        j + 1 == 16 - zeros / 8 ==> lane128(w, j) != 0,
        j >= 16 - zeros / 8 ==> lane128(w, j) == 0,
        w >> ((8 * (16 - zeros / 8)) as u32) == 0,
        w == 0 <==> zeros == 128,
{
}

/// The high bits of the lanes: a lane of `w & 0x80..80` is not zero only
/// where the lane of `w` is `0x80` or more, and a word without them stays
/// below `0x80` in every lane when the bit `0x20` is set in each.
pub(crate) proof fn lemma_high_bit128(w: u128, j: u32)
    by (bit_vector)
    requires
        j < 16,
    ensures
        lane128(w & splat128(0x80), j) != 0 ==> lane128(w, j) >= 0x80,
        w & splat128(0x80) == 0 ==> w <= splat128(0x7f),
        w & splat128(0x80) == 0 ==> w | splat128(0x20) <= splat128(0x7f),
{
}

/// The two masks of the titlecase formula are those of the lowercase
/// formula with one bit less, so they are no larger.
pub(crate) proof fn lemma_title_masks128()
    by (bit_vector)
    ensures
        splat128(0x3f) & !0x20 <= splat128(0x3f),
        splat128(0x25) & !0x20 <= splat128(0x25),
{
}

/// The uppercase formula, lane by lane.
pub(crate) proof fn lemma_upper128(w: u128, r: u128, i: u32)
    by (bit_vector)
    requires
        w & splat128(0x80) == 0,
        r == w & !((((w + splat128(0x1f)) as u128) & !((w + splat128(0x05)) as u128)
            & splat128(0x80)) >> 2),
        i < 16,
    ensures
        lane128(r, i) == upper_byte(lane128(w, i)),
{
}

/// The lowercase formula, lane by lane.
pub(crate) proof fn lemma_lower128(w: u128, r: u128, i: u32)
    by (bit_vector)
    requires
        w & splat128(0x80) == 0,
        r == w | ((((w + splat128(0x3f)) as u128) & !((w + splat128(0x25)) as u128)
            & splat128(0x80)) >> 2),
        i < 16,
    ensures
        lane128(r, i) == lower_byte(lane128(w, i)),
{
}

/// The titlecase formula, lane by lane.
pub(crate) proof fn lemma_title128(w: u128, lo: u128, hi: u128, m: u128, r: u128, i: u32)
    by (bit_vector)
    requires
        w & splat128(0x80) == 0,
        lo == splat128(0x3f) & !0x20,
        hi == splat128(0x25) & !0x20,
        m == (((w + lo) as u128) & !((w + hi) as u128) & splat128(0x80)) >> 2,
        r == (w | m) & !(0x20 & m),
        i < 16,
    ensures
        lane128(r, i) == (if i == 0 {
            upper_byte(lane128(w, i))
        } else {
            lower_byte(lane128(w, i))
        }),
{
}

/// The alphanumeric formula, lane by lane: a lane of the result is not zero
/// where the lane of `w` is in use and holds neither a letter nor a digit.
pub(crate) proof fn lemma_alnum128(
    w: u128,
    mask: u128,
    lower: u128,
    alpha: u128,
    numeric: u128,
    x: u128,
    i: u32,
)
    by (bit_vector)
    requires
        w & splat128(0x80) == 0,
        mask == ((w + splat128(0x7f)) as u128) & splat128(0x80),
        lower == w | splat128(0x20),
        alpha == !((lower + splat128(0x1f)) as u128) | ((lower + splat128(0x05)) as u128),
        numeric == !((w + splat128(0x50)) as u128) | ((w + splat128(0x46)) as u128),
        x == alpha & numeric & mask,
        i < 16,
    ensures
        lane128(x, i) != 0 <==> lane128(w, i) != 0 && !alnum_byte(lane128(w, i)),
        x == 0 ==> lane128(x, i) == 0,
{
}

/// A valid word has the high bit of every lane clear, so that adding a mask
/// of bytes below `0x80` to it carries nothing from one lane to the next.
pub(crate) proof fn lemma_valid128(word: u128)
    requires
        valid_word(word),
    ensures
        word & splat128(0x80) == 0,
        word <= splat128(0x7f),
{
    lemma_valid_lanes(word);
    if word & splat128(0x80) != 0 {
        let j = lemma_nonzero_lane(word & splat128(0x80));
        lemma_high_bit128(word, j as u32);
        assert(word.lane(j) >= 0x80);
    }
    lemma_high_bit128(word, 0);
}

/// Ordering by byte reversal: of two valid words, the text of the first
/// comes before the text of the second exactly when the first word, with its
/// bytes reversed, is the smaller number; and the texts are equal exactly
/// when the reversed words are.
pub proof fn lemma_reversed_order128(a: u128, b: u128, ra: u128, rb: u128)
    requires
        valid_word(a),
        valid_word(b),
        lanes_reversed(ra, a),
        lanes_reversed(rb, b),
    ensures
        ra < rb <==> lex_lt(word_text(a), word_text(b)),
        ra == rb <==> word_text(a) == word_text(b),
{
    if word_text(a) == word_text(b) {
        lemma_text_determines_word(a, b);
        u128::lemma_lanes_determine(ra, rb);
    }
    if lex_lt(word_text(a), word_text(b)) {
        lemma_text_before128(a, b, ra, rb);
    }
    if lex_lt(word_text(b), word_text(a)) {
        lemma_text_before128(b, a, rb, ra);
    }
    lemma_lex_total(word_text(a), word_text(b));
}

/// Of two valid words, the one whose text comes first has the smaller
/// reversed word.
proof fn lemma_text_before128(a: u128, b: u128, ra: u128, rb: u128)
    requires
        valid_word(a),
        valid_word(b),
        lanes_reversed(ra, a),
        lanes_reversed(rb, b),
        lex_lt(word_text(a), word_text(b)),
    ensures
        ra < rb,
{
    let s = word_text(a);
    let t = word_text(b);
    let k = choose|k: int| precedes_at(s, t, k);
    lemma_valid_lanes(a);
    lemma_valid_lanes(b);
    assert forall|j: int| 0 <= j < k implies a.lane(j) == b.lane(j) by {
        assert(s[j] == t[j]);
    }
    assert(a.lane(k) < b.lane(k)) by {
        assert(t[k] == b.lane(k) as char);
        if k < s.len() {
            assert(s[k] == a.lane(k) as char);
        }
    }
    let q = (15 - k) as u32;
    assert(lane128(ra, q) < lane128(rb, q)) by {
        assert(ra.lane(q as int) == a.lane(k));
        assert(rb.lane(q as int) == b.lane(k));
    }
    assert forall|i: u32| q + 1 <= i < 16 implies lane128(ra, i) == lane128(rb, i) by {
        assert(ra.lane(i as int) == a.lane(15 - i));
        assert(rb.lane(i as int) == b.lane(15 - i));
    }
    if q < 15 {
        lemma_high_lanes128(ra, rb, (q + 1) as u32);
    }
    lemma_order128(ra, rb, q);
}

} // verus!
