use crate::ascii::{alnum_byte, lower_byte, upper_byte};
use crate::order::{lemma_lex_total, lex_lt, precedes_at};
use crate::word::{
    lanes_reversed, lemma_nonzero_lane, lemma_text_determines_word, lemma_valid_lanes,
    valid_word, word_text, GenMask, Word,
};
use vstd::prelude::*;

verus! {

/// The byte in lane `i` of a 32-bit word.
pub open spec fn lane32(w: u32, i: u32) -> u8 {
    ((w >> (8 * i)) & 0xff) as u8
}

/// The 32-bit word with `byte` in every lane.
pub open spec fn splat32(byte: u8) -> u32 {
    (byte * 0x0101_0101) as u32
}

impl Word for u32 {
    open spec fn capacity() -> nat {
        4
    }

    open spec fn lane(self, i: int) -> u8 {
        lane32(self, i as u32)
    }

    open spec fn splat(byte: u8) -> u32 {
        splat32(byte)
    }

    proof fn lemma_splat_lanes(byte: u8) {
        assert forall|i: int| 0 <= i < 4 implies #[trigger] Self::splat(byte).lane(i) == byte by {
            lemma_splat32(byte, i as u32);
        }
    }

    proof fn lemma_lanes_determine(a: u32, b: u32) {
        assert forall|i: u32| 0 <= i < 4 implies lane32(a, i) == lane32(b, i) by {
            assert(a.lane(i as int) == b.lane(i as int));
        }
        lemma_high_lanes32(a, b, 0);
    }
}

impl GenMask for u32 {
    fn genmask(byte: u8) -> (mask: u32) {
        let mask: u32 = byte as u32;
        assert(mask << 24 | mask << 16 | mask << 8 | mask == splat32(byte)) by (bit_vector)
            requires
                mask == byte,
        ;
        mask << 24 | mask << 16 | mask << 8 | mask
    }
}

/// `u32::swap_bytes` reverses the order of the bytes of its argument.
pub assume_specification[ u32::swap_bytes ](x: u32) -> (r: u32)
    ensures
        lanes_reversed(r, x),
;

/// Every lane of `splat32(byte)` is `byte`.
proof fn lemma_splat32(byte: u8, i: u32)
    by (bit_vector)
    requires
        i < 4,
    ensures
        lane32(splat32(byte), i) == byte,
{
}

/// One lane more: words that agree on lane `k` and on all their bits above
/// it agree on all their bits from bit `8 * k` up.
proof fn lemma_high_lanes_step32(a: u32, b: u32, k: u32)
    by (bit_vector)
    requires
        k < 4,
        lane32(a, k) == lane32(b, k),
        k < 3 ==> (a ^ b) >> (8 * (k + 1)) == 0,
    ensures
        (a ^ b) >> (8 * k) == 0,
        k == 0 ==> a == b,
{
}

/// Words that agree on every lane from `k` up agree on all their bits from
/// bit `8 * k` up.
pub(crate) proof fn lemma_high_lanes32(a: u32, b: u32, k: u32)
    requires
        k < 4,
        forall|i: u32| k <= i < 4 ==> lane32(a, i) == lane32(b, i),
    ensures
        (a ^ b) >> (8 * k) == 0,
        k == 0 ==> a == b,
    decreases 4 - k,
{
    if k < 3 {
        lemma_high_lanes32(a, b, (k + 1) as u32);
    }
    lemma_high_lanes_step32(a, b, k);
}

/// Of two words that agree on every lane above `q`, the one with the smaller
/// lane `q` is the smaller number.
pub(crate) proof fn lemma_order32(x: u32, y: u32, q: u32)
    by (bit_vector)
    requires
        q < 4,
        q < 3 ==> (x ^ y) >> (8 * (q + 1)) == 0,
        lane32(x, q) < lane32(y, q),
    ensures
        x < y,
{
}

/// The zero word is empty: every lane of it is zero.
pub(crate) proof fn lemma_empty32(j: u32)
    by (bit_vector)
    requires
        j < 4,
    ensures
        lane32(0, j) == 0,
        0u32 >> (8 * j) == 0,
{
}

/// Putting a byte into the first empty lane of a word: the lanes below keep
/// their bytes and the lanes above stay empty.
pub(crate) proof fn lemma_put32(w: u32, byte: u8, i: u32, j: u32)
    by (bit_vector)
    requires
        i < 4,
        j < 4,
        w >> (8 * i) == 0,
    ensures
        lane32(w | (byte as u32) << (8 * i), j) == (if j < i {
            lane32(w, j)
        } else if j == i {
            byte
        } else {
            0
        }),
        (w | (byte as u32) << (8 * i)) >> (8 * (i + 1)) == 0,
{
}

/// The two mask tests on a word that holds `n` bytes: `mask` marks the high
/// bit of the first `n` lanes.
pub(crate) proof fn lemma_checks32(w: u32, n: u32, mask: u32, j: u32)
    by (bit_vector)
    requires
        1 <= n <= 4,
        j < 4,
        mask == splat32(0x80) >> ((8 * (4 - n)) as u32),
        w >> (8 * n) == 0,
    ensures
        lane32(w & mask, j) != 0 ==> j < n && lane32(w, j) >= 0x80,
        w & mask == 0 ==> w <= mask,
        w & mask == 0 && lane32(((mask - w) as u32) & mask, j) != 0 ==> j < n && lane32(w, j)
            == 0,
        w & mask == 0 && ((mask - w) as u32) & mask == 0 && j < n ==> 1 <= lane32(w, j),
        w & mask == 0 && j < n ==> lane32(w, j) <= 0x7f,
        j >= n ==> lane32(w, j) == 0,
{
}

/// From the number of leading zero bits to the number of bytes in use.
pub(crate) proof fn lemma_len32(w: u32, zeros: u32, j: u32)
    by (bit_vector)
    requires
        zeros <= 32,
        j < 4,
        w >> ((32 - zeros) as u32) == 0,
        zeros < 32 ==> (w >> ((31 - zeros) as u32)) & 1 != 0,
    ensures
        j + 1 == 4 - zeros / 8 ==> lane32(w, j) != 0,
        j >= 4 - zeros / 8 ==> lane32(w, j) == 0,
        w >> ((8 * (4 - zeros / 8)) as u32) == 0,
        w == 0 <==> zeros == 32,
{
}

/// The high bits of the lanes: a lane of `w & 0x80..80` is not zero only
/// where the lane of `w` is `0x80` or more, and a word without them stays
/// below `0x80` in every lane when the bit `0x20` is set in each.
pub(crate) proof fn lemma_high_bit32(w: u32, j: u32)
    by (bit_vector)
    requires
        j < 4,
    ensures
        lane32(w & splat32(0x80), j) != 0 ==> lane32(w, j) >= 0x80,
        w & splat32(0x80) == 0 ==> w <= splat32(0x7f),
        w & splat32(0x80) == 0 ==> w | splat32(0x20) <= splat32(0x7f),
{
}

/// The two masks of the titlecase formula are those of the lowercase
/// formula with one bit less, so they are no larger.
pub(crate) proof fn lemma_title_masks32()
    by (bit_vector)
    ensures
        splat32(0x3f) & !0x20 <= splat32(0x3f),
        splat32(0x25) & !0x20 <= splat32(0x25),
{
}

/// The uppercase formula, lane by lane.
pub(crate) proof fn lemma_upper32(w: u32, r: u32, i: u32)
    by (bit_vector)
    requires
        w & splat32(0x80) == 0,
        r == w & !((((w + splat32(0x1f)) as u32) & !((w + splat32(0x05)) as u32)
            & splat32(0x80)) >> 2),
        i < 4,
    ensures
        lane32(r, i) == upper_byte(lane32(w, i)),
{
}

/// The lowercase formula, lane by lane.
pub(crate) proof fn lemma_lower32(w: u32, r: u32, i: u32)
    by (bit_vector)
    requires
        w & splat32(0x80) == 0,
        r == w | ((((w + splat32(0x3f)) as u32) & !((w + splat32(0x25)) as u32)
            & splat32(0x80)) >> 2),
        i < 4,
    ensures
        lane32(r, i) == lower_byte(lane32(w, i)),
{
}

/// The titlecase formula, lane by lane.
pub(crate) proof fn lemma_title32(w: u32, lo: u32, hi: u32, m: u32, r: u32, i: u32)
    by (bit_vector)
    requires
        w & splat32(0x80) == 0,
        lo == splat32(0x3f) & !0x20,
        hi == splat32(0x25) & !0x20,
        m == (((w + lo) as u32) & !((w + hi) as u32) & splat32(0x80)) >> 2,
        r == (w | m) & !(0x20 & m),
        i < 4,
    ensures
        lane32(r, i) == (if i == 0 {
            upper_byte(lane32(w, i))
        } else {
            lower_byte(lane32(w, i))
        }),
{
}

/// The alphanumeric formula, lane by lane: a lane of the result is not zero
/// where the lane of `w` is in use and holds neither a letter nor a digit.
pub(crate) proof fn lemma_alnum32(
    w: u32,
    mask: u32,
    lower: u32,
    alpha: u32,
    numeric: u32,
    x: u32,
    i: u32,
)
    by (bit_vector)
    requires
        w & splat32(0x80) == 0,
        mask == ((w + splat32(0x7f)) as u32) & splat32(0x80),
        lower == w | splat32(0x20),
        alpha == !((lower + splat32(0x1f)) as u32) | ((lower + splat32(0x05)) as u32),
        numeric == !((w + splat32(0x50)) as u32) | ((w + splat32(0x46)) as u32),
        x == alpha & numeric & mask,
        i < 4,
    ensures
        lane32(x, i) != 0 <==> lane32(w, i) != 0 && !alnum_byte(lane32(w, i)),
        x == 0 ==> lane32(x, i) == 0,
{
}

/// A valid word has the high bit of every lane clear, so that adding a mask
/// of bytes below `0x80` to it carries nothing from one lane to the next.
pub(crate) proof fn lemma_valid32(word: u32)
    requires
        valid_word(word),
    ensures
        word & splat32(0x80) == 0,
        word <= splat32(0x7f),
{
    lemma_valid_lanes(word);
    if word & splat32(0x80) != 0 {
        let j = lemma_nonzero_lane(word & splat32(0x80));
        lemma_high_bit32(word, j as u32);
        assert(word.lane(j) >= 0x80);
    }
    lemma_high_bit32(word, 0);
}

/// Ordering by byte reversal: of two valid words, the text of the first
/// comes before the text of the second exactly when the first word, with its
/// bytes reversed, is the smaller number; and the texts are equal exactly
/// when the reversed words are.
pub proof fn lemma_reversed_order32(a: u32, b: u32, ra: u32, rb: u32)
    requires
        valid_word(a),
        valid_word(b),
        lanes_reversed(ra, a),
        lanes_reversed(rb, b),
    ensures
        ra < rb <==> lex_lt(word_text(a), word_text(b)),
        ra == rb <==> word_text(a) == word_text(b),
{
    if word_text(a) == word_text(b) {
        lemma_text_determines_word(a, b);
        u32::lemma_lanes_determine(ra, rb);
    }
    if lex_lt(word_text(a), word_text(b)) {
        lemma_text_before32(a, b, ra, rb);
    }
    if lex_lt(word_text(b), word_text(a)) {
        lemma_text_before32(b, a, rb, ra);
    }
    lemma_lex_total(word_text(a), word_text(b));
}

/// Of two valid words, the one whose text comes first has the smaller
/// reversed word.
proof fn lemma_text_before32(a: u32, b: u32, ra: u32, rb: u32)
    requires
        valid_word(a),
        valid_word(b),
        lanes_reversed(ra, a),
        lanes_reversed(rb, b),
        lex_lt(word_text(a), word_text(b)),
    ensures
        ra < rb,
{
    let s = word_text(a);
    let t = word_text(b);
    let k = choose|k: int| precedes_at(s, t, k);
    lemma_valid_lanes(a);
    lemma_valid_lanes(b);
    assert forall|j: int| 0 <= j < k implies a.lane(j) == b.lane(j) by {
        assert(s[j] == t[j]);
    }
    assert(a.lane(k) < b.lane(k)) by {
        assert(t[k] == b.lane(k) as char);
        if k < s.len() {
            assert(s[k] == a.lane(k) as char);
        }
    }
    let q = (3 - k) as u32;
    assert(lane32(ra, q) < lane32(rb, q)) by {
        assert(ra.lane(q as int) == a.lane(k));
        assert(rb.lane(q as int) == b.lane(k));
    }
    assert forall|i: u32| q + 1 <= i < 4 implies lane32(ra, i) == lane32(rb, i) by {
        assert(ra.lane(i as int) == a.lane(3 - i));
        assert(rb.lane(i as int) == b.lane(3 - i));
    }
    if q < 3 {
        lemma_high_lanes32(ra, rb, (q + 1) as u32);
    }
    lemma_order32(ra, rb, q);
}

} // verus!
