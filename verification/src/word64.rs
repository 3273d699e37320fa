use crate::ascii::{alnum_byte, lower_byte, upper_byte};
use crate::order::{lemma_lex_total, lex_lt, precedes_at};
use crate::word::{
    lanes_reversed, lemma_nonzero_lane, lemma_text_determines_word, lemma_valid_lanes,
    valid_word, word_text, GenMask, Word,
};
use crate::word32::splat32;
use vstd::prelude::*;

verus! {

/// The byte in lane `i` of a 64-bit word.
pub open spec fn lane64(w: u64, i: u32) -> u8 {
    ((w >> (8 * i)) & 0xff) as u8
}

/// The 64-bit word with `byte` in every lane.
pub open spec fn splat64(byte: u8) -> u64 {
    (byte * 0x0101_0101_0101_0101) as u64
}

impl Word for u64 {
    open spec fn capacity() -> nat {
        8
    }

    open spec fn lane(self, i: int) -> u8 {
        lane64(self, i as u32)
    }

    open spec fn splat(byte: u8) -> u64 {
        splat64(byte)
    }

    proof fn lemma_splat_lanes(byte: u8) {
        assert forall|i: int| 0 <= i < 8 implies #[trigger] Self::splat(byte).lane(i) == byte by {
            lemma_splat64(byte, i as u32);
        }
    }

    proof fn lemma_lanes_determine(a: u64, b: u64) {
        assert forall|i: u32| 0 <= i < 8 implies lane64(a, i) == lane64(b, i) by {
            assert(a.lane(i as int) == b.lane(i as int));
        }
        lemma_high_lanes64(a, b, 0);
    }
}

impl GenMask for u64 {
    fn genmask(byte: u8) -> (mask: u64) {
        let mask: u64 = u32::genmask(byte) as u64;
        assert(mask << 32 | mask == splat64(byte)) by (bit_vector)
            requires
                mask == splat32(byte),
        ;
        mask << 32 | mask
    }
}

/// `u64::swap_bytes` reverses the order of the bytes of its argument.
pub assume_specification[ u64::swap_bytes ](x: u64) -> (r: u64)
    ensures
        lanes_reversed(r, x),
;

/// Every lane of `splat64(byte)` is `byte`.
proof fn lemma_splat64(byte: u8, i: u32)
    by (bit_vector)
    requires
        i < 8,
    ensures
        lane64(splat64(byte), i) == byte,
{
}

/// One lane more: words that agree on lane `k` and on all their bits above
/// it agree on all their bits from bit `8 * k` up.
proof fn lemma_high_lanes_step64(a: u64, b: u64, k: u32)
    by (bit_vector)
    requires
        k < 8,
        lane64(a, k) == lane64(b, k),
        k < 7 ==> (a ^ b) >> (8 * (k + 1)) == 0,
    ensures
        (a ^ b) >> (8 * k) == 0,
        k == 0 ==> a == b,
{
}

/// Words that agree on every lane from `k` up agree on all their bits from
/// bit `8 * k` up.
pub(crate) proof fn lemma_high_lanes64(a: u64, b: u64, k: u32)
    requires
        k < 8,
        forall|i: u32| k <= i < 8 ==> lane64(a, i) == lane64(b, i),
    ensures
        (a ^ b) >> (8 * k) == 0,
        k == 0 ==> a == b,
    decreases 8 - k,
{
    if k < 7 {
        lemma_high_lanes64(a, b, (k + 1) as u32);
    }
    lemma_high_lanes_step64(a, b, k);
}

/// Of two words that agree on every lane above `q`, the one with the smaller
/// lane `q` is the smaller number.
pub(crate) proof fn lemma_order64(x: u64, y: u64, q: u32)
    by (bit_vector)
    requires
        q < 8,
        q < 7 ==> (x ^ y) >> (8 * (q + 1)) == 0,
        lane64(x, q) < lane64(y, q),
    ensures
        x < y,
{
}

/// The zero word is empty: every lane of it is zero.
pub(crate) proof fn lemma_empty64(j: u32)
    by (bit_vector)
    requires
        j < 8,
    ensures
        lane64(0, j) == 0,
        0u64 >> (8 * j) == 0,
{
}

/// Putting a byte into the first empty lane of a word: the lanes below keep
/// their bytes and the lanes above stay empty.
pub(crate) proof fn lemma_put64(w: u64, byte: u8, i: u32, j: u32)
    by (bit_vector)
    requires
        i < 8,
        j < 8,
        w >> (8 * i) == 0,
    ensures
        lane64(w | (byte as u64) << (8 * i), j) == (if j < i {
            lane64(w, j)
        } else if j == i {
            byte
        } else {
            0
        }),
        (w | (byte as u64) << (8 * i)) >> (8 * (i + 1)) == 0,
{
}

/// The two mask tests on a word that holds `n` bytes: `mask` marks the high
/// bit of the first `n` lanes.
pub(crate) proof fn lemma_checks64(w: u64, n: u32, mask: u64, j: u32)
    by (bit_vector)
    requires
        1 <= n <= 8,
        j < 8,
        mask == splat64(0x80) >> ((8 * (8 - n)) as u32),
        w >> (8 * n) == 0,
    ensures
        lane64(w & mask, j) != 0 ==> j < n && lane64(w, j) >= 0x80,
        w & mask == 0 ==> w <= mask,
        w & mask == 0 && lane64(((mask - w) as u64) & mask, j) != 0 ==> j < n && lane64(w, j)
            == 0,
        w & mask == 0 && ((mask - w) as u64) & mask == 0 && j < n ==> 1 <= lane64(w, j),
        w & mask == 0 && j < n ==> lane64(w, j) <= 0x7f,
        j >= n ==> lane64(w, j) == 0,
{
}

/// From the number of leading zero bits to the number of bytes in use.
pub(crate) proof fn lemma_len64(w: u64, zeros: u32, j: u32)
    by (bit_vector)
    requires
        zeros <= 64,
        j < 8,
        w >> ((64 - zeros) as u32) == 0,
        zeros < 64 ==> (w >> ((63 - zeros) as u32)) & 1 != 0,
    ensures
        j + 1 == 8 - zeros / 8 ==> lane64(w, j) != 0,
        j >= 8 - zeros / 8 ==> lane64(w, j) == 0,
        w >> ((8 * (8 - zeros / 8)) as u32) == 0,
        w == 0 <==> zeros == 64,
{
}

/// The high bits of the lanes: a lane of `w & 0x80..80` is not zero only
/// where the lane of `w` is `0x80` or more, and a word without them stays
/// below `0x80` in every lane when the bit `0x20` is set in each.
pub(crate) proof fn lemma_high_bit64(w: u64, j: u32)
    by (bit_vector)
    requires
        j < 8,
    ensures
        lane64(w & splat64(0x80), j) != 0 ==> lane64(w, j) >= 0x80,
        w & splat64(0x80) == 0 ==> w <= splat64(0x7f),
        w & splat64(0x80) == 0 ==> w | splat64(0x20) <= splat64(0x7f),
{
}

/// The two masks of the titlecase formula are those of the lowercase
/// formula with one bit less, so they are no larger.
pub(crate) proof fn lemma_title_masks64()
    by (bit_vector)
    ensures
        splat64(0x3f) & !0x20 <= splat64(0x3f),
        splat64(0x25) & !0x20 <= splat64(0x25),
{
}

/// The uppercase formula, lane by lane.
pub(crate) proof fn lemma_upper64(w: u64, r: u64, i: u32)
    by (bit_vector)
    requires
        w & splat64(0x80) == 0,
        r == w & !((((w + splat64(0x1f)) as u64) & !((w + splat64(0x05)) as u64)
            & splat64(0x80)) >> 2),
        i < 8,
    ensures
        lane64(r, i) == upper_byte(lane64(w, i)),
{
}

/// The lowercase formula, lane by lane.
pub(crate) proof fn lemma_lower64(w: u64, r: u64, i: u32)
    by (bit_vector)
    requires
        w & splat64(0x80) == 0,
        r == w | ((((w + splat64(0x3f)) as u64) & !((w + splat64(0x25)) as u64)
            & splat64(0x80)) >> 2),
        i < 8,
    ensures
        lane64(r, i) == lower_byte(lane64(w, i)),
{
}

/// The titlecase formula, lane by lane.
pub(crate) proof fn lemma_title64(w: u64, lo: u64, hi: u64, m: u64, r: u64, i: u32)
    by (bit_vector)
    requires
        w & splat64(0x80) == 0,
        lo == splat64(0x3f) & !0x20,
        hi == splat64(0x25) & !0x20,
        m == (((w + lo) as u64) & !((w + hi) as u64) & splat64(0x80)) >> 2,
        r == (w | m) & !(0x20 & m),
        i < 8,
    ensures
        lane64(r, i) == (if i == 0 {
            upper_byte(lane64(w, i))
        } else {
            lower_byte(lane64(w, i))
        }),
{
}

/// The alphanumeric formula, lane by lane: a lane of the result is not zero
/// where the lane of `w` is in use and holds neither a letter nor a digit.
pub(crate) proof fn lemma_alnum64(
    w: u64,
    mask: u64,
    lower: u64,
    alpha: u64,
    numeric: u64,
    x: u64,
    i: u32,
)
    by (bit_vector)
    requires
        w & splat64(0x80) == 0,
        mask == ((w + splat64(0x7f)) as u64) & splat64(0x80),
        lower == w | splat64(0x20),
        alpha == !((lower + splat64(0x1f)) as u64) | ((lower + splat64(0x05)) as u64),
        numeric == !((w + splat64(0x50)) as u64) | ((w + splat64(0x46)) as u64),
        x == alpha & numeric & mask,
        i < 8,
    ensures
        lane64(x, i) != 0 <==> lane64(w, i) != 0 && !alnum_byte(lane64(w, i)),
        x == 0 ==> lane64(x, i) == 0,
{
}

/// A valid word has the high bit of every lane clear, so that adding a mask
/// of bytes below `0x80` to it carries nothing from one lane to the next.
pub(crate) proof fn lemma_valid64(word: u64)
    requires
        valid_word(word),
    ensures
        word & splat64(0x80) == 0,
        word <= splat64(0x7f),
{
    lemma_valid_lanes(word);
    if word & splat64(0x80) != 0 {
        let j = lemma_nonzero_lane(word & splat64(0x80));
        lemma_high_bit64(word, j as u32);
        assert(word.lane(j) >= 0x80);
    }
    lemma_high_bit64(word, 0);
}

/// Ordering by byte reversal: of two valid words, the text of the first
/// comes before the text of the second exactly when the first word, with its
/// bytes reversed, is the smaller number; and the texts are equal exactly
/// when the reversed words are.
pub proof fn lemma_reversed_order64(a: u64, b: u64, ra: u64, rb: u64)
    requires
        valid_word(a),
        valid_word(b),
        lanes_reversed(ra, a),
        lanes_reversed(rb, b),
    ensures
        ra < rb <==> lex_lt(word_text(a), word_text(b)),
        ra == rb <==> word_text(a) == word_text(b),
{
    if word_text(a) == word_text(b) {
        lemma_text_determines_word(a, b);
        u64::lemma_lanes_determine(ra, rb);
    }
    if lex_lt(word_text(a), word_text(b)) {
        lemma_text_before64(a, b, ra, rb);
    }
    if lex_lt(word_text(b), word_text(a)) {
        lemma_text_before64(b, a, rb, ra);
    }
    lemma_lex_total(word_text(a), word_text(b));
}

/// Of two valid words, the one whose text comes first has the smaller
/// reversed word.
proof fn lemma_text_before64(a: u64, b: u64, ra: u64, rb: u64)
    requires
        valid_word(a),
        valid_word(b),
        lanes_reversed(ra, a),
        lanes_reversed(rb, b),
        lex_lt(word_text(a), word_text(b)),
    ensures
        ra < rb,
{
    let s = word_text(a);
    let t = word_text(b);
    let k = choose|k: int| precedes_at(s, t, k);
    lemma_valid_lanes(a);
    lemma_valid_lanes(b);
    assert forall|j: int| 0 <= j < k implies a.lane(j) == b.lane(j) by {
        assert(s[j] == t[j]);
    }
    assert(a.lane(k) < b.lane(k)) by {
        assert(t[k] == b.lane(k) as char);
        if k < s.len() {
            assert(s[k] == a.lane(k) as char);
        }
    }
    let q = (7 - k) as u32;
    assert(lane64(ra, q) < lane64(rb, q)) by {
        assert(ra.lane(q as int) == a.lane(k));
        assert(rb.lane(q as int) == b.lane(k));
    }
    assert forall|i: u32| q + 1 <= i < 8 implies lane64(ra, i) == lane64(rb, i) by {
        assert(ra.lane(i as int) == a.lane(7 - i));
        assert(rb.lane(i as int) == b.lane(7 - i));
    }
    if q < 7 {
        lemma_high_lanes64(ra, rb, (q + 1) as u32);
    }
    lemma_order64(ra, rb, q);
}

} // verus!
