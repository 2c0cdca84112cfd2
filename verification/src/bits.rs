//! Bitmap words: one bit per slot, bit 0 being the least significant.

use vstd::prelude::*;
use vstd::std_specs::bits::{
    axiom_u64_trailing_ones, axiom_u64_trailing_zeros, u64_trailing_zeros,
};

verus! {

/// Number of bits in a bitmap word, which is the number of slots one word can track.
pub open spec fn width() -> nat {
    usize::BITS as nat
}

/// Whether bit `i` of `word` is set. Positions at or beyond the width hold no bit.
pub open spec fn has_bit(word: usize, i: nat) -> bool {
    i < width() && (word >> (i as usize)) & 1 == 1
}

/// `word` with bit `i` set and every other bit as it was.
pub open spec fn with_bit(word: usize, i: nat) -> usize {
    word | (1usize << (i as usize))
}

/// `word` with bit `i` cleared and every other bit as it was.
pub open spec fn without_bit(word: usize, i: nat) -> usize {
    word & !(1usize << (i as usize))
}

/// The lowest position at or above `i` whose bit is clear, or the width if there is none.
pub open spec fn first_zero_from(word: usize, i: nat) -> nat
    decreases width() - i,
{
    if i >= width() {
        width()
    } else if !has_bit(word, i) {
        i
    } else {
        first_zero_from(word, i + 1)
    }
}

/// The lowest position whose bit is clear, or the width if every bit is set.
pub open spec fn first_zero(word: usize) -> nat {
    first_zero_from(word, 0)
}

/// The lowest position at or above `i` whose bit is set, or the width if there is none.
pub open spec fn first_one_from(word: usize, i: nat) -> nat
    decreases width() - i,
{
    if i >= width() {
        width()
    } else if has_bit(word, i) {
        i
    } else {
        first_one_from(word, i + 1)
    }
}

/// The lowest position whose bit is set, or the width if the word is zero.
pub open spec fn first_one(word: usize) -> nat {
    first_one_from(word, 0)
}

/// The number of set bits among positions below `n`.
pub open spec fn ones_below(word: usize, n: nat) -> nat
    decreases n,
{
    if n == 0 {
        0
    } else {
        ones_below(word, (n - 1) as nat) + if has_bit(word, (n - 1) as nat) {
            1nat
        } else {
            0nat
        }
    }
}

/// The number of set bits of `word`.
pub open spec fn count_ones(word: usize) -> nat {
    ones_below(word, width())
}

/// The positions below `n` whose bit is set, lowest first.
pub open spec fn positions_below(word: usize, n: nat) -> Seq<usize>
    decreases n,
{
    if n == 0 {
        Seq::empty()
    } else if has_bit(word, (n - 1) as nat) {
        positions_below(word, (n - 1) as nat).push((n - 1) as usize)
    } else {
        positions_below(word, (n - 1) as nat)
    }
}

/// The positions of the set bits of `word`, lowest first.
pub open spec fn positions(word: usize) -> Seq<usize> {
    positions_below(word, width())
}

/// Setting bit `i` makes position `i` set and leaves every other position alone.
pub proof fn lemma_with_bit(word: usize, i: nat, j: nat)
    requires
        i < width(),
    ensures
        has_bit(with_bit(word, i), j) == (j == i || has_bit(word, j)),
{
    if j < width() {
        let a: usize = i as usize;
        let b: usize = j as usize;
        assert(((word | (1usize << a)) >> b) & 1 == (if a == b {
            1usize
        } else {
            (word >> b) & 1
        })) by (bit_vector)
            requires
                a < usize::BITS,
                b < usize::BITS,
        ;
    }
}

/// Clearing bit `i` makes position `i` clear and leaves every other position alone.
pub proof fn lemma_without_bit(word: usize, i: nat, j: nat)
    requires
        i < width(),
    ensures
        has_bit(without_bit(word, i), j) == (j != i && has_bit(word, j)),
{
    if j < width() {
        let a: usize = i as usize;
        let b: usize = j as usize;
        assert(((word & !(1usize << a)) >> b) & 1 == (if a == b {
            0usize
        } else {
            (word >> b) & 1
        })) by (bit_vector)
            requires
                a < usize::BITS,
                b < usize::BITS,
        ;
    }
}

/// The zero word has no bit set.
pub proof fn lemma_zero_word(j: nat)
    ensures
        !has_bit(0usize, j),
{
    if j < width() {
        let b: usize = j as usize;
        assert((0usize >> b) & 1 == 0) by (bit_vector);
    }
}

/// What `first_zero_from` finds: a clear bit with only set bits between `i` and it.
pub proof fn lemma_first_zero_from(word: usize, i: nat)
    requires
        i <= width(),
    ensures
        i <= first_zero_from(word, i) <= width(),
        first_zero_from(word, i) < width() ==> !has_bit(word, first_zero_from(word, i)),
        forall|j: nat| i <= j < first_zero_from(word, i) ==> has_bit(word, j),
    decreases width() - i,
{
    if i < width() && has_bit(word, i) {
        lemma_first_zero_from(word, i + 1);
    }
}

/// A position `k` that is clear (or the width) with only set bits between `i` and it
/// is the one that `first_zero_from` finds.
pub proof fn lemma_first_zero_from_unique(word: usize, i: nat, k: nat)
    requires
        i <= k <= width(),
        k < width() ==> !has_bit(word, k),
        forall|j: nat| i <= j < k ==> has_bit(word, j),
    ensures
        first_zero_from(word, i) == k,
    decreases k - i,
{
    if i < k {
        lemma_first_zero_from_unique(word, i + 1, k);
    }
}

/// What `first_zero` finds: the lowest clear bit.
pub proof fn lemma_first_zero(word: usize)
    ensures
        first_zero(word) <= width(),
        first_zero(word) < width() ==> !has_bit(word, first_zero(word)),
        forall|j: nat| j < first_zero(word) ==> has_bit(word, j),
{
    lemma_first_zero_from(word, 0);
}

/// What `first_one_from` finds: a set bit with only clear bits between `i` and it.
pub proof fn lemma_first_one_from(word: usize, i: nat)
    requires
        i <= width(),
    ensures
        i <= first_one_from(word, i) <= width(),
        first_one_from(word, i) < width() ==> has_bit(word, first_one_from(word, i)),
        forall|j: nat| i <= j < first_one_from(word, i) ==> !has_bit(word, j),
    decreases width() - i,
{
    if i < width() && !has_bit(word, i) {
        lemma_first_one_from(word, i + 1);
    }
}

/// A position `k` that is set (or the width) with only clear bits between `i` and it
/// is the one that `first_one_from` finds.
pub proof fn lemma_first_one_from_unique(word: usize, i: nat, k: nat)
    requires
        i <= k <= width(),
        k < width() ==> has_bit(word, k),
        forall|j: nat| i <= j < k ==> !has_bit(word, j),
    ensures
        first_one_from(word, i) == k,
    decreases k - i,
{
    if i < k {
        lemma_first_one_from_unique(word, i + 1, k);
    }
}

/// What `first_one` finds: the lowest set bit.
pub proof fn lemma_first_one(word: usize)
    ensures
        first_one(word) <= width(),
        first_one(word) < width() ==> has_bit(word, first_one(word)),
        forall|j: nat| j < first_one(word) ==> !has_bit(word, j),
{
    lemma_first_one_from(word, 0);
}

/// A bit of a word read through its 64-bit widening is the bit of the word itself,
/// and the widening has no bit at or beyond the width.
proof fn lemma_widened_bit(word: usize, j: u64)
    requires
        j < 64,
    ensures
        ((word as u64) >> j) & 1 == 1 <==> has_bit(word, j as nat),
{
    let wide: u64 = word as u64;
    if j >= usize::BITS {
        assert((wide >> j) & 1 == 0) by (bit_vector)
            requires
                wide <= 0xffff_ffffu64,
                32 <= j < 64,
        ;
    }
}

/// Only the zero word has no set bit to find.
pub proof fn lemma_first_one_none(word: usize)
    ensures
        first_one(word) == width() <==> word == 0,
{
    lemma_first_one(word);
    if word == 0 {
        assert forall|j: nat| j < width() implies !has_bit(word, j) by {
            lemma_zero_word(j);
        }
    } else {
        let wide: u64 = word as u64;
        axiom_u64_trailing_zeros(wide);
        let k = u64_trailing_zeros(wide);
        lemma_widened_bit(word, k as u64);
    }
}

/// Two words with the same bits are the same word.
pub proof fn lemma_same_bits(a: usize, b: usize)
    requires
        forall|j: nat| j < width() ==> has_bit(a, j) == has_bit(b, j),
    ensures
        a == b,
{
    let differ: usize = a ^ b;
    assert forall|j: nat| j < width() implies !has_bit(differ, j) by {
        let i: usize = j as usize;
        assert(((a ^ b) >> i) & 1 == 1 <==> ((a >> i) & 1 == 1) != ((b >> i) & 1 == 1))
            by (bit_vector)
            requires
                i < usize::BITS,
        ;
        assert(has_bit(a, j) == has_bit(b, j));
    }
    lemma_first_one(differ);
    lemma_first_one_none(differ);
    assert(a == b) by (bit_vector)
        requires
            a ^ b == 0,
    ;
}

/// Clearing a bit that was just set in a word where it was clear gives the word back.
pub proof fn lemma_set_then_clear(word: usize, i: nat)
    requires
        i < width(),
        !has_bit(word, i),
    ensures
        without_bit(with_bit(word, i), i) == word,
{
    let a: usize = i as usize;
    assert(((word >> a) & 1 == 0) || ((word >> a) & 1 == 1)) by (bit_vector);
    assert((word | (1usize << a)) & !(1usize << a) == word) by (bit_vector)
        requires
            a < usize::BITS,
            (word >> a) & 1 == 0,
    ;
}

/// Clearing a set bit makes the word smaller.
pub proof fn lemma_clear_decreases(word: usize, i: nat)
    requires
        has_bit(word, i),
    ensures
        without_bit(word, i) < word,
{
    let a: usize = i as usize;
    assert(word & !(1usize << a) < word) by (bit_vector)
        requires
            a < usize::BITS,
            (word >> a) & 1 == 1,
    ;
}

/// Setting a clear bit below `n` adds one to the count of set bits below `n`;
/// any other setting leaves the count alone.
pub proof fn lemma_ones_with_bit(word: usize, i: nat, n: nat)
    requires
        i < width(),
    ensures
        ones_below(with_bit(word, i), n) == ones_below(word, n) + if i < n && !has_bit(word, i) {
            1nat
        } else {
            0nat
        },
    decreases n,
{
    if n > 0 {
        lemma_ones_with_bit(word, i, (n - 1) as nat);
        lemma_with_bit(word, i, (n - 1) as nat);
    }
}

/// Clearing a set bit below `n` takes one from the count of set bits below `n`;
/// any other clearing leaves the count alone.
pub proof fn lemma_ones_without_bit(word: usize, i: nat, n: nat)
    requires
        i < width(),
    ensures
        ones_below(without_bit(word, i), n) + if i < n && has_bit(word, i) {
            1nat
        } else {
            0nat
        } == ones_below(word, n),
    decreases n,
{
    if n > 0 {
        lemma_ones_without_bit(word, i, (n - 1) as nat);
        lemma_without_bit(word, i, (n - 1) as nat);
    }
}

/// There are at most `n` set bits below `n`, and exactly `n` when all of them are set.
pub proof fn lemma_ones_all(word: usize, n: nat)
    ensures
        ones_below(word, n) <= n,
        ones_below(word, n) == n <==> (forall|j: nat| j < n ==> has_bit(word, j)),
    decreases n,
{
    if n > 0 {
        lemma_ones_all(word, (n - 1) as nat);
    }
}

/// The positions below `n` are as many as the set bits below `n`; each is below
/// `n` and has its bit set, and they stand in rising order.
pub proof fn lemma_positions(word: usize, n: nat)
    requires
        n <= width(),
    ensures
        positions_below(word, n).len() == ones_below(word, n),
        forall|k: int|
            0 <= k < positions_below(word, n).len() ==> (#[trigger] positions_below(word, n)[k])
                < n && has_bit(word, positions_below(word, n)[k] as nat),
        forall|a: int, b: int|
            0 <= a < b < positions_below(word, n).len() ==> positions_below(word, n)[a]
                < positions_below(word, n)[b],
    decreases n,
{
    if n > 0 {
        lemma_positions(word, (n - 1) as nat);
    }
}

/// Where no bit is set from `from` up to `to`, no position is found there.
pub proof fn lemma_positions_skip(word: usize, from: nat, to: nat)
    requires
        from <= to <= width(),
        forall|j: nat| from <= j < to ==> !has_bit(word, j),
    ensures
        positions_below(word, to) == positions_below(word, from),
    decreases to - from,
{
    if from < to {
        lemma_positions_skip(word, from, (to - 1) as nat);
    }
}

/// A word has no clear bit exactly when as many bits are set as the width.
pub proof fn lemma_first_zero_none(word: usize)
    ensures
        first_zero(word) == width() <==> count_ones(word) == width(),
{
    lemma_first_zero(word);
    lemma_ones_all(word, width());
}

/// The number of bits in a bitmap word.
pub fn capacity() -> (n: usize)
    ensures
        n == width(),
{
    usize::BITS as usize
}

/// Finds the lowest clear bit of `word`; the result is the width if every bit is set.
pub fn find_first_zero(word: usize) -> (k: usize)
    ensures
        k == first_zero(word),
{
    let wide: u64 = word as u64;
    let k: u32 = wide.trailing_ones();
    proof {
        axiom_u64_trailing_ones(wide);
        assert forall|j: nat| j < k && j < 64 implies has_bit(word, j) by {
            lemma_widened_bit(word, j as u64);
        }
        if k > width() {
            assert(has_bit(word, width()));
        }
        lemma_first_zero_from_unique(word, 0, k as nat);
    }
    k as usize
}

/// Finds the lowest set bit of `word`; the result is the width if the word is zero.
pub fn find_first_one(word: usize) -> (k: usize)
    ensures
        k == first_one(word),
{
    if word == 0 {
        proof {
            assert forall|j: nat| j < width() implies !has_bit(word, j) by {
                lemma_zero_word(j);
            }
            lemma_first_one_from_unique(word, 0, width());
        }
        return capacity();
    }
    let wide: u64 = word as u64;
    let k: u32 = wide.trailing_zeros();
    proof {
        axiom_u64_trailing_zeros(wide);
        assert forall|j: nat| j < k implies !has_bit(word, j) by {
            assert((wide >> (j as u64)) & 1u64 == 0u64);
        }
        lemma_widened_bit(word, k as u64);
        lemma_first_one_from_unique(word, 0, k as nat);
    }
    k as usize
}

/// Sets bit `i` of `word`.
pub fn set_bit(word: usize, i: usize) -> (r: usize)
    requires
        i < width(),
    ensures
        r == with_bit(word, i as nat),
{
    word | (1usize << i)
}

/// Clears bit `i` of `word`.
pub fn clear_bit(word: usize, i: usize) -> (r: usize)
    requires
        i < width(),
    ensures
        r == without_bit(word, i as nat),
{
    word & !(1usize << i)
}

} // verus!
