//! Bit-level facts about 32-bit words, used by every bit-plane algorithm.
use vstd::prelude::*;

verus! {

/// Bit `j` (counted from the least significant bit) of `w`
pub open spec fn bit_of(w: u32, j: u32) -> bool {
    (w >> j) & 1u32 == 1u32
}

/// Bit `i` of a sequence of words, least significant word first
pub open spec fn plane_bit(plane: Seq<u32>, i: int) -> bool {
    bit_of(plane[i / 32], (i % 32) as u32)
}

pub broadcast proof fn lemma_bit_and(x: u32, y: u32, j: u32)
    requires
        j < 32,
    ensures
        #[trigger] bit_of(x & y, j) == (bit_of(x, j) && bit_of(y, j)),
{
    assert(((x & y) >> j) & 1u32 == 1u32 <==> ((x >> j) & 1u32 == 1u32 && (y >> j) & 1u32 == 1u32))
        by (bit_vector)
        requires
            j < 32,
    ;
}

pub broadcast proof fn lemma_bit_or(x: u32, y: u32, j: u32)
    requires
        j < 32,
    ensures
        #[trigger] bit_of(x | y, j) == (bit_of(x, j) || bit_of(y, j)),
{
    assert(((x | y) >> j) & 1u32 == 1u32 <==> ((x >> j) & 1u32 == 1u32 || (y >> j) & 1u32 == 1u32))
        by (bit_vector)
        requires
            j < 32,
    ;
}

pub broadcast proof fn lemma_bit_xor(x: u32, y: u32, j: u32)
    requires
        j < 32,
    ensures
        #[trigger] bit_of(x ^ y, j) == (bit_of(x, j) != bit_of(y, j)),
{
    assert(((x ^ y) >> j) & 1u32 == 1u32 <==> ((x >> j) & 1u32 == 1u32) != ((y >> j) & 1u32
        == 1u32)) by (bit_vector)
        requires
            j < 32,
    ;
}

pub broadcast proof fn lemma_bit_not(x: u32, j: u32)
    requires
        j < 32,
    ensures
        #[trigger] bit_of(!x, j) == !bit_of(x, j),
{
    assert(((!x) >> j) & 1u32 == 1u32 <==> !((x >> j) & 1u32 == 1u32)) by (bit_vector)
        requires
            j < 32,
    ;
}

pub broadcast proof fn lemma_bit_zero(j: u32)
    requires
        j < 32,
    ensures
        !#[trigger] bit_of(0u32, j),
{
    assert((0u32 >> j) & 1u32 != 1u32) by (bit_vector);
}

pub broadcast proof fn lemma_bit_max(j: u32)
    requires
        j < 32,
    ensures
        #[trigger] bit_of(0xffff_ffffu32, j),
{
    assert((0xffff_ffffu32 >> j) & 1u32 == 1u32) by (bit_vector)
        requires
            j < 32,
    ;
}

pub broadcast group group_word_bits {
    lemma_bit_and,
    lemma_bit_or,
    lemma_bit_xor,
    lemma_bit_not,
    lemma_bit_zero,
    lemma_bit_max,
}

/// Two words are equal when all their bits are
pub proof fn lemma_word_ext(x: u32, y: u32)
    requires
        forall|j: u32| j < 32 ==> bit_of(x, j) == bit_of(y, j),
    ensures
        x == y,
{
    assert forall|j: u32| j < 32 implies (x >> j) & 1u32 == (y >> j) & 1u32 by {
        assert(bit_of(x, j) == bit_of(y, j));
        assert((x >> j) & 1u32 == 1u32 || (x >> j) & 1u32 == 0u32) by (bit_vector);
        assert((y >> j) & 1u32 == 1u32 || (y >> j) & 1u32 == 0u32) by (bit_vector);
    }
    lemma_word_ext_bits(x, y);
}

proof fn lemma_word_ext_bits(x: u32, y: u32)
    by (bit_vector)
    requires
            (x >> 0u32) & 1u32 == (y >> 0u32) & 1u32,
            (x >> 1u32) & 1u32 == (y >> 1u32) & 1u32,
            (x >> 2u32) & 1u32 == (y >> 2u32) & 1u32,
            (x >> 3u32) & 1u32 == (y >> 3u32) & 1u32,
            (x >> 4u32) & 1u32 == (y >> 4u32) & 1u32,
            (x >> 5u32) & 1u32 == (y >> 5u32) & 1u32,
            (x >> 6u32) & 1u32 == (y >> 6u32) & 1u32,
            (x >> 7u32) & 1u32 == (y >> 7u32) & 1u32,
            (x >> 8u32) & 1u32 == (y >> 8u32) & 1u32,
            (x >> 9u32) & 1u32 == (y >> 9u32) & 1u32,
            (x >> 10u32) & 1u32 == (y >> 10u32) & 1u32,
            (x >> 11u32) & 1u32 == (y >> 11u32) & 1u32,
            (x >> 12u32) & 1u32 == (y >> 12u32) & 1u32,
            (x >> 13u32) & 1u32 == (y >> 13u32) & 1u32,
            (x >> 14u32) & 1u32 == (y >> 14u32) & 1u32,
            (x >> 15u32) & 1u32 == (y >> 15u32) & 1u32,
            (x >> 16u32) & 1u32 == (y >> 16u32) & 1u32,
            (x >> 17u32) & 1u32 == (y >> 17u32) & 1u32,
            (x >> 18u32) & 1u32 == (y >> 18u32) & 1u32,
            (x >> 19u32) & 1u32 == (y >> 19u32) & 1u32,
            (x >> 20u32) & 1u32 == (y >> 20u32) & 1u32,
            (x >> 21u32) & 1u32 == (y >> 21u32) & 1u32,
            (x >> 22u32) & 1u32 == (y >> 22u32) & 1u32,
            (x >> 23u32) & 1u32 == (y >> 23u32) & 1u32,
            (x >> 24u32) & 1u32 == (y >> 24u32) & 1u32,
            (x >> 25u32) & 1u32 == (y >> 25u32) & 1u32,
            (x >> 26u32) & 1u32 == (y >> 26u32) & 1u32,
            (x >> 27u32) & 1u32 == (y >> 27u32) & 1u32,
            (x >> 28u32) & 1u32 == (y >> 28u32) & 1u32,
            (x >> 29u32) & 1u32 == (y >> 29u32) & 1u32,
            (x >> 30u32) & 1u32 == (y >> 30u32) & 1u32,
            (x >> 31u32) & 1u32 == (y >> 31u32) & 1u32,
    ensures
        x == y,
{
}


/// Two different words differ in some bit
pub proof fn lemma_words_differ(x: u32, y: u32)
    requires
        x != y,
    ensures
        exists|j: u32| j < 32 && bit_of(x, j) != bit_of(y, j),
{
    if forall|j: u32| j < 32 ==> bit_of(x, j) == bit_of(y, j) {
        lemma_word_ext(x, y);
    }
}

/// Setting bit `k` of `w` to `x`, when it was clear
pub proof fn lemma_bit_set(w: u32, x: u32, k: u32, j: u32)
    requires
        x < 2,
        k < 32,
        j < 32,
    ensures
        bit_of(w | (x << k), j) == (bit_of(w, j) || (j == k && x == 1)),
{
    assert(((w | (x << k)) >> j) & 1u32 == 1u32 <==> ((w >> j) & 1u32 == 1u32 || (j == k && x
        == 1u32))) by (bit_vector)
        requires
            x < 2,
            k < 32,
            j < 32,
    ;
}

/// Bit `i` of a 64-bit number
pub open spec fn u64_bit(v: u64, i: int) -> bool {
    (v >> (i as u64)) & 1u64 == 1u64
}

/// The low and high halves of a 64-bit number hold its bits
pub proof fn lemma_u64_halves(v: u64, j: u32)
    requires
        j < 32,
    ensures
        bit_of(v as u32, j) == u64_bit(v, j as int),
        bit_of((v >> 32u64) as u32, j) == u64_bit(v, j + 32),
{
    let jj = j as u64;
    assert(((v as u32) >> j) & 1u32 == 1u32 <==> (v >> jj) & 1u64 == 1u64) by (bit_vector)
        requires
            j < 32,
            jj == j,
    ;
    assert((((v >> 32u64) as u32) >> j) & 1u32 == 1u32 <==> (v >> (jj + 32)) & 1u64 == 1u64)
        by (bit_vector)
        requires
            j < 32,
            jj == j,
    ;
}

} // verus!
