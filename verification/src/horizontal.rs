//! Horizontal gates: one logic function folded over all bits of a single state.
use vstd::prelude::*;
use crate::bit_width::BitWidth;
use crate::component::{GateKind, negates};
use crate::logic_bit::{
    LogicBitState, and_bit, or_bit, xor_bit, not_bit, is_valid_bit, spec_from_bool, bit_state,
};
use crate::logic_state::LogicState;
use crate::ops::{word_state, state_word_bit, lemma_state_bit, logic_and, logic_or, logic_xor, logic_not};
use crate::word::{bit_of, group_word_bits};
use crate::shift::lemma_bit_shr;

verus! {

broadcast use {group_word_bits, LogicState::lemma_plane_len};

/// Whether the kind folds with AND, OR or XOR
pub open spec fn folds_and(kind: GateKind) -> bool {
    kind == GateKind::And || kind == GateKind::Nand
}

pub open spec fn folds_or(kind: GateKind) -> bool {
    kind == GateKind::Or || kind == GateKind::Nor
}

/// Whether an odd number of the bits at the positions in `s` below `n` are `1`
pub open spec fn parity(bits: Seq<LogicBitState>, s: spec_fn(int) -> bool, n: nat) -> bool
    decreases n,
{
    if n == 0 {
        false
    } else {
        parity(bits, s, (n - 1) as nat) != (s(n - 1) && bits[n - 1] == LogicBitState::Logic1)
    }
}

/// The function of the kind (AND, OR or XOR, before negation) folded over the bits at the
/// positions in `s`: AND is `0` if any bit is `0`, `1` if all are `1`, else undefined; OR is
/// `1` if any bit is `1`, `0` if all are `0`, else undefined; XOR is undefined if any bit is
/// not valid, else whether an odd number of bits is `1`
pub open spec fn reduce_bits(kind: GateKind, bits: Seq<LogicBitState>, s: spec_fn(int) -> bool) -> LogicBitState {
    if folds_and(kind) {
        if exists|p: int| 0 <= p < bits.len() && s(p) && #[trigger] bits[p] == LogicBitState::Logic0 {
            LogicBitState::Logic0
        } else if forall|p: int| 0 <= p < bits.len() && s(p) ==> #[trigger] bits[p] == LogicBitState::Logic1 {
            LogicBitState::Logic1
        } else {
            LogicBitState::Undefined
        }
    } else if folds_or(kind) {
        if exists|p: int| 0 <= p < bits.len() && s(p) && #[trigger] bits[p] == LogicBitState::Logic1 {
            LogicBitState::Logic1
        } else if forall|p: int| 0 <= p < bits.len() && s(p) ==> #[trigger] bits[p] == LogicBitState::Logic0 {
            LogicBitState::Logic0
        } else {
            LogicBitState::Undefined
        }
    } else {
        if exists|p: int| 0 <= p < bits.len() && s(p) && !is_valid_bit(#[trigger] bits[p]) {
            LogicBitState::Undefined
        } else {
            spec_from_bool(parity(bits, s, bits.len()))
        }
    }
}

/// The bit a horizontal gate of the given kind computes from all bits of a state
pub open spec fn horizontal_bit(kind: GateKind, bits: Seq<LogicBitState>) -> LogicBitState {
    let r = reduce_bits(kind, bits, |p: int| true);
    if negates(kind) {
        not_bit(r)
    } else {
        r
    }
}

/// The two-bit function the kind folds with
pub open spec fn fold_bit(kind: GateKind, a: LogicBitState, b: LogicBitState) -> LogicBitState {
    if folds_and(kind) {
        and_bit(a, b)
    } else if folds_or(kind) {
        or_bit(a, b)
    } else {
        xor_bit(a, b)
    }
}

/// Folding the words of two states bit by bit
fn fold_word(kind: GateKind, a: [u32; 2], b: [u32; 2]) -> (r: [u32; 2])
    ensures
        forall|j: u32| j < 32 ==> #[trigger] word_state(r, j) == fold_bit(kind, word_state(a, j), word_state(b, j)),
{
    match kind {
        GateKind::And | GateKind::Nand => logic_and(a, b),
        GateKind::Or | GateKind::Nor => logic_or(a, b),
        GateKind::Xor | GateKind::Xnor => logic_xor(a, b),
    }
}

/// Parity over a union of disjoint position sets is the exclusive or of the parities
proof fn lemma_parity_union(bits: Seq<LogicBitState>, s1: spec_fn(int) -> bool, s2: spec_fn(int) -> bool, n: nat)
    requires
        forall|p: int| !(#[trigger] s1(p) && s2(p)),
    ensures
        parity(bits, |p: int| s1(p) || s2(p), n) == (parity(bits, s1, n) != parity(bits, s2, n)),
    decreases n,
{
    if n > 0 {
        lemma_parity_union(bits, s1, s2, (n - 1) as nat);
    }
}

/// Parity depends only on the positions below `n` that the set holds
proof fn lemma_parity_ext(bits: Seq<LogicBitState>, s1: spec_fn(int) -> bool, s2: spec_fn(int) -> bool, n: nat)
    requires
        forall|p: int| 0 <= p < n ==> #[trigger] s1(p) == s2(p),
    ensures
        parity(bits, s1, n) == parity(bits, s2, n),
    decreases n,
{
    if n > 0 {
        lemma_parity_ext(bits, s1, s2, (n - 1) as nat);
    }
}

/// The fold over a set depends only on the positions of the state that the set holds
proof fn lemma_reduce_ext(kind: GateKind, bits: Seq<LogicBitState>, s1: spec_fn(int) -> bool, s2: spec_fn(int) -> bool)
    requires
        forall|p: int| 0 <= p < bits.len() ==> #[trigger] s1(p) == s2(p),
    ensures
        reduce_bits(kind, bits, s1) == reduce_bits(kind, bits, s2),
{
    lemma_parity_ext(bits, s1, s2, bits.len());
}

/// Folding two disjoint sets and combining the results folds their union
proof fn lemma_reduce_union(kind: GateKind, bits: Seq<LogicBitState>, s1: spec_fn(int) -> bool, s2: spec_fn(int) -> bool)
    requires
        forall|p: int| !(#[trigger] s1(p) && s2(p)),
    ensures
        reduce_bits(kind, bits, |p: int| s1(p) || s2(p)) == fold_bit(
            kind,
            reduce_bits(kind, bits, s1),
            reduce_bits(kind, bits, s2),
        ),
{
    let u = |p: int| s1(p) || s2(p);
    lemma_parity_union(bits, s1, s2, bits.len());
    if folds_and(kind) {
        if exists|p: int| 0 <= p < bits.len() && u(p) && #[trigger] bits[p] == LogicBitState::Logic0 {
            let p = choose|p: int| 0 <= p < bits.len() && u(p) && #[trigger] bits[p] == LogicBitState::Logic0;
            if s1(p) {
                assert(reduce_bits(kind, bits, s1) == LogicBitState::Logic0);
            } else {
                assert(reduce_bits(kind, bits, s2) == LogicBitState::Logic0);
            }
        }
    } else if folds_or(kind) {
        if exists|p: int| 0 <= p < bits.len() && u(p) && #[trigger] bits[p] == LogicBitState::Logic1 {
            let p = choose|p: int| 0 <= p < bits.len() && u(p) && #[trigger] bits[p] == LogicBitState::Logic1;
            if s1(p) {
                assert(reduce_bits(kind, bits, s1) == LogicBitState::Logic1);
            } else {
                assert(reduce_bits(kind, bits, s2) == LogicBitState::Logic1);
            }
        }
    } else {
        if exists|p: int| 0 <= p < bits.len() && u(p) && !is_valid_bit(#[trigger] bits[p]) {
            let p = choose|p: int| 0 <= p < bits.len() && u(p) && !is_valid_bit(#[trigger] bits[p]);
            if s1(p) {
                assert(reduce_bits(kind, bits, s1) == LogicBitState::Undefined);
            } else {
                assert(reduce_bits(kind, bits, s2) == LogicBitState::Undefined);
            }
        }
    }
}

/// Folding a set with one more position combines the fold with that bit
proof fn lemma_reduce_add(kind: GateKind, bits: Seq<LogicBitState>, s: spec_fn(int) -> bool, q: int)
    requires
        !s(q),
        0 <= q < bits.len(),
    ensures
        reduce_bits(kind, bits, |p: int| s(p) || p == q) == fold_bit(
            kind,
            reduce_bits(kind, bits, s),
            bits[q],
        ),
{
    let single = |p: int| p == q;
    lemma_reduce_union(kind, bits, s, single);
    lemma_reduce_ext(kind, bits, |p: int| s(p) || single(p), |p: int| s(p) || p == q);
    assert(parity(bits, single, bits.len()) == (bits[q] == LogicBitState::Logic1)) by {
        lemma_parity_single(bits, q, bits.len());
    }
    if folds_and(kind) {
        if bits[q] != LogicBitState::Logic0 && bits[q] != LogicBitState::Logic1 {
            assert(!(forall|p: int| 0 <= p < bits.len() && single(p) ==> #[trigger] bits[p] == LogicBitState::Logic1));
        }
    } else if folds_or(kind) {
        if bits[q] != LogicBitState::Logic0 && bits[q] != LogicBitState::Logic1 {
            assert(!(forall|p: int| 0 <= p < bits.len() && single(p) ==> #[trigger] bits[p] == LogicBitState::Logic0));
        }
    } else {
        if !is_valid_bit(bits[q]) {
            assert(single(q) && !is_valid_bit(bits[q]));
        }
    }
}

/// The parity of a single position is whether its bit is `1`
proof fn lemma_parity_single(bits: Seq<LogicBitState>, q: int, n: nat)
    requires
        0 <= q,
    ensures
        parity(bits, |p: int| p == q, n) == (q < n && bits[q] == LogicBitState::Logic1),
    decreases n,
{
    if n > 0 {
        lemma_parity_single(bits, q, (n - 1) as nat);
    }
}

/// The fold over no position is the identity of the function
proof fn lemma_reduce_empty(kind: GateKind, bits: Seq<LogicBitState>, s: spec_fn(int) -> bool)
    requires
        forall|p: int| 0 <= p < bits.len() ==> !#[trigger] s(p),
    ensures
        reduce_bits(kind, bits, s) == (if folds_and(kind) {
            LogicBitState::Logic1
        } else {
            LogicBitState::Logic0
        }),
{
    lemma_parity_ext(bits, s, |p: int| false, bits.len());
    lemma_parity_false(bits, bits.len());
}

proof fn lemma_parity_false(bits: Seq<LogicBitState>, n: nat)
    ensures
        !parity(bits, |p: int| false, n),
    decreases n,
{
    if n > 0 {
        lemma_parity_false(bits, (n - 1) as nat);
    }
}

/// A fold never gives high impedance, and the identity keeps it
proof fn lemma_identity(kind: GateKind, bits: Seq<LogicBitState>, s: spec_fn(int) -> bool)
    ensures
        fold_bit(kind, reduce_bits(kind, bits, s), if folds_and(kind) {
            LogicBitState::Logic1
        } else {
            LogicBitState::Logic0
        }) == reduce_bits(kind, bits, s),
{
}

/// Positions that leave `j` or `j + h` modulo `2h` are those that leave `j` modulo `h`
proof fn lemma_mod_halves(p: int, h: int, j: int)
    requires
        h == 16 || h == 8 || h == 4 || h == 2 || h == 1,
        0 <= p,
        0 <= j < h,
    ensures
        (p % (2 * h) == j || p % (2 * h) == j + h) == (p % h == j),
{
    if h == 16 {
        assert((p % 32 == j || p % 32 == j + 16) == (p % 16 == j));
    } else if h == 8 {
        assert((p % 16 == j || p % 16 == j + 8) == (p % 8 == j));
    } else if h == 4 {
        assert((p % 8 == j || p % 8 == j + 4) == (p % 4 == j));
    } else if h == 2 {
        assert((p % 4 == j || p % 4 == j + 2) == (p % 2 == j));
    } else {
        assert((p % 2 == j || p % 2 == j + 1) == (p % 1 == j));
    }
}

/// Combining the folds of the positions that leave `j` and `j + h` modulo `2h`
proof fn lemma_halve(kind: GateKind, bits: Seq<LogicBitState>, h: int, j: int)
    requires
        h == 16 || h == 8 || h == 4 || h == 2 || h == 1,
        0 <= j < h,
    ensures
        fold_bit(
            kind,
            reduce_bits(kind, bits, |p: int| p % (2 * h) == j),
            reduce_bits(kind, bits, |p: int| p % (2 * h) == j + h),
        ) == reduce_bits(kind, bits, |p: int| p % h == j),
{
    let s1 = |p: int| p % (2 * h) == j;
    let s2 = |p: int| p % (2 * h) == j + h;
    lemma_reduce_union(kind, bits, s1, s2);
    assert forall|p: int| 0 <= p < bits.len() implies (#[trigger] s1(p) || s2(p)) == (p % h == j) by {
        lemma_mod_halves(p, h, j);
    }
    lemma_reduce_ext(kind, bits, |p: int| s1(p) || s2(p), |p: int| p % h == j);
}

/// Adding word `i` of the state to the fold of column `j` of the words before it
proof fn lemma_word_step(kind: GateKind, bits: Seq<LogicBitState>, i: int, j: int, x: LogicBitState)
    requires
        0 <= i,
        0 <= j < 32,
        x == (if 32 * i + j < bits.len() {
            bits[32 * i + j]
        } else if folds_and(kind) {
            LogicBitState::Logic1
        } else {
            LogicBitState::Logic0
        }),
    ensures
        fold_bit(kind, reduce_bits(kind, bits, |p: int| p < 32 * i && p % 32 == j), x)
            == reduce_bits(kind, bits, |p: int| p < 32 * (i + 1) && p % 32 == j),
{
    let s = |p: int| p < 32 * i && p % 32 == j;
    let g = 32 * i + j;
    assert forall|p: int| 0 <= p < bits.len() implies (#[trigger] s(p) || p == g) == (p < 32 * (i + 1)
        && p % 32 == j) by {}
    if g < bits.len() {
        lemma_reduce_add(kind, bits, s, g);
        lemma_reduce_ext(kind, bits, |p: int| s(p) || p == g, |p: int| p < 32 * (i + 1) && p % 32 == j);
    } else {
        lemma_identity(kind, bits, s);
        assert forall|p: int| 0 <= p < bits.len() implies #[trigger] s(p) == (p < 32 * (i + 1) && p % 32
            == j) by {}
        lemma_reduce_ext(kind, bits, s, |p: int| p < 32 * (i + 1) && p % 32 == j);
    }
}

/// Folds each bit below `h` with the bit `h` places above it
fn halve(kind: GateKind, result: [u32; 2], h: u32, Ghost(bits): Ghost<Seq<LogicBitState>>) -> (r: [u32; 2])
    requires
        h == 16 || h == 8 || h == 4 || h == 2 || h == 1,
        forall|j: u32| j < 2 * h ==> #[trigger] word_state(result, j) == reduce_bits(
            kind,
            bits,
            |p: int| p % (2 * h) == j,
        ),
    ensures
        forall|j: u32| j < h ==> #[trigger] word_state(r, j) == reduce_bits(kind, bits, |p: int| p % (h as int) == j),
{
    let shifted = [result[0] >> h, result[1] >> h];
    let r = fold_word(kind, result, shifted);
    proof {
        assert forall|j: u32| j < h implies #[trigger] word_state(r, j) == reduce_bits(
            kind,
            bits,
            |p: int| p % (h as int) == j,
        ) by {
            lemma_bit_shr(result[0], h, j);
            lemma_bit_shr(result[1], h, j);
            assert(word_state(shifted, j) == word_state(result, (j + h) as u32));
            assert(word_state(result, (j + h) as u32) == reduce_bits(kind, bits, |p: int| p % (2 * h) == (j + h) as u32));
            lemma_reduce_ext(kind, bits, |p: int| p % (2 * h) == (j + h) as u32, |p: int| p % (2 * (h as int)) == j + h);
            lemma_reduce_ext(kind, bits, |p: int| p % (2 * h) == j, |p: int| p % (2 * (h as int)) == j);
            lemma_halve(kind, bits, h as int, j as int);
        }
    }
    r
}

/// Folds the function of `kind` over all bits of `input`, negating the result for the negating
/// kinds; the result is a word pair that holds the bit in its lowest position and `0` above
pub fn horizontal_op(input: &LogicState, kind: GateKind) -> (r: [u32; 2])
    ensures
        r[0] < 2,
        r[1] < 2,
        word_state(r, 0) == horizontal_bit(kind, input@),
{
    broadcast use BitWidth::lemma_width_range;
    let bit_width = input.bit_width();
    let word_len = bit_width.word_len() as usize;
    let init: u32 = match kind {
        GateKind::And | GateKind::Nand => 0xffff_ffff,
        _ => 0,
    };
    let ghost bits = input@;
    let ghost e = if folds_and(kind) {
        LogicBitState::Logic1
    } else {
        LogicBitState::Logic0
    };
    let mut result: [u32; 2] = [init, 0];
    proof {
        assert forall|j: u32| j < 32 implies #[trigger] word_state(result, j) == reduce_bits(
            kind,
            bits,
            |p: int| p < 32 * 0 && p % 32 == j,
        ) by {
            lemma_reduce_empty(kind, bits, |p: int| p < 32 * 0 && p % 32 == j);
        }
    }
    let mut i: usize = 0;
    while i < word_len
        invariant
            word_len == bit_width.spec_word_len(),
            1 <= word_len <= 8,
            i <= word_len,
            bit_width == input.bit_width(),
            bits == input@,
            init == (if folds_and(kind) { 0xffff_ffffu32 } else { 0u32 }),
            e == (if folds_and(kind) { LogicBitState::Logic1 } else { LogicBitState::Logic0 }),
            forall|j: u32| j < 32 ==> #[trigger] word_state(result, j) == reduce_bits(
                kind,
                bits,
                |p: int| p < 32 * i && p % 32 == j,
            ),
        decreases word_len - i,
    {
        let w = input.get_word(i);
        let x = if i == word_len - 1 {
            let mask = bit_width.last_word_mask();
            [(w[0] & mask) | (init & !mask), w[1] & mask]
        } else {
            w
        };
        let ghost prev = result;
        result = fold_word(kind, result, x);
        proof {
            assert forall|j: u32| j < 32 implies #[trigger] word_state(result, j) == reduce_bits(
                kind,
                bits,
                |p: int| p < 32 * (i + 1) && p % 32 == j,
            ) by {
                let g = 32 * i + j;
                if g < bits.len() {
                    lemma_state_bit(*input, g);
                    assert(g / 32 == i && g % 32 == j);
                }
                assert(word_state(x, j) == if g < bits.len() { bits[g] } else { e });
                lemma_word_step(kind, bits, i as int, j as int, word_state(x, j));
                lemma_reduce_ext(kind, bits, |p: int| p < 32 * i && p % 32 == j, |p: int| p < 32 * (i as int) && p % 32 == (j as int));
                lemma_reduce_ext(kind, bits, |p: int| p < 32 * (i + 1) && p % 32 == j, |p: int| p < 32 * ((i as int) + 1) && p % 32 == (j as int));
            }
        }
        i = i + 1;
    }
    proof {
        assert forall|j: u32| j < 2 * 16 implies #[trigger] word_state(result, j) == reduce_bits(
            kind,
            bits,
            |p: int| p % (2 * 16u32) == j,
        ) by {
            assert(bits.len() <= 32 * word_len);
            lemma_reduce_ext(kind, bits, |p: int| p < 32 * word_len && p % 32 == j, |p: int| p % (2 * 16u32) == j);
        }
    }
    result = halve(kind, result, 16, Ghost(bits));
    result = halve(kind, result, 8, Ghost(bits));
    result = halve(kind, result, 4, Ghost(bits));
    result = halve(kind, result, 2, Ghost(bits));
    result = halve(kind, result, 1, Ghost(bits));
    proof {
        assert(word_state(result, 0) == reduce_bits(kind, bits, |p: int| p % (1u32 as int) == 0u32));
        lemma_reduce_ext(kind, bits, |p: int| p % (1u32 as int) == 0u32, |p: int| true);
    }
    if kind.is_negating() {
        result = logic_not(result);
    }
    let r0 = result[0];
    let r1 = result[1];
    let r = [r0 & 1, r1 & 1];
    proof {
        assert(r0 & 1u32 < 2 && r1 & 1u32 < 2) by (bit_vector);
        assert(bit_of(r0 & 1u32, 0) == bit_of(r0, 0) && bit_of(r1 & 1u32, 0) == bit_of(r1, 0)) by (bit_vector);
        assert(word_state(r, 0) == word_state(result, 0));
    }
    r
}


/// What a horizontal gate computes from valid bits: AND whether all bits are `1`, OR whether
/// any bit is `1`, and NAND and NOR the negations of those
pub proof fn law_horizontal_valid(kind: GateKind, bits: Seq<LogicBitState>)
    requires
        forall|p: int| 0 <= p < bits.len() ==> is_valid_bit(#[trigger] bits[p]),
    ensures
        ({
            let all_one = forall|p: int| 0 <= p < bits.len() ==> #[trigger] bits[p] == LogicBitState::Logic1;
            let any_one = exists|p: int| 0 <= p < bits.len() && #[trigger] bits[p] == LogicBitState::Logic1;
            &&& kind == GateKind::And ==> horizontal_bit(kind, bits) == spec_from_bool(all_one)
            &&& kind == GateKind::Nand ==> horizontal_bit(kind, bits) == spec_from_bool(!all_one)
            &&& kind == GateKind::Or ==> horizontal_bit(kind, bits) == spec_from_bool(any_one)
            &&& kind == GateKind::Nor ==> horizontal_bit(kind, bits) == spec_from_bool(!any_one)
        }),
{
    let all_one = forall|p: int| 0 <= p < bits.len() ==> #[trigger] bits[p] == LogicBitState::Logic1;
    let any_one = exists|p: int| 0 <= p < bits.len() && #[trigger] bits[p] == LogicBitState::Logic1;
    if !all_one {
        let p = choose|p: int| 0 <= p < bits.len() && !(#[trigger] bits[p] == LogicBitState::Logic1);
        assert(bits[p] == LogicBitState::Logic0);
    }
    if !any_one {
        assert forall|p: int| 0 <= p < bits.len() implies #[trigger] bits[p] == LogicBitState::Logic0 by {
            assert(bits[p] != LogicBitState::Logic1);
        }
    }
}

} // verus!
