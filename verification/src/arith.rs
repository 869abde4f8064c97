//! What the adder and the subtractor compute on valid inputs, as numbers.
use vstd::prelude::*;
use vstd::std_specs::bits::u32_trailing_zeros;
use crate::logic_bit::LogicBitState;
use crate::logic_state::LogicState;
use crate::ops::{carry_into, carried_word, spec_add_word};
use crate::component::{add_word_fn, sub_word_fn, ComponentOp, op_eval, wire_state, carried_view};
use crate::id::WireStateId;
use crate::bit_width::BitWidth;
use crate::logic_bit::spec_from_bool;
use crate::word::plane_bit;
use crate::mul::{mul_value, mul_word, mul_product, first_invalid};
use crate::mul::{word_base, words_value};

verus! {

broadcast use LogicState::lemma_plane_len;

/// Whether no word of plane 1 of the state, up to its word length, has a bit set: every bit
/// of it, and every bit beyond its width in those words, is a valid `0` or `1`
pub open spec fn all_valid(s: LogicState) -> bool {
    forall|k: int| 0 <= k < s.bit_width().spec_word_len() ==> #[trigger] s.spec_plane_1()[k] == 0
}

/// `1` for a set carry, `0` otherwise
pub open spec fn carry_value(c: LogicBitState) -> int {
    if c == LogicBitState::Logic1 {
        1
    } else {
        0
    }
}

/// The plane-0 words of a word-by-word carrying operation, `n` of them
pub open spec fn carried_words(
    a: LogicState,
    b: LogicState,
    carry_in: LogicBitState,
    g: spec_fn([u32; 2], [u32; 2], LogicBitState) -> ([u32; 2], LogicBitState),
    n: nat,
) -> Seq<u32> {
    Seq::new(n, |k: int| carried_word(a, b, carry_in, g, k as nat)[0])
}

/// The complement of each of the first `n` words of a plane
pub open spec fn complement_words(p: Seq<u32>, n: nat) -> Seq<u32> {
    Seq::new(n, |k: int| !p[k])
}

/// Adding one valid word pair to another with a valid carry gives their sum word, a valid
/// carry out, and nothing undefined
proof fn lemma_add_word_valid(a: [u32; 2], b: [u32; 2], c: LogicBitState)
    requires
        a[1] == 0,
        b[1] == 0,
        c == LogicBitState::Logic0 || c == LogicBitState::Logic1,
    ensures
        spec_add_word(a, b, c).0[1] == 0,
        spec_add_word(a, b, c).1 == LogicBitState::Logic0 || spec_add_word(a, b, c).1
            == LogicBitState::Logic1,
        spec_add_word(a, b, c).0[0] + carry_value(spec_add_word(a, b, c).1) * 0x1_0000_0000 == a[0]
            + b[0] + carry_value(c),
{
    vstd::std_specs::bits::axiom_u32_trailing_zeros(0u32);
    assert(a[1] | b[1] == 0u32) by {
        assert(0u32 | 0u32 == 0u32) by (bit_vector);
    }
    assert(u32_trailing_zeros(a[1] | b[1]) == 32);
    let total = a[0] + b[0] + carry_value(c);
    let sum = (total % 0x1_0000_0000) as u32;
    assert(sum | 0u32 == sum) by (bit_vector);
}

/// Summing word by word: the first `n` sum words and the carry out of them hold the sum of
/// the first `n` words of both inputs and the carry in
proof fn lemma_add_prefix(a: LogicState, b: LogicState, carry_in: LogicBitState, n: nat)
    requires
        a.bit_width() == b.bit_width(),
        all_valid(a),
        all_valid(b),
        carry_in == LogicBitState::Logic0 || carry_in == LogicBitState::Logic1,
        n <= a.bit_width().spec_word_len(),
    ensures
        carry_into(a, b, carry_in, add_word_fn(), n) == LogicBitState::Logic0 || carry_into(
            a,
            b,
            carry_in,
            add_word_fn(),
            n,
        ) == LogicBitState::Logic1,
        forall|k: int| 0 <= k < n ==> #[trigger] carried_word(a, b, carry_in, add_word_fn(), k as nat)[1] == 0,
        words_value(carried_words(a, b, carry_in, add_word_fn(), n), n) + carry_value(
            carry_into(a, b, carry_in, add_word_fn(), n),
        ) * word_base(n) == words_value(a.spec_plane_0(), n) + words_value(b.spec_plane_0(), n)
            + carry_value(carry_in),
    decreases n,
{
    if n > 0 {
        let m = (n - 1) as nat;
        lemma_add_prefix(a, b, carry_in, m);
        let c = carry_into(a, b, carry_in, add_word_fn(), m);
        let wa = a.spec_word(m as int);
        let wb = b.spec_word(m as int);
        lemma_add_word_valid(wa, wb, c);
        let r = spec_add_word(wa, wb, c);
        assert(carried_word(a, b, carry_in, add_word_fn(), m) == r.0);
        assert(carry_into(a, b, carry_in, add_word_fn(), n) == r.1);
        let prev = carried_words(a, b, carry_in, add_word_fn(), m);
        let cur = carried_words(a, b, carry_in, add_word_fn(), n);
        assert forall|k: int| 0 <= k < m implies prev[k] == cur[k] by {}
        crate::mul::lemma_words_value_prefix(prev, cur, m);
        let bm = word_base(m);
        let sum = r.0[0] as int;
        let co = carry_value(r.1);
        let ci = carry_value(c);
        assert(word_base(n) == 0x1_0000_0000 * bm);
        assert(sum * bm + co * (0x1_0000_0000 * bm) == (wa[0] + wb[0] + ci) * bm) by (nonlinear_arith)
            requires
                sum + co * 0x1_0000_0000 == wa[0] + wb[0] + ci,
        ;
        assert(words_value(cur, n) == words_value(cur, m) + cur[m as int] * bm);
        assert((wa[0] + wb[0] + ci) * bm == wa[0] * bm + wb[0] * bm + ci * bm) by (nonlinear_arith);
    }
}

/// The sum of two valid states: every word of plane 1 is `0`, and the words of plane 0 hold
/// the sum of both inputs and the carry in, modulo `2^(32 * word_len)`
pub proof fn law_add_valid(a: LogicState, b: LogicState, carry_in: LogicBitState)
    requires
        a.bit_width() == b.bit_width(),
        all_valid(a),
        all_valid(b),
        carry_in == LogicBitState::Logic0 || carry_in == LogicBitState::Logic1,
    ensures
        forall|k: int|
            0 <= k < a.bit_width().spec_word_len() ==> #[trigger] carried_word(
                a,
                b,
                carry_in,
                add_word_fn(),
                k as nat,
            )[1] == 0,
        words_value(
            carried_words(a, b, carry_in, add_word_fn(), a.bit_width().spec_word_len()),
            a.bit_width().spec_word_len(),
        ) == (words_value(a.spec_plane_0(), a.bit_width().spec_word_len()) + words_value(
            b.spec_plane_0(),
            a.bit_width().spec_word_len(),
        ) + carry_value(carry_in)) % word_base(a.bit_width().spec_word_len()),
{
    let wl = a.bit_width().spec_word_len();
    lemma_add_prefix(a, b, carry_in, wl);
    let words = carried_words(a, b, carry_in, add_word_fn(), wl);
    crate::mul::lemma_words_value_bound(words, wl);
    let total = words_value(a.spec_plane_0(), wl) + words_value(b.spec_plane_0(), wl) + carry_value(
        carry_in,
    );
    let co = carry_value(carry_into(a, b, carry_in, add_word_fn(), wl));
    vstd::arithmetic::div_mod::lemma_fundamental_div_mod_converse(
        total,
        word_base(wl),
        co,
        words_value(words, wl),
    );
}

/// The complement of `n` words holds `2^(32 n) - 1` minus what the words hold
proof fn lemma_complement_value(p: Seq<u32>, n: nat)
    requires
        n <= p.len(),
    ensures
        words_value(complement_words(p, n), n) == word_base(n) - 1 - words_value(p, n),
    decreases n,
{
    if n > 0 {
        let m = (n - 1) as nat;
        lemma_complement_value(p, m);
        let c = complement_words(p, n);
        let c_m = complement_words(p, m);
        assert forall|k: int| 0 <= k < m implies c[k] == c_m[k] by {}
        crate::mul::lemma_words_value_prefix(c, c_m, m);
        let x = p[m as int];
        assert(!x == 0xffff_ffffu32 - x) by (bit_vector);
        let bm = word_base(m);
        assert((0xffff_ffff - x) * bm == 0xffff_ffff * bm - x * bm) by (nonlinear_arith);
        assert(word_base(n) == 0x1_0000_0000 * bm);
    }
}

/// Subtracting word by word: the first `n` difference words and the carry out of them hold
/// the first `n` words of `a` plus the complement of those of `b` plus the carry in
proof fn lemma_sub_prefix(a: LogicState, b: LogicState, carry_in: LogicBitState, n: nat)
    requires
        a.bit_width() == b.bit_width(),
        all_valid(a),
        all_valid(b),
        carry_in == LogicBitState::Logic0 || carry_in == LogicBitState::Logic1,
        n <= a.bit_width().spec_word_len(),
    ensures
        carry_into(a, b, carry_in, sub_word_fn(), n) == LogicBitState::Logic0 || carry_into(
            a,
            b,
            carry_in,
            sub_word_fn(),
            n,
        ) == LogicBitState::Logic1,
        forall|k: int| 0 <= k < n ==> #[trigger] carried_word(a, b, carry_in, sub_word_fn(), k as nat)[1] == 0,
        words_value(carried_words(a, b, carry_in, sub_word_fn(), n), n) + carry_value(
            carry_into(a, b, carry_in, sub_word_fn(), n),
        ) * word_base(n) == words_value(a.spec_plane_0(), n) + words_value(
            complement_words(b.spec_plane_0(), n),
            n,
        ) + carry_value(carry_in),
    decreases n,
{
    if n > 0 {
        let m = (n - 1) as nat;
        lemma_sub_prefix(a, b, carry_in, m);
        let c = carry_into(a, b, carry_in, sub_word_fn(), m);
        let wa = a.spec_word(m as int);
        let wb = b.spec_word(m as int);
        let nb = [!wb[0], wb[1]];
        lemma_add_word_valid(wa, nb, c);
        let r = spec_add_word(wa, nb, c);
        assert(carried_word(a, b, carry_in, sub_word_fn(), m) == r.0);
        assert(carry_into(a, b, carry_in, sub_word_fn(), n) == r.1);
        let prev = carried_words(a, b, carry_in, sub_word_fn(), m);
        let cur = carried_words(a, b, carry_in, sub_word_fn(), n);
        assert forall|k: int| 0 <= k < m implies prev[k] == cur[k] by {}
        crate::mul::lemma_words_value_prefix(prev, cur, m);
        let cb_m = complement_words(b.spec_plane_0(), m);
        let cb_n = complement_words(b.spec_plane_0(), n);
        assert forall|k: int| 0 <= k < m implies cb_m[k] == cb_n[k] by {}
        crate::mul::lemma_words_value_prefix(cb_m, cb_n, m);
        let bm = word_base(m);
        let sum = r.0[0] as int;
        let co = carry_value(r.1);
        let ci = carry_value(c);
        assert(word_base(n) == 0x1_0000_0000 * bm);
        assert(sum * bm + co * (0x1_0000_0000 * bm) == (wa[0] + nb[0] + ci) * bm) by (nonlinear_arith)
            requires
                sum + co * 0x1_0000_0000 == wa[0] + nb[0] + ci,
        ;
        assert(words_value(cur, n) == words_value(cur, m) + cur[m as int] * bm);
        assert((wa[0] + nb[0] + ci) * bm == wa[0] * bm + nb[0] * bm + ci * bm) by (nonlinear_arith);
    }
}

/// The difference of two valid states: every word of plane 1 is `0`, and the words of plane 0
/// hold `a - b` modulo `2^(32 * word_len)`
pub proof fn law_sub_valid(a: LogicState, b: LogicState)
    requires
        a.bit_width() == b.bit_width(),
        all_valid(a),
        all_valid(b),
    ensures
        forall|k: int|
            0 <= k < a.bit_width().spec_word_len() ==> #[trigger] carried_word(
                a,
                b,
                LogicBitState::Logic1,
                sub_word_fn(),
                k as nat,
            )[1] == 0,
        words_value(
            carried_words(a, b, LogicBitState::Logic1, sub_word_fn(), a.bit_width().spec_word_len()),
            a.bit_width().spec_word_len(),
        ) == (words_value(a.spec_plane_0(), a.bit_width().spec_word_len()) - words_value(
            b.spec_plane_0(),
            a.bit_width().spec_word_len(),
        )) % word_base(a.bit_width().spec_word_len()),
{
    let wl = a.bit_width().spec_word_len();
    lemma_sub_prefix(a, b, LogicBitState::Logic1, wl);
    LogicState::lemma_plane_len(b);
    broadcast use crate::bit_width::BitWidth::lemma_width_range;
    lemma_complement_value(b.spec_plane_0(), wl);
    let words = carried_words(a, b, LogicBitState::Logic1, sub_word_fn(), wl);
    crate::mul::lemma_words_value_bound(words, wl);
    let big = word_base(wl);
    let diff = words_value(a.spec_plane_0(), wl) - words_value(b.spec_plane_0(), wl);
    let co = carry_value(carry_into(a, b, LogicBitState::Logic1, sub_word_fn(), wl));
    assert(words_value(words, wl) + co * big == diff + big);
    assert((co - 1) * big == co * big - big) by (nonlinear_arith);
    vstd::arithmetic::div_mod::lemma_fundamental_div_mod_converse(
        diff,
        big,
        co - 1,
        words_value(words, wl),
    );
}


/// Whether `bits` are the binary digits, least significant first, of the number that the
/// words `p` hold
pub open spec fn digits_of(bits: Seq<LogicBitState>, p: Seq<u32>) -> bool {
    forall|i: int| 0 <= i < bits.len() ==> #[trigger] bits[i] == spec_from_bool(plane_bit(p, i))
}

/// The bits of a carried operation whose plane-1 words are all `0` are the digits of its
/// plane-0 words
proof fn lemma_carried_digits(
    a: LogicState,
    b: LogicState,
    carry_in: LogicBitState,
    g: spec_fn([u32; 2], [u32; 2], LogicBitState) -> ([u32; 2], LogicBitState),
    p: Seq<u32>,
)
    requires
        forall|k: int| 0 <= k < a.bit_width().spec_word_len() ==> #[trigger] carried_word(a, b, carry_in, g, k as nat)[1] == 0,
        p.len() == a.bit_width().spec_word_len(),
        forall|k: int| 0 <= k < p.len() ==> p[k] == carried_word(a, b, carry_in, g, k as nat)[0],
    ensures
        digits_of(carried_view(a, b, carry_in, g), p),
{
    broadcast use BitWidth::lemma_width_range;
    let v = carried_view(a, b, carry_in, g);
    assert forall|i: int| 0 <= i < v.len() implies #[trigger] v[i] == spec_from_bool(plane_bit(p, i)) by {
        let k = i / 32;
        let j = (i % 32) as u32;
        assert(0 <= k < a.bit_width().spec_word_len());
        let w = carried_word(a, b, carry_in, g, k as nat);
        assert(w[1] == 0);
        assert(v[i] == crate::ops::word_state(w, j));
        crate::word::lemma_bit_zero(j);
    }
}

/// What an adder component outputs on valid inputs of its width: the binary digits of the
/// sum of its two inputs, modulo `2^(32 * word_len)` (so modulo `2^width` within the width)
pub proof fn law_component_add(states: Seq<LogicState>, inputs: Seq<WireStateId>, width: BitWidth, p: Seq<u32>)
    requires
        inputs.len() >= 2,
        wire_state(states, inputs[0]).bit_width() == width,
        wire_state(states, inputs[1]).bit_width() == width,
        all_valid(wire_state(states, inputs[0])),
        all_valid(wire_state(states, inputs[1])),
        p.len() == width.spec_word_len(),
        words_value(p, width.spec_word_len()) == (words_value(
            wire_state(states, inputs[0]).spec_plane_0(),
            width.spec_word_len(),
        ) + words_value(wire_state(states, inputs[1]).spec_plane_0(), width.spec_word_len()))
            % word_base(width.spec_word_len()),
    ensures
        digits_of(op_eval(ComponentOp::Add, inputs, states, width), p),
{
    let a = wire_state(states, inputs[0]);
    let b = wire_state(states, inputs[1]);
    let wl = width.spec_word_len();
    law_add_valid(a, b, LogicBitState::Logic0);
    let words = carried_words(a, b, LogicBitState::Logic0, add_word_fn(), wl);
    crate::mul::lemma_words_value_unique(words, p, wl);
    assert forall|k: int| 0 <= k < p.len() implies p[k] == carried_word(a, b, LogicBitState::Logic0, add_word_fn(), k as nat)[0] by {
        assert(words.subrange(0, wl as int)[k] == p.subrange(0, wl as int)[k]);
    }
    lemma_carried_digits(a, b, LogicBitState::Logic0, add_word_fn(), p);
}

/// What a subtractor component outputs on valid inputs of its width: the binary digits of its
/// first input minus its second, modulo `2^(32 * word_len)`
pub proof fn law_component_sub(states: Seq<LogicState>, inputs: Seq<WireStateId>, width: BitWidth, p: Seq<u32>)
    requires
        inputs.len() >= 2,
        wire_state(states, inputs[0]).bit_width() == width,
        wire_state(states, inputs[1]).bit_width() == width,
        all_valid(wire_state(states, inputs[0])),
        all_valid(wire_state(states, inputs[1])),
        p.len() == width.spec_word_len(),
        words_value(p, width.spec_word_len()) == (words_value(
            wire_state(states, inputs[0]).spec_plane_0(),
            width.spec_word_len(),
        ) - words_value(wire_state(states, inputs[1]).spec_plane_0(), width.spec_word_len()))
            % word_base(width.spec_word_len()),
    ensures
        digits_of(op_eval(ComponentOp::Sub, inputs, states, width), p),
{
    let a = wire_state(states, inputs[0]);
    let b = wire_state(states, inputs[1]);
    let wl = width.spec_word_len();
    law_sub_valid(a, b);
    let words = carried_words(a, b, LogicBitState::Logic1, sub_word_fn(), wl);
    crate::mul::lemma_words_value_unique(words, p, wl);
    assert forall|k: int| 0 <= k < p.len() implies p[k] == carried_word(a, b, LogicBitState::Logic1, sub_word_fn(), k as nat)[0] by {
        assert(words.subrange(0, wl as int)[k] == p.subrange(0, wl as int)[k]);
    }
    lemma_carried_digits(a, b, LogicBitState::Logic1, sub_word_fn(), p);
}

/// What a multiplier component outputs on valid inputs of its width: the binary digits of the
/// product of its two inputs, modulo `2^(32 * word_len)`
pub proof fn law_component_mul(states: Seq<LogicState>, inputs: Seq<WireStateId>, width: BitWidth, p: Seq<u32>)
    requires
        inputs.len() >= 2,
        wire_state(states, inputs[0]).bit_width() == width,
        wire_state(states, inputs[1]).bit_width() == width,
        all_valid(wire_state(states, inputs[0])),
        all_valid(wire_state(states, inputs[1])),
        p.len() == width.spec_word_len(),
        words_value(p, width.spec_word_len()) == (words_value(
            wire_state(states, inputs[0]).spec_plane_0(),
            width.spec_word_len(),
        ) * words_value(wire_state(states, inputs[1]).spec_plane_0(), width.spec_word_len()))
            % word_base(width.spec_word_len()),
    ensures
        digits_of(op_eval(ComponentOp::Mul, inputs, states, width), p),
{
    broadcast use BitWidth::lemma_width_range;
    let a = wire_state(states, inputs[0]);
    let b = wire_state(states, inputs[1]);
    let wl = width.spec_word_len();
    let prod = mul_product(a, b);
    assert(p.len() == wl && words_value(p, wl) == mul_value(a, b));
    assert(prod.len() == wl && words_value(prod, wl) == mul_value(a, b));
    crate::mul::lemma_words_value_unique(prod, p, wl);
    lemma_first_invalid_none(a, b, 0);
    let v = op_eval(ComponentOp::Mul, inputs, states, width);
    assert forall|i: int| 0 <= i < v.len() implies #[trigger] v[i] == spec_from_bool(plane_bit(p, i)) by {
        let k = i / 32;
        assert(0 <= k < wl);
        assert(prod.subrange(0, wl as int)[k] == p.subrange(0, wl as int)[k]);
        assert(mul_word(a, b, k) == [prod[k], 0u32]);
        crate::word::lemma_bit_zero((i % 32) as u32);
    }
}

/// With valid inputs, no word from `k` on is invalid
proof fn lemma_first_invalid_none(a: LogicState, b: LogicState, k: nat)
    requires
        all_valid(a),
        all_valid(b),
        a.bit_width() == b.bit_width(),
    ensures
        first_invalid(a, b, k) == if k >= a.bit_width().spec_word_len() {
            k
        } else {
            a.bit_width().spec_word_len()
        } || k > a.bit_width().spec_word_len(),
    decreases a.bit_width().spec_word_len() - k,
{
    if k < a.bit_width().spec_word_len() {
        assert(a.spec_plane_1()[k as int] | b.spec_plane_1()[k as int] == 0u32) by {
            assert(a.spec_plane_1()[k as int] == 0 && b.spec_plane_1()[k as int] == 0);
            assert(0u32 | 0u32 == 0u32) by (bit_vector);
        }
        lemma_first_invalid_none(a, b, k + 1);
    }
}


/// What a negation component outputs on a valid input of its width: the binary digits of the
/// input's negation, modulo `2^(32 * word_len)`
pub proof fn law_component_neg(states: Seq<LogicState>, inputs: Seq<WireStateId>, width: BitWidth, p: Seq<u32>)
    requires
        inputs.len() >= 1,
        wire_state(states, inputs[0]).bit_width() == width,
        all_valid(wire_state(states, inputs[0])),
        p.len() == width.spec_word_len(),
        words_value(p, width.spec_word_len()) == (0 - words_value(
            wire_state(states, inputs[0]).spec_plane_0(),
            width.spec_word_len(),
        )) % word_base(width.spec_word_len()),
    ensures
        digits_of(op_eval(ComponentOp::Neg, inputs, states, width), p),
{
    broadcast use BitWidth::lemma_width_range;
    let zero = LogicState::spec_logic_0(width);
    let a = wire_state(states, inputs[0]);
    let wl = width.spec_word_len();
    LogicState::lemma_filled_words(width, 0, 0);
    assert(zero.bit_width() == width) by {
        LogicState::lemma_filled(width, 0, 0);
    }
    assert(wl <= 8);
    assert forall|k: int| 0 <= k < wl implies #[trigger] zero.spec_plane_1()[k] == 0 && zero.spec_plane_0()[k] == 0 by {
        assert(zero.spec_plane_0()[k] == 0);
    }
    assert(all_valid(zero));
    LogicState::lemma_plane_len(zero);
    crate::mul::lemma_zero_words(zero.spec_plane_0(), wl);
    law_sub_valid(zero, a);
    let words = carried_words(zero, a, LogicBitState::Logic1, sub_word_fn(), wl);
    crate::mul::lemma_words_value_unique(words, p, wl);
    assert forall|k: int| 0 <= k < p.len() implies p[k] == carried_word(zero, a, LogicBitState::Logic1, sub_word_fn(), k as nat)[0] by {
        assert(words.subrange(0, wl as int)[k] == p.subrange(0, wl as int)[k]);
    }
    lemma_carried_digits(zero, a, LogicBitState::Logic1, sub_word_fn(), p);
}

} // verus!
