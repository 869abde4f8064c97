//! Word-parallel logic operations on the bit-plane representation.
//!
//! A word pair `[plane 0, plane 1]` holds 32 bits side by side; every operation here acts on
//! all 32 of them at once, and its contract states what it does to each single bit.
use vstd::prelude::*;
use crate::logic_bit::{
    LogicBitState, bit_state, plane_0_of, is_valid_bit, spec_from_bool, not_bit, and_bit, or_bit, xor_bit, nand_bit, nor_bit, xnor_bit,
    high_z_to_undefined_bit,
};
use crate::word::{bit_of, plane_bit, group_word_bits};
use crate::logic_state::LogicState;
use crate::bit_width::BitWidth;
use vstd::std_specs::bits::u32_trailing_zeros;

verus! {

broadcast use {group_word_bits, LogicState::lemma_plane_len};

/// The state of bit `j` of a word pair
pub open spec fn word_state(w: [u32; 2], j: u32) -> LogicBitState {
    bit_state(bit_of(w[0], j), bit_of(w[1], j))
}

/// Every bit of `r` is `f` applied to the same bit of `a`
pub open spec fn unary_bitwise(
    r: [u32; 2],
    a: [u32; 2],
    f: spec_fn(LogicBitState) -> LogicBitState,
) -> bool {
    forall|j: u32| j < 32 ==> #[trigger] word_state(r, j) == f(word_state(a, j))
}

/// Every bit of `r` is `f` applied to the same bits of `a` and `b`
pub open spec fn binary_bitwise(
    r: [u32; 2],
    a: [u32; 2],
    b: [u32; 2],
    f: spec_fn(LogicBitState, LogicBitState) -> LogicBitState,
) -> bool {
    forall|j: u32| j < 32 ==> #[trigger] word_state(r, j) == f(word_state(a, j), word_state(b, j))
}

/// Turns every high impedance bit into an undefined one
pub fn high_z_to_undefined(i: [u32; 2]) -> (r: [u32; 2])
    ensures
        unary_bitwise(r, i, |x| high_z_to_undefined_bit(x)),
{
    //  I_1 | I_0 |     B     | O_1 | O_0 |     O
    // -----|-----|-----------|-----|-----|-----------
    //   0  |  0  | Logic 0   |  0  |  0  | Logic 0
    //   0  |  1  | Logic 1   |  0  |  1  | Logic 1
    //   1  |  0  | High-Z    |  1  |  1  | Undefined
    //   1  |  1  | Undefined |  1  |  1  | Undefined
    let r = [i[0] | i[1], i[1]];
    assert forall|j: u32| j < 32 implies #[trigger] word_state(r, j) == high_z_to_undefined_bit(
        word_state(i, j),
    ) by {
        assert(bit_of(i[0] | i[1], j) == (bit_of(i[0], j) || bit_of(i[1], j)));
    }
    r
}

/// Bitwise NOT
pub fn logic_not(i: [u32; 2]) -> (r: [u32; 2])
    ensures
        unary_bitwise(r, i, |x| not_bit(x)),
{
    let r = [!i[0] | i[1], i[1]];
    assert forall|j: u32| j < 32 implies #[trigger] word_state(r, j) == not_bit(word_state(i, j)) by {
        assert(bit_of(!i[0] | i[1], j) == (bit_of(!i[0], j) || bit_of(i[1], j)));
    }
    r
}

/// Bitwise AND
pub fn logic_and(a: [u32; 2], b: [u32; 2]) -> (r: [u32; 2])
    ensures
        binary_bitwise(r, a, b, |x, y| and_bit(x, y)),
{
    let r = [
        (a[0] & b[0]) | (a[0] & b[1]) | (a[1] & b[0]) | (a[1] & b[1]),
        (a[0] & b[1]) | (a[1] & b[0]) | (a[1] & b[1]),
    ];
    assert forall|j: u32| j < 32 implies #[trigger] word_state(r, j) == and_bit(
        word_state(a, j),
        word_state(b, j),
    ) by {
        let _ = bit_of(a[0] & b[0], j);
        let _ = bit_of(a[0] & b[1], j);
        let _ = bit_of(a[1] & b[0], j);
        let _ = bit_of(a[1] & b[1], j);
        let _ = bit_of((a[0] & b[0]) | (a[0] & b[1]), j);
        let _ = bit_of((a[0] & b[0]) | (a[0] & b[1]) | (a[1] & b[0]), j);
        let _ = bit_of((a[0] & b[1]) | (a[1] & b[0]), j);
    }
    r
}


/// Bitwise OR
pub fn logic_or(a: [u32; 2], b: [u32; 2]) -> (r: [u32; 2])
    ensures
        binary_bitwise(r, a, b, |x, y| or_bit(x, y)),
{
    let r = [a[0] | a[1] | b[0] | b[1], (!a[0] & b[1]) | (a[1] & !b[0]) | (a[1] & b[1])];
    assert forall|j: u32| j < 32 implies #[trigger] word_state(r, j) == or_bit(
        word_state(a, j),
        word_state(b, j),
    ) by {
        assert(bit_of(a[0] | a[1] | b[0] | b[1], j) == (bit_of(a[0], j) || bit_of(a[1], j)
            || bit_of(b[0], j) || bit_of(b[1], j)));
        assert(bit_of((!a[0] & b[1]) | (a[1] & !b[0]) | (a[1] & b[1]), j) == ((!bit_of(a[0], j)
            && bit_of(b[1], j)) || (bit_of(a[1], j) && !bit_of(b[0], j)) || (bit_of(a[1], j)
            && bit_of(b[1], j))));
    }
    r
}

/// Bitwise XOR
pub fn logic_xor(a: [u32; 2], b: [u32; 2]) -> (r: [u32; 2])
    ensures
        binary_bitwise(r, a, b, |x, y| xor_bit(x, y)),
{
    let r = [(!a[0] & b[0]) | (a[0] & !b[0]) | a[1] | b[1], a[1] | b[1]];
    assert forall|j: u32| j < 32 implies #[trigger] word_state(r, j) == xor_bit(
        word_state(a, j),
        word_state(b, j),
    ) by {
        assert(bit_of((!a[0] & b[0]) | (a[0] & !b[0]) | a[1] | b[1], j) == ((!bit_of(a[0], j)
            && bit_of(b[0], j)) || (bit_of(a[0], j) && !bit_of(b[0], j)) || bit_of(a[1], j)
            || bit_of(b[1], j)));
        assert(bit_of(a[1] | b[1], j) == (bit_of(a[1], j) || bit_of(b[1], j)));
    }
    r
}

/// Bitwise NAND
pub fn logic_nand(a: [u32; 2], b: [u32; 2]) -> (r: [u32; 2])
    ensures
        binary_bitwise(r, a, b, |x, y| nand_bit(x, y)),
{
    let r = [
        !a[0] | !b[0] | a[1] | b[1],
        (a[0] & b[1]) | (a[1] & b[0]) | (a[1] & b[1]),
    ];
    assert forall|j: u32| j < 32 implies #[trigger] word_state(r, j) == nand_bit(
        word_state(a, j),
        word_state(b, j),
    ) by {
        assert(bit_of(!a[0] | !b[0] | a[1] | b[1], j) == (!bit_of(a[0], j) || !bit_of(b[0], j)
            || bit_of(a[1], j) || bit_of(b[1], j)));
        assert(bit_of((a[0] & b[1]) | (a[1] & b[0]) | (a[1] & b[1]), j) == ((bit_of(a[0], j)
            && bit_of(b[1], j)) || (bit_of(a[1], j) && bit_of(b[0], j)) || (bit_of(a[1], j)
            && bit_of(b[1], j))));
    }
    r
}

/// Bitwise NOR
pub fn logic_nor(a: [u32; 2], b: [u32; 2]) -> (r: [u32; 2])
    ensures
        binary_bitwise(r, a, b, |x, y| nor_bit(x, y)),
{
    let r = [
        (!a[0] & !b[0]) | (!a[0] & b[1]) | (a[1] & !b[0]) | (a[1] & b[1]),
        (!a[0] & b[1]) | (a[1] & !b[0]) | (a[1] & b[1]),
    ];
    assert forall|j: u32| j < 32 implies #[trigger] word_state(r, j) == nor_bit(
        word_state(a, j),
        word_state(b, j),
    ) by {
        assert(bit_of((!a[0] & !b[0]) | (!a[0] & b[1]) | (a[1] & !b[0]) | (a[1] & b[1]), j) == ((
        !bit_of(a[0], j) && !bit_of(b[0], j)) || (!bit_of(a[0], j) && bit_of(b[1], j)) || (bit_of(
            a[1],
            j,
        ) && !bit_of(b[0], j)) || (bit_of(a[1], j) && bit_of(b[1], j))));
        assert(bit_of((!a[0] & b[1]) | (a[1] & !b[0]) | (a[1] & b[1]), j) == ((!bit_of(a[0], j)
            && bit_of(b[1], j)) || (bit_of(a[1], j) && !bit_of(b[0], j)) || (bit_of(a[1], j)
            && bit_of(b[1], j))));
    }
    r
}

/// Bitwise XNOR
pub fn logic_xnor(a: [u32; 2], b: [u32; 2]) -> (r: [u32; 2])
    ensures
        binary_bitwise(r, a, b, |x, y| xnor_bit(x, y)),
{
    let r = [(!a[0] & !b[0]) | (a[0] & b[0]) | a[1] | b[1], a[1] | b[1]];
    assert forall|j: u32| j < 32 implies #[trigger] word_state(r, j) == xnor_bit(
        word_state(a, j),
        word_state(b, j),
    ) by {
        assert(bit_of((!a[0] & !b[0]) | (a[0] & b[0]) | a[1] | b[1], j) == ((!bit_of(a[0], j)
            && !bit_of(b[0], j)) || (bit_of(a[0], j) && bit_of(b[0], j)) || bit_of(a[1], j)
            || bit_of(b[1], j)));
        assert(bit_of(a[1] | b[1], j) == (bit_of(a[1], j) || bit_of(b[1], j)));
    }
    r
}

/// The bits of `a` mapped through `f`
pub open spec fn map_bits(
    a: Seq<LogicBitState>,
    f: spec_fn(LogicBitState) -> LogicBitState,
) -> Seq<LogicBitState> {
    Seq::new(a.len(), |i: int| f(a[i]))
}

/// The bits of `a` and `b` combined pairwise through `f`
pub open spec fn zip_bits(
    a: Seq<LogicBitState>,
    b: Seq<LogicBitState>,
    f: spec_fn(LogicBitState, LogicBitState) -> LogicBitState,
) -> Seq<LogicBitState> {
    Seq::new(a.len(), |i: int| f(a[i], b[i]))
}

/// Bit `j` of word `k` of a state
pub open spec fn state_word_bit(s: LogicState, k: int, j: u32) -> LogicBitState {
    bit_state(bit_of(s.spec_plane_0()[k], j), bit_of(s.spec_plane_1()[k], j))
}

/// Bit `i` of a state is bit `i % 32` of its word `i / 32`
pub proof fn lemma_state_bit(s: LogicState, i: int)
    requires
        0 <= i < s@.len(),
    ensures
        s@[i] == state_word_bit(s, i / 32, (i % 32) as u32),
        0 <= i / 32 < s.bit_width().spec_word_len(),
        (i % 32) < 32,
{
    broadcast use BitWidth::lemma_width_range;
}

/// Applies a word operation to every word of `input`, writing the result into `output`
pub fn unary_op(
    output: &mut LogicState,
    input: &LogicState,
    op: impl Fn([u32; 2]) -> [u32; 2],
    Ghost(f): Ghost<spec_fn(LogicBitState) -> LogicBitState>,
)
    requires
        old(output).bit_width() == input.bit_width(),
        forall|x: [u32; 2]| op.requires((x,)),
        forall|x: [u32; 2], r: [u32; 2]| op.ensures((x,), r) ==> unary_bitwise(r, x, f),
    ensures
        final(output).bit_width() == old(output).bit_width(),
        final(output)@ == map_bits(input@, f),
{
    let word_len = output.bit_width().word_len() as usize;
    let mut k: usize = 0;
    while k < word_len
        invariant
            word_len == old(output).bit_width().spec_word_len(),
            word_len <= 8,
            k <= word_len,
            output.bit_width() == old(output).bit_width(),
            output.bit_width() == input.bit_width(),
            forall|x: [u32; 2]| op.requires((x,)),
            forall|x: [u32; 2], r: [u32; 2]| op.ensures((x,), r) ==> unary_bitwise(r, x, f),
            forall|m: int, j: u32|
                0 <= m < k && j < 32 ==> #[trigger] state_word_bit(*output, m, j) == f(
                    state_word_bit(*input, m, j),
                ),
        decreases word_len - k,
    {
        let x = input.get_word(k);
        let w = op(x);
        assert(op.ensures((x,), w));
        assert(unary_bitwise(w, x, f));
        let ghost prev = *output;
        output.set_word(k, w);
        assert forall|m: int, j: u32| 0 <= m < k + 1 && j < 32 implies #[trigger] state_word_bit(
            *output,
            m,
            j,
        ) == f(state_word_bit(*input, m, j)) by {
            if m < k {
                assert(state_word_bit(*output, m, j) == state_word_bit(prev, m, j));
            } else {
                assert(word_state(w, j) == f(word_state(x, j)));
            }
        }
        k = k + 1;
    }
    assert forall|i: int| 0 <= i < output@.len() implies #[trigger] output@[i] == map_bits(
        input@,
        f,
    )[i] by {
        lemma_state_bit(*output, i);
        lemma_state_bit(*input, i);
    }
    assert(output@ =~= map_bits(input@, f));
}

/// Applies a word operation to every word of `output` in place
pub fn unary_op_mut(
    output: &mut LogicState,
    op: impl Fn([u32; 2]) -> [u32; 2],
    Ghost(f): Ghost<spec_fn(LogicBitState) -> LogicBitState>,
)
    requires
        forall|x: [u32; 2]| op.requires((x,)),
        forall|x: [u32; 2], r: [u32; 2]| op.ensures((x,), r) ==> unary_bitwise(r, x, f),
    ensures
        final(output).bit_width() == old(output).bit_width(),
        final(output)@ == map_bits(old(output)@, f),
{
    let input = *output;
    unary_op(output, &input, op, Ghost(f));
}

/// Applies a word operation to every pair of words of `input_a` and `input_b`,
/// writing the result into `output`
pub fn binary_op(
    output: &mut LogicState,
    input_a: &LogicState,
    input_b: &LogicState,
    op: impl Fn([u32; 2], [u32; 2]) -> [u32; 2],
    Ghost(f): Ghost<spec_fn(LogicBitState, LogicBitState) -> LogicBitState>,
)
    requires
        old(output).bit_width() == input_a.bit_width(),
        old(output).bit_width() == input_b.bit_width(),
        forall|x: [u32; 2], y: [u32; 2]| op.requires((x, y)),
        forall|x: [u32; 2], y: [u32; 2], r: [u32; 2]|
            op.ensures((x, y), r) ==> binary_bitwise(r, x, y, f),
    ensures
        final(output).bit_width() == old(output).bit_width(),
        final(output)@ == zip_bits(input_a@, input_b@, f),
{
    let word_len = output.bit_width().word_len() as usize;
    let mut k: usize = 0;
    while k < word_len
        invariant
            word_len == old(output).bit_width().spec_word_len(),
            word_len <= 8,
            k <= word_len,
            output.bit_width() == old(output).bit_width(),
            output.bit_width() == input_a.bit_width(),
            output.bit_width() == input_b.bit_width(),
            forall|x: [u32; 2], y: [u32; 2]| op.requires((x, y)),
            forall|x: [u32; 2], y: [u32; 2], r: [u32; 2]|
                op.ensures((x, y), r) ==> binary_bitwise(r, x, y, f),
            forall|m: int, j: u32|
                0 <= m < k && j < 32 ==> #[trigger] state_word_bit(*output, m, j) == f(
                    state_word_bit(*input_a, m, j),
                    state_word_bit(*input_b, m, j),
                ),
        decreases word_len - k,
    {
        let x = input_a.get_word(k);
        let y = input_b.get_word(k);
        let w = op(x, y);
        assert(op.ensures((x, y), w));
        assert(binary_bitwise(w, x, y, f));
        let ghost prev = *output;
        output.set_word(k, w);
        assert forall|m: int, j: u32| 0 <= m < k + 1 && j < 32 implies #[trigger] state_word_bit(
            *output,
            m,
            j,
        ) == f(state_word_bit(*input_a, m, j), state_word_bit(*input_b, m, j)) by {
            if m < k {
                assert(state_word_bit(*output, m, j) == state_word_bit(prev, m, j));
            } else {
                assert(word_state(w, j) == f(word_state(x, j), word_state(y, j)));
            }
        }
        k = k + 1;
    }
    assert forall|i: int| 0 <= i < output@.len() implies #[trigger] output@[i] == zip_bits(
        input_a@,
        input_b@,
        f,
    )[i] by {
        lemma_state_bit(*output, i);
        lemma_state_bit(*input_a, i);
        lemma_state_bit(*input_b, i);
    }
    assert(output@ =~= zip_bits(input_a@, input_b@, f));
}

/// Combines `input` into `output` in place: `output = op(output, input)` word by word
pub fn binary_op_mut(
    output: &mut LogicState,
    input: &LogicState,
    op: impl Fn([u32; 2], [u32; 2]) -> [u32; 2],
    Ghost(f): Ghost<spec_fn(LogicBitState, LogicBitState) -> LogicBitState>,
)
    requires
        old(output).bit_width() == input.bit_width(),
        forall|x: [u32; 2], y: [u32; 2]| op.requires((x, y)),
        forall|x: [u32; 2], y: [u32; 2], r: [u32; 2]|
            op.ensures((x, y), r) ==> binary_bitwise(r, x, y, f),
    ensures
        final(output).bit_width() == old(output).bit_width(),
        final(output)@ == zip_bits(old(output)@, input@, f),
{
    let current = *output;
    binary_op(output, &current, input, op, Ghost(f));
}

/// The number of low bits of a word addition that are valid: none when the carry is not
/// valid, otherwise all bits below the lowest invalid bit of either operand
pub open spec fn valid_count(a: [u32; 2], b: [u32; 2], c: LogicBitState) -> u32 {
    if is_valid_bit(c) {
        u32_trailing_zeros(a[1] | b[1])
    } else {
        0
    }
}

/// The plane-0 sum of a word addition, before invalid bits are marked
pub open spec fn word_sum(a: [u32; 2], b: [u32; 2], c: LogicBitState) -> int {
    a[0] + b[0] + (if plane_0_of(c) {
        1int
    } else {
        0int
    })
}

/// The result of adding two words with a carry
///
/// The low `valid_count` bits are the bits of the sum; all higher bits are undefined, and so
/// is the carry out unless every bit was valid.
pub open spec fn spec_add_word(a: [u32; 2], b: [u32; 2], c: LogicBitState) -> ([u32; 2], LogicBitState) {
    let vc = valid_count(a, b, c);
    let sum = (word_sum(a, b, c) % 0x1_0000_0000) as u32;
    let mask: u32 = if vc >= 32 {
        0
    } else {
        (0xffff_ffffu32 << vc) as u32
    };
    ([sum | mask, mask], if mask > 0 {
        LogicBitState::Undefined
    } else {
        spec_from_bool(word_sum(a, b, c) >= 0x1_0000_0000)
    })
}

/// Adds two words with a carry
pub fn add(a: [u32; 2], b: [u32; 2], c: LogicBitState) -> (r: ([u32; 2], LogicBitState))
    ensures
        r.0[0] == spec_add_word(a, b, c).0[0],
        r.0[1] == spec_add_word(a, b, c).0[1],
        r.1 == spec_add_word(a, b, c).1,
        forall|j: u32|
            j < 32 ==> #[trigger] word_state(r.0, j) == if j < valid_count(a, b, c) {
                spec_from_bool(bit_of((word_sum(a, b, c) % 0x1_0000_0000) as u32, j))
            } else {
                LogicBitState::Undefined
            },
{
    let c_bit: u64 = if c == LogicBitState::Logic1 || c == LogicBitState::Undefined {
        1
    } else {
        0
    };
    let total: u64 = a[0] as u64 + b[0] as u64 + c_bit;
    let sum = total as u32;
    let carry = total >= 0x1_0000_0000;
    let vc = match c.to_bool() {
        Some(_) => (a[1] | b[1]).trailing_zeros(),
        None => 0,
    };
    let invalid_mask: u32 = if vc >= 32 {
        0
    } else {
        0xffff_ffffu32 << vc
    };
    proof {
        vstd::std_specs::bits::axiom_u32_trailing_zeros(a[1] | b[1]);
        assert(sum == (total % 0x1_0000_0000) as u32) by (bit_vector)
            requires
                sum == total as u32,
        ;
        assert forall|j: u32| j < 32 implies (bit_of(invalid_mask, j) <==> j >= vc) by {
            if vc < 32 {
                assert(((0xffff_ffffu32 << vc) >> j) & 1u32 == 1u32 <==> j >= vc) by (bit_vector)
                    requires
                        vc < 32,
                        j < 32,
                ;
            }
        }
    }
    let r = ([sum | invalid_mask, invalid_mask], if invalid_mask > 0 {
        LogicBitState::Undefined
    } else {
        LogicBitState::from_bool(carry)
    });
    r
}

/// The result of subtracting two words with a borrow: `a + !b + c`
pub open spec fn spec_sub_word(a: [u32; 2], b: [u32; 2], c: LogicBitState) -> ([u32; 2], LogicBitState) {
    spec_add_word(a, [!b[0], b[1]], c)
}

/// Subtracts two words with a borrow: `a + !b + c`
pub fn sub(a: [u32; 2], b: [u32; 2], c: LogicBitState) -> (r: ([u32; 2], LogicBitState))
    ensures
        r.0[0] == spec_sub_word(a, b, c).0[0],
        r.0[1] == spec_sub_word(a, b, c).0[1],
        r.1 == spec_sub_word(a, b, c).1,
{
    self::add(a, [!b[0], b[1]], c)
}

/// The carry into word `k` of a word-by-word carrying operation `g`
pub open spec fn carry_into(
    a: LogicState,
    b: LogicState,
    carry_in: LogicBitState,
    g: spec_fn([u32; 2], [u32; 2], LogicBitState) -> ([u32; 2], LogicBitState),
    k: nat,
) -> LogicBitState
    decreases k,
{
    if k == 0 {
        carry_in
    } else {
        g(a.spec_word(k - 1), b.spec_word(k - 1), carry_into(a, b, carry_in, g, (k - 1) as nat)).1
    }
}

/// Word `k` of the result of a word-by-word carrying operation `g`
pub open spec fn carried_word(
    a: LogicState,
    b: LogicState,
    carry_in: LogicBitState,
    g: spec_fn([u32; 2], [u32; 2], LogicBitState) -> ([u32; 2], LogicBitState),
    k: nat,
) -> [u32; 2] {
    g(a.spec_word(k as int), b.spec_word(k as int), carry_into(a, b, carry_in, g, k)).0
}

/// Applies a carrying word operation to every pair of words, lowest word first,
/// passing the carry from each word to the next
pub fn carrying_binary_op(
    sum: &mut LogicState,
    input_a: &LogicState,
    input_b: &LogicState,
    carry_in: LogicBitState,
    op: impl Fn([u32; 2], [u32; 2], LogicBitState) -> ([u32; 2], LogicBitState),
    Ghost(g): Ghost<spec_fn([u32; 2], [u32; 2], LogicBitState) -> ([u32; 2], LogicBitState)>,
)
    requires
        old(sum).bit_width() == input_a.bit_width(),
        old(sum).bit_width() == input_b.bit_width(),
        forall|x: [u32; 2], y: [u32; 2], c: LogicBitState| op.requires((x, y, c)),
        forall|x: [u32; 2], y: [u32; 2], c: LogicBitState, r: ([u32; 2], LogicBitState)|
            op.ensures((x, y, c), r) ==> r.0[0] == g(x, y, c).0[0] && r.0[1] == g(x, y, c).0[1]
                && r.1 == g(x, y, c).1,
    ensures
        final(sum).bit_width() == old(sum).bit_width(),
        forall|k: int|
            0 <= k < old(sum).bit_width().spec_word_len() ==> final(sum).spec_plane_0()[k]
                == carried_word(*input_a, *input_b, carry_in, g, k as nat)[0] && final(sum).spec_plane_1()[k] == carried_word(*input_a, *input_b, carry_in, g, k as nat)[1],
{
    let word_len = sum.bit_width().word_len() as usize;
    let mut carry = carry_in;
    let mut k: usize = 0;
    while k < word_len
        invariant
            word_len == old(sum).bit_width().spec_word_len(),
            word_len <= 8,
            k <= word_len,
            sum.bit_width() == old(sum).bit_width(),
            forall|x: [u32; 2], y: [u32; 2], c: LogicBitState| op.requires((x, y, c)),
            forall|x: [u32; 2], y: [u32; 2], c: LogicBitState, r: ([u32; 2], LogicBitState)|
                op.ensures((x, y, c), r) ==> r.0[0] == g(x, y, c).0[0] && r.0[1] == g(x, y, c).0[1]
                    && r.1 == g(x, y, c).1,
            carry == carry_into(*input_a, *input_b, carry_in, g, k as nat),
            forall|m: int|
                0 <= m < k ==> sum.spec_plane_0()[m] == carried_word(
                    *input_a,
                    *input_b,
                    carry_in,
                    g,
                    m as nat,
                )[0] && sum.spec_plane_1()[m] == carried_word(
                    *input_a,
                    *input_b,
                    carry_in,
                    g,
                    m as nat,
                )[1],
        decreases word_len - k,
    {
        let x = input_a.get_word(k);
        let y = input_b.get_word(k);
        let (w, c) = op(x, y, carry);
        assert(op.ensures((x, y, carry), (w, c)));
        proof {
            assert(x[0] == input_a.spec_word(k as int)[0] && x[1] == input_a.spec_word(k as int)[1]);
            assert(x =~= input_a.spec_word(k as int));
            assert(y =~= input_b.spec_word(k as int));
        }
        let ghost prev = *sum;
        sum.set_word(k, w);
        carry = c;
        assert forall|m: int| 0 <= m < k + 1 implies sum.spec_plane_0()[m] == carried_word(
            *input_a,
            *input_b,
            carry_in,
            g,
            m as nat,
        )[0] && sum.spec_plane_1()[m] == carried_word(*input_a, *input_b, carry_in, g, m as nat)[1] by {
            if m < k {
                assert(sum.spec_plane_0()[m] == prev.spec_plane_0()[m]);
            }
        }
        k = k + 1;
    }
}

} // verus!
