//! Shifters: a state shifted by an amount read from another state.
//!
//! The amount is the low `ceil(log2(width))` bits of the first word of the shift-amount state.
//! If any of those bits is not a valid `0` or `1`, every word of the output becomes undefined.
//! Shifted-in bits are `0`, and high impedance input bits come out undefined.
use vstd::prelude::*;
use crate::bit_width::{BitWidth, low_mask, clog2_nat};
use crate::logic_bit::{LogicBitState, high_z_to_undefined_bit, bit_state};
use crate::logic_state::LogicState;
use crate::ops::state_word_bit;
use crate::word::{bit_of, plane_bit, group_word_bits};

verus! {

broadcast use {group_word_bits, LogicState::lemma_plane_len};

/// Bit `j` of `x << b`
pub proof fn lemma_bit_shl(x: u32, b: u32, j: u32)
    requires
        b < 32,
        j < 32,
    ensures
        bit_of(x << b, j) == (j >= b && bit_of(x, (j - b) as u32)),
{
    assert((((x << b) >> j) & 1u32 == 1u32) == (j >= b && ((x >> ((j - b) as u32)) & 1u32 == 1u32)))
        by (bit_vector)
        requires
            b < 32,
            j < 32,
    ;
}

/// Bit `j` of `x >> b`
pub proof fn lemma_bit_shr(x: u32, b: u32, j: u32)
    requires
        b < 32,
        j < 32,
    ensures
        bit_of(x >> b, j) == (j + b < 32 && bit_of(x, (j + b) as u32)),
{
    assert((((x >> b) >> j) & 1u32 == 1u32) == (j + b < 32 && ((x >> ((j + b) as u32)) & 1u32
        == 1u32))) by (bit_vector)
        requires
            b < 32,
            j < 32,
    ;
}

/// The word pair a shifter reads as its amount: the low `ceil(log2(width))` bits of the first
/// word of each plane of the shift-amount state
pub open spec fn shift_amount_word(shift_amount: LogicState, width: BitWidth) -> [u32; 2] {
    let mask = low_mask(clog2_nat(width.width()));
    [shift_amount.spec_plane_0()[0] & mask, shift_amount.spec_plane_1()[0] & mask]
}

/// The bit at global position `g` of the words of a state
pub open spec fn global_bit(s: LogicState, g: int) -> LogicBitState {
    state_word_bit(s, g / 32, (g % 32) as u32)
}

/// Bit `j` of word `d` of `input` shifted left by `s`
pub open spec fn shl_bit(input: LogicState, s: u32, d: int, j: u32) -> LogicBitState {
    let g = 32 * d + j - s;
    if g >= 0 {
        high_z_to_undefined_bit(global_bit(input, g))
    } else {
        LogicBitState::Logic0
    }
}

/// Bit `j` of word `d` of `input` shifted right by `s`, filling with `0`
pub open spec fn lshr_bit(input: LogicState, s: u32, d: int, j: u32) -> LogicBitState {
    let g = 32 * d + j + s;
    if g < 32 * input.bit_width().spec_word_len() {
        high_z_to_undefined_bit(global_bit(input, g))
    } else {
        LogicBitState::Logic0
    }
}

/// What a shifter leaves in `output`, given the bit that each word of a valid shift holds:
/// a copy of the input when the width is `1`, all-undefined words when the amount is not
/// valid, and `bit(s, d, j)` in bit `j` of word `d` otherwise
pub open spec fn shifted(
    output: LogicState,
    input: LogicState,
    shift_amount: LogicState,
    bit: spec_fn(u32, int, u32) -> LogicBitState,
) -> bool {
    let width = input.bit_width();
    let wl = width.spec_word_len() as int;
    let a = shift_amount_word(shift_amount, width);
    &&& output.bit_width() == width
    &&& width.width() == 1 ==> output@ == input@
    &&& width.width() > 1 && a[1] != 0 ==> forall|d: int|
        0 <= d < wl ==> output.spec_word(d) == [0xffff_ffffu32, 0xffff_ffffu32]
    &&& width.width() > 1 && a[1] == 0 ==> forall|d: int, j: u32|
        0 <= d < wl && j < 32 ==> #[trigger] state_word_bit(output, d, j) == bit(a[0], d, j)
}

/// Bit `j` of a word pair after high impedance is turned into undefined
proof fn lemma_merge_bit(w0: u32, w1: u32, j: u32)
    requires
        j < 32,
    ensures
        bit_state(bit_of(w0 | w1, j), bit_of(w1, j)) == high_z_to_undefined_bit(
            bit_state(bit_of(w0, j), bit_of(w1, j)),
        ),
{
}

/// Fills the words of the output with undefined
fn fill_undefined(output: &mut LogicState)
    ensures
        final(output).bit_width() == old(output).bit_width(),
        forall|d: int|
            0 <= d < old(output).bit_width().spec_word_len() ==> final(output).spec_word(d) == [
                0xffff_ffffu32,
                0xffff_ffffu32,
            ],
{
    let word_len = output.bit_width().word_len() as usize;
    let mut d: usize = 0;
    while d < word_len
        invariant
            word_len == old(output).bit_width().spec_word_len(),
            word_len <= 8,
            d <= word_len,
            output.bit_width() == old(output).bit_width(),
            forall|m: int| 0 <= m < d ==> output.spec_word(m) == [0xffff_ffffu32, 0xffff_ffffu32],
        decreases word_len - d,
    {
        let ghost prev = *output;
        output.set_word(d, [0xffff_ffff, 0xffff_ffff]);
        assert forall|m: int| 0 <= m < d + 1 implies output.spec_word(m) == [
            0xffff_ffffu32,
            0xffff_ffffu32,
        ] by {
            if m < d {
                assert(prev.spec_word(m) == [0xffff_ffffu32, 0xffff_ffffu32]);
            }
            assert(output.spec_word(m) =~= [0xffff_ffffu32, 0xffff_ffffu32]);
        }
        d = d + 1;
    }
}

/// Reads the shift amount: `(amount, invalid bits)` for a state of the given width
fn read_shift_amount(shift_amount: &LogicState, shift_width: BitWidth, Ghost(width): Ghost<BitWidth>) -> (r: (
    u32,
    u32,
))
    requires
        shift_width.width() == clog2_nat(width.width()),
        shift_width.width() <= 8,
    ensures
        [r.0, r.1] == shift_amount_word(*shift_amount, width),
        r.0 < 256,
{
    let shift_mask = shift_width.last_word_mask();
    let w = shift_amount.get_word(0);
    let x = w[0];
    let amount = x & shift_mask;
    let invalid = w[1] & shift_mask;
    proof {
        let n = shift_width.width() as u64;
        broadcast use BitWidth::lemma_width_range;
        assert(shift_width.spec_word_len() == 1);
        assert(shift_width.spec_last_word_width() == shift_width.width());
        assert(amount <= ((1u64 << n) - 1) as u32 ==> amount < 256) by (bit_vector)
            requires
                n <= 8,
        ;
        assert(amount <= shift_mask) by (bit_vector)
            requires
                amount == x & shift_mask,
        ;
        assert([amount, invalid] =~= shift_amount_word(*shift_amount, width));
    }
    (amount, invalid)
}

/// The left shift, bit by bit: shifting a state (more than one bit wide) left by a valid
/// amount `s`, output bit `i` is input bit `i - s` where `i >= s`, with high impedance made
/// undefined, and `0` below
pub proof fn law_shl_bits(output: LogicState, input: LogicState, shift_amount: LogicState)
    requires
        input.bit_width().width() > 1,
        shift_amount_word(shift_amount, input.bit_width())[1] == 0,
        shifted(output, input, shift_amount, |s: u32, d: int, j: u32| shl_bit(input, s, d, j)),
    ensures
        ({
            let s = shift_amount_word(shift_amount, input.bit_width())[0];
            forall|i: int|
                0 <= i < input@.len() ==> #[trigger] output@[i] == if i >= s {
                    high_z_to_undefined_bit(input@[i - s])
                } else {
                    LogicBitState::Logic0
                }
        }),
{
    broadcast use BitWidth::lemma_width_range;
    let s = shift_amount_word(shift_amount, input.bit_width())[0];
    assert forall|i: int| 0 <= i < input@.len() implies #[trigger] output@[i] == if i >= s {
        high_z_to_undefined_bit(input@[i - s])
    } else {
        LogicBitState::Logic0
    } by {
        crate::ops::lemma_state_bit(output, i);
        let d = i / 32;
        let j = (i % 32) as u32;
        assert(state_word_bit(output, d, j) == shl_bit(input, s, d, j));
        assert(32 * d + j - s == i - s);
        if i >= s {
            crate::ops::lemma_state_bit(input, i - s);
        }
    }
}

/// The logical right shift, bit by bit: shifting a state (more than one bit wide) right by a
/// valid amount `s`, output bit `i` is input bit `i + s` where that lies within the width, with
/// high impedance made undefined, and `0` where `i + s` lies beyond the words of the state;
/// where the width is a multiple of 32, every bit beyond the width comes in as `0`
pub proof fn law_lshr_bits(output: LogicState, input: LogicState, shift_amount: LogicState)
    requires
        input.bit_width().width() > 1,
        shift_amount_word(shift_amount, input.bit_width())[1] == 0,
        shifted(output, input, shift_amount, |s: u32, d: int, j: u32| lshr_bit(input, s, d, j)),
    ensures
        ({
            let s = shift_amount_word(shift_amount, input.bit_width())[0];
            let w = input@.len();
            &&& forall|i: int| 0 <= i < w && i + s < w ==> #[trigger] output@[i] == high_z_to_undefined_bit(input@[i + s])
            &&& forall|i: int|
                0 <= i < w && i + s >= w && (w % 32 == 0 || i + s >= 32 * input.bit_width().spec_word_len())
                    ==> #[trigger] output@[i] == LogicBitState::Logic0
        }),
{
    broadcast use BitWidth::lemma_width_range;
    let s = shift_amount_word(shift_amount, input.bit_width())[0];
    let w = input@.len();
    let wl = input.bit_width().spec_word_len();
    assert(w <= 32 * wl);
    assert forall|i: int| 0 <= i < w && i + s < w implies #[trigger] output@[i] == high_z_to_undefined_bit(input@[i + s]) by {
        crate::ops::lemma_state_bit(output, i);
        crate::ops::lemma_state_bit(input, i + s);
        let d = i / 32;
        let j = (i % 32) as u32;
        assert(state_word_bit(output, d, j) == lshr_bit(input, s, d, j));
        assert(32 * d + j + s == i + s);
    }
    assert forall|i: int|
        0 <= i < w && i + s >= w && (w % 32 == 0 || i + s >= 32 * wl) implies #[trigger] output@[i]
        == LogicBitState::Logic0 by {
        crate::ops::lemma_state_bit(output, i);
        let d = i / 32;
        let j = (i % 32) as u32;
        assert(state_word_bit(output, d, j) == lshr_bit(input, s, d, j));
        assert(32 * d + j + s == i + s);
        if w % 32 == 0 {
            assert(w == 32 * wl);
        }
    }
}

/// Shifts `input` left, shifting in `0` bits, by the amount held in `shift_amount`
pub fn shift_left(output: &mut LogicState, input: &LogicState, shift_amount: &LogicState)
    requires
        old(output).bit_width() == input.bit_width(),
    ensures
        shifted(
            *final(output),
            *input,
            *shift_amount,
            |s: u32, d: int, j: u32| shl_bit(*input, s, d, j),
        ),
        input.bit_width().width() > 1 && shift_amount_word(*shift_amount, input.bit_width())[1] == 0 ==> forall|i: int|
            0 <= i < input@.len() ==> #[trigger] final(output)@[i] == if i >= shift_amount_word(
                *shift_amount,
                input.bit_width(),
            )[0] {
                high_z_to_undefined_bit(input@[i - shift_amount_word(*shift_amount, input.bit_width())[0]])
            } else {
                LogicBitState::Logic0
            },
{
    let bit_width = output.bit_width();
    let word_len = bit_width.word_len() as usize;
    match bit_width.clog2() {
        Some(shift_width) => {
            proof {
                broadcast use BitWidth::lemma_width_range;
                crate::bit_width::lemma_clog2_at_most_8(bit_width.width());
            }
            let (amount, invalid) = read_shift_amount(shift_amount, shift_width, Ghost(bit_width));
            if invalid == 0 {
                let word_shift = (amount / 32) as usize;
                let bit_shift = amount % 32;
                let mut d: usize = 0;
                while d < word_len
                    invariant
                        word_len == bit_width.spec_word_len(),
                        word_len <= 8,
                        d <= word_len,
                        output.bit_width() == bit_width,
                        input.bit_width() == bit_width,
                        word_shift == amount / 32,
                        bit_shift == amount % 32,
                        amount < 256,
                        forall|m: int, j: u32|
                            0 <= m < d && j < 32 ==> #[trigger] state_word_bit(*output, m, j)
                                == shl_bit(*input, amount, m, j),
                    decreases word_len - d,
                {
                    let ghost prev = *output;
                    if d >= word_shift {
                        let hi = input.get_word(d - word_shift);
                        let mut w0 = hi[0] << bit_shift;
                        let mut w1 = hi[1] << bit_shift;
                        let has_low = bit_shift > 0 && d - word_shift >= 1;
                        let mut lo: [u32; 2] = [0, 0];
                        if has_low {
                            lo = input.get_word(d - word_shift - 1);
                            w0 = w0 | (lo[0] >> (32 - bit_shift));
                            w1 = w1 | (lo[1] >> (32 - bit_shift));
                        }
                        let m0 = w0 | w1;
                        output.set_word(d, [m0, w1]);
                        proof {
                            assert forall|j: u32| j < 32 implies #[trigger] state_word_bit(
                                *output,
                                d as int,
                                j,
                            ) == shl_bit(*input, amount, d as int, j) by {
                                lemma_merge_bit(w0, w1, j);
                                lemma_bit_shl(hi[0], bit_shift, j);
                                lemma_bit_shl(hi[1], bit_shift, j);
                                let g = 32 * d + j - amount;
                                if has_low {
                                    lemma_bit_shr(lo[0], (32 - bit_shift) as u32, j);
                                    lemma_bit_shr(lo[1], (32 - bit_shift) as u32, j);
                                }
                                if j >= bit_shift {
                                    assert(g / 32 == d - word_shift);
                                    assert(g % 32 == j - bit_shift);
                                } else if has_low {
                                    assert(g / 32 == d - word_shift - 1);
                                    assert(g % 32 == j + 32 - bit_shift);
                                } else {
                                    assert(g < 0);
                                }
                            }
                        }
                    } else {
                        output.set_word(d, [0, 0]);
                        proof {
                            assert forall|j: u32| j < 32 implies #[trigger] state_word_bit(
                                *output,
                                d as int,
                                j,
                            ) == shl_bit(*input, amount, d as int, j) by {
                                assert(32 * d + j < amount);
                            }
                        }
                    }
                    assert forall|m: int, j: u32| 0 <= m < d && j < 32 implies #[trigger] state_word_bit(
                        *output,
                        m,
                        j,
                    ) == shl_bit(*input, amount, m, j) by {
                        assert(state_word_bit(*output, m, j) == state_word_bit(prev, m, j));
                    }
                    d = d + 1;
                }
            } else {
                fill_undefined(output);
            }
        },
        None => {
            let _ = output.copy_from(input);
        },
    }
    proof {
        if input.bit_width().width() > 1 && shift_amount_word(*shift_amount, input.bit_width())[1] == 0 {
            law_shl_bits(*output, *input, *shift_amount);
        }
    }
}

/// Shifts `input` right, shifting in `0` bits, by the amount held in `shift_amount`
pub fn shift_right_logical(output: &mut LogicState, input: &LogicState, shift_amount: &LogicState)
    requires
        old(output).bit_width() == input.bit_width(),
    ensures
        shifted(
            *final(output),
            *input,
            *shift_amount,
            |s: u32, d: int, j: u32| lshr_bit(*input, s, d, j),
        ),
        input.bit_width().width() > 1 && shift_amount_word(*shift_amount, input.bit_width())[1] == 0 ==> forall|i: int|
            0 <= i < input@.len() && i + shift_amount_word(*shift_amount, input.bit_width())[0] < input@.len()
                ==> #[trigger] final(output)@[i] == high_z_to_undefined_bit(
                input@[i + shift_amount_word(*shift_amount, input.bit_width())[0]],
            ),
        input.bit_width().width() > 1 && shift_amount_word(*shift_amount, input.bit_width())[1] == 0 ==> forall|i: int|
            0 <= i < input@.len() && i + shift_amount_word(*shift_amount, input.bit_width())[0] >= input@.len() && (
            input@.len() % 32 == 0 || i + shift_amount_word(*shift_amount, input.bit_width())[0] >= 32
                * input.bit_width().spec_word_len()) ==> #[trigger] final(output)@[i] == LogicBitState::Logic0,
{
    let bit_width = output.bit_width();
    let word_len = bit_width.word_len() as usize;
    match bit_width.clog2() {
        Some(shift_width) => {
            proof {
                broadcast use BitWidth::lemma_width_range;
                crate::bit_width::lemma_clog2_at_most_8(bit_width.width());
            }
            let (amount, invalid) = read_shift_amount(shift_amount, shift_width, Ghost(bit_width));
            if invalid == 0 {
                let word_shift = (amount / 32) as usize;
                let bit_shift = amount % 32;
                let mut d: usize = 0;
                while d < word_len
                    invariant
                        word_len == bit_width.spec_word_len(),
                        word_len <= 8,
                        d <= word_len,
                        output.bit_width() == bit_width,
                        input.bit_width() == bit_width,
                        word_shift == amount / 32,
                        bit_shift == amount % 32,
                        amount < 256,
                        forall|m: int, j: u32|
                            0 <= m < d && j < 32 ==> #[trigger] state_word_bit(*output, m, j)
                                == lshr_bit(*input, amount, m, j),
                    decreases word_len - d,
                {
                    let ghost prev = *output;
                    let src_low = d + word_shift;
                    if src_low < word_len {
                        let lo = input.get_word(src_low);
                        let mut w0 = lo[0] >> bit_shift;
                        let mut w1 = lo[1] >> bit_shift;
                        let has_high = src_low + 1 < word_len && bit_shift > 0;
                        let mut hi: [u32; 2] = [0, 0];
                        if has_high {
                            hi = input.get_word(src_low + 1);
                            w0 = w0 | (hi[0] << (32 - bit_shift));
                            w1 = w1 | (hi[1] << (32 - bit_shift));
                        }
                        let m0 = w0 | w1;
                        output.set_word(d, [m0, w1]);
                        proof {
                            assert forall|j: u32| j < 32 implies #[trigger] state_word_bit(
                                *output,
                                d as int,
                                j,
                            ) == lshr_bit(*input, amount, d as int, j) by {
                                lemma_merge_bit(w0, w1, j);
                                lemma_bit_shr(lo[0], bit_shift, j);
                                lemma_bit_shr(lo[1], bit_shift, j);
                                let g = 32 * d + j + amount;
                                if has_high {
                                    lemma_bit_shl(hi[0], (32 - bit_shift) as u32, j);
                                    lemma_bit_shl(hi[1], (32 - bit_shift) as u32, j);
                                }
                                if j + bit_shift < 32 {
                                    assert(g / 32 == src_low);
                                    assert(g % 32 == j + bit_shift);
                                } else if has_high {
                                    assert(g / 32 == src_low + 1);
                                    assert(g % 32 == j + bit_shift - 32);
                                } else {
                                    assert(g >= 32 * word_len);
                                }
                            }
                        }
                    } else {
                        output.set_word(d, [0, 0]);
                        proof {
                            assert forall|j: u32| j < 32 implies #[trigger] state_word_bit(
                                *output,
                                d as int,
                                j,
                            ) == lshr_bit(*input, amount, d as int, j) by {
                                assert(32 * d + j + amount >= 32 * word_len);
                            }
                        }
                    }
                    assert forall|m: int, j: u32| 0 <= m < d && j < 32 implies #[trigger] state_word_bit(
                        *output,
                        m,
                        j,
                    ) == lshr_bit(*input, amount, m, j) by {
                        assert(state_word_bit(*output, m, j) == state_word_bit(prev, m, j));
                    }
                    d = d + 1;
                }
            } else {
                fill_undefined(output);
            }
        },
        None => {
            let _ = output.copy_from(input);
        },
    }
    proof {
        if input.bit_width().width() > 1 && shift_amount_word(*shift_amount, input.bit_width())[1] == 0 {
            law_lshr_bits(*output, *input, *shift_amount);
        }
    }
}

/// Arithmetic right shift of a 32-bit two's complement word: the sign bit fills the vacated
/// bits, and every bit for shifts of 32 or more
pub open spec fn spec_asr(y: u32, n: u32) -> u32 {
    if n >= 32 {
        if y >> 31u32 == 1 {
            0xffff_ffffu32
        } else {
            0u32
        }
    } else if y >> 31u32 == 1 {
        (y >> n) | !(0xffff_ffffu32 >> n)
    } else {
        y >> n
    }
}

/// Arithmetic right shift of a 32-bit two's complement word
fn asr(y: u32, n: u32) -> (r: u32)
    ensures
        r == spec_asr(y, n),
{
    let negative = y >> 31 == 1;
    if n >= 32 {
        if negative {
            0xffff_ffff
        } else {
            0
        }
    } else if negative {
        (y >> n) | !(0xffff_ffffu32 >> n)
    } else {
        y >> n
    }
}

/// The top word of a plane shifted right by `bit_shift`, sign-extended from the last bit of
/// the width (`lww` bits of the word are used)
pub open spec fn ashr_top(w: u32, lww: u32, bit_shift: u32) -> u32 {
    spec_asr(w << ((32 - lww) as u32), (32 - lww + bit_shift) as u32)
}

/// Word `d` of both planes of `input` shifted right arithmetically by `s`, before high
/// impedance is merged into undefined
pub open spec fn ashr_raw_word(input: LogicState, s: u32, d: int) -> [u32; 2] {
    let wl = input.bit_width().spec_word_len() as int;
    let lww = input.bit_width().spec_last_word_width() as u32;
    let bs = s % 32;
    let sl = d + (s / 32) as int;
    if sl + 1 < wl && bs > 0 {
        [
            (input.spec_plane_0()[sl] >> bs) | (input.spec_plane_0()[sl + 1] << ((32 - bs) as u32)),
            (input.spec_plane_1()[sl] >> bs) | (input.spec_plane_1()[sl + 1] << ((32 - bs) as u32)),
        ]
    } else if sl + 1 < wl {
        [input.spec_plane_0()[sl], input.spec_plane_1()[sl]]
    } else {
        [ashr_top(input.spec_plane_0()[sl], lww, bs), ashr_top(input.spec_plane_1()[sl], lww, bs)]
    }
}

/// The words that fill the output above the shifted words: the sign of the highest shifted
/// word, or `0` when no word was shifted
pub open spec fn ashr_extend(input: LogicState, s: u32) -> [u32; 2] {
    let wl = input.bit_width().spec_word_len() as int;
    let d0 = wl - 1 - (s / 32) as int;
    if d0 >= 0 {
        let t = ashr_raw_word(input, s, d0);
        [spec_asr(t[0], 31), spec_asr(t[1], 31)]
    } else {
        [0u32, 0u32]
    }
}

/// Word `d` of `input` shifted right arithmetically by `s`
pub open spec fn ashr_word(input: LogicState, s: u32, d: int) -> [u32; 2] {
    let wl = input.bit_width().spec_word_len() as int;
    if d + ((s / 32) as int) < wl {
        let t = ashr_raw_word(input, s, d);
        [t[0] | t[1], t[1]]
    } else {
        ashr_extend(input, s)
    }
}

/// Bit `j` of an arithmetic right shift by `n`: bit `j + n` of the word, or its sign bit where
/// that lies beyond the word
proof fn lemma_asr_bit(y: u32, n: u32, j: u32)
    requires
        j < 32,
    ensures
        bit_of(spec_asr(y, n), j) == if j + n < 32 {
            bit_of(y, (j + n) as u32)
        } else {
            bit_of(y, 31)
        },
{
    assert(((y >> 31u32) & 1u32 == 1u32) == (y >> 31u32 == 1u32)) by (bit_vector);
    if n < 32 {
        if y >> 31u32 == 1 {
            if j + n < 32 {
                let m = (j + n) as u32;
                assert(((((y >> n) | !(0xffff_ffffu32 >> n)) >> j) & 1u32 == 1u32) == ((y >> m) & 1u32 == 1u32))
                    by (bit_vector)
                    requires
                        y >> 31u32 == 1u32,
                        n < 32,
                        j < 32,
                        m == j + n,
                        m < 32,
                ;
            } else {
                assert((((y >> n) | !(0xffff_ffffu32 >> n)) >> j) & 1u32 == 1u32) by (bit_vector)
                    requires
                        y >> 31u32 == 1u32,
                        n < 32,
                        j < 32,
                        j + n >= 32,
                ;
            }
        } else {
            if j + n < 32 {
                let m = (j + n) as u32;
                assert((((y >> n) >> j) & 1u32 == 1u32) == ((y >> m) & 1u32 == 1u32)) by (bit_vector)
                    requires
                        n < 32,
                        j < 32,
                        m == j + n,
                ;
            } else {
                assert(!((((y >> n) >> j) & 1u32 == 1u32))) by (bit_vector)
                    requires
                        y >> 31u32 != 1u32,
                        n < 32,
                        j < 32,
                        j + n >= 32,
                ;
            }
        }
    }
}

/// Bit `j` of the top word of a plane shifted right by `bs`, sign-extended from bit `lww - 1`
proof fn lemma_top_bit(w: u32, lww: u32, bs: u32, j: u32)
    requires
        1 <= lww <= 32,
        bs < 32,
        j < 32,
    ensures
        bit_of(ashr_top(w, lww, bs), j) == if j + bs < lww {
            bit_of(w, (j + bs) as u32)
        } else {
            bit_of(w, (lww - 1) as u32)
        },
{
    let k = (32 - lww) as u32;
    let n = (32 - lww + bs) as u32;
    lemma_asr_bit(w << k, n, j);
    if j + n < 32 {
        lemma_bit_shl(w, k, (j + n) as u32);
    } else {
        lemma_bit_shl(w, k, 31);
    }
}

/// Bit `j` of a word made of the upper bits of `lo` and the lower bits of `hi`
proof fn lemma_two_word_bit(lo: u32, hi: u32, bs: u32, j: u32)
    requires
        0 < bs < 32,
        j < 32,
    ensures
        bit_of((lo >> bs) | (hi << ((32 - bs) as u32)), j) == if j + bs < 32 {
            bit_of(lo, (j + bs) as u32)
        } else {
            bit_of(hi, (j + bs - 32) as u32)
        },
{
    lemma_bit_shr(lo, bs, j);
    lemma_bit_shl(hi, (32 - bs) as u32, j);
}

/// Bit `j` of word `d` of the shift, before high impedance is merged into undefined: the
/// input bit `g = 32 * d + j + s` where that lies within the width, and the sign bit (the
/// last bit of the width) where it lies beyond, unless the word takes bits from beyond the
/// width of the input's top word
proof fn lemma_ashr_raw_bit(input: LogicState, s: u32, d: int, j: u32)
    requires
        input.bit_width().width() > 1,
        0 <= d,
        d + ((s / 32) as int) < input.bit_width().spec_word_len(),
        j < 32,
    ensures
        ({
            let t = ashr_raw_word(input, s, d);
            let w = input.bit_width().width() as int;
            let g = 32 * d + j + s;
            let wl = input.bit_width().spec_word_len() as int;
            &&& g < w ==> bit_of(t[0], j) == plane_bit(input.spec_plane_0(), g) && bit_of(t[1], j) == plane_bit(
                input.spec_plane_1(),
                g,
            )
            &&& g >= w && (d + ((s / 32) as int) + 1 >= wl || s % 32 == 0) ==> bit_of(t[0], j) == plane_bit(
                input.spec_plane_0(),
                w - 1,
            ) && bit_of(t[1], j) == plane_bit(input.spec_plane_1(), w - 1)
        }),
{
    broadcast use BitWidth::lemma_width_range;
    let w = input.bit_width().width() as int;
    let wl = input.bit_width().spec_word_len() as int;
    let lww = input.bit_width().spec_last_word_width() as u32;
    let bs = s % 32;
    let sl = d + ((s / 32) as int);
    let g = 32 * d + j + s;
    let p0 = input.spec_plane_0();
    let p1 = input.spec_plane_1();
    assert(g == 32 * sl + j + bs);
    assert(w == 32 * (wl - 1) + lww);
    assert(1 <= lww <= 32);
    assert((w - 1) / 32 == wl - 1 && (w - 1) % 32 == lww - 1);
    if sl + 1 < wl && bs > 0 {
        lemma_two_word_bit(p0[sl], p0[sl + 1], bs, j);
        lemma_two_word_bit(p1[sl], p1[sl + 1], bs, j);
        if j + bs < 32 {
            assert(g / 32 == sl && g % 32 == j + bs);
        } else {
            assert(g / 32 == sl + 1 && g % 32 == j + bs - 32);
        }
    } else if sl + 1 < wl {
        assert(g / 32 == sl && g % 32 == j);
    } else {
        lemma_top_bit(p0[sl], lww, bs, j);
        lemma_top_bit(p1[sl], lww, bs, j);
        if j + bs < lww {
            assert(g / 32 == sl && g % 32 == j + bs);
        }
    }
}

/// The arithmetic right shift, bit by bit: shifting a state of width `w` (more than one bit)
/// right by an amount `s` below the width, output bit `i` is input bit `i + s` where that lies
/// within the width, and the sign bit (input bit `w - 1`) otherwise, with high impedance made
/// undefined. Where the width is not a multiple of 32, the sign is stated for the words that
/// take no bits from beyond the width of the input's top word, and a high impedance sign bit
/// is left out
pub proof fn law_ashr_bits(output: Seq<LogicBitState>, input: LogicState, s: u32)
    requires
        input.bit_width().width() > 1,
        s < input.bit_width().width(),
        output == crate::component::words_view(input.bit_width().width(), |k: int| ashr_word(input, s, k)),
    ensures
        forall|i: int|
            0 <= i < input@.len() && i + s < input@.len() ==> #[trigger] output[i] == high_z_to_undefined_bit(
                input@[i + s],
            ),
        forall|i: int|
            0 <= i < input@.len() && i + s >= input@.len() && input@[input@.len() - 1] != LogicBitState::HighZ && (
            input@.len() % 32 == 0 || i / 32 + ((s / 32) as int) + 1 >= input.bit_width().spec_word_len()
                || s % 32 == 0) ==> #[trigger] output[i] == high_z_to_undefined_bit(input@[input@.len() - 1]),
{
    broadcast use BitWidth::lemma_width_range;
    let w = input.bit_width().width() as int;
    let wl = input.bit_width().spec_word_len() as int;
    assert forall|i: int| 0 <= i < input@.len() && i + s < input@.len() implies #[trigger] output[i]
        == high_z_to_undefined_bit(input@[i + s]) by {
        let d = i / 32;
        let j = (i % 32) as u32;
        crate::ops::lemma_state_bit(input, i + s);
        assert(d + ((s / 32) as int) < wl) by {
            assert(32 * (d + ((s / 32) as int)) <= i + s);
        }
        lemma_ashr_raw_bit(input, s, d, j);
        let t = ashr_raw_word(input, s, d);
        lemma_merge_bit(t[0], t[1], j);
        assert(32 * d + j + s == i + s);
    }
    assert forall|i: int|
        0 <= i < input@.len() && i + s >= input@.len() && input@[input@.len() - 1] != LogicBitState::HighZ && (
        input@.len() % 32 == 0 || i / 32 + ((s / 32) as int) + 1 >= input.bit_width().spec_word_len() || s % 32
            == 0) implies #[trigger] output[i] == high_z_to_undefined_bit(input@[input@.len() - 1]) by {
        let d = i / 32;
        let j = (i % 32) as u32;
        crate::ops::lemma_state_bit(input, w - 1);
        if d + ((s / 32) as int) < wl {
            if w % 32 == 0 && !(d + ((s / 32) as int) + 1 >= wl || s % 32 == 0) {
                assert(w == 32 * wl);
                assert(i + s < 32 * (d + ((s / 32) as int) + 2));
            }
            lemma_ashr_raw_bit(input, s, d, j);
            let t = ashr_raw_word(input, s, d);
            lemma_merge_bit(t[0], t[1], j);
            assert(32 * d + j + s == i + s);
        } else {
            let d0 = wl - 1 - ((s / 32) as int);
            assert(d0 >= 0) by {
                assert(s / 32 <= (w - 1) / 32);
            }
            lemma_ashr_raw_bit(input, s, d0, 31);
            let t = ashr_raw_word(input, s, d0);
            lemma_asr_bit(t[0], 31, j);
            lemma_asr_bit(t[1], 31, j);
            assert(32 * d0 + 31 + s >= w - 1) by {
                assert(32 * ((s / 32) as int) + s % 32 == s);
            }
        }
    }
}

/// Shifts `input` right, filling with its sign bit, by the amount held in `shift_amount`
///
/// Each word below the top takes its bits from the input words the shift brings down; the
/// top word of the input is sign-extended from the last bit of the width, and its sign fills
/// the words above; see `ashr_word`.
pub fn shift_right_arithmetic(output: &mut LogicState, input: &LogicState, shift_amount: &LogicState)
    requires
        old(output).bit_width() == input.bit_width(),
    ensures
        ({
            let width = input.bit_width();
            let a = shift_amount_word(*shift_amount, width);
            &&& final(output).bit_width() == width
            &&& width.width() == 1 ==> final(output)@ == input@
            &&& width.width() > 1 && a[1] != 0 ==> forall|d: int|
                0 <= d < width.spec_word_len() ==> final(output).spec_word(d) == [
                    0xffff_ffffu32,
                    0xffff_ffffu32,
                ]
            &&& width.width() > 1 && a[1] == 0 ==> forall|d: int|
                0 <= d < width.spec_word_len() ==> #[trigger] final(output).spec_word(d)
                    == ashr_word(*input, a[0], d)
            &&& width.width() > 1 && a[1] == 0 && a[0] < width.width() ==> forall|i: int|
                0 <= i < input@.len() && i + a[0] < input@.len() ==> #[trigger] final(output)@[i]
                    == high_z_to_undefined_bit(input@[i + a[0]])
            &&& width.width() > 1 && a[1] == 0 && a[0] < width.width() ==> forall|i: int|
                0 <= i < input@.len() && i + a[0] >= input@.len() && input@[input@.len() - 1]
                    != LogicBitState::HighZ && (input@.len() % 32 == 0 || i / 32 + ((a[0] / 32) as int) + 1
                    >= width.spec_word_len() || a[0] % 32 == 0) ==> #[trigger] final(output)@[i]
                    == high_z_to_undefined_bit(input@[input@.len() - 1])
        }),
{
    let bit_width = output.bit_width();
    let word_len = bit_width.word_len() as usize;
    match bit_width.clog2() {
        Some(shift_width) => {
            proof {
                broadcast use BitWidth::lemma_width_range;
                crate::bit_width::lemma_clog2_at_most_8(bit_width.width());
            }
            let (amount, invalid) = read_shift_amount(shift_amount, shift_width, Ghost(bit_width));
            if invalid == 0 {
                let word_shift = (amount / 32) as usize;
                let bit_shift = amount % 32;
                let lww = bit_width.last_word_width().get();
                let mut extend: [u32; 2] = [0, 0];
                let ghost d0 = word_len - 1 - word_shift;
                let mut d: usize = 0;
                while d < word_len
                    invariant
                        word_len == bit_width.spec_word_len(),
                        1 <= word_len <= 8,
                        d <= word_len,
                        output.bit_width() == bit_width,
                        input.bit_width() == bit_width,
                        word_shift == amount / 32,
                        bit_shift == amount % 32,
                        lww == bit_width.spec_last_word_width(),
                        1 <= lww <= 32,
                        amount < 256,
                        d0 == word_len - 1 - word_shift,
                        d0 < 0 ==> extend == [0u32, 0u32],
                        d > d0 ==> extend == ashr_extend(*input, amount),
                        forall|m: int| 0 <= m < d ==> #[trigger] output.spec_word(m) == ashr_word(*input, amount, m),
                    decreases word_len - d,
                {
                    let ghost prev = *output;
                    let src_low = d + word_shift;
                    if src_low < word_len {
                        let lo = input.get_word(src_low);
                        let w0;
                        let w1;
                        if src_low + 1 < word_len && bit_shift > 0 {
                            let hi = input.get_word(src_low + 1);
                            w0 = (lo[0] >> bit_shift) | (hi[0] << (32 - bit_shift));
                            w1 = (lo[1] >> bit_shift) | (hi[1] << (32 - bit_shift));
                        } else if src_low + 1 < word_len {
                            w0 = lo[0];
                            w1 = lo[1];
                        } else {
                            let shift_up = 32 - lww;
                            let shift_down = shift_up + bit_shift;
                            w0 = asr(lo[0] << shift_up, shift_down);
                            w1 = asr(lo[1] << shift_up, shift_down);
                            extend = [asr(w0, 31), asr(w1, 31)];
                        }
                        output.set_word(d, [w0 | w1, w1]);
                        proof {
                            assert([w0, w1] =~= ashr_raw_word(*input, amount, d as int));
                            if d == d0 {
                                assert(extend =~= ashr_extend(*input, amount));
                            }
                            assert(output.spec_word(d as int) =~= ashr_word(*input, amount, d as int));
                        }
                    } else {
                        output.set_word(d, extend);
                        proof {
                            assert(output.spec_word(d as int) =~= ashr_word(*input, amount, d as int));
                        }
                    }
                    assert forall|m: int| 0 <= m < d + 1 implies #[trigger] output.spec_word(m)
                        == ashr_word(*input, amount, m) by {
                        if m < d {
                            assert(output.spec_word(m) == prev.spec_word(m));
                        }
                    }
                    d = d + 1;
                }
                proof {
                    if amount < bit_width.width() {
                        crate::component::lemma_words_view(*output, |k: int| ashr_word(*input, amount, k));
                        law_ashr_bits(output@, *input, amount);
                    }
                }
            } else {
                fill_undefined(output);
            }
        },
        None => {
            let _ = output.copy_from(input);
        },
    }
}

} // verus!
