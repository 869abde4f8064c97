//! The width of a wire or register, in bits.
use vstd::prelude::*;
use crate::word::bit_of;
use vstd::std_specs::convert::{FromSpecImpl, TryFromSpecImpl};

verus! {

/// The number of bits in a word of a bit plane
pub const WORD_BITS: u32 = 32;

/// The number of bits in a wire or register (between 1 and 256 inclusive)
///
/// The stored byte is the width minus one.
#[derive(Debug, Clone, Copy, PartialEq, Eq, Hash, Structural)]
pub struct BitWidth(u8);

impl BitWidth {
    /// The width as a mathematical integer
    pub closed spec fn width(self) -> nat {
        (self.0 + 1) as nat
    }

    /// Every width lies between 1 and 256
    pub broadcast proof fn lemma_width_range(self)
        ensures
            1 <= #[trigger] self.width() <= 256,
    {
    }

    /// Two widths are equal exactly when their integer values are
    pub broadcast proof fn lemma_width_injective(a: BitWidth, b: BitWidth)
        ensures
            (#[trigger] a.width() == #[trigger] b.width()) <==> a == b,
    {
    }

    /// The number of 32-bit words needed to hold `width` bits
    pub open spec fn spec_word_len(self) -> nat {
        ((self.width() + 31) / 32) as nat
    }

    /// The number of bits used in the last word
    pub open spec fn spec_last_word_width(self) -> nat {
        (self.width() - (self.spec_word_len() - 1) * 32) as nat
    }

    /// The width with the given number of bits, for `1 <= value <= 256`
    pub closed spec fn spec_of(value: u32) -> BitWidth {
        BitWidth((value - 1) as u8)
    }

    /// The width of 1
    pub closed spec fn spec_min() -> BitWidth {
        BitWidth(0)
    }

    /// A width of 1
    pub fn min_width() -> (r: BitWidth)
        ensures
            r.width() == 1,
            r == Self::spec_min(),
    {
        BitWidth(0)
    }

    /// A width of 256
    pub fn max_width() -> (r: BitWidth)
        ensures
            r.width() == 256,
    {
        BitWidth(255)
    }

    /// Creates a new bit width from an integer
    ///
    /// Returns `None` unless `1 <= value <= 256`.
    pub fn new(value: u32) -> (r: Option<BitWidth>)
        ensures
            r is Some <==> 1 <= value <= 256,
            r matches Some(w) ==> w.width() == value && w == Self::spec_of(value),
    {
        if value > 0 {
            let value = value - 1;
            if value <= 255 {
                return Some(BitWidth(value as u8));
            }
        }
        None
    }

    /// Gets the width as an integer
    pub fn get(self) -> (r: u32)
        ensures
            r == self.width(),
            1 <= r <= 256,
    {
        (self.0 as u32) + 1
    }

    /// The number of 32-bit words needed to store a state of this width
    pub fn word_len(self) -> (r: u32)
        ensures
            r == self.spec_word_len(),
            1 <= r <= 8,
            (r - 1) * 32 < self.width() <= r * 32,
    {
        let w = self.get();
        (w + 31) / 32
    }

    /// The width of the last word of a state of this width
    pub fn last_word_width(self) -> (r: BitWidth)
        ensures
            r.width() == self.spec_last_word_width(),
            1 <= r.width() <= 32,
            r.width() == self.width() - (self.spec_word_len() - 1) * 32,
    {
        BitWidth(self.0 % 32)
    }
    /// A mask selecting the bits of the last word that belong to the state
    pub fn last_word_mask(self) -> (r: u32)
        ensures
            forall|j: u32| j < 32 ==> (#[trigger] bit_of(r, j) <==> j < self.spec_last_word_width()),
            r == low_mask(self.spec_last_word_width()),
    {
        let n = self.last_word_width().get();
        let n64 = n as u64;
        assert(1u64 << n64 >= 1 && (1u64 << n64) - 1 <= 0xffff_ffffu64) by (bit_vector)
            requires
                1 <= n64 <= 32,
        ;
        let r = ((1u64 << n64) - 1) as u32;
        assert(forall|j: u32| j < 32 ==> (#[trigger] bit_of(r, j) <==> j < n)) by {
            assert forall|j: u32| j < 32 implies (#[trigger] bit_of(r, j) <==> j < n) by {
                assert((((1u64 << n64) - 1) as u32 >> j) & 1u32 == 1u32 <==> (j as u64) < n64)
                    by (bit_vector)
                    requires
                        1 <= n64 <= 32,
                        j < 32,
                ;
            }
        }
        r
    }

    /// The number of bits needed to count up to (but excluding) the width,
    /// i.e. the smallest `k` with `2^k >= width`, or `None` when that is `0`
    pub fn clog2(self) -> (r: Option<BitWidth>)
        ensures
            r is None <==> self.width() == 1,
            r matches Some(k) ==> pow2(k.width()) >= self.width() && pow2(
                (k.width() - 1) as nat,
            ) < self.width(),
            r matches Some(k) ==> k.width() == clog2_nat(self.width()),
    {
        let w = self.get();
        let mut k: u32 = 0;
        let mut p: u32 = 1;
        while p < w
            invariant
                w == self.width(),
                1 <= w <= 256,
                p == pow2(k as nat),
                1 <= p,
                k <= 8,
                k == 0 || pow2((k - 1) as nat) < w,
            decreases 8 - k,
        {
            proof {
                lemma_pow2_step(k as nat);
                lemma_pow2_bound(k as nat, w as nat);
            }
            p = p * 2;
            k = k + 1;
        }
        proof {
            if k > 0 {
                lemma_clog2_nat(k as nat, w as nat);
            }
        }
        Self::new(k)
    }
}

/// `2^k`
pub open spec fn pow2(k: nat) -> nat
    decreases k,
{
    if k == 0 {
        1
    } else {
        2 * pow2((k - 1) as nat)
    }
}

proof fn lemma_pow2_step(k: nat)
    ensures
        pow2(k + 1) == 2 * pow2(k),
{
}

proof fn lemma_pow2_bound(k: nat, w: nat)
    requires
        pow2(k) < w,
        w <= 256,
    ensures
        k < 8,
    decreases k,
{
    if k >= 8 {
        lemma_pow2_at_least_256(k);
    }
}

proof fn lemma_pow2_at_least_256(k: nat)
    requires
        k >= 8,
    ensures
        pow2(k) >= 256,
    decreases k,
{
    if k > 8 {
        lemma_pow2_at_least_256((k - 1) as nat);
    } else {
        reveal_with_fuel(pow2, 9);
    }
}

/// A word whose low `n` bits are set (all 32 when `n >= 32`)
pub open spec fn low_mask(n: nat) -> u32 {
    ((1u64 << (n as u64)) - 1) as u32
}

/// `ceil(log2(w))`: the number of bits needed to count up to, but excluding, `w`
pub open spec fn clog2_nat(w: nat) -> nat
    decreases w,
{
    if w <= 1 {
        0
    } else {
        1 + clog2_nat(((w + 1) / 2) as nat)
    }
}

/// The `k` with `2^(k-1) < w <= 2^k` is `ceil(log2(w))`
proof fn lemma_clog2_nat(k: nat, w: nat)
    requires
        k >= 1,
        pow2(k) >= w,
        pow2((k - 1) as nat) < w,
    ensures
        k == clog2_nat(w),
    decreases k,
{
    let half = ((w + 1) / 2) as nat;
    if k == 1 {
        assert(pow2(1) == 2 * pow2(0));
        assert(pow2(0) == 1);
        assert(w == 2);
        assert(half == 1);
        assert(clog2_nat(1) == 0);
        assert(clog2_nat(w) == 1 + clog2_nat(half));
    } else {
        assert(pow2(k) == 2 * pow2((k - 1) as nat));
        assert(pow2((k - 1) as nat) == 2 * pow2((k - 2) as nat));
        lemma_pow2_positive((k - 2) as nat);
        assert(w > 1);
        assert(pow2((k - 1) as nat) >= half);
        assert(pow2((k - 2) as nat) < half);
        lemma_clog2_nat((k - 1) as nat, half);
        assert(clog2_nat(w) == 1 + clog2_nat(half));
    }
}

proof fn lemma_pow2_positive(k: nat)
    ensures
        pow2(k) >= 1,
    decreases k,
{
    if k > 0 {
        lemma_pow2_positive((k - 1) as nat);
    }
}

/// `ceil(log2(w))` is at most `k` when `w <= 2^k`
pub proof fn lemma_clog2_bound(w: nat, k: nat)
    requires
        w <= pow2(k),
    ensures
        clog2_nat(w) <= k,
    decreases k,
{
    if w > 1 {
        if k == 0 {
            assert(pow2(0) == 1);
        } else {
            assert(pow2(k) == 2 * pow2((k - 1) as nat));
            lemma_clog2_bound(((w + 1) / 2) as nat, (k - 1) as nat);
        }
    }
}

/// A width of at most 256 needs at most 8 bits to count its bits
pub proof fn lemma_clog2_at_most_8(w: nat)
    requires
        w <= 256,
    ensures
        clog2_nat(w) <= 8,
{
    reveal_with_fuel(pow2, 9);
    lemma_clog2_bound(w, 8);
}

impl TryFrom<u32> for BitWidth {
    type Error = ();

    fn try_from(value: u32) -> (r: Result<BitWidth, ()>) {
        match BitWidth::new(value) {
            Some(w) => Ok(w),
            None => Err(()),
        }
    }
}

impl TryFromSpecImpl<u32> for BitWidth {
    open spec fn obeys_try_from_spec() -> bool {
        true
    }

    open spec fn try_from_spec(v: u32) -> Result<BitWidth, ()> {
        if 1 <= v <= 256 {
            Ok(BitWidth::spec_of(v))
        } else {
            Err(())
        }
    }
}

impl From<BitWidth> for u32 {
    fn from(value: BitWidth) -> (r: u32) {
        value.get()
    }
}

impl FromSpecImpl<BitWidth> for u32 {
    open spec fn obeys_from_spec() -> bool {
        true
    }

    open spec fn from_spec(v: BitWidth) -> u32 {
        v.width() as u32
    }
}

} // verus!
