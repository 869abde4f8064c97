//! Interleaving of two bit planes into a stream of two-bit codes, and the iterator over the
//! bits of a state that is built on it.
use vstd::prelude::*;
use crate::logic_bit::{LogicBitState, bit_state, spec_to_bits};
use crate::word::{bit_of, plane_bit};

verus! {

/// Spreads the 32 bits of `v` to the even bit positions of a 64-bit word
pub open spec fn spec_space_out_bits(v: u32) -> u64 {
    let v = v as u64;
    let v = (v | (v << 16u64)) & 0x0000FFFF0000FFFFu64;
    let v = (v | (v << 8u64)) & 0x00FF00FF00FF00FFu64;
    let v = (v | (v << 4u64)) & 0x0F0F0F0F0F0F0F0Fu64;
    let v = (v | (v << 2u64)) & 0x3333333333333333u64;
    let v = (v | (v << 1u64)) & 0x5555555555555555u64;
    v
}

/// Bit `t` of `a` at position `2t` and bit `t` of `b` at position `2t + 1`
pub open spec fn spec_interleave_bits(a: u32, b: u32) -> u64 {
    spec_space_out_bits(a) | (spec_space_out_bits(b) << 1u64)
}

/// Spreads the 32 bits of `v` to the even bit positions of a 64-bit word
pub fn space_out_bits(v: u32) -> (r: u64)
    ensures
        r == spec_space_out_bits(v),
{
    let v = v as u64;
    let v = (v | (v << 16u64)) & 0x0000FFFF0000FFFFu64;
    let v = (v | (v << 8u64)) & 0x00FF00FF00FF00FFu64;
    let v = (v | (v << 4u64)) & 0x0F0F0F0F0F0F0F0Fu64;
    let v = (v | (v << 2u64)) & 0x3333333333333333u64;
    let v = (v | (v << 1u64)) & 0x5555555555555555u64;
    v
}

/// Interleaves the bits of two words: bit `t` of `a` goes to position `2t`,
/// bit `t` of `b` to position `2t + 1`
pub fn interleave_bits(ab: (u32, u32)) -> (r: u64)
    ensures
        r == spec_interleave_bits(ab.0, ab.1),
{
    let a = space_out_bits(ab.0);
    let b = space_out_bits(ab.1);
    a | (b << 1u64)
}

/// The two-bit code at position `t` of an interleaved word is bit `t` of both planes
pub proof fn lemma_interleave(a: u32, b: u32, t: u64)
    requires
        t < 32,
    ensures
        ((spec_interleave_bits(a, b) >> (2 * t)) & 1u64 == 1u64) == bit_of(a, t as u32),
        ((spec_interleave_bits(a, b) >> (2 * t)) & 2u64 == 2u64) == bit_of(b, t as u32),
        (spec_interleave_bits(a, b) >> (2 * t)) & 3u64 < 4,
{
    let tt = t as u32;
    assert(((spec_interleave_bits(a, b) >> (2 * t)) & 1u64 == 1u64) == ((a >> tt) & 1u32 == 1u32))
        by (bit_vector)
        requires
            t < 32,
            tt == t,
    ;
    assert(((spec_interleave_bits(a, b) >> (2 * t)) & 2u64 == 2u64) == ((b >> tt) & 1u32 == 1u32))
        by (bit_vector)
        requires
            t < 32,
            tt == t,
    ;
    assert((spec_interleave_bits(a, b) >> (2 * t)) & 3u64 < 4) by (bit_vector);
}

/// Pairs the words of two planes and interleaves each pair
pub struct Interleave<'a> {
    bit_plane_0: &'a [u32],
    bit_plane_1: &'a [u32],
    index: usize,
}

impl<'a> Interleave<'a> {
    pub closed spec fn spec_plane_0(&self) -> Seq<u32> {
        self.bit_plane_0@
    }

    pub closed spec fn spec_plane_1(&self) -> Seq<u32> {
        self.bit_plane_1@
    }

    /// The index of the next word pair
    pub closed spec fn spec_index(&self) -> nat {
        self.index as nat
    }

    pub fn new(bit_plane_0: &'a [u32], bit_plane_1: &'a [u32]) -> (r: Interleave<'a>)
        ensures
            r.spec_plane_0() == bit_plane_0@,
            r.spec_plane_1() == bit_plane_1@,
            r.spec_index() == 0,
    {
        Interleave { bit_plane_0, bit_plane_1, index: 0 }
    }

    /// The next interleaved word pair, until the shorter plane runs out
    pub fn next(&mut self) -> (r: Option<u64>)
        ensures
            final(self).spec_plane_0() == old(self).spec_plane_0(),
            final(self).spec_plane_1() == old(self).spec_plane_1(),
            ({
                let k = old(self).spec_index() as int;
                if k < old(self).spec_plane_0().len() && k < old(self).spec_plane_1().len() {
                    &&& r == Some(
                        spec_interleave_bits(old(self).spec_plane_0()[k], old(self).spec_plane_1()[k]),
                    )
                    &&& final(self).spec_index() == k + 1
                } else {
                    &&& r is None
                    &&& final(self).spec_index() == k
                }
            }),
    {
        if self.index < self.bit_plane_0.len() && self.index < self.bit_plane_1.len() {
            let r = interleave_bits((self.bit_plane_0[self.index], self.bit_plane_1[self.index]));
            self.index = self.index + 1;
            Some(r)
        } else {
            None
        }
    }
}

/// Iterates the bits of a state, least significant first
pub struct Bits<'a> {
    bit_width: u32,
    consumed: u32,
    current: Option<u64>,
    inner: Interleave<'a>,
}

impl<'a> Bits<'a> {
    /// The planes being iterated
    pub closed spec fn spec_plane_0(&self) -> Seq<u32> {
        self.inner.spec_plane_0()
    }

    pub closed spec fn spec_plane_1(&self) -> Seq<u32> {
        self.inner.spec_plane_1()
    }

    /// The number of bits the iterator started with
    pub closed spec fn spec_total(&self) -> nat {
        (self.consumed + self.bit_width) as nat
    }

    /// The number of bits already produced
    pub closed spec fn spec_consumed(&self) -> nat {
        self.consumed as nat
    }

    /// The number of bits still to come
    pub closed spec fn spec_remaining_count(&self) -> nat {
        self.bit_width as nat
    }

    /// The bits still to come: bit `consumed + t` of the planes comes `t`-th
    pub open spec fn remaining(&self) -> Seq<LogicBitState> {
        let consumed = self.spec_consumed();
        Seq::new(
            self.spec_remaining_count(),
            |t: int|
                bit_state(
                    plane_bit(self.spec_plane_0(), consumed + t),
                    plane_bit(self.spec_plane_1(), consumed + t),
                ),
        )
    }

    pub closed spec fn wf(&self) -> bool {
        let total = (self.consumed + self.bit_width) as nat;
        let pos = self.consumed as int;
        &&& total <= 256
        &&& self.inner.spec_plane_0().len() == self.inner.spec_plane_1().len()
        &&& total <= 32 * self.inner.spec_plane_0().len()
        &&& self.bit_width > 0 ==> {
            &&& self.inner.spec_index() == pos / 32 + 1
            &&& self.current == Some(
                spec_interleave_bits(
                    self.inner.spec_plane_0()[pos / 32],
                    self.inner.spec_plane_1()[pos / 32],
                ) >> (2 * (pos % 32)) as u64,
            )
        }
    }

    /// Starts iterating `bit_width` bits of the given planes
    pub fn new(bit_width: u32, bit_plane_0: &'a [u32], bit_plane_1: &'a [u32]) -> (r: Bits<'a>)
        requires
            1 <= bit_width <= 256,
            bit_plane_0@.len() == bit_plane_1@.len(),
            (bit_plane_0@.len() - 1) * 32 < bit_width <= bit_plane_0@.len() * 32,
        ensures
            r.wf(),
            r.spec_plane_0() == bit_plane_0@,
            r.spec_plane_1() == bit_plane_1@,
            r.spec_total() == bit_width,
            r.spec_consumed() == 0,
            r.spec_remaining_count() == bit_width,
    {
        let mut inner = Interleave::new(bit_plane_0, bit_plane_1);
        let current = inner.next();
        proof {
            let x = spec_interleave_bits(bit_plane_0@[0], bit_plane_1@[0]);
            assert(x >> 0u64 == x) by (bit_vector);
        }
        Bits { bit_width, consumed: 0, current, inner }
    }

    /// The next bit, if any
    pub fn next(&mut self) -> (r: Option<LogicBitState>)
        requires
            old(self).wf(),
        ensures
            final(self).wf(),
            final(self).spec_plane_0() == old(self).spec_plane_0(),
            final(self).spec_plane_1() == old(self).spec_plane_1(),
            final(self).spec_total() == old(self).spec_total(),
            old(self).remaining().len() == 0 ==> r is None && final(self).remaining()
                == old(self).remaining(),
            old(self).remaining().len() > 0 ==> r == Some(old(self).remaining()[0])
                && final(self).remaining() == old(self).remaining().drop_first(),
    {
        if self.bit_width == 0 {
            return None;
        }
        let ghost pos = self.consumed as int;
        let ghost k = pos / 32;
        let ghost s = pos % 32;
        let ghost x = spec_interleave_bits(self.inner.spec_plane_0()[k], self.inner.spec_plane_1()[k]);
        match self.current {
            Some(current) => {
                let code = current & 3;
                proof {
                    lemma_interleave(
                        self.inner.spec_plane_0()[k],
                        self.inner.spec_plane_1()[k],
                        s as u64,
                    );
                    let sh = (2 * s) as u64;
                    let xs = x >> sh;
                    assert(current == xs);
                    assert((code & 1u64 == 1u64) == (xs & 1u64 == 1u64) && (code & 2u64 == 2u64) == (
                    xs & 2u64 == 2u64) && code < 4) by (bit_vector)
                        requires
                            code == current & 3u64,
                            current == xs,
                    ;
                    assert((code % 2 == 1) == (code & 1u64 == 1u64) && (code >= 2) == (code & 2u64
                        == 2u64)) by (bit_vector)
                        requires
                            code < 4,
                    ;
                }
                let bit_state = LogicBitState::from_bits(code as u8);
                self.bit_width = self.bit_width - 1;
                self.consumed = self.consumed + 1;
                let next_current = current >> 2u64;
                proof {
                    let ss = s as u64;
                    assert(next_current == x >> (2 * (ss + 1))) by (bit_vector)
                        requires
                            ss < 32,
                            current == x >> (2 * ss),
                            next_current == current >> 2u64,
                    ;
                }
                self.current = Some(next_current);
                let ghost new_pos = pos + 1;
                if self.consumed % 32 == 0 {
                    self.current = self.inner.next();
                    proof {
                        if self.bit_width > 0 {
                            assert(new_pos / 32 == k + 1 && new_pos % 32 == 0);
                            let y = spec_interleave_bits(
                                self.inner.spec_plane_0()[k + 1],
                                self.inner.spec_plane_1()[k + 1],
                            );
                            assert(y >> 0u64 == y) by (bit_vector);
                            assert(self.current == Some(y));
                        }
                    }
                } else {
                    proof {
                        assert(new_pos / 32 == k && new_pos % 32 == s + 1);
                        assert((2 * (new_pos % 32)) as u64 == 2 * ((s as u64) + 1));
                    }
                }
                proof {
                    assert(bit_state == old(self).remaining()[0]);
                    assert(self.remaining() =~= old(self).remaining().drop_first());
                }
                Some(bit_state)
            },
            None => {
                assert(false);
                None
            },
        }
    }
}

} // verus!
