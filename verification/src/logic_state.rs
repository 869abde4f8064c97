//! The state of a group of bits, stored as two bit planes.
use vstd::prelude::*;
use crate::bit_width::BitWidth;
use crate::logic_bit::{
    LogicBitState, LogicStateFromStrError, bit_state, plane_0_of, plane_1_of, spec_from_bool,
    spec_from_ascii_char, spec_to_char, spec_to_ascii_char, spec_from_char,
};
use crate::interleave::Bits;
use vstd::std_specs::cmp::PartialEqSpecImpl;
use vstd::std_specs::convert::FromSpecImpl;
use vstd::string::StringSliceAdditionalSpecFns;
use vstd::string::StringExecFns;
use crate::word::{
    bit_of, plane_bit, group_word_bits, u64_bit, lemma_words_differ, lemma_bit_set, lemma_u64_halves,
};

verus! {

broadcast use group_word_bits;

/// The number of words of each bit plane (enough for 256 bits)
pub const MAX_WORD_COUNT: usize = 8;

/// The bits described by two bit planes, least significant bit first
pub open spec fn state_view(width: nat, p0: Seq<u32>, p1: Seq<u32>) -> Seq<LogicBitState> {
    Seq::new(width, |i: int| bit_state(plane_bit(p0, i), plane_bit(p1, i)))
}

/// A sequence of `width` copies of one bit
pub open spec fn uniform(width: nat, b: LogicBitState) -> Seq<LogicBitState> {
    Seq::new(width, |i: int| b)
}

/// The result of copying one state into another
#[derive(Debug, Clone, Copy, PartialEq, Eq, Hash, Structural)]
pub enum CopyFromResult {
    Unchanged,
    Changed,
}

/// The state of a group of bits
///
/// Bit `i` is stored in bit `i % 32` of word `i / 32` of both planes.
/// Bits of the last word beyond the width carry no meaning.
#[derive(Debug, Clone, Copy)]
pub struct LogicState {
    bit_width: BitWidth,
    plane_0: [u32; 8],
    plane_1: [u32; 8],
}

impl View for LogicState {
    type V = Seq<LogicBitState>;

    open spec fn view(&self) -> Seq<LogicBitState> {
        state_view(self.spec_bit_width().width(), self.spec_plane_0(), self.spec_plane_1())
    }
}

/// The bits of a number given as words (least significant first), `width` bits long
pub open spec fn big_int_view(width: nat, value: Seq<u32>) -> Seq<LogicBitState> {
    Seq::new(
        width,
        |i: int| spec_from_bool(i / 32 < value.len() && bit_of(value[i / 32], (i % 32) as u32)),
    )
}

/// Bit `i` of a plane given as words, where missing words are filled with `fill`
pub open spec fn padded_plane_bit(p: Seq<u32>, i: int, fill: bool) -> bool {
    if i / 32 < p.len() {
        bit_of(p[i / 32], (i % 32) as u32)
    } else {
        fill
    }
}

/// The characters of the display form of a sequence of bits: most significant bit first
pub open spec fn display_chars(bits: Seq<LogicBitState>) -> Seq<char> {
    Seq::new(bits.len(), |k: int| spec_to_char(bits[bits.len() - 1 - k]))
}

/// Whether a byte names a bit
pub open spec fn is_bit_char(c: u8) -> bool {
    spec_from_ascii_char(c) is Some
}

/// The bits named by an ASCII string, character `i` giving bit `i`
pub open spec fn parsed_bits(s: Seq<u8>) -> Seq<LogicBitState> {
    Seq::new(s.len(), |i: int| spec_from_ascii_char(s[i])->0)
}

/// What parsing the ASCII string `s` gives: an error for a length outside `1..=256`, else an
/// error naming the first character that does not name a bit, else the state whose bit `i` is
/// named by character `i`
pub open spec fn parse_outcome(s: Seq<u8>, r: Result<LogicState, LogicStateFromStrError>) -> bool {
    if !(1 <= s.len() <= 256) {
        r == Err::<LogicState, _>(LogicStateFromStrError::InvalidBitWidth)
    } else if forall|i: int| 0 <= i < s.len() ==> is_bit_char(#[trigger] s[i]) {
        r matches Ok(st) && st@ == parsed_bits(s) && st.bit_width().width() == s.len()
    } else {
        exists|i: int|
            0 <= i < s.len() && !is_bit_char(#[trigger] s[i]) && (forall|j: int|
                0 <= j < i ==> is_bit_char(s[j])) && r == Err::<LogicState, _>(
                LogicStateFromStrError::IllegalCharacter(s[i]),
            )
    }
}

/// The words `0..n` of a plane
pub open spec fn plane_words(p: Seq<u32>, n: nat) -> Seq<u32> {
    p.subrange(0, n as int)
}

impl LogicState {
    pub closed spec fn spec_bit_width(&self) -> BitWidth {
        self.bit_width
    }

    pub closed spec fn spec_plane_0(&self) -> Seq<u32> {
        self.plane_0@
    }

    pub closed spec fn spec_plane_1(&self) -> Seq<u32> {
        self.plane_1@
    }

    /// Both planes always hold `MAX_WORD_COUNT` words
    pub broadcast proof fn lemma_plane_len(s: LogicState)
        ensures
            (#[trigger] s.spec_plane_0()).len() == 8,
            (#[trigger] s.spec_plane_1()).len() == 8,
    {
    }

    /// Whether word `k` of both planes is the same in `self` and `other`
    pub open spec fn same_word(&self, other: &LogicState, k: int) -> bool {
        self.spec_plane_0()[k] == other.spec_plane_0()[k] && self.spec_plane_1()[k]
            == other.spec_plane_1()[k]
    }

    /// Word `k` of both planes
    pub open spec fn spec_word(&self, k: int) -> [u32; 2] {
        [self.spec_plane_0()[k], self.spec_plane_1()[k]]
    }

    /// The state of the given width whose plane words are all `w0` and all `w1`
    pub closed spec fn spec_filled(bit_width: BitWidth, w0: u32, w1: u32) -> LogicState {
        LogicState {
            bit_width,
            plane_0: [w0, w0, w0, w0, w0, w0, w0, w0],
            plane_1: [w1, w1, w1, w1, w1, w1, w1, w1],
        }
    }

    /// The state `high_z` returns
    pub open spec fn spec_high_z(bit_width: BitWidth) -> LogicState {
        Self::spec_filled(bit_width, 0, 0xffff_ffff)
    }

    /// The state `logic_0` returns
    pub open spec fn spec_logic_0(bit_width: BitWidth) -> LogicState {
        Self::spec_filled(bit_width, 0, 0)
    }

    /// The words of a filled state are the words it was filled with
    pub proof fn lemma_filled_words(bit_width: BitWidth, w0: u32, w1: u32)
        ensures
            forall|k: int|
                0 <= k < 8 ==> #[trigger] Self::spec_filled(bit_width, w0, w1).spec_plane_0()[k] == w0
                    && Self::spec_filled(bit_width, w0, w1).spec_plane_1()[k] == w1,
    {
    }

    /// A state filled with uniform words holds one bit value everywhere
    pub proof fn lemma_filled(bit_width: BitWidth, w0: u32, w1: u32)
        requires
            w0 == 0 || w0 == 0xffff_ffff,
            w1 == 0 || w1 == 0xffff_ffff,
        ensures
            Self::spec_filled(bit_width, w0, w1).bit_width() == bit_width,
            Self::spec_filled(bit_width, w0, w1)@ == uniform(
                bit_width.width(),
                bit_state(bit_of(w0, 0), bit_of(w1, 0)),
            ),
    {
        let r = Self::spec_filled(bit_width, w0, w1);
        broadcast use BitWidth::lemma_width_range;
        assert forall|i: int| 0 <= i < bit_width.width() implies #[trigger] r@[i] == bit_state(
            bit_of(w0, 0),
            bit_of(w1, 0),
        ) by {
            assert(0 <= i / 32 < 8);
            assert(r.spec_plane_0()[i / 32] == w0);
            assert(r.spec_plane_1()[i / 32] == w1);
            let j = (i % 32) as u32;
            assert(bit_of(w0, j) == bit_of(w0, 0));
            assert(bit_of(w1, j) == bit_of(w1, 0));
        }
        assert(r@ =~= uniform(bit_width.width(), bit_state(bit_of(w0, 0), bit_of(w1, 0))));
    }

    fn filled(bit_width: BitWidth, w0: u32, w1: u32) -> (r: LogicState)
        requires
            w0 == 0 || w0 == 0xffff_ffff,
            w1 == 0 || w1 == 0xffff_ffff,
        ensures
            r.spec_bit_width() == bit_width,
            forall|k: int| 0 <= k < 8 ==> r.spec_plane_0()[k] == w0 && r.spec_plane_1()[k] == w1,
            r@ == uniform(bit_width.width(), bit_state(bit_of(w0, 0), bit_of(w1, 0))),
            r == Self::spec_filled(bit_width, w0, w1),
    {
        let r = LogicState {
            bit_width,
            plane_0: [w0, w0, w0, w0, w0, w0, w0, w0],
            plane_1: [w1, w1, w1, w1, w1, w1, w1, w1],
        };
        proof {
            broadcast use BitWidth::lemma_width_range;
            assert forall|i: int| 0 <= i < bit_width.width() implies #[trigger] r@[i] == bit_state(
                bit_of(w0, 0),
                bit_of(w1, 0),
            ) by {
                assert(0 <= i / 32 < 8);
                assert(r.spec_plane_0()[i / 32] == w0);
                assert(r.spec_plane_1()[i / 32] == w1);
                let j = (i % 32) as u32;
                assert(bit_of(w0, j) == bit_of(w0, 0));
                assert(bit_of(w1, j) == bit_of(w1, 0));
            }
            assert(r@ =~= uniform(bit_width.width(), bit_state(bit_of(w0, 0), bit_of(w1, 0))));
        }
        r
    }

    /// A state with all bits having the value `0`
    pub fn logic_0(bit_width: BitWidth) -> (r: LogicState)
        ensures
            forall|k: int|
                0 <= k < 8 ==> r.spec_plane_0()[k] == 0u32 && r.spec_plane_1()[k] == 0u32,
            r == Self::spec_logic_0(bit_width),
            r.bit_width() == bit_width,
            r@ == uniform(bit_width.width(), LogicBitState::Logic0),
    {
        let r = Self::filled(bit_width, 0, 0);
        r
    }

    /// A state with all bits having the value `1`
    pub fn logic_1(bit_width: BitWidth) -> (r: LogicState)
        ensures
            forall|k: int|
                0 <= k < 8 ==> r.spec_plane_0()[k] == 0xffff_ffffu32 && r.spec_plane_1()[k] == 0u32,
            r == Self::spec_filled(bit_width, 0xffff_ffff, 0),
            r.bit_width() == bit_width,
            r@ == uniform(bit_width.width(), LogicBitState::Logic1),
    {
        let r = Self::filled(bit_width, 0xffff_ffff, 0);
        r
    }

    /// A state with all bits being in high impedance
    pub fn high_z(bit_width: BitWidth) -> (r: LogicState)
        ensures
            forall|k: int|
                0 <= k < 8 ==> r.spec_plane_0()[k] == 0u32 && r.spec_plane_1()[k] == 0xffff_ffffu32,
            r == Self::spec_high_z(bit_width),
            r.bit_width() == bit_width,
            r@ == uniform(bit_width.width(), LogicBitState::HighZ),
    {
        let r = Self::filled(bit_width, 0, 0xffff_ffff);
        r
    }

    /// A state with all bits being undefined
    pub fn undefined(bit_width: BitWidth) -> (r: LogicState)
        ensures
            forall|k: int|
                0 <= k < 8 ==> r.spec_plane_0()[k] == 0xffff_ffffu32 && r.spec_plane_1()[k] == 0xffff_ffffu32,
            r == Self::spec_filled(bit_width, 0xffff_ffff, 0xffff_ffff),
            r.bit_width() == bit_width,
            r@ == uniform(bit_width.width(), LogicBitState::Undefined),
    {
        let r = Self::filled(bit_width, 0xffff_ffff, 0xffff_ffff);
        r
    }

    /// The number of bits in this state
    #[verifier::when_used_as_spec(spec_bit_width)]
    pub fn bit_width(&self) -> (r: BitWidth)
        returns
            self.spec_bit_width(),
    {
        self.bit_width
    }
    /// Word `k` of both planes
    pub fn get_word(&self, k: usize) -> (r: [u32; 2])
        requires
            k < 8,
        ensures
            r == self.spec_word(k as int),
    {
        [self.plane_0[k], self.plane_1[k]]
    }

    /// Replaces word `k` of both planes
    pub fn set_word(&mut self, k: usize, w: [u32; 2])
        requires
            k < 8,
        ensures
            final(self).spec_bit_width() == old(self).spec_bit_width(),
            final(self).spec_plane_0() == old(self).spec_plane_0().update(k as int, w[0]),
            final(self).spec_plane_1() == old(self).spec_plane_1().update(k as int, w[1]),
    {
        self.plane_0[k] = w[0];
        self.plane_1[k] = w[1];
    }

    /// Gets a bit at a specified index
    pub fn bit(&self, index: u32) -> (r: Option<LogicBitState>)
        ensures
            r is Some <==> index < self@.len(),
            r matches Some(b) ==> b == self@[index as int],
    {
        if index >= self.bit_width.get() {
            return None;
        }
        let word_index = (index / 32) as usize;
        let bit_index = index % 32;
        let b = LogicBitState::from_planes(
            (self.plane_0[word_index] >> bit_index) & 1 == 1,
            (self.plane_1[word_index] >> bit_index) & 1 == 1,
        );
        Some(b)
    }

    /// The state `from_bit` returns
    pub open spec fn spec_from_bit(value: LogicBitState) -> LogicState {
        match value {
            LogicBitState::Logic0 => Self::spec_filled(BitWidth::spec_min(), 0, 0),
            LogicBitState::Logic1 => Self::spec_filled(BitWidth::spec_min(), 0xffff_ffff, 0),
            LogicBitState::HighZ => Self::spec_filled(BitWidth::spec_min(), 0, 0xffff_ffff),
            LogicBitState::Undefined => Self::spec_filled(
                BitWidth::spec_min(),
                0xffff_ffff,
                0xffff_ffff,
            ),
        }
    }

    /// Creates a state from a single bit
    pub fn from_bit(value: LogicBitState) -> (r: LogicState)
        ensures
            r@ == seq![value],
            r.bit_width().width() == 1,
            r == Self::spec_from_bit(value),
    {
        let w = BitWidth::min_width();
        let r = match value {
            LogicBitState::Logic0 => Self::logic_0(w),
            LogicBitState::Logic1 => Self::logic_1(w),
            LogicBitState::HighZ => Self::high_z(w),
            LogicBitState::Undefined => Self::undefined(w),
        };
        assert(r@ =~= seq![value]);
        r
    }

    /// Creates a state representing a boolean
    pub fn from_bool(value: bool) -> (r: LogicState)
        ensures
            r@ == seq![spec_from_bool(value)],
            r.bit_width().width() == 1,
    {
        let w = BitWidth::min_width();
        let r = if value {
            Self::logic_1(w)
        } else {
            Self::logic_0(w)
        };
        assert(r@ =~= seq![spec_from_bool(value)]);
        r
    }
    /// Creates a state representing a number
    pub fn from_u32(value: u32, bit_width: BitWidth) -> (r: LogicState)
        requires
            bit_width.width() <= 32,
        ensures
            r.bit_width() == bit_width,
            r@ == Seq::new(bit_width.width(), |i: int| spec_from_bool(bit_of(value, i as u32))),
    {
        let r = LogicState {
            bit_width,
            plane_0: [value, 0, 0, 0, 0, 0, 0, 0],
            plane_1: [0, 0, 0, 0, 0, 0, 0, 0],
        };
        assert(r@ =~= Seq::new(bit_width.width(), |i: int| spec_from_bool(bit_of(value, i as u32))));
        r
    }

    /// Creates a state representing a number
    pub fn from_u64(value: u64, bit_width: BitWidth) -> (r: LogicState)
        requires
            bit_width.width() <= 64,
        ensures
            r.bit_width() == bit_width,
            r@ == Seq::new(bit_width.width(), |i: int| spec_from_bool(u64_bit(value, i))),
    {
        let low = value as u32;
        let high = (value >> 32) as u32;
        let r = LogicState {
            bit_width,
            plane_0: [low, high, 0, 0, 0, 0, 0, 0],
            plane_1: [0, 0, 0, 0, 0, 0, 0, 0],
        };
        assert forall|i: int| 0 <= i < bit_width.width() implies #[trigger] r@[i] == spec_from_bool(
            u64_bit(value, i),
        ) by {
            let j = (i % 32) as u32;
            lemma_u64_halves(value, j);
        }
        assert(r@ =~= Seq::new(bit_width.width(), |i: int| spec_from_bool(u64_bit(value, i))));
        r
    }

    /// Creates a state representing a number (least significant word first)
    ///
    /// Words missing from `value` count as `0`; words beyond the width are ignored.
    pub fn from_big_int(bit_width: BitWidth, value: &[u32]) -> (r: LogicState)
        ensures
            r.bit_width() == bit_width,
            r@ == big_int_view(bit_width.width(), value@),
    {
        let word_count = bit_width.word_len() as usize;
        let copy_count = if word_count < value.len() {
            word_count
        } else {
            value.len()
        };
        let mut plane_0: [u32; 8] = [0, 0, 0, 0, 0, 0, 0, 0];
        let mut k: usize = 0;
        while k < copy_count
            invariant
                copy_count <= word_count <= 8,
                copy_count <= value@.len(),
                k <= copy_count,
                forall|m: int| 0 <= m < k ==> plane_0@[m] == value@[m],
                forall|m: int| k <= m < 8 ==> plane_0@[m] == 0,
            decreases copy_count - k,
        {
            plane_0[k] = value[k];
            k = k + 1;
        }
        let r = LogicState { bit_width, plane_0, plane_1: [0, 0, 0, 0, 0, 0, 0, 0] };
        assert forall|i: int| 0 <= i < bit_width.width() implies #[trigger] r@[i]
            == big_int_view(bit_width.width(), value@)[i] by {
            assert(i / 32 < word_count);
        }
        assert(r@ =~= big_int_view(bit_width.width(), value@));
        r
    }

    /// Creates a state from raw bit planes (least significant words first)
    ///
    /// Words missing from plane 0 count as `0`. Words missing from plane 1 count as `0` when the
    /// state fits in two words and as all ones otherwise.
    pub fn from_bit_planes(bit_width: BitWidth, bit_plane_0: &[u32], bit_plane_1: &[u32]) -> (r:
        LogicState)
        ensures
            r.bit_width() == bit_width,
            r@ == Seq::new(
                bit_width.width(),
                |i: int|
                    bit_state(
                        padded_plane_bit(bit_plane_0@, i, false),
                        padded_plane_bit(bit_plane_1@, i, bit_width.spec_word_len() > 2),
                    ),
            ),
    {
        let word_count = bit_width.word_len() as usize;
        let fill_1: u32 = if word_count <= 2 {
            0
        } else {
            0xffff_ffff
        };
        let mut plane_0: [u32; 8] = [0, 0, 0, 0, 0, 0, 0, 0];
        let mut plane_1: [u32; 8] = [fill_1, fill_1, fill_1, fill_1, fill_1, fill_1, fill_1, fill_1];
        let mut k: usize = 0;
        while k < word_count
            invariant
                word_count == bit_width.spec_word_len(),
                word_count <= 8,
                k <= word_count,
                fill_1 == (if word_count <= 2 {
                    0u32
                } else {
                    0xffff_ffffu32
                }),
                forall|m: int|
                    0 <= m < k ==> plane_0@[m] == (if m < bit_plane_0@.len() {
                        bit_plane_0@[m]
                    } else {
                        0
                    }),
                forall|m: int|
                    0 <= m < k ==> plane_1@[m] == (if m < bit_plane_1@.len() {
                        bit_plane_1@[m]
                    } else {
                        fill_1
                    }),
                forall|m: int| k <= m < 8 ==> plane_0@[m] == 0,
                forall|m: int| k <= m < 8 ==> plane_1@[m] == fill_1,
            decreases word_count - k,
        {
            if k < bit_plane_0.len() {
                plane_0[k] = bit_plane_0[k];
            }
            if k < bit_plane_1.len() {
                plane_1[k] = bit_plane_1[k];
            }
            k = k + 1;
        }
        let r = LogicState { bit_width, plane_0, plane_1 };
        let ghost expected = Seq::new(
            bit_width.width(),
            |i: int|
                bit_state(
                    padded_plane_bit(bit_plane_0@, i, false),
                    padded_plane_bit(bit_plane_1@, i, bit_width.spec_word_len() > 2),
                ),
        );
        assert forall|i: int| 0 <= i < bit_width.width() implies #[trigger] r@[i] == expected[i] by {
            assert(i / 32 < word_count);
        }
        assert(r@ =~= expected);
        r
    }

    /// Creates a state with the specified bits (least significant bit first)
    #[verifier::rlimit(30)]
    pub fn from_bits(bits: &[LogicBitState]) -> (r: LogicState)
        requires
            1 <= bits@.len() <= 256,
        ensures
            r@ == bits@,
            r.bit_width().width() == bits@.len(),
    {
        let bit_width = BitWidth::new(bits.len() as u32).unwrap();
        let mut plane_0: [u32; 8] = [0, 0, 0, 0, 0, 0, 0, 0];
        let mut plane_1: [u32; 8] = [0, 0, 0, 0, 0, 0, 0, 0];
        let mut i: usize = 0;
        while i < bits.len()
            invariant
                bits@.len() <= 256,
                i <= bits@.len(),
                forall|m: int|
                    0 <= m < i ==> #[trigger] bit_state(plane_bit(plane_0@, m), plane_bit(plane_1@, m))
                        == bits@[m],
                forall|m: int| i <= m < 256 ==> !#[trigger] plane_bit(plane_0@, m),
                forall|m: int| i <= m < 256 ==> !#[trigger] plane_bit(plane_1@, m),
            decreases bits@.len() - i,
        {
            let code = bits[i].to_bits();
            let bit_0: u32 = (code % 2) as u32;
            let bit_1: u32 = (code / 2) as u32;
            let word_index = i / 32;
            let bit_index = (i % 32) as u32;
            let ghost old_0 = plane_0@;
            let ghost old_1 = plane_1@;
            plane_0[word_index] = plane_0[word_index] | (bit_0 << bit_index);
            plane_1[word_index] = plane_1[word_index] | (bit_1 << bit_index);
            proof {
                assert forall|m: int| 0 <= m < 256 implies plane_bit(plane_0@, m) == (plane_bit(
                    old_0,
                    m,
                ) || (m == i && bit_0 == 1)) && plane_bit(plane_1@, m) == (plane_bit(old_1, m) || (m
                    == i && bit_1 == 1)) by {
                    let mj = (m % 32) as u32;
                    if m / 32 == word_index {
                        lemma_bit_set(old_0[m / 32], bit_0, bit_index, mj);
                        lemma_bit_set(old_1[m / 32], bit_1, bit_index, mj);
                    }
                }
                assert((bit_0 == 1) == plane_0_of(bits@[i as int]));
                assert((bit_1 == 1) == plane_1_of(bits@[i as int]));
                assert(!plane_bit(old_0, i as int) && !plane_bit(old_1, i as int));
                assert forall|m: int| 0 <= m < i + 1 implies #[trigger] bit_state(
                    plane_bit(plane_0@, m),
                    plane_bit(plane_1@, m),
                ) == bits@[m] by {
                    if m < i {
                        assert(bit_state(plane_bit(old_0, m), plane_bit(old_1, m)) == bits@[m]);
                    }
                }
                assert forall|m: int| i + 1 <= m < 256 implies !#[trigger] plane_bit(plane_0@, m) by {
                    assert(!plane_bit(old_0, m));
                }
                assert forall|m: int| i + 1 <= m < 256 implies !#[trigger] plane_bit(plane_1@, m) by {
                    assert(!plane_bit(old_1, m));
                }
            }
            i = i + 1;
        }
        let r = LogicState { bit_width, plane_0, plane_1 };
        assert(r@ =~= bits@);
        r
    }

    /// The raw bit planes of the state: `word_len` words each
    pub fn bit_planes(&self) -> (r: (&[u32], &[u32]))
        ensures
            r.0@ == plane_words(self.spec_plane_0(), self.bit_width().spec_word_len()),
            r.1@ == plane_words(self.spec_plane_1(), self.bit_width().spec_word_len()),
    {
        let word_len = self.bit_width.word_len() as usize;
        (
            vstd::slice::slice_subrange(self.plane_0.as_slice(), 0, word_len),
            vstd::slice::slice_subrange(self.plane_1.as_slice(), 0, word_len),
        )
    }
    /// Two states hold the same bits exactly when they agree on every word that lies fully
    /// inside the width, and on the bits of the last word that do
    proof fn lemma_view_eq_words(a: LogicState, b: LogicState)
        requires
            a.spec_bit_width() == b.spec_bit_width(),
        ensures
            (a@ == b@) <==> ((forall|k: int|
                0 <= k < a.spec_bit_width().spec_word_len() - 1 ==> a.spec_plane_0()[k]
                    == b.spec_plane_0()[k] && a.spec_plane_1()[k] == b.spec_plane_1()[k]) && (forall|
                j: u32,
            |
                j < a.spec_bit_width().spec_last_word_width() ==> #[trigger] bit_of(
                    a.spec_plane_0()[a.spec_bit_width().spec_word_len() - 1],
                    j,
                ) == bit_of(b.spec_plane_0()[a.spec_bit_width().spec_word_len() - 1], j) && bit_of(
                    a.spec_plane_1()[a.spec_bit_width().spec_word_len() - 1],
                    j,
                ) == bit_of(b.spec_plane_1()[a.spec_bit_width().spec_word_len() - 1], j))),
    {
        broadcast use BitWidth::lemma_width_range;
        let w = a.spec_bit_width().width();
        let wl = a.spec_bit_width().spec_word_len();
        let lww = a.spec_bit_width().spec_last_word_width();
        if a@ == b@ {
            assert forall|k: int| 0 <= k < wl - 1 implies a.spec_plane_0()[k] == b.spec_plane_0()[k]
                && a.spec_plane_1()[k] == b.spec_plane_1()[k] by {
                if a.spec_plane_0()[k] != b.spec_plane_0()[k] {
                    lemma_words_differ(a.spec_plane_0()[k], b.spec_plane_0()[k]);
                    let j = choose|j: u32|
                        j < 32 && bit_of(a.spec_plane_0()[k], j) != bit_of(b.spec_plane_0()[k], j);
                    let i = k * 32 + j;
                    assert(a@[i] != b@[i]);
                }
                if a.spec_plane_1()[k] != b.spec_plane_1()[k] {
                    lemma_words_differ(a.spec_plane_1()[k], b.spec_plane_1()[k]);
                    let j = choose|j: u32|
                        j < 32 && bit_of(a.spec_plane_1()[k], j) != bit_of(b.spec_plane_1()[k], j);
                    let i = k * 32 + j;
                    assert(a@[i] != b@[i]);
                }
            }
            assert forall|j: u32| j < lww implies #[trigger] bit_of(a.spec_plane_0()[wl - 1], j) == bit_of(
                b.spec_plane_0()[wl - 1],
                j,
            ) && bit_of(a.spec_plane_1()[wl - 1], j) == bit_of(b.spec_plane_1()[wl - 1], j) by {
                let i = (wl - 1) * 32 + j;
                assert(a@[i] == b@[i]);
            }
        } else {
            if (forall|k: int|
                0 <= k < wl - 1 ==> a.spec_plane_0()[k] == b.spec_plane_0()[k] && a.spec_plane_1()[k]
                    == b.spec_plane_1()[k]) && (forall|j: u32|
                j < lww ==> #[trigger] bit_of(a.spec_plane_0()[wl - 1], j) == bit_of(b.spec_plane_0()[wl - 1], j)
                    && bit_of(a.spec_plane_1()[wl - 1], j) == bit_of(b.spec_plane_1()[wl - 1], j)) {
                assert forall|i: int| 0 <= i < w implies a@[i] == b@[i] by {
                    let k = i / 32;
                    let j = (i % 32) as u32;
                    if k < wl - 1 {
                    } else {
                        assert(j < lww);
                    }
                }
                assert(a@ =~= b@);
            }
        }
    }

    /// Whether two states hold the same bits
    pub fn eq_state(&self, other: &LogicState) -> (r: bool)
        ensures
            r == (self@ == other@),
    {
        proof {
            broadcast use BitWidth::lemma_width_injective;
        }
        if self.bit_width.get() != other.bit_width.get() {
            assert(self@.len() != other@.len());
            return false;
        }
        proof {
            Self::lemma_view_eq_words(*self, *other);
        }
        let word_len = self.bit_width.word_len() as usize;
        let mut k: usize = 0;
        while k < word_len - 1
            invariant
                word_len == self.spec_bit_width().spec_word_len(),
                self.spec_bit_width() == other.spec_bit_width(),
                1 <= word_len <= 8,
                k <= word_len - 1,
                forall|m: int|
                    0 <= m < k ==> self.spec_plane_0()[m] == other.spec_plane_0()[m]
                        && self.spec_plane_1()[m] == other.spec_plane_1()[m],
            decreases word_len - 1 - k,
        {
            if self.plane_0[k] != other.plane_0[k] || self.plane_1[k] != other.plane_1[k] {
                proof {
                    Self::lemma_view_eq_words(*self, *other);
                }
                return false;
            }
            k = k + 1;
        }
        proof {
            Self::lemma_view_eq_words(*self, *other);
        }
        let mask = self.bit_width.last_word_mask();
        let a0 = self.plane_0[word_len - 1] & mask;
        let b0 = other.plane_0[word_len - 1] & mask;
        let a1 = self.plane_1[word_len - 1] & mask;
        let b1 = other.plane_1[word_len - 1] & mask;
        proof {
            let x0 = self.spec_plane_0()[word_len - 1];
            let y0 = other.spec_plane_0()[word_len - 1];
            let x1 = self.spec_plane_1()[word_len - 1];
            let y1 = other.spec_plane_1()[word_len - 1];
            if a0 != b0 {
                lemma_words_differ(a0, b0);
                let j = choose|j: u32| j < 32 && bit_of(a0, j) != bit_of(b0, j);
                assert(bit_of(x0 & mask, j) == (bit_of(x0, j) && bit_of(mask, j)));
                assert(bit_of(y0 & mask, j) == (bit_of(y0, j) && bit_of(mask, j)));
                assert(j < self.spec_bit_width().spec_last_word_width());
                assert(bit_of(x0, j) != bit_of(y0, j));
                let i = (word_len - 1) * 32 + j;
                assert(i / 32 == word_len - 1 && i % 32 == j);
                assert(self@[i] != other@[i]);
                assert(self@ != other@);
            }
            if a1 != b1 {
                lemma_words_differ(a1, b1);
                let j = choose|j: u32| j < 32 && bit_of(a1, j) != bit_of(b1, j);
                assert(bit_of(x1 & mask, j) == (bit_of(x1, j) && bit_of(mask, j)));
                assert(bit_of(y1 & mask, j) == (bit_of(y1, j) && bit_of(mask, j)));
                assert(j < self.spec_bit_width().spec_last_word_width());
                assert(bit_of(x1, j) != bit_of(y1, j));
                let i = (word_len - 1) * 32 + j;
                assert(i / 32 == word_len - 1 && i % 32 == j);
                assert(self@[i] != other@[i]);
                assert(bit_of(x0, j) == bit_of(x0, j));
                assert(self@ != other@);
            }
            if a0 == b0 && a1 == b1 {
                assert(forall|m: int|
                    0 <= m < word_len - 1 ==> self.spec_plane_0()[m] == other.spec_plane_0()[m]
                        && self.spec_plane_1()[m] == other.spec_plane_1()[m]);
                assert forall|j: u32| j < self.spec_bit_width().spec_last_word_width() implies #[trigger] bit_of(
                    x0,
                    j,
                ) == bit_of(y0, j) && bit_of(x1, j) == bit_of(y1, j) by {
                    assert(bit_of(x0 & mask, j) == (bit_of(x0, j) && bit_of(mask, j)));
                    assert(bit_of(y0 & mask, j) == (bit_of(y0, j) && bit_of(mask, j)));
                    assert(bit_of(x1 & mask, j) == (bit_of(x1, j) && bit_of(mask, j)));
                    assert(bit_of(y1 & mask, j) == (bit_of(y1, j) && bit_of(mask, j)));
                }
                assert(self@ == other@);
            }
        }
        a0 == b0 && a1 == b1
    }

    /// Copies the words of `other` into this state
    ///
    /// Returns `Changed` if any word of either plane (within the word length) was different.
    pub fn copy_from(&mut self, other: &LogicState) -> (r: CopyFromResult)
        requires
            old(self).bit_width() == other.bit_width(),
        ensures
            final(self).bit_width() == old(self).bit_width(),
            final(self)@ == other@,
            forall|k: int|
                0 <= k < old(self).bit_width().spec_word_len() ==> final(self).same_word(other, k),
            forall|k: int| old(self).bit_width().spec_word_len() <= k < 8 ==> final(self).same_word(&*old(self), k),
            (r == CopyFromResult::Unchanged) <==> (forall|k: int|
                0 <= k < old(self).bit_width().spec_word_len() ==> old(self).same_word(other, k)),
            r == CopyFromResult::Unchanged ==> *final(self) == *old(self),
    {
        let word_len = self.bit_width.word_len() as usize;
        let mut changed = false;
        let mut k: usize = 0;
        while k < word_len
            invariant
                word_len == old(self).spec_bit_width().spec_word_len(),
                word_len <= 8,
                k <= word_len,
                self.spec_bit_width() == old(self).spec_bit_width(),
                forall|m: int| 0 <= m < k ==> self.same_word(other, m),
                forall|m: int| k <= m < 8 ==> self.same_word(&*old(self), m),
                changed == !(forall|m: int| 0 <= m < k ==> old(self).same_word(other, m)),
            decreases word_len - k,
        {
            assert(self.same_word(&*old(self), k as int));
            if self.plane_0[k] != other.plane_0[k] || self.plane_1[k] != other.plane_1[k] {
                changed = true;
                assert(!old(self).same_word(other, k as int));
            } else {
                assert(old(self).same_word(other, k as int));
            }
            assert(changed == !(forall|m: int| 0 <= m < k + 1 ==> old(self).same_word(other, m)));
            let ghost prev = *self;
            self.set_word(k, [other.plane_0[k], other.plane_1[k]]);
            assert forall|m: int| 0 <= m < k + 1 implies self.same_word(other, m) by {
                if m < k {
                    assert(prev.same_word(other, m));
                }
            }
            assert forall|m: int| k + 1 <= m < 8 implies self.same_word(&*old(self), m) by {
                assert(prev.same_word(&*old(self), m));
            }
            k = k + 1;
        }
        proof {
            broadcast use BitWidth::lemma_width_range;
            assert forall|i: int| 0 <= i < self@.len() implies self@[i] == other@[i] by {
                assert(i / 32 < word_len);
                assert(self.same_word(other, i / 32));
            }
            assert(self@ =~= other@);
        }
        if changed {
            CopyFromResult::Changed
        } else {
            proof {
                assert forall|m: int| 0 <= m < 8 implies self.same_word(&*old(self), m) by {
                    if m < word_len {
                        assert(old(self).same_word(other, m));
                        assert(self.same_word(other, m));
                    } else {
                        assert(self.same_word(&*old(self), m));
                    }
                }
                Self::lemma_ext(*self, *old(self));
            }
            CopyFromResult::Unchanged
        }
    }

    /// Two states of one width with the same words are the same
    pub proof fn lemma_ext(a: LogicState, b: LogicState)
        requires
            a.spec_bit_width() == b.spec_bit_width(),
            forall|k: int| 0 <= k < 8 ==> a.same_word(&b, k),
        ensures
            a == b,
    {
        broadcast use vstd::array::group_array_axioms;
        assert forall|i: int| 0 <= i < 8 implies a.plane_0[i] == b.plane_0[i] && a.plane_1[i]
            == b.plane_1[i] by {
            assert(a.same_word(&b, i));
        }
        assert(a.plane_0 =~= b.plane_0);
        assert(a.plane_1 =~= b.plane_1);
    }
    /// Iterates all bits in the state
    pub fn bits(&self) -> (r: Bits<'_>)
        ensures
            r.wf(),
            r.remaining() == self@,
    {
        proof {
            broadcast use BitWidth::lemma_width_range;
        }
        let (p0, p1) = self.bit_planes();
        let r = Bits::new(self.bit_width.get(), p0, p1);
        proof {
            let w = self.bit_width().width();
            assert forall|t: int| 0 <= t < w implies #[trigger] r.remaining()[t] == self@[t] by {
                assert(t / 32 < self.bit_width().spec_word_len());
            }
            assert(r.remaining() =~= self@);
        }
        r
    }

    /// The bits of the state as characters, most significant bit first
    pub fn to_display_string(&self) -> (r: String)
        ensures
            r@ == display_chars(self@),
    {
        let mut bits_iter = self.bits();
        let mut collected: Vec<LogicBitState> = Vec::new();
        let ghost all = self@;
        let mut done = false;
        while !done
            invariant
                bits_iter.wf(),
                collected@ + bits_iter.remaining() == all,
                done ==> bits_iter.remaining().len() == 0,
            decreases bits_iter.remaining().len() + if done { 0int } else { 1int },
        {
            match bits_iter.next() {
                Some(b) => {
                    collected.push(b);
                    assert(collected@ + bits_iter.remaining() =~= all);
                },
                None => {
                    done = true;
                },
            }
        }
        assert(collected@ =~= all);
        let mut r = String::new();
        let mut i = collected.len();
        while i > 0
            invariant
                i <= collected@.len(),
                collected@ == all,
                r@ == display_chars(all).subrange(0, (all.len() - i) as int),
            decreases i,
        {
            i = i - 1;
            let c = match collected[i] {
                LogicBitState::Logic0 => {
                    proof {
                        reveal_strlit("0");
                    }
                    "0"
                },
                LogicBitState::Logic1 => {
                    proof {
                        reveal_strlit("1");
                    }
                    "1"
                },
                LogicBitState::HighZ => {
                    proof {
                        reveal_strlit("Z");
                    }
                    "Z"
                },
                LogicBitState::Undefined => {
                    proof {
                        reveal_strlit("X");
                    }
                    "X"
                },
            };
            r.append(c);
            assert(r@ =~= display_chars(all).subrange(0, (all.len() - i) as int));
        }
        assert(r@ =~= display_chars(all));
        r
    }

    /// Parses a state from ASCII characters, character `i` giving bit `i`
    pub fn parse_ascii(s: &[u8]) -> (r: Result<LogicState, LogicStateFromStrError>)
        ensures
            parse_outcome(s@, r),
    {
        if s.len() == 0 || s.len() > 256 {
            return Err(LogicStateFromStrError::InvalidBitWidth);
        }
        let mut bits: Vec<LogicBitState> = Vec::new();
        let mut i: usize = 0;
        while i < s.len()
            invariant
                1 <= s@.len() <= 256,
                i <= s@.len(),
                bits@ == parsed_bits(s@.subrange(0, i as int)),
                forall|j: int| 0 <= j < i ==> is_bit_char(s@[j]),
            decreases s@.len() - i,
        {
            match LogicBitState::from_ascii_char(s[i]) {
                Some(b) => {
                    bits.push(b);
                },
                None => {
                    let r = Err(LogicStateFromStrError::IllegalCharacter(s[i]));
                    proof {
                        let ii = i as int;
                        assert(!is_bit_char(s@[ii]));
                        assert(0 <= ii < s@.len() && !is_bit_char(s@[ii]) && (forall|j: int|
                            0 <= j < ii ==> is_bit_char(s@[j])) && r == Err::<LogicState, _>(
                            LogicStateFromStrError::IllegalCharacter(s@[ii]),
                        ));
                    }
                    return r;
                },
            }
            i = i + 1;
            assert(bits@ =~= parsed_bits(s@.subrange(0, i as int)));
        }
        assert(s@.subrange(0, s@.len() as int) =~= s@);
        let st = Self::from_bits(bits.as_slice());
        Ok(st)
    }

    /// Parses a state from a string of the characters `0`, `1`, `z`, `Z`, `x` and `X`,
    /// character `i` giving bit `i`
    pub fn parse(s: &str) -> (r: Result<LogicState, LogicStateFromStrError>)
        ensures
            parse_outcome(s.spec_bytes(), r),
    {
        Self::parse_ascii(s.as_bytes())
    }

    /// Turns the logic state into a borrowed form
    pub fn borrow(&self) -> (r: LogicStateRef<'_>)
        ensures
            r.spec_state() == *self,
    {
        LogicStateRef { state: self }
    }
}

/// Borrowed form of [`LogicState`]
#[derive(Clone, Copy)]
pub struct LogicStateRef<'a> {
    state: &'a LogicState,
}

impl<'a> View for LogicStateRef<'a> {
    type V = Seq<LogicBitState>;

    open spec fn view(&self) -> Seq<LogicBitState> {
        self.spec_state()@
    }
}

impl<'a> LogicStateRef<'a> {
    /// The borrowed state
    pub closed spec fn spec_state(&self) -> LogicState {
        *self.state
    }

    /// The number of bits in this state
    pub fn bit_width(&self) -> (r: BitWidth)
        ensures
            r == self.spec_state().bit_width(),
    {
        self.state.bit_width()
    }

    /// The raw bit planes of the state
    pub fn bit_planes(&self) -> (r: (&[u32], &[u32]))
        ensures
            r.0@ == plane_words(
                self.spec_state().spec_plane_0(),
                self.spec_state().bit_width().spec_word_len(),
            ),
            r.1@ == plane_words(
                self.spec_state().spec_plane_1(),
                self.spec_state().bit_width().spec_word_len(),
            ),
    {
        self.state.bit_planes()
    }

    /// Gets a bit at a specified index
    pub fn bit(&self, index: u32) -> (r: Option<LogicBitState>)
        ensures
            r is Some <==> index < self@.len(),
            r matches Some(b) ==> b == self@[index as int],
    {
        self.state.bit(index)
    }

    /// Iterates all bits in the state
    pub fn bits(&self) -> (r: Bits<'_>)
        ensures
            r.wf(),
            r.remaining() == self.spec_state()@,
    {
        self.state.bits()
    }

    /// Turns the logic state into an owned form
    pub fn to_owned(&self) -> (r: LogicState)
        ensures
            r == self.spec_state(),
    {
        *self.state
    }
}

/// A value that can be converted into a borrowed [`LogicState`]
pub trait IntoLogicStateRef<'a>: Sized {
    /// The state this value refers to
    spec fn spec_target(&self) -> LogicState;

    /// Performs the conversion into a borrowed [`LogicState`]
    fn into_logic_state_ref(self) -> (r: LogicStateRef<'a>)
        ensures
            r.spec_state() == self.spec_target(),
    ;
}

impl<'a> IntoLogicStateRef<'a> for &'a LogicState {
    open spec fn spec_target(&self) -> LogicState {
        **self
    }

    fn into_logic_state_ref(self) -> (r: LogicStateRef<'a>) {
        self.borrow()
    }
}

impl<'a> IntoLogicStateRef<'a> for LogicStateRef<'a> {
    open spec fn spec_target(&self) -> LogicState {
        self.spec_state()
    }

    fn into_logic_state_ref(self) -> (r: LogicStateRef<'a>) {
        self
    }
}

impl<'a> IntoLogicStateRef<'a> for &'a InlineLogicState {
    open spec fn spec_target(&self) -> LogicState {
        self.spec_state()
    }

    fn into_logic_state_ref(self) -> (r: LogicStateRef<'a>) {
        self.borrow()
    }
}

impl<'a, 'b> IntoLogicStateRef<'b> for &'b LogicStateRef<'a> where 'a: 'b {
    open spec fn spec_target(&self) -> LogicState {
        self.spec_state()
    }

    fn into_logic_state_ref(self) -> (r: LogicStateRef<'b>) {
        LogicStateRef { state: self.state }
    }
}

impl PartialEq for LogicState {
    fn eq(&self, other: &LogicState) -> (r: bool) {
        self.eq_state(other)
    }
}

impl PartialEqSpecImpl for LogicState {
    open spec fn obeys_eq_spec() -> bool {
        true
    }

    open spec fn eq_spec(&self, other: &LogicState) -> bool {
        self@ == other@
    }
}

impl std::str::FromStr for LogicState {
    type Err = LogicStateFromStrError;

    fn from_str(s: &str) -> (r: Result<LogicState, LogicStateFromStrError>)
        ensures
            parse_outcome(s.spec_bytes(), r),
    {
        LogicState::parse(s)
    }
}

impl From<LogicBitState> for LogicState {
    fn from(value: LogicBitState) -> (r: LogicState) {
        LogicState::from_bit(value)
    }
}

impl FromSpecImpl<LogicBitState> for LogicState {
    open spec fn obeys_from_spec() -> bool {
        true
    }

    open spec fn from_spec(v: LogicBitState) -> LogicState {
        LogicState::spec_from_bit(v)
    }
}

impl From<bool> for LogicState {
    fn from(value: bool) -> (r: LogicState) {
        LogicState::from_bit(LogicBitState::from_bool(value))
    }
}

impl FromSpecImpl<bool> for LogicState {
    open spec fn obeys_from_spec() -> bool {
        true
    }

    open spec fn from_spec(v: bool) -> LogicState {
        LogicState::spec_from_bit(spec_from_bool(v))
    }
}

/// A logic state kept inline, used as scratch space while computing a new state
pub struct InlineLogicState {
    state: LogicState,
}

impl View for InlineLogicState {
    type V = Seq<LogicBitState>;

    open spec fn view(&self) -> Seq<LogicBitState> {
        self.spec_state()@
    }
}

impl InlineLogicState {
    /// The state held
    pub closed spec fn spec_state(&self) -> LogicState {
        self.state
    }

    /// A state with all bits having the value `0`
    pub fn logic_0(bit_width: BitWidth) -> (r: InlineLogicState)
        ensures
            forall|k: int|
                0 <= k < 8 ==> r.spec_state().spec_plane_0()[k] == 0u32 && r.spec_state().spec_plane_1()[k]
                    == 0u32,
            r.spec_state() == LogicState::spec_logic_0(bit_width),
            r.spec_state().bit_width() == bit_width,
            r@ == uniform(bit_width.width(), LogicBitState::Logic0),
    {
        InlineLogicState { state: LogicState::logic_0(bit_width) }
    }

    /// A state with all bits having the value `1`
    pub fn logic_1(bit_width: BitWidth) -> (r: InlineLogicState)
        ensures
            forall|k: int|
                0 <= k < 8 ==> r.spec_state().spec_plane_0()[k] == 0xffff_ffffu32 && r.spec_state().spec_plane_1()[k]
                    == 0u32,
            r.spec_state().bit_width() == bit_width,
            r@ == uniform(bit_width.width(), LogicBitState::Logic1),
    {
        InlineLogicState { state: LogicState::logic_1(bit_width) }
    }

    /// A state with all bits being in high impedance
    pub fn high_z(bit_width: BitWidth) -> (r: InlineLogicState)
        ensures
            forall|k: int|
                0 <= k < 8 ==> r.spec_state().spec_plane_0()[k] == 0u32 && r.spec_state().spec_plane_1()[k]
                    == 0xffff_ffffu32,
            r.spec_state() == LogicState::spec_high_z(bit_width),
            r.spec_state().bit_width() == bit_width,
            r@ == uniform(bit_width.width(), LogicBitState::HighZ),
    {
        InlineLogicState { state: LogicState::high_z(bit_width) }
    }

    /// A state with all bits being undefined
    pub fn undefined(bit_width: BitWidth) -> (r: InlineLogicState)
        ensures
            forall|k: int|
                0 <= k < 8 ==> r.spec_state().spec_plane_0()[k] == 0xffff_ffffu32 && r.spec_state().spec_plane_1()[k]
                    == 0xffff_ffffu32,
            r.spec_state().bit_width() == bit_width,
            r@ == uniform(bit_width.width(), LogicBitState::Undefined),
    {
        InlineLogicState { state: LogicState::undefined(bit_width) }
    }

    /// The number of bits in this state
    pub fn bit_width(&self) -> (r: BitWidth)
        ensures
            r == self.spec_state().bit_width(),
    {
        self.state.bit_width()
    }

    /// The words of both planes that hold bits of the state
    pub fn bit_planes(&self) -> (r: (&[u32], &[u32]))
        ensures
            r.0@ == plane_words(
                self.spec_state().spec_plane_0(),
                self.spec_state().bit_width().spec_word_len(),
            ),
            r.1@ == plane_words(
                self.spec_state().spec_plane_1(),
                self.spec_state().bit_width().spec_word_len(),
            ),
    {
        self.state.bit_planes()
    }

    /// Sets all bits to `0`
    pub fn set_logic_0(&mut self)
        ensures
            forall|k: int|
                0 <= k < 8 ==> final(self).spec_state().spec_plane_0()[k] == 0u32
                    && final(self).spec_state().spec_plane_1()[k] == 0u32,
            final(self).spec_state() == LogicState::spec_logic_0(old(self).spec_state().bit_width()),
            final(self)@ == uniform(old(self)@.len(), LogicBitState::Logic0),
    {
        self.state = LogicState::logic_0(self.state.bit_width());
    }

    /// Sets all bits to `1`
    pub fn set_logic_1(&mut self)
        ensures
            forall|k: int|
                0 <= k < 8 ==> final(self).spec_state().spec_plane_0()[k] == 0xffff_ffffu32
                    && final(self).spec_state().spec_plane_1()[k] == 0u32,
            final(self).spec_state().bit_width() == old(self).spec_state().bit_width(),
            final(self)@ == uniform(old(self)@.len(), LogicBitState::Logic1),
    {
        self.state = LogicState::logic_1(self.state.bit_width());
    }

    /// Puts all bits into high impedance
    pub fn set_high_z(&mut self)
        ensures
            forall|k: int|
                0 <= k < 8 ==> final(self).spec_state().spec_plane_0()[k] == 0u32
                    && final(self).spec_state().spec_plane_1()[k] == 0xffff_ffffu32,
            final(self).spec_state() == LogicState::spec_high_z(old(self).spec_state().bit_width()),
            final(self)@ == uniform(old(self)@.len(), LogicBitState::HighZ),
    {
        self.state = LogicState::high_z(self.state.bit_width());
    }

    /// Makes all bits undefined
    pub fn set_undefined(&mut self)
        ensures
            forall|k: int|
                0 <= k < 8 ==> final(self).spec_state().spec_plane_0()[k] == 0xffff_ffffu32
                    && final(self).spec_state().spec_plane_1()[k] == 0xffff_ffffu32,
            final(self).spec_state().bit_width() == old(self).spec_state().bit_width(),
            final(self)@ == uniform(old(self)@.len(), LogicBitState::Undefined),
    {
        self.state = LogicState::undefined(self.state.bit_width());
    }

    /// Gets a bit at a specified index
    pub fn bit(&self, index: u32) -> (r: Option<LogicBitState>)
        ensures
            r is Some <==> index < self@.len(),
            r matches Some(b) ==> b == self@[index as int],
    {
        self.state.bit(index)
    }

    /// Iterates all bits in the state
    pub fn bits(&self) -> (r: Bits<'_>)
        ensures
            r.wf(),
            r.remaining() == self.spec_state()@,
    {
        self.state.bits()
    }

    /// Copies the words of `other` into this state
    pub fn copy_from(&mut self, other: &LogicState) -> (r: CopyFromResult)
        requires
            old(self).spec_state().bit_width() == other.bit_width(),
        ensures
            final(self).spec_state().bit_width() == old(self).spec_state().bit_width(),
            final(self)@ == other@,
            (r == CopyFromResult::Unchanged) <==> (forall|k: int|
                0 <= k < old(self).spec_state().bit_width().spec_word_len() ==> old(self).spec_state().same_word(other, k)),
            r == CopyFromResult::Unchanged ==> final(self).spec_state() == old(self).spec_state(),
    {
        self.state.copy_from(other)
    }

    /// Copies a single word pair into a state of at most 32 bits
    pub fn copy_from_one(&mut self, word: [u32; 2]) -> (r: CopyFromResult)
        requires
            old(self).spec_state().bit_width().width() <= 32,
        ensures
            final(self).spec_state().bit_width() == old(self).spec_state().bit_width(),
            final(self).spec_state().spec_word(0) == word,
            forall|k: int| 1 <= k < 8 ==> final(self).spec_state().same_word(&old(self).spec_state(), k),
            (r == CopyFromResult::Unchanged) <==> old(self).spec_state().spec_word(0) == word,
    {
        let current = self.state.get_word(0);
        if current[0] != word[0] || current[1] != word[1] {
            self.state.set_word(0, word);
            assert(self.state.spec_word(0) =~= word);
            CopyFromResult::Changed
        } else {
            assert(current =~= word);
            CopyFromResult::Unchanged
        }
    }

    /// Sets a state of at most 32 bits to a single bit in its lowest position
    pub fn copy_from_bit(&mut self, bit: LogicBitState) -> (r: CopyFromResult)
        requires
            old(self).spec_state().bit_width().width() <= 32,
        ensures
            final(self).spec_state().bit_width() == old(self).spec_state().bit_width(),
            final(self).spec_state().spec_word(0) == [
                if plane_0_of(bit) { 1u32 } else { 0u32 },
                if plane_1_of(bit) { 1u32 } else { 0u32 },
            ],
            forall|k: int| 1 <= k < 8 ==> final(self).spec_state().same_word(&old(self).spec_state(), k),
            (r == CopyFromResult::Unchanged) <==> old(self).spec_state().spec_word(0) == [
                if plane_0_of(bit) { 1u32 } else { 0u32 },
                if plane_1_of(bit) { 1u32 } else { 0u32 },
            ],
    {
        let bits = bit.to_bits();
        let p0: u32 = (bits & 1) as u32;
        let p1: u32 = (bits >> 1) as u32;
        proof {
            assert((bits & 1u8) == bits % 2 && (bits >> 1u8) == bits / 2) by (bit_vector);
            assert(p0 == if plane_0_of(bit) { 1u32 } else { 0u32 });
            assert(p1 == if plane_1_of(bit) { 1u32 } else { 0u32 });
        }
        self.copy_from_one([p0, p1])
    }

    /// Borrows the state
    pub fn borrow(&self) -> (r: LogicStateRef<'_>)
        ensures
            r.spec_state() == self.spec_state(),
    {
        self.state.borrow()
    }
}


/// Parsing reads back the name of each bit: the string whose character `i` is the ASCII name
/// of bit `i` (the display string read backwards, since the display puts the most significant
/// bit first) parses to exactly those bits; and the display's character for each bit names
/// that bit
pub proof fn law_parse_names(b: Seq<LogicBitState>, r: Result<LogicState, LogicStateFromStrError>)
    requires
        1 <= b.len() <= 256,
        parse_outcome(Seq::new(b.len(), |i: int| spec_to_ascii_char(b[i])), r),
    ensures
        r matches Ok(st) && st@ == b,
        forall|x: LogicBitState| #[trigger] spec_from_char(spec_to_char(x)) == Some(x),
{
    let s = Seq::new(b.len(), |i: int| spec_to_ascii_char(b[i]));
    assert forall|i: int| 0 <= i < s.len() implies is_bit_char(#[trigger] s[i]) by {}
    assert(parsed_bits(s) =~= b);
}

} // verus!
