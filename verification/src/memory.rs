//! The mutable data of stateful components: single register values and memory blocks.
use vstd::prelude::*;
use core::marker::PhantomData;
use crate::bit_width::BitWidth;
use crate::logic_state::LogicState;

verus! {

broadcast use LogicState::lemma_plane_len;

/// Whether access to component data may change it
pub trait Mutability {}

/// Component data that may only be read
pub struct Immutable;

impl Mutability for Immutable {}

/// Component data that may be read and changed
pub struct Mutable;

impl Mutability for Mutable {}

/// The number of words that both states hold
pub open spec fn shared_words(a: LogicState, b: LogicState) -> int {
    let wa = a.bit_width().spec_word_len() as int;
    let wb = b.bit_width().spec_word_len() as int;
    if wa < wb {
        wa
    } else {
        wb
    }
}

/// `after` is `before` with the words it shares with `src` taken from `src`
pub open spec fn words_copied(after: LogicState, before: LogicState, src: LogicState) -> bool {
    &&& after.bit_width() == before.bit_width()
    &&& forall|k: int| 0 <= k < shared_words(before, src) ==> after.same_word(&src, k)
    &&& forall|k: int| shared_words(before, src) <= k < 8 ==> after.same_word(&before, k)
}

/// Copies the words of `src` into `dst`, as many as both hold
fn copy_words(dst: &mut LogicState, src: &LogicState)
    ensures
        words_copied(*final(dst), *old(dst), *src),
{
    let a = dst.bit_width().word_len() as usize;
    let b = src.bit_width().word_len() as usize;
    let n = if a < b {
        a
    } else {
        b
    };
    let mut k: usize = 0;
    while k < n
        invariant
            n == shared_words(*old(dst), *src),
            n <= 8,
            k <= n,
            dst.bit_width() == old(dst).bit_width(),
            forall|m: int| 0 <= m < k ==> dst.same_word(src, m),
            forall|m: int| k <= m < 8 ==> dst.same_word(&*old(dst), m),
        decreases n - k,
    {
        let w = src.get_word(k);
        let ghost prev = *dst;
        dst.set_word(k, w);
        assert forall|m: int| 0 <= m < k + 1 implies dst.same_word(src, m) by {
            if m < k {
                assert(prev.same_word(src, m));
            }
        }
        assert forall|m: int| k + 1 <= m < 8 implies dst.same_word(&*old(dst), m) by {
            assert(prev.same_word(&*old(dst), m));
        }
        k = k + 1;
    }
}

/// A single register value and the value it takes on reset
pub struct MemoryCell<M: Mutability> {
    width: BitWidth,
    mem: LogicState,
    reset_value: LogicState,
    mutability: PhantomData<M>,
}

impl<M: Mutability> MemoryCell<M> {
    /// The stored value
    pub closed spec fn spec_value(&self) -> LogicState {
        self.mem
    }

    /// The value taken on reset
    pub closed spec fn spec_reset_value(&self) -> LogicState {
        self.reset_value
    }

    /// The width of the stored value
    pub closed spec fn spec_width(&self) -> BitWidth {
        self.width
    }

    /// The stored value has the width of the cell
    pub open spec fn wf(&self) -> bool {
        self.spec_value().bit_width() == self.spec_width()
    }

    /// A cell of the given width whose value and reset value are undefined
    pub fn new(width: BitWidth) -> (r: MemoryCell<M>)
        ensures
            r.wf(),
            r.spec_width() == width,
            r.spec_value()@ == crate::logic_state::uniform(
                width.width(),
                crate::logic_bit::LogicBitState::Undefined,
            ),
            r.spec_reset_value()@ == crate::logic_state::uniform(
                width.width(),
                crate::logic_bit::LogicBitState::Undefined,
            ),
    {
        MemoryCell {
            width,
            mem: LogicState::undefined(width),
            reset_value: LogicState::undefined(width),
            mutability: PhantomData,
        }
    }

    /// The width of the stored value
    pub fn width(&self) -> (r: BitWidth)
        ensures
            r == self.spec_width(),
    {
        self.width
    }

    /// Reads the stored value
    pub fn read(&self) -> (r: LogicState)
        ensures
            r == self.spec_value(),
    {
        self.mem
    }

    /// The value taken on reset
    pub fn reset_value(&self) -> (r: &LogicState)
        ensures
            *r == self.spec_reset_value(),
    {
        &self.reset_value
    }
}

impl MemoryCell<Mutable> {
    /// Overwrites the stored value with the words of `value`, as many as both hold
    pub fn write(&mut self, value: &LogicState)
        ensures
            words_copied(final(self).spec_value(), old(self).spec_value(), *value),
            final(self).spec_width() == old(self).spec_width(),
            final(self).spec_reset_value() == old(self).spec_reset_value(),
    {
        copy_words(&mut self.mem, value);
    }

    /// Replaces the value taken on reset
    pub fn set_reset_value(&mut self, value: LogicState)
        ensures
            final(self).spec_reset_value() == value,
            final(self).spec_value() == old(self).spec_value(),
            final(self).spec_width() == old(self).spec_width(),
    {
        self.reset_value = value;
    }

    /// Overwrites the stored value with the words of the reset value, as many as both hold
    pub fn reset(&mut self)
        ensures
            words_copied(final(self).spec_value(), old(self).spec_value(), old(self).spec_reset_value()),
            final(self).spec_width() == old(self).spec_width(),
            final(self).spec_reset_value() == old(self).spec_reset_value(),
    {
        let reset_value = self.reset_value;
        copy_words(&mut self.mem, &reset_value);
    }
}

/// A block of memory cells of one width, and the value each takes when cleared
pub struct MemoryBlock<M: Mutability> {
    width: BitWidth,
    mem: Vec<LogicState>,
    clear_value: LogicState,
    mutability: PhantomData<M>,
}

impl<M: Mutability> MemoryBlock<M> {
    /// The stored values, by address
    pub closed spec fn spec_cells(&self) -> Seq<LogicState> {
        self.mem@
    }

    /// The value each cell takes when cleared
    pub closed spec fn spec_clear_value(&self) -> LogicState {
        self.clear_value
    }

    /// The width of every cell
    pub closed spec fn spec_width(&self) -> BitWidth {
        self.width
    }

    /// Every cell has the width of the block
    pub open spec fn wf(&self) -> bool {
        forall|a: int| 0 <= a < self.spec_cells().len() ==> (#[trigger] self.spec_cells()[a]).bit_width() == self.spec_width()
    }

    /// A block of `len` undefined cells of the given width, cleared to undefined
    pub fn new(width: BitWidth, len: usize) -> (r: MemoryBlock<M>)
        ensures
            r.wf(),
            r.spec_width() == width,
            r.spec_cells().len() == len,
            forall|a: int| 0 <= a < len ==> (#[trigger] r.spec_cells()[a])@ == crate::logic_state::uniform(
                width.width(),
                crate::logic_bit::LogicBitState::Undefined,
            ),
            r.spec_clear_value()@ == crate::logic_state::uniform(
                width.width(),
                crate::logic_bit::LogicBitState::Undefined,
            ),
    {
        let cell = LogicState::undefined(width);
        let mut mem: Vec<LogicState> = Vec::new();
        let mut i: usize = 0;
        while i < len
            invariant
                i <= len,
                mem@.len() == i,
                forall|a: int| 0 <= a < i ==> #[trigger] mem@[a] == cell,
            decreases len - i,
        {
            mem.push(cell);
            i = i + 1;
        }
        MemoryBlock { width, mem, clear_value: cell, mutability: PhantomData }
    }

    /// The width of every cell
    pub fn width(&self) -> (r: BitWidth)
        ensures
            r == self.spec_width(),
    {
        self.width
    }

    /// The number of cells
    pub fn len(&self) -> (r: usize)
        ensures
            r == self.spec_cells().len(),
    {
        self.mem.len()
    }

    /// Reads the cell at `addr`, or `None` if there is none
    pub fn read(&self, addr: usize) -> (r: Option<LogicState>)
        ensures
            r is Some <==> addr < self.spec_cells().len(),
            r matches Some(v) ==> v == self.spec_cells()[addr as int],
    {
        if addr < self.mem.len() {
            Some(self.mem[addr])
        } else {
            None
        }
    }

    /// The value each cell takes when cleared
    pub fn clear_value(&self) -> (r: &LogicState)
        ensures
            *r == self.spec_clear_value(),
    {
        &self.clear_value
    }
}

impl MemoryBlock<Mutable> {
    /// Overwrites the cell at `addr` with the words of `value`, as many as both hold
    ///
    /// Fails if there is no cell at `addr`, changing nothing.
    pub fn write(&mut self, addr: usize, value: &LogicState) -> (r: Result<(), ()>)
        ensures
            r is Ok <==> addr < old(self).spec_cells().len(),
            final(self).spec_width() == old(self).spec_width(),
            final(self).spec_clear_value() == old(self).spec_clear_value(),
            final(self).spec_cells().len() == old(self).spec_cells().len(),
            forall|a: int|
                0 <= a < old(self).spec_cells().len() && a != addr ==> #[trigger] final(self).spec_cells()[a]
                    == old(self).spec_cells()[a],
            r is Ok ==> words_copied(
                final(self).spec_cells()[addr as int],
                old(self).spec_cells()[addr as int],
                *value,
            ),
    {
        if addr >= self.mem.len() {
            return Err(());
        }
        let mut cell = self.mem[addr];
        copy_words(&mut cell, value);
        self.mem.set(addr, cell);
        Ok(())
    }

    /// Replaces the value each cell takes when cleared
    pub fn set_clear_value(&mut self, value: LogicState)
        ensures
            final(self).spec_clear_value() == value,
            final(self).spec_cells() == old(self).spec_cells(),
            final(self).spec_width() == old(self).spec_width(),
    {
        self.clear_value = value;
    }

    /// Overwrites every cell with the words of the clear value, as many as both hold
    pub fn clear(&mut self)
        ensures
            final(self).spec_width() == old(self).spec_width(),
            final(self).spec_clear_value() == old(self).spec_clear_value(),
            final(self).spec_cells().len() == old(self).spec_cells().len(),
            forall|a: int|
                0 <= a < old(self).spec_cells().len() ==> words_copied(
                    #[trigger] final(self).spec_cells()[a],
                    old(self).spec_cells()[a],
                    old(self).spec_clear_value(),
                ),
    {
        let value = self.clear_value;
        let mut i: usize = 0;
        while i < self.mem.len()
            invariant
                i <= self.mem@.len() == old(self).spec_cells().len(),
                value == old(self).spec_clear_value(),
                self.clear_value == old(self).spec_clear_value(),
                self.width == old(self).spec_width(),
                forall|a: int|
                    0 <= a < i ==> words_copied(#[trigger] self.mem@[a], old(self).spec_cells()[a], value),
                forall|a: int| i <= a < self.mem@.len() ==> #[trigger] self.mem@[a] == old(self).spec_cells()[a],
            decreases self.mem@.len() - i,
        {
            let mut cell = self.mem[i];
            copy_words(&mut cell, &value);
            self.mem.set(i, cell);
            i = i + 1;
        }
    }
}

/// The mutable data of a component
pub enum ComponentData<M: Mutability> {
    /// The component does not store any data
    NoData,
    /// The component stores a single register value
    RegisterValue(MemoryCell<M>),
    /// The component stores a memory block
    MemoryBlock(MemoryBlock<M>),
}


/// A cell written with a value of its own width reads back that value, bit for bit
pub proof fn law_write_read_back(after: LogicState, before: LogicState, src: LogicState)
    requires
        words_copied(after, before, src),
        src.bit_width() == before.bit_width(),
    ensures
        after@ == src@,
{
    broadcast use crate::bit_width::BitWidth::lemma_width_range;
    assert forall|i: int| 0 <= i < after@.len() implies after@[i] == src@[i] by {
        crate::ops::lemma_state_bit(after, i);
        crate::ops::lemma_state_bit(src, i);
        assert(after.same_word(&src, i / 32));
    }
    assert(after@ =~= src@);
}

} // verus!
