//! A random-access memory: written on a clock edge, read at all times.
use vstd::prelude::*;
use crate::bit_width::{BitWidth, pow2};
use crate::logic_bit::{LogicBitState, is_valid_bit, bit_value};
use crate::logic_state::{LogicState, uniform};
use crate::ops::{map_bits, unary_op_mut, high_z_to_undefined};
use crate::component::high_z_to_undefined_fn;
use crate::{ClockPolarity, ClockTrigger, clock_level};

verus! {

/// The address that the bits stand for, least significant bit first; `None` where a bit is
/// high impedance or undefined
pub open spec fn address_of(bits: Seq<LogicBitState>) -> Option<nat>
    decreases bits.len(),
{
    if bits.len() == 0 {
        Some(0)
    } else {
        match address_of(bits.drop_first()) {
            Some(high) => if is_valid_bit(bits[0]) {
                Some(2 * high + if bit_value(bits[0]) {
                    1nat
                } else {
                    0nat
                })
            } else {
                None
            },
            None => None,
        }
    }
}

/// `2^a <= 2^b` where `a <= b`
proof fn lemma_pow2_monotone(a: nat, b: nat)
    requires
        a <= b,
    ensures
        pow2(a) <= pow2(b),
    decreases b - a,
{
    if a < b {
        lemma_pow2_monotone(a, (b - 1) as nat);
    }
}

/// An address of `n` bits is below `2^n`
proof fn lemma_address_bound(bits: Seq<LogicBitState>)
    ensures
        address_of(bits) matches Some(a) ==> a < pow2(bits.len()),
    decreases bits.len(),
{
    if bits.len() > 0 {
        lemma_address_bound(bits.drop_first());
    }
}

/// One invalid bit leaves no address
proof fn lemma_address_none(bits: Seq<LogicBitState>, i: int, j: int)
    requires
        0 <= j <= i < bits.len(),
        !is_valid_bit(bits[i]),
    ensures
        address_of(bits.subrange(j, bits.len() as int)) is None,
    decreases i - j,
{
    let s = bits.subrange(j, bits.len() as int);
    if j < i {
        lemma_address_none(bits, i, j + 1);
        assert(s.drop_first() =~= bits.subrange(j + 1, bits.len() as int));
    } else {
        assert(s[0] == bits[i]);
    }
}

/// The address a state stands for, if all its bits are valid
fn decode_address(state: &LogicState) -> (r: Option<usize>)
    requires
        pow2(state@.len()) <= usize::MAX,
    ensures
        r is None <==> address_of(state@) is None,
        r matches Some(a) ==> address_of(state@) == Some(a as nat),
{
    let width = state.bit_width().get();
    let ghost bits = state@;
    let mut i: u32 = width;
    let mut acc: usize = 0;
    proof {
        assert(bits.subrange(width as int, width as int) =~= Seq::<LogicBitState>::empty());
    }
    while i > 0
        invariant
            0 <= i <= width,
            width == bits.len(),
            bits == state@,
            pow2(width as nat) <= usize::MAX,
            address_of(bits.subrange(i as int, width as int)) == Some(acc as nat),
        decreases i,
    {
        i = i - 1;
        let b = state.bit(i).unwrap();
        let ghost suffix = bits.subrange(i as int, width as int);
        proof {
            assert(suffix.drop_first() =~= bits.subrange(i + 1, width as int));
            lemma_address_bound(suffix);
            lemma_pow2_monotone((width - i) as nat, width as nat);
        }
        match b {
            LogicBitState::Logic0 => {
                acc = acc * 2;
            },
            LogicBitState::Logic1 => {
                proof {
                    lemma_address_bound(suffix);
                }
                acc = acc * 2 + 1;
            },
            _ => {
                proof {
                    lemma_address_none(bits, i as int, 0);
                    assert(bits.subrange(0, width as int) =~= bits);
                }
                return None;
            },
        }
    }
    proof {
        assert(bits.subrange(0, width as int) =~= bits);
    }
    Some(acc)
}

/// Whether the clock bit completes a triggering edge for the detector
pub open spec fn triggers(t: ClockTrigger, clock: LogicBitState) -> bool {
    t.spec_prev() == Some(t.spec_polarity() == ClockPolarity::Falling) && clock_level(clock, t.spec_prev())
        == Some(t.spec_polarity() == ClockPolarity::Rising)
}

/// The cells after a write on a clock edge to the address `addr`: the data, with high
/// impedance bits made undefined, where `write` is high; all undefined bits where `write` is
/// high impedance or undefined; no change where `write` is low or the address is not valid
pub open spec fn written_cells(
    cells: Seq<Seq<LogicBitState>>,
    addr: Option<nat>,
    write: LogicBitState,
    data_in: Seq<LogicBitState>,
    width: nat,
) -> Seq<Seq<LogicBitState>> {
    match addr {
        None => cells,
        Some(a) => match write {
            LogicBitState::Logic0 => cells,
            LogicBitState::Logic1 => cells.update(a as int, map_bits(data_in, high_z_to_undefined_fn())),
            _ => cells.update(a as int, uniform(width, LogicBitState::Undefined)),
        },
    }
}

/// What the memory outputs: the cell at a valid read address, with high impedance bits made
/// undefined, else all undefined bits
pub open spec fn read_output(cells: Seq<Seq<LogicBitState>>, addr: Option<nat>, width: nat) -> Seq<LogicBitState> {
    match addr {
        Some(a) => map_bits(cells[a as int], high_z_to_undefined_fn()),
        None => uniform(width, LogicBitState::Undefined),
    }
}

/// A memory of `2^addr_width` cells of `data_width` bits, written on the triggering edge of
/// a clock and read continuously
pub struct Ram {
    addr_width: BitWidth,
    data_width: BitWidth,
    clock_trigger: ClockTrigger,
    clear_value: LogicState,
    cells: Vec<LogicState>,
}

impl Ram {
    /// The bits of each cell, by address
    pub closed spec fn spec_cells(&self) -> Seq<Seq<LogicBitState>> {
        self.cells@.map_values(|c: LogicState| c@)
    }

    /// The width of an address
    pub closed spec fn spec_addr_width(&self) -> nat {
        self.addr_width.width()
    }

    /// The width of a cell
    pub closed spec fn spec_data_width(&self) -> nat {
        self.data_width.width()
    }

    /// The bits every cell takes when the memory is reset
    pub closed spec fn spec_clear_value(&self) -> Seq<LogicBitState> {
        self.clear_value@
    }

    /// The clock edge detector
    pub closed spec fn spec_trigger(&self) -> ClockTrigger {
        self.clock_trigger
    }

    /// The memory has `2^addr_width` cells, each `data_width` bits wide
    pub closed spec fn wf(&self) -> bool {
        &&& pow2(self.addr_width.width()) <= usize::MAX
        &&& self.clear_value.bit_width() == self.data_width
        &&& self.cells@.len() == pow2(self.addr_width.width())
        &&& forall|a: int| 0 <= a < self.cells@.len() ==> (#[trigger] self.cells@[a]).bit_width() == self.data_width
    }

    /// A memory with every cell undefined
    pub fn new(addr_width: BitWidth, data_width: BitWidth, clock_polarity: ClockPolarity) -> (r: Ram)
        requires
            pow2(addr_width.width()) <= usize::MAX,
        ensures
            r.wf(),
            r.spec_clear_value() == uniform(data_width.width(), LogicBitState::Undefined),
            r.spec_addr_width() == addr_width.width(),
            r.spec_data_width() == data_width.width(),
            r.spec_trigger().spec_prev() is None,
            r.spec_trigger().spec_polarity() == clock_polarity,
            r.spec_cells() == Seq::new(
                pow2(addr_width.width()),
                |a: int| uniform(data_width.width(), LogicBitState::Undefined),
            ),
    {
        let count = Self::cell_count(addr_width);
        let cell = LogicState::undefined(data_width);
        let mut cells: Vec<LogicState> = Vec::new();
        let mut i: usize = 0;
        while i < count
            invariant
                i <= count,
                cells@.len() == i,
                cell.bit_width() == data_width,
                cell@ == uniform(data_width.width(), LogicBitState::Undefined),
                forall|a: int| 0 <= a < i ==> #[trigger] cells@[a] == cell,
            decreases count - i,
        {
            cells.push(cell);
            i = i + 1;
        }
        let r = Ram {
            addr_width,
            data_width,
            clock_trigger: ClockTrigger::new(clock_polarity),
            clear_value: cell,
            cells,
        };
        assert(r.spec_cells() =~= Seq::new(
            pow2(addr_width.width()),
            |a: int| uniform(data_width.width(), LogicBitState::Undefined),
        ));
        r
    }

    /// `2^addr_width`
    fn cell_count(addr_width: BitWidth) -> (r: usize)
        requires
            pow2(addr_width.width()) <= usize::MAX,
        ensures
            r == pow2(addr_width.width()),
    {
        let n = addr_width.get();
        let mut count: usize = 1;
        let mut i: u32 = 0;
        while i < n
            invariant
                i <= n,
                n == addr_width.width(),
                pow2(n as nat) <= usize::MAX,
                count == pow2(i as nat),
            decreases n - i,
        {
            proof {
                lemma_pow2_monotone((i + 1) as nat, n as nat);
            }
            count = count * 2;
            i = i + 1;
        }
        count
    }

    /// Replaces the bits every cell takes when the memory is reset
    pub fn set_clear_value(&mut self, value: LogicState)
        requires
            old(self).wf(),
            value@.len() == old(self).spec_data_width(),
        ensures
            final(self).wf(),
            final(self).spec_clear_value() == value@,
            final(self).spec_cells() == old(self).spec_cells(),
            final(self).spec_trigger() == old(self).spec_trigger(),
            final(self).spec_addr_width() == old(self).spec_addr_width(),
            final(self).spec_data_width() == old(self).spec_data_width(),
    {
        proof {
            broadcast use BitWidth::lemma_width_injective;
        }
        self.clear_value = value;
    }

    /// Forgets the clock level and sets every cell to the clear value
    pub fn reset(&mut self)
        requires
            old(self).wf(),
        ensures
            final(self).wf(),
            final(self).spec_trigger().spec_prev() is None,
            final(self).spec_trigger().spec_polarity() == old(self).spec_trigger().spec_polarity(),
            final(self).spec_addr_width() == old(self).spec_addr_width(),
            final(self).spec_data_width() == old(self).spec_data_width(),
            final(self).spec_clear_value() == old(self).spec_clear_value(),
            final(self).spec_cells() == Seq::new(
                old(self).spec_cells().len(),
                |a: int| old(self).spec_clear_value(),
            ),
    {
        self.clock_trigger.reset();
        let ghost trigger = self.clock_trigger;
        let cell = self.clear_value;
        let mut i: usize = 0;
        while i < self.cells.len()
            invariant
                i <= self.cells@.len() == old(self).cells@.len(),
                self.addr_width == old(self).addr_width,
                self.data_width == old(self).data_width,
                self.clock_trigger == trigger,
                trigger.spec_prev() is None,
                trigger.spec_polarity() == old(self).clock_trigger.spec_polarity(),
                cell.bit_width() == self.data_width,
                cell == old(self).clear_value,
                self.clear_value == old(self).clear_value,
                pow2(self.addr_width.width()) <= usize::MAX,
                self.cells@.len() == pow2(self.addr_width.width()),
                forall|a: int| 0 <= a < self.cells@.len() ==> (#[trigger] self.cells@[a]).bit_width() == self.data_width,
                forall|a: int| 0 <= a < i ==> #[trigger] self.cells@[a] == cell,
            decreases self.cells@.len() - i,
        {
            self.cells.set(i, cell);
            i = i + 1;
        }
        assert(self.spec_cells() =~= Seq::new(old(self).spec_cells().len(), |a: int| old(self).spec_clear_value()));
    }
    /// Takes the inputs: on a triggering clock edge the write (see `written_cells`), then the
    /// read (see `read_output`) into `data_out`; returns whether `data_out` changed
    pub fn update(
        &mut self,
        write_addr: &LogicState,
        data_in: &LogicState,
        read_addr: &LogicState,
        write: LogicBitState,
        clock: LogicBitState,
        data_out: &mut LogicState,
    ) -> (changed: bool)
        requires
            old(self).wf(),
            write_addr@.len() == old(self).spec_addr_width(),
            read_addr@.len() == old(self).spec_addr_width(),
            data_in@.len() == old(self).spec_data_width(),
            old(data_out)@.len() == old(self).spec_data_width(),
        ensures
            final(self).wf(),
            final(self).spec_addr_width() == old(self).spec_addr_width(),
            final(self).spec_data_width() == old(self).spec_data_width(),
            final(self).spec_trigger().spec_prev() == clock_level(clock, old(self).spec_trigger().spec_prev()),
            final(self).spec_trigger().spec_polarity() == old(self).spec_trigger().spec_polarity(),
            final(self).spec_cells() == if triggers(old(self).spec_trigger(), clock) {
                written_cells(
                    old(self).spec_cells(),
                    address_of(write_addr@),
                    write,
                    data_in@,
                    old(self).spec_data_width(),
                )
            } else {
                old(self).spec_cells()
            },
            final(data_out).bit_width() == old(data_out).bit_width(),
            final(data_out)@ == read_output(
                final(self).spec_cells(),
                address_of(read_addr@),
                old(self).spec_data_width(),
            ),
            changed == (final(data_out)@ != old(data_out)@),
    {
        proof {
            broadcast use BitWidth::lemma_width_injective;
        }
        let edge = self.clock_trigger.update(clock);
        if edge {
            if let Some(a) = decode_address(write_addr) {
                proof {
                    lemma_address_bound(write_addr@);
                }
                match write {
                    LogicBitState::Logic0 => {},
                    LogicBitState::Logic1 => {
                        let mut cell = *data_in;
                        unary_op_mut(&mut cell, high_z_to_undefined, Ghost(high_z_to_undefined_fn()));
                        self.cells.set(a, cell);
                    },
                    _ => {
                        self.cells.set(a, LogicState::undefined(self.data_width));
                    },
                }
            }
        }
        let new_out = match decode_address(read_addr) {
            Some(a) => {
                proof {
                    lemma_address_bound(read_addr@);
                }
                let mut v = self.cells[a];
                unary_op_mut(&mut v, high_z_to_undefined, Ghost(high_z_to_undefined_fn()));
                v
            },
            None => LogicState::undefined(self.data_width),
        };
        let changed = !data_out.eq_state(&new_out);
        *data_out = new_out;
        changed
    }
}

} // verus!
