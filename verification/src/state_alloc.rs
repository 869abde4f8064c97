//! Storage of the logic states of wires and component outputs.
use vstd::prelude::*;
use crate::bit_width::BitWidth;
use crate::id::{WireStateId, OutputStateId};
use crate::logic_bit::LogicBitState;
use crate::logic_state::{LogicState, uniform};

verus! {

/// The storage for states is exhausted
#[derive(Debug, Clone, Copy, PartialEq, Eq, Structural)]
pub struct OutOfMemoryError;

/// The most states an allocator holds (IDs are 32-bit)
pub const MAX_STATE_COUNT: usize = 0xffff_ffff;

/// Holds the current state and the external drive of every wire
pub struct WireStateAllocator {
    entries: Vec<(LogicState, LogicState)>,
}

impl WireStateAllocator {
    /// The `(state, drive)` pairs, indexed by wire state ID
    pub closed spec fn spec_entries(&self) -> Seq<(LogicState, LogicState)> {
        self.entries@
    }

    /// The number of wire states
    pub open spec fn spec_len(&self) -> nat {
        self.spec_entries().len()
    }

    /// The current states of all wires
    pub open spec fn spec_states(&self) -> Seq<LogicState> {
        self.spec_entries().map_values(|e: (LogicState, LogicState)| e.0)
    }

    /// The drives of all wires
    pub open spec fn spec_drives(&self) -> Seq<LogicState> {
        self.spec_entries().map_values(|e: (LogicState, LogicState)| e.1)
    }

    /// The widths of the states of all wires
    pub open spec fn spec_widths(&self) -> Seq<BitWidth> {
        self.spec_entries().map_values(|e: (LogicState, LogicState)| e.0.bit_width())
    }

    /// The drives, widths and states all have one entry per wire
    pub broadcast proof fn lemma_lens(&self)
        ensures
            #![trigger self.spec_widths()]
            #![trigger self.spec_drives()]
            #![trigger self.spec_states()]
            self.spec_widths().len() == self.spec_len(),
            self.spec_drives().len() == self.spec_len(),
            self.spec_states().len() == self.spec_len(),
            forall|i: int| 0 <= i < self.spec_len() ==> #[trigger] self.spec_widths()[i] == self.spec_state(i).bit_width(),
            forall|i: int| 0 <= i < self.spec_len() ==> #[trigger] self.spec_drives()[i] == self.spec_drive(i),
            forall|i: int| 0 <= i < self.spec_len() ==> #[trigger] self.spec_states()[i] == self.spec_state(i),
    {
    }

    /// The current state of a wire
    pub open spec fn spec_state(&self, i: int) -> LogicState {
        self.spec_entries()[i].0
    }

    /// The external drive of a wire
    pub open spec fn spec_drive(&self, i: int) -> LogicState {
        self.spec_entries()[i].1
    }

    pub fn new() -> (r: WireStateAllocator)
        ensures
            r.spec_entries() == Seq::<(LogicState, LogicState)>::empty(),
    {
        WireStateAllocator { entries: Vec::new() }
    }

    /// The number of wire states
    pub fn len(&self) -> (r: usize)
        ensures
            r == self.spec_len(),
    {
        self.entries.len()
    }

    /// Allocates the state and drive of a new wire, both in high impedance
    pub fn push(&mut self, bit_width: BitWidth) -> (r: Result<WireStateId, OutOfMemoryError>)
        ensures
            old(self).spec_len() < MAX_STATE_COUNT ==> (r matches Ok(id) && id.spec_index()
                == old(self).spec_len() && final(self).spec_entries() == old(self).spec_entries().push(
                (LogicState::spec_high_z(bit_width), LogicState::spec_high_z(bit_width)),
            )),
            old(self).spec_len() >= MAX_STATE_COUNT ==> r is Err && final(self).spec_entries()
                == old(self).spec_entries(),
    {
        if self.entries.len() >= MAX_STATE_COUNT {
            return Err(OutOfMemoryError);
        }
        let id = WireStateId::new(self.entries.len() as u32);
        let s = LogicState::high_z(bit_width);
        self.entries.push((s, s));
        Ok(id)
    }

    /// The current state of a wire
    pub fn get_state(&self, id: WireStateId) -> (r: &LogicState)
        requires
            id.spec_index() < self.spec_len(),
        ensures
            *r == self.spec_state(id.spec_index() as int),
    {
        &self.entries[id.index()].0
    }

    /// The external drive of a wire
    pub fn get_drive(&self, id: WireStateId) -> (r: &LogicState)
        requires
            id.spec_index() < self.spec_len(),
        ensures
            *r == self.spec_drive(id.spec_index() as int),
    {
        &self.entries[id.index()].1
    }

    /// Replaces the current state of a wire
    pub fn set_state(&mut self, id: WireStateId, state: LogicState)
        requires
            id.spec_index() < old(self).spec_len(),
        ensures
            final(self).spec_entries() == old(self).spec_entries().update(
                id.spec_index() as int,
                (state, old(self).spec_drive(id.spec_index() as int)),
            ),
    {
        let i = id.index();
        let drive = self.entries[i].1;
        self.entries.set(i, (state, drive));
    }

    /// Replaces the external drive of a wire
    pub fn set_drive(&mut self, id: WireStateId, drive: LogicState)
        requires
            id.spec_index() < old(self).spec_len(),
        ensures
            final(self).spec_entries() == old(self).spec_entries().update(
                id.spec_index() as int,
                (old(self).spec_state(id.spec_index() as int), drive),
            ),
    {
        let i = id.index();
        let state = self.entries[i].0;
        self.entries.set(i, (state, drive));
    }

    /// Puts every wire state (but not the drives) into high impedance
    pub fn clear_states(&mut self)
        ensures
            final(self).spec_len() == old(self).spec_len(),
            forall|i: int|
                0 <= i < old(self).spec_len() ==> #[trigger] final(self).spec_entries()[i] == (
                LogicState::spec_high_z(old(self).spec_state(i).bit_width()),
                old(self).spec_drive(i),
            ),
    {
        let mut i: usize = 0;
        while i < self.entries.len()
            invariant
                i <= self.entries@.len(),
                self.entries@.len() == old(self).spec_len(),
                forall|m: int|
                    0 <= m < i ==> #[trigger] self.entries@[m] == (
                    LogicState::spec_high_z(old(self).spec_state(m).bit_width()),
                    old(self).spec_drive(m),
                ),
                forall|m: int| i <= m < self.entries@.len() ==> #[trigger] self.entries@[m] == old(self).spec_entries()[m],
            decreases self.entries@.len() - i,
        {
            let (state, drive) = self.entries[i];
            let cleared = LogicState::high_z(state.bit_width());
            self.entries.set(i, (cleared, drive));
            i = i + 1;
        }
    }
}

/// Holds the output state of every component output
pub struct OutputStateAllocator {
    states: Vec<LogicState>,
}

impl OutputStateAllocator {
    /// The output states, indexed by output state ID
    pub closed spec fn spec_states(&self) -> Seq<LogicState> {
        self.states@
    }

    /// The widths of all output states
    pub open spec fn spec_widths(&self) -> Seq<BitWidth> {
        self.spec_states().map_values(|s: LogicState| s.bit_width())
    }

    /// The widths have one entry per output state
    pub broadcast proof fn lemma_widths(&self)
        ensures
            #![trigger self.spec_widths()]
            self.spec_widths().len() == self.spec_states().len(),
            forall|i: int| 0 <= i < self.spec_states().len() ==> #[trigger] self.spec_widths()[i] == self.spec_states()[i].bit_width(),
    {
    }

    pub fn new() -> (r: OutputStateAllocator)
        ensures
            r.spec_states() == Seq::<LogicState>::empty(),
    {
        OutputStateAllocator { states: Vec::new() }
    }

    /// The number of output states
    pub fn len(&self) -> (r: usize)
        ensures
            r == self.spec_states().len(),
    {
        self.states.len()
    }

    /// Allocates a new output state in high impedance
    pub fn push(&mut self, bit_width: BitWidth) -> (r: Result<OutputStateId, OutOfMemoryError>)
        ensures
            old(self).spec_states().len() < MAX_STATE_COUNT ==> (r matches Ok(id) && id.spec_index()
                == old(self).spec_states().len() && final(self).spec_states() == old(
                self,
            ).spec_states().push(LogicState::spec_high_z(bit_width))),
            old(self).spec_states().len() >= MAX_STATE_COUNT ==> r is Err && final(self).spec_states()
                == old(self).spec_states(),
    {
        if self.states.len() >= MAX_STATE_COUNT {
            return Err(OutOfMemoryError);
        }
        let id = OutputStateId::new(self.states.len() as u32);
        self.states.push(LogicState::high_z(bit_width));
        Ok(id)
    }

    /// An output state
    pub fn get(&self, id: OutputStateId) -> (r: &LogicState)
        requires
            id.spec_index() < self.spec_states().len(),
        ensures
            *r == self.spec_states()[id.spec_index() as int],
    {
        &self.states[id.index()]
    }

    /// Replaces an output state
    pub fn set(&mut self, id: OutputStateId, state: LogicState)
        requires
            id.spec_index() < old(self).spec_states().len(),
        ensures
            final(self).spec_states() == old(self).spec_states().update(id.spec_index() as int, state),
    {
        self.states.set(id.index(), state);
    }

    /// Puts every output state into high impedance
    pub fn clear_states(&mut self)
        ensures
            final(self).spec_states().len() == old(self).spec_states().len(),
            forall|i: int|
                0 <= i < old(self).spec_states().len() ==> #[trigger] final(self).spec_states()[i]
                    == LogicState::spec_high_z(old(self).spec_states()[i].bit_width()),
    {
        let mut i: usize = 0;
        while i < self.states.len()
            invariant
                i <= self.states@.len(),
                self.states@.len() == old(self).spec_states().len(),
                forall|m: int|
                    0 <= m < i ==> #[trigger] self.states@[m] == LogicState::spec_high_z(
                        old(self).spec_states()[m].bit_width(),
                    ),
                forall|m: int| i <= m < self.states@.len() ==> #[trigger] self.states@[m] == old(self).spec_states()[m],
            decreases self.states@.len() - i,
        {
            let cleared = LogicState::high_z(self.states[i].bit_width());
            self.states.set(i, cleared);
            i = i + 1;
        }
    }
}

} // verus!
