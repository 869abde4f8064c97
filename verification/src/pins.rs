//! Pins: states shared with other threads, through which a simulation takes input from the
//! outside and hands output to it.
//!
//! Another thread may store into a pin at any time, so what a load returns is not known here:
//! the contracts say what holds whatever was stored.
use vstd::prelude::*;
use std::sync::Arc;
use std::sync::atomic::{AtomicBool, AtomicU8, Ordering};
use crate::logic_bit::LogicBitState;
use crate::behaviour::{Output, OutputStrength};

verus! {

/// One bit of a pin, stored atomically
pub struct AtomicLogicState(AtomicU8);

impl AtomicLogicState {
    /// A bit holding `val`
    pub fn new(val: LogicBitState) -> (r: AtomicLogicState) {
        AtomicLogicState(AtomicU8::new(val.to_bits()))
    }

    /// The bit last stored, by this thread or another
    pub fn load(&self, order: Ordering) -> (r: LogicBitState) {
        let bits = self.0.load(order);
        LogicBitState::from_bits(bits % 4)
    }

    /// Stores a bit
    pub fn store(&self, val: LogicBitState, order: Ordering) {
        self.0.store(val.to_bits(), order);
    }
}

/// `n` atomic bits, each holding `val`
fn new_array(val: LogicBitState, n: usize) -> (r: Vec<AtomicLogicState>)
    ensures
        r@.len() == n,
{
    let mut r: Vec<AtomicLogicState> = Vec::new();
    let mut i: usize = 0;
    while i < n
        invariant
            i <= n,
            r@.len() == i,
        decreases n - i,
    {
        r.push(AtomicLogicState::new(val));
        i = i + 1;
    }
    r
}

/// A pin through which the outside sets a state that the simulation reads
pub struct InputPin {
    state: Vec<AtomicLogicState>,
    changed: AtomicBool,
}

impl InputPin {
    /// The number of bits of the pin
    pub closed spec fn spec_width(&self) -> nat {
        self.state@.len()
    }

    /// A pin of `width` bits in high impedance
    pub fn new(width: u32) -> (r: Arc<InputPin>)
        requires
            width > 0,
        ensures
            r.spec_width() == width,
    {
        Arc::new(
            InputPin {
                state: new_array(LogicBitState::HighZ, width as usize),
                changed: AtomicBool::new(false),
            },
        )
    }

    /// The number of bits of the pin
    pub fn width(&self) -> (r: u32)
        requires
            self.spec_width() <= u32::MAX,
        ensures
            r == self.spec_width(),
    {
        self.state.len() as u32
    }

    /// Sets the pin's bits to `state`, high impedance where `state` is shorter, and marks the
    /// pin as changed
    pub fn set(&self, state: &[LogicBitState]) {
        let mut i: usize = 0;
        while i < self.state.len()
            invariant
                i <= self.state@.len(),
            decreases self.state@.len() - i,
        {
            let bit = if i < state.len() {
                state[i]
            } else {
                LogicBitState::HighZ
            };
            self.state[i].store(bit, Ordering::Relaxed);
            i = i + 1;
        }
        self.changed.store(true, Ordering::Relaxed);
    }
}

/// A component that drives the state of an input pin
pub struct InputPinBehaviour {
    pin: Arc<InputPin>,
    outputs: [u32; 1],
}

impl InputPinBehaviour {
    /// The width of the pin
    pub closed spec fn spec_width(&self) -> nat {
        self.pin.spec_width()
    }

    /// The width of the one output
    pub closed spec fn spec_output_width(&self) -> u32 {
        self.outputs[0]
    }

    /// A component driving the pin's state
    pub fn new(pin: Arc<InputPin>) -> (r: InputPinBehaviour)
        requires
            pin.spec_width() <= u32::MAX,
        ensures
            r.spec_width() == pin.spec_width(),
            r.spec_output_width() == pin.spec_width(),
    {
        let outputs = [pin.width()];
        InputPinBehaviour { pin, outputs }
    }

    /// The widths of the outputs: one, as wide as the pin
    pub fn output_configuration(&self) -> (r: &[u32])
        ensures
            r@ == seq![self.spec_output_width()],
    {
        let r = self.outputs.as_slice();
        assert(r@ =~= seq![self.spec_output_width()]);
        r
    }

    /// The widths of the inputs: there are none
    pub fn input_configuration(&self) -> (r: &[u32])
        ensures
            r@.len() == 0,
    {
        let r: &[u32] = &[];
        r
    }

    /// Drives the pin's current bits strongly onto the output, and clears the pin's change
    /// mark; reports a change where the pin was marked changed or the output was weak
    pub fn update(&mut self, output: &mut Output) -> (changed: bool)
        requires
            old(output).state@.len() <= old(self).spec_width(),
        ensures
            final(self).spec_width() == old(self).spec_width(),
            final(self).spec_output_width() == old(self).spec_output_width(),
            final(output).strength == OutputStrength::Strong,
            final(output).state@.len() == old(output).state@.len(),
            old(output).strength != OutputStrength::Strong ==> changed,
    {
        let was_weak = match output.strength {
            OutputStrength::Strong => false,
            OutputStrength::Weak => true,
        };
        let marked = self.pin.changed.swap(false, Ordering::Relaxed);
        output.strength = OutputStrength::Strong;
        let mut i: usize = 0;
        while i < output.state.len()
            invariant
                i <= output.state@.len() == old(output).state@.len(),
                output.state@.len() <= self.pin.spec_width(),
                output.strength == OutputStrength::Strong,
            decreases output.state@.len() - i,
        {
            let bit = self.pin.state[i].load(Ordering::Relaxed);
            output.state.set(i, bit);
            i = i + 1;
        }
        was_weak || marked
    }
}

/// A pin through which the simulation hands a state to the outside
pub struct OutputPin {
    state: Vec<AtomicLogicState>,
}

impl OutputPin {
    /// The number of bits of the pin
    pub closed spec fn spec_width(&self) -> nat {
        self.state@.len()
    }

    /// A pin of `width` bits in high impedance
    pub fn new(width: u32) -> (r: Arc<OutputPin>)
        requires
            width > 0,
        ensures
            r.spec_width() == width,
    {
        Arc::new(OutputPin { state: new_array(LogicBitState::HighZ, width as usize) })
    }

    /// The number of bits of the pin
    pub fn width(&self) -> (r: u32)
        requires
            self.spec_width() <= u32::MAX,
        ensures
            r == self.spec_width(),
    {
        self.state.len() as u32
    }

    /// Reads the pin's bits into `state`: high impedance where `state` is longer than the pin
    pub fn get(&self, state: &mut [LogicBitState])
        ensures
            final(state)@.len() == old(state)@.len(),
            forall|i: int|
                self.spec_width() <= i < final(state)@.len() ==> #[trigger] final(state)@[i] == LogicBitState::HighZ,
    {
        let mut i: usize = 0;
        while i < state.len()
            invariant
                i <= state@.len() == old(state)@.len(),
                forall|k: int| self.spec_width() <= k < i ==> #[trigger] state@[k] == LogicBitState::HighZ,
            decreases state@.len() - i,
        {
            let bit = if i < self.state.len() {
                self.state[i].load(Ordering::Relaxed)
            } else {
                LogicBitState::HighZ
            };
            state[i] = bit;
            i = i + 1;
        }
    }
}

/// A component that hands the state of its input to an output pin
pub struct OutputPinBehaviour {
    pin: Arc<OutputPin>,
    inputs: [u32; 1],
}

impl OutputPinBehaviour {
    /// The width of the pin
    pub closed spec fn spec_width(&self) -> nat {
        self.pin.spec_width()
    }

    /// The width of the one input
    pub closed spec fn spec_input_width(&self) -> u32 {
        self.inputs[0]
    }

    /// A component feeding the pin
    pub fn new(pin: Arc<OutputPin>) -> (r: OutputPinBehaviour)
        requires
            pin.spec_width() <= u32::MAX,
        ensures
            r.spec_width() == pin.spec_width(),
            r.spec_input_width() == pin.spec_width(),
    {
        let inputs = [pin.width()];
        OutputPinBehaviour { pin, inputs }
    }

    /// The widths of the outputs: there are none
    pub fn output_configuration(&self) -> (r: &[u32])
        ensures
            r@.len() == 0,
    {
        let r: &[u32] = &[];
        r
    }

    /// The widths of the inputs: one, as wide as the pin
    pub fn input_configuration(&self) -> (r: &[u32])
        ensures
            r@ == seq![self.spec_input_width()],
    {
        let r = self.inputs.as_slice();
        assert(r@ =~= seq![self.spec_input_width()]);
        r
    }

    /// Stores the input's bits into the pin; the component has no output, so nothing changes
    pub fn update(&mut self, input: &Vec<LogicBitState>) -> (changed: bool)
        requires
            input@.len() >= old(self).spec_width(),
        ensures
            !changed,
            final(self).spec_width() == old(self).spec_width(),
            final(self).spec_input_width() == old(self).spec_input_width(),
    {
        let mut i: usize = 0;
        while i < self.pin.state.len()
            invariant
                i <= self.pin.spec_width(),
                input@.len() >= self.pin.spec_width(),
            decreases self.pin.spec_width() - i,
        {
            self.pin.state[i].store(input[i], Ordering::Relaxed);
            i = i + 1;
        }
        false
    }
}

} // verus!
