//! High speed digital logic simulation, with machine-checked contracts.
use vstd::prelude::*;

pub mod bit_width;
pub mod word;
pub mod logic_bit;
pub mod ops;
pub mod logic_state;
pub mod interleave;
pub mod id;
pub mod state_alloc;
pub mod wire;
pub mod component;
pub mod simulator;
pub mod memory;
pub mod shift;
pub mod mul;
pub mod arith;
pub mod yosys;
pub mod import;
pub mod ram;
pub mod pins;
pub mod behaviour;
pub mod timescale;
pub mod horizontal;

pub use bit_width::BitWidth;
pub use id::{WireId, ComponentId};
pub use logic_bit::{LogicBitState, LogicStateFromStrError};
pub use logic_state::{LogicState, LogicStateRef, IntoLogicStateRef, InlineLogicState};
pub use memory::{Mutability, Immutable, Mutable, MemoryCell, MemoryBlock, ComponentData};
pub use timescale::Timescale;
pub use yosys::{CellType, YosysModuleImportError};
pub use behaviour::{
    ConstantBehaviour, UnaryOperation, BinaryOperation, Not, And, Nand, Or, Nor, Xor, Xnor,
    UnaryBehaviour, BinaryBehaviour,
};
pub use interleave::Bits;
pub use simulator::{Simulator, SimulatorBuilder};
use state_alloc::OutOfMemoryError;
use vstd::std_specs::convert::FromSpecImpl;

verus! {

/// The size of a memory allocation, in bytes
#[derive(Debug, Clone, Copy, PartialEq, Eq, Structural)]
pub struct AllocationSize(pub usize);

/// Memory usage statistics of a simulation
#[derive(Debug)]
pub struct SimulationStats {
    /// The number of wires in the simulation
    pub wire_count: usize,
    /// The size of the allocation storing wires
    pub wire_alloc_size: AllocationSize,
    /// The size of the allocation storing wire widths
    pub wire_width_alloc_size: AllocationSize,
    /// The size of the allocation storing wire drives
    pub wire_drive_alloc_size: AllocationSize,
    /// The size of the allocation storing wire states
    pub wire_state_alloc_size: AllocationSize,
    /// The number of components stored inline in the simulation
    pub small_component_count: usize,
    /// The number of components stored out-of-line in the simulation
    pub large_component_count: usize,
    /// The size of the allocation storing components
    pub component_alloc_size: AllocationSize,
    /// The size of out-of-line components
    pub large_component_alloc_size: AllocationSize,
    /// The size of the allocation storing output widths
    pub output_width_alloc_size: AllocationSize,
    /// The size of the allocation storing output states
    pub output_state_alloc_size: AllocationSize,
}

/// Contains data of all errors that occurred in a simulation
#[derive(Debug, Clone)]
pub struct SimulationErrors {
    /// A list of wires that had multiple drivers
    pub conflicts: Vec<WireId>,
}

/// The result of running a simulation
#[derive(Debug, Clone)]
pub enum SimulationRunResult {
    /// The simulation settled
    Settled,
    /// The simulation did not settle within the maximum allowed steps
    MaxStepsReached,
    /// The simulation produced an error
    Error(SimulationErrors),
}

impl SimulationRunResult {
    /// Asserts that the value is `Ok` (any other value is not a valid argument)
    pub fn unwrap(self)
        requires
            self is Settled,
    {
    }
}

/// Errors that can occur when adding a wire to a simulator
#[derive(Debug, Clone, Copy, PartialEq, Eq, Structural)]
pub enum AddWireError {
    /// The memory limit for wires was reached
    TooManyWires,
}

/// Errors that can occur when adding a component to a simulator
#[derive(Debug, Clone, Copy, PartialEq, Eq, Structural)]
pub enum AddComponentError {
    /// The memory limit for components was reached
    TooManyComponents,
    /// A specified wire ID was not part of the simulation
    InvalidWireId,
    /// Two or more wires that were expected to did not have the same width
    WireWidthMismatch,
    /// One or more wires had a width incompatible with the component
    WireWidthIncompatible,
    /// A specified offset was outside the range of its corresponding wire's width
    OffsetOutOfRange,
    /// Too few inputs were specified
    TooFewInputs,
    /// The number of inputs was not valid for the component
    InvalidInputCount,
}

/// Errors that can occurr when setting a wires drive
#[derive(Debug, Clone, Copy, PartialEq, Eq, Structural)]
pub enum SetWireDriveError {
    /// The specified wire ID was not part of the simulation
    InvalidWireId,
    /// The width of the logic state did not match the width of the wire
    InvalidBitWidth,
}

/// The specified wire ID was not part of the simulation
#[derive(Debug, Clone, Copy, PartialEq, Eq, Structural)]
pub struct InvalidWireIdError;

/// A specified component ID was not part of the simulation
#[derive(Debug, Clone, Copy, PartialEq, Eq, Structural)]
pub struct InvalidComponentIdError;

/// Defines the polarity of a clock signal
#[derive(Debug, Clone, Copy, PartialEq, Eq, Hash, Structural)]
pub enum ClockPolarity {
    /// The clock will trigger on a rising edge
    Rising,
    /// The clock will trigger on a falling edge
    Falling,
}

impl Default for ClockPolarity {
    fn default() -> (r: ClockPolarity)
        ensures
            r == ClockPolarity::Rising,
    {
        ClockPolarity::Rising
    }
}

impl ClockPolarity {
    /// The level of the clock signal at which it triggers
    pub fn active_state(self) -> (r: bool)
        ensures
            r == (self == ClockPolarity::Rising),
    {
        match self {
            ClockPolarity::Rising => true,
            ClockPolarity::Falling => false,
        }
    }

    /// The level of the clock signal at which it does not trigger
    pub fn inactive_state(self) -> (r: bool)
        ensures
            r == (self == ClockPolarity::Falling),
    {
        match self {
            ClockPolarity::Rising => false,
            ClockPolarity::Falling => true,
        }
    }
}

/// Detects the triggering edge of a clock signal
pub struct ClockTrigger {
    prev: Option<bool>,
    polarity: ClockPolarity,
}

/// The clock level a bit gives: its value when valid, else the level before
pub open spec fn clock_level(current: LogicBitState, prev: Option<bool>) -> Option<bool> {
    match current {
        LogicBitState::Logic0 => Some(false),
        LogicBitState::Logic1 => Some(true),
        _ => prev,
    }
}

impl ClockTrigger {
    /// The last known level of the clock
    pub closed spec fn spec_prev(&self) -> Option<bool> {
        self.prev
    }

    /// The polarity of the clock
    pub closed spec fn spec_polarity(&self) -> ClockPolarity {
        self.polarity
    }

    /// A trigger that has not seen the clock yet
    pub fn new(polarity: ClockPolarity) -> (r: ClockTrigger)
        ensures
            r.spec_prev() is None,
            r.spec_polarity() == polarity,
    {
        ClockTrigger { prev: None, polarity }
    }

    /// Forgets the level of the clock
    pub fn reset(&mut self)
        ensures
            final(self).spec_prev() is None,
            final(self).spec_polarity() == old(self).spec_polarity(),
    {
        self.prev = None;
    }

    /// Takes the current clock bit and reports whether it completes a triggering edge: the
    /// level goes from the inactive to the active one (an invalid bit keeps the level)
    pub fn update(&mut self, current: LogicBitState) -> (edge: bool)
        ensures
            final(self).spec_prev() == clock_level(current, old(self).spec_prev()),
            final(self).spec_polarity() == old(self).spec_polarity(),
            edge == (old(self).spec_prev() == Some(old(self).spec_polarity() == ClockPolarity::Falling)
                && clock_level(current, old(self).spec_prev()) == Some(
                old(self).spec_polarity() == ClockPolarity::Rising,
            )),
    {
        let current = match current {
            LogicBitState::HighZ | LogicBitState::Undefined => self.prev,
            LogicBitState::Logic0 => Some(false),
            LogicBitState::Logic1 => Some(true),
        };
        let was_inactive = match self.prev {
            Some(level) => level == self.polarity.inactive_state(),
            None => false,
        };
        let is_active = match current {
            Some(level) => level == self.polarity.active_state(),
            None => false,
        };
        self.prev = current;
        was_inactive && is_active
    }
}

impl From<OutOfMemoryError> for AddWireError {
    fn from(e: OutOfMemoryError) -> (r: AddWireError) {
        AddWireError::TooManyWires
    }
}

impl FromSpecImpl<OutOfMemoryError> for AddWireError {
    open spec fn obeys_from_spec() -> bool {
        true
    }

    open spec fn from_spec(v: OutOfMemoryError) -> AddWireError {
        AddWireError::TooManyWires
    }
}

impl From<OutOfMemoryError> for AddComponentError {
    fn from(e: OutOfMemoryError) -> (r: AddComponentError) {
        AddComponentError::TooManyComponents
    }
}

impl FromSpecImpl<OutOfMemoryError> for AddComponentError {
    open spec fn obeys_from_spec() -> bool {
        true
    }

    open spec fn from_spec(v: OutOfMemoryError) -> AddComponentError {
        AddComponentError::TooManyComponents
    }
}

impl From<InvalidWireIdError> for AddComponentError {
    fn from(e: InvalidWireIdError) -> (r: AddComponentError) {
        AddComponentError::InvalidWireId
    }
}

impl FromSpecImpl<InvalidWireIdError> for AddComponentError {
    open spec fn obeys_from_spec() -> bool {
        true
    }

    open spec fn from_spec(v: InvalidWireIdError) -> AddComponentError {
        AddComponentError::InvalidWireId
    }
}

impl From<InvalidWireIdError> for SetWireDriveError {
    fn from(e: InvalidWireIdError) -> (r: SetWireDriveError) {
        SetWireDriveError::InvalidWireId
    }
}

impl FromSpecImpl<InvalidWireIdError> for SetWireDriveError {
    open spec fn obeys_from_spec() -> bool {
        true
    }

    open spec fn from_spec(v: InvalidWireIdError) -> SetWireDriveError {
        SetWireDriveError::InvalidWireId
    }
}

impl AddWireError {
    /// The message describing the error
    pub open spec fn spec_message(&self) -> Seq<char> {
        match self {
            AddWireError::TooManyWires => "the memory limit for wires was reached"@,
        }
    }

    /// The message describing the error
    pub fn to_display_string(&self) -> (r: String)
        ensures
            r@ == self.spec_message(),
    {
        let message = match self {
            AddWireError::TooManyWires => "the memory limit for wires was reached",
        };
        message.to_owned()
    }
}

impl AddComponentError {
    /// The message describing the error
    pub open spec fn spec_message(&self) -> Seq<char> {
        match self {
            AddComponentError::TooManyComponents => "the memory limit for components was reached"@,
            AddComponentError::InvalidWireId => "a specified wire ID was not part of the simulation"@,
            AddComponentError::WireWidthMismatch => "two or more wires that were expected to did not have the same width"@,
            AddComponentError::WireWidthIncompatible => "one or more wires had a width incompatible with the component"@,
            AddComponentError::OffsetOutOfRange => "a specified offset was outside the range of its corresponding wire's width"@,
            AddComponentError::TooFewInputs => "too few inputs were specified"@,
            AddComponentError::InvalidInputCount => "the number of inputs was not valid for the component"@,
        }
    }

    /// The message describing the error
    pub fn to_display_string(&self) -> (r: String)
        ensures
            r@ == self.spec_message(),
    {
        let message = match self {
            AddComponentError::TooManyComponents => "the memory limit for components was reached",
            AddComponentError::InvalidWireId => "a specified wire ID was not part of the simulation",
            AddComponentError::WireWidthMismatch => "two or more wires that were expected to did not have the same width",
            AddComponentError::WireWidthIncompatible => "one or more wires had a width incompatible with the component",
            AddComponentError::OffsetOutOfRange => "a specified offset was outside the range of its corresponding wire's width",
            AddComponentError::TooFewInputs => "too few inputs were specified",
            AddComponentError::InvalidInputCount => "the number of inputs was not valid for the component",
        };
        message.to_owned()
    }
}

impl SetWireDriveError {
    /// The message describing the error
    pub open spec fn spec_message(&self) -> Seq<char> {
        match self {
            SetWireDriveError::InvalidWireId => "the specified wire ID was not part of the simulation"@,
            SetWireDriveError::InvalidBitWidth => "the width of the logic state did not match the width of the wire"@,
        }
    }

    /// The message describing the error
    pub fn to_display_string(&self) -> (r: String)
        ensures
            r@ == self.spec_message(),
    {
        let message = match self {
            SetWireDriveError::InvalidWireId => "the specified wire ID was not part of the simulation",
            SetWireDriveError::InvalidBitWidth => "the width of the logic state did not match the width of the wire",
        };
        message.to_owned()
    }
}

impl InvalidWireIdError {
    /// The message describing the error
    pub fn to_display_string(&self) -> (r: String)
        ensures
            r@ == "the specified wire ID was not part of the simulation"@,
    {
        "the specified wire ID was not part of the simulation".to_owned()
    }
}

impl InvalidComponentIdError {
    /// The message describing the error
    pub fn to_display_string(&self) -> (r: String)
        ensures
            r@ == "the specified component ID was not part of the simulation"@,
    {
        "the specified component ID was not part of the simulation".to_owned()
    }
}

/// The result of adding a wire to a simulator
pub type AddWireResult = Result<WireId, AddWireError>;

/// The result of adding a component to a simulator
pub type AddComponentResult = Result<ComponentId, AddComponentError>;

} // verus!
