//! Bit-by-bit component behaviours: constants, and unary and binary logic operations applied
//! to each bit of their inputs.
use vstd::prelude::*;
use core::marker::PhantomData;
use crate::logic_bit::{
    LogicBitState, not_bit, and_bit, or_bit, xor_bit, nand_bit, nor_bit, xnor_bit,
};

verus! {

/// How strongly an output drives its wire
#[derive(Debug, Clone, Copy, PartialEq, Eq, Structural)]
pub enum OutputStrength {
    /// The output yields to any strong output
    Weak,
    /// The output drives its wire
    Strong,
}

/// The bits an output drives, and how strongly
pub struct Output {
    /// The bits of the output
    pub state: Vec<LogicBitState>,
    /// How strongly the output drives its wire
    pub strength: OutputStrength,
}

/// A logic operation on one bit
pub trait UnaryOperation {
    /// The result of the operation
    spec fn spec_execute(value: LogicBitState) -> LogicBitState;

    /// Performs the operation
    fn execute(value: LogicBitState) -> (r: LogicBitState)
        ensures
            r == Self::spec_execute(value),
    ;
}

/// A logic operation on two bits
pub trait BinaryOperation {
    /// The result of the operation
    spec fn spec_execute(lhs: LogicBitState, rhs: LogicBitState) -> LogicBitState;

    /// Performs the operation
    fn execute(lhs: LogicBitState, rhs: LogicBitState) -> (r: LogicBitState)
        ensures
            r == Self::spec_execute(lhs, rhs),
    ;
}

/// Logical negation
pub struct Not;

impl UnaryOperation for Not {
    open spec fn spec_execute(value: LogicBitState) -> LogicBitState {
        not_bit(value)
    }

    fn execute(value: LogicBitState) -> (r: LogicBitState) {
        match value {
            LogicBitState::Undefined => LogicBitState::Undefined,
            LogicBitState::HighZ => LogicBitState::Undefined,
            LogicBitState::Logic0 => LogicBitState::Logic1,
            LogicBitState::Logic1 => LogicBitState::Logic0,
        }
    }
}

/// Whether a bit is `0`
fn is_0(b: LogicBitState) -> (r: bool)
    ensures
        r == (b == LogicBitState::Logic0),
{
    match b {
        LogicBitState::Logic0 => true,
        _ => false,
    }
}

/// Whether a bit is `1`
fn is_1(b: LogicBitState) -> (r: bool)
    ensures
        r == (b == LogicBitState::Logic1),
{
    match b {
        LogicBitState::Logic1 => true,
        _ => false,
    }
}

/// Logical conjunction
pub struct And;

impl BinaryOperation for And {
    open spec fn spec_execute(lhs: LogicBitState, rhs: LogicBitState) -> LogicBitState {
        and_bit(lhs, rhs)
    }

    fn execute(lhs: LogicBitState, rhs: LogicBitState) -> (r: LogicBitState) {
        if is_0(lhs) || is_0(rhs) {
            LogicBitState::Logic0
        } else if is_1(lhs) && is_1(rhs) {
            LogicBitState::Logic1
        } else {
            LogicBitState::Undefined
        }
    }
}

/// Negated conjunction
pub struct Nand;

impl BinaryOperation for Nand {
    open spec fn spec_execute(lhs: LogicBitState, rhs: LogicBitState) -> LogicBitState {
        nand_bit(lhs, rhs)
    }

    fn execute(lhs: LogicBitState, rhs: LogicBitState) -> (r: LogicBitState) {
        if is_0(lhs) || is_0(rhs) {
            LogicBitState::Logic1
        } else if is_1(lhs) && is_1(rhs) {
            LogicBitState::Logic0
        } else {
            LogicBitState::Undefined
        }
    }
}

/// Logical disjunction
pub struct Or;

impl BinaryOperation for Or {
    open spec fn spec_execute(lhs: LogicBitState, rhs: LogicBitState) -> LogicBitState {
        or_bit(lhs, rhs)
    }

    fn execute(lhs: LogicBitState, rhs: LogicBitState) -> (r: LogicBitState) {
        if is_1(lhs) || is_1(rhs) {
            LogicBitState::Logic1
        } else if is_0(lhs) && is_0(rhs) {
            LogicBitState::Logic0
        } else {
            LogicBitState::Undefined
        }
    }
}

/// Negated disjunction
pub struct Nor;

impl BinaryOperation for Nor {
    open spec fn spec_execute(lhs: LogicBitState, rhs: LogicBitState) -> LogicBitState {
        nor_bit(lhs, rhs)
    }

    fn execute(lhs: LogicBitState, rhs: LogicBitState) -> (r: LogicBitState) {
        if is_1(lhs) || is_1(rhs) {
            LogicBitState::Logic0
        } else if is_0(lhs) && is_0(rhs) {
            LogicBitState::Logic1
        } else {
            LogicBitState::Undefined
        }
    }
}

/// Exclusive disjunction
pub struct Xor;

impl BinaryOperation for Xor {
    open spec fn spec_execute(lhs: LogicBitState, rhs: LogicBitState) -> LogicBitState {
        xor_bit(lhs, rhs)
    }

    fn execute(lhs: LogicBitState, rhs: LogicBitState) -> (r: LogicBitState) {
        match (lhs, rhs) {
            (LogicBitState::Logic0, LogicBitState::Logic0) => LogicBitState::Logic0,
            (LogicBitState::Logic0, LogicBitState::Logic1) => LogicBitState::Logic1,
            (LogicBitState::Logic1, LogicBitState::Logic0) => LogicBitState::Logic1,
            (LogicBitState::Logic1, LogicBitState::Logic1) => LogicBitState::Logic0,
            _ => LogicBitState::Undefined,
        }
    }
}

/// Negated exclusive disjunction
pub struct Xnor;

impl BinaryOperation for Xnor {
    open spec fn spec_execute(lhs: LogicBitState, rhs: LogicBitState) -> LogicBitState {
        xnor_bit(lhs, rhs)
    }

    fn execute(lhs: LogicBitState, rhs: LogicBitState) -> (r: LogicBitState) {
        match (lhs, rhs) {
            (LogicBitState::Logic0, LogicBitState::Logic0) => LogicBitState::Logic1,
            (LogicBitState::Logic0, LogicBitState::Logic1) => LogicBitState::Logic0,
            (LogicBitState::Logic1, LogicBitState::Logic0) => LogicBitState::Logic0,
            (LogicBitState::Logic1, LogicBitState::Logic1) => LogicBitState::Logic1,
            _ => LogicBitState::Undefined,
        }
    }
}

/// Writes `new` into `output` bit by bit, reporting whether any bit or the strength changed
fn write_output(output: &mut Output, new: &Vec<LogicBitState>, strength: OutputStrength) -> (changed: bool)
    requires
        new@.len() == old(output).state@.len(),
    ensures
        final(output).state@ == new@,
        final(output).strength == strength,
        changed == (old(output).strength != strength || old(output).state@ != new@),
{
    let mut changed = output.strength != strength;
    output.strength = strength;
    let mut i: usize = 0;
    while i < output.state.len()
        invariant
            i <= output.state@.len() == new@.len() == old(output).state@.len(),
            output.strength == strength,
            forall|k: int| 0 <= k < i ==> output.state@[k] == new@[k],
            forall|k: int| i <= k < output.state@.len() ==> output.state@[k] == old(output).state@[k],
            changed == (old(output).strength != strength || exists|k: int|
                0 <= k < i && #[trigger] old(output).state@[k] != new@[k]),
        decreases output.state@.len() - i,
    {
        let b = new[i];
        if output.state[i] != b {
            changed = true;
        }
        output.state.set(i, b);
        i = i + 1;
    }
    proof {
        if old(output).state@ != new@ {
            assert(!(old(output).state@ =~= new@));
        }
        assert(output.state@ =~= new@);
    }
    changed
}

/// A component that drives a constant state
pub struct ConstantBehaviour {
    state: Vec<LogicBitState>,
    strength: OutputStrength,
    outputs: [u32; 1],
}

impl ConstantBehaviour {
    /// The state driven
    pub closed spec fn spec_state(&self) -> Seq<LogicBitState> {
        self.state@
    }

    /// How strongly the state is driven
    pub closed spec fn spec_strength(&self) -> OutputStrength {
        self.strength
    }

    /// The width of the one output
    pub closed spec fn spec_output_width(&self) -> u32 {
        self.outputs[0]
    }

    /// A component driving `state` with the given strength
    pub fn new(state: Vec<LogicBitState>, strength: OutputStrength) -> (r: ConstantBehaviour)
        requires
            0 < state@.len() <= u32::MAX,
        ensures
            r.spec_state() == state@,
            r.spec_strength() == strength,
            r.spec_output_width() == state@.len(),
    {
        let width = state.len() as u32;
        ConstantBehaviour { state, strength, outputs: [width] }
    }

    /// A weak `0` of the given width
    pub fn new_pull_down(width: u32) -> (r: ConstantBehaviour)
        requires
            width > 0,
        ensures
            r.spec_state() == Seq::new(width as nat, |i: int| LogicBitState::Logic0),
            r.spec_strength() == OutputStrength::Weak,
            r.spec_output_width() == width,
    {
        let state = uniform_bits(LogicBitState::Logic0, width);
        Self::new(state, OutputStrength::Weak)
    }

    /// A weak `1` of the given width
    pub fn new_pull_up(width: u32) -> (r: ConstantBehaviour)
        requires
            width > 0,
        ensures
            r.spec_state() == Seq::new(width as nat, |i: int| LogicBitState::Logic1),
            r.spec_strength() == OutputStrength::Weak,
            r.spec_output_width() == width,
    {
        let state = uniform_bits(LogicBitState::Logic1, width);
        Self::new(state, OutputStrength::Weak)
    }

    /// A strong constant holding the low `width` bits of a number given as words, least
    /// significant first
    pub fn new_from_value(value: &[u32], width: u32) -> (r: ConstantBehaviour)
        requires
            width > 0,
            value@.len() * 32 >= width,
        ensures
            r.spec_state() == Seq::new(
                width as nat,
                |i: int| if crate::word::plane_bit(value@, i) {
                    LogicBitState::Logic1
                } else {
                    LogicBitState::Logic0
                },
            ),
            r.spec_strength() == OutputStrength::Strong,
            r.spec_output_width() == width,
    {
        let ghost expected = Seq::new(
            width as nat,
            |i: int| if crate::word::plane_bit(value@, i) {
                LogicBitState::Logic1
            } else {
                LogicBitState::Logic0
            },
        );
        let mut state: Vec<LogicBitState> = Vec::new();
        let mut i: u32 = 0;
        while i < width
            invariant
                i <= width,
                value@.len() * 32 >= width,
                state@ == expected.take(i as int),
                expected == Seq::new(
                    width as nat,
                    |k: int| if crate::word::plane_bit(value@, k) {
                        LogicBitState::Logic1
                    } else {
                        LogicBitState::Logic0
                    },
                ),
            decreases width - i,
        {
            let word = value[(i / 32) as usize];
            let bit = (word >> (i % 32)) & 1;
            let ghost before = state@;
            state.push(
                if bit > 0 {
                    LogicBitState::Logic1
                } else {
                    LogicBitState::Logic0
                },
            );
            proof {
                assert(word == value@[(i / 32) as int]);
                assert(crate::word::plane_bit(value@, i as int) == (bit == 1u32));
                assert(state@ == before.push(state@.last()));
                assert(bit == 0u32 || bit == 1u32) by (bit_vector)
                    requires
                        bit == (word >> (i % 32)) & 1u32,
                ;
            }
            assert(state@.last() == expected[i as int]);
            i = i + 1;
            assert(state@ =~= expected.take(i as int));
        }
        assert(expected.take(width as int) =~= expected);
        Self::new(state, OutputStrength::Strong)
    }

    /// The widths of the outputs
    pub fn output_configuration(&self) -> (r: &[u32])
        ensures
            r@ == seq![self.spec_output_width()],
    {
        let r = self.outputs.as_slice();
        assert(r@ =~= seq![self.spec_output_width()]);
        r
    }

    /// The widths of the inputs: there are none
    pub fn input_configuration(&self) -> (r: &[u32])
        ensures
            r@.len() == 0,
    {
        let r: &[u32] = &[];
        r
    }

    /// Drives the constant onto the output, reporting whether the output changed
    pub fn update(&mut self, output: &mut Output) -> (changed: bool)
        requires
            old(output).state@.len() == old(self).spec_state().len(),
        ensures
            final(self).spec_state() == old(self).spec_state(),
            final(output).state@ == old(self).spec_state(),
            final(output).strength == old(self).spec_strength(),
            changed == (old(output).strength != old(self).spec_strength() || old(output).state@
                != old(self).spec_state()),
    {
        write_output(output, &self.state, self.strength)
    }
}

/// `width` copies of one bit
fn uniform_bits(b: LogicBitState, width: u32) -> (r: Vec<LogicBitState>)
    ensures
        r@ == Seq::new(width as nat, |i: int| b),
{
    let mut v: Vec<LogicBitState> = Vec::new();
    let mut i: u32 = 0;
    while i < width
        invariant
            i <= width,
            v@ == Seq::new(i as nat, |k: int| b),
        decreases width - i,
    {
        v.push(b);
        i = i + 1;
        assert(v@ =~= Seq::new(i as nat, |k: int| b));
    }
    v
}

/// A component applying a unary operation to every bit of its input
pub struct UnaryBehaviour<Op: UnaryOperation> {
    outputs: [u32; 1],
    inputs: [u32; 1],
    op: PhantomData<Op>,
}

impl<Op: UnaryOperation> UnaryBehaviour<Op> {
    /// The width of the output
    pub closed spec fn spec_width(&self) -> u32 {
        self.outputs[0]
    }

    /// The width of the input
    pub closed spec fn spec_input_width(&self) -> u32 {
        self.inputs[0]
    }

    /// A component of the given width
    pub fn new(width: u32) -> (r: UnaryBehaviour<Op>)
        requires
            width > 0,
        ensures
            r.spec_width() == width,
            r.spec_input_width() == width,
    {
        UnaryBehaviour { outputs: [width], inputs: [width], op: PhantomData }
    }

    /// The widths of the outputs
    pub fn output_configuration(&self) -> (r: &[u32])
        ensures
            r@ == seq![self.spec_width()],
    {
        let r = self.outputs.as_slice();
        assert(r@ =~= seq![self.spec_width()]);
        r
    }

    /// The widths of the inputs
    pub fn input_configuration(&self) -> (r: &[u32])
        ensures
            r@ == seq![self.spec_input_width()],
    {
        let r = self.inputs.as_slice();
        assert(r@ =~= seq![self.spec_input_width()]);
        r
    }

    /// Applies the operation to every bit of the input, reporting whether the output changed
    pub fn update(&mut self, output: &mut Output, input: &Vec<LogicBitState>) -> (changed: bool)
        requires
            input@.len() >= old(output).state@.len(),
        ensures
            final(output).state@ == Seq::new(
                old(output).state@.len(),
                |i: int| Op::spec_execute(input@[i]),
            ),
            final(output).strength == OutputStrength::Strong,
            changed == (old(output).strength != OutputStrength::Strong || old(output).state@
                != final(output).state@),
    {
        let ghost expected = Seq::new(output.state@.len(), |i: int| Op::spec_execute(input@[i]));
        let mut new: Vec<LogicBitState> = Vec::new();
        let mut i: usize = 0;
        while i < output.state.len()
            invariant
                i <= output.state@.len() <= input@.len(),
                expected == Seq::new(output.state@.len(), |k: int| Op::spec_execute(input@[k])),
                new@ == expected.take(i as int),
            decreases output.state@.len() - i,
        {
            new.push(Op::execute(input[i]));
            i = i + 1;
            assert(new@ =~= expected.take(i as int));
        }
        assert(expected.take(i as int) =~= expected);
        write_output(output, &new, OutputStrength::Strong)
    }
}

/// The operation folded over bit `i` of each input, from the first input on
pub open spec fn fold_inputs<Op: BinaryOperation>(inputs: Seq<Vec<LogicBitState>>, n: nat, i: int) -> LogicBitState
    decreases n,
{
    if n <= 1 {
        inputs[0]@[i]
    } else {
        Op::spec_execute(fold_inputs::<Op>(inputs, (n - 1) as nat, i), inputs[n - 1]@[i])
    }
}

/// A component applying a binary operation to every bit of two or more inputs, folding from
/// the first input on
pub struct BinaryBehaviour<Op: BinaryOperation> {
    outputs: [u32; 1],
    inputs: Vec<u32>,
    op: PhantomData<Op>,
}

impl<Op: BinaryOperation> BinaryBehaviour<Op> {
    /// The width of the inputs and the output
    pub closed spec fn spec_width(&self) -> u32 {
        self.outputs[0]
    }

    /// The widths of the inputs
    pub closed spec fn spec_input_widths(&self) -> Seq<u32> {
        self.inputs@
    }

    /// A component of the given width with the given number of inputs
    pub fn new(width: u32, input_count: u32) -> (r: BinaryBehaviour<Op>)
        requires
            width > 0,
            input_count >= 2,
        ensures
            r.spec_width() == width,
            r.spec_input_widths() == Seq::new(input_count as nat, |i: int| width),
    {
        let mut inputs: Vec<u32> = Vec::new();
        let mut i: u32 = 0;
        while i < input_count
            invariant
                i <= input_count,
                inputs@ == Seq::new(i as nat, |k: int| width),
            decreases input_count - i,
        {
            inputs.push(width);
            i = i + 1;
            assert(inputs@ =~= Seq::new(i as nat, |k: int| width));
        }
        BinaryBehaviour { outputs: [width], inputs, op: PhantomData }
    }

    /// The widths of the outputs
    pub fn output_configuration(&self) -> (r: &[u32])
        ensures
            r@ == seq![self.spec_width()],
    {
        let r = self.outputs.as_slice();
        assert(r@ =~= seq![self.spec_width()]);
        r
    }

    /// The widths of the inputs
    pub fn input_configuration(&self) -> (r: &[u32])
        ensures
            r@ == self.spec_input_widths(),
    {
        self.inputs.as_slice()
    }

    /// Folds the operation over every bit of the inputs, reporting whether the output changed
    pub fn update(&mut self, output: &mut Output, inputs: &Vec<Vec<LogicBitState>>) -> (changed: bool)
        requires
            inputs@.len() >= 1,
            forall|k: int| 0 <= k < inputs@.len() ==> (#[trigger] inputs@[k])@.len() >= old(output).state@.len(),
        ensures
            final(output).state@ == Seq::new(
                old(output).state@.len(),
                |i: int| fold_inputs::<Op>(inputs@, inputs@.len(), i),
            ),
            final(output).strength == OutputStrength::Strong,
            changed == (old(output).strength != OutputStrength::Strong || old(output).state@
                != final(output).state@),
    {
        let ghost expected = Seq::new(
            output.state@.len(),
            |i: int| fold_inputs::<Op>(inputs@, inputs@.len(), i),
        );
        let mut new: Vec<LogicBitState> = Vec::new();
        let mut i: usize = 0;
        while i < output.state.len()
            invariant
                i <= output.state@.len(),
                inputs@.len() >= 1,
                forall|k: int| 0 <= k < inputs@.len() ==> (#[trigger] inputs@[k])@.len() >= output.state@.len(),
                expected == Seq::new(
                    output.state@.len(),
                    |m: int| fold_inputs::<Op>(inputs@, inputs@.len(), m),
                ),
                new@ == expected.take(i as int),
            decreases output.state@.len() - i,
        {
            let mut state = inputs[0][i];
            let mut k: usize = 1;
            while k < inputs.len()
                invariant
                    1 <= k <= inputs@.len(),
                    i < output.state@.len(),
                    forall|m: int| 0 <= m < inputs@.len() ==> (#[trigger] inputs@[m])@.len() >= output.state@.len(),
                    state == fold_inputs::<Op>(inputs@, k as nat, i as int),
                decreases inputs@.len() - k,
            {
                state = Op::execute(state, inputs[k][i]);
                k = k + 1;
            }
            new.push(state);
            i = i + 1;
            assert(new@ =~= expected.take(i as int));
        }
        assert(expected.take(i as int) =~= expected);
        write_output(output, &new, OutputStrength::Strong)
    }
}


/// The bit operations on valid bits are the boolean functions they are named after, and
/// negation turns anything invalid into undefined
pub proof fn law_operations_on_valid_bits(p: bool, q: bool, x: LogicBitState)
    ensures
        ({
            let a = crate::logic_bit::spec_from_bool(p);
            let b = crate::logic_bit::spec_from_bool(q);
            &&& <Not as UnaryOperation>::spec_execute(a) == crate::logic_bit::spec_from_bool(!p)
            &&& <And as BinaryOperation>::spec_execute(a, b) == crate::logic_bit::spec_from_bool(p && q)
            &&& <Nand as BinaryOperation>::spec_execute(a, b) == crate::logic_bit::spec_from_bool(!(p && q))
            &&& <Or as BinaryOperation>::spec_execute(a, b) == crate::logic_bit::spec_from_bool(p || q)
            &&& <Nor as BinaryOperation>::spec_execute(a, b) == crate::logic_bit::spec_from_bool(!(p || q))
            &&& <Xor as BinaryOperation>::spec_execute(a, b) == crate::logic_bit::spec_from_bool(p != q)
            &&& <Xnor as BinaryOperation>::spec_execute(a, b) == crate::logic_bit::spec_from_bool(p == q)
            &&& (x == LogicBitState::HighZ || x == LogicBitState::Undefined) ==> <Not as UnaryOperation>::spec_execute(x)
                == LogicBitState::Undefined
        }),
{
}

} // verus!
