//! The components of a simulation: what each one computes from the states of its input wires.
use vstd::prelude::*;
use crate::bit_width::BitWidth;
use crate::id::{WireId, WireStateId, OutputStateId};
use crate::logic_bit::{
    LogicBitState, not_bit, and_bit, or_bit, xor_bit, nand_bit, nor_bit, xnor_bit,
    high_z_to_undefined_bit, is_valid_bit, bit_value, spec_from_bool,
};
use crate::logic_state::{LogicState, CopyFromResult, uniform};
use crate::ops::{
    word_state, map_bits, zip_bits, carried_word, state_word_bit, lemma_state_bit, spec_add_word,
    spec_sub_word, binary_op, binary_op_mut, unary_op, unary_op_mut, carrying_binary_op,
    logic_and, logic_or, logic_xor, logic_nand, logic_nor, logic_xnor, logic_not,
    high_z_to_undefined,
};
use crate::state_alloc::{WireStateAllocator, OutputStateAllocator};
use smallvec::SmallVec;
use crate::mul::mul_word;
use crate::shift::{
    shift_left, shift_right_logical, shift_right_arithmetic, shift_amount_word, shl_bit, lshr_bit,
    ashr_word,
};

verus! {

broadcast use LogicState::lemma_plane_len;

/// The logic function of a gate
#[derive(Debug, Clone, Copy, PartialEq, Eq, Structural)]
pub enum GateKind {
    And,
    Or,
    Xor,
    Nand,
    Nor,
    Xnor,
}

/// What a two-input gate of the given kind does to one bit of each input
pub open spec fn gate_fn(kind: GateKind) -> spec_fn(LogicBitState, LogicBitState) -> LogicBitState {
    match kind {
        GateKind::And => |a: LogicBitState, b: LogicBitState| and_bit(a, b),
        GateKind::Or => |a: LogicBitState, b: LogicBitState| or_bit(a, b),
        GateKind::Xor => |a: LogicBitState, b: LogicBitState| xor_bit(a, b),
        GateKind::Nand => |a: LogicBitState, b: LogicBitState| nand_bit(a, b),
        GateKind::Nor => |a: LogicBitState, b: LogicBitState| nor_bit(a, b),
        GateKind::Xnor => |a: LogicBitState, b: LogicBitState| xnor_bit(a, b),
    }
}

/// The function a gate with many inputs folds over them before an inverting kind negates
/// the result
pub open spec fn base_fn(kind: GateKind) -> spec_fn(LogicBitState, LogicBitState) -> LogicBitState {
    match kind {
        GateKind::And | GateKind::Nand => gate_fn(GateKind::And),
        GateKind::Or | GateKind::Nor => gate_fn(GateKind::Or),
        GateKind::Xor | GateKind::Xnor => gate_fn(GateKind::Xor),
    }
}

/// True for the kinds NAND, NOR and XNOR
pub open spec fn negates(kind: GateKind) -> bool {
    kind == GateKind::Nand || kind == GateKind::Nor || kind == GateKind::Xnor
}

/// Logical negation of one bit
pub open spec fn not_fn() -> spec_fn(LogicBitState) -> LogicBitState {
    |a: LogicBitState| not_bit(a)
}

/// High impedance read as undefined
pub open spec fn high_z_to_undefined_fn() -> spec_fn(LogicBitState) -> LogicBitState {
    |a: LogicBitState| high_z_to_undefined_bit(a)
}

/// Adding two words with a carry
pub open spec fn add_word_fn() -> spec_fn([u32; 2], [u32; 2], LogicBitState) -> (
    [u32; 2],
    LogicBitState,
) {
    |a: [u32; 2], b: [u32; 2], c: LogicBitState| spec_add_word(a, b, c)
}

/// Subtracting two words with a borrow
pub open spec fn sub_word_fn() -> spec_fn([u32; 2], [u32; 2], LogicBitState) -> (
    [u32; 2],
    LogicBitState,
) {
    |a: [u32; 2], b: [u32; 2], c: LogicBitState| spec_sub_word(a, b, c)
}

/// Folds `f` over the bit sequences from the first to the last
pub open spec fn fold_bits(
    views: Seq<Seq<LogicBitState>>,
    f: spec_fn(LogicBitState, LogicBitState) -> LogicBitState,
) -> Seq<LogicBitState>
    decreases views.len(),
{
    if views.len() <= 1 {
        views[0]
    } else {
        zip_bits(fold_bits(views.drop_last(), f), views.last(), f)
    }
}

/// The bits of a word-by-word carrying operation on `a` and `b`, `a`'s width long
pub open spec fn carried_view(
    a: LogicState,
    b: LogicState,
    carry_in: LogicBitState,
    g: spec_fn([u32; 2], [u32; 2], LogicBitState) -> ([u32; 2], LogicBitState),
) -> Seq<LogicBitState> {
    Seq::new(
        a.bit_width().width(),
        |i: int| word_state(carried_word(a, b, carry_in, g, (i / 32) as nat), (i % 32) as u32),
    )
}

/// The output of a buffer: the input with high impedance read as undefined while enabled,
/// high impedance while disabled, undefined while the enable bit is undefined
pub open spec fn buffer_view(input: Seq<LogicBitState>, enable: LogicBitState) -> Seq<
    LogicBitState,
> {
    match enable {
        LogicBitState::Logic1 => map_bits(input, high_z_to_undefined_fn()),
        LogicBitState::Undefined => uniform(input.len(), LogicBitState::Undefined),
        _ => uniform(input.len(), LogicBitState::HighZ),
    }
}

/// What a component computes, with the wires it reads
pub enum ComponentKind {
    /// A gate with two inputs
    Gate { kind: GateKind, input_a: WireStateId, input_b: WireStateId },
    /// A gate with more than two inputs
    WideGate { kind: GateKind, inputs: IdList },
    /// Logical negation
    NotGate { input: WireStateId },
    /// A tri-state buffer
    Buffer { input: WireStateId, enable: WireStateId },
    /// Two's complement addition
    Add { input_a: WireStateId, input_b: WireStateId },
    /// Two's complement subtraction
    Sub { input_a: WireStateId, input_b: WireStateId },
    /// Two's complement negation
    Neg { input: WireStateId },
    /// Multiplication
    Mul { input_a: WireStateId, input_b: WireStateId },
    /// A shifter
    Shift { kind: ShiftKind, input: WireStateId, shift_amount: WireStateId },
}

/// The direction and fill of a shifter
#[derive(Debug, Clone, Copy, PartialEq, Eq, Structural)]
pub enum ShiftKind {
    /// Towards the most significant bit, filling with `0`
    Left,
    /// Towards the least significant bit, filling with `0`
    LogicalRight,
    /// Towards the least significant bit, filling with the sign bit
    ArithmeticRight,
}

/// The state of a wire among the states of all wires
pub open spec fn wire_state(states: Seq<LogicState>, w: WireStateId) -> LogicState {
    states[w.spec_index() as int]
}

impl ComponentKind {
    /// The wires the component reads
    pub open spec fn inputs(&self) -> Seq<WireStateId> {
        match self {
            ComponentKind::Gate { input_a, input_b, .. } => seq![*input_a, *input_b],
            ComponentKind::WideGate { inputs, .. } => state_ids_of(*inputs),
            ComponentKind::NotGate { input } => seq![*input],
            ComponentKind::Buffer { input, enable } => seq![*input, *enable],
            ComponentKind::Add { input_a, input_b } => seq![*input_a, *input_b],
            ComponentKind::Sub { input_a, input_b } => seq![*input_a, *input_b],
            ComponentKind::Neg { input } => seq![*input],
            ComponentKind::Mul { input_a, input_b } => seq![*input_a, *input_b],
            ComponentKind::Shift { input, shift_amount, .. } => seq![*input, *shift_amount],
        }
    }

    /// The input wires whose width must equal the width of the output
    pub open spec fn same_width_inputs(&self) -> Seq<WireStateId> {
        match self {
            ComponentKind::Buffer { input, .. } => seq![*input],
            ComponentKind::Shift { input, .. } => seq![*input],
            _ => self.inputs(),
        }
    }

    /// Whether the component's inputs name wires among `states` and have the widths it needs
    /// for an output of width `width`
    pub open spec fn fits(&self, states: Seq<LogicState>, width: BitWidth) -> bool {
        &&& forall|n: int|
            0 <= n < self.inputs().len() ==> (#[trigger] self.inputs()[n]).spec_index()
                < states.len()
        &&& forall|n: int|
            0 <= n < self.same_width_inputs().len() ==> wire_state(
                states,
                #[trigger] self.same_width_inputs()[n],
            ).bit_width() == width
        &&& self matches ComponentKind::WideGate { inputs, .. } ==> id_list(*inputs).len() >= 2
    }

    /// The number of wires the component reads
    pub fn input_count(&self) -> (r: usize)
        ensures
            r == self.inputs().len(),
    {
        match self {
            ComponentKind::Gate { .. } => 2,
            ComponentKind::WideGate { inputs, .. } => id_list_slice(inputs).len(),
            ComponentKind::NotGate { .. } => 1,
            ComponentKind::Buffer { .. } => 2,
            ComponentKind::Add { .. } => 2,
            ComponentKind::Sub { .. } => 2,
            ComponentKind::Neg { .. } => 1,
            ComponentKind::Mul { .. } => 2,
            ComponentKind::Shift { .. } => 2,
        }
    }

    /// The `n`-th wire the component reads
    pub fn input(&self, n: usize) -> (r: WireStateId)
        requires
            n < self.inputs().len(),
        ensures
            r == self.inputs()[n as int],
    {
        match self {
            ComponentKind::Gate { input_a, input_b, .. } => if n == 0 {
                *input_a
            } else {
                *input_b
            },
            ComponentKind::WideGate { inputs, .. } => WireStateId::new(id_list_slice(inputs)[n]),
            ComponentKind::NotGate { input } => *input,
            ComponentKind::Buffer { input, enable } => if n == 0 {
                *input
            } else {
                *enable
            },
            ComponentKind::Add { input_a, input_b } => if n == 0 {
                *input_a
            } else {
                *input_b
            },
            ComponentKind::Sub { input_a, input_b } => if n == 0 {
                *input_a
            } else {
                *input_b
            },
            ComponentKind::Neg { input } => *input,
            ComponentKind::Mul { input_a, input_b } => if n == 0 {
                *input_a
            } else {
                *input_b
            },
            ComponentKind::Shift { input, shift_amount, .. } => if n == 0 {
                *input
            } else {
                *shift_amount
            },
        }
    }

    /// Whether the component fits is kept when more wire states are added
    pub proof fn lemma_fits_grow(&self, s1: Seq<LogicState>, s2: Seq<LogicState>, width: BitWidth)
        requires
            self.fits(s1, width),
            s1.len() <= s2.len(),
            forall|i: int| 0 <= i < s1.len() ==> s1[i] == s2[i],
        ensures
            self.fits(s2, width),
    {
        assert forall|n: int| 0 <= n < self.same_width_inputs().len() implies wire_state(
            s2,
            #[trigger] self.same_width_inputs()[n],
        ).bit_width() == width by {
            let w = self.same_width_inputs()[n];
            assert(wire_state(s1, w).bit_width() == width);
            match self {
                ComponentKind::Buffer { input, .. } => {
                    assert(self.inputs()[0] == w);
                },
                _ => {
                    assert(self.inputs()[n] == w);
                },
            }
        }
    }

    /// Whether the component fits depends only on the widths of the wire states
    pub proof fn lemma_fits_frame(&self, s1: Seq<LogicState>, s2: Seq<LogicState>, width: BitWidth)
        requires
            self.fits(s1, width),
            s1.len() == s2.len(),
            forall|i: int| 0 <= i < s1.len() ==> s1[i].bit_width() == s2[i].bit_width(),
        ensures
            self.fits(s2, width),
    {
        assert forall|n: int| 0 <= n < self.same_width_inputs().len() implies wire_state(
            s2,
            #[trigger] self.same_width_inputs()[n],
        ).bit_width() == width by {
            let w = self.same_width_inputs()[n];
            assert(wire_state(s1, w).bit_width() == width);
            match self {
                ComponentKind::Buffer { input, .. } => {
                    assert(self.inputs()[0] == w);
                },
                _ => {
                    assert(self.inputs()[n] == w);
                },
            }
        }
    }

    /// What the component computes depends only on the states of the wires it reads
    pub proof fn lemma_eval_frame(&self, s1: Seq<LogicState>, s2: Seq<LogicState>, width: BitWidth)
        requires
            forall|n: int| 0 <= n < self.inputs().len() ==> (#[trigger] self.inputs()[n]).spec_index()
                < s1.len(),
            s1.len() == s2.len(),
            forall|n: int|
                0 <= n < self.inputs().len() ==> wire_state(s1, #[trigger] self.inputs()[n])
                    == wire_state(s2, self.inputs()[n]),
        ensures
            self.eval(s1, width) == self.eval(s2, width),
    {
        let ins = self.inputs();
        let v1 = ins.map_values(|w: WireStateId| wire_state(s1, w)@);
        let v2 = ins.map_values(|w: WireStateId| wire_state(s2, w)@);
        assert forall|n: int| 0 <= n < v1.len() implies v1[n] == v2[n] by {
            assert(wire_state(s1, ins[n]) == wire_state(s2, ins[n]));
        }
        assert(v1 =~= v2);
        if ins.len() > 0 {
            assert(wire_state(s1, ins[0]) == wire_state(s2, ins[0]));
        }
        if ins.len() > 1 {
            assert(wire_state(s1, ins[1]) == wire_state(s2, ins[1]));
        }
    }

    /// The output of the component, given the states of all wires and the width of the output
    pub open spec fn eval(&self, states: Seq<LogicState>, width: BitWidth) -> Seq<LogicBitState> {
        op_eval(self.op(), self.inputs(), states, width)
    }

    /// The operation the component performs
    pub open spec fn op(&self) -> ComponentOp {
        match self {
            ComponentKind::Gate { kind, .. } => ComponentOp::Gate(*kind),
            ComponentKind::WideGate { kind, .. } => ComponentOp::Gate(*kind),
            ComponentKind::NotGate { .. } => ComponentOp::Not,
            ComponentKind::Buffer { .. } => ComponentOp::Buffer,
            ComponentKind::Add { .. } => ComponentOp::Add,
            ComponentKind::Sub { .. } => ComponentOp::Sub,
            ComponentKind::Neg { .. } => ComponentOp::Neg,
            ComponentKind::Mul { .. } => ComponentOp::Mul,
            ComponentKind::Shift { kind, .. } => ComponentOp::Shift(*kind),
        }
    }
}

/// The operation of a component
#[derive(Debug, Clone, Copy, PartialEq, Eq, Structural)]
pub enum ComponentOp {
    /// A gate of the given kind over all inputs
    Gate(GateKind),
    /// Logical negation of the input
    Not,
    /// The first input, passed on while the second is `1`
    Buffer,
    /// The sum of the inputs
    Add,
    /// The difference of the inputs
    Sub,
    /// The negation of the input
    Neg,
    /// The product of the inputs
    Mul,
    /// The first input shifted by the second
    Shift(ShiftKind),
}

/// The bits of a state of the given width whose word `k` is `words(k)`
pub open spec fn words_view(width: nat, words: spec_fn(int) -> [u32; 2]) -> Seq<LogicBitState> {
    Seq::new(width, |i: int| word_state(words(i / 32), (i % 32) as u32))
}

/// The output of a shifter of the given kind
pub open spec fn shift_eval(kind: ShiftKind, input: LogicState, shift_amount: LogicState) -> Seq<
    LogicBitState,
> {
    let width = input.bit_width();
    let a = shift_amount_word(shift_amount, width);
    if width.width() == 1 {
        input@
    } else if a[1] != 0 {
        uniform(width.width(), LogicBitState::Undefined)
    } else {
        match kind {
            ShiftKind::Left => Seq::new(
                width.width(),
                |i: int| shl_bit(input, a[0], i / 32, (i % 32) as u32),
            ),
            ShiftKind::LogicalRight => Seq::new(
                width.width(),
                |i: int| lshr_bit(input, a[0], i / 32, (i % 32) as u32),
            ),
            ShiftKind::ArithmeticRight => words_view(
                width.width(),
                |k: int| ashr_word(input, a[0], k),
            ),
        }
    }
}

/// The output of a component performing `op` on the wires `inputs`, given the states of all
/// wires and the width of the output
pub open spec fn op_eval(
    op: ComponentOp,
    inputs: Seq<WireStateId>,
    states: Seq<LogicState>,
    width: BitWidth,
) -> Seq<LogicBitState> {
    match op {
        ComponentOp::Gate(kind) => {
            let folded = fold_bits(
                inputs.map_values(|w: WireStateId| wire_state(states, w)@),
                base_fn(kind),
            );
            if negates(kind) {
                map_bits(folded, not_fn())
            } else {
                folded
            }
        },
        ComponentOp::Not => map_bits(wire_state(states, inputs[0])@, not_fn()),
        ComponentOp::Buffer => buffer_view(
            wire_state(states, inputs[0])@,
            wire_state(states, inputs[1])@[0],
        ),
        ComponentOp::Add => carried_view(
            wire_state(states, inputs[0]),
            wire_state(states, inputs[1]),
            LogicBitState::Logic0,
            add_word_fn(),
        ),
        ComponentOp::Sub => carried_view(
            wire_state(states, inputs[0]),
            wire_state(states, inputs[1]),
            LogicBitState::Logic1,
            sub_word_fn(),
        ),
        ComponentOp::Neg => carried_view(
            LogicState::spec_logic_0(width),
            wire_state(states, inputs[0]),
            LogicBitState::Logic1,
            sub_word_fn(),
        ),
        ComponentOp::Mul => words_view(
            width.width(),
            |k: int| mul_word(wire_state(states, inputs[0]), wire_state(states, inputs[1]), k),
        ),
        ComponentOp::Shift(kind) => shift_eval(
            kind,
            wire_state(states, inputs[0]),
            wire_state(states, inputs[1]),
        ),
    }
}

/// A state whose words are given by `words` holds the bits of `words_view`
pub(crate) proof fn lemma_words_view(out: LogicState, words: spec_fn(int) -> [u32; 2])
    requires
        forall|k: int| 0 <= k < out.bit_width().spec_word_len() ==> #[trigger] out.spec_word(k) == words(k),
    ensures
        out@ == words_view(out.bit_width().width(), words),
{
    assert forall|i: int| 0 <= i < out@.len() implies out@[i] == words_view(out.bit_width().width(), words)[i] by {
        lemma_state_bit(out, i);
        assert(out.spec_word(i / 32) == words(i / 32));
    }
    assert(out@ =~= words_view(out.bit_width().width(), words));
}

/// Computes a shift into `out`
fn shift_op(out: &mut LogicState, kind: ShiftKind, input: &LogicState, shift_amount: &LogicState)
    requires
        old(out).bit_width() == input.bit_width(),
    ensures
        final(out).bit_width() == old(out).bit_width(),
        final(out)@ == shift_eval(kind, *input, *shift_amount),
{
    broadcast use BitWidth::lemma_width_range;
    let ghost width = input.bit_width();
    let ghost a = shift_amount_word(*shift_amount, width);
    match kind {
        ShiftKind::Left => {
            shift_left(out, input, shift_amount);
            proof {
                if width.width() > 1 && a[1] == 0 {
                    assert forall|i: int| 0 <= i < out@.len() implies out@[i] == shift_eval(kind, *input, *shift_amount)[i] by {
                        lemma_state_bit(*out, i);
                    }
                }
            }
        },
        ShiftKind::LogicalRight => {
            shift_right_logical(out, input, shift_amount);
            proof {
                if width.width() > 1 && a[1] == 0 {
                    assert forall|i: int| 0 <= i < out@.len() implies out@[i] == shift_eval(kind, *input, *shift_amount)[i] by {
                        lemma_state_bit(*out, i);
                    }
                }
            }
        },
        ShiftKind::ArithmeticRight => {
            shift_right_arithmetic(out, input, shift_amount);
            proof {
                if width.width() > 1 && a[1] == 0 {
                    lemma_words_view(*out, |k: int| ashr_word(*input, a[0], k));
                }
            }
        },
    }
    proof {
        if width.width() > 1 && a[1] != 0 {
            assert forall|i: int| 0 <= i < out@.len() implies out@[i] == LogicBitState::Undefined by {
                lemma_state_bit(*out, i);
                let k = i / 32;
                assert(out.spec_word(k) == [0xffff_ffffu32, 0xffff_ffffu32]);
                assert(out.spec_word(k)[0] == out.spec_plane_0()[k]);
                assert(out.spec_word(k)[1] == out.spec_plane_1()[k]);
                crate::word::lemma_bit_max((i % 32) as u32);
            }
        }
        assert(out@ =~= shift_eval(kind, *input, *shift_amount));
    }
}

/// A two-input gate is its base function folded over both inputs, inverted if the kind negates
proof fn lemma_gate_fold(kind: GateKind, a: Seq<LogicBitState>, b: Seq<LogicBitState>)
    requires
        a.len() == b.len(),
    ensures
        zip_bits(a, b, gate_fn(kind)) == ({
            let folded = fold_bits(seq![a, b], base_fn(kind));
            if negates(kind) {
                map_bits(folded, not_fn())
            } else {
                folded
            }
        }),
{
    let views = seq![a, b];
    assert(views.drop_last() =~= seq![a]);
    assert(fold_bits(views.drop_last(), base_fn(kind)) == a);
    assert(fold_bits(views, base_fn(kind)) == zip_bits(a, b, base_fn(kind)));
    if negates(kind) {
        assert(zip_bits(a, b, gate_fn(kind)) =~= map_bits(zip_bits(a, b, base_fn(kind)), not_fn()));
    } else {
        assert(zip_bits(a, b, gate_fn(kind)) =~= zip_bits(a, b, base_fn(kind)));
    }
}

/// A short list of wire or wire-state indices, kept in a small vector
#[verifier::external_body]
pub struct IdList {
    list: SmallVec<[u32; 4]>,
}

/// The indices a list holds, in order
pub uninterp spec fn id_list(v: IdList) -> Seq<u32>;

/// An empty list (`SmallVec::new`); the contract claims it holds nothing
#[verifier::external_body]
pub(crate) fn id_list_new() -> (r: IdList)
    ensures
        id_list(r).len() == 0,
{
    IdList { list: SmallVec::new() }
}

/// Appends an index (`SmallVec::push`); the contract claims it goes to the end
#[verifier::external_body]
pub(crate) fn id_list_push(v: &mut IdList, index: u32)
    ensures
        id_list(*final(v)) == id_list(*old(v)).push(index),
{
    v.list.push(index);
}

/// The indices of a list (`SmallVec::as_slice`); the contract claims they come in order
#[verifier::external_body]
pub(crate) fn id_list_slice(v: &IdList) -> (r: &[u32])
    ensures
        r@ == id_list(*v),
{
    v.list.as_slice()
}

/// The wire-state IDs a list of indices names
pub open spec fn state_ids_of(list: IdList) -> Seq<WireStateId> {
    id_list(list).map_values(|i: u32| WireStateId::spec_new(i))
}

/// A component of the simulation: what it computes, and the output it drives
pub struct Component {
    kind: ComponentKind,
    output_state: OutputStateId,
    output_wire: WireId,
}

impl Component {
    /// What the component computes
    pub closed spec fn spec_kind(&self) -> ComponentKind {
        self.kind
    }

    /// The output state the component writes
    pub closed spec fn spec_output_state(&self) -> OutputStateId {
        self.output_state
    }

    /// The wire the component drives
    pub closed spec fn spec_output_wire(&self) -> WireId {
        self.output_wire
    }

    /// The component computing `kind` into `output_state`, which drives `output_wire`
    pub closed spec fn spec_make(kind: ComponentKind, output_state: OutputStateId, output_wire: WireId) -> Component {
        Component { kind, output_state, output_wire }
    }

    /// A component computing `kind` into `output_state`, which drives `output_wire`
    pub fn new(kind: ComponentKind, output_state: OutputStateId, output_wire: WireId) -> (r: Component)
        ensures
            r.spec_kind() == kind,
            r.spec_output_state() == output_state,
            r.spec_output_wire() == output_wire,
            r == Self::spec_make(kind, output_state, output_wire),
    {
        Component { kind, output_state, output_wire }
    }

    /// The output state the component writes
    pub fn output_state(&self) -> (r: OutputStateId)
        ensures
            r == self.spec_output_state(),
    {
        self.output_state
    }

    /// The wire the component drives
    pub fn output_wire(&self) -> (r: WireId)
        ensures
            r == self.spec_output_wire(),
    {
        self.output_wire
    }

    /// Computes the output of the component from the wire states into `out`
    fn compute(&self, out: &mut LogicState, wire_states: &WireStateAllocator)
        requires
            self.spec_kind().fits(wire_states.spec_states(), old(out).bit_width()),
        ensures
            final(out).bit_width() == old(out).bit_width(),
            final(out)@ == self.spec_kind().eval(wire_states.spec_states(), old(out).bit_width()),
    {
        let ghost states = wire_states.spec_states();
        let width = out.bit_width();
        match &self.kind {
            ComponentKind::Gate { kind, input_a, input_b } => {
                assert(self.spec_kind().inputs()[0] == *input_a);
                assert(self.spec_kind().inputs()[1] == *input_b);
                assert(self.spec_kind().same_width_inputs()[0] == *input_a);
                assert(self.spec_kind().same_width_inputs()[1] == *input_b);
                let a = wire_states.get_state(*input_a);
                let b = wire_states.get_state(*input_b);
                assert(wire_state(states, *input_a) == *a);
                assert(wire_state(states, *input_b) == *b);
                gate_op(out, *kind, a, b);
                proof {
                    lemma_gate_fold(*kind, a@, b@);
                    assert(self.spec_kind().inputs().map_values(|w: WireStateId| wire_state(states, w)@) =~= seq![a@, b@]);
                }
            },
            ComponentKind::WideGate { kind, inputs } => {
                let ghost ids = state_ids_of(*inputs);
                let ghost views = ids.map_values(|w: WireStateId| wire_state(states, w)@);
                let slice = id_list_slice(inputs);
                assert(self.spec_kind().inputs()[0] == ids[0]);
                assert(self.spec_kind().inputs()[1] == ids[1]);
                assert(self.spec_kind().same_width_inputs()[0] == ids[0]);
                assert(self.spec_kind().same_width_inputs()[1] == ids[1]);
                let a = wire_states.get_state(WireStateId::new(slice[0]));
                let b = wire_states.get_state(WireStateId::new(slice[1]));
                assert(wire_state(states, ids[0]) == *a);
                assert(wire_state(states, ids[1]) == *b);
                gate_op(out, base_kind(*kind), a, b);
                proof {
                    assert(views.take(2).drop_last() =~= views.take(1));
                    assert(fold_bits(views.take(1), base_fn(*kind)) == views[0]);
                    assert(zip_bits(a@, b@, base_fn(*kind)) == fold_bits(views.take(2), base_fn(*kind)));
                }
                let mut n: usize = 2;
                while n < slice.len()
                    invariant
                        self.spec_kind() == (ComponentKind::WideGate { kind: *kind, inputs: *inputs }),
                        self.spec_kind().fits(states, width),
                        states == wire_states.spec_states(),
                        ids == state_ids_of(*inputs),
                        slice@ == id_list(*inputs),
                        views == ids.map_values(|w: WireStateId| wire_state(states, w)@),
                        2 <= n <= ids.len(),
                        out.bit_width() == width,
                        out@ == fold_bits(views.take(n as int), base_fn(*kind)),
                    decreases ids.len() - n,
                {
                    assert(self.spec_kind().inputs()[n as int] == ids[n as int]);
                    assert(self.spec_kind().same_width_inputs()[n as int] == ids[n as int]);
                    let c = wire_states.get_state(WireStateId::new(slice[n]));
                    gate_fold_op(out, *kind, c);
                    proof {
                        assert(views.take(n + 1).drop_last() =~= views.take(n as int));
                        assert(views.take(n + 1).last() == c@);
                    }
                    n = n + 1;
                }
                assert(views.take(n as int) =~= views);
                if kind.is_negating() {
                    unary_op_mut(out, logic_not, Ghost(not_fn()));
                }
            },
            ComponentKind::NotGate { input } => {
                assert(self.spec_kind().inputs()[0] == *input);
                assert(self.spec_kind().same_width_inputs()[0] == *input);
                let a = wire_states.get_state(*input);
                assert(wire_state(states, *input) == *a);
                unary_op(out, a, logic_not, Ghost(not_fn()));
            },
            ComponentKind::Buffer { input, enable } => {
                assert(self.spec_kind().inputs()[0] == *input);
                assert(self.spec_kind().inputs()[1] == *enable);
                assert(self.spec_kind().same_width_inputs()[0] == *input);
                let a = wire_states.get_state(*input);
                assert(wire_state(states, *input) == *a);
                let en = wire_states.get_state(*enable);
                assert(wire_state(states, *enable) == *en);
                proof {
                    broadcast use BitWidth::lemma_width_range;
                }
                match en.bit(0) {
                    Some(LogicBitState::Logic1) => {
                        unary_op(out, a, high_z_to_undefined, Ghost(high_z_to_undefined_fn()));
                    },
                    Some(LogicBitState::Undefined) => {
                        *out = LogicState::undefined(width);
                    },
                    _ => {
                        *out = LogicState::high_z(width);
                    },
                }
            },
            ComponentKind::Add { input_a, input_b } => {
                assert(self.spec_kind().same_width_inputs()[0] == *input_a);
                assert(self.spec_kind().same_width_inputs()[1] == *input_b);
                assert(self.spec_kind().inputs()[0] == *input_a);
                assert(self.spec_kind().inputs()[1] == *input_b);
                let a = wire_states.get_state(*input_a);
                assert(wire_state(states, *input_a) == *a);
                let b = wire_states.get_state(*input_b);
                assert(wire_state(states, *input_b) == *b);
                carrying_binary_op(
                    out,
                    a,
                    b,
                    LogicBitState::Logic0,
                    crate::ops::add,
                    Ghost(add_word_fn()),
                );
                proof {
                    lemma_carried_view(*out, *a, *b, LogicBitState::Logic0, add_word_fn());
                }
            },
            ComponentKind::Sub { input_a, input_b } => {
                assert(self.spec_kind().same_width_inputs()[0] == *input_a);
                assert(self.spec_kind().same_width_inputs()[1] == *input_b);
                assert(self.spec_kind().inputs()[0] == *input_a);
                assert(self.spec_kind().inputs()[1] == *input_b);
                let a = wire_states.get_state(*input_a);
                assert(wire_state(states, *input_a) == *a);
                let b = wire_states.get_state(*input_b);
                assert(wire_state(states, *input_b) == *b);
                carrying_binary_op(
                    out,
                    a,
                    b,
                    LogicBitState::Logic1,
                    crate::ops::sub,
                    Ghost(sub_word_fn()),
                );
                proof {
                    lemma_carried_view(*out, *a, *b, LogicBitState::Logic1, sub_word_fn());
                }
            },
            ComponentKind::Mul { input_a, input_b } => {
                assert(self.spec_kind().same_width_inputs()[0] == *input_a);
                assert(self.spec_kind().same_width_inputs()[1] == *input_b);
                assert(self.spec_kind().inputs()[0] == *input_a);
                assert(self.spec_kind().inputs()[1] == *input_b);
                let a = wire_states.get_state(*input_a);
                assert(wire_state(states, *input_a) == *a);
                let b = wire_states.get_state(*input_b);
                assert(wire_state(states, *input_b) == *b);
                crate::mul::mul(out, a, b);
                proof {
                    lemma_words_view(*out, |k: int| mul_word(*a, *b, k));
                }
            },
            ComponentKind::Shift { kind, input, shift_amount } => {
                assert(self.spec_kind().same_width_inputs()[0] == *input);
                assert(self.spec_kind().inputs()[0] == *input);
                assert(self.spec_kind().inputs()[1] == *shift_amount);
                let a = wire_states.get_state(*input);
                assert(wire_state(states, *input) == *a);
                let b = wire_states.get_state(*shift_amount);
                assert(wire_state(states, *shift_amount) == *b);
                shift_op(out, *kind, a, b);
            },
            ComponentKind::Neg { input } => {
                assert(self.spec_kind().same_width_inputs()[0] == *input);
                assert(self.spec_kind().inputs()[0] == *input);
                let b = wire_states.get_state(*input);
                assert(wire_state(states, *input) == *b);
                let zero = LogicState::logic_0(width);
                carrying_binary_op(
                    out,
                    &zero,
                    b,
                    LogicBitState::Logic1,
                    crate::ops::sub,
                    Ghost(sub_word_fn()),
                );
                proof {
                    lemma_carried_view(*out, zero, *b, LogicBitState::Logic1, sub_word_fn());
                }
            },
        }
    }

    /// Recomputes the output state of the component from the wire states
    ///
    /// Returns the index of the output wire if the output state changed, and nothing
    /// otherwise; if it did not change, nothing was written.
    pub fn update(&self, wire_states: &WireStateAllocator, outputs: &mut OutputStateAllocator) -> (changed: IdList)
        requires
            self.spec_output_state().spec_index() < old(outputs).spec_states().len(),
            self.spec_kind().fits(
                wire_states.spec_states(),
                old(outputs).spec_states()[self.spec_output_state().spec_index() as int].bit_width(),
            ),
        ensures
            final(outputs).spec_states().len() == old(outputs).spec_states().len(),
            forall|i: int|
                0 <= i < old(outputs).spec_states().len() && i != self.spec_output_state().spec_index()
                    ==> final(outputs).spec_states()[i] == old(outputs).spec_states()[i],
            final(outputs).spec_states()[self.spec_output_state().spec_index() as int].bit_width()
                == old(outputs).spec_states()[self.spec_output_state().spec_index() as int].bit_width(),
            final(outputs).spec_states()[self.spec_output_state().spec_index() as int]@
                == self.spec_kind().eval(
                wire_states.spec_states(),
                old(outputs).spec_states()[self.spec_output_state().spec_index() as int].bit_width(),
            ),
            id_list(changed).len() == 0 <==> final(outputs).spec_states() == old(outputs).spec_states(),
            id_list(changed).len() == 0 || id_list(changed) == seq![self.spec_output_wire().spec_index()],
    {
        let mut current = *outputs.get(self.output_state);
        let mut next = current;
        self.compute(&mut next, wire_states);
        let mut changed = id_list_new();
        let ghost old_state = current;
        match current.copy_from(&next) {
            CopyFromResult::Unchanged => {},
            CopyFromResult::Changed => {
                let ghost before = outputs.spec_states();
                outputs.set(self.output_state, current);
                proof {
                    let k = choose|k: int|
                        0 <= k < old_state.bit_width().spec_word_len() && !old_state.same_word(&next, k);
                    assert(current.same_word(&next, k));
                    assert(outputs.spec_states()[self.output_state.spec_index() as int] == current);
                    assert(current != old_state);
                    assert(outputs.spec_states() != before);
                }
                id_list_push(&mut changed, self.output_wire.index() as u32);
                assert(id_list(changed) =~= seq![self.spec_output_wire().spec_index()]);
            },
        }
        changed
    }
}

impl GateKind {
    /// True for the kinds NAND, NOR and XNOR
    pub fn is_negating(self) -> (r: bool)
        ensures
            r == negates(self),
    {
        match self {
            GateKind::Nand | GateKind::Nor | GateKind::Xnor => true,
            _ => false,
        }
    }
}

/// The kind whose two-input function a gate with many inputs folds
fn base_kind(kind: GateKind) -> (r: GateKind)
    ensures
        gate_fn(r) == base_fn(kind),
{
    match kind {
        GateKind::And | GateKind::Nand => GateKind::And,
        GateKind::Or | GateKind::Nor => GateKind::Or,
        GateKind::Xor | GateKind::Xnor => GateKind::Xor,
    }
}

/// A word-by-word carrying operation leaves the bits of `carried_view`
proof fn lemma_carried_view(
    out: LogicState,
    a: LogicState,
    b: LogicState,
    carry_in: LogicBitState,
    g: spec_fn([u32; 2], [u32; 2], LogicBitState) -> ([u32; 2], LogicBitState),
)
    requires
        out.bit_width() == a.bit_width(),
        forall|k: int|
            0 <= k < out.bit_width().spec_word_len() ==> out.spec_plane_0()[k] == carried_word(
                a,
                b,
                carry_in,
                g,
                k as nat,
            )[0] && out.spec_plane_1()[k] == carried_word(a, b, carry_in, g, k as nat)[1],
    ensures
        out@ == carried_view(a, b, carry_in, g),
{
    assert forall|i: int| 0 <= i < out@.len() implies out@[i] == carried_view(a, b, carry_in, g)[i] by {
        lemma_state_bit(out, i);
    }
    assert(out@ =~= carried_view(a, b, carry_in, g));
}

/// Computes the output of a two-input gate
fn gate_op(out: &mut LogicState, kind: GateKind, a: &LogicState, b: &LogicState)
    requires
        old(out).bit_width() == a.bit_width(),
        old(out).bit_width() == b.bit_width(),
    ensures
        final(out).bit_width() == old(out).bit_width(),
        final(out)@ == zip_bits(a@, b@, gate_fn(kind)),
{
    match kind {
        GateKind::And => binary_op(out, a, b, logic_and, Ghost(gate_fn(GateKind::And))),
        GateKind::Or => binary_op(out, a, b, logic_or, Ghost(gate_fn(GateKind::Or))),
        GateKind::Xor => binary_op(out, a, b, logic_xor, Ghost(gate_fn(GateKind::Xor))),
        GateKind::Nand => binary_op(out, a, b, logic_nand, Ghost(gate_fn(GateKind::Nand))),
        GateKind::Nor => binary_op(out, a, b, logic_nor, Ghost(gate_fn(GateKind::Nor))),
        GateKind::Xnor => binary_op(out, a, b, logic_xnor, Ghost(gate_fn(GateKind::Xnor))),
    }
}

/// Combines `input` into `out` with the folded function of a gate with many inputs
fn gate_fold_op(out: &mut LogicState, kind: GateKind, input: &LogicState)
    requires
        old(out).bit_width() == input.bit_width(),
    ensures
        final(out).bit_width() == old(out).bit_width(),
        final(out)@ == zip_bits(old(out)@, input@, base_fn(kind)),
{
    match kind {
        GateKind::And | GateKind::Nand => binary_op_mut(
            out,
            input,
            logic_and,
            Ghost(gate_fn(GateKind::And)),
        ),
        GateKind::Or | GateKind::Nor => binary_op_mut(
            out,
            input,
            logic_or,
            Ghost(gate_fn(GateKind::Or)),
        ),
        GateKind::Xor | GateKind::Xnor => binary_op_mut(
            out,
            input,
            logic_xor,
            Ghost(gate_fn(GateKind::Xor)),
        ),
    }
}


/// What a two-input gate component outputs, bit by bit: on valid bits the boolean function
/// of its kind; for AND and NAND a `0` on either input decides, for OR and NOR a `1` on either
/// input decides; anything else with an invalid input bit is undefined
pub proof fn law_component_gate(kind: GateKind, inputs: Seq<WireStateId>, states: Seq<LogicState>, width: BitWidth, i: int)
    requires
        inputs.len() == 2,
        wire_state(states, inputs[0])@.len() == wire_state(states, inputs[1])@.len(),
        0 <= i < wire_state(states, inputs[0])@.len(),
    ensures
        ({
            let x = wire_state(states, inputs[0])@[i];
            let y = wire_state(states, inputs[1])@[i];
            let r = op_eval(ComponentOp::Gate(kind), inputs, states, width)[i];
            let valid = is_valid_bit(x) && is_valid_bit(y);
            let (p, q) = (bit_value(x), bit_value(y));
            let zero = x == LogicBitState::Logic0 || y == LogicBitState::Logic0;
            let one = x == LogicBitState::Logic1 || y == LogicBitState::Logic1;
            &&& valid && kind == GateKind::And ==> r == spec_from_bool(p && q)
            &&& valid && kind == GateKind::Or ==> r == spec_from_bool(p || q)
            &&& valid && kind == GateKind::Xor ==> r == spec_from_bool(p != q)
            &&& valid && kind == GateKind::Nand ==> r == spec_from_bool(!(p && q))
            &&& valid && kind == GateKind::Nor ==> r == spec_from_bool(!(p || q))
            &&& valid && kind == GateKind::Xnor ==> r == spec_from_bool(p == q)
            &&& zero && kind == GateKind::And ==> r == LogicBitState::Logic0
            &&& zero && kind == GateKind::Nand ==> r == LogicBitState::Logic1
            &&& one && kind == GateKind::Or ==> r == LogicBitState::Logic1
            &&& one && kind == GateKind::Nor ==> r == LogicBitState::Logic0
            &&& !valid && !zero && (kind == GateKind::And || kind == GateKind::Nand) ==> r == LogicBitState::Undefined
            &&& !valid && !one && (kind == GateKind::Or || kind == GateKind::Nor) ==> r == LogicBitState::Undefined
            &&& !valid && (kind == GateKind::Xor || kind == GateKind::Xnor) ==> r == LogicBitState::Undefined
        }),
{
    let views = inputs.map_values(|w: WireStateId| wire_state(states, w)@);
    let f = base_fn(kind);
    assert(views.drop_last().len() == 1);
    assert(fold_bits(views.drop_last(), f) == views[0]);
    assert(views[0] == wire_state(states, inputs[0])@);
    assert(views.last() == wire_state(states, inputs[1])@);
    let folded = fold_bits(views, f);
    assert(folded == zip_bits(views[0], views.last(), f));
}

/// What a NOT component outputs, bit by bit: the negation of a valid input bit, undefined for
/// an invalid one
pub proof fn law_component_not(inputs: Seq<WireStateId>, states: Seq<LogicState>, width: BitWidth, i: int)
    requires
        inputs.len() >= 1,
        0 <= i < wire_state(states, inputs[0])@.len(),
    ensures
        ({
            let x = wire_state(states, inputs[0])@[i];
            let r = op_eval(ComponentOp::Not, inputs, states, width)[i];
            &&& is_valid_bit(x) ==> r == spec_from_bool(!bit_value(x))
            &&& !is_valid_bit(x) ==> r == LogicBitState::Undefined
        }),
{
}

/// What a buffer component outputs, bit by bit: while the enable bit is `1`, the input bit,
/// with high impedance read as undefined; while it is `0` or high impedance, high impedance;
/// while it is undefined, undefined
pub proof fn law_component_buffer(inputs: Seq<WireStateId>, states: Seq<LogicState>, width: BitWidth, i: int)
    requires
        inputs.len() >= 2,
        0 <= i < wire_state(states, inputs[0])@.len(),
    ensures
        ({
            let x = wire_state(states, inputs[0])@[i];
            let en = wire_state(states, inputs[1])@[0];
            let r = op_eval(ComponentOp::Buffer, inputs, states, width)[i];
            &&& en == LogicBitState::Logic1 && x != LogicBitState::HighZ ==> r == x
            &&& en == LogicBitState::Logic1 && x == LogicBitState::HighZ ==> r == LogicBitState::Undefined
            &&& (en == LogicBitState::Logic0 || en == LogicBitState::HighZ) ==> r == LogicBitState::HighZ
            &&& en == LogicBitState::Undefined ==> r == LogicBitState::Undefined
        }),
{
}


/// What a shifter component outputs, bit by bit, for a valid shift amount `s` on an input
/// more than one bit wide: a left shift moves input bit `i - s` to bit `i` and fills with
/// `0`; a logical right shift moves input bit `i + s` to bit `i` where that lies within the
/// width; an arithmetic right shift by less than the width does the same and fills with the
/// sign bit (as `law_ashr_bits` states in full); high impedance comes out undefined
pub proof fn law_component_shift(kind: ShiftKind, inputs: Seq<WireStateId>, states: Seq<LogicState>, width: BitWidth)
    requires
        inputs.len() >= 2,
        wire_state(states, inputs[0]).bit_width().width() > 1,
        shift_amount_word(wire_state(states, inputs[1]), wire_state(states, inputs[0]).bit_width())[1] == 0,
    ensures
        ({
            let input = wire_state(states, inputs[0]);
            let s = shift_amount_word(wire_state(states, inputs[1]), input.bit_width())[0];
            let r = op_eval(ComponentOp::Shift(kind), inputs, states, width);
            let w = input@.len();
            &&& r.len() == w
            &&& kind == ShiftKind::Left ==> forall|i: int|
                0 <= i < w ==> #[trigger] r[i] == if i >= s {
                    high_z_to_undefined_bit(input@[i - s])
                } else {
                    LogicBitState::Logic0
                }
            &&& kind == ShiftKind::LogicalRight ==> forall|i: int|
                0 <= i < w && i + s < w ==> #[trigger] r[i] == high_z_to_undefined_bit(input@[i + s])
            &&& kind == ShiftKind::ArithmeticRight && s < w ==> forall|i: int|
                0 <= i < w && i + s < w ==> #[trigger] r[i] == high_z_to_undefined_bit(input@[i + s])
            &&& kind == ShiftKind::ArithmeticRight && s < w && w % 32 == 0 && input@[w - 1]
                != LogicBitState::HighZ ==> forall|i: int|
                0 <= i < w && i + s >= w ==> #[trigger] r[i] == high_z_to_undefined_bit(input@[w - 1])
        }),
{
    broadcast use BitWidth::lemma_width_range;
    let input = wire_state(states, inputs[0]);
    let s = shift_amount_word(wire_state(states, inputs[1]), input.bit_width())[0];
    let r = op_eval(ComponentOp::Shift(kind), inputs, states, width);
    let w = input@.len();
    if kind == ShiftKind::Left {
        assert forall|i: int| 0 <= i < w implies #[trigger] r[i] == if i >= s {
            high_z_to_undefined_bit(input@[i - s])
        } else {
            LogicBitState::Logic0
        } by {
            assert(r[i] == shl_bit(input, s, i / 32, (i % 32) as u32));
            assert(32 * (i / 32) + (i % 32) - s == i - s);
            if i >= s {
                lemma_state_bit(input, i - s);
            }
        }
    }
    if kind == ShiftKind::LogicalRight {
        assert forall|i: int| 0 <= i < w && i + s < w implies #[trigger] r[i] == high_z_to_undefined_bit(input@[i + s]) by {
            assert(r[i] == lshr_bit(input, s, i / 32, (i % 32) as u32));
            assert(32 * (i / 32) + (i % 32) + s == i + s);
            lemma_state_bit(input, i + s);
        }
    }
    if kind == ShiftKind::ArithmeticRight && s < w {
        crate::shift::law_ashr_bits(r, input, s);
    }
}

} // verus!
