use gsim::{
    AddComponentError, BitWidth, ComponentId, LogicState, SimulationRunResult, SimulatorBuilder,
    WireId,
};

#[derive(Clone, Copy)]
enum S {
    Z,
    X,
    L0,
    L1,
    N(u64),
}

use S::{L0, L1, N, X, Z};

fn width_of(n: u32) -> BitWidth {
    BitWidth::new(n).unwrap()
}

fn state(s: S, width: BitWidth) -> LogicState {
    match s {
        Z => LogicState::high_z(width),
        X => LogicState::undefined(width),
        L0 => LogicState::logic_0(width),
        L1 => LogicState::logic_1(width),
        N(v) => LogicState::from_u64(v, width),
    }
}

fn settle_and_read(builder: SimulatorBuilder, output: WireId, max_steps: u64, i: usize) -> LogicState {
    let mut sim = builder.build();
    match sim.run_sim(max_steps) {
        SimulationRunResult::Settled => {}
        SimulationRunResult::MaxStepsReached => panic!("[TEST {i}] exceeded max steps"),
        SimulationRunResult::Error(err) => panic!("[TEST {i}] {err:?}"),
    }
    let [output_state, _] = sim.get_wire_state_and_drive(output).unwrap();
    output_state.to_owned()
}

fn check(actual: LogicState, expected: LogicState, i: usize) {
    assert!(
        actual == expected,
        "[TEST {i}]  expected: {}  actual: {}",
        expected.to_display_string(),
        actual.to_display_string(),
    );
}

fn run_wide_gate<F>(add_gate: F, width: BitWidth, test_data: &[(&[S], S)], max_steps: u64)
where
    F: Fn(&mut SimulatorBuilder, &[WireId], WireId) -> Result<ComponentId, AddComponentError>,
{
    for (i, (inputs, output_value)) in test_data.iter().enumerate() {
        let mut builder = SimulatorBuilder::default();
        let inputs: Vec<WireId> = inputs
            .iter()
            .map(|drive| {
                let wire = builder.add_wire(width).unwrap();
                builder.set_wire_drive(wire, &state(*drive, width)).unwrap();
                wire
            })
            .collect();
        let output = builder.add_wire(width).unwrap();
        let _gate = add_gate(&mut builder, &inputs, output).unwrap();
        check(settle_and_read(builder, output, max_steps, i), state(*output_value, width), i);
    }
}

fn run_binary_gate<F>(add_gate: F, width: BitWidth, test_data: &[(S, S, S)], max_steps: u64)
where
    F: Fn(&mut SimulatorBuilder, WireId, WireId, WireId) -> Result<ComponentId, AddComponentError>,
{
    for (i, (a, b, output_value)) in test_data.iter().enumerate() {
        let mut builder = SimulatorBuilder::default();
        let input_a = builder.add_wire(width).unwrap();
        builder.set_wire_drive(input_a, &state(*a, width)).unwrap();
        let input_b = builder.add_wire(width).unwrap();
        builder.set_wire_drive(input_b, &state(*b, width)).unwrap();
        let output = builder.add_wire(width).unwrap();
        let _gate = add_gate(&mut builder, input_a, input_b, output).unwrap();
        check(settle_and_read(builder, output, max_steps, i), state(*output_value, width), i);
    }
}

fn run_unary_gate<F>(add_gate: F, width: BitWidth, test_data: &[(S, S)], max_steps: u64)
where
    F: Fn(&mut SimulatorBuilder, WireId, WireId) -> Result<ComponentId, AddComponentError>,
{
    for (i, (a, output_value)) in test_data.iter().enumerate() {
        let mut builder = SimulatorBuilder::default();
        let input = builder.add_wire(width).unwrap();
        builder.set_wire_drive(input, &state(*a, width)).unwrap();
        let output = builder.add_wire(width).unwrap();
        let _gate = add_gate(&mut builder, input, output).unwrap();
        check(settle_and_read(builder, output, max_steps, i), state(*output_value, width), i);
    }
}

fn run_buffer(width: BitWidth, test_data: &[(S, S, S)], max_steps: u64) {
    for (i, (a, en, output_value)) in test_data.iter().enumerate() {
        let mut builder = SimulatorBuilder::default();
        let input = builder.add_wire(width).unwrap();
        builder.set_wire_drive(input, &state(*a, width)).unwrap();
        let enable = builder.add_wire(width_of(1)).unwrap();
        builder.set_wire_drive(enable, &state(*en, width_of(1))).unwrap();
        let output = builder.add_wire(width).unwrap();
        let _gate = builder.add_buffer(input, enable, output).unwrap();
        check(settle_and_read(builder, output, max_steps, i), state(*output_value, width), i);
    }
}

#[test]
fn and_gate() {
    for width in [width_of(1), width_of(32), width_of(33), width_of(64)] {
        let test_data: &[(&[S], S)] = &[
            (&[Z, Z], X),
            (&[Z, X], X),
            (&[X, Z], X),
            (&[X, X], X),
            (&[Z, L0], L0),
            (&[Z, L1], X),
            (&[X, L0], L0),
            (&[X, L1], X),
            (&[L0, Z], L0),
            (&[L1, Z], X),
            (&[L0, X], L0),
            (&[L1, X], X),
            (&[L0, L0], L0),
            (&[L0, L1], L0),
            (&[L1, L0], L0),
            (&[L1, L1], L1),
        ];
        run_wide_gate(SimulatorBuilder::add_and_gate, width, test_data, 2);
    }
}

#[test]
fn or_gate() {
    for width in [width_of(1), width_of(32), width_of(33), width_of(64)] {
        let test_data: &[(&[S], S)] = &[
            (&[Z, Z], X),
            (&[Z, X], X),
            (&[X, Z], X),
            (&[X, X], X),
            (&[Z, L0], X),
            (&[Z, L1], L1),
            (&[X, L0], X),
            (&[X, L1], L1),
            (&[L0, Z], X),
            (&[L1, Z], L1),
            (&[L0, X], X),
            (&[L1, X], L1),
            (&[L0, L0], L0),
            (&[L0, L1], L1),
            (&[L1, L0], L1),
            (&[L1, L1], L1),
        ];
        run_wide_gate(SimulatorBuilder::add_or_gate, width, test_data, 2);
    }
}

#[test]
fn xor_gate() {
    for width in [width_of(1), width_of(32), width_of(33), width_of(64)] {
        let test_data: &[(&[S], S)] = &[
            (&[Z, Z], X),
            (&[Z, X], X),
            (&[X, Z], X),
            (&[X, X], X),
            (&[Z, L0], X),
            (&[Z, L1], X),
            (&[X, L0], X),
            (&[X, L1], X),
            (&[L0, Z], X),
            (&[L1, Z], X),
            (&[L0, X], X),
            (&[L1, X], X),
            (&[L0, L0], L0),
            (&[L0, L1], L1),
            (&[L1, L0], L1),
            (&[L1, L1], L0),
        ];
        run_wide_gate(SimulatorBuilder::add_xor_gate, width, test_data, 2);
    }
}

#[test]
fn nand_gate() {
    for width in [width_of(1), width_of(32), width_of(33), width_of(64)] {
        let test_data: &[(&[S], S)] = &[
            (&[Z, Z], X),
            (&[Z, X], X),
            (&[X, Z], X),
            (&[X, X], X),
            (&[Z, L0], L1),
            (&[Z, L1], X),
            (&[X, L0], L1),
            (&[X, L1], X),
            (&[L0, Z], L1),
            (&[L1, Z], X),
            (&[L0, X], L1),
            (&[L1, X], X),
            (&[L0, L0], L1),
            (&[L0, L1], L1),
            (&[L1, L0], L1),
            (&[L1, L1], L0),
        ];
        run_wide_gate(SimulatorBuilder::add_nand_gate, width, test_data, 2);
    }
}

#[test]
fn nor_gate() {
    for width in [width_of(1), width_of(32), width_of(33), width_of(64)] {
        let test_data: &[(&[S], S)] = &[
            (&[Z, Z], X),
            (&[Z, X], X),
            (&[X, Z], X),
            (&[X, X], X),
            (&[Z, L0], X),
            (&[Z, L1], L0),
            (&[X, L0], X),
            (&[X, L1], L0),
            (&[L0, Z], X),
            (&[L1, Z], L0),
            (&[L0, X], X),
            (&[L1, X], L0),
            (&[L0, L0], L1),
            (&[L0, L1], L0),
            (&[L1, L0], L0),
            (&[L1, L1], L0),
        ];
        run_wide_gate(SimulatorBuilder::add_nor_gate, width, test_data, 2);
    }
}

#[test]
fn xnor_gate() {
    for width in [width_of(1), width_of(32), width_of(33), width_of(64)] {
        let test_data: &[(&[S], S)] = &[
            (&[Z, Z], X),
            (&[Z, X], X),
            (&[X, Z], X),
            (&[X, X], X),
            (&[Z, L0], X),
            (&[Z, L1], X),
            (&[X, L0], X),
            (&[X, L1], X),
            (&[L0, Z], X),
            (&[L1, Z], X),
            (&[L0, X], X),
            (&[L1, X], X),
            (&[L0, L0], L1),
            (&[L0, L1], L0),
            (&[L1, L0], L0),
            (&[L1, L1], L1),
        ];
        run_wide_gate(SimulatorBuilder::add_xnor_gate, width, test_data, 2);
    }
}

#[test]
fn wide_and_gate() {
    for width in [width_of(1), width_of(32), width_of(33), width_of(64)] {
        let test_data: &[(&[S], S)] = &[
            (&[Z, Z, Z], X),
            (&[Z, X, Z], X),
            (&[X, Z, Z], X),
            (&[X, X, Z], X),
            (&[Z, L0, Z], L0),
            (&[Z, L1, Z], X),
            (&[X, L0, Z], L0),
            (&[X, L1, Z], X),
            (&[L0, Z, Z], L0),
            (&[L1, Z, Z], X),
            (&[L0, X, Z], L0),
            (&[L1, X, Z], X),
            (&[L0, L0, Z], L0),
            (&[L0, L1, Z], L0),
            (&[L1, L0, Z], L0),
            (&[L1, L1, Z], X),
            (&[Z, Z, X], X),
            (&[Z, X, X], X),
            (&[X, Z, X], X),
            (&[X, X, X], X),
            (&[Z, L0, X], L0),
            (&[Z, L1, X], X),
            (&[X, L0, X], L0),
            (&[X, L1, X], X),
            (&[L0, Z, X], L0),
            (&[L1, Z, X], X),
            (&[L0, X, X], L0),
            (&[L1, X, X], X),
            (&[L0, L0, X], L0),
            (&[L0, L1, X], L0),
            (&[L1, L0, X], L0),
            (&[L1, L1, X], X),
            (&[Z, Z, L0], L0),
            (&[Z, X, L0], L0),
            (&[X, Z, L0], L0),
            (&[X, X, L0], L0),
            (&[Z, L0, L0], L0),
            (&[Z, L1, L0], L0),
            (&[X, L0, L0], L0),
            (&[X, L1, L0], L0),
            (&[L0, Z, L0], L0),
            (&[L1, Z, L0], L0),
            (&[L0, X, L0], L0),
            (&[L1, X, L0], L0),
            (&[L0, L0, L0], L0),
            (&[L0, L1, L0], L0),
            (&[L1, L0, L0], L0),
            (&[L1, L1, L0], L0),
            (&[Z, Z, L1], X),
            (&[Z, X, L1], X),
            (&[X, Z, L1], X),
            (&[X, X, L1], X),
            (&[Z, L0, L1], L0),
            (&[Z, L1, L1], X),
            (&[X, L0, L1], L0),
            (&[X, L1, L1], X),
            (&[L0, Z, L1], L0),
            (&[L1, Z, L1], X),
            (&[L0, X, L1], L0),
            (&[L1, X, L1], X),
            (&[L0, L0, L1], L0),
            (&[L0, L1, L1], L0),
            (&[L1, L0, L1], L0),
            (&[L1, L1, L1], L1),
        ];
        run_wide_gate(SimulatorBuilder::add_and_gate, width, test_data, 2);
    }
}

#[test]
fn wide_or_gate() {
    for width in [width_of(1), width_of(32), width_of(33), width_of(64)] {
        let test_data: &[(&[S], S)] = &[
            (&[Z, Z, Z], X),
            (&[Z, X, Z], X),
            (&[X, Z, Z], X),
            (&[X, X, Z], X),
            (&[Z, L0, Z], X),
            (&[Z, L1, Z], L1),
            (&[X, L0, Z], X),
            (&[X, L1, Z], L1),
            (&[L0, Z, Z], X),
            (&[L1, Z, Z], L1),
            (&[L0, X, Z], X),
            (&[L1, X, Z], L1),
            (&[L0, L0, Z], X),
            (&[L0, L1, Z], L1),
            (&[L1, L0, Z], L1),
            (&[L1, L1, Z], L1),
            (&[Z, Z, X], X),
            (&[Z, X, X], X),
            (&[X, Z, X], X),
            (&[X, X, X], X),
            (&[Z, L0, X], X),
            (&[Z, L1, X], L1),
            (&[X, L0, X], X),
            (&[X, L1, X], L1),
            (&[L0, Z, X], X),
            (&[L1, Z, X], L1),
            (&[L0, X, X], X),
            (&[L1, X, X], L1),
            (&[L0, L0, X], X),
            (&[L0, L1, X], L1),
            (&[L1, L0, X], L1),
            (&[L1, L1, X], L1),
            (&[Z, Z, L0], X),
            (&[Z, X, L0], X),
            (&[X, Z, L0], X),
            (&[X, X, L0], X),
            (&[Z, L0, L0], X),
            (&[Z, L1, L0], L1),
            (&[X, L0, L0], X),
            (&[X, L1, L0], L1),
            (&[L0, Z, L0], X),
            (&[L1, Z, L0], L1),
            (&[L0, X, L0], X),
            (&[L1, X, L0], L1),
            (&[L0, L0, L0], L0),
            (&[L0, L1, L0], L1),
            (&[L1, L0, L0], L1),
            (&[L1, L1, L0], L1),
            (&[Z, Z, L1], L1),
            (&[Z, X, L1], L1),
            (&[X, Z, L1], L1),
            (&[X, X, L1], L1),
            (&[Z, L0, L1], L1),
            (&[Z, L1, L1], L1),
            (&[X, L0, L1], L1),
            (&[X, L1, L1], L1),
            (&[L0, Z, L1], L1),
            (&[L1, Z, L1], L1),
            (&[L0, X, L1], L1),
            (&[L1, X, L1], L1),
            (&[L0, L0, L1], L1),
            (&[L0, L1, L1], L1),
            (&[L1, L0, L1], L1),
            (&[L1, L1, L1], L1),
        ];
        run_wide_gate(SimulatorBuilder::add_or_gate, width, test_data, 2);
    }
}

#[test]
fn wide_xor_gate() {
    for width in [width_of(1), width_of(32), width_of(33), width_of(64)] {
        let test_data: &[(&[S], S)] = &[
            (&[Z, Z, Z], X),
            (&[Z, X, Z], X),
            (&[X, Z, Z], X),
            (&[X, X, Z], X),
            (&[Z, L0, Z], X),
            (&[Z, L1, Z], X),
            (&[X, L0, Z], X),
            (&[X, L1, Z], X),
            (&[L0, Z, Z], X),
            (&[L1, Z, Z], X),
            (&[L0, X, Z], X),
            (&[L1, X, Z], X),
            (&[L0, L0, Z], X),
            (&[L0, L1, Z], X),
            (&[L1, L0, Z], X),
            (&[L1, L1, Z], X),
            (&[Z, Z, X], X),
            (&[Z, X, X], X),
            (&[X, Z, X], X),
            (&[X, X, X], X),
            (&[Z, L0, X], X),
            (&[Z, L1, X], X),
            (&[X, L0, X], X),
            (&[X, L1, X], X),
            (&[L0, Z, X], X),
            (&[L1, Z, X], X),
            (&[L0, X, X], X),
            (&[L1, X, X], X),
            (&[L0, L0, X], X),
            (&[L0, L1, X], X),
            (&[L1, L0, X], X),
            (&[L1, L1, X], X),
            (&[Z, Z, L0], X),
            (&[Z, X, L0], X),
            (&[X, Z, L0], X),
            (&[X, X, L0], X),
            (&[Z, L0, L0], X),
            (&[Z, L1, L0], X),
            (&[X, L0, L0], X),
            (&[X, L1, L0], X),
            (&[L0, Z, L0], X),
            (&[L1, Z, L0], X),
            (&[L0, X, L0], X),
            (&[L1, X, L0], X),
            (&[L0, L0, L0], L0),
            (&[L0, L1, L0], L1),
            (&[L1, L0, L0], L1),
            (&[L1, L1, L0], L0),
            (&[Z, Z, L1], X),
            (&[Z, X, L1], X),
            (&[X, Z, L1], X),
            (&[X, X, L1], X),
            (&[Z, L0, L1], X),
            (&[Z, L1, L1], X),
            (&[X, L0, L1], X),
            (&[X, L1, L1], X),
            (&[L0, Z, L1], X),
            (&[L1, Z, L1], X),
            (&[L0, X, L1], X),
            (&[L1, X, L1], X),
            (&[L0, L0, L1], L1),
            (&[L0, L1, L1], L0),
            (&[L1, L0, L1], L0),
            (&[L1, L1, L1], L1),
        ];
        run_wide_gate(SimulatorBuilder::add_xor_gate, width, test_data, 2);
    }
}

#[test]
fn wide_nand_gate() {
    for width in [width_of(1), width_of(32), width_of(33), width_of(64)] {
        let test_data: &[(&[S], S)] = &[
            (&[Z, Z, Z], X),
            (&[Z, X, Z], X),
            (&[X, Z, Z], X),
            (&[X, X, Z], X),
            (&[Z, L0, Z], L1),
            (&[Z, L1, Z], X),
            (&[X, L0, Z], L1),
            (&[X, L1, Z], X),
            (&[L0, Z, Z], L1),
            (&[L1, Z, Z], X),
            (&[L0, X, Z], L1),
            (&[L1, X, Z], X),
            (&[L0, L0, Z], L1),
            (&[L0, L1, Z], L1),
            (&[L1, L0, Z], L1),
            (&[L1, L1, Z], X),
            (&[Z, Z, X], X),
            (&[Z, X, X], X),
            (&[X, Z, X], X),
            (&[X, X, X], X),
            (&[Z, L0, X], L1),
            (&[Z, L1, X], X),
            (&[X, L0, X], L1),
            (&[X, L1, X], X),
            (&[L0, Z, X], L1),
            (&[L1, Z, X], X),
            (&[L0, X, X], L1),
            (&[L1, X, X], X),
            (&[L0, L0, X], L1),
            (&[L0, L1, X], L1),
            (&[L1, L0, X], L1),
            (&[L1, L1, X], X),
            (&[Z, Z, L0], L1),
            (&[Z, X, L0], L1),
            (&[X, Z, L0], L1),
            (&[X, X, L0], L1),
            (&[Z, L0, L0], L1),
            (&[Z, L1, L0], L1),
            (&[X, L0, L0], L1),
            (&[X, L1, L0], L1),
            (&[L0, Z, L0], L1),
            (&[L1, Z, L0], L1),
            (&[L0, X, L0], L1),
            (&[L1, X, L0], L1),
            (&[L0, L0, L0], L1),
            (&[L0, L1, L0], L1),
            (&[L1, L0, L0], L1),
            (&[L1, L1, L0], L1),
            (&[Z, Z, L1], X),
            (&[Z, X, L1], X),
            (&[X, Z, L1], X),
            (&[X, X, L1], X),
            (&[Z, L0, L1], L1),
            (&[Z, L1, L1], X),
            (&[X, L0, L1], L1),
            (&[X, L1, L1], X),
            (&[L0, Z, L1], L1),
            (&[L1, Z, L1], X),
            (&[L0, X, L1], L1),
            (&[L1, X, L1], X),
            (&[L0, L0, L1], L1),
            (&[L0, L1, L1], L1),
            (&[L1, L0, L1], L1),
            (&[L1, L1, L1], L0),
        ];
        run_wide_gate(SimulatorBuilder::add_nand_gate, width, test_data, 2);
    }
}

#[test]
fn wide_nor_gate() {
    for width in [width_of(1), width_of(32), width_of(33), width_of(64)] {
        let test_data: &[(&[S], S)] = &[
            (&[Z, Z, Z], X),
            (&[Z, X, Z], X),
            (&[X, Z, Z], X),
            (&[X, X, Z], X),
            (&[Z, L0, Z], X),
            (&[Z, L1, Z], L0),
            (&[X, L0, Z], X),
            (&[X, L1, Z], L0),
            (&[L0, Z, Z], X),
            (&[L1, Z, Z], L0),
            (&[L0, X, Z], X),
            (&[L1, X, Z], L0),
            (&[L0, L0, Z], X),
            (&[L0, L1, Z], L0),
            (&[L1, L0, Z], L0),
            (&[L1, L1, Z], L0),
            (&[Z, Z, X], X),
            (&[Z, X, X], X),
            (&[X, Z, X], X),
            (&[X, X, X], X),
            (&[Z, L0, X], X),
            (&[Z, L1, X], L0),
            (&[X, L0, X], X),
            (&[X, L1, X], L0),
            (&[L0, Z, X], X),
            (&[L1, Z, X], L0),
            (&[L0, X, X], X),
            (&[L1, X, X], L0),
            (&[L0, L0, X], X),
            (&[L0, L1, X], L0),
            (&[L1, L0, X], L0),
            (&[L1, L1, X], L0),
            (&[Z, Z, L0], X),
            (&[Z, X, L0], X),
            (&[X, Z, L0], X),
            (&[X, X, L0], X),
            (&[Z, L0, L0], X),
            (&[Z, L1, L0], L0),
            (&[X, L0, L0], X),
            (&[X, L1, L0], L0),
            (&[L0, Z, L0], X),
            (&[L1, Z, L0], L0),
            (&[L0, X, L0], X),
            (&[L1, X, L0], L0),
            (&[L0, L0, L0], L1),
            (&[L0, L1, L0], L0),
            (&[L1, L0, L0], L0),
            (&[L1, L1, L0], L0),
            (&[Z, Z, L1], L0),
            (&[Z, X, L1], L0),
            (&[X, Z, L1], L0),
            (&[X, X, L1], L0),
            (&[Z, L0, L1], L0),
            (&[Z, L1, L1], L0),
            (&[X, L0, L1], L0),
            (&[X, L1, L1], L0),
            (&[L0, Z, L1], L0),
            (&[L1, Z, L1], L0),
            (&[L0, X, L1], L0),
            (&[L1, X, L1], L0),
            (&[L0, L0, L1], L0),
            (&[L0, L1, L1], L0),
            (&[L1, L0, L1], L0),
            (&[L1, L1, L1], L0),
        ];
        run_wide_gate(SimulatorBuilder::add_nor_gate, width, test_data, 2);
    }
}

#[test]
fn wide_xnor_gate() {
    for width in [width_of(1), width_of(32), width_of(33), width_of(64)] {
        let test_data: &[(&[S], S)] = &[
            (&[Z, Z, Z], X),
            (&[Z, X, Z], X),
            (&[X, Z, Z], X),
            (&[X, X, Z], X),
            (&[Z, L0, Z], X),
            (&[Z, L1, Z], X),
            (&[X, L0, Z], X),
            (&[X, L1, Z], X),
            (&[L0, Z, Z], X),
            (&[L1, Z, Z], X),
            (&[L0, X, Z], X),
            (&[L1, X, Z], X),
            (&[L0, L0, Z], X),
            (&[L0, L1, Z], X),
            (&[L1, L0, Z], X),
            (&[L1, L1, Z], X),
            (&[Z, Z, X], X),
            (&[Z, X, X], X),
            (&[X, Z, X], X),
            (&[X, X, X], X),
            (&[Z, L0, X], X),
            (&[Z, L1, X], X),
            (&[X, L0, X], X),
            (&[X, L1, X], X),
            (&[L0, Z, X], X),
            (&[L1, Z, X], X),
            (&[L0, X, X], X),
            (&[L1, X, X], X),
            (&[L0, L0, X], X),
            (&[L0, L1, X], X),
            (&[L1, L0, X], X),
            (&[L1, L1, X], X),
            (&[Z, Z, L0], X),
            (&[Z, X, L0], X),
            (&[X, Z, L0], X),
            (&[X, X, L0], X),
            (&[Z, L0, L0], X),
            (&[Z, L1, L0], X),
            (&[X, L0, L0], X),
            (&[X, L1, L0], X),
            (&[L0, Z, L0], X),
            (&[L1, Z, L0], X),
            (&[L0, X, L0], X),
            (&[L1, X, L0], X),
            (&[L0, L0, L0], L1),
            (&[L0, L1, L0], L0),
            (&[L1, L0, L0], L0),
            (&[L1, L1, L0], L1),
            (&[Z, Z, L1], X),
            (&[Z, X, L1], X),
            (&[X, Z, L1], X),
            (&[X, X, L1], X),
            (&[Z, L0, L1], X),
            (&[Z, L1, L1], X),
            (&[X, L0, L1], X),
            (&[X, L1, L1], X),
            (&[L0, Z, L1], X),
            (&[L1, Z, L1], X),
            (&[L0, X, L1], X),
            (&[L1, X, L1], X),
            (&[L0, L0, L1], L0),
            (&[L0, L1, L1], L1),
            (&[L1, L0, L1], L1),
            (&[L1, L1, L1], L0),
        ];
        run_wide_gate(SimulatorBuilder::add_xnor_gate, width, test_data, 2);
    }
}

#[test]
fn not_gate() {
    for width in [width_of(1), width_of(32), width_of(33), width_of(64)] {
        let test_data: &[(S, S)] = &[
            (Z, X),
            (X, X),
            (L0, L1),
            (L1, L0),
        ];
        run_unary_gate(SimulatorBuilder::add_not_gate, width, test_data, 2);
    }
}

#[test]
fn buffer() {
    for width in [width_of(1), width_of(32), width_of(33), width_of(64)] {
        let test_data: &[(S, S, S)] = &[
            (Z, Z, Z),
            (X, Z, Z),
            (L0, Z, Z),
            (L1, Z, Z),
            (Z, X, X),
            (X, X, X),
            (L0, X, X),
            (L1, X, X),
            (Z, L0, Z),
            (X, L0, Z),
            (L0, L0, Z),
            (L1, L0, Z),
            (Z, L1, X),
            (X, L1, X),
            (L0, L1, L0),
            (L1, L1, L1),
        ];
        run_buffer(width, test_data, 2);
    }
}

#[test]
fn add() {
    for width in [width_of(16), width_of(32), width_of(64)] {
        let test_data: &[(S, S, S)] = &[
            (Z, Z, X),
            (Z, X, X),
            (X, Z, X),
            (X, X, X),
            (Z, N(0), X),
            (X, N(0), X),
            (N(0), Z, X),
            (N(0), X, X),
            (N(0), N(0), N(0)),
            (N(0), N(1), N(1)),
            (N(1), N(0), N(1)),
            (N(1), N(1), N(2)),
            (N(0), N(u64::MAX), N(u64::MAX)),
            (N(u64::MAX), N(0), N(u64::MAX)),
            (N(1), N(u64::MAX), N(0)),
            (N(u64::MAX), N(1), N(0)),
            (N(u64::MAX), N(u64::MAX), N(u64::MAX - 1)),
        ];
        run_binary_gate(SimulatorBuilder::add_add, width, test_data, 2);
    }
}

#[test]
fn sub() {
    for width in [width_of(16), width_of(32), width_of(64)] {
        let test_data: &[(S, S, S)] = &[
            (Z, Z, X),
            (Z, X, X),
            (X, Z, X),
            (X, X, X),
            (Z, N(0), X),
            (X, N(0), X),
            (N(0), Z, X),
            (N(0), X, X),
            (N(0), N(0), N(0)),
            (N(0), N(1), N(u64::MAX)),
            (N(1), N(0), N(1)),
            (N(1), N(1), N(0)),
            (N(0), N(u64::MAX), N(1)),
            (N(u64::MAX), N(0), N(u64::MAX)),
            (N(u64::MAX), N(u64::MAX), N(0)),
        ];
        run_binary_gate(SimulatorBuilder::add_sub, width, test_data, 2);
    }
}
