use gsim::{
    AddComponentError, BitWidth, ComponentId, LogicState, SimulationRunResult, SimulatorBuilder,
    WireId,
};

#[derive(Clone, Copy)]
enum Operand {
    Z,
    X,
    L1,
    N(u64),
    Big(&'static [u32]),
}

use Operand::{Big, L1, N, X, Z};

fn w(n: u32) -> BitWidth {
    BitWidth::new(n).unwrap()
}

fn make(v: Operand, width: BitWidth) -> LogicState {
    match v {
        Z => LogicState::high_z(width),
        X => LogicState::undefined(width),
        L1 => LogicState::logic_1(width),
        N(n) => LogicState::from_u64(n, width),
        Big(words) => LogicState::from_big_int(width, words),
    }
}

fn run(builder: SimulatorBuilder, output: WireId, expected: LogicState, i: usize) {
    let mut sim = builder.build();
    match sim.run_sim(2) {
        SimulationRunResult::Settled => {}
        SimulationRunResult::MaxStepsReached => panic!("[TEST {i}] exceeded max steps"),
        SimulationRunResult::Error(err) => panic!("[TEST {i}] {err:?}"),
    }
    let [state, _] = sim.get_wire_state_and_drive(output).unwrap();
    let actual = state.to_owned();
    assert!(
        actual == expected,
        "[TEST {i}]  expected: {}  actual: {}",
        expected.to_display_string(),
        actual.to_display_string(),
    );
}

fn run_binary<F>(add: F, width: BitWidth, second_width: BitWidth, data: &[(Operand, Operand, Operand)])
where
    F: Fn(&mut SimulatorBuilder, WireId, WireId, WireId) -> Result<ComponentId, AddComponentError>,
{
    for (i, (a, b, o)) in data.iter().enumerate() {
        let mut builder = SimulatorBuilder::default();
        let input_a = builder.add_wire(width).unwrap();
        builder.set_wire_drive(input_a, &make(*a, width)).unwrap();
        let input_b = builder.add_wire(second_width).unwrap();
        builder.set_wire_drive(input_b, &make(*b, second_width)).unwrap();
        let output = builder.add_wire(width).unwrap();
        let _c = add(&mut builder, input_a, input_b, output).unwrap();
        run(builder, output, make(*o, width), i);
    }
}

fn shift_width(width: BitWidth) -> BitWidth {
    let mut k = 0;
    while (1u32 << k) < width.get() {
        k += 1;
    }
    BitWidth::new(k).unwrap()
}

#[test]
fn neg() {
    let data: &[(Operand, Operand)] = &[(Z, X), (X, X), (N(0), N(0)), (N(1), L1), (L1, N(1))];
    for width in [w(16), w(32), w(33), w(64)] {
        for (i, (a, o)) in data.iter().enumerate() {
            let mut builder = SimulatorBuilder::default();
            let input = builder.add_wire(width).unwrap();
            builder.set_wire_drive(input, &make(*a, width)).unwrap();
            let output = builder.add_wire(width).unwrap();
            let _c = builder.add_neg(input, output).unwrap();
            run(builder, output, make(*o, width), i);
        }
    }
}

#[test]
fn mul() {
    let data: &[(Operand, Operand, Operand)] = &[
        (Z, Z, X),
        (Z, X, X),
        (X, Z, X),
        (X, X, X),
        (Z, N(0), X),
        (X, N(0), X),
        (N(0), Z, X),
        (N(0), X, X),
        (N(0), N(0), N(0)),
        (N(0), N(1), N(0)),
        (N(1), N(0), N(0)),
        (N(1), N(1), N(1)),
        (N(0), N(u32::MAX as u64), N(0)),
        (N(u32::MAX as u64), N(0), N(0)),
        (N(1), N(u32::MAX as u64), N(u32::MAX as u64)),
        (N(u32::MAX as u64), N(1), N(u32::MAX as u64)),
        (N(u32::MAX as u64), N(u32::MAX as u64), Big(&[1, u32::MAX - 1])),
        (
            Big(&[u32::MAX, u32::MAX]),
            Big(&[u32::MAX, u32::MAX]),
            Big(&[1, 0, u32::MAX - 1, u32::MAX]),
        ),
        (
            Big(&[0x658c0c38, 0xd50cebfb]),
            Big(&[0x901cfad8, 0xc0083189]),
            Big(&[0x4838ff40, 0x2201c171, 0xe109006d, 0x9fd0829d]),
        ),
    ];
    for width in [w(16), w(32), w(33), w(64), w(128)] {
        run_binary(SimulatorBuilder::add_mul, width, width, data);
    }
}

fn shifter_invalid() -> Vec<(Operand, Operand, Operand)> {
    vec![
        (Z, Z, X),
        (Z, X, X),
        (X, Z, X),
        (X, X, X),
        (Z, N(0), X),
        (X, N(0), X),
        (N(0), Z, X),
        (N(0), X, X),
    ]
}

#[test]
fn left_shift() {
    let mut data_32 = shifter_invalid();
    data_32.extend_from_slice(&[
        (N(1), N(0), N(1)),
        (N(1), N(1), N(2)),
        (N(1), N(2), N(4)),
        (N(1), N(31), N(0x80000000)),
        (N(1), N(32), N(1)),
        (N(1), N(33), N(2)),
        (N(1), N(63), N(0x80000000)),
        (N(1), N(64), N(1)),
        (N(0x55), N(0), N(0x55)),
        (N(0x55), N(1), N(0xAA)),
    ]);
    run_binary(SimulatorBuilder::add_left_shift, w(32), shift_width(w(32)), &data_32);
    let mut data_16 = shifter_invalid();
    data_16.extend_from_slice(&[
        (N(1), N(0), N(1)),
        (N(1), N(1), N(2)),
        (N(1), N(2), N(4)),
        (N(1), N(15), N(0x8000)),
        (N(1), N(16), N(1)),
        (N(1), N(17), N(2)),
        (N(1), N(31), N(0x8000)),
        (N(1), N(32), N(1)),
        (N(0x55), N(0), N(0x55)),
        (N(0x55), N(1), N(0xAA)),
    ]);
    run_binary(SimulatorBuilder::add_left_shift, w(16), shift_width(w(16)), &data_16);
}

#[test]
fn logical_right_shift() {
    let mut data_32 = shifter_invalid();
    data_32.extend_from_slice(&[
        (N(0x80000000), N(0), N(0x80000000)),
        (N(0x80000000), N(1), N(0x40000000)),
        (N(0x80000000), N(2), N(0x20000000)),
        (N(0x80000000), N(31), N(1)),
        (N(0x80000000), N(32), N(0x80000000)),
        (N(0x80000000), N(33), N(0x40000000)),
        (N(0x80000000), N(63), N(1)),
        (N(0x80000000), N(64), N(0x80000000)),
        (N(0xAA), N(0), N(0xAA)),
        (N(0xAA), N(1), N(0x55)),
    ]);
    run_binary(SimulatorBuilder::add_logical_right_shift, w(32), shift_width(w(32)), &data_32);
    let mut data_16 = shifter_invalid();
    data_16.extend_from_slice(&[
        (N(0x8000), N(0), N(0x8000)),
        (N(0x8000), N(1), N(0x4000)),
        (N(0x8000), N(2), N(0x2000)),
        (N(0x8000), N(15), N(1)),
        (N(0x8000), N(16), N(0x8000)),
        (N(0x8000), N(17), N(0x4000)),
        (N(0x8000), N(31), N(1)),
        (N(0x8000), N(32), N(0x8000)),
        (N(0xAA), N(0), N(0xAA)),
        (N(0xAA), N(1), N(0x55)),
    ]);
    run_binary(SimulatorBuilder::add_logical_right_shift, w(16), shift_width(w(16)), &data_16);
}

#[test]
fn arithmetic_right_shift() {
    let mut data_32 = shifter_invalid();
    data_32.extend_from_slice(&[
        (N(0x80000000), N(0), N(0x80000000)),
        (N(0x80000000), N(1), N(0xC0000000)),
        (N(0x80000000), N(2), N(0xE0000000)),
        (N(0x80000000), N(31), N(0xFFFFFFFF)),
        (N(0x80000000), N(32), N(0x80000000)),
        (N(0x80000000), N(33), N(0xC0000000)),
        (N(0x80000000), N(63), N(0xFFFFFFFF)),
        (N(0x80000000), N(64), N(0x80000000)),
        (N(0xAA), N(0), N(0xAA)),
        (N(0xAA), N(1), N(0x55)),
    ]);
    run_binary(SimulatorBuilder::add_arithmetic_right_shift, w(32), shift_width(w(32)), &data_32);
    let mut data_16 = shifter_invalid();
    data_16.extend_from_slice(&[
        (N(0x8000), N(0), N(0x8000)),
        (N(0x8000), N(1), N(0xC000)),
        (N(0x8000), N(2), N(0xE000)),
        (N(0x8000), N(15), N(0xFFFF)),
        (N(0x8000), N(16), N(0x8000)),
        (N(0x8000), N(17), N(0xC000)),
        (N(0x8000), N(31), N(0xFFFF)),
        (N(0x8000), N(32), N(0x8000)),
        (N(0xAA), N(0), N(0xAA)),
        (N(0xAA), N(1), N(0x55)),
    ]);
    run_binary(SimulatorBuilder::add_arithmetic_right_shift, w(16), shift_width(w(16)), &data_16);
}

#[test]
fn arithmetic_right_shift_wide() {
    let data: &[(Operand, Operand, Operand)] = &[
        (N(0x80), N(0), N(0x80)),
        (N(0x80_0000_0001), N(0), N(0x80_0000_0001)),
        (N(0x80_0000_0000), N(32), N(0xFF_FFFF_FF80)),
        (N(0x80_0000_0000), N(4), N(0xF8_0000_0000)),
        (N(0x10), N(4), N(0x1)),
    ];
    run_binary(SimulatorBuilder::add_arithmetic_right_shift, w(40), shift_width(w(40)), data);
}
