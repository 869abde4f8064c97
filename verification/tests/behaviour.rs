use gsim::behaviour::{Output, OutputStrength};
use gsim::timescale::TimescaleUnit;
use gsim::{
    And, BinaryBehaviour, BinaryOperation, ConstantBehaviour, LogicBitState, Nand, Nor, Not, Or,
    Timescale, UnaryBehaviour, UnaryOperation, Xnor, Xor,
};

const L0: LogicBitState = LogicBitState::Logic0;
const L1: LogicBitState = LogicBitState::Logic1;
const Z: LogicBitState = LogicBitState::HighZ;
const X: LogicBitState = LogicBitState::Undefined;

fn output(width: usize) -> Output {
    Output { state: vec![Z; width], strength: OutputStrength::Weak }
}

#[test]
fn operation_tables() {
    assert_eq!(Not::execute(L0), L1);
    assert_eq!(Not::execute(L1), L0);
    assert_eq!(Not::execute(Z), X);
    assert_eq!(Not::execute(X), X);
    assert_eq!(And::execute(L0, X), L0);
    assert_eq!(And::execute(Z, L1), X);
    assert_eq!(And::execute(L1, L1), L1);
    assert_eq!(Nand::execute(Z, L0), L1);
    assert_eq!(Nand::execute(L1, L1), L0);
    assert_eq!(Or::execute(X, L1), L1);
    assert_eq!(Or::execute(L0, L0), L0);
    assert_eq!(Or::execute(L0, Z), X);
    assert_eq!(Nor::execute(L1, Z), L0);
    assert_eq!(Nor::execute(L0, L0), L1);
    assert_eq!(Xor::execute(L1, L0), L1);
    assert_eq!(Xor::execute(L1, L1), L0);
    assert_eq!(Xor::execute(L1, Z), X);
    assert_eq!(Xnor::execute(L1, L1), L1);
    assert_eq!(Xnor::execute(L0, L1), L0);
    assert_eq!(Xnor::execute(X, L0), X);
}

#[test]
fn constant_behaviours() {
    let mut down = ConstantBehaviour::new_pull_down(3);
    assert_eq!(down.output_configuration(), &[3]);
    assert!(down.input_configuration().is_empty());
    let mut out = output(3);
    assert!(down.update(&mut out));
    assert_eq!(out.state, vec![L0, L0, L0]);
    assert_eq!(out.strength, OutputStrength::Weak);
    assert!(!down.update(&mut out));

    let mut up = ConstantBehaviour::new_pull_up(2);
    let mut out = output(2);
    assert!(up.update(&mut out));
    assert_eq!(out.state, vec![L1, L1]);

    let mut value = ConstantBehaviour::new_from_value(&[0b101, 1], 34);
    assert_eq!(value.output_configuration(), &[34]);
    let mut out = output(34);
    assert!(value.update(&mut out));
    assert_eq!(out.strength, OutputStrength::Strong);
    assert_eq!(&out.state[..4], &[L1, L0, L1, L0]);
    assert_eq!(out.state[32], L1);
    assert_eq!(out.state[33], L0);

    let mut explicit = ConstantBehaviour::new(vec![X, Z], OutputStrength::Strong);
    let mut out = output(2);
    assert!(explicit.update(&mut out));
    assert_eq!(out.state, vec![X, Z]);
}

#[test]
fn unary_behaviour() {
    let mut not: UnaryBehaviour<Not> = UnaryBehaviour::new(4);
    assert_eq!(not.output_configuration(), &[4]);
    assert_eq!(not.input_configuration(), &[4]);
    let mut out = output(4);
    assert!(not.update(&mut out, &vec![L0, L1, Z, X]));
    assert_eq!(out.state, vec![L1, L0, X, X]);
    assert!(!not.update(&mut out, &vec![L0, L1, X, Z]));
}

#[test]
fn binary_behaviour() {
    let mut and: BinaryBehaviour<And> = BinaryBehaviour::new(2, 3);
    assert_eq!(and.output_configuration(), &[2]);
    assert_eq!(and.input_configuration(), &[2, 2, 2]);
    let mut out = output(2);
    assert!(and.update(&mut out, &vec![vec![L1, L1], vec![L1, Z], vec![L1, L0]]));
    assert_eq!(out.state, vec![L1, L0]);
    let mut xor: BinaryBehaviour<Xor> = BinaryBehaviour::new(1, 2);
    let mut out = output(1);
    assert!(xor.update(&mut out, &vec![vec![L1], vec![L1]]));
    assert_eq!(out.state, vec![L0]);
}

#[test]
fn timescales() {
    let t = Timescale::default();
    assert_eq!(t.unit(), TimescaleUnit::Nanoseconds);
    assert_eq!(t.value(), 1);
    assert_eq!(Timescale::seconds(3).unit(), TimescaleUnit::Seconds);
    assert_eq!(Timescale::milliseconds(4).value(), 4);
    assert_eq!(Timescale::microseconds(5).unit(), TimescaleUnit::Microseconds);
    assert_eq!(Timescale::nanoseconds(6).unit(), TimescaleUnit::Nanoseconds);
    assert_eq!(Timescale::picoseconds(7).unit(), TimescaleUnit::Picoseconds);
}

#[test]
fn timescale_display() {
    assert_eq!(Timescale::nanoseconds(10).to_display_string(), "10ns");
    assert_eq!(Timescale::default().to_display_string(), "1ns");
    assert_eq!(Timescale::seconds(65535).to_display_string(), "65535s");
    assert_eq!(Timescale::picoseconds(100).to_display_string(), "100ps");
    assert_eq!(Timescale::milliseconds(7).to_display_string(), "7ms");
    assert_eq!(Timescale::microseconds(20).to_display_string(), "20us");
}
