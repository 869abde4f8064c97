use gsim::behaviour::{Output, OutputStrength};
use gsim::pins::{AtomicLogicState, InputPin, InputPinBehaviour, OutputPin, OutputPinBehaviour};
use gsim::LogicBitState;
use std::sync::atomic::Ordering;

#[test]
fn atomic_logic_state_store_load() {
    let a = AtomicLogicState::new(LogicBitState::HighZ);
    assert_eq!(a.load(Ordering::Relaxed), LogicBitState::HighZ);
    for bit in [LogicBitState::Logic0, LogicBitState::Logic1, LogicBitState::Undefined] {
        a.store(bit, Ordering::Relaxed);
        assert_eq!(a.load(Ordering::Relaxed), bit);
    }
}

#[test]
fn input_pin_drives_output() {
    let pin = InputPin::new(3);
    assert_eq!(pin.width(), 3);
    let mut behaviour = InputPinBehaviour::new(pin.clone());
    assert_eq!(behaviour.output_configuration(), &[3]);
    assert!(behaviour.input_configuration().is_empty());
    let mut output = Output { state: vec![LogicBitState::Undefined; 3], strength: OutputStrength::Weak };
    assert!(behaviour.update(&mut output));
    assert_eq!(output.strength, OutputStrength::Strong);
    assert_eq!(output.state, vec![LogicBitState::HighZ; 3]);
    // nothing set since: no change
    assert!(!behaviour.update(&mut output));
    pin.set(&[LogicBitState::Logic1, LogicBitState::Logic0]);
    assert!(behaviour.update(&mut output));
    assert_eq!(output.state, vec![LogicBitState::Logic1, LogicBitState::Logic0, LogicBitState::HighZ]);
}

#[test]
fn output_pin_receives_input() {
    let pin = OutputPin::new(2);
    assert_eq!(pin.width(), 2);
    let mut behaviour = OutputPinBehaviour::new(pin.clone());
    assert_eq!(behaviour.input_configuration(), &[2]);
    assert!(behaviour.output_configuration().is_empty());
    let mut state = [LogicBitState::Undefined; 3];
    pin.get(&mut state);
    assert_eq!(state, [LogicBitState::HighZ; 3]);
    assert!(!behaviour.update(&vec![LogicBitState::Logic0, LogicBitState::Logic1]));
    pin.get(&mut state);
    assert_eq!(state, [LogicBitState::Logic0, LogicBitState::Logic1, LogicBitState::HighZ]);
}
