use gsim::yosys::CellType;
use gsim::ClockTrigger;
use gsim::state_alloc::OutOfMemoryError;
use gsim::{
    AddComponentError, BitWidth, ClockPolarity, ComponentId, InvalidComponentIdError,
    InvalidWireIdError, LogicBitState, LogicState, MemoryBlock, MemoryCell, Mutable,
    SetWireDriveError, SimulationRunResult, SimulatorBuilder, WireId,
};

fn w(n: u32) -> BitWidth {
    BitWidth::new(n).unwrap()
}

fn settle(sim: &mut gsim::Simulator, steps: u64) {
    match sim.run_sim(steps) {
        SimulationRunResult::Settled => {}
        SimulationRunResult::MaxStepsReached => panic!("exceeded max steps"),
        SimulationRunResult::Error(err) => panic!("{err:?}"),
    }
}

fn state(sim: &gsim::Simulator, wire: WireId) -> LogicState {
    let [s, _] = sim.get_wire_state_and_drive(wire).unwrap();
    s.to_owned()
}

#[test]
fn readme_example() {
    let mut builder = SimulatorBuilder::default();
    let wire_width = w(1);
    let input_a = builder.add_wire(wire_width).unwrap();
    let input_b = builder.add_wire(wire_width).unwrap();
    let output = builder.add_wire(wire_width).unwrap();
    let _gate = builder.add_and_gate(&[input_a, input_b], output).unwrap();
    let mut sim = builder.build();
    sim.set_wire_drive(input_a, &LogicState::from_bool(true)).unwrap();
    sim.set_wire_drive(input_b, &LogicState::from_bool(false)).unwrap();
    settle(&mut sim, 2);
    assert!(state(&sim, output) == LogicState::from_bool(false));
    assert!(state(&sim, input_a) == LogicState::from_bool(true));
    assert!(state(&sim, input_b) == LogicState::from_bool(false));
    sim.set_wire_drive(input_b, &LogicState::from_bool(true)).unwrap();
    settle(&mut sim, 2);
    assert!(state(&sim, output) == LogicState::from_bool(true));
    sim.run_sim(2).unwrap();
}

#[test]
fn sequential_ids() {
    let mut builder = SimulatorBuilder::default();
    let a = builder.add_wire(w(8)).unwrap();
    let b = builder.add_wire(w(8)).unwrap();
    let c = builder.add_wire(w(8)).unwrap();
    let g0 = builder.add_xor_gate(&[a, b], c).unwrap();
    let g1 = builder.add_not_gate(a, b).unwrap();
    let wires = builder.iter_wire_ids();
    assert_eq!(wires, vec![a, b, c]);
    assert_eq!(builder.iter_component_ids(), vec![g0, g1]);
    let sim = builder.build();
    assert_eq!(sim.iter_wire_ids().len(), 3);
    assert_eq!(sim.iter_component_ids().len(), 2);
}

#[test]
fn new_wires_are_high_z() {
    let mut builder = SimulatorBuilder::default();
    let a = builder.add_wire(w(12)).unwrap();
    assert!(builder.get_wire_drive(a).unwrap().to_owned() == LogicState::high_z(w(12)));
    let sim = builder.build();
    let [s, d] = sim.get_wire_state_and_drive(a).unwrap();
    assert!(s.to_owned() == LogicState::high_z(w(12)));
    assert!(d.to_owned() == LogicState::high_z(w(12)));
}

#[test]
fn drive_read_back() {
    let mut builder = SimulatorBuilder::default();
    let a = builder.add_wire(w(8)).unwrap();
    let b = builder.add_wire(w(8)).unwrap();
    builder.set_wire_drive(a, &LogicState::from_u32(0x5A, w(8))).unwrap();
    assert!(builder.get_wire_drive(a).unwrap().to_owned() == LogicState::from_u32(0x5A, w(8)));
    assert!(builder.get_wire_drive(b).unwrap().to_owned() == LogicState::high_z(w(8)));
    let other = LogicState::from_u32(3, w(8));
    builder.set_wire_drive(b, other.borrow()).unwrap();
    assert!(builder.get_wire_drive(b).unwrap().to_owned() == other);
}

#[test]
fn drive_errors() {
    let mut builder = SimulatorBuilder::default();
    let a = builder.add_wire(w(8)).unwrap();
    let missing = builder.add_wire(w(1)).unwrap();
    let mut other = SimulatorBuilder::default();
    let _ = other.add_wire(w(1)).unwrap();
    assert_eq!(
        builder.set_wire_drive(a, &LogicState::logic_0(w(9))),
        Err(SetWireDriveError::InvalidBitWidth)
    );
    let mut sim = builder.build();
    let far = {
        let mut b2 = SimulatorBuilder::default();
        let mut last = b2.add_wire(w(1)).unwrap();
        for _ in 0..3 {
            last = b2.add_wire(w(1)).unwrap();
        }
        last
    };
    assert_eq!(
        sim.set_wire_drive(far, &LogicState::logic_0(w(1))),
        Err(SetWireDriveError::InvalidWireId)
    );
    assert!(sim.get_wire_state_and_drive(far).is_err());
    assert!(sim.set_wire_drive(missing, &LogicState::logic_0(w(1))).is_ok());
}

#[test]
fn add_component_errors() {
    let mut builder = SimulatorBuilder::default();
    let a = builder.add_wire(w(8)).unwrap();
    let b = builder.add_wire(w(4)).unwrap();
    let one = builder.add_wire(w(1)).unwrap();
    let out = builder.add_wire(w(8)).unwrap();
    let far = {
        let mut b2 = SimulatorBuilder::default();
        let mut last = b2.add_wire(w(1)).unwrap();
        for _ in 0..9 {
            last = b2.add_wire(w(1)).unwrap();
        }
        last
    };
    assert_eq!(builder.add_and_gate(&[a], out), Err(AddComponentError::TooFewInputs));
    assert_eq!(builder.add_or_gate(&[], out), Err(AddComponentError::TooFewInputs));
    assert_eq!(builder.add_and_gate(&[a, b], out), Err(AddComponentError::WireWidthMismatch));
    assert_eq!(builder.add_and_gate(&[a, far], out), Err(AddComponentError::InvalidWireId));
    assert_eq!(builder.add_and_gate(&[a, a], far), Err(AddComponentError::InvalidWireId));
    assert_eq!(builder.add_add(a, a, b), Err(AddComponentError::WireWidthMismatch));
    assert_eq!(builder.add_not_gate(far, out), Err(AddComponentError::InvalidWireId));
    assert_eq!(builder.add_buffer(a, b, out), Err(AddComponentError::WireWidthIncompatible));
    assert_eq!(builder.add_buffer(a, far, out), Err(AddComponentError::InvalidWireId));
    assert_eq!(builder.add_left_shift(one, one, one), Err(AddComponentError::WireWidthIncompatible));
    assert_eq!(builder.add_left_shift(a, a, out), Err(AddComponentError::WireWidthIncompatible));
    assert_eq!(builder.add_left_shift(a, far, out), Err(AddComponentError::InvalidWireId));
    assert!(builder.iter_component_ids().is_empty());
    let shamnt = builder.add_wire(w(3)).unwrap();
    assert!(builder.add_left_shift(a, shamnt, out).is_ok());
    assert!(builder.add_buffer(a, one, out).is_ok());
    assert_eq!(builder.iter_component_ids().len(), 2);
}

#[test]
fn names() {
    let mut builder = SimulatorBuilder::default();
    let a = builder.add_wire(w(1)).unwrap();
    let b = builder.add_wire(w(1)).unwrap();
    let g = builder.add_not_gate(a, b).unwrap();
    assert_eq!(builder.get_wire_name(a), Ok(None));
    builder.set_wire_name(a, "clk").unwrap();
    assert_eq!(builder.get_wire_name(a), Ok(Some("clk")));
    builder.set_wire_name(a, "clock").unwrap();
    assert_eq!(builder.get_wire_name(a), Ok(Some("clock")));
    assert_eq!(builder.get_wire_name(b), Ok(None));
    builder.set_component_name(g, "inverter").unwrap();
    assert_eq!(builder.get_component_name(g), Ok(Some("inverter")));
    let far_wire = {
        let mut b2 = SimulatorBuilder::default();
        let mut last = b2.add_wire(w(1)).unwrap();
        for _ in 0..4 {
            last = b2.add_wire(w(1)).unwrap();
        }
        last
    };
    let far_component: ComponentId = {
        let mut b2 = SimulatorBuilder::default();
        let x = b2.add_wire(w(1)).unwrap();
        let mut last = b2.add_not_gate(x, x).unwrap();
        for _ in 0..3 {
            last = b2.add_not_gate(x, x).unwrap();
        }
        last
    };
    assert_eq!(builder.set_wire_name(far_wire, "x"), Err(InvalidWireIdError));
    assert_eq!(builder.get_wire_name(far_wire), Err(InvalidWireIdError));
    assert_eq!(builder.set_component_name(far_component, "x"), Err(InvalidComponentIdError));
    assert_eq!(builder.get_component_name(far_component), Err(InvalidComponentIdError));
    let sim = builder.build();
    assert_eq!(sim.get_wire_name(a), Ok(Some("clock")));
    assert_eq!(sim.get_component_name(g), Ok(Some("inverter")));
}

#[test]
fn driver_conflict() {
    let mut builder = SimulatorBuilder::default();
    let input = builder.add_wire(w(4)).unwrap();
    let enable = builder.add_wire(w(1)).unwrap();
    let out = builder.add_wire(w(4)).unwrap();
    builder.set_wire_drive(input, &LogicState::logic_1(w(4))).unwrap();
    builder.set_wire_drive(enable, &LogicState::logic_1(w(1))).unwrap();
    builder.set_wire_drive(out, &LogicState::logic_0(w(4))).unwrap();
    let _buffer = builder.add_buffer(input, enable, out).unwrap();
    let mut sim = builder.build();
    match sim.run_sim(4) {
        SimulationRunResult::Error(err) => assert_eq!(err.conflicts, vec![out]),
        _ => panic!("expected a conflict"),
    }
}

#[test]
fn buffer_disabled_no_conflict() {
    let mut builder = SimulatorBuilder::default();
    let input = builder.add_wire(w(4)).unwrap();
    let enable = builder.add_wire(w(1)).unwrap();
    let out = builder.add_wire(w(4)).unwrap();
    builder.set_wire_drive(input, &LogicState::logic_1(w(4))).unwrap();
    builder.set_wire_drive(enable, &LogicState::logic_0(w(1))).unwrap();
    builder.set_wire_drive(out, &LogicState::from_u32(0b1001, w(4))).unwrap();
    let _buffer = builder.add_buffer(input, enable, out).unwrap();
    let mut sim = builder.build();
    settle(&mut sim, 4);
    assert!(state(&sim, out) == LogicState::from_u32(0b1001, w(4)));
}

#[test]
fn max_steps_reached() {
    let mut builder = SimulatorBuilder::default();
    let mut wires = vec![builder.add_wire(w(1)).unwrap()];
    builder.set_wire_drive(wires[0], &LogicState::logic_0(w(1))).unwrap();
    for i in 0..4 {
        let next = builder.add_wire(w(1)).unwrap();
        let _ = builder.add_not_gate(wires[i], next).unwrap();
        wires.push(next);
    }
    let mut sim = builder.build();
    assert!(matches!(sim.run_sim(0), SimulationRunResult::MaxStepsReached));
    settle(&mut sim, 10);
    assert!(state(&sim, wires[4]) == LogicState::logic_0(w(1)));
    assert!(state(&sim, wires[3]) == LogicState::logic_1(w(1)));
}

#[test]
fn reset_keeps_drives() {
    let mut builder = SimulatorBuilder::default();
    let a = builder.add_wire(w(2)).unwrap();
    let b = builder.add_wire(w(2)).unwrap();
    builder.set_wire_drive(a, &LogicState::from_u32(1, w(2))).unwrap();
    let _ = builder.add_not_gate(a, b).unwrap();
    let mut sim = builder.build();
    settle(&mut sim, 2);
    assert!(state(&sim, b) == LogicState::from_u32(2, w(2)));
    sim.reset();
    assert!(state(&sim, a) == LogicState::high_z(w(2)));
    assert!(state(&sim, b) == LogicState::high_z(w(2)));
    let [_, d] = sim.get_wire_state_and_drive(a).unwrap();
    assert!(d.to_owned() == LogicState::from_u32(1, w(2)));
    settle(&mut sim, 2);
    assert!(state(&sim, b) == LogicState::from_u32(2, w(2)));
}

#[test]
fn wide_gate_with_shared_input() {
    let mut builder = SimulatorBuilder::default();
    let a = builder.add_wire(w(3)).unwrap();
    let b = builder.add_wire(w(3)).unwrap();
    let out = builder.add_wire(w(3)).unwrap();
    builder.set_wire_drive(a, &LogicState::from_u32(0b110, w(3))).unwrap();
    builder.set_wire_drive(b, &LogicState::from_u32(0b011, w(3))).unwrap();
    let _ = builder.add_xor_gate(&[a, b, a], out).unwrap();
    let mut sim = builder.build();
    settle(&mut sim, 2);
    assert!(state(&sim, out) == LogicState::from_u32(0b011, w(3)));
}

#[test]
fn clock_polarity() {
    assert_eq!(ClockPolarity::default(), ClockPolarity::Rising);
    assert!(ClockPolarity::Rising.active_state());
    assert!(!ClockPolarity::Rising.inactive_state());
    assert!(!ClockPolarity::Falling.active_state());
    assert!(ClockPolarity::Falling.inactive_state());
}

#[test]
fn memory_cell() {
    let mut cell: MemoryCell<Mutable> = MemoryCell::new(w(40));
    assert_eq!(cell.width().get(), 40);
    assert!(cell.read() == LogicState::undefined(w(40)));
    cell.write(&LogicState::from_u64(0x12_3456_789A, w(40)));
    assert!(cell.read() == LogicState::from_u64(0x12_3456_789A, w(40)));
    cell.set_reset_value(LogicState::logic_0(w(40)));
    assert!(*cell.reset_value() == LogicState::logic_0(w(40)));
    cell.reset();
    assert!(cell.read() == LogicState::logic_0(w(40)));
    cell.write(&LogicState::logic_1(w(8)));
    assert_eq!(cell.read().bit(7), Some(LogicBitState::Logic1));
    assert_eq!(cell.read().bit(31), Some(LogicBitState::Logic1));
    assert_eq!(cell.read().bit(32), Some(LogicBitState::Logic0));
}

#[test]
fn memory_block() {
    let mut block: MemoryBlock<Mutable> = MemoryBlock::new(w(8), 4);
    assert_eq!(block.len(), 4);
    assert_eq!(block.width().get(), 8);
    assert!(block.read(3).unwrap() == LogicState::undefined(w(8)));
    assert!(block.read(4).is_none());
    assert_eq!(block.write(2, &LogicState::from_u32(7, w(8))), Ok(()));
    assert_eq!(block.write(4, &LogicState::from_u32(7, w(8))), Err(()));
    assert!(block.read(2).unwrap() == LogicState::from_u32(7, w(8)));
    block.set_clear_value(LogicState::logic_0(w(8)));
    assert!(*block.clear_value() == LogicState::logic_0(w(8)));
    block.clear();
    for addr in 0..4 {
        assert!(block.read(addr).unwrap() == LogicState::logic_0(w(8)));
    }
}

#[test]
fn cell_types() {
    assert!(matches!(CellType::from("$and".to_string()), CellType::And));
    assert!(matches!(CellType::from("$mem_v2".to_string()), CellType::MemV2));
    assert!(matches!(CellType::from("$sshr".to_string()), CellType::Sshr));
    match CellType::from("$frobnicate".to_string()) {
        CellType::Unknown(name) => assert_eq!(name, "$frobnicate"),
        other => panic!("unexpected {other:?}"),
    }
}

#[test]
fn clock_trigger_edges() {
    let mut rising = ClockTrigger::new(ClockPolarity::Rising);
    assert!(!rising.update(LogicBitState::Logic1));
    assert!(!rising.update(LogicBitState::Logic0));
    assert!(!rising.update(LogicBitState::Undefined));
    assert!(rising.update(LogicBitState::Logic1));
    assert!(!rising.update(LogicBitState::Logic1));
    rising.reset();
    assert!(!rising.update(LogicBitState::Logic1));
    let mut falling = ClockTrigger::new(ClockPolarity::Falling);
    assert!(!falling.update(LogicBitState::Logic1));
    assert!(!falling.update(LogicBitState::HighZ));
    assert!(falling.update(LogicBitState::Logic0));
}

#[test]
fn conflicts_are_listed_in_ascending_order() {
    let mut builder = SimulatorBuilder::default();
    let input = builder.add_wire(w(1)).unwrap();
    let enable = builder.add_wire(w(1)).unwrap();
    let low = builder.add_wire(w(1)).unwrap();
    let _spare = builder.add_wire(w(1)).unwrap();
    let high = builder.add_wire(w(1)).unwrap();
    builder.set_wire_drive(input, &LogicState::logic_1(w(1))).unwrap();
    builder.set_wire_drive(enable, &LogicState::logic_1(w(1))).unwrap();
    builder.set_wire_drive(low, &LogicState::logic_0(w(1))).unwrap();
    builder.set_wire_drive(high, &LogicState::logic_0(w(1))).unwrap();
    let _first = builder.add_buffer(input, enable, high).unwrap();
    let _second = builder.add_buffer(input, enable, low).unwrap();
    let mut sim = builder.build();
    match sim.run_sim(4) {
        SimulationRunResult::Error(err) => assert_eq!(err.conflicts, vec![low, high]),
        _ => panic!("expected a conflict"),
    }
}

#[test]
fn error_conversions() {
    assert_eq!(gsim::AddWireError::from(OutOfMemoryError), gsim::AddWireError::TooManyWires);
    assert_eq!(AddComponentError::from(OutOfMemoryError), AddComponentError::TooManyComponents);
    assert_eq!(AddComponentError::from(InvalidWireIdError), AddComponentError::InvalidWireId);
    assert_eq!(SetWireDriveError::from(InvalidWireIdError), SetWireDriveError::InvalidWireId);
}

#[test]
fn error_messages() {
    assert_eq!(
        gsim::AddWireError::TooManyWires.to_display_string(),
        "the memory limit for wires was reached"
    );
    assert_eq!(
        AddComponentError::TooFewInputs.to_display_string(),
        "too few inputs were specified"
    );
    assert_eq!(
        SetWireDriveError::InvalidBitWidth.to_display_string(),
        "the width of the logic state did not match the width of the wire"
    );
    assert_eq!(
        InvalidWireIdError.to_display_string(),
        "the specified wire ID was not part of the simulation"
    );
    assert_eq!(
        InvalidComponentIdError.to_display_string(),
        "the specified component ID was not part of the simulation"
    );
}

#[test]
fn well_formed_and_new_wire_drive() {
    let mut builder = SimulatorBuilder::default();
    assert!(builder.well_formed());
    let a = builder.add_wire(w(9)).unwrap();
    assert!(builder.get_wire_drive(a).unwrap().to_owned() == LogicState::high_z(w(9)));
    let sim = builder.build();
    assert!(sim.well_formed());
}
