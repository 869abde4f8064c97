use gsim::import::{
    Cell, CellPort, YosysModuleImporter, ModuleConnections, ModulePort, PortDirection, Signal,
};
use gsim::yosys::CellType;
use gsim::{LogicBitState, LogicState, SimulationRunResult, SimulatorBuilder, WireId, YosysModuleImportError};

fn nets(ids: &[usize]) -> Vec<Signal> {
    ids.iter().map(|&n| Signal::Net(n)).collect()
}

fn port(name: &str, direction: PortDirection, bits: Vec<Signal>) -> ModulePort {
    ModulePort { name: name.to_string(), direction, bits }
}

fn cell_port(name: &str, direction: Option<PortDirection>, bits: Vec<Signal>) -> CellPort {
    CellPort { name: name.to_string(), direction, bits }
}

fn cell(name: &str, cell_type: CellType, ports: Vec<CellPort>) -> Cell {
    Cell { name: name.to_string(), hide_name: false, cell_type, ports }
}

fn find(list: &[(String, WireId)], name: &str) -> WireId {
    list.iter().find(|(n, _)| n == name).map(|(_, w)| *w).expect("port missing")
}

/// `o = a & b`, all 8 bits wide
fn and_module() -> YosysModuleImporter {
    YosysModuleImporter {
        name: "top".to_string(),
        ports: vec![
            port("a", PortDirection::Input, nets(&[2, 3, 4, 5, 6, 7, 8, 9])),
            port("b", PortDirection::Input, nets(&[10, 11, 12, 13, 14, 15, 16, 17])),
            port("o", PortDirection::Output, nets(&[18, 19, 20, 21, 22, 23, 24, 25])),
        ],
        cells: vec![cell(
            "$and$1",
            CellType::And,
            vec![
                cell_port("A", Some(PortDirection::Input), nets(&[2, 3, 4, 5, 6, 7, 8, 9])),
                cell_port("B", Some(PortDirection::Input), nets(&[10, 11, 12, 13, 14, 15, 16, 17])),
                cell_port("Y", Some(PortDirection::Output), nets(&[18, 19, 20, 21, 22, 23, 24, 25])),
            ],
        )],
    }
}

fn import(module: &YosysModuleImporter) -> (ModuleConnections, SimulatorBuilder) {
    let mut builder = SimulatorBuilder::default();
    let connections = builder.import_module(module).unwrap();
    (connections, builder)
}

#[test]
fn import_simple_and_gate() {
    let module = and_module();
    assert_eq!(module.module_name(), "top");
    let (connections, builder) = import(&module);
    assert_eq!(connections.inputs.len(), 2);
    assert_eq!(connections.outputs.len(), 1);
    let a = find(&connections.inputs, "a");
    let b = find(&connections.inputs, "b");
    let o = find(&connections.outputs, "o");
    for wire in [a, b, o] {
        assert_eq!(builder.get_wire_drive(wire).unwrap().bit_width().get(), 8);
    }
    assert_eq!(builder.get_wire_name(a).unwrap(), Some("a"));
    assert_eq!(builder.get_wire_name(o).unwrap(), Some("o"));
    // the cell's ports share the wires of the module's ports
    assert_eq!(builder.iter_wire_ids().len(), 3);
    assert_eq!(builder.iter_component_ids().len(), 1);
    let gate = builder.iter_component_ids()[0];
    assert_eq!(builder.get_component_name(gate).unwrap(), Some("$and$1"));
    let mut sim = builder.build();
    sim.set_wire_drive(a, &LogicState::from_u32(0b1100_1010, gsim::BitWidth::new(8).unwrap())).unwrap();
    sim.set_wire_drive(b, &LogicState::from_u32(0b1010_0110, gsim::BitWidth::new(8).unwrap())).unwrap();
    assert!(matches!(sim.run_sim(4), SimulationRunResult::Settled));
    let [state, _] = sim.get_wire_state_and_drive(o).unwrap();
    assert!(state.to_owned() == LogicState::from_u32(0b1000_0010, gsim::BitWidth::new(8).unwrap()));
}

#[test]
fn import_constant_output() {
    let module = YosysModuleImporter {
        name: "k".to_string(),
        ports: vec![port(
            "o",
            PortDirection::Output,
            vec![
                Signal::Value(LogicBitState::Logic1),
                Signal::Value(LogicBitState::Logic0),
                Signal::Value(LogicBitState::Undefined),
            ],
        )],
        cells: vec![],
    };
    let (connections, builder) = import(&module);
    let o = find(&connections.outputs, "o");
    let drive = builder.get_wire_drive(o).unwrap().to_owned();
    assert!(drive == LogicState::from_u32(0b001, gsim::BitWidth::new(3).unwrap()));
    assert_eq!(builder.get_wire_name(o).unwrap(), Some("o"));
}

#[test]
fn import_inout_port() {
    let mut module = and_module();
    module.ports.push(port("io", PortDirection::InOut, nets(&[30])));
    let mut builder = SimulatorBuilder::default();
    match builder.import_module(&module) {
        Err(YosysModuleImportError::InOutPort { port_name }) => assert_eq!(port_name, "io"),
        _ => panic!("expected an inout port error"),
    }
    assert_eq!(builder.iter_wire_ids().len(), 0);
}

#[test]
fn import_missing_cell_port_direction() {
    let mut module = and_module();
    module.cells[0].ports[1].direction = None;
    let mut builder = SimulatorBuilder::default();
    match builder.import_module(&module) {
        Err(YosysModuleImportError::MissingCellPortDirection { cell_name, port_name }) => {
            assert_eq!(cell_name, "$and$1");
            assert_eq!(port_name, "B");
        }
        _ => panic!("expected a missing direction error"),
    }
    assert_eq!(builder.iter_wire_ids().len(), 0);
}

#[test]
fn import_cell_inout_port() {
    let mut module = and_module();
    module.cells[0].ports[2].direction = Some(PortDirection::InOut);
    let mut builder = SimulatorBuilder::default();
    match builder.import_module(&module) {
        Err(YosysModuleImportError::CellInOutPort { cell_name, port_name }) => {
            assert_eq!(cell_name, "$and$1");
            assert_eq!(port_name, "Y");
        }
        _ => panic!("expected a cell inout port error"),
    }
}

#[test]
fn import_unsupported_width() {
    let mut module = and_module();
    module.ports.push(port("wide", PortDirection::Input, nets(&(100..357).collect::<Vec<_>>())));
    let mut builder = SimulatorBuilder::default();
    match builder.import_module(&module) {
        Err(YosysModuleImportError::UnsupportedWireWidth { wire_width }) => assert_eq!(wire_width, 257),
        _ => panic!("expected a width error"),
    }
}

#[test]
fn import_unknown_and_unsupported_cells() {
    let mut module = and_module();
    module.cells[0].cell_type = CellType::Unknown("$frobnicate".to_string());
    let mut builder = SimulatorBuilder::default();
    match builder.import_module(&module) {
        Err(YosysModuleImportError::UnknownCellType { cell_name, cell_type }) => {
            assert_eq!(cell_name, "$and$1");
            assert_eq!(cell_type, "$frobnicate");
        }
        _ => panic!("expected an unknown cell error"),
    }
    let mut module = and_module();
    module.cells[0].cell_type = CellType::Mul;
    let mut builder = SimulatorBuilder::default();
    match builder.import_module(&module) {
        Err(YosysModuleImportError::UnsupportedCellType { cell_name, cell_type }) => {
            assert_eq!(cell_name, "$and$1");
            assert!(matches!(cell_type, CellType::Mul));
        }
        _ => panic!("expected an unsupported cell error"),
    }
}

#[test]
fn import_invalid_cell_ports() {
    let mut module = and_module();
    module.cells[0].ports[1].name = "C".to_string();
    let mut builder = SimulatorBuilder::default();
    match builder.import_module(&module) {
        Err(YosysModuleImportError::InvalidCellPorts { cell_name }) => assert_eq!(cell_name, "$and$1"),
        _ => panic!("expected an invalid ports error"),
    }
}

#[test]
fn import_split_bus() {
    let module = YosysModuleImporter {
        name: "split".to_string(),
        ports: vec![
            port("a", PortDirection::Input, nets(&[2, 3])),
            port("lo", PortDirection::Output, nets(&[2])),
        ],
        cells: vec![],
    };
    let mut builder = SimulatorBuilder::default();
    assert!(matches!(builder.import_module(&module), Err(YosysModuleImportError::SplitBus)));
}

#[test]
fn import_not_gate() {
    let module = YosysModuleImporter {
        name: "inv".to_string(),
        ports: vec![
            port("a", PortDirection::Input, nets(&[2])),
            port("y", PortDirection::Output, nets(&[3])),
        ],
        cells: vec![cell(
            "$not$2",
            CellType::Not,
            vec![
                cell_port("A", Some(PortDirection::Input), nets(&[2])),
                cell_port("Y", Some(PortDirection::Output), nets(&[3])),
            ],
        )],
    };
    let (connections, builder) = import(&module);
    let a = find(&connections.inputs, "a");
    let y = find(&connections.outputs, "y");
    let mut sim = builder.build();
    sim.set_wire_drive(a, &LogicState::from_bool(false)).unwrap();
    assert!(matches!(sim.run_sim(4), SimulationRunResult::Settled));
    let [state, _] = sim.get_wire_state_and_drive(y).unwrap();
    assert!(state.to_owned() == LogicState::from_bool(true));
}

#[test]
fn import_chained_cells() {
    // y = !a & b, through an internal net 4
    let module = YosysModuleImporter {
        name: "chain".to_string(),
        ports: vec![
            port("a", PortDirection::Input, nets(&[2])),
            port("b", PortDirection::Input, nets(&[3])),
            port("y", PortDirection::Output, nets(&[5])),
        ],
        cells: vec![
            cell(
                "$not$1",
                CellType::Not,
                vec![
                    cell_port("A", Some(PortDirection::Input), nets(&[2])),
                    cell_port("Y", Some(PortDirection::Output), nets(&[4])),
                ],
            ),
            Cell {
                name: "$and$2".to_string(),
                hide_name: true,
                cell_type: CellType::And,
                ports: vec![
                    cell_port("A", Some(PortDirection::Input), nets(&[4])),
                    cell_port("B", Some(PortDirection::Input), nets(&[3])),
                    cell_port("Y", Some(PortDirection::Output), nets(&[5])),
                ],
            },
        ],
    };
    let (connections, builder) = import(&module);
    assert_eq!(builder.iter_wire_ids().len(), 4);
    let ids = builder.iter_component_ids();
    assert_eq!(ids.len(), 2);
    assert_eq!(builder.get_component_name(ids[0]).unwrap(), Some("$not$1"));
    assert_eq!(builder.get_component_name(ids[1]).unwrap(), None);
    let a = find(&connections.inputs, "a");
    let b = find(&connections.inputs, "b");
    let y = find(&connections.outputs, "y");
    let mut sim = builder.build();
    for (va, vb, vy) in [(false, true, true), (true, true, false), (false, false, false)] {
        sim.set_wire_drive(a, &LogicState::from_bool(va)).unwrap();
        sim.set_wire_drive(b, &LogicState::from_bool(vb)).unwrap();
        assert!(matches!(sim.run_sim(8), SimulationRunResult::Settled));
        let [state, _] = sim.get_wire_state_and_drive(y).unwrap();
        assert!(state.to_owned() == LogicState::from_bool(vy));
    }
}

#[test]
fn import_tribuf_and_add() {
    let module = YosysModuleImporter {
        name: "mixed".to_string(),
        ports: vec![
            port("a", PortDirection::Input, nets(&[2, 3])),
            port("b", PortDirection::Input, nets(&[4, 5])),
            port("en", PortDirection::Input, nets(&[6])),
            port("y", PortDirection::Output, nets(&[7, 8])),
        ],
        cells: vec![
            cell(
                "$add$1",
                CellType::Add,
                vec![
                    cell_port("A", Some(PortDirection::Input), nets(&[2, 3])),
                    cell_port("B", Some(PortDirection::Input), nets(&[4, 5])),
                    cell_port("Y", Some(PortDirection::Output), nets(&[9, 10])),
                ],
            ),
            cell(
                "$tribuf$2",
                CellType::TriBuf,
                vec![
                    cell_port("A", Some(PortDirection::Input), nets(&[9, 10])),
                    cell_port("EN", Some(PortDirection::Input), nets(&[6])),
                    cell_port("Y", Some(PortDirection::Output), nets(&[7, 8])),
                ],
            ),
        ],
    };
    let (connections, builder) = import(&module);
    let a = find(&connections.inputs, "a");
    let b = find(&connections.inputs, "b");
    let en = find(&connections.inputs, "en");
    let y = find(&connections.outputs, "y");
    let mut sim = builder.build();
    let w2 = gsim::BitWidth::new(2).unwrap();
    sim.set_wire_drive(a, &LogicState::from_u32(1, w2)).unwrap();
    sim.set_wire_drive(b, &LogicState::from_u32(2, w2)).unwrap();
    sim.set_wire_drive(en, &LogicState::from_bool(true)).unwrap();
    assert!(matches!(sim.run_sim(8), SimulationRunResult::Settled));
    let [state, _] = sim.get_wire_state_and_drive(y).unwrap();
    assert!(state.to_owned() == LogicState::from_u32(3, w2));
    sim.set_wire_drive(en, &LogicState::from_bool(false)).unwrap();
    assert!(matches!(sim.run_sim(8), SimulationRunResult::Settled));
    let [state, _] = sim.get_wire_state_and_drive(y).unwrap();
    assert!(state.to_owned() == LogicState::high_z(w2));
}
