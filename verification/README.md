# gsim

A digital circuit simulation engine whose library is written in Verus. The public functions
carry contracts; the simulation run is proved to report `Settled` only in a settled state,
`Error` with exactly the wires that have a driver conflict, and `MaxStepsReached` only after
the allowed number of steps all changed something. What another thread stores into a pin is
not known to the library, so the pin functions state only what holds whatever was stored.

States are four-valued (`0`, `1`, high impedance, undefined) and stored as two bit planes of
32-bit words, so that every logic operation acts on 32 bits at once.

## Layout

- `src/logic_bit.rs`, `src/logic_state.rs`, `src/bit_width.rs`: single bits, states of up to
  256 bits, parsing and display.
- `src/ops.rs`, `src/shift.rs`, `src/mul.rs`, `src/horizontal.rs`, `src/arith.rs`: the
  word-parallel operations and what they compute, bit by bit and as numbers.
- `src/wire.rs`: how drives and driving outputs resolve into the state of a wire.
- `src/component.rs`: what every component computes from the wires it reads.
- `src/simulator.rs`: the builder, the simulator, and the simulation algorithm, which
  alternates between updating the wires and the components waiting for an update.
- `src/memory.rs`, `src/behaviour.rs`, `src/timescale.rs`, `src/yosys.rs`: register and
  memory data, bit-by-bit behaviours, VCD timescales, and Yosys cell types.
- `src/import.rs`: importing a module of a Yosys netlist, held as plain values (ports, cells
  and the nets of their bits), into a builder. `app/lib.rs` reads Yosys JSON netlists into
  that form.
- `src/ram.rs`: a random-access memory written on a clock edge and read continuously.
- `src/pins.rs`: pins shared with other threads, and the components that drive them or read
  from them.

## Example

```rust
use gsim::{BitWidth, LogicState, SimulationRunResult, SimulatorBuilder};

let mut builder = SimulatorBuilder::default();
let width = BitWidth::new(1).unwrap();
let a = builder.add_wire(width).unwrap();
let b = builder.add_wire(width).unwrap();
let out = builder.add_wire(width).unwrap();
builder.add_and_gate(&[a, b], out).unwrap();

let mut sim = builder.build();
sim.set_wire_drive(a, &LogicState::from_bool(true)).unwrap();
sim.set_wire_drive(b, &LogicState::from_bool(false)).unwrap();
assert!(matches!(sim.run_sim(2), SimulationRunResult::Settled));
let [state, _] = sim.get_wire_state_and_drive(out).unwrap();
assert!(state.to_owned() == LogicState::from_bool(false));
```
