//! Importing a Yosys netlist module into a simulation.
//!
//! The netlist is held as plain values: the ports of the module and its cells, each port with
//! its direction and its bits, least significant first. Each bit is either a constant or a net
//! of the netlist. Ports whose bits are the same list of nets share one wire (a bus).
use vstd::prelude::*;
use crate::bit_width::BitWidth;
use crate::id::{WireId, WireStateId};
use crate::logic_bit::LogicBitState;
use crate::logic_state::LogicState;
use crate::simulator::{SimulatorBuilder, SimulatorData};
use crate::yosys::{CellType, YosysModuleImportError};
use crate::component::{ComponentOp, GateKind};

verus! {

/// The direction of a port of a module or of a cell
#[derive(Debug, Clone, Copy, PartialEq, Eq, Structural)]
pub enum PortDirection {
    Input,
    Output,
    InOut,
}

/// One bit of a port's connection: a constant, or a net of the netlist
#[derive(Debug, Clone, Copy, PartialEq, Eq, Structural)]
pub enum Signal {
    Value(LogicBitState),
    Net(usize),
}

/// A port of the module
pub struct ModulePort {
    pub name: String,
    pub direction: PortDirection,
    /// The bits of the port, least significant first
    pub bits: Vec<Signal>,
}

/// A port of a cell; its direction may be missing from the netlist
pub struct CellPort {
    pub name: String,
    pub direction: Option<PortDirection>,
    /// The bits of the port, least significant first
    pub bits: Vec<Signal>,
}

/// A cell of the module
pub struct Cell {
    pub name: String,
    /// Whether the cell's name was made up by Yosys; such a name is not given to the component
    pub hide_name: bool,
    pub cell_type: CellType,
    pub ports: Vec<CellPort>,
}

/// A module of a Yosys netlist, to be imported into a simulation
pub struct YosysModuleImporter {
    pub name: String,
    pub ports: Vec<ModulePort>,
    pub cells: Vec<Cell>,
}

/// The connections of an imported module: each port's name with the wire it became
pub struct ModuleConnections {
    /// The inputs of the module
    pub inputs: Vec<(String, WireId)>,
    /// The outputs of the module
    pub outputs: Vec<(String, WireId)>,
}

/// Whether every bit is a net
pub open spec fn all_nets(bits: Seq<Signal>) -> bool {
    forall|i: int| 0 <= i < bits.len() ==> #[trigger] bits[i] is Net
}

/// Whether some bit is a net
pub open spec fn has_net(bits: Seq<Signal>) -> bool {
    exists|i: int| 0 <= i < bits.len() && (#[trigger] bits[i]) is Net
}

/// Whether a width is one that a wire can have
pub open spec fn valid_width(n: nat) -> bool {
    1 <= n <= 256
}

impl YosysModuleImporter {
    /// The module's name
    pub fn module_name(&self) -> (r: &str)
        ensures
            r@ == self.name@,
    {
        self.name.as_str()
    }

    /// Whether the module's format is sound: the bits of what is driven from outside the
    /// module (its inputs) or by a cell (the cell's outputs) are nets, never constants
    pub open spec fn driven_bits_are_nets(&self) -> bool {
        &&& forall|i: int|
            0 <= i < self.ports@.len() && (#[trigger] self.ports@[i]).direction == PortDirection::Input
                ==> all_nets(self.ports@[i].bits@)
        &&& forall|c: int, p: int|
            0 <= c < self.cells@.len() && 0 <= p < self.cells@[c].ports@.len() && (
            #[trigger] self.cells@[c].ports@[p]).direction == Some(PortDirection::Output) ==> all_nets(
                self.cells@[c].ports@[p].bits@,
            )
    }
}

/// What is wrong with a port of the module, if anything: an `inout` port, or a width that no
/// wire can have
pub open spec fn port_problem(p: ModulePort) -> Option<YosysModuleImportError> {
    if p.direction == PortDirection::InOut {
        Some(YosysModuleImportError::InOutPort { port_name: p.name })
    } else if !valid_width(p.bits@.len()) {
        Some(YosysModuleImportError::UnsupportedWireWidth { wire_width: p.bits@.len() as usize })
    } else {
        None
    }
}

/// The problem of the first port of `ports[k..]` that has one
pub open spec fn first_port_problem(ports: Seq<ModulePort>, k: int) -> Option<YosysModuleImportError>
    decreases ports.len() - k,
{
    if k < 0 || k >= ports.len() {
        None
    } else if port_problem(ports[k]) is Some {
        port_problem(ports[k])
    } else {
        first_port_problem(ports, k + 1)
    }
}

/// What is wrong with a port of the cell named `cell_name`, if anything: a missing direction,
/// an `inout` port, or a width that no wire can have
pub open spec fn cell_port_problem(cell_name: String, p: CellPort) -> Option<YosysModuleImportError> {
    match p.direction {
        None => Some(
            YosysModuleImportError::MissingCellPortDirection { cell_name: cell_name, port_name: p.name },
        ),
        Some(PortDirection::InOut) => Some(
            YosysModuleImportError::CellInOutPort { cell_name: cell_name, port_name: p.name },
        ),
        Some(_) => if !valid_width(p.bits@.len()) {
            Some(YosysModuleImportError::UnsupportedWireWidth { wire_width: p.bits@.len() as usize })
        } else {
            None
        },
    }
}

/// The problem of the first port of `ports[k..]` of a cell that has one
pub open spec fn first_cell_port_problem(cell_name: String, ports: Seq<CellPort>, k: int) -> Option<
    YosysModuleImportError,
>
    decreases ports.len() - k,
{
    if k < 0 || k >= ports.len() {
        None
    } else if cell_port_problem(cell_name, ports[k]) is Some {
        cell_port_problem(cell_name, ports[k])
    } else {
        first_cell_port_problem(cell_name, ports, k + 1)
    }
}

/// The problem of the first port of the first cell of `cells[k..]` that has one
pub open spec fn first_cell_problem(cells: Seq<Cell>, k: int) -> Option<YosysModuleImportError>
    decreases cells.len() - k,
{
    if k < 0 || k >= cells.len() {
        None
    } else {
        match first_cell_port_problem(cells[k].name, cells[k].ports@, 0) {
            Some(e) => Some(e),
            None => first_cell_problem(cells, k + 1),
        }
    }
}

/// What is wrong with the ports of the module or of its cells, if anything: the module's ports
/// are looked at first, in order, then the ports of each cell, in order
pub open spec fn module_problem(m: YosysModuleImporter) -> Option<YosysModuleImportError> {
    match first_port_problem(m.ports@, 0) {
        Some(e) => Some(e),
        None => first_cell_problem(m.cells@, 0),
    }
}

/// With no problem in `ports[k..]`, no port there has one
proof fn lemma_no_port_problem(ports: Seq<ModulePort>, k: int)
    requires
        0 <= k,
        first_port_problem(ports, k) is None,
    ensures
        forall|j: int| k <= j < ports.len() ==> port_problem(#[trigger] ports[j]) is None,
    decreases ports.len() - k,
{
    if k < ports.len() {
        lemma_no_port_problem(ports, k + 1);
    }
}

/// With no problem in the ports `ports[k..]` of a cell, no port there has one
proof fn lemma_no_cell_port_problem(cell_name: String, ports: Seq<CellPort>, k: int)
    requires
        0 <= k,
        first_cell_port_problem(cell_name, ports, k) is None,
    ensures
        forall|j: int| k <= j < ports.len() ==> cell_port_problem(cell_name, #[trigger] ports[j]) is None,
    decreases ports.len() - k,
{
    if k < ports.len() {
        lemma_no_cell_port_problem(cell_name, ports, k + 1);
    }
}

/// With no problem in the cells `cells[k..]`, no port of theirs has one
proof fn lemma_no_cell_problem(cells: Seq<Cell>, k: int)
    requires
        0 <= k,
        first_cell_problem(cells, k) is None,
    ensures
        forall|c: int, j: int|
            k <= c < cells.len() && 0 <= j < cells[c].ports@.len() ==> cell_port_problem(
                cells[c].name,
                #[trigger] cells[c].ports@[j],
            ) is None,
    decreases cells.len() - k,
{
    if k < cells.len() {
        lemma_no_cell_port_problem(cells[k].name, cells[k].ports@, 0);
        lemma_no_cell_problem(cells, k + 1);
    }
}

/// The problem of one port of the module
fn check_port(port: &ModulePort) -> (r: Option<YosysModuleImportError>)
    ensures
        r == port_problem(*port),
{
    match port.direction {
        PortDirection::InOut => Some(YosysModuleImportError::InOutPort { port_name: port.name.clone() }),
        _ => {
            let n = port.bits.len();
            if n == 0 || n > 256 {
                Some(YosysModuleImportError::UnsupportedWireWidth { wire_width: n })
            } else {
                None
            }
        },
    }
}

/// The problem of one port of a cell
fn check_cell_port(cell_name: &String, port: &CellPort) -> (r: Option<YosysModuleImportError>)
    ensures
        r == cell_port_problem(*cell_name, *port),
{
    match port.direction {
        None => Some(
            YosysModuleImportError::MissingCellPortDirection {
                cell_name: cell_name.clone(),
                port_name: port.name.clone(),
            },
        ),
        Some(PortDirection::InOut) => Some(
            YosysModuleImportError::CellInOutPort {
                cell_name: cell_name.clone(),
                port_name: port.name.clone(),
            },
        ),
        Some(_) => {
            let n = port.bits.len();
            if n == 0 || n > 256 {
                Some(YosysModuleImportError::UnsupportedWireWidth { wire_width: n })
            } else {
                None
            }
        },
    }
}

/// Checks the ports of the module and of its cells, in order
fn check_module(module: &YosysModuleImporter) -> (r: Option<YosysModuleImportError>)
    ensures
        r == module_problem(*module),
{
    let mut i: usize = 0;
    while i < module.ports.len()
        invariant
            0 <= i <= module.ports@.len(),
            first_port_problem(module.ports@, 0) == first_port_problem(module.ports@, i as int),
        decreases module.ports@.len() - i,
    {
        let p = check_port(&module.ports[i]);
        if p.is_some() {
            return p;
        }
        i = i + 1;
    }
    let mut c: usize = 0;
    while c < module.cells.len()
        invariant
            0 <= c <= module.cells@.len(),
            first_port_problem(module.ports@, 0) is None,
            first_cell_problem(module.cells@, 0) == first_cell_problem(module.cells@, c as int),
        decreases module.cells@.len() - c,
    {
        let cell = &module.cells[c];
        let mut j: usize = 0;
        while j < cell.ports.len()
            invariant
                0 <= j <= cell.ports@.len(),
                c < module.cells@.len(),
                first_port_problem(module.ports@, 0) is None,
                first_cell_problem(module.cells@, 0) == first_cell_problem(module.cells@, c as int),
                *cell == module.cells@[c as int],
                first_cell_port_problem(cell.name, cell.ports@, 0) == first_cell_port_problem(
                    cell.name,
                    cell.ports@,
                    j as int,
                ),
            decreases cell.ports@.len() - j,
        {
            let p = check_cell_port(&cell.name, &cell.ports[j]);
            if p.is_some() {
                assert(first_cell_port_problem(cell.name, cell.ports@, j as int) == p);
                assert(first_cell_problem(module.cells@, c as int) == p);
                return p;
            }
            j = j + 1;
        }
        c = c + 1;
    }
    None
}

/// Whether two lists of bits are the same
fn same_bits(a: &Vec<Signal>, b: &Vec<Signal>) -> (r: bool)
    ensures
        r == (a@ == b@),
{
    if a.len() != b.len() {
        return false;
    }
    let mut i: usize = 0;
    while i < a.len()
        invariant
            a@.len() == b@.len(),
            0 <= i <= a@.len(),
            forall|j: int| 0 <= j < i ==> a@[j] == b@[j],
        decreases a@.len() - i,
    {
        if a[i] != b[i] {
            return false;
        }
        i = i + 1;
    }
    assert(a@ =~= b@);
    true
}

/// The state that drives a wire of the given bits: each constant bit drives its value, with an
/// undefined constant taken as `Logic0`, and each net is left in high impedance. Yosys lists
/// the bits of a port least significant first, as a state indexes them, so bit `i` of the wire
/// is the port's bit `i`
pub open spec fn constant_drive(bits: Seq<Signal>) -> Seq<LogicBitState> {
    bits.map_values(
        |b: Signal|
            match b {
                Signal::Value(LogicBitState::Undefined) => LogicBitState::Logic0,
                Signal::Value(v) => v,
                Signal::Net(_) => LogicBitState::HighZ,
            },
    )
}

/// Builds the drive of a wire of the given bits
fn drive_of_bits(bits: &Vec<Signal>) -> (r: LogicState)
    requires
        valid_width(bits@.len()),
    ensures
        r@ == constant_drive(bits@),
        r.bit_width().width() == bits@.len(),
{
    let mut drive: Vec<LogicBitState> = Vec::new();
    let mut i: usize = 0;
    while i < bits.len()
        invariant
            0 <= i <= bits@.len(),
            drive@ == constant_drive(bits@).take(i as int),
        decreases bits@.len() - i,
    {
        let b = match bits[i] {
            Signal::Value(LogicBitState::Undefined) => LogicBitState::Logic0,
            Signal::Value(v) => v,
            Signal::Net(_) => LogicBitState::HighZ,
        };
        drive.push(b);
        i = i + 1;
        assert(drive@ =~= constant_drive(bits@).take(i as int));
    }
    assert(drive@ =~= constant_drive(bits@));
    LogicState::from_bits(drive.as_slice())
}

/// Which way a bus is driven from where it is met: a `Read` bus is driven by the netlist (a
/// cell drives it, or it holds constants), a `Write` bus from elsewhere
#[derive(Clone, Copy, PartialEq, Eq, Structural)]
enum BusDirection {
    Read,
    Write,
}

/// Adds a wire as wide as the bits; where a direction is given, its drive holds the constant
/// bits
fn add_bus_wire(bits: &Vec<Signal>, set_drive: Option<BusDirection>, builder: &mut SimulatorBuilder) -> (r:
    Result<WireId, YosysModuleImportError>)
    requires
        valid_width(bits@.len()),
    ensures
        final(builder).spec_data().keeps_wires(&old(builder).spec_data()),
        final(builder).spec_data().wire_count() <= old(builder).spec_data().wire_count() + 1,
        final(builder).spec_data().component_count() == old(builder).spec_data().component_count(),
        r is Ok <==> old(builder).spec_data().wire_count() < crate::state_alloc::MAX_STATE_COUNT,
        r matches Ok(w) ==> final(builder).spec_data().has_wire(w) && final(builder).spec_data().wire_width(
            w,
        ).width() == bits@.len() && !old(builder).spec_data().has_wire(w),
        r matches Err(e) ==> e == YosysModuleImportError::ResourceLimitReached,
{
    let width = BitWidth::new(bits.len() as u32).unwrap();
    let ghost d0 = builder.spec_data();
    let wire = match builder.add_wire(width) {
        Ok(w) => w,
        Err(_) => {
            return Err(YosysModuleImportError::ResourceLimitReached);
        },
    };
    let ghost d1 = builder.spec_data();
    assert(d1.keeps_wires(&d0)) by {
        assert forall|w: WireId| d0.has_wire(w) implies #[trigger] d1.wire_width(w) == d0.wire_width(w) by {
            assert(d1.spec_wires().drop_last()[w.spec_index() as int] == d1.spec_wires()[w.spec_index() as int]);
        }
    }
    if set_drive.is_some() {
        let drive = drive_of_bits(bits);
        let _ = builder.set_wire_drive(wire, &drive);
        assert(builder.spec_data().spec_wires() == d1.spec_wires());
    }
    Ok(wire)
}

/// Whether the bit is a net that is part of a bus
pub open spec fn mapped_net(nets: Seq<usize>, s: Signal) -> bool {
    match s {
        Signal::Net(n) => nets.contains(n),
        Signal::Value(_) => false,
    }
}

/// Which wire each bus of the netlist became, and which nets are part of a bus
///
/// The buses are kept in a list searched in order, and so are the nets: the key of a bus is a
/// list of bits, and no contract of a hash map's contents can be proved over such keys.
struct WireMap {
    buses: Vec<(Vec<Signal>, WireId)>,
    nets: Vec<usize>,
    /// The wires of ports that connect to parts of buses; they are left to be joined
    split: Vec<WireId>,
}

impl WireMap {
    /// Every bus is a wire of `d` as wide as its bits
    spec fn fits(&self, d: SimulatorData) -> bool {
        forall|i: int|
            0 <= i < self.buses@.len() ==> d.has_wire(#[trigger] self.buses@[i].1) && d.wire_width(
                self.buses@[i].1,
            ).width() == self.buses@[i].0@.len()
    }

    /// The map stays fitting while the simulation keeps its wires
    proof fn lemma_fits_kept(&self, d: SimulatorData, d2: SimulatorData)
        requires
            self.fits(d),
            d2.keeps_wires(&d),
        ensures
            self.fits(d2),
    {
        assert forall|i: int| 0 <= i < self.buses@.len() implies d2.has_wire(#[trigger] self.buses@[i].1)
            && d2.wire_width(self.buses@[i].1).width() == self.buses@[i].0@.len() by {
            assert(d2.wire_width(self.buses@[i].1) == d.wire_width(self.buses@[i].1));
        }
    }

    fn new() -> (r: WireMap)
        ensures
            r.buses@.len() == 0,
            r.nets@.len() == 0,
            r.split@.len() == 0,
    {
        WireMap { buses: Vec::new(), nets: Vec::new(), split: Vec::new() }
    }

    /// The wire of a bus seen before
    fn find_bus(&self, bits: &Vec<Signal>) -> (r: Option<WireId>)
        ensures
            r matches Some(w) ==> exists|i: int|
                0 <= i < self.buses@.len() && #[trigger] self.buses@[i] == (self.buses@[i].0, w)
                    && self.buses@[i].0@ == bits@,
            r is None ==> forall|i: int| 0 <= i < self.buses@.len() ==> (#[trigger] self.buses@[i]).0@ != bits@,
    {
        let mut i: usize = 0;
        while i < self.buses.len()
            invariant
                0 <= i <= self.buses@.len(),
                forall|k: int| 0 <= k < i ==> (#[trigger] self.buses@[k]).0@ != bits@,
            decreases self.buses@.len() - i,
        {
            if same_bits(&self.buses[i].0, bits) {
                return Some(self.buses[i].1);
            }
            i = i + 1;
        }
        None
    }

    /// Whether a net is part of a bus
    fn net_mapped(&self, net: usize) -> (r: bool)
        ensures
            r == self.nets@.contains(net),
    {
        let mut i: usize = 0;
        while i < self.nets.len()
            invariant
                0 <= i <= self.nets@.len(),
                forall|k: int| 0 <= k < i ==> self.nets@[k] != net,
            decreases self.nets@.len() - i,
        {
            if self.nets[i] == net {
                return true;
            }
            i = i + 1;
        }
        false
    }

    /// Whether every net among the bits is still free of any bus
    fn all_nets_unmapped(&self, bits: &Vec<Signal>) -> (r: bool)
        ensures
            r == forall|a: int| 0 <= a < bits@.len() ==> !mapped_net(self.nets@, #[trigger] bits@[a]),
    {
        let mut i: usize = 0;
        while i < bits.len()
            invariant
                0 <= i <= bits@.len(),
                forall|a: int| 0 <= a < i ==> !mapped_net(self.nets@, #[trigger] bits@[a]),
            decreases bits@.len() - i,
        {
            if let Signal::Net(net) = bits[i] {
                if self.net_mapped(net) {
                    return false;
                }
            }
            i = i + 1;
        }
        true
    }

    /// Whether every bit is a constant
    fn all_values(bits: &Vec<Signal>) -> (r: bool)
        ensures
            r ==> forall|i: int| 0 <= i < bits@.len() ==> #[trigger] bits@[i] is Value,
    {
        let mut i: usize = 0;
        while i < bits.len()
            invariant
                0 <= i <= bits@.len(),
                forall|j: int| 0 <= j < i ==> #[trigger] bits@[j] is Value,
            decreases bits@.len() - i,
        {
            if let Signal::Net(_) = bits[i] {
                return false;
            }
            i = i + 1;
        }
        true
    }

    /// Whether `w` is the wire of the bus with the bits `b`
    spec fn maps(&self, b: Seq<Signal>, w: WireId) -> bool {
        exists|k: int| 0 <= k < self.buses@.len() && (#[trigger] self.buses@[k]).0@ == b && self.buses@[k].1 == w
    }

    /// Whether `self` holds the buses of `old`, and possibly more
    spec fn extends(&self, old: &WireMap) -> bool {
        &&& old.buses@.len() <= self.buses@.len()
        &&& forall|k: int| 0 <= k < old.buses@.len() ==> #[trigger] self.buses@[k] == old.buses@[k]
    }

    /// No two buses have the same bits
    spec fn keys_unique(&self) -> bool {
        forall|i: int, j: int|
            0 <= i < self.buses@.len() && 0 <= j < self.buses@.len() && i != j ==> (#[trigger] self.buses@[i]).0@
                != (#[trigger] self.buses@[j]).0@
    }

    /// The wire of each bus, by its bits
    spec fn bus_map(&self) -> Map<Seq<Signal>, WireId> {
        Map::new(
            |b: Seq<Signal>| exists|k: int| 0 <= k < self.buses@.len() && (#[trigger] self.buses@[k]).0@ == b,
            |b: Seq<Signal>|
                self.buses@[choose|k: int| 0 <= k < self.buses@.len() && (#[trigger] self.buses@[k]).0@ == b].1,
        )
    }

    /// A bus stays when the map extends
    proof fn lemma_maps_kept(&self, old: &WireMap, b: Seq<Signal>, w: WireId)
        requires
            old.maps(b, w),
            self.extends(old),
        ensures
            self.maps(b, w),
    {
        let k = choose|k: int| 0 <= k < old.buses@.len() && (#[trigger] old.buses@[k]).0@ == b && old.buses@[k].1 == w;
        assert(self.buses@[k] == old.buses@[k]);
    }

    /// With unique bits, the map of buses gives the wire of each bus
    proof fn lemma_bus_map(&self, b: Seq<Signal>, w: WireId)
        requires
            self.maps(b, w),
            self.keys_unique(),
        ensures
            self.bus_map().contains_key(b),
            self.bus_map()[b] == w,
    {
        let k = choose|k: int| 0 <= k < self.buses@.len() && (#[trigger] self.buses@[k]).0@ == b && self.buses@[k].1 == w;
        assert(self.bus_map().contains_key(b));
        let j = choose|j: int| 0 <= j < self.buses@.len() && (#[trigger] self.buses@[j]).0@ == b;
        assert(j == k);
    }

    /// How the map may change when the bits of a port are met: at most one bus is added, with
    /// those bits and their nets; at most one port is left to be joined, and only one whose
    /// bits are no bus yet and share a net with a bus
    spec fn grows_by(&self, old: &WireMap, bits: Seq<Signal>) -> bool {
        &&& old.buses@.len() <= self.buses@.len() <= old.buses@.len() + 1
        &&& forall|k: int| 0 <= k < old.buses@.len() ==> #[trigger] self.buses@[k] == old.buses@[k]
        &&& self.buses@.len() == old.buses@.len() + 1 ==> self.buses@.last().0@ == bits && forall|k: int|
            0 <= k < old.buses@.len() ==> (#[trigger] old.buses@[k]).0@ != bits
        &&& forall|n: usize|
            #[trigger] self.nets@.contains(n) ==> old.nets@.contains(n) || (self.buses@.len()
                == old.buses@.len() + 1 && bits.contains(Signal::Net(n)))
        &&& old.split@.len() <= self.split@.len() <= old.split@.len() + 1
        &&& self.split@.len() == old.split@.len() + 1 ==> (forall|k: int|
            0 <= k < old.buses@.len() ==> (#[trigger] old.buses@[k]).0@ != bits) && exists|a: int|
            0 <= a < bits.len() && mapped_net(old.nets@, #[trigger] bits[a])
    }

    /// The wire of the bus with the given bits: the wire of the same bus seen before; a new
    /// wire driven by the constants where all bits are constants; a new bus where none of its
    /// nets is part of a bus yet; else a new wire, left to be joined to the buses it overlaps
    fn get_bus_wire(&mut self, bits: &Vec<Signal>, direction: BusDirection, builder: &mut SimulatorBuilder) -> (r:
        Result<WireId, YosysModuleImportError>)
        requires
            old(self).fits(old(builder).spec_data()),
            valid_width(bits@.len()),
            direction == BusDirection::Write ==> all_nets(bits@),
        ensures
            final(self).fits(final(builder).spec_data()),
            final(self).grows_by(&*old(self), bits@),
            final(builder).spec_data().keeps_wires(&old(builder).spec_data()),
            final(builder).spec_data().wire_count() <= old(builder).spec_data().wire_count() + 1,
            final(builder).spec_data().component_count() == old(builder).spec_data().component_count(),
            old(builder).spec_data().wire_count() < crate::state_alloc::MAX_STATE_COUNT ==> r is Ok,
            r matches Ok(w) ==> final(builder).spec_data().has_wire(w) && final(builder).spec_data().wire_width(
                w,
            ).width() == bits@.len(),
            r matches Err(e) ==> e == YosysModuleImportError::ResourceLimitReached,
            final(self).split@.len() == old(self).split@.len() && has_net(bits@) ==> (r matches Ok(w) ==> final(self).maps(bits@, w)),
    {
        let ghost d0 = builder.spec_data();
        let ghost m0 = *self;
        if let Some(wire) = self.find_bus(bits) {
            proof {
                let i = choose|i: int|
                    0 <= i < self.buses@.len() && #[trigger] self.buses@[i] == (self.buses@[i].0, wire)
                        && self.buses@[i].0@ == bits@;
                assert(self.buses@[i].1 == wire);
            }
            return Ok(wire);
        }
        if Self::all_values(bits) {
            let bus_wire = add_bus_wire(bits, Some(direction), builder)?;
            let ghost d1 = builder.spec_data();
            let name = drive_of_bits(bits).to_display_string();
            let _ = builder.set_wire_name(bus_wire, name.as_str());
            proof {
                builder.spec_data().lemma_keeps_wires_trans(&d1, &d0);
                self.lemma_fits_kept(d0, builder.spec_data());
            }
            Ok(bus_wire)
        } else if self.all_nets_unmapped(bits) {
            let bus_wire = add_bus_wire(bits, Some(direction), builder)?;
            proof {
                self.lemma_fits_kept(d0, builder.spec_data());
            }
            self.buses.push((copy_bits(bits), bus_wire));
            let mut i: usize = 0;
            while i < bits.len()
                invariant
                    0 <= i <= bits@.len(),
                    self.fits(builder.spec_data()),
                    self.buses@ == m0.buses@.push(self.buses@.last()),
                    self.buses@.last().0@ == bits@,
                    self.buses@.last().1 == bus_wire,
                    self.split@ == m0.split@,
                    forall|n: usize| #[trigger] self.nets@.contains(n) ==> m0.nets@.contains(n) || bits@.contains(Signal::Net(n)),
                decreases bits@.len() - i,
            {
                let ghost nets0 = self.nets@;
                if let Signal::Net(net) = bits[i] {
                    self.nets.push(net);
                    proof {
                        assert forall|n: usize| #[trigger] self.nets@.contains(n) implies m0.nets@.contains(n)
                            || bits@.contains(Signal::Net(n)) by {
                            if n != net {
                                let k = choose|k: int| 0 <= k < self.nets@.len() && self.nets@[k] == n;
                                assert(nets0[k] == n);
                                assert(nets0.contains(n));
                            } else {
                                assert(bits@[i as int] == Signal::Net(n));
                            }
                        }
                    }
                }
                i = i + 1;
            }
            proof {
                assert(self.buses@[self.buses@.len() - 1] == self.buses@.last());
            }
            Ok(bus_wire)
        } else {
            let bus_wire = add_bus_wire(bits, None, builder)?;
            proof {
                self.lemma_fits_kept(d0, builder.spec_data());
            }
            self.split.push(bus_wire);
            Ok(bus_wire)
        }
    }
}

/// A copy of the bits
fn copy_bits(bits: &Vec<Signal>) -> (r: Vec<Signal>)
    ensures
        r@ == bits@,
{
    let mut r: Vec<Signal> = Vec::new();
    let mut i: usize = 0;
    while i < bits.len()
        invariant
            0 <= i <= bits@.len(),
            r@ == bits@.take(i as int),
        decreases bits@.len() - i,
    {
        r.push(bits[i]);
        i = i + 1;
        assert(r@ =~= bits@.take(i as int));
    }
    assert(r@ =~= bits@);
    r
}

/// Whether the importer translates cells of this type
pub open spec fn supported_cell_type(t: CellType) -> bool {
    t is Not || t is And || t is Or || t is Xor || t is Xnor || t is Add || t is Sub || t is TriBuf
}

/// Whether `e` is an error that translating `cell` may give: its type is unknown, or not one
/// the importer translates, or its ports do not fit its type (wrong names or counts, or widths
/// that the component refuses)
pub open spec fn cell_error(cell: Cell, e: YosysModuleImportError) -> bool {
    match e {
        YosysModuleImportError::UnknownCellType { cell_name, cell_type } => cell_name == cell.name
            && cell.cell_type == CellType::Unknown(cell_type),
        YosysModuleImportError::UnsupportedCellType { cell_name, cell_type } => cell_name == cell.name
            && cell_type == cell.cell_type && !(cell_type is Unknown) && !supported_cell_type(cell_type),
        YosysModuleImportError::InvalidCellPorts { cell_name } => cell_name == cell.name
            && supported_cell_type(cell.cell_type),
        _ => false,
    }
}

/// The wire of the first port with the given name
fn find_port(ports: &Vec<(String, WireId)>, name: &str) -> (r: Option<WireId>)
    ensures
        r matches Some(w) ==> exists|k: int| 0 <= k < ports@.len() && (#[trigger] ports@[k]).1 == w && ports@[k].0@ == name@,
        r is None ==> forall|k: int| 0 <= k < ports@.len() ==> (#[trigger] ports@[k]).0@ != name@,
{
    let mut i: usize = 0;
    while i < ports.len()
        invariant
            0 <= i <= ports@.len(),
            forall|k: int| 0 <= k < i ==> (#[trigger] ports@[k]).0@ != name@,
        decreases ports@.len() - i,
    {
        if crate::yosys::is_named(&ports[i].0, name) {
            assert(ports@[i as int].1 == ports[i as int].1);
            return Some(ports[i].1);
        }
        i = i + 1;
    }
    None
}

/// The error of a cell whose ports do not fit its type
fn invalid_ports<T>(cell: &Cell) -> (r: Result<T, YosysModuleImportError>)
    ensures
        r == Err::<T, YosysModuleImportError>(
            YosysModuleImportError::InvalidCellPorts { cell_name: cell.name },
        ),
{
    Err(YosysModuleImportError::InvalidCellPorts { cell_name: cell.name.clone() })
}

/// The operation that a cell of a supported type becomes
pub open spec fn cell_op(t: CellType) -> ComponentOp {
    match t {
        CellType::Not => ComponentOp::Not,
        CellType::And => ComponentOp::Gate(GateKind::And),
        CellType::Or => ComponentOp::Gate(GateKind::Or),
        CellType::Xor => ComponentOp::Gate(GateKind::Xor),
        CellType::Xnor => ComponentOp::Gate(GateKind::Xnor),
        CellType::Add => ComponentOp::Add,
        CellType::Sub => ComponentOp::Sub,
        _ => ComponentOp::Buffer,
    }
}

/// The number of inputs of a cell of a supported type
pub open spec fn cell_arity(t: CellType) -> nat {
    if t is Not {
        1
    } else {
        2
    }
}

/// The name of the second input of a cell of a supported type
pub open spec fn second_input(t: CellType) -> Seq<char> {
    if t is TriBuf {
        "EN"@
    } else {
        "B"@
    }
}

/// The number of ports with the given direction
pub open spec fn dir_count(ports: Seq<CellPort>, dir: PortDirection) -> nat
    decreases ports.len(),
{
    if ports.len() == 0 {
        0
    } else {
        dir_count(ports.drop_last(), dir) + if ports.last().direction == Some(dir) {
            1nat
        } else {
            0nat
        }
    }
}

/// Whether a port with the given name has the given direction
pub open spec fn has_port(ports: Seq<CellPort>, name: Seq<char>, dir: PortDirection) -> bool {
    exists|k: int| 0 <= k < ports.len() && (#[trigger] ports[k]).name@ == name && ports[k].direction == Some(dir)
}

/// The width of the port with the given name
pub open spec fn width_of(ports: Seq<CellPort>, name: Seq<char>) -> nat {
    ports[choose|k: int| 0 <= k < ports.len() && (#[trigger] ports[k]).name@ == name].bits@.len()
}

/// Whether no two ports share a name
pub open spec fn names_distinct(ports: Seq<CellPort>) -> bool {
    forall|i: int, j: int| 0 <= i < ports.len() && 0 <= j < ports.len() && i != j ==> (#[trigger] ports[i]).name@
        != (#[trigger] ports[j]).name@
}

/// Whether the cell has a supported type and the ports that type needs: inputs `A` (and `B`,
/// or `EN` for `$tribuf`) and output `Y`, no other port, no name twice, and widths that the
/// component takes (`EN` one bit, the others as wide as `Y`)
pub open spec fn cell_fits(cell: Cell) -> bool {
    let p = cell.ports@;
    let t = cell.cell_type;
    &&& supported_cell_type(t)
    &&& names_distinct(p)
    &&& dir_count(p, PortDirection::Input) == cell_arity(t)
    &&& dir_count(p, PortDirection::Output) == 1
    &&& has_port(p, "A"@, PortDirection::Input)
    &&& has_port(p, "Y"@, PortDirection::Output)
    &&& cell_arity(t) == 2 ==> has_port(p, second_input(t), PortDirection::Input)
    &&& width_of(p, "A"@) == width_of(p, "Y"@)
    &&& t is TriBuf ==> width_of(p, "EN"@) == 1
    &&& !(t is Not) && !(t is TriBuf) ==> width_of(p, "B"@) == width_of(p, "Y"@)
}

/// Whether the entry is a port among `ports[..n]` of direction `dir`, under its name and on a
/// wire of `d` as wide as its bits
pub open spec fn entry_of_port(
    ports: Seq<CellPort>,
    n: int,
    e: (String, WireId),
    dir: PortDirection,
    d: SimulatorData,
) -> bool {
    exists|p: int|
        0 <= p < n && (#[trigger] ports[p]).direction == Some(dir) && ports[p].name == e.0 && d.has_wire(e.1)
            && d.wire_width(e.1).width() == ports[p].bits@.len()
}

/// Whether the list has an entry with the name
pub open spec fn in_list(list: Seq<(String, WireId)>, name: String) -> bool {
    exists|k: int| 0 <= k < list.len() && (#[trigger] list[k]).0 == name
}

/// Whether `list` holds exactly the ports among `ports[..n]` of direction `dir`, each under its
/// name and on a wire of `d` as wide as its bits
pub open spec fn listed(
    ports: Seq<CellPort>,
    n: int,
    list: Seq<(String, WireId)>,
    dir: PortDirection,
    d: SimulatorData,
) -> bool {
    &&& 0 <= n <= ports.len()
    &&& list.len() == dir_count(ports.take(n), dir)
    &&& forall|k: int| 0 <= k < list.len() ==> entry_of_port(ports, n, #[trigger] list[k], dir, d)
    &&& forall|p: int| 0 <= p < n && (#[trigger] ports[p]).direction == Some(dir) ==> in_list(list, ports[p].name)
}

/// Nothing is listed among no ports
proof fn lemma_listed_empty(ports: Seq<CellPort>, dir: PortDirection, d: SimulatorData)
    ensures
        listed(ports, 0, Seq::empty(), dir, d),
{
    assert(ports.take(0) =~= Seq::<CellPort>::empty());
}

/// The list stays while the simulation keeps its wires
proof fn lemma_listed_kept(
    ports: Seq<CellPort>,
    n: int,
    list: Seq<(String, WireId)>,
    dir: PortDirection,
    d: SimulatorData,
    d2: SimulatorData,
)
    requires
        listed(ports, n, list, dir, d),
        d2.keeps_wires(&d),
    ensures
        listed(ports, n, list, dir, d2),
{
    assert forall|k: int| 0 <= k < list.len() implies entry_of_port(ports, n, #[trigger] list[k], dir, d2) by {
        assert(entry_of_port(ports, n, list[k], dir, d));
        let p = choose|p: int|
            0 <= p < n && (#[trigger] ports[p]).direction == Some(dir) && ports[p].name == list[k].0 && d.has_wire(
                list[k].1,
            ) && d.wire_width(list[k].1).width() == ports[p].bits@.len();
        assert(d2.wire_width(list[k].1) == d.wire_width(list[k].1));
    }
}

/// Taking in port `n`: listed under its name where it has the direction, passed over otherwise
proof fn lemma_listed_step(
    ports: Seq<CellPort>,
    n: int,
    list: Seq<(String, WireId)>,
    list2: Seq<(String, WireId)>,
    dir: PortDirection,
    d: SimulatorData,
    w: WireId,
)
    requires
        listed(ports, n, list, dir, d),
        n < ports.len(),
        list2 == if ports[n].direction == Some(dir) {
            list.push((ports[n].name, w))
        } else {
            list
        },
        ports[n].direction == Some(dir) ==> d.has_wire(w) && d.wire_width(w).width() == ports[n].bits@.len(),
    ensures
        listed(ports, n + 1, list2, dir, d),
{
    assert(ports.take(n + 1).drop_last() =~= ports.take(n));
    assert(ports.take(n + 1).last() == ports[n]);
    assert forall|k: int| 0 <= k < list2.len() implies entry_of_port(ports, n + 1, #[trigger] list2[k], dir, d) by {
        if k < list.len() {
            assert(list2[k] == list[k]);
            assert(entry_of_port(ports, n, list[k], dir, d));
            let p = choose|p: int|
                0 <= p < n && (#[trigger] ports[p]).direction == Some(dir) && ports[p].name == list[k].0
                    && d.has_wire(list[k].1) && d.wire_width(list[k].1).width() == ports[p].bits@.len();
            assert(0 <= p < n + 1);
        } else {
            assert(list2[k] == (ports[n].name, w));
        }
    }
    assert forall|p: int| 0 <= p < n + 1 && (#[trigger] ports[p]).direction == Some(dir) implies in_list(
        list2,
        ports[p].name,
    ) by {
        if p < n {
            assert(in_list(list, ports[p].name));
            let k = choose|k: int| 0 <= k < list.len() && (#[trigger] list[k]).0 == ports[p].name;
            assert(list2[k] == list[k]);
        } else {
            assert(list2[list.len() as int] == (ports[n].name, w));
        }
    }
}

/// A listed port with a given name is found in the list, on a wire as wide as the port
proof fn lemma_listed_find(
    ports: Seq<CellPort>,
    list: Seq<(String, WireId)>,
    dir: PortDirection,
    d: SimulatorData,
    name: Seq<char>,
)
    requires
        listed(ports, ports.len() as int, list, dir, d),
        names_distinct(ports),
    ensures
        has_port(ports, name, dir) ==> exists|k: int| 0 <= k < list.len() && (#[trigger] list[k]).0@ == name,
        forall|k: int|
            0 <= k < list.len() && (#[trigger] list[k]).0@ == name ==> d.has_wire(list[k].1) && d.wire_width(
                list[k].1,
            ).width() == width_of(ports, name),
{
    if has_port(ports, name, dir) {
        let p = choose|p: int| 0 <= p < ports.len() && (#[trigger] ports[p]).name@ == name && ports[p].direction == Some(dir);
        assert(in_list(list, ports[p].name));
        let k = choose|k: int| 0 <= k < list.len() && (#[trigger] list[k]).0 == ports[p].name;
        assert(list[k].0@ == name);
    }
    assert forall|k: int| 0 <= k < list.len() && (#[trigger] list[k]).0@ == name implies d.has_wire(list[k].1)
        && d.wire_width(list[k].1).width() == width_of(ports, name) by {
        assert(entry_of_port(ports, ports.len() as int, list[k], dir, d));
        let p = choose|p: int|
            0 <= p < ports.len() && (#[trigger] ports[p]).direction == Some(dir) && ports[p].name == list[k].0
                && d.has_wire(list[k].1) && d.wire_width(list[k].1).width() == ports[p].bits@.len();
        assert(ports[p].name@ == name);
        let q = choose|q: int| 0 <= q < ports.len() && (#[trigger] ports[q]).name@ == name;
        assert(p == q);
    }
}

/// The listed count is the count over all ports
proof fn lemma_listed_count(ports: Seq<CellPort>, list: Seq<(String, WireId)>, dir: PortDirection, d: SimulatorData)
    requires
        listed(ports, ports.len() as int, list, dir, d),
    ensures
        list.len() == dir_count(ports, dir),
{
    assert(ports.take(ports.len() as int) =~= ports);
}

/// Whether the component reads the wires listed as the inputs `A` (and `B`, or `EN` for
/// `$tribuf`) and drives the wire listed as the output `Y`
pub open spec fn cell_uses(
    comp: crate::component::Component,
    t: CellType,
    inputs: Seq<(String, WireId)>,
    outputs: Seq<(String, WireId)>,
) -> bool {
    &&& comp.spec_kind().inputs().len() == cell_arity(t)
    &&& exists|k: int| 0 <= k < outputs.len() && (#[trigger] outputs[k]).0@ == "Y"@ && outputs[k].1 == comp.spec_output_wire()
    &&& exists|k: int|
        0 <= k < inputs.len() && (#[trigger] inputs[k]).0@ == "A"@ && comp.spec_kind().inputs()[0]
            == WireStateId::spec_new(inputs[k].1.spec_index())
    &&& cell_arity(t) == 2 ==> exists|k: int|
        0 <= k < inputs.len() && (#[trigger] inputs[k]).0@ == second_input(t) && comp.spec_kind().inputs()[1]
            == WireStateId::spec_new(inputs[k].1.spec_index())
}

/// Adds the component of a cell, given the wires of its input and output ports: a gate for
/// `$not`, `$and`, `$or`, `$xor` and `$xnor`, an adder or subtractor for `$add` and `$sub`, a
/// buffer for `$tribuf`
fn add_cell(
    builder: &mut SimulatorBuilder,
    cell: &Cell,
    inputs: &Vec<(String, WireId)>,
    outputs: &Vec<(String, WireId)>,
) -> (r: Result<crate::id::ComponentId, YosysModuleImportError>)
    ensures
        final(builder).spec_data().keeps_wires(&old(builder).spec_data()),
        final(builder).spec_data().wire_count() == old(builder).spec_data().wire_count(),
        final(builder).spec_data().spec_component_names() == old(builder).spec_data().spec_component_names(),
        r matches Err(e) ==> cell_error(*cell, e),
        cell_fits(*cell) && listed(cell.ports@, cell.ports@.len() as int, inputs@, PortDirection::Input, old(builder).spec_data())
            && listed(cell.ports@, cell.ports@.len() as int, outputs@, PortDirection::Output, old(builder).spec_data())
            && old(builder).spec_data().component_count() < crate::state_alloc::MAX_STATE_COUNT ==> r is Ok,
        r matches Ok(id) ==> id.spec_index() == old(builder).spec_data().component_count()
            && final(builder).spec_data().component_count() == old(builder).spec_data().component_count() + 1
            && final(builder).spec_data().spec_components().last().spec_kind().op() == cell_op(cell.cell_type)
            && cell_uses(final(builder).spec_data().spec_components().last(), cell.cell_type, inputs@, outputs@),
{
    broadcast use crate::simulator::lemma_component_keeps_wires;
    broadcast use BitWidth::lemma_width_injective;

    let ghost d0 = builder.spec_data();
    let ghost owed = cell_fits(*cell) && listed(cell.ports@, cell.ports@.len() as int, inputs@, PortDirection::Input, d0)
        && listed(cell.ports@, cell.ports@.len() as int, outputs@, PortDirection::Output, d0)
        && d0.component_count() < crate::state_alloc::MAX_STATE_COUNT;
    proof {
        assert(d0.keeps_wires(&d0));
        if owed {
            lemma_listed_count(cell.ports@, inputs@, PortDirection::Input, d0);
            lemma_listed_count(cell.ports@, outputs@, PortDirection::Output, d0);
            lemma_listed_find(cell.ports@, inputs@, PortDirection::Input, d0, "A"@);
            lemma_listed_find(cell.ports@, inputs@, PortDirection::Input, d0, second_input(cell.cell_type));
            lemma_listed_find(cell.ports@, outputs@, PortDirection::Output, d0, "Y"@);
        }
    }
    let unary = match &cell.cell_type {
        CellType::Not => true,
        CellType::And | CellType::Or | CellType::Xor | CellType::Xnor => false,
        CellType::Add | CellType::Sub | CellType::TriBuf => false,
        CellType::Unknown(t) => {
            return Err(
                YosysModuleImportError::UnknownCellType { cell_name: cell.name.clone(), cell_type: t.clone() },
            );
        },
        _ => {
            return Err(
                YosysModuleImportError::UnsupportedCellType {
                    cell_name: cell.name.clone(),
                    cell_type: cell.cell_type.duplicate(),
                },
            );
        },
    };
    let input_count: usize = if unary {
        1
    } else {
        2
    };
    if inputs.len() != input_count || outputs.len() != 1 {
        return invalid_ports(cell);
    }
    let a = match find_port(inputs, "A") {
        Some(w) => w,
        None => {
            return invalid_ports(cell);
        },
    };
    let y = match find_port(outputs, "Y") {
        Some(w) => w,
        None => {
            return invalid_ports(cell);
        },
    };
    let second = if unary {
        a
    } else {
        let name = match &cell.cell_type {
            CellType::TriBuf => "EN",
            _ => "B",
        };
        assert(name@ == second_input(cell.cell_type));
        match find_port(inputs, name) {
            Some(w) => w,
            None => {
                return invalid_ports(cell);
            },
        }
    };
    let one = BitWidth::min_width();
    proof {
        reveal_with_fuel(SimulatorData::widths_from, 4);
        if owed {
            let p = cell.ports@;
            assert(d0.has_wire(a) && d0.wire_width(a).width() == width_of(p, "A"@));
            assert(d0.has_wire(y) && d0.wire_width(y).width() == width_of(p, "Y"@));
            assert(d0.wire_width(a) == d0.wire_width(y));
            if !unary {
                assert(d0.has_wire(second) && d0.wire_width(second).width() == width_of(p, second_input(cell.cell_type)));
                if cell.cell_type is TriBuf {
                    assert(d0.wire_width(second) == one);
                } else {
                    assert(d0.wire_width(second) == d0.wire_width(y));
                }
            }
            assert(seq![a, second].push(y) =~= seq![a, second, y]);
        }
    }
    let added = match &cell.cell_type {
        CellType::Not => builder.add_not_gate(a, y),
        CellType::And => builder.add_and_gate(&[a, second], y),
        CellType::Or => builder.add_or_gate(&[a, second], y),
        CellType::Xor => builder.add_xor_gate(&[a, second], y),
        CellType::Xnor => builder.add_xnor_gate(&[a, second], y),
        CellType::Add => builder.add_add(a, second, y),
        CellType::Sub => builder.add_sub(a, second, y),
        _ => builder.add_buffer(a, second, y),
    };
    match added {
        Ok(id) => Ok(id),
        Err(_) => invalid_ports(cell),
    }
}

/// Whether `list` holds, under the port's name, a wire of `d` as wide as the port's bits
pub open spec fn connects(list: Seq<(String, WireId)>, p: ModulePort, d: SimulatorData) -> bool {
    exists|k: int|
        0 <= k < list.len() && (#[trigger] list[k]).0 == p.name && d.has_wire(list[k].1) && d.wire_width(
            list[k].1,
        ).width() == p.bits@.len()
}

/// Whether the entry is named after a port of the given direction
pub open spec fn names_port(ports: Seq<ModulePort>, entry: (String, WireId), dir: PortDirection) -> bool {
    exists|j: int| 0 <= j < ports.len() && (#[trigger] ports[j]).direction == dir && ports[j].name == entry.0
}

/// A connection stays while the simulation keeps its wires
proof fn lemma_connects_kept(list: Seq<(String, WireId)>, p: ModulePort, d: SimulatorData, d2: SimulatorData)
    requires
        connects(list, p, d),
        d2.keeps_wires(&d),
    ensures
        connects(list, p, d2),
{
    let k = choose|k: int|
        0 <= k < list.len() && (#[trigger] list[k]).0 == p.name && d.has_wire(list[k].1) && d.wire_width(
            list[k].1,
        ).width() == p.bits@.len();
    assert(d2.wire_width(list[k].1) == d.wire_width(list[k].1));
}

/// A connection stays when the list grows
proof fn lemma_connects_push(list: Seq<(String, WireId)>, x: (String, WireId), p: ModulePort, d: SimulatorData)
    requires
        connects(list, p, d),
    ensures
        connects(list.push(x), p, d),
{
    let k = choose|k: int|
        0 <= k < list.len() && (#[trigger] list[k]).0 == p.name && d.has_wire(list[k].1) && d.wire_width(
            list[k].1,
        ).width() == p.bits@.len();
    assert(list.push(x)[k] == list[k]);
}

/// Whether the port is in the connections on a wire of `d` as wide as its bits: an input
/// among the inputs, an output among the outputs
pub open spec fn port_connected(
    p: ModulePort,
    inputs: Seq<(String, WireId)>,
    outputs: Seq<(String, WireId)>,
    d: SimulatorData,
) -> bool {
    &&& p.direction == PortDirection::Input ==> connects(inputs, p, d)
    &&& p.direction == PortDirection::Output ==> connects(outputs, p, d)
}

/// Whether each of the first `n` ports is in the connections
pub open spec fn ports_connected(
    ports: Seq<ModulePort>,
    n: int,
    inputs: Seq<(String, WireId)>,
    outputs: Seq<(String, WireId)>,
    d: SimulatorData,
) -> bool {
    forall|j: int| 0 <= j < n ==> port_connected(#[trigger] ports[j], inputs, outputs, d)
}

/// Whether each connection is named after a port of its direction
pub open spec fn connections_named(
    ports: Seq<ModulePort>,
    inputs: Seq<(String, WireId)>,
    outputs: Seq<(String, WireId)>,
) -> bool {
    &&& forall|k: int| 0 <= k < inputs.len() ==> names_port(ports, #[trigger] inputs[k], PortDirection::Input)
    &&& forall|k: int| 0 <= k < outputs.len() ==> names_port(ports, #[trigger] outputs[k], PortDirection::Output)
}

/// The ports stay connected while the simulation keeps its wires
proof fn lemma_ports_connected_kept(
    ports: Seq<ModulePort>,
    n: int,
    inputs: Seq<(String, WireId)>,
    outputs: Seq<(String, WireId)>,
    d: SimulatorData,
    d2: SimulatorData,
)
    requires
        ports_connected(ports, n, inputs, outputs, d),
        d2.keeps_wires(&d),
    ensures
        ports_connected(ports, n, inputs, outputs, d2),
{
    assert forall|j: int| 0 <= j < n implies port_connected(#[trigger] ports[j], inputs, outputs, d2) by {
        if ports[j].direction == PortDirection::Input {
            lemma_connects_kept(inputs, ports[j], d, d2);
        }
        if ports[j].direction == PortDirection::Output {
            lemma_connects_kept(outputs, ports[j], d, d2);
        }
    }
}

/// Whether two lists of bits are the same bus or share no net
pub open spec fn bits_compatible(a: Seq<Signal>, b: Seq<Signal>) -> bool {
    a == b || forall|i: int, j: int|
        0 <= i < a.len() && 0 <= j < b.len() && (#[trigger] a[i]) is Net ==> a[i] != #[trigger] b[j]
}

/// Whether the bits are those of a port of the module or of one of its cells
pub open spec fn is_port_bits(imp: YosysModuleImporter, b: Seq<Signal>) -> bool {
    ||| exists|i: int| 0 <= i < imp.ports@.len() && (#[trigger] imp.ports@[i]).bits@ == b
    ||| exists|c: int, k: int|
        0 <= c < imp.cells@.len() && 0 <= k < imp.cells@[c].ports@.len() && (
        #[trigger] imp.cells@[c].ports@[k]).bits@ == b
}

/// Whether any two ports of the module or of its cells that share a net have the same bits:
/// then no port connects to a part of a bus
pub open spec fn buses_consistent(imp: YosysModuleImporter) -> bool {
    forall|a: Seq<Signal>, b: Seq<Signal>|
        #[trigger] is_port_bits(imp, a) && #[trigger] is_port_bits(imp, b) ==> bits_compatible(a, b)
}

/// The number of ports of the cells `cells[..n]`
pub open spec fn cell_ports_total(cells: Seq<Cell>, n: int) -> nat
    decreases n,
{
    if n <= 0 || n > cells.len() {
        0
    } else {
        cell_ports_total(cells, n - 1) + cells[n - 1].ports@.len()
    }
}

/// The number of ports of the module and of all its cells
pub open spec fn total_ports(imp: YosysModuleImporter) -> nat {
    imp.ports@.len() + cell_ports_total(imp.cells@, imp.cells@.len() as int)
}

/// More cells have at least as many ports
proof fn lemma_cell_ports_total_grows(cells: Seq<Cell>, m: int, n: int)
    requires
        0 <= m <= n <= cells.len(),
    ensures
        cell_ports_total(cells, m) <= cell_ports_total(cells, n),
    decreases n - m,
{
    if m < n {
        lemma_cell_ports_total_grows(cells, m, n - 1);
    }
}

/// Whether component `k` of `d` is what the cell becomes: the operation of its type, named
/// after the cell unless the cell's name is hidden
pub open spec fn cell_built(d: SimulatorData, k: int, cell: Cell) -> bool {
    &&& 0 <= k < d.component_count() <= crate::state_alloc::MAX_STATE_COUNT
    &&& d.spec_components()[k].spec_kind().op() == cell_op(cell.cell_type)
    &&& !cell.hide_name ==> d.spec_component_names().contains_key(k as u32) && d.spec_component_names()[k as u32]
        == cell.name@
}

/// The component that the import builds for a cell performs the operation of the cell's Yosys
/// type: `$not` negates, `$and`, `$or`, `$xor` and `$xnor` are the gates of those names, `$add`
/// adds, `$sub` subtracts its `B` input from its `A` input, and `$tribuf` is a buffer
pub proof fn law_cell_operations(d: SimulatorData, k: int, cell: Cell)
    requires
        cell_built(d, k, cell),
    ensures
        ({
            let op = d.spec_components()[k].spec_kind().op();
            &&& cell.cell_type is Not ==> op == ComponentOp::Not
            &&& cell.cell_type is And ==> op == ComponentOp::Gate(GateKind::And)
            &&& cell.cell_type is Or ==> op == ComponentOp::Gate(GateKind::Or)
            &&& cell.cell_type is Xor ==> op == ComponentOp::Gate(GateKind::Xor)
            &&& cell.cell_type is Xnor ==> op == ComponentOp::Gate(GateKind::Xnor)
            &&& cell.cell_type is Add ==> op == ComponentOp::Add
            &&& cell.cell_type is Sub ==> op == ComponentOp::Sub
            &&& cell.cell_type is TriBuf ==> op == ComponentOp::Buffer
        }),
{
}

/// A built cell stays built while the simulation keeps its components and names
proof fn lemma_cell_built_kept(d: SimulatorData, d2: SimulatorData, k: int, cell: Cell)
    requires
        cell_built(d, k, cell),
        d2.keeps_wires(&d),
        d2.component_count() <= crate::state_alloc::MAX_STATE_COUNT,
    ensures
        cell_built(d2, k, cell),
{
    assert(d2.spec_components()[k] == d.spec_components()[k]);
    if !cell.hide_name {
        let key = k as u32;
        assert(key as int == k);
        assert(d2.spec_component_names().contains_key(key));
    }
}

/// The net of a bit that is one
spec fn net_id(s: Signal) -> usize {
    match s {
        Signal::Net(n) => n,
        Signal::Value(_) => 0,
    }
}

impl WireMap {
    /// Every net in the map is part of a bus, and every bus has the bits of a port
    spec fn tracks(&self, imp: YosysModuleImporter) -> bool {
        &&& forall|n: usize|
            #[trigger] self.nets@.contains(n) ==> exists|k: int|
                0 <= k < self.buses@.len() && (#[trigger] self.buses@[k]).0@.contains(Signal::Net(n))
        &&& forall|k: int| 0 <= k < self.buses@.len() ==> is_port_bits(imp, (#[trigger] self.buses@[k]).0@)
        &&& self.keys_unique()
    }

    /// Meeting the bits of a port keeps the map tracking, and splits no bus where the module's
    /// buses are consistent
    proof fn lemma_grows_tracks(&self, old: &WireMap, bits: Seq<Signal>, imp: YosysModuleImporter)
        requires
            old.tracks(imp),
            self.grows_by(old, bits),
            is_port_bits(imp, bits),
        ensures
            self.tracks(imp),
            self.extends(old),
            buses_consistent(imp) ==> self.split@.len() == old.split@.len(),
    {
        assert forall|i: int, j: int|
            0 <= i < self.buses@.len() && 0 <= j < self.buses@.len() && i != j implies (#[trigger] self.buses@[i]).0@
                != (#[trigger] self.buses@[j]).0@ by {
            if i < old.buses@.len() && j < old.buses@.len() {
                assert(self.buses@[i] == old.buses@[i] && self.buses@[j] == old.buses@[j]);
            } else if i < old.buses@.len() {
                assert(self.buses@[i] == old.buses@[i]);
                assert(self.buses@[j].0@ == bits);
            } else {
                assert(self.buses@[j] == old.buses@[j]);
                assert(self.buses@[i].0@ == bits);
            }
        }
        assert forall|n: usize| #[trigger] self.nets@.contains(n) implies exists|k: int|
            0 <= k < self.buses@.len() && (#[trigger] self.buses@[k]).0@.contains(Signal::Net(n)) by {
            if old.nets@.contains(n) {
                let k = choose|k: int|
                    0 <= k < old.buses@.len() && (#[trigger] old.buses@[k]).0@.contains(Signal::Net(n));
                assert(self.buses@[k] == old.buses@[k]);
            } else {
                let k = self.buses@.len() - 1;
                assert(self.buses@[k].0@ == bits);
            }
        }
        assert forall|k: int| 0 <= k < self.buses@.len() implies is_port_bits(imp, (#[trigger] self.buses@[k]).0@) by {
            if k < old.buses@.len() {
                assert(self.buses@[k] == old.buses@[k]);
            } else {
                assert(self.buses@[k].0@ == bits);
            }
        }
        if buses_consistent(imp) && self.split@.len() > old.split@.len() {
            let a = choose|a: int| 0 <= a < bits.len() && mapped_net(old.nets@, #[trigger] bits[a]);
            let n = net_id(bits[a]);
            assert(bits[a] == Signal::Net(n));
            assert(old.nets@.contains(n));
            let k = choose|k: int| 0 <= k < old.buses@.len() && (#[trigger] old.buses@[k]).0@.contains(Signal::Net(n));
            let other = old.buses@[k].0@;
            let b = choose|b: int| 0 <= b < other.len() && other[b] == Signal::Net(n);
            assert(is_port_bits(imp, other));
            assert(bits_compatible(bits, other));
            assert(other != bits);
            assert(bits[a] == other[b]);
        }
    }
}

/// Whether `w` is the wire of the bus `bits` in `m`, where the bits hold a net (a port of
/// constants has a wire of its own)
pub open spec fn on_bus(m: Map<Seq<Signal>, WireId>, bits: Seq<Signal>, w: WireId) -> bool {
    has_net(bits) ==> m.contains_key(bits) && m[bits] == w
}

/// Whether the wire state `sid` belongs to the bus `bits` in `m`, where the bits hold a net
pub open spec fn on_bus_state(m: Map<Seq<Signal>, WireId>, bits: Seq<Signal>, sid: WireStateId) -> bool {
    has_net(bits) ==> m.contains_key(bits) && WireStateId::spec_new(m[bits].spec_index()) == sid
}

/// Whether the entry is a cell port of direction `dir`, under its name, on the wire of its bus
pub open spec fn entry_on_bus(
    ports: Seq<CellPort>,
    e: (String, WireId),
    dir: PortDirection,
    m: Map<Seq<Signal>, WireId>,
) -> bool {
    exists|p: int|
        0 <= p < ports.len() && (#[trigger] ports[p]).direction == Some(dir) && ports[p].name == e.0 && on_bus(
            m,
            ports[p].bits@,
            e.1,
        )
}

/// Whether the entry is a module port of direction `dir`, under its name, on the wire of its
/// bus
pub open spec fn port_on_bus(
    ports: Seq<ModulePort>,
    e: (String, WireId),
    dir: PortDirection,
    m: Map<Seq<Signal>, WireId>,
) -> bool {
    exists|j: int|
        0 <= j < ports.len() && (#[trigger] ports[j]).direction == dir && ports[j].name == e.0 && on_bus(
            m,
            ports[j].bits@,
            e.1,
        )
}

/// Whether the component sits between the wires of the cell's buses in `m`: it drives the
/// wire of the output `Y` and reads the wires of the inputs `A` (and `B`, or `EN` for
/// `$tribuf`), in that order
pub open spec fn cell_connected(comp: crate::component::Component, cell: Cell, m: Map<Seq<Signal>, WireId>) -> bool {
    let p = cell.ports@;
    let t = cell.cell_type;
    &&& comp.spec_kind().inputs().len() == cell_arity(t)
    &&& exists|q: int|
        0 <= q < p.len() && (#[trigger] p[q]).name@ == "Y"@ && p[q].direction == Some(PortDirection::Output)
            && on_bus(m, p[q].bits@, comp.spec_output_wire())
    &&& exists|q: int|
        0 <= q < p.len() && (#[trigger] p[q]).name@ == "A"@ && p[q].direction == Some(PortDirection::Input)
            && on_bus_state(m, p[q].bits@, comp.spec_kind().inputs()[0])
    &&& cell_arity(t) == 2 ==> exists|q: int|
        0 <= q < p.len() && (#[trigger] p[q]).name@ == second_input(t) && p[q].direction == Some(
            PortDirection::Input,
        ) && on_bus_state(m, p[q].bits@, comp.spec_kind().inputs()[1])
}

/// A bus keeps its wire when the map extends
proof fn lemma_bus_map_kept(wm1: WireMap, wm0: WireMap, b: Seq<Signal>)
    requires
        wm1.extends(&wm0),
        wm0.keys_unique(),
        wm1.keys_unique(),
        wm0.bus_map().contains_key(b),
    ensures
        wm1.bus_map().contains_key(b),
        wm1.bus_map()[b] == wm0.bus_map()[b],
{
    let k = choose|k: int| 0 <= k < wm0.buses@.len() && (#[trigger] wm0.buses@[k]).0@ == b;
    assert(wm0.bus_map()[b] == wm0.buses@[k].1);
    assert(wm0.maps(b, wm0.buses@[k].1));
    wm1.lemma_maps_kept(&wm0, b, wm0.buses@[k].1);
    wm1.lemma_bus_map(b, wm0.buses@[k].1);
}

/// A wire on its bus stays so when the map extends
proof fn lemma_on_bus_kept(wm1: WireMap, wm0: WireMap, b: Seq<Signal>, w: WireId)
    requires
        wm1.extends(&wm0),
        wm0.keys_unique(),
        wm1.keys_unique(),
        on_bus(wm0.bus_map(), b, w),
    ensures
        on_bus(wm1.bus_map(), b, w),
{
    if has_net(b) {
        lemma_bus_map_kept(wm1, wm0, b);
    }
}

/// A wire state on its bus stays so when the map extends
proof fn lemma_on_bus_state_kept(wm1: WireMap, wm0: WireMap, b: Seq<Signal>, sid: WireStateId)
    requires
        wm1.extends(&wm0),
        wm0.keys_unique(),
        wm1.keys_unique(),
        on_bus_state(wm0.bus_map(), b, sid),
    ensures
        on_bus_state(wm1.bus_map(), b, sid),
{
    if has_net(b) {
        lemma_bus_map_kept(wm1, wm0, b);
    }
}

/// A connected cell stays so when the map extends
proof fn lemma_cell_connected_kept(comp: crate::component::Component, cell: Cell, wm1: WireMap, wm0: WireMap)
    requires
        wm1.extends(&wm0),
        wm0.keys_unique(),
        wm1.keys_unique(),
        cell_connected(comp, cell, wm0.bus_map()),
    ensures
        cell_connected(comp, cell, wm1.bus_map()),
{
    let p = cell.ports@;
    let t = cell.cell_type;
    let m0 = wm0.bus_map();
    let qy = choose|q: int|
        0 <= q < p.len() && (#[trigger] p[q]).name@ == "Y"@ && p[q].direction == Some(PortDirection::Output)
            && on_bus(m0, p[q].bits@, comp.spec_output_wire());
    lemma_on_bus_kept(wm1, wm0, p[qy].bits@, comp.spec_output_wire());
    let qa = choose|q: int|
        0 <= q < p.len() && (#[trigger] p[q]).name@ == "A"@ && p[q].direction == Some(PortDirection::Input)
            && on_bus_state(m0, p[q].bits@, comp.spec_kind().inputs()[0]);
    lemma_on_bus_state_kept(wm1, wm0, p[qa].bits@, comp.spec_kind().inputs()[0]);
    if cell_arity(t) == 2 {
        let qb = choose|q: int|
            0 <= q < p.len() && (#[trigger] p[q]).name@ == second_input(t) && p[q].direction == Some(
                PortDirection::Input,
            ) && on_bus_state(m0, p[q].bits@, comp.spec_kind().inputs()[1]);
        lemma_on_bus_state_kept(wm1, wm0, p[qb].bits@, comp.spec_kind().inputs()[1]);
    }
}

/// Whether every entry is a cell port of direction `dir` on the wire of its bus
pub open spec fn entries_on_bus(
    ports: Seq<CellPort>,
    list: Seq<(String, WireId)>,
    dir: PortDirection,
    m: Map<Seq<Signal>, WireId>,
) -> bool {
    forall|k: int| 0 <= k < list.len() ==> entry_on_bus(ports, #[trigger] list[k], dir, m)
}

/// The entries stay on their buses when the map extends
proof fn lemma_entries_kept(ports: Seq<CellPort>, list: Seq<(String, WireId)>, dir: PortDirection, wm1: WireMap, wm0: WireMap)
    requires
        wm1.extends(&wm0),
        wm0.keys_unique(),
        wm1.keys_unique(),
        entries_on_bus(ports, list, dir, wm0.bus_map()),
    ensures
        entries_on_bus(ports, list, dir, wm1.bus_map()),
{
    assert forall|k: int| 0 <= k < list.len() implies entry_on_bus(ports, #[trigger] list[k], dir, wm1.bus_map()) by {
        assert(entry_on_bus(ports, list[k], dir, wm0.bus_map()));
        let p = choose|p: int|
            0 <= p < ports.len() && (#[trigger] ports[p]).direction == Some(dir) && ports[p].name == list[k].0
                && on_bus(wm0.bus_map(), ports[p].bits@, list[k].1);
        lemma_on_bus_kept(wm1, wm0, ports[p].bits@, list[k].1);
    }
}

/// Adding an entry on its bus, where it has the direction
proof fn lemma_entries_push(
    ports: Seq<CellPort>,
    list: Seq<(String, WireId)>,
    list2: Seq<(String, WireId)>,
    e: (String, WireId),
    dir: PortDirection,
    m: Map<Seq<Signal>, WireId>,
)
    requires
        entries_on_bus(ports, list, dir, m),
        list2 == list || (list2 == list.push(e) && entry_on_bus(ports, e, dir, m)),
    ensures
        entries_on_bus(ports, list2, dir, m),
{
    assert forall|k: int| 0 <= k < list2.len() implies entry_on_bus(ports, #[trigger] list2[k], dir, m) by {
        if k < list.len() {
            assert(list2[k] == list[k]);
        }
    }
}

/// A component that uses the listed wires, all on their buses, sits between the cell's buses
proof fn lemma_cell_connected_from(
    comp: crate::component::Component,
    cell: Cell,
    inputs: Seq<(String, WireId)>,
    outputs: Seq<(String, WireId)>,
    m: Map<Seq<Signal>, WireId>,
)
    requires
        cell_uses(comp, cell.cell_type, inputs, outputs),
        entries_on_bus(cell.ports@, inputs, PortDirection::Input, m),
        entries_on_bus(cell.ports@, outputs, PortDirection::Output, m),
    ensures
        cell_connected(comp, cell, m),
{
    let p = cell.ports@;
    let t = cell.cell_type;
    let ky = choose|k: int| 0 <= k < outputs.len() && (#[trigger] outputs[k]).0@ == "Y"@ && outputs[k].1 == comp.spec_output_wire();
    assert(entry_on_bus(p, outputs[ky], PortDirection::Output, m));
    let qy = choose|q: int|
        0 <= q < p.len() && (#[trigger] p[q]).direction == Some(PortDirection::Output) && p[q].name == outputs[ky].0
            && on_bus(m, p[q].bits@, outputs[ky].1);
    assert(p[qy].name@ == "Y"@);
    let ka = choose|k: int|
        0 <= k < inputs.len() && (#[trigger] inputs[k]).0@ == "A"@ && comp.spec_kind().inputs()[0]
            == WireStateId::spec_new(inputs[k].1.spec_index());
    assert(entry_on_bus(p, inputs[ka], PortDirection::Input, m));
    let qa = choose|q: int|
        0 <= q < p.len() && (#[trigger] p[q]).direction == Some(PortDirection::Input) && p[q].name == inputs[ka].0
            && on_bus(m, p[q].bits@, inputs[ka].1);
    assert(p[qa].name@ == "A"@);
    assert(on_bus_state(m, p[qa].bits@, comp.spec_kind().inputs()[0]));
    if cell_arity(t) == 2 {
        let kb = choose|k: int|
            0 <= k < inputs.len() && (#[trigger] inputs[k]).0@ == second_input(t) && comp.spec_kind().inputs()[1]
                == WireStateId::spec_new(inputs[k].1.spec_index());
        assert(entry_on_bus(p, inputs[kb], PortDirection::Input, m));
        let qb = choose|q: int|
            0 <= q < p.len() && (#[trigger] p[q]).direction == Some(PortDirection::Input) && p[q].name == inputs[kb].0
                && on_bus(m, p[q].bits@, inputs[kb].1);
        assert(p[qb].name@ == second_input(t));
        assert(on_bus_state(m, p[qb].bits@, comp.spec_kind().inputs()[1]));
    }
}

/// Whether the import into `d` connects along the buses of `m`: every connection of the module
/// is a port on the wire of its bus, and the component of each cell (the components from
/// `first` on, in the order of the cells) sits between the wires of the cell's buses
pub open spec fn module_connected(
    imp: YosysModuleImporter,
    inputs: Seq<(String, WireId)>,
    outputs: Seq<(String, WireId)>,
    d: SimulatorData,
    first: int,
    m: Map<Seq<Signal>, WireId>,
) -> bool {
    &&& forall|k: int| 0 <= k < inputs.len() ==> port_on_bus(imp.ports@, #[trigger] inputs[k], PortDirection::Input, m)
    &&& forall|k: int| 0 <= k < outputs.len() ==> port_on_bus(imp.ports@, #[trigger] outputs[k], PortDirection::Output, m)
    &&& forall|c: int|
        0 <= c < imp.cells@.len() ==> cell_connected(d.spec_components()[first + c], #[trigger] imp.cells@[c], m)
}

/// Whether the import into `d` connects along some assignment of wires to buses (see
/// `module_connected`)
pub open spec fn connected_along_buses(imp: YosysModuleImporter, conn: ModuleConnections, d: SimulatorData, first: int) -> bool {
    exists|m: Map<Seq<Signal>, WireId>| module_connected(imp, conn.inputs@, conn.outputs@, d, first, m)
}

/// Whether every connection is a module port of direction `dir` on the wire of its bus
pub open spec fn ports_on_bus(
    ports: Seq<ModulePort>,
    list: Seq<(String, WireId)>,
    dir: PortDirection,
    m: Map<Seq<Signal>, WireId>,
) -> bool {
    forall|k: int| 0 <= k < list.len() ==> port_on_bus(ports, #[trigger] list[k], dir, m)
}

/// The connections stay on their buses when the map extends
proof fn lemma_ports_on_bus_kept(
    ports: Seq<ModulePort>,
    list: Seq<(String, WireId)>,
    dir: PortDirection,
    wm1: WireMap,
    wm0: WireMap,
)
    requires
        wm1.extends(&wm0),
        wm0.keys_unique(),
        wm1.keys_unique(),
        ports_on_bus(ports, list, dir, wm0.bus_map()),
    ensures
        ports_on_bus(ports, list, dir, wm1.bus_map()),
{
    assert forall|k: int| 0 <= k < list.len() implies port_on_bus(ports, #[trigger] list[k], dir, wm1.bus_map()) by {
        assert(port_on_bus(ports, list[k], dir, wm0.bus_map()));
        let j = choose|j: int|
            0 <= j < ports.len() && (#[trigger] ports[j]).direction == dir && ports[j].name == list[k].0 && on_bus(
                wm0.bus_map(),
                ports[j].bits@,
                list[k].1,
            );
        lemma_on_bus_kept(wm1, wm0, ports[j].bits@, list[k].1);
    }
}

/// Adding a connection on its bus, where it has the direction
proof fn lemma_ports_on_bus_push(
    ports: Seq<ModulePort>,
    list: Seq<(String, WireId)>,
    list2: Seq<(String, WireId)>,
    e: (String, WireId),
    dir: PortDirection,
    m: Map<Seq<Signal>, WireId>,
)
    requires
        ports_on_bus(ports, list, dir, m),
        list2 == list || (list2 == list.push(e) && port_on_bus(ports, e, dir, m)),
    ensures
        ports_on_bus(ports, list2, dir, m),
{
    assert forall|k: int| 0 <= k < list2.len() implies port_on_bus(ports, #[trigger] list2[k], dir, m) by {
        if k < list.len() {
            assert(list2[k] == list[k]);
        }
    }
}

/// Extending is transitive
proof fn lemma_extends_trans(wm2: WireMap, wm1: WireMap, wm0: WireMap)
    requires
        wm2.extends(&wm1),
        wm1.extends(&wm0),
    ensures
        wm2.extends(&wm0),
{
    assert forall|k: int| 0 <= k < wm0.buses@.len() implies #[trigger] wm2.buses@[k] == wm0.buses@[k] by {
        assert(wm1.buses@[k] == wm0.buses@[k]);
    }
}

/// Imports one cell: a wire for each of its ports, then its component, named after the cell
/// unless its name is hidden
fn import_cell(
    builder: &mut SimulatorBuilder,
    wire_map: &mut WireMap,
    cell: &Cell,
    Ghost(imp): Ghost<YosysModuleImporter>,
    Ghost(c): Ghost<int>,
) -> (r: Result<crate::id::ComponentId, YosysModuleImportError>)
    requires
        0 <= c < imp.cells@.len(),
        *cell == imp.cells@[c],
        imp.driven_bits_are_nets(),
        forall|j: int| 0 <= j < cell.ports@.len() ==> cell_port_problem(cell.name, #[trigger] cell.ports@[j]) is None,
        old(wire_map).fits(old(builder).spec_data()),
        old(wire_map).tracks(imp),
    ensures
        final(wire_map).fits(final(builder).spec_data()),
        final(wire_map).tracks(imp),
        final(builder).spec_data().keeps_wires(&old(builder).spec_data()),
        final(builder).spec_data().wire_count() <= old(builder).spec_data().wire_count() + cell.ports@.len(),
        old(wire_map).split@.len() <= final(wire_map).split@.len(),
        buses_consistent(imp) ==> final(wire_map).split@.len() == old(wire_map).split@.len(),
        r matches Err(e) ==> e == YosysModuleImportError::ResourceLimitReached || cell_error(*cell, e),
        buses_consistent(imp) && cell_fits(*cell) && old(builder).spec_data().wire_count() + cell.ports@.len()
            <= crate::state_alloc::MAX_STATE_COUNT && old(builder).spec_data().component_count()
            < crate::state_alloc::MAX_STATE_COUNT ==> r is Ok,
        r is Ok ==> final(builder).spec_data().component_count() == old(builder).spec_data().component_count() + 1
            && cell_built(final(builder).spec_data(), old(builder).spec_data().component_count() as int, *cell),
        final(wire_map).extends(&*old(wire_map)),
        r is Ok && final(wire_map).split@.len() == old(wire_map).split@.len() ==> cell_connected(
            final(builder).spec_data().spec_components()[old(builder).spec_data().component_count() as int],
            *cell,
            final(wire_map).bus_map(),
        ),
{
    let ghost dc = builder.spec_data();
    let ghost m0 = *wire_map;
    let mut cell_inputs: Vec<(String, WireId)> = Vec::new();
    let mut cell_outputs: Vec<(String, WireId)> = Vec::new();
    proof {
        lemma_listed_empty(cell.ports@, PortDirection::Input, dc);
        lemma_listed_empty(cell.ports@, PortDirection::Output, dc);
        assert(dc.keeps_wires(&dc));
    }
    let mut j: usize = 0;
    while j < cell.ports.len()
        invariant
            0 <= j <= cell.ports@.len(),
            0 <= c < imp.cells@.len(),
            *cell == imp.cells@[c],
            imp.driven_bits_are_nets(),
            forall|k: int| 0 <= k < cell.ports@.len() ==> cell_port_problem(cell.name, #[trigger] cell.ports@[k]) is None,
            wire_map.fits(builder.spec_data()),
            wire_map.tracks(imp),
            builder.spec_data().keeps_wires(&dc),
            dc == old(builder).spec_data(),
            m0 == *old(wire_map),
            builder.spec_data().wire_count() <= dc.wire_count() + j,
            builder.spec_data().component_count() == dc.component_count(),
            m0.split@.len() <= wire_map.split@.len(),
            buses_consistent(imp) ==> wire_map.split@.len() == m0.split@.len(),
            listed(cell.ports@, j as int, cell_inputs@, PortDirection::Input, builder.spec_data()),
            listed(cell.ports@, j as int, cell_outputs@, PortDirection::Output, builder.spec_data()),
            wire_map.extends(&m0),
            wire_map.split@.len() == m0.split@.len() ==> entries_on_bus(
                cell.ports@,
                cell_inputs@,
                PortDirection::Input,
                wire_map.bus_map(),
            ) && entries_on_bus(cell.ports@, cell_outputs@, PortDirection::Output, wire_map.bus_map()),
        decreases cell.ports@.len() - j,
    {
        let port = &cell.ports[j];
        let ghost d1 = builder.spec_data();
        let ghost m1 = *wire_map;
        proof {
            assert(cell_port_problem(cell.name, cell.ports@[j as int]) is None);
            assert(imp.cells@[c].ports@[j as int] == *port);
            assert(is_port_bits(imp, port.bits@));
        }
        let direction = match port.direction {
            Some(PortDirection::Output) => BusDirection::Write,
            _ => BusDirection::Read,
        };
        let wire = match wire_map.get_bus_wire(&port.bits, direction, builder) {
            Ok(w) => w,
            Err(e) => {
                proof {
                    builder.spec_data().lemma_keeps_wires_trans(&d1, &dc);
                    wire_map.lemma_grows_tracks(&m1, port.bits@, imp);
                }
                return Err(e);
            },
        };
        let ghost d2 = builder.spec_data();
        proof {
            d2.lemma_keeps_wires_trans(&d1, &dc);
            wire_map.lemma_grows_tracks(&m1, port.bits@, imp);
            lemma_listed_kept(cell.ports@, j as int, cell_inputs@, PortDirection::Input, d1, d2);
            lemma_listed_kept(cell.ports@, j as int, cell_outputs@, PortDirection::Output, d1, d2);
        }
        let ghost in1 = cell_inputs@;
        let ghost out1 = cell_outputs@;
        let entry = (port.name.clone(), wire);
        match port.direction {
            Some(PortDirection::Output) => cell_outputs.push(entry),
            _ => cell_inputs.push(entry),
        }
        proof {
            lemma_listed_step(cell.ports@, j as int, in1, cell_inputs@, PortDirection::Input, d2, wire);
            lemma_listed_step(cell.ports@, j as int, out1, cell_outputs@, PortDirection::Output, d2, wire);
            lemma_extends_trans(*wire_map, m1, m0);
            if wire_map.split@.len() == m0.split@.len() {
                let m = wire_map.bus_map();
                lemma_entries_kept(cell.ports@, in1, PortDirection::Input, *wire_map, m1);
                lemma_entries_kept(cell.ports@, out1, PortDirection::Output, *wire_map, m1);
                if has_net(port.bits@) {
                    wire_map.lemma_bus_map(port.bits@, wire);
                }
                assert(entry_on_bus(cell.ports@, entry, port.direction->0, m)) by {
                    assert(cell.ports@[j as int] == *port);
                }
                lemma_entries_push(cell.ports@, in1, cell_inputs@, entry, PortDirection::Input, m);
                lemma_entries_push(cell.ports@, out1, cell_outputs@, entry, PortDirection::Output, m);
            }
        }
        j = j + 1;
    }
    let ghost d1 = builder.spec_data();
    let added = add_cell(builder, cell, &cell_inputs, &cell_outputs);
    let ghost d2 = builder.spec_data();
    proof {
        d2.lemma_keeps_wires_trans(&d1, &dc);
        wire_map.lemma_fits_kept(d1, d2);
    }
    let id = match added {
        Ok(id) => id,
        Err(e) => {
            return Err(e);
        },
    };
    if !cell.hide_name {
        let _ = builder.set_component_name(id, cell.name.as_str());
    }
    let _ = builder.well_formed();
    proof {
        let d3 = builder.spec_data();
        assert forall|k: u32| k < d1.component_count() && d1.spec_component_names().contains_key(k) implies #[trigger] d3.spec_component_names().contains_key(k)
            && d3.spec_component_names()[k] == d1.spec_component_names()[k] by {
            assert(k != id.spec_index());
        }
        assert(d3.spec_wires() == d2.spec_wires());
        assert(d3.spec_components() == d2.spec_components());
        if wire_map.split@.len() == m0.split@.len() {
            lemma_cell_connected_from(d2.spec_components().last(), *cell, cell_inputs@, cell_outputs@, wire_map.bus_map());
        }
        assert(d2.spec_component_names() == d1.spec_component_names());
        assert(d3.wire_count() == d1.wire_count());
        assert forall|w: WireId| d1.has_wire(w) implies #[trigger] d3.wire_width(w) == d1.wire_width(w) by {
            assert(d2.wire_width(w) == d1.wire_width(w));
        }
        assert forall|k: int| 0 <= k < d1.component_count() implies #[trigger] d3.spec_components()[k]
            == d1.spec_components()[k] by {
            assert(d2.spec_components()[k] == d1.spec_components()[k]);
        }
        assert(d3.keeps_wires(&d1));
        d3.lemma_keeps_wires_trans(&d1, &dc);
        wire_map.lemma_fits_kept(d1, d3);
        assert(d3.spec_components()[d1.component_count() as int] == d2.spec_components().last());
    }
    Ok(id)
}

/// Imports the cells in order, each after the one before
fn import_cells(builder: &mut SimulatorBuilder, wire_map: &mut WireMap, importer: &YosysModuleImporter) -> (r: Result<
    (),
    YosysModuleImportError,
>)
    requires
        importer.driven_bits_are_nets(),
        module_problem(*importer) is None,
        old(wire_map).fits(old(builder).spec_data()),
        old(wire_map).tracks(*importer),
        buses_consistent(*importer) ==> old(wire_map).split@.len() == 0,
    ensures
        final(wire_map).fits(final(builder).spec_data()),
        final(builder).spec_data().keeps_wires(&old(builder).spec_data()),
        buses_consistent(*importer) ==> final(wire_map).split@.len() == 0,
        r matches Err(e) ==> e == YosysModuleImportError::ResourceLimitReached || exists|c: int|
            0 <= c < importer.cells@.len() && cell_error(#[trigger] importer.cells@[c], e),
        buses_consistent(*importer) && (forall|c: int|
            0 <= c < importer.cells@.len() ==> cell_fits(#[trigger] importer.cells@[c]))
            && old(builder).spec_data().wire_count() + cell_ports_total(importer.cells@, importer.cells@.len() as int)
            <= crate::state_alloc::MAX_STATE_COUNT && old(builder).spec_data().component_count()
            + importer.cells@.len() <= crate::state_alloc::MAX_STATE_COUNT ==> r is Ok,
        r is Ok ==> final(builder).spec_data().component_count() == old(builder).spec_data().component_count()
            + importer.cells@.len() && forall|c: int|
            0 <= c < importer.cells@.len() ==> cell_built(
                final(builder).spec_data(),
                old(builder).spec_data().component_count() + c,
                #[trigger] importer.cells@[c],
            ),
        final(wire_map).tracks(*importer),
        final(wire_map).extends(&*old(wire_map)),
        old(wire_map).split@.len() <= final(wire_map).split@.len(),
        r is Ok && final(wire_map).split@.len() == 0 ==> forall|c: int|
            0 <= c < importer.cells@.len() ==> cell_connected(
                final(builder).spec_data().spec_components()[old(builder).spec_data().component_count() + c],
                #[trigger] importer.cells@[c],
                final(wire_map).bus_map(),
            ),
{
    proof {
        lemma_no_cell_problem(importer.cells@, 0);
    }
    let ghost d0 = builder.spec_data();
    let ghost m0 = *wire_map;
    let ghost imp = *importer;
    proof {
        assert(d0.keeps_wires(&d0));
    }
    let mut c: usize = 0;
    while c < importer.cells.len()
        invariant
            0 <= c <= importer.cells@.len(),
            imp == *importer,
            importer.driven_bits_are_nets(),
            forall|k: int, j: int|
                0 <= k < importer.cells@.len() && 0 <= j < importer.cells@[k].ports@.len() ==> cell_port_problem(
                    importer.cells@[k].name,
                    #[trigger] importer.cells@[k].ports@[j],
                ) is None,
            wire_map.fits(builder.spec_data()),
            wire_map.tracks(imp),
            builder.spec_data().keeps_wires(&d0),
            d0 == old(builder).spec_data(),
            builder.spec_data().wire_count() <= d0.wire_count() + cell_ports_total(importer.cells@, c as int),
            builder.spec_data().component_count() == d0.component_count() + c,
            forall|k: int|
                0 <= k < c ==> cell_built(builder.spec_data(), d0.component_count() + k, #[trigger] importer.cells@[k]),
            buses_consistent(imp) ==> wire_map.split@.len() == 0,
            wire_map.extends(&m0),
            m0 == *old(wire_map),
            m0.split@.len() <= wire_map.split@.len(),
            wire_map.split@.len() == 0 ==> forall|k: int|
                0 <= k < c ==> cell_connected(
                    builder.spec_data().spec_components()[d0.component_count() + k],
                    #[trigger] importer.cells@[k],
                    wire_map.bus_map(),
                ),
        decreases importer.cells@.len() - c,
    {
        let cell = &importer.cells[c];
        let ghost d1 = builder.spec_data();
        let ghost m1 = *wire_map;
        proof {
            assert forall|j: int| 0 <= j < cell.ports@.len() implies cell_port_problem(
                cell.name,
                #[trigger] cell.ports@[j],
            ) is None by {
                assert(cell.ports@[j] == importer.cells@[c as int].ports@[j]);
            }
            lemma_cell_ports_total_grows(importer.cells@, c as int + 1, importer.cells@.len() as int);
        }
        let added = import_cell(builder, wire_map, cell, Ghost(imp), Ghost(c as int));
        let ghost d2 = builder.spec_data();
        proof {
            d2.lemma_keeps_wires_trans(&d1, &d0);
        }
        match added {
            Ok(_) => {},
            Err(e) => {
                return Err(e);
            },
        }
        proof {
            assert forall|k: int| 0 <= k < c + 1 implies cell_built(
                d2,
                d0.component_count() + k,
                #[trigger] importer.cells@[k],
            ) by {
                if k < c {
                    lemma_cell_built_kept(d1, d2, d0.component_count() + k, importer.cells@[k]);
                }
            }
            lemma_extends_trans(*wire_map, m1, m0);
            if wire_map.split@.len() == 0 {
                assert forall|k: int| 0 <= k < c + 1 implies cell_connected(
                    d2.spec_components()[d0.component_count() + k],
                    #[trigger] importer.cells@[k],
                    wire_map.bus_map(),
                ) by {
                    if k < c {
                        assert(d2.spec_components()[d0.component_count() + k] == d1.spec_components()[d0.component_count() + k]);
                        lemma_cell_connected_kept(
                            d1.spec_components()[d0.component_count() + k],
                            importer.cells@[k],
                            *wire_map,
                            m1,
                        );
                    }
                }
            }
        }
        c = c + 1;
    }
    Ok(())
}

impl SimulatorBuilder {
    /// Imports a module of a Yosys netlist into the simulation
    ///
    /// Every input and output port of the module becomes a wire as wide as its bits, named after
    /// the port; ports and cell ports with the same bits share one wire. Every cell becomes a
    /// component between the wires of its ports, named after the cell unless its name is
    /// hidden, in the order of the cells.
    ///
    /// The ports of the module, then those of its cells, are checked first, in order: the first
    /// `inout` port, cell port without a direction, `inout` cell port, or port with a width no
    /// wire can have, is returned as the error with nothing added. Later errors are the
    /// simulation's resource limits, a cell the importer cannot translate (see `cell_error`;
    /// this covers `$add` and `$sub` cells whose operands differ in width, since the builder
    /// has no extension components), and `SplitBus` where a port connects to part of a bus.
    pub fn import_module(&mut self, importer: &YosysModuleImporter) -> (r: Result<
        ModuleConnections,
        YosysModuleImportError,
    >)
        requires
            importer.driven_bits_are_nets(),
        ensures
            final(self).spec_data().keeps_wires(&old(self).spec_data()),
            module_problem(*importer) matches Some(e) ==> r == Err::<ModuleConnections, YosysModuleImportError>(e)
                && final(self).spec_data() == old(self).spec_data(),
            r matches Ok(c) ==> module_problem(*importer) is None && ports_connected(
                importer.ports@,
                importer.ports@.len() as int,
                c.inputs@,
                c.outputs@,
                final(self).spec_data(),
            ) && connections_named(importer.ports@, c.inputs@, c.outputs@),
            r matches Ok(c) ==> connected_along_buses(
                *importer,
                c,
                final(self).spec_data(),
                old(self).spec_data().component_count() as int,
            ),
            r is Ok ==> final(self).spec_data().component_count() == old(self).spec_data().component_count()
                + importer.cells@.len() && forall|c: int|
                0 <= c < importer.cells@.len() ==> cell_built(
                    final(self).spec_data(),
                    old(self).spec_data().component_count() + c,
                    #[trigger] importer.cells@[c],
                ),
            module_problem(*importer) is None && buses_consistent(*importer) && (forall|c: int|
                0 <= c < importer.cells@.len() ==> cell_fits(#[trigger] importer.cells@[c]))
                && old(self).spec_data().wire_count() + total_ports(*importer) <= crate::state_alloc::MAX_STATE_COUNT
                && old(self).spec_data().component_count() + importer.cells@.len()
                <= crate::state_alloc::MAX_STATE_COUNT ==> r is Ok,
            module_problem(*importer) is None ==> (r matches Err(e) ==> e == YosysModuleImportError::ResourceLimitReached
                || e == YosysModuleImportError::SplitBus || exists|c: int|
                0 <= c < importer.cells@.len() && cell_error(#[trigger] importer.cells@[c], e)),
    {
        if let Some(e) = check_module(importer) {
            return Err(e);
        }
        proof {
            lemma_no_port_problem(importer.ports@, 0);
            lemma_no_cell_problem(importer.cells@, 0);
        }
        let ghost d0 = self.spec_data();
        let ghost ports = importer.ports@;
        let ghost imp = *importer;
        let mut wire_map = WireMap::new();
        let mut inputs: Vec<(String, WireId)> = Vec::new();
        let mut outputs: Vec<(String, WireId)> = Vec::new();
        let mut i: usize = 0;
        while i < importer.ports.len()
            invariant
                0 <= i <= ports.len(),
                ports == importer.ports@,
                imp == *importer,
                importer.driven_bits_are_nets(),
                module_problem(*importer) is None,
                forall|j: int| 0 <= j < ports.len() ==> port_problem(#[trigger] ports[j]) is None,
                wire_map.fits(self.spec_data()),
                wire_map.tracks(imp),
                self.spec_data().keeps_wires(&d0),
                d0 == old(self).spec_data(),
                ports_connected(ports, i as int, inputs@, outputs@, self.spec_data()),
                connections_named(ports, inputs@, outputs@),
                self.spec_data().wire_count() <= d0.wire_count() + i,
                self.spec_data().component_count() == d0.component_count(),
                buses_consistent(imp) ==> wire_map.split@.len() == 0,
                wire_map.split@.len() == 0 ==> ports_on_bus(ports, inputs@, PortDirection::Input, wire_map.bus_map())
                    && ports_on_bus(ports, outputs@, PortDirection::Output, wire_map.bus_map()),
            decreases ports.len() - i,
        {
            let port = &importer.ports[i];
            let ghost d1 = self.spec_data();
            let ghost in1 = inputs@;
            let ghost out1 = outputs@;
            let ghost m1 = wire_map;
            proof {
                assert(ports[i as int] == *port);
                assert(is_port_bits(imp, port.bits@));
            }
            let direction = match port.direction {
                PortDirection::Input => BusDirection::Write,
                _ => BusDirection::Read,
            };
            let wire = match wire_map.get_bus_wire(&port.bits, direction, self) {
                Ok(w) => w,
                Err(e) => {
                    proof {
                        self.spec_data().lemma_keeps_wires_trans(&d1, &d0);
                    }
                    return Err(e);
                },
            };
            let ghost d2 = self.spec_data();
            let _ = self.set_wire_name(wire, port.name.as_str());
            let ghost d3 = self.spec_data();
            proof {
                assert(d3.keeps_wires(&d2));
                d3.lemma_keeps_wires_trans(&d2, &d1);
                d3.lemma_keeps_wires_trans(&d1, &d0);
                wire_map.lemma_fits_kept(d2, d3);
                wire_map.lemma_grows_tracks(&m1, port.bits@, imp);
                lemma_ports_connected_kept(ports, i as int, in1, out1, d1, d3);
            }
            let entry = (port.name.clone(), wire);
            match port.direction {
                PortDirection::Input => inputs.push(entry),
                _ => outputs.push(entry),
            }
            proof {
                assert forall|j: int| 0 <= j < i + 1 implies port_connected(
                    #[trigger] ports[j],
                    inputs@,
                    outputs@,
                    d3,
                ) by {
                    if j < i {
                        if ports[j].direction == PortDirection::Input {
                            lemma_connects_push(in1, entry, ports[j], d3);
                            assert(inputs@ == in1 || inputs@ == in1.push(entry));
                        }
                        if ports[j].direction == PortDirection::Output {
                            lemma_connects_push(out1, entry, ports[j], d3);
                            assert(outputs@ == out1 || outputs@ == out1.push(entry));
                        }
                    } else {
                        if ports[j].direction == PortDirection::Input {
                            assert(inputs@[in1.len() as int] == entry);
                        } else {
                            assert(outputs@[out1.len() as int] == entry);
                        }
                    }
                }
                assert forall|k: int| 0 <= k < inputs@.len() implies names_port(
                    ports,
                    #[trigger] inputs@[k],
                    PortDirection::Input,
                ) by {
                    if k < in1.len() {
                        assert(inputs@[k] == in1[k]);
                    } else {
                        assert(ports[i as int].direction == PortDirection::Input);
                    }
                }
                assert forall|k: int| 0 <= k < outputs@.len() implies names_port(
                    ports,
                    #[trigger] outputs@[k],
                    PortDirection::Output,
                ) by {
                    if k < out1.len() {
                        assert(outputs@[k] == out1[k]);
                    } else {
                        assert(ports[i as int].direction == PortDirection::Output);
                    }
                }
                if wire_map.split@.len() == 0 {
                    let m = wire_map.bus_map();
                    lemma_ports_on_bus_kept(ports, in1, PortDirection::Input, wire_map, m1);
                    lemma_ports_on_bus_kept(ports, out1, PortDirection::Output, wire_map, m1);
                    if has_net(port.bits@) {
                        wire_map.lemma_bus_map(port.bits@, wire);
                    }
                    assert(port_on_bus(ports, entry, port.direction, m)) by {
                        assert(ports[i as int] == *port);
                    }
                    lemma_ports_on_bus_push(ports, in1, inputs@, entry, PortDirection::Input, m);
                    lemma_ports_on_bus_push(ports, out1, outputs@, entry, PortDirection::Output, m);
                }
            }
            i = i + 1;
        }
        let ghost d_ports = self.spec_data();
        let ghost m_ports = wire_map;
        proof {
            lemma_cell_ports_total_grows(importer.cells@, 0, importer.cells@.len() as int);
        }
        let cells_result = import_cells(self, &mut wire_map, importer);
        proof {
            self.spec_data().lemma_keeps_wires_trans(&d_ports, &d0);
            lemma_ports_connected_kept(ports, ports.len() as int, inputs@, outputs@, d_ports, self.spec_data());
        }
        match cells_result {
            Ok(_) => {},
            Err(e) => {
                return Err(e);
            },
        }
        proof {
            if wire_map.split@.len() == 0 {
                lemma_ports_on_bus_kept(ports, inputs@, PortDirection::Input, wire_map, m_ports);
                lemma_ports_on_bus_kept(ports, outputs@, PortDirection::Output, wire_map, m_ports);
                assert(module_connected(
                    *importer,
                    inputs@,
                    outputs@,
                    self.spec_data(),
                    d0.component_count() as int,
                    wire_map.bus_map(),
                ));
            }
        }
        if wire_map.split.len() > 0 {
            return Err(YosysModuleImportError::SplitBus);
        }
        let conn = ModuleConnections { inputs, outputs };
        proof {
            assert(module_connected(
                *importer,
                conn.inputs@,
                conn.outputs@,
                self.spec_data(),
                d0.component_count() as int,
                wire_map.bus_map(),
            ));
            assert(connected_along_buses(
                *importer,
                conn,
                self.spec_data(),
                old(self).spec_data().component_count() as int,
            ));
        }
        Ok(conn)
    }
}

} // verus!
