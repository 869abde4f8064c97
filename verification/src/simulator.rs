//! The simulation graph, its builder, and the simulation algorithm.
//!
//! The circuit graph is divided into two distinct subsets: wires and components. Wires are
//! only connected to components and components are only connected to wires. The simulation
//! alternates between updating the wires in the wire queue and the components in the
//! component queue; each phase fills the queue of the other one with the nodes whose inputs
//! changed. The simulation has settled when a queue comes out empty.
use vstd::prelude::*;
use rayon::slice::ParallelSliceMut;
use ahash::AHashMap;
use crate::{
    SimulationErrors, SimulationRunResult, AddWireError, AddComponentError, SetWireDriveError,
    InvalidWireIdError, InvalidComponentIdError,
};
use crate::bit_width::BitWidth;
use crate::logic_state::{CopyFromResult, LogicStateRef, IntoLogicStateRef};
use crate::id::{Id, WireId, ComponentId, WireStateId, OutputStateId};
use crate::logic_state::LogicState;
use crate::state_alloc::{WireStateAllocator, OutputStateAllocator, MAX_STATE_COUNT};
use crate::wire::{Wire, WireUpdateResult, resolve, resolve_conflicts, output_views};
use crate::component::{
    Component, ComponentKind, ComponentOp, GateKind, ShiftKind, wire_state, id_list, id_list_slice, id_list_new, id_list_push,
};
use crate::bit_width::clog2_nat;

verus! {

broadcast use {WireStateAllocator::lemma_lens, OutputStateAllocator::lemma_widths};

/// The hash map of names of wires or components, by index
#[verifier::external_type_specification]
#[verifier::external_body]
#[verifier::reject_recursive_types(K)]
#[verifier::reject_recursive_types(V)]
#[verifier::reject_recursive_types(H)]
pub struct ExAHashMap<K, V, H>(ahash::AHashMap<K, V, H>);

/// The hasher of `AHashMap`
#[verifier::external_type_specification]
#[verifier::external_body]
pub struct ExRandomState(ahash::RandomState);

/// The names a name map holds, by key
pub uninterp spec fn name_map(m: AHashMap<u32, String>) -> Map<u32, Seq<char>>;

/// An empty name map (`AHashMap::new`); the contract claims it holds no names
#[verifier::external_body]
fn names_new() -> (r: AHashMap<u32, String>)
    ensures
        name_map(r).dom() == Set::<u32>::empty(),
{
    AHashMap::new()
}

/// Stores a name (`AHashMap::insert`); the contract claims the key then maps to the new name
/// and every other key keeps its name
#[verifier::external_body]
fn names_insert(m: &mut AHashMap<u32, String>, key: u32, name: String)
    ensures
        name_map(*final(m)) == name_map(*old(m)).insert(key, name@),
{
    m.insert(key, name);
}

/// Looks a name up (`AHashMap::get`); the contract claims the name stored under the key is
/// returned, and `None` exactly when there is none
#[verifier::external_body]
fn names_get(m: &AHashMap<u32, String>, key: u32) -> (r: Option<&String>)
    ensures
        r is Some <==> name_map(*m).contains_key(key),
        r matches Some(s) ==> s@ == name_map(*m)[key],
{
    m.get(&key)
}

/// Sorts IDs in ascending order (rayon's `par_sort_unstable`); the contract claims the result
/// is sorted and holds the same IDs as the input, each as often
#[verifier::external_body]
fn par_sort_ids(ids: &mut Vec<u32>)
    ensures
        final(ids)@.to_multiset() == old(ids)@.to_multiset(),
        forall|i: int, j: int| 0 <= i < j < final(ids)@.len() ==> final(ids)@[i] <= final(ids)@[j],
{
    ids.par_sort_unstable();
}

/// Whether the IDs are in strictly ascending order
pub open spec fn strictly_ascending(ids: Seq<u32>) -> bool {
    forall|i: int, j: int| 0 <= i < j < ids.len() ==> ids[i] < ids[j]
}

/// Sorts a queue of IDs and removes the duplicates
fn sort_dedup(queue: &mut Vec<u32>)
    ensures
        final(queue)@.to_set() == old(queue)@.to_set(),
        strictly_ascending(final(queue)@),
{
    broadcast use vstd::seq_lib::group_to_multiset_ensures;
    let ghost unsorted_ids = queue@;
    par_sort_ids(queue);
    assert forall|x: u32| queue@.contains(x) <==> unsorted_ids.contains(x) by {
        assert(queue@.to_multiset().count(x) == unsorted_ids.to_multiset().count(x));
    }
    let mut deduped: Vec<u32> = Vec::new();
    let mut i: usize = 0;
    while i < queue.len()
        invariant
            i <= queue@.len(),
            forall|a: int, b: int| 0 <= a < b < queue@.len() ==> queue@[a] <= queue@[b],
            strictly_ascending(deduped@),
            deduped@.len() > 0 ==> i > 0 && deduped@.last() == queue@[i - 1],
            i > 0 ==> deduped@.len() > 0,
            forall|x: u32| deduped@.contains(x) <==> exists|a: int| 0 <= a < i && queue@[a] == x,
        decreases queue@.len() - i,
    {
        let x = queue[i];
        let n = deduped.len();
        let ghost prev = deduped@;
        if n == 0 || deduped[n - 1] != x {
            deduped.push(x);
        }
        proof {
            assert forall|y: u32| deduped@.contains(y) <==> exists|a: int|
                0 <= a < i + 1 && queue@[a] == y by {
                if deduped@.contains(y) {
                    let k = choose|k: int| 0 <= k < deduped@.len() && deduped@[k] == y;
                    if k < prev.len() {
                        assert(prev[k] == y);
                        assert(prev.contains(y));
                    } else {
                        assert(queue@[i as int] == y);
                    }
                }
                if exists|a: int| 0 <= a < i + 1 && queue@[a] == y {
                    let a = choose|a: int| 0 <= a < i + 1 && queue@[a] == y;
                    if a < i {
                        assert(prev.contains(y));
                        let k = choose|k: int| 0 <= k < prev.len() && prev[k] == y;
                        assert(deduped@[k] == y);
                    } else {
                        assert(deduped@[deduped@.len() - 1] == y);
                    }
                }
            }
        }
        i = i + 1;
    }
    proof {
        assert forall|x: u32| deduped@.contains(x) <==> unsorted_ids.contains(x) by {
            if unsorted_ids.contains(x) {
                assert(queue@.contains(x));
            }
        }
        assert(deduped@.to_set() =~= unsorted_ids.to_set());
    }
    *queue = deduped;
}

/// The result of a single simulation step
pub enum SimulationStepResult {
    /// The simulation did not change during this update
    Unchanged,
    /// The simulation changed during this update
    Changed,
    /// The update caused an error in the simulation
    Error(SimulationErrors),
}

/// The graph and the state of a simulation
pub struct SimulatorData {
    wires: Vec<Wire>,
    wire_states: WireStateAllocator,
    components: Vec<Component>,
    output_states: OutputStateAllocator,
    wire_update_queue: Vec<u32>,
    component_update_queue: Vec<u32>,
    wire_names: AHashMap<u32, String>,
    component_names: AHashMap<u32, String>,
}

impl SimulatorData {
    pub closed spec fn spec_wires(&self) -> Seq<Wire> {
        self.wires@
    }

    pub closed spec fn spec_components(&self) -> Seq<Component> {
        self.components@
    }

    pub closed spec fn spec_wire_states(&self) -> WireStateAllocator {
        self.wire_states
    }

    pub closed spec fn spec_output_states(&self) -> OutputStateAllocator {
        self.output_states
    }

    /// The wires waiting for an update, by index
    pub closed spec fn spec_wire_queue(&self) -> Seq<u32> {
        self.wire_update_queue@
    }

    /// The components waiting for an update, by index
    pub closed spec fn spec_component_queue(&self) -> Seq<u32> {
        self.component_update_queue@
    }

    /// The names given to wires, by index
    pub closed spec fn spec_wire_names(&self) -> Map<u32, Seq<char>> {
        name_map(self.wire_names)
    }

    /// The names given to components, by index
    pub closed spec fn spec_component_names(&self) -> Map<u32, Seq<char>> {
        name_map(self.component_names)
    }

    /// The number of wires
    pub open spec fn wire_count(&self) -> nat {
        self.spec_wires().len()
    }

    /// The number of components
    pub open spec fn component_count(&self) -> nat {
        self.spec_components().len()
    }

    /// The current state of wire `w`
    pub open spec fn state_of(&self, w: int) -> LogicState {
        self.spec_wire_states().spec_state(w)
    }

    /// The drive of wire `w`
    pub open spec fn drive_of(&self, w: int) -> LogicState {
        self.spec_wire_states().spec_drive(w)
    }

    /// The output state of component `c`
    pub open spec fn output_of(&self, c: int) -> LogicState {
        self.spec_output_states().spec_states()[c]
    }

    /// The state wire `w` takes from its drive and the outputs driving it
    pub open spec fn resolved(&self, w: int) -> Seq<crate::logic_bit::LogicBitState> {
        resolve(
            self.drive_of(w)@,
            output_views(self.spec_wires()[w].spec_drivers(), &self.spec_output_states()),
        )
    }

    /// Whether two sources drive the same bit of wire `w`
    pub open spec fn conflicted(&self, w: int) -> bool {
        resolve_conflicts(
            self.drive_of(w)@,
            output_views(self.spec_wires()[w].spec_drivers(), &self.spec_output_states()),
        )
    }

    /// Whether wire `w` holds the state its drive and drivers give it, without a conflict
    pub open spec fn wire_settled(&self, w: int) -> bool {
        self.state_of(w)@ == self.resolved(w) && !self.conflicted(w)
    }

    /// What component `c` computes from the current wire states
    pub open spec fn computed(&self, c: int) -> Seq<crate::logic_bit::LogicBitState> {
        self.spec_components()[c].spec_kind().eval(
            self.spec_wire_states().spec_states(),
            self.output_of(c).bit_width(),
        )
    }

    /// Whether component `c` outputs what it computes from the current wire states
    pub open spec fn component_settled(&self, c: int) -> bool {
        self.output_of(c)@ == self.computed(c)
    }

    /// Whether every wire and every component has settled
    pub open spec fn settled(&self) -> bool {
        &&& forall|w: int| 0 <= w < self.wire_count() ==> #[trigger] self.wire_settled(w)
        &&& forall|c: int| 0 <= c < self.component_count() ==> #[trigger] self.component_settled(c)
    }

    /// The well-formedness of wire `w`
    pub open spec fn wire_wf(&self, w: int) -> bool {
        let wire = self.spec_wires()[w];
        &&& wire.spec_state_id().spec_index() == w
        &&& self.state_of(w).bit_width() == wire.spec_bit_width()
        &&& self.drive_of(w).bit_width() == wire.spec_bit_width()
        &&& forall|n: int|
            0 <= n < wire.spec_drivers().len() ==> {
                let d = (#[trigger] wire.spec_drivers()[n]).spec_index() as int;
                &&& d < self.component_count()
                &&& self.spec_components()[d].spec_output_wire().spec_index() == w
            }
        &&& forall|n: int|
            0 <= n < wire.spec_driving().len() ==> (#[trigger] wire.spec_driving()[n]).spec_index()
                < self.component_count()
    }

    /// The well-formedness of component `c`
    pub open spec fn component_wf(&self, c: int) -> bool {
        let comp = self.spec_components()[c];
        let out = comp.spec_output_wire().spec_index() as int;
        &&& comp.spec_output_state().spec_index() == c
        &&& 0 <= out < self.wire_count()
        &&& self.output_of(c).bit_width() == self.spec_wires()[out].spec_bit_width()
        &&& comp.spec_kind().fits(self.spec_wire_states().spec_states(), self.output_of(c).bit_width())
        &&& forall|n: int|
            0 <= n < comp.spec_kind().inputs().len() ==> self.spec_wires()[(#[trigger] comp.spec_kind().inputs()[n]).spec_index() as int].spec_driving().contains(ComponentId::spec_new(c as u32))
    }

    /// The invariant of the simulation graph
    pub open spec fn wf(&self) -> bool {
        &&& self.spec_wire_states().spec_len() == self.wire_count()
        &&& self.spec_output_states().spec_states().len() == self.component_count()
        &&& self.wire_count() <= MAX_STATE_COUNT
        &&& self.component_count() <= MAX_STATE_COUNT
        &&& forall|w: int| 0 <= w < self.wire_count() ==> #[trigger] self.wire_wf(w)
        &&& forall|c: int| 0 <= c < self.component_count() ==> #[trigger] self.component_wf(c)
        &&& forall|n: int|
            0 <= n < self.spec_wire_queue().len() ==> #[trigger] self.spec_wire_queue()[n]
                < self.wire_count()
        &&& forall|n: int|
            0 <= n < self.spec_component_queue().len() ==> #[trigger] self.spec_component_queue()[n]
                < self.component_count()
    }

    /// Whether component `c` reads a wire whose state differs between `old` and `self`
    pub open spec fn reads_changed(&self, old: &SimulatorData, c: u32) -> bool {
        exists|w: int, n: int|
            0 <= w < old.wire_count() && self.state_of(w) != old.state_of(w) && 0 <= n
                < old.spec_wires()[w].spec_driving().len() && (#[trigger] old.spec_wires()[w].spec_driving()[n]).spec_index() == c
    }

    /// Whether wire `w` is driven by a component in the queue of components
    pub open spec fn driven_by_queued(&self, w: u32) -> bool {
        exists|c: int|
            0 <= c < self.component_count() && self.spec_component_queue().contains(c as u32) && (
            #[trigger] self.spec_components()[c]).spec_output_wire().spec_index() == w
    }

    /// Whether wire `w` is driven by a component that reads a wire in the queue of wires
    pub open spec fn fed_by_queue(&self, w: u32) -> bool {
        exists|c: int, v: int, n: int|
            0 <= c < self.component_count() && 0 <= v < self.wire_count() && self.spec_wire_queue().contains(
                v as u32,
            ) && 0 <= n < self.spec_wires()[v].spec_driving().len() && (
            #[trigger] self.spec_wires()[v].spec_driving()[n]).spec_index() == c
                && (#[trigger] self.spec_components()[c]).spec_output_wire().spec_index() == w
    }

    /// Whether wire `w` is driven by some component
    pub open spec fn is_output_wire(&self, w: u32) -> bool {
        exists|c: int|
            0 <= c < self.component_count() && (#[trigger] self.spec_components()[c]).spec_output_wire().spec_index() == w
    }

    /// Whether `self` and `other` are the same graph with the same outputs, drives, queue of
    /// wires and names, and wire states of the same widths
    pub open spec fn same_but_wire_states(&self, other: &SimulatorData) -> bool {
        &&& self.spec_wires() == other.spec_wires()
        &&& self.spec_components() == other.spec_components()
        &&& self.spec_output_states() == other.spec_output_states()
        &&& self.spec_wire_queue() == other.spec_wire_queue()
        &&& self.spec_wire_names() == other.spec_wire_names()
        &&& self.spec_component_names() == other.spec_component_names()
        &&& self.spec_wire_states().spec_drives() == other.spec_wire_states().spec_drives()
        &&& self.spec_wire_states().spec_widths() == other.spec_wire_states().spec_widths()
    }

    /// Whether `self` and `other` are the same graph with the same wire states, drives, queue of
    /// components and names, and output states of the same widths
    pub open spec fn same_but_output_states(&self, other: &SimulatorData) -> bool {
        &&& self.spec_wires() == other.spec_wires()
        &&& self.spec_components() == other.spec_components()
        &&& self.spec_wire_states() == other.spec_wire_states()
        &&& self.spec_component_queue() == other.spec_component_queue()
        &&& self.spec_wire_names() == other.spec_wire_names()
        &&& self.spec_component_names() == other.spec_component_names()
        &&& self.spec_output_states().spec_widths() == other.spec_output_states().spec_widths()
    }

    /// The graph stays well-formed when only the values of wire states change
    proof fn lemma_wf_wire_states(&self, other: &SimulatorData)
        requires
            other.wf(),
            self.same_but_wire_states(other),
            forall|n: int|
                0 <= n < self.spec_component_queue().len() ==> #[trigger] self.spec_component_queue()[n]
                    < self.component_count(),
        ensures
            self.wf(),
    {
        let s1 = other.spec_wire_states().spec_states();
        let s2 = self.spec_wire_states().spec_states();
        assert forall|i: int| 0 <= i < s1.len() implies s1[i].bit_width() == s2[i].bit_width() by {
            assert(self.spec_wire_states().spec_widths()[i] == other.spec_wire_states().spec_widths()[i]);
        }
        assert forall|c: int| 0 <= c < self.component_count() implies #[trigger] self.component_wf(c) by {
            assert(other.component_wf(c));
            let kind = self.spec_components()[c].spec_kind();
            kind.lemma_fits_frame(s1, s2, self.output_of(c).bit_width());
        }
        assert forall|w: int| 0 <= w < self.wire_count() implies #[trigger] self.wire_wf(w) by {
            assert(other.wire_wf(w));
            assert(self.spec_wire_states().spec_drives()[w] == other.spec_wire_states().spec_drives()[w]);
            assert(self.spec_wire_states().spec_widths()[w] == other.spec_wire_states().spec_widths()[w]);
        }
    }

    /// The graph stays well-formed when only the values of output states change
    proof fn lemma_wf_output_states(&self, other: &SimulatorData)
        requires
            other.wf(),
            self.same_but_output_states(other),
            forall|n: int|
                0 <= n < self.spec_wire_queue().len() ==> #[trigger] self.spec_wire_queue()[n]
                    < self.wire_count(),
        ensures
            self.wf(),
    {
        assert forall|c: int| 0 <= c < self.component_count() implies #[trigger] self.component_wf(c) by {
            assert(other.component_wf(c));
            assert(self.spec_output_states().spec_widths()[c] == other.spec_output_states().spec_widths()[c]);
        }
        assert forall|w: int| 0 <= w < self.wire_count() implies #[trigger] self.wire_wf(w) by {
            assert(other.wire_wf(w));
        }
    }

    /// The graph stays well-formed when only the queues change, to IDs in range
    proof fn lemma_wf_queues(&self, other: &SimulatorData)
        requires
            other.wf(),
            self.spec_wires() == other.spec_wires(),
            self.spec_components() == other.spec_components(),
            self.spec_wire_states() == other.spec_wire_states(),
            self.spec_output_states() == other.spec_output_states(),
            forall|n: int|
                0 <= n < self.spec_wire_queue().len() ==> #[trigger] self.spec_wire_queue()[n]
                    < self.wire_count(),
            forall|n: int|
                0 <= n < self.spec_component_queue().len() ==> #[trigger] self.spec_component_queue()[n]
                    < self.component_count(),
        ensures
            self.wf(),
    {
        assert forall|c: int| 0 <= c < self.component_count() implies #[trigger] self.component_wf(c) by {
            assert(other.component_wf(c));
        }
        assert forall|w: int| 0 <= w < self.wire_count() implies #[trigger] self.wire_wf(w) by {
            assert(other.wire_wf(w));
        }
    }

    /// Updates the wires in the wire queue and fills the component queue with the components
    /// reading a wire whose state changed
    #[verifier::rlimit(80)]
    fn update_wires(&mut self) -> (r: SimulationStepResult)
        requires
            old(self).wf(),
            strictly_ascending(old(self).spec_wire_queue()),
        ensures
            final(self).wf(),
            final(self).same_but_wire_states(&*old(self)),
            forall|w: int|
                0 <= w < old(self).wire_count() && old(self).spec_wire_queue().contains(w as u32)
                    ==> (#[trigger] final(self).state_of(w))@ == final(self).resolved(w),
            forall|w: int|
                0 <= w < old(self).wire_count() && !old(self).spec_wire_queue().contains(w as u32)
                    ==> #[trigger] final(self).state_of(w) == old(self).state_of(w),
            (r is Error) <==> exists|w: int|
                0 <= w < old(self).wire_count() && old(self).spec_wire_queue().contains(w as u32)
                    && #[trigger] final(self).conflicted(w),
            r matches SimulationStepResult::Error(e) ==> e.conflicts@.len() > 0 && forall|k: int|
                0 <= k < e.conflicts@.len() ==> (#[trigger] e.conflicts@[k]).spec_index()
                    < old(self).wire_count() && old(self).spec_wire_queue().contains(
                    e.conflicts@[k].spec_index(),
                ) && final(self).conflicted(e.conflicts@[k].spec_index() as int),
            r matches SimulationStepResult::Error(e) ==> forall|w: int|
                0 <= w < old(self).wire_count() && old(self).spec_wire_queue().contains(w as u32)
                    && #[trigger] final(self).conflicted(w) ==> e.conflicts@.contains(
                    WireId::spec_new(w as u32),
                ),
            !(r is Error) ==> forall|w: int, n: int|
                0 <= w < old(self).wire_count() && final(self).state_of(w) != old(self).state_of(w) && 0
                    <= n < old(self).spec_wires()[w].spec_driving().len() ==> final(self).spec_component_queue().contains(
                    (#[trigger] old(self).spec_wires()[w].spec_driving()[n]).spec_index(),
                ),
            forall|c: u32| #[trigger] final(self).spec_component_queue().contains(c) ==> final(self).reads_changed(&*old(self), c),
            strictly_ascending(final(self).spec_component_queue()),
            (r is Unchanged) <==> (!(r is Error) && final(self).spec_component_queue().len() == 0),
            old(self).spec_wire_queue().len() == 0 ==> r is Unchanged,
    {
        let mut comp_queue: Vec<u32> = Vec::new();
        let mut conflicts: Vec<WireId> = Vec::new();
        let ghost nw = old(self).wire_count();
        let ghost queue = old(self).spec_wire_queue();
        let mut i: usize = 0;
        while i < self.wire_update_queue.len()
            invariant
                old(self).wf(),
                self.wires == old(self).wires,
                self.components == old(self).components,
                self.output_states == old(self).output_states,
                self.wire_update_queue == old(self).wire_update_queue,
                self.wire_names == old(self).wire_names,
                self.component_names == old(self).component_names,
                self.component_update_queue == old(self).component_update_queue,
                self.spec_wire_states().spec_drives() == old(self).spec_wire_states().spec_drives(),
                self.spec_wire_states().spec_widths() == old(self).spec_wire_states().spec_widths(),
                queue == old(self).spec_wire_queue(),
                nw == old(self).wire_count(),
                i <= queue.len(),
                forall|w: int|
                    0 <= w < nw && queue.take(i as int).contains(w as u32) ==> (#[trigger] self.state_of(
                        w,
                    ))@ == self.resolved(w),
                forall|w: int|
                    0 <= w < nw && !queue.take(i as int).contains(w as u32) ==> #[trigger] self.state_of(w)
                        == old(self).state_of(w),
                forall|k: int|
                    0 <= k < conflicts@.len() ==> (#[trigger] conflicts@[k]).spec_index() < nw
                        && queue.take(i as int).contains(conflicts@[k].spec_index()) && self.conflicted(
                        conflicts@[k].spec_index() as int,
                    ),
                (conflicts@.len() == 0) <==> (forall|w: int|
                    0 <= w < nw && queue.take(i as int).contains(w as u32) ==> !#[trigger] self.conflicted(w)),
                forall|w: int|
                    0 <= w < nw && queue.take(i as int).contains(w as u32) && #[trigger] self.conflicted(w)
                        ==> conflicts@.contains(WireId::spec_new(w as u32)),
                conflicts@.len() == 0 ==> forall|w: int, n: int|
                    0 <= w < nw && self.state_of(w) != old(self).state_of(w) && 0 <= n
                        < old(self).spec_wires()[w].spec_driving().len() ==> comp_queue@.contains(
                        (#[trigger] old(self).spec_wires()[w].spec_driving()[n]).spec_index(),
                    ),
                forall|n: int|
                    0 <= n < comp_queue@.len() ==> #[trigger] comp_queue@[n]
                        < old(self).component_count(),
                queue.len() == 0 ==> comp_queue@.len() == 0 && conflicts@.len() == 0,
                strictly_ascending(queue),
                forall|n: int| 0 <= n < comp_queue@.len() ==> self.reads_changed(&*old(self), #[trigger] comp_queue@[n]),
            decreases queue.len() - i,
        {
            let w = self.wire_update_queue[i];
            proof {
                assert(queue[i as int] < nw);
                assert(old(self).wire_wf(w as int));
                assert(self.spec_wire_states().spec_drives()[w as int] == old(self).spec_wire_states().spec_drives()[w as int]);
                assert(self.spec_wire_states().spec_widths()[w as int] == old(self).spec_wire_states().spec_widths()[w as int]);
            }
            let wire = &self.wires[w as usize];
            let sid = wire.state_id();
            let mut state = *self.wire_states.get_state(sid);
            proof {
                assert forall|n: int| 0 <= n < wire.spec_drivers().len() implies #[trigger] wire.spec_drivers()[n].spec_index()
                    < self.output_states.spec_states().len() && self.output_states.spec_states()[wire.spec_drivers()[n].spec_index() as int].bit_width()
                    == wire.spec_bit_width() by {
                    let d = wire.spec_drivers()[n].spec_index() as int;
                    assert(old(self).component_wf(d));
                }
            }
            let ghost before = *self;
            let ghost old_conflicts = conflicts@;
            let result = wire.update(&mut state, self.wire_states.get_drive(sid), &self.output_states);
            self.wire_states.set_state(sid, state);
            proof {
                assert(self.state_of(w as int) == state);
                assert(self.drive_of(w as int) == before.drive_of(w as int));
                assert(self.spec_wire_states().spec_drives() =~= before.spec_wire_states().spec_drives());
                assert(self.spec_wire_states().spec_widths() =~= before.spec_wire_states().spec_widths());
                assert(self.state_of(w as int)@ == self.resolved(w as int));
                assert(self.conflicted(w as int) == (result == WireUpdateResult::Conflict));
                assert forall|v: int| 0 <= v < nw && v != w implies #[trigger] self.state_of(v)
                    == before.state_of(v) && self.resolved(v) == before.resolved(v)
                    && self.conflicted(v) == before.conflicted(v) by {
                    assert(self.drive_of(v) == before.drive_of(v));
                }
                assert(queue.take(i + 1) == queue.take(i as int).push(w));
                assert(queue.take(i + 1)[i as int] == w);
                assert forall|v: int| #![auto] 0 <= v < nw && queue.take(i + 1).contains(v as u32)
                    implies self.state_of(v)@ == self.resolved(v) by {
                    if v != w {
                        assert(queue.take(i as int).contains(v as u32));
                    }
                }
                assert forall|v: int| #![auto] 0 <= v < nw && !queue.take(i + 1).contains(v as u32)
                    implies self.state_of(v) == old(self).state_of(v) by {
                    assert(!queue.take(i as int).contains(v as u32));
                    assert(v != w);
                }
                if result == WireUpdateResult::Unchanged {
                    assert(self.state_of(w as int) == before.state_of(w as int));
                }
                assert(!queue.take(i as int).contains(w)) by {
                    if queue.take(i as int).contains(w) {
                        let j = choose|j: int| 0 <= j < i && queue.take(i as int)[j] == w;
                        assert(queue[j] < queue[i as int]);
                    }
                }
                assert(before.state_of(w as int) == old(self).state_of(w as int));
                if result == WireUpdateResult::Changed {
                    let k = choose|k: int|
                        0 <= k < old(self).spec_wires()[w as int].spec_bit_width().spec_word_len()
                            && !before.state_of(w as int).same_word(&self.state_of(w as int), k);
                    assert(self.state_of(w as int) != old(self).state_of(w as int));
                }
                assert forall|n: int| 0 <= n < comp_queue@.len() implies self.reads_changed(&*old(self), #[trigger] comp_queue@[n]) by {
                    assert(before.reads_changed(&*old(self), comp_queue@[n]));
                    let (v, m) = choose|v: int, m: int|
                        0 <= v < old(self).wire_count() && before.state_of(v) != old(self).state_of(v) && 0 <= m
                            < old(self).spec_wires()[v].spec_driving().len() && (#[trigger] old(self).spec_wires()[v].spec_driving()[m]).spec_index() == comp_queue@[n];
                    assert(queue.take(i as int).contains(v as u32));
                    assert(v != w);
                    assert(self.state_of(v) == before.state_of(v));
                }
            }
            match result {
                WireUpdateResult::Unchanged => {},
                WireUpdateResult::Changed => {
                    let driving = wire.driving();
                    let ghost start = comp_queue@;
                    let mut k: usize = 0;
                    while k < driving.len()
                        invariant
                            k <= driving@.len(),
                            (w as int) < old(self).spec_wires().len(),
                            driving@ == old(self).spec_wires()[w as int].spec_driving(),
                            old(self).wire_wf(w as int),
                            comp_queue@.len() >= start.len(),
                            comp_queue@.subrange(0, start.len() as int) == start,
                            forall|n: int| 0 <= n < k ==> comp_queue@.contains(
                                (#[trigger] driving@[n]).spec_index(),
                            ),
                            forall|n: int|
                                0 <= n < comp_queue@.len() ==> #[trigger] comp_queue@[n]
                                    < old(self).component_count(),
                            (w as int) < nw,
                            nw == old(self).wire_count(),
                            self.state_of(w as int) != old(self).state_of(w as int),
                            forall|n: int| 0 <= n < comp_queue@.len() ==> self.reads_changed(&*old(self), #[trigger] comp_queue@[n]),
                        decreases driving@.len() - k,
                    {
                        let c = driving[k];
                        let ghost prev = comp_queue@;
                        comp_queue.push(c.to_bits());
                        proof {
                            assert(comp_queue@.subrange(0, start.len() as int) =~= start);
                            assert forall|n: int| 0 <= n < comp_queue@.len() implies self.reads_changed(&*old(self), #[trigger] comp_queue@[n]) by {
                                if n < prev.len() {
                                    assert(comp_queue@[n] == prev[n]);
                                } else {
                                    assert(old(self).spec_wires()[w as int].spec_driving()[k as int] == c);
                                }
                            }
                            assert forall|n: int| 0 <= n < k + 1 implies comp_queue@.contains(
                                (#[trigger] driving@[n]).spec_index(),
                            ) by {
                                if n < k {
                                    let m = choose|m: int| 0 <= m < prev.len() && prev[m] == driving@[n].spec_index();
                                    assert(comp_queue@[m] == prev[m]);
                                } else {
                                    assert(comp_queue@[prev.len() as int] == c.spec_index());
                                }
                            }
                        }
                        k = k + 1;
                    }
                    proof {
                        assert forall|x: u32| start.contains(x) implies comp_queue@.contains(x) by {
                            let m = choose|m: int| 0 <= m < start.len() && start[m] == x;
                            assert(comp_queue@.subrange(0, start.len() as int)[m] == x);
                        }
                    }
                },
                WireUpdateResult::Conflict => {
                    conflicts.push(WireId::new(w));
                },
            }
            proof {
                assert forall|v: int|
                    0 <= v < nw && queue.take(i + 1).contains(v as u32) && #[trigger] self.conflicted(v)
                        implies conflicts@.contains(WireId::spec_new(v as u32)) by {
                    if v == w {
                        assert(result == WireUpdateResult::Conflict);
                        assert(conflicts@[conflicts@.len() - 1] == WireId::spec_new(w));
                    } else {
                        assert(queue.take(i as int).contains(v as u32));
                        assert(self.drive_of(v) == before.drive_of(v));
                        assert(before.conflicted(v));
                        let k = choose|k: int| 0 <= k < old_conflicts.len() && old_conflicts[k] == WireId::spec_new(v as u32);
                        assert(conflicts@[k] == old_conflicts[k]);
                    }
                }
                assert forall|k: int| 0 <= k < conflicts@.len() implies (#[trigger] conflicts@[k]).spec_index() < nw
                    && queue.take(i + 1).contains(conflicts@[k].spec_index()) && self.conflicted(
                    conflicts@[k].spec_index() as int,
                ) by {
                    if conflicts@[k].spec_index() != w {
                        assert(queue.take(i as int).contains(conflicts@[k].spec_index()));
                    }
                }
                if conflicts@.len() == 0 {
                    assert forall|v: int| 0 <= v < nw && queue.take(i + 1).contains(v as u32) implies !#[trigger] self.conflicted(v) by {
                        if v != w {
                            assert(queue.take(i as int).contains(v as u32));
                            assert(self.drive_of(v) == before.drive_of(v));
                            assert(!before.conflicted(v));
                        }
                    }
                } else {
                    let c0 = conflicts@[0].spec_index() as int;
                    assert(queue.take(i + 1).contains(c0 as u32));
                    assert(self.conflicted(c0));
                }
            }
            i = i + 1;
        }
        proof {
            assert(queue.take(i as int) =~= queue);
        }
        let ghost unsorted = comp_queue@;
        sort_dedup(&mut comp_queue);
        let ghost mid = *self;
        self.component_update_queue = comp_queue;
        proof {
            assert forall|w: int| 0 <= w < nw implies #[trigger] self.state_of(w) == mid.state_of(w)
                && self.resolved(w) == mid.resolved(w) && self.conflicted(w) == mid.conflicted(w) by {
            }
            assert forall|w: int|
                0 <= w < nw && queue.contains(w as u32) implies (#[trigger] self.state_of(w))@
                == self.resolved(w) by {
                assert(mid.state_of(w)@ == mid.resolved(w));
            }
            assert forall|w: int|
                0 <= w < nw && !queue.contains(w as u32) implies #[trigger] self.state_of(w)
                == old(self).state_of(w) by {
                assert(mid.state_of(w) == old(self).state_of(w));
            }
            assert forall|x: u32| unsorted.contains(x) implies self.component_update_queue@.contains(x) by {
                assert(unsorted.to_set().contains(x));
            }
            assert forall|n: int| 0 <= n < self.component_update_queue@.len() implies #[trigger] self.component_update_queue@[n]
                < old(self).component_count() by {
                let x = self.component_update_queue@[n];
                assert(self.component_update_queue@.to_set().contains(x));
                assert(unsorted.contains(x));
            }
            self.lemma_wf_wire_states(&*old(self));
            assert forall|c: u32| #[trigger] self.spec_component_queue().contains(c) implies self.reads_changed(&*old(self), c) by {
                assert(self.component_update_queue@.to_set().contains(c));
                assert(unsorted.to_set().contains(c));
                let n = choose|n: int| 0 <= n < unsorted.len() && unsorted[n] == c;
                assert(mid.reads_changed(&*old(self), unsorted[n]));
                let (v, m) = choose|v: int, m: int|
                    0 <= v < old(self).wire_count() && mid.state_of(v) != old(self).state_of(v) && 0 <= m
                        < old(self).spec_wires()[v].spec_driving().len() && (#[trigger] old(self).spec_wires()[v].spec_driving()[m]).spec_index() == c;
                assert(self.state_of(v) == mid.state_of(v));
            }
            if queue.len() == 0 && self.component_update_queue@.len() > 0 {
                let x = self.component_update_queue@[0];
                assert(self.component_update_queue@.to_set().contains(x));
                assert(unsorted.to_set().contains(x));
            }
            assert forall|w: int|
                0 <= w < nw && queue.contains(w as u32) && #[trigger] self.conflicted(w) implies conflicts@.contains(
                WireId::spec_new(w as u32),
            ) by {
                assert(mid.conflicted(w));
            }
            if conflicts@.len() > 0 {
                let c0 = conflicts@[0].spec_index() as int;
                assert(queue.contains(c0 as u32));
                assert(mid.conflicted(c0));
                assert(self.conflicted(c0));
            } else {
                assert forall|w: int|
                    0 <= w < nw && queue.contains(w as u32) implies !#[trigger] self.conflicted(w) by {
                    assert(!mid.conflicted(w));
                }
            }
        }
        if conflicts.len() > 0 {
            SimulationStepResult::Error(SimulationErrors { conflicts })
        } else if self.component_update_queue.len() == 0 {
            SimulationStepResult::Unchanged
        } else {
            SimulationStepResult::Changed
        }
    }

    /// Updates the components in the component queue and fills the wire queue with the wires
    /// whose driving output changed
    fn update_components(&mut self) -> (r: SimulationStepResult)
        requires
            old(self).wf(),
        ensures
            final(self).wf(),
            final(self).same_but_output_states(&*old(self)),
            forall|c: int|
                0 <= c < old(self).component_count() && old(self).spec_component_queue().contains(c as u32)
                    ==> #[trigger] final(self).component_settled(c),
            forall|c: int|
                0 <= c < old(self).component_count() && !old(self).spec_component_queue().contains(
                    c as u32,
                ) ==> #[trigger] final(self).output_of(c) == old(self).output_of(c),
            forall|c: int|
                0 <= c < old(self).component_count() && #[trigger] final(self).output_of(c) != old(self).output_of(c)
                    ==> final(self).spec_wire_queue().contains(
                    old(self).spec_components()[c].spec_output_wire().spec_index(),
                ),
            strictly_ascending(final(self).spec_wire_queue()),
            forall|n: int|
                0 <= n < final(self).spec_wire_queue().len() ==> old(self).driven_by_queued(
                    #[trigger] final(self).spec_wire_queue()[n],
                ),
            !(r is Error),
            (r is Unchanged) <==> final(self).spec_wire_queue().len() == 0,
    {
        let mut wire_queue: Vec<u32> = Vec::new();
        let ghost nc = old(self).component_count();
        let ghost queue = old(self).spec_component_queue();
        let mut i: usize = 0;
        while i < self.component_update_queue.len()
            invariant
                old(self).wf(),
                self.wires == old(self).wires,
                self.components == old(self).components,
                self.wire_states == old(self).wire_states,
                self.wire_update_queue == old(self).wire_update_queue,
                self.wire_names == old(self).wire_names,
                self.component_names == old(self).component_names,
                self.component_update_queue == old(self).component_update_queue,
                self.spec_output_states().spec_widths() == old(self).spec_output_states().spec_widths(),
                queue == old(self).spec_component_queue(),
                nc == old(self).component_count(),
                i <= queue.len(),
                forall|c: int|
                    0 <= c < nc && queue.take(i as int).contains(c as u32)
                        ==> #[trigger] self.component_settled(c),
                forall|c: int|
                    0 <= c < nc && !queue.take(i as int).contains(c as u32) ==> #[trigger] self.output_of(c)
                        == old(self).output_of(c),
                forall|c: int|
                    0 <= c < nc && #[trigger] self.output_of(c) != old(self).output_of(c) ==> wire_queue@.contains(
                        old(self).spec_components()[c].spec_output_wire().spec_index(),
                    ),
                forall|n: int|
                    0 <= n < wire_queue@.len() ==> #[trigger] wire_queue@[n] < old(self).wire_count(),
                forall|n: int| 0 <= n < wire_queue@.len() ==> old(self).driven_by_queued(#[trigger] wire_queue@[n]),
            decreases queue.len() - i,
        {
            let c = self.component_update_queue[i];
            proof {
                assert(queue[i as int] < nc);
                assert(old(self).component_wf(c as int));
                assert(self.spec_output_states().spec_widths()[c as int] == old(self).spec_output_states().spec_widths()[c as int]);
            }
            let component = &self.components[c as usize];
            let ghost before = *self;
            let changed = component.update(&self.wire_states, &mut self.output_states);
            proof {
                assert(self.spec_output_states().spec_widths() =~= before.spec_output_states().spec_widths());
                assert(self.component_settled(c as int));
                assert(queue.take(i + 1) == queue.take(i as int).push(c));
                assert(queue.take(i + 1)[i as int] == c);
                assert forall|d: int| 0 <= d < nc && d != c implies #[trigger] self.output_of(d)
                    == before.output_of(d) by {}
                assert forall|d: int| #![auto] 0 <= d < nc && queue.take(i + 1).contains(d as u32)
                    implies self.component_settled(d) by {
                    if d != c {
                        assert(queue.take(i as int).contains(d as u32));
                        assert(before.component_settled(d));
                    }
                }
                assert forall|d: int| #![auto] 0 <= d < nc && !queue.take(i + 1).contains(d as u32)
                    implies self.output_of(d) == old(self).output_of(d) by {
                    assert(!queue.take(i as int).contains(d as u32));
                    assert(d != c);
                }
            }
            let changed_wires = id_list_slice(&changed);
            let ghost prev = wire_queue@;
            let ghost out_index = component.spec_output_wire().spec_index();
            proof {
                assert(old(self).component_wf(c as int));
                assert(out_index < old(self).wire_count());
                assert(queue[i as int] == c);
                assert(queue.contains(c));
                assert(old(self).spec_components()[c as int].spec_output_wire().spec_index() == out_index);
                assert(old(self).driven_by_queued(out_index));
            }
            let mut k: usize = 0;
            while k < changed_wires.len()
                invariant
                    changed_wires@ == id_list(changed),
                    id_list(changed).len() == 0 || id_list(changed) == seq![out_index],
                    out_index < old(self).wire_count(),
                    k <= changed_wires@.len(),
                    wire_queue@.len() >= prev.len(),
                    wire_queue@.subrange(0, prev.len() as int) == prev,
                    forall|n: int| 0 <= n < k ==> wire_queue@.contains(#[trigger] changed_wires@[n]),
                    forall|n: int|
                        0 <= n < wire_queue@.len() ==> #[trigger] wire_queue@[n] < old(self).wire_count(),
                    forall|n: int| 0 <= n < wire_queue@.len() ==> old(self).driven_by_queued(#[trigger] wire_queue@[n]),
                    old(self).driven_by_queued(out_index),
                decreases changed_wires@.len() - k,
            {
                let ghost before_push = wire_queue@;
                wire_queue.push(changed_wires[k]);
                proof {
                    assert(wire_queue@.subrange(0, prev.len() as int) =~= prev);
                    assert(changed_wires@[k as int] == out_index);
                    assert forall|n: int| 0 <= n < k + 1 implies wire_queue@.contains(#[trigger] changed_wires@[n]) by {
                        if n < k {
                            let m = choose|m: int| 0 <= m < before_push.len() && before_push[m] == changed_wires@[n];
                            assert(wire_queue@[m] == before_push[m]);
                        } else {
                            assert(wire_queue@[before_push.len() as int] == changed_wires@[n]);
                        }
                    }
                }
                k = k + 1;
            }
            proof {
                assert forall|x: u32| prev.contains(x) implies wire_queue@.contains(x) by {
                    let m = choose|m: int| 0 <= m < prev.len() && prev[m] == x;
                    assert(wire_queue@.subrange(0, prev.len() as int)[m] == x);
                }
                if id_list(changed).len() > 0 {
                    assert(changed_wires@[0] == out_index);
                    assert(wire_queue@.contains(out_index));
                } else {
                    assert(self.output_of(c as int) == before.output_of(c as int));
                }
            }
            proof {
                assert forall|d: int|
                    0 <= d < nc && #[trigger] self.output_of(d) != old(self).output_of(d) implies wire_queue@.contains(
                    old(self).spec_components()[d].spec_output_wire().spec_index(),
                ) by {
                    if d != c {
                        assert(before.output_of(d) != old(self).output_of(d));
                    } else if id_list(changed).len() == 0 {
                        assert(before.output_of(d) != old(self).output_of(d));
                    }
                }
            }
            i = i + 1;
        }
        proof {
            assert(queue.take(i as int) =~= queue);
        }
        let ghost unsorted = wire_queue@;
        sort_dedup(&mut wire_queue);
        let ghost mid = *self;
        self.wire_update_queue = wire_queue;
        proof {
            assert forall|c: int| 0 <= c < nc implies #[trigger] self.output_of(c) == mid.output_of(c)
                && self.component_settled(c) == mid.component_settled(c) by {
            }
            assert forall|x: u32| unsorted.contains(x) implies self.wire_update_queue@.contains(x) by {
                assert(unsorted.to_set().contains(x));
            }
            assert forall|n: int| 0 <= n < self.wire_update_queue@.len() implies #[trigger] self.wire_update_queue@[n]
                < old(self).wire_count() && old(self).driven_by_queued(self.wire_update_queue@[n]) by {
                let x = self.wire_update_queue@[n];
                assert(self.wire_update_queue@.to_set().contains(x));
                assert(unsorted.contains(x));
                let m = choose|m: int| 0 <= m < unsorted.len() && unsorted[m] == x;
                assert(old(self).driven_by_queued(unsorted[m]));
            }
            assert forall|c: int|
                0 <= c < nc && queue.contains(c as u32) implies #[trigger] self.component_settled(c) by {
                assert(mid.component_settled(c));
            }
            assert forall|c: int|
                0 <= c < nc && !queue.contains(c as u32) implies #[trigger] self.output_of(c)
                == old(self).output_of(c) by {
                assert(mid.output_of(c) == old(self).output_of(c));
            }
            assert forall|c: int|
                0 <= c < nc && #[trigger] self.output_of(c) != old(self).output_of(c) implies self.spec_wire_queue().contains(
                old(self).spec_components()[c].spec_output_wire().spec_index(),
            ) by {
                assert(mid.output_of(c) != old(self).output_of(c));
            }
            self.lemma_wf_output_states(&*old(self));
        }
        if self.wire_update_queue.len() == 0 {
            SimulationStepResult::Unchanged
        } else {
            SimulationStepResult::Changed
        }
    }

    /// Whether `self` and `other` are the same graph with the same drives, names and widths
    pub open spec fn same_graph(&self, other: &SimulatorData) -> bool {
        &&& self.spec_wires() == other.spec_wires()
        &&& self.spec_components() == other.spec_components()
        &&& self.spec_wire_names() == other.spec_wire_names()
        &&& self.spec_component_names() == other.spec_component_names()
        &&& self.spec_wire_states().spec_drives() == other.spec_wire_states().spec_drives()
        &&& self.spec_wire_states().spec_widths() == other.spec_wire_states().spec_widths()
        &&& self.spec_output_states().spec_widths() == other.spec_output_states().spec_widths()
    }

    /// Every component has settled, and so has every wire that is not waiting for an update
    pub open spec fn pending_wires_only(&self) -> bool {
        &&& forall|c: int| 0 <= c < self.component_count() ==> #[trigger] self.component_settled(c)
        &&& forall|w: int|
            0 <= w < self.wire_count() && !self.spec_wire_queue().contains(w as u32)
                ==> #[trigger] self.wire_settled(w)
    }

    /// Whether the errors list exactly the wires of this simulation that have a driver
    /// conflict, at least one
    pub open spec fn reports_conflicts(&self, e: SimulationErrors) -> bool {
        &&& e.conflicts@.len() > 0
        &&& forall|k: int|
            0 <= k < e.conflicts@.len() ==> (#[trigger] e.conflicts@[k]).spec_index() < self.wire_count()
                && self.conflicted(e.conflicts@[k].spec_index() as int)
        &&& forall|w: int|
            0 <= w < self.wire_count() && #[trigger] self.conflicted(w) ==> e.conflicts@.contains(
                WireId::spec_new(w as u32),
            )
    }

    /// What a simulation step leaves: settled when unchanged, only the queued wires (at least
    /// one) pending when changed, and true conflicts when failed
    pub open spec fn step_outcome(&self, r: SimulationStepResult) -> bool {
        match r {
            SimulationStepResult::Unchanged => self.settled(),
            SimulationStepResult::Changed => self.pending_wires_only() && self.spec_wire_queue().len() > 0
                && strictly_ascending(self.spec_wire_queue()),
            SimulationStepResult::Error(e) => self.reports_conflicts(e),
        }
    }

    /// After a wire phase without conflicts, the queued wires and the wires that had settled
    /// are settled, and so are the settled components whose inputs did not change
    proof fn lemma_after_wires(&self, before: &SimulatorData)
        requires
            before.wf(),
            self.wf(),
            self.same_but_wire_states(before),
            forall|w: int|
                0 <= w < before.wire_count() && before.spec_wire_queue().contains(w as u32)
                    ==> (#[trigger] self.state_of(w))@ == self.resolved(w) && !self.conflicted(w),
            forall|w: int|
                0 <= w < before.wire_count() && !before.spec_wire_queue().contains(w as u32)
                    ==> #[trigger] self.state_of(w) == before.state_of(w),
            forall|w: int, n: int|
                0 <= w < before.wire_count() && self.state_of(w) != before.state_of(w) && 0 <= n
                    < before.spec_wires()[w].spec_driving().len() ==> self.spec_component_queue().contains(
                    (#[trigger] before.spec_wires()[w].spec_driving()[n]).spec_index(),
                ),
        ensures
            forall|w: int|
                0 <= w < self.wire_count() && (before.spec_wire_queue().contains(w as u32)
                    || before.wire_settled(w)) ==> #[trigger] self.wire_settled(w),
            forall|c: int|
                0 <= c < self.component_count() && !self.spec_component_queue().contains(c as u32)
                    && before.component_settled(c) ==> #[trigger] self.component_settled(c),
    {
        broadcast use ComponentId::lemma_new_index;
        assert forall|w: int|
            0 <= w < self.wire_count() && (before.spec_wire_queue().contains(w as u32)
                || before.wire_settled(w)) implies #[trigger] self.wire_settled(w) by {
            assert(self.spec_wire_states().spec_drives()[w] == before.spec_wire_states().spec_drives()[w]);
            if !before.spec_wire_queue().contains(w as u32) {
                assert(self.state_of(w) == before.state_of(w));
            }
        }
        assert forall|c: int|
            0 <= c < self.component_count() && !self.spec_component_queue().contains(c as u32)
                && before.component_settled(c) implies #[trigger] self.component_settled(c) by {
            assert(before.component_wf(c));
            let kind = self.spec_components()[c].spec_kind();
            let s1 = before.spec_wire_states().spec_states();
            let s2 = self.spec_wire_states().spec_states();
            assert forall|n: int| 0 <= n < kind.inputs().len() implies wire_state(s1, #[trigger] kind.inputs()[n])
                == wire_state(s2, kind.inputs()[n]) by {
                let w = kind.inputs()[n].spec_index() as int;
                let driving = before.spec_wires()[w].spec_driving();
                assert(driving.contains(ComponentId::spec_new(c as u32)));
                let m = choose|m: int| 0 <= m < driving.len() && driving[m] == ComponentId::spec_new(c as u32);
                assert(driving[m].spec_index() == c);
                if self.state_of(w) != before.state_of(w) {
                    assert(self.spec_component_queue().contains(driving[m].spec_index()));
                }
            }
            kind.lemma_eval_frame(s1, s2, self.output_of(c).bit_width());
        }
    }

    /// After a component phase, the queued components and the components that had settled are
    /// settled, and so are the settled wires whose drivers did not change
    proof fn lemma_after_components(&self, before: &SimulatorData)
        requires
            before.wf(),
            self.wf(),
            self.same_but_output_states(before),
            forall|c: int|
                0 <= c < before.component_count() && before.spec_component_queue().contains(c as u32)
                    ==> #[trigger] self.component_settled(c),
            forall|c: int|
                0 <= c < before.component_count() && !before.spec_component_queue().contains(
                    c as u32,
                ) ==> #[trigger] self.output_of(c) == before.output_of(c),
            forall|c: int|
                0 <= c < before.component_count() && #[trigger] self.output_of(c) != before.output_of(c)
                    ==> self.spec_wire_queue().contains(
                    before.spec_components()[c].spec_output_wire().spec_index(),
                ),
        ensures
            forall|c: int|
                0 <= c < self.component_count() && (before.spec_component_queue().contains(c as u32)
                    || before.component_settled(c)) ==> #[trigger] self.component_settled(c),
            forall|w: int|
                0 <= w < self.wire_count() && !self.spec_wire_queue().contains(w as u32)
                    && before.wire_settled(w) ==> #[trigger] self.wire_settled(w),
    {
        assert forall|c: int|
            0 <= c < self.component_count() && (before.spec_component_queue().contains(c as u32)
                || before.component_settled(c)) implies #[trigger] self.component_settled(c) by {
            if !before.spec_component_queue().contains(c as u32) {
                assert(self.output_of(c) == before.output_of(c));
            }
        }
        assert forall|w: int|
            0 <= w < self.wire_count() && !self.spec_wire_queue().contains(w as u32)
                && before.wire_settled(w) implies #[trigger] self.wire_settled(w) by {
            assert(before.wire_wf(w));
            let drivers = self.spec_wires()[w].spec_drivers();
            let v1 = output_views(drivers, &before.spec_output_states());
            let v2 = output_views(drivers, &self.spec_output_states());
            assert forall|n: int| 0 <= n < drivers.len() implies v1[n] == v2[n] by {
                let d = drivers[n].spec_index() as int;
                assert(before.spec_components()[d].spec_output_wire().spec_index() == w);
                if self.output_of(d) != before.output_of(d) {
                    assert(self.spec_wire_queue().contains(w as u32));
                }
            }
            assert(v1 =~= v2);
        }
    }

    /// Runs one wire phase and, if it changed something, one component phase
    fn step_sim(&mut self) -> (r: SimulationStepResult)
        requires
            old(self).wf(),
            old(self).pending_wires_only(),
            strictly_ascending(old(self).spec_wire_queue()),
        ensures
            final(self).wf(),
            final(self).same_graph(&*old(self)),
            final(self).step_outcome(r),
            old(self).spec_wire_queue().len() == 0 ==> r is Unchanged,
            r is Changed ==> forall|n: int|
                0 <= n < final(self).spec_wire_queue().len() ==> old(self).fed_by_queue(
                    #[trigger] final(self).spec_wire_queue()[n],
                ),
    {
        let ghost s0 = *self;
        match self.update_wires() {
            SimulationStepResult::Unchanged => {
                proof {
                    self.lemma_after_wires(&s0);
                }
                SimulationStepResult::Unchanged
            },
            SimulationStepResult::Changed => {
                proof {
                    self.lemma_after_wires(&s0);
                }
                let ghost s1 = *self;
                let r = self.update_components();
                proof {
                    self.lemma_after_components(&s1);
                    assert forall|n: int| 0 <= n < self.spec_wire_queue().len() implies s0.fed_by_queue(
                        #[trigger] self.spec_wire_queue()[n],
                    ) by {
                        let x = self.spec_wire_queue()[n];
                        assert(s1.driven_by_queued(x));
                        let c = choose|c: int|
                            0 <= c < s1.component_count() && s1.spec_component_queue().contains(c as u32) && (
                            #[trigger] s1.spec_components()[c]).spec_output_wire().spec_index() == x;
                        assert(s1.reads_changed(&s0, c as u32));
                        let (w, m) = choose|w: int, m: int|
                            0 <= w < s0.wire_count() && s1.state_of(w) != s0.state_of(w) && 0 <= m
                                < s0.spec_wires()[w].spec_driving().len() && (
                            #[trigger] s0.spec_wires()[w].spec_driving()[m]).spec_index() == c as u32;
                        assert(s0.spec_wire_queue().contains(w as u32));
                        assert(s0.spec_components()[c] == s1.spec_components()[c]);
                    }
                }
                r
            },
            SimulationStepResult::Error(err) => {
                proof {
                    assert forall|w: int|
                        0 <= w < self.wire_count() && #[trigger] self.conflicted(w) implies s0.spec_wire_queue().contains(
                        w as u32,
                    ) by {
                        if !s0.spec_wire_queue().contains(w as u32) {
                            assert(s0.wire_settled(w));
                            assert(self.spec_wire_states().spec_drives()[w] == s0.spec_wire_states().spec_drives()[w]);
                            assert(self.drive_of(w) == s0.drive_of(w));
                            assert(self.conflicted(w) == s0.conflicted(w));
                        }
                    }
                }
                SimulationStepResult::Error(err)
            },
        }
    }

    /// Updates every wire, then every component
    fn begin_sim(&mut self) -> (r: SimulationStepResult)
        requires
            old(self).wf(),
        ensures
            final(self).wf(),
            final(self).same_graph(&*old(self)),
            final(self).step_outcome(r),
            r is Changed ==> forall|n: int|
                0 <= n < final(self).spec_wire_queue().len() ==> final(self).is_output_wire(
                    #[trigger] final(self).spec_wire_queue()[n],
                ),
    {
        let ghost start = *self;
        self.wire_update_queue = all_ids(self.wires.len());
        proof {
            assert forall|n: int| 0 <= n < self.spec_component_queue().len() implies #[trigger] self.spec_component_queue()[n]
                < self.component_count() by {
                assert(start.spec_component_queue()[n] < start.component_count());
            }
            self.lemma_wf_queues(&start);
        }
        let ghost s0 = *self;
        if let SimulationStepResult::Error(err) = self.update_wires() {
            return SimulationStepResult::Error(err);
        }
        proof {
            self.lemma_after_wires(&s0);
        }
        let ghost mid = *self;
        self.component_update_queue = all_ids(self.components.len());
        let ghost s1 = *self;
        proof {
            assert forall|n: int| 0 <= n < self.spec_wire_queue().len() implies #[trigger] self.spec_wire_queue()[n]
                < self.wire_count() by {
                assert(mid.spec_wire_queue()[n] < mid.wire_count());
            }
            self.lemma_wf_queues(&mid);
            assert forall|c: int|
                0 <= c < self.component_count() && !mid.spec_component_queue().contains(c as u32)
                    && s0.component_settled(c) implies #[trigger] self.component_settled(c) by {
                assert(mid.component_settled(c));
            }
            assert forall|w: int| 0 <= w < self.wire_count() implies #[trigger] self.wire_settled(w) by {
                assert(s0.spec_wire_queue().contains(w as u32));
                assert(mid.wire_settled(w));
                assert(s1.wire_settled(w));
            }
        }
        let r = self.update_components();
        proof {
            self.lemma_after_components(&s1);
            assert forall|c: int| 0 <= c < self.component_count() implies #[trigger] self.component_settled(c) by {
                assert(s1.spec_component_queue().contains(c as u32));
            }
            assert forall|n: int| 0 <= n < self.spec_wire_queue().len() implies self.is_output_wire(
                #[trigger] self.spec_wire_queue()[n],
            ) by {
                let x = self.spec_wire_queue()[n];
                assert(s1.driven_by_queued(x));
                let c = choose|c: int|
                    0 <= c < s1.component_count() && s1.spec_component_queue().contains(c as u32) && (
                    #[trigger] s1.spec_components()[c]).spec_output_wire().spec_index() == x;
                assert(self.spec_components()[c] == s1.spec_components()[c]);
            }
        }
        r
    }

    /// Puts every wire state and every output state into high impedance
    fn reset(&mut self)
        requires
            old(self).wf(),
        ensures
            final(self).wf(),
            final(self).same_graph(&*old(self)),
            final(self).spec_wire_queue() == old(self).spec_wire_queue(),
            final(self).spec_component_queue() == old(self).spec_component_queue(),
            forall|w: int|
                0 <= w < final(self).wire_count() ==> #[trigger] final(self).state_of(w)
                    == LogicState::spec_high_z(old(self).state_of(w).bit_width()),
            forall|c: int|
                0 <= c < final(self).component_count() ==> #[trigger] final(self).output_of(c)
                    == LogicState::spec_high_z(old(self).output_of(c).bit_width()),
    {
        let ghost s0 = *self;
        self.wire_states.clear_states();
        proof {
            assert forall|w: int| 0 <= w < self.spec_wire_states().spec_len() implies #[trigger] self.spec_wire_states().spec_widths()[w]
                == s0.spec_wire_states().spec_widths()[w] by {
                LogicState::lemma_filled(s0.state_of(w).bit_width(), 0, 0xffff_ffff);
            }
            assert forall|n: int| 0 <= n < self.spec_component_queue().len() implies #[trigger] self.spec_component_queue()[n]
                < self.component_count() by {
                assert(s0.spec_component_queue()[n] < s0.component_count());
            }
            assert(self.spec_wire_states().spec_drives() =~= s0.spec_wire_states().spec_drives());
            assert(self.spec_wire_states().spec_widths() =~= s0.spec_wire_states().spec_widths());
            self.lemma_wf_wire_states(&s0);
        }
        let ghost s1 = *self;
        self.output_states.clear_states();
        proof {
            assert forall|c: int| 0 <= c < self.component_count() implies #[trigger] self.spec_output_states().spec_widths()[c]
                == s1.spec_output_states().spec_widths()[c] by {
                LogicState::lemma_filled(s1.output_of(c).bit_width(), 0, 0xffff_ffff);
            }
            assert forall|n: int| 0 <= n < self.spec_wire_queue().len() implies #[trigger] self.spec_wire_queue()[n]
                < self.wire_count() by {
                assert(s1.spec_wire_queue()[n] < s1.wire_count());
            }
            assert(self.spec_output_states().spec_widths() =~= s1.spec_output_states().spec_widths());
            self.lemma_wf_output_states(&s1);
        }
    }

    /// Runs the simulation until it settles, but at most for `max_steps` steps after the first
    fn run_sim(&mut self, max_steps: u64) -> (r: SimulationRunResult)
        requires
            old(self).wf(),
        ensures
            final(self).wf(),
            final(self).same_graph(&*old(self)),
            r is Settled ==> final(self).settled(),
            r matches SimulationRunResult::Error(e) ==> final(self).reports_conflicts(e),
            r is MaxStepsReached ==> final(self).pending_wires_only() && final(self).spec_wire_queue().len() > 0,
            exists|trace: Seq<SimulatorData>, results: Seq<SimulationStepResult>|
                ran(*old(self), trace, results, max_steps as nat, r) && trace.last() == *final(self),
    {
        let ghost start = *self;
        let mut steps: u128 = 0;
        let mut result = self.begin_sim();
        let ghost mut trace: Seq<SimulatorData> = seq![*self];
        let ghost mut results: Seq<SimulationStepResult> = seq![result];
        loop
            invariant
                self.wf(),
                self.same_graph(&*old(self)),
                self.step_outcome(result),
                steps <= max_steps as u128 + 1,
                start == *old(self),
                trace.len() == steps + 1,
                results.len() == trace.len(),
                trace.last() == *self,
                results.last() == result,
                began(start, trace[0], results[0]),
                forall|i: int| 1 <= i < trace.len() ==> steps_to(trace[i - 1], #[trigger] trace[i], results[i]),
                forall|i: int| 0 <= i < trace.len() - 1 ==> (#[trigger] results[i]) is Changed,
            decreases max_steps as u128 + 1 - steps,
        {
            match result {
                SimulationStepResult::Unchanged => {
                    assert(ran(start, trace, results, max_steps as nat, SimulationRunResult::Settled));
                    return SimulationRunResult::Settled;
                },
                SimulationStepResult::Changed => {
                    if steps > max_steps as u128 {
                        assert(ran(start, trace, results, max_steps as nat, SimulationRunResult::MaxStepsReached));
                        return SimulationRunResult::MaxStepsReached;
                    }
                    let ghost before = *self;
                    let ghost results0 = results;
                    let ghost trace0 = trace;
                    steps = steps + 1;
                    result = self.step_sim();
                    proof {
                        trace = trace.push(*self);
                        results = results.push(result);
                        assert(steps_to(before, *self, result));
                        assert forall|i: int| 1 <= i < trace.len() implies steps_to(
                            trace[i - 1],
                            #[trigger] trace[i],
                            results[i],
                        ) by {
                            if i < trace.len() - 1 {
                                assert(trace[i] == trace0[i] && trace[i - 1] == trace0[i - 1]
                                    && results[i] == results0[i]);
                            }
                        }
                        assert forall|i: int| 0 <= i < trace.len() - 1 implies (#[trigger] results[i]) is Changed by {
                            if i < trace.len() - 2 {
                                assert(results[i] == results0[i]);
                            }
                        }
                    }
                },
                SimulationStepResult::Error(err) => {
                    assert(ran(start, trace, results, max_steps as nat, SimulationRunResult::Error(err)));
                    return SimulationRunResult::Error(err);
                },
            }
        }
    }

    /// Whether the ID names a wire of the simulation
    pub open spec fn has_wire(&self, w: WireId) -> bool {
        w.spec_index() < self.wire_count()
    }

    /// The width of a wire
    pub open spec fn wire_width(&self, w: WireId) -> BitWidth {
        self.spec_wires()[w.spec_index() as int].spec_bit_width()
    }

    /// `self` still has every wire of `old`, each with its width, and every component of `old`
    /// with its name, and possibly more
    pub open spec fn keeps_wires(&self, old: &SimulatorData) -> bool {
        &&& old.wire_count() <= self.wire_count()
        &&& forall|w: WireId| old.has_wire(w) ==> #[trigger] self.wire_width(w) == old.wire_width(w)
        &&& old.component_count() <= self.component_count()
        &&& forall|c: int| 0 <= c < old.component_count() ==> #[trigger] self.spec_components()[c] == old.spec_components()[c]
        &&& forall|c: u32|
            c < old.component_count() && old.spec_component_names().contains_key(c) ==> #[trigger] self.spec_component_names().contains_key(c)
                && self.spec_component_names()[c] == old.spec_component_names()[c]
    }

    /// Keeping the wires is transitive
    pub proof fn lemma_keeps_wires_trans(&self, mid: &SimulatorData, old: &SimulatorData)
        requires
            self.keeps_wires(mid),
            mid.keeps_wires(old),
        ensures
            self.keeps_wires(old),
    {
    }

    /// Adding a component, or failing to, keeps the wires
    pub proof fn lemma_add_outcome_keeps_wires(
        &self,
        old: &SimulatorData,
        r: Result<ComponentId, AddComponentError>,
        check: Result<(), AddComponentError>,
        op: ComponentOp,
        inputs: Seq<WireId>,
        output: WireId,
    )
        requires
            self.add_outcome(old, r, check, op, inputs, output),
        ensures
            self.keeps_wires(old),
    {
        if check is Ok && old.component_count() < MAX_STATE_COUNT {
            let kind = self.spec_components().last().spec_kind();
            assert(self.component_added(old, kind, output));
            assert forall|w: WireId| old.has_wire(w) implies #[trigger] self.wire_width(w) == old.wire_width(
                w,
            ) by {
                let i = w.spec_index() as int;
                assert(0 <= i < self.wire_count());
                let nw = self.spec_wires()[i];
                assert(nw.spec_bit_width() == old.spec_wires()[i].spec_bit_width());
            }
            assert forall|c: int| 0 <= c < old.component_count() implies #[trigger] self.spec_components()[c]
                == old.spec_components()[c] by {
                assert(self.spec_components().drop_last()[c] == self.spec_components()[c]);
            }
        }
    }

    /// Whether the ID names a component of the simulation
    pub open spec fn has_component(&self, c: ComponentId) -> bool {
        c.spec_index() < self.component_count()
    }

    /// Checking the wires `ids[k..]` against the width `width`: the first one that does not exist
    /// or has another width decides the error
    pub open spec fn widths_from(&self, ids: Seq<WireId>, width: BitWidth, k: int) -> Result<
        BitWidth,
        AddComponentError,
    >
        decreases ids.len() - k,
    {
        if k >= ids.len() || k < 0 {
            Ok(width)
        } else if !self.has_wire(ids[k]) {
            Err(AddComponentError::InvalidWireId)
        } else if self.wire_width(ids[k]) != width {
            Err(AddComponentError::WireWidthMismatch)
        } else {
            self.widths_from(ids, width, k + 1)
        }
    }

    /// Checking that the wires exist and have the width of the first, in order: the width, or
    /// the error of the first wire that fails
    pub open spec fn widths_outcome(&self, ids: Seq<WireId>) -> Result<BitWidth, AddComponentError> {
        if !self.has_wire(ids[0]) {
            Err(AddComponentError::InvalidWireId)
        } else {
            self.widths_from(ids, self.wire_width(ids[0]), 1)
        }
    }

    /// A successful check gives the width it checked against
    proof fn lemma_widths_from_width(&self, ids: Seq<WireId>, width: BitWidth, k: int)
        requires
            self.widths_from(ids, width, k) is Ok,
        ensures
            self.widths_from(ids, width, k) == Ok::<BitWidth, AddComponentError>(width),
        decreases ids.len() - k,
    {
        if 0 <= k < ids.len() {
            self.lemma_widths_from_width(ids, width, k + 1);
        }
    }

    /// When the check succeeds, every wire exists and has the width it gives
    proof fn lemma_widths_ok(&self, ids: Seq<WireId>, width: BitWidth, k: int)
        requires
            0 <= k,
            self.widths_from(ids, width, k) == Ok::<BitWidth, AddComponentError>(width),
        ensures
            forall|m: int| k <= m < ids.len() ==> self.has_wire(#[trigger] ids[m]) && self.wire_width(ids[m]) == width,
        decreases ids.len() - k,
    {
        if k < ids.len() {
            self.lemma_widths_ok(ids, width, k + 1);
        }
    }

    /// The state ID of each wire
    pub open spec fn state_ids(&self, ids: Seq<WireId>) -> Seq<WireStateId> {
        ids.map_values(|w: WireId| WireStateId::spec_new(w.spec_index()))
    }

    /// `self` is `old` with a new wire of the given width, in high impedance
    pub open spec fn wire_added(&self, old: &SimulatorData, bit_width: BitWidth) -> bool {
        let n = old.wire_count();
        &&& self.wire_count() == n + 1
        &&& self.spec_wires().drop_last() == old.spec_wires()
        &&& self.spec_wires().last().spec_bit_width() == bit_width
        &&& self.spec_wires().last().spec_drivers().len() == 0
        &&& self.spec_wires().last().spec_driving().len() == 0
        &&& self.spec_wire_states().spec_entries() == old.spec_wire_states().spec_entries().push(
            (LogicState::spec_high_z(bit_width), LogicState::spec_high_z(bit_width)),
        )
        &&& self.state_of(n as int) == LogicState::spec_high_z(bit_width)
        &&& self.drive_of(n as int) == LogicState::spec_high_z(bit_width)
        &&& forall|w: int| 0 <= w < n ==> #[trigger] self.drive_of(w) == old.drive_of(w) && self.state_of(w)
            == old.state_of(w)
        &&& self.spec_components() == old.spec_components()
        &&& self.spec_output_states() == old.spec_output_states()
        &&& self.spec_wire_names() == old.spec_wire_names()
        &&& self.spec_component_names() == old.spec_component_names()
    }

    /// `self` is `old` with a new component computing `kind` onto `output`: the component gets
    /// the next ID, its output state starts in high impedance, the output wire gains it as a
    /// driver and every wire it reads gains it as a reader
    pub open spec fn component_added(&self, old: &SimulatorData, kind: ComponentKind, output: WireId) -> bool {
        let c = old.component_count();
        &&& self.component_count() == c + 1
        &&& self.spec_components().drop_last() == old.spec_components()
        &&& self.spec_components().last().spec_kind() == kind
        &&& self.spec_components().last().spec_output_wire() == output
        &&& self.spec_components().last().spec_output_state() == OutputStateId::spec_new(c as u32)
        &&& self.spec_output_states().spec_states() == old.spec_output_states().spec_states().push(
            LogicState::spec_high_z(old.wire_width(output)),
        )
        &&& self.spec_wire_states() == old.spec_wire_states()
        &&& self.wire_count() == old.wire_count()
        &&& forall|w: int|
            0 <= w < self.wire_count() ==> {
                let new_wire = #[trigger] self.spec_wires()[w];
                let old_wire = old.spec_wires()[w];
                &&& new_wire.spec_bit_width() == old_wire.spec_bit_width()
                &&& new_wire.spec_state_id() == old_wire.spec_state_id()
                &&& new_wire.spec_drivers() == if w == output.spec_index() {
                    old_wire.spec_drivers().push(OutputStateId::spec_new(c as u32))
                } else {
                    old_wire.spec_drivers()
                }
                &&& new_wire.spec_driving() == if kind.inputs().contains(WireStateId::spec_new(w as u32)) {
                    old_wire.spec_driving().push(ComponentId::spec_new(c as u32))
                } else {
                    old_wire.spec_driving()
                }
            }
        &&& self.spec_wire_queue() == old.spec_wire_queue()
        &&& self.spec_component_queue() == old.spec_component_queue()
        &&& self.spec_wire_names() == old.spec_wire_names()
        &&& self.spec_component_names() == old.spec_component_names()
    }

    /// Adds a wire in high impedance
    fn add_wire(&mut self, bit_width: BitWidth) -> (r: Result<WireId, AddWireError>)
        requires
            old(self).wf(),
        ensures
            final(self).wf(),
            old(self).wire_count() < MAX_STATE_COUNT ==> (r matches Ok(id) && id.spec_index()
                == old(self).wire_count() && final(self).wire_added(&*old(self), bit_width)),
            old(self).wire_count() >= MAX_STATE_COUNT ==> r == Err::<WireId, AddWireError>(
                AddWireError::TooManyWires,
            ) && *final(self) == *old(self),
    {
        let n = self.wires.len();
        if n >= MAX_STATE_COUNT {
            return Err(AddWireError::TooManyWires);
        }
        let state_id = match self.wire_states.push(bit_width) {
            Ok(id) => id,
            Err(_) => {
                return Err(AddWireError::TooManyWires);
            },
        };
        let ghost s0 = *old(self);
        self.wires.push(Wire::new(bit_width, state_id));
        proof {
            LogicState::lemma_filled(bit_width, 0, 0xffff_ffff);
            assert(self.spec_wires().drop_last() =~= s0.spec_wires());
            assert forall|w: int| 0 <= w < self.wire_count() implies #[trigger] self.wire_wf(w) by {
                if w < n {
                    assert(s0.wire_wf(w));
                    assert(self.spec_wires()[w] == s0.spec_wires()[w]);
                    assert(self.state_of(w) == s0.state_of(w));
                    assert(self.drive_of(w) == s0.drive_of(w));
                }
            }
            assert forall|c: int| 0 <= c < self.component_count() implies #[trigger] self.component_wf(c) by {
                assert(s0.component_wf(c));
                let comp = self.spec_components()[c];
                let kind = comp.spec_kind();
                assert(self.spec_wires()[comp.spec_output_wire().spec_index() as int] == s0.spec_wires()[comp.spec_output_wire().spec_index() as int]);
                assert forall|m: int| 0 <= m < kind.inputs().len() implies self.spec_wires()[(#[trigger] kind.inputs()[m]).spec_index() as int].spec_driving().contains(ComponentId::spec_new(c as u32)) by {
                    assert(self.spec_wires()[kind.inputs()[m].spec_index() as int] == s0.spec_wires()[kind.inputs()[m].spec_index() as int]);
                }
                kind.lemma_fits_grow(s0.spec_wire_states().spec_states(), self.spec_wire_states().spec_states(), self.output_of(c).bit_width());
            }
            assert forall|m: int| 0 <= m < self.spec_wire_queue().len() implies #[trigger] self.spec_wire_queue()[m]
                < self.wire_count() by {
                assert(s0.spec_wire_queue()[m] < s0.wire_count());
            }
            assert forall|m: int| 0 <= m < self.spec_component_queue().len() implies #[trigger] self.spec_component_queue()[m]
                < self.component_count() by {
                assert(s0.spec_component_queue()[m] < s0.component_count());
            }
        }
        Ok(WireId::new(n as u32))
    }

    /// Adds a component computing `kind` onto `output`
    fn add_component(&mut self, kind: ComponentKind, output: WireId) -> (r: Result<
        ComponentId,
        AddComponentError,
    >)
        requires
            old(self).wf(),
            old(self).has_wire(output),
            kind.fits(old(self).spec_wire_states().spec_states(), old(self).wire_width(output)),
        ensures
            final(self).wf(),
            old(self).component_count() < MAX_STATE_COUNT ==> (r matches Ok(id) && id.spec_index()
                == old(self).component_count() && final(self).component_added(&*old(self), kind, output)),
            old(self).component_count() >= MAX_STATE_COUNT ==> r == Err::<ComponentId, AddComponentError>(
                AddComponentError::TooManyComponents,
            ) && *final(self) == *old(self),
    {
        broadcast use {ComponentId::lemma_new_index, WireStateId::lemma_new_index, OutputStateId::lemma_new_index};
        let c = self.components.len();
        if c >= MAX_STATE_COUNT {
            return Err(AddComponentError::TooManyComponents);
        }
        let ghost s0 = *old(self);
        let width = self.wires[output.index()].bit_width();
        let out_state = match self.output_states.push(width) {
            Ok(id) => id,
            Err(_) => {
                return Err(AddComponentError::TooManyComponents);
            },
        };
        let id = ComponentId::new(c as u32);
        proof {
            OutputStateId::lemma_new_index(c as u32);
            OutputStateId::lemma_index_injective(out_state, OutputStateId::spec_new(c as u32));
        }
        let count = kind.input_count();
        let mut n: usize = 0;
        while n < count
            invariant
                s0.wf(),
                n <= count == kind.inputs().len(),
                c == s0.component_count(),
                id == ComponentId::spec_new(c as u32),
                kind.fits(s0.spec_wire_states().spec_states(), s0.wire_width(output)),
                self.wire_count() == s0.wire_count(),
                self.spec_components() == s0.spec_components(),
                self.spec_wire_states() == s0.spec_wire_states(),
                self.spec_output_states().spec_states() == s0.spec_output_states().spec_states().push(
                    LogicState::spec_high_z(width),
                ),
                width == s0.wire_width(output),
                out_state == OutputStateId::spec_new(c as u32),
                self.spec_wire_queue() == s0.spec_wire_queue(),
                self.spec_component_queue() == s0.spec_component_queue(),
                self.spec_wire_names() == s0.spec_wire_names(),
                self.spec_component_names() == s0.spec_component_names(),
                forall|w: int|
                    0 <= w < self.wire_count() ==> {
                        let new_wire = #[trigger] self.spec_wires()[w];
                        let old_wire = s0.spec_wires()[w];
                        &&& new_wire.spec_bit_width() == old_wire.spec_bit_width()
                        &&& new_wire.spec_state_id() == old_wire.spec_state_id()
                        &&& new_wire.spec_drivers() == old_wire.spec_drivers()
                        &&& new_wire.spec_driving() == if kind.inputs().take(n as int).contains(
                            WireStateId::spec_new(w as u32),
                        ) {
                            old_wire.spec_driving().push(ComponentId::spec_new(c as u32))
                        } else {
                            old_wire.spec_driving()
                        }
                    },
            decreases count - n,
        {
            let input = kind.input(n);
            proof {
                assert(kind.inputs()[n as int] == input);
                assert(input.spec_index() < s0.wire_count());
            }
            let i = input.index();
            let ghost before = self.spec_wires();
            self.wires[i].add_driving(id);
            proof {
                assert(kind.inputs().take(n + 1) == kind.inputs().take(n as int).push(input));
                assert(WireStateId::spec_new(i as u32) == input) by {
                    WireStateId::lemma_new_index(i as u32);
                    WireStateId::lemma_index_injective(WireStateId::spec_new(i as u32), input);
                }
                assert(kind.inputs().take(n + 1)[n as int] == input);
                assert forall|w: int| 0 <= w < self.wire_count() implies {
                    let new_wire = #[trigger] self.spec_wires()[w];
                    let old_wire = s0.spec_wires()[w];
                    &&& new_wire.spec_bit_width() == old_wire.spec_bit_width()
                    &&& new_wire.spec_state_id() == old_wire.spec_state_id()
                    &&& new_wire.spec_drivers() == old_wire.spec_drivers()
                    &&& new_wire.spec_driving() == if kind.inputs().take(n + 1).contains(
                        WireStateId::spec_new(w as u32),
                    ) {
                        old_wire.spec_driving().push(ComponentId::spec_new(c as u32))
                    } else {
                        old_wire.spec_driving()
                    }
                } by {
                    assert(s0.wire_wf(w));
                    let sid = WireStateId::spec_new(w as u32);
                    if w == i {
                        assert(kind.inputs().take(n + 1).contains(sid));
                        if !kind.inputs().take(n as int).contains(sid) {
                            let old_driving = s0.spec_wires()[w].spec_driving();
                            ComponentId::lemma_new_index(c as u32);
                            assert(id.spec_index() == c);
                            if old_driving.contains(id) {
                                let m = choose|m: int| 0 <= m < old_driving.len() && old_driving[m] == id;
                                assert(old_driving[m].spec_index() < c);
                            }
                            assert(before[w].spec_driving() == old_driving);
                            assert(!before[w].spec_driving().contains(id));
                            assert(self.spec_wires()[w].spec_driving() == old_driving.push(id));
                        } else {
                            let d = before[w].spec_driving();
                            assert(d == s0.spec_wires()[w].spec_driving().push(ComponentId::spec_new(c as u32)));
                            assert(d[d.len() - 1] == id);
                            assert(d.contains(id));
                        }
                    } else {
                        assert(self.spec_wires()[w] == before[w]);
                        if kind.inputs().take(n + 1).contains(sid) {
                            let m = choose|m: int| 0 <= m < n + 1 && #[trigger] kind.inputs().take(n + 1)[m] == sid;
                            if m == n {
                                WireStateId::lemma_new_index(w as u32);
                                WireStateId::lemma_new_index(i as u32);
                                assert(sid.spec_index() == w);
                            }
                            assert(kind.inputs().take(n as int)[m] == sid);
                        }
                    }
                }
            }
            n = n + 1;
        }
        let o = output.index();
        let ghost before = self.spec_wires();
        self.wires[o].add_driver(out_state);
        self.components.push(Component::new(kind, out_state, output));
        proof {
            assert(kind.inputs().take(count as int) =~= kind.inputs());
            assert(self.spec_components().drop_last() =~= s0.spec_components());
            assert forall|w: int| 0 <= w < self.wire_count() && w != o implies #[trigger] self.spec_wires()[w]
                == before[w] by {}
            LogicState::lemma_filled(width, 0, 0xffff_ffff);
            assert(self.output_of(c as int) == LogicState::spec_high_z(width));
            assert forall|w: int| 0 <= w < self.wire_count() implies #[trigger] self.wire_wf(w) by {
                assert(s0.wire_wf(w));
                let wire = self.spec_wires()[w];
                assert(self.state_of(w) == s0.state_of(w));
                assert(self.drive_of(w) == s0.drive_of(w));
                assert forall|m: int| 0 <= m < wire.spec_drivers().len() implies {
                    let d = (#[trigger] wire.spec_drivers()[m]).spec_index() as int;
                    &&& d < self.component_count()
                    &&& self.spec_components()[d].spec_output_wire().spec_index() == w
                } by {
                    let old_drivers = s0.spec_wires()[w].spec_drivers();
                    if m < old_drivers.len() {
                        assert(wire.spec_drivers()[m] == old_drivers[m]);
                        assert(self.spec_components()[old_drivers[m].spec_index() as int] == s0.spec_components()[old_drivers[m].spec_index() as int]);
                    }
                }
                assert forall|m: int| 0 <= m < wire.spec_driving().len() implies (#[trigger] wire.spec_driving()[m]).spec_index()
                    < self.component_count() by {
                    let old_driving = s0.spec_wires()[w].spec_driving();
                    if m < old_driving.len() {
                        assert(wire.spec_driving()[m] == old_driving[m]);
                    }
                }
            }
            assert forall|d: int| 0 <= d < self.component_count() implies #[trigger] self.component_wf(d) by {
                let comp = self.spec_components()[d];
                let k = comp.spec_kind();
                if d < c {
                    assert(s0.component_wf(d));
                    assert(comp == s0.spec_components()[d]);
                    assert(self.output_of(d) == s0.output_of(d));
                    assert forall|m: int| 0 <= m < k.inputs().len() implies self.spec_wires()[(#[trigger] k.inputs()[m]).spec_index() as int].spec_driving().contains(ComponentId::spec_new(d as u32)) by {
                        let w = k.inputs()[m].spec_index() as int;
                        let old_driving = s0.spec_wires()[w].spec_driving();
                        assert(old_driving.contains(ComponentId::spec_new(d as u32)));
                        let j = choose|j: int| 0 <= j < old_driving.len() && old_driving[j] == ComponentId::spec_new(d as u32);
                        assert(self.spec_wires()[w].spec_driving()[j] == old_driving[j]);
                    }
                } else {
                    assert(comp == Component::spec_make(kind, out_state, output));
                    assert forall|m: int| 0 <= m < k.inputs().len() implies self.spec_wires()[(#[trigger] k.inputs()[m]).spec_index() as int].spec_driving().contains(ComponentId::spec_new(d as u32)) by {
                        let sid = k.inputs()[m];
                        let w = sid.spec_index() as int;
                        assert(WireStateId::spec_new(w as u32) == sid) by {
                            WireStateId::lemma_new_index(w as u32);
                            WireStateId::lemma_index_injective(WireStateId::spec_new(w as u32), sid);
                        }
                        assert(kind.inputs().contains(sid));
                        let driving = self.spec_wires()[w].spec_driving();
                        assert(driving[driving.len() - 1] == ComponentId::spec_new(c as u32));
                    }
                }
            }
            assert forall|m: int| 0 <= m < self.spec_wire_queue().len() implies #[trigger] self.spec_wire_queue()[m]
                < self.wire_count() by {
                assert(s0.spec_wire_queue()[m] < s0.wire_count());
            }
            assert forall|m: int| 0 <= m < self.spec_component_queue().len() implies #[trigger] self.spec_component_queue()[m]
                < self.component_count() by {
                assert(s0.spec_component_queue()[m] < s0.component_count());
            }
            assert forall|w: int| 0 <= w < self.wire_count() implies {
                let new_wire = #[trigger] self.spec_wires()[w];
                let old_wire = s0.spec_wires()[w];
                &&& new_wire.spec_drivers() == if w == output.spec_index() {
                    old_wire.spec_drivers().push(OutputStateId::spec_new(c as u32))
                } else {
                    old_wire.spec_drivers()
                }
                &&& new_wire.spec_driving() == if kind.inputs().contains(WireStateId::spec_new(w as u32)) {
                    old_wire.spec_driving().push(ComponentId::spec_new(c as u32))
                } else {
                    old_wire.spec_driving()
                }
            } by {}
        }
        Ok(id)
    }

    /// Checking that a wire exists and has the given width
    pub open spec fn width_eq_outcome(&self, w: WireId, width: BitWidth) -> Result<(), AddComponentError> {
        if !self.has_wire(w) {
            Err(AddComponentError::InvalidWireId)
        } else if self.wire_width(w) != width {
            Err(AddComponentError::WireWidthIncompatible)
        } else {
            Ok(())
        }
    }

    /// Checking that the wires exist and share one width, with the width forgotten
    pub open spec fn same_width_outcome(&self, ids: Seq<WireId>) -> Result<(), AddComponentError> {
        match self.widths_outcome(ids) {
            Ok(_) => Ok(()),
            Err(e) => Err(e),
        }
    }

    /// The checks of a gate: at least two inputs, all of the width of the output
    pub open spec fn gate_outcome(&self, inputs: Seq<WireId>, output: WireId) -> Result<(), AddComponentError> {
        if inputs.len() < 2 {
            Err(AddComponentError::TooFewInputs)
        } else {
            self.same_width_outcome(inputs.push(output))
        }
    }

    /// The checks of a buffer: input and output of one width, then an enable of width 1
    pub open spec fn buffer_outcome(&self, input: WireId, enable: WireId, output: WireId) -> Result<
        (),
        AddComponentError,
    > {
        match self.same_width_outcome(seq![input, output]) {
            Ok(_) => self.width_eq_outcome(enable, BitWidth::spec_min()),
            Err(e) => Err(e),
        }
    }

    /// The most recently added component performs `op` on the wires `inputs`, onto `output`
    pub open spec fn added_as(
        &self,
        old: &SimulatorData,
        op: ComponentOp,
        inputs: Seq<WireId>,
        output: WireId,
    ) -> bool {
        let kind = self.spec_components().last().spec_kind();
        &&& self.component_added(old, kind, output)
        &&& kind.op() == op
        &&& kind.inputs() == old.state_ids(inputs)
    }

    /// What adding a component returns and leaves, given the outcome of its checks: the error
    /// of the first failed check, `TooManyComponents` when the simulation is full, or the ID
    /// of the new component; nothing changes unless the component is added
    pub open spec fn add_outcome(
        &self,
        old: &SimulatorData,
        r: Result<ComponentId, AddComponentError>,
        check: Result<(), AddComponentError>,
        op: ComponentOp,
        inputs: Seq<WireId>,
        output: WireId,
    ) -> bool {
        match check {
            Err(e) => r == Err::<ComponentId, AddComponentError>(e) && *self == *old,
            Ok(_) => if old.component_count() >= MAX_STATE_COUNT {
                r == Err::<ComponentId, AddComponentError>(AddComponentError::TooManyComponents)
                    && *self == *old
            } else {
                &&& r matches Ok(id)
                &&& id.spec_index() == old.component_count()
                &&& self.added_as(old, op, inputs, output)
            },
        }
    }

    /// Checks that the wires exist and share the width of the first
    fn check_wire_widths_match(&self, wires: &[WireId]) -> (r: Result<BitWidth, AddComponentError>)
        requires
            wires@.len() >= 1,
        ensures
            r == self.widths_outcome(wires@),
    {
        let first = wires[0];
        if first.index() >= self.wires.len() {
            return Err(AddComponentError::InvalidWireId);
        }
        let width = self.wires[first.index()].bit_width();
        let mut k: usize = 1;
        while k < wires.len()
            invariant
                1 <= k <= wires@.len(),
                self.has_wire(wires@[0]),
                width == self.wire_width(wires@[0]),
                self.widths_outcome(wires@) == self.widths_from(wires@, width, k as int),
            decreases wires@.len() - k,
        {
            let w = wires[k];
            if w.index() >= self.wires.len() {
                return Err(AddComponentError::InvalidWireId);
            }
            if self.wires[w.index()].bit_width() != width {
                return Err(AddComponentError::WireWidthMismatch);
            }
            k = k + 1;
        }
        Ok(width)
    }

    /// Checks that a wire exists and has the given width
    fn check_wire_width_eq(&self, wire: WireId, width: BitWidth) -> (r: Result<(), AddComponentError>)
        ensures
            r == self.width_eq_outcome(wire, width),
    {
        if wire.index() >= self.wires.len() {
            return Err(AddComponentError::InvalidWireId);
        }
        if self.wires[wire.index()].bit_width() != width {
            return Err(AddComponentError::WireWidthIncompatible);
        }
        Ok(())
    }

    /// A component whose checks passed fits the simulation
    proof fn lemma_fits(&self, kind: ComponentKind, ids: Seq<WireId>, width: BitWidth)
        requires
            self.wf(),
            forall|m: int| 0 <= m < ids.len() ==> self.has_wire(#[trigger] ids[m]),
            kind.inputs() == self.state_ids(ids),
            forall|m: int|
                0 <= m < kind.same_width_inputs().len() ==> exists|k: int|
                    0 <= k < ids.len() && self.wire_width(ids[k]) == width && #[trigger] kind.same_width_inputs()[m]
                        == WireStateId::spec_new(ids[k].spec_index()),
            kind matches ComponentKind::WideGate { inputs, .. } ==> id_list(inputs).len() >= 2,
        ensures
            kind.fits(self.spec_wire_states().spec_states(), width),
    {
        broadcast use WireStateId::lemma_new_index;
        let states = self.spec_wire_states().spec_states();
        assert forall|n: int| 0 <= n < kind.inputs().len() implies (#[trigger] kind.inputs()[n]).spec_index()
            < states.len() by {
            assert(self.has_wire(ids[n]));
        }
        assert forall|n: int|
            0 <= n < kind.same_width_inputs().len() implies wire_state(
            states,
            #[trigger] kind.same_width_inputs()[n],
        ).bit_width() == width by {
            let k = choose|k: int|
                0 <= k < ids.len() && self.wire_width(ids[k]) == width && #[trigger] kind.same_width_inputs()[n]
                    == WireStateId::spec_new(ids[k].spec_index());
            let w = ids[k].spec_index() as int;
            assert(self.wire_wf(w));
        }
    }

    /// Adds a gate with two or more inputs
    fn add_gate(&mut self, kind: GateKind, inputs: &[WireId], output: WireId) -> (r: Result<
        ComponentId,
        AddComponentError,
    >)
        requires
            old(self).wf(),
        ensures
            final(self).wf(),
            final(self).add_outcome(
                &*old(self),
                r,
                old(self).gate_outcome(inputs@, output),
                ComponentOp::Gate(kind),
                inputs@,
                output,
            ),
    {
        broadcast use WireStateId::lemma_new_index;
        if inputs.len() < 2 {
            return Err(AddComponentError::TooFewInputs);
        }
        let mut all: Vec<WireId> = Vec::new();
        let mut k: usize = 0;
        while k < inputs.len()
            invariant
                k <= inputs@.len(),
                all@ == inputs@.take(k as int),
            decreases inputs@.len() - k,
        {
            all.push(inputs[k]);
            k = k + 1;
            assert(all@ =~= inputs@.take(k as int));
        }
        all.push(output);
        assert(all@ =~= inputs@.push(output));
        let width = match self.check_wire_widths_match(all.as_slice()) {
            Ok(w) => w,
            Err(e) => {
                return Err(e);
            },
        };
        proof {
            self.lemma_widths_from_width(all@, self.wire_width(all@[0]), 1);
            self.lemma_widths_ok(all@, width, 1);
        }
        let mut ids: Vec<WireStateId> = Vec::new();
        let mut k: usize = 0;
        while k < inputs.len()
            invariant
                k <= inputs@.len(),
                all@ == inputs@.push(output),
                forall|m: int| 1 <= m < all@.len() ==> self.has_wire(#[trigger] all@[m]) && self.wire_width(all@[m]) == width,
                self.has_wire(all@[0]),
                self.wire_width(all@[0]) == width,
                ids@ == self.state_ids(inputs@).take(k as int),
            decreases inputs@.len() - k,
        {
            ids.push(WireStateId::new(inputs[k].index() as u32));
            k = k + 1;
            assert(ids@ =~= self.state_ids(inputs@).take(k as int));
        }
        assert(ids@ =~= self.state_ids(inputs@));
        let component = if inputs.len() == 2 {
            ComponentKind::Gate { kind, input_a: ids[0], input_b: ids[1] }
        } else {
            let mut list = id_list_new();
            let mut k: usize = 0;
            while k < inputs.len()
                invariant
                    k <= inputs@.len(),
                    id_list(list) == inputs@.take(k as int).map_values(|w: WireId| w.spec_index()),
                decreases inputs@.len() - k,
            {
                id_list_push(&mut list, inputs[k].index() as u32);
                k = k + 1;
                assert(id_list(list) =~= inputs@.take(k as int).map_values(|w: WireId| w.spec_index()));
            }
            assert(inputs@.take(k as int) =~= inputs@);
            let ghost listed = id_list(list);
            assert(crate::component::state_ids_of(list) =~= self.state_ids(inputs@)) by {
                assert forall|m: int| 0 <= m < listed.len() implies crate::component::state_ids_of(list)[m]
                    == self.state_ids(inputs@)[m] by {
                    assert(listed[m] == inputs@[m].spec_index());
                }
            }
            ComponentKind::WideGate { kind, inputs: list }
        };
        proof {
            assert(component.inputs() =~= self.state_ids(inputs@));
            assert forall|m: int| 0 <= m < component.same_width_inputs().len() implies exists|j: int|
                0 <= j < all@.len() && self.wire_width(all@[j]) == width && #[trigger] component.same_width_inputs()[m]
                    == WireStateId::spec_new(all@[j].spec_index()) by {
                assert(all@[m] == inputs@[m]);
                assert(self.wire_width(all@[m]) == width);
            }
            assert forall|m: int| 0 <= m < all@.len() implies self.has_wire(#[trigger] all@[m]) by {}
            assert forall|m: int| 0 <= m < inputs@.len() implies self.has_wire(#[trigger] inputs@[m]) by {
                assert(all@[m] == inputs@[m]);
            }
            assert forall|m: int| 0 <= m < component.inputs().len() implies (#[trigger] component.inputs()[m])
                == WireStateId::spec_new(all@[m].spec_index()) by {
                assert(all@[m] == inputs@[m]);
            }
            self.lemma_fits(component, inputs@, width);
            assert(all@[all@.len() - 1] == output);
        }
        self.add_component(component, output)
    }

    /// Adds a component with one input of the width of its output
    fn add_unary(&mut self, op: ComponentOp, input: WireId, output: WireId) -> (r: Result<
        ComponentId,
        AddComponentError,
    >)
        requires
            old(self).wf(),
            op == ComponentOp::Not || op == ComponentOp::Neg,
        ensures
            final(self).wf(),
            final(self).add_outcome(
                &*old(self),
                r,
                old(self).same_width_outcome(seq![input, output]),
                op,
                seq![input],
                output,
            ),
    {
        broadcast use WireStateId::lemma_new_index;
        let ids = vec![input, output];
        assert(ids@ =~= seq![input, output]);
        let width = match self.check_wire_widths_match(ids.as_slice()) {
            Ok(w) => w,
            Err(e) => {
                return Err(e);
            },
        };
        proof {
            self.lemma_widths_from_width(ids@, self.wire_width(ids@[0]), 1);
            self.lemma_widths_ok(ids@, width, 1);
        }
        let a = WireStateId::new(input.index() as u32);
        let component = match op {
            ComponentOp::Not => ComponentKind::NotGate { input: a },
            _ => ComponentKind::Neg { input: a },
        };
        proof {
            assert(component.inputs() =~= self.state_ids(seq![input]));
            assert(component.same_width_inputs()[0] == WireStateId::spec_new(seq![input][0].spec_index()));
            self.lemma_fits(component, seq![input], width);
        }
        self.add_component(component, output)
    }

    /// Adds a component with two inputs of the width of its output
    fn add_binary(&mut self, op: ComponentOp, input_a: WireId, input_b: WireId, output: WireId) -> (r: Result<
        ComponentId,
        AddComponentError,
    >)
        requires
            old(self).wf(),
            op == ComponentOp::Add || op == ComponentOp::Sub || op == ComponentOp::Mul,
        ensures
            final(self).wf(),
            final(self).add_outcome(
                &*old(self),
                r,
                old(self).same_width_outcome(seq![input_a, input_b, output]),
                op,
                seq![input_a, input_b],
                output,
            ),
    {
        broadcast use WireStateId::lemma_new_index;
        let ids = vec![input_a, input_b, output];
        assert(ids@ =~= seq![input_a, input_b, output]);
        let width = match self.check_wire_widths_match(ids.as_slice()) {
            Ok(w) => w,
            Err(e) => {
                return Err(e);
            },
        };
        proof {
            self.lemma_widths_from_width(ids@, self.wire_width(ids@[0]), 1);
            self.lemma_widths_ok(ids@, width, 1);
        }
        let a = WireStateId::new(input_a.index() as u32);
        let b = WireStateId::new(input_b.index() as u32);
        let component = match op {
            ComponentOp::Add => ComponentKind::Add { input_a: a, input_b: b },
            ComponentOp::Sub => ComponentKind::Sub { input_a: a, input_b: b },
            _ => ComponentKind::Mul { input_a: a, input_b: b },
        };
        proof {
            assert(component.inputs() =~= self.state_ids(seq![input_a, input_b]));
            assert(component.same_width_inputs()[0] == WireStateId::spec_new(ids@[0].spec_index()));
            assert(component.same_width_inputs()[1] == WireStateId::spec_new(ids@[1].spec_index()));
            self.lemma_fits(component, seq![input_a, input_b], width);
        }
        self.add_component(component, output)
    }

    /// Adds a tri-state buffer
    fn add_buffer(&mut self, input: WireId, enable: WireId, output: WireId) -> (r: Result<
        ComponentId,
        AddComponentError,
    >)
        requires
            old(self).wf(),
        ensures
            final(self).wf(),
            final(self).add_outcome(
                &*old(self),
                r,
                old(self).buffer_outcome(input, enable, output),
                ComponentOp::Buffer,
                seq![input, enable],
                output,
            ),
    {
        broadcast use WireStateId::lemma_new_index;
        let ids = vec![input, output];
        assert(ids@ =~= seq![input, output]);
        let width = match self.check_wire_widths_match(ids.as_slice()) {
            Ok(w) => w,
            Err(e) => {
                return Err(e);
            },
        };
        proof {
            self.lemma_widths_from_width(ids@, self.wire_width(ids@[0]), 1);
            self.lemma_widths_ok(ids@, width, 1);
        }
        if let Err(e) = self.check_wire_width_eq(enable, BitWidth::min_width()) {
            return Err(e);
        }
        let a = WireStateId::new(input.index() as u32);
        let en = WireStateId::new(enable.index() as u32);
        let component = ComponentKind::Buffer { input: a, enable: en };
        proof {
            assert(component.inputs() =~= self.state_ids(seq![input, enable]));
            assert(component.same_width_inputs()[0] == WireStateId::spec_new(ids@[0].spec_index()));
            self.lemma_fits(component, seq![input, enable], width);
        }
        self.add_component(component, output)
    }

    /// `self` is `old` with the drive of wire `w` holding the bits `drive`
    pub open spec fn drive_set(&self, old: &SimulatorData, w: int, drive: Seq<crate::logic_bit::LogicBitState>) -> bool {
        &&& self.spec_wires() == old.spec_wires()
        &&& self.spec_components() == old.spec_components()
        &&& self.spec_output_states() == old.spec_output_states()
        &&& self.spec_wire_queue() == old.spec_wire_queue()
        &&& self.spec_component_queue() == old.spec_component_queue()
        &&& self.spec_wire_names() == old.spec_wire_names()
        &&& self.spec_component_names() == old.spec_component_names()
        &&& self.spec_wire_states().spec_len() == old.spec_wire_states().spec_len()
        &&& forall|v: int|
            0 <= v < self.wire_count() && v != w ==> #[trigger] self.spec_wire_states().spec_entries()[v]
                == old.spec_wire_states().spec_entries()[v]
        &&& self.state_of(w) == old.state_of(w)
        &&& self.drive_of(w).bit_width() == old.drive_of(w).bit_width()
        &&& self.drive_of(w)@ == drive
    }

    /// Drives a wire to a state, of the width of the wire
    fn set_wire_drive<'a, D: IntoLogicStateRef<'a>>(&mut self, wire: WireId, new_drive: D) -> (r: Result<
        (),
        SetWireDriveError,
    >)
        requires
            old(self).wf(),
        ensures
            final(self).wf(),
            !old(self).has_wire(wire) ==> r == Err::<(), SetWireDriveError>(SetWireDriveError::InvalidWireId)
                && *final(self) == *old(self),
            old(self).has_wire(wire) && new_drive.spec_target().bit_width() != old(self).wire_width(wire)
                ==> r == Err::<(), SetWireDriveError>(SetWireDriveError::InvalidBitWidth) && *final(self)
                == *old(self),
            old(self).has_wire(wire) && new_drive.spec_target().bit_width() == old(self).wire_width(wire)
                ==> r is Ok && final(self).drive_set(&*old(self), wire.spec_index() as int, new_drive.spec_target()@),
    {
        let w = wire.index();
        if w >= self.wires.len() {
            return Err(SetWireDriveError::InvalidWireId);
        }
        proof {
            assert(self.wire_wf(w as int));
        }
        let new_drive = new_drive.into_logic_state_ref();
        let sid = self.wires[w].state_id();
        if new_drive.bit_width().get() != self.wires[w].bit_width().get() {
            proof {
                broadcast use BitWidth::lemma_width_injective;
            }
            return Err(SetWireDriveError::InvalidBitWidth);
        }
        proof {
            broadcast use BitWidth::lemma_width_injective;
        }
        let source = new_drive.to_owned();
        let mut drive = *self.wire_states.get_drive(sid);
        let _ = drive.copy_from(&source);
        let ghost s0 = *self;
        self.wire_states.set_drive(sid, drive);
        proof {
            assert(self.spec_wire_states().spec_drives() =~= s0.spec_wire_states().spec_drives().update(w as int, drive));
            assert forall|v: int| 0 <= v < self.wire_count() implies #[trigger] self.wire_wf(v) by {
                assert(s0.wire_wf(v));
                assert(self.state_of(v) == s0.state_of(v));
            }
            assert forall|c: int| 0 <= c < self.component_count() implies #[trigger] self.component_wf(c) by {
                assert(s0.component_wf(c));
                assert(self.spec_wire_states().spec_states() =~= s0.spec_wire_states().spec_states());
            }
            assert forall|m: int| 0 <= m < self.spec_wire_queue().len() implies #[trigger] self.spec_wire_queue()[m]
                < self.wire_count() by {
                assert(s0.spec_wire_queue()[m] < s0.wire_count());
            }
            assert forall|m: int| 0 <= m < self.spec_component_queue().len() implies #[trigger] self.spec_component_queue()[m]
                < self.component_count() by {
                assert(s0.spec_component_queue()[m] < s0.component_count());
            }
        }
        Ok(())
    }

    /// The current state and drive of a wire
    fn get_wire_state_and_drive(&self, wire: WireId) -> (r: Result<[LogicStateRef<'_>; 2], InvalidWireIdError>)
        requires
            self.wf(),
        ensures
            r is Ok <==> self.has_wire(wire),
            r matches Ok(refs) ==> refs[0].spec_state() == self.state_of(wire.spec_index() as int)
                && refs[1].spec_state() == self.drive_of(wire.spec_index() as int),
    {
        let w = wire.index();
        if w >= self.wires.len() {
            return Err(InvalidWireIdError);
        }
        proof {
            assert(self.wire_wf(w as int));
        }
        let sid = self.wires[w].state_id();
        Ok([self.wire_states.get_state(sid).borrow(), self.wire_states.get_drive(sid).borrow()])
    }

    /// Assigns a name to a wire
    fn set_wire_name(&mut self, wire: WireId, name: &str) -> (r: Result<(), InvalidWireIdError>)
        requires
            old(self).wf(),
        ensures
            final(self).wf(),
            r is Ok <==> old(self).has_wire(wire),
            r is Err ==> *final(self) == *old(self),
            r is Ok ==> final(self).spec_wire_names() == old(self).spec_wire_names().insert(
                wire.spec_index(),
                name@,
            ) && final(self).same_but_names(&*old(self)) && final(self).spec_component_names()
                == old(self).spec_component_names(),
    {
        if wire.index() >= self.wires.len() {
            return Err(InvalidWireIdError);
        }
        let ghost s0 = *self;
        names_insert(&mut self.wire_names, wire.to_bits(), name.to_owned());
        proof {
            self.lemma_wf_names(&s0);
        }
        Ok(())
    }

    /// The name of a wire, if one has been assigned
    fn get_wire_name(&self, wire: WireId) -> (r: Result<Option<&str>, InvalidWireIdError>)
        ensures
            r is Ok <==> self.has_wire(wire),
            r matches Ok(name) ==> (name is Some <==> self.spec_wire_names().contains_key(wire.spec_index())),
            r matches Ok(Some(name)) ==> name@ == self.spec_wire_names()[wire.spec_index()],
    {
        if wire.index() >= self.wires.len() {
            return Err(InvalidWireIdError);
        }
        match names_get(&self.wire_names, wire.to_bits()) {
            Some(name) => Ok(Some(name.as_str())),
            None => Ok(None),
        }
    }

    /// Assigns a name to a component
    fn set_component_name(&mut self, component: ComponentId, name: &str) -> (r: Result<(), InvalidComponentIdError>)
        requires
            old(self).wf(),
        ensures
            final(self).wf(),
            r is Ok <==> old(self).has_component(component),
            r is Err ==> *final(self) == *old(self),
            r is Ok ==> final(self).spec_component_names() == old(self).spec_component_names().insert(
                component.spec_index(),
                name@,
            ) && final(self).same_but_names(&*old(self)) && final(self).spec_wire_names()
                == old(self).spec_wire_names(),
    {
        if component.index() >= self.components.len() {
            return Err(InvalidComponentIdError);
        }
        let ghost s0 = *self;
        names_insert(&mut self.component_names, component.to_bits(), name.to_owned());
        proof {
            self.lemma_wf_names(&s0);
        }
        Ok(())
    }

    /// The name of a component, if one has been assigned
    fn get_component_name(&self, component: ComponentId) -> (r: Result<Option<&str>, InvalidComponentIdError>)
        ensures
            r is Ok <==> self.has_component(component),
            r matches Ok(name) ==> (name is Some <==> self.spec_component_names().contains_key(component.spec_index())),
            r matches Ok(Some(name)) ==> name@ == self.spec_component_names()[component.spec_index()],
    {
        if component.index() >= self.components.len() {
            return Err(InvalidComponentIdError);
        }
        match names_get(&self.component_names, component.to_bits()) {
            Some(name) => Ok(Some(name.as_str())),
            None => Ok(None),
        }
    }

    /// Whether `self` and `other` differ at most in their names
    pub open spec fn same_but_names(&self, other: &SimulatorData) -> bool {
        &&& self.spec_wires() == other.spec_wires()
        &&& self.spec_components() == other.spec_components()
        &&& self.spec_wire_states() == other.spec_wire_states()
        &&& self.spec_output_states() == other.spec_output_states()
        &&& self.spec_wire_queue() == other.spec_wire_queue()
        &&& self.spec_component_queue() == other.spec_component_queue()
    }

    /// The graph stays well-formed when only names change
    proof fn lemma_wf_names(&self, other: &SimulatorData)
        requires
            other.wf(),
            self.same_but_names(other),
        ensures
            self.wf(),
    {
        self.lemma_wf_queues(other);
    }

    /// The IDs of all wires, in ascending order
    fn wire_ids(&self) -> (r: Vec<WireId>)
        requires
            self.wf(),
        ensures
            r@.len() == self.wire_count(),
            forall|i: int| 0 <= i < r@.len() ==> (#[trigger] r@[i]).spec_index() == i,
    {
        let mut ids: Vec<WireId> = Vec::new();
        let mut i: usize = 0;
        while i < self.wires.len()
            invariant
                i <= self.wire_count() <= MAX_STATE_COUNT,
                ids@.len() == i,
                forall|k: int| 0 <= k < i ==> (#[trigger] ids@[k]).spec_index() == k,
            decreases self.wire_count() - i,
        {
            ids.push(WireId::new(i as u32));
            i = i + 1;
        }
        ids
    }

    /// The IDs of all components, in ascending order
    fn component_ids(&self) -> (r: Vec<ComponentId>)
        requires
            self.wf(),
        ensures
            r@.len() == self.component_count(),
            forall|i: int| 0 <= i < r@.len() ==> (#[trigger] r@[i]).spec_index() == i,
    {
        let mut ids: Vec<ComponentId> = Vec::new();
        let mut i: usize = 0;
        while i < self.components.len()
            invariant
                i <= self.component_count() <= MAX_STATE_COUNT,
                ids@.len() == i,
                forall|k: int| 0 <= k < i ==> (#[trigger] ids@[k]).spec_index() == k,
            decreases self.component_count() - i,
        {
            ids.push(ComponentId::new(i as u32));
            i = i + 1;
        }
        ids
    }

    /// The checks of a shifter: input and output of one width of more than one bit, then a
    /// shift amount of `ceil(log2(width))` bits
    pub open spec fn shifter_outcome(&self, input: WireId, shift_amount: WireId, output: WireId) -> Result<
        (),
        AddComponentError,
    > {
        match self.widths_outcome(seq![input, output]) {
            Ok(width) => if width.width() == 1 {
                Err(AddComponentError::WireWidthIncompatible)
            } else if !self.has_wire(shift_amount) {
                Err(AddComponentError::InvalidWireId)
            } else if self.wire_width(shift_amount).width() != clog2_nat(width.width()) {
                Err(AddComponentError::WireWidthIncompatible)
            } else {
                Ok(())
            },
            Err(e) => Err(e),
        }
    }

    /// Adds a shifter
    fn add_shift(&mut self, kind: ShiftKind, input: WireId, shift_amount: WireId, output: WireId) -> (r: Result<
        ComponentId,
        AddComponentError,
    >)
        requires
            old(self).wf(),
        ensures
            final(self).wf(),
            final(self).add_outcome(
                &*old(self),
                r,
                old(self).shifter_outcome(input, shift_amount, output),
                ComponentOp::Shift(kind),
                seq![input, shift_amount],
                output,
            ),
    {
        broadcast use {WireStateId::lemma_new_index, BitWidth::lemma_width_injective};
        let ids = vec![input, output];
        assert(ids@ =~= seq![input, output]);
        let width = match self.check_wire_widths_match(ids.as_slice()) {
            Ok(w) => w,
            Err(e) => {
                return Err(e);
            },
        };
        proof {
            self.lemma_widths_from_width(ids@, self.wire_width(ids@[0]), 1);
            self.lemma_widths_ok(ids@, width, 1);
        }
        let shift_width = match width.clog2() {
            Some(w) => w,
            None => {
                return Err(AddComponentError::WireWidthIncompatible);
            },
        };
        if let Err(e) = self.check_wire_width_eq(shift_amount, shift_width) {
            return Err(e);
        }
        let a = WireStateId::new(input.index() as u32);
        let b = WireStateId::new(shift_amount.index() as u32);
        let component = ComponentKind::Shift { kind, input: a, shift_amount: b };
        proof {
            assert(component.inputs() =~= self.state_ids(seq![input, shift_amount]));
            assert(component.same_width_inputs()[0] == WireStateId::spec_new(ids@[0].spec_index()));
            self.lemma_fits(component, seq![input, shift_amount], width);
        }
        self.add_component(component, output)
    }

    /// An empty simulation
    pub fn new() -> (r: SimulatorData)
        ensures
            r.wf(),
            r.wire_count() == 0,
            r.component_count() == 0,
            r.spec_wire_names().dom() == Set::<u32>::empty(),
            r.spec_component_names().dom() == Set::<u32>::empty(),
    {
        SimulatorData {
            wires: Vec::new(),
            wire_states: WireStateAllocator::new(),
            components: Vec::new(),
            output_states: OutputStateAllocator::new(),
            wire_update_queue: Vec::new(),
            component_update_queue: Vec::new(),
            wire_names: names_new(),
            component_names: names_new(),
        }
    }
}

/// The IDs `0..n`, in ascending order
fn all_ids(n: usize) -> (r: Vec<u32>)
    requires
        n <= MAX_STATE_COUNT,
    ensures
        r@.len() == n,
        forall|i: int| 0 <= i < n ==> #[trigger] r@[i] == i,
        forall|x: u32| r@.contains(x) <==> x < n,
        strictly_ascending(r@),
{
    let mut ids: Vec<u32> = Vec::new();
    let mut i: usize = 0;
    while i < n
        invariant
            i <= n <= MAX_STATE_COUNT,
            ids@.len() == i,
            forall|k: int| 0 <= k < i ==> #[trigger] ids@[k] == k,
        decreases n - i,
    {
        ids.push(i as u32);
        i = i + 1;
    }
    assert forall|x: u32| ids@.contains(x) <==> x < n by {
        if x < n {
            assert(ids@[x as int] == x);
        }
    }
    ids
}

/// Builds a simulator
pub struct SimulatorBuilder {
    data: SimulatorData,
}

impl SimulatorBuilder {
    /// The graph built so far
    pub closed spec fn spec_data(&self) -> SimulatorData {
        self.data
    }

    #[verifier::type_invariant]
    spec fn inv(&self) -> bool {
        self.data.wf()
    }

    /// The graph built so far is well-formed (this makes the invariant every builder keeps
    /// available to proofs)
    pub fn well_formed(&self) -> (r: bool)
        ensures
            r,
            self.spec_data().wf(),
    {
        proof {
            use_type_invariant(self);
        }
        true
    }
}

impl Default for SimulatorBuilder {
    fn default() -> (r: SimulatorBuilder)
        ensures
            r.spec_data().wire_count() == 0,
            r.spec_data().component_count() == 0,
            r.spec_data().spec_wire_names().dom() == Set::<u32>::empty(),
            r.spec_data().spec_component_names().dom() == Set::<u32>::empty(),
    {
        SimulatorBuilder { data: SimulatorData::new() }
    }
}

/// The outcome of adding a gate through the builder
pub open spec fn builder_gate_added(
    old: &SimulatorBuilder,
    new: &SimulatorBuilder,
    r: Result<ComponentId, AddComponentError>,
    kind: GateKind,
    inputs: Seq<WireId>,
    output: WireId,
) -> bool {
    new.spec_data().add_outcome(
        &old.spec_data(),
        r,
        old.spec_data().gate_outcome(inputs, output),
        ComponentOp::Gate(kind),
        inputs,
        output,
    )
}

impl SimulatorBuilder {
    /// Takes the graph out, leaving an empty one in its place
    fn take_data(&mut self) -> (r: SimulatorData)
        ensures
            r == old(self).spec_data(),
            r.wf(),
    {
        proof {
            use_type_invariant(&*self);
        }
        let mut data = SimulatorData::new();
        std::mem::swap(&mut data, &mut self.data);
        data
    }

    /// Iterates over all wire IDs in the graph
    pub fn iter_wire_ids(&self) -> (r: Vec<WireId>)
        ensures
            r@.len() == self.spec_data().wire_count(),
            forall|i: int| 0 <= i < r@.len() ==> (#[trigger] r@[i]).spec_index() == i,
    {
        proof {
            use_type_invariant(self);
        }
        self.data.wire_ids()
    }

    /// Iterates over all component IDs in the graph
    pub fn iter_component_ids(&self) -> (r: Vec<ComponentId>)
        ensures
            r@.len() == self.spec_data().component_count(),
            forall|i: int| 0 <= i < r@.len() ==> (#[trigger] r@[i]).spec_index() == i,
    {
        proof {
            use_type_invariant(self);
        }
        self.data.component_ids()
    }

    /// Adds a wire to the simulation, in high impedance
    ///
    /// Returns `TooManyWires` if the memory limit for wires has been reached
    pub fn add_wire(&mut self, bit_width: BitWidth) -> (r: Result<WireId, AddWireError>)
        ensures
            old(self).spec_data().wire_count() < MAX_STATE_COUNT ==> (r matches Ok(id)
                && id.spec_index() == old(self).spec_data().wire_count() && final(self).spec_data().wire_added(
                &old(self).spec_data(),
                bit_width,
            )),
            old(self).spec_data().wire_count() >= MAX_STATE_COUNT ==> r == Err::<WireId, AddWireError>(
                AddWireError::TooManyWires,
            ) && final(self).spec_data() == old(self).spec_data(),
    {
        let mut data = self.take_data();
        let r = data.add_wire(bit_width);
        self.data = data;
        r
    }

    /// Drives a wire to a certain state without needing a component
    pub fn set_wire_drive<'a, D: IntoLogicStateRef<'a>>(&mut self, wire: WireId, new_drive: D) -> (r: Result<
        (),
        SetWireDriveError,
    >)
        ensures
            !old(self).spec_data().has_wire(wire) ==> r == Err::<(), SetWireDriveError>(
                SetWireDriveError::InvalidWireId,
            ) && final(self).spec_data() == old(self).spec_data(),
            old(self).spec_data().has_wire(wire) && new_drive.spec_target().bit_width()
                != old(self).spec_data().wire_width(wire) ==> r == Err::<(), SetWireDriveError>(
                SetWireDriveError::InvalidBitWidth,
            ) && final(self).spec_data() == old(self).spec_data(),
            old(self).spec_data().has_wire(wire) && new_drive.spec_target().bit_width()
                == old(self).spec_data().wire_width(wire) ==> r is Ok && final(self).spec_data().drive_set(
                &old(self).spec_data(),
                wire.spec_index() as int,
                new_drive.spec_target()@,
            ),
    {
        let mut data = self.take_data();
        let r = data.set_wire_drive(wire, new_drive);
        self.data = data;
        r
    }

    /// Gets the current drive of a wire
    pub fn get_wire_drive(&self, wire: WireId) -> (r: Result<LogicStateRef<'_>, InvalidWireIdError>)
        ensures
            r is Ok <==> self.spec_data().has_wire(wire),
            r matches Ok(d) ==> d.spec_state() == self.spec_data().drive_of(wire.spec_index() as int),
    {
        proof {
            use_type_invariant(self);
        }
        match self.data.get_wire_state_and_drive(wire) {
            Ok(refs) => Ok(refs[1]),
            Err(e) => Err(e),
        }
    }

    /// Assigns a name to a wire
    pub fn set_wire_name(&mut self, wire: WireId, name: &str) -> (r: Result<(), InvalidWireIdError>)
        ensures
            r is Ok <==> old(self).spec_data().has_wire(wire),
            r is Err ==> final(self).spec_data() == old(self).spec_data(),
            r is Ok ==> final(self).spec_data().spec_wire_names() == old(self).spec_data().spec_wire_names().insert(
                wire.spec_index(),
                name@,
            ) && final(self).spec_data().same_but_names(&old(self).spec_data())
                && final(self).spec_data().spec_component_names()
                == old(self).spec_data().spec_component_names(),
    {
        let mut data = self.take_data();
        let r = data.set_wire_name(wire, name);
        self.data = data;
        r
    }

    /// Gets the name of a wire, if one has been assigned
    pub fn get_wire_name(&self, wire: WireId) -> (r: Result<Option<&str>, InvalidWireIdError>)
        ensures
            r is Ok <==> self.spec_data().has_wire(wire),
            r matches Ok(name) ==> (name is Some <==> self.spec_data().spec_wire_names().contains_key(
                wire.spec_index(),
            )),
            r matches Ok(Some(name)) ==> name@ == self.spec_data().spec_wire_names()[wire.spec_index()],
    {
        self.data.get_wire_name(wire)
    }

    /// Assigns a name to a component
    pub fn set_component_name(&mut self, component: ComponentId, name: &str) -> (r: Result<
        (),
        InvalidComponentIdError,
    >)
        ensures
            r is Ok <==> old(self).spec_data().has_component(component),
            r is Err ==> final(self).spec_data() == old(self).spec_data(),
            r is Ok ==> final(self).spec_data().spec_component_names() == old(self).spec_data().spec_component_names().insert(
                component.spec_index(),
                name@,
            ) && final(self).spec_data().same_but_names(&old(self).spec_data())
                && final(self).spec_data().spec_wire_names() == old(self).spec_data().spec_wire_names(),
    {
        let mut data = self.take_data();
        let r = data.set_component_name(component, name);
        self.data = data;
        r
    }

    /// Gets the name of a component, if one has been assigned
    pub fn get_component_name(&self, component: ComponentId) -> (r: Result<
        Option<&str>,
        InvalidComponentIdError,
    >)
        ensures
            r is Ok <==> self.spec_data().has_component(component),
            r matches Ok(name) ==> (name is Some <==> self.spec_data().spec_component_names().contains_key(
                component.spec_index(),
            )),
            r matches Ok(Some(name)) ==> name@ == self.spec_data().spec_component_names()[component.spec_index()],
    {
        self.data.get_component_name(component)
    }

    /// Adds an `AND Gate` component to the simulation
    pub fn add_and_gate(&mut self, inputs: &[WireId], output: WireId) -> (r: Result<
        ComponentId,
        AddComponentError,
    >)
        ensures
            builder_gate_added(&*old(self), &*final(self), r, GateKind::And, inputs@, output),
    {
        let mut data = self.take_data();
        let r = data.add_gate(GateKind::And, inputs, output);
        self.data = data;
        r
    }

    /// Adds an `OR Gate` component to the simulation
    pub fn add_or_gate(&mut self, inputs: &[WireId], output: WireId) -> (r: Result<
        ComponentId,
        AddComponentError,
    >)
        ensures
            builder_gate_added(&*old(self), &*final(self), r, GateKind::Or, inputs@, output),
    {
        let mut data = self.take_data();
        let r = data.add_gate(GateKind::Or, inputs, output);
        self.data = data;
        r
    }

    /// Adds an `XOR Gate` component to the simulation
    pub fn add_xor_gate(&mut self, inputs: &[WireId], output: WireId) -> (r: Result<
        ComponentId,
        AddComponentError,
    >)
        ensures
            builder_gate_added(&*old(self), &*final(self), r, GateKind::Xor, inputs@, output),
    {
        let mut data = self.take_data();
        let r = data.add_gate(GateKind::Xor, inputs, output);
        self.data = data;
        r
    }

    /// Adds a `NAND Gate` component to the simulation
    pub fn add_nand_gate(&mut self, inputs: &[WireId], output: WireId) -> (r: Result<
        ComponentId,
        AddComponentError,
    >)
        ensures
            builder_gate_added(&*old(self), &*final(self), r, GateKind::Nand, inputs@, output),
    {
        let mut data = self.take_data();
        let r = data.add_gate(GateKind::Nand, inputs, output);
        self.data = data;
        r
    }

    /// Adds a `NOR Gate` component to the simulation
    pub fn add_nor_gate(&mut self, inputs: &[WireId], output: WireId) -> (r: Result<
        ComponentId,
        AddComponentError,
    >)
        ensures
            builder_gate_added(&*old(self), &*final(self), r, GateKind::Nor, inputs@, output),
    {
        let mut data = self.take_data();
        let r = data.add_gate(GateKind::Nor, inputs, output);
        self.data = data;
        r
    }

    /// Adds an `XNOR Gate` component to the simulation
    pub fn add_xnor_gate(&mut self, inputs: &[WireId], output: WireId) -> (r: Result<
        ComponentId,
        AddComponentError,
    >)
        ensures
            builder_gate_added(&*old(self), &*final(self), r, GateKind::Xnor, inputs@, output),
    {
        let mut data = self.take_data();
        let r = data.add_gate(GateKind::Xnor, inputs, output);
        self.data = data;
        r
    }

    /// Adds a `NOT Gate` component to the simulation
    pub fn add_not_gate(&mut self, input: WireId, output: WireId) -> (r: Result<
        ComponentId,
        AddComponentError,
    >)
        ensures
            final(self).spec_data().add_outcome(
                &old(self).spec_data(),
                r,
                old(self).spec_data().same_width_outcome(seq![input, output]),
                ComponentOp::Not,
                seq![input],
                output,
            ),
    {
        let mut data = self.take_data();
        let r = data.add_unary(ComponentOp::Not, input, output);
        self.data = data;
        r
    }

    /// Adds a `Buffer` component to the simulation
    pub fn add_buffer(&mut self, input: WireId, enable: WireId, output: WireId) -> (r: Result<
        ComponentId,
        AddComponentError,
    >)
        ensures
            final(self).spec_data().add_outcome(
                &old(self).spec_data(),
                r,
                old(self).spec_data().buffer_outcome(input, enable, output),
                ComponentOp::Buffer,
                seq![input, enable],
                output,
            ),
    {
        let mut data = self.take_data();
        let r = data.add_buffer(input, enable, output);
        self.data = data;
        r
    }

    /// Adds an `ADD` component to the simulation
    pub fn add_add(&mut self, input_a: WireId, input_b: WireId, output: WireId) -> (r: Result<
        ComponentId,
        AddComponentError,
    >)
        ensures
            final(self).spec_data().add_outcome(
                &old(self).spec_data(),
                r,
                old(self).spec_data().same_width_outcome(seq![input_a, input_b, output]),
                ComponentOp::Add,
                seq![input_a, input_b],
                output,
            ),
    {
        let mut data = self.take_data();
        let r = data.add_binary(ComponentOp::Add, input_a, input_b, output);
        self.data = data;
        r
    }

    /// Adds a `SUB` component to the simulation
    pub fn add_sub(&mut self, input_a: WireId, input_b: WireId, output: WireId) -> (r: Result<
        ComponentId,
        AddComponentError,
    >)
        ensures
            final(self).spec_data().add_outcome(
                &old(self).spec_data(),
                r,
                old(self).spec_data().same_width_outcome(seq![input_a, input_b, output]),
                ComponentOp::Sub,
                seq![input_a, input_b],
                output,
            ),
    {
        let mut data = self.take_data();
        let r = data.add_binary(ComponentOp::Sub, input_a, input_b, output);
        self.data = data;
        r
    }

    /// Adds a `NEG` component to the simulation
    pub fn add_neg(&mut self, input: WireId, output: WireId) -> (r: Result<
        ComponentId,
        AddComponentError,
    >)
        ensures
            final(self).spec_data().add_outcome(
                &old(self).spec_data(),
                r,
                old(self).spec_data().same_width_outcome(seq![input, output]),
                ComponentOp::Neg,
                seq![input],
                output,
            ),
    {
        let mut data = self.take_data();
        let r = data.add_unary(ComponentOp::Neg, input, output);
        self.data = data;
        r
    }

    /// Adds a `MUL` component to the simulation
    pub fn add_mul(&mut self, input_a: WireId, input_b: WireId, output: WireId) -> (r: Result<
        ComponentId,
        AddComponentError,
    >)
        ensures
            final(self).spec_data().add_outcome(
                &old(self).spec_data(),
                r,
                old(self).spec_data().same_width_outcome(seq![input_a, input_b, output]),
                ComponentOp::Mul,
                seq![input_a, input_b],
                output,
            ),
    {
        let mut data = self.take_data();
        let r = data.add_binary(ComponentOp::Mul, input_a, input_b, output);
        self.data = data;
        r
    }

    /// Adds a `Left Shift` component to the simulation
    pub fn add_left_shift(&mut self, input: WireId, shift_amount: WireId, output: WireId) -> (r: Result<
        ComponentId,
        AddComponentError,
    >)
        ensures
            final(self).spec_data().add_outcome(
                &old(self).spec_data(),
                r,
                old(self).spec_data().shifter_outcome(input, shift_amount, output),
                ComponentOp::Shift(ShiftKind::Left),
                seq![input, shift_amount],
                output,
            ),
    {
        let mut data = self.take_data();
        let r = data.add_shift(ShiftKind::Left, input, shift_amount, output);
        self.data = data;
        r
    }

    /// Adds a `Logical Right Shift` component to the simulation
    pub fn add_logical_right_shift(&mut self, input: WireId, shift_amount: WireId, output: WireId) -> (r: Result<
        ComponentId,
        AddComponentError,
    >)
        ensures
            final(self).spec_data().add_outcome(
                &old(self).spec_data(),
                r,
                old(self).spec_data().shifter_outcome(input, shift_amount, output),
                ComponentOp::Shift(ShiftKind::LogicalRight),
                seq![input, shift_amount],
                output,
            ),
    {
        let mut data = self.take_data();
        let r = data.add_shift(ShiftKind::LogicalRight, input, shift_amount, output);
        self.data = data;
        r
    }

    /// Adds an `Arithmetic Right Shift` component to the simulation
    pub fn add_arithmetic_right_shift(&mut self, input: WireId, shift_amount: WireId, output: WireId) -> (r: Result<
        ComponentId,
        AddComponentError,
    >)
        ensures
            final(self).spec_data().add_outcome(
                &old(self).spec_data(),
                r,
                old(self).spec_data().shifter_outcome(input, shift_amount, output),
                ComponentOp::Shift(ShiftKind::ArithmeticRight),
                seq![input, shift_amount],
                output,
            ),
    {
        let mut data = self.take_data();
        let r = data.add_shift(ShiftKind::ArithmeticRight, input, shift_amount, output);
        self.data = data;
        r
    }

    /// Creates the simulator, with every wire state and output state reset to high impedance
    pub fn build(self) -> (r: Simulator)
        ensures
            r.spec_data().same_graph(&self.spec_data()),
            r.spec_data().spec_wire_queue() == self.spec_data().spec_wire_queue(),
            r.spec_data().spec_component_queue() == self.spec_data().spec_component_queue(),
            forall|w: int|
                0 <= w < r.spec_data().wire_count() ==> #[trigger] r.spec_data().state_of(w)
                    == LogicState::spec_high_z(self.spec_data().state_of(w).bit_width()),
            forall|c: int|
                0 <= c < r.spec_data().component_count() ==> #[trigger] r.spec_data().output_of(c)
                    == LogicState::spec_high_z(self.spec_data().output_of(c).bit_width()),
    {
        proof {
            use_type_invariant(&self);
        }
        let SimulatorBuilder { mut data } = self;
        data.reset();
        Simulator { data }
    }
}

/// A digital circuit simulator
pub struct Simulator {
    data: SimulatorData,
}

impl Simulator {
    /// The simulated graph and its state
    pub closed spec fn spec_data(&self) -> SimulatorData {
        self.data
    }

    #[verifier::type_invariant]
    spec fn inv(&self) -> bool {
        self.data.wf()
    }

    /// The simulated graph is well-formed (this makes the invariant every simulator keeps
    /// available to proofs)
    pub fn well_formed(&self) -> (r: bool)
        ensures
            r,
            self.spec_data().wf(),
    {
        proof {
            use_type_invariant(self);
        }
        true
    }

    /// Takes the graph out, leaving an empty one in its place
    fn take_data(&mut self) -> (r: SimulatorData)
        ensures
            r == old(self).spec_data(),
            r.wf(),
    {
        proof {
            use_type_invariant(&*self);
        }
        let mut data = SimulatorData::new();
        std::mem::swap(&mut data, &mut self.data);
        data
    }

    /// Iterates over all wire IDs in the graph
    pub fn iter_wire_ids(&self) -> (r: Vec<WireId>)
        ensures
            r@.len() == self.spec_data().wire_count(),
            forall|i: int| 0 <= i < r@.len() ==> (#[trigger] r@[i]).spec_index() == i,
    {
        proof {
            use_type_invariant(self);
        }
        self.data.wire_ids()
    }

    /// Iterates over all component IDs in the graph
    pub fn iter_component_ids(&self) -> (r: Vec<ComponentId>)
        ensures
            r@.len() == self.spec_data().component_count(),
            forall|i: int| 0 <= i < r@.len() ==> (#[trigger] r@[i]).spec_index() == i,
    {
        proof {
            use_type_invariant(self);
        }
        self.data.component_ids()
    }

    /// Drives a wire to a certain state without needing a component
    pub fn set_wire_drive<'a, D: IntoLogicStateRef<'a>>(&mut self, wire: WireId, new_drive: D) -> (r: Result<
        (),
        SetWireDriveError,
    >)
        ensures
            !old(self).spec_data().has_wire(wire) ==> r == Err::<(), SetWireDriveError>(
                SetWireDriveError::InvalidWireId,
            ) && final(self).spec_data() == old(self).spec_data(),
            old(self).spec_data().has_wire(wire) && new_drive.spec_target().bit_width()
                != old(self).spec_data().wire_width(wire) ==> r == Err::<(), SetWireDriveError>(
                SetWireDriveError::InvalidBitWidth,
            ) && final(self).spec_data() == old(self).spec_data(),
            old(self).spec_data().has_wire(wire) && new_drive.spec_target().bit_width()
                == old(self).spec_data().wire_width(wire) ==> r is Ok && final(self).spec_data().drive_set(
                &old(self).spec_data(),
                wire.spec_index() as int,
                new_drive.spec_target()@,
            ),
    {
        let mut data = self.take_data();
        let r = data.set_wire_drive(wire, new_drive);
        self.data = data;
        r
    }

    /// Gets the current state and drive of a wire
    pub fn get_wire_state_and_drive(&self, wire: WireId) -> (r: Result<
        [LogicStateRef<'_>; 2],
        InvalidWireIdError,
    >)
        ensures
            r is Ok <==> self.spec_data().has_wire(wire),
            r matches Ok(refs) ==> refs[0].spec_state() == self.spec_data().state_of(
                wire.spec_index() as int,
            ) && refs[1].spec_state() == self.spec_data().drive_of(wire.spec_index() as int),
    {
        proof {
            use_type_invariant(self);
        }
        self.data.get_wire_state_and_drive(wire)
    }

    /// Gets the name of a wire, if one has been assigned
    pub fn get_wire_name(&self, wire: WireId) -> (r: Result<Option<&str>, InvalidWireIdError>)
        ensures
            r is Ok <==> self.spec_data().has_wire(wire),
            r matches Ok(name) ==> (name is Some <==> self.spec_data().spec_wire_names().contains_key(
                wire.spec_index(),
            )),
            r matches Ok(Some(name)) ==> name@ == self.spec_data().spec_wire_names()[wire.spec_index()],
    {
        self.data.get_wire_name(wire)
    }

    /// Gets the name of a component, if one has been assigned
    pub fn get_component_name(&self, component: ComponentId) -> (r: Result<
        Option<&str>,
        InvalidComponentIdError,
    >)
        ensures
            r is Ok <==> self.spec_data().has_component(component),
            r matches Ok(name) ==> (name is Some <==> self.spec_data().spec_component_names().contains_key(
                component.spec_index(),
            )),
            r matches Ok(Some(name)) ==> name@ == self.spec_data().spec_component_names()[component.spec_index()],
    {
        self.data.get_component_name(component)
    }

    /// Resets the simulation: every wire state and output state goes to high impedance, the
    /// drives stay
    pub fn reset(&mut self)
        ensures
            final(self).spec_data().same_graph(&old(self).spec_data()),
            forall|w: int|
                0 <= w < final(self).spec_data().wire_count() ==> #[trigger] final(self).spec_data().state_of(w)
                    == LogicState::spec_high_z(old(self).spec_data().state_of(w).bit_width()),
            forall|c: int|
                0 <= c < final(self).spec_data().component_count() ==> #[trigger] final(self).spec_data().output_of(c)
                    == LogicState::spec_high_z(old(self).spec_data().output_of(c).bit_width()),
    {
        let mut data = self.take_data();
        data.reset();
        self.data = data;
    }

    /// Runs the simulation until it settles, but at most for `max_steps` steps
    ///
    /// `Settled` means that every wire holds what its drive and the outputs driving it give
    /// it, without a conflict, and every component outputs what it computes from its inputs.
    /// `Error` lists wires on which two sources drive the same bit.
    pub fn run_sim(&mut self, max_steps: u64) -> (r: SimulationRunResult)
        ensures
            final(self).spec_data().same_graph(&old(self).spec_data()),
            r is Settled ==> final(self).spec_data().settled(),
            r matches SimulationRunResult::Error(e) ==> final(self).spec_data().reports_conflicts(e),
            r is MaxStepsReached ==> final(self).spec_data().pending_wires_only()
                && final(self).spec_data().spec_wire_queue().len() > 0,
            exists|trace: Seq<SimulatorData>, results: Seq<SimulationStepResult>|
                ran(old(self).spec_data(), trace, results, max_steps as nat, r) && trace.last()
                    == final(self).spec_data(),
    {
        let mut data = self.take_data();
        let r = data.run_sim(max_steps);
        self.data = data;
        r
    }
}

/// One simulation step, as far as its contract describes it: from a well-formed state in which
/// only the queued wires (in ascending order) may be pending, to a well-formed state of the same
/// graph that the outcome `r` describes; with no wire queued, nothing changes; after a change,
/// every queued wire is driven by a component that reads a wire that was queued before
pub open spec fn steps_to(s: SimulatorData, t: SimulatorData, r: SimulationStepResult) -> bool {
    &&& s.wf()
    &&& s.pending_wires_only()
    &&& strictly_ascending(s.spec_wire_queue())
    &&& t.wf()
    &&& t.same_graph(&s)
    &&& t.step_outcome(r)
    &&& s.spec_wire_queue().len() == 0 ==> r is Unchanged
    &&& r is Changed ==> forall|n: int|
        0 <= n < t.spec_wire_queue().len() ==> s.fed_by_queue(#[trigger] t.spec_wire_queue()[n])
}

/// What the first phase of a run leaves: a well-formed state of the graph of `start` that the
/// outcome `r` describes, where after a change every queued wire is driven by a component
pub open spec fn began(start: SimulatorData, t: SimulatorData, r: SimulationStepResult) -> bool {
    &&& t.wf()
    &&& t.same_graph(&start)
    &&& t.step_outcome(r)
    &&& r is Changed ==> forall|n: int|
        0 <= n < t.spec_wire_queue().len() ==> t.is_output_wire(#[trigger] t.spec_wire_queue()[n])
}

/// `trace` and `results` are a run of the simulation from `start` that returns `r`:
/// `trace[0]` is the state after the first phase (every wire and every queued component
/// updated), each later state follows from the one before by one step, every phase but the
/// last changed something, and at most `max_steps` steps follow the first phase before a
/// last one; the run returns `Settled` where its last phase changed nothing, that phase's error
/// where it failed, and `MaxStepsReached` only where the first phase and `max_steps + 1` steps
/// after it all changed something
pub open spec fn ran(
    start: SimulatorData,
    trace: Seq<SimulatorData>,
    results: Seq<SimulationStepResult>,
    max_steps: nat,
    r: SimulationRunResult,
) -> bool {
    &&& trace.len() == results.len()
    &&& 1 <= trace.len() <= max_steps + 2
    &&& began(start, trace[0], results[0])
    &&& forall|i: int| 1 <= i < trace.len() ==> steps_to(trace[i - 1], #[trigger] trace[i], results[i])
    &&& forall|i: int| 0 <= i < trace.len() - 1 ==> (#[trigger] results[i]) is Changed
    &&& match r {
        SimulationRunResult::Settled => results.last() is Unchanged,
        SimulationRunResult::Error(e) => results.last() == SimulationStepResult::Error(e),
        SimulationRunResult::MaxStepsReached => results.last() is Changed && trace.len() == max_steps + 2,
    }
}

/// Whether no component reads a wire that a component drives
pub open spec fn single_layer(d: SimulatorData) -> bool {
    forall|c: int, v: int|
        0 <= c < d.component_count() && 0 <= v < d.wire_count() && (
        #[trigger] d.spec_components()[c]).spec_output_wire().spec_index() == v ==> (
        #[trigger] d.spec_wires()[v]).spec_driving().len() == 0
}

/// A run over a circuit in which no component reads a wire that a component drives does not
/// run out of steps when at least one step is allowed after the first phase: it settles or
/// reports a conflict
pub proof fn law_single_layer_settles(
    start: SimulatorData,
    trace: Seq<SimulatorData>,
    results: Seq<SimulationStepResult>,
    max_steps: nat,
    r: SimulationRunResult,
)
    requires
        ran(start, trace, results, max_steps, r),
        single_layer(start),
        max_steps >= 1,
    ensures
        !(r is MaxStepsReached),
{
    if r is MaxStepsReached {
        assert(results[0] is Changed && results[1] is Changed);
        assert(steps_to(trace[0], trace[1], results[1]));
        let t0 = trace[0];
        let t1 = trace[1];
        assert(t1.spec_wire_queue().len() > 0);
        let x = t1.spec_wire_queue()[0];
        assert(t0.fed_by_queue(x));
        let (c, v, n) = choose|c: int, v: int, n: int|
            0 <= c < t0.component_count() && 0 <= v < t0.wire_count() && t0.spec_wire_queue().contains(v as u32)
                && 0 <= n < t0.spec_wires()[v].spec_driving().len() && (
            #[trigger] t0.spec_wires()[v].spec_driving()[n]).spec_index() == c && (
            #[trigger] t0.spec_components()[c]).spec_output_wire().spec_index() == x;
        let k = choose|k: int| 0 <= k < t0.spec_wire_queue().len() && t0.spec_wire_queue()[k] == v as u32;
        assert(t0.is_output_wire(t0.spec_wire_queue()[k]));
        let c2 = choose|c2: int|
            0 <= c2 < t0.component_count() && (#[trigger] t0.spec_components()[c2]).spec_output_wire().spec_index()
                == v as u32;
        assert(start.spec_components()[c2] == t0.spec_components()[c2]);
        assert(start.spec_wires()[v] == t0.spec_wires()[v]);
    }
}

/// A drive that was set is what is read back; the other drives and all states stay
pub proof fn law_drive_read_back(
    before: SimulatorData,
    after: SimulatorData,
    wire: int,
    drive: Seq<crate::logic_bit::LogicBitState>,
)
    requires
        0 <= wire < before.wire_count(),
        after.drive_set(&before, wire, drive),
    ensures
        after.drive_of(wire)@ == drive,
        forall|v: int|
            0 <= v < before.wire_count() && v != wire ==> #[trigger] after.drive_of(v) == before.drive_of(v),
        forall|v: int| 0 <= v < before.wire_count() ==> #[trigger] after.state_of(v) == before.state_of(v),
{
    assert forall|v: int| 0 <= v < before.wire_count() && v != wire implies #[trigger] after.drive_of(v)
        == before.drive_of(v) by {
        assert(after.spec_wire_states().spec_entries()[v] == before.spec_wire_states().spec_entries()[v]);
    }
    assert forall|v: int| 0 <= v < before.wire_count() implies #[trigger] after.state_of(v)
        == before.state_of(v) by {
        if v != wire {
            assert(after.spec_wire_states().spec_entries()[v] == before.spec_wire_states().spec_entries()[v]);
        }
    }
}

/// A name that was assigned is what is read back; the names of other IDs stay
pub proof fn law_name_read_back(before: Map<u32, Seq<char>>, after: Map<u32, Seq<char>>, id: u32, name: Seq<char>)
    requires
        after == before.insert(id, name),
    ensures
        after.contains_key(id),
        after[id] == name,
        forall|other: u32| other != id ==> (#[trigger] after.contains_key(other) == before.contains_key(other)),
        forall|other: u32| other != id && before.contains_key(other) ==> #[trigger] after[other] == before[other],
{
}

/// In a settled simulation, a wire that no component drives holds its drive
pub proof fn law_undriven_wire_holds_drive(sim: SimulatorData, wire: int)
    requires
        sim.wf(),
        sim.settled(),
        0 <= wire < sim.wire_count(),
        sim.spec_wires()[wire].spec_drivers().len() == 0,
    ensures
        sim.state_of(wire)@ == sim.drive_of(wire)@,
{
    assert(sim.wire_settled(wire));
    assert(output_views(sim.spec_wires()[wire].spec_drivers(), &sim.spec_output_states()) =~= Seq::<
        Seq<crate::logic_bit::LogicBitState>,
    >::empty());
}

/// In a settled simulation, a wire in high impedance that exactly one component drives holds
/// what that component computes from the states of the wires it reads
pub proof fn law_sole_driver(sim: SimulatorData, wire: int)
    requires
        sim.wf(),
        sim.settled(),
        0 <= wire < sim.wire_count(),
        sim.spec_wires()[wire].spec_drivers().len() == 1,
        forall|i: int|
            0 <= i < sim.drive_of(wire)@.len() ==> #[trigger] sim.drive_of(wire)@[i]
                == crate::logic_bit::LogicBitState::HighZ,
    ensures
        sim.state_of(wire)@ == sim.computed(sim.spec_wires()[wire].spec_drivers()[0].spec_index() as int),
{
    let c = sim.spec_wires()[wire].spec_drivers()[0].spec_index() as int;
    assert(sim.wire_settled(wire));
    assert(sim.wire_wf(wire));
    assert(sim.component_wf(c));
    assert(sim.component_settled(c));
    let drive = sim.drive_of(wire)@;
    let views = output_views(sim.spec_wires()[wire].spec_drivers(), &sim.spec_output_states());
    assert(views.drop_last() =~= Seq::<Seq<crate::logic_bit::LogicBitState>>::empty());
    assert(views.last() == sim.output_of(c)@);
    assert(sim.resolved(wire) =~= sim.output_of(c)@);
}

/// Adding a component, or failing to, keeps the wires
pub broadcast proof fn lemma_component_keeps_wires(
    new: &SimulatorData,
    old: &SimulatorData,
    r: Result<ComponentId, AddComponentError>,
    check: Result<(), AddComponentError>,
    op: ComponentOp,
    inputs: Seq<WireId>,
    output: WireId,
)
    requires
        #[trigger] new.add_outcome(old, r, check, op, inputs, output),
    ensures
        new.keeps_wires(old),
{
    new.lemma_add_outcome_keeps_wires(old, r, check, op, inputs, output);
}

} // verus!
