//! Identifiers of the objects of a simulation, and small vectors of them.
use vstd::prelude::*;

verus! {

/// An ID type: a thin wrapper around a `u32`
pub trait Id: Copy + Sized {
    /// The number wrapped by the ID
    spec fn spec_to_bits(&self) -> u32;

    /// The number wrapped by the ID
    fn to_bits(self) -> (r: u32)
        ensures
            r == self.spec_to_bits(),
    ;

    /// The ID wrapping a number
    fn from_bits(val: u32) -> (r: Self)
        ensures
            r.spec_to_bits() == val,
    ;

    /// IDs wrapping the same number are the same ID
    proof fn lemma_bits_injective(a: Self, b: Self)
        ensures
            a.spec_to_bits() == b.spec_to_bits() ==> a == b,
    ;
}

/// A unique identifier for a wire inside a simulation
#[derive(Debug, Clone, Copy, PartialEq, Eq, PartialOrd, Ord, Hash, Structural)]
pub struct WireId(u32);

/// A unique identifier for a component inside a simulation
#[derive(Debug, Clone, Copy, PartialEq, Eq, PartialOrd, Ord, Hash, Structural)]
pub struct ComponentId(u32);

/// Identifies the state and drive of a wire
#[derive(Debug, Clone, Copy, PartialEq, Eq, PartialOrd, Ord, Hash, Structural)]
pub struct WireStateId(u32);

/// Identifies the output state of a component
#[derive(Debug, Clone, Copy, PartialEq, Eq, PartialOrd, Ord, Hash, Structural)]
pub struct OutputStateId(u32);

impl Id for WireId {
    open spec fn spec_to_bits(&self) -> u32 {
        self.spec_index()
    }

    fn to_bits(self) -> (r: u32) {
        self.0
    }

    fn from_bits(val: u32) -> (r: WireId) {
        WireId(val)
    }

    proof fn lemma_bits_injective(a: WireId, b: WireId) {
    }
}

impl Id for ComponentId {
    open spec fn spec_to_bits(&self) -> u32 {
        self.spec_index()
    }

    fn to_bits(self) -> (r: u32) {
        self.0
    }

    fn from_bits(val: u32) -> (r: ComponentId) {
        ComponentId(val)
    }

    proof fn lemma_bits_injective(a: ComponentId, b: ComponentId) {
    }
}

impl Id for WireStateId {
    open spec fn spec_to_bits(&self) -> u32 {
        self.spec_index()
    }

    fn to_bits(self) -> (r: u32) {
        self.0
    }

    fn from_bits(val: u32) -> (r: WireStateId) {
        WireStateId(val)
    }

    proof fn lemma_bits_injective(a: WireStateId, b: WireStateId) {
    }
}

impl Id for OutputStateId {
    open spec fn spec_to_bits(&self) -> u32 {
        self.spec_index()
    }

    fn to_bits(self) -> (r: u32) {
        self.0
    }

    fn from_bits(val: u32) -> (r: OutputStateId) {
        OutputStateId(val)
    }

    proof fn lemma_bits_injective(a: OutputStateId, b: OutputStateId) {
    }
}

impl WireId {
    /// The position of the wire in the simulation
    pub closed spec fn spec_index(self) -> u32 {
        self.0
    }

    pub broadcast proof fn lemma_index_injective(a: WireId, b: WireId)
        ensures
            #[trigger] a.spec_index() == #[trigger] b.spec_index() ==> a == b,
    {
    }

    /// The ID with the given index
    pub closed spec fn spec_new(index: u32) -> WireId {
        WireId(index)
    }

    pub broadcast proof fn lemma_new_index(index: u32)
        ensures
            #[trigger] Self::spec_new(index).spec_index() == index,
    {
    }

    pub(crate) fn new(index: u32) -> (r: WireId)
        ensures
            r.spec_index() == index,
            r == Self::spec_new(index),
    {
        WireId(index)
    }

    pub(crate) fn index(self) -> (r: usize)
        ensures
            r == self.spec_index(),
    {
        self.0 as usize
    }
}

impl ComponentId {
    /// The position of the component in the simulation
    pub closed spec fn spec_index(self) -> u32 {
        self.0
    }

    pub broadcast proof fn lemma_index_injective(a: ComponentId, b: ComponentId)
        ensures
            #[trigger] a.spec_index() == #[trigger] b.spec_index() ==> a == b,
    {
    }

    /// The ID with the given index
    pub closed spec fn spec_new(index: u32) -> ComponentId {
        ComponentId(index)
    }

    pub broadcast proof fn lemma_new_index(index: u32)
        ensures
            #[trigger] Self::spec_new(index).spec_index() == index,
    {
    }

    pub(crate) fn new(index: u32) -> (r: ComponentId)
        ensures
            r.spec_index() == index,
            r == Self::spec_new(index),
    {
        ComponentId(index)
    }

    pub(crate) fn index(self) -> (r: usize)
        ensures
            r == self.spec_index(),
    {
        self.0 as usize
    }
}

impl WireStateId {
    /// The position of the wire state in its allocator
    pub closed spec fn spec_index(self) -> u32 {
        self.0
    }

    pub broadcast proof fn lemma_index_injective(a: WireStateId, b: WireStateId)
        ensures
            #[trigger] a.spec_index() == #[trigger] b.spec_index() ==> a == b,
    {
    }

    /// The ID with the given index
    pub closed spec fn spec_new(index: u32) -> WireStateId {
        WireStateId(index)
    }

    pub broadcast proof fn lemma_new_index(index: u32)
        ensures
            #[trigger] Self::spec_new(index).spec_index() == index,
    {
    }

    pub(crate) fn new(index: u32) -> (r: WireStateId)
        ensures
            r.spec_index() == index,
            r == Self::spec_new(index),
    {
        WireStateId(index)
    }

    pub(crate) fn index(self) -> (r: usize)
        ensures
            r == self.spec_index(),
    {
        self.0 as usize
    }
}

impl OutputStateId {
    /// The position of the output state in its allocator
    pub closed spec fn spec_index(self) -> u32 {
        self.0
    }

    pub broadcast proof fn lemma_index_injective(a: OutputStateId, b: OutputStateId)
        ensures
            #[trigger] a.spec_index() == #[trigger] b.spec_index() ==> a == b,
    {
    }

    /// The ID with the given index
    pub closed spec fn spec_new(index: u32) -> OutputStateId {
        OutputStateId(index)
    }

    pub broadcast proof fn lemma_new_index(index: u32)
        ensures
            #[trigger] Self::spec_new(index).spec_index() == index,
    {
    }

    pub(crate) fn new(index: u32) -> (r: OutputStateId)
        ensures
            r.spec_index() == index,
            r == Self::spec_new(index),
    {
        OutputStateId(index)
    }

    pub(crate) fn index(self) -> (r: usize)
        ensures
            r == self.spec_index(),
    {
        self.0 as usize
    }
}

/// A vector of IDs
pub struct IdVec<T: Id> {
    data: Vec<T>,
}

impl<T: Id> View for IdVec<T> {
    type V = Seq<T>;

    closed spec fn view(&self) -> Seq<T> {
        self.data@
    }
}

impl<T: Id> IdVec<T> {
    /// An empty vector
    pub fn new() -> (r: IdVec<T>)
        ensures
            r@ == Seq::<T>::empty(),
    {
        IdVec { data: Vec::new() }
    }

    /// The number of IDs
    pub fn len(&self) -> (r: usize)
        ensures
            r == self@.len(),
    {
        self.data.len()
    }

    /// A vector holding the given IDs
    pub fn from_slice(slice: &[T]) -> (r: IdVec<T>)
        ensures
            r@ == slice@,
    {
        let mut data: Vec<T> = Vec::new();
        let mut i: usize = 0;
        while i < slice.len()
            invariant
                i <= slice@.len(),
                data@ == slice@.subrange(0, i as int),
            decreases slice@.len() - i,
        {
            data.push(slice[i]);
            i = i + 1;
            assert(data@ =~= slice@.subrange(0, i as int));
        }
        assert(slice@.subrange(0, slice@.len() as int) =~= slice@);
        IdVec { data }
    }

    /// Appends an ID
    pub fn push(&mut self, id: T)
        ensures
            final(self)@ == old(self)@.push(id),
    {
        self.data.push(id);
    }

    /// The IDs, in order
    pub fn as_slice(&self) -> (r: &[T])
        ensures
            r@ == self@,
    {
        self.data.as_slice()
    }

    /// The ID at position `i`
    pub fn get(&self, i: usize) -> (r: T)
        requires
            i < self@.len(),
        ensures
            r == self@[i as int],
    {
        self.data[i]
    }

    /// Whether the vector holds the ID
    pub fn contains(&self, id: T) -> (r: bool)
        ensures
            r == self@.contains(id),
    {
        let mut i: usize = 0;
        while i < self.data.len()
            invariant
                i <= self.data@.len(),
                forall|j: int| 0 <= j < i ==> self.data@[j] != id,
            decreases self.data@.len() - i,
        {
            let x = self.data[i];
            if x.to_bits() == id.to_bits() {
                proof {
                    T::lemma_bits_injective(x, id);
                }
                return true;
            }
            proof {
                if x == id {
                    assert(x.spec_to_bits() == id.spec_to_bits());
                }
            }
            i = i + 1;
        }
        false
    }
}

} // verus!
