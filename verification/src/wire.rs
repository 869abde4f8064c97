//! Wires: how the drive of a wire and the outputs of the components driving it resolve into
//! the state of the wire.
use vstd::prelude::*;
use crate::bit_width::BitWidth;
use crate::id::{ComponentId, OutputStateId, IdVec};
use crate::logic_bit::{LogicBitState, bit_state, combine_bit, conflict_bit};
use crate::logic_state::{LogicState, CopyFromResult};
use crate::state_alloc::OutputStateAllocator;
use crate::ops::{word_state, state_word_bit, lemma_state_bit};
use crate::word::{bit_of, group_word_bits, lemma_words_differ, lemma_bit_zero};
use vstd::std_specs::convert::FromSpecImpl;

verus! {

broadcast use {group_word_bits, LogicState::lemma_plane_len};

/// The result of updating a wire
#[derive(Debug, Clone, Copy, PartialEq, Eq, Structural)]
pub enum WireUpdateResult {
    Unchanged,
    Changed,
    Conflict,
}

/// The state of a wire with the given drive and driver outputs: each driver is combined into
/// the drive in turn, high impedance yielding to the other side
pub open spec fn resolve(
    drive: Seq<LogicBitState>,
    drivers: Seq<Seq<LogicBitState>>,
) -> Seq<LogicBitState>
    decreases drivers.len(),
{
    if drivers.len() == 0 {
        drive
    } else {
        let acc = resolve(drive, drivers.drop_last());
        Seq::new(drive.len(), |i: int| combine_bit(acc[i], drivers.last()[i]))
    }
}

/// Whether combining the drivers into the drive meets two sources that are both not in high
/// impedance on the same bit
pub open spec fn resolve_conflicts(
    drive: Seq<LogicBitState>,
    drivers: Seq<Seq<LogicBitState>>,
) -> bool
    decreases drivers.len(),
{
    if drivers.len() == 0 {
        false
    } else {
        let acc = resolve(drive, drivers.drop_last());
        resolve_conflicts(drive, drivers.drop_last()) || exists|i: int|
            0 <= i < drive.len() && conflict_bit(acc[i], #[trigger] drivers.last()[i])
    }
}

/// The states of the given component outputs
pub open spec fn output_views(
    ids: Seq<OutputStateId>,
    outputs: &OutputStateAllocator,
) -> Seq<Seq<LogicBitState>> {
    ids.map_values(|o: OutputStateId| outputs.spec_states()[o.spec_index() as int]@)
}

/// Whether bit `j` of word `k` lies inside a state of the given width
pub open spec fn in_width(bw: BitWidth, k: int, j: u32) -> bool {
    k * 32 + j < bw.width()
}

/// Combines two word pairs driving the same wire; the second word marks conflicting bits
pub fn combine(a: [u32; 2], b: [u32; 2]) -> (r: ([u32; 2], u32))
    ensures
        forall|j: u32|
            j < 32 ==> #[trigger] word_state(r.0, j) == combine_bit(word_state(a, j), word_state(b, j))
                && (bit_of(r.1, j) <==> conflict_bit(word_state(a, j), word_state(b, j))),
{
    //  A_1 | A_0 |     A     | B_1 | B_0 |     B     | O_1 | O_0 |     O     | conflict
    // -----|-----|-----------|-----|-----|-----------|-----|-----|-----------|----------
    //   0  |  0  | Logic 0   |  1  |  0  | High-Z    |  0  |  0  | Logic 0   | no
    //   1  |  0  | High-Z    |  -  |  -  | any       |  B  |  B  | B         | no
    //   1  |  1  | Undefined |  1  |  0  | High-Z    |  1  |  1  | Undefined | no
    //  any other combination of two sources that are not in high impedance is a conflict
    let plane_0 = a[0] | b[0];
    let plane_1 = a[1] & b[1];
    let conflict = (!a[1] & !b[1]) | (!a[1] & b[0]) | (a[0] & !b[1]) | (a[0] & b[0]);
    let r = ([plane_0, plane_1], conflict);
    assert forall|j: u32| j < 32 implies #[trigger] word_state(r.0, j) == combine_bit(
        word_state(a, j),
        word_state(b, j),
    ) && (bit_of(r.1, j) <==> conflict_bit(word_state(a, j), word_state(b, j))) by {
        assert(bit_of(a[0] | b[0], j) == (bit_of(a[0], j) || bit_of(b[0], j)));
        assert(bit_of(a[1] & b[1], j) == (bit_of(a[1], j) && bit_of(b[1], j)));
        assert(bit_of(conflict, j) == ((!bit_of(a[1], j) && !bit_of(b[1], j)) || (!bit_of(a[1], j)
            && bit_of(b[0], j)) || (bit_of(a[0], j) && !bit_of(b[1], j)) || (bit_of(a[0], j)
            && bit_of(b[0], j))));
    }
    r
}

/// A wire of the simulation
pub struct Wire {
    bit_width: BitWidth,
    state_id: crate::id::WireStateId,
    drivers: IdVec<OutputStateId>,
    driving: IdVec<ComponentId>,
}

impl Wire {
    pub closed spec fn spec_bit_width(&self) -> BitWidth {
        self.bit_width
    }

    pub closed spec fn spec_state_id(&self) -> crate::id::WireStateId {
        self.state_id
    }

    /// The component outputs driving this wire
    pub closed spec fn spec_drivers(&self) -> Seq<OutputStateId> {
        self.drivers@
    }

    /// The components reading this wire
    pub closed spec fn spec_driving(&self) -> Seq<ComponentId> {
        self.driving@
    }

    /// A wire with no drivers that drives nothing
    pub fn new(bit_width: BitWidth, state_id: crate::id::WireStateId) -> (r: Wire)
        ensures
            r.spec_bit_width() == bit_width,
            r.spec_state_id() == state_id,
            r.spec_drivers() == Seq::<OutputStateId>::empty(),
            r.spec_driving() == Seq::<ComponentId>::empty(),
    {
        Wire { bit_width, state_id, drivers: IdVec::new(), driving: IdVec::new() }
    }

    pub fn bit_width(&self) -> (r: BitWidth)
        ensures
            r == self.spec_bit_width(),
    {
        self.bit_width
    }

    pub fn state_id(&self) -> (r: crate::id::WireStateId)
        ensures
            r == self.spec_state_id(),
    {
        self.state_id
    }

    /// The component outputs driving this wire
    pub fn drivers(&self) -> (r: &[OutputStateId])
        ensures
            r@ == self.spec_drivers(),
    {
        self.drivers.as_slice()
    }

    /// The components reading this wire
    pub fn driving(&self) -> (r: &[ComponentId])
        ensures
            r@ == self.spec_driving(),
    {
        self.driving.as_slice()
    }

    /// Whether every driver of this wire names an output state of its width
    pub open spec fn drivers_fit(&self, outputs: &OutputStateAllocator) -> bool {
        forall|n: int|
            0 <= n < self.spec_drivers().len() ==> #[trigger] self.spec_drivers()[n].spec_index()
                < outputs.spec_states().len() && outputs.spec_states()[self.spec_drivers()[n].spec_index() as int].bit_width()
                == self.spec_bit_width()
    }

    /// Combines the drive of the wire with the outputs driving it and stores the result as
    /// the new state of the wire
    ///
    /// Returns `Conflict` if two sources drove the same bit, otherwise whether the state
    /// changed.
    pub fn update(
        &self,
        state: &mut LogicState,
        drive: &LogicState,
        outputs: &OutputStateAllocator,
    ) -> (r: WireUpdateResult)
        requires
            old(state).bit_width() == self.spec_bit_width(),
            drive.bit_width() == self.spec_bit_width(),
            self.drivers_fit(outputs),
        ensures
            final(state).bit_width() == old(state).bit_width(),
            final(state)@ == resolve(drive@, output_views(self.spec_drivers(), outputs)),
            (r == WireUpdateResult::Conflict) <==> resolve_conflicts(
                drive@,
                output_views(self.spec_drivers(), outputs),
            ),
            (r == WireUpdateResult::Unchanged) <==> (!resolve_conflicts(
                drive@,
                output_views(self.spec_drivers(), outputs),
            ) && forall|k: int|
                0 <= k < self.spec_bit_width().spec_word_len() ==> old(state).same_word(
                    &*final(state),
                    k,
                )),
            r == WireUpdateResult::Unchanged ==> *final(state) == *old(state),
    {
        broadcast use BitWidth::lemma_width_range;
        let bw = self.bit_width;
        let word_len = bw.word_len() as usize;
        let mask = bw.last_word_mask();
        let mut tmp = LogicState::logic_0(bw);
        let _ = tmp.copy_from(drive);
        let ghost ds = output_views(self.spec_drivers(), outputs);
        let ghost width = bw.width();
        let mut conflict: u32 = 0;
        let mut n: usize = 0;
        assert(ds.take(0) =~= Seq::<Seq<LogicBitState>>::empty());
        while n < self.drivers.len()
            invariant
                ds == output_views(self.spec_drivers(), outputs),
                self.drivers_fit(outputs),
                width == bw.width(),
                bw == self.spec_bit_width(),
                drive.bit_width() == bw,
                word_len == bw.spec_word_len(),
                1 <= word_len <= 8,
                forall|j: u32| j < 32 ==> (#[trigger] bit_of(mask, j) <==> j < bw.spec_last_word_width()),
                n <= self.spec_drivers().len(),
                tmp.bit_width() == bw,
                tmp@ == resolve(drive@, ds.take(n as int)),
                (conflict != 0) == resolve_conflicts(drive@, ds.take(n as int)),
            decreases self.spec_drivers().len() - n,
        {
            let driver = self.drivers.get(n);
            let d = outputs.get(driver);
            let ghost acc = tmp;
            let ghost prev_conflict = conflict;
            let mut k: usize = 0;
            while k < word_len
                invariant
                    width == bw.width(),
                    word_len == bw.spec_word_len(),
                    1 <= word_len <= 8,
                    forall|j: u32|
                        j < 32 ==> (#[trigger] bit_of(mask, j) <==> j < bw.spec_last_word_width()),
                    k <= word_len,
                    tmp.bit_width() == bw,
                    acc.bit_width() == bw,
                    d.bit_width() == bw,
                    forall|m: int, j: u32|
                        0 <= m < k && j < 32 && in_width(bw, m, j) ==> #[trigger] state_word_bit(
                            tmp,
                            m,
                            j,
                        ) == combine_bit(state_word_bit(acc, m, j), state_word_bit(*d, m, j)),
                    forall|m: int| k <= m < 8 ==> tmp.same_word(&acc, m),
                    (conflict != 0) == (prev_conflict != 0 || exists|m: int, j: u32|
                        0 <= m < k && j < 32 && in_width(bw, m, j) && conflict_bit(
                            #[trigger] state_word_bit(acc, m, j),
                            state_word_bit(*d, m, j),
                        )),
                decreases word_len - k,
            {
                let x = tmp.get_word(k);
                let y = d.get_word(k);
                let (w, nc) = combine(x, y);
                let m: u32 = if k == word_len - 1 {
                    mask
                } else {
                    0xffff_ffff
                };
                let ghost prev = tmp;
                let ghost old_conflict = conflict;
                tmp.set_word(k, [w[0] & m, w[1] & m]);
                conflict = conflict | (nc & m);
                proof {
                    assert(forall|j: u32| j < 32 ==> (bit_of(m, j) <==> in_width(bw, k as int, j)));
                    assert forall|mm: int, j: u32|
                        0 <= mm < k + 1 && j < 32 && in_width(bw, mm, j) implies #[trigger] state_word_bit(
                        tmp,
                        mm,
                        j,
                    ) == combine_bit(state_word_bit(acc, mm, j), state_word_bit(*d, mm, j)) by {
                        if mm < k {
                            assert(state_word_bit(tmp, mm, j) == state_word_bit(prev, mm, j));
                        } else {
                            assert(bit_of(m, j));
                            assert(prev.same_word(&acc, mm));
                            assert(word_state(w, j) == combine_bit(word_state(x, j), word_state(y, j)));
                        }
                    }
                    assert forall|mm: int| k + 1 <= mm < 8 implies tmp.same_word(&acc, mm) by {
                        assert(prev.same_word(&acc, mm));
                    }
                    assert(conflict == old_conflict | (nc & m));
                    assert((old_conflict | (nc & m)) == 0u32 <==> (old_conflict == 0u32 && (nc & m)
                        == 0u32)) by (bit_vector);
                    assert(prev.same_word(&acc, k as int));
                    if (nc & m) != 0 {
                        lemma_words_differ(nc & m, 0);
                        let j = choose|j: u32| j < 32 && bit_of(nc & m, j) != bit_of(0, j);
                        lemma_bit_zero(j);
                        assert(bit_of(nc, j) && bit_of(m, j));
                        assert(word_state(x, j) == state_word_bit(acc, k as int, j));
                        assert(word_state(y, j) == state_word_bit(*d, k as int, j));
                        assert(word_state(w, j) == combine_bit(word_state(x, j), word_state(y, j)));
                        assert(conflict_bit(state_word_bit(acc, k as int, j), state_word_bit(*d, k as int, j)));
                    } else {
                        assert forall|j: u32| j < 32 && in_width(bw, k as int, j) implies !conflict_bit(
                            state_word_bit(acc, k as int, j),
                            state_word_bit(*d, k as int, j),
                        ) by {
                            lemma_bit_zero(j);
                            assert(bit_of(m, j));
                            assert(!bit_of(nc & m, j));
                            assert(word_state(x, j) == state_word_bit(acc, k as int, j));
                            assert(word_state(y, j) == state_word_bit(*d, k as int, j));
                            assert(word_state(w, j) == combine_bit(word_state(x, j), word_state(y, j)));
                        }
                    }
                }
                k = k + 1;
            }
            proof {
                let ds1 = ds.take(n + 1);
                assert(ds1.drop_last() =~= ds.take(n as int));
                assert(ds1.last() == d@);
                assert(d@.len() == width);
                assert forall|i: int| 0 <= i < width implies tmp@[i] == combine_bit(
                    acc@[i],
                    d@[i],
                ) by {
                    lemma_state_bit(tmp, i);
                    lemma_state_bit(acc, i);
                    lemma_state_bit(*d, i);
                }
                assert(ds1.len() > 0);
                assert(acc@ == resolve(drive@, ds1.drop_last()));
                assert(resolve(drive@, ds1) == Seq::new(
                    drive@.len(),
                    |i: int| combine_bit(resolve(drive@, ds1.drop_last())[i], ds1.last()[i]),
                ));
                assert(drive@.len() == width);
                assert(tmp@.len() == width);
                assert forall|i: int| 0 <= i < width implies tmp@[i] == resolve(drive@, ds1)[i] by {
                    assert(tmp@[i] == combine_bit(acc@[i], d@[i]));
                }
                assert(tmp@ =~= resolve(drive@, ds1));
                let ex = exists|i: int|
                    0 <= i < drive@.len() && conflict_bit(acc@[i], #[trigger] ds1.last()[i]);
                if ex {
                    let i = choose|i: int|
                        0 <= i < drive@.len() && conflict_bit(acc@[i], #[trigger] ds1.last()[i]);
                    lemma_state_bit(acc, i);
                    lemma_state_bit(*d, i);
                    let mm = i / 32;
                    let j = (i % 32) as u32;
                    assert(in_width(bw, mm, j));
                    assert(conflict_bit(state_word_bit(acc, mm, j), state_word_bit(*d, mm, j)));
                }
                if exists|m: int, j: u32|
                    0 <= m < word_len && j < 32 && in_width(bw, m, j) && conflict_bit(
                        #[trigger] state_word_bit(acc, m, j),
                        state_word_bit(*d, m, j),
                    ) {
                    let (mm, j) = choose|m: int, j: u32|
                        0 <= m < word_len && j < 32 && in_width(bw, m, j) && conflict_bit(
                            #[trigger] state_word_bit(acc, m, j),
                            state_word_bit(*d, m, j),
                        );
                    let i = mm * 32 + j;
                    lemma_state_bit(acc, i);
                    lemma_state_bit(*d, i);
                    assert(i / 32 == mm && i % 32 == j);
                    assert(conflict_bit(acc@[i], ds1.last()[i]));
                }
                assert((conflict != 0) == resolve_conflicts(drive@, ds1));
            }
            n = n + 1;
        }
        assert(ds.take(n as int) =~= ds);
        let ghost before = *state;
        let res = state.copy_from(&tmp);
        proof {
            if res == CopyFromResult::Unchanged {
                assert forall|k: int| 0 <= k < word_len implies before.same_word(&*state, k) by {
                    assert(before.same_word(&tmp, k));
                    assert(state.same_word(&tmp, k));
                }
            } else {
                let k = choose|k: int| 0 <= k < word_len && !before.same_word(&tmp, k);
                assert(state.same_word(&tmp, k));
                assert(!before.same_word(&*state, k));
            }
        }
        if conflict != 0 {
            WireUpdateResult::Conflict
        } else {
            WireUpdateResult::from(res)
        }
    }

    /// Adds a component output driving this wire
    pub fn add_driver(&mut self, output: OutputStateId)
        ensures
            final(self).spec_bit_width() == old(self).spec_bit_width(),
            final(self).spec_state_id() == old(self).spec_state_id(),
            final(self).spec_drivers() == old(self).spec_drivers().push(output),
            final(self).spec_driving() == old(self).spec_driving(),
    {
        self.drivers.push(output);
    }

    /// Adds a component reading this wire, unless it is already listed
    pub fn add_driving(&mut self, component: ComponentId)
        ensures
            final(self).spec_bit_width() == old(self).spec_bit_width(),
            final(self).spec_state_id() == old(self).spec_state_id(),
            final(self).spec_drivers() == old(self).spec_drivers(),
            final(self).spec_driving() == if old(self).spec_driving().contains(component) {
                old(self).spec_driving()
            } else {
                old(self).spec_driving().push(component)
            },
    {
        if !self.driving.contains(component) {
            self.driving.push(component);
        }
    }
}

impl From<CopyFromResult> for WireUpdateResult {
    fn from(value: CopyFromResult) -> (r: WireUpdateResult) {
        match value {
            CopyFromResult::Unchanged => WireUpdateResult::Unchanged,
            CopyFromResult::Changed => WireUpdateResult::Changed,
        }
    }
}

impl FromSpecImpl<CopyFromResult> for WireUpdateResult {
    open spec fn obeys_from_spec() -> bool {
        true
    }

    open spec fn from_spec(v: CopyFromResult) -> WireUpdateResult {
        match v {
            CopyFromResult::Unchanged => WireUpdateResult::Unchanged,
            CopyFromResult::Changed => WireUpdateResult::Changed,
        }
    }
}

} // verus!
