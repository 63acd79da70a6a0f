//! Triple buffering for grids: a wait-free handoff of one grid snapshot from
//! the protocol thread (the writer role) to the presentation thread (the
//! reader role).
//!
//! Three slots each hold one grid. The writer owns its input slot, the
//! reader owns its output slot, and the third slot is the back slot, whose
//! ownership transfers through one packed descriptor byte holding the back
//! slot's index and a dirty bit. Each operation performs exactly one swap of
//! that descriptor, so any interleaving of `publish` and `acquire` is a
//! sequence of these two transitions; no two roles ever compute the same
//! slot index.

use crate::lines::{Lines, LinesV};
use vstd::prelude::*;

verus! {

/// The descriptor bits holding the back slot's index.
pub const BACK_INDEX_MASK: u8 = 0b11;

/// The descriptor bit marking an unconsumed publication.
pub const BACK_DIRTY_BIT: u8 = 0b100;

/// The three grid slots and the packed back-slot descriptor, together with
/// each role's current slot index.
#[derive(Debug)]
pub struct TripleBuffer {
    slot_a: Lines,
    slot_b: Lines,
    slot_c: Lines,
    back_info: u8,
    input_idx: u8,
    output_idx: u8,
}

/// Spec-level value of a [`TripleBuffer`].
pub struct TripleBufferV {
    /// The three slots' grids.
    pub slots: Seq<LinesV>,
    /// The packed descriptor: back slot index and dirty bit.
    pub back_info: u8,
    /// The writer's slot index.
    pub input_idx: u8,
    /// The reader's slot index.
    pub output_idx: u8,
}

impl View for TripleBuffer {
    type V = TripleBufferV;

    closed spec fn view(&self) -> TripleBufferV {
        TripleBufferV {
            slots: seq![self.slot_a@, self.slot_b@, self.slot_c@],
            back_info: self.back_info,
            input_idx: self.input_idx,
            output_idx: self.output_idx,
        }
    }
}

/// The back slot's index, unpacked from the descriptor.
pub open spec fn back_idx(v: TripleBufferV) -> u8 {
    v.back_info & BACK_INDEX_MASK
}

/// Whether the back slot holds a publication the reader has not consumed.
pub open spec fn back_dirty(v: TripleBufferV) -> bool {
    v.back_info & BACK_DIRTY_BIT != 0
}

/// The buffer's core invariant: three slots, each of the three roles
/// holding a distinct one. The writer's and reader's slots never coincide,
/// so neither role ever sees the other's half-written state.
pub open spec fn tb_wf(v: TripleBufferV) -> bool {
    &&& v.slots.len() == 3
    &&& v.input_idx < 3
    &&& v.output_idx < 3
    &&& back_idx(v) < 3
    &&& v.input_idx != v.output_idx
    &&& v.input_idx != back_idx(v)
    &&& v.output_idx != back_idx(v)
}

/// In a well-formed buffer the three roles hold pairwise distinct slots; in
/// particular the reader's slot is never the slot the writer is mutating.
pub proof fn lemma_roles_disjoint(v: TripleBufferV)
    requires
        tb_wf(v),
    ensures
        v.input_idx != v.output_idx,
        v.input_idx != back_idx(v),
        v.output_idx != back_idx(v),
{
}

/// Builds the buffer in its initial state: the back slot is slot 0 and not
/// dirty, the writer owns slot 1, the reader owns slot 2.
pub fn new_triple_buffer() -> (r: TripleBuffer)
    ensures
        tb_wf(r@),
        r@.back_info == 0,
        r@.input_idx == 1,
        r@.output_idx == 2,
        forall|i: int| 0 <= i < 3 ==> crate::lines::wf(#[trigger] r@.slots[i]),
        forall|i: int| 0 <= i < 3 ==> (#[trigger] r@.slots[i]).rows == 0,
{
    let r = TripleBuffer {
        slot_a: Lines::default(),
        slot_b: Lines::default(),
        slot_c: Lines::default(),
        back_info: 0,
        input_idx: 1,
        output_idx: 2,
    };
    proof {
        assert(0u8 & BACK_INDEX_MASK == 0) by (bit_vector);
    }
    r
}

impl TripleBuffer {
    /// The writer's slot index: what `buffer` mutates.
    pub fn input_index(&self) -> (r: u8)
        ensures
            r == self@.input_idx,
    {
        self.input_idx
    }

    /// The reader's slot index: what `output` and `acquire` return.
    pub fn output_index(&self) -> (r: u8)
        ensures
            r == self@.output_idx,
    {
        self.output_idx
    }

    /// The packed back-slot descriptor.
    pub fn back_descriptor(&self) -> (r: u8)
        ensures
            r == self@.back_info,
    {
        self.back_info
    }

    /// The writer's current input slot, to mutate freely: the protocol
    /// thread applies grid events here.
    pub fn buffer(&mut self) -> (r: &mut Lines)
        requires
            tb_wf(old(self)@),
        ensures
            (*r)@ == old(self)@.slots[old(self)@.input_idx as int],
            final(self)@.slots =~= old(self)@.slots.update(
                old(self)@.input_idx as int,
                (*final(r))@,
            ),
            final(self)@.back_info == old(self)@.back_info,
            final(self)@.input_idx == old(self)@.input_idx,
            final(self)@.output_idx == old(self)@.output_idx,
    {
        let idx = self.input_idx;
        if idx == 0 {
            &mut self.slot_a
        } else if idx == 1 {
            &mut self.slot_b
        } else {
            &mut self.slot_c
        }
    }

    /// The reader's current output slot, without checking for a new
    /// publication.
    pub fn output(&self) -> (r: &Lines)
        requires
            tb_wf(self@),
        ensures
            r@ == self@.slots[self@.output_idx as int],
    {
        let idx = self.output_idx;
        if idx == 0 {
            &self.slot_a
        } else if idx == 1 {
            &self.slot_b
        } else {
            &self.slot_c
        }
    }

    /// Publishes the writer's slot: swaps it with the back slot, marking the
    /// publication dirty, then copies the just-published grid into the new
    /// input slot so the next round starts from the latest complete state.
    /// Returns whether the previous publication had not yet been consumed:
    /// a pending redraw is still in flight and a duplicate wake can be
    /// skipped.
    pub fn publish(&mut self) -> (r: bool)
        requires
            tb_wf(old(self)@),
        ensures
            tb_wf(final(self)@),
            r == back_dirty(old(self)@),
            back_idx(final(self)@) == old(self)@.input_idx,
            back_dirty(final(self)@),
            final(self)@.input_idx == back_idx(old(self)@),
            final(self)@.output_idx == old(self)@.output_idx,
            final(self)@.slots == old(self)@.slots.update(
                back_idx(old(self)@) as int,
                old(self)@.slots[old(self)@.input_idx as int],
            ),
    {
        let old_input = self.input_idx;
        // One atomic swap of the descriptor in the concurrent setting.
        let former = self.back_info;
        self.back_info = self.input_idx | BACK_DIRTY_BIT;
        self.input_idx = former & BACK_INDEX_MASK;
        proof {
            let inp = old(self)@.input_idx;
            assert((inp | BACK_DIRTY_BIT) & BACK_INDEX_MASK == inp && (inp | BACK_DIRTY_BIT)
                & BACK_DIRTY_BIT != 0) by (bit_vector)
                requires
                    inp < 3,
            ;
        }
        // The old back slot is now the input slot: bring it up to date with
        // the published grid.
        let fresh = if old_input == 0 {
            self.slot_a.clone()
        } else if old_input == 1 {
            self.slot_b.clone()
        } else {
            self.slot_c.clone()
        };
        let idx = self.input_idx;
        if idx == 0 {
            self.slot_a = fresh;
        } else if idx == 1 {
            self.slot_b = fresh;
        } else {
            self.slot_c = fresh;
        }
        proof {
            assert(final(self)@.slots =~= old(self)@.slots.update(
                back_idx(old(self)@) as int,
                old(self)@.slots[old(self)@.input_idx as int],
            ));
        }
        former & BACK_DIRTY_BIT != 0
    }

    /// Takes the latest publication if there is one: when the dirty bit is
    /// set, swaps the reader's slot with the back slot, implicitly clearing
    /// the bit by taking ownership; otherwise keeps the current slot, which
    /// is always safe to re-read. Returns the (possibly just updated)
    /// output slot.
    pub fn acquire(&mut self) -> (r: &Lines)
        requires
            tb_wf(old(self)@),
        ensures
            tb_wf(final(self)@),
            final(self)@.slots == old(self)@.slots,
            final(self)@.input_idx == old(self)@.input_idx,
            back_dirty(old(self)@) ==> {
                &&& final(self)@.output_idx == back_idx(old(self)@)
                &&& back_idx(final(self)@) == old(self)@.output_idx
                &&& !back_dirty(final(self)@)
            },
            !back_dirty(old(self)@) ==> final(self)@.back_info == old(self)@.back_info
                && final(self)@.output_idx == old(self)@.output_idx,
            r@ == final(self)@.slots[final(self)@.output_idx as int],
    {
        if self.back_info & BACK_DIRTY_BIT != 0 {
            // One atomic swap of the descriptor in the concurrent setting.
            let former = self.back_info;
            self.back_info = self.output_idx;
            self.output_idx = former & BACK_INDEX_MASK;
            proof {
                let out = old(self)@.output_idx;
                assert(out & BACK_INDEX_MASK == out && out & BACK_DIRTY_BIT == 0) by (bit_vector)
                    requires
                        out < 3,
                ;
            }
        }
        let idx = self.output_idx;
        if idx == 0 {
            &self.slot_a
        } else if idx == 1 {
            &self.slot_b
        } else {
            &self.slot_c
        }
    }
}

} // verus!
