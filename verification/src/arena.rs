//! The stable arena that backs a side's levels. Pushing returns an index
//! that stays valid for the arena's whole life; levels are never removed,
//! only emptied, so every index handed out keeps pointing at its level.
//!
//! The storage is stable-vec's `StableVec`, held in an opaque struct because
//! its type cannot be declared to Verus (its core-storage parameter is bound
//! by an outside trait). Verus sees the arena through `arena_slots`, a name
//! for the sequence of slots up to the next push index, each slot either
//! holding a level or empty; the wrappers below state what each call does to
//! that sequence.

use vstd::prelude::*;
use crate::level::Level;

verus! {

/// A grow-only arena of levels with stable indices.
#[verifier::external_body]
pub struct LevelArena {
    sv: stable_vec::StableVec<Level>,
}

/// The slots of the arena, in index order up to the next push index. A slot
/// is `None` where no element lives (the book never empties one, but the
/// model is faithful to the storage either way).
pub uninterp spec fn arena_slots(a: &LevelArena) -> Seq<Option<Level>>;

impl LevelArena {
    /// Relies on stable-vec's `StableVec::new`: a fresh arena has no slots.
    #[verifier::external_body]
    pub fn new() -> (a: LevelArena)
        ensures
            arena_slots(&a) == Seq::<Option<Level>>::empty(),
    {
        LevelArena { sv: stable_vec::StableVec::new() }
    }

    /// Relies on stable-vec's `StableVecFacade::push`: the element is stored
    /// in a fresh slot at the next push index, which is returned.
    #[verifier::external_body]
    pub fn push(&mut self, level: Level) -> (i: usize)
        ensures
            arena_slots(final(self)) == arena_slots(old(self)).push(Some(level)),
            i == arena_slots(old(self)).len(),
    {
        self.sv.push(level)
    }

    /// Relies on stable-vec's `StableVecFacade::next_push_index`: the number
    /// of slots handed out so far.
    #[verifier::external_body]
    pub fn len(&self) -> (n: usize)
        ensures
            n == arena_slots(self).len(),
    {
        self.sv.next_push_index()
    }

    /// Relies on stable-vec's `StableVecFacade::get`: a reference to the
    /// element in the slot, or `None` where the slot is empty or out of
    /// range.
    #[verifier::external_body]
    pub fn get(&self, i: usize) -> (r: Option<&Level>)
        ensures
            match r {
                Some(l) => i < arena_slots(self).len() && arena_slots(self)[i as int] == Some(*l),
                None => i >= arena_slots(self).len() || arena_slots(self)[i as int] is None,
            },
    {
        self.sv.get(i)
    }

    /// Relies on stable-vec's `StableVecFacade::get_mut`: the element in the
    /// slot is replaced with `level` and handed back.
    #[verifier::external_body]
    pub fn swap(&mut self, i: usize, level: Level) -> (r: Level)
        requires
            i < arena_slots(old(self)).len(),
            arena_slots(old(self))[i as int] is Some,
        ensures
            Some(r) == arena_slots(old(self))[i as int],
            arena_slots(final(self)) == arena_slots(old(self)).update(i as int, Some(level)),
    {
        let slot = self.sv.get_mut(i).unwrap();
        core::mem::replace(slot, level)
    }
}

} // verus!
