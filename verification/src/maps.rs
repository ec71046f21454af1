//! The two lookup tables of the book: price key to level index on each
//! side, and order id to resting order. Both are hash maps keyed by the
//! plain integer inside the key type.

use vstd::prelude::*;
use std::collections::HashMap;
use crate::primitives::{LevelIndex, LimitOrder, Oid, Price};

verus! {

broadcast use vstd::std_specs::hash::group_hash_axioms;

/// Price key to index of the level at that price.
pub struct LevelMap {
    m: HashMap<u64, LevelIndex>,
}

impl LevelMap {
    /// The map's content, keyed by the price's integer key.
    pub closed spec fn view(&self) -> Map<u64, LevelIndex> {
        self.m@
    }

    pub fn new() -> (r: LevelMap)
        ensures
            r@ == Map::<u64, LevelIndex>::empty(),
    {
        LevelMap { m: HashMap::new() }
    }

    pub fn get(&self, price: &Price) -> (r: Option<LevelIndex>)
        ensures
            match r {
                Some(i) => self@.contains_key(price.spec_bits()) && i == self@[price.spec_bits()],
                None => !self@.contains_key(price.spec_bits()),
            },
    {
        match self.m.get(&price.bits()) {
            Some(i) => Some(*i),
            None => None,
        }
    }

    pub fn insert(&mut self, price: Price, index: LevelIndex)
        ensures
            final(self)@ == old(self)@.insert(price.spec_bits(), index),
    {
        self.m.insert(price.bits(), index);
    }

    pub fn remove(&mut self, price: &Price) -> (r: Option<LevelIndex>)
        ensures
            final(self)@ == old(self)@.remove(price.spec_bits()),
            match r {
                Some(i) => old(self)@.contains_key(price.spec_bits()) && i == old(
                    self,
                )@[price.spec_bits()],
                None => !old(self)@.contains_key(price.spec_bits()),
            },
    {
        self.m.remove(&price.bits())
    }
}

/// Order id to the resting order's full record.
pub struct OrderMap {
    m: HashMap<u64, LimitOrder>,
}

impl OrderMap {
    /// The map's content, keyed by the id's integer value.
    pub closed spec fn view(&self) -> Map<u64, LimitOrder> {
        self.m@
    }

    pub fn new() -> (r: OrderMap)
        ensures
            r@ == Map::<u64, LimitOrder>::empty(),
    {
        OrderMap { m: HashMap::new() }
    }

    pub fn len(&self) -> (n: usize)
        ensures
            n == self@.len(),
    {
        self.m.len()
    }

    pub fn contains_key(&self, id: &Oid) -> (r: bool)
        ensures
            r == self@.contains_key(id.spec_value()),
    {
        self.m.contains_key(&id.value())
    }

    pub fn get(&self, id: &Oid) -> (r: Option<&LimitOrder>)
        ensures
            match r {
                Some(o) => self@.contains_key(id.spec_value()) && *o == self@[id.spec_value()],
                None => !self@.contains_key(id.spec_value()),
            },
    {
        self.m.get(&id.value())
    }

    pub fn insert(&mut self, id: Oid, order: LimitOrder)
        ensures
            final(self)@ == old(self)@.insert(id.spec_value(), order),
    {
        self.m.insert(id.value(), order);
    }

    pub fn remove(&mut self, id: &Oid) -> (r: Option<LimitOrder>)
        ensures
            final(self)@ == old(self)@.remove(id.spec_value()),
            match r {
                Some(o) => old(self)@.contains_key(id.spec_value()) && o == old(
                    self,
                )@[id.spec_value()],
                None => !old(self)@.contains_key(id.spec_value()),
            },
    {
        self.m.remove(&id.value())
    }
}

} // verus!
