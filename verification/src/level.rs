//! A single price point on one side of the book: the total resting volume
//! and the FIFO queue of order ids that arrived at that price.

use vstd::prelude::*;
use std::collections::VecDeque;
use crate::primitives::{LevelIndex, LimitOrder, Oid, Price, Volume, remaining_of};

verus! {

/// One price level. `total_volume` is kept in sync by the layers above: it
/// equals the remaining volume of the queued orders that still exist in the
/// book's order map. The queue may also hold stale ids of orders already
/// cancelled or filled; walkers prune those lazily.
#[derive(Debug)]
pub struct Level {
    pub index: Option<LevelIndex>,
    pub price: Price,
    pub total_volume: Volume,
    pub orders: VecDeque<Oid>,
}

impl Level {
    pub open spec fn spec_price(self) -> u64 {
        self.price.spec_bits()
    }

    pub open spec fn spec_volume(self) -> u64 {
        self.total_volume.spec_value()
    }

    /// The queued ids, oldest first.
    pub open spec fn spec_fifo(self) -> Seq<Oid> {
        self.orders@
    }

    pub open spec fn spec_index(self) -> Option<LevelIndex> {
        self.index
    }

    /// Create a new empty level at a price.
    pub fn new(price: Price) -> (r: Level)
        ensures
            r.spec_price() == price.spec_bits(),
            r.spec_volume() == 0,
            r.spec_fifo() == Seq::<Oid>::empty(),
            r.spec_index() is None,
    {
        let r = Level { index: None, price, total_volume: Volume::new(0), orders: VecDeque::new() };
        proof {
            assert(r.spec_fifo() =~= Seq::<Oid>::empty());
        }
        r
    }

    /// Append an order: its id goes to the back of the queue and its
    /// remaining volume joins the level total.
    pub fn add_order(&mut self, order: &LimitOrder)
        requires
            0 <= remaining_of(*order),
            old(self).spec_volume() + remaining_of(*order) <= u64::MAX,
        ensures
            final(self).spec_price() == old(self).spec_price(),
            final(self).spec_index() == old(self).spec_index(),
            final(self).spec_volume() == old(self).spec_volume() + remaining_of(*order),
            final(self).spec_fifo() == old(self).spec_fifo().push(order.id),
    {
        self.total_volume = Volume::new(self.total_volume.value() + order.remaining());
        self.orders.push_back(order.id);
    }

    /// Subtract filled or cancelled volume from the level total.
    pub fn reduce_volume(&mut self, volume: Volume)
        requires
            volume.spec_value() <= old(self).spec_volume(),
        ensures
            final(self).spec_price() == old(self).spec_price(),
            final(self).spec_index() == old(self).spec_index(),
            final(self).spec_volume() == old(self).spec_volume() - volume.spec_value(),
            final(self).spec_fifo() == old(self).spec_fifo(),
    {
        self.total_volume = Volume::new(self.total_volume.value() - volume.value());
    }

    /// The id at the head of the queue, if any.
    pub fn front(&self) -> (r: Option<Oid>)
        ensures
            match r {
                Some(id) => self.spec_fifo().len() > 0 && id == self.spec_fifo()[0],
                None => self.spec_fifo().len() == 0,
            },
    {
        if self.orders.len() > 0 {
            Some(*(&self.orders[0]))
        } else {
            None
        }
    }

    /// Drop the id at the head of the queue.
    pub fn pop_front(&mut self) -> (r: Option<Oid>)
        ensures
            final(self).spec_price() == old(self).spec_price(),
            final(self).spec_index() == old(self).spec_index(),
            final(self).spec_volume() == old(self).spec_volume(),
            match r {
                Some(id) => old(self).spec_fifo().len() > 0 && id == old(self).spec_fifo()[0]
                    && final(self).spec_fifo() == old(self).spec_fifo().drop_first(),
                None => old(self).spec_fifo().len() == 0
                    && final(self).spec_fifo() == old(self).spec_fifo(),
            },
    {
        let r = self.orders.pop_front();
        proof {
            if old(self).spec_fifo().len() > 0 {
                assert(final(self).spec_fifo() =~= old(self).spec_fifo().drop_first());
            }
        }
        r
    }

    pub fn price(&self) -> (r: Price)
        ensures
            r.spec_bits() == self.spec_price(),
    {
        self.price
    }

    pub fn total_volume(&self) -> (r: Volume)
        ensures
            r.spec_value() == self.spec_volume(),
    {
        self.total_volume
    }
}

} // verus!
