//! One side of the book: a stable arena of levels, a price-to-index map of
//! the active levels, a holding map for the levels drained empty, and the
//! best-level pointer. An emptied level is never freed; its entry moves to
//! the holding map so that its index stays valid and a new order at the same
//! price revives the level in place.

use vstd::prelude::*;
use crate::arena::{arena_slots, LevelArena};
use crate::level::Level;
use crate::maps::LevelMap;
use crate::primitives::{LevelIndex, LimitOrder, OrderSide, Price, Volume, remaining_of};

verus! {

/// Price levels of one side, keyed by price.
pub struct Limits {
    /// Arena of levels; an index handed out stays valid for the book's life.
    pub levels: LevelArena,
    /// Price key of each active level to its arena index.
    pub level_map: LevelMap,
    /// Price key of each drained level to its arena index, kept so the level
    /// can be revived at the same index.
    pub removed_levels: LevelMap,
    /// The best level: highest price for bids, lowest for asks. Cleared when
    /// the best level drains; recomputed lazily on the next need.
    pub best: Option<LevelIndex>,
}

impl Limits {
    /// The arena's slots.
    pub open spec fn slots(self) -> Seq<Option<Level>> {
        arena_slots(&self.levels)
    }

    /// The active price map.
    pub open spec fn active(self) -> Map<u64, LevelIndex> {
        self.level_map@
    }

    /// The holding map of drained levels.
    pub open spec fn removed(self) -> Map<u64, LevelIndex> {
        self.removed_levels@
    }

    /// The level stored at a slot.
    pub open spec fn level_of(self, i: int) -> Level {
        self.slots()[i]->Some_0
    }

    /// A map entry is sound: it points inside the arena at a level carrying
    /// exactly that price and its own index.
    pub open spec fn entry_ok(self, p: u64, ix: LevelIndex) -> bool {
        &&& ix.spec_value() < self.slots().len()
        &&& self.slots()[ix.spec_value() as int] is Some
        &&& self.level_of(ix.spec_value() as int).spec_price() == p
        &&& self.level_of(ix.spec_value() as int).spec_index() matches Some(own) && own.spec_value()
            == ix.spec_value()
    }

    /// Whether some map (active or holding) knows this price.
    pub open spec fn has_price(self, p: u64) -> bool {
        self.active().contains_key(p) || self.removed().contains_key(p)
    }

    /// The index recorded for a known price.
    pub open spec fn index_of(self, p: u64) -> LevelIndex {
        if self.active().contains_key(p) {
            self.active()[p]
        } else {
            self.removed()[p]
        }
    }

    /// The total volume resting at a price: the active level's total, or
    /// nothing where no active level exists.
    pub open spec fn vol_at(self, p: u64) -> int {
        if self.active().contains_key(p) {
            self.level_of(self.active()[p].spec_value() as int).spec_volume() as int
        } else {
            0
        }
    }

    /// Well-formedness of one side:
    /// - every map entry points at a slot holding a level with that price;
    /// - the active and holding maps share no price;
    /// - every slot is filled (levels are never removed from the arena) and
    ///   its price maps back to its own index in exactly one of the maps;
    /// - drained levels hold no volume, active levels hold some;
    /// - the best pointer, when set, points at an active level.
    pub open spec fn wf(self) -> bool {
        &&& forall|p: u64| #[trigger] self.active().contains_key(p) ==> self.entry_ok(
            p,
            self.active()[p],
        )
        &&& forall|p: u64| #[trigger] self.removed().contains_key(p) ==> self.entry_ok(
            p,
            self.removed()[p],
        )
        &&& forall|p: u64|
            !(#[trigger] self.active().contains_key(p) && self.removed().contains_key(p))
        &&& forall|i: int| 0 <= i < self.slots().len() ==> (#[trigger] self.slots()[i]) is Some
        &&& forall|i: int|
            0 <= i < self.slots().len() ==> {
                let p = (#[trigger] self.level_of(i)).spec_price();
                self.has_price(p) && self.index_of(p).spec_value() == i
            }
        &&& forall|p: u64| #[trigger] self.removed().contains_key(p) ==> self.level_of(
            self.removed()[p].spec_value() as int,
        ).spec_volume() == 0
        &&& forall|p: u64| #[trigger] self.active().contains_key(p) ==> self.level_of(
            self.active()[p].spec_value() as int,
        ).spec_volume() > 0
        &&& match self.best {
            Some(b) => {
                &&& b.spec_value() < self.slots().len()
                &&& self.slots()[b.spec_value() as int] is Some
                &&& self.active().contains_key(self.level_of(b.spec_value() as int).spec_price())
                &&& self.active()[self.level_of(b.spec_value() as int).spec_price()].spec_value()
                    == b.spec_value()
            },
            None => true,
        }
    }

    /// Whether any level on this side holds volume.
    pub open spec fn has_positive_level(self) -> bool {
        exists|i: int|
            0 <= i < self.slots().len() && (#[trigger] self.slots()[i]) is Some && self.level_of(
                i,
            ).spec_volume() > 0
    }

    /// The slot holds the side's best: a level with volume whose price is
    /// the extremum (the largest for bids, the smallest for asks) among all
    /// levels with volume.
    pub open spec fn is_best_at(self, b: int, side: OrderSide) -> bool {
        &&& 0 <= b < self.slots().len()
        &&& self.slots()[b] is Some
        &&& self.level_of(b).spec_volume() > 0
        &&& forall|i: int|
            0 <= i < self.slots().len() && (#[trigger] self.slots()[i]) is Some && self.level_of(
                i,
            ).spec_volume() > 0 ==> match side {
                OrderSide::Buy => self.level_of(i).spec_price() <= self.level_of(b).spec_price(),
                OrderSide::Sell => self.level_of(i).spec_price() >= self.level_of(b).spec_price(),
            }
    }

    /// No two slots carry the same price, so a map entry for any other price
    /// points at another slot.
    pub proof fn lemma_distinct(self, i: int)
        requires
            self.wf(),
            0 <= i < self.slots().len(),
        ensures
            forall|q: u64|
                #[trigger] self.active().contains_key(q) && q != self.level_of(i).spec_price()
                    ==> self.active()[q].spec_value() != i,
            forall|q: u64|
                #[trigger] self.removed().contains_key(q) && q != self.level_of(i).spec_price()
                    ==> self.removed()[q].spec_value() != i,
    {
        assert forall|q: u64|
            #[trigger] self.active().contains_key(q) && q != self.level_of(i).spec_price()
                implies self.active()[q].spec_value() != i by {
            assert(self.entry_ok(q, self.active()[q]));
        }
        assert forall|q: u64|
            #[trigger] self.removed().contains_key(q) && q != self.level_of(i).spec_price()
                implies self.removed()[q].spec_value() != i by {
            assert(self.entry_ok(q, self.removed()[q]));
        }
    }

    pub fn new() -> (r: Limits)
        ensures
            r.wf(),
            r.slots() == Seq::<Option<Level>>::empty(),
            r.active() == Map::<u64, LevelIndex>::empty(),
            r.removed() == Map::<u64, LevelIndex>::empty(),
            r.best is None,
    {
        Limits {
            levels: LevelArena::new(),
            level_map: LevelMap::new(),
            removed_levels: LevelMap::new(),
            best: None,
        }
    }

    /// The price of the best level, when one is tracked. For bids the best
    /// is the largest price, for asks the smallest.
    pub fn get_best_limit(&self) -> (r: Option<Price>)
        requires
            self.wf(),
        ensures
            match self.best {
                Some(b) => r matches Some(p) && p.spec_bits() == self.level_of(
                    b.spec_value() as int,
                ).spec_price(),
                None => r is None,
            },
    {
        if let Some(index) = self.best {
            match self.levels.get(index.value()) {
                Some(l) => Some(l.price()),
                None => None,
            }
        } else {
            None
        }
    }

    /// The tracked best level's index.
    pub fn get_best(&self) -> (r: Option<LevelIndex>)
        ensures
            r == self.best,
    {
        self.best
    }

    /// A look at the level at an arena index.
    pub fn get_level(&self, i: usize) -> (r: Option<&Level>)
        ensures
            match r {
                Some(l) => i < self.slots().len() && self.slots()[i as int] == Some(*l),
                None => i >= self.slots().len() || self.slots()[i as int] is None,
            },
    {
        self.levels.get(i)
    }

    /// Take the level at a slot out, leaving a placeholder; the caller puts
    /// it back with another swap.
    pub(crate) fn swap_level(&mut self, i: usize, level: Level) -> (r: Level)
        requires
            i < old(self).slots().len(),
            old(self).slots()[i as int] is Some,
        ensures
            Some(r) == old(self).slots()[i as int],
            final(self).slots() == old(self).slots().update(i as int, Some(level)),
            final(self).active() == old(self).active(),
            final(self).removed() == old(self).removed(),
            final(self).best == old(self).best,
    {
        self.levels.swap(i, level)
    }

    /// Add an order to this side: revive the drained level at its price, or
    /// append to the active one, or open a fresh level (and then move the
    /// best pointer if the new price beats it).
    pub fn add_order(&mut self, order: &LimitOrder)
        requires
            old(self).wf(),
            0 < remaining_of(*order),
            old(self).vol_at(order.price.spec_bits()) + remaining_of(*order) <= u64::MAX,
            old(self).slots().len() < usize::MAX,
        ensures
            final(self).wf(),
            add_transition(*old(self), *final(self), *order),
    {
        let price = order.price;
        let revived = self.removed_levels.remove(&price);
        if let Some(index) = revived {
            self.level_map.insert(price, index);
        }
        let looked_up = self.level_map.get(&price);
        match looked_up {
            None => {
                let mut level = Level::new(price);
                level.add_order(order);
                let n = self.levels.len();
                level.index = Some(LevelIndex::new(n));
                let i = self.levels.push(level);
                self.level_map.insert(price, LevelIndex::new(i));
                match self.best {
                    Some(b) => {
                        let best_price = match self.levels.get(b.value()) {
                            Some(l) => l.price().bits(),
                            None => 0,
                        };
                        match order.side {
                            OrderSide::Buy => {
                                if price.bits() > best_price {
                                    self.best = Some(LevelIndex::new(i));
                                }
                            },
                            OrderSide::Sell => {
                                if price.bits() < best_price {
                                    self.best = Some(LevelIndex::new(i));
                                }
                            },
                        }
                    },
                    None => {
                        self.best = Some(LevelIndex::new(i));
                    },
                }
                proof {
                    let p = price.spec_bits();
                    let n = old(self).slots().len() as int;
                    assert(!old(self).has_price(p));
                    assert(self.removed() =~= old(self).removed());
                    assert forall|j: int| 0 <= j < self.slots().len() implies {
                        let q = (#[trigger] self.level_of(j)).spec_price();
                        self.has_price(q) && self.index_of(q).spec_value() == j
                    } by {
                        let q = self.level_of(j).spec_price();
                        if j < n {
                            assert(old(self).level_of(j).spec_price() == q);
                            assert(old(self).has_price(q) && old(self).index_of(q).spec_value()
                                == j);
                            assert(q != p);
                        } else {
                            assert(q == p);
                        }
                    }
                }
            },
            Some(index) => {
                let i = index.value();
                let mut level = self.levels.swap(i, Level::new(Price::new(0)));
                level.add_order(order);
                let _ = self.levels.swap(i, level);
                proof {
                    let p = price.spec_bits();
                    old(self).lemma_distinct(i as int);
                    assert(self.slots() =~= old(self).slots().update(
                        i as int,
                        self.slots()[i as int],
                    ));
                    assert(self.active() =~= old(self).active().insert(p, old(self).index_of(p)));
                    assert(self.removed() =~= old(self).removed().remove(p));
                    assert forall|j: int| 0 <= j < self.slots().len() implies {
                        let q = (#[trigger] self.level_of(j)).spec_price();
                        self.has_price(q) && self.index_of(q).spec_value() == j
                    } by {
                        let q = self.level_of(j).spec_price();
                        assert(old(self).level_of(j).spec_price() == q);
                        assert(old(self).has_price(q) && old(self).index_of(q).spec_value() == j);
                        if j != i as int && q == p {
                            assert(old(self).index_of(p).spec_value() == i as int);
                        }
                    }
                    assert(self.wf());
                }
                let recompute = match self.best {
                    Some(_) => false,
                    None => true,
                };
                if recompute {
                    proof {
                        assert(self.slots()[i as int] is Some && self.level_of(
                            i as int,
                        ).spec_volume() > 0);
                    }
                    self.update_best(order.side);
                }
            },
        }
    }

    /// Reduce the volume of the active level at a slot, after a cancel or a
    /// fill. A level drained to nothing moves from the active map to the
    /// holding map, and the best pointer is cleared when it pointed there.
    pub(crate) fn reduce_level_volume(&mut self, i: usize, vol: Volume)
        requires
            old(self).wf(),
            i < old(self).slots().len(),
            old(self).slots()[i as int] is Some,
            old(self).active().contains_key(old(self).level_of(i as int).spec_price()),
            old(self).active()[old(self).level_of(i as int).spec_price()].spec_value() == i,
            vol.spec_value() <= old(self).level_of(i as int).spec_volume(),
        ensures
            final(self).wf(),
            reduce_transition(*old(self), *final(self), i as int, vol.spec_value() as int),
    {
        proof {
            old(self).lemma_distinct(i as int);
        }
        let mut level = self.levels.swap(i, Level::new(Price::new(0)));
        let price = level.price();
        level.reduce_volume(vol);
        let now_empty = level.total_volume().is_zero();
        let _ = self.levels.swap(i, level);
        proof {
            assert(self.slots() =~= old(self).slots().update(i as int, self.slots()[i as int]));
        }
        if now_empty {
            let index = self.level_map.remove(&price).unwrap();
            self.removed_levels.insert(price, index);
            match self.best {
                Some(b) => {
                    if b.value() == i {
                        self.best = None;
                    }
                },
                None => {},
            }
        }
        proof {
            let oldm = *old(self);
            let p = oldm.level_of(i as int).spec_price();
            assert forall|j: int| 0 <= j < self.slots().len() implies {
                let q = (#[trigger] self.level_of(j)).spec_price();
                self.has_price(q) && self.index_of(q).spec_value() == j
            } by {
                let q = self.level_of(j).spec_price();
                assert(oldm.level_of(j).spec_price() == q);
                assert(oldm.has_price(q) && oldm.index_of(q).spec_value() == j);
                if j != i as int && q == p {
                    assert(oldm.index_of(p).spec_value() == i as int);
                }
            }
        }
    }

    /// Cancel a resting order on this side: take its remaining volume out of
    /// the level at its price. The order id stays in the level's queue; a
    /// later walk prunes it (lazy cancellation). When no active level exists
    /// at that price nothing changes.
    pub fn cancel_order(&mut self, order: &LimitOrder)
        requires
            old(self).wf(),
            0 <= remaining_of(*order),
            old(self).active().contains_key(order.price.spec_bits()) ==> remaining_of(*order) <= old(
                self,
            ).level_of(
                old(self).active()[order.price.spec_bits()].spec_value() as int,
            ).spec_volume(),
        ensures
            final(self).wf(),
            ({
                let p = order.price.spec_bits();
                if old(self).active().contains_key(p) {
                    reduce_transition(
                        *old(self),
                        *final(self),
                        old(self).active()[p].spec_value() as int,
                        remaining_of(*order),
                    )
                } else {
                    *final(self) == *old(self)
                }
            }),
    {
        let looked_up = self.level_map.get(&order.price);
        match looked_up {
            Some(index) => {
                let rem = order.remaining();
                self.reduce_level_volume(index.value(), Volume::new(rem));
            },
            None => {},
        }
    }

    /// Recompute the best pointer: scan the arena for the extremum price
    /// among levels holding volume (the highest for bids, the lowest for
    /// asks). When no level holds volume the pointer stays as it was.
    pub fn update_best(&mut self, side: OrderSide)
        requires
            old(self).wf(),
        ensures
            final(self).wf(),
            final(self).slots() == old(self).slots(),
            final(self).active() == old(self).active(),
            final(self).removed() == old(self).removed(),
            old(self).has_positive_level() ==> (final(self).best matches Some(b)
                && final(self).is_best_at(b.spec_value() as int, side)),
            !old(self).has_positive_level() ==> final(self).best == old(self).best,
    {
        let n = self.levels.len();
        let mut found: Option<(usize, u64)> = None;
        let mut i: usize = 0;
        while i < n
            invariant
                self.wf(),
                n == self.slots().len(),
                i <= n,
                match found {
                    Some((b, bp)) => {
                        &&& b < n
                        &&& self.slots()[b as int] is Some
                        &&& self.level_of(b as int).spec_volume() > 0
                        &&& bp == self.level_of(b as int).spec_price()
                        &&& forall|j: int|
                            0 <= j < i && (#[trigger] self.slots()[j]) is Some && self.level_of(
                                j,
                            ).spec_volume() > 0 ==> match side {
                                OrderSide::Buy => self.level_of(j).spec_price() <= bp,
                                OrderSide::Sell => self.level_of(j).spec_price() >= bp,
                            }
                    },
                    None => forall|j: int|
                        0 <= j < i ==> !((#[trigger] self.slots()[j]) is Some && self.level_of(
                            j,
                        ).spec_volume() > 0),
                },
            decreases n - i,
        {
            let (vol, price) = match self.levels.get(i) {
                Some(l) => (l.total_volume().value(), l.price().bits()),
                None => (0, 0),
            };
            if vol > 0 {
                match found {
                    Some((_, bp)) => {
                        match side {
                            OrderSide::Buy => {
                                if price > bp {
                                    found = Some((i, price));
                                }
                            },
                            OrderSide::Sell => {
                                if price < bp {
                                    found = Some((i, price));
                                }
                            },
                        }
                    },
                    None => {
                        found = Some((i, price));
                    },
                }
            }
            i = i + 1;
        }
        if let Some((b, _)) = found {
            self.best = Some(LevelIndex::new(b));
        }
    }
}

impl Default for Limits {
    /// An empty side.
    fn default() -> (r: Limits)
        ensures
            r.wf(),
            r.slots() == Seq::<Option<Level>>::empty(),
            r.active() == Map::<u64, LevelIndex>::empty(),
            r.removed() == Map::<u64, LevelIndex>::empty(),
            r.best is None,
    {
        Limits::new()
    }
}

/// How one side changes when an order is added at price `p` (the order's):
/// either the price already has a slot (active or held) — the order joins
/// the back of that level's queue, the level revives into the active map,
/// and a cleared best pointer is recomputed (else left untouched) — or a
/// fresh level opens at the next slot, and the best pointer moves to it when
/// it is the first level or its price beats the old best (larger for a buy,
/// smaller for a sell).
pub open spec fn add_transition(pre: Limits, post: Limits, order: LimitOrder) -> bool {
    let p = order.price.spec_bits();
    if pre.has_price(p) {
        let i = pre.index_of(p).spec_value() as int;
        &&& post.slots().len() == pre.slots().len()
        &&& forall|j: int|
            0 <= j < pre.slots().len() && j != i ==> post.slots()[j] == pre.slots()[j]
        &&& post.level_of(i).spec_price() == p
        &&& post.level_of(i).spec_index() == pre.level_of(i).spec_index()
        &&& post.level_of(i).spec_volume() == pre.level_of(i).spec_volume() + remaining_of(order)
        &&& post.level_of(i).spec_fifo() == pre.level_of(i).spec_fifo().push(order.id)
        &&& post.active() == pre.active().insert(p, pre.index_of(p))
        &&& post.removed() == pre.removed().remove(p)
        &&& if pre.best is Some {
            post.best == pre.best
        } else {
            // the side has volume again, so the cleared pointer is recomputed
            post.best matches Some(b) && post.is_best_at(b.spec_value() as int, order.side)
        }
    } else {
        let n = pre.slots().len() as int;
        &&& post.slots().len() == n + 1
        &&& forall|j: int| 0 <= j < n ==> post.slots()[j] == pre.slots()[j]
        &&& post.level_of(n).spec_price() == p
        &&& post.level_of(n).spec_volume() == remaining_of(order)
        &&& post.level_of(n).spec_fifo() == seq![order.id]
        &&& post.active() == pre.active().insert(p, post.active()[p])
        &&& post.active().contains_key(p)
        &&& post.active()[p].spec_value() == n
        &&& post.removed() == pre.removed()
        &&& post.best == match pre.best {
            None => Some(post.active()[p]),
            Some(b) => {
                let bp = pre.level_of(b.spec_value() as int).spec_price();
                if (order.side is Buy && p > bp) || (order.side is Sell && p < bp) {
                    Some(post.active()[p])
                } else {
                    pre.best
                }
            },
        }
    }
}

/// How one side changes when volume `v` leaves the level at slot `i`: only
/// that level's total shrinks; a level drained to nothing moves from the
/// active map to the holding map and loses the best pointer if it held it.
pub open spec fn reduce_transition(pre: Limits, post: Limits, i: int, v: int) -> bool {
    let p = pre.level_of(i).spec_price();
    let newvol = pre.level_of(i).spec_volume() - v;
    &&& post.slots().len() == pre.slots().len()
    &&& forall|j: int| 0 <= j < pre.slots().len() && j != i ==> post.slots()[j] == pre.slots()[j]
    &&& post.level_of(i).spec_price() == p
    &&& post.level_of(i).spec_index() == pre.level_of(i).spec_index()
    &&& post.level_of(i).spec_volume() == newvol
    &&& post.level_of(i).spec_fifo() == pre.level_of(i).spec_fifo()
    &&& if newvol == 0 {
        &&& post.active() == pre.active().remove(p)
        &&& post.removed() == pre.removed().insert(p, pre.active()[p])
        &&& post.best == (match pre.best {
            Some(b) => if b.spec_value() == i {
                None::<LevelIndex>
            } else {
                pre.best
            },
            None => None::<LevelIndex>,
        })
    } else {
        &&& post.active() == pre.active()
        &&& post.removed() == pre.removed()
        &&& post.best == pre.best
    }
}

/// Replacing a level's queue alone (same price, index and volume) keeps a
/// side well-formed: the maps and the best pointer never read the queue.
pub proof fn lemma_wf_fifo_changed(pre: Limits, post: Limits, i: int)
    requires
        pre.wf(),
        0 <= i < pre.slots().len(),
        post.slots().len() == pre.slots().len(),
        forall|j: int| 0 <= j < pre.slots().len() && j != i ==> post.slots()[j] == pre.slots()[j],
        post.slots()[i] is Some,
        post.level_of(i).spec_price() == pre.level_of(i).spec_price(),
        post.level_of(i).spec_index() == pre.level_of(i).spec_index(),
        post.level_of(i).spec_volume() == pre.level_of(i).spec_volume(),
        post.active() == pre.active(),
        post.removed() == pre.removed(),
        post.best == pre.best,
    ensures
        post.wf(),
{
    assert forall|p: u64| #[trigger] post.active().contains_key(p) implies post.entry_ok(
        p,
        post.active()[p],
    ) by {
        assert(pre.entry_ok(p, pre.active()[p]));
    }
    assert forall|p: u64| #[trigger] post.removed().contains_key(p) implies post.entry_ok(
        p,
        post.removed()[p],
    ) by {
        assert(pre.entry_ok(p, pre.removed()[p]));
    }
    assert forall|j: int| 0 <= j < post.slots().len() implies {
        let q = (#[trigger] post.level_of(j)).spec_price();
        post.has_price(q) && post.index_of(q).spec_value() == j
    } by {
        assert(pre.level_of(j).spec_price() == post.level_of(j).spec_price());
        assert(pre.has_price(pre.level_of(j).spec_price()));
    }
}

} // verus!
