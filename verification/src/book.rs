//! The limit order book: the two sides, the order map, and the spread.
//! Trades happen when the highest bid price reaches the lowest ask price
//! (the book is crossed); an order that cannot fill immediately rests on its
//! side.

use vstd::prelude::*;
use crate::level::Level;
use crate::limits::Limits;
use crate::maps::OrderMap;
use crate::model::{
    count_id, first_live, live_sum, orders_sound, pruned, slots_vol_sum, lemma_count_push,
    lemma_count_nonneg, lemma_live_sum_push, lemma_live_sum_same, lemma_live_sum_remove_once,
    lemma_live_sum_update_once, lemma_live_sum_nonneg, lemma_first_live,
    lemma_slots_vol_sum_update,
};
use crate::primitives::{
    filled_of, remaining_of, LevelIndex, LimitOrder, Oid, Order, OrderSide, Price, Spread, Volume,
};

verus! {

/// Why an operation on the book could not produce a result.
#[derive(Debug, Clone, PartialEq)]
pub enum OrderBookError {
    /// Order cannot be placed
    OrderCannotBePlaced(String),
    /// No crossable pair of orders exists; not fatal.
    NoOrderToMatch,
    /// Cancellation failed.
    CancelOrderError(CancelOrderError),
    /// The best pointer is stale: the level it points at holds no volume.
    /// The caller recomputes the bests and may retry; not fatal.
    LevelHasNoValidOrders,
}

/// Outcome of a cancellation.
#[derive(Debug, Clone, PartialEq, Eq)]
pub enum CancellationStatus {
    /// Order was cancelled
    Cancelled,
    /// Order was not cancelled
    NotCancelled(String),
}

/// Report handed to the submitter after a cancellation.
#[derive(Debug, Clone)]
pub struct CancellationReport {
    pub order_id: Oid,
    pub status: CancellationStatus,
}

/// Why a cancellation failed.
#[derive(Debug, Clone, PartialEq)]
pub enum CancelOrderError {
    /// No resting order has this id.
    NotFound(Oid),
    /// The order with this id was already cancelled.
    AlreadyCancelled(Oid),
}

/// One match between a buy and a sell order. Both sides' prices are
/// reported; a consumer that needs one trade price conventionally takes the
/// resting (older) side's.
#[derive(Debug, Clone)]
pub struct Fill {
    pub buy_order_id: Oid,
    pub sell_order_id: Oid,
    pub buy_order_price: Price,
    pub sell_order_price: Price,
    pub volume: Volume,
}

/// One match between a market order and a resting limit order.
#[derive(Debug, Clone)]
pub struct FillAtMarket {
    pub market_order_id: Oid,
    pub order_id: Oid,
    pub order_price: Price,
    pub filled_volume: Volume,
}

/// Pop stale ids off the front of the level at slot `i` until a live order
/// heads the queue or the queue is empty. Cancelled and filled orders leave
/// their ids behind in the queues (lazy cancellation); this walk is the one
/// place that prunes them.
fn prune_level(lim: &mut Limits, orders: &OrderMap, i: usize)
    requires
        old(lim).wf(),
        i < old(lim).slots().len(),
        old(lim).slots()[i as int] is Some,
    ensures
        final(lim).wf(),
        final(lim).slots().len() == old(lim).slots().len(),
        forall|j: int|
            0 <= j < old(lim).slots().len() && j != i ==> final(lim).slots()[j] == old(
                lim,
            ).slots()[j],
        final(lim).slots()[i as int] is Some,
        final(lim).level_of(i as int).spec_price() == old(lim).level_of(i as int).spec_price(),
        final(lim).level_of(i as int).spec_index() == old(lim).level_of(i as int).spec_index(),
        final(lim).level_of(i as int).spec_volume() == old(lim).level_of(i as int).spec_volume(),
        final(lim).active() == old(lim).active(),
        final(lim).removed() == old(lim).removed(),
        final(lim).best == old(lim).best,
        final(lim).level_of(i as int).spec_fifo() == pruned(
            old(lim).level_of(i as int).spec_fifo(),
            orders@,
        ),
        live_sum(final(lim).level_of(i as int).spec_fifo(), orders@) == live_sum(
            old(lim).level_of(i as int).spec_fifo(),
            orders@,
        ),
        forall|k: u64|
            #[trigger] orders@.contains_key(k) ==> count_id(
                final(lim).level_of(i as int).spec_fifo(),
                k,
            ) == count_id(old(lim).level_of(i as int).spec_fifo(), k),
        first_live(final(lim).level_of(i as int).spec_fifo(), orders@) == first_live(
            old(lim).level_of(i as int).spec_fifo(),
            orders@,
        ),
        final(lim).level_of(i as int).spec_fifo().len() > 0 ==> orders@.contains_key(
            final(lim).level_of(i as int).spec_fifo()[0].spec_value(),
        ) && first_live(old(lim).level_of(i as int).spec_fifo(), orders@) == Some(
            final(lim).level_of(i as int).spec_fifo()[0],
        ),
        final(lim).level_of(i as int).spec_fifo().len() == 0 ==> first_live(
            old(lim).level_of(i as int).spec_fifo(),
            orders@,
        ) is None,
{
    let mut go = true;
    while go
        invariant
            lim.wf(),
            i < lim.slots().len(),
            lim.slots().len() == old(lim).slots().len(),
            forall|j: int|
                0 <= j < old(lim).slots().len() && j != i ==> lim.slots()[j] == old(
                    lim,
                ).slots()[j],
            lim.slots()[i as int] is Some,
            lim.level_of(i as int).spec_price() == old(lim).level_of(i as int).spec_price(),
            lim.level_of(i as int).spec_index() == old(lim).level_of(i as int).spec_index(),
            lim.level_of(i as int).spec_volume() == old(lim).level_of(i as int).spec_volume(),
            lim.active() == old(lim).active(),
            lim.removed() == old(lim).removed(),
            lim.best == old(lim).best,
            pruned(lim.level_of(i as int).spec_fifo(), orders@) == pruned(
                old(lim).level_of(i as int).spec_fifo(),
                orders@,
            ),
            live_sum(lim.level_of(i as int).spec_fifo(), orders@) == live_sum(
                old(lim).level_of(i as int).spec_fifo(),
                orders@,
            ),
            forall|k: u64|
                #[trigger] orders@.contains_key(k) ==> count_id(
                    lim.level_of(i as int).spec_fifo(),
                    k,
                ) == count_id(old(lim).level_of(i as int).spec_fifo(), k),
            first_live(lim.level_of(i as int).spec_fifo(), orders@) == first_live(
                old(lim).level_of(i as int).spec_fifo(),
                orders@,
            ),
            !go ==> (lim.level_of(i as int).spec_fifo().len() == 0 || orders@.contains_key(
                lim.level_of(i as int).spec_fifo()[0].spec_value(),
            )),
        decreases lim.level_of(i as int).spec_fifo().len() + (if go {
            1int
        } else {
            0
        }),
    {
        let front = match lim.get_level(i) {
            Some(l) => l.front(),
            None => None,
        };
        match front {
            None => {
                go = false;
            },
            Some(id) => {
                if orders.contains_key(&id) {
                    go = false;
                } else {
                    let ghost before = *lim;
                    let mut level = lim.swap_level(i, Level::new(Price::new(0)));
                    level.pop_front();
                    let _ = lim.swap_level(i, level);
                    proof {
                        assert(lim.slots() =~= before.slots().update(
                            i as int,
                            lim.slots()[i as int],
                        ));
                        crate::limits::lemma_wf_fifo_changed(before, *lim, i as int);
                        assert forall|k: u64| #[trigger] orders@.contains_key(k) implies count_id(
                            lim.level_of(i as int).spec_fifo(),
                            k,
                        ) == count_id(before.level_of(i as int).spec_fifo(), k) by {
                            assert(before.level_of(i as int).spec_fifo()[0].spec_value()
                                != k);
                        }
                    }
                }
            },
        }
    }
}

/// Whether a fill of volume `v` against the order heading the queue of the
/// level at slot `i` turns `(pre, preo)` into `(post, posto)`: the order's
/// fill counter grows by `v`; a fully filled order is popped off the queue
/// and leaves the order map; the level total shrinks by `v`; a drained level
/// moves to the holding map and gives up the best pointer if it held it.
pub open spec fn fill_applied(
    pre: Limits,
    post: Limits,
    preo: Map<u64, LimitOrder>,
    posto: Map<u64, LimitOrder>,
    i: int,
    v: int,
) -> bool {
    let l = pre.level_of(i);
    let k = l.spec_fifo()[0].spec_value();
    let o = preo[k];
    let p = l.spec_price();
    let newvol = l.spec_volume() - v;
    &&& post.slots().len() == pre.slots().len()
    &&& forall|j: int| 0 <= j < pre.slots().len() && j != i ==> post.slots()[j] == pre.slots()[j]
    &&& post.slots()[i] is Some
    &&& post.level_of(i).spec_price() == p
    &&& post.level_of(i).spec_index() == l.spec_index()
    &&& post.level_of(i).spec_volume() == newvol
    &&& if v == remaining_of(o) {
        &&& post.level_of(i).spec_fifo() == l.spec_fifo().drop_first()
        &&& posto == preo.remove(k)
    } else {
        &&& post.level_of(i).spec_fifo() == l.spec_fifo()
        &&& posto == preo.insert(
            k,
            LimitOrder {
                filled_volume: Some(Volume(((filled_of(o) + v) as u64))),
                ..o
            },
        )
    }
    &&& if newvol == 0 {
        &&& post.active() == pre.active().remove(p)
        &&& post.removed() == pre.removed().insert(p, pre.active()[p])
        &&& post.best == (match pre.best {
            Some(b) => if b.spec_value() == i {
                None::<LevelIndex>
            } else {
                pre.best
            },
            None => None::<LevelIndex>,
        })
    } else {
        &&& post.active() == pre.active()
        &&& post.removed() == pre.removed()
        &&& post.best == pre.best
    }
}

/// The order map after a fill of volume `v` against the order at key `k`:
/// the order leaves when fully filled, otherwise its fill counter grows.
pub open spec fn fill_map_update(m: Map<u64, LimitOrder>, k: u64, v: int) -> Map<u64, LimitOrder> {
    if v == remaining_of(m[k]) {
        m.remove(k)
    } else {
        m.insert(
            k,
            LimitOrder { filled_volume: Some(Volume(((filled_of(m[k]) + v) as u64))), ..m[k] },
        )
    }
}

/// Fill `v` of the order heading the queue of the level at slot `i`: update
/// its fill counter (or drop it entirely when it is now fully filled) and
/// take `v` out of the level's total.
fn apply_fill(lim: &mut Limits, orders: &mut OrderMap, i: usize, v: u64)
    requires
        old(lim).wf(),
        i < old(lim).slots().len(),
        old(lim).slots()[i as int] is Some,
        old(lim).level_of(i as int).spec_fifo().len() > 0,
        old(lim).active().contains_key(old(lim).level_of(i as int).spec_price()),
        old(lim).active()[old(lim).level_of(i as int).spec_price()].spec_value() == i,
        old(orders)@.contains_key(old(lim).level_of(i as int).spec_fifo()[0].spec_value()),
        ({
            let o = old(orders)@[old(lim).level_of(i as int).spec_fifo()[0].spec_value()];
            &&& 0 <= filled_of(o)
            &&& v <= remaining_of(o)
            &&& v <= old(lim).level_of(i as int).spec_volume()
            &&& remaining_of(o) <= u64::MAX
        }),
    ensures
        final(lim).wf(),
        fill_applied(
            *old(lim),
            *final(lim),
            old(orders)@,
            final(orders)@,
            i as int,
            v as int,
        ),
{
    let front_id = match lim.get_level(i) {
        Some(l) => l.front().unwrap(),
        // the slot holds a level with a queued head
        None => Oid::new(0),
    };
    let o = *orders.get(&front_id).unwrap();
    let rem = o.remaining();
    if v == rem {
        // Fully filled: off the queue and out of the order map.
        let ghost before = *lim;
        let mut level = lim.swap_level(i, Level::new(Price::new(0)));
        level.pop_front();
        let _ = lim.swap_level(i, level);
        proof {
            assert(lim.slots() =~= before.slots().update(i as int, lim.slots()[i as int]));
            crate::limits::lemma_wf_fifo_changed(before, *lim, i as int);
        }
        orders.remove(&front_id);
    } else {
        let filled: u64 = match o.filled_volume {
            Some(f) => f.value(),
            None => 0,
        };
        let newo = LimitOrder {
            id: o.id,
            side: o.side,
            timestamp: o.timestamp,
            price: o.price,
            volume: o.volume,
            filled_volume: Some(Volume::new(filled + v)),
        };
        orders.insert(front_id, newo);
    }
    lim.reduce_level_volume(i, Volume::new(v));
}

/// The limit order book.
pub struct OrderBook {
    /// Bid side: open offers to buy.
    pub bids: Limits,
    /// Ask side: open offers to sell.
    pub asks: Limits,
    /// Every resting order by id, for constant-time cancellation.
    pub orders: OrderMap,
    /// Best ask against best bid, refreshed on add and on match.
    pub spread: Option<Spread>,
}

impl OrderBook {
    /// The side an order of the given side rests on.
    pub open spec fn side_of(self, s: OrderSide) -> Limits {
        match s {
            OrderSide::Buy => self.bids,
            OrderSide::Sell => self.asks,
        }
    }

    /// Each level's recorded total equals the live volume of its queue,
    /// measured against the order map (P1). This holds of every slot: a
    /// drained level holds no live entries.
    pub open spec fn volumes_ok(self, lim: Limits) -> bool {
        forall|i: int|
            0 <= i < lim.slots().len() && (#[trigger] lim.slots()[i]) is Some ==> lim.level_of(
                i,
            ).spec_volume() == live_sum(lim.level_of(i).spec_fifo(), self.orders@)
    }

    /// Every resting order still has volume outstanding, is keyed by its own
    /// id, and its price names an active level on its side (P2, first half).
    pub open spec fn orders_placed(self) -> bool {
        &&& orders_sound(self.orders@)
        &&& forall|k: u64| #[trigger] self.orders@.contains_key(k) ==> {
            let o = self.orders@[k];
            let lim = self.side_of(o.side);
            &&& o.id.spec_value() == k
            &&& lim.active().contains_key(o.price.spec_bits())
        }
    }

    /// A resting order's id sits exactly once in the queue of the active
    /// level at its price on its own side, and in no other queue of the
    /// given side (P2, second half).
    pub open spec fn unique_in(self, lim: Limits, s: OrderSide) -> bool {
        forall|k: u64, i: int|
            #![trigger count_id(lim.level_of(i).spec_fifo(), k)]
            self.orders@.contains_key(k) && 0 <= i < lim.slots().len() ==> {
                let o = self.orders@[k];
                count_id(lim.level_of(i).spec_fifo(), k) == if o.side == s
                    && lim.active().contains_key(o.price.spec_bits())
                    && lim.active()[o.price.spec_bits()].spec_value() == i {
                    1int
                } else {
                    0
                }
            }
    }

    /// Well-formedness of the whole book.
    pub open spec fn wf(self) -> bool {
        &&& self.bids.wf()
        &&& self.asks.wf()
        &&& self.orders_placed()
        &&& self.unique_in(self.bids, OrderSide::Buy)
        &&& self.unique_in(self.asks, OrderSide::Sell)
        &&& self.volumes_ok(self.bids)
        &&& self.volumes_ok(self.asks)
    }

    /// An id never seen by the book: not resting now and in no queue, not
    /// even as a stale entry. The caller keeps ids unique for the book's
    /// life, so a fresh id satisfies this.
    pub open spec fn id_unused(self, k: u64) -> bool {
        &&& !self.orders@.contains_key(k)
        &&& forall|i: int|
            0 <= i < self.bids.slots().len() ==> count_id(
                (#[trigger] self.bids.level_of(i)).spec_fifo(),
                k,
            ) == 0
        &&& forall|i: int|
            0 <= i < self.asks.slots().len() ==> count_id(
                (#[trigger] self.asks.level_of(i)).spec_fifo(),
                k,
            ) == 0
    }

    /// The price of the tracked best bid level.
    pub open spec fn best_bid_price(self) -> Option<u64> {
        match self.bids.best {
            Some(b) => Some(self.bids.level_of(b.spec_value() as int).spec_price()),
            None => None,
        }
    }

    /// The price of the tracked best ask level.
    pub open spec fn best_ask_price(self) -> Option<u64> {
        match self.asks.best {
            Some(b) => Some(self.asks.level_of(b.spec_value() as int).spec_price()),
            None => None,
        }
    }

    /// The book is crossed: both bests are tracked and the best bid's price
    /// reaches the best ask's.
    pub open spec fn crossed(self) -> bool {
        &&& self.best_bid_price() is Some
        &&& self.best_ask_price() is Some
        &&& self.best_bid_price()->Some_0 >= self.best_ask_price()->Some_0
    }

    /// The spread the tracked bests imply right now.
    pub open spec fn spec_spread(self) -> Option<Spread> {
        match (self.best_ask_price(), self.best_bid_price()) {
            (Some(a), Some(b)) => Some(Spread { ask: Price(a), bid: Price(b) }),
            _ => None,
        }
    }

    /// Adding an order to one side keeps the whole book well-formed: the
    /// order joins the order map and the back of its level's queue, every
    /// level total still matches its queue's live volume, and the fresh id
    /// sits in exactly one queue.
    proof fn lemma_add_wf(pre: OrderBook, post: OrderBook, order: LimitOrder)
        requires
            pre.wf(),
            0 < remaining_of(order) <= u64::MAX,
            pre.id_unused(order.id.spec_value()),
            post.side_of(order.side).wf(),
            crate::limits::add_transition(pre.side_of(order.side), post.side_of(order.side), order),
            order.side is Buy ==> post.asks == pre.asks,
            order.side is Sell ==> post.bids == pre.bids,
            post.orders@ == pre.orders@.insert(order.id.spec_value(), order),
        ensures
            post.wf(),
    {
        let s = order.side;
        let k = order.id.spec_value();
        let p = order.price.spec_bits();
        let m0 = pre.orders@;
        let m1 = post.orders@;
        let lim0 = pre.side_of(s);
        let lim1 = post.side_of(s);
        let oth = pre.side_of(if s is Buy { OrderSide::Sell } else { OrderSide::Buy });
        // The changed level's index, and the facts the transition gives.
        let i = if lim0.has_price(p) {
            lim0.index_of(p).spec_value() as int
        } else {
            lim0.slots().len() as int
        };
        // The untouched side keeps its sums and counts: the new id is nowhere
        // in its queues.
        assert forall|j: int| 0 <= j < oth.slots().len() && (#[trigger] oth.slots()[j]) is Some
            implies oth.level_of(j).spec_volume() == live_sum(oth.level_of(j).spec_fifo(), m1)
            && count_id(oth.level_of(j).spec_fifo(), k) == 0 by {
            lemma_live_sum_same(oth.level_of(j).spec_fifo(), m1, m0, k);
        }
        // On the changed side, every slot other than `i` is as it was and
        // free of the new id; slot `i` gained the order at the back.
        assert forall|j: int| 0 <= j < lim1.slots().len() && j != i implies lim1.slots()[j]
            == lim0.slots()[j] && ((#[trigger] lim1.slots()[j]) is Some ==> lim1.level_of(
            j,
        ).spec_volume() == live_sum(lim1.level_of(j).spec_fifo(), m1) && count_id(
            lim1.level_of(j).spec_fifo(),
            k,
        ) == 0) by {
            if lim1.slots()[j] is Some {
                lemma_live_sum_same(lim1.level_of(j).spec_fifo(), m1, m0, k);
            }
        }
        if lim0.has_price(p) {
            lemma_live_sum_push(lim0.level_of(i).spec_fifo(), m1, order.id);
            lemma_live_sum_same(lim0.level_of(i).spec_fifo(), m1, m0, k);
            lemma_count_push(lim0.level_of(i).spec_fifo(), k, order.id);
        } else {
            assert(lim1.level_of(i).spec_fifo() =~= Seq::<Oid>::empty().push(order.id));
            lemma_live_sum_push(Seq::<Oid>::empty(), m1, order.id);
            lemma_count_push(Seq::<Oid>::empty(), k, order.id);
        }
        assert(lim1.level_of(i).spec_volume() == live_sum(lim1.level_of(i).spec_fifo(), m1));
        // Counts of the other resting ids are unchanged by the push.
        assert forall|q: u64, j: int|
            #![trigger count_id(lim1.level_of(j).spec_fifo(), q)]
            m1.contains_key(q) && q != k && 0 <= j < lim1.slots().len() implies count_id(
            lim1.level_of(j).spec_fifo(),
            q,
        ) == count_id(if j < lim0.slots().len() {
            lim0.level_of(j).spec_fifo()
        } else {
            Seq::<Oid>::empty()
        }, q) by {
            if j == i {
                if lim0.has_price(p) {
                    lemma_count_push(lim0.level_of(i).spec_fifo(), q, order.id);
                } else {
                    assert(lim1.level_of(i).spec_fifo() =~= Seq::<Oid>::empty().push(order.id));
                    lemma_count_push(Seq::<Oid>::empty(), q, order.id);
                }
            }
        }
        assert(post.orders_placed());
        assert(post.unique_in(post.bids, OrderSide::Buy)) by {
            Self::lemma_unique_helper(pre, post, order, OrderSide::Buy, i);
        }
        assert(post.unique_in(post.asks, OrderSide::Sell)) by {
            Self::lemma_unique_helper(pre, post, order, OrderSide::Sell, i);
        }
    }

    /// Helper for `lemma_add_wf`: the uniqueness clause for one side.
    proof fn lemma_unique_helper(pre: OrderBook, post: OrderBook, order: LimitOrder, s: OrderSide, i: int)
        requires
            pre.wf(),
            0 < remaining_of(order),
            pre.id_unused(order.id.spec_value()),
            post.side_of(order.side).wf(),
            crate::limits::add_transition(pre.side_of(order.side), post.side_of(order.side), order),
            order.side is Buy ==> post.asks == pre.asks,
            order.side is Sell ==> post.bids == pre.bids,
            post.orders@ == pre.orders@.insert(order.id.spec_value(), order),
            i == if pre.side_of(order.side).has_price(order.price.spec_bits()) {
                pre.side_of(order.side).index_of(order.price.spec_bits()).spec_value() as int
            } else {
                pre.side_of(order.side).slots().len() as int
            },
        ensures
            post.unique_in(post.side_of(s), s),
    {
        let k = order.id.spec_value();
        let p = order.price.spec_bits();
        let m1 = post.orders@;
        let lim = post.side_of(s);
        let lim0 = pre.side_of(s);
        assert forall|q: u64, j: int|
            #![trigger count_id(lim.level_of(j).spec_fifo(), q)]
            m1.contains_key(q) && 0 <= j < lim.slots().len() implies {
            let o = m1[q];
            count_id(lim.level_of(j).spec_fifo(), q) == if o.side == s && lim.active().contains_key(
                o.price.spec_bits(),
            ) && lim.active()[o.price.spec_bits()].spec_value() == j {
                1int
            } else {
                0
            }
        } by {
            let o = m1[q];
            if s == order.side {
                if q == k {
                    if j == i {
                        if lim0.has_price(p) {
                            lemma_count_push(lim0.level_of(i).spec_fifo(), k, order.id);
                        } else {
                            assert(lim.level_of(i).spec_fifo() =~= Seq::<Oid>::empty().push(
                                order.id,
                            ));
                            lemma_count_push(Seq::<Oid>::empty(), k, order.id);
                        }
                    } else {
                        assert(count_id(lim0.level_of(j).spec_fifo(), k) == 0);
                    }
                } else {
                    // Another resting id: the push moved no count, and the
                    // old book already placed it the same way. A live order
                    // never rests at a held price: its level is active.
                    assert(pre.orders@.contains_key(q));
                    if o.side == s {
                        assert(lim0.active().contains_key(o.price.spec_bits()));
                    }
                    if j == i && !lim0.has_price(p) {
                        assert(lim.level_of(i).spec_fifo() =~= Seq::<Oid>::empty().push(
                            order.id,
                        ));
                        lemma_count_push(Seq::<Oid>::empty(), q, order.id);
                        if o.side == s {
                            assert(o.price.spec_bits() != p);
                        }
                    } else {
                        if j == i {
                            lemma_count_push(lim0.level_of(i).spec_fifo(), q, order.id);
                        }
                        assert(count_id(lim0.level_of(j).spec_fifo(), q) == (if o.side == s
                            && lim0.active().contains_key(o.price.spec_bits())
                            && lim0.active()[o.price.spec_bits()].spec_value() == j {
                            1int
                        } else {
                            0
                        }));
                    }
                }
            } else {
                if q == k {
                    assert(count_id(lim.level_of(j).spec_fifo(), k) == 0);
                    assert(o.side != s);
                } else {
                    assert(count_id(lim.level_of(j).spec_fifo(), q) == (if o.side == s
                        && lim.active().contains_key(o.price.spec_bits())
                        && lim.active()[o.price.spec_bits()].spec_value() == j {
                        1int
                    } else {
                        0
                    }));
                }
            }
        }
    }

    /// A queue whose live volume covers any order it holds: an id queued at
    /// least once and still resting contributes its remaining volume.
    proof fn lemma_queue_covers(q: Seq<Oid>, m: Map<u64, LimitOrder>, k: u64)
        requires
            orders_sound(m),
            m.contains_key(k),
            count_id(q, k) == 1,
        ensures
            live_sum(q, m) >= remaining_of(m[k]),
    {
        lemma_live_sum_remove_once(q, m, k);
        assert(orders_sound(m.remove(k)));
        lemma_live_sum_nonneg(q, m.remove(k));
    }

    /// Taking a resting order out of the order map while its remaining
    /// volume leaves its level keeps the book well-formed.
    proof fn lemma_remove_wf(pre: OrderBook, post: OrderBook, k: u64)
        requires
            pre.wf(),
            pre.orders@.contains_key(k),
            post.orders@ == pre.orders@.remove(k),
            ({
                let o = pre.orders@[k];
                let lim0 = pre.side_of(o.side);
                &&& crate::limits::reduce_transition(
                    lim0,
                    post.side_of(o.side),
                    lim0.active()[o.price.spec_bits()].spec_value() as int,
                    remaining_of(o),
                )
                &&& post.side_of(o.side).wf()
                &&& (o.side is Buy ==> post.asks == pre.asks)
                &&& (o.side is Sell ==> post.bids == pre.bids)
            }),
        ensures
            post.wf(),
    {
        let o = pre.orders@[k];
        let s = o.side;
        let p = o.price.spec_bits();
        let m0 = pre.orders@;
        let m1 = post.orders@;
        let lim0 = pre.side_of(s);
        let lim1 = post.side_of(s);
        let oth = pre.side_of(if s is Buy { OrderSide::Sell } else { OrderSide::Buy });
        let i = lim0.active()[p].spec_value() as int;
        assert(orders_sound(m1));
        // The untouched side's sums do not see the removed id.
        assert forall|j: int| 0 <= j < oth.slots().len() && (#[trigger] oth.slots()[j]) is Some
            implies oth.level_of(j).spec_volume() == live_sum(oth.level_of(j).spec_fifo(), m1) by {
            assert(count_id(oth.level_of(j).spec_fifo(), k) == 0);
            lemma_live_sum_same(oth.level_of(j).spec_fifo(), m1, m0, k);
        }
        // On the order's side, the touched level loses exactly the order's
        // remaining volume; the others do not hold the id.
        assert forall|j: int| 0 <= j < lim1.slots().len() && (#[trigger] lim1.slots()[j]) is Some
            implies lim1.level_of(j).spec_volume() == live_sum(
            lim1.level_of(j).spec_fifo(),
            m1,
        ) by {
            if j == i {
                lemma_live_sum_remove_once(lim0.level_of(i).spec_fifo(), m0, k);
            } else {
                assert(count_id(lim0.level_of(j).spec_fifo(), k) == 0);
                lemma_live_sum_same(lim0.level_of(j).spec_fifo(), m1, m0, k);
            }
        }
        // No other live order rests on the touched level when it drained.
        assert forall|q: u64| m1.contains_key(q) implies {
            let oq = m1[q];
            post.side_of(oq.side).active().contains_key(oq.price.spec_bits())
            && post.side_of(oq.side).active()[oq.price.spec_bits()]
                == pre.side_of(oq.side).active()[oq.price.spec_bits()]
        } by {
            let oq = m1[q];
            if oq.side == s && oq.price.spec_bits() == p
                && lim0.level_of(i).spec_volume() - remaining_of(o) == 0 {
                assert(count_id(lim0.level_of(i).spec_fifo(), q) == 1);
                Self::lemma_queue_covers(lim0.level_of(i).spec_fifo(), m1, q);
                lemma_live_sum_remove_once(lim0.level_of(i).spec_fifo(), m0, k);
                assert(false);
            }
        }
        assert(post.unique_in(post.bids, OrderSide::Buy)) by {
            assert forall|q: u64, j: int|
                #![trigger count_id(post.bids.level_of(j).spec_fifo(), q)]
                m1.contains_key(q) && 0 <= j < post.bids.slots().len() implies {
                let oq = m1[q];
                count_id(post.bids.level_of(j).spec_fifo(), q) == if oq.side == OrderSide::Buy
                    && post.bids.active().contains_key(oq.price.spec_bits())
                    && post.bids.active()[oq.price.spec_bits()].spec_value() == j {
                    1int
                } else {
                    0
                }
            } by {
                assert(count_id(pre.bids.level_of(j).spec_fifo(), q) == (if m0[q].side
                    == OrderSide::Buy && pre.bids.active().contains_key(m0[q].price.spec_bits())
                    && pre.bids.active()[m0[q].price.spec_bits()].spec_value() == j {
                    1int
                } else {
                    0
                }));
                let oq = m1[q];
                if oq.side == OrderSide::Buy && oq.price.spec_bits() == p && s is Buy
                    && lim0.level_of(i).spec_volume() - remaining_of(o) == 0 {
                    assert(count_id(lim0.level_of(i).spec_fifo(), q) == 1);
                    Self::lemma_queue_covers(lim0.level_of(i).spec_fifo(), m1, q);
                    lemma_live_sum_remove_once(lim0.level_of(i).spec_fifo(), m0, k);
                    assert(false);
                }
            }
        }
        assert(post.unique_in(post.asks, OrderSide::Sell)) by {
            assert forall|q: u64, j: int|
                #![trigger count_id(post.asks.level_of(j).spec_fifo(), q)]
                m1.contains_key(q) && 0 <= j < post.asks.slots().len() implies {
                let oq = m1[q];
                count_id(post.asks.level_of(j).spec_fifo(), q) == if oq.side == OrderSide::Sell
                    && post.asks.active().contains_key(oq.price.spec_bits())
                    && post.asks.active()[oq.price.spec_bits()].spec_value() == j {
                    1int
                } else {
                    0
                }
            } by {
                assert(count_id(pre.asks.level_of(j).spec_fifo(), q) == (if m0[q].side
                    == OrderSide::Sell && pre.asks.active().contains_key(m0[q].price.spec_bits())
                    && pre.asks.active()[m0[q].price.spec_bits()].spec_value() == j {
                    1int
                } else {
                    0
                }));
                let oq = m1[q];
                if oq.side == OrderSide::Sell && oq.price.spec_bits() == p && s is Sell
                    && lim0.level_of(i).spec_volume() - remaining_of(o) == 0 {
                    assert(count_id(lim0.level_of(i).spec_fifo(), q) == 1);
                    Self::lemma_queue_covers(lim0.level_of(i).spec_fifo(), m1, q);
                    lemma_live_sum_remove_once(lim0.level_of(i).spec_fifo(), m0, k);
                    assert(false);
                }
            }
        }
    }

    /// A fill applied to the order heading one level's queue keeps the book
    /// well-formed, whether the order was fully consumed or only in part.
    proof fn lemma_fill_wf(pre: OrderBook, post: OrderBook, s: OrderSide, i: int, v: int)
        requires
            pre.wf(),
            0 <= i < pre.side_of(s).slots().len(),
            pre.side_of(s).slots()[i] is Some,
            pre.side_of(s).level_of(i).spec_fifo().len() > 0,
            pre.orders@.contains_key(pre.side_of(s).level_of(i).spec_fifo()[0].spec_value()),
            ({
                let k = pre.side_of(s).level_of(i).spec_fifo()[0].spec_value();
                let o = pre.orders@[k];
                &&& o.side == s
                &&& 0 <= v <= remaining_of(o)
            }),
            fill_applied(pre.side_of(s), post.side_of(s), pre.orders@, post.orders@, i, v),
            post.side_of(s).wf(),
            s is Buy ==> post.asks == pre.asks,
            s is Sell ==> post.bids == pre.bids,
        ensures
            post.wf(),
    {
        let lim0 = pre.side_of(s);
        let lim1 = post.side_of(s);
        let oth = pre.side_of(if s is Buy { OrderSide::Sell } else { OrderSide::Buy });
        let fifo = lim0.level_of(i).spec_fifo();
        let k = fifo[0].spec_value();
        let o = pre.orders@[k];
        let p = lim0.level_of(i).spec_price();
        let m0 = pre.orders@;
        let m1 = post.orders@;
        let full = v == remaining_of(o);
        // The head order's own level is this very slot: it is queued here.
        assert(count_id(fifo, k) >= 1) by {
            lemma_count_nonneg(fifo.drop_first(), k);
        }
        assert(lim0.active().contains_key(o.price.spec_bits()) && lim0.active()[o.price.spec_bits()].spec_value() == i);
        assert(o.price.spec_bits() == p);
        assert(count_id(fifo, k) == 1);
        assert(orders_sound(m1)) by {
            if !full {
                assert(m1[k] == LimitOrder {
                    filled_volume: Some(Volume(((filled_of(o) + v) as u64))),
                    ..o
                });
            }
        }
        // The live volume of the touched queue drops by exactly `v`.
        assert(live_sum(lim1.level_of(i).spec_fifo(), m1) == lim0.level_of(i).spec_volume()
            - v) by {
            if full {
                assert(count_id(fifo.drop_first(), k) == 0);
                lemma_live_sum_same(fifo.drop_first(), m1, m0, k);
                assert(live_sum(fifo, m0) == remaining_of(o) + live_sum(fifo.drop_first(), m0));
            } else {
                lemma_live_sum_update_once(fifo, m0, k, m1[k]);
            }
        }
        // A partial fill leaves the level holding at least the head order's
        // rest, so it never drains on a partial fill.
        if !full {
            Self::lemma_queue_covers(fifo, m1, k);
        }
        // The untouched side and the other levels do not hold the id.
        assert forall|j: int| 0 <= j < oth.slots().len() && (#[trigger] oth.slots()[j]) is Some
            implies oth.level_of(j).spec_volume() == live_sum(oth.level_of(j).spec_fifo(), m1) by {
            assert(count_id(oth.level_of(j).spec_fifo(), k) == 0);
            lemma_live_sum_same(oth.level_of(j).spec_fifo(), m1, m0, k);
        }
        assert forall|j: int| 0 <= j < lim1.slots().len() && (#[trigger] lim1.slots()[j]) is Some
            implies lim1.level_of(j).spec_volume() == live_sum(
            lim1.level_of(j).spec_fifo(),
            m1,
        ) by {
            if j != i {
                assert(count_id(lim0.level_of(j).spec_fifo(), k) == 0);
                lemma_live_sum_same(lim0.level_of(j).spec_fifo(), m1, m0, k);
            }
        }
        // Counts in the touched queue are unchanged for every other id.
        assert forall|q: u64| q != k implies count_id(lim1.level_of(i).spec_fifo(), q) == count_id(
            fifo,
            q,
        ) by {
            if full {
                assert(count_id(fifo, q) == (if fifo[0].spec_value() == q {
                    1int
                } else {
                    0
                }) + count_id(fifo.drop_first(), q));
            }
        }
        // No other live order rests on the touched level when it drained.
        assert forall|q: u64| m1.contains_key(q) && q != k implies {
            let oq = m1[q];
            post.side_of(oq.side).active().contains_key(oq.price.spec_bits())
            && post.side_of(oq.side).active()[oq.price.spec_bits()]
                == pre.side_of(oq.side).active()[oq.price.spec_bits()]
        } by {
            let oq = m1[q];
            assert(oq == m0[q]);
            if oq.side == s && oq.price.spec_bits() == p && lim0.level_of(i).spec_volume() - v
                == 0 {
                assert(count_id(fifo, q) == 1);
                assert(count_id(lim1.level_of(i).spec_fifo(), q) == 1);
                Self::lemma_queue_covers(lim1.level_of(i).spec_fifo(), m1, q);
                assert(false);
            }
        }
        assert(post.orders_placed());
        if !full {
            assert(lim0.level_of(i).spec_volume() - v > 0);
        }
        assert(post.unique_in(post.bids, OrderSide::Buy)) by {
            Self::lemma_fill_unique(pre, post, s, i, v, OrderSide::Buy);
        }
        assert(post.unique_in(post.asks, OrderSide::Sell)) by {
            Self::lemma_fill_unique(pre, post, s, i, v, OrderSide::Sell);
        }
    }

    /// Helper for `lemma_fill_wf`: the uniqueness clause for one side.
    proof fn lemma_fill_unique(
        pre: OrderBook,
        post: OrderBook,
        s: OrderSide,
        i: int,
        v: int,
        side: OrderSide,
    )
        requires
            pre.wf(),
            0 <= i < pre.side_of(s).slots().len(),
            pre.side_of(s).slots()[i] is Some,
            pre.side_of(s).level_of(i).spec_fifo().len() > 0,
            pre.orders@.contains_key(pre.side_of(s).level_of(i).spec_fifo()[0].spec_value()),
            ({
                let k = pre.side_of(s).level_of(i).spec_fifo()[0].spec_value();
                let o = pre.orders@[k];
                &&& o.side == s
                &&& 0 <= v <= remaining_of(o)
            }),
            fill_applied(pre.side_of(s), post.side_of(s), pre.orders@, post.orders@, i, v),
            post.side_of(s).wf(),
            s is Buy ==> post.asks == pre.asks,
            s is Sell ==> post.bids == pre.bids,
            orders_sound(post.orders@),
            // a partial fill leaves the level holding volume
            v != remaining_of(
                pre.orders@[pre.side_of(s).level_of(i).spec_fifo()[0].spec_value()],
            ) ==> pre.side_of(s).level_of(i).spec_volume() - v > 0,
            // no live order rests on a drained level
            forall|q: u64|
                #[trigger] post.orders@.contains_key(q) && q != pre.side_of(s).level_of(
                    i,
                ).spec_fifo()[0].spec_value() ==> {
                    let oq = post.orders@[q];
                    post.side_of(oq.side).active().contains_key(oq.price.spec_bits())
                        && post.side_of(oq.side).active()[oq.price.spec_bits()] == pre.side_of(
                        oq.side,
                    ).active()[oq.price.spec_bits()]
                },
        ensures
            post.unique_in(post.side_of(side), side),
    {
        let lim0 = pre.side_of(s);
        let lim1 = post.side_of(s);
        let fifo = lim0.level_of(i).spec_fifo();
        let k = fifo[0].spec_value();
        let o = pre.orders@[k];
        let m0 = pre.orders@;
        let m1 = post.orders@;
        let full = v == remaining_of(o);
        let plim = post.side_of(side);
        assert(count_id(fifo, k) >= 1) by {
            lemma_count_nonneg(fifo.drop_first(), k);
        }
        assert forall|q: u64, j: int|
            #![trigger count_id(plim.level_of(j).spec_fifo(), q)]
            m1.contains_key(q) && 0 <= j < plim.slots().len() implies {
            let oq = m1[q];
            count_id(plim.level_of(j).spec_fifo(), q) == if oq.side == side
                && plim.active().contains_key(oq.price.spec_bits())
                && plim.active()[oq.price.spec_bits()].spec_value() == j {
                1int
            } else {
                0
            }
        } by {
            let oq = m1[q];
            let plim0 = pre.side_of(side);
            let p = lim0.level_of(i).spec_price();
            let drained = lim0.level_of(i).spec_volume() - v == 0;
            assert(q != k || !full);
            assert(m0.contains_key(q));
            assert(count_id(plim0.level_of(j).spec_fifo(), q) == (if m0[q].side == side
                && plim0.active().contains_key(m0[q].price.spec_bits())
                && plim0.active()[m0[q].price.spec_bits()].spec_value() == j {
                1int
            } else {
                0
            }));
            assert(oq.side == m0[q].side && oq.price == m0[q].price);
            if side == s {
                if drained && oq.side == s && oq.price.spec_bits() == p {
                    // The drained level's price left the active map, yet the
                    // hypothesis keeps every live order's price active; and a
                    // partial fill never drains. So no live order has it.
                    assert(full);
                    assert(q != k);
                    assert(post.side_of(oq.side).active().contains_key(oq.price.spec_bits()));
                    assert(!lim1.active().contains_key(p));
                    assert(false);
                }
                if j == i && full {
                    assert(fifo[0].spec_value() != q);
                    assert(count_id(fifo, q) == (if fifo[0].spec_value() == q {
                        1int
                    } else {
                        0
                    }) + count_id(fifo.drop_first(), q));
                }
                if oq.price.spec_bits() != p && plim0.active().contains_key(
                    oq.price.spec_bits(),
                ) {
                    // A level at another price sits at another slot.
                    assert(plim0.entry_ok(
                        oq.price.spec_bits(),
                        plim0.active()[oq.price.spec_bits()],
                    ));
                    assert(plim0.active()[oq.price.spec_bits()].spec_value() != i);
                }
            }
        }
    }

    /// A fresh, empty book.
    pub fn new() -> (r: OrderBook)
        ensures
            r.wf(),
            r.orders@ == Map::<u64, LimitOrder>::empty(),
            r.bids.slots().len() == 0,
            r.asks.slots().len() == 0,
            r.bids.best is None,
            r.asks.best is None,
            r.spread is None,
    {
        OrderBook { bids: Limits::new(), asks: Limits::new(), orders: OrderMap::new(), spread: None }
    }

    /// Rest a limit order on its side of the book and record it in the
    /// order map, then refresh the spread. The caller keeps ids unique for
    /// the book's life and hands in an order with volume outstanding.
    pub fn add_order(&mut self, order: LimitOrder)
        requires
            old(self).wf(),
            0 < remaining_of(order),
            old(self).id_unused(order.id.spec_value()),
            old(self).side_of(order.side).vol_at(order.price.spec_bits()) + remaining_of(order)
                <= u64::MAX,
            old(self).side_of(order.side).slots().len() < usize::MAX,
        ensures
            final(self).wf(),
            final(self).orders@ == old(self).orders@.insert(order.id.spec_value(), order),
            crate::limits::add_transition(
                old(self).side_of(order.side),
                final(self).side_of(order.side),
                order,
            ),
            order.side is Buy ==> final(self).asks == old(self).asks,
            order.side is Sell ==> final(self).bids == old(self).bids,
            final(self).spread == final(self).spec_spread(),
            final(self).side_of(order.side).vol_at(order.price.spec_bits()) == old(self).side_of(
                order.side,
            ).vol_at(order.price.spec_bits()) + remaining_of(order),
    {
        match order.side {
            OrderSide::Buy => self.bids.add_order(&order),
            OrderSide::Sell => self.asks.add_order(&order),
        }
        self.orders.insert(order.id, order);
        proof {
            let ghost mid = *self;
            Self::lemma_add_wf(*old(self), mid, order);
            let p = order.price.spec_bits();
            let lim0 = old(self).side_of(order.side);
            let lim1 = mid.side_of(order.side);
            if lim0.has_price(p) && lim0.removed().contains_key(p) {
                // A revived level held no volume before the order arrived.
                let i = lim0.index_of(p).spec_value() as int;
                assert(lim0.level_of(i).spec_volume() == live_sum(
                    lim0.level_of(i).spec_fifo(),
                    old(self).orders@,
                ));
            }
        }
        self.update_spreads();
    }

    /// What a cancellation does: a resting id leaves the order map and its
    /// remaining volume leaves its level; an unknown id is reported as not
    /// found and nothing changes.
    pub open spec fn cancel_post(
        pre: OrderBook,
        post: OrderBook,
        order_id: Oid,
        r: Result<CancellationReport, CancelOrderError>,
    ) -> bool {
        if pre.orders@.contains_key(order_id.spec_value()) {
            &&& r matches Ok(rep) && rep.order_id == order_id && rep.status is Cancelled
            &&& post.orders@ == pre.orders@.remove(order_id.spec_value())
            &&& ({
                let o = pre.orders@[order_id.spec_value()];
                &&& crate::limits::reduce_transition(
                    pre.side_of(o.side),
                    post.side_of(o.side),
                    pre.side_of(o.side).active()[o.price.spec_bits()].spec_value() as int,
                    remaining_of(o),
                )
                &&& (o.side is Buy ==> post.asks == pre.asks)
                &&& (o.side is Sell ==> post.bids == pre.bids)
            })
            &&& post.spread == pre.spread
        } else {
            &&& r matches Err(e) && e == CancelOrderError::NotFound(order_id)
            &&& post.orders@ == pre.orders@
            &&& post.bids == pre.bids
            &&& post.asks == pre.asks
            &&& post.spread == pre.spread
        }
    }

    /// Cancel a resting order in constant time: the order leaves the order
    /// map and its remaining volume leaves its level, but its id stays in
    /// the level's queue until a later walk prunes it. A second cancel of
    /// the same id finds nothing and reports `NotFound`, changing nothing.
    pub fn cancel_order(&mut self, order_id: Oid) -> (r: Result<
        CancellationReport,
        CancelOrderError,
    >)
        requires
            old(self).wf(),
        ensures
            final(self).wf(),
            Self::cancel_post(*old(self), *final(self), order_id, r),
    {
        let removed = self.orders.remove(&order_id);
        match removed {
            None => {
                proof {
                    assert(final(self).orders@ =~= old(self).orders@);
                }
                Err(CancelOrderError::NotFound(order_id))
            },
            Some(order) => {
                proof {
                    let k = order_id.spec_value();
                    let o = old(self).orders@[k];
                    let lim0 = old(self).side_of(o.side);
                    let i = lim0.active()[o.price.spec_bits()].spec_value() as int;
                    assert(count_id(lim0.level_of(i).spec_fifo(), k) == 1);
                    Self::lemma_queue_covers(lim0.level_of(i).spec_fifo(), old(self).orders@, k);
                }
                match order.side {
                    OrderSide::Buy => self.bids.cancel_order(&order),
                    OrderSide::Sell => self.asks.cancel_order(&order),
                }
                proof {
                    Self::lemma_remove_wf(*old(self), *self, order_id.spec_value());
                }
                Ok(CancellationReport { order_id, status: CancellationStatus::Cancelled })
            },
        }
    }

    /// Recompute the spread from the tracked bests.
    fn update_spreads(&mut self)
        requires
            old(self).bids.wf(),
            old(self).asks.wf(),
        ensures
            final(self).bids == old(self).bids,
            final(self).asks == old(self).asks,
            final(self).orders == old(self).orders,
            final(self).spread == final(self).spec_spread(),
    {
        let ask_best_limit = self.asks.get_best_limit();
        let bid_best_limit = self.bids.get_best_limit();
        match (ask_best_limit, bid_best_limit) {
            (Some(ask_limit), Some(bid_limit)) => {
                self.spread = Some(Spread { ask: ask_limit, bid: bid_limit });
            },
            _ => {
                self.spread = None;
            },
        }
    }

    /// Recompute the bid side's best pointer by scanning its levels.
    fn update_best_buy(&mut self)
        requires
            old(self).bids.wf(),
        ensures
            final(self).bids.wf(),
            final(self).bids.slots() == old(self).bids.slots(),
            final(self).bids.active() == old(self).bids.active(),
            final(self).bids.removed() == old(self).bids.removed(),
            final(self).asks == old(self).asks,
            final(self).orders == old(self).orders,
            final(self).spread == old(self).spread,
            old(self).bids.has_positive_level() ==> (final(self).bids.best matches Some(b)
                && final(self).bids.is_best_at(b.spec_value() as int, OrderSide::Buy)),
            !old(self).bids.has_positive_level() ==> final(self).bids.best == old(self).bids.best,
    {
        self.bids.update_best(OrderSide::Buy);
    }

    /// Recompute the ask side's best pointer by scanning its levels.
    fn update_best_sell(&mut self)
        requires
            old(self).asks.wf(),
        ensures
            final(self).asks.wf(),
            final(self).asks.slots() == old(self).asks.slots(),
            final(self).asks.active() == old(self).asks.active(),
            final(self).asks.removed() == old(self).asks.removed(),
            final(self).bids == old(self).bids,
            final(self).orders == old(self).orders,
            final(self).spread == old(self).spread,
            old(self).asks.has_positive_level() ==> (final(self).asks.best matches Some(b)
                && final(self).asks.is_best_at(b.spec_value() as int, OrderSide::Sell)),
            !old(self).asks.has_positive_level() ==> final(self).asks.best == old(self).asks.best,
    {
        self.asks.update_best(OrderSide::Sell);
    }

    /// What one crossing step does. An error changes nothing, is always
    /// `NoOrderToMatch`, and comes exactly when the book is not crossed. A
    /// fill pairs the first live ids of the two best levels' queues at the
    /// two best prices, for the smaller of the two remaining volumes; the
    /// matched queues lose their stale prefixes and a fully filled order's
    /// id; each side's resting total drops by exactly the fill volume; the
    /// arena keeps its length and every untouched level; a drained best
    /// level gives up its pointer, which is recomputed to the extremum; and
    /// the spread is refreshed.
    pub open spec fn fill_post(pre: OrderBook, post: OrderBook, r: Result<
        Fill,
        OrderBookError,
    >) -> bool {
        &&& (r is Err ==> post == pre)
        &&& (r is Err ==> !pre.crossed())
        &&& (r matches Err(e) ==> e == OrderBookError::NoOrderToMatch)
        &&& (r is Ok ==> pre.crossed())
        &&& (r matches Ok(fill) ==> ({
            let bi = pre.bids.best->Some_0.spec_value() as int;
            let ai = pre.asks.best->Some_0.spec_value() as int;
            let bq = pre.bids.level_of(bi).spec_fifo();
            let aq = pre.asks.level_of(ai).spec_fifo();
            let m0 = pre.orders@;
            let bk = first_live(bq, m0)->Some_0;
            let sk = first_live(aq, m0)->Some_0;
            let bo = m0[bk.spec_value()];
            let so = m0[sk.spec_value()];
            let v = if remaining_of(bo) <= remaining_of(so) {
                remaining_of(bo)
            } else {
                remaining_of(so)
            };
            &&& first_live(bq, m0) is Some
            &&& first_live(aq, m0) is Some
            &&& fill.buy_order_id == bk
            &&& fill.sell_order_id == sk
            &&& fill.buy_order_price == bo.price
            &&& fill.sell_order_price == so.price
            // the fill happens at the two best prices, bid over ask
            &&& fill.buy_order_price.spec_bits() == pre.best_bid_price()->Some_0
            &&& fill.sell_order_price.spec_bits() == pre.best_ask_price()->Some_0
            &&& fill.buy_order_price.spec_bits() >= fill.sell_order_price.spec_bits()
            &&& fill.volume.spec_value() == v
            &&& 1 <= v
            &&& post.orders@ == fill_map_update(
                fill_map_update(m0, bk.spec_value(), v),
                sk.spec_value(),
                v,
            )
            &&& slots_vol_sum(post.bids.slots()) == slots_vol_sum(pre.bids.slots()) - v
            &&& slots_vol_sum(post.asks.slots()) == slots_vol_sum(pre.asks.slots()) - v
            // the two matched levels: the volume drops by the fill, the
            // price stays, and the queue loses its stale prefix plus, on a
            // full fill, the matched head
            &&& post.bids.level_of(bi).spec_volume() == pre.bids.level_of(bi).spec_volume() - v
            &&& post.asks.level_of(ai).spec_volume() == pre.asks.level_of(ai).spec_volume() - v
            &&& post.bids.level_of(bi).spec_price() == pre.bids.level_of(bi).spec_price()
            &&& post.asks.level_of(ai).spec_price() == pre.asks.level_of(ai).spec_price()
            &&& post.bids.level_of(bi).spec_fifo() == (if v == remaining_of(bo) {
                pruned(bq, m0).drop_first()
            } else {
                pruned(bq, m0)
            })
            &&& post.asks.level_of(ai).spec_fifo() == (if v == remaining_of(so) {
                pruned(aq, m0).drop_first()
            } else {
                pruned(aq, m0)
            })
            // no level is created or removed, and the others are untouched
            &&& post.bids.slots().len() == pre.bids.slots().len()
            &&& post.asks.slots().len() == pre.asks.slots().len()
            &&& forall|j: int|
                0 <= j < pre.bids.slots().len() && j != bi ==> post.bids.slots()[j]
                    == pre.bids.slots()[j]
            &&& forall|j: int|
                0 <= j < pre.asks.slots().len() && j != ai ==> post.asks.slots()[j]
                    == pre.asks.slots()[j]
            &&& post.spread == post.spec_spread()
            // a best level drained by the fill loses the pointer, which is
            // then recomputed; an undrained one keeps it
            &&& (post.bids.level_of(bi).spec_volume() > 0 ==> post.bids.best == pre.bids.best)
            &&& (post.bids.level_of(bi).spec_volume() == 0 ==> (
            if post.bids.has_positive_level() {
                post.bids.best matches Some(nb) && post.bids.is_best_at(
                    nb.spec_value() as int,
                    OrderSide::Buy,
                )
            } else {
                post.bids.best is None
            }))
            &&& (post.asks.level_of(ai).spec_volume() > 0 ==> post.asks.best == pre.asks.best)
            &&& (post.asks.level_of(ai).spec_volume() == 0 ==> (
            if post.asks.has_positive_level() {
                post.asks.best matches Some(nb) && post.asks.is_best_at(
                    nb.spec_value() as int,
                    OrderSide::Sell,
                )
            } else {
                post.asks.best is None
            }))
        }))
    }

    /// Match the best bid against the best ask and produce one fill. The
    /// caller invokes this repeatedly until it reports that nothing matches.
    ///
    /// Price priority: only the two best levels take part. Time priority
    /// within a level: the fill goes to the first id in each best level's
    /// queue that still rests on the book - strict FIFO, stale ids pruned on
    /// the way (P6). The fill volume is the smaller of the two orders'
    /// remaining volumes, each side's resting total drops by exactly that
    /// volume (P8), and the error comes exactly when the book is not crossed
    /// and changes nothing (P9).
    pub fn find_and_fill_best_orders(&mut self) -> (r: Result<Fill, OrderBookError>)
        requires
            old(self).wf(),
        ensures
            final(self).wf(),
            Self::fill_post(*old(self), *final(self), r),
    {
        let bix = match self.bids.get_best() {
            Some(b) => b,
            None => {
                return Err(OrderBookError::NoOrderToMatch);
            },
        };
        let aix = match self.asks.get_best() {
            Some(a) => a,
            None => {
                return Err(OrderBookError::NoOrderToMatch);
            },
        };
        let (bprice, bvol) = match self.bids.get_level(bix.value()) {
            Some(l) => (l.price().bits(), l.total_volume().value()),
            None => (0, 0),
        };
        let (aprice, avol) = match self.asks.get_level(aix.value()) {
            Some(l) => (l.price().bits(), l.total_volume().value()),
            None => (0, 0),
        };
        if bvol == 0 || avol == 0 {
            // A tracked best level never drains without losing the pointer,
            // so under a well-formed book this cannot happen; the check
            // guards a stale pointer all the same.
            return Err(OrderBookError::LevelHasNoValidOrders);
        }
        if bprice < aprice {
            // The highest buyer offers less than the lowest seller asks.
            return Err(OrderBookError::NoOrderToMatch);
        }
        let ghost b0 = *self;
        // Walk past lazily cancelled ids at the head of both best queues.
        prune_level(&mut self.bids, &self.orders, bix.value());
        prune_level(&mut self.asks, &self.orders, aix.value());
        let ghost b1 = *self;
        proof {
            let bi = bix.spec_value() as int;
            let ai = aix.spec_value() as int;
            lemma_live_sum_nonneg(b0.bids.level_of(bi).spec_fifo(), b0.orders@);
            lemma_first_live(b1.bids.level_of(bi).spec_fifo(), b1.orders@);
            lemma_first_live(b1.asks.level_of(ai).spec_fifo(), b1.orders@);
            // The pruned book is still well-formed: nothing live moved.
            assert(b1.wf()) by {
                assert forall|q: u64, j: int|
                    #![trigger count_id(b1.bids.level_of(j).spec_fifo(), q)]
                    b1.orders@.contains_key(q) && 0 <= j < b1.bids.slots().len() implies count_id(
                    b1.bids.level_of(j).spec_fifo(),
                    q,
                ) == count_id(b0.bids.level_of(j).spec_fifo(), q) by {}
                assert forall|q: u64, j: int|
                    #![trigger count_id(b1.asks.level_of(j).spec_fifo(), q)]
                    b1.orders@.contains_key(q) && 0 <= j < b1.asks.slots().len() implies count_id(
                    b1.asks.level_of(j).spec_fifo(),
                    q,
                ) == count_id(b0.asks.level_of(j).spec_fifo(), q) by {}
            }
        }
        let bk = match self.bids.get_level(bix.value()) {
            Some(l) => match l.front() {
                Some(id) => id,
                None => {
                    return Err(OrderBookError::NoOrderToMatch);
                },
            },
            None => {
                return Err(OrderBookError::NoOrderToMatch);
            },
        };
        let sk = match self.asks.get_level(aix.value()) {
            Some(l) => match l.front() {
                Some(id) => id,
                None => {
                    return Err(OrderBookError::NoOrderToMatch);
                },
            },
            None => {
                return Err(OrderBookError::NoOrderToMatch);
            },
        };
        let bo = *self.orders.get(&bk).unwrap();
        let so = *self.orders.get(&sk).unwrap();
        let brem = bo.remaining();
        let srem = so.remaining();
        let volume = if brem <= srem {
            brem
        } else {
            srem
        };
        let fill = Fill {
            buy_order_id: bo.id,
            sell_order_id: so.id,
            buy_order_price: bo.price,
            sell_order_price: so.price,
            volume: Volume::new(volume),
        };
        proof {
            let bi = bix.spec_value() as int;
            // The buy order heading the bid queue rests on this very level.
            assert(count_id(b1.bids.level_of(bi).spec_fifo(), bk.spec_value()) >= 1) by {
                lemma_count_nonneg(b1.bids.level_of(bi).spec_fifo().drop_first(), bk.spec_value());
            }
            Self::lemma_queue_covers(
                b1.bids.level_of(bi).spec_fifo(),
                b1.orders@,
                bk.spec_value(),
            );
        }
        apply_fill(&mut self.bids, &mut self.orders, bix.value(), volume);
        let ghost b2 = *self;
        proof {
            Self::lemma_fill_wf(b1, b2, OrderSide::Buy, bix.spec_value() as int, volume as int);
            let ai = aix.spec_value() as int;
            assert(count_id(b2.asks.level_of(ai).spec_fifo(), sk.spec_value()) >= 1) by {
                lemma_count_nonneg(b2.asks.level_of(ai).spec_fifo().drop_first(), sk.spec_value());
            }
            assert(sk.spec_value() != bk.spec_value());
            Self::lemma_queue_covers(
                b2.asks.level_of(ai).spec_fifo(),
                b2.orders@,
                sk.spec_value(),
            );
        }
        apply_fill(&mut self.asks, &mut self.orders, aix.value(), volume);
        let ghost b3 = *self;
        proof {
            Self::lemma_fill_wf(b2, b3, OrderSide::Sell, aix.spec_value() as int, volume as int);
        }
        match self.asks.get_best() {
            None => self.update_best_sell(),
            Some(_) => {},
        }
        match self.bids.get_best() {
            None => self.update_best_buy(),
            Some(_) => {},
        }
        self.update_spreads();
        proof {
            let bi = bix.spec_value() as int;
            let ai = aix.spec_value() as int;
            // Each side's resting total dropped by exactly the fill volume.
            assert(b1.bids.slots() =~= b0.bids.slots().update(bi, b1.bids.slots()[bi]));
            lemma_slots_vol_sum_update(b0.bids.slots(), bi, b1.bids.slots()[bi]);
            assert(b2.bids.slots() =~= b1.bids.slots().update(bi, b2.bids.slots()[bi]));
            lemma_slots_vol_sum_update(b1.bids.slots(), bi, b2.bids.slots()[bi]);
            assert(b1.asks.slots() =~= b0.asks.slots().update(ai, b1.asks.slots()[ai]));
            lemma_slots_vol_sum_update(b0.asks.slots(), ai, b1.asks.slots()[ai]);
            assert(b3.asks.slots() =~= b2.asks.slots().update(ai, b3.asks.slots()[ai]));
            lemma_slots_vol_sum_update(b2.asks.slots(), ai, b3.asks.slots()[ai]);
        }
        Ok(fill)
    }

    /// How a market order settles against the opposing side `lim0` (which
    /// becomes `lim1`): with no best level there is nothing to match and
    /// nothing changes; otherwise the first live order of the best level is
    /// filled by the smaller of its remaining volume and the market order's
    /// volume. A market order larger than that head order takes repeated
    /// calls; the spread is not refreshed here.
    pub open spec fn market_post(
        pre: OrderBook,
        post: OrderBook,
        order: Order,
        lim0: Limits,
        lim1: Limits,
        s: OrderSide,
        r: Result<FillAtMarket, OrderBookError>,
    ) -> bool {
        match lim0.best {
            None => {
                &&& r matches Err(e) && e == OrderBookError::NoOrderToMatch
                &&& post == pre
            },
            Some(b) => {
                let i = b.spec_value() as int;
                let q = lim0.level_of(i).spec_fifo();
                let m0 = pre.orders@;
                &&& first_live(q, m0) is Some
                &&& (r matches Ok(fill) && {
                    let k = first_live(q, m0)->Some_0;
                    let o = m0[k.spec_value()];
                    let v = if remaining_of(o) <= order.volume.spec_value() {
                        remaining_of(o)
                    } else {
                        order.volume.spec_value() as int
                    };
                    &&& fill.market_order_id == order.id
                    &&& fill.order_id == k
                    &&& fill.order_price == o.price
                    &&& fill.filled_volume.spec_value() == v
                    &&& post.orders@ == fill_map_update(m0, k.spec_value(), v)
                    &&& lim1.slots().len() == lim0.slots().len()
                    &&& lim1.level_of(i).spec_volume() == lim0.level_of(i).spec_volume() - v
                    // the matched level keeps its price; its queue loses the
                    // stale prefix plus, on a full fill, the matched head
                    &&& lim1.level_of(i).spec_price() == lim0.level_of(i).spec_price()
                    &&& lim1.level_of(i).spec_fifo() == (if v == remaining_of(o) {
                        pruned(q, m0).drop_first()
                    } else {
                        pruned(q, m0)
                    })
                    &&& forall|j: int|
                        0 <= j < lim0.slots().len() && j != i ==> lim1.slots()[j]
                            == lim0.slots()[j]
                    &&& slots_vol_sum(lim1.slots()) == slots_vol_sum(lim0.slots()) - v
                    &&& post.spread == pre.spread
                    // a drained level loses the best pointer, which is then
                    // recomputed; otherwise it stays put
                    &&& (lim1.level_of(i).spec_volume() > 0 ==> lim1.best == lim0.best)
                    &&& (lim1.level_of(i).spec_volume() == 0 ==> (if lim1.has_positive_level() {
                        lim1.best matches Some(nb) && lim1.is_best_at(nb.spec_value() as int, s)
                    } else {
                        lim1.best is None
                    }))
                })
            },
        }
    }

    /// What one market-order call does, whichever side it takes from: a buy
    /// consumes the asks and leaves the bids alone, a sell the other way
    /// round, each per `market_post`.
    pub open spec fn market_step(
        pre: OrderBook,
        post: OrderBook,
        order: Order,
        r: Result<FillAtMarket, OrderBookError>,
    ) -> bool {
        match order.side {
            OrderSide::Buy => Self::market_post(pre, post, order, pre.asks, post.asks, OrderSide::Sell, r)
                && post.bids == pre.bids,
            OrderSide::Sell => Self::market_post(pre, post, order, pre.bids, post.bids, OrderSide::Buy, r)
                && post.asks == pre.asks,
        }
    }

    /// Fill a market order against the best opposing level: a buy consumes
    /// the asks, a sell consumes the bids. One call fills against one
    /// resting order; the driver calls again for the rest.
    pub fn fill_market_order(&mut self, order: &Order) -> (r: Result<FillAtMarket, OrderBookError>)
        requires
            old(self).wf(),
        ensures
            final(self).wf(),
            Self::market_step(*old(self), *final(self), *order, r),
    {
        match order.side {
            OrderSide::Buy => self.fill_buy_market_order(order),
            OrderSide::Sell => self.fill_sell_market_order(order),
        }
    }

    /// A market buy takes liquidity from the best ask level.
    fn fill_buy_market_order(&mut self, order: &Order) -> (r: Result<FillAtMarket, OrderBookError>)
        requires
            old(self).wf(),
        ensures
            final(self).wf(),
            Self::market_post(
                *old(self),
                *final(self),
                *order,
                old(self).asks,
                final(self).asks,
                OrderSide::Sell,
                r,
            ),
            final(self).bids == old(self).bids,
    {
        let aix = match self.asks.get_best() {
            Some(a) => a,
            None => {
                return Err(OrderBookError::NoOrderToMatch);
            },
        };
        let ghost b0 = *self;
        prune_level(&mut self.asks, &self.orders, aix.value());
        let ghost b1 = *self;
        proof {
            let ai = aix.spec_value() as int;
            lemma_first_live(b1.asks.level_of(ai).spec_fifo(), b1.orders@);
            assert(b1.wf()) by {
                assert forall|q: u64, j: int|
                    #![trigger count_id(b1.asks.level_of(j).spec_fifo(), q)]
                    b1.orders@.contains_key(q) && 0 <= j < b1.asks.slots().len() implies count_id(
                    b1.asks.level_of(j).spec_fifo(),
                    q,
                ) == count_id(b0.asks.level_of(j).spec_fifo(), q) by {}
            }
        }
        let sk = match self.asks.get_level(aix.value()) {
            Some(l) => match l.front() {
                Some(id) => id,
                None => {
                    return Err(OrderBookError::NoOrderToMatch);
                },
            },
            None => {
                return Err(OrderBookError::NoOrderToMatch);
            },
        };
        let o = *self.orders.get(&sk).unwrap();
        let rem = o.remaining();
        let mvol = order.volume.value();
        let v = if rem <= mvol {
            rem
        } else {
            mvol
        };
        let fill = FillAtMarket {
            market_order_id: order.id,
            order_id: sk,
            order_price: o.price,
            filled_volume: Volume::new(v),
        };
        proof {
            let ai = aix.spec_value() as int;
            assert(count_id(b1.asks.level_of(ai).spec_fifo(), sk.spec_value()) >= 1) by {
                lemma_count_nonneg(b1.asks.level_of(ai).spec_fifo().drop_first(), sk.spec_value());
            }
            Self::lemma_queue_covers(
                b1.asks.level_of(ai).spec_fifo(),
                b1.orders@,
                sk.spec_value(),
            );
        }
        apply_fill(&mut self.asks, &mut self.orders, aix.value(), v);
        let ghost b2 = *self;
        proof {
            Self::lemma_fill_wf(b1, b2, OrderSide::Sell, aix.spec_value() as int, v as int);
            let ai = aix.spec_value() as int;
            assert(b1.asks.slots() =~= b0.asks.slots().update(ai, b1.asks.slots()[ai]));
            lemma_slots_vol_sum_update(b0.asks.slots(), ai, b1.asks.slots()[ai]);
            assert(b2.asks.slots() =~= b1.asks.slots().update(ai, b2.asks.slots()[ai]));
            lemma_slots_vol_sum_update(b1.asks.slots(), ai, b2.asks.slots()[ai]);
        }
        match self.asks.get_best() {
            None => self.update_best_sell(),
            Some(_) => {},
        }
        Ok(fill)
    }

    /// A market sell takes liquidity from the best bid level.
    fn fill_sell_market_order(&mut self, order: &Order) -> (r: Result<FillAtMarket, OrderBookError>)
        requires
            old(self).wf(),
        ensures
            final(self).wf(),
            Self::market_post(
                *old(self),
                *final(self),
                *order,
                old(self).bids,
                final(self).bids,
                OrderSide::Buy,
                r,
            ),
            final(self).asks == old(self).asks,
    {
        let bix = match self.bids.get_best() {
            Some(b) => b,
            None => {
                return Err(OrderBookError::NoOrderToMatch);
            },
        };
        let ghost b0 = *self;
        prune_level(&mut self.bids, &self.orders, bix.value());
        let ghost b1 = *self;
        proof {
            let bi = bix.spec_value() as int;
            lemma_first_live(b1.bids.level_of(bi).spec_fifo(), b1.orders@);
            assert(b1.wf()) by {
                assert forall|q: u64, j: int|
                    #![trigger count_id(b1.bids.level_of(j).spec_fifo(), q)]
                    b1.orders@.contains_key(q) && 0 <= j < b1.bids.slots().len() implies count_id(
                    b1.bids.level_of(j).spec_fifo(),
                    q,
                ) == count_id(b0.bids.level_of(j).spec_fifo(), q) by {}
            }
        }
        let bk = match self.bids.get_level(bix.value()) {
            Some(l) => match l.front() {
                Some(id) => id,
                None => {
                    return Err(OrderBookError::NoOrderToMatch);
                },
            },
            None => {
                return Err(OrderBookError::NoOrderToMatch);
            },
        };
        let o = *self.orders.get(&bk).unwrap();
        let rem = o.remaining();
        let mvol = order.volume.value();
        let v = if rem <= mvol {
            rem
        } else {
            mvol
        };
        let fill = FillAtMarket {
            market_order_id: order.id,
            order_id: bk,
            order_price: o.price,
            filled_volume: Volume::new(v),
        };
        proof {
            let bi = bix.spec_value() as int;
            assert(count_id(b1.bids.level_of(bi).spec_fifo(), bk.spec_value()) >= 1) by {
                lemma_count_nonneg(b1.bids.level_of(bi).spec_fifo().drop_first(), bk.spec_value());
            }
            Self::lemma_queue_covers(
                b1.bids.level_of(bi).spec_fifo(),
                b1.orders@,
                bk.spec_value(),
            );
        }
        apply_fill(&mut self.bids, &mut self.orders, bix.value(), v);
        let ghost b2 = *self;
        proof {
            Self::lemma_fill_wf(b1, b2, OrderSide::Buy, bix.spec_value() as int, v as int);
            let bi = bix.spec_value() as int;
            assert(b1.bids.slots() =~= b0.bids.slots().update(bi, b1.bids.slots()[bi]));
            lemma_slots_vol_sum_update(b0.bids.slots(), bi, b1.bids.slots()[bi]);
            assert(b2.bids.slots() =~= b1.bids.slots().update(bi, b2.bids.slots()[bi]));
            lemma_slots_vol_sum_update(b1.bids.slots(), bi, b2.bids.slots()[bi]);
        }
        match self.bids.get_best() {
            None => self.update_best_buy(),
            Some(_) => {},
        }
        Ok(fill)
    }

    /// The lowest tracked ask price.
    pub fn get_best_sell(&self) -> (r: Option<Price>)
        requires
            self.asks.wf(),
        ensures
            match self.best_ask_price() {
                Some(p) => r matches Some(q) && q.spec_bits() == p,
                None => r is None,
            },
    {
        self.asks.get_best_limit()
    }

    /// The highest tracked bid price.
    pub fn get_best_buy(&self) -> (r: Option<Price>)
        requires
            self.bids.wf(),
        ensures
            match self.best_bid_price() {
                Some(p) => r matches Some(q) && q.spec_bits() == p,
                None => r is None,
            },
    {
        self.bids.get_best_limit()
    }

    /// The arena index of the tracked best ask level.
    pub fn get_best_sell_index(&self) -> (r: Option<LevelIndex>)
        ensures
            r == self.asks.best,
    {
        self.asks.get_best()
    }

    /// The arena index of the tracked best bid level.
    pub fn get_best_buy_index(&self) -> (r: Option<LevelIndex>)
        ensures
            r == self.bids.best,
    {
        self.bids.get_best()
    }

    /// The volume resting at the tracked best bid level.
    pub fn get_best_buy_volume(&self) -> (r: Option<Volume>)
        requires
            self.bids.wf(),
        ensures
            match self.bids.best {
                Some(b) => r matches Some(v) && v.spec_value() == self.bids.level_of(
                    b.spec_value() as int,
                ).spec_volume(),
                None => r is None,
            },
    {
        match self.bids.get_best() {
            Some(index) => match self.bids.get_level(index.value()) {
                Some(l) => Some(l.total_volume()),
                None => None,
            },
            None => None,
        }
    }

    /// The volume resting at the tracked best ask level.
    pub fn get_best_sell_volume(&self) -> (r: Option<Volume>)
        requires
            self.asks.wf(),
        ensures
            match self.asks.best {
                Some(b) => r matches Some(v) && v.spec_value() == self.asks.level_of(
                    b.spec_value() as int,
                ).spec_volume(),
                None => r is None,
            },
    {
        match self.asks.get_best() {
            Some(index) => match self.asks.get_level(index.value()) {
                Some(l) => Some(l.total_volume()),
                None => None,
            },
            None => None,
        }
    }

    /// The volume of open orders at a price on one side: the active level's
    /// total, or nothing where no active level exists at that price.
    pub fn get_volume_at_limit(&self, limit: Price, side: OrderSide) -> (r: Option<Volume>)
        requires
            self.bids.wf(),
            self.asks.wf(),
        ensures
            ({
                let lim = self.side_of(side);
                match r {
                    Some(v) => lim.active().contains_key(limit.spec_bits()) && v.spec_value()
                        == lim.vol_at(limit.spec_bits()),
                    None => !lim.active().contains_key(limit.spec_bits()),
                }
            }),
    {
        let limit_map = match side {
            OrderSide::Buy => &self.bids,
            OrderSide::Sell => &self.asks,
        };
        match limit_map.level_map.get(&limit) {
            Some(index) => match limit_map.get_level(index.value()) {
                Some(l) => Some(l.total_volume()),
                None => None,
            },
            None => None,
        }
    }
}

impl Default for OrderBook {
    /// The empty book.
    fn default() -> (r: OrderBook)
        ensures
            r.wf(),
            r.orders@ == Map::<u64, LimitOrder>::empty(),
            r.bids.slots().len() == 0,
            r.asks.slots().len() == 0,
            r.bids.best is None,
            r.asks.best is None,
            r.spread is None,
    {
        OrderBook::new()
    }
}

} // verus!
