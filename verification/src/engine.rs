//! The matching driver over the book: it guards incoming limit orders with
//! the price bounds, queues market orders first-in first-out, drains that
//! queue against the book, and runs the crossing algorithm until the book is
//! no longer crossed.

use vstd::prelude::*;
use crate::book::{Fill, FillAtMarket, OrderBook, OrderBookError};
use crate::model::{lemma_first_live, slots_vol_sum, lemma_slots_vol_sum_nonneg};
use crate::primitives::{LimitOrder, Order, OrderSide, OrderType, Price, Volume};

verus! {

/// Why the driver refused or could not serve a request.
#[derive(Debug, Clone, PartialEq)]
pub enum MatchingEngineError {
    /// The book itself reported the failure.
    OrderBookError(OrderBookError),
    /// A limit order priced under the engine's floor.
    OrderPriceTooLowError,
    /// A limit order priced over the engine's ceiling.
    OrderPriceTooHighError,
    /// A limit order without a price.
    MissingPriceError,
    /// No market orders wait in the queue.
    NoMarketOrdersError,
    /// No orders can match.
    NoOrdersToMatchError,
}

/// The driver: one book, the price bounds it enforces, and the FIFO of
/// market orders awaiting their turn against the book.
pub struct MatchingEngine {
    pub order_book: OrderBook,
    pub min_price: Price,
    pub max_price: Price,
    /// Queue of market orders, matched first in, first out.
    pub market_orders: Vec<Order>,
}

impl MatchingEngine {
    pub fn new(min_price: Price, max_price: Price) -> (r: MatchingEngine)
        ensures
            r.order_book.wf(),
            r.min_price == min_price,
            r.max_price == max_price,
            r.market_orders@ == Seq::<Order>::empty(),
    {
        let r = MatchingEngine {
            order_book: OrderBook::new(),
            min_price,
            max_price,
            market_orders: Vec::new(),
        };
        proof {
            assert(r.market_orders@ =~= Seq::<Order>::empty());
        }
        r
    }

    pub fn set_min_price(&mut self, price: Price)
        ensures
            *final(self) == (MatchingEngine { min_price: price, ..*old(self) }),
    {
        self.min_price = price;
    }

    pub fn set_max_price(&mut self, price: Price)
        ensures
            *final(self) == (MatchingEngine { max_price: price, ..*old(self) }),
    {
        self.max_price = price;
    }

    pub fn has_market_orders(&self) -> (r: bool)
        ensures
            r == (self.market_orders@.len() > 0),
    {
        self.market_orders.len() > 0
    }

    /// Accept an order: a limit order must carry a price within the bounds
    /// and then rests on the book (where it may cross); a market order joins
    /// the queue for the next drain.
    pub fn place_order(&mut self, order: Order) -> (r: Result<(), MatchingEngineError>)
        requires
            old(self).order_book.wf(),
            old(self).market_orders@.len() < usize::MAX,
            // what the book asks of an order it accepts: a fresh id, volume
            // to rest, and room in the level's counter
            (order.kind is Limit && (order.price matches Some(p)
                && old(self).min_price.spec_bits() <= p.spec_bits()
                <= old(self).max_price.spec_bits())) ==> {
                &&& 0 < order.volume.spec_value()
                &&& old(self).order_book.id_unused(order.id.spec_value())
                &&& old(self).order_book.side_of(order.side).vol_at(
                    order.price->Some_0.spec_bits(),
                ) + order.volume.spec_value() <= u64::MAX
                &&& old(self).order_book.side_of(order.side).slots().len() < usize::MAX
            },
        ensures
            final(self).order_book.wf(),
            final(self).min_price == old(self).min_price,
            final(self).max_price == old(self).max_price,
            order.kind is Limit && order.price is None ==> (r matches Err(e) && e
                == MatchingEngineError::MissingPriceError && *final(self) == *old(self)),
            order.kind is Limit && (order.price matches Some(p) && p.spec_bits() < old(
                self,
            ).min_price.spec_bits()) ==> (r matches Err(e) && e
                == MatchingEngineError::OrderPriceTooLowError && *final(self) == *old(self)),
            order.kind is Limit && (order.price matches Some(p) && p.spec_bits() >= old(
                self,
            ).min_price.spec_bits() && p.spec_bits() > old(self).max_price.spec_bits()) ==> (
            r matches Err(e) && e == MatchingEngineError::OrderPriceTooHighError && *final(self)
                == *old(self)),
            order.kind is Limit && (order.price matches Some(p) && old(
                self,
            ).min_price.spec_bits() <= p.spec_bits() <= old(self).max_price.spec_bits()) ==> {
                &&& r is Ok
                &&& final(self).market_orders == old(self).market_orders
                &&& final(self).order_book.orders@ == old(self).order_book.orders@.insert(
                    order.id.spec_value(),
                    LimitOrder {
                        id: order.id,
                        side: order.side,
                        timestamp: order.timestamp,
                        price: order.price->Some_0,
                        volume: order.volume,
                        filled_volume: None,
                    },
                )
            },
            order.kind is Market ==> {
                &&& r is Ok
                &&& final(self).market_orders@ == old(self).market_orders@.push(order)
                &&& final(self).order_book == old(self).order_book
            },
    {
        match order.kind {
            OrderType::Limit => {
                let price = match order.price {
                    Some(p) => p,
                    None => {
                        return Err(MatchingEngineError::MissingPriceError);
                    },
                };
                if price.bits() < self.min_price.bits() {
                    return Err(MatchingEngineError::OrderPriceTooLowError);
                }
                if price.bits() > self.max_price.bits() {
                    return Err(MatchingEngineError::OrderPriceTooHighError);
                }
                let limit_order = match LimitOrder::try_from_order(&order) {
                    Ok(lo) => lo,
                    Err(_) => {
                        return Err(MatchingEngineError::MissingPriceError);
                    },
                };
                self.order_book.add_order(limit_order);
                Ok(())
            },
            OrderType::Market => {
                self.market_orders.push(order);
                Ok(())
            },
        }
    }

    /// Whether the book is crossed: both bests tracked and the best bid's
    /// price reaches the best ask's.
    pub fn can_match_orders(&self) -> (r: bool)
        requires
            self.order_book.wf(),
        ensures
            r == self.order_book.crossed(),
    {
        let best_buy = self.order_book.get_best_buy();
        let best_sell = self.order_book.get_best_sell();
        match (best_buy, best_sell) {
            (Some(buy_price), Some(sell_price)) => buy_price.bits() >= sell_price.bits(),
            _ => false,
        }
    }

    /// One matching step: the book's crossing algorithm, its error dressed
    /// as the driver's. The outcome carries the crossing step's whole
    /// postcondition either way.
    pub fn match_orders(&mut self) -> (r: Result<Fill, MatchingEngineError>)
        requires
            old(self).order_book.wf(),
        ensures
            final(self).order_book.wf(),
            final(self).min_price == old(self).min_price,
            final(self).max_price == old(self).max_price,
            final(self).market_orders == old(self).market_orders,
            r matches Ok(fill) ==> OrderBook::fill_post(
                old(self).order_book,
                final(self).order_book,
                Ok(fill),
            ),
            r matches Err(e) ==> (e matches MatchingEngineError::OrderBookError(be)
                && OrderBook::fill_post(old(self).order_book, final(self).order_book, Err(be))),
    {
        match self.order_book.find_and_fill_best_orders() {
            Ok(fill) => Ok(fill),
            Err(e) => Err(MatchingEngineError::OrderBookError(e)),
        }
    }

    /// Run the crossing algorithm until nothing matches. The book changes
    /// through the returned run of fills and through nothing else: each fill
    /// is one crossing step's outcome on the state the fills before it left,
    /// and each takes its volume out of both sides' resting totals, so the
    /// run ends; and it ends exactly when the best bid no longer reaches the
    /// best ask or one side is gone.
    pub fn match_until_not_crossed(&mut self) -> (fills: Vec<Fill>)
        requires
            old(self).order_book.wf(),
        ensures
            final(self).order_book.wf(),
            !final(self).order_book.crossed(),
            match_chain(old(self).order_book, final(self).order_book, fills@),
            slots_vol_sum(final(self).order_book.bids.slots()) == slots_vol_sum(
                old(self).order_book.bids.slots(),
            ) - fills_volume(fills@),
            slots_vol_sum(final(self).order_book.asks.slots()) == slots_vol_sum(
                old(self).order_book.asks.slots(),
            ) - fills_volume(fills@),
            final(self).min_price == old(self).min_price,
            final(self).max_price == old(self).max_price,
            final(self).market_orders == old(self).market_orders,
    {
        let mut fills: Vec<Fill> = Vec::new();
        loop
            invariant_except_break
                self.order_book.wf(),
                match_chain(old(self).order_book, self.order_book, fills@),
                slots_vol_sum(self.order_book.bids.slots()) == slots_vol_sum(
                    old(self).order_book.bids.slots(),
                ) - fills_volume(fills@),
                slots_vol_sum(self.order_book.asks.slots()) == slots_vol_sum(
                    old(self).order_book.asks.slots(),
                ) - fills_volume(fills@),
                self.min_price == old(self).min_price,
                self.max_price == old(self).max_price,
                self.market_orders == old(self).market_orders,
            ensures
                self.order_book.wf(),
                !self.order_book.crossed(),
                match_chain(old(self).order_book, self.order_book, fills@),
                slots_vol_sum(self.order_book.bids.slots()) == slots_vol_sum(
                    old(self).order_book.bids.slots(),
                ) - fills_volume(fills@),
                slots_vol_sum(self.order_book.asks.slots()) == slots_vol_sum(
                    old(self).order_book.asks.slots(),
                ) - fills_volume(fills@),
                self.min_price == old(self).min_price,
                self.max_price == old(self).max_price,
                self.market_orders == old(self).market_orders,
            decreases slots_vol_sum(self.order_book.bids.slots()) + slots_vol_sum(
                self.order_book.asks.slots(),
            ),
        {
            proof {
                lemma_slots_vol_sum_nonneg(self.order_book.bids.slots());
                lemma_slots_vol_sum_nonneg(self.order_book.asks.slots());
            }
            let ghost bpre = self.order_book;
            let ghost fs = fills@;
            match self.order_book.find_and_fill_best_orders() {
                Ok(fill) => {
                    fills.push(fill);
                    proof {
                        lemma_match_chain_snoc(
                            old(self).order_book,
                            bpre,
                            self.order_book,
                            fs,
                            fill,
                        );
                        lemma_fills_volume_push(fs, fill);
                        lemma_slots_vol_sum_nonneg(self.order_book.bids.slots());
                        lemma_slots_vol_sum_nonneg(self.order_book.asks.slots());
                    }
                },
                Err(_) => {
                    break;
                },
            }
        }
        fills
    }

    /// Drain the queued market orders, oldest first, each against the best
    /// opposing level until it is spent or the opposing side runs dry; any
    /// residual volume is discarded at this layer. The book changes through
    /// the returned run of fills and through nothing else: each fill is one
    /// market-order call's outcome for an order out of the queue, and the
    /// book's resting total drops by exactly the fills' summed volume.
    pub fn drain_market_orders(&mut self) -> (fills: Vec<FillAtMarket>)
        requires
            old(self).order_book.wf(),
        ensures
            final(self).order_book.wf(),
            final(self).market_orders@.len() == 0,
            drain_chain(
                old(self).order_book,
                final(self).order_book,
                fills@,
                old(self).market_orders@,
            ),
            slots_vol_sum(final(self).order_book.bids.slots()) + slots_vol_sum(
                final(self).order_book.asks.slots(),
            ) == slots_vol_sum(old(self).order_book.bids.slots()) + slots_vol_sum(
                old(self).order_book.asks.slots(),
            ) - market_fills_volume(fills@),
            old(self).market_orders@.len() == 0 ==> final(self).order_book == old(self).order_book
                && fills@.len() == 0,
            // progress: when the first queued order has volume and the side
            // it takes from has a best level, something fills
            ({
                let q = old(self).market_orders@;
                (q.len() > 0 && q[0].volume.spec_value() > 0 && (match q[0].side {
                    OrderSide::Buy => old(self).order_book.asks.best is Some,
                    OrderSide::Sell => old(self).order_book.bids.best is Some,
                })) ==> fills@.len() > 0
            }),
            final(self).min_price == old(self).min_price,
            final(self).max_price == old(self).max_price,
    {
        let ghost q = old(self).market_orders@;
        let ghost progress_needed: bool = q.len() > 0 && q[0].volume.spec_value() > 0 && (
        match q[0].side {
            OrderSide::Buy => old(self).order_book.asks.best is Some,
            OrderSide::Sell => old(self).order_book.bids.best is Some,
        });
        let mut fills: Vec<FillAtMarket> = Vec::new();
        let mut next: usize = 0;
        while next < self.market_orders.len()
            invariant
                q == old(self).market_orders@,
                progress_needed == (q.len() > 0 && q[0].volume.spec_value() > 0 && (
                match q[0].side {
                    OrderSide::Buy => old(self).order_book.asks.best is Some,
                    OrderSide::Sell => old(self).order_book.bids.best is Some,
                })),
                self.order_book.wf(),
                next <= self.market_orders@.len(),
                self.market_orders == old(self).market_orders,
                drain_chain(
                    old(self).order_book,
                    self.order_book,
                    fills@,
                    old(self).market_orders@,
                ),
                slots_vol_sum(self.order_book.bids.slots()) + slots_vol_sum(
                    self.order_book.asks.slots(),
                ) == slots_vol_sum(old(self).order_book.bids.slots()) + slots_vol_sum(
                    old(self).order_book.asks.slots(),
                ) - market_fills_volume(fills@),
                old(self).market_orders@.len() == 0 ==> self.order_book == old(self).order_book
                    && fills@.len() == 0,
                progress_needed ==> (next == 0 || fills@.len() > 0),
                self.min_price == old(self).min_price,
                self.max_price == old(self).max_price,
            decreases self.market_orders@.len() - next,
        {
            let order = self.market_orders[next];
            next = next + 1;
            let mut remaining: u64 = order.volume.value();
            loop
                invariant_except_break
                    q == old(self).market_orders@,
                    progress_needed == (q.len() > 0 && q[0].volume.spec_value() > 0 && (
                    match q[0].side {
                        OrderSide::Buy => old(self).order_book.asks.best is Some,
                        OrderSide::Sell => old(self).order_book.bids.best is Some,
                    })),
                    self.order_book.wf(),
                    remaining <= order.volume.spec_value(),
                    1 <= next <= old(self).market_orders@.len(),
                    order == old(self).market_orders@[next - 1],
                    self.market_orders == old(self).market_orders,
                    drain_chain(
                        old(self).order_book,
                        self.order_book,
                        fills@,
                        old(self).market_orders@,
                    ),
                    slots_vol_sum(self.order_book.bids.slots()) + slots_vol_sum(
                        self.order_book.asks.slots(),
                    ) == slots_vol_sum(old(self).order_book.bids.slots()) + slots_vol_sum(
                        old(self).order_book.asks.slots(),
                    ) - market_fills_volume(fills@),
                    progress_needed ==> (fills@.len() > 0 || (next == 1 && fills@.len() == 0
                        && self.order_book == old(self).order_book && remaining
                        == order.volume.spec_value())),
                    self.min_price == old(self).min_price,
                    self.max_price == old(self).max_price,
                ensures
                    self.order_book.wf(),
                    progress_needed ==> fills@.len() > 0,
                    self.market_orders == old(self).market_orders,
                    drain_chain(
                        old(self).order_book,
                        self.order_book,
                        fills@,
                        old(self).market_orders@,
                    ),
                    slots_vol_sum(self.order_book.bids.slots()) + slots_vol_sum(
                        self.order_book.asks.slots(),
                    ) == slots_vol_sum(old(self).order_book.bids.slots()) + slots_vol_sum(
                        old(self).order_book.asks.slots(),
                    ) - market_fills_volume(fills@),
                    self.min_price == old(self).min_price,
                    self.max_price == old(self).max_price,
                decreases slots_vol_sum(self.order_book.bids.slots()) + slots_vol_sum(
                    self.order_book.asks.slots(),
                ),
            {
                if remaining == 0 {
                    break;
                }
                proof {
                    lemma_slots_vol_sum_nonneg(self.order_book.bids.slots());
                    lemma_slots_vol_sum_nonneg(self.order_book.asks.slots());
                }
                let round = Order {
                    id: order.id,
                    side: order.side,
                    kind: order.kind,
                    price: order.price,
                    volume: Volume::new(remaining),
                    timestamp: order.timestamp,
                };
                let ghost bpre = self.order_book;
                let ghost fs = fills@;
                match self.order_book.fill_market_order(&round) {
                    Ok(f) => {
                        proof {
                            let lim0 = if round.side is Buy {
                                bpre.asks
                            } else {
                                bpre.bids
                            };
                            let i = lim0.best->Some_0.spec_value() as int;
                            lemma_first_live(lim0.level_of(i).spec_fifo(), bpre.orders@);
                        }
                        let v = f.filled_volume.value();
                        remaining = remaining - v;
                        fills.push(f);
                        proof {
                            assert(old(self).market_orders@[next - 1].id == round.id
                                && old(self).market_orders@[next - 1].side == round.side);
                            lemma_drain_chain_snoc(
                                old(self).order_book,
                                bpre,
                                self.order_book,
                                fs,
                                old(self).market_orders@,
                                round,
                                f,
                            );
                            lemma_market_fills_volume_push(fs, f);
                            lemma_slots_vol_sum_nonneg(self.order_book.bids.slots());
                            lemma_slots_vol_sum_nonneg(self.order_book.asks.slots());
                        }
                    },
                    Err(_) => {
                        proof {
                            if progress_needed && fills@.len() == 0 {
                                // the first round of the first queued order
                                // found the opposing best it was promised
                                assert(false);
                            }
                        }
                        break;
                    },
                }
            }
        }
        self.market_orders.clear();
        fills
    }
}

/// The summed volume of a run of fills.
pub open spec fn fills_volume(fills: Seq<Fill>) -> int
    decreases fills.len(),
{
    if fills.len() == 0 {
        0
    } else {
        fills[0].volume.spec_value() + fills_volume(fills.drop_first())
    }
}

/// The summed volume of a run of market fills.
pub open spec fn market_fills_volume(fills: Seq<FillAtMarket>) -> int
    decreases fills.len(),
{
    if fills.len() == 0 {
        0
    } else {
        fills[0].filled_volume.spec_value() + market_fills_volume(fills.drop_first())
    }
}

/// The book reached `post` from `pre` through exactly this run of fills:
/// each one is the crossing algorithm's successful outcome on the state the
/// fills before it left, and every state along the way is well-formed. An
/// empty run means the book did not change at all.
pub open spec fn match_chain(pre: OrderBook, post: OrderBook, fills: Seq<Fill>) -> bool
    decreases fills.len(),
{
    if fills.len() == 0 {
        post == pre
    } else {
        exists|mid: OrderBook|
            (#[trigger] OrderBook::fill_post(pre, mid, Ok(fills[0]))) && mid.wf() && match_chain(
                mid,
                post,
                fills.drop_first(),
            )
    }
}

/// The book reached `post` from `pre` through exactly this run of market
/// fills: each one is a market-order call's successful outcome on the state
/// the fills before it left, made for an order whose id and side stand in
/// the queue, and every state along the way is well-formed. An empty run
/// means the book did not change at all.
pub open spec fn drain_chain(
    pre: OrderBook,
    post: OrderBook,
    fills: Seq<FillAtMarket>,
    queue: Seq<Order>,
) -> bool
    decreases fills.len(),
{
    if fills.len() == 0 {
        post == pre
    } else {
        exists|mid: OrderBook, order: Order|
            (#[trigger] OrderBook::market_step(pre, mid, order, Ok(fills[0]))) && mid.wf() && (
            exists|j: int|
                0 <= j < queue.len() && (#[trigger] queue[j]).id == order.id && queue[j].side
                    == order.side) && drain_chain(mid, post, fills.drop_first(), queue)
    }
}

proof fn lemma_fills_volume_push(fills: Seq<Fill>, f: Fill)
    ensures
        fills_volume(fills.push(f)) == fills_volume(fills) + f.volume.spec_value(),
    decreases fills.len(),
{
    reveal_with_fuel(fills_volume, 3);
    if fills.len() == 0 {
        assert(fills.push(f).drop_first() =~= Seq::<Fill>::empty());
        assert(fills.push(f)[0] == f);
    } else {
        assert(fills.push(f).drop_first() =~= fills.drop_first().push(f));
        assert(fills.push(f)[0] == fills[0]);
        lemma_fills_volume_push(fills.drop_first(), f);
    }
}

proof fn lemma_market_fills_volume_push(fills: Seq<FillAtMarket>, f: FillAtMarket)
    ensures
        market_fills_volume(fills.push(f)) == market_fills_volume(fills)
            + f.filled_volume.spec_value(),
    decreases fills.len(),
{
    reveal_with_fuel(market_fills_volume, 3);
    if fills.len() == 0 {
        assert(fills.push(f).drop_first() =~= Seq::<FillAtMarket>::empty());
        assert(fills.push(f)[0] == f);
    } else {
        assert(fills.push(f).drop_first() =~= fills.drop_first().push(f));
        assert(fills.push(f)[0] == fills[0]);
        lemma_market_fills_volume_push(fills.drop_first(), f);
    }
}

/// A chain grows at the back: one more successful crossing step extends the
/// run of fills by one.
proof fn lemma_match_chain_snoc(
    pre: OrderBook,
    mid: OrderBook,
    post: OrderBook,
    fills: Seq<Fill>,
    f: Fill,
)
    requires
        match_chain(pre, mid, fills),
        OrderBook::fill_post(mid, post, Ok(f)),
        post.wf(),
    ensures
        match_chain(pre, post, fills.push(f)),
    decreases fills.len(),
{
    if fills.len() == 0 {
        assert(mid == pre);
        assert(fills.push(f)[0] == f);
        assert(fills.push(f).drop_first() =~= Seq::<Fill>::empty());
        assert(OrderBook::fill_post(pre, post, Ok(fills.push(f)[0])) && post.wf() && match_chain(
            post,
            post,
            fills.push(f).drop_first(),
        ));
    } else {
        let mid0 = choose|m: OrderBook|
            (#[trigger] OrderBook::fill_post(pre, m, Ok(fills[0]))) && m.wf() && match_chain(
                m,
                mid,
                fills.drop_first(),
            );
        lemma_match_chain_snoc(mid0, mid, post, fills.drop_first(), f);
        assert(fills.push(f)[0] == fills[0]);
        assert(fills.push(f).drop_first() =~= fills.drop_first().push(f));
        assert(OrderBook::fill_post(pre, mid0, Ok(fills.push(f)[0])) && mid0.wf() && match_chain(
            mid0,
            post,
            fills.push(f).drop_first(),
        ));
    }
}

/// A drain chain grows at the back the same way, for an order whose id and
/// side stand in the queue.
proof fn lemma_drain_chain_snoc(
    pre: OrderBook,
    mid: OrderBook,
    post: OrderBook,
    fills: Seq<FillAtMarket>,
    queue: Seq<Order>,
    order: Order,
    f: FillAtMarket,
)
    requires
        drain_chain(pre, mid, fills, queue),
        OrderBook::market_step(mid, post, order, Ok(f)),
        post.wf(),
        exists|j: int|
            0 <= j < queue.len() && (#[trigger] queue[j]).id == order.id && queue[j].side
                == order.side,
    ensures
        drain_chain(pre, post, fills.push(f), queue),
    decreases fills.len(),
{
    if fills.len() == 0 {
        assert(mid == pre);
        assert(fills.push(f)[0] == f);
        assert(fills.push(f).drop_first() =~= Seq::<FillAtMarket>::empty());
        assert(OrderBook::market_step(pre, post, order, Ok(fills.push(f)[0])) && post.wf() && (
        exists|j: int|
            0 <= j < queue.len() && (#[trigger] queue[j]).id == order.id && queue[j].side
                == order.side) && drain_chain(post, post, fills.push(f).drop_first(), queue));
    } else {
        let (mid0, order0) = choose|m: OrderBook, o: Order|
            (#[trigger] OrderBook::market_step(pre, m, o, Ok(fills[0]))) && m.wf() && (
            exists|j: int|
                0 <= j < queue.len() && (#[trigger] queue[j]).id == o.id && queue[j].side
                    == o.side) && drain_chain(m, mid, fills.drop_first(), queue);
        lemma_drain_chain_snoc(mid0, mid, post, fills.drop_first(), queue, order, f);
        assert(fills.push(f)[0] == fills[0]);
        assert(fills.push(f).drop_first() =~= fills.drop_first().push(f));
        assert(OrderBook::market_step(pre, mid0, order0, Ok(fills.push(f)[0])) && mid0.wf() && (
        exists|j: int|
            0 <= j < queue.len() && (#[trigger] queue[j]).id == order0.id && queue[j].side
                == order0.side) && drain_chain(mid0, post, fills.push(f).drop_first(), queue));
    }
}

} // verus!
