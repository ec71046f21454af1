//! Typed scalars that make up the core of the order book: order id,
//! timestamp, price, volume, side and kind, plus the two order records
//! (submitter-facing `Order` and resting `LimitOrder`).

use vstd::prelude::*;

verus! {

/// Buy or sell side of the book.
#[derive(Debug, PartialEq, Eq, Structural, Clone, Copy)]
pub enum OrderSide {
    /// Buy side
    Buy,
    /// Sell side
    Sell,
}

/// Kind of an order: a market order has no price, a limit order has one.
#[derive(Debug, PartialEq, Eq, Structural, Clone, Copy)]
pub enum OrderType {
    Market,
    Limit,
}

/// Order id. Ids are unique across the book for its lifetime (caller contract).
#[derive(Debug, PartialEq, Eq, Structural, Clone, Copy, Hash)]
pub struct Oid(pub u64);

impl Oid {
    /// The id as a plain integer, for specifications.
    pub open spec fn spec_value(self) -> u64 {
        self.0
    }

    pub fn new(value: u64) -> (r: Oid)
        ensures
            r.spec_value() == value,
    {
        Oid(value)
    }

    pub fn value(&self) -> (r: u64)
        ensures
            r == self.spec_value(),
    {
        self.0
    }
}

/// Submission time in milliseconds. The book never orders by timestamp:
/// time priority is the FIFO order of arrival at a level.
#[derive(Debug, PartialEq, Eq, Structural, Clone, Copy)]
pub struct Timestamp(pub u64);

impl Timestamp {
    pub open spec fn spec_value(self) -> u64 {
        self.0
    }

    pub fn new(value: u64) -> (r: Timestamp)
        ensures
            r.spec_value() == value,
    {
        Timestamp(value)
    }

    /// Relies on chrono's `Utc::now` and `DateTime::timestamp_millis` to
    /// read the wall clock as milliseconds since the Unix epoch. The value
    /// depends on the clock, so nothing is claimed of it; the book never
    /// orders by timestamp. Caveat: chrono's `Utc::now` panics when the
    /// system clock is set before the Unix epoch, an environmental state no
    /// `requires` can exclude.
    #[verifier::external_body]
    pub fn now() -> Timestamp {
        Timestamp(chrono::Utc::now().timestamp_millis() as u64)
    }
}

/// Price key. The book needs a deterministic total order on prices; it keys
/// levels by the raw bit pattern of an IEEE-754 double and orders bit
/// patterns as unsigned integers, which agrees with numeric order on
/// non-negative finite values. The book itself treats the key as an opaque
/// totally ordered integer; turning it back into a decimal is the caller's
/// business.
#[derive(Debug, PartialEq, Eq, Structural, Clone, Copy, Hash)]
pub struct Price(pub u64);

impl Price {
    /// The key as a plain integer, for specifications.
    pub open spec fn spec_bits(self) -> u64 {
        self.0
    }

    pub fn new(bits: u64) -> (r: Price)
        ensures
            r.spec_bits() == bits,
    {
        Price(bits)
    }

    pub fn bits(&self) -> (r: u64)
        ensures
            r == self.spec_bits(),
    {
        self.0
    }
}

/// Non-negative integer quantity of an order or a level.
#[derive(Debug, PartialEq, Eq, Structural, Clone, Copy)]
pub struct Volume(pub u64);

impl Volume {
    /// The quantity as a plain integer, for specifications.
    pub open spec fn spec_value(self) -> u64 {
        self.0
    }

    pub fn new(value: u64) -> (r: Volume)
        ensures
            r.spec_value() == value,
    {
        Volume(value)
    }

    pub fn value(&self) -> (r: u64)
        ensures
            r == self.spec_value(),
    {
        self.0
    }

    pub fn is_zero(&self) -> (r: bool)
        ensures
            r == (self.spec_value() == 0),
    {
        self.0 == 0
    }
}

/// Index of a level in the side's arena. Indices are stable: once a level is
/// pushed its index never changes for the lifetime of the arena.
#[derive(Debug, PartialEq, Eq, Structural, Clone, Copy)]
pub struct LevelIndex(pub usize);

impl LevelIndex {
    pub open spec fn spec_value(self) -> usize {
        self.0
    }

    pub fn new(value: usize) -> (r: LevelIndex)
        ensures
            r.spec_value() == value,
    {
        LevelIndex(value)
    }

    pub fn value(&self) -> (r: usize)
        ensures
            r == self.spec_value(),
    {
        self.0
    }
}

/// The spread: best ask against best bid, kept as the pair of price keys.
/// The numeric difference of the two decimals is computed downstream, where
/// the keys are turned back into numbers.
#[derive(Debug, PartialEq, Eq, Structural, Clone, Copy)]
pub struct Spread {
    pub ask: Price,
    pub bid: Price,
}

/// An order as the submitter hands it in: `price` is present iff the order
/// is a limit order.
#[derive(Debug, Clone, Copy)]
pub struct Order {
    pub id: Oid,
    pub side: OrderSide,
    pub kind: OrderType,
    pub price: Option<Price>,
    pub volume: Volume,
    pub timestamp: Timestamp,
}

impl Order {
    /// Create a new limit order.
    pub fn new_limit(
        id: Oid,
        side: OrderSide,
        timestamp: Timestamp,
        price: Price,
        volume: Volume,
    ) -> (r: Order)
        ensures
            r.id == id,
            r.side == side,
            r.kind == OrderType::Limit,
            r.price == Some(price),
            r.volume == volume,
            r.timestamp == timestamp,
    {
        Order { id, side, kind: OrderType::Limit, timestamp, price: Some(price), volume }
    }

    /// Create a new market order.
    pub fn new_market(id: Oid, side: OrderSide, timestamp: Timestamp, volume: Volume) -> (r: Order)
        ensures
            r.id == id,
            r.side == side,
            r.kind == OrderType::Market,
            r.price is None,
            r.volume == volume,
            r.timestamp == timestamp,
    {
        Order { id, side, kind: OrderType::Market, timestamp, price: None, volume }
    }
}

/// A resting limit order. `filled_volume`, when present, never exceeds
/// `volume`; the remaining quantity is `volume - filled_volume`.
#[derive(Debug, Clone, Copy)]
pub struct LimitOrder {
    pub id: Oid,
    pub side: OrderSide,
    pub timestamp: Timestamp,
    pub price: Price,
    pub volume: Volume,
    pub filled_volume: Option<Volume>,
}

/// How much of the order has been filled so far; an absent `filled_volume`
/// means nothing has.
pub open spec fn filled_of(o: LimitOrder) -> int {
    match o.filled_volume {
        Some(v) => v.spec_value() as int,
        None => 0,
    }
}

/// The quantity still resting on the book.
pub open spec fn remaining_of(o: LimitOrder) -> int {
    o.volume.spec_value() - filled_of(o)
}

impl LimitOrder {
    /// Create a new resting order with nothing filled yet.
    pub fn new(
        id: Oid,
        side: OrderSide,
        timestamp: Timestamp,
        price: Price,
        volume: Volume,
    ) -> (r: LimitOrder)
        ensures
            r.id == id,
            r.side == side,
            r.timestamp == timestamp,
            r.price == price,
            r.volume == volume,
            r.filled_volume is None,
    {
        LimitOrder { id, side, timestamp, price, volume, filled_volume: None }
    }

    /// The quantity still resting on the book.
    pub fn remaining(&self) -> (r: u64)
        requires
            0 <= remaining_of(*self),
        ensures
            r == remaining_of(*self),
    {
        match self.filled_volume {
            Some(f) => self.volume.0 - f.0,
            None => self.volume.0,
        }
    }
}

/// Why an `Order` could not be read as a `LimitOrder`.
#[derive(Debug)]
pub enum TryFromOrderError {
    OrderTypeNotLimit,
}

impl LimitOrder {
    /// Read a submitter order as a resting limit order. Only limit orders
    /// convert; a limit order carries a price by construction.
    pub fn try_from_order(order: &Order) -> (r: Result<LimitOrder, TryFromOrderError>)
        requires
            order.kind is Limit ==> order.price is Some,
        ensures
            order.kind is Limit ==> (r matches Ok(lo) && lo == (LimitOrder {
                id: order.id,
                side: order.side,
                timestamp: order.timestamp,
                price: order.price.unwrap(),
                volume: order.volume,
                filled_volume: None,
            })),
            !(order.kind is Limit) ==> r matches Err(TryFromOrderError::OrderTypeNotLimit),
    {
        match order.kind {
            OrderType::Limit => Ok(
                LimitOrder {
                    id: order.id,
                    side: order.side,
                    timestamp: order.timestamp,
                    price: *order.price.as_ref().unwrap(),
                    volume: order.volume,
                    filled_volume: None,
                },
            ),
            _ => Err(TryFromOrderError::OrderTypeNotLimit),
        }
    }
}

} // verus!
