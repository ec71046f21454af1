//! A price-time priority limit order book.
//!
//! The book keeps the outstanding buy (bid) and sell (ask) limit orders of a
//! single instrument, ranked by price and, within one price, by arrival
//! order. It detects crossable orders and produces the resulting fills, one
//! per call, and supports constant-time cancellation by leaving cancelled
//! ids in the per-price queues until a later walk prunes them.

pub mod arena;
pub mod book;
pub mod digits;
pub mod engine;
pub mod laws;
pub mod level;
pub mod limits;
pub mod maps;
pub mod model;
pub mod primitives;

pub use book::{
    CancelOrderError, CancellationReport, CancellationStatus, Fill, FillAtMarket, OrderBook,
    OrderBookError,
};
pub use digits::u64_to_vec_u8;
pub use level::Level;
pub use limits::Limits;
pub use maps::{LevelMap, OrderMap};
pub use primitives::{
    LevelIndex, LimitOrder, Oid, Order, OrderSide, OrderType, Price, Spread, Timestamp, Volume,
};
