use lob::engine::{MatchingEngine, MatchingEngineError};
use lob::{Oid, Order, OrderSide, Price, Timestamp, Volume};

fn price(p: f64) -> Price {
    Price::new(p.to_bits())
}

fn engine() -> MatchingEngine {
    MatchingEngine::new(price(0.0), price(f64::MAX))
}

fn limit(id: u64, side: OrderSide, p: f64, v: u64) -> Order {
    Order::new_limit(Oid::new(id), side, Timestamp::now(), price(p), Volume::new(v))
}

#[test]
fn submission_guards() {
    let mut e = MatchingEngine::new(price(10.0), price(20.0));
    assert_eq!(
        e.place_order(limit(1, OrderSide::Buy, 9.0, 5)).unwrap_err(),
        MatchingEngineError::OrderPriceTooLowError
    );
    assert_eq!(
        e.place_order(limit(1, OrderSide::Buy, 21.0, 5)).unwrap_err(),
        MatchingEngineError::OrderPriceTooHighError
    );
    let mut no_price = limit(1, OrderSide::Buy, 15.0, 5);
    no_price.price = None;
    assert_eq!(
        e.place_order(no_price).unwrap_err(),
        MatchingEngineError::MissingPriceError
    );
    assert!(e.place_order(limit(1, OrderSide::Buy, 15.0, 5)).is_ok());
}

#[test]
fn market_orders_queue_until_drained() {
    let mut e = engine();
    assert!(!e.has_market_orders());
    e.place_order(limit(1, OrderSide::Sell, 21.0, 100)).unwrap();
    e.place_order(Order::new_market(
        Oid::new(2),
        OrderSide::Buy,
        Timestamp::now(),
        Volume::new(40),
    ))
    .unwrap();
    assert!(e.has_market_orders());
    let fills = e.drain_market_orders();
    assert!(!e.has_market_orders());
    assert_eq!(fills.len(), 1);
    assert_eq!(fills[0].order_id, Oid::new(1));
    assert_eq!(fills[0].filled_volume, Volume::new(40));
    assert_eq!(
        e.order_book.get_volume_at_limit(price(21.0), OrderSide::Sell),
        Some(Volume::new(60))
    );
}

// A market order larger than all opposing liquidity consumes what is there;
// the residual is discarded at this layer.
#[test]
fn market_order_larger_than_book() {
    let mut e = engine();
    e.place_order(limit(1, OrderSide::Sell, 21.0, 30)).unwrap();
    e.place_order(limit(2, OrderSide::Sell, 22.0, 20)).unwrap();
    e.place_order(Order::new_market(
        Oid::new(3),
        OrderSide::Buy,
        Timestamp::now(),
        Volume::new(100),
    ))
    .unwrap();
    let fills = e.drain_market_orders();
    assert_eq!(fills.len(), 2);
    assert_eq!(fills[0].filled_volume, Volume::new(30));
    assert_eq!(fills[1].filled_volume, Volume::new(20));
    assert_eq!(e.order_book.orders.len(), 0);
}

// Matching progress and non-crossing at rest: while the book is crossed the
// loop produces fills, and when it stops the book is no longer crossed.
#[test]
fn match_loop_uncrosses_book() {
    let mut e = engine();
    e.place_order(limit(1, OrderSide::Sell, 21.0, 100)).unwrap();
    e.place_order(limit(2, OrderSide::Sell, 22.0, 50)).unwrap();
    e.place_order(limit(3, OrderSide::Buy, 23.0, 120)).unwrap();
    assert!(e.can_match_orders());
    let fills = e.match_until_not_crossed();
    assert_eq!(fills.len(), 2);
    assert_eq!(fills[0].volume, Volume::new(100));
    assert_eq!(fills[0].sell_order_id, Oid::new(1));
    assert_eq!(fills[1].volume, Volume::new(20));
    assert_eq!(fills[1].sell_order_id, Oid::new(2));
    assert!(!e.can_match_orders());
    // the remainder of the crossing buy was fully filled; the second ask rests
    assert_eq!(
        e.order_book.get_volume_at_limit(price(22.0), OrderSide::Sell),
        Some(Volume::new(30))
    );
    assert_eq!(e.order_book.get_best_buy(), None);
}

#[test]
fn match_orders_reports_no_match_on_empty_book() {
    let mut e = engine();
    assert!(e.match_orders().is_err());
    assert!(!e.can_match_orders());
}
