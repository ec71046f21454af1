use lob::{
    CancelOrderError, CancellationStatus, LevelIndex, LimitOrder, Oid, Order, OrderBook,
    OrderBookError, OrderSide, Price, Spread, Timestamp, Volume,
};

fn price(p: f64) -> Price {
    Price::new(p.to_bits())
}

fn limit(id: u64, side: OrderSide, p: f64, v: u64) -> LimitOrder {
    LimitOrder::try_from_order(&Order::new_limit(
        Oid::new(id),
        side,
        Timestamp::now(),
        price(p),
        Volume::new(v),
    ))
    .unwrap()
}

#[test]
fn test_limit_map() {
    let mut limit_map = lob::Limits::default();
    let order = LimitOrder::new(
        Oid::new(1),
        OrderSide::Buy,
        Timestamp::new(1),
        price(21.0453),
        Volume::new(100),
    );
    limit_map.add_order(&order);
}

#[test]
fn test_order_book_new() {
    let order_book = OrderBook::default();
    assert_eq!(order_book.bids.best, None);
    assert_eq!(order_book.asks.best, None);
    assert_eq!(order_book.orders.len(), 0);
    assert_eq!(order_book.spread, None);
}

#[test]
fn test_cancel_order() {
    let mut order_book = OrderBook::default();
    let order = &Order::new_limit(
        Oid::new(1),
        OrderSide::Buy,
        Timestamp::now(),
        price(21.0453),
        Volume::new(100),
    );
    order_book.add_order(LimitOrder::try_from_order(order).unwrap());
    assert_eq!(order_book.orders.len(), 1);
    let order = order_book.cancel_order(Oid::new(1)).unwrap();
    assert_eq!(order_book.orders.len(), 0);
    assert_eq!(order.order_id, Oid::new(1));
    assert_eq!(order.status, CancellationStatus::Cancelled);

    let order = &Order::new_limit(
        Oid::new(2),
        OrderSide::Buy,
        Timestamp::now(),
        price(21.0453),
        Volume::new(50),
    );
    order_book.add_order(LimitOrder::try_from_order(order).unwrap());
    assert_eq!(order_book.orders.len(), 1);
    let order = order_book.cancel_order(Oid::new(2)).unwrap();
    assert_eq!(order_book.orders.len(), 0);
    assert_eq!(order.order_id, Oid::new(2));
    assert_eq!(order.status, CancellationStatus::Cancelled);
}

#[test]
fn test_execute_buy_order() {
    let mut order_book = OrderBook::default();
    let order = &Order::new_limit(
        Oid::new(1),
        OrderSide::Sell,
        Timestamp::now(),
        price(21.0),
        Volume::new(100),
    );
    order_book.add_order(LimitOrder::try_from_order(order).unwrap());
    let fill_result = order_book.find_and_fill_best_orders();
    assert!(fill_result.is_err());
    assert_eq!(fill_result.unwrap_err(), OrderBookError::NoOrderToMatch);
    assert_eq!(order_book.get_best_sell(), Some(price(21.0)));

    let order = &Order::new_limit(
        Oid::new(3),
        OrderSide::Buy,
        Timestamp::now(),
        price(22.0),
        Volume::new(50),
    );
    order_book.add_order(LimitOrder::try_from_order(order).unwrap());
    assert_eq!(order_book.get_best_buy(), Some(price(22.0)));

    let fill = order_book.find_and_fill_best_orders().unwrap();
    assert_eq!(fill.buy_order_id, Oid::new(3));
    assert_eq!(fill.sell_order_id, Oid::new(1));
    assert_eq!(fill.volume, Volume::new(50));
    assert_eq!(fill.buy_order_price, price(22.0));
    assert_eq!(fill.sell_order_price, price(21.0));

    assert!(order_book.get_best_buy().is_none());
    assert!(order_book.get_best_buy_volume().is_none());
    assert_eq!(order_book.get_best_sell(), Some(price(21.0)));
    assert_eq!(order_book.get_best_sell_volume(), Some(Volume::new(50)));

    let order = Order::new_limit(
        Oid::new(2),
        OrderSide::Buy,
        Timestamp::now(),
        price(25.0),
        Volume::new(125),
    );
    order_book.add_order(LimitOrder::try_from_order(&order).unwrap());

    let fill = order_book.find_and_fill_best_orders().unwrap();
    assert_eq!(fill.buy_order_id, Oid::new(2));
    assert_eq!(fill.sell_order_id, Oid::new(1));
    assert_eq!(fill.volume, Volume::new(50));
    assert_eq!(fill.buy_order_price, price(25.0));
    assert_eq!(fill.sell_order_price, price(21.0));

    assert!(order_book.get_best_sell().is_none());
    assert!(order_book.get_best_sell_volume().is_none());
    assert_eq!(order_book.get_best_buy(), Some(price(25.0)));
    assert_eq!(order_book.get_best_buy_volume(), Some(Volume::new(75)));

    let order = Order::new_limit(
        Oid::new(4),
        OrderSide::Sell,
        Timestamp::now(),
        price(20.0),
        Volume::new(75),
    );
    order_book.add_order(LimitOrder::try_from_order(&order).unwrap());

    let fill = order_book.find_and_fill_best_orders().unwrap();
    assert_eq!(fill.buy_order_id, Oid::new(2));
    assert_eq!(fill.sell_order_id, Oid::new(4));
    assert_eq!(fill.volume, Volume::new(75));
    assert_eq!(fill.buy_order_price, price(25.0));
    assert_eq!(fill.sell_order_price, price(20.0));

    assert!(order_book.get_best_sell().is_none());
    assert!(order_book.get_best_sell_volume().is_none());
    assert!(order_book.get_best_sell().is_none());
    assert!(order_book.get_best_sell_volume().is_none());
}

// A market buy sweeps the two resting asks in price order and empties the
// order map.
#[test]
fn market_sweep() {
    let mut ob = OrderBook::new();
    ob.add_order(limit(1, OrderSide::Sell, 21.0453, 100));
    ob.add_order(limit(2, OrderSide::Sell, 21.0454, 50));
    let market = Order::new_market(Oid::new(3), OrderSide::Buy, Timestamp::now(), Volume::new(150));

    let f1 = ob.fill_market_order(&market).unwrap();
    assert_eq!(f1.market_order_id, Oid::new(3));
    assert_eq!(f1.order_id, Oid::new(1));
    assert_eq!(f1.order_price, price(21.0453));
    assert_eq!(f1.filled_volume, Volume::new(100));

    let rest = Order::new_market(Oid::new(3), OrderSide::Buy, Timestamp::now(), Volume::new(50));
    let f2 = ob.fill_market_order(&rest).unwrap();
    assert_eq!(f2.order_id, Oid::new(2));
    assert_eq!(f2.order_price, price(21.0454));
    assert_eq!(f2.filled_volume, Volume::new(50));

    assert_eq!(ob.orders.len(), 0);
    let exhausted = Order::new_market(Oid::new(4), OrderSide::Buy, Timestamp::now(), Volume::new(1));
    assert_eq!(ob.fill_market_order(&exhausted).unwrap_err(), OrderBookError::NoOrderToMatch);
}

// Lazy cancellation: the cancelled id 1 stays queued ahead of id 2 but the
// fill skips it.
#[test]
fn lazy_cancellation_skips_stale_head() {
    let mut ob = OrderBook::new();
    ob.add_order(limit(1, OrderSide::Buy, 10.0, 10));
    ob.add_order(limit(2, OrderSide::Buy, 10.0, 10));
    ob.cancel_order(Oid::new(1)).unwrap();
    assert_eq!(ob.get_volume_at_limit(price(10.0), OrderSide::Buy), Some(Volume::new(10)));

    let market = Order::new_market(Oid::new(3), OrderSide::Sell, Timestamp::now(), Volume::new(10));
    let f = ob.fill_market_order(&market).unwrap();
    assert_eq!(f.order_id, Oid::new(2));
    assert_eq!(f.order_price, price(10.0));
    assert_eq!(f.filled_volume, Volume::new(10));
    assert_eq!(ob.orders.len(), 0);
}

// A new order at a drained price revives the level at the same stable index.
#[test]
fn cancel_then_new_order_revives_level() {
    let mut ob = OrderBook::new();
    ob.add_order(limit(1, OrderSide::Sell, 30.0, 5));
    let idx_before = ob.get_best_sell_index();
    ob.cancel_order(Oid::new(1)).unwrap();
    assert_eq!(ob.get_volume_at_limit(price(30.0), OrderSide::Sell), None);

    ob.add_order(limit(2, OrderSide::Sell, 30.0, 7));
    assert_eq!(ob.asks.level_map.get(&price(30.0)), idx_before);
    assert_eq!(ob.get_best_sell(), Some(price(30.0)));
    assert_eq!(ob.get_volume_at_limit(price(30.0), OrderSide::Sell), Some(Volume::new(7)));
}

// Idempotence of cancel: the first cancel reports Cancelled, the second
// NotFound, and the second changes nothing.
#[test]
fn cancel_twice() {
    let mut ob = OrderBook::new();
    ob.add_order(limit(1, OrderSide::Buy, 10.0, 10));
    ob.add_order(limit(2, OrderSide::Buy, 11.0, 4));
    let first = ob.cancel_order(Oid::new(1)).unwrap();
    assert_eq!(first.status, CancellationStatus::Cancelled);
    let orders_len = ob.orders.len();
    let best = ob.get_best_buy();
    let second = ob.cancel_order(Oid::new(1));
    assert_eq!(second.unwrap_err(), CancelOrderError::NotFound(Oid::new(1)));
    assert_eq!(ob.orders.len(), orders_len);
    assert_eq!(ob.get_best_buy(), best);
}

// Conservation of volume: one fill takes the same volume off both sides.
#[test]
fn fill_conserves_volume() {
    let mut ob = OrderBook::new();
    ob.add_order(limit(1, OrderSide::Sell, 21.0, 100));
    ob.add_order(limit(2, OrderSide::Buy, 22.0, 30));
    let bid_before = ob.get_best_buy_volume().unwrap();
    let ask_before = ob.get_best_sell_volume().unwrap();
    let fill = ob.find_and_fill_best_orders().unwrap();
    assert_eq!(fill.volume, Volume::new(30));
    assert_eq!(bid_before, Volume::new(30));
    assert_eq!(ask_before, Volume::new(100));
    // the bid side emptied; the ask side keeps 100 - 30
    assert!(ob.get_best_buy_volume().is_none());
    assert_eq!(ob.get_best_sell_volume(), Some(Volume::new(70)));
}

// Price priority: the best (lowest) ask fills first even when it arrived
// later; within one price, time priority rules.
#[test]
fn price_then_time_priority() {
    let mut ob = OrderBook::new();
    ob.add_order(limit(1, OrderSide::Sell, 21.0, 10));
    ob.add_order(limit(2, OrderSide::Sell, 20.0, 10));
    ob.add_order(limit(3, OrderSide::Sell, 20.0, 10));
    ob.add_order(limit(4, OrderSide::Buy, 25.0, 25));

    let f1 = ob.find_and_fill_best_orders().unwrap();
    assert_eq!(f1.sell_order_id, Oid::new(2));
    assert_eq!(f1.volume, Volume::new(10));
    let f2 = ob.find_and_fill_best_orders().unwrap();
    assert_eq!(f2.sell_order_id, Oid::new(3));
    assert_eq!(f2.volume, Volume::new(10));
    let f3 = ob.find_and_fill_best_orders().unwrap();
    assert_eq!(f3.sell_order_id, Oid::new(1));
    assert_eq!(f3.volume, Volume::new(5));
    assert_eq!(
        ob.find_and_fill_best_orders().unwrap_err(),
        OrderBookError::NoOrderToMatch
    );
}

// A forged best pointer at an empty arena is reported as a stale level.
#[test]
fn stale_best_pointer_is_reported() {
    let mut ob = OrderBook::new();
    ob.add_order(limit(1, OrderSide::Sell, 21.0, 100));
    ob.bids.best = Some(LevelIndex::new(0));
    assert_eq!(
        ob.find_and_fill_best_orders().unwrap_err(),
        OrderBookError::LevelHasNoValidOrders
    );
}

// The spread tracks best ask against best bid after adds and matches.
#[test]
fn spread_follows_bests() {
    let mut ob = OrderBook::new();
    ob.add_order(limit(1, OrderSide::Sell, 21.0, 100));
    assert_eq!(ob.spread, None);
    ob.add_order(limit(2, OrderSide::Buy, 19.0, 40));
    assert_eq!(ob.spread, Some(Spread { ask: price(21.0), bid: price(19.0) }));
    ob.add_order(limit(3, OrderSide::Buy, 22.0, 100));
    let _ = ob.find_and_fill_best_orders().unwrap();
    // both levels drained together: no bests, no spread
    assert_eq!(ob.get_best_sell(), None);
    assert_eq!(ob.spread, None);
}
