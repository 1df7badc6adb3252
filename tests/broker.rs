use paper_broker::broker::{BrokerError, PaperBroker};
use paper_broker::risk::{RiskLimits, RiskViolationType};
use paper_broker::types::{
    BrokerConfig, InstrumentType, MarketData, OrderRequest, OrderSide, OrderStatus, OrderType,
    TimeInForce,
};

const DOLLAR: i64 = 1_000_000;
/// Tuesday 2024-01-02, 10:00 New York time.
const OPEN_TS: i64 = 1704207600;

fn dollars(d: f64) -> i64 {
    (d * DOLLAR as f64).round() as i64
}

fn relaxed_limits() -> RiskLimits {
    let mut l = RiskLimits::default();
    l.max_trade_size = 1_000_000 * DOLLAR as i128;
    l.max_position_size = 1_000_000 * DOLLAR as i128;
    l.max_daily_volume = 10_000_000 * DOLLAR as i128;
    l.max_portfolio_concentration = 16_000_000;
    l
}

fn deterministic_config() -> BrokerConfig {
    let mut c = BrokerConfig::default();
    c.partial_fill_probability = 0;
    c
}

fn broker_with_cash(cash: f64) -> PaperBroker {
    PaperBroker::with_limits(dollars(cash) as i128, deterministic_config(), relaxed_limits(), 7, OPEN_TS)
}

fn create_test_broker() -> PaperBroker {
    broker_with_cash(100000.0)
}

fn create_market_data(symbol: &str, last: f64, bid: Option<f64>, ask: Option<f64>) -> MarketData {
    MarketData {
        symbol: symbol.to_string(),
        last_price: dollars(last),
        bid: bid.map(dollars),
        ask: ask.map(dollars),
        bid_size: Some(1000),
        ask_size: Some(1000),
        volume: Some(10000),
        timestamp: OPEN_TS,
    }
}

fn request(symbol: &str, side: OrderSide, order_type: OrderType, qty: i64, price: Option<f64>, stop: Option<f64>) -> OrderRequest {
    OrderRequest {
        symbol: symbol.to_string(),
        side,
        order_type,
        quantity: qty,
        price: price.map(dollars),
        stop_price: stop.map(dollars),
        time_in_force: TimeInForce::Day,
        client_order_id: None,
        instrument_type: InstrumentType::Stock,
        option_details: None,
    }
}

#[test]
fn test_market_buy_order() {
    let mut broker = create_test_broker();
    broker.update_market_data(create_market_data("AAPL", 150.0, Some(149.95), Some(150.05)), OPEN_TS);
    let execution = broker
        .place_order_at(request("AAPL", OrderSide::Buy, OrderType::Market, 100, None, None), OPEN_TS)
        .unwrap();
    assert_eq!(execution.fills.len(), 1);
    assert_eq!(execution.status, OrderStatus::Filled);
    let fill = &execution.fills[0];
    assert_eq!(fill.quantity, 100);
    assert!(fill.price >= dollars(150.05));
    let position = broker.get_position("AAPL").unwrap();
    assert_eq!(position.quantity, 100);
    assert!(position.avg_cost >= dollars(150.05));
    assert!(broker.cash < dollars(100000.0) as i128);
}

#[test]
fn test_limit_buy_order_no_fill() {
    let mut broker = create_test_broker();
    broker.update_market_data(create_market_data("AAPL", 150.0, Some(149.95), Some(150.05)), OPEN_TS);
    let execution = broker
        .place_order_at(request("AAPL", OrderSide::Buy, OrderType::Limit, 100, Some(149.00), None), OPEN_TS)
        .unwrap();
    assert_eq!(execution.fills.len(), 0);
    assert_eq!(execution.status, OrderStatus::Pending);
    assert!(broker.get_position("AAPL").is_none());
    assert_eq!(broker.cash, dollars(100000.0) as i128);
}

#[test]
fn test_limit_buy_order_fill() {
    let mut broker = create_test_broker();
    let execution = broker
        .place_order_at(request("AAPL", OrderSide::Buy, OrderType::Limit, 100, Some(150.00), None), OPEN_TS)
        .unwrap();
    assert_eq!(execution.fills.len(), 0);
    broker.update_market_data(create_market_data("AAPL", 149.50, Some(149.45), Some(149.95)), OPEN_TS);
    let orders = broker.get_orders();
    let order = orders.iter().find(|o| o.symbol == "AAPL").unwrap();
    assert_eq!(order.status, OrderStatus::Filled);
    assert_eq!(order.fills[0].price, dollars(150.00));
    let position = broker.get_position("AAPL").unwrap();
    assert_eq!(position.quantity, 100);
    assert_eq!(position.avg_cost, dollars(150.00));
}

#[test]
fn test_stop_order_trigger() {
    let mut broker = create_test_broker();
    broker.update_market_data(create_market_data("AAPL", 150.0, Some(149.95), Some(150.05)), OPEN_TS);
    broker
        .place_order_at(request("AAPL", OrderSide::Buy, OrderType::Market, 100, None, None), OPEN_TS)
        .unwrap();
    let execution = broker
        .place_order_at(request("AAPL", OrderSide::Sell, OrderType::Stop, 100, None, Some(145.00)), OPEN_TS)
        .unwrap();
    assert_eq!(execution.status, OrderStatus::Pending);
    broker.update_market_data(create_market_data("AAPL", 144.00, Some(143.95), Some(144.05)), OPEN_TS);
    // A sell stop triggers once the last price is at or below the stop.
    let orders = broker.get_orders();
    let stop_order = orders.iter().find(|o| o.order_type == OrderType::Stop).unwrap();
    assert_eq!(stop_order.status, OrderStatus::Filled);
    assert!(broker.get_position("AAPL").is_none());
}

#[test]
fn test_insufficient_buying_power() {
    let mut broker = broker_with_cash(1000.0);
    broker.update_market_data(create_market_data("AAPL", 150.0, Some(149.95), Some(150.05)), OPEN_TS);
    let result = broker.place_order_at(request("AAPL", OrderSide::Buy, OrderType::Market, 100, None, None), OPEN_TS);
    assert!(result.is_err());
    assert!(result.unwrap_err().message().contains("Insufficient buying power"));
}

#[test]
fn test_insufficient_shares_to_sell() {
    let mut broker = create_test_broker();
    let result = broker.place_order_at(request("AAPL", OrderSide::Sell, OrderType::Market, 100, None, None), OPEN_TS);
    assert!(result.is_err());
    assert!(result.unwrap_err().message().contains("Insufficient shares"));
}

#[test]
fn test_pnl_calculation() {
    let mut broker = create_test_broker();
    broker.update_market_data(create_market_data("AAPL", 150.0, Some(149.95), Some(150.05)), OPEN_TS);
    broker
        .place_order_at(request("AAPL", OrderSide::Buy, OrderType::Market, 100, None, None), OPEN_TS)
        .unwrap();
    broker.update_market_data(create_market_data("AAPL", 160.0, Some(159.95), Some(160.05)), OPEN_TS);
    let portfolio = broker.get_portfolio(OPEN_TS);
    let position = portfolio.positions.iter().find(|p| p.symbol == "AAPL").unwrap();
    assert!(position.unrealized_pnl > dollars(900.0) as i128);
    assert!(portfolio.total_pnl > dollars(900.0) as i128);
    broker
        .place_order_at(request("AAPL", OrderSide::Sell, OrderType::Market, 50, None, None), OPEN_TS)
        .unwrap();
    let portfolio = broker.get_portfolio(OPEN_TS);
    let position = portfolio.positions.iter().find(|p| p.symbol == "AAPL").unwrap();
    assert!(position.realized_pnl > dollars(400.0) as i128);
    assert_eq!(position.quantity, 50);
}

#[test]
fn market_buy_with_slippage() {
    let mut broker = create_test_broker();
    broker.update_market_data(create_market_data("AAPL", 150.0, Some(149.95), Some(150.05)), OPEN_TS);
    let ex = broker
        .place_order_at(request("AAPL", OrderSide::Buy, OrderType::Market, 100, None, None), OPEN_TS)
        .unwrap();
    assert_eq!(ex.status, OrderStatus::Filled);
    // 150.05 * (1 + 0.0005 * 1.1), rounded down to the micro-dollar.
    assert_eq!(ex.fills[0].price, 150_132_527);
    // 100 shares at half a cent is 50 cents, raised to the $1 minimum.
    assert_eq!(ex.fills[0].commission, DOLLAR);
    let expected_cash = dollars(100000.0) as i128 - (150_132_527i128 * 100 + DOLLAR as i128);
    assert_eq!(broker.cash, expected_cash);
    let p = broker.get_position("AAPL").unwrap();
    assert_eq!(p.quantity, 100);
    assert_eq!(p.avg_cost, 150_132_527);
}

#[test]
fn limit_pending_then_filled() {
    let mut broker = create_test_broker();
    broker.update_market_data(create_market_data("AAPL", 150.0, Some(149.95), Some(150.05)), OPEN_TS);
    let ex = broker
        .place_order_at(request("AAPL", OrderSide::Buy, OrderType::Limit, 100, Some(150.00), None), OPEN_TS)
        .unwrap();
    assert!(ex.fills.is_empty());
    assert_eq!(ex.status, OrderStatus::Pending);
    broker.update_market_data(create_market_data("AAPL", 149.50, Some(149.45), Some(149.95)), OPEN_TS);
    let order = broker.get_order(&ex.order_id).unwrap();
    assert_eq!(order.status, OrderStatus::Filled);
    assert_eq!(order.fills[0].price, dollars(150.0));
    let p = broker.get_position("AAPL").unwrap();
    assert_eq!(p.quantity, 100);
    assert_eq!(p.avg_cost, dollars(150.0));
    assert_eq!(broker.cash, dollars(100000.0 - 15000.0 - 1.0) as i128);
}

#[test]
fn limit_buy_fills_when_ask_equals_limit() {
    let mut broker = create_test_broker();
    broker.update_market_data(create_market_data("AAPL", 150.0, Some(149.95), Some(150.00)), OPEN_TS);
    let ex = broker
        .place_order_at(request("AAPL", OrderSide::Buy, OrderType::Limit, 1, Some(150.00), None), OPEN_TS)
        .unwrap();
    assert_eq!(ex.fills.len(), 1);
    assert_eq!(ex.fills[0].price, dollars(150.0));
    assert_eq!(ex.fills[0].quantity, 1);
}

#[test]
fn stop_triggers_exactly_at_stop_price() {
    let mut broker = create_test_broker();
    broker.update_market_data(create_market_data("AAPL", 150.0, Some(149.95), Some(150.05)), OPEN_TS);
    let ex = broker
        .place_order_at(request("AAPL", OrderSide::Buy, OrderType::Stop, 10, None, Some(151.00)), OPEN_TS)
        .unwrap();
    assert!(ex.fills.is_empty());
    broker.update_market_data(create_market_data("AAPL", 151.0, Some(150.95), Some(151.05)), OPEN_TS);
    assert_eq!(broker.get_order(&ex.order_id).unwrap().status, OrderStatus::Filled);
}

#[test]
fn market_order_without_quote_stays_pending() {
    let mut broker = create_test_broker();
    let ex = broker
        .place_order_at(request("MSFT", OrderSide::Buy, OrderType::Market, 10, None, None), OPEN_TS)
        .unwrap();
    assert!(ex.fills.is_empty());
    assert_eq!(ex.status, OrderStatus::Pending);
    assert_eq!(ex.message, "Market order pending - no market data");
    assert_eq!(broker.cash, dollars(100000.0) as i128);
}

#[test]
fn closing_fill_removes_position_and_ledger_holds() {
    let mut broker = create_test_broker();
    broker.update_market_data(create_market_data("AAPL", 150.0, Some(149.95), Some(150.05)), OPEN_TS);
    broker.update_market_data(create_market_data("MSFT", 300.0, Some(299.95), Some(300.05)), OPEN_TS);
    broker.place_order_at(request("AAPL", OrderSide::Buy, OrderType::Market, 100, None, None), OPEN_TS).unwrap();
    broker.place_order_at(request("MSFT", OrderSide::Buy, OrderType::Market, 10, None, None), OPEN_TS).unwrap();
    let ex = broker.close_position("AAPL", OPEN_TS).unwrap();
    assert_eq!(ex.fills.len(), 1);
    assert!(broker.get_position("AAPL").is_none());
    assert_eq!(broker.get_position("MSFT").unwrap().quantity, 10);
    let net: i128 = broker.get_trades().iter().map(|t| t.net_amount).sum();
    assert_eq!(broker.cash, broker.initial_cash + net);
    assert_eq!(broker.get_trades().len(), 3);
}

#[test]
fn close_position_without_position_fails() {
    let mut broker = create_test_broker();
    let err = broker.close_position("AAPL", OPEN_TS).unwrap_err();
    assert!(matches!(err, BrokerError::PositionNotFound));
}

#[test]
fn risk_rejects_trade_size() {
    let mut limits = RiskLimits::default();
    limits.max_trade_size = 10000 * DOLLAR as i128;
    let mut broker = PaperBroker::with_limits(dollars(100000.0) as i128, deterministic_config(), limits, 1, OPEN_TS);
    let err = broker
        .place_order_at(request("AAPL", OrderSide::Buy, OrderType::Limit, 100, Some(200.0), None), OPEN_TS)
        .unwrap_err();
    match err {
        BrokerError::RiskRejected(vs) => {
            assert_eq!(vs[0].violation_type, RiskViolationType::TradeSizeLimit);
        }
        _ => panic!("expected a risk rejection"),
    }
    assert!(broker.get_orders().is_empty());
    assert_eq!(broker.cash, dollars(100000.0) as i128);
}

#[test]
fn validation_rejects_without_state_change() {
    let mut broker = create_test_broker();
    let err = broker
        .place_order_at(request("", OrderSide::Buy, OrderType::Market, 100, None, None), OPEN_TS)
        .unwrap_err();
    assert_eq!(err.message(), "Symbol cannot be empty");
    assert!(broker.get_orders().is_empty());
}

#[test]
fn cancel_open_order_then_cancel_again_fails() {
    let mut broker = create_test_broker();
    let ex = broker
        .place_order_at(request("AAPL", OrderSide::Buy, OrderType::Limit, 100, Some(100.0), None), OPEN_TS)
        .unwrap();
    assert!(broker.cancel_order(&ex.order_id, OPEN_TS).is_ok());
    assert_eq!(broker.get_order(&ex.order_id).unwrap().status, OrderStatus::Canceled);
    assert!(matches!(broker.cancel_order(&ex.order_id, OPEN_TS), Err(BrokerError::OrderCompleted)));
    assert!(matches!(broker.cancel_order("nope", OPEN_TS), Err(BrokerError::OrderNotFound)));
}

#[test]
fn orders_wait_while_market_closed() {
    let mut broker = create_test_broker();
    let saturday = 1704553200;
    broker.update_market_data(create_market_data("AAPL", 150.0, Some(149.95), Some(150.05)), saturday);
    let ex = broker
        .place_order_at(request("AAPL", OrderSide::Buy, OrderType::Market, 10, None, None), saturday)
        .unwrap();
    assert!(ex.fills.is_empty());
    assert_eq!(ex.message, "Order pending - Market closed");
    broker.update_market_data(create_market_data("AAPL", 150.0, Some(149.95), Some(150.05)), OPEN_TS);
    assert_eq!(broker.get_order(&ex.order_id).unwrap().status, OrderStatus::Filled);
}

#[test]
fn crash_and_restart_replays_journal() {
    let mut broker = create_test_broker();
    broker.update_market_data(create_market_data("AAPL", 150.0, Some(149.95), Some(150.05)), OPEN_TS);
    broker.place_order_at(request("AAPL", OrderSide::Buy, OrderType::Market, 100, None, None), OPEN_TS).unwrap();
    broker.place_order_at(request("AAPL", OrderSide::Buy, OrderType::Limit, 100, Some(150.00), None), OPEN_TS).unwrap();
    broker.update_market_data(create_market_data("AAPL", 149.50, Some(149.45), Some(149.95)), OPEN_TS);
    let journal = broker.get_trades().clone();
    assert_eq!(journal.len(), 2);
    let restored = PaperBroker::restore(
        broker.initial_cash,
        deterministic_config(),
        relaxed_limits(),
        journal,
        7,
        OPEN_TS,
    )
    .unwrap();
    assert_eq!(restored.cash, broker.cash);
    let a = broker.get_position("AAPL").unwrap();
    let b = restored.get_position("AAPL").unwrap();
    assert_eq!(a.quantity, b.quantity);
    assert_eq!(a.avg_cost, b.avg_cost);
    assert_eq!(b.quantity, 200);
    assert_eq!(restored.get_trades().len(), 2);
    assert_eq!(restored.get_trades()[1].price, dollars(150.0));
}

#[test]
fn fills_in_different_symbols_commute() {
    let run = |first: &str, second: &str| {
        let mut b = create_test_broker();
        b.update_market_data(create_market_data("AAPL", 150.0, Some(149.95), Some(150.05)), OPEN_TS);
        b.update_market_data(create_market_data("MSFT", 300.0, Some(299.95), Some(300.05)), OPEN_TS);
        b.place_order_at(request(first, OrderSide::Buy, OrderType::Market, 10, None, None), OPEN_TS).unwrap();
        b.place_order_at(request(second, OrderSide::Buy, OrderType::Market, 10, None, None), OPEN_TS).unwrap();
        (b.cash, b.get_position("AAPL").unwrap().avg_cost, b.get_position("MSFT").unwrap().avg_cost)
    };
    assert_eq!(run("AAPL", "MSFT"), run("MSFT", "AAPL"));
}

#[test]
fn same_seed_same_journal() {
    let run = || {
        let mut b = PaperBroker::with_limits(dollars(100000.0) as i128, BrokerConfig::default(), relaxed_limits(), 42, OPEN_TS);
        let mut out = Vec::new();
        for i in 0..20 {
            let px = 100.0 + i as f64;
            b.update_market_data(create_market_data("AAPL", px, Some(px - 0.05), Some(px + 0.05)), OPEN_TS);
            if let Ok(ex) = b.place_order_at(request("AAPL", OrderSide::Buy, OrderType::Market, 50, None, None), OPEN_TS) {
                out.extend(ex.fills.iter().map(|f| (f.quantity, f.price, f.commission)));
            }
        }
        let journal: Vec<String> = b.get_trades().iter().map(|t| format!("{:?}", t)).collect();
        (out, journal)
    };
    let (a, ja) = run();
    let (b, jb) = run();
    assert_eq!(a, b);
    assert!(!ja.is_empty());
    assert_eq!(ja, jb);
}

#[test]
fn commission_schedule_and_slippage() {
    let b = create_test_broker();
    assert_eq!(b.calculate_commission(InstrumentType::Stock, 100), DOLLAR);
    assert_eq!(b.calculate_commission(InstrumentType::Stock, 1000), 5 * DOLLAR);
    assert_eq!(b.calculate_commission(InstrumentType::Stock, 10000), 10 * DOLLAR);
    assert_eq!(b.calculate_commission(InstrumentType::Option, 10), 6_500_000);
    assert_eq!(b.apply_slippage(dollars(100.0), OrderSide::Sell, 2000), 99_900_000);
    assert_eq!(b.apply_slippage(dollars(100.0), OrderSide::Buy, 2000), 100_100_000);
}

#[test]
fn mtm_values_at_mid() {
    let mut broker = create_test_broker();
    broker.update_market_data(create_market_data("AAPL", 150.0, Some(149.95), Some(150.05)), OPEN_TS);
    broker.place_order_at(request("AAPL", OrderSide::Buy, OrderType::Limit, 10, Some(150.05), None), OPEN_TS).unwrap();
    let v = broker.get_mtm_values();
    assert_eq!(v.stock_value, 10 * dollars(150.0) as i128);
    assert_eq!(v.option_value, 0);
    assert_eq!(v.total_equity, broker.cash + 10 * dollars(150.0) as i128);
    assert_eq!(v.unrealized_pnl, -10 * dollars(0.05) as i128);
    assert_eq!(v.stock_delta, 10);
}

#[test]
fn insufficient_shares_with_quote_changes_nothing() {
    let mut broker = create_test_broker();
    broker.update_market_data(create_market_data("AAPL", 150.0, Some(149.95), Some(150.05)), OPEN_TS);
    let err = broker
        .place_order_at(request("AAPL", OrderSide::Sell, OrderType::Market, 100, None, None), OPEN_TS)
        .unwrap_err();
    assert!(err.message().contains("Insufficient shares"));
    assert!(broker.get_orders().is_empty());
    assert!(broker.get_trades().is_empty());
    assert_eq!(broker.cash, dollars(100000.0) as i128);
}

#[test]
fn circuit_breaker_blocks_orders_then_clears() {
    let mut broker = create_test_broker();
    broker.update_market_data(create_market_data("AAPL", 100.0, Some(99.95), Some(100.0)), OPEN_TS);
    broker.place_order_at(request("AAPL", OrderSide::Buy, OrderType::Limit, 900, Some(100.0), None), OPEN_TS).unwrap();
    broker.update_market_data(create_market_data("AAPL", 88.8, Some(88.8), Some(88.85)), OPEN_TS);
    broker.place_order_at(request("AAPL", OrderSide::Sell, OrderType::Limit, 1, Some(88.8), None), OPEN_TS).unwrap();
    assert!(broker.risk_engine.is_circuit_breaker_active(OPEN_TS));
    let err = broker
        .place_order_at(request("AAPL", OrderSide::Sell, OrderType::Limit, 1, Some(88.8), None), OPEN_TS + 60)
        .unwrap_err();
    match err {
        BrokerError::RiskRejected(vs) => assert_eq!(vs[0].violation_type, RiskViolationType::CircuitBreaker),
        _ => panic!("expected the breaker"),
    }
    let later = OPEN_TS + 61 * 60;
    assert!(!broker.risk_engine.is_circuit_breaker_active(later));
    broker.update_risk_metrics(OPEN_TS + 86400);
    assert!(!broker.get_risk_status().circuit_breaker_active);
}

#[test]
fn restore_rejects_malformed_journal() {
    let mut broker = create_test_broker();
    broker.update_market_data(create_market_data("AAPL", 150.0, Some(149.95), Some(150.05)), OPEN_TS);
    broker.place_order_at(request("AAPL", OrderSide::Buy, OrderType::Market, 10, None, None), OPEN_TS).unwrap();
    let mut journal = broker.get_trades().clone();
    journal[0].net_amount += 1;
    let r = PaperBroker::restore(broker.initial_cash, deterministic_config(), relaxed_limits(), journal, 7, OPEN_TS);
    assert!(matches!(r, Err(0)));
}

#[test]
fn partial_fills_stay_in_range() {
    let mut config = BrokerConfig::default();
    config.partial_fill_probability = 1_000_000;
    config.min_partial_fill_ratio = 300_000;
    for seed in 0..20u64 {
        let mut b = PaperBroker::with_limits(dollars(100000.0) as i128, config.clone(), relaxed_limits(), seed, OPEN_TS);
        b.update_market_data(create_market_data("AAPL", 10.0, Some(9.95), Some(10.05)), OPEN_TS);
        let ex = b.place_order_at(request("AAPL", OrderSide::Buy, OrderType::Market, 100, None, None), OPEN_TS).unwrap();
        assert_eq!(ex.fills.len(), 1);
        let q = ex.fills[0].quantity;
        assert!((30..=100).contains(&q), "quantity {}", q);
        let order = b.get_order(&ex.order_id).unwrap();
        assert_eq!(order.remaining_quantity, 100 - q);
        if q < 100 {
            assert_eq!(order.status, OrderStatus::PartiallyFilled);
        }
    }
}

#[test]
fn fill_quantity_follows_the_draws() {
    let mut cfg = BrokerConfig::default();
    cfg.partial_fill_probability = 100_000;
    assert_eq!(paper_broker::broker::fill_quantity(100, 99_999, 40, &cfg), 40);
    assert_eq!(paper_broker::broker::fill_quantity(100, 100_000, 40, &cfg), 100);
    assert_eq!(paper_broker::broker::partial_fill_floor(100, 300_000), 30);
    assert_eq!(paper_broker::broker::partial_fill_floor(2, 300_000), 1);
}

#[test]
fn risk_rejection_message_joins_violations() {
    let mut limits = RiskLimits::default();
    limits.max_trade_size = 10000 * DOLLAR as i128;
    limits.max_position_size = 10000 * DOLLAR as i128;
    let mut broker = PaperBroker::with_limits(dollars(100000.0) as i128, deterministic_config(), limits, 1, OPEN_TS);
    let err = broker
        .place_order_at(request("AAPL", OrderSide::Buy, OrderType::Limit, 100, Some(200.0), None), OPEN_TS)
        .unwrap_err();
    assert_eq!(
        err.message(),
        "Risk check failed: Trade size exceeds limit; Position size would exceed limit"
    );
    if let BrokerError::RiskRejected(vs) = err {
        assert_eq!(vs[0].current_value, 20000 * DOLLAR as i128);
        assert_eq!(vs[0].limit_value, 10000 * DOLLAR as i128);
    }
}

#[test]
fn restored_orders_keep_unique_ids() {
    let mut broker = create_test_broker();
    let ex = broker
        .place_order_at(request("AAPL", OrderSide::Buy, OrderType::Limit, 10, Some(100.0), None), OPEN_TS)
        .unwrap();
    let copy = broker.get_order(&ex.order_id).unwrap().clone();
    assert!(!broker.restore_order(copy));
    assert_eq!(broker.get_orders().len(), 1);
}
