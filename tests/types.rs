use paper_broker::types::{
    Fill, InstrumentType, Order, OrderRequest, OrderSide, OrderStatus, OrderType, Position, TimeInForce,
    ValidationError,
};

fn req(symbol: &str, order_type: OrderType, qty: i64, price: Option<i64>, stop: Option<i64>) -> OrderRequest {
    OrderRequest {
        symbol: symbol.to_string(),
        side: OrderSide::Buy,
        order_type,
        quantity: qty,
        price,
        stop_price: stop,
        time_in_force: TimeInForce::Day,
        client_order_id: None,
        instrument_type: InstrumentType::Stock,
        option_details: None,
    }
}

fn fill(side: OrderSide, qty: i64, price: i64) -> Fill {
    Fill {
        id: "f".to_string(),
        order_id: "o".to_string(),
        symbol: "AAPL".to_string(),
        side,
        quantity: qty,
        price,
        timestamp: 0,
        commission: 0,
        instrument_type: InstrumentType::Stock,
        option_details: None,
        leg_number: None,
    }
}

#[test]
fn test_order_validation() {
    assert!(req("", OrderType::Market, 100, None, None).validate().is_err());
    assert!(req("AAPL", OrderType::Market, 0, None, None).validate().is_err());
    assert!(req("AAPL", OrderType::Limit, 100, None, None).validate().is_err());
}

#[test]
fn validation_errors_by_rule() {
    assert_eq!(req("", OrderType::Market, 1, None, None).validate(), Err(ValidationError::EmptySymbol));
    assert_eq!(req("A", OrderType::Market, -1, None, None).validate(), Err(ValidationError::NonPositiveQuantity));
    assert_eq!(req("A", OrderType::Limit, 1, Some(0), None).validate(), Err(ValidationError::NonPositiveLimitPrice));
    assert_eq!(req("A", OrderType::Stop, 1, None, None).validate(), Err(ValidationError::MissingStopPrice));
    assert_eq!(req("A", OrderType::Stop, 1, None, Some(-5)).validate(), Err(ValidationError::NonPositiveStopPrice));
    assert_eq!(req("A", OrderType::StopLimit, 1, Some(5), None).validate(), Err(ValidationError::MissingStopLimitPrices));
    assert_eq!(req("A", OrderType::StopLimit, 1, Some(5), Some(0)).validate(), Err(ValidationError::NonPositiveStopLimitPrices));
    assert_eq!(req("A", OrderType::Market, 1, None, None).validate(), Ok(()));
    assert_eq!(req("A", OrderType::StopLimit, 1, Some(5), Some(6)).validate(), Ok(()));
}

#[test]
fn order_fills_partially_then_fully() {
    let mut o = Order::new(req("AAPL", OrderType::Market, 10, None, None), "id".to_string(), 5);
    assert!(o.can_fill());
    o.add_fill(fill(OrderSide::Buy, 4, 1), 6);
    assert_eq!(o.status, OrderStatus::PartiallyFilled);
    assert_eq!(o.remaining_quantity, 6);
    o.add_fill(fill(OrderSide::Buy, 6, 1), 7);
    assert_eq!(o.status, OrderStatus::Filled);
    assert!(o.is_complete());
    assert!(!o.can_fill());
    assert_eq!(o.updated_at, 7);
}

#[test]
fn position_add_reduce_close_and_flip() {
    let mut p = Position::new("AAPL".to_string(), 0);
    assert_eq!(p.apply_fill(&fill(OrderSide::Buy, 100, 10_000_000), 1), 0);
    assert_eq!(p.avg_cost, 10_000_000);
    p.apply_fill(&fill(OrderSide::Buy, 100, 20_000_000), 1);
    assert_eq!(p.quantity, 200);
    assert_eq!(p.avg_cost, 15_000_000);
    let realized = p.apply_fill(&fill(OrderSide::Sell, 50, 16_000_000), 1);
    assert_eq!(realized, 50 * 1_000_000);
    assert_eq!(p.avg_cost, 15_000_000);
    // Flip: sell 250 with 150 held -> short 100 opened at the fill price.
    let realized = p.apply_fill(&fill(OrderSide::Sell, 250, 14_000_000), 1);
    assert_eq!(realized, -150 * 1_000_000);
    assert_eq!(p.quantity, -100);
    assert_eq!(p.avg_cost, 14_000_000);
    assert_eq!(p.realized_pnl, -100 * 1_000_000);
    let realized = p.apply_fill(&fill(OrderSide::Buy, 100, 13_000_000), 1);
    assert_eq!(realized, 100 * 1_000_000);
    assert_eq!(p.quantity, 0);
    assert_eq!(p.avg_cost, 0);
    assert_eq!(p.market_value, 0);
}

#[test]
fn round_trip_realizes_price_move() {
    let mut p = Position::new("AAPL".to_string(), 0);
    p.apply_fill(&fill(OrderSide::Buy, 10, 100_000_000), 0);
    let r = p.apply_fill(&fill(OrderSide::Sell, 10, 110_000_000), 0);
    assert_eq!(r, 10 * 10_000_000);
    assert_eq!(p.quantity, 0);
}
