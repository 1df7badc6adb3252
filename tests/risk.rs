use paper_broker::mtm::PortfolioGreeks;
use paper_broker::risk::{RiskEngine, RiskLimits, RiskViolationType};
use paper_broker::types::{InstrumentType, OrderRequest, OrderSide, OrderType, TimeInForce, Trade};

const DOLLAR: i128 = 1_000_000;
const NOW: i64 = 1704207600;

fn option_request(qty: i64) -> OrderRequest {
    OrderRequest {
        symbol: "AAPL240315C00150000".to_string(),
        side: OrderSide::Buy,
        order_type: OrderType::Limit,
        quantity: qty,
        price: Some(1_000_000),
        stop_price: None,
        time_in_force: TimeInForce::Day,
        client_order_id: None,
        instrument_type: InstrumentType::Option,
        option_details: None,
    }
}

fn losing_trade(i: i64) -> Trade {
    Trade {
        id: format!("t{}", i),
        symbol: "AAPL".to_string(),
        side: OrderSide::Sell,
        quantity: 1,
        price: 1_000_000,
        timestamp: NOW + i,
        order_id: "o".to_string(),
        commission: 0,
        net_amount: 1_000_000,
        instrument_type: InstrumentType::Stock,
        option_details: None,
        leg_number: None,
        assignment_id: None,
    }
}

#[test]
fn contracts_at_limit_pass_and_above_fail() {
    let engine = RiskEngine::new(RiskLimits::default(), 100000 * DOLLAR, NOW);
    let ok = engine.check_order_risk(&option_request(50), 100000 * DOLLAR, &Vec::new(), None, None, NOW);
    assert!(ok.allowed);
    let bad = engine.check_order_risk(&option_request(51), 100000 * DOLLAR, &Vec::new(), None, None, NOW);
    assert!(!bad.allowed);
    assert_eq!(bad.violations[0].violation_type, RiskViolationType::ContractLimit);
}

#[test]
fn greeks_caps_apply_to_options() {
    let engine = RiskEngine::new(RiskLimits::default(), 100000 * DOLLAR, NOW);
    let g = PortfolioGreeks { delta: -600_000_000, gamma: 0, theta: 0, vega: 2_000_000_000, rho: 0 };
    let r = engine.check_order_risk(&option_request(1), 100000 * DOLLAR, &Vec::new(), Some(&g), None, NOW);
    let kinds: Vec<RiskViolationType> = r.violations.iter().map(|v| v.violation_type).collect();
    assert_eq!(kinds, vec![RiskViolationType::DeltaLimit, RiskViolationType::VegaLimit]);
}

#[test]
fn trade_size_warning_at_eighty_percent() {
    let engine = RiskEngine::new(RiskLimits::default(), 100000 * DOLLAR, NOW);
    let mut req = option_request(1);
    req.instrument_type = InstrumentType::Stock;
    req.quantity = 90;
    req.price = Some(100_000_000);
    let r = engine.check_order_risk(&req, 100000 * DOLLAR, &Vec::new(), None, None, NOW);
    assert!(r.allowed);
    assert_eq!(r.warnings.len(), 1);
    assert_eq!(r.warnings[0].violation_type, RiskViolationType::TradeSizeLimit);
}

#[test]
fn circuit_breaker_trips_holds_and_clears() {
    let mut engine = RiskEngine::new(RiskLimits::default(), 100000 * DOLLAR, NOW);
    engine.update_after_trade(&losing_trade(1), -5000 * DOLLAR, NOW);
    assert!(!engine.is_circuit_breaker_active(NOW));
    engine.update_after_trade(&losing_trade(2), -10001 * DOLLAR, NOW);
    assert!(engine.is_circuit_breaker_active(NOW));
    let mut req = option_request(1);
    req.instrument_type = InstrumentType::Stock;
    let r = engine.check_order_risk(&req, 90000 * DOLLAR, &Vec::new(), None, None, NOW + 60);
    assert!(!r.allowed);
    assert_eq!(r.violations.len(), 1);
    assert_eq!(r.violations[0].violation_type, RiskViolationType::CircuitBreaker);
    let later = NOW + 61 * 60;
    assert!(!engine.is_circuit_breaker_active(later));
    engine.update_daily_metrics(0, None, NOW + 86400);
    assert!(!engine.metrics.circuit_breaker_active);
    assert_eq!(engine.metrics.daily_trades, 0);
}

#[test]
fn consecutive_losses_counted_from_the_end() {
    let mut engine = RiskEngine::new(RiskLimits::default(), 100000 * DOLLAR, NOW);
    engine.update_after_trade(&losing_trade(1), 10, NOW);
    engine.update_after_trade(&losing_trade(2), -1, NOW);
    engine.update_after_trade(&losing_trade(3), -2, NOW);
    assert_eq!(engine.metrics.consecutive_losses, 2);
    assert_eq!(engine.metrics.daily_trades, 3);
    assert_eq!(engine.metrics.daily_volume, 3 * DOLLAR);
    engine.update_consecutive_losses(NOW + 2 * 86400);
    assert_eq!(engine.metrics.consecutive_losses, 0);
    assert!(engine.recent_trades.is_empty());
}

#[test]
fn contract_violation_values_and_summary() {
    let engine = RiskEngine::new(RiskLimits::default(), 100000 * DOLLAR, NOW);
    let bad = engine.check_order_risk(&option_request(51), 100000 * DOLLAR, &Vec::new(), None, None, NOW);
    assert_eq!(bad.violations.len(), 1);
    assert_eq!(bad.violations[0].current_value, 51);
    assert_eq!(bad.violations[0].limit_value, 50);
    assert_eq!(bad.violations[0].message, "Contract quantity exceeds limit");
    let mut e = RiskEngine::new(RiskLimits::default(), 100000 * DOLLAR, NOW);
    e.update_after_trade(&losing_trade(1), -10001 * DOLLAR, NOW);
    assert_eq!(e.metrics.circuit_breaker_until, Some(NOW + 3600));
    assert_eq!(e.get_violations_summary(NOW), vec!["CIRCUIT BREAKER ACTIVE - Trading halted".to_string()]);
}
