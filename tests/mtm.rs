use paper_broker::mtm::{calculate_portfolio_values, get_mid_price, parse_option_symbol};
use paper_broker::types::{Fill, InstrumentType, MarketData, OptionType, OrderSide, Position};

fn quote(symbol: &str, last: i64, bid: Option<i64>, ask: Option<i64>) -> MarketData {
    MarketData { symbol: symbol.to_string(), last_price: last, bid, ask, bid_size: None, ask_size: None, volume: None, timestamp: 0 }
}

#[test]
fn parses_occ_symbols() {
    let d = parse_option_symbol("AAPL240315C00150000").unwrap();
    assert_eq!(d.underlying, "AAPL");
    assert_eq!(d.option_type, OptionType::Call);
    assert_eq!(d.strike, 150_000_000);
    assert_eq!(d.expiry, "03/15/2024");
    assert_eq!(d.multiplier, 100);
    let p = parse_option_symbol("SPY241220P00450500").unwrap();
    assert_eq!(p.option_type, OptionType::Put);
    assert_eq!(p.strike, 450_500_000);
    assert!(parse_option_symbol("AAPL").is_none());
    assert!(parse_option_symbol("CPCPCPCPCPCPCPCP").is_none());
    assert!(parse_option_symbol("240315C00150000").is_none());
    assert!(parse_option_symbol("AAPL240315X00150000").is_none());
}

#[test]
fn mid_price_rules() {
    assert_eq!(get_mid_price(&quote("A", 10, Some(8), Some(11))), 9);
    assert_eq!(get_mid_price(&quote("A", 10, Some(8), None)), 8);
    assert_eq!(get_mid_price(&quote("A", 10, None, Some(12))), 12);
    assert_eq!(get_mid_price(&quote("A", 10, None, None)), 10);
}

#[test]
fn values_split_stock_and_option() {
    let mut stock = Position::new("AAPL".to_string(), 0);
    let f = |sym: &str, qty: i64, price: i64| Fill {
        id: "f".to_string(), order_id: "o".to_string(), symbol: sym.to_string(), side: OrderSide::Buy,
        quantity: qty, price, timestamp: 0, commission: 0, instrument_type: InstrumentType::Stock,
        option_details: None, leg_number: None,
    };
    stock.apply_fill(&f("AAPL", 10, 100), 0);
    let mut opt = Position::new("AAPL240315C00150000".to_string(), 0);
    opt.apply_fill(&f("AAPL240315C00150000", 2, 50), 0);
    let quotes = vec![quote("AAPL", 110, Some(108), Some(112))];
    let v = calculate_portfolio_values(&vec![stock, opt], &quotes, 1000, 500);
    assert_eq!(v.stock_value, 1100);
    assert_eq!(v.option_value, 100);
    assert_eq!(v.unrealized_pnl, 100);
    assert_eq!(v.total_equity, 1700);
    assert_eq!(v.day_pnl, 700);
    assert_eq!(v.stock_delta, 10);
}
