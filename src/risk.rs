use vstd::prelude::*;
use crate::types::{
    OrderRequest, OrderSide, OrderType, InstrumentType, MarketData, Position, Trade,
    unique_symbols, held_qty, find_position, lemma_position_index, signed_qty, abs, MAX_QTY,
    MAX_PRICE, PPM,
};
use crate::mtm::PortfolioGreeks;

verus! {

/// Price assumed for sizing when nothing better is known ($100).
pub const FALLBACK_PRICE: i64 = 100000000;

/// Largest magnitude of a money limit or of accumulated daily volume.
pub const MAX_LIMIT: i128 = 1267650600228229401496703205376;

/// Largest magnitude of the equity that a risk check is given.
pub const MAX_EQUITY: i128 = 5070602400912917605986812821504;

/// Largest absolute position value a check can meet: twice the largest
/// quantity at the largest representable price.
pub const MAX_EXPOSURE: i128 = 20282409603651670423947251286016;

/// Seconds of history kept for consecutive-loss tracking.
pub const LOSS_WINDOW_SECS: i64 = 86400;

/// Risk policy. Money is in fixed-point units, fractions in parts per million,
/// option sensitivities in millionths.
#[derive(Debug, Clone)]
pub struct RiskLimits {
    pub max_daily_loss: i128,
    pub max_daily_trades: i32,
    pub max_daily_volume: i128,
    pub max_trade_size: i128,
    pub max_position_size: i128,
    pub max_portfolio_concentration: i64,
    pub max_option_delta: i64,
    pub max_option_gamma: i64,
    pub max_option_vega: i64,
    pub max_contracts_per_trade: i64,
    pub circuit_breaker_loss_pct: i64,
    pub circuit_breaker_duration_minutes: i64,
    pub max_consecutive_losses: i32,
}

impl RiskLimits {
    pub open spec fn wf(&self) -> bool {
        &&& 0 <= self.max_daily_loss <= MAX_LIMIT
        &&& 0 <= self.max_daily_volume <= MAX_LIMIT
        &&& 0 <= self.max_trade_size <= MAX_LIMIT
        &&& 0 <= self.max_position_size <= MAX_LIMIT
        &&& 0 <= self.max_portfolio_concentration <= 16 * PPM
        &&& 0 <= self.circuit_breaker_loss_pct <= PPM
        &&& 0 <= self.circuit_breaker_duration_minutes <= 1000000000
    }

    pub fn is_valid(&self) -> (r: bool)
        ensures
            r == self.wf(),
    {
        0 <= self.max_daily_loss && self.max_daily_loss <= MAX_LIMIT && 0 <= self.max_daily_volume
            && self.max_daily_volume <= MAX_LIMIT && 0 <= self.max_trade_size
            && self.max_trade_size <= MAX_LIMIT && 0 <= self.max_position_size
            && self.max_position_size <= MAX_LIMIT && 0 <= self.max_portfolio_concentration
            && self.max_portfolio_concentration <= 16 * PPM && 0 <= self.circuit_breaker_loss_pct
            && self.circuit_breaker_loss_pct <= PPM && 0 <= self.circuit_breaker_duration_minutes
            && self.circuit_breaker_duration_minutes <= 1000000000
    }

    /// Limits for a $100k account: $5k daily loss, 50 trades and $50k volume a
    /// day, $10k a trade, $20k a position, 25% concentration; option caps of
    /// 500 delta, 100 gamma, 1000 vega and 50 contracts; a one-hour breaker at a
    /// 10% loss; five consecutive losses.
    pub open spec fn default_spec() -> RiskLimits {
        RiskLimits {
            max_daily_loss: 5000000000,
            max_daily_trades: 50,
            max_daily_volume: 50000000000,
            max_trade_size: 10000000000,
            max_position_size: 20000000000,
            max_portfolio_concentration: 250000,
            max_option_delta: 500000000,
            max_option_gamma: 100000000,
            max_option_vega: 1000000000,
            max_contracts_per_trade: 50,
            circuit_breaker_loss_pct: 100000,
            circuit_breaker_duration_minutes: 60,
            max_consecutive_losses: 5,
        }
    }

    /// The default policy (see `default_spec`).
    pub fn default() -> (r: RiskLimits)
        ensures
            r.wf(),
            r == RiskLimits::default_spec(),
    {
        RiskLimits {
            max_daily_loss: 5000000000,
            max_daily_trades: 50,
            max_daily_volume: 50000000000,
            max_trade_size: 10000000000,
            max_position_size: 20000000000,
            max_portfolio_concentration: 250000,
            max_option_delta: 500000000,
            max_option_gamma: 100000000,
            max_option_vega: 1000000000,
            max_contracts_per_trade: 50,
            circuit_breaker_loss_pct: 100000,
            circuit_breaker_duration_minutes: 60,
            max_consecutive_losses: 5,
        }
    }
}

/// Rolling risk state.
#[derive(Debug, Clone, Copy)]
pub struct RiskMetrics {
    pub daily_pnl: i128,
    pub daily_trades: i32,
    pub daily_volume: i128,
    pub consecutive_losses: i32,
    pub largest_position_pct: i64,
    pub portfolio_delta: i64,
    pub portfolio_gamma: i64,
    pub portfolio_vega: i64,
    pub circuit_breaker_active: bool,
    pub circuit_breaker_until: Option<i64>,
    pub last_updated: i64,
}

#[derive(Debug, Clone, Copy, PartialEq, Eq, Structural)]
pub enum RiskViolationType {
    DailyLossLimit,
    DailyTradeLimit,
    DailyVolumeLimit,
    TradeSizeLimit,
    PositionSizeLimit,
    ConcentrationLimit,
    DeltaLimit,
    GammaLimit,
    VegaLimit,
    ContractLimit,
    CircuitBreaker,
    ConsecutiveLossLimit,
}

#[derive(Debug, Clone, Copy, PartialEq, Eq, Structural)]
pub enum RiskSeverity {
    Warning,
    Error,
    Critical,
}

/// One breached (or nearly breached) limit. Values use the limit's own unit.
#[derive(Debug, Clone)]
pub struct RiskViolation {
    pub violation_type: RiskViolationType,
    pub message: String,
    pub current_value: i128,
    pub limit_value: i128,
    pub timestamp: i64,
    pub severity: RiskSeverity,
}

#[derive(Debug, Clone)]
pub struct RiskCheckResult {
    pub allowed: bool,
    pub violations: Vec<RiskViolation>,
    pub warnings: Vec<RiskViolation>,
}

/// Kind, current value and limit of each violation, in order.
pub open spec fn entries(vs: Seq<RiskViolation>) -> Seq<(RiskViolationType, int, int)> {
    vs.map_values(|v: RiskViolation| (v.violation_type, v.current_value as int, v.limit_value as int))
}

/// The message that goes with a breached limit.
pub open spec fn message_for(k: RiskViolationType) -> Seq<char> {
    match k {
        RiskViolationType::DailyLossLimit => "Daily loss exceeds limit"@,
        RiskViolationType::DailyTradeLimit => "Daily trade limit reached"@,
        RiskViolationType::DailyVolumeLimit => "Daily volume would exceed limit"@,
        RiskViolationType::TradeSizeLimit => "Trade size exceeds limit"@,
        RiskViolationType::PositionSizeLimit => "Position size would exceed limit"@,
        RiskViolationType::ConcentrationLimit => "Position concentration would exceed limit"@,
        RiskViolationType::DeltaLimit => "Portfolio delta exceeds limit"@,
        RiskViolationType::GammaLimit => "Portfolio gamma exceeds limit"@,
        RiskViolationType::VegaLimit => "Portfolio vega exceeds limit"@,
        RiskViolationType::ContractLimit => "Contract quantity exceeds limit"@,
        RiskViolationType::CircuitBreaker => "Trading halted due to circuit breaker"@,
        RiskViolationType::ConsecutiveLossLimit => "Consecutive losses reached limit"@,
    }
}

fn violation_message(k: RiskViolationType) -> (r: &'static str)
    ensures
        r@ == message_for(k),
{
    match k {
        RiskViolationType::DailyLossLimit => "Daily loss exceeds limit",
        RiskViolationType::DailyTradeLimit => "Daily trade limit reached",
        RiskViolationType::DailyVolumeLimit => "Daily volume would exceed limit",
        RiskViolationType::TradeSizeLimit => "Trade size exceeds limit",
        RiskViolationType::PositionSizeLimit => "Position size would exceed limit",
        RiskViolationType::ConcentrationLimit => "Position concentration would exceed limit",
        RiskViolationType::DeltaLimit => "Portfolio delta exceeds limit",
        RiskViolationType::GammaLimit => "Portfolio gamma exceeds limit",
        RiskViolationType::VegaLimit => "Portfolio vega exceeds limit",
        RiskViolationType::ContractLimit => "Contract quantity exceeds limit",
        RiskViolationType::CircuitBreaker => "Trading halted due to circuit breaker",
        RiskViolationType::ConsecutiveLossLimit => "Consecutive losses reached limit",
    }
}

/// Every violation carries its kind's message, `severity` and the time `now`.
pub open spec fn labelled(vs: Seq<RiskViolation>, severity: RiskSeverity, now: int) -> bool {
    forall|i: int|
        0 <= i < vs.len() ==> (#[trigger] vs[i]).severity == severity && vs[i].message@ == message_for(
            vs[i].violation_type,
        ) && vs[i].timestamp == now
}

/// Concentration reported for a position value: its share of positive equity
/// in parts per million (rounded down), else the value itself.
pub open spec fn concentration_value(value: int, equity: int) -> int {
    if equity > 0 { value * PPM / equity } else { value }
}


/// Price used to size an order: a market order takes the ask (buy) or the bid
/// (sell), else the last price, else the fallback; a limit order its price; a
/// stop or stop-limit order its stop price.
pub open spec fn estimated_price(
    order_type: OrderType,
    side: OrderSide,
    price: Option<i64>,
    stop_price: Option<i64>,
    quote: Option<MarketData>,
) -> int {
    match order_type {
        OrderType::Market => match quote {
            Some(q) => match side {
                OrderSide::Buy => match q.ask {
                    Some(a) => a as int,
                    None => q.last_price as int,
                },
                OrderSide::Sell => match q.bid {
                    Some(b) => b as int,
                    None => q.last_price as int,
                },
            },
            None => FALLBACK_PRICE as int,
        },
        OrderType::Limit => match price {
            Some(p) => p as int,
            None => FALLBACK_PRICE as int,
        },
        _ => match stop_price {
            Some(s) => s as int,
            None => FALLBACK_PRICE as int,
        },
    }
}

pub fn estimate_price(order: &OrderRequest, quote: Option<&MarketData>) -> (r: i64)
    ensures
        r == estimated_price(
            order.order_type,
            order.side,
            order.price,
            order.stop_price,
            match quote {
                Some(q) => Some(*q),
                None => None,
            },
        ),
{
    match order.order_type {
        OrderType::Market => match quote {
            Some(q) => match order.side {
                OrderSide::Buy => match q.ask {
                    Some(a) => a,
                    None => q.last_price,
                },
                OrderSide::Sell => match q.bid {
                    Some(b) => b,
                    None => q.last_price,
                },
            },
            None => FALLBACK_PRICE,
        },
        OrderType::Limit => match order.price {
            Some(p) => p,
            None => FALLBACK_PRICE,
        },
        _ => match order.stop_price {
            Some(s) => s,
            None => FALLBACK_PRICE,
        },
    }
}

/// Whether a position of absolute value `value` is too large a share of
/// `equity`; with no equity any exposure is, with negative equity none is.
pub open spec fn concentration_exceeds(value: int, equity: int, limit_ppm: int) -> bool {
    if equity > 0 {
        value * PPM > limit_ppm * equity
    } else {
        equity == 0 && value > 0
    }
}

pub open spec fn breaker_active(m: RiskMetrics, now: int) -> bool {
    m.circuit_breaker_active && match m.circuit_breaker_until {
        Some(until) => now < until,
        None => false,
    }
}

pub open spec fn one_if<A>(c: bool, k: A) -> Seq<A> {
    if c {
        seq![k]
    } else {
        Seq::empty()
    }
}

/// The violations a pre-trade check reports, in order, each as its kind,
/// current value and limit.
pub open spec fn risk_violations(
    limits: RiskLimits,
    metrics: RiskMetrics,
    now: int,
    order: OrderRequest,
    equity: int,
    held: int,
    greeks: Option<PortfolioGreeks>,
    est: int,
) -> Seq<(RiskViolationType, int, int)> {
    if breaker_active(metrics, now) {
        seq![(RiskViolationType::CircuitBreaker, 0int, 0int)]
    } else {
        let tv = est * order.quantity;
        let npv = abs((held + signed_qty(order.side, order.quantity as int)) * est);
        sizing_violations(limits, metrics, tv, npv, equity) + other_violations(limits, metrics, order, greeks)
    }
}

/// Trade size, daily trade count, daily volume, position size and
/// concentration violations, in that order.
pub open spec fn sizing_violations(limits: RiskLimits, metrics: RiskMetrics, tv: int, npv: int, equity: int) -> Seq<(RiskViolationType, int, int)> {
        one_if(tv > limits.max_trade_size, (RiskViolationType::TradeSizeLimit, tv, limits.max_trade_size as int))
            + one_if(
                metrics.daily_trades >= limits.max_daily_trades,
                (RiskViolationType::DailyTradeLimit, metrics.daily_trades as int, limits.max_daily_trades as int),
            )
            + one_if(
                metrics.daily_volume + tv > limits.max_daily_volume,
                (RiskViolationType::DailyVolumeLimit, metrics.daily_volume + tv, limits.max_daily_volume as int),
            )
            + one_if(
                npv > limits.max_position_size,
                (RiskViolationType::PositionSizeLimit, npv, limits.max_position_size as int),
            )
            + one_if(
                concentration_exceeds(npv, equity, limits.max_portfolio_concentration as int),
                (
                    RiskViolationType::ConcentrationLimit,
                    concentration_value(npv, equity),
                    limits.max_portfolio_concentration as int,
                ),
            )
}

/// Option contract and sensitivity, daily loss and loss-streak violations,
/// in that order.
pub open spec fn other_violations(
    limits: RiskLimits,
    metrics: RiskMetrics,
    order: OrderRequest,
    greeks: Option<PortfolioGreeks>,
) -> Seq<(RiskViolationType, int, int)> {
    option_violations(limits, metrics, order, greeks) + loss_violations(limits, metrics)
}

/// Option contract and sensitivity violations, in that order.
pub open spec fn option_violations(
    limits: RiskLimits,
    metrics: RiskMetrics,
    order: OrderRequest,
    greeks: Option<PortfolioGreeks>,
) -> Seq<(RiskViolationType, int, int)> {
    let is_opt = order.instrument_type == InstrumentType::Option;
    let has_g = greeks is Some;
    let (d, g, v) = if has_g {
        (abs(greeks->0.delta as int), abs(greeks->0.gamma as int), abs(greeks->0.vega as int))
    } else {
        (0int, 0int, 0int)
    };
    one_if(
                is_opt && order.quantity > limits.max_contracts_per_trade,
                (RiskViolationType::ContractLimit, order.quantity as int, limits.max_contracts_per_trade as int),
            )
            + one_if(
                is_opt && has_g && d > limits.max_option_delta,
                (RiskViolationType::DeltaLimit, d, limits.max_option_delta as int),
            )
            + one_if(
                is_opt && has_g && g > limits.max_option_gamma,
                (RiskViolationType::GammaLimit, g, limits.max_option_gamma as int),
            )
            + one_if(
                is_opt && has_g && v > limits.max_option_vega,
                (RiskViolationType::VegaLimit, v, limits.max_option_vega as int),
            )
}

/// Daily loss and loss-streak violations, in that order.
pub open spec fn loss_violations(limits: RiskLimits, metrics: RiskMetrics) -> Seq<(RiskViolationType, int, int)> {
    one_if(
                metrics.daily_pnl < -limits.max_daily_loss,
                (RiskViolationType::DailyLossLimit, -metrics.daily_pnl, limits.max_daily_loss as int),
            )
            + one_if(
                metrics.consecutive_losses >= limits.max_consecutive_losses,
                (
                    RiskViolationType::ConsecutiveLossLimit,
                    metrics.consecutive_losses as int,
                    limits.max_consecutive_losses as int,
                ),
            )
}

/// Whether the trade-size warning (80% of the limit) fires.
pub open spec fn size_warning(limits: RiskLimits, metrics: RiskMetrics, now: int, tv: int) -> bool {
    !breaker_active(metrics, now) && tv * 10 > limits.max_trade_size * 8
}

/// Length of the longest run of losses at the end of `pnls`.
pub open spec fn loss_streak(pnls: Seq<(i64, i128)>) -> nat
    decreases pnls.len(),
{
    if pnls.len() == 0 {
        0
    } else if pnls.last().1 < 0 {
        1 + loss_streak(pnls.drop_last())
    } else {
        0
    }
}

/// Pre-trade guard and post-trade meter.
#[derive(Debug, Clone)]
pub struct RiskEngine {
    pub limits: RiskLimits,
    pub metrics: RiskMetrics,
    pub daily_trades: Vec<String>,
    pub recent_trades: Vec<(i64, i128)>,
    pub reference_equity: i128,
}

fn violation(
    kind: RiskViolationType,
    current: i128,
    limit: i128,
    now: i64,
) -> (r: RiskViolation)
    ensures
        r.violation_type == kind,
        r.message@ == message_for(kind),
        r.current_value == current,
        r.limit_value == limit,
        r.timestamp == now,
        r.severity == RiskSeverity::Error,
{
    RiskViolation {
        violation_type: kind,
        message: violation_message(kind).to_owned(),
        current_value: current,
        limit_value: limit,
        timestamp: now,
        severity: RiskSeverity::Error,
    }
}

fn abs_i64(x: i64) -> (r: i128)
    ensures
        r == abs(x as int),
{
    if x < 0 { -(x as i128) } else { x as i128 }
}

/// Absolute value of the position after the order, at the estimated price.
fn projected_position_value(held: i64, side: OrderSide, qty: i64, est: i64) -> (r: i128)
    requires
        -MAX_QTY <= held <= MAX_QTY,
        0 < qty <= MAX_QTY,
    ensures
        r == abs((held + signed_qty(side, qty as int)) * est),
        0 <= r <= MAX_EXPOSURE,
{
    let signed: i128 = match side {
        OrderSide::Buy => qty as i128,
        OrderSide::Sell => -(qty as i128),
    };
    let new_qty: i128 = (held as i128) + signed;
    proof {
        crate::types::lemma_mul_bounded(new_qty as int, est as int, 2 * MAX_QTY, 0x8000_0000_0000_0000);
    }
    let v: i128 = new_qty * (est as i128);
    if v < 0 { -v } else { v }
}

fn exceeds_concentration(npv: i128, equity: i128, limit_ppm: i64) -> (r: bool)
    requires
        0 <= npv <= MAX_EXPOSURE,
        -MAX_EQUITY <= equity <= MAX_EQUITY,
        0 <= limit_ppm <= 16 * PPM,
    ensures
        r == concentration_exceeds(npv as int, equity as int, limit_ppm as int),
{
    proof {
        crate::types::lemma_mul_bounded(npv as int, PPM as int, MAX_EXPOSURE as int, PPM as int);
        crate::types::lemma_mul_bounded(limit_ppm as int, equity as int, 16 * PPM, MAX_EQUITY as int);
    }
    if equity > 0 {
        npv * (PPM as i128) > (limit_ppm as i128) * equity
    } else {
        equity == 0 && npv > 0
    }
}

/// Appends a violation of `kind` when `cond` holds.
fn push_if(
    vs: &mut Vec<RiskViolation>,
    cond: bool,
    kind: RiskViolationType,
    current: i128,
    limit: i128,
    now: i64,
)
    requires
        labelled(old(vs)@, RiskSeverity::Error, now as int),
    ensures
        entries(final(vs)@) == entries(old(vs)@) + one_if(cond, (kind, current as int, limit as int)),
        labelled(final(vs)@, RiskSeverity::Error, now as int),
{
    let ghost before = vs@;
    if cond {
        vs.push(violation(kind, current, limit, now));
        assert(vs@[vs@.len() - 1].violation_type == kind);
        assert forall|i: int| 0 <= i < vs@.len() implies (#[trigger] vs@[i]).severity == RiskSeverity::Error
            && vs@[i].message@ == message_for(vs@[i].violation_type) && vs@[i].timestamp == now as int by {
            if i < before.len() {
                assert(vs@[i] == before[i]);
            }
        }
    }
    assert(entries(vs@) =~= entries(before) + one_if(cond, (kind, current as int, limit as int)));
}

/// Appends the sizing violations (see `sizing_violations`).
fn push_sizing(
    violations: &mut Vec<RiskViolation>,
    lim: &RiskLimits,
    met: &RiskMetrics,
    trade_value: i128,
    npv: i128,
    portfolio_equity: i128,
    now: i64,
)
    requires
        labelled(old(violations)@, RiskSeverity::Error, now as int),
        lim.wf(),
        0 <= met.daily_volume <= MAX_LIMIT,
        -0x8000_0000_0000_0000_0000_0000_0000 <= trade_value <= 0x8000_0000_0000_0000_0000_0000_0000,
        0 <= npv <= MAX_EXPOSURE,
        -MAX_EQUITY <= portfolio_equity <= MAX_EQUITY,
    ensures
        entries(final(violations)@) == entries(old(violations)@) + sizing_violations(
            *lim,
            *met,
            trade_value as int,
            npv as int,
            portfolio_equity as int,
        ),
        labelled(final(violations)@, RiskSeverity::Error, now as int),
{
    let ghost start = entries(violations@);
    push_if(violations, trade_value > lim.max_trade_size, RiskViolationType::TradeSizeLimit,
        trade_value, lim.max_trade_size, now);
    push_if(violations, met.daily_trades >= lim.max_daily_trades, RiskViolationType::DailyTradeLimit,
        met.daily_trades as i128, lim.max_daily_trades as i128, now);
    let vol_exceeds = trade_value > lim.max_daily_volume - met.daily_volume;
    let projected: i128 = met.daily_volume + trade_value;
    push_if(violations, vol_exceeds, RiskViolationType::DailyVolumeLimit,
        projected, lim.max_daily_volume, now);
    push_if(violations, npv > lim.max_position_size, RiskViolationType::PositionSizeLimit,
        npv, lim.max_position_size, now);
    let exceeds = exceeds_concentration(npv, portfolio_equity, lim.max_portfolio_concentration);
    let share: i128 = if portfolio_equity > 0 {
        proof {
            crate::types::lemma_mul_bounded(npv as int, PPM as int, MAX_EXPOSURE as int, PPM as int);
        }
        ((npv as u128 * PPM as u128) / (portfolio_equity as u128)) as i128
    } else {
        npv
    };
    push_if(violations, exceeds, RiskViolationType::ConcentrationLimit,
        share, lim.max_portfolio_concentration as i128, now);
    assert(entries(violations@) =~= start + sizing_violations(*lim, *met, trade_value as int, npv as int, portfolio_equity as int));
}

/// Appends the remaining violations (see `other_violations`).
fn push_other(
    violations: &mut Vec<RiskViolation>,
    lim: &RiskLimits,
    met: &RiskMetrics,
    order: &OrderRequest,
    portfolio_greeks: Option<&PortfolioGreeks>,
    now: i64,
)
    requires
        labelled(old(violations)@, RiskSeverity::Error, now as int),
        lim.wf(),
        -2 * MAX_EQUITY <= met.daily_pnl <= 2 * MAX_EQUITY,
    ensures
        entries(final(violations)@) == entries(old(violations)@) + other_violations(
            *lim,
            *met,
            *order,
            match portfolio_greeks {
                Some(g) => Some(*g),
                None => None,
            },
        ),
        labelled(final(violations)@, RiskSeverity::Error, now as int),
{
    let ghost start = entries(violations@);
    let qty = order.quantity;
    let is_opt = match order.instrument_type {
        InstrumentType::Option => true,
        InstrumentType::Stock => false,
    };
    push_if(violations, is_opt && qty > lim.max_contracts_per_trade, RiskViolationType::ContractLimit,
        qty as i128, lim.max_contracts_per_trade as i128, now);
    let (d, gm, v): (i128, i128, i128) = match portfolio_greeks {
        Some(gr) => (abs_i64(gr.delta), abs_i64(gr.gamma), abs_i64(gr.vega)),
        None => (0, 0, 0),
    };
    let has_g = portfolio_greeks.is_some();
    push_if(violations, is_opt && has_g && d > lim.max_option_delta as i128, RiskViolationType::DeltaLimit,
        d, lim.max_option_delta as i128, now);
    push_if(violations, is_opt && has_g && gm > lim.max_option_gamma as i128, RiskViolationType::GammaLimit,
        gm, lim.max_option_gamma as i128, now);
    push_if(violations, is_opt && has_g && v > lim.max_option_vega as i128, RiskViolationType::VegaLimit,
        v, lim.max_option_vega as i128, now);
    assert(entries(violations@) =~= start + option_violations(*lim, *met, *order, match portfolio_greeks {
        Some(g) => Some(*g),
        None => None,
    }));
    push_losses(violations, lim, met, now);
}

/// Appends the loss violations (see `loss_violations`).
fn push_losses(violations: &mut Vec<RiskViolation>, lim: &RiskLimits, met: &RiskMetrics, now: i64)
    requires
        labelled(old(violations)@, RiskSeverity::Error, now as int),
        lim.wf(),
        -2 * MAX_EQUITY <= met.daily_pnl <= 2 * MAX_EQUITY,
    ensures
        entries(final(violations)@) == entries(old(violations)@) + loss_violations(*lim, *met),
        labelled(final(violations)@, RiskSeverity::Error, now as int),
{
    let ghost start = entries(violations@);
    push_if(violations, met.daily_pnl < -lim.max_daily_loss, RiskViolationType::DailyLossLimit,
        -met.daily_pnl, lim.max_daily_loss, now);
    push_if(violations, met.consecutive_losses >= lim.max_consecutive_losses, RiskViolationType::ConsecutiveLossLimit,
        met.consecutive_losses as i128, lim.max_consecutive_losses as i128, now);
    assert(entries(violations@) =~= start + loss_violations(*lim, *met));
}

impl RiskEngine {
    pub open spec fn wf(&self) -> bool {
        &&& self.limits.wf()
        &&& 0 <= self.metrics.daily_volume <= MAX_LIMIT
        &&& self.metrics.daily_trades >= 0
        &&& -2 * MAX_EQUITY <= self.metrics.daily_pnl <= 2 * MAX_EQUITY
        &&& 0 <= self.reference_equity <= MAX_EQUITY
    }

    /// A fresh engine: no trades, no losses, breaker off. `reference_equity`
    /// is the day-start equity that the breaker's loss is measured against.
    pub fn new(limits: RiskLimits, reference_equity: i128, now: i64) -> (r: RiskEngine)
        requires
            limits.wf(),
            0 <= reference_equity <= MAX_EQUITY,
        ensures
            r.wf(),
            r.limits == limits,
            r.reference_equity == reference_equity,
            r.metrics.daily_pnl == 0,
            r.metrics.daily_trades == 0,
            r.metrics.daily_volume == 0,
            r.metrics.consecutive_losses == 0,
            !r.metrics.circuit_breaker_active,
            r.metrics.circuit_breaker_until is None,
            r.metrics.last_updated == now,
            r.recent_trades@.len() == 0,
    {
        RiskEngine {
            limits,
            metrics: RiskMetrics {
                daily_pnl: 0,
                daily_trades: 0,
                daily_volume: 0,
                consecutive_losses: 0,
                largest_position_pct: 0,
                portfolio_delta: 0,
                portfolio_gamma: 0,
                portfolio_vega: 0,
                circuit_breaker_active: false,
                circuit_breaker_until: None,
                last_updated: now,
            },
            daily_trades: Vec::new(),
            recent_trades: Vec::new(),
            reference_equity,
        }
    }

    /// Whether the breaker holds trading at `now`.
    pub fn is_circuit_breaker_active(&self, now: i64) -> (r: bool)
        ensures
            r == breaker_active(self.metrics, now as int),
    {
        if !self.metrics.circuit_breaker_active {
            return false;
        }
        match self.metrics.circuit_breaker_until {
            Some(until) => now < until,
            None => false,
        }
    }

    /// Pre-trade check. It reads only its arguments and the engine's own state
    /// (`&self`): the violations are exactly `risk_violations`, in that order,
    /// and the order is allowed iff there are none. A trade-size warning comes
    /// at 80% of the limit.
    #[verifier::rlimit(100)]
    pub fn check_order_risk(
        &self,
        order: &OrderRequest,
        portfolio_equity: i128,
        positions: &Vec<Position>,
        portfolio_greeks: Option<&PortfolioGreeks>,
        quote: Option<&MarketData>,
        now: i64,
    ) -> (r: RiskCheckResult)
        requires
            self.wf(),
            0 < order.quantity <= MAX_QTY,
            -MAX_EQUITY <= portfolio_equity <= MAX_EQUITY,
            unique_symbols(positions@),
            forall|i: int| 0 <= i < positions@.len() ==> (#[trigger] positions@[i]).wf(),
        ensures
            ({
                let est = estimated_price(
                    order.order_type,
                    order.side,
                    order.price,
                    order.stop_price,
                    match quote {
                        Some(q) => Some(*q),
                        None => None,
                    },
                );
                let g = match portfolio_greeks {
                    Some(g) => Some(*g),
                    None => None,
                };
                &&& entries(r.violations@) == risk_violations(
                    self.limits,
                    self.metrics,
                    now as int,
                    *order,
                    portfolio_equity as int,
                    held_qty(positions@, order.symbol@),
                    g,
                    est,
                )
                &&& r.allowed == (r.violations@.len() == 0)
                &&& entries(r.warnings@) == one_if(
                    size_warning(self.limits, self.metrics, now as int, est * order.quantity),
                    (RiskViolationType::TradeSizeLimit, est * order.quantity, self.limits.max_trade_size as int),
                )
                &&& forall|i: int| 0 <= i < r.warnings@.len() ==> (#[trigger] r.warnings@[i]).severity == RiskSeverity::Warning
                    && r.warnings@[i].message@ == "Trade size approaching limit"@ && r.warnings@[i].timestamp == now
                &&& (breaker_active(self.metrics, now as int) ==> labelled(r.violations@, RiskSeverity::Critical, now as int))
                &&& (!breaker_active(self.metrics, now as int) ==> labelled(r.violations@, RiskSeverity::Error, now as int))
            }),
    {
        let ghost g = match portfolio_greeks {
            Some(g) => Some(*g),
            None => None,
        };
        let mut violations: Vec<RiskViolation> = Vec::new();
        let mut warnings: Vec<RiskViolation> = Vec::new();
        if self.is_circuit_breaker_active(now) {
            let mut halt = violation(RiskViolationType::CircuitBreaker, 0, 0, now);
            halt.severity = RiskSeverity::Critical;
            violations.push(halt);
            proof {
                assert(entries(violations@) =~= seq![(RiskViolationType::CircuitBreaker, 0int, 0int)]);
                assert(entries(warnings@) =~= Seq::<(RiskViolationType, int, int)>::empty());
                assert(violations@[0] == halt);
            }
            return RiskCheckResult { allowed: false, violations, warnings };
        }
        let est = estimate_price(order, quote);
        let qty = order.quantity;
        proof {
            crate::types::lemma_mul_bounded(est as int, qty as int, 0x8000_0000_0000_0000, MAX_QTY as int);
        }
        let trade_value: i128 = (est as i128) * (qty as i128);
        let held: i64 = match find_position(positions, &order.symbol) {
            Some(k) => {
                proof {
                    lemma_position_index(positions@, order.symbol@, k as int);
                }
                positions[k].quantity
            },
            None => 0,
        };
        let npv = projected_position_value(held, order.side, qty, est);
        push_sizing(&mut violations, &self.limits, &self.metrics, trade_value, npv, portfolio_equity, now);
        push_other(&mut violations, &self.limits, &self.metrics, order, portfolio_greeks, now);
        let ghost expected = risk_violations(
            self.limits,
            self.metrics,
            now as int,
            *order,
            portfolio_equity as int,
            held_qty(positions@, order.symbol@),
            g,
            est as int,
        );
        assert(entries(violations@) =~= expected);
        proof {
            crate::types::lemma_mul_bounded(trade_value as int, 10, 0x1_0000_0000_0000_0000_0000_0000_0000, 10);
        }
        if trade_value * 10 > self.limits.max_trade_size * 8 {
            let mut w = violation(RiskViolationType::TradeSizeLimit, trade_value, self.limits.max_trade_size, now);
            w.severity = RiskSeverity::Warning;
            w.message = "Trade size approaching limit".to_owned();
            warnings.push(w);
        }
        assert(entries(warnings@) =~= one_if(trade_value * 10 > self.limits.max_trade_size * 8, (RiskViolationType::TradeSizeLimit, trade_value as int, self.limits.max_trade_size as int)));
        let allowed = violations.len() == 0;
        RiskCheckResult { allowed, violations, warnings }
    }
}

/// Whether a `(timestamp, pnl)` record lies within a day before `now`.
pub open spec fn in_window(now: int) -> spec_fn((i64, i128)) -> bool {
    |t: (i64, i128)| t.0 > now - LOSS_WINDOW_SECS
}

/// The lines of the blocking-limits summary, in order.
pub open spec fn summary_lines(limits: RiskLimits, metrics: RiskMetrics, now: int) -> Seq<Seq<char>> {
    one_if(breaker_active(metrics, now), "CIRCUIT BREAKER ACTIVE - Trading halted"@) + one_if(
        metrics.daily_pnl < -limits.max_daily_loss,
        "Daily loss limit breached"@,
    ) + one_if(metrics.daily_trades >= limits.max_daily_trades, "Daily trade limit reached"@) + one_if(
        metrics.consecutive_losses >= limits.max_consecutive_losses,
        "Consecutive loss limit reached"@,
    )
}

/// UTC day number of a Unix timestamp.
pub open spec fn utc_day(ts: int) -> int {
    ts / 86400
}

impl RiskEngine {
    pub fn default(now: i64) -> (r: RiskEngine)
        ensures
            r.wf(),
            r.reference_equity == 100000000000,
    {
        RiskEngine::new(RiskLimits::default(), 100000000000, now)
    }

    /// Arms the breaker until `now` plus the configured duration.
    pub fn trigger_circuit_breaker(&mut self, now: i64)
        requires
            old(self).wf(),
        ensures
            final(self).wf(),
            final(self).metrics.circuit_breaker_active,
            final(self).metrics.circuit_breaker_until == Some(
                if now as int + old(self).limits.circuit_breaker_duration_minutes * 60 > i64::MAX {
                    i64::MAX
                } else {
                    (now as int + old(self).limits.circuit_breaker_duration_minutes * 60) as i64
                },
            ),
            final(self).limits == old(self).limits,
            final(self).reference_equity == old(self).reference_equity,
            final(self).recent_trades == old(self).recent_trades,
            final(self).metrics.daily_trades == old(self).metrics.daily_trades,
            final(self).metrics.daily_volume == old(self).metrics.daily_volume,
            final(self).metrics.daily_pnl == old(self).metrics.daily_pnl,
            final(self).metrics.consecutive_losses == old(self).metrics.consecutive_losses,
            final(self).metrics.last_updated == old(self).metrics.last_updated,
    {
        let span: i64 = self.limits.circuit_breaker_duration_minutes * 60;
        let until: i64 = if now > i64::MAX - span { i64::MAX } else { now + span };
        self.metrics.circuit_breaker_active = true;
        self.metrics.circuit_breaker_until = Some(until);
    }

    /// Drops trades older than a day before `now` and counts the losses at
    /// the end of what remains.
    pub fn update_consecutive_losses(&mut self, now: i64)
        requires
            old(self).wf(),
        ensures
            final(self).wf(),
            final(self).recent_trades@ == old(self).recent_trades@.filter(in_window(now as int)),
            final(self).metrics.consecutive_losses == (if loss_streak(final(self).recent_trades@)
                > i32::MAX {
                i32::MAX as int
            } else {
                loss_streak(final(self).recent_trades@) as int
            }),
            final(self).limits == old(self).limits,
            final(self).reference_equity == old(self).reference_equity,
            final(self).metrics.daily_trades == old(self).metrics.daily_trades,
            final(self).metrics.daily_volume == old(self).metrics.daily_volume,
            final(self).metrics.daily_pnl == old(self).metrics.daily_pnl,
            final(self).metrics.circuit_breaker_active == old(self).metrics.circuit_breaker_active,
            final(self).metrics.circuit_breaker_until == old(self).metrics.circuit_breaker_until,
            final(self).metrics.last_updated == old(self).metrics.last_updated,
    {
        let cutoff: i128 = now as i128 - LOSS_WINDOW_SECS as i128;
        let ghost keep = in_window(now as int);
        let mut kept: Vec<(i64, i128)> = Vec::new();
        let mut i: usize = 0;
        while i < self.recent_trades.len()
            invariant
                i <= self.recent_trades@.len(),
                cutoff == now as int - LOSS_WINDOW_SECS,
                keep == in_window(now as int),
                kept@ == self.recent_trades@.subrange(0, i as int).filter(keep),
            decreases self.recent_trades@.len() - i,
        {
            let t = self.recent_trades[i];
            proof {
                let s = self.recent_trades@.subrange(0, i as int + 1);
                assert(s.drop_last() =~= self.recent_trades@.subrange(0, i as int));
                assert(s.last() == t);
                reveal(Seq::filter);
            }
            if (t.0 as i128) > cutoff {
                kept.push(t);
            }
            proof {
                let s = self.recent_trades@.subrange(0, i as int + 1);
                reveal(Seq::filter);
                assert(s.filter(keep) == (if keep(t) {
                    s.drop_last().filter(keep).push(t)
                } else {
                    s.drop_last().filter(keep)
                }));
            }
            i = i + 1;
        }
        assert(self.recent_trades@.subrange(0, self.recent_trades@.len() as int) =~= self.recent_trades@);
        let mut j: usize = kept.len();
        assert(kept@.subrange(0, j as int) =~= kept@);
        let mut stop = false;
        while j > 0 && !stop
            invariant
                j <= kept@.len(),
                stop ==> loss_streak(kept@.subrange(0, j as int)) == 0,
                loss_streak(kept@) == (kept@.len() - j) + loss_streak(kept@.subrange(0, j as int)),
            decreases j + (if stop { 0int } else { 1int }),
        {
            let ghost pre = kept@.subrange(0, j as int);
            assert(pre.drop_last() =~= kept@.subrange(0, j as int - 1));
            if kept[j - 1].1 < 0 {
                j = j - 1;
            } else {
                assert(loss_streak(pre) == 0);
                stop = true;
            }
        }
        proof {
            if j == 0 {
                assert(kept@.subrange(0, 0) =~= Seq::<(i64, i128)>::empty());
            }
        }
        let run: usize = kept.len() - j;
        let count: i32 = if run > i32::MAX as usize { i32::MAX } else { run as i32 };
        self.recent_trades = kept;
        self.metrics.consecutive_losses = count;
    }
}

/// UTC day number of a timestamp, rounding towards negative infinity.
pub fn utc_day_of(ts: i64) -> (r: i64)
    ensures
        r == utc_day(ts as int),
{
    if ts >= 0 {
        ((ts as u64) / 86400) as i64
    } else {
        let back: u64 = ((-(ts as i128)) - 1) as u64;
        -((back / 86400) as i64) - 1
    }
}

/// Whether a cumulative P&L is a larger loss than the breaker tolerates.
pub open spec fn breaker_trips(pnl: int, reference_equity: int, loss_ppm: int) -> bool {
    reference_equity > 0 && pnl * PPM < -(loss_ppm * reference_equity)
}

impl RiskEngine {
    /// Clears the daily counters and the breaker.
    pub fn reset_daily_counters(&mut self)
        requires
            old(self).wf(),
        ensures
            final(self).wf(),
            final(self).metrics == (RiskMetrics {
                daily_trades: 0,
                daily_volume: 0,
                circuit_breaker_active: false,
                circuit_breaker_until: None,
                ..old(self).metrics
            }),
            final(self).daily_trades@.len() == 0,
            final(self).limits == old(self).limits,
            final(self).reference_equity == old(self).reference_equity,
            final(self).recent_trades == old(self).recent_trades,
    {
        self.metrics.daily_trades = 0;
        self.metrics.daily_volume = 0;
        self.daily_trades = Vec::new();
        self.metrics.circuit_breaker_active = false;
        self.metrics.circuit_breaker_until = None;
    }

    /// Meters a trade: one more trade today, its absolute net amount added to
    /// the day's volume (up to a ceiling), the cumulative P&L logged for loss
    /// tracking, and the breaker armed when that P&L is a loss beyond the
    /// configured share of the reference equity.
    pub fn update_after_trade(&mut self, trade: &Trade, cumulative_pnl: i128, now: i64)
        requires
            old(self).wf(),
            trade.wf(),
            -MAX_EQUITY <= cumulative_pnl <= MAX_EQUITY,
        ensures
            final(self).wf(),
            final(self).metrics.daily_trades == (if old(self).metrics.daily_trades < i32::MAX {
                old(self).metrics.daily_trades + 1
            } else {
                i32::MAX as int
            }),
            final(self).metrics.daily_volume == (if old(self).metrics.daily_volume + abs(trade.net_amount as int) > MAX_LIMIT {
                MAX_LIMIT as int
            } else {
                old(self).metrics.daily_volume + abs(trade.net_amount as int)
            }),
            final(self).recent_trades@ == old(self).recent_trades@.push((trade.timestamp, cumulative_pnl)).filter(in_window(now as int)),
            final(self).metrics.consecutive_losses == (if loss_streak(final(self).recent_trades@) > i32::MAX {
                i32::MAX as int
            } else {
                loss_streak(final(self).recent_trades@) as int
            }),
            breaker_trips(cumulative_pnl as int, old(self).reference_equity as int, old(self).limits.circuit_breaker_loss_pct as int)
                ==> final(self).metrics.circuit_breaker_active && final(self).metrics.circuit_breaker_until == Some(
                    if now as int + old(self).limits.circuit_breaker_duration_minutes * 60 > i64::MAX {
                        i64::MAX
                    } else {
                        (now as int + old(self).limits.circuit_breaker_duration_minutes * 60) as i64
                    },
                ),
            !breaker_trips(cumulative_pnl as int, old(self).reference_equity as int, old(self).limits.circuit_breaker_loss_pct as int)
                ==> final(self).metrics.circuit_breaker_active == old(self).metrics.circuit_breaker_active
                    && final(self).metrics.circuit_breaker_until == old(self).metrics.circuit_breaker_until,
            final(self).metrics.daily_pnl == old(self).metrics.daily_pnl,
            final(self).metrics.last_updated == now,
            final(self).limits == old(self).limits,
            final(self).reference_equity == old(self).reference_equity,
    {
        if self.metrics.daily_trades < i32::MAX {
            self.metrics.daily_trades = self.metrics.daily_trades + 1;
        }
        let net = trade.net_amount;
        proof {
            crate::types::lemma_mul_bounded(trade.price as int, trade.quantity as int, MAX_PRICE as int, MAX_QTY as int);
        }
        let mag: i128 = if net < 0 { -net } else { net };
        if mag > MAX_LIMIT - self.metrics.daily_volume {
            self.metrics.daily_volume = MAX_LIMIT;
        } else {
            self.metrics.daily_volume = self.metrics.daily_volume + mag;
        }
        self.daily_trades.push(trade.id.clone());
        self.recent_trades.push((trade.timestamp, cumulative_pnl));
        self.update_consecutive_losses(now);
        proof {
            crate::types::lemma_mul_bounded(cumulative_pnl as int, PPM as int, MAX_EQUITY as int, PPM as int);
            crate::types::lemma_mul_bounded(self.limits.circuit_breaker_loss_pct as int, self.reference_equity as int, PPM as int, MAX_EQUITY as int);
        }
        if self.reference_equity > 0 && cumulative_pnl * (PPM as i128) < -((self.limits.circuit_breaker_loss_pct as i128) * self.reference_equity) {
            self.trigger_circuit_breaker(now);
        }
        self.metrics.last_updated = now;
    }

    /// Records the day's P&L and the portfolio sensitivities; on the first
    /// update of a new UTC day the daily counters and the breaker are reset.
    pub fn update_daily_metrics(&mut self, daily_pnl: i128, portfolio_greeks: Option<&PortfolioGreeks>, now: i64)
        requires
            old(self).wf(),
            -2 * MAX_EQUITY <= daily_pnl <= 2 * MAX_EQUITY,
        ensures
            final(self).wf(),
            final(self).metrics.daily_pnl == daily_pnl,
            final(self).metrics.last_updated == now,
            utc_day(now as int) != utc_day(old(self).metrics.last_updated as int) ==> {
                &&& final(self).metrics.daily_trades == 0
                &&& final(self).metrics.daily_volume == 0
                &&& !final(self).metrics.circuit_breaker_active
                &&& final(self).metrics.circuit_breaker_until is None
            },
            utc_day(now as int) == utc_day(old(self).metrics.last_updated as int) ==> {
                &&& final(self).metrics.daily_trades == old(self).metrics.daily_trades
                &&& final(self).metrics.daily_volume == old(self).metrics.daily_volume
                &&& final(self).metrics.circuit_breaker_active == old(self).metrics.circuit_breaker_active
                &&& final(self).metrics.circuit_breaker_until == old(self).metrics.circuit_breaker_until
            },
            match portfolio_greeks {
                Some(g) => final(self).metrics.portfolio_delta == g.delta
                    && final(self).metrics.portfolio_gamma == g.gamma
                    && final(self).metrics.portfolio_vega == g.vega,
                None => final(self).metrics.portfolio_delta == old(self).metrics.portfolio_delta,
            },
            final(self).limits == old(self).limits,
            final(self).reference_equity == old(self).reference_equity,
            final(self).recent_trades == old(self).recent_trades,
            final(self).metrics.consecutive_losses == old(self).metrics.consecutive_losses,
    {
        self.metrics.daily_pnl = daily_pnl;
        match portfolio_greeks {
            Some(g) => {
                self.metrics.portfolio_delta = g.delta;
                self.metrics.portfolio_gamma = g.gamma;
                self.metrics.portfolio_vega = g.vega;
            },
            None => {},
        }
        if utc_day_of(now) != utc_day_of(self.metrics.last_updated) {
            self.reset_daily_counters();
        }
        self.metrics.last_updated = now;
    }

    pub fn get_risk_status(&self) -> (r: RiskMetrics)
        ensures
            r == self.metrics,
    {
        self.metrics
    }

    /// One line for each limit that currently blocks trading.
    pub fn get_violations_summary(&self, now: i64) -> (r: Vec<String>)
        requires
            self.wf(),
        ensures
            r@.map_values(|l: String| l@) == summary_lines(self.limits, self.metrics, now as int),
    {
        let mut summary: Vec<String> = Vec::new();
        let c1 = self.is_circuit_breaker_active(now);
        if c1 {
            summary.push("CIRCUIT BREAKER ACTIVE - Trading halted".to_owned());
        }
        let ghost s1 = summary@.map_values(|l: String| l@);
        assert(s1 =~= one_if(c1, "CIRCUIT BREAKER ACTIVE - Trading halted"@));
        let c2 = self.metrics.daily_pnl < -self.limits.max_daily_loss;
        if c2 {
            summary.push("Daily loss limit breached".to_owned());
        }
        let ghost s2 = summary@.map_values(|l: String| l@);
        assert(s2 =~= s1 + one_if(c2, "Daily loss limit breached"@));
        let c3 = self.metrics.daily_trades >= self.limits.max_daily_trades;
        if c3 {
            summary.push("Daily trade limit reached".to_owned());
        }
        let ghost s3 = summary@.map_values(|l: String| l@);
        assert(s3 =~= s2 + one_if(c3, "Daily trade limit reached"@));
        let c4 = self.metrics.consecutive_losses >= self.limits.max_consecutive_losses;
        if c4 {
            summary.push("Consecutive loss limit reached".to_owned());
        }
        assert(summary@.map_values(|l: String| l@) =~= s3 + one_if(c4, "Consecutive loss limit reached"@));
        summary
    }
}

} // verus!
