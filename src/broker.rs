use vstd::prelude::*;
use rand::{Rng, SeedableRng};
use crate::types::{
    Order, OrderRequest, OrderSide, OrderStatus, OrderType, InstrumentType, TimeInForce, Fill,
    Position, Trade, MarketData, BrokerConfig, TradeExecution, Portfolio, ValidationError,
    has_position, position_index, unique_symbols, has_quote, unique_quotes, find_position,
    find_quote, lemma_position_index, lemma_mul_bounded, signed_qty, net_amount_of, qty_after,
    avg_cost_after, realized_of, held_qty, MAX_QTY, MAX_PRICE, MAX_FEE, PPM,
};
use crate::risk::{
    RiskEngine, RiskLimits, RiskViolation, RiskViolationType, estimate_price, estimated_price,
    risk_violations, MAX_EQUITY,
};
use crate::calendar::{MarketCalendar, MarketSession, trading_allowed, session_at, eastern_offset, governing_holiday, local_day};
use crate::mtm::PortfolioGreeks;

verus! {

/// Largest magnitude of the cash balance.
pub const MAX_CASH: i128 = 1267650600228229401496703205376;

/// Largest number of open positions.
pub const MAX_POSITIONS: usize = 65536;

#[verifier::external_type_specification]
#[verifier::external_body]
pub struct ExStdRng(rand::rngs::StdRng);

/// Relies on rand's `SeedableRng::seed_from_u64` for `StdRng`: a generator
/// whose stream is fixed by the seed.
#[verifier::external_body]
fn seeded_rng(seed: u64) -> rand::rngs::StdRng {
    rand::rngs::StdRng::seed_from_u64(seed)
}

/// Relies on rand's `Rng::gen_range` on an inclusive range, which returns a
/// value inside the (non-empty) range.
#[verifier::external_body]
fn draw_in(rng: &mut rand::rngs::StdRng, lo: i64, hi: i64) -> (r: i64)
    requires
        lo <= hi,
    ensures
        lo <= r <= hi,
{
    rng.gen_range(lo..=hi)
}

/// Relies on rand's `Rng::gen`: sixteen bytes from the generator.
#[verifier::external_body]
fn random_bytes(rng: &mut rand::rngs::StdRng) -> [u8; 16] {
    rng.gen()
}

/// Relies on uuid's `Builder::from_random_bytes`: the hyphenated text of the
/// version-4 identifier made from the bytes.
#[verifier::external_body]
fn uuid_text(bytes: [u8; 16]) -> String {
    uuid::Builder::from_random_bytes(bytes).into_uuid().to_string()
}

/// A fresh identifier drawn from the broker's own generator, so that a
/// seeded run repeats its identifiers.
fn new_id(rng: &mut rand::rngs::StdRng) -> String {
    uuid_text(random_bytes(rng))
}

/// Relies on chrono's `Utc::now`: the current Unix time in seconds.
#[verifier::external_body]
fn now_seconds() -> i64 {
    chrono::Utc::now().timestamp()
}

/// Why the broker refuses a request.
#[derive(Debug, Clone)]
pub enum BrokerError {
    Validation(ValidationError),
    QuantityTooLarge,
    RiskRejected(Vec<RiskViolation>),
    InsufficientBuyingPower,
    InsufficientShares,
    OrderNotFound,
    OrderCompleted,
    PositionNotFound,
    NoPosition,
}

impl BrokerError {
    /// A human-readable description.
    pub fn message(&self) -> (r: String)
        ensures
            self matches BrokerError::Validation(e) ==> r@ == crate::types::validation_text(*e),
            self matches BrokerError::RiskRejected(vs) ==> r@ == "Risk check failed: "@ + joined_messages(vs@),
            self is QuantityTooLarge ==> r@ == "Quantity exceeds the supported maximum"@,
            self is InsufficientBuyingPower ==> r@ == "Insufficient buying power"@,
            self is InsufficientShares ==> r@ == "Insufficient shares to sell"@,
            self is OrderNotFound ==> r@ == "Order not found"@,
            self is OrderCompleted ==> r@ == "Cannot cancel completed order"@,
            self is PositionNotFound ==> r@ == "Position not found"@,
            self is NoPosition ==> r@ == "No position to close"@,
    {
        match self {
            BrokerError::Validation(e) => e.message(),
            BrokerError::QuantityTooLarge => "Quantity exceeds the supported maximum".to_owned(),
            BrokerError::RiskRejected(vs) => {
                let mut m = String::from_str("Risk check failed: ");
                let ghost head = m@;
                let mut i: usize = 0;
                proof {
                    reveal_strlit("; ");
                    assert(vs@.subrange(0, 0) =~= Seq::<RiskViolation>::empty());
                }
                while i < vs.len()
                    invariant
                        i <= vs@.len(),
                        m@ == head + joined_messages(vs@.subrange(0, i as int)),
                        "; "@ == seq![';', ' '],
                    decreases vs@.len() - i,
                {
                    let ghost sub = vs@.subrange(0, i as int + 1);
                    assert(sub.drop_last() =~= vs@.subrange(0, i as int));
                    if i > 0 {
                        m.append("; ");
                    }
                    m.append(vs[i].message.as_str());
                    assert(m@ =~= head + joined_messages(sub));
                    i = i + 1;
                }
                assert(vs@.subrange(0, vs@.len() as int) =~= vs@);
                m
            },
            BrokerError::InsufficientBuyingPower => "Insufficient buying power".to_owned(),
            BrokerError::InsufficientShares => "Insufficient shares to sell".to_owned(),
            BrokerError::OrderNotFound => "Order not found".to_owned(),
            BrokerError::OrderCompleted => "Cannot cancel completed order".to_owned(),
            BrokerError::PositionNotFound => "Position not found".to_owned(),
            BrokerError::NoPosition => "No position to close".to_owned(),
        }
    }
}

/// Messages of a list of violations, separated by `; `.
pub open spec fn joined_messages(vs: Seq<RiskViolation>) -> Seq<char>
    decreases vs.len(),
{
    if vs.len() == 0 {
        Seq::empty()
    } else if vs.len() == 1 {
        vs[0].message@
    } else {
        joined_messages(vs.drop_last()) + seq![';', ' '] + vs.last().message@
    }
}

/// Sum of the net amounts of a list of trades.
pub open spec fn sum_net(ts: Seq<Trade>) -> int
    decreases ts.len(),
{
    if ts.len() == 0 {
        0
    } else {
        sum_net(ts.drop_last()) + ts.last().net_amount
    }
}

/// The book-keeping state of a position: quantity, average cost, realized P&L.
pub open spec fn model(p: Position) -> (int, int, int) {
    (p.quantity as int, p.avg_cost as int, p.realized_pnl as int)
}

/// Positions as a map from symbol to their book-keeping state.
pub open spec fn book(ps: Seq<Position>) -> Map<Seq<char>, (int, int, int)> {
    Map::new(|s: Seq<char>| has_position(ps, s), |s: Seq<char>| model(ps[position_index(ps, s)]))
}

/// Book-keeping state after a fill, starting from `prev` (a flat position when
/// absent). A position that ends flat leaves the book.
pub open spec fn book_after(
    b: Map<Seq<char>, (int, int, int)>,
    sym: Seq<char>,
    side: OrderSide,
    qty: int,
    price: int,
) -> Map<Seq<char>, (int, int, int)> {
    let prev = if b.contains_key(sym) { b[sym] } else { (0int, 0int, 0int) };
    let signed = signed_qty(side, qty);
    let q = qty_after(prev.0, signed);
    if q == 0 {
        b.remove(sym)
    } else {
        b.insert(
            sym,
            (q, avg_cost_after(prev.0, prev.1, signed, price), prev.2 + realized_of(prev.0, prev.1, signed, price)),
        )
    }
}

/// The book obtained by applying a list of trades, in order, to an empty book.
pub open spec fn replay_book(ts: Seq<Trade>) -> Map<Seq<char>, (int, int, int)>
    decreases ts.len(),
{
    if ts.len() == 0 {
        Map::empty()
    } else {
        let t = ts.last();
        book_after(replay_book(ts.drop_last()), t.symbol@, t.side, t.quantity as int, t.price as int)
    }
}

/// Market value of a list of positions.
pub open spec fn total_value(ps: Seq<Position>) -> int
    decreases ps.len(),
{
    if ps.len() == 0 {
        0
    } else {
        total_value(ps.drop_last()) + ps.last().market_value
    }
}

/// Realized plus unrealized P&L of a list of positions.
pub open spec fn total_pnl(ps: Seq<Position>) -> int
    decreases ps.len(),
{
    if ps.len() == 0 {
        0
    } else {
        total_pnl(ps.drop_last()) + ps.last().realized_pnl + ps.last().unrealized_pnl
    }
}

/// Commission schedule: per unit plus per trade, clamped to `[min, max]`.
pub open spec fn commission_of(cfg: BrokerConfig, inst: InstrumentType, qty: int) -> int {
    let (per, base, lo, hi) = match inst {
        InstrumentType::Stock => (
            cfg.commission_per_share as int,
            cfg.commission_per_trade as int,
            cfg.min_commission as int,
            cfg.max_commission as int,
        ),
        InstrumentType::Option => (
            cfg.option_commission_per_contract as int,
            cfg.option_commission_per_trade as int,
            cfg.option_min_commission as int,
            cfg.option_max_commission as int,
        ),
    };
    let raw = qty * per + base;
    let floored = if raw < lo { lo } else { raw };
    if floored > hi { hi } else { floored }
}

/// Slipped market price, in fixed point: `base * (1 ± s)` rounded down, where
/// `s = bps / 10000 * (1 + min(qty / 1000, 1))`; zero when a sell would slip
/// to nothing.
pub open spec fn slipped_price(base: int, side: OrderSide, qty: int, bps: int) -> int {
    let size = if qty < 1000 { qty } else { 1000 };
    let adj = bps * (1000 + size);
    if base <= 0 {
        0
    } else {
        match side {
        OrderSide::Buy => base * (10000000 + adj) / 10000000,
        OrderSide::Sell => if adj >= 10000000 { 0 } else { base * (10000000 - adj) / 10000000 },
        }
    }
}

/// Whether the last price triggers a stop: at or above it for a buy, at or
/// below it for a sell.
pub open spec fn stop_triggered(side: OrderSide, last: int, stop: int) -> bool {
    match side {
        OrderSide::Buy => last >= stop,
        OrderSide::Sell => last <= stop,
    }
}

/// Whether a limit order crosses the quote: the ask (else the last price) at
/// or below the limit for a buy, the bid (else the last price) at or above it
/// for a sell.
pub open spec fn limit_crosses(side: OrderSide, q: MarketData, limit: int) -> bool {
    match side {
        OrderSide::Buy => match q.ask {
            Some(a) => a <= limit,
            None => q.last_price <= limit,
        },
        OrderSide::Sell => match q.bid {
            Some(b) => b >= limit,
            None => q.last_price >= limit,
        },
    }
}

/// Base price of a market fill: the ask for a buy, the bid for a sell, else
/// the last price.
pub open spec fn market_base(side: OrderSide, q: MarketData) -> int {
    match side {
        OrderSide::Buy => match q.ask {
            Some(a) => a as int,
            None => q.last_price as int,
        },
        OrderSide::Sell => match q.bid {
            Some(b) => b as int,
            None => q.last_price as int,
        },
    }
}

/// Price at which an order executes against a quote, if it does now: market
/// orders at the slipped base price, limit orders at their limit when the
/// quote crosses, stops once triggered as a market order, stop-limits once
/// triggered as a limit order.
pub open spec fn execution_price(o: Order, q: MarketData, bps: int) -> Option<int> {
    let market = Some(slipped_price(market_base(o.side, q), o.side, o.remaining_quantity as int, bps));
    let as_limit = match o.price {
        Some(l) => if limit_crosses(o.side, q, l as int) { Some(l as int) } else { None },
        None => None,
    };
    match o.order_type {
        OrderType::Market => market,
        OrderType::Limit => as_limit,
        OrderType::Stop => match o.stop_price {
            Some(s) => if stop_triggered(o.side, q.last_price as int, s as int) { market } else { None },
            None => None,
        },
        OrderType::StopLimit => match o.stop_price {
            Some(s) => if stop_triggered(o.side, q.last_price as int, s as int) { as_limit } else { None },
            None => None,
        },
    }
}

/// The quote held for a symbol, if any.
pub open spec fn quote_for(qs: Seq<MarketData>, sym: Seq<char>) -> Option<MarketData> {
    if has_quote(qs, sym) {
        Some(qs[choose|i: int| 0 <= i < qs.len() && #[trigger] qs[i].symbol@ == sym])
    } else {
        None
    }
}

/// No two orders share an id.
pub open spec fn unique_ids(os: Seq<Order>) -> bool {
    forall|i: int, j: int| 0 <= i < os.len() && 0 <= j < os.len() && i != j ==> #[trigger] os[i].id@ != #[trigger] os[j].id@
}

/// Replacing an order by one with the same id keeps ids unique.
pub proof fn lemma_ids_update(os: Seq<Order>, k: int, o: Order)
    requires
        unique_ids(os),
        0 <= k < os.len(),
        o.id@ == os[k].id@,
    ensures
        unique_ids(os.update(k, o)),
{
    let os2 = os.update(k, o);
    assert forall|i: int, j: int| 0 <= i < os2.len() && 0 <= j < os2.len() && i != j implies #[trigger] os2[i].id@ != #[trigger] os2[j].id@ by {
        assert(os2[i].id@ == os[i].id@);
        assert(os2[j].id@ == os[j].id@);
    }
}

/// Appending an order with an id not yet used keeps ids unique.
pub proof fn lemma_ids_push(os: Seq<Order>, o: Order)
    requires
        unique_ids(os),
        forall|j: int| 0 <= j < os.len() ==> (#[trigger] os[j]).id@ != o.id@,
    ensures
        unique_ids(os.push(o)),
{
    let os2 = os.push(o);
    assert forall|i: int, j: int| 0 <= i < os2.len() && 0 <= j < os2.len() && i != j implies #[trigger] os2[i].id@ != #[trigger] os2[j].id@ by {
        if i < os.len() {
            assert(os2[i] == os[i]);
        }
        if j < os.len() {
            assert(os2[j] == os[j]);
        }
    }
}

/// The paper broker: cash, positions, orders, trades and quotes, with the
/// execution policy, the risk engine and the market calendar.
pub struct PaperBroker {
    pub cash: i128,
    pub positions: Vec<Position>,
    pub orders: Vec<Order>,
    pub trades: Vec<Trade>,
    pub market_data: Vec<MarketData>,
    pub config: BrokerConfig,
    pub day_start_equity: i128,
    pub initial_cash: i128,
    pub created_at: i64,
    pub risk_engine: RiskEngine,
    pub portfolio_greeks: PortfolioGreeks,
    pub auto_save_enabled: bool,
    pub last_saved_at: i64,
    pub market_calendar: MarketCalendar,
    pub rng: rand::rngs::StdRng,
}

impl PaperBroker {
    /// Cash is the initial cash plus every trade's net amount; the positions
    /// are what replaying the trades gives, none of them flat; all values
    /// stay within the engine's limits.
    pub open spec fn wf(&self) -> bool {
        &&& self.cash == self.initial_cash + sum_net(self.trades@)
        &&& -MAX_CASH <= self.cash <= MAX_CASH
        &&& -MAX_CASH <= self.day_start_equity <= MAX_CASH
        &&& forall|i: int| 0 <= i < self.trades@.len() ==> (#[trigger] self.trades@[i]).wf()
        &&& book(self.positions@) == replay_book(self.trades@)
        &&& unique_symbols(self.positions@)
        &&& self.positions@.len() <= MAX_POSITIONS
        &&& forall|i: int| 0 <= i < self.positions@.len() ==> (#[trigger] self.positions@[i]).wf()
            && self.positions@[i].quantity != 0
        &&& unique_quotes(self.market_data@)
        &&& forall|i: int| 0 <= i < self.orders@.len() ==> (#[trigger] self.orders@[i]).wf()
        &&& unique_ids(self.orders@)
        &&& self.config.wf()
        &&& self.risk_engine.wf()
        &&& self.market_calendar.wf()
    }
}

/// Replacing the position at `k` by one in the same symbol updates that
/// symbol's entry of the book.
pub proof fn lemma_book_update(ps: Seq<Position>, k: int, np: Position)
    requires
        unique_symbols(ps),
        0 <= k < ps.len(),
        np.symbol@ == ps[k].symbol@,
    ensures
        unique_symbols(ps.update(k, np)),
        book(ps.update(k, np)) == book(ps).insert(np.symbol@, model(np)),
{
    let ps2 = ps.update(k, np);
    let sym = np.symbol@;
    assert forall|i: int, j: int|
        0 <= i < ps2.len() && 0 <= j < ps2.len() && i != j implies #[trigger] ps2[i].symbol@
        != #[trigger] ps2[j].symbol@ by {
        assert(ps2[i].symbol@ == ps[i].symbol@);
        assert(ps2[j].symbol@ == ps[j].symbol@);
    }
    assert forall|s: Seq<char>| has_position(ps2, s) == has_position(ps, s) by {
        if has_position(ps, s) {
            let i = choose|i: int| 0 <= i < ps.len() && #[trigger] ps[i].symbol@ == s;
            assert(ps2[i].symbol@ == s);
        }
        if has_position(ps2, s) {
            let i = choose|i: int| 0 <= i < ps2.len() && #[trigger] ps2[i].symbol@ == s;
            assert(ps[i].symbol@ == s);
        }
    }
    assert forall|s: Seq<char>| #[trigger] book(ps2).contains_key(s) implies book(ps2)[s] == book(ps).insert(sym, model(np))[s] by {
        let i = position_index(ps2, s);
        if s == sym {
            lemma_position_index(ps2, s, k);
        } else {
            lemma_position_index(ps, s, i);
        }
    }
    lemma_position_index(ps2, sym, k);
    assert(book(ps2) =~= book(ps).insert(sym, model(np)));
}

/// Removing the position at `k` removes its symbol from the book.
pub proof fn lemma_book_remove(ps: Seq<Position>, k: int)
    requires
        unique_symbols(ps),
        0 <= k < ps.len(),
    ensures
        unique_symbols(ps.remove(k)),
        book(ps.remove(k)) == book(ps).remove(ps[k].symbol@),
{
    let ps2 = ps.remove(k);
    let sym = ps[k].symbol@;
    assert forall|i: int| 0 <= i < ps2.len() implies #[trigger] ps2[i] == ps[if i < k { i } else { i + 1 }] by {}
    assert forall|i: int, j: int|
        0 <= i < ps2.len() && 0 <= j < ps2.len() && i != j implies #[trigger] ps2[i].symbol@
        != #[trigger] ps2[j].symbol@ by {
        assert(ps2[i] == ps[if i < k { i } else { i + 1 }]);
        assert(ps2[j] == ps[if j < k { j } else { j + 1 }]);
    }
    assert forall|s: Seq<char>| has_position(ps2, s) == (has_position(ps, s) && s != sym) by {
        if has_position(ps, s) && s != sym {
            let i = choose|i: int| 0 <= i < ps.len() && #[trigger] ps[i].symbol@ == s;
            assert(i != k);
            let i2 = if i < k { i } else { i - 1 };
            assert(ps2[i2] == ps[i]);
        }
        if has_position(ps2, s) {
            let i = choose|i: int| 0 <= i < ps2.len() && #[trigger] ps2[i].symbol@ == s;
            let i1 = if i < k { i } else { i + 1 };
            assert(ps2[i] == ps[i1]);
            assert(i1 != k);
        }
    }
    assert forall|s: Seq<char>| #[trigger] book(ps2).contains_key(s) implies book(ps2)[s] == book(ps).remove(sym)[s] by {
        let i = position_index(ps2, s);
        let i1 = if i < k { i } else { i + 1 };
        assert(ps2[i] == ps[i1]);
        lemma_position_index(ps, s, i1);
    }
    assert(book(ps2) =~= book(ps).remove(sym));
}

/// Appending a position in a new symbol adds it to the book.
#[verifier::spinoff_prover]
pub proof fn lemma_book_push(ps: Seq<Position>, p: Position)
    requires
        unique_symbols(ps),
        !has_position(ps, p.symbol@),
    ensures
        unique_symbols(ps.push(p)),
        book(ps.push(p)) == book(ps).insert(p.symbol@, model(p)),
{
    let ps2 = ps.push(p);
    let sym = p.symbol@;
    assert forall|i: int, j: int|
        0 <= i < ps2.len() && 0 <= j < ps2.len() && i != j implies #[trigger] ps2[i].symbol@
        != #[trigger] ps2[j].symbol@ by {
        if i < ps.len() && j < ps.len() {
            assert(ps2[i] == ps[i]);
            assert(ps2[j] == ps[j]);
        } else if i < ps.len() {
            assert(ps2[i] == ps[i]);
            assert(ps2[j] == p);
            assert(ps[i].symbol@ != sym);
        } else if j < ps.len() {
            assert(ps2[j] == ps[j]);
            assert(ps2[i] == p);
            assert(ps[j].symbol@ != sym);
        }
    }
    assert forall|s: Seq<char>| has_position(ps2, s) == (has_position(ps, s) || s == sym) by {
        if has_position(ps, s) {
            let i = choose|i: int| 0 <= i < ps.len() && #[trigger] ps[i].symbol@ == s;
            assert(ps2[i] == ps[i]);
        }
        if s == sym {
            assert(ps2[ps.len() as int] == p);
        }
        if has_position(ps2, s) && s != sym {
            let i = choose|i: int| 0 <= i < ps2.len() && #[trigger] ps2[i].symbol@ == s;
            assert(i < ps.len());
            assert(ps2[i] == ps[i]);
        }
    }
    assert forall|s: Seq<char>| #[trigger] book(ps2).contains_key(s) implies book(ps2)[s] == book(ps).insert(sym, model(p))[s] by {
        let i = position_index(ps2, s);
        if s == sym {
            lemma_position_index(ps2, s, ps.len() as int);
        } else {
            assert(i < ps.len());
            assert(ps2[i] == ps[i]);
            lemma_position_index(ps, s, i);
        }
    }
    assert(book(ps2) =~= book(ps).insert(sym, model(p)));
}

/// The book-keeping state held in `sym`, flat when there is none.
pub open spec fn entry(b: Map<Seq<char>, (int, int, int)>, sym: Seq<char>) -> (int, int, int) {
    if b.contains_key(sym) { b[sym] } else { (0int, 0int, 0int) }
}

/// Whether a fill can be booked within the engine's limits: a positive price
/// and quantity within bounds, a resulting quantity and realized P&L within
/// bounds, cash that stays within bounds, and room for a new position.
pub open spec fn can_book(
    b: Map<Seq<char>, (int, int, int)>,
    n_positions: int,
    cash: int,
    sym: Seq<char>,
    side: OrderSide,
    qty: int,
    price: int,
    commission: int,
) -> bool {
    let prev = entry(b, sym);
    let signed = signed_qty(side, qty);
    &&& 0 < price <= MAX_PRICE
    &&& 0 < qty <= MAX_QTY
    &&& 0 <= commission <= MAX_FEE
    &&& -MAX_QTY <= qty_after(prev.0, signed) <= MAX_QTY
    &&& -crate::types::MAX_PNL <= prev.2 + realized_of(prev.0, prev.1, signed, price) <= crate::types::MAX_PNL
    &&& -MAX_CASH <= cash + net_amount_of(side, price, qty, commission) <= MAX_CASH
    &&& (b.contains_key(sym) || n_positions < MAX_POSITIONS)
}

impl PaperBroker {
    /// Market value and total P&L of the positions.
    pub fn position_totals(&self) -> (r: (i128, i128))
        requires
            self.wf(),
        ensures
            r.0 == total_value(self.positions@),
            r.1 == total_pnl(self.positions@),
            -MAX_EQUITY / 2 <= r.0 <= MAX_EQUITY / 2,
            -MAX_EQUITY <= r.1 <= MAX_EQUITY,
    {
        let mut mv: i128 = 0;
        let mut pnl: i128 = 0;
        let n = self.positions.len();
        let mut i: usize = 0;
        while i < n
            invariant
                n == self.positions@.len(),
                n <= MAX_POSITIONS,
                i <= n,
                self.wf(),
                mv == total_value(self.positions@.subrange(0, i as int)),
                pnl == total_pnl(self.positions@.subrange(0, i as int)),
                -(i as int) * 38685626227668133590597632 <= mv <= (i as int) * 38685626227668133590597632,
                -(i as int) * 77371252455336267181195264 <= pnl <= (i as int) * 77371252455336267181195264,
            decreases n - i,
        {
            let p = &self.positions[i];
            proof {
                let sub = self.positions@.subrange(0, i as int + 1);
                assert(sub.drop_last() =~= self.positions@.subrange(0, i as int));
                assert(sub.last() == *p);
                assert(p.wf());
                lemma_mul_bounded(p.quantity as int, p.last_price as int, MAX_QTY as int, MAX_PRICE as int);
                lemma_mul_bounded(p.quantity as int, p.avg_cost as int, MAX_QTY as int, MAX_PRICE as int);
            }
            mv = mv + p.market_value;
            pnl = pnl + p.realized_pnl + p.unrealized_pnl;
            i = i + 1;
        }
        assert(self.positions@.subrange(0, n as int) =~= self.positions@);
        assert((n as int) * 38685626227668133590597632 <= 2535301200456458802993406410752) by (nonlinear_arith)
            requires n <= 65536;
        assert((n as int) * 77371252455336267181195264 <= 5070602400912917605986812821504) by (nonlinear_arith)
            requires n <= 65536;
        (mv, pnl)
    }

    /// Applies a trade to the books: the position in its symbol moves as
    /// `book_after` says (and leaves when flat), cash moves by the trade's net
    /// amount, and the trade is appended.
    fn apply_trade(&mut self, trade: Trade, now: i64)
        requires
            old(self).wf(),
            trade.wf(),
            can_book(
                book(old(self).positions@),
                old(self).positions@.len() as int,
                old(self).cash as int,
                trade.symbol@,
                trade.side,
                trade.quantity as int,
                trade.price as int,
                trade.commission as int,
            ),
        ensures
            final(self).wf(),
            final(self).cash == old(self).cash + trade.net_amount,
            final(self).trades@ == old(self).trades@.push(trade),
            book(final(self).positions@) == book_after(
                book(old(self).positions@),
                trade.symbol@,
                trade.side,
                trade.quantity as int,
                trade.price as int,
            ),
            final(self).orders == old(self).orders,
            final(self).market_data == old(self).market_data,
            final(self).config == old(self).config,
            final(self).market_calendar == old(self).market_calendar,
            final(self).initial_cash == old(self).initial_cash,
            final(self).day_start_equity == old(self).day_start_equity,
            final(self).portfolio_greeks == old(self).portfolio_greeks,
            final(self).risk_engine == old(self).risk_engine,
    {
        let trade_fill = Fill {
            id: trade.id.clone(),
            order_id: trade.order_id.clone(),
            symbol: trade.symbol.clone(),
            side: trade.side,
            quantity: trade.quantity,
            price: trade.price,
            timestamp: trade.timestamp,
            commission: trade.commission,
            instrument_type: trade.instrument_type,
            option_details: None,
            leg_number: trade.leg_number,
        };
        let ghost b0 = book(self.positions@);
        let ghost sym = trade.symbol@;
        proof {
            lemma_mul_bounded(trade.price as int, trade.quantity as int, MAX_PRICE as int, MAX_QTY as int);
        }
        let net: i128 = trade.net_amount;
        match find_position(&self.positions, &trade.symbol) {
            Some(k) => {
                proof {
                    lemma_position_index(self.positions@, sym, k as int);
                    assert(self.positions@[k as int].wf());
                }
                let ghost ps0 = self.positions@;
                let mut p = self.positions.remove(k);
                proof {
                    assert(model(p) == b0[sym]);
                }
                p.apply_fill(&trade_fill, now);
                if p.quantity != 0 {
                    self.positions.insert(k, p);
                    proof {
                        assert(self.positions@ =~= ps0.update(k as int, p));
                        lemma_book_update(ps0, k as int, p);
                        assert(book(self.positions@) =~= book_after(b0, sym, trade.side, trade.quantity as int, trade.price as int));
                        assert forall|i: int| 0 <= i < self.positions@.len() implies (#[trigger] self.positions@[i]).wf()
                            && self.positions@[i].quantity != 0 by {
                            if i != k {
                                assert(self.positions@[i] == ps0[i]);
                            }
                        }
                    }
                } else {
                    proof {
                        lemma_book_remove(ps0, k as int);
                        assert(book(self.positions@) =~= book_after(b0, sym, trade.side, trade.quantity as int, trade.price as int));
                        assert forall|i: int| 0 <= i < self.positions@.len() implies (#[trigger] self.positions@[i]).wf()
                            && self.positions@[i].quantity != 0 by {
                            assert(self.positions@[i] == ps0[if i < k { i } else { i + 1 }]);
                        }
                    }
                }
            },
            None => {
                let mut p = Position::new(trade.symbol.clone(), now);
                proof {
                    assert(!b0.contains_key(sym));
                }
                p.apply_fill(&trade_fill, now);
                let ghost ps0 = self.positions@;
                if p.quantity != 0 {
                    self.positions.push(p);
                    proof {
                        lemma_book_push(ps0, p);
                        assert(book(self.positions@) =~= book_after(b0, sym, trade.side, trade.quantity as int, trade.price as int));
                        assert forall|i: int| 0 <= i < self.positions@.len() implies (#[trigger] self.positions@[i]).wf()
                            && self.positions@[i].quantity != 0 by {
                            if i < ps0.len() {
                                assert(self.positions@[i] == ps0[i]);
                            }
                        }
                    }
                } else {
                    proof {
                        assert(book(self.positions@) =~= book_after(b0, sym, trade.side, trade.quantity as int, trade.price as int));
                    }
                }
            },
        }
        self.cash = self.cash + net;
        let ghost t0 = self.trades@;
        self.trades.push(trade);
        proof {
            assert(self.trades@.drop_last() =~= t0);
            assert(self.trades@.last() == trade);
            assert forall|i: int| 0 <= i < self.trades@.len() implies (#[trigger] self.trades@[i]).wf() by {
                if i < t0.len() {
                    assert(self.trades@[i] == t0[i]);
                }
            }
        }
    }

    /// Books a fill: the position in its symbol moves as `book_after` says
    /// (and leaves when flat), cash moves by the fill's net amount, a trade is
    /// recorded, and the risk engine meters it.
    fn book_fill(&mut self, fill: &Fill, now: i64)
        requires
            old(self).wf(),
            can_book(
                book(old(self).positions@),
                old(self).positions@.len() as int,
                old(self).cash as int,
                fill.symbol@,
                fill.side,
                fill.quantity as int,
                fill.price as int,
                fill.commission as int,
            ),
        ensures
            final(self).wf(),
            final(self).cash == old(self).cash + net_amount_of(
                fill.side,
                fill.price as int,
                fill.quantity as int,
                fill.commission as int,
            ),
            final(self).trades@.len() == old(self).trades@.len() + 1,
            final(self).trades@.drop_last() == old(self).trades@,
            final(self).trades@.last().symbol@ == fill.symbol@,
            final(self).trades@.last().side == fill.side,
            final(self).trades@.last().quantity == fill.quantity,
            final(self).trades@.last().price == fill.price,
            final(self).trades@.last().commission == fill.commission,
            final(self).trades@.last().order_id@ == fill.order_id@,
            book(final(self).positions@) == book_after(
                book(old(self).positions@),
                fill.symbol@,
                fill.side,
                fill.quantity as int,
                fill.price as int,
            ),
            final(self).orders == old(self).orders,
            final(self).market_data == old(self).market_data,
            final(self).config == old(self).config,
            final(self).market_calendar == old(self).market_calendar,
            final(self).initial_cash == old(self).initial_cash,
            final(self).day_start_equity == old(self).day_start_equity,
            final(self).portfolio_greeks == old(self).portfolio_greeks,
            final(self).risk_engine.limits == old(self).risk_engine.limits,
            final(self).risk_engine.metrics.daily_trades == counted(old(self).risk_engine.metrics.daily_trades as int),
            final(self).trades@.last().timestamp == fill.timestamp,
    {
        proof {
            lemma_mul_bounded(fill.price as int, fill.quantity as int, MAX_PRICE as int, MAX_QTY as int);
        }
        let gross: i128 = (fill.price as i128) * (fill.quantity as i128);
        let net: i128 = match fill.side {
            OrderSide::Buy => -(gross + fill.commission as i128),
            OrderSide::Sell => gross - fill.commission as i128,
        };
        let trade = Trade {
            id: new_id(&mut self.rng),
            symbol: fill.symbol.clone(),
            side: fill.side,
            quantity: fill.quantity,
            price: fill.price,
            timestamp: fill.timestamp,
            order_id: fill.order_id.clone(),
            commission: fill.commission,
            net_amount: net,
            instrument_type: fill.instrument_type,
            option_details: fill.option_details.clone(),
            leg_number: fill.leg_number,
            assignment_id: None,
        };
        self.apply_trade(trade, now);
        let (_mv, pnl) = self.position_totals();
        self.risk_engine.update_after_trade(&self.trades[self.trades.len() - 1], pnl, now);
    }
}

/// A copy of a list of positions.
fn copy_positions(ps: &Vec<Position>) -> (r: Vec<Position>)
    ensures
        r@ == ps@,
{
    let mut out: Vec<Position> = Vec::new();
    let mut i: usize = 0;
    while i < ps.len()
        invariant
            i <= ps@.len(),
            out@ == ps@.subrange(0, i as int),
        decreases ps@.len() - i,
    {
        let p = &ps[i];
        let c = Position {
            symbol: p.symbol.clone(),
            quantity: p.quantity,
            avg_cost: p.avg_cost,
            market_value: p.market_value,
            unrealized_pnl: p.unrealized_pnl,
            realized_pnl: p.realized_pnl,
            last_price: p.last_price,
            updated_at: p.updated_at,
        };
        out.push(c);
        assert(out@ =~= ps@.subrange(0, i as int + 1));
        i = i + 1;
    }
    assert(ps@.subrange(0, ps@.len() as int) =~= ps@);
    out
}

/// A copy of a fill (its option details are cloned as they are).
fn copy_fill(f: &Fill) -> (r: Fill)
    ensures
        r.id@ == f.id@,
        r.order_id@ == f.order_id@,
        r.symbol@ == f.symbol@,
        r.side == f.side,
        r.quantity == f.quantity,
        r.price == f.price,
        r.timestamp == f.timestamp,
        r.commission == f.commission,
        r.instrument_type == f.instrument_type,
{
    Fill {
        id: f.id.clone(),
        order_id: f.order_id.clone(),
        symbol: f.symbol.clone(),
        side: f.side,
        quantity: f.quantity,
        price: f.price,
        timestamp: f.timestamp,
        commission: f.commission,
        instrument_type: f.instrument_type,
        option_details: f.option_details.clone(),
        leg_number: f.leg_number,
    }
}

/// Smallest quantity a partial fill may take: the minimum ratio of what
/// remains, rounded down, and at least one.
pub open spec fn partial_floor(remaining: int, ratio_ppm: int) -> int {
    let q = remaining * ratio_ppm / (PPM as int);
    if q < 1 { 1 } else { q }
}

/// Quantity to fill given a uniform draw `u` in `[0, 1e6)` and a drawn
/// quantity: the drawn one when `u` falls below the partial-fill
/// probability, otherwise all that remains.
pub open spec fn chosen_quantity(remaining: int, u: int, drawn: int, cfg: BrokerConfig) -> int {
    if u < cfg.partial_fill_probability { drawn } else { remaining }
}

/// See `chosen_quantity`.
pub fn fill_quantity(remaining: i64, u: i64, drawn: i64, cfg: &BrokerConfig) -> (r: i64)
    ensures
        r == chosen_quantity(remaining as int, u as int, drawn as int, *cfg),
{
    if u < cfg.partial_fill_probability { drawn } else { remaining }
}

/// Smallest quantity of a partial fill (see `partial_floor`).
pub fn partial_fill_floor(remaining: i64, ratio_ppm: i64) -> (r: i64)
    requires
        0 < remaining <= MAX_QTY,
        0 <= ratio_ppm <= PPM,
    ensures
        r == partial_floor(remaining as int, ratio_ppm as int),
        1 <= r <= remaining,
{
    proof {
        lemma_mul_bounded(remaining as int, ratio_ppm as int, MAX_QTY as int, PPM as int);
        assert(remaining as int * ratio_ppm as int / (PPM as int) <= remaining) by (nonlinear_arith)
            requires
                0 < remaining,
                0 <= ratio_ppm <= PPM,
        ;
    }
    let scaled: i128 = (remaining as i128) * (ratio_ppm as i128);
    let q: i64 = ((scaled as u128) / (PPM as u128)) as i64;
    if q < 1 { 1 } else { q }
}

impl PaperBroker {
    /// Commission for `qty` units under the configured schedule.
    pub fn calculate_commission(&self, instrument: InstrumentType, qty: i64) -> (r: i64)
        requires
            self.config.wf(),
            0 <= qty <= MAX_QTY,
        ensures
            r == commission_of(self.config, instrument, qty as int),
            0 <= r <= MAX_FEE,
    {
        let (per, base, lo, hi) = match instrument {
            InstrumentType::Stock => (
                self.config.commission_per_share,
                self.config.commission_per_trade,
                self.config.min_commission,
                self.config.max_commission,
            ),
            InstrumentType::Option => (
                self.config.option_commission_per_contract,
                self.config.option_commission_per_trade,
                self.config.option_min_commission,
                self.config.option_max_commission,
            ),
        };
        proof {
            lemma_mul_bounded(qty as int, per as int, MAX_QTY as int, MAX_FEE as int);
        }
        let raw: i128 = (qty as i128) * (per as i128) + base as i128;
        let floored: i128 = if raw < lo as i128 { lo as i128 } else { raw };
        let c: i128 = if floored > hi as i128 { hi as i128 } else { floored };
        c as i64
    }

    /// Market price after slippage, against the trader: up for a buy, down for
    /// a sell, by more for larger orders.
    pub fn apply_slippage(&self, price: i64, side: OrderSide, qty: i64) -> (r: i128)
        requires
            self.config.wf(),
            qty > 0,
        ensures
            r == slipped_price(price as int, side, qty as int, self.config.slippage_bps as int),
            r >= 0,
    {
        if price <= 0 {
            return 0;
        }
        let size: i128 = if qty < 1000 { qty as i128 } else { 1000 };
        proof {
            lemma_mul_bounded(self.config.slippage_bps as int, 1000 + size, 10000, 2000);
        }
        let adj: i128 = (self.config.slippage_bps as i128) * (1000 + size);
        proof {
            lemma_mul_bounded(price as int, 10000000 + adj, 0x8000_0000_0000_0000, 30000000);
            lemma_mul_bounded(price as int, 10000000 - adj, 0x8000_0000_0000_0000, 30000000);
        }
        match side {
            OrderSide::Buy => (((price as u128) * ((10000000 + adj) as u128)) / 10000000) as i128,
            OrderSide::Sell => if adj >= 10000000 {
                0
            } else {
                (((price as u128) * ((10000000 - adj) as u128)) / 10000000) as i128
            },
        }
    }

    /// Quantity to fill now: with the configured probability a partial fill
    /// drawn between `partial_floor` and what remains, otherwise all of it.
    pub fn determine_fill_quantity(&mut self, remaining: i64) -> (r: i64)
        requires
            old(self).config.wf(),
            0 < remaining <= MAX_QTY,
        ensures
            partial_floor(remaining as int, old(self).config.min_partial_fill_ratio as int) <= r <= remaining,
            old(self).config.partial_fill_probability == 0 ==> r == remaining,
            exists|u: int, drawn: int|
                0 <= u < PPM && partial_floor(remaining as int, old(self).config.min_partial_fill_ratio as int) <= drawn
                    <= remaining && r == #[trigger] chosen_quantity(remaining as int, u, drawn, old(self).config),
            final(self).cash == old(self).cash,
            final(self).positions == old(self).positions,
            final(self).orders == old(self).orders,
            final(self).trades == old(self).trades,
            final(self).market_data == old(self).market_data,
            final(self).config == old(self).config,
            final(self).risk_engine == old(self).risk_engine,
            final(self).market_calendar == old(self).market_calendar,
            final(self).initial_cash == old(self).initial_cash,
            final(self).day_start_equity == old(self).day_start_equity,
            final(self).portfolio_greeks == old(self).portfolio_greeks,
            final(self).auto_save_enabled == old(self).auto_save_enabled,
            final(self).last_saved_at == old(self).last_saved_at,
            final(self).created_at == old(self).created_at,
    {
        let u = draw_in(&mut self.rng, 0, PPM - 1);
        proof {
            lemma_mul_bounded(remaining as int, self.config.min_partial_fill_ratio as int, MAX_QTY as int, PPM as int);
            assert(remaining as int * self.config.min_partial_fill_ratio as int / (PPM as int) <= remaining) by (nonlinear_arith)
                requires
                    0 < remaining,
                    0 <= self.config.min_partial_fill_ratio <= PPM,
            ;
        }
        let drawn = if u < self.config.partial_fill_probability {
            let lo = partial_fill_floor(remaining, self.config.min_partial_fill_ratio);
            draw_in(&mut self.rng, lo, remaining)
        } else {
            remaining
        };
        fill_quantity(remaining, u, drawn, &self.config)
    }
}

/// With unique symbols, the quote found at `k` is the one `quote_for` picks.
pub proof fn lemma_quote_index(qs: Seq<MarketData>, sym: Seq<char>, k: int)
    requires
        unique_quotes(qs),
        0 <= k < qs.len(),
        qs[k].symbol@ == sym,
    ensures
        quote_for(qs, sym) == Some(qs[k]),
{
    assert(has_quote(qs, sym));
    let i = choose|i: int| 0 <= i < qs.len() && #[trigger] qs[i].symbol@ == sym;
    assert(qs[i].symbol@ == qs[k].symbol@);
}

/// What an attempt that produces no fill leaves untouched (orders aside).
pub open spec fn same_money(a: PaperBroker, b: PaperBroker) -> bool {
    &&& a.cash == b.cash
    &&& a.positions == b.positions
    &&& a.trades == b.trades
    &&& a.market_data == b.market_data
    &&& a.config == b.config
    &&& a.risk_engine == b.risk_engine
    &&& a.market_calendar == b.market_calendar
    &&& a.initial_cash == b.initial_cash
    &&& a.day_start_equity == b.day_start_equity
    &&& a.portfolio_greeks == b.portfolio_greeks
}

/// The fields that execution never changes on an order.
pub open spec fn same_identity(a: Order, b: Order) -> bool {
    &&& a.id == b.id
    &&& a.symbol == b.symbol
    &&& a.side == b.side
    &&& a.order_type == b.order_type
    &&& a.quantity == b.quantity
    &&& a.price == b.price
    &&& a.stop_price == b.stop_price
    &&& a.created_at == b.created_at
    &&& a.instrument_type == b.instrument_type
}

/// The message of an attempt made while the market does not allow trading.
pub open spec fn closed_text(cal: MarketCalendar, now: int) -> Seq<char> {
    match session_at(cal, now) {
        MarketSession::Closed => match eastern_offset(now) {
            Some(o) => match governing_holiday(cal.holidays@, local_day(now, o)) {
                Some(h) => "Order pending - Market closed for "@ + h.name@,
                None => "Order pending - Market closed"@,
            },
            None => "Order pending - Market closed"@,
        },
        MarketSession::PreMarket => "Order pending - Pre-market trading disabled"@,
        MarketSession::AfterHours => "Order pending - After-hours trading disabled"@,
        MarketSession::Regular => "Order pending - Trading not allowed"@,
    }
}

/// The daily trade count after one more trade.
pub open spec fn counted(n: int) -> int {
    if n < i32::MAX { n + 1 } else { i32::MAX as int }
}

/// One attempt to execute order `o` (becoming `po`) at `now`, taking the
/// broker from `pre` to `post` with result `r`. Nothing happens unless the
/// calendar allows trading, the order can fill, its symbol has a quote and it
/// executes against the quote (`execution_price`); then one fill is booked —
/// a quantity drawn between `partial_floor` and what remains (all of it when
/// partial fills are off), at the execution price, with the scheduled
/// commission — unless no drawable quantity fits the engine's limits.
pub open spec fn attempt(pre: PaperBroker, o: Order, post: PaperBroker, po: Order, r: TradeExecution, now: int) -> bool {
    let quote = quote_for(pre.market_data@, o.symbol@);
    let bps = pre.config.slippage_bps as int;
    let allowed = trading_allowed(pre.market_calendar, now);
    let f = r.fills@[0];
    &&& r.fills@.len() <= 1
    &&& r.order_id@ == o.id@
    &&& r.status == po.status
    &&& same_identity(po, o)
    &&& post.market_data == pre.market_data
    &&& post.config == pre.config
    &&& post.market_calendar == pre.market_calendar
    &&& post.initial_cash == pre.initial_cash
    &&& post.day_start_equity == pre.day_start_equity
    &&& post.portfolio_greeks == pre.portfolio_greeks
    &&& (!allowed ==> r.fills@.len() == 0 && r.message@ == closed_text(pre.market_calendar, now))
    &&& (r.fills@.len() == 0 ==> po == o && same_money(post, pre))
    &&& (r.fills@.len() == 0 && o.spec_can_fill() && allowed && quote is Some && execution_price(o, quote->0, bps) is Some
        ==> exists|q: int|
        partial_floor(o.remaining_quantity as int, pre.config.min_partial_fill_ratio as int) <= q <= o.remaining_quantity
            && !can_book(
            book(pre.positions@),
            pre.positions@.len() as int,
            pre.cash as int,
            o.symbol@,
            o.side,
            q,
            execution_price(o, quote->0, bps)->0,
            commission_of(pre.config, o.instrument_type, q),
        ))
    &&& (r.fills@.len() == 1 ==> {
        &&& o.spec_can_fill()
        &&& allowed
        &&& quote is Some
        &&& execution_price(o, quote->0, bps) == Some(f.price as int)
        &&& partial_floor(o.remaining_quantity as int, pre.config.min_partial_fill_ratio as int) <= f.quantity
            <= o.remaining_quantity
        &&& (pre.config.partial_fill_probability == 0 ==> f.quantity == o.remaining_quantity)
        &&& f.commission == commission_of(pre.config, o.instrument_type, f.quantity as int)
        &&& f.symbol@ == o.symbol@ && f.side == o.side && f.order_id@ == o.id@
        &&& f.timestamp == now
        &&& post.cash == pre.cash + net_amount_of(f.side, f.price as int, f.quantity as int, f.commission as int)
        &&& post.trades@.len() == pre.trades@.len() + 1
        &&& post.trades@.drop_last() == pre.trades@
        &&& post.trades@.last().symbol@ == f.symbol@
        &&& post.trades@.last().side == f.side
        &&& post.trades@.last().quantity == f.quantity
        &&& post.trades@.last().price == f.price
        &&& post.trades@.last().commission == f.commission
        &&& post.trades@.last().order_id@ == o.id@
        &&& post.trades@.last().timestamp == now
        &&& book(post.positions@) == book_after(book(pre.positions@), o.symbol@, o.side, f.quantity as int, f.price as int)
        &&& post.risk_engine.metrics.daily_trades == counted(pre.risk_engine.metrics.daily_trades as int)
        &&& post.risk_engine.limits == pre.risk_engine.limits
        &&& po.filled_quantity == o.filled_quantity + f.quantity
        &&& po.remaining_quantity == o.remaining_quantity - f.quantity
        &&& po.status == (if f.quantity == o.remaining_quantity {
            OrderStatus::Filled
        } else {
            OrderStatus::PartiallyFilled
        })
        &&& po.updated_at == now
        &&& po.fills@.len() == o.fills@.len() + 1
        &&& po.fills@.drop_last() == o.fills@
        &&& po.fills@.last().price == f.price && po.fills@.last().quantity == f.quantity
        &&& po.fills@.last().commission == f.commission && po.fills@.last().side == f.side
    })
}

/// Realized P&L of a fill, computed within bounds.
fn realized_exec(old_qty: i64, avg: i64, signed: i64, price: i64) -> (r: i128)
    requires
        -MAX_QTY <= old_qty <= MAX_QTY,
        0 <= avg <= MAX_PRICE,
        -MAX_QTY <= signed <= MAX_QTY,
        0 < price <= MAX_PRICE,
    ensures
        r == realized_of(old_qty as int, avg as int, signed as int, price as int),
        -38685626227668133590597632 <= r <= 38685626227668133590597632,
{
    if old_qty == 0 || (old_qty > 0 && signed > 0) || (old_qty < 0 && signed < 0) {
        return 0;
    }
    let aq: i64 = if old_qty < 0 { -old_qty } else { old_qty };
    let sq: i64 = if signed < 0 { -signed } else { signed };
    let closed: i64 = if sq < aq { sq } else { aq };
    let diff: i128 = (price as i128) - (avg as i128);
    proof {
        lemma_mul_bounded(closed as int, diff as int, MAX_QTY as int, 2 * MAX_PRICE);
    }
    let moved: i128 = (closed as i128) * diff;
    if old_qty > 0 { moved } else { -moved }
}

impl PaperBroker {
    /// Whether a fill can be booked now (see `can_book`).
    fn fill_bookable(&self, sym: &String, side: OrderSide, qty: i64, price: i128, commission: i64) -> (r: bool)
        requires
            self.wf(),
        ensures
            r == can_book(
                book(self.positions@),
                self.positions@.len() as int,
                self.cash as int,
                sym@,
                side,
                qty as int,
                price as int,
                commission as int,
            ),
    {
        if price <= 0 || price > MAX_PRICE as i128 || qty <= 0 || qty > MAX_QTY || commission < 0
            || commission > MAX_FEE {
            return false;
        }
        let price = price as i64;
        let (pq, pa, pr, present): (i64, i64, i128, bool) = match find_position(&self.positions, sym) {
            Some(k) => {
                proof {
                    lemma_position_index(self.positions@, sym@, k as int);
                    assert(self.positions@[k as int].wf());
                }
                (self.positions[k].quantity, self.positions[k].avg_cost, self.positions[k].realized_pnl, true)
            },
            None => (0, 0, 0, false),
        };
        assert(entry(book(self.positions@), sym@) == (pq as int, pa as int, pr as int));
        let signed: i64 = match side {
            OrderSide::Buy => qty,
            OrderSide::Sell => -qty,
        };
        let new_qty: i64 = pq + signed;
        if new_qty < -MAX_QTY || new_qty > MAX_QTY {
            return false;
        }
        let realized = realized_exec(pq, pa, signed, price);
        let total = pr + realized;
        if total < -crate::types::MAX_PNL || total > crate::types::MAX_PNL {
            return false;
        }
        proof {
            lemma_mul_bounded(price as int, qty as int, MAX_PRICE as int, MAX_QTY as int);
        }
        let gross: i128 = (price as i128) * (qty as i128);
        let net: i128 = match side {
            OrderSide::Buy => -(gross + commission as i128),
            OrderSide::Sell => gross - commission as i128,
        };
        let after = self.cash + net;
        if after < -MAX_CASH || after > MAX_CASH {
            return false;
        }
        present || self.positions.len() < MAX_POSITIONS
    }

    /// Price at which order `idx` would execute against quote `qi` now.
    fn execution_price_exec(&self, idx: usize, qi: usize) -> (r: Option<i128>)
        requires
            self.wf(),
            idx < self.orders@.len(),
            qi < self.market_data@.len(),
            self.orders@[idx as int].remaining_quantity > 0,
        ensures
            match execution_price(self.orders@[idx as int], self.market_data@[qi as int], self.config.slippage_bps as int) {
                Some(p) => r is Some && r->0 as int == p,
                None => r is None,
            },
    {
        let o = &self.orders[idx];
        let q = &self.market_data[qi];
        let base: i64 = match o.side {
            OrderSide::Buy => match q.ask {
                Some(a) => a,
                None => q.last_price,
            },
            OrderSide::Sell => match q.bid {
                Some(b) => b,
                None => q.last_price,
            },
        };
        let crosses: Option<i128> = match o.price {
            Some(l) => {
                let c = match o.side {
                    OrderSide::Buy => match q.ask {
                        Some(a) => a <= l,
                        None => q.last_price <= l,
                    },
                    OrderSide::Sell => match q.bid {
                        Some(b) => b >= l,
                        None => q.last_price >= l,
                    },
                };
                if c { Some(l as i128) } else { None }
            },
            None => None,
        };
        let triggered: bool = match o.stop_price {
            Some(s) => match o.side {
                OrderSide::Buy => q.last_price >= s,
                OrderSide::Sell => q.last_price <= s,
            },
            None => false,
        };
        match o.order_type {
            OrderType::Market => Some(self.apply_slippage(base, o.side, o.remaining_quantity)),
            OrderType::Limit => crosses,
            OrderType::Stop => if triggered {
                Some(self.apply_slippage(base, o.side, o.remaining_quantity))
            } else {
                None
            },
            OrderType::StopLimit => if triggered { crosses } else { None },
        }
    }
}

impl PaperBroker {
    /// Why an order waits while the market does not allow trading.
    fn closed_message(&self, now: i64) -> (r: String)
        ensures
            r@ == closed_text(self.market_calendar, now as int),
    {
        let info = self.market_calendar.get_session_info(now);
        match info.session {
            MarketSession::Closed => match info.holiday_name {
                Some(name) => {
                    let mut m = String::from_str("Order pending - Market closed for ");
                    m.append(name.as_str());
                    m
                },
                None => "Order pending - Market closed".to_owned(),
            },
            MarketSession::PreMarket => "Order pending - Pre-market trading disabled".to_owned(),
            MarketSession::AfterHours => "Order pending - After-hours trading disabled".to_owned(),
            MarketSession::Regular => "Order pending - Trading not allowed".to_owned(),
        }
    }

    fn pending_message(order_type: OrderType) -> String {
        match order_type {
            OrderType::Market => "Market order pending - no market data".to_owned(),
            OrderType::Limit => "Limit order pending".to_owned(),
            OrderType::Stop => "Stop order pending".to_owned(),
            OrderType::StopLimit => "Stop limit order pending".to_owned(),
        }
    }

    /// Tries to execute order `idx` at `now`. Nothing happens unless the
    /// calendar allows trading, the order can still fill, its symbol has a
    /// quote and the order executes against it (`execution_price`); then one
    /// fill of a quantity drawn by `determine_fill_quantity` is booked, unless
    /// it would leave the engine's limits.
    pub fn try_execute_order(&mut self, idx: usize, now: i64) -> (r: TradeExecution)
        requires
            old(self).wf(),
            idx < old(self).orders@.len(),
        ensures
            final(self).wf(),
            final(self).orders@ == old(self).orders@.update(idx as int, final(self).orders@[idx as int]),
            attempt(*old(self), old(self).orders@[idx as int], *final(self), final(self).orders@[idx as int], r, now as int),
    {
        let ghost pre = *self;
        let order_id = self.orders[idx].id.clone();
        let status = self.orders[idx].status;
        let mut fills: Vec<Fill> = Vec::new();
        if !self.market_calendar.is_trading_allowed(now) {
            let message = self.closed_message(now);
            return TradeExecution { order_id, fills, status, message };
        }
        if !self.orders[idx].can_fill() {
            let message = "Order cannot be filled".to_owned();
            return TradeExecution { order_id, fills, status, message };
        }
        let order_type = self.orders[idx].order_type;
        let qi = match find_quote(&self.market_data, &self.orders[idx].symbol) {
            Some(k) => k,
            None => {
                let message = PaperBroker::pending_message(order_type);
                return TradeExecution { order_id, fills, status, message };
            },
        };
        proof {
            lemma_quote_index(self.market_data@, self.orders@[idx as int].symbol@, qi as int);
        }
        let price = match self.execution_price_exec(idx, qi) {
            Some(p) => p,
            None => {
                let message = PaperBroker::pending_message(order_type);
                return TradeExecution { order_id, fills, status, message };
            },
        };
        proof {
            assert(self.orders@[idx as int].wf());
        }
        let remaining = self.orders[idx].remaining_quantity;
        if remaining > MAX_QTY {
            let message = "Order pending - amount out of range".to_owned();
            proof {
                let o = pre.orders@[idx as int];
                assert(price as int == execution_price(o, quote_for(pre.market_data@, o.symbol@)->0, pre.config.slippage_bps as int)->0);
                assert(!can_book(book(pre.positions@), pre.positions@.len() as int, pre.cash as int,
                    pre.orders@[idx as int].symbol@, pre.orders@[idx as int].side, remaining as int, price as int,
                    commission_of(pre.config, pre.orders@[idx as int].instrument_type, remaining as int)));
                assert(partial_floor(remaining as int, pre.config.min_partial_fill_ratio as int) <= remaining) by (nonlinear_arith)
                    requires remaining > 0, 0 <= pre.config.min_partial_fill_ratio <= PPM;
            }
            return TradeExecution { order_id, fills, status, message };
        }
        let qty = self.determine_fill_quantity(remaining);
        let instrument = self.orders[idx].instrument_type;
        let commission = self.calculate_commission(instrument, qty);
        let side = self.orders[idx].side;
        let symbol = self.orders[idx].symbol.clone();
        if !self.fill_bookable(&symbol, side, qty, price, commission) {
            let message = "Order pending - amount out of range".to_owned();
            proof {
                let o = pre.orders@[idx as int];
                assert(!can_book(book(pre.positions@), pre.positions@.len() as int, pre.cash as int,
                    o.symbol@, o.side, qty as int,
                    execution_price(o, quote_for(pre.market_data@, o.symbol@)->0, pre.config.slippage_bps as int)->0,
                    commission_of(pre.config, o.instrument_type, qty as int)));
            }
            return TradeExecution { order_id, fills, status, message };
        }
        let fill = Fill {
            id: new_id(&mut self.rng),
            order_id: order_id.clone(),
            symbol,
            side,
            quantity: qty,
            price: price as i64,
            timestamp: now,
            commission,
            instrument_type: instrument,
            option_details: self.orders[idx].option_details.clone(),
            leg_number: None,
        };
        let out = copy_fill(&fill);
        let ghost os = self.orders@;
        let mut order = self.orders.remove(idx);
        proof {
            assert forall|i: int| 0 <= i < self.orders@.len() implies (#[trigger] self.orders@[i]).wf() by {
                assert(self.orders@[i] == os[if i < idx { i } else { i + 1 }]);
            }
        }
        order.add_fill(fill, now);
        self.book_fill(&out, now);
        let status = order.status;
        self.orders.insert(idx, order);
        proof {
            assert(self.orders@ =~= os.update(idx as int, order));
            assert forall|i: int| 0 <= i < self.orders@.len() implies (#[trigger] self.orders@[i]).wf() by {
                if i != idx {
                    assert(self.orders@[i] == os[i]);
                }
            }
        }
        fills.push(out);
        proof {
            let f = fills@[0];
            let o = pre.orders@[idx as int];
            let po = self.orders@[idx as int];
            assert(f == out);
            assert(po.fills@.drop_last() =~= o.fills@);
            assert(po.updated_at == now);
            assert(self.trades@.last().order_id@ == o.id@);
            assert(self.trades@.last().timestamp == now);
            assert(self.risk_engine.metrics.daily_trades == counted(pre.risk_engine.metrics.daily_trades as int));
            assert(book(self.positions@) == book_after(book(pre.positions@), o.symbol@, o.side, f.quantity as int, f.price as int));
            assert(same_identity(po, o));
        }
        let message = match order_type {
            OrderType::Market | OrderType::Stop => "Market order executed".to_owned(),
            _ => "Limit order executed".to_owned(),
        };
        TradeExecution { order_id, fills, status, message }
    }
}

/// Cost of a buy as the buying-power check estimates it.
pub open spec fn estimated_cost(b: PaperBroker, req: OrderRequest) -> int {
    let est = estimated_price(req.order_type, req.side, req.price, req.stop_price, quote_for(b.market_data@, req.symbol@));
    est * req.quantity + commission_of(b.config, req.instrument_type, req.quantity as int)
}

/// Equity: cash plus the market value of the positions.
pub open spec fn equity_of(b: PaperBroker) -> int {
    b.cash + total_value(b.positions@)
}

/// The violations the risk engine reports for a request.
pub open spec fn request_violations(b: PaperBroker, req: OrderRequest, now: int) -> Seq<(RiskViolationType, int, int)> {
    risk_violations(
        b.risk_engine.limits,
        b.risk_engine.metrics,
        now,
        req,
        equity_of(b),
        held_qty(b.positions@, req.symbol@),
        Some(b.portfolio_greeks),
        estimated_price(req.order_type, req.side, req.price, req.stop_price, quote_for(b.market_data@, req.symbol@)),
    )
}

/// Which check, in the order they run, refuses a request.
pub open spec fn refusal(b: PaperBroker, req: OrderRequest, now: int) -> Option<int> {
    if req.spec_error() is Some {
        Some(0)
    } else if req.quantity > MAX_QTY {
        Some(1)
    } else if request_violations(b, req, now).len() > 0 {
        Some(2)
    } else if req.side == OrderSide::Buy && estimated_cost(b, req) > b.cash {
        Some(3)
    } else if req.side == OrderSide::Sell && req.quantity > (if held_qty(b.positions@, req.symbol@) > 0 {
        held_qty(b.positions@, req.symbol@)
    } else {
        0
    }) {
        Some(4)
    } else {
        None
    }
}

/// `mid` is `b` with quote `q` taken in: the quote replaces the symbol's
/// previous one, and the position in the symbol, if any, is revalued at its
/// last price; orders, cash, trades and the book are as they were.
pub open spec fn requoted(b: PaperBroker, mid: PaperBroker, q: MarketData) -> bool {
    &&& mid.wf()
    &&& quote_for(mid.market_data@, q.symbol@) == Some(q)
    &&& forall|s: Seq<char>| s != q.symbol@ ==> quote_for(mid.market_data@, s) == quote_for(b.market_data@, s)
    &&& mid.orders == b.orders
    &&& mid.cash == b.cash
    &&& mid.trades == b.trades
    &&& book(mid.positions@) == book(b.positions@)
    &&& mid.config == b.config
    &&& mid.market_calendar == b.market_calendar
    &&& mid.initial_cash == b.initial_cash
    &&& mid.day_start_equity == b.day_start_equity
    &&& mid.portfolio_greeks == b.portfolio_greeks
    &&& mid.risk_engine == b.risk_engine
    &&& (has_position(b.positions@, q.symbol@) ==> {
        let p = mid.positions@[position_index(mid.positions@, q.symbol@)];
        &&& has_position(mid.positions@, q.symbol@)
        &&& p.last_price == q.last_price
        &&& p.market_value == p.quantity * q.last_price
    })
}

/// `req` closes a holding of `held` in `sym`: a day market order on the
/// opposite side for the whole quantity.
pub open spec fn closing_request(req: OrderRequest, sym: Seq<char>, held: int) -> bool {
    &&& req.symbol@ == sym
    &&& req.side == (if held > 0 { OrderSide::Sell } else { OrderSide::Buy })
    &&& req.order_type == OrderType::Market
    &&& req.quantity == (if held < 0 { -held } else { held })
    &&& req.price is None
    &&& req.stop_price is None
    &&& req.time_in_force == TimeInForce::Day
    &&& req.instrument_type == InstrumentType::Stock
}

/// The kind of a custom holiday.
pub open spec fn holiday_kind(is_early_close: bool) -> crate::calendar::HolidayType {
    if is_early_close {
        crate::calendar::HolidayType::EarlyClose
    } else {
        crate::calendar::HolidayType::Full
    }
}

/// One step of the walk over open orders after a quote: order `j` is tried
/// (`attempt`) when it is on `sym` and can still fill; otherwise nothing changes.
pub open spec fn retry_step(a: PaperBroker, b: PaperBroker, j: int, sym: Seq<char>, now: int) -> bool {
    if a.orders@[j].symbol@ == sym && a.orders@[j].spec_can_fill() {
        &&& b.orders@ == a.orders@.update(j, b.orders@[j])
        &&& exists|r: TradeExecution| #[trigger] attempt(a, a.orders@[j], b, b.orders@[j], r, now)
    } else {
        b == a
    }
}

/// `b` is what walking all orders of `a` in index order (first to last),
/// trying each open order on `sym`, gives.
pub open spec fn retried(a: PaperBroker, b: PaperBroker, sym: Seq<char>, now: int) -> bool {
    exists|states: Seq<PaperBroker>|
        states.len() == a.orders@.len() + 1 && states[0] == a && states.last() == b && forall|j: int|
            0 <= j < a.orders@.len() ==> #[trigger] retry_step(states[j], states[j + 1], j, sym, now)
}

/// `o` is the order a request becomes when accepted at `now`, before any
/// attempt to execute it.
pub open spec fn fresh_order(o: Order, req: OrderRequest, now: int) -> bool {
    &&& o.wf()
    &&& o.symbol@ == req.symbol@
    &&& o.side == req.side
    &&& o.order_type == req.order_type
    &&& o.quantity == req.quantity
    &&& o.filled_quantity == 0
    &&& o.remaining_quantity == req.quantity
    &&& o.price == req.price
    &&& o.stop_price == req.stop_price
    &&& o.time_in_force == req.time_in_force
    &&& o.instrument_type == req.instrument_type
    &&& o.status == OrderStatus::Pending
    &&& o.created_at == now
    &&& o.updated_at == now
    &&& o.fills@.len() == 0
}

/// Placing `req` at `now` takes the broker from `b` to `f` with result `r`:
/// a refusal (by the first check that fails, see `refusal`) changes nothing;
/// otherwise a fresh order with a new id is appended and tried once
/// (`attempt`).
pub open spec fn placed(
    b: PaperBroker,
    req: OrderRequest,
    now: int,
    r: Result<TradeExecution, BrokerError>,
    f: PaperBroker,
) -> bool {
    &&& (r is Err ==> f == b)
    &&& (refusal(b, req, now) is None <==> r is Ok)
    &&& (refusal(b, req, now) == Some(0int) <==> r matches Err(BrokerError::Validation(_)))
    &&& (r matches Err(BrokerError::Validation(e)) ==> req.spec_error() == Some(e))
    &&& (refusal(b, req, now) == Some(1int) <==> r matches Err(BrokerError::QuantityTooLarge))
    &&& (refusal(b, req, now) == Some(2int) <==> r matches Err(BrokerError::RiskRejected(_)))
    &&& (r matches Err(BrokerError::RiskRejected(vs)) ==> crate::risk::entries(vs@) == request_violations(b, req, now))
    &&& (refusal(b, req, now) == Some(3int) <==> r matches Err(BrokerError::InsufficientBuyingPower))
    &&& (refusal(b, req, now) == Some(4int) <==> r matches Err(BrokerError::InsufficientShares))
    &&& (r matches Ok(ex) ==> {
        let o = f.orders@.last();
        &&& f.orders@.len() == b.orders@.len() + 1
        &&& f.orders@.drop_last() == b.orders@
        &&& forall|j: int| 0 <= j < b.orders@.len() ==> (#[trigger] b.orders@[j]).id@ != o.id@
        &&& exists|o0: Order| fresh_order(o0, req, now) && #[trigger] attempt(b, o0, f, o, ex, now)
    })
}

impl PaperBroker {
    /// An order id not used by any order: a fresh random one, or, should it
    /// collide, one longer than every id in use.
    fn fresh_order_id(&mut self) -> (r: String)
        requires
            old(self).wf(),
        ensures
            forall|j: int| 0 <= j < final(self).orders@.len() ==> (#[trigger] final(self).orders@[j]).id@ != r@,
            *final(self) == (PaperBroker { rng: final(self).rng, ..*old(self) }),
    {
        let id = new_id(&mut self.rng);
        match self.find_order(&id) {
            None => {
                return id;
            },
            Some(_) => {},
        }
        let mut longest: usize = self.orders[0].id.as_str().unicode_len();
        let mut pick: usize = 0;
        let mut i: usize = 1;
        while i < self.orders.len()
            invariant
                i <= self.orders@.len(),
                pick < self.orders@.len(),
                longest == self.orders@[pick as int].id@.len(),
                forall|j: int| 0 <= j < i ==> (#[trigger] self.orders@[j]).id@.len() <= longest,
            decreases self.orders@.len() - i,
        {
            let n = self.orders[i].id.as_str().unicode_len();
            if n > longest {
                longest = n;
                pick = i;
            }
            i = i + 1;
        }
        let mut out = self.orders[pick].id.clone();
        out.append("-1");
        proof {
            reveal_strlit("-1");
            assert forall|j: int| 0 <= j < self.orders@.len() implies (#[trigger] self.orders@[j]).id@ != out@ by {
                assert(self.orders@[j].id@.len() <= longest);
                assert(out@.len() == longest + 2);
            }
        }
        out
    }

    /// Index of the first order with id `id`, if any.
    fn find_order(&self, id: &String) -> (r: Option<usize>)
        ensures
            match r {
                Some(k) => k < self.orders@.len() && self.orders@[k as int].id@ == id@,
                None => forall|j: int| 0 <= j < self.orders@.len() ==> (#[trigger] self.orders@[j]).id@ != id@,
            },
    {
        let mut i: usize = 0;
        while i < self.orders.len()
            invariant
                i <= self.orders@.len(),
                forall|j: int| 0 <= j < i ==> (#[trigger] self.orders@[j]).id@ != id@,
            decreases self.orders@.len() - i,
        {
            if self.orders[i].id == *id {
                return Some(i);
            }
            i = i + 1;
        }
        None
    }

    /// Estimated cost of a buy: the sizing price times the quantity plus the
    /// commission.
    pub fn estimate_order_cost(&self, request: &OrderRequest) -> (r: i128)
        requires
            self.wf(),
            0 < request.quantity <= MAX_QTY,
        ensures
            r == estimated_cost(*self, *request),
    {
        let quote = match find_quote(&self.market_data, &request.symbol) {
            Some(k) => {
                proof {
                    lemma_quote_index(self.market_data@, request.symbol@, k as int);
                }
                Some(&self.market_data[k])
            },
            None => None,
        };
        let est = estimate_price(request, quote);
        proof {
            lemma_mul_bounded(est as int, request.quantity as int, 0x8000_0000_0000_0000, MAX_QTY as int);
        }
        let commission = self.calculate_commission(request.instrument_type, request.quantity);
        (est as i128) * (request.quantity as i128) + commission as i128
    }

    /// Places an order at `now`. It is refused, with nothing changed, when it
    /// is invalid, too large for the engine, rejected by the risk engine, a buy
    /// whose estimated cost exceeds cash, or a sell of more than is held.
    /// Otherwise it is recorded with a fresh id and tried at once.
    pub fn place_order_at(&mut self, request: OrderRequest, now: i64) -> (r: Result<TradeExecution, BrokerError>)
        requires
            old(self).wf(),
        ensures
            final(self).wf(),
            placed(*old(self), request, now as int, r, *final(self)),
    {
        match request.validate() {
            Err(e) => {
                return Err(BrokerError::Validation(e));
            },
            Ok(()) => {},
        }
        if request.quantity > MAX_QTY {
            return Err(BrokerError::QuantityTooLarge);
        }
        let (mv, _pnl) = self.position_totals();
        let equity = self.cash + mv;
        let quote = match find_quote(&self.market_data, &request.symbol) {
            Some(k) => {
                proof {
                    lemma_quote_index(self.market_data@, request.symbol@, k as int);
                }
                Some(&self.market_data[k])
            },
            None => None,
        };
        let check = self.risk_engine.check_order_risk(
            &request,
            equity,
            &self.positions,
            Some(&self.portfolio_greeks),
            quote,
            now,
        );
        if !check.allowed {
            return Err(BrokerError::RiskRejected(check.violations));
        }
        match request.side {
            OrderSide::Buy => {
                let cost = self.estimate_order_cost(&request);
                if cost > self.cash {
                    return Err(BrokerError::InsufficientBuyingPower);
                }
            },
            OrderSide::Sell => {
                let held: i64 = match find_position(&self.positions, &request.symbol) {
                    Some(k) => {
                        proof {
                            lemma_position_index(self.positions@, request.symbol@, k as int);
                        }
                        self.positions[k].quantity
                    },
                    None => 0,
                };
                let available: i64 = if held > 0 { held } else { 0 };
                if request.quantity > available {
                    return Err(BrokerError::InsufficientShares);
                }
            },
        }
        let ghost pre = *self;
        let ghost req = request;
        let id = self.fresh_order_id();
        let order = Order::new(request, id, now);
        let ghost os = self.orders@;
        self.orders.push(order);
        proof {
            assert forall|i: int| 0 <= i < self.orders@.len() implies (#[trigger] self.orders@[i]).wf() by {
                if i < os.len() {
                    assert(self.orders@[i] == os[i]);
                }
            }
            lemma_ids_push(os, order);
            assert(fresh_order(order, req, now as int));
        }
        let idx = self.orders.len() - 1;
        let execution = self.try_execute_order(idx, now);
        proof {
            assert(self.orders@.drop_last() =~= pre.orders@);
            assert(attempt(pre, order, *self, self.orders@.last(), execution, now as int));
            assert forall|j: int| 0 <= j < pre.orders@.len() implies (#[trigger] pre.orders@[j]).id@ != self.orders@.last().id@ by {
                assert(self.orders@.last().id == order.id);
            }
        }
        Ok(execution)
    }

    /// Places an order at the current time.
    pub fn place_order(&mut self, request: OrderRequest) -> (r: Result<TradeExecution, BrokerError>)
        requires
            old(self).wf(),
        ensures
            final(self).wf(),
            exists|t: i64| #[trigger] placed(*old(self), request, t as int, r, *final(self)),
            r is Err ==> *final(self) == *old(self),
            request.spec_error() is Some <==> r matches Err(BrokerError::Validation(_)),
            (forall|t: i64| #[trigger] refusal(*old(self), request, t as int) is None) ==> r is Ok,
            r is Ok ==> final(self).orders@.len() == old(self).orders@.len() + 1,
    {
        let now = now_seconds();
        let r = self.place_order_at(request, now);
        proof {
            assert(placed(*old(self), request, now as int, r, *self));
            assert(refusal(*old(self), request, now as int) is None ==> r is Ok);
        }
        r
    }
}

impl PaperBroker {
    /// A broker with the given cash, execution policy and risk limits; the
    /// day-start equity is the initial cash; the random source is seeded with
    /// `seed`.
    pub fn with_limits(initial_cash: i128, config: BrokerConfig, limits: RiskLimits, seed: u64, now: i64) -> (r: PaperBroker)
        requires
            0 <= initial_cash <= MAX_CASH,
            config.wf(),
            limits.wf(),
        ensures
            r.wf(),
            r.cash == initial_cash,
            r.initial_cash == initial_cash,
            r.day_start_equity == initial_cash,
            r.positions@.len() == 0,
            r.orders@.len() == 0,
            r.trades@.len() == 0,
            r.market_data@.len() == 0,
            r.config == config,
            r.risk_engine.limits == limits,
            r.risk_engine.reference_equity == initial_cash,
    {
        let b = PaperBroker {
            cash: initial_cash,
            positions: Vec::new(),
            orders: Vec::new(),
            trades: Vec::new(),
            market_data: Vec::new(),
            config,
            day_start_equity: initial_cash,
            initial_cash,
            created_at: now,
            risk_engine: RiskEngine::new(limits, initial_cash, now),
            portfolio_greeks: PortfolioGreeks::zero(),
            auto_save_enabled: true,
            last_saved_at: now,
            market_calendar: MarketCalendar::default(),
            rng: seeded_rng(seed),
        };
        assert(book(b.positions@) =~= replay_book(b.trades@));
        b
    }

    /// A broker with the given cash and execution policy and default limits.
    pub fn with_config(initial_cash: i128, config: BrokerConfig, seed: u64, now: i64) -> (r: PaperBroker)
        requires
            0 <= initial_cash <= MAX_CASH,
            config.wf(),
        ensures
            r.wf(),
            r.cash == initial_cash,
            r.initial_cash == initial_cash,
            r.day_start_equity == initial_cash,
            r.positions@.len() == 0,
            r.orders@.len() == 0,
            r.trades@.len() == 0,
            r.market_data@.len() == 0,
            r.config == config,
            r.risk_engine.limits == RiskLimits::default_spec(),
    {
        PaperBroker::with_limits(initial_cash, config, RiskLimits::default(), seed, now)
    }

    /// A broker with the given cash, the default policy and default limits.
    pub fn new(initial_cash: i128, seed: u64, now: i64) -> (r: PaperBroker)
        requires
            0 <= initial_cash <= MAX_CASH,
        ensures
            r.wf(),
            r.cash == initial_cash,
            r.initial_cash == initial_cash,
            r.day_start_equity == initial_cash,
            r.positions@.len() == 0,
            r.orders@.len() == 0,
            r.trades@.len() == 0,
            r.market_data@.len() == 0,
            r.config == BrokerConfig::default_spec(),
            r.risk_engine.limits == RiskLimits::default_spec(),
    {
        PaperBroker::with_config(initial_cash, BrokerConfig::default(), seed, now)
    }

    /// Cancels an open order.
    pub fn cancel_order(&mut self, order_id: &str, now: i64) -> (r: Result<(), BrokerError>)
        requires
            old(self).wf(),
        ensures
            final(self).wf(),
            r is Err ==> *final(self) == *old(self),
            (forall|j: int| 0 <= j < old(self).orders@.len() ==> (#[trigger] old(self).orders@[j]).id@ != order_id@)
                <==> r matches Err(BrokerError::OrderNotFound),
            r matches Ok(_) ==> exists|k: int|
                0 <= k < old(self).orders@.len() && old(self).orders@[k].id@ == order_id@
                    && !crate::types::is_terminal(old(self).orders@[k].status)
                    && final(self).orders@ == old(self).orders@.update(k, (Order {
                        status: OrderStatus::Canceled,
                        updated_at: now,
                        ..old(self).orders@[k]
                    })),
            r matches Err(BrokerError::OrderCompleted) ==> exists|k: int|
                0 <= k < old(self).orders@.len() && old(self).orders@[k].id@ == order_id@
                    && crate::types::is_terminal(old(self).orders@[k].status),
            r is Ok || r matches Err(BrokerError::OrderNotFound) || r matches Err(BrokerError::OrderCompleted),
            final(self).initial_cash == old(self).initial_cash,
            final(self).day_start_equity == old(self).day_start_equity,
            final(self).cash == old(self).cash,
            final(self).positions == old(self).positions,
            final(self).trades == old(self).trades,
    {
        let key = order_id.to_owned();
        let k = match self.find_order(&key) {
            Some(k) => k,
            None => {
                return Err(BrokerError::OrderNotFound);
            },
        };
        if self.orders[k].is_complete() {
            return Err(BrokerError::OrderCompleted);
        }
        let ghost os = self.orders@;
        let mut order = self.orders.remove(k);
        order.status = OrderStatus::Canceled;
        order.updated_at = now;
        self.orders.insert(k, order);
        proof {
            assert(self.orders@ =~= os.update(k as int, order));
            assert forall|i: int| 0 <= i < self.orders@.len() implies (#[trigger] self.orders@[i]).wf() by {
                if i != k {
                    assert(self.orders@[i] == os[i]);
                }
            }
        }
        Ok(())
    }

    /// Retries, in insertion order, every open order on `symbol` that can
    /// still fill.
    pub fn process_pending_orders(&mut self, symbol: &str, now: i64)
        requires
            old(self).wf(),
        ensures
            final(self).wf(),
            retried(*old(self), *final(self), symbol@, now as int),
            final(self).orders@.len() == old(self).orders@.len(),
            forall|j: int|
                0 <= j < old(self).orders@.len() && (old(self).orders@[j].symbol@ != symbol@
                    || !old(self).orders@[j].spec_can_fill()) ==> #[trigger] final(self).orders@[j]
                    == old(self).orders@[j],
            final(self).market_data == old(self).market_data,
            final(self).config == old(self).config,
            final(self).initial_cash == old(self).initial_cash,
            final(self).day_start_equity == old(self).day_start_equity,
            final(self).market_calendar == old(self).market_calendar,
            final(self).portfolio_greeks == old(self).portfolio_greeks,
    {
        let ghost start = *self;
        let ghost sym = symbol@;
        let symbol = symbol.to_owned();
        let n = self.orders.len();
        let mut i: usize = 0;
        let ghost mut states: Seq<PaperBroker> = seq![*self];
        while i < n
            invariant
                self.wf(),
                n == self.orders@.len(),
                n == start.orders@.len(),
                i <= n,
                symbol@ == sym,
                states.len() == i + 1,
                states[0] == start,
                states.last() == *self,
                forall|j: int| 0 <= j < i ==> #[trigger] retry_step(states[j], states[j + 1], j, sym, now as int),
                forall|j: int|
                    0 <= j < n && (j >= i || start.orders@[j].symbol@ != sym || !start.orders@[j].spec_can_fill())
                        ==> #[trigger] self.orders@[j] == start.orders@[j],
                self.market_data == start.market_data,
                self.config == start.config,
                self.initial_cash == start.initial_cash,
                self.day_start_equity == start.day_start_equity,
                self.market_calendar == start.market_calendar,
                self.portfolio_greeks == start.portfolio_greeks,
            decreases n - i,
        {
            let ghost before = *self;
            if self.orders[i].symbol == symbol && self.orders[i].can_fill() {
                let r = self.try_execute_order(i, now);
                proof {
                    assert(attempt(before, before.orders@[i as int], *self, self.orders@[i as int], r, now as int));
                    assert(retry_step(before, *self, i as int, sym, now as int));
                    assert forall|j: int|
                        0 <= j < n && (j >= i + 1 || start.orders@[j].symbol@ != sym || !start.orders@[j].spec_can_fill())
                            implies #[trigger] self.orders@[j] == start.orders@[j] by {
                        if j != i {
                            assert(self.orders@[j] == before.orders@[j]);
                        }
                    }
                }
            } else {
                proof {
                    assert(retry_step(before, *self, i as int, sym, now as int));
                }
            }
            proof {
                let old_states = states;
                states = states.push(*self);
                assert forall|j: int| 0 <= j < i + 1 implies #[trigger] retry_step(states[j], states[j + 1], j, sym, now as int) by {
                    if j < i {
                        assert(states[j] == old_states[j]);
                        assert(states[j + 1] == old_states[j + 1]);
                    }
                }
            }
            i = i + 1;
        }
        proof {
            assert(states.len() == start.orders@.len() + 1);
        }
    }

    /// Takes in a quote: it replaces the symbol's previous quote, revalues the
    /// position in the symbol at the last price, and retries the symbol's open
    /// orders. A quote whose last price is not positive or exceeds the largest
    /// supported price is ignored (the result is `false`).
    pub fn update_market_data(&mut self, data: MarketData, now: i64) -> (r: bool)
        requires
            old(self).wf(),
        ensures
            final(self).wf(),
            r == (0 < data.last_price <= MAX_PRICE),
            !r ==> *final(self) == *old(self),
            r ==> quote_for(final(self).market_data@, data.symbol@) == Some(data),
            r ==> forall|s: Seq<char>| s != data.symbol@ ==> quote_for(final(self).market_data@, s) == quote_for(old(self).market_data@, s),
            final(self).orders@.len() == old(self).orders@.len(),
            final(self).initial_cash == old(self).initial_cash,
            final(self).day_start_equity == old(self).day_start_equity,
            r ==> exists|mid: PaperBroker| #[trigger] requoted(*old(self), mid, data) && retried(mid, *final(self), data.symbol@, now as int),
    {
        if data.last_price <= 0 || data.last_price > MAX_PRICE {
            return false;
        }
        let symbol = data.symbol.clone();
        let price = data.last_price;
        let ghost qs = self.market_data@;
        let ghost sym = data.symbol@;
        let ghost mut at: int = 0;
        match find_quote(&self.market_data, &symbol) {
            Some(k) => {
                self.market_data.remove(k);
                self.market_data.insert(k, data);
                proof {
                    assert(self.market_data@ =~= qs.update(k as int, data));
                    at = k as int;
                }
            },
            None => {
                self.market_data.push(data);
                proof {
                    at = qs.len() as int;
                }
            },
        }
        proof {
            let qs2 = self.market_data@;
            assert forall|i: int, j: int| 0 <= i < qs2.len() && 0 <= j < qs2.len() && i != j implies #[trigger] qs2[i].symbol@
                != #[trigger] qs2[j].symbol@ by {
                if i == at {
                    if j < qs.len() {
                        assert(qs2[j] == qs[j]);
                    }
                } else if j == at {
                    if i < qs.len() {
                        assert(qs2[i] == qs[i]);
                    }
                } else {
                    assert(qs2[i] == qs[i]);
                    assert(qs2[j] == qs[j]);
                }
            }
            lemma_quote_index(qs2, sym, at);
            assert forall|s: Seq<char>| s != sym implies quote_for(qs2, s) == quote_for(qs, s) by {
                if has_quote(qs, s) {
                    let i = choose|i: int| 0 <= i < qs.len() && #[trigger] qs[i].symbol@ == s;
                    assert(i != at);
                    assert(qs2[i] == qs[i]);
                    lemma_quote_index(qs, s, i);
                    lemma_quote_index(qs2, s, i);
                }
                if has_quote(qs2, s) {
                    let i = choose|i: int| 0 <= i < qs2.len() && #[trigger] qs2[i].symbol@ == s;
                    assert(i != at);
                    assert(i < qs.len() && qs2[i] == qs[i]);
                }
            }
        }
        match find_position(&self.positions, &symbol) {
            Some(k) => {
                let ghost ps0 = self.positions@;
                let mut p = self.positions.remove(k);
                proof {
                    assert(p.wf());
                }
                p.update_market_data(price, now);
                self.positions.insert(k, p);
                proof {
                    assert(self.positions@ =~= ps0.update(k as int, p));
                    lemma_book_update(ps0, k as int, p);
                    assert(model(p) == model(ps0[k as int]));
                    lemma_position_index(ps0, sym, k as int);
                    assert(book(self.positions@) =~= book(ps0));
                    lemma_position_index(self.positions@, sym, k as int);
                    assert(self.positions@[k as int] == p);
                    assert forall|i: int| 0 <= i < self.positions@.len() implies (#[trigger] self.positions@[i]).wf()
                        && self.positions@[i].quantity != 0 by {
                        if i != k {
                            assert(self.positions@[i] == ps0[i]);
                        }
                    }
                }
            },
            None => {},
        }
        let ghost mid = *self;
        proof {
            assert(requoted(*old(self), mid, data));
        }
        self.process_pending_orders(symbol.as_str(), now);
        true
    }
}

impl PaperBroker {
    /// Closes a position with a market order on the opposite side for its
    /// whole quantity, placed like any other order.
    pub fn close_position(&mut self, symbol: &str, now: i64) -> (r: Result<TradeExecution, BrokerError>)
        requires
            old(self).wf(),
        ensures
            final(self).wf(),
            r is Err ==> *final(self) == *old(self),
            !has_position(old(self).positions@, symbol@) <==> r matches Err(BrokerError::PositionNotFound),
            has_position(old(self).positions@, symbol@) ==> exists|req: OrderRequest|
                closing_request(req, symbol@, held_qty(old(self).positions@, symbol@)) && #[trigger] placed(
                    *old(self),
                    req,
                    now as int,
                    r,
                    *final(self),
                ),
            final(self).initial_cash == old(self).initial_cash,
            final(self).day_start_equity == old(self).day_start_equity,
            r is Ok ==> {
                let held = held_qty(old(self).positions@, symbol@);
                let o = final(self).orders@.last();
                &&& final(self).orders@.len() == old(self).orders@.len() + 1
                &&& o.symbol@ == symbol@
                &&& o.order_type == OrderType::Market
                &&& o.side == (if held > 0 { OrderSide::Sell } else { OrderSide::Buy })
                &&& o.quantity == (if held < 0 { -held } else { held })
            },
    {
        let key = symbol.to_owned();
        let k = match find_position(&self.positions, &key) {
            Some(k) => k,
            None => {
                return Err(BrokerError::PositionNotFound);
            },
        };
        let qty = self.positions[k].quantity;
        if qty == 0 {
            return Err(BrokerError::NoPosition);
        }
        proof {
            assert(self.positions@[k as int].wf());
            lemma_position_index(self.positions@, symbol@, k as int);
        }
        let side = if qty > 0 { OrderSide::Sell } else { OrderSide::Buy };
        let request = OrderRequest {
            symbol: key,
            side,
            order_type: OrderType::Market,
            quantity: if qty < 0 { -qty } else { qty },
            price: None,
            stop_price: None,
            time_in_force: TimeInForce::Day,
            client_order_id: None,
            instrument_type: InstrumentType::Stock,
            option_details: None,
        };
        let ghost req = request;
        let r = self.place_order_at(request, now);
        proof {
            assert(closing_request(req, symbol@, held_qty(old(self).positions@, symbol@)));
            assert(placed(*old(self), req, now as int, r, *self));
        }
        r
    }

    /// Cash, equity (cash plus market value), day P&L against the day-start
    /// equity, and total P&L of the positions.
    pub fn get_portfolio(&self, now: i64) -> (r: Portfolio)
        requires
            self.wf(),
        ensures
            r.cash == self.cash,
            r.equity == equity_of(*self),
            r.buying_power == self.cash,
            r.day_pnl == equity_of(*self) - self.day_start_equity,
            r.total_pnl == total_pnl(self.positions@),
            r.updated_at == now,
            r.positions@ == self.positions@,
    {
        let (mv, pnl) = self.position_totals();
        let equity = self.cash + mv;
        let day_pnl: i128 = equity - self.day_start_equity;
        Portfolio {
            cash: self.cash,
            equity,
            buying_power: self.cash,
            positions: copy_positions(&self.positions),
            day_pnl,
            total_pnl: pnl,
            updated_at: now,
        }
    }

    /// The position in `symbol`, if any.
    pub fn get_position(&self, symbol: &str) -> (r: Option<&Position>)
        ensures
            match r {
                Some(p) => has_position(self.positions@, symbol@) && p.symbol@ == symbol@,
                None => !has_position(self.positions@, symbol@),
            },
    {
        let key = symbol.to_owned();
        match find_position(&self.positions, &key) {
            Some(k) => Some(&self.positions[k]),
            None => None,
        }
    }

    /// The first order with the given id, if any.
    pub fn get_order(&self, order_id: &str) -> (r: Option<&Order>)
        ensures
            match r {
                Some(o) => o.id@ == order_id@,
                None => forall|j: int| 0 <= j < self.orders@.len() ==> (#[trigger] self.orders@[j]).id@ != order_id@,
            },
    {
        let key = order_id.to_owned();
        match self.find_order(&key) {
            Some(k) => Some(&self.orders[k]),
            None => None,
        }
    }

    pub fn get_trades(&self) -> (r: &Vec<Trade>)
        ensures
            r@ == self.trades@,
    {
        &self.trades
    }

    pub fn get_orders(&self) -> (r: &Vec<Order>)
        ensures
            r@ == self.orders@,
    {
        &self.orders
    }

    pub fn get_risk_status(&self) -> (r: crate::risk::RiskMetrics)
        ensures
            r == self.risk_engine.metrics,
    {
        self.risk_engine.get_risk_status()
    }

    pub fn get_risk_violations(&self, now: i64) -> (r: Vec<String>)
        requires
            self.wf(),
        ensures
            r@.map_values(|l: String| l@) == crate::risk::summary_lines(self.risk_engine.limits, self.risk_engine.metrics, now as int),
    {
        self.risk_engine.get_violations_summary(now)
    }

    /// Records portfolio sensitivities computed outside the broker; the risk
    /// engine checks option orders against them.
    pub fn update_greeks(&mut self, greeks: PortfolioGreeks)
        requires
            old(self).wf(),
        ensures
            final(self).wf(),
            final(self).portfolio_greeks == greeks,
            final(self).cash == old(self).cash,
            final(self).positions == old(self).positions,
            final(self).orders == old(self).orders,
            final(self).trades == old(self).trades,
    {
        self.portfolio_greeks = greeks;
    }

    /// Feeds the day's P&L and the sensitivities to the risk engine.
    pub fn update_risk_metrics(&mut self, now: i64)
        requires
            old(self).wf(),
        ensures
            final(self).wf(),
            final(self).risk_engine.metrics.daily_pnl == equity_of(*old(self)) - old(self).day_start_equity,
            final(self).cash == old(self).cash,
            final(self).positions == old(self).positions,
            final(self).orders == old(self).orders,
            final(self).trades == old(self).trades,
    {
        let (mv, _pnl) = self.position_totals();
        let day_pnl = self.cash + mv - self.day_start_equity;
        let greeks = self.portfolio_greeks;
        self.risk_engine.update_daily_metrics(day_pnl, Some(&greeks), now);
    }

    pub fn set_auto_save(&mut self, enabled: bool)
        ensures
            *final(self) == (PaperBroker { auto_save_enabled: enabled, ..*old(self) }),
    {
        self.auto_save_enabled = enabled;
    }

    pub fn configure_extended_hours(&mut self, premarket: bool, afterhours: bool)
        ensures
            final(self).market_calendar == (MarketCalendar {
                allow_premarket: premarket,
                allow_afterhours: afterhours,
                ..old(self).market_calendar
            }),
            final(self).cash == old(self).cash,
            final(self).positions == old(self).positions,
            final(self).orders == old(self).orders,
            final(self).trades == old(self).trades,
    {
        self.market_calendar.allow_premarket = premarket;
        self.market_calendar.allow_afterhours = afterhours;
    }

    pub fn set_holiday_trading(&mut self, enabled: bool)
        ensures
            final(self).market_calendar == (MarketCalendar {
                allow_holiday_trading: enabled,
                ..old(self).market_calendar
            }),
            final(self).cash == old(self).cash,
            final(self).positions == old(self).positions,
            final(self).orders == old(self).orders,
            final(self).trades == old(self).trades,
    {
        self.market_calendar.allow_holiday_trading = enabled;
    }

    pub fn get_current_session(&self, now: i64) -> (r: crate::calendar::TradingSession)
        ensures
            r.session == crate::calendar::session_at(self.market_calendar, now as int),
    {
        self.market_calendar.get_session_info(now)
    }

    pub fn is_market_open(&self, now: i64) -> (r: bool)
        ensures
            r == trading_allowed(self.market_calendar, now as int),
    {
        self.market_calendar.is_trading_allowed(now)
    }

    pub fn get_next_session_start(&self, now: i64) -> (r: Option<i64>)
        ensures
            match r {
                Some(t) => crate::calendar::next_start_search(self.market_calendar, now as int, 1) == Some(t as int),
                None => crate::calendar::next_start_search(self.market_calendar, now as int, 1) is None,
            },
    {
        self.market_calendar.get_next_session_start(now)
    }

    /// Adds a holiday (day numbered from 1970-01-01), full or early-close.
    pub fn add_custom_holiday(&mut self, day: i64, name: String, is_early_close: bool)
        requires
            old(self).wf(),
        ensures
            final(self).wf(),
            exists|k: int|
                0 <= k <= old(self).market_calendar.holidays@.len() && final(self).market_calendar.holidays@
                    == #[trigger] old(self).market_calendar.holidays@.insert(
                    k,
                    crate::calendar::MarketHoliday {
                        date: day,
                        name,
                        holiday_type: holiday_kind(is_early_close),
                    },
                ),
            final(self).market_calendar.allow_premarket == old(self).market_calendar.allow_premarket,
            final(self).market_calendar.allow_afterhours == old(self).market_calendar.allow_afterhours,
            final(self).market_calendar.allow_holiday_trading == old(self).market_calendar.allow_holiday_trading,
            final(self).initial_cash == old(self).initial_cash,
            final(self).cash == old(self).cash,
            final(self).positions == old(self).positions,
            final(self).orders == old(self).orders,
            final(self).trades == old(self).trades,
    {
        let kind = if is_early_close {
            crate::calendar::HolidayType::EarlyClose
        } else {
            crate::calendar::HolidayType::Full
        };
        self.market_calendar.add_holiday(day, name, kind);
    }
}

/// Whether a list of trades can be replayed from `cash` within the engine's
/// limits, each trade well formed.
pub open spec fn replayable(cash: int, ts: Seq<Trade>) -> bool
    decreases ts.len(),
{
    if ts.len() == 0 {
        true
    } else {
        let prev = ts.drop_last();
        let t = ts.last();
        replayable(cash, prev) && t.wf() && can_book(
            replay_book(prev),
            replay_book(prev).dom().len() as int,
            cash + sum_net(prev),
            t.symbol@,
            t.side,
            t.quantity as int,
            t.price as int,
            t.commission as int,
        )
    }
}

/// A replayable journal has replayable prefixes.
pub proof fn lemma_replayable_prefix(cash: int, ts: Seq<Trade>, k: int)
    requires
        replayable(cash, ts),
        0 <= k <= ts.len(),
    ensures
        replayable(cash, ts.subrange(0, k)),
    decreases ts.len(),
{
    if k == ts.len() {
        assert(ts.subrange(0, k) =~= ts);
    } else {
        lemma_replayable_prefix(cash, ts.drop_last(), k);
        assert(ts.drop_last().subrange(0, k) =~= ts.subrange(0, k));
    }
}

/// The book has one entry per position.
pub proof fn lemma_book_size(ps: Seq<Position>)
    requires
        unique_symbols(ps),
    ensures
        book(ps).dom().len() == ps.len(),
        book(ps).dom().finite(),
    decreases ps.len(),
{
    if ps.len() == 0 {
        assert(book(ps).dom() =~= Set::<Seq<char>>::empty());
    } else {
        let prev = ps.drop_last();
        let p = ps.last();
        assert forall|i: int, j: int| 0 <= i < prev.len() && 0 <= j < prev.len() && i != j implies #[trigger] prev[i].symbol@
            != #[trigger] prev[j].symbol@ by {
            assert(prev[i] == ps[i] && prev[j] == ps[j]);
        }
        lemma_book_size(prev);
        assert(!has_position(prev, p.symbol@)) by {
            if has_position(prev, p.symbol@) {
                let i = choose|i: int| 0 <= i < prev.len() && #[trigger] prev[i].symbol@ == p.symbol@;
                assert(ps[i].symbol@ == ps[ps.len() - 1].symbol@);
            }
        }
        assert(prev.push(p) =~= ps);
        lemma_book_push(prev, p);
        assert(book(ps).dom() =~= book(prev).dom().insert(p.symbol@));
    }
}

impl PaperBroker {
    /// Rebuilds a broker from its initial cash and its trade journal: each
    /// trade is applied in order to an empty state. Fails with the index of
    /// the first trade that is malformed or cannot be booked.
    pub fn restore(
        initial_cash: i128,
        config: BrokerConfig,
        limits: RiskLimits,
        trades: Vec<Trade>,
        seed: u64,
        now: i64,
    ) -> (r: Result<PaperBroker, usize>)
        requires
            0 <= initial_cash <= MAX_CASH,
            config.wf(),
            limits.wf(),
        ensures
            r is Ok <==> replayable(initial_cash as int, trades@),
            r matches Ok(b) ==> {
                &&& b.wf()
                &&& b.initial_cash == initial_cash
                &&& b.trades@ == trades@
                &&& b.cash == initial_cash + sum_net(trades@)
                &&& book(b.positions@) == replay_book(trades@)
                &&& b.orders@.len() == 0
            },
    {
        let mut b = PaperBroker::with_limits(initial_cash, config, limits, seed, now);
        let n = trades.len();
        let mut i: usize = 0;
        let mut rest = trades;
        let ghost all = rest@;
        assert(rest@ =~= all.subrange(0, n as int));
        assert(b.trades@ =~= all.subrange(0, 0));
        while i < n
            invariant
                n == all.len(),
                all == trades@,
                i <= n,
                b.wf(),
                b.initial_cash == initial_cash,
                b.trades@ == all.subrange(0, i as int),
                b.orders@.len() == 0,
                replayable(initial_cash as int, all.subrange(0, i as int)),
                rest@ == all.subrange(i as int, n as int),
            decreases n - i,
        {
            let t = rest.remove(0);
            assert(t == all[i as int]);
            assert(rest@ =~= all.subrange(i as int + 1, n as int));
            let ghost sub = all.subrange(0, i as int + 1);
            assert(sub.drop_last() =~= all.subrange(0, i as int));
            assert(sub.last() == t);
            proof {
                lemma_book_size(b.positions@);
            }
            if !t.is_consistent() {
                proof {
                    assert(!replayable(initial_cash as int, sub));
                    if replayable(initial_cash as int, all) {
                        lemma_replayable_prefix(initial_cash as int, all, i as int + 1);
                    }
                    assert(!replayable(initial_cash as int, all));
                    assert(all == trades@);
                }
                return Err(i);
            }
            if !b.fill_bookable(&t.symbol, t.side, t.quantity, t.price as i128, t.commission) {
                proof {
                    assert(!replayable(initial_cash as int, sub));
                    if replayable(initial_cash as int, all) {
                        lemma_replayable_prefix(initial_cash as int, all, i as int + 1);
                    }
                    assert(!replayable(initial_cash as int, all));
                    assert(all == trades@);
                }
                return Err(i);
            }
            b.apply_trade(t, now);
            assert(b.trades@ =~= sub);
            i = i + 1;
        }
        assert(all.subrange(0, n as int) =~= all);
        Ok(b)
    }
}

impl PaperBroker {
    /// Mark-to-market valuation of the account at mid prices (see
    /// `calculate_portfolio_values`).
    pub fn get_mtm_values(&self) -> (r: crate::mtm::MtMValues)
        requires
            self.wf(),
        ensures
            ({
                let m = crate::mtm::marked(self.positions@, self.market_data@);
                &&& r.cash == self.cash
                &&& r.stock_value == m.0
                &&& r.option_value == m.1
                &&& r.total_equity == self.cash + m.0 + m.1
                &&& r.day_pnl == self.cash + m.0 + m.1 - self.day_start_equity
            }),
    {
        crate::mtm::calculate_portfolio_values(&self.positions, &self.market_data, self.day_start_equity, self.cash)
    }
}

impl PaperBroker {
    /// Re-admits an order kept in a snapshot. An order whose quantities and
    /// status disagree, or whose id is taken, is refused (the result is
    /// `false`).
    pub fn restore_order(&mut self, order: Order) -> (r: bool)
        requires
            old(self).wf(),
        ensures
            final(self).wf(),
            r == (order.wf() && forall|j: int| 0 <= j < old(self).orders@.len() ==> (#[trigger] old(self).orders@[j]).id@ != order.id@),
            r ==> final(self).orders@ == old(self).orders@.push(order),
            !r ==> *final(self) == *old(self),
    {
        if !order.is_consistent() {
            return false;
        }
        let ghost os = self.orders@;
        match self.find_order(&order.id) {
            Some(_) => {
                return false;
            },
            None => {},
        }
        self.orders.push(order);
        proof {
            lemma_ids_push(os, order);
            assert forall|i: int| 0 <= i < self.orders@.len() implies (#[trigger] self.orders@[i]).wf() by {
                if i < os.len() {
                    assert(self.orders@[i] == os[i]);
                }
            }
        }
        true
    }
}

} // verus!
