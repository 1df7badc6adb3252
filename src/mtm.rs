use vstd::prelude::*;
use crate::types::{OptionDetails, OptionType, MarketData, Position, unique_quotes, find_quote, lemma_mul_bounded, MAX_QTY};
use crate::broker::{quote_for, lemma_quote_index, MAX_CASH, MAX_POSITIONS};

verus! {

/// Portfolio sensitivities, each in millionths.
#[derive(Debug, Clone, Copy)]
pub struct PortfolioGreeks {
    pub delta: i64,
    pub gamma: i64,
    pub theta: i64,
    pub vega: i64,
    pub rho: i64,
}

impl PortfolioGreeks {
    pub fn zero() -> (r: PortfolioGreeks)
        ensures
            r.delta == 0 && r.gamma == 0 && r.theta == 0 && r.vega == 0 && r.rho == 0,
    {
        PortfolioGreeks { delta: 0, gamma: 0, theta: 0, vega: 0, rho: 0 }
    }
}

pub open spec fn is_digit(c: char) -> bool {
    '0' <= c && c <= '9'
}

/// Value of a string of decimal digits.
pub open spec fn digits_value(s: Seq<char>) -> int
    decreases s.len(),
{
    if s.len() == 0 {
        0
    } else {
        digits_value(s.drop_last()) * 10 + (s.last() as int - '0' as int)
    }
}

/// Whether a symbol has the OCC option shape: a non-empty underlying without
/// digits, then six date digits `YYMMDD`, `C` or `P`, and eight strike digits.
pub open spec fn occ_shape(s: Seq<char>) -> bool {
    let n = s.len();
    &&& n >= 16
    &&& forall|i: int| 0 <= i < n - 15 ==> !is_digit(#[trigger] s[i])
    &&& forall|i: int| n - 15 <= i < n - 9 ==> is_digit(#[trigger] s[i])
    &&& (s[n - 9] == 'C' || s[n - 9] == 'P')
    &&& forall|i: int| n - 8 <= i < n ==> is_digit(#[trigger] s[i])
}

/// Expiry `MM/DD/20YY` of an OCC symbol.
pub open spec fn occ_expiry(s: Seq<char>) -> Seq<char> {
    let d = s.subrange(s.len() - 15, s.len() - 9);
    d.subrange(2, 4) + seq!['/'] + d.subrange(4, 6) + seq!['/', '2', '0'] + d.subrange(0, 2)
}

fn digits_to_i64(s: &str, from: usize, to: usize) -> (r: i64)
    requires
        from <= to <= s@.len(),
        to - from <= 8,
        forall|i: int| from <= i < to ==> is_digit(#[trigger] s@[i]),
    ensures
        r == digits_value(s@.subrange(from as int, to as int)),
        0 <= r < 100000000,
{
    let mut v: i64 = 0;
    let mut i: usize = from;
    while i < to
        invariant
            from <= i <= to <= s@.len(),
            to - from <= 8,
            forall|k: int| from <= k < to ==> is_digit(#[trigger] s@[k]),
            v == digits_value(s@.subrange(from as int, i as int)),
            0 <= v < pow10((i - from) as nat),
        decreases to - i,
    {
        let c = s.get_char(i);
        let ghost sub = s@.subrange(from as int, i as int + 1);
        assert(sub.drop_last() =~= s@.subrange(from as int, i as int));
        assert(sub.last() == c);
        assert(is_digit(c));
        proof {
            lemma_pow10_bound((i - from) as nat);
        }
        v = v * 10 + (c as i64 - '0' as i64);
        i = i + 1;
    }
    proof {
        lemma_pow10_bound((to - from) as nat);
    }
    v
}

pub open spec fn pow10(n: nat) -> int
    decreases n,
{
    if n == 0 { 1 } else { 10 * pow10((n - 1) as nat) }
}

proof fn lemma_pow10_bound(n: nat)
    requires
        n <= 8,
    ensures
        pow10(n) <= 100000000,
    decreases n,
{
    if n > 0 {
        lemma_pow10_bound((n - 1) as nat);
    }
    reveal_with_fuel(pow10, 9);
}

/// Reads an OCC option symbol: underlying, call or put, strike (the eight
/// digits are thousandths of a dollar; the result is in fixed-point units),
/// expiry as `MM/DD/20YY`, and the standard multiplier of 100. Anything else
/// is not an option.
pub fn parse_option_symbol(symbol: &str) -> (r: Option<OptionDetails>)
    ensures
        r is Some <==> occ_shape(symbol@),
        r matches Some(d) ==> {
            let n = symbol@.len() as int;
            &&& d.underlying@ == symbol@.subrange(0, n - 15)
            &&& d.option_type == (if symbol@[n - 9] == 'C' { OptionType::Call } else { OptionType::Put })
            &&& d.strike == digits_value(symbol@.subrange(n - 8, n)) * 1000
            &&& d.expiry@ == occ_expiry(symbol@)
            &&& d.multiplier == 100
        },
{
    let n = symbol.unicode_len();
    if n < 16 {
        return None;
    }
    let cut = n - 15;
    let mut i: usize = 0;
    while i < n
        invariant
            n == symbol@.len(),
            n >= 16,
            cut == n - 15,
            i <= n,
            forall|k: int| 0 <= k < i && k < cut ==> !is_digit(#[trigger] symbol@[k]),
            forall|k: int| cut <= k < i && k < n - 9 ==> is_digit(#[trigger] symbol@[k]),
            i > n - 9 ==> (symbol@[n - 9] == 'C' || symbol@[n - 9] == 'P'),
            forall|k: int| n - 8 <= k < i ==> is_digit(#[trigger] symbol@[k]),
        decreases n - i,
    {
        let c = symbol.get_char(i);
        let digit = '0' <= c && c <= '9';
        if i < cut {
            if digit {
                return None;
            }
        } else if i == n - 9 {
            if c != 'C' && c != 'P' {
                return None;
            }
        } else if !digit {
            return None;
        }
        i = i + 1;
    }
    let strike_digits = digits_to_i64(symbol, n - 8, n);
    let option_type = if symbol.get_char(n - 9) == 'C' { OptionType::Call } else { OptionType::Put };
    let mut expiry = String::from_str(symbol.substring_char(n - 13, n - 11));
    expiry.append("/");
    expiry.append(symbol.substring_char(n - 11, n - 9));
    expiry.append("/20");
    expiry.append(symbol.substring_char(n - 15, n - 13));
    proof {
        reveal_strlit("/");
        reveal_strlit("/20");
        let d = symbol@.subrange(n - 15, n - 9);
        assert(d.subrange(2, 4) =~= symbol@.subrange(n - 13, n - 11));
        assert(d.subrange(4, 6) =~= symbol@.subrange(n - 11, n - 9));
        assert(d.subrange(0, 2) =~= symbol@.subrange(n - 15, n - 13));
        assert(expiry@ =~= occ_expiry(symbol@));
    }
    Some(OptionDetails {
        underlying: String::from_str(symbol.substring_char(0, cut)),
        option_type,
        strike: strike_digits * 1000,
        expiry,
        multiplier: 100,
    })
}

/// Mid price of a quote: the mean of bid and ask (rounded down) when both
/// are present, else whichever is, else the last price.
pub open spec fn mid_price(q: MarketData) -> int {
    match (q.bid, q.ask) {
        (Some(b), Some(a)) => (b + a) / 2,
        (Some(b), None) => b as int,
        (None, Some(a)) => a as int,
        (None, None) => q.last_price as int,
    }
}

pub fn get_mid_price(q: &MarketData) -> (r: i64)
    ensures
        r == mid_price(*q),
{
    match (q.bid, q.ask) {
        (Some(b), Some(a)) => {
            let s: i128 = b as i128 + a as i128;
            if s >= 0 {
                ((s as u128) / 2) as i64
            } else {
                let back: u128 = ((-s) - 1) as u128;
                -((back / 2) as i64) - 1
            }
        },
        (Some(b), None) => b,
        (None, Some(a)) => a,
        (None, None) => q.last_price,
    }
}

/// Portfolio valuation at mid prices.
#[derive(Debug, Clone, Copy)]
pub struct MtMValues {
    pub cash: i128,
    pub stock_value: i128,
    pub option_value: i128,
    pub unrealized_pnl: i128,
    pub realized_pnl: i128,
    pub total_equity: i128,
    pub day_pnl: i128,
    pub stock_delta: i128,
}

/// Price a position is marked at: the mid of its quote, else its last price.
pub open spec fn mark_price(p: Position, qs: Seq<MarketData>) -> int {
    match quote_for(qs, p.symbol@) {
        Some(q) => mid_price(q),
        None => p.last_price as int,
    }
}

/// Sums over positions: stock value, option value, unrealized P&L, realized
/// P&L and stock delta (shares held).
pub open spec fn marked(ps: Seq<Position>, qs: Seq<MarketData>) -> (int, int, int, int, int)
    decreases ps.len(),
{
    if ps.len() == 0 {
        (0, 0, 0, 0, 0)
    } else {
        let prev = marked(ps.drop_last(), qs);
        let p = ps.last();
        let value = p.quantity * mark_price(p, qs);
        let unreal = value - p.quantity * p.avg_cost;
        if occ_shape(p.symbol@) {
            (prev.0, prev.1 + value, prev.2 + unreal, prev.3 + p.realized_pnl, prev.4)
        } else {
            (prev.0 + value, prev.1, prev.2 + unreal, prev.3 + p.realized_pnl, prev.4 + p.quantity)
        }
    }
}

/// Values the positions at mid prices and splits them into stock and option
/// value; equity is cash plus both, day P&L is equity less the day-start
/// equity.
pub fn calculate_portfolio_values(
    positions: &Vec<Position>,
    quotes: &Vec<MarketData>,
    day_start_equity: i128,
    cash: i128,
) -> (r: MtMValues)
    requires
        positions@.len() <= MAX_POSITIONS,
        forall|i: int| 0 <= i < positions@.len() ==> (#[trigger] positions@[i]).wf(),
        unique_quotes(quotes@),
        -MAX_CASH <= cash <= MAX_CASH,
        -MAX_CASH <= day_start_equity <= MAX_CASH,
    ensures
        ({
            let m = marked(positions@, quotes@);
            &&& r.stock_value == m.0
            &&& r.option_value == m.1
            &&& r.unrealized_pnl == m.2
            &&& r.realized_pnl == m.3
            &&& r.stock_delta == m.4
            &&& r.cash == cash
            &&& r.total_equity == cash + m.0 + m.1
            &&& r.day_pnl == cash + m.0 + m.1 - day_start_equity
        }),
{
    let bound: i128 = 20282409603651670423947251286016;
    let mut acc: (i128, i128, i128, i128, i128) = (0, 0, 0, 0, 0);
    let n = positions.len();
    let mut i: usize = 0;
    while i < n
        invariant
            n == positions@.len(),
            n <= MAX_POSITIONS,
            i <= n,
            bound == 20282409603651670423947251286016,
            forall|k: int| 0 <= k < positions@.len() ==> (#[trigger] positions@[k]).wf(),
            unique_quotes(quotes@),
            acc.0 as int == marked(positions@.subrange(0, i as int), quotes@).0,
            acc.1 as int == marked(positions@.subrange(0, i as int), quotes@).1,
            acc.2 as int == marked(positions@.subrange(0, i as int), quotes@).2,
            acc.3 as int == marked(positions@.subrange(0, i as int), quotes@).3,
            acc.4 as int == marked(positions@.subrange(0, i as int), quotes@).4,
            -(i as int) * bound <= acc.0 <= (i as int) * bound,
            -(i as int) * bound <= acc.1 <= (i as int) * bound,
            -(i as int) * 2 * bound <= acc.2 <= (i as int) * 2 * bound,
            -(i as int) * bound <= acc.3 <= (i as int) * bound,
            -(i as int) * bound <= acc.4 <= (i as int) * bound,
        decreases n - i,
    {
        let p = &positions[i];
        proof {
            let sub = positions@.subrange(0, i as int + 1);
            assert(sub.drop_last() =~= positions@.subrange(0, i as int));
            assert(sub.last() == *p);
            assert(p.wf());
        }
        let price: i64 = match find_quote(quotes, &p.symbol) {
            Some(k) => {
                proof {
                    lemma_quote_index(quotes@, p.symbol@, k as int);
                }
                get_mid_price(&quotes[k])
            },
            None => p.last_price,
        };
        proof {
            lemma_mul_bounded(p.quantity as int, price as int, MAX_QTY as int, 0x8000_0000_0000_0000);
            lemma_mul_bounded(p.quantity as int, p.avg_cost as int, MAX_QTY as int, 0x8000_0000_0000_0000);
        }
        let value: i128 = (p.quantity as i128) * (price as i128);
        let unreal: i128 = value - (p.quantity as i128) * (p.avg_cost as i128);
        let is_option = parse_option_symbol(p.symbol.as_str()).is_some();
        if is_option {
            acc = (acc.0, acc.1 + value, acc.2 + unreal, acc.3 + p.realized_pnl, acc.4);
        } else {
            acc = (acc.0 + value, acc.1, acc.2 + unreal, acc.3 + p.realized_pnl, acc.4 + p.quantity as i128);
        }
        i = i + 1;
    }
    assert(positions@.subrange(0, n as int) =~= positions@);
    assert((n as int) * bound <= 1329227995784915872903807060280344576) by (nonlinear_arith)
        requires n <= 65536, bound == 20282409603651670423947251286016;
    let total_equity = cash + acc.0 + acc.1;
    MtMValues {
        cash,
        stock_value: acc.0,
        option_value: acc.1,
        unrealized_pnl: acc.2,
        realized_pnl: acc.3,
        total_equity,
        day_pnl: total_equity - day_start_equity,
        stock_delta: acc.4,
    }
}

} // verus!
