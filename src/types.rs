use vstd::prelude::*;

verus! {

/// Fixed-point units per dollar.
pub const PRICE_SCALE: i64 = 1000000;

/// Largest quantity a position or a fill may reach.
pub const MAX_QTY: i64 = 1099511627776;

/// Largest price (in fixed-point units) at which a fill can be booked.
pub const MAX_PRICE: i64 = 17592186044416;

/// Largest absolute realized P&L a position accumulates.
pub const MAX_PNL: i128 = 19342813113834066795298816;

#[derive(Debug, Clone, Copy, PartialEq, Eq, Structural)]
pub enum OrderType {
    Market,
    Limit,
    Stop,
    StopLimit,
}

#[derive(Debug, Clone, Copy, PartialEq, Eq, Structural)]
pub enum OrderSide {
    Buy,
    Sell,
}

#[derive(Debug, Clone, Copy, PartialEq, Eq, Structural)]
pub enum InstrumentType {
    Stock,
    Option,
}

#[derive(Debug, Clone, Copy, PartialEq, Eq, Structural)]
pub enum OptionType {
    Call,
    Put,
}

#[derive(Debug, Clone, Copy, PartialEq, Eq, Structural)]
pub enum TimeInForce {
    Day,
    GTC,
    IOC,
    FOK,
}

#[derive(Debug, Clone, Copy, PartialEq, Eq, Structural)]
pub enum OrderStatus {
    Pending,
    PartiallyFilled,
    Filled,
    Canceled,
    Rejected,
    Expired,
}

#[derive(Debug, Clone, Copy, PartialEq, Eq, Structural)]
pub enum ExpirationAction {
    Expired,
    AutoExercised,
    AutoClosed,
}

/// Identity of an option contract. The strike is in fixed-point units and the
/// expiry is written `MM/DD/YYYY`.
#[derive(Debug, Clone)]
pub struct OptionDetails {
    pub underlying: String,
    pub option_type: OptionType,
    pub strike: i64,
    pub expiry: String,
    pub multiplier: i64,
}

/// A client's order intent.
#[derive(Debug, Clone)]
pub struct OrderRequest {
    pub symbol: String,
    pub side: OrderSide,
    pub order_type: OrderType,
    pub quantity: i64,
    pub price: Option<i64>,
    pub stop_price: Option<i64>,
    pub time_in_force: TimeInForce,
    pub client_order_id: Option<String>,
    pub instrument_type: InstrumentType,
    pub option_details: Option<OptionDetails>,
}

/// Why a request fails validation.
#[derive(Debug, Clone, Copy, PartialEq, Eq, Structural)]
pub enum ValidationError {
    EmptySymbol,
    NonPositiveQuantity,
    MissingLimitPrice,
    NonPositiveLimitPrice,
    MissingStopPrice,
    NonPositiveStopPrice,
    MissingStopLimitPrices,
    NonPositiveStopLimitPrices,
}

/// The text of a validation failure.
pub open spec fn validation_text(e: ValidationError) -> Seq<char> {
    match e {
        ValidationError::EmptySymbol => "Symbol cannot be empty"@,
        ValidationError::NonPositiveQuantity => "Quantity must be positive"@,
        ValidationError::MissingLimitPrice => "Limit orders require a price"@,
        ValidationError::NonPositiveLimitPrice => "Price must be positive"@,
        ValidationError::MissingStopPrice => "Stop orders require a stop price"@,
        ValidationError::NonPositiveStopPrice => "Stop price must be positive"@,
        ValidationError::MissingStopLimitPrices => "Stop limit orders require both price and stop price"@,
        ValidationError::NonPositiveStopLimitPrices => "Price and stop price must be positive"@,
    }
}

impl ValidationError {
    pub fn message(&self) -> (r: String)
        ensures
            r@ == validation_text(*self),
    {
        match self {
            ValidationError::EmptySymbol => String::from_str("Symbol cannot be empty"),
            ValidationError::NonPositiveQuantity => String::from_str("Quantity must be positive"),
            ValidationError::MissingLimitPrice => String::from_str("Limit orders require a price"),
            ValidationError::NonPositiveLimitPrice => String::from_str("Price must be positive"),
            ValidationError::MissingStopPrice => String::from_str("Stop orders require a stop price"),
            ValidationError::NonPositiveStopPrice => String::from_str("Stop price must be positive"),
            ValidationError::MissingStopLimitPrices => String::from_str(
                "Stop limit orders require both price and stop price",
            ),
            ValidationError::NonPositiveStopLimitPrices => String::from_str(
                "Price and stop price must be positive",
            ),
        }
    }
}

/// The first rule (in the order they are checked) that a request breaks.
pub open spec fn validation_error(
    symbol: Seq<char>,
    quantity: int,
    order_type: OrderType,
    price: Option<i64>,
    stop_price: Option<i64>,
) -> Option<ValidationError> {
    if symbol.len() == 0 {
        Some(ValidationError::EmptySymbol)
    } else if quantity <= 0 {
        Some(ValidationError::NonPositiveQuantity)
    } else {
        match order_type {
            OrderType::Limit => match price {
                None => Some(ValidationError::MissingLimitPrice),
                Some(p) => if p <= 0 { Some(ValidationError::NonPositiveLimitPrice) } else { None },
            },
            OrderType::Stop => match stop_price {
                None => Some(ValidationError::MissingStopPrice),
                Some(s) => if s <= 0 { Some(ValidationError::NonPositiveStopPrice) } else { None },
            },
            OrderType::StopLimit => match (price, stop_price) {
                (Some(p), Some(s)) => if p <= 0 || s <= 0 {
                    Some(ValidationError::NonPositiveStopLimitPrices)
                } else {
                    None
                },
                _ => Some(ValidationError::MissingStopLimitPrices),
            },
            OrderType::Market => None,
        }
    }
}

impl OrderRequest {
    pub open spec fn spec_error(&self) -> Option<ValidationError> {
        validation_error(self.symbol@, self.quantity as int, self.order_type, self.price, self.stop_price)
    }

    pub open spec fn is_valid(&self) -> bool {
        self.spec_error().is_none()
    }

    /// Checks a request: a non-empty symbol, a positive quantity, and the
    /// prices that its order type needs, each positive.
    pub fn validate(&self) -> (r: Result<(), ValidationError>)
        ensures
            r is Ok <==> self.is_valid(),
            r matches Err(e) ==> self.spec_error() == Some(e),
    {
        if self.symbol.as_str().unicode_len() == 0 {
            return Err(ValidationError::EmptySymbol);
        }
        if self.quantity <= 0 {
            return Err(ValidationError::NonPositiveQuantity);
        }
        match self.order_type {
            OrderType::Limit => match self.price {
                None => Err(ValidationError::MissingLimitPrice),
                Some(p) => if p <= 0 { Err(ValidationError::NonPositiveLimitPrice) } else { Ok(()) },
            },
            OrderType::Stop => match self.stop_price {
                None => Err(ValidationError::MissingStopPrice),
                Some(s) => if s <= 0 { Err(ValidationError::NonPositiveStopPrice) } else { Ok(()) },
            },
            OrderType::StopLimit => match (self.price, self.stop_price) {
                (Some(p), Some(s)) => if p <= 0 || s <= 0 {
                    Err(ValidationError::NonPositiveStopLimitPrices)
                } else {
                    Ok(())
                },
                _ => Err(ValidationError::MissingStopLimitPrices),
            },
            OrderType::Market => Ok(()),
        }
    }
}


/// One execution slice of an order.
#[derive(Debug, Clone)]
pub struct Fill {
    pub id: String,
    pub order_id: String,
    pub symbol: String,
    pub side: OrderSide,
    pub quantity: i64,
    pub price: i64,
    pub timestamp: i64,
    pub commission: i64,
    pub instrument_type: InstrumentType,
    pub option_details: Option<OptionDetails>,
    pub leg_number: Option<i32>,
}

/// An accepted order and its execution history.
#[derive(Debug, Clone)]
pub struct Order {
    pub id: String,
    pub client_order_id: Option<String>,
    pub symbol: String,
    pub side: OrderSide,
    pub order_type: OrderType,
    pub quantity: i64,
    pub filled_quantity: i64,
    pub remaining_quantity: i64,
    pub price: Option<i64>,
    pub stop_price: Option<i64>,
    pub time_in_force: TimeInForce,
    pub status: OrderStatus,
    pub created_at: i64,
    pub updated_at: i64,
    pub fills: Vec<Fill>,
    pub instrument_type: InstrumentType,
    pub option_details: Option<OptionDetails>,
}

pub open spec fn is_terminal(s: OrderStatus) -> bool {
    s == OrderStatus::Filled || s == OrderStatus::Canceled || s == OrderStatus::Rejected
        || s == OrderStatus::Expired
}

impl Order {
    /// Quantities add up and the status agrees with what remains.
    pub open spec fn wf(&self) -> bool {
        &&& 0 < self.quantity
        &&& 0 <= self.filled_quantity <= self.quantity
        &&& self.remaining_quantity == self.quantity - self.filled_quantity
        &&& (self.status == OrderStatus::Pending || self.status == OrderStatus::PartiallyFilled)
            ==> self.remaining_quantity > 0
        &&& self.status == OrderStatus::Filled <==> (self.remaining_quantity == 0
            && self.status != OrderStatus::Canceled && self.status != OrderStatus::Rejected
            && self.status != OrderStatus::Expired)
    }

    /// A pending order for a request, created at `now`.
    pub fn new(request: OrderRequest, id: String, now: i64) -> (r: Order)
        requires
            request.quantity > 0,
        ensures
            r.wf(),
            r.id@ == id@,
            r.symbol@ == request.symbol@,
            r.side == request.side,
            r.order_type == request.order_type,
            r.quantity == request.quantity,
            r.filled_quantity == 0,
            r.remaining_quantity == request.quantity,
            r.price == request.price,
            r.stop_price == request.stop_price,
            r.time_in_force == request.time_in_force,
            r.status == OrderStatus::Pending,
            r.created_at == now,
            r.updated_at == now,
            r.fills@.len() == 0,
            r.instrument_type == request.instrument_type,
    {
        Order {
            id,
            client_order_id: request.client_order_id,
            symbol: request.symbol,
            side: request.side,
            order_type: request.order_type,
            quantity: request.quantity,
            filled_quantity: 0,
            remaining_quantity: request.quantity,
            price: request.price,
            stop_price: request.stop_price,
            time_in_force: request.time_in_force,
            status: OrderStatus::Pending,
            created_at: now,
            updated_at: now,
            fills: Vec::new(),
            instrument_type: request.instrument_type,
            option_details: request.option_details,
        }
    }

    pub fn is_complete(&self) -> (r: bool)
        ensures
            r == is_terminal(self.status),
    {
        match self.status {
            OrderStatus::Filled | OrderStatus::Canceled | OrderStatus::Rejected
            | OrderStatus::Expired => true,
            _ => false,
        }
    }

    pub open spec fn spec_can_fill(&self) -> bool {
        (self.status == OrderStatus::Pending || self.status == OrderStatus::PartiallyFilled)
            && self.remaining_quantity > 0
    }

    pub fn can_fill(&self) -> (r: bool)
        ensures
            r == self.spec_can_fill(),
    {
        match self.status {
            OrderStatus::Pending | OrderStatus::PartiallyFilled => self.remaining_quantity > 0,
            _ => false,
        }
    }

    /// Books a fill: the filled quantity grows by the fill's, the fill is
    /// appended, and the status becomes `Filled` or `PartiallyFilled`.
    pub fn add_fill(&mut self, fill: Fill, now: i64)
        requires
            old(self).wf(),
            old(self).spec_can_fill(),
            0 < fill.quantity <= old(self).remaining_quantity,
        ensures
            final(self).wf(),
            final(self).filled_quantity == old(self).filled_quantity + fill.quantity,
            final(self).remaining_quantity == old(self).remaining_quantity - fill.quantity,
            final(self).fills@ == old(self).fills@.push(fill),
            final(self).status == (if final(self).remaining_quantity == 0 {
                OrderStatus::Filled
            } else {
                OrderStatus::PartiallyFilled
            }),
            final(self).updated_at == now,
            final(self).id == old(self).id,
            final(self).symbol == old(self).symbol,
            final(self).side == old(self).side,
            final(self).order_type == old(self).order_type,
            final(self).quantity == old(self).quantity,
            final(self).price == old(self).price,
            final(self).stop_price == old(self).stop_price,
            final(self).instrument_type == old(self).instrument_type,
            final(self).created_at == old(self).created_at,
    {
        self.filled_quantity = self.filled_quantity + fill.quantity;
        self.remaining_quantity = self.quantity - self.filled_quantity;
        self.fills.push(fill);
        self.updated_at = now;
        if self.remaining_quantity == 0 {
            self.status = OrderStatus::Filled;
        } else {
            self.status = OrderStatus::PartiallyFilled;
        }
    }
}

/// A product of two bounded factors is bounded by the product of the bounds.
pub proof fn lemma_mul_bounded(a: int, b: int, ba: int, bb: int)
    requires
        -ba <= a <= ba,
        -bb <= b <= bb,
    ensures
        -(ba * bb) <= a * b <= ba * bb,
{
    assert(-(ba * bb) <= a * b <= ba * bb) by (nonlinear_arith)
        requires
            -ba <= a <= ba,
            -bb <= b <= bb,
    ;
}

/// Signed quantity of a fill: positive for a buy, negative for a sell.
pub open spec fn signed_qty(side: OrderSide, qty: int) -> int {
    match side {
        OrderSide::Buy => qty,
        OrderSide::Sell => -qty,
    }
}

/// Cash effect of a fill: a buy pays price times quantity plus commission, a
/// sell receives price times quantity less commission.
pub open spec fn net_amount_of(side: OrderSide, price: int, qty: int, commission: int) -> int {
    match side {
        OrderSide::Buy => -(price * qty + commission),
        OrderSide::Sell => price * qty - commission,
    }
}

pub open spec fn abs(x: int) -> int {
    if x < 0 { -x } else { x }
}

pub open spec fn min(a: int, b: int) -> int {
    if a < b { a } else { b }
}

pub open spec fn same_sign(a: int, b: int) -> bool {
    (a > 0 && b > 0) || (a < 0 && b < 0)
}

/// Quantity held after a signed fill.
pub open spec fn qty_after(old_qty: int, signed: int) -> int {
    old_qty + signed
}

/// Average cost after a signed fill at `price`: opening takes the price,
/// adding takes the quantity-weighted mean (rounded down), closing clears it,
/// flipping takes the price, and reducing keeps it.
pub open spec fn avg_cost_after(old_qty: int, avg: int, signed: int, price: int) -> int {
    if old_qty == 0 {
        price
    } else if same_sign(old_qty, signed) {
        (abs(old_qty) * avg + abs(signed) * price) / abs(old_qty + signed)
    } else if old_qty + signed == 0 {
        0
    } else if abs(signed) > abs(old_qty) {
        price
    } else {
        avg
    }
}

/// Realized P&L of a signed fill at `price`: the closed quantity times the
/// price move, signed by the direction of the position closed.
pub open spec fn realized_of(old_qty: int, avg: int, signed: int, price: int) -> int {
    if old_qty == 0 || same_sign(old_qty, signed) {
        0
    } else if old_qty > 0 {
        min(abs(signed), abs(old_qty)) * (price - avg)
    } else {
        -(min(abs(signed), abs(old_qty)) * (price - avg))
    }
}

/// Net holdings of one symbol.
#[derive(Debug, Clone)]
pub struct Position {
    pub symbol: String,
    pub quantity: i64,
    pub avg_cost: i64,
    pub market_value: i128,
    pub unrealized_pnl: i128,
    pub realized_pnl: i128,
    pub last_price: i64,
    pub updated_at: i64,
}

impl Position {
    /// Quantities and prices stay within the engine's limits; a non-flat
    /// position has a positive cost basis, a flat one none.
    pub open spec fn wf(&self) -> bool {
        &&& self.core_wf()
        &&& 0 <= self.last_price <= MAX_PRICE
        &&& self.market_value == self.quantity * self.last_price
        &&& self.unrealized_pnl == self.quantity * self.last_price - self.quantity * self.avg_cost
    }

    /// The bounds on quantity, cost basis and realized P&L.
    pub open spec fn core_wf(&self) -> bool {
        &&& -MAX_QTY <= self.quantity <= MAX_QTY
        &&& 0 <= self.avg_cost <= MAX_PRICE
        &&& (self.quantity != 0 ==> self.avg_cost > 0)
        &&& (self.quantity == 0 ==> self.avg_cost == 0)
        &&& -MAX_PNL <= self.realized_pnl <= MAX_PNL
    }

    /// Whether a fill of `qty` at `price` keeps the position within limits.
    pub open spec fn fill_fits(&self, side: OrderSide, qty: int, price: int) -> bool {
        let signed = signed_qty(side, qty);
        &&& 0 < price <= MAX_PRICE
        &&& 0 < qty <= MAX_QTY
        &&& -MAX_QTY <= qty_after(self.quantity as int, signed) <= MAX_QTY
        &&& -MAX_PNL <= self.realized_pnl + realized_of(
            self.quantity as int,
            self.avg_cost as int,
            signed,
            price,
        ) <= MAX_PNL
    }

    pub fn new(symbol: String, now: i64) -> (r: Position)
        ensures
            r.wf(),
            r.symbol@ == symbol@,
            r.quantity == 0,
            r.avg_cost == 0,
            r.realized_pnl == 0,
            r.market_value == 0,
            r.unrealized_pnl == 0,
            r.last_price == 0,
            r.updated_at == now,
    {
        Position {
            symbol,
            quantity: 0,
            avg_cost: 0,
            market_value: 0,
            unrealized_pnl: 0,
            realized_pnl: 0,
            last_price: 0,
            updated_at: now,
        }
    }

    /// Revalues the position at `price`: market value is quantity times price,
    /// unrealized P&L is market value less quantity times average cost.
    pub fn update_market_data(&mut self, price: i64, now: i64)
        requires
            old(self).core_wf(),
            0 <= price <= MAX_PRICE,
        ensures
            final(self).wf(),
            final(self).last_price == price,
            final(self).market_value == old(self).quantity * price,
            final(self).unrealized_pnl == old(self).quantity * price - old(self).quantity
                * old(self).avg_cost,
            final(self).updated_at == now,
            final(self).symbol == old(self).symbol,
            final(self).quantity == old(self).quantity,
            final(self).avg_cost == old(self).avg_cost,
            final(self).realized_pnl == old(self).realized_pnl,
    {
        let q = self.quantity as i128;
        proof {
            lemma_mul_bounded(q as int, price as int, MAX_QTY as int, MAX_PRICE as int);
            lemma_mul_bounded(q as int, self.avg_cost as int, MAX_QTY as int, MAX_PRICE as int);
        }
        let mv = q * (price as i128);
        let cost = q * (self.avg_cost as i128);
        self.last_price = price;
        self.market_value = mv;
        self.unrealized_pnl = mv - cost;
        self.updated_at = now;
    }
}

/// The weighted mean of two positive prices lies between 1 and the larger bound.
proof fn lemma_weighted_mean_bounds(aq: int, avg: int, sq: int, price: int, hi: int)
    requires
        aq > 0,
        sq > 0,
        1 <= avg <= hi,
        1 <= price <= hi,
    ensures
        1 <= (aq * avg + sq * price) / (aq + sq) <= hi,
{
    let num = aq * avg + sq * price;
    let den = aq + sq;
    assert(den <= num <= den * hi) by (nonlinear_arith)
        requires
            aq > 0,
            sq > 0,
            1 <= avg <= hi,
            1 <= price <= hi,
            num == aq * avg + sq * price,
            den == aq + sq,
    ;
    assert(1 <= num / den <= hi) by (nonlinear_arith)
        requires
            den > 0,
            den <= num <= den * hi,
    ;
}

impl Position {
    /// Applies a fill and returns the P&L it realizes. Quantity, average cost
    /// and realized P&L follow `qty_after`, `avg_cost_after` and `realized_of`;
    /// the position is then revalued at the fill price.
    pub fn apply_fill(&mut self, fill: &Fill, now: i64) -> (r: i128)
        requires
            old(self).wf(),
            old(self).fill_fits(fill.side, fill.quantity as int, fill.price as int),
        ensures
            final(self).wf(),
            r == realized_of(
                old(self).quantity as int,
                old(self).avg_cost as int,
                signed_qty(fill.side, fill.quantity as int),
                fill.price as int,
            ),
            final(self).quantity == qty_after(
                old(self).quantity as int,
                signed_qty(fill.side, fill.quantity as int),
            ),
            final(self).avg_cost == avg_cost_after(
                old(self).quantity as int,
                old(self).avg_cost as int,
                signed_qty(fill.side, fill.quantity as int),
                fill.price as int,
            ),
            final(self).realized_pnl == old(self).realized_pnl + r,
            final(self).last_price == fill.price,
            final(self).market_value == final(self).quantity * fill.price,
            final(self).unrealized_pnl == final(self).quantity * fill.price
                - final(self).quantity * final(self).avg_cost,
            final(self).symbol == old(self).symbol,
            final(self).updated_at == now,
    {
        let old_qty = self.quantity;
        let fill_qty: i64 = match fill.side {
            OrderSide::Buy => fill.quantity,
            OrderSide::Sell => -fill.quantity,
        };
        let new_qty = old_qty + fill_qty;
        let mut realized: i128 = 0;
        if old_qty == 0 {
            self.quantity = new_qty;
            self.avg_cost = fill.price;
        } else if (old_qty > 0 && fill_qty > 0) || (old_qty < 0 && fill_qty < 0) {
            let aq: i128 = if old_qty < 0 { -(old_qty as i128) } else { old_qty as i128 };
            let sq: i128 = if fill_qty < 0 { -(fill_qty as i128) } else { fill_qty as i128 };
            proof {
                lemma_mul_bounded(aq as int, self.avg_cost as int, MAX_QTY as int, MAX_PRICE as int);
                lemma_mul_bounded(sq as int, fill.price as int, MAX_QTY as int, MAX_PRICE as int);
                lemma_weighted_mean_bounds(aq as int, self.avg_cost as int, sq as int, fill.price as int, MAX_PRICE as int);
            }
            let num = aq * (self.avg_cost as i128) + sq * (fill.price as i128);
            let den = aq + sq;
            let avg = (num as u128) / (den as u128);
            self.quantity = new_qty;
            self.avg_cost = avg as i64;
        } else {
            let aq: i64 = if old_qty < 0 { -old_qty } else { old_qty };
            let sq: i64 = if fill_qty < 0 { -fill_qty } else { fill_qty };
            let closed: i64 = if sq < aq { sq } else { aq };
            let diff: i128 = (fill.price as i128) - (self.avg_cost as i128);
            proof {
                lemma_mul_bounded(closed as int, diff as int, MAX_QTY as int, 2 * MAX_PRICE);
            }
            let moved: i128 = (closed as i128) * diff;
            realized = if old_qty > 0 { moved } else { -moved };
            self.quantity = new_qty;
            self.realized_pnl = self.realized_pnl + realized;
            if new_qty == 0 {
                self.avg_cost = 0;
            } else if sq > aq {
                self.avg_cost = fill.price;
            }
        }
        self.update_market_data(fill.price, now);
        realized
    }
}

/// A fill in business terms, as the journal records it.
#[derive(Debug, Clone)]
pub struct Trade {
    pub id: String,
    pub symbol: String,
    pub side: OrderSide,
    pub quantity: i64,
    pub price: i64,
    pub timestamp: i64,
    pub order_id: String,
    pub commission: i64,
    pub net_amount: i128,
    pub instrument_type: InstrumentType,
    pub option_details: Option<OptionDetails>,
    pub leg_number: Option<i32>,
    pub assignment_id: Option<String>,
}

impl Trade {
    /// The net amount is the cash effect of the fill it records.
    pub open spec fn wf(&self) -> bool {
        &&& 0 < self.quantity <= MAX_QTY
        &&& 0 < self.price <= MAX_PRICE
        &&& 0 <= self.commission <= MAX_FEE
        &&& self.net_amount == net_amount_of(
            self.side,
            self.price as int,
            self.quantity as int,
            self.commission as int,
        )
    }
}

impl Trade {
    /// Whether the trade is well formed (see `wf`).
    pub fn is_consistent(&self) -> (r: bool)
        ensures
            r == self.wf(),
    {
        if self.quantity <= 0 || self.quantity > MAX_QTY || self.price <= 0 || self.price > MAX_PRICE
            || self.commission < 0 || self.commission > MAX_FEE {
            return false;
        }
        proof {
            lemma_mul_bounded(self.price as int, self.quantity as int, MAX_PRICE as int, MAX_QTY as int);
        }
        let gross: i128 = (self.price as i128) * (self.quantity as i128);
        let net: i128 = match self.side {
            OrderSide::Buy => -(gross + self.commission as i128),
            OrderSide::Sell => gross - self.commission as i128,
        };
        net == self.net_amount
    }
}

impl Order {
    /// Whether the order's quantities and status agree (see `wf`).
    pub fn is_consistent(&self) -> (r: bool)
        ensures
            r == self.wf(),
    {
        if self.quantity <= 0 || self.filled_quantity < 0 || self.filled_quantity > self.quantity {
            return false;
        }
        if self.remaining_quantity != self.quantity - self.filled_quantity {
            return false;
        }
        let open = match self.status {
            OrderStatus::Pending | OrderStatus::PartiallyFilled => true,
            _ => false,
        };
        if open && self.remaining_quantity <= 0 {
            return false;
        }
        let filled = match self.status {
            OrderStatus::Filled => true,
            _ => false,
        };
        let terminal_other = match self.status {
            OrderStatus::Canceled | OrderStatus::Rejected | OrderStatus::Expired => true,
            _ => false,
        };
        filled == (self.remaining_quantity == 0 && !terminal_other)
    }
}

/// Largest commission or fee, in fixed-point units.
pub const MAX_FEE: i64 = 1099511627776;

/// Last-known quote for a symbol.
#[derive(Debug, Clone)]
pub struct MarketData {
    pub symbol: String,
    pub last_price: i64,
    pub bid: Option<i64>,
    pub ask: Option<i64>,
    pub bid_size: Option<i64>,
    pub ask_size: Option<i64>,
    pub volume: Option<i64>,
    pub timestamp: i64,
}

/// Execution policy. Commissions are in fixed-point units; slippage is in
/// whole basis points; the partial-fill probability and minimum ratio are in
/// parts per million.
#[derive(Debug, Clone)]
pub struct BrokerConfig {
    pub commission_per_share: i64,
    pub commission_per_trade: i64,
    pub min_commission: i64,
    pub max_commission: i64,
    pub option_commission_per_contract: i64,
    pub option_commission_per_trade: i64,
    pub option_min_commission: i64,
    pub option_max_commission: i64,
    pub assignment_fee: i64,
    pub exercise_fee: i64,
    pub slippage_bps: i64,
    pub partial_fill_probability: i64,
    pub min_partial_fill_ratio: i64,
    pub auto_close_dte_threshold: i32,
    pub itm_assignment_threshold: i64,
}

/// Parts per million that make a whole.
pub const PPM: i64 = 1000000;

impl BrokerConfig {
    /// Fees are non-negative and bounded, slippage is at most 100%, and the
    /// probability and ratio lie in `[0, 1]`.
    pub open spec fn wf(&self) -> bool {
        &&& 0 <= self.commission_per_share <= MAX_FEE
        &&& 0 <= self.commission_per_trade <= MAX_FEE
        &&& 0 <= self.min_commission <= MAX_FEE
        &&& 0 <= self.max_commission <= MAX_FEE
        &&& 0 <= self.option_commission_per_contract <= MAX_FEE
        &&& 0 <= self.option_commission_per_trade <= MAX_FEE
        &&& 0 <= self.option_min_commission <= MAX_FEE
        &&& 0 <= self.option_max_commission <= MAX_FEE
        &&& 0 <= self.slippage_bps <= 10000
        &&& 0 <= self.partial_fill_probability <= PPM
        &&& 0 <= self.min_partial_fill_ratio <= PPM
    }

    pub fn is_valid(&self) -> (r: bool)
        ensures
            r == self.wf(),
    {
        0 <= self.commission_per_share && self.commission_per_share <= MAX_FEE
            && 0 <= self.commission_per_trade && self.commission_per_trade <= MAX_FEE
            && 0 <= self.min_commission && self.min_commission <= MAX_FEE
            && 0 <= self.max_commission && self.max_commission <= MAX_FEE
            && 0 <= self.option_commission_per_contract
            && self.option_commission_per_contract <= MAX_FEE
            && 0 <= self.option_commission_per_trade && self.option_commission_per_trade <= MAX_FEE
            && 0 <= self.option_min_commission && self.option_min_commission <= MAX_FEE
            && 0 <= self.option_max_commission && self.option_max_commission <= MAX_FEE
            && 0 <= self.slippage_bps && self.slippage_bps <= 10000
            && 0 <= self.partial_fill_probability && self.partial_fill_probability <= PPM
            && 0 <= self.min_partial_fill_ratio && self.min_partial_fill_ratio <= PPM
    }

    /// A discount broker's schedule: half a cent a share with a $1 minimum and
    /// a $10 maximum; 65 cents a contract between $1 and $50; 5 bps slippage;
    /// a 10% chance of a partial fill of at least 30%.
    pub open spec fn default_spec() -> BrokerConfig {
        BrokerConfig {
            commission_per_share: 5000,
            commission_per_trade: 0,
            min_commission: 1000000,
            max_commission: 10000000,
            option_commission_per_contract: 650000,
            option_commission_per_trade: 0,
            option_min_commission: 1000000,
            option_max_commission: 50000000,
            assignment_fee: 19990000,
            exercise_fee: 19990000,
            slippage_bps: 5,
            partial_fill_probability: 100000,
            min_partial_fill_ratio: 300000,
            auto_close_dte_threshold: 0,
            itm_assignment_threshold: 10000,
        }
    }

    /// The default policy (see `default_spec`).
    pub fn default() -> (r: BrokerConfig)
        ensures
            r.wf(),
            r == BrokerConfig::default_spec(),
    {
        BrokerConfig {
            commission_per_share: 5000,
            commission_per_trade: 0,
            min_commission: 1000000,
            max_commission: 10000000,
            option_commission_per_contract: 650000,
            option_commission_per_trade: 0,
            option_min_commission: 1000000,
            option_max_commission: 50000000,
            assignment_fee: 19990000,
            exercise_fee: 19990000,
            slippage_bps: 5,
            partial_fill_probability: 100000,
            min_partial_fill_ratio: 300000,
            auto_close_dte_threshold: 0,
            itm_assignment_threshold: 10000,
        }
    }
}

/// Outcome of submitting an order or retrying it.
#[derive(Debug, Clone)]
pub struct TradeExecution {
    pub order_id: String,
    pub fills: Vec<Fill>,
    pub status: OrderStatus,
    pub message: String,
}

/// Cash, equity and P&L of the account.
#[derive(Debug, Clone)]
pub struct Portfolio {
    pub cash: i128,
    pub equity: i128,
    pub buying_power: i128,
    pub positions: Vec<Position>,
    pub day_pnl: i128,
    pub total_pnl: i128,
    pub updated_at: i64,
}

/// No two positions share a symbol.
pub open spec fn unique_symbols(ps: Seq<Position>) -> bool {
    forall|i: int, j: int|
        0 <= i < ps.len() && 0 <= j < ps.len() && i != j ==> #[trigger] ps[i].symbol@
            != #[trigger] ps[j].symbol@
}

pub open spec fn has_position(ps: Seq<Position>, sym: Seq<char>) -> bool {
    exists|i: int| 0 <= i < ps.len() && #[trigger] ps[i].symbol@ == sym
}

/// Index of the position in `sym` (meaningful when there is one).
pub open spec fn position_index(ps: Seq<Position>, sym: Seq<char>) -> int {
    choose|i: int| 0 <= i < ps.len() && #[trigger] ps[i].symbol@ == sym
}

/// Quantity held in `sym`, zero when there is no position.
pub open spec fn held_qty(ps: Seq<Position>, sym: Seq<char>) -> int {
    if has_position(ps, sym) {
        ps[position_index(ps, sym)].quantity as int
    } else {
        0
    }
}

/// With unique symbols, the position found at `k` is the one `position_index` names.
pub proof fn lemma_position_index(ps: Seq<Position>, sym: Seq<char>, k: int)
    requires
        unique_symbols(ps),
        0 <= k < ps.len(),
        ps[k].symbol@ == sym,
    ensures
        has_position(ps, sym),
        position_index(ps, sym) == k,
{
    assert(has_position(ps, sym));
    let i = position_index(ps, sym);
    assert(ps[i].symbol@ == ps[k].symbol@);
}

/// Index of the position in `sym`, if any.
pub fn find_position(ps: &Vec<Position>, sym: &String) -> (r: Option<usize>)
    ensures
        match r {
            Some(k) => k < ps@.len() && ps@[k as int].symbol@ == sym@,
            None => !has_position(ps@, sym@),
        },
{
    let mut i: usize = 0;
    while i < ps.len()
        invariant
            i <= ps@.len(),
            forall|j: int| 0 <= j < i ==> #[trigger] ps@[j].symbol@ != sym@,
        decreases ps@.len() - i,
    {
        if ps[i].symbol == *sym {
            return Some(i);
        }
        i = i + 1;
    }
    None
}

pub open spec fn has_quote(qs: Seq<MarketData>, sym: Seq<char>) -> bool {
    exists|i: int| 0 <= i < qs.len() && #[trigger] qs[i].symbol@ == sym
}

/// No two quotes share a symbol.
pub open spec fn unique_quotes(qs: Seq<MarketData>) -> bool {
    forall|i: int, j: int|
        0 <= i < qs.len() && 0 <= j < qs.len() && i != j ==> #[trigger] qs[i].symbol@
            != #[trigger] qs[j].symbol@
}

/// Index of the quote for `sym`, if any.
pub fn find_quote(qs: &Vec<MarketData>, sym: &String) -> (r: Option<usize>)
    ensures
        match r {
            Some(k) => k < qs@.len() && qs@[k as int].symbol@ == sym@,
            None => !has_quote(qs@, sym@),
        },
{
    let mut i: usize = 0;
    while i < qs.len()
        invariant
            i <= qs@.len(),
            forall|j: int| 0 <= j < i ==> #[trigger] qs@[j].symbol@ != sym@,
        decreases qs@.len() - i,
    {
        if qs[i].symbol == *sym {
            return Some(i);
        }
        i = i + 1;
    }
    None
}

} // verus!
