//! A paper trading engine: order lifecycle and matching, position and cash
//! accounting, pre-trade risk checks, and a market calendar gate.
//!
//! Money is held in fixed point: one unit is a millionth of a dollar
//! (`PRICE_SCALE` units make a dollar). Quantities are whole shares or contracts.

pub mod types;
pub mod mtm;
pub mod risk;
pub mod calendar;
pub mod broker;
pub mod accounting;
pub mod storage;
pub mod provider;
