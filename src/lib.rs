//! Conversion of quantities between units of length, mass and currency.
//!
//! Magnitudes are exact non-negative rationals, so conversions within a
//! family are exact and invertible. Currency conversions go through a cache
//! of exchange rates that the application refreshes from a pricing source.

pub mod gcd;
pub mod text;
pub mod quantity;
pub mod units;
pub mod value;
pub mod currency;
mod json;
pub mod commands;
