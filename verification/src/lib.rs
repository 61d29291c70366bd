//! A constant-product automated market maker pairing a semi-fungible (1155-style)
//! token with a second token, with its pricing, liquidity accounting, fee and
//! ownership rules verified.
pub mod contract;
pub mod decimal;
pub mod error;
pub mod ids;
pub mod liquidity;
pub mod messages;
pub mod msg;
pub mod pricing;
pub mod response;
pub mod seed;
pub mod state;
pub mod supplies;
pub mod swap;
pub mod token_amount;
pub mod utils;
mod wide;
