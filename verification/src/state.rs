//! The stored state of a pool.
use vstd::prelude::*;
use crate::decimal::Decimal;
use crate::msg::Denom;
use crate::supplies::TokenSupplies;
use crate::token_amount::total;

verus! {

/// A token of the pool: its denomination and the amount the pool holds.
#[derive(Clone, Debug, PartialEq, Eq)]
pub struct Token {
    pub reserve: u128,
    pub denom: Denom,
}

/// The fees taken on swaps: the protocol's share goes to its recipient, the liquidity
/// providers' share stays in the pool.
#[derive(Clone, Debug, PartialEq, Eq)]
pub struct Fees {
    pub protocol_fee_recipient: String,
    pub protocol_fee_percent: Decimal,
    pub lp_fee_percent: Decimal,
}

/// Everything a pool stores.
#[derive(Clone, Debug, PartialEq, Eq)]
pub struct State {
    /// The address of the liquidity token, once it is instantiated.
    pub lp_address: Option<String>,
    pub token1155: Token,
    pub token2: Token,
    /// The pool's supply of each 1155 token id.
    pub token_supplies: TokenSupplies,
    pub owner: String,
    pub pending_owner: Option<String>,
    pub max_slippage_percent: Decimal,
    pub fees: Fees,
    /// Whether deposits and swaps are frozen.
    pub frozen: bool,
}

/// A fee percent is zero or at least 0.01%.
pub open spec fn fee_percent_valid(p: Decimal) -> bool {
    p.atomics == 0 || p.atomics >= 10_000_000_000_000_000u128
}

/// The fee rules: each fee percent valid, and their total at most 5%.
pub open spec fn fees_valid(f: Fees) -> bool {
    &&& fee_percent_valid(f.lp_fee_percent)
    &&& fee_percent_valid(f.protocol_fee_percent)
    &&& f.lp_fee_percent.atomics + f.protocol_fee_percent.atomics <= 5_000_000_000_000_000_000u128
}

/// A slippage percent is above zero and below 10%.
pub open spec fn slippage_valid(p: Decimal) -> bool {
    0 < p.atomics < 10_000_000_000_000_000_000u128
}

impl State {
    /// What every pool keeps: the first token is an 1155-style one, the second a cw20 or
    /// native one, the supplies are ordered by id, and the fee and slippage rules hold.
    pub open spec fn wf(&self) -> bool {
        &&& self.token1155.denom is Cw1155
        &&& (self.token2.denom is Cw20 || self.token2.denom is Native)
        &&& self.token_supplies.wf()
        &&& fees_valid(self.fees)
        &&& slippage_valid(self.max_slippage_percent)
    }

    /// The pool's supplies of the 1155 token ids add up to its 1155 reserve.
    pub open spec fn supplies_match_reserve(&self) -> bool {
        total(self.token_supplies@) == self.token1155.reserve
    }
}

} // verus!
