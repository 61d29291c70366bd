//! Messages of the contract, its responses, and the values the chain hands it.
use vstd::prelude::*;
use crate::decimal::Decimal;
use crate::error::StdError;
use crate::token_amount::{TokenAmount, TokenId, TokenMap};

verus! {

/// The denomination of a token: a native coin, a cw20 contract, or an 1155-style contract
/// with the name of the tokens it accepts.
#[derive(Clone, Debug, PartialEq, Eq)]
pub enum Denom {
    Native(String),
    Cw20(String),
    Cw1155(String, String),
}

/// Equality of denominations.
pub open spec fn denom_eq(a: Denom, b: Denom) -> bool {
    match (a, b) {
        (Denom::Native(x), Denom::Native(y)) => x@ == y@,
        (Denom::Cw20(x), Denom::Cw20(y)) => x@ == y@,
        (Denom::Cw1155(x, n), Denom::Cw1155(y, m)) => x@ == y@ && n@ == m@,
        _ => false,
    }
}

impl Denom {
    /// Whether two denominations are the same.
    pub fn same_as(&self, other: &Denom) -> (b: bool)
        ensures
            b == denom_eq(*self, *other),
    {
        match (self, other) {
            (Denom::Native(x), Denom::Native(y)) => x.eq(y),
            (Denom::Cw20(x), Denom::Cw20(y)) => x.eq(y),
            (Denom::Cw1155(x, n), Denom::Cw1155(y, m)) => x.eq(y) && n.eq(m),
            _ => false,
        }
    }

    /// A copy of the denomination.
    pub fn copy(&self) -> (d: Denom)
        ensures
            denom_eq(d, *self),
            d == *self,
    {
        match self {
            Denom::Native(x) => Denom::Native(x.clone()),
            Denom::Cw20(x) => Denom::Cw20(x.clone()),
            Denom::Cw1155(x, n) => Denom::Cw1155(x.clone(), n.clone()),
        }
    }
}

/// The token of the pool that a message refers to.
#[derive(Clone, Copy, Debug, PartialEq, Eq, Structural)]
pub enum TokenSelect {
    Token1155,
    Token2,
}

impl TokenSelect {
    /// The name of the token as the contract reports it: `token1155` or `token2`.
    pub fn to_string(&self) -> (s: String)
        ensures
            s@ == (match self {
                TokenSelect::Token1155 => "token1155"@,
                TokenSelect::Token2 => "token2"@,
            }),
    {
        match self {
            TokenSelect::Token1155 => String::from_str("token1155"),
            TokenSelect::Token2 => String::from_str("token2"),
        }
    }
}

/// When a message stops being valid: at a block height, at a time (nanoseconds since the
/// epoch), or never.
#[derive(Clone, Copy, Debug, PartialEq, Eq, Structural)]
pub enum Expiration {
    AtHeight(u64),
    AtTime(u64),
    Never {},
}

/// The block a message runs in.
#[derive(Clone, Copy, Debug, PartialEq, Eq, Structural)]
pub struct BlockInfo {
    pub height: u64,
    /// Nanoseconds since the epoch.
    pub time: u64,
}

/// Whether an expiration has passed at a block.
pub open spec fn spec_is_expired(e: Expiration, block: BlockInfo) -> bool {
    match e {
        Expiration::AtHeight(h) => block.height >= h,
        Expiration::AtTime(t) => block.time >= t,
        Expiration::Never {} => false,
    }
}

impl Expiration {
    /// Whether the expiration has passed at `block`: at or after its height or time.
    pub fn is_expired(&self, block: &BlockInfo) -> (b: bool)
        ensures
            b == spec_is_expired(*self, *block),
    {
        match self {
            Expiration::AtHeight(h) => block.height >= *h,
            Expiration::AtTime(t) => block.time >= *t,
            Expiration::Never {} => false,
        }
    }
}

/// An amount of a native coin.
#[derive(Clone, Debug, PartialEq, Eq)]
pub struct Coin {
    pub denom: String,
    pub amount: u128,
}

/// The environment of a message: its block and the address of this contract.
#[derive(Clone, Debug, PartialEq, Eq)]
pub struct Env {
    pub block: BlockInfo,
    pub contract_address: String,
}

/// Who sent a message, and the coins sent with it.
#[derive(Clone, Debug, PartialEq, Eq)]
pub struct MessageInfo {
    pub sender: String,
    pub funds: Vec<Coin>,
}

/// The result of validating an address on the chain: the address in its normal form, or
/// the chain's error.
pub type AddrCheck = Result<String, StdError>;

/// The message that creates a pool.
#[derive(Clone, Debug, PartialEq, Eq)]
pub struct InstantiateMsg {
    pub token1155_denom: Denom,
    pub token2_denom: Denom,
    pub lp_token_code_id: u64,
    pub max_slippage_percent: Decimal,
    pub protocol_fee_recipient: String,
    /// Fee percents are out of 100: 1 stands for 1%.
    pub protocol_fee_percent: Decimal,
    pub lp_fee_percent: Decimal,
}

/// The messages that act on a pool.
#[derive(Clone, Debug, PartialEq, Eq)]
pub enum ExecuteMsg {
    AddLiquidity {
        token1155_amounts: TokenMap,
        min_liquidity: u128,
        max_token2: u128,
        expiration: Option<Expiration>,
    },
    RemoveLiquidity {
        amount: u128,
        min_token1155: TokenAmount,
        min_token2: u128,
        expiration: Option<Expiration>,
    },
    Swap {
        input_token: TokenSelect,
        input_amount: TokenAmount,
        min_output: TokenAmount,
        expiration: Option<Expiration>,
    },
    /// A chained swap converting A to B and B to C through two pools.
    PassThroughSwap {
        output_amm_address: String,
        input_token: TokenSelect,
        input_token_amount: TokenAmount,
        output_min_token: TokenAmount,
        expiration: Option<Expiration>,
    },
    SwapAndSendTo {
        input_token: TokenSelect,
        input_amount: TokenAmount,
        recipient: String,
        min_token: TokenAmount,
        expiration: Option<Expiration>,
    },
    UpdateFee {
        protocol_fee_recipient: String,
        lp_fee_percent: Decimal,
        protocol_fee_percent: Decimal,
    },
    UpdateSlippage {
        max_slippage_percent: Decimal,
    },
    TransferOwnership {
        owner: Option<String>,
    },
    ClaimOwnership {},
    /// Freezes or unfreezes new deposits and swaps.
    FreezeDeposits {
        freeze: bool,
    },
}

/// The queries of a pool.
#[derive(Clone, Debug, PartialEq, Eq)]
pub enum QueryMsg {
    Info {},
    Token1155ForToken2Price { token1155_amount: TokenAmount },
    Token2ForToken1155Price { token2_amount: TokenAmount },
    Fee {},
    TokenSupplies { tokens_id: Vec<TokenId> },
    FreezeStatus {},
    Ownership {},
    Slippage {},
}

/// The reserves and denominations of a pool, and its liquidity token.
#[derive(Clone, Debug, PartialEq, Eq)]
pub struct InfoResponse {
    pub token1155_reserve: u128,
    pub token1155_denom: Denom,
    pub token2_reserve: u128,
    pub token2_denom: Denom,
    pub lp_token_supply: u128,
    pub lp_token_address: String,
}

/// The fees of a pool.
#[derive(Clone, Debug, PartialEq, Eq)]
pub struct FeeResponse {
    pub lp_fee_percent: Decimal,
    pub protocol_fee_percent: Decimal,
    pub protocol_fee_recipient: String,
}

/// The amount of the second token that an amount of 1155 tokens buys.
#[derive(Clone, Debug, PartialEq, Eq)]
pub struct Token1155ForToken2PriceResponse {
    pub token2_amount: u128,
}

/// The amount of 1155 tokens that an amount of the second token buys.
#[derive(Clone, Debug, PartialEq, Eq)]
pub struct Token2ForToken1155PriceResponse {
    pub token1155_amount: u128,
}

/// The pool's supply of each requested token id.
#[derive(Clone, Debug, PartialEq, Eq)]
pub struct TokenSuppliesResponse {
    pub supplies: Vec<u128>,
}

/// Whether deposits and swaps are frozen.
#[derive(Clone, Debug, PartialEq, Eq)]
pub struct FreezeStatusResponse {
    pub status: bool,
}

/// The owner of a pool, and the owner it is being handed to.
#[derive(Clone, Debug, PartialEq, Eq)]
pub struct OwnershipResponse {
    pub owner: String,
    pub pending_owner: Option<String>,
}

/// The largest slippage that a pool accepts.
#[derive(Clone, Debug, PartialEq, Eq)]
pub struct SlippageResponse {
    pub max_slippage_percent: Decimal,
}

/// A query for the metadata of a token id of the chain's token module.
#[derive(Clone, Debug, PartialEq, Eq)]
pub struct QueryTokenMetadataRequest {
    pub id: String,
}

/// The metadata of a token id of the chain's token module.
#[derive(Clone, Debug, PartialEq, Eq)]
pub struct QueryTokenMetadataResponse {
    pub name: String,
    pub description: String,
    pub decimals: String,
    pub image: String,
    pub index: String,
}

/// A query for the metadata of a native denomination of the bank module.
#[derive(Clone, Debug, PartialEq, Eq)]
pub struct QueryDenomMetadataRequest {
    pub denom: String,
}

/// Metadata of a native denomination.
#[derive(Clone, Debug, PartialEq, Eq)]
pub struct Metadata {
    pub description: String,
    pub base: String,
    pub display: String,
    pub name: String,
    pub symbol: String,
}

/// The metadata of a native denomination, where the bank module has it.
#[derive(Clone, Debug, PartialEq, Eq)]
pub struct QueryDenomMetadataResponse {
    pub metadata: Option<Metadata>,
}

} // verus!
