//! The errors of the contract.
use vstd::prelude::*;
use crate::decimal::Decimal;

verus! {

/// The arithmetic operation that overflowed.
#[derive(Clone, Copy, Debug, PartialEq, Eq, Structural)]
pub enum OverflowOperation {
    Add,
    Sub,
    Mul,
}

/// Errors of the standard kind: arithmetic, lookups, and failures reported by the chain
/// (address validation, queries).
#[derive(Clone, Debug, PartialEq, Eq)]
pub enum StdError {
    /// A failure described by its message.
    GenericErr { msg: String },
    /// A stored item that was looked for and is not there.
    NotFound { kind: String },
    /// An operation on two amounts overflowed.
    Overflow { operation: OverflowOperation, operand1: u128, operand2: u128 },
    /// An amount was divided by zero.
    DivideByZero { operand: u128 },
}

impl StdError {
    /// A copy of the error.
    pub fn copy(&self) -> (e: StdError)
        ensures
            e == *self,
    {
        match self {
            StdError::GenericErr { msg } => StdError::GenericErr { msg: msg.clone() },
            StdError::NotFound { kind } => StdError::NotFound { kind: kind.clone() },
            StdError::Overflow { operation, operand1, operand2 } =>
                StdError::Overflow { operation: *operation, operand1: *operand1, operand2: *operand2 },
            StdError::DivideByZero { operand } => StdError::DivideByZero { operand: *operand },
        }
    }
}

/// Errors of a multiplication by a fraction.
#[derive(Clone, Copy, Debug, PartialEq, Eq, Structural)]
pub enum FractionError {
    DivideByZero,
    ConversionOverflow,
    Overflow,
}

/// Errors of a payment check on the funds attached to a message.
#[derive(Clone, Debug, PartialEq, Eq)]
pub enum PaymentError {
    /// The funds are not of the requested denomination.
    MissingDenom(String),
    /// A denomination that is not accepted was sent.
    ExtraDenom(String),
    /// More than one denomination was sent.
    MultipleDenoms {},
    /// Nothing was sent.
    NoFunds {},
    /// Funds were sent where none are accepted.
    NonPayable {},
}

/// The errors of the swap contract.
#[allow(inconsistent_fields)]
#[derive(Clone, Debug, PartialEq, Eq)]
pub enum ContractError {
    Std(StdError),
    PaymentError(PaymentError),
    CheckedMultiplyFractionError(FractionError),
    Unauthorized {},
    MinLiquidityError { min_liquidity: u128, liquidity_available: u128 },
    MaxTokenError { max_token: u128, tokens_required: u128 },
    MinTokenAmountError { min_token: u128, min_required: u128 },
    MinTokenError {},
    InsufficientLiquidityError { requested: u128, available: u128 },
    MinToken1155Error { requested: u128, available: u128 },
    MinToken2Error { requested: u128, available: u128 },
    SwapMinError { min: u128, available: u128 },
    MsgExpirationError {},
    FeesTooHigh { max_fee_percent: Decimal, total_fee_percent: Decimal },
    FeesTooLow { min_fee_percent: Decimal, fee_percent: Decimal },
    InsufficientFunds {},
    UnknownReplyId { id: u64 },
    InstantiateLpTokenError {},
    InvalidTokenType {},
    InvalidTokenAmount { amount: u128 },
    InvalidOutputPool {},
    InvalidPercent { percent: Decimal, max: Decimal },
    UnauthorizedPoolFreeze {},
    FrozenPool {},
    DuplicatedTokenAddress { address: String },
    DuplicatedOwner {},
    DuplicatedFreezeStatus { freeze_status: bool },
    UnsupportedTokenDenom { id: String },
    InsufficientTokenSupply { requested: u128, available: u128 },
    MinInputTokenAmountError { input_token_amount: u128, min_allowed: u128 },
}

} // verus!
