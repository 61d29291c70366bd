//! The rules of the pool: validation, pricing, liquidity, swaps, ownership and fees.
use vstd::prelude::*;
use crate::decimal::Decimal;
use crate::error::{ContractError, OverflowOperation, PaymentError, StdError};
use crate::ids::EntryView;
use crate::msg::{
    AddrCheck, BlockInfo, Coin, Denom, Env, ExecuteMsg, Expiration, FeeResponse, FreezeStatusResponse,
    InfoResponse, InstantiateMsg, MessageInfo, OwnershipResponse, SlippageResponse,
    Token1155ForToken2PriceResponse, Token2ForToken1155PriceResponse, TokenSelect,
    TokenSuppliesResponse, spec_is_expired
};
use crate::pricing::{fee_fits, get_input_price, spec_input_price};
use crate::liquidity::{
    add_liquidity_result, execute_add_liquidity, execute_remove_liquidity, remove_liquidity_result,
    spec_add_liquidity, spec_remove_liquidity
};
use crate::swap::{
    execute_pass_through_swap, execute_swap, pass_through_swap_result, spec_pass_through_swap,
    spec_swap, swap_result, total_fee
};
use crate::response::{Event, InstantiateLpToken, Response};
use crate::state::{Fees, State, Token, slippage_valid};
use crate::supplies::TokenSupplies;
use crate::token_amount::{AmountView, TokenAmount, TokenMap, amount_of, amount_total, total, total_defined};
use crate::utils::{
    SCALE_FACTOR, calculate_amount_with_percent, decimal_to_uint128, spec_amount_with_percent,
    spec_decimal_to_uint128
};

verus! {

/// What a message comes to: done with the values it computed, refused with an error, refused
/// because the liquidity token is not yet known, refused for want of liquidity, or a
/// panic (which callers rule out).
pub enum Outcome<T> {
    Done(T),
    Fail(ContractError),
    LpTokenMissing,
    NoLiquidity,
    Panic,
}

/// The text of the error for a liquidity token that is not yet stored.
pub open spec fn lp_token_missing_text() -> Seq<char> {
    "type: cosmwasm_std::addr::Addr; key: [6C, 70, 5F, 74, 6F, 6B, 65, 6E]"@
}

/// The error for a liquidity token that is not yet stored.
pub fn lp_token_not_found() -> (e: StdError)
    ensures
        e matches StdError::NotFound { kind } && kind@ == lp_token_missing_text(),
{
    StdError::NotFound { kind: String::from_str("type: cosmwasm_std::addr::Addr; key: [6C, 70, 5F, 74, 6F, 6B, 65, 6E]") }
}

/// The result is the error for a liquidity token that is not yet stored.
pub open spec fn is_lp_token_missing<T>(r: Result<T, ContractError>) -> bool {
    r matches Err(ContractError::Std(StdError::NotFound { kind })) && kind@ == lp_token_missing_text()
}

/// The result is the error for an empty reserve.
pub open spec fn is_no_liquidity<T>(r: Result<T, ContractError>) -> bool {
    r matches Err(ContractError::Std(StdError::GenericErr { msg })) && msg@ == "No liquidity"@
}

/// The decimal 10: the largest slippage percent.
pub open spec fn max_slippage_limit() -> Decimal {
    Decimal { atomics: 10_000_000_000_000_000_000u128 }
}

/// The decimal 0.01: the smallest non-zero fee percent.
pub open spec fn min_fee_limit() -> Decimal {
    Decimal { atomics: 10_000_000_000_000_000u128 }
}

/// The decimal 5: the largest total fee percent.
pub open spec fn max_fees_limit() -> Decimal {
    Decimal { atomics: 5_000_000_000_000_000_000u128 }
}

/// A slippage percent must be above zero and below 10.
pub open spec fn spec_validate_slippage_percent(percent: Decimal) -> Result<(), ContractError> {
    if percent.atomics == 0 || percent.atomics >= max_slippage_limit().atomics {
        Err(ContractError::InvalidPercent { percent, max: max_slippage_limit() })
    } else {
        Ok(())
    }
}

/// Validates that a slippage percent is above zero and below the limit (10).
pub fn validate_slippage_percent(percent: Decimal) -> (r: Result<(), ContractError>)
    ensures
        r == spec_validate_slippage_percent(percent),
{
    let max_slippage_percent = crate::utils::predefined_max_slippage_percent();
    if percent.is_zero() || !percent.lt(&max_slippage_percent) {
        return Err(ContractError::InvalidPercent { percent, max: max_slippage_percent });
    }
    Ok(())
}

/// A fee percent must be zero or at least 0.01.
pub open spec fn spec_validate_fee_percent(percent: Decimal) -> Result<(), ContractError> {
    if percent.atomics == 0 {
        Ok(())
    } else if percent.atomics < min_fee_limit().atomics {
        Err(ContractError::FeesTooLow { min_fee_percent: min_fee_limit(), fee_percent: percent })
    } else {
        Ok(())
    }
}

/// Validates that a fee percent is zero or large enough for `SCALE_FACTOR` to express
/// (0.01%).
pub fn validate_fee_percent(percent: Decimal) -> (r: Result<(), ContractError>)
    ensures
        r == spec_validate_fee_percent(percent),
{
    if percent.is_zero() {
        return Ok(());
    }
    let min_fee_percent = crate::utils::min_fee_percent();
    if percent.lt(&min_fee_percent) {
        return Err(ContractError::FeesTooLow { min_fee_percent, fee_percent: percent });
    }
    Ok(())
}

/// The check of a new pool's denominations: the first must be an 1155-style token and the
/// second a cw20 or native token; their addresses must be valid (`token1155_check` and
/// `token2_check` are the chain's validation of the 1155 address and, for a cw20, of its
/// address), and two contract addresses must differ.
pub open spec fn spec_validate_input_tokens(token1155_denom: Denom, token2_denom: Denom, token1155_check: AddrCheck, token2_check: AddrCheck) -> Result<(), ContractError> {
    match (token1155_denom, token2_denom) {
        (Denom::Cw1155(a1, _), Denom::Cw20(a2)) => match (token1155_check, token2_check) {
            (Err(e), _) => Err(ContractError::Std(e)),
            (Ok(_), Err(e)) => Err(ContractError::Std(e)),
            (Ok(_), Ok(_)) => if a1@ == a2@ {
                Err(ContractError::DuplicatedTokenAddress { address: a1 })
            } else {
                Ok(())
            },
        },
        (Denom::Cw1155(_, _), Denom::Native(_)) => match token1155_check {
            Err(e) => Err(ContractError::Std(e)),
            Ok(_) => Ok(()),
        },
        _ => Err(ContractError::InvalidTokenType {}),
    }
}

/// Validates the denominations of a new pool, as `spec_validate_input_tokens` says.
pub fn validate_input_tokens(
    token1155_denom: &Denom,
    token2_denom: &Denom,
    token1155_check: AddrCheck,
    token2_check: AddrCheck,
) -> (r: Result<(), ContractError>)
    ensures
        r == spec_validate_input_tokens(*token1155_denom, *token2_denom, token1155_check, token2_check),
{
    match (token1155_denom, token2_denom) {
        (Denom::Cw1155(token1155_addr, _), Denom::Cw20(token2_addr)) => {
            match token1155_check {
                Err(e) => return Err(ContractError::Std(e)),
                Ok(_) => {},
            }
            match token2_check {
                Err(e) => return Err(ContractError::Std(e)),
                Ok(_) => {},
            }
            if token1155_addr.eq(token2_addr) {
                return Err(ContractError::DuplicatedTokenAddress { address: token1155_addr.clone() });
            }
        },
        (Denom::Cw1155(_, _), Denom::Native(_)) => {
            match token1155_check {
                Err(e) => return Err(ContractError::Std(e)),
                Ok(_) => {},
            }
        },
        _ => return Err(ContractError::InvalidTokenType {}),
    }
    Ok(())
}

/// An expired message is refused.
pub open spec fn spec_check_expiration(expiration: Option<Expiration>, block: BlockInfo) -> Result<(), ContractError> {
    match expiration {
        Some(e) => if spec_is_expired(e, block) {
            Err(ContractError::MsgExpirationError {})
        } else {
            Ok(())
        },
        None => Ok(()),
    }
}

/// Validates that the expiration, if any, has not passed at the block's height or time.
pub fn check_expiration(expiration: &Option<Expiration>, block: &BlockInfo) -> (r: Result<(), ContractError>)
    ensures
        r == spec_check_expiration(*expiration, *block),
{
    match expiration {
        Some(e) => {
            if e.is_expired(block) {
                return Err(ContractError::MsgExpirationError {});
            }
            Ok(())
        },
        None => Ok(()),
    }
}

/// The liquidity tokens minted for a deposit: the deposit itself into an empty pool,
/// otherwise its share of the supply, rounded down.
pub open spec fn spec_lp_token_amount_to_mint(token1_amount: u128, liquidity_supply: u128, token1_reserve: u128) -> Result<u128, ContractError> {
    if liquidity_supply == 0 {
        Ok(token1_amount)
    } else if token1_amount * liquidity_supply > u128::MAX {
        Err(ContractError::Std(StdError::Overflow { operation: OverflowOperation::Mul, operand1: token1_amount, operand2: liquidity_supply }))
    } else if token1_reserve == 0 {
        Err(ContractError::Std(StdError::DivideByZero { operand: (token1_amount * liquidity_supply) as u128 }))
    } else {
        Ok(((token1_amount * liquidity_supply) / (token1_reserve as int)) as u128)
    }
}

/// Calculates the liquidity tokens to mint: `token1_amount` into an empty pool, otherwise
/// `token1_amount * liquidity_supply / token1_reserve`.
pub fn get_lp_token_amount_to_mint(token1_amount: u128, liquidity_supply: u128, token1_reserve: u128) -> (r: Result<u128, ContractError>)
    ensures
        r == spec_lp_token_amount_to_mint(token1_amount, liquidity_supply, token1_reserve),
{
    if liquidity_supply == 0 {
        return Ok(token1_amount);
    }
    let product = match token1_amount.checked_mul(liquidity_supply) {
        Some(p) => p,
        None => return Err(ContractError::Std(StdError::Overflow {
            operation: OverflowOperation::Mul,
            operand1: token1_amount,
            operand2: liquidity_supply,
        })),
    };
    if token1_reserve == 0 {
        return Err(ContractError::Std(StdError::DivideByZero { operand: product }));
    }
    Ok(product / token1_reserve)
}

/// The second token owed with a deposit: all that is offered into an empty pool,
/// otherwise the deposit's share of the second reserve, rounded down, plus one.
pub open spec fn spec_token2_amount_required(
    max_token: u128,
    token1_amount: u128,
    liquidity_supply: u128,
    token2_reserve: u128,
    token1_reserve: u128,
) -> Result<u128, StdError> {
    if liquidity_supply == 0 {
        Ok(max_token)
    } else if token1_amount * token2_reserve > u128::MAX {
        Err(StdError::Overflow { operation: OverflowOperation::Mul, operand1: token1_amount, operand2: token2_reserve })
    } else if token1_reserve == 0 {
        Err(StdError::DivideByZero { operand: (token1_amount * token2_reserve) as u128 })
    } else if (token1_amount * token2_reserve) / (token1_reserve as int) + 1 > u128::MAX {
        Err(StdError::Overflow {
            operation: OverflowOperation::Add,
            operand1: ((token1_amount * token2_reserve) / (token1_reserve as int)) as u128,
            operand2: 1,
        })
    } else {
        Ok(((token1_amount * token2_reserve) / (token1_reserve as int) + 1) as u128)
    }
}

/// Calculates the second token required with a deposit: `max_token` into an empty pool,
/// otherwise `token1_amount * token2_reserve / token1_reserve + 1`.
pub fn get_token2_amount_required(
    max_token: u128,
    token1_amount: u128,
    liquidity_supply: u128,
    token2_reserve: u128,
    token1_reserve: u128,
) -> (r: Result<u128, StdError>)
    ensures
        r == spec_token2_amount_required(max_token, token1_amount, liquidity_supply, token2_reserve, token1_reserve),
{
    if liquidity_supply == 0 {
        return Ok(max_token);
    }
    let product = match token1_amount.checked_mul(token2_reserve) {
        Some(p) => p,
        None => return Err(StdError::Overflow {
            operation: OverflowOperation::Mul,
            operand1: token1_amount,
            operand2: token2_reserve,
        }),
    };
    if token1_reserve == 0 {
        return Err(StdError::DivideByZero { operand: product });
    }
    let quotient = product / token1_reserve;
    match quotient.checked_add(1) {
        Some(x) => Ok(x),
        None => Err(StdError::Overflow { operation: OverflowOperation::Add, operand1: quotient, operand2: 1 }),
    }
}

/// Validates that a minimum amount is above zero.
pub fn validate_min_token(min_token: u128) -> (r: Result<(), ContractError>)
    ensures
        r == (if min_token == 0 { Err::<(), ContractError>(ContractError::MinTokenError {}) } else { Ok(()) }),
{
    if min_token == 0 {
        return Err(ContractError::MinTokenError {});
    }
    Ok(())
}

/// The smallest acceptable minimum for an amount under a slippage percent: the amount less
/// its slippage part, rounded up.
pub open spec fn spec_validate_slippage(max_slippage: Decimal, min_token_amount: u128, actual_token_amount: u128) -> Result<(), ContractError> {
    match spec_decimal_to_uint128(max_slippage) {
        Err(e) => Err(ContractError::Std(e)),
        Ok(p) => match spec_amount_with_percent(actual_token_amount, p) {
            Err(e) => Err(e),
            Ok(impact) => if min_token_amount < actual_token_amount - impact {
                Err(ContractError::MinTokenAmountError {
                    min_token: min_token_amount,
                    min_required: (actual_token_amount - impact) as u128,
                })
            } else {
                Ok(())
            },
        },
    }
}

/// Whether the slippage part of an amount can be taken from it: true of every slippage
/// percent of at most 100.
pub open spec fn slippage_fits(max_slippage: Decimal, actual_token_amount: u128) -> bool {
    spec_decimal_to_uint128(max_slippage) matches Ok(p) ==> (
        spec_amount_with_percent(actual_token_amount, p) matches Ok(impact) ==> impact <= actual_token_amount)
}

/// Validates that `min_token_amount` is no lower than `actual_token_amount` less the
/// largest slippage the pool allows.
pub fn validate_slippage(max_slippage: Decimal, min_token_amount: u128, actual_token_amount: u128) -> (r: Result<(), ContractError>)
    requires
        slippage_fits(max_slippage, actual_token_amount),
    ensures
        r == spec_validate_slippage(max_slippage, min_token_amount, actual_token_amount),
{
    let max_slippage_percent = match decimal_to_uint128(max_slippage) {
        Ok(p) => p,
        Err(e) => return Err(ContractError::Std(e)),
    };
    let slippage_impact = match calculate_amount_with_percent(actual_token_amount, max_slippage_percent) {
        Ok(x) => x,
        Err(e) => return Err(e),
    };
    let min_required_amount = actual_token_amount - slippage_impact;
    if min_token_amount < min_required_amount {
        return Err(ContractError::MinTokenAmountError {
            min_token: min_token_amount,
            min_required: min_required_amount,
        });
    }
    Ok(())
}

/// A valid slippage percent (below 10) never takes more than the whole amount, so its
/// check never fails to compute.
pub proof fn lemma_valid_slippage_fits(max_slippage: Decimal, actual_token_amount: u128)
    requires
        slippage_valid(max_slippage),
    ensures
        slippage_fits(max_slippage, actual_token_amount),
{
    let a = max_slippage.atomics as int;
    assert(a * 10000 <= 100_000_000_000_000_000_000_000int) by (nonlinear_arith)
        requires a <= 10_000_000_000_000_000_000int;
    let p = (a * 10000) / 100_000_000_000_000_000_000int;
    assert(0 <= p <= 1000) by (nonlinear_arith)
        requires p == (a * 10000) / 100_000_000_000_000_000_000int, 0 <= a * 10000 <= 100_000_000_000_000_000_000_000int;
    let n = actual_token_amount as nat;
    assert(crate::utils::ceil_percent_of(n, p as nat) <= n) by (nonlinear_arith)
        requires p <= 1000, crate::utils::ceil_percent_of(n, p as nat) == (n * p + 9999) / 10000;
}

/// The payment check on the coins sent with a message: exactly one coin, non-zero and of
/// `denom`, gives its amount; otherwise the error says what was wrong: nothing sent (or
/// zero), several coins, or another denomination.
pub open spec fn spec_must_pay(funds: Seq<Coin>, denom: String) -> Result<u128, PaymentError> {
    if funds.len() == 0 {
        Err(PaymentError::NoFunds {})
    } else if funds.len() > 1 {
        Err(PaymentError::MultipleDenoms {})
    } else if funds[0].amount == 0 {
        Err(PaymentError::NoFunds {})
    } else if funds[0].denom@ != denom@ {
        Err(PaymentError::MissingDenom(denom))
    } else {
        Ok(funds[0].amount)
    }
}

/// Requires exactly one coin, non-zero and of `denom`, and returns its amount, as
/// `spec_must_pay` says.
pub fn must_pay(funds: &Vec<Coin>, denom: &String) -> (r: Result<u128, PaymentError>)
    ensures
        r == spec_must_pay(funds@, *denom),
{
    if funds.len() == 0 {
        return Err(PaymentError::NoFunds {});
    }
    if funds.len() > 1 {
        return Err(PaymentError::MultipleDenoms {});
    }
    let coin = &funds[0];
    if coin.amount == 0 {
        return Err(PaymentError::NoFunds {});
    }
    if !coin.denom.eq(denom) {
        return Err(PaymentError::MissingDenom(denom.clone()));
    }
    Ok(coin.amount)
}

/// The check of the coins sent for an input of a native token: the payment must pass,
/// the input must be a single amount, and the amounts must agree. Other tokens are not
/// checked here.
pub open spec fn spec_validate_input_amount(funds: Seq<Coin>, amount: AmountView, denom: Denom) -> Result<(), ContractError> {
    match denom {
        Denom::Native(d) => match spec_must_pay(funds, d) {
            Err(e) => Err(ContractError::PaymentError(e)),
            Ok(paid) => match amount {
                AmountView::Single(a) => if paid != a { Err(ContractError::InsufficientFunds {}) } else { Ok(()) },
                AmountView::Multiple(s) => Err(ContractError::InvalidTokenAmount { amount: total(s) as u128 }),
            },
        },
        _ => Ok(()),
    }
}

/// Whether the check of the coins sent can compute the input's total where it needs it.
pub open spec fn input_amount_checkable(funds: Seq<Coin>, amount: AmountView, denom: Denom) -> bool {
    denom matches Denom::Native(d) && spec_must_pay(funds, d) is Ok ==> total_defined(amount)
}

/// Validates that, for a native token, the coins sent are exactly the given single amount,
/// as `spec_validate_input_amount` says.
pub fn validate_input_amount(actual_funds: &Vec<Coin>, given_amount: &TokenAmount, given_denom: &Denom) -> (r: Result<(), ContractError>)
    requires
        input_amount_checkable(actual_funds@, given_amount@, *given_denom),
    ensures
        r == spec_validate_input_amount(actual_funds@, given_amount@, *given_denom),
{
    match given_denom {
        Denom::Native(denom) => {
            let actual_amount = match must_pay(actual_funds, denom) {
                Ok(a) => a,
                Err(e) => return Err(ContractError::PaymentError(e)),
            };
            let given = match given_amount.get_single() {
                Ok(a) => a,
                Err(e) => return Err(e),
            };
            if actual_amount != given {
                return Err(ContractError::InsufficientFunds {});
            }
            Ok(())
        },
        _ => Ok(()),
    }
}

/// Whether the token names are all the accepted name up to position `n`.
pub open spec fn names_match_upto(names: Seq<Result<String, StdError>>, supported: Seq<char>, n: int) -> bool {
    forall|i: int| 0 <= i < n ==> ((#[trigger] names[i]) matches Ok(name) && name@ == supported)
}

/// The check of token names from position `i` on: the first name that is an error, or
/// that is not the accepted one, gives the error.
pub open spec fn names_check_from(supported: Seq<char>, entries: Seq<(String, u128)>, names: Seq<Result<String, StdError>>, i: int) -> Result<(), ContractError>
    decreases names.len() - i,
{
    if i < 0 || i >= names.len() {
        Ok(())
    } else {
        match names[i] {
            Err(e) => Err(ContractError::Std(e)),
            Ok(name) => if name@ != supported {
                Err(ContractError::UnsupportedTokenDenom { id: entries[i].0 })
            } else {
                names_check_from(supported, entries, names, i + 1)
            },
        }
    }
}

/// The check that every id of an 1155 amount belongs to the accepted denomination, given
/// the chain's token metadata name of each id in order.
pub open spec fn spec_token1155_denom(denom: Denom, entries: Seq<(String, u128)>, names: Seq<Result<String, StdError>>) -> Result<(), ContractError> {
    match denom {
        Denom::Cw1155(_, supported) => names_check_from(supported@, entries, names, 0),
        _ => Ok(()),
    }
}

/// Validates that every token id of an 1155 amount belongs to the accepted denomination:
/// `token_names[i]` is the chain's token metadata name of the `i`-th id (or the error of
/// that query). The first id whose query failed or whose name differs gives the error.
pub fn validate_token1155_denom(denom: &Denom, tokens: &TokenMap, token_names: &Vec<Result<String, StdError>>) -> (r: Result<(), ContractError>)
    requires
        token_names@.len() == tokens@.len(),
    ensures
        r == spec_token1155_denom(*denom, tokens.entries@, token_names@),
        denom matches Denom::Cw1155(_, supported) ==> (r is Ok <==> names_match_upto(token_names@, supported@, tokens@.len() as int)),
{
    match denom {
        Denom::Cw1155(_, supported_denom) => {
            let ghost sup = supported_denom@;
            let ghost entries = tokens.entries@;
            let ghost names = token_names@;
            let mut i: usize = 0;
            let len = tokens.entries.len();
            while i < len
                invariant
                    i <= len,
                    len == tokens@.len(),
                    len == entries.len(),
                    names == token_names@,
                    entries == tokens.entries@,
                    sup == supported_denom@,
                    token_names@.len() == len,
                    names_match_upto(token_names@, supported_denom@, i as int),
                    names_check_from(sup, entries, names, 0) == names_check_from(sup, entries, names, i as int),
                ensures
                    i <= len,
                    names_match_upto(token_names@, supported_denom@, i as int),
                    names_check_from(sup, entries, names, 0) == names_check_from(sup, entries, names, i as int),
                    i < len ==> !(token_names@[i as int] matches Ok(n) && n@ == supported_denom@),
                decreases len - i,
            {
                let matched = match &token_names[i] {
                    Err(_) => false,
                    Ok(name) => name.eq(supported_denom),
                };
                if !matched {
                    break;
                }
                proof {
                    assert(names_check_from(sup, entries, names, i as int) == names_check_from(sup, entries, names, i + 1));
                }
                i = i + 1;
            }
            if i < len {
                proof {
                    assert(!names_match_upto(token_names@, supported_denom@, len as int));
                }
                let res = match &token_names[i] {
                    Err(e) => Err(ContractError::Std(e.copy())),
                    Ok(_) => Err(ContractError::UnsupportedTokenDenom { id: tokens.entries[i].0.clone() }),
                };
                return res;
            }
            proof {
                assert(names_check_from(sup, entries, names, len as int) == Ok::<(), ContractError>(()));
            }
            Ok(())
        },
        _ => Ok(()),
    }
}

/// The result of `FreezeDeposits`: only the owner may change the freeze status, and only
/// to the other status.
pub open spec fn freeze_result(old: State, new: State, r: Result<Response, ContractError>, sender: String, freeze: bool) -> bool {
    if sender@ != old.owner@ {
        r == Err::<Response, ContractError>(ContractError::UnauthorizedPoolFreeze {}) && new == old
    } else if old.frozen == freeze {
        r == Err::<Response, ContractError>(ContractError::DuplicatedFreezeStatus { freeze_status: freeze }) && new == old
    } else {
        r matches Ok(resp) && resp.messages@.len() == 0 && resp.submessage is None
            && resp.event == (Event::FreezeDeposits { frozen: freeze })
            && new == (State { frozen: freeze, ..old })
    }
}

/// Executes `FreezeDeposits`: only the owner may freeze or unfreeze deposits and swaps,
/// and only to a status other than the current one.
pub fn execute_freeze_deposits(state: &mut State, sender: &String, freeze: bool) -> (r: Result<Response, ContractError>)
    ensures
        freeze_result(*old(state), *final(state), r, *sender, freeze),

{
    if !sender.eq(&state.owner) {
        return Err(ContractError::UnauthorizedPoolFreeze {});
    }
    if state.frozen == freeze {
        return Err(ContractError::DuplicatedFreezeStatus { freeze_status: state.frozen });
    }
    state.frozen = freeze;
    Ok(Response { messages: Vec::new(), submessage: None, event: Event::FreezeDeposits { frozen: freeze } })
}

/// The address that a validation gave, if any was asked for and it succeeded.
pub open spec fn validated(o: Option<AddrCheck>) -> Option<String> {
    match o {
        Some(Ok(a)) => Some(a),
        _ => None,
    }
}

/// The result of `TransferOwnership`: only the owner may name a pending owner; a failed
/// validation of the new owner's address, or the current owner, is refused.
pub open spec fn transfer_ownership_result(old: State, new: State, r: Result<Response, ContractError>, sender: String, new_owner: Option<AddrCheck>) -> bool {
    if sender@ != old.owner@ {
        r == Err::<Response, ContractError>(ContractError::Unauthorized {}) && new == old
    } else if new_owner matches Some(Err(e)) {
        r == Err::<Response, ContractError>(ContractError::Std(new_owner->Some_0->Err_0)) && new == old
    } else if new_owner matches Some(Ok(a)) && a@ == old.owner@ {
        r == Err::<Response, ContractError>(ContractError::DuplicatedOwner {}) && new == old
    } else {
        r matches Ok(resp) && resp.messages@.len() == 0 && resp.submessage is None
            && resp.event == (Event::TransferOwnership { pending_owner: validated(new_owner) })
            && new == (State { pending_owner: validated(new_owner), ..old })
    }
}

/// Executes `TransferOwnership`: the owner names a new owner (validated on the chain:
/// `new_owner` is that validation, `None` to withdraw the offer), who becomes the pending
/// owner until it claims. Naming the current owner is refused.
pub fn execute_transfer_ownership(state: &mut State, sender: &String, new_owner: Option<AddrCheck>) -> (r: Result<Response, ContractError>)
    ensures
        transfer_ownership_result(*old(state), *final(state), r, *sender, new_owner),

{
    if !sender.eq(&state.owner) {
        return Err(ContractError::Unauthorized {});
    }
    let new_owner_addr = match new_owner {
        Some(Err(e)) => return Err(ContractError::Std(e)),
        Some(Ok(a)) => {
            if a.eq(&state.owner) {
                return Err(ContractError::DuplicatedOwner {});
            }
            Some(a)
        },
        None => None,
    };
    let pending_owner = match &new_owner_addr {
        Some(a) => Some(a.clone()),
        None => None,
    };
    state.pending_owner = new_owner_addr;
    Ok(Response { messages: Vec::new(), submessage: None, event: Event::TransferOwnership { pending_owner } })
}

/// The result of `ClaimOwnership`: the pending owner, and only it, becomes the owner; with
/// no pending owner nothing changes.
pub open spec fn claim_ownership_result(old: State, new: State, r: Result<Response, ContractError>, sender: String) -> bool {
    match old.pending_owner {
        None => r matches Ok(resp) && resp.messages@.len() == 0 && resp.submessage is None
            && resp.event == (Event::ClaimOwnership { owner: None }) && new == old,
        Some(p) => if sender@ != p@ {
            r == Err::<Response, ContractError>(ContractError::Unauthorized {}) && new == old
        } else {
            r matches Ok(resp) && resp.messages@.len() == 0 && resp.submessage is None
                && resp.event == (Event::ClaimOwnership { owner: Some(p) })
                && new == (State { owner: p, pending_owner: None, ..old })
        },
    }
}

/// Executes `ClaimOwnership`: the pending owner, and only it, becomes the owner. With no
/// pending owner nothing changes.
pub fn execute_claim_ownership(state: &mut State, sender: &String) -> (r: Result<Response, ContractError>)
    ensures
        claim_ownership_result(*old(state), *final(state), r, *sender),

{
    match &state.pending_owner {
        None => Ok(Response { messages: Vec::new(), submessage: None, event: Event::ClaimOwnership { owner: None } }),
        Some(p) => {
            if !sender.eq(p) {
                return Err(ContractError::Unauthorized {});
            }
            let new_owner = p.clone();
            let claimed = p.clone();
            state.owner = new_owner;
            state.pending_owner = None;
            Ok(Response { messages: Vec::new(), submessage: None, event: Event::ClaimOwnership { owner: Some(claimed) } })
        },
    }
}

/// The result of `UpdateSlippage`: only the owner may set the largest slippage percent,
/// which must pass `spec_validate_slippage_percent`.
pub open spec fn update_slippage_result(old: State, new: State, r: Result<Response, ContractError>, sender: String, max_slippage_percent: Decimal) -> bool {
    if sender@ != old.owner@ {
        r == Err::<Response, ContractError>(ContractError::Unauthorized {}) && new == old
    } else if spec_validate_slippage_percent(max_slippage_percent) is Err {
        r == Err::<Response, ContractError>(spec_validate_slippage_percent(max_slippage_percent)->Err_0) && new == old
    } else {
        r matches Ok(resp) && resp.messages@.len() == 0 && resp.submessage is None
            && resp.event == (Event::UpdateSlippage { max_slippage_percent })
            && new == (State { max_slippage_percent, ..old })
    }
}

/// Executes `UpdateSlippage`: the owner sets the largest slippage percent, which must be
/// above zero and below 10.
pub fn execute_update_slippage(state: &mut State, sender: &String, max_slippage_percent: Decimal) -> (r: Result<Response, ContractError>)
    ensures
        update_slippage_result(*old(state), *final(state), r, *sender, max_slippage_percent),
        old(state).wf() ==> final(state).wf(),

{
    if !sender.eq(&state.owner) {
        return Err(ContractError::Unauthorized {});
    }
    match validate_slippage_percent(max_slippage_percent) {
        Err(e) => return Err(e),
        Ok(_) => {},
    }
    state.max_slippage_percent = max_slippage_percent;
    Ok(Response { messages: Vec::new(), submessage: None, event: Event::UpdateSlippage { max_slippage_percent } })
}

/// The fee rules on two fee percents: each valid, and their total at most 5.
pub open spec fn spec_check_fees(lp_fee_percent: Decimal, protocol_fee_percent: Decimal) -> Result<(), ContractError> {
    match spec_validate_fee_percent(lp_fee_percent) {
        Err(e) => Err(e),
        Ok(_) => match spec_validate_fee_percent(protocol_fee_percent) {
            Err(e) => Err(e),
            Ok(_) => if lp_fee_percent.atomics + protocol_fee_percent.atomics > max_fees_limit().atomics {
                Err(ContractError::FeesTooHigh {
                    max_fee_percent: max_fees_limit(),
                    total_fee_percent: Decimal { atomics: (lp_fee_percent.atomics + protocol_fee_percent.atomics) as u128 },
                })
            } else {
                Ok(())
            },
        },
    }
}

/// Whether two fee percents that pass their own checks can be added without overflow.
pub open spec fn fees_addable(lp_fee_percent: Decimal, protocol_fee_percent: Decimal) -> bool {
    spec_validate_fee_percent(lp_fee_percent) is Ok && spec_validate_fee_percent(protocol_fee_percent) is Ok
        ==> lp_fee_percent.atomics + protocol_fee_percent.atomics <= u128::MAX
}

/// Checks the fee rules: each fee percent valid, then their total at most 5.
pub fn check_fees(lp_fee_percent: Decimal, protocol_fee_percent: Decimal) -> (r: Result<(), ContractError>)
    requires
        fees_addable(lp_fee_percent, protocol_fee_percent),
    ensures
        r == spec_check_fees(lp_fee_percent, protocol_fee_percent),
        r is Ok ==> lp_fee_percent.atomics + protocol_fee_percent.atomics <= max_fees_limit().atomics,
{
    match validate_fee_percent(lp_fee_percent) {
        Err(e) => return Err(e),
        Ok(_) => {},
    }
    match validate_fee_percent(protocol_fee_percent) {
        Err(e) => return Err(e),
        Ok(_) => {},
    }
    let total_fee_percent = lp_fee_percent.add(&protocol_fee_percent);
    let max_fee_percent = crate::utils::predefined_max_fees_percent();
    if max_fee_percent.lt(&total_fee_percent) {
        return Err(ContractError::FeesTooHigh { max_fee_percent, total_fee_percent });
    }
    Ok(())
}

/// The result of `UpdateFee`: only the owner may set the fees, which must keep the fee
/// rules, with a validated recipient address.
pub open spec fn update_fee_result(
    old: State,
    new: State,
    r: Result<Response, ContractError>,
    sender: String,
    lp_fee_percent: Decimal,
    protocol_fee_percent: Decimal,
    recipient: AddrCheck,
) -> bool {
    if sender@ != old.owner@ {
        r == Err::<Response, ContractError>(ContractError::Unauthorized {}) && new == old
    } else if spec_check_fees(lp_fee_percent, protocol_fee_percent) is Err {
        r == Err::<Response, ContractError>(spec_check_fees(lp_fee_percent, protocol_fee_percent)->Err_0) && new == old
    } else {
        match recipient {
            Err(e) => r == Err::<Response, ContractError>(ContractError::Std(e)) && new == old,
            Ok(addr) => r matches Ok(resp) && resp.messages@.len() == 0 && resp.submessage is None
                && resp.event == (Event::UpdateFee { lp_fee_percent, protocol_fee_percent, protocol_fee_recipient: addr })
                && new == (State {
                    fees: Fees { protocol_fee_recipient: addr, protocol_fee_percent, lp_fee_percent },
                    ..old
                }),
        }
    }
}

/// Executes `UpdateFee`: the owner sets both fee percents, which must keep the fee rules,
/// and the protocol fee recipient (`recipient` is the chain's validation of its address).
pub fn execute_update_fee(
    state: &mut State,
    sender: &String,
    lp_fee_percent: Decimal,
    protocol_fee_percent: Decimal,
    recipient: AddrCheck,
) -> (r: Result<Response, ContractError>)
    requires
        fees_addable(lp_fee_percent, protocol_fee_percent),
    ensures
        update_fee_result(*old(state), *final(state), r, *sender, lp_fee_percent, protocol_fee_percent, recipient),
        old(state).wf() ==> final(state).wf(),

{
    if !sender.eq(&state.owner) {
        return Err(ContractError::Unauthorized {});
    }
    match check_fees(lp_fee_percent, protocol_fee_percent) {
        Err(e) => return Err(e),
        Ok(_) => {},
    }
    let protocol_fee_recipient = match recipient {
        Err(e) => return Err(ContractError::Std(e)),
        Ok(a) => a,
    };
    let reported = protocol_fee_recipient.clone();
    state.fees = Fees { protocol_fee_recipient, protocol_fee_percent, lp_fee_percent };
    Ok(Response {
        messages: Vec::new(),
        submessage: None,
        event: Event::UpdateFee { lp_fee_percent, protocol_fee_percent, protocol_fee_recipient: reported },
    })
}

/// What the chain answered for a message, asked before the message is executed.
#[derive(Debug)]
pub struct ChainAnswers {
    /// The token metadata name of each id of the message's 1155 amount, in order.
    pub token_names: Vec<Result<String, StdError>>,
    /// The liquidity token's supply.
    pub lp_token_supply: Result<u128, StdError>,
    /// The sender's balance of the liquidity token.
    pub lp_token_balance: Result<u128, StdError>,
    /// The validation of the address that the message names: the recipient of a swap (the
    /// sender for `Swap`), the second pool of a pass-through swap, the fee recipient, or
    /// the new owner (none where the offer is withdrawn).
    pub address: Option<AddrCheck>,
    /// The second pool's reserves and denominations, for a pass-through swap.
    pub output_pool: Result<InfoResponse, StdError>,
}

/// The 1155 ids whose names a message needs: those of an 1155 input or deposit.
pub open spec fn names_fit(msg: ExecuteMsg, names: Seq<Result<String, StdError>>) -> bool {
    match msg {
        ExecuteMsg::AddLiquidity { token1155_amounts, .. } => names.len() == token1155_amounts@.len(),
        ExecuteMsg::Swap { input_token, input_amount, .. } =>
            input_token == TokenSelect::Token1155 && input_amount is Multiple ==> names.len() == input_amount@->Multiple_0.len(),
        ExecuteMsg::SwapAndSendTo { input_token, input_amount, .. } =>
            input_token == TokenSelect::Token1155 && input_amount is Multiple ==> names.len() == input_amount@->Multiple_0.len(),
        ExecuteMsg::PassThroughSwap { input_token, input_token_amount, .. } =>
            input_token == TokenSelect::Token1155 && input_token_amount is Multiple ==> names.len() == input_token_amount@->Multiple_0.len(),
        _ => true,
    }
}

/// What a message needs in order to run without a panic: its amounts well formed, the
/// answers it reads present, and no panic on the pool's state.
pub open spec fn execute_runs(state: State, env: Env, info: MessageInfo, msg: ExecuteMsg, chain: ChainAnswers) -> bool {
    &&& state.token_supplies.wf()
    &&& names_fit(msg, chain.token_names@)
    &&& match msg {
        ExecuteMsg::AddLiquidity { token1155_amounts, min_liquidity, max_token2, expiration } =>
            token1155_amounts.wf() && (!state.frozen ==> !(spec_add_liquidity(state, info.funds@, env.block, min_liquidity,
                token1155_amounts, max_token2, expiration, chain.token_names@, chain.lp_token_supply) is Panic)),
        ExecuteMsg::RemoveLiquidity { amount, min_token1155, min_token2, expiration } =>
            min_token1155.wf() && !(spec_remove_liquidity(state, env.block, amount, min_token1155@, min_token2, expiration,
                chain.lp_token_balance, chain.lp_token_supply) is Panic),
        ExecuteMsg::Swap { input_token, input_amount, min_output, expiration } =>
            input_amount.wf() && min_output.wf() && chain.address is Some
                && (!state.frozen ==> !(spec_swap(state, info, env.contract_address@, env.block, input_token, input_amount,
                    min_output@, expiration, chain.token_names@, chain.address->Some_0) is Panic)),
        ExecuteMsg::SwapAndSendTo { input_token, input_amount, min_token, expiration, .. } =>
            input_amount.wf() && min_token.wf() && chain.address is Some
                && (!state.frozen ==> !(spec_swap(state, info, env.contract_address@, env.block, input_token, input_amount,
                    min_token@, expiration, chain.token_names@, chain.address->Some_0) is Panic)),
        ExecuteMsg::PassThroughSwap { input_token, input_token_amount, output_min_token, expiration, .. } =>
            input_token_amount.wf() && chain.address is Some
                && (!state.frozen ==> !(spec_pass_through_swap(state, info, env.contract_address@, env.block, input_token,
                    input_token_amount, output_min_token@, expiration, chain.token_names@, chain.address->Some_0,
                    chain.output_pool) is Panic)),
        ExecuteMsg::UpdateFee { lp_fee_percent, protocol_fee_percent, .. } =>
            chain.address is Some && fees_addable(lp_fee_percent, protocol_fee_percent),
        ExecuteMsg::TransferOwnership { owner } => owner is Some == chain.address is Some,
        _ => true,
    }
}

/// The result of a message on a pool in state `old`, leaving it in state `new`: deposits
/// and swaps are refused while the pool is frozen; otherwise each message has the result
/// of its own handler.
pub open spec fn execute_result(
    old: State,
    new: State,
    r: Result<Response, ContractError>,
    env: Env,
    info: MessageInfo,
    msg: ExecuteMsg,
    chain: ChainAnswers,
) -> bool {
    let frozen_refusal = r == Err::<Response, ContractError>(ContractError::FrozenPool {}) && new == old;
    match msg {
        ExecuteMsg::AddLiquidity { token1155_amounts, min_liquidity, max_token2, expiration } => if old.frozen {
            frozen_refusal
        } else {
            add_liquidity_result(old, new, r, info, env, min_liquidity, token1155_amounts, max_token2, expiration,
                chain.token_names@, chain.lp_token_supply)
        },
        ExecuteMsg::RemoveLiquidity { amount, min_token1155, min_token2, expiration } =>
            remove_liquidity_result(old, new, r, info, env, amount, min_token1155, min_token2, expiration,
                chain.lp_token_balance, chain.lp_token_supply),
        ExecuteMsg::Swap { input_token, input_amount, min_output, expiration } => if old.frozen {
            frozen_refusal
        } else {
            swap_result(old, new, r, info, input_amount, env, input_token, chain.address->Some_0, min_output, expiration,
                chain.token_names@)
        },
        ExecuteMsg::SwapAndSendTo { input_token, input_amount, min_token, expiration, .. } => if old.frozen {
            frozen_refusal
        } else {
            swap_result(old, new, r, info, input_amount, env, input_token, chain.address->Some_0, min_token, expiration,
                chain.token_names@)
        },
        ExecuteMsg::PassThroughSwap { input_token, input_token_amount, output_min_token, expiration, .. } => if old.frozen {
            frozen_refusal
        } else {
            pass_through_swap_result(old, new, r, info, env, chain.address->Some_0, input_token, input_token_amount,
                output_min_token, expiration, chain.token_names@, chain.output_pool)
        },
        ExecuteMsg::UpdateFee { lp_fee_percent, protocol_fee_percent, .. } =>
            update_fee_result(old, new, r, info.sender, lp_fee_percent, protocol_fee_percent, chain.address->Some_0),
        ExecuteMsg::UpdateSlippage { max_slippage_percent } =>
            update_slippage_result(old, new, r, info.sender, max_slippage_percent),
        ExecuteMsg::TransferOwnership { .. } => transfer_ownership_result(old, new, r, info.sender, chain.address),
        ExecuteMsg::ClaimOwnership {} => claim_ownership_result(old, new, r, info.sender),
        ExecuteMsg::FreezeDeposits { freeze } => freeze_result(old, new, r, info.sender, freeze),
    }
}

/// Whether a message passes on this pool's tokens from its 1155 reserve without their ids:
/// a pass-through swap of the second token.
pub open spec fn passes_1155_on(msg: ExecuteMsg) -> bool {
    msg matches ExecuteMsg::PassThroughSwap { input_token, .. } && input_token == TokenSelect::Token2
}

/// Executes a message on the pool, as `execute_result` says; `chain` holds what the chain
/// answered for it. Every message keeps the pool's invariant, and every message but a
/// pass-through swap of the second token keeps the supplies of the ids equal to the 1155
/// reserve.
pub fn execute(state: &mut State, env: &Env, info: &MessageInfo, msg: ExecuteMsg, chain: ChainAnswers) -> (r: Result<Response, ContractError>)
    requires
        execute_runs(*old(state), *env, *info, msg, chain),
    ensures
        execute_result(*old(state), *final(state), r, *env, *info, msg, chain),
        old(state).wf() ==> final(state).wf(),
        r is Ok && old(state).wf() && old(state).supplies_match_reserve() && !passes_1155_on(msg) ==>
            final(state).supplies_match_reserve(),
{
    match msg {
        ExecuteMsg::AddLiquidity { token1155_amounts, min_liquidity, max_token2, expiration } => {
            if state.frozen {
                return Err(ContractError::FrozenPool {});
            }
            execute_add_liquidity(state, info, env, min_liquidity, token1155_amounts, max_token2, expiration,
                &chain.token_names, chain.lp_token_supply)
        },
        ExecuteMsg::RemoveLiquidity { amount, min_token1155, min_token2, expiration } =>
            execute_remove_liquidity(state, info, env, amount, min_token1155, min_token2, expiration,
                chain.lp_token_balance, chain.lp_token_supply),
        ExecuteMsg::Swap { input_token, input_amount, min_output, expiration } => {
            if state.frozen {
                return Err(ContractError::FrozenPool {});
            }
            let recipient = chain.address.unwrap();
            execute_swap(state, info, input_amount, env, input_token, recipient, min_output, expiration, &chain.token_names)
        },
        ExecuteMsg::SwapAndSendTo { input_token, input_amount, min_token, expiration, .. } => {
            if state.frozen {
                return Err(ContractError::FrozenPool {});
            }
            let recipient = chain.address.unwrap();
            execute_swap(state, info, input_amount, env, input_token, recipient, min_token, expiration, &chain.token_names)
        },
        ExecuteMsg::PassThroughSwap { input_token, input_token_amount, output_min_token, expiration, .. } => {
            if state.frozen {
                return Err(ContractError::FrozenPool {});
            }
            let output_amm_address = chain.address.unwrap();
            execute_pass_through_swap(state, info, env, output_amm_address, input_token, input_token_amount,
                output_min_token, expiration, &chain.token_names, chain.output_pool)
        },
        ExecuteMsg::UpdateFee { lp_fee_percent, protocol_fee_percent, .. } => {
            let recipient = chain.address.unwrap();
            execute_update_fee(state, &info.sender, lp_fee_percent, protocol_fee_percent, recipient)
        },
        ExecuteMsg::UpdateSlippage { max_slippage_percent } =>
            execute_update_slippage(state, &info.sender, max_slippage_percent),
        ExecuteMsg::TransferOwnership { .. } => execute_transfer_ownership(state, &info.sender, chain.address),
        ExecuteMsg::ClaimOwnership {} => execute_claim_ownership(state, &info.sender),
        ExecuteMsg::FreezeDeposits { freeze } => execute_freeze_deposits(state, &info.sender, freeze),
    }
}

/// A frozen pool refuses every deposit and swap, and is left as it was.
pub proof fn lemma_frozen_pool_refuses(
    old: State,
    new: State,
    r: Result<Response, ContractError>,
    env: Env,
    info: MessageInfo,
    msg: ExecuteMsg,
    chain: ChainAnswers,
)
    requires
        old.frozen,
        msg is AddLiquidity || msg is Swap || msg is SwapAndSendTo || msg is PassThroughSwap,
        execute_result(old, new, r, env, info, msg, chain),
    ensures
        r == Err::<Response, ContractError>(ContractError::FrozenPool {}),
        new == old,
{
}

/// Freezing stops deposits and swaps alone: on a frozen pool a withdrawal comes to what
/// it comes to on any pool, and the owner can always unfreeze it.
pub proof fn lemma_frozen_pool_still_pays_out(
    old: State,
    new: State,
    r: Result<Response, ContractError>,
    env: Env,
    info: MessageInfo,
    msg: ExecuteMsg,
    chain: ChainAnswers,
)
    requires
        old.frozen,
        execute_result(old, new, r, env, info, msg, chain),
    ensures
        msg matches ExecuteMsg::RemoveLiquidity { amount, min_token1155, min_token2, expiration } ==>
            remove_liquidity_result(old, new, r, info, env, amount, min_token1155, min_token2, expiration,
                chain.lp_token_balance, chain.lp_token_supply),
        msg == (ExecuteMsg::FreezeDeposits { freeze: false }) && info.sender@ == old.owner@ ==>
            r is Ok && new == (State { frozen: false, ..old }),
{
}

/// A message that the pool refuses leaves it as it was.
pub proof fn lemma_refused_message_changes_nothing(
    old: State,
    new: State,
    r: Result<Response, ContractError>,
    env: Env,
    info: MessageInfo,
    msg: ExecuteMsg,
    chain: ChainAnswers,
)
    requires
        execute_result(old, new, r, env, info, msg, chain),
        r is Err,
    ensures
        new == old,
{
}

/// The checks of a new pool, in order: its denominations, each fee percent, the slippage
/// percent, the fee recipient's address (`recipient_check` is its validation), and the
/// total fee. Passing gives the validated fee recipient.
pub open spec fn spec_instantiate(msg: InstantiateMsg, token1155_check: AddrCheck, token2_check: AddrCheck, recipient_check: AddrCheck) -> Result<String, ContractError> {
    if spec_validate_input_tokens(msg.token1155_denom, msg.token2_denom, token1155_check, token2_check) is Err {
        Err(spec_validate_input_tokens(msg.token1155_denom, msg.token2_denom, token1155_check, token2_check)->Err_0)
    } else if spec_validate_fee_percent(msg.lp_fee_percent) is Err {
        Err(spec_validate_fee_percent(msg.lp_fee_percent)->Err_0)
    } else if spec_validate_fee_percent(msg.protocol_fee_percent) is Err {
        Err(spec_validate_fee_percent(msg.protocol_fee_percent)->Err_0)
    } else if spec_validate_slippage_percent(msg.max_slippage_percent) is Err {
        Err(spec_validate_slippage_percent(msg.max_slippage_percent)->Err_0)
    } else {
        match recipient_check {
            Err(e) => Err(ContractError::Std(e)),
            Ok(recipient) => if msg.lp_fee_percent.atomics + msg.protocol_fee_percent.atomics > max_fees_limit().atomics {
                Err(ContractError::FeesTooHigh {
                    max_fee_percent: max_fees_limit(),
                    total_fee_percent: Decimal { atomics: (msg.lp_fee_percent.atomics + msg.protocol_fee_percent.atomics) as u128 },
                })
            } else {
                Ok(recipient)
            },
        }
    }
}

/// The state of a new pool: empty reserves and supplies, the sender as owner, no pending
/// owner, the given slippage and fees, not frozen, and no liquidity token until its reply.
pub open spec fn new_pool(msg: InstantiateMsg, sender: String, recipient: String, state: State) -> bool {
    &&& state == (State {
        lp_address: None,
        token1155: Token { reserve: 0, denom: msg.token1155_denom },
        token2: Token { reserve: 0, denom: msg.token2_denom },
        token_supplies: state.token_supplies,
        owner: sender,
        pending_owner: None,
        max_slippage_percent: msg.max_slippage_percent,
        fees: Fees {
            protocol_fee_recipient: recipient,
            protocol_fee_percent: msg.protocol_fee_percent,
            lp_fee_percent: msg.lp_fee_percent,
        },
        frozen: false,
    })
    &&& state.token_supplies@ == Seq::<EntryView>::empty()
}

/// The liquidity token of a pool: of the given code, labelled `lp_token`, named
/// `IxoSwap_Liquidity_Token` with symbol `islpt` and 6 decimal places, minted by the pool
/// alone, and answered by the reply of id `INSTANTIATE_LP_TOKEN_REPLY_ID`.
pub open spec fn lp_token_instantiation(sub: InstantiateLpToken, code_id: u64, pool: String) -> bool {
    &&& sub.code_id == code_id
    &&& sub.label@ == "lp_token"@
    &&& sub.name@ == "IxoSwap_Liquidity_Token"@
    &&& sub.symbol@ == "islpt"@
    &&& sub.decimals == 6
    &&& sub.minter == pool
    &&& sub.reply_id == INSTANTIATE_LP_TOKEN_REPLY_ID
}

/// Creates a pool, as `spec_instantiate` and `new_pool` say, and asks for its liquidity
/// token (minted by the pool alone), whose address the reply brings. A new pool keeps the
/// pool's invariant and its supplies match its 1155 reserve.
pub fn instantiate(
    env: &Env,
    info: &MessageInfo,
    msg: InstantiateMsg,
    token1155_check: AddrCheck,
    token2_check: AddrCheck,
    recipient_check: AddrCheck,
) -> (r: Result<(State, Response), ContractError>)
    requires
        fees_addable(msg.lp_fee_percent, msg.protocol_fee_percent),
    ensures
        match spec_instantiate(msg, token1155_check, token2_check, recipient_check) {
            Err(e) => r == Err::<(State, Response), ContractError>(e),
            Ok(recipient) => r matches Ok((state, resp))
                && new_pool(msg, info.sender, recipient, state)
                && resp.messages@.len() == 0
                && resp.submessage is Some
                && lp_token_instantiation(resp.submessage->Some_0, msg.lp_token_code_id, env.contract_address)
                && resp.event == (Event::InstantiateIxoSwap {
                    owner: info.sender,
                    max_slippage_percent: msg.max_slippage_percent,
                    lp_fee_percent: msg.lp_fee_percent,
                    protocol_fee_percent: msg.protocol_fee_percent,
                    protocol_fee_recipient: msg.protocol_fee_recipient,
                    token1155_denom: msg.token1155_denom,
                    token2_denom: msg.token2_denom,
                })
                && state.wf()
                && state.supplies_match_reserve(),
        },
{
    match validate_input_tokens(&msg.token1155_denom, &msg.token2_denom, token1155_check, token2_check) {
        Err(e) => return Err(e),
        Ok(_) => {},
    }
    match validate_fee_percent(msg.lp_fee_percent) {
        Err(e) => return Err(e),
        Ok(_) => {},
    }
    match validate_fee_percent(msg.protocol_fee_percent) {
        Err(e) => return Err(e),
        Ok(_) => {},
    }
    match validate_slippage_percent(msg.max_slippage_percent) {
        Err(e) => return Err(e),
        Ok(_) => {},
    }
    let protocol_fee_recipient = match recipient_check {
        Err(e) => return Err(ContractError::Std(e)),
        Ok(a) => a,
    };
    let total_fee_percent = msg.lp_fee_percent.add(&msg.protocol_fee_percent);
    let max_fee_percent = crate::utils::predefined_max_fees_percent();
    if max_fee_percent.lt(&total_fee_percent) {
        return Err(ContractError::FeesTooHigh { max_fee_percent, total_fee_percent });
    }
    let event = Event::InstantiateIxoSwap {
        owner: info.sender.clone(),
        max_slippage_percent: msg.max_slippage_percent,
        lp_fee_percent: msg.lp_fee_percent,
        protocol_fee_percent: msg.protocol_fee_percent,
        protocol_fee_recipient: msg.protocol_fee_recipient,
        token1155_denom: msg.token1155_denom.copy(),
        token2_denom: msg.token2_denom.copy(),
    };
    let state = State {
        lp_address: None,
        token1155: Token { reserve: 0, denom: msg.token1155_denom },
        token2: Token { reserve: 0, denom: msg.token2_denom },
        token_supplies: TokenSupplies::new(),
        owner: info.sender.clone(),
        pending_owner: None,
        max_slippage_percent: msg.max_slippage_percent,
        fees: Fees {
            protocol_fee_recipient,
            protocol_fee_percent: msg.protocol_fee_percent,
            lp_fee_percent: msg.lp_fee_percent,
        },
        frozen: false,
    };
    let response = Response {
        messages: Vec::new(),
        submessage: Some(InstantiateLpToken {
            code_id: msg.lp_token_code_id,
            label: String::from_str("lp_token"),
            name: String::from_str("IxoSwap_Liquidity_Token"),
            symbol: String::from_str("islpt"),
            decimals: 6,
            minter: env.contract_address.clone(),
            reply_id: INSTANTIATE_LP_TOKEN_REPLY_ID,
        }),
        event,
    };
    Ok((state, response))
}

/// The id of the reply to the liquidity token's instantiation.
pub const INSTANTIATE_LP_TOKEN_REPLY_ID: u64 = 0;

/// The contract address that the data of a successful instantiation names, where the data
/// parses (`cw_utils::parse_instantiate_response_data`).
pub uninterp spec fn instantiate_response_address(data: Seq<u8>) -> Option<Seq<char>>;

/// `cw_utils::parse_instantiate_response_data`: the protobuf-encoded answer to an
/// instantiation, parsed; the contract address it holds, or `None` where it does not parse.
/// That the result is a function of the bytes alone is all that is claimed of it.
#[verifier::external_body]
fn parse_instantiate_response_address(data: &Vec<u8>) -> (r: Option<String>)
    ensures
        match r {
            Some(a) => instantiate_response_address(data@) == Some(a@),
            None => instantiate_response_address(data@) is None,
        },
{
    cw_utils::parse_instantiate_response_data(data.as_slice()).ok().map(|m| m.contract_address)
}

/// The liquidity token's address from the reply to its instantiation: the reply must be the
/// one awaited, successful, with data that parses. `result` is the reply's outcome: its
/// data, or the failure's text.
pub fn parse_lp_token_reply(id: u64, result: Result<Option<Vec<u8>>, String>) -> (r: Result<String, ContractError>)
    ensures
        id != INSTANTIATE_LP_TOKEN_REPLY_ID ==> r == Err::<String, ContractError>(ContractError::UnknownReplyId { id }),
        id == INSTANTIATE_LP_TOKEN_REPLY_ID ==> match result {
            Ok(Some(data)) => match instantiate_response_address(data@) {
                Some(a) => r matches Ok(addr) && addr@ == a,
                None => r == Err::<String, ContractError>(ContractError::InstantiateLpTokenError {}),
            },
            _ => r == Err::<String, ContractError>(ContractError::InstantiateLpTokenError {}),
        },
{
    if id != INSTANTIATE_LP_TOKEN_REPLY_ID {
        return Err(ContractError::UnknownReplyId { id });
    }
    match result {
        Ok(Some(data)) => match parse_instantiate_response_address(&data) {
            Some(a) => Ok(a),
            None => Err(ContractError::InstantiateLpTokenError {}),
        },
        _ => Err(ContractError::InstantiateLpTokenError {}),
    }
}

/// What storing a validated liquidity token address gives: a failed validation is passed
/// on and changes nothing; a valid address is stored and reported.
pub open spec fn store_lp_token_result(old: State, new: State, r: Result<Response, ContractError>, lp_token_check: AddrCheck) -> bool {
    match lp_token_check {
        Err(e) => r == Err::<Response, ContractError>(ContractError::Std(e)) && new == old,
        Ok(addr) => r matches Ok(resp) && resp.messages@.len() == 0 && resp.submessage is None
            && resp.event == (Event::InstantiateLpToken { liquidity_pool_token_address: addr })
            && new == (State { lp_address: Some(addr), ..old }),
    }
}

/// Stores the liquidity token's address, once the chain validated it (`lp_token_check`).
fn store_lp_token(state: &mut State, lp_token_check: AddrCheck) -> (r: Result<Response, ContractError>)
    ensures
        store_lp_token_result(*old(state), *final(state), r, lp_token_check),
{
    let addr = match lp_token_check {
        Err(e) => return Err(ContractError::Std(e)),
        Ok(a) => a,
    };
    let reported = addr.clone();
    state.lp_address = Some(addr);
    Ok(Response {
        messages: Vec::new(),
        submessage: None,
        event: Event::InstantiateLpToken { liquidity_pool_token_address: reported },
    })
}

/// Handles the reply to the liquidity token's instantiation (`id`, and `result`: its data,
/// or the failure's text). A reply of another id is refused; one that failed or whose
/// data does not parse is an `InstantiateLpTokenError`; otherwise the address it names is
/// validated by the chain (`addr_validate`) and, if valid, stored. A refused reply changes
/// nothing.
pub fn reply<F: Fn(String) -> AddrCheck>(
    state: &mut State,
    id: u64,
    result: Result<Option<Vec<u8>>, String>,
    addr_validate: F,
) -> (r: Result<Response, ContractError>)
    requires
        forall|a: String| addr_validate.requires((a,)),
    ensures
        id != INSTANTIATE_LP_TOKEN_REPLY_ID ==>
            r == Err::<Response, ContractError>(ContractError::UnknownReplyId { id }) && *final(state) == *old(state),
        id == INSTANTIATE_LP_TOKEN_REPLY_ID ==> match result {
            Ok(Some(data)) => match instantiate_response_address(data@) {
                Some(a) => exists|addr: String, check: AddrCheck|
                    addr@ == a && #[trigger] addr_validate.ensures((addr,), check)
                    && store_lp_token_result(*old(state), *final(state), r, check),
                None => r == Err::<Response, ContractError>(ContractError::InstantiateLpTokenError {})
                    && *final(state) == *old(state),
            },
            _ => r == Err::<Response, ContractError>(ContractError::InstantiateLpTokenError {})
                && *final(state) == *old(state),
        },
        old(state).wf() ==> final(state).wf(),
{
    let address = match parse_lp_token_reply(id, result) {
        Err(e) => return Err(e),
        Ok(a) => a,
    };
    let ghost parsed = address;
    let check = addr_validate(address);
    let r = store_lp_token(state, check);
    assert(addr_validate.ensures((parsed,), check));
    r
}

/// The reserves and denominations of the pool, with the liquidity token's address and
/// supply (`lp_token_supply`, as queried).
pub fn query_info(state: &State, lp_token_supply: Result<u128, StdError>) -> (r: Result<InfoResponse, StdError>)
    ensures
        match (state.lp_address, lp_token_supply) {
            (None, _) => r matches Err(StdError::NotFound { kind }) && kind@ == lp_token_missing_text(),
            (Some(_), Err(e)) => r == Err::<InfoResponse, StdError>(e),
            (Some(addr), Ok(supply)) => r == Ok::<InfoResponse, StdError>(InfoResponse {
                token1155_reserve: state.token1155.reserve,
                token1155_denom: state.token1155.denom,
                token2_reserve: state.token2.reserve,
                token2_denom: state.token2.denom,
                lp_token_supply: supply,
                lp_token_address: addr,
            }),
        },
{
    let lp_token_address = match &state.lp_address {
        None => return Err(lp_token_not_found()),
        Some(a) => a.clone(),
    };
    let supply = match lp_token_supply {
        Err(e) => return Err(e),
        Ok(x) => x,
    };
    Ok(InfoResponse {
        token1155_reserve: state.token1155.reserve,
        token1155_denom: state.token1155.denom.copy(),
        token2_reserve: state.token2.reserve,
        token2_denom: state.token2.denom.copy(),
        lp_token_supply: supply,
        lp_token_address,
    })
}

/// The owner of the pool and the owner it is being handed to.
pub fn query_ownership(state: &State) -> (r: OwnershipResponse)
    ensures
        r == (OwnershipResponse { owner: state.owner, pending_owner: state.pending_owner }),
{
    let pending_owner = match &state.pending_owner {
        Some(p) => Some(p.clone()),
        None => None,
    };
    OwnershipResponse { owner: state.owner.clone(), pending_owner }
}

/// Whether deposits and swaps are frozen.
pub fn query_freeze_status(state: &State) -> (r: FreezeStatusResponse)
    ensures
        r == (FreezeStatusResponse { status: state.frozen }),
{
    FreezeStatusResponse { status: state.frozen }
}

/// The largest slippage percent the pool accepts.
pub fn query_slippage(state: &State) -> (r: SlippageResponse)
    ensures
        r == (SlippageResponse { max_slippage_percent: state.max_slippage_percent }),
{
    SlippageResponse { max_slippage_percent: state.max_slippage_percent }
}

/// The fee percents and the protocol fee recipient.
pub fn query_fee(state: &State) -> (r: FeeResponse)
    ensures
        r == (FeeResponse {
            lp_fee_percent: state.fees.lp_fee_percent,
            protocol_fee_percent: state.fees.protocol_fee_percent,
            protocol_fee_recipient: state.fees.protocol_fee_recipient,
        }),
{
    FeeResponse {
        lp_fee_percent: state.fees.lp_fee_percent,
        protocol_fee_percent: state.fees.protocol_fee_percent,
        protocol_fee_recipient: state.fees.protocol_fee_recipient.clone(),
    }
}

/// The pool's supply of each requested id, zero for an id it does not hold.
pub fn query_tokens_supply(state: &State, tokens_id: Vec<String>) -> (r: TokenSuppliesResponse)
    requires
        state.token_supplies.wf(),
    ensures
        r.supplies@.len() == tokens_id@.len(),
        forall|i: int| 0 <= i < tokens_id@.len() ==>
            #[trigger] r.supplies@[i] == amount_of(state.token_supplies@, tokens_id@[i]@),
{
    let mut supplies: Vec<u128> = Vec::new();
    let mut i: usize = 0;
    while i < tokens_id.len()
        invariant
            i <= tokens_id@.len(),
            state.token_supplies.wf(),
            supplies@.len() == i,
            forall|j: int| 0 <= j < i ==> #[trigger] supplies@[j] == amount_of(state.token_supplies@, tokens_id@[j]@),
        decreases tokens_id@.len() - i,
    {
        let supply = match state.token_supplies.get(&tokens_id[i]) {
            Some(x) => x,
            None => 0,
        };
        supplies.push(supply);
        i = i + 1;
    }
    TokenSuppliesResponse { supplies }
}

/// Whether a price query can run on the pool: the amount's total defined, the fee
/// percents addable and their total at most 100.
pub open spec fn price_query_runs(state: State, input_reserve: u128, output_reserve: u128, amount: AmountView) -> bool {
    &&& total_defined(amount)
    &&& state.fees.lp_fee_percent.atomics + state.fees.protocol_fee_percent.atomics <= u128::MAX
    &&& fee_fits(input_reserve, output_reserve,
        Decimal { atomics: (state.fees.lp_fee_percent.atomics + state.fees.protocol_fee_percent.atomics) as u128 })
}

/// The outcome of a price query on given reserves under the pool's total fee.
pub open spec fn spec_price_query(state: State, input_reserve: u128, output_reserve: u128, amount: AmountView) -> Option<Result<u128, StdError>> {
    spec_input_price(amount_total(amount) as u128, input_reserve, output_reserve,
        Decimal { atomics: (state.fees.lp_fee_percent.atomics + state.fees.protocol_fee_percent.atomics) as u128 })
}

/// What an amount of 1155 tokens would buy of the second token, under the pool's total
/// fee.
pub fn query_token1155_for_token2_price(state: &State, token1155_amount: TokenAmount) -> (r: Result<Token1155ForToken2PriceResponse, StdError>)
    requires
        price_query_runs(*state, state.token1155.reserve, state.token2.reserve, token1155_amount@),
    ensures
        match spec_price_query(*state, state.token1155.reserve, state.token2.reserve, token1155_amount@) {
            None => r matches Err(StdError::GenericErr { msg }) && msg@ == "No liquidity"@,
            Some(Err(e)) => r == Err::<Token1155ForToken2PriceResponse, StdError>(e),
            Some(Ok(p)) => r == Ok::<Token1155ForToken2PriceResponse, StdError>(Token1155ForToken2PriceResponse { token2_amount: p }),
        },
        r matches Ok(resp) ==> spec_input_price(amount_total(token1155_amount@) as u128, state.token1155.reserve,
            state.token2.reserve, total_fee(*state)) == Some(Ok::<u128, StdError>(resp.token2_amount)),
{
    let total = token1155_amount.get_total();
    let total_fee_percent = state.fees.lp_fee_percent.add(&state.fees.protocol_fee_percent);
    match get_input_price(total, state.token1155.reserve, state.token2.reserve, total_fee_percent) {
        Err(e) => Err(e),
        Ok(token2_amount) => Ok(Token1155ForToken2PriceResponse { token2_amount }),
    }
}

/// What an amount of the second token would buy of 1155 tokens, under the pool's total
/// fee.
pub fn query_token2_for_token1155_price(state: &State, token2_amount: TokenAmount) -> (r: Result<Token2ForToken1155PriceResponse, StdError>)
    requires
        price_query_runs(*state, state.token2.reserve, state.token1155.reserve, token2_amount@),
    ensures
        match spec_price_query(*state, state.token2.reserve, state.token1155.reserve, token2_amount@) {
            None => r matches Err(StdError::GenericErr { msg }) && msg@ == "No liquidity"@,
            Some(Err(e)) => r == Err::<Token2ForToken1155PriceResponse, StdError>(e),
            Some(Ok(p)) => r == Ok::<Token2ForToken1155PriceResponse, StdError>(Token2ForToken1155PriceResponse { token1155_amount: p }),
        },
        r matches Ok(resp) ==> spec_input_price(amount_total(token2_amount@) as u128, state.token2.reserve,
            state.token1155.reserve, total_fee(*state)) == Some(Ok::<u128, StdError>(resp.token1155_amount)),
{
    let total = token2_amount.get_total();
    let total_fee_percent = state.fees.lp_fee_percent.add(&state.fees.protocol_fee_percent);
    match get_input_price(total, state.token2.reserve, state.token1155.reserve, total_fee_percent) {
        Err(e) => Err(e),
        Ok(token1155_amount) => Ok(Token2ForToken1155PriceResponse { token1155_amount }),
    }
}

/// A price query quotes what a swap buys: where a swap of an amount of 1155 tokens (or of
/// the second token) goes through, the matching query answers with exactly what it bought.
pub proof fn lemma_price_query_quotes_swap(
    state: State,
    info: MessageInfo,
    contract: Seq<char>,
    block: BlockInfo,
    input: TokenSelect,
    input_amount: TokenAmount,
    min_token: AmountView,
    expiration: Option<Expiration>,
    names: Seq<Result<String, StdError>>,
    recipient: AddrCheck,
)
    requires
        spec_swap(state, info, contract, block, input, input_amount, min_token, expiration, names, recipient) is Done,
    ensures
        ({
            let v = spec_swap(state, info, contract, block, input, input_amount, min_token, expiration, names,
                recipient)->Done_0;
            &&& input == TokenSelect::Token1155 ==> spec_price_query(state, state.token1155.reserve,
                state.token2.reserve, input_amount@) == Some(Ok::<u128, StdError>(v.bought))
            &&& input == TokenSelect::Token2 ==> spec_price_query(state, state.token2.reserve,
                state.token1155.reserve, input_amount@) == Some(Ok::<u128, StdError>(v.bought))
        }),
{
}

/// The slippage check in plain terms: with a slippage of `p` (in units of `SCALE_FACTOR`,
/// at most 100%), a minimum passes exactly when it is above the whole amount less its
/// slippage, `(min + 1) * 10000 > actual * (10000 - p)`, i.e. when it is at least the
/// amount less the slippage, rounded down.
pub proof fn lemma_slippage_in_plain_terms(max_slippage: Decimal, min_token_amount: u128, actual_token_amount: u128)
    requires
        spec_decimal_to_uint128(max_slippage) matches Ok(p) && p <= 10000,
    ensures
        ({
            let p = spec_decimal_to_uint128(max_slippage)->Ok_0;
            spec_validate_slippage(max_slippage, min_token_amount, actual_token_amount) is Ok
                <==> (min_token_amount + 1) * 10000 > actual_token_amount * (10000 - p)
        }),
        spec_validate_slippage(max_slippage, min_token_amount, actual_token_amount) is Err ==> (
            spec_validate_slippage(max_slippage, min_token_amount, actual_token_amount)
                matches Err(ContractError::MinTokenAmountError { min_token, min_required })
            && min_token == min_token_amount && min_required as int * 10000 <= actual_token_amount * (10000
                - spec_decimal_to_uint128(max_slippage)->Ok_0)
            && (min_required as int + 1) * 10000 > actual_token_amount * (10000 - spec_decimal_to_uint128(max_slippage)->Ok_0)),
{
    let p = spec_decimal_to_uint128(max_slippage)->Ok_0 as int;
    let a = actual_token_amount as int;
    let m = min_token_amount as int;
    let q = crate::utils::ceil_percent_of(a as nat, p as nat) as int;
    assert(q == (a * p + 9999) / 10000);
    assert(q * 10000 <= a * p + 9999 && a * p + 9999 < q * 10000 + 10000) by (nonlinear_arith)
        requires q == (a * p + 9999) / 10000, a >= 0, p >= 0;
    assert(a * p <= a * 10000) by (nonlinear_arith)
        requires p <= 10000, a >= 0;
    assert(q <= a);
    assert(q <= u128::MAX);
    let k = a - q;
    assert(a * (10000 - p) == a * 10000 - a * p) by (nonlinear_arith);
    assert(k * 10000 <= a * (10000 - p));
    assert(k * 10000 > a * (10000 - p) - 10000);
    if m < k {
        assert((m + 1) * 10000 <= k * 10000) by (nonlinear_arith)
            requires m + 1 <= k;
    } else {
        assert((m + 1) * 10000 >= (k + 1) * 10000) by (nonlinear_arith)
            requires m >= k;
    }
}

/// A handover of ownership: once the owner names a new owner, the named account alone can
/// claim the pool, which then has it as owner and no pending owner, and is otherwise
/// unchanged; anyone else's claim is refused and changes nothing.
pub proof fn lemma_ownership_handover(
    s0: State,
    s1: State,
    s2: State,
    r1: Result<Response, ContractError>,
    r2: Result<Response, ContractError>,
    owner: String,
    named: String,
    claimer: String,
)
    requires
        owner@ == s0.owner@,
        named@ != s0.owner@,
        transfer_ownership_result(s0, s1, r1, owner, Some(Ok::<String, StdError>(named))),
        claim_ownership_result(s1, s2, r2, claimer),
    ensures
        r1 is Ok,
        s1.owner == s0.owner,
        claimer@ == named@ ==> r2 is Ok && s2.owner == named && s2.pending_owner is None
            && s2.token1155 == s0.token1155 && s2.token2 == s0.token2 && s2.token_supplies == s0.token_supplies
            && s2.fees == s0.fees && s2.max_slippage_percent == s0.max_slippage_percent && s2.frozen == s0.frozen
            && s2.lp_address == s0.lp_address,
        claimer@ != named@ ==> r2 == Err::<Response, ContractError>(ContractError::Unauthorized {}) && s2 == s1
            && s2.owner == s0.owner,
{
}

/// Only the owner changes the pool's settings: a transfer of ownership, an update of the
/// fees or of the slippage by anyone else is refused as unauthorized and changes nothing;
/// one by the owner that succeeds sets exactly what was asked.
pub proof fn lemma_settings_belong_to_the_owner(
    old: State,
    new: State,
    r: Result<Response, ContractError>,
    env: Env,
    info: MessageInfo,
    msg: ExecuteMsg,
    chain: ChainAnswers,
)
    requires
        execute_result(old, new, r, env, info, msg, chain),
        msg is UpdateFee || msg is UpdateSlippage || msg is TransferOwnership || msg is FreezeDeposits,
    ensures
        info.sender@ != old.owner@ ==> new == old && (r == Err::<Response, ContractError>(ContractError::Unauthorized {})
            || r == Err::<Response, ContractError>(ContractError::UnauthorizedPoolFreeze {})),
        r is Ok && msg is UpdateFee ==> (
            new.fees.lp_fee_percent == msg->UpdateFee_lp_fee_percent
            && new.fees.protocol_fee_percent == msg->UpdateFee_protocol_fee_percent
            && chain.address->Some_0 == Ok::<String, StdError>(new.fees.protocol_fee_recipient)),
        r is Ok && msg is UpdateSlippage ==> (
            new.max_slippage_percent == msg->UpdateSlippage_max_slippage_percent
            && 0 < new.max_slippage_percent.atomics < 10_000_000_000_000_000_000u128),
        r is Ok && msg is FreezeDeposits ==> (new.frozen == msg->FreezeDeposits_freeze && old.frozen != new.frozen),
        r is Ok ==> new.token1155 == old.token1155 && new.token2 == old.token2
            && new.token_supplies == old.token_supplies,
{
}

} // verus!
