//! Adding and removing liquidity.
use vstd::prelude::*;
use crate::contract::{
    Outcome, check_expiration, get_lp_token_amount_to_mint, get_token2_amount_required,
    is_lp_token_missing, lp_token_not_found, slippage_fits, spec_check_expiration,
    spec_lp_token_amount_to_mint, spec_token1155_denom, spec_token2_amount_required,
    spec_validate_input_amount, spec_validate_slippage, validate_input_amount, validate_min_token,
    validate_slippage, validate_token1155_denom
};
use crate::error::{ContractError, OverflowOperation, StdError};
use crate::ids::EntryView;
use crate::messages::{
    get_bank_transfer_to_msg, get_burn_msg, get_cw1155_transfer_msg, get_cw20_transfer_from_msg,
    get_cw20_transfer_to_msg, mint_lp_tokens
};
use crate::msg::{BlockInfo, Coin, Denom, Env, Expiration, MessageInfo};
use crate::response::{
    Event, Flow, Message, MessageView, Response, messages_match, message_views, paid, pulled, minted, burned,
    batches_unique, lemma_flow_matches, lemma_flow_parts
};
use crate::state::{State, Token};
use crate::supplies::{
    add_token_supplies, conserved, get_token_amounts_to_transfer, lemma_ascending_unique,
    lemma_supplies_added_total, spec_amounts_to_transfer, supplies_addable, supplies_added
};
use crate::token_amount::{
    AmountView, TokenAmount, TokenMap, amount_of, amount_total, lemma_total_pointwise, total,
    total_defined
};

verus! {

/// A deposit into a pool with liquidity never mints more than its share: the liquidity
/// minted, times the 1155 reserve, is at most the deposit times the supply.
pub proof fn lemma_mint_within_share(token1_amount: u128, liquidity_supply: u128, token1_reserve: u128)
    requires
        liquidity_supply > 0,
        spec_lp_token_amount_to_mint(token1_amount, liquidity_supply, token1_reserve) is Ok,
    ensures
        spec_lp_token_amount_to_mint(token1_amount, liquidity_supply, token1_reserve) matches Ok(l)
            && l * token1_reserve <= token1_amount * liquidity_supply,
{
    let p = token1_amount * liquidity_supply;
    let r = token1_reserve as int;
    assert((p / r) * r <= p) by (nonlinear_arith)
        requires r > 0, p >= 0;
}

/// A deposit into a pool with liquidity always brings more than its share of the second
/// token: the second token owed, times the 1155 reserve, exceeds the deposit times the
/// second reserve.
pub proof fn lemma_token2_covers_share(max_token: u128, token1_amount: u128, liquidity_supply: u128, token2_reserve: u128, token1_reserve: u128)
    requires
        liquidity_supply > 0,
        spec_token2_amount_required(max_token, token1_amount, liquidity_supply, token2_reserve, token1_reserve) is Ok,
    ensures
        spec_token2_amount_required(max_token, token1_amount, liquidity_supply, token2_reserve, token1_reserve) matches Ok(a2)
            && a2 * token1_reserve > token1_amount * token2_reserve,
{
    let p = token1_amount * token2_reserve;
    let r = token1_reserve as int;
    assert((p / r + 1) * r > p) by (nonlinear_arith)
        requires r > 0, p >= 0;
}

/// What `AddLiquidity` comes to, check by check: the expiration, the liquidity token, a
/// non-zero minimum, the ids' denomination, the coins sent for a native second token; then
/// the liquidity minted (the deposit's share of the supply), the slippage, the second
/// token owed, the caller's limits. Done gives the 1155 total, the liquidity minted and the
/// second token taken.
pub open spec fn spec_add_liquidity(
    state: State,
    funds: Seq<Coin>,
    block: BlockInfo,
    min_liquidity: u128,
    amounts: TokenMap,
    max_token2: u128,
    expiration: Option<Expiration>,
    names: Seq<Result<String, StdError>>,
    lp_supply: Result<u128, StdError>,
) -> Outcome<(u128, u128, u128)> {
    let m = amounts@;
    if spec_check_expiration(expiration, block) is Err {
        Outcome::Fail(ContractError::MsgExpirationError {})
    } else if state.lp_address is None {
        Outcome::LpTokenMissing
    } else if min_liquidity == 0 {
        Outcome::Fail(ContractError::MinTokenError {})
    } else if spec_token1155_denom(state.token1155.denom, amounts.entries@, names) is Err {
        Outcome::Fail(spec_token1155_denom(state.token1155.denom, amounts.entries@, names)->Err_0)
    } else if spec_validate_input_amount(funds, AmountView::Single(max_token2), state.token2.denom) is Err {
        Outcome::Fail(spec_validate_input_amount(funds, AmountView::Single(max_token2), state.token2.denom)->Err_0)
    } else if !total_defined(AmountView::Multiple(m)) {
        Outcome::Panic
    } else {
        let t = total(m) as u128;
        match lp_supply {
            Err(e) => Outcome::Fail(ContractError::Std(e)),
            Ok(supply) => match spec_lp_token_amount_to_mint(t, supply, state.token1155.reserve) {
                Err(e) => Outcome::Fail(e),
                Ok(l) => if !slippage_fits(state.max_slippage_percent, l) {
                    Outcome::Panic
                } else {
                    match spec_validate_slippage(state.max_slippage_percent, min_liquidity, l) {
                        Err(e) => Outcome::Fail(e),
                        Ok(_) => match spec_token2_amount_required(max_token2, t, supply, state.token2.reserve, state.token1155.reserve) {
                            Err(e) => Outcome::Fail(ContractError::Std(e)),
                            Ok(a2) => if l < min_liquidity {
                                Outcome::Fail(ContractError::MinLiquidityError { min_liquidity, liquidity_available: l })
                            } else if a2 > max_token2 {
                                Outcome::Fail(ContractError::MaxTokenError { max_token: max_token2, tokens_required: a2 })
                            } else if state.token1155.reserve + t > u128::MAX || state.token2.reserve + a2 > u128::MAX
                                || !supplies_addable(state.token_supplies@, m) {
                                Outcome::Panic
                            } else {
                                Outcome::Done((t, l, a2))
                            },
                        },
                    }
                },
            },
        }
    }
}

/// The messages of a deposit: the 1155 tokens from the sender to the pool, then the cw20
/// second token taken under its allowance or the unspent native coins refunded, then the
/// liquidity tokens minted to the sender.
pub open spec fn add_liquidity_messages(
    state: State,
    sender: String,
    contract: String,
    amounts: Seq<crate::ids::EntryView>,
    max_token2: u128,
    token2_amount: u128,
    liquidity: u128,
) -> Seq<MessageView> {
    let first = match state.token1155.denom {
        Denom::Cw1155(addr, _) => seq![MessageView::Cw1155BatchSendFrom { contract: addr@, from: sender@, to: contract@, batch: amounts }],
        _ => Seq::empty(),
    };
    let second = match state.token2.denom {
        Denom::Cw20(addr) => seq![MessageView::Cw20TransferFrom { contract: addr@, owner: sender@, recipient: contract@, amount: token2_amount }],
        Denom::Native(d) => if token2_amount < max_token2 {
            seq![MessageView::BankSend { to_address: sender@, denom: d@, amount: (max_token2 - token2_amount) as u128 }]
        } else {
            Seq::empty()
        },
        _ => Seq::empty(),
    };
    first + second + seq![MessageView::LpMint { contract: state.lp_address->Some_0@, recipient: sender@, amount: liquidity }]
}

/// The result of `AddLiquidity` on a pool in state `old`, leaving it in state `new`, as
/// `spec_add_liquidity` decides.
pub open spec fn add_liquidity_result(
    old: State,
    new: State,
    r: Result<Response, ContractError>,
    info: MessageInfo,
    env: Env,
    min_liquidity: u128,
    token1155_amounts: TokenMap,
    max_token2: u128,
    expiration: Option<Expiration>,
    token_names: Seq<Result<String, StdError>>,
    lp_token_supply: Result<u128, StdError>,
) -> bool {
    match spec_add_liquidity(old, info.funds@, env.block, min_liquidity, token1155_amounts, max_token2,
        expiration, token_names, lp_token_supply) {
        Outcome::Fail(e) => r == Err::<Response, ContractError>(e) && new == old,
        Outcome::LpTokenMissing => is_lp_token_missing(r) && new == old,
        Outcome::Done((t, l, a2)) => r matches Ok(resp)
            && messages_match(resp.messages@, add_liquidity_messages(old, info.sender, env.contract_address,
                token1155_amounts@, max_token2, a2, l))
            && resp.submessage is None
            && resp.event == (Event::AddLiquidity {
                token1155_amount: t,
                token2_amount: a2,
                liquidity_received: l,
                liquidity_receiver: info.sender,
                token1155_reserve: (old.token1155.reserve + t) as u128,
                token2_reserve: (old.token2.reserve + a2) as u128,
            })
            && new == (State {
                token1155: Token { reserve: (old.token1155.reserve + t) as u128, ..old.token1155 },
                token2: Token { reserve: (old.token2.reserve + a2) as u128, ..old.token2 },
                token_supplies: new.token_supplies,
                ..old
            })
            && new.token_supplies.wf()
            && supplies_added(new.token_supplies@, old.token_supplies@, token1155_amounts@),
        _ => false,
    }
}

/// Executes `AddLiquidity`: deposits 1155 tokens and the matching amount of the second
/// token, and mints liquidity tokens to the sender, as `spec_add_liquidity` says.
/// `token_names` are the chain's metadata names of the deposited ids, in order, and
/// `lp_token_supply` is the liquidity token's supply, as queried.
pub fn execute_add_liquidity(
    state: &mut State,
    info: &MessageInfo,
    env: &Env,
    min_liquidity: u128,
    token1155_amounts: TokenMap,
    max_token2: u128,
    expiration: Option<Expiration>,
    token_names: &Vec<Result<String, StdError>>,
    lp_token_supply: Result<u128, StdError>,
) -> (r: Result<Response, ContractError>)
    requires
        old(state).token_supplies.wf(),
        token1155_amounts.wf(),
        token_names@.len() == token1155_amounts@.len(),
        !(spec_add_liquidity(*old(state), info.funds@, env.block, min_liquidity, token1155_amounts, max_token2,
            expiration, token_names@, lp_token_supply) is Panic),
    ensures
        add_liquidity_result(*old(state), *final(state), r, *info, *env, min_liquidity, token1155_amounts, max_token2,
            expiration, token_names@, lp_token_supply),
        r is Ok && old(state).supplies_match_reserve() ==> final(state).supplies_match_reserve(),
        old(state).wf() ==> final(state).wf(),
{
    let ghost spec = spec_add_liquidity(*old(state), info.funds@, env.block, min_liquidity, token1155_amounts,
        max_token2, expiration, token_names@, lp_token_supply);
    match check_expiration(&expiration, &env.block) {
        Err(e) => return Err(e),
        Ok(_) => {},
    }
    let lp_token_addr = match &state.lp_address {
        None => return Err(ContractError::Std(lp_token_not_found())),
        Some(a) => a.clone(),
    };
    match validate_min_token(min_liquidity) {
        Err(e) => return Err(e),
        Ok(_) => {},
    }
    match validate_token1155_denom(&state.token1155.denom, &token1155_amounts, token_names) {
        Err(e) => return Err(e),
        Ok(_) => {},
    }
    let max_amount = TokenAmount::Single(max_token2);
    match validate_input_amount(&info.funds, &max_amount, &state.token2.denom) {
        Err(e) => return Err(e),
        Ok(_) => {},
    }
    let amounts = TokenAmount::Multiple(token1155_amounts);
    let token1155_total_amount = amounts.get_total();
    let token1155_amounts = match amounts {
        TokenAmount::Multiple(m) => m,
        TokenAmount::Single(_) => {
            proof { assert(false); }
            return Err(ContractError::MinTokenError {});
        },
    };
    let lp_token_supply = match lp_token_supply {
        Err(e) => return Err(ContractError::Std(e)),
        Ok(x) => x,
    };
    let liquidity_amount = match get_lp_token_amount_to_mint(token1155_total_amount, lp_token_supply, state.token1155.reserve) {
        Err(e) => return Err(e),
        Ok(x) => x,
    };
    match validate_slippage(state.max_slippage_percent, min_liquidity, liquidity_amount) {
        Err(e) => return Err(e),
        Ok(_) => {},
    }
    let token2_amount = match get_token2_amount_required(max_token2, token1155_total_amount, lp_token_supply,
        state.token2.reserve, state.token1155.reserve) {
        Err(e) => return Err(ContractError::Std(e)),
        Ok(x) => x,
    };
    if liquidity_amount < min_liquidity {
        return Err(ContractError::MinLiquidityError { min_liquidity, liquidity_available: liquidity_amount });
    }
    if token2_amount > max_token2 {
        return Err(ContractError::MaxTokenError { max_token: max_token2, tokens_required: token2_amount });
    }
    let mut transfer_msgs: Vec<Message> = Vec::new();
    if let Denom::Cw1155(addr, _) = &state.token1155.denom {
        transfer_msgs.push(get_cw1155_transfer_msg(&info.sender, &env.contract_address, addr, &token1155_amounts));
    }
    if let Denom::Cw20(addr) = &state.token2.denom {
        transfer_msgs.push(get_cw20_transfer_from_msg(&info.sender, &env.contract_address, addr, token2_amount));
    }
    if let Denom::Native(denom) = &state.token2.denom {
        if token2_amount < max_token2 {
            transfer_msgs.push(get_bank_transfer_to_msg(&info.sender, denom, max_token2 - token2_amount));
        }
    }
    state.token1155.reserve = state.token1155.reserve + token1155_total_amount;
    state.token2.reserve = state.token2.reserve + token2_amount;
    add_token_supplies(&mut state.token_supplies, &token1155_amounts);
    transfer_msgs.push(mint_lp_tokens(&info.sender, liquidity_amount, &lp_token_addr));
    proof {
        lemma_supplies_added_total(state.token_supplies@, old(state).token_supplies@, token1155_amounts@);
        let e = add_liquidity_messages(*old(state), info.sender, env.contract_address, token1155_amounts@,
            max_token2, token2_amount, liquidity_amount);
        assert(transfer_msgs@.len() == e.len());
        assert forall|i: int| 0 <= i < transfer_msgs@.len() implies crate::response::message_matches(#[trigger] transfer_msgs@[i]@, e[i]) by {
        }
    }
    Ok(Response {
        messages: transfer_msgs,
        submessage: None,
        event: Event::AddLiquidity {
            token1155_amount: token1155_total_amount,
            token2_amount,
            liquidity_received: liquidity_amount,
            liquidity_receiver: info.sender.clone(),
            token1155_reserve: state.token1155.reserve,
            token2_reserve: state.token2.reserve,
        },
    })
}

/// A holder's share of a reserve for `amount` liquidity tokens out of `supply`:
/// `amount * reserve / supply`, rounded down, or the overflow or division by zero.
pub open spec fn spec_share(amount: u128, reserve: u128, supply: u128) -> Result<u128, StdError> {
    if amount * reserve > u128::MAX {
        Err(StdError::Overflow { operation: OverflowOperation::Mul, operand1: amount, operand2: reserve })
    } else if supply == 0 {
        Err(StdError::DivideByZero { operand: (amount * reserve) as u128 })
    } else {
        Ok(((amount * reserve) / (supply as int)) as u128)
    }
}

/// Calculates `amount * reserve / supply`, rounded down.
fn get_share(amount: u128, reserve: u128, supply: u128) -> (r: Result<u128, StdError>)
    ensures
        r == spec_share(amount, reserve, supply),
{
    let product = match amount.checked_mul(reserve) {
        Some(p) => p,
        None => return Err(StdError::Overflow { operation: OverflowOperation::Mul, operand1: amount, operand2: reserve }),
    };
    if supply == 0 {
        return Err(StdError::DivideByZero { operand: product });
    }
    Ok(product / supply)
}

/// A withdrawal never takes more than its share of a reserve: the amount returned, times
/// the supply, is at most the liquidity burned times the reserve.
pub proof fn lemma_share_within(amount: u128, reserve: u128, supply: u128)
    requires
        spec_share(amount, reserve, supply) is Ok,
    ensures
        spec_share(amount, reserve, supply) matches Ok(x) && x * supply <= amount * reserve,
{
    let p = amount * reserve;
    let d = supply as int;
    assert((p / d) * d <= p) by (nonlinear_arith)
        requires d > 0, p >= 0;
}

/// What `RemoveLiquidity` comes to, check by check: the expiration, the liquidity token,
/// the sender's balance and the supply as queried, the sender's balance against the
/// amount, non-zero minimums, the shares of both reserves, the slippage of each, the
/// caller's minimums, and the tokens ids to send. Done gives the 1155 share, the second
/// token's share, the ids and amounts sent, and the supplies that remain.
pub open spec fn spec_remove_liquidity(
    state: State,
    block: BlockInfo,
    amount: u128,
    min_token1155: AmountView,
    min_token2: u128,
    expiration: Option<Expiration>,
    lp_balance: Result<u128, StdError>,
    lp_supply: Result<u128, StdError>,
) -> Outcome<(u128, u128, Seq<EntryView>, Seq<EntryView>)> {
    if spec_check_expiration(expiration, block) is Err {
        Outcome::Fail(ContractError::MsgExpirationError {})
    } else if state.lp_address is None {
        Outcome::LpTokenMissing
    } else {
        match (lp_balance, lp_supply) {
            (Err(e), _) => Outcome::Fail(ContractError::Std(e)),
            (Ok(_), Err(e)) => Outcome::Fail(ContractError::Std(e)),
            (Ok(balance), Ok(supply)) => if amount > balance {
                Outcome::Fail(ContractError::InsufficientLiquidityError { requested: amount, available: balance })
            } else if !total_defined(min_token1155) {
                Outcome::Panic
            } else if amount_total(min_token1155) == 0 || min_token2 == 0 {
                Outcome::Fail(ContractError::MinTokenError {})
            } else {
                let min_total = amount_total(min_token1155) as u128;
                match spec_share(amount, state.token1155.reserve, supply) {
                    Err(e) => Outcome::Fail(ContractError::Std(e)),
                    Ok(t1) => match spec_share(amount, state.token2.reserve, supply) {
                        Err(e) => Outcome::Fail(ContractError::Std(e)),
                        Ok(t2) => if !slippage_fits(state.max_slippage_percent, t1) {
                            Outcome::Panic
                        } else if spec_validate_slippage(state.max_slippage_percent, min_total, t1) is Err {
                            Outcome::Fail(spec_validate_slippage(state.max_slippage_percent, min_total, t1)->Err_0)
                        } else if !slippage_fits(state.max_slippage_percent, t2) {
                            Outcome::Panic
                        } else if spec_validate_slippage(state.max_slippage_percent, min_token2, t2) is Err {
                            Outcome::Fail(spec_validate_slippage(state.max_slippage_percent, min_token2, t2)->Err_0)
                        } else if t1 < min_total {
                            Outcome::Fail(ContractError::MinToken1155Error { requested: min_total, available: t1 })
                        } else if t2 < min_token2 {
                            Outcome::Fail(ContractError::MinToken2Error { requested: min_token2, available: t2 })
                        } else if state.token1155.reserve < t1 {
                            Outcome::Fail(ContractError::Std(StdError::Overflow {
                                operation: OverflowOperation::Sub, operand1: state.token1155.reserve, operand2: t1 }))
                        } else if state.token2.reserve < t2 {
                            Outcome::Fail(ContractError::Std(StdError::Overflow {
                                operation: OverflowOperation::Sub, operand1: state.token2.reserve, operand2: t2 }))
                        } else {
                            match spec_amounts_to_transfer(state.token_supplies@, t1, min_token1155) {
                                Err(e) => Outcome::Fail(e),
                                Ok(p) => Outcome::Done((t1, t2, p.1, p.0)),
                            }
                        },
                    },
                }
            },
        }
    }
}

/// The messages of a withdrawal: the 1155 tokens from the pool to the sender, the second
/// token to the sender, and the burning of the sender's liquidity tokens.
pub open spec fn remove_liquidity_messages(
    state: State,
    sender: String,
    contract: String,
    amount: u128,
    transfer: Seq<EntryView>,
    token2_amount: u128,
) -> Seq<MessageView> {
    let first = match state.token1155.denom {
        Denom::Cw1155(addr, _) => seq![MessageView::Cw1155BatchSendFrom { contract: addr@, from: contract@, to: sender@, batch: transfer }],
        _ => Seq::empty(),
    };
    let second = match state.token2.denom {
        Denom::Cw20(addr) => seq![MessageView::Cw20Transfer { contract: addr@, recipient: sender@, amount: token2_amount }],
        Denom::Native(d) => seq![MessageView::BankSend { to_address: sender@, denom: d@, amount: token2_amount }],
        _ => Seq::empty(),
    };
    first + second + seq![MessageView::LpBurnFrom { contract: state.lp_address->Some_0@, owner: sender@, amount }]
}

/// The result of `RemoveLiquidity` on a pool in state `old`, leaving it in state `new`, as
/// `spec_remove_liquidity` decides.
pub open spec fn remove_liquidity_result(
    old: State,
    new: State,
    r: Result<Response, ContractError>,
    info: MessageInfo,
    env: Env,
    amount: u128,
    min_token1155: TokenAmount,
    min_token2: u128,
    expiration: Option<Expiration>,
    lp_balance: Result<u128, StdError>,
    lp_token_supply: Result<u128, StdError>,
) -> bool {
    match spec_remove_liquidity(old, env.block, amount, min_token1155@, min_token2, expiration, lp_balance,
        lp_token_supply) {
        Outcome::Fail(e) => r == Err::<Response, ContractError>(e) && new == old,
        Outcome::LpTokenMissing => is_lp_token_missing(r) && new == old,
        Outcome::Done((t1, t2, transfer, remaining)) => r matches Ok(resp)
            && messages_match(resp.messages@, remove_liquidity_messages(old, info.sender,
                env.contract_address, amount, transfer, t2))
            && resp.submessage is None
            && resp.event == (Event::RemoveLiquidity {
                token1155_returned: t1,
                token2_returned: t2,
                liquidity_burned: amount,
                liquidity_provider: info.sender,
                token1155_reserve: (old.token1155.reserve - t1) as u128,
                token2_reserve: (old.token2.reserve - t2) as u128,
            })
            && new == (State {
                token1155: Token { reserve: (old.token1155.reserve - t1) as u128, ..old.token1155 },
                token2: Token { reserve: (old.token2.reserve - t2) as u128, ..old.token2 },
                token_supplies: new.token_supplies,
                ..old
            })
            && new.token_supplies.wf()
            && new.token_supplies@ == remaining
            && total(transfer) == t1
            && crate::ids::ids_unique(transfer)
            && conserved(Seq::empty(), old.token_supplies@, transfer, remaining)
            && (min_token1155@ matches AmountView::Multiple(mins) ==>
                forall|k: Seq<char>| #[trigger] amount_of(transfer, k) >= amount_of(mins, k)),
        _ => false,
    }
}

/// Executes `RemoveLiquidity`: burns `amount` of the sender's liquidity tokens and sends
/// it its share of both reserves, as `spec_remove_liquidity` says; the 1155 ids sent meet
/// the caller's per-id minimums. `lp_balance` and `lp_token_supply` are the sender's
/// balance and the supply of the liquidity token, as queried.
pub fn execute_remove_liquidity(
    state: &mut State,
    info: &MessageInfo,
    env: &Env,
    amount: u128,
    min_token1155: TokenAmount,
    min_token2: u128,
    expiration: Option<Expiration>,
    lp_balance: Result<u128, StdError>,
    lp_token_supply: Result<u128, StdError>,
) -> (r: Result<Response, ContractError>)
    requires
        old(state).token_supplies.wf(),
        min_token1155.wf(),
        !(spec_remove_liquidity(*old(state), env.block, amount, min_token1155@, min_token2, expiration, lp_balance,
            lp_token_supply) is Panic),
    ensures
        remove_liquidity_result(*old(state), *final(state), r, *info, *env, amount, min_token1155, min_token2, expiration,
            lp_balance, lp_token_supply),
        r is Ok && old(state).supplies_match_reserve() ==> final(state).supplies_match_reserve(),
        old(state).wf() ==> final(state).wf(),
{
    match check_expiration(&expiration, &env.block) {
        Err(e) => return Err(e),
        Ok(_) => {},
    }
    let lp_token_addr = match &state.lp_address {
        None => return Err(ContractError::Std(lp_token_not_found())),
        Some(a) => a.clone(),
    };
    let balance = match lp_balance {
        Err(e) => return Err(ContractError::Std(e)),
        Ok(x) => x,
    };
    let lp_token_supply = match lp_token_supply {
        Err(e) => return Err(ContractError::Std(e)),
        Ok(x) => x,
    };
    if amount > balance {
        return Err(ContractError::InsufficientLiquidityError { requested: amount, available: balance });
    }
    let min_token1155_total_amount = min_token1155.get_total();
    match validate_min_token(min_token1155_total_amount) {
        Err(e) => return Err(e),
        Ok(_) => {},
    }
    match validate_min_token(min_token2) {
        Err(e) => return Err(e),
        Ok(_) => {},
    }
    let token1155_amount = match get_share(amount, state.token1155.reserve, lp_token_supply) {
        Err(e) => return Err(ContractError::Std(e)),
        Ok(x) => x,
    };
    let token2_amount = match get_share(amount, state.token2.reserve, lp_token_supply) {
        Err(e) => return Err(ContractError::Std(e)),
        Ok(x) => x,
    };
    match validate_slippage(state.max_slippage_percent, min_token1155_total_amount, token1155_amount) {
        Err(e) => return Err(e),
        Ok(_) => {},
    }
    match validate_slippage(state.max_slippage_percent, min_token2, token2_amount) {
        Err(e) => return Err(e),
        Ok(_) => {},
    }
    if token1155_amount < min_token1155_total_amount {
        return Err(ContractError::MinToken1155Error { requested: min_token1155_total_amount, available: token1155_amount });
    }
    if token2_amount < min_token2 {
        return Err(ContractError::MinToken2Error { requested: min_token2, available: token2_amount });
    }
    if state.token1155.reserve < token1155_amount {
        return Err(ContractError::Std(StdError::Overflow {
            operation: OverflowOperation::Sub,
            operand1: state.token1155.reserve,
            operand2: token1155_amount,
        }));
    }
    if state.token2.reserve < token2_amount {
        return Err(ContractError::Std(StdError::Overflow {
            operation: OverflowOperation::Sub,
            operand1: state.token2.reserve,
            operand2: token2_amount,
        }));
    }
    let mut supplies = state.token_supplies.copy();
    let transfer = match get_token_amounts_to_transfer(&mut supplies, token1155_amount, min_token1155) {
        Err(e) => return Err(e),
        Ok(t) => t,
    };
    let mut msgs: Vec<Message> = Vec::new();
    if let Denom::Cw1155(addr, _) = &state.token1155.denom {
        msgs.push(get_cw1155_transfer_msg(&env.contract_address, &info.sender, addr, &transfer));
    }
    match &state.token2.denom {
        Denom::Cw20(addr) => msgs.push(get_cw20_transfer_to_msg(&info.sender, addr, token2_amount)),
        Denom::Native(denom) => msgs.push(get_bank_transfer_to_msg(&info.sender, denom, token2_amount)),
        _ => {},
    }
    msgs.push(get_burn_msg(&lp_token_addr, &info.sender, amount));
    state.token1155.reserve = state.token1155.reserve - token1155_amount;
    state.token2.reserve = state.token2.reserve - token2_amount;
    state.token_supplies = supplies;
    proof {
        lemma_ascending_unique(old(state).token_supplies@);
        lemma_ascending_unique(state.token_supplies@);
        assert forall|k: Seq<char>| #[trigger] amount_of(old(state).token_supplies@, k)
            == amount_of(transfer@, k) + amount_of(state.token_supplies@, k) by {
            assert(amount_of(transfer@, k) + amount_of(state.token_supplies@, k)
                == amount_of(Seq::<EntryView>::empty(), k) + amount_of(old(state).token_supplies@, k));
        }
        lemma_total_pointwise(transfer@, state.token_supplies@, old(state).token_supplies@);
        let e = remove_liquidity_messages(*old(state), info.sender, env.contract_address, amount, transfer@, token2_amount);
        assert(msgs@.len() == e.len());
        assert forall|i: int| 0 <= i < msgs@.len() implies crate::response::message_matches(#[trigger] msgs@[i]@, e[i]) by {
        }
    }
    Ok(Response {
        messages: msgs,
        submessage: None,
        event: Event::RemoveLiquidity {
            token1155_returned: token1155_amount,
            token2_returned: token2_amount,
            liquidity_burned: amount,
            liquidity_provider: info.sender.clone(),
            token1155_reserve: state.token1155.reserve,
            token2_reserve: state.token2.reserve,
        },
    })
}

/// A deposit that succeeds mints `x` liquidity tokens into an empty pool and
/// `x * supply / reserve` otherwise, takes the whole `max_token2` into an empty pool and
/// `x * reserve2 / reserve + 1` otherwise, meets the caller's limits, and grows each
/// reserve by what it took (`x` the deposit's total, `supply` the queried supply).
pub proof fn lemma_deposit_outcome(
    old: State,
    new: State,
    r: Result<Response, ContractError>,
    info: MessageInfo,
    env: Env,
    min_liquidity: u128,
    token1155_amounts: TokenMap,
    max_token2: u128,
    expiration: Option<Expiration>,
    token_names: Seq<Result<String, StdError>>,
    lp_token_supply: Result<u128, StdError>,
)
    requires
        add_liquidity_result(old, new, r, info, env, min_liquidity, token1155_amounts, max_token2, expiration,
            token_names, lp_token_supply),
        r is Ok,
    ensures
        lp_token_supply matches Ok(supply) && {
            let x = total(token1155_amounts@);
            let r1 = old.token1155.reserve as int;
            let r2 = old.token2.reserve as int;
            let liquidity: int = if supply == 0 { x as int } else { x * supply / r1 };
            let token2: int = if supply == 0 { max_token2 as int } else { x * r2 / r1 + 1 };
            &&& spec_add_liquidity(old, info.funds@, env.block, min_liquidity, token1155_amounts, max_token2,
                    expiration, token_names, lp_token_supply) == Outcome::Done((x as u128, liquidity as u128, token2 as u128))
            &&& min_liquidity <= liquidity
            &&& token2 <= max_token2
            &&& new.token1155.reserve == r1 + x
            &&& new.token2.reserve == r2 + token2
        },
{
}

/// A withdrawal that succeeds burns no more than the sender holds, returns
/// `amount * reserve / supply` of each reserve (rounded down), at least the caller's
/// non-zero minimums, takes that much from each reserve, and sends 1155 ids that total the
/// 1155 share.
pub proof fn lemma_withdrawal_outcome(
    old: State,
    new: State,
    r: Result<Response, ContractError>,
    info: MessageInfo,
    env: Env,
    amount: u128,
    min_token1155: TokenAmount,
    min_token2: u128,
    expiration: Option<Expiration>,
    lp_balance: Result<u128, StdError>,
    lp_token_supply: Result<u128, StdError>,
)
    requires
        remove_liquidity_result(old, new, r, info, env, amount, min_token1155, min_token2, expiration, lp_balance,
            lp_token_supply),
        r is Ok,
    ensures
        lp_balance matches Ok(balance) && lp_token_supply matches Ok(supply) && supply > 0 && {
            let t1 = old.token1155.reserve * amount / (supply as int);
            let t2 = old.token2.reserve * amount / (supply as int);
            let m1 = amount_total(min_token1155@);
            &&& spec_remove_liquidity(old, env.block, amount, min_token1155@, min_token2, expiration, lp_balance,
                    lp_token_supply) matches Outcome::Done((a1, a2, transfer, _))
                && a1 == t1 && a2 == t2 && total(transfer) == t1
            &&& amount <= balance
            &&& 1 <= m1 <= t1
            &&& 1 <= min_token2 <= t2
            &&& new.token1155.reserve == old.token1155.reserve - t1
            &&& new.token2.reserve == old.token2.reserve - t2
        },
{
    let supply = lp_token_supply->Ok_0;
    assert(amount * old.token1155.reserve == old.token1155.reserve * amount) by (nonlinear_arith);
    assert(amount * old.token2.reserve == old.token2.reserve * amount) by (nonlinear_arith);
}

/// A withdrawal that succeeds pays the sender exactly what leaves each reserve: of the
/// 1155 token and of the second token (cw20 or native alike), `amount * reserve / supply`;
/// it burns exactly `amount` of the sender's liquidity tokens, and its event reports the
/// reserves left.
pub proof fn lemma_withdrawal_pays_shares(
    old: State,
    new: State,
    r: Result<Response, ContractError>,
    info: MessageInfo,
    env: Env,
    amount: u128,
    min_token1155: TokenAmount,
    min_token2: u128,
    expiration: Option<Expiration>,
    lp_balance: Result<u128, StdError>,
    lp_token_supply: Result<u128, StdError>,
)
    requires
        old.wf(),
        remove_liquidity_result(old, new, r, info, env, amount, min_token1155, min_token2, expiration, lp_balance,
            lp_token_supply),
        r is Ok,
    ensures
        lp_token_supply matches Ok(supply) && supply > 0
            && old.token1155.reserve - new.token1155.reserve == old.token1155.reserve * amount / (supply as int)
            && old.token2.reserve - new.token2.reserve == old.token2.reserve * amount / (supply as int),
        old.lp_address is Some,
        ({
            let msgs = message_views(r->Ok_0.messages@);
            let pool = env.contract_address@;
            let sender = info.sender@;
            &&& paid(msgs, old.token1155.denom, pool, sender) == old.token1155.reserve - new.token1155.reserve
            &&& paid(msgs, old.token2.denom, pool, sender) == old.token2.reserve - new.token2.reserve
            &&& burned(msgs, old.lp_address->Some_0@, sender) == amount
        }),
        r->Ok_0.event == (Event::RemoveLiquidity {
            token1155_returned: (old.token1155.reserve - new.token1155.reserve) as u128,
            token2_returned: (old.token2.reserve - new.token2.reserve) as u128,
            liquidity_burned: amount,
            liquidity_provider: info.sender,
            token1155_reserve: new.token1155.reserve,
            token2_reserve: new.token2.reserve,
        }),
{
    lemma_withdrawal_outcome(old, new, r, info, env, amount, min_token1155, min_token2, expiration, lp_balance,
        lp_token_supply);
    let o = spec_remove_liquidity(old, env.block, amount, min_token1155@, min_token2, expiration, lp_balance,
        lp_token_supply);
    if let Outcome::Done((t1, t2, transfer, remaining)) = o {
        let resp = r->Ok_0;
        let pool = env.contract_address@;
        let sender = info.sender@;
        let e = remove_liquidity_messages(old, info.sender, env.contract_address, amount, transfer, t2);
        let first = seq![MessageView::Cw1155BatchSendFrom {
            contract: old.token1155.denom->Cw1155_0@, from: pool, to: sender, batch: transfer }];
        let second = match old.token2.denom {
            Denom::Cw20(addr) => seq![MessageView::Cw20Transfer { contract: addr@, recipient: sender, amount: t2 }],
            Denom::Native(d) => seq![MessageView::BankSend { to_address: sender, denom: d@, amount: t2 }],
            _ => Seq::empty(),
        };
        let last = seq![MessageView::LpBurnFrom { contract: old.lp_address->Some_0@, owner: sender, amount }];
        assert(e == first + second + last);
        assert(batches_unique(e)) by {
            assert forall|i: int| 0 <= i < e.len() implies ((#[trigger] e[i])
                matches MessageView::Cw1155BatchSendFrom { batch, .. } ==> crate::ids::ids_unique(batch)) by {
                if i > 0 {
                    assert(!(e[i] is Cw1155BatchSendFrom));
                }
            }
        }
        let f1 = Flow::Paid { denom: old.token1155.denom, pool, to: sender };
        let f2 = Flow::Paid { denom: old.token2.denom, pool, to: sender };
        let f3 = Flow::Burned { lp: old.lp_address->Some_0@, owner: sender };
        lemma_flow_matches(resp.messages@, e, f1);
        lemma_flow_matches(resp.messages@, e, f2);
        lemma_flow_matches(resp.messages@, e, f3);
        lemma_flow_parts(first, second, last, f1);
        lemma_flow_parts(first, second, last, f2);
        lemma_flow_parts(first, second, last, f3);
    }
}

/// A deposit that succeeds takes from the sender exactly what reaches each reserve: the
/// 1155 tokens deposited, and the second token owed (under an allowance for a cw20 token;
/// for a native coin, the one coin sent of `max_token2`, less what is sent back); it mints
/// to the sender `x` liquidity tokens into an empty pool and `x * supply / reserve`
/// otherwise (`x` the deposit's total), and its event reports the reserves reached.
pub proof fn lemma_deposit_moves_tokens(
    old: State,
    new: State,
    r: Result<Response, ContractError>,
    info: MessageInfo,
    env: Env,
    min_liquidity: u128,
    token1155_amounts: TokenMap,
    max_token2: u128,
    expiration: Option<Expiration>,
    token_names: Seq<Result<String, StdError>>,
    lp_token_supply: Result<u128, StdError>,
)
    requires
        old.wf(),
        token1155_amounts.wf(),
        add_liquidity_result(old, new, r, info, env, min_liquidity, token1155_amounts, max_token2, expiration,
            token_names, lp_token_supply),
        r is Ok,
    ensures
        old.lp_address is Some,
        new.token1155.reserve >= old.token1155.reserve,
        new.token2.reserve >= old.token2.reserve,
        ({
            let msgs = message_views(r->Ok_0.messages@);
            let pool = env.contract_address@;
            let sender = info.sender@;
            let x = total(token1155_amounts@);
            &&& pulled(msgs, old.token1155.denom, sender, pool) == new.token1155.reserve - old.token1155.reserve
            &&& pulled(msgs, old.token1155.denom, sender, pool) == x
            &&& old.token2.denom is Cw20 ==>
                pulled(msgs, old.token2.denom, sender, pool) == new.token2.reserve - old.token2.reserve
            &&& old.token2.denom is Native ==> {
                &&& info.funds@.len() == 1
                &&& info.funds@[0].denom@ == old.token2.denom->Native_0@
                &&& info.funds@[0].amount == max_token2
                &&& info.funds@[0].amount - paid(msgs, old.token2.denom, pool, sender)
                    == new.token2.reserve - old.token2.reserve
            }
            &&& lp_token_supply matches Ok(supply) && minted(msgs, old.lp_address->Some_0@, sender)
                == if supply == 0 { x as int } else { x * supply / (old.token1155.reserve as int) }
        }),
        r->Ok_0.event matches Event::AddLiquidity { token1155_amount, token2_amount, liquidity_received,
            liquidity_receiver, token1155_reserve, token2_reserve }
            && token1155_amount == new.token1155.reserve - old.token1155.reserve
            && token2_amount == new.token2.reserve - old.token2.reserve
            && liquidity_received == minted(message_views(r->Ok_0.messages@), old.lp_address->Some_0@, info.sender@)
            && liquidity_receiver == info.sender
            && token1155_reserve == new.token1155.reserve && token2_reserve == new.token2.reserve,
{
    lemma_deposit_outcome(old, new, r, info, env, min_liquidity, token1155_amounts, max_token2, expiration,
        token_names, lp_token_supply);
    let o = spec_add_liquidity(old, info.funds@, env.block, min_liquidity, token1155_amounts, max_token2,
        expiration, token_names, lp_token_supply);
    if let Outcome::Done((t, l, a2)) = o {
        let resp = r->Ok_0;
        let pool = env.contract_address@;
        let sender = info.sender@;
        let e = add_liquidity_messages(old, info.sender, env.contract_address, token1155_amounts@, max_token2, a2, l);
        let first = seq![MessageView::Cw1155BatchSendFrom {
            contract: old.token1155.denom->Cw1155_0@, from: sender, to: pool, batch: token1155_amounts@ }];
        let second = match old.token2.denom {
            Denom::Cw20(addr) => seq![MessageView::Cw20TransferFrom { contract: addr@, owner: sender, recipient: pool,
                amount: a2 }],
            Denom::Native(d) => if a2 < max_token2 {
                seq![MessageView::BankSend { to_address: sender, denom: d@, amount: (max_token2 - a2) as u128 }]
            } else {
                Seq::<MessageView>::empty()
            },
            _ => Seq::empty(),
        };
        let last = seq![MessageView::LpMint { contract: old.lp_address->Some_0@, recipient: sender, amount: l }];
        assert(e == first + second + last);
        assert(batches_unique(e)) by {
            assert forall|i: int| 0 <= i < e.len() implies ((#[trigger] e[i])
                matches MessageView::Cw1155BatchSendFrom { batch, .. } ==> crate::ids::ids_unique(batch)) by {
                if i > 0 {
                    assert(!(e[i] is Cw1155BatchSendFrom));
                }
            }
        }
        let f1 = Flow::Pulled { denom: old.token1155.denom, from: sender, to: pool };
        let f2 = Flow::Pulled { denom: old.token2.denom, from: sender, to: pool };
        let f3 = Flow::Paid { denom: old.token2.denom, pool, to: sender };
        let f4 = Flow::Minted { lp: old.lp_address->Some_0@, to: sender };
        lemma_flow_matches(resp.messages@, e, f1);
        lemma_flow_matches(resp.messages@, e, f2);
        lemma_flow_matches(resp.messages@, e, f3);
        lemma_flow_matches(resp.messages@, e, f4);
        lemma_flow_parts(first, second, last, f1);
        lemma_flow_parts(first, second, last, f2);
        lemma_flow_parts(first, second, last, f3);
        lemma_flow_parts(first, second, last, f4);
    }
}

} // verus!
