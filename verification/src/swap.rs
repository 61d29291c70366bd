//! Swaps: one token of the pool for the other, sent to a recipient or passed on to a
//! second pool.
use vstd::prelude::*;
use crate::contract::{
    Outcome, is_no_liquidity, check_expiration, input_amount_checkable, slippage_fits,
    spec_check_expiration, spec_token1155_denom, spec_validate_input_amount, spec_validate_slippage,
    validate_input_amount, validate_min_token, validate_slippage, validate_token1155_denom
};
use crate::decimal::Decimal;
use crate::error::{ContractError, OverflowOperation, StdError};
use crate::ids::EntryView;
use crate::messages::{
    get_bank_transfer_to_msg, get_cw1155_transfer_msg, get_cw20_increase_allowance_msg,
    get_cw20_transfer_from_msg, get_cw20_transfer_to_msg, get_fee_transfer_msg
};
use crate::msg::{
    AddrCheck, BlockInfo, Coin, Denom, Env, Expiration, InfoResponse, MessageInfo, TokenSelect, denom_eq
};
use crate::pricing::{
    fee_fits, fee_within, get_amount_without_fee, lemma_fee_split, get_input_price, input_price,
    lemma_swap_keeps_product, spec_amount_without_fee, spec_input_price, input_with_fee
};
use crate::response::{
    Event, Flow, Message, MessageView, Response, messages_match, message_matches, message_views, paid, pulled,
    allowed, batches_unique, lemma_flow_matches, lemma_flow_concat, lemma_flow_single,
    lemma_flow_parts, lemma_flow_at
};
use crate::state::{State, Token};
use crate::supplies::{
    add_token_supplies, get_token_amounts_to_transfer, lemma_ascending_unique,
    lemma_supplies_added_total, spec_amounts_to_transfer, supplies_addable, supplies_added
};
use crate::token_amount::{
    AmountView, TokenAmount, amount_of, amount_total, lemma_percent_within, lemma_total_pointwise,
    opt_amount_view, spec_get_percent, total, total_defined
};
use crate::utils::spec_decimal_to_uint128;

verus! {

/// The token a swap takes in.
pub open spec fn input_token(state: State, input: TokenSelect) -> Token {
    match input {
        TokenSelect::Token1155 => state.token1155,
        TokenSelect::Token2 => state.token2,
    }
}

/// The token a swap gives out.
pub open spec fn output_token(state: State, input: TokenSelect) -> Token {
    match input {
        TokenSelect::Token1155 => state.token2,
        TokenSelect::Token2 => state.token1155,
    }
}

/// The total of the two fee percents.
pub open spec fn total_fee(state: State) -> Decimal {
    Decimal { atomics: (state.fees.lp_fee_percent.atomics + state.fees.protocol_fee_percent.atomics) as u128 }
}

/// The first checks of a swap and its price: the expiration, the ids' denomination for an
/// 1155 input, a non-zero minimum, the coins sent for a native input, at least two tokens
/// in where a protocol fee is taken, the price, its slippage and the caller's minimum.
/// Done gives the input's total, the price and the minimum's total.
pub open spec fn spec_swap_price(
    state: State,
    funds: Seq<Coin>,
    block: BlockInfo,
    input: TokenSelect,
    input_amount: TokenAmount,
    min_token: AmountView,
    expiration: Option<Expiration>,
    names: Seq<Result<String, StdError>>,
) -> Outcome<(u128, u128, u128)> {
    let inp = input_token(state, input);
    let outp = output_token(state, input);
    if spec_check_expiration(expiration, block) is Err {
        Outcome::Fail(ContractError::MsgExpirationError {})
    } else if input == TokenSelect::Token1155 && input_amount@ is Single {
        Outcome::Fail(ContractError::InvalidTokenAmount { amount: input_amount@->Single_0 })
    } else if input == TokenSelect::Token1155 && input_amount is Multiple
        && spec_token1155_denom(inp.denom, input_amount->Multiple_0.entries@, names) is Err {
        Outcome::Fail(spec_token1155_denom(inp.denom, input_amount->Multiple_0.entries@, names)->Err_0)
    } else if !total_defined(min_token) {
        Outcome::Panic
    } else if amount_total(min_token) == 0 {
        Outcome::Fail(ContractError::MinTokenError {})
    } else if !input_amount_checkable(funds, input_amount@, inp.denom) {
        Outcome::Panic
    } else if spec_validate_input_amount(funds, input_amount@, inp.denom) is Err {
        Outcome::Fail(spec_validate_input_amount(funds, input_amount@, inp.denom)->Err_0)
    } else if !total_defined(input_amount@) {
        Outcome::Panic
    } else if state.fees.protocol_fee_percent.atomics > 0 && amount_total(input_amount@) == 1 {
        Outcome::Fail(ContractError::MinInputTokenAmountError { input_token_amount: 1, min_allowed: 2 })
    } else if state.fees.lp_fee_percent.atomics + state.fees.protocol_fee_percent.atomics > u128::MAX
        || !fee_fits(inp.reserve, outp.reserve, total_fee(state)) {
        Outcome::Panic
    } else {
        let t = amount_total(input_amount@) as u128;
        let min_total = amount_total(min_token) as u128;
        match spec_input_price(t, inp.reserve, outp.reserve, total_fee(state)) {
            None => Outcome::NoLiquidity,
            Some(Err(e)) => Outcome::Fail(ContractError::Std(e)),
            Some(Ok(b)) => if !slippage_fits(state.max_slippage_percent, b) {
                Outcome::Panic
            } else if spec_validate_slippage(state.max_slippage_percent, min_total, b) is Err {
                Outcome::Fail(spec_validate_slippage(state.max_slippage_percent, min_total, b)->Err_0)
            } else if min_total > b {
                Outcome::Fail(ContractError::SwapMinError { min: min_total, available: b })
            } else {
                Outcome::Done((t, b, min_total))
            },
        }
    }
}

/// The transfer of the input (less the protocol's fee) from the sender to the pool: amounts
/// per id for an 1155 token, a single amount under an allowance for a cw20, nothing for a
/// native coin (it came with the message). An amount of the wrong kind is an error.
pub open spec fn input_transfer(denom: Denom, without_fee: AmountView, sender: Seq<char>, contract: Seq<char>) -> Result<Seq<MessageView>, ContractError> {
    match (denom, without_fee) {
        (Denom::Cw1155(addr, _), AmountView::Multiple(ws)) =>
            Ok(seq![MessageView::Cw1155BatchSendFrom { contract: addr@, from: sender, to: contract, batch: ws }]),
        (Denom::Cw1155(_, _), AmountView::Single(x)) => Err(ContractError::InvalidTokenAmount { amount: x }),
        (Denom::Cw20(addr), AmountView::Single(x)) =>
            Ok(seq![MessageView::Cw20TransferFrom { contract: addr@, owner: sender, recipient: contract, amount: x }]),
        (Denom::Cw20(_), AmountView::Multiple(ws)) => Err(ContractError::InvalidTokenAmount { amount: total(ws) as u128 }),
        (Denom::Native(_), _) => Ok(Seq::empty()),
    }
}

/// The transfer of the protocol's fee from the sender to the fee recipient, where a fee is
/// taken.
pub open spec fn fee_transfer(denom: Denom, fee: Option<AmountView>, sender: Seq<char>, fee_recipient: Seq<char>) -> Result<Seq<MessageView>, ContractError> {
    match fee {
        None => Ok(Seq::empty()),
        Some(f) => match (denom, f) {
            (Denom::Cw1155(addr, _), AmountView::Multiple(s)) =>
                Ok(seq![MessageView::Cw1155BatchSendFrom { contract: addr@, from: sender, to: fee_recipient, batch: s }]),
            (Denom::Cw1155(_, _), AmountView::Single(a)) => Err(ContractError::InvalidTokenAmount { amount: a }),
            (Denom::Cw20(addr), AmountView::Single(a)) =>
                Ok(seq![MessageView::Cw20TransferFrom { contract: addr@, owner: sender, recipient: fee_recipient, amount: a }]),
            (Denom::Native(d), AmountView::Single(a)) =>
                Ok(seq![MessageView::BankSend { to_address: fee_recipient, denom: d@, amount: a }]),
            (_, AmountView::Multiple(s)) => Err(ContractError::InvalidTokenAmount { amount: total(s) as u128 }),
        },
    }
}

/// The transfer of what was bought from the pool to the recipient.
pub open spec fn output_transfer(denom: Denom, bought: u128, transfer: Seq<EntryView>, contract: Seq<char>, recipient: Seq<char>) -> Seq<MessageView> {
    match denom {
        Denom::Cw1155(addr, _) => seq![MessageView::Cw1155BatchSendFrom { contract: addr@, from: contract, to: recipient, batch: transfer }],
        Denom::Cw20(addr) => seq![MessageView::Cw20Transfer { contract: addr@, recipient, amount: bought }],
        Denom::Native(d) => seq![MessageView::BankSend { to_address: recipient, denom: d@, amount: bought }],
    }
}

/// The values of a swap that is done.
pub struct SwapValues {
    /// The input's total.
    pub input_total: u128,
    /// What the input buys.
    pub bought: u128,
    /// The protocol's fee, where one is taken.
    pub fee: Option<AmountView>,
    /// The input less the protocol's fee: what reaches the input reserve.
    pub without_fee: AmountView,
    /// The 1155 ids and amounts sent out, for an 1155 output.
    pub transfer: Seq<EntryView>,
    /// The supplies once the ids sent out are taken.
    pub supplies: Seq<EntryView>,
    /// The messages, in order.
    pub messages: Seq<MessageView>,
}

/// What a swap comes to once its price is known: the protocol's fee, the input less the
/// fee, the input and fee transfers, the recipient's validation, the 1155 ids sent out for
/// an 1155 output, the input reserve's growth, and the supplies of the ids that come in.
pub open spec fn spec_swap_rest(
    state: State,
    sender: Seq<char>,
    contract: Seq<char>,
    input: TokenSelect,
    input_amount: AmountView,
    min_token: AmountView,
    recipient: AddrCheck,
    t: u128,
    b: u128,
) -> Outcome<SwapValues> {
    let inp = input_token(state, input);
    let outp = output_token(state, input);
    match spec_get_percent(input_amount, state.fees.protocol_fee_percent) {
        Err(e) => Outcome::Fail(e),
        Ok(fee) => if !fee_within(input_amount, fee) {
            Outcome::Panic
        } else {
            match spec_amount_without_fee(input_amount, fee) {
                Err(e) => Outcome::Fail(e),
                Ok(w) => if inp.denom is Cw20 && w is Multiple && !total_defined(w) {
                    Outcome::Panic
                } else {
                    match input_transfer(inp.denom, w, sender, contract) {
                        Err(e) => Outcome::Fail(e),
                        Ok(in_msgs) => if fee matches Some(f) && !total_defined(f) {
                            Outcome::Panic
                        } else {
                            match fee_transfer(inp.denom, fee, sender, state.fees.protocol_fee_recipient@) {
                                Err(e) => Outcome::Fail(e),
                                Ok(fee_msgs) => match recipient {
                                    Err(e) => Outcome::Fail(ContractError::Std(e)),
                                    Ok(rcpt) => {
                                        let out = if outp.denom is Cw1155 {
                                            spec_amounts_to_transfer(state.token_supplies@, b, min_token)
                                        } else {
                                            Ok((state.token_supplies@, Seq::<EntryView>::empty()))
                                        };
                                        match out {
                                            Err(e) => Outcome::Fail(e),
                                            Ok(p) => if !total_defined(w) {
                                                Outcome::Panic
                                            } else if inp.reserve + amount_total(w) > u128::MAX {
                                                Outcome::Fail(ContractError::Std(StdError::Overflow {
                                                    operation: OverflowOperation::Add,
                                                    operand1: inp.reserve,
                                                    operand2: amount_total(w) as u128,
                                                }))
                                            } else if outp.reserve < b {
                                                Outcome::Fail(ContractError::Std(StdError::Overflow {
                                                    operation: OverflowOperation::Sub,
                                                    operand1: outp.reserve,
                                                    operand2: b,
                                                }))
                                            } else if w matches AmountView::Multiple(ws) && !supplies_addable(p.0, ws) {
                                                Outcome::Panic
                                            } else {
                                                Outcome::Done(SwapValues {
                                                    input_total: t,
                                                    bought: b,
                                                    fee,
                                                    without_fee: w,
                                                    transfer: p.1,
                                                    supplies: p.0,
                                                    messages: in_msgs + fee_msgs + output_transfer(outp.denom, b, p.1, contract, rcpt@),
                                                })
                                            },
                                        }
                                    },
                                },
                            }
                        },
                    }
                },
            }
        },
    }
}

/// What `Swap` and `SwapAndSendTo` come to: the checks and price of `spec_swap_price`,
/// then `spec_swap_rest`.
pub open spec fn spec_swap(
    state: State,
    info: MessageInfo,
    contract: Seq<char>,
    block: BlockInfo,
    input: TokenSelect,
    input_amount: TokenAmount,
    min_token: AmountView,
    expiration: Option<Expiration>,
    names: Seq<Result<String, StdError>>,
    recipient: AddrCheck,
) -> Outcome<SwapValues> {
    match spec_swap_price(state, info.funds@, block, input, input_amount, min_token, expiration, names) {
        Outcome::Done((t, b, _)) => spec_swap_rest(state, info.sender@, contract, input, input_amount@, min_token, recipient, t, b),
        Outcome::Fail(e) => Outcome::Fail(e),
        Outcome::LpTokenMissing => Outcome::LpTokenMissing,
        Outcome::NoLiquidity => Outcome::NoLiquidity,
        Outcome::Panic => Outcome::Panic,
    }
}

/// The reserves of a pool after a swap: the input reserve grown by `added`, the output
/// reserve less `removed`.
pub open spec fn reserves_after(state: State, input: TokenSelect, added: u128, removed: u128) -> (u128, u128) {
    match input {
        TokenSelect::Token1155 => ((state.token1155.reserve + added) as u128, (state.token2.reserve - removed) as u128),
        TokenSelect::Token2 => ((state.token1155.reserve - removed) as u128, (state.token2.reserve + added) as u128),
    }
}

/// The product of the two reserves.
pub open spec fn reserve_product(state: State) -> int {
    state.token1155.reserve * state.token2.reserve
}

/// A swap whose whole input reaches the input reserve keeps the product of the reserves
/// from falling, whichever reserve is which.
proof fn lemma_swap_product(rin: u128, rout: u128, t: u128, b: u128, f: u128)
    requires
        rin >= 1,
        f <= 10000,
        b == input_price(t as nat, rin as nat, rout as nat, f as nat) as u128,
    ensures
        (rin + t) * (rout - b) >= rin * rout,
        (rout - b) * (rin + t) >= rout * rin,
{
    crate::pricing::lemma_input_price_keeps_product(t as nat, rin as nat, rout as nat, f as nat);
    assert(t * 10000 >= input_with_fee(t as nat, f as nat)) by (nonlinear_arith)
        requires f <= 10000;
    lemma_swap_keeps_product(t as nat, t as nat, rin as nat, rout as nat, f as nat);
    assert((rin + t) * (rout - b) == (rout - b) * (rin + t)) by (nonlinear_arith);
    assert(rin * rout == rout * rin) by (nonlinear_arith);
}

/// The input of a swap splits into what reaches the reserve and the protocol's fee.
proof fn lemma_input_split(input: AmountView, fee: Option<AmountView>, percent: Decimal)
    requires
        input matches AmountView::Multiple(s) ==> crate::ids::ids_unique(s),
        total_defined(input),
        spec_get_percent(input, percent) == Ok::<Option<AmountView>, ContractError>(fee),
        fee_within(input, fee),
        spec_amount_without_fee(input, fee) is Ok,
    ensures
        spec_amount_without_fee(input, fee) matches Ok(w) && amount_total(w) + fee_total(fee) == amount_total(input),
{
    if let Some(AmountView::Multiple(fs)) = fee {
        if let AmountView::Multiple(s) = input {
            let p = spec_decimal_to_uint128(percent)->Ok_0;
            lemma_percent_within(s, p);
            let q = crate::ids::sort_entries(s);
            let left = crate::utils::spec_amount_with_percent(total(s) as u128, p)->Ok_0;
            crate::token_amount::lemma_sorted_ids_unique(s);
            crate::token_amount::lemma_take_greedy(q, left as nat);
            assert forall|a: int, b: int| 0 <= a < b < fs.len() implies (#[trigger] fs[a]).0 != (#[trigger] fs[b]).0 by {
                assert(fs[a].0 == q[a].0);
                assert(fs[b].0 == q[b].0);
            }
            lemma_fee_split(s, fs);
        }
    }
}

/// The total of the protocol's fee, zero where none is taken.
pub open spec fn fee_total(fee: Option<AmountView>) -> u128 {
    match fee {
        Some(f) => amount_total(f) as u128,
        None => 0,
    }
}

/// The supplies after a swap: the ids that came in added to what remained after the ids
/// sent out.
pub open spec fn swap_supplies(n: Seq<EntryView>, v: SwapValues) -> bool {
    match v.without_fee {
        AmountView::Multiple(ws) => supplies_added(n, v.supplies, ws),
        AmountView::Single(_) => n == v.supplies,
    }
}

/// The result of `Swap` or `SwapAndSendTo` on a pool in state `old`, leaving it in state
/// `new`, as `spec_swap` decides.
pub open spec fn swap_result(
    old: State,
    new: State,
    r: Result<Response, ContractError>,
    info: MessageInfo,
    input_amount: TokenAmount,
    env: Env,
    input_token_enum: TokenSelect,
    recipient: AddrCheck,
    min_token: TokenAmount,
    expiration: Option<Expiration>,
    token_names: Seq<Result<String, StdError>>,
) -> bool {
    match spec_swap(old, info, env.contract_address@, env.block, input_token_enum, input_amount, min_token@,
        expiration, token_names, recipient) {
        Outcome::Fail(e) => r == Err::<Response, ContractError>(e) && new == old,
        Outcome::NoLiquidity => is_no_liquidity(r) && new == old,
        Outcome::Done(v) => r matches Ok(resp)
            && messages_match(resp.messages@, v.messages)
            && resp.submessage is None
            && resp.event == (Event::Swap {
                sender: info.sender,
                recipient: recipient->Ok_0,
                input_token_enum,
                input_token_amount: v.input_total,
                output_token_amount: v.bought,
                protocol_fee_amount: fee_total(v.fee),
                token1155_reserve: reserves_after(old, input_token_enum, amount_total(v.without_fee) as u128, v.bought).0,
                token2_reserve: reserves_after(old, input_token_enum, amount_total(v.without_fee) as u128, v.bought).1,
            })
            && new == (State {
                token1155: Token {
                    reserve: reserves_after(old, input_token_enum, amount_total(v.without_fee) as u128, v.bought).0,
                    ..old.token1155
                },
                token2: Token {
                    reserve: reserves_after(old, input_token_enum, amount_total(v.without_fee) as u128, v.bought).1,
                    ..old.token2
                },
                token_supplies: new.token_supplies,
                ..old
            })
            && new.token_supplies.wf()
            && swap_supplies(new.token_supplies@, v)
            && crate::ids::ids_unique(v.transfer)
            && (output_token(old, input_token_enum).denom is Cw1155 ==> total(v.transfer) == v.bought),
        _ => false,
    }
}

/// A swap that succeeds buys the price of the input's total, at least the caller's
/// non-zero minimum, and moves the reserves by exactly its values: the input reserve gains
/// the input less the protocol's fee, and the output reserve loses what the input bought.
pub proof fn lemma_swap_moves_reserves(
    old: State,
    new: State,
    r: Result<Response, ContractError>,
    info: MessageInfo,
    input_amount: TokenAmount,
    env: Env,
    input_token_enum: TokenSelect,
    recipient: AddrCheck,
    min_token: TokenAmount,
    expiration: Option<Expiration>,
    token_names: Seq<Result<String, StdError>>,
)
    requires
        input_amount.wf(),
        swap_result(old, new, r, info, input_amount, env, input_token_enum, recipient, min_token, expiration, token_names),
        r is Ok,
    ensures
        spec_swap(old, info, env.contract_address@, env.block, input_token_enum, input_amount, min_token@, expiration,
            token_names, recipient) matches Outcome::Done(v)
            && v.input_total == amount_total(input_amount@)
            && spec_input_price(v.input_total, input_token(old, input_token_enum).reserve,
                output_token(old, input_token_enum).reserve, total_fee(old)) == Some(Ok::<u128, StdError>(v.bought))
            && 1 <= amount_total(min_token@) <= v.bought
            && input_token(new, input_token_enum).reserve + fee_total(v.fee)
                == input_token(old, input_token_enum).reserve + v.input_total
            && output_token(new, input_token_enum).reserve + v.bought == output_token(old, input_token_enum).reserve,
{
    let o = spec_swap(old, info, env.contract_address@, env.block, input_token_enum, input_amount, min_token@, expiration,
        token_names, recipient);
    let p = spec_swap_price(old, info.funds@, env.block, input_token_enum, input_amount, min_token@, expiration, token_names);
    if let Outcome::Done(v) = o {
        if let Outcome::Done((t, b, m)) = p {
            let fee = spec_get_percent(input_amount@, old.fees.protocol_fee_percent)->Ok_0;
            lemma_input_split(input_amount@, fee, old.fees.protocol_fee_percent);
        }
    }
}

/// Executes `Swap` and `SwapAndSendTo`: takes `input_amount` of the input token from the
/// sender and sends what it buys to the recipient (`recipient` is the chain's validation
/// of the recipient's address), as `spec_swap` says. The protocol's fee goes from the
/// sender to its recipient and does not reach the reserves. `token_names` are the chain's
/// metadata names of an 1155 input's ids, in order.
pub fn execute_swap(
    state: &mut State,
    info: &MessageInfo,
    input_amount: TokenAmount,
    env: &Env,
    input_token_enum: TokenSelect,
    recipient: AddrCheck,
    min_token: TokenAmount,
    expiration: Option<Expiration>,
    token_names: &Vec<Result<String, StdError>>,
) -> (r: Result<Response, ContractError>)
    requires
        old(state).token_supplies.wf(),
        input_amount.wf(),
        min_token.wf(),
        input_token_enum == TokenSelect::Token1155 && input_amount is Multiple ==>
            token_names@.len() == input_amount@->Multiple_0.len(),
        !(spec_swap(*old(state), *info, env.contract_address@, env.block, input_token_enum, input_amount, min_token@,
            expiration, token_names@, recipient) is Panic),
    ensures
        swap_result(*old(state), *final(state), r, *info, input_amount, *env, input_token_enum, recipient, min_token,
            expiration, token_names@),
        spec_swap(*old(state), *info, env.contract_address@, env.block, input_token_enum, input_amount, min_token@,
            expiration, token_names@, recipient) matches Outcome::Done(v) ==>
            amount_total(v.without_fee) + fee_total(v.fee) == v.input_total,
        r is Ok && old(state).wf() && old(state).supplies_match_reserve() ==> final(state).supplies_match_reserve(),
        r is Ok && old(state).wf() && old(state).fees.protocol_fee_percent.atomics == 0 ==>
            reserve_product(*final(state)) >= reserve_product(*old(state)),
        old(state).wf() ==> final(state).wf(),
{
    match check_expiration(&expiration, &env.block) {
        Err(e) => return Err(e),
        Ok(_) => {},
    }
    let is1155 = match input_token_enum {
        TokenSelect::Token1155 => true,
        TokenSelect::Token2 => false,
    };
    let (in_reserve, out_reserve) = if is1155 {
        (state.token1155.reserve, state.token2.reserve)
    } else {
        (state.token2.reserve, state.token1155.reserve)
    };
    let in_denom = if is1155 { state.token1155.denom.copy() } else { state.token2.denom.copy() };
    let out_denom = if is1155 { state.token2.denom.copy() } else { state.token1155.denom.copy() };
    if is1155 {
        match &input_amount {
            TokenAmount::Single(a) => return Err(ContractError::InvalidTokenAmount { amount: *a }),
            TokenAmount::Multiple(input_ids) => match validate_token1155_denom(&in_denom, input_ids, token_names) {
                Err(e) => return Err(e),
                Ok(_) => {},
            },
        }
    }
    let min_token_total = min_token.get_total();
    match validate_min_token(min_token_total) {
        Err(e) => return Err(e),
        Ok(_) => {},
    }
    match validate_input_amount(&info.funds, &input_amount, &in_denom) {
        Err(e) => return Err(e),
        Ok(_) => {},
    }
    let input_amount_total = input_amount.get_total();
    if !state.fees.protocol_fee_percent.is_zero() && input_amount_total == 1 {
        return Err(ContractError::MinInputTokenAmountError { input_token_amount: input_amount_total, min_allowed: 2 });
    }
    let total_fee_percent = state.fees.lp_fee_percent.add(&state.fees.protocol_fee_percent);
    let token_bought = match get_input_price(input_amount_total, in_reserve, out_reserve, total_fee_percent) {
        Err(e) => return Err(ContractError::Std(e)),
        Ok(b) => b,
    };
    match validate_slippage(state.max_slippage_percent, min_token_total, token_bought) {
        Err(e) => return Err(e),
        Ok(_) => {},
    }
    if min_token_total > token_bought {
        return Err(ContractError::SwapMinError { min: min_token_total, available: token_bought });
    }
    let protocol_fee_amount = match input_amount.get_percent(state.fees.protocol_fee_percent) {
        Err(e) => return Err(e),
        Ok(f) => f,
    };
    let ghost fee_view = opt_amount_view(protocol_fee_amount);
    let fee_copy = match &protocol_fee_amount {
        Some(f) => Some(f.copy()),
        None => None,
    };
    let input_amount_without_protocol_fee = match get_amount_without_fee(&input_amount, fee_copy) {
        Err(e) => return Err(e),
        Ok(w) => w,
    };
    proof {
        lemma_input_split(input_amount@, fee_view, state.fees.protocol_fee_percent);
    }
    let mut msgs: Vec<Message> = Vec::new();
    match &in_denom {
        Denom::Cw1155(addr, _) => match input_amount_without_protocol_fee.get_multiple() {
            Err(e) => return Err(e),
            Ok(m) => msgs.push(get_cw1155_transfer_msg(&info.sender, &env.contract_address, addr, &m)),
        },
        Denom::Cw20(addr) => match input_amount_without_protocol_fee.get_single() {
            Err(e) => return Err(e),
            Ok(x) => msgs.push(get_cw20_transfer_from_msg(&info.sender, &env.contract_address, addr, x)),
        },
        Denom::Native(_) => {},
    }
    let mut protocol_fee_amount_total: u128 = 0;
    if let Some(fee) = protocol_fee_amount {
        protocol_fee_amount_total = fee.get_total();
        match get_fee_transfer_msg(&info.sender, &state.fees.protocol_fee_recipient, &in_denom, fee) {
            Err(e) => return Err(e),
            Ok(m) => msgs.push(m),
        }
    }
    let recipient = match recipient {
        Err(e) => return Err(ContractError::Std(e)),
        Ok(a) => a,
    };
    let mut supplies = state.token_supplies.copy();
    let ghost transfer_view: Seq<EntryView> = Seq::empty();
    match &out_denom {
        Denom::Cw1155(addr, _) => {
            let transfer = match get_token_amounts_to_transfer(&mut supplies, token_bought, min_token) {
                Err(e) => return Err(e),
                Ok(t) => t,
            };
            proof {
                transfer_view = transfer@;
                lemma_ascending_unique(old(state).token_supplies@);
                lemma_ascending_unique(supplies@);
                assert forall|k: Seq<char>| #[trigger] amount_of(old(state).token_supplies@, k)
                    == amount_of(transfer@, k) + amount_of(supplies@, k) by {
                    assert(amount_of(transfer@, k) + amount_of(supplies@, k)
                        == amount_of(Seq::<EntryView>::empty(), k) + amount_of(old(state).token_supplies@, k));
                }
                lemma_total_pointwise(transfer@, supplies@, old(state).token_supplies@);
            }
            msgs.push(get_cw1155_transfer_msg(&env.contract_address, &recipient, addr, &transfer));
        },
        Denom::Cw20(addr) => msgs.push(get_cw20_transfer_to_msg(&recipient, addr, token_bought)),
        Denom::Native(denom) => msgs.push(get_bank_transfer_to_msg(&recipient, denom, token_bought)),
    }
    let added = input_amount_without_protocol_fee.get_total();
    let new_in_reserve = match in_reserve.checked_add(added) {
        None => return Err(ContractError::Std(StdError::Overflow {
            operation: OverflowOperation::Add,
            operand1: in_reserve,
            operand2: added,
        })),
        Some(x) => x,
    };
    if out_reserve < token_bought {
        return Err(ContractError::Std(StdError::Overflow {
            operation: OverflowOperation::Sub,
            operand1: out_reserve,
            operand2: token_bought,
        }));
    }
    let new_out_reserve = out_reserve - token_bought;
    let ghost taken = supplies@;
    if let TokenAmount::Multiple(ws) = &input_amount_without_protocol_fee {
        add_token_supplies(&mut supplies, ws);
    }
    if is1155 {
        state.token1155.reserve = new_in_reserve;
        state.token2.reserve = new_out_reserve;
    } else {
        state.token1155.reserve = new_out_reserve;
        state.token2.reserve = new_in_reserve;
    }
    state.token_supplies = supplies;
    proof {
        if old(state).wf() && old(state).supplies_match_reserve() {
            if is1155 {
                lemma_ascending_unique(taken);
                if let TokenAmount::Multiple(ws) = input_amount_without_protocol_fee {
                    lemma_supplies_added_total(state.token_supplies@, taken, ws@);
                }
            }
        }
        if old(state).wf() && old(state).fees.protocol_fee_percent.atomics == 0 {
            let f = spec_decimal_to_uint128(total_fee_percent)->Ok_0;
            assert(fee_view is None);
            assert(input_amount_without_protocol_fee@ == input_amount@);
            lemma_swap_product(in_reserve, out_reserve, input_amount_total, token_bought, f);
        }
    }
    let event = Event::Swap {
        sender: info.sender.clone(),
        recipient,
        input_token_enum,
        input_token_amount: input_amount_total,
        output_token_amount: token_bought,
        protocol_fee_amount: protocol_fee_amount_total,
        token1155_reserve: state.token1155.reserve,
        token2_reserve: state.token2.reserve,
    };
    Ok(Response { messages: msgs, submessage: None, event })
}

/// The first checks of a pass-through swap and its price: the expiration, the ids'
/// denomination for an 1155 input, the coins sent for a native input, at least two tokens
/// in where a protocol fee is taken, and the price. Done gives the input's total and what
/// it buys from this pool.
pub open spec fn spec_pass_through_price(
    state: State,
    funds: Seq<Coin>,
    block: BlockInfo,
    input: TokenSelect,
    input_amount: TokenAmount,
    expiration: Option<Expiration>,
    names: Seq<Result<String, StdError>>,
) -> Outcome<(u128, u128)> {
    let inp = input_token(state, input);
    let outp = output_token(state, input);
    if spec_check_expiration(expiration, block) is Err {
        Outcome::Fail(ContractError::MsgExpirationError {})
    } else if input == TokenSelect::Token1155 && input_amount@ is Single {
        Outcome::Fail(ContractError::InvalidTokenAmount { amount: input_amount@->Single_0 })
    } else if input == TokenSelect::Token1155 && input_amount is Multiple
        && spec_token1155_denom(inp.denom, input_amount->Multiple_0.entries@, names) is Err {
        Outcome::Fail(spec_token1155_denom(inp.denom, input_amount->Multiple_0.entries@, names)->Err_0)
    } else if !input_amount_checkable(funds, input_amount@, inp.denom) {
        Outcome::Panic
    } else if spec_validate_input_amount(funds, input_amount@, inp.denom) is Err {
        Outcome::Fail(spec_validate_input_amount(funds, input_amount@, inp.denom)->Err_0)
    } else if !total_defined(input_amount@) {
        Outcome::Panic
    } else if state.fees.protocol_fee_percent.atomics > 0 && amount_total(input_amount@) == 1 {
        Outcome::Fail(ContractError::MinInputTokenAmountError { input_token_amount: 1, min_allowed: 2 })
    } else if state.fees.lp_fee_percent.atomics + state.fees.protocol_fee_percent.atomics > u128::MAX
        || !fee_fits(inp.reserve, outp.reserve, total_fee(state)) {
        Outcome::Panic
    } else {
        let t = amount_total(input_amount@) as u128;
        match spec_input_price(t, inp.reserve, outp.reserve, total_fee(state)) {
            None => Outcome::NoLiquidity,
            Some(Err(e)) => Outcome::Fail(ContractError::Std(e)),
            Some(Ok(a)) => Outcome::Done((t, a)),
        }
    }
}

/// The values of a pass-through swap that is done.
pub struct PassValues {
    /// The input's total.
    pub input_total: u128,
    /// What the input buys from this pool, passed on to the second pool.
    pub amount: u128,
    /// The protocol's fee, where one is taken.
    pub fee: Option<AmountView>,
    /// The input less the protocol's fee: what reaches the input reserve.
    pub without_fee: AmountView,
    /// The token of the second pool that the amount passed on is.
    pub selected: TokenSelect,
    /// The messages, in order.
    pub messages: Seq<MessageView>,
}

/// The token of the second pool that a denomination is, if either.
pub open spec fn select_in_pool(denom: Denom, pool: InfoResponse) -> Option<TokenSelect> {
    if denom_eq(denom, pool.token1155_denom) {
        Some(TokenSelect::Token1155)
    } else if denom_eq(denom, pool.token2_denom) {
        Some(TokenSelect::Token2)
    } else {
        None
    }
}

/// What a pass-through swap comes to once its price is known: the protocol's fee and the
/// input less the fee, the input and fee transfers, the second pool's validated address,
/// an allowance for a cw20 token passed on (until the next block), the second pool's
/// tokens as queried, the `SwapAndSendTo` message to it, and the reserves' changes.
pub open spec fn spec_pass_through_rest(
    state: State,
    sender: Seq<char>,
    contract: Seq<char>,
    block: BlockInfo,
    input: TokenSelect,
    input_amount: AmountView,
    output_min_token: AmountView,
    expiration: Option<Expiration>,
    output_amm: AddrCheck,
    pool: Result<InfoResponse, StdError>,
    t: u128,
    a: u128,
) -> Outcome<PassValues> {
    let inp = input_token(state, input);
    let outp = output_token(state, input);
    match spec_get_percent(input_amount, state.fees.protocol_fee_percent) {
        Err(e) => Outcome::Fail(e),
        Ok(fee) => if !fee_within(input_amount, fee) {
            Outcome::Panic
        } else {
            match spec_amount_without_fee(input_amount, fee) {
                Err(e) => Outcome::Fail(e),
                Ok(w) => if inp.denom is Cw20 && w is Multiple && !total_defined(w) {
                    Outcome::Panic
                } else {
                    match input_transfer(inp.denom, w, sender, contract) {
                        Err(e) => Outcome::Fail(e),
                        Ok(in_msgs) => if fee matches Some(f) && !total_defined(f) {
                            Outcome::Panic
                        } else {
                            match fee_transfer(inp.denom, fee, sender, state.fees.protocol_fee_recipient@) {
                                Err(e) => Outcome::Fail(e),
                                Ok(fee_msgs) => match output_amm {
                                    Err(e) => Outcome::Fail(ContractError::Std(e)),
                                    Ok(amm) => if outp.denom is Cw20 && block.height == u64::MAX {
                                        Outcome::Panic
                                    } else {
                                        let allowance = match outp.denom {
                                            Denom::Cw20(taddr) => seq![MessageView::Cw20IncreaseAllowance {
                                                contract: taddr@,
                                                spender: amm@,
                                                amount: a,
                                                expires: Some(Expiration::AtHeight((block.height + 1) as u64)),
                                            }],
                                            _ => Seq::empty(),
                                        };
                                        match pool {
                                            Err(e) => Outcome::Fail(ContractError::Std(e)),
                                            Ok(info) => match select_in_pool(outp.denom, info) {
                                                None => Outcome::Fail(ContractError::InvalidOutputPool {}),
                                                Some(sel) => if !total_defined(w) {
                                                    Outcome::Panic
                                                } else if inp.reserve + amount_total(w) > u128::MAX {
                                                    Outcome::Fail(ContractError::Std(StdError::Overflow {
                                                        operation: OverflowOperation::Add,
                                                        operand1: inp.reserve,
                                                        operand2: amount_total(w) as u128,
                                                    }))
                                                } else if outp.reserve < a {
                                                    Outcome::Fail(ContractError::Std(StdError::Overflow {
                                                        operation: OverflowOperation::Sub,
                                                        operand1: outp.reserve,
                                                        operand2: a,
                                                    }))
                                                } else if w matches AmountView::Multiple(ws) && !supplies_addable(state.token_supplies@, ws) {
                                                    Outcome::Panic
                                                } else {
                                                    let swap_msg = MessageView::SwapAndSendTo {
                                                        contract: amm@,
                                                        input_token: sel,
                                                        input_amount: AmountView::Single(a),
                                                        recipient: sender,
                                                        min_token: output_min_token,
                                                        expiration,
                                                        funds: match outp.denom {
                                                            Denom::Native(d) => seq![(d@, a)],
                                                            _ => Seq::empty(),
                                                        },
                                                    };
                                                    Outcome::Done(PassValues {
                                                        input_total: t,
                                                        amount: a,
                                                        fee,
                                                        without_fee: w,
                                                        selected: sel,
                                                        messages: in_msgs + fee_msgs + allowance + seq![swap_msg],
                                                    })
                                                },
                                            },
                                        }
                                    },
                                },
                            }
                        },
                    }
                },
            }
        },
    }
}

/// What `PassThroughSwap` comes to: the checks and price of `spec_pass_through_price`,
/// then `spec_pass_through_rest`.
pub open spec fn spec_pass_through_swap(
    state: State,
    info: MessageInfo,
    contract: Seq<char>,
    block: BlockInfo,
    input: TokenSelect,
    input_amount: TokenAmount,
    output_min_token: AmountView,
    expiration: Option<Expiration>,
    names: Seq<Result<String, StdError>>,
    output_amm: AddrCheck,
    pool: Result<InfoResponse, StdError>,
) -> Outcome<PassValues> {
    match spec_pass_through_price(state, info.funds@, block, input, input_amount, expiration, names) {
        Outcome::Done((t, a)) => spec_pass_through_rest(state, info.sender@, contract, block, input, input_amount@,
            output_min_token, expiration, output_amm, pool, t, a),
        Outcome::Fail(e) => Outcome::Fail(e),
        Outcome::LpTokenMissing => Outcome::LpTokenMissing,
        Outcome::NoLiquidity => Outcome::NoLiquidity,
        Outcome::Panic => Outcome::Panic,
    }
}

/// The result of `PassThroughSwap` on a pool in state `old`, leaving it in state `new`, as
/// `spec_pass_through_swap` decides.
pub open spec fn pass_through_swap_result(
    old: State,
    new: State,
    r: Result<Response, ContractError>,
    info: MessageInfo,
    env: Env,
    output_amm_address: AddrCheck,
    input_token_enum: TokenSelect,
    input_token_amount: TokenAmount,
    output_min_token: TokenAmount,
    expiration: Option<Expiration>,
    token_names: Seq<Result<String, StdError>>,
    output_pool: Result<InfoResponse, StdError>,
) -> bool {
    match spec_pass_through_swap(old, info, env.contract_address@, env.block, input_token_enum, input_token_amount,
        output_min_token@, expiration, token_names, output_amm_address, output_pool) {
        Outcome::Fail(e) => r == Err::<Response, ContractError>(e) && new == old,
        Outcome::NoLiquidity => is_no_liquidity(r) && new == old,
        Outcome::Done(v) => r matches Ok(resp)
            && messages_match(resp.messages@, v.messages)
            && resp.submessage is None
            && resp.event == (Event::CrossContractSwap {
                input_token_enum,
                input_token_amount: v.input_total,
                output_token_amount: v.amount,
                output_amm_address: output_amm_address->Ok_0,
                recipient: info.sender,
                protocol_fee_amount: fee_total(v.fee),
                token1155_reserve: reserves_after(old, input_token_enum, amount_total(v.without_fee) as u128, v.amount).0,
                token2_reserve: reserves_after(old, input_token_enum, amount_total(v.without_fee) as u128, v.amount).1,
            })
            && new == (State {
                token1155: Token {
                    reserve: reserves_after(old, input_token_enum, amount_total(v.without_fee) as u128, v.amount).0,
                    ..old.token1155
                },
                token2: Token {
                    reserve: reserves_after(old, input_token_enum, amount_total(v.without_fee) as u128, v.amount).1,
                    ..old.token2
                },
                token_supplies: new.token_supplies,
                ..old
            })
            && new.token_supplies.wf()
            && match v.without_fee {
                AmountView::Multiple(ws) => supplies_added(new.token_supplies@, old.token_supplies@, ws),
                AmountView::Single(_) => new.token_supplies@ == old.token_supplies@,
            },
        _ => false,
    }
}

/// A pass-through swap that succeeds buys the price of the input's total and passes it on,
/// last, in a `SwapAndSendTo` for the sender to the second pool, naming the second pool's
/// token that matches this pool's other token; it moves the reserves by exactly its values:
/// the input reserve gains the input less the protocol's fee, and the other reserve loses
/// the amount passed on.
pub proof fn lemma_pass_through_moves_reserves(
    old: State,
    new: State,
    r: Result<Response, ContractError>,
    info: MessageInfo,
    env: Env,
    output_amm_address: AddrCheck,
    input_token_enum: TokenSelect,
    input_token_amount: TokenAmount,
    output_min_token: TokenAmount,
    expiration: Option<Expiration>,
    token_names: Seq<Result<String, StdError>>,
    output_pool: Result<InfoResponse, StdError>,
)
    requires
        input_token_amount.wf(),
        pass_through_swap_result(old, new, r, info, env, output_amm_address, input_token_enum, input_token_amount,
            output_min_token, expiration, token_names, output_pool),
        r is Ok,
    ensures
        spec_pass_through_swap(old, info, env.contract_address@, env.block, input_token_enum, input_token_amount,
            output_min_token@, expiration, token_names, output_amm_address, output_pool) matches Outcome::Done(v)
            && v.input_total == amount_total(input_token_amount@)
            && spec_input_price(v.input_total, input_token(old, input_token_enum).reserve,
                output_token(old, input_token_enum).reserve, total_fee(old)) == Some(Ok::<u128, StdError>(v.amount))
            && output_pool is Ok
            && select_in_pool(output_token(old, input_token_enum).denom, output_pool->Ok_0) == Some(v.selected)
            && v.messages.last() == (MessageView::SwapAndSendTo {
                contract: output_amm_address->Ok_0@,
                input_token: v.selected,
                input_amount: AmountView::Single(v.amount),
                recipient: info.sender@,
                min_token: output_min_token@,
                expiration,
                funds: match output_token(old, input_token_enum).denom {
                    Denom::Native(d) => seq![(d@, v.amount)],
                    _ => Seq::empty(),
                },
            })
            && input_token(new, input_token_enum).reserve + fee_total(v.fee)
                == input_token(old, input_token_enum).reserve + v.input_total
            && output_token(new, input_token_enum).reserve + v.amount == output_token(old, input_token_enum).reserve,
{
    let o = spec_pass_through_swap(old, info, env.contract_address@, env.block, input_token_enum, input_token_amount,
        output_min_token@, expiration, token_names, output_amm_address, output_pool);
    let p = spec_pass_through_price(old, info.funds@, env.block, input_token_enum, input_token_amount, expiration,
        token_names);
    if let Outcome::Done(v) = o {
        if let Outcome::Done((t, a)) = p {
            let fee = spec_get_percent(input_token_amount@, old.fees.protocol_fee_percent)->Ok_0;
            lemma_input_split(input_token_amount@, fee, old.fees.protocol_fee_percent);
        }
    }
}

/// Executes `PassThroughSwap`: converts the input into this pool's other token and passes
/// it on to a second pool in a `SwapAndSendTo` for the sender, as
/// `spec_pass_through_swap` says. `output_amm_address` is the chain's validation of the
/// second pool's address and `output_pool` its tokens as queried; `token_names` are the
/// chain's metadata names of an 1155 input's ids, in order.
#[verifier::spinoff_prover]
#[verifier::rlimit(60)]
pub fn execute_pass_through_swap(
    state: &mut State,
    info: &MessageInfo,
    env: &Env,
    output_amm_address: AddrCheck,
    input_token_enum: TokenSelect,
    input_token_amount: TokenAmount,
    output_min_token: TokenAmount,
    expiration: Option<Expiration>,
    token_names: &Vec<Result<String, StdError>>,
    output_pool: Result<InfoResponse, StdError>,
) -> (r: Result<Response, ContractError>)
    requires
        old(state).token_supplies.wf(),
        input_token_amount.wf(),
        input_token_enum == TokenSelect::Token1155 && input_token_amount is Multiple ==>
            token_names@.len() == input_token_amount@->Multiple_0.len(),
        !(spec_pass_through_swap(*old(state), *info, env.contract_address@, env.block, input_token_enum, input_token_amount,
            output_min_token@, expiration, token_names@, output_amm_address, output_pool) is Panic),
    ensures
        pass_through_swap_result(*old(state), *final(state), r, *info, *env, output_amm_address, input_token_enum,
            input_token_amount, output_min_token, expiration, token_names@, output_pool),
        spec_pass_through_swap(*old(state), *info, env.contract_address@, env.block, input_token_enum, input_token_amount,
            output_min_token@, expiration, token_names@, output_amm_address, output_pool) matches Outcome::Done(v) ==>
            amount_total(v.without_fee) + fee_total(v.fee) == v.input_total,
        r is Ok && old(state).wf() && old(state).supplies_match_reserve() && input_token_enum == TokenSelect::Token1155
            ==> final(state).supplies_match_reserve(),
        r is Ok && old(state).wf() && old(state).fees.protocol_fee_percent.atomics == 0 ==>
            reserve_product(*final(state)) >= reserve_product(*old(state)),
        old(state).wf() ==> final(state).wf(),
{
    match check_expiration(&expiration, &env.block) {
        Err(e) => return Err(e),
        Ok(_) => {},
    }
    let is1155 = match input_token_enum {
        TokenSelect::Token1155 => true,
        TokenSelect::Token2 => false,
    };
    let (in_reserve, out_reserve) = if is1155 {
        (state.token1155.reserve, state.token2.reserve)
    } else {
        (state.token2.reserve, state.token1155.reserve)
    };
    let in_denom = if is1155 { state.token1155.denom.copy() } else { state.token2.denom.copy() };
    let transfer_denom = if is1155 { state.token2.denom.copy() } else { state.token1155.denom.copy() };
    if is1155 {
        match &input_token_amount {
            TokenAmount::Single(a) => return Err(ContractError::InvalidTokenAmount { amount: *a }),
            TokenAmount::Multiple(input_ids) => match validate_token1155_denom(&in_denom, input_ids, token_names) {
                Err(e) => return Err(e),
                Ok(_) => {},
            },
        }
    }
    match validate_input_amount(&info.funds, &input_token_amount, &in_denom) {
        Err(e) => return Err(e),
        Ok(_) => {},
    }
    let input_amount_total = input_token_amount.get_total();
    if !state.fees.protocol_fee_percent.is_zero() && input_amount_total == 1 {
        return Err(ContractError::MinInputTokenAmountError { input_token_amount: input_amount_total, min_allowed: 2 });
    }
    let total_fee_percent = state.fees.lp_fee_percent.add(&state.fees.protocol_fee_percent);
    let amount_to_transfer = match get_input_price(input_amount_total, in_reserve, out_reserve, total_fee_percent) {
        Err(e) => return Err(ContractError::Std(e)),
        Ok(b) => b,
    };
    let protocol_fee_amount = match input_token_amount.get_percent(state.fees.protocol_fee_percent) {
        Err(e) => return Err(e),
        Ok(f) => f,
    };
    let ghost fee_view = opt_amount_view(protocol_fee_amount);
    let fee_copy = match &protocol_fee_amount {
        Some(f) => Some(f.copy()),
        None => None,
    };
    let input_amount_without_protocol_fee = match get_amount_without_fee(&input_token_amount, fee_copy) {
        Err(e) => return Err(e),
        Ok(w) => w,
    };
    proof {
        lemma_input_split(input_token_amount@, fee_view, state.fees.protocol_fee_percent);
    }
    let mut msgs: Vec<Message> = Vec::new();
    match &in_denom {
        Denom::Cw1155(addr, _) => match input_amount_without_protocol_fee.get_multiple() {
            Err(e) => return Err(e),
            Ok(m) => msgs.push(get_cw1155_transfer_msg(&info.sender, &env.contract_address, addr, &m)),
        },
        Denom::Cw20(addr) => match input_amount_without_protocol_fee.get_single() {
            Err(e) => return Err(e),
            Ok(x) => msgs.push(get_cw20_transfer_from_msg(&info.sender, &env.contract_address, addr, x)),
        },
        Denom::Native(_) => {},
    }
    let mut protocol_fee_amount_total: u128 = 0;
    if let Some(fee) = protocol_fee_amount {
        protocol_fee_amount_total = fee.get_total();
        match get_fee_transfer_msg(&info.sender, &state.fees.protocol_fee_recipient, &in_denom, fee) {
            Err(e) => return Err(e),
            Ok(m) => msgs.push(m),
        }
    }
    let output_amm_address = match output_amm_address {
        Err(e) => return Err(ContractError::Std(e)),
        Ok(a) => a,
    };
    if let Denom::Cw20(addr) = &transfer_denom {
        msgs.push(get_cw20_increase_allowance_msg(addr, &output_amm_address, amount_to_transfer,
            Some(Expiration::AtHeight(env.block.height + 1))));
    }
    let pool = match output_pool {
        Err(e) => return Err(ContractError::Std(e)),
        Ok(p) => p,
    };
    let transfer_input_token_enum = if transfer_denom.same_as(&pool.token1155_denom) {
        TokenSelect::Token1155
    } else if transfer_denom.same_as(&pool.token2_denom) {
        TokenSelect::Token2
    } else {
        return Err(ContractError::InvalidOutputPool {});
    };
    let added = input_amount_without_protocol_fee.get_total();
    let new_in_reserve = match in_reserve.checked_add(added) {
        None => return Err(ContractError::Std(StdError::Overflow {
            operation: OverflowOperation::Add,
            operand1: in_reserve,
            operand2: added,
        })),
        Some(x) => x,
    };
    if out_reserve < amount_to_transfer {
        return Err(ContractError::Std(StdError::Overflow {
            operation: OverflowOperation::Sub,
            operand1: out_reserve,
            operand2: amount_to_transfer,
        }));
    }
    let new_out_reserve = out_reserve - amount_to_transfer;
    let mut funds: Vec<Coin> = Vec::new();
    if let Denom::Native(denom) = &transfer_denom {
        funds.push(Coin { denom: denom.clone(), amount: amount_to_transfer });
    }
    proof {
        let expected = match transfer_denom {
            Denom::Native(d) => seq![(d@, amount_to_transfer)],
            _ => Seq::<(Seq<char>, u128)>::empty(),
        };
        assert(funds@.map_values(|c: Coin| (c.denom@, c.amount)) =~= expected);
    }
    msgs.push(Message::SwapAndSendTo {
        contract: output_amm_address.clone(),
        input_token: transfer_input_token_enum,
        input_amount: TokenAmount::Single(amount_to_transfer),
        recipient: info.sender.clone(),
        min_token: output_min_token,
        expiration,
        funds,
    });
    if let TokenAmount::Multiple(ws) = &input_amount_without_protocol_fee {
        add_token_supplies(&mut state.token_supplies, ws);
    }
    if is1155 {
        state.token1155.reserve = new_in_reserve;
        state.token2.reserve = new_out_reserve;
    } else {
        state.token1155.reserve = new_out_reserve;
        state.token2.reserve = new_in_reserve;
    }
    proof {
        if old(state).wf() && old(state).supplies_match_reserve() && is1155 {
            lemma_ascending_unique(old(state).token_supplies@);
            if let TokenAmount::Multiple(ws) = input_amount_without_protocol_fee {
                lemma_supplies_added_total(state.token_supplies@, old(state).token_supplies@, ws@);
            }
        }
        if old(state).wf() && old(state).fees.protocol_fee_percent.atomics == 0 {
            let f = spec_decimal_to_uint128(total_fee_percent)->Ok_0;
            assert(fee_view is None);
            assert(input_amount_without_protocol_fee@ == input_token_amount@);
            lemma_swap_product(in_reserve, out_reserve, input_amount_total, amount_to_transfer, f);
        }
    }
    let event = Event::CrossContractSwap {
        input_token_enum,
        input_token_amount: input_amount_total,
        output_token_amount: amount_to_transfer,
        output_amm_address,
        recipient: info.sender.clone(),
        protocol_fee_amount: protocol_fee_amount_total,
        token1155_reserve: state.token1155.reserve,
        token2_reserve: state.token2.reserve,
    };
    Ok(Response { messages: msgs, submessage: None, event })
}

/// The transfers of a swap's input and of its fee name each id once.
proof fn lemma_input_batches_unique(input_amount: TokenAmount, percent: Decimal)
    requires
        input_amount.wf(),
        spec_get_percent(input_amount@, percent) is Ok,
    ensures
        ({
            let fee = spec_get_percent(input_amount@, percent)->Ok_0;
            &&& fee matches Some(AmountView::Multiple(fs)) ==> crate::ids::ids_unique(fs)
            &&& spec_amount_without_fee(input_amount@, fee) matches Ok(AmountView::Multiple(ws))
                ==> crate::ids::ids_unique(ws)
        }),
{
    let fee = spec_get_percent(input_amount@, percent)->Ok_0;
    if let AmountView::Multiple(s) = input_amount@ {
        crate::token_amount::lemma_sorted_ids_unique(s);
        let q = crate::ids::sort_entries(s);
        if let Some(AmountView::Multiple(fs)) = fee {
            let left = crate::utils::spec_amount_with_percent(total(s) as u128,
                spec_decimal_to_uint128(percent)->Ok_0)->Ok_0;
            crate::token_amount::lemma_take_greedy(q, left as nat);
            assert(fs == crate::token_amount::take_greedy(q, left as nat));
            assert forall|a: int, b: int| 0 <= a < b < fs.len() implies (#[trigger] fs[a]).0 != (#[trigger] fs[b]).0 by {
                assert(fs[a].0 == q[a].0);
                assert(fs[b].0 == q[b].0);
            }
            let ws = crate::pricing::subtract_fees(s, fs);
            assert forall|a: int, b: int| 0 <= a < b < ws.len() implies (#[trigger] ws[a]).0 != (#[trigger] ws[b]).0 by {
                assert(ws[a].0 == s[a].0);
                assert(ws[b].0 == s[b].0);
            }
        }
    }
}

/// A swap that succeeds takes from the sender exactly the input: the input less the
/// protocol's fee reaches the input reserve and the fee reaches its recipient (taken from
/// the sender for an 1155 or cw20 input, where the recipient is not the pool itself; for a
/// native input, the one coin sent, of which the pool sends the fee on); it pays the
/// validated recipient named in its event, in its last message, exactly what leaves the
/// output reserve, whatever the output token; and its event reports the reserves left.
pub proof fn lemma_swap_moves_tokens(
    old: State,
    new: State,
    r: Result<Response, ContractError>,
    info: MessageInfo,
    input_amount: TokenAmount,
    env: Env,
    input_token_enum: TokenSelect,
    recipient: AddrCheck,
    min_token: TokenAmount,
    expiration: Option<Expiration>,
    token_names: Seq<Result<String, StdError>>,
)
    requires
        old.wf(),
        input_amount.wf(),
        swap_result(old, new, r, info, input_amount, env, input_token_enum, recipient, min_token, expiration, token_names),
        r is Ok,
    ensures
        recipient is Ok,
        spec_swap(old, info, env.contract_address@, env.block, input_token_enum, input_amount, min_token@,
            expiration, token_names, recipient) is Done,
        ({
            let v = spec_swap(old, info, env.contract_address@, env.block, input_token_enum, input_amount, min_token@,
                expiration, token_names, recipient)->Done_0;
            let msgs = message_views(r->Ok_0.messages@);
            let pool = env.contract_address@;
            let sender = info.sender@;
            let rcpt = recipient->Ok_0@;
            let fr = old.fees.protocol_fee_recipient@;
            let ind = input_token(old, input_token_enum).denom;
            let outd = output_token(old, input_token_enum).denom;
            let gained = input_token(new, input_token_enum).reserve - input_token(old, input_token_enum).reserve;
            let lost = output_token(old, input_token_enum).reserve - output_token(new, input_token_enum).reserve;
            &&& gained + fee_total(v.fee) == amount_total(input_amount@)
            &&& !(ind is Native) && fr != pool ==> pulled(msgs, ind, sender, pool) == gained
                && pulled(msgs, ind, sender, fr) == fee_total(v.fee)
            &&& ind is Native ==> info.funds@.len() == 1 && info.funds@[0].denom@ == ind->Native_0@
                && info.funds@[0].amount == amount_total(input_amount@)
                && paid(msgs, ind, pool, fr) == fee_total(v.fee)
            &&& paid(msgs, outd, pool, rcpt) == lost
            &&& msgs.len() > 0 && paid(seq![msgs.last()], outd, pool, rcpt) == lost
            &&& r->Ok_0.event == (Event::Swap {
                    sender: info.sender,
                    recipient: recipient->Ok_0,
                    input_token_enum,
                    input_token_amount: amount_total(input_amount@) as u128,
                    output_token_amount: lost as u128,
                    protocol_fee_amount: fee_total(v.fee),
                    token1155_reserve: new.token1155.reserve,
                    token2_reserve: new.token2.reserve,
                })
        }),
{
    lemma_swap_moves_reserves(old, new, r, info, input_amount, env, input_token_enum, recipient, min_token,
        expiration, token_names);
    let o = spec_swap(old, info, env.contract_address@, env.block, input_token_enum, input_amount, min_token@,
        expiration, token_names, recipient);
    if let Outcome::Done(v) = o {
        let resp = r->Ok_0;
        let sender = info.sender@;
        let pool = env.contract_address@;
        let inp = input_token(old, input_token_enum);
        let outp = output_token(old, input_token_enum);
        let fr = old.fees.protocol_fee_recipient@;
        let fee = spec_get_percent(input_amount@, old.fees.protocol_fee_percent)->Ok_0;
        let w = spec_amount_without_fee(input_amount@, fee)->Ok_0;
        let in_msgs = input_transfer(inp.denom, w, sender, pool)->Ok_0;
        let fee_msgs = fee_transfer(inp.denom, fee, sender, fr)->Ok_0;
        let rcpt = recipient->Ok_0@;
        let out = output_transfer(outp.denom, v.bought, v.transfer, pool, rcpt);
        assert(v.messages == in_msgs + fee_msgs + out);
        lemma_input_batches_unique(input_amount, old.fees.protocol_fee_percent);
        lemma_input_split(input_amount@, fee, old.fees.protocol_fee_percent);
        assert(batches_unique(v.messages)) by {
            assert forall|i: int| 0 <= i < v.messages.len() implies ((#[trigger] v.messages[i])
                matches MessageView::Cw1155BatchSendFrom { batch, .. } ==> crate::ids::ids_unique(batch)) by {
                if i < in_msgs.len() {
                    assert(v.messages[i] == in_msgs[i]);
                } else if i < in_msgs.len() + fee_msgs.len() {
                    assert(v.messages[i] == fee_msgs[i - in_msgs.len()]);
                } else {
                    assert(v.messages[i] == out[i - in_msgs.len() - fee_msgs.len()]);
                }
            }
        }
        let f1 = Flow::Pulled { denom: inp.denom, from: sender, to: pool };
        let f2 = Flow::Pulled { denom: inp.denom, from: sender, to: fr };
        let f3 = Flow::Paid { denom: inp.denom, pool, to: fr };
        let f4 = Flow::Paid { denom: outp.denom, pool, to: rcpt };
        lemma_flow_matches(resp.messages@, v.messages, f1);
        lemma_flow_matches(resp.messages@, v.messages, f2);
        lemma_flow_matches(resp.messages@, v.messages, f3);
        lemma_flow_matches(resp.messages@, v.messages, f4);
        lemma_flow_parts(in_msgs, fee_msgs, out, f1);
        lemma_flow_parts(in_msgs, fee_msgs, out, f2);
        lemma_flow_parts(in_msgs, fee_msgs, out, f3);
        lemma_flow_parts(in_msgs, fee_msgs, out, f4);
        let n = resp.messages@.len() - 1;
        lemma_flow_at(resp.messages@, v.messages, n, f4);
        assert(v.messages[n] == out[0]);
        if let AmountView::Multiple(ws) = w {
            assert(total(ws) == amount_total(w));
        }
    }
}

/// A pass-through swap that succeeds takes from the sender exactly the input, as a swap
/// does (the input less the fee to the input reserve, the fee to its recipient); with a
/// cw20 token passed on it allows the second pool to take exactly what leaves this pool's
/// other reserve, until the next block; it passes that same amount on to the second pool in
/// its last message, a `SwapAndSendTo` for the sender; and its event reports the reserves
/// left.
pub proof fn lemma_pass_through_moves_tokens(
    old: State,
    new: State,
    r: Result<Response, ContractError>,
    info: MessageInfo,
    env: Env,
    output_amm_address: AddrCheck,
    input_token_enum: TokenSelect,
    input_token_amount: TokenAmount,
    output_min_token: TokenAmount,
    expiration: Option<Expiration>,
    token_names: Seq<Result<String, StdError>>,
    output_pool: Result<InfoResponse, StdError>,
)
    requires
        old.wf(),
        input_token_amount.wf(),
        pass_through_swap_result(old, new, r, info, env, output_amm_address, input_token_enum, input_token_amount,
            output_min_token, expiration, token_names, output_pool),
        r is Ok,
    ensures
        output_amm_address is Ok,
        spec_pass_through_swap(old, info, env.contract_address@, env.block, input_token_enum, input_token_amount,
            output_min_token@, expiration, token_names, output_amm_address, output_pool) is Done,
        ({
            let v = spec_pass_through_swap(old, info, env.contract_address@, env.block, input_token_enum,
                input_token_amount, output_min_token@, expiration, token_names, output_amm_address, output_pool)->Done_0;
            let msgs = message_views(r->Ok_0.messages@);
            let pool = env.contract_address@;
            let sender = info.sender@;
            let amm = output_amm_address->Ok_0@;
            let fr = old.fees.protocol_fee_recipient@;
            let ind = input_token(old, input_token_enum).denom;
            let outd = output_token(old, input_token_enum).denom;
            let gained = input_token(new, input_token_enum).reserve - input_token(old, input_token_enum).reserve;
            let passed = output_token(old, input_token_enum).reserve - output_token(new, input_token_enum).reserve;
            &&& gained + fee_total(v.fee) == amount_total(input_token_amount@)
            &&& !(ind is Native) && fr != pool ==> pulled(msgs, ind, sender, pool) == gained
                && pulled(msgs, ind, sender, fr) == fee_total(v.fee)
            &&& ind is Native ==> info.funds@.len() == 1 && info.funds@[0].denom@ == ind->Native_0@
                && info.funds@[0].amount == amount_total(input_token_amount@)
                && paid(msgs, ind, pool, fr) == fee_total(v.fee)
            &&& outd is Cw20 ==> allowed(msgs, outd->Cw20_0@, amm) == passed
                && exists|i: int| 0 <= i < msgs.len() && #[trigger] msgs[i] == (MessageView::Cw20IncreaseAllowance {
                    contract: outd->Cw20_0@, spender: amm, amount: passed as u128,
                    expires: Some(Expiration::AtHeight((env.block.height + 1) as u64)) })
            &&& msgs.len() > 0
            &&& output_pool is Ok
            &&& msgs.last() matches MessageView::SwapAndSendTo { input_token, .. } && denom_eq(outd,
                    if input_token == TokenSelect::Token1155 { output_pool->Ok_0.token1155_denom }
                    else { output_pool->Ok_0.token2_denom })
            &&& msgs.last() == (MessageView::SwapAndSendTo {
                    contract: amm,
                    input_token: msgs.last()->SwapAndSendTo_input_token,
                    input_amount: AmountView::Single(passed as u128),
                    recipient: sender,
                    min_token: output_min_token@,
                    expiration,
                    funds: match outd {
                        Denom::Native(d) => seq![(d@, passed as u128)],
                        _ => Seq::empty(),
                    },
                })
            &&& r->Ok_0.event == (Event::CrossContractSwap {
                    input_token_enum,
                    input_token_amount: amount_total(input_token_amount@) as u128,
                    output_token_amount: passed as u128,
                    output_amm_address: output_amm_address->Ok_0,
                    recipient: info.sender,
                    protocol_fee_amount: fee_total(v.fee),
                    token1155_reserve: new.token1155.reserve,
                    token2_reserve: new.token2.reserve,
                })
        }),
{
    lemma_pass_through_moves_reserves(old, new, r, info, env, output_amm_address, input_token_enum,
        input_token_amount, output_min_token, expiration, token_names, output_pool);
    let o = spec_pass_through_swap(old, info, env.contract_address@, env.block, input_token_enum, input_token_amount,
        output_min_token@, expiration, token_names, output_amm_address, output_pool);
    if let Outcome::Done(v) = o {
        let resp = r->Ok_0;
        let sender = info.sender@;
        let pool = env.contract_address@;
        let inp = input_token(old, input_token_enum);
        let outp = output_token(old, input_token_enum);
        let fr = old.fees.protocol_fee_recipient@;
        let fee = spec_get_percent(input_token_amount@, old.fees.protocol_fee_percent)->Ok_0;
        let w = spec_amount_without_fee(input_token_amount@, fee)->Ok_0;
        let in_msgs = input_transfer(inp.denom, w, sender, pool)->Ok_0;
        let fee_msgs = fee_transfer(inp.denom, fee, sender, fr)->Ok_0;
        let amm = output_amm_address->Ok_0@;
        let allowance = match outp.denom {
            Denom::Cw20(taddr) => seq![MessageView::Cw20IncreaseAllowance {
                contract: taddr@,
                spender: amm,
                amount: v.amount,
                expires: Some(Expiration::AtHeight((env.block.height + 1) as u64)),
            }],
            _ => Seq::<MessageView>::empty(),
        };
        let last = seq![v.messages.last()];
        assert(v.messages == in_msgs + fee_msgs + allowance + last);
        lemma_input_batches_unique(input_token_amount, old.fees.protocol_fee_percent);
        lemma_input_split(input_token_amount@, fee, old.fees.protocol_fee_percent);
        assert(batches_unique(v.messages)) by {
            assert forall|i: int| 0 <= i < v.messages.len() implies ((#[trigger] v.messages[i])
                matches MessageView::Cw1155BatchSendFrom { batch, .. } ==> crate::ids::ids_unique(batch)) by {
                if i < in_msgs.len() {
                    assert(v.messages[i] == in_msgs[i]);
                } else if i < in_msgs.len() + fee_msgs.len() {
                    assert(v.messages[i] == fee_msgs[i - in_msgs.len()]);
                } else if i < in_msgs.len() + fee_msgs.len() + allowance.len() {
                    assert(v.messages[i] == allowance[i - in_msgs.len() - fee_msgs.len()]);
                } else {
                    assert(v.messages[i] == last[0]);
                }
            }
        }
        let f1 = Flow::Pulled { denom: inp.denom, from: sender, to: pool };
        let f2 = Flow::Pulled { denom: inp.denom, from: sender, to: fr };
        let f3 = Flow::Paid { denom: inp.denom, pool, to: fr };
        let f4 = Flow::Allowed { token: outp.denom->Cw20_0@, spender: amm };
        lemma_flow_matches(resp.messages@, v.messages, f1);
        lemma_flow_matches(resp.messages@, v.messages, f2);
        lemma_flow_matches(resp.messages@, v.messages, f3);
        lemma_flow_matches(resp.messages@, v.messages, f4);
        lemma_flow_concat(in_msgs + fee_msgs + allowance, last, f1);
        lemma_flow_concat(in_msgs + fee_msgs + allowance, last, f2);
        lemma_flow_concat(in_msgs + fee_msgs + allowance, last, f3);
        lemma_flow_concat(in_msgs + fee_msgs + allowance, last, f4);
        lemma_flow_parts(in_msgs, fee_msgs, allowance, f1);
        lemma_flow_parts(in_msgs, fee_msgs, allowance, f2);
        lemma_flow_parts(in_msgs, fee_msgs, allowance, f3);
        lemma_flow_parts(in_msgs, fee_msgs, allowance, f4);
        lemma_flow_single(last[0], f1);
        lemma_flow_single(last[0], f2);
        lemma_flow_single(last[0], f3);
        lemma_flow_single(last[0], f4);
        let msgs = message_views(resp.messages@);
        let k = (in_msgs.len() + fee_msgs.len()) as int;
        if outp.denom is Cw20 {
            assert(message_matches(resp.messages@[k]@, v.messages[k]));
            assert(v.messages[k] == allowance[0]);
            assert(msgs[k] == resp.messages@[k]@);
        }
        let n = msgs.len() - 1;
        assert(message_matches(resp.messages@[n]@, v.messages[n]));
        assert(msgs[n] == resp.messages@[n]@);
        if let AmountView::Multiple(ws) = w {
            assert(total(ws) == amount_total(w));
        }
    }
}

} // verus!
