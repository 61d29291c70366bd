//! What the contract answers: the messages it sends and the event it reports.
use vstd::prelude::*;
use crate::decimal::Decimal;
use crate::msg::{Coin, Denom, Expiration, TokenSelect};
use crate::ids::{EntryView, ids_unique, view_entries};
use crate::supplies::{ids_ascending, lemma_ascending_unique};
use crate::token_amount::{AmountView, TokenAmount, amount_of, lookup, total, lemma_total_pointwise};

verus! {

/// A message the contract sends to another module or contract.
#[derive(Clone, Debug, PartialEq, Eq)]
pub enum Message {
    /// A batch transfer of 1155 tokens, in ascending order of id.
    Cw1155BatchSendFrom { contract: String, from: String, to: String, batch: Vec<(String, u128)> },
    /// A cw20 transfer from `owner`, under an allowance given to this contract.
    Cw20TransferFrom { contract: String, owner: String, recipient: String, amount: u128 },
    /// A cw20 transfer from this contract.
    Cw20Transfer { contract: String, recipient: String, amount: u128 },
    /// A raise of this contract's cw20 allowance to `spender`.
    Cw20IncreaseAllowance { contract: String, spender: String, amount: u128, expires: Option<Expiration> },
    /// A bank transfer of native coins from this contract.
    BankSend { to_address: String, denom: String, amount: u128 },
    /// Minting of liquidity tokens to `recipient`.
    LpMint { contract: String, recipient: String, amount: u128 },
    /// Burning of `owner`'s liquidity tokens, under an allowance given to this contract.
    LpBurnFrom { contract: String, owner: String, amount: u128 },
    /// A `SwapAndSendTo` message to another pool, with the funds sent along.
    SwapAndSendTo {
        contract: String,
        input_token: TokenSelect,
        input_amount: TokenAmount,
        recipient: String,
        min_token: TokenAmount,
        expiration: Option<Expiration>,
        funds: Vec<Coin>,
    },
}

/// The liquidity token that a new pool instantiates: a cw20 token of the given code, sent
/// no funds and given no admin, with no initial balances, no marketing and a minter without
/// a cap. The reply to it is awaited on success only.
#[derive(Clone, Debug, PartialEq, Eq)]
pub struct InstantiateLpToken {
    pub code_id: u64,
    /// The label of the new contract.
    pub label: String,
    /// The token's name, symbol and decimal places.
    pub name: String,
    pub symbol: String,
    pub decimals: u8,
    /// The contract allowed to mint: the pool itself.
    pub minter: String,
    /// The id by which the reply comes back.
    pub reply_id: u64,
}

/// What happened, with the values the contract reports.
#[derive(Clone, Debug, PartialEq, Eq)]
#[allow(inconsistent_fields)]
pub enum Event {
    InstantiateIxoSwap {
        owner: String,
        max_slippage_percent: Decimal,
        lp_fee_percent: Decimal,
        protocol_fee_percent: Decimal,
        protocol_fee_recipient: String,
        token1155_denom: Denom,
        token2_denom: Denom,
    },
    FreezeDeposits { frozen: bool },
    AddLiquidity {
        token1155_amount: u128,
        token2_amount: u128,
        liquidity_received: u128,
        liquidity_receiver: String,
        token1155_reserve: u128,
        token2_reserve: u128,
    },
    TransferOwnership { pending_owner: Option<String> },
    ClaimOwnership { owner: Option<String> },
    UpdateSlippage { max_slippage_percent: Decimal },
    UpdateFee { lp_fee_percent: Decimal, protocol_fee_percent: Decimal, protocol_fee_recipient: String },
    RemoveLiquidity {
        token1155_returned: u128,
        token2_returned: u128,
        liquidity_burned: u128,
        liquidity_provider: String,
        token1155_reserve: u128,
        token2_reserve: u128,
    },
    Swap {
        sender: String,
        recipient: String,
        input_token_enum: TokenSelect,
        input_token_amount: u128,
        output_token_amount: u128,
        protocol_fee_amount: u128,
        token1155_reserve: u128,
        token2_reserve: u128,
    },
    CrossContractSwap {
        input_token_enum: TokenSelect,
        input_token_amount: u128,
        output_token_amount: u128,
        output_amm_address: String,
        recipient: String,
        protocol_fee_amount: u128,
        token1155_reserve: u128,
        token2_reserve: u128,
    },
    InstantiateLpToken { liquidity_pool_token_address: String },
}

/// The answer to a message: the messages to send, in order, a submessage where one is
/// sent, and the event.
#[derive(Clone, Debug, PartialEq, Eq)]
pub struct Response {
    pub messages: Vec<Message>,
    pub submessage: Option<InstantiateLpToken>,
    pub event: Event,
}

/// What a message stands for: its addresses and denominations as text, its batch as
/// entries.
pub enum MessageView {
    Cw1155BatchSendFrom { contract: Seq<char>, from: Seq<char>, to: Seq<char>, batch: Seq<EntryView> },
    Cw20TransferFrom { contract: Seq<char>, owner: Seq<char>, recipient: Seq<char>, amount: u128 },
    Cw20Transfer { contract: Seq<char>, recipient: Seq<char>, amount: u128 },
    Cw20IncreaseAllowance { contract: Seq<char>, spender: Seq<char>, amount: u128, expires: Option<Expiration> },
    BankSend { to_address: Seq<char>, denom: Seq<char>, amount: u128 },
    LpMint { contract: Seq<char>, recipient: Seq<char>, amount: u128 },
    LpBurnFrom { contract: Seq<char>, owner: Seq<char>, amount: u128 },
    SwapAndSendTo {
        contract: Seq<char>,
        input_token: TokenSelect,
        input_amount: AmountView,
        recipient: Seq<char>,
        min_token: AmountView,
        expiration: Option<Expiration>,
        funds: Seq<(Seq<char>, u128)>,
    },
}

impl View for Message {
    type V = MessageView;

    open spec fn view(&self) -> MessageView {
        match self {
            Message::Cw1155BatchSendFrom { contract, from, to, batch } =>
                MessageView::Cw1155BatchSendFrom { contract: contract@, from: from@, to: to@, batch: view_entries(batch@) },
            Message::Cw20TransferFrom { contract, owner, recipient, amount } =>
                MessageView::Cw20TransferFrom { contract: contract@, owner: owner@, recipient: recipient@, amount: *amount },
            Message::Cw20Transfer { contract, recipient, amount } =>
                MessageView::Cw20Transfer { contract: contract@, recipient: recipient@, amount: *amount },
            Message::Cw20IncreaseAllowance { contract, spender, amount, expires } =>
                MessageView::Cw20IncreaseAllowance { contract: contract@, spender: spender@, amount: *amount, expires: *expires },
            Message::BankSend { to_address, denom, amount } =>
                MessageView::BankSend { to_address: to_address@, denom: denom@, amount: *amount },
            Message::LpMint { contract, recipient, amount } =>
                MessageView::LpMint { contract: contract@, recipient: recipient@, amount: *amount },
            Message::LpBurnFrom { contract, owner, amount } =>
                MessageView::LpBurnFrom { contract: contract@, owner: owner@, amount: *amount },
            Message::SwapAndSendTo { contract, input_token, input_amount, recipient, min_token, expiration, funds } =>
                MessageView::SwapAndSendTo {
                    contract: contract@,
                    input_token: *input_token,
                    input_amount: input_amount@,
                    recipient: recipient@,
                    min_token: min_token@,
                    expiration: *expiration,
                    funds: funds@.map_values(|c: Coin| (c.denom@, c.amount)),
                },
        }
    }
}

/// A message is the expected one: equal, except that a batch holds the expected amounts
/// in ascending order of id.
pub open spec fn message_matches(m: MessageView, e: MessageView) -> bool {
    match (m, e) {
        (MessageView::Cw1155BatchSendFrom { contract, from, to, batch },
         MessageView::Cw1155BatchSendFrom { contract: c, from: f, to: t, batch: b }) =>
            contract == c && from == f && to == t && ids_ascending(batch)
                && forall|k: Seq<char>| #[trigger] lookup(batch, k) == lookup(b, k),
        _ => m == e,
    }
}

/// The messages are the expected ones, in order.
pub open spec fn messages_match(m: Seq<Message>, e: Seq<MessageView>) -> bool {
    &&& m.len() == e.len()
    &&& forall|i: int| 0 <= i < m.len() ==> message_matches(#[trigger] m[i]@, e[i])
}

/// The views of messages, in order.
pub open spec fn message_views(m: Seq<Message>) -> Seq<MessageView> {
    m.map_values(|x: Message| x@)
}

/// A movement of tokens that messages make.
pub enum Flow {
    /// The token of `denom` sent by the pool (`pool`) to `to`: a bank send of a native coin,
    /// a cw20 transfer, or a batch of 1155 tokens sent from the pool.
    Paid { denom: Denom, pool: Seq<char>, to: Seq<char> },
    /// The token of `denom` taken from `from` to `to`: a cw20 transfer under an allowance,
    /// or a batch of 1155 tokens.
    Pulled { denom: Denom, from: Seq<char>, to: Seq<char> },
    /// An allowance on the cw20 token `token` to `spender`.
    Allowed { token: Seq<char>, spender: Seq<char> },
    /// Liquidity tokens of `lp` minted to `to`.
    Minted { lp: Seq<char>, to: Seq<char> },
    /// Liquidity tokens of `lp` burned from `owner`.
    Burned { lp: Seq<char>, owner: Seq<char> },
}

/// How much of a movement one message makes.
pub open spec fn flow_by(m: MessageView, f: Flow) -> nat {
    match (f, m) {
        (Flow::Paid { denom: Denom::Native(n), to, .. }, MessageView::BankSend { to_address, denom: d, amount }) =>
            if to_address == to && d == n@ { amount as nat } else { 0 },
        (Flow::Paid { denom: Denom::Cw20(a), to, .. }, MessageView::Cw20Transfer { contract, recipient, amount }) =>
            if contract == a@ && recipient == to { amount as nat } else { 0 },
        (Flow::Paid { denom: Denom::Cw1155(a, _), pool, to },
         MessageView::Cw1155BatchSendFrom { contract, from, to: t, batch }) =>
            if contract == a@ && from == pool && t == to { total(batch) } else { 0 },
        (Flow::Pulled { denom: Denom::Cw20(a), from, to },
         MessageView::Cw20TransferFrom { contract, owner, recipient, amount }) =>
            if contract == a@ && owner == from && recipient == to { amount as nat } else { 0 },
        (Flow::Pulled { denom: Denom::Cw1155(a, _), from, to },
         MessageView::Cw1155BatchSendFrom { contract, from: fr, to: t, batch }) =>
            if contract == a@ && fr == from && t == to { total(batch) } else { 0 },
        (Flow::Allowed { token, spender }, MessageView::Cw20IncreaseAllowance { contract, spender: sp, amount, .. }) =>
            if contract == token && sp == spender { amount as nat } else { 0 },
        (Flow::Minted { lp, to }, MessageView::LpMint { contract, recipient, amount }) =>
            if contract == lp && recipient == to { amount as nat } else { 0 },
        (Flow::Burned { lp, owner }, MessageView::LpBurnFrom { contract, owner: o, amount }) =>
            if contract == lp && o == owner { amount as nat } else { 0 },
        _ => 0,
    }
}

/// How much of a movement the messages make in all.
pub open spec fn flow(msgs: Seq<MessageView>, f: Flow) -> nat
    decreases msgs.len(),
{
    if msgs.len() == 0 {
        0
    } else {
        flow_by(msgs[0], f) + flow(msgs.drop_first(), f)
    }
}

/// What the messages pay in all of the token of `denom` from the pool to `to`.
pub open spec fn paid(msgs: Seq<MessageView>, denom: Denom, pool: Seq<char>, to: Seq<char>) -> nat {
    flow(msgs, Flow::Paid { denom, pool, to })
}

/// What the messages take in all of the token of `denom` from `from` to `to`.
pub open spec fn pulled(msgs: Seq<MessageView>, denom: Denom, from: Seq<char>, to: Seq<char>) -> nat {
    flow(msgs, Flow::Pulled { denom, from, to })
}

/// What the messages allow `spender` in all to take of the cw20 token `token`.
pub open spec fn allowed(msgs: Seq<MessageView>, token: Seq<char>, spender: Seq<char>) -> nat {
    flow(msgs, Flow::Allowed { token, spender })
}

/// The liquidity tokens of `lp` that the messages mint to `to`.
pub open spec fn minted(msgs: Seq<MessageView>, lp: Seq<char>, to: Seq<char>) -> nat {
    flow(msgs, Flow::Minted { lp, to })
}

/// The liquidity tokens of `lp` that the messages burn from `owner`.
pub open spec fn burned(msgs: Seq<MessageView>, lp: Seq<char>, owner: Seq<char>) -> nat {
    flow(msgs, Flow::Burned { lp, owner })
}

/// Movements add up over consecutive messages.
pub proof fn lemma_flow_concat(a: Seq<MessageView>, b: Seq<MessageView>, f: Flow)
    ensures
        flow(a + b, f) == flow(a, f) + flow(b, f),
    decreases a.len(),
{
    if a.len() == 0 {
        assert(a + b =~= b);
    } else {
        assert((a + b).drop_first() =~= a.drop_first() + b);
        lemma_flow_concat(a.drop_first(), b, f);
    }
}

/// A single message makes what it does itself.
pub proof fn lemma_flow_single(m: MessageView, f: Flow)
    ensures
        flow(seq![m], f) == flow_by(m, f),
{
    assert(seq![m].drop_first() =~= Seq::<MessageView>::empty());
    assert(flow(Seq::<MessageView>::empty(), f) == 0);
    assert(seq![m][0] == m);
}

/// The movement of up to three consecutive groups of messages, each of at most one message.
pub proof fn lemma_flow_parts(a: Seq<MessageView>, b: Seq<MessageView>, c: Seq<MessageView>, f: Flow)
    requires
        a.len() <= 1,
        b.len() <= 1,
        c.len() <= 1,
    ensures
        flow(a + b + c, f) == (if a.len() == 1 { flow_by(a[0], f) } else { 0 })
            + (if b.len() == 1 { flow_by(b[0], f) } else { 0 })
            + (if c.len() == 1 { flow_by(c[0], f) } else { 0 }),
{
    lemma_flow_concat(a + b, c, f);
    lemma_flow_concat(a, b, f);
    if a.len() == 1 {
        lemma_flow_single(a[0], f);
        assert(a =~= seq![a[0]]);
    }
    if b.len() == 1 {
        lemma_flow_single(b[0], f);
        assert(b =~= seq![b[0]]);
    }
    if c.len() == 1 {
        lemma_flow_single(c[0], f);
        assert(c =~= seq![c[0]]);
    }
}

/// Whether every batch among the messages names each id once.
pub open spec fn batches_unique(e: Seq<MessageView>) -> bool {
    forall|i: int| 0 <= i < e.len() ==> ((#[trigger] e[i]) matches MessageView::Cw1155BatchSendFrom { batch, .. }
        ==> ids_unique(batch))
}

/// Whether a movement counts batches of 1155 tokens.
pub open spec fn counts_batches(f: Flow) -> bool {
    ||| f matches Flow::Paid { denom: Denom::Cw1155(_, _), .. }
    ||| f matches Flow::Pulled { denom: Denom::Cw1155(_, _), .. }
}

/// Messages that are the expected ones make the movements the expected ones do.
pub proof fn lemma_flow_matches(m: Seq<Message>, e: Seq<MessageView>, f: Flow)
    requires
        messages_match(m, e),
        counts_batches(f) ==> batches_unique(e),
    ensures
        flow(message_views(m), f) == flow(e, f),
    decreases m.len(),
{
    if m.len() > 0 {
        let v = message_views(m);
        assert(v.drop_first() =~= message_views(m.drop_first()));
        assert(messages_match(m.drop_first(), e.drop_first())) by {
            assert forall|i: int| 0 <= i < m.drop_first().len() implies
                message_matches(#[trigger] m.drop_first()[i]@, e.drop_first()[i]) by {
                assert(message_matches(m[i + 1]@, e[i + 1]));
            }
        }
        assert(counts_batches(f) ==> batches_unique(e.drop_first())) by {
            if counts_batches(f) {
                assert forall|i: int| 0 <= i < e.drop_first().len() implies
                    ((#[trigger] e.drop_first()[i]) matches MessageView::Cw1155BatchSendFrom { batch, .. } ==> ids_unique(batch)) by {
                    assert(e.drop_first()[i] == e[i + 1]);
                }
            }
        }
        lemma_flow_matches(m.drop_first(), e.drop_first(), f);
        assert(message_matches(m[0]@, e[0]));
        assert(v[0] == m[0]@);
        if let MessageView::Cw1155BatchSendFrom { batch, .. } = v[0] {
            if let MessageView::Cw1155BatchSendFrom { batch: b, .. } = e[0] {
                if counts_batches(f) {
                    lemma_ascending_unique(batch);
                    assert(ids_unique(b));
                    assert(ids_unique(Seq::<EntryView>::empty()));
                    assert forall|k: Seq<char>| #[trigger] amount_of(b, k)
                        == amount_of(batch, k) + amount_of(Seq::<EntryView>::empty(), k) by {
                        assert(lookup(batch, k) == lookup(b, k));
                        assert(lookup(Seq::<EntryView>::empty(), k) is None);
                    }
                    lemma_total_pointwise(batch, Seq::<EntryView>::empty(), b);
                    assert(total(Seq::<EntryView>::empty()) == 0);
                }
            }
        }
    }
}

/// The movement that the message at position `i` makes alone.
pub proof fn lemma_flow_at(m: Seq<Message>, e: Seq<MessageView>, i: int, f: Flow)
    requires
        messages_match(m, e),
        0 <= i < m.len(),
        counts_batches(f) ==> batches_unique(e),
    ensures
        flow(seq![message_views(m)[i]], f) == flow_by(e[i], f),
{
    assert(message_matches(m[i]@, e[i]));
    assert(messages_match(seq![m[i]], seq![e[i]]));
    assert(counts_batches(f) ==> batches_unique(seq![e[i]])) by {
        if counts_batches(f) {
            assert forall|j: int| 0 <= j < 1 implies ((#[trigger] seq![e[i]][j])
                matches MessageView::Cw1155BatchSendFrom { batch, .. } ==> ids_unique(batch)) by {
                assert(seq![e[i]][j] == e[i]);
            }
        }
    }
    lemma_flow_matches(seq![m[i]], seq![e[i]], f);
    assert(message_views(seq![m[i]]) =~= seq![message_views(m)[i]]);
    lemma_flow_single(e[i], f);
}

} // verus!
