//! The messages the pool sends: token transfers, allowances, minting and burning of the
//! liquidity token.
use vstd::prelude::*;
use crate::error::ContractError;
use crate::msg::{Denom, Expiration};
use crate::response::Message;
use crate::ids::{
    EntryView, id_lt, ids_unique, view_entries, lemma_id_lt_irreflexive, lemma_id_lt_total, lemma_id_lt_transitive
};
use crate::supplies::{
    TokenSupplies, ids_ascending, lemma_ascending_tail, lemma_first_not_in_tail, lemma_put_sorted
};
use crate::token_amount::{
    AmountView, TokenAmount, TokenMap, lookup, total, total_defined, lemma_lookup_push, lemma_lookup_some_index
};

verus! {

/// `b` holds the amounts of `s` in ascending order of id.
pub open spec fn sorted_by_id(b: Seq<EntryView>, s: Seq<EntryView>) -> bool {
    &&& ids_ascending(b)
    &&& forall|k: Seq<char>| #[trigger] lookup(b, k) == lookup(s, k)
}

/// The amounts of `tokens` in ascending order of id.
fn sort_by_id(tokens: &TokenMap) -> (batch: Vec<(String, u128)>)
    requires
        tokens.wf(),
    ensures
        sorted_by_id(view_entries(batch@), tokens@),
{
    let mut sorted = TokenSupplies::new();
    let mut i: usize = 0;
    let ghost s = tokens@;
    while i < tokens.entries.len()
        invariant
            i <= s.len(),
            s == tokens@,
            ids_unique(s),
            sorted.wf(),
            forall|k: Seq<char>| #[trigger] lookup(sorted@, k) == lookup(s.take(i as int), k),
        decreases s.len() - i,
    {
        proof {
            assert(s[i as int] == (tokens.entries@[i as int].0@, tokens.entries@[i as int].1));
            lemma_put_sorted(sorted@, s[i as int].0, s[i as int].1);
            assert(s.take(i + 1) =~= s.take(i as int).push(s[i as int]));
        }
        let ghost before = sorted@;
        sorted.put(tokens.entries[i].0.clone(), tokens.entries[i].1);
        proof {
            assert forall|k: Seq<char>| #[trigger] lookup(sorted@, k) == lookup(s.take(i + 1), k) by {
                lemma_lookup_push(s.take(i as int), s[i as int], k);
                if k == s[i as int].0 {
                    if lookup(s.take(i as int), k) is Some {
                        let j = crate::token_amount::lemma_lookup_some_index(s.take(i as int), k);
                        assert(s.take(i as int)[j] == s[j]);
                    }
                }
            }
        }
        i = i + 1;
    }
    proof {
        assert(s.take(s.len() as int) =~= s);
    }
    sorted.entries
}

/// Two sequences in ascending order of id that hold the same amount for every id are the
/// same sequence.
proof fn lemma_ascending_determined(b1: Seq<EntryView>, b2: Seq<EntryView>)
    requires
        ids_ascending(b1),
        ids_ascending(b2),
        forall|k: Seq<char>| #[trigger] lookup(b1, k) == lookup(b2, k),
    ensures
        b1 == b2,
    decreases b1.len() + b2.len(),
{
    if b1.len() == 0 && b2.len() == 0 {
        assert(b1 =~= b2);
    } else if b1.len() == 0 {
        lemma_lookup_present_first(b2);
        assert(lookup(b1, b2[0].0) is None);
    } else if b2.len() == 0 {
        lemma_lookup_present_first(b1);
        assert(lookup(b2, b1[0].0) is None);
    } else {
        let x = b1[0].0;
        let y = b2[0].0;
        if x != y {
            lemma_id_lt_total(x, y);
            if id_lt(x, y) {
                lemma_lookup_present_first(b1);
                let j = lemma_lookup_some_index(b2, x);
                assert(j > 0);
                assert(id_lt(y, b2[j].0));
                lemma_id_lt_transitive(x, y, x);
                lemma_id_lt_irreflexive(x);
            } else {
                lemma_lookup_present_first(b2);
                let j = lemma_lookup_some_index(b1, y);
                assert(j > 0);
                assert(id_lt(x, b1[j].0));
                lemma_id_lt_transitive(y, x, y);
                lemma_id_lt_irreflexive(y);
            }
        }
        assert(lookup(b1, x) == Some(b1[0].1));
        assert(lookup(b2, x) == Some(b2[0].1));
        let t1 = b1.drop_first();
        let t2 = b2.drop_first();
        lemma_ascending_tail(b1);
        lemma_ascending_tail(b2);
        lemma_first_not_in_tail(b1);
        lemma_first_not_in_tail(b2);
        assert forall|k: Seq<char>| #[trigger] lookup(t1, k) == lookup(t2, k) by {
            if k != x {
                assert(lookup(b1, k) == lookup(t1, k));
                assert(lookup(b2, k) == lookup(t2, k));
            }
        }
        lemma_ascending_determined(t1, t2);
        assert(b1 =~= seq![b1[0]] + t1);
        assert(b2 =~= seq![b2[0]] + t2);
    }
}

/// The first entry's id is found with its amount.
proof fn lemma_lookup_present_first(b: Seq<EntryView>)
    requires
        b.len() > 0,
    ensures
        lookup(b, b[0].0) == Some(b[0].1),
{
}

/// A batch transfer is determined by the amounts it moves: amounts that agree on every id,
/// in whatever order they were given, give the same batch.
pub proof fn lemma_transfer_batch_determined(b1: Seq<EntryView>, s1: Seq<EntryView>, b2: Seq<EntryView>, s2: Seq<EntryView>)
    requires
        sorted_by_id(b1, s1),
        sorted_by_id(b2, s2),
        forall|k: Seq<char>| #[trigger] lookup(s1, k) == lookup(s2, k),
    ensures
        b1 == b2,
{
    assert forall|k: Seq<char>| #[trigger] lookup(b1, k) == lookup(b2, k) by {
        assert(lookup(b1, k) == lookup(s1, k));
        assert(lookup(b2, k) == lookup(s2, k));
    }
    lemma_ascending_determined(b1, b2);
}

/// A batch transfer of the 1155 tokens `tokens` from `owner` to `recipient`, in ascending
/// order of id.
pub fn get_cw1155_transfer_msg(owner: &String, recipient: &String, token_addr: &String, tokens: &TokenMap) -> (m: Message)
    requires
        tokens.wf(),
    ensures
        m matches Message::Cw1155BatchSendFrom { contract, from, to, batch } && contract == *token_addr
            && from == *owner && to == *recipient && sorted_by_id(view_entries(batch@), tokens@),
{
    Message::Cw1155BatchSendFrom {
        contract: token_addr.clone(),
        from: owner.clone(),
        to: recipient.clone(),
        batch: sort_by_id(tokens),
    }
}

/// A cw20 transfer of `token_amount` from `owner` to `recipient`, under an allowance.
pub fn get_cw20_transfer_from_msg(owner: &String, recipient: &String, token_addr: &String, token_amount: u128) -> (m: Message)
    ensures
        m == (Message::Cw20TransferFrom { contract: *token_addr, owner: *owner, recipient: *recipient, amount: token_amount }),
{
    Message::Cw20TransferFrom {
        contract: token_addr.clone(),
        owner: owner.clone(),
        recipient: recipient.clone(),
        amount: token_amount,
    }
}

/// A raise of this contract's cw20 allowance to `spender` by `amount`.
pub fn get_cw20_increase_allowance_msg(token_addr: &String, spender: &String, amount: u128, expires: Option<Expiration>) -> (m: Message)
    ensures
        m == (Message::Cw20IncreaseAllowance { contract: *token_addr, spender: *spender, amount, expires }),
{
    Message::Cw20IncreaseAllowance { contract: token_addr.clone(), spender: spender.clone(), amount, expires }
}

/// Minting of `liquidity_amount` liquidity tokens to `recipient`.
pub fn mint_lp_tokens(recipient: &String, liquidity_amount: u128, lp_token_address: &String) -> (m: Message)
    ensures
        m == (Message::LpMint { contract: *lp_token_address, recipient: *recipient, amount: liquidity_amount }),
{
    Message::LpMint { contract: lp_token_address.clone(), recipient: recipient.clone(), amount: liquidity_amount }
}

/// Burning of `amount` liquidity tokens of `owner`.
pub fn get_burn_msg(contract: &String, owner: &String, amount: u128) -> (m: Message)
    ensures
        m == (Message::LpBurnFrom { contract: *contract, owner: *owner, amount }),
{
    Message::LpBurnFrom { contract: contract.clone(), owner: owner.clone(), amount }
}

/// A cw20 transfer of `token_amount` from this contract to `recipient`.
pub fn get_cw20_transfer_to_msg(recipient: &String, token_addr: &String, token_amount: u128) -> (m: Message)
    ensures
        m == (Message::Cw20Transfer { contract: *token_addr, recipient: *recipient, amount: token_amount }),
{
    Message::Cw20Transfer { contract: token_addr.clone(), recipient: recipient.clone(), amount: token_amount }
}

/// A bank transfer of `native_amount` of `denom` from this contract to `recipient`.
pub fn get_bank_transfer_to_msg(recipient: &String, denom: &String, native_amount: u128) -> (m: Message)
    ensures
        m == (Message::BankSend { to_address: *recipient, denom: *denom, amount: native_amount }),
{
    Message::BankSend { to_address: recipient.clone(), denom: denom.clone(), amount: native_amount }
}

/// The transfer of a fee from `sender` to `recipient` in the token of `fee_denom`: amounts
/// per id for an 1155 token, a single amount otherwise (moved under an allowance for a
/// cw20, sent by the bank for a native coin). An amount of the wrong kind is an error
/// holding its total.
pub fn get_fee_transfer_msg(sender: &String, recipient: &String, fee_denom: &Denom, amount: TokenAmount) -> (r: Result<Message, ContractError>)
    requires
        amount.wf(),
        total_defined(amount@),
    ensures
        match (fee_denom, amount@) {
            (Denom::Cw1155(addr, _), AmountView::Multiple(s)) => r matches Ok(Message::Cw1155BatchSendFrom { contract, from, to, batch })
                && contract == addr && from == *sender && to == *recipient && sorted_by_id(view_entries(batch@), s),
            (Denom::Cw1155(_, _), AmountView::Single(a)) => r == Err::<Message, ContractError>(ContractError::InvalidTokenAmount { amount: a }),
            (Denom::Cw20(addr), AmountView::Single(a)) => r == Ok::<Message, ContractError>(Message::Cw20TransferFrom { contract: *addr, owner: *sender, recipient: *recipient, amount: a }),
            (Denom::Native(denom), AmountView::Single(a)) => r == Ok::<Message, ContractError>(Message::BankSend { to_address: *recipient, denom: *denom, amount: a }),
            (_, AmountView::Multiple(s)) => r == Err::<Message, ContractError>(ContractError::InvalidTokenAmount { amount: total(s) as u128 }),
        },
{
    match fee_denom {
        Denom::Cw1155(addr, _) => match amount.get_multiple() {
            Ok(tokens) => Ok(get_cw1155_transfer_msg(sender, recipient, addr, &tokens)),
            Err(e) => Err(e),
        },
        Denom::Cw20(addr) => match amount.get_single() {
            Ok(a) => Ok(get_cw20_transfer_from_msg(sender, recipient, addr, a)),
            Err(e) => Err(e),
        },
        Denom::Native(denom) => match amount.get_single() {
            Ok(a) => Ok(get_bank_transfer_to_msg(recipient, denom, a)),
            Err(e) => Err(e),
        },
    }
}

} // verus!
