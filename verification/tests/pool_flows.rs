//! Whole flows through pools, on a small in-memory chain: bank balances, 1155 and cw20
//! ledgers, and the pools themselves. Messages that a pool sends are carried out in
//! order; a failure anywhere undoes the whole message, as the chain does.
use std::collections::HashMap;
use std::str::FromStr;

use cosmwasm_std::Api;
use ixo_swap::contract::{
    execute, query_fee, query_freeze_status, query_info, query_ownership,
    query_slippage, query_tokens_supply, reply, ChainAnswers,
};
use ixo_swap::decimal::Decimal;
use ixo_swap::error::{ContractError, PaymentError, StdError};
use ixo_swap::msg::{
    AddrCheck, BlockInfo, Coin, Denom, Env, ExecuteMsg, Expiration, InfoResponse, InstantiateMsg, MessageInfo,
    TokenSelect,
};
use ixo_swap::response::{Event, InstantiateLpToken, Message, Response};
use ixo_swap::state::State;
use ixo_swap::token_amount::{TokenAmount, TokenMap};

const NATIVE_TOKEN_DENOM: &str = "juno";

fn dec(s: &str) -> Decimal {
    Decimal::from_atomics(cosmwasm_std::Decimal::from_str(s).unwrap().atomics().u128())
}

fn map(pairs: &[(&str, u128)]) -> TokenMap {
    TokenMap::from_pairs(pairs.iter().map(|(k, v)| (k.to_string(), *v)).collect())
}

fn coin(amount: u128, denom: &str) -> Coin {
    Coin { denom: denom.to_string(), amount }
}

fn failure(msg: &str) -> ContractError {
    ContractError::Std(StdError::GenericErr { msg: msg.to_string() })
}

/// The chain's validation of an address, as the mock chain does it.
fn validate(addr: &str) -> AddrCheck {
    match cosmwasm_std::testing::MockApi::default().addr_validate(addr) {
        Ok(a) => Ok(a.to_string()),
        Err(cosmwasm_std::StdError::GenericErr { msg, .. }) => Err(StdError::GenericErr { msg }),
        Err(e) => Err(StdError::GenericErr { msg: e.to_string() }),
    }
}

/// The protobuf answer to an instantiation that names `addr`.
fn instantiate_reply_data(addr: &str) -> Vec<u8> {
    let mut data = vec![0x0a, addr.len() as u8];
    data.extend_from_slice(addr.as_bytes());
    data
}

#[derive(Clone)]
struct World {
    height: u64,
    time: u64,
    next_id: u64,
    bank: HashMap<(String, String), u128>,
    c1155: HashMap<(String, String, String), u128>,
    c20: HashMap<(String, String), u128>,
    allowances: HashMap<(String, String, String), u128>,
    minters: HashMap<String, String>,
    pools: HashMap<String, State>,
}

impl World {
    fn new() -> World {
        World {
            height: 12345,
            time: 1_571_797_419_879_305_533,
            next_id: 0,
            bank: HashMap::new(),
            c1155: HashMap::new(),
            c20: HashMap::new(),
            allowances: HashMap::new(),
            minters: HashMap::new(),
            pools: HashMap::new(),
        }
    }

    fn new_contract(&mut self) -> String {
        let addr = format!("contract{}", self.next_id);
        self.next_id += 1;
        addr
    }

    fn init_balance(&mut self, owner: &str, coins: &[Coin]) {
        for c in coins {
            *self.bank.entry((owner.to_string(), c.denom.clone())).or_insert(0) += c.amount;
        }
    }

    fn bank_balance(&self, owner: &str, denom: &str) -> u128 {
        *self.bank.get(&(owner.to_string(), denom.to_string())).unwrap_or(&0)
    }

    fn balance1155(&self, contract: &str, owner: &str, id: &str) -> u128 {
        *self.c1155.get(&(contract.to_string(), owner.to_string(), id.to_string())).unwrap_or(&0)
    }

    fn batch_balance(&self, contract: &str, owner: &str, ids: &[String]) -> Vec<u128> {
        ids.iter().map(|id| self.balance1155(contract, owner, id)).collect()
    }

    fn balance20(&self, contract: &str, owner: &str) -> u128 {
        *self.c20.get(&(contract.to_string(), owner.to_string())).unwrap_or(&0)
    }

    fn supply20(&self, contract: &str) -> u128 {
        self.c20.iter().filter(|((c, _), _)| c == contract).map(|(_, v)| *v).sum()
    }

    fn create_cw1155(&mut self) -> String {
        self.new_contract()
    }

    fn create_cw20(&mut self, owner: &str, balance: u128) -> String {
        let addr = self.new_contract();
        self.c20.insert((addr.clone(), owner.to_string()), balance);
        addr
    }

    fn mint1155(&mut self, contract: &str, to: &str, batch: &[(String, u128)]) {
        for (id, amount) in batch {
            *self.c1155.entry((contract.to_string(), to.to_string(), id.clone())).or_insert(0) += amount;
        }
    }

    fn increase_allowance(&mut self, contract: &str, owner: &str, spender: &str, amount: u128) {
        *self.allowances.entry((contract.to_string(), owner.to_string(), spender.to_string())).or_insert(0) += amount;
    }

    fn bank_send(&mut self, from: &str, to: &str, denom: &str, amount: u128) -> Result<(), ContractError> {
        let have = self.bank_balance(from, denom);
        if have < amount {
            return Err(failure("insufficient funds"));
        }
        self.bank.insert((from.to_string(), denom.to_string()), have - amount);
        *self.bank.entry((to.to_string(), denom.to_string())).or_insert(0) += amount;
        Ok(())
    }

    fn move1155(&mut self, contract: &str, from: &str, to: &str, id: &str, amount: u128) -> Result<(), ContractError> {
        let have = self.balance1155(contract, from, id);
        if have < amount {
            return Err(failure("insufficient 1155 balance"));
        }
        self.c1155.insert((contract.to_string(), from.to_string(), id.to_string()), have - amount);
        *self.c1155.entry((contract.to_string(), to.to_string(), id.to_string())).or_insert(0) += amount;
        Ok(())
    }

    fn move20(&mut self, contract: &str, from: &str, to: &str, amount: u128) -> Result<(), ContractError> {
        let have = self.balance20(contract, from);
        if have < amount {
            return Err(failure("insufficient cw20 balance"));
        }
        self.c20.insert((contract.to_string(), from.to_string()), have - amount);
        *self.c20.entry((contract.to_string(), to.to_string())).or_insert(0) += amount;
        Ok(())
    }

    fn spend_allowance(&mut self, contract: &str, owner: &str, spender: &str, amount: u128) -> Result<(), ContractError> {
        let key = (contract.to_string(), owner.to_string(), spender.to_string());
        let have = *self.allowances.get(&key).unwrap_or(&0);
        if have < amount {
            return Err(failure("no allowance"));
        }
        self.allowances.insert(key, have - amount);
        Ok(())
    }

    fn env(&self, contract: &str) -> Env {
        Env { block: BlockInfo { height: self.height, time: self.time }, contract_address: contract.to_string() }
    }

    /// Instantiates a pool and its liquidity token, as the chain would with the reply.
    fn try_instantiate(&mut self, owner: &str, msg: InstantiateMsg) -> Result<(String, Response, Response), ContractError> {
        let snapshot = self.clone();
        let amm = self.new_contract();
        let token1155_check = match &msg.token1155_denom {
            Denom::Cw1155(addr, _) | Denom::Cw20(addr) => validate(addr),
            Denom::Native(_) => Ok(String::new()),
        };
        let token2_check = match &msg.token2_denom {
            Denom::Cw1155(addr, _) | Denom::Cw20(addr) => validate(addr),
            Denom::Native(_) => Ok(String::new()),
        };
        let recipient_check = validate(&msg.protocol_fee_recipient);
        let info = MessageInfo { sender: owner.to_string(), funds: vec![] };
        let result = ixo_swap::contract::instantiate(&self.env(&amm), &info, msg, token1155_check, token2_check, recipient_check);
        let (mut state, response) = match result {
            Ok(x) => x,
            Err(e) => {
                *self = snapshot;
                return Err(e);
            },
        };
        let lp = self.new_contract();
        let sub = response.submessage.clone().unwrap();
        self.minters.insert(lp.clone(), sub.minter.clone());
        let data = instantiate_reply_data(&lp);
        let reply_response = reply(&mut state, 0, Ok(Some(data)), |a: String| validate(&a)).unwrap();
        self.pools.insert(amm.clone(), state);
        Ok((amm, response, reply_response))
    }

    fn create_amm(
        &mut self,
        owner: &str,
        token1155_denom: Denom,
        token2_denom: Denom,
        max_slippage_percent: Decimal,
        lp_fee_percent: Decimal,
        protocol_fee_percent: Decimal,
        protocol_fee_recipient: &str,
    ) -> String {
        let msg = InstantiateMsg {
            token1155_denom: token1155_denom.clone(),
            token2_denom: token2_denom.clone(),
            lp_token_code_id: 1,
            max_slippage_percent,
            protocol_fee_recipient: protocol_fee_recipient.to_string(),
            protocol_fee_percent,
            lp_fee_percent,
        };
        let (amm, response, reply_response) = self.try_instantiate(owner, msg).unwrap();
        assert_eq!(
            response.submessage,
            Some(InstantiateLpToken {
                code_id: 1,
                label: "lp_token".to_string(),
                name: "IxoSwap_Liquidity_Token".to_string(),
                symbol: "islpt".to_string(),
                decimals: 6,
                minter: amm.clone(),
                reply_id: 0,
            })
        );
        assert_eq!(
            response.event,
            Event::InstantiateIxoSwap {
                owner: owner.to_string(),
                max_slippage_percent,
                lp_fee_percent,
                protocol_fee_percent,
                protocol_fee_recipient: protocol_fee_recipient.to_string(),
                token1155_denom,
                token2_denom,
            }
        );
        let lp = self.pools[&amm].lp_address.clone().unwrap();
        assert_eq!(reply_response.event, Event::InstantiateLpToken { liquidity_pool_token_address: lp });
        amm
    }

    fn info(&self, pool: &str) -> InfoResponse {
        let state = &self.pools[pool];
        let supply = self.supply20(state.lp_address.as_ref().unwrap());
        query_info(state, Ok(supply)).unwrap()
    }

    fn lp_token(&self, pool: &str) -> String {
        self.pools[pool].lp_address.clone().unwrap()
    }

    fn token_supplies(&self, pool: &str, ids: &[String]) -> Vec<u128> {
        query_tokens_supply(&self.pools[pool], ids.to_vec()).supplies
    }

    /// What the chain answers for a message to `pool` from `sender`.
    fn answers(&self, pool: &str, sender: &str, msg: &ExecuteMsg) -> ChainAnswers {
        let names_of = |m: &TokenMap| -> Vec<Result<String, StdError>> {
            m.entries.iter().map(|(id, _)| Ok(id.split('/').next().unwrap().to_string())).collect()
        };
        let token_names = match msg {
            ExecuteMsg::AddLiquidity { token1155_amounts, .. } => names_of(token1155_amounts),
            ExecuteMsg::Swap { input_amount: TokenAmount::Multiple(m), .. }
            | ExecuteMsg::SwapAndSendTo { input_amount: TokenAmount::Multiple(m), .. }
            | ExecuteMsg::PassThroughSwap { input_token_amount: TokenAmount::Multiple(m), .. } => names_of(m),
            _ => vec![],
        };
        let state = &self.pools[pool];
        let (lp_token_supply, lp_token_balance) = match &state.lp_address {
            Some(lp) => (Ok(self.supply20(lp)), Ok(self.balance20(lp, sender))),
            None => (Err(StdError::GenericErr { msg: "no liquidity token".to_string() }), Err(StdError::GenericErr {
                msg: "no liquidity token".to_string(),
            })),
        };
        let address = match msg {
            ExecuteMsg::Swap { .. } => Some(validate(sender)),
            ExecuteMsg::SwapAndSendTo { recipient, .. } => Some(validate(recipient)),
            ExecuteMsg::PassThroughSwap { output_amm_address, .. } => Some(validate(output_amm_address)),
            ExecuteMsg::UpdateFee { protocol_fee_recipient, .. } => Some(validate(protocol_fee_recipient)),
            ExecuteMsg::TransferOwnership { owner: Some(o) } => Some(validate(o)),
            _ => None,
        };
        let output_pool = match msg {
            ExecuteMsg::PassThroughSwap { output_amm_address, .. } => match self.pools.get(output_amm_address) {
                Some(p) => {
                    let supply = self.supply20(p.lp_address.as_ref().unwrap());
                    query_info(p, Ok(supply))
                },
                None => Err(StdError::GenericErr { msg: "no such pool".to_string() }),
            },
            _ => Err(StdError::GenericErr { msg: "not asked".to_string() }),
        };
        ChainAnswers { token_names, lp_token_supply, lp_token_balance, address, output_pool }
    }

    /// Executes a message, undoing everything where any part fails.
    fn execute(&mut self, sender: &str, pool: &str, msg: ExecuteMsg, funds: &[Coin]) -> Result<Response, ContractError> {
        let snapshot = self.clone();
        let result = self.execute_inner(sender, pool, msg, funds);
        if result.is_err() {
            *self = snapshot;
        }
        result
    }

    fn execute_inner(&mut self, sender: &str, pool: &str, msg: ExecuteMsg, funds: &[Coin]) -> Result<Response, ContractError> {
        for c in funds {
            self.bank_send(sender, pool, &c.denom, c.amount)?;
        }
        let chain = self.answers(pool, sender, &msg);
        let env = self.env(pool);
        let info = MessageInfo { sender: sender.to_string(), funds: funds.to_vec() };
        let mut state = self.pools[pool].clone();
        let response = execute(&mut state, &env, &info, msg, chain)?;
        self.pools.insert(pool.to_string(), state);
        for m in response.messages.iter() {
            self.dispatch(pool, m.clone())?;
        }
        Ok(response)
    }

    /// Carries out a message that contract `from` sends.
    fn dispatch(&mut self, from: &str, m: Message) -> Result<(), ContractError> {
        match m {
            Message::Cw1155BatchSendFrom { contract, from: owner, to, batch } => {
                for (id, amount) in batch {
                    self.move1155(&contract, &owner, &to, &id, amount)?;
                }
                Ok(())
            },
            Message::Cw20TransferFrom { contract, owner, recipient, amount } => {
                self.spend_allowance(&contract, &owner, from, amount)?;
                self.move20(&contract, &owner, &recipient, amount)
            },
            Message::Cw20Transfer { contract, recipient, amount } => self.move20(&contract, from, &recipient, amount),
            Message::Cw20IncreaseAllowance { contract, spender, amount, .. } => {
                self.increase_allowance(&contract, from, &spender, amount);
                Ok(())
            },
            Message::BankSend { to_address, denom, amount } => self.bank_send(from, &to_address, &denom, amount),
            Message::LpMint { contract, recipient, amount } => {
                assert_eq!(self.minters[&contract], from);
                *self.c20.entry((contract, recipient)).or_insert(0) += amount;
                Ok(())
            },
            Message::LpBurnFrom { contract, owner, amount } => {
                self.spend_allowance(&contract, &owner, from, amount)?;
                let have = self.balance20(&contract, &owner);
                if have < amount {
                    return Err(failure("insufficient cw20 balance"));
                }
                self.c20.insert((contract, owner), have - amount);
                Ok(())
            },
            Message::SwapAndSendTo { contract, input_token, input_amount, recipient, min_token, expiration, funds } => {
                let msg = ExecuteMsg::SwapAndSendTo { input_token, input_amount, recipient, min_token, expiration };
                self.execute_inner(from, &contract, msg, &funds).map(|_| ())
            },
        }
    }
}

fn add_liquidity(amounts: &[(&str, u128)], min_liquidity: u128, max_token2: u128, expiration: Option<Expiration>) -> ExecuteMsg {
    ExecuteMsg::AddLiquidity { token1155_amounts: map(amounts), min_liquidity, max_token2, expiration }
}

fn ids(v: &[&str]) -> Vec<String> {
    v.iter().map(|s| s.to_string()).collect()
}

#[test]
fn instantiate() {
    let mut router = World::new();
    let owner = "owner";
    router.init_balance(owner, &[coin(2000, NATIVE_TOKEN_DENOM)]);

    let cw1155_token = router.create_cw1155();
    let max_slippage_percent = dec("0.3");
    let supported_denom = "CARBON".to_string();
    let lp_fee_percent = dec("0.01");
    let protocol_fee_percent = Decimal::zero();

    let amm_addr = router.create_amm(
        owner,
        Denom::Cw1155(cw1155_token.clone(), supported_denom.clone()),
        Denom::Native(NATIVE_TOKEN_DENOM.into()),
        max_slippage_percent,
        lp_fee_percent,
        protocol_fee_percent,
        owner,
    );

    assert_ne!(cw1155_token, amm_addr);

    let info = router.info(&amm_addr);
    assert_eq!(info.lp_token_address, "contract2".to_string());

    let ownership = query_ownership(&router.pools[&amm_addr]);
    assert_eq!(ownership.owner, owner.to_string());
    assert_eq!(ownership.pending_owner, None);

    let fee = query_fee(&router.pools[&amm_addr]);
    assert_eq!(fee.lp_fee_percent, lp_fee_percent);
    assert_eq!(fee.protocol_fee_percent, protocol_fee_percent);
    assert_eq!(fee.protocol_fee_recipient, owner.to_string());

    let new_msg = |token1155_denom: Denom, token2_denom: Denom, lp_fee_percent: Decimal, protocol_fee_percent: Decimal| InstantiateMsg {
        token1155_denom,
        token2_denom,
        lp_token_code_id: 1,
        max_slippage_percent,
        protocol_fee_recipient: owner.to_string(),
        protocol_fee_percent,
        lp_fee_percent,
    };

    // try instantiate with duplicated tokens
    let msg = new_msg(
        Denom::Cw1155(cw1155_token.clone(), supported_denom.clone()),
        Denom::Cw1155(cw1155_token.clone(), supported_denom.clone()),
        lp_fee_percent,
        protocol_fee_percent,
    );
    let err = router.try_instantiate(owner, msg).unwrap_err();
    assert_eq!(ContractError::InvalidTokenType {}, err);

    // try instantiate with duplicated token addresses
    let msg = new_msg(
        Denom::Cw1155(cw1155_token.clone(), supported_denom.clone()),
        Denom::Cw20(cw1155_token.clone()),
        lp_fee_percent,
        protocol_fee_percent,
    );
    let err = router.try_instantiate(owner, msg).unwrap_err();
    assert_eq!(ContractError::DuplicatedTokenAddress { address: cw1155_token.to_string() }, err);

    // instantiate with fee < 0.01% should fail
    let low_protocol_fee = dec("0.001");
    let msg = new_msg(
        Denom::Cw1155(cw1155_token.clone(), supported_denom.clone()),
        Denom::Native(NATIVE_TOKEN_DENOM.into()),
        lp_fee_percent,
        low_protocol_fee,
    );
    let err = router.try_instantiate(owner, msg).unwrap_err();
    assert_eq!(ContractError::FeesTooLow { min_fee_percent: dec("0.01"), fee_percent: low_protocol_fee }, err);

    // try instantiate with invalid token address
    let msg = new_msg(
        Denom::Cw1155("1".to_string(), supported_denom.clone()),
        Denom::Native(NATIVE_TOKEN_DENOM.into()),
        lp_fee_percent,
        protocol_fee_percent,
    );
    let err = router.try_instantiate(owner, msg).unwrap_err();
    assert_eq!(
        ContractError::Std(StdError::GenericErr {
            msg: "Invalid input: human address too short for this mock implementation (must be >= 3).".to_string()
        }),
        err
    );

    // try instantiate with non 1155 token for token1155_denom
    let msg = new_msg(
        Denom::Native(NATIVE_TOKEN_DENOM.into()),
        Denom::Native(NATIVE_TOKEN_DENOM.into()),
        lp_fee_percent,
        protocol_fee_percent,
    );
    let err = router.try_instantiate(owner, msg).unwrap_err();
    assert_eq!(ContractError::InvalidTokenType {}, err);

    // try instantiate with 1155 token for token2_denom
    let msg = new_msg(
        Denom::Native(NATIVE_TOKEN_DENOM.into()),
        Denom::Cw1155(cw1155_token.clone(), supported_denom.clone()),
        lp_fee_percent,
        protocol_fee_percent,
    );
    let err = router.try_instantiate(owner, msg).unwrap_err();
    assert_eq!(ContractError::InvalidTokenType {}, err);

    // try instantiate with invalid fee amount
    let msg = new_msg(
        Denom::Cw1155(cw1155_token, supported_denom.clone()),
        Denom::Native(NATIVE_TOKEN_DENOM.into()),
        dec("5.01"),
        Decimal::zero(),
    );
    let err = router.try_instantiate(owner, msg).unwrap_err();
    assert_eq!(ContractError::FeesTooHigh { max_fee_percent: dec("5"), total_fee_percent: dec("5.01") }, err);
}

#[test]
fn cw1155_to_cw1155_swap() {
    let mut router = World::new();
    let owner = "owner";
    router.init_balance(owner, &[coin(2000, NATIVE_TOKEN_DENOM)]);

    let cw1155_first = router.create_cw1155();
    let cw1155_second = router.create_cw1155();

    let token_ids_cw1155_first = ids(&["FIRST/1", "FIRST/2"]);
    let token_ids_cw1155_second = ids(&["SECOND/1", "SECOND/2"]);

    let max_slippage_percent = dec("0.3");
    let lp_fee_percent = dec("0.3");
    let protocol_fee_percent = Decimal::zero();

    let amm1 = router.create_amm(
        owner,
        Denom::Cw1155(cw1155_first.clone(), "FIRST".to_string()),
        Denom::Native(NATIVE_TOKEN_DENOM.to_string()),
        max_slippage_percent,
        lp_fee_percent,
        protocol_fee_percent,
        owner,
    );
    let amm2 = router.create_amm(
        owner,
        Denom::Cw1155(cw1155_second.clone(), "SECOND".to_string()),
        Denom::Native(NATIVE_TOKEN_DENOM.to_string()),
        max_slippage_percent,
        lp_fee_percent,
        protocol_fee_percent,
        owner,
    );

    // set up initial balances
    router.mint1155(&cw1155_first, owner, &[(token_ids_cw1155_first[0].clone(), 5000), (token_ids_cw1155_first[1].clone(), 5000)]);
    router.mint1155(&cw1155_second, owner, &[(token_ids_cw1155_second[0].clone(), 5000), (token_ids_cw1155_second[1].clone(), 5000)]);

    // check initial balances
    assert_eq!(router.batch_balance(&cw1155_first, owner, &token_ids_cw1155_first), [5000, 5000]);
    assert_eq!(router.batch_balance(&cw1155_second, owner, &token_ids_cw1155_second), [5000, 5000]);

    let msg = add_liquidity(&[("FIRST/1", 50), ("FIRST/2", 50)], 100, 100, None);
    router.execute(owner, &amm1, msg, &[coin(100, NATIVE_TOKEN_DENOM)]).unwrap();
    let msg = add_liquidity(&[("SECOND/1", 50), ("SECOND/2", 50)], 100, 100, None);
    router.execute(owner, &amm2, msg, &[coin(100, NATIVE_TOKEN_DENOM)]).unwrap();

    // try swap with unsupported 1155 token
    let swap_msg = ExecuteMsg::PassThroughSwap {
        output_amm_address: amm2.to_string(),
        input_token: TokenSelect::Token1155,
        input_token_amount: TokenAmount::Multiple(map(&[("Unsupported", 25), ("Unsupported", 25)])),
        output_min_token: TokenAmount::Multiple(map(&[("SECOND/1", 12), ("SECOND/2", 12)])),
        expiration: None,
    };
    let err = router.execute(owner, &amm1, swap_msg, &[]).unwrap_err();
    assert_eq!(ContractError::UnsupportedTokenDenom { id: "Unsupported".to_string() }, err);

    // swap cw1155 tokens for specific cw1155 tokens
    let swap_msg = ExecuteMsg::PassThroughSwap {
        output_amm_address: amm2.to_string(),
        input_token: TokenSelect::Token1155,
        input_token_amount: TokenAmount::Multiple(map(&[("FIRST/1", 25), ("FIRST/2", 25)])),
        output_min_token: TokenAmount::Multiple(map(&[("SECOND/1", 12), ("SECOND/2", 12)])),
        expiration: None,
    };
    let res = router.execute(owner, &amm1, swap_msg, &[]).unwrap();
    assert_eq!(
        res.event,
        Event::CrossContractSwap {
            input_token_enum: TokenSelect::Token1155,
            input_token_amount: 50,
            output_token_amount: 33,
            output_amm_address: amm2.to_string(),
            recipient: owner.to_string(),
            protocol_fee_amount: 0,
            token1155_reserve: 150, // prev amount(100) plus added amount(50)
            token2_reserve: 67,     // prev amount(100) minus removed amount(33)
        }
    );

    // ensure balances updated
    assert_eq!(router.batch_balance(&cw1155_first, owner, &token_ids_cw1155_first), [4925, 4925]);
    assert_eq!(router.batch_balance(&cw1155_second, owner, &token_ids_cw1155_second), [4962, 4962]);

    // swap cw1155 tokens for any cw1155 tokens
    let swap_msg = ExecuteMsg::PassThroughSwap {
        output_amm_address: amm2.to_string(),
        input_token: TokenSelect::Token1155,
        input_token_amount: TokenAmount::Multiple(map(&[("FIRST/1", 25), ("FIRST/2", 25)])),
        output_min_token: TokenAmount::Single(8),
        expiration: None,
    };
    router.execute(owner, &amm1, swap_msg, &[]).unwrap();

    // ensure balances updated
    assert_eq!(router.batch_balance(&cw1155_first, owner, &token_ids_cw1155_first), [4900, 4900]);
    assert_eq!(router.batch_balance(&cw1155_second, owner, &token_ids_cw1155_second), [4970, 4962]);
}

#[test]
fn cw1155_to_cw20_swap() {
    let mut router = World::new();
    let owner = "owner";
    let protocol_fee_recipient = "protocol_fee_recipient";
    router.init_balance(owner, &[coin(2000, NATIVE_TOKEN_DENOM)]);

    let cw1155_token = router.create_cw1155();
    let cw20_token = router.create_cw20(owner, 150_000);

    let token_ids = ids(&["FIRST/1", "FIRST/2"]);

    let amm = router.create_amm(
        owner,
        Denom::Cw1155(cw1155_token.clone(), "FIRST".to_string()),
        Denom::Cw20(cw20_token.clone()),
        dec("8"),
        dec("0.2"),
        dec("0.1"),
        protocol_fee_recipient,
    );

    // set up initial balances
    router.mint1155(&cw1155_token, owner, &[(token_ids[0].clone(), 100_000), (token_ids[1].clone(), 100_000)]);

    // check initial balances
    assert_eq!(router.batch_balance(&cw1155_token, owner, &token_ids), [100_000, 100_000]);
    assert_eq!(router.balance20(&cw20_token, owner), 150_000);

    router.increase_allowance(&cw20_token, owner, &amm, 100_000);

    let msg = add_liquidity(&[("FIRST/1", 50_000), ("FIRST/2", 50_000)], 100_000, 100_000, None);
    router.execute(owner, &amm, msg, &[]).unwrap();

    // ensure balances updated
    assert_eq!(router.batch_balance(&cw1155_token, owner, &token_ids), [50_000, 50_000]);
    assert_eq!(router.balance20(&cw20_token, owner), 50_000);

    // try swap with unsupported 1155 token
    let swap_msg = ExecuteMsg::Swap {
        input_token: TokenSelect::Token1155,
        input_amount: TokenAmount::Multiple(map(&[("Unsupported", 25_000), ("Unsupported", 25_000)])),
        min_output: TokenAmount::Single(0),
        expiration: None,
    };
    let err = router.execute(owner, &amm, swap_msg, &[]).unwrap_err();
    assert_eq!(ContractError::UnsupportedTokenDenom { id: "Unsupported".to_string() }, err);

    // try swap with 0 min_output
    let swap_msg = ExecuteMsg::Swap {
        input_token: TokenSelect::Token1155,
        input_amount: TokenAmount::Multiple(map(&[("FIRST/1", 25_000), ("FIRST/2", 25_000)])),
        min_output: TokenAmount::Single(0),
        expiration: None,
    };
    let err = router.execute(owner, &amm, swap_msg, &[]).unwrap_err();
    assert_eq!(ContractError::MinTokenError {}, err);

    // swap cw1155 for cw20
    let swap_msg = ExecuteMsg::Swap {
        input_token: TokenSelect::Token1155,
        input_amount: TokenAmount::Multiple(map(&[("FIRST/1", 25_000), ("FIRST/2", 25_000)])),
        min_output: TokenAmount::Single(33_000),
        expiration: None,
    };
    let res = router.execute(owner, &amm, swap_msg, &[]).unwrap();
    assert_eq!(
        res.event,
        Event::Swap {
            sender: owner.to_string(),
            recipient: owner.to_string(),
            input_token_enum: TokenSelect::Token1155,
            input_token_amount: 50_000,
            output_token_amount: 33_266,
            protocol_fee_amount: 50,
            token1155_reserve: 149950, // prev amount(100_000) plus added amount(50_000) - minus fees(50)
            token2_reserve: 66_734,    // prev amount(100_000) minus removed amount(33_266)
        }
    );

    // ensure balances updated
    assert_eq!(router.batch_balance(&cw1155_token, owner, &token_ids), [25_000, 25_000]);
    assert_eq!(router.balance20(&cw20_token, owner), 83_266);
    assert_eq!(router.batch_balance(&cw1155_token, protocol_fee_recipient, &token_ids), [50, 0]);

    // Swap cw20 for cw1155
    router.increase_allowance(&cw20_token, owner, &amm, 60_000);

    let swap_msg = ExecuteMsg::Swap {
        input_token: TokenSelect::Token2,
        input_amount: TokenAmount::Single(60_000),
        min_output: TokenAmount::Multiple(map(&[("FIRST/1", 33_000), ("FIRST/2", 33_000)])),
        expiration: None,
    };
    router.execute(owner, &amm, swap_msg, &[]).unwrap();

    // ensure balances updated
    assert_eq!(router.batch_balance(&cw1155_token, owner, &token_ids), [62_878, 58_000]);
    assert_eq!(router.balance20(&cw20_token, owner), 23_266);
    assert_eq!(router.balance20(&cw20_token, protocol_fee_recipient), 60);
}

#[test]
fn cw1155_to_native_swap() {
    let mut router = World::new();
    let owner = "owner";
    let protocol_fee_recipient = "protocol_fee_recipient";
    router.init_balance(owner, &[coin(150_000, NATIVE_TOKEN_DENOM)]);

    let cw1155_token = router.create_cw1155();
    let token_ids = ids(&["FIRST/1", "FIRST/2"]);

    let amm = router.create_amm(
        owner,
        Denom::Cw1155(cw1155_token.clone(), "FIRST".to_string()),
        Denom::Native(NATIVE_TOKEN_DENOM.into()),
        dec("8"),
        dec("0.2"),
        dec("0.1"),
        protocol_fee_recipient,
    );

    // set up initial balances
    router.mint1155(&cw1155_token, owner, &[(token_ids[0].clone(), 100_000), (token_ids[1].clone(), 100_000)]);

    // check initial balances
    assert_eq!(router.batch_balance(&cw1155_token, owner, &token_ids), [100_000, 100_000]);

    let msg = add_liquidity(&[("FIRST/1", 50_000), ("FIRST/2", 50_000)], 100_000, 100_000, None);
    router.execute(owner, &amm, msg, &[coin(100_000, NATIVE_TOKEN_DENOM)]).unwrap();

    // ensure balances updated
    assert_eq!(router.batch_balance(&cw1155_token, owner, &token_ids), [50_000, 50_000]);
    assert_eq!(router.bank_balance(owner, NATIVE_TOKEN_DENOM), 50_000);

    // Swap cw1155 for native
    let swap_msg = ExecuteMsg::Swap {
        input_token: TokenSelect::Token1155,
        input_amount: TokenAmount::Multiple(map(&[("FIRST/1", 25_000), ("FIRST/2", 25_000)])),
        min_output: TokenAmount::Single(33_000),
        expiration: None,
    };
    router.execute(owner, &amm, swap_msg, &[]).unwrap();

    // ensure balances updated
    assert_eq!(router.batch_balance(&cw1155_token, owner, &token_ids), [25_000, 25_000]);
    assert_eq!(router.bank_balance(owner, NATIVE_TOKEN_DENOM), 83_266);
    assert_eq!(router.batch_balance(&cw1155_token, protocol_fee_recipient, &token_ids), [50, 0]);

    // Swap native for cw1155
    let swap_msg = ExecuteMsg::Swap {
        input_token: TokenSelect::Token2,
        input_amount: TokenAmount::Single(60_000),
        min_output: TokenAmount::Multiple(map(&[("FIRST/1", 34_000), ("FIRST/2", 34_000)])),
        expiration: None,
    };
    router.execute(owner, &amm, swap_msg, &[coin(60_000, NATIVE_TOKEN_DENOM)]).unwrap();

    // ensure balances updated
    assert_eq!(router.batch_balance(&cw1155_token, owner, &token_ids), [61_878, 59_000]);
    assert_eq!(router.bank_balance(owner, NATIVE_TOKEN_DENOM), 23_266);
    assert_eq!(router.bank_balance(protocol_fee_recipient, NATIVE_TOKEN_DENOM), 60);
}

#[test]
fn cw1155_to_native_swap_low_fees() {
    let mut router = World::new();
    let owner = "owner";
    let protocol_fee_recipient = "protocol_fee_recipient";
    router.init_balance(owner, &[coin(150_000, NATIVE_TOKEN_DENOM)]);

    let cw1155_token = router.create_cw1155();
    let token_ids = ids(&["FIRST/1", "FIRST/2"]);

    let amm = router.create_amm(
        owner,
        Denom::Cw1155(cw1155_token.clone(), "FIRST".to_string()),
        Denom::Native(NATIVE_TOKEN_DENOM.into()),
        dec("8"),
        dec("0.0"),
        dec("0.01"),
        protocol_fee_recipient,
    );

    // set up initial balances
    router.mint1155(&cw1155_token, owner, &[(token_ids[0].clone(), 100_000), (token_ids[1].clone(), 100_000)]);

    // check initial balances
    assert_eq!(router.batch_balance(&cw1155_token, owner, &token_ids), [100_000, 100_000]);

    let msg = add_liquidity(&[("FIRST/1", 50_000), ("FIRST/2", 50_000)], 100_000, 100_000, None);
    router.execute(owner, &amm, msg, &[coin(100_000, NATIVE_TOKEN_DENOM)]).unwrap();

    // ensure balances updated
    assert_eq!(router.batch_balance(&cw1155_token, owner, &token_ids), [50_000, 50_000]);
    assert_eq!(router.bank_balance(owner, NATIVE_TOKEN_DENOM), 50_000);

    // Swap cw1155 for native
    let swap_msg = ExecuteMsg::Swap {
        input_token: TokenSelect::Token1155,
        input_amount: TokenAmount::Multiple(map(&[("FIRST/1", 5_000), ("FIRST/2", 5_000)])),
        min_output: TokenAmount::Single(8_362),
        expiration: None,
    };
    router.execute(owner, &amm, swap_msg, &[]).unwrap();

    // ensure balances updated
    assert_eq!(router.batch_balance(&cw1155_token, owner, &token_ids), [45_000, 45_000]);
    assert_eq!(router.bank_balance(owner, NATIVE_TOKEN_DENOM), 59_090);
    // should be 1 "FIRST/1" since it alphabetically comes first and with very low protocol fee low inout amount the fee is rounded up to 1
    assert_eq!(router.batch_balance(&cw1155_token, protocol_fee_recipient, &token_ids), [1, 0]);

    // Swap native for cw1155
    let swap_msg = ExecuteMsg::Swap {
        input_token: TokenSelect::Token2,
        input_amount: TokenAmount::Single(7_000),
        min_output: TokenAmount::Multiple(map(&[("FIRST/1", 3_700), ("FIRST/2", 3_700)])),
        expiration: None,
    };
    router.execute(owner, &amm, swap_msg, &[coin(7_000, NATIVE_TOKEN_DENOM)]).unwrap();

    // ensure balances updated
    assert_eq!(router.batch_balance(&cw1155_token, owner, &token_ids), [49_163, 48_700]);
    assert_eq!(router.bank_balance(owner, NATIVE_TOKEN_DENOM), 52_090);
    // since very low protocol fee and low input amount the fee is rounded up to 1
    assert_eq!(router.bank_balance(protocol_fee_recipient, NATIVE_TOKEN_DENOM), 1);

    // Swap input 1 should fail since protocol fee is not zero
    let swap_msg = ExecuteMsg::Swap {
        input_token: TokenSelect::Token2,
        input_amount: TokenAmount::Single(1),
        min_output: TokenAmount::Multiple(map(&[("FIRST/1", 1)])),
        expiration: None,
    };
    let err = router.execute(owner, &amm, swap_msg, &[coin(1, NATIVE_TOKEN_DENOM)]).unwrap_err();
    assert_eq!(ContractError::MinInputTokenAmountError { input_token_amount: 1, min_allowed: 2 }, err);
}

#[test]
fn amm_add_and_remove_liquidity() {
    let mut router = World::new();
    const INVALID_NATIVE_TOKEN_DENOM: &str = "ixo";
    let owner = "owner";
    router.init_balance(owner, &[coin(2000, NATIVE_TOKEN_DENOM), coin(2000, INVALID_NATIVE_TOKEN_DENOM)]);

    let cw1155_token = router.create_cw1155();
    let supported_denom = "CARBON".to_string();
    let token_ids = vec![format!("{}/1", supported_denom), format!("{}/2", supported_denom)];
    let amm_addr = router.create_amm(
        owner,
        Denom::Cw1155(cw1155_token.clone(), supported_denom),
        Denom::Native(NATIVE_TOKEN_DENOM.into()),
        dec("1"),
        dec("0.3"),
        Decimal::zero(),
        owner,
    );

    assert_ne!(cw1155_token, amm_addr);
    let lp_token = router.info(&amm_addr).lp_token_address;

    router.mint1155(&cw1155_token, owner, &[(token_ids[0].clone(), 5000), (token_ids[1].clone(), 5000)]);

    // check initial balances
    assert_eq!(router.batch_balance(&cw1155_token, owner, &token_ids), [5000, 5000]);

    // try send add liquidity with unsupported 1155 tokens
    let msg = add_liquidity(&[("Unsupported", 70), ("Unsupported", 30)], 100, 100, None);
    let err = router.execute(owner, &amm_addr, msg, &[coin(12, NATIVE_TOKEN_DENOM)]).unwrap_err();
    assert_eq!(ContractError::UnsupportedTokenDenom { id: "Unsupported".to_string() }, err);

    // try send add liquidity with 0 min_liqudity
    let msg = add_liquidity(&[("CARBON/1", 70), ("CARBON/2", 30)], 0, 100, None);
    let err = router.execute(owner, &amm_addr, msg, &[coin(12, NATIVE_TOKEN_DENOM)]).unwrap_err();
    assert_eq!(ContractError::MinTokenError {}, err);

    // try send insufficient amount of native token than provided liquidity to contract
    let msg = add_liquidity(&[("CARBON/1", 70), ("CARBON/2", 30)], 100, 100, None);
    let err = router.execute(owner, &amm_addr, msg, &[coin(12, NATIVE_TOKEN_DENOM)]).unwrap_err();
    assert_eq!(ContractError::InsufficientFunds {}, err);

    // try send invalid denom of native token than provided to contract
    let msg = add_liquidity(&[("CARBON/1", 70), ("CARBON/2", 30)], 100, 100, None);
    let err = router.execute(owner, &amm_addr, msg, &[coin(12, INVALID_NATIVE_TOKEN_DENOM)]).unwrap_err();
    assert_eq!(ContractError::PaymentError(PaymentError::MissingDenom(NATIVE_TOKEN_DENOM.into())), err);

    // try send 2 native tokens to contract
    let msg = add_liquidity(&[("CARBON/1", 70), ("CARBON/2", 30)], 100, 100, None);
    let err = router
        .execute(owner, &amm_addr, msg, &[coin(12, NATIVE_TOKEN_DENOM), coin(12, INVALID_NATIVE_TOKEN_DENOM)])
        .unwrap_err();
    assert_eq!(ContractError::PaymentError(PaymentError::MultipleDenoms {}), err);

    // add liquidity to contract
    let msg = add_liquidity(&[("CARBON/1", 70), ("CARBON/2", 30)], 100, 100, None);
    let res = router.execute(owner, &amm_addr, msg, &[coin(100, NATIVE_TOKEN_DENOM)]).unwrap();
    assert_eq!(
        res.event,
        Event::AddLiquidity {
            token1155_amount: 100,
            token2_amount: 100,
            liquidity_received: 100,
            liquidity_receiver: owner.to_string(),
            token1155_reserve: 100,
            token2_reserve: 100,
        }
    );

    // ensure balances updated
    assert_eq!(router.batch_balance(&cw1155_token, owner, &token_ids), [4930, 4970]);
    assert_eq!(router.token_supplies(&amm_addr, &token_ids), [70, 30]);
    assert_eq!(router.batch_balance(&cw1155_token, &amm_addr, &token_ids), [70, 30]);
    assert_eq!(router.balance20(&lp_token, owner), 100);

    // send tokens to contract address
    let msg = add_liquidity(&[("CARBON/1", 50)], 50, 51, None);
    router.execute(owner, &amm_addr, msg, &[coin(51, NATIVE_TOKEN_DENOM)]).unwrap();

    // ensure balances updated
    assert_eq!(router.batch_balance(&cw1155_token, owner, &token_ids), [4880, 4970]);
    assert_eq!(router.token_supplies(&amm_addr, &token_ids), [120, 30]);
    assert_eq!(router.batch_balance(&cw1155_token, &amm_addr, &token_ids), [120, 30]);
    assert_eq!(router.balance20(&lp_token, owner), 150);

    // too low max token error
    let msg = add_liquidity(&[("CARBON/2", 50)], 50, 45, None);
    let err = router.execute(owner, &amm_addr, msg, &[coin(45, NATIVE_TOKEN_DENOM)]).unwrap_err();
    assert_eq!(ContractError::MaxTokenError { max_token: 45, tokens_required: 51 }, err);

    // too high min liquidity
    let msg = add_liquidity(&[("CARBON/2", 50)], 500, 50, None);
    let err = router.execute(owner, &amm_addr, msg, &[coin(50, NATIVE_TOKEN_DENOM)]).unwrap_err();
    assert_eq!(ContractError::MinLiquidityError { min_liquidity: 500, liquidity_available: 50 }, err);

    // Expired message
    let msg = add_liquidity(&[("CARBON/1", 50)], 50, 50, Some(Expiration::AtHeight(0)));
    let err = router.execute(owner, &amm_addr, msg, &[coin(50, NATIVE_TOKEN_DENOM)]).unwrap_err();
    assert_eq!(ContractError::MsgExpirationError {}, err);

    // try remove liquidity with 0 min_token1155
    let msg = ExecuteMsg::RemoveLiquidity {
        amount: 20,
        min_token1155: TokenAmount::Multiple(map(&[("CARBON/2", 0)])),
        min_token2: 1,
        expiration: None,
    };
    let err = router.execute(owner, &amm_addr, msg, &[]).unwrap_err();
    assert_eq!(ContractError::MinTokenError {}, err);

    // try remove liquidity with 0 min_token2
    let msg = ExecuteMsg::RemoveLiquidity {
        amount: 20,
        min_token1155: TokenAmount::Multiple(map(&[("CARBON/2", 1)])),
        min_token2: 0,
        expiration: None,
    };
    let err = router.execute(owner, &amm_addr, msg, &[]).unwrap_err();
    assert_eq!(ContractError::MinTokenError {}, err);

    // try remove more liquidity then owned
    let msg = ExecuteMsg::RemoveLiquidity {
        amount: 151,
        min_token1155: TokenAmount::Multiple(map(&[("CARBON/2", 1)])),
        min_token2: 1,
        expiration: None,
    };
    let err = router.execute(owner, &amm_addr, msg, &[]).unwrap_err();
    assert_eq!(ContractError::InsufficientLiquidityError { requested: 151, available: 150 }, err);

    // Remove some liquidity
    router.increase_allowance(&lp_token, owner, &amm_addr, 50);
    let msg = ExecuteMsg::RemoveLiquidity {
        amount: 50,
        min_token1155: TokenAmount::Multiple(map(&[("CARBON/1", 45), ("CARBON/2", 5)])),
        min_token2: 50,
        expiration: None,
    };
    let res = router.execute(owner, &amm_addr, msg, &[]).unwrap();
    assert_eq!(
        res.event,
        Event::RemoveLiquidity {
            token1155_returned: 50,
            token2_returned: 50,
            liquidity_burned: 50,
            liquidity_provider: owner.to_string(),
            token1155_reserve: 100, // prev amount(150) minus removed amount(50)
            token2_reserve: 101,    // prev amount(151) minus removed amount(50)
        }
    );

    // ensure balances updated
    assert_eq!(router.batch_balance(&cw1155_token, owner, &token_ids), [4925, 4975]);
    assert_eq!(router.token_supplies(&amm_addr, &token_ids), [75, 25]);
    assert_eq!(router.batch_balance(&cw1155_token, &amm_addr, &token_ids), [75, 25]);
    assert_eq!(router.balance20(&lp_token, owner), 100);

    // Remove rest of liquidity
    router.increase_allowance(&lp_token, owner, &amm_addr, 100);
    let msg = ExecuteMsg::RemoveLiquidity {
        amount: 100,
        min_token1155: TokenAmount::Multiple(map(&[("CARBON/1", 75), ("CARBON/2", 25)])),
        min_token2: 100,
        expiration: None,
    };
    router.execute(owner, &amm_addr, msg, &[]).unwrap();

    // ensure balances updated
    assert_eq!(router.batch_balance(&cw1155_token, owner, &token_ids), [5000, 5000]);
    assert_eq!(router.token_supplies(&amm_addr, &token_ids), [0, 0]);
}

#[test]
fn remove_liquidity_with_partially_and_any_filling() {
    let mut router = World::new();
    let owner = "owner";
    router.init_balance(owner, &[coin(2000, NATIVE_TOKEN_DENOM)]);

    let cw1155_token = router.create_cw1155();
    let supported_denom = "CARBON".to_string();
    let token_ids = vec![
        format!("{}/1", supported_denom),
        format!("{}/2", supported_denom),
        format!("{}/3", supported_denom),
        format!("{}/4", supported_denom),
    ];
    let amm_addr = router.create_amm(
        owner,
        Denom::Cw1155(cw1155_token.clone(), supported_denom),
        Denom::Native(NATIVE_TOKEN_DENOM.into()),
        dec("5"),
        dec("0.3"),
        Decimal::zero(),
        owner,
    );

    assert_ne!(cw1155_token, amm_addr);
    let lp_token = router.info(&amm_addr).lp_token_address;

    router.mint1155(
        &cw1155_token,
        owner,
        &[(token_ids[0].clone(), 5000), (token_ids[1].clone(), 5000), (token_ids[2].clone(), 5000), (token_ids[3].clone(), 5000)],
    );

    // check initial balances
    assert_eq!(router.batch_balance(&cw1155_token, owner, &token_ids), [5000, 5000, 5000, 5000]);

    let msg = add_liquidity(&[("CARBON/1", 45), ("CARBON/2", 30), ("CARBON/3", 50), ("CARBON/4", 10)], 135, 135, None);
    router.execute(owner, &amm_addr, msg, &[coin(135, NATIVE_TOKEN_DENOM)]).unwrap();

    // ensure balances updated
    assert_eq!(router.batch_balance(&cw1155_token, owner, &token_ids), [4955, 4970, 4950, 4990]);
    assert_eq!(router.token_supplies(&amm_addr, &token_ids), [45, 30, 50, 10]);
    assert_eq!(router.batch_balance(&cw1155_token, &amm_addr, &token_ids), [45, 30, 50, 10]);
    assert_eq!(router.balance20(&lp_token, owner), 135);

    // remove liquidity for specific cw1155 tokens
    router.increase_allowance(&lp_token, owner, &amm_addr, 80);
    let msg = ExecuteMsg::RemoveLiquidity {
        amount: 80,
        min_token1155: TokenAmount::Multiple(map(&[("CARBON/1", 41), ("CARBON/2", 30), ("CARBON/3", 5)])),
        min_token2: 80,
        expiration: None,
    };
    router.execute(owner, &amm_addr, msg, &[]).unwrap();

    // ensure balances updated
    assert_eq!(router.batch_balance(&cw1155_token, owner, &token_ids), [5000, 5000, 4955, 4990]);
    assert_eq!(router.token_supplies(&amm_addr, &token_ids), [0, 0, 45, 10]);
    assert_eq!(router.batch_balance(&cw1155_token, &amm_addr, &token_ids), [0, 0, 45, 10]);
    assert_eq!(router.balance20(&lp_token, owner), 55);

    // remove liquidity for any cw1155 tokens
    router.increase_allowance(&lp_token, owner, &amm_addr, 55);
    let msg = ExecuteMsg::RemoveLiquidity {
        amount: 55,
        min_token1155: TokenAmount::Single(52),
        min_token2: 52,
        expiration: None,
    };
    router.execute(owner, &amm_addr, msg, &[]).unwrap();

    // ensure balances updated
    assert_eq!(router.batch_balance(&cw1155_token, owner, &token_ids), [5000, 5000, 5000, 5000]);
    assert_eq!(router.token_supplies(&amm_addr, &token_ids), [0, 0, 0, 0]);
    assert_eq!(router.batch_balance(&cw1155_token, &amm_addr, &token_ids), [0, 0, 0, 0]);
    assert_eq!(router.balance20(&lp_token, owner), 0);
}

#[test]
fn freeze_pool() {
    let mut router = World::new();
    let owner = "owner";
    router.init_balance(owner, &[coin(100, NATIVE_TOKEN_DENOM)]);

    let cw1155_token = router.create_cw1155();
    let amm_addr = router.create_amm(
        owner,
        Denom::Cw1155(cw1155_token, "TEST".to_string()),
        Denom::Native(NATIVE_TOKEN_DENOM.to_string()),
        dec("0.3"),
        dec("0.3"),
        Decimal::zero(),
        owner,
    );

    assert_eq!(query_freeze_status(&router.pools[&amm_addr]).status, false);

    // freeze pool
    let res = router.execute(owner, &amm_addr, ExecuteMsg::FreezeDeposits { freeze: true }, &[]).unwrap();
    assert_eq!(res.event, Event::FreezeDeposits { frozen: true });

    assert_eq!(query_freeze_status(&router.pools[&amm_addr]).status, true);

    // freeze pool with same freeze status
    let err = router.execute(owner, &amm_addr, ExecuteMsg::FreezeDeposits { freeze: true }, &[]).unwrap_err();
    assert_eq!(ContractError::DuplicatedFreezeStatus { freeze_status: true }, err);

    // now adding liquidity will fail
    let msg = add_liquidity(&[("TEST/1", 50)], 100, 100, None);
    let err = router.execute(owner, &amm_addr, msg, &[coin(100, NATIVE_TOKEN_DENOM)]).unwrap_err();
    assert_eq!(ContractError::FrozenPool {}, err);
}

#[test]
fn transfer_ownership() {
    let mut router = World::new();
    let owner = "owner";
    let new_owner = "new-owner";
    router.init_balance(owner, &[coin(2000, NATIVE_TOKEN_DENOM)]);

    let cw1155_token = router.create_cw1155();
    let amm_addr = router.create_amm(
        owner,
        Denom::Cw1155(cw1155_token, "TEST".to_string()),
        Denom::Native(NATIVE_TOKEN_DENOM.to_string()),
        dec("0.3"),
        dec("0.3"),
        Decimal::zero(),
        owner,
    );

    // Transfer ownership to claim
    let msg = ExecuteMsg::TransferOwnership { owner: Some(new_owner.to_string()) };
    let res = router.execute(owner, &amm_addr, msg, &[]).unwrap();
    assert_eq!(res.event, Event::TransferOwnership { pending_owner: Some(new_owner.to_string()) });

    let ownership = query_ownership(&router.pools[&amm_addr]);
    assert_eq!(ownership.owner, owner.to_string());
    assert_eq!(ownership.pending_owner, Some(new_owner.to_string()));

    // Try transfer ownership with not owner address
    let msg = ExecuteMsg::TransferOwnership { owner: Some(new_owner.to_string()) };
    let err = router.execute(new_owner, &amm_addr, msg, &[]).unwrap_err();
    assert_eq!(ContractError::Unauthorized {}, err);

    // Try transfer ownership to current owner
    let msg = ExecuteMsg::TransferOwnership { owner: Some(owner.to_string()) };
    let err = router.execute(owner, &amm_addr, msg, &[]).unwrap_err();
    assert_eq!(ContractError::DuplicatedOwner {}, err);

    // Try claim ownership with not new owner address
    let err = router.execute(owner, &amm_addr, ExecuteMsg::ClaimOwnership {}, &[]).unwrap_err();
    assert_eq!(ContractError::Unauthorized {}, err);

    // Claim ownership
    let res = router.execute(new_owner, &amm_addr, ExecuteMsg::ClaimOwnership {}, &[]).unwrap();
    assert_eq!(res.event, Event::ClaimOwnership { owner: Some(new_owner.to_string()) });

    let ownership = query_ownership(&router.pools[&amm_addr]);
    assert_eq!(ownership.owner, new_owner.to_string());
    assert_eq!(ownership.pending_owner, None);

    // Cancel transferring of ownership
    let msg = ExecuteMsg::TransferOwnership { owner: Some(owner.to_string()) };
    router.execute(new_owner, &amm_addr, msg, &[]).unwrap();

    let ownership = query_ownership(&router.pools[&amm_addr]);
    assert_eq!(ownership.owner, new_owner.to_string());
    assert_eq!(ownership.pending_owner, Some(owner.to_string()));

    let msg = ExecuteMsg::TransferOwnership { owner: None };
    router.execute(new_owner, &amm_addr, msg, &[]).unwrap();

    let ownership = query_ownership(&router.pools[&amm_addr]);
    assert_eq!(ownership.owner, new_owner.to_string());
    assert_eq!(ownership.pending_owner, None);

    // Claim empty pending ownership
    let res = router.execute(owner, &amm_addr, ExecuteMsg::ClaimOwnership {}, &[]).unwrap();
    assert_eq!(res.event, Event::ClaimOwnership { owner: None });

    let ownership = query_ownership(&router.pools[&amm_addr]);
    assert_eq!(ownership.owner, new_owner.to_string());
    assert_eq!(ownership.pending_owner, None);
}

#[test]
fn update_slippage() {
    let mut router = World::new();
    let owner = "owner";
    router.init_balance(owner, &[coin(2000, NATIVE_TOKEN_DENOM)]);

    let cw1155_token = router.create_cw1155();
    let max_slippage_percent = dec("0.3");
    let amm_addr = router.create_amm(
        owner,
        Denom::Cw1155(cw1155_token, "TEST".to_string()),
        Denom::Native(NATIVE_TOKEN_DENOM.to_string()),
        max_slippage_percent,
        dec("0.3"),
        Decimal::zero(),
        owner,
    );

    let current_slippage = query_slippage(&router.pools[&amm_addr]);
    assert_eq!(max_slippage_percent, current_slippage.max_slippage_percent);

    let new_max_slippage_percent = dec("0.2");
    let msg = ExecuteMsg::UpdateSlippage { max_slippage_percent: new_max_slippage_percent };
    let res = router.execute(owner, &amm_addr, msg, &[]).unwrap();
    assert_eq!(res.event, Event::UpdateSlippage { max_slippage_percent: new_max_slippage_percent });

    let current_slippage = query_slippage(&router.pools[&amm_addr]);
    assert_eq!(new_max_slippage_percent, current_slippage.max_slippage_percent);
}

#[test]
fn update_fee() {
    let mut router = World::new();
    let owner = "owner";
    router.init_balance(owner, &[coin(2000, NATIVE_TOKEN_DENOM)]);

    let cw1155_token = router.create_cw1155();
    let amm_addr = router.create_amm(
        owner,
        Denom::Cw1155(cw1155_token, "TEST".to_string()),
        Denom::Native(NATIVE_TOKEN_DENOM.to_string()),
        dec("0.3"),
        dec("0.3"),
        Decimal::zero(),
        owner,
    );

    let lp_fee_percent = dec("0.15");
    let protocol_fee_percent = dec("0.15");
    let msg = ExecuteMsg::UpdateFee {
        protocol_fee_recipient: "new_fee_recipient".to_string(),
        lp_fee_percent,
        protocol_fee_percent,
    };
    let res = router.execute(owner, &amm_addr, msg, &[]).unwrap();
    assert_eq!(
        res.event,
        Event::UpdateFee {
            lp_fee_percent,
            protocol_fee_percent,
            protocol_fee_recipient: "new_fee_recipient".to_string(),
        }
    );

    let fee = query_fee(&router.pools[&amm_addr]);
    assert_eq!(fee.protocol_fee_recipient, "new_fee_recipient".to_string());
    assert_eq!(fee.protocol_fee_percent, protocol_fee_percent);
    assert_eq!(fee.lp_fee_percent, lp_fee_percent);

    // Try updating with fee values that are too high
    let msg = ExecuteMsg::UpdateFee {
        protocol_fee_recipient: "new_fee_recipient".to_string(),
        lp_fee_percent: dec("5.01"),
        protocol_fee_percent: Decimal::zero(),
    };
    let err = router.execute(owner, &amm_addr, msg, &[]).unwrap_err();
    assert_eq!(ContractError::FeesTooHigh { max_fee_percent: dec("5"), total_fee_percent: dec("5.01") }, err);

    // Try updating with invalid owner, show throw unauthoritzed error
    let lp_fee_percent = dec("0.21");
    let protocol_fee_percent = dec("0.09");
    let msg = ExecuteMsg::UpdateFee { protocol_fee_recipient: owner.to_string(), lp_fee_percent, protocol_fee_percent };
    let err = router.execute("invalid_owner", &amm_addr, msg, &[]).unwrap_err();
    assert_eq!(ContractError::Unauthorized {}, err);

    // Try updating owner and fee params
    let msg = ExecuteMsg::UpdateFee { protocol_fee_recipient: owner.to_string(), lp_fee_percent, protocol_fee_percent };
    router.execute(owner, &amm_addr, msg, &[]).unwrap();

    let fee = query_fee(&router.pools[&amm_addr]);
    assert_eq!(fee.protocol_fee_recipient, owner.to_string());
    assert_eq!(fee.protocol_fee_percent, protocol_fee_percent);
    assert_eq!(fee.lp_fee_percent, lp_fee_percent);
}

/// The total of a pool's supplies of ids.
fn supplies_total(router: &World, pool: &str) -> u128 {
    router.pools[pool].token_supplies.entries.iter().map(|(_, a)| *a).sum()
}

fn native_pool(router: &mut World, owner: &str, protocol_fee: &str) -> (String, String) {
    let cw1155_token = router.create_cw1155();
    let amm = router.create_amm(
        owner,
        Denom::Cw1155(cw1155_token.clone(), "FIRST".to_string()),
        Denom::Native(NATIVE_TOKEN_DENOM.into()),
        dec("5"),
        dec("0.3"),
        dec(protocol_fee),
        owner,
    );
    router.mint1155(&cw1155_token, owner, &[("FIRST/1".to_string(), 10_000), ("FIRST/2".to_string(), 10_000)]);
    let msg = add_liquidity(&[("FIRST/1", 3_000), ("FIRST/2", 1_000)], 4_000, 4_000, None);
    router.execute(owner, &amm, msg, &[coin(4_000, NATIVE_TOKEN_DENOM)]).unwrap();
    (amm, cw1155_token)
}

#[test]
fn swaps_keep_the_product_and_the_supplies_without_protocol_fee() {
    let mut router = World::new();
    let owner = "owner";
    router.init_balance(owner, &[coin(100_000, NATIVE_TOKEN_DENOM)]);
    let (amm, _) = native_pool(&mut router, owner, "0");

    let product = |r: &World| {
        let info = r.info(&amm);
        info.token1155_reserve * info.token2_reserve
    };
    let before = product(&router);
    let swap = ExecuteMsg::Swap {
        input_token: TokenSelect::Token1155,
        input_amount: TokenAmount::Multiple(map(&[("FIRST/2", 700)])),
        min_output: TokenAmount::Single(590),
        expiration: None,
    };
    router.execute(owner, &amm, swap, &[]).unwrap();
    assert!(product(&router) >= before);
    assert_eq!(supplies_total(&router, &amm), router.info(&amm).token1155_reserve);

    let before = product(&router);
    let swap = ExecuteMsg::Swap {
        input_token: TokenSelect::Token2,
        input_amount: TokenAmount::Single(900),
        min_output: TokenAmount::Single(950),
        expiration: None,
    };
    router.execute(owner, &amm, swap, &[coin(900, NATIVE_TOKEN_DENOM)]).unwrap();
    assert!(product(&router) >= before);
    assert_eq!(supplies_total(&router, &amm), router.info(&amm).token1155_reserve);
}

#[test]
fn protocol_fee_and_reserve_share_the_input() {
    let mut router = World::new();
    let owner = "owner";
    router.init_balance(owner, &[coin(100_000, NATIVE_TOKEN_DENOM)]);
    let (amm, cw1155_token) = native_pool(&mut router, owner, "1");

    let before = router.info(&amm).token1155_reserve;
    let swap = ExecuteMsg::Swap {
        input_token: TokenSelect::Token1155,
        input_amount: TokenAmount::Multiple(map(&[("FIRST/1", 250), ("FIRST/2", 250)])),
        min_output: TokenAmount::Single(430),
        expiration: None,
    };
    let res = router.execute(owner, &amm, swap, &[]).unwrap();
    let fee = match res.event {
        Event::Swap { protocol_fee_amount, .. } => protocol_fee_amount,
        _ => panic!("not a swap"),
    };
    assert_eq!(fee, 5);
    assert_eq!(router.info(&amm).token1155_reserve + fee, before + 500);
    assert_eq!(supplies_total(&router, &amm), router.info(&amm).token1155_reserve);
    let received: u128 = ["FIRST/1", "FIRST/2"].iter().map(|id| router.balance1155(&cw1155_token, owner, id)).sum();
    assert_eq!(received, 20_000 - 4_000 - 500 + fee);
}

#[test]
fn refused_messages_change_nothing() {
    let mut router = World::new();
    let owner = "owner";
    router.init_balance(owner, &[coin(100_000, NATIVE_TOKEN_DENOM)]);
    let (amm, _) = native_pool(&mut router, owner, "0");
    let before = router.pools[&amm].clone();

    // only the owner freezes
    let err = router.execute("someone", &amm, ExecuteMsg::FreezeDeposits { freeze: true }, &[]).unwrap_err();
    assert_eq!(err, ContractError::UnauthorizedPoolFreeze {});

    // a minimum above what the input buys
    let swap = ExecuteMsg::Swap {
        input_token: TokenSelect::Token2,
        input_amount: TokenAmount::Single(100),
        min_output: TokenAmount::Single(98),
        expiration: None,
    };
    let err = router.execute(owner, &amm, swap, &[coin(100, NATIVE_TOKEN_DENOM)]).unwrap_err();
    assert_eq!(err, ContractError::SwapMinError { min: 98, available: 97 });

    // a second-token minimum above the share
    let lp_token = router.lp_token(&amm);
    router.increase_allowance(&lp_token, owner, &amm, 100);
    let msg = ExecuteMsg::RemoveLiquidity { amount: 100, min_token1155: TokenAmount::Single(99), min_token2: 101, expiration: None };
    let err = router.execute(owner, &amm, msg, &[]).unwrap_err();
    assert_eq!(err, ContractError::MinToken2Error { requested: 101, available: 100 });

    // a second pool that does not hold the token passed on
    let other_token = router.create_cw1155();
    let cash = router.create_cw20(owner, 1_000);
    let other = router.create_amm(
        owner,
        Denom::Cw1155(other_token, "OTHER".to_string()),
        Denom::Cw20(cash),
        dec("5"),
        dec("0.3"),
        Decimal::zero(),
        owner,
    );
    let msg = ExecuteMsg::PassThroughSwap {
        output_amm_address: other.clone(),
        input_token: TokenSelect::Token1155,
        input_token_amount: TokenAmount::Multiple(map(&[("FIRST/1", 100)])),
        output_min_token: TokenAmount::Single(1),
        expiration: None,
    };
    let err = router.execute(owner, &amm, msg, &[]).unwrap_err();
    assert_eq!(err, ContractError::InvalidOutputPool {});

    assert_eq!(router.pools[&amm], before);
}

#[test]
fn a_frozen_pool_refuses_swaps_and_still_pays_out() {
    let mut router = World::new();
    let owner = "owner";
    router.init_balance(owner, &[coin(100_000, NATIVE_TOKEN_DENOM)]);
    let (amm, _) = native_pool(&mut router, owner, "0");
    router.execute(owner, &amm, ExecuteMsg::FreezeDeposits { freeze: true }, &[]).unwrap();

    let swap = ExecuteMsg::Swap {
        input_token: TokenSelect::Token2,
        input_amount: TokenAmount::Single(100),
        min_output: TokenAmount::Single(95),
        expiration: None,
    };
    let err = router.execute(owner, &amm, swap, &[coin(100, NATIVE_TOKEN_DENOM)]).unwrap_err();
    assert_eq!(err, ContractError::FrozenPool {});

    let lp_token = router.lp_token(&amm);
    router.increase_allowance(&lp_token, owner, &amm, 400);
    let msg = ExecuteMsg::RemoveLiquidity { amount: 400, min_token1155: TokenAmount::Single(399), min_token2: 399, expiration: None };
    let res = router.execute(owner, &amm, msg, &[]).unwrap();
    assert!(matches!(res.event, Event::RemoveLiquidity { token1155_returned: 400, token2_returned: 400, .. }));

    router.execute(owner, &amm, ExecuteMsg::FreezeDeposits { freeze: false }, &[]).unwrap();
    let swap = ExecuteMsg::Swap {
        input_token: TokenSelect::Token2,
        input_amount: TokenAmount::Single(100),
        min_output: TokenAmount::Single(95),
        expiration: None,
    };
    router.execute(owner, &amm, swap, &[coin(100, NATIVE_TOKEN_DENOM)]).unwrap();
}

#[test]
fn refused_replies_change_nothing() {
    let mut router = World::new();
    let owner = "owner";
    router.init_balance(owner, &[coin(100_000, NATIVE_TOKEN_DENOM)]);
    let (amm, _) = native_pool(&mut router, owner, "0");
    let before = router.pools[&amm].clone();
    let mut state = before.clone();
    let data = instantiate_reply_data("contract9");

    let err = reply(&mut state, 3, Ok(Some(data.clone())), |a: String| validate(&a)).unwrap_err();
    assert_eq!(err, ContractError::UnknownReplyId { id: 3 });
    let err = reply(&mut state, 0, Err("failed".to_string()), |a: String| validate(&a)).unwrap_err();
    assert_eq!(err, ContractError::InstantiateLpTokenError {});
    let err = reply(&mut state, 0, Ok(Some(vec![0x12, 1, 0])), |a: String| validate(&a)).unwrap_err();
    assert_eq!(err, ContractError::InstantiateLpTokenError {});
    let err = reply(&mut state, 0, Ok(Some(instantiate_reply_data("x"))), |a: String| validate(&a)).unwrap_err();
    assert!(matches!(err, ContractError::Std(_)));
    assert_eq!(state, before);

    reply(&mut state, 0, Ok(Some(data)), |a: String| validate(&a)).unwrap();
    assert_eq!(state.lp_address, Some("contract9".to_string()));
}
