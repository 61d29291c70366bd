use std::str::FromStr;

use base64ct::Encoding;
use sha2::Digest;

use ixo_swap::contract::{
    check_expiration, check_fees, must_pay, parse_lp_token_reply, query_info, validate_fee_percent,
    validate_input_amount, validate_input_tokens, validate_slippage_percent, validate_token1155_denom,
};
use ixo_swap::decimal::Decimal;
use ixo_swap::error::{ContractError, FractionError, OverflowOperation, PaymentError, StdError};
use ixo_swap::messages::{get_cw1155_transfer_msg, get_fee_transfer_msg};
use ixo_swap::msg::{BlockInfo, Coin, Denom, Expiration};
use ixo_swap::pricing::{get_amount_without_fee, get_input_price};
use ixo_swap::response::Message;
use ixo_swap::seed::get_seed;
use ixo_swap::state::{Fees, State, Token};
use ixo_swap::supplies::{get_token_amounts_to_transfer, TokenSupplies};
use ixo_swap::token_amount::{TokenAmount, TokenMap};
use ixo_swap::utils::{calculate_amount_with_percent, decimal_to_uint128};

fn dec(s: &str) -> Decimal {
    Decimal::from_atomics(cosmwasm_std::Decimal::from_str(s).unwrap().atomics().u128())
}

fn map(pairs: &[(&str, u128)]) -> TokenMap {
    TokenMap::from_pairs(pairs.iter().map(|(k, v)| (k.to_string(), *v)).collect())
}

fn coin(amount: u128, denom: &str) -> Coin {
    Coin { denom: denom.to_string(), amount }
}

#[test]
fn percent_of_amount_is_rounded_up() {
    assert_eq!(calculate_amount_with_percent(26000, 100), Ok(260));
    assert_eq!(calculate_amount_with_percent(1, 1), Ok(1));
    assert_eq!(calculate_amount_with_percent(0, 30), Ok(0));
    assert_eq!(calculate_amount_with_percent(u128::MAX, 10000), Ok(u128::MAX));
    assert_eq!(
        calculate_amount_with_percent(u128::MAX, 10001),
        Err(ContractError::CheckedMultiplyFractionError(FractionError::ConversionOverflow))
    );
}

#[test]
fn percent_in_scale_units() {
    assert_eq!(decimal_to_uint128(dec("0.3")), Ok(30));
    assert_eq!(decimal_to_uint128(dec("0.01")), Ok(1));
    assert_eq!(decimal_to_uint128(dec("0.005")), Ok(0));
    assert_eq!(
        decimal_to_uint128(Decimal::from_atomics(u128::MAX)),
        Err(StdError::Overflow { operation: OverflowOperation::Mul, operand1: u128::MAX, operand2: 10_000 })
    );
}

#[test]
fn input_price_matches_the_formula_on_wide_values() {
    let cases = [(u128::MAX, u128::MAX, u128::MAX, "0"), (1_000_000, 3, u128::MAX / 7, "0.3"), (123_456, 654_321, 99, "5")];
    for (a, rin, rout, fee) in cases {
        let f = cosmwasm_std::Uint512::from(decimal_to_uint128(dec(fee)).unwrap());
        let s = cosmwasm_std::Uint512::from(10_000u128);
        let x = cosmwasm_std::Uint512::from(a) * (s - f);
        let expected = x * cosmwasm_std::Uint512::from(rout) / (cosmwasm_std::Uint512::from(rin) * s + x);
        let price = get_input_price(a, rin, rout, dec(fee)).unwrap();
        assert_eq!(cosmwasm_std::Uint512::from(price), expected);
        assert!(price < rout);
    }
    assert!(matches!(
        get_input_price(10, 100, 100, Decimal::from_atomics(u128::MAX)),
        Err(StdError::Overflow { operation: OverflowOperation::Mul, .. })
    ));
}

#[test]
fn price_keeps_the_constant_product() {
    for (a, rin, rout) in [(10u128, 100u128, 100u128), (50_000, 100_000, 100_000), (7, 1, 1000), (1, 1_000_000, 3)] {
        let price = get_input_price(a, rin, rout, dec("0.3")).unwrap();
        assert!((rin + a) * (rout - price) >= rin * rout);
    }
}

#[test]
fn amount_without_fee_per_id_and_single() {
    let input = TokenAmount::Multiple(map(&[("a", 10), ("b", 20), ("c", 5)]));
    let fee = TokenAmount::Multiple(map(&[("c", 5), ("a", 1)]));
    let w = get_amount_without_fee(&input, Some(fee)).unwrap();
    assert_eq!(w, TokenAmount::Multiple(map(&[("a", 9), ("b", 20), ("c", 0)])));
    assert_eq!(w.get_total() + 6, input.get_total());

    let w = get_amount_without_fee(&TokenAmount::Single(100), Some(TokenAmount::Single(3))).unwrap();
    assert_eq!(w, TokenAmount::Single(97));
    assert_eq!(get_amount_without_fee(&TokenAmount::Single(100), None).unwrap(), TokenAmount::Single(100));
    assert_eq!(
        get_amount_without_fee(&TokenAmount::Single(100), Some(TokenAmount::Multiple(map(&[("a", 2), ("b", 3)])))),
        Err(ContractError::InvalidTokenAmount { amount: 5 })
    );
    assert_eq!(
        get_amount_without_fee(&input, Some(TokenAmount::Single(4))),
        Err(ContractError::InvalidTokenAmount { amount: 4 })
    );
}

#[test]
fn fee_of_amounts_per_id_takes_smallest_first() {
    let amounts = TokenAmount::Multiple(map(&[("b", 100), ("a", 100), ("c", 5)]));
    let fee = amounts.get_percent(dec("5")).unwrap().unwrap();
    // 205 * 5% = 10.25, rounded up to 11: all 5 of "c", then 6 of "a" (the smaller id among equal amounts)
    assert_eq!(fee, TokenAmount::Multiple(map(&[("c", 5), ("a", 6)])));
    assert_eq!(amounts.get_percent(Decimal::zero()), Ok(None));
}

#[test]
fn payment_checks() {
    let denom = "juno".to_string();
    assert_eq!(must_pay(&vec![], &denom), Err(PaymentError::NoFunds {}));
    assert_eq!(must_pay(&vec![coin(0, "juno")], &denom), Err(PaymentError::NoFunds {}));
    assert_eq!(must_pay(&vec![coin(1, "juno"), coin(1, "ixo")], &denom), Err(PaymentError::MultipleDenoms {}));
    assert_eq!(must_pay(&vec![coin(5, "ixo")], &denom), Err(PaymentError::MissingDenom("juno".to_string())));
    assert_eq!(must_pay(&vec![coin(5, "juno")], &denom), Ok(5));

    let native = Denom::Native("juno".to_string());
    assert_eq!(validate_input_amount(&vec![coin(5, "juno")], &TokenAmount::Single(5), &native), Ok(()));
    assert_eq!(
        validate_input_amount(&vec![coin(5, "juno")], &TokenAmount::Single(6), &native),
        Err(ContractError::InsufficientFunds {})
    );
    assert_eq!(
        validate_input_amount(&vec![coin(5, "juno")], &TokenAmount::Multiple(map(&[("a", 2), ("b", 3)])), &native),
        Err(ContractError::InvalidTokenAmount { amount: 5 })
    );
    // coins are not checked for other tokens
    assert_eq!(validate_input_amount(&vec![], &TokenAmount::Single(6), &Denom::Cw20("token".to_string())), Ok(()));
}

#[test]
fn fee_checks() {
    assert_eq!(validate_fee_percent(Decimal::zero()), Ok(()));
    assert_eq!(validate_fee_percent(dec("0.01")), Ok(()));
    assert_eq!(
        validate_fee_percent(dec("0.009")),
        Err(ContractError::FeesTooLow { min_fee_percent: dec("0.01"), fee_percent: dec("0.009") })
    );
    assert_eq!(check_fees(dec("2.5"), dec("2.5")), Ok(()));
    assert_eq!(
        check_fees(dec("2.5"), dec("2.51")),
        Err(ContractError::FeesTooHigh { max_fee_percent: dec("5"), total_fee_percent: dec("5.01") })
    );
}

#[test]
fn input_token_checks() {
    let t1155 = Denom::Cw1155("tokens".to_string(), "CARBON".to_string());
    let bad = Err(StdError::GenericErr { msg: "bad address".to_string() });
    assert_eq!(validate_input_tokens(&t1155, &Denom::Cw20("cash".to_string()), Ok("tokens".into()), Ok("cash".into())), Ok(()));
    assert_eq!(
        validate_input_tokens(&t1155, &Denom::Cw20("cash".to_string()), Ok("tokens".into()), bad.clone()),
        Err(ContractError::Std(StdError::GenericErr { msg: "bad address".to_string() }))
    );
    assert_eq!(
        validate_input_tokens(&t1155, &Denom::Native("juno".to_string()), bad, Ok(String::new())),
        Err(ContractError::Std(StdError::GenericErr { msg: "bad address".to_string() }))
    );
    assert_eq!(
        validate_input_tokens(&Denom::Cw20("cash".to_string()), &Denom::Native("juno".to_string()), Ok("cash".into()), Ok(String::new())),
        Err(ContractError::InvalidTokenType {})
    );
}

#[test]
fn token_denomination_checks_stop_at_first_failure() {
    let denom = Denom::Cw1155("tokens".to_string(), "CARBON".to_string());
    let tokens = map(&[("CARBON/1", 1), ("OTHER/1", 1), ("CARBON/2", 1)]);
    let names = vec![Ok("CARBON".to_string()), Ok("OTHER".to_string()), Err(StdError::GenericErr { msg: "query".into() })];
    assert_eq!(
        validate_token1155_denom(&denom, &tokens, &names),
        Err(ContractError::UnsupportedTokenDenom { id: "OTHER/1".to_string() })
    );
    let names = vec![Ok("CARBON".to_string()), Err(StdError::GenericErr { msg: "query".into() }), Ok("OTHER".to_string())];
    assert_eq!(
        validate_token1155_denom(&denom, &tokens, &names),
        Err(ContractError::Std(StdError::GenericErr { msg: "query".to_string() }))
    );
    let names = vec![Ok("CARBON".to_string()), Ok("CARBON".to_string()), Ok("CARBON".to_string())];
    assert_eq!(validate_token1155_denom(&denom, &tokens, &names), Ok(()));
}

#[test]
fn expiration_checks() {
    let block = BlockInfo { height: 100, time: 5_000 };
    assert_eq!(check_expiration(&None, &block), Ok(()));
    assert_eq!(check_expiration(&Some(Expiration::AtHeight(101)), &block), Ok(()));
    assert_eq!(check_expiration(&Some(Expiration::AtHeight(100)), &block), Err(ContractError::MsgExpirationError {}));
    assert_eq!(check_expiration(&Some(Expiration::AtTime(5_000)), &block), Err(ContractError::MsgExpirationError {}));
    assert_eq!(check_expiration(&Some(Expiration::Never {}), &block), Ok(()));
}

#[test]
fn batch_transfers_are_in_ascending_order_of_id() {
    let tokens = map(&[("b", 2), ("c", 3), ("a", 1)]);
    let m = get_cw1155_transfer_msg(&"from".to_string(), &"to".to_string(), &"tokens".to_string(), &tokens);
    assert_eq!(
        m,
        Message::Cw1155BatchSendFrom {
            contract: "tokens".to_string(),
            from: "from".to_string(),
            to: "to".to_string(),
            batch: vec![("a".to_string(), 1), ("b".to_string(), 2), ("c".to_string(), 3)],
        }
    );
}

#[test]
fn fee_transfers_follow_the_denomination() {
    let sender = "sender".to_string();
    let recipient = "fees".to_string();
    assert_eq!(
        get_fee_transfer_msg(&sender, &recipient, &Denom::Native("juno".to_string()), TokenAmount::Single(7)),
        Ok(Message::BankSend { to_address: recipient.clone(), denom: "juno".to_string(), amount: 7 })
    );
    assert_eq!(
        get_fee_transfer_msg(&sender, &recipient, &Denom::Cw20("cash".to_string()), TokenAmount::Single(7)),
        Ok(Message::Cw20TransferFrom { contract: "cash".to_string(), owner: sender.clone(), recipient: recipient.clone(), amount: 7 })
    );
    assert_eq!(
        get_fee_transfer_msg(&sender, &recipient, &Denom::Cw1155("tokens".to_string(), "X".to_string()), TokenAmount::Single(7)),
        Err(ContractError::InvalidTokenAmount { amount: 7 })
    );
    assert_eq!(
        get_fee_transfer_msg(&sender, &recipient, &Denom::Cw20("cash".to_string()), TokenAmount::Multiple(map(&[("a", 3), ("b", 4)]))),
        Err(ContractError::InvalidTokenAmount { amount: 7 })
    );
}

#[test]
fn transfers_with_minimums_per_id_fill_from_those_ids_first() {
    let mut storage = TokenSupplies::new();
    for (id, supply) in [("1", 10u128), ("2", 50), ("3", 30), ("4", 5)] {
        storage.put(id.to_string(), supply);
    }
    // minimums take 5 of "2" and 5 of "3"; then the rest of those ids, smaller supply first ("3": 25),
    // then "2" for the last 15
    let t = get_token_amounts_to_transfer(&mut storage, 50, TokenAmount::Multiple(map(&[("2", 5), ("3", 5)]))).unwrap();
    assert_eq!(t.get(&"2".to_string()), Some(20));
    assert_eq!(t.get(&"3".to_string()), Some(30));
    assert_eq!(t.get(&"1".to_string()), None);
    assert_eq!(storage.entries, vec![("1".to_string(), 10), ("2".to_string(), 30), ("4".to_string(), 5)]);

    // a single minimum takes from the ids in ascending order
    let t = get_token_amounts_to_transfer(&mut storage, 12, TokenAmount::Single(1)).unwrap();
    assert_eq!(t.entries, vec![("1".to_string(), 10), ("2".to_string(), 2)]);
    assert_eq!(storage.entries, vec![("2".to_string(), 28), ("4".to_string(), 5)]);
}

#[test]
fn reply_of_the_liquidity_token() {
    let mut data = vec![0x0a, 9];
    data.extend_from_slice(b"contract7");
    assert_eq!(parse_lp_token_reply(0, Ok(Some(data.clone()))), Ok("contract7".to_string()));
    assert_eq!(parse_lp_token_reply(3, Ok(Some(data))), Err(ContractError::UnknownReplyId { id: 3 }));
    assert_eq!(parse_lp_token_reply(0, Ok(None)), Err(ContractError::InstantiateLpTokenError {}));
    assert_eq!(parse_lp_token_reply(0, Err("failed".to_string())), Err(ContractError::InstantiateLpTokenError {}));
    assert_eq!(parse_lp_token_reply(0, Ok(Some(vec![0x12, 1, 0]))), Err(ContractError::InstantiateLpTokenError {}));
}

#[test]
fn seed_is_the_base64_of_the_digest() {
    let amount: u128 = 123_456_789;
    let height: u64 = 42;
    let mut hasher = sha2::Sha256::new();
    hasher.update(amount.to_le_bytes());
    hasher.update(height.to_le_bytes());
    let expected = base64ct::Base64::encode_string(&hasher.finalize());
    assert_eq!(get_seed(amount, height), expected);
    assert_ne!(get_seed(amount, height), get_seed(amount, height + 1));
}

#[test]
fn info_of_a_pool_without_its_liquidity_token() {
    let state = State {
        lp_address: None,
        token1155: Token { reserve: 0, denom: Denom::Cw1155("tokens".to_string(), "X".to_string()) },
        token2: Token { reserve: 0, denom: Denom::Native("juno".to_string()) },
        token_supplies: TokenSupplies::new(),
        owner: "owner".to_string(),
        pending_owner: None,
        max_slippage_percent: dec("1"),
        fees: Fees { protocol_fee_recipient: "owner".to_string(), protocol_fee_percent: Decimal::zero(), lp_fee_percent: dec("0.3") },
        frozen: false,
    };
    assert_eq!(
        query_info(&state, Ok(0)),
        Err(StdError::NotFound { kind: "type: cosmwasm_std::addr::Addr; key: [6C, 70, 5F, 74, 6F, 6B, 65, 6E]".to_string() })
    );
}

#[test]
fn slippage_percent_must_stay_below_ten() {
    let ten = dec("10");
    assert_eq!(validate_slippage_percent(ten), Err(ContractError::InvalidPercent { percent: ten, max: ten }));
    assert_eq!(validate_slippage_percent(dec("9.999")), Ok(()));
}

#[test]
fn price_stays_under_the_fee_free_share_and_grows_with_the_input() {
    let (rin, rout) = (1_000u128, 5_000u128);
    let p100 = get_input_price(100, rin, rout, dec("0.3")).unwrap();
    assert_eq!(p100, 453);
    assert!(p100 * (rin + 100) <= 100 * rout);
    let p200 = get_input_price(200, rin, rout, dec("0.3")).unwrap();
    assert_eq!(p200, 831);
    assert!(p100 <= p200);
    let no_fee = get_input_price(100, rin, rout, Decimal::zero()).unwrap();
    let high_fee = get_input_price(100, rin, rout, dec("5")).unwrap();
    assert_eq!((no_fee, high_fee), (454, 433));
    assert!(high_fee <= p100 && p100 <= no_fee);
}

#[test]
fn equal_amounts_give_the_same_batch_whatever_their_order() {
    let owner = "from".to_string();
    let recipient = "to".to_string();
    let contract = "tokens".to_string();
    let first = get_cw1155_transfer_msg(&owner, &recipient, &contract, &map(&[("b", 2), ("c", 3), ("a", 1)]));
    let second = get_cw1155_transfer_msg(&owner, &recipient, &contract, &map(&[("c", 3), ("a", 1), ("b", 2)]));
    assert_eq!(first, second);
}

#[test]
fn a_single_minimum_drains_whole_supplies_then_part_of_the_next() {
    let mut storage = TokenSupplies::new();
    for (id, supply) in [("c", 3u128), ("a", 5), ("b", 7)] {
        storage.put(id.to_string(), supply);
    }
    let t = get_token_amounts_to_transfer(&mut storage, 9, TokenAmount::Single(1)).unwrap();
    assert_eq!(t.entries, vec![("a".to_string(), 5), ("b".to_string(), 4)]);
    assert_eq!(storage.entries, vec![("b".to_string(), 3), ("c".to_string(), 3)]);

    let err = get_token_amounts_to_transfer(&mut storage, 7, TokenAmount::Single(1)).unwrap_err();
    assert_eq!(err, ContractError::InsufficientTokenSupply { requested: 7, available: 6 });
}
