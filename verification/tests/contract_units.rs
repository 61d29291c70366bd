use std::str::FromStr;

use ixo_swap::contract::{get_lp_token_amount_to_mint, get_token2_amount_required, validate_slippage, validate_slippage_percent};
use ixo_swap::decimal::Decimal;
use ixo_swap::error::{ContractError, StdError};
use ixo_swap::pricing::get_input_price;
use ixo_swap::supplies::{get_token_amounts_to_transfer, TokenSupplies};
use ixo_swap::token_amount::{TokenAmount, TokenMap};

/// The decimal written as `s`.
fn dec(s: &str) -> Decimal {
    Decimal::from_atomics(cosmwasm_std::Decimal::from_str(s).unwrap().atomics().u128())
}

fn map(pairs: &[(&str, u128)]) -> TokenMap {
    TokenMap::from_pairs(pairs.iter().map(|(k, v)| (k.to_string(), *v)).collect())
}

fn supplies(pairs: &[(&str, u128)]) -> TokenSupplies {
    let mut s = TokenSupplies::new();
    for (k, v) in pairs {
        s.put(k.to_string(), *v);
    }
    s
}

fn assert_token_supplies(storage: &TokenSupplies, token_amounts: &TokenMap, token_supplies: &[(&str, u128)]) {
    for (id, amount) in token_amounts.entries.iter() {
        let initial_token_supply = token_supplies.iter().find(|(k, _)| *k == id.as_str()).unwrap().1;
        let updated_token_supply = storage.get(id).unwrap_or(0);
        assert_eq!(updated_token_supply + amount, initial_token_supply)
    }
}

#[test]
fn should_return_lp_token_amount() {
    let liquidity = get_lp_token_amount_to_mint(100, 0, 0).unwrap();
    assert_eq!(liquidity, 100);

    let liquidity = get_lp_token_amount_to_mint(100, 50, 25).unwrap();
    assert_eq!(liquidity, 200);
}

#[test]
fn should_return_token_amount() {
    let liquidity = get_token2_amount_required(100, 50, 0, 0, 0).unwrap();
    assert_eq!(liquidity, 100);

    let liquidity = get_token2_amount_required(200, 50, 50, 100, 25).unwrap();
    assert_eq!(liquidity, 201);
}

#[test]
fn should_return_input_price() {
    let fee_percent = dec("0.3");
    // Base case
    assert_eq!(get_input_price(10, 100, 100, fee_percent).unwrap(), 9);
}

#[test]
fn should_fail_returning_input_price() {
    let fee_percent = dec("0.3");
    let no_liquidity = StdError::GenericErr { msg: "No liquidity".to_string() };

    // No input reserve error
    let err = get_input_price(10, 0, 100, fee_percent).unwrap_err();
    assert_eq!(err, no_liquidity);

    // No output reserve error
    let err = get_input_price(10, 100, 0, fee_percent).unwrap_err();
    assert_eq!(err, no_liquidity);

    // No reserve error
    let err = get_input_price(10, 0, 0, fee_percent).unwrap_err();
    assert_eq!(err, no_liquidity);
}

#[test]
fn should_fail_returning_token_amounts_to_transfer_when_insufficient_supply_of_min_token() {
    let mut storage = supplies(&[("1", 1)]);
    let token_amounts = map(&[("1", 100)]);

    let err = get_token_amounts_to_transfer(&mut storage, 500, TokenAmount::Multiple(token_amounts)).unwrap_err();

    assert_eq!(err, ContractError::MinToken1155Error { available: 1, requested: 100 });
}

#[test]
fn should_return_token_amounts_to_transfer_when_multiple_input_token_provided() {
    let token_supplies = [("1", 500), ("2", 500), ("3", 500)];
    let mut storage = supplies(&token_supplies);
    let min_token_amounts = map(&[("1", 100)]);

    let token_amounts_to_transfer =
        get_token_amounts_to_transfer(&mut storage, 501, TokenAmount::Multiple(min_token_amounts)).unwrap();

    assert_token_supplies(&storage, &token_amounts_to_transfer, &token_supplies);
    assert_eq!(TokenAmount::Multiple(token_amounts_to_transfer).get_total(), 501)
}

#[test]
fn should_fail_token_amounts_to_transfer_is_less_than_supply() {
    let token_supplies = [("1", 100), ("2", 200), ("3", 300)];
    let mut storage = supplies(&token_supplies);
    let token_amounts = map(&token_supplies);

    let err = get_token_amounts_to_transfer(&mut storage, 1000, TokenAmount::Multiple(token_amounts)).unwrap_err();

    assert_eq!(err, ContractError::InsufficientTokenSupply { requested: 1_000, available: 600 });
}

#[test]
fn should_return_any_token_amounts_to_transfer_when_single_input_token_provided() {
    let token_supplies = [("1", 1000), ("2", 1000), ("3", 1000)];
    let mut storage = supplies(&token_supplies);

    let token_amounts_to_transfer =
        get_token_amounts_to_transfer(&mut storage, 500, TokenAmount::Single(300)).unwrap();

    assert_token_supplies(&storage, &token_amounts_to_transfer, &token_supplies);
    assert_eq!(TokenAmount::Multiple(token_amounts_to_transfer).get_total(), 500)
}

#[test]
fn should_fail_slippage_validation_when_min_token_amount_less_than_minimum_required() {
    let min_token_amount = 95_000;
    let actual_token_amount = 110_000;
    let err = validate_slippage(dec("2"), min_token_amount, actual_token_amount).unwrap_err();

    assert_eq!(
        err,
        ContractError::MinTokenAmountError {
            min_token: min_token_amount,
            min_required: 107_800 // 110_000 * 0.98 (2% slippage) = 107_800
        }
    );
}

#[test]
fn should_pass_slippage_validation_when_minimum_amount_greater_then_minimum_required() {
    let min_token_amount = 109_900; // 110_000 * 0.999 (0.1% slippage) = 109_890
    let actual_token_amount = 110_000;
    let res = validate_slippage(dec("0.1"), min_token_amount, actual_token_amount).unwrap();

    assert_eq!(res, ());
}

#[test]
fn should_fail_slippage_percent_validation_when_slippage_too_high() {
    let percent = dec("10.1");
    let err = validate_slippage_percent(percent).unwrap_err();
    assert_eq!(err, ContractError::InvalidPercent { percent, max: dec("10") });
}

#[test]
fn should_fail_slippage_percent_validation_when_percent_is_0() {
    let percent = dec("0");
    let err = validate_slippage_percent(percent).unwrap_err();
    assert_eq!(err, ContractError::InvalidPercent { percent, max: dec("10") });
}

#[test]
fn should_pass_slippage_percent_validation_when_percent_in_allowed_range() {
    let res = validate_slippage_percent(dec("0.5")).unwrap();
    assert_eq!(res, ());
}

#[test]
fn should_return_fee_amount_when_single_input_token_provided() {
    let token_amount = TokenAmount::Single(26000);
    let fee = token_amount.get_percent(dec("1")).unwrap().unwrap();

    assert_eq!(fee.get_total(), 260)
}

#[test]
fn should_return_fee_amount_when_multiple_input_token_provided_and_two_token_amount_are_over() {
    let token_amount = TokenAmount::Multiple(map(&[("1", 10), ("2", 17234), ("3", 10), ("4", 8746)]));
    let fee = token_amount.get_percent(dec("1")).unwrap().unwrap();

    assert_eq!(fee.get_total(), 260)
}

#[test]
fn should_return_fee_amount_when_multiple_input_token_provided() {
    let token_amount = TokenAmount::Multiple(map(&[("1", 9621), ("2", 15123), ("3", 1256)]));
    let fee = token_amount.get_percent(dec("1")).unwrap().unwrap();

    assert_eq!(fee.get_total(), 260)
}

#[test]
fn should_return_error_when_get_multiple_called_for_single_amount() {
    let token_amount = TokenAmount::Single(26000);
    let error = token_amount.get_multiple().err().unwrap();

    assert_eq!(ContractError::InvalidTokenAmount { amount: 26000 }, error)
}

#[test]
fn should_return_error_when_get_single_called_for_multiple_amount() {
    let token_amount = TokenAmount::Multiple(map(&[("1", 1234), ("2", 4321)]));
    let error = token_amount.get_single().err().unwrap();

    assert_eq!(ContractError::InvalidTokenAmount { amount: 5555 }, error)
}
