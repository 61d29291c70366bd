//! The price of a swap on the constant-product curve, and the amounts that reach the
//! reserves once the protocol's fee is taken.
use vstd::prelude::*;
use crate::decimal::Decimal;
use crate::error::{ContractError, StdError};
use crate::ids::{EntryView, ids_unique, view_entries};
use crate::token_amount::{
    AmountView, TokenAmount, TokenMap, amount_of, amount_total, lookup, total, total_defined, opt_amount_view,
    lemma_total_pointwise
};
use crate::utils::{SCALE_FACTOR, decimal_to_uint128, spec_decimal_to_uint128, lemma_pow256_64};
use crate::wide::{Wide, pow256, two_pow_128, u512_checked_add, u512_checked_div, u512_checked_mul};

verus! {

/// The input amount after the fee, in units of `SCALE_FACTOR`: `a * (10000 - f)`.
pub open spec fn input_with_fee(a: nat, f: nat) -> nat {
    (a * (10000 - f)) as nat
}

/// What `a` tokens buy from a pool holding `rin` of the input and `rout` of the output,
/// under a fee of `f` (in units of `SCALE_FACTOR`), rounded down:
/// `a(10000 - f) rout / (10000 rin + a(10000 - f))`.
pub open spec fn input_price(a: nat, rin: nat, rout: nat, f: nat) -> nat {
    (input_with_fee(a, f) * rout / (rin * 10000 + input_with_fee(a, f))) as nat
}

/// The outcome of a price query: no liquidity where a reserve is empty, the fee's
/// conversion error, or the price.
pub open spec fn spec_input_price(input_amount: u128, input_reserve: u128, output_reserve: u128, fee_percent: Decimal) -> Option<Result<u128, StdError>> {
    if input_reserve == 0 || output_reserve == 0 {
        None
    } else {
        match spec_decimal_to_uint128(fee_percent) {
            Err(e) => Some(Err(e)),
            Ok(f) => Some(Ok(input_price(input_amount as nat, input_reserve as nat, output_reserve as nat, f as nat) as u128)),
        }
    }
}

/// Whether the fee of a price query fits under the whole: a fee percent of at most 100.
pub open spec fn fee_fits(input_reserve: u128, output_reserve: u128, fee_percent: Decimal) -> bool {
    input_reserve != 0 && output_reserve != 0 ==> (
        spec_decimal_to_uint128(fee_percent) matches Ok(f) ==> f <= SCALE_FACTOR)
}

/// The bounds that make the price computable in 512 bits, and the price less than the
/// output reserve.
proof fn lemma_input_price_bounds(a: nat, rin: nat, rout: nat, f: nat)
    requires
        a < two_pow_128(),
        1 <= rin < two_pow_128(),
        1 <= rout < two_pow_128(),
        f <= 10000,
    ensures
        input_with_fee(a, f) < two_pow_128() * two_pow_128(),
        input_with_fee(a, f) * rout < pow256(64),
        rin * 10000 < two_pow_128() * two_pow_128(),
        rin * 10000 + input_with_fee(a, f) < pow256(64),
        rin * 10000 + input_with_fee(a, f) > 0,
        input_price(a, rin, rout, f) < rout,
{
    lemma_pow256_64();
    let t = two_pow_128();
    let x = input_with_fee(a, f);
    assert(x <= a * 10000) by (nonlinear_arith)
        requires x == a * (10000 - f), f <= 10000;
    assert(a * 10000 < t * t) by (nonlinear_arith)
        requires a < t, t > 10000;
    assert(rin * 10000 < t * t) by (nonlinear_arith)
        requires rin < t, t > 10000;
    assert(x * rout < t * t * t) by (nonlinear_arith)
        requires x < t * t, rout < t;
    assert(t * t * t < t * t * (t * t)) by (nonlinear_arith)
        requires t > 1;
    assert(t * t + t * t <= t * t * (t * t)) by (nonlinear_arith)
        requires t > 2;
    let d = rin * 10000 + x;
    assert(x * rout < d * rout) by (nonlinear_arith)
        requires d > x, rout >= 1;
    assert(x * rout / d < rout) by (nonlinear_arith)
        requires x * rout < d * rout, d > 0;
}

/// Calculates what `input_amount` buys: fails with "No liquidity" where either reserve is
/// empty; otherwise the fee percent is converted to units of `SCALE_FACTOR` and the price
/// is `input_price`, computed in 512 bits. The price is always below the output reserve.
pub fn get_input_price(input_amount: u128, input_reserve: u128, output_reserve: u128, fee_percent: Decimal) -> (r: Result<u128, StdError>)
    requires
        fee_fits(input_reserve, output_reserve, fee_percent),
    ensures
        match spec_input_price(input_amount, input_reserve, output_reserve, fee_percent) {
            None => r matches Err(StdError::GenericErr { msg }) && msg@ == "No liquidity"@,
            Some(x) => r == x,
        },
        r matches Ok(p) ==> p < output_reserve,
{
    if input_reserve == 0 || output_reserve == 0 {
        return Err(StdError::GenericErr { msg: String::from_str("No liquidity") });
    }
    let fee = match decimal_to_uint128(fee_percent) {
        Ok(f) => f,
        Err(e) => return Err(e),
    };
    let fee_reduction_percent = SCALE_FACTOR - fee;
    proof {
        lemma_input_price_bounds(input_amount as nat, input_reserve as nat, output_reserve as nat, fee as nat);
        lemma_pow256_64();
    }
    let input_amount_with_fee = match u512_checked_mul(&Wide::from_u128(input_amount), &Wide::from_u128(fee_reduction_percent)) {
        Some(x) => x,
        None => {
            proof { assert(false); }
            return Err(StdError::GenericErr { msg: String::from_str("No liquidity") });
        },
    };
    let numerator = match u512_checked_mul(&input_amount_with_fee, &Wide::from_u128(output_reserve)) {
        Some(x) => x,
        None => {
            proof { assert(false); }
            return Err(StdError::GenericErr { msg: String::from_str("No liquidity") });
        },
    };
    let scaled_reserve = match u512_checked_mul(&Wide::from_u128(input_reserve), &Wide::from_u128(SCALE_FACTOR)) {
        Some(x) => x,
        None => {
            proof { assert(false); }
            return Err(StdError::GenericErr { msg: String::from_str("No liquidity") });
        },
    };
    let denominator = match u512_checked_add(&scaled_reserve, &input_amount_with_fee) {
        Some(x) => x,
        None => {
            proof { assert(false); }
            return Err(StdError::GenericErr { msg: String::from_str("No liquidity") });
        },
    };
    let quotient = match u512_checked_div(&numerator, &denominator) {
        Some(x) => x,
        None => {
            proof { assert(false); }
            return Err(StdError::GenericErr { msg: String::from_str("No liquidity") });
        },
    };
    match quotient.to_u128() {
        Some(p) => Ok(p),
        None => {
            proof { assert(false); }
            Err(StdError::GenericErr { msg: String::from_str("No liquidity") })
        },
    }
}

/// The constant product does not fall: the input reserve grown by the input after the fee
/// (in units of `SCALE_FACTOR`), times the output reserve less the price, is at least the
/// product before.
pub proof fn lemma_input_price_keeps_product(a: nat, rin: nat, rout: nat, f: nat)
    requires
        f <= 10000,
        rin >= 1,
    ensures
        input_price(a, rin, rout, f) <= rout,
        (rin * 10000 + input_with_fee(a, f)) * (rout - input_price(a, rin, rout, f)) >= rin * 10000 * rout,
{
    let x = input_with_fee(a, f);
    let d = rin * 10000 + x;
    let q = input_price(a, rin, rout, f);
    assert(x >= 0) by (nonlinear_arith)
        requires x == a * (10000 - f), f <= 10000;
    assert(d > 0);
    assert(q * d <= x * rout) by (nonlinear_arith)
        requires q == x * rout / d, d > 0, x >= 0, rout >= 0;
    assert(x * rout <= d * rout) by (nonlinear_arith)
        requires x <= d, rout >= 0;
    assert(q <= rout) by (nonlinear_arith)
        requires q * d <= d * rout, d > 0, q >= 0;
    assert(d * (rout - q) == d * rout - d * q) by (nonlinear_arith);
    assert(d * rout - x * rout == rin * 10000 * rout) by (nonlinear_arith)
        requires d == rin * 10000 + x;
}

/// Of two inputs with fees, the larger input after its fee never buys less.
proof fn lemma_price_monotone_in_input(x1: nat, x2: nat, c: nat, rout: nat)
    requires
        x1 <= x2,
        c >= 1,
    ensures
        x1 * rout / (c + x1) <= x2 * rout / (c + x2),
{
    let d1 = c + x1;
    let d2 = c + x2;
    let q1 = x1 * rout / d1;
    let q2 = x2 * rout / d2;
    assert(q1 * d1 <= x1 * rout) by (nonlinear_arith)
        requires q1 == x1 * rout / d1, d1 > 0;
    assert(x1 * rout * d2 <= x2 * rout * d1) by (nonlinear_arith)
        requires d1 == c + x1, d2 == c + x2, x1 <= x2;
    assert(q1 * d1 * d2 <= x2 * rout * d1) by (nonlinear_arith)
        requires q1 * d1 <= x1 * rout, x1 * rout * d2 <= x2 * rout * d1, d2 >= 0;
    assert(q1 * d2 <= x2 * rout) by (nonlinear_arith)
        requires q1 * d1 * d2 <= x2 * rout * d1, d1 > 0;
    assert(q1 <= q2) by (nonlinear_arith)
        requires q1 * d2 <= x2 * rout, q2 == x2 * rout / d2, d2 > 0, q1 >= 0;
}

/// The price never exceeds what the input would buy with no fee and no rounding:
/// `price * (rin + a) <= a * rout`.
pub proof fn lemma_input_price_bound(a: nat, rin: nat, rout: nat, f: nat)
    requires
        f <= 10000,
        rin >= 1,
    ensures
        input_price(a, rin, rout, f) * (rin + a) <= a * rout,
{
    let x = input_with_fee(a, f);
    let d = rin * 10000 + x;
    let q = input_price(a, rin, rout, f);
    assert(x <= a * 10000) by (nonlinear_arith)
        requires x == a * (10000 - f), f <= 10000;
    assert(q * d <= x * rout) by (nonlinear_arith)
        requires q == x * rout / d, d > 0;
    assert(x * (rin + a) <= a * d) by (nonlinear_arith)
        requires x <= a * 10000, d == rin * 10000 + x;
    assert(q * (rin + a) * d <= a * rout * d) by (nonlinear_arith)
        requires q * d <= x * rout, x * (rin + a) <= a * d, rout >= 0, rin + a >= 0;
    assert(q * (rin + a) <= a * rout) by (nonlinear_arith)
        requires q * (rin + a) * d <= a * rout * d, d > 0;
}

/// The price never falls as the input grows or as the fee shrinks.
pub proof fn lemma_input_price_monotone(a1: nat, a2: nat, rin: nat, rout: nat, f1: nat, f2: nat)
    requires
        a1 <= a2,
        f2 <= f1 <= 10000,
        rin >= 1,
    ensures
        input_price(a1, rin, rout, f1) <= input_price(a2, rin, rout, f2),
{
    assert(input_with_fee(a1, f1) <= input_with_fee(a2, f2)) by (nonlinear_arith)
        requires a1 <= a2, f2 <= f1 <= 10000,
            input_with_fee(a1, f1) == a1 * (10000 - f1), input_with_fee(a2, f2) == a2 * (10000 - f2);
    lemma_price_monotone_in_input(input_with_fee(a1, f1), input_with_fee(a2, f2), rin * 10000, rout);
    assert(rin * 10000 + input_with_fee(a1, f1) == input_with_fee(a1, f1) + rin * 10000);
}

/// A swap that adds to the input reserve at least the input after the fee keeps the
/// product of the reserves from falling: `(rin + added) * (rout - price) >= rin * rout`.
pub proof fn lemma_swap_keeps_product(a: nat, added: nat, rin: nat, rout: nat, f: nat)
    requires
        f <= 10000,
        rin >= 1,
        added * 10000 >= input_with_fee(a, f),
    ensures
        (rin + added) * (rout - input_price(a, rin, rout, f)) >= rin * rout,
{
    lemma_input_price_keeps_product(a, rin, rout, f);
    let x = input_with_fee(a, f);
    let q = input_price(a, rin, rout, f);
    let m: nat = (rout - q) as nat;
    assert((rin + added) * 10000 * m >= (rin * 10000 + x) * m) by (nonlinear_arith)
        requires (rin + added) * 10000 >= rin * 10000 + x, m >= 0;
    assert((rin + added) * 10000 * m == ((rin + added) * m) * 10000) by (nonlinear_arith);
    assert(rin * 10000 * rout == (rin * rout) * 10000) by (nonlinear_arith);
}

/// Amounts per id less the fee of each id (zero where the fee names no such id).
pub open spec fn subtract_fees(s: Seq<EntryView>, fees: Seq<EntryView>) -> Seq<EntryView> {
    s.map_values(|e: EntryView| (e.0, (e.1 - amount_of(fees, e.0)) as u128))
}

/// The input amount less the protocol's fee: the amount itself where there is no fee; for
/// amounts per id, each id less its fee; for a single amount, the amount less the fee. A
/// fee of the other kind than the amount is an error holding the fee's total.
pub open spec fn spec_amount_without_fee(input: AmountView, fee: Option<AmountView>) -> Result<AmountView, ContractError> {
    match fee {
        None => Ok(input),
        Some(f) => match (input, f) {
            (AmountView::Multiple(s), AmountView::Multiple(fs)) => Ok(AmountView::Multiple(subtract_fees(s, fs))),
            (AmountView::Multiple(_), AmountView::Single(y)) => Err(ContractError::InvalidTokenAmount { amount: y }),
            (AmountView::Single(x), AmountView::Single(y)) => Ok(AmountView::Single((x - y) as u128)),
            (AmountView::Single(_), AmountView::Multiple(fs)) => Err(ContractError::InvalidTokenAmount { amount: total(fs) as u128 }),
        },
    }
}

/// Whether the fee can be taken from the amount: no id's fee exceeds its amount, and a
/// single fee does not exceed the single amount.
pub open spec fn fee_within(input: AmountView, fee: Option<AmountView>) -> bool {
    match fee {
        None => true,
        Some(f) => match (input, f) {
            (AmountView::Multiple(s), AmountView::Multiple(fs)) =>
                forall|i: int| 0 <= i < s.len() ==> amount_of(fs, (#[trigger] s[i]).0) <= s[i].1,
            (AmountView::Single(x), AmountView::Single(y)) => y <= x,
            (AmountView::Single(_), AmountView::Multiple(fs)) => total_defined(f),
            _ => true,
        },
    }
}

/// Calculates what reaches the reserves of an input amount once the protocol's fee is
/// taken, as `spec_amount_without_fee` says.
pub fn get_amount_without_fee(input_amount: &TokenAmount, fee_amount: Option<TokenAmount>) -> (r: Result<TokenAmount, ContractError>)
    requires
        input_amount.wf(),
        fee_amount matches Some(f) ==> f.wf(),
        fee_within(input_amount@, opt_amount_view(fee_amount)),
    ensures
        match spec_amount_without_fee(input_amount@, opt_amount_view(fee_amount)) {
            Ok(v) => r matches Ok(a) && a@ == v && a.wf(),
            Err(e) => r == Err::<TokenAmount, ContractError>(e),
        },
{
    match fee_amount {
        None => Ok(input_amount.copy()),
        Some(fee) => match input_amount {
            TokenAmount::Multiple(input_amounts) => {
                let fee_amounts = match fee.get_multiple() {
                    Ok(m) => m,
                    Err(e) => return Err(e),
                };
                let ghost s = input_amounts@;
                let ghost fs = fee_amounts@;
                let mut entries: Vec<(String, u128)> = Vec::new();
                let mut i: usize = 0;
                while i < input_amounts.entries.len()
                    invariant
                        i <= s.len(),
                        s == input_amounts@,
                        fs == fee_amounts@,
                        fee_amounts.wf(),
                        forall|j: int| 0 <= j < s.len() ==> amount_of(fs, (#[trigger] s[j]).0) <= s[j].1,
                        view_entries(entries@) == subtract_fees(s, fs).take(i as int),
                    decreases s.len() - i,
                {
                    let id = input_amounts.entries[i].0.clone();
                    let amount = input_amounts.entries[i].1;
                    proof {
                        assert(s[i as int] == (input_amounts.entries@[i as int].0@, input_amounts.entries@[i as int].1));
                    }
                    let fee_of_id = match fee_amounts.get(&id) {
                        Some(x) => x,
                        None => 0,
                    };
                    proof {
                        assert(fee_of_id == amount_of(fs, s[i as int].0));
                    }
                    let ghost before = entries@;
                    entries.push((id, amount - fee_of_id));
                    proof {
                        assert(view_entries(entries@) =~= view_entries(before).push(subtract_fees(s, fs)[i as int]));
                        assert(subtract_fees(s, fs).take(i + 1) =~= subtract_fees(s, fs).take(i as int).push(subtract_fees(s, fs)[i as int]));
                    }
                    i = i + 1;
                }
                proof {
                    assert(subtract_fees(s, fs).take(s.len() as int) =~= subtract_fees(s, fs));
                    let t = subtract_fees(s, fs);
                    assert forall|a: int, b: int| 0 <= a < b < t.len() implies (#[trigger] t[a]).0 != (#[trigger] t[b]).0 by {
                        assert(t[a].0 == s[a].0);
                        assert(t[b].0 == s[b].0);
                    }
                }
                Ok(TokenAmount::Multiple(TokenMap { entries }))
            },
            TokenAmount::Single(amount) => {
                let fee_single = match fee.get_single() {
                    Ok(x) => x,
                    Err(e) => return Err(e),
                };
                Ok(TokenAmount::Single(*amount - fee_single))
            },
        },
    }
}

/// The lookup of an id in amounts less their fees.
proof fn lemma_subtract_fees_lookup(s: Seq<EntryView>, fs: Seq<EntryView>, k: Seq<char>)
    ensures
        lookup(subtract_fees(s, fs), k) == match lookup(s, k) {
            Some(v) => Some((v - amount_of(fs, k)) as u128),
            None => None,
        },
    decreases s.len(),
{
    if s.len() > 0 {
        let t = s.drop_first();
        lemma_subtract_fees_lookup(t, fs, k);
        assert(subtract_fees(s, fs).drop_first() =~= subtract_fees(t, fs));
        assert(subtract_fees(s, fs)[0] == (s[0].0, (s[0].1 - amount_of(fs, s[0].0)) as u128));
    }
}

/// The input splits into what reaches the reserve and the fee: where no id's fee exceeds
/// its amount and the fee names only ids of the input, the amounts less their fees and
/// the fees total the input.
pub proof fn lemma_fee_split(s: Seq<EntryView>, fs: Seq<EntryView>)
    requires
        ids_unique(s),
        ids_unique(fs),
        forall|k: Seq<char>| #[trigger] amount_of(fs, k) <= amount_of(s, k),
    ensures
        total(subtract_fees(s, fs)) + total(fs) == total(s),
{
    let w = subtract_fees(s, fs);
    assert forall|a: int, b: int| 0 <= a < b < w.len() implies (#[trigger] w[a]).0 != (#[trigger] w[b]).0 by {
        assert(w[a].0 == s[a].0);
        assert(w[b].0 == s[b].0);
    }
    assert forall|k: Seq<char>| #[trigger] amount_of(s, k) == amount_of(w, k) + amount_of(fs, k) by {
        lemma_subtract_fees_lookup(s, fs, k);
        assert(amount_of(fs, k) <= amount_of(s, k));
    }
    lemma_total_pointwise(w, fs, s);
}

/// What reaches the reserves and the fee together make up the input: where the fee is of
/// the input's kind and takes no more of an id than the input has, the input less the fee
/// totals the input's total less the fee's total.
pub proof fn lemma_amount_without_fee_total(input: AmountView, fee: Option<AmountView>)
    requires
        input matches AmountView::Multiple(s) ==> ids_unique(s),
        fee matches Some(AmountView::Multiple(fs)) ==> ids_unique(fs),
        fee matches Some(f) ==> (f is Multiple <==> input is Multiple),
        fee matches Some(AmountView::Multiple(fs)) ==>
            forall|k: Seq<char>| #[trigger] amount_of(fs, k) <= amount_of(input->Multiple_0, k),
        fee matches Some(AmountView::Single(y)) ==> y <= input->Single_0,
    ensures
        spec_amount_without_fee(input, fee) matches Ok(w)
            && amount_total(w) + (if fee is Some { amount_total(fee->Some_0) } else { 0 }) == amount_total(input),
{
    if let Some(AmountView::Multiple(fs)) = fee {
        lemma_fee_split(input->Multiple_0, fs);
    }
}

} // verus!
