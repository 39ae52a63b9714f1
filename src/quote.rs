//! The arithmetic of a trade, apart from any state: what a buy mints and
//! locks, what a sale redeems and releases, and when a position may be
//! liquidated.
use crate::error::Error;
use crate::fixed::{
    ask_of, ask_price, bid_of, bid_price, fits_u128, lemma_prices_bracket_mid, mul_div,
    permill_mul, permill_of, units_at, units_of, value_at, value_of, PERMILL_ONE,
};
use vstd::prelude::*;

verus! {

/// Collateral that value `v` needs with an additional ratio `r` on top.
pub open spec fn with_ratio(v: int, r: int) -> int {
    v + permill_of(r, v)
}

/// A buy of collateral `c` at mid price `p`, spread `s` and additional
/// collateral ratio `r`: the synthetic units minted and the additional
/// collateral the pool locks, or `None` where a step overflows.
pub open spec fn buy_quote_spec(p: int, s: int, r: int, c: int) -> Option<(int, int)> {
    let ask = ask_of(p, s);
    let syn = units_of(c, ask);
    let val = value_of(syn, p);
    let req = with_ratio(val, r);
    if fits_u128(ask) && fits_u128(syn) && fits_u128(val) && fits_u128(req) {
        Some((syn, if req > c { req - c } else { 0 }))
    } else {
        None
    }
}

/// A sale of `amount` units out of a position of `syn` units backed by
/// `coll`, where `burn` units (the sale and any dust swept with it) leave
/// the position: the collateral redeemed to the trader for `amount`, and
/// the collateral the position releases: what its rest no longer needs, and
/// never less than the redemption. A redemption above the whole position is
/// refused.
pub open spec fn sell_quote_spec(
    p: int,
    s: int,
    r: int,
    coll: int,
    syn: int,
    amount: int,
    burn: int,
) -> Result<(int, int), Error> {
    let red = value_of(amount, bid_of(p, s));
    let rest_val = value_of(syn - burn, p);
    let req = with_ratio(rest_val, r);
    if !(fits_u128(red) && fits_u128(rest_val) && fits_u128(req)) {
        Err(Error::NumericOverflow)
    } else {
        let surplus = if coll > req { coll - req } else { 0 };
        if red > coll {
            Err(Error::UnderCollateralizedPosition)
        } else {
            Ok((red, if surplus > red { surplus } else { red }))
        }
    }
}

/// Whether a position of `syn` units backed by `coll` is safe at mid price
/// `p` and liquidation ratio `l`: its collateral covers its value with the
/// ratio on top.
pub open spec fn is_safe_spec(p: int, l: int, coll: int, syn: int) -> bool {
    coll >= with_ratio(value_of(syn, p), l)
}

/// A liquidation of `amount` units out of a position of `syn` units backed
/// by `coll`, where `burn` units (the amount and any dust swept with it)
/// leave the position: the collateral paid to the liquidator and the
/// collateral the position releases, a proportional share. The payment is
/// the bid value, at most the share, less the penalty ratio `pen` of it.
pub open spec fn liquidation_quote_spec(
    p: int,
    s: int,
    l: int,
    pen: int,
    coll: int,
    syn: int,
    amount: int,
    burn: int,
) -> Result<(int, int), Error> {
    let val = value_of(syn, p);
    let th = with_ratio(val, l);
    if !(fits_u128(val) && fits_u128(th)) {
        Err(Error::NumericOverflow)
    } else if coll >= th {
        Err(Error::StillInSafePosition)
    } else {
        let red = value_of(amount, bid_of(p, s));
        let delta = coll * burn / syn;
        let gross = if red < delta { red } else { delta };
        if !fits_u128(red) {
            Err(Error::NumericOverflow)
        } else {
            Ok((gross - permill_of(pen, gross), delta))
        }
    }
}

/// Buying with collateral `c` and at once selling every unit bought, at one
/// mid price, spread and ratio, redeems at most `c`.
pub proof fn lemma_buy_then_sell_never_gains(
    p: int,
    s: int,
    r: int,
    c: int,
    coll: int,
    syn: int,
    bought: int,
    add: int,
    red: int,
    delta: int,
)
    requires
        p > 0,
        0 <= s <= PERMILL_ONE,
        c >= 0,
        buy_quote_spec(p, s, r, c) == Some((bought, add)),
        sell_quote_spec(p, s, r, coll, syn, bought, bought) == Ok::<(int, int), Error>((red, delta)),
    ensures
        red <= c,
{
    crate::fixed::lemma_round_trip_never_gains(c, p, s);
}

fn add_ratio(v: u128, r: u32) -> (out: Option<u128>)
    requires
        r <= PERMILL_ONE,
    ensures
        out == (if fits_u128(with_ratio(v as int, r as int)) {
            Some(with_ratio(v as int, r as int) as u128)
        } else {
            None::<u128>
        }),
{
    v.checked_add(permill_mul(r, v))
}

/// Synthetic units minted and additional collateral locked by a buy.
pub fn quote_buy(price: u128, spread: u32, ratio: u32, collateral: u128) -> (out: Option<(u128, u128)>)
    requires
        price > 0,
        spread <= PERMILL_ONE,
        ratio <= PERMILL_ONE,
    ensures
        match buy_quote_spec(price as int, spread as int, ratio as int, collateral as int) {
            None => out is None,
            Some((syn, add)) => out == Some((syn as u128, add as u128)),
        },
{
    proof {
        lemma_prices_bracket_mid(price as int, spread as int);
    }
    let ask = match ask_price(price, spread) {
        None => return None,
        Some(a) => a,
    };
    let syn = match units_at(collateral, ask) {
        None => return None,
        Some(x) => x,
    };
    let val = match value_at(syn, price) {
        None => return None,
        Some(x) => x,
    };
    let req = match add_ratio(val, ratio) {
        None => return None,
        Some(x) => x,
    };
    let add = if req > collateral {
        req - collateral
    } else {
        0
    };
    Some((syn, add))
}

/// Collateral redeemed to the trader and released by the position in a sale.
pub fn quote_sell(
    price: u128,
    spread: u32,
    ratio: u32,
    coll: u128,
    syn: u128,
    amount: u128,
    burn: u128,
) -> (out: Result<(u128, u128), Error>)
    requires
        spread <= PERMILL_ONE,
        ratio <= PERMILL_ONE,
        amount <= burn <= syn,
    ensures
        match sell_quote_spec(
            price as int,
            spread as int,
            ratio as int,
            coll as int,
            syn as int,
            amount as int,
            burn as int,
        ) {
            Err(e) => out == Err::<(u128, u128), Error>(e),
            Ok((red, delta)) => out == Ok::<(u128, u128), Error>((red as u128, delta as u128)),
        },
{
    let bid = bid_price(price, spread);
    let red = match value_at(amount, bid) {
        None => return Err(Error::NumericOverflow),
        Some(x) => x,
    };
    let rest_val = match value_at(syn - burn, price) {
        None => return Err(Error::NumericOverflow),
        Some(x) => x,
    };
    let req = match add_ratio(rest_val, ratio) {
        None => return Err(Error::NumericOverflow),
        Some(x) => x,
    };
    let surplus = if coll > req {
        coll - req
    } else {
        0
    };
    if red > coll {
        return Err(Error::UnderCollateralizedPosition);
    }
    Ok((red, if surplus > red {
        surplus
    } else {
        red
    }))
}

/// Whether a position is safe from liquidation; `None` on overflow.
pub fn is_safe(price: u128, liquidation_ratio: u32, coll: u128, syn: u128) -> (out: Option<bool>)
    requires
        liquidation_ratio <= PERMILL_ONE,
    ensures
        out == (if fits_u128(value_of(syn as int, price as int)) && fits_u128(
            with_ratio(value_of(syn as int, price as int), liquidation_ratio as int),
        ) {
            Some(is_safe_spec(price as int, liquidation_ratio as int, coll as int, syn as int))
        } else {
            None::<bool>
        }),
{
    let val = match value_at(syn, price) {
        None => return None,
        Some(x) => x,
    };
    match add_ratio(val, liquidation_ratio) {
        None => None,
        Some(th) => Some(coll >= th),
    }
}

/// Collateral paid to the liquidator and released by the position in a
/// liquidation.
pub fn quote_liquidation(
    price: u128,
    spread: u32,
    liquidation_ratio: u32,
    penalty: u32,
    coll: u128,
    syn: u128,
    amount: u128,
    burn: u128,
) -> (out: Result<(u128, u128), Error>)
    requires
        spread <= PERMILL_ONE,
        liquidation_ratio <= PERMILL_ONE,
        penalty <= PERMILL_ONE,
        amount <= burn <= syn,
    ensures
        match liquidation_quote_spec(
            price as int,
            spread as int,
            liquidation_ratio as int,
            penalty as int,
            coll as int,
            syn as int,
            amount as int,
            burn as int,
        ) {
            Err(e) => out == Err::<(u128, u128), Error>(e),
            Ok((paid, delta)) => out == Ok::<(u128, u128), Error>((paid as u128, delta as u128)),
        },
        liquidation_quote_spec(
            price as int,
            spread as int,
            liquidation_ratio as int,
            penalty as int,
            coll as int,
            syn as int,
            amount as int,
            burn as int,
        ) matches Ok((paid, delta)) ==> 0 <= paid <= delta <= coll,
{
    match is_safe(price, liquidation_ratio, coll, syn) {
        None => return Err(Error::NumericOverflow),
        Some(true) => return Err(Error::StillInSafePosition),
        Some(false) => {},
    }
    let bid = bid_price(price, spread);
    let red = match value_at(amount, bid) {
        None => return Err(Error::NumericOverflow),
        Some(x) => x,
    };
    proof {
        assert(syn > 0) by {
            if syn == 0 {
                assert(value_of(0, price as int) == 0);
            }
        }
        assert(coll as int * burn as int <= coll as int * syn as int) by (nonlinear_arith)
            requires burn <= syn;
        vstd::arithmetic::div_mod::lemma_div_is_ordered(
            coll as int * burn as int,
            coll as int * syn as int,
            syn as int,
        );
        vstd::arithmetic::div_mod::lemma_div_multiples_vanish(coll as int, syn as int);
        assert(syn as int * coll as int == coll as int * syn as int) by (nonlinear_arith);
    }
    let delta = match mul_div(coll, burn, syn) {
        None => return Err(Error::NumericOverflow),
        Some(x) => x,
    };
    let gross = if red < delta {
        red
    } else {
        delta
    };
    Ok((gross - permill_mul(penalty, gross), delta))
}

} // verus!
