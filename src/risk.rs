//! Read-side risk figures of traders and pools, in signed fixed point:
//! each figure is an `i128` holding parts of `10^18`. Divisions truncate
//! toward zero; a ratio over a zero denominator is the sentinel `i128::MAX`.
use crate::fixed::{fits_u128, mul_div, DIV};
use vstd::arithmetic::div_mod::{lemma_div_is_ordered, lemma_fundamental_div_mod_converse};
use vstd::prelude::*;

verus! {

/// The value that stands for an infinite ratio.
pub const INFINITE: i128 = i128::MAX;

/// A trader's risk figures.
#[derive(Clone, Copy, Debug, PartialEq, Eq, Structural)]
pub struct TraderInfo {
    pub equity: i128,
    pub margin_held: i128,
    pub margin_level: i128,
    pub free_margin: i128,
    pub unrealized_pl: i128,
}

/// A pool's risk figures.
#[derive(Clone, Copy, Debug, PartialEq, Eq, Structural)]
pub struct PoolInfo {
    pub enp: i128,
    pub ell: i128,
    pub required_deposit: i128,
}

/// A trader's open margin position: its direction, size, volume-weighted
/// entry price and the margin held for it.
#[derive(Clone, Copy, Debug, PartialEq, Eq, Structural)]
pub struct MarginPosition {
    pub long: bool,
    pub amount: u128,
    pub entry_price: u128,
    pub margin_held: u128,
}

pub open spec fn fits_i128(x: int) -> bool {
    i128::MIN <= x <= i128::MAX
}

/// `n / d` truncated toward zero, for `d > 0`.
pub open spec fn trunc_div(n: int, d: int) -> int {
    if n >= 0 {
        n / d
    } else {
        -((-n) / d)
    }
}

/// The volume-weighted average of two entries.
pub open spec fn vwap_of(a0: int, e0: int, a: int, p: int) -> int {
    (a0 * e0 + a * p) / (a0 + a)
}

/// The profit (negative: loss) of position `p` at price `price`.
pub open spec fn pl_of(p: MarginPosition, price: int) -> int {
    let diff = if p.long {
        price - p.entry_price
    } else {
        p.entry_price - price
    };
    trunc_div(p.amount * diff, DIV as int)
}

pub open spec fn sum_pl(ps: Seq<MarginPosition>, prices: Seq<u128>) -> int
    decreases ps.len(),
{
    if ps.len() == 0 {
        0
    } else {
        sum_pl(ps.drop_last(), prices.take(ps.len() - 1)) + pl_of(ps.last(), prices[ps.len() - 1] as int)
    }
}

pub open spec fn sum_margin(ps: Seq<MarginPosition>) -> int
    decreases ps.len(),
{
    if ps.len() == 0 {
        0
    } else {
        sum_margin(ps.drop_last()) + ps.last().margin_held
    }
}

/// Every running total of profit, and every single profit, fits an `i128`.
pub open spec fn pl_fits(ps: Seq<MarginPosition>, prices: Seq<u128>) -> bool {
    forall|k: int| 0 < k <= ps.len() ==> #[trigger] prefix_fits(ps, prices, k)
}

/// The `k`-th profit, and the total of the first `k`, fit an `i128`.
pub open spec fn prefix_fits(ps: Seq<MarginPosition>, prices: Seq<u128>, k: int) -> bool {
    fits_i128(pl_of(ps[k - 1], prices[k - 1] as int)) && fits_i128(sum_pl(ps.take(k), prices.take(k)))
}

/// `equity` over `d`, in fixed point, or the sentinel where `d` is zero.
pub open spec fn ratio_of(equity: int, d: int) -> int {
    if d == 0 {
        INFINITE as int
    } else {
        trunc_div(equity * DIV as int, d)
    }
}

/// The trader's figures where each fits an `i128`.
pub open spec fn trader_info_spec(collateral: int, ps: Seq<MarginPosition>, prices: Seq<u128>) -> Option<
    TraderInfo,
> {
    let pl = sum_pl(ps, prices);
    let margin = sum_margin(ps);
    let equity = collateral + pl;
    let level = ratio_of(equity, margin);
    if pl_fits(ps, prices) && margin <= u128::MAX && fits_i128(margin) && fits_i128(equity)
        && fits_i128(equity - margin) && fits_i128(level) {
        Some(
            TraderInfo {
                equity: equity as i128,
                margin_held: margin as i128,
                margin_level: level as i128,
                free_margin: (equity - margin) as i128,
                unrealized_pl: pl as i128,
            },
        )
    } else {
        None
    }
}

/// The pool's figures where each fits an `i128`.
pub open spec fn pool_info_spec(equity: int, net: int, locked: int, enp_min: int, ell_min: int) -> Option<
    PoolInfo,
> {
    let need_enp = net * enp_min / DIV as int;
    let need_ell = locked * ell_min / DIV as int;
    let need = if need_enp > need_ell {
        need_enp
    } else {
        need_ell
    };
    let required = if need > equity {
        need - equity
    } else {
        0
    };
    if fits_u128(need_enp) && fits_u128(need_ell) && fits_i128(ratio_of(equity, net)) && fits_i128(
        ratio_of(equity, locked),
    ) && fits_i128(required) {
        Some(
            PoolInfo {
                enp: ratio_of(equity, net) as i128,
                ell: ratio_of(equity, locked) as i128,
                required_deposit: required as i128,
            },
        )
    } else {
        None
    }
}

/// A signed amount from its sign and magnitude, where it fits an `i128`.
fn signed(negative: bool, v: u128) -> (r: Option<i128>)
    ensures
        r == (if fits_i128(if negative {
            -v
        } else {
            v as int
        }) {
            Some((if negative {
                -v
            } else {
                v as int
            }) as i128)
        } else {
            None::<i128>
        }),
{
    if !negative {
        if v <= 0x7fff_ffff_ffff_ffff_ffff_ffff_ffff_ffff {
            Some(v as i128)
        } else {
            None
        }
    } else if v < 0x8000_0000_0000_0000_0000_0000_0000_0000 {
        Some(-(v as i128))
    } else if v == 0x8000_0000_0000_0000_0000_0000_0000_0000 {
        Some(i128::MIN)
    } else {
        None
    }
}

/// The magnitude of `x`.
fn magnitude(x: i128) -> (r: u128)
    ensures
        r as int == (if x < 0 {
            -x
        } else {
            x as int
        }),
{
    if x >= 0 {
        x as u128
    } else if x == i128::MIN {
        0x8000_0000_0000_0000_0000_0000_0000_0000
    } else {
        (-x) as u128
    }
}

/// `x` over `d` in fixed point, or the sentinel where `d` is zero.
fn ratio(x: i128, d: u128) -> (r: Option<i128>)
    ensures
        r == (if fits_i128(ratio_of(x as int, d as int)) {
            Some(ratio_of(x as int, d as int) as i128)
        } else {
            None::<i128>
        }),
{
    if d == 0 {
        return Some(INFINITE);
    }
    let m = magnitude(x);
    proof {
        if x < 0 {
            assert(-(x as int * DIV as int) == m as int * DIV as int) by (nonlinear_arith)
                requires m as int == -(x as int);
        } else {
            assert(x as int * DIV as int >= 0) by (nonlinear_arith) requires x >= 0;
        }
    }
    match mul_div(m, DIV, d) {
        None => {
            proof {
                if x < 0 {
                    assert(m as int * DIV as int / d as int > u128::MAX);
                }
            }
            None
        },
        Some(v) => signed(x < 0, v),
    }
}

/// The profit (negative: loss) of a position at `price`; `None` where it
/// does not fit an `i128`.
pub fn unrealized_pl(p: MarginPosition, price: u128) -> (r: Option<i128>)
    ensures
        r == (if fits_i128(pl_of(p, price as int)) {
            Some(pl_of(p, price as int) as i128)
        } else {
            None::<i128>
        }),
{
    let up = if p.long {
        price >= p.entry_price
    } else {
        p.entry_price >= price
    };
    let d: u128 = if price >= p.entry_price {
        price - p.entry_price
    } else {
        p.entry_price - price
    };
    proof {
        let diff = if p.long {
            price - p.entry_price
        } else {
            p.entry_price - price
        };
        if up {
            assert(diff == d as int);
            assert(p.amount * diff >= 0) by (nonlinear_arith) requires diff >= 0, p.amount >= 0;
        } else {
            assert(diff == -(d as int));
            assert(p.amount * diff == -(p.amount * d)) by (nonlinear_arith)
                requires diff == -(d as int);
            assert(p.amount * d >= 0) by (nonlinear_arith) requires d >= 0, p.amount >= 0;
            if p.amount * d == 0 {
                assert(p.amount * diff == 0);
            }
        }
    }
    match mul_div(p.amount, d, DIV) {
        None => {
            proof {
                assert(p.amount as int * d as int / DIV as int > u128::MAX);
            }
            None
        },
        Some(v) => {
            if v == 0 {
                Some(0)
            } else {
                signed(!up, v)
            }
        },
    }
}

/// The entry price after adding `amount` at `price` to a position of `a0`
/// entered at `e0`: the volume-weighted average, truncated.
pub fn weighted_entry(a0: u128, e0: u128, amount: u128, price: u128) -> (r: Option<u128>)
    requires
        a0 + amount > 0,
    ensures
        a0 + amount <= u128::MAX ==> r == Some(
            vwap_of(a0 as int, e0 as int, amount as int, price as int) as u128,
        ),
        a0 + amount > u128::MAX ==> r is None,
{
    let n = match a0.checked_add(amount) {
        None => return None,
        Some(n) => n,
    };
    if price >= e0 {
        let step = match mul_div(amount, price - e0, n) {
            None => {
                proof {
                    assert(amount as int * (price - e0) <= n as int * (price - e0)) by (nonlinear_arith)
                        requires amount <= n, price >= e0;
                    lemma_div_is_ordered(amount as int * (price - e0), n as int * (price - e0), n as int);
                    vstd::arithmetic::div_mod::lemma_div_multiples_vanish(price - e0, n as int);
                    assert(n as int * (price - e0) == (price - e0) * n as int) by (nonlinear_arith);
                }
                return None;
            },
            Some(s) => s,
        };
        proof {
            let m = amount as int * (price - e0);
            let q = m / n as int;
            vstd::arithmetic::div_mod::lemma_fundamental_div_mod(m, n as int);
            vstd::arithmetic::div_mod::lemma_mod_bound(m, n as int);
            assert(a0 as int * e0 as int + amount as int * price as int == (e0 as int + q) * n as int + m
                % n as int) by (nonlinear_arith)
                requires
                    m == amount as int * (price - e0),
                    m == n as int * q + m % n as int,
                    n as int == a0 + amount,
            ;
            lemma_fundamental_div_mod_converse(
                a0 as int * e0 as int + amount as int * price as int,
                n as int,
                e0 as int + q,
                m % n as int,
            );
            assert(q <= price - e0) by {
                assert(m <= n as int * (price - e0)) by (nonlinear_arith)
                    requires m == amount as int * (price - e0), amount <= n, price >= e0;
                lemma_div_is_ordered(m, n as int * (price - e0), n as int);
                vstd::arithmetic::div_mod::lemma_div_multiples_vanish(price - e0, n as int);
            }
        }
        Some(e0 + step)
    } else {
        let step = match mul_div(a0, e0 - price, n) {
            None => {
                proof {
                    assert(a0 as int * (e0 - price) <= n as int * (e0 - price)) by (nonlinear_arith)
                        requires a0 <= n, e0 >= price;
                    lemma_div_is_ordered(a0 as int * (e0 - price), n as int * (e0 - price), n as int);
                    vstd::arithmetic::div_mod::lemma_div_multiples_vanish(e0 - price, n as int);
                }
                return None;
            },
            Some(s) => s,
        };
        proof {
            let m = a0 as int * (e0 - price);
            let q = m / n as int;
            vstd::arithmetic::div_mod::lemma_fundamental_div_mod(m, n as int);
            vstd::arithmetic::div_mod::lemma_mod_bound(m, n as int);
            assert(a0 as int * e0 as int + amount as int * price as int == (price as int + q) * n as int
                + m % n as int) by (nonlinear_arith)
                requires
                    m == a0 as int * (e0 - price),
                    m == n as int * q + m % n as int,
                    n as int == a0 + amount,
            ;
            lemma_fundamental_div_mod_converse(
                a0 as int * e0 as int + amount as int * price as int,
                n as int,
                price as int + q,
                m % n as int,
            );
            assert(q <= e0 - price) by {
                assert(m <= n as int * (e0 - price)) by (nonlinear_arith)
                    requires m == a0 as int * (e0 - price), a0 <= n, e0 >= price;
                lemma_div_is_ordered(m, n as int * (e0 - price), n as int);
                vstd::arithmetic::div_mod::lemma_div_multiples_vanish(e0 - price, n as int);
            }
        }
        Some(price + step)
    }
}

/// `c + x`, where it fits an `i128`.
fn add_signed(c: u128, x: i128) -> (r: Option<i128>)
    ensures
        r == (if fits_i128(c + x) {
            Some((c + x) as i128)
        } else {
            None::<i128>
        }),
{
    if x >= 0 {
        match c.checked_add(x as u128) {
            None => None,
            Some(v) => signed(false, v),
        }
    } else {
        let m = magnitude(x);
        if c >= m {
            signed(false, c - m)
        } else {
            signed(true, m - c)
        }
    }
}

/// `c - x`, where it fits an `i128`.
fn sub_signed(c: u128, x: i128) -> (r: Option<i128>)
    ensures
        r == (if fits_i128(c - x) {
            Some((c - x) as i128)
        } else {
            None::<i128>
        }),
{
    if x < 0 {
        match c.checked_add(magnitude(x)) {
            None => None,
            Some(v) => signed(false, v),
        }
    } else if c >= x as u128 {
        signed(false, c - x as u128)
    } else {
        signed(true, x as u128 - c)
    }
}

proof fn lemma_margin_prefix(ps: Seq<MarginPosition>, k: int)
    requires
        0 <= k <= ps.len(),
    ensures
        0 <= sum_margin(ps.take(k)) <= sum_margin(ps),
    decreases ps.len(),
{
    if k == ps.len() {
        assert(ps.take(k) =~= ps);
        lemma_margin_nonneg(ps);
    } else {
        assert(ps.drop_last().take(k) =~= ps.take(k));
        lemma_margin_prefix(ps.drop_last(), k);
    }
}

proof fn lemma_margin_nonneg(ps: Seq<MarginPosition>)
    ensures
        sum_margin(ps) >= 0,
    decreases ps.len(),
{
    if ps.len() > 0 {
        lemma_margin_nonneg(ps.drop_last());
    }
}

/// A trader's figures: `collateral` plus the profit of each position at
/// the price of the same index is the equity; the margin level is equity
/// over margin held, `INFINITE` without margin; free margin is equity less
/// margin held. `None` where a figure, or a running total of profit, does
/// not fit an `i128`.
pub fn trader_info(collateral: u128, positions: &Vec<MarginPosition>, prices: &Vec<u128>) -> (r: Option<
    TraderInfo,
>)
    requires
        positions@.len() == prices@.len(),
    ensures
        r == trader_info_spec(collateral as int, positions@, prices@),
{
    let ghost ps = positions@;
    let ghost qs = prices@;
    let mut pl: i128 = 0;
    let mut margin: u128 = 0;
    let mut k: usize = 0;
    assert(ps.take(0) =~= Seq::<MarginPosition>::empty());
    while k < positions.len()
        invariant
            ps == positions@,
            qs == prices@,
            ps.len() == qs.len(),
            k <= ps.len(),
            pl as int == sum_pl(ps.take(k as int), qs.take(k as int)),
            margin as int == sum_margin(ps.take(k as int)),
            forall|j: int| 0 < j <= k ==> #[trigger] prefix_fits(ps, qs, j),
        decreases ps.len() - k,
    {
        proof {
            let a = ps.take(k + 1);
            let b = qs.take(k + 1);
            assert(a.drop_last() =~= ps.take(k as int));
            assert(b.take(k as int) =~= qs.take(k as int));
            assert(a.last() == ps[k as int]);
            assert(sum_pl(a, b) == sum_pl(ps.take(k as int), qs.take(k as int)) + pl_of(
                ps[k as int],
                qs[k as int] as int,
            ));
            assert(sum_margin(a) == sum_margin(ps.take(k as int)) + ps[k as int].margin_held);
            lemma_margin_prefix(ps, k + 1);
        }
        let pos = positions[k];
        let price = prices[k];
        assert(pos == ps[k as int] && price == qs[k as int]);
        let x = match unrealized_pl(pos, price) {
            None => {
                proof {
                    assert(!prefix_fits(ps, qs, k + 1));
                }
                return None;
            },
            Some(x) => x,
        };
        pl = match pl.checked_add(x) {
            None => {
                proof {
                    assert(!prefix_fits(ps, qs, k + 1));
                }
                return None;
            },
            Some(v) => v,
        };
        margin = match margin.checked_add(pos.margin_held) {
            None => return None,
            Some(v) => v,
        };
        k = k + 1;
        proof {
            assert(fits_i128(sum_pl(ps.take(k as int), qs.take(k as int))));
            assert(fits_i128(pl_of(ps[k - 1], qs[k - 1] as int)));
            assert(prefix_fits(ps, qs, k as int));
        }
    }
    assert(pl_fits(ps, qs));
    proof {
        assert(ps.take(k as int) =~= ps);
        assert(qs.take(k as int) =~= qs);
    }
    let equity = match add_signed(collateral, pl) {
        None => return None,
        Some(e) => e,
    };
    if margin > 0x7fff_ffff_ffff_ffff_ffff_ffff_ffff_ffff {
        return None;
    }
    let free = match equity.checked_sub(margin as i128) {
        None => return None,
        Some(f) => f,
    };
    let level = match ratio(equity, margin) {
        None => return None,
        Some(l) => l,
    };
    Some(
        TraderInfo {
            equity,
            margin_held: margin as i128,
            margin_level: level,
            free_margin: free,
            unrealized_pl: pl,
        },
    )
}

/// A pool's figures from its equity, net open position and locked
/// liquidity: equity over each (`INFINITE` over zero), and the deposit that
/// lifts equity to the larger of the two amounts the minimum ratios ask
/// for, zero where it is already there. `None` where a figure does not fit.
pub fn pool_info(equity: i128, net_position: u128, locked: u128, enp_min: u128, ell_min: u128) -> (r:
    Option<PoolInfo>)
    ensures
        r == pool_info_spec(
            equity as int,
            net_position as int,
            locked as int,
            enp_min as int,
            ell_min as int,
        ),
{
    let need_enp = match mul_div(net_position, enp_min, DIV) {
        None => return None,
        Some(x) => x,
    };
    let need_ell = match mul_div(locked, ell_min, DIV) {
        None => return None,
        Some(x) => x,
    };
    let enp = match ratio(equity, net_position) {
        None => return None,
        Some(x) => x,
    };
    let ell = match ratio(equity, locked) {
        None => return None,
        Some(x) => x,
    };
    let need = if need_enp > need_ell {
        need_enp
    } else {
        need_ell
    };
    let required = if equity < 0 || need > equity as u128 {
        match sub_signed(need, equity) {
            None => return None,
            Some(x) => x,
        }
    } else {
        0
    };
    Some(PoolInfo { enp, ell, required_deposit: required })
}

} // verus!
