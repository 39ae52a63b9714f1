//! The synthetic trading engine: pools of the registry back positions in
//! synthetic assets, bought and sold at oracle-derived prices and liquidated
//! once under-collateralised.
use crate::error::Error;
use crate::fixed::{fits_u128, value_of, PERMILL_ONE};
use crate::pools::{AccountId, LiquidityPoolId, LiquidityPools, Pool};
use crate::quote::{
    buy_quote_spec, is_safe_spec, liquidation_quote_spec, with_ratio, quote_buy, quote_liquidation, quote_sell,
    sell_quote_spec,
};
use vstd::prelude::*;

verus! {

pub type CurrencyId = u32;

/// A pool's configuration for one synthetic asset, and the pool's position
/// in it: the collateral locked and the synthetic units issued against it.
#[derive(Clone, Copy, Debug, PartialEq, Eq, Structural)]
pub struct Pair {
    pub pool_id: LiquidityPoolId,
    pub asset: CurrencyId,
    pub enabled: bool,
    pub spread: Option<u32>,
    pub additional_collateral_ratio: Option<u32>,
    pub collateral: u128,
    pub synthetic: u128,
}

/// What a trader is left with after a sale or a liquidation: the collateral
/// paid out, and the synthetic balance that remains (a remainder below the
/// existential deposit is swept to zero).
#[derive(Clone, Copy, Debug, PartialEq, Eq, Structural)]
pub struct Settlement {
    pub paid: u128,
    pub remaining: u128,
}

/// The engine's state as a value.
pub struct ProtocolView {
    pub pools: Seq<Option<Pool>>,
    pub min_balance: u128,
    pub pairs: Seq<Pair>,
    pub locked: u128,
    pub min_ratio: u32,
    pub liquidation_ratio: u32,
    pub liquidation_penalty: u32,
}

pub struct SyntheticProtocol {
    pools: LiquidityPools,
    pairs: Vec<Pair>,
    locked: u128,
    min_additional_collateral_ratio: u32,
    liquidation_ratio: u32,
    liquidation_penalty: u32,
}

impl View for SyntheticProtocol {
    type V = ProtocolView;

    closed spec fn view(&self) -> ProtocolView {
        ProtocolView {
            pools: self.pools@,
            min_balance: self.pools.min_balance(),
            pairs: self.pairs@,
            locked: self.locked,
            min_ratio: self.min_additional_collateral_ratio,
            liquidation_ratio: self.liquidation_ratio,
            liquidation_penalty: self.liquidation_penalty,
        }
    }
}

/// The last pair of `s` for `pool` and `asset`.
pub open spec fn find_pair(s: Seq<Pair>, pool: int, asset: int) -> Option<int>
    decreases s.len(),
{
    if s.len() == 0 {
        None
    } else if s.last().pool_id == pool && s.last().asset == asset {
        Some(s.len() - 1)
    } else {
        find_pair(s.drop_last(), pool, asset)
    }
}

/// Collateral locked over all positions.
pub open spec fn sum_collateral(s: Seq<Pair>) -> int
    decreases s.len(),
{
    if s.len() == 0 {
        0
    } else {
        sum_collateral(s.drop_last()) + s.last().collateral
    }
}

/// A fresh configuration: trading off, nothing set, no position.
pub open spec fn blank_pair(pool: int, asset: int) -> Pair {
    Pair {
        pool_id: pool as LiquidityPoolId,
        asset: asset as CurrencyId,
        enabled: false,
        spread: None,
        additional_collateral_ratio: None,
        collateral: 0,
        synthetic: 0,
    }
}

pub open spec fn pair_or_blank(s: Seq<Pair>, pool: int, asset: int) -> Pair {
    match find_pair(s, pool, asset) {
        Some(i) => s[i],
        None => blank_pair(pool, asset),
    }
}

/// `s` with the pair for `pool` and `asset` replaced by `p`, or `p` added.
pub open spec fn put_pair(s: Seq<Pair>, pool: int, asset: int, p: Pair) -> Seq<Pair> {
    match find_pair(s, pool, asset) {
        Some(i) => s.update(i, p),
        None => s.push(p),
    }
}

/// The additional collateral ratio in force: the pair's, never below the
/// protocol's minimum.
pub open spec fn effective_ratio(r: Option<u32>, min: u32) -> u32 {
    match r {
        Some(x) => if x > min {
            x
        } else {
            min
        },
        None => min,
    }
}

/// A remainder below the existential deposit is swept to zero.
pub open spec fn swept(x: int, min: int) -> int {
    if x < min {
        0
    } else {
        x
    }
}

/// Units that leave a position when a trader holding `held` gives up
/// `amount`: the amount, and the rest too where it is swept as dust.
pub open spec fn burned(held: int, amount: int, min: int) -> int {
    if held - amount < min {
        held
    } else {
        amount
    }
}

/// Whether the pool still backs a position.
pub open spec fn has_exposure(s: Seq<Pair>, pool: int) -> bool {
    exists|i: int|
        0 <= i < s.len() && #[trigger] s[i].pool_id == pool && (s[i].synthetic > 0
            || s[i].collateral > 0)
}

proof fn lemma_find_pair(s: Seq<Pair>, pool: int, asset: int)
    ensures
        find_pair(s, pool, asset) matches Some(i) ==> 0 <= i < s.len() && s[i].pool_id == pool
            && s[i].asset == asset,
    decreases s.len(),
{
    if s.len() > 0 {
        lemma_find_pair(s.drop_last(), pool, asset);
    }
}

proof fn lemma_sum_update(s: Seq<Pair>, i: int, p: Pair)
    requires
        0 <= i < s.len(),
    ensures
        sum_collateral(s.update(i, p)) == sum_collateral(s) - s[i].collateral + p.collateral,
        sum_collateral(s) >= s[i].collateral,
    decreases s.len(),
{
    let t = s.update(i, p);
    if i == s.len() - 1 {
        assert(t.drop_last() =~= s.drop_last());
        lemma_sum_nonneg(s.drop_last());
    } else {
        assert(t.drop_last() =~= s.drop_last().update(i, p));
        lemma_sum_update(s.drop_last(), i, p);
    }
}

proof fn lemma_sum_nonneg(s: Seq<Pair>)
    ensures
        sum_collateral(s) >= 0,
    decreases s.len(),
{
    if s.len() > 0 {
        lemma_sum_nonneg(s.drop_last());
    }
}

proof fn lemma_sum_push(s: Seq<Pair>, p: Pair)
    ensures
        sum_collateral(s.push(p)) == sum_collateral(s) + p.collateral,
{
    assert(s.push(p).drop_last() =~= s);
}

impl ProtocolView {
    pub open spec fn exists_pool(self, pool: int) -> bool {
        0 <= pool < self.pools.len() && self.pools[pool] is Some
    }

    pub open spec fn pool(self, pool: int) -> Pool {
        self.pools[pool]->Some_0
    }

    /// The pair a trade in `asset` against `pool` goes through, or the error
    /// that refuses it before any amount is looked at.
    pub open spec fn trade_context(
        self,
        pool: int,
        asset: int,
        price: Option<u128>,
        need_enabled: bool,
    ) -> Result<int, Error> {
        if !self.exists_pool(pool) {
            Err(Error::PoolNotFound)
        } else if need_enabled && !self.pool(pool).enabled {
            Err(Error::TradeDisabled)
        } else {
            match find_pair(self.pairs, pool, asset) {
                None => Err(Error::TradeDisabled),
                Some(i) => if need_enabled && !self.pairs[i].enabled {
                    Err(Error::TradeDisabled)
                } else if self.pairs[i].spread is None || price is None {
                    Err(Error::NoPriceConfigured)
                } else if price->Some_0 == 0 {
                    Err(Error::InvalidPrice)
                } else {
                    Ok(i)
                },
            }
        }
    }

    /// A buy of `c` collateral by a trader holding `free`: the pair's index,
    /// the units minted and the additional collateral taken from the pool.
    pub open spec fn buy_result(
        self,
        pool: int,
        asset: int,
        c: int,
        free: int,
        price: Option<u128>,
    ) -> Result<(int, int, int), Error> {
        match self.trade_context(pool, asset, price, true) {
            Err(e) => Err(e),
            Ok(i) => {
                let pr = self.pairs[i];
                if c > free {
                    Err(Error::InsufficientBalance)
                } else {
                    match buy_quote_spec(
                        price->Some_0 as int,
                        pr.spread->Some_0 as int,
                        effective_ratio(pr.additional_collateral_ratio, self.min_ratio) as int,
                        c,
                    ) {
                        None => Err(Error::NumericOverflow),
                        Some((syn, add)) => {
                            let bal = self.pool(pool).balance as int;
                            if !(pr.collateral + c + add <= u128::MAX && pr.synthetic + syn
                                <= u128::MAX && self.locked + c + add <= u128::MAX) {
                                Err(Error::NumericOverflow)
                            } else if add > bal {
                                Err(Error::CannotWithdrawAmount)
                            } else if 0 < bal - add < self.min_balance {
                                Err(Error::CannotWithdrawExistentialDeposit)
                            } else {
                                Ok((i, syn, add))
                            }
                        },
                    }
                }
            },
        }
    }

    /// A sale of `amount` units by a trader holding `held`: the pair's
    /// index, the collateral redeemed, the collateral released, and the part
    /// of the rest refunded to the pool.
    pub open spec fn sell_result(
        self,
        pool: int,
        asset: int,
        amount: int,
        held: int,
        price: Option<u128>,
    ) -> Result<(int, int, int, int), Error> {
        match self.trade_context(pool, asset, price, false) {
            Err(e) => Err(e),
            Ok(i) => {
                let pr = self.pairs[i];
                let burn = burned(held, amount, self.min_balance as int);
                if amount > held || burn > pr.synthetic {
                    Err(Error::InsufficientSyntheticBalance)
                } else {
                    match sell_quote_spec(
                        price->Some_0 as int,
                        pr.spread->Some_0 as int,
                        effective_ratio(pr.additional_collateral_ratio, self.min_ratio) as int,
                        pr.collateral as int,
                        pr.synthetic as int,
                        amount,
                        burn,
                    ) {
                        Err(e) => Err(e),
                        Ok((red, delta)) => {
                            let refund = swept(delta - red, self.min_balance as int);
                            if self.pool(pool).balance + refund > u128::MAX {
                                Err(Error::NumericOverflow)
                            } else {
                                Ok((i, red, delta, refund))
                            }
                        },
                    }
                }
            },
        }
    }

    /// A liquidation of `amount` units held by a trader holding `held`: the
    /// pair's index, the collateral paid, the collateral released, and the
    /// part of the rest refunded to the pool.
    pub open spec fn liquidation_result(
        self,
        pool: int,
        asset: int,
        amount: int,
        held: int,
        price: Option<u128>,
    ) -> Result<(int, int, int, int), Error> {
        match self.trade_context(pool, asset, price, false) {
            Err(e) => Err(e),
            Ok(i) => {
                let pr = self.pairs[i];
                let burn = burned(held, amount, self.min_balance as int);
                if amount > held || burn > pr.synthetic {
                    Err(Error::InsufficientSyntheticBalance)
                } else {
                    match liquidation_quote_spec(
                        price->Some_0 as int,
                        pr.spread->Some_0 as int,
                        self.liquidation_ratio as int,
                        self.liquidation_penalty as int,
                        pr.collateral as int,
                        pr.synthetic as int,
                        amount,
                        burn,
                    ) {
                        Err(e) => Err(e),
                        Ok((paid, delta)) => {
                            let refund = swept(delta - paid, self.min_balance as int);
                            if self.pool(pool).balance + refund > u128::MAX {
                                Err(Error::NumericOverflow)
                            } else {
                                Ok((i, paid, delta, refund))
                            }
                        },
                    }
                }
            },
        }
    }

    /// A top-up of `amount` by a payer holding `free`: the pair's index.
    pub open spec fn add_collateral_result(self, pool: int, asset: int, amount: int, free: int) -> Result<
        int,
        Error,
    > {
        if !self.exists_pool(pool) {
            Err(Error::PoolNotFound)
        } else {
            match find_pair(self.pairs, pool, asset) {
                None => Err(Error::TradeDisabled),
                Some(i) => if amount > free {
                    Err(Error::InsufficientBalance)
                } else if self.locked + amount > u128::MAX {
                    Err(Error::NumericOverflow)
                } else {
                    Ok(i)
                },
            }
        }
    }

    /// `self` with pool `pool`'s balance set to `b`.
    pub open spec fn with_balance(self, pool: int, b: int) -> Seq<Option<Pool>> {
        self.pools.update(pool, Some(Pool { balance: b as u128, ..self.pool(pool) }))
    }

    /// `self` after a position of pair `i` changed by the given amounts
    /// and the pool's balance set to `b`.
    pub open spec fn settled(self, i: int, pool: int, b: int, coll: int, syn: int) -> ProtocolView {
        ProtocolView {
            pools: self.with_balance(pool, b),
            pairs: self.pairs.update(
                i,
                Pair { collateral: coll as u128, synthetic: syn as u128, ..self.pairs[i] },
            ),
            locked: (self.locked - self.pairs[i].collateral + coll) as u128,
            ..self
        }
    }

    /// Whether `who` may configure `pool`: the error where not.
    pub open spec fn owner_check(self, who: AccountId, pool: int) -> Result<(), Error> {
        if !self.exists_pool(pool) {
            Err(Error::PoolNotFound)
        } else if self.pool(pool).owner != who {
            Err(Error::NoPermission)
        } else {
            Ok(())
        }
    }
}

/// Past the lookups, the amount checks and the valuation, a liquidation is
/// refused with `StillInSafePosition` exactly when the position is safe.
pub proof fn lemma_liquidation_gate(
    v: ProtocolView,
    pool: int,
    asset: int,
    amount: int,
    held: int,
    price: Option<u128>,
    i: int,
)
    requires
        v.trade_context(pool, asset, price, false) == Ok::<int, Error>(i),
        0 <= amount <= held,
        burned(held, amount, v.min_balance as int) <= v.pairs[i].synthetic,
        fits_u128(value_of(v.pairs[i].synthetic as int, price->Some_0 as int)),
        fits_u128(
            with_ratio(value_of(v.pairs[i].synthetic as int, price->Some_0 as int), v.liquidation_ratio as int),
        ),
    ensures
        (v.liquidation_result(pool, asset, amount, held, price) == Err::<(int, int, int, int), Error>(
            Error::StillInSafePosition,
        )) == is_safe_spec(
            price->Some_0 as int,
            v.liquidation_ratio as int,
            v.pairs[i].collateral as int,
            v.pairs[i].synthetic as int,
        ),
{
}

/// A liquidation that takes the whole of a position, the trader's swept
/// dust included, releases all of its collateral, so the position is left
/// with neither collateral nor synthetic units.
pub proof fn lemma_full_liquidation_closes(
    v: ProtocolView,
    pool: int,
    asset: int,
    amount: int,
    held: int,
    price: Option<u128>,
    i: int,
)
    requires
        find_pair(v.pairs, pool, asset) == Some(i),
        burned(held, amount, v.min_balance as int) == v.pairs[i].synthetic,
        v.liquidation_result(pool, asset, amount, held, price) is Ok,
    ensures
        v.liquidation_result(pool, asset, amount, held, price)->Ok_0.2 == v.pairs[i].collateral,
{
    lemma_find_pair(v.pairs, pool, asset);
    let coll = v.pairs[i].collateral as int;
    let syn = v.pairs[i].synthetic as int;
    let pr = v.pairs[i];
    let r = v.liquidation_result(pool, asset, amount, held, price);
    assert(v.trade_context(pool, asset, price, false) == Ok::<int, Error>(i));
    let q = liquidation_quote_spec(
        price->Some_0 as int,
        pr.spread->Some_0 as int,
        v.liquidation_ratio as int,
        v.liquidation_penalty as int,
        coll,
        syn,
        amount,
        syn,
    );
    assert(q is Ok);
    assert(r->Ok_0.2 == q->Ok_0.1);
    if syn > 0 {
        vstd::arithmetic::div_mod::lemma_div_multiples_vanish(coll, syn);
        assert(syn * coll == coll * syn) by (nonlinear_arith);
        assert(q->Ok_0.1 == coll * syn / syn);
    } else {
        assert(value_of(0, price->Some_0 as int) == 0);
        assert(v.liquidation_ratio as int * 0 == 0);
        assert(with_ratio(0, v.liquidation_ratio as int) == 0);
    }
}

impl SyntheticProtocol {
    pub open spec fn wf(&self) -> bool {
        &&& self@.pools.len() <= u32::MAX
        &&& self@.locked == sum_collateral(self@.pairs)
        &&& self@.min_ratio <= PERMILL_ONE
        &&& self@.liquidation_ratio <= PERMILL_ONE
        &&& self@.liquidation_penalty <= PERMILL_ONE
        &&& forall|i: int|
            0 <= i < self@.pairs.len() ==> (#[trigger] self@.pairs[i]).spread.unwrap_or(0)
                <= PERMILL_ONE && self@.pairs[i].additional_collateral_ratio.unwrap_or(0)
                <= PERMILL_ONE
    }

    /// An engine with no pools; pools keep zero or at least
    /// `existential_deposit`, and the ratios and the penalty start at zero.
    pub fn new(existential_deposit: u128) -> (r: Self)
        ensures
            r.wf(),
            r@.pools == Seq::<Option<Pool>>::empty(),
            r@.min_balance == existential_deposit,
            r@.pairs == Seq::<Pair>::empty(),
            r@.locked == 0,
            r@.min_ratio == 0,
            r@.liquidation_ratio == 0,
            r@.liquidation_penalty == 0,
    {
        SyntheticProtocol {
            pools: LiquidityPools::new(existential_deposit),
            pairs: Vec::new(),
            locked: 0,
            min_additional_collateral_ratio: 0,
            liquidation_ratio: 0,
            liquidation_penalty: 0,
        }
    }

    fn find(&self, pool: LiquidityPoolId, asset: CurrencyId) -> (r: Option<usize>)
        ensures
            match find_pair(self@.pairs, pool as int, asset as int) {
                None => r is None,
                Some(i) => r matches Some(j) && j as int == i,
            },
            r matches Some(j) ==> j < self@.pairs.len() && self@.pairs[j as int].pool_id == pool
                && self@.pairs[j as int].asset == asset,
    {
        proof {
            lemma_find_pair(self@.pairs, pool as int, asset as int);
        }
        let mut i: usize = self.pairs.len();
        assert(self@.pairs.subrange(0, i as int) =~= self@.pairs);
        while i > 0
            invariant
                i <= self@.pairs.len(),
                self@.pairs == self.pairs@,
                find_pair(self@.pairs, pool as int, asset as int) == find_pair(
                    self@.pairs.subrange(0, i as int),
                    pool as int,
                    asset as int,
                ),
            decreases i,
        {
            let p = self.pairs[i - 1];
            let ghost sub = self@.pairs.subrange(0, i as int);
            assert(sub.last() == p);
            if p.pool_id == pool && p.asset == asset {
                return Some(i - 1);
            }
            assert(sub.drop_last() =~= self@.pairs.subrange(0, i - 1));
            i = i - 1;
        }
        None
    }

    fn context(&self, pool: LiquidityPoolId, asset: CurrencyId, price: Option<u128>, need_enabled: bool) -> (r:
        Result<usize, Error>)
        requires
            self.wf(),
        ensures
            match r {
                Err(e) => self@.trade_context(pool as int, asset as int, price, need_enabled) == Err::<
                    int,
                    Error,
                >(e),
                Ok(i) => self@.trade_context(pool as int, asset as int, price, need_enabled) == Ok::<
                    int,
                    Error,
                >(i as int) && i < self@.pairs.len() && self@.pairs[i as int].pool_id == pool
                    && self@.pairs[i as int].asset == asset,
            },
    {
        proof {
            lemma_find_pair(self@.pairs, pool as int, asset as int);
        }
        match self.pools.owners(pool) {
            None => return Err(Error::PoolNotFound),
            Some(_) => {},
        }
        if need_enabled && !self.pools.is_enabled(pool) {
            return Err(Error::TradeDisabled);
        }
        match self.find(pool, asset) {
            None => Err(Error::TradeDisabled),
            Some(i) => {
                let p = self.pairs[i];
                if need_enabled && !p.enabled {
                    Err(Error::TradeDisabled)
                } else if p.spread.is_none() || price.is_none() {
                    Err(Error::NoPriceConfigured)
                } else if price.unwrap() == 0 {
                    Err(Error::InvalidPrice)
                } else {
                    Ok(i)
                }
            },
        }
    }

    /// Replaces the pair for `pool` and `asset` by `p`, or adds it.
    fn put(&mut self, pool: LiquidityPoolId, asset: CurrencyId, p: Pair)
        requires
            old(self).wf(),
            p.pool_id == pool,
            p.asset == asset,
            p.collateral == pair_or_blank(old(self)@.pairs, pool as int, asset as int).collateral,
            p.spread.unwrap_or(0) <= PERMILL_ONE,
            p.additional_collateral_ratio.unwrap_or(0) <= PERMILL_ONE,
        ensures
            final(self).wf(),
            final(self)@ == (ProtocolView {
                pairs: put_pair(old(self)@.pairs, pool as int, asset as int, p),
                ..old(self)@
            }),
    {
        proof {
            lemma_find_pair(old(self)@.pairs, pool as int, asset as int);
        }
        match self.find(pool, asset) {
            Some(i) => {
                proof {
                    lemma_sum_update(self@.pairs, i as int, p);
                }
                self.pairs.set(i, p);
            },
            None => {
                proof {
                    lemma_sum_push(self@.pairs, p);
                }
                self.pairs.push(p);
            },
        }
        assert(self@.pairs == put_pair(old(self)@.pairs, pool as int, asset as int, p));
    }

    fn owner_pair(&self, who: AccountId, pool: LiquidityPoolId, asset: CurrencyId) -> (r: Result<Pair, Error>)
        requires
            self.wf(),
        ensures
            match self@.owner_check(who, pool as int) {
                Err(e) => r == Err::<Pair, Error>(e),
                Ok(_) => r == Ok::<Pair, Error>(pair_or_blank(self@.pairs, pool as int, asset as int)),
            },
            r matches Ok(p) ==> p.pool_id == pool && p.asset == asset && p.spread.unwrap_or(0) <= PERMILL_ONE
                && p.additional_collateral_ratio.unwrap_or(0) <= PERMILL_ONE,
    {
        proof {
            lemma_find_pair(self@.pairs, pool as int, asset as int);
        }
        match self.pools.owners(pool) {
            None => return Err(Error::PoolNotFound),
            Some((owner, _)) => {
                if owner != who {
                    return Err(Error::NoPermission);
                }
            },
        }
        match self.find(pool, asset) {
            Some(i) => Ok(self.pairs[i]),
            None => Ok(
                Pair {
                    pool_id: pool,
                    asset,
                    enabled: false,
                    spread: None,
                    additional_collateral_ratio: None,
                    collateral: 0,
                    synthetic: 0,
                },
            ),
        }
    }

    fn ratio_of(&self, p: Pair) -> (r: u32)
        requires
            self.wf(),
            p.additional_collateral_ratio.unwrap_or(0) <= PERMILL_ONE,
        ensures
            r == effective_ratio(p.additional_collateral_ratio, self@.min_ratio),
            r <= PERMILL_ONE,
    {
        match p.additional_collateral_ratio {
            Some(x) => if x > self.min_additional_collateral_ratio {
                x
            } else {
                self.min_additional_collateral_ratio
            },
            None => self.min_additional_collateral_ratio,
        }
    }

    /// Sets pair `i`'s position and the locked total to match.
    fn set_position(&mut self, i: usize, coll: u128, syn: u128)
        requires
            old(self).wf(),
            i < old(self)@.pairs.len(),
            old(self)@.locked - old(self)@.pairs[i as int].collateral + coll <= u128::MAX,
        ensures
            final(self).wf(),
            final(self)@ == (ProtocolView {
                pairs: old(self)@.pairs.update(
                    i as int,
                    Pair { collateral: coll, synthetic: syn, ..old(self)@.pairs[i as int] },
                ),
                locked: (old(self)@.locked - old(self)@.pairs[i as int].collateral + coll) as u128,
                ..old(self)@
            }),
    {
        let p = self.pairs[i];
        let np = Pair { collateral: coll, synthetic: syn, ..p };
        proof {
            lemma_sum_update(self@.pairs, i as int, np);
        }
        self.locked = self.locked - p.collateral + coll;
        self.pairs.set(i, np);
    }

    /// A trader holding `free` collateral buys synthetic `asset` from `pool`
    /// with `collateral`, at oracle mid price `price`. Returns the units
    /// minted to the trader. The trader's collateral and the additional
    /// collateral the pool must add are locked in the pool's position.
    pub fn buy(
        &mut self,
        pool: LiquidityPoolId,
        asset: CurrencyId,
        collateral: u128,
        free: u128,
        price: Option<u128>,
    ) -> (r: Result<u128, Error>)
        requires
            old(self).wf(),
        ensures
            final(self).wf(),
            match old(self)@.buy_result(pool as int, asset as int, collateral as int, free as int, price) {
                Err(e) => r == Err::<u128, Error>(e) && final(self)@ == old(self)@,
                Ok((i, syn, add)) => r == Ok::<u128, Error>(syn as u128) && final(self)@ == old(self)@.settled(
                    i,
                    pool as int,
                    old(self)@.pool(pool as int).balance - add,
                    old(self)@.pairs[i].collateral + collateral + add,
                    old(self)@.pairs[i].synthetic + syn,
                ),
            },
    {
        let i = match self.context(pool, asset, price, true) {
            Err(e) => return Err(e),
            Ok(i) => i,
        };
        let p = self.pairs[i];
        if collateral > free {
            return Err(Error::InsufficientBalance);
        }
        let ratio = self.ratio_of(p);
        let (syn, add) = match quote_buy(price.unwrap(), p.spread.unwrap(), ratio, collateral) {
            None => return Err(Error::NumericOverflow),
            Some(q) => q,
        };
        proof {
            lemma_sum_update(self@.pairs, i as int, p);
        }
        let coll = match p.collateral.checked_add(collateral) {
            None => return Err(Error::NumericOverflow),
            Some(x) => match x.checked_add(add) {
                None => return Err(Error::NumericOverflow),
                Some(y) => y,
            },
        };
        let units = match p.synthetic.checked_add(syn) {
            None => return Err(Error::NumericOverflow),
            Some(x) => x,
        };
        let total = match self.locked.checked_add(collateral) {
            None => return Err(Error::NumericOverflow),
            Some(x) => x.checked_add(add),
        };
        if total.is_none() {
            return Err(Error::NumericOverflow);
        }
        match self.pools.withdraw_liquidity(pool, add) {
            Err(e) => return Err(e),
            Ok(()) => {},
        }
        self.set_position(i, coll, units);
        Ok(syn)
    }

    /// A trader holding `held` units of `asset` sells `amount` of them back
    /// to `pool` at the bid for oracle mid price `price`. The trader is paid
    /// the redeemed collateral; the position releases what its rest no
    /// longer needs, at least the payment, and the surplus over the payment
    /// goes back to the pool (a surplus below the existential deposit is
    /// swept). Where the trader's rest would be below the existential
    /// deposit, it is swept too: those units leave the position as well.
    pub fn sell(
        &mut self,
        pool: LiquidityPoolId,
        asset: CurrencyId,
        amount: u128,
        held: u128,
        price: Option<u128>,
    ) -> (r: Result<Settlement, Error>)
        requires
            old(self).wf(),
        ensures
            final(self).wf(),
            match old(self)@.sell_result(pool as int, asset as int, amount as int, held as int, price) {
                Err(e) => r == Err::<Settlement, Error>(e) && final(self)@ == old(self)@,
                Ok((i, red, delta, refund)) => r == Ok::<Settlement, Error>(
                    Settlement {
                        paid: red as u128,
                        remaining: swept(held - amount, old(self)@.min_balance as int) as u128,
                    },
                ) && final(self)@ == old(self)@.settled(
                    i,
                    pool as int,
                    old(self)@.pool(pool as int).balance + refund,
                    old(self)@.pairs[i].collateral - delta,
                    old(self)@.pairs[i].synthetic - burned(
                        held as int,
                        amount as int,
                        old(self)@.min_balance as int,
                    ),
                ),
            },
    {
        let i = match self.context(pool, asset, price, false) {
            Err(e) => return Err(e),
            Ok(i) => i,
        };
        let p = self.pairs[i];
        if amount > held {
            return Err(Error::InsufficientSyntheticBalance);
        }
        let burn = self.burn_of(held, amount);
        if burn > p.synthetic {
            return Err(Error::InsufficientSyntheticBalance);
        }
        let ratio = self.ratio_of(p);
        let (red, delta) = match quote_sell(
            price.unwrap(),
            p.spread.unwrap(),
            ratio,
            p.collateral,
            p.synthetic,
            amount,
            burn,
        ) {
            Err(e) => return Err(e),
            Ok(q) => q,
        };
        self.settle(pool, i, amount, burn, held, red, delta)
    }

    fn burn_of(&self, held: u128, amount: u128) -> (r: u128)
        requires
            amount <= held,
        ensures
            r as int == burned(held as int, amount as int, self@.min_balance as int),
            amount <= r <= held,
    {
        if held - amount < self.pools.existential_deposit() {
            held
        } else {
            amount
        }
    }

    /// Pays out a sale or liquidation of `amount` units from pair `i`, with
    /// `burn` units leaving the position: the position releases `delta`, of
    /// which `paid` goes to the trader and the rest, unless it is dust, to
    /// the pool.
    fn settle(
        &mut self,
        pool: LiquidityPoolId,
        i: usize,
        amount: u128,
        burn: u128,
        held: u128,
        paid: u128,
        delta: u128,
    ) -> (r: Result<Settlement, Error>)
        requires
            old(self).wf(),
            i < old(self)@.pairs.len(),
            old(self)@.pairs[i as int].pool_id == pool,
            old(self)@.exists_pool(pool as int),
            paid <= delta <= old(self)@.pairs[i as int].collateral,
            amount <= held,
            burn as int == burned(held as int, amount as int, old(self)@.min_balance as int),
            burn <= old(self)@.pairs[i as int].synthetic,
        ensures
            final(self).wf(),
            ({
                let refund = swept(delta - paid, old(self)@.min_balance as int);
                if old(self)@.pool(pool as int).balance + refund > u128::MAX {
                    r == Err::<Settlement, Error>(Error::NumericOverflow) && final(self)@ == old(self)@
                } else {
                    r == Ok::<Settlement, Error>(
                        Settlement {
                            paid,
                            remaining: swept(held - amount, old(self)@.min_balance as int) as u128,
                        },
                    ) && final(self)@ == old(self)@.settled(
                        i as int,
                        pool as int,
                        old(self)@.pool(pool as int).balance + refund,
                        old(self)@.pairs[i as int].collateral - delta,
                        old(self)@.pairs[i as int].synthetic - burn,
                    )
                }
            }),
    {
        let p = self.pairs[i];
        let ed = self.pools.existential_deposit();
        let rest = delta - paid;
        let refund = if rest < ed {
            0
        } else {
            rest
        };
        match self.pools.deposit_liquidity(pool, refund) {
            Err(e) => return Err(e),
            Ok(()) => {},
        }
        proof {
            lemma_sum_update(self@.pairs, i as int, p);
        }
        self.set_position(i, p.collateral - delta, p.synthetic - burn);
        let left = held - amount;
        Ok(Settlement { paid, remaining: if left < ed { 0 } else { left } })
    }

    /// Liquidates `amount` units of `asset`, held by a trader holding `held`,
    /// from an unsafe position of `pool`: one whose collateral is below its
    /// value at `price` with the liquidation ratio on top. The liquidator
    /// gets the bid value, at most the position's proportional share of
    /// collateral, less the liquidation penalty; the rest of that share,
    /// penalty included, goes back to the pool.
    pub fn liquidate(
        &mut self,
        pool: LiquidityPoolId,
        asset: CurrencyId,
        amount: u128,
        held: u128,
        price: Option<u128>,
    ) -> (r: Result<Settlement, Error>)
        requires
            old(self).wf(),
        ensures
            final(self).wf(),
            match old(self)@.liquidation_result(pool as int, asset as int, amount as int, held as int, price) {
                Err(e) => r == Err::<Settlement, Error>(e) && final(self)@ == old(self)@,
                Ok((i, paid, delta, refund)) => r == Ok::<Settlement, Error>(
                    Settlement {
                        paid: paid as u128,
                        remaining: swept(held - amount, old(self)@.min_balance as int) as u128,
                    },
                ) && final(self)@ == old(self)@.settled(
                    i,
                    pool as int,
                    old(self)@.pool(pool as int).balance + refund,
                    old(self)@.pairs[i].collateral - delta,
                    old(self)@.pairs[i].synthetic - burned(
                        held as int,
                        amount as int,
                        old(self)@.min_balance as int,
                    ),
                ),
            },
    {
        let i = match self.context(pool, asset, price, false) {
            Err(e) => return Err(e),
            Ok(i) => i,
        };
        let p = self.pairs[i];
        if amount > held {
            return Err(Error::InsufficientSyntheticBalance);
        }
        let burn = self.burn_of(held, amount);
        if burn > p.synthetic {
            return Err(Error::InsufficientSyntheticBalance);
        }
        let (paid, delta) = match quote_liquidation(
            price.unwrap(),
            p.spread.unwrap(),
            self.liquidation_ratio,
            self.liquidation_penalty,
            p.collateral,
            p.synthetic,
            amount,
            burn,
        ) {
            Err(e) => return Err(e),
            Ok(q) => q,
        };
        self.settle(pool, i, amount, burn, held, paid, delta)
    }

    /// Adds `amount`, paid by a payer holding `free`, to the collateral
    /// locked for `pool`'s position in `asset`, making it safer.
    pub fn add_collateral(&mut self, pool: LiquidityPoolId, asset: CurrencyId, amount: u128, free: u128) -> (r:
        Result<(), Error>)
        requires
            old(self).wf(),
        ensures
            final(self).wf(),
            match old(self)@.add_collateral_result(pool as int, asset as int, amount as int, free as int) {
                Err(e) => r == Err::<(), Error>(e) && final(self)@ == old(self)@,
                Ok(i) => r is Ok && final(self)@ == old(self)@.settled(
                    i,
                    pool as int,
                    old(self)@.pool(pool as int).balance as int,
                    old(self)@.pairs[i].collateral + amount,
                    old(self)@.pairs[i].synthetic as int,
                ),
            },
    {
        proof {
            lemma_find_pair(self@.pairs, pool as int, asset as int);
        }
        if self.pools.owners(pool).is_none() {
            return Err(Error::PoolNotFound);
        }
        let i = match self.find(pool, asset) {
            None => return Err(Error::TradeDisabled),
            Some(i) => i,
        };
        if amount > free {
            return Err(Error::InsufficientBalance);
        }
        if self.locked > u128::MAX - amount {
            return Err(Error::NumericOverflow);
        }
        let p = self.pairs[i];
        proof {
            lemma_sum_update(self@.pairs, i as int, p);
            assert(self@.with_balance(pool as int, self@.pool(pool as int).balance as int) =~= self@.pools);
        }
        self.set_position(i, p.collateral + amount, p.synthetic);
        Ok(())
    }

    fn exposed(&self, pool: LiquidityPoolId) -> (r: bool)
        ensures
            r == has_exposure(self@.pairs, pool as int),
    {
        let mut i: usize = 0;
        while i < self.pairs.len()
            invariant
                i <= self@.pairs.len(),
                self@.pairs == self.pairs@,
                forall|j: int|
                    0 <= j < i ==> !(#[trigger] self@.pairs[j].pool_id == pool && (
                    self@.pairs[j].synthetic > 0 || self@.pairs[j].collateral > 0)),
            decreases self@.pairs.len() - i,
        {
            let p = self.pairs[i];
            if p.pool_id == pool && (p.synthetic > 0 || p.collateral > 0) {
                assert(self@.pairs[i as int] == p);
                return true;
            }
            i = i + 1;
        }
        false
    }

    /// Removes `pool` for its owner; refused with `CannotRemovePool` while
    /// the pool holds a balance or any position of the pool holds collateral
    /// or synthetic units.
    pub fn remove_pool(&mut self, who: AccountId, pool: LiquidityPoolId) -> (r: Result<(), Error>)
        requires
            old(self).wf(),
        ensures
            final(self).wf(),
            match old(self)@.owner_check(who, pool as int) {
                Err(e) => r == Err::<(), Error>(e) && final(self)@ == old(self)@,
                Ok(_) => if old(self)@.pool(pool as int).balance > 0 || has_exposure(
                    old(self)@.pairs,
                    pool as int,
                ) {
                    r == Err::<(), Error>(Error::CannotRemovePool) && final(self)@ == old(self)@
                } else {
                    r is Ok && final(self)@ == (
                    ProtocolView { pools: old(self)@.pools.update(pool as int, None), ..old(self)@ })
                },
            },
    {
        match self.pools.owners(pool) {
            None => return Err(Error::PoolNotFound),
            Some((owner, _)) => {
                if owner != who {
                    return Err(Error::NoPermission);
                }
            },
        }
        if self.pools.liquidity(pool) > 0 || self.exposed(pool) {
            return Err(Error::CannotRemovePool);
        }
        self.pools.remove_pool(who, pool)
    }

    /// Creates a pool owned by `who`; see `LiquidityPools::create_pool`.
    pub fn create_pool(&mut self, who: AccountId) -> (r: Result<LiquidityPoolId, Error>)
        requires
            old(self).wf(),
        ensures
            final(self).wf(),
            old(self)@.pools.len() == u32::MAX ==> r == Err::<LiquidityPoolId, Error>(Error::NumericOverflow)
                && final(self)@ == old(self)@,
            old(self)@.pools.len() < u32::MAX ==> r == Ok::<LiquidityPoolId, Error>(
                old(self)@.pools.len() as LiquidityPoolId,
            ) && final(self)@ == (ProtocolView {
                pools: old(self)@.pools.push(Some(Pool { owner: who, enabled: true, balance: 0 })),
                ..old(self)@
            }),
    {
        self.pools.create_pool(who)
    }

    /// Stops trading against `pool`, for its owner.
    pub fn disable_pool(&mut self, who: AccountId, pool: LiquidityPoolId) -> (r: Result<(), Error>)
        requires
            old(self).wf(),
        ensures
            final(self).wf(),
            match old(self)@.owner_check(who, pool as int) {
                Err(e) => r == Err::<(), Error>(e) && final(self)@ == old(self)@,
                Ok(_) => r is Ok && final(self)@ == (ProtocolView {
                    pools: old(self)@.pools.update(
                        pool as int,
                        Some(Pool { enabled: false, ..old(self)@.pool(pool as int) }),
                    ),
                    ..old(self)@
                }),
            },
    {
        self.pools.disable_pool(who, pool)
    }

    /// Lets trading against `pool` resume, for its owner.
    pub fn enable_pool(&mut self, who: AccountId, pool: LiquidityPoolId) -> (r: Result<(), Error>)
        requires
            old(self).wf(),
        ensures
            final(self).wf(),
            match old(self)@.owner_check(who, pool as int) {
                Err(e) => r == Err::<(), Error>(e) && final(self)@ == old(self)@,
                Ok(_) => r is Ok && final(self)@ == (ProtocolView {
                    pools: old(self)@.pools.update(
                        pool as int,
                        Some(Pool { enabled: true, ..old(self)@.pool(pool as int) }),
                    ),
                    ..old(self)@
                }),
            },
    {
        self.pools.enable_pool(who, pool)
    }

    /// Adds `amount` to the free liquidity of `pool`.
    pub fn deposit_liquidity(&mut self, pool: LiquidityPoolId, amount: u128) -> (r: Result<(), Error>)
        requires
            old(self).wf(),
        ensures
            final(self).wf(),
            !old(self)@.exists_pool(pool as int) ==> r == Err::<(), Error>(Error::PoolNotFound)
                && final(self)@ == old(self)@,
            old(self)@.exists_pool(pool as int) && old(self)@.pool(pool as int).balance + amount > u128::MAX
                ==> r == Err::<(), Error>(Error::NumericOverflow) && final(self)@ == old(self)@,
            old(self)@.exists_pool(pool as int) && old(self)@.pool(pool as int).balance + amount <= u128::MAX
                ==> r is Ok && final(self)@ == (ProtocolView {
                pools: old(self)@.with_balance(pool as int, old(self)@.pool(pool as int).balance + amount),
                ..old(self)@
            }),
    {
        self.pools.deposit_liquidity(pool, amount)
    }

    /// Takes `amount` from the free liquidity of `pool`; what is left must
    /// be zero or at least the existential deposit.
    pub fn withdraw_liquidity(&mut self, pool: LiquidityPoolId, amount: u128) -> (r: Result<(), Error>)
        requires
            old(self).wf(),
        ensures
            final(self).wf(),
            !old(self)@.exists_pool(pool as int) ==> r == Err::<(), Error>(Error::PoolNotFound)
                && final(self)@ == old(self)@,
            old(self)@.exists_pool(pool as int) && amount > old(self)@.pool(pool as int).balance ==> r
                == Err::<(), Error>(Error::CannotWithdrawAmount) && final(self)@ == old(self)@,
            old(self)@.exists_pool(pool as int) && amount <= old(self)@.pool(pool as int).balance
                && 0 < old(self)@.pool(pool as int).balance - amount < old(self)@.min_balance ==> r == Err::<
                (),
                Error,
            >(Error::CannotWithdrawExistentialDeposit) && final(self)@ == old(self)@,
            old(self)@.exists_pool(pool as int) && amount <= old(self)@.pool(pool as int).balance
                && (old(self)@.pool(pool as int).balance - amount == 0 || old(self)@.pool(pool as int).balance
                - amount >= old(self)@.min_balance) ==> r is Ok
                && final(self)@ == (ProtocolView {
                pools: old(self)@.with_balance(pool as int, old(self)@.pool(pool as int).balance - amount),
                ..old(self)@
            }),
    {
        self.pools.withdraw_liquidity(pool, amount)
    }

    /// The free liquidity of `pool`; zero for an unknown pool.
    pub fn liquidity(&self, pool: LiquidityPoolId) -> (r: u128)
        ensures
            r == (if self@.exists_pool(pool as int) {
                self@.pool(pool as int).balance
            } else {
                0
            }),
    {
        self.pools.liquidity(pool)
    }

    /// Whether `pool` exists and `who` owns it.
    pub fn is_owner(&self, pool: LiquidityPoolId, who: AccountId) -> (r: bool)
        ensures
            r == (self@.exists_pool(pool as int) && self@.pool(pool as int).owner == who),
    {
        self.pools.is_owner(pool, who)
    }

    /// The collateral locked and synthetic units issued by `pool` in
    /// `asset`; zeros where there is no such position.
    pub fn position(&self, pool: LiquidityPoolId, asset: CurrencyId) -> (r: (u128, u128))
        ensures
            r == (pair_or_blank(self@.pairs, pool as int, asset as int).collateral, pair_or_blank(
                self@.pairs,
                pool as int,
                asset as int,
            ).synthetic),
    {
        match self.find(pool, asset) {
            Some(i) => (self.pairs[i].collateral, self.pairs[i].synthetic),
            None => (0, 0),
        }
    }

    /// The collateral locked over all positions.
    pub fn total_locked(&self) -> (r: u128)
        requires
            self.wf(),
        ensures
            r as int == sum_collateral(self@.pairs),
    {
        self.locked
    }

    /// Turns trading of `asset` against `pool` on or off, for the pool's owner.
    pub fn set_enabled_trades(&mut self, who: AccountId, pool: LiquidityPoolId, asset: CurrencyId, enabled: bool) -> (r:
        Result<(), Error>)
        requires
            old(self).wf(),
        ensures
            final(self).wf(),
            match old(self)@.owner_check(who, pool as int) {
                Err(e) => r == Err::<(), Error>(e) && final(self)@ == old(self)@,
                Ok(_) => r is Ok && final(self)@ == (ProtocolView {
                    pairs: put_pair(
                        old(self)@.pairs,
                        pool as int,
                        asset as int,
                        Pair { enabled, ..pair_or_blank(old(self)@.pairs, pool as int, asset as int) },
                    ),
                    ..old(self)@
                }),
            },
    {
        match self.owner_pair(who, pool, asset) {
            Err(e) => Err(e),
            Ok(p) => {
                self.put(pool, asset, Pair { enabled, ..p });
                Ok(())
            },
        }
    }

    /// Sets the spread (parts per million) of `asset` in `pool`, for the
    /// pool's owner; a spread above one fails with `InvalidRatio`.
    pub fn set_spread(&mut self, who: AccountId, pool: LiquidityPoolId, asset: CurrencyId, spread: u32) -> (r:
        Result<(), Error>)
        requires
            old(self).wf(),
        ensures
            final(self).wf(),
            match old(self)@.owner_check(who, pool as int) {
                Err(e) => r == Err::<(), Error>(e) && final(self)@ == old(self)@,
                Ok(_) => if spread > PERMILL_ONE {
                    r == Err::<(), Error>(Error::InvalidRatio) && final(self)@ == old(self)@
                } else {
                    r is Ok && final(self)@ == (ProtocolView {
                        pairs: put_pair(
                            old(self)@.pairs,
                            pool as int,
                            asset as int,
                            Pair {
                                spread: Some(spread),
                                ..pair_or_blank(old(self)@.pairs, pool as int, asset as int)
                            },
                        ),
                        ..old(self)@
                    })
                },
            },
    {
        match self.owner_pair(who, pool, asset) {
            Err(e) => Err(e),
            Ok(p) => {
                if spread > PERMILL_ONE {
                    return Err(Error::InvalidRatio);
                }
                self.put(pool, asset, Pair { spread: Some(spread), ..p });
                Ok(())
            },
        }
    }

    /// Sets (or, with `None`, clears) the additional collateral ratio of
    /// `asset` in `pool`, for the pool's owner; above one fails with
    /// `InvalidRatio`.
    pub fn set_additional_collateral_ratio(
        &mut self,
        who: AccountId,
        pool: LiquidityPoolId,
        asset: CurrencyId,
        ratio: Option<u32>,
    ) -> (r: Result<(), Error>)
        requires
            old(self).wf(),
        ensures
            final(self).wf(),
            match old(self)@.owner_check(who, pool as int) {
                Err(e) => r == Err::<(), Error>(e) && final(self)@ == old(self)@,
                Ok(_) => if ratio.unwrap_or(0) > PERMILL_ONE {
                    r == Err::<(), Error>(Error::InvalidRatio) && final(self)@ == old(self)@
                } else {
                    r is Ok && final(self)@ == (ProtocolView {
                        pairs: put_pair(
                            old(self)@.pairs,
                            pool as int,
                            asset as int,
                            Pair {
                                additional_collateral_ratio: ratio,
                                ..pair_or_blank(old(self)@.pairs, pool as int, asset as int)
                            },
                        ),
                        ..old(self)@
                    })
                },
            },
    {
        match self.owner_pair(who, pool, asset) {
            Err(e) => Err(e),
            Ok(p) => {
                if ratio.unwrap_or(0) > PERMILL_ONE {
                    return Err(Error::InvalidRatio);
                }
                self.put(pool, asset, Pair { additional_collateral_ratio: ratio, ..p });
                Ok(())
            },
        }
    }

    /// Sets the least additional collateral ratio any pair is held to.
    pub fn set_min_additional_collateral_ratio(&mut self, ratio: u32) -> (r: Result<(), Error>)
        requires
            old(self).wf(),
        ensures
            final(self).wf(),
            ratio > PERMILL_ONE ==> r == Err::<(), Error>(Error::InvalidRatio) && final(self)@ == old(self)@,
            ratio <= PERMILL_ONE ==> r is Ok && final(self)@ == (ProtocolView { min_ratio: ratio, ..old(self)@ }),
    {
        if ratio > PERMILL_ONE {
            return Err(Error::InvalidRatio);
        }
        self.min_additional_collateral_ratio = ratio;
        Ok(())
    }

    /// Sets the margin above a position's value below which it may be
    /// liquidated.
    pub fn set_liquidation_ratio(&mut self, ratio: u32) -> (r: Result<(), Error>)
        requires
            old(self).wf(),
        ensures
            final(self).wf(),
            ratio > PERMILL_ONE ==> r == Err::<(), Error>(Error::InvalidRatio) && final(self)@ == old(self)@,
            ratio <= PERMILL_ONE ==> r is Ok && final(self)@ == (ProtocolView {
                liquidation_ratio: ratio,
                ..old(self)@
            }),
    {
        if ratio > PERMILL_ONE {
            return Err(Error::InvalidRatio);
        }
        self.liquidation_ratio = ratio;
        Ok(())
    }

    /// Sets the share of a liquidation's payment that is kept back and
    /// credited to the pool.
    pub fn set_liquidation_penalty(&mut self, ratio: u32) -> (r: Result<(), Error>)
        requires
            old(self).wf(),
        ensures
            final(self).wf(),
            ratio > PERMILL_ONE ==> r == Err::<(), Error>(Error::InvalidRatio) && final(self)@ == old(self)@,
            ratio <= PERMILL_ONE ==> r is Ok && final(self)@ == (ProtocolView {
                liquidation_penalty: ratio,
                ..old(self)@
            }),
    {
        if ratio > PERMILL_ONE {
            return Err(Error::InvalidRatio);
        }
        self.liquidation_penalty = ratio;
        Ok(())
    }
}

} // verus!
