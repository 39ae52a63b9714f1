//! The liquidity pool registry: identity, ownership, enabled state and
//! collateral balance of each pool. Each registry is an isolated domain.
use crate::error::Error;
use vstd::prelude::*;

verus! {

pub type AccountId = u64;

pub type LiquidityPoolId = u32;

/// One pool's record.
#[derive(Clone, Copy, Debug, PartialEq, Eq, Structural)]
pub struct Pool {
    pub owner: AccountId,
    pub enabled: bool,
    pub balance: u128,
}

/// A movement of liquidity into or out of a pool.
#[derive(Clone, Copy, Debug, PartialEq, Eq, Structural)]
pub enum Flow {
    Deposit(u128),
    Withdraw(u128),
}

pub open spec fn flow_delta(f: Flow) -> int {
    match f {
        Flow::Deposit(a) => a as int,
        Flow::Withdraw(a) => -(a as int),
    }
}

/// Deposits less withdrawals.
pub open spec fn net_flow(fs: Seq<Flow>) -> int
    decreases fs.len(),
{
    if fs.len() == 0 {
        0
    } else {
        net_flow(fs.drop_last()) + flow_delta(fs.last())
    }
}

/// `after` is `before` with flow `f` applied to the balance of pool `id`.
pub open spec fn flowed(before: Seq<Option<Pool>>, after: Seq<Option<Pool>>, id: int, f: Flow) -> bool {
    &&& 0 <= id < before.len()
    &&& before[id] is Some
    &&& 0 <= before[id]->Some_0.balance + flow_delta(f) <= u128::MAX
    &&& after == before.update(
        id,
        Some(Pool { balance: (before[id]->Some_0.balance + flow_delta(f)) as u128, ..before[id]->Some_0 }),
    )
}

/// After any run of successful deposits and withdrawals on a pool, its
/// balance is the starting balance plus the deposits less the withdrawals.
pub proof fn lemma_conservation(states: Seq<Seq<Option<Pool>>>, flows: Seq<Flow>, id: int)
    requires
        states.len() == flows.len() + 1,
        forall|k: int| 0 <= k < flows.len() ==> #[trigger] flowed(states[k], states[k + 1], id, flows[k]),
        0 <= id < states[0].len(),
        states[0][id] is Some,
    ensures
        0 <= id < states.last().len(),
        states.last()[id] is Some,
        states.last()[id]->Some_0.balance == states[0][id]->Some_0.balance + net_flow(flows),
    decreases flows.len(),
{
    if flows.len() > 0 {
        let n = flows.len() - 1;
        let s2 = states.drop_last();
        let f2 = flows.drop_last();
        assert forall|k: int| 0 <= k < f2.len() implies #[trigger] flowed(s2[k], s2[k + 1], id, f2[k]) by {
            assert(flowed(states[k], states[k + 1], id, flows[k]));
        }
        lemma_conservation(s2, f2, id);
        assert(flowed(states[n], states[n + 1], id, flows[n]));
    }
}

/// A created pool's id lies above every id given out before; right after,
/// its creator owns it and nobody else does.
pub proof fn lemma_create_pool_fresh(
    before: LiquidityPools,
    after: LiquidityPools,
    who: AccountId,
    id: LiquidityPoolId,
    other: AccountId,
)
    requires
        id as int == before@.len(),
        after@ == before@.push(Some(Pool { owner: who, enabled: true, balance: 0 })),
    ensures
        forall|j: int| before.exists_spec(j) ==> j < id,
        !before.exists_spec(id as int),
        after.is_owner_spec(id as int, who),
        other != who ==> !after.is_owner_spec(id as int, other),
{
}

/// A registry of pools. Ids are handed out in order and never reused: the
/// slot of a removed pool stays empty.
pub struct LiquidityPools {
    pools: Vec<Option<Pool>>,
    existential_deposit: u128,
}

impl View for LiquidityPools {
    type V = Seq<Option<Pool>>;

    closed spec fn view(&self) -> Seq<Option<Pool>> {
        self.pools@
    }
}

impl LiquidityPools {
    /// The least non-zero balance a pool may keep.
    pub closed spec fn min_balance(&self) -> u128 {
        self.existential_deposit
    }

    pub open spec fn wf(&self) -> bool {
        self@.len() <= u32::MAX
    }

    pub open spec fn exists_spec(&self, id: int) -> bool {
        0 <= id < self@.len() && self@[id] is Some
    }

    pub open spec fn pool_spec(&self, id: int) -> Pool
        recommends
            self.exists_spec(id),
    {
        self@[id]->Some_0
    }

    pub open spec fn is_owner_spec(&self, id: int, who: AccountId) -> bool {
        self.exists_spec(id) && self.pool_spec(id).owner == who
    }

    pub open spec fn balance_spec(&self, id: int) -> u128 {
        if self.exists_spec(id) {
            self.pool_spec(id).balance
        } else {
            0
        }
    }

    /// `after` is `self` with pool `id` replaced by `p`.
    pub open spec fn with_pool(&self, after: &Self, id: int, p: Pool) -> bool {
        &&& after@ == self@.update(id, Some(p))
        &&& after.min_balance() == self.min_balance()
    }

    /// An empty registry whose pools must keep at least `existential_deposit`.
    pub fn new(existential_deposit: u128) -> (r: Self)
        ensures
            r@ == Seq::<Option<Pool>>::empty(),
            r.min_balance() == existential_deposit,
            r.wf(),
    {
        LiquidityPools { pools: Vec::new(), existential_deposit }
    }

    /// The id the next created pool will get.
    pub fn next_pool_id(&self) -> (r: LiquidityPoolId)
        requires
            self.wf(),
        ensures
            r as int == self@.len(),
    {
        self.pools.len() as u32
    }

    /// Creates a pool owned by `who`, enabled, with a zero balance, under the
    /// next id; fails with `NumericOverflow` only once every id is taken.
    pub fn create_pool(&mut self, who: AccountId) -> (r: Result<LiquidityPoolId, Error>)
        requires
            old(self).wf(),
        ensures
            final(self).wf(),
            old(self)@.len() == u32::MAX ==> r == Err::<LiquidityPoolId, Error>(Error::NumericOverflow)
                && final(self)@ == old(self)@,
            old(self)@.len() < u32::MAX ==> r == Ok::<LiquidityPoolId, Error>(
                old(self)@.len() as LiquidityPoolId,
            ) && final(self)@ == old(self)@.push(
                Some(Pool { owner: who, enabled: true, balance: 0 }),
            ),
            final(self).min_balance() == old(self).min_balance(),
    {
        if self.pools.len() >= 0xffff_ffff {
            return Err(Error::NumericOverflow);
        }
        let id = self.pools.len() as u32;
        self.pools.push(Some(Pool { owner: who, enabled: true, balance: 0 }));
        Ok(id)
    }

    fn get(&self, id: LiquidityPoolId) -> (r: Option<Pool>)
        ensures
            r == (if self.exists_spec(id as int) {
                Some(self.pool_spec(id as int))
            } else {
                None::<Pool>
            }),
    {
        if (id as usize) < self.pools.len() {
            self.pools[id as usize]
        } else {
            None
        }
    }

    /// Whether pool `id` exists and `who` owns it; unknown ids give false.
    pub fn is_owner(&self, id: LiquidityPoolId, who: AccountId) -> (r: bool)
        ensures
            r == self.is_owner_spec(id as int, who),
    {
        match self.get(id) {
            Some(p) => p.owner == who,
            None => false,
        }
    }

    /// The owner of pool `id` with the pool's id, if it exists.
    pub fn owners(&self, id: LiquidityPoolId) -> (r: Option<(AccountId, LiquidityPoolId)>)
        ensures
            r == (if self.exists_spec(id as int) {
                Some((self.pool_spec(id as int).owner, id))
            } else {
                None::<(AccountId, LiquidityPoolId)>
            }),
    {
        match self.get(id) {
            Some(p) => Some((p.owner, id)),
            None => None,
        }
    }

    /// Whether pool `id` exists and is enabled.
    pub fn is_enabled(&self, id: LiquidityPoolId) -> (r: bool)
        ensures
            r == (self.exists_spec(id as int) && self.pool_spec(id as int).enabled),
    {
        match self.get(id) {
            Some(p) => p.enabled,
            None => false,
        }
    }

    /// The balance of pool `id`; zero for an unknown pool.
    pub fn liquidity(&self, id: LiquidityPoolId) -> (r: u128)
        ensures
            r == self.balance_spec(id as int),
    {
        match self.get(id) {
            Some(p) => p.balance,
            None => 0,
        }
    }

    /// The balance of pool `id`; zero for an unknown pool.
    pub fn balances(&self, id: LiquidityPoolId) -> (r: u128)
        ensures
            r == self.balance_spec(id as int),
    {
        self.liquidity(id)
    }

    /// The ids of the pools that exist, in increasing order.
    pub fn all(&self) -> (r: Vec<LiquidityPoolId>)
        requires
            self.wf(),
        ensures
            forall|i: int| 0 <= i < r@.len() ==> self.exists_spec(r@[i] as int),
            forall|i: int, j: int| 0 <= i < j < r@.len() ==> r@[i] < r@[j],
            forall|id: int| self.exists_spec(id) ==> r@.contains(id as LiquidityPoolId),
    {
        let mut r: Vec<LiquidityPoolId> = Vec::new();
        let mut i: usize = 0;
        while i < self.pools.len()
            invariant
                self.wf(),
                i <= self@.len(),
                forall|k: int| 0 <= k < r@.len() ==> self.exists_spec(r@[k] as int) && r@[k] < i,
                forall|k: int, j: int| 0 <= k < j < r@.len() ==> r@[k] < r@[j],
                forall|id: int| 0 <= id < i && self.exists_spec(id) ==> r@.contains(
                    id as LiquidityPoolId,
                ),
            decreases self@.len() - i,
        {
            if self.pools[i].is_some() {
                let ghost before = r@;
                r.push(i as u32);
                proof {
                    assert forall|id: int| 0 <= id < i + 1 && self.exists_spec(id) implies r@.contains(
                        id as LiquidityPoolId,
                    ) by {
                        if id < i {
                            assert(before.contains(id as LiquidityPoolId));
                            let w = choose|w: int| 0 <= w < before.len() && before[w] == id as LiquidityPoolId;
                            assert(r@[w] == id as LiquidityPoolId);
                        } else {
                            assert(r@[r@.len() - 1] == id as LiquidityPoolId);
                        }
                    }
                }
            }
            i = i + 1;
        }
        r
    }

    /// The least non-zero balance a pool may keep after a withdrawal.
    pub fn existential_deposit(&self) -> (r: u128)
        ensures
            r == self.min_balance(),
    {
        self.existential_deposit
    }

    /// Stops trading against pool `id`, for its owner.
    pub fn disable_pool(&mut self, who: AccountId, id: LiquidityPoolId) -> (r: Result<(), Error>)
        ensures
            !old(self).exists_spec(id as int) ==> r == Err::<(), Error>(Error::PoolNotFound),
            old(self).exists_spec(id as int) && !old(self).is_owner_spec(id as int, who) ==> r == Err::<(), Error>(Error::NoPermission),
            old(self).is_owner_spec(id as int, who) ==> r is Ok && old(self).with_pool(
                final(self),
                id as int,
                Pool { enabled: false, ..old(self).pool_spec(id as int) },
            ),
            r is Err ==> final(self)@ == old(self)@,
            final(self).min_balance() == old(self).min_balance(),
    {
        self.set_enabled(who, id, false)
    }

    /// Lets trading against pool `id` resume, for its owner.
    pub fn enable_pool(&mut self, who: AccountId, id: LiquidityPoolId) -> (r: Result<(), Error>)
        ensures
            !old(self).exists_spec(id as int) ==> r == Err::<(), Error>(Error::PoolNotFound),
            old(self).exists_spec(id as int) && !old(self).is_owner_spec(id as int, who) ==> r == Err::<(), Error>(Error::NoPermission),
            old(self).is_owner_spec(id as int, who) ==> r is Ok && old(self).with_pool(
                final(self),
                id as int,
                Pool { enabled: true, ..old(self).pool_spec(id as int) },
            ),
            r is Err ==> final(self)@ == old(self)@,
            final(self).min_balance() == old(self).min_balance(),
    {
        self.set_enabled(who, id, true)
    }

    fn set_enabled(&mut self, who: AccountId, id: LiquidityPoolId, enabled: bool) -> (r: Result<(), Error>)
        ensures
            !old(self).exists_spec(id as int) ==> r == Err::<(), Error>(Error::PoolNotFound),
            old(self).exists_spec(id as int) && !old(self).is_owner_spec(id as int, who) ==> r == Err::<(), Error>(Error::NoPermission),
            old(self).is_owner_spec(id as int, who) ==> r is Ok && old(self).with_pool(
                final(self),
                id as int,
                Pool { enabled, ..old(self).pool_spec(id as int) },
            ),
            r is Err ==> final(self)@ == old(self)@,
            final(self).min_balance() == old(self).min_balance(),
    {
        match self.get(id) {
            None => Err(Error::PoolNotFound),
            Some(p) => {
                if p.owner != who {
                    return Err(Error::NoPermission);
                }
                self.pools.set(id as usize, Some(Pool { enabled, ..p }));
                Ok(())
            },
        }
    }

    /// Removes pool `id` for its owner; refused with `CannotRemovePool`
    /// while the pool holds a balance. The id is not given out again.
    pub fn remove_pool(&mut self, who: AccountId, id: LiquidityPoolId) -> (r: Result<(), Error>)
        ensures
            !old(self).exists_spec(id as int) ==> r == Err::<(), Error>(Error::PoolNotFound),
            old(self).exists_spec(id as int) && !old(self).is_owner_spec(id as int, who) ==> r == Err::<(), Error>(Error::NoPermission),
            old(self).is_owner_spec(id as int, who) && old(self).pool_spec(id as int).balance > 0
                ==> r == Err::<(), Error>(Error::CannotRemovePool),
            old(self).is_owner_spec(id as int, who) && old(self).pool_spec(id as int).balance == 0
                ==> r is Ok && final(self)@ == old(self)@.update(id as int, None),
            r is Err ==> final(self)@ == old(self)@,
            final(self).min_balance() == old(self).min_balance(),
    {
        match self.get(id) {
            None => Err(Error::PoolNotFound),
            Some(p) => {
                if p.owner != who {
                    return Err(Error::NoPermission);
                }
                if p.balance > 0 {
                    return Err(Error::CannotRemovePool);
                }
                self.pools.set(id as usize, None);
                Ok(())
            },
        }
    }

    /// Adds `amount` to the balance of pool `id`.
    pub fn deposit_liquidity(&mut self, id: LiquidityPoolId, amount: u128) -> (r: Result<(), Error>)
        ensures
            !old(self).exists_spec(id as int) ==> r == Err::<(), Error>(Error::PoolNotFound),
            old(self).exists_spec(id as int) && old(self).pool_spec(id as int).balance + amount > u128::MAX
                ==> r == Err::<(), Error>(Error::NumericOverflow),
            old(self).exists_spec(id as int) && old(self).pool_spec(id as int).balance + amount <= u128::MAX
                ==> r is Ok && old(self).with_pool(
                final(self),
                id as int,
                Pool {
                    balance: (old(self).pool_spec(id as int).balance + amount) as u128,
                    ..old(self).pool_spec(id as int)
                },
            ) && flowed(old(self)@, final(self)@, id as int, Flow::Deposit(amount)),
            r is Err ==> final(self)@ == old(self)@,
            final(self).min_balance() == old(self).min_balance(),
    {
        match self.get(id) {
            None => Err(Error::PoolNotFound),
            Some(p) => match p.balance.checked_add(amount) {
                None => Err(Error::NumericOverflow),
                Some(b) => {
                    self.pools.set(id as usize, Some(Pool { balance: b, ..p }));
                    Ok(())
                },
            },
        }
    }

    /// Takes `amount` from the balance of pool `id`; what is left must be
    /// zero or at least the existential deposit.
    pub fn withdraw_liquidity(&mut self, id: LiquidityPoolId, amount: u128) -> (r: Result<(), Error>)
        ensures
            !old(self).exists_spec(id as int) ==> r == Err::<(), Error>(Error::PoolNotFound),
            old(self).exists_spec(id as int) && amount > old(self).pool_spec(id as int).balance
                ==> r == Err::<(), Error>(Error::CannotWithdrawAmount),
            old(self).exists_spec(id as int) && amount <= old(self).pool_spec(id as int).balance
                && 0 < old(self).pool_spec(id as int).balance - amount < old(self).min_balance()
                ==> r == Err::<(), Error>(Error::CannotWithdrawExistentialDeposit),
            old(self).exists_spec(id as int) && amount <= old(self).pool_spec(id as int).balance
                && (old(self).pool_spec(id as int).balance - amount == 0
                || old(self).pool_spec(id as int).balance - amount >= old(self).min_balance())
                ==> r is Ok && old(self).with_pool(
                final(self),
                id as int,
                Pool {
                    balance: (old(self).pool_spec(id as int).balance - amount) as u128,
                    ..old(self).pool_spec(id as int)
                },
            ) && flowed(old(self)@, final(self)@, id as int, Flow::Withdraw(amount)),
            r is Err ==> final(self)@ == old(self)@,
            final(self).min_balance() == old(self).min_balance(),
    {
        match self.get(id) {
            None => Err(Error::PoolNotFound),
            Some(p) => {
                if amount > p.balance {
                    return Err(Error::CannotWithdrawAmount);
                }
                if 0 < p.balance - amount && p.balance - amount < self.existential_deposit {
                    return Err(Error::CannotWithdrawExistentialDeposit);
                }
                self.pools.set(id as usize, Some(Pool { balance: p.balance - amount, ..p }));
                Ok(())
            },
        }
    }
}

} // verus!
