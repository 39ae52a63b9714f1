use liquidity_pools::error::Error;
use liquidity_pools::pools::LiquidityPools;

const ALICE: u64 = 1;
const BOB: u64 = 2;

fn registry() -> LiquidityPools {
    LiquidityPools::new(1)
}

#[test]
fn is_owner_should_work() {
    let mut m = registry();
    assert_eq!(m.create_pool(ALICE), Ok(0));
    assert!(m.is_owner(0, ALICE));
    assert!(!m.is_owner(1, ALICE));
    assert!(!m.is_owner(0, BOB));
}

#[test]
fn should_create_pool() {
    let mut m = registry();
    assert_eq!(m.create_pool(ALICE), Ok(0));
    assert_eq!(m.owners(0), Some((ALICE, 0)));
    assert_eq!(m.next_pool_id(), 1);
}

#[test]
fn should_disable_pool() {
    let mut m = registry();
    assert_eq!(m.create_pool(ALICE), Ok(0));
    assert!(m.is_enabled(0));
    assert_eq!(m.disable_pool(ALICE, 0), Ok(()));
    assert!(!m.is_enabled(0));
}

#[test]
fn should_remove_pool() {
    let mut m = registry();
    assert_eq!(m.create_pool(ALICE), Ok(0));
    assert_eq!(m.deposit_liquidity(0, 1000), Ok(()));
    assert_eq!(m.balances(0), 1000);
    assert_eq!(m.remove_pool(ALICE, 0), Err(Error::CannotRemovePool));
    assert_eq!(m.owners(0), Some((ALICE, 0)));
    assert_eq!(m.withdraw_liquidity(0, 1000), Ok(()));
    assert_eq!(m.remove_pool(ALICE, 0), Ok(()));
    assert_eq!(m.owners(0), None);
    assert_eq!(m.balances(0), 0);
    assert_eq!(m.liquidity(0), 0);
}

#[test]
fn should_deposit_liquidity() {
    let mut m = registry();
    assert_eq!(m.create_pool(ALICE), Ok(0));
    assert_eq!(m.balances(0), 0);
    assert_eq!(m.deposit_liquidity(0, 1000), Ok(()));
    assert_eq!(m.balances(0), 1000);
    assert_eq!(m.liquidity(0), 1000);
    assert_eq!(m.deposit_liquidity(1, 1000), Err(Error::PoolNotFound));
}

#[test]
fn should_withdraw_liquidity() {
    let mut m = registry();
    assert_eq!(m.create_pool(ALICE), Ok(0));
    assert_eq!(m.owners(0), Some((ALICE, 0)));
    assert_eq!(m.balances(0), 0);
    assert_eq!(m.deposit_liquidity(0, 1000), Ok(()));
    assert_eq!(m.balances(0), 1000);
    assert_eq!(m.withdraw_liquidity(0, 500), Ok(()));
    assert_eq!(m.balances(0), 500);
    assert_eq!(m.withdraw_liquidity(0, 100), Ok(()));
    assert_eq!(m.balances(0), 400);
}

#[test]
fn should_fail_withdraw_liquidity() {
    let mut m = LiquidityPools::new(10);
    assert_eq!(m.create_pool(ALICE), Ok(0));
    assert_eq!(m.deposit_liquidity(0, 1000), Ok(()));
    assert_eq!(m.balances(0), 1000);
    assert_eq!(m.withdraw_liquidity(0, 5000), Err(Error::CannotWithdrawAmount));
    assert_eq!(m.withdraw_liquidity(0, 995), Err(Error::CannotWithdrawExistentialDeposit));
    assert_eq!(m.balances(0), 1000);
    assert_eq!(m.withdraw_liquidity(0, 1000), Ok(()));
    assert_eq!(m.balances(0), 0);
}

#[test]
fn multi_instances_have_independent_storage() {
    let mut one = registry();
    let mut two = registry();
    assert_eq!(one.create_pool(ALICE), Ok(0));
    assert_eq!(one.all(), vec![0]);
    assert_eq!(two.all(), Vec::<u32>::new());
    assert_eq!(one.next_pool_id(), 1);
    assert_eq!(two.next_pool_id(), 0);

    assert_eq!(two.create_pool(ALICE), Ok(0));

    assert_eq!(one.deposit_liquidity(0, 1000), Ok(()));
    assert_eq!(one.balances(0), 1000);
    assert_eq!(two.balances(0), 0);
}

#[test]
fn removed_ids_are_not_reused() {
    let mut m = registry();
    assert_eq!(m.create_pool(ALICE), Ok(0));
    assert_eq!(m.create_pool(BOB), Ok(1));
    assert_eq!(m.remove_pool(ALICE, 0), Ok(()));
    assert_eq!(m.create_pool(ALICE), Ok(2));
    assert_eq!(m.all(), vec![1, 2]);
    assert_eq!(m.owners(2), Some((ALICE, 2)));
    assert!(!m.is_owner(0, ALICE));
}

#[test]
fn only_the_owner_manages_a_pool() {
    let mut m = registry();
    assert_eq!(m.create_pool(ALICE), Ok(0));
    assert_eq!(m.disable_pool(BOB, 0), Err(Error::NoPermission));
    assert_eq!(m.remove_pool(BOB, 0), Err(Error::NoPermission));
    assert_eq!(m.disable_pool(ALICE, 7), Err(Error::PoolNotFound));
    assert_eq!(m.remove_pool(ALICE, 7), Err(Error::PoolNotFound));
    assert_eq!(m.disable_pool(ALICE, 0), Ok(()));
    assert_eq!(m.enable_pool(ALICE, 0), Ok(()));
    assert!(m.is_enabled(0));
}

#[test]
fn deposits_less_withdrawals_give_the_balance() {
    let mut m = LiquidityPools::new(10);
    assert_eq!(m.create_pool(ALICE), Ok(0));
    assert_eq!(m.deposit_liquidity(0, 300), Ok(()));
    assert_eq!(m.deposit_liquidity(0, 200), Ok(()));
    assert_eq!(m.withdraw_liquidity(0, 120), Ok(()));
    assert_eq!(m.deposit_liquidity(0, 20), Ok(()));
    assert_eq!(m.withdraw_liquidity(0, 390), Ok(()));
    assert_eq!(m.liquidity(0), 300 + 200 - 120 + 20 - 390);
    assert_eq!(m.withdraw_liquidity(0, 1), Err(Error::CannotWithdrawExistentialDeposit));
    assert_eq!(m.withdraw_liquidity(0, 11), Err(Error::CannotWithdrawAmount));
    assert_eq!(m.liquidity(0), 10);
}

#[test]
fn deposit_overflow_is_refused() {
    let mut m = registry();
    assert_eq!(m.create_pool(ALICE), Ok(0));
    assert_eq!(m.deposit_liquidity(0, u128::MAX), Ok(()));
    assert_eq!(m.deposit_liquidity(0, 1), Err(Error::NumericOverflow));
    assert_eq!(m.liquidity(0), u128::MAX);
}
