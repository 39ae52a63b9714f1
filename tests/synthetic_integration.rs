use liquidity_pools::error::Error;
use liquidity_pools::fixed::DIV;
use liquidity_pools::synthetic::SyntheticProtocol;
use std::collections::HashMap;

const POOL: u64 = 100;
const ALICE: u64 = 1;
const BOB: u64 = 2;
const FEUR: u32 = 1;
const FJPY: u32 = 2;

fn dollar(x: u128) -> u128 {
    x * DIV
}

fn percent(x: u32) -> u32 {
    x * 10_000
}

fn rational(n: u128, d: u128) -> u128 {
    n * DIV / d
}

/// The engine with a ledger of collateral and synthetic balances around it.
struct Market {
    engine: SyntheticProtocol,
    pool: u32,
    cash: HashMap<u64, u128>,
    synth: HashMap<(u64, u32), u128>,
    prices: HashMap<u32, u128>,
}

impl Market {
    fn new(balances: &[(u64, u128)]) -> Market {
        let mut engine = SyntheticProtocol::new(10);
        let pool = engine.create_pool(POOL).unwrap();
        let mut cash = HashMap::new();
        for (who, amount) in balances {
            cash.insert(*who, *amount);
        }
        Market { engine, pool, cash, synth: HashMap::new(), prices: HashMap::new() }
    }

    fn set_enabled_trades(&mut self) -> Result<(), Error> {
        self.engine.set_enabled_trades(POOL, self.pool, FEUR, true)?;
        self.engine.set_enabled_trades(POOL, self.pool, FJPY, true)
    }

    fn set_spread(&mut self, asset: u32, spread: u32) -> Result<(), Error> {
        self.engine.set_spread(POOL, self.pool, asset, spread)
    }

    fn set_ratio(&mut self, asset: u32, ratio: u32) -> Result<(), Error> {
        self.engine.set_additional_collateral_ratio(POOL, self.pool, asset, Some(ratio))
    }

    fn set_price(&mut self, asset: u32, price: u128) {
        self.prices.insert(asset, price);
    }

    fn price(&self, asset: u32) -> Option<u128> {
        self.prices.get(&asset).copied()
    }

    fn collateral_balance(&self, who: u64) -> u128 {
        self.cash.get(&who).copied().unwrap_or(0)
    }

    fn multi_currency_balance(&self, who: u64, asset: u32) -> u128 {
        self.synth.get(&(who, asset)).copied().unwrap_or(0)
    }

    fn synthetic_balance(&self) -> u128 {
        self.engine.total_locked()
    }

    fn synthetic_liquidity(&self) -> u128 {
        self.engine.liquidity(self.pool)
    }

    fn deposit_liquidity(&mut self, who: u64, amount: u128) -> Result<(), Error> {
        let free = self.collateral_balance(who);
        if amount > free {
            return Err(Error::InsufficientBalance);
        }
        self.engine.deposit_liquidity(self.pool, amount)?;
        self.cash.insert(who, free - amount);
        Ok(())
    }

    fn withdraw_liquidity(&mut self, who: u64, amount: u128) -> Result<(), Error> {
        self.engine.withdraw_liquidity(self.pool, amount)?;
        let free = self.collateral_balance(who);
        self.cash.insert(who, free + amount);
        Ok(())
    }

    fn buy(&mut self, who: u64, asset: u32, amount: u128) -> Result<(), Error> {
        let free = self.collateral_balance(who);
        let minted = self.engine.buy(self.pool, asset, amount, free, self.price(asset))?;
        self.cash.insert(who, free - amount);
        let held = self.multi_currency_balance(who, asset);
        self.synth.insert((who, asset), held + minted);
        Ok(())
    }

    fn sell(&mut self, who: u64, asset: u32, amount: u128) -> Result<(), Error> {
        let held = self.multi_currency_balance(who, asset);
        let s = self.engine.sell(self.pool, asset, amount, held, self.price(asset))?;
        let free = self.collateral_balance(who);
        self.cash.insert(who, free + s.paid);
        self.synth.insert((who, asset), s.remaining);
        Ok(())
    }

    fn liquidate(&mut self, who: u64, asset: u32, amount: u128) -> Result<(), Error> {
        let held = self.multi_currency_balance(who, asset);
        let s = self.engine.liquidate(self.pool, asset, amount, held, self.price(asset))?;
        let free = self.collateral_balance(who);
        self.cash.insert(who, free + s.paid);
        self.synth.insert((who, asset), s.remaining);
        Ok(())
    }

    fn add_collateral(&mut self, who: u64, asset: u32, amount: u128) -> Result<(), Error> {
        let free = self.collateral_balance(who);
        self.engine.add_collateral(self.pool, asset, amount, free)?;
        self.cash.insert(who, free - amount);
        Ok(())
    }
}

/// A pool funded with `liquidity`, FEUR at 10% ratio and 1% spread, price 3.
fn feur_market(pool_cash: u128, alice_cash: u128, liquidity: u128) -> Market {
    let mut m = Market::new(&[(POOL, pool_cash), (ALICE, alice_cash)]);
    assert_eq!(m.set_enabled_trades(), Ok(()));
    assert_eq!(m.deposit_liquidity(POOL, liquidity), Ok(()));
    assert_eq!(m.engine.set_min_additional_collateral_ratio(percent(10)), Ok(()));
    assert_eq!(m.engine.set_liquidation_ratio(percent(5)), Ok(()));
    assert_eq!(m.set_ratio(FEUR, percent(10)), Ok(()));
    assert_eq!(m.set_spread(FEUR, percent(1)), Ok(()));
    m.set_price(FEUR, rational(3, 1));
    m
}

#[test]
fn test_synthetic_buy_and_sell() {
    let mut m = feur_market(dollar(10_000), dollar(10_000), dollar(10_000));
    assert_eq!(m.collateral_balance(ALICE), dollar(10_000));
    assert_eq!(m.collateral_balance(POOL), 0);
    assert_eq!(m.synthetic_liquidity(), dollar(10_000));
    assert_eq!(m.synthetic_balance(), 0);
    assert_eq!(m.buy(ALICE, FEUR, dollar(5000)), Ok(()));
    assert_eq!(m.collateral_balance(ALICE), dollar(5000));
    assert_eq!(m.multi_currency_balance(ALICE, FEUR), 1650165016501650165016);
    assert_eq!(m.synthetic_balance(), 5445544554455445544553);
    assert_eq!(m.synthetic_liquidity(), 9554455445544554455447);

    assert_eq!(m.sell(ALICE, FEUR, dollar(800)), Ok(()));
    assert_eq!(m.multi_currency_balance(ALICE, FEUR), 850165016501650165016);
    assert_eq!(m.collateral_balance(ALICE), dollar(7376));
    assert_eq!(m.synthetic_balance(), 2805544554455445544553);
    assert_eq!(m.synthetic_liquidity(), 9818455445544554455447);
}

#[test]
fn test_synthetic_buy_all_of_collateral() {
    let mut m = Market::new(&[(POOL, 1000), (ALICE, 1000)]);
    assert_eq!(m.set_enabled_trades(), Ok(()));
    assert_eq!(m.deposit_liquidity(POOL, 1000), Ok(()));
    assert_eq!(m.set_ratio(FEUR, percent(100)), Ok(()));
    assert_eq!(m.set_spread(FEUR, percent(1)), Ok(()));
    m.set_price(FEUR, rational(1, 1));

    assert_eq!(m.collateral_balance(ALICE), 1000);
    assert_eq!(m.collateral_balance(POOL), 0);
    assert_eq!(m.synthetic_liquidity(), 1000);
    assert_eq!(m.synthetic_balance(), 0);
    assert_eq!(m.buy(ALICE, FEUR, 1000), Ok(()));
    assert_eq!(m.multi_currency_balance(ALICE, FEUR), 990);
    assert_eq!(m.collateral_balance(ALICE), 0);
    assert_eq!(m.synthetic_balance(), 1980);
    assert_eq!(m.synthetic_liquidity(), 20);

    assert_eq!(m.sell(ALICE, FEUR, 990), Ok(()));
    assert_eq!(m.multi_currency_balance(ALICE, FEUR), 0);
    assert_eq!(m.collateral_balance(ALICE), 980);
    assert_eq!(m.synthetic_balance(), 0);
    assert_eq!(m.synthetic_liquidity(), 1020);
}

fn bought_at_three() -> Market {
    let mut m = feur_market(dollar(10_000), dollar(10_000), dollar(10_000));
    assert_eq!(m.collateral_balance(ALICE), dollar(10_000));
    assert_eq!(m.collateral_balance(POOL), 0);
    assert_eq!(m.synthetic_liquidity(), dollar(10_000));
    assert_eq!(m.synthetic_balance(), 0);
    assert_eq!(m.buy(ALICE, FEUR, dollar(5000)), Ok(()));
    assert_eq!(m.collateral_balance(ALICE), dollar(5000));
    assert_eq!(m.multi_currency_balance(ALICE, FEUR), 1650165016501650165016);
    assert_eq!(m.synthetic_balance(), 5445544554455445544553);
    assert_eq!(m.synthetic_liquidity(), 9554455445544554455447);
    m
}

#[test]
fn test_synthetic_trader_take_profit() {
    let mut m = bought_at_three();
    m.set_price(FEUR, rational(31, 10));
    let all = m.multi_currency_balance(ALICE, FEUR);
    assert_eq!(m.sell(ALICE, FEUR, all), Ok(()));
    assert_eq!(m.multi_currency_balance(ALICE, FEUR), 0);
    assert_eq!(m.collateral_balance(ALICE), 10064356435643564356434);
    assert_eq!(m.synthetic_balance(), 0);
    assert_eq!(m.synthetic_liquidity(), 9935643564356435643566);
}

#[test]
fn test_synthetic_trader_stop_lost() {
    let mut m = bought_at_three();
    m.set_price(FEUR, rational(2, 1));
    let all = m.multi_currency_balance(ALICE, FEUR);
    assert_eq!(m.sell(ALICE, FEUR, all), Ok(()));
    assert_eq!(m.multi_currency_balance(ALICE, FEUR), 0);
    assert_eq!(m.collateral_balance(ALICE), 8267326732673267326731);
    assert_eq!(m.synthetic_balance(), 0);
    assert_eq!(m.synthetic_liquidity(), 11732673267326732673269);
}

#[test]
fn test_synthetic_multiple_users() {
    let mut m = Market::new(&[(POOL, dollar(20_000)), (ALICE, dollar(10_000)), (BOB, dollar(10_000))]);
    assert_eq!(m.set_enabled_trades(), Ok(()));
    assert_eq!(m.deposit_liquidity(POOL, dollar(20_000)), Ok(()));
    assert_eq!(m.engine.set_min_additional_collateral_ratio(percent(10)), Ok(()));
    assert_eq!(m.set_ratio(FEUR, percent(10)), Ok(()));
    assert_eq!(m.set_spread(FEUR, percent(1)), Ok(()));
    m.set_price(FEUR, rational(3, 1));

    assert_eq!(m.collateral_balance(POOL), 0);
    assert_eq!(m.collateral_balance(ALICE), dollar(10_000));
    assert_eq!(m.collateral_balance(BOB), dollar(10_000));
    assert_eq!(m.synthetic_liquidity(), dollar(20_000));
    assert_eq!(m.synthetic_balance(), 0);

    assert_eq!(m.buy(ALICE, FEUR, dollar(5000)), Ok(()));
    assert_eq!(m.collateral_balance(ALICE), dollar(5000));
    assert_eq!(m.multi_currency_balance(ALICE, FEUR), 1650165016501650165016);
    assert_eq!(m.synthetic_balance(), 5445544554455445544553);
    assert_eq!(m.synthetic_liquidity(), 19554455445544554455447);

    assert_eq!(m.buy(BOB, FEUR, dollar(5000)), Ok(()));
    assert_eq!(m.collateral_balance(BOB), dollar(5000));
    assert_eq!(m.multi_currency_balance(BOB, FEUR), 1650165016501650165016);
    assert_eq!(m.synthetic_balance(), 10891089108910891089106);
    assert_eq!(m.synthetic_liquidity(), 19108910891089108910894);

    m.set_price(FEUR, rational(2, 1));

    assert_eq!(m.buy(ALICE, FEUR, dollar(2000)), Ok(()));
    assert_eq!(m.collateral_balance(ALICE), dollar(3000));
    assert_eq!(m.multi_currency_balance(ALICE, FEUR), 2640264026402640264025);
    assert_eq!(m.synthetic_balance(), 13069306930693069306926);
    assert_eq!(m.synthetic_liquidity(), 18930693069306930693074);
    assert_eq!(m.sell(BOB, FEUR, dollar(1000)), Ok(()));
    assert_eq!(m.collateral_balance(BOB), 6980000000000000000000);
    assert_eq!(m.multi_currency_balance(BOB, FEUR), 650165016501650165016);
    assert_eq!(m.synthetic_balance(), 7238943894389438943890);
    assert_eq!(m.synthetic_liquidity(), 22781056105610561056110);

    assert_eq!(m.sell(ALICE, FEUR, dollar(1000)), Ok(()));
    assert_eq!(m.collateral_balance(ALICE), 4980000000000000000000);
    assert_eq!(m.multi_currency_balance(ALICE, FEUR), 1640264026402640264025);
    assert_eq!(m.synthetic_balance(), 5038943894389438943890);
    assert_eq!(m.synthetic_liquidity(), 23001056105610561056110);
    assert_eq!(m.buy(BOB, FEUR, dollar(2000)), Ok(()));
    assert_eq!(m.collateral_balance(BOB), 4980000000000000000000);
    assert_eq!(m.multi_currency_balance(BOB, FEUR), 1640264026402640264025);
    assert_eq!(m.synthetic_balance(), 7217161716171617161710);
    assert_eq!(m.synthetic_liquidity(), 22822838283828382838290);

    let a = m.multi_currency_balance(ALICE, FEUR);
    assert_eq!(m.sell(ALICE, FEUR, a), Ok(()));
    let b = m.multi_currency_balance(BOB, FEUR);
    assert_eq!(m.sell(BOB, FEUR, b), Ok(()));
    assert_eq!(m.multi_currency_balance(ALICE, FEUR), 0);
    assert_eq!(m.collateral_balance(ALICE), 8227722772277227722769);
    assert_eq!(m.multi_currency_balance(BOB, FEUR), 0);
    assert_eq!(m.collateral_balance(BOB), 8227722772277227722769);
    assert_eq!(m.synthetic_balance(), 0);
    assert_eq!(m.synthetic_liquidity(), 23544554455445544554462);
}

#[test]
fn test_synthetic_multiple_users_multiple_currencies() {
    let mut m = Market::new(&[(POOL, dollar(40_000)), (ALICE, dollar(10_000)), (BOB, dollar(10_000))]);
    assert_eq!(m.set_enabled_trades(), Ok(()));
    assert_eq!(m.deposit_liquidity(POOL, dollar(40_000)), Ok(()));
    assert_eq!(m.engine.set_min_additional_collateral_ratio(percent(10)), Ok(()));
    assert_eq!(m.set_ratio(FEUR, percent(10)), Ok(()));
    assert_eq!(m.set_ratio(FJPY, percent(10)), Ok(()));
    assert_eq!(m.set_spread(FEUR, percent(1)), Ok(()));
    assert_eq!(m.set_spread(FJPY, percent(1)), Ok(()));
    m.set_price(FEUR, rational(3, 1));
    m.set_price(FJPY, rational(4, 1));

    assert_eq!(m.collateral_balance(POOL), 0);
    assert_eq!(m.collateral_balance(ALICE), dollar(10_000));
    assert_eq!(m.collateral_balance(BOB), dollar(10_000));
    assert_eq!(m.synthetic_liquidity(), dollar(40_000));
    assert_eq!(m.synthetic_balance(), 0);

    assert_eq!(m.buy(ALICE, FEUR, dollar(5000)), Ok(()));
    assert_eq!(m.collateral_balance(ALICE), dollar(5000));
    assert_eq!(m.multi_currency_balance(ALICE, FEUR), 1650165016501650165016);
    assert_eq!(m.synthetic_balance(), 5445544554455445544553);
    assert_eq!(m.synthetic_liquidity(), 39554455445544554455447);

    assert_eq!(m.buy(BOB, FJPY, dollar(5000)), Ok(()));
    assert_eq!(m.collateral_balance(BOB), dollar(5000));
    assert_eq!(m.multi_currency_balance(BOB, FJPY), 1237623762376237623762);
    assert_eq!(m.synthetic_balance(), 10891089108910891089106);
    assert_eq!(m.synthetic_liquidity(), 39108910891089108910894);

    m.set_price(FEUR, rational(2, 1));
    m.set_price(FJPY, rational(5, 1));

    assert_eq!(m.buy(ALICE, FJPY, dollar(2000)), Ok(()));
    assert_eq!(m.collateral_balance(ALICE), dollar(3000));
    assert_eq!(m.multi_currency_balance(ALICE, FJPY), 396039603960396039603);
    assert_eq!(m.synthetic_balance(), 13069306930693069306922);
    assert_eq!(m.synthetic_liquidity(), 38930693069306930693078);

    assert_eq!(m.buy(BOB, FEUR, dollar(2000)), Ok(()));
    assert_eq!(m.collateral_balance(BOB), dollar(3000));
    assert_eq!(m.multi_currency_balance(BOB, FEUR), 990099009900990099009);
    assert_eq!(m.synthetic_balance(), 15247524752475247524742);
    assert_eq!(m.synthetic_liquidity(), 38752475247524752475258);

    assert_eq!(m.sell(ALICE, FEUR, dollar(100)), Ok(()));
    assert_eq!(m.collateral_balance(ALICE), 3198000000000000000000);
    assert_eq!(m.multi_currency_balance(ALICE, FEUR), 1550165016501650165016);
    assert_eq!(m.synthetic_balance(), 13212343234323432343224);
    assert_eq!(m.synthetic_liquidity(), 40589656765676567656776);

    assert_eq!(m.sell(BOB, FJPY, dollar(100)), Ok(()));
    assert_eq!(m.collateral_balance(BOB), 3495000000000000000000);
    assert_eq!(m.multi_currency_balance(BOB, FJPY), 1137623762376237623762);
    assert_eq!(m.synthetic_balance(), 12717343234323432343224);
    assert_eq!(m.synthetic_liquidity(), 40589656765676567656776);

    assert_eq!(m.sell(ALICE, FJPY, dollar(100)), Ok(()));
    assert_eq!(m.collateral_balance(ALICE), 3693000000000000000000);
    assert_eq!(m.multi_currency_balance(ALICE, FJPY), 296039603960396039603);
    assert_eq!(m.synthetic_balance(), 12222343234323432343224);
    assert_eq!(m.synthetic_liquidity(), 40589656765676567656776);

    assert_eq!(m.sell(BOB, FEUR, dollar(100)), Ok(()));
    assert_eq!(m.collateral_balance(BOB), 3693000000000000000000);
    assert_eq!(m.multi_currency_balance(BOB, FEUR), 890099009900990099009);
    assert_eq!(m.synthetic_balance(), 12002343234323432343224);
    assert_eq!(m.synthetic_liquidity(), 40611656765676567656776);
}

fn bought_then_dropped() -> Market {
    let mut m = feur_market(dollar(20_000), dollar(10_000), dollar(20_000));
    assert_eq!(m.buy(ALICE, FEUR, dollar(5000)), Ok(()));
    m.set_price(FEUR, rational(300, 90));
    m
}

#[test]
fn test_synthetic_liquidate_position() {
    let mut m = bought_then_dropped();
    let all = m.multi_currency_balance(ALICE, FEUR);
    assert_eq!(m.liquidate(ALICE, FEUR, all), Ok(()));
    assert_eq!(m.synthetic_liquidity(), 19554455445544554455447);
    assert_eq!(m.collateral_balance(ALICE), 10445544554455445544552);
    assert_eq!(m.multi_currency_balance(ALICE, FEUR), 0);
    assert_eq!(m.synthetic_balance(), 0);
    assert_eq!(m.synthetic_liquidity(), 19554455445544554455447);
}

#[test]
fn test_synthetic_add_collateral() {
    let mut m = Market::new(&[(POOL, dollar(40_000)), (ALICE, dollar(10_000))]);
    assert_eq!(m.set_enabled_trades(), Ok(()));
    assert_eq!(m.deposit_liquidity(POOL, dollar(20_000)), Ok(()));
    assert_eq!(m.engine.set_min_additional_collateral_ratio(percent(10)), Ok(()));
    assert_eq!(m.engine.set_liquidation_ratio(percent(5)), Ok(()));
    assert_eq!(m.set_ratio(FEUR, percent(1)), Ok(()));
    assert_eq!(m.set_spread(FEUR, percent(1)), Ok(()));
    m.set_price(FEUR, rational(3, 1));

    assert_eq!(m.buy(ALICE, FEUR, dollar(5000)), Ok(()));
    m.set_price(FEUR, rational(300, 90));

    assert_eq!(m.liquidate(ALICE, FEUR, 1), Ok(()));
    assert_eq!(m.add_collateral(POOL, FEUR, dollar(20_000)), Ok(()));
    assert_eq!(m.liquidate(ALICE, FEUR, 1), Err(Error::StillInSafePosition));
}

#[test]
fn test_synthetic_liquidate_partially() {
    let mut m = bought_then_dropped();
    assert_eq!(m.liquidate(ALICE, FEUR, dollar(800)), Ok(()));
    assert_eq!(m.collateral_balance(ALICE), 7640000000000000000000);
    assert_eq!(m.multi_currency_balance(ALICE, FEUR), 850165016501650165016);
    assert_eq!(m.synthetic_balance(), 2805544554455445544553);
    assert_eq!(m.synthetic_liquidity(), 19554455445544554455447);

    let rest = m.multi_currency_balance(ALICE, FEUR);
    assert_eq!(m.liquidate(ALICE, FEUR, rest), Ok(()));
    assert_eq!(m.collateral_balance(ALICE), 10445544554455445544552);
    assert_eq!(m.multi_currency_balance(ALICE, FEUR), 0);
    assert_eq!(m.synthetic_balance(), 0);
    assert_eq!(m.synthetic_liquidity(), 19554455445544554455447);
    assert_eq!(m.withdraw_liquidity(POOL, dollar(1000)), Ok(()));
    assert_eq!(m.synthetic_liquidity(), 18554455445544554455447);
}

#[test]
fn test_synthetic_liquidate_remove() {
    let mut m = feur_market(dollar(20_000), dollar(10_000), dollar(20_000));
    assert_eq!(m.buy(ALICE, FEUR, dollar(5000)), Ok(()));
    assert_eq!(m.multi_currency_balance(ALICE, FEUR), 1650165016501650165016);
    let pool = m.pool;
    assert_eq!(m.engine.remove_pool(POOL, pool), Err(Error::CannotRemovePool));

    let all = m.multi_currency_balance(ALICE, FEUR);
    assert_eq!(m.sell(ALICE, FEUR, all), Ok(()));
    assert_eq!(m.multi_currency_balance(ALICE, FEUR), 0);
    assert_eq!(m.engine.disable_pool(POOL, pool), Ok(()));
    assert_eq!(m.engine.remove_pool(POOL, pool), Err(Error::CannotRemovePool));
    let left = m.synthetic_liquidity();
    assert_eq!(m.withdraw_liquidity(POOL, left), Ok(()));
    assert_eq!(m.engine.remove_pool(POOL, pool), Ok(()));
}
