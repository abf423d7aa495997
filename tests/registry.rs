use oracle_core::external_value::ExternalValue;
use oracle_core::oracle::OracleError;
use oracle_core::registry::{Error, Event, Registry};

const ALICE: u64 = 123;
const BOB: u64 = 225;
const CAROL: u64 = 326;
const EVE: u64 = 931;
const JUDY: u64 = 839;
const OSCAR: u64 = 754;
const ERIN: u64 = 635;

const TABLE_ID: u32 = 0;
const ORACLE_NAME: &str = "test";
const EXCHANGES: [&str; 7] = ["BTC/USD", "AUD/USD", "EUR/USD", "GBP/USD", "USD/CAD", "USD/CHF", "USD/JPY"];
const EXTERNAL_DATA: [[u128; 4]; 7] = [[878779, 886967, 886967, 886967]; 7];

const AGGREGATION_PERIOD: u64 = 60 * 9;
const CALCULATION_PERIOD: u64 = 60 * 10;

fn get_asset_names() -> Vec<Vec<u8>> {
    EXCHANGES.iter().map(|pair| pair.as_bytes().to_vec()).collect()
}

fn get_asset_value(moment: usize, offset: u128) -> Vec<u128> {
    EXTERNAL_DATA.iter().map(|data| data[moment] + offset).collect()
}

/// The `size` accounts with the most votes, most voted first.
fn head_of(votes: &[(u64, u128)], size: u8) -> Vec<u64> {
    let mut ranked = votes.to_vec();
    ranked.sort_by(|a, b| b.1.cmp(&a.1));
    ranked.into_iter().take(size as usize).map(|(account, _)| account).collect()
}

fn add_votes(votes: &mut Vec<(u64, u128)>, added: &[(u64, u128)]) {
    for &(account, balance) in added {
        match votes.iter_mut().find(|(a, _)| *a == account) {
            Some(entry) => entry.1 += balance,
            None => votes.push((account, balance)),
        }
    }
}

fn create_oracle(registry: &mut Registry, source_limit: u8, now: u64) -> Result<Event, Error> {
    registry.create_oracle(
        ALICE,
        now,
        ORACLE_NAME.as_bytes().to_vec(),
        source_limit,
        CALCULATION_PERIOD,
        AGGREGATION_PERIOD,
        TABLE_ID,
        get_asset_names(),
    )
}

#[test]
fn tests_create() {
    let mut registry = Registry::new();
    assert_eq!(create_oracle(&mut registry, 4, 0), Ok(Event::OracleCreated(0, ALICE)));
    assert_eq!(registry.next_oracle_id, 1);
    assert!(registry.oracles[&0].values.iter().all(|v| v.is_clean()));
}

#[test]
fn update_accounts() {
    let mut registry = Registry::new();
    let oracle_id = registry.next_oracle_id;
    assert!(create_oracle(&mut registry, 3, 0).is_ok());

    let mut now = 100;
    let mut votes = Vec::new();
    add_votes(&mut votes, &[(ALICE, 1)]);

    assert_eq!(
        registry.push(ALICE, now, oracle_id, get_asset_value(0, 10), head_of(&votes, 3)),
        Err(Error::NotEnoughSources)
    );

    add_votes(&mut votes, &[(ALICE, 96), (OSCAR, 97), (JUDY, 98), (CAROL, 99), (BOB, 100), (EVE, 101)]);

    for account in [EVE, BOB, CAROL] {
        assert_eq!(registry.push(account, now, oracle_id, get_asset_value(0, 0), head_of(&votes, 3)), Ok(()));
    }
    for account in [JUDY, OSCAR, ALICE, ERIN] {
        assert_eq!(
            registry.push(account, now, oracle_id, get_asset_value(0, 20), head_of(&votes, 3)),
            Err(Error::AccountPermissionDenied)
        );
    }

    add_votes(&mut votes, &[(ALICE, 100), (OSCAR, 100), (JUDY, 100)]);
    now = 700;

    for account in [ALICE, OSCAR, JUDY] {
        assert_eq!(registry.push(account, now, oracle_id, get_asset_value(0, 0), head_of(&votes, 3)), Ok(()));
    }
    for account in [EVE, BOB, CAROL, ERIN] {
        assert_eq!(
            registry.push(account, now, oracle_id, get_asset_value(0, 20), head_of(&votes, 3)),
            Err(Error::AccountPermissionDenied)
        );
    }
}

#[test]
fn aggregation() {
    let mut registry = Registry::new();
    let oracle_id = registry.next_oracle_id;
    assert!(create_oracle(&mut registry, 3, 0).is_ok());

    let votes = vec![(CAROL, 99), (BOB, 100), (EVE, 101)];
    let head = head_of(&votes, 3);
    let accounts = [EVE, BOB, CAROL];
    for &account in accounts.iter() {
        assert_eq!(registry.push(account, 0, oracle_id, get_asset_value(0, 20), head.clone()), Ok(()));
    }

    for now in (AGGREGATION_PERIOD + 1)..CALCULATION_PERIOD {
        for &account in accounts.iter() {
            assert_eq!(
                registry.push(account, now, oracle_id, get_asset_value(0, 20), head.clone()),
                Err(Error::NotAggregationTime)
            );
        }
    }

    for &account in accounts.iter() {
        assert_eq!(
            registry.push(account, CALCULATION_PERIOD, oracle_id, get_asset_value(0, 20), head.clone()),
            Ok(())
        );
    }
}

#[test]
fn calculate_publishes_once_per_period() {
    let mut registry = Registry::new();
    create_oracle(&mut registry, 3, 0).unwrap();
    let head = vec![EVE, BOB, CAROL, JUDY];
    for (i, account) in head.iter().enumerate() {
        registry.push(*account, 10, 0, get_asset_value(1, 10 * i as u128), head.clone()).unwrap();
    }
    // Median of 886967 + {0, 10, 20, 30}, in ascending order of account.
    assert_eq!(registry.calculate(541, 0, 2, head.clone()), Ok(Event::OracleUpdated(0, 2, 886982)));
    assert_eq!(registry.oracles[&0].values[2], ExternalValue::new(886982, 541));
    assert_eq!(registry.get_external_value(0, 2), Ok((886982, 541)));
    assert_eq!(registry.calculate(599, 0, 2, head.clone()), Err(Error::NotCalculateTime));
    assert_eq!(registry.calculate(600, 0, 2, head.clone()), Err(Error::NotCalculateTime));
    // Period 1 without pushes.
    assert_eq!(registry.calculate(1141, 0, 2, head.clone()), Err(Error::NotEnoughValues));
}

#[test]
fn roster_rotates_at_period_start() {
    let mut registry = Registry::new();
    create_oracle(&mut registry, 3, 0).unwrap();
    let first = vec![ALICE, BOB, CAROL];
    for account in first.iter() {
        registry.push(*account, 5, 0, get_asset_value(0, 1), first.clone()).unwrap();
    }
    let second = vec![EVE, JUDY, OSCAR];
    // Within period 0 the roster stays.
    assert_eq!(registry.push(ALICE, 6, 0, get_asset_value(0, 1), second.clone()), Ok(()));
    assert_eq!(registry.push(EVE, 6, 0, get_asset_value(0, 1), second.clone()), Err(Error::AccountPermissionDenied));
    // At the start of period 1 it is renewed.
    assert_eq!(registry.push(EVE, 600, 0, get_asset_value(0, 1), second.clone()), Ok(()));
    let oracle = &registry.oracles[&0];
    let keys: Vec<u64> = oracle.sources.keys().cloned().collect();
    assert_eq!(keys, vec![OSCAR, JUDY, EVE]);
    assert!(oracle.sources[&JUDY].iter().all(|v| v.is_clean()));
    assert_eq!(oracle.period_handler.last_sources_update, Some(600));
    assert_eq!(registry.push(ALICE, 601, 0, get_asset_value(0, 1), second.clone()), Err(Error::AccountPermissionDenied));
}

#[test]
fn dispatch_errors() {
    let mut registry = Registry::new();
    let head = vec![EVE, BOB, CAROL];
    assert_eq!(registry.push(EVE, 0, 0, get_asset_value(0, 0), head.clone()), Err(Error::NoneValue));
    assert_eq!(registry.calculate(0, 0, 0, head.clone()), Err(Error::NoneValue));
    assert_eq!(registry.get_external_value(0, 0), Err(Error::WrongValueId));
    assert_eq!(
        registry.create_oracle(ALICE, 0, vec![], 3, 10, 10, TABLE_ID, get_asset_names()),
        Err(Error::WrongPeriods)
    );
    assert_eq!(registry.next_oracle_id, 0);

    create_oracle(&mut registry, 3, 100).unwrap();
    assert_eq!(registry.push(EVE, 99, 0, get_asset_value(0, 0), head.clone()), Err(Error::NoneValue));
    assert_eq!(registry.calculate(105, 0, 0, head.clone()), Err(Error::NotCalculateTime));
    assert_eq!(registry.push(EVE, 100, 0, vec![1, 2], head.clone()), Err(Error::WrongValuesCount));
    assert_eq!(registry.push(EVE, 100, 0, get_asset_value(0, 0), head.clone()), Ok(()));
    assert_eq!(registry.push(EVE, 641, 0, get_asset_value(0, 0), head.clone()), Err(Error::NotAggregationTime));
    assert_eq!(registry.calculate(641, 0, 7, head.clone()), Err(Error::WrongValueId));
    assert_eq!(registry.calculate(641, 0, 0, head.clone()), Err(Error::NotEnoughValues));
    assert_eq!(registry.get_external_value(0, 0), Err(Error::NotCalculatedValue));
    assert_eq!(registry.get_external_value(0, 7), Err(Error::WrongValueId));

    registry.next_oracle_id = u32::MAX;
    assert_eq!(create_oracle(&mut registry, 3, 0), Err(Error::OracleIdOverflow));
}

#[test]
fn get_or_calculate_calculates_once() {
    let mut registry = Registry::new();
    create_oracle(&mut registry, 2, 0).unwrap();
    let head = vec![EVE, BOB];
    registry.push(EVE, 1, 0, get_asset_value(0, 0), head.clone()).unwrap();
    registry.push(BOB, 2, 0, get_asset_value(0, 2), head.clone()).unwrap();
    assert_eq!(registry.get_or_calculate_external_value(545, 0, 3, head.clone()), Ok((878780, 545)));
    assert_eq!(registry.get_or_calculate_external_value(560, 0, 3, head.clone()), Ok((878780, 545)));
    assert_eq!(registry.get_or_calculate_external_value(560, 0, 9, head.clone()), Err(Error::WrongValueId));
    assert_eq!(registry.get_or_calculate_external_value(560, 1, 0, head.clone()), Err(Error::WrongValueId));
}

#[test]
fn oracle_errors_map_to_dispatch_errors() {
    assert_eq!(Error::from(OracleError::FewSources(3, 1)), Error::NotEnoughSources);
    assert_eq!(Error::from(OracleError::FewPushedValue(3, 1)), Error::NotEnoughValues);
    assert_eq!(Error::from(OracleError::EmptyPushedValueInPeriod), Error::NotEnoughValues);
    assert_eq!(Error::from(OracleError::WrongValuesCount(3, 1)), Error::WrongValuesCount);
    assert_eq!(Error::from(OracleError::WrongValueId(9)), Error::WrongValueId);
    assert_eq!(Error::from(OracleError::UncalculatedValue(9)), Error::NotCalculatedValue);
    assert_eq!(Error::from(OracleError::SourcePermissionDenied), Error::AccountPermissionDenied);
    assert_eq!(Error::from(OracleError::CalculationError), Error::NoneValue);
}

fn get_median_value(moment: usize, asset_id: usize, offsets: Vec<u128>) -> u128 {
    let data: u128 = EXTERNAL_DATA.iter().map(|data| data[moment]).nth(asset_id).unwrap();
    let mut offsets: Vec<u128> = offsets.into_iter().map(|offset| offset + data).collect();
    offsets.sort();
    let middle = offsets.len() / 2;
    match offsets.len() {
        0 | 1 => 0,
        len if len % 2 == 0 => (offsets[middle - 1] + offsets[middle]) / 2,
        _len => offsets[middle],
    }
}

fn get_median_values(moment: usize, offsets: Vec<u128>) -> Vec<u128> {
    (1..EXTERNAL_DATA.len()).map(|asset_id| get_median_value(moment, asset_id, offsets.clone())).collect()
}

const CALCULATE_VOTES: [(u64, u128); 6] =
    [(EVE, 101), (BOB, 100), (CAROL, 99), (JUDY, 98), (OSCAR, 97), (ALICE, 96)];

/// Pushes of the five most voted accounts at `now`, each offset by ten times its rank.
fn push_round(registry: &mut Registry, oracle_id: u32, moment: usize, now: u64) -> Vec<u128> {
    let head = head_of(&CALCULATE_VOTES, 5);
    let accounts: Vec<u64> = CALCULATE_VOTES.iter().map(|(ac, _)| *ac).take(5).collect();
    accounts
        .iter()
        .enumerate()
        .map(|(index, &acc)| {
            let offset = 10u128 * (index as u128);
            assert_eq!(registry.push(acc, now, oracle_id, get_asset_value(moment, offset), head.clone()), Ok(()));
            offset
        })
        .collect()
}

#[test]
fn calculate() {
    let mut registry = Registry::new();
    let oracle_id = registry.next_oracle_id;
    assert!(create_oracle(&mut registry, 5, 0).is_ok());
    let head = head_of(&CALCULATE_VOTES, 5);

    let mut now = 0;
    let moment = 0;
    let offsets = push_round(&mut registry, oracle_id, moment, now);

    now += AGGREGATION_PERIOD + 1; // Calculation period

    for (asset_id, val) in get_median_values(moment, offsets).into_iter().enumerate() {
        assert!(registry.calculate(now, oracle_id, asset_id as u8, head.clone()).is_ok());
        assert_eq!(registry.oracles[&oracle_id].values.get(asset_id).and_then(|ex| ex.value), Some(val));
    }

    assert_eq!(
        registry.calculate(now, oracle_id, 1u8 + EXTERNAL_DATA.len() as u8, head.clone()),
        Err(Error::WrongValueId)
    );
}

#[test]
fn calculate_in_a_period_without_push_fails() {
    let mut registry = Registry::new();
    let oracle_id = registry.next_oracle_id;
    create_oracle(&mut registry, 5, 0).unwrap();
    let head = head_of(&CALCULATE_VOTES, 5);
    let mut now = 0;
    push_round(&mut registry, oracle_id, 0, now);
    now += AGGREGATION_PERIOD + 1;
    assert!(registry.calculate(now, oracle_id, 0, head.clone()).is_ok());
    now += CALCULATION_PERIOD - 1;
    push_round(&mut registry, oracle_id, 1, now);
    now += AGGREGATION_PERIOD + 1;
    // 1681 lies in period 2, where nobody pushed: the pushed data is cleaned.
    assert_eq!(registry.oracles[&oracle_id].period_handler.get_period(now), 2);
    assert_eq!(registry.calculate(now, oracle_id, 0, head.clone()), Err(Error::NotEnoughValues));
    assert!(registry.oracles[&oracle_id].sources.values().all(|row| row.iter().all(|v| v.is_clean())));
}

#[test]
fn registry_validity_check() {
    let mut registry = Registry::new();
    assert!(registry.is_valid());
    create_oracle(&mut registry, 3, 0).unwrap();
    assert!(registry.is_valid());
    registry.next_oracle_id = 0;
    assert!(!registry.is_valid());
}
