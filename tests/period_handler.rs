use oracle_core::period_handler::{Part, PeriodHandler};

#[test]
fn period_handler_create() {
    assert_eq!(PeriodHandler::new(0, 1, 10), Err(()));

    let handler = PeriodHandler::new(0, 100, 90);
    assert!(handler.is_ok());
}

#[test]
fn get_period() {
    let handler = PeriodHandler::new(100, 100, 90).expect("Error in create period handler");

    (100..=199).for_each(|now| assert_eq!(handler.get_period(now), 0));
    (200..=299).for_each(|now| assert_eq!(handler.get_period(now), 1));
}

#[test]
fn is_can_aggregate() {
    let handler = PeriodHandler::new(100, 100, 90).expect("Error in create period handler");

    (100..=190).for_each(|now| assert!(handler.is_can_aggregate(now)));
    (191..=199).for_each(|now| assert!(!handler.is_can_aggregate(now)));
}

#[test]
fn is_can_calculate() {
    let handler = PeriodHandler::new(100, 100, 90).expect("Error in create period handler");

    (100..=190).for_each(|now| assert!(!handler.is_can_calculate(None, now), "{}", now));
    (191..=199).for_each(|now| assert!(handler.is_can_calculate(None, now), "{}", now));

    (100..=190).for_each(|now| assert!(!handler.is_can_calculate(Some(now), now), "{}", now));
}

#[test]
fn is_sources_update_needed() {
    let mut handler = PeriodHandler::new(100, 100, 90).expect("Error in create period handler");

    (100..=190).for_each(|now| assert!(handler.is_sources_update_needed(now)));
    handler.set_sources_updated(100);
    (100..=190).for_each(|now| assert!(!handler.is_sources_update_needed(now)));
    (200..=290).for_each(|now| assert!(handler.is_sources_update_needed(now)));
}

#[test]
fn new_fails_iff_period_not_longer_than_aggregate_part() {
    assert_eq!(PeriodHandler::new(0, 10, 10), Err(()));
    assert_eq!(PeriodHandler::new(0, 9, 10), Err(()));
    let handler = PeriodHandler::new(7, 11, 10).unwrap();
    assert_eq!(handler.begin, 7);
    assert_eq!(handler.period, 11);
    assert_eq!(handler.aggregate_part, 10);
    assert_eq!(handler.last_sources_update, None);
    assert!(PeriodHandler::new(0, 1, 0).is_ok());
}

#[test]
fn period_numbers_never_decrease() {
    let handler = PeriodHandler::new(100, 10, 5).unwrap();
    let mut last = 0;
    for now in 100..400 {
        let period = handler.get_period(now);
        assert!(period >= last);
        last = period;
    }
    assert_eq!(handler.get_period(399), 29);
}

#[test]
fn every_moment_is_in_one_part() {
    let handler = PeriodHandler::new(100, 10, 5).unwrap();
    for now in 100..200 {
        let offset = (now - 100) % 10;
        let expected = if offset <= 5 { Part::Aggregate } else { Part::Calculate };
        assert_eq!(handler.get_part(now), expected);
        assert_eq!(handler.is_can_aggregate(now), expected == Part::Aggregate);
    }
}

#[test]
fn calculation_allowed_once_per_period() {
    let handler = PeriodHandler::new(100, 10, 5).unwrap();
    // Calculated in the calculate part of period 0: not again before period 1,
    // and not in the aggregate part of period 1 either.
    assert!(!handler.is_can_calculate(Some(106), 109));
    assert!(!handler.is_can_calculate(Some(106), 110));
    assert!(!handler.is_can_calculate(Some(106), 115));
    assert!(handler.is_can_calculate(Some(106), 116));
    // A period without calculation can be made up in the next aggregate part.
    assert!(handler.is_can_calculate(Some(106), 120));
    // Late calculation in an aggregate part, then the regular one in the calculate part.
    assert!(handler.is_can_calculate(Some(102), 116));
    assert!(handler.is_can_calculate(Some(110), 116));
    assert!(!handler.is_can_calculate(Some(110), 112));
    // Never calculated: in period 0 only in its calculate part, later at any time.
    assert!(!handler.is_can_calculate(None, 105));
    assert!(handler.is_can_calculate(None, 106));
    assert!(handler.is_can_calculate(None, 110));
    // The clock went backwards.
    assert!(!handler.is_can_calculate(Some(125), 116));
}

#[test]
fn sources_updated_once_per_period() {
    let mut handler = PeriodHandler::new(100, 10, 5).unwrap();
    assert!(handler.is_sources_update_needed(112));
    handler.set_sources_updated(112);
    assert_eq!(handler.last_sources_update, Some(112));
    for now in 112..=115 {
        assert!(!handler.is_sources_update_needed(now));
    }
    assert!(!handler.is_sources_update_needed(117));
    assert!(handler.is_sources_update_needed(120));
}
