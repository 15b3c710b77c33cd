use account_sync::instrument::InstrumentInfo;
use account_sync::sizing::{apply_bounds, calc_binance_order_size, calc_okx_order_size, SizingError};

const UNIT: i64 = 100_000_000;

fn rules(lot: i64, min: i64, max: i64, contract_value: Option<i64>) -> InstrumentInfo {
    InstrumentInfo {
        inst: String::from("DOGE_USDT_PERP"),
        lot_size: lot,
        min_lmt_size: min,
        max_lmt_size: max,
        min_mkt_size: min,
        max_mkt_size: max,
        contract_value,
    }
}

#[test]
fn raw_size_is_notional_over_price() {
    // price 10, notional 1000, wide bounds: raw size 100
    let info = rules(UNIT / 10, 0, 1_000_000 * UNIT, None);
    assert_eq!(calc_binance_order_size(10 * UNIT, 1000 * UNIT, &info), Ok(100 * UNIT));
}

#[test]
fn linear_size_is_clamped_to_upper_bound() {
    // price 10, notional 1000 -> raw 100; bounds 0..50 -> 50
    let info = rules(UNIT / 10, 0, 50 * UNIT, None);
    let size = calc_binance_order_size(10 * UNIT, 1000 * UNIT, &info).unwrap();
    assert_eq!(size, 50 * UNIT);
    assert_eq!(size % (UNIT / 10), 0);
    assert!(size <= 50 * UNIT);
}

#[test]
fn size_is_raised_to_lower_bound() {
    let info = rules(UNIT, 5 * UNIT, 50 * UNIT, None);
    assert_eq!(calc_binance_order_size(10 * UNIT, 10 * UNIT, &info), Ok(5 * UNIT));
}

#[test]
fn size_is_rounded_down_to_lot() {
    // 1000 / 3 = 333.33333333 -> lot 0.1 -> 333.3
    let info = rules(UNIT / 10, 0, 1_000_000 * UNIT, None);
    assert_eq!(calc_binance_order_size(3 * UNIT, 1000 * UNIT, &info), Ok(33_330_000_000));
}

#[test]
fn bounds_are_the_tighter_of_limit_and_market() {
    let info = InstrumentInfo {
        inst: String::from("X"),
        lot_size: UNIT,
        min_lmt_size: 2 * UNIT,
        max_lmt_size: 80 * UNIT,
        min_mkt_size: 3 * UNIT,
        max_mkt_size: 60 * UNIT,
        contract_value: None,
    };
    assert_eq!(info.min_size(), 3 * UNIT);
    assert_eq!(info.max_size(), 60 * UNIT);
    assert_eq!(calc_binance_order_size(UNIT, 1000 * UNIT, &info), Ok(60 * UNIT));
    assert_eq!(calc_binance_order_size(UNIT, UNIT, &info), Ok(3 * UNIT));
}

#[test]
fn contract_size_divides_by_contract_value() {
    // 1000 / (10 * 0.01) = 10000 contracts
    let info = rules(UNIT, 0, 1_000_000 * UNIT, Some(UNIT / 100));
    assert_eq!(calc_okx_order_size(10 * UNIT, 1000 * UNIT, &info), Ok(10_000 * UNIT));
}

#[test]
fn contract_size_with_unit_multiplier_matches_linear() {
    let okx = rules(UNIT / 10, 0, 50 * UNIT, Some(UNIT));
    let linear = rules(UNIT / 10, 0, 50 * UNIT, None);
    for notional in [0, 1, 17 * UNIT, 333 * UNIT, 1000 * UNIT] {
        assert_eq!(
            calc_okx_order_size(7 * UNIT, notional, &okx),
            calc_binance_order_size(7 * UNIT, notional, &linear)
        );
    }
}

#[test]
fn contract_size_needs_contract_value() {
    let info = rules(UNIT / 10, 0, 50 * UNIT, None);
    assert_eq!(
        calc_okx_order_size(10 * UNIT, 1000 * UNIT, &info),
        Err(SizingError::MissingContractValue)
    );
}

#[test]
fn contract_value_must_be_positive() {
    let info = rules(UNIT / 10, 0, 50 * UNIT, Some(0));
    assert_eq!(
        calc_okx_order_size(10 * UNIT, 1000 * UNIT, &info),
        Err(SizingError::InvalidContractValue)
    );
}

#[test]
fn price_must_be_positive() {
    let info = rules(UNIT / 10, 0, 50 * UNIT, Some(UNIT));
    assert_eq!(calc_binance_order_size(0, 1000 * UNIT, &info), Err(SizingError::InvalidPrice));
    assert_eq!(calc_binance_order_size(-1, 1000 * UNIT, &info), Err(SizingError::InvalidPrice));
    assert_eq!(calc_okx_order_size(0, 1000 * UNIT, &info), Err(SizingError::InvalidPrice));
}

#[test]
fn lot_size_must_be_positive() {
    let info = rules(0, 0, 50 * UNIT, Some(UNIT));
    assert_eq!(
        calc_binance_order_size(10 * UNIT, 1000 * UNIT, &info),
        Err(SizingError::InvalidLotSize)
    );
    assert_eq!(
        calc_okx_order_size(10 * UNIT, 1000 * UNIT, &info),
        Err(SizingError::InvalidLotSize)
    );
}

#[test]
fn bounds_must_not_cross() {
    let info = rules(UNIT, 60 * UNIT, 50 * UNIT, None);
    assert_eq!(
        calc_binance_order_size(10 * UNIT, 1000 * UNIT, &info),
        Err(SizingError::InvalidBounds)
    );
}

#[test]
fn size_below_the_storable_range_is_an_error() {
    let info = rules(1000, i64::MIN + 1, i64::MIN + 1, None);
    assert_eq!(apply_bounds(0, &info), Err(SizingError::OutOfRange));
}

#[test]
fn negative_quantity_rounds_down() {
    let info = rules(10, -100, 100, None);
    assert_eq!(apply_bounds(-15, &info), Ok(-20));
    assert_eq!(apply_bounds(15, &info), Ok(10));
    assert_eq!(apply_bounds(-1000, &info), Ok(-100));
}

#[test]
fn large_notional_does_not_overflow() {
    let info = rules(1, 0, i64::MAX, Some(1));
    assert_eq!(calc_okx_order_size(1, i64::MAX, &info), Ok(i64::MAX));
    assert_eq!(calc_binance_order_size(1, i64::MAX, &info), Ok(i64::MAX));
}
