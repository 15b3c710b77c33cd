use account_sync::account::{
    notional_of_position, notional_of_report, weight_of_notional, AccountError, AccountInfo,
    Balance, PositionReport, PositionUpdate, MIN_ACTIONABLE_DIFF,
};
use account_sync::instrument::{InstrumentCatalog, InstrumentInfo, Venue};
use account_sync::targets::{effective_target_weight, TargetEntry};
use account_sync::text::{eq_ignore_ascii_case, lower_ascii};

const UNIT: i64 = 100_000_000;

fn key(s: &str) -> String {
    String::from(s)
}

fn account(venue: Venue) -> AccountInfo {
    AccountInfo::new(key("acc-1"), venue, 1100, 1150)
}

fn row(inst: &str, price: i64, raw: i64) -> TargetEntry {
    TargetEntry { inst: key(inst), mark_price: price, raw_weight: raw }
}

fn rules(inst: &str, contract_value: Option<i64>) -> InstrumentInfo {
    InstrumentInfo {
        inst: key(inst),
        lot_size: UNIT / 10,
        min_lmt_size: 0,
        max_lmt_size: 1_000_000 * UNIT,
        min_mkt_size: 0,
        max_mkt_size: 1_000_000 * UNIT,
        contract_value,
    }
}

#[test]
fn effective_target_splits_equally() {
    assert_eq!(effective_target_weight(UNIT, 2), UNIT / 2);
    assert_eq!(effective_target_weight(UNIT, 1), UNIT);
    assert_eq!(effective_target_weight(UNIT, 4), UNIT / 4);
}

#[test]
fn effective_target_of_empty_table_is_raw_weight() {
    assert_eq!(effective_target_weight(UNIT, 0), UNIT);
    assert_eq!(effective_target_weight(-3, 0), -3);
}

#[test]
fn effective_target_rounds_down() {
    assert_eq!(effective_target_weight(UNIT, 3), 33_333_333);
    assert_eq!(effective_target_weight(-UNIT, 3), -33_333_334);
    assert_eq!(effective_target_weight(i64::MIN, 1), i64::MIN);
    assert_eq!(effective_target_weight(i64::MAX, usize::MAX), 0);
}

#[test]
fn two_instruments_get_half_each() {
    let mut acc = account(Venue::Okx);
    let rows = vec![row("A", 10 * UNIT, UNIT), row("B", 20 * UNIT, UNIT)];
    let c = acc.compare_weights(&rows);
    assert_eq!(c.targets.get(&key("A")), Some(&(UNIT / 2)));
    assert_eq!(c.targets.get(&key("B")), Some(&(UNIT / 2)));
    assert_eq!(c.diffs.get(&key("A")), Some(&(UNIT / 2)));
    assert_eq!(c.diffs.get(&key("B")), Some(&(UNIT / 2)));
    assert_eq!(acc.inst_mark_price.get(&key("A")), Some(&(10 * UNIT)));
    assert_eq!(acc.inst_mark_price.get(&key("B")), Some(&(20 * UNIT)));
    assert_eq!(acc.acc_weights.len(), 0);
}

#[test]
fn threshold_is_strict() {
    assert_eq!(MIN_ACTIONABLE_DIFF, UNIT / 100);
    let mut acc = account(Venue::Okx);
    acc.acc_weights.insert(key("A"), 0);
    // exactly 0.01 away: not actionable
    let c = acc.compare_weights(&vec![row("A", UNIT, UNIT / 100)]);
    assert_eq!(c.diffs.len(), 0);
    assert_eq!(c.targets.get(&key("A")), Some(&(UNIT / 100)));
    // 0.0101 away: actionable
    let c = acc.compare_weights(&vec![row("A", UNIT, 1_010_000)]);
    assert_eq!(c.diffs.get(&key("A")), Some(&1_010_000));
    // the same on the selling side
    let c = acc.compare_weights(&vec![row("A", UNIT, -UNIT / 100)]);
    assert_eq!(c.diffs.len(), 0);
    let c = acc.compare_weights(&vec![row("A", UNIT, -1_010_000)]);
    assert_eq!(c.diffs.get(&key("A")), Some(&-1_010_000));
}

#[test]
fn diff_is_target_minus_current() {
    let mut acc = account(Venue::BinanceUm);
    acc.acc_weights.insert(key("A"), 30_000_000);
    let c = acc.compare_weights(&vec![row("A", UNIT, UNIT), row("B", UNIT, 0)]);
    // target 0.5, current 0.3
    assert_eq!(c.diffs.get(&key("A")), Some(&20_000_000));
    // target 0, current 0: nothing
    assert_eq!(c.diffs.get(&key("B")), None);
    assert_eq!(c.targets.get(&key("B")), Some(&0));
    // weights are not touched by a comparison
    assert_eq!(acc.acc_weights.get(&key("A")), Some(&30_000_000));
}

#[test]
fn diff_saturates_at_the_ends() {
    let mut acc = account(Venue::BinanceUm);
    acc.acc_weights.insert(key("A"), i64::MIN);
    let c = acc.compare_weights(&vec![row("A", UNIT, i64::MAX)]);
    assert_eq!(c.diffs.get(&key("A")), Some(&i64::MAX));
}

#[test]
fn empty_table_changes_nothing() {
    let mut acc = account(Venue::Okx);
    acc.inst_mark_price.insert(key("A"), 5);
    let c = acc.compare_weights(&Vec::new());
    assert_eq!(c.diffs.len(), 0);
    assert_eq!(c.targets.len(), 0);
    assert_eq!(acc.inst_mark_price.get(&key("A")), Some(&5));
}

#[test]
fn config_changed_looks_at_id_and_feeds_only() {
    let a = AccountInfo::new(key("x"), Venue::Okx, 1, 2);
    let mut b = AccountInfo::new(key("x"), Venue::BinanceUm, 1, 2);
    b.total_equity = 55;
    assert!(!a.config_changed(&b));
    assert!(a.config_changed(&AccountInfo::new(key("y"), Venue::Okx, 1, 2)));
    assert!(a.config_changed(&AccountInfo::new(key("x"), Venue::Okx, 9, 2)));
    assert!(a.config_changed(&AccountInfo::new(key("x"), Venue::Okx, 1, 9)));
}

#[test]
fn position_notional_by_venue() {
    // 3 * 2 = 6
    assert_eq!(notional_of_position(Venue::BinanceUm, 3 * UNIT, 2 * UNIT, Some(5 * UNIT)), 6 * UNIT);
    // 3 * 2 * 5 = 30
    assert_eq!(notional_of_position(Venue::Okx, 3 * UNIT, 2 * UNIT, Some(5 * UNIT)), 30 * UNIT);
    // no contract value counts as one
    assert_eq!(notional_of_position(Venue::Okx, 3 * UNIT, 2 * UNIT, None), 6 * UNIT);
    assert_eq!(notional_of_position(Venue::BinanceCm, 3 * UNIT, 2 * UNIT, None), 0);
    // short positions are negative
    assert_eq!(notional_of_position(Venue::BinanceUm, -3 * UNIT, 2 * UNIT, None), -6 * UNIT);
    // saturation
    assert_eq!(notional_of_position(Venue::BinanceUm, i64::MAX, i64::MAX, None), i64::MAX);
}

#[test]
fn weight_is_share_of_equity() {
    assert_eq!(weight_of_notional(20 * UNIT, 100 * UNIT), UNIT / 5);
    assert_eq!(weight_of_notional(-20 * UNIT, 100 * UNIT), -UNIT / 5);
    assert_eq!(weight_of_notional(20 * UNIT, 0), 0);
    assert_eq!(weight_of_notional(20 * UNIT, -5), 0);
    assert_eq!(weight_of_notional(i64::MAX, 1), i64::MAX);
}

#[test]
fn position_event_uses_recorded_mark_price() {
    let mut acc = account(Venue::BinanceUm);
    acc.total_equity = 100 * UNIT;
    acc.inst_mark_price.insert(key("A"), 4 * UNIT);
    let pos = PositionUpdate { inst: key("A"), size: 5 * UNIT, avg_price: 3 * UNIT };
    acc.ws_update_acc_position(&pos, &rules("A", None));
    // 5 * 4 / 100 = 0.2
    assert_eq!(acc.acc_weights.get(&key("A")), Some(&(UNIT / 5)));
}

#[test]
fn position_event_falls_back_to_average_price() {
    let mut acc = account(Venue::Okx);
    acc.total_equity = 100 * UNIT;
    let pos = PositionUpdate { inst: key("A"), size: 5 * UNIT, avg_price: 3 * UNIT };
    acc.ws_update_acc_position(&pos, &rules("A", Some(2 * UNIT)));
    // 5 * 3 * 2 / 100 = 0.3
    assert_eq!(acc.acc_weights.get(&key("A")), Some(&(3 * UNIT / 10)));
}

#[test]
fn position_event_without_equity_gives_zero_weight() {
    let mut acc = account(Venue::BinanceUm);
    acc.acc_weights.insert(key("A"), 7);
    let pos = PositionUpdate { inst: key("A"), size: 5 * UNIT, avg_price: 3 * UNIT };
    acc.ws_update_acc_position(&pos, &rules("A", None));
    assert_eq!(acc.acc_weights.get(&key("A")), Some(&0));
}

#[test]
fn balance_refresh_takes_quote_currency() {
    let mut acc = account(Venue::Okx);
    let balances = vec![
        Balance { asset: key("BTC"), total: 3 * UNIT },
        Balance { asset: key("USDT"), total: 250 * UNIT },
        Balance { asset: key("USDT"), total: 1 },
    ];
    assert_eq!(acc.rest_update_acc_balance(&balances), Ok(()));
    assert_eq!(acc.total_equity, 250 * UNIT);
}

#[test]
fn balance_refresh_ignores_ascii_case() {
    let mut acc = account(Venue::Okx);
    let balances = vec![Balance { asset: key("uSdT"), total: 9 * UNIT }];
    assert_eq!(acc.rest_update_acc_balance(&balances), Ok(()));
    assert_eq!(acc.total_equity, 9 * UNIT);
}

#[test]
fn quote_currency_match_folds_ascii_letters_only() {
    assert!(eq_ignore_ascii_case("USDT", "usdt"));
    assert!(eq_ignore_ascii_case("", ""));
    assert!(!eq_ignore_ascii_case("USDT", "USD"));
    assert!(!eq_ignore_ascii_case("USDT", "USDC"));
    assert!(eq_ignore_ascii_case("\u{e9}A", "\u{e9}a"));
    assert!(!eq_ignore_ascii_case("\u{c9}", "\u{e9}"));
    assert!(!eq_ignore_ascii_case("[", "{"));
    assert!(!eq_ignore_ascii_case("@", "`"));
    for c in ['A', 'Z', 'a', 'z', '0', '[', '@', '\u{e9}'] {
        assert_eq!(lower_ascii(c), c.to_ascii_lowercase());
    }
    for (a, b) in [("USDT", "usdt"), ("Ab[", "aB{"), ("x", "xy"), ("\u{c9}", "\u{e9}")] {
        assert_eq!(eq_ignore_ascii_case(a, b), a.eq_ignore_ascii_case(b));
    }
}

#[test]
fn balance_refresh_without_quote_currency_is_an_error() {
    let mut acc = account(Venue::Okx);
    acc.total_equity = 5;
    let balances = vec![
        Balance { asset: key("BTC"), total: 3 * UNIT },
        Balance { asset: key("USDT "), total: 3 * UNIT },
        Balance { asset: key("USD"), total: 3 * UNIT },
    ];
    assert_eq!(acc.rest_update_acc_balance(&balances), Err(AccountError::QuoteBalanceMissing));
    assert_eq!(acc.rest_update_acc_balance(&Vec::new()), Err(AccountError::QuoteBalanceMissing));
    assert_eq!(acc.total_equity, 5);
}

#[test]
fn position_refresh_prunes_closed_positions() {
    let mut acc = account(Venue::BinanceUm);
    acc.total_equity = 100 * UNIT;
    acc.acc_weights.insert(key("A"), UNIT / 5);
    acc.acc_weights.insert(key("B"), 3 * UNIT / 10);
    let catalog = InstrumentCatalog::new();
    let positions = vec![PositionReport { inst: key("A"), size: 10 * UNIT, mark_price: 4 * UNIT }];
    acc.rest_update_acc_pos_weight(&positions, &catalog);
    assert_eq!(acc.acc_weights.len(), 1);
    // 10 * 4 / 100 = 0.4
    assert_eq!(acc.acc_weights.get(&key("A")), Some(&(4 * UNIT / 10)));
    assert_eq!(acc.acc_weights.get(&key("B")), None);
    assert_eq!(acc.inst_mark_price.get(&key("A")), Some(&(4 * UNIT)));
}

#[test]
fn position_refresh_with_no_positions_clears_all_weights() {
    let mut acc = account(Venue::BinanceUm);
    acc.acc_weights.insert(key("A"), UNIT / 5);
    acc.rest_update_acc_pos_weight(&Vec::new(), &InstrumentCatalog::new());
    assert_eq!(acc.acc_weights.len(), 0);
}

#[test]
fn position_refresh_sums_positions_of_one_instrument() {
    let mut acc = account(Venue::BinanceUm);
    acc.total_equity = 100 * UNIT;
    let positions = vec![
        PositionReport { inst: key("A"), size: 10 * UNIT, mark_price: 4 * UNIT },
        PositionReport { inst: key("B"), size: UNIT, mark_price: 10 * UNIT },
        PositionReport { inst: key("A"), size: -5 * UNIT, mark_price: 2 * UNIT },
    ];
    acc.rest_update_acc_pos_weight(&positions, &InstrumentCatalog::new());
    // (40 - 10) / 100
    assert_eq!(acc.acc_weights.get(&key("A")), Some(&(3 * UNIT / 10)));
    assert_eq!(acc.acc_weights.get(&key("B")), Some(&(UNIT / 10)));
    // the last listed price is recorded
    assert_eq!(acc.inst_mark_price.get(&key("A")), Some(&(2 * UNIT)));
}

#[test]
fn position_refresh_on_contract_venue_uses_contract_value() {
    let mut acc = account(Venue::Okx);
    acc.total_equity = 100 * UNIT;
    let mut catalog = InstrumentCatalog::new();
    catalog.insert(key("A"), Venue::Okx, rules("A", Some(UNIT / 10)));
    catalog.insert(key("C"), Venue::Okx, rules("C", None));
    catalog.insert(key("B"), Venue::BinanceUm, rules("B", Some(UNIT / 10)));
    let positions = vec![
        PositionReport { inst: key("A"), size: 100 * UNIT, mark_price: 4 * UNIT },
        PositionReport { inst: key("B"), size: 100 * UNIT, mark_price: 4 * UNIT },
        PositionReport { inst: key("C"), size: 10 * UNIT, mark_price: 4 * UNIT },
    ];
    assert_eq!(notional_of_report(Venue::Okx, &positions[0], &catalog), 40 * UNIT);
    assert_eq!(notional_of_report(Venue::Okx, &positions[1], &catalog), 0);
    acc.rest_update_acc_pos_weight(&positions, &catalog);
    // 100 * 4 * 0.1 / 100
    assert_eq!(acc.acc_weights.get(&key("A")), Some(&(4 * UNIT / 10)));
    // no rules on this venue: counts for nothing, but stays listed
    assert_eq!(acc.acc_weights.get(&key("B")), Some(&0));
    // rules without contract value: multiplier one
    assert_eq!(acc.acc_weights.get(&key("C")), Some(&(4 * UNIT / 10)));
}
