use account_sync::account::{AccountError, AccountInfo, Balance, PositionReport};
use account_sync::config::AccountInitConfig;
use account_sync::cycle::{next_update_stage, UpdateStage};
use account_sync::instrument::{InstrumentInfo, Venue};
use account_sync::reconcile::{OrderTicket, SkipReason};
use account_sync::registry::AccountManager;
use account_sync::sizing::OrderSide;

const UNIT: i64 = 100_000_000;

fn key(s: &str) -> String {
    String::from(s)
}

fn rules(inst: &str, contract_value: Option<i64>) -> InstrumentInfo {
    InstrumentInfo {
        inst: key(inst),
        lot_size: UNIT / 10,
        min_lmt_size: 0,
        max_lmt_size: 1_000_000 * UNIT,
        min_mkt_size: 0,
        max_mkt_size: 1_000_000 * UNIT,
        contract_value,
    }
}

fn manager() -> AccountManager {
    let mut m = AccountManager::new(AccountInitConfig::default());
    m.add_account(AccountInfo::new(key("okx"), Venue::Okx, 1, 2));
    m.add_account(AccountInfo::new(key("bin"), Venue::BinanceUm, 3, 4));
    m.add_account(AccountInfo::new(key("cm"), Venue::BinanceCm, 5, 6));
    m.insert_inst_info(Venue::Okx, &vec![rules("A", Some(UNIT))]);
    m.insert_inst_info(Venue::BinanceUm, &vec![rules("A", None)]);
    m
}

#[test]
fn stages_follow_each_other() {
    assert_eq!(next_update_stage(UpdateStage::Balance, true), UpdateStage::Positions);
    assert_eq!(next_update_stage(UpdateStage::Positions, true), UpdateStage::Orders);
    assert_eq!(next_update_stage(UpdateStage::Orders, true), UpdateStage::Done);
    assert_eq!(next_update_stage(UpdateStage::Done, true), UpdateStage::Done);
}

#[test]
fn failed_stage_ends_the_accounts_cycle() {
    assert_eq!(next_update_stage(UpdateStage::Balance, false), UpdateStage::Done);
    assert_eq!(next_update_stage(UpdateStage::Positions, false), UpdateStage::Done);
    assert_eq!(next_update_stage(UpdateStage::Orders, false), UpdateStage::Done);
}

#[test]
fn accounts_are_reached_by_position() {
    let m = manager();
    assert_eq!(m.account_count(), 3);
    assert_eq!(m.account_at(0).account_id, "okx");
    assert_eq!(m.account_at(2).venue, Venue::BinanceCm);
}

#[test]
fn balance_update_reaches_one_account() {
    let mut m = manager();
    let balances = vec![Balance { asset: key("usdt"), total: 300 * UNIT }];
    assert_eq!(m.update_account_balance(1, &balances), Ok(()));
    assert_eq!(m.account_at(1).total_equity, 300 * UNIT);
    assert_eq!(m.account_at(0).total_equity, 0);
    assert_eq!(
        m.update_account_balance(0, &Vec::new()),
        Err(AccountError::QuoteBalanceMissing)
    );
    assert_eq!(m.account_at(0).total_equity, 0);
}

#[test]
fn position_update_uses_the_rosters_rules() {
    let mut m = manager();
    m.update_account_balance(0, &vec![Balance { asset: key("USDT"), total: 100 * UNIT }]).unwrap();
    m.account_infos.value_at_mut(0).acc_weights.insert(key("Z"), 1);
    let positions = vec![PositionReport { inst: key("A"), size: 5 * UNIT, mark_price: 2 * UNIT }];
    m.update_account_positions(0, &positions);
    assert_eq!(m.account_at(0).acc_weights.get(&key("A")), Some(&(UNIT / 10)));
    assert_eq!(m.account_at(0).acc_weights.get(&key("Z")), None);
}

#[test]
fn orders_are_planned_for_every_account() {
    let mut m = manager();
    m.target_weights.insert(key("A"), (10 * UNIT, UNIT));
    for i in 0..3 {
        m.update_account_balance(i, &vec![Balance { asset: key("USDT"), total: 1000 * UNIT }])
            .unwrap();
    }
    let plans = m.process_weights();
    assert_eq!(plans.len(), 3);
    assert_eq!(plans[0].len(), 1);
    assert_eq!(
        plans[0][0].outcome,
        Ok(OrderTicket { side: OrderSide::Buy, size: 100 * UNIT, isolated_margin: true })
    );
    assert_eq!(plans[1].len(), 1);
    assert_eq!(
        plans[1][0].outcome,
        Ok(OrderTicket { side: OrderSide::Buy, size: 100 * UNIT, isolated_margin: false })
    );
    // the third account's venue is not traded
    assert!(plans[2].is_empty());
    for i in 0..3 {
        assert_eq!(m.account_at(i).inst_mark_price.get(&key("A")), Some(&(10 * UNIT)));
        assert_eq!(m.account_at(i).acc_weights.len(), 0);
    }
}

#[test]
fn small_account_is_passed_over_on_the_linear_venue_only() {
    let mut m = manager();
    m.target_weights.insert(key("A"), (10 * UNIT, UNIT));
    // 1.0 of 5 units of equity: notional 5 < 6
    for i in 0..2 {
        m.update_account_balance(i, &vec![Balance { asset: key("USDT"), total: 5 * UNIT }])
            .unwrap();
    }
    let okx = m.plan_account_orders(0);
    let bin = m.plan_account_orders(1);
    assert_eq!(
        okx[0].outcome,
        Ok(OrderTicket { side: OrderSide::Buy, size: UNIT / 2, isolated_margin: true })
    );
    assert_eq!(bin[0].outcome, Err(SkipReason::BelowMinNotional));
}

#[test]
fn placed_order_is_booked_on_its_account() {
    let mut m = manager();
    m.record_account_fill(1, &key("A"), UNIT / 4);
    assert_eq!(m.account_at(1).acc_weights.get(&key("A")), Some(&(UNIT / 4)));
    assert_eq!(m.account_at(0).acc_weights.len(), 0);
    m.record_account_fill(1, &key("A"), UNIT / 4);
    assert_eq!(m.account_at(1).acc_weights.get(&key("A")), Some(&(UNIT / 2)));
}
