use std::sync::Arc;

use account_sync::account::{AccountInfo, PositionUpdate};
use account_sync::config::{AccountFileConfig, AccountInitConfig, ConfigError};
use account_sync::events::{BalPosUpdate, FeedEvent, OrderUpdate, ScheduleAction};
use account_sync::handshake::Channel;
use account_sync::instrument::{InstrumentInfo, Venue};
use account_sync::registry::{AccountManager, Route};
use account_sync::targets::new_target_table;

const UNIT: i64 = 100_000_000;

fn key(s: &str) -> String {
    String::from(s)
}

fn manager() -> AccountManager {
    AccountManager::new(AccountInitConfig::default())
}

fn entry(id: &str, exchange: &str, orders: u64, bal_pos: u64) -> AccountFileConfig {
    AccountFileConfig {
        account_id: key(id),
        exchange: key(exchange),
        api_key: key("key"),
        api_secret: key("secret"),
        passphrase: Some(key("phrase")),
        account_orders_task_id: orders,
        account_bal_pos_task_id: bal_pos,
    }
}

fn rules(inst: &str, contract_value: Option<i64>) -> InstrumentInfo {
    InstrumentInfo {
        inst: key(inst),
        lot_size: UNIT / 10,
        min_lmt_size: 0,
        max_lmt_size: 1_000_000 * UNIT,
        min_mkt_size: 0,
        max_mkt_size: 1_000_000 * UNIT,
        contract_value,
    }
}

#[test]
fn new_manager_is_empty() {
    let m = manager();
    assert_eq!(m.account_infos.len(), 0);
    assert_eq!(m.task_index.len(), 0);
    assert_eq!(m.target_weights.len(), 0);
    assert!(m.instrument_infos.get(&key("A"), Venue::Okx).is_none());
    assert_eq!(m.config.reload_task_id, 10);
}

#[test]
fn with_target_weights_shares_the_table() {
    let mut m = manager();
    let table = new_target_table();
    m.with_target_weights(table.clone());
    table.insert(key("A"), (1, 2));
    assert!(Arc::ptr_eq(&m.target_weights, &table));
    assert_eq!(m.target_weights.len(), 1);
}

#[test]
fn add_account_enters_two_routes() {
    let mut m = manager();
    m.add_account(AccountInfo::new(key("a"), Venue::Okx, 1100, 1150));
    assert_eq!(m.task_index.len(), 2);
    assert_eq!(m.task_index.get(&1100), Some(&key("a")));
    assert_eq!(m.task_index.get(&1150), Some(&key("a")));
    assert_eq!(m.account_infos.len(), 1);
    assert_eq!(m.resolve(1100), Route::Account(0));
    assert_eq!(m.resolve(1150), Route::Account(0));
}

#[test]
fn add_account_under_a_known_id_rewires_its_routes() {
    let mut m = manager();
    m.add_account(AccountInfo::new(key("a"), Venue::Okx, 1, 2));
    m.add_account(AccountInfo::new(key("a"), Venue::Okx, 2, 3));
    assert_eq!(m.account_infos.len(), 1);
    assert_eq!(m.task_index.len(), 2);
    assert_eq!(m.task_index.get(&1), None);
    assert_eq!(m.task_index.get(&2), Some(&key("a")));
    assert_eq!(m.task_index.get(&3), Some(&key("a")));
}

#[test]
fn remove_account_strikes_its_routes_out() {
    let mut m = manager();
    m.add_account(AccountInfo::new(key("a"), Venue::Okx, 1, 2));
    m.add_account(AccountInfo::new(key("b"), Venue::BinanceUm, 3, 4));
    let removed = m.remove_account(&key("a")).unwrap();
    assert_eq!(removed.account_id, "a");
    assert_eq!(removed.account_orders_task_id, 1);
    assert_eq!(m.task_index.len(), 2);
    assert_eq!(m.resolve(1), Route::UnknownTask);
    assert_eq!(m.resolve(2), Route::UnknownTask);
    assert_eq!(m.resolve(3), Route::Account(0));
    assert!(m.remove_account(&key("a")).is_none());
}

#[test]
fn unknown_task_is_routed_nowhere() {
    let mut m = manager();
    m.add_account(AccountInfo::new(key("a"), Venue::Okx, 1, 2));
    assert_eq!(m.resolve(3), Route::UnknownTask);
    assert_eq!(m.process_ws_event(3, Channel::AccountOrders), None);
}

#[test]
fn index_entry_without_account_is_reported() {
    let mut m = manager();
    m.task_index.insert(7, key("ghost"));
    assert_eq!(m.resolve(7), Route::MissingAccount);
}

#[test]
fn events_for_a_missing_account_are_dropped() {
    let mut m = manager();
    let mut a = AccountInfo::new(key("a"), Venue::BinanceUm, 1, 2);
    a.total_equity = 100 * UNIT;
    a.acc_weights.insert(key("A"), 7);
    m.add_account(a);
    m.insert_inst_info(Venue::BinanceUm, &vec![rules("A", None)]);
    m.task_index.insert(7, key("ghost"));
    let updates = vec![BalPosUpdate {
        venue: Venue::BinanceUm,
        positions: vec![PositionUpdate { inst: key("A"), size: 10 * UNIT, avg_price: 2 * UNIT }],
    }];
    assert_eq!(m.process_bal_pos(7, &updates), Route::MissingAccount);
    let orders = vec![OrderUpdate { inst: key("A"), venue: Venue::BinanceUm }];
    assert_eq!(m.process_acc_order(7, &orders), (Route::MissingAccount, 0));
    assert_eq!(m.process_ws_event(7, Channel::AccountOrders), None);
    assert_eq!(m.account_at(0).acc_weights.get(&key("A")), Some(&7));
    assert_eq!(m.account_infos.len(), 1);
    assert_eq!(m.task_index.len(), 3);
}

#[test]
fn feed_event_is_resolved_to_its_account() {
    let mut m = manager();
    m.add_account(AccountInfo::new(key("a"), Venue::Okx, 1, 2));
    m.add_account(AccountInfo::new(key("b"), Venue::BinanceUm, 3, 4));
    assert_eq!(
        m.process_ws_event(4, Channel::AccountBalAndPos),
        Some(FeedEvent { account: 1, venue: Venue::BinanceUm, channel: Channel::AccountBalAndPos })
    );
    assert_eq!(
        m.process_ws_event(1, Channel::Other),
        Some(FeedEvent { account: 0, venue: Venue::Okx, channel: Channel::Other })
    );
}

#[test]
fn order_updates_change_nothing() {
    let mut m = manager();
    let mut acc = AccountInfo::new(key("a"), Venue::Okx, 1, 2);
    acc.acc_weights.insert(key("A"), 5);
    m.add_account(acc);
    m.insert_inst_info(Venue::Okx, &vec![rules("A", Some(UNIT))]);
    let orders = vec![
        OrderUpdate { inst: key("A"), venue: Venue::Okx },
        OrderUpdate { inst: key("B"), venue: Venue::Okx },
        OrderUpdate { inst: key("A"), venue: Venue::BinanceUm },
    ];
    assert_eq!(m.process_acc_order(1, &orders), (Route::Account(0), 1));
    assert_eq!(m.process_acc_order(9, &orders), (Route::UnknownTask, 0));
    assert_eq!(m.account_at(0).acc_weights.get(&key("A")), Some(&5));
    assert_eq!(m.task_index.len(), 2);
}

#[test]
fn position_events_are_folded_into_the_owning_account() {
    let mut m = manager();
    let mut a = AccountInfo::new(key("a"), Venue::BinanceUm, 1, 2);
    a.total_equity = 100 * UNIT;
    m.add_account(a);
    let mut b = AccountInfo::new(key("b"), Venue::BinanceUm, 3, 4);
    b.total_equity = 100 * UNIT;
    m.add_account(b);
    m.insert_inst_info(Venue::BinanceUm, &vec![rules("A", None)]);
    let updates = vec![BalPosUpdate {
        venue: Venue::BinanceUm,
        positions: vec![
            PositionUpdate { inst: key("A"), size: 10 * UNIT, avg_price: 2 * UNIT },
            PositionUpdate { inst: key("B"), size: 10 * UNIT, avg_price: 2 * UNIT },
        ],
    }];
    assert_eq!(m.process_bal_pos(2, &updates), Route::Account(0));
    // 10 * 2 / 100
    assert_eq!(m.account_at(0).acc_weights.get(&key("A")), Some(&(UNIT / 5)));
    // no trading rules for B: passed over
    assert_eq!(m.account_at(0).acc_weights.get(&key("B")), None);
    // the other account is untouched
    assert_eq!(m.account_at(1).acc_weights.len(), 0);
}

#[test]
fn position_events_for_unknown_task_change_nothing() {
    let mut m = manager();
    let mut a = AccountInfo::new(key("a"), Venue::BinanceUm, 1, 2);
    a.total_equity = 100 * UNIT;
    a.acc_weights.insert(key("A"), 7);
    m.add_account(a);
    m.insert_inst_info(Venue::BinanceUm, &vec![rules("A", None)]);
    let updates = vec![BalPosUpdate {
        venue: Venue::BinanceUm,
        positions: vec![PositionUpdate { inst: key("A"), size: 10 * UNIT, avg_price: 2 * UNIT }],
    }];
    assert_eq!(m.process_bal_pos(99, &updates), Route::UnknownTask);
    assert_eq!(m.account_infos.len(), 1);
    assert_eq!(m.account_at(0).acc_weights.get(&key("A")), Some(&7));
    assert_eq!(m.account_at(0).acc_weights.len(), 1);
    assert_eq!(m.account_at(0).total_equity, 100 * UNIT);
    assert_eq!(m.task_index.len(), 2);
}

#[test]
fn position_events_look_rules_up_on_the_venue_of_the_batch() {
    let mut m = manager();
    let mut a = AccountInfo::new(key("a"), Venue::Okx, 1, 2);
    a.total_equity = 100 * UNIT;
    m.add_account(a);
    m.insert_inst_info(Venue::Okx, &vec![rules("A", Some(3 * UNIT))]);
    let on_other_venue = vec![BalPosUpdate {
        venue: Venue::BinanceUm,
        positions: vec![PositionUpdate { inst: key("A"), size: 10 * UNIT, avg_price: 2 * UNIT }],
    }];
    m.process_bal_pos(2, &on_other_venue);
    assert_eq!(m.account_at(0).acc_weights.get(&key("A")), None);
    let on_this_venue = vec![BalPosUpdate {
        venue: Venue::Okx,
        positions: vec![PositionUpdate { inst: key("A"), size: 10 * UNIT, avg_price: 2 * UNIT }],
    }];
    m.process_bal_pos(2, &on_this_venue);
    // 10 * 2 * 3 / 100
    assert_eq!(m.account_at(0).acc_weights.get(&key("A")), Some(&(6 * UNIT / 10)));
}

#[test]
fn schedule_dispatch() {
    let m = AccountManager::new(AccountInitConfig {
        reload_task_id: 2,
        update_task_id: 3,
        reload_interval_sec: 3600,
        update_interval_sec: 60,
    });
    assert_eq!(m.on_schedule(2), ScheduleAction::Reload);
    assert_eq!(m.on_schedule(3), ScheduleAction::Update);
    assert_eq!(m.on_schedule(4), ScheduleAction::Ignore);
    let same = AccountManager::new(AccountInitConfig {
        reload_task_id: 5,
        update_task_id: 5,
        reload_interval_sec: 1,
        update_interval_sec: 1,
    });
    assert_eq!(same.on_schedule(5), ScheduleAction::Reload);
}

#[test]
fn trading_rules_are_filed_by_symbol_and_venue() {
    let mut m = manager();
    m.insert_inst_info(
        Venue::Okx,
        &vec![rules("A", Some(UNIT)), rules("B", Some(2 * UNIT)), rules("A", Some(3 * UNIT))],
    );
    assert_eq!(
        m.instrument_infos.get(&key("A"), Venue::Okx).unwrap().contract_value,
        Some(3 * UNIT)
    );
    assert_eq!(
        m.instrument_infos.get(&key("B"), Venue::Okx).unwrap().contract_value,
        Some(2 * UNIT)
    );
    assert!(m.instrument_infos.get(&key("A"), Venue::BinanceUm).is_none());
}

#[test]
fn load_all_accounts_enters_every_entry() {
    let mut m = manager();
    let cfgs = vec![entry("a", "okx", 1, 2), entry("b", "BINANCE_UM", 3, 4)];
    assert!(m.load_all_accounts(&cfgs).is_ok());
    assert_eq!(m.account_infos.len(), 2);
    assert_eq!(m.task_index.len(), 4);
    assert_eq!(m.account_at(0).venue, Venue::Okx);
    assert_eq!(m.account_at(1).venue, Venue::BinanceUm);
    assert_eq!(m.resolve(4), Route::Account(1));
}

#[test]
fn load_all_accounts_stops_at_an_unknown_exchange() {
    let mut m = manager();
    let cfgs = vec![entry("a", "okx", 1, 2), entry("b", "Nowhere", 3, 4), entry("c", "okx", 5, 6)];
    match m.load_all_accounts(&cfgs) {
        Err(ConfigError::UnknownExchange(name)) => assert_eq!(name, "nowhere"),
        Ok(()) => panic!("an unknown exchange was accepted"),
    }
    assert_eq!(m.account_infos.len(), 1);
    assert_eq!(m.resolve(1), Route::Account(0));
    assert_eq!(m.resolve(5), Route::UnknownTask);
}
