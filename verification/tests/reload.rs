use account_sync::account::AccountInfo;
use account_sync::config::{AccountFileConfig, AccountInitConfig, ConfigError};
use account_sync::instrument::Venue;
use account_sync::registry::{AccountManager, Route};
use account_sync::reload::{build_roster, ReloadAction};
use account_sync::strmap::StrMap;

const UNIT: i64 = 100_000_000;

fn key(s: &str) -> String {
    String::from(s)
}

fn manager() -> AccountManager {
    AccountManager::new(AccountInitConfig::default())
}

fn entry(id: &str, exchange: &str, orders: u64, bal_pos: u64) -> AccountFileConfig {
    AccountFileConfig {
        account_id: key(id),
        exchange: key(exchange),
        api_key: key("key"),
        api_secret: key("secret"),
        passphrase: None,
        account_orders_task_id: orders,
        account_bal_pos_task_id: bal_pos,
    }
}

fn is_connect(action: &ReloadAction, id: &str) -> bool {
    matches!(action, ReloadAction::Connect { account_id } if account_id == id)
}

fn is_disconnect(action: &ReloadAction, id: &str, venue: Venue, orders: u64, bal_pos: u64) -> bool {
    matches!(
        action,
        ReloadAction::Disconnect { account_id, venue: v, orders_task_id, bal_pos_task_id }
            if account_id == id && *v == venue && *orders_task_id == orders
                && *bal_pos_task_id == bal_pos
    )
}

#[test]
fn roster_takes_the_last_entry_of_an_identifier() {
    let cfgs = vec![entry("a", "okx", 1, 2), entry("b", "okx", 3, 4), entry("a", "binance_um", 5, 6)];
    let roster = build_roster(&cfgs).ok().unwrap();
    assert_eq!(roster.key_list(), vec![key("a"), key("b")]);
    assert_eq!(roster.value_at(0).venue, Venue::BinanceUm);
    assert_eq!(roster.value_at(0).account_orders_task_id, 5);
    assert_eq!(roster.value_at(1).account_bal_pos_task_id, 4);
}

#[test]
fn roster_fails_on_the_first_unknown_exchange() {
    let cfgs = vec![entry("a", "okx", 1, 2), entry("b", "Foo", 3, 4), entry("c", "Bar", 5, 6)];
    match build_roster(&cfgs) {
        Err(ConfigError::UnknownExchange(name)) => assert_eq!(name, "foo"),
        Ok(_) => panic!("an unknown exchange was accepted"),
    }
}

#[test]
fn added_account_gets_two_routes_and_one_connect() {
    let mut m = manager();
    m.load_all_accounts(&vec![entry("a", "okx", 1, 2)]).unwrap();
    assert_eq!(m.task_index.len(), 2);
    let actions =
        m.reload_accounts(&vec![entry("a", "okx", 1, 2), entry("b", "binance_um", 3, 4)]).unwrap();
    assert_eq!(actions.len(), 1);
    assert!(is_connect(&actions[0], "b"));
    assert_eq!(m.task_index.len(), 4);
    assert_eq!(m.task_index.get(&3), Some(&key("b")));
    assert_eq!(m.task_index.get(&4), Some(&key("b")));
    assert_eq!(m.account_infos.len(), 2);
    assert_eq!(m.account_infos.get(&key("b")).unwrap().venue, Venue::BinanceUm);
}

#[test]
fn removed_account_loses_its_routes_and_is_torn_down() {
    let mut m = manager();
    m.load_all_accounts(&vec![entry("a", "okx", 1, 2), entry("b", "binance_um", 3, 4)]).unwrap();
    let actions = m.reload_accounts(&vec![entry("b", "binance_um", 3, 4)]).unwrap();
    assert_eq!(actions.len(), 1);
    assert!(is_disconnect(&actions[0], "a", Venue::Okx, 1, 2));
    // by the time the teardown is handed out the index no longer knows the feeds
    assert_eq!(m.task_index.len(), 2);
    assert_eq!(m.resolve(1), Route::UnknownTask);
    assert_eq!(m.resolve(2), Route::UnknownTask);
    assert_eq!(m.resolve(3), Route::Account(0));
    assert!(m.account_infos.get(&key("a")).is_none());
}

#[test]
fn changed_feeds_replace_the_account() {
    let mut m = manager();
    m.load_all_accounts(&vec![entry("a", "okx", 1, 2)]).unwrap();
    m.account_infos.value_at_mut(0).total_equity = 500 * UNIT;
    m.account_infos.value_at_mut(0).acc_weights.insert(key("A"), UNIT / 2);
    let actions = m.reload_accounts(&vec![entry("a", "okx", 1, 7)]).unwrap();
    assert_eq!(actions.len(), 2);
    assert!(is_disconnect(&actions[0], "a", Venue::Okx, 1, 2));
    assert!(is_connect(&actions[1], "a"));
    assert_eq!(m.task_index.len(), 2);
    assert_eq!(m.task_index.get(&1), Some(&key("a")));
    assert_eq!(m.task_index.get(&7), Some(&key("a")));
    assert_eq!(m.task_index.get(&2), None);
    // the replacement starts from nothing
    let a = m.account_infos.get(&key("a")).unwrap();
    assert_eq!(a.total_equity, 0);
    assert_eq!(a.acc_weights.len(), 0);
    assert_eq!(a.account_bal_pos_task_id, 7);
}

#[test]
fn unchanged_account_keeps_its_state() {
    let mut m = manager();
    m.load_all_accounts(&vec![entry("a", "okx", 1, 2)]).unwrap();
    m.account_infos.value_at_mut(0).total_equity = 500 * UNIT;
    m.account_infos.value_at_mut(0).acc_weights.insert(key("A"), UNIT / 2);
    let actions = m.reload_accounts(&vec![entry("a", "okx", 1, 2)]).unwrap();
    assert!(actions.is_empty());
    let a = m.account_infos.get(&key("a")).unwrap();
    assert_eq!(a.total_equity, 500 * UNIT);
    assert_eq!(a.acc_weights.get(&key("A")), Some(&(UNIT / 2)));
    assert_eq!(m.task_index.len(), 2);
}

#[test]
fn credentials_and_venue_alone_are_not_a_change() {
    let mut m = manager();
    m.load_all_accounts(&vec![entry("a", "okx", 1, 2)]).unwrap();
    let mut changed = entry("a", "binance_um", 1, 2);
    changed.api_key = key("another key");
    changed.api_secret = key("another secret");
    changed.passphrase = Some(key("phrase"));
    let actions = m.reload_accounts(&vec![changed]).unwrap();
    assert!(actions.is_empty());
    assert_eq!(m.account_infos.get(&key("a")).unwrap().venue, Venue::Okx);
}

#[test]
fn reload_lists_added_then_removed_then_changed() {
    let mut m = manager();
    m.load_all_accounts(&vec![
        entry("keep", "okx", 1, 2),
        entry("gone", "okx", 3, 4),
        entry("moved", "binance_um", 5, 6),
    ])
    .unwrap();
    let actions = m
        .reload_accounts(&vec![
            entry("moved", "binance_um", 5, 60),
            entry("new", "okx", 7, 8),
            entry("keep", "okx", 1, 2),
        ])
        .unwrap();
    assert_eq!(actions.len(), 4);
    assert!(is_connect(&actions[0], "new"));
    assert!(is_disconnect(&actions[1], "gone", Venue::Okx, 3, 4));
    assert!(is_disconnect(&actions[2], "moved", Venue::BinanceUm, 5, 6));
    assert!(is_connect(&actions[3], "moved"));
    assert_eq!(m.account_infos.len(), 3);
    assert_eq!(m.task_index.len(), 6);
    for task in [1u64, 2, 5, 60, 7, 8] {
        assert!(matches!(m.resolve(task), Route::Account(_)));
    }
    for task in [3u64, 4, 6] {
        assert_eq!(m.resolve(task), Route::UnknownTask);
    }
}

#[test]
fn reload_with_unknown_exchange_changes_nothing() {
    let mut m = manager();
    m.load_all_accounts(&vec![entry("a", "okx", 1, 2)]).unwrap();
    let r = m.reload_accounts(&vec![entry("b", "okx", 3, 4), entry("c", "Mars", 5, 6)]);
    match r {
        Err(ConfigError::UnknownExchange(name)) => assert_eq!(name, "mars"),
        Ok(_) => panic!("an unknown exchange was accepted"),
    }
    assert_eq!(m.account_infos.len(), 1);
    assert_eq!(m.task_index.len(), 2);
    assert_eq!(m.resolve(3), Route::UnknownTask);
}

#[test]
fn reload_to_empty_roster_removes_everything() {
    let mut m = manager();
    m.load_all_accounts(&vec![entry("a", "okx", 1, 2), entry("b", "okx", 3, 4)]).unwrap();
    let actions = m.reload_accounts(&Vec::new()).unwrap();
    assert_eq!(actions.len(), 2);
    assert!(is_disconnect(&actions[0], "a", Venue::Okx, 1, 2));
    assert!(is_disconnect(&actions[1], "b", Venue::Okx, 3, 4));
    assert_eq!(m.account_infos.len(), 0);
    assert_eq!(m.task_index.len(), 0);
}

#[test]
fn added_account_takes_over_the_feeds_of_a_removed_one() {
    // routes are struck out before any are entered: the account that
    // leaves cannot take the new account's routes with it
    let mut m = manager();
    m.load_all_accounts(&vec![entry("a", "okx", 1100, 1150)]).unwrap();
    let actions = m.reload_accounts(&vec![entry("b", "okx", 1100, 1150)]).unwrap();
    assert_eq!(actions.len(), 2);
    assert!(is_connect(&actions[0], "b"));
    assert!(is_disconnect(&actions[1], "a", Venue::Okx, 1100, 1150));
    assert_eq!(m.account_infos.key_list(), vec![key("b")]);
    assert_eq!(m.task_index.len(), 2);
    assert_eq!(m.task_index.get(&1100), Some(&key("b")));
    assert_eq!(m.task_index.get(&1150), Some(&key("b")));
}

#[test]
fn added_account_takes_over_one_feed_of_a_removed_one() {
    let mut m = manager();
    m.load_all_accounts(&vec![entry("old", "okx", 1, 2)]).unwrap();
    let actions = m.reload_accounts(&vec![entry("new", "okx", 1, 3)]).unwrap();
    assert_eq!(actions.len(), 2);
    assert_eq!(m.resolve(1), Route::Account(0));
    assert_eq!(m.resolve(2), Route::UnknownTask);
    assert_eq!(m.resolve(3), Route::Account(0));
    assert_eq!(m.task_index.len(), 2);
}

#[test]
fn accounts_that_exchange_feeds_both_keep_two_routes() {
    let mut m = manager();
    m.load_all_accounts(&vec![entry("x", "okx", 1, 2), entry("y", "okx", 3, 4)]).unwrap();
    let actions =
        m.reload_accounts(&vec![entry("x", "okx", 3, 4), entry("y", "okx", 1, 2)]).unwrap();
    assert_eq!(actions.len(), 4);
    assert!(is_disconnect(&actions[0], "x", Venue::Okx, 1, 2));
    assert!(is_connect(&actions[1], "x"));
    assert!(is_disconnect(&actions[2], "y", Venue::Okx, 3, 4));
    assert!(is_connect(&actions[3], "y"));
    assert_eq!(m.task_index.len(), 4);
    assert_eq!(m.task_index.get(&1), Some(&key("y")));
    assert_eq!(m.task_index.get(&2), Some(&key("y")));
    assert_eq!(m.task_index.get(&3), Some(&key("x")));
    assert_eq!(m.task_index.get(&4), Some(&key("x")));
    assert_eq!(m.account_infos.get(&key("x")).unwrap().account_orders_task_id, 3);
    assert_eq!(m.account_infos.get(&key("y")).unwrap().account_bal_pos_task_id, 2);
}

#[test]
fn changed_account_takes_over_a_feed_of_a_removed_one() {
    let mut m = manager();
    m.load_all_accounts(&vec![entry("stay", "okx", 1, 2), entry("gone", "okx", 3, 4)]).unwrap();
    let actions = m.reload_accounts(&vec![entry("stay", "okx", 1, 3)]).unwrap();
    assert_eq!(actions.len(), 3);
    assert!(is_disconnect(&actions[0], "gone", Venue::Okx, 3, 4));
    assert!(is_disconnect(&actions[1], "stay", Venue::Okx, 1, 2));
    assert!(is_connect(&actions[2], "stay"));
    assert_eq!(m.task_index.len(), 2);
    assert_eq!(m.task_index.get(&1), Some(&key("stay")));
    assert_eq!(m.task_index.get(&3), Some(&key("stay")));
}

#[test]
fn no_route_names_an_account_that_was_removed() {
    let mut m = manager();
    m.load_all_accounts(&vec![
        entry("a", "okx", 1, 2),
        entry("b", "binance_um", 3, 4),
        entry("c", "okx", 5, 6),
    ])
    .unwrap();
    let actions = m
        .reload_accounts(&vec![entry("c", "okx", 5, 7), entry("d", "okx", 1, 4)])
        .unwrap();
    assert_eq!(actions.len(), 5);
    for owner in m.task_index.values() {
        assert!(owner == "c" || owner == "d");
    }
    assert_eq!(m.task_index.len(), 4);
    assert!(m.account_infos.get(&key("a")).is_none());
    assert!(m.account_infos.get(&key("b")).is_none());
}

#[test]
fn reload_roster_takes_accounts_as_they_are() {
    let mut m = manager();
    let mut roster: StrMap<AccountInfo> = StrMap::new();
    let mut a = AccountInfo::new(key("a"), Venue::Okx, 1, 2);
    a.total_equity = 9;
    roster.insert(key("a"), a);
    let actions = m.reload_roster(roster);
    assert_eq!(actions.len(), 1);
    assert!(is_connect(&actions[0], "a"));
    assert_eq!(m.account_infos.get(&key("a")).unwrap().total_equity, 9);
}
