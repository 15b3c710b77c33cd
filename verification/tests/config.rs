use account_sync::account::AccountInfo;
use account_sync::config::{
    account_for, venue_from_name, AccountFileConfig, AccountInitConfig, ConfigError,
};
use account_sync::instrument::Venue;

fn entry(id: &str, exchange: &str, orders: u64, bal_pos: u64) -> AccountFileConfig {
    AccountFileConfig {
        account_id: String::from(id),
        exchange: String::from(exchange),
        api_key: String::from("key"),
        api_secret: String::from("secret"),
        passphrase: None,
        account_orders_task_id: orders,
        account_bal_pos_task_id: bal_pos,
    }
}

#[test]
fn default_ticks() {
    let c = AccountInitConfig::default();
    assert_eq!(c.reload_task_id, 10);
    assert_eq!(c.update_task_id, 20);
    assert_eq!(c.reload_interval_sec, 3600);
    assert_eq!(c.update_interval_sec, 30);
}

#[test]
fn venue_names() {
    assert_eq!(venue_from_name(&String::from("okx")), Some(Venue::Okx));
    assert_eq!(venue_from_name(&String::from("binance_um")), Some(Venue::BinanceUm));
    assert_eq!(venue_from_name(&String::from("binance_cm")), Some(Venue::BinanceCm));
    assert_eq!(venue_from_name(&String::from("OKX")), None);
    assert_eq!(venue_from_name(&String::from("binance")), None);
    assert_eq!(venue_from_name(&String::new()), None);
}

#[test]
fn from_config_matches_exchange_in_any_case() {
    let a = AccountInfo::from_config(&entry("a", "OKX", 1, 2)).unwrap();
    assert_eq!(a.venue, Venue::Okx);
    let b = AccountInfo::from_config(&entry("b", "Binance_UM", 3, 4)).unwrap();
    assert_eq!(b.venue, Venue::BinanceUm);
    let c = AccountInfo::from_config(&entry("c", "binance_cm", 5, 6)).unwrap();
    assert_eq!(c.venue, Venue::BinanceCm);
}

#[test]
fn from_config_starts_empty() {
    let a = AccountInfo::from_config(&entry("acc", "okx", 1100, 1150)).unwrap();
    assert_eq!(a.account_id, "acc");
    assert_eq!(a.account_orders_task_id, 1100);
    assert_eq!(a.account_bal_pos_task_id, 1150);
    assert_eq!(a.total_equity, 0);
    assert_eq!(a.acc_weights.len(), 0);
    assert_eq!(a.inst_mark_price.len(), 0);
}

#[test]
fn from_config_rejects_unknown_exchange() {
    match AccountInfo::from_config(&entry("a", "Kraken", 1, 2)) {
        Err(ConfigError::UnknownExchange(name)) => assert_eq!(name, "kraken"),
        Ok(_) => panic!("an unknown exchange was accepted"),
    }
}

#[test]
fn account_for_takes_the_lowered_name_as_given() {
    assert!(account_for(&entry("a", "ignored", 1, 2), String::from("okx")).is_ok());
    assert!(account_for(&entry("a", "okx", 1, 2), String::from("OKX")).is_err());
}
