//! Account configuration as it is persisted, and what an account starts as.

use vstd::prelude::*;
use crate::account::AccountInfo;
use crate::instrument::Venue;
use crate::text::{lowercase_of, to_lowercase};

verus! {

/// One account of the persisted roster.
#[derive(Clone, Debug)]
pub struct AccountFileConfig {
    pub account_id: String,
    pub exchange: String,
    pub api_key: String,
    pub api_secret: String,
    pub passphrase: Option<String>,
    pub account_orders_task_id: u64,
    pub account_bal_pos_task_id: u64,
}

/// The ticks that drive the roster: which task identifier reloads it, which
/// one brings it up to date, and how often each fires.
#[derive(Clone, Debug)]
pub struct AccountInitConfig {
    pub reload_task_id: u64,
    pub update_task_id: u64,
    pub reload_interval_sec: u64,
    pub update_interval_sec: u64,
}

impl Default for AccountInitConfig {
    fn default() -> (c: Self)
        ensures
            c.reload_task_id == 10,
            c.update_task_id == 20,
            c.reload_interval_sec == 3600,
            c.update_interval_sec == 30,
    {
        AccountInitConfig {
            reload_task_id: 10,
            update_task_id: 20,
            reload_interval_sec: 3600,
            update_interval_sec: 30,
        }
    }
}

/// Why a roster entry is not usable.
#[derive(Clone, Debug)]
pub enum ConfigError {
    /// The exchange name, in lower case, is none of the known ones.
    UnknownExchange(String),
}

/// The venue that a lower-case exchange name stands for.
pub open spec fn venue_named(name: Seq<char>) -> Option<Venue> {
    if name == "okx"@ {
        Some(Venue::Okx)
    } else if name == "binance_um"@ {
        Some(Venue::BinanceUm)
    } else if name == "binance_cm"@ {
        Some(Venue::BinanceCm)
    } else {
        None
    }
}

/// Computes `venue_named`.
pub fn venue_from_name(name: &String) -> (v: Option<Venue>)
    ensures
        v == venue_named(name@),
{
    if *name == "okx".to_owned() {
        Some(Venue::Okx)
    } else if *name == "binance_um".to_owned() {
        Some(Venue::BinanceUm)
    } else if *name == "binance_cm".to_owned() {
        Some(Venue::BinanceCm)
    } else {
        None
    }
}

/// The account a roster entry starts as, given the entry's exchange name in
/// lower case.
pub fn account_for(cfg: &AccountFileConfig, lowered: String) -> (r: Result<AccountInfo, ConfigError>)
    ensures
        match venue_named(lowered@) {
            Some(venue) => r is Ok && starts_as(r->Ok_0, *cfg, venue),
            None => r is Err && r->Err_0 == ConfigError::UnknownExchange(lowered),
        },
{
    match venue_from_name(&lowered) {
        Some(venue) => Ok(
            AccountInfo::new(
                cfg.account_id.clone(),
                venue,
                cfg.account_orders_task_id,
                cfg.account_bal_pos_task_id,
            ),
        ),
        None => Err(ConfigError::UnknownExchange(lowered)),
    }
}

/// A fresh account for a roster entry on `venue`: the entry's identifiers, no
/// weights, no prices, no equity.
pub open spec fn starts_as(account: AccountInfo, cfg: AccountFileConfig, venue: Venue) -> bool {
    &&& account.wf()
    &&& account.account_id@ == cfg.account_id@
    &&& account.venue == venue
    &&& account.acc_weights@ == Map::<Seq<char>, i64>::empty()
    &&& account.inst_mark_price@ == Map::<Seq<char>, i64>::empty()
    &&& account.total_equity == 0
    &&& account.account_orders_task_id == cfg.account_orders_task_id
    &&& account.account_bal_pos_task_id == cfg.account_bal_pos_task_id
}

/// The venue that a roster entry names, if it names a known one.
pub open spec fn entry_venue(cfg: AccountFileConfig) -> Option<Venue> {
    venue_named(lowercase_of(cfg.exchange@))
}

/// Position of the last of the first `upto` roster entries with identifier
/// `k`, and -1 where there is none.
pub open spec fn entry_for(cfgs: Seq<AccountFileConfig>, upto: int, k: Seq<char>) -> int
    decreases upto,
{
    if upto <= 0 {
        -1
    } else if cfgs[upto - 1].account_id@ == k {
        upto - 1
    } else {
        entry_for(cfgs, upto - 1, k)
    }
}

/// Position of the first roster entry that names no known venue, and the
/// number of entries where all do.
pub open spec fn first_unknown(cfgs: Seq<AccountFileConfig>, from: int) -> int
    decreases cfgs.len() - from,
{
    if from < 0 || from >= cfgs.len() {
        cfgs.len() as int
    } else if entry_venue(cfgs[from]) is None {
        from
    } else {
        first_unknown(cfgs, from + 1)
    }
}

/// The first roster entry that names no known venue, looked for from
/// position `from` on, lies at `from` or after it.
pub proof fn lemma_first_unknown_bounds(cfgs: Seq<AccountFileConfig>, from: int)
    requires
        0 <= from <= cfgs.len(),
    ensures
        from <= first_unknown(cfgs, from) <= cfgs.len(),
    decreases cfgs.len() - from,
{
    if from < cfgs.len() && entry_venue(cfgs[from]) is Some {
        lemma_first_unknown_bounds(cfgs, from + 1);
    }
}

impl AccountInfo {
    /// The account a roster entry starts as. The exchange name is matched in
    /// lower case; an unknown name is an error that carries it.
    pub fn from_config(cfg: &AccountFileConfig) -> (r: Result<AccountInfo, ConfigError>)
        ensures
            match venue_named(lowercase_of(cfg.exchange@)) {
                Some(venue) => r is Ok && starts_as(r->Ok_0, *cfg, venue),
                None => r is Err && r->Err_0->UnknownExchange_0@ == lowercase_of(cfg.exchange@),
            },
    {
        let lowered = to_lowercase(cfg.exchange.as_str());
        account_for(cfg, lowered)
    }
}

} // verus!
