//! The roster of live accounts and the index that routes feed events to
//! them.

use std::collections::HashMap;
use std::sync::Arc;
use dashmap::DashMap;
use vstd::prelude::*;
use crate::account::AccountInfo;
use crate::config::{
    AccountFileConfig,
    AccountInitConfig,
    ConfigError,
    entry_for,
    entry_venue,
    first_unknown,
    lemma_first_unknown_bounds,
    starts_as,
};
use crate::text::lowercase_of;
use crate::instrument::{InstrumentCatalog, InstrumentInfo, Venue};
use crate::strmap::StrMap;
use crate::targets::new_target_table;

verus! {

broadcast use vstd::std_specs::hash::group_hash_axioms;

/// The accounts under management, the trading rules they are sized by and
/// the index from feed task identifier to account identifier.
#[derive(Clone, Debug)]
pub struct AccountManager {
    pub target_weights: Arc<DashMap<String, (i64, i64)>>,
    pub task_index: HashMap<u64, String>,
    pub account_infos: StrMap<AccountInfo>,
    pub instrument_infos: InstrumentCatalog,
    pub config: AccountInitConfig,
}

/// The index with both feeds of an account entered.
pub open spec fn routes_with(
    routes: Map<u64, Seq<char>>,
    account_id: Seq<char>,
    orders_task: u64,
    bal_pos_task: u64,
) -> Map<u64, Seq<char>> {
    routes.insert(orders_task, account_id).insert(bal_pos_task, account_id)
}

/// The index with both feeds of an account struck out.
pub open spec fn routes_without(routes: Map<u64, Seq<char>>, orders_task: u64, bal_pos_task: u64) -> Map<
    u64,
    Seq<char>,
> {
    routes.remove(orders_task).remove(bal_pos_task)
}

/// Whether `task` is one of the two feeds of `account`.
pub open spec fn owns_task(account: AccountInfo, task: u64) -> bool {
    account.account_orders_task_id == task || account.account_bal_pos_task_id == task
}

/// Every entry of the index names an account of the roster, and that
/// account owns the entry's feed.
pub open spec fn routes_resolve(routes: Map<u64, Seq<char>>, accounts: StrMap<AccountInfo>) -> bool {
    forall|task: u64| #[trigger]
        routes.contains_key(task) ==> accounts.contains(routes[task]) && owns_task(
            accounts.lookup(routes[task])->Some_0,
            task,
        )
}

/// Every account of the roster is well formed and stored under its own
/// identifier.
pub open spec fn roster_wf(accounts: StrMap<AccountInfo>) -> bool {
    &&& accounts.wf()
    &&& forall|i: int|
        0 <= i < accounts.keys().len() ==> (#[trigger] accounts.values()[i]).wf()
            && accounts.values()[i].account_id@ == accounts.keys()[i]
}

/// The trading rules that the first `upto` of `infos` list for `inst`: the
/// last of them counts.
pub open spec fn listed_rule(infos: Seq<InstrumentInfo>, upto: int, inst: Seq<char>) -> Option<
    InstrumentInfo,
>
    decreases upto,
{
    if upto <= 0 {
        None
    } else if infos[upto - 1].inst@ == inst {
        Some(infos[upto - 1])
    } else {
        listed_rule(infos, upto - 1, inst)
    }
}

/// The feed task identifiers of each account, by account identifier.
pub open spec fn feeds_in(accounts: StrMap<AccountInfo>) -> Map<Seq<char>, (u64, u64)> {
    Map::new(
        |k: Seq<char>| accounts.contains(k),
        |k: Seq<char>|
            (
                accounts.lookup(k)->Some_0.account_orders_task_id,
                accounts.lookup(k)->Some_0.account_bal_pos_task_id,
            ),
    )
}

/// Feeds by account after the first `upto` roster entries were entered one
/// after the other.
pub open spec fn feeds_loaded(
    feeds: Map<Seq<char>, (u64, u64)>,
    cfgs: Seq<AccountFileConfig>,
    upto: int,
) -> Map<Seq<char>, (u64, u64)>
    decreases upto,
{
    if upto <= 0 {
        feeds
    } else {
        feeds_loaded(feeds, cfgs, upto - 1).insert(
            cfgs[upto - 1].account_id@,
            (cfgs[upto - 1].account_orders_task_id, cfgs[upto - 1].account_bal_pos_task_id),
        )
    }
}

/// The index after the first `upto` roster entries were entered one after
/// the other, each entry taking over from an account with its identifier.
pub open spec fn routes_loaded(
    routes: Map<u64, Seq<char>>,
    feeds: Map<Seq<char>, (u64, u64)>,
    cfgs: Seq<AccountFileConfig>,
    upto: int,
) -> Map<u64, Seq<char>>
    decreases upto,
{
    if upto <= 0 {
        routes
    } else {
        let before = routes_loaded(routes, feeds, cfgs, upto - 1);
        let held = feeds_loaded(feeds, cfgs, upto - 1);
        let id = cfgs[upto - 1].account_id@;
        let cleared = if held.contains_key(id) {
            routes_without(before, held[id].0, held[id].1)
        } else {
            before
        };
        routes_with(
            cleared,
            id,
            cfgs[upto - 1].account_orders_task_id,
            cfgs[upto - 1].account_bal_pos_task_id,
        )
    }
}

/// The account stored under `k` after the first `upto` roster entries were
/// entered over `accounts`.
pub open spec fn loaded_account_ok(
    accounts: StrMap<AccountInfo>,
    cfgs: Seq<AccountFileConfig>,
    upto: int,
    k: Seq<char>,
    stored: Option<AccountInfo>,
) -> bool {
    let t = entry_for(cfgs, upto, k);
    if t < 0 {
        stored == accounts.lookup(k)
    } else {
        &&& stored is Some
        &&& entry_venue(cfgs[t]) is Some
        &&& starts_as(stored->Some_0, cfgs[t], entry_venue(cfgs[t])->Some_0)
    }
}

/// Whether two pairs of feed task identifiers have an identifier in common.
pub open spec fn feeds_overlap(a: (u64, u64), b: (u64, u64)) -> bool {
    a.0 == b.0 || a.0 == b.1 || a.1 == b.0 || a.1 == b.1
}

/// Whether two accounts have a feed task identifier in common.
pub open spec fn shares_feed(a: AccountInfo, b: AccountInfo) -> bool {
    feeds_overlap(
        (a.account_orders_task_id, a.account_bal_pos_task_id),
        (b.account_orders_task_id, b.account_bal_pos_task_id),
    )
}

/// The feed task identifiers that a roster entry names.
pub open spec fn entry_feeds(cfg: AccountFileConfig) -> (u64, u64) {
    (cfg.account_orders_task_id, cfg.account_bal_pos_task_id)
}

/// Among the first `upto` roster entries, entries with different
/// identifiers have no feed in common, and no entry has a feed in common with
/// an account that `accounts` holds under another identifier.
pub open spec fn entries_exclusive(
    accounts: StrMap<AccountInfo>,
    cfgs: Seq<AccountFileConfig>,
    upto: int,
) -> bool {
    &&& forall|i: int, j: int|
        #![trigger cfgs[i], cfgs[j]]
        0 <= i < upto && 0 <= j < upto && cfgs[i].account_id@ != cfgs[j].account_id@
            ==> !feeds_overlap(entry_feeds(cfgs[i]), entry_feeds(cfgs[j]))
    &&& forall|i: int, k: Seq<char>|
        #![trigger cfgs[i], accounts.lookup(k)]
        0 <= i < upto && accounts.contains(k) && k != cfgs[i].account_id@ ==> !feeds_overlap(
            entry_feeds(cfgs[i]),
            (
                accounts.lookup(k)->Some_0.account_orders_task_id,
                accounts.lookup(k)->Some_0.account_bal_pos_task_id,
            ),
        )
}

/// No two accounts of the roster have a feed task identifier in common.
pub open spec fn feeds_exclusive(accounts: StrMap<AccountInfo>) -> bool {
    forall|j: Seq<char>, k: Seq<char>|
        #![trigger accounts.lookup(j), accounts.lookup(k)]
        accounts.contains(j) && accounts.contains(k) && j != k ==> !shares_feed(
            accounts.lookup(j)->Some_0,
            accounts.lookup(k)->Some_0,
        )
}

/// Both feeds of every account of the roster are routed to it.
pub open spec fn routes_complete(routes: Map<u64, Seq<char>>, accounts: StrMap<AccountInfo>) -> bool {
    forall|k: Seq<char>| #[trigger]
        accounts.contains(k) ==> {
            let a = accounts.lookup(k)->Some_0;
            &&& routes.contains_key(a.account_orders_task_id)
            &&& routes[a.account_orders_task_id] == k
            &&& routes.contains_key(a.account_bal_pos_task_id)
            &&& routes[a.account_bal_pos_task_id] == k
        }
}

/// `account` has no feed task identifier in common with any account that
/// the roster holds under another identifier.
pub open spec fn feeds_free_for(accounts: StrMap<AccountInfo>, account: AccountInfo) -> bool {
    forall|k: Seq<char>| #[trigger]
        accounts.contains(k) && k != account.account_id@ ==> !shares_feed(
            account,
            accounts.lookup(k)->Some_0,
        )
}

/// Where an event for a feed task goes.
#[derive(Clone, Copy, Debug, PartialEq, Eq, Structural)]
pub enum Route {
    /// The index has no entry for the task.
    UnknownTask,
    /// The index names an account that the roster does not hold.
    MissingAccount,
    /// The account at this position of the roster.
    Account(usize),
}

impl AccountManager {
    /// The index as a map from feed task to account identifier.
    pub open spec fn routes(&self) -> Map<u64, Seq<char>> {
        Map::new(
            |task: u64| self.task_index@.contains_key(task),
            |task: u64| self.task_index@[task]@,
        )
    }

    /// The roster and the catalog are well formed and every entry of the
    /// index resolves to an account of the roster that owns the entry's feed.
    pub open spec fn wf(&self) -> bool {
        &&& roster_wf(self.account_infos)
        &&& self.instrument_infos.wf()
        &&& routes_resolve(self.routes(), self.account_infos)
    }

    /// The manager is well formed, no two of its accounts have a feed in
    /// common, and both feeds of every account are routed to it: the index
    /// holds exactly the feeds of the accounts on the roster.
    pub open spec fn tidy(&self) -> bool {
        &&& self.wf()
        &&& feeds_exclusive(self.account_infos)
        &&& routes_complete(self.routes(), self.account_infos)
    }

    /// Where an event for `task` goes.
    pub open spec fn route_of(&self, task: u64) -> Route {
        if !self.routes().contains_key(task) {
            Route::UnknownTask
        } else if !self.account_infos.contains(self.routes()[task]) {
            Route::MissingAccount
        } else {
            Route::Account(self.account_infos.position(self.routes()[task]) as usize)
        }
    }

    /// A manager without accounts, rules or routes, with a target table of
    /// its own.
    pub fn new(config: AccountInitConfig) -> (m: Self)
        ensures
            m.wf(),
            m.tidy(),
            m.config == config,
            m.routes() == Map::<u64, Seq<char>>::empty(),
            m.account_infos@ == Map::<Seq<char>, AccountInfo>::empty(),
            m.account_infos.keys() == Seq::<Seq<char>>::empty(),
            forall|inst: Seq<char>, venue: Venue| m.instrument_infos.lookup(inst, venue).is_none(),
    {
        let m = AccountManager {
            target_weights: new_target_table(),
            task_index: HashMap::new(),
            account_infos: StrMap::new(),
            instrument_infos: InstrumentCatalog::new(),
            config,
        };
        assert(m.routes() =~= Map::<u64, Seq<char>>::empty());
        m
    }

    /// Makes the manager read its targets from `target_weights`.
    pub fn with_target_weights(&mut self, target_weights: Arc<DashMap<String, (i64, i64)>>) -> (m:
        &mut Self)
        ensures
            *m == (AccountManager { target_weights, ..*old(self) }),
            *final(self) == *final(m),
    {
        self.target_weights = target_weights;
        self
    }

    /// Computes `route_of`.
    pub fn resolve(&self, task: u64) -> (r: Route)
        requires
            self.account_infos.wf(),
        ensures
            r == self.route_of(task),
            r matches Route::Account(i) ==> i < self.account_infos.keys().len()
                && self.account_infos.keys()[i as int] == self.routes()[task],
            self.wf() ==> r != Route::MissingAccount,
    {
        match self.task_index.get(&task) {
            None => Route::UnknownTask,
            Some(account_id) => match self.account_infos.find(account_id) {
                None => Route::MissingAccount,
                Some(i) => Route::Account(i),
            },
        }
    }

    /// The index before an account is entered under `account_id`: an
    /// account already stored under that identifier gives up its routes.
    pub open spec fn routes_cleared_for(&self, account_id: Seq<char>) -> Map<u64, Seq<char>> {
        match self.account_infos.lookup(account_id) {
            Some(previous) => routes_without(
                self.routes(),
                previous.account_orders_task_id,
                previous.account_bal_pos_task_id,
            ),
            None => self.routes(),
        }
    }

    /// Enters an account: both its feeds are routed to it and it is stored
    /// under its identifier. An account already stored under that identifier
    /// is replaced and its routes are struck out first.
    pub fn add_account(&mut self, account_info: AccountInfo)
        requires
            old(self).wf(),
            account_info.wf(),
        ensures
            final(self).wf(),
            final(self).account_infos@ == old(self).account_infos@.insert(
                account_info.account_id@,
                account_info,
            ),
            final(self).account_infos.lookup(account_info.account_id@) == Some(account_info),
            forall|k: Seq<char>|
                k != account_info.account_id@ ==> final(self).account_infos.lookup(k) == old(
                    self,
                ).account_infos.lookup(k),
            final(self).routes() == routes_with(
                old(self).routes_cleared_for(account_info.account_id@),
                account_info.account_id@,
                account_info.account_orders_task_id,
                account_info.account_bal_pos_task_id,
            ),
            old(self).tidy() && feeds_free_for(old(self).account_infos, account_info)
                ==> final(self).tidy(),
            final(self).instrument_infos == old(self).instrument_infos,
            final(self).config == old(self).config,
            final(self).target_weights == old(self).target_weights,
    {
        let ghost id = account_info.account_id@;
        let orders_task: u64 = account_info.account_orders_task_id;
        let bal_pos_task: u64 = account_info.account_bal_pos_task_id;
        match self.account_infos.find(&account_info.account_id) {
            Some(i) => {
                let previous = self.account_infos.value_at(i);
                let old_orders: u64 = previous.account_orders_task_id;
                let old_bal_pos: u64 = previous.account_bal_pos_task_id;
                self.task_index.remove(&old_orders);
                self.task_index.remove(&old_bal_pos);
            },
            None => {},
        }
        let ghost cleared = self.routes();
        assert(cleared =~= old(self).routes_cleared_for(id));
        self.task_index.insert(orders_task, account_info.account_id.clone());
        self.task_index.insert(bal_pos_task, account_info.account_id.clone());
        assert(self.routes() =~= routes_with(cleared, id, orders_task, bal_pos_task));
        let ghost old_accounts = self.account_infos;
        self.account_infos.insert(account_info.account_id.clone(), account_info);
        proof {
            let accounts = self.account_infos;
            lemma_insert_keeps_roster_wf(old_accounts, accounts, account_info);
            assert(routes_resolve(self.routes(), accounts)) by {
                assert forall|task: u64| #[trigger]
                    self.routes().contains_key(task) implies accounts.contains(self.routes()[task])
                    && owns_task(accounts.lookup(self.routes()[task])->Some_0, task) by {
                    if task != orders_task && task != bal_pos_task {
                        assert(cleared.contains_key(task));
                        assert(old(self).routes().contains_key(task));
                        let k = old(self).routes()[task];
                        assert(old_accounts.contains(k));
                        assert(k != id);
                    }
                }
            }
            if old(self).tidy() && feeds_free_for(old_accounts, account_info) {
                assert(feeds_exclusive(accounts)) by {
                    assert forall|j: Seq<char>, k: Seq<char>|
                        #![trigger accounts.lookup(j), accounts.lookup(k)]
                        accounts.contains(j) && accounts.contains(k) && j != k implies !shares_feed(
                        accounts.lookup(j)->Some_0,
                        accounts.lookup(k)->Some_0,
                    ) by {
                        if j != id && k != id {
                            assert(accounts.lookup(j) == old_accounts.lookup(j));
                            assert(accounts.lookup(k) == old_accounts.lookup(k));
                        } else if j == id {
                            assert(accounts.lookup(k) == old_accounts.lookup(k));
                            assert(old_accounts.contains(k));
                        } else {
                            assert(accounts.lookup(j) == old_accounts.lookup(j));
                            assert(old_accounts.contains(j));
                        }
                    }
                }
                assert(routes_complete(self.routes(), accounts)) by {
                    assert forall|k: Seq<char>| #[trigger] accounts.contains(k) implies {
                        let a = accounts.lookup(k)->Some_0;
                        &&& self.routes().contains_key(a.account_orders_task_id)
                        &&& self.routes()[a.account_orders_task_id] == k
                        &&& self.routes().contains_key(a.account_bal_pos_task_id)
                        &&& self.routes()[a.account_bal_pos_task_id] == k
                    } by {
                        if k != id {
                            assert(accounts.lookup(k) == old_accounts.lookup(k));
                            assert(old_accounts.contains(k));
                            if old_accounts.contains(id) {
                                assert(!shares_feed(
                                    old_accounts.lookup(k)->Some_0,
                                    old_accounts.lookup(id)->Some_0,
                                ));
                            }
                        }
                    }
                }
            }
        }
    }

    /// Takes the account stored under `account_id` off the roster and
    /// strikes out both its routes. Hands the account over, if there was one.
    pub fn remove_account(&mut self, account_id: &String) -> (removed: Option<AccountInfo>)
        requires
            old(self).wf(),
        ensures
            final(self).wf(),
            removed == old(self).account_infos.lookup(account_id@),
            final(self).account_infos@ == old(self).account_infos@.remove(account_id@),
            final(self).account_infos.lookup(account_id@).is_none(),
            forall|k: Seq<char>|
                k != account_id@ ==> final(self).account_infos.lookup(k) == old(
                    self,
                ).account_infos.lookup(k),
            final(self).routes() == old(self).routes_cleared_for(account_id@),
            old(self).tidy() ==> final(self).tidy(),
            final(self).instrument_infos == old(self).instrument_infos,
            final(self).config == old(self).config,
            final(self).target_weights == old(self).target_weights,
    {
        match self.account_infos.find(account_id) {
            None => {
                assert(self.account_infos@ =~= self.account_infos@.remove(account_id@));
                None
            },
            Some(i) => {
                let ghost old_accounts = self.account_infos;
                let (_, account) = self.account_infos.take_at(i);
                self.task_index.remove(&account.account_orders_task_id);
                self.task_index.remove(&account.account_bal_pos_task_id);
                assert(self.routes() =~= old(self).routes_cleared_for(account_id@));
                proof {
                    let accounts = self.account_infos;
                    assert(roster_wf(accounts)) by {
                        assert forall|j: int| 0 <= j < accounts.keys().len() implies (
                        #[trigger] accounts.values()[j]).wf() && accounts.values()[j].account_id@
                            == accounts.keys()[j] by {
                            let j0 = if j < i { j } else { j + 1 };
                            assert(old_accounts.values()[j0].wf());
                        }
                    }
                    assert(routes_resolve(self.routes(), accounts)) by {
                        assert forall|task: u64| #[trigger]
                            self.routes().contains_key(task) implies accounts.contains(
                            self.routes()[task],
                        ) && owns_task(accounts.lookup(self.routes()[task])->Some_0, task) by {
                            assert(old(self).routes().contains_key(task));
                            let k = old(self).routes()[task];
                            assert(old_accounts.contains(k));
                            assert(k != account_id@);
                        }
                    }
                    if old(self).tidy() {
                        assert(feeds_exclusive(accounts)) by {
                            assert forall|j: Seq<char>, k: Seq<char>|
                                #![trigger accounts.lookup(j), accounts.lookup(k)]
                                accounts.contains(j) && accounts.contains(k) && j
                                    != k implies !shares_feed(
                                accounts.lookup(j)->Some_0,
                                accounts.lookup(k)->Some_0,
                            ) by {
                                assert(accounts.lookup(j) == old_accounts.lookup(j));
                                assert(accounts.lookup(k) == old_accounts.lookup(k));
                            }
                        }
                        assert(routes_complete(self.routes(), accounts)) by {
                            assert forall|k: Seq<char>| #[trigger] accounts.contains(k) implies {
                                let a = accounts.lookup(k)->Some_0;
                                &&& self.routes().contains_key(a.account_orders_task_id)
                                &&& self.routes()[a.account_orders_task_id] == k
                                &&& self.routes().contains_key(a.account_bal_pos_task_id)
                                &&& self.routes()[a.account_bal_pos_task_id] == k
                            } by {
                                assert(accounts.lookup(k) == old_accounts.lookup(k));
                                assert(old_accounts.contains(k));
                                assert(!shares_feed(
                                    old_accounts.lookup(k)->Some_0,
                                    old_accounts.lookup(account_id@)->Some_0,
                                ));
                            }
                        }
                    }
                }
                Some(account)
            },
        }
    }

    /// Files trading rules of one venue, each under its instrument symbol.
    /// Rules already filed under a symbol are replaced.
    pub fn insert_inst_info(&mut self, market: Venue, infos: &Vec<InstrumentInfo>)
        requires
            old(self).wf(),
        ensures
            final(self).wf(),
            forall|inst: Seq<char>, venue: Venue|
                final(self).instrument_infos.lookup(inst, venue) == if venue == market
                    && listed_rule(infos@, infos@.len() as int, inst) is Some {
                    listed_rule(infos@, infos@.len() as int, inst)
                } else {
                    old(self).instrument_infos.lookup(inst, venue)
                },
            final(self).task_index == old(self).task_index,
            final(self).account_infos == old(self).account_infos,
            final(self).config == old(self).config,
            final(self).target_weights == old(self).target_weights,
    {
        let mut i: usize = 0;
        while i < infos.len()
            invariant
                i <= infos@.len(),
                self.wf(),
                forall|inst: Seq<char>, venue: Venue|
                    self.instrument_infos.lookup(inst, venue) == if venue == market && listed_rule(
                        infos@,
                        i as int,
                        inst,
                    ) is Some {
                        listed_rule(infos@, i as int, inst)
                    } else {
                        old(self).instrument_infos.lookup(inst, venue)
                    },
                self.task_index == old(self).task_index,
                self.account_infos == old(self).account_infos,
                self.config == old(self).config,
                self.target_weights == old(self).target_weights,
            decreases infos@.len() - i,
        {
            let info = &infos[i];
            let copy = InstrumentInfo {
                inst: info.inst.clone(),
                lot_size: info.lot_size,
                min_lmt_size: info.min_lmt_size,
                max_lmt_size: info.max_lmt_size,
                min_mkt_size: info.min_mkt_size,
                max_mkt_size: info.max_mkt_size,
                contract_value: info.contract_value,
            };
            assert(copy == *info);
            self.instrument_infos.insert(info.inst.clone(), market, copy);
            i = i + 1;
        }
    }

    /// Enters the accounts that a list of roster entries describes, one
    /// after the other. The first entry that names no known venue stops the
    /// loading with an error; the entries before it stay entered.
    pub fn load_all_accounts(&mut self, cfgs: &Vec<AccountFileConfig>) -> (r: Result<
        (),
        ConfigError,
    >)
        requires
            old(self).wf(),
        ensures
            final(self).wf(),
            r is Ok <==> first_unknown(cfgs@, 0) == cfgs@.len(),
            r is Err ==> r->Err_0->UnknownExchange_0@ == lowercase_of(
                cfgs@[first_unknown(cfgs@, 0)].exchange@,
            ),
            forall|k: Seq<char>|
                loaded_account_ok(
                    old(self).account_infos,
                    cfgs@,
                    first_unknown(cfgs@, 0),
                    k,
                    #[trigger] final(self).account_infos.lookup(k),
                ),
            final(self).routes() == routes_loaded(
                old(self).routes(),
                feeds_in(old(self).account_infos),
                cfgs@,
                first_unknown(cfgs@, 0),
            ),
            old(self).tidy() && entries_exclusive(
                old(self).account_infos,
                cfgs@,
                first_unknown(cfgs@, 0),
            ) ==> final(self).tidy(),
            final(self).instrument_infos == old(self).instrument_infos,
            final(self).config == old(self).config,
            final(self).target_weights == old(self).target_weights,
    {
        let mut i: usize = 0;
        proof {
            lemma_first_unknown_bounds(cfgs@, 0);
        }
        while i < cfgs.len()
            invariant
                i <= cfgs@.len(),
                self.wf(),
                first_unknown(cfgs@, 0) == first_unknown(cfgs@, i as int),
                forall|k: Seq<char>|
                    loaded_account_ok(
                        old(self).account_infos,
                        cfgs@,
                        i as int,
                        k,
                        #[trigger] self.account_infos.lookup(k),
                    ),
                feeds_in(self.account_infos) == feeds_loaded(
                    feeds_in(old(self).account_infos),
                    cfgs@,
                    i as int,
                ),
                self.routes() == routes_loaded(
                    old(self).routes(),
                    feeds_in(old(self).account_infos),
                    cfgs@,
                    i as int,
                ),
                old(self).tidy() && entries_exclusive(
                    old(self).account_infos,
                    cfgs@,
                    first_unknown(cfgs@, 0),
                ) ==> self.tidy(),
                i <= first_unknown(cfgs@, 0),
                self.instrument_infos == old(self).instrument_infos,
                self.config == old(self).config,
                self.target_weights == old(self).target_weights,
            decreases cfgs@.len() - i,
        {
            let cfg = &cfgs[i];
            match AccountInfo::from_config(cfg) {
                Err(e) => {
                    return Err(e);
                },
                Ok(entered) => {
                    let ghost before = self.account_infos;
                    let ghost id = cfg.account_id@;
                    let ghost account = entered;
                    proof {
                        lemma_first_unknown_bounds(cfgs@, i + 1);
                        if old(self).tidy() && entries_exclusive(
                            old(self).account_infos,
                            cfgs@,
                            first_unknown(cfgs@, 0),
                        ) {
                            assert forall|k: Seq<char>| #[trigger]
                                before.contains(k) && k != account.account_id@ implies !shares_feed(
                                account,
                                before.lookup(k)->Some_0,
                            ) by {
                                assert(loaded_account_ok(
                                    old(self).account_infos,
                                    cfgs@,
                                    i as int,
                                    k,
                                    before.lookup(k),
                                ));
                                let t = entry_for(cfgs@, i as int, k);
                                if t >= 0 {
                                    lemma_entry_for(cfgs@, i as int, k);
                                    assert(!feeds_overlap(
                                        entry_feeds(cfgs@[i as int]),
                                        entry_feeds(cfgs@[t]),
                                    ));
                                } else {
                                    assert(old(self).account_infos.contains(k));
                                }
                            }
                        }
                    }
                    self.add_account(entered);
                    proof {
                        let now = feeds_in(self.account_infos);
                        let want = feeds_in(before).insert(
                            id,
                            (cfg.account_orders_task_id, cfg.account_bal_pos_task_id),
                        );
                        assert(account.account_id@ == id);
                        assert(self.account_infos.lookup(id) == Some(account));
                        assert forall|k: Seq<char>| now.contains_key(k) == want.contains_key(
                            k,
                        ) by {
                            if k != id {
                                assert(self.account_infos.lookup(k) == before.lookup(k));
                            }
                        }
                        assert forall|k: Seq<char>| now.contains_key(k) implies now[k]
                            == want[k] by {
                            if k != id {
                                assert(self.account_infos.lookup(k) == before.lookup(k));
                            }
                        }
                        assert(now =~= want);
                        assert forall|k: Seq<char>|
                            loaded_account_ok(
                                old(self).account_infos,
                                cfgs@,
                                i + 1,
                                k,
                                #[trigger] self.account_infos.lookup(k),
                            ) by {
                            if k != id {
                                assert(self.account_infos.lookup(k) == before.lookup(k));
                                assert(loaded_account_ok(
                                    old(self).account_infos,
                                    cfgs@,
                                    i as int,
                                    k,
                                    before.lookup(k),
                                ));
                            }
                        }
                    }
                },
            }
            i = i + 1;
        }
        Ok(())
    }
}

/// Entering an account whose two feed tasks differ and are both new to the
/// index adds exactly two entries, both for the account.
pub proof fn lemma_added_account_routes(
    routes: Map<u64, Seq<char>>,
    account_id: Seq<char>,
    orders_task: u64,
    bal_pos_task: u64,
)
    requires
        routes.dom().finite(),
        orders_task != bal_pos_task,
        !routes.contains_key(orders_task),
        !routes.contains_key(bal_pos_task),
    ensures
        routes_with(routes, account_id, orders_task, bal_pos_task).dom().len() == routes.dom().len()
            + 2,
        routes_with(routes, account_id, orders_task, bal_pos_task)[orders_task] == account_id,
        routes_with(routes, account_id, orders_task, bal_pos_task)[bal_pos_task] == account_id,
        forall|task: u64|
            routes.contains_key(task) ==> routes_with(
                routes,
                account_id,
                orders_task,
                bal_pos_task,
            ).contains_key(task) && #[trigger] routes_with(
                routes,
                account_id,
                orders_task,
                bal_pos_task,
            )[task] == routes[task],
{
    let first = routes.insert(orders_task, account_id);
    assert(first.dom() =~= routes.dom().insert(orders_task));
    assert(first.insert(bal_pos_task, account_id).dom() =~= first.dom().insert(bal_pos_task));
}

/// Striking out an account's routes leaves no entry for either of its feed
/// tasks and touches no other entry.
pub proof fn lemma_removed_account_routes(
    routes: Map<u64, Seq<char>>,
    orders_task: u64,
    bal_pos_task: u64,
)
    ensures
        !routes_without(routes, orders_task, bal_pos_task).contains_key(orders_task),
        !routes_without(routes, orders_task, bal_pos_task).contains_key(bal_pos_task),
        forall|task: u64|
            task != orders_task && task != bal_pos_task ==> (#[trigger] routes_without(
                routes,
                orders_task,
                bal_pos_task,
            ).contains_key(task) <==> routes.contains_key(task)),
        forall|task: u64|
            routes_without(routes, orders_task, bal_pos_task).contains_key(task)
                ==> #[trigger] routes_without(routes, orders_task, bal_pos_task)[task]
                == routes[task],
{
}

/// In a consistent roster no entry of the index names an account that is
/// not on the roster: once an account is gone, no event can reach it.
pub proof fn lemma_absent_account_unrouted(manager: AccountManager, account_id: Seq<char>)
    requires
        manager.wf(),
        !manager.account_infos.contains(account_id),
    ensures
        forall|task: u64| #[trigger]
            manager.routes().contains_key(task) ==> manager.routes()[task] != account_id,
{
}

/// An event for a task that the index does not know is routed nowhere.
pub proof fn lemma_unknown_task_unrouted(manager: AccountManager, task: u64)
    requires
        !manager.routes().contains_key(task),
    ensures
        manager.route_of(task) == Route::UnknownTask,
{
}

/// Where some of the first `upto` roster entries have identifier `k`, the
/// entry found for `k` is one of them and has that identifier.
pub proof fn lemma_entry_for(cfgs: Seq<AccountFileConfig>, upto: int, k: Seq<char>)
    requires
        0 <= upto <= cfgs.len(),
    ensures
        entry_for(cfgs, upto, k) >= 0 ==> entry_for(cfgs, upto, k) < upto && cfgs[entry_for(
            cfgs,
            upto,
            k,
        )].account_id@ == k,
        entry_for(cfgs, upto, k) >= -1,
    decreases upto,
{
    if upto > 0 && cfgs[upto - 1].account_id@ != k {
        lemma_entry_for(cfgs, upto - 1, k);
    }
}

/// In a tidy manager the index has an entry for a task exactly if some
/// account of the roster owns the task, and the entry names that account.
pub proof fn lemma_index_holds_exactly_the_feeds(manager: AccountManager, task: u64)
    requires
        manager.tidy(),
    ensures
        manager.routes().contains_key(task) <==> exists|k: Seq<char>|
            #[trigger] manager.account_infos.contains(k) && owns_task(
                manager.account_infos.lookup(k)->Some_0,
                task,
            ),
        forall|k: Seq<char>|
            #[trigger] manager.account_infos.contains(k) && owns_task(
                manager.account_infos.lookup(k)->Some_0,
                task,
            ) ==> manager.routes()[task] == k,
{
    if manager.routes().contains_key(task) {
        let k = manager.routes()[task];
        assert(manager.account_infos.contains(k) && owns_task(
            manager.account_infos.lookup(k)->Some_0,
            task,
        ));
    }
}

/// Storing a well-formed account under its own identifier keeps a roster
/// well formed.
pub proof fn lemma_insert_keeps_roster_wf(
    before: StrMap<AccountInfo>,
    after: StrMap<AccountInfo>,
    account: AccountInfo,
)
    requires
        roster_wf(before),
        account.wf(),
        after.wf(),
        before.contains(account.account_id@) ==> after.keys() == before.keys() && after.values()
            == before.values().update(before.position(account.account_id@), account),
        !before.contains(account.account_id@) ==> after.keys() == before.keys().push(
            account.account_id@,
        ) && after.values() == before.values().push(account),
    ensures
        roster_wf(after),
{
    let id = account.account_id@;
    assert forall|i: int| 0 <= i < after.keys().len() implies (#[trigger] after.values()[i]).wf()
        && after.values()[i].account_id@ == after.keys()[i] by {
        if before.contains(id) {
            before.keys().index_of_first_ensures(id);
            if i != before.position(id) {
                assert(before.values()[i].wf());
            }
        } else if i < before.keys().len() {
            assert(before.values()[i].wf());
        }
    }
}

} // verus!
