//! Hot reload: bringing the roster in line with a freshly loaded
//! configuration and saying which feeds to tear down and which to bring up.

use vstd::prelude::*;
use crate::account::AccountInfo;
use crate::config::{
    AccountFileConfig,
    ConfigError,
    entry_for,
    entry_venue,
    first_unknown,
    starts_as,
};
use crate::text::lowercase_of;
use crate::instrument::Venue;
use crate::registry::{
    AccountManager,
    entry_feeds,
    feeds_exclusive,
    feeds_overlap,
    feeds_free_for,
    lemma_insert_keeps_roster_wf,
    roster_wf,
    routes_with,
    routes_without,
    shares_feed,
};
use crate::strmap::StrMap;

verus! {

broadcast use vstd::std_specs::hash::group_hash_axioms;

/// Connectivity work that a reload leaves to its caller.
#[derive(Clone, Debug)]
pub enum ReloadAction {
    /// Bring up both feeds of the account now stored under `account_id`.
    Connect { account_id: String },
    /// Tear down both feeds of an account that has left the roster or was
    /// replaced.
    Disconnect { account_id: String, venue: Venue, orders_task_id: u64, bal_pos_task_id: u64 },
}

/// A `ReloadAction` with its text as a sequence.
pub enum ReloadStep {
    Connect { account_id: Seq<char> },
    Disconnect { account_id: Seq<char>, venue: Venue, orders_task_id: u64, bal_pos_task_id: u64 },
}

impl ReloadAction {
    /// The step that the action stands for.
    pub open spec fn view(&self) -> ReloadStep {
        match *self {
            ReloadAction::Connect { account_id } => ReloadStep::Connect { account_id: account_id@ },
            ReloadAction::Disconnect { account_id, venue, orders_task_id, bal_pos_task_id } => {
                ReloadStep::Disconnect {
                    account_id: account_id@,
                    venue,
                    orders_task_id,
                    bal_pos_task_id,
                }
            },
        }
    }
}

/// The steps that a list of actions stands for.
pub open spec fn steps_of(actions: Seq<ReloadAction>) -> Seq<ReloadStep> {
    Seq::new(actions.len(), |i: int| actions[i]@)
}

/// The teardown of `account`.
pub open spec fn disconnect_of(account: AccountInfo) -> ReloadStep {
    ReloadStep::Disconnect {
        account_id: account.account_id@,
        venue: account.venue,
        orders_task_id: account.account_orders_task_id,
        bal_pos_task_id: account.account_bal_pos_task_id,
    }
}

/// The account at position `j` of `fresh` is not on the roster `base`.
pub open spec fn is_added(base: StrMap<AccountInfo>, fresh: StrMap<AccountInfo>, j: int) -> bool {
    !base.contains(fresh.keys()[j])
}

/// The account at position `j` of `base` is not among `fresh`.
pub open spec fn is_removed(base: StrMap<AccountInfo>, fresh: StrMap<AccountInfo>, j: int) -> bool {
    !fresh.contains(base.keys()[j])
}

/// The account at position `j` of `fresh` is on the roster `base` under
/// other feed task identifiers.
pub open spec fn is_changed(base: StrMap<AccountInfo>, fresh: StrMap<AccountInfo>, j: int) -> bool {
    base.contains(fresh.keys()[j]) && fresh.values()[j].differs_from(
        &base.lookup(fresh.keys()[j])->Some_0,
    )
}

/// The index after the removed accounts among the first `upto` of `base`
/// were struck out.
pub open spec fn routes_removed(
    routes: Map<u64, Seq<char>>,
    base: StrMap<AccountInfo>,
    fresh: StrMap<AccountInfo>,
    upto: int,
) -> Map<u64, Seq<char>>
    decreases upto,
{
    if upto <= 0 {
        routes
    } else {
        let before = routes_removed(routes, base, fresh, upto - 1);
        if is_removed(base, fresh, upto - 1) {
            routes_without(
                before,
                base.values()[upto - 1].account_orders_task_id,
                base.values()[upto - 1].account_bal_pos_task_id,
            )
        } else {
            before
        }
    }
}

/// The index after the changed accounts among the first `upto` of `fresh`
/// gave up the routes they had.
pub open spec fn routes_struck(
    routes: Map<u64, Seq<char>>,
    base: StrMap<AccountInfo>,
    fresh: StrMap<AccountInfo>,
    upto: int,
) -> Map<u64, Seq<char>>
    decreases upto,
{
    if upto <= 0 {
        routes
    } else {
        let before = routes_struck(routes, base, fresh, upto - 1);
        if is_changed(base, fresh, upto - 1) {
            let previous = base.lookup(fresh.keys()[upto - 1])->Some_0;
            routes_without(
                before,
                previous.account_orders_task_id,
                previous.account_bal_pos_task_id,
            )
        } else {
            before
        }
    }
}

/// The index after the added and the changed accounts among the first `upto`
/// of `fresh` were entered.
pub open spec fn routes_entered(
    routes: Map<u64, Seq<char>>,
    base: StrMap<AccountInfo>,
    fresh: StrMap<AccountInfo>,
    upto: int,
) -> Map<u64, Seq<char>>
    decreases upto,
{
    if upto <= 0 {
        routes
    } else {
        let before = routes_entered(routes, base, fresh, upto - 1);
        if is_added(base, fresh, upto - 1) || is_changed(base, fresh, upto - 1) {
            routes_with(
                before,
                fresh.keys()[upto - 1],
                fresh.values()[upto - 1].account_orders_task_id,
                fresh.values()[upto - 1].account_bal_pos_task_id,
            )
        } else {
            before
        }
    }
}

/// The index after `fresh` was reloaded over `base`: first the removed
/// accounts and then the changed ones give up their routes, and only then
/// are the added and the changed accounts entered. So an account that takes
/// over a feed from one that leaves or moves keeps it.
pub open spec fn reloaded_routes(
    routes: Map<u64, Seq<char>>,
    base: StrMap<AccountInfo>,
    fresh: StrMap<AccountInfo>,
) -> Map<u64, Seq<char>> {
    routes_entered(
        routes_struck(
            routes_removed(routes, base, fresh, base.keys().len() as int),
            base,
            fresh,
            fresh.keys().len() as int,
        ),
        base,
        fresh,
        fresh.keys().len() as int,
    )
}

/// The connectivity work of reloading `fresh` over `base`: a connect for
/// each added account, then a teardown for each removed one, then a teardown
/// of the old feeds and a connect for each changed one.
pub open spec fn reloaded_steps(base: StrMap<AccountInfo>, fresh: StrMap<AccountInfo>) -> Seq<
    ReloadStep,
> {
    steps_added(base, fresh, fresh.keys().len() as int) + steps_removed(
        base,
        fresh,
        base.keys().len() as int,
    ) + steps_changed(base, fresh, fresh.keys().len() as int)
}

/// One connect for each added account among the first `upto` of `fresh`.
pub open spec fn steps_added(base: StrMap<AccountInfo>, fresh: StrMap<AccountInfo>, upto: int) -> Seq<
    ReloadStep,
>
    decreases upto,
{
    if upto <= 0 {
        Seq::empty()
    } else {
        let before = steps_added(base, fresh, upto - 1);
        if is_added(base, fresh, upto - 1) {
            before.push(ReloadStep::Connect { account_id: fresh.keys()[upto - 1] })
        } else {
            before
        }
    }
}

/// One teardown for each removed account among the first `upto` of `base`.
pub open spec fn steps_removed(base: StrMap<AccountInfo>, fresh: StrMap<AccountInfo>, upto: int) -> Seq<
    ReloadStep,
>
    decreases upto,
{
    if upto <= 0 {
        Seq::empty()
    } else {
        let before = steps_removed(base, fresh, upto - 1);
        if is_removed(base, fresh, upto - 1) {
            before.push(disconnect_of(base.values()[upto - 1]))
        } else {
            before
        }
    }
}

/// A teardown of the old feeds followed by a connect, for each changed
/// account among the first `upto` of `fresh`.
pub open spec fn steps_changed(base: StrMap<AccountInfo>, fresh: StrMap<AccountInfo>, upto: int) -> Seq<
    ReloadStep,
>
    decreases upto,
{
    if upto <= 0 {
        Seq::empty()
    } else {
        let before = steps_changed(base, fresh, upto - 1);
        if is_changed(base, fresh, upto - 1) {
            before.push(disconnect_of(base.lookup(fresh.keys()[upto - 1])->Some_0)).push(
                ReloadStep::Connect { account_id: fresh.keys()[upto - 1] },
            )
        } else {
            before
        }
    }
}

/// The account stored under `k` once `fresh` has been reloaded over `base`:
/// none where `fresh` has none, the fresh one where it is added or changed,
/// and the one that was there otherwise.
pub open spec fn reloaded_account(base: StrMap<AccountInfo>, fresh: StrMap<AccountInfo>, k: Seq<char>) -> Option<
    AccountInfo,
> {
    if !fresh.contains(k) {
        None
    } else if !base.contains(k) {
        fresh.lookup(k)
    } else if fresh.lookup(k)->Some_0.differs_from(&base.lookup(k)->Some_0) {
        fresh.lookup(k)
    } else {
        base.lookup(k)
    }
}

/// The identifiers of the first `upto` roster entries, each once, in the
/// order of their first occurrence.
pub open spec fn roster_ids(cfgs: Seq<AccountFileConfig>, upto: int) -> Seq<Seq<char>>
    decreases upto,
{
    if upto <= 0 {
        Seq::empty()
    } else {
        let before = roster_ids(cfgs, upto - 1);
        if before.contains(cfgs[upto - 1].account_id@) {
            before
        } else {
            before.push(cfgs[upto - 1].account_id@)
        }
    }
}

/// `roster` holds, for each identifier among the first `upto` entries, a
/// fresh account for the last entry with that identifier.
pub open spec fn is_roster_upto(
    roster: StrMap<AccountInfo>,
    cfgs: Seq<AccountFileConfig>,
    upto: int,
) -> bool {
    &&& roster_wf(roster)
    &&& roster.keys() == roster_ids(cfgs, upto)
    &&& forall|k: Seq<char>| #[trigger]
        roster.contains(k) ==> {
            let t = entry_for(cfgs, upto, k);
            &&& 0 <= t < upto
            &&& cfgs[t].account_id@ == k
            &&& entry_venue(cfgs[t]) is Some
            &&& starts_as(roster.lookup(k)->Some_0, cfgs[t], entry_venue(cfgs[t])->Some_0)
        }
}

/// `roster` is what the roster entries `cfgs` describe.
pub open spec fn is_roster_of(roster: StrMap<AccountInfo>, cfgs: Seq<AccountFileConfig>) -> bool {
    is_roster_upto(roster, cfgs, cfgs.len() as int)
}

/// Builds the accounts that a list of roster entries describes. Of several
/// entries with one identifier the last counts. The first entry that names
/// no known venue is an error.
pub fn build_roster(cfgs: &Vec<AccountFileConfig>) -> (r: Result<StrMap<AccountInfo>, ConfigError>)
    ensures
        match r {
            Ok(roster) => first_unknown(cfgs@, 0) == cfgs@.len() && is_roster_of(roster, cfgs@),
            Err(e) => first_unknown(cfgs@, 0) < cfgs@.len() && e->UnknownExchange_0@
                == lowercase_of(cfgs@[first_unknown(cfgs@, 0)].exchange@),
        },
{
    let mut roster: StrMap<AccountInfo> = StrMap::new();
    let mut i: usize = 0;
    assert(roster.keys() =~= roster_ids(cfgs@, 0));
    while i < cfgs.len()
        invariant
            i <= cfgs@.len(),
            is_roster_upto(roster, cfgs@, i as int),
            first_unknown(cfgs@, 0) == first_unknown(cfgs@, i as int),
        decreases cfgs@.len() - i,
    {
        let cfg = &cfgs[i];
        match AccountInfo::from_config(cfg) {
            Err(e) => {
                return Err(e);
            },
            Ok(entered) => {
                let ghost before = roster;
                let ghost id = cfg.account_id@;
                let ghost account = entered;
                roster.insert(cfg.account_id.clone(), entered);
                proof {
                    lemma_insert_keeps_roster_wf(before, roster, account);
                    assert forall|k: Seq<char>| #[trigger] roster.contains(k) implies {
                        let t = entry_for(cfgs@, i + 1, k);
                        &&& 0 <= t < i + 1
                        &&& cfgs@[t].account_id@ == k
                        &&& entry_venue(cfgs@[t]) is Some
                        &&& starts_as(
                            roster.lookup(k)->Some_0,
                            cfgs@[t],
                            entry_venue(cfgs@[t])->Some_0,
                        )
                    } by {
                        if k != id {
                            assert(roster.lookup(k) == before.lookup(k));
                            assert(before.contains(k));
                        }
                    }
                }
            },
        }
        i = i + 1;
    }
    Ok(roster)
}

/// Every account of `current` is named by `fresh` with the same feed task
/// identifiers.
pub open spec fn agrees_with(current: StrMap<AccountInfo>, fresh: StrMap<AccountInfo>) -> bool {
    forall|k: Seq<char>| #[trigger]
        current.contains(k) ==> fresh.contains(k) && !feeds_differ(
            current.lookup(k)->Some_0,
            fresh.lookup(k)->Some_0,
        )
}

/// Whether one of the two feed task identifiers of `a` differs from that of
/// `b`.
pub open spec fn feeds_differ(a: AccountInfo, b: AccountInfo) -> bool {
    ||| a.account_orders_task_id != b.account_orders_task_id
    ||| a.account_bal_pos_task_id != b.account_bal_pos_task_id
}

/// An account of `fresh` has no feed in common with any account that a
/// roster in agreement with `fresh` holds under another identifier.
proof fn lemma_fresh_account_is_free(
    current: StrMap<AccountInfo>,
    fresh: StrMap<AccountInfo>,
    j: int,
)
    requires
        roster_wf(fresh),
        0 <= j < fresh.keys().len(),
        feeds_exclusive(fresh),
        agrees_with(current, fresh),
    ensures
        feeds_free_for(current, fresh.values()[j]),
{
    fresh.lemma_position(j);
    let id = fresh.keys()[j];
    let account = fresh.values()[j];
    assert forall|k: Seq<char>| #[trigger]
        current.contains(k) && k != account.account_id@ implies !shares_feed(
        account,
        current.lookup(k)->Some_0,
    ) by {
        assert(fresh.contains(k));
        assert(!shares_feed(fresh.lookup(k)->Some_0, fresh.lookup(id)->Some_0));
    }
}

/// An account that stands in for one that was moved elsewhere.
fn placeholder() -> (a: AccountInfo)
    ensures
        a.wf(),
        a.account_id@ == Seq::<char>::empty(),
        a.venue == Venue::BinanceCm,
        a.acc_weights@ == Map::<Seq<char>, i64>::empty(),
        a.inst_mark_price@ == Map::<Seq<char>, i64>::empty(),
        a.total_equity == 0,
        a.account_orders_task_id == 0,
        a.account_bal_pos_task_id == 0,
{
    AccountInfo::new(String::new(), Venue::BinanceCm, 0, 0)
}

impl AccountManager {
    /// Takes every account of `base_ids` that `roster` does not name off the
    /// roster, striking out its routes before its teardown is listed.
    fn drop_removed(
        &mut self,
        base_ids: &Vec<String>,
        roster: &StrMap<AccountInfo>,
        Ghost(base): Ghost<StrMap<AccountInfo>>,
        Ghost(fresh): Ghost<StrMap<AccountInfo>>,
    ) -> (actions: Vec<ReloadAction>)
        requires
            old(self).wf(),
            roster_wf(base),
            fresh.wf(),
            roster.wf(),
            roster.keys() == fresh.keys(),
            base_ids@.len() == base.keys().len(),
            forall|i: int| 0 <= i < base_ids@.len() ==> (#[trigger] base_ids@[i])@ == base.keys()[i],
            forall|k: Seq<char>|
                base.contains(k) ==> old(self).account_infos.lookup(k) == base.lookup(k),
        ensures
            final(self).wf(),
            forall|k: Seq<char>|
                final(self).account_infos.lookup(k) == if base.contains(k) && !fresh.contains(k) {
                    None
                } else {
                    old(self).account_infos.lookup(k)
                },
            final(self).routes() == routes_removed(
                old(self).routes(),
                base,
                fresh,
                base.keys().len() as int,
            ),
            steps_of(actions@) == steps_removed(base, fresh, base.keys().len() as int),
            old(self).tidy() ==> final(self).tidy(),
            final(self).instrument_infos == old(self).instrument_infos,
            final(self).config == old(self).config,
            final(self).target_weights == old(self).target_weights,
    {
        let mut actions: Vec<ReloadAction> = Vec::new();
        let n: usize = base_ids.len();
        let mut j: usize = 0;
        while j < n
            invariant
                j <= n,
                n == base.keys().len(),
                base_ids@.len() == n,
                forall|i: int| 0 <= i < n ==> (#[trigger] base_ids@[i])@ == base.keys()[i],
                self.wf(),
                roster_wf(base),
                fresh.wf(),
                roster.wf(),
                roster.keys() == fresh.keys(),
                forall|k: Seq<char>|
                    self.account_infos.lookup(k) == if base.contains(k) && !fresh.contains(k)
                        && base.position(k) < j {
                        None
                    } else {
                        old(self).account_infos.lookup(k)
                    },
                forall|k: Seq<char>|
                    base.contains(k) ==> old(self).account_infos.lookup(k) == base.lookup(k),
                self.routes() == routes_removed(old(self).routes(), base, fresh, j as int),
                steps_of(actions@) == steps_removed(base, fresh, j as int),
                old(self).tidy() ==> self.tidy(),
                self.instrument_infos == old(self).instrument_infos,
                self.config == old(self).config,
                self.target_weights == old(self).target_weights,
            decreases n - j,
        {
            proof {
                base.lemma_position(j as int);
            }
            let ghost id = base.keys()[j as int];
            let account_id: &String = &base_ids[j];
            let kept = roster.contains_key(account_id);
            assert(kept == fresh.contains(id));
            if !kept {
                let ghost before = self.account_infos;
                assert(before.lookup(id) == base.lookup(id));
                match self.remove_account(account_id) {
                    Some(account) => {
                        assert(account == base.values()[j as int]);
                        let ghost before_actions = actions@;
                        actions.push(
                            ReloadAction::Disconnect {
                                account_id: account_id.clone(),
                                venue: account.venue,
                                orders_task_id: account.account_orders_task_id,
                                bal_pos_task_id: account.account_bal_pos_task_id,
                            },
                        );
                        assert(steps_of(actions@) =~= steps_of(before_actions).push(
                            disconnect_of(base.values()[j as int]),
                        ));
                    },
                    None => {},
                }
                proof {
                    assert forall|k: Seq<char>|
                        self.account_infos.lookup(k) == if base.contains(k) && !fresh.contains(k)
                            && base.position(k) < j + 1 {
                            None
                        } else {
                            old(self).account_infos.lookup(k)
                        } by {
                        if k != id {
                            assert(self.account_infos.lookup(k) == before.lookup(k));
                            if base.contains(k) {
                                base.keys().index_of_first_ensures(k);
                            }
                        }
                    }
                }
            } else {
                proof {
                    assert forall|k: Seq<char>|
                        self.account_infos.lookup(k) == if base.contains(k) && !fresh.contains(k)
                            && base.position(k) < j + 1 {
                            None
                        } else {
                            old(self).account_infos.lookup(k)
                        } by {
                        if base.contains(k) {
                            base.keys().index_of_first_ensures(k);
                        }
                    }
                }
            }
            j = j + 1;
        }
        proof {
            assert forall|k: Seq<char>|
                self.account_infos.lookup(k) == if base.contains(k) && !fresh.contains(k) {
                    None
                } else {
                    old(self).account_infos.lookup(k)
                } by {
                if base.contains(k) {
                    base.keys().index_of_first_ensures(k);
                }
            }
        }
        actions
    }

    /// Takes every account that `roster` names under other feed task
    /// identifiers off the roster and strikes out the routes it had, so that
    /// the account can be entered afresh. Says for each position of `roster`
    /// whether that was done, and lists teardown and connect for it.
    fn strike_changed(
        &mut self,
        roster: &StrMap<AccountInfo>,
        Ghost(base): Ghost<StrMap<AccountInfo>>,
    ) -> (r: (Vec<bool>, Vec<ReloadAction>))
        requires
            old(self).wf(),
            roster_wf(base),
            roster_wf(*roster),
            forall|k: Seq<char>|
                base.contains(k) && roster.contains(k) ==> old(self).account_infos.lookup(k)
                    == base.lookup(k),
            forall|k: Seq<char>|
                !base.contains(k) ==> old(self).account_infos.lookup(k).is_none(),
        ensures
            final(self).wf(),
            r.0@.len() == roster.keys().len(),
            forall|j: int|
                0 <= j < r.0@.len() ==> #[trigger] r.0@[j] == is_changed(base, *roster, j),
            forall|k: Seq<char>|
                final(self).account_infos.lookup(k) == if base.contains(k) && roster.contains(k)
                    && roster.lookup(k)->Some_0.differs_from(&base.lookup(k)->Some_0) {
                    None
                } else {
                    old(self).account_infos.lookup(k)
                },
            final(self).routes() == routes_struck(
                old(self).routes(),
                base,
                *roster,
                roster.keys().len() as int,
            ),
            steps_of(r.1@) == steps_changed(base, *roster, roster.keys().len() as int),
            old(self).tidy() ==> final(self).tidy(),
            final(self).instrument_infos == old(self).instrument_infos,
            final(self).config == old(self).config,
            final(self).target_weights == old(self).target_weights,
    {
        let ghost fresh = *roster;
        let mut changed: Vec<bool> = Vec::new();
        let mut actions: Vec<ReloadAction> = Vec::new();
        let n: usize = roster.len();
        let mut j: usize = 0;
        while j < n
            invariant
                j <= n,
                n == fresh.keys().len(),
                fresh == *roster,
                self.wf(),
                roster_wf(base),
                roster_wf(fresh),
                changed@.len() == j,
                forall|t: int| 0 <= t < j ==> #[trigger] changed@[t] == is_changed(base, fresh, t),
                forall|k: Seq<char>|
                    base.contains(k) && fresh.contains(k) ==> old(self).account_infos.lookup(k)
                        == base.lookup(k),
                forall|k: Seq<char>|
                    !base.contains(k) ==> old(self).account_infos.lookup(k).is_none(),
                forall|k: Seq<char>|
                    self.account_infos.lookup(k) == if base.contains(k) && fresh.contains(k)
                        && fresh.position(k) < j && fresh.lookup(k)->Some_0.differs_from(
                        &base.lookup(k)->Some_0,
                    ) {
                        None
                    } else {
                        old(self).account_infos.lookup(k)
                    },
                self.routes() == routes_struck(old(self).routes(), base, fresh, j as int),
                steps_of(actions@) == steps_changed(base, fresh, j as int),
                old(self).tidy() ==> self.tidy(),
                self.instrument_infos == old(self).instrument_infos,
                self.config == old(self).config,
                self.target_weights == old(self).target_weights,
            decreases n - j,
        {
            proof {
                fresh.lemma_position(j as int);
            }
            let ghost id = fresh.keys()[j as int];
            let ghost before = self.account_infos;
            let account_id: &String = roster.key_at(j);
            let mut struck = false;
            match self.account_infos.find(account_id) {
                Some(i) => {
                    let current = self.account_infos.value_at(i);
                    assert(base.contains(id));
                    assert(*current == base.lookup(id)->Some_0);
                    if roster.value_at(j).config_changed(current) {
                        match self.remove_account(account_id) {
                            Some(previous) => {
                                let ghost before_actions = actions@;
                                actions.push(
                                    ReloadAction::Disconnect {
                                        account_id: account_id.clone(),
                                        venue: previous.venue,
                                        orders_task_id: previous.account_orders_task_id,
                                        bal_pos_task_id: previous.account_bal_pos_task_id,
                                    },
                                );
                                actions.push(
                                    ReloadAction::Connect { account_id: account_id.clone() },
                                );
                                assert(steps_of(actions@) =~= steps_of(before_actions).push(
                                    disconnect_of(base.lookup(id)->Some_0),
                                ).push(ReloadStep::Connect { account_id: id }));
                                struck = true;
                            },
                            None => {},
                        }
                    }
                },
                None => {
                    assert(!base.contains(id));
                },
            }
            changed.push(struck);
            proof {
                assert(struck == is_changed(base, fresh, j as int));
                assert forall|k: Seq<char>|
                    self.account_infos.lookup(k) == if base.contains(k) && fresh.contains(k)
                        && fresh.position(k) < j + 1 && fresh.lookup(k)->Some_0.differs_from(
                        &base.lookup(k)->Some_0,
                    ) {
                        None
                    } else {
                        old(self).account_infos.lookup(k)
                    } by {
                    if k != id {
                        assert(self.account_infos.lookup(k) == before.lookup(k));
                        if fresh.contains(k) {
                            fresh.keys().index_of_first_ensures(k);
                        }
                    }
                }
            }
            j = j + 1;
        }
        proof {
            assert forall|k: Seq<char>|
                self.account_infos.lookup(k) == if base.contains(k) && fresh.contains(k)
                    && fresh.lookup(k)->Some_0.differs_from(&base.lookup(k)->Some_0) {
                    None
                } else {
                    old(self).account_infos.lookup(k)
                } by {
                if fresh.contains(k) {
                    fresh.keys().index_of_first_ensures(k);
                }
            }
        }
        (changed, actions)
    }

    /// Enters every account of `roster` that is not on the roster: the added
    /// accounts and the changed ones, which were taken off before. Lists a
    /// connect for each added account.
    fn enter_fresh(
        &mut self,
        roster: StrMap<AccountInfo>,
        changed: &Vec<bool>,
        Ghost(base): Ghost<StrMap<AccountInfo>>,
    ) -> (actions: Vec<ReloadAction>)
        requires
            old(self).wf(),
            roster_wf(base),
            roster_wf(roster),
            changed@.len() == roster.keys().len(),
            forall|j: int|
                0 <= j < changed@.len() ==> #[trigger] changed@[j] == is_changed(base, roster, j),
            forall|j: int|
                0 <= j < roster.keys().len() ==> (old(self).account_infos.contains(
                    #[trigger] roster.keys()[j],
                ) <==> !is_added(base, roster, j) && !is_changed(base, roster, j)),
        ensures
            final(self).wf(),
            forall|k: Seq<char>|
                final(self).account_infos.lookup(k) == if roster.contains(k) && !old(
                    self,
                ).account_infos.contains(k) {
                    roster.lookup(k)
                } else {
                    old(self).account_infos.lookup(k)
                },
            final(self).routes() == routes_entered(
                old(self).routes(),
                base,
                roster,
                roster.keys().len() as int,
            ),
            steps_of(actions@) == steps_added(base, roster, roster.keys().len() as int),
            old(self).tidy() && feeds_exclusive(roster) && agrees_with(
                old(self).account_infos,
                roster,
            ) ==> final(self).tidy(),
            final(self).instrument_infos == old(self).instrument_infos,
            final(self).config == old(self).config,
            final(self).target_weights == old(self).target_weights,
    {
        let ghost fresh = roster;
        let ghost start = self.account_infos;
        let mut roster = roster;
        let mut actions: Vec<ReloadAction> = Vec::new();
        let n: usize = roster.len();
        let mut j: usize = 0;
        while j < n
            invariant
                j <= n,
                n == fresh.keys().len(),
                changed@.len() == n,
                self.wf(),
                start == old(self).account_infos,
                roster_wf(base),
                roster_wf(fresh),
                roster.wf(),
                roster.keys() == fresh.keys(),
                forall|t: int| 0 <= t < n ==> #[trigger] changed@[t] == is_changed(base, fresh, t),
                forall|t: int|
                    0 <= t < n ==> (start.contains(#[trigger] fresh.keys()[t]) <==> !is_added(
                        base,
                        fresh,
                        t,
                    ) && !is_changed(base, fresh, t)),
                forall|t: int| j <= t < n ==> #[trigger] roster.values()[t] == fresh.values()[t],
                forall|k: Seq<char>|
                    self.account_infos.lookup(k) == if fresh.contains(k) && !start.contains(k)
                        && fresh.position(k) < j {
                        fresh.lookup(k)
                    } else {
                        start.lookup(k)
                    },
                self.routes() == routes_entered(old(self).routes(), base, fresh, j as int),
                steps_of(actions@) == steps_added(base, fresh, j as int),
                old(self).tidy() && feeds_exclusive(fresh) && agrees_with(start, fresh)
                    ==> self.tidy(),
                self.instrument_infos == old(self).instrument_infos,
                self.config == old(self).config,
                self.target_weights == old(self).target_weights,
            decreases n - j,
        {
            proof {
                fresh.lemma_position(j as int);
            }
            let ghost id = fresh.keys()[j as int];
            let present = self.account_infos.contains_key(roster.key_at(j));
            assert(present == start.contains(id));
            if !present {
                let account_id = roster.key_at(j).clone();
                let account = roster.replace_at(j, placeholder());
                assert(account == fresh.values()[j as int]);
                if !changed[j] {
                    let ghost before_actions = actions@;
                    actions.push(ReloadAction::Connect { account_id });
                    assert(steps_of(actions@) =~= steps_of(before_actions).push(
                        ReloadStep::Connect { account_id: id },
                    ));
                }
                let ghost before = self.account_infos;
                proof {
                    if old(self).tidy() && feeds_exclusive(fresh) && agrees_with(start, fresh) {
                        assert(agrees_with(before, fresh)) by {
                            assert forall|k: Seq<char>| #[trigger]
                                before.contains(k) implies fresh.contains(k) && !feeds_differ(
                                before.lookup(k)->Some_0,
                                fresh.lookup(k)->Some_0,
                            ) by {
                                if before.lookup(k) == start.lookup(k) {
                                    assert(start.contains(k));
                                }
                            }
                        }
                        lemma_fresh_account_is_free(before, fresh, j as int);
                    }
                }
                self.add_account(account);
                proof {
                    assert forall|k: Seq<char>|
                        self.account_infos.lookup(k) == if fresh.contains(k) && !start.contains(k)
                            && fresh.position(k) < j + 1 {
                            fresh.lookup(k)
                        } else {
                            start.lookup(k)
                        } by {
                        if k != id {
                            assert(self.account_infos.lookup(k) == before.lookup(k));
                            if fresh.contains(k) {
                                fresh.keys().index_of_first_ensures(k);
                            }
                        }
                    }
                }
            } else {
                proof {
                    assert forall|k: Seq<char>|
                        self.account_infos.lookup(k) == if fresh.contains(k) && !start.contains(k)
                            && fresh.position(k) < j + 1 {
                            fresh.lookup(k)
                        } else {
                            start.lookup(k)
                        } by {
                        if fresh.contains(k) {
                            fresh.keys().index_of_first_ensures(k);
                        }
                    }
                }
            }
            j = j + 1;
        }
        proof {
            assert forall|k: Seq<char>|
                self.account_infos.lookup(k) == if fresh.contains(k) && !start.contains(k) {
                    fresh.lookup(k)
                } else {
                    start.lookup(k)
                } by {
                if fresh.contains(k) {
                    fresh.keys().index_of_first_ensures(k);
                }
            }
        }
        actions
    }

    /// Brings the roster in line with `roster`. Accounts that `roster` no
    /// longer names are taken off, accounts whose feed task identifiers differ
    /// are replaced, and accounts that are new are entered; all other accounts
    /// stay as they are, weights included. Routes are struck out before any
    /// are entered, and the index is final before the connectivity work is
    /// handed back: by then every entry names an account of `roster`, so no
    /// event can reach an account that is being torn down. Where no two
    /// accounts of `roster` claim one feed, the index ends up holding exactly
    /// the feeds of the accounts on the roster.
    pub fn reload_roster(&mut self, roster: StrMap<AccountInfo>) -> (actions: Vec<ReloadAction>)
        requires
            old(self).wf(),
            roster_wf(roster),
        ensures
            final(self).wf(),
            forall|k: Seq<char>|
                final(self).account_infos.lookup(k) == reloaded_account(
                    old(self).account_infos,
                    roster,
                    k,
                ),
            final(self).routes() == reloaded_routes(
                old(self).routes(),
                old(self).account_infos,
                roster,
            ),
            steps_of(actions@) == reloaded_steps(old(self).account_infos, roster),
            forall|task: u64| #[trigger]
                final(self).routes().contains_key(task) ==> roster.contains(
                    final(self).routes()[task],
                ),
            old(self).tidy() && feeds_exclusive(roster) ==> final(self).tidy(),
            final(self).instrument_infos == old(self).instrument_infos,
            final(self).config == old(self).config,
            final(self).target_weights == old(self).target_weights,
    {
        let ghost base = self.account_infos;
        let ghost fresh = roster;
        let base_ids = self.account_infos.key_list();
        let mut removed = self.drop_removed(&base_ids, &roster, Ghost(base), Ghost(fresh));
        let (flags, mut changed) = self.strike_changed(&roster, Ghost(base));
        let ghost struck = self.account_infos;
        proof {
            assert forall|j: int| 0 <= j < fresh.keys().len() implies (struck.contains(
                #[trigger] fresh.keys()[j],
            ) <==> !is_added(base, fresh, j) && !is_changed(base, fresh, j)) by {
                fresh.lemma_position(j);
            }
            assert(agrees_with(struck, fresh)) by {
                assert forall|k: Seq<char>| #[trigger] struck.contains(k) implies fresh.contains(k)
                    && !feeds_differ(struck.lookup(k)->Some_0, fresh.lookup(k)->Some_0) by {
                    assert(struck.lookup(k) == base.lookup(k));
                }
            }
        }
        let mut actions = self.enter_fresh(roster, &flags, Ghost(base));
        let ghost first = actions@;
        let ghost second = removed@;
        let ghost third = changed@;
        actions.append(&mut removed);
        actions.append(&mut changed);
        proof {
            assert(actions@ =~= first + second + third);
            assert(steps_of(actions@) =~= steps_of(first) + steps_of(second) + steps_of(third));
            assert forall|task: u64| #[trigger]
                self.routes().contains_key(task) implies fresh.contains(self.routes()[task]) by {
                let k = self.routes()[task];
                assert(self.account_infos.contains(k));
            }
        }
        actions
    }

    /// Reloads the roster from a freshly loaded configuration. An entry that
    /// names no known venue fails the reload before anything is changed.
    /// Otherwise the accounts that the entries describe are reloaded over the
    /// roster as `reload_roster` says.
    pub fn reload_accounts(&mut self, new_cfgs: &Vec<AccountFileConfig>) -> (r: Result<
        Vec<ReloadAction>,
        ConfigError,
    >)
        requires
            old(self).wf(),
        ensures
            final(self).wf(),
            match r {
                Err(e) => {
                    &&& first_unknown(new_cfgs@, 0) < new_cfgs@.len()
                    &&& e->UnknownExchange_0@ == lowercase_of(
                        new_cfgs@[first_unknown(new_cfgs@, 0)].exchange@,
                    )
                    &&& *final(self) == *old(self)
                },
                Ok(actions) => {
                    &&& first_unknown(new_cfgs@, 0) == new_cfgs@.len()
                    &&& exists|roster: StrMap<AccountInfo>|
                        {
                            &&& #[trigger] is_roster_of(roster, new_cfgs@)
                            &&& forall|k: Seq<char>|
                                final(self).account_infos.lookup(k) == reloaded_account(
                                    old(self).account_infos,
                                    roster,
                                    k,
                                )
                            &&& final(self).routes() == reloaded_routes(
                                old(self).routes(),
                                old(self).account_infos,
                                roster,
                            )
                            &&& steps_of(actions@) == reloaded_steps(
                                old(self).account_infos,
                                roster,
                            )
                            &&& forall|task: u64| #[trigger]
                                final(self).routes().contains_key(task) ==> roster.contains(
                                    final(self).routes()[task],
                                )
                            &&& old(self).tidy() && feeds_exclusive(roster) ==> final(self).tidy()
                        }
                },
            },
            final(self).instrument_infos == old(self).instrument_infos,
            final(self).config == old(self).config,
            final(self).target_weights == old(self).target_weights,
    {
        match build_roster(new_cfgs) {
            Err(e) => Err(e),
            Ok(roster) => {
                let ghost fresh = roster;
                let actions = self.reload_roster(roster);
                assert(is_roster_of(fresh, new_cfgs@));
                Ok(actions)
            },
        }
    }
}

/// Every account of `fresh` other than the one at position `skip` is on the
/// roster `base` under the same feed task identifiers.
pub open spec fn carried_over(base: StrMap<AccountInfo>, fresh: StrMap<AccountInfo>, skip: int) -> bool {
    forall|j: int|
        0 <= j < fresh.keys().len() && j != skip ==> !is_added(base, fresh, j) && !#[trigger] is_changed(
            base,
            fresh,
            j,
        )
}

/// Every account of `base` other than the one at position `skip` is among
/// `fresh`.
pub open spec fn all_kept(base: StrMap<AccountInfo>, fresh: StrMap<AccountInfo>, skip: int) -> bool {
    forall|j: int| 0 <= j < base.keys().len() && j != skip ==> !#[trigger] is_removed(base, fresh, j)
}

proof fn lemma_entered_upto(
    routes: Map<u64, Seq<char>>,
    base: StrMap<AccountInfo>,
    fresh: StrMap<AccountInfo>,
    p: int,
    upto: int,
)
    requires
        0 <= upto <= fresh.keys().len(),
        forall|j: int| 0 <= j < fresh.keys().len() ==> !#[trigger] is_changed(base, fresh, j),
        forall|j: int| 0 <= j < fresh.keys().len() && j != p ==> !#[trigger] is_added(base, fresh, j),
        0 <= p < fresh.keys().len() ==> is_added(base, fresh, p),
    ensures
        !(0 <= p < upto) ==> routes_entered(routes, base, fresh, upto) == routes && steps_added(
            base,
            fresh,
            upto,
        ) == Seq::<ReloadStep>::empty(),
        0 <= p < upto ==> routes_entered(routes, base, fresh, upto) == routes_with(
            routes,
            fresh.keys()[p],
            fresh.values()[p].account_orders_task_id,
            fresh.values()[p].account_bal_pos_task_id,
        ) && steps_added(base, fresh, upto) == seq![
            ReloadStep::Connect { account_id: fresh.keys()[p] },
        ],
    decreases upto,
{
    if upto > 0 {
        lemma_entered_upto(routes, base, fresh, p, upto - 1);
        assert(!is_changed(base, fresh, upto - 1));
        if upto - 1 == p {
            assert(Seq::<ReloadStep>::empty().push(
                ReloadStep::Connect { account_id: fresh.keys()[p] },
            ) =~= seq![ReloadStep::Connect { account_id: fresh.keys()[p] }]);
        } else {
            assert(!is_added(base, fresh, upto - 1));
        }
    }
}

proof fn lemma_removed_upto(
    routes: Map<u64, Seq<char>>,
    base: StrMap<AccountInfo>,
    fresh: StrMap<AccountInfo>,
    p: int,
    upto: int,
)
    requires
        0 <= upto <= base.keys().len(),
        all_kept(base, fresh, p),
        0 <= p < base.keys().len() ==> is_removed(base, fresh, p),
    ensures
        !(0 <= p < upto) ==> routes_removed(routes, base, fresh, upto) == routes && steps_removed(
            base,
            fresh,
            upto,
        ) == Seq::<ReloadStep>::empty(),
        0 <= p < upto ==> routes_removed(routes, base, fresh, upto) == routes_without(
            routes,
            base.values()[p].account_orders_task_id,
            base.values()[p].account_bal_pos_task_id,
        ) && steps_removed(base, fresh, upto) == seq![disconnect_of(base.values()[p])],
    decreases upto,
{
    if upto > 0 {
        lemma_removed_upto(routes, base, fresh, p, upto - 1);
        if upto - 1 == p {
            assert(Seq::<ReloadStep>::empty().push(disconnect_of(base.values()[p])) =~= seq![
                disconnect_of(base.values()[p]),
            ]);
        } else {
            assert(!is_removed(base, fresh, upto - 1));
        }
    }
}

proof fn lemma_none_struck(
    routes: Map<u64, Seq<char>>,
    base: StrMap<AccountInfo>,
    fresh: StrMap<AccountInfo>,
    upto: int,
)
    requires
        0 <= upto <= fresh.keys().len(),
        forall|j: int| 0 <= j < fresh.keys().len() ==> !#[trigger] is_changed(base, fresh, j),
    ensures
        routes_struck(routes, base, fresh, upto) == routes,
        steps_changed(base, fresh, upto) == Seq::<ReloadStep>::empty(),
    decreases upto,
{
    if upto > 0 {
        lemma_none_struck(routes, base, fresh, upto - 1);
        assert(!is_changed(base, fresh, upto - 1));
    }
}

/// A reload whose only news is one account that was not on the roster
/// enters exactly that account's two routes and asks for exactly one connect,
/// for that account.
pub proof fn lemma_reload_of_one_added(
    routes: Map<u64, Seq<char>>,
    base: StrMap<AccountInfo>,
    fresh: StrMap<AccountInfo>,
    p: int,
)
    requires
        0 <= p < fresh.keys().len(),
        is_added(base, fresh, p),
        carried_over(base, fresh, p),
        all_kept(base, fresh, -1),
    ensures
        reloaded_routes(routes, base, fresh) == routes_with(
            routes,
            fresh.keys()[p],
            fresh.values()[p].account_orders_task_id,
            fresh.values()[p].account_bal_pos_task_id,
        ),
        reloaded_steps(base, fresh) == seq![ReloadStep::Connect { account_id: fresh.keys()[p] }],
{
    let n = fresh.keys().len() as int;
    let m = base.keys().len() as int;
    assert forall|j: int| 0 <= j < n && j != p implies !#[trigger] is_added(base, fresh, j) by {
        assert(!is_changed(base, fresh, j));
    }
    assert forall|j: int| 0 <= j < n implies !#[trigger] is_changed(base, fresh, j) by {}
    lemma_removed_upto(routes, base, fresh, -1, m);
    lemma_none_struck(routes, base, fresh, n);
    lemma_entered_upto(routes, base, fresh, p, n);
    assert(reloaded_steps(base, fresh) =~= seq![
        ReloadStep::Connect { account_id: fresh.keys()[p] },
    ]);
}

/// A reload whose only news is that one account has left the roster strikes
/// out exactly that account's two routes and asks for exactly one teardown,
/// of that account's feeds.
pub proof fn lemma_reload_of_one_removed(
    routes: Map<u64, Seq<char>>,
    base: StrMap<AccountInfo>,
    fresh: StrMap<AccountInfo>,
    p: int,
)
    requires
        0 <= p < base.keys().len(),
        is_removed(base, fresh, p),
        all_kept(base, fresh, p),
        carried_over(base, fresh, -1),
    ensures
        reloaded_routes(routes, base, fresh) == routes_without(
            routes,
            base.values()[p].account_orders_task_id,
            base.values()[p].account_bal_pos_task_id,
        ),
        reloaded_steps(base, fresh) == seq![disconnect_of(base.values()[p])],
{
    let n = fresh.keys().len() as int;
    let m = base.keys().len() as int;
    assert forall|j: int| 0 <= j < n implies !#[trigger] is_added(base, fresh, j) by {
        assert(!is_changed(base, fresh, j));
    }
    assert forall|j: int| 0 <= j < n implies !#[trigger] is_changed(base, fresh, j) by {}
    lemma_removed_upto(routes, base, fresh, p, m);
    let r1 = routes_removed(routes, base, fresh, m);
    lemma_none_struck(r1, base, fresh, n);
    lemma_entered_upto(r1, base, fresh, -1, n);
    assert(reloaded_steps(base, fresh) =~= seq![disconnect_of(base.values()[p])]);
}

/// Whatever else a reload changes, every account that leaves the roster has
/// its teardown among the steps and is no longer on the roster afterwards.
pub proof fn lemma_removed_account_is_torn_down(
    base: StrMap<AccountInfo>,
    fresh: StrMap<AccountInfo>,
    j: int,
)
    requires
        0 <= j < base.keys().len(),
        is_removed(base, fresh, j),
    ensures
        reloaded_steps(base, fresh).contains(disconnect_of(base.values()[j])),
        reloaded_account(base, fresh, base.keys()[j]).is_none(),
{
    lemma_teardown_listed(base, fresh, j, base.keys().len() as int);
    let added = steps_added(base, fresh, fresh.keys().len() as int);
    let removed = steps_removed(base, fresh, base.keys().len() as int);
    let changed = steps_changed(base, fresh, fresh.keys().len() as int);
    let i = choose|i: int| 0 <= i < removed.len() && removed[i] == disconnect_of(base.values()[j]);
    assert((added + removed + changed)[added.len() + i] == disconnect_of(base.values()[j]));
}

proof fn lemma_teardown_listed(
    base: StrMap<AccountInfo>,
    fresh: StrMap<AccountInfo>,
    j: int,
    upto: int,
)
    requires
        0 <= j < upto <= base.keys().len(),
        is_removed(base, fresh, j),
    ensures
        steps_removed(base, fresh, upto).contains(disconnect_of(base.values()[j])),
    decreases upto,
{
    let step = disconnect_of(base.values()[j]);
    if j < upto - 1 {
        lemma_teardown_listed(base, fresh, j, upto - 1);
        let before = steps_removed(base, fresh, upto - 1);
        let i = choose|i: int| 0 <= i < before.len() && before[i] == step;
        if is_removed(base, fresh, upto - 1) {
            assert(steps_removed(base, fresh, upto)[i] == step);
        }
    } else {
        let before = steps_removed(base, fresh, upto - 1);
        assert(steps_removed(base, fresh, upto)[before.len() as int] == step);
    }
}

/// Where roster entries with different identifiers name no feed in common,
/// no two accounts of the roster they describe claim one feed.
pub proof fn lemma_roster_of_exclusive_entries(
    roster: StrMap<AccountInfo>,
    cfgs: Seq<AccountFileConfig>,
)
    requires
        is_roster_of(roster, cfgs),
        forall|i: int, j: int|
            #![trigger cfgs[i], cfgs[j]]
            0 <= i < cfgs.len() && 0 <= j < cfgs.len() && cfgs[i].account_id@
                != cfgs[j].account_id@ ==> !feeds_overlap(entry_feeds(cfgs[i]), entry_feeds(cfgs[j])),
    ensures
        feeds_exclusive(roster),
{
    assert forall|j: Seq<char>, k: Seq<char>|
        #![trigger roster.lookup(j), roster.lookup(k)]
        roster.contains(j) && roster.contains(k) && j != k implies !shares_feed(
        roster.lookup(j)->Some_0,
        roster.lookup(k)->Some_0,
    ) by {
        let a = entry_for(cfgs, cfgs.len() as int, j);
        let b = entry_for(cfgs, cfgs.len() as int, k);
        assert(!feeds_overlap(entry_feeds(cfgs[a]), entry_feeds(cfgs[b])));
    }
}

} // verus!
