//! Inbound events: routing by feed task, folding position events into the
//! owning account, and the dispatch of scheduler ticks.

use vstd::prelude::*;
use crate::account::{AccountInfo, PositionUpdate, position_notional, weight_of};
use crate::handshake::Channel;
use crate::instrument::{InstrumentCatalog, InstrumentInfo, Venue};
use crate::registry::{AccountManager, Route, roster_wf};

verus! {

broadcast use vstd::std_specs::hash::group_hash_axioms;

/// An order update as the order feed reports it.
#[derive(Clone, Debug)]
pub struct OrderUpdate {
    pub inst: String,
    pub venue: Venue,
}

/// A batch of position events from one venue.
#[derive(Clone, Debug)]
pub struct BalPosUpdate {
    pub venue: Venue,
    pub positions: Vec<PositionUpdate>,
}

/// What a scheduler tick asks for.
#[derive(Clone, Copy, Debug, PartialEq, Eq, Structural)]
pub enum ScheduleAction {
    /// Reload the roster from the configuration.
    Reload,
    /// Refresh balances and positions of every account, then reconcile.
    Update,
    /// The tick is not for the roster.
    Ignore,
}

/// A feed-status event resolved to the account whose feed it concerns.
#[derive(Clone, Copy, Debug, PartialEq, Eq, Structural)]
pub struct FeedEvent {
    /// Position of the account on the roster.
    pub account: usize,
    pub venue: Venue,
    pub channel: Channel,
}

/// The weight that a position event puts on its instrument.
pub open spec fn event_weight(account: AccountInfo, pos: PositionUpdate, info: InstrumentInfo) -> i64 {
    weight_of(
        position_notional(
            account.venue,
            pos.size as int,
            match account.inst_mark_price.lookup(pos.inst@) {
                Some(p) => p as int,
                None => pos.avg_price as int,
            },
            info.contract_value,
        ) as int,
        account.total_equity as int,
    )
}

/// Weights after the first `upto` events of a batch from `venue` were folded
/// in. An event for an instrument without known trading rules is passed
/// over.
pub open spec fn weights_after_positions(
    weights: Map<Seq<char>, i64>,
    account: AccountInfo,
    catalog: InstrumentCatalog,
    venue: Venue,
    positions: Seq<PositionUpdate>,
    upto: int,
) -> Map<Seq<char>, i64>
    decreases upto,
{
    if upto <= 0 {
        weights
    } else {
        let before = weights_after_positions(weights, account, catalog, venue, positions, upto - 1);
        let pos = positions[upto - 1];
        match catalog.lookup(pos.inst@, venue) {
            Some(info) => before.insert(pos.inst@, event_weight(account, pos, info)),
            None => before,
        }
    }
}

/// Weights after the first `upto` batches were folded in.
pub open spec fn weights_after_updates(
    weights: Map<Seq<char>, i64>,
    account: AccountInfo,
    catalog: InstrumentCatalog,
    updates: Seq<BalPosUpdate>,
    upto: int,
) -> Map<Seq<char>, i64>
    decreases upto,
{
    if upto <= 0 {
        weights
    } else {
        weights_after_positions(
            weights_after_updates(weights, account, catalog, updates, upto - 1),
            account,
            catalog,
            updates[upto - 1].venue,
            updates[upto - 1].positions@,
            updates[upto - 1].positions@.len() as int,
        )
    }
}

/// Number of order updates among the first `upto` whose instrument has
/// known trading rules.
pub open spec fn orders_observed(catalog: InstrumentCatalog, orders: Seq<OrderUpdate>, upto: int) -> nat
    decreases upto,
{
    if upto <= 0 {
        0
    } else {
        let before = orders_observed(catalog, orders, upto - 1);
        if catalog.lookup(orders[upto - 1].inst@, orders[upto - 1].venue) is Some {
            before + 1
        } else {
            before
        }
    }
}

/// `after` is `before` with other weights and nothing else changed.
pub open spec fn same_but_weights(before: AccountInfo, after: AccountInfo) -> bool {
    &&& after.account_id == before.account_id
    &&& after.venue == before.venue
    &&& after.inst_mark_price == before.inst_mark_price
    &&& after.total_equity == before.total_equity
    &&& after.account_orders_task_id == before.account_orders_task_id
    &&& after.account_bal_pos_task_id == before.account_bal_pos_task_id
}

/// Folds batches of position events into one account.
pub fn fold_updates(
    account: &mut AccountInfo,
    catalog: &InstrumentCatalog,
    updates: &Vec<BalPosUpdate>,
)
    requires
        old(account).wf(),
        catalog.wf(),
    ensures
        final(account).wf(),
        same_but_weights(*old(account), *final(account)),
        final(account).acc_weights@ == weights_after_updates(
            old(account).acc_weights@,
            *old(account),
            *catalog,
            updates@,
            updates@.len() as int,
        ),
{
    let mut u: usize = 0;
    while u < updates.len()
        invariant
            u <= updates@.len(),
            account.wf(),
            catalog.wf(),
            same_but_weights(*old(account), *account),
            account.acc_weights@ == weights_after_updates(
                old(account).acc_weights@,
                *old(account),
                *catalog,
                updates@,
                u as int,
            ),
        decreases updates@.len() - u,
    {
        let batch = &updates[u];
        let ghost start = account.acc_weights@;
        let mut p: usize = 0;
        while p < batch.positions.len()
            invariant
                p <= batch.positions@.len(),
                account.wf(),
                catalog.wf(),
                same_but_weights(*old(account), *account),
                account.acc_weights@ == weights_after_positions(
                    start,
                    *old(account),
                    *catalog,
                    batch.venue,
                    batch.positions@,
                    p as int,
                ),
            decreases batch.positions@.len() - p,
        {
            let pos = &batch.positions[p];
            match catalog.get(&pos.inst, batch.venue) {
                Some(info) => {
                    account.ws_update_acc_position(pos, info);
                },
                None => {},
            }
            p = p + 1;
        }
        u = u + 1;
    }
}

impl AccountManager {
    /// Resolves a feed-status event to the account whose feed it concerns.
    /// An event for a task that the index does not know, or whose entry
    /// names an account that the roster does not hold, is dropped.
    pub fn process_ws_event(&self, task_id: u64, channel: Channel) -> (r: Option<FeedEvent>)
        requires
            roster_wf(self.account_infos),
            self.instrument_infos.wf(),
        ensures
            match self.route_of(task_id) {
                Route::Account(i) => r == Some(
                    (FeedEvent {
                        account: i,
                        venue: self.account_infos.values()[i as int].venue,
                        channel,
                    }),
                ) && i < self.account_infos.keys().len(),
                _ => r.is_none(),
            },
    {
        match self.resolve(task_id) {
            Route::Account(i) => Some(
                FeedEvent { account: i, venue: self.account_infos.value_at(i).venue, channel },
            ),
            _ => None,
        }
    }

    /// Takes note of order updates for the account that owns the feed task.
    /// Nothing is changed by them. Says where the event went and how many of
    /// the updates were for an instrument with known trading rules.
    pub fn process_acc_order(&mut self, task_id: u64, orders: &Vec<OrderUpdate>) -> (r: (Route, usize))
        requires
            roster_wf(old(self).account_infos),
            old(self).instrument_infos.wf(),
        ensures
            *final(self) == *old(self),
            r.0 == old(self).route_of(task_id),
            r.0 is Account ==> r.1 == orders_observed(
                old(self).instrument_infos,
                orders@,
                orders@.len() as int,
            ),
            !(r.0 is Account) ==> r.1 == 0,
    {
        let route = self.resolve(task_id);
        match route {
            Route::Account(_) => {
                let mut observed: usize = 0;
                let mut i: usize = 0;
                while i < orders.len()
                    invariant
                        i <= orders@.len(),
                        self.instrument_infos.wf(),
                        observed == orders_observed(self.instrument_infos, orders@, i as int),
                        observed <= i,
                    decreases orders@.len() - i,
                {
                    if self.instrument_infos.get(&orders[i].inst, orders[i].venue).is_some() {
                        observed = observed + 1;
                    }
                    i = i + 1;
                }
                (route, observed)
            },
            _ => (route, 0),
        }
    }

    /// Folds batches of position events into the account that owns the feed
    /// task. An event for a task that the index does not know, or that names
    /// an account the roster does not hold, changes nothing.
    pub fn process_bal_pos(&mut self, task_id: u64, updates: &Vec<BalPosUpdate>) -> (route: Route)
        requires
            roster_wf(old(self).account_infos),
            old(self).instrument_infos.wf(),
        ensures
            roster_wf(final(self).account_infos),
            old(self).wf() ==> final(self).wf(),
            route == old(self).route_of(task_id),
            match route {
                Route::Account(i) => {
                    let before = old(self).account_infos.values()[i as int];
                    let after = final(self).account_infos.values()[i as int];
                    &&& i < old(self).account_infos.keys().len()
                    &&& final(self).account_infos.keys() == old(self).account_infos.keys()
                    &&& final(self).account_infos.values() == old(
                        self,
                    ).account_infos.values().update(i as int, after)
                    &&& same_but_weights(before, after)
                    &&& after.acc_weights@ == weights_after_updates(
                        before.acc_weights@,
                        before,
                        old(self).instrument_infos,
                        updates@,
                        updates@.len() as int,
                    )
                },
                _ => *final(self) == *old(self),
            },
            final(self).account_infos.keys() == old(self).account_infos.keys(),
            final(self).task_index == old(self).task_index,
            final(self).instrument_infos == old(self).instrument_infos,
            final(self).config == old(self).config,
            final(self).target_weights == old(self).target_weights,
    {
        let route = self.resolve(task_id);
        match route {
            Route::Account(i) => {
                let ghost before = self.account_infos;
                let account = self.account_infos.value_at_mut(i);
                fold_updates(account, &self.instrument_infos, updates);
                proof {
                    let after = self.account_infos;
                    assert(roster_wf(after)) by {
                        assert forall|t: int| 0 <= t < after.keys().len() implies (
                        #[trigger] after.values()[t]).wf() && after.values()[t].account_id@
                            == after.keys()[t] by {
                            assert(before.values()[t].wf());
                        }
                    }
                    if old(self).wf() {
                        assert forall|task: u64| #[trigger]
                            self.routes().contains_key(task) implies after.contains(
                            self.routes()[task],
                        ) && crate::registry::owns_task(
                            after.lookup(self.routes()[task])->Some_0,
                            task,
                        ) by {
                            let k = self.routes()[task];
                            assert(before.contains(k));
                            before.keys().index_of_first_ensures(k);
                            assert(after.position(k) == before.position(k));
                        }
                    }
                }
                route
            },
            _ => route,
        }
    }

    /// What a scheduler tick with `task_id` asks for. Where both ticks share
    /// an identifier the reload goes first.
    pub fn on_schedule(&self, task_id: u64) -> (a: ScheduleAction)
        ensures
            a == if task_id == self.config.reload_task_id {
                ScheduleAction::Reload
            } else if task_id == self.config.update_task_id {
                ScheduleAction::Update
            } else {
                ScheduleAction::Ignore
            },
    {
        if task_id == self.config.reload_task_id {
            ScheduleAction::Reload
        } else if task_id == self.config.update_task_id {
            ScheduleAction::Update
        } else {
            ScheduleAction::Ignore
        }
    }
}

} // verus!
