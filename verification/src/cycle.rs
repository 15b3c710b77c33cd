//! The reconciliation cycle of the roster: refreshing an account from
//! balance and position listings, planning its orders, booking what was
//! placed, and the order in which these stages follow each other.

use vstd::prelude::*;
use crate::account::{
    AccountError,
    AccountInfo,
    Balance,
    PositionReport,
    actionable,
    current_weight,
    is_quote_asset,
    marks_after_reports,
    notional_sums,
    weight_of,
};
use crate::fixed::saturate;
use crate::instrument::InstrumentCatalog;
use crate::reconcile::{OrderDecision, decision_for, is_traded, planned_from_some};
use crate::registry::{AccountManager, owns_task, roster_wf, routes_resolve};

verus! {

broadcast use vstd::std_specs::hash::group_hash_axioms;

/// The stages of bringing one account up to date.
#[derive(Clone, Copy, Debug, PartialEq, Eq, Structural)]
pub enum UpdateStage {
    /// Fetch the balances and take the equity from them.
    Balance,
    /// Fetch the open positions and rebuild the weights from them.
    Positions,
    /// Compare against the targets and place orders.
    Orders,
    /// Nothing further for this account in this cycle.
    Done,
}

/// The stage that follows `stage`. A failed stage ends the account's cycle:
/// the roster goes on with the next account.
pub open spec fn stage_after(stage: UpdateStage, succeeded: bool) -> UpdateStage {
    if !succeeded {
        UpdateStage::Done
    } else {
        match stage {
            UpdateStage::Balance => UpdateStage::Positions,
            UpdateStage::Positions => UpdateStage::Orders,
            UpdateStage::Orders => UpdateStage::Done,
            UpdateStage::Done => UpdateStage::Done,
        }
    }
}

/// Computes `stage_after`.
pub fn next_update_stage(stage: UpdateStage, succeeded: bool) -> (next: UpdateStage)
    ensures
        next == stage_after(stage, succeeded),
{
    if !succeeded {
        UpdateStage::Done
    } else {
        match stage {
            UpdateStage::Balance => UpdateStage::Positions,
            UpdateStage::Positions => UpdateStage::Orders,
            UpdateStage::Orders => UpdateStage::Done,
            UpdateStage::Done => UpdateStage::Done,
        }
    }
}

/// `after` is `before` with other mark prices and nothing else changed.
pub open spec fn only_marks_changed(before: AccountInfo, after: AccountInfo) -> bool {
    &&& after.account_id == before.account_id
    &&& after.venue == before.venue
    &&& after.acc_weights == before.acc_weights
    &&& after.total_equity == before.total_equity
    &&& after.account_orders_task_id == before.account_orders_task_id
    &&& after.account_bal_pos_task_id == before.account_bal_pos_task_id
}

/// `plan` is a plan of orders for `account`: an account on a venue that is
/// not traded has none, no two decisions are for one instrument, every
/// decision is for an actionable difference, and each is what `decide`
/// yields for it.
pub open spec fn planned_for(
    plan: Seq<OrderDecision>,
    account: AccountInfo,
    catalog: InstrumentCatalog,
) -> bool {
    &&& !is_traded(account.venue) ==> plan.len() == 0
    &&& forall|a: int, b: int|
        0 <= a < b < plan.len() ==> #[trigger] plan[a].inst@ != #[trigger] plan[b].inst@
    &&& forall|t: int|
        0 <= t < plan.len() ==> {
            let d = #[trigger] plan[t];
            &&& actionable(d.diff as int)
            &&& d.outcome == decision_for(account, catalog, d.inst@, d.diff)
        }
}

/// `after` is `before` with the account at position `i` replaced by one with
/// the same identifier and feeds.
pub open spec fn only_account_changed(before: AccountManager, after: AccountManager, i: int) -> bool {
    &&& after.account_infos.keys() == before.account_infos.keys()
    &&& after.account_infos.values() == before.account_infos.values().update(
        i,
        after.account_infos.values()[i],
    )
    &&& after.account_infos.values()[i].account_id == before.account_infos.values()[i].account_id
    &&& after.account_infos.values()[i].venue == before.account_infos.values()[i].venue
    &&& after.account_infos.values()[i].account_orders_task_id
        == before.account_infos.values()[i].account_orders_task_id
    &&& after.account_infos.values()[i].account_bal_pos_task_id
        == before.account_infos.values()[i].account_bal_pos_task_id
    &&& after.task_index == before.task_index
    &&& after.instrument_infos == before.instrument_infos
    &&& after.config == before.config
    &&& after.target_weights == before.target_weights
}

/// Replacing an account by one with the same identifier and feeds keeps the
/// roster and its index consistent.
pub proof fn lemma_account_changed_keeps_wf(before: AccountManager, after: AccountManager, i: int)
    requires
        before.wf(),
        0 <= i < before.account_infos.keys().len(),
        only_account_changed(before, after, i),
        after.account_infos.values()[i].wf(),
    ensures
        after.wf(),
{
    let old_accounts = before.account_infos;
    let accounts = after.account_infos;
    assert(roster_wf(accounts)) by {
        assert forall|t: int| 0 <= t < accounts.keys().len() implies (
        #[trigger] accounts.values()[t]).wf() && accounts.values()[t].account_id@
            == accounts.keys()[t] by {
            assert(old_accounts.values()[t].wf());
        }
    }
    assert(after.routes() =~= before.routes());
    assert(routes_resolve(after.routes(), accounts)) by {
        assert forall|task: u64| #[trigger] after.routes().contains_key(task) implies accounts.contains(
            after.routes()[task],
        ) && owns_task(accounts.lookup(after.routes()[task])->Some_0, task) by {
            let k = after.routes()[task];
            assert(before.routes().contains_key(task));
            assert(old_accounts.contains(k));
            old_accounts.keys().index_of_first_ensures(k);
            assert(accounts.position(k) == old_accounts.position(k));
        }
    }
}

impl AccountManager {
    /// Number of accounts on the roster.
    pub fn account_count(&self) -> (n: usize)
        requires
            self.wf(),
        ensures
            n == self.account_infos.keys().len(),
    {
        self.account_infos.len()
    }

    /// The account at position `i` of the roster.
    pub fn account_at(&self, i: usize) -> (account: &AccountInfo)
        requires
            self.wf(),
            i < self.account_infos.keys().len(),
        ensures
            *account == self.account_infos.values()[i as int],
            account.wf(),
    {
        self.account_infos.value_at(i)
    }

    /// Takes the equity of the account at position `i` from a balance
    /// listing. Without a balance of the quote currency the account stays as
    /// it is.
    pub fn update_account_balance(&mut self, i: usize, balances: &Vec<Balance>) -> (r: Result<
        (),
        AccountError,
    >)
        requires
            old(self).wf(),
            i < old(self).account_infos.keys().len(),
        ensures
            final(self).wf(),
            only_account_changed(*old(self), *final(self), i as int),
            r is Ok <==> exists|j: int|
                0 <= j < balances@.len() && is_quote_asset(#[trigger] balances@[j].asset@),
            r is Ok ==> exists|j: int|
                0 <= j < balances@.len() && is_quote_asset(#[trigger] balances@[j].asset@)
                    && final(self).account_infos.values()[i as int].total_equity
                    == balances@[j].total && forall|t: int|
                    0 <= t < j ==> !is_quote_asset(#[trigger] balances@[t].asset@),
            r is Err ==> r == Err::<(), AccountError>(AccountError::QuoteBalanceMissing)
                && final(self).account_infos.values()[i as int].total_equity == old(
                self,
            ).account_infos.values()[i as int].total_equity,
            final(self).account_infos.values()[i as int].acc_weights == old(
                self,
            ).account_infos.values()[i as int].acc_weights,
            final(self).account_infos.values()[i as int].inst_mark_price == old(
                self,
            ).account_infos.values()[i as int].inst_mark_price,
    {
        let account = self.account_infos.value_at_mut(i);
        let r = account.rest_update_acc_balance(balances);
        proof {
            lemma_account_changed_keeps_wf(*old(self), *self, i as int);
        }
        r
    }

    /// Rebuilds the weights of the account at position `i` from a full
    /// listing of its open positions, with the roster's trading rules.
    pub fn update_account_positions(&mut self, i: usize, positions: &Vec<PositionReport>)
        requires
            old(self).wf(),
            i < old(self).account_infos.keys().len(),
        ensures
            final(self).wf(),
            only_account_changed(*old(self), *final(self), i as int),
            final(self).account_infos.values()[i as int].total_equity == old(
                self,
            ).account_infos.values()[i as int].total_equity,
            final(self).account_infos.values()[i as int].acc_weights@.dom() == notional_sums(
                positions@,
                old(self).account_infos.values()[i as int].venue,
                old(self).instrument_infos,
                positions@.len() as int,
            ).dom(),
            forall|k: Seq<char>| #[trigger]
                final(self).account_infos.values()[i as int].acc_weights@.dom().contains(k)
                    ==> final(self).account_infos.values()[i as int].acc_weights@[k] == weight_of(
                    notional_sums(
                        positions@,
                        old(self).account_infos.values()[i as int].venue,
                        old(self).instrument_infos,
                        positions@.len() as int,
                    )[k] as int,
                    old(self).account_infos.values()[i as int].total_equity as int,
                ),
            final(self).account_infos.values()[i as int].inst_mark_price@ == marks_after_reports(
                positions@,
                old(self).account_infos.values()[i as int].inst_mark_price@,
                positions@.len() as int,
            ),
    {
        let account = self.account_infos.value_at_mut(i);
        account.rest_update_acc_pos_weight(positions, &self.instrument_infos);
        proof {
            lemma_account_changed_keeps_wf(*old(self), *self, i as int);
        }
    }

    /// Plans the orders of the account at position `i` from a snapshot of the
    /// roster's target table. Whatever the snapshot held, the result is a
    /// plan for the account as it stands afterwards, and only its mark prices
    /// have changed.
    pub fn plan_account_orders(&mut self, i: usize) -> (plan: Vec<OrderDecision>)
        requires
            old(self).wf(),
            i < old(self).account_infos.keys().len(),
        ensures
            final(self).wf(),
            only_account_changed(*old(self), *final(self), i as int),
            only_marks_changed(
                old(self).account_infos.values()[i as int],
                final(self).account_infos.values()[i as int],
            ),
            planned_for(
                plan@,
                final(self).account_infos.values()[i as int],
                old(self).instrument_infos,
            ),
            planned_from_some(
                old(self).account_infos.values()[i as int],
                final(self).account_infos.values()[i as int],
                old(self).instrument_infos,
                plan@,
            ),
    {
        let account = self.account_infos.value_at_mut(i);
        let plan = account.process_weight(&self.target_weights, &self.instrument_infos);
        proof {
            lemma_account_changed_keeps_wf(*old(self), *self, i as int);
        }
        plan
    }

    /// Books a placed order on the account at position `i`: the weight of
    /// `inst` moves by `diff`.
    pub fn record_account_fill(&mut self, i: usize, inst: &String, diff: i64)
        requires
            old(self).wf(),
            i < old(self).account_infos.keys().len(),
        ensures
            final(self).wf(),
            only_account_changed(*old(self), *final(self), i as int),
            final(self).account_infos.values()[i as int].total_equity == old(
                self,
            ).account_infos.values()[i as int].total_equity,
            final(self).account_infos.values()[i as int].inst_mark_price == old(
                self,
            ).account_infos.values()[i as int].inst_mark_price,
            final(self).account_infos.values()[i as int].acc_weights@ == old(
                self,
            ).account_infos.values()[i as int].acc_weights@.insert(
                inst@,
                saturate(
                    current_weight(old(self).account_infos.values()[i as int].acc_weights@, inst@)
                        + diff,
                ),
            ),
    {
        let account = self.account_infos.value_at_mut(i);
        account.record_fill(inst, diff);
        proof {
            lemma_account_changed_keeps_wf(*old(self), *self, i as int);
        }
    }

    /// Plans the orders of every account, each from a snapshot of its own of
    /// the roster's target table. The plan at a position is the plan of the
    /// account at that position from some snapshot. Only mark prices change.
    pub fn process_weights(&mut self) -> (plans: Vec<Vec<OrderDecision>>)
        requires
            old(self).wf(),
        ensures
            final(self).wf(),
            final(self).account_infos.keys() == old(self).account_infos.keys(),
            plans@.len() == old(self).account_infos.keys().len(),
            forall|i: int|
                0 <= i < plans@.len() ==> only_marks_changed(
                    old(self).account_infos.values()[i],
                    #[trigger] final(self).account_infos.values()[i],
                ),
            forall|i: int|
                0 <= i < plans@.len() ==> planned_for(
                    (#[trigger] plans@[i])@,
                    final(self).account_infos.values()[i],
                    old(self).instrument_infos,
                ),
            forall|i: int|
                0 <= i < plans@.len() ==> planned_from_some(
                    old(self).account_infos.values()[i],
                    final(self).account_infos.values()[i],
                    old(self).instrument_infos,
                    (#[trigger] plans@[i])@,
                ),
            final(self).task_index == old(self).task_index,
            final(self).instrument_infos == old(self).instrument_infos,
            final(self).config == old(self).config,
            final(self).target_weights == old(self).target_weights,
    {
        let mut plans: Vec<Vec<OrderDecision>> = Vec::new();
        let n: usize = self.account_infos.len();
        let mut i: usize = 0;
        while i < n
            invariant
                i <= n,
                n == old(self).account_infos.keys().len(),
                self.wf(),
                self.account_infos.keys() == old(self).account_infos.keys(),
                self.account_infos.values().len() == n,
                plans@.len() == i,
                forall|t: int|
                    0 <= t < i ==> only_marks_changed(
                        old(self).account_infos.values()[t],
                        #[trigger] self.account_infos.values()[t],
                    ),
                forall|t: int|
                    i <= t < n ==> #[trigger] self.account_infos.values()[t] == old(
                        self,
                    ).account_infos.values()[t],
                forall|t: int|
                    0 <= t < i ==> planned_for(
                        (#[trigger] plans@[t])@,
                        self.account_infos.values()[t],
                        old(self).instrument_infos,
                    ),
                forall|t: int|
                    0 <= t < i ==> planned_from_some(
                        old(self).account_infos.values()[t],
                        self.account_infos.values()[t],
                        old(self).instrument_infos,
                        (#[trigger] plans@[t])@,
                    ),
                self.task_index == old(self).task_index,
                self.instrument_infos == old(self).instrument_infos,
                self.config == old(self).config,
                self.target_weights == old(self).target_weights,
            decreases n - i,
        {
            let plan = self.plan_account_orders(i);
            plans.push(plan);
            i = i + 1;
        }
        plans
    }
}

} // verus!
