//! From actionable weight differences to orders: which differences become an
//! order, of what size and side, and which are passed over and why.

use std::sync::Arc;
use dashmap::DashMap;
use vstd::prelude::*;
use crate::account::{
    AccountInfo,
    actionable,
    current_weight,
    diffs_upto,
    lemma_diff_kept_iff_actionable,
    lemma_diffs_are_of_rows,
    marks_after,
    row_diff,
};
use crate::fixed::{SCALE, abs_int, floor_div, saturate, saturate_i128, wide_mul};
use crate::instrument::{InstrumentCatalog, InstrumentInfo, Venue};
use crate::sizing::{
    OrderSide,
    SizingError,
    binance_order_size,
    calc_binance_order_size,
    calc_okx_order_size,
    okx_order_size,
};
use crate::targets::{TargetEntry, distinct_instruments, target_entries};

verus! {

/// Orders on the linear venue are not sent below six units of quote
/// currency.
pub const BINANCE_MIN_NOTIONAL: i64 = 600_000_000;

/// Why a difference did not become an order.
#[derive(Clone, Copy, Debug, PartialEq, Eq, Structural)]
pub enum SkipReason {
    /// No mark price is recorded for the instrument.
    NoMarkPrice,
    /// The catalog has no trading rules for the instrument on this venue.
    NoInstrumentInfo,
    /// The order would fall below the venue's smallest notional.
    BelowMinNotional,
    /// No size could be computed.
    Sizing(SizingError),
    /// The account's venue is not traded.
    VenueNotTraded,
}

/// An order ready to be sent.
#[derive(Clone, Copy, Debug, PartialEq, Eq, Structural)]
pub struct OrderTicket {
    pub side: OrderSide,
    pub size: i64,
    pub isolated_margin: bool,
}

/// What became of one actionable difference.
#[derive(Debug)]
pub struct OrderDecision {
    pub inst: String,
    pub diff: i64,
    pub outcome: Result<OrderTicket, SkipReason>,
}

/// Buy to raise a weight, sell otherwise.
pub open spec fn side_of(diff: int) -> OrderSide {
    if diff > 0 {
        OrderSide::Buy
    } else {
        OrderSide::Sell
    }
}

/// Quote-currency value of moving `diff` of `equity`: the magnitude of their
/// product, rounded down.
pub open spec fn order_notional(diff: int, equity: int) -> int {
    floor_div(abs_int(diff * equity), SCALE as int)
}

/// Whether accounts on `venue` are traded at all.
pub open spec fn is_traded(venue: Venue) -> bool {
    venue == Venue::Okx || venue == Venue::BinanceUm
}

/// The smallest notional `venue` takes an order for.
pub open spec fn min_notional(venue: Venue) -> int {
    if venue == Venue::BinanceUm {
        BINANCE_MIN_NOTIONAL as int
    } else {
        0
    }
}

/// The order for one difference on `venue`, given the mark price and trading
/// rules found for the instrument, or the reason why there is none.
pub open spec fn decide(
    venue: Venue,
    mark_price: Option<i64>,
    info: Option<InstrumentInfo>,
    diff: int,
    equity: int,
) -> Result<OrderTicket, SkipReason> {
    if !is_traded(venue) {
        Err(SkipReason::VenueNotTraded)
    } else if mark_price is None {
        Err(SkipReason::NoMarkPrice)
    } else if info is None {
        Err(SkipReason::NoInstrumentInfo)
    } else if order_notional(diff, equity) < min_notional(venue) {
        Err(SkipReason::BelowMinNotional)
    } else if order_notional(diff, equity) > i64::MAX {
        Err(SkipReason::Sizing(SizingError::OutOfRange))
    } else {
        let sized = if venue == Venue::Okx {
            okx_order_size(mark_price->Some_0 as int, order_notional(diff, equity), info->Some_0)
        } else {
            binance_order_size(
                mark_price->Some_0 as int,
                order_notional(diff, equity),
                info->Some_0,
            )
        };
        match sized {
            Ok(size) => Ok(
                (OrderTicket {
                    side: side_of(diff),
                    size,
                    isolated_margin: venue == Venue::Okx,
                }),
            ),
            Err(e) => Err(SkipReason::Sizing(e)),
        }
    }
}

/// Computes `decide`.
pub fn decide_order(
    venue: Venue,
    mark_price: Option<i64>,
    info: Option<&InstrumentInfo>,
    diff: i64,
    equity: i64,
) -> (r: Result<OrderTicket, SkipReason>)
    ensures
        r == decide(
            venue,
            mark_price,
            match info {
                Some(i) => Some(*i),
                None => None,
            },
            diff as int,
            equity as int,
        ),
{
    if venue != Venue::Okx && venue != Venue::BinanceUm {
        return Err(SkipReason::VenueNotTraded);
    }
    let price: i64 = match mark_price {
        Some(p) => p,
        None => {
            return Err(SkipReason::NoMarkPrice);
        },
    };
    let rules: &InstrumentInfo = match info {
        Some(i) => i,
        None => {
            return Err(SkipReason::NoInstrumentInfo);
        },
    };
    let side = if diff > 0 {
        OrderSide::Buy
    } else {
        OrderSide::Sell
    };
    let product: i128 = wide_mul(diff, equity);
    let magnitude: i128 = if product < 0 {
        -product
    } else {
        product
    };
    let notional: i128 = magnitude / (SCALE as i128);
    if venue == Venue::BinanceUm && notional < BINANCE_MIN_NOTIONAL as i128 {
        return Err(SkipReason::BelowMinNotional);
    }
    if notional > i64::MAX as i128 {
        return Err(SkipReason::Sizing(SizingError::OutOfRange));
    }
    proof {
        assert(notional >= 0) by (nonlinear_arith)
            requires
                notional == magnitude / 100_000_000,
                magnitude >= 0,
        ;
    }
    let sized = if venue == Venue::Okx {
        calc_okx_order_size(price, notional as i64, rules)
    } else {
        calc_binance_order_size(price, notional as i64, rules)
    };
    match sized {
        Ok(size) => Ok(OrderTicket { side, size, isolated_margin: venue == Venue::Okx }),
        Err(e) => Err(SkipReason::Sizing(e)),
    }
}

/// What `decide` yields for `inst` on an account, with the mark price and the
/// trading rules looked up for it.
pub open spec fn decision_for(
    account: AccountInfo,
    catalog: InstrumentCatalog,
    inst: Seq<char>,
    diff: i64,
) -> Result<OrderTicket, SkipReason> {
    decide(
        account.venue,
        account.inst_mark_price.lookup(inst),
        catalog.lookup(inst, account.venue),
        diff as int,
        account.total_equity as int,
    )
}

/// `plan` is the plan that `after` got from the snapshot `rows` when it stood
/// as `before`: the prices of the rows are recorded, nothing else has
/// changed, and every instrument with an actionable difference has exactly
/// one decision, which is what `decide` yields for it. An account on a venue
/// that is not traded has no decisions.
pub open spec fn planned_from(
    rows: Seq<TargetEntry>,
    before: AccountInfo,
    after: AccountInfo,
    catalog: InstrumentCatalog,
    plan: Seq<OrderDecision>,
) -> bool {
    let diffs = diffs_upto(rows, before.acc_weights@, rows.len() as int);
    &&& after.inst_mark_price@ == marks_after(rows, before.inst_mark_price@)
    &&& after.acc_weights == before.acc_weights
    &&& after.account_id == before.account_id
    &&& after.venue == before.venue
    &&& after.total_equity == before.total_equity
    &&& after.account_orders_task_id == before.account_orders_task_id
    &&& after.account_bal_pos_task_id == before.account_bal_pos_task_id
    &&& !is_traded(before.venue) ==> plan.len() == 0
    &&& is_traded(before.venue) ==> plan.len() == diffs.dom().len()
    &&& forall|i: int, j: int|
        0 <= i < j < plan.len() ==> #[trigger] plan[i].inst@ != #[trigger] plan[j].inst@
    &&& forall|i: int|
        0 <= i < plan.len() ==> {
            let d = #[trigger] plan[i];
            &&& diffs.dom().contains(d.inst@)
            &&& d.diff == diffs[d.inst@]
            &&& d.outcome == decision_for(after, catalog, d.inst@, d.diff)
        }
}

/// `plan` is the plan that `after` got, when it stood as `before`, from some
/// snapshot with one row per instrument.
pub open spec fn planned_from_some(
    before: AccountInfo,
    after: AccountInfo,
    catalog: InstrumentCatalog,
    plan: Seq<OrderDecision>,
) -> bool {
    exists|rows: Seq<TargetEntry>|
        distinct_instruments(rows) && #[trigger] planned_from(rows, before, after, catalog, plan)
}

impl AccountInfo {
    /// The decision for one difference, with the account's mark price and
    /// the catalog's rules for the instrument.
    pub fn decide_for(&self, inst_infos: &InstrumentCatalog, inst: &String, diff: i64) -> (r:
        Result<OrderTicket, SkipReason>)
        requires
            self.wf(),
            inst_infos.wf(),
        ensures
            r == decision_for(*self, *inst_infos, inst@, diff),
    {
        let mark_price: Option<i64> = match self.inst_mark_price.get(inst) {
            Some(p) => Some(*p),
            None => None,
        };
        decide_order(
            self.venue,
            mark_price,
            inst_infos.get(inst, self.venue),
            diff,
            self.total_equity,
        )
    }

    /// Compares the account against a snapshot of the target table and
    /// decides, for every actionable difference, whether and what to order.
    /// Each instrument with an actionable difference gets exactly one
    /// decision; an account on a venue that is not traded gets none.
    pub fn plan_orders(&mut self, rows: &Vec<TargetEntry>, inst_infos: &InstrumentCatalog) -> (plan:
        Vec<OrderDecision>)
        requires
            old(self).wf(),
            inst_infos.wf(),
        ensures
            final(self).wf(),
            planned_from(rows@, *old(self), *final(self), *inst_infos, plan@),
    {
        let comparison = self.compare_weights(rows);
        let mut plan: Vec<OrderDecision> = Vec::new();
        if self.venue != Venue::Okx && self.venue != Venue::BinanceUm {
            return plan;
        }
        let diffs = comparison.diffs;
        let n: usize = diffs.len();
        let mut i: usize = 0;
        while i < n
            invariant
                i <= n,
                n == diffs.keys().len(),
                diffs.wf(),
                self.wf(),
                inst_infos.wf(),
                plan@.len() == i,
                forall|t: int|
                    0 <= t < i ==> {
                        let d = #[trigger] plan@[t];
                        &&& d.inst@ == diffs.keys()[t]
                        &&& d.diff == diffs.values()[t]
                        &&& d.outcome == decision_for(*self, *inst_infos, d.inst@, d.diff)
                    },
            decreases n - i,
        {
            let inst: &String = diffs.key_at(i);
            let diff: i64 = *diffs.value_at(i);
            let outcome = self.decide_for(inst_infos, inst, diff);
            plan.push(OrderDecision { inst: inst.clone(), diff, outcome });
            i = i + 1;
        }
        proof {
            assert forall|t: int| 0 <= t < plan@.len() implies {
                let d = #[trigger] plan@[t];
                &&& diffs@.dom().contains(d.inst@)
                &&& d.diff == diffs@[d.inst@]
            } by {
                diffs.lemma_position(t);
            }
            assert forall|a: int, b: int| 0 <= a < b < plan@.len() implies #[trigger] plan@[a].inst@
                != #[trigger] plan@[b].inst@ by {
                assert(diffs.keys()[a] != diffs.keys()[b]);
            }
        }
        plan
    }

    /// Takes a snapshot of the shared target table and plans orders from it.
    /// The table may be written to at any time, so the snapshot is not known
    /// beforehand: the plan is the plan from some snapshot with one row per
    /// instrument, and whatever that held, every decision is for an
    /// actionable difference and is what `decide` yields for it.
    pub fn process_weight(
        &mut self,
        target_weights: &Arc<DashMap<String, (i64, i64)>>,
        inst_infos: &InstrumentCatalog,
    ) -> (plan: Vec<OrderDecision>)
        requires
            old(self).wf(),
            inst_infos.wf(),
        ensures
            final(self).wf(),
            planned_from_some(*old(self), *final(self), *inst_infos, plan@),
            final(self).acc_weights == old(self).acc_weights,
            final(self).account_id == old(self).account_id,
            final(self).venue == old(self).venue,
            final(self).total_equity == old(self).total_equity,
            final(self).account_orders_task_id == old(self).account_orders_task_id,
            final(self).account_bal_pos_task_id == old(self).account_bal_pos_task_id,
            !is_traded(old(self).venue) ==> plan@.len() == 0,
            forall|i: int, j: int|
                0 <= i < j < plan@.len() ==> #[trigger] plan@[i].inst@ != #[trigger] plan@[j].inst@,
            forall|i: int|
                0 <= i < plan@.len() ==> {
                    let d = #[trigger] plan@[i];
                    &&& actionable(d.diff as int)
                    &&& d.outcome == decision_for(*final(self), *inst_infos, d.inst@, d.diff)
                },
    {
        let rows = target_entries(target_weights);
        let plan = self.plan_orders(&rows, inst_infos);
        proof {
            assert(planned_from(rows@, *old(self), *self, *inst_infos, plan@));
            assert forall|i: int| 0 <= i < plan@.len() implies actionable(
                (#[trigger] plan@[i]).diff as int,
            ) by {
                lemma_diffs_actionable(
                    rows@,
                    old(self).acc_weights@,
                    rows@.len() as int,
                    plan@[i].inst@,
                );
            }
        }
        plan
    }

    /// Books a placed order: the instrument's weight moves by the difference
    /// the order was sent for, without waiting for a fill.
    pub fn record_fill(&mut self, inst: &String, diff: i64)
        requires
            old(self).wf(),
        ensures
            final(self).wf(),
            final(self).acc_weights@ == old(self).acc_weights@.insert(
                inst@,
                saturate(current_weight(old(self).acc_weights@, inst@) + diff),
            ),
            final(self).inst_mark_price == old(self).inst_mark_price,
            final(self).account_id == old(self).account_id,
            final(self).venue == old(self).venue,
            final(self).total_equity == old(self).total_equity,
            final(self).account_orders_task_id == old(self).account_orders_task_id,
            final(self).account_bal_pos_task_id == old(self).account_bal_pos_task_id,
    {
        let current: i64 = match self.acc_weights.get(inst) {
            Some(w) => *w,
            None => 0,
        };
        let moved: i64 = saturate_i128(current as i128 + diff as i128);
        self.acc_weights.insert(inst.clone(), moved);
    }
}

/// Every difference that a comparison keeps is actionable.
pub proof fn lemma_diffs_actionable(
    rows: Seq<TargetEntry>,
    weights: Map<Seq<char>, i64>,
    upto: int,
    inst: Seq<char>,
)
    requires
        diffs_upto(rows, weights, upto).dom().contains(inst),
    ensures
        actionable(diffs_upto(rows, weights, upto)[inst] as int),
    decreases upto,
{
    if upto > 0 {
        let before = diffs_upto(rows, weights, upto - 1);
        if before.dom().contains(inst) {
            lemma_diffs_actionable(rows, weights, upto - 1, inst);
        }
    }
}

/// On the linear venue a difference worth less than six units of quote
/// currency is passed over, whatever the price and the trading rules.
pub proof fn lemma_binance_floor(mark_price: i64, info: InstrumentInfo, diff: int, equity: int)
    requires
        order_notional(diff, equity) < BINANCE_MIN_NOTIONAL,
    ensures
        decide(Venue::BinanceUm, Some(mark_price), Some(info), diff, equity) == Err::<
            OrderTicket,
            SkipReason,
        >(SkipReason::BelowMinNotional),
{
}

/// The contract venue has no smallest notional: a difference is never passed
/// over for being small, and with a price and trading rules at hand the
/// decision is the outcome of the sizing alone.
pub proof fn lemma_okx_has_no_floor(
    mark_price: Option<i64>,
    info: Option<InstrumentInfo>,
    diff: int,
    equity: int,
)
    ensures
        decide(Venue::Okx, mark_price, info, diff, equity) != Err::<OrderTicket, SkipReason>(
            SkipReason::BelowMinNotional,
        ),
        mark_price is Some && info is Some && order_notional(diff, equity) <= i64::MAX ==> decide(
            Venue::Okx,
            mark_price,
            info,
            diff,
            equity,
        ) == match okx_order_size(
            mark_price->Some_0 as int,
            order_notional(diff, equity),
            info->Some_0,
        ) {
            Ok(size) => Ok::<OrderTicket, SkipReason>(
                (OrderTicket { side: side_of(diff), size, isolated_margin: true }),
            ),
            Err(e) => Err(SkipReason::Sizing(e)),
        },
{
    let magnitude = abs_int(diff * equity);
    vstd::arithmetic::div_mod::lemma_div_pos_is_pos(magnitude, SCALE as int);
}

/// Booking an order that was planned from the current weight brings the
/// weight to the effective target, where both are ordinary weights.
pub proof fn lemma_fill_reaches_target(target: i64, current: i64)
    requires
        -0x4000_0000_0000_0000 <= target <= 0x3fff_ffff_ffff_ffff,
        -0x4000_0000_0000_0000 <= current <= 0x3fff_ffff_ffff_ffff,
    ensures
        saturate(current + saturate(target - current)) == target,
{
}

/// In a plan from a snapshot with one row per instrument, every decision is
/// for the instrument of a row, and the difference it is for is that row's
/// equal share of its raw weight less the weight held.
pub proof fn lemma_planned_diff_is_equal_split(
    rows: Seq<TargetEntry>,
    before: AccountInfo,
    after: AccountInfo,
    catalog: InstrumentCatalog,
    plan: Seq<OrderDecision>,
    i: int,
)
    requires
        distinct_instruments(rows),
        planned_from(rows, before, after, catalog, plan),
        0 <= i < plan.len(),
    ensures
        exists|j: int|
            0 <= j < rows.len() && (#[trigger] rows[j]).inst@ == plan[i].inst@ && plan[i].diff
                == row_diff(rows[j], before.acc_weights@, rows.len() as int),
{
    let inst = plan[i].inst@;
    lemma_diffs_are_of_rows(rows, before.acc_weights@, rows.len() as int, inst);
    let j = choose|j: int| 0 <= j < rows.len() && (#[trigger] rows[j]).inst@ == inst;
    lemma_diff_kept_iff_actionable(rows, before.acc_weights@, j);
}

} // verus!
