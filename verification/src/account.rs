//! One account's weight model: current weights, mark prices and equity, the
//! comparison against target weights, and the folding in of balance and
//! position reports.

use vstd::prelude::*;
use crate::fixed::{abs_int, fixed_div, fixed_mul, saturate, saturate_i128, div_fixed, mul_fixed};
use crate::instrument::{InstrumentCatalog, InstrumentInfo, Venue};
use crate::strmap::StrMap;
use crate::targets::{TargetEntry, distinct_instruments, effective_target, effective_target_weight};

verus! {

/// A weight difference is worth trading only where its magnitude is
/// strictly above this: one hundredth.
pub const MIN_ACTIONABLE_DIFF: i64 = 1_000_000;

/// One account as the reconciliation sees it.
#[derive(Clone, Debug)]
pub struct AccountInfo {
    pub account_id: String,
    pub venue: Venue,
    pub acc_weights: StrMap<i64>,
    pub inst_mark_price: StrMap<i64>,
    pub total_equity: i64,
    pub account_orders_task_id: u64,
    pub account_bal_pos_task_id: u64,
}

/// The weight held in an instrument: what is recorded, and zero where nothing
/// is.
pub open spec fn current_weight(weights: Map<Seq<char>, i64>, inst: Seq<char>) -> int {
    if weights.dom().contains(inst) {
        weights[inst] as int
    } else {
        0
    }
}

/// Whether a weight difference is large enough to trade.
pub open spec fn actionable(diff: int) -> bool {
    abs_int(diff) > MIN_ACTIONABLE_DIFF
}

/// Target minus current weight for one row of a table of `rows` rows.
pub open spec fn row_diff(row: TargetEntry, weights: Map<Seq<char>, i64>, rows: int) -> i64 {
    saturate(effective_target(row.raw_weight as int, rows) - current_weight(weights, row.inst@))
}

/// Mark prices after the prices of `rows` were recorded in order.
pub open spec fn marks_after(rows: Seq<TargetEntry>, marks: Map<Seq<char>, i64>) -> Map<
    Seq<char>,
    i64,
>
    decreases rows.len(),
{
    if rows.len() == 0 {
        marks
    } else {
        marks_after(rows.drop_last(), marks).insert(rows.last().inst@, rows.last().mark_price)
    }
}

/// Effective targets of the first `upto` rows of a table of `rows.len()`
/// rows.
pub open spec fn targets_upto(rows: Seq<TargetEntry>, upto: int) -> Map<Seq<char>, i64>
    decreases upto,
{
    if upto <= 0 {
        Map::empty()
    } else {
        targets_upto(rows, upto - 1).insert(
            rows[upto - 1].inst@,
            effective_target(rows[upto - 1].raw_weight as int, rows.len() as int) as i64,
        )
    }
}

/// Actionable differences among the first `upto` rows.
pub open spec fn diffs_upto(rows: Seq<TargetEntry>, weights: Map<Seq<char>, i64>, upto: int) -> Map<
    Seq<char>,
    i64,
>
    decreases upto,
{
    if upto <= 0 {
        Map::empty()
    } else {
        let before = diffs_upto(rows, weights, upto - 1);
        let d = row_diff(rows[upto - 1], weights, rows.len() as int);
        if actionable(d as int) {
            before.insert(rows[upto - 1].inst@, d)
        } else {
            before
        }
    }
}

/// A position as a feed event reports it.
#[derive(Clone, Debug)]
pub struct PositionUpdate {
    pub inst: String,
    pub size: i64,
    pub avg_price: i64,
}

/// A position as a full position listing reports it.
#[derive(Clone, Debug)]
pub struct PositionReport {
    pub inst: String,
    pub size: i64,
    pub mark_price: i64,
}

/// A balance of one asset.
#[derive(Clone, Debug)]
pub struct Balance {
    pub asset: String,
    pub total: i64,
}

/// Why an account could not be brought up to date.
#[derive(Clone, Copy, Debug, PartialEq, Eq, Structural)]
pub enum AccountError {
    /// No balance of the quote currency was reported.
    QuoteBalanceMissing,
}

/// Whether `asset` names the quote currency, in any mix of upper and lower
/// case.
pub open spec fn is_quote_asset(asset: Seq<char>) -> bool {
    crate::text::ascii_lowered(asset) == crate::text::ascii_lowered("USDT"@)
}

/// The multiplier that applies where an instrument has no contract value:
/// one.
pub open spec fn multiplier_or_one(contract_value: Option<i64>) -> int {
    match contract_value {
        Some(cv) => cv as int,
        None => crate::fixed::SCALE as int,
    }
}

/// Value of a position of `size` at `price`: size times price, times the
/// contract multiplier on a contract venue, and nothing on a venue that is
/// not traded.
pub open spec fn position_notional(
    venue: Venue,
    size: int,
    price: int,
    contract_value: Option<i64>,
) -> i64 {
    match venue {
        Venue::BinanceUm => saturate(fixed_mul(size, price)),
        Venue::Okx => saturate(
            fixed_mul(saturate(fixed_mul(size, price)) as int, multiplier_or_one(contract_value)),
        ),
        Venue::BinanceCm => 0,
    }
}

/// The share of `equity` that `notional` makes up, and zero where there is
/// no positive equity.
pub open spec fn weight_of(notional: int, equity: int) -> i64 {
    if equity > 0 {
        saturate(fixed_div(notional, equity))
    } else {
        0
    }
}

/// Computes `position_notional`.
pub fn notional_of_position(venue: Venue, size: i64, price: i64, contract_value: Option<i64>) -> (n:
    i64)
    ensures
        n == position_notional(venue, size as int, price as int, contract_value),
{
    match venue {
        Venue::BinanceUm => saturate_i128(mul_fixed(size, price)),
        Venue::Okx => {
            let base: i64 = saturate_i128(mul_fixed(size, price));
            let multiplier: i64 = match contract_value {
                Some(cv) => cv,
                None => crate::fixed::SCALE,
            };
            saturate_i128(mul_fixed(base, multiplier))
        },
        Venue::BinanceCm => 0,
    }
}

/// Computes `weight_of`.
pub fn weight_of_notional(notional: i64, equity: i64) -> (w: i64)
    ensures
        w == weight_of(notional as int, equity as int),
{
    if equity > 0 {
        saturate_i128(div_fixed(notional, equity))
    } else {
        0
    }
}

/// Value of one listed position. On a contract venue an instrument without
/// known trading rules counts for nothing.
pub open spec fn report_notional(venue: Venue, pos: PositionReport, catalog: InstrumentCatalog) -> i64 {
    match venue {
        Venue::BinanceUm => position_notional(venue, pos.size as int, pos.mark_price as int, None),
        Venue::Okx => match catalog.lookup(pos.inst@, Venue::Okx) {
            Some(info) => position_notional(
                venue,
                pos.size as int,
                pos.mark_price as int,
                info.contract_value,
            ),
            None => 0,
        },
        Venue::BinanceCm => 0,
    }
}

/// Value held per instrument among the first `upto` listed positions.
pub open spec fn notional_sums(
    positions: Seq<PositionReport>,
    venue: Venue,
    catalog: InstrumentCatalog,
    upto: int,
) -> Map<Seq<char>, i64>
    decreases upto,
{
    if upto <= 0 {
        Map::empty()
    } else {
        let before = notional_sums(positions, venue, catalog, upto - 1);
        let pos = positions[upto - 1];
        before.insert(
            pos.inst@,
            saturate(current_weight(before, pos.inst@) + report_notional(venue, pos, catalog)),
        )
    }
}

/// Mark prices after the prices of the first `upto` listed positions were
/// recorded in order.
pub open spec fn marks_after_reports(
    positions: Seq<PositionReport>,
    marks: Map<Seq<char>, i64>,
    upto: int,
) -> Map<Seq<char>, i64>
    decreases upto,
{
    if upto <= 0 {
        marks
    } else {
        marks_after_reports(positions, marks, upto - 1).insert(
            positions[upto - 1].inst@,
            positions[upto - 1].mark_price,
        )
    }
}

/// Computes `report_notional`.
pub fn notional_of_report(venue: Venue, pos: &PositionReport, catalog: &InstrumentCatalog) -> (n:
    i64)
    requires
        catalog.wf(),
    ensures
        n == report_notional(venue, *pos, *catalog),
{
    match venue {
        Venue::BinanceUm => notional_of_position(venue, pos.size, pos.mark_price, None),
        Venue::Okx => match catalog.get(&pos.inst, Venue::Okx) {
            Some(info) => notional_of_position(
                venue,
                pos.size,
                pos.mark_price,
                info.contract_value,
            ),
            None => 0,
        },
        Venue::BinanceCm => 0,
    }
}

/// What a comparison against a table snapshot yields.
#[derive(Clone, Debug)]
pub struct WeightComparison {
    /// Actionable differences by instrument.
    pub diffs: StrMap<i64>,
    /// Effective target weight by instrument.
    pub targets: StrMap<i64>,
}

impl AccountInfo {
    /// Both maps of the account are well formed.
    pub open spec fn wf(&self) -> bool {
        &&& self.acc_weights.wf()
        &&& self.inst_mark_price.wf()
    }

    /// Whether the fields by which a reload tells accounts apart differ.
    pub open spec fn differs_from(&self, other: &Self) -> bool {
        ||| self.account_id@ != other.account_id@
        ||| self.account_orders_task_id != other.account_orders_task_id
        ||| self.account_bal_pos_task_id != other.account_bal_pos_task_id
    }

    /// An account with no weights, no prices and no equity.
    pub fn new(account_id: String, venue: Venue, orders_task_id: u64, bal_pos_task_id: u64) -> (a:
        Self)
        ensures
            a.wf(),
            a.account_id == account_id,
            a.venue == venue,
            a.acc_weights@ == Map::<Seq<char>, i64>::empty(),
            a.inst_mark_price@ == Map::<Seq<char>, i64>::empty(),
            a.total_equity == 0,
            a.account_orders_task_id == orders_task_id,
            a.account_bal_pos_task_id == bal_pos_task_id,
    {
        AccountInfo {
            account_id,
            venue,
            acc_weights: StrMap::new(),
            inst_mark_price: StrMap::new(),
            total_equity: 0,
            account_orders_task_id: orders_task_id,
            account_bal_pos_task_id: bal_pos_task_id,
        }
    }

    /// Whether a reload has to replace `other` by this account: the
    /// identifier or one of the feed task identifiers differs. Credentials
    /// and venue are not looked at.
    pub fn config_changed(&self, other: &Self) -> (changed: bool)
        ensures
            changed == self.differs_from(other),
    {
        self.account_id != other.account_id || self.account_orders_task_id
            != other.account_orders_task_id || self.account_bal_pos_task_id
            != other.account_bal_pos_task_id
    }

    /// Records the price of every row and works out, for each row, the
    /// effective target and the difference to the current weight. Only
    /// actionable differences are kept.
    pub fn compare_weights(&mut self, rows: &Vec<TargetEntry>) -> (c: WeightComparison)
        requires
            old(self).wf(),
        ensures
            final(self).wf(),
            c.diffs.wf(),
            c.targets.wf(),
            c.diffs@ == diffs_upto(rows@, old(self).acc_weights@, rows@.len() as int),
            c.targets@ == targets_upto(rows@, rows@.len() as int),
            final(self).inst_mark_price@ == marks_after(rows@, old(self).inst_mark_price@),
            final(self).acc_weights == old(self).acc_weights,
            final(self).account_id == old(self).account_id,
            final(self).venue == old(self).venue,
            final(self).total_equity == old(self).total_equity,
            final(self).account_orders_task_id == old(self).account_orders_task_id,
            final(self).account_bal_pos_task_id == old(self).account_bal_pos_task_id,
    {
        let mut diffs: StrMap<i64> = StrMap::new();
        let mut targets: StrMap<i64> = StrMap::new();
        let n: usize = rows.len();
        let mut i: usize = 0;
        while i < n
            invariant
                n == rows@.len(),
                i <= n,
                self.wf(),
                diffs.wf(),
                targets.wf(),
                diffs@ == diffs_upto(rows@, old(self).acc_weights@, i as int),
                targets@ == targets_upto(rows@, i as int),
                self.inst_mark_price@ == marks_after(rows@.take(i as int), old(self).inst_mark_price@),
                self.acc_weights == old(self).acc_weights,
                self.account_id == old(self).account_id,
                self.venue == old(self).venue,
                self.total_equity == old(self).total_equity,
                self.account_orders_task_id == old(self).account_orders_task_id,
                self.account_bal_pos_task_id == old(self).account_bal_pos_task_id,
            decreases n - i,
        {
            let row = &rows[i];
            self.inst_mark_price.insert(row.inst.clone(), row.mark_price);
            let target: i64 = effective_target_weight(row.raw_weight, n);
            targets.insert(row.inst.clone(), target);
            let current: i64 = match self.acc_weights.get(&row.inst) {
                Some(w) => *w,
                None => 0,
            };
            let diff: i64 = saturate_i128(target as i128 - current as i128);
            if diff > MIN_ACTIONABLE_DIFF || diff < -MIN_ACTIONABLE_DIFF {
                diffs.insert(row.inst.clone(), diff);
            }
            proof {
                assert(rows@.take(i + 1).drop_last() =~= rows@.take(i as int));
                assert(rows@.take(i + 1).last() == rows@[i as int]);
            }
            i = i + 1;
        }
        proof {
            assert(rows@.take(n as int) =~= rows@);
        }
        WeightComparison { diffs, targets }
    }

    /// Folds one position event in: the position's weight replaces whatever
    /// was recorded for its instrument. The position is valued at the
    /// recorded mark price, or at its average price where none is recorded.
    pub fn ws_update_acc_position(&mut self, pos: &PositionUpdate, inst_info: &InstrumentInfo)
        requires
            old(self).wf(),
        ensures
            final(self).wf(),
            final(self).acc_weights@ == old(self).acc_weights@.insert(
                pos.inst@,
                weight_of(
                    position_notional(
                        old(self).venue,
                        pos.size as int,
                        match old(self).inst_mark_price.lookup(pos.inst@) {
                            Some(p) => p as int,
                            None => pos.avg_price as int,
                        },
                        inst_info.contract_value,
                    ) as int,
                    old(self).total_equity as int,
                ),
            ),
            final(self).inst_mark_price == old(self).inst_mark_price,
            final(self).account_id == old(self).account_id,
            final(self).venue == old(self).venue,
            final(self).total_equity == old(self).total_equity,
            final(self).account_orders_task_id == old(self).account_orders_task_id,
            final(self).account_bal_pos_task_id == old(self).account_bal_pos_task_id,
    {
        let mark_price: i64 = match self.inst_mark_price.get(&pos.inst) {
            Some(p) => *p,
            None => pos.avg_price,
        };
        let notional: i64 = notional_of_position(
            self.venue,
            pos.size,
            mark_price,
            inst_info.contract_value,
        );
        let weight: i64 = weight_of_notional(notional, self.total_equity);
        self.acc_weights.insert(pos.inst.clone(), weight);
    }

    /// Takes the account's equity from the first balance of the quote
    /// currency. Without such a balance nothing changes.
    pub fn rest_update_acc_balance(&mut self, balances: &Vec<Balance>) -> (r: Result<
        (),
        AccountError,
    >)
        ensures
            old(self).wf() ==> final(self).wf(),
            r is Ok <==> exists|j: int|
                0 <= j < balances@.len() && is_quote_asset(#[trigger] balances@[j].asset@),
            r is Ok ==> exists|j: int|
                0 <= j < balances@.len() && is_quote_asset(#[trigger] balances@[j].asset@)
                    && final(self).total_equity == balances@[j].total && forall|i: int|
                    0 <= i < j ==> !is_quote_asset(#[trigger] balances@[i].asset@),
            r is Err ==> r == Err::<(), AccountError>(AccountError::QuoteBalanceMissing)
                && final(self).total_equity == old(self).total_equity,
            final(self).acc_weights == old(self).acc_weights,
            final(self).inst_mark_price == old(self).inst_mark_price,
            final(self).account_id == old(self).account_id,
            final(self).venue == old(self).venue,
            final(self).account_orders_task_id == old(self).account_orders_task_id,
            final(self).account_bal_pos_task_id == old(self).account_bal_pos_task_id,
    {
        let mut j: usize = 0;
        while j < balances.len()
            invariant
                j <= balances@.len(),
                forall|i: int| 0 <= i < j ==> !is_quote_asset(#[trigger] balances@[i].asset@),
                *self == *old(self),
            decreases balances@.len() - j,
        {
            if crate::text::eq_ignore_ascii_case(balances[j].asset.as_str(), "USDT") {
                self.total_equity = balances[j].total;
                return Ok(());
            }
            j = j + 1;
        }
        Err(AccountError::QuoteBalanceMissing)
    }

    /// Rebuilds the weights from a full listing of open positions. Every
    /// listed instrument gets the weight of the value held in it; every
    /// instrument that is not listed loses its weight. The listed mark prices
    /// are recorded.
    pub fn rest_update_acc_pos_weight(
        &mut self,
        positions: &Vec<PositionReport>,
        inst_infos: &InstrumentCatalog,
    )
        requires
            old(self).wf(),
            inst_infos.wf(),
        ensures
            final(self).wf(),
            final(self).acc_weights@.dom() == notional_sums(
                positions@,
                old(self).venue,
                *inst_infos,
                positions@.len() as int,
            ).dom(),
            forall|k: Seq<char>| #[trigger]
                final(self).acc_weights@.dom().contains(k) ==> final(self).acc_weights@[k]
                    == weight_of(
                    notional_sums(
                        positions@,
                        old(self).venue,
                        *inst_infos,
                        positions@.len() as int,
                    )[k] as int,
                    old(self).total_equity as int,
                ),
            final(self).inst_mark_price@ == marks_after_reports(
                positions@,
                old(self).inst_mark_price@,
                positions@.len() as int,
            ),
            final(self).account_id == old(self).account_id,
            final(self).venue == old(self).venue,
            final(self).total_equity == old(self).total_equity,
            final(self).account_orders_task_id == old(self).account_orders_task_id,
            final(self).account_bal_pos_task_id == old(self).account_bal_pos_task_id,
    {
        let mut notional_map: StrMap<i64> = StrMap::new();
        let mut i: usize = 0;
        while i < positions.len()
            invariant
                i <= positions@.len(),
                inst_infos.wf(),
                notional_map.wf(),
                self.wf(),
                notional_map@ == notional_sums(positions@, self.venue, *inst_infos, i as int),
                self.inst_mark_price@ == marks_after_reports(
                    positions@,
                    old(self).inst_mark_price@,
                    i as int,
                ),
                self.acc_weights == old(self).acc_weights,
                self.account_id == old(self).account_id,
                self.venue == old(self).venue,
                self.total_equity == old(self).total_equity,
                self.account_orders_task_id == old(self).account_orders_task_id,
                self.account_bal_pos_task_id == old(self).account_bal_pos_task_id,
            decreases positions@.len() - i,
        {
            let pos = &positions[i];
            let notional: i64 = notional_of_report(self.venue, pos, inst_infos);
            self.inst_mark_price.insert(pos.inst.clone(), pos.mark_price);
            let held: i64 = match notional_map.get(&pos.inst) {
                Some(n) => *n,
                None => 0,
            };
            notional_map.insert(pos.inst.clone(), saturate_i128(held as i128 + notional as i128));
            i = i + 1;
        }
        let mut j: usize = 0;
        while j < notional_map.len()
            invariant
                j <= notional_map.keys().len(),
                notional_map.wf(),
                self.wf(),
                forall|t: int|
                    0 <= t < j ==> self.acc_weights.lookup(#[trigger] notional_map.keys()[t])
                        == Some(
                        weight_of(notional_map.values()[t] as int, self.total_equity as int),
                    ),
                self.inst_mark_price@ == marks_after_reports(
                    positions@,
                    old(self).inst_mark_price@,
                    positions@.len() as int,
                ),
                self.account_id == old(self).account_id,
                self.venue == old(self).venue,
                self.total_equity == old(self).total_equity,
                self.account_orders_task_id == old(self).account_orders_task_id,
                self.account_bal_pos_task_id == old(self).account_bal_pos_task_id,
            decreases notional_map.keys().len() - j,
        {
            let weight: i64 = weight_of_notional(*notional_map.value_at(j), self.total_equity);
            let ghost prev = self.acc_weights;
            self.acc_weights.insert(notional_map.key_at(j).clone(), weight);
            proof {
                assert forall|t: int| 0 <= t < j + 1 implies self.acc_weights.lookup(
                    #[trigger] notional_map.keys()[t],
                ) == Some(
                    weight_of(notional_map.values()[t] as int, self.total_equity as int),
                ) by {
                    if t < j {
                        assert(notional_map.keys()[t] != notional_map.keys()[j as int]);
                        assert(prev.lookup(notional_map.keys()[t]) == self.acc_weights.lookup(
                            notional_map.keys()[t],
                        ));
                    }
                }
            }
            j = j + 1;
        }
        self.acc_weights.retain_in(&notional_map);
        proof {
            let sums = notional_sums(
                positions@,
                self.venue,
                *inst_infos,
                positions@.len() as int,
            );
            assert(notional_map@ == sums);
            assert(self.acc_weights@.dom() =~= sums.dom());
            assert forall|k: Seq<char>| #[trigger]
                self.acc_weights@.dom().contains(k) implies self.acc_weights@[k] == weight_of(
                sums[k] as int,
                self.total_equity as int,
            ) by {
                notional_map.keys().index_of_first_ensures(k);
                let t = notional_map.position(k);
                assert(notional_map.keys()[t] == k);
            }
        }
    }
}

/// The effective target is the equal split of the raw weight over the rows
/// of the table, rounded down: it is the one value that, taken once per row,
/// comes to the raw weight or falls short of it by less than one unit per
/// row. An empty table counts as one row.
pub proof fn lemma_target_is_equal_split(raw_weight: int, rows: int)
    ensures
        rows <= 1 ==> effective_target(raw_weight, rows) == raw_weight,
        rows >= 1 ==> rows * effective_target(raw_weight, rows) <= raw_weight < rows
            * effective_target(raw_weight, rows) + rows,
{
    let n = crate::targets::split_count(rows);
    vstd::arithmetic::div_mod::lemma_fundamental_div_mod(raw_weight, n);
    vstd::arithmetic::div_mod::lemma_mod_bound(raw_weight, n);
    if rows <= 1 {
        vstd::arithmetic::div_mod::lemma_div_basics(raw_weight);
    }
}

/// In a table with one row per instrument, the target computed for the
/// instrument of each row is the effective target of that row.
pub proof fn lemma_targets_of_table(rows: Seq<TargetEntry>, i: int)
    requires
        distinct_instruments(rows),
        0 <= i < rows.len(),
    ensures
        targets_upto(rows, rows.len() as int).dom().contains(rows[i].inst@),
        targets_upto(rows, rows.len() as int)[rows[i].inst@] == effective_target(
            rows[i].raw_weight as int,
            rows.len() as int,
        ),
{
    lemma_targets_upto(rows, i, rows.len() as int);
    lemma_target_in_range(rows[i].raw_weight, rows.len() as int);
}

/// The equal split of a stored weight is a stored weight.
pub proof fn lemma_target_in_range(raw_weight: i64, rows: int)
    ensures
        i64::MIN <= effective_target(raw_weight as int, rows) <= i64::MAX,
{
    let n = crate::targets::split_count(rows);
    let q = effective_target(raw_weight as int, rows);
    vstd::arithmetic::div_mod::lemma_fundamental_div_mod(raw_weight as int, n);
    vstd::arithmetic::div_mod::lemma_mod_bound(raw_weight as int, n);
    assert(i64::MIN <= q <= i64::MAX) by (nonlinear_arith)
        requires
            raw_weight == n * q + (raw_weight as int % n),
            0 <= (raw_weight as int % n) < n,
            n >= 1,
            i64::MIN <= raw_weight <= i64::MAX,
    ;
}

proof fn lemma_targets_upto(rows: Seq<TargetEntry>, i: int, upto: int)
    requires
        distinct_instruments(rows),
        0 <= i < upto <= rows.len(),
    ensures
        targets_upto(rows, upto).dom().contains(rows[i].inst@),
        targets_upto(rows, upto)[rows[i].inst@] == effective_target(
            rows[i].raw_weight as int,
            rows.len() as int,
        ) as i64,
    decreases upto,
{
    if i < upto - 1 {
        lemma_targets_upto(rows, i, upto - 1);
        assert(rows[i].inst@ != rows[upto - 1].inst@);
    }
}

/// Among the first `upto` rows, a difference is recorded only for the
/// instrument of one of them.
pub proof fn lemma_diffs_are_of_rows(
    rows: Seq<TargetEntry>,
    weights: Map<Seq<char>, i64>,
    upto: int,
    inst: Seq<char>,
)
    requires
        0 <= upto <= rows.len(),
        diffs_upto(rows, weights, upto).dom().contains(inst),
    ensures
        exists|j: int| 0 <= j < upto && (#[trigger] rows[j]).inst@ == inst,
    decreases upto,
{
    if upto > 0 {
        if rows[upto - 1].inst@ == inst {
        } else {
            lemma_diffs_are_of_rows(rows, weights, upto - 1, inst);
        }
    }
}

/// The threshold is strict. In a table with one row per instrument, a
/// difference is kept for the instrument of a row exactly if the row's
/// difference exceeds one hundredth in magnitude, and what is kept is that
/// difference.
pub proof fn lemma_diff_kept_iff_actionable(
    rows: Seq<TargetEntry>,
    weights: Map<Seq<char>, i64>,
    i: int,
)
    requires
        distinct_instruments(rows),
        0 <= i < rows.len(),
    ensures
        diffs_upto(rows, weights, rows.len() as int).dom().contains(rows[i].inst@) <==> abs_int(
            row_diff(rows[i], weights, rows.len() as int) as int,
        ) > MIN_ACTIONABLE_DIFF,
        diffs_upto(rows, weights, rows.len() as int).dom().contains(rows[i].inst@) ==> diffs_upto(
            rows,
            weights,
            rows.len() as int,
        )[rows[i].inst@] == row_diff(rows[i], weights, rows.len() as int),
{
    lemma_diffs_upto(rows, weights, i, rows.len() as int);
}

proof fn lemma_diffs_upto(rows: Seq<TargetEntry>, weights: Map<Seq<char>, i64>, i: int, upto: int)
    requires
        distinct_instruments(rows),
        0 <= i < upto <= rows.len(),
    ensures
        diffs_upto(rows, weights, upto).dom().contains(rows[i].inst@) <==> actionable(
            row_diff(rows[i], weights, rows.len() as int) as int,
        ),
        diffs_upto(rows, weights, upto).dom().contains(rows[i].inst@) ==> diffs_upto(
            rows,
            weights,
            upto,
        )[rows[i].inst@] == row_diff(rows[i], weights, rows.len() as int),
    decreases upto,
{
    if i < upto - 1 {
        lemma_diffs_upto(rows, weights, i, upto - 1);
        assert(rows[i].inst@ != rows[upto - 1].inst@);
    } else {
        // the row is the last of the prefix: whether its instrument has a
        // difference so far is decided by this row alone
        if diffs_upto(rows, weights, upto - 1).dom().contains(rows[i].inst@) {
            lemma_diffs_are_of_rows(rows, weights, upto - 1, rows[i].inst@);
            let j = choose|j: int| 0 <= j < upto - 1 && (#[trigger] rows[j]).inst@ == rows[i].inst@;
            assert(rows[j].inst@ != rows[i].inst@);
        }
    }
}

/// A listing gives a value to exactly the instruments that it lists.
pub proof fn lemma_listed_instruments(
    positions: Seq<PositionReport>,
    venue: Venue,
    catalog: InstrumentCatalog,
    upto: int,
    inst: Seq<char>,
)
    requires
        0 <= upto <= positions.len(),
    ensures
        notional_sums(positions, venue, catalog, upto).dom().contains(inst) <==> exists|j: int|
            0 <= j < upto && (#[trigger] positions[j]).inst@ == inst,
    decreases upto,
{
    if upto > 0 {
        lemma_listed_instruments(positions, venue, catalog, upto - 1, inst);
        if notional_sums(positions, venue, catalog, upto).dom().contains(inst) {
            if positions[upto - 1].inst@ == inst {
                assert(positions[upto - 1].inst@ == inst);
            } else {
                let j = choose|j: int| 0 <= j < upto - 1 && (#[trigger] positions[j]).inst@ == inst;
                assert(0 <= j < upto && positions[j].inst@ == inst);
            }
        }
        if exists|j: int| 0 <= j < upto && (#[trigger] positions[j]).inst@ == inst {
            let j = choose|j: int| 0 <= j < upto && (#[trigger] positions[j]).inst@ == inst;
            if j < upto - 1 {
                assert(0 <= j < upto - 1 && positions[j].inst@ == inst);
            }
        }
    }
}

/// In a listing with one position per instrument, the value held in the
/// instrument of a position is the value of that position.
pub proof fn lemma_listed_value(
    positions: Seq<PositionReport>,
    venue: Venue,
    catalog: InstrumentCatalog,
    i: int,
)
    requires
        0 <= i < positions.len(),
        forall|a: int, b: int|
            0 <= a < b < positions.len() ==> (#[trigger] positions[a]).inst@ != (
            #[trigger] positions[b]).inst@,
    ensures
        notional_sums(positions, venue, catalog, positions.len() as int).dom().contains(
            positions[i].inst@,
        ),
        notional_sums(positions, venue, catalog, positions.len() as int)[positions[i].inst@]
            == report_notional(venue, positions[i], catalog),
{
    lemma_listed_value_upto(positions, venue, catalog, i, positions.len() as int);
}

proof fn lemma_listed_value_upto(
    positions: Seq<PositionReport>,
    venue: Venue,
    catalog: InstrumentCatalog,
    i: int,
    upto: int,
)
    requires
        0 <= i < upto <= positions.len(),
        forall|a: int, b: int|
            0 <= a < b < positions.len() ==> (#[trigger] positions[a]).inst@ != (
            #[trigger] positions[b]).inst@,
    ensures
        notional_sums(positions, venue, catalog, upto).dom().contains(positions[i].inst@),
        notional_sums(positions, venue, catalog, upto)[positions[i].inst@] == report_notional(
            venue,
            positions[i],
            catalog,
        ),
    decreases upto,
{
    if i < upto - 1 {
        lemma_listed_value_upto(positions, venue, catalog, i, upto - 1);
        assert(positions[i].inst@ != positions[upto - 1].inst@);
    } else {
        lemma_listed_instruments(positions, venue, catalog, upto - 1, positions[i].inst@);
        if notional_sums(positions, venue, catalog, upto - 1).dom().contains(positions[i].inst@) {
            let j = choose|j: int| 0 <= j < upto - 1 && (#[trigger] positions[j]).inst@ == positions[i].inst@;
            assert(positions[j].inst@ != positions[i].inst@);
        }
    }
}

} // verus!
