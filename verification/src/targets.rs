//! The shared table of target weights and snapshots taken from it.
//!
//! The table is written by other components while accounts read it, so a
//! snapshot is all an account ever reasons about.

use std::sync::Arc;
use dashmap::DashMap;
use vstd::prelude::*;

verus! {

/// `dashmap::DashMap`, carried through as an opaque value.
#[verifier::external_type_specification]
#[verifier::external_body]
#[verifier::reject_recursive_types(K)]
#[verifier::reject_recursive_types(V)]
#[verifier::reject_recursive_types(S)]
pub struct ExDashMap<K, V, S>(DashMap<K, V, S>);

/// One row of the table: the last mark price seen for an instrument and the
/// raw weight wanted for it, both stored quantities.
#[derive(Clone, Debug)]
pub struct TargetEntry {
    pub inst: String,
    pub mark_price: i64,
    pub raw_weight: i64,
}

/// Makes an empty table with `DashMap::new`. Nothing is claimed of it:
/// once shared, other holders may write to it at any time.
#[verifier::external_body]
pub(crate) fn empty_table() -> (table: DashMap<String, (i64, i64)>) {
    DashMap::new()
}

/// An empty table of target weights, ready to be shared.
pub fn new_target_table() -> (table: Arc<DashMap<String, (i64, i64)>>) {
    Arc::new(empty_table())
}

/// No two rows of a table are for one instrument.
pub open spec fn distinct_instruments(rows: Seq<TargetEntry>) -> bool {
    forall|a: int, b: int|
        0 <= a < b < rows.len() ==> (#[trigger] rows[a]).inst@ != (#[trigger] rows[b]).inst@
}

/// Walks the table with `DashMap::iter` and copies each row out. The walk
/// takes the shards one after the other, each under its read lock, and a key
/// lives in one shard only: no instrument comes twice. Writers may be active
/// on the other shards meanwhile, so nothing more is claimed of the rows.
#[verifier::external_body]
pub(crate) fn target_entries(table: &DashMap<String, (i64, i64)>) -> (rows: Vec<TargetEntry>)
    ensures
        distinct_instruments(rows@),
{
    table.iter().map(
        |r| TargetEntry { inst: r.key().clone(), mark_price: r.value().0, raw_weight: r.value().1 },
    ).collect()
}

/// Number of instruments a raw weight is split across: the number of rows,
/// and one for an empty table.
pub open spec fn split_count(rows: int) -> int {
    if rows < 1 {
        1
    } else {
        rows
    }
}

/// The weight an account aims at for a raw weight in a table of `rows` rows:
/// the raw weight split equally, rounded down.
pub open spec fn effective_target(raw_weight: int, rows: int) -> int {
    crate::fixed::floor_div(raw_weight, split_count(rows))
}

/// Computes `effective_target`.
pub fn effective_target_weight(raw_weight: i64, rows: usize) -> (w: i64)
    ensures
        w == effective_target(raw_weight as int, rows as int),
{
    let n: i128 = if rows < 1 {
        1
    } else {
        rows as i128
    };
    let q: i128 = crate::fixed::div_floor(raw_weight as i128, n);
    proof {
        assert(i64::MIN <= q <= i64::MAX) by (nonlinear_arith)
            requires
                q * n <= raw_weight < q * n + n,
                n >= 1,
                i64::MIN <= raw_weight <= i64::MAX,
        ;
    }
    q as i64
}

} // verus!
