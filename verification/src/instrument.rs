//! Venues and per-instrument trading rules.

use vstd::prelude::*;
use crate::strmap::StrMap;

verus! {

/// A trading venue an account can live on.
#[derive(Clone, Copy, Debug, PartialEq, Eq, Structural)]
pub enum Venue {
    /// Contract-multiplier venue whose private feeds need a login.
    Okx,
    /// Linear venue whose connect request already carries the subscription.
    BinanceUm,
    /// Known venue for which neither sizing nor feeds are provided.
    BinanceCm,
}

/// Trading rules of one instrument on one venue. Sizes are stored quantities.
#[derive(Clone, Debug)]
pub struct InstrumentInfo {
    pub inst: String,
    pub lot_size: i64,
    pub min_lmt_size: i64,
    pub max_lmt_size: i64,
    pub min_mkt_size: i64,
    pub max_mkt_size: i64,
    pub contract_value: Option<i64>,
}

impl InstrumentInfo {
    /// Smallest order size that both limit and market orders accept.
    pub open spec fn lower_bound(&self) -> int {
        if self.min_lmt_size >= self.min_mkt_size {
            self.min_lmt_size as int
        } else {
            self.min_mkt_size as int
        }
    }

    /// Largest order size that both limit and market orders accept.
    pub open spec fn upper_bound(&self) -> int {
        if self.max_lmt_size <= self.max_mkt_size {
            self.max_lmt_size as int
        } else {
            self.max_mkt_size as int
        }
    }

    /// Computes `lower_bound`.
    pub fn min_size(&self) -> (lo: i64)
        ensures
            lo == self.lower_bound(),
    {
        if self.min_lmt_size >= self.min_mkt_size {
            self.min_lmt_size
        } else {
            self.min_mkt_size
        }
    }

    /// Computes `upper_bound`.
    pub fn max_size(&self) -> (hi: i64)
        ensures
            hi == self.upper_bound(),
    {
        if self.max_lmt_size <= self.max_mkt_size {
            self.max_lmt_size
        } else {
            self.max_mkt_size
        }
    }
}

/// Trading rules by instrument symbol and venue.
#[derive(Clone, Debug)]
pub struct InstrumentCatalog {
    okx: StrMap<InstrumentInfo>,
    binance_um: StrMap<InstrumentInfo>,
    binance_cm: StrMap<InstrumentInfo>,
}

impl InstrumentCatalog {
    /// The rules of every venue are a well-formed map.
    pub open spec fn wf(&self) -> bool {
        &&& self.shelf(Venue::Okx).wf()
        &&& self.shelf(Venue::BinanceUm).wf()
        &&& self.shelf(Venue::BinanceCm).wf()
    }

    /// The rules known for one venue, by symbol.
    pub closed spec fn shelf(&self, venue: Venue) -> StrMap<InstrumentInfo> {
        match venue {
            Venue::Okx => self.okx,
            Venue::BinanceUm => self.binance_um,
            Venue::BinanceCm => self.binance_cm,
        }
    }

    /// The rules stored for `inst` on `venue`, if any.
    pub open spec fn lookup(&self, inst: Seq<char>, venue: Venue) -> Option<InstrumentInfo> {
        self.shelf(venue).lookup(inst)
    }

    /// A catalog without rules.
    pub fn new() -> (c: Self)
        ensures
            c.wf(),
            forall|inst: Seq<char>, venue: Venue| c.lookup(inst, venue).is_none(),
    {
        InstrumentCatalog { okx: StrMap::new(), binance_um: StrMap::new(), binance_cm: StrMap::new() }
    }

    /// The rules stored for `inst` on `venue`, if any.
    pub fn get(&self, inst: &String, venue: Venue) -> (r: Option<&InstrumentInfo>)
        requires
            self.wf(),
        ensures
            match r {
                Some(info) => self.lookup(inst@, venue) == Some(*info),
                None => self.lookup(inst@, venue).is_none(),
            },
    {
        match venue {
            Venue::Okx => self.okx.get(inst),
            Venue::BinanceUm => self.binance_um.get(inst),
            Venue::BinanceCm => self.binance_cm.get(inst),
        }
    }

    /// Stores `info` under `key` on `venue`, replacing what was there.
    pub fn insert(&mut self, key: String, venue: Venue, info: InstrumentInfo)
        requires
            old(self).wf(),
        ensures
            final(self).wf(),
            final(self).lookup(key@, venue) == Some(info),
            forall|i: Seq<char>, v: Venue|
                (i != key@ || v != venue) ==> final(self).lookup(i, v) == old(self).lookup(i, v),
    {
        match venue {
            Venue::Okx => self.okx.insert(key, info),
            Venue::BinanceUm => self.binance_um.insert(key, info),
            Venue::BinanceCm => self.binance_cm.insert(key, info),
        }
    }
}

} // verus!
