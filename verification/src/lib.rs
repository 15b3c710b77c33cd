//! Keeps exchange trading accounts in step with externally supplied target
//! portfolio weights.
//!
//! An account holds, per instrument, the fraction of its equity that is
//! invested there. A shared table says what fraction is wanted. The library
//! works out the differences, sizes the orders that close them under each
//! venue's trading rules, folds balance and position reports back into the
//! accounts, and keeps the roster of accounts and the index that routes feed
//! events to them consistent while the roster is reloaded.
//!
//! Prices, sizes, weights and equity are exact decimals with eight places,
//! stored as integers (see [`fixed`]). Nothing here talks to a venue: the
//! library decides, and its caller performs what was decided and reports back.

pub mod fixed;
pub mod text;
pub mod strmap;
pub mod instrument;
pub mod sizing;
pub mod targets;
pub mod account;
pub mod reconcile;
pub mod config;
pub mod handshake;
pub mod registry;
pub mod reload;
pub mod events;
pub mod cycle;
