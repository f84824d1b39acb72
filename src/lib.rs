//! Incremental synchronisation of upstream bank transactions into a
//! double-entry ledger: change-feed collection, a deduplicating store with an
//! upstream-to-ledger id mapping, the per-link sync pass, and a rule-based
//! transformer over a read-only projection of each transaction.

pub mod ledger;
pub mod link;
pub mod upstream;
pub mod store;
pub mod sync;
pub mod rules;
pub mod rule_text;
pub mod connections;
pub mod link_mode;
