//! A schema-migration engine: a catalog of versioned scripts, a ledger of the
//! versions applied to a store, and a runner that brings the store up to the
//! newest version one atomic script at a time.

pub mod script;
pub mod catalog;
pub mod ledger;
pub mod store;
pub mod runner;
pub mod laws;
