//! The canvas: its ledger, the patches that change it, and what is derived from it.

pub mod context;
pub mod effects;
pub mod hit_test;
pub mod layout;
pub mod ledger;
pub mod ledger_set;
pub mod patch;
pub mod persistence;
pub mod render;
pub mod templates;
