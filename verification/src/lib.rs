//! Local Codex usage accounting: allowlisted usage records, exact reconciliation of
//! non-resetting token streams, exact integer pricing, and bounded projections.
pub mod adapter;
pub mod text;
pub mod accounting;
pub mod weekly;
pub mod calendar;
pub mod presentation;
pub mod pricing;
pub mod aggregates;
pub mod calls;
pub mod dashboard;
pub mod storage;
pub mod activity;
pub mod export;
pub mod identity;
pub mod source;
pub mod hierarchy;
pub mod settings;
pub mod monitor;
pub mod desktop;
