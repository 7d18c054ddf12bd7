//! Usage accounting and enforcement engine for per-application screen time.
//!
//! The library turns a raw device usage-history dump into per-application
//! usage totals and evaluates them against a declarative policy, deciding
//! whether the currently focused application should be stopped or the
//! device put to sleep.  All logic is pure: the surrounding process supplies
//! the raw text, the current time and the focused application, and acts on
//! the returned decision.

pub mod datetime;
pub mod extract;
pub mod focus;
pub mod policy;
pub mod textscan;
pub mod usage;
