//! The machine-readable API for menu-bar clients (contract version 1).
//!
//! Discovery, ownership and safety are decided elsewhere; here the verdicts
//! are laid out as documents, and control actions are resolved to what the
//! program may do. A client renders `actions` as they stand and infers no
//! control semantics of its own.

pub mod action;
pub mod document;
pub mod execute;
pub mod ids;
pub mod plan;
pub mod snapshot;
