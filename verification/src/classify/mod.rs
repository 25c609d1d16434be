//! From raw processes to runtime items, and who they belong to.

pub mod forest;
pub mod group;
pub mod leftovers;
pub mod order;
pub mod ownership;
pub mod pids;
pub mod project;
pub mod rules;
pub mod tree;
