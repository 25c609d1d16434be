//! What an action does, decided before the system is asked to do it.

pub mod docker;
pub mod process;
