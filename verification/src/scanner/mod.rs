//! From what the system lists to the model.

pub mod docker;
pub mod ports;
