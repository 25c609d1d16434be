//! A deterministic dataset for demonstrations. Nothing here touches the host:
//! times are told relative to the clock that is handed in.

pub mod ids;
pub mod items;
pub mod runs;
pub mod sessions;
pub mod story;
