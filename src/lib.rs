//! Time-of-day wallpaper rotation: configuration and cache reconciliation,
//! tiered image choice, control messages and the daemon's timing.
use vstd::prelude::*;

pub mod ipc;
pub mod monitors;
pub mod schedule;
pub mod select;
pub mod state;
pub mod table;
pub mod time;

pub use crate::monitors::Monitors;
pub use crate::state::State;
pub use crate::time::ValidTime;

verus! {

} // verus!
