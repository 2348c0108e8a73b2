//! Counters: [`GCounter`] (grow-only) and [`PNCounter`] (positive-negative).
pub mod g_counter;
pub mod pn_counter;

pub use g_counter::GCounter;
pub use pn_counter::PNCounter;
