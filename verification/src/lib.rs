//! The conflict-resolution and merge layer that lets a transaction-execution
//! engine treat numeric aggregator updates as commutative deltas instead of
//! full overwrites: it extracts aggregator values from concrete writes,
//! squashes pairs of speculative execution results while detecting genuine
//! conflicts, and materializes the pending deltas of a finished result into
//! concrete writes.

pub mod assoc;
pub mod codec;
pub mod change_set;
pub mod delta_change_set;
pub mod output;
pub mod state_view;
pub mod transaction;
pub mod types;
pub mod write_set;
