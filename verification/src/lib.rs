//! Clock register encoding, running byte statistics and a byte send buffer
//! for a small embedded data logger, with their contracts proved by Verus.
pub mod bcd;
pub mod calendar;
pub mod clock_serde;
pub mod blocking_clock;
pub mod utils;
pub mod statistics;
pub mod writer;
