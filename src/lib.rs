//! Building blocks for real-time analysis tools.
//!
//! The library holds the integer and text side of a Liu-Layland task model:
//! the hyperperiod of a set of integer periods, the order queries that
//! taskset utilities make over totally ordered keys, and the textual form
//! of a duration (`"<number> <unit>"`) with its unit table.

pub mod units;
pub mod taskset;
pub mod time_text;
