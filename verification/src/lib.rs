//! Finding the aircraft nearest to a point on the globe.
//!
//! The crate holds the decisions of that task and proves what it states of
//! them: how the two-line coordinate text is read (`coords`, over `text`),
//! which aircraft count as located (`state`), how distances are ordered and
//! which aircraft is reported (`rank`), and what is said when a run fails
//! (`error`).
//!
//! Numbers with a fractional part are carried as IEEE 754 binary64 bit
//! patterns (`binary64`), so every item here is integer logic. Reading a
//! token as a number, the distance formula, the network and the printing
//! are the caller's: each function here takes what those produce as plain
//! values and says what it makes of them.

pub mod binary64;
pub mod coords;
pub mod error;
pub mod rank;
pub mod state;
pub mod text;
