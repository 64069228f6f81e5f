//! The discharge over committed tables: the row table of the key and the histogram table of the
//! batch.
//!
//! Order of the protocol: the metadata and the statement are absorbed; the row sumcheck reduces all
//! claims to one row challenge; the histogram table is committed; a pole challenge is drawn and the
//! fraction check ties the histogram table to the row table; one sumcheck batches all evaluations
//! of the histogram table; both tables are opened together.

pub mod checks;
pub mod common;
pub mod verify;
pub mod prove;
pub mod run;
pub mod session;
pub mod laws;
