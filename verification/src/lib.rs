//! The core of an application that switches between accounts: its error log, the ledger of rate
//! limits, the conversations of the accounts, and the updates of the application itself.
//!
//! Nothing here reads a file, a database or the network. A host does that: it hands what it read to
//! the functions of this crate and carries out what they answer.

pub mod clock;
pub mod error_log;
pub mod json;
pub mod laws;
pub mod limits;
pub mod numerals;
pub mod paths;
pub mod session;
pub mod text;
pub mod update;
pub mod update_service;
