//! The ledger of rate limits: what the logs of the client say of requests that were turned away,
//! and when each limit ends.

pub mod collect;
pub mod dedup;
pub mod lines;
pub mod report;
