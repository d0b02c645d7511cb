//! What holds of the library as a whole, said in terms of what goes in and what comes out.

pub mod collecting;
pub mod conversations;
pub mod copying;
pub mod ledger;
pub mod limit_calls;
pub mod lists;
pub mod log_lines;
pub mod logging;
pub mod numbers;
pub mod releases;
pub mod service;
pub mod session_calls;
pub mod sources;
pub mod text;
pub mod tidying;
pub mod update_calls;
