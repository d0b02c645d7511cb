//! The conversations of an account: listing them, tidying them up, and copying them to another
//! account.

pub mod copy;
pub mod ids;
pub mod list;
pub mod queries;
pub mod rows;
pub mod store;
pub mod store_paths;
pub mod stored;
pub mod tidy;
pub mod titles;
