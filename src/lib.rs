//! Per-guild service authorization: which services each guild may operate,
//! how that is kept in a file, and which requests may go ahead.

pub mod decimal;
pub mod gate;
pub mod persist;
pub mod report;
pub mod store;

