//! The broadcast node: it records each value once, forwards new values to
//! its neighbours, and retries deliveries that failed until they succeed.

pub mod handler;
pub mod retry;
pub mod store;
pub mod topology;
