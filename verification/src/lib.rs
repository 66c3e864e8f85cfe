//! Control and selection core of a secure tunneling proxy.
//!
//! The crate scores the health of candidate backend tunnel endpoints from
//! probe and traffic outcomes, selects a backend per connection, and manages
//! a mutable fleet of backend server instances driven by a control protocol.

pub mod balancer;
pub mod establish;
pub mod fleet;
pub mod protocol;
pub mod server_stat;
