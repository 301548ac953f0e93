//! the registry daemon's protocol and stop flag. the socket loop itself is
//! plumbing outside the verified core

pub mod proto;
pub mod shutdown;

pub use proto::{Reply, Request};
pub use shutdown::Shutdown;
