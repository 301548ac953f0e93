//! pid 1 policy: which layer boots, whether a layer is healthy, and the
//! boot window before the handoff

pub mod early;
pub mod health;
pub mod select;

pub use health::DefaultHealthCheck;
pub use select::DefaultSelector;
