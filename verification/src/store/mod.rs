//! content-addressed store: objects by hash, gens for rollback

pub mod cas;
pub mod digest;
pub mod erofs;
pub mod gc;
pub mod generations;
pub mod overlay;

pub use cas::Store;
pub use digest::Digest;
pub use erofs::ErofsBackend;
pub use generations::Generations;
pub use overlay::OverlayBackend;
