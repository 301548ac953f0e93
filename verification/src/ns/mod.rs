//! namespace registry: build a layer's namespace once, persist it to disk,
//! enter it later with no daemon round trip

pub mod pin;
pub mod reg;

pub use reg::Registry;
