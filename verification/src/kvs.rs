//! The storage layer: the ordered store model and the definition cache.

pub mod cache;
pub mod store;
