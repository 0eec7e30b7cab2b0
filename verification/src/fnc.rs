//! The function surface over the value model.

pub mod array;
pub mod crypto;
pub mod future;
pub mod math;
pub mod operate;
pub mod session;
pub mod string;
pub mod typ;
