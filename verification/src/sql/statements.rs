//! The thin statement surface over the change feed.

pub mod set;
pub mod show;
