//! Session variables around statement evaluation.

pub mod variables;
