//! The change-feed pipeline: buffering writes, reading changes back in
//! commit order, and collecting garbage below a watermark.

pub mod gc;
pub mod reader;
pub mod writer;
