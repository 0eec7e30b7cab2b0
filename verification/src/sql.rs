//! The value model and statement types that the change feed records and
//! serves.

pub mod changefeed;
pub mod convert;
pub mod fmt;
pub mod merge;
pub mod number;
pub mod operation;
pub mod ops;
pub mod order;
pub mod parse;
pub mod part;
pub mod value_paths;
pub mod fetch;
pub mod split;
pub mod statements;
pub mod value;
