//! Reader for the on-disk table format of a legacy desktop database engine:
//! the table header, the field descriptor table, the sign-biased value
//! encodings, blob indirection into a side file, and the chain of data blocks.

pub mod blob;
pub mod convert;
pub mod cursor;
pub mod parse;
pub mod types;
