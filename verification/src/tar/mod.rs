//! Turning a tar stream into a commit.

pub mod filter;
pub mod path;
pub mod tally;
pub mod write;
