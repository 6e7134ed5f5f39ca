//! The core of a bitrot detector: it enumerates the files of a directory
//! tree, computes a SHA-256 digest of each, and says how the digests are
//! recorded in a store run by run and reported from it.
//!
//! The library performs no input or output. Its caller reads directories and
//! files and runs the statements on the store; the library decides what is
//! read and run, and what the answers mean.

pub mod check;
pub mod hash;
pub mod report;
pub mod store;
pub mod tree;
pub mod walk;
