//! A small file-backed key-value database.
//!
//! Pairs of strings are kept in memory in insertion order and persisted as a
//! binary length-prefixed file. Every operation that touches the disk is
//! driven as a sequence of requests (see `shrub::Action`) answered by the
//! caller (see `shrub::Event`), so that the decisions are verified here and the
//! file system is reached only by the code that embeds the library.
pub mod text;
pub mod codec;
pub mod file_manip;
pub mod shrub;
pub mod laws;
