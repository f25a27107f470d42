//! The in-memory core of a store of fixed-width binary vectors: a column of
//! vectors held as chunks, searches for the nearest vectors and for those
//! within a radius by Hamming distance, and the rules by which readers, a
//! writer and an appender share one byte buffer.
pub mod config;
pub mod error;
pub mod faiss;
pub mod indexing;
pub mod intake;
pub mod store;
