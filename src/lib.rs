//! An embedded key-value store that keeps scalar entries and list entries of
//! JSON payloads in memory and decides when the whole store is dumped.

pub mod codec;
pub mod db;
pub mod entries;
pub mod policy;
pub mod table;

pub use db::{LoadError, PickleDb};
pub use policy::PickleDbDumpPolicy;
