//! Verified core of a file-tree synchronization service.
//!
//! The library holds the in-memory folder/file index with its
//! soft-delete and size-aggregation rules, the wire codec for the
//! control-message family and the raw-framed upload message, the
//! hash-and-compress pipeline for uploaded payloads, and the packet
//! handlers that map inbound messages to store operations.  All I/O
//! (sockets, snapshot files, compressed artifacts on disk) stays with
//! the embedding application, which hands the library plain values.

pub mod admin_panel;
pub mod backend;
pub mod codec;
pub mod db;
pub mod file;
pub mod file_updater;
pub mod log_holder;
pub mod packet_handler;
pub mod paths;
pub mod pipeline;
