//! Stream-port broker core: packet reordering, ingest decisions and port
//! bookkeeping, with machine-checked contracts.

pub mod config;
pub mod handler;
pub mod packet;
pub mod reorder;
pub mod service;
pub mod worker;
