//! Bookkeeping core of a serial-port bridge: the registry of open ports, the
//! decisions of the per-port reader task, and the presentation of detected
//! ports. Device access, threads and event delivery belong to the caller;
//! this crate decides what is to be done and says so in its contracts.

pub mod commands;
pub mod errors;
pub mod listing;
pub mod pattern;
pub mod reader;
pub mod reassembly;
pub mod registry;
pub mod text;
pub mod types;
