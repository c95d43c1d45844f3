//! Control plane of a device-under-test harness: a wear-levelled
//! configuration store, a small sequencing language that drives the
//! control lines under an electrical safety rule, and the per-category
//! mailbox that hands requests from producers to one safe apply point.

pub mod bytes;
pub mod config;
pub mod ctlpins;
pub mod storage;
pub mod control;
pub mod version;
pub mod shell;
pub mod serial;
pub mod usbserial;
