//! A software transactional-memory engine for persistent memory.
//!
//! The engine provides serializable, crash-durable transactions over
//! fixed-layout records whose authoritative copy is mirrored in a
//! byte-addressable persistent region and recovered from a redo log.
//! Concurrency control is optimistic (OCC) or wait-die two-phase
//! locking (2PL), both over a single per-record version word; a
//! pipelined ParOCC mode commits piecewise under explicit dependency
//! tracking.
//!
//! The library models the engine's state explicitly: version words,
//! records, tables, the redo log and the persistent region are plain
//! verified data, and every protocol step is a function with a
//! contract. Thread scheduling, spinning and the actual non-volatile
//! mapping are left to the embedding program, which drives the step
//! functions in a loop.

pub mod counter;
pub mod lock;
pub mod tcore;
pub mod occ;
pub mod parnvm;
pub mod plog;
pub mod table;
pub mod tbox;
pub mod txn;
