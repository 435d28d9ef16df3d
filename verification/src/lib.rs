//! A longitudinal compiler-performance harness: for a fixed catalog of sample
//! projects it measures build durations and artifact sizes across an ordered
//! range of toolchain versions, and accumulates the results into a resumable,
//! host-scoped record store.
//!
//! This crate holds the verified core: the toolchain version catalog, the
//! duration parser for the build tool's summary line, the benchmark protocol's
//! stage sequencing, the per-repo profile record with its resumability logic,
//! and the host-scoped result store with its textual encoding. Process
//! spawning, filesystem access and logging live outside the library and talk
//! to it through plain values.

pub mod assoc;
pub mod cargo;
pub mod codec;
pub mod duration;
pub mod profile;
pub mod protocol;
pub mod repo;
pub mod store;
pub mod system;
pub mod rustup;
pub mod text;

pub use rustup::Version;
