//! A layered ("overlay") virtual filesystem for game content.
//!
//! Content is resolved against an ordered list of layers: plain folders,
//! UPKF archives (a custom container with per-entry compression and
//! integrity checks) and read-only VPK archives. Callers ask for a path
//! and receive a file handle without knowing which backend holds it.

pub mod cmdline;
pub mod color;
pub mod compression;
pub mod digest;
pub mod layered;
pub mod strutil;
pub mod types;
pub mod upkf;
pub mod vpk;
pub mod wire;
