//! spm: building blocks of a large-file-aware RPM and DEB package builder.
use vstd::prelude::*;

pub mod alternatives;
pub mod binary64;
pub mod cli;
pub mod bytes;
pub mod compress;
pub mod config;
pub mod deb;
pub mod cpio;
pub mod deps;
pub mod distro;
pub mod filetree;
pub mod hashing;
pub mod io;
pub mod mapping;
pub mod paths;
pub mod planner;
pub mod progress;
pub mod report;
pub mod rpm;
pub mod text;
pub mod types;

verus! {

} // verus!
