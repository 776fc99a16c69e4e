//! DEB packages: the ar container, the control metadata, and reading the
//! control file of an existing package.
use vstd::prelude::*;

pub mod ar;
pub mod builder;
pub mod control;
pub mod reader;

verus! {

/// Errors that can occur during DEB package building.
#[derive(Debug)]
pub enum DebError {
    /// An I/O error occurred.
    Io(std::io::Error),
    /// A compression error occurred.
    Compress(crate::compress::CompressError),
    /// Failed to open a source file referenced in the package plan.
    SourceFile { path: String, source: std::io::Error },
    /// Error writing the ar archive.
    Archive(String),
    /// Error writing the tar archive.
    Tar(String),
    /// Error generating control data.
    Control(String),
    /// Invalid DEB file structure.
    InvalidDeb(String),
}

} // verus!
