//! RPM packages: the lead, the header sections, tag numbers and the pieces
//! of package building that decide what goes into the headers.
use vstd::prelude::*;

pub mod builder;
pub mod header;
pub mod lead;
pub mod reader;
pub mod readback;
pub mod signature;
pub mod tags;

verus! {

/// Errors that can occur during RPM package building.
#[derive(Debug)]
pub enum RpmError {
    /// An I/O error occurred.
    Io(std::io::Error),
    /// A CPIO archive error occurred.
    Cpio(crate::cpio::CpioError),
    /// A compression error occurred.
    Compress(crate::compress::CompressError),
    /// Failed to open a source file referenced in the package plan.
    SourceFile { path: String, source: std::io::Error },
    /// Error constructing the RPM header.
    Header(String),
    /// The RPM file or header is not well formed.
    InvalidRpm(String),
}

} // verus!
