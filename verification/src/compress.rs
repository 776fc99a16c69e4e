//! Compression algorithm selection and settings.
//!
//! The streaming encoders and decoders themselves run in the command-line
//! application; this module decides which algorithm, level and thread count
//! they use.
use vstd::prelude::*;

use crate::text::{lit, str_eq};

verus! {

/// Errors that can occur during compression operations.
#[derive(Debug)]
pub enum CompressError {
    /// An I/O error occurred during compression.
    Io(std::io::Error),
    /// The requested compression algorithm is not supported.
    Unsupported(String),
}

/// Supported compression algorithms.
#[derive(Debug, Clone, Copy, PartialEq, Eq, Structural)]
pub enum Algorithm {
    /// Zstandard compression (multi-threaded).
    Zstd,
    /// Gzip compression.
    Gzip,
    /// XZ/LZMA2 compression (multi-threaded via liblzma).
    Xz,
    /// No compression (passthrough).
    Uncompressed,
}

/// The algorithm a configuration name denotes.
pub open spec fn algorithm_named(s: Seq<char>) -> Option<Algorithm> {
    if s == "zstd"@ {
        Some(Algorithm::Zstd)
    } else if s == "gzip"@ {
        Some(Algorithm::Gzip)
    } else if s == "xz"@ {
        Some(Algorithm::Xz)
    } else if s == "none"@ {
        Some(Algorithm::Uncompressed)
    } else {
        None
    }
}

/// File extension for archive members.
pub open spec fn algorithm_extension(a: Algorithm) -> Seq<char> {
    match a {
        Algorithm::Zstd => "zst"@,
        Algorithm::Gzip => "gz"@,
        Algorithm::Xz => "xz"@,
        Algorithm::Uncompressed => ""@,
    }
}

/// RPM `PAYLOADCOMPRESSOR` tag value.
pub open spec fn algorithm_rpm_tag(a: Algorithm) -> Seq<char> {
    match a {
        Algorithm::Zstd => "zstd"@,
        Algorithm::Gzip => "gzip"@,
        Algorithm::Xz => "xz"@,
        Algorithm::Uncompressed => "identity"@,
    }
}

impl Algorithm {
    /// Parse a compression algorithm name from a string.
    ///
    /// Accepts `"zstd"`, `"gzip"`, `"xz"`, and `"none"`.
    pub fn from_str(s: &str) -> (r: Result<Self, CompressError>)
        ensures
            match r {
                Ok(a) => algorithm_named(s@) == Some(a),
                Err(CompressError::Unsupported(name)) => algorithm_named(s@) is None && name@ == s@,
                Err(CompressError::Io(_)) => false,
            },
    {
        if str_eq(s, "zstd") {
            Ok(Algorithm::Zstd)
        } else if str_eq(s, "gzip") {
            Ok(Algorithm::Gzip)
        } else if str_eq(s, "xz") {
            Ok(Algorithm::Xz)
        } else if str_eq(s, "none") {
            Ok(Algorithm::Uncompressed)
        } else {
            Err(CompressError::Unsupported(lit(s)))
        }
    }

    /// File extension for archive members (e.g., `"zst"`, `"gz"`, `"xz"`).
    ///
    /// Returns an empty string for [`Algorithm::Uncompressed`].
    pub fn extension(&self) -> (r: &'static str)
        ensures
            r@ == algorithm_extension(*self),
    {
        match self {
            Algorithm::Zstd => "zst",
            Algorithm::Gzip => "gz",
            Algorithm::Xz => "xz",
            Algorithm::Uncompressed => "",
        }
    }

    /// RPM `PAYLOADCOMPRESSOR` tag value.
    pub fn rpm_tag(&self) -> (r: &'static str)
        ensures
            r@ == algorithm_rpm_tag(*self),
    {
        match self {
            Algorithm::Zstd => "zstd",
            Algorithm::Gzip => "gzip",
            Algorithm::Xz => "xz",
            Algorithm::Uncompressed => "identity",
        }
    }
}

/// Configuration for a compression operation.
pub struct CompressorConfig {
    /// Which algorithm to use.
    pub algorithm: Algorithm,
    /// Algorithm-specific compression level. `None` uses the algorithm default.
    pub level: Option<i32>,
    /// Thread count for algorithms that support it. `0` means auto-detect.
    pub threads: usize,
}

/// `num_cpus::get`: the number of logical CPUs available to this process,
/// which its documentation and source guarantee to be at least one.
#[verifier::external_body]
fn available_cpus() -> (n: usize)
    ensures
        n >= 1,
{
    num_cpus::get()
}

/// The level an algorithm uses when none is configured.
pub open spec fn default_level(a: Algorithm) -> i32 {
    match a {
        Algorithm::Zstd => 3,
        Algorithm::Gzip => 6,
        Algorithm::Xz => 6,
        Algorithm::Uncompressed => 0,
    }
}

impl CompressorConfig {
    /// Returns the effective thread count, resolving `0` to the number of logical CPUs.
    pub fn effective_threads(&self) -> (n: usize)
        ensures
            self.threads != 0 ==> n == self.threads,
            n >= 1,
    {
        if self.threads == 0 {
            available_cpus()
        } else {
            self.threads
        }
    }

    /// Returns the effective compression level, using algorithm defaults when unset.
    pub fn effective_level(&self) -> (l: i32)
        ensures
            l == match (self.algorithm, self.level) {
                (Algorithm::Uncompressed, _) => 0,
                (_, Some(x)) => x,
                (a, None) => default_level(a),
            },
    {
        match (self.algorithm, self.level) {
            (Algorithm::Zstd, Some(l)) => l,
            (Algorithm::Zstd, None) => 3,
            (Algorithm::Gzip, Some(l)) => l,
            (Algorithm::Gzip, None) => 6,
            (Algorithm::Xz, Some(l)) => l,
            (Algorithm::Xz, None) => 6,
            (Algorithm::Uncompressed, _) => 0,
        }
    }
}


/// The thread count of a multi-threaded xz encoder, where more than one
/// thread is asked for; a single-threaded encoder otherwise.
pub fn xz_threads(threads: usize) -> (r: Option<u32>)
    ensures
        r == if threads > 1 {
            Some(threads as u32)
        } else {
            None::<u32>
        },
{
    if threads > 1 {
        Some(#[verifier::truncate] (threads as u32))
    } else {
        None
    }
}

} // verus!
