//! Target distribution compatibility database.
//!
//! A fixed table of known Linux distributions and their packaging
//! capabilities, used for compatibility warnings and auto-dependency
//! injection.
use vstd::prelude::*;

use crate::text::{extend_str, framed, str_eq, string_from_chars};

verus! {

/// A known target distribution.
#[derive(Debug, Clone, Copy, PartialEq, Eq, Hash, Structural)]
pub enum Distro {
    El8,
    El9,
    Ubuntu2004,
    Ubuntu2204,
    Ubuntu2404,
    Fedora,
}

/// Capabilities of an RPM-based distribution.
#[derive(Debug, Clone)]
pub struct RpmDistroInfo {
    pub name: &'static str,
    pub rpm_version: &'static str,
    pub supports_zstd: bool,
    pub supports_large_files: bool,
    /// Package name for the alternatives tool dependency.
    pub alternatives_dep: &'static str,
}

/// Capabilities of a DEB-based distribution.
#[derive(Debug, Clone)]
pub struct DebDistroInfo {
    pub name: &'static str,
    pub dpkg_version: &'static str,
    pub supports_zstd: bool,
}

/// Distribution info classified by package format family.
pub enum DistroInfo {
    Rpm(RpmDistroInfo),
    Deb(DebDistroInfo),
}

/// The distribution a command-line identifier names.
pub open spec fn distro_named(s: Seq<char>) -> Option<Distro> {
    if s == "el8"@ || s == "rhel8"@ {
        Some(Distro::El8)
    } else if s == "el9"@ || s == "rhel9"@ {
        Some(Distro::El9)
    } else if s == "ubuntu2004"@ {
        Some(Distro::Ubuntu2004)
    } else if s == "ubuntu2204"@ {
        Some(Distro::Ubuntu2204)
    } else if s == "ubuntu2404"@ {
        Some(Distro::Ubuntu2404)
    } else if s == "fedora"@ {
        Some(Distro::Fedora)
    } else {
        None
    }
}

/// The database entry for an RPM-based distribution: name, rpm version and
/// alternatives dependency (both feature flags are set for every entry).
pub open spec fn rpm_entry(d: Distro) -> (Seq<char>, Seq<char>, Seq<char>) {
    match d {
        Distro::El8 => ("RHEL 8 / CentOS Stream 8"@, "4.14.3"@, "chkconfig"@),
        Distro::El9 => ("RHEL 9 / CentOS Stream 9"@, "4.16.1"@, "alternatives"@),
        _ => ("Fedora"@, "4.19"@, "alternatives"@),
    }
}

/// The database entry for a DEB-based distribution: name and dpkg version
/// (zstd is supported by every entry).
pub open spec fn deb_entry(d: Distro) -> (Seq<char>, Seq<char>) {
    match d {
        Distro::Ubuntu2004 => ("Ubuntu 20.04 LTS"@, "1.19.7"@),
        Distro::Ubuntu2204 => ("Ubuntu 22.04 LTS"@, "1.21.1"@),
        _ => ("Ubuntu 24.04 LTS"@, "1.22.6"@),
    }
}

/// Whether a distribution uses RPM packages.
pub open spec fn is_rpm_distro(d: Distro) -> bool {
    d == Distro::El8 || d == Distro::El9 || d == Distro::Fedora
}

/// The database entry, as [`Distro::info`] returns it.
pub open spec fn info_matches(d: Distro, i: DistroInfo) -> bool {
    match i {
        DistroInfo::Rpm(r) => {
            &&& is_rpm_distro(d)
            &&& (r.name@, r.rpm_version@, r.alternatives_dep@) == rpm_entry(d)
            &&& r.supports_zstd
            &&& r.supports_large_files
        },
        DistroInfo::Deb(b) => {
            &&& !is_rpm_distro(d)
            &&& (b.name@, b.dpkg_version@) == deb_entry(d)
            &&& b.supports_zstd
        },
    }
}

impl Distro {
    /// Parse a distro identifier from a CLI string.
    ///
    /// Accepts: `"el8"`, `"el9"`, `"ubuntu2004"`, `"ubuntu2204"`, `"ubuntu2404"`, `"fedora"`
    /// (and `"rhel8"`, `"rhel9"`).
    pub fn from_str(s: &str) -> (r: Option<Self>)
        ensures
            r == distro_named(s@),
    {
        if str_eq(s, "el8") || str_eq(s, "rhel8") {
            Some(Distro::El8)
        } else if str_eq(s, "el9") || str_eq(s, "rhel9") {
            Some(Distro::El9)
        } else if str_eq(s, "ubuntu2004") {
            Some(Distro::Ubuntu2004)
        } else if str_eq(s, "ubuntu2204") {
            Some(Distro::Ubuntu2204)
        } else if str_eq(s, "ubuntu2404") {
            Some(Distro::Ubuntu2404)
        } else if str_eq(s, "fedora") {
            Some(Distro::Fedora)
        } else {
            None
        }
    }

    /// Return the capability info for this distribution.
    pub fn info(&self) -> (i: DistroInfo)
        ensures
            info_matches(*self, i),
    {
        match self {
            Distro::El8 => DistroInfo::Rpm(
                RpmDistroInfo {
                    name: "RHEL 8 / CentOS Stream 8",
                    rpm_version: "4.14.3",
                    supports_zstd: true,
                    supports_large_files: true,
                    alternatives_dep: "chkconfig",
                },
            ),
            Distro::El9 => DistroInfo::Rpm(
                RpmDistroInfo {
                    name: "RHEL 9 / CentOS Stream 9",
                    rpm_version: "4.16.1",
                    supports_zstd: true,
                    supports_large_files: true,
                    alternatives_dep: "alternatives",
                },
            ),
            Distro::Fedora => DistroInfo::Rpm(
                RpmDistroInfo {
                    name: "Fedora",
                    rpm_version: "4.19",
                    supports_zstd: true,
                    supports_large_files: true,
                    alternatives_dep: "alternatives",
                },
            ),
            Distro::Ubuntu2004 => DistroInfo::Deb(
                DebDistroInfo {
                    name: "Ubuntu 20.04 LTS",
                    dpkg_version: "1.19.7",
                    supports_zstd: true,
                },
            ),
            Distro::Ubuntu2204 => DistroInfo::Deb(
                DebDistroInfo {
                    name: "Ubuntu 22.04 LTS",
                    dpkg_version: "1.21.1",
                    supports_zstd: true,
                },
            ),
            Distro::Ubuntu2404 => DistroInfo::Deb(
                DebDistroInfo {
                    name: "Ubuntu 24.04 LTS",
                    dpkg_version: "1.22.6",
                    supports_zstd: true,
                },
            ),
        }
    }
}

/// The views of a sequence of strings.
pub open spec fn warning_views(v: Seq<String>) -> Seq<Seq<char>> {
    v.map_values(|s: String| s@)
}

/// The warnings of [`check_compatibility`]. Every database entry supports
/// zstd and large files, so the only possible warning is a format mismatch.
pub open spec fn compatibility_warnings(d: Distro, format: Seq<char>) -> Seq<Seq<char>> {
    if is_rpm_distro(d) {
        if format == "deb"@ {
            seq!["target distro '"@ + rpm_entry(d).0 + "' is RPM-based but format is 'deb'"@]
        } else {
            seq![]
        }
    } else if format == "rpm"@ {
        seq!["target distro '"@ + deb_entry(d).0 + "' is DEB-based but format is 'rpm'"@]
    } else {
        seq![]
    }
}

fn framed_static(a: &str, x: &str, b: &str) -> (r: String)
    ensures
        r@ == a@ + x@ + b@,
{
    let mut v: Vec<char> = Vec::new();
    extend_str(&mut v, a);
    extend_str(&mut v, x);
    extend_str(&mut v, b);
    assert(v@ =~= a@ + x@ + b@);
    string_from_chars(&v)
}

/// Check compatibility between a configuration and a target distro.
///
/// Returns a list of warning messages. An empty list means fully compatible.
pub fn check_compatibility(
    distro: &Distro,
    compression_algo: &str,
    has_large_files: bool,
    format: &str,
) -> (warnings: Vec<String>)
    ensures
        warning_views(warnings@) == compatibility_warnings(*distro, format@),
{
    let mut warnings: Vec<String> = Vec::new();
    match distro.info() {
        DistroInfo::Rpm(info) => {
            if str_eq(format, "deb") {
                warnings.push(
                    framed_static("target distro '", info.name, "' is RPM-based but format is 'deb'"),
                );
            }
            if str_eq(compression_algo, "zstd") && !info.supports_zstd {
                let mut v: Vec<char> = Vec::new();
                extend_str(&mut v, "zstd compression not supported on ");
                extend_str(&mut v, info.name);
                extend_str(&mut v, " (rpm ");
                extend_str(&mut v, info.rpm_version);
                extend_str(&mut v, "); use gzip or xz");
                warnings.push(string_from_chars(&v));
            }
            if has_large_files && !info.supports_large_files {
                let mut v: Vec<char> = Vec::new();
                extend_str(&mut v, "files > 4 GiB not supported on ");
                extend_str(&mut v, info.name);
                extend_str(&mut v, " (rpm ");
                extend_str(&mut v, info.rpm_version);
                extend_str(&mut v, "); requires rpm >= 4.12");
                warnings.push(string_from_chars(&v));
            }
        },
        DistroInfo::Deb(info) => {
            if str_eq(format, "rpm") {
                warnings.push(
                    framed_static("target distro '", info.name, "' is DEB-based but format is 'rpm'"),
                );
            }
            if str_eq(compression_algo, "zstd") && !info.supports_zstd {
                let mut v: Vec<char> = Vec::new();
                extend_str(&mut v, "zstd compression not supported on ");
                extend_str(&mut v, info.name);
                extend_str(&mut v, " (dpkg ");
                extend_str(&mut v, info.dpkg_version);
                extend_str(&mut v, ")");
                warnings.push(string_from_chars(&v));
            }
        },
    }
    assert(warning_views(warnings@) =~= compatibility_warnings(*distro, format@));
    warnings
}

/// Minimum rpm version and its reason, as [`minimum_rpm_version`] returns them.
pub open spec fn min_rpm_version(algo: Seq<char>, large: bool) -> (Seq<char>, Seq<char>) {
    if algo == "zstd"@ {
        if large {
            ("4.14.0"@, "zstd compression + large files"@)
        } else {
            ("4.14.0"@, "zstd compression"@)
        }
    } else if algo == "xz"@ {
        if large {
            ("4.12.0"@, "xz compression + large files"@)
        } else {
            ("4.7.0"@, "xz compression"@)
        }
    } else if large {
        ("4.12.0"@, "large files"@)
    } else {
        ("4.6.0"@, "baseline"@)
    }
}

/// Return the minimum RPM version required for the given configuration.
///
/// Returns `(version, reason)` for display in `spm plan` output.
pub fn minimum_rpm_version(algo: &str, has_large_files: bool, needs_extended_cpio: bool) -> (r: (
    &'static str,
    &'static str,
))
    ensures
        (r.0@, r.1@) == min_rpm_version(algo@, has_large_files || needs_extended_cpio),
{
    let large = has_large_files || needs_extended_cpio;
    if str_eq(algo, "zstd") {
        if large {
            ("4.14.0", "zstd compression + large files")
        } else {
            ("4.14.0", "zstd compression")
        }
    } else if str_eq(algo, "xz") {
        if large {
            ("4.12.0", "xz compression + large files")
        } else {
            ("4.7.0", "xz compression")
        }
    } else if large {
        ("4.12.0", "large files")
    } else {
        ("4.6.0", "baseline")
    }
}

/// Minimum dpkg version and its reason, as [`minimum_dpkg_version`] returns them.
pub open spec fn min_dpkg_version(algo: Seq<char>) -> (Seq<char>, Seq<char>) {
    if algo == "zstd"@ {
        ("1.21.18"@, "zstd compression"@)
    } else if algo == "xz"@ {
        ("1.15.0"@, "xz compression"@)
    } else {
        ("1.0.0"@, "baseline"@)
    }
}

/// Return the minimum dpkg version required for the given compression algorithm.
///
/// Returns `(version, reason)` for display in `spm plan` output.
pub fn minimum_dpkg_version(algo: &str) -> (r: (&'static str, &'static str))
    ensures
        (r.0@, r.1@) == min_dpkg_version(algo@),
{
    if str_eq(algo, "zstd") {
        ("1.21.18", "zstd compression")
    } else if str_eq(algo, "xz") {
        ("1.15.0", "xz compression")
    } else {
        ("1.0.0", "baseline")
    }
}

} // verus!
