//! Decisions of the command-line front end: which target distribution and
//! which package formats a run covers, and how counts are shown.
use vstd::prelude::*;

use crate::compress::{algorithm_named, Algorithm};
use crate::config::{BuildConfig, Config};
use crate::distro::{distro_named, Distro};
use crate::text::{decimal, extend_chars, extend_str, lit, push_decimal, str_eq, string_from_chars, sub_chars};

verus! {

/// The message for an unknown `--target-distro` value.
pub open spec fn unknown_distro_message(s: Seq<char>) -> Seq<char> {
    "unknown target distro '"@ + s
        + "'; expected one of: el8, el9, ubuntu2004, ubuntu2204, ubuntu2404, fedora"@
}

/// Parse --target-distro flag value into a Distro.
pub fn parse_target_distro(target_distro: Option<&str>) -> (r: Result<Option<Distro>, String>)
    ensures
        match target_distro {
            None => r == Ok::<Option<Distro>, String>(None),
            Some(s) => match distro_named(s@) {
                Some(d) => r == Ok::<Option<Distro>, String>(Some(d)),
                None => r matches Err(m) && m@ == unknown_distro_message(s@),
            },
        },
{
    match target_distro {
        Some(s) => match Distro::from_str(s) {
            Some(d) => Ok(Some(d)),
            None => {
                let mut v: Vec<char> = Vec::new();
                extend_str(&mut v, "unknown target distro '");
                extend_str(&mut v, s);
                extend_str(
                    &mut v,
                    "'; expected one of: el8, el9, ubuntu2004, ubuntu2204, ubuntu2404, fedora",
                );
                Err(string_from_chars(&v))
            },
        },
        None => Ok(None),
    }
}

/// The formats a `--format` value stands for.
pub open spec fn formats_named(f: Seq<char>) -> Option<Seq<Seq<char>>> {
    if f == "all"@ {
        Some(seq!["rpm"@, "deb"@])
    } else if f == "rpm"@ {
        Some(seq!["rpm"@])
    } else if f == "deb"@ {
        Some(seq!["deb"@])
    } else {
        None
    }
}

/// Return the formats to iterate over, given the --format flag value.
pub fn resolve_formats(format: &str) -> (r: Result<Vec<&'static str>, String>)
    ensures
        match formats_named(format@) {
            Some(fs) => r matches Ok(v) && v@.map_values(|s: &str| s@) == fs,
            None => r matches Err(m) && m@ == "unsupported format '"@ + format@
                + "', expected 'rpm', 'deb', or 'all'"@,
        },
{
    let mut v: Vec<&'static str> = Vec::new();
    if str_eq(format, "all") {
        v.push("rpm");
        v.push("deb");
        assert(v@.map_values(|s: &str| s@) =~= seq!["rpm"@, "deb"@]);
        Ok(v)
    } else if str_eq(format, "rpm") {
        v.push("rpm");
        assert(v@.map_values(|s: &str| s@) =~= seq!["rpm"@]);
        Ok(v)
    } else if str_eq(format, "deb") {
        v.push("deb");
        assert(v@.map_values(|s: &str| s@) =~= seq!["deb"@]);
        Ok(v)
    } else {
        let mut m: Vec<char> = Vec::new();
        extend_str(&mut m, "unsupported format '");
        extend_str(&mut m, format);
        extend_str(&mut m, "', expected 'rpm', 'deb', or 'all'");
        Err(string_from_chars(&m))
    }
}

/// Digits grouped in threes from the right, separated by commas.
pub open spec fn comma_grouped(d: Seq<char>) -> Seq<char>
    decreases d.len(),
{
    if d.len() <= 3 {
        d
    } else {
        comma_grouped(d.take(d.len() - 3)) + ","@ + d.skip(d.len() - 3)
    }
}

fn group_prefix(d: &Vec<char>, n: usize) -> (r: Vec<char>)
    requires
        n <= d.len(),
    ensures
        r@ == comma_grouped(d@.take(n as int)),
    decreases n,
{
    if n <= 3 {
        sub_chars(d, 0, n)
    } else {
        let mut r = group_prefix(d, n - 3);
        extend_str(&mut r, ",");
        let tail = sub_chars(d, n - 3, n);
        extend_chars(&mut r, &tail);
        assert(d@.take(n as int).take(n - 3) =~= d@.take(n - 3));
        assert(d@.take(n as int).skip(n - 3) =~= d@.subrange(n - 3, n as int));
        r
    }
}

/// Format a file count with comma separators.
pub fn format_file_count(count: usize) -> (r: String)
    ensures
        r@ == comma_grouped(decimal(count as nat)),
{
    let mut d: Vec<char> = Vec::new();
    push_decimal(&mut d, count as u64);
    assert(d@ =~= decimal(count as nat));
    let g = group_prefix(&d, d.len());
    assert(d@.take(d.len() as int) =~= d@);
    string_from_chars(&g)
}

/// The message for an unsupported `--compression` value.
pub open spec fn unsupported_algorithm_message(a: Seq<char>) -> Seq<char> {
    "unsupported compression algorithm '"@ + a + "'; expected 'zstd', 'gzip', 'xz', or 'none'"@
}

/// Apply the command-line overrides to a config: `--no-split` turns
/// splitting off; a source date epoch (from the flag, else the
/// environment) replaces the configured one; a compression algorithm,
/// which must be one the compressor knows, a level and a thread count
/// replace the configured ones. Everything else is kept. An unknown
/// algorithm is refused before the compression settings are touched.
pub fn apply_overrides(
    config: &mut Config,
    no_split: bool,
    source_date_epoch: Option<String>,
    compression: Option<&str>,
    compression_level: Option<i32>,
    threads: Option<usize>,
) -> (r: Result<(), String>)
    ensures
        r is Err <==> (compression matches Some(a) && algorithm_named(a@) is None),
        r matches Err(m) ==> (compression matches Some(a) && m@ == unsupported_algorithm_message(a@)),
        final(config).package == old(config).package,
        final(config).content == old(config).content,
        final(config).scripts == old(config).scripts,
        final(config).signing == old(config).signing,
        final(config).rpm == old(config).rpm,
        final(config).deb == old(config).deb,
        final(config).splitting.enabled == (old(config).splitting.enabled && !no_split),
        final(config).splitting.strategy == old(config).splitting.strategy,
        final(config).splitting.max_size == old(config).splitting.max_size,
        final(config).splitting.parts == old(config).splitting.parts,
        final(config).build == match source_date_epoch {
            Some(e) => Some(BuildConfig { source_date_epoch: Some(e) }),
            None => old(config).build,
        },
        r is Err ==> final(config).compression == old(config).compression,
        r is Ok ==> {
            &&& final(config).compression.algorithm@ == match compression {
                Some(a) => a@,
                None => old(config).compression.algorithm@,
            }
            &&& final(config).compression.level == match compression_level {
                Some(l) => Some(l),
                None => old(config).compression.level,
            }
            &&& final(config).compression.threads == match threads {
                Some(t) => Some(t),
                None => old(config).compression.threads,
            }
        },
{
    if no_split {
        config.splitting.enabled = false;
    }
    match source_date_epoch {
        Some(e) => {
            config.build = Some(BuildConfig { source_date_epoch: Some(e) });
        },
        None => {},
    }
    match compression {
        Some(a) => {
            match Algorithm::from_str(a) {
                Ok(_) => {},
                Err(_) => {
                    let mut v: Vec<char> = Vec::new();
                    extend_str(&mut v, "unsupported compression algorithm '");
                    extend_str(&mut v, a);
                    extend_str(&mut v, "'; expected 'zstd', 'gzip', 'xz', or 'none'");
                    return Err(string_from_chars(&v));
                },
            }
            config.compression.algorithm = lit(a);
        },
        None => {},
    }
    match compression_level {
        Some(l) => {
            config.compression.level = Some(l);
        },
        None => {},
    }
    match threads {
        Some(t) => {
            config.compression.threads = Some(t);
        },
        None => {},
    }
    Ok(())
}

} // verus!
