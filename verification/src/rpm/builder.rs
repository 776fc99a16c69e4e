//! What goes into the metadata header of an RPM package.
//!
//! The build itself streams files through the CPIO writer and the
//! compressor and hashes them; this module decides the header contents:
//! the package identity tags, the per-file arrays, the dependency lists and
//! the scripts, each appended to a [`HeaderBuilder`] in a fixed order.
use vstd::prelude::*;

use crate::alternatives::ResolvedScripts;
use crate::bytes::utf8;
use crate::compress::{algorithm_rpm_tag, Algorithm};
use crate::config::{configured_epoch, epoch_setting, Config};
use crate::cpio::{CpioFormat, CpioMetadata};
use crate::deps::strings_view;
use crate::io::{secs_since_epoch, system_now};
use crate::distro::{is_rpm_distro, rpm_entry, Distro, DistroInfo};
use crate::filetree::{EntryType, FileEntry};
use crate::paths::{comps_eq, path_comps, path_comps_exec, path_file_name, path_parent, std_file_name, std_parent};
use crate::planner::{PackagePlan, SubPackage, SubPackageRole};
use crate::rpm::header::{build_view, header_bytes, region_trailer, EntryView, HeaderBuilder, TagData};
use crate::rpm::tags::{
    PGPHASHALGO_SHA256, RPMTAG_HEADERIMMUTABLE, RPMFILE_CONFIG, RPMFILE_NOREPLACE, RPMVERIFY_ALL, RPMTAG_BASENAMES,
    RPMTAG_DIRINDEXES, RPMTAG_DIRNAMES, RPMTAG_FILECLASS, RPMTAG_FILECOLORS, RPMTAG_FILEDEVICES,
    RPMTAG_FILEDIGESTALGO, RPMTAG_FILEDIGESTS, RPMTAG_FILEFLAGS, RPMTAG_FILEGROUPNAME,
    RPMTAG_FILEINODES, RPMTAG_FILELANGS, RPMTAG_FILELINKTOS, RPMTAG_FILEMODES, RPMTAG_FILEMTIMES,
    RPMTAG_FILERDEVS, RPMTAG_FILESIZES, RPMTAG_FILEUSERNAME, RPMTAG_FILEVERIFYFLAGS,
    RPMTAG_LONGFILESIZES,
    RPMSENSE_ANY, RPMSENSE_EQUAL, RPMSENSE_GREATER, RPMSENSE_LESS, RPMSENSE_RPMLIB,
    RPMTAG_CONFLICTFLAGS, RPMTAG_CONFLICTNAME, RPMTAG_CONFLICTVERSION, RPMTAG_OBSOLETEFLAGS,
    RPMTAG_OBSOLETENAME, RPMTAG_OBSOLETEVERSION, RPMTAG_PROVIDEFLAGS, RPMTAG_PROVIDENAME,
    RPMTAG_PROVIDEVERSION, RPMTAG_REQUIREFLAGS, RPMTAG_REQUIRENAME, RPMTAG_REQUIREVERSION,
    RPMTAG_ARCH, RPMTAG_BUILDHOST, RPMTAG_BUILDTIME, RPMTAG_DESCRIPTION, RPMTAG_ENCODING,
    RPMTAG_GROUP, RPMTAG_LICENSE, RPMTAG_LONGSIZE, RPMTAG_NAME, RPMTAG_OPTFLAGS, RPMTAG_OS,
    RPMTAG_PACKAGER, RPMTAG_PAYLOADCOMPRESSOR, RPMTAG_PAYLOADFLAGS, RPMTAG_PAYLOADFORMAT,
    RPMTAG_RELEASE, RPMTAG_RPMVERSION, RPMTAG_SIZE, RPMTAG_SOURCERPM, RPMTAG_SUMMARY,
    RPMTAG_URL, RPMTAG_VENDOR, RPMTAG_VERSION, RPMTAG_POSTIN,
    RPMTAG_POSTINPROG, RPMTAG_POSTTRANS, RPMTAG_POSTTRANSPROG, RPMTAG_POSTUN, RPMTAG_POSTUNPROG,
    RPMTAG_PREIN, RPMTAG_PREINPROG, RPMTAG_PRETRANS, RPMTAG_PRETRANSPROG, RPMTAG_PREUN,
    RPMTAG_PREUNPROG,
};
use crate::rpm::RpmError;
use crate::text::{
    chars_eq_str, chars_of, decimal, push_decimal, push_signed_decimal, signed_decimal, extend_chars, extend_str, find_char, find_char_exec, lit,
    str_eq, string_from_chars, sub_chars, vviews,
};

verus! {

/// Builds RPM packages from package plans.
pub struct RpmBuilder;

// ---------------------------------------------------------------------------
// Dependency strings
// ---------------------------------------------------------------------------

/// The RPMSENSE flags of a comparison operator (`ANY` for anything else).
pub open spec fn op_flags(op: Seq<char>) -> i32 {
    if op == ">="@ {
        (RPMSENSE_GREATER | RPMSENSE_EQUAL) as i32
    } else if op == "<="@ {
        (RPMSENSE_LESS | RPMSENSE_EQUAL) as i32
    } else if op == ">"@ {
        RPMSENSE_GREATER as i32
    } else if op == "<"@ {
        RPMSENSE_LESS as i32
    } else if op == "="@ || op == "=="@ {
        RPMSENSE_EQUAL as i32
    } else {
        RPMSENSE_ANY as i32
    }
}

/// A dependency string split at its first two spaces into name, operator
/// and version (the version keeps any further spaces). With fewer than two
/// spaces the whole string is the name, with no version and no flags.
pub open spec fn dependency_parts(dep: Seq<char>) -> (Seq<char>, Seq<char>, i32) {
    match find_char(dep, ' ') {
        None => (dep, seq![], RPMSENSE_ANY as i32),
        Some(i) => {
            let rest = dep.skip(i + 1);
            match find_char(rest, ' ') {
                None => (dep, seq![], RPMSENSE_ANY as i32),
                Some(j) => (dep.take(i), rest.skip(j + 1), op_flags(rest.take(j))),
            }
        },
    }
}

fn op_flags_exec(op: &Vec<char>) -> (r: i32)
    ensures
        r == op_flags(op@),
{
    if chars_eq_str(op, ">=") {
        (RPMSENSE_GREATER | RPMSENSE_EQUAL) as i32
    } else if chars_eq_str(op, "<=") {
        (RPMSENSE_LESS | RPMSENSE_EQUAL) as i32
    } else if chars_eq_str(op, ">") {
        RPMSENSE_GREATER as i32
    } else if chars_eq_str(op, "<") {
        RPMSENSE_LESS as i32
    } else if chars_eq_str(op, "=") || chars_eq_str(op, "==") {
        RPMSENSE_EQUAL as i32
    } else {
        RPMSENSE_ANY as i32
    }
}

/// Parse a dependency string like `"libfoo >= 1.0"` into (name, version, flags).
pub fn parse_dependency(dep: &str) -> (r: (String, String, i32))
    ensures
        (r.0@, r.1@, r.2) == dependency_parts(dep@),
{
    let v = chars_of(dep);
    match find_char_exec(&v, ' ') {
        None => (lit(dep), String::new(), RPMSENSE_ANY as i32),
        Some(i) => {
            let rest = sub_chars(&v, i + 1, v.len());
            assert(rest@ =~= v@.skip(i + 1));
            match find_char_exec(&rest, ' ') {
                None => (lit(dep), String::new(), RPMSENSE_ANY as i32),
                Some(j) => {
                    let name = sub_chars(&v, 0, i);
                    let op = sub_chars(&rest, 0, j);
                    let version = sub_chars(&rest, j + 1, rest.len());
                    assert(name@ =~= v@.take(i as int));
                    assert(op@ =~= rest@.take(j as int));
                    assert(version@ =~= rest@.skip(j + 1));
                    let flags = op_flags_exec(&op);
                    (string_from_chars(&name), string_from_chars(&version), flags)
                },
            }
        },
    }
}

// ---------------------------------------------------------------------------
// Per-file values
// ---------------------------------------------------------------------------

/// A Unix time clamped to `i32::MAX` (2038-01-19), since RPM stores INT32.
pub open spec fn clamped_timestamp(secs: u64) -> i32 {
    if secs > i32::MAX {
        i32::MAX
    } else {
        secs as i32
    }
}

/// Clamp a Unix timestamp to i32::MAX (2038-01-19) since RPM uses INT32.
pub fn clamp_timestamp(secs: u64) -> (r: i32)
    ensures
        r == clamped_timestamp(secs),
{
    if secs > i32::MAX as u64 {
        i32::MAX
    } else {
        secs as i32
    }
}

/// The file-type bits of an entry's mode: regular file (hard links too),
/// directory or symbolic link.
pub open spec fn type_bits(t: EntryType) -> u32 {
    match t {
        EntryType::RegularFile => 0o100000,
        EntryType::Hardlink { .. } => 0o100000,
        EntryType::Directory => 0o040000,
        EntryType::Symlink { .. } => 0o120000,
    }
}

/// The full mode: the type bits over the permission bits of the entry.
pub open spec fn mode_with_type(e: FileEntry) -> u32 {
    type_bits(e.entry_type) | (e.mode & 0o7777)
}

/// Compute the full mode value including file type bits.
pub fn file_mode_with_type(entry: &FileEntry) -> (r: u32)
    ensures
        r == mode_with_type(*entry),
        r == type_bits(entry.entry_type) + entry.mode % 4096,
{
    let type_bits: u32 = match &entry.entry_type {
        EntryType::RegularFile => 0o100000,
        EntryType::Hardlink { .. } => 0o100000,
        EntryType::Directory => 0o040000,
        EntryType::Symlink { .. } => 0o120000,
    };
    let m = entry.mode;
    assert((type_bits | (m & 0o7777)) == type_bits + m % 4096) by (bit_vector)
        requires
            type_bits == 0o100000u32 || type_bits == 0o040000u32 || type_bits == 0o120000u32,
    ;
    type_bits | (m & 0o7777)
}

/// The name of an entry in the CPIO payload: for the newc format the
/// install path behind `.` (or `./` when it does not start with `/`), for
/// the extended format the path itself.
pub open spec fn cpio_name(path: Seq<char>, format: CpioFormat) -> Seq<char> {
    match format {
        CpioFormat::Newc => if path.len() > 0 && path[0] == '/' {
            "."@ + path
        } else {
            "./"@ + path
        },
        CpioFormat::Extended => path,
    }
}

/// Create the cpio name for an entry.
///
/// For Newc format, paths are prefixed with `./` as RPM convention.
/// For Extended format, the name is ignored (index-based), but we pass it anyway.
pub fn make_cpio_name(install_path: &str, format: CpioFormat) -> (r: String)
    ensures
        r@ == cpio_name(install_path@, format),
{
    let p = chars_of(install_path);
    match format {
        CpioFormat::Newc => {
            let mut out: Vec<char> = Vec::new();
            if p.len() > 0 && p[0] == '/' {
                extend_str(&mut out, ".");
            } else {
                extend_str(&mut out, "./");
            }
            extend_chars(&mut out, &p);
            string_from_chars(&out)
        },
        CpioFormat::Extended => lit(install_path),
    }
}

// ---------------------------------------------------------------------------
// Directory and base names
// ---------------------------------------------------------------------------

/// The directory (ending in `/`) and the base name of an install path: the
/// parent with a `/` added when it lacks one, and the file name (empty when
/// there is none); a path with no parent is its own base name under `/`.
pub open spec fn dir_and_base(p: Seq<char>) -> (Seq<char>, Seq<char>) {
    match std_parent(p) {
        Some(d) => (
            if d.len() > 0 && d.last() == '/' { d } else { d.push('/') },
            match std_file_name(p) {
                Some(b) => b,
                None => seq![],
            },
        ),
        None => ("/"@, p),
    }
}

/// The distinct strings of `ds`, each where it first occurs.
pub open spec fn first_seen(ds: Seq<Seq<char>>) -> Seq<Seq<char>>
    decreases ds.len(),
{
    if ds.len() == 0 {
        seq![]
    } else {
        let p = first_seen(ds.drop_last());
        if p.contains(ds.last()) {
            p
        } else {
            p.push(ds.last())
        }
    }
}

/// No string occurs twice.
pub open spec fn no_dups(ds: Seq<Seq<char>>) -> bool {
    forall|i: int, j: int| 0 <= i < j < ds.len() ==> ds[i] != ds[j]
}

/// Every directory is listed once, and each listed one occurs in `ds`.
pub proof fn lemma_first_seen(ds: Seq<Seq<char>>)
    ensures
        no_dups(first_seen(ds)),
        forall|k: int| 0 <= k < ds.len() ==> first_seen(ds).contains(#[trigger] ds[k]),
        forall|k: int| 0 <= k < first_seen(ds).len() ==> ds.contains(#[trigger] first_seen(ds)[k]),
        first_seen(ds).len() <= ds.len(),
    decreases ds.len(),
{
    if ds.len() > 0 {
        let q = ds.drop_last();
        lemma_first_seen(q);
        let p = first_seen(q);
        assert forall|k: int| 0 <= k < ds.len() implies first_seen(ds).contains(#[trigger] ds[k]) by {
            if k < ds.len() - 1 {
                assert(q[k] == ds[k]);
                assert(p.contains(q[k]));
                if !p.contains(ds.last()) {
                    let w = choose|w: int| 0 <= w < p.len() && p[w] == q[k];
                    assert(p.push(ds.last())[w] == ds[k]);
                }
            } else {
                if !p.contains(ds.last()) {
                    assert(p.push(ds.last())[p.len() as int] == ds[k]);
                }
            }
        }
        assert forall|k: int| 0 <= k < first_seen(ds).len() implies ds.contains(
            #[trigger] first_seen(ds)[k],
        ) by {
            if k < p.len() {
                assert(first_seen(ds)[k] == p[k]);
                assert(q.contains(p[k]));
                let w = choose|w: int| 0 <= w < q.len() && q[w] == p[k];
                assert(ds[w] == p[k]);
            } else {
                assert(ds[ds.len() - 1] == ds.last());
            }
        }
    }
}

/// Base names, the distinct directories in order of first appearance, and
/// for each entry the position of its directory in that list.
pub fn group_by_dir(pairs: &Vec<(String, String)>) -> (r: (Vec<String>, Vec<String>, Vec<i32>))
    requires
        pairs.len() <= i32::MAX,
    ensures
        strings_view(r.0@) == pairs@.map_values(|p: (String, String)| p.1@),
        strings_view(r.1@) == first_seen(pairs@.map_values(|p: (String, String)| p.0@)),
        no_dups(strings_view(r.1@)),
        r.2@.len() == pairs@.len(),
        forall|k: int|
            0 <= k < pairs@.len() ==> 0 <= #[trigger] r.2@[k] < r.1@.len() && r.1@[r.2@[k] as int]@
                == pairs@[k].0@,
{
    let ghost ds = pairs@.map_values(|p: (String, String)| p.0@);
    let mut bases: Vec<String> = Vec::new();
    let mut dirs: Vec<String> = Vec::new();
    let mut idx: Vec<i32> = Vec::new();
    let mut i: usize = 0;
    while i < pairs.len()
        invariant
            i <= pairs.len() <= i32::MAX,
            ds == pairs@.map_values(|p: (String, String)| p.0@),
            strings_view(bases@) == pairs@.take(i as int).map_values(|p: (String, String)| p.1@),
            strings_view(dirs@) == first_seen(ds.take(i as int)),
            idx@.len() == i,
            forall|k: int|
                0 <= k < i ==> 0 <= #[trigger] idx@[k] < dirs@.len() && dirs@[idx@[k] as int]@
                    == pairs@[k].0@,
        decreases pairs.len() - i,
    {
        let d = &pairs[i].0;
        proof {
            lemma_first_seen(ds.take(i as int));
        }
        let mut m: usize = 0;
        let mut found = false;
        while !found && m < dirs.len()
            invariant
                m <= dirs.len(),
                !found ==> forall|w: int| 0 <= w < m ==> dirs@[w]@ != d@,
                found ==> m < dirs.len() && dirs@[m as int]@ == d@,
            decreases dirs.len() - m + (if found { 0int } else { 1int }),
        {
            if str_eq(dirs[m].as_str(), d.as_str()) {
                found = true;
            } else {
                m += 1;
            }
        }
        let ghost prev = first_seen(ds.take(i as int));
        assert(ds.take(i + 1).drop_last() =~= ds.take(i as int));
        assert(ds.take(i + 1).last() == d@);
        if found {
            assert(prev[m as int] == d@);
            assert(prev.contains(d@));
            idx.push(m as i32);
        } else {
            assert(m == dirs.len());
            assert(!prev.contains(d@)) by {
                if prev.contains(d@) {
                    let w = choose|w: int| 0 <= w < prev.len() && prev[w] == d@;
                    assert(strings_view(dirs@)[w] == dirs@[w]@);
                    assert(dirs@[w]@ == d@);
                }
            }
            idx.push(dirs.len() as i32);
            dirs.push(d.clone());
            assert(strings_view(dirs@) =~= prev.push(d@));
        }
        bases.push(pairs[i].1.clone());
        assert(pairs@.take(i + 1).map_values(|p: (String, String)| p.1@) =~= pairs@.take(
            i as int,
        ).map_values(|p: (String, String)| p.1@).push(pairs@[i as int].1@));
        assert(strings_view(bases@) =~= pairs@.take(i + 1).map_values(
            |p: (String, String)| p.1@,
        ));
        i += 1;
    }
    proof {
        assert(ds.take(i as int) =~= ds);
        assert(pairs@.take(i as int) =~= pairs@);
        lemma_first_seen(ds);
    }
    (bases, dirs, idx)
}

/// The directory and base name of one install path.
fn split_install_path(p: &str) -> (r: (String, String))
    ensures
        (r.0@, r.1@) == dir_and_base(p@),
{
    match path_parent(p) {
        Some(d) => {
            let dc = chars_of(d.as_str());
            let dir = if dc.len() > 0 && dc[dc.len() - 1] == '/' {
                d
            } else {
                let mut v = dc;
                v.push('/');
                string_from_chars(&v)
            };
            let base = match path_file_name(p) {
                Some(b) => b,
                None => String::new(),
            };
            (dir, base)
        },
        None => (lit("/"), lit(p)),
    }
}

/// Decompose file install paths into RPM BASENAMES/DIRNAMES/DIRINDEXES format.
///
/// Each path is split into a directory component (ending with `/`) and
/// a basename. Unique directories are collected into DIRNAMES, and each
/// file gets a DIRINDEXES value pointing into that list.
pub fn decompose_paths(files: &Vec<FileEntry>) -> (r: (Vec<String>, Vec<String>, Vec<i32>))
    requires
        files.len() <= i32::MAX,
    ensures
        strings_view(r.0@) == files@.map_values(|f: FileEntry| dir_and_base(f.install_path@).1),
        strings_view(r.1@) == first_seen(
            files@.map_values(|f: FileEntry| dir_and_base(f.install_path@).0),
        ),
        no_dups(strings_view(r.1@)),
        r.2@.len() == files@.len(),
        forall|k: int|
            0 <= k < files@.len() ==> 0 <= #[trigger] r.2@[k] < r.1@.len() && r.1@[r.2@[k] as int]@
                == dir_and_base(files@[k].install_path@).0,
{
    let mut pairs: Vec<(String, String)> = Vec::new();
    let mut i: usize = 0;
    while i < files.len()
        invariant
            i <= files.len(),
            pairs@.len() == i,
            forall|k: int|
                0 <= k < i ==> (#[trigger] pairs@[k].0@, pairs@[k].1@) == dir_and_base(
                    files@[k].install_path@,
                ),
        decreases files.len() - i,
    {
        let pr = split_install_path(files[i].install_path.as_str());
        pairs.push(pr);
        i += 1;
    }
    let r = group_by_dir(&pairs);
    assert forall|k: int| 0 <= k < files@.len() implies #[trigger] pairs@[k].1@ == dir_and_base(
        files@[k].install_path@,
    ).1 && pairs@[k].0@ == dir_and_base(files@[k].install_path@).0 by {
        assert((pairs@[k].0@, pairs@[k].1@) == dir_and_base(files@[k].install_path@));
    }
    assert(pairs@.map_values(|p: (String, String)| p.1@) =~= files@.map_values(
        |f: FileEntry| dir_and_base(f.install_path@).1,
    ));
    assert(pairs@.map_values(|p: (String, String)| p.0@) =~= files@.map_values(
        |f: FileEntry| dir_and_base(f.install_path@).0,
    ));
    assert forall|k: int| 0 <= k < files@.len() implies 0 <= #[trigger] r.2@[k] < r.1@.len()
        && r.1@[r.2@[k] as int]@ == dir_and_base(files@[k].install_path@).0 by {
        assert(pairs@[k].0@ == dir_and_base(files@[k].install_path@).0);
    }
    r
}

// ---------------------------------------------------------------------------
// Dependencies
// ---------------------------------------------------------------------------

/// One dependency: name, version and RPMSENSE flags.
pub type Dep = (Seq<char>, Seq<char>, i32);

/// The three parallel tags (names, versions, flags) of a dependency list.
pub open spec fn dep_entries(tn: u32, tv: u32, tf: u32, ds: Seq<Dep>) -> Seq<EntryView> {
    seq![
        (tn, TagData::StrArray(ds.map_values(|d: Dep| d.0))),
        (tv, TagData::StrArray(ds.map_values(|d: Dep| d.1))),
        (tf, TagData::I32(ds.map_values(|d: Dep| d.2))),
    ]
}

/// The flags of the implicit `rpmlib(...)` requirements.
pub open spec fn rpmlib_flags() -> i32 {
    (RPMSENSE_RPMLIB | RPMSENSE_LESS | RPMSENSE_EQUAL) as i32
}

/// The implicit `rpmlib(...)` requirements, with the payload compressor's.
pub open spec fn rpmlib_deps(a: Algorithm) -> Seq<Dep> {
    seq![
        ("rpmlib(CompressedFileNames)"@, "3.0.4-1"@, rpmlib_flags()),
        ("rpmlib(PayloadFilesHavePrefix)"@, "4.0-1"@, rpmlib_flags()),
    ] + (if a == Algorithm::Zstd {
        seq![("rpmlib(PayloadIsZstd)"@, "5.4.18-1"@, rpmlib_flags())]
    } else {
        seq![]
    }) + (if a == Algorithm::Xz {
        seq![("rpmlib(PayloadIsXz)"@, "5.2-1"@, rpmlib_flags())]
    } else {
        seq![]
    })
}

/// The dependency strings, parsed.
pub open spec fn parsed_deps(ds: Seq<String>) -> Seq<Dep> {
    ds.map_values(|d: String| dependency_parts(d@))
}

/// `version-release`.
pub open spec fn version_release(plan: PackagePlan) -> Seq<char> {
    plan.version@ + "-"@ + plan.release@
}

/// An exact requirement on each part sub-package, in plan order.
pub open spec fn part_deps(subs: Seq<SubPackage>, vr: Seq<char>) -> Seq<Dep>
    decreases subs.len(),
{
    if subs.len() == 0 {
        seq![]
    } else {
        part_deps(subs.drop_last(), vr) + (if subs.last().role is Part {
            seq![(subs.last().name@, vr, RPMSENSE_EQUAL as i32)]
        } else {
            seq![]
        })
    }
}

/// The package that provides `update-alternatives` on the target: the
/// distribution's own for an RPM distribution, else `/usr/sbin/alternatives`.
pub open spec fn alternatives_dep(d: Option<Distro>) -> Seq<char> {
    match d {
        Some(x) => if is_rpm_distro(x) {
            rpm_entry(x).2
        } else {
            "/usr/sbin/alternatives"@
        },
        None => "/usr/sbin/alternatives"@,
    }
}

/// The target distribution, by value.
pub open spec fn distro_of(t: Option<&Distro>) -> Option<Distro> {
    match t {
        Some(d) => Some(*d),
        None => None,
    }
}

/// All requirements: the `rpmlib` ones, the configured ones (common, then
/// RPM-specific), the parts of a meta-package, and the alternatives tool
/// when alternatives are configured.
pub open spec fn require_deps(
    config: Config,
    a: Algorithm,
    d: Option<Distro>,
    sub: SubPackage,
    plan: PackagePlan,
) -> Seq<Dep> {
    rpmlib_deps(a) + parsed_deps(
        config.package.dependencies.requires@ + config.package.dependencies.requires_rpm@,
    ) + (if sub.role == SubPackageRole::Meta {
        part_deps(plan.sub_packages@, version_release(plan))
    } else {
        seq![]
    }) + (if config.content.alternatives@.len() > 0 {
        seq![(alternatives_dep(d), seq![], RPMSENSE_ANY as i32)]
    } else {
        seq![]
    })
}

/// A list of dependencies as tags, or nothing for an empty list.
pub open spec fn optional_dep_entries(tn: u32, tv: u32, tf: u32, ds: Seq<Dep>) -> Seq<EntryView> {
    if ds.len() > 0 {
        dep_entries(tn, tv, tf, ds)
    } else {
        seq![]
    }
}

/// The dependency tags: requires, the package's own provide, conflicts and
/// obsoletes (from the configured replaces).
pub open spec fn dependency_entries(
    config: Config,
    a: Algorithm,
    d: Option<Distro>,
    sub: SubPackage,
    plan: PackagePlan,
) -> Seq<EntryView> {
    dep_entries(RPMTAG_REQUIRENAME, RPMTAG_REQUIREVERSION, RPMTAG_REQUIREFLAGS, require_deps(config, a, d, sub, plan))
        + dep_entries(
        RPMTAG_PROVIDENAME,
        RPMTAG_PROVIDEVERSION,
        RPMTAG_PROVIDEFLAGS,
        seq![(sub.name@, version_release(plan), RPMSENSE_EQUAL as i32)],
    ) + optional_dep_entries(
        RPMTAG_CONFLICTNAME,
        RPMTAG_CONFLICTVERSION,
        RPMTAG_CONFLICTFLAGS,
        parsed_deps(config.package.dependencies.conflicts@),
    ) + optional_dep_entries(
        RPMTAG_OBSOLETENAME,
        RPMTAG_OBSOLETEVERSION,
        RPMTAG_OBSOLETEFLAGS,
        parsed_deps(config.package.dependencies.replaces@),
    )
}

/// Three parallel lists of dependency names, versions and flags.
struct DepList {
    names: Vec<String>,
    versions: Vec<String>,
    flags: Vec<i32>,
}

impl DepList {
    spec fn wf(&self) -> bool {
        self.names@.len() == self.versions@.len() == self.flags@.len()
    }

    spec fn deps(&self) -> Seq<Dep> {
        Seq::new(
            self.names@.len(),
            |i: int| (self.names@[i]@, self.versions@[i]@, self.flags@[i]),
        )
    }

    fn new() -> (r: Self)
        ensures
            r.wf(),
            r.deps() == Seq::<Dep>::empty(),
    {
        let r = DepList { names: Vec::new(), versions: Vec::new(), flags: Vec::new() };
        assert(r.deps() =~= Seq::<Dep>::empty());
        r
    }

    fn push(&mut self, name: String, version: String, flags: i32)
        requires
            old(self).wf(),
        ensures
            final(self).wf(),
            final(self).deps() == old(self).deps().push((name@, version@, flags)),
    {
        self.names.push(name);
        self.versions.push(version);
        self.flags.push(flags);
        assert(self.deps() =~= old(self).deps().push((name@, version@, flags)));
    }

    fn push_parsed(&mut self, deps: &Vec<String>)
        requires
            old(self).wf(),
        ensures
            final(self).wf(),
            final(self).deps() == old(self).deps() + parsed_deps(deps@),
    {
        let mut i: usize = 0;
        while i < deps.len()
            invariant
                i <= deps.len(),
                self.wf(),
                self.deps() == old(self).deps() + parsed_deps(deps@.take(i as int)),
            decreases deps.len() - i,
        {
            let (n, v, f) = parse_dependency(deps[i].as_str());
            self.push(n, v, f);
            assert(parsed_deps(deps@.take(i + 1)) =~= parsed_deps(deps@.take(i as int)).push(
                dependency_parts(deps@[i as int]@),
            ));
            i += 1;
        }
        assert(deps@.take(i as int) =~= deps@);
    }

    fn len(&self) -> (n: usize)
        requires
            self.wf(),
        ensures
            n == self.deps().len(),
    {
        self.names.len()
    }

    fn add_to(self, hdr: &mut HeaderBuilder, tn: u32, tv: u32, tf: u32)
        requires
            self.wf(),
        ensures
            final(hdr).entries_view() == old(hdr).entries_view() + dep_entries(
                tn,
                tv,
                tf,
                self.deps(),
            ),
    {
        let ghost ds = self.deps();
        assert(strings_view(self.names@) =~= ds.map_values(|d: Dep| d.0));
        assert(strings_view(self.versions@) =~= ds.map_values(|d: Dep| d.1));
        assert(self.flags@ =~= ds.map_values(|d: Dep| d.2));
        hdr.add_string_array(tn, self.names);
        hdr.add_string_array(tv, self.versions);
        hdr.add_int32(tf, self.flags);
        assert(hdr.entries_view() =~= old(hdr).entries_view() + dep_entries(tn, tv, tf, ds));
    }
}

/// `version-release` of the plan.
fn version_release_exec(plan: &PackagePlan) -> (r: String)
    ensures
        r@ == version_release(*plan),
{
    let mut v = chars_of(plan.version.as_str());
    extend_str(&mut v, "-");
    extend_str(&mut v, plan.release.as_str());
    string_from_chars(&v)
}

fn push_part_deps(list: &mut DepList, subs: &Vec<SubPackage>, vr: &String)
    requires
        old(list).wf(),
    ensures
        final(list).wf(),
        final(list).deps() == old(list).deps() + part_deps(subs@, vr@),
{
    let mut i: usize = 0;
    while i < subs.len()
        invariant
            i <= subs.len(),
            list.wf(),
            list.deps() == old(list).deps() + part_deps(subs@.take(i as int), vr@),
        decreases subs.len() - i,
    {
        assert(subs@.take(i + 1).drop_last() =~= subs@.take(i as int));
        if let SubPackageRole::Part(_) = subs[i].role {
            list.push(subs[i].name.clone(), vr.clone(), RPMSENSE_EQUAL as i32);
        }
        i += 1;
        assert(list.deps() =~= old(list).deps() + part_deps(subs@.take(i as int), vr@));
    }
    assert(subs@.take(i as int) =~= subs@);
}

/// The requirement list of a sub-package.
#[verifier::spinoff_prover]
fn require_list(
    config: &Config,
    algorithm: &Algorithm,
    target_distro: Option<&Distro>,
    sub_package: &SubPackage,
    plan: &PackagePlan,
    vr: &String,
) -> (req: DepList)
    requires
        vr@ == version_release(*plan),
    ensures
        req.wf(),
        req.deps() == require_deps(
            *config,
            *algorithm,
            distro_of(target_distro),
            *sub_package,
            *plan,
        ),
{
    let mut req = DepList::new();
    let flags = (RPMSENSE_RPMLIB | RPMSENSE_LESS | RPMSENSE_EQUAL) as i32;
    req.push(lit("rpmlib(CompressedFileNames)"), lit("3.0.4-1"), flags);
    req.push(lit("rpmlib(PayloadFilesHavePrefix)"), lit("4.0-1"), flags);
    if *algorithm == Algorithm::Zstd {
        req.push(lit("rpmlib(PayloadIsZstd)"), lit("5.4.18-1"), flags);
    }
    if *algorithm == Algorithm::Xz {
        req.push(lit("rpmlib(PayloadIsXz)"), lit("5.2-1"), flags);
    }
    assert(req.deps() =~= rpmlib_deps(*algorithm));
    req.push_parsed(&config.package.dependencies.requires);
    req.push_parsed(&config.package.dependencies.requires_rpm);
    assert(parsed_deps(config.package.dependencies.requires@) + parsed_deps(
        config.package.dependencies.requires_rpm@,
    ) =~= parsed_deps(
        config.package.dependencies.requires@ + config.package.dependencies.requires_rpm@,
    ));
    if sub_package.role == SubPackageRole::Meta {
        push_part_deps(&mut req, &plan.sub_packages, vr);
    }
    if config.content.alternatives.len() > 0 {
        let alt_dep: &str = match target_distro {
            Some(distro) => match distro.info() {
                DistroInfo::Rpm(info) => info.alternatives_dep,
                DistroInfo::Deb(_) => "/usr/sbin/alternatives",
            },
            None => "/usr/sbin/alternatives",
        };
        req.push(lit(alt_dep), String::new(), RPMSENSE_ANY as i32);
    }
    assert(req.deps() =~= require_deps(
        *config,
        *algorithm,
        distro_of(target_distro),
        *sub_package,
        *plan,
    ));
    req
}

/// A dependency list from configured strings, as tags when it is not empty.
fn add_optional_deps(hdr: &mut HeaderBuilder, deps: &Vec<String>, tn: u32, tv: u32, tf: u32)
    ensures
        final(hdr).entries_view() == old(hdr).entries_view() + optional_dep_entries(
            tn,
            tv,
            tf,
            parsed_deps(deps@),
        ),
{
    let mut list = DepList::new();
    list.push_parsed(deps);
    if deps.len() > 0 {
        list.add_to(hdr, tn, tv, tf);
    } else {
        assert(hdr.entries_view() =~= old(hdr).entries_view() + optional_dep_entries(
            tn,
            tv,
            tf,
            parsed_deps(deps@),
        ));
    }
}

/// Populate dependency tags.
pub fn add_dependencies(
    hdr: &mut HeaderBuilder,
    config: &Config,
    algorithm: &Algorithm,
    target_distro: Option<&Distro>,
    sub_package: &SubPackage,
    plan: &PackagePlan,
) -> (r: Result<(), RpmError>)
    ensures
        r is Ok,
        final(hdr).entries_view() == old(hdr).entries_view() + dependency_entries(
            *config,
            *algorithm,
            distro_of(target_distro),
            *sub_package,
            *plan,
        ),
{
    let vr = version_release_exec(plan);
    let req = require_list(config, algorithm, target_distro, sub_package, plan, &vr);
    req.add_to(hdr, RPMTAG_REQUIRENAME, RPMTAG_REQUIREVERSION, RPMTAG_REQUIREFLAGS);
    let mut prov = DepList::new();
    prov.push(sub_package.name.clone(), vr, RPMSENSE_EQUAL as i32);
    prov.add_to(hdr, RPMTAG_PROVIDENAME, RPMTAG_PROVIDEVERSION, RPMTAG_PROVIDEFLAGS);
    add_optional_deps(
        hdr,
        &config.package.dependencies.conflicts,
        RPMTAG_CONFLICTNAME,
        RPMTAG_CONFLICTVERSION,
        RPMTAG_CONFLICTFLAGS,
    );
    add_optional_deps(
        hdr,
        &config.package.dependencies.replaces,
        RPMTAG_OBSOLETENAME,
        RPMTAG_OBSOLETEVERSION,
        RPMTAG_OBSOLETEFLAGS,
    );
    assert(hdr.entries_view() =~= old(hdr).entries_view() + dependency_entries(
        *config,
        *algorithm,
        distro_of(target_distro),
        *sub_package,
        *plan,
    ));
    Ok(())
}

// ---------------------------------------------------------------------------
// Package metadata
// ---------------------------------------------------------------------------

/// The build time: the configured epoch, else the time of the build.
pub open spec fn build_time(config: Config, now: u64) -> u64 {
    match epoch_setting(config) {
        Some(t) => t,
        None => now,
    }
}

/// The RPM group: the configured one or `Unspecified`.
pub open spec fn rpm_group(config: Config) -> Seq<char> {
    match config.rpm {
        Some(r) => match r.group {
            Some(g) => g@,
            None => "Unspecified"@,
        },
        None => "Unspecified"@,
    }
}

/// The payload flags: the compression level in decimal, `9` when unset.
pub open spec fn payload_flags(config: Config) -> Seq<char> {
    match config.compression.level {
        Some(l) => signed_decimal(l as int),
        None => "9"@,
    }
}

/// A string tag when the value is set.
pub open spec fn optional_string_entry(tag: u32, o: Option<String>) -> Seq<EntryView> {
    match o {
        Some(x) => seq![(tag, TagData::Str(x@))],
        None => seq![],
    }
}

/// Name, version, release, summary and description (both the package
/// description), build time and build host.
pub open spec fn identity_entries(
    plan: PackagePlan,
    sub: SubPackage,
    config: Config,
    time: u64,
    host: Seq<char>,
) -> Seq<EntryView> {
    seq![
        (RPMTAG_NAME, TagData::Str(sub.name@)),
        (RPMTAG_VERSION, TagData::Str(plan.version@)),
        (RPMTAG_RELEASE, TagData::Str(plan.release@)),
        (RPMTAG_SUMMARY, TagData::I18N(config.package.description@)),
        (RPMTAG_DESCRIPTION, TagData::I18N(config.package.description@)),
        (RPMTAG_BUILDTIME, TagData::I32(seq![clamped_timestamp(time)])),
        (RPMTAG_BUILDHOST, TagData::Str(host)),
    ]
}

/// The installed size (32-bit only when it fits), license, packager, group,
/// vendor and URL.
pub open spec fn ownership_entries(sub: SubPackage, config: Config) -> Seq<EntryView> {
    (if sub.total_size <= i32::MAX {
        seq![(RPMTAG_SIZE, TagData::I32(seq![sub.total_size as i32]))]
    } else {
        seq![]
    }) + seq![
        (RPMTAG_LONGSIZE, TagData::I64(seq![sub.total_size as i64])),
        (RPMTAG_LICENSE, TagData::Str(config.package.license@)),
        (RPMTAG_PACKAGER, TagData::Str(config.package.maintainer@)),
        (RPMTAG_GROUP, TagData::I18N(rpm_group(config))),
    ] + optional_string_entry(RPMTAG_VENDOR, config.package.vendor) + optional_string_entry(
        RPMTAG_URL,
        config.package.url,
    )
}

/// OS, architecture and the fixed payload description.
pub open spec fn payload_entries(plan: PackagePlan, config: Config, a: Algorithm) -> Seq<
    EntryView,
> {
    seq![
        (RPMTAG_OS, TagData::Str("linux"@)),
        (RPMTAG_ARCH, TagData::Str(plan.arch@)),
        (RPMTAG_SOURCERPM, TagData::Str("(none)"@)),
        (RPMTAG_RPMVERSION, TagData::Str("spm"@)),
        (RPMTAG_OPTFLAGS, TagData::Str(""@)),
        (RPMTAG_PAYLOADFORMAT, TagData::Str("cpio"@)),
        (RPMTAG_PAYLOADCOMPRESSOR, TagData::Str(algorithm_rpm_tag(a))),
        (RPMTAG_PAYLOADFLAGS, TagData::Str(payload_flags(config))),
        (RPMTAG_ENCODING, TagData::Str("utf-8"@)),
    ]
}

/// The package metadata tags, in the order they are added.
pub open spec fn package_metadata_entries(
    plan: PackagePlan,
    sub: SubPackage,
    config: Config,
    a: Algorithm,
    time: u64,
    host: Seq<char>,
) -> Seq<EntryView> {
    identity_entries(plan, sub, config, time, host) + ownership_entries(sub, config)
        + payload_entries(plan, config, a)
}

/// A vector of one value.
fn single<T>(x: T) -> (v: Vec<T>)
    ensures
        v@ == seq![x],
{
    let mut v = Vec::new();
    v.push(x);
    assert(v@ =~= seq![x]);
    v
}

fn add_identity(
    hdr: &mut HeaderBuilder,
    plan: &PackagePlan,
    sub: &SubPackage,
    config: &Config,
    time: u64,
    host: &str,
)
    ensures
        final(hdr).entries_view() == old(hdr).entries_view() + identity_entries(
            *plan,
            *sub,
            *config,
            time,
            host@,
        ),
{
    hdr.add_string(RPMTAG_NAME, sub.name.as_str());
    hdr.add_string(RPMTAG_VERSION, plan.version.as_str());
    hdr.add_string(RPMTAG_RELEASE, plan.release.as_str());
    hdr.add_i18n_string(RPMTAG_SUMMARY, config.package.description.as_str());
    hdr.add_i18n_string(RPMTAG_DESCRIPTION, config.package.description.as_str());
    let t = clamp_timestamp(time);
    hdr.add_int32(RPMTAG_BUILDTIME, single(t));
    hdr.add_string(RPMTAG_BUILDHOST, host);
    assert(hdr.entries_view() =~= old(hdr).entries_view() + identity_entries(
        *plan,
        *sub,
        *config,
        time,
        host@,
    ));
}

fn add_ownership(hdr: &mut HeaderBuilder, sub: &SubPackage, config: &Config)
    ensures
        final(hdr).entries_view() == old(hdr).entries_view() + ownership_entries(*sub, *config),
{
    let total = sub.total_size;
    if total <= i32::MAX as u64 {
        hdr.add_int32(RPMTAG_SIZE, single(total as i32));
    }
    hdr.add_int64(RPMTAG_LONGSIZE, single(#[verifier::truncate] (total as i64)));
    hdr.add_string(RPMTAG_LICENSE, config.package.license.as_str());
    hdr.add_string(RPMTAG_PACKAGER, config.package.maintainer.as_str());
    let group: &str = match &config.rpm {
        Some(r) => match &r.group {
            Some(g) => g.as_str(),
            None => "Unspecified",
        },
        None => "Unspecified",
    };
    hdr.add_i18n_string(RPMTAG_GROUP, group);
    if let Some(vendor) = &config.package.vendor {
        hdr.add_string(RPMTAG_VENDOR, vendor.as_str());
    }
    if let Some(url) = &config.package.url {
        hdr.add_string(RPMTAG_URL, url.as_str());
    }
    assert(hdr.entries_view() =~= old(hdr).entries_view() + ownership_entries(*sub, *config));
}

fn add_payload_description(
    hdr: &mut HeaderBuilder,
    plan: &PackagePlan,
    config: &Config,
    algorithm: &Algorithm,
)
    ensures
        final(hdr).entries_view() == old(hdr).entries_view() + payload_entries(
            *plan,
            *config,
            *algorithm,
        ),
{
    hdr.add_string(RPMTAG_OS, "linux");
    hdr.add_string(RPMTAG_ARCH, plan.arch.as_str());
    hdr.add_string(RPMTAG_SOURCERPM, "(none)");
    hdr.add_string(RPMTAG_RPMVERSION, "spm");
    hdr.add_string(RPMTAG_OPTFLAGS, "");
    hdr.add_string(RPMTAG_PAYLOADFORMAT, "cpio");
    hdr.add_string(RPMTAG_PAYLOADCOMPRESSOR, algorithm.rpm_tag());
    let flags = match config.compression.level {
        Some(l) => {
            let mut v: Vec<char> = Vec::new();
            push_signed_decimal(&mut v, l as i64);
            string_from_chars(&v)
        },
        None => lit("9"),
    };
    hdr.add_string(RPMTAG_PAYLOADFLAGS, flags.as_str());
    hdr.add_string(RPMTAG_ENCODING, "utf-8");
    assert(hdr.entries_view() =~= old(hdr).entries_view() + payload_entries(
        *plan,
        *config,
        *algorithm,
    ));
}

/// Populate the package metadata tags for a build at time `now` (seconds
/// since the epoch; a configured `SOURCE_DATE_EPOCH` takes its place) on
/// the host named `hostname`.
pub fn add_package_metadata_at(
    hdr: &mut HeaderBuilder,
    plan: &PackagePlan,
    sub_package: &SubPackage,
    config: &Config,
    algorithm: &Algorithm,
    now: u64,
    hostname: &str,
)
    ensures
        final(hdr).entries_view() == old(hdr).entries_view() + package_metadata_entries(
            *plan,
            *sub_package,
            *config,
            *algorithm,
            build_time(*config, now),
            hostname@,
        ),
{
    let time = match configured_epoch(config) {
        Some(t) => t,
        None => now,
    };
    add_identity(hdr, plan, sub_package, config, time, hostname);
    add_ownership(hdr, sub_package, config);
    add_payload_description(hdr, plan, config, algorithm);
}

/// Populate package metadata tags, reading the system clock for the build
/// time unless `SOURCE_DATE_EPOCH` is configured.
pub fn add_package_metadata(
    hdr: &mut HeaderBuilder,
    plan: &PackagePlan,
    sub_package: &SubPackage,
    config: &Config,
    algorithm: &Algorithm,
    hostname: &str,
) -> (r: Result<(), RpmError>)
    ensures
        r is Ok,
        exists|now: u64|
            final(hdr).entries_view() == old(hdr).entries_view() + package_metadata_entries(
                *plan,
                *sub_package,
                *config,
                *algorithm,
                build_time(*config, now),
                hostname@,
            ),
{
    let now = match configured_epoch(config) {
        Some(t) => t,
        None => secs_since_epoch(&system_now()),
    };
    add_package_metadata_at(hdr, plan, sub_package, config, algorithm, now, hostname);
    Ok(())
}

// ---------------------------------------------------------------------------
// File metadata
// ---------------------------------------------------------------------------

/// Inode number and link count of each file entry, by index.
///
/// Regular files get unique inodes with nlink=1. Hardlinked files sharing
/// the same target get the same inode and a nlink equal to the group size.
pub struct InodeMap {
    /// inode number for each file entry (by index).
    pub inodes: Vec<u32>,
    /// nlink count for each file entry (by index).
    pub nlinks: Vec<u32>,
}

/// The number of data bytes an entry carries in the payload: a symbolic
/// link carries its target's UTF-8 bytes, a directory nothing.
pub open spec fn entry_data_size(e: FileEntry) -> u64 {
    match e.entry_type {
        EntryType::RegularFile => e.size,
        EntryType::Directory => 0,
        EntryType::Symlink { target } => utf8(target@).len() as u64,
        EntryType::Hardlink { .. } => e.size,
    }
}

/// The CPIO header fields of an entry.
pub open spec fn cpio_metadata_of(e: FileEntry, ino: u32, nlink: u32) -> CpioMetadata {
    CpioMetadata {
        ino,
        mode: mode_with_type(e),
        uid: 0,
        gid: 0,
        nlink,
        mtime: 0,
        filesize: entry_data_size(e),
        devmajor: 0,
        devminor: 0,
        rdevmajor: 0,
        rdevminor: 0,
    }
}

/// Convert a FileEntry to CpioMetadata.
pub fn file_entry_to_cpio_metadata(entry: &FileEntry, ino: u32, nlink: u32) -> (r: CpioMetadata)
    ensures
        r == cpio_metadata_of(*entry, ino, nlink),
{
    let filesize: u64 = match &entry.entry_type {
        EntryType::RegularFile => entry.size,
        EntryType::Directory => 0,
        EntryType::Symlink { target } => target.as_str().as_bytes().len() as u64,
        EntryType::Hardlink { .. } => entry.size,
    };
    let mode = file_mode_with_type(entry);
    CpioMetadata {
        ino,
        mode,
        uid: 0,
        gid: 0,
        nlink,
        mtime: 0,
        filesize,
        devmajor: 0,
        devminor: 0,
        rdevmajor: 0,
        rdevminor: 0,
    }
}

// ---------------------------------------------------------------------------
// Inodes and link counts
// ---------------------------------------------------------------------------

/// Whether an entry is a hard link.
pub open spec fn is_hardlink(e: FileEntry) -> bool {
    e.entry_type is Hardlink
}

/// The components of a hard link's target (its group), none for other entries.
pub open spec fn link_group(e: FileEntry) -> Option<Seq<Seq<char>>> {
    match e.entry_type {
        EntryType::Hardlink { target } => Some(path_comps(target@)),
        _ => None,
    }
}

/// The number of entries that are not hard links (each has an inode of its own).
pub open spec fn own_inode_count(fs: Seq<FileEntry>) -> nat
    decreases fs.len(),
{
    if fs.len() == 0 {
        0
    } else {
        own_inode_count(fs.drop_last()) + if is_hardlink(fs.last()) {
            0nat
        } else {
            1nat
        }
    }
}

/// The number of hard links to the target with components `t`.
pub open spec fn group_size(fs: Seq<FileEntry>, t: Seq<Seq<char>>) -> nat
    decreases fs.len(),
{
    if fs.len() == 0 {
        0
    } else {
        group_size(fs.drop_last(), t) + if link_group(fs.last()) == Some(t) {
            1nat
        } else {
            0nat
        }
    }
}

/// The regular file a group links to: the last regular file whose install
/// path has the components `t`.
pub open spec fn group_original(fs: Seq<FileEntry>, t: Seq<Seq<char>>) -> Option<int>
    decreases fs.len(),
{
    if fs.len() == 0 {
        None
    } else if fs.last().entry_type is RegularFile && path_comps(fs.last().install_path@) == t {
        Some(fs.len() - 1)
    } else {
        group_original(fs.drop_last(), t)
    }
}

/// 1 when the group has its original among the entries.
pub open spec fn original_link(fs: Seq<FileEntry>, t: Seq<Seq<char>>) -> nat {
    if group_original(fs, t) is Some {
        1
    } else {
        0
    }
}

/// What [`group_original`] points at.
pub proof fn lemma_group_original(fs: Seq<FileEntry>, t: Seq<Seq<char>>)
    ensures
        match group_original(fs, t) {
            Some(o) => 0 <= o < fs.len() && fs[o].entry_type is RegularFile && path_comps(
                fs[o].install_path@,
            ) == t,
            None => forall|k: int|
                0 <= k < fs.len() && (#[trigger] fs[k]).entry_type is RegularFile ==> path_comps(
                    fs[k].install_path@,
                ) != t,
        },
    decreases fs.len(),
{
    if fs.len() > 0 {
        lemma_group_original(fs.drop_last(), t);
        assert forall|k: int| 0 <= k < fs.len() - 1 implies fs[k] == fs.drop_last()[k] by {}
    }
}

/// A group with a member has one at some index.
proof fn lemma_group_member(fs: Seq<FileEntry>, t: Seq<Seq<char>>)
    requires
        group_size(fs, t) > 0,
    ensures
        exists|j: int| 0 <= j < fs.len() && link_group(#[trigger] fs[j]) == Some(t),
    decreases fs.len(),
{
    if link_group(fs.last()) != Some(t) {
        lemma_group_member(fs.drop_last(), t);
        let j = choose|j: int| 0 <= j < fs.len() - 1 && link_group(#[trigger] fs.drop_last()[j]) == Some(t);
        assert(fs[j] == fs.drop_last()[j]);
    } else {
        assert(link_group(fs[fs.len() - 1]) == Some(t));
    }
}

/// Counts never exceed the number of entries.
proof fn lemma_counts_bounded(fs: Seq<FileEntry>, t: Seq<Seq<char>>)
    ensures
        own_inode_count(fs) <= fs.len(),
        group_size(fs, t) <= fs.len(),
    decreases fs.len(),
{
    if fs.len() > 0 {
        lemma_counts_bounded(fs.drop_last(), t);
    }
}

/// The hard-link group of an optional component list.
pub open spec fn opt_comps(o: Option<Vec<Vec<char>>>) -> Option<Seq<Seq<char>>> {
    match o {
        Some(v) => Some(vviews(v@)),
        None => None,
    }
}

/// The install-path components and link groups of the entries.
fn entry_components(files: &Vec<FileEntry>) -> (r: (Vec<Vec<Vec<char>>>, Vec<Option<Vec<Vec<char>>>>))
    ensures
        r.0@.len() == files@.len(),
        r.1@.len() == files@.len(),
        forall|k: int|
            0 <= k < files@.len() ==> vviews(#[trigger] r.0@[k]@) == path_comps(files@[k].install_path@),
        forall|k: int| 0 <= k < files@.len() ==> opt_comps(#[trigger] r.1@[k]) == link_group(files@[k]),
{
    let mut pcs: Vec<Vec<Vec<char>>> = Vec::new();
    let mut tcs: Vec<Option<Vec<Vec<char>>>> = Vec::new();
    let mut i: usize = 0;
    while i < files.len()
        invariant
            i <= files.len(),
            pcs@.len() == i,
            tcs@.len() == i,
            forall|k: int|
                0 <= k < i ==> vviews(#[trigger] pcs@[k]@) == path_comps(files@[k].install_path@),
            forall|k: int| 0 <= k < i ==> opt_comps(#[trigger] tcs@[k]) == link_group(files@[k]),
        decreases files.len() - i,
    {
        pcs.push(path_comps_exec(files[i].install_path.as_str()));
        match &files[i].entry_type {
            EntryType::Hardlink { target } => {
                let c = path_comps_exec(target.as_str());
                assert(link_group(files@[i as int]) == Some(vviews(c@)));
                tcs.push(Some(c));
            },
            _ => {
                assert(link_group(files@[i as int]) is None);
                tcs.push(None);
            },
        }
        assert(opt_comps(tcs@[i as int]) == link_group(files@[i as int]));
        i += 1;
    }
    (pcs, tcs)
}

/// The original of a group and its number of links.
fn group_facts(
    files: &Vec<FileEntry>,
    pcs: &Vec<Vec<Vec<char>>>,
    tcs: &Vec<Option<Vec<Vec<char>>>>,
    t: &Vec<Vec<char>>,
) -> (r: (Option<usize>, u32))
    requires
        files@.len() < u32::MAX,
        pcs@.len() == files@.len(),
        tcs@.len() == files@.len(),
        forall|k: int|
            0 <= k < files@.len() ==> vviews(#[trigger] pcs@[k]@) == path_comps(files@[k].install_path@),
        forall|k: int| 0 <= k < files@.len() ==> opt_comps(#[trigger] tcs@[k]) == link_group(files@[k]),
    ensures
        match r.0 {
            Some(o) => group_original(files@, vviews(t@)) == Some(o as int),
            None => group_original(files@, vviews(t@)) is None,
        },
        r.1 == group_size(files@, vviews(t@)),
{
    let ghost tv = vviews(t@);
    let mut orig: Option<usize> = None;
    let mut cnt: u32 = 0;
    let mut j: usize = 0;
    while j < files.len()
        invariant
            j <= files.len() < u32::MAX,
            pcs@.len() == files@.len(),
            tcs@.len() == files@.len(),
            tv == vviews(t@),
            forall|k: int|
                0 <= k < files@.len() ==> vviews(#[trigger] pcs@[k]@) == path_comps(
                    files@[k].install_path@,
                ),
            forall|k: int| 0 <= k < files@.len() ==> opt_comps(#[trigger] tcs@[k]) == link_group(files@[k]),
            match orig {
                Some(o) => group_original(files@.take(j as int), tv) == Some(o as int),
                None => group_original(files@.take(j as int), tv) is None,
            },
            cnt == group_size(files@.take(j as int), tv),
            cnt <= j,
        decreases files.len() - j,
    {
        let ghost fj = files@.take(j + 1);
        assert(fj.drop_last() =~= files@.take(j as int));
        assert(fj.last() == files@[j as int]);
        assert(vviews(pcs@[j as int]@) == path_comps(files@[j as int].install_path@));
        assert(opt_comps(tcs@[j as int]) == link_group(files@[j as int]));
        if let EntryType::RegularFile = files[j].entry_type {
            if comps_eq(&pcs[j], t) {
                orig = Some(j);
            }
        }
        if let Some(u) = &tcs[j] {
            if comps_eq(u, t) {
                cnt = cnt + 1;
            }
        }
        j += 1;
    }
    assert(files@.take(j as int) =~= files@);
    (orig, cnt)
}

/// Lengths and the range of the next fresh inode.
spec fn inv_base(fs: Seq<FileEntry>, inodes: Seq<u32>, nlinks: Seq<u32>, i: int, next: int) -> bool {
    &&& inodes.len() == fs.len()
    &&& nlinks.len() == fs.len()
    &&& 0 <= i <= fs.len()
    &&& own_inode_count(fs) + 1 <= next <= own_inode_count(fs) + 1 + (i - own_inode_count(fs.take(i)))
    &&& own_inode_count(fs.take(i)) <= i
}

/// Own inodes are numbered in order.
#[verifier::opaque]
spec fn inv_own(fs: Seq<FileEntry>, inodes: Seq<u32>) -> bool {
    forall|k: int|
        0 <= k < fs.len() && !is_hardlink(#[trigger] fs[k]) ==> inodes[k] == own_inode_count(
            fs.take(k),
        ) + 1
}

/// A numbered hard link has its group's inode and link count.
#[verifier::opaque]
spec fn inv_linked(fs: Seq<FileEntry>, inodes: Seq<u32>, nlinks: Seq<u32>, next: int) -> bool {
    forall|k: int|
        0 <= k < fs.len() && is_hardlink(#[trigger] fs[k]) && inodes[k] != 0 ==> (match group_original(
            fs,
            link_group(fs[k])->0,
        ) {
            Some(o) => inodes[k] == own_inode_count(fs.take(o)) + 1,
            None => own_inode_count(fs) + 1 <= inodes[k] < next,
        }) && nlinks[k] == group_size(fs, link_group(fs[k])->0) + original_link(
            fs,
            link_group(fs[k])->0,
        )
}

/// The hard links before `i` are numbered.
#[verifier::opaque]
spec fn inv_done(fs: Seq<FileEntry>, inodes: Seq<u32>, i: int) -> bool {
    forall|k: int| 0 <= k < i && is_hardlink(#[trigger] fs[k]) ==> inodes[k] != 0
}

/// Links of one group share their inode (0 while unnumbered).
#[verifier::opaque]
spec fn inv_same(fs: Seq<FileEntry>, inodes: Seq<u32>) -> bool {
    forall|j: int, k: int|
        0 <= j < fs.len() && 0 <= k < fs.len() && is_hardlink(fs[j]) && #[trigger] link_group(fs[j])
            == #[trigger] link_group(fs[k]) ==> inodes[j] == inodes[k]
}

/// Groups without an original have distinct inodes.
#[verifier::opaque]
spec fn inv_distinct(fs: Seq<FileEntry>, inodes: Seq<u32>) -> bool {
    forall|j: int, k: int|
        0 <= j < fs.len() && 0 <= k < fs.len() && is_hardlink(#[trigger] fs[j]) && is_hardlink(
            #[trigger] fs[k],
        ) && link_group(fs[j]) != link_group(fs[k]) && group_original(fs, link_group(fs[j])->0)
            is None && group_original(fs, link_group(fs[k])->0) is None && inodes[j] != 0
            ==> inodes[j] != inodes[k]
}

/// An entry that is not a hard link counts one link, or is the original of
/// a group and counts its links.
#[verifier::opaque]
spec fn inv_plain_links(fs: Seq<FileEntry>, nlinks: Seq<u32>) -> bool {
    forall|k: int|
        0 <= k < fs.len() && !is_hardlink(#[trigger] fs[k]) ==> nlinks[k] == 1 || (
        fs[k].entry_type is RegularFile && group_original(fs, path_comps(fs[k].install_path@))
            == Some(k) && nlinks[k] == group_size(fs, path_comps(fs[k].install_path@)) + 1)
}

/// The original of a numbered group counts the group's links.
#[verifier::opaque]
spec fn inv_orig_links(fs: Seq<FileEntry>, inodes: Seq<u32>, nlinks: Seq<u32>) -> bool {
    forall|k: int|
        0 <= k < fs.len() && is_hardlink(#[trigger] fs[k]) && inodes[k] != 0 && group_original(
            fs,
            link_group(fs[k])->0,
        ) is Some ==> nlinks[group_original(fs, link_group(fs[k])->0)->0] == group_size(
            fs,
            link_group(fs[k])->0,
        ) + 1
}

/// What holds after the groups of the first `i` entries got their inodes.
spec fn inode_inv(fs: Seq<FileEntry>, inodes: Seq<u32>, nlinks: Seq<u32>, i: int, next: int) -> bool {
    &&& inv_base(fs, inodes, nlinks, i, next)
    &&& inv_own(fs, inodes)
    &&& inv_linked(fs, inodes, nlinks, next)
    &&& inv_done(fs, inodes, i)
    &&& inv_same(fs, inodes)
    &&& inv_distinct(fs, inodes)
    &&& inv_plain_links(fs, nlinks)
    &&& inv_orig_links(fs, inodes, nlinks)
}

/// A hard link at `i` leaves room for the next fresh inode.
proof fn lemma_own_split(fs: Seq<FileEntry>, i: int)
    requires
        0 <= i < fs.len(),
        is_hardlink(fs[i]),
    ensures
        own_inode_count(fs) + i + 1 <= own_inode_count(fs.take(i)) + fs.len(),
    decreases fs.len(),
{
    if i == fs.len() - 1 {
        assert(fs.drop_last() =~= fs.take(i));
    } else {
        lemma_own_split(fs.drop_last(), i);
        assert(fs.drop_last().take(i) =~= fs.take(i));
    }
}

/// Passing an entry whose group is done (or that has no group).
proof fn lemma_inode_skip(fs: Seq<FileEntry>, inodes: Seq<u32>, nlinks: Seq<u32>, i: int, next: int)
    requires
        inode_inv(fs, inodes, nlinks, i, next),
        i < fs.len(),
        is_hardlink(fs[i]) ==> inodes[i] != 0,
    ensures
        inode_inv(fs, inodes, nlinks, i + 1, next),
{
    assert(fs.take(i + 1).drop_last() =~= fs.take(i));
    assert(fs.take(i + 1).last() == fs[i]);
    reveal(inv_done);
}

/// How the group of entry `i` gets its inode and link counts.
spec fn group_step(
    fs: Seq<FileEntry>,
    inodes0: Seq<u32>,
    nlinks0: Seq<u32>,
    inodes1: Seq<u32>,
    nlinks1: Seq<u32>,
    i: int,
    next0: int,
    next1: int,
    tv: Seq<Seq<char>>,
    shared: u32,
    total: u32,
) -> bool {
    &&& 0 <= i < fs.len()
    &&& link_group(fs[i]) == Some(tv)
    &&& inodes0[i] == 0
    &&& match group_original(fs, tv) {
        Some(o) => shared == inodes0[o] && next1 == next0 && total == group_size(fs, tv) + 1,
        None => shared == next0 && next1 == next0 + 1 && total == group_size(fs, tv),
    }
    &&& inodes1.len() == fs.len()
    &&& nlinks1.len() == fs.len()
    &&& forall|k: int|
        0 <= k < fs.len() ==> #[trigger] inodes1[k] == if link_group(fs[k]) == Some(tv) {
            shared
        } else {
            inodes0[k]
        }
    &&& forall|k: int|
        0 <= k < fs.len() ==> #[trigger] nlinks1[k] == if link_group(fs[k]) == Some(tv) {
            total
        } else if group_original(fs, tv) == Some(k) {
            total
        } else {
            nlinks0[k]
        }
}

/// The members of the group being numbered had no inode yet.
proof fn lemma_group_unnumbered(fs: Seq<FileEntry>, inodes0: Seq<u32>, i: int, tv: Seq<Seq<char>>)
    requires
        inv_same(fs, inodes0),
        0 <= i < fs.len(),
        link_group(fs[i]) == Some(tv),
        inodes0[i] == 0,
    ensures
        forall|k: int| 0 <= k < fs.len() && #[trigger] link_group(fs[k]) == Some(tv) ==> inodes0[k] == 0,
{
    reveal(inv_same);
    assert forall|k: int| 0 <= k < fs.len() && #[trigger] link_group(fs[k]) == Some(tv) implies inodes0[k]
        == 0 by {
        assert(link_group(fs[i]) == link_group(fs[k]));
    }
}

/// Giving the group of entry `i` its inode and link counts.
proof fn lemma_inode_group(
    fs: Seq<FileEntry>,
    inodes0: Seq<u32>,
    nlinks0: Seq<u32>,
    inodes1: Seq<u32>,
    nlinks1: Seq<u32>,
    i: int,
    next0: int,
    next1: int,
    tv: Seq<Seq<char>>,
    shared: u32,
    total: u32,
)
    requires
        inode_inv(fs, inodes0, nlinks0, i, next0),
        group_step(fs, inodes0, nlinks0, inodes1, nlinks1, i, next0, next1, tv, shared, total),
    ensures
        inode_inv(fs, inodes1, nlinks1, i + 1, next1),
{
    lemma_group_original(fs, tv);
    lemma_group_unnumbered(fs, inodes0, i, tv);
    assert(fs.take(i + 1).drop_last() =~= fs.take(i));
    assert(fs.take(i + 1).last() == fs[i]);
    lemma_step_own(fs, inodes0, nlinks0, inodes1, nlinks1, i, next0, next1, tv, shared, total);
    lemma_step_linked(fs, inodes0, nlinks0, inodes1, nlinks1, i, next0, next1, tv, shared, total);
    lemma_step_done(fs, inodes0, nlinks0, inodes1, nlinks1, i, next0, next1, tv, shared, total);
    lemma_step_same(fs, inodes0, nlinks0, inodes1, nlinks1, i, next0, next1, tv, shared, total);
    lemma_step_distinct(fs, inodes0, nlinks0, inodes1, nlinks1, i, next0, next1, tv, shared, total);
    lemma_step_plain(fs, inodes0, nlinks0, inodes1, nlinks1, i, next0, next1, tv, shared, total);
    lemma_step_orig(fs, inodes0, nlinks0, inodes1, nlinks1, i, next0, next1, tv, shared, total);
}

proof fn lemma_step_own(
    fs: Seq<FileEntry>,
    inodes0: Seq<u32>,
    nlinks0: Seq<u32>,
    inodes1: Seq<u32>,
    nlinks1: Seq<u32>,
    i: int,
    next0: int,
    next1: int,
    tv: Seq<Seq<char>>,
    shared: u32,
    total: u32,
)
    requires
        inv_own(fs, inodes0),
        group_step(fs, inodes0, nlinks0, inodes1, nlinks1, i, next0, next1, tv, shared, total),
    ensures
        inv_own(fs, inodes1),
{
    reveal(inv_own);
    assert forall|k: int| 0 <= k < fs.len() && !is_hardlink(#[trigger] fs[k]) implies inodes1[k]
        == own_inode_count(fs.take(k)) + 1 by {
        assert(link_group(fs[k]) is None);
        assert(inodes1[k] == inodes0[k]);
    }
}

proof fn lemma_step_linked(
    fs: Seq<FileEntry>,
    inodes0: Seq<u32>,
    nlinks0: Seq<u32>,
    inodes1: Seq<u32>,
    nlinks1: Seq<u32>,
    i: int,
    next0: int,
    next1: int,
    tv: Seq<Seq<char>>,
    shared: u32,
    total: u32,
)
    requires
        inv_own(fs, inodes0),
        inv_linked(fs, inodes0, nlinks0, next0),
        own_inode_count(fs) + 1 <= next0,
        group_step(fs, inodes0, nlinks0, inodes1, nlinks1, i, next0, next1, tv, shared, total),
    ensures
        inv_linked(fs, inodes1, nlinks1, next1),
{
    reveal(inv_linked);
    reveal(inv_own);
    lemma_group_original(fs, tv);
    let orig = group_original(fs, tv);
    assert forall|k: int|
        0 <= k < fs.len() && is_hardlink(#[trigger] fs[k]) && inodes1[k] != 0 implies (match group_original(
            fs,
            link_group(fs[k])->0,
        ) {
            Some(o) => inodes1[k] == own_inode_count(fs.take(o)) + 1,
            None => own_inode_count(fs) + 1 <= inodes1[k] < next1,
        }) && nlinks1[k] == group_size(fs, link_group(fs[k])->0) + original_link(
            fs,
            link_group(fs[k])->0,
        ) by {
        if link_group(fs[k]) == Some(tv) {
            if let Some(o) = orig {
                assert(!is_hardlink(fs[o]));
            }
        } else {
            if let Some(o) = orig {
                assert(link_group(fs[o]) is None);
                if o == k {
                    assert(!is_hardlink(fs[k]));
                }
            }
            assert(inodes1[k] == inodes0[k]);
            assert(nlinks1[k] == nlinks0[k]);
        }
    }
}

proof fn lemma_step_done(
    fs: Seq<FileEntry>,
    inodes0: Seq<u32>,
    nlinks0: Seq<u32>,
    inodes1: Seq<u32>,
    nlinks1: Seq<u32>,
    i: int,
    next0: int,
    next1: int,
    tv: Seq<Seq<char>>,
    shared: u32,
    total: u32,
)
    requires
        inv_own(fs, inodes0),
        inv_done(fs, inodes0, i),
        next0 >= 1,
        group_step(fs, inodes0, nlinks0, inodes1, nlinks1, i, next0, next1, tv, shared, total),
    ensures
        inv_done(fs, inodes1, i + 1),
{
    reveal(inv_done);
    reveal(inv_own);
    lemma_group_original(fs, tv);
    let orig = group_original(fs, tv);
    assert(shared != 0) by {
        if let Some(o) = orig {
            assert(!is_hardlink(fs[o]));
        }
    }
    assert forall|k: int| 0 <= k < i + 1 && is_hardlink(#[trigger] fs[k]) implies inodes1[k] != 0 by {
        if link_group(fs[k]) != Some(tv) {
            assert(inodes1[k] == inodes0[k]);
        }
    }
}

proof fn lemma_step_same(
    fs: Seq<FileEntry>,
    inodes0: Seq<u32>,
    nlinks0: Seq<u32>,
    inodes1: Seq<u32>,
    nlinks1: Seq<u32>,
    i: int,
    next0: int,
    next1: int,
    tv: Seq<Seq<char>>,
    shared: u32,
    total: u32,
)
    requires
        inv_same(fs, inodes0),
        group_step(fs, inodes0, nlinks0, inodes1, nlinks1, i, next0, next1, tv, shared, total),
    ensures
        inv_same(fs, inodes1),
{
    reveal(inv_same);
    assert forall|j: int, k: int|
        0 <= j < fs.len() && 0 <= k < fs.len() && is_hardlink(fs[j]) && #[trigger] link_group(fs[j])
            == #[trigger] link_group(fs[k]) implies inodes1[j] == inodes1[k] by {
        assert(inodes0[j] == inodes0[k]);
    }
}

proof fn lemma_step_distinct(
    fs: Seq<FileEntry>,
    inodes0: Seq<u32>,
    nlinks0: Seq<u32>,
    inodes1: Seq<u32>,
    nlinks1: Seq<u32>,
    i: int,
    next0: int,
    next1: int,
    tv: Seq<Seq<char>>,
    shared: u32,
    total: u32,
)
    requires
        inv_distinct(fs, inodes0),
        inv_linked(fs, inodes0, nlinks0, next0),
        forall|k: int| 0 <= k < fs.len() && #[trigger] link_group(fs[k]) == Some(tv) ==> inodes0[k] == 0,
        group_step(fs, inodes0, nlinks0, inodes1, nlinks1, i, next0, next1, tv, shared, total),
    ensures
        inv_distinct(fs, inodes1),
{
    reveal(inv_distinct);
    reveal(inv_linked);
    assert forall|j: int, k: int|
        0 <= j < fs.len() && 0 <= k < fs.len() && is_hardlink(#[trigger] fs[j]) && is_hardlink(
            #[trigger] fs[k],
        ) && link_group(fs[j]) != link_group(fs[k]) && group_original(fs, link_group(fs[j])->0)
            is None && group_original(fs, link_group(fs[k])->0) is None && inodes1[j] != 0
            implies inodes1[j] != inodes1[k] by {
        if link_group(fs[j]) == Some(tv) {
            assert(inodes1[j] == next0);
            if inodes0[k] != 0 {
                assert(inodes0[k] < next0);
            }
        } else if link_group(fs[k]) == Some(tv) {
            assert(inodes1[k] == next0);
            assert(inodes0[j] != 0);
            assert(inodes0[j] < next0);
        } else {
            assert(inodes0[j] != 0);
        }
    }
}

proof fn lemma_step_plain(
    fs: Seq<FileEntry>,
    inodes0: Seq<u32>,
    nlinks0: Seq<u32>,
    inodes1: Seq<u32>,
    nlinks1: Seq<u32>,
    i: int,
    next0: int,
    next1: int,
    tv: Seq<Seq<char>>,
    shared: u32,
    total: u32,
)
    requires
        inv_plain_links(fs, nlinks0),
        group_step(fs, inodes0, nlinks0, inodes1, nlinks1, i, next0, next1, tv, shared, total),
    ensures
        inv_plain_links(fs, nlinks1),
{
    reveal(inv_plain_links);
    lemma_group_original(fs, tv);
    assert forall|k: int| 0 <= k < fs.len() && !is_hardlink(#[trigger] fs[k]) implies nlinks1[k] == 1
        || (fs[k].entry_type is RegularFile && group_original(fs, path_comps(fs[k].install_path@))
        == Some(k) && nlinks1[k] == group_size(fs, path_comps(fs[k].install_path@)) + 1) by {
        assert(link_group(fs[k]) is None);
        if group_original(fs, tv) == Some(k) {
            assert(path_comps(fs[k].install_path@) == tv);
        } else {
            assert(nlinks1[k] == nlinks0[k]);
        }
    }
}

proof fn lemma_step_orig(
    fs: Seq<FileEntry>,
    inodes0: Seq<u32>,
    nlinks0: Seq<u32>,
    inodes1: Seq<u32>,
    nlinks1: Seq<u32>,
    i: int,
    next0: int,
    next1: int,
    tv: Seq<Seq<char>>,
    shared: u32,
    total: u32,
)
    requires
        inv_orig_links(fs, inodes0, nlinks0),
        forall|k: int| 0 <= k < fs.len() && #[trigger] link_group(fs[k]) == Some(tv) ==> inodes0[k] == 0,
        group_step(fs, inodes0, nlinks0, inodes1, nlinks1, i, next0, next1, tv, shared, total),
    ensures
        inv_orig_links(fs, inodes1, nlinks1),
{
    reveal(inv_orig_links);
    let orig = group_original(fs, tv);
    assert forall|k: int|
        0 <= k < fs.len() && is_hardlink(#[trigger] fs[k]) && inodes1[k] != 0 && group_original(
            fs,
            link_group(fs[k])->0,
        ) is Some implies nlinks1[group_original(fs, link_group(fs[k])->0)->0] == group_size(
            fs,
            link_group(fs[k])->0,
        ) + 1 by {
        let u = link_group(fs[k])->0;
        let o = group_original(fs, u)->0;
        lemma_group_original(fs, u);
        assert(link_group(fs[o]) is None);
        if u != tv {
            assert(inodes1[k] == inodes0[k]);
            assert(inodes0[k] != 0);
            if orig == Some(o) {
                lemma_group_original(fs, tv);
            }
            assert(orig != Some(o));
            assert(nlinks1[o] == nlinks0[o]);
        }
    }
}

/// Build the inode/nlink map for a set of file entries.
///
/// Every entry that is not a hard link gets the next inode number, in
/// order. Hard links to one target share an inode: the original regular
/// file's when it is among the entries, else a fresh one; each member of a
/// group, and its original, counts the links of the group.
#[verifier::spinoff_prover]
pub fn build_inode_map(files: &Vec<FileEntry>) -> (m: InodeMap)
    requires
        files@.len() < u32::MAX,
    ensures
        m.inodes@.len() == files@.len(),
        m.nlinks@.len() == files@.len(),
        forall|k: int|
            0 <= k < files@.len() && !is_hardlink(#[trigger] files@[k]) ==> m.inodes@[k]
                == own_inode_count(files@.take(k)) + 1,
        forall|k: int|
            0 <= k < files@.len() && is_hardlink(#[trigger] files@[k]) ==> match group_original(
                files@,
                link_group(files@[k])->0,
            ) {
                Some(o) => m.inodes@[k] == m.inodes@[o],
                None => m.inodes@[k] > own_inode_count(files@),
            },
        forall|j: int, k: int|
            0 <= j < files@.len() && 0 <= k < files@.len() && is_hardlink(files@[j])
                && #[trigger] link_group(files@[j]) == #[trigger] link_group(files@[k])
                ==> m.inodes@[j] == m.inodes@[k],
        forall|j: int, k: int|
            0 <= j < files@.len() && 0 <= k < files@.len() && is_hardlink(#[trigger] files@[j])
                && is_hardlink(#[trigger] files@[k]) && link_group(files@[j]) != link_group(
                files@[k],
            ) && group_original(files@, link_group(files@[j])->0) is None && group_original(
                files@,
                link_group(files@[k])->0,
            ) is None ==> m.inodes@[j] != m.inodes@[k],
        forall|k: int|
            0 <= k < files@.len() && is_hardlink(#[trigger] files@[k]) ==> m.nlinks@[k]
                == group_size(files@, link_group(files@[k])->0) + original_link(
                files@,
                link_group(files@[k])->0,
            ),
        forall|k: int|
            0 <= k < files@.len() && !is_hardlink(#[trigger] files@[k]) ==> m.nlinks@[k] == if files@[k].entry_type is RegularFile
                && group_original(files@, path_comps(files@[k].install_path@)) == Some(k)
                && group_size(files@, path_comps(files@[k].install_path@)) > 0 {
                group_size(files@, path_comps(files@[k].install_path@)) + 1
            } else {
                1
            },
{
    let n = files.len();
    let ghost fs = files@;
    let (pcs, tcs) = entry_components(files);
    let mut inodes = repeat_exec(0u32, n);
    let nlinks = repeat_exec(1u32, n);
    let mut next: u32 = 1;
    let mut i: usize = 0;
    while i < n
        invariant
            n == fs.len() < u32::MAX,
            fs == files@,
            i <= n,
            tcs@.len() == n,
            forall|k: int| 0 <= k < n ==> opt_comps(#[trigger] tcs@[k]) == link_group(fs[k]),
            inodes@.len() == n,
            next == own_inode_count(fs.take(i as int)) + 1,
            own_inode_count(fs.take(i as int)) <= i,
            forall|k: int|
                0 <= k < i && !is_hardlink(#[trigger] fs[k]) ==> inodes@[k] == own_inode_count(
                    fs.take(k),
                ) + 1,
            forall|k: int| i <= k < n ==> #[trigger] inodes@[k] == 0,
            forall|k: int| 0 <= k < n && is_hardlink(#[trigger] fs[k]) ==> inodes@[k] == 0,
        decreases n - i,
    {
        assert(fs.take(i + 1).drop_last() =~= fs.take(i as int));
        assert(fs.take(i + 1).last() == fs[i as int]);
        assert(opt_comps(tcs@[i as int]) == link_group(fs[i as int]));
        if tcs[i].is_none() {
            inodes.set(i, next);
            next = next + 1;
        }
        i += 1;
    }
    assert(fs.take(n as int) =~= fs);
    let mut nlinks = nlinks;
    proof {
        assert(fs.take(0) =~= Seq::<FileEntry>::empty());
        reveal(inv_own);
        reveal(inv_linked);
        reveal(inv_done);
        reveal(inv_same);
        reveal(inv_distinct);
        reveal(inv_plain_links);
        reveal(inv_orig_links);
        assert forall|k: int| 0 <= k < n && !is_hardlink(#[trigger] fs[k]) implies nlinks@[k] == 1 by {}
        assert(inode_inv(fs, inodes@, nlinks@, 0, next as int));
    }
    let mut i: usize = 0;
    while i < n
        invariant
            n == fs.len() < u32::MAX,
            fs == files@,
            i <= n,
            pcs@.len() == n,
            tcs@.len() == n,
            forall|k: int| 0 <= k < n ==> vviews(#[trigger] pcs@[k]@) == path_comps(fs[k].install_path@),
            forall|k: int| 0 <= k < n ==> opt_comps(#[trigger] tcs@[k]) == link_group(fs[k]),
            inode_inv(fs, inodes@, nlinks@, i as int, next as int),
        decreases n - i,
    {
        assert(opt_comps(tcs@[i as int]) == link_group(fs[i as int]));
        proof {
            lemma_counts_bounded(fs, seq![]);
            lemma_counts_bounded(fs.take(i as int), seq![]);
        }
        if tcs[i].is_some() && inodes[i] == 0 {
            let t: &Vec<Vec<char>> = tcs[i].as_ref().unwrap();
            let ghost tv = vviews(t@);
            assert(link_group(fs[i as int]) == Some(tv));
            let (orig, cnt) = group_facts(files, &pcs, &tcs, t);
            proof {
                lemma_group_original(fs, tv);
                lemma_counts_bounded(fs, tv);
                assert(fs.take(i + 1).drop_last() =~= fs.take(i as int));
                assert(fs.take(i + 1).last() == fs[i as int]);
            }
            let ghost next0 = next as int;
            proof {
                lemma_own_split(fs, i as int);
            }
            let shared: u32 = match orig {
                Some(o) => inodes[o],
                None => {
                    let x = next;
                    next = next + 1;
                    x
                },
            };
            let total: u32 = match orig {
                Some(_) => cnt + 1,
                None => cnt,
            };
            let ghost inodes0 = inodes@;
            let ghost nlinks0 = nlinks@;
            let mut j: usize = 0;
            while j < n
                invariant
                    n == fs.len() < u32::MAX,
                    fs == files@,
                    j <= n,
                    tcs@.len() == n,
                    forall|k: int| 0 <= k < n ==> opt_comps(#[trigger] tcs@[k]) == link_group(fs[k]),
                    tv == vviews(t@),
                    inodes@.len() == n,
                    nlinks@.len() == n,
                    forall|k: int|
                        0 <= k < n ==> #[trigger] inodes@[k] == if k < j && link_group(fs[k])
                            == Some(tv) {
                            shared
                        } else {
                            inodes0[k]
                        },
                    forall|k: int|
                        0 <= k < n ==> #[trigger] nlinks@[k] == if k < j && link_group(fs[k])
                            == Some(tv) {
                            total
                        } else {
                            nlinks0[k]
                        },
                decreases n - j,
            {
                assert(opt_comps(tcs@[j as int]) == link_group(fs[j as int]));
                if let Some(u) = &tcs[j] {
                    if comps_eq(u, t) {
                        inodes.set(j, shared);
                        nlinks.set(j, total);
                    }
                }
                j += 1;
            }
            if let Some(o) = orig {
                assert(link_group(fs[o as int]) is None);
                nlinks.set(o, total);
            }
            proof {
                assert(group_step(
                    fs,
                    inodes0,
                    nlinks0,
                    inodes@,
                    nlinks@,
                    i as int,
                    next0,
                    next as int,
                    tv,
                    shared,
                    total,
                ));
                lemma_inode_group(
                    fs,
                    inodes0,
                    nlinks0,
                    inodes@,
                    nlinks@,
                    i as int,
                    next0,
                    next as int,
                    tv,
                    shared,
                    total,
                );
            }
        } else {
            proof {
                lemma_inode_skip(fs, inodes@, nlinks@, i as int, next as int);
            }
        }
        i += 1;
    }
    proof {
        reveal(inv_own);
        reveal(inv_linked);
        reveal(inv_done);
        reveal(inv_same);
        reveal(inv_distinct);
        reveal(inv_plain_links);
        reveal(inv_orig_links);
        assert forall|k: int|
            0 <= k < n && !is_hardlink(#[trigger] fs[k]) implies nlinks@[k] == if fs[k].entry_type is RegularFile
                && group_original(fs, path_comps(fs[k].install_path@)) == Some(k)
                && group_size(fs, path_comps(fs[k].install_path@)) > 0 {
                group_size(fs, path_comps(fs[k].install_path@)) + 1
            } else {
                1
            } by {
            let pc = path_comps(fs[k].install_path@);
            if fs[k].entry_type is RegularFile && group_original(fs, pc) == Some(k) && group_size(
                fs,
                pc,
            ) > 0 {
                lemma_group_member(fs, pc);
                let j = choose|j: int| 0 <= j < fs.len() && link_group(#[trigger] fs[j]) == Some(pc);
                assert(is_hardlink(fs[j]));
                assert(inodes@[j] != 0);
            }
        }
        assert forall|k: int|
            0 <= k < n && is_hardlink(#[trigger] fs[k]) implies match group_original(
                fs,
                link_group(fs[k])->0,
            ) {
                Some(o) => inodes@[k] == inodes@[o],
                None => inodes@[k] > own_inode_count(fs),
            } by {
            assert(inodes@[k] != 0);
            lemma_group_original(fs, link_group(fs[k])->0);
        }
    }
    InodeMap { inodes, nlinks }
}

/// The position of `x` in `s` (the list holds it once).
pub open spec fn dir_index(s: Seq<Seq<char>>, x: Seq<char>) -> int {
    choose|i: int| 0 <= i < s.len() && s[i] == x
}

/// The directories of the entries, one per entry.
pub open spec fn entry_dirs(fs: Seq<FileEntry>) -> Seq<Seq<char>> {
    fs.map_values(|f: FileEntry| dir_and_base(f.install_path@).0)
}

/// BASENAMES, DIRNAMES and DIRINDEXES.
pub open spec fn name_entries(fs: Seq<FileEntry>) -> Seq<EntryView> {
    let ds = entry_dirs(fs);
    seq![
        (RPMTAG_BASENAMES, TagData::StrArray(fs.map_values(|f: FileEntry| dir_and_base(f.install_path@).1))),
        (RPMTAG_DIRNAMES, TagData::StrArray(first_seen(ds))),
        (RPMTAG_DIRINDEXES, TagData::I32(Seq::new(fs.len(), |k: int| dir_index(first_seen(ds), ds[k]) as i32))),
    ]
}

/// The first entry too large for the 32-bit FILESIZES tag.
pub open spec fn first_oversize(fs: Seq<FileEntry>) -> Option<int>
    decreases fs.len(),
{
    if fs.len() == 0 {
        None
    } else if fs[0].size > i32::MAX {
        Some(0)
    } else {
        match first_oversize(fs.drop_first()) {
            Some(i) => Some(i + 1),
            None => None,
        }
    }
}

/// The error for a file too large for FILESIZES.
pub open spec fn oversize_message(f: FileEntry) -> Seq<char> {
    "file '"@ + f.install_path@ + "' is "@ + decimal(f.size as nat)
        + " bytes, exceeding the 2 GiB FILESIZES tag limit; use extended CPIO format for packages with files > 2 GiB"@
}

/// LONGFILESIZES for the extended format, else FILESIZES.
pub open spec fn size_entry(fs: Seq<FileEntry>, extended: bool) -> EntryView {
    if extended {
        (RPMTAG_LONGFILESIZES, TagData::I64(fs.map_values(|f: FileEntry| f.size as i64)))
    } else {
        (RPMTAG_FILESIZES, TagData::I32(fs.map_values(|f: FileEntry| f.size as i32)))
    }
}

/// A modification time as stored: clamped seconds, 0 when unknown.
pub open spec fn mtime_value(t: Option<u64>) -> i32 {
    match t {
        Some(s) => clamped_timestamp(s),
        None => 0,
    }
}

/// The target of a symbolic link, empty for other entries.
pub open spec fn link_target(e: FileEntry) -> Seq<char> {
    match e.entry_type {
        EntryType::Symlink { target } => target@,
        _ => seq![],
    }
}

/// CONFIG | NOREPLACE for a configuration file, else 0.
pub open spec fn file_flags(e: FileEntry) -> i32 {
    if e.is_config {
        (RPMFILE_CONFIG | RPMFILE_NOREPLACE) as i32
    } else {
        0
    }
}

/// `n` copies of `x`.
pub open spec fn repeat<T>(x: T, n: nat) -> Seq<T> {
    Seq::new(n, |i: int| x)
}

/// The per-file tags after the sizes: modes, rdevs, mtimes, digests and
/// their algorithm, link targets, flags, owners, devices, inodes,
/// languages, colors, classes and verify flags.
pub open spec fn attribute_entries(
    fs: Seq<FileEntry>,
    digests: Seq<Seq<char>>,
    mtimes: Seq<Option<u64>>,
    inodes: Seq<u32>,
) -> Seq<EntryView> {
    let n = fs.len();
    seq![
        (RPMTAG_FILEMODES, TagData::I16(fs.map_values(|f: FileEntry| mode_with_type(f) as i16))),
        (RPMTAG_FILERDEVS, TagData::I16(repeat(0i16, n))),
        (RPMTAG_FILEMTIMES, TagData::I32(mtimes.map_values(|t: Option<u64>| mtime_value(t)))),
        (RPMTAG_FILEDIGESTS, TagData::StrArray(digests)),
        (RPMTAG_FILEDIGESTALGO, TagData::I32(seq![PGPHASHALGO_SHA256 as i32])),
        (RPMTAG_FILELINKTOS, TagData::StrArray(fs.map_values(|f: FileEntry| link_target(f)))),
        (RPMTAG_FILEFLAGS, TagData::I32(fs.map_values(|f: FileEntry| file_flags(f)))),
        (RPMTAG_FILEUSERNAME, TagData::StrArray(fs.map_values(|f: FileEntry| f.user@))),
        (RPMTAG_FILEGROUPNAME, TagData::StrArray(fs.map_values(|f: FileEntry| f.group@))),
        (RPMTAG_FILEDEVICES, TagData::I32(repeat(1i32, n))),
        (RPMTAG_FILEINODES, TagData::I32(inodes.map_values(|x: u32| x as i32))),
        (RPMTAG_FILELANGS, TagData::StrArray(repeat(seq![], n))),
        (RPMTAG_FILECOLORS, TagData::I32(repeat(0i32, n))),
        (RPMTAG_FILECLASS, TagData::I32(repeat(0i32, n))),
        (RPMTAG_FILEVERIFYFLAGS, TagData::I32(repeat(RPMVERIFY_ALL as i32, n))),
    ]
}

/// Viewing a pushed string list.
proof fn lemma_strings_push(v: Seq<String>, s: String)
    ensures
        strings_view(v.push(s)) == strings_view(v).push(s@),
{
    assert(strings_view(v.push(s)) =~= strings_view(v).push(s@));
}

/// `n` copies of `x`.
fn repeat_exec<T: Copy>(x: T, n: usize) -> (v: Vec<T>)
    ensures
        v@ == repeat(x, n as nat),
{
    let mut v: Vec<T> = Vec::new();
    let mut i: usize = 0;
    while i < n
        invariant
            i <= n,
            v@ == repeat(x, i as nat),
        decreases n - i,
    {
        v.push(x);
        i += 1;
        assert(v@ =~= repeat(x, i as nat));
    }
    v
}

/// `n` empty strings.
fn empty_strings(n: usize) -> (v: Vec<String>)
    ensures
        strings_view(v@) == repeat(Seq::<char>::empty(), n as nat),
{
    let mut v: Vec<String> = Vec::new();
    let mut i: usize = 0;
    while i < n
        invariant
            i <= n,
            strings_view(v@) == repeat(Seq::<char>::empty(), i as nat),
        decreases n - i,
    {
        let ghost old_v = v@;
        let e = String::new();
        proof {
            lemma_strings_push(old_v, e);
        }
        v.push(e);
        i += 1;
        assert(strings_view(v@) =~= repeat(Seq::<char>::empty(), i as nat));
    }
    v
}

/// The index of the first file too large for FILESIZES.
fn find_oversize(files: &Vec<FileEntry>) -> (r: Option<usize>)
    ensures
        match r {
            Some(i) => first_oversize(files@) == Some(i as int),
            None => first_oversize(files@) is None,
        },
{
    let mut i: usize = files.len();
    let mut found: Option<usize> = None;
    // Scan from the back so the last hit is the first oversize entry.
    while i > 0
        invariant
            i <= files.len(),
            match found {
                Some(j) => i <= j < files.len() && first_oversize(files@.skip(i as int)) == Some(j - i),
                None => first_oversize(files@.skip(i as int)) is None,
            },
        decreases i,
    {
        i -= 1;
        assert(files@.skip(i as int).drop_first() =~= files@.skip(i + 1));
        if files[i].size > i32::MAX as u64 {
            found = Some(i);
        }
    }
    assert(files@.skip(0) =~= files@);
    found
}

/// The FILESIZES error message.
fn oversize_error(f: &FileEntry) -> (m: String)
    ensures
        m@ == oversize_message(*f),
{
    let mut v: Vec<char> = Vec::new();
    extend_str(&mut v, "file '");
    extend_str(&mut v, f.install_path.as_str());
    extend_str(&mut v, "' is ");
    push_decimal(&mut v, f.size);
    extend_str(
        &mut v,
        " bytes, exceeding the 2 GiB FILESIZES tag limit; use extended CPIO format for packages with files > 2 GiB",
    );
    string_from_chars(&v)
}

/// The size tag of the files.
fn size_values(files: &Vec<FileEntry>, extended: bool, hdr: &mut HeaderBuilder)
    ensures
        final(hdr).entries_view() == old(hdr).entries_view().push(size_entry(files@, extended)),
{
    if extended {
        let mut sizes: Vec<i64> = Vec::new();
        let mut i: usize = 0;
        while i < files.len()
            invariant
                i <= files.len(),
                sizes@ == files@.take(i as int).map_values(|f: FileEntry| f.size as i64),
            decreases files.len() - i,
        {
            sizes.push(#[verifier::truncate] (files[i].size as i64));
            i += 1;
            assert(sizes@ =~= files@.take(i as int).map_values(|f: FileEntry| f.size as i64));
        }
        assert(files@.take(i as int) =~= files@);
        hdr.add_int64(RPMTAG_LONGFILESIZES, sizes);
    } else {
        let mut sizes: Vec<i32> = Vec::new();
        let mut i: usize = 0;
        while i < files.len()
            invariant
                i <= files.len(),
                sizes@ == files@.take(i as int).map_values(|f: FileEntry| f.size as i32),
            decreases files.len() - i,
        {
            sizes.push(#[verifier::truncate] (files[i].size as i32));
            i += 1;
            assert(sizes@ =~= files@.take(i as int).map_values(|f: FileEntry| f.size as i32));
        }
        assert(files@.take(i as int) =~= files@);
        hdr.add_int32(RPMTAG_FILESIZES, sizes);
    }
}

/// The per-entry columns: modes, link targets, flags, users, groups.
fn entry_columns(files: &Vec<FileEntry>) -> (r: (Vec<i16>, Vec<String>, Vec<i32>, Vec<String>, Vec<String>))
    ensures
        r.0@ == files@.map_values(|f: FileEntry| mode_with_type(f) as i16),
        strings_view(r.1@) == files@.map_values(|f: FileEntry| link_target(f)),
        r.2@ == files@.map_values(|f: FileEntry| file_flags(f)),
        strings_view(r.3@) == files@.map_values(|f: FileEntry| f.user@),
        strings_view(r.4@) == files@.map_values(|f: FileEntry| f.group@),
{
    let mut modes: Vec<i16> = Vec::new();
    let mut links: Vec<String> = Vec::new();
    let mut flags: Vec<i32> = Vec::new();
    let mut users: Vec<String> = Vec::new();
    let mut groups: Vec<String> = Vec::new();
    let mut i: usize = 0;
    while i < files.len()
        invariant
            i <= files.len(),
            modes@ == files@.take(i as int).map_values(|f: FileEntry| mode_with_type(f) as i16),
            strings_view(links@) == files@.take(i as int).map_values(|f: FileEntry| link_target(f)),
            flags@ == files@.take(i as int).map_values(|f: FileEntry| file_flags(f)),
            strings_view(users@) == files@.take(i as int).map_values(|f: FileEntry| f.user@),
            strings_view(groups@) == files@.take(i as int).map_values(|f: FileEntry| f.group@),
        decreases files.len() - i,
    {
        let f = &files[i];
        let ghost (l0, u0, g0) = (links@, users@, groups@);
        let m = file_mode_with_type(f);
        modes.push(#[verifier::truncate] (m as i16));
        match &f.entry_type {
            EntryType::Symlink { target } => links.push(target.clone()),
            _ => links.push(String::new()),
        }
        if f.is_config {
            flags.push((RPMFILE_CONFIG | RPMFILE_NOREPLACE) as i32);
        } else {
            flags.push(0);
        }
        users.push(f.user.clone());
        groups.push(f.group.clone());
        proof {
            lemma_strings_push(l0, links@.last());
            lemma_strings_push(u0, users@.last());
            lemma_strings_push(g0, groups@.last());
            assert(links@ == l0.push(links@.last()));
            assert(users@ == u0.push(users@.last()));
            assert(groups@ == g0.push(groups@.last()));
        }
        let ghost t = files@.take(i + 1);
        assert(t =~= files@.take(i as int).push(files@[i as int]));
        i += 1;
        assert(modes@ =~= t.map_values(|f: FileEntry| mode_with_type(f) as i16));
        assert(strings_view(links@) =~= t.map_values(|f: FileEntry| link_target(f)));
        assert(flags@ =~= t.map_values(|f: FileEntry| file_flags(f)));
        assert(strings_view(users@) =~= t.map_values(|f: FileEntry| f.user@));
        assert(strings_view(groups@) =~= t.map_values(|f: FileEntry| f.group@));
    }
    assert(files@.take(i as int) =~= files@);
    (modes, links, flags, users, groups)
}

/// The stored modification times.
fn mtime_values(mtimes: &Vec<Option<u64>>) -> (v: Vec<i32>)
    ensures
        v@ == mtimes@.map_values(|t: Option<u64>| mtime_value(t)),
{
    let mut v: Vec<i32> = Vec::new();
    let mut i: usize = 0;
    while i < mtimes.len()
        invariant
            i <= mtimes.len(),
            v@ == mtimes@.take(i as int).map_values(|t: Option<u64>| mtime_value(t)),
        decreases mtimes.len() - i,
    {
        let x = match mtimes[i] {
            Some(s) => clamp_timestamp(s),
            None => 0,
        };
        v.push(x);
        i += 1;
        assert(v@ =~= mtimes@.take(i as int).map_values(|t: Option<u64>| mtime_value(t)));
    }
    assert(mtimes@.take(i as int) =~= mtimes@);
    v
}

/// The inode numbers as stored (INT32).
fn inode_values(inodes: &Vec<u32>) -> (v: Vec<i32>)
    ensures
        v@ == inodes@.map_values(|x: u32| x as i32),
{
    let mut v: Vec<i32> = Vec::new();
    let mut i: usize = 0;
    while i < inodes.len()
        invariant
            i <= inodes.len(),
            v@ == inodes@.take(i as int).map_values(|x: u32| x as i32),
        decreases inodes.len() - i,
    {
        v.push(#[verifier::truncate] (inodes[i] as i32));
        i += 1;
        assert(v@ =~= inodes@.take(i as int).map_values(|x: u32| x as i32));
    }
    assert(inodes@.take(i as int) =~= inodes@);
    v
}

fn add_attributes(
    hdr: &mut HeaderBuilder,
    files: &Vec<FileEntry>,
    file_digests: &Vec<String>,
    mtimes: &Vec<Option<u64>>,
    inode_map: &InodeMap,
)
    ensures
        final(hdr).entries_view() == old(hdr).entries_view() + attribute_entries(
            files@,
            strings_view(file_digests@),
            mtimes@,
            inode_map.inodes@,
        ),
{
    let n = files.len();
    let (modes, links, flags, users, groups) = entry_columns(files);
    hdr.add_int16(RPMTAG_FILEMODES, modes);
    hdr.add_int16(RPMTAG_FILERDEVS, repeat_exec(0i16, n));
    hdr.add_int32(RPMTAG_FILEMTIMES, mtime_values(mtimes));
    hdr.add_string_array(RPMTAG_FILEDIGESTS, file_digests.clone());
    hdr.add_int32(RPMTAG_FILEDIGESTALGO, single(PGPHASHALGO_SHA256 as i32));
    hdr.add_string_array(RPMTAG_FILELINKTOS, links);
    hdr.add_int32(RPMTAG_FILEFLAGS, flags);
    hdr.add_string_array(RPMTAG_FILEUSERNAME, users);
    hdr.add_string_array(RPMTAG_FILEGROUPNAME, groups);
    hdr.add_int32(RPMTAG_FILEDEVICES, repeat_exec(1i32, n));
    hdr.add_int32(RPMTAG_FILEINODES, inode_values(&inode_map.inodes));
    hdr.add_string_array(RPMTAG_FILELANGS, empty_strings(n));
    hdr.add_int32(RPMTAG_FILECOLORS, repeat_exec(0i32, n));
    hdr.add_int32(RPMTAG_FILECLASS, repeat_exec(0i32, n));
    hdr.add_int32(RPMTAG_FILEVERIFYFLAGS, repeat_exec(RPMVERIFY_ALL as i32, n));
    assert(hdr.entries_view() =~= old(hdr).entries_view() + attribute_entries(
        files@,
        strings_view(file_digests@),
        mtimes@,
        inode_map.inodes@,
    ));
}

/// The name tags from the decomposition of the paths.
fn add_names(hdr: &mut HeaderBuilder, files: &Vec<FileEntry>)
    requires
        files.len() <= i32::MAX,
    ensures
        final(hdr).entries_view() == old(hdr).entries_view() + name_entries(files@),
{
    let (basenames, dirnames, dirindexes) = decompose_paths(files);
    let ghost ds = entry_dirs(files@);
    let ghost fs = first_seen(ds);
    assert(dirindexes@ =~= Seq::new(files@.len(), |k: int| dir_index(fs, ds[k]) as i32)) by {
        assert forall|k: int| 0 <= k < files@.len() implies dirindexes@[k] == dir_index(fs, ds[k]) as i32 by {
            let a = dirindexes@[k] as int;
            assert(strings_view(dirnames@)[a] == ds[k]);
            let c = dir_index(fs, ds[k]);
            assert(0 <= c < fs.len() && fs[c] == ds[k]);
            assert(no_dups(fs));
        }
    }
    hdr.add_string_array(RPMTAG_BASENAMES, basenames);
    hdr.add_string_array(RPMTAG_DIRNAMES, dirnames);
    hdr.add_int32(RPMTAG_DIRINDEXES, dirindexes);
    assert(hdr.entries_view() =~= old(hdr).entries_view() + name_entries(files@));
}

/// Populate file metadata tags. `file_digests` holds the SHA-256 hex
/// digest of each entry (empty where there is no data), `mtimes` the
/// modification time of each entry's source, where it could be read.
pub fn add_file_metadata(
    hdr: &mut HeaderBuilder,
    files: &Vec<FileEntry>,
    needs_extended: bool,
    file_digests: &Vec<String>,
    inode_map: &InodeMap,
    mtimes: &Vec<Option<u64>>,
) -> (r: Result<(), RpmError>)
    requires
        files.len() <= i32::MAX,
    ensures
        r is Ok <==> (needs_extended || first_oversize(files@) is None),
        match r {
            Ok(()) => final(hdr).entries_view() == old(hdr).entries_view() + name_entries(files@)
                + seq![size_entry(files@, needs_extended)] + attribute_entries(
                files@,
                strings_view(file_digests@),
                mtimes@,
                inode_map.inodes@,
            ),
            Err(RpmError::Header(m)) => {
                &&& final(hdr).entries_view() == old(hdr).entries_view() + name_entries(files@)
                &&& m@ == oversize_message(files@[first_oversize(files@)->0])
            },
            Err(_) => false,
        },
{
    add_names(hdr, files);
    if !needs_extended {
        if let Some(i) = find_oversize(files) {
            proof {
                lemma_first_oversize(files@);
            }
            return Err(RpmError::Header(oversize_error(&files[i])));
        }
    }
    let ghost e1 = hdr.entries_view();
    size_values(files, needs_extended, hdr);
    let ghost e2 = hdr.entries_view();
    add_attributes(hdr, files, file_digests, mtimes, inode_map);
    assert(hdr.entries_view() =~= old(hdr).entries_view() + name_entries(files@) + seq![
        size_entry(files@, needs_extended),
    ] + attribute_entries(files@, strings_view(file_digests@), mtimes@, inode_map.inodes@));
    Ok(())
}

/// Where [`first_oversize`] points.
pub proof fn lemma_first_oversize(fs: Seq<FileEntry>)
    ensures
        match first_oversize(fs) {
            Some(i) => 0 <= i < fs.len() && fs[i].size > i32::MAX && forall|j: int|
                0 <= j < i ==> fs[j].size <= i32::MAX,
            None => forall|j: int| 0 <= j < fs.len() ==> fs[j].size <= i32::MAX,
        },
    decreases fs.len(),
{
    if fs.len() > 0 && fs[0].size <= i32::MAX {
        lemma_first_oversize(fs.drop_first());
        assert forall|j: int| 0 < j < fs.len() implies fs[j] == fs.drop_first()[j - 1] by {}
    }
}

// ---------------------------------------------------------------------------
// Scripts
// ---------------------------------------------------------------------------

/// A script tag with its interpreter tag (`/bin/sh`), when the script is set.
pub open spec fn script_pair(tag: u32, prog: u32, s: Option<String>) -> Seq<EntryView> {
    match s {
        Some(x) => seq![(tag, TagData::Str(x@)), (prog, TagData::Str("/bin/sh"@))],
        None => seq![],
    }
}

/// The script tags of a package: pre/post install, pre/post remove and
/// pre/post transaction, in that order.
pub open spec fn script_entries(s: ResolvedScripts) -> Seq<EntryView> {
    script_pair(RPMTAG_PREIN, RPMTAG_PREINPROG, s.pre_install) + script_pair(
        RPMTAG_POSTIN,
        RPMTAG_POSTINPROG,
        s.post_install,
    ) + script_pair(RPMTAG_PREUN, RPMTAG_PREUNPROG, s.pre_remove) + script_pair(
        RPMTAG_POSTUN,
        RPMTAG_POSTUNPROG,
        s.post_remove,
    ) + script_pair(RPMTAG_PRETRANS, RPMTAG_PRETRANSPROG, s.pre_trans) + script_pair(
        RPMTAG_POSTTRANS,
        RPMTAG_POSTTRANSPROG,
        s.post_trans,
    )
}

fn add_script(hdr: &mut HeaderBuilder, tag: u32, prog: u32, s: &Option<String>)
    ensures
        final(hdr).entries_view() == old(hdr).entries_view() + script_pair(tag, prog, *s),
{
    if let Some(x) = s {
        hdr.add_string(tag, x.as_str());
        hdr.add_string(prog, "/bin/sh");
        assert(hdr.entries_view() =~= old(hdr).entries_view() + script_pair(tag, prog, *s));
    } else {
        assert(hdr.entries_view() =~= old(hdr).entries_view() + script_pair(tag, prog, *s));
    }
}

/// Populate script tags.
pub fn add_scripts(hdr: &mut HeaderBuilder, scripts: &ResolvedScripts) -> (r: Result<(), RpmError>)
    ensures
        r is Ok,
        final(hdr).entries_view() == old(hdr).entries_view() + script_entries(*scripts),
{
    add_script(hdr, RPMTAG_PREIN, RPMTAG_PREINPROG, &scripts.pre_install);
    add_script(hdr, RPMTAG_POSTIN, RPMTAG_POSTINPROG, &scripts.post_install);
    add_script(hdr, RPMTAG_PREUN, RPMTAG_PREUNPROG, &scripts.pre_remove);
    add_script(hdr, RPMTAG_POSTUN, RPMTAG_POSTUNPROG, &scripts.post_remove);
    add_script(hdr, RPMTAG_PRETRANS, RPMTAG_PRETRANSPROG, &scripts.pre_trans);
    add_script(hdr, RPMTAG_POSTTRANS, RPMTAG_POSTTRANSPROG, &scripts.post_trans);
    assert(hdr.entries_view() =~= old(hdr).entries_view() + script_entries(*scripts));
    Ok(())
}

// ---------------------------------------------------------------------------
// The metadata header
// ---------------------------------------------------------------------------

/// The file tags of a sub-package with files (none without).
pub open spec fn file_entries(
    fs: Seq<FileEntry>,
    extended: bool,
    digests: Seq<Seq<char>>,
    mtimes: Seq<Option<u64>>,
    inodes: Seq<u32>,
) -> Seq<EntryView> {
    if fs.len() > 0 {
        name_entries(fs) + seq![size_entry(fs, extended)] + attribute_entries(fs, digests, mtimes, inodes)
    } else {
        seq![]
    }
}

/// Every tag of the metadata header but the region tag, in order.
pub open spec fn metadata_entries(
    sub: SubPackage,
    plan: PackagePlan,
    config: Config,
    digests: Seq<Seq<char>>,
    a: Algorithm,
    d: Option<Distro>,
    inodes: Seq<u32>,
    time: u64,
    host: Seq<char>,
    mtimes: Seq<Option<u64>>,
) -> Seq<EntryView> {
    package_metadata_entries(plan, sub, config, a, time, host) + file_entries(
        sub.files@,
        plan.needs_extended_cpio,
        digests,
        mtimes,
        inodes,
    ) + dependency_entries(config, a, d, sub, plan) + script_entries(sub.scripts)
}

/// The metadata header: the tags closed by the immutable region tag.
pub open spec fn metadata_header(es: Seq<EntryView>) -> Result<Seq<u8>, Seq<char>> {
    header_bytes(es.push((RPMTAG_HEADERIMMUTABLE, TagData::Bytes(region_trailer(RPMTAG_HEADERIMMUTABLE, es.len())))))
}

/// Build the metadata header with all package, file, dependency, and script tags.
pub fn build_metadata_header(
    sub_package: &SubPackage,
    plan: &PackagePlan,
    config: &Config,
    file_digests: &Vec<String>,
    algorithm: &Algorithm,
    target_distro: Option<&Distro>,
    inode_map: &InodeMap,
    hostname: &str,
    mtimes: &Vec<Option<u64>>,
) -> (r: Result<Vec<u8>, RpmError>)
    requires
        sub_package.files.len() <= i32::MAX,
    ensures
        !plan.needs_extended_cpio && first_oversize(sub_package.files@) is Some ==> match r {
            Err(RpmError::Header(m)) => m@ == oversize_message(
                sub_package.files@[first_oversize(sub_package.files@)->0],
            ),
            _ => false,
        },
        plan.needs_extended_cpio || first_oversize(sub_package.files@) is None ==> exists|now: u64|
            build_view(r) == metadata_header(
                metadata_entries(
                    *sub_package,
                    *plan,
                    *config,
                    strings_view(file_digests@),
                    *algorithm,
                    distro_of(target_distro),
                    inode_map.inodes@,
                    build_time(*config, now),
                    hostname@,
                    mtimes@,
                ),
            ),
{
    let mut hdr = HeaderBuilder::new();
    let _ = add_package_metadata(&mut hdr, plan, sub_package, config, algorithm, hostname);
    let ghost e1 = hdr.entries_view();
    let ghost now = choose|now: u64|
        e1 == package_metadata_entries(
            *plan,
            *sub_package,
            *config,
            *algorithm,
            build_time(*config, now),
            hostname@,
        );
    if sub_package.files.len() > 0 {
        match add_file_metadata(
            &mut hdr,
            &sub_package.files,
            plan.needs_extended_cpio,
            file_digests,
            inode_map,
            mtimes,
        ) {
            Ok(()) => {},
            Err(e) => {
                return Err(e);
            },
        }
    } else {
        proof {
            lemma_first_oversize(sub_package.files@);
        }
    }
    let ghost e2 = hdr.entries_view();
    let _ = add_dependencies(&mut hdr, config, algorithm, target_distro, sub_package, plan);
    let _ = add_scripts(&mut hdr, &sub_package.scripts);
    let ghost es = metadata_entries(
        *sub_package,
        *plan,
        *config,
        strings_view(file_digests@),
        *algorithm,
        distro_of(target_distro),
        inode_map.inodes@,
        build_time(*config, now),
        hostname@,
        mtimes@,
    );
    assert(hdr.entries_view() =~= es);
    assert(es.len() < 100);
    hdr.add_region_tag(RPMTAG_HEADERIMMUTABLE);
    hdr.build()
}

// ---------------------------------------------------------------------------
// Laws
// ---------------------------------------------------------------------------

/// Reproducible builds: with `SOURCE_DATE_EPOCH` configured, the metadata
/// header does not depend on the time of the build.
pub proof fn law_epoch_makes_header_reproducible(
    sub: SubPackage,
    plan: PackagePlan,
    config: Config,
    digests: Seq<Seq<char>>,
    a: Algorithm,
    d: Option<Distro>,
    inodes: Seq<u32>,
    host: Seq<char>,
    mtimes: Seq<Option<u64>>,
    now1: u64,
    now2: u64,
)
    requires
        epoch_setting(config) is Some,
    ensures
        metadata_header(
            metadata_entries(sub, plan, config, digests, a, d, inodes, build_time(config, now1), host, mtimes),
        ) == metadata_header(
            metadata_entries(sub, plan, config, digests, a, d, inodes, build_time(config, now2), host, mtimes),
        ),
{
}

/// A meta-package requires every part of the plan at exactly the plan's
/// version and release.
pub proof fn law_meta_requires_every_part(subs: Seq<SubPackage>, vr: Seq<char>, k: int)
    requires
        0 <= k < subs.len(),
        subs[k].role is Part,
    ensures
        part_deps(subs, vr).contains((subs[k].name@, vr, RPMSENSE_EQUAL as i32)),
    decreases subs.len(),
{
    if k == subs.len() - 1 {
        let p = part_deps(subs.drop_last(), vr);
        assert(part_deps(subs, vr) == p.push((subs[k].name@, vr, RPMSENSE_EQUAL as i32)));
        assert(part_deps(subs, vr)[p.len() as int] == (subs[k].name@, vr, RPMSENSE_EQUAL as i32));
    } else {
        assert(subs.drop_last()[k] == subs[k]);
        law_meta_requires_every_part(subs.drop_last(), vr, k);
        let p = part_deps(subs.drop_last(), vr);
        let j = choose|j: int| 0 <= j < p.len() && p[j] == (subs[k].name@, vr, RPMSENSE_EQUAL as i32);
        assert(part_deps(subs, vr)[j] == p[j]);
    }
}

// ---------------------------------------------------------------------------
// File digests
// ---------------------------------------------------------------------------

/// Whether an entry's contents are hashed for the `FILEDIGESTS` tag: a
/// regular file read from disk, or a hard link that carries the data.
/// Directories, symbolic links and the other entries get an empty digest.
pub open spec fn has_file_digest(e: FileEntry) -> bool {
    match e.entry_type {
        EntryType::RegularFile => e.source_path@.len() > 0,
        EntryType::Hardlink { .. } => e.size > 0,
        _ => false,
    }
}

/// Whether an entry's contents are hashed (see [`has_file_digest`]).
pub fn needs_file_digest(entry: &FileEntry) -> (r: bool)
    ensures
        r == has_file_digest(*entry),
{
    match &entry.entry_type {
        EntryType::RegularFile => !entry.source_path.as_str().is_empty(),
        EntryType::Hardlink { .. } => entry.size > 0,
        _ => false,
    }
}

/// The SHA-256 hex digest of everything `src` yields; a read error is
/// `RpmError::Io`.
pub fn sha256_file<R: std::io::Read>(src: &mut R) -> (r: Result<String, RpmError>)
    ensures
        r matches Ok(h) ==> crate::hashing::is_lower_hex(h@, 64),
        r matches Err(e) ==> e is Io,
{
    match crate::hashing::sha256_hex_of_reader(src) {
        Ok(h) => Ok(h),
        Err(e) => Err(RpmError::Io(e)),
    }
}

/// The file digest of one entry, read from `src` where the entry is hashed
/// (see [`has_file_digest`]), and the empty string, with nothing read,
/// where it is not.
pub fn file_digest<R: std::io::Read>(entry: &FileEntry, src: &mut R) -> (r: Result<String, RpmError>)
    ensures
        !has_file_digest(*entry) ==> (r matches Ok(h) && h@ == Seq::<char>::empty()),
        has_file_digest(*entry) ==> (r matches Ok(h) ==> crate::hashing::is_lower_hex(h@, 64)),
        r matches Err(e) ==> e is Io,
{
    if needs_file_digest(entry) {
        sha256_file(src)
    } else {
        Ok(String::new())
    }
}


/// Where the data of an entry's archive record comes from.
#[derive(Debug, PartialEq, Eq)]
pub enum EntryData {
    /// The contents of the entry's source file.
    SourceFile,
    /// No data.
    Nothing,
    /// The bytes of a symbolic link's target.
    LinkTarget(String),
}

/// The data source of an entry whose record declares `filesize` bytes: a
/// regular file's contents, a link's target, nothing for a directory, and
/// for a hard link its contents, or nothing where its record is empty.
pub fn entry_data(entry: &FileEntry, filesize: u64) -> (r: EntryData)
    ensures
        match entry.entry_type {
            EntryType::RegularFile => r == EntryData::SourceFile,
            EntryType::Directory => r == EntryData::Nothing,
            EntryType::Symlink { target } => r matches EntryData::LinkTarget(t) && t@ == target@,
            EntryType::Hardlink { .. } => r == if filesize == 0 {
                EntryData::Nothing
            } else {
                EntryData::SourceFile
            },
        },
{
    match &entry.entry_type {
        EntryType::RegularFile => EntryData::SourceFile,
        EntryType::Directory => EntryData::Nothing,
        EntryType::Symlink { target } => EntryData::LinkTarget(target.clone()),
        EntryType::Hardlink { .. } => if filesize == 0 {
            EntryData::Nothing
        } else {
            EntryData::SourceFile
        },
    }
}

/// The metadata header of a package with files lists each file's owning
/// user under `FILEUSERNAME` and its group under `FILEGROUPNAME`, in the
/// order of the files; within the per-file tags, these are the only entries
/// with those tags.
pub proof fn law_file_owners_in_header(
    sub: SubPackage,
    plan: PackagePlan,
    config: Config,
    digests: Seq<Seq<char>>,
    a: Algorithm,
    d: Option<Distro>,
    inodes: Seq<u32>,
    time: u64,
    host: Seq<char>,
    mtimes: Seq<Option<u64>>,
)
    requires
        sub.files@.len() > 0,
    ensures
        ({
            let es = metadata_entries(sub, plan, config, digests, a, d, inodes, time, host, mtimes);
            let fe = file_entries(sub.files@, plan.needs_extended_cpio, digests, mtimes, inodes);
            let users = Seq::new(sub.files@.len(), |i: int| sub.files@[i].user@);
            let groups = Seq::new(sub.files@.len(), |i: int| sub.files@[i].group@);
            &&& exists|k: int| 0 <= k < es.len() && #[trigger] es[k] == (RPMTAG_FILEUSERNAME, TagData::StrArray(users))
            &&& exists|k: int| 0 <= k < es.len() && #[trigger] es[k] == (RPMTAG_FILEGROUPNAME, TagData::StrArray(groups))
            &&& forall|k: int| 0 <= k < fe.len() && (#[trigger] fe[k]).0 == RPMTAG_FILEUSERNAME ==> fe[k].1 == TagData::StrArray(users)
            &&& forall|k: int| 0 <= k < fe.len() && (#[trigger] fe[k]).0 == RPMTAG_FILEGROUPNAME ==> fe[k].1 == TagData::StrArray(groups)
        }),
{
    let fs = sub.files@;
    let pm = package_metadata_entries(plan, sub, config, a, time, host);
    let ne = name_entries(fs);
    let se = seq![size_entry(fs, plan.needs_extended_cpio)];
    let at = attribute_entries(fs, digests, mtimes, inodes);
    let fe = file_entries(fs, plan.needs_extended_cpio, digests, mtimes, inodes);
    let rest = dependency_entries(config, a, d, sub, plan) + script_entries(sub.scripts);
    let es = metadata_entries(sub, plan, config, digests, a, d, inodes, time, host, mtimes);
    let users = Seq::new(fs.len(), |i: int| fs[i].user@);
    let groups = Seq::new(fs.len(), |i: int| fs[i].group@);
    assert(fs.map_values(|f: FileEntry| f.user@) =~= users);
    assert(fs.map_values(|f: FileEntry| f.group@) =~= groups);
    assert(fe == ne + se + at);
    assert(es =~= pm + fe + rest);
    assert(at[7] == (RPMTAG_FILEUSERNAME, TagData::StrArray(users)));
    assert(at[8] == (RPMTAG_FILEGROUPNAME, TagData::StrArray(groups)));
    let fu: int = ne.len() as int + 8;
    let fg: int = ne.len() as int + 9;
    let ku: int = pm.len() + fu;
    let kg: int = pm.len() + fg;
    assert(fe[fu] == at[7]);
    assert(fe[fg] == at[8]);
    assert(es[ku] == fe[fu]);
    assert(es[kg] == fe[fg]);
    assert forall|k: int| 0 <= k < fe.len() && (#[trigger] fe[k]).0 == RPMTAG_FILEUSERNAME implies fe[k].1
        == TagData::StrArray(users) by {
        if k < 3 {
            assert(fe[k] == ne[k]);
        } else if k == 3 {
            assert(fe[k] == se[0]);
        } else {
            assert(fe[k] == at[k - 4]);
        }
    }
    assert forall|k: int| 0 <= k < fe.len() && (#[trigger] fe[k]).0 == RPMTAG_FILEGROUPNAME implies fe[k].1
        == TagData::StrArray(groups) by {
        if k < 3 {
            assert(fe[k] == ne[k]);
        } else if k == 3 {
            assert(fe[k] == se[0]);
        } else {
            assert(fe[k] == at[k - 4]);
        }
    }
}

} // verus!
