//! What `spm plan` reports of a package plan, and the per-format choices
//! of the command line: file names, limits and dependency rules.
use vstd::prelude::*;

use crate::cli::{comma_grouped, format_file_count};
use crate::config::Config;
use crate::deps::{strings_view, DepFormat};
use crate::distro::{min_dpkg_version, min_rpm_version, minimum_dpkg_version, minimum_rpm_version};
use crate::planner::{
    count_files, estimated_compressed, estimated_compressed_size, non_dir_entries, PackagePlan, SubPackage,
    SubPackageRole,
};
use crate::text::{decimal, extend_str, push_signed_decimal, signed_decimal, str_eq, string_from_chars};
use crate::types::{deb_arch_name, format_size, format_size_text, FormatLimits, PackageFileName};

verus! {

// ---------------------------------------------------------------------------
// Per-format choices
// ---------------------------------------------------------------------------

/// The file name of a package of format `fmt`: RPM naming for `rpm`, DEB
/// naming otherwise.
pub open spec fn package_file_name_of(fmt: Seq<char>, name: Seq<char>, plan: PackagePlan) -> Seq<char> {
    if fmt == "rpm"@ {
        name + "-"@ + plan.version@ + "-"@ + plan.release@ + "."@ + plan.arch@ + ".rpm"@
    } else {
        name + "_"@ + plan.version@ + "-"@ + plan.release@ + "_"@ + deb_arch_name(plan.arch@) + ".deb"@
    }
}

/// The file name of a package of format `fmt` (see [`package_file_name_of`]).
pub fn package_file_name(fmt: &str, name: &str, plan: &PackagePlan) -> (r: String)
    ensures
        r@ == package_file_name_of(fmt@, name@, *plan),
{
    if str_eq(fmt, "rpm") {
        PackageFileName::rpm(name, plan.version.as_str(), plan.release.as_str(), plan.arch.as_str())
    } else {
        PackageFileName::deb(name, plan.version.as_str(), plan.release.as_str(), plan.arch.as_str())
    }
}

/// The size limits of format `fmt`: RPM's for `rpm`, DEB's otherwise.
pub fn format_limits(fmt: &str) -> (l: FormatLimits)
    ensures
        fmt@ == "rpm"@ ==> l.max_compressed_payload == u64::MAX && l.max_file_size_standard == 0xFFFF_FFFF
            && l.format_name@ == "rpm"@,
        fmt@ != "rpm"@ ==> l.max_compressed_payload == 9_999_999_999 && l.max_file_size_standard == u64::MAX
            && l.format_name@ == "deb"@,
{
    if str_eq(fmt, "rpm") {
        FormatLimits::rpm()
    } else {
        FormatLimits::deb()
    }
}

/// The dependency rules of format `fmt`: RPM's for `rpm`, DEB's otherwise.
pub fn dep_format_of(fmt: &str) -> (f: DepFormat)
    ensures
        f == (if fmt@ == "rpm"@ {
            DepFormat::Rpm
        } else {
            DepFormat::Deb
        }),
{
    if str_eq(fmt, "rpm") {
        DepFormat::Rpm
    } else {
        DepFormat::Deb
    }
}

// ---------------------------------------------------------------------------
// The plan report
// ---------------------------------------------------------------------------

/// The number of files (entries other than directories) of the sub-packages.
pub open spec fn total_file_count(subs: Seq<SubPackage>) -> nat
    decreases subs.len(),
{
    if subs.len() == 0 {
        0
    } else {
        total_file_count(subs.drop_last()) + non_dir_entries(subs.last().files@).len()
    }
}

/// ` -<level>` when a compression level is set, else nothing.
pub open spec fn level_text(config: Config) -> Seq<char> {
    match config.compression.level {
        Some(l) => " -"@ + signed_decimal(l as int),
        None => seq![],
    }
}

/// The line of one sub-package in the split plan: a meta-package and each
/// part are listed, a standalone package is not.
pub open spec fn sub_line(fmt: Seq<char>, sp: SubPackage, plan: PackagePlan) -> Seq<Seq<char>> {
    let f = package_file_name_of(fmt, sp.name@, plan);
    match sp.role {
        SubPackageRole::Meta => seq!["    "@ + f + "  (meta-package)"@],
        SubPackageRole::Part(_) => seq![
            "    "@ + f + "  (~"@ + format_size_text(sp.total_size as nat) + ", "@ + comma_grouped(
                decimal(non_dir_entries(sp.files@).len()),
            ) + " files)"@,
        ],
        SubPackageRole::Standalone => seq![],
    }
}

/// The lines of the sub-packages in the split plan.
pub open spec fn sub_lines(fmt: Seq<char>, subs: Seq<SubPackage>, plan: PackagePlan) -> Seq<Seq<char>>
    decreases subs.len(),
{
    if subs.len() == 0 {
        seq![]
    } else {
        sub_lines(fmt, subs.drop_last(), plan) + sub_line(fmt, subs.last(), plan)
    }
}

/// How the package is split: by the DEB builder as it streams, into the
/// planned parts, or not at all.
pub open spec fn split_lines(fmt: Seq<char>, plan: PackagePlan) -> Seq<Seq<char>> {
    if plan.deferred_split {
        seq!["  Splitting: AUTO (actual split point determined at build time based on compressed size)"@]
    } else if plan.is_split {
        seq!["  Splitting: REQUIRED"@, "  Split plan:"@] + sub_lines(fmt, plan.sub_packages@, plan)
    } else if fmt == "rpm"@ {
        seq!["  Splitting: NOT REQUIRED (RPM supports packages > 4 GiB with rpm >= 4.6)"@]
    } else {
        seq!["  Splitting: NOT REQUIRED"@]
    }
}

/// The minimum package manager version, with its reason.
pub open spec fn minimum_line(fmt: Seq<char>, plan: PackagePlan, config: Config) -> Seq<char> {
    if fmt == "rpm"@ {
        let (v, why) = min_rpm_version(
            config.compression.algorithm@,
            plan.total_size > 0xFFFF_FFFFu64 || plan.needs_extended_cpio,
        );
        "  Minimum rpm version: "@ + v + " ("@ + why + ")"@
    } else {
        let (v, why) = min_dpkg_version(config.compression.algorithm@);
        "  Minimum dpkg version: "@ + v + " ("@ + why + ")"@
    }
}

/// The summary lines of a plan: the package file, the file count, the
/// uncompressed and estimated compressed sizes, the RPM payload format,
/// the splitting and the minimum package manager version.
pub open spec fn plan_summary(fmt: Seq<char>, plan: PackagePlan, config: Config) -> Seq<Seq<char>> {
    let f = package_file_name_of(fmt, plan.name@, plan);
    seq![
        "Package: "@ + f,
        "  Files: "@ + comma_grouped(decimal(total_file_count(plan.sub_packages@))),
        "  Uncompressed: "@ + format_size_text(plan.total_size as nat),
        "  Estimated compressed ("@ + config.compression.algorithm@ + level_text(config) + "): ~"@
            + format_size_text(estimated_compressed(plan.total_size as nat, config.compression.algorithm@)),
        seq![],
    ] + (if fmt == "rpm"@ {
        if plan.needs_extended_cpio {
            seq!["  RPM payload format: 07070X (extended cpio, files > 4 GiB detected)"@]
        } else {
            seq!["  RPM payload format: 070701 (standard cpio)"@]
        }
    } else {
        seq![]
    }) + split_lines(fmt, plan) + seq![minimum_line(fmt, plan, config)]
}

/// The closing lines of a plan: its warnings, each after a blank line,
/// then where the package goes.
pub open spec fn plan_closing(fmt: Seq<char>, plan: PackagePlan) -> Seq<Seq<char>> {
    warning_lines(strings_view(plan.warnings@)) + seq![
        seq![],
        "  Output: ./out/"@ + package_file_name_of(fmt, plan.name@, plan),
    ]
}

/// Each warning after a blank line.
pub open spec fn warning_lines(ws: Seq<Seq<char>>) -> Seq<Seq<char>>
    decreases ws.len(),
{
    if ws.len() == 0 {
        seq![]
    } else {
        warning_lines(ws.drop_last()) + seq![seq![], "  Warning: "@ + ws.last()]
    }
}

fn push_line(out: &mut Vec<String>, v: &Vec<char>)
    ensures
        strings_view(final(out)@) == strings_view(old(out)@).push(v@),
{
    let ghost before = out@;
    out.push(string_from_chars(v));
    assert(strings_view(out@) =~= strings_view(before).push(v@));
}

fn total_files(subs: &Vec<SubPackage>) -> (n: usize)
    requires
        total_file_count(subs@) <= usize::MAX,
    ensures
        n == total_file_count(subs@),
{
    let mut n: usize = 0;
    let mut i: usize = 0;
    while i < subs.len()
        invariant
            i <= subs.len(),
            n == total_file_count(subs@.take(i as int)),
            total_file_count(subs@) <= usize::MAX,
        decreases subs.len() - i,
    {
        assert(subs@.take(i + 1).drop_last() =~= subs@.take(i as int));
        proof {
            lemma_total_prefix(subs@, i + 1);
        }
        n = n + count_files(&subs[i].files);
        i += 1;
    }
    assert(subs@.take(subs.len() as int) =~= subs@);
    n
}

proof fn lemma_total_prefix(subs: Seq<SubPackage>, k: int)
    requires
        0 <= k <= subs.len(),
    ensures
        total_file_count(subs.take(k)) <= total_file_count(subs),
    decreases subs.len() - k,
{
    if k < subs.len() {
        lemma_total_prefix(subs, k + 1);
        assert(subs.take(k + 1).drop_last() =~= subs.take(k));
    } else {
        assert(subs.take(k) =~= subs);
    }
}

fn push_sub_lines(out: &mut Vec<String>, fmt: &str, plan: &PackagePlan)
    ensures
        strings_view(final(out)@) == strings_view(old(out)@) + sub_lines(fmt@, plan.sub_packages@, *plan),
{
    let subs = &plan.sub_packages;
    let mut i: usize = 0;
    assert(subs@.take(0) =~= Seq::<SubPackage>::empty());
    assert(strings_view(out@) =~= strings_view(old(out)@) + sub_lines(fmt@, subs@.take(0), *plan));
    while i < subs.len()
        invariant
            i <= subs.len(),
            subs == plan.sub_packages,
            strings_view(out@) == strings_view(old(out)@) + sub_lines(fmt@, subs@.take(i as int), *plan),
        decreases subs.len() - i,
    {
        assert(subs@.take(i + 1).drop_last() =~= subs@.take(i as int));
        let sp = &subs[i];
        assert(subs@.take(i + 1).last() == *sp);
        let ghost before = strings_view(out@);
        match sp.role {
            SubPackageRole::Meta => {
                let mut v: Vec<char> = Vec::new();
                extend_str(&mut v, "    ");
                extend_str(&mut v, package_file_name(fmt, sp.name.as_str(), plan).as_str());
                extend_str(&mut v, "  (meta-package)");
                push_line(out, &v);
            },
            SubPackageRole::Part(_) => {
                let mut v: Vec<char> = Vec::new();
                extend_str(&mut v, "    ");
                extend_str(&mut v, package_file_name(fmt, sp.name.as_str(), plan).as_str());
                extend_str(&mut v, "  (~");
                extend_str(&mut v, format_size(sp.total_size).as_str());
                extend_str(&mut v, ", ");
                extend_str(&mut v, format_file_count(count_files(&sp.files)).as_str());
                extend_str(&mut v, " files)");
                push_line(out, &v);
            },
            SubPackageRole::Standalone => {},
        }
        assert(strings_view(out@) =~= before + sub_line(fmt@, *sp, *plan));
        i += 1;
    }
    assert(subs@.take(subs.len() as int) =~= subs@);
}

fn lit_line(out: &mut Vec<String>, s: &str)
    ensures
        strings_view(final(out)@) == strings_view(old(out)@).push(s@),
{
    let mut v: Vec<char> = Vec::new();
    extend_str(&mut v, s);
    push_line(out, &v);
}

fn push_split_lines(out: &mut Vec<String>, fmt: &str, plan: &PackagePlan)
    ensures
        strings_view(final(out)@) == strings_view(old(out)@) + split_lines(fmt@, *plan),
{
    let ghost before = strings_view(out@);
    if plan.deferred_split {
        lit_line(out, "  Splitting: AUTO (actual split point determined at build time based on compressed size)");
    } else if plan.is_split {
        lit_line(out, "  Splitting: REQUIRED");
        lit_line(out, "  Split plan:");
        let ghost mid = strings_view(out@);
        push_sub_lines(out, fmt, plan);
        assert(strings_view(out@) =~= before + split_lines(fmt@, *plan));
    } else if str_eq(fmt, "rpm") {
        lit_line(out, "  Splitting: NOT REQUIRED (RPM supports packages > 4 GiB with rpm >= 4.6)");
    } else {
        lit_line(out, "  Splitting: NOT REQUIRED");
    }
    assert(strings_view(out@) =~= before + split_lines(fmt@, *plan));
}

/// The summary lines that `spm plan` prints for a plan in format `fmt`
/// (see [`plan_summary`]).
pub fn plan_summary_lines(fmt: &str, plan: &PackagePlan, config: &Config) -> (r: Vec<String>)
    requires
        total_file_count(plan.sub_packages@) <= usize::MAX,
    ensures
        strings_view(r@) == plan_summary(fmt@, *plan, *config),
{
    let mut out: Vec<String> = Vec::new();
    let name = package_file_name(fmt, plan.name.as_str(), plan);
    let mut v: Vec<char> = Vec::new();
    extend_str(&mut v, "Package: ");
    extend_str(&mut v, name.as_str());
    push_line(&mut out, &v);
    let mut v: Vec<char> = Vec::new();
    extend_str(&mut v, "  Files: ");
    extend_str(&mut v, format_file_count(total_files(&plan.sub_packages)).as_str());
    push_line(&mut out, &v);
    let mut v: Vec<char> = Vec::new();
    extend_str(&mut v, "  Uncompressed: ");
    extend_str(&mut v, format_size(plan.total_size).as_str());
    push_line(&mut out, &v);
    let algo = config.compression.algorithm.as_str();
    let mut v: Vec<char> = Vec::new();
    extend_str(&mut v, "  Estimated compressed (");
    extend_str(&mut v, algo);
    match config.compression.level {
        Some(l) => {
            extend_str(&mut v, " -");
            push_signed_decimal(&mut v, l as i64);
        },
        None => {},
    }
    extend_str(&mut v, "): ~");
    extend_str(&mut v, format_size(estimated_compressed_size(plan.total_size, algo)).as_str());
    assert(v@ =~= "  Estimated compressed ("@ + config.compression.algorithm@ + level_text(*config) + "): ~"@
        + format_size_text(estimated_compressed(plan.total_size as nat, config.compression.algorithm@)));
    push_line(&mut out, &v);
    let empty: Vec<char> = Vec::new();
    push_line(&mut out, &empty);
    let ghost head = strings_view(out@);
    let is_rpm = str_eq(fmt, "rpm");
    if is_rpm {
        if plan.needs_extended_cpio {
            lit_line(&mut out, "  RPM payload format: 07070X (extended cpio, files > 4 GiB detected)");
        } else {
            lit_line(&mut out, "  RPM payload format: 070701 (standard cpio)");
        }
    }
    let ghost with_payload = strings_view(out@);
    push_split_lines(&mut out, fmt, plan);
    let mut v: Vec<char> = Vec::new();
    if is_rpm {
        let (ver, why) = minimum_rpm_version(algo, plan.total_size > 0xFFFF_FFFF, plan.needs_extended_cpio);
        extend_str(&mut v, "  Minimum rpm version: ");
        extend_str(&mut v, ver);
        extend_str(&mut v, " (");
        extend_str(&mut v, why);
        extend_str(&mut v, ")");
    } else {
        let (ver, why) = minimum_dpkg_version(algo);
        extend_str(&mut v, "  Minimum dpkg version: ");
        extend_str(&mut v, ver);
        extend_str(&mut v, " (");
        extend_str(&mut v, why);
        extend_str(&mut v, ")");
    }
    assert(v@ =~= minimum_line(fmt@, *plan, *config));
    push_line(&mut out, &v);
    assert(strings_view(out@) =~= plan_summary(fmt@, *plan, *config));
    out
}

/// The closing lines that `spm plan` prints for a plan in format `fmt`
/// (see [`plan_closing`]).
pub fn plan_closing_lines(fmt: &str, plan: &PackagePlan) -> (r: Vec<String>)
    ensures
        strings_view(r@) == plan_closing(fmt@, *plan),
{
    let mut out: Vec<String> = Vec::new();
    let ws = &plan.warnings;
    let mut i: usize = 0;
    let empty: Vec<char> = Vec::new();
    assert(strings_view(ws@).take(0) =~= Seq::<Seq<char>>::empty());
    while i < ws.len()
        invariant
            i <= ws.len(),
            ws == plan.warnings,
            empty@ == Seq::<char>::empty(),
            strings_view(out@) == warning_lines(strings_view(ws@).take(i as int)),
        decreases ws.len() - i,
    {
        let ghost before = strings_view(out@);
        push_line(&mut out, &empty);
        let mut v: Vec<char> = Vec::new();
        extend_str(&mut v, "  Warning: ");
        extend_str(&mut v, ws[i].as_str());
        push_line(&mut out, &v);
        assert(strings_view(ws@).take(i + 1).drop_last() =~= strings_view(ws@).take(i as int));
        assert(strings_view(out@) =~= warning_lines(strings_view(ws@).take(i + 1)));
        i += 1;
    }
    assert(strings_view(ws@).take(ws.len() as int) =~= strings_view(ws@));
    push_line(&mut out, &empty);
    let mut v: Vec<char> = Vec::new();
    extend_str(&mut v, "  Output: ./out/");
    extend_str(&mut v, package_file_name(fmt, plan.name.as_str(), plan).as_str());
    push_line(&mut out, &v);
    assert(strings_view(out@) =~= plan_closing(fmt@, *plan));
    out
}

} // verus!
