//! Package planning: size totals, split decisions and the resulting plan.
//!
//! Given the entries of a package, its configuration and the limits of the
//! target format, the planner decides whether the package stays whole, is
//! split by accumulated size or by directory, or is left to the DEB builder
//! to split while it streams; it then assigns the entries to sub-packages.
//! Every part of a split carries the directory entries of the ancestors of
//! its files, and a hard link whose target went to another part becomes a
//! regular file.
use vstd::prelude::*;
use vstd::multiset::Multiset;

use crate::alternatives::ResolvedScripts;
use crate::binary64::{
    percent_exec, percent_parts, round53, round53_exec, round_div_even, round_div_even_exec,
    scaled_floor, scaled_floor_exec,
};
use crate::config::{Config, ConfigError, SplitPart};
use crate::deps::strings_view;
use crate::filetree::{copy_entry, is_dir_entry, is_dir_exec, EntryType, FileEntry, FileTreeError};
use crate::paths::{
    comps_eq, comps_prefix, comps_prefix_exec, is_proper_ancestor, is_proper_ancestor_exec, path_comps,
    path_comps_exec,
};
use crate::text::{decimal, extend_str, lit, push_decimal, push_decimal_wide, str_eq, string_from_chars, vviews};
use crate::types::{format_size, format_size_text, parse_size, parse_size_result, FormatLimits};

verus! {

/// The complete output of the planning phase.
#[derive(Debug)]
pub struct PackagePlan {
    /// Package name.
    pub name: String,
    /// Package version.
    pub version: String,
    /// Release number.
    pub release: String,
    /// Target architecture.
    pub arch: String,
    /// Sub-packages to build.
    pub sub_packages: Vec<SubPackage>,
    /// Whether the package is split into multiple parts.
    pub is_split: bool,
    /// Whether any file exceeds the standard cpio 4 GiB limit (RPM-specific).
    pub needs_extended_cpio: bool,
    /// Total uncompressed size across all sub-packages.
    pub total_size: u64,
    /// Non-fatal warnings generated during planning.
    pub warnings: Vec<String>,
    /// When true, the DEB builder should perform monitored streaming split
    /// instead of relying on pre-computed SubPackage boundaries. The plan
    /// will contain a single SubPackage with all files.
    pub deferred_split: bool,
}

/// A single buildable package (standalone, meta-package, or part of a split).
#[derive(Debug)]
pub struct SubPackage {
    /// Package name (e.g., "matlab-2025a" or "matlab-2025a-part1").
    pub name: String,
    /// Role of this sub-package.
    pub role: SubPackageRole,
    /// Files included in this sub-package.
    pub files: Vec<FileEntry>,
    /// Total uncompressed size of files in this sub-package.
    pub total_size: u64,
    /// Resolved scripts (only populated for standalone or meta packages).
    pub scripts: ResolvedScripts,
}

/// The role of a sub-package within a package plan.
#[derive(Debug, Clone, Copy, PartialEq, Eq, Structural)]
pub enum SubPackageRole {
    /// Single package (no splitting).
    Standalone,
    /// Meta-package: no files, depends on all parts.
    Meta,
    /// Part N of a split package.
    Part(u32),
}

/// Produces a `PackagePlan` from a config and format limits.
pub struct Planner;

/// Errors that can occur during package planning.
#[derive(Debug)]
pub enum PlanError {
    /// Error building the file tree.
    FileTree(FileTreeError),
    /// Error in config.
    Config(ConfigError),
    /// Could not read a script file referenced in config.
    ScriptRead { path: String, source: std::io::Error },
    /// Invalid size string (e.g., "8GiB" parsing failure).
    InvalidSize { value: String, reason: String },
    /// Splitting is disabled but the package exceeds format limits.
    ExceedsLimits { format: String, total_size: u64 },
}

// ---------------------------------------------------------------------------
// Entry sequences
// ---------------------------------------------------------------------------

/// Sum of the entry sizes.
pub open spec fn sizes_sum(fs: Seq<FileEntry>) -> nat
    decreases fs.len(),
{
    if fs.len() == 0 {
        0
    } else {
        sizes_sum(fs.drop_last()) + fs.last().size as nat
    }
}

/// The directory entries, in order.
pub open spec fn dir_entries(fs: Seq<FileEntry>) -> Seq<FileEntry>
    decreases fs.len(),
{
    if fs.len() == 0 {
        seq![]
    } else if is_dir_entry(fs.last()) {
        dir_entries(fs.drop_last()).push(fs.last())
    } else {
        dir_entries(fs.drop_last())
    }
}

/// The entries other than directories, in order.
pub open spec fn non_dir_entries(fs: Seq<FileEntry>) -> Seq<FileEntry>
    decreases fs.len(),
{
    if fs.len() == 0 {
        seq![]
    } else if is_dir_entry(fs.last()) {
        non_dir_entries(fs.drop_last())
    } else {
        non_dir_entries(fs.drop_last()).push(fs.last())
    }
}

/// No entry is a directory.
pub open spec fn no_dirs(fs: Seq<FileEntry>) -> bool {
    forall|i: int| 0 <= i < fs.len() ==> !is_dir_entry(#[trigger] fs[i])
}

/// A part of a split: its entries and their total size.
pub type PartView = (Seq<FileEntry>, nat);

/// The view of split parts.
pub open spec fn parts_view(ps: Seq<(Vec<FileEntry>, u64)>) -> Seq<PartView> {
    ps.map_values(|p: (Vec<FileEntry>, u64)| (p.0@, p.1 as nat))
}

/// Sum of the part sizes.
pub open spec fn parts_total(ps: Seq<PartView>) -> nat
    decreases ps.len(),
{
    if ps.len() == 0 {
        0
    } else {
        parts_total(ps.drop_last()) + ps.last().1
    }
}

pub proof fn lemma_sizes_take(fs: Seq<FileEntry>, i: int)
    requires
        0 <= i <= fs.len(),
    ensures
        sizes_sum(fs.take(i)) <= sizes_sum(fs),
    decreases fs.len() - i,
{
    if i < fs.len() {
        lemma_sizes_take(fs, i + 1);
        assert(fs.take(i + 1).drop_last() =~= fs.take(i));
    } else {
        assert(fs.take(i) =~= fs);
    }
}

pub proof fn lemma_sizes_split(fs: Seq<FileEntry>)
    ensures
        sizes_sum(non_dir_entries(fs)) + sizes_sum(dir_entries(fs)) == sizes_sum(fs),
        no_dirs(non_dir_entries(fs)),
        forall|i: int|
            0 <= i < dir_entries(fs).len() ==> is_dir_entry(#[trigger] dir_entries(fs)[i]),
    decreases fs.len(),
{
    if fs.len() > 0 {
        lemma_sizes_split(fs.drop_last());
        let nd = non_dir_entries(fs.drop_last());
        let dd = dir_entries(fs.drop_last());
        if is_dir_entry(fs.last()) {
            assert(dd.push(fs.last()).drop_last() =~= dd);
        } else {
            assert(nd.push(fs.last()).drop_last() =~= nd);
        }
    }
}

fn split_dirs(files: &Vec<FileEntry>) -> (r: (Vec<FileEntry>, Vec<FileEntry>))
    ensures
        r.0@ == dir_entries(files@),
        r.1@ == non_dir_entries(files@),
{
    let mut dirs: Vec<FileEntry> = Vec::new();
    let mut others: Vec<FileEntry> = Vec::new();
    let mut i: usize = 0;
    while i < files.len()
        invariant
            i <= files.len(),
            dirs@ == dir_entries(files@.take(i as int)),
            others@ == non_dir_entries(files@.take(i as int)),
        decreases files.len() - i,
    {
        assert(files@.take(i + 1).drop_last() =~= files@.take(i as int));
        let e = copy_entry(&files[i]);
        if is_dir_exec(&e) {
            dirs.push(e);
        } else {
            others.push(e);
        }
        i += 1;
    }
    assert(files@.take(files.len() as int) =~= files@);
    (dirs, others)
}

// ---------------------------------------------------------------------------
// Splitting by size
// ---------------------------------------------------------------------------

/// Greedy state after the entries `xs`: the closed parts, and the entries
/// and size of the part being filled. An entry starts a new part when it
/// would take the current, non-empty part past `max`.
pub open spec fn greedy(xs: Seq<FileEntry>, max: nat) -> (Seq<PartView>, Seq<FileEntry>, nat)
    decreases xs.len(),
{
    if xs.len() == 0 {
        (seq![], seq![], 0)
    } else {
        let (done, cur, sz) = greedy(xs.drop_last(), max);
        let e = xs.last();
        if sz + e.size > max && cur.len() > 0 {
            (done.push((cur, sz)), seq![e], e.size as nat)
        } else {
            (done, cur.push(e), sz + e.size as nat)
        }
    }
}

/// The parts of a greedy split (the last one closed if non-empty).
pub open spec fn greedy_parts(xs: Seq<FileEntry>, max: nat) -> Seq<PartView> {
    let (done, cur, sz) = greedy(xs, max);
    if cur.len() > 0 {
        done.push((cur, sz))
    } else {
        done
    }
}

/// `(max as f64 * 0.02) as u64`: the size up to which a trailing part is
/// folded into the one before it.
pub open spec fn merge_threshold(max: nat) -> nat {
    scaled_floor(max, 5764607523034235, 0x400000000000000)
}

/// Folds a small trailing part into the previous one.
pub open spec fn merge_trailing(ps: Seq<PartView>, max: nat) -> Seq<PartView> {
    if ps.len() >= 2 && ps.last().1 <= merge_threshold(max) {
        let prev = ps[ps.len() - 2];
        ps.take(ps.len() - 2).push((prev.0 + ps.last().0, prev.1 + ps.last().1))
    } else {
        ps
    }
}

/// The components of an entry's install path.
pub open spec fn entry_comps(e: FileEntry) -> Seq<Seq<char>> {
    path_comps(e.install_path@)
}

/// A directory entry some file of `fs` lies below.
pub open spec fn dir_needed(d: FileEntry, fs: Seq<FileEntry>) -> bool {
    exists|j: int| 0 <= j < fs.len() && is_proper_ancestor(entry_comps(d), entry_comps(#[trigger] fs[j]))
}

/// The directory entries of `dirs` that some file of `fs` lies below, in the
/// order of `dirs`.
pub open spec fn needed_dirs(dirs: Seq<FileEntry>, fs: Seq<FileEntry>) -> Seq<FileEntry>
    decreases dirs.len(),
{
    if dirs.len() == 0 {
        seq![]
    } else if dir_needed(dirs.last(), fs) {
        needed_dirs(dirs.drop_last(), fs).push(dirs.last())
    } else {
        needed_dirs(dirs.drop_last(), fs)
    }
}

/// Each part with the directory entries of its files' ancestors put first.
pub open spec fn with_ancestors(ps: Seq<PartView>, dirs: Seq<FileEntry>) -> Seq<PartView> {
    ps.map_values(|p: PartView| (needed_dirs(dirs, p.0) + p.0, p.1))
}

/// The parts of a split by accumulated size.
pub open spec fn size_split(files: Seq<FileEntry>, max: nat) -> Seq<PartView> {
    with_ancestors(
        merge_trailing(greedy_parts(non_dir_entries(files), max), max),
        dir_entries(files),
    )
}

proof fn lemma_greedy_total(xs: Seq<FileEntry>, max: nat)
    ensures
        parts_total(greedy(xs, max).0) + greedy(xs, max).2 == sizes_sum(xs),
        greedy(xs, max).1.len() == 0 ==> greedy(xs, max).2 == 0,
    decreases xs.len(),
{
    if xs.len() > 0 {
        lemma_greedy_total(xs.drop_last(), max);
        let (done, cur, sz) = greedy(xs.drop_last(), max);
        let e = xs.last();
        if sz + e.size > max && cur.len() > 0 {
            assert(done.push((cur, sz)).drop_last() =~= done);
        }
    }
}

proof fn lemma_greedy_parts_total(xs: Seq<FileEntry>, max: nat)
    ensures
        parts_total(greedy_parts(xs, max)) == sizes_sum(xs),
{
    lemma_greedy_total(xs, max);
    let (done, cur, sz) = greedy(xs, max);
    if cur.len() > 0 {
        assert(done.push((cur, sz)).drop_last() =~= done);
    }
}

proof fn lemma_parts_total_last_two(ps: Seq<PartView>)
    requires
        ps.len() >= 2,
    ensures
        ps[ps.len() - 2].1 + ps.last().1 <= parts_total(ps),
{
    let a = ps.drop_last();
    assert(a.last() == ps[ps.len() - 2]);
    assert(parts_total(ps) == parts_total(a) + ps.last().1);
    assert(parts_total(a) == parts_total(a.drop_last()) + a.last().1);
}

fn close_part(parts: &mut Vec<(Vec<FileEntry>, u64)>, cur: Vec<FileEntry>, sz: u64)
    ensures
        parts_view(final(parts)@) == parts_view(old(parts)@).push((cur@, sz as nat)),
{
    let ghost before = parts@;
    parts.push((cur, sz));
    assert(parts_view(parts@) =~= parts_view(before).push((cur@, sz as nat)));
}

fn greedy_split(xs: &Vec<FileEntry>, max: u64) -> (r: Vec<(Vec<FileEntry>, u64)>)
    requires
        sizes_sum(xs@) <= u64::MAX,
    ensures
        parts_view(r@) == greedy_parts(xs@, max as nat),
{
    let mut parts: Vec<(Vec<FileEntry>, u64)> = Vec::new();
    let mut cur: Vec<FileEntry> = Vec::new();
    let mut sz: u64 = 0;
    let mut i: usize = 0;
    while i < xs.len()
        invariant
            i <= xs.len(),
            sizes_sum(xs@) <= u64::MAX,
            parts_view(parts@) == greedy(xs@.take(i as int), max as nat).0,
            cur@ == greedy(xs@.take(i as int), max as nat).1,
            sz == greedy(xs@.take(i as int), max as nat).2,
        decreases xs.len() - i,
    {
        let ghost t = xs@.take(i + 1);
        assert(t.drop_last() =~= xs@.take(i as int));
        proof {
            lemma_greedy_total(xs@.take(i as int), max as nat);
            lemma_sizes_take(xs@, i + 1);
        }
        let e = copy_entry(&xs[i]);
        if sz + e.size > max && cur.len() > 0 {
            let mut full: Vec<FileEntry> = Vec::new();
            std::mem::swap(&mut full, &mut cur);
            close_part(&mut parts, full, sz);
            sz = e.size;
            cur.push(e);
            assert(cur@ =~= seq![xs@[i as int]]);
        } else {
            sz = sz + e.size;
            cur.push(e);
        }
        i += 1;
    }
    assert(xs@.take(xs.len() as int) =~= xs@);
    if cur.len() > 0 {
        close_part(&mut parts, cur, sz);
    }
    parts
}

fn merge_trailing_exec(parts: &mut Vec<(Vec<FileEntry>, u64)>, max: u64)
    requires
        parts_total(parts_view(old(parts)@)) <= u64::MAX,
    ensures
        parts_view(final(parts)@) == merge_trailing(parts_view(old(parts)@), max as nat),
{
    if parts.len() >= 2 {
        let threshold = scaled_floor_exec(max, 5764607523034235, 0x400000000000000);
        let last_idx = parts.len() - 1;
        if parts[last_idx].1 <= threshold {
            let ghost pv = parts_view(parts@);
            proof {
                lemma_parts_total_last_two(pv);
            }
            let (trailing_files, trailing_size) = parts.pop().unwrap();
            let (mut prev_files, prev_size) = parts.pop().unwrap();
            let mut k: usize = 0;
            let ghost pf = prev_files@;
            while k < trailing_files.len()
                invariant
                    k <= trailing_files.len(),
                    prev_files@ == pf + trailing_files@.take(k as int),
                decreases trailing_files.len() - k,
            {
                assert(trailing_files@.take(k + 1) =~= trailing_files@.take(k as int).push(
                    trailing_files@[k as int],
                ));
                prev_files.push(copy_entry(&trailing_files[k]));
                k += 1;
            }
            assert(trailing_files@.take(trailing_files.len() as int) =~= trailing_files@);
            let ghost mid = parts@;
            parts.push((prev_files, prev_size + trailing_size));
            assert(parts_view(parts@) =~= merge_trailing(pv, max as nat)) by {
                assert(parts_view(mid) =~= pv.take(pv.len() - 2));
            }
        }
    }
}

proof fn lemma_greedy_no_dirs(xs: Seq<FileEntry>, max: nat)
    requires
        no_dirs(xs),
    ensures
        forall|i: int|
            0 <= i < greedy(xs, max).0.len() ==> no_dirs(#[trigger] greedy(xs, max).0[i].0),
        no_dirs(greedy(xs, max).1),
        forall|i: int|
            0 <= i < greedy_parts(xs, max).len() ==> no_dirs(#[trigger] greedy_parts(xs, max)[i].0),
    decreases xs.len(),
{
    if xs.len() > 0 {
        let ys = xs.drop_last();
        assert forall|i: int| 0 <= i < ys.len() implies !is_dir_entry(#[trigger] ys[i]) by {
            assert(ys[i] == xs[i]);
        }
        lemma_greedy_no_dirs(ys, max);
        let e = xs.last();
        assert(!is_dir_entry(e)) by {
            assert(e == xs[xs.len() - 1]);
        }
    }
    let (done, cur, sz) = greedy(xs, max);
    if cur.len() > 0 {
        assert forall|i: int| 0 <= i < done.push((cur, sz)).len() implies no_dirs(
            #[trigger] done.push((cur, sz))[i].0,
        ) by {
            if i < done.len() {
                assert(done.push((cur, sz))[i] == done[i]);
            }
        }
    }
}

proof fn lemma_merge_no_dirs(ps: Seq<PartView>, max: nat)
    requires
        forall|i: int| 0 <= i < ps.len() ==> no_dirs(#[trigger] ps[i].0),
    ensures
        forall|i: int|
            0 <= i < merge_trailing(ps, max).len() ==> no_dirs(#[trigger] merge_trailing(ps, max)[i].0),
{
    if ps.len() >= 2 && ps.last().1 <= merge_threshold(max) {
        let prev = ps[ps.len() - 2];
        let m = ps.take(ps.len() - 2).push((prev.0 + ps.last().0, prev.1 + ps.last().1));
        assert(no_dirs(ps[ps.len() - 2].0));
        assert(no_dirs(ps[ps.len() - 1].0));
        assert(no_dirs(prev.0 + ps.last().0)) by {
            assert forall|k: int| 0 <= k < (prev.0 + ps.last().0).len() implies !is_dir_entry(
                #[trigger] (prev.0 + ps.last().0)[k],
            ) by {
                if k < prev.0.len() {
                    assert((prev.0 + ps.last().0)[k] == prev.0[k]);
                } else {
                    assert((prev.0 + ps.last().0)[k] == ps.last().0[k - prev.0.len()]);
                }
            }
        }
        assert forall|i: int| 0 <= i < m.len() implies no_dirs(#[trigger] m[i].0) by {
            if i < ps.len() - 2 {
                assert(m[i] == ps[i]);
            }
        }
    }
}

fn comps_of_entries(fs: &Vec<FileEntry>) -> (r: Vec<Vec<Vec<char>>>)
    ensures
        r@.len() == fs@.len(),
        forall|i: int| 0 <= i < fs@.len() ==> vviews(#[trigger] r@[i]@) == entry_comps(fs@[i]),
{
    let mut r: Vec<Vec<Vec<char>>> = Vec::new();
    let mut i: usize = 0;
    while i < fs.len()
        invariant
            i <= fs.len(),
            r@.len() == i,
            forall|j: int| 0 <= j < i ==> vviews(#[trigger] r@[j]@) == entry_comps(fs@[j]),
        decreases fs.len() - i,
    {
        r.push(path_comps_exec(fs[i].install_path.as_str()));
        i += 1;
    }
    r
}

fn dir_needed_exec(
    d: &FileEntry,
    dc: &Vec<Vec<char>>,
    fs: &Vec<FileEntry>,
    fc: &Vec<Vec<Vec<char>>>,
) -> (r: bool)
    requires
        vviews(dc@) == entry_comps(*d),
        fc@.len() == fs@.len(),
        forall|i: int| 0 <= i < fs@.len() ==> vviews(#[trigger] fc@[i]@) == entry_comps(fs@[i]),
    ensures
        r == dir_needed(*d, fs@),
{
    let mut j: usize = 0;
    while j < fc.len()
        invariant
            j <= fc.len(),
            fc@.len() == fs@.len(),
            vviews(dc@) == entry_comps(*d),
            forall|i: int| 0 <= i < fs@.len() ==> vviews(#[trigger] fc@[i]@) == entry_comps(fs@[i]),
            forall|k: int|
                0 <= k < j ==> !is_proper_ancestor(entry_comps(*d), entry_comps(#[trigger] fs@[k])),
        decreases fc.len() - j,
    {
        if is_proper_ancestor_exec(dc, &fc[j]) {
            assert(vviews(fc@[j as int]@) == entry_comps(fs@[j as int]));
            return true;
        }
        assert(vviews(fc@[j as int]@) == entry_comps(fs@[j as int]));
        j += 1;
    }
    false
}

fn needed_dirs_exec(
    dirs: &Vec<FileEntry>,
    dcs: &Vec<Vec<Vec<char>>>,
    fs: &Vec<FileEntry>,
    fc: &Vec<Vec<Vec<char>>>,
) -> (r: Vec<FileEntry>)
    requires
        dcs@.len() == dirs@.len(),
        forall|i: int| 0 <= i < dirs@.len() ==> vviews(#[trigger] dcs@[i]@) == entry_comps(dirs@[i]),
        fc@.len() == fs@.len(),
        forall|i: int| 0 <= i < fs@.len() ==> vviews(#[trigger] fc@[i]@) == entry_comps(fs@[i]),
    ensures
        r@ == needed_dirs(dirs@, fs@),
{
    let mut r: Vec<FileEntry> = Vec::new();
    let mut i: usize = 0;
    while i < dirs.len()
        invariant
            i <= dirs.len(),
            dcs@.len() == dirs@.len(),
            forall|k: int| 0 <= k < dirs@.len() ==> vviews(#[trigger] dcs@[k]@) == entry_comps(dirs@[k]),
            fc@.len() == fs@.len(),
            forall|k: int| 0 <= k < fs@.len() ==> vviews(#[trigger] fc@[k]@) == entry_comps(fs@[k]),
            r@ == needed_dirs(dirs@.take(i as int), fs@),
        decreases dirs.len() - i,
    {
        assert(dirs@.take(i + 1).drop_last() =~= dirs@.take(i as int));
        assert(vviews(dcs@[i as int]@) == entry_comps(dirs@[i as int]));
        if dir_needed_exec(&dirs[i], &dcs[i], fs, fc) {
            r.push(copy_entry(&dirs[i]));
        }
        i += 1;
    }
    assert(dirs@.take(dirs.len() as int) =~= dirs@);
    r
}

/// Inject ancestor directory entries into each split part.
///
/// Each part gets the entries of `dirs` that are ancestors of its files
/// (other than the root), before its files, so that directory entries
/// precede their children in archive order.
fn inject_ancestor_dirs(parts: &mut Vec<(Vec<FileEntry>, u64)>, dirs: &Vec<FileEntry>)
    requires
        forall|i: int| 0 <= i < old(parts)@.len() ==> no_dirs(#[trigger] old(parts)@[i].0@),
    ensures
        parts_view(final(parts)@) == with_ancestors(parts_view(old(parts)@), dirs@),
{
    let dcs = comps_of_entries(dirs);
    let mut src: Vec<(Vec<FileEntry>, u64)> = Vec::new();
    std::mem::swap(&mut src, parts);
    let ghost sv = parts_view(src@);
    let mut i: usize = 0;
    while i < src.len()
        invariant
            i <= src.len(),
            sv == parts_view(src@),
            dcs@.len() == dirs@.len(),
            forall|k: int| 0 <= k < dirs@.len() ==> vviews(#[trigger] dcs@[k]@) == entry_comps(dirs@[k]),
            parts_view(parts@) == with_ancestors(sv.take(i as int), dirs@),
        decreases src.len() - i,
    {
        let files = &src[i].0;
        let fc = comps_of_entries(files);
        let mut out = needed_dirs_exec(dirs, &dcs, files, &fc);
        let ghost head = out@;
        let mut k: usize = 0;
        while k < files.len()
            invariant
                k <= files.len(),
                out@ == head + files@.take(k as int),
            decreases files.len() - k,
        {
            assert(files@.take(k + 1) =~= files@.take(k as int).push(files@[k as int]));
            out.push(copy_entry(&files[k]));
            k += 1;
        }
        assert(files@.take(files.len() as int) =~= files@);
        let ghost before = parts@;
        parts.push((out, src[i].1));
        assert(parts_view(parts@) =~= with_ancestors(sv.take(i + 1), dirs@)) by {
            assert(parts_view(parts@) =~= parts_view(before).push((out@, src@[i as int].1 as nat)));
            assert(sv.take(i + 1) =~= sv.take(i as int).push(sv[i as int]));
        }
        i += 1;
    }
    assert(sv.take(src.len() as int) =~= sv);
}

/// Split files into parts by accumulated size.
///
/// Entries other than directories are taken in order; an entry starts a new
/// part when it would take the current, non-empty part past
/// `max_size_per_part`. A trailing part no larger than 2% of the limit is
/// folded into the one before it. Every part then receives the directory
/// entries of its files' ancestors, before its files.
pub fn split_by_size(files: Vec<FileEntry>, max_size_per_part: u64, _pkg_name: &str) -> (r: Vec<
    (Vec<FileEntry>, u64),
>)
    requires
        sizes_sum(files@) <= u64::MAX,
    ensures
        parts_view(r@) == size_split(files@, max_size_per_part as nat),
{
    let (dirs, others) = split_dirs(&files);
    proof {
        lemma_sizes_split(files@);
        lemma_greedy_parts_total(others@, max_size_per_part as nat);
        lemma_greedy_no_dirs(others@, max_size_per_part as nat);
        lemma_merge_no_dirs(greedy_parts(others@, max_size_per_part as nat), max_size_per_part as nat);
    }
    let mut parts = greedy_split(&others, max_size_per_part);
    merge_trailing_exec(&mut parts, max_size_per_part);
    proof {
        let m = merge_trailing(greedy_parts(others@, max_size_per_part as nat), max_size_per_part as nat);
        assert forall|i: int| 0 <= i < parts@.len() implies no_dirs(#[trigger] parts@[i].0@) by {
            assert(parts_view(parts@)[i].0 == parts@[i].0@);
            assert(no_dirs(m[i].0));
        }
    }
    inject_ancestor_dirs(&mut parts, &dirs);
    parts
}

// ---------------------------------------------------------------------------
// Every file in exactly one part
// ---------------------------------------------------------------------------

/// The entries of the parts, one part after another.
pub open spec fn flatten_parts(ps: Seq<PartView>) -> Seq<FileEntry>
    decreases ps.len(),
{
    if ps.len() == 0 {
        seq![]
    } else {
        flatten_parts(ps.drop_last()) + ps.last().0
    }
}

/// The non-directory entries of the parts, one part after another.
pub open spec fn part_files(ps: Seq<PartView>) -> Seq<FileEntry>
    decreases ps.len(),
{
    if ps.len() == 0 {
        seq![]
    } else {
        part_files(ps.drop_last()) + non_dir_entries(ps.last().0)
    }
}

proof fn lemma_non_dir_concat(a: Seq<FileEntry>, b: Seq<FileEntry>)
    ensures
        non_dir_entries(a + b) == non_dir_entries(a) + non_dir_entries(b),
    decreases b.len(),
{
    if b.len() == 0 {
        assert(a + b =~= a);
        assert(non_dir_entries(a) + non_dir_entries(b) =~= non_dir_entries(a));
    } else {
        lemma_non_dir_concat(a, b.drop_last());
        assert((a + b).drop_last() =~= a + b.drop_last());
        assert((a + b).last() == b.last());
        if is_dir_entry(b.last()) {
        } else {
            assert(non_dir_entries(a) + non_dir_entries(b.drop_last()).push(b.last()) =~= (
            non_dir_entries(a) + non_dir_entries(b.drop_last())).push(b.last()));
        }
    }
}

proof fn lemma_non_dir_of_no_dirs(xs: Seq<FileEntry>)
    requires
        no_dirs(xs),
    ensures
        non_dir_entries(xs) == xs,
    decreases xs.len(),
{
    if xs.len() > 0 {
        assert(no_dirs(xs.drop_last())) by {
            assert forall|i: int| 0 <= i < xs.drop_last().len() implies !is_dir_entry(
                #[trigger] xs.drop_last()[i],
            ) by {
                assert(xs.drop_last()[i] == xs[i]);
            }
        }
        lemma_non_dir_of_no_dirs(xs.drop_last());
        assert(!is_dir_entry(xs[xs.len() - 1]));
        assert(xs.drop_last().push(xs.last()) =~= xs);
    }
}

proof fn lemma_non_dir_of_dirs(ds: Seq<FileEntry>)
    requires
        forall|i: int| 0 <= i < ds.len() ==> is_dir_entry(#[trigger] ds[i]),
    ensures
        non_dir_entries(ds) == Seq::<FileEntry>::empty(),
    decreases ds.len(),
{
    if ds.len() > 0 {
        assert forall|i: int| 0 <= i < ds.drop_last().len() implies is_dir_entry(
            #[trigger] ds.drop_last()[i],
        ) by {
            assert(ds.drop_last()[i] == ds[i]);
        }
        lemma_non_dir_of_dirs(ds.drop_last());
        assert(is_dir_entry(ds[ds.len() - 1]));
    }
}

proof fn lemma_needed_dirs_are_dirs(dirs: Seq<FileEntry>, fs: Seq<FileEntry>)
    requires
        forall|i: int| 0 <= i < dirs.len() ==> is_dir_entry(#[trigger] dirs[i]),
    ensures
        forall|i: int|
            0 <= i < needed_dirs(dirs, fs).len() ==> is_dir_entry(#[trigger] needed_dirs(dirs, fs)[i]),
    decreases dirs.len(),
{
    if dirs.len() > 0 {
        assert forall|i: int| 0 <= i < dirs.drop_last().len() implies is_dir_entry(
            #[trigger] dirs.drop_last()[i],
        ) by {
            assert(dirs.drop_last()[i] == dirs[i]);
        }
        lemma_needed_dirs_are_dirs(dirs.drop_last(), fs);
        assert(is_dir_entry(dirs[dirs.len() - 1]));
        let nd = needed_dirs(dirs.drop_last(), fs);
        if dir_needed(dirs.last(), fs) {
            assert forall|i: int| 0 <= i < nd.push(dirs.last()).len() implies is_dir_entry(
                #[trigger] nd.push(dirs.last())[i],
            ) by {
                if i < nd.len() {
                    assert(nd.push(dirs.last())[i] == nd[i]);
                }
            }
        }
    }
}

proof fn lemma_greedy_flatten(xs: Seq<FileEntry>, max: nat)
    ensures
        flatten_parts(greedy(xs, max).0) + greedy(xs, max).1 == xs,
        flatten_parts(greedy_parts(xs, max)) == xs,
    decreases xs.len(),
{
    if xs.len() > 0 {
        lemma_greedy_flatten(xs.drop_last(), max);
        let (done, cur, sz) = greedy(xs.drop_last(), max);
        let e = xs.last();
        if sz + e.size > max && cur.len() > 0 {
            assert(done.push((cur, sz)).drop_last() =~= done);
            assert(flatten_parts(done.push((cur, sz))) + seq![e] =~= xs);
        } else {
            assert((flatten_parts(done) + cur).push(e) =~= flatten_parts(done) + cur.push(e));
            assert(xs.drop_last().push(xs.last()) =~= xs);
        }
    }
    let (done, cur, sz) = greedy(xs, max);
    if cur.len() > 0 {
        assert(done.push((cur, sz)).drop_last() =~= done);
    } else {
        assert(flatten_parts(done) + cur =~= flatten_parts(done));
    }
}

proof fn lemma_merge_flatten(ps: Seq<PartView>, max: nat)
    ensures
        flatten_parts(merge_trailing(ps, max)) == flatten_parts(ps),
{
    if ps.len() >= 2 && ps.last().1 <= merge_threshold(max) {
        let q = ps.take(ps.len() - 2);
        let prev = ps[ps.len() - 2];
        assert(ps.drop_last().drop_last() =~= q);
        assert(ps.drop_last().last() == prev);
        let merged = q.push((prev.0 + ps.last().0, prev.1 + ps.last().1));
        assert(merged.drop_last() =~= q);
        assert(flatten_parts(merged) == flatten_parts(q) + (prev.0 + ps.last().0));
        assert(flatten_parts(ps) == flatten_parts(ps.drop_last()) + ps.last().0);
        assert(flatten_parts(ps.drop_last()) == flatten_parts(q) + prev.0);
        assert(flatten_parts(q) + (prev.0 + ps.last().0) =~= flatten_parts(q) + prev.0 + ps.last().0);
    }
}

proof fn lemma_part_files_no_dirs(ps: Seq<PartView>)
    requires
        no_dirs(flatten_parts(ps)),
    ensures
        part_files(ps) == flatten_parts(ps),
    decreases ps.len(),
{
    if ps.len() > 0 {
        let f = flatten_parts(ps.drop_last());
        let l = ps.last().0;
        assert(flatten_parts(ps) == f + l);
        assert(no_dirs(f)) by {
            assert forall|i: int| 0 <= i < f.len() implies !is_dir_entry(#[trigger] f[i]) by {
                assert((f + l)[i] == f[i]);
            }
        }
        assert(no_dirs(l)) by {
            assert forall|i: int| 0 <= i < l.len() implies !is_dir_entry(#[trigger] l[i]) by {
                assert((f + l)[f.len() + i] == l[i]);
            }
        }
        lemma_part_files_no_dirs(ps.drop_last());
        lemma_non_dir_of_no_dirs(l);
    }
}

proof fn lemma_ancestors_part_files(ps: Seq<PartView>, dirs: Seq<FileEntry>)
    requires
        forall|i: int| 0 <= i < dirs.len() ==> is_dir_entry(#[trigger] dirs[i]),
    ensures
        part_files(with_ancestors(ps, dirs)) == part_files(ps),
    decreases ps.len(),
{
    if ps.len() > 0 {
        lemma_ancestors_part_files(ps.drop_last(), dirs);
        assert(with_ancestors(ps, dirs).drop_last() =~= with_ancestors(ps.drop_last(), dirs));
        let p = ps.last();
        lemma_needed_dirs_are_dirs(dirs, p.0);
        lemma_non_dir_concat(needed_dirs(dirs, p.0), p.0);
        lemma_non_dir_of_dirs(needed_dirs(dirs, p.0));
        assert(Seq::<FileEntry>::empty() + non_dir_entries(p.0) =~= non_dir_entries(p.0));
    }
}

/// A part of a split: non-empty, without directories, its size the sum of
/// its entries' sizes.
pub open spec fn part_ok(p: PartView) -> bool {
    p.0.len() > 0 && p.1 == sizes_sum(p.0) && no_dirs(p.0)
}

proof fn lemma_sizes_concat(a: Seq<FileEntry>, b: Seq<FileEntry>)
    ensures
        sizes_sum(a + b) == sizes_sum(a) + sizes_sum(b),
    decreases b.len(),
{
    if b.len() > 0 {
        lemma_sizes_concat(a, b.drop_last());
        assert((a + b).drop_last() =~= a + b.drop_last());
    } else {
        assert(a + b =~= a);
    }
}

proof fn lemma_greedy_ok(xs: Seq<FileEntry>, max: nat)
    requires
        no_dirs(xs),
    ensures
        greedy(xs, max).2 == sizes_sum(greedy(xs, max).1),
        no_dirs(greedy(xs, max).1),
        forall|i: int| 0 <= i < greedy(xs, max).0.len() ==> part_ok(#[trigger] greedy(xs, max).0[i]),
    decreases xs.len(),
{
    if xs.len() > 0 {
        assert(no_dirs(xs.drop_last())) by {
            assert forall|i: int| 0 <= i < xs.drop_last().len() implies !is_dir_entry(
                #[trigger] xs.drop_last()[i],
            ) by {
                assert(xs.drop_last()[i] == xs[i]);
            }
        }
        lemma_greedy_ok(xs.drop_last(), max);
        let (done, cur, sz) = greedy(xs.drop_last(), max);
        let e = xs.last();
        assert(!is_dir_entry(e));
        if sz + e.size > max && cur.len() > 0 {
            assert(seq![e].drop_last() =~= Seq::<FileEntry>::empty());
            assert(seq![e].last() == e);
            assert(sizes_sum(Seq::<FileEntry>::empty()) == 0);
            assert(sizes_sum(seq![e]) == sizes_sum(seq![e].drop_last()) + seq![e].last().size as nat);
            assert(no_dirs(seq![e]));
            assert(part_ok((cur, sz)));
            assert forall|i: int| 0 <= i < done.push((cur, sz)).len() implies part_ok(
                #[trigger] done.push((cur, sz))[i],
            ) by {
                if i < done.len() {
                    assert(done.push((cur, sz))[i] == done[i]);
                }
            }
        } else {
            assert(cur.push(e).drop_last() =~= cur);
        }
    }
}

proof fn lemma_size_parts_ok(xs: Seq<FileEntry>, max: nat)
    requires
        no_dirs(xs),
    ensures
        forall|i: int|
            0 <= i < merge_trailing(greedy_parts(xs, max), max).len() ==> part_ok(
                #[trigger] merge_trailing(greedy_parts(xs, max), max)[i],
            ),
{
    lemma_greedy_ok(xs, max);
    let (done, cur, sz) = greedy(xs, max);
    let ps = greedy_parts(xs, max);
    assert forall|i: int| 0 <= i < ps.len() implies part_ok(#[trigger] ps[i]) by {
        if i < done.len() {
            if cur.len() > 0 {
                assert(ps[i] == done[i]);
            }
        }
    }
    if ps.len() >= 2 && ps.last().1 <= merge_threshold(max) {
        let prev = ps[ps.len() - 2];
        let last = ps.last();
        assert(part_ok(prev));
        assert(part_ok(last));
        lemma_sizes_concat(prev.0, last.0);
        assert(no_dirs(prev.0 + last.0)) by {
            assert forall|j: int| 0 <= j < (prev.0 + last.0).len() implies !is_dir_entry(
                #[trigger] (prev.0 + last.0)[j],
            ) by {
                if j < prev.0.len() {
                    assert((prev.0 + last.0)[j] == prev.0[j]);
                } else {
                    assert((prev.0 + last.0)[j] == last.0[j - prev.0.len()]);
                }
            }
        }
        let m = merge_trailing(ps, max);
        assert forall|i: int| 0 <= i < m.len() implies part_ok(#[trigger] m[i]) by {
            if i < ps.len() - 2 {
                assert(m[i] == ps[i]);
            }
        }
    }
}

/// Every part of a split by size is non-empty, holds no directory among its
/// files, has as size the sum of its files' sizes, and starts with the
/// configured directory entries (in their order) that are ancestors of its
/// files, followed by those files.
pub proof fn law_size_split_parts(files: Seq<FileEntry>, max: nat)
    ensures
        forall|k: int|
            0 <= k < size_split(files, max).len() ==> {
                let base = merge_trailing(greedy_parts(non_dir_entries(files), max), max)[k];
                &&& part_ok(base)
                &&& #[trigger] size_split(files, max)[k] == (needed_dirs(dir_entries(files), base.0) + base.0, base.1)
            },
{
    lemma_sizes_split(files);
    let xs = non_dir_entries(files);
    lemma_size_parts_ok(xs, max);
    let m = merge_trailing(greedy_parts(xs, max), max);
    assert forall|k: int| 0 <= k < size_split(files, max).len() implies {
        let base = m[k];
        &&& part_ok(base)
        &&& #[trigger] size_split(files, max)[k] == (needed_dirs(dir_entries(files), base.0) + base.0, base.1)
    } by {
        assert(part_ok(m[k]));
    }
}

/// A split by size keeps every file: the files (all but directories) of
/// the parts, one part after another, are the package's files in order,
/// each exactly once.
pub proof fn law_size_split_keeps_every_file(files: Seq<FileEntry>, max: nat)
    ensures
        part_files(size_split(files, max)) == non_dir_entries(files),
{
    let xs = non_dir_entries(files);
    lemma_sizes_split(files);
    lemma_greedy_flatten(xs, max);
    let m = merge_trailing(greedy_parts(xs, max), max);
    lemma_merge_flatten(greedy_parts(xs, max), max);
    lemma_part_files_no_dirs(m);
    lemma_ancestors_part_files(m, dir_entries(files));
}

// ---------------------------------------------------------------------------
// Splitting by directory
// ---------------------------------------------------------------------------

/// Some configured path of `p` is a component-wise prefix of the entry's path.
pub open spec fn part_matches(e: FileEntry, p: SplitPart) -> bool {
    exists|k: int|
        0 <= k < p.paths@.len() && comps_prefix(path_comps(#[trigger] p.paths@[k]@), entry_comps(e))
}

/// The first configured part whose paths match the entry.
pub open spec fn target_part(e: FileEntry, cfg: Seq<SplitPart>) -> Option<int>
    decreases cfg.len(),
{
    if cfg.len() == 0 {
        None
    } else {
        match target_part(e, cfg.drop_last()) {
            Some(i) => Some(i),
            None => if part_matches(e, cfg.last()) {
                Some(cfg.len() - 1)
            } else {
                None
            },
        }
    }
}

/// The entries of `xs` routed to `t` (a part index, or `None` for the
/// remainder), in order.
pub open spec fn routed(xs: Seq<FileEntry>, cfg: Seq<SplitPart>, t: Option<int>) -> Seq<FileEntry>
    decreases xs.len(),
{
    if xs.len() == 0 {
        seq![]
    } else if target_part(xs.last(), cfg) == t {
        routed(xs.drop_last(), cfg, t).push(xs.last())
    } else {
        routed(xs.drop_last(), cfg, t)
    }
}

/// One part per configured entry, then the remainder if it is non-empty.
pub open spec fn routed_parts(xs: Seq<FileEntry>, cfg: Seq<SplitPart>) -> Seq<PartView> {
    let rem = routed(xs, cfg, None);
    Seq::new(
        cfg.len(),
        |i: int| (routed(xs, cfg, Some(i)), sizes_sum(routed(xs, cfg, Some(i)))),
    ) + if rem.len() > 0 {
        seq![(rem, sizes_sum(rem))]
    } else {
        seq![]
    }
}

/// The parts holding at least one entry, in order.
pub open spec fn nonempty_parts(ps: Seq<PartView>) -> Seq<PartView>
    decreases ps.len(),
{
    if ps.len() == 0 {
        seq![]
    } else if ps.last().0.len() > 0 {
        nonempty_parts(ps.drop_last()).push(ps.last())
    } else {
        nonempty_parts(ps.drop_last())
    }
}

/// The parts of a split by directory.
pub open spec fn directory_split(files: Seq<FileEntry>, cfg: Seq<SplitPart>) -> Seq<PartView> {
    with_ancestors(
        nonempty_parts(routed_parts(non_dir_entries(files), cfg)),
        dir_entries(files),
    )
}

proof fn lemma_target_prefix(e: FileEntry, cfg: Seq<SplitPart>, n: int)
    requires
        0 <= n <= cfg.len(),
        target_part(e, cfg.take(n)) is Some,
    ensures
        target_part(e, cfg) == target_part(e, cfg.take(n)),
    decreases cfg.len() - n,
{
    if n < cfg.len() {
        assert(cfg.take(n + 1).drop_last() =~= cfg.take(n));
        lemma_target_prefix(e, cfg, n + 1);
    } else {
        assert(cfg.take(n) =~= cfg);
    }
}

proof fn lemma_target_range(e: FileEntry, cfg: Seq<SplitPart>)
    ensures
        target_part(e, cfg) matches Some(i) ==> 0 <= i < cfg.len(),
    decreases cfg.len(),
{
    if cfg.len() > 0 {
        lemma_target_range(e, cfg.drop_last());
    }
}

proof fn lemma_routed_bound(xs: Seq<FileEntry>, cfg: Seq<SplitPart>, t: Option<int>)
    requires
        no_dirs(xs),
    ensures
        sizes_sum(routed(xs, cfg, t)) <= sizes_sum(xs),
        no_dirs(routed(xs, cfg, t)),
    decreases xs.len(),
{
    if xs.len() > 0 {
        let ys = xs.drop_last();
        assert forall|i: int| 0 <= i < ys.len() implies !is_dir_entry(#[trigger] ys[i]) by {
            assert(ys[i] == xs[i]);
        }
        lemma_routed_bound(ys, cfg, t);
        let r = routed(ys, cfg, t);
        if target_part(xs.last(), cfg) == t {
            assert(r.push(xs.last()).drop_last() =~= r);
            assert(!is_dir_entry(xs[xs.len() - 1]));
            assert forall|i: int| 0 <= i < r.push(xs.last()).len() implies !is_dir_entry(
                #[trigger] r.push(xs.last())[i],
            ) by {
                if i < r.len() {
                    assert(r.push(xs.last())[i] == r[i]);
                }
            }
        }
    }
}

fn target_part_exec(e: &FileEntry, ec: &Vec<Vec<char>>, cfg: &Vec<SplitPart>) -> (r: Option<usize>)
    requires
        vviews(ec@) == entry_comps(*e),
    ensures
        match r {
            Some(i) => target_part(*e, cfg@) == Some(i as int),
            None => target_part(*e, cfg@) is None,
        },
{
    let mut i: usize = 0;
    while i < cfg.len()
        invariant
            i <= cfg.len(),
            vviews(ec@) == entry_comps(*e),
            target_part(*e, cfg@.take(i as int)) is None,
        decreases cfg.len() - i,
    {
        let p = &cfg[i];
        let mut k: usize = 0;
        let mut hit = false;
        while k < p.paths.len() && !hit
            invariant
                k <= p.paths.len(),
                vviews(ec@) == entry_comps(*e),
                !hit ==> forall|j: int|
                    0 <= j < k ==> !comps_prefix(path_comps(#[trigger] p.paths@[j]@), entry_comps(*e)),
                hit ==> part_matches(*e, *p),
            decreases p.paths.len() - k + (if hit { 0int } else { 1int }),
        {
            let pc = path_comps_exec(p.paths[k].as_str());
            if comps_prefix_exec(&pc, ec) {
                hit = true;
                assert(comps_prefix(path_comps(p.paths@[k as int]@), entry_comps(*e)));
            } else {
                k += 1;
            }
        }
        assert(cfg@.take(i + 1).drop_last() =~= cfg@.take(i as int));
        assert(cfg@.take(i + 1).last() == *p);
        if hit {
            proof {
                lemma_target_prefix(*e, cfg@, i + 1);
            }
            return Some(i);
        }
        i += 1;
    }
    assert(cfg@.take(cfg.len() as int) =~= cfg@);
    None
}

fn push_to_bin(bins: &mut Vec<Vec<FileEntry>>, j: usize, e: FileEntry)
    requires
        j < old(bins)@.len(),
    ensures
        final(bins)@.len() == old(bins)@.len(),
        final(bins)@[j as int]@ == old(bins)@[j as int]@.push(e),
        forall|k: int| 0 <= k < old(bins)@.len() && k != j ==> final(bins)@[k] == old(bins)@[k],
{
    let mut b: Vec<FileEntry> = Vec::new();
    std::mem::swap(&mut b, &mut bins[j]);
    b.push(e);
    bins.set(j, b);
}

fn take_bin(bins: &mut Vec<Vec<FileEntry>>, j: usize) -> (r: Vec<FileEntry>)
    requires
        j < old(bins)@.len(),
    ensures
        final(bins)@.len() == old(bins)@.len(),
        r == old(bins)@[j as int],
        forall|k: int| 0 <= k < old(bins)@.len() && k != j ==> final(bins)@[k] == old(bins)@[k],
{
    let mut b: Vec<FileEntry> = Vec::new();
    std::mem::swap(&mut b, &mut bins[j]);
    b
}

/// The routing state after the entries `xs`: one bin per configured part
/// and the remainder, each with its size.
pub open spec fn routing_ok(
    xs: Seq<FileEntry>,
    cfg: Seq<SplitPart>,
    bins: Seq<Vec<FileEntry>>,
    sizes: Seq<u64>,
    rem: Seq<FileEntry>,
    rem_size: u64,
) -> bool {
    &&& bins.len() == cfg.len()
    &&& sizes.len() == cfg.len()
    &&& forall|j: int|
        0 <= j < cfg.len() ==> (#[trigger] bins[j])@ == routed(xs, cfg, Some(j)) && sizes[j]
            == sizes_sum(routed(xs, cfg, Some(j)))
    &&& rem == routed(xs, cfg, None)
    &&& rem_size == sizes_sum(routed(xs, cfg, None))
}

/// The bins from index `from` on hold what was routed to them.
pub open spec fn bins_from(
    bins: Seq<Vec<FileEntry>>,
    sizes: Seq<u64>,
    xs: Seq<FileEntry>,
    cfg: Seq<SplitPart>,
    from: int,
) -> bool {
    forall|k: int|
        from <= k < cfg.len() ==> (#[trigger] bins[k])@ == routed(xs, cfg, Some(k)) && sizes[k]
            == sizes_sum(routed(xs, cfg, Some(k)))
}

#[verifier::spinoff_prover]
#[verifier::rlimit(40)]
fn route_entries(xs: &Vec<FileEntry>, cfg: &Vec<SplitPart>) -> (r: (
    Vec<Vec<FileEntry>>,
    Vec<u64>,
    Vec<FileEntry>,
    u64,
))
    requires
        no_dirs(xs@),
        sizes_sum(xs@) <= u64::MAX,
    ensures
        routing_ok(xs@, cfg@, r.0@, r.1@, r.2@, r.3),
{
    let mut bins: Vec<Vec<FileEntry>> = Vec::new();
    let mut sizes: Vec<u64> = Vec::new();
    let mut n: usize = 0;
    while n < cfg.len()
        invariant
            n <= cfg.len(),
            bins@.len() == n,
            sizes@.len() == n,
            forall|j: int| 0 <= j < n ==> (#[trigger] bins@[j])@.len() == 0 && sizes@[j] == 0,
        decreases cfg.len() - n,
    {
        bins.push(Vec::new());
        sizes.push(0);
        n += 1;
    }
    let mut rem: Vec<FileEntry> = Vec::new();
    let mut rem_size: u64 = 0;
    assert(xs@.take(0) =~= Seq::<FileEntry>::empty());
    assert forall|j: int| 0 <= j < cfg@.len() implies (#[trigger] bins@[j])@ == routed(
        xs@.take(0),
        cfg@,
        Some(j),
    ) && sizes@[j] == sizes_sum(routed(xs@.take(0), cfg@, Some(j))) by {
        assert(bins@[j]@ =~= Seq::<FileEntry>::empty());
    }
    assert(rem@ =~= routed(xs@.take(0), cfg@, None));
    let mut i: usize = 0;
    while i < xs.len()
        invariant
            i <= xs.len(),
            no_dirs(xs@),
            sizes_sum(xs@) <= u64::MAX,
            routing_ok(xs@.take(i as int), cfg@, bins@, sizes@, rem@, rem_size),
        decreases xs.len() - i,
    {
        let ghost t0 = xs@.take(i as int);
        let ghost t1 = xs@.take(i + 1);
        assert(t1.drop_last() =~= t0);
        assert(no_dirs(t1)) by {
            assert forall|k: int| 0 <= k < t1.len() implies !is_dir_entry(#[trigger] t1[k]) by {
                assert(t1[k] == xs@[k]);
            }
        }
        proof {
            lemma_sizes_take(xs@, i + 1);
        }
        let e = copy_entry(&xs[i]);
        assert(e == t1.last());
        let ec = path_comps_exec(e.install_path.as_str());
        let t = target_part_exec(&e, &ec, cfg);
        let ghost ob = bins@;
        let ghost os = sizes@;
        proof {
            assert forall|k: int| #![trigger routed(t1, cfg@, Some(k))]
                target_part(e, cfg@) != Some(k) implies routed(t1, cfg@, Some(k)) == routed(
                t0,
                cfg@,
                Some(k),
            ) by {}
        }
        match t {
            Some(j) => {
                proof {
                    lemma_target_range(e, cfg@);
                    lemma_routed_bound(t1, cfg@, Some(j as int));
                }
                let ghost rj = routed(t0, cfg@, Some(j as int));
                assert(routed(t1, cfg@, Some(j as int)) == rj.push(e));
                assert(rj.push(e).drop_last() =~= rj);
                assert(sizes_sum(rj.push(e)) == sizes_sum(rj) + e.size);
                assert(bins@[j as int]@ == rj);
                let new_size = sizes[j] + e.size;
                sizes.set(j, new_size);
                push_to_bin(&mut bins, j, e);
                assert(routed(t1, cfg@, None) == routed(t0, cfg@, None));
                assert forall|k: int| 0 <= k < cfg@.len() implies (#[trigger] bins@[k])@ == routed(
                    t1,
                    cfg@,
                    Some(k),
                ) && sizes@[k] == sizes_sum(routed(t1, cfg@, Some(k))) by {
                    if k != j {
                        assert(ob[k]@ == routed(t0, cfg@, Some(k)));
                        assert(bins@[k] == ob[k]);
                        assert(routed(t1, cfg@, Some(k)) == routed(t0, cfg@, Some(k)));
                    }
                }
            },
            None => {
                proof {
                    lemma_routed_bound(t1, cfg@, None);
                }
                let ghost rn = routed(t0, cfg@, None);
                assert(routed(t1, cfg@, None) == rn.push(e));
                assert(rn.push(e).drop_last() =~= rn);
                rem_size = rem_size + e.size;
                rem.push(e);
                assert forall|k: int| 0 <= k < cfg@.len() implies (#[trigger] bins@[k])@ == routed(
                    t1,
                    cfg@,
                    Some(k),
                ) && sizes@[k] == sizes_sum(routed(t1, cfg@, Some(k))) by {
                    assert(ob[k]@ == routed(t0, cfg@, Some(k)));
                    assert(routed(t1, cfg@, Some(k)) == routed(t0, cfg@, Some(k)));
                }
            },
        }
        i += 1;
    }
    assert(xs@.take(xs.len() as int) =~= xs@);
    (bins, sizes, rem, rem_size)
}

/// Split files into parts by directory path boundaries.
///
/// Each entry other than a directory goes to the first configured part one
/// of whose paths is a component-wise prefix of its install path, or else
/// to a remainder part placed last. Parts left without entries are dropped,
/// and every part then receives the directory entries of its files'
/// ancestors, before its files.
pub fn split_by_directory(files: Vec<FileEntry>, parts_config: &Vec<SplitPart>, _pkg_name: &str) -> (r:
    Vec<(Vec<FileEntry>, u64)>)
    requires
        sizes_sum(files@) <= u64::MAX,
    ensures
        parts_view(r@) == directory_split(files@, parts_config@),
{
    let (dirs, others) = split_dirs(&files);
    proof {
        lemma_sizes_split(files@);
    }
    let ghost xs = others@;
    let ghost cfg = parts_config@;
    let (mut bins, sizes, rem, rem_size) = route_entries(&others, parts_config);
    let ghost all = routed_parts(xs, cfg);
    let mut parts: Vec<(Vec<FileEntry>, u64)> = Vec::new();
    let mut j: usize = 0;
    while j < bins.len()
        invariant
            j <= bins.len(),
            bins@.len() == cfg.len(),
            sizes@.len() == cfg.len(),
            all == routed_parts(xs, cfg),
            no_dirs(xs),
            bins_from(bins@, sizes@, xs, cfg, j as int),
            parts_view(parts@) == nonempty_parts(all.take(j as int)),
            forall|k: int| 0 <= k < parts@.len() ==> no_dirs(#[trigger] parts@[k].0@),
        decreases bins.len() - j,
    {
        assert(all.take(j + 1).drop_last() =~= all.take(j as int));
        assert(all[j as int] == (bins@[j as int]@, sizes@[j as int] as nat));
        let ghost pre = bins@;
        if bins[j].len() > 0 {
            let b = take_bin(&mut bins, j);
            proof {
                lemma_routed_bound(xs, cfg, Some(j as int));
            }
            let ghost before = parts@;
            parts.push((b, sizes[j]));
            assert(parts_view(parts@) =~= parts_view(before).push(all[j as int]));
            assert forall|k: int| 0 <= k < parts@.len() implies no_dirs(#[trigger] parts@[k].0@) by {
                if k < before.len() {
                    assert(parts@[k] == before[k]);
                }
            }
        } else {
            assert(all[j as int].0.len() == 0);
        }
        assert forall|k: int| j < k < cfg.len() implies (#[trigger] bins@[k])@ == routed(
            xs,
            cfg,
            Some(k),
        ) && sizes@[k] == sizes_sum(routed(xs, cfg, Some(k))) by {
            assert(pre[k]@ == routed(xs, cfg, Some(k)));
            assert(bins@[k] == pre[k]);
        }
        assert(bins_from(bins@, sizes@, xs, cfg, j + 1));
        j += 1;
    }
    if rem.len() > 0 {
        proof {
            lemma_routed_bound(xs, cfg, None);
            assert(all.take(cfg.len() as int) =~= all.drop_last());
        }
        let ghost before = parts@;
        parts.push((rem, rem_size));
        assert(parts_view(parts@) =~= nonempty_parts(all)) by {
            assert(parts_view(parts@) =~= parts_view(before).push(all.last()));
        }
        assert forall|k: int| 0 <= k < parts@.len() implies no_dirs(#[trigger] parts@[k].0@) by {
            if k < before.len() {
                assert(parts@[k] == before[k]);
            }
        }
    } else {
        assert(all.take(cfg.len() as int) =~= all);
    }
    inject_ancestor_dirs(&mut parts, &dirs);
    parts
}

// ---------------------------------------------------------------------------
// Hard links across parts
// ---------------------------------------------------------------------------

/// Some entry of `fs` has the install path `target` (compared by components).
pub open spec fn in_part(target: Seq<char>, fs: Seq<FileEntry>) -> bool {
    exists|j: int| 0 <= j < fs.len() && entry_comps(#[trigger] fs[j]) == path_comps(target)
}

/// A hard link whose target is not in the part `fs`, and which has a source
/// file to take its data from.
pub open spec fn crosses(e: FileEntry, fs: Seq<FileEntry>) -> bool {
    &&& e.entry_type matches EntryType::Hardlink { target } && !in_part(target@, fs)
    &&& e.source_path@.len() > 0
}

/// The entry as a regular file of the given size.
pub open spec fn promoted(e: FileEntry, size: u64) -> FileEntry {
    FileEntry { entry_type: EntryType::RegularFile, size: size, ..e }
}

/// `a + b`, or `u64::MAX` where that is larger.
pub open spec fn sat_add(a: nat, b: nat) -> nat {
    if a + b > u64::MAX {
        u64::MAX as nat
    } else {
        a + b
    }
}

/// The entries `es` of the part `fs` after promoting the hard links that
/// cross to another part, and the part size with their sizes added. The
/// size of a promoted entry is the one looked up for it on disk (`sz`, by
/// position), or its recorded size where the lookup gave nothing.
pub open spec fn fixup_entries(es: Seq<FileEntry>, fs: Seq<FileEntry>, total: nat, sz: Seq<
    Option<u64>,
>) -> (Seq<FileEntry>, nat)
    decreases es.len(),
{
    if es.len() == 0 {
        (seq![], total)
    } else {
        let (out, t) = fixup_entries(es.drop_last(), fs, total, sz.drop_last());
        let e = es.last();
        if crosses(e, fs) {
            let a = match sz.last() {
                Some(v) => v,
                None => e.size,
            };
            (out.push(promoted(e, a)), sat_add(t, a as nat))
        } else {
            (out.push(e), t)
        }
    }
}

/// The sizes added to a part by the hard links of `es` that cross out of
/// `fs`: each the size looked up for it (`sz`, by position), else its
/// recorded size.
pub open spec fn crossing_sizes(es: Seq<FileEntry>, fs: Seq<FileEntry>, sz: Seq<Option<u64>>) -> nat
    decreases es.len(),
{
    if es.len() == 0 {
        0
    } else {
        let e = es.last();
        crossing_sizes(es.drop_last(), fs, sz.drop_last()) + if crosses(e, fs) {
            match sz.last() {
                Some(v) => v as nat,
                None => e.size as nat,
            }
        } else {
            0nat
        }
    }
}

/// Fixing up the hard links of a part: a hard link whose target lies in
/// another part (and that has a source path) becomes a regular file whose
/// size is the one looked up on disk for its source path, or its recorded
/// size where the lookup gave nothing, all else kept; every other entry is
/// kept as it is; and the part's total grows by the sizes of the promoted
/// entries (saturating at `u64::MAX`).
pub proof fn law_fixup_promotes_with_disk_size(
    es: Seq<FileEntry>,
    fs: Seq<FileEntry>,
    total: nat,
    sz: Seq<Option<u64>>,
)
    requires
        sz.len() == es.len(),
        total <= u64::MAX,
    ensures
        fixup_entries(es, fs, total, sz).0.len() == es.len(),
        forall|j: int|
            0 <= j < es.len() && crosses(es[j], fs) ==> #[trigger] fixup_entries(es, fs, total, sz).0[j]
                == (FileEntry {
                entry_type: EntryType::RegularFile,
                size: match sz[j] {
                    Some(v) => v,
                    None => es[j].size,
                },
                ..es[j]
            }),
        forall|j: int|
            0 <= j < es.len() && !crosses(es[j], fs) ==> #[trigger] fixup_entries(es, fs, total, sz).0[j]
                == es[j],
        fixup_entries(es, fs, total, sz).1 == if total + crossing_sizes(es, fs, sz) > u64::MAX {
            u64::MAX as nat
        } else {
            total + crossing_sizes(es, fs, sz)
        },
    decreases es.len(),
{
    if es.len() > 0 {
        let ep = es.drop_last();
        let sp = sz.drop_last();
        law_fixup_promotes_with_disk_size(ep, fs, total, sp);
        let (out, t) = fixup_entries(ep, fs, total, sp);
        let r = fixup_entries(es, fs, total, sz);
        assert forall|j: int| 0 <= j < es.len() - 1 implies #[trigger] r.0[j] == out[j] by {}
        assert forall|j: int| 0 <= j < es.len() - 1 implies ep[j] == es[j] && sp[j] == sz[j] by {}
        assert forall|j: int|
            0 <= j < es.len() && crosses(es[j], fs) implies #[trigger] fixup_entries(es, fs, total, sz).0[j]
                == (FileEntry {
                entry_type: EntryType::RegularFile,
                size: match sz[j] {
                    Some(v) => v,
                    None => es[j].size,
                },
                ..es[j]
            }) by {
            if j < es.len() - 1 {
                assert(r.0[j] == out[j]);
                assert(ep[j] == es[j] && sp[j] == sz[j]);
            }
        }
        assert forall|j: int|
            0 <= j < es.len() && !crosses(es[j], fs) implies #[trigger] fixup_entries(es, fs, total, sz).0[j]
                == es[j] by {
            if j < es.len() - 1 {
                assert(r.0[j] == out[j]);
                assert(ep[j] == es[j]);
            }
        }
    }
}

/// Every part after its hard links have been fixed up.
pub open spec fn fixup_parts(ps: Seq<PartView>, sz: Seq<Seq<Option<u64>>>) -> Seq<PartView> {
    Seq::new(ps.len(), |i: int| fixup_entries(ps[i].0, ps[i].0, ps[i].1, sz[i]))
}

/// The disk-size lookups behind `sz` are outcomes of `disk_size` on the
/// source paths of the promoted entries.
pub open spec fn lookups_from<F: Fn(&String) -> Option<u64>>(
    disk_size: F,
    ps: Seq<PartView>,
    sz: Seq<Seq<Option<u64>>>,
) -> bool {
    &&& sz.len() == ps.len()
    &&& forall|i: int| 0 <= i < ps.len() ==> (#[trigger] sz[i]).len() == ps[i].0.len()
    &&& forall|i: int, j: int|
        0 <= i < ps.len() && 0 <= j < ps[i].0.len() && crosses(ps[i].0[j], ps[i].0)
            ==> disk_size.ensures((&ps[i].0[j].source_path,), #[trigger] sz[i][j])
}

proof fn lemma_fixup_bound(es: Seq<FileEntry>, fs: Seq<FileEntry>, total: nat, sz: Seq<Option<u64>>)
    requires
        total <= u64::MAX,
    ensures
        fixup_entries(es, fs, total, sz).1 <= u64::MAX,
        fixup_entries(es, fs, total, sz).0.len() == es.len(),
    decreases es.len(),
{
    if es.len() > 0 {
        lemma_fixup_bound(es.drop_last(), fs, total, sz.drop_last());
    }
}

fn in_part_exec(tc: &Vec<Vec<char>>, target: &String, fs: &Vec<FileEntry>, fc: &Vec<Vec<Vec<char>>>) -> (r:
    bool)
    requires
        vviews(tc@) == path_comps(target@),
        fc@.len() == fs@.len(),
        forall|i: int| 0 <= i < fs@.len() ==> vviews(#[trigger] fc@[i]@) == entry_comps(fs@[i]),
    ensures
        r == in_part(target@, fs@),
{
    let mut j: usize = 0;
    while j < fc.len()
        invariant
            j <= fc.len(),
            vviews(tc@) == path_comps(target@),
            fc@.len() == fs@.len(),
            forall|i: int| 0 <= i < fs@.len() ==> vviews(#[trigger] fc@[i]@) == entry_comps(fs@[i]),
            forall|k: int| 0 <= k < j ==> entry_comps(#[trigger] fs@[k]) != path_comps(target@),
        decreases fc.len() - j,
    {
        assert(vviews(fc@[j as int]@) == entry_comps(fs@[j as int]));
        if comps_eq(&fc[j], tc) {
            return true;
        }
        j += 1;
    }
    false
}

fn fixup_part<F: Fn(&String) -> Option<u64>>(
    files: &Vec<FileEntry>,
    total: u64,
    disk_size: &F,
) -> (r: (Vec<FileEntry>, u64, Ghost<Seq<Option<u64>>>))
    requires
        forall|s: &String| disk_size.requires((s,)),
    ensures
        r.2@.len() == files@.len(),
        (r.0@, r.1 as nat) == fixup_entries(files@, files@, total as nat, r.2@),
        forall|j: int|
            0 <= j < files@.len() && crosses(files@[j], files@) ==> disk_size.ensures(
                (&files@[j].source_path,),
                #[trigger] r.2@[j],
            ),
{
    let fc = comps_of_entries(files);
    let mut out: Vec<FileEntry> = Vec::new();
    let mut t: u64 = total;
    let ghost mut sz: Seq<Option<u64>> = seq![];
    let mut j: usize = 0;
    while j < files.len()
        invariant
            j <= files.len(),
            fc@.len() == files@.len(),
            forall|i: int| 0 <= i < files@.len() ==> vviews(#[trigger] fc@[i]@) == entry_comps(files@[i]),
            forall|s: &String| disk_size.requires((s,)),
            sz.len() == j,
            (out@, t as nat) == fixup_entries(files@.take(j as int), files@, total as nat, sz),
            forall|k: int|
                0 <= k < j && crosses(files@[k], files@) ==> disk_size.ensures(
                    (&files@[k].source_path,),
                    #[trigger] sz[k],
                ),
        decreases files.len() - j,
    {
        let ghost tk = files@.take(j + 1);
        assert(tk.drop_last() =~= files@.take(j as int));
        assert(tk.last() == files@[j as int]);
        let e = &files[j];
        let mut crossing = false;
        match &e.entry_type {
            EntryType::Hardlink { target } => {
                let tc = path_comps_exec(target.as_str());
                if !in_part_exec(&tc, target, files, &fc) && !e.source_path.as_str().is_empty() {
                    crossing = true;
                }
            },
            _ => {},
        }
        assert(crossing == crosses(*e, files@));
        if crossing {
            let looked = disk_size(&e.source_path);
            let a = match looked {
                Some(v) => v,
                None => e.size,
            };
            let mut p = copy_entry(e);
            p.entry_type = EntryType::RegularFile;
            p.size = a;
            assert(p == promoted(*e, a));
            out.push(p);
            t = t.saturating_add(a);
            proof {
                let s0 = sz;
                sz = sz.push(looked);
                assert(sz.drop_last() =~= s0);
                assert forall|k: int|
                    0 <= k < j + 1 && crosses(files@[k], files@) implies disk_size.ensures(
                    (&files@[k].source_path,),
                    #[trigger] sz[k],
                ) by {
                    if k < j {
                        assert(sz[k] == s0[k]);
                    }
                }
            }
        } else {
            out.push(copy_entry(e));
            proof {
                let s0 = sz;
                sz = sz.push(None);
                assert(sz.drop_last() =~= s0);
                assert forall|k: int|
                    0 <= k < j + 1 && crosses(files@[k], files@) implies disk_size.ensures(
                    (&files@[k].source_path,),
                    #[trigger] sz[k],
                ) by {
                    assert(sz[k] == s0[k]);
                }
            }
        }
        j += 1;
    }
    assert(files@.take(files.len() as int) =~= files@);
    (out, t, Ghost(sz))
}

/// When files are split across parts, hardlinks whose target is in a
/// different part are converted to regular files, with their size read from
/// their source file by `disk_size` (or kept as recorded where it gives
/// nothing), and that size added to the part's total (saturating).
/// Hardlinks without a source path are left as they are.
pub fn fixup_hardlinks_across_parts<F: Fn(&String) -> Option<u64>>(
    parts: &mut Vec<(Vec<FileEntry>, u64)>,
    disk_size: &F,
)
    requires
        forall|s: &String| disk_size.requires((s,)),
    ensures
        exists|sz: Seq<Seq<Option<u64>>>|
            lookups_from(*disk_size, parts_view(old(parts)@), sz) && parts_view(final(parts)@)
                == fixup_parts(parts_view(old(parts)@), sz),
{
    let mut src: Vec<(Vec<FileEntry>, u64)> = Vec::new();
    std::mem::swap(&mut src, parts);
    let ghost sv = parts_view(src@);
    let ghost mut sz: Seq<Seq<Option<u64>>> = seq![];
    let mut i: usize = 0;
    while i < src.len()
        invariant
            i <= src.len(),
            sv == parts_view(src@),
            forall|s: &String| disk_size.requires((s,)),
            sz.len() == i,
            parts@.len() == i,
            forall|k: int| 0 <= k < i ==> (#[trigger] sz[k]).len() == sv[k].0.len(),
            forall|k: int|
                0 <= k < i ==> (#[trigger] parts_view(parts@)[k]) == fixup_entries(
                    sv[k].0,
                    sv[k].0,
                    sv[k].1,
                    sz[k],
                ),
            forall|k: int, j: int|
                0 <= k < i && 0 <= j < sv[k].0.len() && crosses(sv[k].0[j], sv[k].0)
                    ==> disk_size.ensures((&sv[k].0[j].source_path,), #[trigger] sz[k][j]),
        decreases src.len() - i,
    {
        let (out, t, g) = fixup_part(&src[i].0, src[i].1, disk_size);
        let ghost before = parts@;
        parts.push((out, t));
        proof {
            let s0 = sz;
            sz = sz.push(g@);
            assert(sv[i as int] == (src@[i as int].0@, src@[i as int].1 as nat));
            assert forall|k: int| 0 <= k < i + 1 implies (#[trigger] parts_view(parts@)[k])
                == fixup_entries(sv[k].0, sv[k].0, sv[k].1, sz[k]) by {
                assert(parts_view(parts@)[k] == (parts@[k].0@, parts@[k].1 as nat));
                if k < i {
                    assert(parts@[k] == before[k]);
                    assert(sz[k] == s0[k]);
                    assert(parts_view(before)[k] == (before[k].0@, before[k].1 as nat));
                    assert(parts_view(before)[k] == fixup_entries(sv[k].0, sv[k].0, sv[k].1, s0[k]));
                } else {
                    assert(sz[k] == g@);
                }
            }
            assert forall|k: int| 0 <= k < i + 1 implies (#[trigger] sz[k]).len() == sv[k].0.len() by {
                if k < i {
                    assert(sz[k] == s0[k]);
                }
            }
            assert forall|k: int, j: int|
                0 <= k < i + 1 && 0 <= j < sv[k].0.len() && crosses(sv[k].0[j], sv[k].0)
                    implies disk_size.ensures((&sv[k].0[j].source_path,), #[trigger] sz[k][j]) by {
                if k < i {
                    assert(sz[k] == s0[k]);
                }
            }
        }
        i += 1;
    }
    assert(parts_view(parts@) =~= fixup_parts(sv, sz));
    assert(lookups_from(*disk_size, sv, sz));
}

// ---------------------------------------------------------------------------
// Sub-packages
// ---------------------------------------------------------------------------

/// A sub-package by its name, role, entries, size and scripts.
pub type SubView = (Seq<char>, SubPackageRole, Seq<FileEntry>, u64, ResolvedScripts);

/// The view of a sub-package.
pub open spec fn sub_view(s: SubPackage) -> SubView {
    (s.name@, s.role, s.files@, s.total_size, s.scripts)
}

/// The views of sub-packages.
pub open spec fn subs_view(v: Seq<SubPackage>) -> Seq<SubView> {
    v.map_values(|s: SubPackage| sub_view(s))
}

/// Scripts with nothing in them.
pub open spec fn no_scripts() -> ResolvedScripts {
    ResolvedScripts {
        pre_install: None,
        post_install: None,
        pre_remove: None,
        post_remove: None,
        pre_trans: None,
        post_trans: None,
    }
}

/// `<name>-part<n>`.
pub open spec fn part_name(name: Seq<char>, n: u32) -> Seq<char> {
    name + "-part"@ + decimal(n as nat)
}

/// The sub-packages of a split: a meta-package holding the scripts and no
/// files, then part `n` for the `n`-th part (counting from 1).
pub open spec fn split_subs(ps: Seq<PartView>, name: Seq<char>, scripts: ResolvedScripts) -> Seq<
    SubView,
> {
    seq![(name, SubPackageRole::Meta, Seq::<FileEntry>::empty(), 0u64, scripts)] + Seq::new(
        ps.len(),
        |i: int|
            (
                part_name(name, (i + 1) as u32),
                SubPackageRole::Part((i + 1) as u32),
                ps[i].0,
                ps[i].1 as u64,
                no_scripts(),
            ),
    )
}

/// A single standalone package holding every entry.
pub open spec fn standalone(name: Seq<char>, files: Seq<FileEntry>, total: u64, scripts: ResolvedScripts) -> Seq<
    SubView,
> {
    seq![(name, SubPackageRole::Standalone, files, total, scripts)]
}

fn no_scripts_exec() -> (r: ResolvedScripts)
    ensures
        r == no_scripts(),
{
    ResolvedScripts {
        pre_install: None,
        post_install: None,
        pre_remove: None,
        post_remove: None,
        pre_trans: None,
        post_trans: None,
    }
}

/// Construct the final sub-packages from split parts, adding a meta-package.
pub fn build_split_packages(parts: Vec<(Vec<FileEntry>, u64)>, pkg_name: &str, scripts: ResolvedScripts) -> (r:
    Vec<SubPackage>)
    ensures
        subs_view(r@) == split_subs(parts_view(parts@), pkg_name@, scripts),
{
    let ghost pv = parts_view(parts@);
    let ghost want = split_subs(pv, pkg_name@, scripts);
    let mut subs: Vec<SubPackage> = Vec::new();
    subs.push(
        SubPackage {
            name: crate::text::lit(pkg_name),
            role: SubPackageRole::Meta,
            files: Vec::new(),
            total_size: 0,
            scripts,
        },
    );
    assert(subs_view(subs@) =~= want.take(1));
    let mut i: usize = 0;
    while i < parts.len()
        invariant
            i <= parts.len(),
            pv == parts_view(parts@),
            want == split_subs(pv, pkg_name@, scripts),
            subs_view(subs@) == want.take(i + 1),
        decreases parts.len() - i,
    {
        let n = (i + 1) as u32;
        let mut name: Vec<char> = Vec::new();
        extend_str(&mut name, pkg_name);
        extend_str(&mut name, "-part");
        push_decimal(&mut name, n as u64);
        let mut files: Vec<FileEntry> = Vec::new();
        let mut k: usize = 0;
        while k < parts[i].0.len()
            invariant
                i < parts.len(),
                k <= parts@[i as int].0.len(),
                files@ == parts@[i as int].0@.take(k as int),
            decreases parts@[i as int].0.len() - k,
        {
            assert(parts@[i as int].0@.take(k + 1) =~= files@.push(parts@[i as int].0@[k as int]));
            files.push(copy_entry(&parts[i].0[k]));
            k += 1;
        }
        assert(parts@[i as int].0@.take(k as int) =~= parts@[i as int].0@);
        let ghost before = subs@;
        subs.push(
            SubPackage {
                name: string_from_chars(&name),
                role: SubPackageRole::Part(n),
                files,
                total_size: parts[i].1,
                scripts: no_scripts_exec(),
            },
        );
        assert(subs_view(subs@) =~= want.take(i + 2)) by {
            assert(subs_view(subs@) =~= subs_view(before).push(sub_view(subs@[i + 1])));
            assert(want.take(i + 2) =~= want.take(i + 1).push(want[i + 1]));
            assert(name@ =~= part_name(pkg_name@, n));
        }
        i += 1;
    }
    assert(want.take(parts.len() + 1) =~= want);
    subs
}

/// Count only regular files, symlinks, and hardlinks (not directories) in a file list.
pub fn count_files(files: &Vec<FileEntry>) -> (n: usize)
    ensures
        n == non_dir_entries(files@).len(),
{
    let mut n: usize = 0;
    let mut i: usize = 0;
    while i < files.len()
        invariant
            i <= files.len(),
            n == non_dir_entries(files@.take(i as int)).len(),
            n <= i,
        decreases files.len() - i,
    {
        assert(files@.take(i + 1).drop_last() =~= files@.take(i as int));
        if !is_dir_exec(&files[i]) {
            n += 1;
        }
        i += 1;
    }
    assert(files@.take(files.len() as int) =~= files@);
    n
}

// ---------------------------------------------------------------------------
// Hard-link families
// ---------------------------------------------------------------------------

/// Pre-scanned hardlink family map for streaming split.
///
/// Maps each hardlink target to the indices of its link entries in the file list.
/// Used by the DEB streaming split builder to keep hardlink families together
/// in the same package part.
pub struct HardlinkFamilies {
    /// The distinct link targets (as path components), in order of first use.
    targets: Vec<Vec<Vec<char>>>,
    /// For each target, the indices of the entries linking to it, ascending.
    links: Vec<Vec<usize>>,
    /// For each entry, whether it is a hard link.
    link_flags: Vec<bool>,
}

/// The target of a hard-link entry, as path components.
pub open spec fn link_target(e: FileEntry) -> Option<Seq<Seq<char>>> {
    match e.entry_type {
        EntryType::Hardlink { target } => Some(path_comps(target@)),
        _ => None,
    }
}

/// The indices of the entries of `files` that link to `tc`, ascending.
pub open spec fn links_to(files: Seq<FileEntry>, tc: Seq<Seq<char>>) -> Seq<usize>
    decreases files.len(),
{
    if files.len() == 0 {
        seq![]
    } else if link_target(files.last()) == Some(tc) {
        links_to(files.drop_last(), tc).push((files.len() - 1) as usize)
    } else {
        links_to(files.drop_last(), tc)
    }
}

/// The first index of `ts` holding the components `tc`.
pub open spec fn find_comps(ts: Seq<Vec<Vec<char>>>, tc: Seq<Seq<char>>) -> Option<int>
    decreases ts.len(),
{
    if ts.len() == 0 {
        None
    } else {
        match find_comps(ts.drop_last(), tc) {
            Some(k) => Some(k),
            None => if vviews(ts.last()@) == tc {
                Some(ts.len() - 1)
            } else {
                None
            },
        }
    }
}

impl HardlinkFamilies {
    #[verifier::type_invariant]
    spec fn parallel(self) -> bool {
        self.targets@.len() == self.links@.len()
    }

    /// The link entries of the target `tc`, if it has any.
    pub closed spec fn family(self, tc: Seq<Seq<char>>) -> Option<Seq<usize>> {
        match find_comps(self.targets@, tc) {
            Some(k) => Some(self.links@[k]@),
            None => None,
        }
    }

    /// For each scanned entry, whether it is a hard link.
    pub closed spec fn flags(self) -> Seq<bool> {
        self.link_flags@
    }

    /// Whether no entry links to anything.
    pub closed spec fn no_links(self) -> bool {
        self.targets@.len() == 0
    }
}

proof fn lemma_find_comps_prefix(ts: Seq<Vec<Vec<char>>>, tc: Seq<Seq<char>>, n: int)
    requires
        0 <= n <= ts.len(),
        find_comps(ts.take(n), tc) is Some,
    ensures
        find_comps(ts, tc) == find_comps(ts.take(n), tc),
    decreases ts.len() - n,
{
    if n < ts.len() {
        assert(ts.take(n + 1).drop_last() =~= ts.take(n));
        lemma_find_comps_prefix(ts, tc, n + 1);
    } else {
        assert(ts.take(n) =~= ts);
    }
}

proof fn lemma_find_comps_distinct(ts: Seq<Vec<Vec<char>>>, tc: Seq<Seq<char>>, k: int)
    requires
        0 <= k < ts.len(),
        vviews(ts[k]@) == tc,
        forall|a: int, b: int|
            0 <= a < b < ts.len() ==> vviews(#[trigger] ts[a]@) != vviews(#[trigger] ts[b]@),
    ensures
        find_comps(ts, tc) == Some(k),
    decreases ts.len(),
{
    if k < ts.len() - 1 {
        let us = ts.drop_last();
        assert forall|a: int, b: int| 0 <= a < b < us.len() implies vviews(#[trigger] us[a]@) != vviews(
            #[trigger] us[b]@,
        ) by {
            assert(us[a] == ts[a] && us[b] == ts[b]);
        }
        assert(us[k] == ts[k]);
        lemma_find_comps_distinct(us, tc, k);
    } else {
        lemma_find_comps_none(ts.drop_last(), tc);
    }
}

proof fn lemma_find_comps_none(ts: Seq<Vec<Vec<char>>>, tc: Seq<Seq<char>>)
    requires
        forall|a: int| 0 <= a < ts.len() ==> vviews(#[trigger] ts[a]@) != tc,
    ensures
        find_comps(ts, tc) is None,
    decreases ts.len(),
{
    if ts.len() > 0 {
        let us = ts.drop_last();
        assert forall|a: int| 0 <= a < us.len() implies vviews(#[trigger] us[a]@) != tc by {
            assert(us[a] == ts[a]);
        }
        lemma_find_comps_none(us, tc);
        assert(ts.last() == ts[ts.len() - 1]);
    }
}

fn find_comps_exec(ts: &Vec<Vec<Vec<char>>>, tc: &Vec<Vec<char>>) -> (r: Option<usize>)
    ensures
        match r {
            Some(k) => k < ts@.len() && find_comps(ts@, vviews(tc@)) == Some(k as int) && vviews(
                ts@[k as int]@,
            ) == vviews(tc@),
            None => find_comps(ts@, vviews(tc@)) is None && forall|a: int|
                0 <= a < ts@.len() ==> vviews(#[trigger] ts@[a]@) != vviews(tc@),
        },
{
    let mut k: usize = 0;
    while k < ts.len()
        invariant
            k <= ts.len(),
            find_comps(ts@.take(k as int), vviews(tc@)) is None,
            forall|a: int| 0 <= a < k ==> vviews(#[trigger] ts@[a]@) != vviews(tc@),
        decreases ts.len() - k,
    {
        assert(ts@.take(k + 1).drop_last() =~= ts@.take(k as int));
        if comps_eq(&ts[k], tc) {
            proof {
                lemma_find_comps_prefix(ts@, vviews(tc@), k + 1);
            }
            return Some(k);
        }
        k += 1;
    }
    assert(ts@.take(ts.len() as int) =~= ts@);
    None
}

/// The family map after the entries `fs`: distinct targets, each with the
/// non-empty list of its links, and every linked target present.
spec fn families_ok(ts: Seq<Vec<Vec<char>>>, ls: Seq<Vec<usize>>, fs: Seq<FileEntry>) -> bool {
    &&& ts.len() == ls.len()
    &&& forall|k: int|
        0 <= k < ts.len() ==> (#[trigger] ls[k])@ == links_to(fs, vviews(ts[k]@)) && ls[k]@.len() > 0
    &&& forall|a: int, b: int|
        0 <= a < b < ts.len() ==> vviews(#[trigger] ts[a]@) != vviews(#[trigger] ts[b]@)
    &&& forall|tc: Seq<Seq<char>>|
        #![trigger links_to(fs, tc)]
        links_to(fs, tc).len() > 0 ==> exists|k: int| 0 <= k < ts.len() && vviews(ts[k]@) == tc
}

impl HardlinkFamilies {
    /// Pre-scan a file list and build the family map.
    pub fn scan(files: &Vec<FileEntry>) -> (r: Self)
        ensures
            forall|tc: Seq<Seq<char>>| #[trigger]
                r.family(tc) == if links_to(files@, tc).len() > 0 {
                    Some(links_to(files@, tc))
                } else {
                    None::<Seq<usize>>
                },
            r.flags() == files@.map_values(|e: FileEntry| link_target(e) is Some),
            r.no_links() == (forall|i: int| 0 <= i < files@.len() ==> link_target(#[trigger] files@[i]) is None),
    {
        let mut targets: Vec<Vec<Vec<char>>> = Vec::new();
        let mut links: Vec<Vec<usize>> = Vec::new();
        let mut flags: Vec<bool> = Vec::new();
        let mut i: usize = 0;
        while i < files.len()
            invariant
                i <= files.len(),
                families_ok(targets@, links@, files@.take(i as int)),
                flags@ == files@.take(i as int).map_values(|e: FileEntry| link_target(e) is Some),
                targets@.len() == 0 <==> forall|j: int| 0 <= j < i ==> link_target(#[trigger] files@[j]) is None,
            decreases files.len() - i,
        {
            let ghost f0 = files@.take(i as int);
            let ghost f1 = files@.take(i + 1);
            assert(f1.drop_last() =~= f0);
            assert(f1.last() == files@[i as int]);
            let ghost t0 = targets@;
            let ghost l0 = links@;
            match &files[i].entry_type {
                EntryType::Hardlink { target } => {
                    let tc = path_comps_exec(target.as_str());
                    let ghost tcv = vviews(tc@);
                    assert(link_target(files@[i as int]) == Some(tcv));
                    assert(links_to(f1, tcv) == links_to(f0, tcv).push(i));
                    assert forall|u: Seq<Seq<char>>| u != tcv implies links_to(f1, u) == links_to(f0, u) by {}
                    match find_comps_exec(&targets, &tc) {
                        Some(k) => {
                            let mut l: Vec<usize> = Vec::new();
                            std::mem::swap(&mut l, &mut links[k]);
                            l.push(i);
                            links.set(k, l);
                            assert forall|m: int| 0 <= m < targets@.len() implies (#[trigger] links@[m])@
                                == links_to(f1, vviews(targets@[m]@)) && links@[m]@.len() > 0 by {
                                if m != k {
                                    assert(links@[m] == l0[m]);
                                    assert(vviews(targets@[m]@) != tcv);
                                }
                            }
                            assert forall|u: Seq<Seq<char>>| #![trigger links_to(f1, u)]
                                links_to(f1, u).len() > 0 implies exists|m: int|
                                0 <= m < targets@.len() && vviews(targets@[m]@) == u by {
                                if u != tcv {
                                    assert(links_to(f0, u).len() > 0);
                                }
                            }
                        },
                        None => {
                            assert(links_to(f0, tcv).len() == 0) by {
                                if links_to(f0, tcv).len() > 0 {
                                    let m = choose|m: int| 0 <= m < t0.len() && vviews(t0[m]@) == tcv;
                                    assert(vviews(t0[m]@) == tcv);
                                }
                            }
                            targets.push(tc);
                            let mut l: Vec<usize> = Vec::new();
                            l.push(i);
                            assert(l@ =~= links_to(f1, tcv));
                            links.push(l);
                            assert forall|m: int| 0 <= m < targets@.len() implies (#[trigger] links@[m])@
                                == links_to(f1, vviews(targets@[m]@)) && links@[m]@.len() > 0 by {
                                if m < t0.len() {
                                    assert(links@[m] == l0[m]);
                                    assert(targets@[m] == t0[m]);
                                }
                            }
                            assert forall|a: int, b: int| 0 <= a < b < targets@.len() implies vviews(
                                #[trigger] targets@[a]@,
                            ) != vviews(#[trigger] targets@[b]@) by {
                                if b < t0.len() {
                                    assert(targets@[a] == t0[a] && targets@[b] == t0[b]);
                                } else {
                                    assert(targets@[a] == t0[a]);
                                }
                            }
                            assert forall|u: Seq<Seq<char>>| #![trigger links_to(f1, u)]
                                links_to(f1, u).len() > 0 implies exists|m: int|
                                0 <= m < targets@.len() && vviews(targets@[m]@) == u by {
                                if u != tcv {
                                    assert(links_to(f0, u).len() > 0);
                                    let m = choose|m: int| 0 <= m < t0.len() && vviews(t0[m]@) == u;
                                    assert(targets@[m] == t0[m]);
                                } else {
                                    assert(vviews(targets@[t0.len() as int]@) == u);
                                }
                            }
                        },
                    }
                    flags.push(true);
                },
                _ => {
                    assert(link_target(files@[i as int]) is None);
                    assert forall|u: Seq<Seq<char>>| #![trigger links_to(f1, u)] links_to(f1, u) == links_to(f0, u) by {}
                    assert forall|m: int| 0 <= m < targets@.len() implies (#[trigger] links@[m])@
                        == links_to(f1, vviews(targets@[m]@)) && links@[m]@.len() > 0 by {
                        assert(links_to(f1, vviews(targets@[m]@)) == links_to(f0, vviews(targets@[m]@)));
                    }
                    assert forall|u: Seq<Seq<char>>| #![trigger links_to(f1, u)]
                        links_to(f1, u).len() > 0 implies exists|m: int|
                        0 <= m < targets@.len() && vviews(targets@[m]@) == u by {
                        assert(links_to(f1, u) == links_to(f0, u));
                    }
                    flags.push(false);
                },
            }
            assert(flags@ =~= f1.map_values(|e: FileEntry| link_target(e) is Some));
            i += 1;
        }
        assert(files@.take(files.len() as int) =~= files@);
        let r = HardlinkFamilies { targets, links, link_flags: flags };
        assert forall|tc: Seq<Seq<char>>| #[trigger]
            r.family(tc) == if links_to(files@, tc).len() > 0 {
                Some(links_to(files@, tc))
            } else {
                None::<Seq<usize>>
            } by {
            if links_to(files@, tc).len() > 0 {
                let m = choose|m: int| 0 <= m < r.targets@.len() && vviews(r.targets@[m]@) == tc;
                lemma_find_comps_distinct(r.targets@, tc, m);
            } else {
                assert forall|a: int| 0 <= a < r.targets@.len() implies vviews(#[trigger] r.targets@[a]@) != tc by {
                    assert(r.links@[a]@ == links_to(files@, vviews(r.targets@[a]@)));
                }
                lemma_find_comps_none(r.targets@, tc);
            }
        }
        r
    }

    /// Returns true if this index is a hardlink entry that should be skipped
    /// in the main iteration (it will be pulled in when its target is processed).
    pub fn is_link(&self, index: usize) -> (r: bool)
        ensures
            r == (index < self.flags().len() && self.flags()[index as int]),
    {
        index < self.link_flags.len() && self.link_flags[index]
    }

    /// If this file is a hardlink target, return the indices of all its link entries.
    pub fn links_for_target(&self, target_path: &str) -> (r: Option<&[usize]>)
        ensures
            match r {
                Some(s) => self.family(path_comps(target_path@)) == Some(s@),
                None => self.family(path_comps(target_path@)) is None,
            },
    {
        proof {
            use_type_invariant(self);
        }
        let tc = path_comps_exec(target_path);
        match find_comps_exec(&self.targets, &tc) {
            Some(k) => Some(self.links[k].as_slice()),
            None => None,
        }
    }

    /// Returns true if there are no hardlinks in the file list.
    pub fn is_empty(&self) -> (r: bool)
        ensures
            r == self.no_links(),
    {
        self.targets.len() == 0
    }
}

// ---------------------------------------------------------------------------
// Size estimates and warnings
// ---------------------------------------------------------------------------

/// The binary64 compression ratio assumed for an algorithm, as a 53-bit
/// significand and a power-of-two divisor: 0.35 for zstd (and unknown
/// names), 0.40 for gzip, 0.30 for xz, 1.0 for none.
pub open spec fn ratio_parts(algorithm: Seq<char>) -> (nat, nat) {
    if algorithm == "gzip"@ {
        (7205759403792794, 0x40000000000000)
    } else if algorithm == "xz"@ {
        (5404319552844595, 0x40000000000000)
    } else if algorithm == "none"@ {
        (1, 1)
    } else {
        (6305039478318694, 0x40000000000000)
    }
}

/// `(total as f64 * ratio) as u64`: the estimated compressed size.
pub open spec fn estimated_compressed(total: nat, algorithm: Seq<char>) -> nat {
    scaled_floor(total, ratio_parts(algorithm).0, ratio_parts(algorithm).1)
}

/// `(payload as f64 * 0.80) as u64`: the estimate above which a package is
/// split (or refused when splitting is off).
pub open spec fn split_threshold(payload: nat) -> nat {
    scaled_floor(payload, 7205759403792794, 0x20000000000000)
}

/// `(est as f64 / (u64::MAX as f64 * 0.80)).ceil() as u64` for an estimate
/// above that divisor's threshold. The divisor is `14757395258967642112`;
/// the quotient lies in `[1, 1.25]` and is exactly 1 only when `est as f64`
/// equals the divisor.
pub open spec fn auto_part_count(est: nat) -> nat {
    if round53(est) > 14757395258967642112 {
        2
    } else {
        1
    }
}

/// The text of `{pct:.0}` for `pct = est as f64 / payload as f64 * 100.0`.
pub open spec fn percent_text(est: nat, payload: nat) -> Seq<char> {
    let a = round53(est);
    let b = round53(payload);
    if b == 0 {
        if a == 0 {
            "NaN"@
        } else {
            "inf"@
        }
    } else {
        let (k, w, u) = percent_parts(a, b);
        decimal(round_div_even(k * w, u))
    }
}

/// Whether `est as f64 / payload as f64 * 100.0 > 60.0`.
pub open spec fn percent_above_60(est: nat, payload: nat) -> bool {
    let a = round53(est);
    let b = round53(payload);
    if b == 0 {
        a > 0
    } else {
        let (k, w, u) = percent_parts(a, b);
        k * w > 60 * u
    }
}

/// The warning for a split triggered by the safety margin alone.
pub open spec fn margin_warning(est: nat, payload: nat, format: Seq<char>) -> Seq<char> {
    "splitting triggered by safety margin: estimated compressed size ("@ + format_size_text(est)
        + ") is "@ + percent_text(est, payload) + "% of the "@ + format + " format limit ("@
        + format_size_text(payload) + "); actual compression may vary ±20%"@
}

/// The warning for an unsplit package close to the format limit.
pub open spec fn near_limit_warning(est: nat, payload: nat, format: Seq<char>) -> Seq<char> {
    "estimated compressed size ("@ + format_size_text(est) + ") is "@ + percent_text(est, payload)
        + "% of the "@ + format + " format limit ("@ + format_size_text(payload)
        + "); consider enabling splitting for safety"@
}

/// The warnings of a plan. Only formats with a finite payload limit warn: a
/// split whose estimate is within the limit was caused by the safety margin;
/// an unsplit, undeferred package above 60% of the limit is close to it.
pub open spec fn plan_warnings(is_split: bool, deferred: bool, est: nat, limits: FormatLimits) -> Seq<
    Seq<char>,
> {
    let payload = limits.max_compressed_payload as nat;
    if payload == u64::MAX {
        seq![]
    } else if is_split && est <= payload {
        seq![margin_warning(est, payload, limits.format_name@)]
    } else if !is_split && !deferred && percent_above_60(est, payload) {
        seq![near_limit_warning(est, payload, limits.format_name@)]
    } else {
        seq![]
    }
}

#[verifier::spinoff_prover]
fn push_percent(out: &mut Vec<char>, est: u64, payload: u64) -> (above: bool)
    ensures
        final(out)@ == old(out)@ + percent_text(est as nat, payload as nat),
        above == percent_above_60(est as nat, payload as nat),
{
    let a = round53_exec(est as u128);
    let b = round53_exec(payload as u128);
    assert(a <= 0x10000000000000000 && b <= 0x10000000000000000) by {
        assert(round53(est as nat) <= 0x10000000000000000) by {
            crate::binary64::lemma_round53_le_pow64(est as nat);
        }
        assert(round53(payload as nat) <= 0x10000000000000000) by {
            crate::binary64::lemma_round53_le_pow64(payload as nat);
        }
    }
    if b == 0 {
        if a == 0 {
            extend_str(out, "NaN");
            false
        } else {
            extend_str(out, "inf");
            true
        }
    } else if a == 0 {
        assert(crate::binary64::scale_up(0, b as nat, 1) == (0nat, b as nat, 1nat));
        assert(crate::binary64::scale_down(0, b as nat, 1) == (0nat, b as nat, 1nat));
        assert(round_div_even(0, b as nat) == 0);
        assert(crate::binary64::ulp53(0) == 1);
        assert(round53(0) == 0);
        assert(percent_parts(0, b as nat) == (0nat, 1nat, 1nat));
        assert(round_div_even(0, 1) == 0);
        push_decimal_wide(out, 0);
        false
    } else {
        let (k, w, u) = percent_exec(a, b);
        assert(k * w < 0x8000000000000000000000000000) by (nonlinear_arith)
            requires
                k < 0x4000000000000000,
                w <= 0x2000,
        ;
        let kw = k * w;
        let n = round_div_even_exec(kw, u);
        push_decimal_wide(out, n);
        kw > 60 * u
    }
}

/// Build warnings about packages that are close to format limits.
pub fn build_warnings(is_split: bool, deferred_split: bool, estimated_compressed: u64, limits: &FormatLimits) -> (r:
    Vec<String>)
    ensures
        strings_view(r@) == plan_warnings(
            is_split,
            deferred_split,
            estimated_compressed as nat,
            *limits,
        ),
{
    let mut warnings: Vec<String> = Vec::new();
    let payload = limits.max_compressed_payload;
    if payload == 0xFFFF_FFFF_FFFF_FFFF {
        assert(strings_view(warnings@) =~= Seq::<Seq<char>>::empty());
        return warnings;
    }
    let mut text: Vec<char> = Vec::new();
    if is_split && estimated_compressed <= payload {
        extend_str(&mut text, "splitting triggered by safety margin: estimated compressed size (");
    } else {
        extend_str(&mut text, "estimated compressed size (");
    }
    let est_text = format_size(estimated_compressed);
    extend_str(&mut text, est_text.as_str());
    extend_str(&mut text, ") is ");
    let above = push_percent(&mut text, estimated_compressed, payload);
    extend_str(&mut text, "% of the ");
    extend_str(&mut text, limits.format_name);
    extend_str(&mut text, " format limit (");
    let limit_text = format_size(payload);
    extend_str(&mut text, limit_text.as_str());
    if is_split && estimated_compressed <= payload {
        extend_str(&mut text, "); actual compression may vary ±20%");
        let line = string_from_chars(&text);
        assert(line@ =~= margin_warning(
            estimated_compressed as nat,
            payload as nat,
            limits.format_name@,
        ));
        warnings.push(line);
    } else if !is_split && !deferred_split && above {
        extend_str(&mut text, "); consider enabling splitting for safety");
        let line = string_from_chars(&text);
        assert(line@ =~= near_limit_warning(
            estimated_compressed as nat,
            payload as nat,
            limits.format_name@,
        ));
        warnings.push(line);
    }
    assert(strings_view(warnings@) =~= plan_warnings(
        is_split,
        deferred_split,
        estimated_compressed as nat,
        *limits,
    ));
    warnings
}

// ---------------------------------------------------------------------------
// The plan
// ---------------------------------------------------------------------------

/// What planning decides: a refusal, an unparsable `max_size`, or the
/// sub-packages (with whether splitting is left to the DEB builder).
pub enum PlanOutcome {
    Exceeds { format: Seq<char>, total: nat },
    BadSize { value: Seq<char>, reason: Seq<char> },
    Planned { subs: Seq<SubView>, deferred: bool },
}

/// Whether some regular file is larger than the standard cpio limit.
pub open spec fn needs_extended(files: Seq<FileEntry>, limits: FormatLimits) -> bool {
    exists|i: int|
        0 <= i < files.len() && (#[trigger] files[i]).entry_type is RegularFile && files[i].size
            > limits.max_file_size_standard
}

/// The parts a plan splits the entries into, before hard links are fixed
/// up; `None` where the package is not split.
pub open spec fn plan_parts(config: Config, limits: FormatLimits, files: Seq<FileEntry>) -> Option<
    Seq<PartView>,
> {
    let total = sizes_sum(files);
    let est = estimated_compressed(total, config.compression.algorithm@);
    let thr = split_threshold(limits.max_compressed_payload as nat);
    let strat = config.splitting.strategy@;
    if !config.splitting.enabled {
        None
    } else if strat == "auto"@ {
        if est <= thr || limits.max_compressed_payload < u64::MAX {
            None
        } else {
            Some(size_split(files, total / auto_part_count(est)))
        }
    } else if strat == "size"@ {
        match config.splitting.max_size {
            Some(m) => match parse_size_result(m@) {
                Ok(max) => if total <= max {
                    None
                } else {
                    Some(size_split(files, max as nat))
                },
                Err(_) => None,
            },
            None => None,
        }
    } else if strat == "directory"@ {
        if config.splitting.parts@.len() == 0 {
            None
        } else {
            Some(directory_split(files, config.splitting.parts@))
        }
    } else {
        None
    }
}

/// What planning decides for the entries `files`, where `sz` holds the
/// disk sizes looked up for hard links promoted across parts.
pub open spec fn plan_outcome(
    config: Config,
    limits: FormatLimits,
    files: Seq<FileEntry>,
    scripts: ResolvedScripts,
    sz: Seq<Seq<Option<u64>>>,
) -> PlanOutcome {
    let total = sizes_sum(files);
    let name = config.package.name@;
    let est = estimated_compressed(total, config.compression.algorithm@);
    let thr = split_threshold(limits.max_compressed_payload as nat);
    let alone = standalone(name, files, total as u64, scripts);
    let strat = config.splitting.strategy@;
    if !config.splitting.enabled {
        if est > thr {
            PlanOutcome::Exceeds { format: limits.format_name@, total: est }
        } else {
            PlanOutcome::Planned { subs: alone, deferred: false }
        }
    } else if strat == "size"@ && (match config.splitting.max_size {
        Some(m) => parse_size_result(m@) is Err,
        None => false,
    }) {
        let m = config.splitting.max_size->0@;
        PlanOutcome::BadSize { value: m, reason: parse_size_result(m)->Err_0 }
    } else {
        match plan_parts(config, limits, files) {
            Some(ps) => PlanOutcome::Planned {
                subs: split_subs(fixup_parts(ps, sz), name, scripts),
                deferred: false,
            },
            None => PlanOutcome::Planned {
                subs: alone,
                deferred: strat == "auto"@ && est > thr,
            },
        }
    }
}

/// Whether some sub-package is a meta-package.
pub open spec fn has_meta(subs: Seq<SubView>) -> bool {
    exists|i: int| 0 <= i < subs.len() && (#[trigger] subs[i]).1 == SubPackageRole::Meta
}

/// The result of planning agrees with the decided outcome.
pub open spec fn plan_result_is(
    r: Result<PackagePlan, PlanError>,
    o: PlanOutcome,
    config: Config,
    limits: FormatLimits,
    files: Seq<FileEntry>,
) -> bool {
    match o {
        PlanOutcome::Exceeds { format, total } => r matches Err(
            PlanError::ExceedsLimits { format: f, total_size: t },
        ) && f@ == format && t == total,
        PlanOutcome::BadSize { value, reason } => r matches Err(
            PlanError::InvalidSize { value: v, reason: m },
        ) && v@ == value && m@ == reason,
        PlanOutcome::Planned { subs, deferred } => match r {
            Ok(p) => {
                &&& p.name@ == config.package.name@
                &&& p.version@ == config.package.version@
                &&& p.release@ == config.package.release@
                &&& p.arch@ == config.package.arch@
                &&& subs_view(p.sub_packages@) == subs
                &&& p.is_split == has_meta(subs)
                &&& p.needs_extended_cpio == needs_extended(files, limits)
                &&& p.total_size == sizes_sum(files)
                &&& p.deferred_split == deferred
                &&& strings_view(p.warnings@) == plan_warnings(
                    has_meta(subs),
                    deferred,
                    estimated_compressed(sizes_sum(files), config.compression.algorithm@),
                    limits,
                )
            },
            Err(_) => false,
        },
    }
}

fn ratio_of(algorithm: &str) -> (r: (u64, u128))
    ensures
        r.0 as nat == ratio_parts(algorithm@).0,
        r.1 as nat == ratio_parts(algorithm@).1,
        0 < r.0 < 0x20000000000000,
        0 < r.1 < 0x80000000000000000000000000000000,
{
    if str_eq(algorithm, "gzip") {
        (7205759403792794, 0x40000000000000)
    } else if str_eq(algorithm, "xz") {
        (5404319552844595, 0x40000000000000)
    } else if str_eq(algorithm, "none") {
        (1, 1)
    } else {
        (6305039478318694, 0x40000000000000)
    }
}

/// The estimated compressed size of `total` uncompressed bytes with the
/// named algorithm: `(total as f64 * ratio) as u64`, the ratio being 0.35
/// for zstd (and unknown names), 0.40 for gzip, 0.30 for xz and 1 without
/// compression.
pub fn estimated_compressed_size(total: u64, algorithm: &str) -> (r: u64)
    ensures
        r == estimated_compressed(total as nat, algorithm@),
{
    let (rm, rd) = ratio_of(algorithm);
    scaled_floor_exec(total, rm, rd)
}

fn total_of(files: &Vec<FileEntry>) -> (t: u64)
    requires
        sizes_sum(files@) <= u64::MAX,
    ensures
        t == sizes_sum(files@),
{
    let mut t: u64 = 0;
    let mut i: usize = 0;
    while i < files.len()
        invariant
            i <= files.len(),
            sizes_sum(files@) <= u64::MAX,
            t == sizes_sum(files@.take(i as int)),
        decreases files.len() - i,
    {
        assert(files@.take(i + 1).drop_last() =~= files@.take(i as int));
        proof {
            lemma_sizes_take(files@, i + 1);
        }
        t = t + files[i].size;
        i += 1;
    }
    assert(files@.take(files.len() as int) =~= files@);
    t
}

fn needs_extended_exec(files: &Vec<FileEntry>, limits: &FormatLimits) -> (r: bool)
    ensures
        r == needs_extended(files@, *limits),
{
    let mut i: usize = 0;
    while i < files.len()
        invariant
            i <= files.len(),
            forall|k: int|
                0 <= k < i ==> !((#[trigger] files@[k]).entry_type is RegularFile && files@[k].size
                    > limits.max_file_size_standard),
        decreases files.len() - i,
    {
        let big = files[i].size > limits.max_file_size_standard;
        match files[i].entry_type {
            EntryType::RegularFile => {
                if big {
                    return true;
                }
            },
            _ => {},
        }
        i += 1;
    }
    false
}

fn has_meta_exec(subs: &Vec<SubPackage>) -> (r: bool)
    ensures
        r == has_meta(subs_view(subs@)),
{
    let mut i: usize = 0;
    while i < subs.len()
        invariant
            i <= subs.len(),
            forall|k: int| 0 <= k < i ==> (#[trigger] subs_view(subs@)[k]).1 != SubPackageRole::Meta,
        decreases subs.len() - i,
    {
        assert(subs_view(subs@)[i as int].1 == subs@[i as int].role);
        if subs[i].role == SubPackageRole::Meta {
            return true;
        }
        i += 1;
    }
    false
}

fn standalone_exec(name: &String, files: Vec<FileEntry>, total: u64, scripts: ResolvedScripts) -> (r:
    Vec<SubPackage>)
    ensures
        subs_view(r@) == standalone(name@, files@, total, scripts),
{
    let mut v: Vec<SubPackage> = Vec::new();
    v.push(
        SubPackage {
            name: name.clone(),
            role: SubPackageRole::Standalone,
            files,
            total_size: total,
            scripts,
        },
    );
    assert(subs_view(v@) =~= standalone(name@, files@, total, scripts));
    v
}

fn split_packages<F: Fn(&String) -> Option<u64>>(
    parts: Vec<(Vec<FileEntry>, u64)>,
    name: &String,
    scripts: ResolvedScripts,
    disk_size: &F,
) -> (r: (Vec<SubPackage>, Ghost<Seq<Seq<Option<u64>>>>))
    requires
        forall|s: &String| disk_size.requires((s,)),
    ensures
        lookups_from(*disk_size, parts_view(parts@), r.1@),
        subs_view(r.0@) == split_subs(fixup_parts(parts_view(parts@), r.1@), name@, scripts),
{
    let mut parts = parts;
    let ghost before = parts_view(parts@);
    fixup_hardlinks_across_parts(&mut parts, disk_size);
    let ghost sz = choose|sz: Seq<Seq<Option<u64>>>|
        lookups_from(*disk_size, before, sz) && parts_view(parts@) == fixup_parts(before, sz);
    let subs = build_split_packages(parts, name.as_str(), scripts);
    (subs, Ghost(sz))
}

/// The sub-packages of a plan agree with the decided outcome.
pub open spec fn decided(
    r: Result<(Vec<SubPackage>, bool), PlanError>,
    o: PlanOutcome,
) -> bool {
    match o {
        PlanOutcome::Exceeds { format, total } => r matches Err(
            PlanError::ExceedsLimits { format: f, total_size: t },
        ) && f@ == format && t == total,
        PlanOutcome::BadSize { value, reason } => r matches Err(
            PlanError::InvalidSize { value: v, reason: m },
        ) && v@ == value && m@ == reason,
        PlanOutcome::Planned { subs, deferred } => r matches Ok((s, d)) && subs_view(s@) == subs
            && d == deferred,
    }
}

proof fn lemma_strategies_distinct()
    ensures
        "auto"@ != "size"@,
        "auto"@ != "directory"@,
        "size"@ != "directory"@,
{
    reveal_strlit("auto");
    reveal_strlit("size");
    reveal_strlit("directory");
    assert("auto"@[0] != "size"@[0]);
    assert("auto"@.len() != "directory"@.len());
    assert("size"@.len() != "directory"@.len());
}

#[verifier::spinoff_prover]
#[verifier::rlimit(60)]
fn decide_subs<F: Fn(&String) -> Option<u64>>(
    config: &Config,
    limits: &FormatLimits,
    files: Vec<FileEntry>,
    scripts: ResolvedScripts,
    disk_size: &F,
    total: u64,
    est: u64,
) -> (r: (Result<(Vec<SubPackage>, bool), PlanError>, Ghost<Seq<Seq<Option<u64>>>>))
    requires
        total == sizes_sum(files@),
        est == estimated_compressed(sizes_sum(files@), config.compression.algorithm@),
        config.splitting.enabled && config.splitting.strategy@ == "size"@
            ==> config.splitting.max_size is Some,
        forall|s: &String| disk_size.requires((s,)),
    ensures
        plan_parts(*config, *limits, files@) matches Some(ps) ==> lookups_from(*disk_size, ps, r.1@),
        decided(r.0, plan_outcome(*config, *limits, files@, scripts, r.1@)),
{
    let ghost fv = files@;
    let name = &config.package.name;
    let thr = scaled_floor_exec(limits.max_compressed_payload, 7205759403792794, 0x20000000000000);
    let strat = config.splitting.strategy.as_str();
    let ghost none: Seq<Seq<Option<u64>>> = seq![];
    proof {
        lemma_strategies_distinct();
    }
    if !config.splitting.enabled {
        if est > thr {
            return (
                Err(PlanError::ExceedsLimits { format: lit(limits.format_name), total_size: est }),
                Ghost(none),
            );
        }
        return (Ok((standalone_exec(name, files, total, scripts), false)), Ghost(none));
    }
    if str_eq(strat, "auto") {
        if est <= thr {
            {
                let res = (Ok((standalone_exec(name, files, total, scripts), false)), Ghost(none));
                assert(decided(res.0, plan_outcome(*config, *limits, fv, scripts, res.1@)));
                res
            }
        } else if limits.max_compressed_payload < 0xFFFF_FFFF_FFFF_FFFF {
            {
                let res = (Ok((standalone_exec(name, files, total, scripts), true)), Ghost(none));
                assert(decided(res.0, plan_outcome(*config, *limits, fv, scripts, res.1@)));
                res
            }
        } else {
            let np: u64 = if round53_exec(est as u128) > 14757395258967642112 {
                2
            } else {
                1
            };
            let parts = split_by_size(files, total / np, name.as_str());
            let (s, g) = split_packages(parts, name, scripts, disk_size);
            {
                let res = (Ok((s, false)), g);
                assert(decided(res.0, plan_outcome(*config, *limits, fv, scripts, res.1@)));
                res
            }
        }
    } else if str_eq(strat, "size") {
        let max_str = match &config.splitting.max_size {
            Some(m) => m,
            None => {
                assert(false);
                return (Ok((Vec::new(), false)), Ghost(none));
            },
        };
        match parse_size(max_str.as_str()) {
            Err(reason) => (Err(PlanError::InvalidSize { value: max_str.clone(), reason }), Ghost(none)),
            Ok(max) => {
                if total <= max {
                    {
                        let res = (Ok((standalone_exec(name, files, total, scripts), false)), Ghost(none));
                        assert(decided(res.0, plan_outcome(*config, *limits, fv, scripts, res.1@)));
                        res
                    }
                } else {
                    let parts = split_by_size(files, max, name.as_str());
                    let (s, g) = split_packages(parts, name, scripts, disk_size);
                    {
                        let res = (Ok((s, false)), g);
                        assert(decided(res.0, plan_outcome(*config, *limits, fv, scripts, res.1@)));
                        res
                    }
                }
            },
        }
    } else if str_eq(strat, "directory") {
        if config.splitting.parts.len() == 0 {
            {
                let res = (Ok((standalone_exec(name, files, total, scripts), false)), Ghost(none));
                assert(decided(res.0, plan_outcome(*config, *limits, fv, scripts, res.1@)));
                res
            }
        } else {
            let parts = split_by_directory(files, &config.splitting.parts, name.as_str());
            let (s, g) = split_packages(parts, name, scripts, disk_size);
            {
                let res = (Ok((s, false)), g);
                assert(decided(res.0, plan_outcome(*config, *limits, fv, scripts, res.1@)));
                res
            }
        }
    } else {
        {
            let res = (Ok((standalone_exec(name, files, total, scripts), false)), Ghost(none));
            assert(decided(res.0, plan_outcome(*config, *limits, fv, scripts, res.1@)));
            res
        }
    }
}

impl Planner {
    /// Create a plan from pre-built file entries.
    ///
    /// The entries' sizes are summed; the estimated compressed size decides,
    /// with the splitting configuration, whether the package stays whole, is
    /// split by size or by directory, or is left to the DEB builder to split
    /// while it streams. `disk_size` reads the size of a source file; it is
    /// asked only for hard links that a split separates from their target.
    pub fn plan_from_entries<F: Fn(&String) -> Option<u64>>(
        config: &Config,
        limits: &FormatLimits,
        files: Vec<FileEntry>,
        scripts: ResolvedScripts,
        disk_size: &F,
    ) -> (r: Result<PackagePlan, PlanError>)
        requires
            sizes_sum(files@) <= u64::MAX,
            config.splitting.enabled && config.splitting.strategy@ == "size"@
                ==> config.splitting.max_size is Some,
            forall|s: &String| disk_size.requires((s,)),
        ensures
            exists|sz: Seq<Seq<Option<u64>>>|
                (plan_parts(*config, *limits, files@) matches Some(ps) ==> lookups_from(
                    *disk_size,
                    ps,
                    sz,
                )) && plan_result_is(
                    r,
                    plan_outcome(*config, *limits, files@, scripts, sz),
                    *config,
                    *limits,
                    files@,
                ),
    {
        let ghost fv = files@;
        let total = total_of(&files);
        let needs_ext = needs_extended_exec(&files, limits);
        let (rm, rd) = ratio_of(config.compression.algorithm.as_str());
        let est = scaled_floor_exec(total, rm, rd);
        let (decision, g) = decide_subs(config, limits, files, scripts, disk_size, total, est);
        let ghost sz = g@;
        let ghost o = plan_outcome(*config, *limits, fv, scripts, sz);
        match decision {
            Err(e) => {
                let r: Result<PackagePlan, PlanError> = Err(e);
                assert(plan_result_is(r, o, *config, *limits, fv));
                r
            },
            Ok((subs, deferred)) => {
                let is_split = has_meta_exec(&subs);
                let warnings = build_warnings(is_split, deferred, est, limits);
                let r = Ok(
                    PackagePlan {
                        name: config.package.name.clone(),
                        version: config.package.version.clone(),
                        release: config.package.release.clone(),
                        arch: config.package.arch.clone(),
                        sub_packages: subs,
                        is_split,
                        needs_extended_cpio: needs_ext,
                        total_size: total,
                        warnings,
                        deferred_split: deferred,
                    },
                );
                assert(plan_result_is(r, o, *config, *limits, fv));
                r
            },
        }
    }
}

// ---------------------------------------------------------------------------
// A split by directory keeps every file
// ---------------------------------------------------------------------------

/// The entries routed to the first `k` configured parts, as a multiset.
pub open spec fn routed_msum(xs: Seq<FileEntry>, cfg: Seq<SplitPart>, k: nat) -> Multiset<FileEntry>
    decreases k,
{
    if k == 0 {
        Multiset::empty()
    } else {
        routed_msum(xs, cfg, (k - 1) as nat).add(routed(xs, cfg, Some(k - 1)).to_multiset())
    }
}

proof fn lemma_msum_push(xs: Seq<FileEntry>, cfg: Seq<SplitPart>, k: nat, x: FileEntry)
    ensures
        routed_msum(xs.push(x), cfg, k) == routed_msum(xs, cfg, k).add(
            if target_part(x, cfg) matches Some(j) && 0 <= j < k {
                Multiset::singleton(x)
            } else {
                Multiset::empty()
            },
        ),
    decreases k,
{
    broadcast use vstd::seq_lib::group_to_multiset_ensures;
    broadcast use vstd::multiset::group_multiset_axioms;
    assert(xs.push(x).drop_last() =~= xs);
    if k > 0 {
        lemma_msum_push(xs, cfg, (k - 1) as nat, x);
        let j = k - 1;
        if target_part(x, cfg) == Some(j) {
            assert(routed(xs.push(x), cfg, Some(j)) == routed(xs, cfg, Some(j)).push(x));
        } else {
            assert(routed(xs.push(x), cfg, Some(j)) == routed(xs, cfg, Some(j)));
        }
        assert(routed_msum(xs.push(x), cfg, k) =~= routed_msum(xs, cfg, k).add(
            if target_part(x, cfg) matches Some(j) && 0 <= j < k {
                Multiset::singleton(x)
            } else {
                Multiset::empty()
            },
        ));
    } else {
        assert(routed_msum(xs, cfg, 0).add(Multiset::<FileEntry>::empty()) =~= routed_msum(xs, cfg, 0));
    }
}

/// Every entry is routed to exactly one place: a configured part or the
/// remainder.
proof fn lemma_routed_total(xs: Seq<FileEntry>, cfg: Seq<SplitPart>)
    ensures
        routed_msum(xs, cfg, cfg.len()).add(routed(xs, cfg, None).to_multiset()) == xs.to_multiset(),
    decreases xs.len(),
{
    broadcast use vstd::seq_lib::group_to_multiset_ensures;
    broadcast use vstd::multiset::group_multiset_axioms;
    if xs.len() == 0 {
        lemma_msum_empty(xs, cfg, cfg.len());
        assert(routed_msum(xs, cfg, cfg.len()).add(routed(xs, cfg, None).to_multiset()) =~= xs.to_multiset());
    } else {
        let ys = xs.drop_last();
        let x = xs.last();
        assert(ys.push(x) =~= xs);
        lemma_routed_total(ys, cfg);
        lemma_msum_push(ys, cfg, cfg.len(), x);
        lemma_target_range(x, cfg);
        if target_part(x, cfg) is None {
            assert(routed(xs, cfg, None) == routed(ys, cfg, None).push(x));
        } else {
            assert(routed(xs, cfg, None) == routed(ys, cfg, None));
        }
        assert(routed_msum(xs, cfg, cfg.len()).add(routed(xs, cfg, None).to_multiset()) =~= xs.to_multiset());
    }
}

proof fn lemma_msum_empty(xs: Seq<FileEntry>, cfg: Seq<SplitPart>, k: nat)
    requires
        xs.len() == 0,
    ensures
        routed_msum(xs, cfg, k) == Multiset::<FileEntry>::empty(),
    decreases k,
{
    broadcast use vstd::seq_lib::group_to_multiset_ensures;
    broadcast use vstd::multiset::group_multiset_axioms;
    if k > 0 {
        lemma_msum_empty(xs, cfg, (k - 1) as nat);
        assert(routed(xs, cfg, Some(k - 1)) =~= Seq::<FileEntry>::empty());
        assert(routed_msum(xs, cfg, k) =~= Multiset::<FileEntry>::empty());
    }
}

proof fn lemma_non_dir_identity(s: Seq<FileEntry>)
    requires
        no_dirs(s),
    ensures
        non_dir_entries(s) == s,
    decreases s.len(),
{
    if s.len() > 0 {
        let t = s.drop_last();
        assert forall|i: int| 0 <= i < t.len() implies !is_dir_entry(#[trigger] t[i]) by {
            assert(t[i] == s[i]);
        }
        lemma_non_dir_identity(t);
        assert(!is_dir_entry(s[s.len() - 1]));
        assert(t.push(s.last()) =~= s);
    }
}

proof fn lemma_part_files_add(a: Seq<PartView>, b: Seq<PartView>)
    ensures
        part_files(a + b) == part_files(a) + part_files(b),
    decreases b.len(),
{
    if b.len() == 0 {
        assert(a + b =~= a);
        assert(part_files(a) + part_files(b) =~= part_files(a));
    } else {
        lemma_part_files_add(a, b.drop_last());
        assert((a + b).drop_last() =~= a + b.drop_last());
        assert(part_files(a + b) =~= part_files(a) + part_files(b));
    }
}

proof fn lemma_part_files_nonempty(ps: Seq<PartView>)
    ensures
        part_files(nonempty_parts(ps)) == part_files(ps),
    decreases ps.len(),
{
    if ps.len() > 0 {
        lemma_part_files_nonempty(ps.drop_last());
        if ps.last().0.len() == 0 {
            assert(non_dir_entries(ps.last().0) == Seq::<FileEntry>::empty());
            assert(part_files(ps) =~= part_files(ps.drop_last()));
        } else {
            assert(nonempty_parts(ps).drop_last() =~= nonempty_parts(ps.drop_last()));
        }
    }
}

proof fn lemma_configured_parts(xs: Seq<FileEntry>, cfg: Seq<SplitPart>, k: nat)
    requires
        no_dirs(xs),
        k <= cfg.len(),
    ensures
        part_files(routed_parts(xs, cfg).take(k as int)).to_multiset() == routed_msum(xs, cfg, k),
    decreases k,
{
    broadcast use vstd::seq_lib::group_to_multiset_ensures;
    broadcast use vstd::multiset::group_multiset_axioms;
    let rp = routed_parts(xs, cfg);
    if k == 0 {
        assert(rp.take(0) =~= Seq::<PartView>::empty());
        assert(part_files(rp.take(0)) =~= Seq::<FileEntry>::empty());
        assert(Seq::<FileEntry>::empty().to_multiset() =~= Multiset::<FileEntry>::empty());
    } else {
        lemma_configured_parts(xs, cfg, (k - 1) as nat);
        assert(rp.take(k as int).drop_last() =~= rp.take(k - 1));
        let r = routed(xs, cfg, Some(k - 1));
        assert(rp.take(k as int).last() == rp[k - 1]);
        assert(rp[k - 1].0 == r);
        lemma_routed_bound(xs, cfg, Some(k - 1));
        lemma_non_dir_identity(r);
        vstd::seq_lib::lemma_multiset_commutative(part_files(rp.take(k - 1)), r);
    }
}

/// A split by directory keeps every file: the files (all but directories)
/// of the parts are the package's files, each as often as the package
/// holds it.
pub proof fn law_directory_split_keeps_every_file(files: Seq<FileEntry>, cfg: Seq<SplitPart>)
    ensures
        part_files(directory_split(files, cfg)).to_multiset() == non_dir_entries(files).to_multiset(),
{
    broadcast use vstd::seq_lib::group_to_multiset_ensures;
    broadcast use vstd::multiset::group_multiset_axioms;
    let xs = non_dir_entries(files);
    lemma_sizes_split(files);
    let rp = routed_parts(xs, cfg);
    lemma_ancestors_part_files(nonempty_parts(rp), dir_entries(files));
    lemma_part_files_nonempty(rp);
    let n = cfg.len();
    let head = rp.take(n as int);
    let rem = routed(xs, cfg, None);
    lemma_routed_bound(xs, cfg, None);
    lemma_non_dir_identity(rem);
    let tail: Seq<PartView> = if rem.len() > 0 {
        seq![(rem, sizes_sum(rem))]
    } else {
        seq![]
    };
    assert(rp =~= head + tail);
    lemma_part_files_add(head, tail);
    lemma_configured_parts(xs, cfg, n);
    if rem.len() > 0 {
        assert(tail.drop_last() =~= Seq::<PartView>::empty());
        assert(tail.last() == (rem, sizes_sum(rem)));
        assert(part_files(tail.drop_last()) == Seq::<FileEntry>::empty());
        assert(part_files(tail) == part_files(tail.drop_last()) + non_dir_entries(rem));
        assert(part_files(tail) =~= rem);
    } else {
        assert(part_files(tail) =~= rem);
    }
    vstd::seq_lib::lemma_multiset_commutative(part_files(head), part_files(tail));
    lemma_routed_total(xs, cfg);
}

} // verus!
