//! File entries of a package and the rules that produce them.
//!
//! Globbing, directory traversal and metadata reads happen in the
//! command-line application; this module holds the entries they produce and
//! the rules applied to them: install-path checks, mode parsing, the glob
//! base of a pattern, system directories, implicit parent directories,
//! first-mapping-wins deduplication and the final ordering.
use vstd::prelude::*;

use crate::config::{ContentConfig, ContentDefaults, DirectoryMapping, SymlinkMapping};
use crate::deb::control::{chars_le, chars_le_exec};
use crate::deps::strings_view;
use crate::paths::{comps_eq, path_comps, path_comps_exec, path_parent, root_comps, std_parent};
use crate::text::{chars_of, extend_chars, extend_str, join, join_from, lit, string_from_chars, vviews};
use crate::types::{digit_value, unsigned_digits};

verus! {

/// `glob::PatternError`, carried opaquely.
#[verifier::external_type_specification]
#[verifier::external_body]
pub struct ExPatternError(glob::PatternError);

/// `walkdir::Error`, carried opaquely.
#[verifier::external_type_specification]
#[verifier::external_body]
pub struct ExWalkdirError(walkdir::Error);

/// Errors that can occur during file tree walking.
#[derive(Debug)]
pub enum FileTreeError {
    /// A glob pattern could not be parsed.
    InvalidGlob { pattern: String, source: glob::PatternError },
    /// Error during directory traversal.
    WalkError(walkdir::Error),
    /// I/O error reading file metadata.
    Metadata { path: String, source: std::io::Error },
    /// A file mapping src pattern matched no files.
    NoMatches { pattern: String },
    /// A file mapping destination is invalid.
    InvalidMapping { src: String, dst: String, reason: String },
}

/// The type of a file entry.
#[derive(Debug, Clone)]
pub enum EntryType {
    RegularFile,
    Directory,
    Symlink { target: String },
    Hardlink { target: String },
}

/// A single file, directory, or symlink to include in the package.
#[derive(Debug, Clone)]
pub struct FileEntry {
    /// Absolute path as it will appear inside the package.
    pub install_path: String,
    /// Path to the source file on disk (empty for synthetic entries like symlinks/dirs from config).
    pub source_path: String,
    /// Type of this entry.
    pub entry_type: EntryType,
    /// File size in bytes (0 for directories and symlinks).
    pub size: u64,
    /// Unix file mode (e.g., 0o755).
    pub mode: u32,
    /// Owner username.
    pub user: String,
    /// Group name.
    pub group: String,
    /// Whether this file is a config file (noreplace/conffile).
    pub is_config: bool,
}

/// Builds a file tree from a source directory and config mappings.
pub struct FileTree;

/// Whether an entry is a directory.
pub open spec fn is_dir_entry(e: FileEntry) -> bool {
    e.entry_type is Directory
}

/// A copy of an entry type.
pub fn copy_entry_type(t: &EntryType) -> (r: EntryType)
    ensures
        r == *t,
{
    match t {
        EntryType::RegularFile => EntryType::RegularFile,
        EntryType::Directory => EntryType::Directory,
        EntryType::Symlink { target } => EntryType::Symlink { target: target.clone() },
        EntryType::Hardlink { target } => EntryType::Hardlink { target: target.clone() },
    }
}

/// A copy of an entry.
pub fn copy_entry(e: &FileEntry) -> (r: FileEntry)
    ensures
        r == *e,
{
    FileEntry {
        install_path: e.install_path.clone(),
        source_path: e.source_path.clone(),
        entry_type: copy_entry_type(&e.entry_type),
        size: e.size,
        mode: e.mode,
        user: e.user.clone(),
        group: e.group.clone(),
        is_config: e.is_config,
    }
}

/// Whether an entry is a directory.
pub fn is_dir_exec(e: &FileEntry) -> (r: bool)
    ensures
        r == is_dir_entry(*e),
{
    match e.entry_type {
        EntryType::Directory => true,
        _ => false,
    }
}

// ---------------------------------------------------------------------------
// Install paths
// ---------------------------------------------------------------------------

/// Why an install path is refused: it must be absolute and free of `..`
/// components.
pub open spec fn install_path_problem(path: Seq<char>, context: Seq<char>) -> Option<Seq<char>> {
    if !(path.len() > 0 && path[0] == '/') {
        Some(context + " must be an absolute path (starting with '/')"@)
    } else if path_comps(path).contains(".."@) {
        Some(context + " must not contain '..' components"@)
    } else {
        None
    }
}

/// The refusal of an invalid path, as plain values: the reason, and the
/// mapping's source and destination.
pub open spec fn mapping_error(r: Result<(), FileTreeError>) -> Option<(Seq<char>, Seq<char>, Seq<char>)> {
    match r {
        Err(FileTreeError::InvalidMapping { src, dst, reason }) => Some((src@, dst@, reason@)),
        _ => None,
    }
}

/// Validate that an install path is absolute and contains no `..` components.
pub fn validate_install_path(path: &str, context: &str) -> (r: Result<(), FileTreeError>)
    ensures
        match install_path_problem(path@, context@) {
            None => r is Ok,
            Some(reason) => mapping_error(r) == Some((Seq::<char>::empty(), path@, reason)),
        },
{
    let c = chars_of(path);
    if !(c.len() > 0 && c[0] == '/') {
        let mut v = chars_of(context);
        extend_str(&mut v, " must be an absolute path (starting with '/')");
        return Err(
            FileTreeError::InvalidMapping {
                src: String::new(),
                dst: lit(path),
                reason: string_from_chars(&v),
            },
        );
    }
    let comps = path_comps_exec(path);
    let dots = vec!['.', '.'];
    assert(dots@ =~= ".."@) by {
        reveal_strlit("..");
    }
    let mut i: usize = 0;
    while i < comps.len()
        invariant
            i <= comps.len(),
            vviews(comps@) == path_comps(path@),
            path@.len() > 0 && path@[0] == '/',
            dots@ == ".."@,
            forall|j: int| 0 <= j < i ==> vviews(comps@)[j] != ".."@,
        decreases comps.len() - i,
    {
        if crate::text::chars_eq(&comps[i], &dots) {
            assert(vviews(comps@)[i as int] == ".."@);
            assert(path_comps(path@)[i as int] == ".."@);
            assert(path_comps(path@).contains(".."@));
            let mut v = chars_of(context);
            extend_str(&mut v, " must not contain '..' components");
            return Err(
                FileTreeError::InvalidMapping {
                    src: String::new(),
                    dst: lit(path),
                    reason: string_from_chars(&v),
                },
            );
        }
        i += 1;
    }
    Ok(())
}

// ---------------------------------------------------------------------------
// Modes
// ---------------------------------------------------------------------------

/// ASCII octal digits.
pub open spec fn is_octal(c: char) -> bool {
    48 <= (c as u32) <= 55
}

/// Every character is an octal digit.
pub open spec fn all_octal(d: Seq<char>) -> bool {
    forall|i: int| 0 <= i < d.len() ==> is_octal(#[trigger] d[i])
}

/// The value of a string of octal digits.
pub open spec fn octal_val(s: Seq<char>) -> nat
    decreases s.len(),
{
    if s.len() == 0 {
        0
    } else {
        octal_val(s.drop_last()) * 8 + digit_value(s.last())
    }
}

/// What `u32::from_str_radix(s, 8)` accepts: an optional `+`, then at least
/// one octal digit and nothing else, whose value fits in 32 bits.
pub open spec fn octal_from_str(s: Seq<char>) -> Option<u32> {
    let d = unsigned_digits(s);
    if d.len() > 0 && all_octal(d) && octal_val(d) <= u32::MAX {
        Some(octal_val(d) as u32)
    } else {
        None
    }
}

/// A string without its leading zeros.
pub open spec fn strip_leading_zeros(s: Seq<char>) -> Seq<char>
    decreases s.len(),
{
    if s.len() > 0 && s[0] == '0' {
        strip_leading_zeros(s.drop_first())
    } else {
        s
    }
}

/// The text a mode is read from: the string without leading zeros, `0`
/// when nothing is left.
pub open spec fn mode_digits(s: Seq<char>) -> Seq<char> {
    let t = strip_leading_zeros(s);
    if t.len() == 0 {
        "0"@
    } else {
        t
    }
}

/// A longer string of octal digits is worth at least as much as its prefix.
proof fn lemma_octal_val_prefix(d: Seq<char>, k: int)
    requires
        0 <= k <= d.len(),
    ensures
        octal_val(d.take(k)) <= octal_val(d),
    decreases d.len() - k,
{
    if k < d.len() {
        lemma_octal_val_prefix(d, k + 1);
        assert(d.take(k + 1).drop_last() =~= d.take(k));
    } else {
        assert(d.take(k) =~= d);
    }
}

/// `u32::from_str_radix(s, 8)`, written out.
fn parse_octal_u32(s: &Vec<char>) -> (r: Option<u32>)
    ensures
        r == octal_from_str(s@),
{
    let start: usize = if s.len() > 0 && s[0] == '+' { 1 } else { 0 };
    let ghost d = unsigned_digits(s@);
    assert(d =~= s@.skip(start as int));
    if start >= s.len() {
        return None;
    }
    let mut acc: u64 = 0;
    let mut over = false;
    let mut i: usize = start;
    while i < s.len()
        invariant
            start <= i <= s.len(),
            start < s.len(),
            d == unsigned_digits(s@),
            d == s@.skip(start as int),
            forall|j: int| 0 <= j < i - start ==> is_octal(#[trigger] d[j]),
            !over ==> acc == octal_val(d.take(i - start)) && acc <= u32::MAX,
            over ==> octal_val(d.take(i - start)) > u32::MAX,
        decreases s.len() - i,
    {
        let c = s[i];
        let u = c as u32;
        if !(48 <= u && u <= 55) {
            assert(d[i - start] == c);
            assert(!is_octal(d[i - start]));
            assert(!all_octal(d));
            return None;
        }
        let dv: u64 = (u - 48) as u64;
        assert(d.take(i + 1 - start).drop_last() =~= d.take(i - start));
        assert(d.take(i + 1 - start).last() == c);
        assert(dv == digit_value(c));
        if !over {
            acc = acc * 8 + dv;
            if acc > u32::MAX as u64 {
                over = true;
            }
        } else {
            assert(octal_val(d.take(i + 1 - start)) >= octal_val(d.take(i - start))) by (nonlinear_arith)
                requires
                    octal_val(d.take(i + 1 - start)) == octal_val(d.take(i - start)) * 8 + dv,
            ;
        }
        i += 1;
    }
    assert(d.take(i - start) =~= d);
    if over {
        None
    } else {
        Some(acc as u32)
    }
}

/// Parse an octal mode string like "0755" into a u32.
pub fn parse_mode(mode_str: &str) -> (r: Result<u32, FileTreeError>)
    ensures
        match r {
            Ok(m) => octal_from_str(mode_digits(mode_str@)) == Some(m),
            Err(FileTreeError::InvalidMapping { src, dst, reason }) => {
                &&& octal_from_str(mode_digits(mode_str@)) is None
                &&& src@.len() == 0
                &&& dst@.len() == 0
                &&& reason@ == "invalid mode '"@ + mode_str@ + "': expected octal like '0755'"@
            },
            Err(_) => false,
        },
{
    let c = chars_of(mode_str);
    let mut k: usize = 0;
    assert(c@.skip(0) =~= c@);
    while k < c.len() && c[k] == '0'
        invariant
            k <= c.len(),
            strip_leading_zeros(c@) == strip_leading_zeros(c@.skip(k as int)),
        decreases c.len() - k,
    {
        assert(c@.skip(k as int).drop_first() =~= c@.skip(k + 1));
        k += 1;
    }
    let mut t: Vec<char> = Vec::new();
    let mut j = k;
    while j < c.len()
        invariant
            k <= j <= c.len(),
            t@ == c@.subrange(k as int, j as int),
        decreases c.len() - j,
    {
        t.push(c[j]);
        j += 1;
        assert(t@ =~= c@.subrange(k as int, j as int));
    }
    assert(t@ =~= c@.skip(k as int));
    assert(strip_leading_zeros(c@.skip(k as int)) == c@.skip(k as int));
    if t.len() == 0 {
        t.push('0');
        assert(t@ =~= "0"@) by {
            reveal_strlit("0");
        }
    }
    match parse_octal_u32(&t) {
        Some(m) => Ok(m),
        None => {
            let mut v: Vec<char> = Vec::new();
            extend_str(&mut v, "invalid mode '");
            extend_str(&mut v, mode_str);
            extend_str(&mut v, "': expected octal like '0755'");
            Err(
                FileTreeError::InvalidMapping {
                    src: String::new(),
                    dst: String::new(),
                    reason: string_from_chars(&v),
                },
            )
        },
    }
}

// ---------------------------------------------------------------------------
// Glob bases
// ---------------------------------------------------------------------------

/// A component holding a glob character.
pub open spec fn has_glob_char(c: Seq<char>) -> bool {
    c.contains('*') || c.contains('?') || c.contains('[')
}

/// The leading components without glob characters.
pub open spec fn glob_free_prefix(cs: Seq<Seq<char>>) -> Seq<Seq<char>>
    decreases cs.len(),
{
    if cs.len() == 0 || has_glob_char(cs[0]) {
        seq![]
    } else {
        seq![cs[0]] + glob_free_prefix(cs.drop_first())
    }
}

/// A path built from components by pushing them in turn (`.` for none).
pub open spec fn render_comps(cs: Seq<Seq<char>>) -> Seq<char> {
    if cs.len() == 0 {
        "."@
    } else if cs[0] == root_comps()[0] {
        "/"@ + join(cs.drop_first(), "/"@)
    } else {
        join(cs, "/"@)
    }
}

/// The longest leading part of a pattern without glob characters.
pub open spec fn glob_base(pattern: Seq<char>) -> Seq<char> {
    render_comps(glob_free_prefix(path_comps(pattern)))
}

fn has_glob_char_exec(c: &Vec<char>) -> (r: bool)
    ensures
        r == has_glob_char(c@),
{
    crate::text::contains_char(c, '*') || crate::text::contains_char(c, '?')
        || crate::text::contains_char(c, '[')
}

/// Extract the longest non-glob prefix from a glob pattern.
///
/// For "/opt/staging/R2025a/**", returns "/opt/staging/R2025a".
/// For "src/*.rs", returns "src".
pub fn glob_base_path(pattern: &str) -> (r: String)
    ensures
        r@ == glob_base(pattern@),
{
    let comps = path_comps_exec(pattern);
    let ghost cs = vviews(comps@);
    let mut n: usize = 0;
    assert(cs.skip(0) =~= cs);
    assert(cs.take(0) =~= Seq::<Seq<char>>::empty());
    while n < comps.len() && !has_glob_char_exec(&comps[n])
        invariant
            n <= comps.len(),
            cs == vviews(comps@),
            glob_free_prefix(cs) == cs.take(n as int) + glob_free_prefix(cs.skip(n as int)),
        decreases comps.len() - n,
    {
        assert(cs.skip(n as int).drop_first() =~= cs.skip(n + 1));
        assert(cs.take(n + 1) =~= cs.take(n as int) + seq![cs[n as int]]);
        n += 1;
    }
    assert(glob_free_prefix(cs.skip(n as int)) =~= Seq::<Seq<char>>::empty());
    let mut base: Vec<Vec<char>> = Vec::new();
    let mut i: usize = 0;
    while i < n
        invariant
            i <= n <= comps.len(),
            cs == vviews(comps@),
            vviews(base@) == cs.take(i as int),
        decreases n - i,
    {
        let mut w: Vec<char> = Vec::new();
        extend_chars(&mut w, &comps[i]);
        assert(w@ =~= comps@[i as int]@);
        let ghost b0 = base@;
        base.push(w);
        assert(base@ == b0.push(w));
        assert(vviews(base@) =~= vviews(b0).push(w@));
        assert(cs[i as int] == comps@[i as int]@);
        assert(cs.take(i + 1) =~= cs.take(i as int).push(cs[i as int]));
        i += 1;
    }
    let ghost bs = cs.take(n as int);
    assert(glob_free_prefix(cs) =~= bs);
    assert(root_comps()[0] =~= seq!['/']);
    let mut out: Vec<char> = Vec::new();
    if base.len() == 0 {
        extend_str(&mut out, ".");
    } else if base[0].len() == 1 && base[0][0] == '/' {
        extend_str(&mut out, "/");
        let rest = join_from(&base, 1, "/");
        assert(vviews(base@).skip(1) =~= bs.drop_first());
        extend_chars(&mut out, &rest);
        assert(base@[0]@ =~= seq!['/']);
    } else {
        let all = join_from(&base, 0, "/");
        assert(vviews(base@).skip(0) =~= bs);
        extend_chars(&mut out, &all);
        assert(bs[0] != root_comps()[0]) by {
            if bs[0] == root_comps()[0] {
                assert(base@[0]@ == seq!['/']);
                assert(base@[0]@.len() == 1);
            }
        }
    }
    string_from_chars(&out)
}

// ---------------------------------------------------------------------------
// System directories
// ---------------------------------------------------------------------------

/// The number of well-known system directories.
pub const SYSTEM_DIR_COUNT: usize = 39;

/// The well-known system directories (FHS paths owned by the base
/// filesystem package), by index.
pub open spec fn system_dir_name(i: int) -> Seq<char> {
    if i == 0 { "/usr"@ } else if i == 1 { "/usr/bin"@ } else if i == 2 { "/usr/sbin"@ }
    else if i == 3 { "/usr/lib"@ } else if i == 4 { "/usr/lib64"@ } else if i == 5 { "/usr/libexec"@ }
    else if i == 6 { "/usr/share"@ } else if i == 7 { "/usr/share/man"@ } else if i == 8 { "/usr/share/doc"@ }
    else if i == 9 { "/usr/share/info"@ } else if i == 10 { "/usr/include"@ } else if i == 11 { "/usr/local"@ }
    else if i == 12 { "/usr/local/bin"@ } else if i == 13 { "/usr/local/lib"@ } else if i == 14 { "/usr/local/share"@ }
    else if i == 15 { "/usr/local/include"@ } else if i == 16 { "/etc"@ } else if i == 17 { "/var"@ }
    else if i == 18 { "/var/lib"@ } else if i == 19 { "/var/log"@ } else if i == 20 { "/var/run"@ }
    else if i == 21 { "/var/cache"@ } else if i == 22 { "/var/tmp"@ } else if i == 23 { "/opt"@ }
    else if i == 24 { "/bin"@ } else if i == 25 { "/sbin"@ } else if i == 26 { "/lib"@ }
    else if i == 27 { "/lib64"@ } else if i == 28 { "/tmp"@ } else if i == 29 { "/run"@ }
    else if i == 30 { "/srv"@ } else if i == 31 { "/home"@ } else if i == 32 { "/root"@ }
    else if i == 33 { "/mnt"@ } else if i == 34 { "/media"@ } else if i == 35 { "/boot"@ }
    else if i == 36 { "/dev"@ } else if i == 37 { "/proc"@ } else { "/sys"@ }
}

fn system_dir(i: usize) -> (r: &'static str)
    requires
        i < SYSTEM_DIR_COUNT,
    ensures
        r@ == system_dir_name(i as int),
{
    match i {
        0 => "/usr", 1 => "/usr/bin", 2 => "/usr/sbin", 3 => "/usr/lib", 4 => "/usr/lib64",
        5 => "/usr/libexec", 6 => "/usr/share", 7 => "/usr/share/man", 8 => "/usr/share/doc",
        9 => "/usr/share/info", 10 => "/usr/include", 11 => "/usr/local", 12 => "/usr/local/bin",
        13 => "/usr/local/lib", 14 => "/usr/local/share", 15 => "/usr/local/include", 16 => "/etc",
        17 => "/var", 18 => "/var/lib", 19 => "/var/log", 20 => "/var/run", 21 => "/var/cache",
        22 => "/var/tmp", 23 => "/opt", 24 => "/bin", 25 => "/sbin", 26 => "/lib", 27 => "/lib64",
        28 => "/tmp", 29 => "/run", 30 => "/srv", 31 => "/home", 32 => "/root", 33 => "/mnt",
        34 => "/media", 35 => "/boot", 36 => "/dev", 37 => "/proc", _ => "/sys",
    }
}

/// A path equal (component by component) to a well-known system directory.
pub open spec fn is_system_dir(comps: Seq<Seq<char>>) -> bool {
    exists|i: int| 0 <= i < SYSTEM_DIR_COUNT && comps == path_comps(#[trigger] system_dir_name(i))
}

/// Whether a path's components are those of a system directory.
fn is_system_comps(comps: &Vec<Vec<char>>) -> (r: bool)
    ensures
        r == is_system_dir(vviews(comps@)),
{
    let mut i: usize = 0;
    while i < SYSTEM_DIR_COUNT
        invariant
            i <= SYSTEM_DIR_COUNT,
            forall|j: int| 0 <= j < i ==> vviews(comps@) != path_comps(#[trigger] system_dir_name(j)),
        decreases SYSTEM_DIR_COUNT - i,
    {
        let d = path_comps_exec(system_dir(i));
        if comps_eq(comps, &d) {
            return true;
        }
        i += 1;
    }
    false
}

/// Well-known system directories that should never be owned by a package.
///
/// These are standard FHS paths owned by the `filesystem` package on RPM distros
/// and `base-files` on DEB distros. Owning them causes install conflicts.
pub fn is_system_directory(path: &str) -> (r: bool)
    ensures
        r == is_system_dir(path_comps(path@)),
{
    let c = path_comps_exec(path);
    is_system_comps(&c)
}

// ---------------------------------------------------------------------------
// Implicit parent directories
// ---------------------------------------------------------------------------

/// Where the search for missing parents stops: at the root or the empty
/// path, at a system directory, or at a path already present.
pub open spec fn stops_at(qc: Seq<Seq<char>>, seen: Seq<Seq<Seq<char>>>) -> bool {
    qc == root_comps() || qc.len() == 0 || is_system_dir(qc) || seen.contains(qc)
}

/// The parents of `p` to add, nearest first, until the search stops.
pub open spec fn missing_parents(p: Seq<char>, seen: Seq<Seq<Seq<char>>>) -> Seq<Seq<char>>
    decreases p.len(),
{
    match std_parent(p) {
        Some(q) => if q.len() < p.len() && !stops_at(path_comps(q), seen) {
            seq![q] + missing_parents(q, seen.push(path_comps(q)))
        } else {
            seq![]
        },
        None => seq![],
    }
}

/// The components of the paths.
pub open spec fn comps_of(ps: Seq<Seq<char>>) -> Seq<Seq<Seq<char>>> {
    ps.map_values(|q: Seq<char>| path_comps(q))
}

/// The directories to add for the entries at paths `ps`, in order, and
/// the paths present afterwards.
pub open spec fn implicit_fold(ps: Seq<Seq<char>>, seen0: Seq<Seq<Seq<char>>>) -> (
    Seq<Seq<char>>,
    Seq<Seq<Seq<char>>>,
)
    decreases ps.len(),
{
    if ps.len() == 0 {
        (seq![], seen0)
    } else {
        let (a, s) = implicit_fold(ps.drop_last(), seen0);
        let c = missing_parents(ps.last(), s);
        (a + c, s + comps_of(c))
    }
}

/// The install paths of the entries.
pub open spec fn install_paths(fs: Seq<FileEntry>) -> Seq<Seq<char>> {
    fs.map_values(|f: FileEntry| f.install_path@)
}

/// The directories added for entries at the paths `ps`.
pub open spec fn implicit_paths(ps: Seq<Seq<char>>) -> Seq<Seq<char>> {
    implicit_fold(ps, comps_of(ps)).0
}

/// The directories added for the entries `fs`.
pub open spec fn implicit_dirs(fs: Seq<FileEntry>) -> Seq<Seq<char>> {
    implicit_paths(install_paths(fs))
}

/// The mode of an added directory: the default directory mode when it
/// parses, else 0755.
pub open spec fn default_dir_mode(d: ContentDefaults) -> u32 {
    match d.dir_mode {
        Some(m) => match octal_from_str(mode_digits(m@)) {
            Some(v) => v,
            None => 0o755,
        },
        None => 0o755,
    }
}

/// A directory entry made from the defaults.
pub open spec fn is_default_dir(e: FileEntry, path: Seq<char>, d: ContentDefaults) -> bool {
    &&& e.install_path@ == path
    &&& e.source_path@.len() == 0
    &&& e.entry_type is Directory
    &&& e.size == 0
    &&& e.mode == default_dir_mode(d)
    &&& e.user@ == d.user@
    &&& e.group@ == d.group@
    &&& !e.is_config
}

/// Whether `qc` is among the seen component lists.
fn seen_contains(seen: &Vec<Vec<Vec<char>>>, qc: &Vec<Vec<char>>) -> (r: bool)
    ensures
        r == seen@.map_values(|c: Vec<Vec<char>>| vviews(c@)).contains(vviews(qc@)),
{
    let ghost sv = seen@.map_values(|c: Vec<Vec<char>>| vviews(c@));
    let mut i: usize = 0;
    while i < seen.len()
        invariant
            i <= seen.len(),
            sv == seen@.map_values(|c: Vec<Vec<char>>| vviews(c@)),
            forall|j: int| 0 <= j < i ==> sv[j] != vviews(qc@),
        decreases seen.len() - i,
    {
        if comps_eq(&seen[i], qc) {
            assert(sv[i as int] == vviews(qc@));
            return true;
        }
        i += 1;
    }
    false
}

/// Where the parent search stops.
fn stops_at_exec(qc: &Vec<Vec<char>>, seen: &Vec<Vec<Vec<char>>>) -> (r: bool)
    ensures
        r == stops_at(vviews(qc@), seen@.map_values(|c: Vec<Vec<char>>| vviews(c@))),
{
    let mut slash: Vec<char> = Vec::new();
    slash.push('/');
    let mut root: Vec<Vec<char>> = Vec::new();
    root.push(slash);
    assert(vviews(root@) =~= root_comps()) by {
        assert(root@[0]@ =~= seq!['/']);
    }
    comps_eq(qc, &root) || qc.len() == 0 || is_system_comps(qc) || seen_contains(seen, qc)
}

/// Add implicit parent directory entries for all files.
///
/// For a file at /opt/app/bin/tool, ensures /opt/app/ and /opt/app/bin/
/// exist as directory entries. Well-known system directories (e.g. /opt,
/// /usr, /usr/bin) are excluded to avoid conflicts with the filesystem
/// package. Uses global defaults for mode/user/group.
pub fn add_implicit_directories(entries: &mut Vec<FileEntry>, defaults: &ContentDefaults)
    ensures
        final(entries)@.len() == old(entries)@.len() + implicit_dirs(old(entries)@).len(),
        final(entries)@.take(old(entries)@.len() as int) == old(entries)@,
        forall|k: int|
            0 <= k < implicit_dirs(old(entries)@).len() ==> is_default_dir(
                #[trigger] final(entries)@[old(entries)@.len() + k],
                implicit_dirs(old(entries)@)[k],
                *defaults,
            ),
{
    let n = entries.len();
    let ghost fs = entries@;
    let ghost ps = install_paths(fs);
    let mut seen: Vec<Vec<Vec<char>>> = Vec::new();
    let mut i: usize = 0;
    while i < n
        invariant
            i <= n == fs.len(),
            entries@ == fs,
            ps == install_paths(fs),
            seen@.map_values(|c: Vec<Vec<char>>| vviews(c@)) == comps_of(ps.take(i as int)),
        decreases n - i,
    {
        let c = path_comps_exec(entries[i].install_path.as_str());
        let ghost s0 = seen@;
        assert(ps[i as int] == entries@[i as int].install_path@);
        seen.push(c);
        assert(seen@.map_values(|c: Vec<Vec<char>>| vviews(c@)) =~= s0.map_values(
            |c: Vec<Vec<char>>| vviews(c@),
        ).push(vviews(c@)));
        assert(ps.take(i + 1) =~= ps.take(i as int).push(ps[i as int]));
        assert(seen@.map_values(|c: Vec<Vec<char>>| vviews(c@)) =~= comps_of(ps.take(i + 1)));
        i += 1;
    }
    assert(ps.take(n as int) =~= ps);
    let ghost seen0 = comps_of(ps);
    let mut added: Vec<String> = Vec::new();
    let mut i: usize = 0;
    assert(ps.take(0) =~= Seq::<Seq<char>>::empty());
    while i < n
        invariant
            i <= n == fs.len(),
            entries@ == fs,
            ps == install_paths(fs),
            seen0 == comps_of(ps),
            strings_view(added@) == implicit_fold(ps.take(i as int), seen0).0,
            seen@.map_values(|c: Vec<Vec<char>>| vviews(c@)) == implicit_fold(ps.take(i as int), seen0).1,
        decreases n - i,
    {
        let ghost pi = ps[i as int];
        let ghost s_i = implicit_fold(ps.take(i as int), seen0).1;
        let ghost a_i = implicit_fold(ps.take(i as int), seen0).0;
        let ghost chain = missing_parents(pi, s_i);
        assert(ps.take(i + 1).drop_last() =~= ps.take(i as int));
        assert(ps.take(i + 1).last() == pi);
        let mut cur = path_parent(entries[i].install_path.as_str());
        let ghost mut cp: Seq<char> = pi;
        let ghost mut got: Seq<Seq<char>> = seq![];
        let mut done = false;
        assert(chain =~= got + missing_parents(cp, s_i + comps_of(got)));
        while !done
            invariant
                strings_view(added@) == a_i + got,
                seen@.map_values(|c: Vec<Vec<char>>| vviews(c@)) == s_i + comps_of(got),
                !done ==> match cur {
                    Some(q) => std_parent(cp) == Some(q@) && q@.len() < cp.len(),
                    None => std_parent(cp) is None,
                },
                done ==> chain == got,
                !done ==> chain == got + missing_parents(cp, s_i + comps_of(got)),
            decreases (if done { 0 } else { cp.len() + 1 }),
        {
            let step: Option<String> = match &cur {
                None => None,
                Some(q) => Some(q.clone()),
            };
            match step {
                None => {
                    done = true;
                    assert(missing_parents(cp, s_i + comps_of(got)) =~= Seq::<Seq<char>>::empty());
                    assert(chain =~= got);
                },
                Some(q) => {
                    let qc = path_comps_exec(q.as_str());
                    if stops_at_exec(&qc, &seen) {
                        done = true;
                        assert(chain =~= got);
                    } else {
                        let ghost g0 = got;
                        let ghost sv0 = seen@;
                        let ghost av0 = added@;
                        added.push(q.clone());
                        seen.push(qc);
                        proof {
                            got = g0.push(q@);
                            assert(comps_of(got) =~= comps_of(g0).push(path_comps(q@)));
                            assert(strings_view(added@) =~= strings_view(av0).push(q@));
                            assert(seen@.map_values(|c: Vec<Vec<char>>| vviews(c@)) =~= sv0.map_values(
                                |c: Vec<Vec<char>>| vviews(c@),
                            ).push(path_comps(q@)));
                            assert((s_i + comps_of(g0)).push(path_comps(q@)) =~= s_i + comps_of(got));
                            assert(seq![q@] + missing_parents(q@, s_i + comps_of(got)) =~= missing_parents(
                                cp,
                                s_i + comps_of(g0),
                            ));
                            assert(chain =~= got + missing_parents(q@, s_i + comps_of(got)));
                            cp = q@;
                        }
                        cur = path_parent(q.as_str());
                    }
                },
            }
        }
        proof {
            assert(strings_view(added@) =~= implicit_fold(ps.take(i + 1), seen0).0);
            assert(seen@.map_values(|c: Vec<Vec<char>>| vviews(c@)) =~= implicit_fold(
                ps.take(i + 1),
                seen0,
            ).1);
        }
        i += 1;
    }
    let ghost dirs = implicit_dirs(fs);
    assert(strings_view(added@) == dirs);
    let dir_mode: u32 = match &defaults.dir_mode {
        Some(m) => match parse_mode(m.as_str()) {
            Ok(v) => v,
            Err(_) => 0o755,
        },
        None => 0o755,
    };
    let mut k: usize = 0;
    while k < added.len()
        invariant
            k <= added.len(),
            strings_view(added@) == dirs,
            dir_mode == default_dir_mode(*defaults),
            entries@.len() == fs.len() + k,
            entries@.take(fs.len() as int) == fs,
            forall|j: int|
                0 <= j < k ==> is_default_dir(#[trigger] entries@[fs.len() + j], dirs[j], *defaults),
        decreases added.len() - k,
    {
        let e = FileEntry {
            install_path: added[k].clone(),
            source_path: String::new(),
            entry_type: EntryType::Directory,
            size: 0,
            mode: dir_mode,
            user: defaults.user.clone(),
            group: defaults.group.clone(),
            is_config: false,
        };
        let ghost e0 = entries@;
        entries.push(e);
        assert(entries@.take(fs.len() as int) =~= e0.take(fs.len() as int));
        assert(entries@[fs.len() + k] == e);
        assert(dirs[k as int] == added@[k as int]@);
        k += 1;
    }
}

// ---------------------------------------------------------------------------
// Assembling the tree
// ---------------------------------------------------------------------------

/// The type of an entry, as plain values.
pub enum KindView {
    Regular,
    Dir,
    Sym(Seq<char>),
    Hard(Seq<char>),
}

/// An entry as plain values.
pub struct FileEntryView {
    pub path: Seq<char>,
    pub source: Seq<char>,
    pub kind: KindView,
    pub size: u64,
    pub mode: u32,
    pub user: Seq<char>,
    pub group: Seq<char>,
    pub is_config: bool,
}

/// An entry as plain values.
pub open spec fn view_of(e: FileEntry) -> FileEntryView {
    FileEntryView {
        path: e.install_path@,
        source: e.source_path@,
        kind: match e.entry_type {
            EntryType::RegularFile => KindView::Regular,
            EntryType::Directory => KindView::Dir,
            EntryType::Symlink { target } => KindView::Sym(target@),
            EntryType::Hardlink { target } => KindView::Hard(target@),
        },
        size: e.size,
        mode: e.mode,
        user: e.user@,
        group: e.group@,
        is_config: e.is_config,
    }
}

/// The entries as plain values.
pub open spec fn views_of(fs: Seq<FileEntry>) -> Seq<FileEntryView> {
    fs.map_values(|f: FileEntry| view_of(f))
}

/// The paths of entry views.
pub open spec fn view_paths(vs: Seq<FileEntryView>) -> Seq<Seq<char>> {
    vs.map_values(|v: FileEntryView| v.path)
}

/// Whether a path (by its components) is among the entries.
pub open spec fn has_path(vs: Seq<FileEntryView>, p: Seq<char>) -> bool {
    comps_of(view_paths(vs)).contains(path_comps(p))
}

/// The entries without later ones at a path already taken (the first wins).
pub open spec fn dedup_first(vs: Seq<FileEntryView>) -> Seq<FileEntryView>
    decreases vs.len(),
{
    if vs.len() == 0 {
        seq![]
    } else {
        let d = dedup_first(vs.drop_last());
        if has_path(d, vs.last().path) {
            d
        } else {
            d.push(vs.last())
        }
    }
}

/// A refusal: source, destination and reason.
pub type RefusalView = (Seq<char>, Seq<char>, Seq<char>);

/// A symbolic link from the configuration, as an entry.
pub open spec fn symlink_view(sym: SymlinkMapping, d: ContentDefaults) -> FileEntryView {
    FileEntryView {
        path: sym.dst@,
        source: seq![],
        kind: KindView::Sym(sym.src@),
        size: 0,
        mode: 0o120777,
        user: d.user@,
        group: d.group@,
        is_config: false,
    }
}

/// Adding one configured symbolic link.
pub open spec fn symlink_one(vs: Seq<FileEntryView>, sym: SymlinkMapping, d: ContentDefaults) -> Result<
    Seq<FileEntryView>,
    RefusalView,
> {
    if sym.src@.len() == 0 {
        Err((sym.src@, sym.dst@, "symlink target must not be empty"@))
    } else if sym.dst@.len() == 0 {
        Err((sym.src@, sym.dst@, "symlink install path must not be empty"@))
    } else {
        match install_path_problem(sym.dst@, "symlink dst"@) {
            Some(reason) => Err((seq![], sym.dst@, reason)),
            None => if has_path(vs, sym.dst@) {
                Ok(vs)
            } else {
                Ok(vs.push(symlink_view(sym, d)))
            },
        }
    }
}

/// Adding the configured symbolic links in order.
pub open spec fn add_symlinks(vs: Seq<FileEntryView>, syms: Seq<SymlinkMapping>, d: ContentDefaults) -> Result<
    Seq<FileEntryView>,
    RefusalView,
>
    decreases syms.len(),
{
    if syms.len() == 0 {
        Ok(vs)
    } else {
        match add_symlinks(vs, syms.drop_last(), d) {
            Err(e) => Err(e),
            Ok(v) => symlink_one(v, syms.last(), d),
        }
    }
}

/// A configured directory, as an entry with the given mode.
pub open spec fn dir_view(dm: DirectoryMapping, mode: u32, d: ContentDefaults) -> FileEntryView {
    FileEntryView {
        path: dm.path@,
        source: seq![],
        kind: KindView::Dir,
        size: 0,
        mode,
        user: match dm.user {
            Some(u) => u@,
            None => d.user@,
        },
        group: match dm.group {
            Some(g) => g@,
            None => d.group@,
        },
        is_config: false,
    }
}

/// The refusal of an unreadable mode.
pub open spec fn mode_refusal(m: Seq<char>) -> RefusalView {
    (seq![], seq![], "invalid mode '"@ + m + "': expected octal like '0755'"@)
}

/// Adding one configured directory: its own mode, else the default
/// directory mode, else 0755.
pub open spec fn dir_one(vs: Seq<FileEntryView>, dm: DirectoryMapping, d: ContentDefaults) -> Result<
    Seq<FileEntryView>,
    RefusalView,
> {
    match install_path_problem(dm.path@, "directory path"@) {
        Some(reason) => Err((seq![], dm.path@, reason)),
        None => if has_path(vs, dm.path@) {
            Ok(vs)
        } else {
            match dm.mode {
                Some(m) => match octal_from_str(mode_digits(m@)) {
                    Some(x) => Ok(vs.push(dir_view(dm, x, d))),
                    None => Err(mode_refusal(m@)),
                },
                None => Ok(vs.push(dir_view(dm, default_dir_mode(d), d))),
            }
        },
    }
}

/// Adding the configured directories in order.
pub open spec fn add_dirs(vs: Seq<FileEntryView>, dirs: Seq<DirectoryMapping>, d: ContentDefaults) -> Result<
    Seq<FileEntryView>,
    RefusalView,
>
    decreases dirs.len(),
{
    if dirs.len() == 0 {
        Ok(vs)
    } else {
        match add_dirs(vs, dirs.drop_last(), d) {
            Err(e) => Err(e),
            Ok(v) => dir_one(v, dirs.last(), d),
        }
    }
}

/// `e` is the entry of the configured directory `dm`: a directory at its
/// path, without source, size or config flag, owned by the mapping's user
/// and group where it gives them, and by the defaults otherwise.
pub open spec fn configured_dir_entry(e: FileEntryView, dm: DirectoryMapping, d: ContentDefaults) -> bool {
    &&& e.path == dm.path@
    &&& e.kind == KindView::Dir
    &&& e.source == Seq::<char>::empty()
    &&& e.size == 0
    &&& !e.is_config
    &&& e.user == match dm.user {
        Some(u) => u@,
        None => d.user@,
    }
    &&& e.group == match dm.group {
        Some(g) => g@,
        None => d.group@,
    }
}

/// Adding the configured directories keeps the entries before them, and
/// every entry it adds is the entry of one of the configured directories,
/// with that directory's user and group overrides (the defaults only where
/// the directory gives none).
pub proof fn law_configured_dirs_carry_owner(vs: Seq<FileEntryView>, dirs: Seq<DirectoryMapping>, d: ContentDefaults)
    requires
        add_dirs(vs, dirs, d) is Ok,
    ensures
        ({
            let v = add_dirs(vs, dirs, d)->Ok_0;
            &&& vs.len() <= v.len()
            &&& v.take(vs.len() as int) == vs
            &&& forall|k: int|
                vs.len() <= k < v.len() ==> exists|i: int|
                    0 <= i < dirs.len() && configured_dir_entry(#[trigger] v[k], #[trigger] dirs[i], d)
        }),
    decreases dirs.len(),
{
    if dirs.len() > 0 {
        let dp = dirs.drop_last();
        law_configured_dirs_carry_owner(vs, dp, d);
        let v0 = add_dirs(vs, dp, d)->Ok_0;
        let v = add_dirs(vs, dirs, d)->Ok_0;
        let dm = dirs.last();
        assert(dirs[dirs.len() - 1] == dm);
        assert forall|i: int| 0 <= i < dp.len() implies dp[i] == dirs[i] by {}
        if v.len() == v0.len() {
            assert(v == v0);
        } else {
            assert(v == v0.push(v[v.len() - 1]));
            assert(configured_dir_entry(v[v.len() - 1], dm, d));
        }
        assert(v.take(vs.len() as int) =~= vs) by {
            assert forall|k: int| 0 <= k < vs.len() implies v[k] == v0[k] by {
                if v.len() != v0.len() {
                    assert(v == v0.push(v[v.len() - 1]));
                }
            }
            assert(v0.take(vs.len() as int) == vs);
            assert forall|k: int| 0 <= k < vs.len() implies v[k] == vs[k] by {
                assert(v0.take(vs.len() as int)[k] == v0[k]);
            }
        }
        assert forall|k: int| vs.len() <= k < v.len() implies exists|i: int|
            0 <= i < dirs.len() && configured_dir_entry(#[trigger] v[k], #[trigger] dirs[i], d) by {
            if k < v0.len() {
                assert(v[k] == v0[k]);
                let i = choose|i: int| 0 <= i < dp.len() && configured_dir_entry(#[trigger] v0[k], #[trigger] dp[i], d);
                assert(dirs[i] == dp[i]);
            } else {
                assert(configured_dir_entry(v[k], dirs[dirs.len() - 1], d));
            }
        }
    }
}

/// An implicit parent directory, as an entry.
pub open spec fn implicit_view(p: Seq<char>, d: ContentDefaults) -> FileEntryView {
    FileEntryView {
        path: p,
        source: seq![],
        kind: KindView::Dir,
        size: 0,
        mode: default_dir_mode(d),
        user: d.user@,
        group: d.group@,
        is_config: false,
    }
}

/// The rank of a component kind: root, current directory, parent
/// directory, normal.
pub open spec fn comp_rank(c: Seq<char>) -> int {
    if c == seq!['/'] {
        0
    } else if c == seq!['.'] {
        1
    } else if c == seq!['.', '.'] {
        2
    } else {
        3
    }
}

/// Component order: by kind, normal components by their characters.
pub open spec fn comp_lt(a: Seq<char>, b: Seq<char>) -> bool {
    comp_rank(a) < comp_rank(b) || (comp_rank(a) == comp_rank(b) && a != b && chars_le(a, b))
}

/// Path order (`Path::cmp`): the component sequences compared in turn.
pub open spec fn comps_le(x: Seq<Seq<char>>, y: Seq<Seq<char>>) -> bool
    decreases x.len(),
{
    if x.len() == 0 {
        true
    } else if y.len() == 0 {
        false
    } else if x[0] != y[0] {
        comp_lt(x[0], y[0])
    } else {
        comps_le(x.drop_first(), y.drop_first())
    }
}

/// Entry order: by install path.
pub open spec fn entry_le(a: FileEntryView, b: FileEntryView) -> bool {
    comps_le(path_comps(a.path), path_comps(b.path))
}

/// Inserting into a sorted list after the entries not greater than it.
pub open spec fn insert_entry(s: Seq<FileEntryView>, x: FileEntryView) -> Seq<FileEntryView>
    decreases s.len(),
{
    if s.len() == 0 {
        seq![x]
    } else if entry_le(s.last(), x) {
        s.push(x)
    } else {
        insert_entry(s.drop_last(), x).push(s.last())
    }
}

/// The entries sorted by install path (stable insertion sort).
pub open spec fn sort_entries(s: Seq<FileEntryView>) -> Seq<FileEntryView>
    decreases s.len(),
{
    if s.len() == 0 {
        seq![]
    } else {
        insert_entry(sort_entries(s.drop_last()), s.last())
    }
}

/// What [`FileTree::assemble`] gives for the mapped entries and the
/// content configuration.
pub open spec fn assembled(mapped: Seq<FileEntry>, content: ContentConfig) -> Result<
    Seq<FileEntryView>,
    RefusalView,
> {
    let d = content.defaults;
    match add_symlinks(dedup_first(views_of(mapped)), content.symlinks@, d) {
        Err(e) => Err(e),
        Ok(v1) => match add_dirs(v1, content.directories@, d) {
            Err(e) => Err(e),
            Ok(v2) => Ok(
                sort_entries(
                    v2 + implicit_paths(view_paths(v2)).map_values(|p: Seq<char>| implicit_view(p, d)),
                ),
            ),
        },
    }
}

/// The refusal carried by an error, as plain values.
pub open spec fn refusal_of(e: FileTreeError) -> Option<RefusalView> {
    match e {
        FileTreeError::InvalidMapping { src, dst, reason } => Some((src@, dst@, reason@)),
        _ => None,
    }
}

/// Entries with the components of their paths, kept side by side.
struct Collected {
    entries: Vec<FileEntry>,
    seen: Vec<Vec<Vec<char>>>,
}

impl Collected {
    spec fn wf(&self) -> bool {
        self.seen@.map_values(|c: Vec<Vec<char>>| vviews(c@)) == comps_of(view_paths(views_of(self.entries@)))
    }

    fn has(&self, p: &str) -> (r: (bool, Vec<Vec<char>>))
        requires
            self.wf(),
        ensures
            r.0 == has_path(views_of(self.entries@), p@),
            vviews(r.1@) == path_comps(p@),
    {
        let c = path_comps_exec(p);
        let b = seen_contains(&self.seen, &c);
        (b, c)
    }

    fn add(&mut self, e: FileEntry, c: Vec<Vec<char>>)
        requires
            old(self).wf(),
            vviews(c@) == path_comps(e.install_path@),
        ensures
            final(self).wf(),
            views_of(final(self).entries@) == views_of(old(self).entries@).push(view_of(e)),
    {
        let ghost s0 = self.seen@;
        let ghost e0 = self.entries@;
        self.entries.push(e);
        self.seen.push(c);
        assert(views_of(self.entries@) =~= views_of(e0).push(view_of(e)));
        assert(view_paths(views_of(self.entries@)) =~= view_paths(views_of(e0)).push(e.install_path@));
        assert(comps_of(view_paths(views_of(self.entries@))) =~= comps_of(view_paths(views_of(e0))).push(
            path_comps(e.install_path@),
        ));
        assert(self.seen@.map_values(|c: Vec<Vec<char>>| vviews(c@)) =~= s0.map_values(
            |c: Vec<Vec<char>>| vviews(c@),
        ).push(vviews(c@)));
    }
}

fn collect_mapped(mapped: &Vec<FileEntry>) -> (r: Collected)
    ensures
        r.wf(),
        views_of(r.entries@) == dedup_first(views_of(mapped@)),
{
    let mut col = Collected { entries: Vec::new(), seen: Vec::new() };
    assert(views_of(col.entries@) =~= Seq::<FileEntryView>::empty());
    assert(col.seen@.map_values(|c: Vec<Vec<char>>| vviews(c@)) =~= comps_of(view_paths(views_of(col.entries@))));
    let mut i: usize = 0;
    while i < mapped.len()
        invariant
            i <= mapped.len(),
            col.wf(),
            views_of(col.entries@) == dedup_first(views_of(mapped@.take(i as int))),
        decreases mapped.len() - i,
    {
        let ghost vs = views_of(mapped@.take(i + 1));
        assert(vs.drop_last() =~= views_of(mapped@.take(i as int)));
        assert(vs.last() == view_of(mapped@[i as int]));
        let (b, c) = col.has(mapped[i].install_path.as_str());
        if !b {
            col.add(copy_entry(&mapped[i]), c);
        }
        i += 1;
    }
    assert(mapped@.take(i as int) =~= mapped@);
    col
}

fn refuse(src: String, dst: String, reason: String) -> (e: FileTreeError)
    ensures
        refusal_of(e) == Some((src@, dst@, reason@)),
{
    FileTreeError::InvalidMapping { src, dst, reason }
}

fn add_symlink(col: &mut Collected, sym: &SymlinkMapping, d: &ContentDefaults) -> (r: Result<(), FileTreeError>)
    requires
        old(col).wf(),
    ensures
        final(col).wf(),
        match symlink_one(views_of(old(col).entries@), *sym, *d) {
            Ok(v) => r is Ok && views_of(final(col).entries@) == v,
            Err(e) => r matches Err(x) && refusal_of(x) == Some(e),
        },
{
    if sym.src.as_str().is_empty() {
        return Err(refuse(sym.src.clone(), sym.dst.clone(), lit("symlink target must not be empty")));
    }
    if sym.dst.as_str().is_empty() {
        return Err(
            refuse(sym.src.clone(), sym.dst.clone(), lit("symlink install path must not be empty")),
        );
    }
    match validate_install_path(sym.dst.as_str(), "symlink dst") {
        Err(e) => {
            return Err(e);
        },
        Ok(()) => {},
    }
    let (b, c) = col.has(sym.dst.as_str());
    if !b {
        let e = FileEntry {
            install_path: sym.dst.clone(),
            source_path: String::new(),
            entry_type: EntryType::Symlink { target: sym.src.clone() },
            size: 0,
            mode: 0o120777,
            user: d.user.clone(),
            group: d.group.clone(),
            is_config: false,
        };
        col.add(e, c);
    }
    Ok(())
}

fn add_dir(col: &mut Collected, dm: &DirectoryMapping, d: &ContentDefaults) -> (r: Result<(), FileTreeError>)
    requires
        old(col).wf(),
    ensures
        final(col).wf(),
        match dir_one(views_of(old(col).entries@), *dm, *d) {
            Ok(v) => r is Ok && views_of(final(col).entries@) == v,
            Err(e) => r matches Err(x) && refusal_of(x) == Some(e),
        },
{
    match validate_install_path(dm.path.as_str(), "directory path") {
        Err(e) => {
            return Err(e);
        },
        Ok(()) => {},
    }
    let (b, c) = col.has(dm.path.as_str());
    if !b {
        let mode: u32 = match &dm.mode {
            Some(m) => match parse_mode(m.as_str()) {
                Ok(x) => x,
                Err(e) => {
                    return Err(e);
                },
            },
            None => match &d.dir_mode {
                Some(m) => match parse_mode(m.as_str()) {
                    Ok(x) => x,
                    Err(_) => 0o755,
                },
                None => 0o755,
            },
        };
        let e = FileEntry {
            install_path: dm.path.clone(),
            source_path: String::new(),
            entry_type: EntryType::Directory,
            size: 0,
            mode,
            user: match &dm.user {
                Some(u) => u.clone(),
                None => d.user.clone(),
            },
            group: match &dm.group {
                Some(g) => g.clone(),
                None => d.group.clone(),
            },
            is_config: false,
        };
        col.add(e, c);
    }
    Ok(())
}

/// The rank of a component.
fn comp_rank_exec(c: &Vec<char>) -> (r: u8)
    ensures
        r as int == comp_rank(c@),
{
    if c.len() == 1 && c[0] == '/' {
        assert(c@ =~= seq!['/']);
        0
    } else if c.len() == 1 && c[0] == '.' {
        assert(c@ =~= seq!['.']);
        1
    } else if c.len() == 2 && c[0] == '.' && c[1] == '.' {
        assert(c@ =~= seq!['.', '.']);
        2
    } else {
        assert(c@ != seq!['/'] && c@ != seq!['.'] && c@ != seq!['.', '.']) by {
            if c@ == seq!['/'] || c@ == seq!['.'] {
                assert(c@.len() == 1);
            }
            if c@ == seq!['.', '.'] {
                assert(c@.len() == 2);
            }
        }
        3
    }
}

/// Path order on component lists.
fn comps_le_exec(x: &Vec<Vec<char>>, y: &Vec<Vec<char>>) -> (r: bool)
    ensures
        r == comps_le(vviews(x@), vviews(y@)),
{
    let ghost xv = vviews(x@);
    let ghost yv = vviews(y@);
    let mut i: usize = 0;
    assert(xv.skip(0) =~= xv && yv.skip(0) =~= yv);
    while i < x.len() && i < y.len() && crate::text::chars_eq(&x[i], &y[i])
        invariant
            i <= x.len(),
            i <= y.len(),
            xv == vviews(x@),
            yv == vviews(y@),
            comps_le(xv, yv) == comps_le(xv.skip(i as int), yv.skip(i as int)),
        decreases x.len() - i,
    {
        assert(xv.skip(i as int).drop_first() =~= xv.skip(i + 1));
        assert(yv.skip(i as int).drop_first() =~= yv.skip(i + 1));
        assert(xv.skip(i as int)[0] == yv.skip(i as int)[0]);
        i += 1;
    }
    if i == x.len() {
        true
    } else if i == y.len() {
        false
    } else {
        assert(xv.skip(i as int)[0] == x@[i as int]@);
        assert(yv.skip(i as int)[0] == y@[i as int]@);
        let ra = comp_rank_exec(&x[i]);
        let rb = comp_rank_exec(&y[i]);
        ra < rb || (ra == rb && chars_le_exec(&x[i], &y[i]))
    }
}

/// Where inserting `x` ends up: after the last entry not greater than it.
proof fn lemma_insert_at(s: Seq<FileEntryView>, x: FileEntryView, j: int)
    requires
        0 <= j <= s.len(),
        j == 0 || entry_le(s[j - 1], x),
        forall|k: int| j <= k < s.len() ==> !entry_le(#[trigger] s[k], x),
    ensures
        insert_entry(s, x) == s.insert(j, x),
    decreases s.len(),
{
    if s.len() == 0 {
        assert(s.insert(j, x) =~= seq![x]);
    } else if j == s.len() {
        assert(s.insert(j, x) =~= s.push(x));
    } else {
        assert(!entry_le(s[s.len() - 1], x));
        let t = s.drop_last();
        assert forall|k: int| j <= k < t.len() implies !entry_le(#[trigger] t[k], x) by {
            assert(t[k] == s[k]);
        }
        if j > 0 {
            assert(t[j - 1] == s[j - 1]);
        }
        lemma_insert_at(t, x, j);
        assert(t.insert(j, x).push(s.last()) =~= s.insert(j, x));
    }
}

/// Sort entries by install path (stable).
pub fn sort_by_install_path(entries: Vec<FileEntry>) -> (r: Vec<FileEntry>)
    ensures
        views_of(r@) == sort_entries(views_of(entries@)),
{
    let mut out: Vec<FileEntry> = Vec::new();
    let mut keys: Vec<Vec<Vec<char>>> = Vec::new();
    let mut i: usize = 0;
    assert(views_of(entries@.take(0)) =~= Seq::<FileEntryView>::empty());
    while i < entries.len()
        invariant
            i <= entries.len(),
            keys@.len() == out@.len(),
            forall|k: int|
                0 <= k < out@.len() ==> vviews(#[trigger] keys@[k]@) == path_comps(out@[k].install_path@),
            views_of(out@) == sort_entries(views_of(entries@.take(i as int))),
        decreases entries.len() - i,
    {
        let ghost vs = views_of(entries@.take(i + 1));
        assert(vs.drop_last() =~= views_of(entries@.take(i as int)));
        assert(vs.last() == view_of(entries@[i as int]));
        let x = copy_entry(&entries[i]);
        let xk = path_comps_exec(x.install_path.as_str());
        let ghost so = views_of(out@);
        let mut j: usize = out.len();
        while j > 0 && !comps_le_exec(&keys[j - 1], &xk)
            invariant
                j <= out@.len(),
                keys@.len() == out@.len(),
                so == views_of(out@),
                forall|k: int|
                    0 <= k < out@.len() ==> vviews(#[trigger] keys@[k]@) == path_comps(out@[k].install_path@),
                vviews(xk@) == path_comps(x.install_path@),
                forall|k: int| j <= k < so.len() ==> !entry_le(#[trigger] so[k], view_of(x)),
            decreases j,
        {
            assert(so[j - 1] == view_of(out@[j - 1]));
            j -= 1;
        }
        proof {
            if j > 0 {
                assert(so[j - 1] == view_of(out@[j - 1]));
            }
            lemma_insert_at(so, view_of(x), j as int);
        }
        let ghost out0 = out@;
        let ghost keys0 = keys@;
        out.insert(j, x);
        keys.insert(j, xk);
        proof {
            out0.insert_ensures(j as int, x);
            keys0.insert_ensures(j as int, xk);
            assert(views_of(out@) =~= so.insert(j as int, view_of(x)));
            assert forall|k: int| 0 <= k < out@.len() implies vviews(#[trigger] keys@[k]@) == path_comps(
                out@[k].install_path@,
            ) by {
                if k < j {
                    assert(keys@[k] == keys0[k] && out@[k] == out0[k]);
                } else if k > j {
                    assert(keys@[k] == keys0[k - 1] && out@[k] == out0[k - 1]);
                }
            }
        }
        i += 1;
    }
    assert(entries@.take(i as int) =~= entries@);
    out
}

impl FileTree {
    /// Assemble the entries of a package from the entries the file
    /// mappings produced (in mapping order), then the configured symbolic
    /// links and directories, then the implicit parent directories; the
    /// first entry at a path wins, and the result is sorted by install path.
    pub fn assemble(mapped: &Vec<FileEntry>, content: &ContentConfig) -> (r: Result<Vec<FileEntry>, FileTreeError>)
        ensures
            match assembled(mapped@, *content) {
                Ok(v) => r matches Ok(x) && views_of(x@) == v,
                Err(e) => r matches Err(x) && refusal_of(x) == Some(e),
            },
    {
        let d = &content.defaults;
        let mut col = collect_mapped(mapped);
        let ghost v0 = views_of(col.entries@);
        let mut i: usize = 0;
        while i < content.symlinks.len()
            invariant
                i <= content.symlinks.len(),
                col.wf(),
                d == content.defaults,
                v0 == dedup_first(views_of(mapped@)),
                add_symlinks(v0, content.symlinks@.take(i as int), *d) == Ok::<Seq<FileEntryView>, RefusalView>(
                    views_of(col.entries@),
                ),
            decreases content.symlinks.len() - i,
        {
            assert(content.symlinks@.take(i + 1).drop_last() =~= content.symlinks@.take(i as int));
            let ghost before = views_of(col.entries@);
            assert(add_symlinks(v0, content.symlinks@.take(i + 1), *d) == symlink_one(
                before,
                content.symlinks@[i as int],
                *d,
            ));
            let r = add_symlink(&mut col, &content.symlinks[i], d);
            if let Err(e) = r {
                proof {
                    lemma_add_symlinks_err(v0, content.symlinks@, *d, (i + 1) as int);
                }
                return Err(e);
            }
            i += 1;
        }
        assert(content.symlinks@.take(i as int) =~= content.symlinks@);
        let ghost v1 = views_of(col.entries@);
        let mut i: usize = 0;
        while i < content.directories.len()
            invariant
                i <= content.directories.len(),
                col.wf(),
                d == content.defaults,
                v0 == dedup_first(views_of(mapped@)),
                add_symlinks(v0, content.symlinks@, *d) == Ok::<Seq<FileEntryView>, RefusalView>(v1),
                add_dirs(v1, content.directories@.take(i as int), *d) == Ok::<Seq<FileEntryView>, RefusalView>(
                    views_of(col.entries@),
                ),
            decreases content.directories.len() - i,
        {
            assert(content.directories@.take(i + 1).drop_last() =~= content.directories@.take(i as int));
            let ghost before = views_of(col.entries@);
            assert(add_dirs(v1, content.directories@.take(i + 1), *d) == dir_one(
                before,
                content.directories@[i as int],
                *d,
            ));
            let r = add_dir(&mut col, &content.directories[i], d);
            if let Err(e) = r {
                proof {
                    lemma_add_dirs_err(v1, content.directories@, *d, (i + 1) as int);
                }
                return Err(e);
            }
            i += 1;
        }
        assert(content.directories@.take(i as int) =~= content.directories@);
        let mut entries = col.entries;
        let ghost v2 = views_of(entries@);
        let ghost n2 = entries@.len();
        let ghost old_entries = entries@;
        add_implicit_directories(&mut entries, d);
        proof {
            assert(install_paths(old_entries) =~= view_paths(v2));
            let ghost ip = implicit_paths(view_paths(v2));
            assert(ip == implicit_dirs(old_entries));
            assert(views_of(entries@) =~= v2 + ip.map_values(|p: Seq<char>| implicit_view(p, *d))) by {
                assert forall|i: int| n2 <= i < entries@.len() implies view_of(#[trigger] entries@[i])
                    == implicit_view(ip[i - n2], *d) by {
                    let k = i - n2;
                    assert(is_default_dir(entries@[n2 + k], ip[k], *d));
                    assert(entries@[i].source_path@ =~= Seq::<char>::empty());
                }
                assert(views_of(entries@).len() == (v2 + ip.map_values(|p: Seq<char>| implicit_view(p, *d))).len());
                assert forall|k: int| 0 <= k < n2 implies view_of(#[trigger] entries@[k]) == v2[k] by {
                    assert(entries@.take(n2 as int)[k] == entries@[k]);
                }
            }
        }
        Ok(sort_by_install_path(entries))
    }
}

/// Once adding a symbolic link fails, the whole list fails.
proof fn lemma_add_symlinks_err(
    vs: Seq<FileEntryView>,
    syms: Seq<SymlinkMapping>,
    d: ContentDefaults,
    k: int,
)
    requires
        0 <= k <= syms.len(),
        add_symlinks(vs, syms.take(k), d) is Err,
    ensures
        add_symlinks(vs, syms, d) == add_symlinks(vs, syms.take(k), d),
    decreases syms.len() - k,
{
    if k < syms.len() {
        assert(syms.take(k + 1).drop_last() =~= syms.take(k));
        lemma_add_symlinks_err(vs, syms, d, k + 1);
    } else {
        assert(syms.take(k) =~= syms);
    }
}

/// Once adding a directory fails, the whole list fails.
proof fn lemma_add_dirs_err(vs: Seq<FileEntryView>, dirs: Seq<DirectoryMapping>, d: ContentDefaults, k: int)
    requires
        0 <= k <= dirs.len(),
        add_dirs(vs, dirs.take(k), d) is Err,
    ensures
        add_dirs(vs, dirs, d) == add_dirs(vs, dirs.take(k), d),
    decreases dirs.len() - k,
{
    if k < dirs.len() {
        assert(dirs.take(k + 1).drop_last() =~= dirs.take(k));
        lemma_add_dirs_err(vs, dirs, d, k + 1);
    } else {
        assert(dirs.take(k) =~= dirs);
    }
}

// ---------------------------------------------------------------------------
// Laws of the assembled tree
// ---------------------------------------------------------------------------

proof fn lemma_chars_le_total(a: Seq<char>, b: Seq<char>)
    ensures
        chars_le(a, b) || chars_le(b, a),
    decreases a.len(),
{
    if a.len() > 0 && b.len() > 0 {
        if a[0] == b[0] {
            lemma_chars_le_total(a.drop_first(), b.drop_first());
        } else {
            vstd::utf8::char_u32_cast(a[0], a[0] as u32);
            vstd::utf8::char_u32_cast(b[0], b[0] as u32);
        }
    }
}

proof fn lemma_chars_le_antisym(a: Seq<char>, b: Seq<char>)
    requires
        chars_le(a, b),
        chars_le(b, a),
    ensures
        a == b,
    decreases a.len(),
{
    if a.len() > 0 && b.len() > 0 {
        if a[0] == b[0] {
            lemma_chars_le_antisym(a.drop_first(), b.drop_first());
            assert(a =~= seq![a[0]] + a.drop_first());
            assert(b =~= seq![b[0]] + b.drop_first());
        }
    } else {
        assert(a.len() == 0 && b.len() == 0);
        assert(a =~= b);
    }
}

proof fn lemma_chars_le_trans(a: Seq<char>, b: Seq<char>, c: Seq<char>)
    requires
        chars_le(a, b),
        chars_le(b, c),
    ensures
        chars_le(a, c),
    decreases a.len(),
{
    if a.len() > 0 && b.len() > 0 && c.len() > 0 {
        if a[0] == b[0] && b[0] == c[0] {
            lemma_chars_le_trans(a.drop_first(), b.drop_first(), c.drop_first());
        }
    }
}

proof fn lemma_comp_lt_total(a: Seq<char>, b: Seq<char>)
    requires
        a != b,
    ensures
        comp_lt(a, b) || comp_lt(b, a),
{
    lemma_chars_le_total(a, b);
}

proof fn lemma_comp_lt_trans(a: Seq<char>, b: Seq<char>, c: Seq<char>)
    requires
        comp_lt(a, b),
        comp_lt(b, c),
    ensures
        comp_lt(a, c),
{
    if comp_rank(a) == comp_rank(c) {
        lemma_chars_le_trans(a, b, c);
        if a == c {
            lemma_chars_le_antisym(a, b);
        }
    }
}

proof fn lemma_comp_lt_irrefl(a: Seq<char>, b: Seq<char>)
    requires
        comp_lt(a, b),
    ensures
        !comp_lt(b, a),
{
    if comp_rank(a) == comp_rank(b) && comp_lt(b, a) {
        lemma_chars_le_antisym(a, b);
    }
}

/// Path order is total.
pub proof fn lemma_comps_le_total(x: Seq<Seq<char>>, y: Seq<Seq<char>>)
    ensures
        comps_le(x, y) || comps_le(y, x),
    decreases x.len(),
{
    if x.len() > 0 && y.len() > 0 {
        if x[0] == y[0] {
            lemma_comps_le_total(x.drop_first(), y.drop_first());
        } else {
            lemma_comp_lt_total(x[0], y[0]);
        }
    }
}

/// Path order is transitive.
pub proof fn lemma_comps_le_trans(x: Seq<Seq<char>>, y: Seq<Seq<char>>, z: Seq<Seq<char>>)
    requires
        comps_le(x, y),
        comps_le(y, z),
    ensures
        comps_le(x, z),
    decreases x.len(),
{
    if x.len() > 0 && y.len() > 0 && z.len() > 0 {
        if x[0] == y[0] && y[0] == z[0] {
            lemma_comps_le_trans(x.drop_first(), y.drop_first(), z.drop_first());
        } else if x[0] == y[0] {
        } else if y[0] == z[0] {
        } else {
            lemma_comp_lt_trans(x[0], y[0], z[0]);
            if x[0] == z[0] {
                lemma_comp_lt_irrefl(x[0], y[0]);
            }
        }
    }
}

/// Entries in ascending install-path order.
pub open spec fn sorted_by_path(s: Seq<FileEntryView>) -> bool {
    forall|i: int, j: int| 0 <= i < j < s.len() ==> entry_le(#[trigger] s[i], #[trigger] s[j])
}

/// No two entries at the same path (compared by components).
pub open spec fn distinct_paths(s: Seq<FileEntryView>) -> bool {
    forall|i: int, j: int|
        0 <= i < j < s.len() ==> path_comps(#[trigger] s[i].path) != path_comps(#[trigger] s[j].path)
}

proof fn lemma_insert_entry_shape(s: Seq<FileEntryView>, x: FileEntryView)
    ensures
        exists|j: int| 0 <= j <= s.len() && insert_entry(s, x) == s.insert(j, x),
    decreases s.len(),
{
    if s.len() == 0 {
        assert(insert_entry(s, x) == s.insert(0, x));
    } else if entry_le(s.last(), x) {
        assert(insert_entry(s, x) == s.insert(s.len() as int, x));
    } else {
        lemma_insert_entry_shape(s.drop_last(), x);
        let j = choose|j: int| 0 <= j <= s.drop_last().len() && insert_entry(s.drop_last(), x)
            == s.drop_last().insert(j, x);
        assert(s.drop_last().insert(j, x).push(s.last()) =~= s.insert(j, x));
    }
}

proof fn lemma_insert_entry_sorted(s: Seq<FileEntryView>, x: FileEntryView)
    requires
        sorted_by_path(s),
    ensures
        sorted_by_path(insert_entry(s, x)),
    decreases s.len(),
{
    if s.len() == 0 {
    } else if entry_le(s.last(), x) {
        let r = s.push(x);
        assert forall|i: int, j: int| 0 <= i < j < r.len() implies entry_le(#[trigger] r[i], #[trigger] r[j]) by {
            if j == s.len() {
                if i < s.len() - 1 {
                    assert(entry_le(s[i], s[s.len() - 1]));
                    lemma_comps_le_trans(path_comps(s[i].path), path_comps(s.last().path), path_comps(x.path));
                }
            } else {
                assert(r[i] == s[i] && r[j] == s[j]);
            }
        }
    } else {
        let t = s.drop_last();
        assert(sorted_by_path(t)) by {
            assert forall|i: int, j: int| 0 <= i < j < t.len() implies entry_le(#[trigger] t[i], #[trigger] t[j]) by {
                assert(t[i] == s[i] && t[j] == s[j]);
            }
        }
        lemma_insert_entry_sorted(t, x);
        lemma_insert_entry_shape(t, x);
        let k = choose|k: int| 0 <= k <= t.len() && insert_entry(t, x) == t.insert(k, x);
        let m = insert_entry(t, x);
        let r = m.push(s.last());
        lemma_comps_le_total(path_comps(s.last().path), path_comps(x.path));
        assert(t.insert(k, x).len() == t.len() + 1);
        assert forall|i: int| 0 <= i < m.len() implies entry_le(#[trigger] m[i], s.last()) by {
            t.insert_ensures(k, x);
            if i < k {
                assert(m[i] == t[i]);
                assert(s[i] == t[i]);
            } else if i > k {
                assert(m[i] == t[i - 1]);
                assert(s[i - 1] == t[i - 1]);
            }
        }
        assert forall|i: int, j: int| 0 <= i < j < r.len() implies entry_le(#[trigger] r[i], #[trigger] r[j]) by {
            if j == m.len() {
                assert(r[i] == m[i]);
            } else {
                assert(r[i] == m[i] && r[j] == m[j]);
            }
        }
    }
}

/// An insertion sort keeps the elements: the result is a permutation.
proof fn lemma_sort_entries_perm(s: Seq<FileEntryView>)
    ensures
        sort_entries(s).to_multiset() == s.to_multiset(),
    decreases s.len(),
{
    broadcast use vstd::seq_lib::group_to_multiset_ensures;
    if s.len() > 0 {
        lemma_sort_entries_perm(s.drop_last());
        let t = sort_entries(s.drop_last());
        lemma_insert_entry_shape(t, s.last());
        let j = choose|j: int| 0 <= j <= t.len() && insert_entry(t, s.last()) == t.insert(j, s.last());
        t.insert_ensures(j, s.last());
        assert(t.insert(j, s.last()) =~= t.take(j).push(s.last()) + t.skip(j));
        assert(t =~= t.take(j) + t.skip(j));
        vstd::seq_lib::lemma_multiset_commutative(t.take(j).push(s.last()), t.skip(j));
        vstd::seq_lib::lemma_multiset_commutative(t.take(j), t.skip(j));
        assert(s =~= s.drop_last().push(s.last()));
    }
}

/// The assembled entries are sorted by install path.
proof fn lemma_sort_entries_sorted(s: Seq<FileEntryView>)
    ensures
        sorted_by_path(sort_entries(s)),
    decreases s.len(),
{
    if s.len() > 0 {
        lemma_sort_entries_sorted(s.drop_last());
        lemma_insert_entry_sorted(sort_entries(s.drop_last()), s.last());
    }
}

/// The walk's result is ordered by install path.
pub proof fn law_assembled_sorted(mapped: Seq<FileEntry>, content: ContentConfig)
    ensures
        assembled(mapped, content) matches Ok(v) ==> sorted_by_path(v),
{
    let d = content.defaults;
    match add_symlinks(dedup_first(views_of(mapped)), content.symlinks@, d) {
        Err(_) => {},
        Ok(v1) => match add_dirs(v1, content.directories@, d) {
            Err(_) => {},
            Ok(v2) => {
                lemma_sort_entries_sorted(
                    v2 + implicit_paths(view_paths(v2)).map_values(|p: Seq<char>| implicit_view(p, d)),
                );
            },
        },
    }
}

proof fn lemma_has_path(vs: Seq<FileEntryView>, p: Seq<char>)
    ensures
        has_path(vs, p) <==> exists|i: int| 0 <= i < vs.len() && path_comps(#[trigger] vs[i].path) == path_comps(p),
{
    if has_path(vs, p) {
        let i = choose|i: int| 0 <= i < comps_of(view_paths(vs)).len() && comps_of(view_paths(vs))[i] == path_comps(p);
        assert(path_comps(vs[i].path) == comps_of(view_paths(vs))[i]);
    }
    if exists|i: int| 0 <= i < vs.len() && path_comps(#[trigger] vs[i].path) == path_comps(p) {
        let i = choose|i: int| 0 <= i < vs.len() && path_comps(#[trigger] vs[i].path) == path_comps(p);
        assert(comps_of(view_paths(vs))[i] == path_comps(p));
    }
}

proof fn lemma_push_distinct(vs: Seq<FileEntryView>, x: FileEntryView)
    requires
        distinct_paths(vs),
        !has_path(vs, x.path),
    ensures
        distinct_paths(vs.push(x)),
{
    lemma_has_path(vs, x.path);
    let r = vs.push(x);
    assert forall|i: int, j: int| 0 <= i < j < r.len() implies path_comps(#[trigger] r[i].path) != path_comps(
        #[trigger] r[j].path,
    ) by {
        assert(r[i] == vs[i]);
        if j < vs.len() {
            assert(r[j] == vs[j]);
        }
    }
}

proof fn lemma_dedup_distinct(vs: Seq<FileEntryView>)
    ensures
        distinct_paths(dedup_first(vs)),
    decreases vs.len(),
{
    if vs.len() > 0 {
        lemma_dedup_distinct(vs.drop_last());
        let d = dedup_first(vs.drop_last());
        if !has_path(d, vs.last().path) {
            lemma_push_distinct(d, vs.last());
        }
    }
}

proof fn lemma_add_symlinks_distinct(vs: Seq<FileEntryView>, syms: Seq<SymlinkMapping>, d: ContentDefaults)
    requires
        distinct_paths(vs),
    ensures
        add_symlinks(vs, syms, d) matches Ok(v) ==> distinct_paths(v),
    decreases syms.len(),
{
    if syms.len() > 0 {
        lemma_add_symlinks_distinct(vs, syms.drop_last(), d);
        if let Ok(v) = add_symlinks(vs, syms.drop_last(), d) {
            if !has_path(v, syms.last().dst@) {
                lemma_push_distinct(v, symlink_view(syms.last(), d));
            }
        }
    }
}

proof fn lemma_add_dirs_distinct(vs: Seq<FileEntryView>, dirs: Seq<DirectoryMapping>, d: ContentDefaults)
    requires
        distinct_paths(vs),
    ensures
        add_dirs(vs, dirs, d) matches Ok(v) ==> distinct_paths(v),
    decreases dirs.len(),
{
    if dirs.len() > 0 {
        lemma_add_dirs_distinct(vs, dirs.drop_last(), d);
        if let Ok(v) = add_dirs(vs, dirs.drop_last(), d) {
            let dm = dirs.last();
            if !has_path(v, dm.path@) {
                match dm.mode {
                    Some(m) => {
                        if let Some(x) = octal_from_str(mode_digits(m@)) {
                            lemma_push_distinct(v, dir_view(dm, x, d));
                        }
                    },
                    None => {
                        lemma_push_distinct(v, dir_view(dm, default_dir_mode(d), d));
                    },
                }
            }
        }
    }
}

/// Component lists with no repetition.
pub open spec fn distinct_comps(cs: Seq<Seq<Seq<char>>>) -> bool {
    forall|i: int, j: int| 0 <= i < j < cs.len() ==> #[trigger] cs[i] != #[trigger] cs[j]
}

proof fn lemma_missing_parents_fresh(p: Seq<char>, seen: Seq<Seq<Seq<char>>>)
    ensures
        distinct_comps(comps_of(missing_parents(p, seen))),
        forall|k: int|
            0 <= k < missing_parents(p, seen).len() ==> !seen.contains(
                path_comps(#[trigger] missing_parents(p, seen)[k]),
            ),
    decreases p.len(),
{
    match std_parent(p) {
        Some(q) => {
            if q.len() < p.len() && !stops_at(path_comps(q), seen) {
                let s2 = seen.push(path_comps(q));
                lemma_missing_parents_fresh(q, s2);
                let rest = missing_parents(q, s2);
                let r = seq![q] + rest;
                assert(missing_parents(p, seen) == r);
                assert forall|k: int| 0 <= k < r.len() implies !seen.contains(path_comps(#[trigger] r[k])) by {
                    if k > 0 {
                        assert(r[k] == rest[k - 1]);
                        assert(!s2.contains(path_comps(rest[k - 1])));
                        if seen.contains(path_comps(r[k])) {
                            let w = choose|w: int| 0 <= w < seen.len() && seen[w] == path_comps(r[k]);
                            assert(s2[w] == seen[w]);
                        }
                    }
                }
                assert forall|i: int, j: int| 0 <= i < j < comps_of(r).len() implies #[trigger] comps_of(r)[i]
                    != #[trigger] comps_of(r)[j] by {
                    assert(comps_of(r)[j] == path_comps(rest[j - 1]));
                    if i == 0 {
                        assert(!s2.contains(path_comps(rest[j - 1])));
                        assert(s2[seen.len() as int] == path_comps(q));
                    } else {
                        assert(comps_of(r)[i] == path_comps(rest[i - 1]));
                        assert(comps_of(rest)[i - 1] != comps_of(rest)[j - 1]);
                    }
                }
            }
        },
        None => {},
    }
}

proof fn lemma_implicit_fold_fresh(ps: Seq<Seq<char>>, seen0: Seq<Seq<Seq<char>>>)
    ensures
        implicit_fold(ps, seen0).1 == seen0 + comps_of(implicit_fold(ps, seen0).0),
        distinct_comps(comps_of(implicit_fold(ps, seen0).0)),
        forall|k: int|
            0 <= k < implicit_fold(ps, seen0).0.len() ==> !seen0.contains(
                path_comps(#[trigger] implicit_fold(ps, seen0).0[k]),
            ),
    decreases ps.len(),
{
    if ps.len() == 0 {
        assert(seen0 + comps_of(Seq::<Seq<char>>::empty()) =~= seen0);
    } else {
        lemma_implicit_fold_fresh(ps.drop_last(), seen0);
        let (a, s) = implicit_fold(ps.drop_last(), seen0);
        let c = missing_parents(ps.last(), s);
        lemma_missing_parents_fresh(ps.last(), s);
        let r = a + c;
        assert(comps_of(r) =~= comps_of(a) + comps_of(c));
        assert(s + comps_of(c) =~= seen0 + comps_of(r));
        assert forall|k: int| 0 <= k < r.len() implies !seen0.contains(path_comps(#[trigger] r[k])) by {
            if k >= a.len() {
                assert(r[k] == c[k - a.len()]);
                if seen0.contains(path_comps(r[k])) {
                    let w = choose|w: int| 0 <= w < seen0.len() && seen0[w] == path_comps(r[k]);
                    assert(s[w] == seen0[w]);
                }
            } else {
                assert(r[k] == a[k]);
            }
        }
        assert forall|i: int, j: int| 0 <= i < j < comps_of(r).len() implies #[trigger] comps_of(r)[i]
            != #[trigger] comps_of(r)[j] by {
            if j >= a.len() {
                assert(comps_of(r)[j] == path_comps(c[j - a.len()]));
                if i < a.len() {
                    assert(comps_of(r)[i] == path_comps(a[i]));
                    assert(s[seen0.len() + i] == comps_of(a)[i]);
                    assert(!s.contains(path_comps(c[j - a.len()])));
                } else {
                    assert(comps_of(c)[i - a.len()] != comps_of(c)[j - a.len()]);
                }
            } else {
                assert(comps_of(a)[i] != comps_of(a)[j]);
            }
        }
    }
}

proof fn lemma_with_implicit_distinct(v2: Seq<FileEntryView>, d: ContentDefaults)
    requires
        distinct_paths(v2),
    ensures
        distinct_paths(v2 + implicit_paths(view_paths(v2)).map_values(|p: Seq<char>| implicit_view(p, d))),
{
    let ps = view_paths(v2);
    let ip = implicit_paths(ps);
    lemma_implicit_fold_fresh(ps, comps_of(ps));
    let w = ip.map_values(|p: Seq<char>| implicit_view(p, d));
    let r = v2 + w;
    assert forall|i: int, j: int| 0 <= i < j < r.len() implies path_comps(#[trigger] r[i].path) != path_comps(
        #[trigger] r[j].path,
    ) by {
        if j >= v2.len() {
            assert(r[j].path == ip[j - v2.len()]);
            if i < v2.len() {
                assert(r[i] == v2[i]);
                assert(comps_of(ps)[i] == path_comps(v2[i].path));
                assert(!comps_of(ps).contains(path_comps(ip[j - v2.len()])));
            } else {
                assert(r[i].path == ip[i - v2.len()]);
                assert(comps_of(ip)[i - v2.len()] != comps_of(ip)[j - v2.len()]);
            }
        } else {
            assert(r[i] == v2[i] && r[j] == v2[j]);
        }
    }
}

proof fn lemma_sort_entries_distinct(s: Seq<FileEntryView>)
    requires
        distinct_paths(s),
    ensures
        distinct_paths(sort_entries(s)),
    decreases s.len(),
{
    broadcast use vstd::seq_lib::group_to_multiset_ensures;
    if s.len() > 0 {
        let t0 = s.drop_last();
        assert(distinct_paths(t0)) by {
            assert forall|i: int, j: int| 0 <= i < j < t0.len() implies path_comps(#[trigger] t0[i].path)
                != path_comps(#[trigger] t0[j].path) by {
                assert(t0[i] == s[i] && t0[j] == s[j]);
            }
        }
        lemma_sort_entries_distinct(t0);
        lemma_sort_entries_perm(t0);
        let t = sort_entries(t0);
        let x = s.last();
        lemma_insert_entry_shape(t, x);
        let j = choose|j: int| 0 <= j <= t.len() && insert_entry(t, x) == t.insert(j, x);
        t.insert_ensures(j, x);
        let r = t.insert(j, x);
        assert forall|k: int| 0 <= k < t.len() implies path_comps(#[trigger] t[k].path) != path_comps(x.path) by {
            assert(t.contains(t[k]));
            assert(t.to_multiset().count(t[k]) > 0);
            assert(t0.contains(t[k]));
            let w = choose|w: int| 0 <= w < t0.len() && t0[w] == t[k];
            assert(s[w] == t0[w]);
            assert(s[s.len() - 1] == x);
        }
        assert forall|a: int, b: int| 0 <= a < b < r.len() implies path_comps(#[trigger] r[a].path) != path_comps(
            #[trigger] r[b].path,
        ) by {
            if a < j {
                assert(r[a] == t[a]);
                if b < j {
                    assert(r[b] == t[b]);
                } else if b > j {
                    assert(r[b] == t[b - 1]);
                }
            } else if a == j {
                assert(r[b] == t[b - 1]);
            } else {
                assert(r[a] == t[a - 1] && r[b] == t[b - 1]);
            }
        }
    }
}

/// The walk's result holds at most one entry per install path: the first
/// mapping wins over later ones, and configured and implicit entries are
/// only added where no entry is.
pub proof fn law_assembled_distinct(mapped: Seq<FileEntry>, content: ContentConfig)
    ensures
        assembled(mapped, content) matches Ok(v) ==> distinct_paths(v),
{
    let d = content.defaults;
    let v0 = dedup_first(views_of(mapped));
    lemma_dedup_distinct(views_of(mapped));
    lemma_add_symlinks_distinct(v0, content.symlinks@, d);
    match add_symlinks(v0, content.symlinks@, d) {
        Err(_) => {},
        Ok(v1) => {
            lemma_add_dirs_distinct(v1, content.directories@, d);
            match add_dirs(v1, content.directories@, d) {
                Err(_) => {},
                Ok(v2) => {
                    lemma_with_implicit_distinct(v2, d);
                    lemma_sort_entries_distinct(
                        v2 + implicit_paths(view_paths(v2)).map_values(|p: Seq<char>| implicit_view(p, d)),
                    );
                },
            }
        },
    }
}

/// Whether `glob::Pattern::new` accepts `pattern`.
pub uninterp spec fn glob_valid(pattern: Seq<char>) -> bool;

/// Whether the compiled `pattern` matches `path` under the given
/// `glob::MatchOptions` (`glob::Pattern::matches_with`).
pub uninterp spec fn glob_matches(
    pattern: Seq<char>,
    path: Seq<char>,
    case_sensitive: bool,
    literal_separator: bool,
    literal_leading_dot: bool,
) -> bool;

/// `glob::Pattern::new(pattern)`, keeping only whether it succeeded (and
/// its error).
#[verifier::external_body]
fn glob_check(pattern: &str) -> (r: Result<(), glob::PatternError>)
    ensures
        r is Ok <==> glob_valid(pattern@),
{
    match glob::Pattern::new(pattern) {
        Ok(_) => Ok(()),
        Err(e) => Err(e),
    }
}

/// `glob::Pattern::new(pattern)` followed by `matches_with(path, options)`
/// with the given options; `None` where the pattern is not accepted.
#[verifier::external_body]
fn glob_match(
    pattern: &str,
    path: &str,
    case_sensitive: bool,
    literal_separator: bool,
    literal_leading_dot: bool,
) -> (r: Option<bool>)
    ensures
        r is Some <==> glob_valid(pattern@),
        r matches Some(b) ==> b == glob_matches(
            pattern@,
            path@,
            case_sensitive,
            literal_separator,
            literal_leading_dot,
        ),
{
    let options = glob::MatchOptions {
        case_sensitive,
        require_literal_separator: literal_separator,
        require_literal_leading_dot: literal_leading_dot,
    };
    match glob::Pattern::new(pattern) {
        Ok(p) => Some(p.matches_with(path, options)),
        Err(_) => None,
    }
}

/// Whether `e` is the invalid-glob error of `pattern`.
pub open spec fn is_invalid_glob_of(e: FileTreeError, pattern: Seq<char>) -> bool {
    e matches FileTreeError::InvalidGlob { pattern: p, .. } && p@ == pattern
}

/// Check that `pattern` is a glob pattern that `glob` accepts.
pub fn check_glob_pattern(pattern: &str) -> (r: Result<(), FileTreeError>)
    ensures
        r is Ok <==> glob_valid(pattern@),
        r matches Err(e) ==> is_invalid_glob_of(e, pattern@),
{
    match glob_check(pattern) {
        Ok(()) => Ok(()),
        Err(e) => Err(FileTreeError::InvalidGlob { pattern: pattern.to_string(), source: e }),
    }
}

/// The paths of `ws` that a recursive pattern matches: case-sensitively,
/// with `*` crossing `/` and leading dots matched by wildcards.
pub open spec fn glob_filter(pattern: Seq<char>, ws: Seq<Seq<char>>) -> Seq<Seq<char>>
    decreases ws.len(),
{
    if ws.len() == 0 {
        seq![]
    } else {
        let rest = glob_filter(pattern, ws.drop_last());
        if glob_matches(pattern, ws.last(), true, false, false) {
            rest.push(ws.last())
        } else {
            rest
        }
    }
}

/// Keep, in walk order, the walked paths that the recursive glob `pattern`
/// matches; an invalid pattern is `InvalidGlob`.
pub fn filter_glob_matches(pattern: &str, walked: &Vec<String>) -> (r: Result<Vec<String>, FileTreeError>)
    ensures
        r is Ok <==> glob_valid(pattern@),
        r matches Err(e) ==> is_invalid_glob_of(e, pattern@),
        r matches Ok(v) ==> strings_view(v@) == glob_filter(pattern@, strings_view(walked@)),
{
    check_glob_pattern(pattern)?;
    let ghost ws = strings_view(walked@);
    let mut out: Vec<String> = Vec::new();
    let mut i: usize = 0;
    while i < walked.len()
        invariant
            i <= walked.len(),
            glob_valid(pattern@),
            ws == strings_view(walked@),
            strings_view(out@) == glob_filter(pattern@, ws.take(i as int)),
        decreases walked.len() - i,
    {
        let m = glob_match(pattern, walked[i].as_str(), true, false, false);
        assert(ws.take(i + 1).drop_last() =~= ws.take(i as int));
        assert(ws.take(i + 1).last() == walked@[i as int]@);
        if let Some(true) = m {
            out.push(walked[i].clone());
            assert(strings_view(out@) =~= glob_filter(pattern@, ws.take(i as int)).push(walked@[i as int]@));
        }
        i += 1;
    }
    assert(ws.take(walked.len() as int) =~= ws);
    Ok(out)
}

} // verus!
