//! One file mapping of the configuration, turned into package entries.
//!
//! Expanding the source pattern and reading each matched file's metadata
//! is I/O; what the mapping makes of the matches is decided here: where
//! each match is installed, its mode, owner and type, and which regular
//! files are hard links to a file seen before.
use vstd::prelude::*;

use crate::config::{ContentDefaults, FileMapping};
use crate::filetree::{
    install_path_problem, mapping_error, mode_digits, octal_from_str, parse_mode, validate_install_path, EntryType,
    FileEntry, FileEntryView, FileTreeError, KindView, RefusalView, view_of, views_of,
};
use crate::paths::{comps_prefix, comps_prefix_exec, path_comps, path_comps_exec, path_parent, std_parent};
use crate::text::{chars_of, extend_chars, extend_str, join, join_from, lit, str_eq, string_from_chars, vviews};

verus! {

/// What a matched source path is on disk.
pub enum SourceKind {
    /// A regular file.
    File,
    /// A directory.
    Directory,
    /// A symbolic link, with the target it points to.
    Symlink { target: String },
    /// A device, FIFO or socket.
    Special,
}

/// A matched source path with the metadata that the mapping reads.
pub struct SourceFile {
    /// The path on disk.
    pub path: String,
    /// What the path is.
    pub kind: SourceKind,
    /// The mode bits on disk.
    pub mode: u32,
    /// The size in bytes.
    pub size: u64,
    /// The device number.
    pub dev: u64,
    /// The inode number.
    pub ino: u64,
    /// The number of hard links.
    pub nlink: u64,
}

/// A regular file seen before, by device and inode, with the install path
/// it was given.
pub type InodeRec = (u64, u64, Seq<char>);

/// The records of files seen before, as plain values.
pub open spec fn inode_view(v: Seq<(u64, u64, String)>) -> Seq<InodeRec> {
    v.map_values(|r: (u64, u64, String)| (r.0, r.1, r.2@))
}

// ---------------------------------------------------------------------------
// The pattern and the destination
// ---------------------------------------------------------------------------

/// Whether a source pattern holds a glob character.
pub open spec fn has_glob_char(s: Seq<char>) -> bool {
    exists|i: int| 0 <= i < s.len() && (s[i] == '*' || s[i] == '?' || s[i] == '[')
}

/// Whether a source pattern is a glob (holds `*`, `?` or `[`).
pub fn is_glob_pattern(s: &str) -> (r: bool)
    ensures
        r == has_glob_char(s@),
{
    let v = chars_of(s);
    let mut i: usize = 0;
    while i < v.len()
        invariant
            i <= v.len(),
            v@ == s@,
            forall|j: int| 0 <= j < i ==> !(v@[j] == '*' || v@[j] == '?' || v@[j] == '['),
        decreases v.len() - i,
    {
        if v[i] == '*' || v[i] == '?' || v[i] == '[' {
            return true;
        }
        i += 1;
    }
    false
}

/// A path without its trailing slashes.
pub open spec fn trim_end_slashes(s: Seq<char>) -> Seq<char>
    decreases s.len(),
{
    if s.len() > 0 && s.last() == '/' {
        trim_end_slashes(s.drop_last())
    } else {
        s
    }
}

fn trim_end_slashes_exec(s: &str) -> (r: Vec<char>)
    ensures
        r@ == trim_end_slashes(s@),
{
    let v = chars_of(s);
    let mut n: usize = v.len();
    assert(v@.take(n as int) =~= v@);
    while n > 0 && v[n - 1] == '/'
        invariant
            n <= v@.len(),
            v@ == s@,
            trim_end_slashes(v@.take(n as int)) == trim_end_slashes(s@),
        decreases n,
    {
        assert(v@.take(n as int).drop_last() =~= v@.take(n - 1));
        n -= 1;
    }
    let mut r: Vec<char> = Vec::new();
    let mut i: usize = 0;
    while i < n
        invariant
            i <= n <= v@.len(),
            r@ == v@.take(i as int),
        decreases n - i,
    {
        r.push(v[i]);
        i += 1;
        assert(r@ =~= v@.take(i as int));
    }
    r
}

/// Check a mapping's destination: without its trailing slashes it must be
/// an absolute path free of `..` components.
pub fn check_mapping_dst(dst: &str) -> (r: Result<(), FileTreeError>)
    ensures
        match install_path_problem(trim_end_slashes(dst@), "file mapping dst"@) {
            None => r is Ok,
            Some(reason) => mapping_error(r) == Some((Seq::<char>::empty(), trim_end_slashes(dst@), reason)),
        },
{
    let t = string_from_chars(&trim_end_slashes_exec(dst));
    validate_install_path(t.as_str(), "file mapping dst")
}

/// Whether a path ends with `/`.
pub open spec fn ends_with_slash(s: Seq<char>) -> bool {
    s.len() > 0 && s.last() == '/'
}

/// A plain directory source is mapped as everything below it, into the
/// destination taken as a directory: the pattern without its trailing
/// slashes followed by `/**`, and the destination ending with `/`.
pub open spec fn dir_mapping_of(pattern: Seq<char>, dst: Seq<char>) -> (Seq<char>, Seq<char>) {
    (
        trim_end_slashes(pattern) + "/**"@,
        if ends_with_slash(dst) {
            dst
        } else {
            dst + "/"@
        },
    )
}

/// The pattern and destination of a mapping whose source is a plain
/// directory (see [`dir_mapping_of`]).
pub fn dir_mapping(pattern: &str, dst: &str) -> (r: (String, String))
    ensures
        (r.0@, r.1@) == dir_mapping_of(pattern@, dst@),
{
    let mut p = trim_end_slashes_exec(pattern);
    extend_str(&mut p, "/**");
    let d = chars_of(dst);
    let mut dv: Vec<char> = Vec::new();
    extend_chars(&mut dv, &d);
    if !(d.len() > 0 && d[d.len() - 1] == '/') {
        extend_str(&mut dv, "/");
    }
    (string_from_chars(&p), string_from_chars(&dv))
}

/// The base that install paths of a single, non-glob source are taken
/// relative to: the parent of an absolute source (the root when it has
/// none), else the working directory.
pub open spec fn single_source_base(src: Seq<char>, cwd: Seq<char>) -> Seq<char> {
    if src.len() > 0 && src[0] == '/' {
        match std_parent(src) {
            Some(p) => p,
            None => "/"@,
        }
    } else {
        cwd
    }
}

/// The base of a single, non-glob source (see [`single_source_base`]).
pub fn single_source_base_exec(src: &str, cwd: &str) -> (r: String)
    ensures
        r@ == single_source_base(src@, cwd@),
{
    let v = chars_of(src);
    if v.len() > 0 && v[0] == '/' {
        match path_parent(src) {
            Some(p) => p,
            None => lit("/"),
        }
    } else {
        lit(cwd)
    }
}

// ---------------------------------------------------------------------------
// Install paths, modes and owners
// ---------------------------------------------------------------------------

/// Where a matched source is installed: below a directory destination at
/// its path relative to the base (`Path::strip_prefix`, then `Path::join`),
/// else at the destination itself.
pub open spec fn install_for(source: Seq<char>, dst: Seq<char>, base: Seq<char>) -> Seq<char> {
    if ends_with_slash(dst) {
        let sc = path_comps(source);
        let bc = path_comps(base);
        if comps_prefix(bc, sc) {
            dst + join(sc.skip(bc.len() as int), "/"@)
        } else if source.len() > 0 && source[0] == '/' {
            source
        } else {
            dst + source
        }
    } else {
        dst
    }
}

fn install_for_exec(source: &str, dst: &str, base: &str) -> (r: String)
    ensures
        r@ == install_for(source@, dst@, base@),
{
    let d = chars_of(dst);
    if !(d.len() > 0 && d[d.len() - 1] == '/') {
        return string_from_chars(&d);
    }
    let sc = path_comps_exec(source);
    let bc = path_comps_exec(base);
    let mut out: Vec<char> = Vec::new();
    extend_chars(&mut out, &d);
    if comps_prefix_exec(&bc, &sc) {
        let rel = join_from(&sc, bc.len(), "/");
        extend_chars(&mut out, &rel);
        string_from_chars(&out)
    } else {
        let s = chars_of(source);
        if s.len() > 0 && s[0] == '/' {
            string_from_chars(&s)
        } else {
            extend_chars(&mut out, &s);
            string_from_chars(&out)
        }
    }
}

/// A mode setting, parsed: none where it is not set, the reason where it
/// is not octal.
pub open spec fn parsed_mode(o: Option<String>) -> Result<Option<u32>, Seq<char>> {
    match o {
        None => Ok(None),
        Some(s) => match octal_from_str(mode_digits(s@)) {
            Some(m) => Ok(Some(m)),
            None => Err("invalid mode '"@ + s@ + "': expected octal like '0755'"@),
        },
    }
}

fn parse_mode_opt(o: &Option<String>) -> (r: Result<Option<u32>, FileTreeError>)
    ensures
        match parsed_mode(*o) {
            Ok(m) => r == Ok::<Option<u32>, FileTreeError>(m),
            Err(reason) => mapping_error(
                match r {
                    Ok(_) => Ok(()),
                    Err(e) => Err(e),
                },
            ) == Some((Seq::<char>::empty(), Seq::<char>::empty(), reason)),
        },
{
    match o {
        None => Ok(None),
        Some(s) => match parse_mode(s.as_str()) {
            Ok(m) => Ok(Some(m)),
            Err(e) => Err(e),
        },
    }
}

/// The settings a mapping applies to its matches: the owner, whether the
/// files are configuration files, and the four mode settings.
pub struct MappingCtx {
    pub dst: Seq<char>,
    pub base: Seq<char>,
    pub user: Seq<char>,
    pub group: Seq<char>,
    pub is_config: bool,
    pub file_mode: Option<u32>,
    pub dir_mode: Option<u32>,
    pub default_file: Option<u32>,
    pub default_dir: Option<u32>,
}

/// The first value set, else the fallback.
pub open spec fn first_set(a: Option<u32>, b: Option<u32>, fallback: u32) -> u32 {
    match a {
        Some(x) => x,
        None => match b {
            Some(y) => y,
            None => fallback,
        },
    }
}

/// The mode of a matched directory: the mapping's `dir_mode`, else its
/// `mode`, else the default directory mode, else the permission bits on disk.
pub open spec fn dir_entry_mode(c: MappingCtx, disk: u32) -> u32 {
    match c.dir_mode {
        Some(m) => m,
        None => first_set(c.file_mode, c.default_dir, disk & 0o7777u32),
    }
}

/// The mode of a matched file: the mapping's `mode`, else the default file
/// mode, else the permission bits on disk.
pub open spec fn file_entry_mode(c: MappingCtx, disk: u32) -> u32 {
    first_set(c.file_mode, c.default_file, disk & 0o7777u32)
}

/// The install path recorded for a device and inode seen before.
pub open spec fn inode_lookup(seen: Seq<InodeRec>, dev: u64, ino: u64) -> Option<Seq<char>>
    decreases seen.len(),
{
    if seen.len() == 0 {
        None
    } else if seen[0].0 == dev && seen[0].1 == ino {
        Some(seen[0].2)
    } else {
        inode_lookup(seen.drop_first(), dev, ino)
    }
}

/// The reason a device, FIFO or socket is refused.
pub open spec fn special_reason() -> Seq<char> {
    "special files (devices, FIFOs, sockets) are not supported"@
}

/// The entry of one matched source, with the records of files seen so far
/// after it: a symbolic link keeps its target; a directory and a file take
/// their modes as above; a file with several links whose device and inode
/// were seen before becomes a hard link to the path first seen, with size
/// 0, and a first sighting is recorded. Devices, FIFOs and sockets are
/// refused.
pub open spec fn source_entry(s: SourceFile, c: MappingCtx, seen: Seq<InodeRec>) -> Result<
    (FileEntryView, Seq<InodeRec>),
    RefusalView,
> {
    let install = install_for(s.path@, c.dst, c.base);
    match s.kind {
        SourceKind::Symlink { target } => Ok(
            (
                FileEntryView {
                    path: install,
                    source: s.path@,
                    kind: KindView::Sym(target@),
                    size: 0,
                    mode: 0o120777,
                    user: c.user,
                    group: c.group,
                    is_config: c.is_config,
                },
                seen,
            ),
        ),
        SourceKind::Directory => Ok(
            (
                FileEntryView {
                    path: install,
                    source: s.path@,
                    kind: KindView::Dir,
                    size: 0,
                    mode: dir_entry_mode(c, s.mode),
                    user: c.user,
                    group: c.group,
                    is_config: false,
                },
                seen,
            ),
        ),
        SourceKind::File => {
            let prior = if s.nlink > 1 {
                inode_lookup(seen, s.dev, s.ino)
            } else {
                None
            };
            let seen2 = if s.nlink > 1 && prior is None {
                seen.push((s.dev, s.ino, install))
            } else {
                seen
            };
            Ok(
                (
                    FileEntryView {
                        path: install,
                        source: s.path@,
                        kind: match prior {
                            Some(t) => KindView::Hard(t),
                            None => KindView::Regular,
                        },
                        size: if prior is Some {
                            0
                        } else {
                            s.size
                        },
                        mode: file_entry_mode(c, s.mode),
                        user: c.user,
                        group: c.group,
                        is_config: c.is_config,
                    },
                    seen2,
                ),
            )
        },
        SourceKind::Special => Err((s.path@, install, special_reason())),
    }
}

/// The entries of the sources, in order, with the records of files seen
/// after them; the first refusal stops.
pub open spec fn source_entries(ss: Seq<SourceFile>, c: MappingCtx, seen: Seq<InodeRec>) -> Result<
    (Seq<FileEntryView>, Seq<InodeRec>),
    RefusalView,
>
    decreases ss.len(),
{
    if ss.len() == 0 {
        Ok((seq![], seen))
    } else {
        match source_entries(ss.drop_last(), c, seen) {
            Err(e) => Err(e),
            Ok((es, s2)) => match source_entry(ss.last(), c, s2) {
                Err(e) => Err(e),
                Ok((e, s3)) => Ok((es.push(e), s3)),
            },
        }
    }
}

/// Why a mapping fails: its pattern matched nothing, or it is refused.
pub enum MappingFailure {
    NoMatches(Seq<char>),
    Refused(RefusalView),
}

/// A mapping failure, as plain values.
pub open spec fn failure_of(e: FileTreeError) -> Option<MappingFailure> {
    match e {
        FileTreeError::NoMatches { pattern } => Some(MappingFailure::NoMatches(pattern@)),
        FileTreeError::InvalidMapping { src, dst, reason } => Some(MappingFailure::Refused((src@, dst@, reason@))),
        _ => None,
    }
}

/// The owner settings of a mapping: its own, else the defaults.
pub open spec fn or_default(o: Option<String>, d: String) -> Seq<char> {
    match o {
        Some(u) => u@,
        None => d@,
    }
}

/// Whether a mapping marks its files as configuration files.
pub open spec fn marks_config(m: FileMapping) -> bool {
    m.file_type matches Some(t) && t@ == "config"@
}

/// What a mapping makes of its matches. `matched` is the number of paths
/// its pattern matched and `sources` the first of them, with their
/// metadata. A pattern that matched nothing fails; a glob that matched
/// several paths needs a directory destination; then the mode settings
/// are parsed (the mapping's `mode` and `dir_mode`, the default file and
/// directory modes), and each source becomes an entry.
pub open spec fn mapping_outcome(
    m: FileMapping,
    d: ContentDefaults,
    dst: Seq<char>,
    is_glob: bool,
    base: Seq<char>,
    matched: nat,
    sources: Seq<SourceFile>,
    seen: Seq<InodeRec>,
) -> Result<(Seq<FileEntryView>, Seq<InodeRec>), MappingFailure> {
    if matched == 0 {
        Err(MappingFailure::NoMatches(m.src@))
    } else if matched > 1 && !ends_with_slash(dst) && is_glob {
        Err(MappingFailure::Refused((m.src@, dst, "glob matches multiple files but dst does not end with '/'"@)))
    } else {
        match (parsed_mode(m.mode), parsed_mode(m.dir_mode), parsed_mode(d.file_mode), parsed_mode(d.dir_mode)) {
            (Err(r), _, _, _) => Err(MappingFailure::Refused((seq![], seq![], r))),
            (Ok(_), Err(r), _, _) => Err(MappingFailure::Refused((seq![], seq![], r))),
            (Ok(_), Ok(_), Err(r), _) => Err(MappingFailure::Refused((seq![], seq![], r))),
            (Ok(_), Ok(_), Ok(_), Err(r)) => Err(MappingFailure::Refused((seq![], seq![], r))),
            (Ok(fm), Ok(dm), Ok(df), Ok(dd)) => {
                let c = MappingCtx {
                    dst,
                    base,
                    user: or_default(m.user, d.user),
                    group: or_default(m.group, d.group),
                    is_config: marks_config(m),
                    file_mode: fm,
                    dir_mode: dm,
                    default_file: df,
                    default_dir: dd,
                };
                match source_entries(sources, c, seen) {
                    Ok(x) => Ok(x),
                    Err(r) => Err(MappingFailure::Refused(r)),
                }
            },
        }
    }
}

/// A refusal of a prefix of the sources is the refusal of them all.
proof fn lemma_prefix_refusal(ss: Seq<SourceFile>, c: MappingCtx, seen: Seq<InodeRec>, k: int)
    requires
        0 <= k <= ss.len(),
        source_entries(ss.take(k), c, seen) is Err,
    ensures
        source_entries(ss, c, seen) == source_entries(ss.take(k), c, seen),
    decreases ss.len() - k,
{
    if k < ss.len() {
        assert(ss.take(k + 1).drop_last() =~= ss.take(k));
        lemma_prefix_refusal(ss, c, seen, k + 1);
    } else {
        assert(ss.take(k) =~= ss);
    }
}

fn lookup_inode(inodes: &Vec<(u64, u64, String)>, dev: u64, ino: u64) -> (r: Option<String>)
    ensures
        match inode_lookup(inode_view(inodes@), dev, ino) {
            Some(t) => r matches Some(x) && x@ == t,
            None => r is None,
        },
{
    let ghost v = inode_view(inodes@);
    let mut i: usize = 0;
    assert(v.skip(0) =~= v);
    while i < inodes.len()
        invariant
            i <= inodes.len(),
            v == inode_view(inodes@),
            inode_lookup(v, dev, ino) == inode_lookup(v.skip(i as int), dev, ino),
        decreases inodes.len() - i,
    {
        assert(v.skip(i as int)[0] == v[i as int]);
        if inodes[i].0 == dev && inodes[i].1 == ino {
            return Some(inodes[i].2.clone());
        }
        assert(v.skip(i as int).drop_first() =~= v.skip(i + 1));
        i += 1;
    }
    assert(v.skip(i as int).len() == 0);
    None
}

fn copy_opt(o: &Option<String>, d: &String) -> (r: String)
    ensures
        r@ == or_default(*o, *d),
{
    match o {
        Some(u) => u.clone(),
        None => d.clone(),
    }
}

fn pick(a: Option<u32>, b: Option<u32>, fallback: u32) -> (r: u32)
    ensures
        r == first_set(a, b, fallback),
{
    match a {
        Some(x) => x,
        None => match b {
            Some(y) => y,
            None => fallback,
        },
    }
}

/// Turn a mapping's matches into entries (see [`mapping_outcome`]);
/// `inodes` records the regular files with several links seen so far,
/// across mappings.
pub fn mapping_entries(
    mapping: &FileMapping,
    defaults: &ContentDefaults,
    dst: &str,
    is_glob: bool,
    glob_base: &str,
    matched: usize,
    sources: &Vec<SourceFile>,
    inodes: &mut Vec<(u64, u64, String)>,
) -> (r: Result<Vec<FileEntry>, FileTreeError>)
    requires
        sources@.len() <= matched,
    ensures
        match mapping_outcome(
            *mapping,
            *defaults,
            dst@,
            is_glob,
            glob_base@,
            matched as nat,
            sources@,
            inode_view(old(inodes)@),
        ) {
            Ok((es, seen)) => r matches Ok(v) && views_of(v@) == es && inode_view(final(inodes)@) == seen,
            Err(f) => r matches Err(e) && failure_of(e) == Some(f),
        },
{
    if matched == 0 {
        return Err(FileTreeError::NoMatches { pattern: mapping.src.clone() });
    }
    let dv = chars_of(dst);
    let dst_is_dir = dv.len() > 0 && dv[dv.len() - 1] == '/';
    if matched > 1 && !dst_is_dir && is_glob {
        return Err(
            FileTreeError::InvalidMapping {
                src: mapping.src.clone(),
                dst: lit(dst),
                reason: lit("glob matches multiple files but dst does not end with '/'"),
            },
        );
    }
    let fm = match parse_mode_opt(&mapping.mode) {
        Ok(m) => m,
        Err(e) => {
            return Err(e);
        },
    };
    let dm = match parse_mode_opt(&mapping.dir_mode) {
        Ok(m) => m,
        Err(e) => {
            return Err(e);
        },
    };
    let df = match parse_mode_opt(&defaults.file_mode) {
        Ok(m) => m,
        Err(e) => {
            return Err(e);
        },
    };
    let dd = match parse_mode_opt(&defaults.dir_mode) {
        Ok(m) => m,
        Err(e) => {
            return Err(e);
        },
    };
    let is_config = match &mapping.file_type {
        Some(t) => str_eq(t.as_str(), "config"),
        None => false,
    };
    let user = copy_opt(&mapping.user, &defaults.user);
    let group = copy_opt(&mapping.group, &defaults.group);
    let ghost c = MappingCtx {
        dst: dst@,
        base: glob_base@,
        user: user@,
        group: group@,
        is_config,
        file_mode: fm,
        dir_mode: dm,
        default_file: df,
        default_dir: dd,
    };
    let ghost seen0 = inode_view(inodes@);
    let mut out: Vec<FileEntry> = Vec::new();
    let mut i: usize = 0;
    assert(sources@.take(0) =~= Seq::<SourceFile>::empty());
    assert(views_of(out@) =~= Seq::<FileEntryView>::empty());
    while i < sources.len()
        invariant
            i <= sources.len(),
            user@ == c.user,
            group@ == c.group,
            is_config == c.is_config,
            fm == c.file_mode,
            dm == c.dir_mode,
            df == c.default_file,
            dd == c.default_dir,
            dst@ == c.dst,
            glob_base@ == c.base,
            c.user == or_default(mapping.user, defaults.user),
            c.group == or_default(mapping.group, defaults.group),
            c.is_config == marks_config(*mapping),
            parsed_mode(mapping.mode) == Ok::<Option<u32>, Seq<char>>(c.file_mode),
            parsed_mode(mapping.dir_mode) == Ok::<Option<u32>, Seq<char>>(c.dir_mode),
            parsed_mode(defaults.file_mode) == Ok::<Option<u32>, Seq<char>>(c.default_file),
            parsed_mode(defaults.dir_mode) == Ok::<Option<u32>, Seq<char>>(c.default_dir),
            matched > 0,
            !(matched > 1 && !ends_with_slash(dst@) && is_glob),
            seen0 == inode_view(old(inodes)@),
            sources@.len() <= matched,
            source_entries(sources@.take(i as int), c, seen0) == Ok::<
                (Seq<FileEntryView>, Seq<InodeRec>),
                RefusalView,
            >((views_of(out@), inode_view(inodes@))),
        decreases sources.len() - i,
    {
        let s = &sources[i];
        assert(sources@.take(i + 1).drop_last() =~= sources@.take(i as int));
        assert(sources@.take(i + 1).last() == *s);
        let ghost seen_before = inode_view(inodes@);
        let install = install_for_exec(s.path.as_str(), dst, glob_base);
        let entry = match &s.kind {
            SourceKind::Symlink { target } => FileEntry {
                install_path: install,
                source_path: s.path.clone(),
                entry_type: EntryType::Symlink { target: target.clone() },
                size: 0,
                mode: 0o120777,
                user: user.clone(),
                group: group.clone(),
                is_config,
            },
            SourceKind::Directory => {
                let mode = match dm {
                    Some(m) => m,
                    None => pick(fm, dd, s.mode & 0o7777),
                };
                FileEntry {
                    install_path: install,
                    source_path: s.path.clone(),
                    entry_type: EntryType::Directory,
                    size: 0,
                    mode,
                    user: user.clone(),
                    group: group.clone(),
                    is_config: false,
                }
            },
            SourceKind::File => {
                let prior = if s.nlink > 1 {
                    lookup_inode(inodes, s.dev, s.ino)
                } else {
                    None
                };
                let (entry_type, size) = match prior {
                    Some(t) => (EntryType::Hardlink { target: t }, 0),
                    None => {
                        if s.nlink > 1 {
                            let ghost before = inodes@;
                            inodes.push((s.dev, s.ino, install.clone()));
                            assert(inode_view(inodes@) =~= inode_view(before).push((s.dev, s.ino, install@)));
                        }
                        (EntryType::RegularFile, s.size)
                    },
                };
                FileEntry {
                    install_path: install,
                    source_path: s.path.clone(),
                    entry_type,
                    size,
                    mode: pick(fm, df, s.mode & 0o7777),
                    user: user.clone(),
                    group: group.clone(),
                    is_config,
                }
            },
            SourceKind::Special => {
                proof {
                    assert(source_entry(*s, c, seen_before) is Err);
                    assert(source_entries(sources@.take(i + 1), c, seen0) == Err::<
                        (Seq<FileEntryView>, Seq<InodeRec>),
                        RefusalView,
                    >((s.path@, install@, special_reason())));
                    lemma_prefix_refusal(sources@, c, seen0, i + 1);
                    assert(source_entries(sources@, c, seen0) is Err);
                }
                return Err(
                    FileTreeError::InvalidMapping {
                        src: s.path.clone(),
                        dst: install,
                        reason: lit("special files (devices, FIFOs, sockets) are not supported"),
                    },
                );
            },
        };
        proof {
            assert(source_entry(*s, c, seen_before) == Ok::<(FileEntryView, Seq<InodeRec>), RefusalView>(
                (view_of(entry), inode_view(inodes@)),
            ));
        }
        let ghost prev = out@;
        out.push(entry);
        assert(views_of(out@) =~= views_of(prev).push(view_of(entry)));
        i += 1;
    }
    assert(sources@.take(sources.len() as int) =~= sources@);
    Ok(out)
}

} // verus!
