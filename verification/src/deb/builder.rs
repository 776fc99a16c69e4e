//! What goes into a DEB package besides the files' bytes.
//!
//! The build streams the data and control tars through the compressor into
//! the ar container; this module decides the compression, the timestamps,
//! the member and entry names, and the members of `control.tar`.
use vstd::prelude::*;

use crate::compress::{algorithm_extension, algorithm_named, Algorithm, CompressError, CompressorConfig};
use crate::config::{configured_epoch, epoch_setting, Config};
use crate::deb::control::{
    conffile_paths, control_text, generate_conffiles, generate_control, generate_md5sums,
    md5sums_lines, regular_files,
};
use crate::deb::DebError;
use crate::deps::strings_view;
use crate::filetree::{EntryType, FileEntry};
use crate::io::{secs_since_epoch, system_now};
use crate::planner::{PackagePlan, SubPackage, SubPackageRole};
use crate::text::{chars_of, extend_chars, extend_str, join, lit, string_from_chars};

verus! {

/// Builds DEB packages from package plans.
pub struct DebBuilder;

// ---------------------------------------------------------------------------
// Compression and time
// ---------------------------------------------------------------------------

/// The configured compression name: the DEB override, else the common one.
pub open spec fn deb_compression_name(config: Config) -> Seq<char> {
    match config.deb {
        Some(d) => match d.compression {
            Some(c) => c@,
            None => config.compression.algorithm@,
        },
        None => config.compression.algorithm@,
    }
}

/// Resolve the compression algorithm, respecting DEB-specific overrides.
pub fn resolve_algorithm(config: &Config) -> (r: Result<Algorithm, DebError>)
    ensures
        match r {
            Ok(a) => algorithm_named(deb_compression_name(*config)) == Some(a),
            Err(DebError::Compress(CompressError::Unsupported(n))) => algorithm_named(
                deb_compression_name(*config),
            ) is None && n@ == deb_compression_name(*config),
            Err(_) => false,
        },
{
    let name: &str = match &config.deb {
        Some(d) => match &d.compression {
            Some(c) => c.as_str(),
            None => config.compression.algorithm.as_str(),
        },
        None => config.compression.algorithm.as_str(),
    };
    match Algorithm::from_str(name) {
        Ok(a) => Ok(a),
        Err(e) => Err(DebError::Compress(e)),
    }
}

/// Build a CompressorConfig from the resolved algorithm and config.
pub fn make_compressor_config(algorithm: &Algorithm, config: &Config) -> (r: CompressorConfig)
    ensures
        r.algorithm == *algorithm,
        r.level == config.compression.level,
        r.threads == match config.compression.threads {
            Some(t) => t,
            None => 0,
        },
{
    CompressorConfig {
        algorithm: *algorithm,
        level: config.compression.level,
        threads: match config.compression.threads {
            Some(t) => t,
            None => 0,
        },
    }
}

/// The suffix of the tar members: `.` and the extension, none uncompressed.
pub open spec fn member_suffix_of(a: Algorithm) -> Seq<char> {
    if a == Algorithm::Uncompressed {
        seq![]
    } else {
        "."@ + algorithm_extension(a)
    }
}

/// The suffix of the tar members (`.zst`, `.gz`, `.xz`, or nothing).
pub fn member_suffix(algorithm: &Algorithm) -> (r: String)
    ensures
        r@ == member_suffix_of(*algorithm),
{
    if *algorithm == Algorithm::Uncompressed {
        String::new()
    } else {
        let mut v: Vec<char> = Vec::new();
        extend_str(&mut v, ".");
        extend_str(&mut v, algorithm.extension());
        string_from_chars(&v)
    }
}

/// Resolve the build timestamp, using `source_date_epoch` for reproducible
/// builds; without one it is the current time of the system clock.
pub fn resolve_mtime(config: &Config) -> (r: u64)
    ensures
        epoch_setting(*config) matches Some(t) ==> r == t,
{
    match configured_epoch(config) {
        Some(t) => t,
        None => secs_since_epoch(&system_now()),
    }
}

// ---------------------------------------------------------------------------
// Names inside the archives
// ---------------------------------------------------------------------------

/// A path as the tars hold it: behind `.` when absolute, behind `./` when not.
pub open spec fn dot_path(p: Seq<char>) -> Seq<char> {
    if p.len() > 0 && p[0] == '/' {
        "."@ + p
    } else {
        "./"@ + p
    }
}

/// [`dot_path`] of a string.
pub fn dot_path_exec(p: &str) -> (r: String)
    ensures
        r@ == dot_path(p@),
{
    let c = chars_of(p);
    let mut v: Vec<char> = Vec::new();
    if c.len() > 0 && c[0] == '/' {
        extend_str(&mut v, ".");
    } else {
        extend_str(&mut v, "./");
    }
    extend_chars(&mut v, &c);
    string_from_chars(&v)
}

/// The name of an entry in the data tar: a directory's ends with `/`.
pub open spec fn tar_entry_name(e: FileEntry) -> Seq<char> {
    let p = dot_path(e.install_path@);
    if e.entry_type is Directory && !(p.len() > 0 && p.last() == '/') {
        p.push('/')
    } else {
        p
    }
}

/// The name of an entry in the data tar.
pub fn tar_entry_path(entry: &FileEntry) -> (r: String)
    ensures
        r@ == tar_entry_name(*entry),
{
    let p = dot_path_exec(entry.install_path.as_str());
    let is_dir = match entry.entry_type {
        EntryType::Directory => true,
        _ => false,
    };
    if is_dir {
        let mut v = chars_of(p.as_str());
        if v.len() > 0 && v[v.len() - 1] == '/' {
            p
        } else {
            v.push('/');
            string_from_chars(&v)
        }
    } else {
        p
    }
}

/// The link target written for a link: a symbolic link's target as it is,
/// a hard link's target as a path in the tar.
pub open spec fn tar_link_name(e: FileEntry) -> Option<Seq<char>> {
    match e.entry_type {
        EntryType::Symlink { target } => Some(target@),
        EntryType::Hardlink { target } => Some(dot_path(target@)),
        _ => None,
    }
}

/// The link target of an entry in the data tar.
pub fn tar_link_target(entry: &FileEntry) -> (r: Option<String>)
    ensures
        match r {
            Some(t) => tar_link_name(*entry) == Some(t@),
            None => tar_link_name(*entry) is None,
        },
{
    match &entry.entry_type {
        EntryType::Symlink { target } => Some(target.clone()),
        EntryType::Hardlink { target } => Some(dot_path_exec(target.as_str())),
        _ => None,
    }
}

// ---------------------------------------------------------------------------
// Meta-package dependencies
// ---------------------------------------------------------------------------

/// `name (= version-release)` for each part, in plan order.
pub open spec fn part_depends(subs: Seq<SubPackage>, plan: PackagePlan) -> Seq<Seq<char>>
    decreases subs.len(),
{
    if subs.len() == 0 {
        seq![]
    } else {
        part_depends(subs.drop_last(), plan) + if subs.last().role is Part {
            seq![subs.last().name@ + " (= "@ + plan.version@ + "-"@ + plan.release@ + ")"@]
        } else {
            seq![]
        }
    }
}

/// The extra `Depends` of a sub-package: a meta-package depends on every
/// part at the plan's exact version.
pub open spec fn extra_depends_of(sub: SubPackage, plan: PackagePlan) -> Seq<Seq<char>> {
    if sub.role == SubPackageRole::Meta {
        part_depends(plan.sub_packages@, plan)
    } else {
        seq![]
    }
}

/// For meta-packages, the `Depends` entries on all parts.
pub fn meta_extra_depends(sub_package: &SubPackage, plan: &PackagePlan) -> (r: Vec<String>)
    ensures
        strings_view(r@) == extra_depends_of(*sub_package, *plan),
{
    let mut out: Vec<String> = Vec::new();
    if sub_package.role == SubPackageRole::Meta {
        let subs = &plan.sub_packages;
        let mut i: usize = 0;
        while i < subs.len()
            invariant
                i <= subs.len(),
                subs == plan.sub_packages,
                strings_view(out@) == part_depends(subs@.take(i as int), *plan),
            decreases subs.len() - i,
        {
            assert(subs@.take(i + 1).drop_last() =~= subs@.take(i as int));
            if let SubPackageRole::Part(_) = subs[i].role {
                let mut v = chars_of(subs[i].name.as_str());
                extend_str(&mut v, " (= ");
                extend_str(&mut v, plan.version.as_str());
                extend_str(&mut v, "-");
                extend_str(&mut v, plan.release.as_str());
                extend_str(&mut v, ")");
                let ghost before = out@;
                out.push(string_from_chars(&v));
                assert(strings_view(out@) =~= strings_view(before).push(v@));
            }
            i += 1;
            assert(strings_view(out@) =~= part_depends(subs@.take(i as int), *plan));
        }
        assert(subs@.take(i as int) =~= subs@);
    }
    proof {
        if sub_package.role != SubPackageRole::Meta {
            assert(strings_view(out@) =~= Seq::<Seq<char>>::empty());
        }
    }
    out
}

// ---------------------------------------------------------------------------
// The control tar
// ---------------------------------------------------------------------------

/// A member of `control.tar`: its name, contents and mode.
pub struct ControlMember {
    pub name: String,
    pub data: String,
    pub mode: u32,
}

/// A member as plain values.
pub open spec fn member_view(m: ControlMember) -> (Seq<char>, Seq<char>, u32) {
    (m.name@, m.data@, m.mode)
}

/// The md5sums file (empty without regular files).
pub open spec fn md5sums_text(files: Seq<FileEntry>, digests: Seq<Seq<char>>) -> Seq<char> {
    if regular_files(files).len() == 0 {
        seq![]
    } else {
        join(md5sums_lines(regular_files(files), digests), "\n"@) + "\n"@
    }
}

/// A maintainer script member, when the script is set.
pub open spec fn script_member(name: Seq<char>, s: Option<String>) -> Seq<(Seq<char>, Seq<char>, u32)> {
    match s {
        Some(x) => seq![(name, x@, 0o755u32)],
        None => seq![],
    }
}

/// The members of `control.tar`, in order: `control`; `md5sums` when it is
/// not empty; `conffiles` when there are config files; the maintainer
/// scripts that are set (executable).
pub open spec fn control_members_of(
    sub: SubPackage,
    plan: PackagePlan,
    config: Config,
    extra: Seq<Seq<char>>,
    digests: Seq<Seq<char>>,
) -> Seq<(Seq<char>, Seq<char>, u32)> {
    let files = sub.files@;
    let md5 = md5sums_text(files, digests);
    seq![("./control"@, control_text(sub.name@, sub.total_size as nat, plan, config, extra), 0o644u32)]
        + (if md5.len() > 0 {
        seq![("./md5sums"@, md5, 0o644u32)]
    } else {
        seq![]
    }) + (if conffile_paths(files).len() > 0 {
        seq![("./conffiles"@, join(conffile_paths(files), "\n"@) + "\n"@, 0o644u32)]
    } else {
        seq![]
    }) + script_member("./preinst"@, sub.scripts.pre_install) + script_member(
        "./postinst"@,
        sub.scripts.post_install,
    ) + script_member("./prerm"@, sub.scripts.pre_remove) + script_member(
        "./postrm"@,
        sub.scripts.post_remove,
    )
}

fn push_member(out: &mut Vec<ControlMember>, name: &str, data: String, mode: u32)
    ensures
        final(out)@.map_values(|m: ControlMember| member_view(m)) == old(out)@.map_values(
            |m: ControlMember| member_view(m),
        ).push((name@, data@, mode)),
{
    out.push(ControlMember { name: lit(name), data, mode });
    assert(out@.map_values(|m: ControlMember| member_view(m)) =~= old(out)@.map_values(
        |m: ControlMember| member_view(m),
    ).push((name@, data@, mode)));
}

fn push_script(out: &mut Vec<ControlMember>, name: &str, s: &Option<String>)
    ensures
        final(out)@.map_values(|m: ControlMember| member_view(m)) == old(out)@.map_values(
            |m: ControlMember| member_view(m),
        ) + script_member(name@, *s),
{
    match s {
        Some(x) => push_member(out, name, x.clone(), 0o755),
        None => {},
    }
    assert(out@.map_values(|m: ControlMember| member_view(m)) =~= old(out)@.map_values(
        |m: ControlMember| member_view(m),
    ) + script_member(name@, *s));
}

/// The members of `control.tar`. `md5_digests` holds the MD5 hex digest of
/// each regular file's contents, in order.
pub fn control_members(
    sub_package: &SubPackage,
    plan: &PackagePlan,
    config: &Config,
    extra_depends: &Vec<String>,
    md5_digests: &Vec<String>,
) -> (r: Vec<ControlMember>)
    requires
        sub_package.total_size <= u64::MAX - 1023,
        md5_digests@.len() == regular_files(sub_package.files@).len(),
        crate::config::deb_fields_distinct(config.deb),
    ensures
        r@.map_values(|m: ControlMember| member_view(m)) == control_members_of(
            *sub_package,
            *plan,
            *config,
            strings_view(extra_depends@),
            strings_view(md5_digests@),
        ),
{
    let mut out: Vec<ControlMember> = Vec::new();
    let control = generate_control(sub_package, plan, config, extra_depends);
    push_member(&mut out, "./control", control, 0o644);
    let md5 = generate_md5sums(&sub_package.files, md5_digests);
    let ghost md5v = md5sums_text(sub_package.files@, strings_view(md5_digests@));
    assert(md5@ == md5v);
    if !md5.as_str().is_empty() {
        push_member(&mut out, "./md5sums", md5, 0o644);
    }
    if let Some(c) = generate_conffiles(&sub_package.files) {
        push_member(&mut out, "./conffiles", c, 0o644);
    }
    push_script(&mut out, "./preinst", &sub_package.scripts.pre_install);
    push_script(&mut out, "./postinst", &sub_package.scripts.post_install);
    push_script(&mut out, "./prerm", &sub_package.scripts.pre_remove);
    push_script(&mut out, "./postrm", &sub_package.scripts.post_remove);
    assert(out@.map_values(|m: ControlMember| member_view(m)) =~= control_members_of(
        *sub_package,
        *plan,
        *config,
        strings_view(extra_depends@),
        strings_view(md5_digests@),
    ));
    out
}

// ---------------------------------------------------------------------------
// Laws
// ---------------------------------------------------------------------------

/// A meta-package's control file depends on every part of the plan at
/// exactly the plan's version and release.
pub proof fn law_meta_depends_on_every_part(subs: Seq<SubPackage>, plan: PackagePlan, k: int)
    requires
        0 <= k < subs.len(),
        subs[k].role is Part,
    ensures
        part_depends(subs, plan).contains(
            subs[k].name@ + " (= "@ + plan.version@ + "-"@ + plan.release@ + ")"@,
        ),
    decreases subs.len(),
{
    let x = subs[k].name@ + " (= "@ + plan.version@ + "-"@ + plan.release@ + ")"@;
    if k == subs.len() - 1 {
        let p = part_depends(subs.drop_last(), plan);
        assert(part_depends(subs, plan) == p + seq![x]);
        assert((p + seq![x])[p.len() as int] == x);
    } else {
        assert(subs.drop_last()[k] == subs[k]);
        law_meta_depends_on_every_part(subs.drop_last(), plan, k);
        let p = part_depends(subs.drop_last(), plan);
        let j = choose|j: int| 0 <= j < p.len() && p[j] == x;
        assert(part_depends(subs, plan)[j] == p[j]);
    }
}

// ---------------------------------------------------------------------------
// Laws
// ---------------------------------------------------------------------------

/// No member of `ms` is named `n`.
pub open spec fn none_named(ms: Seq<(Seq<char>, Seq<char>, u32)>, n: Seq<char>) -> bool {
    forall|k: int| 0 <= k < ms.len() ==> (#[trigger] ms[k]).0 != n
}

/// What the members named `n` say: each holds `s`'s text, and one exists
/// exactly when `s` is set.
pub open spec fn carries_script(ms: Seq<(Seq<char>, Seq<char>, u32)>, n: Seq<char>, s: Option<String>) -> bool {
    &&& forall|k: int| 0 <= k < ms.len() && (#[trigger] ms[k]).0 == n ==> s is Some && ms[k].1 == s->0@
    &&& (s is Some <==> exists|k: int| 0 <= k < ms.len() && (#[trigger] ms[k]).0 == n)
}

proof fn lemma_none_named_concat(a: Seq<(Seq<char>, Seq<char>, u32)>, b: Seq<(Seq<char>, Seq<char>, u32)>, n: Seq<char>)
    requires
        none_named(a, n),
        none_named(b, n),
    ensures
        none_named(a + b, n),
{
    assert forall|k: int| 0 <= k < (a + b).len() implies (#[trigger] (a + b)[k]).0 != n by {
        if k < a.len() {
            assert((a + b)[k] == a[k]);
        } else {
            assert((a + b)[k] == b[k - a.len()]);
        }
    }
}

proof fn lemma_carries(a: Seq<(Seq<char>, Seq<char>, u32)>, b: Seq<(Seq<char>, Seq<char>, u32)>, n: Seq<char>, s: Option<String>)
    requires
        none_named(a, n),
        none_named(b, n),
    ensures
        carries_script(a + script_member(n, s) + b, n, s),
{
    let m = script_member(n, s);
    let ms = a + m + b;
    assert forall|k: int| 0 <= k < ms.len() && (#[trigger] ms[k]).0 == n implies s is Some && ms[k].1 == s->0@ by {
        if k < a.len() {
            assert(ms[k] == a[k]);
        } else if k < a.len() + m.len() {
            assert(ms[k] == m[k - a.len()]);
        } else {
            assert(ms[k] == b[k - a.len() - m.len()]);
        }
    }
    if s is Some {
        assert(ms[a.len() as int] == m[0]);
    }
}

proof fn lemma_script_named(n: Seq<char>, s: Option<String>, other: Seq<char>)
    requires
        n != other,
    ensures
        none_named(script_member(n, s), other),
{
}

/// Each maintainer script member of `control.tar` carries the script of the
/// same role: `./preinst` the pre-install script, `./postinst` the
/// post-install one, `./prerm` the pre-remove one and `./postrm` the
/// post-remove one; each such member exists exactly when its script is set.
pub proof fn law_control_scripts_by_role(
    sub: SubPackage,
    plan: PackagePlan,
    config: Config,
    extra: Seq<Seq<char>>,
    digests: Seq<Seq<char>>,
)
    ensures
        ({
            let ms = control_members_of(sub, plan, config, extra, digests);
            &&& carries_script(ms, "./preinst"@, sub.scripts.pre_install)
            &&& carries_script(ms, "./postinst"@, sub.scripts.post_install)
            &&& carries_script(ms, "./prerm"@, sub.scripts.pre_remove)
            &&& carries_script(ms, "./postrm"@, sub.scripts.post_remove)
        }),
{
    reveal_strlit("./preinst");
    reveal_strlit("./postinst");
    reveal_strlit("./prerm");
    reveal_strlit("./postrm");
    reveal_strlit("./control");
    reveal_strlit("./md5sums");
    reveal_strlit("./conffiles");
    let files = sub.files@;
    let md5 = md5sums_text(files, digests);
    let fixed = seq![("./control"@, control_text(sub.name@, sub.total_size as nat, plan, config, extra), 0o644u32)]
        + (if md5.len() > 0 {
        seq![("./md5sums"@, md5, 0o644u32)]
    } else {
        seq![]
    }) + (if conffile_paths(files).len() > 0 {
        seq![("./conffiles"@, join(conffile_paths(files), "\n"@) + "\n"@, 0o644u32)]
    } else {
        seq![]
    });
    let s1 = script_member("./preinst"@, sub.scripts.pre_install);
    let s2 = script_member("./postinst"@, sub.scripts.post_install);
    let s3 = script_member("./prerm"@, sub.scripts.pre_remove);
    let s4 = script_member("./postrm"@, sub.scripts.post_remove);
    let ms = control_members_of(sub, plan, config, extra, digests);
    assert(ms == fixed + s1 + s2 + s3 + s4);
    let names = seq!["./preinst"@, "./postinst"@, "./prerm"@, "./postrm"@];
    assert("./preinst"@.len() == 9 && "./postinst"@.len() == 10 && "./prerm"@.len() == 7
        && "./postrm"@.len() == 8 && "./control"@.len() == 9 && "./md5sums"@.len() == 9
        && "./conffiles"@.len() == 11);
    assert("./preinst"@[2] == 'p' && "./control"@[2] == 'c' && "./md5sums"@[2] == 'm');
    assert forall|q: int| 0 <= q < 4 implies none_named(fixed, #[trigger] names[q]) by {
        assert forall|k: int| 0 <= k < fixed.len() implies (#[trigger] fixed[k]).0 != names[q] by {
            let n = names[q];
            assert(fixed[k].0 == "./control"@ || fixed[k].0 == "./md5sums"@ || fixed[k].0 == "./conffiles"@);
            if fixed[k].0 == names[q] {
                assert(fixed[k].0.len() == n.len());
                assert(fixed[k].0[2] == n[2]);
            }
        }
    }
    assert(none_named(fixed, "./preinst"@) && none_named(fixed, "./postinst"@));
    assert(none_named(fixed, names[2]) && none_named(fixed, names[3]));
    // pre-install
    lemma_script_named("./postinst"@, sub.scripts.post_install, "./preinst"@);
    lemma_script_named("./prerm"@, sub.scripts.pre_remove, "./preinst"@);
    lemma_script_named("./postrm"@, sub.scripts.post_remove, "./preinst"@);
    lemma_none_named_concat(s2, s3, "./preinst"@);
    lemma_none_named_concat(s2 + s3, s4, "./preinst"@);
    lemma_carries(fixed, s2 + s3 + s4, "./preinst"@, sub.scripts.pre_install);
    assert(ms =~= fixed + s1 + (s2 + s3 + s4));
    // post-install
    lemma_script_named("./preinst"@, sub.scripts.pre_install, "./postinst"@);
    lemma_script_named("./prerm"@, sub.scripts.pre_remove, "./postinst"@);
    lemma_script_named("./postrm"@, sub.scripts.post_remove, "./postinst"@);
    lemma_none_named_concat(fixed, s1, "./postinst"@);
    lemma_none_named_concat(s3, s4, "./postinst"@);
    lemma_carries(fixed + s1, s3 + s4, "./postinst"@, sub.scripts.post_install);
    assert(ms =~= (fixed + s1) + s2 + (s3 + s4));
    // pre-remove
    lemma_script_named("./preinst"@, sub.scripts.pre_install, "./prerm"@);
    lemma_script_named("./postinst"@, sub.scripts.post_install, "./prerm"@);
    lemma_script_named("./postrm"@, sub.scripts.post_remove, "./prerm"@);
    lemma_none_named_concat(fixed, s1, "./prerm"@);
    lemma_none_named_concat(fixed + s1, s2, "./prerm"@);
    lemma_carries(fixed + s1 + s2, s4, "./prerm"@, sub.scripts.pre_remove);
    // post-remove
    lemma_script_named("./preinst"@, sub.scripts.pre_install, "./postrm"@);
    lemma_script_named("./postinst"@, sub.scripts.post_install, "./postrm"@);
    lemma_script_named("./prerm"@, sub.scripts.pre_remove, "./postrm"@);
    lemma_none_named_concat(fixed, s1, "./postrm"@);
    lemma_none_named_concat(fixed + s1, s2, "./postrm"@);
    lemma_none_named_concat(fixed + s1 + s2, s3, "./postrm"@);
    assert(none_named(Seq::<(Seq<char>, Seq<char>, u32)>::empty(), "./postrm"@));
    lemma_carries(fixed + s1 + s2 + s3, Seq::<(Seq<char>, Seq<char>, u32)>::empty(), "./postrm"@, sub.scripts.post_remove);
    assert(ms =~= fixed + s1 + s2 + s3 + s4 + Seq::<(Seq<char>, Seq<char>, u32)>::empty());
}

} // verus!
