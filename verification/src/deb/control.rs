//! DEB control file generation.
//!
//! Generates the `control`, `conffiles`, and `md5sums` files that go inside
//! `control.tar.{zst,gz}`. The MD5 digests of the files' contents are read
//! by the caller, one per regular file, and handed in.
use vstd::prelude::*;

use crate::config::{Config, DebOverrides};
use crate::deps::strings_view;
use crate::filetree::{EntryType, FileEntry};
use crate::planner::{PackagePlan, SubPackage};
use crate::text::{decimal, extend_chars, extend_str, join, push_decimal, string_from_chars, str_eq};
use crate::types::{deb_arch_name, push_deb_arch};

verus! {

/// Map architecture strings from spm (RPM-style) to DEB-style.
pub fn deb_arch<'a>(arch: &'a str) -> (r: &'a str)
    ensures
        r@ == deb_arch_name(arch@),
{
    if str_eq(arch, "x86_64") {
        "amd64"
    } else if str_eq(arch, "aarch64") {
        "arm64"
    } else if str_eq(arch, "i686") {
        "i386"
    } else if str_eq(arch, "armv7hl") {
        "armhf"
    } else if str_eq(arch, "noarch") || str_eq(arch, "all") {
        "all"
    } else {
        arch
    }
}

/// Lexicographic order of character sequences by code point (the order of
/// `String`).
pub open spec fn chars_le(a: Seq<char>, b: Seq<char>) -> bool
    decreases a.len(),
{
    if a.len() == 0 {
        true
    } else if b.len() == 0 {
        false
    } else if a[0] != b[0] {
        (a[0] as u32) < (b[0] as u32)
    } else {
        chars_le(a.drop_first(), b.drop_first())
    }
}

/// A control field: key and value.
pub type FieldView = (Seq<char>, Seq<char>);

/// `x` inserted into `s` after every field whose key is not larger.
pub open spec fn insert_field(s: Seq<FieldView>, x: FieldView) -> Seq<FieldView>
    decreases s.len(),
{
    if s.len() == 0 || chars_le(s.last().0, x.0) {
        s.push(x)
    } else {
        insert_field(s.drop_last(), x).push(s.last())
    }
}

/// The fields sorted by key, stably.
pub open spec fn sort_fields(s: Seq<FieldView>) -> Seq<FieldView>
    decreases s.len(),
{
    if s.len() == 0 {
        seq![]
    } else {
        insert_field(sort_fields(s.drop_last()), s.last())
    }
}

/// The views of `(key, value)` string pairs.
pub open spec fn fields_view(v: Seq<(String, String)>) -> Seq<FieldView> {
    v.map_values(|p: (String, String)| (p.0@, p.1@))
}

/// `<key>: <value>` lines.
pub open spec fn field_lines(fs: Seq<FieldView>) -> Seq<Seq<char>> {
    fs.map_values(|f: FieldView| f.0 + ": "@ + f.1)
}

/// A `<prefix><items joined by ", ">` line, or none for no items.
pub open spec fn list_line(prefix: Seq<char>, items: Seq<Seq<char>>) -> Seq<Seq<char>> {
    if items.len() == 0 {
        seq![]
    } else {
        seq![prefix + join(items, ", "@)]
    }
}

/// The section: the DEB override, or `misc`.
pub open spec fn section_of(deb: Option<DebOverrides>) -> Seq<char> {
    match deb {
        Some(d) => match d.section {
            Some(s) => s@,
            None => "misc"@,
        },
        None => "misc"@,
    }
}

/// The priority: the DEB override, or `optional`.
pub open spec fn priority_of(deb: Option<DebOverrides>) -> Seq<char> {
    match deb {
        Some(d) => match d.priority {
            Some(s) => s@,
            None => "optional"@,
        },
        None => "optional"@,
    }
}

/// The extra fields, sorted by key.
pub open spec fn extra_field_lines(deb: Option<DebOverrides>) -> Seq<Seq<char>> {
    match deb {
        Some(d) => field_lines(sort_fields(fields_view(d.fields@))),
        None => seq![],
    }
}

/// The lines of a control file.
pub open spec fn control_lines(
    name: Seq<char>,
    total_size: nat,
    plan: PackagePlan,
    config: Config,
    extra: Seq<Seq<char>>,
) -> Seq<Seq<char>> {
    let deps = config.package.dependencies;
    control_head(name, total_size, plan, config) + list_line("Depends: "@, strings_view(deps.requires@) + strings_view(deps.requires_deb@) + extra)
        + list_line("Conflicts: "@, strings_view(deps.conflicts@)) + list_line(
        "Provides: "@,
        strings_view(deps.provides@),
    ) + list_line("Replaces: "@, strings_view(deps.replaces@)) + match config.package.url {
        Some(u) => seq!["Homepage: "@ + u@],
        None => seq![],
    } + seq!["Description: "@ + config.package.description@] + extra_field_lines(config.deb)
}

/// The text of a control file: its lines, each ending with a newline.
pub open spec fn control_text(
    name: Seq<char>,
    total_size: nat,
    plan: PackagePlan,
    config: Config,
    extra: Seq<Seq<char>>,
) -> Seq<char> {
    join(control_lines(name, total_size, plan, config, extra), "\n"@) + "\n"@
}

pub fn chars_le_exec(a: &Vec<char>, b: &Vec<char>) -> (r: bool)
    ensures
        r == chars_le(a@, b@),
{
    let mut i: usize = 0;
    assert(a@.skip(0) =~= a@ && b@.skip(0) =~= b@);
    while i < a.len() && i < b.len() && a[i] == b[i]
        invariant
            i <= a.len(),
            i <= b.len(),
            forall|k: int| 0 <= k < i ==> a@[k] == b@[k],
            chars_le(a@, b@) == chars_le(a@.skip(i as int), b@.skip(i as int)),
        decreases a.len() - i,
    {
        assert(a@.skip(i as int).drop_first() =~= a@.skip(i + 1));
        assert(b@.skip(i as int).drop_first() =~= b@.skip(i + 1));
        i += 1;
    }
    if i == a.len() {
        assert(a@.skip(i as int).len() == 0);
        true
    } else if i == b.len() {
        false
    } else {
        assert(a@.skip(i as int)[0] == a@[i as int]);
        assert(b@.skip(i as int)[0] == b@[i as int]);
        (a[i] as u32) < (b[i] as u32)
    }
}

proof fn lemma_insert_field_at(s: Seq<FieldView>, x: FieldView, j: int)
    requires
        0 <= j <= s.len(),
        forall|i: int| j <= i < s.len() ==> !chars_le(#[trigger] s[i].0, x.0),
        j == 0 || chars_le(s[j - 1].0, x.0),
    ensures
        insert_field(s, x) == s.take(j).push(x) + s.skip(j),
    decreases s.len(),
{
    if s.len() == j {
        assert(s.skip(j) =~= Seq::<FieldView>::empty());
        assert(s.take(j) =~= s);
        if s.len() > 0 {
            assert(s.last() == s[j - 1]);
        }
    } else {
        assert(s.last() == s[s.len() - 1]);
        let t = s.drop_last();
        assert forall|i: int| j <= i < t.len() implies !chars_le(#[trigger] t[i].0, x.0) by {
            assert(t[i] == s[i]);
        }
        if j > 0 {
            assert(t[j - 1] == s[j - 1]);
        }
        lemma_insert_field_at(t, x, j);
        assert(t.take(j) =~= s.take(j));
        assert(t.skip(j).push(s.last()) =~= s.skip(j));
        assert((t.take(j).push(x) + t.skip(j)).push(s.last()) =~= s.take(j).push(x) + s.skip(j));
    }
}

fn sorted_fields(fields: &Vec<(String, String)>) -> (r: Vec<(Vec<char>, Vec<char>)>)
    ensures
        r@.map_values(|p: (Vec<char>, Vec<char>)| (p.0@, p.1@)) == sort_fields(fields_view(fields@)),
{
    let ghost fv = fields_view(fields@);
    let mut out: Vec<(Vec<char>, Vec<char>)> = Vec::new();
    let mut i: usize = 0;
    while i < fields.len()
        invariant
            i <= fields.len(),
            fv == fields_view(fields@),
            out@.map_values(|p: (Vec<char>, Vec<char>)| (p.0@, p.1@)) == sort_fields(fv.take(i as int)),
        decreases fields.len() - i,
    {
        let ghost ov = out@.map_values(|p: (Vec<char>, Vec<char>)| (p.0@, p.1@));
        assert(fv.take(i + 1).drop_last() =~= fv.take(i as int));
        assert(fv.take(i + 1).last() == (fields@[i as int].0@, fields@[i as int].1@));
        let k = crate::text::chars_of(fields[i].0.as_str());
        let v = crate::text::chars_of(fields[i].1.as_str());
        let mut j: usize = out.len();
        while j > 0 && !chars_le_exec(&out[j - 1].0, &k)
            invariant
                j <= out.len(),
                ov == out@.map_values(|p: (Vec<char>, Vec<char>)| (p.0@, p.1@)),
                forall|q: int| j <= q < out.len() ==> !chars_le(#[trigger] ov[q].0, k@),
            decreases j,
        {
            assert(ov[j - 1] == (out@[j - 1].0@, out@[j - 1].1@));
            j -= 1;
        }
        proof {
            if j > 0 {
                assert(ov[j - 1] == (out@[j - 1].0@, out@[j - 1].1@));
            }
            lemma_insert_field_at(ov, (k@, v@), j as int);
        }
        out.insert(j, (k, v));
        assert(out@.map_values(|p: (Vec<char>, Vec<char>)| (p.0@, p.1@)) =~= ov.take(j as int).push(
            (k@, v@),
        ) + ov.skip(j as int));
        i += 1;
    }
    assert(fv.take(fields.len() as int) =~= fv);
    out
}

/// The lines pushed so far, joined: helper state for building texts line
/// by line.
struct LineBuf {
    text: Vec<char>,
    nonempty: bool,
    lines: Ghost<Seq<Seq<char>>>,
}

impl LineBuf {
    spec fn ok(&self) -> bool {
        &&& self.text@ == join(self.lines@, "\n"@)
        &&& self.nonempty == (self.lines@.len() > 0)
    }

    fn new() -> (r: Self)
        ensures
            r.ok(),
            r.lines@ == Seq::<Seq<char>>::empty(),
    {
        LineBuf { text: Vec::new(), nonempty: false, lines: Ghost(Seq::empty()) }
    }

    fn push_line(&mut self, line: &Vec<char>)
        requires
            old(self).ok(),
        ensures
            final(self).ok(),
            final(self).lines@ == old(self).lines@.push(line@),
    {
        let ghost ls = self.lines@;
        if self.nonempty {
            extend_str(&mut self.text, "\n");
        }
        extend_chars(&mut self.text, line);
        self.nonempty = true;
        self.lines = Ghost(ls.push(line@));
        proof {
            assert(ls.push(line@).drop_last() =~= ls);
            if ls.len() == 0 {
                assert(self.text@ =~= line@);
            }
        }
    }
}

fn labelled(label: &str, value: &str) -> (r: Vec<char>)
    ensures
        r@ == label@ + value@,
{
    let mut v: Vec<char> = Vec::new();
    extend_str(&mut v, label);
    extend_str(&mut v, value);
    v
}

fn joined_list(items: &Vec<Vec<char>>) -> (r: Vec<char>)
    ensures
        r@ == join(crate::text::vviews(items@), ", "@),
{
    let r = crate::text::join_from(items, 0, ", ");
    assert(crate::text::vviews(items@).skip(0) =~= crate::text::vviews(items@));
    r
}

fn push_list_line(buf: &mut LineBuf, prefix: &str, items: &Vec<Vec<char>>)
    requires
        old(buf).ok(),
    ensures
        final(buf).ok(),
        final(buf).lines@ == old(buf).lines@ + list_line(prefix@, crate::text::vviews(items@)),
{
    if items.len() == 0 {
        assert(old(buf).lines@ + list_line(prefix@, crate::text::vviews(items@)) =~= old(buf).lines@);
        return;
    }
    let mut line: Vec<char> = Vec::new();
    extend_str(&mut line, prefix);
    let j = joined_list(items);
    extend_chars(&mut line, &j);
    buf.push_line(&line);
    assert(buf.lines@ =~= old(buf).lines@ + list_line(prefix@, crate::text::vviews(items@)));
}

fn add_strings(out: &mut Vec<Vec<char>>, items: &Vec<String>)
    ensures
        crate::text::vviews(final(out)@) == crate::text::vviews(old(out)@) + strings_view(items@),
{
    let mut i: usize = 0;
    while i < items.len()
        invariant
            i <= items.len(),
            crate::text::vviews(out@) == crate::text::vviews(old(out)@) + strings_view(
                items@.take(i as int),
            ),
        decreases items.len() - i,
    {
        let ghost before = out@;
        out.push(crate::text::chars_of(items[i].as_str()));
        assert(crate::text::vviews(out@) =~= crate::text::vviews(before).push(items@[i as int]@));
        assert(strings_view(items@.take(i + 1)) =~= strings_view(items@.take(i as int)).push(
            items@[i as int]@,
        ));
        i += 1;
    }
    assert(items@.take(items.len() as int) =~= items@);
}

/// The fixed leading lines of a control file.
pub open spec fn control_head(name: Seq<char>, total_size: nat, plan: PackagePlan, config: Config) -> Seq<
    Seq<char>,
> {
    seq![
        "Package: "@ + name,
        "Version: "@ + plan.version@ + "-"@ + plan.release@,
        "Architecture: "@ + deb_arch_name(plan.arch@),
        "Maintainer: "@ + config.package.maintainer@,
        "Installed-Size: "@ + decimal((total_size + 1023) / 1024),
        "Section: "@ + section_of(config.deb),
        "Priority: "@ + priority_of(config.deb),
    ]
}

#[verifier::spinoff_prover]
fn control_head_lines(sub_package: &SubPackage, plan: &PackagePlan, config: &Config) -> (buf: LineBuf)
    requires
        sub_package.total_size <= u64::MAX - 1023,
    ensures
        buf.ok(),
        buf.lines@ == control_head(sub_package.name@, sub_package.total_size as nat, *plan, *config),
{
    let mut buf = LineBuf::new();
    buf.push_line(&labelled("Package: ", sub_package.name.as_str()));
    let mut ver = labelled("Version: ", plan.version.as_str());
    extend_str(&mut ver, "-");
    extend_str(&mut ver, plan.release.as_str());
    buf.push_line(&ver);
    let mut arch: Vec<char> = Vec::new();
    extend_str(&mut arch, "Architecture: ");
    push_deb_arch(&mut arch, plan.arch.as_str());
    buf.push_line(&arch);
    buf.push_line(&labelled("Maintainer: ", config.package.maintainer.as_str()));
    let mut size: Vec<char> = Vec::new();
    extend_str(&mut size, "Installed-Size: ");
    push_decimal(&mut size, (sub_package.total_size + 1023) / 1024);
    buf.push_line(&size);
    let section = match &config.deb {
        Some(d) => match &d.section {
            Some(s) => s.as_str(),
            None => "misc",
        },
        None => "misc",
    };
    buf.push_line(&labelled("Section: ", section));
    let priority = match &config.deb {
        Some(d) => match &d.priority {
            Some(s) => s.as_str(),
            None => "optional",
        },
        None => "optional",
    };
    buf.push_line(&labelled("Priority: ", priority));
    proof {
        reveal_strlit("misc");
        reveal_strlit("optional");
    }
    assert(buf.lines@ =~= control_head(sub_package.name@, sub_package.total_size as nat, *plan, *config));
    buf
}

/// Generate the DEB control file content.
///
/// The fields, one per line, are: Package, Version (`version-release`),
/// Architecture (Debian spelling), Maintainer, Installed-Size (KiB, rounded
/// up), Section and Priority (overridable, `misc` and `optional` by
/// default), Depends (common, then DEB-specific, then `extra_depends`),
/// Conflicts, Provides and Replaces when non-empty, Homepage when set,
/// Description, and the extra DEB fields sorted by key.
#[verifier::spinoff_prover]
#[verifier::rlimit(40)]
pub fn generate_control(
    sub_package: &SubPackage,
    plan: &PackagePlan,
    config: &Config,
    extra_depends: &Vec<String>,
) -> (r: String)
    requires
        sub_package.total_size <= u64::MAX - 1023,
        crate::config::deb_fields_distinct(config.deb),
    ensures
        r@ == control_text(
            sub_package.name@,
            sub_package.total_size as nat,
            *plan,
            *config,
            strings_view(extra_depends@),
        ),
{
    let mut buf = control_head_lines(sub_package, plan, config);
    let deps = &config.package.dependencies;
    let mut depends: Vec<Vec<char>> = Vec::new();
    add_strings(&mut depends, &deps.requires);
    add_strings(&mut depends, &deps.requires_deb);
    add_strings(&mut depends, extra_depends);
    push_list_line(&mut buf, "Depends: ", &depends);
    let mut conflicts: Vec<Vec<char>> = Vec::new();
    add_strings(&mut conflicts, &deps.conflicts);
    push_list_line(&mut buf, "Conflicts: ", &conflicts);
    let mut provides: Vec<Vec<char>> = Vec::new();
    add_strings(&mut provides, &deps.provides);
    push_list_line(&mut buf, "Provides: ", &provides);
    let mut replaces: Vec<Vec<char>> = Vec::new();
    add_strings(&mut replaces, &deps.replaces);
    push_list_line(&mut buf, "Replaces: ", &replaces);
    match &config.package.url {
        Some(u) => buf.push_line(&labelled("Homepage: ", u.as_str())),
        None => {},
    }
    buf.push_line(&labelled("Description: ", config.package.description.as_str()));
    match &config.deb {
        Some(d) => {
            let sorted = sorted_fields(&d.fields);
            let ghost sv = sorted@.map_values(|p: (Vec<char>, Vec<char>)| (p.0@, p.1@));
            let ghost base = buf.lines@;
            let mut i: usize = 0;
            while i < sorted.len()
                invariant
                    i <= sorted.len(),
                    buf.ok(),
                    sv == sorted@.map_values(|p: (Vec<char>, Vec<char>)| (p.0@, p.1@)),
                    buf.lines@ == base + field_lines(sv.take(i as int)),
                decreases sorted.len() - i,
            {
                let mut line: Vec<char> = Vec::new();
                extend_chars(&mut line, &sorted[i].0);
                extend_str(&mut line, ": ");
                extend_chars(&mut line, &sorted[i].1);
                buf.push_line(&line);
                assert(field_lines(sv.take(i + 1)) =~= field_lines(sv.take(i as int)).push(line@));
                i += 1;
            }
            assert(sv.take(sorted.len() as int) =~= sv);
        },
        None => {},
    }
    let mut text = buf.text;
    extend_str(&mut text, "\n");
    assert(buf.lines@ =~= control_lines(
        sub_package.name@,
        sub_package.total_size as nat,
        *plan,
        *config,
        strings_view(extra_depends@),
    ));
    string_from_chars(&text)
}

/// The install paths of the regular config files, in order.
pub open spec fn conffile_paths(files: Seq<FileEntry>) -> Seq<Seq<char>>
    decreases files.len(),
{
    if files.len() == 0 {
        seq![]
    } else {
        let f = files.last();
        if f.is_config && f.entry_type is RegularFile {
            conffile_paths(files.drop_last()).push(f.install_path@)
        } else {
            conffile_paths(files.drop_last())
        }
    }
}

/// Generate the conffiles content (one absolute path per line for the
/// regular files marked as config).
///
/// Returns `None` if there are no config files.
pub fn generate_conffiles(files: &Vec<FileEntry>) -> (r: Option<String>)
    ensures
        match r {
            None => conffile_paths(files@).len() == 0,
            Some(s) => conffile_paths(files@).len() > 0 && s@ == join(conffile_paths(files@), "\n"@)
                + "\n"@,
        },
{
    let mut buf = LineBuf::new();
    let mut i: usize = 0;
    while i < files.len()
        invariant
            i <= files.len(),
            buf.ok(),
            buf.lines@ == conffile_paths(files@.take(i as int)),
        decreases files.len() - i,
    {
        assert(files@.take(i + 1).drop_last() =~= files@.take(i as int));
        let f = &files[i];
        let regular = match f.entry_type {
            EntryType::RegularFile => true,
            _ => false,
        };
        if f.is_config && regular {
            buf.push_line(&crate::text::chars_of(f.install_path.as_str()));
        }
        i += 1;
    }
    assert(files@.take(files.len() as int) =~= files@);
    if !buf.nonempty {
        None
    } else {
        let mut text = buf.text;
        extend_str(&mut text, "\n");
        Some(string_from_chars(&text))
    }
}

/// A path without one leading `/`.
pub open spec fn relative_path(p: Seq<char>) -> Seq<char> {
    if p.len() > 0 && p[0] == '/' {
        p.drop_first()
    } else {
        p
    }
}

/// The regular files, in order.
pub open spec fn regular_files(files: Seq<FileEntry>) -> Seq<FileEntry>
    decreases files.len(),
{
    if files.len() == 0 {
        seq![]
    } else if files.last().entry_type is RegularFile {
        regular_files(files.drop_last()).push(files.last())
    } else {
        regular_files(files.drop_last())
    }
}

/// The md5sums lines: `<digest>  <relative path>` per regular file.
pub open spec fn md5sums_lines(regular: Seq<FileEntry>, digests: Seq<Seq<char>>) -> Seq<Seq<char>> {
    Seq::new(
        regular.len(),
        |i: int| digests[i] + "  "@ + relative_path(regular[i].install_path@),
    )
}

/// Compute the md5sums file: one `<hex_md5>  <relative_path>` line per
/// regular file, with the leading `/` of the path stripped, each line
/// ending with a newline (empty without regular files). `digests[i]` is the
/// MD5 hex digest of the contents of the `i`-th regular file.
pub fn generate_md5sums(files: &Vec<FileEntry>, digests: &Vec<String>) -> (r: String)
    requires
        digests@.len() == regular_files(files@).len(),
    ensures
        regular_files(files@).len() == 0 ==> r@.len() == 0,
        regular_files(files@).len() > 0 ==> r@ == join(
            md5sums_lines(regular_files(files@), strings_view(digests@)),
            "\n"@,
        ) + "\n"@,
{
    let ghost dv = strings_view(digests@);
    let mut buf = LineBuf::new();
    let mut k: usize = 0;
    let mut i: usize = 0;
    proof {
        lemma_regular_append(files@.take(0), files@.skip(0));
        assert(files@.take(0) + files@.skip(0) =~= files@);
        assert(md5sums_lines(regular_files(files@.take(0)), dv) =~= Seq::<Seq<char>>::empty());
    }
    while i < files.len()
        invariant
            i <= files.len(),
            buf.ok(),
            dv == strings_view(digests@),
            digests@.len() == regular_files(files@).len(),
            k == regular_files(files@.take(i as int)).len(),
            buf.lines@ == md5sums_lines(regular_files(files@.take(i as int)), dv),
            regular_files(files@) == regular_files(files@.take(i as int)) + regular_files(
                files@.skip(i as int),
            ),
        decreases files.len() - i,
    {
        assert(files@.take(i + 1).drop_last() =~= files@.take(i as int));
        let f = &files[i];
        let regular = match f.entry_type {
            EntryType::RegularFile => true,
            _ => false,
        };
        proof {
            lemma_regular_append(files@.take(i + 1), files@.skip(i + 1));
            assert(files@.take(i + 1) + files@.skip(i + 1) =~= files@);
        }
        if regular {
            assert(regular_files(files@.take(i + 1)) == regular_files(files@.take(i as int)).push(*f));
            assert(k < regular_files(files@).len());
            assert(k < digests.len());
            let p = crate::text::chars_of(f.install_path.as_str());
            let mut line = crate::text::chars_of(digests[k].as_str());
            extend_str(&mut line, "  ");
            if p.len() > 0 && p[0] == '/' {
                let rest = crate::text::sub_chars(&p, 1, p.len());
                assert(rest@ =~= p@.drop_first());
                extend_chars(&mut line, &rest);
            } else {
                extend_chars(&mut line, &p);
            }
            let ghost before = buf.lines@;
            buf.push_line(&line);
            k += 1;
            assert(buf.lines@ =~= md5sums_lines(regular_files(files@.take(i + 1)), dv));
        }
        i += 1;
    }
    assert(files@.take(files.len() as int) =~= files@);
    if !buf.nonempty {
        return String::new();
    }
    let mut text = buf.text;
    extend_str(&mut text, "\n");
    string_from_chars(&text)
}

proof fn lemma_regular_append(a: Seq<FileEntry>, b: Seq<FileEntry>)
    ensures
        regular_files(a + b) == regular_files(a) + regular_files(b),
    decreases b.len(),
{
    if b.len() == 0 {
        assert(a + b =~= a);
        assert(regular_files(a) + regular_files(b) =~= regular_files(a));
    } else {
        lemma_regular_append(a, b.drop_last());
        assert((a + b).drop_last() =~= a + b.drop_last());
        assert((a + b).last() == b.last());
        if b.last().entry_type is RegularFile {
            assert(regular_files(a) + regular_files(b) =~= (regular_files(a) + regular_files(
                b.drop_last(),
            )).push(b.last()));
        }
    }
}

/// The MD5 hex digest of everything `src` yields (a file's contents, for
/// [`generate_md5sums`]); a read error is `DebError::Io`.
pub fn md5_file<R: std::io::Read>(src: &mut R) -> (r: Result<String, crate::deb::DebError>)
    ensures
        r matches Ok(h) ==> crate::hashing::is_lower_hex(h@, 32),
        r matches Err(e) ==> e is Io,
{
    match crate::hashing::md5_hex_of_reader(src) {
        Ok(h) => Ok(h),
        Err(e) => Err(crate::deb::DebError::Io(e)),
    }
}

} // verus!
