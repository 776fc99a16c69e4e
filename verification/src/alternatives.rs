//! `update-alternatives` scriptlets and their injection into the package
//! scripts.
//!
//! The install scriptlet registers every alternative (with its followers)
//! and runs before the user's post-install script; the remove scriptlet
//! deregisters them on full removal only and runs after the user's
//! pre-remove script.
use vstd::prelude::*;

use crate::config::{AlternativeConfig, AlternativeFollower};
use crate::text::{extend_chars, extend_str, join, push_signed_decimal, signed_decimal, string_from_chars};

verus! {

/// Resolved script contents with alternatives scriptlets injected.
#[derive(Debug, Clone)]
pub struct ResolvedScripts {
    pub pre_install: Option<String>,
    pub post_install: Option<String>,
    pub pre_remove: Option<String>,
    pub post_remove: Option<String>,
    /// RPM only.
    pub pre_trans: Option<String>,
    /// RPM only.
    pub post_trans: Option<String>,
}

impl Default for ResolvedScripts {
    fn default() -> (d: Self)
        ensures
            d.pre_install is None,
            d.post_install is None,
            d.pre_remove is None,
            d.post_remove is None,
            d.pre_trans is None,
            d.post_trans is None,
    {
        ResolvedScripts {
            pre_install: None,
            post_install: None,
            pre_remove: None,
            post_remove: None,
            pre_trans: None,
            post_trans: None,
        }
    }
}

/// First line of every generated scriptlet.
pub open spec fn marker_line() -> Seq<char> {
    "# [spm:alternatives] Auto-generated — do not edit"@
}

/// ` \` newline `  --slave <link> <name> <path>`.
pub open spec fn follower_text(f: AlternativeFollower) -> Seq<char> {
    " \\\n  --slave "@ + f.link@ + " "@ + f.name@ + " "@ + f.path@
}

/// The follower clauses of an alternative, in order.
pub open spec fn followers_text(fs: Seq<AlternativeFollower>) -> Seq<char>
    decreases fs.len(),
{
    if fs.len() == 0 {
        seq![]
    } else {
        followers_text(fs.drop_last()) + follower_text(fs.last())
    }
}

/// The `update-alternatives --install` command of one alternative.
pub open spec fn install_command(a: AlternativeConfig) -> Seq<char> {
    "update-alternatives \\\n  --install "@ + a.link@ + " "@ + a.name@ + " "@ + a.path@ + " "@
        + signed_decimal(a.priority as int) + followers_text(a.followers@)
}

/// The `update-alternatives --remove` line of one alternative.
pub open spec fn remove_line(a: AlternativeConfig) -> Seq<char> {
    "  update-alternatives --remove "@ + a.name@ + " "@ + a.path@
}

/// The guard that limits removal to a full uninstall (RPM `0`, DEB `remove`).
pub open spec fn remove_guard() -> Seq<char> {
    "if [ \"$1\" = \"0\" ] || [ \"$1\" = \"remove\" ]; then"@
}

/// The lines of the install scriptlet.
pub open spec fn install_lines(alts: Seq<AlternativeConfig>) -> Seq<Seq<char>> {
    seq![marker_line()] + alts.map_values(|a: AlternativeConfig| install_command(a))
}

/// The lines of the remove scriptlet.
pub open spec fn remove_lines(alts: Seq<AlternativeConfig>) -> Seq<Seq<char>> {
    seq![marker_line(), remove_guard()] + alts.map_values(|a: AlternativeConfig| remove_line(a))
        + seq!["fi"@]
}

/// The install scriptlet: `None` without alternatives.
pub open spec fn install_scriptlet(alts: Seq<AlternativeConfig>) -> Option<Seq<char>> {
    if alts.len() == 0 {
        None
    } else {
        Some(join(install_lines(alts), "\n"@))
    }
}

/// The remove scriptlet: `None` without alternatives.
pub open spec fn remove_scriptlet(alts: Seq<AlternativeConfig>) -> Option<Seq<char>> {
    if alts.len() == 0 {
        None
    } else {
        Some(join(remove_lines(alts), "\n"@))
    }
}

/// The view of an optional string.
pub open spec fn opt_view(o: Option<String>) -> Option<Seq<char>> {
    match o {
        None => None,
        Some(s) => Some(s@),
    }
}

proof fn lemma_join_push(ws: Seq<Seq<char>>, w: Seq<char>, sep: Seq<char>)
    requires
        ws.len() >= 1,
    ensures
        join(ws.push(w), sep) == join(ws, sep) + sep + w,
{
    assert(ws.push(w).drop_last() =~= ws);
}

fn push_command(out: &mut Vec<char>, a: &AlternativeConfig)
    ensures
        final(out)@ == old(out)@ + install_command(*a),
{
    extend_str(out, "update-alternatives \\\n  --install ");
    extend_str(out, a.link.as_str());
    extend_str(out, " ");
    extend_str(out, a.name.as_str());
    extend_str(out, " ");
    extend_str(out, a.path.as_str());
    extend_str(out, " ");
    push_signed_decimal(out, a.priority as i64);
    let ghost base = out@;
    let mut j: usize = 0;
    while j < a.followers.len()
        invariant
            j <= a.followers.len(),
            out@ == base + followers_text(a.followers@.take(j as int)),
        decreases a.followers.len() - j,
    {
        let f = &a.followers[j];
        assert(a.followers@.take(j + 1).drop_last() =~= a.followers@.take(j as int));
        extend_str(out, " \\\n  --slave ");
        extend_str(out, f.link.as_str());
        extend_str(out, " ");
        extend_str(out, f.name.as_str());
        extend_str(out, " ");
        extend_str(out, f.path.as_str());
        assert(out@ =~= base + followers_text(a.followers@.take(j + 1)));
        j += 1;
    }
    assert(a.followers@.take(a.followers.len() as int) =~= a.followers@);
    assert(final(out)@ =~= old(out)@ + install_command(*a));
}

/// Generate the `update-alternatives --install` scriptlet.
///
/// Returns `None` if `alternatives` is empty.
pub fn generate_install_scriptlet(alternatives: &Vec<AlternativeConfig>) -> (r: Option<String>)
    ensures
        opt_view(r) == install_scriptlet(alternatives@),
{
    if alternatives.len() == 0 {
        return None;
    }
    let ghost lines = install_lines(alternatives@);
    let mut out: Vec<char> = Vec::new();
    extend_str(&mut out, "# [spm:alternatives] Auto-generated — do not edit");
    assert(lines.take(1) =~= seq![marker_line()]);
    let mut i: usize = 0;
    while i < alternatives.len()
        invariant
            i <= alternatives.len(),
            lines == install_lines(alternatives@),
            out@ == join(lines.take(i + 1), "\n"@),
        decreases alternatives.len() - i,
    {
        proof {
            lemma_join_push(lines.take(i + 1), lines[i + 1], "\n"@);
            assert(lines.take(i + 1).push(lines[i + 1]) =~= lines.take(i + 2));
        }
        extend_str(&mut out, "\n");
        push_command(&mut out, &alternatives[i]);
        i += 1;
    }
    assert(lines.take(alternatives.len() + 1) =~= lines);
    Some(string_from_chars(&out))
}

/// Generate the `update-alternatives --remove` scriptlet with `$1` guard.
///
/// The guard checks `$1 = "0"` (RPM full removal) or `$1 = "remove"` (DEB
/// removal) to avoid deregistering alternatives during upgrades.
///
/// Returns `None` if `alternatives` is empty.
pub fn generate_remove_scriptlet(alternatives: &Vec<AlternativeConfig>) -> (r: Option<String>)
    ensures
        opt_view(r) == remove_scriptlet(alternatives@),
{
    if alternatives.len() == 0 {
        return None;
    }
    let ghost lines = remove_lines(alternatives@);
    let mut out: Vec<char> = Vec::new();
    extend_str(&mut out, "# [spm:alternatives] Auto-generated — do not edit");
    assert(lines.take(1) =~= seq![marker_line()]);
    proof {
        lemma_join_push(lines.take(1), lines[1], "\n"@);
        assert(lines.take(1).push(lines[1]) =~= lines.take(2));
    }
    extend_str(&mut out, "\n");
    extend_str(&mut out, "if [ \"$1\" = \"0\" ] || [ \"$1\" = \"remove\" ]; then");
    let mut i: usize = 0;
    while i < alternatives.len()
        invariant
            i <= alternatives.len(),
            lines == remove_lines(alternatives@),
            out@ == join(lines.take(i + 2), "\n"@),
        decreases alternatives.len() - i,
    {
        let a = &alternatives[i];
        proof {
            lemma_join_push(lines.take(i + 2), lines[i + 2], "\n"@);
            assert(lines.take(i + 2).push(lines[i + 2]) =~= lines.take(i + 3));
            assert(lines[i + 2] == remove_line(*a));
        }
        extend_str(&mut out, "\n");
        extend_str(&mut out, "  update-alternatives --remove ");
        extend_str(&mut out, a.name.as_str());
        extend_str(&mut out, " ");
        extend_str(&mut out, a.path.as_str());
        i += 1;
    }
    proof {
        let n = alternatives.len() as int;
        lemma_join_push(lines.take(n + 2), lines[n + 2], "\n"@);
        assert(lines.take(n + 2).push(lines[n + 2]) =~= lines);
    }
    extend_str(&mut out, "\n");
    extend_str(&mut out, "fi");
    Some(string_from_chars(&out))
}

/// `a` newline `b`, or whichever of the two is present.
pub open spec fn concat_scripts(a: Option<Seq<char>>, b: Option<Seq<char>>) -> Option<Seq<char>> {
    match (a, b) {
        (Some(x), Some(y)) => Some(x + "\n"@ + y),
        (Some(x), None) => Some(x),
        (None, Some(y)) => Some(y),
        (None, None) => None,
    }
}

fn concat_opt(a: Option<String>, b: Option<String>) -> (r: Option<String>)
    ensures
        opt_view(r) == concat_scripts(opt_view(a), opt_view(b)),
{
    match (a, b) {
        (Some(x), Some(y)) => {
            let mut v: Vec<char> = Vec::new();
            extend_str(&mut v, x.as_str());
            extend_str(&mut v, "\n");
            extend_str(&mut v, y.as_str());
            Some(string_from_chars(&v))
        },
        (Some(x), None) => Some(x),
        (None, Some(y)) => Some(y),
        (None, None) => None,
    }
}

/// Inject the alternatives scriptlets into the user's scripts (their
/// contents, as loaded from the configured files): the install scriptlet
/// goes before the user's post-install script, the remove scriptlet after
/// the user's pre-remove script; the other scripts are kept as they are.
pub fn inject_alternatives(user: ResolvedScripts, alternatives: &Vec<AlternativeConfig>) -> (r:
    ResolvedScripts)
    ensures
        opt_view(r.post_install) == concat_scripts(
            install_scriptlet(alternatives@),
            opt_view(user.post_install),
        ),
        opt_view(r.pre_remove) == concat_scripts(
            opt_view(user.pre_remove),
            remove_scriptlet(alternatives@),
        ),
        r.pre_install == user.pre_install,
        r.post_remove == user.post_remove,
        r.pre_trans == user.pre_trans,
        r.post_trans == user.post_trans,
{
    let alt_install = generate_install_scriptlet(alternatives);
    let alt_remove = generate_remove_scriptlet(alternatives);
    let ResolvedScripts { pre_install, post_install, pre_remove, post_remove, pre_trans, post_trans } =
        user;
    ResolvedScripts {
        pre_install,
        post_install: concat_opt(alt_install, post_install),
        pre_remove: concat_opt(pre_remove, alt_remove),
        post_remove,
        pre_trans,
        post_trans,
    }
}

// ---------------------------------------------------------------------------
// Laws
// ---------------------------------------------------------------------------

/// `t` occurs in `s` at some position.
pub open spec fn occurs_in(t: Seq<char>, s: Seq<char>) -> bool {
    exists|k: int| 0 <= k && k + t.len() <= s.len() && #[trigger] s.subrange(k, k + t.len()) == t
}

proof fn lemma_occurs_concat(t: Seq<char>, a: Seq<char>, b: Seq<char>)
    ensures
        occurs_in(t, a) ==> occurs_in(t, a + b),
        occurs_in(t, b) ==> occurs_in(t, a + b),
{
    if occurs_in(t, a) {
        let k = choose|k: int| 0 <= k && k + t.len() <= a.len() && #[trigger] a.subrange(k, k + t.len()) == t;
        assert((a + b).subrange(k, k + t.len()) =~= a.subrange(k, k + t.len()));
    }
    if occurs_in(t, b) {
        let k = choose|k: int| 0 <= k && k + t.len() <= b.len() && #[trigger] b.subrange(k, k + t.len()) == t;
        assert((a + b).subrange(a.len() + k, a.len() + k + t.len()) =~= b.subrange(k, k + t.len()));
    }
}

proof fn lemma_followers_occur(fs: Seq<AlternativeFollower>, j: int)
    requires
        0 <= j < fs.len(),
    ensures
        occurs_in(" \\\n  --slave "@ + fs[j].link@ + " "@ + fs[j].name@ + " "@ + fs[j].path@, followers_text(fs)),
    decreases fs.len(),
{
    let t = " \\\n  --slave "@ + fs[j].link@ + " "@ + fs[j].name@ + " "@ + fs[j].path@;
    if j == fs.len() - 1 {
        assert(follower_text(fs.last()) == t);
        assert(followers_text(fs).subrange(0, 0) == Seq::<char>::empty());
        assert(occurs_in(t, follower_text(fs.last()))) by {
            let z: int = 0;
            assert(follower_text(fs.last()).subrange(z, z + t.len()) =~= t);
        }
        lemma_occurs_concat(t, followers_text(fs.drop_last()), follower_text(fs.last()));
    } else {
        assert(fs.drop_last()[j] == fs[j]);
        lemma_followers_occur(fs.drop_last(), j);
        lemma_occurs_concat(t, followers_text(fs.drop_last()), follower_text(fs.last()));
    }
}

/// The install scriptlet has one line per alternative after the marker, and
/// the line of every alternative, whatever its position, starts with its
/// `--install <link> <name> <path> <priority>` command and carries a
/// `--slave <link> <name> <path>` clause for each of its followers.
pub proof fn law_install_lines_carry_followers(alts: Seq<AlternativeConfig>)
    ensures
        install_lines(alts).len() == alts.len() + 1,
        install_lines(alts)[0] == marker_line(),
        forall|i: int|
            0 <= i < alts.len() ==> {
                let head = "update-alternatives \\\n  --install "@ + alts[i].link@ + " "@ + alts[i].name@ + " "@
                    + alts[i].path@ + " "@ + signed_decimal(alts[i].priority as int);
                &&& head.len() <= (#[trigger] install_lines(alts)[i + 1]).len()
                &&& install_lines(alts)[i + 1].take(head.len() as int) == head
            },
        forall|i: int, j: int|
            #![trigger install_lines(alts)[i + 1], alts[i].followers@[j]]
            0 <= i < alts.len() && 0 <= j < alts[i].followers@.len() ==> occurs_in(
                " \\\n  --slave "@ + alts[i].followers@[j].link@ + " "@ + alts[i].followers@[j].name@ + " "@
                    + alts[i].followers@[j].path@,
                install_lines(alts)[i + 1],
            ),
{
    assert forall|i: int| 0 <= i < alts.len() implies {
        let head = "update-alternatives \\\n  --install "@ + alts[i].link@ + " "@ + alts[i].name@ + " "@
            + alts[i].path@ + " "@ + signed_decimal(alts[i].priority as int);
        &&& head.len() <= (#[trigger] install_lines(alts)[i + 1]).len()
        &&& install_lines(alts)[i + 1].take(head.len() as int) == head
    } by {
        let head = "update-alternatives \\\n  --install "@ + alts[i].link@ + " "@ + alts[i].name@ + " "@
            + alts[i].path@ + " "@ + signed_decimal(alts[i].priority as int);
        assert(install_lines(alts)[i + 1] == install_command(alts[i]));
        assert(install_command(alts[i]) == head + followers_text(alts[i].followers@));
        assert((head + followers_text(alts[i].followers@)).take(head.len() as int) =~= head);
    }
    assert forall|i: int, j: int|
        #![trigger install_lines(alts)[i + 1], alts[i].followers@[j]]
        0 <= i < alts.len() && 0 <= j < alts[i].followers@.len() implies occurs_in(
            " \\\n  --slave "@ + alts[i].followers@[j].link@ + " "@ + alts[i].followers@[j].name@ + " "@
                + alts[i].followers@[j].path@,
            install_lines(alts)[i + 1],
        ) by {
        let head = "update-alternatives \\\n  --install "@ + alts[i].link@ + " "@ + alts[i].name@ + " "@
            + alts[i].path@ + " "@ + signed_decimal(alts[i].priority as int);
        let t = " \\\n  --slave "@ + alts[i].followers@[j].link@ + " "@ + alts[i].followers@[j].name@ + " "@
            + alts[i].followers@[j].path@;
        assert(install_lines(alts)[i + 1] == install_command(alts[i]));
        assert(install_command(alts[i]) == head + followers_text(alts[i].followers@));
        lemma_followers_occur(alts[i].followers@, j);
        lemma_occurs_concat(t, head, followers_text(alts[i].followers@));
    }
}

} // verus!
