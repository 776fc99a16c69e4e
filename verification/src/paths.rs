//! Unix paths as sequences of components.
//!
//! A path string is read the way `std::path::Path::components` reads it on
//! Unix: a leading `/` is the root component, a leading `.` segment is the
//! current-directory component, and the remaining `/`-separated segments are
//! kept except empty ones and `.`. Two paths are equal, one starts with
//! another, or one is the parent of another exactly when their component
//! sequences are equal, one is a prefix of the other, or one is the other
//! without its last component. The root component is written `"/"` and the
//! current-directory component `"."`; no other component can take either
//! spelling.
use vstd::prelude::*;

use crate::text::{chars_eq, chars_of, vviews};

verus! {

/// The segments of `s` between `/` separators (`"a//b/"` gives `a`, ``, `b`, ``).
pub open spec fn split_slash(s: Seq<char>) -> Seq<Seq<char>>
    decreases s.len(),
{
    if s.len() == 0 {
        seq![seq![]]
    } else {
        let p = split_slash(s.drop_last());
        if s.last() == '/' {
            p.push(seq![])
        } else {
            p.update(p.len() - 1, p.last().push(s.last()))
        }
    }
}

/// A segment kept as a component: neither empty nor `.`.
pub open spec fn keep_seg(g: Seq<char>) -> Seq<Seq<char>> {
    if g.len() == 0 || g == seq!['.'] {
        seq![]
    } else {
        seq![g]
    }
}

/// The kept segments, in order.
pub open spec fn keep_all(ps: Seq<Seq<char>>) -> Seq<Seq<char>>
    decreases ps.len(),
{
    if ps.len() == 0 {
        seq![]
    } else {
        keep_all(ps.drop_last()) + keep_seg(ps.last())
    }
}

/// The leading component: the root, the current directory, or none.
pub open spec fn lead_comp(s: Seq<char>) -> Seq<Seq<char>> {
    if s.len() > 0 && s[0] == '/' {
        seq![seq!['/']]
    } else if s == seq!['.'] || (s.len() >= 2 && s[0] == '.' && s[1] == '/') {
        seq![seq!['.']]
    } else {
        seq![]
    }
}

/// The components of the path `s`.
pub open spec fn path_comps(s: Seq<char>) -> Seq<Seq<char>> {
    lead_comp(s) + keep_all(split_slash(s))
}

/// The component sequence of the root path `/`.
pub open spec fn root_comps() -> Seq<Seq<char>> {
    seq![seq!['/']]
}

/// `Path::starts_with`: the components of `base` begin those of `p`.
pub open spec fn comps_prefix(base: Seq<Seq<char>>, p: Seq<Seq<char>>) -> bool {
    base.len() <= p.len() && p.take(base.len() as int) == base
}

/// `a` is reached from `p` by taking parents, and is neither the empty path
/// nor the root: the ancestors that a package part has to carry.
pub open spec fn is_proper_ancestor(a: Seq<Seq<char>>, p: Seq<Seq<char>>) -> bool {
    &&& a.len() < p.len()
    &&& p.take(a.len() as int) == a
    &&& a.len() > 0
    &&& a != root_comps()
}

proof fn lemma_split_nonempty(s: Seq<char>)
    ensures
        split_slash(s).len() >= 1,
    decreases s.len(),
{
    if s.len() > 0 {
        lemma_split_nonempty(s.drop_last());
    }
}

/// The components of a path string.
pub fn path_comps_exec(s: &str) -> (r: Vec<Vec<char>>)
    ensures
        vviews(r@) == path_comps(s@),
{
    let c = chars_of(s);
    let mut r: Vec<Vec<char>> = Vec::new();
    if c.len() > 0 && c[0] == '/' {
        let root = vec!['/'];
        assert(root@ =~= seq!['/']);
        r.push(root);
        assert(vviews(r@) =~= lead_comp(c@));
    } else if (c.len() == 1 && c[0] == '.') || (c.len() >= 2 && c[0] == '.' && c[1] == '/') {
        let dot = vec!['.'];
        assert(dot@ =~= seq!['.']);
        r.push(dot);
        if c.len() == 1 {
            assert(c@ =~= seq!['.']);
        }
        assert(vviews(r@) =~= lead_comp(c@));
    } else {
        assert(c@ != seq!['.']) by {
            if c@ == seq!['.'] {
                assert(c.len() == 1 && c[0] == '.');
            }
        }
        assert(vviews(r@) =~= lead_comp(c@));
    }
    let ghost lead = vviews(r@);
    let mut cur: Vec<char> = Vec::new();
    let mut i: usize = 0;
    proof {
        assert(c@.take(0) =~= Seq::<char>::empty());
    }
    while i < c.len()
        invariant
            i <= c.len(),
            lead == lead_comp(c@),
            split_slash(c@.take(i as int)).len() >= 1,
            cur@ == split_slash(c@.take(i as int)).last(),
            vviews(r@) == lead + keep_all(split_slash(c@.take(i as int)).drop_last()),
        decreases c.len() - i,
    {
        let ghost pre = split_slash(c@.take(i as int));
        let ghost t1 = c@.take(i + 1);
        assert(t1.drop_last() =~= c@.take(i as int));
        assert(t1.last() == c@[i as int]);
        if c[i] == '/' {
            let ghost post = split_slash(t1);
            assert(post == pre.push(seq![]));
            assert(post.drop_last() =~= pre);
            assert(pre =~= pre.drop_last().push(pre.last()));
            assert(keep_all(pre) == keep_all(pre.drop_last()) + keep_seg(pre.last()));
            if cur.len() == 0 || (cur.len() == 1 && cur[0] == '.') {
                assert(keep_seg(cur@) =~= Seq::<Seq<char>>::empty()) by {
                    if cur.len() == 1 && cur[0] == '.' {
                        assert(cur@ =~= seq!['.']);
                    }
                }
                assert(vviews(r@) =~= lead + keep_all(post.drop_last()));
            } else {
                let ghost before = r@;
                assert(keep_seg(cur@) == seq![cur@]);
                r.push(cur);
                assert(vviews(r@) =~= vviews(before).push(pre.last()));
                assert(vviews(r@) =~= lead + keep_all(post.drop_last()));
            }
            cur = Vec::new();
            assert(cur@ =~= post.last());
        } else {
            let ghost post = split_slash(t1);
            assert(post == pre.update(pre.len() - 1, pre.last().push(c@[i as int])));
            assert(post.drop_last() =~= pre.drop_last());
            cur.push(c[i]);
        }
        i += 1;
        proof {
            lemma_split_nonempty(c@.take(i as int));
        }
    }
    assert(c@.take(c.len() as int) =~= c@);
    let ghost all = split_slash(c@);
    assert(all =~= all.drop_last().push(all.last()));
    assert(keep_all(all) == keep_all(all.drop_last()) + keep_seg(all.last()));
    if cur.len() == 0 || (cur.len() == 1 && cur[0] == '.') {
        assert(keep_seg(cur@) =~= Seq::<Seq<char>>::empty()) by {
            if cur.len() == 1 && cur[0] == '.' {
                assert(cur@ =~= seq!['.']);
            }
        }
        assert(vviews(r@) =~= path_comps(s@));
    } else {
        let ghost before = r@;
        assert(keep_seg(cur@) == seq![cur@]);
        r.push(cur);
        assert(vviews(r@) =~= vviews(before).push(all.last()));
        assert(vviews(r@) =~= path_comps(s@));
    }
    r
}

/// Whether two component sequences are equal.
pub fn comps_eq(a: &Vec<Vec<char>>, b: &Vec<Vec<char>>) -> (r: bool)
    ensures
        r == (vviews(a@) == vviews(b@)),
{
    if a.len() != b.len() {
        assert(vviews(a@).len() != vviews(b@).len());
        return false;
    }
    let mut i: usize = 0;
    while i < a.len()
        invariant
            a.len() == b.len(),
            i <= a.len(),
            forall|j: int| 0 <= j < i ==> a@[j]@ == b@[j]@,
        decreases a.len() - i,
    {
        if !chars_eq(&a[i], &b[i]) {
            assert(vviews(a@)[i as int] != vviews(b@)[i as int]);
            return false;
        }
        i += 1;
    }
    assert(vviews(a@) =~= vviews(b@));
    true
}

/// Whether the components of `base` begin those of `p`.
pub fn comps_prefix_exec(base: &Vec<Vec<char>>, p: &Vec<Vec<char>>) -> (r: bool)
    ensures
        r == comps_prefix(vviews(base@), vviews(p@)),
{
    if base.len() > p.len() {
        return false;
    }
    let mut i: usize = 0;
    while i < base.len()
        invariant
            base.len() <= p.len(),
            i <= base.len(),
            forall|j: int| 0 <= j < i ==> base@[j]@ == p@[j]@,
        decreases base.len() - i,
    {
        if !chars_eq(&base[i], &p[i]) {
            assert(vviews(p@).take(base.len() as int)[i as int] != vviews(base@)[i as int]);
            return false;
        }
        i += 1;
    }
    assert(vviews(p@).take(base.len() as int) =~= vviews(base@));
    true
}

/// Whether `a` is a proper ancestor of `p` (see [`is_proper_ancestor`]).
pub fn is_proper_ancestor_exec(a: &Vec<Vec<char>>, p: &Vec<Vec<char>>) -> (r: bool)
    ensures
        r == is_proper_ancestor(vviews(a@), vviews(p@)),
{
    if a.len() == 0 || a.len() >= p.len() {
        return false;
    }
    if a.len() == 1 && a[0].len() == 1 && a[0][0] == '/' {
        assert(vviews(a@) =~= root_comps()) by {
            assert(a@[0]@ =~= seq!['/']);
        }
        return false;
    }
    assert(vviews(a@) != root_comps()) by {
        if vviews(a@) == root_comps() {
            assert(vviews(a@)[0] == seq!['/']);
            assert(a@[0]@ == seq!['/']);
        }
    }
    comps_prefix_exec(a, p)
}

} // verus!

verus! {

/// What `std::path::Path::parent` gives for a path string.
pub uninterp spec fn std_parent(p: Seq<char>) -> Option<Seq<char>>;

/// What `std::path::Path::file_name` gives for a path string.
pub uninterp spec fn std_file_name(p: Seq<char>) -> Option<Seq<char>>;

/// `std::path::Path::parent`, read back as a string: the path without its
/// final component, or none when the path ends in the root or is empty.
/// The source returns the front part of the path's own bytes, which ends
/// where the final component starts, so the parent is a proper prefix of
/// the path; the contract states that and names the rest.
#[verifier::external_body]
pub(crate) fn path_parent(p: &str) -> (r: Option<String>)
    ensures
        match r {
            Some(d) => {
                &&& std_parent(p@) == Some(d@)
                &&& d@.len() < p@.len()
                &&& p@.take(d@.len() as int) == d@
            },
            None => std_parent(p@) is None,
        },
{
    match std::path::Path::new(p).parent() {
        Some(d) => Some(d.to_string_lossy().into_owned()),
        None => None,
    }
}

/// `std::path::Path::file_name`, read back as a string: the final
/// component when it is a normal one.
#[verifier::external_body]
pub(crate) fn path_file_name(p: &str) -> (r: Option<String>)
    ensures
        match r {
            Some(n) => std_file_name(p@) == Some(n@),
            None => std_file_name(p@) is None,
        },
{
    match std::path::Path::new(p).file_name() {
        Some(n) => Some(n.to_string_lossy().into_owned()),
        None => None,
    }
}

} // verus!
