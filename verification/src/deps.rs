//! Dependency string validation for RPM and DEB formats.
//!
//! RPM dependencies are written `name` or `name OP version` (space separated);
//! DEB dependencies are written `name` or `name (OP version)`.
use vstd::prelude::*;

use crate::config::DependencyConfig;
use crate::text::{
    chars_eq_str, chars_of, contains_char, decimal, extend_chars, extend_str, find_char,
    find_char_exec, framed, join, join_from, lit, lemma_words_shape, push_decimal, split_ws, string_from_chars,
    sub_chars, trim, trim_chars, vviews, words,
};

verus! {

/// Target package format for dependency validation.
#[derive(Debug, Clone, Copy, PartialEq, Eq, Structural)]
pub enum DepFormat {
    Rpm,
    Deb,
}

// ---------------------------------------------------------------------------
// Specification
// ---------------------------------------------------------------------------

/// ASCII letters and digits.
pub open spec fn is_ascii_alnum(c: char) -> bool {
    let u = c as u32;
    (48 <= u <= 57) || (65 <= u <= 90) || (97 <= u <= 122)
}

/// Characters allowed in a package name.
pub open spec fn is_name_char(c: char) -> bool {
    is_ascii_alnum(c) || c == '-' || c == '.' || c == '_' || c == '+'
}

/// A package name: non-empty, starting with a letter or digit, made of
/// letters, digits and `-._+`.
pub open spec fn spec_valid_pkg_name(s: Seq<char>) -> bool {
    &&& s.len() > 0
    &&& is_ascii_alnum(s[0])
    &&& forall|i: int| 0 <= i < s.len() ==> is_name_char(#[trigger] s[i])
}

/// The RPM comparison operators.
pub open spec fn is_rpm_op(w: Seq<char>) -> bool {
    w == ">="@ || w == "<="@ || w == ">"@ || w == "<"@ || w == "="@
}

/// The DEB comparison operators.
pub open spec fn is_deb_op(w: Seq<char>) -> bool {
    w == ">="@ || w == "<="@ || w == ">>"@ || w == "<<"@ || w == "="@
}

/// Strict DEB operators become their RPM spelling; others stay as written.
pub open spec fn deb_to_rpm_op(w: Seq<char>) -> Seq<char> {
    if w == ">>"@ {
        ">"@
    } else if w == "<<"@ {
        "<"@
    } else {
        w
    }
}

/// `"invalid package name '<n>'"`.
pub open spec fn invalid_name_msg(n: Seq<char>) -> Seq<char> {
    "invalid package name '"@ + n + "'"@
}

/// Both parentheses occur, the first `)` before the first `(`.
pub open spec fn paren_order_broken(d: Seq<char>) -> bool {
    match (find_char(d, '('), find_char(d, ')')) {
        (Some(ps), Some(pe)) => pe < ps + 1,
        _ => false,
    }
}

/// The RPM spelling of a DEB-style `name (OP version)` dependency, if it has that shape.
pub open spec fn rpm_suggestion(d: Seq<char>) -> Option<Seq<char>> {
    match (find_char(d, '('), find_char(d, ')')) {
        (Some(ps), Some(pe)) => {
            let name = trim(d.subrange(0, ps));
            let parts = words(trim(d.subrange(ps + 1, pe)));
            if parts.len() == 2 {
                Some(name + " "@ + deb_to_rpm_op(parts[0]) + " "@ + parts[1])
            } else {
                None
            }
        },
        _ => None,
    }
}

/// Outcome of validating a trimmed, non-empty RPM dependency.
pub open spec fn rpm_dep_result(d: Seq<char>) -> Result<(), Seq<char>> {
    if d.contains('(') || d.contains(')') {
        match rpm_suggestion(d) {
            Some(s) => Err(
                "RPM deps must not use parenthesized version constraints; use '"@ + s
                    + "' instead"@,
            ),
            None => Err("RPM deps must not use parenthesized version constraints"@),
        }
    } else {
        let p = words(d);
        if p.len() == 1 {
            if spec_valid_pkg_name(p[0]) {
                Ok(())
            } else {
                Err(invalid_name_msg(p[0]))
            }
        } else if p.len() == 3 {
            if !spec_valid_pkg_name(p[0]) {
                Err(invalid_name_msg(p[0]))
            } else if !is_rpm_op(p[1]) {
                Err(
                    "invalid RPM operator '"@ + p[1] + "'; expected one of: >=, <=, >, <, ="@,
                )
            } else {
                Ok(())
            }
        } else if p.len() == 2 && is_rpm_op(p[1]) {
            Err("missing version after operator '"@ + p[1] + "'"@)
        } else {
            Err(
                "invalid dependency format; expected 'name' or 'name OP version', got '"@ + d
                    + "'"@,
            )
        }
    }
}

/// Validation of `d` as a DEB dependency would slice a string backwards: a `)`
/// before the first `(` that follows a valid package name.
pub open spec fn deb_paren_order_broken(d: Seq<char>) -> bool {
    match find_char(d, '(') {
        Some(ps) => spec_valid_pkg_name(trim(d.subrange(0, ps))) && match find_char(d, ')') {
            Some(pe) => pe < ps + 1,
            None => false,
        },
        None => false,
    }
}

/// Outcome of validating a trimmed, non-empty DEB dependency.
pub open spec fn deb_dep_result(d: Seq<char>) -> Result<(), Seq<char>> {
    match find_char(d, '(') {
        Some(ps) => {
            let name = trim(d.subrange(0, ps));
            if !spec_valid_pkg_name(name) {
                Err(invalid_name_msg(name))
            } else {
                match find_char(d, ')') {
                    None => Err("missing closing ')' in version constraint"@),
                    Some(pe) => {
                        let inner = trim(d.subrange(ps + 1, pe));
                        let parts = words(inner);
                        if parts.len() != 2 {
                            Err(
                                "invalid version constraint '("@ + inner
                                    + ")'; expected '(OP version)'"@,
                            )
                        } else if !is_deb_op(parts[0]) {
                            Err(
                                "invalid DEB operator '"@ + parts[0]
                                    + "'; expected one of: >=, <=, >>, <<, ="@,
                            )
                        } else {
                            Ok(())
                        }
                    },
                }
            }
        },
        None => {
            let p = words(d);
            if p.len() >= 3 && (is_rpm_op(p[1]) || is_deb_op(p[1])) {
                Err(
                    "DEB deps must use parenthesized version constraints; use '"@ + p[0] + " ("@
                        + p[1] + " "@ + join(p.skip(2), " "@) + ")' instead"@,
                )
            } else if p.len() == 2 && (is_rpm_op(p[1]) || is_deb_op(p[1])) {
                Err(
                    "missing version after operator '"@ + p[1]
                        + "'; expected 'name (OP version)'"@,
                )
            } else if p.len() != 1 {
                Err(
                    "invalid dependency format; expected 'name' or 'name (OP version)', got '"@
                        + d + "'"@,
                )
            } else if !spec_valid_pkg_name(p[0]) {
                Err(invalid_name_msg(p[0]))
            } else {
                Ok(())
            }
        },
    }
}

/// Outcome of [`validate_dep`] on `dep` for `format`.
pub open spec fn dep_result(dep: Seq<char>, format: DepFormat) -> Result<(), Seq<char>> {
    let d = trim(dep);
    if d.len() == 0 {
        Err("dependency string is empty"@)
    } else {
        match format {
            DepFormat::Rpm => rpm_dep_result(d),
            DepFormat::Deb => deb_dep_result(d),
        }
    }
}

/// The inputs on which validating `dep` for `format` would slice a string
/// backwards: a `)` that precedes the first `(` in a parenthesised dependency.
pub open spec fn dep_panics(dep: Seq<char>, format: DepFormat) -> bool {
    let d = trim(dep);
    d.len() > 0 && match format {
        DepFormat::Rpm => paren_order_broken(d),
        DepFormat::Deb => deb_paren_order_broken(d),
    }
}

/// The view of a unit result carrying a `String` error.
pub open spec fn res_view(r: Result<(), String>) -> Result<(), Seq<char>> {
    match r {
        Ok(_) => Ok(()),
        Err(m) => Err(m@),
    }
}

// ---------------------------------------------------------------------------
// Implementation
// ---------------------------------------------------------------------------

fn is_ascii_alnum_exec(c: char) -> (r: bool)
    ensures
        r == is_ascii_alnum(c),
{
    let u = c as u32;
    (48 <= u && u <= 57) || (65 <= u && u <= 90) || (97 <= u && u <= 122)
}

/// Check whether `name` contains only valid package-name characters.
fn valid_pkg_name(name: &Vec<char>) -> (r: bool)
    ensures
        r == spec_valid_pkg_name(name@),
{
    if name.len() == 0 {
        return false;
    }
    if !is_ascii_alnum_exec(name[0]) {
        return false;
    }
    let mut i: usize = 0;
    while i < name.len()
        invariant
            i <= name.len(),
            forall|j: int| 0 <= j < i ==> is_name_char(#[trigger] name@[j]),
        decreases name.len() - i,
    {
        let c = name[i];
        if !(is_ascii_alnum_exec(c) || c == '-' || c == '.' || c == '_' || c == '+') {
            return false;
        }
        i += 1;
    }
    true
}

fn is_rpm_op_exec(w: &Vec<char>) -> (r: bool)
    ensures
        r == is_rpm_op(w@),
{
    chars_eq_str(w, ">=") || chars_eq_str(w, "<=") || chars_eq_str(w, ">") || chars_eq_str(w, "<")
        || chars_eq_str(w, "=")
}

fn is_deb_op_exec(w: &Vec<char>) -> (r: bool)
    ensures
        r == is_deb_op(w@),
{
    chars_eq_str(w, ">=") || chars_eq_str(w, "<=") || chars_eq_str(w, ">>") || chars_eq_str(
        w,
        "<<",
    ) || chars_eq_str(w, "=")
}

/// Try to convert a DEB-style dep to an RPM suggestion.
fn rpm_suggestion_from_deb(dep: &Vec<char>) -> (r: Option<Vec<char>>)
    requires
        !paren_order_broken(dep@),
    ensures
        match r {
            Some(v) => rpm_suggestion(dep@) == Some(v@),
            None => rpm_suggestion(dep@) is None,
        },
{
    let ps = match find_char_exec(dep, '(') {
        Some(p) => p,
        None => {
            return None;
        },
    };
    let pe = match find_char_exec(dep, ')') {
        Some(p) => p,
        None => {
            return None;
        },
    };
    let name = trim_chars(&sub_chars(dep, 0, ps));
    let inner = trim_chars(&sub_chars(dep, ps + 1, pe));
    let parts = split_ws(&inner);
    if parts.len() == 2 {
        let mut s = name;
        extend_str(&mut s, " ");
        if chars_eq_str(&parts[0], ">>") {
            extend_str(&mut s, ">");
        } else if chars_eq_str(&parts[0], "<<") {
            extend_str(&mut s, "<");
        } else {
            extend_chars(&mut s, &parts[0]);
        }
        extend_str(&mut s, " ");
        extend_chars(&mut s, &parts[1]);
        proof {
            let p = words(trim(dep@.subrange(0, ps as int)));
            assert(s@ =~= trim(dep@.subrange(0, ps as int)) + " "@ + deb_to_rpm_op(parts@[0]@)
                + " "@ + parts@[1]@);
        }
        Some(s)
    } else {
        None
    }
}

fn validate_rpm_dep(dep: &Vec<char>) -> (r: Result<(), String>)
    requires
        !paren_order_broken(dep@),
    ensures
        res_view(r) == rpm_dep_result(dep@),
{
    if contains_char(dep, '(') || contains_char(dep, ')') {
        if let Some(suggestion) = rpm_suggestion_from_deb(dep) {
            return Err(
                framed(
                    "RPM deps must not use parenthesized version constraints; use '",
                    &suggestion,
                    "' instead",
                ),
            );
        }
        return Err(lit("RPM deps must not use parenthesized version constraints"));
    }
    let parts = split_ws(dep);
    proof {
        lemma_words_shape(dep@);
    }
    if parts.len() == 1 {
        if !valid_pkg_name(&parts[0]) {
            return Err(framed("invalid package name '", &parts[0], "'"));
        }
        Ok(())
    } else if parts.len() == 3 {
        if !valid_pkg_name(&parts[0]) {
            return Err(framed("invalid package name '", &parts[0], "'"));
        }
        if !is_rpm_op_exec(&parts[1]) {
            return Err(
                framed("invalid RPM operator '", &parts[1], "'; expected one of: >=, <=, >, <, ="),
            );
        }
        if parts[2].len() == 0 {
            return Err(lit("missing version after operator"));
        }
        Ok(())
    } else if parts.len() == 2 {
        if is_rpm_op_exec(&parts[1]) {
            return Err(framed("missing version after operator '", &parts[1], "'"));
        }
        Err(
            framed(
                "invalid dependency format; expected 'name' or 'name OP version', got '",
                dep,
                "'",
            ),
        )
    } else {
        Err(
            framed(
                "invalid dependency format; expected 'name' or 'name OP version', got '",
                dep,
                "'",
            ),
        )
    }
}

fn validate_deb_dep(dep: &Vec<char>) -> (r: Result<(), String>)
    requires
        !deb_paren_order_broken(dep@),
    ensures
        res_view(r) == deb_dep_result(dep@),
{
    if let Some(paren_start) = find_char_exec(dep, '(') {
        let name = trim_chars(&sub_chars(dep, 0, paren_start));
        if !valid_pkg_name(&name) {
            return Err(framed("invalid package name '", &name, "'"));
        }
        let paren_end = match find_char_exec(dep, ')') {
            Some(p) => p,
            None => {
                return Err(lit("missing closing ')' in version constraint"));
            },
        };
        let inner = trim_chars(&sub_chars(dep, paren_start + 1, paren_end));
        let parts = split_ws(&inner);
        proof {
            lemma_words_shape(inner@);
        }
        if parts.len() != 2 {
            return Err(framed("invalid version constraint '(", &inner, ")'; expected '(OP version)'"));
        }
        if !is_deb_op_exec(&parts[0]) {
            return Err(
                framed(
                    "invalid DEB operator '",
                    &parts[0],
                    "'; expected one of: >=, <=, >>, <<, =",
                ),
            );
        }
        if parts[1].len() == 0 {
            return Err(lit("missing version after operator"));
        }
        Ok(())
    } else {
        let parts = split_ws(dep);
        if parts.len() >= 3 {
            if is_rpm_op_exec(&parts[1]) || is_deb_op_exec(&parts[1]) {
                let mut v: Vec<char> = Vec::new();
                extend_str(&mut v, "DEB deps must use parenthesized version constraints; use '");
                extend_chars(&mut v, &parts[0]);
                extend_str(&mut v, " (");
                extend_chars(&mut v, &parts[1]);
                extend_str(&mut v, " ");
                let rest = join_from(&parts, 2, " ");
                extend_chars(&mut v, &rest);
                extend_str(&mut v, ")' instead");
                proof {
                    let p = words(dep@);
                    assert(vviews(parts@).skip(2) =~= p.skip(2));
                    assert(v@ =~= "DEB deps must use parenthesized version constraints; use '"@
                        + p[0] + " ("@ + p[1] + " "@ + join(p.skip(2), " "@) + ")' instead"@);
                }
                return Err(string_from_chars(&v));
            }
        }
        if parts.len() == 2 && (is_rpm_op_exec(&parts[1]) || is_deb_op_exec(&parts[1])) {
            return Err(
                framed(
                    "missing version after operator '",
                    &parts[1],
                    "'; expected 'name (OP version)'",
                ),
            );
        }
        if parts.len() != 1 {
            return Err(
                framed(
                    "invalid dependency format; expected 'name' or 'name (OP version)', got '",
                    dep,
                    "'",
                ),
            );
        }
        if !valid_pkg_name(&parts[0]) {
            return Err(framed("invalid package name '", &parts[0], "'"));
        }
        Ok(())
    }
}

/// Validate a single dependency string for the given format.
///
/// Returns `Ok(())` if valid, or `Err` with a human-readable message.
pub fn validate_dep(dep: &str, format: DepFormat) -> (r: Result<(), String>)
    requires
        !dep_panics(dep@, format),
    ensures
        res_view(r) == dep_result(dep@, format),
{
    let all = chars_of(dep);
    let d = trim_chars(&all);
    if d.len() == 0 {
        return Err(lit("dependency string is empty"));
    }
    match format {
        DepFormat::Rpm => validate_rpm_dep(&d),
        DepFormat::Deb => validate_deb_dep(&d),
    }
}

// ---------------------------------------------------------------------------
// Whole dependency sections
// ---------------------------------------------------------------------------

/// The views of a sequence of strings.
pub open spec fn strings_view(v: Seq<String>) -> Seq<Seq<char>> {
    v.map_values(|s: String| s@)
}

/// `"dependencies.<field>[<i>] '<dep>': <msg>"`.
pub open spec fn err_line(field: Seq<char>, i: nat, dep: Seq<char>, msg: Seq<char>) -> Seq<char> {
    "dependencies."@ + field + "["@ + decimal(i) + "] '"@ + dep + "': "@ + msg
}

/// The error lines for the entries of one dependency list, in list order.
pub open spec fn field_errors(field: Seq<char>, list: Seq<Seq<char>>, format: DepFormat) -> Seq<
    Seq<char>,
>
    decreases list.len(),
{
    if list.len() == 0 {
        seq![]
    } else {
        let prev = field_errors(field, list.drop_last(), format);
        match dep_result(list.last(), format) {
            Ok(_) => prev,
            Err(m) => prev.push(err_line(field, (list.len() - 1) as nat, list.last(), m)),
        }
    }
}

/// The error lines for a shared list checked leniently: an entry is reported
/// (with its RPM error) only when it is valid for neither format.
pub open spec fn lenient_field_errors(field: Seq<char>, list: Seq<Seq<char>>) -> Seq<Seq<char>>
    decreases list.len(),
{
    if list.len() == 0 {
        seq![]
    } else {
        let prev = lenient_field_errors(field, list.drop_last());
        match (dep_result(list.last(), DepFormat::Rpm), dep_result(list.last(), DepFormat::Deb)) {
            (Err(m), Err(_)) => prev.push(err_line(field, (list.len() - 1) as nat, list.last(), m)),
            _ => prev,
        }
    }
}

/// No entry of `list` is one on which validation for `format` slices backwards.
pub open spec fn no_panics(list: Seq<Seq<char>>, format: DepFormat) -> bool {
    forall|i: int| 0 <= i < list.len() ==> !dep_panics(#[trigger] list[i], format)
}

/// All error lines of [`validate_all_deps`].
pub open spec fn all_deps_errors(deps: DependencyConfig, format: DepFormat) -> Seq<Seq<char>> {
    field_errors("requires"@, strings_view(deps.requires@), format) + field_errors(
        "conflicts"@,
        strings_view(deps.conflicts@),
        format,
    ) + field_errors("provides"@, strings_view(deps.provides@), format) + field_errors(
        "replaces"@,
        strings_view(deps.replaces@),
        format,
    ) + match format {
        DepFormat::Rpm => field_errors("requires_rpm"@, strings_view(deps.requires_rpm@), format),
        DepFormat::Deb => field_errors("requires_deb"@, strings_view(deps.requires_deb@), format),
    }
}

/// The inputs [`validate_all_deps`] accepts.
pub open spec fn all_deps_checkable(deps: DependencyConfig, format: DepFormat) -> bool {
    &&& no_panics(strings_view(deps.requires@), format)
    &&& no_panics(strings_view(deps.conflicts@), format)
    &&& no_panics(strings_view(deps.provides@), format)
    &&& no_panics(strings_view(deps.replaces@), format)
    &&& match format {
        DepFormat::Rpm => no_panics(strings_view(deps.requires_rpm@), format),
        DepFormat::Deb => no_panics(strings_view(deps.requires_deb@), format),
    }
}

/// All error lines of [`validate_all_deps_lenient`].
pub open spec fn lenient_deps_errors(deps: DependencyConfig) -> Seq<Seq<char>> {
    lenient_field_errors("requires"@, strings_view(deps.requires@)) + lenient_field_errors(
        "conflicts"@,
        strings_view(deps.conflicts@),
    ) + lenient_field_errors("provides"@, strings_view(deps.provides@)) + lenient_field_errors(
        "replaces"@,
        strings_view(deps.replaces@),
    ) + field_errors("requires_rpm"@, strings_view(deps.requires_rpm@), DepFormat::Rpm)
        + field_errors("requires_deb"@, strings_view(deps.requires_deb@), DepFormat::Deb)
}

/// The inputs [`validate_all_deps_lenient`] accepts.
pub open spec fn lenient_deps_checkable(deps: DependencyConfig) -> bool {
    &&& no_panics(strings_view(deps.requires@), DepFormat::Rpm)
    &&& no_panics(strings_view(deps.requires@), DepFormat::Deb)
    &&& no_panics(strings_view(deps.conflicts@), DepFormat::Rpm)
    &&& no_panics(strings_view(deps.conflicts@), DepFormat::Deb)
    &&& no_panics(strings_view(deps.provides@), DepFormat::Rpm)
    &&& no_panics(strings_view(deps.provides@), DepFormat::Deb)
    &&& no_panics(strings_view(deps.replaces@), DepFormat::Rpm)
    &&& no_panics(strings_view(deps.replaces@), DepFormat::Deb)
    &&& no_panics(strings_view(deps.requires_rpm@), DepFormat::Rpm)
    &&& no_panics(strings_view(deps.requires_deb@), DepFormat::Deb)
}

fn error_line(field: &str, i: usize, dep: &String, msg: &String) -> (r: String)
    ensures
        r@ == err_line(field@, i as nat, dep@, msg@),
{
    let mut v: Vec<char> = Vec::new();
    extend_str(&mut v, "dependencies.");
    extend_str(&mut v, field);
    extend_str(&mut v, "[");
    push_decimal(&mut v, i as u64);
    extend_str(&mut v, "] '");
    extend_str(&mut v, dep.as_str());
    extend_str(&mut v, "': ");
    extend_str(&mut v, msg.as_str());
    assert(v@ =~= err_line(field@, i as nat, dep@, msg@));
    string_from_chars(&v)
}

fn check_field(field: &str, list: &Vec<String>, format: DepFormat, errors: &mut Vec<String>)
    requires
        no_panics(strings_view(list@), format),
    ensures
        strings_view(final(errors)@) == strings_view(old(errors)@) + field_errors(
            field@,
            strings_view(list@),
            format,
        ),
{
    let ghost lv = strings_view(list@);
    let mut i: usize = 0;
    while i < list.len()
        invariant
            i <= list.len(),
            lv == strings_view(list@),
            no_panics(lv, format),
            strings_view(errors@) == strings_view(old(errors)@) + field_errors(
                field@,
                lv.take(i as int),
                format,
            ),
        decreases list.len() - i,
    {
        let dep = &list[i];
        assert(lv.take(i + 1).drop_last() =~= lv.take(i as int));
        assert(lv.take(i + 1).last() == dep@);
        assert(lv[i as int] == dep@);
        let ghost before = errors@;
        match validate_dep(dep.as_str(), format) {
            Ok(()) => {},
            Err(msg) => {
                let line = error_line(field, i, dep, &msg);
                errors.push(line);
                assert(strings_view(errors@) =~= strings_view(before).push(line@));
            },
        }
        i += 1;
    }
    assert(lv.take(list.len() as int) =~= lv);
}

fn check_field_lenient(field: &str, list: &Vec<String>, errors: &mut Vec<String>)
    requires
        no_panics(strings_view(list@), DepFormat::Rpm),
        no_panics(strings_view(list@), DepFormat::Deb),
    ensures
        strings_view(final(errors)@) == strings_view(old(errors)@) + lenient_field_errors(
            field@,
            strings_view(list@),
        ),
{
    let ghost lv = strings_view(list@);
    let mut i: usize = 0;
    while i < list.len()
        invariant
            i <= list.len(),
            lv == strings_view(list@),
            no_panics(lv, DepFormat::Rpm),
            no_panics(lv, DepFormat::Deb),
            strings_view(errors@) == strings_view(old(errors)@) + lenient_field_errors(
                field@,
                lv.take(i as int),
            ),
        decreases list.len() - i,
    {
        let dep = &list[i];
        assert(lv.take(i + 1).drop_last() =~= lv.take(i as int));
        assert(lv.take(i + 1).last() == dep@);
        assert(lv[i as int] == dep@);
        let ghost before = errors@;
        let rpm = validate_dep(dep.as_str(), DepFormat::Rpm);
        let deb = validate_dep(dep.as_str(), DepFormat::Deb);
        match (rpm, deb) {
            (Err(msg), Err(_)) => {
                let line = error_line(field, i, dep, &msg);
                errors.push(line);
                assert(strings_view(errors@) =~= strings_view(before).push(line@));
            },
            _ => {},
        }
        i += 1;
    }
    assert(lv.take(list.len() as int) =~= lv);
}

/// Validate all dependency fields in a [`DependencyConfig`] for the given format.
///
/// Returns a list of human-readable error strings. Empty means all valid.
pub fn validate_all_deps(deps: &DependencyConfig, format: DepFormat) -> (errors: Vec<String>)
    requires
        all_deps_checkable(*deps, format),
    ensures
        strings_view(errors@) == all_deps_errors(*deps, format),
{
    let mut errors: Vec<String> = Vec::new();
    check_field("requires", &deps.requires, format, &mut errors);
    check_field("conflicts", &deps.conflicts, format, &mut errors);
    check_field("provides", &deps.provides, format, &mut errors);
    check_field("replaces", &deps.replaces, format, &mut errors);
    match format {
        DepFormat::Rpm => check_field("requires_rpm", &deps.requires_rpm, DepFormat::Rpm, &mut errors),
        DepFormat::Deb => check_field("requires_deb", &deps.requires_deb, DepFormat::Deb, &mut errors),
    }
    assert(strings_view(Seq::<String>::empty()) =~= Seq::<Seq<char>>::empty());
    assert(strings_view(errors@) =~= all_deps_errors(*deps, format));
    errors
}

/// Validate deps leniently (for `spm validate` without a target format).
///
/// Format-specific fields are checked against their format.
/// Shared fields pass if valid for either RPM or DEB.
pub fn validate_all_deps_lenient(deps: &DependencyConfig) -> (errors: Vec<String>)
    requires
        lenient_deps_checkable(*deps),
    ensures
        strings_view(errors@) == lenient_deps_errors(*deps),
{
    let mut errors: Vec<String> = Vec::new();
    check_field_lenient("requires", &deps.requires, &mut errors);
    check_field_lenient("conflicts", &deps.conflicts, &mut errors);
    check_field_lenient("provides", &deps.provides, &mut errors);
    check_field_lenient("replaces", &deps.replaces, &mut errors);
    check_field("requires_rpm", &deps.requires_rpm, DepFormat::Rpm, &mut errors);
    check_field("requires_deb", &deps.requires_deb, DepFormat::Deb, &mut errors);
    assert(strings_view(Seq::<String>::empty()) =~= Seq::<Seq<char>>::empty());
    assert(strings_view(errors@) =~= lenient_deps_errors(*deps));
    errors
}

/// Validating a dependency does not depend on the whitespace around it:
/// the string and its trimmed form get the same verdict, and panic on the
/// same inputs.
pub proof fn law_validate_dep_ignores_surrounding_whitespace(dep: Seq<char>, format: DepFormat)
    ensures
        dep_result(dep, format) == dep_result(trim(dep), format),
        dep_panics(dep, format) == dep_panics(trim(dep), format),
{
    crate::text::lemma_trim_idempotent(dep);
}

/// In the lenient check of a shared list, an entry adds an error line (with
/// its RPM message) exactly when it is invalid for both formats; the
/// format-specific lists are checked strictly.
pub proof fn law_lenient_reports_only_doubly_invalid(field: Seq<char>, list: Seq<Seq<char>>, dep: Seq<char>)
    ensures
        lenient_field_errors(field, list.push(dep)) == match (
            dep_result(dep, DepFormat::Rpm),
            dep_result(dep, DepFormat::Deb),
        ) {
            (Err(m), Err(_)) => lenient_field_errors(field, list).push(err_line(field, list.len(), dep, m)),
            _ => lenient_field_errors(field, list),
        },
        lenient_field_errors(field, list.push(dep)).len() == lenient_field_errors(field, list).len() + (
        if dep_result(dep, DepFormat::Rpm) is Err && dep_result(dep, DepFormat::Deb) is Err {
            1int
        } else {
            0int
        }),
{
    assert(list.push(dep).drop_last() =~= list);
    assert(list.push(dep).last() == dep);
}

/// Whether validating `dep` for `format` would slice a string backwards
/// (see [`dep_panics`]); [`validate_dep`] is not to be called there.
pub fn dep_would_panic(dep: &str, format: DepFormat) -> (r: bool)
    ensures
        r == dep_panics(dep@, format),
{
    let all = chars_of(dep);
    let d = trim_chars(&all);
    if d.len() == 0 {
        return false;
    }
    let open = find_char_exec(&d, '(');
    let close = find_char_exec(&d, ')');
    match (open, close) {
        (Some(ps), Some(pe)) => {
            if pe <= ps {
                match format {
                    DepFormat::Rpm => true,
                    DepFormat::Deb => {
                        let name = trim_chars(&sub_chars(&d, 0, ps));
                        valid_pkg_name(&name)
                    },
                }
            } else {
                false
            }
        },
        _ => false,
    }
}

/// An RPM dependency is accepted exactly when, trimmed, it is non-empty,
/// has no parenthesis, and is either a valid package name alone or a valid
/// name, an RPM operator and a version; an empty one is refused as empty.
pub proof fn law_rpm_dep_acceptance(dep: Seq<char>)
    ensures
        trim(dep).len() == 0 ==> dep_result(dep, DepFormat::Rpm) == Err::<(), Seq<char>>(
            "dependency string is empty"@,
        ),
        dep_result(dep, DepFormat::Rpm) is Ok <==> {
            let t = trim(dep);
            let p = words(t);
            &&& t.len() > 0
            &&& !t.contains('(') && !t.contains(')')
            &&& (p.len() == 1 && spec_valid_pkg_name(p[0])) || (p.len() == 3 && spec_valid_pkg_name(p[0])
                && is_rpm_op(p[1]))
        },
{
}

} // verus!
