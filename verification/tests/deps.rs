use spm::config::DependencyConfig;
use spm::deps::{validate_all_deps, validate_all_deps_lenient, validate_dep, DepFormat};
// ── RPM valid ──────────────────────────────────────────────

#[test]
fn rpm_unversioned() {
    assert!(validate_dep("libfoo", DepFormat::Rpm).is_ok());
}

#[test]
fn rpm_greater_equal() {
    assert!(validate_dep("libfoo >= 1.0", DepFormat::Rpm).is_ok());
}

#[test]
fn rpm_equal() {
    assert!(validate_dep("libfoo = 1.0", DepFormat::Rpm).is_ok());
}

#[test]
fn rpm_less_equal() {
    assert!(validate_dep("libfoo <= 3", DepFormat::Rpm).is_ok());
}

#[test]
fn rpm_greater() {
    assert!(validate_dep("libfoo > 1", DepFormat::Rpm).is_ok());
}

#[test]
fn rpm_less() {
    assert!(validate_dep("libfoo < 2", DepFormat::Rpm).is_ok());
}

#[test]
fn rpm_name_with_dots_hyphens() {
    assert!(validate_dep("lib-foo.bar_baz+1 >= 2.0", DepFormat::Rpm).is_ok());
}

// ── RPM invalid ────────────────────────────────────────────

#[test]
fn rpm_rejects_deb_style() {
    let err = validate_dep("libfoo (>= 1.0)", DepFormat::Rpm).unwrap_err();
    assert!(err.contains("parenthesized"), "got: {err}");
    assert!(
        err.contains("libfoo >= 1.0"),
        "should suggest fix, got: {err}"
    );
}

#[test]
fn rpm_rejects_empty() {
    assert!(validate_dep("", DepFormat::Rpm).is_err());
}

#[test]
fn rpm_rejects_missing_version() {
    let err = validate_dep("libfoo >=", DepFormat::Rpm).unwrap_err();
    assert!(err.contains("missing version"), "got: {err}");
}

#[test]
fn rpm_rejects_bad_operator() {
    assert!(validate_dep("libfoo >> 1.0", DepFormat::Rpm).is_err());
}

#[test]
fn rpm_rejects_bad_name() {
    assert!(validate_dep("-libfoo", DepFormat::Rpm).is_err());
}

// ── DEB valid ──────────────────────────────────────────────

#[test]
fn deb_unversioned() {
    assert!(validate_dep("libfoo", DepFormat::Deb).is_ok());
}

#[test]
fn deb_greater_equal() {
    assert!(validate_dep("libfoo (>= 1.0)", DepFormat::Deb).is_ok());
}

#[test]
fn deb_equal() {
    assert!(validate_dep("libfoo (= 1.0)", DepFormat::Deb).is_ok());
}

#[test]
fn deb_less_equal() {
    assert!(validate_dep("libfoo (<= 3)", DepFormat::Deb).is_ok());
}

#[test]
fn deb_strict_greater() {
    assert!(validate_dep("libfoo (>> 1)", DepFormat::Deb).is_ok());
}

#[test]
fn deb_strict_less() {
    assert!(validate_dep("libfoo (<< 2)", DepFormat::Deb).is_ok());
}

// ── DEB invalid ────────────────────────────────────────────

#[test]
fn deb_rejects_bare_operator() {
    let err = validate_dep("libfoo >= 1.0", DepFormat::Deb).unwrap_err();
    assert!(err.contains("parenthesized"), "got: {err}");
    assert!(
        err.contains("libfoo (>= 1.0)"),
        "should suggest fix, got: {err}"
    );
}

#[test]
fn deb_rejects_empty() {
    assert!(validate_dep("", DepFormat::Deb).is_err());
}

#[test]
fn deb_rejects_missing_version() {
    assert!(validate_dep("libfoo (>= )", DepFormat::Deb).is_err());
}

#[test]
fn deb_rejects_bad_operator() {
    assert!(validate_dep("libfoo (> 1.0)", DepFormat::Deb).is_err());
}

#[test]
fn deb_rejects_missing_close_paren() {
    assert!(validate_dep("libfoo (>= 1.0", DepFormat::Deb).is_err());
}

// ── validate_all_deps ──────────────────────────────────────

#[test]
fn skips_requires_deb_for_rpm() {
    let deps = DependencyConfig {
        requires: vec!["libfoo >= 1.0".to_string()],
        requires_rpm: vec![],
        requires_deb: vec!["libfoo (>= 1.0)".to_string()], // DEB syntax, should be skipped
        conflicts: vec![],
        provides: vec![],
        replaces: vec![],
    };
    let errors = validate_all_deps(&deps, DepFormat::Rpm);
    assert!(errors.is_empty(), "got: {errors:?}");
}

#[test]
fn skips_requires_rpm_for_deb() {
    let deps = DependencyConfig {
        requires: vec!["libfoo (>= 1.0)".to_string()],
        requires_rpm: vec!["libfoo >= 1.0".to_string()], // RPM syntax, should be skipped
        requires_deb: vec![],
        conflicts: vec![],
        provides: vec![],
        replaces: vec![],
    };
    let errors = validate_all_deps(&deps, DepFormat::Deb);
    assert!(errors.is_empty(), "got: {errors:?}");
}

#[test]
fn catches_wrong_format_in_requires() {
    let deps = DependencyConfig {
        requires: vec!["libfoo >= 1.0".to_string()], // RPM syntax
        requires_rpm: vec![],
        requires_deb: vec![],
        conflicts: vec![],
        provides: vec![],
        replaces: vec![],
    };
    let errors = validate_all_deps(&deps, DepFormat::Deb);
    assert_eq!(errors.len(), 1);
    assert!(errors[0].contains("parenthesized"), "got: {}", errors[0]);
}

#[test]
fn validates_conflicts_provides_replaces() {
    let deps = DependencyConfig {
        requires: vec![],
        requires_rpm: vec![],
        requires_deb: vec![],
        conflicts: vec!["bad (>= 1)".to_string()],
        provides: vec!["ok = 1.0".to_string()],
        replaces: vec!["".to_string()],
    };
    let errors = validate_all_deps(&deps, DepFormat::Rpm);
    assert_eq!(errors.len(), 2, "got: {errors:?}"); // conflicts + replaces
}

// ── validate_all_deps_lenient ──────────────────────────────

#[test]
fn lenient_accepts_either_format() {
    let deps = DependencyConfig {
        requires: vec![
            "libfoo >= 1.0".to_string(),   // RPM style — ok
            "libbar (>= 2.0)".to_string(), // DEB style — ok
            "libbaz".to_string(),          // unversioned — ok
        ],
        requires_rpm: vec![],
        requires_deb: vec![],
        conflicts: vec![],
        provides: vec![],
        replaces: vec![],
    };
    let errors = validate_all_deps_lenient(&deps);
    assert!(errors.is_empty(), "got: {errors:?}");
}

#[test]
fn lenient_rejects_garbage() {
    let deps = DependencyConfig {
        requires: vec!["".to_string()],
        requires_rpm: vec![],
        requires_deb: vec![],
        conflicts: vec![],
        provides: vec![],
        replaces: vec![],
    };
    let errors = validate_all_deps_lenient(&deps);
    assert_eq!(errors.len(), 1);
}

#[test]
fn lenient_validates_format_specific_strictly() {
    let deps = DependencyConfig {
        requires: vec![],
        requires_rpm: vec!["libfoo (>= 1.0)".to_string()], // wrong format for RPM
        requires_deb: vec!["libbar >= 1.0".to_string()],   // wrong format for DEB
        conflicts: vec![],
        provides: vec![],
        replaces: vec![],
    };
    let errors = validate_all_deps_lenient(&deps);
    assert_eq!(errors.len(), 2, "got: {errors:?}");
}

#[test]
fn test_validate_dep_ignores_surrounding_whitespace() {
    for dep in ["libfoo >= 1.0", "libbar (>= 2.0)", "-bad", "libfoo >> 1.0", ""] {
        let padded = format!("  {dep}\t ");
        assert_eq!(validate_dep(&padded, DepFormat::Rpm), validate_dep(dep, DepFormat::Rpm));
        assert_eq!(validate_dep(&padded, DepFormat::Deb), validate_dep(dep, DepFormat::Deb));
    }
}

#[test]
fn test_dep_would_panic() {
    use_guard("libfoo )>= 1.0(", true, false);
    use_guard("libfoo (>= 1.0)", false, false);
    use_guard(") foo (", true, false);
    use_guard("", false, false);
}

fn use_guard(dep: &str, rpm: bool, deb: bool) {
    assert_eq!(spm::deps::dep_would_panic(dep, DepFormat::Rpm), rpm, "{dep}");
    assert_eq!(spm::deps::dep_would_panic(dep, DepFormat::Deb), deb, "{dep}");
}

#[test]
fn test_rpm_dep_acceptance_rule() {
    assert!(validate_dep("libfoo", DepFormat::Rpm).is_ok());
    assert!(validate_dep(" libfoo >= 1.0 ", DepFormat::Rpm).is_ok());
    assert!(validate_dep("libfoo (>= 1.0)", DepFormat::Rpm).is_err());
    assert!(validate_dep("libfoo >= 1.0 extra", DepFormat::Rpm).is_err());
    assert!(validate_dep("libfoo ~ 1.0", DepFormat::Rpm).is_err());
    assert_eq!(validate_dep("   ", DepFormat::Rpm), Err("dependency string is empty".to_string()));
}
