use spm::distro::{check_compatibility, minimum_dpkg_version, minimum_rpm_version, Distro, DistroInfo};
#[test]
fn test_distro_from_str_known() {
    assert_eq!(Distro::from_str("el8"), Some(Distro::El8));
    assert_eq!(Distro::from_str("rhel8"), Some(Distro::El8));
    assert_eq!(Distro::from_str("el9"), Some(Distro::El9));
    assert_eq!(Distro::from_str("rhel9"), Some(Distro::El9));
    assert_eq!(Distro::from_str("ubuntu2004"), Some(Distro::Ubuntu2004));
    assert_eq!(Distro::from_str("ubuntu2204"), Some(Distro::Ubuntu2204));
    assert_eq!(Distro::from_str("ubuntu2404"), Some(Distro::Ubuntu2404));
    assert_eq!(Distro::from_str("fedora"), Some(Distro::Fedora));
}

#[test]
fn test_distro_from_str_unknown() {
    assert_eq!(Distro::from_str("archlinux"), None);
    assert_eq!(Distro::from_str(""), None);
    assert_eq!(Distro::from_str("EL8"), None);
}

#[test]
fn test_el8_info() {
    let info = Distro::El8.info();
    match info {
        DistroInfo::Rpm(rpm) => {
            assert_eq!(rpm.rpm_version, "4.14.3");
            assert!(rpm.supports_zstd);
            assert!(rpm.supports_large_files);
            assert_eq!(rpm.alternatives_dep, "chkconfig");
        }
        _ => unreachable!("expected RPM info for el8"),
    }
}

#[test]
fn test_el9_info() {
    let info = Distro::El9.info();
    match info {
        DistroInfo::Rpm(rpm) => {
            assert_eq!(rpm.rpm_version, "4.16.1");
            assert_eq!(rpm.alternatives_dep, "alternatives");
        }
        _ => unreachable!("expected RPM info for el9"),
    }
}

#[test]
fn test_ubuntu_info() {
    let info = Distro::Ubuntu2204.info();
    match info {
        DistroInfo::Deb(deb) => {
            assert_eq!(deb.dpkg_version, "1.21.1");
            assert!(deb.supports_zstd);
        }
        _ => unreachable!("expected DEB info for ubuntu2204"),
    }
}

#[test]
fn test_compat_zstd_el8_ok() {
    let warnings = check_compatibility(&Distro::El8, "zstd", false, "rpm");
    assert!(
        warnings.is_empty(),
        "expected no warnings, got: {warnings:?}"
    );
}

#[test]
fn test_compat_format_mismatch_rpm_on_deb_distro() {
    let warnings = check_compatibility(&Distro::Ubuntu2204, "zstd", false, "rpm");
    assert_eq!(warnings.len(), 1);
    assert!(warnings[0].contains("DEB-based but format is 'rpm'"));
}

#[test]
fn test_compat_format_mismatch_deb_on_rpm_distro() {
    let warnings = check_compatibility(&Distro::El9, "gzip", false, "deb");
    assert_eq!(warnings.len(), 1);
    assert!(warnings[0].contains("RPM-based but format is 'deb'"));
}

#[test]
fn test_minimum_rpm_version_zstd_large() {
    let (ver, reason) = minimum_rpm_version("zstd", true, false);
    assert_eq!(ver, "4.14.0");
    assert!(reason.contains("zstd"));
    assert!(reason.contains("large"));
}

#[test]
fn test_minimum_rpm_version_gzip_only() {
    let (ver, _) = minimum_rpm_version("gzip", false, false);
    assert_eq!(ver, "4.6.0");
}

#[test]
fn test_minimum_rpm_version_xz_large() {
    let (ver, _) = minimum_rpm_version("xz", true, false);
    assert_eq!(ver, "4.12.0");
}

#[test]
fn test_minimum_dpkg_version_zstd() {
    let (ver, reason) = minimum_dpkg_version("zstd");
    assert_eq!(ver, "1.21.18");
    assert!(reason.contains("zstd"));
}

#[test]
fn test_minimum_dpkg_version_gzip() {
    let (ver, _) = minimum_dpkg_version("gzip");
    assert_eq!(ver, "1.0.0");
}
