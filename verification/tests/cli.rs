use spm::config::{
    CompressionConfig, Config, ContentConfig, ContentDefaults, DependencyConfig, PackageConfig, ScriptsConfig,
    SplittingConfig,
};
use spm::cli::{format_file_count, parse_target_distro, resolve_formats};
use spm::distro::Distro;

#[test]
fn test_format_file_count_groups() {
    assert_eq!(format_file_count(0), "0");
    assert_eq!(format_file_count(999), "999");
    assert_eq!(format_file_count(1000), "1,000");
    assert_eq!(format_file_count(1234567), "1,234,567");
    assert_eq!(format_file_count(100000), "100,000");
}

#[test]
fn test_resolve_formats() {
    assert_eq!(resolve_formats("all").unwrap(), vec!["rpm", "deb"]);
    assert_eq!(resolve_formats("rpm").unwrap(), vec!["rpm"]);
    assert_eq!(resolve_formats("deb").unwrap(), vec!["deb"]);
    assert_eq!(
        resolve_formats("zip").unwrap_err(),
        "unsupported format 'zip', expected 'rpm', 'deb', or 'all'"
    );
}

#[test]
fn test_parse_target_distro() {
    assert_eq!(parse_target_distro(None).unwrap(), None);
    assert_eq!(parse_target_distro(Some("el9")).unwrap(), Some(Distro::El9));
    assert_eq!(parse_target_distro(Some("rhel8")).unwrap(), Some(Distro::El8));
    assert_eq!(
        parse_target_distro(Some("arch")).unwrap_err(),
        "unknown target distro 'arch'; expected one of: el8, el9, ubuntu2004, ubuntu2204, ubuntu2404, fedora"
    );
}

fn base_config() -> Config {
    Config {
        package: PackageConfig {
            name: "pkg".into(),
            version: "1.0".into(),
            release: "1".into(),
            arch: "x86_64".into(),
            license: "MIT".into(),
            maintainer: "M <m@x>".into(),
            description: "d".into(),
            url: None,
            vendor: None,
            dependencies: DependencyConfig::default(),
        },
        content: ContentConfig {
            defaults: ContentDefaults::default(),
            files: vec![],
            symlinks: vec![],
            directories: vec![],
            alternatives: vec![],
        },
        scripts: ScriptsConfig::default(),
        compression: CompressionConfig::default(),
        splitting: SplittingConfig::default(),
        signing: None,
        rpm: None,
        deb: None,
        build: None,
    }
}

#[test]
fn test_apply_overrides_sets_fields() {
    let mut c = base_config();
    spm::cli::apply_overrides(&mut c, true, Some("1700000000".into()), Some("xz"), Some(9), Some(4)).unwrap();
    assert!(!c.splitting.enabled);
    assert_eq!(c.build.unwrap().source_date_epoch.as_deref(), Some("1700000000"));
    assert_eq!(c.compression.algorithm, "xz");
    assert_eq!(c.compression.level, Some(9));
    assert_eq!(c.compression.threads, Some(4));
}

#[test]
fn test_apply_overrides_keeps_unset_fields() {
    let mut c = base_config();
    spm::cli::apply_overrides(&mut c, false, None, None, None, None).unwrap();
    assert!(c.splitting.enabled);
    assert!(c.build.is_none());
    assert_eq!(c.compression.algorithm, "zstd");
    assert_eq!(c.compression.level, None);
}

#[test]
fn test_apply_overrides_rejects_unknown_algorithm() {
    let mut c = base_config();
    let err = spm::cli::apply_overrides(&mut c, false, None, Some("lz4"), None, None).unwrap_err();
    assert_eq!(err, "unsupported compression algorithm 'lz4'; expected 'zstd', 'gzip', 'xz', or 'none'");
}
