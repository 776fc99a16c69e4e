use spm::config::{
    env_lookup, expand_config_text, CompressionConfig, Config, ConfigError, ContentConfig, ContentDefaults,
    DependencyConfig, PackageConfig, ScriptsConfig, SplittingConfig,
};
use spm::alternatives::{inject_alternatives, ResolvedScripts};
use spm::config::AlternativeConfig;
use spm::deb::reader::extract_control_file;
use spm::deb::DebError;
use spm::filetree::{check_glob_pattern, filter_glob_matches, FileTreeError};
use std::io::Write;

fn config_fixture() -> Config {
    Config {
        package: PackageConfig {
            name: "test".into(),
            version: "1.0".into(),
            release: "1".into(),
            arch: "x86_64".into(),
            license: "MIT".into(),
            maintainer: "test".into(),
            description: "test".into(),
            url: None,
            vendor: None,
            dependencies: DependencyConfig::default(),
        },
        content: ContentConfig {
            defaults: ContentDefaults::default(),
            files: vec![],
            symlinks: vec![],
            directories: vec![],
            alternatives: vec![],
        },
        scripts: ScriptsConfig::default(),
        compression: CompressionConfig::default(),
        splitting: SplittingConfig::default(),
        signing: None,
        rpm: None,
        deb: None,
        build: None,
    }
}

fn validation_message(r: Result<(), ConfigError>) -> String {
    match r {
        Err(ConfigError::Validation(m)) => m,
        other => panic!("expected a validation error, got {other:?}"),
    }
}

#[test]
fn test_reject_bad_compression() {
    let mut config = config_fixture();
    config.compression.algorithm = "brotli".into();
    assert!(validation_message(config.validate()).contains("unsupported compression"));
}

#[test]
fn test_reject_bad_strategy() {
    let mut config = config_fixture();
    config.splitting.strategy = "random".into();
    assert!(validation_message(config.validate()).contains("unsupported splitting strategy"));
}

#[test]
fn test_validate_missing_script_file() {
    let mut config = config_fixture();
    config.scripts.post_install = Some("nonexistent-script.sh".into());
    config.validate().expect("structural should pass");
    let exists: Vec<bool> =
        config.script_paths("/tmp").iter().map(|(_, p)| std::path::Path::new(p).exists()).collect();
    let msg = validation_message(config.validate_with_dir("/tmp", &exists));
    assert!(msg.contains("scripts.post_install"), "got: {msg}");
    assert!(msg.contains("does not exist"), "got: {msg}");
}

#[test]
fn test_resolve_scripts_with_alternatives_only() {
    let alt = AlternativeConfig {
        name: "matlab".to_string(),
        link: "/usr/bin/matlab".to_string(),
        path: "/opt/matlab/R2025a/bin/matlab".to_string(),
        priority: 2025,
        followers: vec![],
    };
    let resolved = inject_alternatives(ResolvedScripts::default(), &vec![alt]);
    assert!(resolved.pre_install.is_none());
    assert!(resolved.post_install.is_some());
    assert!(resolved.post_install.as_ref().unwrap().contains("--install"));
    assert!(resolved.pre_remove.is_some());
    assert!(resolved.pre_remove.as_ref().unwrap().contains("--remove"));
    assert!(resolved.post_remove.is_none());
}

#[test]
fn test_env_lookup_first_pair() {
    let env = vec![("A".to_string(), "1".to_string()), ("A".to_string(), "2".to_string())];
    assert_eq!(env_lookup(&env, "A"), Some("1".to_string()));
    assert_eq!(env_lookup(&env, "B"), None);
}

#[test]
fn test_expand_config_text_keeps_unknown() {
    let env = vec![("FOO".to_string(), "1".to_string()), ("BAR".to_string(), "2".to_string())];
    assert_eq!(expand_config_text("x=${FOO} y=$BAR z=${NOPE}", &env), "x=1 y=2 z=${NOPE}");
}

#[test]
fn test_filter_glob_matches_keeps_walk_order() {
    let walked = vec!["/a/x".to_string(), "/b/y".to_string(), "/a/d/z".to_string()];
    assert_eq!(filter_glob_matches("/a/**", &walked).unwrap(), vec!["/a/x".to_string(), "/a/d/z".to_string()]);
}

#[test]
fn test_filter_glob_matches_invalid_pattern() {
    match filter_glob_matches("/a/[**", &vec!["/a/x".to_string()]) {
        Err(FileTreeError::InvalidGlob { pattern, .. }) => assert_eq!(pattern, "/a/[**"),
        other => panic!("expected InvalidGlob, got {other:?}"),
    }
    assert!(check_glob_pattern("/a/**").is_ok());
}

fn control_tar(entries: &[(&str, &[u8])]) -> Vec<u8> {
    let mut builder = tar::Builder::new(Vec::new());
    for (name, data) in entries {
        let mut header = tar::Header::new_gnu();
        header.set_size(data.len() as u64);
        header.set_mode(0o644);
        header.set_cksum();
        builder.append_data(&mut header, name, *data).unwrap();
    }
    builder.into_inner().unwrap()
}

#[test]
fn test_extract_control_file_uncompressed() {
    let tar = control_tar(&[("./md5sums", b"x"), ("./control", b"Package: foo\n")]);
    assert_eq!(extract_control_file("control.tar", &tar).unwrap(), "Package: foo\n");
}

#[test]
fn test_extract_control_file_gzip() {
    let tar = control_tar(&[("control", b"Package: bar\n")]);
    let mut enc = flate2::write::GzEncoder::new(Vec::new(), flate2::Compression::default());
    enc.write_all(&tar).unwrap();
    let gz = enc.finish().unwrap();
    assert_eq!(extract_control_file("control.tar.gz", &gz).unwrap(), "Package: bar\n");
}

#[test]
fn test_extract_control_file_zstd() {
    let tar = control_tar(&[("./control", b"Package: baz\n")]);
    let z = zstd::stream::encode_all(&tar[..], 3).unwrap();
    assert_eq!(extract_control_file("control.tar.zst", &z).unwrap(), "Package: baz\n");
}

#[test]
fn test_extract_control_file_missing() {
    let tar = control_tar(&[("./postinst", b"#!/bin/sh\n")]);
    match extract_control_file("control.tar", &tar) {
        Err(DebError::InvalidDeb(m)) => assert_eq!(m, "no control file found in control.tar"),
        other => panic!("expected InvalidDeb, got {other:?}"),
    }
}

#[test]
fn test_fields_have_distinct_keys() {
    let ok = vec![("A".to_string(), "1".to_string()), ("B".to_string(), "2".to_string())];
    let dup = vec![("A".to_string(), "1".to_string()), ("A".to_string(), "2".to_string())];
    assert!(spm::config::fields_have_distinct_keys(&ok));
    assert!(!spm::config::fields_have_distinct_keys(&dup));
}
