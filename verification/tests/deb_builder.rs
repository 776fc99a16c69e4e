use spm::alternatives::ResolvedScripts;
use spm::compress::Algorithm;
use spm::config::{
    BuildConfig, CompressionConfig, Config, ContentConfig, ContentDefaults, DebOverrides,
    DependencyConfig, PackageConfig, ScriptsConfig, SplittingConfig,
};
use spm::deb::builder::{
    control_members, dot_path_exec, make_compressor_config, member_suffix, meta_extra_depends,
    resolve_algorithm, resolve_mtime, tar_entry_path, tar_link_target,
};
use spm::deb::DebError;
use spm::filetree::{EntryType, FileEntry};
use spm::planner::{PackagePlan, SubPackage, SubPackageRole};
use std::time::SystemTime;

fn test_config() -> Config {
    Config {
        package: PackageConfig {
            name: "testpkg".to_string(),
            version: "1.0".to_string(),
            release: "1".to_string(),
            arch: "x86_64".to_string(),
            license: "MIT".to_string(),
            maintainer: "Test <test@example.com>".to_string(),
            description: "A test package".to_string(),
            url: None,
            vendor: None,
            dependencies: DependencyConfig::default(),
        },
        content: ContentConfig {
            files: Vec::new(),
            symlinks: Vec::new(),
            directories: Vec::new(),
            alternatives: Vec::new(),
            defaults: ContentDefaults::default(),
        },
        scripts: ScriptsConfig::default(),
        compression: CompressionConfig::default(),
        splitting: SplittingConfig::default(),
        signing: None,
        rpm: None,
        deb: None,
        build: None,
    }
}

fn test_plan() -> PackagePlan {
    PackagePlan {
        name: "testpkg".to_string(),
        version: "1.0".to_string(),
        release: "1".to_string(),
        arch: "x86_64".to_string(),
        sub_packages: Vec::new(),
        is_split: false,
        needs_extended_cpio: false,
        total_size: 0,
        warnings: Vec::new(),
        deferred_split: false,
    }
}

fn test_sub_package(name: &str, role: SubPackageRole) -> SubPackage {
    SubPackage {
        name: name.to_string(),
        role,
        files: Vec::new(),
        total_size: 0,
        scripts: ResolvedScripts::default(),
    }
}

fn entry(path: &str, entry_type: EntryType) -> FileEntry {
    FileEntry {
        install_path: path.to_string(),
        source_path: String::new(),
        entry_type,
        size: 0,
        mode: 0o644,
        user: "root".to_string(),
        group: "root".to_string(),
        is_config: false,
    }
}

#[test]
fn test_resolve_mtime_with_epoch() {
    let mut config = test_config();
    config.build = Some(BuildConfig {
        source_date_epoch: Some("1700000000".to_string()),
    });
    assert_eq!(resolve_mtime(&config), 1700000000);
}

#[test]
fn test_resolve_mtime_without_epoch() {
    let config = test_config();
    let mtime = resolve_mtime(&config);
    let now = SystemTime::now()
        .duration_since(SystemTime::UNIX_EPOCH)
        .unwrap()
        .as_secs();
    assert!((now - mtime) < 10);
}

#[test]
fn test_resolve_mtime_bad_epoch_uses_clock() {
    let mut config = test_config();
    config.build = Some(BuildConfig {
        source_date_epoch: Some("soon".to_string()),
    });
    let mtime = resolve_mtime(&config);
    assert!(mtime > 1_600_000_000);
}

#[test]
fn test_resolve_algorithm_default() {
    let config = test_config();
    let algo = resolve_algorithm(&config).unwrap();
    assert_eq!(algo, Algorithm::Zstd);
}

#[test]
fn test_resolve_algorithm_deb_override() {
    let mut config = test_config();
    config.deb = Some(DebOverrides {
        section: None,
        priority: None,
        fields: Vec::new(),
        compression: Some("gzip".to_string()),
    });
    let algo = resolve_algorithm(&config).unwrap();
    assert_eq!(algo, Algorithm::Gzip);
}

#[test]
fn test_resolve_algorithm_unknown() {
    let mut config = test_config();
    config.compression.algorithm = "brotli".to_string();
    match resolve_algorithm(&config) {
        Err(DebError::Compress(spm::compress::CompressError::Unsupported(n))) => {
            assert_eq!(n, "brotli")
        }
        other => panic!("unexpected: {other:?}"),
    }
}

#[test]
fn test_compressor_config_and_suffix() {
    let mut config = test_config();
    config.compression.level = Some(3);
    config.compression.threads = Some(4);
    let c = make_compressor_config(&Algorithm::Xz, &config);
    assert_eq!(c.algorithm, Algorithm::Xz);
    assert_eq!(c.level, Some(3));
    assert_eq!(c.threads, 4);
    assert_eq!(member_suffix(&Algorithm::Zstd), ".zst");
    assert_eq!(member_suffix(&Algorithm::Gzip), ".gz");
    assert_eq!(member_suffix(&Algorithm::Uncompressed), "");
}

#[test]
fn test_tar_names() {
    assert_eq!(dot_path_exec("/usr/bin/x"), "./usr/bin/x");
    assert_eq!(dot_path_exec("rel"), "./rel");
    assert_eq!(tar_entry_path(&entry("/opt/app", EntryType::Directory)), "./opt/app/");
    assert_eq!(tar_entry_path(&entry("/opt/app/", EntryType::Directory)), "./opt/app/");
    assert_eq!(tar_entry_path(&entry("/opt/app/f", EntryType::RegularFile)), "./opt/app/f");
    let link = entry("/l", EntryType::Hardlink { target: "/opt/app/f".to_string() });
    assert_eq!(tar_link_target(&link).as_deref(), Some("./opt/app/f"));
    let sym = entry("/s", EntryType::Symlink { target: "../f".to_string() });
    assert_eq!(tar_link_target(&sym).as_deref(), Some("../f"));
    assert!(tar_link_target(&entry("/f", EntryType::RegularFile)).is_none());
}

#[test]
fn test_meta_package_depends_on_parts() {
    let mut plan = test_plan();
    plan.sub_packages.push(test_sub_package("testpkg", SubPackageRole::Meta));
    plan.sub_packages.push(test_sub_package("testpkg-part1", SubPackageRole::Part(1)));
    plan.sub_packages.push(test_sub_package("testpkg-part2", SubPackageRole::Part(2)));
    let meta = test_sub_package("testpkg", SubPackageRole::Meta);
    assert_eq!(
        meta_extra_depends(&meta, &plan),
        vec!["testpkg-part1 (= 1.0-1)", "testpkg-part2 (= 1.0-1)"]
    );
    let part = test_sub_package("testpkg-part1", SubPackageRole::Part(1));
    assert!(meta_extra_depends(&part, &plan).is_empty());
}

#[test]
fn test_control_members_order() {
    let config = test_config();
    let plan = test_plan();
    let mut sub = test_sub_package("testpkg", SubPackageRole::Standalone);
    let mut conf = entry("/etc/app.conf", EntryType::RegularFile);
    conf.is_config = true;
    sub.files = vec![conf, entry("/opt/d", EntryType::Directory)];
    sub.scripts.post_install = Some("echo hi".to_string());
    let members = control_members(&sub, &plan, &config, &vec![], &vec!["abc".to_string()]);
    let names: Vec<&str> = members.iter().map(|m| m.name.as_str()).collect();
    assert_eq!(names, vec!["./control", "./md5sums", "./conffiles", "./postinst"]);
    assert_eq!(members[1].data, "abc  etc/app.conf\n");
    assert_eq!(members[2].data, "/etc/app.conf\n");
    assert_eq!(members[3].mode, 0o755);
    assert_eq!(members[0].mode, 0o644);
    assert!(members[0].data.starts_with("Package: testpkg\n"));
}

#[test]
fn test_control_members_without_files() {
    let config = test_config();
    let plan = test_plan();
    let sub = test_sub_package("testpkg", SubPackageRole::Standalone);
    let members = control_members(&sub, &plan, &config, &vec![], &vec![]);
    assert_eq!(members.len(), 1);
    assert_eq!(members[0].name, "./control");
}
