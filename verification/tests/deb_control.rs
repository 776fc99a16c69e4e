use spm::alternatives::ResolvedScripts;
use spm::config::{
    CompressionConfig, Config, ContentConfig, ContentDefaults, DebOverrides, DependencyConfig,
    PackageConfig, ScriptsConfig, SplittingConfig,
};
use spm::deb::control::{deb_arch, generate_conffiles, generate_control, generate_md5sums};
use spm::deb::reader::parse_control_file;
use spm::filetree::{EntryType, FileEntry};
use spm::planner::{PackagePlan, SubPackage, SubPackageRole};

/// Helper to create a minimal Config for testing.
fn test_config() -> Config {
    Config {
        package: PackageConfig {
            name: "testpkg".to_string(),
            version: "1.0".to_string(),
            release: "1".to_string(),
            arch: "x86_64".to_string(),
            license: "MIT".to_string(),
            maintainer: "Test User <test@example.com>".to_string(),
            description: "A test package".to_string(),
            url: None,
            vendor: None,
            dependencies: DependencyConfig::default(),
        },
        content: ContentConfig {
            files: Vec::new(),
            symlinks: Vec::new(),
            directories: Vec::new(),
            alternatives: Vec::new(),
            defaults: ContentDefaults::default(),
        },
        scripts: ScriptsConfig::default(),
        compression: CompressionConfig::default(),
        splitting: SplittingConfig::default(),
        signing: None,
        rpm: None,
        deb: None,
        build: None,
    }
}

/// Helper to create a minimal SubPackage for testing.
fn test_sub_package(name: &str, role: SubPackageRole) -> SubPackage {
    SubPackage {
        name: name.to_string(),
        role,
        files: Vec::new(),
        total_size: 4096,
        scripts: ResolvedScripts::default(),
    }
}

/// Helper to create a minimal PackagePlan for testing.
fn test_plan() -> PackagePlan {
    PackagePlan {
        name: "testpkg".to_string(),
        version: "1.0".to_string(),
        release: "1".to_string(),
        arch: "x86_64".to_string(),
        sub_packages: Vec::new(),
        is_split: false,
        needs_extended_cpio: false,
        total_size: 4096,
        warnings: Vec::new(),
        deferred_split: false,
    }
}

#[test]
fn test_deb_arch_mapping() {
    assert_eq!(deb_arch("x86_64"), "amd64");
    assert_eq!(deb_arch("aarch64"), "arm64");
    assert_eq!(deb_arch("i686"), "i386");
    assert_eq!(deb_arch("armv7hl"), "armhf");
    assert_eq!(deb_arch("noarch"), "all");
    assert_eq!(deb_arch("all"), "all");
    assert_eq!(deb_arch("s390x"), "s390x");
}


#[test]
fn test_generate_control_minimal() {
    let config = test_config();
    let sub_pkg = test_sub_package("testpkg", SubPackageRole::Standalone);
    let plan = test_plan();

    let control = generate_control(&sub_pkg, &plan, &config, &vec![]);

    assert!(control.contains("Package: testpkg\n"));
    assert!(control.contains("Version: 1.0-1\n"));
    assert!(control.contains("Architecture: amd64\n"));
    assert!(control.contains("Maintainer: Test User <test@example.com>\n"));
    assert!(control.contains("Installed-Size: 4\n"));
    assert!(control.contains("Section: misc\n"));
    assert!(control.contains("Priority: optional\n"));
    assert!(control.contains("Description: A test package\n"));
    // No Depends line when empty
    assert!(!control.contains("Depends:"));
}


#[test]
fn test_generate_control_with_depends() {
    let mut config = test_config();
    config.package.dependencies.requires = vec!["libc6".to_string()];
    config.package.dependencies.requires_deb = vec!["libssl3".to_string()];
    let sub_pkg = test_sub_package("testpkg", SubPackageRole::Standalone);
    let plan = test_plan();

    let control = generate_control(&sub_pkg, &plan, &config, &vec![]);

    assert!(control.contains("Depends: libc6, libssl3\n"));
}


#[test]
fn test_generate_control_meta_package_with_extra_depends() {
    let config = test_config();
    let sub_pkg = test_sub_package("testpkg", SubPackageRole::Meta);
    let plan = test_plan();
    let extra = vec![
        "testpkg-part1 (= 1.0-1)".to_string(),
        "testpkg-part2 (= 1.0-1)".to_string(),
    ];

    let control = generate_control(&sub_pkg, &plan, &config, &extra);

    assert!(control.contains("Depends: testpkg-part1 (= 1.0-1), testpkg-part2 (= 1.0-1)\n"));
}


#[test]
fn test_generate_control_conflicts_provides_replaces() {
    let mut config = test_config();
    config.package.dependencies.conflicts = vec!["oldpkg".to_string()];
    config.package.dependencies.provides = vec!["vpkg".to_string()];
    config.package.dependencies.replaces = vec!["oldpkg".to_string()];
    let sub_pkg = test_sub_package("testpkg", SubPackageRole::Standalone);
    let plan = test_plan();

    let control = generate_control(&sub_pkg, &plan, &config, &vec![]);

    assert!(control.contains("Conflicts: oldpkg\n"));
    assert!(control.contains("Provides: vpkg\n"));
    assert!(control.contains("Replaces: oldpkg\n"));
}


#[test]
fn test_generate_control_section_priority_overrides() {
    let mut config = test_config();
    config.deb = Some(DebOverrides {
        section: Some("science".to_string()),
        priority: Some("extra".to_string()),
        fields: Vec::new(),
        compression: None,
    });
    let sub_pkg = test_sub_package("testpkg", SubPackageRole::Standalone);
    let plan = test_plan();

    let control = generate_control(&sub_pkg, &plan, &config, &vec![]);

    assert!(control.contains("Section: science\n"));
    assert!(control.contains("Priority: extra\n"));
}


#[test]
fn test_generate_control_homepage() {
    let mut config = test_config();
    config.package.url = Some("https://example.com".to_string());
    let sub_pkg = test_sub_package("testpkg", SubPackageRole::Standalone);
    let plan = test_plan();

    let control = generate_control(&sub_pkg, &plan, &config, &vec![]);

    assert!(control.contains("Homepage: https://example.com\n"));
}


#[test]
fn test_generate_control_extra_fields() {
    let mut config = test_config();
    let mut fields = Vec::new();
    fields.push(("Bugs".to_string(), "https://bugs.example.com".to_string()));
    config.deb = Some(DebOverrides {
        section: None,
        priority: None,
        fields,
        compression: None,
    });
    let sub_pkg = test_sub_package("testpkg", SubPackageRole::Standalone);
    let plan = test_plan();

    let control = generate_control(&sub_pkg, &plan, &config, &vec![]);

    assert!(control.contains("Bugs: https://bugs.example.com\n"));
}


#[test]
fn test_installed_size_kib_rounding() {
    let config = test_config();
    let plan = test_plan();

    // 1 byte → rounds up to 1 KiB
    let mut sub_pkg = test_sub_package("testpkg", SubPackageRole::Standalone);
    sub_pkg.total_size = 1;
    let control = generate_control(&sub_pkg, &plan, &config, &vec![]);
    assert!(control.contains("Installed-Size: 1\n"));

    // 1024 bytes → exactly 1 KiB
    sub_pkg.total_size = 1024;
    let control = generate_control(&sub_pkg, &plan, &config, &vec![]);
    assert!(control.contains("Installed-Size: 1\n"));

    // 1025 bytes → rounds up to 2 KiB
    sub_pkg.total_size = 1025;
    let control = generate_control(&sub_pkg, &plan, &config, &vec![]);
    assert!(control.contains("Installed-Size: 2\n"));

    // 0 bytes → 0 KiB
    sub_pkg.total_size = 0;
    let control = generate_control(&sub_pkg, &plan, &config, &vec![]);
    assert!(control.contains("Installed-Size: 0\n"));
}


#[test]
fn test_generate_conffiles_with_config_files() {
    let files = vec![
        FileEntry {
            install_path: String::from("/etc/myapp.conf"),
            source_path: String::from("/tmp/myapp.conf"),
            entry_type: EntryType::RegularFile,
            size: 100,
            mode: 0o644,
            user: "root".to_string(),
            group: "root".to_string(),
            is_config: true,
        },
        FileEntry {
            install_path: String::from("/usr/bin/myapp"),
            source_path: String::from("/tmp/myapp"),
            entry_type: EntryType::RegularFile,
            size: 1000,
            mode: 0o755,
            user: "root".to_string(),
            group: "root".to_string(),
            is_config: false,
        },
    ];

    let result = generate_conffiles(&files);
    assert_eq!(result, Some("/etc/myapp.conf\n".to_string()));
}


#[test]
fn test_generate_conffiles_no_config_files() {
    let files = vec![FileEntry {
        install_path: String::from("/usr/bin/myapp"),
        source_path: String::from("/tmp/myapp"),
        entry_type: EntryType::RegularFile,
        size: 1000,
        mode: 0o755,
        user: "root".to_string(),
        group: "root".to_string(),
        is_config: false,
    }];

    assert_eq!(generate_conffiles(&files), None);
}


#[test]
fn test_generate_conffiles_skips_directories() {
    let files = vec![FileEntry {
        install_path: String::from("/etc/myapp.d"),
        source_path: String::new(),
        entry_type: EntryType::Directory,
        size: 0,
        mode: 0o755,
        user: "root".to_string(),
        group: "root".to_string(),
        is_config: true,
    }];

    assert_eq!(generate_conffiles(&files), None);
}


#[test]
fn test_generate_md5sums_skips_non_regular_files() {
    let files = vec![
        FileEntry {
            install_path: String::from("/usr/lib/dir"),
            source_path: String::new(),
            entry_type: EntryType::Directory,
            size: 0,
            mode: 0o755,
            user: "root".to_string(),
            group: "root".to_string(),
            is_config: false,
        },
        FileEntry {
            install_path: String::from("/usr/lib/link"),
            source_path: String::new(),
            entry_type: EntryType::Symlink {
                target: String::from("/usr/lib/real"),
            },
            size: 0,
            mode: 0o777,
            user: "root".to_string(),
            group: "root".to_string(),
            is_config: false,
        },
    ];

    let md5sums = generate_md5sums(&files, &vec![]);
    assert_eq!(md5sums, "");
}


#[test]
fn test_control_ends_with_newline() {
    let config = test_config();
    let sub_pkg = test_sub_package("testpkg", SubPackageRole::Standalone);
    let plan = test_plan();

    let control = generate_control(&sub_pkg, &plan, &config, &vec![]);
    assert!(control.ends_with('\n'));
}

#[test]
fn test_generated_control_reads_back() {
    let mut config = test_config();
    config.package.dependencies.requires = vec!["libc6".into(), "zlib1g (>= 1.2)".into()];
    config.package.url = Some("https://example.com".into());
    let sub_pkg = test_sub_package("testpkg", SubPackageRole::Standalone);
    let plan = test_plan();
    let control = generate_control(&sub_pkg, &plan, &config, &vec![]);
    let meta = parse_control_file(&control);
    let expected: Vec<(String, String)> = vec![
        ("Package".into(), "testpkg".into()),
        ("Version".into(), "1.0-1".into()),
        ("Architecture".into(), "amd64".into()),
        ("Maintainer".into(), "Test User <test@example.com>".into()),
        ("Installed-Size".into(), "4".into()),
        ("Section".into(), "misc".into()),
        ("Priority".into(), "optional".into()),
        ("Depends".into(), "libc6, zlib1g (>= 1.2)".into()),
        ("Homepage".into(), "https://example.com".into()),
        ("Description".into(), "A test package".into()),
    ];
    assert_eq!(meta.fields, expected);
}
