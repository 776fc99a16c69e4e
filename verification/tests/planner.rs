use spm::planner::estimated_compressed_size;
use spm::alternatives::ResolvedScripts;
use spm::config::{
    CompressionConfig, Config, ConfigError, ContentConfig, ContentDefaults, DependencyConfig,
    PackageConfig, ScriptsConfig, SplitPart, SplittingConfig,
};
use spm::filetree::{EntryType, FileEntry};
use spm::planner::{
    count_files, fixup_hardlinks_across_parts, split_by_directory, split_by_size, HardlinkFamilies,
    PlanError, Planner, SubPackageRole,
};
use spm::types::FormatLimits;

/// Sizes of the tests' source files on disk: `/dev/null` is empty and
/// nothing else exists.
fn disk_size(p: &String) -> Option<u64> {
    if p == "/dev/null" {
        Some(0)
    } else {
        None
    }
}

/// The text a configuration error displays.
fn err_text(e: ConfigError) -> String {
    match e {
        ConfigError::Validation(m) => format!("validation error: {m}"),
        other => format!("{other:?}"),
    }
}

/// Create a minimal config for planner tests.
fn test_config(name: &str, strategy: &str) -> Config {
    Config {
        package: PackageConfig {
            name: name.to_string(),
            version: "1.0".to_string(),
            release: "1".to_string(),
            arch: "x86_64".to_string(),
            license: "MIT".to_string(),
            maintainer: "test".to_string(),
            description: "test".to_string(),
            url: None,
            vendor: None,
            dependencies: DependencyConfig::default(),
        },
        content: ContentConfig {
            defaults: ContentDefaults::default(),
            files: vec![],
            symlinks: vec![],
            directories: vec![],
            alternatives: vec![],
        },
        scripts: ScriptsConfig::default(),
        compression: CompressionConfig::default(),
        splitting: SplittingConfig {
            enabled: true,
            strategy: strategy.to_string(),
            max_size: None,
            parts: vec![],
        },
        signing: None,
        rpm: None,
        deb: None,
        build: None,
    }
}

/// Create a synthetic FileEntry for testing.
fn test_file(install_path: &str, size: u64) -> FileEntry {
    FileEntry {
        install_path: String::from(install_path),
        source_path: String::from("/dev/null"),
        entry_type: EntryType::RegularFile,
        size,
        mode: 0o644,
        user: "root".to_string(),
        group: "root".to_string(),
        is_config: false,
    }
}

fn test_dir(install_path: &str) -> FileEntry {
    FileEntry {
        install_path: String::from(install_path),
        source_path: String::new(),
        entry_type: EntryType::Directory,
        size: 0,
        mode: 0o755,
        user: "root".to_string(),
        group: "root".to_string(),
        is_config: false,
    }
}

#[test]
fn test_no_split_small_package() {
    let config = test_config("testpkg", "auto");
    let limits = FormatLimits::rpm();
    let files = vec![
        test_dir("/opt/testpkg"),
        test_file("/opt/testpkg/bin/hello", 1024),
        test_file("/opt/testpkg/lib/libfoo.so", 4096),
    ];

    let plan = Planner::plan_from_entries(&config, &limits, files, ResolvedScripts::default(), &disk_size)
        .unwrap();

    assert!(!plan.is_split);
    assert_eq!(plan.sub_packages.len(), 1);
    assert_eq!(plan.sub_packages[0].role, SubPackageRole::Standalone);
    assert_eq!(plan.total_size, 5120); // 1024 + 4096
}

#[test]
fn test_auto_split_deb_over_limit() {
    let config = test_config("bigpkg", "auto");
    let limits = FormatLimits::deb();

    // Create files that total ~30 GiB uncompressed.
    // With 0.35 ratio, compressed ~10.5 GiB > 9.3 GiB DEB limit.
    let file_size = 5 * 1024 * 1024 * 1024u64; // 5 GiB each
    let files = vec![
        test_file("/opt/bigpkg/data1.bin", file_size),
        test_file("/opt/bigpkg/data2.bin", file_size),
        test_file("/opt/bigpkg/data3.bin", file_size),
        test_file("/opt/bigpkg/data4.bin", file_size),
        test_file("/opt/bigpkg/data5.bin", file_size),
        test_file("/opt/bigpkg/data6.bin", file_size),
    ];

    let plan = Planner::plan_from_entries(&config, &limits, files, ResolvedScripts::default(), &disk_size)
        .unwrap();

    // DEB auto-split now defers to the builder for monitored streaming split.
    assert!(plan.deferred_split, "DEB over-limit should set deferred_split");
    assert_eq!(plan.sub_packages.len(), 1, "deferred split produces single SubPackage");
    assert_eq!(plan.sub_packages[0].role, SubPackageRole::Standalone);
    assert!(!plan.sub_packages[0].files.is_empty());
}

#[test]
fn test_size_based_split() {
    let mut config = test_config("sizepkg", "size");
    config.splitting.max_size = Some("100MiB".to_string());

    let limits = FormatLimits::rpm();
    let mib = 1024 * 1024u64;
    let files = vec![
        test_file("/opt/pkg/a.bin", 40 * mib),
        test_file("/opt/pkg/b.bin", 40 * mib),
        test_file("/opt/pkg/c.bin", 40 * mib),
        test_file("/opt/pkg/d.bin", 40 * mib),
    ];

    let plan = Planner::plan_from_entries(&config, &limits, files, ResolvedScripts::default(), &disk_size)
        .unwrap();

    assert!(plan.is_split);
    // 160 MiB / 100 MiB limit = 2 parts (a+b in part1, c+d in part2).
    let part_count = plan
        .sub_packages
        .iter()
        .filter(|sp| matches!(sp.role, SubPackageRole::Part(_)))
        .count();
    assert_eq!(part_count, 2);
}

#[test]
fn test_directory_based_split() {
    let mut config = test_config("dirpkg", "directory");
    config.splitting.parts = vec![
        SplitPart {
            name: "core".to_string(),
            paths: vec!["/opt/pkg/bin".to_string()],
        },
        SplitPart {
            name: "libs".to_string(),
            paths: vec!["/opt/pkg/lib".to_string()],
        },
    ];

    let limits = FormatLimits::rpm();
    let files = vec![
        test_file("/opt/pkg/bin/tool", 1024),
        test_file("/opt/pkg/lib/libfoo.so", 2048),
        test_file("/opt/pkg/share/docs.txt", 512),
    ];

    let plan = Planner::plan_from_entries(&config, &limits, files, ResolvedScripts::default(), &disk_size)
        .unwrap();

    assert!(plan.is_split);

    // Should have: meta + core part + libs part + remainder part = 4 total.
    let parts: Vec<_> = plan
        .sub_packages
        .iter()
        .filter(|sp| matches!(sp.role, SubPackageRole::Part(_)))
        .collect();
    assert_eq!(parts.len(), 3, "expected core + libs + remainder parts");
}

#[test]
fn test_extended_cpio_detection() {
    let config = test_config("largefile", "auto");
    let limits = FormatLimits::rpm();

    // File larger than 4 GiB.
    let files = vec![test_file(
        "/opt/pkg/huge.bin",
        0xFFFF_FFFF + 1, // Just over 4 GiB
    )];

    let plan = Planner::plan_from_entries(&config, &limits, files, ResolvedScripts::default(), &disk_size)
        .unwrap();

    assert!(plan.needs_extended_cpio);
}

#[test]
fn test_no_extended_cpio_when_all_small() {
    let config = test_config("smallpkg", "auto");
    let limits = FormatLimits::rpm();

    let files = vec![
        test_file("/opt/pkg/a.bin", 1024),
        test_file("/opt/pkg/b.bin", 2048),
    ];

    let plan = Planner::plan_from_entries(&config, &limits, files, ResolvedScripts::default(), &disk_size)
        .unwrap();

    assert!(!plan.needs_extended_cpio);
}

#[test]
fn test_extended_cpio_not_triggered_for_deb() {
    let config = test_config("debpkg", "auto");
    let limits = FormatLimits::deb();

    // DEB's max_file_size_standard is u64::MAX, so this should never trigger.
    let files = vec![test_file("/opt/pkg/huge.bin", 5 * 1024 * 1024 * 1024)];

    let plan = Planner::plan_from_entries(&config, &limits, files, ResolvedScripts::default(), &disk_size)
        .unwrap();

    assert!(!plan.needs_extended_cpio);
}

#[test]
fn test_splitting_disabled_within_limits() {
    let mut config = test_config("smallpkg", "auto");
    config.splitting.enabled = false;

    let limits = FormatLimits::rpm();
    let files = vec![test_file("/opt/pkg/hello", 1024)];

    let plan = Planner::plan_from_entries(&config, &limits, files, ResolvedScripts::default(), &disk_size)
        .unwrap();

    assert!(!plan.is_split);
    assert_eq!(plan.sub_packages[0].role, SubPackageRole::Standalone);
}

#[test]
fn test_splitting_disabled_exceeds_limits() {
    let mut config = test_config("hugepkg", "auto");
    config.splitting.enabled = false;

    let limits = FormatLimits::deb();

    // Create enough data that compressed estimate exceeds DEB limit.
    // 30 GiB * 0.35 = ~10.5 GiB > 9.3 GiB.
    let files = vec![test_file("/opt/pkg/huge.bin", 30 * 1024 * 1024 * 1024)];

    let result =
        Planner::plan_from_entries(&config, &limits, files, ResolvedScripts::default(), &disk_size);

    assert!(result.is_err());
    assert!(matches!(
        result.unwrap_err(),
        PlanError::ExceedsLimits { .. }
    ));
}

#[test]
fn test_total_size_calculation() {
    let config = test_config("testpkg", "auto");
    let limits = FormatLimits::rpm();
    let files = vec![
        test_file("/opt/pkg/a", 100),
        test_file("/opt/pkg/b", 200),
        test_file("/opt/pkg/c", 300),
        test_dir("/opt/pkg"),
    ];

    let plan = Planner::plan_from_entries(&config, &limits, files, ResolvedScripts::default(), &disk_size)
        .unwrap();

    assert_eq!(plan.total_size, 600);
}

#[test]
fn test_meta_package_has_scripts() {
    let mut config = test_config("splitpkg", "size");
    config.splitting.max_size = Some("50MiB".to_string());

    let limits = FormatLimits::rpm();
    let mib = 1024 * 1024u64;
    let files = vec![
        test_file("/opt/pkg/a.bin", 40 * mib),
        test_file("/opt/pkg/b.bin", 40 * mib),
    ];

    let scripts = ResolvedScripts {
        post_install: Some("echo installed".to_string()),
        ..Default::default()
    };

    let plan = Planner::plan_from_entries(&config, &limits, files, scripts, &disk_size).unwrap();

    assert!(plan.is_split);

    // Meta-package should have the scripts.
    let meta = plan
        .sub_packages
        .iter()
        .find(|sp| sp.role == SubPackageRole::Meta)
        .unwrap();
    assert!(meta.scripts.post_install.is_some());

    // Parts should have empty scripts.
    for sp in plan
        .sub_packages
        .iter()
        .filter(|sp| matches!(sp.role, SubPackageRole::Part(_)))
    {
        assert!(sp.scripts.post_install.is_none());
    }
}

#[test]
fn test_auto_split_deb_borderline() {
    // 25 GiB uncompressed × 0.35 = 8.75 GiB estimated.
    // Raw DEB limit is 9.999 GiB, but with 0.80 headroom the threshold is ~8.0 GiB.
    // 8.75 GiB > 8.0 GiB → should trigger deferred split.
    let config = test_config("borderline", "auto");
    let limits = FormatLimits::deb();

    let gib = 1024 * 1024 * 1024u64;
    let files = vec![
        test_file("/opt/pkg/data1.bin", 5 * gib),
        test_file("/opt/pkg/data2.bin", 5 * gib),
        test_file("/opt/pkg/data3.bin", 5 * gib),
        test_file("/opt/pkg/data4.bin", 5 * gib),
        test_file("/opt/pkg/data5.bin", 5 * gib),
    ];

    let plan = Planner::plan_from_entries(&config, &limits, files, ResolvedScripts::default(), &disk_size)
        .unwrap();

    // DEB borderline now defers to the builder.
    assert!(plan.deferred_split, "expected deferred_split for borderline DEB");
    assert_eq!(plan.sub_packages.len(), 1);
    assert_eq!(plan.sub_packages[0].role, SubPackageRole::Standalone);
}

#[test]
fn test_splitting_disabled_borderline_errors() {
    // With splitting disabled, a borderline package should error out.
    let mut config = test_config("borderline", "auto");
    config.splitting.enabled = false;

    let limits = FormatLimits::deb();
    let gib = 1024 * 1024 * 1024u64;
    // 25 GiB × 0.35 = 8.75 GiB > 8.0 GiB threshold
    let files = vec![test_file("/opt/pkg/huge.bin", 25 * gib)];

    let result =
        Planner::plan_from_entries(&config, &limits, files, ResolvedScripts::default(), &disk_size);

    assert!(result.is_err());
    assert!(matches!(
        result.unwrap_err(),
        PlanError::ExceedsLimits { .. }
    ));
}

#[test]
fn test_plan_warning_near_limit() {
    // A package that doesn't need splitting but is >60% of the limit.
    // 18 GiB × 0.35 = 6.3 GiB → 63% of 9.999 GiB → should warn.
    let config = test_config("nearlimit", "auto");
    let limits = FormatLimits::deb();

    let gib = 1024 * 1024 * 1024u64;
    let files = vec![
        test_file("/opt/pkg/data1.bin", 9 * gib),
        test_file("/opt/pkg/data2.bin", 9 * gib),
    ];

    let plan = Planner::plan_from_entries(&config, &limits, files, ResolvedScripts::default(), &disk_size)
        .unwrap();

    assert!(!plan.is_split, "should not split at 63%");
    assert!(
        plan.warnings.iter().any(|w| w.contains("consider enabling splitting")),
        "expected near-limit warning, got: {:?}",
        plan.warnings
    );
}

#[test]
fn test_no_warning_for_small_package() {
    // Small package should have no warnings.
    let config = test_config("smallpkg", "auto");
    let limits = FormatLimits::deb();

    let files = vec![test_file("/opt/pkg/small.bin", 1024)];

    let plan = Planner::plan_from_entries(&config, &limits, files, ResolvedScripts::default(), &disk_size)
        .unwrap();

    assert!(!plan.is_split);
    assert!(plan.warnings.is_empty(), "expected no warnings for small package");
}

#[test]
fn test_no_warning_for_rpm() {
    // RPM has no practical limit (u64::MAX), so no warnings should be generated.
    let config = test_config("rpmpkg", "auto");
    let limits = FormatLimits::rpm();

    let gib = 1024 * 1024 * 1024u64;
    let files = vec![test_file("/opt/pkg/data.bin", 20 * gib)];

    let plan = Planner::plan_from_entries(&config, &limits, files, ResolvedScripts::default(), &disk_size)
        .unwrap();

    assert!(plan.warnings.is_empty(), "expected no warnings for RPM");
}

#[test]
fn test_count_files() {
    let files = vec![
        test_dir("/opt/pkg"),
        test_file("/opt/pkg/a", 100),
        test_file("/opt/pkg/b", 200),
        FileEntry {
            install_path: String::from("/usr/bin/link"),
            source_path: String::new(),
            entry_type: EntryType::Symlink {
                target: String::from("/opt/pkg/a"),
            },
            size: 0,
            mode: 0o120777,
            user: "root".to_string(),
            group: "root".to_string(),
            is_config: false,
        },
    ];

    assert_eq!(count_files(&files), 3); // 2 regular + 1 symlink, no dirs
}

#[test]
fn test_split_by_size_directories_in_all_parts() {
    let mib = 1024 * 1024u64;
    // Sorted input: directories first, then files.
    let files = vec![
        test_dir("/opt"),
        test_dir("/opt/pkg"),
        test_dir("/opt/pkg/bin"),
        test_file("/opt/pkg/bin/a.bin", 50 * mib),
        test_file("/opt/pkg/bin/b.bin", 50 * mib),
        test_file("/opt/pkg/bin/c.bin", 50 * mib),
    ];

    let parts = split_by_size(files, 80 * mib, "testpkg");

    // Should split into at least 2 parts.
    assert!(parts.len() >= 2, "expected >= 2 parts, got {}", parts.len());

    // Every part should contain the directory entries for /opt, /opt/pkg, /opt/pkg/bin.
    for (i, (part_files, _)) in parts.iter().enumerate() {
        let dir_paths: Vec<&str> = part_files
            .iter()
            .filter(|e| matches!(e.entry_type, EntryType::Directory))
            .map(|e| e.install_path.as_str())
            .collect();
        assert!(
            dir_paths.contains(&"/opt"),
            "part {i} missing /opt directory"
        );
        assert!(
            dir_paths.contains(&"/opt/pkg"),
            "part {i} missing /opt/pkg directory"
        );
        assert!(
            dir_paths.contains(&"/opt/pkg/bin"),
            "part {i} missing /opt/pkg/bin directory"
        );
    }

    // Directories should come before files in each part.
    for (i, (part_files, _)) in parts.iter().enumerate() {
        let first_file_idx = part_files
            .iter()
            .position(|e| !matches!(e.entry_type, EntryType::Directory));
        let last_dir_idx = part_files
            .iter()
            .rposition(|e| matches!(e.entry_type, EntryType::Directory));
        if let (Some(first_file), Some(last_dir)) = (first_file_idx, last_dir_idx) {
            assert!(
                last_dir < first_file,
                "part {i}: directories should precede files"
            );
        }
    }
}

#[test]
fn test_hardlink_fixup_cross_part_promotion() {
    // When a hardlink's target is in a different part, it should be
    // promoted to a regular file.
    let mib = 1024 * 1024u64;
    let files = vec![
        test_dir("/opt"),
        test_dir("/opt/pkg"),
        test_file("/opt/pkg/original.bin", 50 * mib),
        // Extra file ensures part 2 is above the trailing merge threshold.
        test_file("/opt/pkg/data.bin", 30 * mib),
        FileEntry {
            install_path: String::from("/opt/pkg/link.bin"),
            source_path: String::from("/dev/null"), // exists on disk
            entry_type: EntryType::Hardlink {
                target: String::from("/opt/pkg/original.bin"),
            },
            size: 0,
            mode: 0o644,
            user: "root".to_string(),
            group: "root".to_string(),
            is_config: false,
        },
    ];

    // Split at 40 MiB. original (50 MiB) goes first (exceeds 40 but is first
    // file so no split yet). Then data (30 MiB): 50+30=80 > 40 && !empty → split.
    // Part 2: data (30 MiB) + link (0 bytes). 30 MiB is 75% of 40 MiB → not merged.
    // original is in part 1, link is in part 2 → cross-part.
    let mut parts = split_by_size(files, 40 * mib, "testpkg");
    assert!(parts.len() >= 2, "should have at least 2 parts");

    fixup_hardlinks_across_parts(&mut parts, &disk_size);

    // Link should now be a regular file.
    let link = parts
        .iter()
        .flat_map(|(f, _)| f)
        .find(|e| e.install_path == "/opt/pkg/link.bin")
        .unwrap();
    assert!(
        matches!(link.entry_type, EntryType::RegularFile),
        "cross-part hardlink should be promoted to RegularFile"
    );
}

#[test]
fn test_hardlink_fixup_same_part_preserved() {
    // When a hardlink's target is in the same part, it should stay as a hardlink.
    let mib = 1024 * 1024u64;
    let files = vec![
        test_dir("/opt"),
        test_dir("/opt/pkg"),
        test_file("/opt/pkg/original.bin", 10 * mib),
        FileEntry {
            install_path: String::from("/opt/pkg/link.bin"),
            source_path: String::from("/dev/null"),
            entry_type: EntryType::Hardlink {
                target: String::from("/opt/pkg/original.bin"),
            },
            size: 0,
            mode: 0o644,
            user: "root".to_string(),
            group: "root".to_string(),
            is_config: false,
        },
    ];

    // Large limit ensures both end up in the same part.
    let mut parts = split_by_size(files, 100 * mib, "testpkg");
    assert_eq!(parts.len(), 1, "should be a single part");

    fixup_hardlinks_across_parts(&mut parts, &disk_size);

    let link = parts
        .iter()
        .flat_map(|(f, _)| f)
        .find(|e| e.install_path == "/opt/pkg/link.bin")
        .unwrap();
    assert!(
        matches!(link.entry_type, EntryType::Hardlink { .. }),
        "same-part hardlink should stay as Hardlink"
    );
}

#[test]
fn test_file_distribution_across_size_split() {
    // Verify that no files are lost or duplicated across parts.
    let mib = 1024 * 1024u64;
    let files = vec![
        test_dir("/opt"),
        test_dir("/opt/pkg"),
        test_file("/opt/pkg/a.bin", 30 * mib),
        test_file("/opt/pkg/b.bin", 30 * mib),
        test_file("/opt/pkg/c.bin", 30 * mib),
        test_file("/opt/pkg/d.bin", 30 * mib),
        test_file("/opt/pkg/e.bin", 30 * mib),
    ];

    let original_non_dirs: Vec<String> = files
        .iter()
        .filter(|f| !matches!(f.entry_type, EntryType::Directory))
        .map(|f| f.install_path.clone())
        .collect();

    let parts = split_by_size(files, 50 * mib, "testpkg");

    // Collect all non-directory files across all parts.
    let mut distributed: Vec<String> = parts
        .iter()
        .flat_map(|(f, _)| f)
        .filter(|e| !matches!(e.entry_type, EntryType::Directory))
        .map(|e| e.install_path.clone())
        .collect();
    distributed.sort();
    let mut expected = original_non_dirs;
    expected.sort();

    assert_eq!(
        distributed, expected,
        "all non-directory files must appear exactly once across parts"
    );
}

#[test]
fn test_directory_split_ancestor_dirs_in_all_parts() {
    // Verify that directory-based split injects ancestor directories.
    let files = vec![
        test_dir("/opt"),
        test_dir("/opt/pkg"),
        test_dir("/opt/pkg/bin"),
        test_dir("/opt/pkg/lib"),
        test_dir("/opt/pkg/share"),
        test_file("/opt/pkg/bin/tool", 1024),
        test_file("/opt/pkg/lib/libfoo.so", 2048),
        test_file("/opt/pkg/share/docs.txt", 512),
    ];

    let parts_config = vec![
        SplitPart {
            name: "core".to_string(),
            paths: vec!["/opt/pkg/bin".to_string()],
        },
        SplitPart {
            name: "libs".to_string(),
            paths: vec!["/opt/pkg/lib".to_string()],
        },
    ];

    let parts = split_by_directory(files, &parts_config, "testpkg");

    // Should have 3 parts: core, libs, remainder.
    assert_eq!(parts.len(), 3, "expected core + libs + remainder");

    // Each part should have ancestor directories /opt and /opt/pkg.
    for (i, (part_files, _)) in parts.iter().enumerate() {
        let dir_paths: Vec<&str> = part_files
            .iter()
            .filter(|e| matches!(e.entry_type, EntryType::Directory))
            .map(|e| e.install_path.as_str())
            .collect();
        assert!(
            dir_paths.contains(&"/opt"),
            "part {i} missing /opt ancestor directory"
        );
        assert!(
            dir_paths.contains(&"/opt/pkg"),
            "part {i} missing /opt/pkg ancestor directory"
        );
    }

    // Core part should have /opt/pkg/bin directory.
    let core_dirs: Vec<&str> = parts[0]
        .0
        .iter()
        .filter(|e| matches!(e.entry_type, EntryType::Directory))
        .map(|e| e.install_path.as_str())
        .collect();
    assert!(core_dirs.contains(&"/opt/pkg/bin"));

    // Libs part should have /opt/pkg/lib directory.
    let libs_dirs: Vec<&str> = parts[1]
        .0
        .iter()
        .filter(|e| matches!(e.entry_type, EntryType::Directory))
        .map(|e| e.install_path.as_str())
        .collect();
    assert!(libs_dirs.contains(&"/opt/pkg/lib"));
}

#[test]
fn test_directory_split_empty_part_filtered() {
    // A configured part whose paths match no files should be filtered out.
    let files = vec![
        test_dir("/opt"),
        test_dir("/opt/pkg"),
        test_dir("/opt/pkg/bin"),
        test_file("/opt/pkg/bin/tool", 1024),
    ];

    let parts_config = vec![
        SplitPart {
            name: "core".to_string(),
            paths: vec!["/opt/pkg/bin".to_string()],
        },
        SplitPart {
            name: "empty".to_string(),
            paths: vec!["/opt/nonexistent".to_string()],
        },
    ];

    let parts = split_by_directory(files, &parts_config, "testpkg");

    // Empty part should be filtered out — only core part remains.
    assert_eq!(parts.len(), 1, "empty part should be filtered out");
    let has_tool = parts[0]
        .0
        .iter()
        .any(|e| e.install_path == "/opt/pkg/bin/tool");
    assert!(has_tool, "core part should contain the tool file");
}

#[test]
fn test_config_validates_size_strategy_requires_max_size() {
    let mut config = test_config("testpkg", "size");
    // max_size is None by default in test_config.
    assert!(config.splitting.max_size.is_none());
    let result = config.validate();
    assert!(result.is_err());
    let err = err_text(result.unwrap_err());
    assert!(
        err.contains("max_size is required"),
        "expected max_size required error, got: {err}"
    );

    // With max_size set, should pass.
    config.splitting.max_size = Some("1GiB".to_string());
    assert!(config.validate().is_ok());
}

#[test]
fn test_config_validates_directory_strategy_requires_parts() {
    let config = test_config("testpkg", "directory");
    // parts is empty by default in test_config.
    assert!(config.splitting.parts.is_empty());
    let result = config.validate();
    assert!(result.is_err());
    let err = err_text(result.unwrap_err());
    assert!(
        err.contains("parts must be non-empty"),
        "expected parts required error, got: {err}"
    );
}

#[test]
fn test_config_validates_max_size_format() {
    let mut config = test_config("testpkg", "auto");
    config.splitting.max_size = Some("invalid_size".to_string());
    let result = config.validate();
    assert!(result.is_err());
    let err = err_text(result.unwrap_err());
    assert!(
        err.contains("max_size") && err.contains("invalid"),
        "expected max_size format error, got: {err}"
    );
}

// --- Trailing runt merge tests ---

#[test]
fn test_split_by_size_merges_trailing_runt() {
    // With max_size_per_part = 100, two files of 99 each fill parts 1
    // and 2 just under the limit, and a 1-byte file would spill into a
    // would-be part 3. The merge logic should fold it back into part 2.
    let files = vec![
        test_dir("/opt"),
        test_dir("/opt/pkg"),
        test_file("/opt/pkg/a.bin", 99),
        test_file("/opt/pkg/b.bin", 99),
        test_file("/opt/pkg/tiny.txt", 1),
    ];

    let parts = split_by_size(files, 100, "testpkg");

    assert_eq!(
        parts.len(),
        2,
        "trailing runt part should be merged; got {} parts",
        parts.len()
    );

    // The tiny file should be in the last part.
    let last_non_dirs: Vec<&str> = parts
        .last()
        .unwrap()
        .0
        .iter()
        .filter(|e| !matches!(e.entry_type, EntryType::Directory))
        .map(|e| e.install_path.as_str())
        .collect();
    assert!(
        last_non_dirs
            .iter()
            .any(|p| p.ends_with("tiny.txt")),
        "tiny file should be in the last (merged) part"
    );
}

#[test]
fn test_split_by_size_keeps_large_last_part() {
    // When the last part is substantial (well above 2% threshold), it
    // should NOT be merged.
    let mib = 1024 * 1024u64;
    let files = vec![
        test_dir("/opt"),
        test_dir("/opt/pkg"),
        test_file("/opt/pkg/a.bin", 80 * mib),
        test_file("/opt/pkg/b.bin", 80 * mib),
        test_file("/opt/pkg/c.bin", 60 * mib),
    ];

    // max = 100 MiB. Part 1: a (80 MiB). Part 2: b (80 MiB). Part 3: c (60 MiB).
    // 60 MiB is 60% of 100 MiB — well above the 2% threshold.
    let parts = split_by_size(files, 100 * mib, "testpkg");

    assert_eq!(
        parts.len(),
        3,
        "large last part should NOT be merged; got {} parts",
        parts.len()
    );
}

#[test]
fn test_split_by_size_merge_preserves_all_files() {
    // Verify that merging the trailing part does not lose any files.
    let files = vec![
        test_dir("/opt"),
        test_dir("/opt/pkg"),
        test_file("/opt/pkg/a.bin", 90),
        test_file("/opt/pkg/b.bin", 90),
        test_file("/opt/pkg/c.bin", 1),
        test_file("/opt/pkg/d.bin", 1),
    ];

    let original_non_dirs: Vec<String> = files
        .iter()
        .filter(|f| !matches!(f.entry_type, EntryType::Directory))
        .map(|f| f.install_path.clone())
        .collect();

    let parts = split_by_size(files, 100, "testpkg");

    let mut distributed: Vec<String> = parts
        .iter()
        .flat_map(|(f, _)| f)
        .filter(|e| !matches!(e.entry_type, EntryType::Directory))
        .map(|e| e.install_path.clone())
        .collect();
    distributed.sort();
    let mut expected = original_non_dirs;
    expected.sort();

    assert_eq!(
        distributed, expected,
        "all files must be preserved after trailing merge"
    );
}

#[test]
fn test_auto_split_deb_defers_instead_of_splitting() {
    // Previously this tested the trailing runt merge for DEB.
    // Now DEB auto-split defers to the builder, so verify deferred_split is set
    // and all files are in a single SubPackage.
    let config = test_config("matlab", "auto");
    let limits = FormatLimits::deb();

    let gib = 1024 * 1024 * 1024u64;
    let chunk = 3 * gib;
    let files = vec![
        test_dir("/opt"),
        test_dir("/opt/matlab"),
        test_file("/opt/matlab/part_a1", chunk),
        test_file("/opt/matlab/part_a2", chunk),
        test_file("/opt/matlab/part_a3", chunk),
        test_file("/opt/matlab/part_a4", chunk),
        test_file("/opt/matlab/part_b1", chunk),
        test_file("/opt/matlab/part_b2", chunk),
        test_file("/opt/matlab/part_b3", chunk),
        test_file("/opt/matlab/part_b4", chunk),
        test_file("/opt/matlab/tiny_leftover.txt", 495),
    ];

    let plan = Planner::plan_from_entries(
        &config,
        &limits,
        files,
        ResolvedScripts::default(),
        &disk_size,
    )
    .unwrap();

    assert!(plan.deferred_split, "DEB auto-split should defer to builder");
    assert_eq!(plan.sub_packages.len(), 1);
    assert_eq!(plan.sub_packages[0].role, SubPackageRole::Standalone);

    // All files should be present in the single SubPackage.
    let has_tiny = plan.sub_packages[0]
        .files
        .iter()
        .any(|f| f.install_path.ends_with("tiny_leftover.txt"));
    assert!(has_tiny, "tiny file must not be lost");
}

// --- HardlinkFamilies tests ---

#[test]
fn test_hardlink_families_no_links() {
    let files = vec![test_file("/opt/a", 100), test_file("/opt/b", 200)];
    let families = HardlinkFamilies::scan(&files);
    assert!(families.is_empty());
    assert!(!families.is_link(0));
    assert!(!families.is_link(1));
    assert!(families.links_for_target("/opt/a").is_none());
}

#[test]
fn test_hardlink_families_basic() {
    let files = vec![
        test_file("/opt/target", 100),
        FileEntry {
            install_path: String::from("/opt/link1"),
            source_path: String::from("/src/target"),
            entry_type: EntryType::Hardlink {
                target: String::from("/opt/target"),
            },
            size: 0,
            mode: 0o644,
            user: "root".to_string(),
            group: "root".to_string(),
            is_config: false,
        },
        FileEntry {
            install_path: String::from("/opt/link2"),
            source_path: String::from("/src/target"),
            entry_type: EntryType::Hardlink {
                target: String::from("/opt/target"),
            },
            size: 0,
            mode: 0o644,
            user: "root".to_string(),
            group: "root".to_string(),
            is_config: false,
        },
    ];
    let families = HardlinkFamilies::scan(&files);
    assert!(!families.is_empty());
    assert!(!families.is_link(0)); // target is not a link
    assert!(families.is_link(1)); // link1 is a link
    assert!(families.is_link(2)); // link2 is a link

    let links = families
        .links_for_target("/opt/target")
        .unwrap();
    assert_eq!(links, &[1, 2]);
}

// --- Deferred split tests ---

#[test]
fn test_deferred_split_for_deb_auto() {
    // Create a config with auto-split enabled and large enough data to trigger it.
    let mut config = test_config("bigpkg", "auto");
    config.splitting.enabled = true;

    let limits = FormatLimits::deb();

    // Create files whose estimated compressed size exceeds the DEB limit.
    // DEB limit = 9_999_999_999, zstd ratio = 0.35, headroom = 0.80.
    // Threshold = 9_999_999_999 * 0.80 = 7_999_999_999.
    // Need estimated > threshold: total * 0.35 > 7_999_999_999
    // total > 22_857_142_854
    let files = vec![test_file("/opt/bigfile", 25_000_000_000)];
    let scripts = ResolvedScripts::default();

    let plan = Planner::plan_from_entries(&config, &limits, files, scripts, &disk_size).unwrap();
    assert!(plan.deferred_split, "DEB auto-split should set deferred_split");
    assert_eq!(plan.sub_packages.len(), 1, "should produce single SubPackage");
    assert_eq!(plan.sub_packages[0].role, SubPackageRole::Standalone);
    assert!(!plan.is_split, "is_split should be false (no Meta subpackage)");
}

#[test]
fn test_no_deferred_split_for_rpm_auto() {
    let mut config = test_config("bigpkg", "auto");
    config.splitting.enabled = true;

    let limits = FormatLimits::rpm();

    // RPM has u64::MAX limit, so even with huge files estimation-based split is used.
    // But RPM auto-split threshold is u64::MAX * 0.80 which is still enormous.
    // With RPM, auto-split should never trigger deferred_split.
    let files = vec![test_file("/opt/bigfile", 100)];
    let scripts = ResolvedScripts::default();

    let plan = Planner::plan_from_entries(&config, &limits, files, scripts, &disk_size).unwrap();
    assert!(!plan.deferred_split, "RPM should not set deferred_split");
}

#[test]
fn test_estimated_compressed_size() {
    assert_eq!(estimated_compressed_size(1000, "zstd"), 350);
    assert_eq!(estimated_compressed_size(1000, "gzip"), 400);
    assert_eq!(estimated_compressed_size(1000, "xz"), 300);
    assert_eq!(estimated_compressed_size(1000, "none"), 1000);
    assert_eq!(estimated_compressed_size(1000, "other"), 350);
    assert_eq!(estimated_compressed_size(0, "zstd"), 0);
}

#[test]
fn test_directory_split_keeps_every_file() {
    let files = vec![
        test_dir("/opt/app"),
        test_file("/opt/app/core/a", 10),
        test_file("/opt/app/tools/b", 20),
        test_file("/opt/app/other/c", 30),
        test_file("/opt/app/core/d", 40),
    ];
    let parts_config = vec![
        SplitPart { name: "core".into(), paths: vec!["/opt/app/core".into()] },
        SplitPart { name: "tools".into(), paths: vec!["/opt/app/tools".into()] },
    ];
    let parts = split_by_directory(files, &parts_config, "app");
    let mut names: Vec<String> = parts
        .iter()
        .flat_map(|(fs, _)| fs.iter())
        .filter(|f| !matches!(f.entry_type, EntryType::Directory))
        .map(|f| f.install_path.clone())
        .collect();
    names.sort();
    assert_eq!(names, vec!["/opt/app/core/a", "/opt/app/core/d", "/opt/app/other/c", "/opt/app/tools/b"]);
    assert_eq!(parts.len(), 3);
    assert_eq!(parts[0].1, 50);
    assert_eq!(parts[1].1, 20);
    assert_eq!(parts[2].1, 30);
}
