use spm::alternatives::ResolvedScripts;
use spm::config::{
    CompressionConfig, Config, ContentConfig, ContentDefaults, DependencyConfig, PackageConfig, ScriptsConfig,
    SplittingConfig,
};
use spm::deps::DepFormat;
use spm::filetree::{EntryType, FileEntry};
use spm::planner::{PackagePlan, SubPackage, SubPackageRole};
use spm::report::{dep_format_of, format_limits, package_file_name, plan_closing_lines, plan_summary_lines};

fn config(level: Option<i32>) -> Config {
    Config {
        package: PackageConfig {
            name: "tool".into(),
            version: "2.0".into(),
            release: "1".into(),
            arch: "x86_64".into(),
            license: "MIT".into(),
            maintainer: "M <m@x>".into(),
            description: "d".into(),
            url: None,
            vendor: None,
            dependencies: DependencyConfig::default(),
        },
        content: ContentConfig {
            defaults: ContentDefaults::default(),
            files: vec![],
            symlinks: vec![],
            directories: vec![],
            alternatives: vec![],
        },
        scripts: ScriptsConfig::default(),
        compression: CompressionConfig { algorithm: "zstd".into(), level, threads: None },
        splitting: SplittingConfig::default(),
        signing: None,
        rpm: None,
        deb: None,
        build: None,
    }
}

fn entry(path: &str, t: EntryType, size: u64) -> FileEntry {
    FileEntry {
        install_path: path.into(),
        source_path: String::new(),
        entry_type: t,
        size,
        mode: 0o644,
        user: "root".into(),
        group: "root".into(),
        is_config: false,
    }
}

fn sub(name: &str, role: SubPackageRole, files: Vec<FileEntry>, total: u64) -> SubPackage {
    SubPackage { name: name.into(), role, files, total_size: total, scripts: ResolvedScripts::default() }
}

fn plan(subs: Vec<SubPackage>, is_split: bool, total: u64, warnings: Vec<String>) -> PackagePlan {
    PackagePlan {
        name: "tool".into(),
        version: "2.0".into(),
        release: "1".into(),
        arch: "x86_64".into(),
        sub_packages: subs,
        is_split,
        needs_extended_cpio: false,
        total_size: total,
        warnings,
        deferred_split: false,
    }
}

#[test]
fn test_package_file_name_by_format() {
    let p = plan(vec![], false, 0, vec![]);
    assert_eq!(package_file_name("rpm", "tool", &p), "tool-2.0-1.x86_64.rpm");
    assert_eq!(package_file_name("deb", "tool", &p), "tool_2.0-1_amd64.deb");
    assert_eq!(format_limits("rpm").max_file_size_standard, 0xFFFF_FFFF);
    assert_eq!(format_limits("deb").max_compressed_payload, 9_999_999_999);
    assert_eq!(dep_format_of("rpm"), DepFormat::Rpm);
    assert_eq!(dep_format_of("deb"), DepFormat::Deb);
}

#[test]
fn test_plan_summary_standalone_rpm() {
    let files = vec![
        entry("/opt/tool", EntryType::Directory, 0),
        entry("/opt/tool/a", EntryType::RegularFile, 1000),
        entry("/opt/tool/b", EntryType::RegularFile, 1000),
    ];
    let p = plan(vec![sub("tool", SubPackageRole::Standalone, files, 2000)], false, 2000, vec![]);
    let lines = plan_summary_lines("rpm", &p, &config(Some(19)));
    assert_eq!(
        lines,
        vec![
            "Package: tool-2.0-1.x86_64.rpm",
            "  Files: 2",
            "  Uncompressed: 2.0 KiB",
            "  Estimated compressed (zstd -19): ~700 B",
            "",
            "  RPM payload format: 070701 (standard cpio)",
            "  Splitting: NOT REQUIRED (RPM supports packages > 4 GiB with rpm >= 4.6)",
            "  Minimum rpm version: 4.14.0 (zstd compression)",
        ]
    );
    assert_eq!(plan_closing_lines("rpm", &p), vec!["", "  Output: ./out/tool-2.0-1.x86_64.rpm"]);
}

#[test]
fn test_plan_summary_split_deb() {
    let meta = sub("tool", SubPackageRole::Meta, vec![], 0);
    let part = sub("tool-part1", SubPackageRole::Part(1), vec![entry("/opt/tool/a", EntryType::RegularFile, 5)], 5);
    let p = plan(vec![meta, part], true, 5, vec!["near the limit".into()]);
    let lines = plan_summary_lines("deb", &p, &config(None));
    assert_eq!(lines[0], "Package: tool_2.0-1_amd64.deb");
    assert_eq!(lines[3], "  Estimated compressed (zstd): ~1 B");
    assert_eq!(lines[5], "  Splitting: REQUIRED");
    assert_eq!(lines[6], "  Split plan:");
    assert_eq!(lines[7], "    tool_2.0-1_amd64.deb  (meta-package)");
    assert_eq!(lines[8], "    tool-part1_2.0-1_amd64.deb  (~5 B, 1 files)");
    assert_eq!(lines[9], "  Minimum dpkg version: 1.21.18 (zstd compression)");
    assert_eq!(
        plan_closing_lines("deb", &p),
        vec!["", "  Warning: near the limit", "", "  Output: ./out/tool_2.0-1_amd64.deb"]
    );
}
