use spm::rpm::builder::{entry_data, needs_file_digest, EntryData};
use spm::alternatives::ResolvedScripts;
use spm::compress::Algorithm;
use spm::config::{
    AlternativeConfig, BuildConfig, CompressionConfig, Config, ContentConfig, ContentDefaults,
    DependencyConfig, PackageConfig, ScriptsConfig, SplittingConfig,
};
use spm::cpio::CpioFormat;
use spm::distro::Distro;
use spm::filetree::{EntryType, FileEntry};
use spm::planner::{PackagePlan, SubPackage, SubPackageRole};
use spm::rpm::builder::{
    add_dependencies, add_file_metadata, add_package_metadata, add_package_metadata_at,
    add_scripts, build_inode_map, build_metadata_header, clamp_timestamp, decompose_paths,
    file_entry_to_cpio_metadata, file_mode_with_type, group_by_dir, make_cpio_name,
    parse_dependency,
};
use spm::rpm::header::HeaderBuilder;
use spm::rpm::tags::{
    RPMFILE_CONFIG, RPMFILE_NOREPLACE, RPMSENSE_ANY, RPMSENSE_EQUAL, RPMSENSE_GREATER,
    RPMSENSE_LESS,
};
use spm::rpm::RpmError;

fn entry(path: &str, entry_type: EntryType, size: u64, mode: u32) -> FileEntry {
    FileEntry {
        install_path: path.to_string(),
        source_path: String::new(),
        entry_type,
        size,
        mode,
        user: "root".into(),
        group: "root".into(),
        is_config: false,
    }
}

fn make_file_entry(path: &str) -> FileEntry {
    entry(path, EntryType::RegularFile, 0, 0o644)
}

fn make_test_config() -> Config {
    Config {
        package: PackageConfig {
            name: "testpkg".into(),
            version: "1.0".into(),
            release: "1".into(),
            arch: "x86_64".into(),
            license: "MIT".into(),
            maintainer: "Test <test@test.com>".into(),
            description: "Test package".into(),
            url: None,
            vendor: None,
            dependencies: DependencyConfig::default(),
        },
        content: ContentConfig {
            defaults: ContentDefaults::default(),
            files: vec![],
            symlinks: vec![],
            directories: vec![],
            alternatives: vec![],
        },
        scripts: ScriptsConfig::default(),
        compression: CompressionConfig::default(),
        splitting: SplittingConfig::default(),
        signing: None,
        rpm: None,
        deb: None,
        build: None,
    }
}

fn make_standalone_sub_pkg() -> SubPackage {
    SubPackage {
        name: "testpkg".into(),
        role: SubPackageRole::Standalone,
        files: vec![],
        total_size: 0,
        scripts: ResolvedScripts::default(),
    }
}

fn make_standalone_plan() -> PackagePlan {
    PackagePlan {
        name: "testpkg".into(),
        version: "1.0".into(),
        release: "1".into(),
        arch: "x86_64".into(),
        sub_packages: vec![],
        is_split: false,
        needs_extended_cpio: false,
        total_size: 0,
        warnings: vec![],
        deferred_split: false,
    }
}

fn editor_alternative() -> AlternativeConfig {
    AlternativeConfig {
        name: "editor".into(),
        link: "/usr/bin/editor".into(),
        path: "/opt/app/bin/editor".into(),
        priority: 100,
        followers: vec![],
    }
}

fn header_text(hdr: HeaderBuilder) -> String {
    let bytes = hdr.build().unwrap();
    String::from_utf8_lossy(&bytes).into_owned()
}

#[test]
fn test_decompose_paths_basic() {
    let files = vec![
        make_file_entry("/opt/app/bin/tool"),
        make_file_entry("/opt/app/lib/libfoo.so"),
    ];

    let (basenames, dirnames, dirindexes) = decompose_paths(&files);

    assert_eq!(basenames, vec!["tool", "libfoo.so"]);
    assert!(dirnames.contains(&"/opt/app/bin/".to_string()));
    assert!(dirnames.contains(&"/opt/app/lib/".to_string()));
    assert_eq!(dirindexes.len(), 2);
}

#[test]
fn test_decompose_paths_shared_dir() {
    let files = vec![
        make_file_entry("/opt/app/file1"),
        make_file_entry("/opt/app/file2"),
    ];

    let (basenames, dirnames, dirindexes) = decompose_paths(&files);

    assert_eq!(basenames, vec!["file1", "file2"]);
    assert_eq!(dirnames, vec!["/opt/app/"]);
    assert_eq!(dirindexes, vec![0, 0]);
}

#[test]
fn test_decompose_paths_order_and_root() {
    let files = vec![
        make_file_entry("/b/x"),
        make_file_entry("/a/y"),
        make_file_entry("/b/z"),
        make_file_entry("/top"),
    ];
    let (basenames, dirnames, dirindexes) = decompose_paths(&files);
    assert_eq!(basenames, vec!["x", "y", "z", "top"]);
    assert_eq!(dirnames, vec!["/b/", "/a/", "/"]);
    assert_eq!(dirindexes, vec![0, 1, 0, 2]);
}

#[test]
fn test_group_by_dir_first_seen() {
    let pairs = vec![
        ("/d1/".to_string(), "a".to_string()),
        ("/d2/".to_string(), "b".to_string()),
        ("/d1/".to_string(), "c".to_string()),
    ];
    let (bases, dirs, idx) = group_by_dir(&pairs);
    assert_eq!(bases, vec!["a", "b", "c"]);
    assert_eq!(dirs, vec!["/d1/", "/d2/"]);
    assert_eq!(idx, vec![0, 1, 0]);
}

#[test]
fn test_file_mode_with_type_regular() {
    let e = entry("/test", EntryType::RegularFile, 0, 0o755);
    assert_eq!(file_mode_with_type(&e), 0o100755);
}

#[test]
fn test_file_mode_with_type_directory() {
    let e = entry("/test", EntryType::Directory, 0, 0o755);
    assert_eq!(file_mode_with_type(&e), 0o040755);
}

#[test]
fn test_file_mode_with_type_symlink() {
    let e = entry(
        "/test",
        EntryType::Symlink {
            target: "/other".to_string(),
        },
        0,
        0o777,
    );
    assert_eq!(file_mode_with_type(&e), 0o120777);
}

#[test]
fn test_file_mode_strips_type_bits() {
    let e = entry("/test", EntryType::Directory, 0, 0o100644);
    assert_eq!(file_mode_with_type(&e), 0o040644);
}

#[test]
fn test_make_cpio_name_newc() {
    let name = make_cpio_name("/opt/app/bin/tool", CpioFormat::Newc);
    assert_eq!(name, "./opt/app/bin/tool");
}

#[test]
fn test_make_cpio_name_extended() {
    let name = make_cpio_name("/opt/app/bin/tool", CpioFormat::Extended);
    assert_eq!(name, "/opt/app/bin/tool");
}

#[test]
fn test_make_cpio_name_relative() {
    assert_eq!(make_cpio_name("opt/x", CpioFormat::Newc), "./opt/x");
}

#[test]
fn test_parse_dependency_with_version() {
    let (name, version, flags) = parse_dependency("libfoo >= 1.0");
    assert_eq!(name, "libfoo");
    assert_eq!(version, "1.0");
    assert_eq!(flags, (RPMSENSE_GREATER | RPMSENSE_EQUAL) as i32);
}

#[test]
fn test_parse_dependency_no_version() {
    let (name, version, flags) = parse_dependency("libfoo");
    assert_eq!(name, "libfoo");
    assert_eq!(version, "");
    assert_eq!(flags, RPMSENSE_ANY as i32);
}

#[test]
fn test_parse_dependency_operators() {
    assert_eq!(parse_dependency("a <= 1").2, (RPMSENSE_LESS | RPMSENSE_EQUAL) as i32);
    assert_eq!(parse_dependency("a < 1").2, RPMSENSE_LESS as i32);
    assert_eq!(parse_dependency("a > 1").2, RPMSENSE_GREATER as i32);
    assert_eq!(parse_dependency("a = 1").2, RPMSENSE_EQUAL as i32);
    assert_eq!(parse_dependency("a == 1").2, RPMSENSE_EQUAL as i32);
    assert_eq!(parse_dependency("a ~ 1").2, RPMSENSE_ANY as i32);
    let (n, v, f) = parse_dependency("a b");
    assert_eq!((n.as_str(), v.as_str(), f), ("a b", "", 0));
    let (n, v, _) = parse_dependency("a >= 1.0 extra");
    assert_eq!((n.as_str(), v.as_str()), ("a", "1.0 extra"));
}

#[test]
fn test_config_file_flags() {
    let mut e = entry("/etc/app.conf", EntryType::RegularFile, 100, 0o644);
    e.is_config = true;

    let flags = if e.is_config {
        (RPMFILE_CONFIG | RPMFILE_NOREPLACE) as i32
    } else {
        0
    };
    assert_eq!(flags, 0x81);
}

#[test]
fn test_clamp_timestamp() {
    assert_eq!(clamp_timestamp(0), 0);
    assert_eq!(clamp_timestamp(1_700_000_000), 1_700_000_000);
    assert_eq!(clamp_timestamp(i32::MAX as u64 + 1), i32::MAX);
}

#[test]
fn test_vendor_tag_emitted() {
    let mut config = make_test_config();
    config.package.vendor = Some("TestVendor Inc.".into());

    let mut hdr = HeaderBuilder::new();
    let plan = make_standalone_plan();
    let sub_pkg = make_standalone_sub_pkg();
    add_package_metadata(&mut hdr, &plan, &sub_pkg, &config, &Algorithm::Zstd, "localhost")
        .unwrap();

    let data_str = header_text(hdr);
    assert!(data_str.contains("TestVendor Inc."));
}

#[test]
fn test_vendor_tag_not_emitted_when_none() {
    let config = make_test_config();

    let mut hdr = HeaderBuilder::new();
    let plan = make_standalone_plan();
    let sub_pkg = make_standalone_sub_pkg();
    add_package_metadata(&mut hdr, &plan, &sub_pkg, &config, &Algorithm::Zstd, "localhost")
        .unwrap();

    let data_str = header_text(hdr);
    assert!(!data_str.contains("TestVendor"));
}

#[test]
fn test_package_metadata_fixed_time() {
    let mut config = make_test_config();
    config.compression.level = Some(19);
    let mut hdr = HeaderBuilder::new();
    add_package_metadata_at(
        &mut hdr,
        &make_standalone_plan(),
        &make_standalone_sub_pkg(),
        &config,
        &Algorithm::Xz,
        1_700_000_000,
        "buildhost",
    );
    assert_eq!(hdr.entry_count(), 21);
    let text = header_text(hdr);
    assert!(text.contains("buildhost"));
    assert!(text.contains("Unspecified"));
    assert!(text.contains("19"));
    assert!(text.contains("xz"));
}

#[test]
fn test_package_metadata_source_date_epoch() {
    let mut config = make_test_config();
    config.build = Some(BuildConfig {
        source_date_epoch: Some("1234567890".into()),
    });
    let mut a = HeaderBuilder::new();
    let mut b = HeaderBuilder::new();
    let plan = make_standalone_plan();
    let sub = make_standalone_sub_pkg();
    add_package_metadata_at(&mut a, &plan, &sub, &config, &Algorithm::Zstd, 5, "h");
    add_package_metadata_at(&mut b, &plan, &sub, &config, &Algorithm::Zstd, 99, "h");
    assert_eq!(a.build().unwrap(), b.build().unwrap());
}

#[test]
fn test_pretrans_posttrans_emitted() {
    let scripts = ResolvedScripts {
        pre_install: None,
        post_install: None,
        pre_remove: None,
        post_remove: None,
        pre_trans: Some("echo pretrans".into()),
        post_trans: Some("echo posttrans".into()),
    };

    let mut hdr = HeaderBuilder::new();
    add_scripts(&mut hdr, &scripts).unwrap();
    assert_eq!(hdr.entry_count(), 4);

    let data_str = header_text(hdr);
    assert!(data_str.contains("echo pretrans"));
    assert!(data_str.contains("echo posttrans"));
    assert!(data_str.contains("/bin/sh"));
}

#[test]
fn test_conflicts_emitted() {
    let mut config = make_test_config();
    config.package.dependencies.conflicts = vec!["otherpkg >= 2.0".into()];

    let mut hdr = HeaderBuilder::new();
    let sub_pkg = make_standalone_sub_pkg();
    let plan = make_standalone_plan();
    add_dependencies(&mut hdr, &config, &Algorithm::Zstd, None, &sub_pkg, &plan).unwrap();

    let data_str = header_text(hdr);
    assert!(data_str.contains("otherpkg"));
}

#[test]
fn test_obsoletes_emitted() {
    let mut config = make_test_config();
    config.package.dependencies.replaces = vec!["oldpkg < 1.0".into()];

    let mut hdr = HeaderBuilder::new();
    let sub_pkg = make_standalone_sub_pkg();
    let plan = make_standalone_plan();
    add_dependencies(&mut hdr, &config, &Algorithm::Zstd, None, &sub_pkg, &plan).unwrap();

    let data_str = header_text(hdr);
    assert!(data_str.contains("oldpkg"));
}

#[test]
fn test_alternatives_dep_el8() {
    let mut config = make_test_config();
    config.content.alternatives = vec![editor_alternative()];

    let mut hdr = HeaderBuilder::new();
    let sub_pkg = make_standalone_sub_pkg();
    let plan = make_standalone_plan();
    add_dependencies(
        &mut hdr,
        &config,
        &Algorithm::Zstd,
        Some(&Distro::El8),
        &sub_pkg,
        &plan,
    )
    .unwrap();

    let data_str = header_text(hdr);
    assert!(data_str.contains("chkconfig"));
}

#[test]
fn test_alternatives_dep_el9() {
    let mut config = make_test_config();
    config.content.alternatives = vec![editor_alternative()];

    let mut hdr = HeaderBuilder::new();
    let sub_pkg = make_standalone_sub_pkg();
    let plan = make_standalone_plan();
    add_dependencies(
        &mut hdr,
        &config,
        &Algorithm::Zstd,
        Some(&Distro::El9),
        &sub_pkg,
        &plan,
    )
    .unwrap();

    let data_str = header_text(hdr);
    assert!(data_str.contains("alternatives"));
}

#[test]
fn test_alternatives_dep_default() {
    let mut config = make_test_config();
    config.content.alternatives = vec![editor_alternative()];

    let mut hdr = HeaderBuilder::new();
    let sub_pkg = make_standalone_sub_pkg();
    let plan = make_standalone_plan();
    add_dependencies(&mut hdr, &config, &Algorithm::Zstd, None, &sub_pkg, &plan).unwrap();

    let data_str = header_text(hdr);
    assert!(data_str.contains("/usr/sbin/alternatives"));
}

#[test]
fn test_no_alternatives_no_dep() {
    let config = make_test_config();

    let mut hdr = HeaderBuilder::new();
    let sub_pkg = make_standalone_sub_pkg();
    let plan = make_standalone_plan();
    add_dependencies(&mut hdr, &config, &Algorithm::Zstd, None, &sub_pkg, &plan).unwrap();

    let data_str = header_text(hdr);
    assert!(!data_str.contains("/usr/sbin/alternatives"));
    assert!(!data_str.contains("chkconfig"));
}

#[test]
fn test_meta_package_requires_parts() {
    let config = make_test_config();
    let mut plan = make_standalone_plan();
    for (i, name) in ["testpkg-part1", "testpkg-part2"].iter().enumerate() {
        plan.sub_packages.push(SubPackage {
            name: name.to_string(),
            role: SubPackageRole::Part(i as u32 + 1),
            files: vec![],
            total_size: 0,
            scripts: ResolvedScripts::default(),
        });
    }
    let mut meta = make_standalone_sub_pkg();
    meta.role = SubPackageRole::Meta;
    let mut hdr = HeaderBuilder::new();
    add_dependencies(&mut hdr, &config, &Algorithm::Gzip, None, &meta, &plan).unwrap();
    // requires (3 tags) and provides (3 tags)
    assert_eq!(hdr.entry_count(), 6);
    let text = header_text(hdr);
    assert!(text.contains("testpkg-part1"));
    assert!(text.contains("testpkg-part2"));
    assert!(text.contains("1.0-1"));
    assert!(!text.contains("PayloadIsZstd"));
}

#[test]
fn test_file_size_i32_overflow_rejected() {
    let big_file = entry("/opt/app/bigfile.bin", EntryType::RegularFile, i32::MAX as u64 + 1, 0o644);

    let mut hdr = HeaderBuilder::new();
    let files = vec![big_file];
    let inode_map = build_inode_map(&files);
    let digests = vec!["d41d8cd98f00b204e9800998ecf8427e".to_owned()];

    let result = add_file_metadata(&mut hdr, &files, false, &digests, &inode_map, &vec![None]);
    assert!(result.is_err(), "should reject file > 2 GiB in non-extended mode");
    match result.unwrap_err() {
        RpmError::Header(msg) => {
            assert!(msg.contains("2 GiB"), "error should mention 2 GiB limit: {msg}");
            assert_eq!(
                msg,
                "file '/opt/app/bigfile.bin' is 2147483648 bytes, exceeding the 2 GiB FILESIZES tag limit; use extended CPIO format for packages with files > 2 GiB"
            );
        }
        other => panic!("unexpected error: {other:?}"),
    }
}

#[test]
fn test_file_size_i64_accepted_in_extended_mode() {
    let big_file = entry("/opt/app/bigfile.bin", EntryType::RegularFile, i32::MAX as u64 + 1, 0o644);

    let mut hdr = HeaderBuilder::new();
    let files = vec![big_file];
    let inode_map = build_inode_map(&files);
    let digests = vec!["d41d8cd98f00b204e9800998ecf8427e".to_owned()];

    let result = add_file_metadata(&mut hdr, &files, true, &digests, &inode_map, &vec![Some(5)]);
    assert!(result.is_ok(), "extended mode should accept files > 2 GiB");
    assert_eq!(hdr.entry_count(), 19);
}

#[test]
fn test_inode_map_hardlink_groups() {
    let files = vec![
        entry("/a/orig", EntryType::RegularFile, 10, 0o644),
        entry("/a/dir", EntryType::Directory, 0, 0o755),
        entry("/a/l1", EntryType::Hardlink { target: "/a/orig".into() }, 0, 0o644),
        entry("/a/l2", EntryType::Hardlink { target: "/a//orig".into() }, 10, 0o644),
        entry("/b/o1", EntryType::Hardlink { target: "/missing".into() }, 0, 0o644),
        entry("/b/o2", EntryType::Hardlink { target: "/missing".into() }, 5, 0o644),
        entry("/b/p1", EntryType::Hardlink { target: "/other".into() }, 5, 0o644),
    ];
    let m = build_inode_map(&files);
    assert_eq!(m.inodes[0], 1);
    assert_eq!(m.inodes[1], 2);
    assert_eq!(m.inodes[2], 1);
    assert_eq!(m.inodes[3], 1);
    assert_eq!(m.nlinks[0], 3);
    assert_eq!(m.nlinks[1], 1);
    assert_eq!(m.nlinks[2], 3);
    assert_eq!(m.nlinks[3], 3);
    assert_eq!(m.inodes[4], m.inodes[5]);
    assert!(m.inodes[4] > 2 && m.inodes[6] > 2);
    assert_ne!(m.inodes[4], m.inodes[6]);
    assert_eq!(m.nlinks[4], 2);
    assert_eq!(m.nlinks[6], 1);
}

#[test]
fn test_cpio_metadata_of_symlink() {
    let e = entry("/l", EntryType::Symlink { target: "/tärget".into() }, 0, 0o777);
    let md = file_entry_to_cpio_metadata(&e, 7, 1);
    assert_eq!(md.ino, 7);
    assert_eq!(md.mode, 0o120777);
    assert_eq!(md.filesize, 8);
    assert_eq!(md.nlink, 1);
    assert_eq!(md.mtime, 0);
}

#[test]
fn test_build_metadata_header_roundtrip_shape() {
    let config = make_test_config();
    let plan = make_standalone_plan();
    let mut sub = make_standalone_sub_pkg();
    sub.files = vec![make_file_entry("/opt/app/file1")];
    let inode_map = build_inode_map(&sub.files);
    let bytes = build_metadata_header(
        &sub,
        &plan,
        &config,
        &vec![String::new()],
        &Algorithm::Zstd,
        None,
        &inode_map,
        "host",
        &vec![None],
    )
    .unwrap();
    assert_eq!(&bytes[0..4], &[0x8E, 0xAD, 0xE8, 0x01]);
    let text = String::from_utf8_lossy(&bytes).into_owned();
    assert!(text.contains("file1"));
    assert!(text.contains("/opt/app/"));
}

#[test]
fn test_needs_file_digest() {
    let mk = |t: EntryType, src: &str, size: u64| FileEntry {
        install_path: "/opt/x".into(),
        source_path: src.into(),
        entry_type: t,
        size,
        mode: 0o644,
        user: "root".into(),
        group: "root".into(),
        is_config: false,
    };
    assert!(needs_file_digest(&mk(EntryType::RegularFile, "/src/x", 3)));
    assert!(!needs_file_digest(&mk(EntryType::RegularFile, "", 3)));
    assert!(needs_file_digest(&mk(EntryType::Hardlink { target: "/opt/y".into() }, "/src/x", 3)));
    assert!(!needs_file_digest(&mk(EntryType::Hardlink { target: "/opt/y".into() }, "/src/x", 0)));
    assert!(!needs_file_digest(&mk(EntryType::Directory, "/src", 0)));
    assert!(!needs_file_digest(&mk(EntryType::Symlink { target: "t".into() }, "", 0)));
}

#[test]
fn test_entry_data_sources() {
    let mk = |t: EntryType| FileEntry {
        install_path: "/x".to_string(),
        source_path: "/src/x".to_string(),
        entry_type: t,
        size: 3,
        mode: 0o644,
        user: "root".to_string(),
        group: "root".to_string(),
        is_config: false,
    };
    assert_eq!(entry_data(&mk(EntryType::RegularFile), 3), EntryData::SourceFile);
    assert_eq!(entry_data(&mk(EntryType::Directory), 0), EntryData::Nothing);
    assert_eq!(
        entry_data(&mk(EntryType::Symlink { target: "t".to_string() }), 1),
        EntryData::LinkTarget("t".to_string())
    );
    assert_eq!(entry_data(&mk(EntryType::Hardlink { target: "/y".to_string() }), 0), EntryData::Nothing);
    assert_eq!(entry_data(&mk(EntryType::Hardlink { target: "/y".to_string() }), 3), EntryData::SourceFile);
}
