use spm::compress::Algorithm;
use spm::config::{
    CompressionConfig, Config, ContentConfig, ContentDefaults, DependencyConfig, PackageConfig,
    ScriptsConfig, SplittingConfig,
};
use spm::filetree::{EntryType, FileEntry};
use spm::planner::{PackagePlan, SubPackage, SubPackageRole};
use spm::alternatives::ResolvedScripts;
use spm::rpm::builder::{build_inode_map, build_metadata_header};
use spm::rpm::header::HeaderBuilder;
use spm::rpm::reader::{
    check_lead_magic, extract_i32, extract_i64, extract_string, extract_string_array, extract_tag_value,
    header_section_sizes, metadata_from_tags, parse_header_section, read_nul_string,
    signature_padding, ParsedTagValue, RpmMetadata,
};
use spm::rpm::RpmError;

fn parse(bytes: &[u8]) -> Vec<(u32, ParsedTagValue)> {
    let (n, d) = header_section_sizes(&bytes[0..16]).unwrap();
    let n = n as usize;
    let d = d as usize;
    let index = bytes[16..16 + n * 16].to_vec();
    let data = bytes[16 + n * 16..16 + n * 16 + d].to_vec();
    parse_header_section(&index, &data, n)
}

fn test_config() -> Config {
    Config {
        package: PackageConfig {
            name: "testpkg".into(),
            version: "1.0".into(),
            release: "1".into(),
            arch: "x86_64".into(),
            license: "MIT".into(),
            maintainer: "Test <test@test.com>".into(),
            description: "A test package".into(),
            url: None,
            vendor: None,
            dependencies: DependencyConfig::default(),
        },
        content: ContentConfig {
            defaults: ContentDefaults::default(),
            files: vec![],
            symlinks: vec![],
            directories: vec![],
            alternatives: vec![],
        },
        scripts: ScriptsConfig::default(),
        compression: CompressionConfig::default(),
        splitting: SplittingConfig::default(),
        signing: None,
        rpm: None,
        deb: None,
        build: None,
    }
}

fn built_metadata(config: &Config, files: Vec<FileEntry>) -> RpmMetadata {
    let total: u64 = files.iter().map(|f| f.size).sum();
    let plan = PackagePlan {
        name: config.package.name.clone(),
        version: config.package.version.clone(),
        release: config.package.release.clone(),
        arch: config.package.arch.clone(),
        sub_packages: vec![],
        is_split: false,
        needs_extended_cpio: false,
        total_size: total,
        warnings: vec![],
        deferred_split: false,
    };
    let n = files.len();
    let sub = SubPackage {
        name: config.package.name.clone(),
        role: SubPackageRole::Standalone,
        files,
        total_size: total,
        scripts: ResolvedScripts::default(),
    };
    let inode_map = build_inode_map(&sub.files);
    let bytes = build_metadata_header(
        &sub,
        &plan,
        config,
        &vec![String::new(); n],
        &Algorithm::Zstd,
        None,
        &inode_map,
        "host",
        &vec![None; n],
    )
    .unwrap();
    metadata_from_tags(&parse(&bytes))
}

fn file(path: &str, size: u64) -> FileEntry {
    FileEntry {
        install_path: path.into(),
        source_path: String::new(),
        entry_type: EntryType::RegularFile,
        size,
        mode: 0o644,
        user: "root".into(),
        group: "root".into(),
        is_config: false,
    }
}

#[test]
fn test_read_invalid_magic() {
    let result = check_lead_magic(b"not ");
    match result {
        Err(RpmError::InvalidRpm(m)) => assert!(m.contains("bad magic"), "error was: {m}"),
        other => panic!("unexpected: {other:?}"),
    }
    assert!(check_lead_magic(&[0xED, 0xAB, 0xEE, 0xDB]).is_ok());
}

#[test]
fn test_header_preamble_checks() {
    let mut p = vec![0x8E, 0xAD, 0xE8, 0x01, 0, 0, 0, 0, 0, 0, 0, 3, 0, 0, 0, 40];
    assert_eq!(header_section_sizes(&p).unwrap(), (3, 40));
    p[8] = 0x7F;
    match header_section_sizes(&p) {
        Err(RpmError::InvalidRpm(m)) => {
            assert_eq!(m, "header index_count 2130706435 exceeds maximum 100000")
        }
        other => panic!("unexpected: {other:?}"),
    }
    p[0] = 0;
    match header_section_sizes(&p) {
        Err(RpmError::InvalidRpm(m)) => assert_eq!(m, "invalid header magic"),
        other => panic!("unexpected: {other:?}"),
    }
}

#[test]
fn test_signature_padding() {
    assert_eq!(signature_padding(0), 0);
    assert_eq!(signature_padding(5), 3);
    assert_eq!(signature_padding(8), 0);
}

#[test]
fn test_read_nul_string_and_values() {
    let data = vec![b'a', b'b', 0, b'c', 0, 0xFF, 0, 0, 1, 0, 2];
    assert_eq!(read_nul_string(&data, 0).as_deref(), Some("ab"));
    assert_eq!(read_nul_string(&data, 3).as_deref(), Some("c"));
    assert_eq!(read_nul_string(&data, 5), None);
    assert_eq!(read_nul_string(&data, 11), None);
    match extract_tag_value(8, 0, 2, &data) {
        Some(ParsedTagValue::StringArray(v)) => assert_eq!(v, vec!["ab", "c"]),
        other => panic!("unexpected: {other:?}"),
    }
    match extract_tag_value(3, 7, 2, &data) {
        Some(ParsedTagValue::Int16(v)) => assert_eq!(v, vec![1, 2]),
        other => panic!("unexpected: {other:?}"),
    }
    assert!(extract_tag_value(4, 8, 1, &data).is_none());
    assert!(extract_tag_value(42, 0, 1, &data).is_none());
}

#[test]
fn test_roundtrip_header_values() {
    let mut hdr = HeaderBuilder::new();
    hdr.add_string(1000, "pkg");
    hdr.add_int32(1009, vec![7, -1]);
    hdr.add_string_array(1049, vec!["a".into(), "bc".into()]);
    hdr.add_region_tag(63);
    let tags = parse(&hdr.build().unwrap());
    assert_eq!(tags.len(), 4);
    assert_eq!(extract_string(&tags, 1000).as_deref(), Some("pkg"));
    assert_eq!(extract_i32(&tags, 1009), Some(7));
    assert_eq!(extract_string_array(&tags, 1049).unwrap(), vec!["a", "bc"]);
    assert_eq!(extract_string(&tags, 1049).as_deref(), Some("a"));
    assert!(extract_string(&tags, 999).is_none());
}

#[test]
fn test_roundtrip_all_value_kinds() {
    let mut hdr = HeaderBuilder::new();
    hdr.add_i18n_string(1004, "summary");
    hdr.add_int64(5009, vec![5_000_000_000, -3]);
    hdr.add_bin(1004 + 1000, vec![1, 2, 3]);
    hdr.add_string(1000, "name");
    hdr.add_region_tag(63);
    let tags = parse(&hdr.build().unwrap());
    assert_eq!(extract_string(&tags, 1004).as_deref(), Some("summary"));
    assert_eq!(extract_i64(&tags, 5009), Some(5_000_000_000));
    assert_eq!(extract_string(&tags, 1000).as_deref(), Some("name"));
    let bin = tags.iter().find(|(t, _)| *t == 2004).map(|(_, v)| v.clone());
    match bin {
        Some(ParsedTagValue::Bin(b)) => assert_eq!(b, vec![1, 2, 3]),
        other => panic!("unexpected {other:?}"),
    }
}

#[test]
fn test_roundtrip_minimal() {
    let meta = built_metadata(&test_config(), vec![file("/opt/testpkg/hello.txt", 11)]);
    assert_eq!(meta.name, "testpkg");
    assert_eq!(meta.version, "1.0");
    assert_eq!(meta.release, "1");
    assert_eq!(meta.arch, "x86_64");
    assert_eq!(meta.license, "MIT");
}

#[test]
fn test_roundtrip_with_vendor() {
    let mut config = test_config();
    config.package.vendor = Some("TestVendor Inc.".into());
    let meta = built_metadata(&config, vec![]);
    assert_eq!(meta.vendor.as_deref(), Some("TestVendor Inc."));
}

#[test]
fn test_roundtrip_with_url() {
    let mut config = test_config();
    config.package.url = Some("https://example.com".into());
    let meta = built_metadata(&config, vec![]);
    assert_eq!(meta.url.as_deref(), Some("https://example.com"));
}

#[test]
fn test_roundtrip_file_count() {
    let meta = built_metadata(
        &test_config(),
        vec![file("/opt/testpkg/file1", 5), file("/opt/testpkg/file2", 5)],
    );
    assert_eq!(meta.file_count, 2);
}

#[test]
fn test_roundtrip_requires() {
    let mut config = test_config();
    config.package.dependencies.requires = vec!["libfoo >= 1.0".into()];
    let meta = built_metadata(&config, vec![]);
    assert!(
        meta.requirements.iter().any(|r| r == "libfoo"),
        "requires: {:?}",
        meta.requirements
    );
}

#[test]
fn test_roundtrip_compressor() {
    let meta = built_metadata(&test_config(), vec![]);
    assert_eq!(meta.compressor.as_deref(), Some("zstd"));
}

#[test]
fn test_roundtrip_description() {
    let meta = built_metadata(&test_config(), vec![]);
    assert_eq!(meta.description, "A test package");
}

#[test]
fn test_roundtrip_size() {
    let meta = built_metadata(&test_config(), vec![file("/opt/testpkg/data.bin", 4096)]);
    assert_eq!(meta.size, 4096);
}
