use spm::compress::Algorithm;
use spm::deb::reader::control_member_algorithm_exec;
use spm::deb::reader::parse_control_file;

#[test]
fn test_parse_control_basic() {
    let content = "Package: testpkg\nVersion: 1.0\nArchitecture: amd64\n";
    let meta = parse_control_file(content);

    assert_eq!(meta.get("Package"), Some("testpkg"));
    assert_eq!(meta.get("Version"), Some("1.0"));
    assert_eq!(meta.get("Architecture"), Some("amd64"));
}


#[test]
fn test_parse_control_continuation() {
    let content =
        "Package: testpkg\nDescription: Short desc\n Long description\n continues here\n";
    let meta = parse_control_file(content);

    let desc = meta.get("Description").unwrap();
    assert!(desc.contains("Short desc"));
    assert!(desc.contains("Long description"));
    assert!(desc.contains("continues here"));
}


#[test]
fn test_parse_control_empty_value() {
    let content = "Package: testpkg\nDepends:\nVersion: 1.0\n";
    let meta = parse_control_file(content);

    assert_eq!(meta.get("Depends"), Some(""));
    assert_eq!(meta.get("Version"), Some("1.0"));
}

fn ar_header(name: &str, size: &str, magic: &[u8; 2]) -> Vec<u8> {
    let mut h = vec![b' '; 60];
    h[..name.len()].copy_from_slice(name.as_bytes());
    h[48..48 + size.len()].copy_from_slice(size.as_bytes());
    h[58] = magic[0];
    h[59] = magic[1];
    h
}

#[test]
fn test_check_ar_magic() {
    assert!(spm::deb::reader::check_ar_magic(b"!<arch>\n").is_ok());
    match spm::deb::reader::check_ar_magic(b"!<arch>x") {
        Err(spm::deb::DebError::InvalidDeb(m)) => assert_eq!(m, "not a DEB file (bad ar magic)"),
        other => panic!("unexpected {other:?}"),
    }
}

#[test]
fn test_parse_ar_member_header() {
    let h = ar_header("control.tar.zst/", "1234", b"`\n");
    let (name, size) = spm::deb::reader::parse_ar_member_header(&h).unwrap();
    assert_eq!(name, "control.tar.zst");
    assert_eq!(size, 1234);
    assert!(spm::deb::reader::is_control_member_exec(&name));
    assert!(!spm::deb::reader::is_control_member_exec("data.tar.zst"));
    assert!(!spm::deb::reader::is_control_member_exec("control"));
}

#[test]
fn test_parse_ar_member_header_errors() {
    match spm::deb::reader::parse_ar_member_header(&ar_header("x", "1", b"ab")) {
        Err(spm::deb::DebError::InvalidDeb(m)) => assert_eq!(m, "invalid ar member header magic"),
        other => panic!("unexpected {other:?}"),
    }
    match spm::deb::reader::parse_ar_member_header(&ar_header("x", "12a", b"`\n")) {
        Err(spm::deb::DebError::InvalidDeb(m)) => assert_eq!(m, "invalid ar member size: '12a'"),
        other => panic!("unexpected {other:?}"),
    }
    let mut h = ar_header("x", "1", b"`\n");
    h[0] = 0xFF;
    match spm::deb::reader::parse_ar_member_header(&h) {
        Err(spm::deb::DebError::InvalidDeb(m)) => assert_eq!(m, "non-UTF8 ar member name"),
        other => panic!("unexpected {other:?}"),
    }
}

#[test]
fn test_ar_member_skip_pads_odd_sizes() {
    assert_eq!(spm::deb::reader::ar_member_skip(10), 10);
    assert_eq!(spm::deb::reader::ar_member_skip(11), 12);
}

#[test]
fn test_control_member_algorithm() {
    assert_eq!(control_member_algorithm_exec("control.tar.zst"), Algorithm::Zstd);
    assert_eq!(control_member_algorithm_exec("control.tar.gz"), Algorithm::Gzip);
    assert_eq!(control_member_algorithm_exec("control.tar.xz"), Algorithm::Xz);
    assert_eq!(control_member_algorithm_exec("control.tar"), Algorithm::Uncompressed);
    assert!(spm::deb::reader::is_control_file_path("./control"));
    assert!(spm::deb::reader::is_control_file_path("control"));
    assert!(!spm::deb::reader::is_control_file_path("./md5sums"));
}
