use spm::rpm::lead::{arch_to_num, write_lead};

#[test]
fn test_lead_magic() {
    let mut buf = Vec::new();
    write_lead(&mut buf, "testpkg-1.0-1", "x86_64").unwrap();
    assert_eq!(buf.len(), 96);
    assert_eq!(&buf[0..4], &[0xED, 0xAB, 0xEE, 0xDB]);
}

#[test]
fn test_lead_version() {
    let mut buf = Vec::new();
    write_lead(&mut buf, "testpkg", "x86_64").unwrap();
    assert_eq!(buf[4], 3); // major
    assert_eq!(buf[5], 0); // minor
}

#[test]
fn test_lead_type_binary() {
    let mut buf = Vec::new();
    write_lead(&mut buf, "testpkg", "x86_64").unwrap();
    assert_eq!(u16::from_be_bytes([buf[6], buf[7]]), 0);
}

#[test]
fn test_lead_arch() {
    let mut buf = Vec::new();
    write_lead(&mut buf, "testpkg", "x86_64").unwrap();
    let arch = u16::from_be_bytes([buf[8], buf[9]]);
    assert_eq!(arch, 1);
}

#[test]
fn test_lead_name_embedded() {
    let mut buf = Vec::new();
    write_lead(&mut buf, "testpkg-1.0-1", "x86_64").unwrap();
    let name = &buf[10..23]; // "testpkg-1.0-1" is 13 bytes
    assert_eq!(name, b"testpkg-1.0-1");
    assert_eq!(buf[23], 0); // NUL terminated
}

#[test]
fn test_lead_name_truncated() {
    let long_name = "a".repeat(100);
    let mut buf = Vec::new();
    write_lead(&mut buf, &long_name, "x86_64").unwrap();
    // Only first 65 chars should be written
    assert_eq!(&buf[10..75], "a".repeat(65).as_bytes());
    assert_eq!(buf[75], 0); // byte 76 (index 75) is part of name field, zeroed
}

#[test]
fn test_lead_os_linux() {
    let mut buf = Vec::new();
    write_lead(&mut buf, "testpkg", "x86_64").unwrap();
    let os = u16::from_be_bytes([buf[76], buf[77]]);
    assert_eq!(os, 1);
}

#[test]
fn test_lead_sigtype() {
    let mut buf = Vec::new();
    write_lead(&mut buf, "testpkg", "x86_64").unwrap();
    let sigtype = u16::from_be_bytes([buf[78], buf[79]]);
    assert_eq!(sigtype, 5);
}

#[test]
fn test_arch_to_num() {
    assert_eq!(arch_to_num("x86_64"), 1);
    assert_eq!(arch_to_num("aarch64"), 12);
    assert_eq!(arch_to_num("noarch"), 0);
    assert_eq!(arch_to_num("unknown"), 0);
}

#[test]
fn test_lead_name_joins_fields() {
    assert_eq!(spm::rpm::lead::lead_name("pkg", "1.0", "2"), "pkg-1.0-2");
}

#[test]
fn test_rpm_file_prefix_layout() {
    let sig = vec![1u8; 13];
    let header = vec![2u8; 5];
    let head = spm::rpm::lead::rpm_file_prefix("pkg-1-1", "x86_64", &sig, &header);
    let lead = spm::rpm::lead::lead("pkg-1-1", "x86_64");
    assert_eq!(&head[..96], &lead[..]);
    assert_eq!(&head[96..109], &sig[..]);
    // 16 + 13 = 29: three zero bytes up to the next multiple of 8.
    assert_eq!(&head[109..112], &[0u8, 0, 0]);
    assert_eq!(&head[112..], &header[..]);
}
