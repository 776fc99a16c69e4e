use spm::deb::control::md5_file;
use spm::filetree::{EntryType, FileEntry};
use spm::rpm::builder::{file_digest, sha256_file};
use spm::rpm::signature::{build_signature, build_signature_from_payload, compute_md5};
use std::io;

fn entry(entry_type: EntryType, source: &str, size: u64) -> FileEntry {
    FileEntry {
        install_path: "/opt/x".to_string(),
        source_path: source.to_string(),
        entry_type,
        mode: 0o644,
        size,
        user: "root".to_string(),
        group: "root".to_string(),
        is_config: false,
    }
}

#[test]
fn test_signature_sha256_is_hex() {
    let sha = sha256_file(&mut io::Cursor::new(b"test data".to_vec())).unwrap();
    assert_eq!(sha.len(), 64);
    assert!(sha.chars().all(|c| c.is_ascii_hexdigit()));
}

#[test]
fn test_sha256_file_known_digest() {
    let sha = sha256_file(&mut io::Cursor::new(b"hello".to_vec())).unwrap();
    assert_eq!(sha, "2cf24dba5fb0a30e26e83b2ac5b9e29e1b161e5c1fa7425e73043362938b9824");
}

#[test]
fn test_file_digest_only_for_hashed_entries() {
    let f = entry(EntryType::RegularFile, "/src/x", 5);
    let d = file_digest(&f, &mut io::Cursor::new(b"hello".to_vec())).unwrap();
    assert_eq!(d, "2cf24dba5fb0a30e26e83b2ac5b9e29e1b161e5c1fa7425e73043362938b9824");
    let dir = entry(EntryType::Directory, "", 0);
    assert_eq!(file_digest(&dir, &mut io::Cursor::new(b"hello".to_vec())).unwrap(), "");
    let link = entry(EntryType::Hardlink { target: "/opt/y".to_string() }, "/src/x", 0);
    assert_eq!(file_digest(&link, &mut io::empty()).unwrap(), "");
}

#[test]
fn test_md5_file_known_digest() {
    assert_eq!(md5_file(&mut io::Cursor::new(b"hello".to_vec())).unwrap(), "5d41402abc4b2a76b9719d911017c592");
}

#[test]
fn test_signature_md5_length() {
    let md5 = compute_md5(b"header data", &mut io::Cursor::new(b"payload data".to_vec())).unwrap();
    assert_eq!(md5.len(), 16);
}

#[test]
fn test_compute_md5_covers_header_and_payload() {
    let md5 = compute_md5(b"ab", &mut io::Cursor::new(b"c".to_vec())).unwrap();
    assert_eq!(
        md5,
        vec![0x90, 0x01, 0x50, 0x98, 0x3c, 0xd2, 0x4f, 0xb0, 0xd6, 0x96, 0x3f, 0x7d, 0x28, 0xe1, 0x7f, 0x72]
    );
}

#[test]
fn test_build_signature_from_payload_matches_digests() {
    let header = b"header bytes".to_vec();
    let payload = b"payload bytes".to_vec();
    let from_stream =
        build_signature_from_payload(&header, &mut io::Cursor::new(payload.clone()), payload.len() as u64, 99)
            .unwrap();
    let md5 = compute_md5(&header, &mut io::Cursor::new(payload.clone())).unwrap();
    let direct = build_signature(&header, payload.len() as u64, md5, 99).unwrap();
    assert_eq!(from_stream, direct);
}
