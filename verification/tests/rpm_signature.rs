use sha2::Digest;

use spm::rpm::header::HeaderBuilder;
use spm::rpm::reader::{extract_i32, extract_i64, extract_string, header_section_sizes, parse_header_section, ParsedTagValue};
use spm::rpm::signature::{build_signature, signature_from_digests};
use spm::rpm::tags::{
    RPMSIGTAG_LONGARCHIVESIZE, RPMSIGTAG_LONGSIZE, RPMSIGTAG_MD5, RPMSIGTAG_PAYLOADSIZE, RPMSIGTAG_SHA1,
    RPMSIGTAG_SHA256, RPMSIGTAG_SIZE,
};

fn parse(bytes: &[u8]) -> Vec<(u32, ParsedTagValue)> {
    let (n, d) = header_section_sizes(&bytes[0..16]).unwrap();
    let n = n as usize;
    let d = d as usize;
    let index = bytes[16..16 + n * 16].to_vec();
    let data = bytes[16 + n * 16..16 + n * 16 + d].to_vec();
    parse_header_section(&index, &data, n)
}

#[test]
fn test_build_signature_produces_valid_header() {
    let sig = build_signature(b"fake header bytes", 18, vec![0u8; 16], 1024).unwrap();
    assert_eq!(&sig[0..4], &[0x8E, 0xAD, 0xE8, 0x01]);
}

#[test]
fn test_signature_digests_are_of_the_header() {
    let header = b"metadata header bytes".to_vec();
    let sig = build_signature(&header, 100, vec![7u8; 16], 4096).unwrap();
    let tags = parse(&sig);
    let sha256 = format!("{:x}", sha2::Sha256::digest(&header));
    let sha1 = format!("{:x}", sha1::Sha1::digest(&header));
    assert_eq!(extract_string(&tags, RPMSIGTAG_SHA256).unwrap(), sha256);
    assert_eq!(extract_string(&tags, RPMSIGTAG_SHA1).unwrap(), sha1);
    assert_eq!(sha256.len(), 64);
    assert_eq!(extract_i32(&tags, RPMSIGTAG_SIZE), Some(121));
    assert_eq!(extract_i64(&tags, RPMSIGTAG_LONGSIZE), Some(121));
    assert_eq!(extract_i32(&tags, RPMSIGTAG_PAYLOADSIZE), Some(4096));
    assert_eq!(extract_i64(&tags, RPMSIGTAG_LONGARCHIVESIZE), Some(4096));
    let md5 = tags.iter().find(|(t, _)| *t == RPMSIGTAG_MD5).map(|(_, v)| v.clone());
    match md5 {
        Some(ParsedTagValue::Bin(b)) => assert_eq!(b, vec![7u8; 16]),
        other => panic!("unexpected md5 tag {other:?}"),
    }
}

#[test]
fn test_signature_large_sizes_are_64_bit_only() {
    let big: u64 = 5_000_000_000;
    let sig = signature_from_digests("a", "b", big, vec![1, 2], big).unwrap();
    let tags = parse(&sig);
    assert_eq!(extract_i32(&tags, RPMSIGTAG_SIZE), None);
    assert_eq!(extract_i32(&tags, RPMSIGTAG_PAYLOADSIZE), None);
    assert_eq!(extract_i64(&tags, RPMSIGTAG_LONGSIZE), Some(big as i64));
    assert_eq!(extract_i64(&tags, RPMSIGTAG_LONGARCHIVESIZE), Some(big as i64));
}

#[test]
fn test_signature_matches_builder_order() {
    let mut hdr = HeaderBuilder::new();
    hdr.add_string(RPMSIGTAG_SHA1, "s1");
    hdr.add_string(RPMSIGTAG_SHA256, "s2");
    hdr.add_int32(RPMSIGTAG_SIZE, vec![10]);
    hdr.add_int64(RPMSIGTAG_LONGSIZE, vec![10]);
    hdr.add_bin(RPMSIGTAG_MD5, vec![9; 16]);
    hdr.add_int32(RPMSIGTAG_PAYLOADSIZE, vec![20]);
    hdr.add_int64(RPMSIGTAG_LONGARCHIVESIZE, vec![20]);
    hdr.add_region_tag(62);
    let expected = hdr.build().unwrap();
    assert_eq!(signature_from_digests("s1", "s2", 10, vec![9; 16], 20).unwrap(), expected);
}
