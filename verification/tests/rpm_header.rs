use spm::rpm::header::HeaderBuilder;
use spm::rpm::tags::TagType;

#[test]
fn test_header_magic() {
    let mut hdr = HeaderBuilder::new();
    hdr.add_string(1000, "testpkg");
    let bytes = hdr.build().unwrap();
    assert_eq!(&bytes[0..4], &[0x8E, 0xAD, 0xE8, 0x01]);
}

#[test]
fn test_header_reserved_zeros() {
    let mut hdr = HeaderBuilder::new();
    hdr.add_string(1000, "testpkg");
    let bytes = hdr.build().unwrap();
    assert_eq!(&bytes[4..8], &[0, 0, 0, 0]);
}

#[test]
fn test_header_index_count() {
    let mut hdr = HeaderBuilder::new();
    hdr.add_string(1000, "name");
    hdr.add_string(1001, "version");
    let bytes = hdr.build().unwrap();
    let count = u32::from_be_bytes(bytes[8..12].try_into().unwrap());
    assert_eq!(count, 2);
}

#[test]
fn test_header_byte_order() {
    let mut hdr = HeaderBuilder::new();
    hdr.add_int32(1009, vec![12345]);
    let bytes = hdr.build().unwrap();
    // First index entry starts at offset 16. Tag field is bytes 16..20.
    let tag = u32::from_be_bytes(bytes[16..20].try_into().unwrap());
    assert_eq!(tag, 1009);
}

#[test]
fn test_header_entries_sorted_by_tag() {
    let mut hdr = HeaderBuilder::new();
    // Add in reverse order.
    hdr.add_string(1005, "desc");
    hdr.add_string(1000, "name");
    let bytes = hdr.build().unwrap();
    // First index entry tag (offset 16..20)
    let tag1 = u32::from_be_bytes(bytes[16..20].try_into().unwrap());
    // Second index entry tag (offset 32..36)
    let tag2 = u32::from_be_bytes(bytes[32..36].try_into().unwrap());
    assert_eq!(tag1, 1000);
    assert_eq!(tag2, 1005);
}

#[test]
fn test_header_string_nul_terminated() {
    let mut hdr = HeaderBuilder::new();
    hdr.add_string(1000, "test");
    let bytes = hdr.build().unwrap();
    // Data section starts after 16 (preamble) + 16 (one index entry) = 32.
    let data_start = 32;
    assert_eq!(&bytes[data_start..data_start + 4], b"test");
    assert_eq!(bytes[data_start + 4], 0); // NUL
}

#[test]
fn test_header_int32_alignment() {
    let mut hdr = HeaderBuilder::new();
    // String "x" takes 2 bytes (x + NUL), offset 0.
    hdr.add_string(1000, "x");
    // INT32 must be 4-byte aligned, so padding of 2 bytes expected.
    hdr.add_int32(1009, vec![42]);
    let bytes = hdr.build().unwrap();

    // Find the INT32 entry's offset in the index.
    // Two entries: string(1000) at index 0, int32(1009) at index 1.
    // Index entry 1 starts at 16 + 16 = 32. Offset field is at 32+8..32+12.
    let offset = i32::from_be_bytes(bytes[40..44].try_into().unwrap());
    assert_eq!(offset % 4, 0, "INT32 offset must be 4-byte aligned");
}

#[test]
fn test_header_int64_alignment() {
    let mut hdr = HeaderBuilder::new();
    hdr.add_string(1000, "x"); // 2 bytes in data
    hdr.add_int64(5009, vec![1_234_567_890i64]);
    let bytes = hdr.build().unwrap();

    // Index entry 1 (int64) offset field: at 16 + 16 + 8 = 40..44
    let offset = i32::from_be_bytes(bytes[40..44].try_into().unwrap());
    assert_eq!(offset % 8, 0, "INT64 offset must be 8-byte aligned");
}

#[test]
fn test_header_int16_alignment() {
    let mut hdr = HeaderBuilder::new();
    hdr.add_string(1000, "x"); // 2 bytes in data (already aligned for INT16)
    hdr.add_int16(1030, vec![0o644]);
    let bytes = hdr.build().unwrap();

    let offset = i32::from_be_bytes(bytes[40..44].try_into().unwrap());
    assert_eq!(offset % 2, 0, "INT16 offset must be 2-byte aligned");
}

#[test]
fn test_header_string_array() {
    let mut hdr = HeaderBuilder::new();
    hdr.add_string_array(1117, vec!["file1".into(), "file2".into(), "file3".into()]);
    let bytes = hdr.build().unwrap();

    // Check count in index entry (offset 16+12..16+16)
    let count = u32::from_be_bytes(bytes[28..32].try_into().unwrap());
    assert_eq!(count, 3);

    // Data should contain "file1\0file2\0file3\0"
    let data_start = 32;
    let expected = b"file1\0file2\0file3\0";
    assert_eq!(&bytes[data_start..data_start + expected.len()], expected);
}

#[test]
fn test_header_bin() {
    let mut hdr = HeaderBuilder::new();
    let md5 = vec![0xDE, 0xAD, 0xBE, 0xEF];
    hdr.add_bin(1004, md5.clone());
    let bytes = hdr.build().unwrap();

    // Check type in index entry (offset 16+4..16+8)
    let tag_type = u32::from_be_bytes(bytes[20..24].try_into().unwrap());
    assert_eq!(tag_type, TagType::Bin as u32);

    // Data section starts at 32.
    assert_eq!(&bytes[32..36], &md5);
}

#[test]
fn test_header_empty_rejected() {
    let hdr = HeaderBuilder::new();
    let result = hdr.build();
    assert!(result.is_err());
}

#[test]
fn test_header_data_size_field() {
    let mut hdr = HeaderBuilder::new();
    hdr.add_string(1000, "hello"); // 6 bytes (hello + NUL)
    let bytes = hdr.build().unwrap();

    let data_size = u32::from_be_bytes(bytes[12..16].try_into().unwrap());
    assert_eq!(data_size, 6);
}

#[test]
fn test_region_tag_index_first_data_last() {
    let mut hdr = HeaderBuilder::new();
    hdr.add_string(1000, "name");
    hdr.add_string(1001, "version");
    hdr.add_region_tag(62);

    let bytes = hdr.build().unwrap();

    let index_count = u32::from_be_bytes(bytes[8..12].try_into().unwrap());
    assert_eq!(index_count, 3);

    // First index entry should be tag 62 (lowest tag number).
    let tag0 = u32::from_be_bytes(bytes[16..20].try_into().unwrap());
    assert_eq!(tag0, 62, "region tag must be first in index");

    // Second and third should be 1000, 1001.
    let tag1 = u32::from_be_bytes(bytes[32..36].try_into().unwrap());
    let tag2 = u32::from_be_bytes(bytes[48..52].try_into().unwrap());
    assert_eq!(tag1, 1000);
    assert_eq!(tag2, 1001);

    // Region tag's data offset must be the highest (data is last).
    let offset0 = i32::from_be_bytes(bytes[24..28].try_into().unwrap());
    let offset1 = i32::from_be_bytes(bytes[40..44].try_into().unwrap());
    let offset2 = i32::from_be_bytes(bytes[56..60].try_into().unwrap());
    assert!(
        offset0 > offset1 && offset0 > offset2,
        "region tag data offset ({offset0}) must be greater than regular tag offsets ({offset1}, {offset2})"
    );
}

#[test]
fn test_immutable_region_tag_sorts_first() {
    let mut hdr = HeaderBuilder::new();
    hdr.add_string(1000, "name");
    hdr.add_int32(1009, vec![42]);
    hdr.add_region_tag(63);

    let bytes = hdr.build().unwrap();

    let tag0 = u32::from_be_bytes(bytes[16..20].try_into().unwrap());
    assert_eq!(tag0, 63, "immutable region tag must be first in index");
}
