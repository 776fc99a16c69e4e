use spm::cpio::{pad4, CpioError, CpioFormat, CpioMetadata, CpioWriter, NEWC_MAX_FILESIZE};
use std::io;

fn empty_metadata(filesize: u64) -> CpioMetadata {
    CpioMetadata {
        ino: 1,
        mode: 0o100644,
        uid: 0,
        gid: 0,
        nlink: 1,
        mtime: 1700000000,
        filesize,
        devmajor: 0,
        devminor: 0,
        rdevmajor: 0,
        rdevminor: 0,
    }
}

#[test]
fn test_cpio_newc_magic() {
    let mut buf = Vec::new();
    let mut writer = CpioWriter::new(&mut buf, CpioFormat::Newc);
    let meta = empty_metadata(5);
    let mut data = io::Cursor::new(b"hello");
    writer.write_entry(0, "./test", &meta, &mut data).unwrap();
    let (_, _) = writer.finish().unwrap();
    assert_eq!(&buf[0..6], b"070701");
}

#[test]
fn test_cpio_newc_padding() {
    // Name "ab" (2 bytes) + NUL = 3 bytes. Header 110 + 3 = 113 → pad to 116 (3 bytes pad).
    let mut buf = Vec::new();
    let mut writer = CpioWriter::new(&mut buf, CpioFormat::Newc);

    let meta = empty_metadata(3);
    let mut data = io::Cursor::new(b"abc");
    writer.write_entry(0, "ab", &meta, &mut data).unwrap();

    // Header (110) + name "ab\0" (3) + pad (3) = 116
    // Data (3) + pad (1) = 4
    // Total before trailer: 120
    // Now check that the data starts at offset 116
    assert_eq!(buf[116], b'a');
    assert_eq!(buf[117], b'b');
    assert_eq!(buf[118], b'c');
    // Pad byte after data
    assert_eq!(buf[119], 0);
}

#[test]
fn test_cpio_newc_trailer() {
    let mut buf = Vec::new();
    let writer = CpioWriter::new(&mut buf, CpioFormat::Newc);
    let (_, bytes) = writer.finish().unwrap();

    // Should contain TRAILER!!!
    let trailer_pos = buf
        .windows(10)
        .position(|w| w == b"TRAILER!!!")
        .expect("TRAILER!!! not found");
    assert!(trailer_pos > 0);
    assert!(bytes > 0);
}

#[test]
fn test_cpio_newc_single_file() {
    let mut buf = Vec::new();
    let mut writer = CpioWriter::new(&mut buf, CpioFormat::Newc);

    let meta = CpioMetadata {
        ino: 42,
        mode: 0o100755,
        uid: 1000,
        gid: 1000,
        nlink: 1,
        mtime: 1700000000,
        filesize: 11,
        devmajor: 8,
        devminor: 1,
        rdevmajor: 0,
        rdevminor: 0,
    };

    let content = b"hello world";
    let mut data = io::Cursor::new(content);
    writer
        .write_entry(0, "./usr/bin/hello", &meta, &mut data)
        .unwrap();
    let (_, _) = writer.finish().unwrap();

    // Verify magic
    assert_eq!(&buf[0..6], b"070701");

    // Verify ino field (bytes 6..14)
    let ino_str = std::str::from_utf8(&buf[6..14]).unwrap();
    assert_eq!(u32::from_str_radix(ino_str, 16).unwrap(), 42);

    // Verify mode field (bytes 14..22)
    let mode_str = std::str::from_utf8(&buf[14..22]).unwrap();
    assert_eq!(u32::from_str_radix(mode_str, 16).unwrap(), 0o100755);
}

#[test]
fn test_cpio_newc_rejects_large_file() {
    let mut buf = Vec::new();
    let mut writer = CpioWriter::new(&mut buf, CpioFormat::Newc);

    let meta = empty_metadata(0x1_0000_0000); // > 4 GiB
    let mut data = io::empty();
    let result = writer.write_entry(0, "./big", &meta, &mut data);
    assert!(result.is_err());

    match result.unwrap_err() {
        CpioError::FileTooLarge { size, max, .. } => {
            assert_eq!(size, 0x1_0000_0000);
            assert_eq!(max, NEWC_MAX_FILESIZE);
        }
        other => panic!("expected FileTooLarge, got {other:?}"),
    }
}

#[test]
fn test_cpio_newc_empty_file() {
    let mut buf = Vec::new();
    let mut writer = CpioWriter::new(&mut buf, CpioFormat::Newc);

    let meta = empty_metadata(0);
    let mut data = io::empty();
    writer.write_entry(0, "./empty", &meta, &mut data).unwrap();
    let (_, _) = writer.finish().unwrap();

    assert_eq!(&buf[0..6], b"070701");
}

#[test]
fn test_cpio_newc_finish_returns_bytes_written() {
    let mut buf = Vec::new();
    let mut writer = CpioWriter::new(&mut buf, CpioFormat::Newc);

    let meta = empty_metadata(5);
    let mut data = io::Cursor::new(b"hello");
    writer.write_entry(0, "./test", &meta, &mut data).unwrap();
    let (_, bytes_written) = writer.finish().unwrap();

    assert_eq!(bytes_written as usize, buf.len());
}

#[test]
fn test_cpio_extended_magic() {
    let mut buf = Vec::new();
    let mut writer = CpioWriter::new(&mut buf, CpioFormat::Extended);

    let meta = empty_metadata(5);
    let mut data = io::Cursor::new(b"hello");
    writer.write_entry(0, "", &meta, &mut data).unwrap();
    let (_, _) = writer.finish().unwrap();

    assert_eq!(&buf[0..6], b"07070X");
}

#[test]
fn test_cpio_extended_header_size() {
    let mut buf = Vec::new();
    let mut writer = CpioWriter::new(&mut buf, CpioFormat::Extended);

    let meta = empty_metadata(0);
    let mut data = io::empty();
    writer.write_entry(0, "", &meta, &mut data).unwrap();

    // Header should be 14 bytes (6 magic + 8 index). No data, no padding needed.
    // Next entry (trailer from finish) starts at offset 14.
    // But first entry has filesize=0 and pad4(0)=0, so 14 bytes total.
    // Let's just check the first 14 bytes are our header.
    assert_eq!(buf.len(), 14); // Only one entry with no data before finish
    assert_eq!(&buf[0..6], b"07070X");

    // Index field
    let idx_str = std::str::from_utf8(&buf[6..14]).unwrap();
    assert_eq!(u32::from_str_radix(idx_str, 16).unwrap(), 0);
}

#[test]
fn test_cpio_extended_large_file_accepted() {
    // Extended format should NOT reject files > 4 GiB.
    let mut buf = Vec::new();
    let mut writer = CpioWriter::new(&mut buf, CpioFormat::Extended);

    // We won't actually write 5 GiB of data, just test that the metadata is accepted.
    // Use filesize=0 to avoid needing actual data, but set a large logical size
    // in metadata that won't be validated (Extended doesn't check size).
    // Actually, stream_data will try to read filesize bytes, so we need filesize=0.
    let meta = CpioMetadata {
        filesize: 0,
        ..empty_metadata(0)
    };
    let mut data = io::empty();
    let result = writer.write_entry(0, "", &meta, &mut data);
    assert!(result.is_ok());
}

#[test]
fn test_cpio_extended_padding() {
    let mut buf = Vec::new();
    let mut writer = CpioWriter::new(&mut buf, CpioFormat::Extended);

    // 3 bytes of data: header (14) + data (3) + pad (1) = 18
    let meta = empty_metadata(3);
    let mut data = io::Cursor::new(b"abc");
    writer.write_entry(0, "", &meta, &mut data).unwrap();
    let (_, _) = writer.finish().unwrap();

    // First entry: header (14) + data (3) + pad (1) = 18
    // Data starts at offset 14
    assert_eq!(buf[14], b'a');
    assert_eq!(buf[15], b'b');
    assert_eq!(buf[16], b'c');
    assert_eq!(buf[17], 0); // padding
                            // Trailer starts at offset 18
    assert_eq!(&buf[18..24], b"07070X");
}

#[test]
fn test_cpio_hardlink_handling() {
    let mut buf = Vec::new();
    let mut writer = CpioWriter::new(&mut buf, CpioFormat::Newc);

    let content = b"shared content";

    // First two links: filesize=0, nlink=3
    let meta_nodata = CpioMetadata {
        ino: 99,
        mode: 0o100644,
        uid: 0,
        gid: 0,
        nlink: 3,
        mtime: 1700000000,
        filesize: 0,
        devmajor: 0,
        devminor: 0,
        rdevmajor: 0,
        rdevminor: 0,
    };

    let mut empty = io::empty();
    writer
        .write_entry(0, "./link1", &meta_nodata, &mut empty)
        .unwrap();
    let mut empty = io::empty();
    writer
        .write_entry(1, "./link2", &meta_nodata, &mut empty)
        .unwrap();

    // Last link: carries the data
    let meta_data = CpioMetadata {
        filesize: content.len() as u64,
        ..meta_nodata
    };
    let mut data = io::Cursor::new(content);
    writer
        .write_entry(2, "./link3", &meta_data, &mut data)
        .unwrap();

    let (_, _) = writer.finish().unwrap();

    // Verify: search for the content in the buffer.
    // It should appear exactly once (only with the last link).
    let content_positions: Vec<_> = buf
        .windows(content.len())
        .enumerate()
        .filter(|(_, w)| *w == content)
        .map(|(i, _)| i)
        .collect();
    assert_eq!(
        content_positions.len(),
        1,
        "content should appear exactly once"
    );
}

#[test]
fn test_pad4() {
    assert_eq!(pad4(0), 0);
    assert_eq!(pad4(1), 3);
    assert_eq!(pad4(2), 2);
    assert_eq!(pad4(3), 1);
    assert_eq!(pad4(4), 0);
    assert_eq!(pad4(5), 3);
    assert_eq!(pad4(110), 2); // Newc header size
}

#[test]
fn test_cpio_too_large_writes_nothing() {
    let mut buf = Vec::new();
    {
        let mut writer = CpioWriter::new(&mut buf, CpioFormat::Newc);
        let meta = empty_metadata(0x1_0000_0000);
        assert!(writer.write_entry(0, "./big", &meta, &mut io::empty()).is_err());
    }
    assert!(buf.is_empty());
}

#[test]
fn test_cpio_finish_trailer_entries() {
    let mut buf = Vec::new();
    let writer = CpioWriter::new(&mut buf, CpioFormat::Newc);
    let (_, n) = writer.finish().unwrap();
    assert_eq!(n as usize, buf.len());
    assert_eq!(&buf[0..6], b"070701");
    // nlink (bytes 38..46) is 1, filesize (54..62) is 0.
    assert_eq!(&buf[38..46], b"00000001");
    assert_eq!(&buf[54..62], b"00000000");
    assert_eq!(&buf[110..120], b"TRAILER!!!");

    let mut ext = Vec::new();
    let mut writer = CpioWriter::new(&mut ext, CpioFormat::Extended);
    writer.write_entry(0, "ignored", &empty_metadata(0), &mut io::empty()).unwrap();
    writer.write_entry(1, "ignored", &empty_metadata(0), &mut io::empty()).unwrap();
    let (_, n) = writer.finish().unwrap();
    assert_eq!(n as usize, ext.len());
    assert_eq!(&ext[ext.len() - 14..], b"07070X00000002");
}
