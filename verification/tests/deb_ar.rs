use spm::deb::ar::ArWriter;
use std::io::Write;

#[test]
fn test_ar_magic() {
    let mut buf = Vec::new();
    let mut ar = ArWriter::new(&mut buf);
    ar.write_member("test", b"", 0, 0o100644).unwrap();
    assert_eq!(&buf[..8], b"!<arch>\n");
}

#[test]
fn test_ar_magic_written_once() {
    let mut buf = Vec::new();
    let mut ar = ArWriter::new(&mut buf);
    ar.write_member("a", b"x", 0, 0o100644).unwrap();
    ar.write_member("b", b"y", 0, 0o100644).unwrap();
    // Magic appears only at the start
    let magic_count = buf.windows(8).filter(|w| *w == b"!<arch>\n").count();
    assert_eq!(magic_count, 1);
}

#[test]
fn test_ar_header_size() {
    let mut buf = Vec::new();
    let mut ar = ArWriter::new(&mut buf);
    ar.write_member("test", b"", 0, 0o100644).unwrap();
    // 8 (magic) + 60 (header) = 68 bytes for empty member
    assert_eq!(buf.len(), 68);
}

#[test]
fn test_ar_header_fields() {
    let mut buf = Vec::new();
    let mut ar = ArWriter::new(&mut buf);
    ar.write_member("debian-binary", b"2.0\n", 1700000000, 0o100644)
        .unwrap();
    let header = &buf[8..68];
    let header_str = std::str::from_utf8(header).unwrap();
    // name (16 chars): "debian-binary/  "
    assert_eq!(&header_str[..16], "debian-binary/  ");
    // mtime (12 chars): "1700000000  "
    assert_eq!(&header_str[16..28], "1700000000  ");
    // uid (6 chars): "0     "
    assert_eq!(&header_str[28..34], "0     ");
    // gid (6 chars): "0     "
    assert_eq!(&header_str[34..40], "0     ");
    // mode (8 chars): "100644  "
    assert_eq!(&header_str[40..48], "100644  ");
    // size (10 chars): "4         "
    assert_eq!(&header_str[48..58], "4         ");
    // fmag (2 chars): "`\n"
    assert_eq!(&header[58..60], b"`\n");
}

#[test]
fn test_ar_member_data() {
    let mut buf = Vec::new();
    let mut ar = ArWriter::new(&mut buf);
    ar.write_member("test", b"hello", 0, 0o100644).unwrap();
    // Data starts after magic (8) + header (60) = 68
    assert_eq!(&buf[68..73], b"hello");
}

#[test]
fn test_ar_odd_size_padding() {
    let mut buf = Vec::new();
    let mut ar = ArWriter::new(&mut buf);
    ar.write_member("test", b"hello", 0, 0o100644).unwrap();
    // 5 bytes is odd → 1 padding byte
    // Total: 8 + 60 + 5 + 1 = 74
    assert_eq!(buf.len(), 74);
    assert_eq!(buf[73], b'\n');
}

#[test]
fn test_ar_even_size_no_padding() {
    let mut buf = Vec::new();
    let mut ar = ArWriter::new(&mut buf);
    ar.write_member("test", b"hi", 0, 0o100644).unwrap();
    // 2 bytes is even → no padding
    // Total: 8 + 60 + 2 = 70
    assert_eq!(buf.len(), 70);
}

#[test]
fn test_ar_streaming_matches_in_memory() {
    let data = b"test data content";

    // In-memory
    let mut buf1 = Vec::new();
    let mut ar1 = ArWriter::new(&mut buf1);
    ar1.write_member("file.txt", data, 12345, 0o100644).unwrap();

    // Streaming
    let mut buf2 = Vec::new();
    let mut ar2 = ArWriter::new(&mut buf2);
    ar2.begin_member("file.txt", data.len() as u64, 12345, 0o100644)
        .unwrap();
    ar2.writer_mut().write_all(data).unwrap();
    ar2.finish_member().unwrap();

    assert_eq!(buf1, buf2);
}

#[test]
fn test_ar_streaming_odd_size_padding() {
    let data = b"odd";
    let mut buf = Vec::new();
    let mut ar = ArWriter::new(&mut buf);
    ar.begin_member("f", data.len() as u64, 0, 0o100644)
        .unwrap();
    ar.writer_mut().write_all(data).unwrap();
    ar.finish_member().unwrap();
    // 8 + 60 + 3 + 1 = 72
    assert_eq!(buf.len(), 72);
}

#[test]
fn test_ar_multiple_members() {
    let mut buf = Vec::new();
    let mut ar = ArWriter::new(&mut buf);
    ar.write_member("debian-binary", b"2.0\n", 0, 0o100644)
        .unwrap();
    ar.write_member("control.tar.zst", b"ctrl", 0, 0o100644)
        .unwrap();
    ar.write_member("data.tar.zst", b"data!", 0, 0o100644)
        .unwrap();

    // Verify structure:
    // magic (8) + header1 (60) + "2.0\n" (4) = 72
    // + header2 (60) + "ctrl" (4) = 136
    // + header3 (60) + "data!" (5) + pad (1) = 202
    assert_eq!(buf.len(), 202);

    // Verify first member data
    assert_eq!(&buf[68..72], b"2.0\n");
    // Verify second member data
    assert_eq!(&buf[132..136], b"ctrl");
    // Verify third member data
    assert_eq!(&buf[196..201], b"data!");
}

#[test]
fn test_ar_empty_member() {
    let mut buf = Vec::new();
    let mut ar = ArWriter::new(&mut buf);
    ar.write_member("empty", b"", 0, 0o100644).unwrap();
    // 8 + 60 = 68 (no data, no padding)
    assert_eq!(buf.len(), 68);
}

#[test]
fn test_ar_finish_returns_writer() {
    let buf = Vec::new();
    let ar = ArWriter::new(buf);
    let inner = ar.finish().unwrap();
    // Writer was empty, nothing written
    assert!(inner.is_empty());
}

#[test]
fn test_streamed_member_matches_whole() {
    let mut whole = Vec::new();
    {
        let mut ar = ArWriter::new(&mut whole);
        ar.write_member("data.tar", b"abc", 7, 0o100644).unwrap();
    }
    let mut streamed = Vec::new();
    {
        let mut ar = ArWriter::new(&mut streamed);
        ar.begin_member("data.tar", 3, 7, 0o100644).unwrap();
        ar.writer_mut().write_all(b"abc").unwrap();
        ar.finish_member().unwrap();
    }
    assert_eq!(whole, streamed);
}

#[test]
fn test_streamed_chunks_match_whole() {
    let mut whole = Vec::new();
    {
        let mut ar = ArWriter::new(&mut whole);
        ar.write_member("control.tar.zst", b"hello", 1, 0o100644).unwrap();
    }
    let mut streamed = Vec::new();
    {
        let mut ar = ArWriter::new(&mut streamed);
        ar.begin_member("control.tar.zst", 5, 1, 0o100644).unwrap();
        ar.write_data(b"he").unwrap();
        ar.write_data(b"llo").unwrap();
        ar.finish_member().unwrap();
        // A second finish writes nothing.
        ar.finish_member().unwrap();
    }
    assert_eq!(whole, streamed);
    assert_eq!(streamed.len() % 2, 0);
}
