//! CPIO archive writer supporting SVR4 newc (070701) and RPM extended
//! (07070X) formats.
//!
//! - **Newc (070701):** standard SVR4 newc with 8-hex-digit fields; at most
//!   4 GiB per file.
//! - **Extended (07070X):** RPM's stripped-down cpio for packages with files
//!   over 4 GiB; the header holds only the file index, all other metadata
//!   comes from the RPM header tags.
//!
//! Entries are written one after another; headers, names and data are each
//! padded to 4-byte boundaries. The caller orders hard links so that all
//! but the last link have `filesize = 0` (with an empty reader) and the last
//! carries the data: the writer writes exactly what it is given.
use vstd::prelude::*;
use vstd::slice::slice_subrange;

use crate::bytes::{push_bytes, push_utf8, utf8, zeros};
use crate::io::write_all;
use crate::text::{extend_str, push_decimal, string_from_chars};

verus! {

/// Errors that can occur during CPIO archive writing.
#[derive(Debug)]
pub enum CpioError {
    /// An I/O error occurred while writing the archive.
    Io(std::io::Error),
    /// A file exceeds the maximum size for the selected format.
    FileTooLarge {
        /// Actual file size.
        size: u64,
        /// Maximum allowed by the format.
        max: u64,
        /// Format name.
        format: &'static str,
    },
}

/// CPIO archive format variant.
#[derive(Debug, Clone, Copy, PartialEq, Eq, Structural)]
pub enum CpioFormat {
    /// Standard SVR4 newc (magic `"070701"`), max file size 4 GiB.
    Newc,
    /// RPM extended (magic `"07070X"`), file index only, unlimited size.
    Extended,
}

/// Metadata for a CPIO entry.
///
/// For the `Newc` format, all fields are written into the header. For the
/// `Extended` format only `filesize` is used, to know how many data bytes
/// to expect.
#[derive(Debug, Clone, Copy)]
pub struct CpioMetadata {
    /// Inode number.
    pub ino: u32,
    /// File mode (includes file type bits).
    pub mode: u32,
    /// User ID.
    pub uid: u32,
    /// Group ID.
    pub gid: u32,
    /// Number of hard links.
    pub nlink: u32,
    /// Modification time (seconds since epoch).
    pub mtime: u32,
    /// File size in bytes.
    pub filesize: u64,
    /// Device major number.
    pub devmajor: u32,
    /// Device minor number.
    pub devminor: u32,
    /// Rdev major number.
    pub rdevmajor: u32,
    /// Rdev minor number.
    pub rdevminor: u32,
}

/// Size of the Newc header (magic + 13 fields of 8 hex chars).
pub const NEWC_HEADER_SIZE: u64 = 110;

/// Size of the Extended header (magic + 8-char hex index).
pub const EXTENDED_HEADER_SIZE: u64 = 14;

/// Maximum file size for Newc format (8 hex digits).
pub const NEWC_MAX_FILESIZE: u64 = 0xFFFF_FFFF;

/// Streaming copy buffer size.
pub const COPY_BUF_SIZE: usize = 262144;

/// Padding that aligns `offset` to a 4-byte boundary.
pub open spec fn pad4_spec(offset: nat) -> nat {
    ((4 - offset % 4) % 4) as nat
}

/// Calculate padding bytes needed to align `offset` to a 4-byte boundary.
pub fn pad4(offset: u64) -> (p: usize)
    ensures
        p == pad4_spec(offset as nat),
        p < 4,
{
    ((4 - (offset % 4)) % 4) as usize
}

/// The ASCII byte of an upper-case hexadecimal digit.
pub open spec fn hex_digit(d: nat) -> u8 {
    if d < 10 {
        (48 + d) as u8
    } else {
        (55 + d) as u8
    }
}

/// `{:08X}`: eight upper-case hexadecimal digits.
pub open spec fn hex8(x: u32) -> Seq<u8> {
    seq![
        hex_digit(((x / 0x10000000) % 16) as nat),
        hex_digit(((x / 0x1000000) % 16) as nat),
        hex_digit(((x / 0x100000) % 16) as nat),
        hex_digit(((x / 0x10000) % 16) as nat),
        hex_digit(((x / 0x1000) % 16) as nat),
        hex_digit(((x / 0x100) % 16) as nat),
        hex_digit(((x / 0x10) % 16) as nat),
        hex_digit((x % 16) as nat),
    ]
}

/// Hexadecimal fields, one after another.
pub open spec fn hex_fields(fs: Seq<u32>) -> Seq<u8>
    decreases fs.len(),
{
    if fs.len() == 0 {
        seq![]
    } else {
        hex_fields(fs.drop_last()) + hex8(fs.last())
    }
}

/// The thirteen header fields of a newc entry whose name has `namesize`
/// bytes (terminating NUL included); the last is the unused checksum.
pub open spec fn newc_fields(m: CpioMetadata, namesize: u32) -> Seq<u32> {
    seq![
        m.ino,
        m.mode,
        m.uid,
        m.gid,
        m.nlink,
        m.mtime,
        m.filesize as u32,
        m.devmajor,
        m.devminor,
        m.rdevmajor,
        m.rdevminor,
        namesize,
        0u32,
    ]
}

/// The 110-byte newc header: magic `070701` and the fields in hexadecimal.
pub open spec fn newc_header(m: CpioMetadata, namesize: u32) -> Seq<u8> {
    seq![48u8, 55u8, 48u8, 55u8, 48u8, 49u8] + hex_fields(newc_fields(m, namesize))
}

/// The 14-byte extended header of the entry with the given index.
pub open spec fn extended_header(index: u32) -> Seq<u8> {
    seq![48u8, 55u8, 48u8, 55u8, 48u8, 88u8] + hex8(index)
}

/// The newc header, name, NUL and name padding of an entry.
pub open spec fn newc_prefix(name: Seq<char>, m: CpioMetadata) -> Seq<u8> {
    let namesize = (utf8(name).len() + 1) as u32;
    newc_header(m, namesize) + utf8(name) + seq![0u8] + zeros(pad4_spec(110 + namesize as nat))
}

/// The number of archive bytes an entry occupies.
pub open spec fn entry_size(format: CpioFormat, name: Seq<char>, filesize: nat) -> nat {
    match format {
        CpioFormat::Newc => 110 + (utf8(name).len() + 1) + pad4_spec(110 + utf8(name).len() + 1)
            + filesize + pad4_spec(filesize),
        CpioFormat::Extended => 14 + filesize + pad4_spec(filesize),
    }
}

proof fn lemma_hex_fields_len(fs: Seq<u32>)
    ensures
        hex_fields(fs).len() == 8 * fs.len(),
    decreases fs.len(),
{
    if fs.len() > 0 {
        lemma_hex_fields_len(fs.drop_last());
    }
}

fn hex_digit_exec(d: u32) -> (b: u8)
    requires
        d < 16,
    ensures
        b == hex_digit(d as nat),
{
    if d < 10 {
        (48 + d) as u8
    } else {
        (55 + d) as u8
    }
}

fn push_hex8(out: &mut Vec<u8>, x: u32)
    ensures
        final(out)@ == old(out)@ + hex8(x),
{
    out.push(hex_digit_exec((x / 0x10000000) % 16));
    out.push(hex_digit_exec((x / 0x1000000) % 16));
    out.push(hex_digit_exec((x / 0x100000) % 16));
    out.push(hex_digit_exec((x / 0x10000) % 16));
    out.push(hex_digit_exec((x / 0x1000) % 16));
    out.push(hex_digit_exec((x / 0x100) % 16));
    out.push(hex_digit_exec((x / 0x10) % 16));
    out.push(hex_digit_exec(x % 16));
    assert(final(out)@ =~= old(out)@ + hex8(x));
}

fn newc_header_exec(m: &CpioMetadata, namesize: u32) -> (r: Vec<u8>)
    ensures
        r@ == newc_header(*m, namesize),
        r@.len() == 110,
{
    let fields: Vec<u32> = vec![
        m.ino,
        m.mode,
        m.uid,
        m.gid,
        m.nlink,
        m.mtime,
        m.filesize as u32,
        m.devmajor,
        m.devminor,
        m.rdevmajor,
        m.rdevminor,
        namesize,
        0,
    ];
    assert(fields@ =~= newc_fields(*m, namesize));
    let mut out: Vec<u8> = Vec::new();
    out.push(48);
    out.push(55);
    out.push(48);
    out.push(55);
    out.push(48);
    out.push(49);
    let ghost magic = out@;
    let mut i: usize = 0;
    while i < fields.len()
        invariant
            i <= fields.len(),
            out@ == magic + hex_fields(fields@.take(i as int)),
        decreases fields.len() - i,
    {
        assert(fields@.take(i + 1).drop_last() =~= fields@.take(i as int));
        push_hex8(&mut out, fields[i]);
        i += 1;
        assert(out@ =~= magic + hex_fields(fields@.take(i as int)));
    }
    assert(fields@.take(13) =~= fields@);
    proof {
        lemma_hex_fields_len(fields@);
    }
    assert(magic =~= seq![48u8, 55u8, 48u8, 55u8, 48u8, 49u8]);
    out
}

/// The newc header, name, NUL and padding of an entry.
pub fn newc_entry_prefix(name: &str, m: &CpioMetadata) -> (r: Vec<u8>)
    requires
        utf8(name@).len() < 0xFFFF_FFFF,
    ensures
        r@ == newc_prefix(name@, *m),
        r@.len() == 110 + utf8(name@).len() + 1 + pad4_spec(110 + utf8(name@).len() + 1),
{
    let name_bytes = name.as_bytes();
    let namesize = name_bytes.len() as u32 + 1;
    let mut out = newc_header_exec(m, namesize);
    push_bytes(&mut out, name_bytes);
    out.push(0);
    let pad = pad4(110 + namesize as u64);
    crate::bytes::push_zeros(&mut out, pad);
    assert(out@ =~= newc_prefix(name@, *m));
    out
}

/// The extended header of an entry.
pub fn extended_entry_header(index: u32) -> (r: Vec<u8>)
    ensures
        r@ == extended_header(index),
{
    let mut out: Vec<u8> = Vec::new();
    out.push(48);
    out.push(55);
    out.push(48);
    out.push(55);
    out.push(48);
    out.push(88);
    push_hex8(&mut out, index);
    assert(out@ =~= extended_header(index));
    out
}

/// `std::io::Read::read`: reads at most `max` bytes into the front of
/// `buf`, returning how many it read (`0` at the end of the input). The
/// count is at most `max`, as the trait documents; which bytes arrive is
/// not stated.
#[verifier::external_body]
fn read_some<R: std::io::Read>(r: &mut R, buf: &mut Vec<u8>, max: usize) -> (res: Result<usize, std::io::Error>)
    requires
        max <= old(buf)@.len(),
    ensures
        final(buf)@.len() == old(buf)@.len(),
        res matches Ok(n) ==> n <= max,
{
    r.read(&mut buf[..max])
}

/// `std::io::Error::new` with `ErrorKind::UnexpectedEof` and the message.
#[verifier::external_body]
fn unexpected_eof(message: String) -> std::io::Error {
    std::io::Error::new(std::io::ErrorKind::UnexpectedEof, message)
}

fn io_err<T>(r: Result<T, std::io::Error>) -> (o: Result<T, CpioError>)
    ensures
        r is Ok <==> o is Ok,
        o matches Ok(v) ==> r == Ok::<T, std::io::Error>(v),
        o matches Err(e) ==> e is Io,
{
    match r {
        Ok(v) => Ok(v),
        Err(e) => Err(CpioError::Io(e)),
    }
}

/// Builder for a CPIO archive. Writes entries sequentially to an underlying writer.
///
/// Call [`write_entry`](CpioWriter::write_entry) for each file, then
/// [`finish`](CpioWriter::finish) to write the `TRAILER!!!` terminator
/// and recover the inner writer.
pub struct CpioWriter<W> {
    writer: W,
    format: CpioFormat,
    bytes_written: u64,
    entry_count: u32,
    sent: Ghost<Seq<u8>>,
}

impl<W> CpioWriter<W> {
    /// The archive format.
    pub closed spec fn format_spec(&self) -> CpioFormat {
        self.format
    }

    /// The bytes written so far.
    pub closed spec fn written(&self) -> nat {
        self.bytes_written as nat
    }

    /// The entries written so far.
    pub closed spec fn entries(&self) -> nat {
        self.entry_count as nat
    }

    /// The bytes handed to the underlying writer so far, in order.
    pub closed spec fn sent(&self) -> Seq<u8> {
        self.sent@
    }
}

/// The bytes of an entry: its header (with the name, for Newc), the data
/// and the zero padding to a 4-byte boundary.
pub open spec fn entry_bytes(format: CpioFormat, index: u32, name: Seq<char>, m: CpioMetadata, data: Seq<u8>) -> Seq<
    u8,
> {
    match format {
        CpioFormat::Newc => newc_prefix(name, m) + data + zeros(pad4_spec(m.filesize as nat)),
        CpioFormat::Extended => extended_header(index) + data + zeros(pad4_spec(m.filesize as nat)),
    }
}

impl<W: std::io::Write> CpioWriter<W> {
    /// Create a new CPIO writer with the given format.
    pub fn new(writer: W, format: CpioFormat) -> (r: Self)
        ensures
            r.format_spec() == format,
            r.written() == 0,
            r.entries() == 0,
            r.sent() == Seq::<u8>::empty(),
    {
        CpioWriter { writer, format, bytes_written: 0, entry_count: 0, sent: Ghost(Seq::empty()) }
    }

    fn put(&mut self, bytes: &Vec<u8>) -> (r: Result<(), CpioError>)
        requires
            old(self).written() + bytes@.len() <= u64::MAX,
        ensures
            final(self).format_spec() == old(self).format_spec(),
            final(self).entries() == old(self).entries(),
            r is Ok ==> final(self).written() == old(self).written() + bytes@.len(),
            r is Ok ==> final(self).sent() == old(self).sent() + bytes@,
            r is Err ==> final(self).written() == old(self).written(),
            r matches Err(e) ==> e is Io,
    {
        io_err(write_all(&mut self.writer, bytes.as_slice()))?;
        self.bytes_written = self.bytes_written + bytes.len() as u64;
        self.sent = Ghost(self.sent@ + bytes@);
        Ok(())
    }

    /// Stream exactly `expected_len` bytes from `data` to the writer.
    pub fn stream_data<R: std::io::Read>(&mut self, data: &mut R, expected_len: u64) -> (r: Result<u64, CpioError>)
        requires
            old(self).written() + expected_len <= u64::MAX,
        ensures
            final(self).format_spec() == old(self).format_spec(),
            final(self).entries() == old(self).entries(),
            r matches Ok(n) ==> n == expected_len && final(self).written() == old(self).written()
                + expected_len,
            r is Ok ==> exists|d: Seq<u8>| d.len() == expected_len && #[trigger] (old(self).sent() + d) == final(self).sent(),
            r matches Err(e) ==> e is Io,
    {
        if expected_len == 0 {
            assert(old(self).sent() + Seq::<u8>::empty() =~= self.sent());
            return Ok(0);
        }
        let ghost mut got: Seq<u8> = Seq::empty();
        let mut buf: Vec<u8> = vec![0u8; COPY_BUF_SIZE];
        let mut remaining = expected_len;
        while remaining > 0
            invariant
                buf@.len() == COPY_BUF_SIZE,
                remaining <= expected_len,
                self.format_spec() == old(self).format_spec(),
                self.entries() == old(self).entries(),
                self.written() == old(self).written() + (expected_len - remaining),
                old(self).written() + expected_len <= u64::MAX,
                got.len() == expected_len - remaining,
                self.sent() == old(self).sent() + got,
            decreases remaining,
        {
            let to_read: usize = if remaining < COPY_BUF_SIZE as u64 {
                remaining as usize
            } else {
                COPY_BUF_SIZE
            };
            let n = io_err(read_some(data, &mut buf, to_read))?;
            if n == 0 {
                let mut msg: Vec<char> = Vec::new();
                extend_str(&mut msg, "expected ");
                push_decimal(&mut msg, expected_len);
                extend_str(&mut msg, " bytes but got ");
                push_decimal(&mut msg, expected_len - remaining);
                return Err(CpioError::Io(unexpected_eof(string_from_chars(&msg))));
            }
            let chunk = slice_subrange(buf.as_slice(), 0, n);
            io_err(write_all(&mut self.writer, chunk))?;
            self.bytes_written = self.bytes_written + n as u64;
            proof {
                assert(self.sent() + chunk@ == old(self).sent() + (got + chunk@));
                got = got + chunk@;
            }
            self.sent = Ghost(self.sent@ + chunk@);
            remaining = remaining - n as u64;
        }
        assert(old(self).sent() + got == self.sent());
        Ok(expected_len)
    }

    /// Write a Newc format entry.
    pub fn write_newc_entry<R: std::io::Read>(&mut self, name: &str, metadata: &CpioMetadata, data: &mut R) -> (r:
        Result<(), CpioError>)
        requires
            utf8(name@).len() < 0xFFFF_FFFF,
            old(self).written() + entry_size(CpioFormat::Newc, name@, metadata.filesize as nat)
                <= u64::MAX,
        ensures
            final(self).format_spec() == old(self).format_spec(),
            final(self).entries() == old(self).entries(),
            r is Ok ==> final(self).written() == old(self).written() + entry_size(
                CpioFormat::Newc,
                name@,
                metadata.filesize as nat,
            ),
            metadata.filesize > NEWC_MAX_FILESIZE <==> r matches Err(CpioError::FileTooLarge { .. }),
            r matches Err(CpioError::FileTooLarge { size, max, format }) ==> size == metadata.filesize
                && max == NEWC_MAX_FILESIZE && format@ == "Newc (070701)"@,
            r matches Err(CpioError::FileTooLarge { .. }) ==> final(self).sent() == old(self).sent()
                && final(self).written() == old(self).written(),
            r is Ok ==> exists|d: Seq<u8>|
                d.len() == metadata.filesize && #[trigger] (old(self).sent() + entry_bytes(
                    CpioFormat::Newc,
                    0,
                    name@,
                    *metadata,
                    d,
                )) == final(self).sent(),
    {
        if metadata.filesize > NEWC_MAX_FILESIZE {
            return Err(
                CpioError::FileTooLarge {
                    size: metadata.filesize,
                    max: NEWC_MAX_FILESIZE,
                    format: "Newc (070701)",
                },
            );
        }
        let prefix = newc_entry_prefix(name, metadata);
        self.put(&prefix)?;
        let ghost s1 = self.sent();
        self.stream_data(data, metadata.filesize)?;
        let ghost d = choose|d: Seq<u8>| d.len() == metadata.filesize && #[trigger] (s1 + d) == self.sent();
        let pad = pad4(metadata.filesize);
        let mut tail: Vec<u8> = Vec::new();
        crate::bytes::push_zeros(&mut tail, pad);
        self.put(&tail)?;
        assert(old(self).sent() + entry_bytes(CpioFormat::Newc, 0, name@, *metadata, d) =~= self.sent());
        Ok(())
    }

    /// Write an Extended format entry.
    pub fn write_extended_entry<R: std::io::Read>(&mut self, index: u32, metadata: &CpioMetadata, data: &mut R) -> (r:
        Result<(), CpioError>)
        requires
            old(self).written() + entry_size(CpioFormat::Extended, seq![], metadata.filesize as nat)
                <= u64::MAX,
        ensures
            final(self).format_spec() == old(self).format_spec(),
            final(self).entries() == old(self).entries(),
            r is Ok ==> final(self).written() == old(self).written() + entry_size(
                CpioFormat::Extended,
                seq![],
                metadata.filesize as nat,
            ),
            r is Ok ==> exists|d: Seq<u8>|
                d.len() == metadata.filesize && #[trigger] (old(self).sent() + entry_bytes(
                    CpioFormat::Extended,
                    index,
                    seq![],
                    *metadata,
                    d,
                )) == final(self).sent(),
            r matches Err(e) ==> e is Io,
    {
        let header = extended_entry_header(index);
        self.put(&header)?;
        let ghost s1 = self.sent();
        self.stream_data(data, metadata.filesize)?;
        let ghost d = choose|d: Seq<u8>| d.len() == metadata.filesize && #[trigger] (s1 + d) == self.sent();
        let pad = pad4(metadata.filesize);
        let mut tail: Vec<u8> = Vec::new();
        crate::bytes::push_zeros(&mut tail, pad);
        self.put(&tail)?;
        assert(old(self).sent() + entry_bytes(CpioFormat::Extended, index, seq![], *metadata, d) =~= self.sent());
        Ok(())
    }

    /// Write a file entry to the archive.
    ///
    /// - `index`: zero-based entry index (used for the Extended header).
    /// - `name`: install path (used for Newc; ignored for Extended). RPM
    ///   payloads in Newc format prefix it with `./`.
    /// - `metadata`: file metadata; for Newc, `filesize` must fit in 32 bits.
    /// - `data`: the file content; must yield exactly `metadata.filesize` bytes.
    ///
    /// Returns the number of bytes written for this entry (including padding).
    pub fn write_entry<R: std::io::Read>(
        &mut self,
        index: u32,
        name: &str,
        metadata: &CpioMetadata,
        data: &mut R,
    ) -> (r: Result<u64, CpioError>)
        requires
            utf8(name@).len() < 0xFFFF_FFFF,
            old(self).entries() < u32::MAX,
            old(self).written() + entry_size(old(self).format_spec(), name@, metadata.filesize as nat)
                <= u64::MAX,
        ensures
            final(self).format_spec() == old(self).format_spec(),
            r matches Ok(n) ==> n == entry_size(old(self).format_spec(), name@, metadata.filesize as nat)
                && final(self).written() == old(self).written() + n && final(self).entries()
                == old(self).entries() + 1,
            (old(self).format_spec() == CpioFormat::Newc && metadata.filesize > NEWC_MAX_FILESIZE)
                <==> r matches Err(CpioError::FileTooLarge { .. }),
            r matches Err(CpioError::FileTooLarge { size, max, format }) ==> size == metadata.filesize
                && max == NEWC_MAX_FILESIZE && format@ == "Newc (070701)"@,
            r matches Err(CpioError::FileTooLarge { .. }) ==> final(self).sent() == old(self).sent()
                && final(self).written() == old(self).written() && final(self).entries()
                == old(self).entries(),
            r is Ok ==> exists|d: Seq<u8>|
                d.len() == metadata.filesize && #[trigger] (old(self).sent() + entry_bytes(
                    old(self).format_spec(),
                    index,
                    name@,
                    *metadata,
                    d,
                )) == final(self).sent(),
    {
        let start = self.bytes_written;
        let ghost s0 = self.sent();
        match self.format {
            CpioFormat::Newc => {
                self.write_newc_entry(name, metadata, data)?;
                proof {
                    let d = choose|d: Seq<u8>|
                        d.len() == metadata.filesize && #[trigger] (s0 + entry_bytes(
                            CpioFormat::Newc,
                            0,
                            name@,
                            *metadata,
                            d,
                        )) == self.sent();
                    assert(s0 + entry_bytes(CpioFormat::Newc, index, name@, *metadata, d) == self.sent());
                }
            },
            CpioFormat::Extended => {
                assert(entry_size(CpioFormat::Extended, name@, metadata.filesize as nat) == entry_size(
                    CpioFormat::Extended,
                    seq![],
                    metadata.filesize as nat,
                ));
                self.write_extended_entry(index, metadata, data)?;
                proof {
                    let d = choose|d: Seq<u8>|
                        d.len() == metadata.filesize && #[trigger] (s0 + entry_bytes(
                            CpioFormat::Extended,
                            index,
                            seq![],
                            *metadata,
                            d,
                        )) == self.sent();
                    assert(s0 + entry_bytes(CpioFormat::Extended, index, name@, *metadata, d) == self.sent());
                }
            },
        }
        self.entry_count = self.entry_count + 1;
        Ok(self.bytes_written - start)
    }

    /// Write the archive's terminating entry: `TRAILER!!!` with `nlink` 1
    /// (Newc), or the entry with the next index (Extended); both empty.
    fn write_trailer(&mut self) -> (r: Result<(), CpioError>)
        requires
            old(self).written() + 124 <= u64::MAX,
        ensures
            final(self).format_spec() == old(self).format_spec(),
            r is Ok ==> final(self).written() == old(self).written() + entry_size(
                old(self).format_spec(),
                "TRAILER!!!"@,
                0,
            ),
            r is Ok ==> final(self).sent() == old(self).sent() + trailer_bytes(
                old(self).format_spec(),
                old(self).entry_count,
            ),
            r matches Err(e) ==> e is Io,
    {
        let zero = CpioMetadata {
            ino: 0,
            mode: 0,
            uid: 0,
            gid: 0,
            nlink: 0,
            mtime: 0,
            filesize: 0,
            devmajor: 0,
            devminor: 0,
            rdevmajor: 0,
            rdevminor: 0,
        };
        let mut empty: &[u8] = &[];
        proof {
            reveal_strlit("TRAILER!!!");
            assert(vstd::utf8::is_ascii_chars("TRAILER!!!"@));
            vstd::utf8::is_ascii_chars_encode_utf8("TRAILER!!!"@);
            assert(utf8("TRAILER!!!"@).len() == 10);
        }
        let ghost s0 = self.sent();
        match self.format {
            CpioFormat::Newc => {
                let trailer = CpioMetadata { nlink: 1, ..zero };
                self.write_newc_entry("TRAILER!!!", &trailer, &mut empty)?;
                proof {
                    let d = choose|d: Seq<u8>|
                        d.len() == trailer.filesize && #[trigger] (s0 + entry_bytes(
                            CpioFormat::Newc,
                            0,
                            "TRAILER!!!"@,
                            trailer,
                            d,
                        )) == self.sent();
                    assert(d =~= Seq::<u8>::empty());
                    assert(trailer == trailer_metadata(CpioFormat::Newc));
                }
            },
            CpioFormat::Extended => {
                let index = self.entry_count;
                self.write_extended_entry(index, &zero, &mut empty)?;
                proof {
                    let d = choose|d: Seq<u8>|
                        d.len() == zero.filesize && #[trigger] (s0 + entry_bytes(
                            CpioFormat::Extended,
                            index,
                            seq![],
                            zero,
                            d,
                        )) == self.sent();
                    assert(d =~= Seq::<u8>::empty());
                    assert(zero == trailer_metadata(CpioFormat::Extended));
                }
            },
        }
        Ok(())
    }

    /// Write the terminating entry (see `trailer_bytes`) and return the
    /// inner writer and the total number of uncompressed bytes written to
    /// the archive.
    pub fn finish(self) -> (r: Result<(W, u64), CpioError>)
        requires
            self.written() + 124 <= u64::MAX,
        ensures
            r matches Ok((_, n)) ==> n == self.written() + entry_size(
                self.format_spec(),
                "TRAILER!!!"@,
                0,
            ),
            r matches Err(e) ==> e is Io,
    {
        let mut me = self;
        me.write_trailer()?;
        Ok((me.writer, me.bytes_written))
    }
}

/// The metadata of the terminating entry: all zero, but `nlink` 1 in Newc.
pub open spec fn trailer_metadata(format: CpioFormat) -> CpioMetadata {
    CpioMetadata {
        ino: 0,
        mode: 0,
        uid: 0,
        gid: 0,
        nlink: if format == CpioFormat::Newc {
            1
        } else {
            0
        },
        mtime: 0,
        filesize: 0,
        devmajor: 0,
        devminor: 0,
        rdevmajor: 0,
        rdevminor: 0,
    }
}

/// The bytes of the terminating entry of an archive holding `entries`
/// entries: `TRAILER!!!` (Newc), or the header with index `entries`
/// (Extended).
pub open spec fn trailer_bytes(format: CpioFormat, entries: u32) -> Seq<u8> {
    entry_bytes(format, entries, "TRAILER!!!"@, trailer_metadata(format), seq![])
}

} // verus!
