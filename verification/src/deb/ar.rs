//! Minimal ar archive writer for DEB package assembly.
//!
//! The ar format as Debian packages use it: the global magic `!<arch>\n`
//! (8 bytes), then each member as a 60-byte header, its data, and a
//! newline after data of odd length.
use vstd::prelude::*;

use crate::bytes::utf8;
use crate::io::write_all;
use crate::text::{chars_of, decimal, extend_str, octal, pad_right, push_decimal, push_octal, push_padded};

verus! {

/// The ar global magic header.
pub open spec fn ar_magic() -> Seq<u8> {
    seq![0x21u8, 0x3Cu8, 0x61u8, 0x72u8, 0x63u8, 0x68u8, 0x3Eu8, 0x0Au8]
}

/// The member header: name with `/` (16 wide), mtime (12), uid and gid `0`
/// (6 each), the octal mode (8), the size (10), each left-aligned and
/// space-padded (never truncated), then `` ` `` and a newline.
pub open spec fn member_header(name: Seq<char>, size: nat, mtime: nat, mode: nat) -> Seq<u8> {
    utf8(
        pad_right(name + seq!['/'], 16) + pad_right(decimal(mtime), 12) + pad_right(seq!['0'], 6)
            + pad_right(seq!['0'], 6) + pad_right(octal(mode), 8) + pad_right(decimal(size), 10),
    ) + seq![0x60u8, 0x0Au8]
}

/// The padding after member data of the given size.
pub open spec fn member_pad(size: nat) -> Seq<u8> {
    if size % 2 != 0 {
        seq![0x0Au8]
    } else {
        seq![]
    }
}

/// The bytes of a header.
pub fn header_bytes(name: &str, size: u64, mtime: u64, mode: u32) -> (r: Vec<u8>)
    ensures
        r@ == member_header(name@, size as nat, mtime as nat, mode as nat),
{
    let mut text: Vec<char> = Vec::new();
    let mut nm = chars_of(name);
    nm.push('/');
    push_padded(&mut text, &nm, 16);
    let mut d: Vec<char> = Vec::new();
    push_decimal(&mut d, mtime);
    push_padded(&mut text, &d, 12);
    let zero = vec!['0'];
    push_padded(&mut text, &zero, 6);
    push_padded(&mut text, &zero, 6);
    let mut o: Vec<char> = Vec::new();
    push_octal(&mut o, mode as u64);
    push_padded(&mut text, &o, 8);
    let mut z: Vec<char> = Vec::new();
    push_decimal(&mut z, size);
    push_padded(&mut text, &z, 10);
    let s = crate::text::string_from_chars(&text);
    let mut out: Vec<u8> = Vec::new();
    crate::bytes::push_utf8(&mut out, s.as_str());
    out.push(0x60);
    out.push(0x0A);
    assert(zero@ =~= seq!['0']);
    assert(text@ =~= pad_right(name@ + seq!['/'], 16) + pad_right(decimal(mtime as nat), 12)
        + pad_right(seq!['0'], 6) + pad_right(seq!['0'], 6) + pad_right(octal(mode as nat), 8)
        + pad_right(decimal(size as nat), 10));
    assert(out@ =~= member_header(name@, size as nat, mtime as nat, mode as nat));
    out
}

/// Writer for ar archives (DEB container format).
///
/// DEB files are ar archives with a specific member ordering:
/// 1. `debian-binary` — format version
/// 2. `control.tar.{zst,gz}` — control metadata
/// 3. `data.tar.{zst,gz}` — package files
pub struct ArWriter<W> {
    writer: W,
    wrote_magic: bool,
    /// Whether the current streaming member needs a padding byte on finish.
    needs_pad: bool,
    /// The bytes this writer has handed to the inner writer, in order.
    sent: Ghost<Seq<u8>>,
}

/// The global magic, where it has not been written yet.
pub open spec fn magic_prefix(magic_written: bool) -> Seq<u8> {
    if magic_written {
        seq![]
    } else {
        ar_magic()
    }
}

impl<W> ArWriter<W> {
    /// Whether the global magic has been written.
    pub closed spec fn magic_written(&self) -> bool {
        self.wrote_magic
    }

    /// Whether the streaming member being written has odd size and still
    /// lacks its padding byte.
    pub closed spec fn pad_pending(&self) -> bool {
        self.needs_pad
    }

    /// The bytes that this writer's own methods have handed to the inner
    /// writer, in order (not those written through [`writer_mut`](Self::writer_mut)).
    pub closed spec fn sent(&self) -> Seq<u8> {
        self.sent@
    }

    /// The inner writer.
    pub closed spec fn inner(&self) -> W {
        self.writer
    }
}

impl<W: std::io::Write> ArWriter<W> {
    /// Create a new ar archive writer.
    pub fn new(writer: W) -> (r: Self)
        ensures
            !r.magic_written(),
            !r.pad_pending(),
            r.sent() == Seq::<u8>::empty(),
            r.inner() == writer,
    {
        ArWriter { writer, wrote_magic: false, needs_pad: false, sent: Ghost(Seq::empty()) }
    }

    /// Write the ar global magic header (`!<arch>\n`) if not already written.
    pub fn ensure_magic(&mut self) -> (r: Result<(), std::io::Error>)
        ensures
            old(self).magic_written() ==> r is Ok && final(self).sent() == old(self).sent()
                && final(self).inner() == old(self).inner(),
            r is Ok ==> final(self).magic_written() && final(self).sent() == old(self).sent()
                + magic_prefix(old(self).magic_written()),
            final(self).pad_pending() == old(self).pad_pending(),
            r is Err ==> final(self).magic_written() == old(self).magic_written() && final(self).sent()
                == old(self).sent(),
    {
        if !self.wrote_magic {
            let magic: [u8; 8] = [0x21, 0x3C, 0x61, 0x72, 0x63, 0x68, 0x3E, 0x0A];
            write_all(&mut self.writer, &magic)?;
            self.wrote_magic = true;
            assert(magic@ =~= ar_magic());
            self.sent = Ghost(self.sent@ + magic@);
        }
        assert(old(self).sent() + magic_prefix(old(self).magic_written()) =~= self.sent());
        Ok(())
    }

    /// Write a 60-byte-wide ar member header (see [`member_header`]; a
    /// longer name or number widens it).
    pub fn write_header(&mut self, name: &str, size: u64, mtime: u64, mode: u32) -> (r: Result<(), std::io::Error>)
        ensures
            final(self).magic_written() == old(self).magic_written(),
            final(self).pad_pending() == old(self).pad_pending(),
            r is Ok ==> final(self).sent() == old(self).sent() + member_header(
                name@,
                size as nat,
                mtime as nat,
                mode as nat,
            ),
            r is Err ==> final(self).sent() == old(self).sent(),
    {
        let h = header_bytes(name, size, mtime, mode);
        write_all(&mut self.writer, h.as_slice())?;
        self.sent = Ghost(self.sent@ + h@);
        Ok(())
    }

    /// Write a complete member with data already in memory: the magic if
    /// not yet written, the header, the data, and a newline after odd-sized
    /// data.
    pub fn write_member(&mut self, name: &str, data: &[u8], mtime: u64, mode: u32) -> (r: Result<(), std::io::Error>)
        ensures
            r is Ok ==> final(self).magic_written(),
            final(self).pad_pending() == old(self).pad_pending(),
            r is Ok ==> final(self).sent() == old(self).sent() + magic_prefix(old(self).magic_written())
                + member_header(name@, data@.len(), mtime as nat, mode as nat) + data@ + member_pad(
                data@.len(),
            ),
    {
        self.ensure_magic()?;
        let ghost s1 = self.sent();
        self.write_header(name, data.len() as u64, mtime, mode)?;
        write_all(&mut self.writer, data)?;
        self.sent = Ghost(self.sent@ + data@);
        if data.len() % 2 != 0 {
            let nl: [u8; 1] = [0x0A];
            write_all(&mut self.writer, &nl)?;
            self.sent = Ghost(self.sent@ + nl@);
            assert(nl@ =~= member_pad(data@.len()));
        } else {
            assert(member_pad(data@.len()) =~= Seq::<u8>::empty());
        }
        assert(self.sent() =~= old(self).sent() + magic_prefix(old(self).magic_written())
            + member_header(name@, data@.len(), mtime as nat, mode as nat) + data@ + member_pad(
            data@.len(),
        ));
        Ok(())
    }

    /// Begin a streaming member. The caller must write exactly `size` bytes
    /// via [`writer_mut()`](Self::writer_mut), then call
    /// [`finish_member()`](Self::finish_member).
    pub fn begin_member(&mut self, name: &str, size: u64, mtime: u64, mode: u32) -> (r: Result<(), std::io::Error>)
        ensures
            r is Ok ==> final(self).magic_written() && final(self).pad_pending() == (size % 2 != 0),
            r is Ok ==> final(self).sent() == old(self).sent() + magic_prefix(old(self).magic_written())
                + member_header(name@, size as nat, mtime as nat, mode as nat),
    {
        self.ensure_magic()?;
        self.write_header(name, size, mtime, mode)?;
        self.needs_pad = size % 2 != 0;
        Ok(())
    }

    /// Get a mutable reference to the inner writer for streaming data
    /// after [`begin_member()`](Self::begin_member).
    pub fn writer_mut(&mut self) -> (r: &mut W)
        ensures
            *r == old(self).inner(),
            final(self).inner() == *final(r),
            final(self).magic_written() == old(self).magic_written(),
            final(self).pad_pending() == old(self).pad_pending(),
            final(self).sent() == old(self).sent(),
    {
        &mut self.writer
    }

    /// Write a chunk of a streaming member's data, after
    /// [`begin_member()`](Self::begin_member): the chunk is handed to the
    /// inner writer as it is.
    pub fn write_data(&mut self, data: &[u8]) -> (r: Result<(), std::io::Error>)
        ensures
            final(self).magic_written() == old(self).magic_written(),
            final(self).pad_pending() == old(self).pad_pending(),
            r is Ok ==> final(self).sent() == old(self).sent() + data@,
            r is Err ==> final(self).sent() == old(self).sent(),
    {
        write_all(&mut self.writer, data)?;
        self.sent = Ghost(self.sent@ + data@);
        Ok(())
    }

    /// Finish a streaming member (adds the padding byte if size was odd).
    pub fn finish_member(&mut self) -> (r: Result<(), std::io::Error>)
        ensures
            final(self).magic_written() == old(self).magic_written(),
            !old(self).pad_pending() ==> r is Ok && final(self).sent() == old(self).sent()
                && final(self).inner() == old(self).inner(),
            r is Ok ==> !final(self).pad_pending() && final(self).sent() == old(self).sent() + (
            if old(self).pad_pending() {
                seq![0x0Au8]
            } else {
                Seq::<u8>::empty()
            }),
    {
        if self.needs_pad {
            let nl: [u8; 1] = [0x0A];
            write_all(&mut self.writer, &nl)?;
            self.needs_pad = false;
            self.sent = Ghost(self.sent@ + nl@);
            assert(nl@ =~= seq![0x0Au8]);
        } else {
            assert(self.sent() =~= old(self).sent() + Seq::<u8>::empty());
        }
        Ok(())
    }

    /// Consume the writer and return the inner writer.
    pub fn finish(self) -> (r: Result<W, std::io::Error>)
        ensures
            r matches Ok(w) && w == self.inner(),
    {
        Ok(self.writer)
    }
}

/// A member written whole ([`ArWriter::write_member`]) and the same member
/// streamed ([`ArWriter::begin_member`], its data in chunks through
/// [`ArWriter::write_data`], then [`ArWriter::finish_member`]) add the same
/// bytes to what the writer has sent: the right side is what those three
/// calls add, by their contracts, when the chunks make up `data`.
pub proof fn law_streamed_member_matches_whole(
    magic_written: bool,
    name: Seq<char>,
    data: Seq<u8>,
    mtime: nat,
    mode: nat,
)
    ensures
        magic_prefix(magic_written) + member_header(name, data.len(), mtime, mode) + data + member_pad(
            data.len(),
        ) == (magic_prefix(magic_written) + member_header(name, data.len(), mtime, mode)) + data + (
        if data.len() % 2 != 0 {
            seq![0x0Au8]
        } else {
            Seq::<u8>::empty()
        }),
{
    if data.len() % 2 != 0 {
        assert(member_pad(data.len()) =~= seq![0x0Au8]);
    } else {
        assert(member_pad(data.len()) =~= Seq::<u8>::empty());
    }
}

} // verus!
