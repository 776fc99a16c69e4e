//! RPM Lead (96-byte fixed header) writer.
//!
//! The lead is a legacy structure at the very beginning of every RPM file.
//! Modern RPM tools mostly ignore it (metadata comes from the Header
//! section), but it must be present and structurally valid.
use vstd::prelude::*;

use crate::bytes::{be16, push_be16, push_bytes, push_zeros, utf8, zeros};
use crate::io::write_all;
use crate::rpm::RpmError;
use crate::text::str_eq;

verus! {

/// The RPM architecture number of an architecture name.
pub open spec fn arch_number(arch: Seq<char>) -> u16 {
    if arch == "x86_64"@ || arch == "i686"@ || arch == "i386"@ || arch == "i486"@ || arch
        == "i586"@ {
        1
    } else if arch == "aarch64"@ || arch == "armv7hl"@ || arch == "armv7l"@ {
        12
    } else if arch == "ppc64le"@ {
        16
    } else if arch == "s390x"@ {
        15
    } else {
        0
    }
}

/// The 66-byte name field: at most 65 bytes of the name, NUL-padded.
pub open spec fn name_field(name: Seq<u8>) -> Seq<u8> {
    let n = if name.len() < 65 {
        name.len()
    } else {
        65
    };
    name.take(n as int) + zeros((66 - n) as nat)
}

/// The 96 bytes of the lead: magic, format version 3.0, binary type, the
/// architecture number, the name field, OS 1 (Linux), signature type 5
/// (header-style), and 16 reserved zero bytes.
pub open spec fn lead_bytes(name: Seq<char>, arch: Seq<char>) -> Seq<u8> {
    seq![0xEDu8, 0xABu8, 0xEEu8, 0xDBu8, 3u8, 0u8, 0u8, 0u8] + be16(arch_number(arch)) + name_field(
        utf8(name),
    ) + be16(1) + be16(5) + zeros(16)
}

/// Map an architecture string to the RPM architecture number.
pub fn arch_to_num(arch: &str) -> (n: u16)
    ensures
        n == arch_number(arch@),
{
    if str_eq(arch, "x86_64") || str_eq(arch, "i686") || str_eq(arch, "i386") || str_eq(arch, "i486")
        || str_eq(arch, "i586") {
        1
    } else if str_eq(arch, "aarch64") || str_eq(arch, "armv7hl") || str_eq(arch, "armv7l") {
        12
    } else if str_eq(arch, "ppc64le") {
        16
    } else if str_eq(arch, "s390x") {
        15
    } else {
        0
    }
}

/// The 96 bytes of the lead for a package name and architecture.
pub fn lead(name: &str, arch: &str) -> (r: Vec<u8>)
    ensures
        r@ == lead_bytes(name@, arch@),
        r@.len() == 96,
{
    let mut out: Vec<u8> = Vec::new();
    out.push(0xED);
    out.push(0xAB);
    out.push(0xEE);
    out.push(0xDB);
    out.push(3);
    out.push(0);
    out.push(0);
    out.push(0);
    push_be16(&mut out, arch_to_num(arch));
    let name_bytes = name.as_bytes();
    let copy_len = if name_bytes.len() < 65 {
        name_bytes.len()
    } else {
        65
    };
    let mut i: usize = 0;
    let ghost start = out@;
    while i < copy_len
        invariant
            i <= copy_len <= name_bytes@.len(),
            out@ == start + name_bytes@.take(i as int),
        decreases copy_len - i,
    {
        out.push(name_bytes[i]);
        assert(name_bytes@.take(i + 1) =~= name_bytes@.take(i as int).push(name_bytes@[i as int]));
        i += 1;
    }
    push_zeros(&mut out, 66 - copy_len);
    push_be16(&mut out, 1);
    push_be16(&mut out, 5);
    push_zeros(&mut out, 16);
    assert(name_bytes@ == utf8(name@));
    assert(out@ =~= lead_bytes(name@, arch@));
    out
}

/// Write the RPM lead (96 bytes) to the output.
///
/// The name is truncated to 65 bytes and NUL-padded to 66; the architecture
/// is mapped to its RPM number. The bytes handed to the writer are
/// [`lead_bytes`]; an error of the writer is returned as `RpmError::Io`.
pub fn write_lead<W: std::io::Write>(writer: &mut W, name: &str, arch: &str) -> (r: Result<(), RpmError>)
    ensures
        r matches Err(e) ==> e is Io,
{
    let bytes = lead(name, arch);
    match write_all(writer, bytes.as_slice()) {
        Ok(()) => Ok(()),
        Err(e) => Err(RpmError::Io(e)),
    }
}


/// The name written into the lead: `<name>-<version>-<release>`.
pub fn lead_name(name: &str, version: &str, release: &str) -> (r: String)
    ensures
        r@ == name@ + "-"@ + version@ + "-"@ + release@,
{
    let mut v: Vec<char> = Vec::new();
    crate::text::extend_str(&mut v, name);
    crate::text::extend_str(&mut v, "-");
    crate::text::extend_str(&mut v, version);
    crate::text::extend_str(&mut v, "-");
    crate::text::extend_str(&mut v, release);
    crate::text::string_from_chars(&v)
}


/// The zero bytes that follow a signature header of `n` bytes, so that the
/// metadata header starts on an 8-byte boundary.
pub open spec fn signature_pad_len(n: nat) -> nat {
    ((8 - ((16 + n) % 8)) % 8) as nat
}

/// The start of an RPM file, up to its payload: the lead of `name` for
/// `arch`, the signature header and its padding, and the metadata header.
pub open spec fn rpm_file_head(name: Seq<char>, arch: Seq<char>, signature: Seq<u8>, header: Seq<u8>) -> Seq<u8> {
    lead_bytes(name, arch) + signature + zeros(signature_pad_len(signature.len())) + header
}

/// The bytes of an RPM file before its payload (see [`rpm_file_head`]).
pub fn rpm_file_prefix(name: &str, arch: &str, signature: &[u8], header: &[u8]) -> (r: Vec<u8>)
    ensures
        r@ == rpm_file_head(name@, arch@, signature@, header@),
{
    let mut out = lead(name, arch);
    push_bytes(&mut out, signature);
    let pad = crate::rpm::reader::signature_padding(signature.len() as u64);
    push_zeros(&mut out, pad as usize);
    push_bytes(&mut out, header);
    out
}

} // verus!
