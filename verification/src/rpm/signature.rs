//! The RPM signature header: the digest and size tags that let `rpm -K`
//! check a package's integrity without a GPG signature.
use vstd::prelude::*;

use sha1::Digest;

use crate::rpm::header::{build_view, header_bytes, region_trailer, EntryView, HeaderBuilder, TagData};
use crate::rpm::tags::{
    RPMSIGTAG_LONGARCHIVESIZE, RPMSIGTAG_LONGSIZE, RPMSIGTAG_MD5, RPMSIGTAG_PAYLOADSIZE,
    RPMSIGTAG_SHA1, RPMSIGTAG_SHA256, RPMSIGTAG_SIZE, RPMTAG_HEADERSIGNATURES,
};
use crate::hashing::{is_lower_hex_digit, md5_of_header_and_reader};
use crate::rpm::RpmError;

verus! {

/// The lowercase hex SHA-1 digest of `data`.
pub uninterp spec fn sha1_hex_of(data: Seq<u8>) -> Seq<char>;

/// The lowercase hex SHA-256 digest of `data`.
pub uninterp spec fn sha256_hex_of(data: Seq<u8>) -> Seq<char>;

/// `sha1::Sha1::digest` of `data`, formatted as lowercase hex; the
/// contract names the digest without stating it, and states its shape:
/// 20 bytes, two lowercase hex digits each.
#[verifier::external_body]
fn compute_sha1_hex(data: &[u8]) -> (r: String)
    ensures
        r@ == sha1_hex_of(data@),
        r@.len() == 40,
        forall|i: int| 0 <= i < r@.len() ==> is_lower_hex_digit(#[trigger] r@[i]),
{
    format!("{:x}", sha1::Sha1::digest(data))
}

/// `sha2::Sha256::digest` of `data`, formatted as lowercase hex; the
/// contract names the digest without stating it, and states its shape:
/// 32 bytes, two lowercase hex digits each.
#[verifier::external_body]
fn compute_sha256_hex(data: &[u8]) -> (r: String)
    ensures
        r@ == sha256_hex_of(data@),
        r@.len() == 64,
        forall|i: int| 0 <= i < r@.len() ==> is_lower_hex_digit(#[trigger] r@[i]),
{
    format!("{:x}", sha2::Sha256::digest(data))
}

/// The tags of the signature header, before its region tag: the SHA-1 and
/// SHA-256 digests of the metadata header, the size of header and payload
/// (in 32 bits only where it fits), the MD5 digest of header and payload,
/// and the uncompressed payload size (likewise).
pub open spec fn signature_entries(
    sha1: Seq<char>,
    sha256: Seq<char>,
    total: u64,
    md5: Seq<u8>,
    uncompressed: u64,
) -> Seq<EntryView> {
    let a: Seq<EntryView> = seq![(RPMSIGTAG_SHA1, TagData::Str(sha1)), (RPMSIGTAG_SHA256, TagData::Str(sha256))];
    let b = if total <= i32::MAX {
        a.push((RPMSIGTAG_SIZE, TagData::I32(seq![total as i32])))
    } else {
        a
    };
    let c = b.push((RPMSIGTAG_LONGSIZE, TagData::I64(seq![total as i64]))).push(
        (RPMSIGTAG_MD5, TagData::Bytes(md5)),
    );
    let d = if uncompressed <= i32::MAX {
        c.push((RPMSIGTAG_PAYLOADSIZE, TagData::I32(seq![uncompressed as i32])))
    } else {
        c
    };
    d.push((RPMSIGTAG_LONGARCHIVESIZE, TagData::I64(seq![uncompressed as i64])))
}

/// The serialized signature header: its tags closed by the signature
/// region tag.
pub open spec fn signature_header(
    sha1: Seq<char>,
    sha256: Seq<char>,
    total: u64,
    md5: Seq<u8>,
    uncompressed: u64,
) -> Result<Seq<u8>, Seq<char>> {
    let es = signature_entries(sha1, sha256, total, md5, uncompressed);
    header_bytes(es.push((RPMTAG_HEADERSIGNATURES, TagData::Bytes(region_trailer(RPMTAG_HEADERSIGNATURES, es.len())))))
}

/// Serialize the signature header from its digests and sizes: `total` is
/// the size of the metadata header and the compressed payload together,
/// `md5` the MD5 digest of both, `uncompressed` the size of the CPIO
/// archive before compression.
pub fn signature_from_digests(
    sha1: &str,
    sha256: &str,
    total: u64,
    md5: Vec<u8>,
    uncompressed: u64,
) -> (r: Result<Vec<u8>, RpmError>)
    ensures
        build_view(r) == signature_header(sha1@, sha256@, total, md5@, uncompressed),
{
    let ghost m = md5@;
    let mut hdr = HeaderBuilder::new();
    hdr.add_string(RPMSIGTAG_SHA1, sha1);
    hdr.add_string(RPMSIGTAG_SHA256, sha256);
    if total <= 0x7FFF_FFFF {
        let mut v: Vec<i32> = Vec::new();
        v.push(total as i32);
        hdr.add_int32(RPMSIGTAG_SIZE, v);
    }
    let mut v: Vec<i64> = Vec::new();
    v.push(#[verifier::truncate] (total as i64));
    hdr.add_int64(RPMSIGTAG_LONGSIZE, v);
    hdr.add_bin(RPMSIGTAG_MD5, md5);
    if uncompressed <= 0x7FFF_FFFF {
        let mut v: Vec<i32> = Vec::new();
        v.push(uncompressed as i32);
        hdr.add_int32(RPMSIGTAG_PAYLOADSIZE, v);
    }
    let mut v: Vec<i64> = Vec::new();
    v.push(#[verifier::truncate] (uncompressed as i64));
    hdr.add_int64(RPMSIGTAG_LONGARCHIVESIZE, v);
    let ghost es = signature_entries(sha1@, sha256@, total, m, uncompressed);
    assert(hdr.entries_view() =~= es);
    hdr.add_region_tag(RPMTAG_HEADERSIGNATURES);
    hdr.build()
}

/// Build the signature header of a package whose metadata header is
/// `header` and whose compressed payload is `payload_size` bytes long;
/// `md5` is the MD5 digest of the header followed by the payload.
pub fn build_signature(header: &[u8], payload_size: u64, md5: Vec<u8>, uncompressed: u64) -> (r: Result<
    Vec<u8>,
    RpmError,
>)
    requires
        header@.len() + payload_size <= u64::MAX,
    ensures
        build_view(r) == signature_header(
            sha1_hex_of(header@),
            sha256_hex_of(header@),
            (header@.len() + payload_size) as u64,
            md5@,
            uncompressed,
        ),
{
    let sha1 = compute_sha1_hex(header);
    let sha256 = compute_sha256_hex(header);
    let total = header.len() as u64 + payload_size;
    signature_from_digests(sha1.as_str(), sha256.as_str(), total, md5, uncompressed)
}

/// The MD5 digest of the metadata header followed by the compressed
/// payload, read from `payload` to its end; a read error is `RpmError::Io`.
pub fn compute_md5<R: std::io::Read>(header: &[u8], payload: &mut R) -> (r: Result<Vec<u8>, RpmError>)
    ensures
        r matches Ok(d) ==> d@.len() == 16,
        r matches Err(e) ==> e is Io,
{
    match md5_of_header_and_reader(header, payload) {
        Ok(d) => Ok(d),
        Err(e) => Err(RpmError::Io(e)),
    }
}

/// Build the signature header of a package whose metadata header is
/// `header` and whose compressed payload, `payload_size` bytes long, is read
/// from `payload`: the MD5 digest of both is computed here, the rest as in
/// [`build_signature`].
pub fn build_signature_from_payload<R: std::io::Read>(
    header: &[u8],
    payload: &mut R,
    payload_size: u64,
    uncompressed: u64,
) -> (r: Result<Vec<u8>, RpmError>)
    requires
        header@.len() + payload_size <= u64::MAX,
    ensures
        !(r matches Err(RpmError::Io(_))) ==> exists|m: Seq<u8>|
            m.len() == 16 && build_view(r) == #[trigger] signature_header(
                sha1_hex_of(header@),
                sha256_hex_of(header@),
                (header@.len() + payload_size) as u64,
                m,
                uncompressed,
            ),
{
    let md5 = compute_md5(header, payload)?;
    let ghost m = md5@;
    let r = build_signature(header, payload_size, md5, uncompressed);
    assert(build_view(r) == signature_header(
        sha1_hex_of(header@),
        sha256_hex_of(header@),
        (header@.len() + payload_size) as u64,
        m,
        uncompressed,
    ));
    r
}

} // verus!
