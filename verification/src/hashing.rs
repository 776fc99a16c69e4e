//! Digests of streamed data: the contents of a file, or a header followed
//! by a payload, read in chunks so that memory stays constant.
use vstd::prelude::*;

use md5::Digest;

verus! {

/// A digit of lowercase hexadecimal.
pub open spec fn is_lower_hex_digit(c: char) -> bool {
    ('0' <= c && c <= '9') || ('a' <= c && c <= 'f')
}

/// Whether `s` is `n` lowercase hexadecimal digits.
pub open spec fn is_lower_hex(s: Seq<char>, n: nat) -> bool {
    s.len() == n && forall|i: int| 0 <= i < s.len() ==> is_lower_hex_digit(#[trigger] s[i])
}

/// `md5::Md5` over everything `r` yields (copied in with `std::io::copy`),
/// formatted as lowercase hex: 16 bytes, two digits each. The digest itself
/// is not stated; a read error is returned as it came.
#[verifier::external_body]
pub(crate) fn md5_hex_of_reader<R: std::io::Read>(r: &mut R) -> (res: Result<String, std::io::Error>)
    ensures
        res matches Ok(h) ==> is_lower_hex(h@, 32),
{
    let mut hasher = md5::Md5::new();
    std::io::copy(r, &mut hasher)?;
    Ok(format!("{:x}", hasher.finalize()))
}

/// `sha2::Sha256` over everything `r` yields (copied in with
/// `std::io::copy`), formatted as lowercase hex: 32 bytes, two digits each.
/// The digest itself is not stated; a read error is returned as it came.
#[verifier::external_body]
pub(crate) fn sha256_hex_of_reader<R: std::io::Read>(r: &mut R) -> (res: Result<String, std::io::Error>)
    ensures
        res matches Ok(h) ==> is_lower_hex(h@, 64),
{
    let mut hasher = sha2::Sha256::new();
    std::io::copy(r, &mut hasher)?;
    Ok(format!("{:x}", hasher.finalize()))
}

/// `md5::Md5` over `header` followed by everything `payload` yields: the
/// 16 bytes of the digest. The digest itself is not stated; a read error is
/// returned as it came.
#[verifier::external_body]
pub(crate) fn md5_of_header_and_reader<R: std::io::Read>(header: &[u8], payload: &mut R) -> (res: Result<
    Vec<u8>,
    std::io::Error,
>)
    ensures
        res matches Ok(d) ==> d@.len() == 16,
{
    let mut hasher = md5::Md5::new();
    hasher.update(header);
    std::io::copy(payload, &mut hasher)?;
    Ok(hasher.finalize().to_vec())
}

} // verus!
