//! Reading the metadata of an existing RPM file.
//!
//! The file is read in pieces by the caller: the lead's magic, the
//! signature header's preamble (to skip the section), and the metadata
//! header's preamble, index and data. This module checks the pieces,
//! decodes the tag values, and picks the package metadata out of them.
use vstd::prelude::*;
use vstd::utf8::{decode_utf8, valid_utf8};

use crate::deps::strings_view;
use crate::rpm::header::TagData;
use crate::rpm::tags::{
    RPMTAG_ARCH, RPMTAG_BASENAMES, RPMTAG_DESCRIPTION, RPMTAG_LICENSE, RPMTAG_LONGSIZE,
    RPMTAG_NAME, RPMTAG_PACKAGER, RPMTAG_PAYLOADCOMPRESSOR, RPMTAG_RELEASE, RPMTAG_REQUIRENAME,
    RPMTAG_SIZE, RPMTAG_URL, RPMTAG_VENDOR, RPMTAG_VERSION,
};
use crate::rpm::RpmError;
use crate::text::{decimal, extend_str, lit, push_decimal, string_from_chars};

verus! {

/// Size of the RPM lead in bytes.
pub const LEAD_SIZE: u64 = 96;

/// The largest index count a header section may declare.
pub const MAX_INDEX_COUNT: u64 = 100000;

/// The largest data section a header section may declare (64 MiB).
pub const MAX_DATA_SIZE: u64 = 67108864;

/// Metadata extracted from an RPM file.
#[derive(Debug)]
pub struct RpmMetadata {
    pub name: String,
    pub version: String,
    pub release: String,
    pub arch: String,
    pub size: u64,
    pub description: String,
    pub license: String,
    pub url: Option<String>,
    pub vendor: Option<String>,
    pub packager: Option<String>,
    pub compressor: Option<String>,
    pub file_count: usize,
    /// The names of the required packages (`REQUIRENAME`).
    pub requirements: Vec<String>,
}

/// A parsed tag value from an RPM header.
#[derive(Debug, Clone)]
pub enum ParsedTagValue {
    String(String),
    StringArray(Vec<String>),
    Int32(Vec<i32>),
    Int64(Vec<i64>),
    Int16(Vec<i16>),
    Bin(Vec<u8>),
}

/// A parsed value as plain values (strings of both string types read as
/// [`TagData::Str`]).
pub open spec fn parsed_view(v: ParsedTagValue) -> TagData {
    match v {
        ParsedTagValue::String(s) => TagData::Str(s@),
        ParsedTagValue::StringArray(ss) => TagData::StrArray(strings_view(ss@)),
        ParsedTagValue::Int32(x) => TagData::I32(x@),
        ParsedTagValue::Int64(x) => TagData::I64(x@),
        ParsedTagValue::Int16(x) => TagData::I16(x@),
        ParsedTagValue::Bin(b) => TagData::Bytes(b@),
    }
}

/// Parsed tags as plain values.
pub open spec fn tags_view(tags: Seq<(u32, ParsedTagValue)>) -> Seq<(u32, TagData)> {
    tags.map_values(|t: (u32, ParsedTagValue)| (t.0, parsed_view(t.1)))
}

// ---------------------------------------------------------------------------
// Magic numbers and section sizes
// ---------------------------------------------------------------------------

/// The RPM lead magic.
pub open spec fn rpm_magic() -> Seq<u8> {
    seq![0xEDu8, 0xABu8, 0xEEu8, 0xDBu8]
}

/// The header section magic.
pub open spec fn header_magic_bytes() -> Seq<u8> {
    seq![0x8Eu8, 0xADu8, 0xE8u8, 0x01u8]
}

/// The error message of an [`RpmError::InvalidRpm`], none for other errors.
pub open spec fn invalid_rpm_message(e: RpmError) -> Option<Seq<char>> {
    match e {
        RpmError::InvalidRpm(m) => Some(m@),
        _ => None,
    }
}

/// Check the magic number at the start of an RPM file.
pub fn check_lead_magic(magic: &[u8]) -> (r: Result<(), RpmError>)
    requires
        magic@.len() == 4,
    ensures
        magic@ == rpm_magic() ==> r is Ok,
        magic@ != rpm_magic() ==> (r matches Err(e) && invalid_rpm_message(e) == Some(
            "not an RPM file (bad magic)"@,
        )),
{
    if magic[0] == 0xED && magic[1] == 0xAB && magic[2] == 0xEE && magic[3] == 0xDB {
        assert(magic@ =~= rpm_magic());
        Ok(())
    } else {
        assert(magic@ != rpm_magic()) by {
            if magic@ == rpm_magic() {
                assert(magic@[0] == 0xED && magic@[1] == 0xAB && magic@[2] == 0xEE && magic@[3]
                    == 0xDB);
            }
        }
        Err(RpmError::InvalidRpm(lit("not an RPM file (bad magic)")))
    }
}

/// The big-endian 32-bit word at `i`.
pub open spec fn be_u32_at(b: Seq<u8>, i: int) -> u32 {
    (b[i] as int * 0x1000000 + b[i + 1] as int * 0x10000 + b[i + 2] as int * 0x100 + b[i + 3] as int) as u32
}

/// The big-endian 16-bit word at `i`.
pub open spec fn be_u16_at(b: Seq<u8>, i: int) -> u16 {
    (b[i] as int * 0x100 + b[i + 1] as int) as u16
}

/// The big-endian 64-bit word at `i`.
pub open spec fn be_u64_at(b: Seq<u8>, i: int) -> u64 {
    (be_u32_at(b, i) as int * 0x100000000 + be_u32_at(b, i + 4) as int) as u64
}

fn be_u32_exec(b: &[u8], i: usize) -> (r: u32)
    requires
        i + 4 <= b.len(),
    ensures
        r == be_u32_at(b@, i as int),
{
    (b[i] as u32) * 0x1000000 + (b[i + 1] as u32) * 0x10000 + (b[i + 2] as u32) * 0x100 + (b[i
        + 3] as u32)
}

fn be_u16_exec(b: &[u8], i: usize) -> (r: u16)
    requires
        i + 2 <= b.len(),
    ensures
        r == be_u16_at(b@, i as int),
{
    (b[i] as u16) * 0x100 + (b[i + 1] as u16)
}

fn be_u64_exec(b: &[u8], i: usize) -> (r: u64)
    requires
        i + 8 <= b.len(),
    ensures
        r == be_u64_at(b@, i as int),
{
    let hi = be_u32_exec(b, i) as u64;
    let lo = be_u32_exec(b, i + 4) as u64;
    hi * 0x100000000 + lo
}

/// What a header preamble declares: the index count and the data size,
/// within the bounds that keep malformed files from demanding huge buffers.
pub open spec fn section_sizes(p: Seq<u8>) -> Result<(u64, u64), Seq<char>> {
    let n = be_u32_at(p, 8) as u64;
    let d = be_u32_at(p, 12) as u64;
    if p.take(4) != header_magic_bytes() {
        Err("invalid header magic"@)
    } else if n > MAX_INDEX_COUNT {
        Err("header index_count "@ + decimal(n as nat) + " exceeds maximum 100000"@)
    } else if d > MAX_DATA_SIZE {
        Err("header data_size "@ + decimal(d as nat) + " exceeds maximum 67108864"@)
    } else {
        Ok((n, d))
    }
}

/// Read the 16-byte preamble of a header section: its magic, then the
/// index count and data size it declares.
pub fn header_section_sizes(preamble: &[u8]) -> (r: Result<(u64, u64), RpmError>)
    requires
        preamble@.len() == 16,
    ensures
        match section_sizes(preamble@) {
            Ok(s) => r == Ok::<(u64, u64), RpmError>(s),
            Err(m) => r matches Err(e) && invalid_rpm_message(e) == Some(m),
        },
{
    if !(preamble[0] == 0x8E && preamble[1] == 0xAD && preamble[2] == 0xE8 && preamble[3] == 0x01) {
        assert(preamble@.take(4) != header_magic_bytes()) by {
            if preamble@.take(4) == header_magic_bytes() {
                assert(preamble@.take(4)[0] == preamble@[0]);
                assert(preamble@.take(4)[1] == preamble@[1]);
                assert(preamble@.take(4)[2] == preamble@[2]);
                assert(preamble@.take(4)[3] == preamble@[3]);
            }
        }
        return Err(RpmError::InvalidRpm(lit("invalid header magic")));
    }
    assert(preamble@.take(4) =~= header_magic_bytes());
    let n = be_u32_exec(preamble, 8) as u64;
    let d = be_u32_exec(preamble, 12) as u64;
    if n > MAX_INDEX_COUNT {
        let mut v: Vec<char> = Vec::new();
        extend_str(&mut v, "header index_count ");
        push_decimal(&mut v, n);
        extend_str(&mut v, " exceeds maximum 100000");
        return Err(RpmError::InvalidRpm(string_from_chars(&v)));
    }
    if d > MAX_DATA_SIZE {
        let mut v: Vec<char> = Vec::new();
        extend_str(&mut v, "header data_size ");
        push_decimal(&mut v, d);
        extend_str(&mut v, " exceeds maximum 67108864");
        return Err(RpmError::InvalidRpm(string_from_chars(&v)));
    }
    Ok((n, d))
}

/// The zero bytes that follow the signature header up to an 8-byte boundary.
pub fn signature_padding(sig_size: u64) -> (r: u64)
    ensures
        r == (8 - ((16 + sig_size) % 8)) % 8,
{
    (8 - (sig_size % 8)) % 8
}

// ---------------------------------------------------------------------------
// Tag values
// ---------------------------------------------------------------------------

/// `String::from_utf8`: the string the bytes encode, when they are valid
/// UTF-8, else none.
#[verifier::external_body]
pub(crate) fn utf8_decode(bytes: Vec<u8>) -> (r: Option<String>)
    ensures
        match r {
            Some(s) => valid_utf8(bytes@) && s@ == decode_utf8(bytes@),
            None => !valid_utf8(bytes@),
        },
{
    match String::from_utf8(bytes) {
        Ok(s) => Some(s),
        Err(_) => None,
    }
}

/// The first zero byte at or after `k`.
pub open spec fn first_zero_from(d: Seq<u8>, k: int) -> Option<int>
    decreases d.len() - k,
{
    if k < 0 || k >= d.len() {
        None
    } else if d[k] == 0 {
        Some(k)
    } else {
        first_zero_from(d, k + 1)
    }
}

/// The NUL-terminated UTF-8 string at `offset`.
pub open spec fn nul_string(d: Seq<u8>, offset: int) -> Option<Seq<char>> {
    if offset >= d.len() {
        None
    } else {
        match first_zero_from(d, offset) {
            None => None,
            Some(j) => if valid_utf8(d.subrange(offset, j)) {
                Some(decode_utf8(d.subrange(offset, j)))
            } else {
                None
            },
        }
    }
}

/// `count` NUL-terminated strings, one after another, from `pos`.
pub open spec fn strings_at(d: Seq<u8>, pos: int, count: nat) -> Option<Seq<Seq<char>>>
    decreases count,
{
    if count == 0 {
        Some(seq![])
    } else {
        match nul_string(d, pos) {
            None => None,
            Some(s) => match strings_at(d, first_zero_from(d, pos)->0 + 1, (count - 1) as nat) {
                Some(rest) => Some(seq![s] + rest),
                None => None,
            },
        }
    }
}

/// `count` values of `width` bytes from `offset`, when they all fit.
pub open spec fn fits(d: Seq<u8>, offset: int, count: int, width: int) -> bool {
    count == 0 || offset + count * width <= d.len()
}

/// The value of a tag of type `t` with `count` items at `offset`.
pub open spec fn tag_value_at(t: u32, offset: int, count: int, d: Seq<u8>) -> Option<TagData> {
    if t == 6 || t == 9 {
        match nul_string(d, offset) {
            Some(s) => Some(TagData::Str(s)),
            None => None,
        }
    } else if t == 8 {
        match strings_at(d, offset, count as nat) {
            Some(ss) => Some(TagData::StrArray(ss)),
            None => None,
        }
    } else if t == 3 {
        if fits(d, offset, count, 2) {
            Some(TagData::I16(Seq::new(count as nat, |i: int| be_u16_at(d, offset + i * 2) as i16)))
        } else {
            None
        }
    } else if t == 4 {
        if fits(d, offset, count, 4) {
            Some(TagData::I32(Seq::new(count as nat, |i: int| be_u32_at(d, offset + i * 4) as i32)))
        } else {
            None
        }
    } else if t == 5 {
        if fits(d, offset, count, 8) {
            Some(TagData::I64(Seq::new(count as nat, |i: int| be_u64_at(d, offset + i * 8) as i64)))
        } else {
            None
        }
    } else if t == 7 {
        if offset + count > d.len() {
            None
        } else {
            Some(TagData::Bytes(d.subrange(offset, offset + count)))
        }
    } else {
        None
    }
}

/// Where the first zero byte at or after `k` is.
proof fn lemma_first_zero(d: Seq<u8>, k: int)
    ensures
        match first_zero_from(d, k) {
            Some(j) => 0 <= k <= j < d.len() && d[j] == 0 && forall|i: int| k <= i < j ==> d[i] != 0,
            None => forall|i: int| 0 <= k <= i < d.len() ==> d[i] != 0,
        },
    decreases d.len() - k,
{
    if 0 <= k < d.len() && d[k] != 0 {
        lemma_first_zero(d, k + 1);
    }
}

/// Read a NUL-terminated string from a byte slice at the given offset.
pub fn read_nul_string(data: &Vec<u8>, offset: usize) -> (r: Option<String>)
    ensures
        match r {
            Some(s) => nul_string(data@, offset as int) == Some(s@),
            None => nul_string(data@, offset as int) is None,
        },
{
    if offset >= data.len() {
        return None;
    }
    proof {
        lemma_first_zero(data@, offset as int);
    }
    let mut j = offset;
    while j < data.len() && data[j] != 0
        invariant
            offset <= j <= data.len(),
            forall|i: int| offset <= i < j ==> data@[i] != 0,
        decreases data.len() - j,
    {
        j += 1;
    }
    if j == data.len() {
        assert(first_zero_from(data@, offset as int) is None) by {
            if first_zero_from(data@, offset as int) is Some {
                let z = first_zero_from(data@, offset as int)->0;
                assert(data@[z] == 0);
            }
        }
        return None;
    }
    assert(first_zero_from(data@, offset as int) == Some(j as int)) by {
        lemma_first_zero(data@, offset as int);
        if first_zero_from(data@, offset as int) is None {
            assert(data@[j as int] != 0);
        } else {
            let z = first_zero_from(data@, offset as int)->0;
            if z < j {
                assert(data@[z] != 0);
            }
            if z > j {
                assert(data@[j as int] != 0);
            }
        }
    }
    let mut bytes: Vec<u8> = Vec::new();
    let mut k = offset;
    while k < j
        invariant
            offset <= k <= j < data.len(),
            bytes@ == data@.subrange(offset as int, k as int),
        decreases j - k,
    {
        bytes.push(data[k]);
        k += 1;
        assert(bytes@ =~= data@.subrange(offset as int, k as int));
    }
    utf8_decode(bytes)
}

/// `count` NUL-terminated strings from `offset`.
fn read_strings(data: &Vec<u8>, offset: usize, count: usize) -> (r: Option<Vec<String>>)
    ensures
        match r {
            Some(v) => strings_at(data@, offset as int, count as nat) == Some(strings_view(v@)),
            None => strings_at(data@, offset as int, count as nat) is None,
        },
{
    let mut out: Vec<String> = Vec::new();
    let mut pos = offset;
    let mut i: usize = 0;
    let ghost mut rest_pos: int = offset as int;
    while i < count
        invariant
            i <= count,
            rest_pos == pos as int,
            strings_at(data@, offset as int, count as nat) == match strings_at(
                data@,
                pos as int,
                (count - i) as nat,
            ) {
                Some(rest) => Some(strings_view(out@) + rest),
                None => None::<Seq<Seq<char>>>,
            },
        decreases count - i,
    {
        match read_nul_string(data, pos) {
            None => {
                return None;
            },
            Some(s) => {
                proof {
                    lemma_first_zero(data@, pos as int);
                }
                let z = first_zero_exec(data, pos);
                let ghost o0 = out@;
                let ghost sv = s@;
                out.push(s);
                assert(strings_view(out@) =~= strings_view(o0).push(sv));
                let ghost before = strings_at(data@, pos as int, (count - i) as nat);
                let ghost after = strings_at(data@, z + 1, (count - i - 1) as nat);
                assert(before == match after {
                    Some(r) => Some(seq![sv] + r),
                    None => None::<Seq<Seq<char>>>,
                });
                proof {
                    if let Some(r) = after {
                        assert(strings_view(o0) + (seq![sv] + r) =~= strings_view(out@) + r);
                    }
                }
                pos = z + 1;
                proof {
                    rest_pos = pos as int;
                }
            },
        }
        i += 1;
    }
    assert(strings_view(out@) + Seq::<Seq<char>>::empty() =~= strings_view(out@));
    Some(out)
}

/// The position of the first zero byte at or after `k`, known to exist.
fn first_zero_exec(data: &Vec<u8>, k: usize) -> (z: usize)
    requires
        first_zero_from(data@, k as int) is Some,
    ensures
        first_zero_from(data@, k as int) == Some(z as int),
        z < data.len(),
{
    proof {
        lemma_first_zero(data@, k as int);
    }
    let mut j = k;
    while data[j] != 0
        invariant
            k <= j <= first_zero_from(data@, k as int)->0,
            data@.len() == data.len(),
            first_zero_from(data@, k as int)->0 < data@.len(),
            data@[first_zero_from(data@, k as int)->0] == 0,
        decreases first_zero_from(data@, k as int)->0 - j,
    {
        j += 1;
    }
    proof {
        let z = first_zero_from(data@, k as int)->0;
        if j < z {
            assert(data@[j as int] != 0);
        }
    }
    j
}

/// Extract a tag value from the data section based on type, offset, and count.
pub fn extract_tag_value(tag_type: u32, offset: usize, count: usize, data: &Vec<u8>) -> (r: Option<ParsedTagValue>)
    ensures
        match r {
            Some(v) => tag_value_at(tag_type, offset as int, count as int, data@) == Some(parsed_view(v)),
            None => tag_value_at(tag_type, offset as int, count as int, data@) is None,
        },
{
    let n = data.len();
    if tag_type == 6 || tag_type == 9 {
        match read_nul_string(data, offset) {
            Some(s) => Some(ParsedTagValue::String(s)),
            None => None,
        }
    } else if tag_type == 8 {
        match read_strings(data, offset, count) {
            Some(v) => Some(ParsedTagValue::StringArray(v)),
            None => None,
        }
    } else if tag_type == 3 {
        if count != 0 && (offset as u128) + (count as u128) * 2 > n as u128 {
            return None;
        }
        let mut values: Vec<i16> = Vec::new();
        let mut i: usize = 0;
        while i < count
            invariant
                i <= count,
                n == data@.len(),
                count == 0 || offset + count * 2 <= n,
                values@ == Seq::new(i as nat, |k: int| be_u16_at(data@, offset + k * 2) as i16),
            decreases count - i,
        {
            assert(offset + i * 2 + 2 <= offset + count * 2) by (nonlinear_arith)
                requires
                    i < count,
            ;
            let o = offset + i * 2;
            values.push(#[verifier::truncate] (be_u16_exec(data.as_slice(), o) as i16));
            i += 1;
            assert(values@ =~= Seq::new(i as nat, |k: int| be_u16_at(data@, offset + k * 2) as i16));
        }
        Some(ParsedTagValue::Int16(values))
    } else if tag_type == 4 {
        if count != 0 && (offset as u128) + (count as u128) * 4 > n as u128 {
            return None;
        }
        let mut values: Vec<i32> = Vec::new();
        let mut i: usize = 0;
        while i < count
            invariant
                i <= count,
                n == data@.len(),
                count == 0 || offset + count * 4 <= n,
                values@ == Seq::new(i as nat, |k: int| be_u32_at(data@, offset + k * 4) as i32),
            decreases count - i,
        {
            assert(offset + i * 4 + 4 <= offset + count * 4) by (nonlinear_arith)
                requires
                    i < count,
            ;
            let o = offset + i * 4;
            values.push(#[verifier::truncate] (be_u32_exec(data.as_slice(), o) as i32));
            i += 1;
            assert(values@ =~= Seq::new(i as nat, |k: int| be_u32_at(data@, offset + k * 4) as i32));
        }
        Some(ParsedTagValue::Int32(values))
    } else if tag_type == 5 {
        if count != 0 && (offset as u128) + (count as u128) * 8 > n as u128 {
            return None;
        }
        let mut values: Vec<i64> = Vec::new();
        let mut i: usize = 0;
        while i < count
            invariant
                i <= count,
                n == data@.len(),
                count == 0 || offset + count * 8 <= n,
                values@ == Seq::new(i as nat, |k: int| be_u64_at(data@, offset + k * 8) as i64),
            decreases count - i,
        {
            assert(offset + i * 8 + 8 <= offset + count * 8) by (nonlinear_arith)
                requires
                    i < count,
            ;
            let o = offset + i * 8;
            values.push(#[verifier::truncate] (be_u64_exec(data.as_slice(), o) as i64));
            i += 1;
            assert(values@ =~= Seq::new(i as nat, |k: int| be_u64_at(data@, offset + k * 8) as i64));
        }
        Some(ParsedTagValue::Int64(values))
    } else if tag_type == 7 {
        if (offset as u128) + (count as u128) > n as u128 {
            return None;
        }
        let mut b: Vec<u8> = Vec::new();
        let mut k = offset;
        let end = offset + count;
        while k < end
            invariant
                offset <= k <= end,
                end == offset + count,
                end <= data@.len(),
                b@ == data@.subrange(offset as int, k as int),
            decreases end - k,
        {
            b.push(data[k]);
            k += 1;
            assert(b@ =~= data@.subrange(offset as int, k as int));
        }
        Some(ParsedTagValue::Bin(b))
    } else {
        None
    }
}

// ---------------------------------------------------------------------------
// Header sections
// ---------------------------------------------------------------------------

/// The tag and value of index entry `k`, unless it is a region entry
/// (negative offset) or its value cannot be read.
pub open spec fn index_entry_value(ib: Seq<u8>, k: int, d: Seq<u8>) -> Option<(u32, TagData)> {
    let base = 16 * k;
    let tag = be_u32_at(ib, base);
    let t = be_u32_at(ib, base + 4);
    let off = be_u32_at(ib, base + 8) as i32;
    let cnt = be_u32_at(ib, base + 12);
    if off < 0 {
        None
    } else {
        match tag_value_at(t, off as int, cnt as int, d) {
            Some(v) => Some((tag, v)),
            None => None,
        }
    }
}

/// The readable entries among the first `n` index entries, in index order.
pub open spec fn parsed_entries(ib: Seq<u8>, d: Seq<u8>, n: nat) -> Seq<(u32, TagData)>
    decreases n,
{
    if n == 0 {
        seq![]
    } else {
        parsed_entries(ib, d, (n - 1) as nat) + match index_entry_value(ib, n - 1, d) {
            Some(e) => seq![e],
            None => seq![],
        }
    }
}

/// Parse the index entries and data section of a header section, returning
/// the tag values that could be read (region entries are skipped).
pub fn parse_header_section(index: &Vec<u8>, data: &Vec<u8>, index_count: usize) -> (r: Vec<(u32, ParsedTagValue)>)
    requires
        index.len() == index_count * 16,
    ensures
        tags_view(r@) == parsed_entries(index@, data@, index_count as nat),
{
    let mut tags: Vec<(u32, ParsedTagValue)> = Vec::new();
    let mut i: usize = 0;
    while i < index_count
        invariant
            i <= index_count,
            index.len() == index_count * 16,
            tags_view(tags@) == parsed_entries(index@, data@, i as nat),
        decreases index_count - i,
    {
        assert(16 * i + 16 <= 16 * index_count) by (nonlinear_arith)
            requires
                i < index_count,
        ;
        let base = i * 16;
        let tag = be_u32_exec(index.as_slice(), base);
        let tag_type = be_u32_exec(index.as_slice(), base + 4);
        let off = #[verifier::truncate] (be_u32_exec(index.as_slice(), base + 8) as i32);
        let count = be_u32_exec(index.as_slice(), base + 12);
        let ghost t0 = tags@;
        if off >= 0 {
            let offset = off as usize;
            match extract_tag_value(tag_type, offset, count as usize, data) {
                Some(v) => {
                    let ghost pv = parsed_view(v);
                    tags.push((tag, v));
                    assert(tags_view(tags@) =~= tags_view(t0).push((tag, pv)));
                },
                None => {},
            }
        }
        i += 1;
        assert(tags_view(tags@) =~= parsed_entries(index@, data@, i as nat));
    }
    tags
}

// ---------------------------------------------------------------------------
// Picking values out
// ---------------------------------------------------------------------------

/// The value of the first entry with tag `t`.
pub open spec fn first_value(tags: Seq<(u32, TagData)>, t: u32) -> Option<TagData>
    decreases tags.len(),
{
    if tags.len() == 0 {
        None
    } else if tags[0].0 == t {
        Some(tags[0].1)
    } else {
        first_value(tags.drop_first(), t)
    }
}

/// A string: the string, or the first of a non-empty string array.
pub open spec fn string_of(v: Option<TagData>) -> Option<Seq<char>> {
    match v {
        Some(TagData::Str(s)) => Some(s),
        Some(TagData::StrArray(ss)) => if ss.len() > 0 {
            Some(ss[0])
        } else {
            None
        },
        _ => None,
    }
}

/// The first value of a non-empty INT32 array.
pub open spec fn i32_of(v: Option<TagData>) -> Option<i32> {
    match v {
        Some(TagData::I32(x)) => if x.len() > 0 {
            Some(x[0])
        } else {
            None
        },
        _ => None,
    }
}

/// The first value of a non-empty INT64 array.
pub open spec fn i64_of(v: Option<TagData>) -> Option<i64> {
    match v {
        Some(TagData::I64(x)) => if x.len() > 0 {
            Some(x[0])
        } else {
            None
        },
        _ => None,
    }
}

/// A string array.
pub open spec fn strings_of(v: Option<TagData>) -> Option<Seq<Seq<char>>> {
    match v {
        Some(TagData::StrArray(ss)) => Some(ss),
        _ => None,
    }
}

/// The position of the first entry with tag `t`.
fn find_tag(tags: &Vec<(u32, ParsedTagValue)>, tag_num: u32) -> (r: Option<usize>)
    ensures
        match r {
            Some(i) => i < tags@.len() && first_value(tags_view(tags@), tag_num) == Some(
                parsed_view(tags@[i as int].1),
            ),
            None => first_value(tags_view(tags@), tag_num) is None,
        },
{
    let ghost tv = tags_view(tags@);
    let mut i: usize = 0;
    assert(tv.skip(0) =~= tv);
    while i < tags.len()
        invariant
            i <= tags.len(),
            tv == tags_view(tags@),
            first_value(tv, tag_num) == first_value(tv.skip(i as int), tag_num),
        decreases tags.len() - i,
    {
        assert(tv.skip(i as int)[0] == (tags@[i as int].0, parsed_view(tags@[i as int].1)));
        if tags[i].0 == tag_num {
            return Some(i);
        }
        assert(tv.skip(i as int).drop_first() =~= tv.skip(i + 1));
        i += 1;
    }
    None
}

/// Extract a string tag value.
pub fn extract_string(tags: &Vec<(u32, ParsedTagValue)>, tag_num: u32) -> (r: Option<String>)
    ensures
        match r {
            Some(s) => string_of(first_value(tags_view(tags@), tag_num)) == Some(s@),
            None => string_of(first_value(tags_view(tags@), tag_num)) is None,
        },
{
    match find_tag(tags, tag_num) {
        None => None,
        Some(i) => match &tags[i].1 {
            ParsedTagValue::String(s) => Some(s.clone()),
            ParsedTagValue::StringArray(v) => if v.len() > 0 {
                Some(v[0].clone())
            } else {
                None
            },
            _ => None,
        },
    }
}

/// Extract the first i32 value from a tag.
pub fn extract_i32(tags: &Vec<(u32, ParsedTagValue)>, tag_num: u32) -> (r: Option<i32>)
    ensures
        r == i32_of(first_value(tags_view(tags@), tag_num)),
{
    match find_tag(tags, tag_num) {
        None => None,
        Some(i) => match &tags[i].1 {
            ParsedTagValue::Int32(v) => if v.len() > 0 {
                Some(v[0])
            } else {
                None
            },
            _ => None,
        },
    }
}

/// Extract the first i64 value from a tag.
pub fn extract_i64(tags: &Vec<(u32, ParsedTagValue)>, tag_num: u32) -> (r: Option<i64>)
    ensures
        r == i64_of(first_value(tags_view(tags@), tag_num)),
{
    match find_tag(tags, tag_num) {
        None => None,
        Some(i) => match &tags[i].1 {
            ParsedTagValue::Int64(v) => if v.len() > 0 {
                Some(v[0])
            } else {
                None
            },
            _ => None,
        },
    }
}

/// Extract a string array tag value.
pub fn extract_string_array(tags: &Vec<(u32, ParsedTagValue)>, tag_num: u32) -> (r: Option<Vec<String>>)
    ensures
        match r {
            Some(v) => strings_of(first_value(tags_view(tags@), tag_num)) == Some(strings_view(v@)),
            None => strings_of(first_value(tags_view(tags@), tag_num)) is None,
        },
{
    match find_tag(tags, tag_num) {
        None => None,
        Some(i) => match &tags[i].1 {
            ParsedTagValue::StringArray(v) => Some(v.clone()),
            _ => None,
        },
    }
}

/// A string with a fallback.
pub open spec fn string_or(v: Option<Seq<char>>, d: Seq<char>) -> Seq<char> {
    match v {
        Some(s) => s,
        None => d,
    }
}

/// An optional string as plain values.
pub open spec fn opt_view(o: Option<String>) -> Option<Seq<char>> {
    match o {
        Some(s) => Some(s@),
        None => None,
    }
}

/// The installed size: LONGSIZE, else SIZE, else 0.
pub open spec fn size_from(tags: Seq<(u32, TagData)>) -> u64 {
    match i64_of(first_value(tags, RPMTAG_LONGSIZE)) {
        Some(v) => v as u64,
        None => match i32_of(first_value(tags, RPMTAG_SIZE)) {
            Some(v) => v as u64,
            None => 0,
        },
    }
}

fn string_or_exec(v: Option<String>, d: &str) -> (r: String)
    ensures
        r@ == string_or(opt_view(v), d@),
{
    match v {
        Some(s) => s,
        None => lit(d),
    }
}

/// The package metadata from the tags of a metadata header.
pub fn metadata_from_tags(tags: &Vec<(u32, ParsedTagValue)>) -> (m: RpmMetadata)
    ensures
        ({
            let tv = tags_view(tags@);
            &&& m.name@ == string_or(string_of(first_value(tv, RPMTAG_NAME)), "<unknown>"@)
            &&& m.version@ == string_or(string_of(first_value(tv, RPMTAG_VERSION)), "<unknown>"@)
            &&& m.release@ == string_or(string_of(first_value(tv, RPMTAG_RELEASE)), "<unknown>"@)
            &&& m.arch@ == string_or(string_of(first_value(tv, RPMTAG_ARCH)), "<unknown>"@)
            &&& m.size == size_from(tv)
            &&& m.description@ == string_or(string_of(first_value(tv, RPMTAG_DESCRIPTION)), seq![])
            &&& m.license@ == string_or(string_of(first_value(tv, RPMTAG_LICENSE)), seq![])
            &&& opt_view(m.url) == string_of(first_value(tv, RPMTAG_URL))
            &&& opt_view(m.vendor) == string_of(first_value(tv, RPMTAG_VENDOR))
            &&& opt_view(m.packager) == string_of(first_value(tv, RPMTAG_PACKAGER))
            &&& opt_view(m.compressor) == string_of(first_value(tv, RPMTAG_PAYLOADCOMPRESSOR))
            &&& m.file_count == match strings_of(first_value(tv, RPMTAG_BASENAMES)) {
                Some(ss) => ss.len(),
                None => 0,
            }
            &&& strings_view(m.requirements@) == match strings_of(first_value(tv, RPMTAG_REQUIRENAME)) {
                Some(ss) => ss,
                None => seq![],
            }
        }),
{
    let name = string_or_exec(extract_string(tags, RPMTAG_NAME), "<unknown>");
    let version = string_or_exec(extract_string(tags, RPMTAG_VERSION), "<unknown>");
    let release = string_or_exec(extract_string(tags, RPMTAG_RELEASE), "<unknown>");
    let arch = string_or_exec(extract_string(tags, RPMTAG_ARCH), "<unknown>");
    let size: u64 = match extract_i64(tags, RPMTAG_LONGSIZE) {
        Some(v) => #[verifier::truncate] (v as u64),
        None => match extract_i32(tags, RPMTAG_SIZE) {
            Some(v) => #[verifier::truncate] (v as u64),
            None => 0,
        },
    };
    let description = string_or_exec(extract_string(tags, RPMTAG_DESCRIPTION), "");
    let license = string_or_exec(extract_string(tags, RPMTAG_LICENSE), "");
    let url = extract_string(tags, RPMTAG_URL);
    let vendor = extract_string(tags, RPMTAG_VENDOR);
    let packager = extract_string(tags, RPMTAG_PACKAGER);
    let compressor = extract_string(tags, RPMTAG_PAYLOADCOMPRESSOR);
    let file_count = match extract_string_array(tags, RPMTAG_BASENAMES) {
        Some(v) => v.len(),
        None => 0,
    };
    let requirements = match extract_string_array(tags, RPMTAG_REQUIRENAME) {
        Some(v) => v,
        None => {
            let e: Vec<String> = Vec::new();
            assert(strings_view(e@) =~= Seq::<Seq<char>>::empty());
            e
        },
    };
    proof {
        reveal_strlit("");
    }
    RpmMetadata {
        name,
        version,
        release,
        arch,
        size,
        description,
        license,
        url,
        vendor,
        packager,
        compressor,
        file_count,
        requirements,
    }
}

} // verus!
