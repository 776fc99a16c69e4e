//! RPM header structure builder.
//!
//! Builds the binary representation of an RPM header section, used for both
//! the metadata header and the signature header:
//!
//! ```text
//! Magic:       0x8E 0xAD 0xE8 0x01 (4 bytes)
//! Reserved:    0x00 0x00 0x00 0x00 (4 bytes)
//! Index count: u32 big-endian       (4 bytes)
//! Data size:   u32 big-endian       (4 bytes)
//! Index entries: count × 16 bytes each (tag, type, offset, count — all u32 BE)
//! Data section: variable length
//! ```
//!
//! In the data section INT16 values are 2-byte aligned, INT32 values 4-byte
//! aligned and INT64 values 8-byte aligned; strings, string arrays and
//! binary blobs need no alignment. The data of the region tags (62, 63)
//! comes last, while the index lists every entry by ascending tag number.
use vstd::prelude::*;

use crate::bytes::{
    be16, be32, be64, push_be16, push_be32, push_be64, push_bytes, push_utf8, push_zeros, utf8,
    zeros,
};
use crate::rpm::tags::{type_code, TagType};
use crate::rpm::RpmError;
use crate::text::{extend_str, push_decimal, string_from_chars};

verus! {

/// A tag value to be written into an RPM header's data section.
#[derive(Debug, Clone)]
pub enum TagValue {
    /// Single NUL-terminated string.
    String(String),
    /// Array of NUL-terminated strings.
    StringArray(Vec<String>),
    /// Internationalized string (written identically to String).
    I18NString(String),
    /// Array of signed 32-bit integers.
    Int32(Vec<i32>),
    /// Array of signed 64-bit integers.
    Int64(Vec<i64>),
    /// Array of signed 16-bit integers.
    Int16(Vec<i16>),
    /// Binary blob (arbitrary bytes).
    Bin(Vec<u8>),
}

/// The contents of a tag value.
pub enum TagData {
    Str(Seq<char>),
    StrArray(Seq<Seq<char>>),
    I18N(Seq<char>),
    I32(Seq<i32>),
    I64(Seq<i64>),
    I16(Seq<i16>),
    Bytes(Seq<u8>),
}

/// The contents of a tag value.
pub open spec fn tag_data(v: TagValue) -> TagData {
    match v {
        TagValue::String(s) => TagData::Str(s@),
        TagValue::StringArray(ss) => TagData::StrArray(ss@.map_values(|s: String| s@)),
        TagValue::I18NString(s) => TagData::I18N(s@),
        TagValue::Int32(v) => TagData::I32(v@),
        TagValue::Int64(v) => TagData::I64(v@),
        TagValue::Int16(v) => TagData::I16(v@),
        TagValue::Bin(b) => TagData::Bytes(b@),
    }
}

/// The RPM type of a value.
pub open spec fn data_type(d: TagData) -> TagType {
    match d {
        TagData::Str(_) => TagType::String,
        TagData::StrArray(_) => TagType::StringArray,
        TagData::I18N(_) => TagType::I18NString,
        TagData::I32(_) => TagType::Int32,
        TagData::I64(_) => TagType::Int64,
        TagData::I16(_) => TagType::Int16,
        TagData::Bytes(_) => TagType::Bin,
    }
}

/// The count of an index entry: 1 for a string, else the number of items
/// (truncated to 32 bits).
pub open spec fn data_count(d: TagData) -> u32 {
    match d {
        TagData::Str(_) => 1,
        TagData::I18N(_) => 1,
        TagData::StrArray(v) => v.len() as u32,
        TagData::I32(v) => v.len() as u32,
        TagData::I64(v) => v.len() as u32,
        TagData::I16(v) => v.len() as u32,
        TagData::Bytes(v) => v.len() as u32,
    }
}

/// The alignment of a value in the data section.
pub open spec fn data_align(d: TagData) -> nat {
    match d {
        TagData::I16(_) => 2,
        TagData::I32(_) => 4,
        TagData::I64(_) => 8,
        _ => 1,
    }
}

/// NUL-terminated UTF-8 strings, one after another.
pub open spec fn strings_bytes(ss: Seq<Seq<char>>) -> Seq<u8>
    decreases ss.len(),
{
    if ss.len() == 0 {
        seq![]
    } else {
        strings_bytes(ss.drop_last()) + utf8(ss.last()) + seq![0u8]
    }
}

/// Big-endian 16-bit integers.
pub open spec fn i16s_bytes(v: Seq<i16>) -> Seq<u8>
    decreases v.len(),
{
    if v.len() == 0 {
        seq![]
    } else {
        i16s_bytes(v.drop_last()) + be16(v.last() as u16)
    }
}

/// Big-endian 32-bit integers.
pub open spec fn i32s_bytes(v: Seq<i32>) -> Seq<u8>
    decreases v.len(),
{
    if v.len() == 0 {
        seq![]
    } else {
        i32s_bytes(v.drop_last()) + be32(v.last() as u32)
    }
}

/// Big-endian 64-bit integers.
pub open spec fn i64s_bytes(v: Seq<i64>) -> Seq<u8>
    decreases v.len(),
{
    if v.len() == 0 {
        seq![]
    } else {
        i64s_bytes(v.drop_last()) + be64(v.last() as u64)
    }
}

/// The bytes a value occupies in the data section.
pub open spec fn data_bytes(d: TagData) -> Seq<u8> {
    match d {
        TagData::Str(s) => utf8(s) + seq![0u8],
        TagData::I18N(s) => utf8(s) + seq![0u8],
        TagData::StrArray(ss) => strings_bytes(ss),
        TagData::I16(v) => i16s_bytes(v),
        TagData::I32(v) => i32s_bytes(v),
        TagData::I64(v) => i64s_bytes(v),
        TagData::Bytes(b) => b,
    }
}

/// An entry: its tag and contents.
pub type EntryView = (u32, TagData);

/// The tags whose data is placed at the end: the signature and immutable
/// regions.
pub open spec fn is_region(tag: u32) -> bool {
    tag == 62 || tag == 63
}

/// The data-layout key: regular tags by number, then region tags by number.
pub open spec fn layout_key(tag: u32) -> u64 {
    if is_region(tag) {
        (0x100000000 + tag as u64) as u64
    } else {
        tag as u64
    }
}

/// `x` inserted into the key-sorted `s` after every element whose key is not
/// larger (a stable insertion).
pub open spec fn insert_by_key(s: Seq<(u64, usize)>, x: (u64, usize)) -> Seq<(u64, usize)>
    decreases s.len(),
{
    if s.len() == 0 || s.last().0 <= x.0 {
        s.push(x)
    } else {
        insert_by_key(s.drop_last(), x).push(s.last())
    }
}

/// A stable sort by key.
pub open spec fn sort_by_key(s: Seq<(u64, usize)>) -> Seq<(u64, usize)>
    decreases s.len(),
{
    if s.len() == 0 {
        seq![]
    } else {
        insert_by_key(sort_by_key(s.drop_last()), s.last())
    }
}

/// The entries in data-layout order: by [`layout_key`], ties in the order
/// they were added.
pub open spec fn layout_order(es: Seq<EntryView>) -> Seq<EntryView> {
    let keyed = Seq::new(es.len(), |i: int| (layout_key(es[i].0), i as usize));
    sort_by_key(keyed).map_values(|p: (u64, usize)| es[p.1 as int])
}

/// An index entry: tag, type code, data offset, count.
pub type IndexView = (u32, u32, i32, u32);

/// The data section and index entries (in layout order) after laying out
/// `es`, or the length of the data section when an entry would start
/// beyond `i32::MAX`.
pub open spec fn layout(es: Seq<EntryView>) -> Result<(Seq<u8>, Seq<IndexView>), nat>
    decreases es.len(),
{
    if es.len() == 0 {
        Ok((seq![], seq![]))
    } else {
        match layout(es.drop_last()) {
            Err(n) => Err(n),
            Ok((data, idx)) => {
                let (tag, d) = es.last();
                let a = data_align(d);
                let padded = data + zeros(((a - data.len() % a) % (a as int)) as nat);
                if padded.len() > i32::MAX {
                    Err(padded.len())
                } else {
                    Ok(
                        (
                            padded + data_bytes(d),
                            idx.push(
                                (tag, type_code(data_type(d)), padded.len() as i32, data_count(d)),
                            ),
                        ),
                    )
                }
            },
        }
    }
}

/// The index entries by ascending tag, ties in layout order.
pub open spec fn index_order(idx: Seq<IndexView>) -> Seq<IndexView> {
    let keyed = Seq::new(idx.len(), |i: int| (idx[i].0 as u64, i as usize));
    sort_by_key(keyed).map_values(|p: (u64, usize)| idx[p.1 as int])
}

/// The sixteen bytes of an index entry.
pub open spec fn index_bytes(e: IndexView) -> Seq<u8> {
    be32(e.0) + be32(e.1) + be32(e.2 as u32) + be32(e.3)
}

/// The bytes of index entries, in order.
pub open spec fn index_section(idx: Seq<IndexView>) -> Seq<u8>
    decreases idx.len(),
{
    if idx.len() == 0 {
        seq![]
    } else {
        index_section(idx.drop_last()) + index_bytes(idx.last())
    }
}

/// The header magic.
pub open spec fn header_magic() -> Seq<u8> {
    seq![0x8Eu8, 0xADu8, 0xE8u8, 0x01u8]
}

/// The serialized header of the entries `es`: `Err` with the message of
/// the refusal when there are none or the data section outgrows `i32`
/// offsets.
pub open spec fn header_bytes(es: Seq<EntryView>) -> Result<Seq<u8>, Seq<char>> {
    if es.len() == 0 {
        Err("header has no entries"@)
    } else {
        match layout(layout_order(es)) {
            Err(n) => Err(
                "header data section too large ("@ + crate::text::decimal(n)
                    + " bytes, max 2147483647)"@,
            ),
            Ok((data, idx)) => {
                let sorted = index_order(idx);
                Ok(
                    header_magic() + zeros(4) + be32(sorted.len() as u32) + be32(data.len() as u32)
                        + index_section(sorted) + data,
                )
            },
        }
    }
}

/// The view of a build result: the bytes, or the message of the error.
pub open spec fn build_view(r: Result<Vec<u8>, RpmError>) -> Result<Seq<u8>, Seq<char>> {
    match r {
        Ok(b) => Ok(b@),
        Err(RpmError::Header(m)) => Err(m@),
        Err(RpmError::InvalidRpm(m)) => Err(m@),
        Err(_) => Err(seq![]),
    }
}

/// Builds an RPM header section (used for both signature and metadata headers).
///
/// Tags are added in any order; they are sorted by tag number during
/// serialization as required by the RPM format.
pub struct HeaderBuilder {
    entries: Vec<(u32, TagValue)>,
}

impl HeaderBuilder {
    /// The entries added so far, in order.
    pub closed spec fn entries_view(&self) -> Seq<EntryView> {
        self.entries@.map_values(|e: (u32, TagValue)| (e.0, tag_data(e.1)))
    }

    /// Create a new empty header builder.
    pub fn new() -> (r: Self)
        ensures
            r.entries_view() == Seq::<EntryView>::empty(),
    {
        let r = HeaderBuilder { entries: Vec::new() };
        assert(r.entries_view() =~= Seq::<EntryView>::empty());
        r
    }

    fn push_entry(&mut self, tag: u32, value: TagValue)
        ensures
            final(self).entries_view() == old(self).entries_view().push((tag, tag_data(value))),
    {
        self.entries.push((tag, value));
        assert(self.entries_view() =~= old(self).entries_view().push((tag, tag_data(value))));
    }

    /// Add a single string tag.
    pub fn add_string(&mut self, tag: u32, value: &str) -> (r: &mut Self)
        ensures
            r.entries_view() == old(self).entries_view().push((tag, TagData::Str(value@))),
            *final(self) == *final(r),
    {
        self.push_entry(tag, TagValue::String(value.to_owned()));
        self
    }

    /// Add a string array tag.
    pub fn add_string_array(&mut self, tag: u32, values: Vec<String>) -> (r: &mut Self)
        ensures
            r.entries_view() == old(self).entries_view().push(
                (tag, TagData::StrArray(values@.map_values(|s: String| s@))),
            ),
            *final(self) == *final(r),
    {
        self.push_entry(tag, TagValue::StringArray(values));
        self
    }

    /// Add an internationalized string tag.
    pub fn add_i18n_string(&mut self, tag: u32, value: &str) -> (r: &mut Self)
        ensures
            r.entries_view() == old(self).entries_view().push((tag, TagData::I18N(value@))),
            *final(self) == *final(r),
    {
        self.push_entry(tag, TagValue::I18NString(value.to_owned()));
        self
    }

    /// Add an INT32 array tag.
    pub fn add_int32(&mut self, tag: u32, values: Vec<i32>) -> (r: &mut Self)
        ensures
            r.entries_view() == old(self).entries_view().push((tag, TagData::I32(values@))),
            *final(self) == *final(r),
    {
        self.push_entry(tag, TagValue::Int32(values));
        self
    }

    /// Add an INT64 array tag.
    pub fn add_int64(&mut self, tag: u32, values: Vec<i64>) -> (r: &mut Self)
        ensures
            r.entries_view() == old(self).entries_view().push((tag, TagData::I64(values@))),
            *final(self) == *final(r),
    {
        self.push_entry(tag, TagValue::Int64(values));
        self
    }

    /// Add an INT16 array tag.
    pub fn add_int16(&mut self, tag: u32, values: Vec<i16>) -> (r: &mut Self)
        ensures
            r.entries_view() == old(self).entries_view().push((tag, TagData::I16(values@))),
            *final(self) == *final(r),
    {
        self.push_entry(tag, TagValue::Int16(values));
        self
    }

    /// Add a binary blob tag.
    pub fn add_bin(&mut self, tag: u32, data: Vec<u8>) -> (r: &mut Self)
        ensures
            r.entries_view() == old(self).entries_view().push((tag, TagData::Bytes(data@))),
            *final(self) == *final(r),
    {
        self.push_entry(tag, TagValue::Bin(data));
        self
    }

    /// Return the number of entries added so far.
    pub fn entry_count(&self) -> (n: usize)
        ensures
            n == self.entries_view().len(),
    {
        self.entries.len()
    }
}

/// All positions carried by the pairs are below `n`.
pub open spec fn positions_below(s: Seq<(u64, usize)>, n: nat) -> bool {
    forall|i: int| 0 <= i < s.len() ==> (#[trigger] s[i]).1 < n
}

proof fn lemma_insert_shape(s: Seq<(u64, usize)>, x: (u64, usize), n: nat)
    requires
        positions_below(s, n),
        x.1 < n,
    ensures
        insert_by_key(s, x).len() == s.len() + 1,
        positions_below(insert_by_key(s, x), n),
    decreases s.len(),
{
    if !(s.len() == 0 || s.last().0 <= x.0) {
        let t = s.drop_last();
        assert(positions_below(t, n)) by {
            assert forall|i: int| 0 <= i < t.len() implies (#[trigger] t[i]).1 < n by {
                assert(t[i] == s[i]);
            }
        }
        lemma_insert_shape(t, x, n);
        let u = insert_by_key(t, x);
        assert forall|i: int| 0 <= i < u.push(s.last()).len() implies (#[trigger] u.push(
            s.last(),
        )[i]).1 < n by {
            if i < u.len() {
                assert(u.push(s.last())[i] == u[i]);
            } else {
                assert(s.last() == s[s.len() - 1]);
            }
        }
    } else {
        assert forall|i: int| 0 <= i < s.push(x).len() implies (#[trigger] s.push(x)[i]).1 < n by {
            if i < s.len() {
                assert(s.push(x)[i] == s[i]);
            }
        }
    }
}

pub proof fn lemma_sort_shape(s: Seq<(u64, usize)>, n: nat)
    requires
        positions_below(s, n),
    ensures
        sort_by_key(s).len() == s.len(),
        positions_below(sort_by_key(s), n),
    decreases s.len(),
{
    if s.len() > 0 {
        let t = s.drop_last();
        assert(positions_below(t, n)) by {
            assert forall|i: int| 0 <= i < t.len() implies (#[trigger] t[i]).1 < n by {
                assert(t[i] == s[i]);
            }
        }
        lemma_sort_shape(t, n);
        assert(s.last() == s[s.len() - 1]);
        lemma_insert_shape(sort_by_key(t), s.last(), n);
    }
}

proof fn lemma_insert_at(s: Seq<(u64, usize)>, x: (u64, usize), j: int)
    requires
        0 <= j <= s.len(),
        forall|i: int| j <= i < s.len() ==> (#[trigger] s[i]).0 > x.0,
        j == 0 || s[j - 1].0 <= x.0,
    ensures
        insert_by_key(s, x) == s.take(j).push(x) + s.skip(j),
    decreases s.len(),
{
    if s.len() == j {
        assert(s.skip(j) =~= Seq::<(u64, usize)>::empty());
        assert(s.take(j) =~= s);
        if s.len() > 0 {
            assert(s.last() == s[j - 1]);
        }
    } else {
        assert(s.last() == s[s.len() - 1]);
        let t = s.drop_last();
        assert forall|i: int| j <= i < t.len() implies (#[trigger] t[i]).0 > x.0 by {
            assert(t[i] == s[i]);
        }
        if j > 0 {
            assert(t[j - 1] == s[j - 1]);
        }
        lemma_insert_at(t, x, j);
        assert(t.take(j) =~= s.take(j));
        assert(t.skip(j).push(s.last()) =~= s.skip(j));
        assert((t.take(j).push(x) + t.skip(j)).push(s.last()) =~= s.take(j).push(x) + s.skip(j));
    }
}

fn insert_pair(out: &mut Vec<(u64, usize)>, x: (u64, usize))
    ensures
        final(out)@ == insert_by_key(old(out)@, x),
{
    let mut j: usize = out.len();
    while j > 0 && out[j - 1].0 > x.0
        invariant
            j <= out.len(),
            out@ == old(out)@,
            forall|i: int| j <= i < out.len() ==> (#[trigger] out@[i]).0 > x.0,
        decreases j,
    {
        j -= 1;
    }
    proof {
        lemma_insert_at(out@, x, j as int);
    }
    out.insert(j, x);
    assert(out@ =~= old(out)@.take(j as int).push(x) + old(out)@.skip(j as int));
}

fn sort_pairs(v: &Vec<(u64, usize)>) -> (r: Vec<(u64, usize)>)
    ensures
        r@ == sort_by_key(v@),
{
    let mut out: Vec<(u64, usize)> = Vec::new();
    let mut i: usize = 0;
    while i < v.len()
        invariant
            i <= v.len(),
            out@ == sort_by_key(v@.take(i as int)),
        decreases v.len() - i,
    {
        assert(v@.take(i + 1).drop_last() =~= v@.take(i as int));
        assert(v@.take(i + 1).last() == v@[i as int]);
        insert_pair(&mut out, v[i]);
        i += 1;
    }
    assert(v@.take(v.len() as int) =~= v@);
    out
}

/// The region trailer: a pseudo index entry for the region tag whose offset
/// points back over all `n + 1` index entries.
pub open spec fn region_trailer(tag: u32, n: nat) -> Seq<u8> {
    be32(tag) + be32(7) + be32(((0 - (n + 1) * 16) as i32) as u32) + be32(16)
}

fn write_strings(data: &mut Vec<u8>, ss: &Vec<String>)
    ensures
        final(data)@ == old(data)@ + strings_bytes(ss@.map_values(|s: String| s@)),
{
    let ghost sv = ss@.map_values(|s: String| s@);
    let mut i: usize = 0;
    while i < ss.len()
        invariant
            i <= ss.len(),
            sv == ss@.map_values(|s: String| s@),
            data@ == old(data)@ + strings_bytes(sv.take(i as int)),
        decreases ss.len() - i,
    {
        assert(sv.take(i + 1).drop_last() =~= sv.take(i as int));
        assert(sv.take(i + 1).last() == ss@[i as int]@);
        push_utf8(data, ss[i].as_str());
        data.push(0);
        i += 1;
        assert(data@ =~= old(data)@ + strings_bytes(sv.take(i as int)));
    }
    assert(sv.take(ss.len() as int) =~= sv);
}

fn write_i16s(data: &mut Vec<u8>, v: &Vec<i16>)
    ensures
        final(data)@ == old(data)@ + i16s_bytes(v@),
{
    let mut i: usize = 0;
    while i < v.len()
        invariant
            i <= v.len(),
            data@ == old(data)@ + i16s_bytes(v@.take(i as int)),
        decreases v.len() - i,
    {
        assert(v@.take(i + 1).drop_last() =~= v@.take(i as int));
        push_be16(data, v[i] as u16);
        i += 1;
        assert(data@ =~= old(data)@ + i16s_bytes(v@.take(i as int)));
    }
    assert(v@.take(v.len() as int) =~= v@);
}

fn write_i32s(data: &mut Vec<u8>, v: &Vec<i32>)
    ensures
        final(data)@ == old(data)@ + i32s_bytes(v@),
{
    let mut i: usize = 0;
    while i < v.len()
        invariant
            i <= v.len(),
            data@ == old(data)@ + i32s_bytes(v@.take(i as int)),
        decreases v.len() - i,
    {
        assert(v@.take(i + 1).drop_last() =~= v@.take(i as int));
        push_be32(data, v[i] as u32);
        i += 1;
        assert(data@ =~= old(data)@ + i32s_bytes(v@.take(i as int)));
    }
    assert(v@.take(v.len() as int) =~= v@);
}

fn write_i64s(data: &mut Vec<u8>, v: &Vec<i64>)
    ensures
        final(data)@ == old(data)@ + i64s_bytes(v@),
{
    let mut i: usize = 0;
    while i < v.len()
        invariant
            i <= v.len(),
            data@ == old(data)@ + i64s_bytes(v@.take(i as int)),
        decreases v.len() - i,
    {
        assert(v@.take(i + 1).drop_last() =~= v@.take(i as int));
        push_be64(data, v[i] as u64);
        i += 1;
        assert(data@ =~= old(data)@ + i64s_bytes(v@.take(i as int)));
    }
    assert(v@.take(v.len() as int) =~= v@);
}

impl TagValue {
    /// Return the RPM tag type for this value.
    pub fn tag_type(&self) -> (t: TagType)
        ensures
            t == data_type(tag_data(*self)),
    {
        match self {
            TagValue::String(_) => TagType::String,
            TagValue::StringArray(_) => TagType::StringArray,
            TagValue::I18NString(_) => TagType::I18NString,
            TagValue::Int32(_) => TagType::Int32,
            TagValue::Int64(_) => TagType::Int64,
            TagValue::Int16(_) => TagType::Int16,
            TagValue::Bin(_) => TagType::Bin,
        }
    }

    /// Return the count for the index entry.
    pub fn count(&self) -> (c: u32)
        ensures
            c == data_count(tag_data(*self)),
    {
        match self {
            TagValue::String(_) | TagValue::I18NString(_) => 1,
            TagValue::StringArray(v) => v.len() as u32,
            TagValue::Int32(v) => v.len() as u32,
            TagValue::Int64(v) => v.len() as u32,
            TagValue::Int16(v) => v.len() as u32,
            TagValue::Bin(v) => v.len() as u32,
        }
    }

    /// Return the required alignment for this value type in the data section.
    pub fn alignment(&self) -> (a: usize)
        ensures
            a == data_align(tag_data(*self)),
    {
        match self {
            TagValue::Int16(_) => 2,
            TagValue::Int32(_) => 4,
            TagValue::Int64(_) => 8,
            _ => 1,
        }
    }

    /// Write this value into a data buffer.
    pub fn write_to(&self, data: &mut Vec<u8>)
        ensures
            final(data)@ == old(data)@ + data_bytes(tag_data(*self)),
    {
        match self {
            TagValue::String(s) | TagValue::I18NString(s) => {
                push_utf8(data, s.as_str());
                data.push(0);
                assert(data@ =~= old(data)@ + data_bytes(tag_data(*self)));
            },
            TagValue::StringArray(strings) => {
                write_strings(data, strings);
            },
            TagValue::Int16(values) => {
                write_i16s(data, values);
            },
            TagValue::Int32(values) => {
                write_i32s(data, values);
            },
            TagValue::Int64(values) => {
                write_i64s(data, values);
            },
            TagValue::Bin(bytes) => {
                push_bytes(data, bytes.as_slice());
            },
        }
    }
}

fn too_large_message(n: usize) -> (m: String)
    ensures
        m@ == "header data section too large ("@ + crate::text::decimal(n as nat)
            + " bytes, max 2147483647)"@,
{
    let mut v: Vec<char> = Vec::new();
    extend_str(&mut v, "header data section too large (");
    push_decimal(&mut v, n as u64);
    extend_str(&mut v, " bytes, max 2147483647)");
    string_from_chars(&v)
}

fn write_index(out: &mut Vec<u8>, idx: &Vec<(u32, u32, i32, u32)>, order: &Vec<(u64, usize)>)
    requires
        positions_below(order@, idx@.len()),
    ensures
        final(out)@ == old(out)@ + index_section(
            order@.map_values(|p: (u64, usize)| idx@[p.1 as int]),
        ),
{
    let ghost sel = order@.map_values(|p: (u64, usize)| idx@[p.1 as int]);
    let mut k: usize = 0;
    while k < order.len()
        invariant
            k <= order.len(),
            positions_below(order@, idx@.len()),
            sel == order@.map_values(|p: (u64, usize)| idx@[p.1 as int]),
            out@ == old(out)@ + index_section(sel.take(k as int)),
        decreases order.len() - k,
    {
        assert(order@[k as int].1 < idx@.len());
        let e = idx[order[k].1];
        assert(sel.take(k + 1).drop_last() =~= sel.take(k as int));
        assert(sel.take(k + 1).last() == e);
        push_be32(out, e.0);
        push_be32(out, e.1);
        push_be32(out, e.2 as u32);
        push_be32(out, e.3);
        k += 1;
        assert(out@ =~= old(out)@ + index_section(sel.take(k as int)));
    }
    assert(sel.take(order.len() as int) =~= sel);
}

impl HeaderBuilder {
    /// Add a region tag (62 for signature, 63 for metadata).
    ///
    /// The region tag has type BIN with 16 bytes of trailer data that
    /// encodes a pseudo-index-entry pointing back at the region's entries:
    /// the tag, BIN (7), `-(total_entry_count * 16)` and 16, each as a
    /// big-endian 32-bit word. It must be added after all other entries,
    /// because the trailer's offset counts them.
    pub fn add_region_tag(&mut self, tag: u32) -> (r: &mut Self)
        requires
            old(self).entries_view().len() < 0x7FFFFFF,
        ensures
            r.entries_view() == old(self).entries_view().push(
                (tag, TagData::Bytes(region_trailer(tag, old(self).entries_view().len()))),
            ),
            *final(self) == *final(r),
    {
        let total = (self.entries.len() + 1) as i32;
        let neg_offset = -(total * 16);
        let mut trailer: Vec<u8> = Vec::new();
        push_be32(&mut trailer, tag);
        push_be32(&mut trailer, 7);
        push_be32(&mut trailer, neg_offset as u32);
        push_be32(&mut trailer, 16);
        assert(trailer@ =~= region_trailer(tag, old(self).entries_view().len()));
        self.push_entry(tag, TagValue::Bin(trailer));
        self
    }

    /// Serialize the header to its binary representation: magic (4),
    /// reserved (4), index count (4), data size (4), the index entries
    /// (16 each, by ascending tag) and the data section (regular tags by
    /// number, then the region tags).
    pub fn build(&self) -> (r: Result<Vec<u8>, RpmError>)
        ensures
            build_view(r) == header_bytes(self.entries_view()),
            r matches Err(e) ==> (e is Header || e is InvalidRpm),
            r matches Err(e) ==> (e is Header <==> self.entries_view().len() == 0),
    {
        let ghost ev = self.entries_view();
        if self.entries.len() == 0 {
            return Err(RpmError::Header(crate::text::lit("header has no entries")));
        }
        let n = self.entries.len();
        let mut keyed: Vec<(u64, usize)> = Vec::new();
        let mut i: usize = 0;
        while i < n
            invariant
                i <= n,
                n == self.entries@.len(),
                ev == self.entries_view(),
                keyed@ =~= Seq::new(i as nat, |k: int| (layout_key(ev[k].0), k as usize)),
            decreases n - i,
        {
            let tag = self.entries[i].0;
            let key: u64 = if tag == 62 || tag == 63 {
                0x100000000 + tag as u64
            } else {
                tag as u64
            };
            keyed.push((key, i));
            i += 1;
        }
        let order = sort_pairs(&keyed);
        proof {
            assert(positions_below(keyed@, n as nat));
            lemma_sort_shape(keyed@, n as nat);
        }
        let ghost ordered = layout_order(ev);
        assert(ordered =~= order@.map_values(|p: (u64, usize)| ev[p.1 as int]));
        let mut data: Vec<u8> = Vec::new();
        let mut idx: Vec<(u32, u32, i32, u32)> = Vec::new();
        let mut k: usize = 0;
        while k < order.len()
            invariant
                k <= order.len(),
                n == self.entries@.len(),
                ev == self.entries_view(),
                ordered == order@.map_values(|p: (u64, usize)| ev[p.1 as int]),
                ordered == layout_order(ev),
                positions_below(order@, n as nat),
                layout(ordered.take(k as int)) == Ok::<(Seq<u8>, Seq<IndexView>), nat>((data@, idx@)),
            decreases order.len() - k,
        {
            let p = order[k].1;
            let (tag, value) = (&self.entries[p].0, &self.entries[p].1);
            let ghost t1 = ordered.take(k + 1);
            assert(t1.drop_last() =~= ordered.take(k as int));
            assert(t1.last() == (*tag, tag_data(*value)));
            let align = value.alignment();
            let pad = (align - (data.len() % align)) % align;
            push_zeros(&mut data, pad);
            if data.len() > 0x7FFF_FFFF {
                let msg = too_large_message(data.len());
                assert(layout(t1) == Err::<(Seq<u8>, Seq<IndexView>), nat>(data@.len()));
                proof {
                    lemma_layout_err_stays(ordered, k as int + 1);
                }
                assert(layout(ordered) == layout(t1));
                return Err(RpmError::InvalidRpm(msg));
            }
            let offset = data.len() as i32;
            let count = value.count();
            let tag_type = value.tag_type();
            value.write_to(&mut data);
            idx.push((*tag, tag_type.code(), offset, count));
            k += 1;
        }
        proof {
            lemma_sort_shape(keyed@, n as nat);
        }
        assert(ordered.take(order.len() as int) =~= ordered);
        let m = idx.len();
        let mut keyed2: Vec<(u64, usize)> = Vec::new();
        let mut j: usize = 0;
        while j < m
            invariant
                j <= m,
                m == idx@.len(),
                keyed2@ =~= Seq::new(j as nat, |q: int| (idx@[q].0 as u64, q as usize)),
            decreases m - j,
        {
            keyed2.push((idx[j].0 as u64, j));
            j += 1;
        }
        let order2 = sort_pairs(&keyed2);
        proof {
            assert(positions_below(keyed2@, m as nat));
            lemma_sort_shape(keyed2@, m as nat);
        }
        let mut out: Vec<u8> = Vec::new();
        out.push(0x8E);
        out.push(0xAD);
        out.push(0xE8);
        out.push(0x01);
        push_zeros(&mut out, 4);
        push_be32(&mut out, order2.len() as u32);
        push_be32(&mut out, data.len() as u32);
        write_index(&mut out, &idx, &order2);
        push_bytes(&mut out, data.as_slice());
        assert(out@ =~= header_magic() + zeros(4) + be32(index_order(idx@).len() as u32) + be32(
            data@.len() as u32,
        ) + index_section(index_order(idx@)) + data@);
        Ok(out)
    }
}

proof fn lemma_layout_err_stays(es: Seq<EntryView>, k: int)
    requires
        0 <= k <= es.len(),
        layout(es.take(k)) is Err,
    ensures
        layout(es) == layout(es.take(k)),
    decreases es.len() - k,
{
    if k < es.len() {
        assert(es.take(k + 1).drop_last() =~= es.take(k));
        lemma_layout_err_stays(es, k + 1);
    } else {
        assert(es.take(k) =~= es);
    }
}

// ---------------------------------------------------------------------------
// Laws
// ---------------------------------------------------------------------------

/// Keys in ascending order.
pub open spec fn keys_sorted(s: Seq<(u64, usize)>) -> bool {
    forall|i: int, j: int| 0 <= i < j < s.len() ==> (#[trigger] s[i]).0 <= (#[trigger] s[j]).0
}

/// Every key is at most `k`.
pub open spec fn keys_at_most(s: Seq<(u64, usize)>, k: u64) -> bool {
    forall|i: int| 0 <= i < s.len() ==> (#[trigger] s[i]).0 <= k
}

/// Each pair's key is the tag of the index entry it points at.
pub open spec fn keyed_by_tag(s: Seq<(u64, usize)>, idx: Seq<IndexView>) -> bool {
    forall|i: int| 0 <= i < s.len() ==> (#[trigger] s[i]).1 < idx.len() && s[i].0 == idx[s[i].1 as int].0 as u64
}

proof fn lemma_insert_at_most(s: Seq<(u64, usize)>, x: (u64, usize), k: u64)
    requires
        keys_at_most(s, k),
        x.0 <= k,
    ensures
        keys_at_most(insert_by_key(s, x), k),
    decreases s.len(),
{
    if !(s.len() == 0 || s.last().0 <= x.0) {
        let t = s.drop_last();
        assert(keys_at_most(t, k)) by {
            assert forall|i: int| 0 <= i < t.len() implies (#[trigger] t[i]).0 <= k by {
                assert(t[i] == s[i]);
            }
        }
        lemma_insert_at_most(t, x, k);
        let u = insert_by_key(t, x);
        assert forall|i: int| 0 <= i < u.push(s.last()).len() implies (#[trigger] u.push(s.last())[i]).0 <= k by {
            if i < u.len() {
                assert(u.push(s.last())[i] == u[i]);
            } else {
                assert(s.last() == s[s.len() - 1]);
            }
        }
    } else {
        assert forall|i: int| 0 <= i < s.push(x).len() implies (#[trigger] s.push(x)[i]).0 <= k by {
            if i < s.len() {
                assert(s.push(x)[i] == s[i]);
            }
        }
    }
}

proof fn lemma_insert_sorted(s: Seq<(u64, usize)>, x: (u64, usize))
    requires
        keys_sorted(s),
    ensures
        keys_sorted(insert_by_key(s, x)),
    decreases s.len(),
{
    if s.len() == 0 || s.last().0 <= x.0 {
        let r = s.push(x);
        assert forall|i: int, j: int| 0 <= i < j < r.len() implies (#[trigger] r[i]).0 <= (#[trigger] r[j]).0 by {
            assert(r[i] == s[i]);
            if j < s.len() {
                assert(r[j] == s[j]);
            } else if i < s.len() - 1 {
                assert(s[i].0 <= s[s.len() - 1].0);
            }
        }
    } else {
        let t = s.drop_last();
        let last = s.last();
        assert(last == s[s.len() - 1]);
        assert(keys_sorted(t)) by {
            assert forall|i: int, j: int| 0 <= i < j < t.len() implies (#[trigger] t[i]).0 <= (#[trigger] t[j]).0 by {
                assert(t[i] == s[i] && t[j] == s[j]);
            }
        }
        assert(keys_at_most(t, last.0)) by {
            assert forall|i: int| 0 <= i < t.len() implies (#[trigger] t[i]).0 <= last.0 by {
                assert(t[i] == s[i]);
            }
        }
        lemma_insert_sorted(t, x);
        lemma_insert_at_most(t, x, last.0);
        let u = insert_by_key(t, x);
        let r = u.push(last);
        assert forall|i: int, j: int| 0 <= i < j < r.len() implies (#[trigger] r[i]).0 <= (#[trigger] r[j]).0 by {
            assert(r[i] == u[i]);
            if j < u.len() {
                assert(r[j] == u[j]);
            }
        }
    }
}

proof fn lemma_sort_sorted(s: Seq<(u64, usize)>)
    ensures
        keys_sorted(sort_by_key(s)),
    decreases s.len(),
{
    if s.len() > 0 {
        lemma_sort_sorted(s.drop_last());
        lemma_insert_sorted(sort_by_key(s.drop_last()), s.last());
    }
}

proof fn lemma_insert_keyed(s: Seq<(u64, usize)>, x: (u64, usize), idx: Seq<IndexView>)
    requires
        keyed_by_tag(s, idx),
        keyed_by_tag(seq![x], idx),
    ensures
        keyed_by_tag(insert_by_key(s, x), idx),
    decreases s.len(),
{
    assert(seq![x][0] == x);
    if !(s.len() == 0 || s.last().0 <= x.0) {
        let t = s.drop_last();
        assert(keyed_by_tag(t, idx)) by {
            assert forall|i: int| 0 <= i < t.len() implies (#[trigger] t[i]).1 < idx.len() && t[i].0
                == idx[t[i].1 as int].0 as u64 by {
                assert(t[i] == s[i]);
            }
        }
        lemma_insert_keyed(t, x, idx);
        let u = insert_by_key(t, x);
        assert forall|i: int| 0 <= i < u.push(s.last()).len() implies (#[trigger] u.push(s.last())[i]).1
            < idx.len() && u.push(s.last())[i].0 == idx[u.push(s.last())[i].1 as int].0 as u64 by {
            if i < u.len() {
                assert(u.push(s.last())[i] == u[i]);
            } else {
                assert(s.last() == s[s.len() - 1]);
            }
        }
    } else {
        assert forall|i: int| 0 <= i < s.push(x).len() implies (#[trigger] s.push(x)[i]).1 < idx.len()
            && s.push(x)[i].0 == idx[s.push(x)[i].1 as int].0 as u64 by {
            if i < s.len() {
                assert(s.push(x)[i] == s[i]);
            }
        }
    }
}

proof fn lemma_sort_keyed(s: Seq<(u64, usize)>, idx: Seq<IndexView>)
    requires
        keyed_by_tag(s, idx),
    ensures
        keyed_by_tag(sort_by_key(s), idx),
        sort_by_key(s).len() == s.len(),
    decreases s.len(),
{
    if s.len() > 0 {
        let t = s.drop_last();
        assert(keyed_by_tag(t, idx)) by {
            assert forall|i: int| 0 <= i < t.len() implies (#[trigger] t[i]).1 < idx.len() && t[i].0
                == idx[t[i].1 as int].0 as u64 by {
                assert(t[i] == s[i]);
            }
        }
        lemma_sort_keyed(t, idx);
        assert(s.last() == s[s.len() - 1]);
        assert(keyed_by_tag(seq![s.last()], idx)) by {
            assert(seq![s.last()][0] == s.last());
        }
        lemma_insert_keyed(sort_by_key(t), s.last(), idx);
        assert(positions_below(sort_by_key(t), idx.len())) by {
            assert forall|i: int| 0 <= i < sort_by_key(t).len() implies (#[trigger] sort_by_key(t)[i]).1
                < idx.len() by {}
        }
        lemma_insert_shape(sort_by_key(t), s.last(), idx.len());
    }
}

/// The index of a header lists its entries by ascending tag number,
/// whatever order the tags were added in.
pub proof fn law_index_sorted_by_tag(idx: Seq<IndexView>)
    requires
        idx.len() <= usize::MAX,
    ensures
        index_order(idx).len() == idx.len(),
        forall|i: int, j: int|
            0 <= i < j < idx.len() ==> (#[trigger] index_order(idx)[i]).0 <= (#[trigger] index_order(idx)[j]).0,
{
    let keyed = Seq::new(idx.len(), |i: int| (idx[i].0 as u64, i as usize));
    assert(keyed_by_tag(keyed, idx)) by {
        assert forall|i: int| 0 <= i < keyed.len() implies (#[trigger] keyed[i]).1 < idx.len() && keyed[i].0
            == idx[keyed[i].1 as int].0 as u64 by {
            assert(keyed[i].1 as int == i);
        }
    }
    lemma_sort_keyed(keyed, idx);
    lemma_sort_sorted(keyed);
    let s = sort_by_key(keyed);
    assert forall|i: int, j: int| 0 <= i < j < idx.len() implies (#[trigger] index_order(idx)[i]).0
        <= (#[trigger] index_order(idx)[j]).0 by {
        assert(index_order(idx)[i] == idx[s[i].1 as int]);
        assert(index_order(idx)[j] == idx[s[j].1 as int]);
        assert(s[i].0 <= s[j].0);
    }
}

} // verus!
