//! Reading back a serialized header: the values that the header builder
//! writes are the values that the reader's parser finds.
use vstd::prelude::*;

use crate::bytes::{be32, be64, utf8, zeros};
use crate::rpm::header::{
    data_align, data_bytes, data_count, data_type, header_bytes, header_magic, i32s_bytes, i64s_bytes, index_bytes,
    index_order, strings_bytes,
    index_section, insert_by_key, is_region, layout, layout_key, layout_order, sort_by_key, EntryView, IndexView,
    TagData,
};
use crate::rpm::reader::{be_u32_at, be_u64_at, strings_at, first_value, first_zero_from, index_entry_value, nul_string, parsed_entries, tag_value_at};
use crate::alternatives::ResolvedScripts;
use crate::compress::Algorithm;
use crate::config::Config;
use crate::distro::Distro;
use crate::filetree::FileEntry;
use crate::planner::{PackagePlan, SubPackage};
use crate::rpm::builder::{
    dependency_entries, file_entries, identity_entries, metadata_entries, ownership_entries, package_metadata_entries,
    payload_entries, script_entries, script_pair, dep_entries, optional_dep_entries, optional_string_entry, name_entries,
    size_entry, attribute_entries,
};
use crate::rpm::tags::{type_code, RPMTAG_HEADERIMMUTABLE, RPMTAG_NAME, RPMTAG_RELEASE, RPMTAG_VERSION};

verus! {

// ---------------------------------------------------------------------------
// Big-endian words
// ---------------------------------------------------------------------------

/// A big-endian word reads back as the value written.
pub proof fn lemma_be32_read(b: Seq<u8>, i: int, x: u32)
    requires
        0 <= i,
        i + 4 <= b.len(),
        b[i] == be32(x)[0],
        b[i + 1] == be32(x)[1],
        b[i + 2] == be32(x)[2],
        b[i + 3] == be32(x)[3],
    ensures
        be_u32_at(b, i) == x,
{
    assert(b[i] == (x / 0x1000000) as u8);
    assert(b[i + 1] == ((x / 0x10000) % 256) as u8);
    assert(b[i + 2] == ((x / 0x100) % 256) as u8);
    assert(b[i + 3] == (x % 256) as u8);
    assert((((x / 0x1000000) as u8) as u64) * 0x1000000 + ((((x / 0x10000) % 256) as u8) as u64) * 0x10000
        + ((((x / 0x100) % 256) as u8) as u64) * 0x100 + (((x % 256) as u8) as u64) == x as u64)
        by (bit_vector);
}

// ---------------------------------------------------------------------------
// The stable sort keeps its elements
// ---------------------------------------------------------------------------

proof fn lemma_insert_contains(s: Seq<(u64, usize)>, x: (u64, usize), y: (u64, usize))
    ensures
        insert_by_key(s, x).contains(y) <==> (s.contains(y) || y == x),
    decreases s.len(),
{
    if s.len() == 0 || s.last().0 <= x.0 {
        if s.contains(y) {
            let i = choose|i: int| 0 <= i < s.len() && s[i] == y;
            assert(s.push(x)[i] == y);
        }
        if y == x {
            assert(s.push(x)[s.len() as int] == y);
        }
        if s.push(x).contains(y) {
            let i = choose|i: int| 0 <= i < s.push(x).len() && s.push(x)[i] == y;
            if i < s.len() {
                assert(s[i] == y);
            }
        }
    } else {
        let t = s.drop_last();
        lemma_insert_contains(t, x, y);
        let u = insert_by_key(t, x);
        if u.push(s.last()).contains(y) {
            let i = choose|i: int| 0 <= i < u.push(s.last()).len() && u.push(s.last())[i] == y;
            if i < u.len() {
                assert(u[i] == y);
                if t.contains(y) {
                    let j = choose|j: int| 0 <= j < t.len() && t[j] == y;
                    assert(s[j] == y);
                }
            } else {
                assert(s[s.len() - 1] == y);
            }
        }
        if s.contains(y) {
            let j = choose|j: int| 0 <= j < s.len() && s[j] == y;
            if j < s.len() - 1 {
                assert(t[j] == y);
                assert(u.contains(y));
                let i = choose|i: int| 0 <= i < u.len() && u[i] == y;
                assert(u.push(s.last())[i] == y);
            } else {
                assert(u.push(s.last())[u.len() as int] == y);
            }
        }
        if y == x {
            assert(u.contains(y));
            let i = choose|i: int| 0 <= i < u.len() && u[i] == y;
            assert(u.push(s.last())[i] == y);
        }
    }
}

proof fn lemma_insert_len(s: Seq<(u64, usize)>, x: (u64, usize))
    ensures
        insert_by_key(s, x).len() == s.len() + 1,
    decreases s.len(),
{
    if !(s.len() == 0 || s.last().0 <= x.0) {
        lemma_insert_len(s.drop_last(), x);
    }
}

/// A stable sort keeps the length.
proof fn lemma_sort_len(s: Seq<(u64, usize)>)
    ensures
        sort_by_key(s).len() == s.len(),
    decreases s.len(),
{
    if s.len() > 0 {
        lemma_sort_len(s.drop_last());
        lemma_insert_len(sort_by_key(s.drop_last()), s.last());
    }
}

/// A stable sort holds exactly the elements it was given.
pub proof fn lemma_sort_contains(s: Seq<(u64, usize)>, y: (u64, usize))
    ensures
        sort_by_key(s).contains(y) <==> s.contains(y),
    decreases s.len(),
{
    if s.len() > 0 {
        let t = s.drop_last();
        lemma_sort_contains(t, y);
        lemma_insert_contains(sort_by_key(t), s.last(), y);
        if s.contains(y) {
            let j = choose|j: int| 0 <= j < s.len() && s[j] == y;
            if j < s.len() - 1 {
                assert(t[j] == y);
            }
        }
        if t.contains(y) {
            let j = choose|j: int| 0 <= j < t.len() && t[j] == y;
            assert(s[j] == y);
        }
    }
}

// ---------------------------------------------------------------------------
// Orders hold the elements they order
// ---------------------------------------------------------------------------

/// Every entry in layout order is one of the entries, and every entry has
/// a place in layout order.
proof fn lemma_layout_order_elements(es: Seq<EntryView>, k: int)
    requires
        0 <= k < es.len(),
        es.len() <= usize::MAX,
    ensures
        layout_order(es).len() == es.len(),
        forall|q: int| 0 <= q < es.len() ==> exists|j: int| 0 <= j < es.len() && #[trigger] layout_order(es)[q] == es[j],
        exists|q: int| 0 <= q < es.len() && #[trigger] layout_order(es)[q] == es[k],
{
    let keyed = Seq::new(es.len(), |i: int| (layout_key(es[i].0), i as usize));
    let sorted = sort_by_key(keyed);
    assert(crate::rpm::header::positions_below(keyed, es.len()));
    crate::rpm::header::lemma_sort_shape(keyed, es.len());
    assert forall|q: int| 0 <= q < es.len() implies exists|j: int| 0 <= j < es.len() && #[trigger] layout_order(es)[q] == es[j] by {
        assert(sorted.contains(sorted[q]));
        lemma_sort_contains(keyed, sorted[q]);
        let j = choose|j: int| 0 <= j < keyed.len() && keyed[j] == sorted[q];
        assert(sorted[q].1 == j as usize);
        assert(layout_order(es)[q] == es[sorted[q].1 as int]);
        assert(layout_order(es)[q] == es[j]);
    }
    assert(keyed.contains(keyed[k]));
    lemma_sort_contains(keyed, keyed[k]);
    let q = choose|q: int| 0 <= q < sorted.len() && sorted[q] == keyed[k];
    assert(layout_order(es)[q] == es[sorted[q].1 as int]);
    assert(layout_order(es)[q] == es[k]);
}

/// Every entry in index order is one of the laid out entries, and every
/// laid out entry has a place in index order.
proof fn lemma_index_order_elements(idx: Seq<IndexView>, k: int)
    requires
        0 <= k < idx.len(),
        idx.len() <= usize::MAX,
    ensures
        index_order(idx).len() == idx.len(),
        forall|p: int| 0 <= p < idx.len() ==> exists|j: int| 0 <= j < idx.len() && #[trigger] index_order(idx)[p] == idx[j],
        exists|p: int| 0 <= p < idx.len() && #[trigger] index_order(idx)[p] == idx[k],
{
    let keyed = Seq::new(idx.len(), |i: int| (idx[i].0 as u64, i as usize));
    let sorted = sort_by_key(keyed);
    assert(crate::rpm::header::positions_below(keyed, idx.len()));
    crate::rpm::header::lemma_sort_shape(keyed, idx.len());
    assert forall|p: int| 0 <= p < idx.len() implies exists|j: int| 0 <= j < idx.len() && #[trigger] index_order(idx)[p] == idx[j] by {
        assert(sorted.contains(sorted[p]));
        lemma_sort_contains(keyed, sorted[p]);
        let j = choose|j: int| 0 <= j < keyed.len() && keyed[j] == sorted[p];
        assert(sorted[p].1 == j as usize);
        assert(index_order(idx)[p] == idx[sorted[p].1 as int]);
        assert(index_order(idx)[p] == idx[j]);
    }
    assert(keyed.contains(keyed[k]));
    lemma_sort_contains(keyed, keyed[k]);
    let p = choose|p: int| 0 <= p < sorted.len() && sorted[p] == keyed[k];
    assert(index_order(idx)[p] == idx[sorted[p].1 as int]);
    assert(index_order(idx)[p] == idx[k]);
}

// ---------------------------------------------------------------------------
// The layout places each value at its index entry's offset
// ---------------------------------------------------------------------------

/// The index entry `ix` describes the value `d`, whose bytes stand in
/// `data` at the entry's offset.
pub open spec fn placed(data: Seq<u8>, ix: IndexView, d: TagData) -> bool {
    &&& 0 <= ix.2
    &&& ix.2 as int + data_bytes(d).len() <= data.len()
    &&& data.subrange(ix.2 as int, ix.2 as int + data_bytes(d).len()) == data_bytes(d)
    &&& ix.1 == type_code(data_type(d))
    &&& ix.3 == data_count(d)
}

proof fn lemma_layout_places(lo: Seq<EntryView>)
    requires
        layout(lo) is Ok,
    ensures
        match layout(lo) {
            Ok((data, idx)) => idx.len() == lo.len() && forall|q: int|
                0 <= q < lo.len() ==> (#[trigger] idx[q]).0 == lo[q].0 && placed(data, idx[q], lo[q].1),
            Err(_) => false,
        },
    decreases lo.len(),
{
    if lo.len() > 0 {
        let init = lo.drop_last();
        lemma_layout_places(init);
        let (data0, idx0) = layout(init)->Ok_0;
        let (tag, d) = lo.last();
        let a = data_align(d);
        let padded = data0 + zeros(((a - data0.len() % a) % (a as int)) as nat);
        let data = padded + data_bytes(d);
        let idx = idx0.push((tag, type_code(data_type(d)), padded.len() as i32, data_count(d)));
        assert(layout(lo) == Ok::<(Seq<u8>, Seq<IndexView>), nat>((data, idx)));
        assert forall|q: int| 0 <= q < lo.len() implies (#[trigger] idx[q]).0 == lo[q].0 && placed(
            data,
            idx[q],
            lo[q].1,
        ) by {
            if q < init.len() {
                assert(idx[q] == idx0[q]);
                assert(lo[q] == init[q]);
                let off = idx0[q].2 as int;
                let len = data_bytes(init[q].1).len() as int;
                assert(data.subrange(off, off + len) =~= data0.subrange(off, off + len));
            } else {
                assert(lo[q] == lo.last());
                assert(idx[q].2 as int == padded.len());
                assert(data.subrange(padded.len() as int, padded.len() + data_bytes(d).len() as int) =~= data_bytes(d));
            }
        }
    }
}

// ---------------------------------------------------------------------------
// The index section
// ---------------------------------------------------------------------------

proof fn lemma_index_section_at(idx: Seq<IndexView>, p: int)
    requires
        0 <= p < idx.len(),
    ensures
        index_section(idx).len() == 16 * idx.len(),
        index_section(idx).subrange(16 * p, 16 * p + 16) == index_bytes(idx[p]),
    decreases idx.len(),
{
    let init = idx.drop_last();
    if p < idx.len() - 1 {
        lemma_index_section_at(init, p);
        assert(init[p] == idx[p]);
        assert(index_section(idx).subrange(16 * p, 16 * p + 16) =~= index_section(init).subrange(16 * p, 16 * p + 16));
    } else {
        if init.len() > 0 {
            lemma_index_section_at(init, 0);
        }
        let a = index_section(init);
        assert(a.len() == 16 * p);
        assert(index_section(idx) == a + index_bytes(idx.last()));
        assert(index_bytes(idx.last()).len() == 16);
        assert((a + index_bytes(idx.last())).subrange(16 * p, 16 * p + 16) =~= index_bytes(idx.last()));
    }
}

proof fn lemma_word_in(ib: Seq<u8>, base: int, w: Seq<u8>, j: int, x: u32)
    requires
        0 <= base,
        base + 16 <= ib.len(),
        w.len() == 16,
        ib.subrange(base, base + 16) == w,
        0 <= j <= 12,
        w.subrange(j, j + 4) == be32(x),
    ensures
        be_u32_at(ib, base + j) == x,
{
    assert forall|t: int| 0 <= t < 4 implies ib[base + j + t] == be32(x)[t] by {
        assert(ib[base + j + t] == ib.subrange(base, base + 16)[j + t]);
        assert(w[j + t] == w.subrange(j, j + 4)[t]);
    }
    lemma_be32_read(ib, base + j, x);
}

/// The fields of an index entry read back from the index section.
proof fn lemma_index_entry_read(idx: Seq<IndexView>, p: int)
    requires
        0 <= p < idx.len(),
    ensures
        be_u32_at(index_section(idx), 16 * p) == idx[p].0,
        be_u32_at(index_section(idx), 16 * p + 4) == idx[p].1,
        be_u32_at(index_section(idx), 16 * p + 8) == idx[p].2 as u32,
        be_u32_at(index_section(idx), 16 * p + 12) == idx[p].3,
{
    lemma_index_section_at(idx, p);
    let ib = index_section(idx);
    let e = idx[p];
    let w = index_bytes(e);
    let (w0, w1, w2, w3) = (be32(e.0), be32(e.1), be32(e.2 as u32), be32(e.3));
    assert(w == w0 + w1 + w2 + w3);
    assert(w.subrange(0, 4) =~= w0);
    assert(w.subrange(4, 8) =~= w1);
    assert(w.subrange(8, 12) =~= w2);
    assert(w.subrange(12, 16) =~= w3);
    lemma_word_in(ib, 16 * p, w, 0, e.0);
    lemma_word_in(ib, 16 * p, w, 4, e.1);
    lemma_word_in(ib, 16 * p, w, 8, e.2 as u32);
    lemma_word_in(ib, 16 * p, w, 12, e.3);
}

// ---------------------------------------------------------------------------
// Parsed entries and the first value of a tag
// ---------------------------------------------------------------------------

proof fn lemma_parsed_has(ib: Seq<u8>, d: Seq<u8>, n: nat, p: int)
    requires
        0 <= p < n,
        index_entry_value(ib, p, d) is Some,
    ensures
        parsed_entries(ib, d, n).contains(index_entry_value(ib, p, d)->0),
    decreases n,
{
    let e = index_entry_value(ib, p, d)->0;
    let prev = parsed_entries(ib, d, (n - 1) as nat);
    if p < n - 1 {
        lemma_parsed_has(ib, d, (n - 1) as nat, p);
        let i = choose|i: int| 0 <= i < prev.len() && prev[i] == e;
        assert(parsed_entries(ib, d, n)[i] == e);
    } else {
        assert(parsed_entries(ib, d, n) == prev + seq![e]);
        assert(parsed_entries(ib, d, n)[prev.len() as int] == e);
    }
}

proof fn lemma_parsed_from(ib: Seq<u8>, d: Seq<u8>, n: nat, i: int)
    requires
        0 <= i < parsed_entries(ib, d, n).len(),
    ensures
        exists|p: int| 0 <= p < n && index_entry_value(ib, p, d) == Some(#[trigger] parsed_entries(ib, d, n)[i]),
    decreases n,
{
    let prev = parsed_entries(ib, d, (n - 1) as nat);
    let cur = parsed_entries(ib, d, n);
    if i < prev.len() {
        lemma_parsed_from(ib, d, (n - 1) as nat, i);
        assert(cur[i] == prev[i]);
        let p = choose|p: int| 0 <= p < n - 1 && index_entry_value(ib, p, d) == Some(prev[i]);
        assert(index_entry_value(ib, p, d) == Some(cur[i]));
    } else {
        let p = n - 1;
        assert(index_entry_value(ib, p, d) == Some(cur[i]));
    }
}

/// The first value of a tag that has one value wherever it occurs.
proof fn lemma_first_value_unique(s: Seq<(u32, TagData)>, t: u32, v: TagData)
    requires
        exists|i: int| 0 <= i < s.len() && (#[trigger] s[i]).0 == t,
        forall|i: int| 0 <= i < s.len() && (#[trigger] s[i]).0 == t ==> s[i].1 == v,
    ensures
        first_value(s, t) == Some(v),
    decreases s.len(),
{
    if s[0].0 != t {
        let r = s.drop_first();
        let i = choose|i: int| 0 <= i < s.len() && (#[trigger] s[i]).0 == t;
        assert(r[i - 1] == s[i]);
        assert forall|j: int| 0 <= j < r.len() && (#[trigger] r[j]).0 == t implies r[j].1 == v by {
            assert(r[j] == s[j + 1]);
        }
        lemma_first_value_unique(r, t, v);
    }
}

// ---------------------------------------------------------------------------
// Strings
// ---------------------------------------------------------------------------

/// Whether a string holds no NUL character.
pub open spec fn no_nul(s: Seq<char>) -> bool {
    forall|i: int| 0 <= i < s.len() ==> s[i] != '\0'
}

proof fn lemma_utf8_no_zero(s: Seq<char>)
    requires
        no_nul(s),
    ensures
        forall|i: int| 0 <= i < utf8(s).len() ==> utf8(s)[i] != 0,
    decreases s.len(),
{
    if s.len() > 0 {
        let r = s.drop_first();
        assert(no_nul(r)) by {
            assert forall|i: int| 0 <= i < r.len() implies r[i] != '\0' by {
                assert(r[i] == s[i + 1]);
            }
        }
        lemma_utf8_no_zero(r);
        let c = s[0] as u32;
        vstd::utf8::char_is_scalar(s[0]);
        assert(s[0] != '\0');
        assert(c != 0) by {
            vstd::utf8::char_u32_cast(s[0], c);
        }
        let e = vstd::utf8::encode_scalar(c);
        assert forall|i: int| 0 <= i < e.len() implies e[i] != 0 by {
            if vstd::utf8::has_width_1_encoding(c) {
                assert(((c & 0x7F) as u8) != 0) by (bit_vector)
                    requires
                        c != 0 && c <= 0x7F,
                ;
            } else {
                assert((0xC0u8 | ((c >> 6) & 0x1F) as u8) != 0) by (bit_vector);
                assert((0xE0u8 | ((c >> 12) & 0x0F) as u8) != 0) by (bit_vector);
                assert((0xF0u8 | ((c >> 18) & 0x7) as u8) != 0) by (bit_vector);
                assert((0x80u8 | (c & 0x3F) as u8) != 0) by (bit_vector);
                assert((0x80u8 | ((c >> 6) & 0x3F) as u8) != 0) by (bit_vector);
                assert((0x80u8 | ((c >> 12) & 0x3F) as u8) != 0) by (bit_vector);
            }
        }
        assert(utf8(s) == e + utf8(r));
        assert forall|i: int| 0 <= i < utf8(s).len() implies utf8(s)[i] != 0 by {
            if i < e.len() {
                assert(utf8(s)[i] == e[i]);
            } else {
                assert(utf8(s)[i] == utf8(r)[i - e.len()]);
            }
        }
    }
}

proof fn lemma_first_zero_at(d: Seq<u8>, k: int, j: int)
    requires
        0 <= k <= j < d.len(),
        d[j] == 0,
        forall|i: int| k <= i < j ==> d[i] != 0,
    ensures
        first_zero_from(d, k) == Some(j),
    decreases j - k,
{
    if k < j {
        lemma_first_zero_at(d, k + 1, j);
    }
}

/// A string written with its NUL reads back as itself.
proof fn lemma_nul_string_read(d: Seq<u8>, off: int, s: Seq<char>)
    requires
        no_nul(s),
        0 <= off,
        off + utf8(s).len() + 1 <= d.len(),
        d.subrange(off, off + utf8(s).len() + 1) == utf8(s) + seq![0u8],
    ensures
        nul_string(d, off) == Some(s),
{
    let u = utf8(s);
    let end = off + u.len();
    lemma_utf8_no_zero(s);
    assert(d[end] == d.subrange(off, end + 1)[u.len() as int]);
    assert forall|i: int| off <= i < end implies d[i] != 0 by {
        assert(d[i] == d.subrange(off, end + 1)[i - off]);
        assert(d.subrange(off, end + 1)[i - off] == u[i - off]);
    }
    lemma_first_zero_at(d, off, end);
    assert(d.subrange(off, end) =~= u);
    vstd::utf8::encode_utf8_valid_utf8(s);
    vstd::utf8::encode_utf8_decode_utf8(s);
}

// ---------------------------------------------------------------------------
// Integer arrays and string lists
// ---------------------------------------------------------------------------

proof fn lemma_i32s_at(v: Seq<i32>, i: int)
    requires
        0 <= i < v.len(),
    ensures
        i32s_bytes(v).len() == 4 * v.len(),
        i32s_bytes(v).subrange(4 * i, 4 * i + 4) == be32(v[i] as u32),
    decreases v.len(),
{
    let init = v.drop_last();
    if init.len() > 0 {
        lemma_i32s_at(init, if i < init.len() { i } else { 0 });
    }
    let a = i32s_bytes(init);
    assert(a.len() == 4 * init.len());
    assert(i32s_bytes(v) == a + be32(v.last() as u32));
    if i < init.len() {
        assert(init[i] == v[i]);
        assert(i32s_bytes(v).subrange(4 * i, 4 * i + 4) =~= a.subrange(4 * i, 4 * i + 4));
    } else {
        assert(i32s_bytes(v).subrange(4 * i, 4 * i + 4) =~= be32(v.last() as u32));
    }
}

proof fn lemma_i64s_at(v: Seq<i64>, i: int)
    requires
        0 <= i < v.len(),
    ensures
        i64s_bytes(v).len() == 8 * v.len(),
        i64s_bytes(v).subrange(8 * i, 8 * i + 8) == be64(v[i] as u64),
    decreases v.len(),
{
    let init = v.drop_last();
    if init.len() > 0 {
        lemma_i64s_at(init, if i < init.len() { i } else { 0 });
    }
    let a = i64s_bytes(init);
    assert(a.len() == 8 * init.len());
    assert(i64s_bytes(v) == a + be64(v.last() as u64));
    if i < init.len() {
        assert(init[i] == v[i]);
        assert(i64s_bytes(v).subrange(8 * i, 8 * i + 8) =~= a.subrange(8 * i, 8 * i + 8));
    } else {
        assert(i64s_bytes(v).subrange(8 * i, 8 * i + 8) =~= be64(v.last() as u64));
    }
}

proof fn lemma_i32_cast(x: i32)
    ensures
        (x as u32) as i32 == x,
{
    assert((x as u32) as i32 == x) by (bit_vector);
}

proof fn lemma_i64_cast(x: i64)
    ensures
        (x as u64) as i64 == x,
{
    assert((x as u64) as i64 == x) by (bit_vector);
}

proof fn lemma_u64_halves(x: u64)
    ensures
        ((x / 0x100000000) as u32) as int * 0x100000000 + ((x % 0x100000000) as u32) as int == x as int,
{
    assert(((x / 0x100000000) as u32) as u64 * 0x100000000 + ((x % 0x100000000) as u32) as u64 == x)
        by (bit_vector);
}

/// An integer array written at `off` reads back as itself.
proof fn lemma_i32s_read(d: Seq<u8>, off: int, v: Seq<i32>)
    requires
        0 <= off,
        off + i32s_bytes(v).len() <= d.len(),
        d.subrange(off, off + i32s_bytes(v).len()) == i32s_bytes(v),
    ensures
        Seq::new(v.len(), |i: int| be_u32_at(d, off + i * 4) as i32) == v,
        v.len() == 0 || off + v.len() * 4 <= d.len(),
{
    if v.len() > 0 {
        lemma_i32s_at(v, 0);
    }
    assert forall|i: int| 0 <= i < v.len() implies be_u32_at(d, off + i * 4) as i32 == v[i] by {
        lemma_i32s_at(v, i);
        let w = be32(v[i] as u32);
        assert forall|t: int| 0 <= t < 4 implies d[off + i * 4 + t] == w[t] by {
            assert(d[off + i * 4 + t] == d.subrange(off, off + i32s_bytes(v).len())[i * 4 + t]);
            assert(i32s_bytes(v)[4 * i + t] == i32s_bytes(v).subrange(4 * i, 4 * i + 4)[t]);
        }
        lemma_be32_read(d, off + i * 4, v[i] as u32);
        lemma_i32_cast(v[i]);
    }
    assert(Seq::new(v.len(), |i: int| be_u32_at(d, off + i * 4) as i32) =~= v);
}

/// A 64-bit integer array written at `off` reads back as itself.
proof fn lemma_i64s_read(d: Seq<u8>, off: int, v: Seq<i64>)
    requires
        0 <= off,
        off + i64s_bytes(v).len() <= d.len(),
        d.subrange(off, off + i64s_bytes(v).len()) == i64s_bytes(v),
    ensures
        Seq::new(v.len(), |i: int| be_u64_at(d, off + i * 8) as i64) == v,
        v.len() == 0 || off + v.len() * 8 <= d.len(),
{
    if v.len() > 0 {
        lemma_i64s_at(v, 0);
    }
    assert forall|i: int| 0 <= i < v.len() implies be_u64_at(d, off + i * 8) as i64 == v[i] by {
        lemma_i64s_at(v, i);
        let x = v[i] as u64;
        let hi = be32((x / 0x100000000) as u32);
        let lo = be32((x % 0x100000000) as u32);
        assert(be64(x) == hi + lo);
        assert forall|t: int| 0 <= t < 4 implies d[off + i * 8 + t] == hi[t] by {
            assert(d[off + i * 8 + t] == d.subrange(off, off + i64s_bytes(v).len())[i * 8 + t]);
            assert(i64s_bytes(v)[8 * i + t] == i64s_bytes(v).subrange(8 * i, 8 * i + 8)[t]);
        }
        assert forall|t: int| 0 <= t < 4 implies d[off + i * 8 + 4 + t] == lo[t] by {
            assert(d[off + i * 8 + 4 + t] == d.subrange(off, off + i64s_bytes(v).len())[i * 8 + 4 + t]);
            assert(i64s_bytes(v)[8 * i + 4 + t] == i64s_bytes(v).subrange(8 * i, 8 * i + 8)[4 + t]);
        }
        lemma_be32_read(d, off + i * 8, (x / 0x100000000) as u32);
        lemma_be32_read(d, off + i * 8 + 4, (x % 0x100000000) as u32);
        lemma_u64_halves(x);
        lemma_i64_cast(v[i]);
    }
    assert(Seq::new(v.len(), |i: int| be_u64_at(d, off + i * 8) as i64) =~= v);
}

proof fn lemma_strings_front(ss: Seq<Seq<char>>)
    requires
        ss.len() > 0,
    ensures
        strings_bytes(ss) == utf8(ss[0]) + seq![0u8] + strings_bytes(ss.drop_first()),
    decreases ss.len(),
{
    if ss.len() > 1 {
        lemma_strings_front(ss.drop_last());
        assert(ss.drop_last().drop_first() =~= ss.drop_first().drop_last());
        assert(ss.drop_last()[0] == ss[0]);
        assert(ss.drop_first().last() == ss.last());
    } else {
        assert(ss.drop_first() =~= Seq::<Seq<char>>::empty());
        assert(ss.drop_last() =~= Seq::<Seq<char>>::empty());
    }
}

/// A string list written at `off` reads back as itself.
proof fn lemma_strings_read(d: Seq<u8>, off: int, ss: Seq<Seq<char>>)
    requires
        all_no_nul(ss),
        0 <= off,
        off + strings_bytes(ss).len() <= d.len(),
        d.subrange(off, off + strings_bytes(ss).len()) == strings_bytes(ss),
    ensures
        strings_at(d, off, ss.len()) == Some(ss),
    decreases ss.len(),
{
    if ss.len() > 0 {
        lemma_strings_front(ss);
        let s0 = ss[0];
        let rest = ss.drop_first();
        let u = utf8(s0);
        let ul = u.len() as int;
        let whole = strings_bytes(ss);
        assert(no_nul(s0));
        assert(d.subrange(off, off + u.len() + 1) =~= whole.subrange(0, ul + 1));
        assert(whole.subrange(0, ul + 1) =~= u + seq![0u8]);
        lemma_nul_string_read(d, off, s0);
        lemma_utf8_no_zero(s0);
        assert forall|i: int| off <= i < off + u.len() implies d[i] != 0 by {
            assert(d[i] == d.subrange(off, off + u.len() + 1)[i - off]);
        }
        assert(d[off + u.len()] == d.subrange(off, off + u.len() + 1)[u.len() as int]);
        lemma_first_zero_at(d, off, off + u.len());
        let off2 = off + u.len() + 1;
        assert(all_no_nul(rest)) by {
            assert forall|i: int| 0 <= i < rest.len() implies no_nul(#[trigger] rest[i]) by {
                assert(rest[i] == ss[i + 1]);
            }
        }
        assert(d.subrange(off2, off2 + strings_bytes(rest).len()) =~= whole.subrange(ul + 1, whole.len() as int));
        assert(whole.subrange(ul + 1, whole.len() as int) =~= strings_bytes(rest));
        lemma_strings_read(d, off2, rest);
        assert(seq![s0] + rest =~= ss);
    }
}

// ---------------------------------------------------------------------------
// Reading back a header
// ---------------------------------------------------------------------------

/// Whether entry `k` is the only entry with its tag.
pub open spec fn sole_tag(es: Seq<EntryView>, k: int) -> bool {
    forall|m: int| 0 <= m < es.len() && (#[trigger] es[m]).0 == es[k].0 ==> m == k
}

/// Whether no string of a list holds a NUL character.
pub open spec fn all_no_nul(ss: Seq<Seq<char>>) -> bool {
    forall|i: int| 0 <= i < ss.len() ==> no_nul(#[trigger] ss[i])
}

/// The values the reader gives back exactly: strings and string lists
/// without a NUL character, 32- and 64-bit integer arrays and binary
/// blobs, each with no more items than a 32-bit count holds.
pub open spec fn readable(d: TagData) -> bool {
    match d {
        TagData::Str(s) => no_nul(s),
        TagData::I18N(s) => no_nul(s),
        TagData::StrArray(ss) => all_no_nul(ss) && ss.len() <= u32::MAX,
        TagData::I32(v) => v.len() <= u32::MAX,
        TagData::I64(v) => v.len() <= u32::MAX,
        TagData::Bytes(b) => b.len() <= u32::MAX,
        _ => false,
    }
}

/// A value as the reader gives it back: an internationalized string reads
/// as a string.
pub open spec fn read_form(d: TagData) -> TagData {
    match d {
        TagData::I18N(s) => TagData::Str(s),
        _ => d,
    }
}

/// The entries the reader parses from a serialized header: it takes the
/// index count and data size from the preamble, then the index entries
/// and the data section that follow.
pub open spec fn read_back(b: Seq<u8>) -> Seq<(u32, TagData)> {
    let n = be_u32_at(b, 8) as int;
    let dl = be_u32_at(b, 12) as int;
    parsed_entries(b.subrange(16, 16 + 16 * n), b.subrange(16 + 16 * n, 16 + 16 * n + dl), n as nat)
}

proof fn lemma_offset_cast(x: i32)
    requires
        0 <= x,
    ensures
        (x as u32) as i32 == x,
{
    assert(0 <= x ==> (x as u32) as i32 == x) by (bit_vector);
}

/// An index entry that describes a readable value reads back as it.
proof fn lemma_entry_reads(idx: Seq<IndexView>, p: int, data: Seq<u8>, d: TagData)
    requires
        0 <= p < idx.len(),
        placed(data, idx[p], d),
        readable(d),
    ensures
        index_entry_value(index_section(idx), p, data) == Some((idx[p].0, read_form(d))),
{
    lemma_index_entry_read(idx, p);
    lemma_offset_cast(idx[p].2);
    let off = idx[p].2 as int;
    match d {
        TagData::Str(s) => {
            lemma_nul_string_read(data, off, s);
        },
        TagData::I18N(s) => {
            lemma_nul_string_read(data, off, s);
        },
        TagData::StrArray(ss) => {
            lemma_strings_read(data, off, ss);
        },
        TagData::I32(v) => {
            lemma_i32s_read(data, off, v);
        },
        TagData::I64(v) => {
            lemma_i64s_read(data, off, v);
        },
        TagData::Bytes(b) => {
            assert(data.subrange(off, off + b.len()) == b);
        },
        _ => {},
    }
}

proof fn lemma_concat_pieces(m: Seq<u8>, z: Seq<u8>, w1: Seq<u8>, w2: Seq<u8>, isec: Seq<u8>, data: Seq<u8>)
    requires
        m.len() == 4,
        z.len() == 4,
        w1.len() == 4,
        w2.len() == 4,
    ensures
        ({
            let b = m + z + w1 + w2 + isec + data;
            &&& b.len() == 16 + isec.len() + data.len()
            &&& b[8] == w1[0] && b[9] == w1[1] && b[10] == w1[2] && b[11] == w1[3]
            &&& b[12] == w2[0] && b[13] == w2[1] && b[14] == w2[2] && b[15] == w2[3]
            &&& b.subrange(16, 16 + isec.len() as int) == isec
            &&& b.subrange(16 + isec.len() as int, 16 + isec.len() as int + data.len() as int) == data
        }),
{
    let b = m + z + w1 + w2 + isec + data;
    assert(b.subrange(16, 16 + isec.len() as int) =~= isec);
    assert(b.subrange(16 + isec.len() as int, 16 + isec.len() as int + data.len() as int) =~= data);
}

/// The pieces of a serialized header.
#[verifier::rlimit(40)]
proof fn lemma_header_pieces(es: Seq<EntryView>)
    requires
        header_bytes(es) matches Ok(b) && b.len() <= u32::MAX,
    ensures
        ({
            let b = header_bytes(es)->Ok_0;
            let (data, idx) = layout(layout_order(es))->Ok_0;
            let sorted = index_order(idx);
            &&& layout(layout_order(es)) is Ok
            &&& es.len() > 0
            &&& es.len() <= usize::MAX
            &&& layout_order(es).len() == es.len()
            &&& idx.len() == es.len()
            &&& sorted.len() == es.len()
            &&& be_u32_at(b, 8) == es.len()
            &&& be_u32_at(b, 12) == data.len()
            &&& b.len() == 16 + 16 * es.len() + data.len()
            &&& b.subrange(16, 16 + 16 * es.len() as int) == index_section(sorted)
            &&& b.subrange(16 + 16 * es.len() as int, 16 + 16 * es.len() as int + data.len() as int) == data
        }),
{
    let b = header_bytes(es)->Ok_0;
    let lo = layout_order(es);
    let (data, idx) = layout(lo)->Ok_0;
    let sorted = index_order(idx);
    let n = sorted.len() as int;
    let isec = index_section(sorted);
    lemma_layout_places(lo);
    lemma_index_section_at(sorted, 0);
    let w1 = be32(n as u32);
    let w2 = be32(data.len() as u32);
    assert(b == header_magic() + zeros(4) + w1 + w2 + isec + data);
    lemma_concat_pieces(header_magic(), zeros(4), w1, w2, isec, data);
    assert(16 * n <= u32::MAX);
    lemma_be32_read(b, 8, n as u32);
    lemma_be32_read(b, 12, data.len() as u32);
    lemma_sort_len(Seq::new(es.len(), |i: int| (layout_key(es[i].0), i as usize)));
    lemma_sort_len(Seq::new(idx.len(), |i: int| (idx[i].0 as u64, i as usize)));
}

/// A value written into a header reads back as the value written: the
/// reader's first value of its tag is that value, when no other entry has
/// its tag, the header fits 32-bit sizes and the value is a string or
/// string list without NUL characters, an array of 32- or 64-bit integers
/// or a binary blob (with a count that fits 32 bits). An internationalized
/// string reads back as a string.
pub proof fn law_tag_reads_back(es: Seq<EntryView>, k: int)
    requires
        header_bytes(es) matches Ok(b) && b.len() <= u32::MAX,
        0 <= k < es.len(),
        sole_tag(es, k),
        readable(es[k].1),
    ensures
        first_value(read_back(header_bytes(es)->Ok_0), es[k].0) == Some(read_form(es[k].1)),
{
    lemma_header_pieces(es);
    let b = header_bytes(es)->Ok_0;
    let lo = layout_order(es);
    let (data, idx) = layout(lo)->Ok_0;
    let sorted = index_order(idx);
    let n = es.len() as int;
    let ib = b.subrange(16, 16 + 16 * n);
    let db = b.subrange(16 + 16 * n, 16 + 16 * n + data.len() as int);
    let t = es[k].0;
    let v = read_form(es[k].1);
    assert(read_back(b) == parsed_entries(ib, db, n as nat));
    lemma_layout_order_elements(es, k);
    lemma_layout_places(lo);
    lemma_index_order_elements(idx, 0);
    let qs = choose|q: int| 0 <= q < es.len() && #[trigger] lo[q] == es[k];
    lemma_index_order_elements(idx, qs);
    let ps = choose|p: int| 0 <= p < idx.len() && #[trigger] sorted[p] == idx[qs];
    lemma_entry_reads(sorted, ps, data, es[k].1);
    lemma_parsed_has(ib, db, n as nat, ps);
    let parsed = parsed_entries(ib, db, n as nat);
    assert(parsed.contains((t, v)));
    assert forall|i: int| 0 <= i < parsed.len() && (#[trigger] parsed[i]).0 == t implies parsed[i].1 == v by {
        lemma_parsed_from(ib, db, n as nat, i);
        let p = choose|p: int| 0 <= p < n && index_entry_value(ib, p, db) == Some(#[trigger] parsed_entries(ib, db, n as nat)[i]);
        lemma_index_entry_read(sorted, p);
        let j = choose|j: int| 0 <= j < idx.len() && #[trigger] sorted[p] == idx[j];
        let m = choose|m: int| 0 <= m < es.len() && #[trigger] lo[j] == es[m];
        assert(idx[j].0 == lo[j].0);
        assert(m == k);
        lemma_entry_reads(sorted, p, data, es[k].1);
    }
    let i0 = choose|i: int| 0 <= i < parsed.len() && parsed[i] == (t, v);
    lemma_first_value_unique(parsed, t, v);
}

// ---------------------------------------------------------------------------
// The identity of a built package
// ---------------------------------------------------------------------------

/// Every tag of the entries is at least `t`.
pub open spec fn tags_from(es: Seq<EntryView>, t: u32) -> bool {
    forall|i: int| 0 <= i < es.len() ==> (#[trigger] es[i]).0 >= t
}

proof fn lemma_tags_from_add(a: Seq<EntryView>, b: Seq<EntryView>, t: u32)
    requires
        tags_from(a, t),
        tags_from(b, t),
    ensures
        tags_from(a + b, t),
{
    assert forall|i: int| 0 <= i < (a + b).len() implies (#[trigger] (a + b)[i]).0 >= t by {
        if i < a.len() {
            assert((a + b)[i] == a[i]);
        } else {
            assert((a + b)[i] == b[i - a.len()]);
        }
    }
}

proof fn lemma_script_tags(s: ResolvedScripts)
    ensures
        tags_from(script_entries(s), 1004),
{
    let ps = seq![
        script_pair(1023, 1085, s.pre_install),
        script_pair(1024, 1086, s.post_install),
        script_pair(1025, 1087, s.pre_remove),
        script_pair(1026, 1088, s.post_remove),
        script_pair(1151, 1153, s.pre_trans),
        script_pair(1152, 1154, s.post_trans),
    ];
    assert forall|j: int| 0 <= j < 6 implies tags_from(#[trigger] ps[j], 1004) by {
        let q = ps[j];
        assert forall|i: int| 0 <= i < q.len() implies (#[trigger] q[i]).0 >= 1004 by {}
    }
    lemma_tags_from_add(ps[0], ps[1], 1004);
    lemma_tags_from_add(ps[0] + ps[1], ps[2], 1004);
    lemma_tags_from_add(ps[0] + ps[1] + ps[2], ps[3], 1004);
    lemma_tags_from_add(ps[0] + ps[1] + ps[2] + ps[3], ps[4], 1004);
    lemma_tags_from_add(ps[0] + ps[1] + ps[2] + ps[3] + ps[4], ps[5], 1004);
}

proof fn lemma_dependency_tags(config: Config, a: Algorithm, d: Option<Distro>, sub: SubPackage, plan: PackagePlan)
    ensures
        tags_from(dependency_entries(config, a, d, sub, plan), 1004),
{
    let es = dependency_entries(config, a, d, sub, plan);
    assert forall|i: int| 0 <= i < es.len() implies (#[trigger] es[i]).0 >= 1004 by {}
}

proof fn lemma_file_tags(fs: Seq<FileEntry>, ext: bool, dg: Seq<Seq<char>>, mt: Seq<Option<u64>>, ino: Seq<u32>)
    ensures
        tags_from(file_entries(fs, ext, dg, mt, ino), 1004),
{
    let es = file_entries(fs, ext, dg, mt, ino);
    if fs.len() > 0 {
        let a = name_entries(fs);
        let b = seq![size_entry(fs, ext)];
        let c = attribute_entries(fs, dg, mt, ino);
        assert(tags_from(a, 1004)) by {
            assert forall|i: int| 0 <= i < a.len() implies (#[trigger] a[i]).0 >= 1004 by {}
        }
        assert(tags_from(b, 1004)) by {
            assert forall|i: int| 0 <= i < b.len() implies (#[trigger] b[i]).0 >= 1004 by {}
        }
        assert(tags_from(c, 1004)) by {
            assert forall|i: int| 0 <= i < c.len() implies (#[trigger] c[i]).0 >= 1004 by {}
        }
        lemma_tags_from_add(a, b, 1004);
        lemma_tags_from_add(a + b, c, 1004);
    }
}

proof fn lemma_package_tags(plan: PackagePlan, sub: SubPackage, config: Config, a: Algorithm, time: u64, host: Seq<char>)
    ensures
        package_metadata_entries(plan, sub, config, a, time, host).take(3) == seq![
            (RPMTAG_NAME, TagData::Str(sub.name@)),
            (RPMTAG_VERSION, TagData::Str(plan.version@)),
            (RPMTAG_RELEASE, TagData::Str(plan.release@)),
        ],
        tags_from(package_metadata_entries(plan, sub, config, a, time, host).skip(3), 1004),
{
    let id = identity_entries(plan, sub, config, time, host);
    let ow = ownership_entries(sub, config);
    let pa = payload_entries(plan, config, a);
    assert(tags_from(id.skip(3), 1004)) by {
        assert forall|i: int| 0 <= i < id.skip(3).len() implies (#[trigger] id.skip(3)[i]).0 >= 1004 by {
            assert(id.skip(3)[i] == id[i + 3]);
        }
    }
    assert(tags_from(ow, 1004)) by {
        assert forall|i: int| 0 <= i < ow.len() implies (#[trigger] ow[i]).0 >= 1004 by {}
    }
    assert(tags_from(pa, 1004)) by {
        assert forall|i: int| 0 <= i < pa.len() implies (#[trigger] pa[i]).0 >= 1004 by {}
    }
    lemma_tags_from_add(id.skip(3), ow, 1004);
    lemma_tags_from_add(id.skip(3) + ow, pa, 1004);
    let all = id + ow + pa;
    assert(all.skip(3) =~= id.skip(3) + ow + pa);
    assert(all.take(3) =~= seq![
        (RPMTAG_NAME, TagData::Str(sub.name@)),
        (RPMTAG_VERSION, TagData::Str(plan.version@)),
        (RPMTAG_RELEASE, TagData::Str(plan.release@)),
    ]);
}

/// The metadata header's entries: its tags and the immutable region.
pub open spec fn metadata_header_entries(
    sub: SubPackage,
    plan: PackagePlan,
    config: Config,
    digests: Seq<Seq<char>>,
    a: Algorithm,
    d: Option<Distro>,
    inodes: Seq<u32>,
    time: u64,
    host: Seq<char>,
    mtimes: Seq<Option<u64>>,
) -> Seq<EntryView> {
    let es = metadata_entries(sub, plan, config, digests, a, d, inodes, time, host, mtimes);
    es.push((RPMTAG_HEADERIMMUTABLE, TagData::Bytes(crate::rpm::header::region_trailer(RPMTAG_HEADERIMMUTABLE, es.len()))))
}

/// The name, version and release that a built metadata header is read
/// back with are the sub-package's name and the plan's version and
/// release, when none of them holds a NUL character and the header fits
/// 32-bit sizes.
#[verifier::spinoff_prover]
pub proof fn law_built_identity_reads_back(
    sub: SubPackage,
    plan: PackagePlan,
    config: Config,
    digests: Seq<Seq<char>>,
    a: Algorithm,
    d: Option<Distro>,
    inodes: Seq<u32>,
    time: u64,
    host: Seq<char>,
    mtimes: Seq<Option<u64>>,
)
    requires
        header_bytes(metadata_header_entries(sub, plan, config, digests, a, d, inodes, time, host, mtimes)) matches Ok(
            b,
        ) && b.len() <= u32::MAX,
        no_nul(sub.name@),
        no_nul(plan.version@),
        no_nul(plan.release@),
    ensures
        ({
            let b = header_bytes(metadata_header_entries(sub, plan, config, digests, a, d, inodes, time, host, mtimes))->Ok_0;
            &&& first_value(read_back(b), RPMTAG_NAME) == Some(TagData::Str(sub.name@))
            &&& first_value(read_back(b), RPMTAG_VERSION) == Some(TagData::Str(plan.version@))
            &&& first_value(read_back(b), RPMTAG_RELEASE) == Some(TagData::Str(plan.release@))
        }),
{
    let pm = package_metadata_entries(plan, sub, config, a, time, host);
    let fe = file_entries(sub.files@, plan.needs_extended_cpio, digests, mtimes, inodes);
    let de = dependency_entries(config, a, d, sub, plan);
    let se = script_entries(sub.scripts);
    let es = metadata_header_entries(sub, plan, config, digests, a, d, inodes, time, host, mtimes);
    lemma_package_tags(plan, sub, config, a, time, host);
    lemma_file_tags(sub.files@, plan.needs_extended_cpio, digests, mtimes, inodes);
    lemma_dependency_tags(config, a, d, sub, plan);
    lemma_script_tags(sub.scripts);
    let last = es.last();
    assert(last.0 == 63);
    let rest = pm.skip(3) + fe + de + se;
    lemma_tags_from_add(pm.skip(3), fe, 1004);
    lemma_tags_from_add(pm.skip(3) + fe, de, 1004);
    lemma_tags_from_add(pm.skip(3) + fe + de, se, 1004);
    assert(es =~= pm.take(3) + rest + seq![last]);
    assert forall|m: int| 3 <= m < es.len() implies (#[trigger] es[m]).0 >= 1004 || es[m].0 == 63 by {
        if m < es.len() - 1 {
            assert(es[m] == rest[m - 3]);
        }
    }
    assert(es[0] == (RPMTAG_NAME, TagData::Str(sub.name@)));
    assert(es[1] == (RPMTAG_VERSION, TagData::Str(plan.version@)));
    assert(es[2] == (RPMTAG_RELEASE, TagData::Str(plan.release@)));
    assert(sole_tag(es, 0));
    assert(sole_tag(es, 1));
    assert(sole_tag(es, 2));
    law_tag_reads_back(es, 0);
    law_tag_reads_back(es, 1);
    law_tag_reads_back(es, 2);
}

} // verus!
