//! DEB control metadata: parsing the control file of an existing package and
//! looking fields up by name.
//!
//! Locating the `control.tar` member and decompressing it is I/O done by the
//! command-line application; the text of the control file is parsed here.
use vstd::prelude::*;

use vstd::utf8::{decode_utf8, valid_utf8};

use crate::compress::Algorithm;
use crate::config::Config;
use crate::deb::control::{
    control_head, control_lines, control_text, field_lines, fields_view, list_line, priority_of, section_of,
    sort_fields, extra_field_lines,
};
use crate::deb::DebError;
use crate::deps::strings_view;
use crate::planner::PackagePlan;
use crate::types::deb_arch_name;
use crate::rpm::reader::utf8_decode;
use crate::text::{
    chars_of, extend_chars, extend_str, find_char, find_char_exec, is_ws, is_ws_exec, lit, string_from_chars, sub_chars,
    trim, trim_chars, trim_start,
};
use crate::types::{parse_u64, u64_from_str};

verus! {

/// Metadata extracted from a DEB file.
#[derive(Debug)]
pub struct DebMetadata {
    /// All control fields as (key, value) pairs, preserving order.
    pub fields: Vec<(String, String)>,
}

/// `str::to_lowercase`: the Unicode lowercase mapping of a string.
pub uninterp spec fn lowercase(s: Seq<char>) -> Seq<char>;

/// `str::to_lowercase`: the string with every character mapped to its
/// Unicode lowercase form (which may be several characters). The result is
/// named, not spelled out: it depends on the string alone.
#[verifier::external_body]
fn to_lowercase(s: &str) -> (r: String)
    ensures
        r@ == lowercase(s@),
{
    s.to_lowercase()
}

/// The first position at which `keys` holds `key`.
pub open spec fn first_key(keys: Seq<Seq<char>>, key: Seq<char>) -> Option<int>
    decreases keys.len(),
{
    if keys.len() == 0 {
        None
    } else {
        match first_key(keys.drop_last(), key) {
            Some(i) => Some(i),
            None => if keys.last() == key {
                Some(keys.len() - 1)
            } else {
                None
            },
        }
    }
}

/// The first position at which `keys` holds `key`.
pub fn position_of(keys: &Vec<String>, key: &str) -> (r: Option<usize>)
    ensures
        match r {
            Some(i) => i < keys@.len() && first_key(keys@.map_values(|k: String| k@), key@) == Some(
                i as int,
            ),
            None => first_key(keys@.map_values(|k: String| k@), key@) is None,
        },
{
    let ghost kv = keys@.map_values(|k: String| k@);
    let mut i: usize = 0;
    while i < keys.len()
        invariant
            i <= keys.len(),
            kv == keys@.map_values(|k: String| k@),
            first_key(kv.take(i as int), key@) is None,
        decreases keys.len() - i,
    {
        assert(kv.take(i + 1).drop_last() =~= kv.take(i as int));
        assert(kv.take(i + 1).last() == keys@[i as int]@);
        if crate::text::str_eq(keys[i].as_str(), key) {
            proof {
                lemma_first_key_prefix(kv, key@, i + 1);
            }
            return Some(i);
        }
        i += 1;
    }
    assert(kv.take(keys.len() as int) =~= kv);
    None
}

proof fn lemma_first_key_prefix(keys: Seq<Seq<char>>, key: Seq<char>, n: int)
    requires
        0 <= n <= keys.len(),
        first_key(keys.take(n), key) is Some,
    ensures
        first_key(keys, key) == first_key(keys.take(n), key),
    decreases keys.len() - n,
{
    if n < keys.len() {
        assert(keys.take(n + 1).drop_last() =~= keys.take(n));
        lemma_first_key_prefix(keys, key, n + 1);
    } else {
        assert(keys.take(n) =~= keys);
    }
}

impl DebMetadata {
    /// The fields as character sequences.
    pub open spec fn fields_view(&self) -> Seq<(Seq<char>, Seq<char>)> {
        self.fields@.map_values(|f: (String, String)| (f.0@, f.1@))
    }

    /// Look up a control field by key (case-insensitive): the value of the
    /// first field whose key lowercases to the key's lowercase form.
    pub fn get(&self, key: &str) -> (r: Option<&str>)
        ensures
            match first_key(
                self.fields_view().map_values(|f: (Seq<char>, Seq<char>)| lowercase(f.0)),
                lowercase(key@),
            ) {
                Some(i) => r matches Some(v) && v@ == self.fields_view()[i].1,
                None => r is None,
            },
    {
        let key_lower = to_lowercase(key);
        let mut lowered: Vec<String> = Vec::new();
        let mut i: usize = 0;
        while i < self.fields.len()
            invariant
                i <= self.fields.len(),
                lowered@.map_values(|k: String| k@) == self.fields_view().take(i as int).map_values(
                    |f: (Seq<char>, Seq<char>)| lowercase(f.0),
                ),
            decreases self.fields.len() - i,
        {
            let ghost prev = lowered@;
            let l = to_lowercase(self.fields[i].0.as_str());
            lowered.push(l);
            assert(lowered@.map_values(|k: String| k@) =~= prev.map_values(|k: String| k@).push(l@));
            assert(self.fields_view().take(i + 1).map_values(|f: (Seq<char>, Seq<char>)| lowercase(f.0))
                =~= self.fields_view().take(i as int).map_values(
                |f: (Seq<char>, Seq<char>)| lowercase(f.0),
            ).push(lowercase(self.fields@[i as int].0@)));
            i += 1;
        }
        assert(lowered@.map_values(|k: String| k@) =~= self.fields_view().map_values(
            |f: (Seq<char>, Seq<char>)| lowercase(f.0),
        ));
        match position_of(&lowered, key_lower.as_str()) {
            Some(p) => Some(self.fields[p].1.as_str()),
            None => None,
        }
    }
}

/// The segments of `s` between newlines.
pub open spec fn split_nl(s: Seq<char>) -> Seq<Seq<char>>
    decreases s.len(),
{
    if s.len() == 0 {
        seq![seq![]]
    } else {
        let p = split_nl(s.drop_last());
        if s.last() == '\n' {
            p.push(seq![])
        } else {
            p.update(p.len() - 1, p.last().push(s.last()))
        }
    }
}

/// A line that ended with a newline, without a carriage return before it.
pub open spec fn strip_cr(l: Seq<char>) -> Seq<char> {
    if l.len() > 0 && l.last() == '\r' {
        l.drop_last()
    } else {
        l
    }
}

/// `str::lines`: the lines of `s`, split at `\n` (with a `\r` before it
/// dropped), the final line ending being optional.
pub open spec fn text_lines(s: Seq<char>) -> Seq<Seq<char>> {
    let ps = split_nl(s);
    ps.drop_last().map_values(|l: Seq<char>| strip_cr(l)) + if ps.last().len() > 0 {
        seq![ps.last()]
    } else {
        seq![]
    }
}

/// One control-file line applied to the fields so far: `Key: value` starts
/// a field (the value without its leading whitespace), a line starting with
/// a space or tab continues the last field (joined with a newline), other
/// lines are skipped.
pub open spec fn parse_step(fs: Seq<(Seq<char>, Seq<char>)>, l: Seq<char>) -> Seq<(Seq<char>, Seq<char>)> {
    if l.len() > 0 && (l[0] == ' ' || l[0] == '\t') {
        if fs.len() > 0 {
            fs.update(fs.len() - 1, (fs.last().0, fs.last().1 + seq!['\n'] + l))
        } else {
            fs
        }
    } else {
        match find_char(l, ':') {
            Some(p) => fs.push((l.take(p), trim_start(l.skip(p + 1)))),
            None => fs,
        }
    }
}

/// The fields of control-file lines, in order.
pub open spec fn parse_fields(ls: Seq<Seq<char>>) -> Seq<(Seq<char>, Seq<char>)>
    decreases ls.len(),
{
    if ls.len() == 0 {
        seq![]
    } else {
        parse_step(parse_fields(ls.drop_last()), ls.last())
    }
}

/// The view of fields held as character vectors.
pub open spec fn pairs_chars(v: Seq<(Vec<char>, Vec<char>)>) -> Seq<(Seq<char>, Seq<char>)> {
    v.map_values(|f: (Vec<char>, Vec<char>)| (f.0@, f.1@))
}

fn trim_start_exec(s: &Vec<char>) -> (r: Vec<char>)
    ensures
        r@ == trim_start(s@),
{
    let mut i: usize = 0;
    assert(s@.skip(0) =~= s@);
    while i < s.len() && is_ws_exec(s[i])
        invariant
            i <= s.len(),
            trim_start(s@) == trim_start(s@.skip(i as int)),
        decreases s.len() - i,
    {
        assert(s@.skip(i as int).drop_first() =~= s@.skip(i + 1));
        i += 1;
    }
    let r = sub_chars(s, i, s.len());
    assert(r@ =~= s@.skip(i as int));
    r
}

fn parse_line(fields: &mut Vec<(Vec<char>, Vec<char>)>, l: &Vec<char>)
    ensures
        pairs_chars(final(fields)@) == parse_step(pairs_chars(old(fields)@), l@),
{
    let ghost fv = pairs_chars(fields@);
    if l.len() > 0 && (l[0] == ' ' || l[0] == '\t') {
        let n = fields.len();
        if n > 0 {
            let ghost old_last = fields@[n - 1];
            assert(fv.last() == (old_last.0@, old_last.1@));
            let mut last: (Vec<char>, Vec<char>) = (Vec::new(), Vec::new());
            std::mem::swap(&mut last, &mut fields[n - 1]);
            assert(last == old_last);
            let (k, mut v) = last;
            v.push('\n');
            extend_chars(&mut v, l);
            assert(v@ =~= old_last.1@ + seq!['\n'] + l@);
            let ghost mid = fields@;
            fields.set(n - 1, (k, v));
            assert(fields@ == mid.update(n - 1, (k, v)));
            assert(pairs_chars(fields@) =~= parse_step(fv, l@));
        }
    } else {
        match find_char_exec(l, ':') {
            Some(p) => {
                let key = sub_chars(l, 0, p);
                let rest = sub_chars(l, p + 1, l.len());
                let value = trim_start_exec(&rest);
                assert(key@ =~= l@.take(p as int));
                assert(rest@ =~= l@.skip(p + 1));
                fields.push((key, value));
                assert(pairs_chars(fields@) =~= parse_step(fv, l@));
            },
            None => {},
        }
    }
}

/// Parse a Debian control file (RFC 822 format) into key-value pairs.
///
/// Fields are `Key: value` lines; continuation lines start with a space or
/// tab; other lines (empty ones, lines without a colon) are skipped.
pub fn parse_control_file(content: &str) -> (r: DebMetadata)
    ensures
        r.fields_view() == parse_fields(text_lines(content@)),
{
    let c = chars_of(content);
    let mut fields: Vec<(Vec<char>, Vec<char>)> = Vec::new();
    let mut cur: Vec<char> = Vec::new();
    let mut i: usize = 0;
    assert(c@.take(0) =~= Seq::<char>::empty());
    while i < c.len()
        invariant
            i <= c.len(),
            pairs_chars(fields@) == parse_fields(
                split_nl(c@.take(i as int)).drop_last().map_values(|l: Seq<char>| strip_cr(l)),
            ),
            split_nl(c@.take(i as int)).len() >= 1,
            cur@ == split_nl(c@.take(i as int)).last(),
        decreases c.len() - i,
    {
        let ghost pre = split_nl(c@.take(i as int));
        let ghost t1 = c@.take(i + 1);
        assert(t1.drop_last() =~= c@.take(i as int));
        assert(t1.last() == c@[i as int]);
        if c[i] == '\n' {
            let mut line = cur;
            if line.len() > 0 && line[line.len() - 1] == '\r' {
                line.pop();
            }
            assert(line@ =~= strip_cr(pre.last()));
            let ghost done = pre.drop_last().map_values(|l: Seq<char>| strip_cr(l));
            assert(done.push(strip_cr(pre.last())).drop_last() =~= done);
            assert(parse_fields(done.push(strip_cr(pre.last()))) == parse_step(
                parse_fields(done),
                strip_cr(pre.last()),
            ));
            parse_line(&mut fields, &line);
            cur = Vec::new();
            let ghost post = split_nl(t1);
            assert(post == pre.push(seq![]));
            assert(post.drop_last() =~= pre);
            assert(pre =~= pre.drop_last().push(pre.last()));
            assert(post.drop_last().map_values(|l: Seq<char>| strip_cr(l)) =~= pre.drop_last().map_values(
                |l: Seq<char>| strip_cr(l),
            ).push(strip_cr(pre.last())));
            assert(cur@ =~= post.last());
        } else {
            let ghost post = split_nl(t1);
            assert(post == pre.update(pre.len() - 1, pre.last().push(c@[i as int])));
            assert(post.drop_last() =~= pre.drop_last());
            cur.push(c[i]);
        }
        i += 1;
    }
    assert(c@.take(c.len() as int) =~= c@);
    let ghost ps = split_nl(content@);
    if cur.len() > 0 {
        let ghost done = ps.drop_last().map_values(|l: Seq<char>| strip_cr(l));
        assert(done.push(ps.last()).drop_last() =~= done);
        parse_line(&mut fields, &cur);
        assert(text_lines(content@) =~= ps.drop_last().map_values(|l: Seq<char>| strip_cr(l)).push(
            ps.last(),
        ));
        assert(text_lines(content@).drop_last() =~= ps.drop_last().map_values(|l: Seq<char>| strip_cr(l)));
    } else {
        assert(text_lines(content@) =~= ps.drop_last().map_values(|l: Seq<char>| strip_cr(l)));
    }
    let mut out: Vec<(String, String)> = Vec::new();
    let mut k: usize = 0;
    while k < fields.len()
        invariant
            k <= fields.len(),
            out@.map_values(|f: (String, String)| (f.0@, f.1@)) == pairs_chars(fields@).take(k as int),
        decreases fields.len() - k,
    {
        let ghost prev = out@;
        let a = string_from_chars(&fields[k].0);
        let b = string_from_chars(&fields[k].1);
        out.push((a, b));
        assert(out@.map_values(|f: (String, String)| (f.0@, f.1@)) =~= prev.map_values(
            |f: (String, String)| (f.0@, f.1@),
        ).push((a@, b@)));
        assert(pairs_chars(fields@).take(k + 1) =~= pairs_chars(fields@).take(k as int).push(
            (fields@[k as int].0@, fields@[k as int].1@),
        ));
        k += 1;
    }
    let r = DebMetadata { fields: out };
    assert(r.fields_view() =~= pairs_chars(fields@));
    r
}

// ---------------------------------------------------------------------------
// The ar container
// ---------------------------------------------------------------------------

/// The global header of an ar archive: `!<arch>` and a newline.
pub open spec fn ar_magic() -> Seq<u8> {
    seq![0x21u8, 0x3c, 0x61, 0x72, 0x63, 0x68, 0x3e, 0x0a]
}

/// The message of an `InvalidDeb` error.
pub open spec fn invalid_deb_message(e: DebError) -> Option<Seq<char>> {
    match e {
        DebError::InvalidDeb(m) => Some(m@),
        _ => None,
    }
}

/// Check the 8-byte global header of a DEB file.
pub fn check_ar_magic(magic: &[u8]) -> (r: Result<(), DebError>)
    requires
        magic@.len() == 8,
    ensures
        magic@ == ar_magic() ==> r is Ok,
        magic@ != ar_magic() ==> (r matches Err(e) && invalid_deb_message(e) == Some(
            "not a DEB file (bad ar magic)"@,
        )),
{
    let expected: [u8; 8] = [0x21u8, 0x3c, 0x61, 0x72, 0x63, 0x68, 0x3e, 0x0a];
    let mut i: usize = 0;
    while i < 8
        invariant
            i <= 8,
            magic@.len() == 8,
            expected@ == ar_magic(),
            forall|j: int| 0 <= j < i ==> magic@[j] == ar_magic()[j],
        decreases 8 - i,
    {
        if magic[i] != expected[i] {
            return Err(DebError::InvalidDeb(lit("not a DEB file (bad ar magic)")));
        }
        i += 1;
    }
    assert(magic@ =~= ar_magic());
    Ok(())
}

/// A member name without the `/` and space characters that pad it on the
/// right.
pub open spec fn trim_name_end(s: Seq<char>) -> Seq<char>
    decreases s.len(),
{
    if s.len() > 0 && (s.last() == '/' || s.last() == ' ') {
        trim_name_end(s.drop_last())
    } else {
        s
    }
}

/// The size field of a member header (bytes 48 to 58), as text: decoded
/// when it is UTF-8 (else `0`), then trimmed.
pub open spec fn ar_size_text(h: Seq<u8>) -> Seq<char> {
    let b = h.subrange(48, 58);
    trim(
        if valid_utf8(b) {
            decode_utf8(b)
        } else {
            "0"@
        },
    )
}

/// What a 60-byte member header declares: its name and data size, or why
/// it is refused.
pub open spec fn ar_member_header(h: Seq<u8>) -> Result<(Seq<char>, u64), Seq<char>> {
    if !(h[58] == 0x60u8 && h[59] == 0x0au8) {
        Err("invalid ar member header magic"@)
    } else if !valid_utf8(h.subrange(0, 16)) {
        Err("non-UTF8 ar member name"@)
    } else {
        match u64_from_str(ar_size_text(h)) {
            None => Err("invalid ar member size: '"@ + ar_size_text(h) + "'"@),
            Some(n) => Ok((trim_name_end(decode_utf8(h.subrange(0, 16))), n)),
        }
    }
}

fn trim_name_end_exec(s: &Vec<char>) -> (r: Vec<char>)
    ensures
        r@ == trim_name_end(s@),
{
    let mut n: usize = s.len();
    assert(s@.take(n as int) =~= s@);
    while n > 0 && (s[n - 1] == '/' || s[n - 1] == ' ')
        invariant
            n <= s@.len(),
            trim_name_end(s@.take(n as int)) == trim_name_end(s@),
        decreases n,
    {
        assert(s@.take(n as int).drop_last() =~= s@.take(n - 1));
        n -= 1;
    }
    let r = sub_chars(s, 0, n);
    assert(r@ =~= s@.take(n as int));
    r
}

fn copy_range(b: &[u8], lo: usize, hi: usize) -> (r: Vec<u8>)
    requires
        lo <= hi <= b@.len(),
    ensures
        r@ == b@.subrange(lo as int, hi as int),
{
    let mut out: Vec<u8> = Vec::new();
    let mut i: usize = lo;
    while i < hi
        invariant
            lo <= i <= hi,
            hi <= b@.len(),
            out@ == b@.subrange(lo as int, i as int),
        decreases hi - i,
    {
        out.push(b[i]);
        i += 1;
        assert(out@ =~= b@.subrange(lo as int, i as int));
    }
    out
}

/// Parse the 60-byte header of an ar member: the name (bytes 0 to 16,
/// right-padded) and the decimal data size (bytes 48 to 58), after the
/// header's closing magic is checked.
pub fn parse_ar_member_header(h: &[u8]) -> (r: Result<(String, u64), DebError>)
    requires
        h@.len() == 60,
    ensures
        match ar_member_header(h@) {
            Ok((name, size)) => r matches Ok((n, s)) && n@ == name && s == size,
            Err(m) => r matches Err(e) && invalid_deb_message(e) == Some(m),
        },
{
    if !(h[58] == 0x60 && h[59] == 0x0a) {
        return Err(DebError::InvalidDeb(lit("invalid ar member header magic")));
    }
    let name = match utf8_decode(copy_range(h, 0, 16)) {
        Some(s) => s,
        None => {
            return Err(DebError::InvalidDeb(lit("non-UTF8 ar member name")));
        },
    };
    let size_chars = match utf8_decode(copy_range(h, 48, 58)) {
        Some(s) => chars_of(s.as_str()),
        None => chars_of("0"),
    };
    proof {
        reveal_strlit("0");
    }
    let size_text = trim_chars(&size_chars);
    let size_str = string_from_chars(&size_text);
    assert(size_str@ == ar_size_text(h@));
    match parse_u64(size_str.as_str()) {
        None => {
            let mut v: Vec<char> = Vec::new();
            extend_str(&mut v, "invalid ar member size: '");
            extend_chars(&mut v, &size_text);
            extend_str(&mut v, "'");
            Err(DebError::InvalidDeb(string_from_chars(&v)))
        },
        Some(n) => {
            let nm = trim_name_end_exec(&chars_of(name.as_str()));
            Ok((string_from_chars(&nm), n))
        },
    }
}

/// How far past a member's data the next header starts: the data, and one
/// byte of padding after odd-sized data.
pub fn ar_member_skip(size: u64) -> (r: u64)
    requires
        size < u64::MAX,
    ensures
        r == size + size % 2,
{
    size + size % 2
}

/// Whether `name` starts the name of a `control.tar` member.
pub open spec fn is_control_member(name: Seq<char>) -> bool {
    name.len() >= 11 && name.take(11) == "control.tar"@
}

/// Whether a member name is that of the `control.tar` member.
pub fn is_control_member_exec(name: &str) -> (r: bool)
    ensures
        r == is_control_member(name@),
{
    let v = chars_of(name);
    let p = chars_of("control.tar");
    proof {
        reveal_strlit("control.tar");
    }
    if v.len() < p.len() {
        return false;
    }
    let mut i: usize = 0;
    while i < p.len()
        invariant
            i <= p.len(),
            p@ == "control.tar"@,
            p.len() == 11,
            p.len() <= v.len(),
            v@ == name@,
            forall|j: int| 0 <= j < i ==> v@[j] == p@[j],
        decreases p.len() - i,
    {
        if v[i] != p[i] {
            assert(v@.take(11)[i as int] == v@[i as int]);
            assert(v@.take(11) != "control.tar"@) by {
                if v@.take(11) == "control.tar"@ {
                    assert(v@.take(11)[i as int] == p@[i as int]);
                }
            }
            return false;
        }
        i += 1;
    }
    assert(v@.take(11) =~= p@);
    true
}

/// Whether `s` ends with `suffix`.
pub open spec fn ends_with(s: Seq<char>, suffix: Seq<char>) -> bool {
    s.len() >= suffix.len() && s.subrange(s.len() - suffix.len(), s.len() as int) == suffix
}

fn ends_with_exec(s: &Vec<char>, suffix: &str) -> (r: bool)
    ensures
        r == ends_with(s@, suffix@),
{
    let f = chars_of(suffix);
    if s.len() < f.len() {
        return false;
    }
    let off = s.len() - f.len();
    let mut i: usize = 0;
    while i < f.len()
        invariant
            i <= f.len(),
            off + f.len() == s.len(),
            f@ == suffix@,
            forall|j: int| 0 <= j < i ==> s@[off + j] == f@[j],
        decreases f.len() - i,
    {
        if s[off + i] != f[i] {
            assert(s@.subrange(off as int, s.len() as int)[i as int] == s@[off + i]);
            return false;
        }
        i += 1;
    }
    assert(s@.subrange(off as int, s.len() as int) =~= f@);
    true
}

/// The compression of a `control.tar` member, told by its name's ending.
pub open spec fn control_member_algorithm(name: Seq<char>) -> Algorithm {
    if ends_with(name, ".zst"@) {
        Algorithm::Zstd
    } else if ends_with(name, ".gz"@) {
        Algorithm::Gzip
    } else if ends_with(name, ".xz"@) {
        Algorithm::Xz
    } else {
        Algorithm::Uncompressed
    }
}

/// The compression of a `control.tar` member, told by its name's ending
/// (`.zst`, `.gz`, `.xz`; none otherwise).
pub fn control_member_algorithm_exec(name: &str) -> (r: Algorithm)
    ensures
        r == control_member_algorithm(name@),
{
    let v = chars_of(name);
    if ends_with_exec(&v, ".zst") {
        Algorithm::Zstd
    } else if ends_with_exec(&v, ".gz") {
        Algorithm::Gzip
    } else if ends_with_exec(&v, ".xz") {
        Algorithm::Xz
    } else {
        Algorithm::Uncompressed
    }
}

/// Whether a path inside `control.tar` is the control file.
pub fn is_control_file_path(path: &str) -> (r: bool)
    ensures
        r == (path@ == "./control"@ || path@ == "control"@),
{
    crate::text::str_eq(path, "./control") || crate::text::str_eq(path, "control")
}

// ---------------------------------------------------------------------------
// Reading back a written control file
// ---------------------------------------------------------------------------

/// The line of a control field: `Key: value`.
pub open spec fn field_line(f: (Seq<char>, Seq<char>)) -> Seq<char> {
    f.0 + ": "@ + f.1
}

/// A control file of the fields: their lines, each ending with a newline.
pub open spec fn render_fields(fs: Seq<(Seq<char>, Seq<char>)>) -> Seq<char> {
    crate::text::join(fs.map_values(|f: (Seq<char>, Seq<char>)| field_line(f)), "\n"@) + "\n"@
}

/// Whether a character occurs in a string.
pub open spec fn has_char(s: Seq<char>, c: char) -> bool {
    exists|i: int| 0 <= i < s.len() && s[i] == c
}

/// A field that reads back as written: a non-empty key without a colon,
/// a line break or a leading space or tab, and a value without a line
/// break that does not start with whitespace and does not end with a
/// carriage return.
pub open spec fn plain_field(f: (Seq<char>, Seq<char>)) -> bool {
    &&& f.0.len() > 0
    &&& f.0[0] != ' ' && f.0[0] != '\t'
    &&& !has_char(f.0, ':')
    &&& !has_char(f.0, '\n')
    &&& !has_char(f.1, '\n')
    &&& (f.1.len() > 0 ==> !crate::text::is_ws(f.1[0]) && f.1.last() != '\r')
}

proof fn lemma_split_nl_line(s: Seq<char>, l: Seq<char>)
    requires
        !has_char(l, '\n'),
    ensures
        split_nl(s + l) == split_nl(s).update(split_nl(s).len() - 1, split_nl(s).last() + l),
        split_nl(s + l).len() == split_nl(s).len(),
    decreases l.len(),
{
    lemma_split_nl_len(s);
    if l.len() == 0 {
        assert(s + l =~= s);
        assert(split_nl(s).last() + l =~= split_nl(s).last());
        assert(split_nl(s).update(split_nl(s).len() - 1, split_nl(s).last()) =~= split_nl(s));
    } else {
        let init = l.drop_last();
        assert(!has_char(init, '\n')) by {
            if has_char(init, '\n') {
                let i = choose|i: int| 0 <= i < init.len() && init[i] == '\n';
                assert(l[i] == '\n');
            }
        }
        lemma_split_nl_line(s, init);
        assert((s + l).drop_last() =~= s + init);
        assert((s + l).last() == l.last());
        assert(l.last() != '\n') by {
            assert(l[l.len() - 1] == l.last());
        }
        let p = split_nl(s + init);
        assert(p.last() == split_nl(s).last() + init);
        assert(p.last().push(l.last()) =~= split_nl(s).last() + l);
        assert(split_nl(s + l) =~= split_nl(s).update(split_nl(s).len() - 1, split_nl(s).last() + l));
    }
}

proof fn lemma_split_nl_len(s: Seq<char>)
    ensures
        split_nl(s).len() >= 1,
    decreases s.len(),
{
    if s.len() > 0 {
        lemma_split_nl_len(s.drop_last());
    }
}

proof fn lemma_split_nl_lines(ls: Seq<Seq<char>>)
    requires
        ls.len() > 0,
        forall|i: int| 0 <= i < ls.len() ==> !has_char(#[trigger] ls[i], '\n'),
    ensures
        split_nl(crate::text::join(ls, "\n"@)) == ls,
    decreases ls.len(),
{
    if ls.len() == 1 {
        lemma_split_nl_line(seq![], ls[0]);
        assert(seq![] + ls[0] =~= ls[0]);
        assert(split_nl(Seq::<char>::empty()) == seq![Seq::<char>::empty()]);
        assert(Seq::<char>::empty() + ls[0] =~= ls[0]);
        assert(seq![Seq::<char>::empty()].update(0, ls[0]) =~= ls);
    } else {
        let init = ls.drop_last();
        assert forall|i: int| 0 <= i < init.len() implies !has_char(#[trigger] init[i], '\n') by {
            assert(init[i] == ls[i]);
        }
        lemma_split_nl_lines(init);
        let j = crate::text::join(init, "\n"@);
        reveal_strlit("\n");
        let jn = j + "\n"@;
        assert(jn.drop_last() =~= j);
        assert(jn.last() == '\n');
        assert(split_nl(jn) == init.push(seq![]));
        assert(!has_char(ls.last(), '\n')) by {
            assert(ls.last() == ls[ls.len() - 1]);
        }
        lemma_split_nl_line(jn, ls.last());
        assert(crate::text::join(ls, "\n"@) == jn + ls.last());
        assert(Seq::<char>::empty() + ls.last() =~= ls.last());
        assert(init.push(seq![]).update(init.len() as int, ls.last()) =~= ls);
    }
}

/// A control file written from plain fields is split back into its lines.
proof fn lemma_text_lines_of_render(ls: Seq<Seq<char>>)
    requires
        ls.len() > 0,
        forall|i: int|
            0 <= i < ls.len() ==> !has_char(#[trigger] ls[i], '\n') && (ls[i].len() > 0 ==> ls[i].last() != '\r'),
    ensures
        text_lines(crate::text::join(ls, "\n"@) + "\n"@) == ls,
{
    lemma_split_nl_lines(ls);
    let j = crate::text::join(ls, "\n"@);
    reveal_strlit("\n");
    let t = j + "\n"@;
    assert(t.drop_last() =~= j);
    let ps = split_nl(t);
    assert(ps == ls.push(seq![]));
    assert(ps.drop_last() =~= ls);
    assert(ls.map_values(|l: Seq<char>| strip_cr(l)) =~= ls) by {
        assert forall|i: int| 0 <= i < ls.len() implies strip_cr(ls[i]) == ls[i] by {
            if ls[i].len() > 0 {
                assert(ls[i].last() != '\r');
            }
        }
    }
    assert(text_lines(t) =~= ls);
}

proof fn lemma_find_colon(k: Seq<char>, rest: Seq<char>)
    requires
        !has_char(k, ':'),
    ensures
        find_char(k + ":"@ + rest, ':') == Some(k.len() as int),
    decreases k.len(),
{
    reveal_strlit(":");
    if k.len() == 0 {
        assert((k + ":"@ + rest)[0] == ':');
    } else {
        assert(k[0] != ':');
        let k2 = k.drop_first();
        assert(!has_char(k2, ':')) by {
            if has_char(k2, ':') {
                let i = choose|i: int| 0 <= i < k2.len() && k2[i] == ':';
                assert(k[i + 1] == ':');
            }
        }
        lemma_find_colon(k2, rest);
        assert((k + ":"@ + rest).drop_first() =~= k2 + ":"@ + rest);
    }
}

/// The line of a plain field parses back into the field.
proof fn lemma_parse_field_line(fs: Seq<(Seq<char>, Seq<char>)>, f: (Seq<char>, Seq<char>))
    requires
        plain_field(f),
    ensures
        parse_step(fs, field_line(f)) == fs.push(f),
{
    reveal_strlit(": ");
    reveal_strlit(":");
    let l = field_line(f);
    assert(l == f.0 + ":"@ + (" "@ + f.1)) by {
        reveal_strlit(" ");
        assert(f.0 + ": "@ + f.1 =~= f.0 + ":"@ + (" "@ + f.1));
    }
    lemma_find_colon(f.0, " "@ + f.1);
    assert(l[0] == f.0[0]);
    reveal_strlit(" ");
    assert(l.take(f.0.len() as int) =~= f.0);
    let after = l.skip(f.0.len() as int + 1);
    assert(after =~= " "@ + f.1);
    assert(is_ws(' '));
    assert(after.drop_first() =~= f.1);
    assert(trim_start(f.1) == f.1);
}

/// The fields of plain field lines, in order.
proof fn lemma_parse_fields_render(fs: Seq<(Seq<char>, Seq<char>)>)
    requires
        forall|i: int| 0 <= i < fs.len() ==> plain_field(#[trigger] fs[i]),
    ensures
        parse_fields(fs.map_values(|f: (Seq<char>, Seq<char>)| field_line(f))) == fs,
    decreases fs.len(),
{
    if fs.len() > 0 {
        let init = fs.drop_last();
        assert forall|i: int| 0 <= i < init.len() implies plain_field(#[trigger] init[i]) by {
            assert(init[i] == fs[i]);
        }
        lemma_parse_fields_render(init);
        let ls = fs.map_values(|f: (Seq<char>, Seq<char>)| field_line(f));
        assert(ls.drop_last() =~= init.map_values(|f: (Seq<char>, Seq<char>)| field_line(f)));
        assert(ls.last() == field_line(fs.last()));
        assert(plain_field(fs[fs.len() - 1]));
        lemma_parse_field_line(init, fs.last());
        assert(init.push(fs.last()) =~= fs);
    }
}

/// A control file written from fields is read back as those fields, in
/// order, when every field is plain (see [`plain_field`]).
pub proof fn law_control_fields_read_back(fs: Seq<(Seq<char>, Seq<char>)>)
    requires
        fs.len() > 0,
        forall|i: int| 0 <= i < fs.len() ==> plain_field(#[trigger] fs[i]),
    ensures
        parse_fields(text_lines(render_fields(fs))) == fs,
{
    let ls = fs.map_values(|f: (Seq<char>, Seq<char>)| field_line(f));
    assert forall|i: int| 0 <= i < ls.len() implies !has_char(#[trigger] ls[i], '\n') && (ls[i].len() > 0
        ==> ls[i].last() != '\r') by {
        let f = fs[i];
        assert(plain_field(f));
        assert(ls[i] == field_line(f));
        reveal_strlit(": ");
        if has_char(ls[i], '\n') {
            let j = choose|j: int| 0 <= j < ls[i].len() && ls[i][j] == '\n';
            if j < f.0.len() {
                assert(f.0[j] == '\n');
            } else if j < f.0.len() + 2 {
                assert(ls[i][j] == ": "@[j - f.0.len()]);
            } else {
                assert(f.1[j - f.0.len() - 2] == '\n');
            }
        }
        if f.1.len() > 0 {
            assert(ls[i].last() == f.1.last());
        } else {
            assert(ls[i].last() == ' ');
        }
    }
    lemma_text_lines_of_render(ls);
    lemma_parse_fields_render(fs);
}

/// A list field: `key` with the items joined by `, `, or none without items.
pub open spec fn list_field(key: Seq<char>, items: Seq<Seq<char>>) -> Seq<(Seq<char>, Seq<char>)> {
    if items.len() == 0 {
        seq![]
    } else {
        seq![(key, crate::text::join(items, ", "@))]
    }
}

/// The fields of a generated control file, in the order they are written.
pub open spec fn control_fields(
    name: Seq<char>,
    total_size: nat,
    plan: PackagePlan,
    config: Config,
    extra: Seq<Seq<char>>,
) -> Seq<(Seq<char>, Seq<char>)> {
    let deps = config.package.dependencies;
    seq![
        ("Package"@, name),
        ("Version"@, plan.version@ + "-"@ + plan.release@),
        ("Architecture"@, deb_arch_name(plan.arch@)),
        ("Maintainer"@, config.package.maintainer@),
        ("Installed-Size"@, crate::text::decimal((total_size + 1023) / 1024)),
        ("Section"@, section_of(config.deb)),
        ("Priority"@, priority_of(config.deb)),
    ] + list_field("Depends"@, strings_view(deps.requires@) + strings_view(deps.requires_deb@) + extra)
        + list_field("Conflicts"@, strings_view(deps.conflicts@)) + list_field(
        "Provides"@,
        strings_view(deps.provides@),
    ) + list_field("Replaces"@, strings_view(deps.replaces@)) + match config.package.url {
        Some(u) => seq![("Homepage"@, u@)],
        None => seq![],
    } + seq![("Description"@, config.package.description@)] + match config.deb {
        Some(d) => sort_fields(fields_view(d.fields@)),
        None => seq![],
    }
}

proof fn lemma_label(label: Seq<char>, key: Seq<char>, v: Seq<char>)
    requires
        label == key + ": "@,
    ensures
        label + v == field_line((key, v)),
{
    assert(label + v =~= key + ": "@ + v);
}

proof fn lemma_map_lines_add(a: Seq<(Seq<char>, Seq<char>)>, b: Seq<(Seq<char>, Seq<char>)>)
    ensures
        (a + b).map_values(|f: (Seq<char>, Seq<char>)| field_line(f)) == a.map_values(
            |f: (Seq<char>, Seq<char>)| field_line(f),
        ) + b.map_values(|f: (Seq<char>, Seq<char>)| field_line(f)),
{
    assert((a + b).map_values(|f: (Seq<char>, Seq<char>)| field_line(f)) =~= a.map_values(
        |f: (Seq<char>, Seq<char>)| field_line(f),
    ) + b.map_values(|f: (Seq<char>, Seq<char>)| field_line(f)));
}

proof fn lemma_list_lines(label: &str, key: &str, items: Seq<Seq<char>>)
    requires
        label@ == key@ + ": "@,
    ensures
        list_line(label@, items) == list_field(key@, items).map_values(|f: (Seq<char>, Seq<char>)| field_line(f)),
{
    if items.len() > 0 {
        lemma_label(label@, key@, crate::text::join(items, ", "@));
        assert(list_line(label@, items) =~= list_field(key@, items).map_values(
            |f: (Seq<char>, Seq<char>)| field_line(f),
        ));
    } else {
        assert(list_field(key@, items).map_values(|f: (Seq<char>, Seq<char>)| field_line(f)) =~= Seq::<
            Seq<char>,
        >::empty());
    }
}

/// The lines of a generated control file are the lines of its fields.
#[verifier::rlimit(40)]
proof fn lemma_control_lines_fields(
    name: Seq<char>,
    total_size: nat,
    plan: PackagePlan,
    config: Config,
    extra: Seq<Seq<char>>,
)
    ensures
        control_lines(name, total_size, plan, config, extra) == control_fields(
            name,
            total_size,
            plan,
            config,
            extra,
        ).map_values(|f: (Seq<char>, Seq<char>)| field_line(f)),
{
    reveal_strlit("Package: ");
    reveal_strlit("Package");
    reveal_strlit("Version: ");
    reveal_strlit("Version");
    reveal_strlit("Architecture: ");
    reveal_strlit("Architecture");
    reveal_strlit("Maintainer: ");
    reveal_strlit("Maintainer");
    reveal_strlit("Installed-Size: ");
    reveal_strlit("Installed-Size");
    reveal_strlit("Section: ");
    reveal_strlit("Section");
    reveal_strlit("Priority: ");
    reveal_strlit("Priority");
    reveal_strlit("Homepage: ");
    reveal_strlit("Homepage");
    reveal_strlit("Description: ");
    reveal_strlit("Description");
    reveal_strlit(": ");
    assert("Package: "@ =~= "Package"@ + ": "@);
    assert("Version: "@ =~= "Version"@ + ": "@);
    assert("Architecture: "@ =~= "Architecture"@ + ": "@);
    assert("Maintainer: "@ =~= "Maintainer"@ + ": "@);
    assert("Installed-Size: "@ =~= "Installed-Size"@ + ": "@);
    assert("Section: "@ =~= "Section"@ + ": "@);
    assert("Priority: "@ =~= "Priority"@ + ": "@);
    assert("Homepage: "@ =~= "Homepage"@ + ": "@);
    assert("Description: "@ =~= "Description"@ + ": "@);
    let deps = config.package.dependencies;
    let fl = |f: (Seq<char>, Seq<char>)| field_line(f);
    let head = control_fields(name, total_size, plan, config, extra).take(7);
    let hv = control_head(name, total_size, plan, config);
    assert(hv.len() == 7);
    assert forall|i: int| 0 <= i < 7 implies hv[i] == field_line(#[trigger] head[i]) by {
        if i == 0 {
            lemma_label("Package: "@, "Package"@, name);
        } else if i == 1 {
            lemma_label("Version: "@, "Version"@, plan.version@ + "-"@ + plan.release@);
            assert(hv[1] =~= "Version: "@ + (plan.version@ + "-"@ + plan.release@));
        } else if i == 2 {
            lemma_label("Architecture: "@, "Architecture"@, deb_arch_name(plan.arch@));
        } else if i == 3 {
            lemma_label("Maintainer: "@, "Maintainer"@, config.package.maintainer@);
        } else if i == 4 {
            lemma_label("Installed-Size: "@, "Installed-Size"@, crate::text::decimal((total_size + 1023) / 1024));
        } else if i == 5 {
            lemma_label("Section: "@, "Section"@, section_of(config.deb));
        } else {
            lemma_label("Priority: "@, "Priority"@, priority_of(config.deb));
        }
    }
    let h7 = seq![
        ("Package"@, name),
        ("Version"@, plan.version@ + "-"@ + plan.release@),
        ("Architecture"@, deb_arch_name(plan.arch@)),
        ("Maintainer"@, config.package.maintainer@),
        ("Installed-Size"@, crate::text::decimal((total_size + 1023) / 1024)),
        ("Section"@, section_of(config.deb)),
        ("Priority"@, priority_of(config.deb)),
    ];
    assert(h7 =~= head) by {
        assert(control_fields(name, total_size, plan, config, extra).take(7) =~= h7);
    }
    assert(hv =~= h7.map_values(fl));
    reveal_strlit("Depends: ");
    reveal_strlit("Depends");
    reveal_strlit("Conflicts: ");
    reveal_strlit("Conflicts");
    reveal_strlit("Provides: ");
    reveal_strlit("Provides");
    reveal_strlit("Replaces: ");
    reveal_strlit("Replaces");
    assert("Depends: "@ =~= "Depends"@ + ": "@);
    assert("Conflicts: "@ =~= "Conflicts"@ + ": "@);
    assert("Provides: "@ =~= "Provides"@ + ": "@);
    assert("Replaces: "@ =~= "Replaces"@ + ": "@);
    lemma_list_lines("Depends: ", "Depends", strings_view(deps.requires@) + strings_view(deps.requires_deb@) + extra);
    lemma_list_lines("Conflicts: ", "Conflicts", strings_view(deps.conflicts@));
    lemma_list_lines("Provides: ", "Provides", strings_view(deps.provides@));
    lemma_list_lines("Replaces: ", "Replaces", strings_view(deps.replaces@));
    let hp: Seq<(Seq<char>, Seq<char>)> = match config.package.url {
        Some(u) => seq![("Homepage"@, u@)],
        None => seq![],
    };
    let hl: Seq<Seq<char>> = match config.package.url {
        Some(u) => seq!["Homepage: "@ + u@],
        None => seq![],
    };
    match config.package.url {
        Some(u) => {
            lemma_label("Homepage: "@, "Homepage"@, u@);
        },
        None => {},
    }
    assert(hl =~= hp.map_values(fl));
    let dp = seq![("Description"@, config.package.description@)];
    lemma_label("Description: "@, "Description"@, config.package.description@);
    assert(seq!["Description: "@ + config.package.description@] =~= dp.map_values(fl));
    let ep: Seq<(Seq<char>, Seq<char>)> = match config.deb {
        Some(d) => sort_fields(fields_view(d.fields@)),
        None => seq![],
    };
    assert(extra_field_lines(config.deb) =~= ep.map_values(fl));
    let p1 = list_field("Depends"@, strings_view(deps.requires@) + strings_view(deps.requires_deb@) + extra);
    let p2 = list_field("Conflicts"@, strings_view(deps.conflicts@));
    let p3 = list_field("Provides"@, strings_view(deps.provides@));
    let p4 = list_field("Replaces"@, strings_view(deps.replaces@));
    let all = h7 + p1 + p2 + p3 + p4 + hp + dp + ep;
    assert(all == control_fields(name, total_size, plan, config, extra));
    lemma_map_lines_add(h7, p1);
    lemma_map_lines_add(h7 + p1, p2);
    lemma_map_lines_add(h7 + p1 + p2, p3);
    lemma_map_lines_add(h7 + p1 + p2 + p3, p4);
    lemma_map_lines_add(h7 + p1 + p2 + p3 + p4, hp);
    lemma_map_lines_add(h7 + p1 + p2 + p3 + p4 + hp, dp);
    lemma_map_lines_add(h7 + p1 + p2 + p3 + p4 + hp + dp, ep);
}

/// A generated control file is read back as the fields it was generated
/// with (see [`control_fields`]), when each of them is plain (see
/// [`plain_field`]): what `parse_control_file` gives back of what
/// `generate_control` writes.
pub proof fn law_control_read_back(
    name: Seq<char>,
    total_size: nat,
    plan: PackagePlan,
    config: Config,
    extra: Seq<Seq<char>>,
)
    requires
        forall|i: int|
            0 <= i < control_fields(name, total_size, plan, config, extra).len() ==> plain_field(
                #[trigger] control_fields(name, total_size, plan, config, extra)[i],
            ),
    ensures
        parse_fields(text_lines(control_text(name, total_size, plan, config, extra))) == control_fields(
            name,
            total_size,
            plan,
            config,
            extra,
        ),
{
    lemma_control_lines_fields(name, total_size, plan, config, extra);
    let fs = control_fields(name, total_size, plan, config, extra);
    assert(fs.len() >= 7);
    assert(control_text(name, total_size, plan, config, extra) == render_fields(fs));
    law_control_fields_read_back(fs);
}

// ---------------------------------------------------------------------------
// The control file inside the control.tar member
// ---------------------------------------------------------------------------

/// What `zstd::stream::decode_all` decodes from `data`, where it succeeds.
pub uninterp spec fn zstd_decoded(data: Seq<u8>) -> Seq<u8>;

/// What `flate2::read::GzDecoder` decodes from `data`, where it succeeds.
pub uninterp spec fn gzip_decoded(data: Seq<u8>) -> Seq<u8>;

/// What `xz2::read::XzDecoder` decodes from `data`, where it succeeds.
pub uninterp spec fn xz_decoded(data: Seq<u8>) -> Seq<u8>;

/// The path (lossily decoded) and contents of the entry at `index` of the
/// tar archive `data`, as `tar::Archive::entries` reads it; none where the
/// archive ends before it.
pub uninterp spec fn tar_entry_named(data: Seq<u8>, index: nat) -> Option<(Seq<char>, Seq<u8>)>;

/// `zstd::stream::decode_all(data)`; an error is returned as its message.
#[verifier::external_body]
fn zstd_decode_all(data: &[u8]) -> (r: Result<Vec<u8>, String>)
    ensures
        r matches Ok(v) ==> v@ == zstd_decoded(data@),
{
    zstd::stream::decode_all(data).map_err(|e| e.to_string())
}

/// `flate2::read::GzDecoder` over `data`, read to its end; an error is
/// returned as its message.
#[verifier::external_body]
fn gzip_decode_all(data: &[u8]) -> (r: Result<Vec<u8>, String>)
    ensures
        r matches Ok(v) ==> v@ == gzip_decoded(data@),
{
    let mut out = Vec::new();
    std::io::Read::read_to_end(&mut flate2::read::GzDecoder::new(data), &mut out).map_err(|e| e.to_string())?;
    Ok(out)
}

/// `xz2::read::XzDecoder` over `data`, read to its end; an error is
/// returned as its message.
#[verifier::external_body]
fn xz_decode_all(data: &[u8]) -> (r: Result<Vec<u8>, String>)
    ensures
        r matches Ok(v) ==> v@ == xz_decoded(data@),
{
    let mut out = Vec::new();
    std::io::Read::read_to_end(&mut xz2::read::XzDecoder::new(data), &mut out).map_err(|e| e.to_string())?;
    Ok(out)
}

/// The entry at `index` of the tar archive `data` (`tar::Archive::entries`,
/// then `nth`): its path, lossily decoded, and its contents; none where the
/// archive ends before it; an error of `tar` as its message. Each entry
/// takes at least one 512-byte header block, so an entry exists only at an
/// index below the archive's length.
#[verifier::external_body]
fn tar_entry_at(data: &[u8], index: usize) -> (r: Result<Option<(String, Vec<u8>)>, String>)
    ensures
        r matches Ok(Some((p, b))) ==> index < data@.len() && tar_entry_named(data@, index as nat) == Some(
            (p@, b@),
        ),
        r matches Ok(None) ==> tar_entry_named(data@, index as nat) is None,
{
    let mut archive = tar::Archive::new(data);
    match archive.entries().map_err(|e| e.to_string())?.nth(index) {
        None => Ok(None),
        Some(entry) => {
            let mut entry = entry.map_err(|e| e.to_string())?;
            let path = entry.path().map_err(|e| e.to_string())?.to_string_lossy().into_owned();
            let mut bytes = Vec::new();
            std::io::Read::read_to_end(&mut entry, &mut bytes).map_err(|e| e.to_string())?;
            Ok(Some((path, bytes)))
        },
    }
}

/// The tar archive inside a `control.tar` member compressed with `algorithm`.
pub open spec fn control_tar_bytes(algorithm: Algorithm, compressed: Seq<u8>) -> Seq<u8> {
    match algorithm {
        Algorithm::Zstd => zstd_decoded(compressed),
        Algorithm::Gzip => gzip_decoded(compressed),
        Algorithm::Xz => xz_decoded(compressed),
        Algorithm::Uncompressed => compressed,
    }
}

/// Whether a path inside `control.tar` is that of the control file.
pub open spec fn is_control_path(p: Seq<char>) -> bool {
    p == "./control"@ || p == "control"@
}

/// The contents of the first control file of the tar archive `tar`, looking
/// from entry `i` on.
pub open spec fn find_control(tar: Seq<u8>, i: nat) -> Option<Seq<u8>>
    decreases tar.len() - i,
{
    if i >= tar.len() {
        None
    } else {
        match tar_entry_named(tar, i) {
            None => None,
            Some((p, b)) => if is_control_path(p) {
                Some(b)
            } else {
                find_control(tar, i + 1)
            },
        }
    }
}

/// Decompress a `control.tar` member (its compression told by its name) and
/// read the control file (`./control` or `control`) out of it. Errors of
/// the decoder or of `tar`, and control text that is not UTF-8, are
/// `DebError::Tar`; an archive without a control file is `InvalidDeb`.
pub fn extract_control_file(member_name: &str, compressed: &[u8]) -> (r: Result<String, DebError>)
    ensures
        r matches Ok(t) ==> find_control(
            control_tar_bytes(control_member_algorithm(member_name@), compressed@),
            0,
        ) == Some(crate::bytes::utf8(t@)),
        r matches Err(e) ==> (e is Tar || e is InvalidDeb),
        r matches Err(DebError::InvalidDeb(m)) ==> m@ == "no control file found in control.tar"@
            && find_control(control_tar_bytes(control_member_algorithm(member_name@), compressed@), 0)
            is None,
        find_control(control_tar_bytes(control_member_algorithm(member_name@), compressed@), 0) matches Some(
            b,
        ) && !valid_utf8(b) ==> r is Err,
{
    let algorithm = control_member_algorithm_exec(member_name);
    let decoded = match algorithm {
        Algorithm::Zstd => zstd_decode_all(compressed),
        Algorithm::Gzip => gzip_decode_all(compressed),
        Algorithm::Xz => xz_decode_all(compressed),
        Algorithm::Uncompressed => Ok(copy_range(compressed, 0, compressed.len())),
    };
    let data = match decoded {
        Ok(d) => d,
        Err(m) => {
            return Err(DebError::Tar(m));
        },
    };
    let ghost tar = control_tar_bytes(control_member_algorithm(member_name@), compressed@);
    assert(data@ == tar);
    let n = data.len();
    let mut i: usize = 0;
    loop
        invariant
            i <= data@.len(),
            n == data@.len(),
            data@ == tar,
            tar == control_tar_bytes(control_member_algorithm(member_name@), compressed@),
            find_control(tar, 0) == find_control(tar, i as nat),
        decreases data@.len() - i,
    {
        match tar_entry_at(data.as_slice(), i) {
            Err(m) => {
                return Err(DebError::Tar(m));
            },
            Ok(None) => {
                assert(find_control(tar, i as nat) is None);
                return Err(DebError::InvalidDeb(lit("no control file found in control.tar")));
            },
            Ok(Some((path, bytes))) => {
                let ghost b = bytes@;
                assert(tar_entry_named(tar, i as nat) == Some((path@, b)));
                assert(i < data@.len());
                if is_control_file_path(path.as_str()) {
                    assert(find_control(tar, i as nat) == Some(b));
                    match utf8_decode(bytes) {
                        Some(text) => {
                            proof {
                                vstd::utf8::decode_utf8_encode_utf8(b);
                            }
                            return Ok(text);
                        },
                        None => {
                            return Err(DebError::Tar(lit("stream did not contain valid UTF-8")));
                        },
                    }
                }
                assert(find_control(tar, i as nat) == find_control(tar, (i + 1) as nat));
            },
        }
        i += 1;
    }
}

} // verus!
