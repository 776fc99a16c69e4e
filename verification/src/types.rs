//! Shared types: format limits, output file names and human-readable sizes.
use vstd::prelude::*;

use crate::binary64::{round53, round53_exec, round_div_even, round_div_even_exec, scaled_floor};
use crate::text::{
    chars_eq_str, chars_of, contains_char, find_char, find_char_exec, lemma_find_char, decimal, digit_char, extend_chars, extend_str, framed, lit,
    push_decimal, string_from_chars, sub_chars, trim, trim_chars,
};
use crate::text::{is_ws, trim_end, trim_start};
use crate::binary64::{two53, ulp53};

verus! {

/// Format-specific size limits used by the planner.
#[derive(Debug, Clone)]
pub struct FormatLimits {
    /// Max compressed payload size per package (for auto-split decisions).
    pub max_compressed_payload: u64,
    /// Max individual file size before extended format is needed.
    pub max_file_size_standard: u64,
    /// Name of the format (for display messages).
    pub format_name: &'static str,
}

impl FormatLimits {
    /// RPM format limits.
    pub fn rpm() -> (l: Self)
        ensures
            l.max_compressed_payload == u64::MAX,
            l.max_file_size_standard == 0xFFFF_FFFF,
            l.format_name@ == "rpm"@,
    {
        FormatLimits {
            max_compressed_payload: u64::MAX,
            max_file_size_standard: 0xFFFF_FFFF,
            format_name: "rpm",
        }
    }

    /// DEB format limits.
    pub fn deb() -> (l: Self)
        ensures
            l.max_compressed_payload == 9_999_999_999,
            l.max_file_size_standard == u64::MAX,
            l.format_name@ == "deb"@,
    {
        FormatLimits {
            max_compressed_payload: 9_999_999_999,
            max_file_size_standard: u64::MAX,
            format_name: "deb",
        }
    }
}

/// Package output naming for the plan display.
#[derive(Debug, Clone)]
pub struct PackageFileName {
    pub name: String,
    pub version: String,
    pub release: String,
    pub arch: String,
    pub format: String,
}

/// The Debian spelling of an RPM-style architecture name.
pub open spec fn deb_arch_name(a: Seq<char>) -> Seq<char> {
    if a == "x86_64"@ {
        "amd64"@
    } else if a == "aarch64"@ {
        "arm64"@
    } else if a == "i686"@ {
        "i386"@
    } else if a == "armv7hl"@ {
        "armhf"@
    } else if a == "noarch"@ || a == "all"@ {
        "all"@
    } else {
        a
    }
}

/// Appends the Debian spelling of `arch` to `out`.
pub fn push_deb_arch(out: &mut Vec<char>, arch: &str)
    ensures
        final(out)@ == old(out)@ + deb_arch_name(arch@),
{
    let a = chars_of(arch);
    if chars_eq_str(&a, "x86_64") {
        extend_str(out, "amd64");
    } else if chars_eq_str(&a, "aarch64") {
        extend_str(out, "arm64");
    } else if chars_eq_str(&a, "i686") {
        extend_str(out, "i386");
    } else if chars_eq_str(&a, "armv7hl") {
        extend_str(out, "armhf");
    } else if chars_eq_str(&a, "noarch") || chars_eq_str(&a, "all") {
        extend_str(out, "all");
    } else {
        extend_chars(out, &a);
    }
}

impl PackageFileName {
    /// Generate the output filename for RPM format.
    pub fn rpm(name: &str, version: &str, release: &str, arch: &str) -> (s: String)
        ensures
            s@ == name@ + "-"@ + version@ + "-"@ + release@ + "."@ + arch@ + ".rpm"@,
    {
        let mut v: Vec<char> = Vec::new();
        extend_str(&mut v, name);
        extend_str(&mut v, "-");
        extend_str(&mut v, version);
        extend_str(&mut v, "-");
        extend_str(&mut v, release);
        extend_str(&mut v, ".");
        extend_str(&mut v, arch);
        extend_str(&mut v, ".rpm");
        assert(v@ =~= name@ + "-"@ + version@ + "-"@ + release@ + "."@ + arch@ + ".rpm"@);
        string_from_chars(&v)
    }

    /// Generate the output filename for DEB format.
    /// DEB uses amd64 instead of x86_64, arm64 instead of aarch64.
    pub fn deb(name: &str, version: &str, release: &str, arch: &str) -> (s: String)
        ensures
            s@ == name@ + "_"@ + version@ + "-"@ + release@ + "_"@ + deb_arch_name(arch@)
                + ".deb"@,
    {
        let mut v: Vec<char> = Vec::new();
        extend_str(&mut v, name);
        extend_str(&mut v, "_");
        extend_str(&mut v, version);
        extend_str(&mut v, "-");
        extend_str(&mut v, release);
        extend_str(&mut v, "_");
        push_deb_arch(&mut v, arch);
        extend_str(&mut v, ".deb");
        assert(v@ =~= name@ + "_"@ + version@ + "-"@ + release@ + "_"@ + deb_arch_name(arch@)
            + ".deb"@);
        string_from_chars(&v)
    }
}

// ---------------------------------------------------------------------------
// parse_size
// ---------------------------------------------------------------------------

/// ASCII decimal digits.
pub open spec fn is_digit(c: char) -> bool {
    48 <= (c as u32) <= 57
}

/// The value of an ASCII digit.
pub open spec fn digit_value(c: char) -> nat {
    ((c as u32) - 48) as nat
}

/// The value of a string of decimal digits (`0` for the empty string).
pub open spec fn digits_val(s: Seq<char>) -> nat
    decreases s.len(),
{
    if s.len() == 0 {
        0
    } else {
        digits_val(s.drop_last()) * 10 + digit_value(s.last())
    }
}

/// `10^n`.
pub open spec fn pow10(n: nat) -> nat
    decreases n,
{
    if n == 0 {
        1
    } else {
        pow10((n - 1) as nat) * 10
    }
}

/// Index of the first character that is neither a digit nor `.` (or the length).
pub open spec fn numeral_end(s: Seq<char>) -> nat
    decreases s.len(),
{
    if s.len() == 0 || !(is_digit(s[0]) || s[0] == '.') {
        0
    } else {
        1 + numeral_end(s.drop_first())
    }
}

/// A numeral made of digits and dots parses as a decimal number: at most one
/// dot and at least one digit (`"1."`, `".5"` and `"12"` do; `"."`, `""`, `"1.2.3"` do not).
pub open spec fn numeral_ok(n: Seq<char>) -> bool {
    match find_char(n, '.') {
        None => n.len() > 0,
        Some(p) => !n.skip(p + 1).contains('.') && n.len() > 1,
    }
}

/// The digits before the dot (all of them when there is none).
pub open spec fn numeral_int(n: Seq<char>) -> Seq<char> {
    match find_char(n, '.') {
        None => n,
        Some(p) => n.take(p),
    }
}

/// The digits after the dot (none when there is no dot).
pub open spec fn numeral_frac(n: Seq<char>) -> Seq<char> {
    match find_char(n, '.') {
        None => seq![],
        Some(p) => n.skip(p + 1),
    }
}

/// The byte multiplier a size suffix stands for.
pub open spec fn suffix_multiplier(s: Seq<char>) -> Option<nat> {
    if s == ""@ || s == "B"@ {
        Some(1)
    } else if s == "KiB"@ {
        Some(1024)
    } else if s == "MiB"@ {
        Some(1048576)
    } else if s == "GiB"@ {
        Some(1073741824)
    } else if s == "TiB"@ {
        Some(1099511627776)
    } else {
        None
    }
}

/// `floor(value * mult)` of a decimal numeral, saturated at `u64::MAX`.
pub open spec fn numeral_times(n: Seq<char>, mult: nat) -> nat {
    let f = numeral_frac(n);
    let v = digits_val(numeral_int(n)) * mult + (digits_val(f) * mult) / pow10(f.len());
    if v > u64::MAX {
        u64::MAX as nat
    } else {
        v
    }
}

/// Outcome of [`parse_size`].
pub open spec fn parse_size_result(s: Seq<char>) -> Result<u64, Seq<char>> {
    let t = trim(s);
    if t.len() == 0 {
        Err("empty size string"@)
    } else {
        let e = numeral_end(t) as int;
        let num = t.take(e);
        let suffix = trim(t.skip(e));
        if !numeral_ok(num) {
            Err("invalid number: '"@ + num + "'"@)
        } else {
            match suffix_multiplier(suffix) {
                None => Err("unknown size suffix: '"@ + suffix + "'"@),
                Some(m) => Ok(numeral_times(num, m) as u64),
            }
        }
    }
}

/// The view of a result carrying a `String` error.
pub open spec fn size_res_view(r: Result<u64, String>) -> Result<u64, Seq<char>> {
    match r {
        Ok(v) => Ok(v),
        Err(m) => Err(m@),
    }
}

proof fn lemma_numeral_end(t: Seq<char>, e: int)
    requires
        0 <= e <= t.len(),
        forall|j: int| 0 <= j < e ==> is_digit(#[trigger] t[j]) || t[j] == '.',
        e == t.len() || !(is_digit(t[e]) || t[e] == '.'),
    ensures
        numeral_end(t) == e,
    decreases e,
{
    if e > 0 {
        assert forall|j: int| 0 <= j < e - 1 implies is_digit(#[trigger] t.drop_first()[j])
            || t.drop_first()[j] == '.' by {
            assert(t.drop_first()[j] == t[j + 1]);
        }
        if e < t.len() {
            assert(t.drop_first()[e - 1] == t[e]);
        }
        lemma_numeral_end(t.drop_first(), e - 1);
    }
}

proof fn lemma_digits_prepend(d: char, t: Seq<char>)
    ensures
        digits_val(seq![d] + t) == digit_value(d) * pow10(t.len()) + digits_val(t),
    decreases t.len(),
{
    if t.len() == 0 {
        assert(seq![d] + t =~= seq![d]);
        assert(seq![d].drop_last() =~= Seq::<char>::empty());
        assert(seq![d].last() == d);
        assert(digits_val(seq![d]) == digits_val(seq![d].drop_last()) * 10 + digit_value(d));
        assert(digits_val(Seq::<char>::empty()) == 0);
        assert(pow10(0) == 1);
        assert(digit_value(d) * pow10(0) == digit_value(d));
    } else {
        let u = seq![d] + t;
        assert(u.drop_last() =~= seq![d] + t.drop_last());
        lemma_digits_prepend(d, t.drop_last());
        let a = digit_value(d);
        let p = pow10((t.len() - 1) as nat);
        let x = digits_val(t.drop_last());
        assert(u.last() == t.last());
        assert(digits_val(u) == digits_val(u.drop_last()) * 10 + digit_value(u.last()));
        assert(digits_val(t) == x * 10 + digit_value(t.last()));
        assert(pow10(t.len()) == p * 10);
        assert((a * p + x) * 10 + digit_value(t.last()) == a * (p * 10) + (x * 10 + digit_value(
            t.last(),
        ))) by (nonlinear_arith);
        assert(digits_val(u.drop_last()) == a * p + x);
        assert(digits_val(u) == a * pow10(t.len()) + digits_val(t));
    }
}

proof fn lemma_digits_bound(t: Seq<char>)
    requires
        forall|j: int| 0 <= j < t.len() ==> is_digit(#[trigger] t[j]),
    ensures
        digits_val(t) < pow10(t.len()),
    decreases t.len(),
{
    if t.len() > 0 {
        assert forall|j: int| 0 <= j < t.drop_last().len() implies is_digit(
            #[trigger] t.drop_last()[j],
        ) by {
            assert(t.drop_last()[j] == t[j]);
        }
        lemma_digits_bound(t.drop_last());
        assert(is_digit(t[t.len() - 1]));
        let x = digits_val(t.drop_last());
        let p = pow10((t.len() - 1) as nat);
        assert(x * 10 + digit_value(t.last()) < p * 10) by (nonlinear_arith)
            requires
                x < p,
                digit_value(t.last()) <= 9,
        ;
    }
}

proof fn lemma_frac_step(d: char, t: Seq<char>, m: nat)
    requires
        is_digit(d),
        m > 0,
    ensures
        (digits_val(seq![d] + t) * m) / pow10(t.len() + 1) == (digit_value(d) * m + (digits_val(
            t,
        ) * m) / pow10(t.len())) / 10,
{
    lemma_digits_prepend(d, t);
    let p = pow10(t.len());
    let a = digit_value(d);
    let x = digits_val(t);
    assert(pow10(t.len() + 1) == p * 10);
    lemma_pow10_pos(t.len());
    assert((a * p + x) * m == x * m + (a * m) * p) by (nonlinear_arith);
    vstd::arithmetic::div_mod::lemma_div_denominator(((a * p + x) * m) as int, p as int, 10);
    vstd::arithmetic::div_mod::lemma_hoist_over_denominator((x * m) as int, (a * m) as int, p);
}

proof fn lemma_pow10_pos(n: nat)
    ensures
        pow10(n) >= 1,
    decreases n,
{
    if n > 0 {
        lemma_pow10_pos((n - 1) as nat);
    }
}

fn is_digit_exec(c: char) -> (r: bool)
    ensures
        r == is_digit(c),
{
    let u = c as u32;
    48 <= u && u <= 57
}

/// Parse a human-readable size string into bytes.
///
/// Supports: bare numbers (bytes), B, KiB, MiB, GiB, TiB suffixes.
/// Decimal values like "4.5GiB" are supported; the result is the byte count
/// rounded down, saturated at `u64::MAX`.
pub fn parse_size(s: &str) -> (r: Result<u64, String>)
    ensures
        size_res_view(r) == parse_size_result(s@),
{
    let all = chars_of(s);
    let t = trim_chars(&all);
    if t.len() == 0 {
        return Err(lit("empty size string"));
    }
    let mut e: usize = 0;
    while e < t.len() && (is_digit_exec(t[e]) || t[e] == '.')
        invariant
            e <= t.len(),
            forall|j: int| 0 <= j < e ==> is_digit(#[trigger] t@[j]) || t@[j] == '.',
        decreases t.len() - e,
    {
        e += 1;
    }
    proof {
        lemma_numeral_end(t@, e as int);
    }
    let num = sub_chars(&t, 0, e);
    let suffix = trim_chars(&sub_chars(&t, e, t.len()));
    assert(num@ =~= t@.take(e as int));
    assert(t@.subrange(e as int, t@.len() as int) =~= t@.skip(e as int));
    let dot = find_char_exec(&num, '.');
    let (ok, int_end, frac_start) = match dot {
        None => (num.len() > 0, num.len(), num.len()),
        Some(p) => {
            let rest = sub_chars(&num, p + 1, num.len());
            assert(rest@ =~= num@.skip(p + 1));
            (!contains_char(&rest, '.') && num.len() > 1, p, p + 1)
        },
    };
    if !ok {
        return Err(framed("invalid number: '", &num, "'"));
    }
    let mult: u64 = if chars_eq_str(&suffix, "") || chars_eq_str(&suffix, "B") {
        1
    } else if chars_eq_str(&suffix, "KiB") {
        1024
    } else if chars_eq_str(&suffix, "MiB") {
        1048576
    } else if chars_eq_str(&suffix, "GiB") {
        1073741824
    } else if chars_eq_str(&suffix, "TiB") {
        1099511627776
    } else {
        return Err(framed("unknown size suffix: '", &suffix, "'"));
    };
    let ghost n = num@;
    let ghost ip = numeral_int(n);
    let ghost fp = numeral_frac(n);
    proof {
        lemma_find_char(n, '.');
        assert(ip =~= n.take(int_end as int));
        assert(fp =~= n.skip(frac_start as int));
        assert forall|j: int| 0 <= j < ip.len() implies is_digit(#[trigger] ip[j]) by {
            assert(ip[j] == n[j]);
            if dot is Some {
                assert(n[j] != '.');
            }
        }
        assert forall|j: int| 0 <= j < fp.len() implies is_digit(#[trigger] fp[j]) by {
            assert(fp[j] == n[j + frac_start]);
            if dot is Some {
                assert(fp.contains('.') == false);
                assert(fp[j] != '.');
            }
        }
    }
    // Integer part, capped at 2^64.
    let mut iv: u128 = 0;
    let mut i: usize = 0;
    while i < int_end
        invariant
            i <= int_end <= num.len(),
            n == num@,
            ip == n.take(int_end as int),
            forall|j: int| 0 <= j < ip.len() ==> is_digit(#[trigger] ip[j]),
            iv == (if digits_val(ip.take(i as int)) > 0x10000000000000000 {
                0x10000000000000000nat
            } else {
                digits_val(ip.take(i as int))
            }),
        decreases int_end - i,
    {
        let c = num[i];
        assert(ip[i as int] == c);
        let d = (c as u32 - 48) as u128;
        assert(d as nat == digit_value(c));
        assert(ip.take(i + 1).drop_last() =~= ip.take(i as int));
        assert(ip.take(i + 1).last() == c);
        let x = iv * 10 + d;
        iv = if x > 0x10000000000000000 { 0x10000000000000000 } else { x };
        i += 1;
    }
    assert(ip.take(int_end as int) =~= ip);
    // Fractional part: floor(frac * mult), digits taken from the last one back.
    let flen = num.len() - frac_start;
    assert(fp.len() == flen);
    let mut c: u64 = 0;
    let mut j: usize = flen;
    proof {
        assert(fp.skip(flen as int) =~= Seq::<char>::empty());
    }
    while j > 0
        invariant
            j <= flen,
            flen == fp.len(),
            frac_start + flen == num.len(),
            n == num@,
            fp == n.skip(frac_start as int),
            forall|k: int| 0 <= k < fp.len() ==> is_digit(#[trigger] fp[k]),
            1 <= mult <= 1099511627776,
            c as nat == (digits_val(fp.skip(j as int)) * (mult as nat)) / pow10((flen - j) as nat),
            c < mult,
        decreases j,
    {
        j -= 1;
        let ch = num[frac_start + j];
        assert(fp[j as int] == ch);
        let d = (ch as u32 - 48) as u64;
        proof {
            assert(fp.skip(j as int) =~= seq![ch] + fp.skip(j + 1));
            lemma_frac_step(ch, fp.skip(j + 1), mult as nat);
            assert((flen - j) as nat == (flen - (j + 1)) as nat + 1);
        }
        assert(d * mult + c < 10 * mult) by (nonlinear_arith)
            requires
                d <= 9,
                c < mult,
        ;
        c = (d * mult + c) / 10;
    }
    assert(fp.skip(0) =~= fp);
    assert(iv * (mult as u128) <= 0x10000000000000000 * 1099511627776) by (nonlinear_arith)
        requires
            iv <= 0x10000000000000000,
            mult <= 1099511627776,
    ;
    let total: u128 = iv * (mult as u128) + (c as u128);
    proof {
        lemma_digits_bound(fp);
        let dv = digits_val(ip);
        if dv > 0x10000000000000000 {
            assert(dv * mult >= 0x10000000000000000) by (nonlinear_arith)
                requires
                    dv > 0x10000000000000000,
                    mult >= 1,
            ;
            assert(iv * mult >= 0x10000000000000000) by (nonlinear_arith)
                requires
                    iv == 0x10000000000000000,
                    mult >= 1,
            ;
        }
    }
    if total > 0xFFFF_FFFF_FFFF_FFFF {
        Ok(0xFFFF_FFFF_FFFF_FFFF)
    } else {
        Ok(total as u64)
    }
}

// ---------------------------------------------------------------------------
// format_size
// ---------------------------------------------------------------------------

/// `n / 10` written with one decimal place (`"12.5"` for 125).
pub open spec fn one_decimal(n: nat) -> Seq<char> {
    decimal(n / 10) + "."@ + seq![digit_char(n % 10)]
}

/// `b / unit` as the binary64 quotient rounded to one decimal place (ties to
/// even), followed by `suffix`.
pub open spec fn scaled_text(b: nat, unit: nat, suffix: Seq<char>) -> Seq<char> {
    one_decimal(round_div_even(round53(b) * 10, unit)) + suffix
}

/// The text of [`format_size`].
pub open spec fn format_size_text(b: nat) -> Seq<char> {
    if b >= 1099511627776 {
        scaled_text(b, 1099511627776, " TiB"@)
    } else if b >= 1073741824 {
        scaled_text(b, 1073741824, " GiB"@)
    } else if b >= 1048576 {
        scaled_text(b, 1048576, " MiB"@)
    } else if b >= 1024 {
        scaled_text(b, 1024, " KiB"@)
    } else {
        decimal(b) + " B"@
    }
}

fn push_scaled(out: &mut Vec<char>, bytes: u64, unit: u64, suffix: &str)
    requires
        1024 <= unit,
    ensures
        final(out)@ == old(out)@ + scaled_text(bytes as nat, unit as nat, suffix@),
{
    let r = round53_exec(bytes as u128);
    assert(r * 10 <= (2 * 0xFFFF_FFFF_FFFF_FFFFu128 + 1) * 10);
    let rr = r * 10;
    let uu = unit as u128;
    let n = round_div_even_exec(rr, uu);
    assert(n <= rr / uu + 1);
    assert(rr / uu <= rr / 1024) by {
        vstd::arithmetic::div_mod::lemma_div_is_ordered_by_denominator(
            rr as int,
            1024,
            uu as int,
        );
    }
    let whole = (n / 10) as u64;
    let frac = (n % 10) as u64;
    push_decimal(out, whole);
    extend_str(out, ".");
    let mut d: Vec<char> = Vec::new();
    push_decimal(&mut d, frac);
    assert(decimal(frac as nat) == seq![digit_char(frac as nat)]);
    extend_chars(out, &d);
    extend_str(out, suffix);
    assert(final(out)@ =~= old(out)@ + scaled_text(bytes as nat, unit as nat, suffix@));
}

/// Format a byte count as a human-readable size string.
pub fn format_size(bytes: u64) -> (s: String)
    ensures
        s@ == format_size_text(bytes as nat),
{
    let mut v: Vec<char> = Vec::new();
    if bytes >= 1099511627776 {
        push_scaled(&mut v, bytes, 1099511627776, " TiB");
    } else if bytes >= 1073741824 {
        push_scaled(&mut v, bytes, 1073741824, " GiB");
    } else if bytes >= 1048576 {
        push_scaled(&mut v, bytes, 1048576, " MiB");
    } else if bytes >= 1024 {
        push_scaled(&mut v, bytes, 1024, " KiB");
    } else {
        push_decimal(&mut v, bytes);
        extend_str(&mut v, " B");
    }
    assert(v@ =~= format_size_text(bytes as nat));
    string_from_chars(&v)
}

} // verus!

verus! {

// ---------------------------------------------------------------------------
// Unsigned decimal numbers
// ---------------------------------------------------------------------------

/// The string without a leading `+`.
pub open spec fn unsigned_digits(s: Seq<char>) -> Seq<char> {
    if s.len() > 0 && s[0] == '+' {
        s.drop_first()
    } else {
        s
    }
}

/// Every character is an ASCII digit.
pub open spec fn all_digits(d: Seq<char>) -> bool {
    forall|i: int| 0 <= i < d.len() ==> is_digit(#[trigger] d[i])
}

/// What `str::parse::<u64>` accepts: an optional `+`, then at least one
/// ASCII digit and nothing else, whose value fits in 64 bits.
pub open spec fn u64_from_str(s: Seq<char>) -> Option<u64> {
    let d = unsigned_digits(s);
    if d.len() > 0 && all_digits(d) && digits_val(d) <= u64::MAX {
        Some(digits_val(d) as u64)
    } else {
        None
    }
}

/// A longer string of digits is worth at least as much as its prefix.
proof fn lemma_digits_val_prefix(d: Seq<char>, k: int)
    requires
        0 <= k <= d.len(),
        forall|i: int| 0 <= i < d.len() ==> is_digit(#[trigger] d[i]),
    ensures
        digits_val(d.take(k)) <= digits_val(d),
    decreases d.len() - k,
{
    if k < d.len() {
        lemma_digits_val_prefix(d, k + 1);
        assert(d.take(k + 1).drop_last() =~= d.take(k));
        assert(digits_val(d.take(k + 1)) == digits_val(d.take(k)) * 10 + digit_value(d[k]));
    } else {
        assert(d.take(k) =~= d);
    }
}

/// Parses an unsigned decimal number as `str::parse::<u64>` does.
pub fn parse_u64(s: &str) -> (r: Option<u64>)
    ensures
        r == u64_from_str(s@),
{
    let v = chars_of(s);
    let start: usize = if v.len() > 0 && v[0] == '+' { 1 } else { 0 };
    let ghost d = unsigned_digits(s@);
    assert(d =~= v@.skip(start as int));
    if start >= v.len() {
        return None;
    }
    let mut acc: u64 = 0;
    let mut i: usize = start;
    while i < v.len()
        invariant
            start <= i <= v.len(),
            v@ == s@,
            d == unsigned_digits(s@),
            d == v@.skip(start as int),
            forall|j: int| 0 <= j < i - start ==> is_digit(#[trigger] d[j]),
            acc == digits_val(d.take(i - start)),
        decreases v.len() - i,
    {
        let c = v[i];
        if !is_digit_exec(c) {
            assert(d[i - start] == c);
            assert(!is_digit(d[i - start]));
            assert(!all_digits(d));
            return None;
        }
        let dv: u64 = ((c as u32) - 48) as u64;
        assert(dv == digit_value(c));
        assert(d.take(i + 1 - start).drop_last() =~= d.take(i - start));
        assert(d.take(i + 1 - start).last() == c);
        if acc > (u64::MAX - dv) / 10 {
            proof {
                assert(acc * 10 + dv > u64::MAX) by (nonlinear_arith)
                    requires acc > (u64::MAX - dv) / 10, dv <= 9;
                assert(digits_val(d.take(i + 1 - start)) == acc * 10 + dv);
            }
            // The remaining characters decide between "not a number" and
            // "too large"; both give `None`.
            let mut k: usize = i + 1;
            while k < v.len()
                invariant
                    i < k <= v.len(),
                    start <= i,
                    v@ == s@,
                    d == unsigned_digits(s@),
                    d == v@.skip(start as int),
                    digits_val(d.take(i + 1 - start)) > u64::MAX,
                    forall|j: int| 0 <= j < k - start ==> is_digit(#[trigger] d[j]),
                decreases v.len() - k,
            {
                if !is_digit_exec(v[k]) {
                    assert(d[k - start] == v@[k as int]);
                    assert(!is_digit(d[k - start]));
                    assert(!all_digits(d));
                    return None;
                }
                k += 1;
            }
            proof {
                assert(digits_val(d.take(i + 1 - start)) == acc * 10 + dv);
                lemma_digits_val_prefix(d, i + 1 - start);
            }
            return None;
        }
        proof {
            assert(acc * 10 + dv <= u64::MAX) by (nonlinear_arith)
                requires acc <= (u64::MAX - dv) / 10, dv <= 9;
        }
        acc = acc * 10 + dv;
        i += 1;
    }
    assert(d.take(i - start) =~= d);
    Some(acc)
}

// ---------------------------------------------------------------------------
// Reading a formatted size back
// ---------------------------------------------------------------------------

proof fn lemma_digit_char(d: nat)
    requires
        d < 10,
    ensures
        is_digit(digit_char(d)),
        digit_value(digit_char(d)) == d,
        !is_ws(digit_char(d)),
        digit_char(d) != '.',
{
}

proof fn lemma_decimal_digits(n: nat)
    ensures
        decimal(n).len() > 0,
        all_digits(decimal(n)),
        digits_val(decimal(n)) == n,
    decreases n,
{
    if n < 10 {
        lemma_digit_char(n);
        let s = decimal(n);
        assert(s.drop_last() =~= Seq::<char>::empty());
        assert(digits_val(s) == digits_val(s.drop_last()) * 10 + digit_value(s.last()));
    } else {
        lemma_decimal_digits(n / 10);
        lemma_digit_char(n % 10);
        let s = decimal(n);
        assert(s.drop_last() =~= decimal(n / 10));
        assert(digits_val(s) == digits_val(s.drop_last()) * 10 + digit_value(s.last()));
    }
}

proof fn lemma_numeral_end_prefix(p: Seq<char>, q: Seq<char>)
    requires
        forall|j: int| 0 <= j < p.len() ==> is_digit(#[trigger] p[j]) || p[j] == '.',
    ensures
        numeral_end(p + q) == p.len() + numeral_end(q),
    decreases p.len(),
{
    if p.len() > 0 {
        assert((p + q).drop_first() =~= p.drop_first() + q);
        assert((p + q)[0] == p[0]);
        assert forall|j: int| 0 <= j < p.drop_first().len() implies is_digit(#[trigger] p.drop_first()[j])
            || p.drop_first()[j] == '.' by {
            assert(p.drop_first()[j] == p[j + 1]);
        }
        lemma_numeral_end_prefix(p.drop_first(), q);
    } else {
        assert(p + q =~= q);
    }
}

proof fn lemma_find_dot_after_digits(p: Seq<char>, q: Seq<char>)
    requires
        all_digits(p),
    ensures
        find_char(p + q, '.') == match find_char(q, '.') {
            Some(i) => Some(i + p.len()),
            None => None::<int>,
        },
    decreases p.len(),
{
    if p.len() > 0 {
        assert((p + q).drop_first() =~= p.drop_first() + q);
        assert((p + q)[0] == p[0]);
        assert(all_digits(p.drop_first())) by {
            assert forall|j: int| 0 <= j < p.drop_first().len() implies is_digit(#[trigger] p.drop_first()[j]) by {
                assert(p.drop_first()[j] == p[j + 1]);
            }
        }
        lemma_find_dot_after_digits(p.drop_first(), q);
    } else {
        assert(p + q =~= q);
    }
}

/// Splitting `num + " " + sfx` as `parse_size` does gives back `num` and
/// `sfx`.
proof fn lemma_size_text_parts(num: Seq<char>, sfx: Seq<char>)
    requires
        num.len() > 0,
        is_digit(num[0]),
        forall|j: int| 0 <= j < num.len() ==> is_digit(#[trigger] num[j]) || num[j] == '.',
        sfx.len() > 0,
        forall|j: int| 0 <= j < sfx.len() ==> !is_ws(#[trigger] sfx[j]) && !is_digit(sfx[j]) && sfx[j] != '.',
    ensures
        ({
            let t = num + seq![' '] + sfx;
            &&& trim(t) == t
            &&& numeral_end(t) == num.len()
            &&& t.take(num.len() as int) == num
            &&& trim(t.skip(num.len() as int)) == sfx
        }),
{
    let t = num + seq![' '] + sfx;
    assert(t[0] == num[0]);
    assert(t.last() == sfx.last());
    assert(trim_start(t) == t);
    assert(trim_end(t) == t);
    assert(t =~= num + (seq![' '] + sfx));
    lemma_numeral_end_prefix(num, seq![' '] + sfx);
    assert((seq![' '] + sfx)[0] == ' ');
    assert(numeral_end(seq![' '] + sfx) == 0);
    assert(t.take(num.len() as int) =~= num);
    let r = t.skip(num.len() as int);
    assert(r =~= seq![' '] + sfx);
    assert(r.drop_first() =~= sfx);
    assert(trim_start(sfx) == sfx);
    assert(trim_start(r) == sfx);
    assert(trim_end(sfx) == sfx);
}

proof fn lemma_no_dot_suffix(sfx: Seq<char>)
    requires
        forall|j: int| 0 <= j < sfx.len() ==> sfx[j] != '.',
    ensures
        find_char(sfx, '.') is None,
    decreases sfx.len(),
{
    if sfx.len() > 0 {
        assert forall|j: int| 0 <= j < sfx.drop_first().len() implies sfx.drop_first()[j] != '.' by {
            assert(sfx.drop_first()[j] == sfx[j + 1]);
        }
        lemma_no_dot_suffix(sfx.drop_first());
    }
}

/// What [`format_size`] writes for a whole number of bytes below 1024, or
/// of KiB, MiB or GiB below 1024 of them, [`parse_size`] reads back as the
/// same number of bytes.
pub proof fn law_format_size_parses_back(k: nat, unit: nat)
    requires
        (unit == 1 && k < 1024) || ((unit == 1024 || unit == 1048576 || unit == 1073741824) && 1 <= k
            < 1024),
    ensures
        parse_size_result(format_size_text(k * unit)) == Ok::<u64, Seq<char>>((k * unit) as u64),
{
    reveal_strlit(" B");
    reveal_strlit("B");
    reveal_strlit(" KiB");
    reveal_strlit("KiB");
    reveal_strlit(" MiB");
    reveal_strlit("MiB");
    reveal_strlit(" GiB");
    reveal_strlit("GiB");
    reveal_strlit(".");
    reveal_strlit("");
    lemma_decimal_digits(k);
    let dk = decimal(k);
    if unit == 1 {
        assert(k * unit == k);
        let sfx = "B"@;
        assert(" B"@ =~= seq![' '] + sfx);
        assert(format_size_text(k) == dk + " B"@);
        assert(dk + " B"@ =~= dk + seq![' '] + sfx);
        lemma_size_text_parts(dk, sfx);
        lemma_find_dot_after_digits(dk, Seq::<char>::empty());
        assert(dk + Seq::<char>::empty() =~= dk);
        assert(find_char(Seq::<char>::empty(), '.') is None);
        assert(numeral_frac(dk) =~= Seq::<char>::empty());
        assert(digits_val(Seq::<char>::empty()) == 0);
        assert(pow10(0) == 1);
        let t = format_size_text(k);
        assert(trim(t) == t);
        assert(numeral_end(t) == dk.len());
        assert(t.take(dk.len() as int) == dk);
        assert(numeral_ok(dk));
        assert(suffix_multiplier(sfx) == Some(1nat));
        assert(numeral_int(dk) == dk);
        assert(numeral_times(dk, 1) == k);
        assert(parse_size_result(t) == Ok::<u64, Seq<char>>(k as u64));
    } else {
        let b = k * unit;
        assert(unit <= b < 1024 * unit) by (nonlinear_arith)
            requires
                1 <= k < 1024,
                unit > 0,
                b == k * unit,
        ;
        assert(b < two53());
        assert(ulp53(b) == 1);
        assert(round53(b) == b);
        vstd::arithmetic::div_mod::lemma_div_by_multiple((k * 10) as int, unit as int);
        vstd::arithmetic::div_mod::lemma_mod_multiples_basic((k * 10) as int, unit as int);
        assert(b * 10 == (k * 10) * unit) by (nonlinear_arith)
            requires
                b == k * unit,
        ;
        assert(round_div_even(round53(b) * 10, unit) == k * 10);
        lemma_digit_char(0);
        let num = dk + "."@ + seq![digit_char(0)];
        assert(one_decimal(k * 10) == num);
        let sfx = if unit == 1024 {
            "KiB"@
        } else if unit == 1048576 {
            "MiB"@
        } else {
            "GiB"@
        };
        let text = if unit == 1024 {
            " KiB"@
        } else if unit == 1048576 {
            " MiB"@
        } else {
            " GiB"@
        };
        assert(text =~= seq![' '] + sfx);
        assert(format_size_text(b) == num + text);
        assert(num + text =~= num + seq![' '] + sfx);
        assert(num[0] == dk[0]);
        assert forall|j: int| 0 <= j < num.len() implies is_digit(#[trigger] num[j]) || num[j] == '.' by {
            if j < dk.len() {
                assert(num[j] == dk[j]);
            }
        }
        lemma_size_text_parts(num, sfx);
        assert(num =~= dk + ("."@ + seq![digit_char(0)]));
        lemma_find_dot_after_digits(dk, "."@ + seq![digit_char(0)]);
        assert(find_char("."@ + seq![digit_char(0)], '.') == Some(0int));
        assert(num.skip(dk.len() as int + 1) =~= seq![digit_char(0)]);
        assert(!seq![digit_char(0)].contains('.'));
        assert(numeral_int(num) =~= dk);
        assert(numeral_frac(num) =~= seq![digit_char(0)]);
        assert(seq![digit_char(0)].drop_last() =~= Seq::<char>::empty());
        assert(seq![digit_char(0)].last() == digit_char(0));
        assert(digits_val(Seq::<char>::empty()) == 0);
        assert(digits_val(seq![digit_char(0)]) == digits_val(seq![digit_char(0)].drop_last()) * 10
            + digit_value(seq![digit_char(0)].last()));
        assert(digits_val(seq![digit_char(0)]) == 0);
        assert(k * unit <= u64::MAX);
        let t = format_size_text(b);
        assert(trim(t) == t);
        assert(numeral_end(t) == num.len());
        assert(numeral_ok(num));
        assert(""@.len() == 0 && "B"@.len() == 1);
        if unit == 1024 {
            assert(sfx =~= "KiB"@);
            assert(sfx != ""@ && sfx != "B"@);
        } else if unit == 1048576 {
            assert(sfx =~= "MiB"@);
            assert(sfx[0] == 'M' && "KiB"@[0] == 'K');
            assert(sfx != ""@ && sfx != "B"@ && sfx != "KiB"@);
        } else {
            assert(sfx =~= "GiB"@);
            assert(sfx[0] == 'G' && "KiB"@[0] == 'K' && "MiB"@[0] == 'M');
            assert(sfx != ""@ && sfx != "B"@ && sfx != "KiB"@ && sfx != "MiB"@);
        }
        assert(suffix_multiplier(sfx) == Some(unit));
        assert(pow10(1) == 10) by {
            assert(pow10(0) == 1);
        }
        assert(numeral_frac(num).len() == 1);
        assert(digits_val(numeral_frac(num)) * unit == 0);
        assert((digits_val(numeral_frac(num)) * unit) / pow10(numeral_frac(num).len()) == 0);
        assert(digits_val(numeral_int(num)) * unit == b);
        assert(numeral_times(num, unit) == b);
        assert(parse_size_result(t) == Ok::<u64, Seq<char>>(b as u64));
    }
}

} // verus!
