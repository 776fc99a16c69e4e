//! Integer descriptions of the binary64 (`f64`) quantities used for size
//! estimates and human-readable sizes.
//!
//! A binary64 value has a 53-bit significand, so a non-negative integer `x`
//! converts to the nearest multiple of its unit in the last place, ties going
//! to the even multiple. Products of such a value with a constant ratio `m / 2^k`
//! (where `m` is the constant's 53-bit significand) are rounded the same way.
use vstd::prelude::*;

verus! {

/// `2^53`, the first integer whose binary64 neighbours are two apart.
pub open spec fn two53() -> nat {
    0x20000000000000
}

/// Spacing of binary64 values around the integer `x`.
pub open spec fn ulp53(x: nat) -> nat
    decreases x,
{
    if x < two53() {
        1
    } else {
        2 * ulp53(x / 2)
    }
}

/// `n / d` rounded to the nearest integer, ties to even.
pub open spec fn round_div_even(n: nat, d: nat) -> nat {
    let q = n / d;
    let r = n % d;
    if r * 2 > d || (r * 2 == d && q % 2 == 1) {
        q + 1
    } else {
        q
    }
}

/// The binary64 value nearest to `x`, ties to even (`x as f64` for an integer `x`).
pub open spec fn round53(x: nat) -> nat {
    round_div_even(x, ulp53(x)) * ulp53(x)
}

/// `(t as f64 * (m / 2^k)) as u64` for a constant with significand `m`,
/// written with `d == 2^k`: the binary64 product truncated toward zero and
/// saturated at `u64::MAX`.
pub open spec fn scaled_floor(t: nat, m: nat, d: nat) -> nat {
    let v = round53(round53(t) * m) / d;
    if v > u64::MAX {
        u64::MAX as nat
    } else {
        v
    }
}

proof fn lemma_ulp_pos(x: nat)
    ensures
        ulp53(x) >= 1,
    decreases x,
{
    if x >= two53() {
        lemma_ulp_pos(x / 2);
    }
}

/// `n / d` rounded to the nearest integer, ties to even.
pub fn round_div_even_exec(n: u128, d: u128) -> (r: u128)
    requires
        0 < d < 0x80000000000000000000000000000000,
        n / d < u128::MAX,
    ensures
        r == round_div_even(n as nat, d as nat),
{
    let q = n / d;
    let rem = n % d;
    if rem * 2 > d || (rem * 2 == d && q % 2 == 1) {
        q + 1
    } else {
        q
    }
}

/// The binary64 value nearest to `x`, ties to even.
pub fn round53_exec(x: u128) -> (r: u128)
    requires
        x < 0x1000000000000000000000000000000,
    ensures
        r == round53(x as nat),
        r <= 2 * x + 1,
{
    let mut u: u128 = 1;
    let mut y: u128 = x;
    while y >= 0x20000000000000
        invariant
            u >= 1,
            y == x / u,
            ulp53(x as nat) == u * ulp53(y as nat),
            u == 1 || u * 0x10000000000000 <= x,
            x < 0x1000000000000000000000000000000,
        decreases y,
    {
        proof {
            vstd::arithmetic::div_mod::lemma_div_denominator(x as int, u as int, 2);
            assert(ulp53(y as nat) == 2 * ulp53((y / 2) as nat));
            assert(u * ulp53(y as nat) == (u * 2) * ulp53((y / 2) as nat)) by (nonlinear_arith)
                requires
                    ulp53(y as nat) == 2 * ulp53((y / 2) as nat),
            ;
            assert(y * u <= x) by (nonlinear_arith)
                requires
                    y == x / u,
                    u >= 1,
            ;
            assert(u * 2 * 0x10000000000000 <= x) by (nonlinear_arith)
                requires
                    y >= 0x20000000000000,
                    y * u <= x,
            ;
        }
        y = y / 2;
        u = u * 2;
    }
    proof {
        assert(ulp53(y as nat) == 1);
        assert(ulp53(x as nat) == u) by (nonlinear_arith)
            requires
                ulp53(x as nat) == u * ulp53(y as nat),
                ulp53(y as nat) == 1,
        ;
        vstd::arithmetic::div_mod::lemma_fundamental_div_mod(x as int, u as int);
    }
    let q = x / u;
    let rem = x % u;
    assert(u <= x + 1);
    let n = if rem * 2 > u || (rem * 2 == u && q % 2 == 1) {
        q + 1
    } else {
        q
    };
    proof {
        assert(q * u <= x) by (nonlinear_arith)
            requires
                q == x / u,
                u >= 1,
        ;
        assert(n * u <= x + u) by (nonlinear_arith)
            requires
                n <= q + 1,
                q * u <= x,
        ;
        assert(n == round_div_even(x as nat, u as nat));
        assert(round53(x as nat) == round_div_even(x as nat, u as nat) * u);
    }
    n * u
}

/// `(t as f64 * c) as u64` for a constant `c == m / d` with a 53-bit
/// significand `m` and a power of two `d`.
pub fn scaled_floor_exec(t: u64, m: u64, d: u128) -> (r: u64)
    requires
        0 < m < 0x20000000000000,
        0 < d < 0x80000000000000000000000000000000,
    ensures
        r == scaled_floor(t as nat, m as nat, d as nat),
{
    let a = round53_exec(t as u128);
    assert(a * (m as u128) < 0x1000000000000000000000000000000) by (nonlinear_arith)
        requires
            a <= 2 * (t as u128) + 1,
            t <= 0xFFFF_FFFF_FFFF_FFFF,
            m < 0x20000000000000,
    ;
    let b = round53_exec(a * (m as u128));
    let v = b / d;
    if v > 0xFFFF_FFFF_FFFF_FFFF {
        0xFFFF_FFFF_FFFF_FFFF
    } else {
        v as u64
    }
}

/// Doubles the numerator of `n / d` until the quotient reaches `2^52`;
/// `u` collects the factor applied.
pub open spec fn scale_up(n: nat, d: nat, u: nat) -> (nat, nat, nat)
    decreases (if n < 0x10000000000000 * d { 0x10000000000000 * d - n } else { 0 }),
{
    if 0 < n && n < 0x10000000000000 * d {
        scale_up(2 * n, d, 2 * u)
    } else {
        (n, d, u)
    }
}

/// Doubles the denominator of `n / d` until the quotient falls below
/// `2^53`; `w` collects the factor applied.
pub open spec fn scale_down(n: nat, d: nat, w: nat) -> (nat, nat, nat)
    decreases (if n >= 0x20000000000000 * d { n - 0x20000000000000 * d + 1 } else { 0 }),
{
    if 0 < d && n >= 0x20000000000000 * d {
        scale_down(n, 2 * d, 2 * w)
    } else {
        (n, d, w)
    }
}

/// The binary64 quotient of positive integers `a / b` that binary64 holds
/// exactly, as `(m, w, u)` with value `m * w / u`: the quotient is scaled by
/// a power of two into `[2^52, 2^53)` (by `u` upward or `w` downward) and
/// rounded to the nearest integer, ties to even.
pub open spec fn quotient_parts(a: nat, b: nat) -> (nat, nat, nat) {
    let (n1, d1, u) = scale_up(a, b, 1);
    let (n2, d2, w) = scale_down(n1, d1, 1);
    (round_div_even(n2, d2), w, u)
}

/// `(a as f64 / b as f64) * 100.0` for positive `a`, `b` that binary64 holds
/// exactly, as `(k, w, u)` with value `k * w / u`.
pub open spec fn percent_parts(a: nat, b: nat) -> (nat, nat, nat) {
    let (m, w, u) = quotient_parts(a, b);
    (round53(m * 100), w, u)
}

/// `(a as f64 / b as f64) * 100.0` for positive `a`, `b` that binary64
/// holds exactly, as `(k, w, u)` with value `k * w / u`.
pub fn percent_exec(a: u128, b: u128) -> (r: (u128, u128, u128))
    requires
        0 < a <= 0x10000000000000000,
        0 < b <= 0x10000000000000000,
    ensures
        (r.0 as nat, r.1 as nat, r.2 as nat) == percent_parts(a as nat, b as nat),
        r.0 < 0x4000000000000000,
        0 < r.1 <= 0x2000,
        0 < r.2 <= 0x200000000000000000000000000000,
{
    let mut n: u128 = a;
    let d: u128 = b;
    let mut u: u128 = 1;
    while n < 0x10000000000000 * d
        invariant
            0 < n,
            0 < u,
            n == a * u,
            d == b,
            b <= 0x10000000000000000,
            u == 1 || n < 0x20000000000000 * d,
            scale_up(n as nat, d as nat, u as nat) == scale_up(a as nat, b as nat, 1),
        decreases (if n < 0x10000000000000 * d { 0x10000000000000 * d - n } else { 0 }),
    {
        assert(u <= n) by (nonlinear_arith)
            requires
                n == a * u,
                0 < a,
        ;
        n = n * 2;
        u = u * 2;
        assert(n == a * u) by (nonlinear_arith)
            requires
                n == 2 * (a * (u / 2)),
                u % 2 == 0,
        ;
    }
    assert(u <= n) by (nonlinear_arith)
        requires
            n == a * u,
            0 < a,
    ;
    let mut dd: u128 = d;
    let mut w: u128 = 1;
    while n >= 0x20000000000000 * dd
        invariant
            0 < n,
            0 < dd,
            0 < w,
            dd == b * w,
            dd <= 0x10000000000000000,
            w == 1 || dd <= 0x2000,
            n <= 0x10000000000000000 || n < 0x20000000000000 * dd,
            scale_down(n as nat, dd as nat, w as nat) == scale_down(
                scale_up(a as nat, b as nat, 1).0,
                scale_up(a as nat, b as nat, 1).1,
                1,
            ),
        decreases (if n >= 0x20000000000000 * dd { n - 0x20000000000000 * dd + 1 } else { 0 }),
    {
        assert(w <= dd) by (nonlinear_arith)
            requires
                dd == b * w,
                0 < b,
        ;
        dd = dd * 2;
        w = w * 2;
        assert(dd == b * w) by (nonlinear_arith)
            requires
                dd == 2 * (b * (w / 2)),
                w % 2 == 0,
        ;
    }
    assert(w <= dd) by (nonlinear_arith)
        requires
            dd == b * w,
            0 < b,
    ;
    assert(n < 0x20000000000000 * dd);
    let m = round_div_even_exec(n, dd);
    assert(m <= 0x20000000000000) by {
        assert(n / dd < 0x20000000000000) by (nonlinear_arith)
            requires
                n < 0x20000000000000 * dd,
                dd > 0,
        ;
    }
    let k = round53_exec(m * 100);
    (k, w, u)
}

/// A `u64` converts to at most `2^64`.
pub proof fn lemma_round53_le_pow64(x: nat)
    requires
        x <= u64::MAX,
    ensures
        round53(x) <= 0x10000000000000000,
{
    lemma_ulp_pos(x);
    let u = ulp53(x);
    lemma_ulp_divides_pow64(x);
    let q = x / u;
    assert(q * u <= x) by (nonlinear_arith)
        requires
            q == x / u,
            u >= 1,
    ;
    assert(round_div_even(x, u) <= q + 1);
    assert(q * u < 0x10000000000000000);
    assert((q + 1) * u <= 0x10000000000000000) by (nonlinear_arith)
        requires
            q * u < 0x10000000000000000,
            0x10000000000000000nat % u == 0,
            u >= 1,
    ;
    assert(round_div_even(x, u) * u <= (q + 1) * u) by (nonlinear_arith)
        requires
            round_div_even(x, u) <= q + 1,
    ;
}

/// `m` is a power of two.
spec fn is_power_of_two(m: nat) -> bool
    decreases m,
{
    if m <= 1 {
        m == 1
    } else {
        m % 2 == 0 && is_power_of_two(m / 2)
    }
}

proof fn lemma_ulp_divides(x: nat, m: nat)
    requires
        x < two53() * m,
        is_power_of_two(m),
    ensures
        m % ulp53(x) == 0,
    decreases x,
{
    lemma_ulp_pos(x);
    if x >= two53() {
        assert(m > 1);
        assert(x / 2 < two53() * (m / 2));
        lemma_ulp_divides(x / 2, m / 2);
        let v = ulp53(x / 2);
        lemma_ulp_pos(x / 2);
        assert(m % (2 * v) == 0) by (nonlinear_arith)
            requires
                (m / 2) % v == 0,
                m % 2 == 0,
                v >= 1,
        {
            let q = (m / 2) / v;
            assert(m / 2 == q * v);
            assert(m == (2 * v) * q);
        }
    }
}

proof fn lemma_ulp_divides_pow64(x: nat)
    requires
        x <= u64::MAX,
    ensures
        0x10000000000000000nat % ulp53(x) == 0,
{
    reveal_with_fuel(is_power_of_two, 13);
    assert(is_power_of_two(2048));
    lemma_ulp_divides(x, 2048);
    lemma_ulp_pos(x);
    let u = ulp53(x);
    assert(0x10000000000000000nat % u == 0) by (nonlinear_arith)
        requires
            2048nat % u == 0,
            u >= 1,
    {
        let q = 2048nat / u;
        assert(2048 == q * u);
        assert(0x10000000000000000 == (q * 0x20000000000000) * u);
    }
}

} // verus!
